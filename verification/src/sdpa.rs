//! Scaled dot product attention: what has to happen before the fused kernels take it.

use crate::datum::{float_width, DatumType};
use crate::fact::{fact_views, TypedFact, TypedFactView};
use crate::text::joined;
use vstd::prelude::*;

verus! {

/// What an attention node that is wired anew reads.
#[derive(Debug, Clone, Copy, PartialEq, Eq, Structural)]
pub enum SdpaInput {
    /// An input of the old node.
    Tap(usize),
    /// The mask, once it is cast.
    CastMask,
}

/// A cast of the mask, and what the attention node reads afterwards.
#[derive(Debug)]
pub struct MaskCast {
    /// The name of the cast.
    pub name: String,
    /// The element type that the mask is cast to.
    pub to: DatumType,
    pub inputs: Vec<SdpaInput>,
}

/// The inputs are query, key, value and mask, and the mask is in another floating point type
/// than the query.
pub open spec fn mask_differs(facts: Seq<TypedFactView>) -> bool {
    &&& facts.len() == 4
    &&& facts[3].datum_type != facts[0].datum_type
    &&& float_width(facts[0].datum_type) is Some
    &&& float_width(facts[3].datum_type) is Some
}

/// The facts of the inputs once the mask has been cast.
pub open spec fn mask_cast(facts: Seq<TypedFactView>, to: DatumType) -> Seq<TypedFactView> {
    facts.update(3, TypedFactView { datum_type: to, ..facts[3] })
}

/// Casts the mask of an attention node to the element type of the query, where the two are
/// different floating point types: the fused kernels take the mask in that type only.
/// `name` is the name of the node.
pub fn cast_sdpa_mask_to_query_dt(name: &str, in_facts: &Vec<TypedFact>) -> (r: Option<MaskCast>)
    ensures
        r is Some == mask_differs(fact_views(in_facts@)),
        r is Some == (in_facts@.len() == 4 && ({
            let (query, mask) = (in_facts@[0].datum_type, in_facts@[3].datum_type);
            &&& query == DatumType::F16 || query == DatumType::F32 || query == DatumType::F64
            &&& mask == DatumType::F16 || mask == DatumType::F32 || mask == DatumType::F64
            &&& query != mask
        })),
        r matches Some(cast) ==> {
            &&& cast.name@ == name@ + ".mask_cast"@
            &&& cast.to == in_facts@[0]@.datum_type
            &&& cast.inputs@ == seq![
                SdpaInput::Tap(0),
                SdpaInput::Tap(1),
                SdpaInput::Tap(2),
                SdpaInput::CastMask,
            ]
        },
{
    if in_facts.len() != 4 {
        return None;
    }
    let q_dt = in_facts[0].datum_type;
    let mask_dt = in_facts[3].datum_type;
    assert(fact_views(in_facts@)[0] == in_facts@[0]@ && fact_views(in_facts@)[3] == in_facts@[3]@);
    if mask_dt == q_dt || !q_dt.is_float() || !mask_dt.is_float() {
        return None;
    }
    let inputs = vec![
        SdpaInput::Tap(0),
        SdpaInput::Tap(1),
        SdpaInput::Tap(2),
        SdpaInput::CastMask,
    ];
    assert(inputs@ =~= seq![
        SdpaInput::Tap(0),
        SdpaInput::Tap(1),
        SdpaInput::Tap(2),
        SdpaInput::CastMask,
    ]);
    Some(MaskCast { name: joined(name, ".mask_cast"), to: q_dt, inputs })
}

/// Once the mask has been cast it is not cast again, and it has the element type of the
/// query.
pub proof fn law_mask_is_cast_once(facts: Seq<TypedFactView>)
    requires
        mask_differs(facts),
    ensures
        !mask_differs(mask_cast(facts, facts[0].datum_type)),
        mask_cast(facts, facts[0].datum_type)[3].datum_type == facts[0].datum_type,
{
}

/// The facts of the inputs of an attention node behind the pass, which casts the mask to the
/// element type of the query where it casts it.
pub open spec fn behind_the_pass(facts: Seq<TypedFactView>) -> Seq<TypedFactView> {
    if mask_differs(facts) {
        mask_cast(facts, facts[0].datum_type)
    } else {
        facts
    }
}

/// Whether the mask is cast depends on the number of the inputs and on the element types of
/// query and mask alone: not on any shape, packing or residence, nor on key and value.
pub proof fn law_casting_depends_on_types_alone(
    facts: Seq<TypedFactView>,
    other: Seq<TypedFactView>,
)
    requires
        facts.len() == other.len(),
        facts.len() == 4 ==> facts[0].datum_type == other[0].datum_type && facts[3].datum_type
            == other[3].datum_type,
    ensures
        mask_differs(facts) == mask_differs(other),
{
}

/// Behind the pass every attention node with four inputs has its mask in the element type of
/// the query, where both were floating point numbers, whatever else is known of the inputs; and
/// nothing but the element type of the mask has changed.
pub proof fn law_mask_follows_the_query(facts: Seq<TypedFactView>)
    requires
        facts.len() == 4,
    ensures
        ({
            let (query, mask) = (facts[0].datum_type, facts[3].datum_type);
            let after = behind_the_pass(facts);
            let is_float = |dt: DatumType|
                dt == DatumType::F16 || dt == DatumType::F32 || dt == DatumType::F64;
            &&& after.len() == 4
            &&& is_float(query) && is_float(mask) ==> after[3].datum_type == after[0].datum_type
            &&& !(is_float(query) && is_float(mask)) ==> after == facts
            &&& mask_differs(facts) == (is_float(query) && is_float(mask) && query != mask)
            &&& after[0] == facts[0] && after[1] == facts[1] && after[2] == facts[2]
            &&& after[3].shape == facts[3].shape && after[3].device == facts[3].device
        }),
{
}

/// With another number of inputs than four, nothing is cast.
pub proof fn law_no_mask_no_cast(facts: Seq<TypedFactView>)
    requires
        facts.len() != 4,
    ensures
        !mask_differs(facts),
        behind_the_pass(facts) == facts,
{
}

/// What becomes of an attention node.
#[derive(Debug, Clone, Copy, PartialEq, Eq, Structural)]
pub enum SdpaDecision {
    /// It stays, for a fused kernel.
    Keep,
    /// It is taken apart into products and a softmax.
    Explode,
}

/// An attention node stays if a fused kernel takes it, and is taken apart if none does.
pub fn sdpa_decision(mlx_supported: bool, mfa_supported: bool) -> (r: SdpaDecision)
    ensures
        r == (if mlx_supported || mfa_supported {
            SdpaDecision::Keep
        } else {
            SdpaDecision::Explode
        }),
{
    if mlx_supported || mfa_supported {
        SdpaDecision::Keep
    } else {
        SdpaDecision::Explode
    }
}

/// Asks the fused kernels whether they take an attention node. The MFA kernel is asked only
/// if the MLX kernel declines.
pub fn flatten_unfused_sdpa<Mlx, Mfa>(mlx_sdpa_supported: Mlx, mfa_sdpa_supported: Mfa) -> (r:
    SdpaDecision) where Mlx: FnOnce() -> bool, Mfa: FnOnce() -> bool
    requires
        call_requires(mlx_sdpa_supported, ()),
        call_requires(mfa_sdpa_supported, ()),
    ensures
        exists|mlx: bool|
            #[trigger] call_ensures(mlx_sdpa_supported, (), mlx) && if mlx {
                r == SdpaDecision::Keep
            } else {
                exists|mfa: bool|
                    #[trigger] call_ensures(mfa_sdpa_supported, (), mfa) && r == (if mfa {
                        SdpaDecision::Keep
                    } else {
                        SdpaDecision::Explode
                    })
            },
{
    if mlx_sdpa_supported() {
        SdpaDecision::Keep
    } else {
        sdpa_decision(false, mfa_sdpa_supported())
    }
}

} // verus!
