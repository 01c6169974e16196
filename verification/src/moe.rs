//! Feed-forward blocks of a mixture of experts, and which of them the routed kernels for
//! `Q4_0` weights take.

use crate::datum::{is_half_or_single, DatumType};
use crate::dim::TDim;
use crate::fact::{fact_views, BlockQuantFormat, ExoticFactView, TypedFact, TypedFactView};
use vstd::prelude::*;

verus! {

/// How the scores of the router become the weights of the selected experts.
#[derive(Debug, Clone, Copy, PartialEq, Eq, Structural, Hash)]
pub enum GateMode {
    SoftmaxTopk,
    SoftmaxAll,
    Sigmoid,
    Raw,
}

/// The order of the axes of the expert matrices, of `E` experts that take a model of width
/// `D` to a hidden layer of width `H` and back.
#[derive(Debug, Clone, Copy, PartialEq, Eq, Structural, Hash)]
pub enum ExpertLayout {
    /// `w1` and `w3` are `[E,D,H]`, `w2` is `[E,H,D]`.
    Canonical,
    /// `w1` and `w3` are `[E,H,D]`, `w2` is `[E,D,H]`.
    Linear,
}

/// A mixture of experts. Its inputs are `x`, `wg`, `w1` and `w2`, then those of `w3`,
/// `wg_bias`, `w1_bias`, `w3_bias` and `w2_bias` that it has, in this order.
#[derive(Debug)]
pub struct MoeFfn {
    pub k: usize,
    pub activation: String,
    pub gate: GateMode,
    pub has_w3: bool,
    pub has_wg_bias: bool,
    pub has_w1_bias: bool,
    pub has_w3_bias: bool,
    pub has_w2_bias: bool,
    /// Bit pattern of the slope of a clamped activation.
    pub act_alpha_bits: Option<u32>,
    /// Bit pattern of the limit of a clamped activation.
    pub act_limit_bits: Option<u32>,
    pub expert_layout: ExpertLayout,
}

/// Where the optional inputs of a mixture of experts stand among its inputs.
#[derive(Debug, Clone, Copy, PartialEq, Eq, Structural)]
pub struct MoeInputIndexes {
    pub w3: Option<usize>,
    pub wg_bias: Option<usize>,
    pub w1_bias: Option<usize>,
    pub w3_bias: Option<usize>,
    pub w2_bias: Option<usize>,
}

/// One if it is present, else nothing.
pub open spec fn count(present: bool) -> int {
    if present {
        1
    } else {
        0
    }
}

/// The place of an optional input that `before` others come before.
pub open spec fn place(present: bool, before: int) -> Option<usize> {
    if present {
        Some((4 + before) as usize)
    } else {
        None
    }
}

impl MoeFfn {
    /// The number of inputs.
    pub open spec fn spec_arity(&self) -> int {
        4 + count(self.has_w3) + count(self.has_wg_bias) + count(self.has_w1_bias) + count(
            self.has_w3_bias,
        ) + count(self.has_w2_bias)
    }

    /// The places of the optional inputs: after the four required ones, in order, without
    /// gaps.
    pub open spec fn spec_indexes(&self) -> MoeInputIndexes {
        let n3 = count(self.has_w3);
        let ng = n3 + count(self.has_wg_bias);
        let n1 = ng + count(self.has_w1_bias);
        let nb = n1 + count(self.has_w3_bias);
        MoeInputIndexes {
            w3: place(self.has_w3, 0),
            wg_bias: place(self.has_wg_bias, n3),
            w1_bias: place(self.has_w1_bias, ng),
            w3_bias: place(self.has_w3_bias, n1),
            w2_bias: place(self.has_w2_bias, nb),
        }
    }

    /// The activation is one that the routed kernels compute.
    pub open spec fn activation_supported(&self) -> bool {
        self.activation@ == "silu"@ || (self.has_w3 && self.activation@ == "swiglu"@)
    }
}

impl MoeFfn {
    /// The number of inputs.
    pub fn arity(&self) -> (r: usize)
        ensures
            r == self.spec_arity(),
            r == 4 + (if self.has_w3 { 1int } else { 0 }) + (if self.has_wg_bias { 1int } else { 0 })
                + (if self.has_w1_bias { 1int } else { 0 }) + (if self.has_w3_bias {
                1int
            } else {
                0
            }) + (if self.has_w2_bias { 1int } else { 0 }),
    {
        let (_w3, next) = take(4, self.has_w3);
        let (_wg_bias, next) = take(next, self.has_wg_bias);
        let (_w1_bias, next) = take(next, self.has_w1_bias);
        let (_w3_bias, next) = take(next, self.has_w3_bias);
        let (_w2_bias, next) = take(next, self.has_w2_bias);
        next
    }
}

/// The next free place if the input is present; the first place after it either way.
fn take(next: usize, present: bool) -> (r: (Option<usize>, usize))
    requires
        next < 100,
    ensures
        r.0 == (if present {
            Some(next)
        } else {
            None::<usize>
        }),
        r.1 == next + count(present),
{
    if present {
        (Some(next), next + 1)
    } else {
        (None, next)
    }
}

/// Where the optional inputs of the operator stand.
pub fn moe_input_indexes(op: &MoeFfn) -> (r: MoeInputIndexes)
    ensures
        r == op.spec_indexes(),
        r.w3 is Some == op.has_w3,
        r.wg_bias is Some == op.has_wg_bias,
        r.w1_bias is Some == op.has_w1_bias,
        r.w3_bias is Some == op.has_w3_bias,
        r.w2_bias is Some == op.has_w2_bias,
        ({
            let one = |present: bool| if present { 1int } else { 0int };
            let (n3, ng, n1, nb) = (
                one(op.has_w3),
                one(op.has_wg_bias),
                one(op.has_w1_bias),
                one(op.has_w3_bias),
            );
            &&& op.has_w3 ==> r.w3->0 == 4
            &&& op.has_wg_bias ==> r.wg_bias->0 == 4 + n3
            &&& op.has_w1_bias ==> r.w1_bias->0 == 4 + n3 + ng
            &&& op.has_w3_bias ==> r.w3_bias->0 == 4 + n3 + ng + n1
            &&& op.has_w2_bias ==> r.w2_bias->0 == 4 + n3 + ng + n1 + nb
        }),
{
    let (w3, next) = take(4, op.has_w3);
    let (wg_bias, next) = take(next, op.has_wg_bias);
    let (w1_bias, next) = take(next, op.has_w1_bias);
    let (w3_bias, next) = take(next, op.has_w3_bias);
    let (w2_bias, _next) = take(next, op.has_w2_bias);
    MoeInputIndexes { w3, wg_bias, w1_bias, w3_bias, w2_bias }
}

/// Whether the routed kernels compute the activation of the operator.
pub fn q40_moe_activation_supported(op: &MoeFfn) -> (r: bool)
    ensures
        r == op.activation_supported(),
        r == (op.activation@ == "silu"@ || (op.has_w3 && op.activation@ == "swiglu"@)),
{
    crate::text::same_text(op.activation.as_str(), "silu") || (op.has_w3 && crate::text::same_text(
        op.activation.as_str(),
        "swiglu",
    ))
}

/// The width of the hidden layer, read off `w1`.
pub open spec fn hidden_width(w1: TypedFactView, layout: ExpertLayout) -> TDim {
    match layout {
        ExpertLayout::Linear => w1.shape[1],
        ExpertLayout::Canonical => w1.shape[2],
    }
}

/// The width of the model, read off `w1`.
pub open spec fn model_width(w1: TypedFactView, layout: ExpertLayout) -> TDim {
    match layout {
        ExpertLayout::Linear => w1.shape[2],
        ExpertLayout::Canonical => w1.shape[1],
    }
}

/// An absent bias, or one of floating point numbers that has exactly the shape given.
pub open spec fn bias_ok(
    facts: Seq<TypedFactView>,
    place: Option<usize>,
    shape: Seq<TDim>,
) -> bool {
    place matches Some(ix) ==> is_half_or_single(facts[ix as int].datum_type)
        && facts[ix as int].shape == shape
}

/// The routed kernels take a mixture of experts with these inputs: tokens and router in
/// floating point, the tokens one sequence; expert matrices in `Q4_0` blocks; at most 256
/// experts; and biases as wide as the matrices they belong to.
pub open spec fn facts_supported(
    op: MoeFfn,
    facts: Seq<TypedFactView>,
    layout: ExpertLayout,
) -> bool {
    let ix = op.spec_indexes();
    let (x, wg, w1, w2) = (facts[0], facts[1], facts[2], facts[3]);
    let experts = w1.shape[0];
    let hidden = hidden_width(w1, layout);
    let model = model_width(w1, layout);
    &&& x.rank() == 2 || (x.rank() == 3 && x.shape[0] == TDim::Val(1))
    &&& is_half_or_single(x.datum_type)
    &&& is_half_or_single(wg.datum_type)
    &&& w1.is_quant(BlockQuantFormat::Q4_0)
    &&& w2.is_quant(BlockQuantFormat::Q4_0)
    &&& (ix.w3 matches Some(i) ==> facts[i as int].is_quant(BlockQuantFormat::Q4_0))
    &&& w1.rank() == 3
    &&& (experts matches TDim::Val(e) && e <= 256)
    &&& bias_ok(facts, ix.wg_bias, seq![experts])
    &&& bias_ok(facts, ix.w1_bias, seq![experts, hidden])
    &&& bias_ok(facts, ix.w3_bias, seq![experts, hidden])
    &&& bias_ok(facts, ix.w2_bias, seq![experts, model])
}

/// Whether a bias of one number per expert is absent or fits.
fn router_bias_ok(facts: &Vec<TypedFact>, place: Option<usize>, experts: TDim) -> (r: bool)
    requires
        place matches Some(ix) ==> ix < facts@.len(),
    ensures
        r == bias_ok(fact_views(facts@), place, seq![experts]),
{
    match place {
        None => true,
        Some(ix) => {
            let f = &facts[ix];
            let r = f.is_f16_or_f32() && f.rank() == 1 && f.shape[0] == experts;
            proof {
                let shape = fact_views(facts@)[ix as int].shape;
                assert(shape == f.shape@);
                if shape.len() == 1 && shape[0] == experts {
                    assert(shape =~= seq![experts]);
                }
            }
            r
        },
    }
}

/// Whether a bias of a vector per expert is absent or fits.
fn expert_bias_ok(
    facts: &Vec<TypedFact>,
    place: Option<usize>,
    experts: TDim,
    width: TDim,
) -> (r: bool)
    requires
        place matches Some(ix) ==> ix < facts@.len(),
    ensures
        r == bias_ok(fact_views(facts@), place, seq![experts, width]),
{
    match place {
        None => true,
        Some(ix) => {
            let f = &facts[ix];
            let r = f.is_f16_or_f32() && f.rank() == 2 && f.shape[0] == experts && f.shape[1]
                == width;
            proof {
                let shape = fact_views(facts@)[ix as int].shape;
                assert(shape == f.shape@);
                if shape.len() == 2 && shape[0] == experts && shape[1] == width {
                    assert(shape =~= seq![experts, width]);
                }
            }
            r
        },
    }
}

/// Whether the routed kernels take the operator with these inputs. `layout` tells how to
/// read the widths out of `w1`.
pub fn q40_moe_facts_supported(
    op: &MoeFfn,
    facts: &Vec<TypedFact>,
    layout: ExpertLayout,
) -> (r: bool)
    requires
        facts@.len() >= 4 + count(op.has_w3),
        facts@[2]@.rank() == 3 ==> facts@.len() >= op.spec_arity(),
    ensures
        r == facts_supported(*op, fact_views(facts@), layout),
{
    let indexes = moe_input_indexes(op);
    let x_rank_ok = facts[0].rank() == 2 || (facts[0].rank() == 3 && facts[0].shape[0]
        == TDim::Val(1));
    let x_dt_ok = facts[0].is_f16_or_f32();
    let wg_dt_ok = facts[1].is_f16_or_f32();
    let w1_q40 = facts[2].as_quant_fact(BlockQuantFormat::Q4_0);
    let w2_q40 = facts[3].as_quant_fact(BlockQuantFormat::Q4_0);
    let w3_q40 = match indexes.w3 {
        None => true,
        Some(ix) => facts[ix].as_quant_fact(BlockQuantFormat::Q4_0),
    };
    if facts[2].rank() != 3 {
        return false;
    }
    let num_experts = facts[2].shape[0];
    let (d_hidden, d_model) = match layout {
        ExpertLayout::Linear => (facts[2].shape[1], facts[2].shape[2]),
        ExpertLayout::Canonical => (facts[2].shape[2], facts[2].shape[1]),
    };
    let wg_bias_ok = router_bias_ok(facts, indexes.wg_bias, num_experts);
    let w1_bias_ok = expert_bias_ok(facts, indexes.w1_bias, num_experts, d_hidden);
    let w3_bias_ok = expert_bias_ok(facts, indexes.w3_bias, num_experts, d_hidden);
    let w2_bias_ok = expert_bias_ok(facts, indexes.w2_bias, num_experts, d_model);
    // The route-topk kernel scores at most 256 experts per token.
    let experts_ok = match num_experts.as_i64() {
        Some(e) => e <= 256,
        None => false,
    };
    x_rank_ok && x_dt_ok && wg_dt_ok && w1_q40 && w2_q40 && w3_q40 && experts_ok && wg_bias_ok
        && w1_bias_ok && w3_bias_ok && w2_bias_ok
}

/// The optional inputs of an operator stand after the required ones, within its inputs, in
/// the order in which they are listed, and no two at the same place.
pub proof fn law_indexes_are_places(op: MoeFfn)
    ensures
        ({
            let ix = op.spec_indexes();
            let all = seq![ix.w3, ix.wg_bias, ix.w1_bias, ix.w3_bias, ix.w2_bias];
            &&& forall|i: int|
                0 <= i < 5 ==> ((#[trigger] all[i]) matches Some(p) ==> 4 <= p < op.spec_arity())
            &&& forall|i: int, j: int|
                0 <= i < j < 5 ==> ((#[trigger] all[i]) matches Some(p) ==> ((
                #[trigger] all[j]) matches Some(q) ==> p < q))
        }),
{
}

/// The optional inputs that an operator has fill the places after the required ones, without a
/// gap, in the order `w3`, `wg_bias`, `w1_bias`, `w3_bias` and `w2_bias`: the place of each is
/// four more than the number of those that it has of the ones before.
pub proof fn law_indexes_leave_no_gap(op: MoeFfn)
    ensures
        ({
            let ix = op.spec_indexes();
            let has = seq![
                op.has_w3,
                op.has_wg_bias,
                op.has_w1_bias,
                op.has_w3_bias,
                op.has_w2_bias,
            ];
            let all = seq![ix.w3, ix.wg_bias, ix.w1_bias, ix.w3_bias, ix.w2_bias];
            let one = |i: int| if has[i] { 1int } else { 0int };
            &&& forall|i: int| 0 <= i < 5 ==> (#[trigger] all[i]) is Some == has[i]
            &&& all[0] matches Some(p) ==> p == 4
            &&& all[1] matches Some(p) ==> p == 4 + one(0)
            &&& all[2] matches Some(p) ==> p == 4 + one(0) + one(1)
            &&& all[3] matches Some(p) ==> p == 4 + one(0) + one(1) + one(2)
            &&& all[4] matches Some(p) ==> p == 4 + one(0) + one(1) + one(2) + one(3)
            &&& op.spec_arity() == 4 + one(0) + one(1) + one(2) + one(3) + one(4)
        }),
{
}

/// What the routed kernels take, input by input: tokens of half or single precision in one
/// sequence; a router of such numbers; `w1`, `w2` and `w3` in `Q4_0` blocks, `w1` a list of at
/// most 256 matrices; and of the biases that there are, numbers of half or single precision, one
/// per expert for the router, one per expert and unit of the hidden layer for `w1` and `w3`, and
/// one per expert and unit of the model for `w2`.
pub proof fn law_what_the_routed_kernels_take(
    op: MoeFfn,
    facts: Seq<TypedFactView>,
    layout: ExpertLayout,
)
    ensures
        ({
            let number = |f: TypedFactView|
                f.datum_type == DatumType::F16 || f.datum_type == DatumType::F32;
            let packed = |f: TypedFactView|
                f.device is None && (f.exotic matches ExoticFactView::BlockQuant { format, .. }
                    && format == BlockQuantFormat::Q4_0);
            let one = |present: bool| if present { 1int } else { 0int };
            let g = 4 + one(op.has_w3);
            let b1 = g + one(op.has_wg_bias);
            let b3 = b1 + one(op.has_w1_bias);
            let b2 = b3 + one(op.has_w3_bias);
            let w1 = facts[2].shape;
            let (hidden, model) = if layout == ExpertLayout::Linear {
                (w1[1], w1[2])
            } else {
                (w1[2], w1[1])
            };
            facts_supported(op, facts, layout) == ({
                &&& number(facts[0]) && number(facts[1])
                &&& facts[0].shape.len() == 2 || (facts[0].shape.len() == 3 && facts[0].shape[0]
                    == TDim::Val(1))
                &&& packed(facts[2]) && packed(facts[3]) && (op.has_w3 ==> packed(facts[4]))
                &&& w1.len() == 3
                &&& w1[0] matches TDim::Val(e) && e <= 256
                &&& op.has_wg_bias ==> number(facts[g]) && facts[g].shape == seq![w1[0]]
                &&& op.has_w1_bias ==> number(facts[b1]) && facts[b1].shape == seq![w1[0], hidden]
                &&& op.has_w3_bias ==> number(facts[b3]) && facts[b3].shape == seq![w1[0], hidden]
                &&& op.has_w2_bias ==> number(facts[b2]) && facts[b2].shape == seq![w1[0], model]
            })
        }),
{
}

/// The two layouts mirror each other: the routed kernels take inputs in the one exactly if they
/// take them in the other once the last two axes of `w1` are exchanged.
pub proof fn law_layouts_mirror_each_other(op: MoeFfn, facts: Seq<TypedFactView>)
    requires
        facts.len() >= op.spec_arity(),
        facts[2].shape.len() == 3,
    ensures
        ({
            let w1 = facts[2].shape;
            let mirrored = facts.update(
                2,
                TypedFactView { shape: seq![w1[0], w1[2], w1[1]], ..facts[2] },
            );
            facts_supported(op, facts, ExpertLayout::Canonical) == facts_supported(
                op,
                mirrored,
                ExpertLayout::Linear,
            )
        }),
{
}

/// The activation is the sigmoid-weighted unit, or with a `w3` its gated form, and nothing else.
pub proof fn law_activations(op: MoeFfn)
    ensures
        op.activation_supported() == (op.activation@ == "silu"@ || (op.has_w3 && op.activation@
            == "swiglu"@)),
{
}

} // verus!
