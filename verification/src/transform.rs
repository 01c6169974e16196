//! The transform of a graph to Metal, and its passes.

use crate::fact::TypedFactView;
use crate::gemm::{gemm_name, MetalGemmImplKind};
use crate::model::{InvalidOutlet, OutletId, TypedModel};
use crate::node::{law_outputs_are_on_the_host, Translation};
use crate::repack::{law_others_are_untouched, law_outputs_keep_their_facts, repacked, stops_at};
use crate::text::same_text;
use vstd::prelude::*;

verus! {

/// The transform, with the family of kernels that is asked for.
#[derive(Debug, Clone, Copy, PartialEq, Eq, Structural)]
pub struct MetalTransform {
    pub gemm_impl: Option<MetalGemmImplKind>,
}

/// A family of kernels that there is not.
#[derive(Debug, Clone, Copy, PartialEq, Eq, Structural)]
pub struct UnknownBackend;

/// One pass over a graph.
#[derive(Debug, Clone, Copy, PartialEq, Eq, Structural)]
pub enum Pass {
    /// Keeps the translators of pooling operators linked.
    LinkTranslators,
    /// Sets up the device.
    InitContext,
    /// Prepares attention for the fused kernels.
    RewireSdpa,
    /// Rewrites sums over products as matrix products.
    EinsumToPrefixMatmul,
    /// Prepares matrix products.
    RewriteMatmul,
    /// Prepares convolutions, normalizations and reductions.
    RewriteCore,
    /// Transposes the weights of mixtures of experts.
    RepackExperts,
    /// Lists the nodes.
    DumpNodes,
    /// Translates every node.
    Translate,
    FuseMoveAxis,
    FuseAxisOp,
    /// Removes movements to the device and back that cancel out.
    RewireSyncs,
}

/// The passes of a phase. The nodes are listed at the end of phase 1 if `dump` says so.
pub open spec fn phase(k: int, dump: bool) -> Seq<Pass> {
    if k == 0 {
        seq![Pass::InitContext, Pass::RewireSdpa, Pass::EinsumToPrefixMatmul]
    } else if k == 1 {
        if dump {
            seq![Pass::RewriteMatmul, Pass::RewriteCore, Pass::RepackExperts, Pass::DumpNodes]
        } else {
            seq![Pass::RewriteMatmul, Pass::RewriteCore, Pass::RepackExperts]
        }
    } else if k == 2 {
        seq![Pass::Translate]
    } else if k == 3 {
        seq![Pass::FuseMoveAxis, Pass::FuseAxisOp, Pass::RewireSyncs]
    } else {
        Seq::empty()
    }
}

/// The passes of all the phases up to the one given.
pub open spec fn passes(upto: int, dump: bool) -> Seq<Pass>
    decreases upto + 1,
{
    if upto < 0 {
        Seq::empty()
    } else {
        passes(upto - 1, dump) + phase(upto, dump)
    }
}

/// The passes up to the phase to stop at. There are four phases.
pub open spec fn passes_until(stop_at_phase: int, dump: bool) -> Seq<Pass> {
    passes(
        if stop_at_phase < 3 {
            stop_at_phase
        } else {
            3
        },
        dump,
    )
}

/// The nodes are to be listed.
pub open spec fn dumps(dump_ops: Option<&str>) -> bool {
    dump_ops matches Some(v) && v@ == "5"@
}

/// The rewrite rules of a pass, in the order in which they are tried.
pub open spec fn rule_names(pass: Pass) -> Seq<Seq<char>> {
    match pass {
        Pass::RewireSdpa => seq!["cast-sdpa-mask-to-query-dt"@, "flatten-unfused-sdpa"@],
        Pass::RewriteMatmul => seq!["untranspose-matmul-output"@, "add-broadcast-pre-matmul"@],
        Pass::RewriteCore => seq![
            "rewrite_kernel_conv_in_oihw"@,
            "rewrite_conv_with_n_axis"@,
            "remove_rms_norm_cast"@,
            "split_multi_axis_reduce"@,
        ],
        Pass::FuseMoveAxis => seq!["fuse_move_axis"@],
        Pass::FuseAxisOp => seq!["fuse_axis_op"@],
        _ => Seq::empty(),
    }
}

impl Pass {
    /// The rewrite rules of the pass, in the order in which they are tried.
    pub fn rules(&self) -> (r: Vec<&'static str>)
        ensures
            r@.map_values(|s: &'static str| s@) == rule_names(*self),
    {
        let r: Vec<&'static str> = match self {
            Pass::RewireSdpa => vec!["cast-sdpa-mask-to-query-dt", "flatten-unfused-sdpa"],
            Pass::RewriteMatmul => vec!["untranspose-matmul-output", "add-broadcast-pre-matmul"],
            Pass::RewriteCore => vec![
                "rewrite_kernel_conv_in_oihw",
                "rewrite_conv_with_n_axis",
                "remove_rms_norm_cast",
                "split_multi_axis_reduce",
            ],
            Pass::FuseMoveAxis => vec!["fuse_move_axis"],
            Pass::FuseAxisOp => vec!["fuse_axis_op"],
            _ => Vec::new(),
        };
        assert(r@.map_values(|s: &'static str| s@) =~= rule_names(*self));
        r
    }
}

impl Default for MetalTransform {
    /// No family of kernels is asked for.
    fn default() -> (r: Self)
        ensures
            r == (MetalTransform { gemm_impl: None }),
    {
        MetalTransform { gemm_impl: None }
    }
}

/// The transform that a text asks for: the name of a family of kernels, or nothing.
pub open spec fn named_transform(text: Seq<char>) -> Option<MetalTransform> {
    if text == gemm_name(MetalGemmImplKind::Mlx) {
        Some(MetalTransform { gemm_impl: Some(MetalGemmImplKind::Mlx) })
    } else if text == gemm_name(MetalGemmImplKind::Ggml) {
        Some(MetalTransform { gemm_impl: Some(MetalGemmImplKind::Ggml) })
    } else if text == gemm_name(MetalGemmImplKind::Mfa) {
        Some(MetalTransform { gemm_impl: Some(MetalGemmImplKind::Mfa) })
    } else if text == Seq::<char>::empty() {
        Some(MetalTransform { gemm_impl: None })
    } else {
        None
    }
}

impl MetalTransform {
    /// The name of the transform.
    pub fn name(&self) -> (r: &'static str)
        ensures
            r@ == "metal-transform"@,
    {
        "metal-transform"
    }

    /// The passes of the transform up to a phase, in order. `dump_ops` is the value of the
    /// variable `TRACT_METAL_DUMP_OPS`.
    pub fn transform_up_to_phase(&self, stop_at_phase: usize, dump_ops: Option<&str>) -> (r: Vec<
        Pass,
    >)
        ensures
            r@ == passes_until(stop_at_phase as int, dumps(dump_ops)),
    {
        let ghost dump = dumps(dump_ops);
        let mut r = vec![Pass::InitContext, Pass::RewireSdpa, Pass::EinsumToPrefixMatmul];
        proof {
            reveal_with_fuel(passes, 5);
            assert(passes(-1, dump) =~= Seq::empty());
        }
        assert(r@ =~= passes(0, dump));
        if stop_at_phase == 0 {
            return r;
        }
        r.push(Pass::RewriteMatmul);
        r.push(Pass::RewriteCore);
        r.push(Pass::RepackExperts);
        let listed = match dump_ops {
            Some(v) => same_text(v, "5"),
            None => false,
        };
        if listed {
            r.push(Pass::DumpNodes);
        }
        assert(r@ =~= passes(1, dump));
        if stop_at_phase == 1 {
            return r;
        }
        r.push(Pass::Translate);
        assert(r@ =~= passes(2, dump));
        if stop_at_phase == 2 {
            return r;
        }
        r.push(Pass::FuseMoveAxis);
        r.push(Pass::FuseAxisOp);
        r.push(Pass::RewireSyncs);
        assert(r@ =~= passes(3, dump));
        r
    }

    /// All the passes of the transform, in order.
    pub fn transform(&self, dump_ops: Option<&str>) -> (r: Vec<Pass>)
        ensures
            r@ == seq![Pass::LinkTranslators] + passes_until(3, dumps(dump_ops)),
    {
        let mut r = self.transform_up_to_phase(usize::MAX, dump_ops);
        r.insert(0, Pass::LinkTranslators);
        assert(r@ =~= seq![Pass::LinkTranslators] + passes_until(3, dumps(dump_ops)));
        r
    }
}

/// The graph after a pass that makes a new one of it: the new one if it could be made, and
/// else the graph as it was, with the error.
pub fn after_pass<M, E>(model: M, made: Result<M, E>) -> (r: (M, Result<(), E>))
    ensures
        match made {
            Ok(new) => r == (new, Ok::<(), E>(())),
            Err(e) => r == (model, Err::<(), E>(e)),
        },
{
    match made {
        Ok(new) => (new, Ok(())),
        Err(e) => (model, Err(e)),
    }
}

impl std::str::FromStr for MetalTransform {
    type Err = UnknownBackend;

    /// The transform that a text asks for: the name of a family of kernels, or nothing.
    fn from_str(str: &str) -> (r: Result<Self, UnknownBackend>)
        ensures
            match r {
                Ok(t) => named_transform(str@) == Some(t),
                Err(_) => named_transform(str@) is None,
            },
    {
        proof {
            reveal_strlit("");
            assert(""@ =~= Seq::<char>::empty());
        }
        let gemm_impl = if same_text(str, "mlx") {
            Some(MetalGemmImplKind::Mlx)
        } else if same_text(str, "ggml") {
            Some(MetalGemmImplKind::Ggml)
        } else if same_text(str, "mfa") {
            Some(MetalGemmImplKind::Mfa)
        } else if same_text(str, "") {
            None
        } else {
            return Err(UnknownBackend);
        };
        Ok(MetalTransform { gemm_impl })
    }
}

/// The name of a family of kernels asks for that family, and an empty text for none.
pub proof fn law_names_are_understood(kind: MetalGemmImplKind)
    ensures
        named_transform(gemm_name(kind)) == Some(MetalTransform { gemm_impl: Some(kind) }),
        named_transform(Seq::empty()) == Some(MetalTransform { gemm_impl: None }),
{
    reveal_strlit("mlx");
    reveal_strlit("mfa");
    reveal_strlit("ggml");
    assert("mlx"@[1] != "mfa"@[1]);
    assert("mlx"@.len() == 3 && "mfa"@.len() == 3 && "ggml"@.len() == 4);
    assert(Seq::<char>::empty().len() == 0);
}

/// Stopping later adds passes and changes none.
pub proof fn law_phases_are_prefixes(stop: int, later: int, dump: bool)
    requires
        0 <= stop <= later,
    ensures
        passes_until(stop, dump).is_prefix_of(passes_until(later, dump)),
    decreases later - stop,
{
    if stop < later {
        law_phases_are_prefixes(stop, later - 1, dump);
        let a = passes_until(stop, dump);
        let b = passes_until(later - 1, dump);
        let c = passes_until(later, dump);
        assert(b.is_prefix_of(c)) by {
            if later <= 3 {
                assert(c == b + phase(later, dump));
                assert(b =~= c.subrange(0, b.len() as int));
            } else {
                assert(b =~= c.subrange(0, b.len() as int));
            }
        }
        assert(a =~= c.subrange(0, a.len() as int)) by {
            assert(a == b.subrange(0, a.len() as int));
            assert(b == c.subrange(0, b.len() as int));
        }
    } else {
        let a = passes_until(stop, dump);
        assert(a =~= a.subrange(0, a.len() as int));
    }
}

/// The weights of experts are transposed before any node is translated, while they are
/// still on the host: wherever a transform translates, it has transposed before.
pub proof fn law_experts_are_repacked_before_translation(stop: int, dump: bool, i: int)
    requires
        0 <= i < passes_until(stop, dump).len(),
        passes_until(stop, dump)[i] == Pass::Translate,
    ensures
        exists|j: int| 0 <= j < i && passes_until(stop, dump)[j] == Pass::RepackExperts,
{
    reveal_with_fuel(passes, 5);
    let p = passes_until(stop, dump);
    assert(p[5] == Pass::RepackExperts);
    assert(i > 5);
}

/// What comes before the translation is all of phase 1 and nothing else, wherever a transform
/// stops: a translation that fails leaves the graph as phase 1 does.
pub proof fn law_translation_follows_phase_one<M, E>(
    stop: int,
    dump: bool,
    i: int,
    model: M,
    e: E,
    r: (M, Result<(), E>),
)
    requires
        0 <= i < passes_until(stop, dump).len(),
        passes_until(stop, dump)[i] == Pass::Translate,
        call_ensures(after_pass::<M, E>, (model, Err::<M, E>(e)), r),
    ensures
        passes_until(stop, dump).subrange(0, i) == passes_until(1, dump),
        r.0 == model,
        r.1 == Err::<(), E>(e),
{
    reveal_with_fuel(passes, 5);
    let p = passes_until(stop, dump);
    let first = passes_until(1, dump);
    assert(i == first.len());
    assert(p.subrange(0, i) =~= first);
}

/// `after` is the graph `before` once the weights of experts have been transposed, wherever
/// that came to an end: it was switched off, it went through, or it failed at some node.
pub open spec fn repack_ended(before: TypedModel, after: TypedModel) -> bool {
    ||| after == before
    ||| repacked(before, after, before.nodes@.len() as int)
    ||| exists|k: int, e: InvalidOutlet| #[trigger] stops_at(before, after, k, e)
}

/// What is known of the outputs of the graph once every node has been translated, in order.
/// `put_out` is what is known of what stands for an outlet right behind its node.
pub open spec fn translated_interface<Resize, GpuOp>(
    model: TypedModel,
    translations: Seq<Translation<Resize, GpuOp>>,
    put_out: spec_fn(OutletId) -> TypedFactView,
) -> Seq<TypedFactView> {
    model.outputs@.map_values(
        |o: OutletId| translations[o.node as int].handed_out(put_out(o)),
    )
}

/// What the operators that stand for a node put out has the element type and the shape of what
/// the node put out, and is on the host if the node stays there.
pub open spec fn puts_out_alike<Resize, GpuOp>(
    model: TypedModel,
    translations: Seq<Translation<Resize, GpuOp>>,
    put_out: spec_fn(OutletId) -> TypedFactView,
    o: OutletId,
) -> bool {
    &&& put_out(o).datum_type == model.spec_outlet_fact(o).datum_type
    &&& put_out(o).shape == model.spec_outlet_fact(o).shape
    &&& translations[o.node as int] is Cpu ==> put_out(o).device is None
}

/// Transposing the weights of experts keeps the interface of the graph, whether it goes
/// through or fails: the outputs are the same outlets with the same facts, and every node that
/// is neither a constant nor a mixture of experts, such as an input of the graph, is as it was.
pub proof fn law_repack_keeps_the_interface(before: TypedModel, after: TypedModel)
    requires
        repack_ended(before, after),
        before.outputs_valid(),
    ensures
        after.outputs == before.outputs,
        after.outputs_valid(),
        after.interface() == before.interface(),
        after.nodes@.len() == before.nodes@.len(),
        forall|n: int|
            0 <= n < before.nodes@.len() && !(before.nodes@[n].op is Const)
                && !(before.nodes@[n].op is MoeFfn) ==> #[trigger] after.nodes@[n]
                == before.nodes@[n],
{
    if after != before {
        let upto = if repacked(before, after, before.nodes@.len() as int) {
            before.nodes@.len() as int
        } else {
            let (k, e) = choose|k: int, e: InvalidOutlet| #[trigger] stops_at(before, after, k, e);
            assert(stops_at(before, after, k, e));
            k
        };
        assert(repacked(before, after, upto));
        assert forall|i: int| 0 <= i < before.outputs@.len() implies after.has_outlet(
            #[trigger] before.outputs@[i],
        ) && after.spec_outlet_fact(before.outputs@[i]) == before.spec_outlet_fact(
            before.outputs@[i],
        ) by {
            law_outputs_keep_their_facts(before, after, upto, before.outputs@[i]);
        }
        assert(after.interface() =~= before.interface());
        assert forall|n: int|
            0 <= n < before.nodes@.len() && !(before.nodes@[n].op is Const)
                && !(before.nodes@[n].op is MoeFfn) implies #[trigger] after.nodes@[n]
            == before.nodes@[n] by {
            law_others_are_untouched(before, after, upto, n);
        }
    }
}

/// Translating every node keeps the interface of the graph: as many outputs in the same order,
/// each with its element type and its shape, and all of them on the host, where the operators
/// put out what the nodes did.
pub proof fn law_translation_keeps_the_interface<Resize, GpuOp>(
    model: TypedModel,
    translations: Seq<Translation<Resize, GpuOp>>,
    put_out: spec_fn(OutletId) -> TypedFactView,
)
    requires
        forall|i: int|
            0 <= i < model.outputs@.len() ==> puts_out_alike(
                model,
                translations,
                put_out,
                #[trigger] model.outputs@[i],
            ),
    ensures
        ({
            let after = translated_interface(model, translations, put_out);
            &&& after.len() == model.interface().len()
            &&& forall|i: int|
                0 <= i < after.len() ==> {
                    &&& (#[trigger] after[i]).datum_type == model.interface()[i].datum_type
                    &&& after[i].shape == model.interface()[i].shape
                    &&& after[i].device is None
                }
        }),
{
    let after = translated_interface(model, translations, put_out);
    assert forall|i: int| 0 <= i < after.len() implies {
        &&& (#[trigger] after[i]).datum_type == model.interface()[i].datum_type
        &&& after[i].shape == model.interface()[i].shape
        &&& after[i].device is None
    } by {
        let o = model.outputs@[i];
        assert(puts_out_alike(model, translations, put_out, o));
        law_outputs_are_on_the_host(translations[o.node as int], put_out(o));
    }
}

/// Both together: transposing the weights of experts and translating what comes out of it
/// keeps the number and the order of the outputs, their element types and their shapes, and
/// puts all of them on the host.
pub proof fn law_transform_keeps_the_interface<Resize, GpuOp>(
    before: TypedModel,
    middle: TypedModel,
    translations: Seq<Translation<Resize, GpuOp>>,
    put_out: spec_fn(OutletId) -> TypedFactView,
)
    requires
        before.outputs_valid(),
        repack_ended(before, middle),
        forall|i: int|
            0 <= i < middle.outputs@.len() ==> puts_out_alike(
                middle,
                translations,
                put_out,
                #[trigger] middle.outputs@[i],
            ),
    ensures
        ({
            let after = translated_interface(middle, translations, put_out);
            &&& after.len() == before.outputs@.len()
            &&& forall|i: int|
                0 <= i < after.len() ==> {
                    &&& (#[trigger] after[i]).datum_type == before.interface()[i].datum_type
                    &&& after[i].shape == before.interface()[i].shape
                    &&& after[i].device is None
                }
        }),
{
    law_repack_keeps_the_interface(before, middle);
    law_translation_keeps_the_interface(middle, translations, put_out);
}

/// The passes, phase by phase, wherever a transform stops. Listing the nodes changes nothing but
/// that they are listed, once the weights of experts have been transposed.
pub proof fn law_passes_by_phase(stop: int)
    ensures
        ({
            let prepare = seq![Pass::InitContext, Pass::RewireSdpa, Pass::EinsumToPrefixMatmul];
            let rewrite = seq![Pass::RewriteMatmul, Pass::RewriteCore, Pass::RepackExperts];
            let list = seq![Pass::DumpNodes];
            let finish = seq![Pass::FuseMoveAxis, Pass::FuseAxisOp, Pass::RewireSyncs];
            let translate = seq![Pass::Translate];
            &&& stop < 0 ==> passes_until(stop, true) == Seq::<Pass>::empty() && passes_until(
                stop,
                false,
            ) == Seq::<Pass>::empty()
            &&& stop == 0 ==> passes_until(stop, true) == prepare && passes_until(stop, false)
                == prepare
            &&& stop == 1 ==> passes_until(stop, true) == prepare + rewrite + list && passes_until(
                stop,
                false,
            ) == prepare + rewrite
            &&& stop == 2 ==> passes_until(stop, true) == prepare + rewrite + list + translate
                && passes_until(stop, false) == prepare + rewrite + translate
            &&& stop >= 3 ==> passes_until(stop, true) == prepare + rewrite + list + translate
                + finish && passes_until(stop, false) == prepare + rewrite + translate + finish
        }),
{
    reveal_with_fuel(passes, 5);
    let prepare = seq![Pass::InitContext, Pass::RewireSdpa, Pass::EinsumToPrefixMatmul];
    let rewrite = seq![Pass::RewriteMatmul, Pass::RewriteCore, Pass::RepackExperts];
    let list = seq![Pass::DumpNodes];
    let translate = seq![Pass::Translate];
    let finish = seq![Pass::FuseMoveAxis, Pass::FuseAxisOp, Pass::RewireSyncs];
    assert(passes(0, true) =~= prepare && passes(0, false) =~= prepare);
    assert(passes(1, true) =~= prepare + rewrite + list);
    assert(passes(1, false) =~= prepare + rewrite);
    assert(passes(2, true) =~= prepare + rewrite + list + translate);
    assert(passes(2, false) =~= prepare + rewrite + translate);
    assert(passes(3, true) =~= prepare + rewrite + list + translate + finish);
    assert(passes(3, false) =~= prepare + rewrite + translate + finish);
}

/// The nodes are listed for the text of the digit five alone.
pub proof fn law_when_nodes_are_listed(value: Option<&str>)
    ensures
        dumps(value) == (value is Some && value->0@.len() == 1 && value->0@[0] == '5'),
{
    reveal_strlit("5");
    if let Some(v) = value {
        if v@.len() == 1 && v@[0] == '5' {
            assert(v@ =~= "5"@);
        }
    }
}

/// A text asks for a transform only if it is empty or the name of a family of kernels, and which
/// one it asks for tells which text it is.
pub proof fn law_only_names_are_understood(text: Seq<char>)
    ensures
        named_transform(text) is Some == (text.len() == 0 || text == "mlx"@ || text == "ggml"@ || text
            == "mfa"@),
        named_transform(text) matches Some(t) ==> match t.gemm_impl {
            None => text.len() == 0,
            Some(kind) => text == (match kind {
                MetalGemmImplKind::Mlx => "mlx"@,
                MetalGemmImplKind::Mfa => "mfa"@,
                MetalGemmImplKind::Ggml => "ggml"@,
            }),
        },
{
    reveal_strlit("mlx");
    reveal_strlit("mfa");
    reveal_strlit("ggml");
    if text.len() == 0 {
        assert(text =~= Seq::<char>::empty());
    }
}

/// The rules of the passes that rewrite, in the order in which they are tried; no other pass has
/// any.
pub proof fn law_rules_of_passes(pass: Pass)
    ensures
        pass == Pass::RewireSdpa ==> rule_names(pass) == seq![
            "cast-sdpa-mask-to-query-dt"@,
            "flatten-unfused-sdpa"@,
        ],
        pass == Pass::RewriteMatmul ==> rule_names(pass) == seq![
            "untranspose-matmul-output"@,
            "add-broadcast-pre-matmul"@,
        ],
        pass == Pass::RewriteCore ==> rule_names(pass) == seq![
            "rewrite_kernel_conv_in_oihw"@,
            "rewrite_conv_with_n_axis"@,
            "remove_rms_norm_cast"@,
            "split_multi_axis_reduce"@,
        ],
        pass == Pass::FuseMoveAxis ==> rule_names(pass) == seq!["fuse_move_axis"@],
        pass == Pass::FuseAxisOp ==> rule_names(pass) == seq!["fuse_axis_op"@],
        !(pass == Pass::RewireSdpa || pass == Pass::RewriteMatmul || pass == Pass::RewriteCore
            || pass == Pass::FuseMoveAxis || pass == Pass::FuseAxisOp) ==> rule_names(pass).len()
            == 0,
{
}

} // verus!
