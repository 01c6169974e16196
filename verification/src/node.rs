//! What becomes of each node of a graph.

use crate::datum::{is_half_or_single, on_device, DatumType};
use crate::fact::{
    fact_views, DeviceTensorOrigin, ExoticFact, Residence, TypedFact, TypedFactView,
};
use crate::gemm::{check_matmul_in_dts, GemmSupport};
use crate::model::{Tensor, TypedOp};
use crate::text::joined;
use crate::transform::MetalTransform;
use crate::translator::{all_supported, all_supported_on_device};
use vstd::prelude::*;

verus! {

/// The way a tensor is moved.
#[derive(Debug, Clone, Copy, PartialEq, Eq, Structural)]
pub enum DeviceSyncKind {
    ToHost,
    ToDevice,
}

/// What becomes of a node.
#[derive(Debug)]
pub enum Translation<Resize, GpuOp> {
    /// It is lowered to a matrix product kernel.
    Matmul,
    /// It is lowered to convolution kernels.
    Conv,
    /// It becomes the operator, which reads its first input alone; the others are baked in.
    /// That input is moved to the device by a node of the name given, if there is one.
    Resize { op: Resize, to_device: Option<String> },
    /// It becomes a constant on the device.
    Const,
    /// It becomes the operator.
    Gpu(GpuOp),
    /// It stays as it is, on the host.
    Cpu,
}

impl<Resize, GpuOp> Translation<Resize, GpuOp> {
    /// The way that all the inputs are moved, where they are not there yet. Of a resize they
    /// are left where they are, but for the first, which the translation itself speaks of.
    pub open spec fn spec_input_sync(self) -> Option<DeviceSyncKind> {
        match self {
            Translation::Cpu => Some(DeviceSyncKind::ToHost),
            Translation::Resize { .. } => None,
            _ => Some(DeviceSyncKind::ToDevice),
        }
    }

    /// Whether outputs of the graph are moved back to the host behind the node.
    pub open spec fn spec_syncs_outputs(self) -> bool {
        !(self is Cpu)
    }

    /// Whether the node reads its input `i` on the device, given whether that is there before
    /// it is moved.
    pub open spec fn reads_on_device(self, i: int, on_device: bool) -> bool {
        match self.spec_input_sync() {
            Some(DeviceSyncKind::ToDevice) => true,
            Some(DeviceSyncKind::ToHost) => false,
            None => {
                ||| on_device
                ||| i == 0 && self matches Translation::Resize { to_device: Some(_), .. }
            },
        }
    }

    /// What is known of an output of the graph as it is handed out, given what is known of it
    /// as the node puts it out.
    pub open spec fn handed_out(self, put_out: TypedFactView) -> TypedFactView {
        if self.spec_syncs_outputs() && put_out.device is Some {
            put_out.to_host()
        } else {
            put_out
        }
    }

    /// Whether the node reads all that it reads on its own side: on the host if it stays there,
    /// and else on the device. A resize reads its first input alone.
    pub open spec fn reads_on_its_side(self, target_inputs: Seq<TypedFact>) -> bool {
        forall|i: int|
            0 <= i < target_inputs.len() && (self is Resize ==> i == 0)
                ==> #[trigger] self.reads_on_device(i, target_inputs[i]@.device is Some)
                == !(self is Cpu)
    }

    /// The way that all the inputs are moved, where they are not there yet.
    pub fn input_sync(&self) -> (r: Option<DeviceSyncKind>)
        ensures
            r == self.spec_input_sync(),
            *self is Cpu ==> r == Some(DeviceSyncKind::ToHost),
            *self is Resize ==> r is None,
            !(*self is Cpu) && !(*self is Resize) ==> r == Some(DeviceSyncKind::ToDevice),
    {
        match self {
            Translation::Cpu => Some(DeviceSyncKind::ToHost),
            Translation::Resize { .. } => None,
            _ => Some(DeviceSyncKind::ToDevice),
        }
    }

    /// Whether outputs of the graph are moved back to the host behind the node.
    pub fn syncs_outputs(&self) -> (r: bool)
        ensures
            r == self.spec_syncs_outputs(),
            r == !(*self is Cpu),
    {
        match self {
            Translation::Cpu => false,
            _ => true,
        }
    }
}

/// The node is a matrix product that puts out its result as it is.
pub open spec fn plain_matmul(op: TypedOp) -> bool {
    op matches TypedOp::PrefixMatMul(m) && !m.transpose_c && m.quantize_output is None
}

/// Some kernel takes the inputs.
pub open spec fn takes(support: GemmSupport) -> bool {
    support.mlx || support.mfa || support.ggml || support.ggml_swapped
}

/// The node is a convolution that can be done on the device, of half or single precision
/// numbers.
pub open spec fn takes_conv(op: TypedOp, facts: Seq<TypedFact>) -> bool {
    op is Conv && all_supported(facts) && is_half_or_single(facts[0]@.datum_type)
}

/// The element type of a tensor.
pub open spec fn tensor_dt(t: Tensor) -> DatumType {
    match t {
        Tensor::BlockQuant(t) => t.datum_type,
        Tensor::Other { datum_type, .. } => datum_type,
    }
}

/// The node is a constant that can live on the device.
pub open spec fn takes_const(op: TypedOp) -> bool {
    op matches TypedOp::Const(k) && on_device(tensor_dt(*k.val))
}

/// What is known of the inputs once they have been moved to the device.
pub open spec fn post_sync(facts: Seq<TypedFact>) -> Seq<TypedFactView> {
    facts.map_values(|f: TypedFact| f@.to_device())
}

/// The name of the node that moves the first input of a resize to the device, if it is not
/// there yet.
pub open spec fn resize_sync(name: Seq<char>, input: TypedFactView) -> Option<Seq<char>> {
    if input.device is None {
        Some(name + ".to-device-0"@)
    } else {
        None
    }
}

/// A text that may be there, by value.
pub open spec fn text_view(text: Option<String>) -> Option<Seq<char>> {
    match text {
        Some(t) => Some(t@),
        None => None,
    }
}

/// The node becomes what `try_make` makes, if that can deal with the inputs as they are in
/// the new graph, and else stays on the host.
pub open spec fn single_op<Resize, GpuOp, Error, TryMake, FactsOk>(
    try_make: TryMake,
    facts_ok: FactsOk,
    inputs: Seq<TypedFactView>,
    r: Result<Translation<Resize, GpuOp>, Error>,
) -> bool where
    TryMake: FnOnce() -> Result<Option<GpuOp>, Error>,
    FactsOk: FnOnce(&GpuOp, &Vec<TypedFact>) -> bool,
 {
    exists|made: Result<Option<GpuOp>, Error>|
        #[trigger] call_ensures(try_make, (), made) && match made {
            Err(e) => r == Err::<Translation<Resize, GpuOp>, Error>(e),
            Ok(None) => r is Ok && r->Ok_0 is Cpu,
            Ok(Some(op)) => exists|facts: Vec<TypedFact>, ok: bool|
                #[trigger] call_ensures(facts_ok, (&op, &facts), ok) && fact_views(facts@)
                    == inputs && if ok {
                    r == Ok::<Translation<Resize, GpuOp>, Error>(Translation::Gpu(op))
                } else {
                    r is Ok && r->Ok_0 is Cpu
                },
        }
}

/// What becomes of a node that is neither a product nor a convolution for the device: a
/// resize, if it is one; else a constant, if it is one for the device; else one operator.
pub open spec fn resize_or_later<Resize, GpuOp, Error, MetalResize, TryMake, FactsOk>(
    name: Seq<char>,
    op: TypedOp,
    target_inputs: Seq<TypedFact>,
    metal_resize: MetalResize,
    try_make: TryMake,
    facts_ok: FactsOk,
    r: Result<Translation<Resize, GpuOp>, Error>,
) -> bool where
    MetalResize: FnOnce() -> Result<Option<Resize>, Error>,
    TryMake: FnOnce() -> Result<Option<GpuOp>, Error>,
    FactsOk: FnOnce(&GpuOp, &Vec<TypedFact>) -> bool,
 {
    exists|resized: Result<Option<Resize>, Error>|
        #[trigger] call_ensures(metal_resize, (), resized) && match resized {
            Err(e) => r == Err::<Translation<Resize, GpuOp>, Error>(e),
            Ok(Some(resize)) => r matches Ok(Translation::Resize { op: o, to_device }) && o
                == resize && text_view(to_device) == resize_sync(name, target_inputs[0]@),
            Ok(None) => if takes_const(op) {
                r is Ok && r->Ok_0 is Const
            } else {
                single_op(try_make, facts_ok, post_sync(target_inputs), r)
            },
        }
}

/// The facts of the inputs once they have been moved to the device.
fn synced(facts: &Vec<TypedFact>) -> (r: Vec<TypedFact>)
    ensures
        fact_views(r@) == post_sync(facts@),
{
    let mut out: Vec<TypedFact> = Vec::new();
    let mut i: usize = 0;
    while i < facts.len()
        invariant
            i <= facts@.len(),
            out@.len() == i,
            forall|j: int| 0 <= j < i ==> (#[trigger] out@[j])@ == facts@[j]@.to_device(),
        decreases facts@.len() - i,
    {
        out.push(facts[i].to_device());
        i += 1;
    }
    assert(fact_views(out@) =~= post_sync(facts@));
    out
}

impl MetalTransform {
    /// Decides what becomes of a node.
    ///
    /// `input_facts` are the facts of its inputs in the graph that is translated, and
    /// `target_inputs` those of what stands for them in the new one. `gemm_support` tells
    /// which kernels take the inputs of a product; `metal_resize` makes the operator of a
    /// resize; `try_make` makes any other operator; and `facts_ok` tells whether that can
    /// deal with inputs of the facts given. Each is asked only if it matters.
    pub fn translate_node<Resize, GpuOp, Error, Support, MetalResize, TryMake, FactsOk>(
        &self,
        name: &str,
        op: &TypedOp,
        input_facts: &Vec<TypedFact>,
        target_inputs: &Vec<TypedFact>,
        gemm_support: Support,
        metal_resize: MetalResize,
        try_make: TryMake,
        facts_ok: FactsOk,
    ) -> (r: Result<Translation<Resize, GpuOp>, Error>) where
        Support: FnOnce(&Vec<TypedFact>) -> GemmSupport,
        MetalResize: FnOnce() -> Result<Option<Resize>, Error>,
        TryMake: FnOnce() -> Result<Option<GpuOp>, Error>,
        FactsOk: FnOnce(&GpuOp, &Vec<TypedFact>) -> bool,

        requires
            op is Conv ==> input_facts@.len() >= 1,
            call_requires(gemm_support, (input_facts,)),
            call_requires(metal_resize, ()),
            forall|resize: Resize|
                #[trigger] call_ensures(metal_resize, (), Ok(Some(resize))) ==> target_inputs@.len()
                    >= 1,
            call_requires(try_make, ()),
            forall|g: GpuOp, facts: Vec<TypedFact>| #[trigger]
                call_requires(facts_ok, (&g, &facts)),
        ensures
            !plain_matmul(*op) && takes_conv(*op, input_facts@) ==> r is Ok && r->Ok_0 is Conv,
            !plain_matmul(*op) && !takes_conv(*op, input_facts@) ==> resize_or_later(
                name@,
                *op,
                target_inputs@,
                metal_resize,
                try_make,
                facts_ok,
                r,
            ),
            plain_matmul(*op) ==> exists|support: GemmSupport|
                #[trigger] call_ensures(gemm_support, (input_facts,), support) && if takes(support) {
                    r is Ok && r->Ok_0 is Matmul
                } else {
                    resize_or_later(
                        name@,
                        *op,
                        target_inputs@,
                        metal_resize,
                        try_make,
                        facts_ok,
                        r,
                    )
                },
            r matches Ok(t) ==> t.reads_on_its_side(target_inputs@),
            op is Conv ==> ({
                let first = input_facts@[0].datum_type;
                let lives_there = |dt: DatumType|
                    !(dt == DatumType::F64 || dt == DatumType::TDim || dt == DatumType::Blob || dt
                        == DatumType::String || dt is QI8 || dt is QU8 || dt is QI32);
                let taken = (first == DatumType::F16 || first == DatumType::F32) && forall|i: int|
                    0 <= i < input_facts@.len() ==> lives_there(
                        (#[trigger] input_facts@[i]).datum_type,
                    );
                (r is Ok && r->Ok_0 is Conv) == taken
            }),
            r is Ok && r->Ok_0 is Conv ==> op is Conv,
            r is Ok && r->Ok_0 is Matmul ==> (op matches TypedOp::PrefixMatMul(m) && !m.transpose_c
                && m.quantize_output is None),
            (op matches TypedOp::PrefixMatMul(m) && !m.transpose_c && m.quantize_output is None)
                ==> exists|support: GemmSupport|
                #[trigger] call_ensures(gemm_support, (input_facts,), support) && (r is Ok
                    && r->Ok_0 is Matmul) == (support.mlx || support.mfa || support.ggml
                    || support.ggml_swapped),
            r is Ok && (r->Ok_0 is Matmul || r->Ok_0 is Conv) || resize_or_later(
                name@,
                *op,
                target_inputs@,
                metal_resize,
                try_make,
                facts_ok,
                r,
            ),
    {
        // Products and convolutions become several nodes.
        if let TypedOp::PrefixMatMul(matmul) = op {
            if !matmul.transpose_c && matmul.quantize_output.is_none() {
                let support = gemm_support(input_facts);
                if check_matmul_in_dts(support) {
                    return Ok(Translation::Matmul);
                }
            }
        }
        if let TypedOp::Conv = op {
            if all_supported_on_device(input_facts) && input_facts[0].is_f16_or_f32() {
                return Ok(Translation::Conv);
            }
        }
        // A resize keeps only the data input: the sizes have no equivalent on the device.
        match metal_resize() {
            Err(e) => return Err(e),
            Ok(Some(resize)) => {
                let to_device = if target_inputs[0].device.is_none() {
                    Some(joined(name, ".to-device-0"))
                } else {
                    None
                };
                return Ok(Translation::Resize { op: resize, to_device });
            },
            Ok(None) => {},
        }
        if let TypedOp::Const(k) = op {
            let dt = match &*k.val {
                Tensor::BlockQuant(t) => t.datum_type,
                Tensor::Other { datum_type, .. } => *datum_type,
            };
            if dt.is_supported_on_device() {
                return Ok(Translation::Const);
            }
        }
        // The facts that the operator is asked about are those that it is going to see once
        // the inputs have been moved, so that a stale operator falls back to the host.
        match try_make() {
            Err(e) => Err(e),
            Ok(None) => Ok(Translation::Cpu),
            Ok(Some(gpu_op)) => {
                let facts = synced(target_inputs);
                if facts_ok(&gpu_op, &facts) {
                    Ok(Translation::Gpu(gpu_op))
                } else {
                    Ok(Translation::Cpu)
                }
            },
        }
    }
}

/// A node that becomes neither a product nor a convolution of the device becomes a resize, if
/// one is made of it, which moves its first input if that is on the host; else a constant of the
/// device, if it is a constant of elements that can live there; else what is made of it, if that
/// can deal with the inputs as they are once all of them are on the device; and else it stays on
/// the host. What fails first is the error.
pub proof fn law_nodes_fall_back_in_order<Resize, GpuOp, Error, MetalResize, TryMake, FactsOk>(
    name: Seq<char>,
    op: TypedOp,
    target_inputs: Seq<TypedFact>,
    metal_resize: MetalResize,
    try_make: TryMake,
    facts_ok: FactsOk,
    r: Result<Translation<Resize, GpuOp>, Error>,
) where
    MetalResize: FnOnce() -> Result<Option<Resize>, Error>,
    TryMake: FnOnce() -> Result<Option<GpuOp>, Error>,
    FactsOk: FnOnce(&GpuOp, &Vec<TypedFact>) -> bool,

    requires
        resize_or_later(name, op, target_inputs, metal_resize, try_make, facts_ok, r),
    ensures
        exists|resized: Result<Option<Resize>, Error>|
            #[trigger] call_ensures(metal_resize, (), resized) && match resized {
                Err(e) => r == Err::<Translation<Resize, GpuOp>, Error>(e),
                Ok(Some(resize)) => r matches Ok(Translation::Resize { op: o, to_device }) && o
                    == resize && match to_device {
                    Some(text) => target_inputs[0].device is None && text@ == name
                        + ".to-device-0"@,
                    None => target_inputs[0].device is Some,
                },
                Ok(None) => if op matches TypedOp::Const(k) && ({
                    let dt = match *k.val {
                        Tensor::BlockQuant(t) => t.datum_type,
                        Tensor::Other { datum_type, .. } => datum_type,
                    };
                    !(dt == DatumType::F64 || dt == DatumType::TDim || dt == DatumType::Blob || dt
                        == DatumType::String || dt is QI8 || dt is QU8 || dt is QI32)
                }) {
                    r is Ok && r->Ok_0 is Const
                } else {
                    exists|made: Result<Option<GpuOp>, Error>|
                        #[trigger] call_ensures(try_make, (), made) && match made {
                            Err(e) => r == Err::<Translation<Resize, GpuOp>, Error>(e),
                            Ok(None) => r is Ok && r->Ok_0 is Cpu,
                            Ok(Some(gpu)) => exists|facts: Vec<TypedFact>, ok: bool|
                                #[trigger] call_ensures(facts_ok, (&gpu, &facts), ok)
                                    && moved_to_the_device(target_inputs, facts@) && if ok {
                                    r == Ok::<Translation<Resize, GpuOp>, Error>(
                                        Translation::Gpu(gpu),
                                    )
                                } else {
                                    r is Ok && r->Ok_0 is Cpu
                                },
                        }
                },
            },
{
    let resized = choose|resized: Result<Option<Resize>, Error>|
        #[trigger] call_ensures(metal_resize, (), resized) && match resized {
            Err(e) => r == Err::<Translation<Resize, GpuOp>, Error>(e),
            Ok(Some(resize)) => r matches Ok(Translation::Resize { op: o, to_device }) && o
                == resize && text_view(to_device) == resize_sync(name, target_inputs[0]@),
            Ok(None) => if takes_const(op) {
                r is Ok && r->Ok_0 is Const
            } else {
                single_op(try_make, facts_ok, post_sync(target_inputs), r)
            },
        };
    if resized == Ok::<Option<Resize>, Error>(None) && !takes_const(op) {
        assert(single_op(try_make, facts_ok, post_sync(target_inputs), r));
        let made = choose|made: Result<Option<GpuOp>, Error>|
            #[trigger] call_ensures(try_make, (), made) && match made {
                Err(e) => r == Err::<Translation<Resize, GpuOp>, Error>(e),
                Ok(None) => r is Ok && r->Ok_0 is Cpu,
                Ok(Some(op)) => exists|facts: Vec<TypedFact>, ok: bool|
                    #[trigger] call_ensures(facts_ok, (&op, &facts), ok) && fact_views(facts@)
                        == post_sync(target_inputs) && if ok {
                        r == Ok::<Translation<Resize, GpuOp>, Error>(Translation::Gpu(op))
                    } else {
                        r is Ok && r->Ok_0 is Cpu
                    },
            };
        assert(call_ensures(try_make, (), made));
        if let Ok(Some(gpu)) = made {
            let (facts, ok) = choose|facts: Vec<TypedFact>, ok: bool|
                #[trigger] call_ensures(facts_ok, (&gpu, &facts), ok) && fact_views(facts@)
                    == post_sync(target_inputs) && if ok {
                    r == Ok::<Translation<Resize, GpuOp>, Error>(Translation::Gpu(gpu))
                } else {
                    r is Ok && r->Ok_0 is Cpu
                };
            assert(call_ensures(facts_ok, (&gpu, &facts), ok));
            assert(fact_views(facts@).len() == facts@.len());
            assert forall|i: int| 0 <= i < facts@.len() implies moved_alone(
                target_inputs[i],
                #[trigger] facts@[i],
            ) by {
                assert(fact_views(facts@)[i] == facts@[i]@);
                assert(post_sync(target_inputs)[i] == target_inputs[i]@.to_device());
            }
        }
    }
}

/// The fact is that of the same tensor on the device: where it was there already, nothing has
/// changed, and else it comes from the host.
pub open spec fn moved_alone(before: TypedFact, after: TypedFact) -> bool {
    &&& after.datum_type == before.datum_type
    &&& after.shape@ == before.shape@
    &&& after.exotic@ == before.exotic@
    &&& after.device == Some(
        match before.device {
            Some(residence) => residence,
            None => Residence { origin: DeviceTensorOrigin::FromHost, state_owned: false },
        },
    )
}

/// The facts are those of the same tensors on the device.
pub open spec fn moved_to_the_device(before: Seq<TypedFact>, after: Seq<TypedFact>) -> bool {
    &&& after.len() == before.len()
    &&& forall|i: int| 0 <= i < after.len() ==> moved_alone(before[i], #[trigger] after[i])
}

/// Every translation but the one to the host moves the outputs of the graph behind the node to
/// the host, and all the inputs of the node to the device; of a resize it is the first input
/// that is read there, if it was there or a node is named that moves it. The translation to the
/// host moves all the inputs to the host, and no output.
pub proof fn law_translations_sync<Resize, GpuOp>(
    t: Translation<Resize, GpuOp>,
    i: int,
    on_device: bool,
)
    ensures
        t.spec_syncs_outputs() == !(t is Cpu),
        !(t is Cpu) && !(t is Resize) ==> t.spec_input_sync() == Some(DeviceSyncKind::ToDevice)
            && t.reads_on_device(i, on_device),
        (t matches Translation::Resize { to_device, .. }
            ==> t.reads_on_device(0, on_device) == (on_device || to_device is Some)),
        t is Cpu ==> t.spec_input_sync() == Some(DeviceSyncKind::ToHost)
            && !t.reads_on_device(i, on_device),
{
}

/// An output of the graph is handed out on the host, with the element type and the shape that
/// it is put out with, whatever became of the node, where an operator that stays on the host
/// puts out tensors of the host.
pub proof fn law_outputs_are_on_the_host<Resize, GpuOp>(
    t: Translation<Resize, GpuOp>,
    put_out: TypedFactView,
)
    requires
        t is Cpu ==> put_out.device is None,
    ensures
        t.handed_out(put_out).device is None,
        t.handed_out(put_out).datum_type == put_out.datum_type,
        t.handed_out(put_out).shape == put_out.shape,
{
}

/// The packing of a constant, with its residence where it is on the device already.
#[derive(Debug)]
pub struct Packing {
    pub exotic: ExoticFact,
    pub device: Option<Residence>,
}

/// The constant is on the device already.
#[derive(Debug, Clone, Copy, PartialEq, Eq, Structural)]
pub struct AlreadyOnDevice;

/// What is known of a constant: of its value, with the packing that comes with it if there
/// is one.
pub open spec fn const_fact(val: TypedFactView, packing: Option<Packing>) -> TypedFactView {
    match packing {
        Some(p) => TypedFactView { exotic: p.exotic@, device: p.device, ..val },
        None => val,
    }
}

/// What is known of a constant once it has been moved to the device.
pub fn convert_const(val: &TypedFact, packing: &Option<Packing>) -> (r: Result<
    TypedFact,
    AlreadyOnDevice,
>)
    ensures
        r is Err == (const_fact(val@, *packing).device is Some),
        r matches Ok(f) ==> f@ == const_fact(val@, *packing).to_device(),
        match *packing {
            None => r is Err == (val.device is Some) && (r matches Ok(f) ==> f.exotic@
                == val.exotic@),
            Some(p) => r is Err == (p.device is Some) && (r matches Ok(f) ==> f.exotic@
                == p.exotic@),
        },
        r matches Ok(f) ==> {
            &&& f.datum_type == val.datum_type
            &&& f.shape@ == val.shape@
            &&& f.device == Some(
                Residence { origin: DeviceTensorOrigin::FromHost, state_owned: false },
            )
        },
{
    let mut fact = val.duplicate();
    if let Some(p) = packing {
        fact.exotic = p.exotic.duplicate();
        fact.device = p.device;
    }
    if fact.device.is_some() {
        return Err(AlreadyOnDevice);
    }
    Ok(fact.to_device())
}

} // verus!
