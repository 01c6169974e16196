//! Lowering of a matrix product: the nodes to wire on the device, one after the other.

use crate::cast::{metal_cast_new, CastKernel, GpuCast};
use crate::datum::{law_wider_types, widens, DatumType};
use crate::dim::{DimTable, DimTableView};
use crate::fact::{BlockQuantFormat, ExoticFactView, TypedFact, TypedFactView};
use crate::gemm::{
    batches_are_known, batches_known, law_kernel_by_default, plainly_ggml, resolve_gemm_impl, resolved_gemm,
    MetalGemmImplKind,
};
use crate::model::PrefixMatMul;
use crate::text::joined;
use vstd::prelude::*;

verus! {

/// What a node to be wired reads.
#[derive(Debug, Clone, Copy, PartialEq, Eq, Structural)]
pub enum Wire {
    /// An input of the node that is lowered.
    Input(usize),
    /// The output of an earlier step.
    Step(usize),
}

/// The operator of a node to be wired.
#[derive(Debug, Clone, Copy, PartialEq, Eq, Structural)]
pub enum StepOp {
    Cast(GpuCast),
    /// Moves an axis.
    MoveAxis { from: usize, to: usize },
    Gemm { kind: MetalGemmImplKind, transpose_a: bool, transpose_b: bool },
}

/// A node to be wired.
#[derive(Debug)]
pub struct WireStep {
    pub name: String,
    pub op: StepOp,
    pub inputs: Vec<Wire>,
}

/// A [`WireStep`] by value.
pub struct WireStepView {
    pub name: Seq<char>,
    pub op: StepOp,
    pub inputs: Seq<Wire>,
}

impl View for WireStep {
    type V = WireStepView;

    open spec fn view(&self) -> WireStepView {
        WireStepView { name: self.name@, op: self.op, inputs: self.inputs@ }
    }
}

/// The steps of a list by value.
pub open spec fn step_views(steps: Seq<WireStep>) -> Seq<WireStepView> {
    steps.map_values(|s: WireStep| s@)
}

/// The nodes that a matrix product is lowered to. The last step puts out the product.
#[derive(Debug)]
pub struct MatmulPlan {
    pub name: String,
    pub steps: Vec<WireStep>,
    /// The product comes out of the kernel with its last two axes exchanged.
    pub swapped: bool,
}

/// A [`MatmulPlan`] by value.
pub struct MatmulPlanView {
    pub name: Seq<char>,
    pub steps: Seq<WireStepView>,
    pub swapped: bool,
}

impl View for MatmulPlan {
    type V = MatmulPlanView;

    open spec fn view(&self) -> MatmulPlanView {
        MatmulPlanView {
            name: self.name@,
            steps: step_views(self.steps@),
            swapped: self.swapped,
        }
    }
}

/// Why a product cannot be lowered.
#[derive(Debug, Clone, Copy, PartialEq, Eq, Structural)]
pub enum MatmulError {
    /// There is no cast to the type to accumulate in.
    NoMetalCast(DatumType),
    /// The element types of the inputs differ, and neither is half precision.
    NeitherIsHalf,
    /// Packed weights cannot be transposed.
    TransposedQ40,
    /// The product cannot be cast to the type that is expected.
    OutputCast,
}

/// Elements of the type have to be cast up, for the product to be accumulated in the type
/// that the operator asks for.
pub open spec fn accumulates(op: PrefixMatMul, dt: DatumType) -> bool {
    op.operating_dt matches Some(acc) && widens(dt, acc)
}

/// The fact of an input once it has been cast up.
pub open spec fn accumulated(op: PrefixMatMul, fact: TypedFactView) -> TypedFactView {
    if accumulates(op, fact.datum_type) {
        TypedFactView { datum_type: op.operating_dt->0, ..fact }
    } else {
        fact
    }
}

/// The kernels that want both inputs in the same element type get them in different ones.
pub open spec fn mixed(kind: MetalGemmImplKind, a: TypedFactView, b: TypedFactView) -> bool {
    kind != MetalGemmImplKind::Ggml && a.datum_type != b.datum_type
}

/// The inputs are to be cast up, and the kernel does not cast to the type asked for.
pub open spec fn lacks_cast(
    op: PrefixMatMul,
    casts: CastKernel,
    a: TypedFactView,
    b: TypedFactView,
) -> bool {
    &&& accumulates(op, a.datum_type) || accumulates(op, b.datum_type)
    &&& !casts.supports(op.operating_dt->0)
}

/// Why the product of the inputs cannot be lowered to the kernel, if it cannot.
pub open spec fn matmul_error(
    op: PrefixMatMul,
    casts: CastKernel,
    kind: MetalGemmImplKind,
    a: TypedFactView,
    b: TypedFactView,
) -> Option<MatmulError> {
    let (a2, b2) = (accumulated(op, a), accumulated(op, b));
    if lacks_cast(op, casts, a, b) {
        Some(MatmulError::NoMetalCast(op.operating_dt->0))
    } else if mixed(kind, a2, b2) && a2.datum_type != DatumType::F16 && b2.datum_type
        != DatumType::F16 {
        Some(MatmulError::NeitherIsHalf)
    } else if kind == MetalGemmImplKind::Ggml && ((op.transpose_a && a2.is_quant(
        BlockQuantFormat::Q4_0,
    )) || (!op.transpose_b && b2.is_quant(BlockQuantFormat::Q4_0))) {
        Some(MatmulError::TransposedQ40)
    } else {
        None
    }
}

/// Steps wired so far, and what stands for the two inputs after them.
pub struct Wiring {
    pub steps: Seq<WireStepView>,
    pub a: Wire,
    pub b: Wire,
}

impl Wiring {
    /// Nothing wired yet.
    pub open spec fn start() -> Wiring {
        Wiring { steps: Seq::empty(), a: Wire::Input(0), b: Wire::Input(1) }
    }

    /// One more step on the way of the first input.
    pub open spec fn through_a(self, name: Seq<char>, op: StepOp) -> Wiring {
        Wiring {
            steps: self.steps.push(WireStepView { name, op, inputs: seq![self.a] }),
            a: Wire::Step(self.steps.len() as usize),
            b: self.b,
        }
    }

    /// One more step on the way of the second input.
    pub open spec fn through_b(self, name: Seq<char>, op: StepOp) -> Wiring {
        Wiring {
            steps: self.steps.push(WireStepView { name, op, inputs: seq![self.b] }),
            a: self.a,
            b: Wire::Step(self.steps.len() as usize),
        }
    }

    /// Inputs that are too narrow are cast up to the type to accumulate in.
    pub open spec fn cast_up(
        self,
        name: Seq<char>,
        op: PrefixMatMul,
        a: TypedFactView,
        b: TypedFactView,
    ) -> Wiring {
        let cast = StepOp::Cast(GpuCast { to: op.operating_dt->0 });
        let first = if accumulates(op, a.datum_type) {
            self.through_a(name + ".cast_acc_0"@, cast)
        } else {
            self
        };
        if accumulates(op, b.datum_type) {
            first.through_b(name + ".cast_acc_1"@, cast)
        } else {
            first
        }
    }

    /// Where the kernel wants both inputs in the same element type, the half precision one
    /// is cast to single precision.
    pub open spec fn cast_mixed(
        self,
        name: Seq<char>,
        kind: MetalGemmImplKind,
        a: TypedFactView,
        b: TypedFactView,
    ) -> Wiring {
        let cast = StepOp::Cast(GpuCast { to: DatumType::F32 });
        if !mixed(kind, a, b) {
            self
        } else if a.datum_type == DatumType::F16 {
            self.through_a(name + ".cast_input"@, cast)
        } else {
            self.through_b(name + ".cast_input"@, cast)
        }
    }

    /// The GGML kernel reads the first input by rows and the second by columns: an input
    /// that lies the other way round has its last two axes exchanged.
    pub open spec fn permute(
        self,
        name: Seq<char>,
        op: PrefixMatMul,
        kind: MetalGemmImplKind,
        a: TypedFactView,
        b: TypedFactView,
    ) -> Wiring {
        if kind != MetalGemmImplKind::Ggml {
            self
        } else {
            let first = if op.transpose_a {
                self.through_a(name + ".perm_a"@, exchange(a.rank()))
            } else {
                self
            };
            if !op.transpose_b {
                first.through_b(name + ".perm_b"@, exchange(b.rank()))
            } else {
                first
            }
        }
    }

    /// The kernel itself, which has the name of the node that is lowered.
    pub open spec fn gemm(
        self,
        name: Seq<char>,
        op: PrefixMatMul,
        kind: MetalGemmImplKind,
        swapped: bool,
    ) -> Seq<WireStepView> {
        self.steps.push(
            WireStepView {
                name,
                op: gemm_op(op, kind),
                inputs: if swapped {
                    seq![self.b, self.a]
                } else {
                    seq![self.a, self.b]
                },
            },
        )
    }
}

/// The operator that exchanges the last two axes.
pub open spec fn exchange(rank: nat) -> StepOp {
    StepOp::MoveAxis { from: (rank - 2) as usize, to: (rank - 1) as usize }
}

/// The operator of the kernel. GGML has its inputs turned beforehand.
pub open spec fn gemm_op(op: PrefixMatMul, kind: MetalGemmImplKind) -> StepOp {
    if kind == MetalGemmImplKind::Ggml {
        StepOp::Gemm { kind, transpose_a: false, transpose_b: true }
    } else {
        StepOp::Gemm { kind, transpose_a: op.transpose_a, transpose_b: op.transpose_b }
    }
}

/// The inputs are handed to the GGML kernel the other way round, if it takes them in that
/// order only.
pub open spec fn swaps(kind: MetalGemmImplKind, ggml: bool, ggml_swapped: bool) -> bool {
    kind == MetalGemmImplKind::Ggml && !ggml && ggml_swapped
}

/// The nodes that a product is lowered to, up to the kernel.
pub open spec fn matmul_plan(
    name: Seq<char>,
    op: PrefixMatMul,
    kind: MetalGemmImplKind,
    a: TypedFactView,
    b: TypedFactView,
    swapped: bool,
) -> MatmulPlanView {
    let (a2, b2) = (accumulated(op, a), accumulated(op, b));
    let wiring = Wiring::start().cast_up(name, op, a, b).cast_mixed(name, kind, a2, b2).permute(
        name,
        op,
        kind,
        a2,
        b2,
    );
    MatmulPlanView { name, steps: wiring.gemm(name, op, kind, swapped), swapped }
}

/// The product can be looked at: the kernel can be told, single precision can be cast to
/// where it has to be, and what is turned has two axes.
pub open spec fn plannable(
    op: PrefixMatMul,
    casts: CastKernel,
    gemm_impl: Option<MetalGemmImplKind>,
    table: DimTableView,
    a: TypedFactView,
    b: TypedFactView,
) -> bool {
    let (a2, b2) = (accumulated(op, a), accumulated(op, b));
    let kind = resolved_gemm(gemm_impl, table, a2, b2);
    lacks_cast(op, casts, a, b) || {
        &&& gemm_impl is None && !plainly_ggml(a2, b2) ==> batches_known(table, a2, b2)
        &&& matmul_error(op, casts, kind, a, b) is None ==> {
            &&& mixed(kind, a2, b2) ==> casts.supports(DatumType::F32)
            &&& kind == MetalGemmImplKind::Ggml && op.transpose_a ==> a2.rank() >= 2
            &&& kind == MetalGemmImplKind::Ggml && !op.transpose_b ==> b2.rank() >= 2
        }
    }
}

/// Whether the product can be looked at.
pub fn is_plannable(
    op: &PrefixMatMul,
    facts: &Vec<TypedFact>,
    gemm_impl: Option<MetalGemmImplKind>,
    table: &DimTable,
    casts: &CastKernel,
) -> (r: bool)
    requires
        facts@.len() == 2,
        table.wf(),
    ensures
        r == plannable(*op, *casts, gemm_impl, table@, facts@[0]@, facts@[1]@),
{
    if let Some(acc) = op.operating_dt {
        if (needs_accumulation(op, facts[0].datum_type) || needs_accumulation(
            op,
            facts[1].datum_type,
        )) && !casts.is_supported_dt(acc) {
            return true;
        }
    }
    let a = accumulated_fact(op, &facts[0]);
    let b = accumulated_fact(op, &facts[1]);
    let plain = a.as_quant_fact(BlockQuantFormat::Q4_0) || b.as_quant_fact(BlockQuantFormat::Q4_0)
        || a.datum_type != b.datum_type;
    if gemm_impl.is_none() && !plain && !batches_are_known(table, &a, &b) {
        return false;
    }
    let inputs = vec![a, b];
    let kind = match resolve_gemm_impl(gemm_impl, table, &inputs) {
        Ok(kind) => kind,
        Err(_) => return false,
    };
    let (a, b) = (&inputs[0], &inputs[1]);
    if kind != MetalGemmImplKind::Ggml {
        let differ = a.datum_type != b.datum_type;
        let half = a.datum_type == DatumType::F16 || b.datum_type == DatumType::F16;
        !differ || !half || casts.is_supported_dt(DatumType::F32)
    } else {
        let packed = (op.transpose_a && a.as_quant_fact(BlockQuantFormat::Q4_0)) || (
        !op.transpose_b && b.as_quant_fact(BlockQuantFormat::Q4_0));
        packed || ((!op.transpose_a || a.rank() >= 2) && (op.transpose_b || b.rank() >= 2))
    }
}

/// Adds a step that reads one wire. The wire that it puts out is handed back.
fn push_step(steps: &mut Vec<WireStep>, name: &str, suffix: &str, op: StepOp, input: Wire) -> (r:
    Wire)
    ensures
        step_views(final(steps)@) == step_views(old(steps)@).push(
            WireStepView { name: name@ + suffix@, op, inputs: seq![input] },
        ),
        r == Wire::Step(old(steps)@.len() as usize),
{
    let out = Wire::Step(steps.len());
    let inputs = vec![input];
    assert(inputs@ =~= seq![input]);
    steps.push(WireStep { name: joined(name, suffix), op, inputs });
    assert(step_views(steps@) =~= step_views(old(steps)@).push(
        WireStepView { name: name@ + suffix@, op, inputs: seq![input] },
    ));
    out
}

/// Whether the operator asks for a wider type to accumulate in than that of the elements.
fn needs_accumulation(op: &PrefixMatMul, dt: DatumType) -> (r: bool)
    ensures
        r == accumulates(*op, dt),
{
    match op.operating_dt {
        Some(acc) => dt.is_float() && acc.is_float() && dt.size_of() < acc.size_of(),
        None => false,
    }
}

/// What is known of an input once it has been cast up to the type to accumulate in.
pub fn accumulated_fact(op: &PrefixMatMul, fact: &TypedFact) -> (r: TypedFact)
    ensures
        r@ == accumulated(*op, fact@),
{
    let mut r = fact.duplicate();
    if let Some(acc) = op.operating_dt {
        if needs_accumulation(op, r.datum_type) {
            r.datum_type = acc;
        }
    }
    r
}

/// The nodes that a matrix product is lowered to, up to the kernel. `ggml` and
/// `ggml_swapped` are what the GGML kernel answers on the inputs, once they are cast up, and
/// on the inputs the other way round.
#[verifier::rlimit(60)]
pub fn plan_matmul(
    name: &str,
    op: &PrefixMatMul,
    facts: &Vec<TypedFact>,
    gemm_impl: Option<MetalGemmImplKind>,
    table: &DimTable,
    casts: &CastKernel,
    ggml: bool,
    ggml_swapped: bool,
) -> (r: Result<MatmulPlan, MatmulError>)
    requires
        facts@.len() == 2,
        table.wf(),
        plannable(*op, *casts, gemm_impl, table@, facts@[0]@, facts@[1]@),
    ensures
        ({
            let (a, b) = (facts@[0]@, facts@[1]@);
            let kind = resolved_gemm(
                gemm_impl,
                table@,
                accumulated(*op, a),
                accumulated(*op, b),
            );
            match matmul_error(*op, *casts, kind, a, b) {
                Some(e) => r == Err::<MatmulPlan, MatmulError>(e),
                None => r matches Ok(plan) && plan@ == matmul_plan(
                    name@,
                    *op,
                    kind,
                    a,
                    b,
                    swaps(kind, ggml, ggml_swapped),
                ),
            }
        }),
        r matches Ok(plan) ==> {
            &&& plan.name@ == name@
            &&& plan.steps@.len() >= 1
            &&& plan.steps@.last().name@ == name@
            &&& plan.steps@.last().op matches StepOp::Gemm { kind, .. } && {
                &&& gemm_impl matches Some(asked) ==> kind == asked
                &&& gemm_impl is None ==> kind != MetalGemmImplKind::Mfa
                &&& plan.swapped == (kind == MetalGemmImplKind::Ggml && !ggml && ggml_swapped)
            }
        },
{
    let ghost (a0, b0) = (facts@[0]@, facts@[1]@);
    let mut steps: Vec<WireStep> = Vec::new();
    let mut a = Wire::Input(0);
    let mut b = Wire::Input(1);
    assert(step_views(steps@) =~= Wiring::start().steps);
    // The kernels accumulate in the element type of their inputs.
    if let Some(acc) = op.operating_dt {
        if needs_accumulation(op, facts[0].datum_type) {
            let cast = match metal_cast_new(casts, acc) {
                Some(cast) => cast,
                None => return Err(MatmulError::NoMetalCast(acc)),
            };
            a = push_step(&mut steps, name, ".cast_acc_0", StepOp::Cast(cast), a);
        }
        if needs_accumulation(op, facts[1].datum_type) {
            let cast = match metal_cast_new(casts, acc) {
                Some(cast) => cast,
                None => return Err(MatmulError::NoMetalCast(acc)),
            };
            b = push_step(&mut steps, name, ".cast_acc_1", StepOp::Cast(cast), b);
        }
    }
    let input_facts = vec![accumulated_fact(op, &facts[0]), accumulated_fact(op, &facts[1])];
    let ghost w1 = Wiring::start().cast_up(name@, *op, a0, b0);
    assert(step_views(steps@) == w1.steps && a == w1.a && b == w1.b);

    let kind = match resolve_gemm_impl(gemm_impl, table, &input_facts) {
        Ok(kind) => kind,
        Err(e) => return Err(e),
    };
    if kind != MetalGemmImplKind::Ggml && input_facts[0].datum_type != input_facts[1].datum_type {
        if input_facts[0].datum_type != DatumType::F16 && input_facts[1].datum_type
            != DatumType::F16 {
            return Err(MatmulError::NeitherIsHalf);
        }
        let cast = match metal_cast_new(casts, DatumType::F32) {
            Some(cast) => cast,
            None => return Err(MatmulError::NoMetalCast(DatumType::F32)),
        };
        if input_facts[0].datum_type == DatumType::F16 {
            a = push_step(&mut steps, name, ".cast_input", StepOp::Cast(cast), a);
        } else {
            b = push_step(&mut steps, name, ".cast_input", StepOp::Cast(cast), b);
        }
    }
    let ghost (a2, b2) = (accumulated(*op, a0), accumulated(*op, b0));
    let ghost w2 = w1.cast_mixed(name@, kind, a2, b2);
    assert(step_views(steps@) == w2.steps && a == w2.a && b == w2.b);

    let swapped = kind == MetalGemmImplKind::Ggml && !ggml && ggml_swapped;
    let (transpose_a, transpose_b) = if kind == MetalGemmImplKind::Ggml {
        if op.transpose_a {
            if input_facts[0].as_quant_fact(BlockQuantFormat::Q4_0) {
                return Err(MatmulError::TransposedQ40);
            }
        }
        if !op.transpose_b {
            if input_facts[1].as_quant_fact(BlockQuantFormat::Q4_0) {
                return Err(MatmulError::TransposedQ40);
            }
        }
        if op.transpose_a {
            let rank = input_facts[0].rank();
            let perm = StepOp::MoveAxis { from: rank - 2, to: rank - 1 };
            a = push_step(&mut steps, name, ".perm_a", perm, a);
        }
        if !op.transpose_b {
            let rank = input_facts[1].rank();
            let perm = StepOp::MoveAxis { from: rank - 2, to: rank - 1 };
            b = push_step(&mut steps, name, ".perm_b", perm, b);
        }
        (false, true)
    } else {
        (op.transpose_a, op.transpose_b)
    };
    let ghost w3 = w2.permute(name@, *op, kind, a2, b2);
    assert(step_views(steps@) == w3.steps && a == w3.a && b == w3.b);

    let inputs = if swapped {
        vec![b, a]
    } else {
        vec![a, b]
    };
    assert(inputs@ =~= if swapped { seq![b, a] } else { seq![a, b] });
    let gemm = StepOp::Gemm { kind, transpose_a, transpose_b };
    let ghost before = steps@;
    steps.push(WireStep { name: name.to_owned(), op: gemm, inputs });
    assert(step_views(steps@) =~= w3.gemm(name@, *op, kind, swapped)) by {
        assert(step_views(before) == w3.steps);
    }
    proof {
        law_kernel_by_default(table@, a2, b2);
        assert(steps@.last()@ == step_views(steps@).last());
    }
    Ok(MatmulPlan { name: name.to_owned(), steps, swapped })
}

/// `r` is what the product of the inputs is lowered to, whatever the GGML kernel answers on
/// them once they are cast up.
pub open spec fn planned<GgmlSupports>(
    name: Seq<char>,
    op: PrefixMatMul,
    casts: CastKernel,
    gemm_impl: Option<MetalGemmImplKind>,
    table: DimTableView,
    a: TypedFactView,
    b: TypedFactView,
    ggml_supports: GgmlSupports,
    r: Result<MatmulPlan, MatmulError>,
) -> bool where GgmlSupports: Fn(&TypedFact, &TypedFact) -> bool {
    exists|x: TypedFact, y: TypedFact, ggml: bool, ggml_swapped: bool|
        {
            &&& x@ == accumulated(op, a)
            &&& y@ == accumulated(op, b)
            &&& #[trigger] call_ensures(ggml_supports, (&x, &y), ggml)
            &&& #[trigger] call_ensures(ggml_supports, (&y, &x), ggml_swapped)
            &&& ({
                let kind = resolved_gemm(gemm_impl, table, x@, y@);
                match matmul_error(op, casts, kind, a, b) {
                    Some(e) => r == Err::<MatmulPlan, MatmulError>(e),
                    None => r matches Ok(plan) && plan@ == matmul_plan(
                        name,
                        op,
                        kind,
                        a,
                        b,
                        swaps(kind, ggml, ggml_swapped),
                    ),
                }
            })
        }
}

/// The nodes that a matrix product is lowered to, up to the kernel. `ggml_supports` tells
/// whether the GGML kernel takes two inputs, in the order given.
pub fn convert_matmul_to_metal<GgmlSupports>(
    name: &str,
    op: &PrefixMatMul,
    facts: &Vec<TypedFact>,
    gemm_impl: Option<MetalGemmImplKind>,
    table: &DimTable,
    casts: &CastKernel,
    ggml_supports: GgmlSupports,
) -> (r: Result<MatmulPlan, MatmulError>) where
    GgmlSupports: Fn(&TypedFact, &TypedFact) -> bool,

    requires
        facts@.len() == 2,
        table.wf(),
        plannable(*op, *casts, gemm_impl, table@, facts@[0]@, facts@[1]@),
        forall|x: TypedFact, y: TypedFact| #[trigger] call_requires(ggml_supports, (&x, &y)),
    ensures
        planned(name@, *op, *casts, gemm_impl, table@, facts@[0]@, facts@[1]@, ggml_supports, r),
{
    let x = accumulated_fact(op, &facts[0]);
    let y = accumulated_fact(op, &facts[1]);
    let ggml = ggml_supports(&x, &y);
    let ggml_swapped = ggml_supports(&y, &x);
    plan_matmul(name, op, facts, gemm_impl, table, casts, ggml, ggml_swapped)
}

/// The nodes that a matrix product is lowered to, up to the kernel, where the product can be
/// looked at, and nothing where it cannot.
pub fn convert_matmul_if_plannable<GgmlSupports>(
    name: &str,
    op: &PrefixMatMul,
    facts: &Vec<TypedFact>,
    gemm_impl: Option<MetalGemmImplKind>,
    table: &DimTable,
    casts: &CastKernel,
    ggml_supports: GgmlSupports,
) -> (r: Option<Result<MatmulPlan, MatmulError>>) where
    GgmlSupports: Fn(&TypedFact, &TypedFact) -> bool,

    requires
        facts@.len() == 2,
        table.wf(),
        forall|x: TypedFact, y: TypedFact| #[trigger] call_requires(ggml_supports, (&x, &y)),
    ensures
        r is Some == plannable(*op, *casts, gemm_impl, table@, facts@[0]@, facts@[1]@),
        r is Some ==> planned(
            name@,
            *op,
            *casts,
            gemm_impl,
            table@,
            facts@[0]@,
            facts@[1]@,
            ggml_supports,
            r->0,
        ),
{
    if is_plannable(op, facts, gemm_impl, table, casts) {
        Some(
            convert_matmul_to_metal(name, op, facts, gemm_impl, table, casts, ggml_supports),
        )
    } else {
        None
    }
}

/// The step that reads the output of the last one.
pub open spec fn after_last(plan: MatmulPlanView, suffix: Seq<char>, op: StepOp) -> MatmulPlanView {
    MatmulPlanView {
        steps: plan.steps.push(
            WireStepView {
                name: plan.name + suffix,
                op,
                inputs: seq![Wire::Step((plan.steps.len() - 1) as usize)],
            },
        ),
        ..plan
    }
}

/// The plan once the product has its axes in order: they are exchanged once more where the
/// kernel got its inputs the other way round.
pub open spec fn output_permuted(plan: MatmulPlanView, out_rank: nat) -> MatmulPlanView {
    if plan.swapped {
        after_last(plan, ".perm_out"@, exchange(out_rank))
    } else {
        plan
    }
}

/// The plan once the product has the element type that is expected.
pub open spec fn output_cast(
    plan: MatmulPlanView,
    out_dt: DatumType,
    expected_dt: DatumType,
) -> MatmulPlanView {
    if out_dt != expected_dt {
        after_last(plan, ".out_cast"@, StepOp::Cast(GpuCast { to: expected_dt }))
    } else {
        plan
    }
}

impl MatmulPlan {
    /// Adds a step that reads the output of the last one.
    fn push_after_last(&mut self, suffix: &str, op: StepOp)
        requires
            old(self).steps@.len() > 0,
        ensures
            final(self)@ == after_last(old(self)@, suffix@, op),
    {
        let last = Wire::Step(self.steps.len() - 1);
        let _out = push_step(&mut self.steps, self.name.as_str(), suffix, op, last);
    }

    /// Puts the axes of the product in order, where the kernel got its inputs the other way
    /// round. `out_rank` is the rank of what the kernel puts out.
    pub fn permute_output(&mut self, out_rank: usize)
        requires
            old(self).steps@.len() > 0,
            old(self).swapped ==> out_rank >= 2,
        ensures
            final(self)@ == output_permuted(old(self)@, out_rank as nat),
    {
        if self.swapped {
            let perm = StepOp::MoveAxis { from: out_rank - 2, to: out_rank - 1 };
            self.push_after_last(".perm_out", perm);
        }
    }

    /// Casts the product to the element type that is expected, where it comes out in another.
    pub fn cast_output(
        &mut self,
        out_dt: DatumType,
        expected_dt: DatumType,
        casts: &CastKernel,
    ) -> (r: Result<(), MatmulError>)
        requires
            old(self).steps@.len() > 0,
            out_dt != expected_dt && casts.supports(out_dt) ==> casts.supports(expected_dt),
        ensures
            match r {
                Ok(_) => {
                    &&& out_dt == expected_dt || casts.supports(out_dt)
                    &&& final(self)@ == output_cast(old(self)@, out_dt, expected_dt)
                },
                Err(e) => {
                    &&& out_dt != expected_dt && !casts.supports(out_dt)
                    &&& e == MatmulError::OutputCast
                    &&& *final(self) == *old(self)
                },
            },
    {
        if out_dt != expected_dt {
            if !casts.is_supported_dt(out_dt) {
                return Err(MatmulError::OutputCast);
            }
            match metal_cast_new(casts, expected_dt) {
                Some(cast) => self.push_after_last(".out_cast", StepOp::Cast(cast)),
                None => return Err(MatmulError::OutputCast),
            }
        }
        Ok(())
    }
}

/// Once cast up, no input is narrower than the type to accumulate in: the kernels, which
/// accumulate in the type of their inputs, accumulate in a type as wide as was asked for.
pub proof fn law_accumulates_as_wide_as_asked(op: PrefixMatMul, fact: TypedFactView)
    ensures
        !accumulates(op, accumulated(op, fact).datum_type),
        op.operating_dt matches Some(acc) ==> !widens(accumulated(op, fact).datum_type, acc),
{
}

/// What is put behind the name of the node that is lowered, in the order of the steps.
pub open spec fn suffixes() -> Seq<Seq<char>> {
    seq![
        ".cast_acc_0"@,
        ".cast_acc_1"@,
        ".cast_input"@,
        ".perm_a"@,
        ".perm_b"@,
        Seq::empty(),
        ".perm_out"@,
        ".out_cast"@,
    ]
}

/// The name with the suffix of that number is the name of a step.
spec fn bears(step: WireStepView, name: Seq<char>, k: int) -> bool {
    step.name == name + suffixes()[k]
}

/// The name of the step is made with one of the first suffixes.
spec fn bears_one(step: WireStepView, name: Seq<char>, upto: int) -> bool {
    exists|k: int| 0 <= k < upto && #[trigger] bears(step, name, k)
}

/// The names of the steps are made with suffixes before the one given, no two alike.
spec fn named(steps: Seq<WireStepView>, name: Seq<char>, upto: int) -> bool {
    &&& forall|i: int|
        0 <= i < steps.len() ==> bears_one(#[trigger] steps[i], name, upto)
    &&& forall|i: int, j: int|
        0 <= i < j < steps.len() ==> (#[trigger] steps[i]).name != (#[trigger] steps[j]).name
}

/// The suffixes differ.
proof fn lemma_suffixes_differ(name: Seq<char>, j: int, k: int)
    requires
        0 <= j < k < 8,
    ensures
        name + suffixes()[j] != name + suffixes()[k],
{
    reveal_strlit(".cast_acc_0");
    reveal_strlit(".cast_acc_1");
    reveal_strlit(".cast_input");
    reveal_strlit(".perm_a");
    reveal_strlit(".perm_b");
    reveal_strlit(".perm_out");
    reveal_strlit(".out_cast");
    let (x, y) = (suffixes()[j], suffixes()[k]);
    let n = name.len() as int;
    assert(x.len() != y.len() || x[1] != y[1] || x[6] != y[6] || x[10] != y[10]);
    if name + x == name + y {
        assert((name + x).len() == (name + y).len());
        assert(x =~= y) by {
            assert forall|i: int| 0 <= i < x.len() implies x[i] == y[i] by {
                assert((name + x)[n + i] == x[i]);
                assert((name + y)[n + i] == y[i]);
            }
        }
    }
}

/// A step with a later suffix keeps the names apart.
proof fn lemma_named_push(
    steps: Seq<WireStepView>,
    step: WireStepView,
    name: Seq<char>,
    upto: int,
    k: int,
)
    requires
        named(steps, name, upto),
        0 <= upto <= k < 8,
        bears(step, name, k),
    ensures
        named(steps.push(step), name, k + 1),
{
    let all = steps.push(step);
    assert forall|i: int| 0 <= i < all.len() implies bears_one(#[trigger] all[i], name, k + 1) by {
        if i < steps.len() {
            assert(bears_one(steps[i], name, upto));
            let m = choose|m: int| 0 <= m < upto && #[trigger] bears(steps[i], name, m);
            assert(bears(all[i], name, m));
        } else {
            assert(bears(all[i], name, k));
        }
    }
    assert forall|i: int, j: int| 0 <= i < j < all.len() implies (#[trigger] all[i]).name != (
    #[trigger] all[j]).name by {
        if j == steps.len() {
            assert(bears_one(steps[i], name, upto));
            let m = choose|m: int| 0 <= m < upto && #[trigger] bears(steps[i], name, m);
            lemma_suffixes_differ(name, m, k);
        }
    }
}

/// More suffixes allow what fewer allow.
proof fn lemma_named_weaken(steps: Seq<WireStepView>, name: Seq<char>, upto: int, more: int)
    requires
        named(steps, name, upto),
        upto <= more,
    ensures
        named(steps, name, more),
{
    assert forall|i: int| 0 <= i < steps.len() implies bears_one(
        #[trigger] steps[i],
        name,
        more,
    ) by {
        assert(bears_one(steps[i], name, upto));
        let m = choose|m: int| 0 <= m < upto && #[trigger] bears(steps[i], name, m);
        assert(m < more);
    }
}

/// The nodes that a product is lowered to have names of their own, and one of them, the
/// kernel, has the name of the node that is lowered.
pub proof fn law_step_names_differ(
    name: Seq<char>,
    op: PrefixMatMul,
    kind: MetalGemmImplKind,
    a: TypedFactView,
    b: TypedFactView,
    swapped: bool,
    out_rank: nat,
    out_dt: DatumType,
    expected_dt: DatumType,
)
    ensures
        ({
            let plan = matmul_plan(name, op, kind, a, b, swapped);
            let steps = output_cast(
                output_permuted(plan, out_rank),
                out_dt,
                expected_dt,
            ).steps;
            &&& forall|i: int, j: int|
                0 <= i < j < steps.len() ==> (#[trigger] steps[i]).name != (#[trigger] steps[j]).name
            &&& steps[plan.steps.len() - 1].op is Gemm
            &&& steps[plan.steps.len() - 1].name == name
        }),
{
    let (a2, b2) = (accumulated(op, a), accumulated(op, b));
    let s0 = Wiring::start();
    let up = StepOp::Cast(GpuCast { to: op.operating_dt->0 });
    assert(named(s0.steps, name, 0));
    let s1 = if accumulates(op, a.datum_type) {
        s0.through_a(name + ".cast_acc_0"@, up)
    } else {
        s0
    };
    if accumulates(op, a.datum_type) {
        lemma_named_push(s0.steps, s1.steps.last(), name, 0, 0);
        assert(s1.steps =~= s0.steps.push(s1.steps.last()));
    } else {
        lemma_named_weaken(s0.steps, name, 0, 1);
    }
    let s2 = s0.cast_up(name, op, a, b);
    if accumulates(op, b.datum_type) {
        assert(s2.steps =~= s1.steps.push(s2.steps.last()));
        lemma_named_push(s1.steps, s2.steps.last(), name, 1, 1);
    } else {
        lemma_named_weaken(s1.steps, name, 1, 2);
    }
    let s3 = s2.cast_mixed(name, kind, a2, b2);
    if mixed(kind, a2, b2) {
        assert(s3.steps =~= s2.steps.push(s3.steps.last()));
        lemma_named_push(s2.steps, s3.steps.last(), name, 2, 2);
    } else {
        lemma_named_weaken(s2.steps, name, 2, 3);
    }
    let ggml = kind == MetalGemmImplKind::Ggml;
    let s4 = if ggml && op.transpose_a {
        s3.through_a(name + ".perm_a"@, exchange(a2.rank()))
    } else {
        s3
    };
    if ggml && op.transpose_a {
        assert(s4.steps =~= s3.steps.push(s4.steps.last()));
        lemma_named_push(s3.steps, s4.steps.last(), name, 3, 3);
    } else {
        lemma_named_weaken(s3.steps, name, 3, 4);
    }
    let s5 = s3.permute(name, op, kind, a2, b2);
    if ggml && !op.transpose_b {
        assert(s5.steps =~= s4.steps.push(s5.steps.last()));
        lemma_named_push(s4.steps, s5.steps.last(), name, 4, 4);
    } else {
        lemma_named_weaken(s4.steps, name, 4, 5);
    }
    let plan = matmul_plan(name, op, kind, a, b, swapped);
    assert(plan.steps =~= s5.steps.push(plan.steps.last()));
    assert(name + suffixes()[5] =~= name);
    lemma_named_push(s5.steps, plan.steps.last(), name, 5, 5);
    let permuted = output_permuted(plan, out_rank);
    if swapped {
        assert(permuted.steps =~= plan.steps.push(permuted.steps.last()));
        lemma_named_push(plan.steps, permuted.steps.last(), name, 6, 6);
    } else {
        lemma_named_weaken(plan.steps, name, 6, 7);
    }
    let done = output_cast(permuted, out_dt, expected_dt);
    if out_dt != expected_dt {
        assert(done.steps =~= permuted.steps.push(done.steps.last()));
        lemma_named_push(permuted.steps, done.steps.last(), name, 7, 7);
    }
}

/// The GGML kernel gets its inputs in an order that it takes, if there is one, and the other way
/// round only if it has to; the other kernels get them in the order of the operator.
pub proof fn law_order_is_one_the_kernel_takes(
    kind: MetalGemmImplKind,
    ggml: bool,
    ggml_swapped: bool,
)
    ensures
        kind == MetalGemmImplKind::Ggml && (ggml || ggml_swapped) ==> (if swaps(
            kind,
            ggml,
            ggml_swapped,
        ) {
            ggml_swapped
        } else {
            ggml
        }),
        ggml ==> !swaps(kind, ggml, ggml_swapped),
        kind != MetalGemmImplKind::Ggml ==> !swaps(kind, ggml, ggml_swapped),
        !ggml && !ggml_swapped ==> !swaps(kind, ggml, ggml_swapped),
{
}

/// Why a product cannot be lowered, if it cannot: an input is narrower than the type to
/// accumulate in and there is no cast to that; or else MLX or MFA would get two element types of
/// which neither is half precision; or else GGML would have to turn an input in `Q4_0` blocks.
pub proof fn law_products_that_cannot_be_lowered(
    op: PrefixMatMul,
    casts: CastKernel,
    kind: MetalGemmImplKind,
    fa: TypedFactView,
    fb: TypedFactView,
)
    ensures
        ({
            let (half, single, double) = (DatumType::F16, DatumType::F32, DatumType::F64);
            let wider = |dt: DatumType, acc: DatumType|
                (dt == half && (acc == single || acc == double)) || (dt == single && acc == double);
            let narrow = |dt: DatumType|
                match op.operating_dt {
                    Some(acc) => wider(dt, acc),
                    None => false,
                };
            let (a, b) = (fa.datum_type, fb.datum_type);
            let up = |dt: DatumType| if narrow(dt) { op.operating_dt->0 } else { dt };
            let packed = |f: TypedFactView|
                f.device is None && (f.exotic matches ExoticFactView::BlockQuant { format, .. }
                    && format == BlockQuantFormat::Q4_0);
            let ggml = kind == MetalGemmImplKind::Ggml;
            let uncast = (narrow(a) || narrow(b)) && !casts.supported@.contains(op.operating_dt->0);
            let unmixed = !ggml && up(a) != up(b) && up(a) != half && up(b) != half;
            let turned = ggml && ((op.transpose_a && packed(fa)) || (!op.transpose_b && packed(fb)));
            let error = matmul_error(op, casts, kind, fa, fb);
            &&& error is None == (!uncast && !unmixed && !turned)
            &&& uncast ==> error == Some(MatmulError::NoMetalCast(op.operating_dt->0))
            &&& !uncast && unmixed ==> error == Some(MatmulError::NeitherIsHalf)
            &&& !uncast && turned ==> error == Some(MatmulError::TransposedQ40)
        }),
{
    law_wider_types(fa.datum_type, op.operating_dt->0);
    law_wider_types(fb.datum_type, op.operating_dt->0);
}

/// A product can be looked at unless the sizes of the batches matter and cannot be told, or
/// single precision is needed for mixed types and there is no cast to it, or an input that GGML
/// has turned has fewer than two axes. One that fails for want of a cast up is looked at too.
pub proof fn law_products_that_can_be_looked_at(
    op: PrefixMatMul,
    casts: CastKernel,
    gemm_impl: Option<MetalGemmImplKind>,
    table: DimTableView,
    a: TypedFactView,
    b: TypedFactView,
)
    requires
        gemm_impl is Some || batches_known(table, accumulated(op, a), accumulated(op, b)),
        casts.supported@.contains(DatumType::F32),
        a.shape.len() >= 2,
        b.shape.len() >= 2,
    ensures
        plannable(op, casts, gemm_impl, table, a, b),
{
}

/// The GGML kernel is asked about the inputs in both orders, with the shapes and packings that
/// they have, and gets them the other way round exactly if it is the kernel and takes them in
/// that order only.
pub proof fn law_planned_asks_both_orders<GgmlSupports>(
    name: Seq<char>,
    op: PrefixMatMul,
    casts: CastKernel,
    gemm_impl: Option<MetalGemmImplKind>,
    table: DimTableView,
    a: TypedFactView,
    b: TypedFactView,
    ggml_supports: GgmlSupports,
    r: Result<MatmulPlan, MatmulError>,
) where GgmlSupports: Fn(&TypedFact, &TypedFact) -> bool
    requires
        planned(name, op, casts, gemm_impl, table, a, b, ggml_supports, r),
    ensures
        r matches Ok(plan) ==> exists|x: TypedFact, y: TypedFact, ggml: bool, ggml_swapped: bool|
            {
                &&& #[trigger] call_ensures(ggml_supports, (&x, &y), ggml)
                &&& #[trigger] call_ensures(ggml_supports, (&y, &x), ggml_swapped)
                &&& x@.shape == a.shape && y@.shape == b.shape
                &&& x@.exotic == a.exotic && y@.exotic == b.exotic
                &&& plan@.steps.last().op matches StepOp::Gemm { kind, .. } && plan.swapped == (kind
                    == MetalGemmImplKind::Ggml && !ggml && ggml_swapped)
            },
{
    if r is Ok {
        let plan = r->Ok_0;
        let (x, y, ggml, ggml_swapped) = choose|
            x: TypedFact,
            y: TypedFact,
            ggml: bool,
            ggml_swapped: bool,
        |
            {
                &&& x@ == accumulated(op, a)
                &&& y@ == accumulated(op, b)
                &&& #[trigger] call_ensures(ggml_supports, (&x, &y), ggml)
                &&& #[trigger] call_ensures(ggml_supports, (&y, &x), ggml_swapped)
                &&& ({
                    let kind = resolved_gemm(gemm_impl, table, x@, y@);
                    match matmul_error(op, casts, kind, a, b) {
                        Some(e) => r == Err::<MatmulPlan, MatmulError>(e),
                        None => r matches Ok(plan) && plan@ == matmul_plan(
                            name,
                            op,
                            kind,
                            a,
                            b,
                            swaps(kind, ggml, ggml_swapped),
                        ),
                    }
                })
            };
        assert(call_ensures(ggml_supports, (&x, &y), ggml));
        assert(call_ensures(ggml_supports, (&y, &x), ggml_swapped));
        assert(plan@.swapped == plan.swapped);
    }
}

/// What the steps are called and what they do.
pub open spec fn labels(steps: Seq<WireStepView>) -> Seq<(Seq<char>, StepOp)> {
    steps.map_values(|s: WireStepView| (s.name, s.op))
}

/// A step, where it is there.
pub open spec fn perhaps(present: bool, name: Seq<char>, op: StepOp) -> Seq<(Seq<char>, StepOp)> {
    if present {
        seq![(name, op)]
    } else {
        Seq::empty()
    }
}

/// One more step has one more label.
proof fn lemma_label_of_step(steps: Seq<WireStepView>, step: WireStepView)
    ensures
        labels(steps.push(step)) == labels(steps) + perhaps(true, step.name, step.op),
        labels(steps) == labels(steps) + perhaps(false, step.name, step.op),
{
    assert(labels(steps.push(step)) =~= labels(steps) + perhaps(true, step.name, step.op));
    assert(labels(steps) =~= labels(steps) + perhaps(false, step.name, step.op));
}

/// The labels of the casts up.
proof fn lemma_labels_up(
    w: Wiring,
    name: Seq<char>,
    op: PrefixMatMul,
    a: TypedFactView,
    b: TypedFactView,
)
    ensures
        ({
            let cast = StepOp::Cast(GpuCast { to: op.operating_dt->0 });
            labels(w.cast_up(name, op, a, b).steps) == labels(w.steps) + perhaps(
                accumulates(op, a.datum_type),
                name + ".cast_acc_0"@,
                cast,
            ) + perhaps(accumulates(op, b.datum_type), name + ".cast_acc_1"@, cast)
        }),
{
    let cast = StepOp::Cast(GpuCast { to: op.operating_dt->0 });
    let first = WireStepView { name: name + ".cast_acc_0"@, op: cast, inputs: seq![w.a] };
    lemma_label_of_step(w.steps, first);
    let v = if accumulates(op, a.datum_type) {
        w.through_a(name + ".cast_acc_0"@, cast)
    } else {
        w
    };
    let second = WireStepView { name: name + ".cast_acc_1"@, op: cast, inputs: seq![v.b] };
    lemma_label_of_step(v.steps, second);
}

/// The label of the cast of a mixed type.
proof fn lemma_labels_mixed(
    w: Wiring,
    name: Seq<char>,
    kind: MetalGemmImplKind,
    a: TypedFactView,
    b: TypedFactView,
)
    ensures
        labels(w.cast_mixed(name, kind, a, b).steps) == labels(w.steps) + perhaps(
            mixed(kind, a, b),
            name + ".cast_input"@,
            StepOp::Cast(GpuCast { to: DatumType::F32 }),
        ),
{
    let cast = StepOp::Cast(GpuCast { to: DatumType::F32 });
    let n = name + ".cast_input"@;
    lemma_label_of_step(w.steps, WireStepView { name: n, op: cast, inputs: seq![w.a] });
    lemma_label_of_step(w.steps, WireStepView { name: n, op: cast, inputs: seq![w.b] });
}

/// The labels of the axes that are exchanged.
proof fn lemma_labels_turned(
    w: Wiring,
    name: Seq<char>,
    op: PrefixMatMul,
    kind: MetalGemmImplKind,
    a: TypedFactView,
    b: TypedFactView,
)
    ensures
        ({
            let ggml = kind == MetalGemmImplKind::Ggml;
            labels(w.permute(name, op, kind, a, b).steps) == labels(w.steps) + perhaps(
                ggml && op.transpose_a,
                name + ".perm_a"@,
                exchange(a.rank()),
            ) + perhaps(ggml && !op.transpose_b, name + ".perm_b"@, exchange(b.rank()))
        }),
{
    let ggml = kind == MetalGemmImplKind::Ggml;
    let (x, y) = (exchange(a.rank()), exchange(b.rank()));
    lemma_label_of_step(
        w.steps,
        WireStepView { name: name + ".perm_a"@, op: x, inputs: seq![w.a] },
    );
    let v = if ggml && op.transpose_a {
        w.through_a(name + ".perm_a"@, x)
    } else {
        w
    };
    lemma_label_of_step(
        v.steps,
        WireStepView { name: name + ".perm_b"@, op: y, inputs: seq![v.b] },
    );
}

/// The labels of a plan are those of its parts.
proof fn lemma_labels_of_plan(
    name: Seq<char>,
    op: PrefixMatMul,
    kind: MetalGemmImplKind,
    fa: TypedFactView,
    fb: TypedFactView,
    swapped: bool,
)
    ensures
        ({
            let (a, b) = (accumulated(op, fa), accumulated(op, fb));
            let ggml = kind == MetalGemmImplKind::Ggml;
            let cast = StepOp::Cast(GpuCast { to: op.operating_dt->0 });
            labels(matmul_plan(name, op, kind, fa, fb, swapped).steps) == perhaps(
                accumulates(op, fa.datum_type),
                name + ".cast_acc_0"@,
                cast,
            ) + perhaps(accumulates(op, fb.datum_type), name + ".cast_acc_1"@, cast) + perhaps(
                mixed(kind, a, b),
                name + ".cast_input"@,
                StepOp::Cast(GpuCast { to: DatumType::F32 }),
            ) + perhaps(ggml && op.transpose_a, name + ".perm_a"@, exchange(a.rank())) + perhaps(
                ggml && !op.transpose_b,
                name + ".perm_b"@,
                exchange(b.rank()),
            ) + perhaps(true, name, gemm_op(op, kind))
        }),
{
    let (a, b) = (accumulated(op, fa), accumulated(op, fb));
    let s0 = Wiring::start();
    let s1 = s0.cast_up(name, op, fa, fb);
    let s2 = s1.cast_mixed(name, kind, a, b);
    let s3 = s2.permute(name, op, kind, a, b);
    lemma_labels_up(s0, name, op, fa, fb);
    lemma_labels_mixed(s1, name, kind, a, b);
    lemma_labels_turned(s2, name, op, kind, a, b);
    let steps = s3.gemm(name, op, kind, swapped);
    assert(steps.drop_last() =~= s3.steps);
    assert(steps =~= s3.steps.push(steps.last()));
    lemma_label_of_step(s3.steps, steps.last());
    let cast = StepOp::Cast(GpuCast { to: op.operating_dt->0 });
    assert(labels(s0.steps) + perhaps(
        accumulates(op, fa.datum_type),
        name + ".cast_acc_0"@,
        cast,
    ) =~= perhaps(accumulates(op, fa.datum_type), name + ".cast_acc_0"@, cast));
}

/// The names and operators of the nodes that a product is lowered to, in order: the casts up, the
/// cast of a mixed type, the axes that are exchanged, the kernel, and what stands behind it.
pub proof fn law_steps_in_order(
    name: Seq<char>,
    op: PrefixMatMul,
    kind: MetalGemmImplKind,
    fa: TypedFactView,
    fb: TypedFactView,
    swapped: bool,
    out_rank: nat,
    out_dt: DatumType,
    expected_dt: DatumType,
)
    ensures
        ({
            let (half, single, double) = (DatumType::F16, DatumType::F32, DatumType::F64);
            let (a, b) = (fa.datum_type, fb.datum_type);
            let acc = op.operating_dt->0;
            let narrow = |dt: DatumType|
                op.operating_dt is Some && ((dt == half && (acc == single || acc == double)) || (dt
                    == single && acc == double));
            let up = |dt: DatumType| if narrow(dt) { acc } else { dt };
            let ggml = kind == MetalGemmImplKind::Ggml;
            let cast = |to: DatumType| StepOp::Cast(GpuCast { to });
            let turn = |rank: nat|
                StepOp::MoveAxis { from: (rank - 2) as usize, to: (rank - 1) as usize };
            let gemm = StepOp::Gemm {
                kind,
                transpose_a: !ggml && op.transpose_a,
                transpose_b: ggml || op.transpose_b,
            };
            let done = output_cast(
                output_permuted(matmul_plan(name, op, kind, fa, fb, swapped), out_rank),
                out_dt,
                expected_dt,
            );
            labels(done.steps) == perhaps(narrow(a), name + ".cast_acc_0"@, cast(acc)) + perhaps(
                narrow(b),
                name + ".cast_acc_1"@,
                cast(acc),
            ) + perhaps(!ggml && up(a) != up(b), name + ".cast_input"@, cast(single)) + perhaps(
                ggml && op.transpose_a,
                name + ".perm_a"@,
                turn(fa.shape.len()),
            ) + perhaps(ggml && !op.transpose_b, name + ".perm_b"@, turn(fb.shape.len()))
                + perhaps(true, name, gemm) + perhaps(
                swapped,
                name + ".perm_out"@,
                turn(out_rank),
            ) + perhaps(out_dt != expected_dt, name + ".out_cast"@, cast(expected_dt))
        }),
{
    law_wider_types(fa.datum_type, op.operating_dt->0);
    law_wider_types(fb.datum_type, op.operating_dt->0);
    lemma_labels_of_plan(name, op, kind, fa, fb, swapped);
    let plan = matmul_plan(name, op, kind, fa, fb, swapped);
    let permuted = after_last(plan, ".perm_out"@, exchange(out_rank));
    assert(permuted.steps =~= plan.steps.push(permuted.steps.last()));
    lemma_label_of_step(plan.steps, permuted.steps.last());
    let turned = output_permuted(plan, out_rank);
    let cast = after_last(turned, ".out_cast"@, StepOp::Cast(GpuCast { to: expected_dt }));
    assert(cast.steps =~= turned.steps.push(cast.steps.last()));
    lemma_label_of_step(turned.steps, cast.steps.last());
}

/// An input that is narrower than the type to accumulate in has that type once it is cast up; any
/// other keeps its own; and nothing else about either changes.
pub proof fn law_facts_once_cast_up(op: PrefixMatMul, fact: TypedFactView)
    ensures
        ({
            let (half, single, double) = (DatumType::F16, DatumType::F32, DatumType::F64);
            let (dt, acc) = (fact.datum_type, op.operating_dt->0);
            let narrow = op.operating_dt is Some && ((dt == half && (acc == single || acc
                == double)) || (dt == single && acc == double));
            let up = accumulated(op, fact);
            &&& narrow ==> up.datum_type == acc
            &&& !narrow ==> up.datum_type == dt
            &&& up.shape == fact.shape
            &&& up.exotic == fact.exotic
            &&& up.device == fact.device
        }),
{
    law_wider_types(fact.datum_type, op.operating_dt->0);
}

/// A product can be looked at exactly if it fails for want of a cast up; or the kernel is asked
/// for, or told by packed or mixed inputs, or the sizes of the batches can be told, and what the
/// kernel needs is there unless the product fails: a cast to single precision for mixed types,
/// and two axes of each input that GGML has turned.
pub proof fn law_products_looked_at_exactly(
    op: PrefixMatMul,
    casts: CastKernel,
    gemm_impl: Option<MetalGemmImplKind>,
    table: DimTableView,
    fa: TypedFactView,
    fb: TypedFactView,
)
    ensures
        ({
            let (a, b) = (accumulated(op, fa), accumulated(op, fb));
            let packed = |f: TypedFactView|
                f.device is None && (f.exotic matches ExoticFactView::BlockQuant { format, .. }
                    && format == BlockQuantFormat::Q4_0);
            let kind = match gemm_impl {
                Some(asked) => asked,
                None => resolved_gemm(None, table, a, b),
            };
            let uncast = matmul_error(op, casts, kind, fa, fb) matches Some(e) && e
                == MatmulError::NoMetalCast(op.operating_dt->0);
            let told = gemm_impl is Some || packed(fa) || packed(fb) || a.datum_type != b.datum_type
                || batches_known(table, a, b);
            let served = if kind == MetalGemmImplKind::Ggml {
                (op.transpose_a ==> fa.shape.len() >= 2) && (!op.transpose_b ==> fb.shape.len()
                    >= 2)
            } else {
                a.datum_type != b.datum_type ==> casts.supported@.contains(DatumType::F32)
            };
            plannable(op, casts, gemm_impl, table, fa, fb) == (uncast || (told && (matmul_error(
                op,
                casts,
                kind,
                fa,
                fb,
            ) is Some || served)))
        }),
{
}

/// What comes of a product: the kernel is chosen for the inputs as they are once cast up; with
/// that kernel the product fails or becomes its plan; and the inputs are handed over the other
/// way round only as the answers of the GGML kernel on those inputs say.
pub proof fn law_planned_is_the_plan<GgmlSupports>(
    name: Seq<char>,
    op: PrefixMatMul,
    casts: CastKernel,
    gemm_impl: Option<MetalGemmImplKind>,
    table: DimTableView,
    a: TypedFactView,
    b: TypedFactView,
    ggml_supports: GgmlSupports,
    r: Result<MatmulPlan, MatmulError>,
) where GgmlSupports: Fn(&TypedFact, &TypedFact) -> bool
    requires
        planned(name, op, casts, gemm_impl, table, a, b, ggml_supports, r),
    ensures
        exists|x: TypedFact, y: TypedFact, ggml: bool, ggml_swapped: bool|
            {
                &&& #[trigger] call_ensures(ggml_supports, (&x, &y), ggml)
                &&& #[trigger] call_ensures(ggml_supports, (&y, &x), ggml_swapped)
                &&& x@ == accumulated(op, a) && y@ == accumulated(op, b)
                &&& ({
                    let kind = match gemm_impl {
                        Some(asked) => asked,
                        None => resolved_gemm(None, table, accumulated(op, a), accumulated(op, b)),
                    };
                    let swapped = kind == MetalGemmImplKind::Ggml && !ggml && ggml_swapped;
                    match matmul_error(op, casts, kind, a, b) {
                        Some(e) => r == Err::<MatmulPlan, MatmulError>(e),
                        None => r matches Ok(plan) && plan@ == matmul_plan(
                            name,
                            op,
                            kind,
                            a,
                            b,
                            swapped,
                        ),
                    }
                })
            },
{
}

} // verus!
