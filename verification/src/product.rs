//! What a lowered matrix product computes.
//!
//! Every matrix of a batch is lowered alike, so one is looked at. Casts change the precision
//! of numbers and nothing else, so they are taken to change nothing.

use crate::cast::GpuCast;
use crate::datum::{law_wider_types, DatumType};
use crate::fact::TypedFactView;
use crate::gemm::MetalGemmImplKind;
use crate::matmul::{
    accumulated, accumulates, after_last, exchange, gemm_op, matmul_plan, mixed, output_cast,
    output_permuted, MatmulPlanView, StepOp, Wire, WireStepView, Wiring,
};
use crate::model::PrefixMatMul;
use vstd::prelude::*;

verus! {

/// The entries of a matrix, by row and column.
pub type Entries = spec_fn(int, int) -> int;

/// The matrix with rows and columns exchanged, if told so.
pub open spec fn turned(m: Entries, turn: bool) -> Entries {
    if turn {
        |i: int, j: int| m(j, i)
    } else {
        m
    }
}

/// The sum of the products of row `i` of `x` and column `j` of `y`, over the first `depth`
/// places.
pub open spec fn dot(x: Entries, y: Entries, i: int, j: int, depth: nat) -> int
    decreases depth,
{
    if depth == 0 {
        0
    } else {
        dot(x, y, i, j, (depth - 1) as nat) + x(i, depth - 1) * y(depth - 1, j)
    }
}

/// The matrix product.
pub open spec fn product(x: Entries, y: Entries, depth: nat) -> Entries {
    |i: int, j: int| dot(x, y, i, j, depth)
}

/// What the operator computes of its two inputs, which share `depth` columns and rows.
pub open spec fn matmul(op: PrefixMatMul, a: Entries, b: Entries, depth: nat) -> Entries {
    turned(
        product(turned(a, op.transpose_a), turned(b, op.transpose_b), depth),
        op.transpose_c,
    )
}

/// What a wire carries, given the inputs and what the steps put out.
pub open spec fn carried(w: Wire, a: Entries, b: Entries, outputs: Seq<Entries>) -> Entries {
    match w {
        Wire::Input(i) => if i == 0 {
            a
        } else {
            b
        },
        Wire::Step(i) => outputs[i as int],
    }
}

/// What the operator of a step puts out for what it reads. The axes that steps move are the
/// last two, as [`law_moved_axes_are_the_last_two`] says, so they are exchanged.
pub open spec fn put_out(op: StepOp, read: Seq<Entries>, depth: nat) -> Entries {
    match op {
        StepOp::Cast(_) => read[0],
        StepOp::MoveAxis { .. } => turned(read[0], true),
        StepOp::Gemm { kind: _, transpose_a, transpose_b } => product(
            turned(read[0], transpose_a),
            turned(read[1], transpose_b),
            depth,
        ),
    }
}

/// What the steps put out, one after the other.
pub open spec fn outputs(steps: Seq<WireStepView>, a: Entries, b: Entries, depth: nat) -> Seq<
    Entries,
>
    decreases steps.len(),
{
    if steps.len() == 0 {
        Seq::empty()
    } else {
        let earlier = outputs(steps.drop_last(), a, b, depth);
        earlier.push(
            put_out(
                steps.last().op,
                steps.last().inputs.map_values(|w: Wire| carried(w, a, b, earlier)),
                depth,
            ),
        )
    }
}

/// The steps put out as many matrices as they are, and one more step adds one.
proof fn lemma_push(
    steps: Seq<WireStepView>,
    step: WireStepView,
    a: Entries,
    b: Entries,
    depth: nat,
)
    ensures
        outputs(steps, a, b, depth).len() == steps.len(),
        outputs(steps.push(step), a, b, depth) == outputs(steps, a, b, depth).push(
            put_out(
                step.op,
                step.inputs.map_values(|w: Wire| carried(w, a, b, outputs(steps, a, b, depth))),
                depth,
            ),
        ),
    decreases steps.len(),
{
    assert(steps.push(step).drop_last() =~= steps);
    if steps.len() > 0 {
        lemma_push(steps.drop_last(), steps.last(), a, b, depth);
        assert(steps.drop_last().push(steps.last()) =~= steps);
    }
}

/// The wire is an input or a step that is there.
spec fn connected(w: Wire, n: nat) -> bool {
    match w {
        Wire::Input(i) => i < 2,
        Wire::Step(i) => i < n,
    }
}

/// The wiring hands on `x` for the first input and `y` for the second.
spec fn hands_on(
    s: Wiring,
    a: Entries,
    b: Entries,
    depth: nat,
    x: Entries,
    y: Entries,
) -> bool {
    let outs = outputs(s.steps, a, b, depth);
    &&& s.steps.len() < 100
    &&& connected(s.a, s.steps.len())
    &&& connected(s.b, s.steps.len())
    &&& carried(s.a, a, b, outs) == x
    &&& carried(s.b, a, b, outs) == y
}

/// One more step on the way of the first input changes what stands for it, and the second
/// stays.
proof fn lemma_through_a(
    s: Wiring,
    name: Seq<char>,
    op: StepOp,
    a: Entries,
    b: Entries,
    depth: nat,
    x: Entries,
    y: Entries,
)
    requires
        hands_on(s, a, b, depth, x, y),
        s.steps.len() < 99,
        !(op is Gemm),
    ensures
        hands_on(
            s.through_a(name, op),
            a,
            b,
            depth,
            put_out(op, seq![x], depth),
            y,
        ),
        s.through_a(name, op).steps.len() == s.steps.len() + 1,
{
    let step = WireStepView { name, op, inputs: seq![s.a] };
    lemma_push(s.steps, step, a, b, depth);
    let read = step.inputs.map_values(|w: Wire| carried(w, a, b, outputs(s.steps, a, b, depth)));
    assert(read =~= seq![x]);
}

/// One more step on the way of the second input changes what stands for it, and the first
/// stays.
proof fn lemma_through_b(
    s: Wiring,
    name: Seq<char>,
    op: StepOp,
    a: Entries,
    b: Entries,
    depth: nat,
    x: Entries,
    y: Entries,
)
    requires
        hands_on(s, a, b, depth, x, y),
        s.steps.len() < 99,
        !(op is Gemm),
    ensures
        hands_on(
            s.through_b(name, op),
            a,
            b,
            depth,
            x,
            put_out(op, seq![y], depth),
        ),
        s.through_b(name, op).steps.len() == s.steps.len() + 1,
{
    let step = WireStepView { name, op, inputs: seq![s.b] };
    lemma_push(s.steps, step, a, b, depth);
    let read = step.inputs.map_values(|w: Wire| carried(w, a, b, outputs(s.steps, a, b, depth)));
    assert(read =~= seq![y]);
}

/// The product of two matrices, each turned, the other way round is the product turned.
proof fn lemma_turned_product(x: Entries, y: Entries, depth: nat)
    ensures
        turned(product(turned(y, true), turned(x, true), depth), true) == product(x, y, depth),
{
    let left = turned(product(turned(y, true), turned(x, true), depth), true);
    let right = product(x, y, depth);
    assert forall|i: int, j: int|
        dot(turned(y, true), turned(x, true), j, i, depth) == #[trigger] dot(x, y, i, j, depth) by {
        lemma_turned_dot(x, y, i, j, depth);
    }
    assert(left =~= right);
}

/// An entry of the product of two matrices is one of the product of the two turned, the
/// other way round.
proof fn lemma_turned_dot(x: Entries, y: Entries, i: int, j: int, depth: nat)
    ensures
        dot(turned(y, true), turned(x, true), j, i, depth) == dot(x, y, i, j, depth),
    decreases depth,
{
    if depth > 0 {
        lemma_turned_dot(x, y, i, j, (depth - 1) as nat);
        let (p, q) = (x(i, depth - 1), y(depth - 1, j));
        assert(p * q == q * p) by (nonlinear_arith);
    }
}

/// Turning a matrix twice gives it back.
proof fn lemma_turned_twice(m: Entries)
    ensures
        turned(turned(m, true), true) == m,
{
    assert(turned(turned(m, true), true) =~= m);
}

/// What the last step of a plan puts out.
pub open spec fn plan_output(plan: MatmulPlanView, a: Entries, b: Entries, depth: nat) -> Entries {
    outputs(plan.steps, a, b, depth).last()
}

/// A step after the last one reads what the plan put out.
proof fn lemma_after_last(
    plan: MatmulPlanView,
    suffix: Seq<char>,
    op: StepOp,
    a: Entries,
    b: Entries,
    depth: nat,
)
    requires
        0 < plan.steps.len() < 100,
        !(op is Gemm),
    ensures
        plan_output(after_last(plan, suffix, op), a, b, depth) == put_out(
            op,
            seq![plan_output(plan, a, b, depth)],
            depth,
        ),
        after_last(plan, suffix, op).steps.len() == plan.steps.len() + 1,
{
    let step = WireStepView {
        name: plan.name + suffix,
        op,
        inputs: seq![Wire::Step((plan.steps.len() - 1) as usize)],
    };
    lemma_push(plan.steps, step, a, b, depth);
    let outs = outputs(plan.steps, a, b, depth);
    let read = step.inputs.map_values(|w: Wire| carried(w, a, b, outs));
    assert(read =~= seq![outs.last()]);
}

/// The wiring before the kernel hands on the inputs as the kernel has to read them.
proof fn lemma_wiring(
    name: Seq<char>,
    op: PrefixMatMul,
    kind: MetalGemmImplKind,
    fa: TypedFactView,
    fb: TypedFactView,
    a: Entries,
    b: Entries,
    depth: nat,
) -> (s: Wiring)
    ensures
        s == Wiring::start().cast_up(name, op, fa, fb).cast_mixed(
            name,
            kind,
            accumulated(op, fa),
            accumulated(op, fb),
        ).permute(name, op, kind, accumulated(op, fa), accumulated(op, fb)),
        s.steps.len() <= 5,
        hands_on(
            s,
            a,
            b,
            depth,
            turned(a, kind == MetalGemmImplKind::Ggml && op.transpose_a),
            turned(b, kind == MetalGemmImplKind::Ggml && !op.transpose_b),
        ),
{
    let (fa2, fb2) = (accumulated(op, fa), accumulated(op, fb));
    let s0 = Wiring::start();
    assert(hands_on(s0, a, b, depth, a, b));
    let up = StepOp::Cast(GpuCast { to: op.operating_dt->0 });
    if accumulates(op, fa.datum_type) {
        lemma_through_a(s0, name + ".cast_acc_0"@, up, a, b, depth, a, b);
    }
    let s1 = if accumulates(op, fa.datum_type) {
        s0.through_a(name + ".cast_acc_0"@, up)
    } else {
        s0
    };
    if accumulates(op, fb.datum_type) {
        lemma_through_b(s1, name + ".cast_acc_1"@, up, a, b, depth, a, b);
    }
    let s2 = s0.cast_up(name, op, fa, fb);
    assert(hands_on(s2, a, b, depth, a, b) && s2.steps.len() <= 2);
    let single = StepOp::Cast(GpuCast { to: DatumType::F32 });
    if mixed(kind, fa2, fb2) {
        lemma_through_a(s2, name + ".cast_input"@, single, a, b, depth, a, b);
        lemma_through_b(s2, name + ".cast_input"@, single, a, b, depth, a, b);
    }
    let s3 = s2.cast_mixed(name, kind, fa2, fb2);
    assert(hands_on(s3, a, b, depth, a, b) && s3.steps.len() <= 3);
    if kind == MetalGemmImplKind::Ggml {
        let s4 = if op.transpose_a {
            s3.through_a(name + ".perm_a"@, exchange(fa2.rank()))
        } else {
            s3
        };
        let x = turned(a, op.transpose_a);
        if op.transpose_a {
            lemma_through_a(s3, name + ".perm_a"@, exchange(fa2.rank()), a, b, depth, a, b);
        }
        if !op.transpose_b {
            lemma_through_b(s4, name + ".perm_b"@, exchange(fb2.rank()), a, b, depth, x, b);
        }
    }
    s3.permute(name, op, kind, fa2, fb2)
}

/// Whichever kernel takes a product, whichever casts and permutations stand around it, and
/// whichever way round it gets its inputs, what comes out is what the operator computes.
pub proof fn law_plan_computes_the_product(
    name: Seq<char>,
    op: PrefixMatMul,
    kind: MetalGemmImplKind,
    fa: TypedFactView,
    fb: TypedFactView,
    swapped: bool,
    out_rank: nat,
    out_dt: DatumType,
    expected_dt: DatumType,
    a: Entries,
    b: Entries,
    depth: nat,
)
    requires
        !op.transpose_c,
        swapped ==> kind == MetalGemmImplKind::Ggml,
    ensures
        plan_output(
            output_cast(
                output_permuted(matmul_plan(name, op, kind, fa, fb, swapped), out_rank),
                out_dt,
                expected_dt,
            ),
            a,
            b,
            depth,
        ) == matmul(op, a, b, depth),
{
    let s = lemma_wiring(name, op, kind, fa, fb, a, b, depth);
    let plan = matmul_plan(name, op, kind, fa, fb, swapped);
    let ggml = kind == MetalGemmImplKind::Ggml;
    let x = turned(a, ggml && op.transpose_a);
    let y = turned(b, ggml && !op.transpose_b);
    let step = WireStepView {
        name,
        op: gemm_op(op, kind),
        inputs: if swapped {
            seq![s.b, s.a]
        } else {
            seq![s.a, s.b]
        },
    };
    assert(plan.steps == s.steps.push(step));
    lemma_push(s.steps, step, a, b, depth);
    let read = step.inputs.map_values(|w: Wire| carried(w, a, b, outputs(s.steps, a, b, depth)));
    assert(read =~= if swapped {
        seq![y, x]
    } else {
        seq![x, y]
    });
    let c = matmul(op, a, b, depth);
    let left = turned(a, op.transpose_a);
    let right = turned(b, op.transpose_b);
    lemma_turned_twice(b);
    if ggml {
        assert(x == left);
        assert(turned(y, true) == right && y == turned(right, true)) by {
            lemma_turned_twice(right);
        }
    }
    let out = plan_output(plan, a, b, depth);
    assert(out == put_out(gemm_op(op, kind), read, depth));
    if swapped {
        assert(out == product(turned(right, true), turned(left, true), depth));
        lemma_turned_product(left, right, depth);
        assert(turned(out, true) == c);
    } else {
        assert(out == c);
    }
    let permuted = output_permuted(plan, out_rank);
    if swapped {
        lemma_after_last(plan, ".perm_out"@, exchange(out_rank), a, b, depth);
    }
    assert(plan_output(permuted, a, b, depth) == c && permuted.steps.len() < 100);
    lemma_after_last(
        permuted,
        ".out_cast"@,
        StepOp::Cast(GpuCast { to: expected_dt }),
        a,
        b,
        depth,
    );
}

/// How many axes what a wire carries has, given the ranks of the inputs and of what the steps
/// put out.
pub open spec fn wire_rank(w: Wire, a: nat, b: nat, ranks: Seq<nat>) -> nat {
    match w {
        Wire::Input(i) => if i == 0 {
            a
        } else {
            b
        },
        Wire::Step(i) => ranks[i as int],
    }
}

/// The ranks of what the steps put out, one after the other, where the inputs have the ranks
/// `a` and `b` and the kernel puts out `out_rank` axes. A cast and a moved axis keep the rank.
pub open spec fn step_ranks(steps: Seq<WireStepView>, a: nat, b: nat, out_rank: nat) -> Seq<nat>
    decreases steps.len(),
{
    if steps.len() == 0 {
        Seq::empty()
    } else {
        let earlier = step_ranks(steps.drop_last(), a, b, out_rank);
        earlier.push(
            if steps.last().op is Gemm {
                out_rank
            } else {
                wire_rank(steps.last().inputs[0], a, b, earlier)
            },
        )
    }
}

/// If the step moves an axis, it moves the last but one of what it reads to the end.
pub open spec fn moves_last_two(step: WireStepView, a: nat, b: nat, ranks: Seq<nat>) -> bool {
    step.op matches StepOp::MoveAxis { from, to } ==> {
        let rank = wire_rank(step.inputs[0], a, b, ranks);
        step.inputs.len() == 1 && from == rank - 2 && to == rank - 1
    }
}

/// Every step but the kernel reads one wire, which is an input or an earlier step, and moves
/// the last two axes if any.
spec fn in_order(steps: Seq<WireStepView>, a: nat, b: nat, out_rank: nat) -> bool {
    let ranks = step_ranks(steps, a, b, out_rank);
    &&& steps.len() < 100
    &&& ranks.len() == steps.len()
    &&& forall|i: int|
        0 <= i < steps.len() ==> connected((#[trigger] steps[i]).inputs[0], i as nat)
            && moves_last_two(steps[i], a, b, ranks)
}

/// The wiring is in order and hands on inputs of the ranks that they came with.
spec fn ranks_kept(s: Wiring, a: nat, b: nat, out_rank: nat) -> bool {
    let ranks = step_ranks(s.steps, a, b, out_rank);
    &&& in_order(s.steps, a, b, out_rank)
    &&& connected(s.a, s.steps.len())
    &&& connected(s.b, s.steps.len())
    &&& wire_rank(s.a, a, b, ranks) == a
    &&& wire_rank(s.b, a, b, ranks) == b
}

/// One more step keeps the steps in order, and puts out the rank that it reads if it is not
/// the kernel.
proof fn lemma_in_order_push(
    steps: Seq<WireStepView>,
    step: WireStepView,
    a: nat,
    b: nat,
    out_rank: nat,
)
    requires
        in_order(steps, a, b, out_rank),
        steps.len() < 99,
        connected(step.inputs[0], steps.len()),
        moves_last_two(step, a, b, step_ranks(steps, a, b, out_rank)),
    ensures
        in_order(steps.push(step), a, b, out_rank),
        step_ranks(steps.push(step), a, b, out_rank) == step_ranks(steps, a, b, out_rank).push(
            if step.op is Gemm {
                out_rank
            } else {
                wire_rank(step.inputs[0], a, b, step_ranks(steps, a, b, out_rank))
            },
        ),
{
    let all = steps.push(step);
    assert(all.drop_last() =~= steps);
    let (before, after) = (step_ranks(steps, a, b, out_rank), step_ranks(all, a, b, out_rank));
    assert forall|i: int| 0 <= i < all.len() implies connected(
        (#[trigger] all[i]).inputs[0],
        i as nat,
    ) && moves_last_two(all[i], a, b, after) by {
        if i < steps.len() {
            assert(all[i] == steps[i]);
        }
        assert(wire_rank(all[i].inputs[0], a, b, after) == wire_rank(
            all[i].inputs[0],
            a,
            b,
            before,
        ));
    }
}

/// A step on the way of an input keeps the ranks.
proof fn lemma_ranks_through(
    s: Wiring,
    name: Seq<char>,
    op: StepOp,
    a: nat,
    b: nat,
    out_rank: nat,
)
    requires
        ranks_kept(s, a, b, out_rank),
        s.steps.len() < 99,
        !(op is Gemm),
    ensures
        op is Cast || op == exchange(a) && 2 <= a <= usize::MAX ==> ranks_kept(
            s.through_a(name, op),
            a,
            b,
            out_rank,
        ),
        op is Cast || op == exchange(b) && 2 <= b <= usize::MAX ==> ranks_kept(
            s.through_b(name, op),
            a,
            b,
            out_rank,
        ),
{
    if op is Cast || op == exchange(a) && 2 <= a <= usize::MAX {
        let step = WireStepView { name, op, inputs: seq![s.a] };
        lemma_in_order_push(s.steps, step, a, b, out_rank);
    }
    if op is Cast || op == exchange(b) && 2 <= b <= usize::MAX {
        let step = WireStepView { name, op, inputs: seq![s.b] };
        lemma_in_order_push(s.steps, step, a, b, out_rank);
    }
}

/// Every step of a plan that moves an axis moves the last but one axis of what it reads to the
/// end: `from` and `to` are two and one below the rank of what it reads.
pub proof fn law_moved_axes_are_the_last_two(
    name: Seq<char>,
    op: PrefixMatMul,
    kind: MetalGemmImplKind,
    fa: TypedFactView,
    fb: TypedFactView,
    swapped: bool,
    out_rank: nat,
    out_dt: DatumType,
    expected_dt: DatumType,
)
    requires
        kind == MetalGemmImplKind::Ggml && op.transpose_a ==> 2 <= fa.rank() <= usize::MAX,
        kind == MetalGemmImplKind::Ggml && !op.transpose_b ==> 2 <= fb.rank() <= usize::MAX,
        swapped ==> 2 <= out_rank <= usize::MAX,
    ensures
        ({
            let steps = output_cast(
                output_permuted(matmul_plan(name, op, kind, fa, fb, swapped), out_rank),
                out_dt,
                expected_dt,
            ).steps;
            let ranks = step_ranks(steps, fa.rank(), fb.rank(), out_rank);
            forall|i: int|
                0 <= i < steps.len() ==> moves_last_two(
                    #[trigger] steps[i],
                    fa.rank(),
                    fb.rank(),
                    ranks,
                )
        }),
{
    let (a, b) = (fa.rank(), fb.rank());
    let (fa2, fb2) = (accumulated(op, fa), accumulated(op, fb));
    let s0 = Wiring::start();
    assert(ranks_kept(s0, a, b, out_rank));
    let up = StepOp::Cast(GpuCast { to: op.operating_dt->0 });
    lemma_ranks_through(s0, name + ".cast_acc_0"@, up, a, b, out_rank);
    let s1 = if accumulates(op, fa.datum_type) {
        s0.through_a(name + ".cast_acc_0"@, up)
    } else {
        s0
    };
    lemma_ranks_through(s1, name + ".cast_acc_1"@, up, a, b, out_rank);
    let s2 = s0.cast_up(name, op, fa, fb);
    let single = StepOp::Cast(GpuCast { to: DatumType::F32 });
    lemma_ranks_through(s2, name + ".cast_input"@, single, a, b, out_rank);
    let s3 = s2.cast_mixed(name, kind, fa2, fb2);
    assert(ranks_kept(s3, a, b, out_rank));
    lemma_ranks_through(s3, name + ".perm_a"@, exchange(a), a, b, out_rank);
    let s4 = if kind == MetalGemmImplKind::Ggml && op.transpose_a {
        s3.through_a(name + ".perm_a"@, exchange(a))
    } else {
        s3
    };
    lemma_ranks_through(s4, name + ".perm_b"@, exchange(b), a, b, out_rank);
    let s5 = s3.permute(name, op, kind, fa2, fb2);
    assert(ranks_kept(s5, a, b, out_rank));

    let plan = matmul_plan(name, op, kind, fa, fb, swapped);
    assert(plan.steps == s5.steps.push(plan.steps.last()));
    lemma_in_order_push(s5.steps, plan.steps.last(), a, b, out_rank);
    let permuted = output_permuted(plan, out_rank);
    if swapped {
        assert(permuted.steps == plan.steps.push(permuted.steps.last()));
        lemma_in_order_push(plan.steps, permuted.steps.last(), a, b, out_rank);
    }
    if out_dt != expected_dt {
        let done = output_cast(permuted, out_dt, expected_dt);
        assert(done.steps == permuted.steps.push(done.steps.last()));
        lemma_in_order_push(permuted.steps, done.steps.last(), a, b, out_rank);
    }
}

/// The element type of what a wire carries, given those of the inputs and of what the steps put
/// out.
pub open spec fn wire_type(w: Wire, a: DatumType, b: DatumType, types: Seq<DatumType>) -> DatumType {
    match w {
        Wire::Input(i) => if i == 0 {
            a
        } else {
            b
        },
        Wire::Step(i) => types[i as int],
    }
}

/// The element types of what the steps put out, one after the other: a cast puts out the type
/// that it casts to, a moved axis keeps the type, and the kernel puts out `out_type`.
pub open spec fn step_types(
    steps: Seq<WireStepView>,
    a: DatumType,
    b: DatumType,
    out_type: DatumType,
) -> Seq<DatumType>
    decreases steps.len(),
{
    if steps.len() == 0 {
        Seq::empty()
    } else {
        let earlier = step_types(steps.drop_last(), a, b, out_type);
        earlier.push(
            match steps.last().op {
                StepOp::Cast(cast) => cast.to,
                StepOp::MoveAxis { .. } => wire_type(steps.last().inputs[0], a, b, earlier),
                StepOp::Gemm { .. } => out_type,
            },
        )
    }
}

/// One more step puts out one more type, and changes none.
proof fn lemma_types_push(
    steps: Seq<WireStepView>,
    step: WireStepView,
    a: DatumType,
    b: DatumType,
    out_type: DatumType,
)
    ensures
        step_types(steps, a, b, out_type).len() == steps.len(),
        step_types(steps.push(step), a, b, out_type) == step_types(steps, a, b, out_type).push(
            match step.op {
                StepOp::Cast(cast) => cast.to,
                StepOp::MoveAxis { .. } => wire_type(
                    step.inputs[0],
                    a,
                    b,
                    step_types(steps, a, b, out_type),
                ),
                StepOp::Gemm { .. } => out_type,
            },
        ),
    decreases steps.len(),
{
    assert(steps.push(step).drop_last() =~= steps);
    if steps.len() > 0 {
        lemma_types_push(steps.drop_last(), steps.last(), a, b, out_type);
        assert(steps.drop_last().push(steps.last()) =~= steps);
    }
}

/// The wiring hands on elements of type `x` for the first input and of type `y` for the second.
spec fn hands_on_types(
    s: Wiring,
    a: DatumType,
    b: DatumType,
    out_type: DatumType,
    x: DatumType,
    y: DatumType,
) -> bool {
    let types = step_types(s.steps, a, b, out_type);
    &&& s.steps.len() < 100
    &&& types.len() == s.steps.len()
    &&& connected(s.a, s.steps.len())
    &&& connected(s.b, s.steps.len())
    &&& wire_type(s.a, a, b, types) == x
    &&& wire_type(s.b, a, b, types) == y
}

/// One more step on the way of an input hands on what the step puts out for it.
proof fn lemma_types_through(
    s: Wiring,
    name: Seq<char>,
    op: StepOp,
    a: DatumType,
    b: DatumType,
    out_type: DatumType,
    x: DatumType,
    y: DatumType,
)
    requires
        hands_on_types(s, a, b, out_type, x, y),
        s.steps.len() < 99,
    ensures
        op matches StepOp::Cast(cast) ==> hands_on_types(
            s.through_a(name, op),
            a,
            b,
            out_type,
            cast.to,
            y,
        ) && hands_on_types(s.through_b(name, op), a, b, out_type, x, cast.to),
        op is MoveAxis ==> hands_on_types(s.through_a(name, op), a, b, out_type, x, y)
            && hands_on_types(s.through_b(name, op), a, b, out_type, x, y),
{
    let one = WireStepView { name, op, inputs: seq![s.a] };
    let two = WireStepView { name, op, inputs: seq![s.b] };
    lemma_types_push(s.steps, one, a, b, out_type);
    lemma_types_push(s.steps, two, a, b, out_type);
}

/// The kernel reads the two inputs in the element types that they are to be multiplied in, and
/// the plan puts out the type that is expected.
///
/// An input is read in the type to accumulate in, where that is a wider floating point type than
/// its own, and else in its own; where the MLX or the MFA kernel would then read two types, the
/// half precision one is read in single precision. So no input is read in a type narrower than
/// the one to accumulate in.
pub proof fn law_kernel_reads_the_types_asked_for(
    name: Seq<char>,
    op: PrefixMatMul,
    kind: MetalGemmImplKind,
    fa: TypedFactView,
    fb: TypedFactView,
    swapped: bool,
    out_rank: nat,
    out_dt: DatumType,
    expected_dt: DatumType,
)
    ensures
        ({
            let (half, single, double) = (DatumType::F16, DatumType::F32, DatumType::F64);
            let wider = |dt: DatumType, acc: DatumType|
                (dt == half && (acc == single || acc == double)) || (dt == single && acc == double);
            let (a, b) = (fa.datum_type, fb.datum_type);
            let up = |dt: DatumType|
                match op.operating_dt {
                    Some(acc) => if wider(dt, acc) {
                        acc
                    } else {
                        dt
                    },
                    None => dt,
                };
            let alike = kind == MetalGemmImplKind::Ggml || up(a) == up(b);
            let x = if !alike && up(a) == half {
                single
            } else {
                up(a)
            };
            let y = if !alike && up(a) != half {
                single
            } else {
                up(b)
            };
            let plan = matmul_plan(name, op, kind, fa, fb, swapped);
            let done = output_cast(output_permuted(plan, out_rank), out_dt, expected_dt);
            let types = step_types(done.steps, a, b, out_dt);
            let gemm = done.steps[plan.steps.len() - 1];
            let (first, second) = if swapped {
                (gemm.inputs[1], gemm.inputs[0])
            } else {
                (gemm.inputs[0], gemm.inputs[1])
            };
            &&& gemm.op is Gemm
            &&& gemm.inputs.len() == 2
            &&& wire_type(first, a, b, types) == x
            &&& wire_type(second, a, b, types) == y
            &&& alike || up(a) == half || up(b) == half ==> (op.operating_dt matches Some(acc)
                ==> !wider(x, acc) && !wider(y, acc))
            &&& types.len() == done.steps.len()
            &&& types.last() == expected_dt
        }),
{
    let (a, b) = (fa.datum_type, fb.datum_type);
    let (fa2, fb2) = (accumulated(op, fa), accumulated(op, fb));
    let (a2, b2) = (fa2.datum_type, fb2.datum_type);
    let s0 = Wiring::start();
    assert(hands_on_types(s0, a, b, out_dt, a, b));
    let up = StepOp::Cast(GpuCast { to: op.operating_dt->0 });
    lemma_types_through(s0, name + ".cast_acc_0"@, up, a, b, out_dt, a, b);
    let s1 = if accumulates(op, a) {
        s0.through_a(name + ".cast_acc_0"@, up)
    } else {
        s0
    };
    assert(hands_on_types(s1, a, b, out_dt, a2, b));
    lemma_types_through(s1, name + ".cast_acc_1"@, up, a, b, out_dt, a2, b);
    let s2 = s0.cast_up(name, op, fa, fb);
    assert(hands_on_types(s2, a, b, out_dt, a2, b2));
    let single = StepOp::Cast(GpuCast { to: DatumType::F32 });
    lemma_types_through(s2, name + ".cast_input"@, single, a, b, out_dt, a2, b2);
    let s3 = s2.cast_mixed(name, kind, fa2, fb2);
    let x = if mixed(kind, fa2, fb2) && a2 == DatumType::F16 {
        DatumType::F32
    } else {
        a2
    };
    let y = if mixed(kind, fa2, fb2) && a2 != DatumType::F16 {
        DatumType::F32
    } else {
        b2
    };
    assert(hands_on_types(s3, a, b, out_dt, x, y));
    let (pa, pb) = (exchange(fa2.rank()), exchange(fb2.rank()));
    lemma_types_through(s3, name + ".perm_a"@, pa, a, b, out_dt, x, y);
    let s4 = if kind == MetalGemmImplKind::Ggml && op.transpose_a {
        s3.through_a(name + ".perm_a"@, pa)
    } else {
        s3
    };
    lemma_types_through(s4, name + ".perm_b"@, pb, a, b, out_dt, x, y);
    let s5 = s3.permute(name, op, kind, fa2, fb2);
    assert(hands_on_types(s5, a, b, out_dt, x, y));

    let plan = matmul_plan(name, op, kind, fa, fb, swapped);
    assert(plan.steps == s5.steps.push(plan.steps.last()));
    lemma_types_push(s5.steps, plan.steps.last(), a, b, out_dt);
    let permuted = output_permuted(plan, out_rank);
    let done = output_cast(permuted, out_dt, expected_dt);
    if swapped {
        assert(permuted.steps == plan.steps.push(permuted.steps.last()));
        lemma_types_push(plan.steps, permuted.steps.last(), a, b, out_dt);
    }
    if out_dt != expected_dt {
        assert(done.steps == permuted.steps.push(done.steps.last()));
        lemma_types_push(permuted.steps, done.steps.last(), a, b, out_dt);
    }
    assert(done.steps[plan.steps.len() - 1] == plan.steps.last());
    law_wider_types(a, op.operating_dt->0);
    law_wider_types(b, op.operating_dt->0);
}

} // verus!
