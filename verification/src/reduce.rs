//! Reductions over several axes, split into reductions over one.

use crate::text::{decimal, joined, to_decimal};
use vstd::prelude::*;

verus! {

/// What the elements along an axis are reduced to.
#[derive(Debug, Clone, Copy, PartialEq, Eq, Structural, Hash)]
pub enum Reducer {
    /// The place of the largest element, the last one of several if told so.
    ArgMax(bool),
    /// The place of the smallest element, the last one of several if told so.
    ArgMin(bool),
    Max,
    Min,
    Prod,
    Sum,
    MeanOfSquares,
    All,
    Any,
}

/// A reduction over axes, which stay, with one element.
#[derive(Debug)]
pub struct Reduce {
    pub axes: Vec<usize>,
    pub reducer: Reducer,
}

/// A reduction over one axis, to be wired.
#[derive(Debug)]
pub struct ReduceStep {
    pub name: String,
    pub op: Reduce,
}

/// Reducing one axis after the other gives what reducing all of them at once gives.
pub open spec fn composes(reducer: Reducer) -> bool {
    match reducer {
        Reducer::Sum | Reducer::Prod | Reducer::Min | Reducer::Max | Reducer::Any
        | Reducer::All => true,
        _ => false,
    }
}

/// The axis of a reduction over one.
pub open spec fn only_axis(step: ReduceStep) -> usize {
    step.op.axes@[0]
}

/// The numbers go down, or stay.
pub open spec fn descending(axes: Seq<usize>) -> bool {
    forall|i: int, j: int| 0 <= i <= j < axes.len() ==> axes[i] >= axes[j]
}

/// The axes of the steps, in order.
pub open spec fn step_axes(steps: Seq<ReduceStep>) -> Seq<usize> {
    steps.map_values(|s: ReduceStep| only_axis(s))
}

/// The numbers in ascending order.
fn sorted(axes: &Vec<usize>) -> (r: Vec<usize>)
    ensures
        r@.to_multiset() == axes@.to_multiset(),
        forall|i: int, j: int| 0 <= i <= j < r@.len() ==> r@[i] <= r@[j],
{
    let mut out: Vec<usize> = Vec::new();
    let mut i: usize = 0;
    assert(out@ =~= axes@.take(0));
    while i < axes.len()
        invariant
            i <= axes@.len(),
            out@.len() == i,
            out@.to_multiset() == axes@.take(i as int).to_multiset(),
            forall|a: int, b: int| 0 <= a <= b < out@.len() ==> out@[a] <= out@[b],
        decreases axes@.len() - i,
    {
        let axis = axes[i];
        let mut at: usize = out.len();
        while at > 0 && out[at - 1] > axis
            invariant
                at <= out@.len(),
                forall|b: int| at <= b < out@.len() ==> axis < out@[b],
                forall|a: int, b: int| 0 <= a <= b < out@.len() ==> out@[a] <= out@[b],
            decreases at,
        {
            at -= 1;
        }
        let ghost before = out@;
        out.insert(at, axis);
        proof {
            assert(axes@.take(i + 1) =~= axes@.take(i as int).push(axis));
            vstd::seq_lib::to_multiset_insert(before, at as int, axis);
            vstd::seq_lib::to_multiset_build(axes@.take(i as int), axis);
        }
        i += 1;
    }
    assert(axes@.take(i as int) =~= axes@);
    out
}

/// Splits a reduction over several axes into a chain of reductions over one, the last axis
/// first. Each step reads the one before, the first reads what the node reads, and the last
/// puts out what the node puts out. Nothing is to be done for a reduction over one axis or
/// none, nor for one that a chain does not compute.
pub fn split_multi_axis_reduce(node_name: &str, op: &Reduce) -> (r: Option<Vec<ReduceStep>>)
    ensures
        r is Some == (op.axes@.len() > 1 && composes(op.reducer)),
        r is Some == (op.axes@.len() > 1 && (op.reducer == Reducer::Sum || op.reducer
            == Reducer::Prod || op.reducer == Reducer::Min || op.reducer == Reducer::Max
            || op.reducer == Reducer::Any || op.reducer == Reducer::All)),
        r matches Some(steps) ==> {
            &&& steps@.len() == op.axes@.len()
            &&& forall|i: int, j: int|
                0 <= i <= j < steps@.len() ==> (#[trigger] steps@[i]).op.axes@[0] >= (
                #[trigger] steps@[j]).op.axes@[0]
            &&& steps@.map_values(|s: ReduceStep| s.op.axes@[0]).to_multiset()
                == op.axes@.to_multiset()
        },
        r matches Some(steps) ==> {
            &&& descending(step_axes(steps@))
            &&& step_axes(steps@).to_multiset() == op.axes@.to_multiset()
            &&& forall|i: int|
                0 <= i < steps@.len() ==> {
                    &&& (#[trigger] steps@[i]).name@ == node_name@ + ".axis_"@ + decimal(i as nat)
                    &&& steps@[i].op.axes@.len() == 1
                    &&& steps@[i].op.reducer == op.reducer
                }
        },
{
    if op.axes.len() <= 1 {
        return None;
    }
    match op.reducer {
        Reducer::Sum | Reducer::Prod | Reducer::Min | Reducer::Max | Reducer::Any
        | Reducer::All => {},
        _ => return None,
    }
    let axes = sorted(&op.axes);
    let n = axes.len();
    let mut steps: Vec<ReduceStep> = Vec::new();
    let mut i: usize = 0;
    while i < n
        invariant
            n == axes@.len(),
            i <= n,
            steps@.len() == i,
            forall|j: int|
                0 <= j < i ==> {
                    &&& (#[trigger] steps@[j]).name@ == node_name@ + ".axis_"@ + decimal(j as nat)
                    &&& steps@[j].op.axes@.len() == 1
                    &&& steps@[j].op.axes@[0] == axes@[n - 1 - j]
                    &&& steps@[j].op.reducer == op.reducer
                },
        decreases n - i,
    {
        let name = joined(joined(node_name, ".axis_").as_str(), to_decimal(i).as_str());
        let axis = axes[n - 1 - i];
        let single = Reduce { axes: vec![axis], reducer: op.reducer };
        steps.push(ReduceStep { name, op: single });
        i += 1;
    }
    proof {
        assert(step_axes(steps@) =~= axes@.reverse());
        axes@.lemma_reverse_to_multiset();
        assert(steps@.map_values(|s: ReduceStep| s.op.axes@[0]) =~= axes@.reverse());
        vstd::seq_lib::to_multiset_len(axes@);
        vstd::seq_lib::to_multiset_len(op.axes@);
    }
    Some(steps)
}

/// The reductions that are split, by name.
pub proof fn law_reductions_that_compose(reducer: Reducer)
    ensures
        composes(reducer) == (reducer == Reducer::Sum || reducer == Reducer::Prod || reducer
            == Reducer::Min || reducer == Reducer::Max || reducer == Reducer::Any || reducer
            == Reducer::All),
{
}

} // verus!
