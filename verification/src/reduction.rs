//! What a chain of reductions computes.

use crate::reduce::{composes, step_axes, Reduce, ReduceStep, Reducer};
use vstd::prelude::*;

verus! {

/// A way to combine two values, and a value that changes nothing.
#[verifier::reject_recursive_types(V)]
pub struct Monoid<V> {
    pub op: spec_fn(V, V) -> V,
    pub unit: V,
}

/// Two values, combined.
pub open spec fn combined<V>(m: Monoid<V>, x: V, y: V) -> V {
    (m.op)(x, y)
}

/// The order in which values are combined does not matter.
pub open spec fn commutative<V>(m: Monoid<V>) -> bool {
    &&& forall|x: V| #[trigger] combined(m, m.unit, x) == x
    &&& forall|x: V, y: V| #[trigger] combined(m, x, y) == combined(m, y, x)
    &&& forall|x: V, y: V, z: V|
        #[trigger] combined(m, combined(m, x, y), z) == combined(m, x, combined(m, y, z))
}

/// The first `n` values, combined.
pub open spec fn fold<V>(m: Monoid<V>, f: spec_fn(int) -> V, n: nat) -> V
    decreases n,
{
    if n == 0 {
        m.unit
    } else {
        combined(m, fold(m, f, (n - 1) as nat), f(n - 1))
    }
}

/// A place in a tensor: the position along each axis.
pub type Place = spec_fn(int) -> int;

/// The elements of a tensor, by place.
pub type Elements<V> = spec_fn(Place) -> V;

/// The place with another position along an axis.
pub open spec fn moved(p: Place, axis: int, k: int) -> Place {
    |x: int|
        if x == axis {
            k
        } else {
            p(x)
        }
}

/// The elements along an axis, combined.
pub open spec fn along<V>(m: Monoid<V>, t: Elements<V>, n: nat, axis: int) -> Elements<V> {
    |p: Place| fold(m, |k: int| t(moved(p, axis, k)), n)
}

/// The elements along all of the axes, combined.
pub open spec fn along_all<V>(
    m: Monoid<V>,
    t: Elements<V>,
    shape: Seq<nat>,
    axes: Seq<usize>,
) -> Elements<V>
    decreases axes.len(),
{
    if axes.len() == 0 {
        t
    } else {
        along(
            m,
            along_all(m, t, shape, axes.drop_last()),
            shape[axes.last() as int],
            axes.last() as int,
        )
    }
}

/// A tensor and its shape after a chain of reductions, one axis after the other. An axis
/// that has been reduced has one element.
pub open spec fn chained<V>(
    m: Monoid<V>,
    t: Elements<V>,
    shape: Seq<nat>,
    axes: Seq<usize>,
) -> (Elements<V>, Seq<nat>)
    decreases axes.len(),
{
    if axes.len() == 0 {
        (t, shape)
    } else {
        let (earlier, left) = chained(m, t, shape, axes.drop_last());
        (
            along(m, earlier, left[axes.last() as int], axes.last() as int),
            left.update(axes.last() as int, 1),
        )
    }
}

/// Combining nothing but values that change nothing changes nothing.
proof fn lemma_fold_unit<V>(m: Monoid<V>, n: nat)
    requires
        commutative(m),
    ensures
        fold(m, |k: int| m.unit, n) == m.unit,
    decreases n,
{
    if n > 0 {
        lemma_fold_unit(m, (n - 1) as nat);
    }
}

/// Combining pairs is combining the first and the second ones.
proof fn lemma_fold_pairs<V>(m: Monoid<V>, f: spec_fn(int) -> V, g: spec_fn(int) -> V, n: nat)
    requires
        commutative(m),
    ensures
        fold(m, |k: int| combined(m, f(k), g(k)), n) == combined(m, fold(m, f, n), fold(m, g, n)),
    decreases n,
{
    if n == 0 {
        assert(combined(m, m.unit, m.unit) == m.unit);
    } else {
        lemma_fold_pairs(m, f, g, (n - 1) as nat);
        let (a, b) = (fold(m, f, (n - 1) as nat), fold(m, g, (n - 1) as nat));
        let (x, y) = (f(n - 1), g(n - 1));
        // (a b) (x y) == (a x) (b y)
        assert(combined(m, combined(m, a, b), combined(m, x, y)) == combined(
            m,
            a,
            combined(m, b, combined(m, x, y)),
        ));
        assert(combined(m, combined(m, b, x), y) == combined(m, b, combined(m, x, y)));
        assert(combined(m, combined(m, x, b), y) == combined(m, x, combined(m, b, y)));
        assert(combined(m, combined(m, a, x), combined(m, b, y)) == combined(
            m,
            a,
            combined(m, x, combined(m, b, y)),
        ));
    }
}

/// Values in rows and columns can be combined by rows or by columns.
proof fn lemma_fold_exchange<V>(m: Monoid<V>, g: spec_fn(int, int) -> V, p: nat, q: nat)
    requires
        commutative(m),
    ensures
        fold(m, |i: int| fold(m, |j: int| g(i, j), q), p) == fold(
            m,
            |j: int| fold(m, |i: int| g(i, j), p),
            q,
        ),
    decreases p,
{
    let rows = |i: int| fold(m, |j: int| g(i, j), q);
    let columns = |j: int| fold(m, |i: int| g(i, j), p);
    if p == 0 {
        lemma_fold_unit(m, q);
        assert(columns =~= (|k: int| m.unit));
    } else {
        let r = (p - 1) as nat;
        lemma_fold_exchange(m, g, r, q);
        let shorter = |j: int| fold(m, |i: int| g(i, j), r);
        let last = |j: int| g(p - 1, j);
        lemma_fold_pairs(m, shorter, last, q);
        assert(columns =~= (|k: int| combined(m, shorter(k), last(k))));
        assert(fold(m, rows, p) == combined(m, fold(m, rows, r), rows(p - 1)));
        assert(rows(p - 1) == fold(m, last, q));
    }
}

/// Two axes can be reduced in either order.
proof fn lemma_along_exchange<V>(
    m: Monoid<V>,
    t: Elements<V>,
    nx: nat,
    x: int,
    ny: nat,
    y: int,
)
    requires
        commutative(m),
        x != y,
    ensures
        along(m, along(m, t, nx, x), ny, y) == along(m, along(m, t, ny, y), nx, x),
{
    let left = along(m, along(m, t, nx, x), ny, y);
    let right = along(m, along(m, t, ny, y), nx, x);
    assert forall|p: Place| #[trigger] reduced_at(left, p) == reduced_at(right, p) by {
        let g = |i: int, j: int| t(moved(moved(p, y, i), x, j));
        let h = |j: int, i: int| t(moved(moved(p, x, j), y, i));
        lemma_fold_exchange(m, g, ny, nx);
        assert forall|i: int, j: int| #[trigger] moved(moved(p, y, i), x, j) == moved(
            moved(p, x, j),
            y,
            i,
        ) by {
            assert(moved(moved(p, y, i), x, j) =~= moved(moved(p, x, j), y, i));
        }
        let outer = |i: int| fold(m, |j: int| g(i, j), nx);
        let columns = |j: int| fold(m, |i: int| g(i, j), ny);
        let l = |k: int| along(m, t, nx, x)(moved(p, y, k));
        let r = |k: int| along(m, t, ny, y)(moved(p, x, k));
        assert(l =~= outer) by {
            assert forall|i: int| l(i) == #[trigger] outer(i) by {
                assert((|k: int| t(moved(moved(p, y, i), x, k))) =~= (|j: int| g(i, j)));
            }
        }
        assert(r =~= columns) by {
            assert forall|j: int| r(j) == #[trigger] columns(j) by {
                assert((|k: int| t(moved(moved(p, x, j), y, k))) =~= (|i: int| g(i, j)));
            }
        }
    }
    assert(left =~= right) by {
        assert forall|p: Place| #[trigger] left(p) == right(p) by {
            assert(reduced_at(left, p) == reduced_at(right, p));
        }
    }
}

/// The element at a place.
spec fn reduced_at<V>(t: Elements<V>, p: Place) -> V {
    t(p)
}

/// An axis can be reduced last.
proof fn lemma_move_last<V>(
    m: Monoid<V>,
    t: Elements<V>,
    shape: Seq<nat>,
    axes: Seq<usize>,
    i: int,
)
    requires
        commutative(m),
        axes.no_duplicates(),
        0 <= i < axes.len(),
    ensures
        along_all(m, t, shape, axes) == along_all(m, t, shape, axes.remove(i).push(axes[i])),
    decreases axes.len(),
{
    let x = axes[i];
    let moved_axes = axes.remove(i).push(x);
    if i == axes.len() - 1 {
        assert(moved_axes =~= axes);
    } else {
        let head = axes.drop_last();
        let y = axes.last();
        lemma_move_last(m, t, shape, head, i);
        let rest = along_all(m, t, shape, head.remove(i));
        assert(head.remove(i).push(x).drop_last() =~= head.remove(i));
        assert(along_all(m, t, shape, head) == along(m, rest, shape[x as int], x as int));
        lemma_along_exchange(m, rest, shape[x as int], x as int, shape[y as int], y as int);
        let shorter = moved_axes.drop_last();
        assert(shorter =~= head.remove(i).push(y));
        assert(shorter.drop_last() =~= head.remove(i));
        assert(along_all(m, t, shape, shorter) == along(m, rest, shape[y as int], y as int));
        assert(along_all(m, t, shape, moved_axes) == along(
            m,
            along_all(m, t, shape, shorter),
            shape[x as int],
            x as int,
        ));
    }
}

/// The order of the axes does not matter.
proof fn lemma_any_order<V>(
    m: Monoid<V>,
    t: Elements<V>,
    shape: Seq<nat>,
    axes: Seq<usize>,
    other: Seq<usize>,
)
    requires
        commutative(m),
        axes.no_duplicates(),
        other.no_duplicates(),
        axes.to_multiset() == other.to_multiset(),
    ensures
        along_all(m, t, shape, axes) == along_all(m, t, shape, other),
    decreases axes.len(),
{
    broadcast use vstd::seq_lib::group_to_multiset_ensures;

    assert(axes.len() == axes.to_multiset().len() && other.len() == other.to_multiset().len());
    if axes.len() > 0 {
        let x = axes.last();
        assert(axes.contains(x));
        assert(other.to_multiset().count(x) > 0);
        assert(other.contains(x));
        let i = choose|i: int| 0 <= i < other.len() && other[i] == x;
        lemma_move_last(m, t, shape, other, i);
        let turned = other.remove(i).push(x);
        assert(turned.drop_last() =~= other.remove(i));
        assert(axes.drop_last() =~= axes.remove(axes.len() - 1));
        assert(axes.drop_last().to_multiset() =~= other.remove(i).to_multiset());
        assert(other.remove(i).no_duplicates());
        lemma_any_order(m, t, shape, axes.drop_last(), other.remove(i));
    }
}

/// A chain over axes of its own uses the lengths that the axes had at first.
proof fn lemma_chained<V>(m: Monoid<V>, t: Elements<V>, shape: Seq<nat>, axes: Seq<usize>)
    requires
        axes.no_duplicates(),
        forall|i: int| 0 <= i < axes.len() ==> #[trigger] axes[i] < shape.len(),
        shape.len() <= usize::MAX,
    ensures
        chained(m, t, shape, axes).0 == along_all(m, t, shape, axes),
        chained(m, t, shape, axes).1.len() == shape.len(),
        forall|x: int|
            0 <= x < shape.len() ==> #[trigger] chained(m, t, shape, axes).1[x] == (if axes.contains(
                x as usize,
            ) {
                1
            } else {
                shape[x]
            }),
    decreases axes.len(),
{
    if axes.len() > 0 {
        let head = axes.drop_last();
        let y = axes.last();
        lemma_chained(m, t, shape, head);
        assert(axes[axes.len() - 1] == y);
        assert(!head.contains(y));
        let left = chained(m, t, shape, head).1;
        assert(left[y as int] == shape[y as int]);
        assert forall|x: int| 0 <= x < shape.len() implies #[trigger] left.update(y as int, 1)[x]
            == (if axes.contains(x as usize) {
            1
        } else {
            shape[x]
        }) by {
            if axes.contains(x as usize) && x != y {
                let i = choose|i: int| 0 <= i < axes.len() && axes[i] == x as usize;
                assert(head[i] == x as usize);
            }
            if head.contains(x as usize) {
                let i = choose|i: int| 0 <= i < head.len() && head[i] == x as usize;
                assert(axes[i] == x as usize);
            }
        }
    }
}

/// Reducing a tensor over one axis after the other, in any order, gives what reducing it
/// over all of the axes at once gives, if the order in which values are combined does not
/// matter; and every axis that was reduced is left with one element.
pub proof fn law_chain_reduces_all<V>(
    m: Monoid<V>,
    t: Elements<V>,
    shape: Seq<nat>,
    axes: Seq<usize>,
    chain: Seq<usize>,
)
    requires
        commutative(m),
        axes.no_duplicates(),
        forall|i: int| 0 <= i < axes.len() ==> #[trigger] axes[i] < shape.len(),
        shape.len() <= usize::MAX,
        chain.to_multiset() == axes.to_multiset(),
    ensures
        chained(m, t, shape, chain).0 == along_all(m, t, shape, axes),
        forall|x: int|
            0 <= x < shape.len() ==> #[trigger] chained(m, t, shape, chain).1[x] == (
            if axes.contains(x as usize) {
                1
            } else {
                shape[x]
            }),
{
    broadcast use vstd::seq_lib::group_to_multiset_ensures;

    axes.lemma_multiset_has_no_duplicates();
    chain.lemma_multiset_has_no_duplicates_conv();
    assert forall|i: int| 0 <= i < chain.len() implies #[trigger] chain[i] < shape.len() by {
        assert(chain.to_multiset().count(chain[i]) > 0);
        assert(axes.contains(chain[i]));
    }
    lemma_chained(m, t, shape, chain);
    lemma_any_order(m, t, shape, chain, axes);
    assert forall|x: usize| #[trigger] chain.contains(x) == axes.contains(x) by {
        assert(chain.contains(x) == (chain.to_multiset().count(x) > 0));
        assert(axes.contains(x) == (axes.to_multiset().count(x) > 0));
    }
}

/// Whether a number stands for truth, as a number.
pub open spec fn truth(b: bool) -> int {
    if b {
        1
    } else {
        0
    }
}

/// Two numbers, combined by a reducer that composes.
pub open spec fn combine_numbers(reducer: Reducer, x: int, y: int) -> int {
    match reducer {
        Reducer::Sum => x + y,
        Reducer::Prod => x * y,
        Reducer::Min => if x <= y {
            x
        } else {
            y
        },
        Reducer::Max => if x >= y {
            x
        } else {
            y
        },
        Reducer::Any => truth(x != 0 || y != 0),
        Reducer::All => truth(x != 0 && y != 0),
        _ => 0,
    }
}

/// How a reducer that composes combines numbers. There may be none yet.
pub open spec fn number_monoid(reducer: Reducer) -> Monoid<Option<int>> {
    Monoid {
        op: |x: Option<int>, y: Option<int>|
            match (x, y) {
                (Some(a), Some(b)) => Some(combine_numbers(reducer, a, b)),
                (Some(a), None) => Some(a),
                (None, y) => y,
            },
        unit: None,
    }
}

/// The reductions that are split are such that the order in which values are combined does
/// not matter.
pub proof fn law_split_reducers_commute(reducer: Reducer)
    requires
        composes(reducer),
    ensures
        commutative(number_monoid(reducer)),
{
    let m = number_monoid(reducer);
    assert forall|x: Option<int>, y: Option<int>| #[trigger] combined(m, x, y) == combined(
        m,
        y,
        x,
    ) by {
        if let (Some(a), Some(b)) = (x, y) {
            assert(a * b == b * a) by (nonlinear_arith);
        }
    }
    assert forall|x: Option<int>, y: Option<int>, z: Option<int>|
        #[trigger] combined(m, combined(m, x, y), z) == combined(m, x, combined(m, y, z)) by {
        if let (Some(a), Some(b), Some(c)) = (x, y, z) {
            assert((a * b) * c == a * (b * c)) by (nonlinear_arith);
        }
    }
}

/// The chain that a reduction over several axes is split into computes the reduction.
pub proof fn law_split_computes_the_reduction(
    op: Reduce,
    steps: Seq<ReduceStep>,
    t: Elements<Option<int>>,
    shape: Seq<nat>,
)
    requires
        composes(op.reducer),
        step_axes(steps).to_multiset() == op.axes@.to_multiset(),
        op.axes@.no_duplicates(),
        forall|i: int| 0 <= i < op.axes@.len() ==> #[trigger] op.axes@[i] < shape.len(),
        shape.len() <= usize::MAX,
    ensures
        chained(number_monoid(op.reducer), t, shape, step_axes(steps)).0 == along_all(
            number_monoid(op.reducer),
            t,
            shape,
            op.axes@,
        ),
{
    law_split_reducers_commute(op.reducer);
    law_chain_reduces_all(number_monoid(op.reducer), t, shape, op.axes@, step_axes(steps));
}

} // verus!
