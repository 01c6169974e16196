//! Lists compared and searched.

use vstd::prelude::*;

verus! {

/// Values that can be told apart.
pub trait Distinct: Sized {
    /// Whether the two values are equal.
    fn equals(&self, other: &Self) -> (r: bool)
        ensures
            r == (*self == *other),
    ;
}

impl Distinct for usize {
    fn equals(&self, other: &Self) -> (r: bool) {
        *self == *other
    }
}

impl Distinct for u32 {
    fn equals(&self, other: &Self) -> (r: bool) {
        *self == *other
    }
}

/// Whether the two lists are the same.
pub fn same_list<T: Distinct>(a: &Vec<T>, b: &Vec<T>) -> (r: bool)
    ensures
        r == (a@ == b@),
{
    if a.len() != b.len() {
        return false;
    }
    let mut i: usize = 0;
    while i < a.len()
        invariant
            i <= a@.len(),
            a@.len() == b@.len(),
            forall|j: int| 0 <= j < i ==> a@[j] == b@[j],
        decreases a@.len() - i,
    {
        if !a[i].equals(&b[i]) {
            return false;
        }
        i += 1;
    }
    assert(a@ =~= b@);
    true
}

/// Whether the value is one of those listed.
pub fn lists<T: Distinct>(list: &Vec<T>, x: &T) -> (r: bool)
    ensures
        r == list@.contains(*x),
{
    let mut i: usize = 0;
    while i < list.len()
        invariant
            i <= list@.len(),
            forall|j: int| 0 <= j < i ==> list@[j] != *x,
        decreases list@.len() - i,
    {
        if list[i].equals(x) {
            return true;
        }
        i += 1;
    }
    false
}

} // verus!
