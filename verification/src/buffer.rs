use crate::double::Double;
use vstd::prelude::*;

verus! {

/// Two sequences of numbers are as long as each other and equal, as
/// numbers, position by position.
pub open spec fn same_numbers(a: Seq<Double>, b: Seq<Double>) -> bool {
    &&& a.len() == b.len()
    &&& forall|i: int| 0 <= i < a.len() ==> (#[trigger] a[i]).same_number(b[i])
}

/// No number of the sequence is NaN.
pub open spec fn none_nan(s: Seq<Double>) -> bool {
    forall|i: int| 0 <= i < s.len() ==> !(#[trigger] s[i]).nan()
}

/// Every number of the sequence is finite.
pub open spec fn all_finite(s: Seq<Double>) -> bool {
    forall|i: int| 0 <= i < s.len() ==> (#[trigger] s[i]).finite()
}

/// Compares two buffers of numbers position by position.
pub fn numbers_equal(a: &Vec<Double>, b: &Vec<Double>) -> (same: bool)
    ensures
        same == same_numbers(a@, b@),
{
    if a.len() != b.len() {
        return false;
    }
    let mut i: usize = 0;
    while i < a.len()
        invariant
            i <= a.len(),
            a.len() == b.len(),
            forall|j: int| 0 <= j < i ==> (#[trigger] a@[j]).same_number(b@[j]),
        decreases a.len() - i,
    {
        if a[i] != b[i] {
            return false;
        }
        i += 1;
    }
    true
}

/// Compares two buffers of integers position by position.
pub fn integers_equal(a: &Vec<i32>, b: &Vec<i32>) -> (same: bool)
    ensures
        same == (a@ == b@),
{
    if a.len() != b.len() {
        return false;
    }
    let mut i: usize = 0;
    while i < a.len()
        invariant
            i <= a.len(),
            a.len() == b.len(),
            forall|j: int| 0 <= j < i ==> a@[j] == b@[j],
        decreases a.len() - i,
    {
        if a[i] != b[i] {
            return false;
        }
        i += 1;
    }
    assert(a@ =~= b@);
    true
}

/// Tells whether every number of a buffer is finite.
pub fn numbers_finite(a: &Vec<Double>) -> (finite: bool)
    ensures
        finite == all_finite(a@),
{
    let mut i: usize = 0;
    while i < a.len()
        invariant
            i <= a.len(),
            forall|j: int| 0 <= j < i ==> (#[trigger] a@[j]).finite(),
        decreases a.len() - i,
    {
        if !a[i].is_finite() {
            return false;
        }
        i += 1;
    }
    true
}

} // verus!
