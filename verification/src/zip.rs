use itertools::EitherOrBoth;
use itertools::Itertools;
use vstd::prelude::*;

verus! {

/// One item of two runs walked side by side: an item of each, or, once one
/// run has ended, an item of the other alone.
#[derive(Debug, PartialEq, Eq)]
pub enum Paired<A, B> {
    Both(A, B),
    Left(A),
    Right(B),
}

/// Two runs walked side by side to the end of the longer.
pub open spec fn zipped<A, B>(left: Seq<A>, right: Seq<B>) -> Seq<Paired<A, B>> {
    Seq::new(
        if left.len() >= right.len() {
            left.len()
        } else {
            right.len()
        },
        |i: int|
            if i < left.len() && i < right.len() {
                Paired::Both(left[i], right[i])
            } else if i < left.len() {
                Paired::Left(left[i])
            } else {
                Paired::Right(right[i])
            },
    )
}

/// Calls `itertools::Itertools::zip_longest` on the two vectors. The crate
/// yields both items while neither run has ended, then the items of the run
/// that is left, each marked with the side it comes from, and stops when
/// both have ended.
#[verifier::external_body]
pub(crate) fn zip_longest<A, B>(left: Vec<A>, right: Vec<B>) -> (pairs: Vec<Paired<A, B>>)
    ensures
        pairs@ == zipped(left@, right@),
{
    left.into_iter().zip_longest(right).map(
        |pair|
            match pair {
                EitherOrBoth::Both(a, b) => Paired::Both(a, b),
                EitherOrBoth::Left(a) => Paired::Left(a),
                EitherOrBoth::Right(b) => Paired::Right(b),
            },
    ).collect()
}

/// A reference to each item of a vector, in order.
pub fn each_ref<T>(items: &Vec<T>) -> (refs: Vec<&T>)
    ensures
        refs@.len() == items@.len(),
        forall|i: int| 0 <= i < refs@.len() ==> *(#[trigger] refs@[i]) == items@[i],
{
    let mut refs: Vec<&T> = Vec::new();
    let mut i: usize = 0;
    while i < items.len()
        invariant
            i <= items@.len(),
            refs@.len() == i,
            forall|j: int| 0 <= j < i ==> *(#[trigger] refs@[j]) == items@[j],
        decreases items@.len() - i,
    {
        refs.push(&items[i]);
        i = i + 1;
    }
    refs
}

} // verus!
