use vstd::prelude::*;
use std::cmp::Ordering;

verus! {

/// The result of `natord::compare` on two strings: natural ordering, in which runs of
/// digits compare by their numeric value and whitespace is skipped.
pub uninterp spec fn natural_order(left: Seq<char>, right: Seq<char>) -> Ordering;

/// `natord::compare`. Claimed: its result is `natural_order` of the two strings' characters,
/// that is, a function of them alone. Nothing else is claimed of it: in particular not that
/// it is a total order.
#[verifier::external_body]
fn natord_compare(left: &str, right: &str) -> (r: Ordering)
    ensures
        r == natural_order(left@, right@),
{
    natord::compare(left, right)
}

/// `left` sorts strictly after `right` in natural order.
pub open spec fn natural_after(left: Seq<char>, right: Seq<char>) -> bool {
    natural_order(left, right) == Ordering::Greater
}

/// `left` sorts strictly before `right` in natural order.
pub open spec fn natural_before(left: Seq<char>, right: Seq<char>) -> bool {
    natural_order(left, right) == Ordering::Less
}

/// `left` and `right` are equivalent in natural order.
pub open spec fn natural_equal(left: Seq<char>, right: Seq<char>) -> bool {
    natural_order(left, right) == Ordering::Equal
}

/// Every comparison gives exactly one of the three answers.
pub proof fn lemma_natural_trichotomy(left: Seq<char>, right: Seq<char>)
    ensures
        natural_after(left, right) || natural_before(left, right) || natural_equal(left, right),
        !(natural_after(left, right) && natural_before(left, right)),
        !(natural_after(left, right) && natural_equal(left, right)),
        !(natural_before(left, right) && natural_equal(left, right)),
{
}

/// Whether `left` sorts strictly after `right` in natural order.
pub fn sorts_after(left: &str, right: &str) -> (r: bool)
    ensures
        r == natural_after(left@, right@),
{
    match natord_compare(left, right) {
        Ordering::Greater => true,
        Ordering::Less => false,
        Ordering::Equal => false,
    }
}

} // verus!
