//! The calls into the `rand` crate. Nothing here is proved: each contract
//! states what the crate's source shows of every outcome, and the rest of
//! the library is verified against these contracts alone.
//!
//! Every call draws from the generator of the current thread. That
//! generator takes a seed from the operating system when the thread first
//! asks for it, and a new one whenever it has handed out a set amount of
//! random data. Where the operating system refuses the seed, the call that
//! needed it panics, be it the first or a later one. No argument brings
//! this about, so no contract here can exclude it.

use rand::distr::Alphanumeric;
use rand::seq::{IteratorRandom, SliceRandom};
use rand::Rng;
use vstd::prelude::*;

verus! {

/// Whether `byte` is an ASCII letter or digit.
pub open spec fn is_alphanumeric(byte: u8) -> bool {
    ||| 0x30 <= byte <= 0x39
    ||| 0x41 <= byte <= 0x5a
    ||| 0x61 <= byte <= 0x7a
}

/// Calls `rand::seq::SliceRandom::shuffle` on the items with the generator
/// of the current thread. The call only swaps items of the slice, so the
/// items afterwards are the items before in some order; which order is not
/// stated.
#[verifier::external_body]
pub(crate) fn shuffle<T>(items: &mut Vec<T>)
    ensures
        final(items)@.to_multiset() == old(items)@.to_multiset(),
{
    items.shuffle(&mut rand::rng());
}

/// Calls `rand::seq::IteratorRandom::choose_multiple` on the range
/// `0..count` with the generator of the current thread. The call fills a
/// reservoir with the first `amount` numbers of the range and then replaces
/// entries by later numbers of the range, so the result holds `amount`
/// numbers below `count`, none of them twice; which numbers, and in what
/// order, is not stated. The reservoir is allocated for `amount` numbers
/// before the first is drawn, which is why `amount` is kept small.
#[verifier::external_body]
pub(crate) fn choose_seats(count: usize, amount: usize) -> (chosen: Vec<usize>)
    requires
        amount <= count,
        amount <= u16::MAX,
    ensures
        chosen@.len() == amount,
        chosen@.no_duplicates(),
        forall|i: int| 0 <= i < chosen@.len() ==> chosen@[i] < count,
{
    (0..count).choose_multiple(&mut rand::rng(), amount)
}

/// Calls `rand::Rng::sample` with `rand::distr::Alphanumeric` on the
/// generator of the current thread. The distribution picks a byte out of
/// the 62 ASCII letters and digits; which one is not stated.
#[verifier::external_body]
pub(crate) fn random_alphanumeric() -> (byte: u8)
    ensures
        is_alphanumeric(byte),
{
    rand::rng().sample(Alphanumeric)
}

} // verus!
