//! Random choices: how many houses are broken and where they lie.
use rand::seq::SliceRandom;
use rand::Rng;
use vstd::prelude::*;

verus! {

/// Puts the items of `v` in a random order with `SliceRandom::shuffle` of
/// the `rand` crate, using the thread's generator. The items stay the same,
/// each as often as before; which order comes out is left open.
#[verifier::external_body]
fn shuffle_values(v: &mut Vec<i32>)
    ensures
        final(v)@.to_multiset() == old(v)@.to_multiset(),
{
    v.shuffle(&mut rand::thread_rng());
}

/// A random number from `low` up to, not including, `high`, drawn with
/// `Rng::gen_range` of the `rand` crate on the thread's generator (which
/// panics on an empty range).
#[verifier::external_body]
pub(crate) fn random_in_range(low: i32, high: i32) -> (r: i32)
    requires
        low < high,
    ensures
        low <= r < high,
{
    rand::thread_rng().gen_range(low..high)
}

/// How many numbers lie from `min` up to, not including, `max`.
pub open spec fn range_len(min: i32, max: i32) -> nat {
    if max > min {
        (max - min) as nat
    } else {
        0
    }
}

/// How many numbers `gen_rand_index` draws: `amount`, but no more than the
/// range holds (a negative `amount` asks for all of them).
pub open spec fn drawn_len(amount: i32, min: i32, max: i32) -> nat {
    if amount < 0 || amount >= range_len(min, max) {
        range_len(min, max)
    } else {
        amount as nat
    }
}

/// Draws `amount` different numbers from `min` up to, not including, `max`,
/// in random order (all of them where the range holds fewer).
pub fn gen_rand_index(amount: i32, min: i32, max: i32) -> (r: Vec<i32>)
    ensures
        r@.len() == drawn_len(amount, min, max),
        r@.no_duplicates(),
        forall|i: int| 0 <= i < r@.len() ==> min <= #[trigger] r@[i] < max,
{
    let mut numbers: Vec<i32> = Vec::new();
    let mut x: i32 = min;
    while x < max
        invariant
            min <= x,
            x <= max || x == min,
            numbers@.len() == x - min,
            forall|i: int| 0 <= i < numbers@.len() ==> #[trigger] numbers@[i] == min + i,
        decreases max - x,
    {
        numbers.push(x);
        x = x + 1;
    }
    assert(numbers@.len() == range_len(min, max));
    assert(numbers@.no_duplicates());
    let ghost before = numbers@;
    proof {
        before.lemma_multiset_has_no_duplicates();
    }
    shuffle_values(&mut numbers);
    proof {
        broadcast use vstd::seq_lib::group_to_multiset_ensures;

        assert(numbers@.len() == before.len()) by {
            assert(numbers@.to_multiset().len() == before.to_multiset().len());
        }
        numbers@.lemma_multiset_has_no_duplicates_conv();
        assert forall|i: int| 0 <= i < numbers@.len() implies min <= #[trigger] numbers@[i] < max by {
            assert(numbers@.contains(numbers@[i]));
            assert(numbers@.to_multiset().count(numbers@[i]) > 0);
            assert(before.contains(numbers@[i]));
        }
    }
    let n = numbers.len();
    if amount >= 0 && (amount as usize) < n {
        numbers.truncate(amount as usize);
    }
    numbers
}

} // verus!
