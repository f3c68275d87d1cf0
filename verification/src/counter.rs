//! The shared round counters: small files that hold a decimal number, which
//! every repairer raises by one when it is done with a phase of a round.
use vstd::prelude::*;

use crate::text::{
    bytes_as_chars, bytes_to_chars, chars_as_bytes, decimal, lemma_decimal_digits,
    lemma_digit_char, lemma_parse_decimal, parse_unsigned, parse_unsigned_chars,
};

verus! {

/// How many repairers take part in a round.
pub const REPAIRERS: u8 = 4;

/// Why the content of a counter could not be used.
#[derive(PartialEq, Eq, Structural, Clone, Copy, Debug)]
pub enum CounterError {
    /// The content is not the decimal text of a number from 0 to 255.
    NotANumber,
    /// The counter already holds 255 and cannot be raised.
    Overflow,
    /// The new text does not have the length of the counter it must replace.
    LengthMismatch,
}

/// The number a counter holds: its bytes read as text and parsed as a `u8`.
pub open spec fn spec_counter(b: Seq<u8>) -> Option<nat> {
    parse_unsigned(bytes_as_chars(b), 255)
}

/// The bytes of the decimal text of `n`.
pub open spec fn decimal_bytes(n: nat) -> Seq<u8> {
    chars_as_bytes(decimal(n))
}

/// What raising the counter `b` by one gives: the new bytes, or why there are
/// none.
pub open spec fn spec_bumped(b: Seq<u8>) -> Result<Seq<u8>, CounterError> {
    match spec_counter(b) {
        None => Err(CounterError::NotANumber),
        Some(v) => if v == 255 {
            Err(CounterError::Overflow)
        } else if decimal_bytes(v + 1).len() != b.len() {
            Err(CounterError::LengthMismatch)
        } else {
            Ok(decimal_bytes(v + 1))
        },
    }
}

/// The decimal text of `n`, as bytes.
pub fn decimal_to_bytes(n: u32) -> (v: Vec<u8>)
    ensures
        v@ == decimal_bytes(n as nat),
    decreases n,
{
    proof {
        lemma_digit_char((n % 10) as nat);
    }
    if n < 10 {
        let v: Vec<u8> = vec![(48 + n) as u8];
        assert(v@ =~= decimal_bytes(n as nat));
        v
    } else {
        let mut v = decimal_to_bytes(n / 10);
        v.push((48 + n % 10) as u8);
        assert(decimal(n as nat) == decimal((n / 10) as nat).push(
            crate::text::digit_char((n % 10) as nat),
        ));
        assert(v@ =~= decimal_bytes(n as nat));
        v
    }
}

/// The number that the counter `bytes` holds.
pub fn read_counter(bytes: &[u8]) -> (r: Option<u8>)
    ensures
        match spec_counter(bytes@) {
            Some(v) => r == Some(v as u8),
            None => r is None,
        },
{
    let chars = bytes_to_chars(bytes);
    match parse_unsigned_chars(&chars, 255) {
        Some(v) => Some(v as u8),
        None => None,
    }
}

/// The new content of a counter raised by one. The new text must have the
/// length of the old one, since it is written over it in place.
pub fn bump_counter(bytes: &[u8]) -> (r: Result<Vec<u8>, CounterError>)
    ensures
        match spec_bumped(bytes@) {
            Ok(b) => r matches Ok(v) && v@ == b,
            Err(e) => r == Err::<Vec<u8>, CounterError>(e),
        },
{
    match read_counter(bytes) {
        None => Err(CounterError::NotANumber),
        Some(v) => {
            if v == 255 {
                return Err(CounterError::Overflow);
            }
            let text = decimal_to_bytes(v as u32 + 1);
            if text.len() != bytes.len() {
                Err(CounterError::LengthMismatch)
            } else {
                Ok(text)
            }
        },
    }
}

/// Whether the counter shows that every repairer is done (its number is
/// `REPAIRERS`).
pub fn all_repairers_counted(counter: &[u8]) -> (r: Result<bool, CounterError>)
    ensures
        match spec_counter(counter@) {
            Some(v) => r == Ok::<bool, CounterError>(v == REPAIRERS),
            None => r == Err::<bool, CounterError>(CounterError::NotANumber),
        },
{
    match read_counter(counter) {
        Some(v) => Ok(v == REPAIRERS),
        None => Err(CounterError::NotANumber),
    }
}

/// Whether every repairer has finished its exploration, from the counter of
/// finished repairers.
pub fn check_dead_repairers(results_counter: &[u8]) -> (r: Result<bool, CounterError>)
    ensures
        match spec_counter(results_counter@) {
            Some(v) => r == Ok::<bool, CounterError>(v == REPAIRERS),
            None => r == Err::<bool, CounterError>(CounterError::NotANumber),
        },
{
    all_repairers_counted(results_counter)
}

/// Before the decision barrier the execution counter is cleared: the byte `0`
/// (the character `'0'`) is written over its first byte unless that byte is
/// the zero byte. The result is what to write there, if anything.
pub fn decision_barrier_reset(execute_counter: &[u8]) -> (r: Option<Vec<u8>>)
    requires
        execute_counter@.len() > 0,
    ensures
        execute_counter@[0] != 0 ==> (r matches Some(v) && v@ == seq![48u8]),
        execute_counter@[0] == 0 ==> r is None,
{
    if execute_counter[0] != 0 {
        Some(vec![48u8])
    } else {
        None
    }
}

/// Before the execution barrier the decision counter is set back to `0` when
/// it holds another number. The result is the new content, if any.
pub fn execute_barrier_reset(decision_counter: &[u8]) -> (r: Result<Option<Vec<u8>>, CounterError>)
    ensures
        match spec_counter(decision_counter@) {
            None => r == Err::<Option<Vec<u8>>, CounterError>(CounterError::NotANumber),
            Some(v) => if v == 0 {
                r == Ok::<Option<Vec<u8>>, CounterError>(None)
            } else if decision_counter@.len() != 1 {
                r == Err::<Option<Vec<u8>>, CounterError>(CounterError::LengthMismatch)
            } else {
                r matches Ok(Some(b)) && b@ == seq![48u8]
            },
        },
{
    match read_counter(decision_counter) {
        None => Err(CounterError::NotANumber),
        Some(v) => {
            if v == 0 {
                Ok(None)
            } else if decision_counter.len() != 1 {
                Err(CounterError::LengthMismatch)
            } else {
                Ok(Some(vec![48u8]))
            }
        },
    }
}

/// The text a counter is written as reads back as the same number.
pub proof fn lemma_counter_roundtrip(n: nat)
    requires
        n <= 255,
    ensures
        spec_counter(decimal_bytes(n)) == Some(n),
{
    lemma_decimal_digits(n);
    let s = decimal(n);
    assert forall|i: int| 0 <= i < s.len() implies (#[trigger] s[i]) as u8 as char == s[i] by {
        assert(crate::text::is_digit(s[i]));
    }
    assert(bytes_as_chars(decimal_bytes(n)) =~= s);
    lemma_parse_decimal(n, 255);
}

/// Raising a counter adds one to the number it holds.
pub proof fn lemma_bump_adds_one(b: Seq<u8>)
    requires
        spec_bumped(b) is Ok,
    ensures
        spec_counter(spec_bumped(b)->Ok_0) == Some((spec_counter(b)->Some_0 + 1) as nat),
{
    let v = spec_counter(b)->Some_0;
    lemma_counter_roundtrip(v + 1);
}

} // verus!
