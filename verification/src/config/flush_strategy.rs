//! When the driving loop flushes: the policy and how it is read from its
//! configured text.
//!
//! The text `end` selects flushing at the end of an invocation, and
//! `periodically,` followed by a decimal number of milliseconds selects
//! flushing on a fixed cadence. Every other text selects the default, so
//! that a malformed setting never keeps the hosted function from running.

use vstd::prelude::*;
use vstd::string::StringSliceAdditionalSpecFns;

verus! {

/// The cadence of periodic flushing, in milliseconds.
#[derive(Clone, Copy, Debug, PartialEq, Eq, Structural)]
pub struct PeriodicStrategy {
    pub interval: u64,
}

/// The flush policy. It is a plain value: chosen once, never changed.
#[derive(Clone, Copy, Debug, PartialEq, Eq, Structural)]
pub enum FlushStrategy {
    /// Flush whenever the invocation cycle has idle time.
    Default,
    /// Flush only when the invocation is complete.
    End,
    /// Flush on a fixed cadence.
    Periodically(PeriodicStrategy),
}

/// Where the invocation cycle stands when the driving loop asks whether to
/// flush.
#[derive(Clone, Copy, Debug, PartialEq, Eq, Structural)]
pub enum Moment {
    /// An invocation is being served.
    Running,
    /// The cycle has idle time.
    Idle,
    /// The invocation is confirmed complete.
    InvocationEnd,
}

/// The bytes of the word `end`.
pub open spec fn end_word() -> Seq<u8> {
    seq![0x65u8, 0x6e, 0x64]
}

/// The bytes of `periodically,`.
pub open spec fn periodic_prefix() -> Seq<u8> {
    seq![0x70u8, 0x65, 0x72, 0x69, 0x6f, 0x64, 0x69, 0x63, 0x61, 0x6c, 0x6c, 0x79, 0x2c]
}

/// The byte is a decimal digit.
pub open spec fn is_digit(byte: u8) -> bool {
    0x30 <= byte <= 0x39
}

/// The bytes are one or more decimal digits.
pub open spec fn is_decimal(digits: Seq<u8>) -> bool {
    digits.len() > 0 && forall|i: int| 0 <= i < digits.len() ==> is_digit(#[trigger] digits[i])
}

/// The number that decimal digits write.
pub open spec fn decimal_value(digits: Seq<u8>) -> int
    decreases digits.len(),
{
    if digits.len() == 0 {
        0
    } else {
        decimal_value(digits.drop_last()) * 10 + (digits.last() - 0x30)
    }
}

/// The text selects periodic flushing: the prefix, then a decimal number
/// that fits into 64 bits.
pub open spec fn is_periodic(value: Seq<u8>) -> bool {
    &&& value.len() > periodic_prefix().len()
    &&& value.take(periodic_prefix().len() as int) == periodic_prefix()
    &&& is_decimal(value.skip(periodic_prefix().len() as int))
    &&& decimal_value(value.skip(periodic_prefix().len() as int)) <= u64::MAX
}

/// The policy that a configured text selects.
pub open spec fn strategy_of(value: Seq<u8>) -> FlushStrategy {
    if value == end_word() {
        FlushStrategy::End
    } else if is_periodic(value) {
        FlushStrategy::Periodically(
            PeriodicStrategy {
                interval: decimal_value(value.skip(periodic_prefix().len() as int)) as u64,
            },
        )
    } else {
        FlushStrategy::Default
    }
}

/// The digits written so far never write more than the whole number.
pub proof fn lemma_decimal_prefix(digits: Seq<u8>, n: int)
    requires
        0 <= n <= digits.len(),
        forall|i: int| 0 <= i < digits.len() ==> is_digit(#[trigger] digits[i]),
    ensures
        0 <= decimal_value(digits.take(n)) <= decimal_value(digits),
    decreases digits.len() - n,
{
    lemma_decimal_nonnegative(digits.take(n));
    if n == digits.len() {
        assert(digits.take(n) =~= digits);
    } else {
        assert(digits.take(n + 1).drop_last() =~= digits.take(n));
        assert(is_digit(digits[n]));
        assert(digits.take(n + 1).last() == digits[n]);
        lemma_decimal_prefix(digits, n + 1);
    }
}

/// Digits write no negative number.
pub proof fn lemma_decimal_nonnegative(digits: Seq<u8>)
    requires
        forall|i: int| 0 <= i < digits.len() ==> is_digit(#[trigger] digits[i]),
    ensures
        0 <= decimal_value(digits),
    decreases digits.len(),
{
    if digits.len() > 0 {
        lemma_decimal_nonnegative(digits.drop_last());
        assert(is_digit(digits[digits.len() - 1]));
    }
}

/// Reads a decimal number: one or more digits, nothing else, and a value
/// that fits into 64 bits.
pub fn parse_decimal(digits: &[u8]) -> (number: Option<u64>)
    ensures
        number is Some <==> is_decimal(digits@) && decimal_value(digits@) <= u64::MAX,
        number is Some ==> number->0 == decimal_value(digits@),
{
    if digits.len() == 0 {
        return None;
    }
    let mut value: u64 = 0;
    let mut i: usize = 0;
    assert(digits@.take(0) =~= Seq::<u8>::empty());
    while i < digits.len()
        invariant
            0 <= i <= digits@.len(),
            forall|j: int| 0 <= j < i ==> is_digit(#[trigger] digits@[j]),
            value == decimal_value(digits@.take(i as int)),
        decreases digits@.len() - i,
    {
        let byte = digits[i];
        if byte < 0x30 || byte > 0x39 {
            assert(!is_digit(digits@[i as int]));
            return None;
        }
        proof {
            assert(digits@.take(i + 1).drop_last() =~= digits@.take(i as int));
            assert(digits@.take(i + 1).last() == byte);
        }
        let digit: u64 = (byte - 0x30) as u64;
        if value > (u64::MAX - digit) / 10 {
            proof {
                assert(decimal_value(digits@.take(i + 1)) > u64::MAX);
                if is_decimal(digits@) {
                    lemma_decimal_prefix(digits@, i + 1);
                }
            }
            return None;
        }
        value = value * 10 + digit;
        i = i + 1;
    }
    assert(digits@.take(i as int) =~= digits@);
    Some(value)
}

/// Whether `value` begins with the bytes of `word`.
fn starts_with(value: &[u8], word: &[u8]) -> (yes: bool)
    ensures
        yes == (value@.len() >= word@.len() && value@.take(word@.len() as int) == word@),
{
    if value.len() < word.len() {
        return false;
    }
    let mut i: usize = 0;
    while i < word.len()
        invariant
            value@.len() >= word@.len(),
            0 <= i <= word@.len(),
            value@.take(i as int) =~= word@.take(i as int),
        decreases word@.len() - i,
    {
        if value[i] != word[i] {
            assert(value@.take(word@.len() as int)[i as int] != word@[i as int]);
            return false;
        }
        proof {
            assert(value@.take(i + 1) =~= value@.take(i as int).push(value@[i as int]));
            assert(word@.take(i + 1) =~= word@.take(i as int).push(word@[i as int]));
        }
        i = i + 1;
    }
    assert(word@.take(i as int) =~= word@);
    true
}

impl FlushStrategy {
    /// Reads the policy from the bytes of its configured text. No text is
    /// refused: what is neither `end` nor a well-formed periodic setting
    /// selects the default.
    pub fn from_bytes(value: &[u8]) -> (strategy: FlushStrategy)
        ensures
            strategy == strategy_of(value@),
    {
        let end: [u8; 3] = [0x65, 0x6e, 0x64];
        let prefix: [u8; 13] = [
            0x70,
            0x65,
            0x72,
            0x69,
            0x6f,
            0x64,
            0x69,
            0x63,
            0x61,
            0x6c,
            0x6c,
            0x79,
            0x2c,
        ];
        assert(end@ =~= end_word());
        assert(prefix@ =~= periodic_prefix());
        if value.len() == 3 && starts_with(value, end.as_slice()) {
            assert(value@.take(3) =~= value@);
            return FlushStrategy::End;
        }
        assert(value@ != end_word()) by {
            if value@.len() == 3 {
                assert(value@.take(3) =~= value@);
            } else {
                assert(end_word().len() == 3);
            }
        }
        if value.len() > 13 && starts_with(value, prefix.as_slice()) {
            let digits = vstd::slice::slice_subrange(value, 13, value.len());
            assert(digits@ =~= value@.skip(13));
            match parse_decimal(digits) {
                Some(interval) => FlushStrategy::Periodically(PeriodicStrategy { interval }),
                None => FlushStrategy::Default,
            }
        } else {
            FlushStrategy::Default
        }
    }

    /// Reads the policy from its configured text.
    pub fn parse(value: &str) -> (strategy: FlushStrategy)
        ensures
            strategy == strategy_of(value.spec_bytes()),
    {
        FlushStrategy::from_bytes(value.as_bytes())
    }

    /// Whether the driving loop flushes now, given where the invocation
    /// cycle stands and how many milliseconds have passed since the last
    /// flush. The default flushes in idle time, `End` when the invocation
    /// is complete, and the periodic policy whenever its interval has
    /// passed, wherever the cycle stands.
    pub fn should_flush(&self, moment: Moment, elapsed_ms: u64) -> (flush: bool)
        ensures
            flush == match *self {
                FlushStrategy::Default => moment == Moment::Idle,
                FlushStrategy::End => moment == Moment::InvocationEnd,
                FlushStrategy::Periodically(periodic) => elapsed_ms >= periodic.interval,
            },
    {
        match self {
            FlushStrategy::Default => moment == Moment::Idle,
            FlushStrategy::End => moment == Moment::InvocationEnd,
            FlushStrategy::Periodically(periodic) => elapsed_ms >= periodic.interval,
        }
    }
}

impl Default for FlushStrategy {
    /// The policy in use where none is configured.
    fn default() -> (strategy: FlushStrategy)
        ensures
            strategy == FlushStrategy::Default,
    {
        FlushStrategy::Default
    }
}

} // verus!
