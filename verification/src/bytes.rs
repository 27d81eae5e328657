//! Little-endian numbers, compact numbers and readings off the front of some bytes.

use vstd::prelude::*;

verus! {

/// What reading a value off the front of some bytes comes to: the value, or `None` where the
/// bytes hold none, and how many bytes the attempt takes away in either case.
pub struct Taken<V> {
    pub used: nat,
    pub value: Option<V>,
}

/// A reading that takes `used` bytes and yields `value`.
pub open spec fn got<V>(used: nat, value: V) -> Taken<V> {
    Taken { used, value: Some(value) }
}

/// A reading that takes `used` bytes and then fails.
pub open spec fn failed<V>(used: nat) -> Taken<V> {
    Taken { used, value: None }
}

/// The value that `result` carries, if it is `Ok`.
pub open spec fn ok_value<V, E>(result: Result<V, E>) -> Option<V> {
    match result {
        Ok(value) => Some(value),
        Err(_) => None,
    }
}

/// The tail of a tail is a tail.
pub proof fn lemma_suffix_trans(first: Seq<u8>, second: Seq<u8>, third: Seq<u8>)
    requires
        third.is_suffix_of(second),
        second.is_suffix_of(first),
    ensures
        third.is_suffix_of(first),
{
    assert(third =~= first.skip(first.len() - third.len()));
}

/// The beginning of a beginning is a beginning.
pub proof fn lemma_prefix_trans<A>(first: Seq<A>, second: Seq<A>, third: Seq<A>)
    requires
        first.is_prefix_of(second),
        second.is_prefix_of(third),
    ensures
        first.is_prefix_of(third),
{
    assert(first =~= third.take(first.len() as int));
}

/// The number whose little-endian digits in base 256 are `digits`.
pub open spec fn le_value(digits: Seq<u8>) -> nat
    decreases digits.len(),
{
    if digits.len() == 0 {
        0
    } else {
        digits[0] as nat + 256 * le_value(digits.skip(1))
    }
}

/// The `count` lowest digits of `value` in base 256, lowest first.
pub open spec fn le_digits(value: nat, count: nat) -> Seq<u8>
    decreases count,
{
    if count == 0 {
        Seq::empty()
    } else {
        seq![(value % 256) as u8] + le_digits(value / 256, (count - 1) as nat)
    }
}

/// The number in the first `count` bytes of `input`.
pub open spec fn le_front(input: Seq<u8>, count: nat) -> nat {
    le_value(input.take(count as int))
}

/// Reading a compact number of at most 32 bits. The two low bits of the first byte give the form
/// of the number, and a number in a longer form than it needs is refused.
pub open spec fn compact_front(input: Seq<u8>) -> Taken<nat> {
    if input.len() == 0 {
        failed(0)
    } else if input[0] % 4 == 0 {
        got(1, (input[0] / 4) as nat)
    } else if input[0] % 4 == 1 {
        if input.len() < 2 {
            failed(1)
        } else if le_front(input, 2) / 4 > 0x3f {
            got(2, le_front(input, 2) / 4)
        } else {
            failed(2)
        }
    } else if input[0] % 4 == 2 {
        if input.len() < 4 {
            failed(1)
        } else if le_front(input, 4) / 4 > 0x3fff {
            got(4, le_front(input, 4) / 4)
        } else {
            failed(4)
        }
    } else if input[0] != 3 || input.len() < 5 {
        failed(1)
    } else if le_front(input.skip(1), 4) > 0x3fff_ffff {
        got(5, le_front(input.skip(1), 4))
    } else {
        failed(5)
    }
}

/// The bytes of the compact form of `value`.
pub open spec fn compact_digits(value: nat) -> Seq<u8> {
    if value <= 0x3f {
        le_digits(4 * value, 1)
    } else if value <= 0x3fff {
        le_digits(4 * value + 1, 2)
    } else if value <= 0x3fff_ffff {
        le_digits(4 * value + 2, 4)
    } else {
        seq![3u8] + le_digits(value, 4)
    }
}

/// The digits of a number's value are the digits that it was read from.
pub proof fn lemma_le_round_trip(digits: Seq<u8>)
    ensures
        le_digits(le_value(digits), digits.len()) == digits,
    decreases digits.len(),
{
    if digits.len() > 0 {
        let rest = digits.skip(1);
        lemma_le_round_trip(rest);
        assert(le_value(digits) == digits[0] as nat + 256 * le_value(rest));
        assert(le_value(digits) / 256 == le_value(rest));
        assert(le_value(digits) % 256 == digits[0] as nat);
        assert(seq![digits[0]] + rest =~= digits);
    }
}

/// A number of one, two, four or eight digits in base 256 fits the machine type of that width.
pub proof fn lemma_le_value_bound(digits: Seq<u8>)
    ensures
        digits.len() == 1 ==> le_value(digits) <= 0xff,
        digits.len() == 2 ==> le_value(digits) <= 0xffff,
        digits.len() == 4 ==> le_value(digits) <= 0xffff_ffff,
        digits.len() == 8 ==> le_value(digits) <= 0xffff_ffff_ffff_ffff,
{
    reveal_with_fuel(le_value, 10);
}

/// A compact number that was read is written back as the bytes that it was read from.
pub proof fn lemma_compact_round_trip(input: Seq<u8>)
    ensures
        compact_front(input).used <= input.len(),
        compact_front(input).value matches Some(value) ==> {
            &&& value <= u32::MAX
            &&& compact_digits(value) == input.take(compact_front(input).used as int)
        },
{
    let taken = compact_front(input);
    if taken.value is Some {
        let value = taken.value->Some_0;
        let front = input.take(taken.used as int);
        if taken.used == 5 {
            let tail = input.skip(1).take(4);
            lemma_le_round_trip(tail);
            lemma_le_value_bound(tail);
            assert(seq![3u8] + tail =~= front);
        } else {
            lemma_le_round_trip(front);
            lemma_le_value_bound(front);
            assert(le_value(front) == front[0] as nat + 256 * le_value(front.skip(1)));
            assert(le_value(front) % 4 == front[0] as nat % 4);
            if taken.used == 1 {
                assert(front.skip(1) =~= Seq::empty());
                assert(le_value(front) == front[0] as nat);
            }
        }
    }
}

/// Reading a compact number looks at no byte past those that it takes.
pub proof fn lemma_compact_local(input: Seq<u8>, other: Seq<u8>)
    requires
        compact_front(input).value is Some,
        other.len() >= compact_front(input).used,
        other.take(compact_front(input).used as int) == input.take(
            compact_front(input).used as int,
        ),
    ensures
        compact_front(other) == compact_front(input),
{
    let used = compact_front(input).used as int;
    assert(input.take(used)[0] == other.take(used)[0]);
    if used == 5 {
        assert(input.skip(1).take(4) =~= input.take(5).skip(1));
        assert(other.skip(1).take(4) =~= other.take(5).skip(1));
    }
}

/// The number of values that `count` digits in base 256 can tell apart.
spec fn limit(count: nat) -> nat
    decreases count,
{
    if count == 0 {
        1
    } else {
        256 * limit((count - 1) as nat)
    }
}

/// The value of a number's digits is the number, where they are enough for it.
proof fn lemma_le_written(value: nat, count: nat)
    requires
        value < limit(count),
    ensures
        le_digits(value, count).len() == count,
        le_value(le_digits(value, count)) == value,
    decreases count,
{
    if count > 0 {
        let others = le_digits(value / 256, (count - 1) as nat);
        lemma_le_written(value / 256, (count - 1) as nat);
        assert(le_digits(value, count).skip(1) =~= others);
    }
}

/// Four digits are enough for a number of 32 bits.
pub proof fn lemma_four_written(value: nat)
    requires
        value <= u32::MAX,
    ensures
        le_digits(value, 4).len() == 4,
        le_value(le_digits(value, 4)) == value,
{
    reveal_with_fuel(limit, 5);
    lemma_le_written(value, 4);
}

/// A compact number that was written is read back, whatever comes after it.
pub proof fn lemma_compact_written(value: nat, tail: Seq<u8>)
    requires
        value <= u32::MAX,
    ensures
        compact_front(compact_digits(value) + tail) == got(compact_digits(value).len(), value),
{
    reveal_with_fuel(limit, 5);
    let digits = compact_digits(value);
    let input = digits + tail;
    if value <= 0x3fff_ffff {
        let (written, count): (nat, nat) = if value <= 0x3f {
            (4 * value, 1)
        } else if value <= 0x3fff {
            (4 * value + 1, 2)
        } else {
            (4 * value + 2, 4)
        };
        lemma_le_written(written, count);
        assert(digits[0] == (written % 256) as u8);
        assert(input.take(count as int) =~= digits);
    } else {
        lemma_le_written(value, 4);
        assert(input.skip(1).take(4) =~= le_digits(value, 4));
    }
}

} // verus!
