//! The values that events carry, their encoded forms, and what a walk makes of these.

use vstd::prelude::*;

use crate::bytes::{
    compact_digits, compact_front, lemma_compact_round_trip, lemma_compact_written,
};
use crate::codec::byte_front;
use crate::laws::{
    all_faithful, all_local, all_within, lemma_plain_split, looked_into, plain,
};
use crate::metadata::{primitives_of, primitives_of_all, EventArg, Metadata};
use crate::run::{run_arg, run_args, run_repeated, Progress, Registry};
use crate::segment::{faithful, local, starts_alike, within, Segmenter};

verus! {

/// A value of an argument type.
pub enum ArgValue {
    /// A value of a primitive type, in encoded form.
    Primitive(Seq<u8>),
    /// The values of a vector.
    Vec(Seq<ArgValue>),
    /// Values of several types.
    Tuple(Seq<ArgValue>),
    /// An option without a value.
    Absent,
    /// An option with a value.
    Present(Box<ArgValue>),
}

/// The encoded form of a value.
pub open spec fn encoded(value: ArgValue) -> Seq<u8>
    decreases value,
{
    match value {
        ArgValue::Primitive(bytes) => bytes,
        ArgValue::Vec(values) => compact_digits(values.len()) + encoded_all(values),
        ArgValue::Tuple(values) => encoded_all(values),
        ArgValue::Absent => seq![0u8],
        ArgValue::Present(value) => seq![1u8] + encoded(*value),
    }
}

/// The encoded forms of some values, one after the other.
pub open spec fn encoded_all(values: Seq<ArgValue>) -> Seq<u8>
    decreases values,
{
    if values.len() == 0 {
        Seq::empty()
    } else {
        encoded(values[0]) + encoded_all(values.skip(1))
    }
}

/// The bytes are the encoded form of a value: read to their end, they are put out unchanged.
pub open spec fn is_encoded(segmenter: Segmenter, bytes: Seq<u8>) -> bool {
    segmenter(bytes).used == bytes.len() && segmenter(bytes).value == Some(bytes)
}

/// `value` is a value of the type `arg`, which involves no dispatch outcomes.
pub open spec fn has_type(registry: Registry, arg: EventArg, value: ArgValue) -> bool
    decreases arg,
{
    match (arg, value) {
        (EventArg::Primitive(name), ArgValue::Primitive(bytes)) => {
            &&& !looked_into(name@)
            &&& registry.dom().contains(name@)
            &&& is_encoded(registry[name@], bytes)
        },
        (EventArg::Vec(inner), ArgValue::Vec(values)) => {
            &&& values.len() <= u32::MAX
            &&& forall|i: int|
                0 <= i < values.len() ==> has_type(registry, *inner, #[trigger] values[i])
        },
        (EventArg::Tuple(args), ArgValue::Tuple(values)) => have_types(registry, args@, values),
        (EventArg::Option(_), ArgValue::Absent) => true,
        (EventArg::Option(inner), ArgValue::Present(value)) => has_type(registry, *inner, *value),
        _ => false,
    }
}

/// `values` are values of the types `args`, one of each.
pub open spec fn have_types(registry: Registry, args: Seq<EventArg>, values: Seq<ArgValue>) -> bool
    decreases args,
{
    if args.len() == 0 || values.len() == 0 {
        args.len() == values.len()
    } else {
        has_type(registry, args[0], values[0]) && have_types(
            registry,
            args.skip(1),
            values.skip(1),
        )
    }
}

/// The walk `from` where `bytes` come before `tail`.
pub open spec fn before(from: Progress, bytes: Seq<u8>, tail: Seq<u8>) -> Progress {
    Progress { rest: bytes + tail, ..from }
}

/// The walk `from` where `bytes` have been copied and `tail` is left.
pub open spec fn past(from: Progress, bytes: Seq<u8>, tail: Seq<u8>) -> Progress {
    Progress { rest: tail, output: from.output + bytes, ..from }
}

/// A walk over an argument type accepts the encoded form of every value of the type, puts it out
/// unchanged, notes nothing and leaves what follows.
pub proof fn law_arg_accepts(
    registry: Registry,
    metadata: Metadata,
    arg: EventArg,
    value: ArgValue,
    from: Progress,
    tail: Seq<u8>,
)
    requires
        all_local(registry),
        has_type(registry, arg, value),
        from.failure is None,
    ensures
        run_arg(registry, metadata, arg, before(from, encoded(value), tail)) == past(
            from,
            encoded(value),
            tail,
        ),
    decreases arg, 0nat,
{
    let bytes = encoded(value);
    let start = before(from, bytes, tail);
    match (arg, value) {
        (EventArg::Primitive(name), ArgValue::Primitive(_)) => {
            let segmenter = registry[name@];
            assert(start.rest.take(bytes.len() as int) =~= bytes.take(bytes.len() as int));
            assert(starts_alike(bytes, start.rest, segmenter(bytes).used));
            assert(segmenter(start.rest) == segmenter(bytes));
            assert(start.rest.skip(bytes.len() as int) =~= tail);
        },
        (EventArg::Vec(inner), ArgValue::Vec(values)) => {
            let count = compact_digits(values.len());
            let after = encoded_all(values) + tail;
            assert(start.rest =~= count + after);
            lemma_compact_written(values.len(), after);
            assert(start.rest.skip(count.len() as int) =~= after);
            let next = Progress { output: from.output + count, ..from };
            law_repeated_accepts(registry, metadata, *inner, values, next, tail);
            assert(from.output + count + encoded_all(values) =~= from.output + bytes);
        },
        (EventArg::Tuple(args), ArgValue::Tuple(values)) => {
            law_args_accept(registry, metadata, args@, values, from, tail);
        },
        (EventArg::Option(_), ArgValue::Absent) => {
            assert(start.rest.skip(1) =~= tail);
        },
        (EventArg::Option(inner), ArgValue::Present(value)) => {
            assert(start.rest.skip(1) =~= encoded(*value) + tail);
            let next = Progress { output: from.output + seq![1u8], ..from };
            law_arg_accepts(registry, metadata, *inner, *value, next, tail);
            assert(from.output + seq![1u8] + encoded(*value) =~= from.output + bytes);
        },
        _ => {},
    }
}

/// A walk over a repeated argument type accepts the encoded forms of as many values of the type.
pub proof fn law_repeated_accepts(
    registry: Registry,
    metadata: Metadata,
    arg: EventArg,
    values: Seq<ArgValue>,
    from: Progress,
    tail: Seq<u8>,
)
    requires
        all_local(registry),
        forall|i: int| 0 <= i < values.len() ==> has_type(registry, arg, #[trigger] values[i]),
        from.failure is None,
    ensures
        run_repeated(
            registry,
            metadata,
            arg,
            values.len(),
            before(from, encoded_all(values), tail),
        ) == past(from, encoded_all(values), tail),
    decreases arg, values.len() + 1,
{
    let start = before(from, encoded_all(values), tail);
    if values.len() == 0 {
        assert(start.rest =~= tail);
        assert(from.output + encoded_all(values) =~= from.output);
    } else {
        let others = values.skip(1);
        let first = encoded(values[0]);
        let after = encoded_all(others) + tail;
        assert(start.rest =~= first + after);
        assert(has_type(registry, arg, values[0]));
        law_arg_accepts(registry, metadata, arg, values[0], from, after);
        assert forall|i: int| 0 <= i < others.len() implies has_type(
            registry,
            arg,
            #[trigger] others[i],
        ) by {
            assert(others[i] == values[i + 1]);
        }
        let next = Progress { output: from.output + first, ..from };
        law_repeated_accepts(registry, metadata, arg, others, next, tail);
        assert(from.output + first + encoded_all(others) =~= from.output + encoded_all(values));
    }
}

/// A walk over several argument types accepts the encoded forms of any values of these types, one
/// after the other, puts them out unchanged, notes nothing and leaves what follows.
pub proof fn law_args_accept(
    registry: Registry,
    metadata: Metadata,
    args: Seq<EventArg>,
    values: Seq<ArgValue>,
    from: Progress,
    tail: Seq<u8>,
)
    requires
        all_local(registry),
        have_types(registry, args, values),
        from.failure is None,
    ensures
        run_args(registry, metadata, args, before(from, encoded_all(values), tail)) == past(
            from,
            encoded_all(values),
            tail,
        ),
    decreases args, 0nat,
{
    let start = before(from, encoded_all(values), tail);
    if args.len() == 0 {
        assert(start.rest =~= tail);
        assert(from.output + encoded_all(values) =~= from.output);
    } else {
        let others = values.skip(1);
        let first = encoded(values[0]);
        let after = encoded_all(others) + tail;
        assert(start.rest =~= first + after);
        law_arg_accepts(registry, metadata, args[0], values[0], from, after);
        let next = Progress { output: from.output + first, ..from };
        law_args_accept(registry, metadata, args.skip(1), others, next, tail);
        assert(from.output + first + encoded_all(others) =~= from.output + encoded_all(values));
    }
}

/// Copying some bytes and then others is copying them all.
proof fn lemma_past_past(
    from: Progress,
    next: Progress,
    end: Progress,
    first: Seq<u8>,
    others: Seq<u8>,
)
    requires
        from.rest == first + next.rest,
        next == past(from, first, next.rest),
        next.rest == others + end.rest,
        end == past(next, others, end.rest),
    ensures
        from.rest == (first + others) + end.rest,
        end == past(from, first + others, end.rest),
{
    assert(from.rest =~= (first + others) + end.rest);
    assert(from.output + first + others =~= from.output + (first + others));
}

/// What a segmenter reads off an input is the encoded form of a value.
proof fn lemma_primitive_encoded(segmenter: Segmenter, input: Seq<u8>)
    requires
        within(segmenter),
        faithful(segmenter),
        local(segmenter),
        segmenter(input).value is Some,
    ensures
        ({
            let used = segmenter(input).used as int;
            &&& is_encoded(segmenter, input.take(used))
            &&& segmenter(input).value == Some(input.take(used))
            &&& input == input.take(used) + input.skip(used)
        }),
{
    let used = segmenter(input).used;
    assert(used <= input.len());
    let bytes = input.take(used as int);
    assert(bytes.take(used as int) =~= bytes);
    assert(starts_alike(input, bytes, used));
    assert(segmenter(bytes) == segmenter(input));
    assert(input =~= bytes + input.skip(used as int));
}

/// Every walk over an argument type without dispatch outcomes that comes to its end has read the
/// encoded form of some value of the type.
pub proof fn law_arg_reads_value(
    registry: Registry,
    metadata: Metadata,
    arg: EventArg,
    from: Progress,
) -> (value: ArgValue)
    requires
        all_within(registry),
        all_faithful(registry),
        all_local(registry),
        plain(primitives_of(arg)),
        from.failure is None,
        run_arg(registry, metadata, arg, from).failure is None,
    ensures
        has_type(registry, arg, value),
        ({
            let end = run_arg(registry, metadata, arg, from);
            &&& from.rest == encoded(value) + end.rest
            &&& end == past(from, encoded(value), end.rest)
        }),
    decreases arg, 0nat,
{
    let end = run_arg(registry, metadata, arg, from);
    match arg {
        EventArg::Primitive(name) => {
            assert(primitives_of(arg)[0] == name@);
            lemma_primitive_encoded(registry[name@], from.rest);
            ArgValue::Primitive(from.rest.take(registry[name@](from.rest).used as int))
        },
        EventArg::Tuple(args) => {
            ArgValue::Tuple(law_args_read_values(registry, metadata, args@, from))
        },
        EventArg::Vec(inner) => {
            lemma_compact_round_trip(from.rest);
            let used = compact_front(from.rest).used;
            let count = compact_front(from.rest).value->Some_0;
            let digits = compact_digits(count);
            let start = from.take(used).put(digits);
            let values = law_repeated_reads_values(registry, metadata, *inner, count, start);
            assert(from.rest =~= digits + start.rest);
            lemma_past_past(from, start, end, digits, encoded_all(values));
            ArgValue::Vec(values)
        },
        EventArg::Option(inner) => {
            if byte_front(from.rest).value == Some(0u8) {
                assert(from.rest =~= seq![0u8] + end.rest);
                ArgValue::Absent
            } else {
                let start = from.take(1).put(seq![1u8]);
                let value = law_arg_reads_value(registry, metadata, *inner, start);
                assert(from.rest =~= seq![1u8] + start.rest);
                lemma_past_past(from, start, end, seq![1u8], encoded(value));
                ArgValue::Present(Box::new(value))
            }
        },
    }
}

/// Every walk over a repeated argument type without dispatch outcomes that comes to its end has
/// read the encoded forms of as many values of the type.
pub proof fn law_repeated_reads_values(
    registry: Registry,
    metadata: Metadata,
    arg: EventArg,
    count: nat,
    from: Progress,
) -> (values: Seq<ArgValue>)
    requires
        all_within(registry),
        all_faithful(registry),
        all_local(registry),
        plain(primitives_of(arg)),
        from.failure is None,
        run_repeated(registry, metadata, arg, count, from).failure is None,
    ensures
        values.len() == count,
        forall|i: int| 0 <= i < values.len() ==> has_type(registry, arg, #[trigger] values[i]),
        ({
            let end = run_repeated(registry, metadata, arg, count, from);
            &&& from.rest == encoded_all(values) + end.rest
            &&& end == past(from, encoded_all(values), end.rest)
        }),
    decreases arg, count + 1,
{
    let end = run_repeated(registry, metadata, arg, count, from);
    if count == 0 {
        assert(from.rest =~= Seq::<u8>::empty() + end.rest);
        assert(from.output + Seq::<u8>::empty() =~= from.output);
        Seq::empty()
    } else {
        let next = run_arg(registry, metadata, arg, from);
        assert(next.failure is Some ==> run_repeated(
            registry,
            metadata,
            arg,
            (count - 1) as nat,
            next,
        ) == next);
        let first = law_arg_reads_value(registry, metadata, arg, from);
        let others = law_repeated_reads_values(registry, metadata, arg, (count - 1) as nat, next);
        lemma_first_and_others(from, next, end, first, others);
        seq![first] + others
    }
}

/// Every walk over several argument types without dispatch outcomes that comes to its end has read
/// the encoded forms of some values of these types, one of each.
pub proof fn law_args_read_values(
    registry: Registry,
    metadata: Metadata,
    args: Seq<EventArg>,
    from: Progress,
) -> (values: Seq<ArgValue>)
    requires
        all_within(registry),
        all_faithful(registry),
        all_local(registry),
        plain(primitives_of_all(args)),
        from.failure is None,
        run_args(registry, metadata, args, from).failure is None,
    ensures
        have_types(registry, args, values),
        ({
            let end = run_args(registry, metadata, args, from);
            &&& from.rest == encoded_all(values) + end.rest
            &&& end == past(from, encoded_all(values), end.rest)
        }),
    decreases args, 0nat,
{
    let end = run_args(registry, metadata, args, from);
    if args.len() == 0 {
        assert(from.rest =~= Seq::<u8>::empty() + end.rest);
        assert(from.output + Seq::<u8>::empty() =~= from.output);
        Seq::empty()
    } else {
        let next = run_arg(registry, metadata, args[0], from);
        assert(next.failure is Some ==> run_args(registry, metadata, args.skip(1), next) == next);
        lemma_plain_split(primitives_of(args[0]), primitives_of_all(args.skip(1)));
        let first = law_arg_reads_value(registry, metadata, args[0], from);
        let others = law_args_read_values(registry, metadata, args.skip(1), next);
        lemma_first_and_others(from, next, end, first, others);
        seq![first] + others
    }
}

/// A walk that has read a value and then others has read them all.
proof fn lemma_first_and_others(
    from: Progress,
    next: Progress,
    end: Progress,
    first: ArgValue,
    others: Seq<ArgValue>,
)
    requires
        from.rest == encoded(first) + next.rest,
        next == past(from, encoded(first), next.rest),
        next.rest == encoded_all(others) + end.rest,
        end == past(next, encoded_all(others), end.rest),
    ensures
        (seq![first] + others).skip(1) == others,
        from.rest == encoded_all(seq![first] + others) + end.rest,
        end == past(from, encoded_all(seq![first] + others), end.rest),
{
    assert((seq![first] + others).skip(1) =~= others);
    lemma_past_past(from, next, end, encoded(first), encoded_all(others));
}

} // verus!
