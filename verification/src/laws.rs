//! What holds of every walk over argument types.

use vstd::prelude::*;

use crate::bytes::{
    compact_digits, compact_front, lemma_compact_local, lemma_compact_round_trip, Taken,
};
use crate::codec::{byte_front, dispatch_error_front, dispatch_result_front, DispatchErrorView};
use crate::error::Failure;
use crate::metadata::{primitives_of, primitives_of_all, EventArg, Metadata};
use crate::run::{
    failed_dispatch, fresh, run_arg, run_args, run_dispatch, run_repeated, Progress, Registry,
};
use crate::segment::{faithful, local, starts_alike, within};

verus! {

/// No registered segmenter takes more bytes than there are.
pub open spec fn all_within(registry: Registry) -> bool {
    forall|name: Seq<char>| #[trigger]
        registry.dom().contains(name) ==> within(registry[name])
}

/// Every registered segmenter puts out the bytes that it read.
pub open spec fn all_faithful(registry: Registry) -> bool {
    forall|name: Seq<char>| #[trigger]
        registry.dom().contains(name) ==> faithful(registry[name])
}

/// No registered segmenter looks past the bytes of a value that it reads.
pub open spec fn all_local(registry: Registry) -> bool {
    forall|name: Seq<char>| #[trigger] registry.dom().contains(name) ==> local(registry[name])
}

/// The number of bytes that a walk has read between two points.
pub open spec fn read_between(from: Progress, end: Progress) -> int {
    from.rest.len() - end.rest.len()
}

/// What a walk leaves to read is the tail of what it had to read, and what it has put out and
/// noted before stays as it was.
pub open spec fn extends(from: Progress, end: Progress) -> bool {
    &&& read_between(from, end) >= 0
    &&& end.rest == from.rest.skip(read_between(from, end))
    &&& from.output.is_prefix_of(end.output)
    &&& from.errors.is_prefix_of(end.errors)
}

proof fn lemma_extends_trans(a: Progress, b: Progress, c: Progress)
    requires
        extends(a, b),
        extends(b, c),
    ensures
        extends(a, c),
        read_between(a, c) == read_between(a, b) + read_between(b, c),
{
    assert(c.rest =~= a.rest.skip(read_between(a, c)));
    assert(a.output =~= c.output.take(a.output.len() as int));
    assert(a.errors =~= c.errors.take(a.errors.len() as int));
}

/// Taking bytes that are there, and putting out some, extends a walk.
proof fn lemma_take_put(from: Progress, used: nat, bytes: Seq<u8>)
    requires
        used <= from.rest.len(),
    ensures
        extends(from, from.take(used)),
        read_between(from, from.take(used)) == used,
        extends(from, from.take(used).put(bytes)),
        read_between(from, from.take(used).put(bytes)) == used,
{
    assert(from.output =~= (from.output + bytes).take(from.output.len() as int));
    assert(from.output =~= from.output.take(from.output.len() as int));
    assert(from.errors =~= from.errors.take(from.errors.len() as int));
}

proof fn lemma_dispatch_within(input: Seq<u8>)
    ensures
        dispatch_error_front(input).used <= input.len(),
        failed_dispatch(input).used <= input.len(),
        dispatch_result_front(input).used <= input.len(),
{
}

proof fn lemma_run_dispatch_extends(
    metadata: Metadata,
    outcome: Taken<Option<DispatchErrorView>>,
    from: Progress,
)
    requires
        outcome.used <= from.rest.len(),
    ensures
        extends(from, run_dispatch(metadata, outcome, from)),
        run_dispatch(metadata, outcome, from).output == from.output,
{
    lemma_take_put(from, outcome.used, Seq::empty());
    let end = run_dispatch(metadata, outcome, from);
    assert(from.errors =~= end.errors.take(from.errors.len() as int));
}

/// What a walk has put out and noted before stays as it was.
pub open spec fn appends(from: Progress, end: Progress) -> bool {
    &&& from.output.is_prefix_of(end.output)
    &&& from.errors.is_prefix_of(end.errors)
}

proof fn lemma_appends_trans(a: Progress, b: Progress, c: Progress)
    requires
        appends(a, b),
        appends(b, c),
    ensures
        appends(a, c),
{
    assert(a.output =~= c.output.take(a.output.len() as int));
    assert(a.errors =~= c.errors.take(a.errors.len() as int));
}

/// A walk over one argument type only appends to what was put out and noted before it, whether it
/// comes to its end or stops on the way.
pub proof fn law_arg_appends(
    registry: Registry,
    metadata: Metadata,
    arg: EventArg,
    from: Progress,
)
    ensures
        appends(from, run_arg(registry, metadata, arg, from)),
    decreases arg, 0nat,
{
    let end = run_arg(registry, metadata, arg, from);
    match arg {
        EventArg::Primitive(_) => {
            assert(from.output =~= end.output.take(from.output.len() as int));
            assert(from.errors =~= end.errors.take(from.errors.len() as int));
        },
        EventArg::Tuple(args) => {
            law_args_append(registry, metadata, args@, from);
        },
        EventArg::Vec(inner) => {
            let count = compact_front(from.rest);
            if let Some(value) = count.value {
                let start = from.take(count.used).put(compact_digits(value));
                assert(appends(from, start));
                law_repeated_appends(registry, metadata, *inner, value, start);
                lemma_appends_trans(from, start, end);
            }
        },
        EventArg::Option(inner) => {
            let start = from.take(byte_front(from.rest).used).put(seq![1u8]);
            assert(appends(from, start));
            law_arg_appends(registry, metadata, *inner, start);
            lemma_appends_trans(from, start, run_arg(registry, metadata, *inner, start));
        },
    }
}

/// A walk over a repeated argument type only appends, as one over a single argument type does.
pub proof fn law_repeated_appends(
    registry: Registry,
    metadata: Metadata,
    arg: EventArg,
    count: nat,
    from: Progress,
)
    ensures
        appends(from, run_repeated(registry, metadata, arg, count, from)),
    decreases arg, count + 1,
{
    lemma_extends_refl(from);
    if count > 0 && from.failure is None {
        let next = run_arg(registry, metadata, arg, from);
        law_arg_appends(registry, metadata, arg, from);
        law_repeated_appends(registry, metadata, arg, (count - 1) as nat, next);
        lemma_appends_trans(
            from,
            next,
            run_repeated(registry, metadata, arg, (count - 1) as nat, next),
        );
    }
}

/// A walk over several argument types only appends to what was put out and noted before it, whether
/// it comes to its end or stops on the way.
pub proof fn law_args_append(
    registry: Registry,
    metadata: Metadata,
    args: Seq<EventArg>,
    from: Progress,
)
    ensures
        appends(from, run_args(registry, metadata, args, from)),
    decreases args, 0nat,
{
    lemma_extends_refl(from);
    if args.len() > 0 && from.failure is None {
        let next = run_arg(registry, metadata, args[0], from);
        law_arg_appends(registry, metadata, args[0], from);
        law_args_append(registry, metadata, args.skip(1), next);
        lemma_appends_trans(from, next, run_args(registry, metadata, args.skip(1), next));
    }
}

/// A walk over one argument type takes bytes only off the front of its input, and leaves what was
/// put out and noted before it as it was, whether it comes to its end or stops on the way.
pub proof fn law_arg_extends(
    registry: Registry,
    metadata: Metadata,
    arg: EventArg,
    from: Progress,
)
    requires
        all_within(registry),
    ensures
        extends(from, run_arg(registry, metadata, arg, from)),
    decreases arg, 0nat,
{
    match arg {
        EventArg::Primitive(name) => {
            lemma_dispatch_within(from.rest);
            lemma_run_dispatch_extends(metadata, dispatch_result_front(from.rest), from);
            lemma_run_dispatch_extends(metadata, failed_dispatch(from.rest), from);
            lemma_take_put(from, 0, Seq::empty());
            if registry.dom().contains(name@) {
                let taken = registry[name@](from.rest);
                assert(taken.used <= from.rest.len());
                lemma_take_put(
                    from,
                    taken.used,
                    match taken.value {
                        Some(bytes) => bytes,
                        None => Seq::empty(),
                    },
                );
            }
            assert(from.rest.skip(0) =~= from.rest);
        },
        EventArg::Tuple(args) => {
            law_args_extend(registry, metadata, args@, from);
        },
        EventArg::Vec(inner) => {
            lemma_compact_round_trip(from.rest);
            let count = compact_front(from.rest);
            lemma_take_put(from, count.used, Seq::empty());
            if let Some(value) = count.value {
                let start = from.take(count.used).put(compact_digits(value));
                lemma_take_put(from, count.used, compact_digits(value));
                law_repeated_extends(registry, metadata, *inner, value, start);
                lemma_extends_trans(
                    from,
                    start,
                    run_repeated(registry, metadata, *inner, value, start),
                );
            }
        },
        EventArg::Option(inner) => {
            let flag = byte_front(from.rest);
            lemma_take_put(from, flag.used, seq![0u8]);
            lemma_take_put(from, flag.used, seq![1u8]);
            let start = from.take(flag.used).put(seq![1u8]);
            law_arg_extends(registry, metadata, *inner, start);
            lemma_extends_trans(from, start, run_arg(registry, metadata, *inner, start));
        },
    }
}

/// A walk over a repeated argument type extends as one over a single argument type does.
pub proof fn law_repeated_extends(
    registry: Registry,
    metadata: Metadata,
    arg: EventArg,
    count: nat,
    from: Progress,
)
    requires
        all_within(registry),
    ensures
        extends(from, run_repeated(registry, metadata, arg, count, from)),
    decreases arg, count + 1,
{
    lemma_extends_refl(from);
    if count > 0 && from.failure is None {
        let next = run_arg(registry, metadata, arg, from);
        law_arg_extends(registry, metadata, arg, from);
        law_repeated_extends(registry, metadata, arg, (count - 1) as nat, next);
        lemma_extends_trans(
            from,
            next,
            run_repeated(registry, metadata, arg, (count - 1) as nat, next),
        );
    }
}

/// A walk over several argument types extends as one over a single argument type does.
pub proof fn law_args_extend(
    registry: Registry,
    metadata: Metadata,
    args: Seq<EventArg>,
    from: Progress,
)
    requires
        all_within(registry),
    ensures
        extends(from, run_args(registry, metadata, args, from)),
    decreases args, 0nat,
{
    lemma_extends_refl(from);
    if args.len() > 0 && from.failure is None {
        let next = run_arg(registry, metadata, args[0], from);
        law_arg_extends(registry, metadata, args[0], from);
        law_args_extend(registry, metadata, args.skip(1), next);
        lemma_extends_trans(from, next, run_args(registry, metadata, args.skip(1), next));
    }
}

proof fn lemma_extends_refl(from: Progress)
    ensures
        extends(from, from),
{
    assert(from.rest.skip(0) =~= from.rest);
    assert(from.output =~= from.output.take(from.output.len() as int));
    assert(from.errors =~= from.errors.take(from.errors.len() as int));
}

/// Walking over two lists of argument types one after the other is walking over both as one list.
pub proof fn law_args_in_sequence(
    registry: Registry,
    metadata: Metadata,
    first: Seq<EventArg>,
    second: Seq<EventArg>,
    from: Progress,
)
    ensures
        run_args(registry, metadata, first + second, from) == run_args(
            registry,
            metadata,
            second,
            run_args(registry, metadata, first, from),
        ),
    decreases first.len(),
{
    if first.len() == 0 {
        assert(first + second =~= second);
    } else if from.failure is None {
        assert((first + second).skip(1) =~= first.skip(1) + second);
        law_args_in_sequence(
            registry,
            metadata,
            first.skip(1),
            second,
            run_arg(registry, metadata, first[0], from),
        );
    }
}

/// The name is that of a type whose values the walk looks into.
pub open spec fn looked_into(name: Seq<char>) -> bool {
    name == "DispatchResult"@ || name == "DispatchError"@
}

/// None of the primitive types is one whose values the walk looks into.
pub open spec fn plain(names: Seq<Seq<char>>) -> bool {
    forall|i: int| 0 <= i < names.len() ==> !looked_into(#[trigger] names[i])
}

/// A walk has put out exactly the bytes that it has read, and has noted nothing.
pub open spec fn copies(from: Progress, end: Progress) -> bool {
    &&& extends(from, end)
    &&& end.output == from.output + from.rest.take(read_between(from, end))
    &&& end.errors == from.errors
}

proof fn lemma_copies_trans(a: Progress, b: Progress, c: Progress)
    requires
        copies(a, b),
        copies(b, c),
    ensures
        copies(a, c),
{
    lemma_extends_trans(a, b, c);
    let n = read_between(a, b);
    assert(a.rest.take(read_between(a, c)) =~= a.rest.take(n) + b.rest.take(read_between(b, c)));
    assert(c.output =~= a.output + a.rest.take(read_between(a, c)));
}

/// Taking bytes and putting out the same is copying.
proof fn lemma_take_put_copies(from: Progress, used: nat)
    requires
        used <= from.rest.len(),
    ensures
        copies(from, from.take(used).put(from.rest.take(used as int))),
{
    lemma_take_put(from, used, from.rest.take(used as int));
}

pub(crate) proof fn lemma_plain_split(first: Seq<Seq<char>>, second: Seq<Seq<char>>)
    requires
        plain(first + second),
    ensures
        plain(first),
        plain(second),
{
    assert forall|i: int| 0 <= i < first.len() implies !looked_into(#[trigger] first[i]) by {
        assert((first + second)[i] == first[i]);
    }
    assert forall|i: int| 0 <= i < second.len() implies !looked_into(#[trigger] second[i]) by {
        assert((first + second)[first.len() + i] == second[i]);
    }
}

/// A walk over an argument type that comes to its end puts out exactly the bytes that it reads,
/// where the segmenters do so for their types and no dispatch outcomes are involved.
pub proof fn law_arg_copies(
    registry: Registry,
    metadata: Metadata,
    arg: EventArg,
    from: Progress,
)
    requires
        all_within(registry),
        all_faithful(registry),
        plain(primitives_of(arg)),
        from.failure is None,
        run_arg(registry, metadata, arg, from).failure is None,
    ensures
        copies(from, run_arg(registry, metadata, arg, from)),
    decreases arg, 0nat,
{
    match arg {
        EventArg::Primitive(name) => {
            assert(primitives_of(arg)[0] == name@);
            let taken = registry[name@](from.rest);
            assert(taken.used <= from.rest.len());
            lemma_take_put_copies(from, taken.used);
        },
        EventArg::Tuple(args) => {
            law_args_copy(registry, metadata, args@, from);
        },
        EventArg::Vec(inner) => {
            lemma_compact_round_trip(from.rest);
            let count = compact_front(from.rest);
            if let Some(value) = count.value {
                let start = from.take(count.used).put(compact_digits(value));
                lemma_take_put_copies(from, count.used);
                law_repeated_copies(registry, metadata, *inner, value, start);
                lemma_copies_trans(
                    from,
                    start,
                    run_repeated(registry, metadata, *inner, value, start),
                );
            }
        },
        EventArg::Option(inner) => {
            let flag = byte_front(from.rest);
            lemma_take_put_copies(from, 1);
            assert(from.rest.take(1) =~= seq![from.rest[0]]);
            if flag.value == Some(1u8) {
                let start = from.take(1).put(seq![1u8]);
                law_arg_copies(registry, metadata, *inner, start);
                lemma_copies_trans(from, start, run_arg(registry, metadata, *inner, start));
            }
        },
    }
}

/// A walk over a repeated argument type copies as one over a single argument type does.
pub proof fn law_repeated_copies(
    registry: Registry,
    metadata: Metadata,
    arg: EventArg,
    count: nat,
    from: Progress,
)
    requires
        all_within(registry),
        all_faithful(registry),
        plain(primitives_of(arg)),
        from.failure is None,
        run_repeated(registry, metadata, arg, count, from).failure is None,
    ensures
        copies(from, run_repeated(registry, metadata, arg, count, from)),
    decreases arg, count + 1,
{
    lemma_extends_refl(from);
    if count == 0 {
        assert(from.output + from.rest.take(0) =~= from.output);
    } else {
        let next = run_arg(registry, metadata, arg, from);
        let end = run_repeated(registry, metadata, arg, (count - 1) as nat, next);
        assert(next.failure is Some ==> end == next);
        law_arg_copies(registry, metadata, arg, from);
        law_repeated_copies(registry, metadata, arg, (count - 1) as nat, next);
        lemma_copies_trans(from, next, end);
    }
}

/// A walk over several argument types that comes to its end puts out exactly the bytes that it
/// reads, where the segmenters do so for their types and no dispatch outcomes are involved.
pub proof fn law_args_copy(
    registry: Registry,
    metadata: Metadata,
    args: Seq<EventArg>,
    from: Progress,
)
    requires
        all_within(registry),
        all_faithful(registry),
        plain(primitives_of_all(args)),
        from.failure is None,
        run_args(registry, metadata, args, from).failure is None,
    ensures
        copies(from, run_args(registry, metadata, args, from)),
    decreases args, 0nat,
{
    lemma_extends_refl(from);
    if args.len() == 0 {
        assert(from.output + from.rest.take(0) =~= from.output);
    } else {
        let next = run_arg(registry, metadata, args[0], from);
        let end = run_args(registry, metadata, args.skip(1), next);
        lemma_plain_split(primitives_of(args[0]), primitives_of_all(args.skip(1)));
        assert(next.failure is Some ==> end == next);
        law_arg_copies(registry, metadata, args[0], from);
        law_args_copy(registry, metadata, args.skip(1), next);
        lemma_copies_trans(from, next, end);
    }
}

/// A walk over an argument type without dispatch outcomes notes nothing.
pub proof fn law_arg_notes_nothing(
    registry: Registry,
    metadata: Metadata,
    arg: EventArg,
    from: Progress,
)
    requires
        plain(primitives_of(arg)),
    ensures
        run_arg(registry, metadata, arg, from).errors == from.errors,
    decreases arg, 0nat,
{
    match arg {
        EventArg::Primitive(name) => {
            assert(primitives_of(arg)[0] == name@);
        },
        EventArg::Tuple(args) => {
            law_args_note_nothing(registry, metadata, args@, from);
        },
        EventArg::Vec(inner) => {
            let count = compact_front(from.rest);
            if let Some(value) = count.value {
                let start = from.take(count.used).put(compact_digits(value));
                law_repeated_notes_nothing(registry, metadata, *inner, value, start);
            }
        },
        EventArg::Option(inner) => {
            let start = from.take(byte_front(from.rest).used).put(seq![1u8]);
            law_arg_notes_nothing(registry, metadata, *inner, start);
        },
    }
}

/// A walk over a repeated argument type without dispatch outcomes notes nothing.
pub proof fn law_repeated_notes_nothing(
    registry: Registry,
    metadata: Metadata,
    arg: EventArg,
    count: nat,
    from: Progress,
)
    requires
        plain(primitives_of(arg)),
    ensures
        run_repeated(registry, metadata, arg, count, from).errors == from.errors,
    decreases arg, count + 1,
{
    if count > 0 && from.failure is None {
        let next = run_arg(registry, metadata, arg, from);
        law_arg_notes_nothing(registry, metadata, arg, from);
        law_repeated_notes_nothing(registry, metadata, arg, (count - 1) as nat, next);
    }
}

/// A walk over several argument types without dispatch outcomes notes nothing, whether it comes to
/// its end or stops on the way.
pub proof fn law_args_note_nothing(
    registry: Registry,
    metadata: Metadata,
    args: Seq<EventArg>,
    from: Progress,
)
    requires
        plain(primitives_of_all(args)),
    ensures
        run_args(registry, metadata, args, from).errors == from.errors,
    decreases args, 0nat,
{
    if args.len() > 0 && from.failure is None {
        let next = run_arg(registry, metadata, args[0], from);
        lemma_plain_split(primitives_of(args[0]), primitives_of_all(args.skip(1)));
        law_arg_notes_nothing(registry, metadata, args[0], from);
        law_args_note_nothing(registry, metadata, args.skip(1), next);
    }
}

/// The walk `from` with `input` to read in place of what it has.
pub open spec fn reading(from: Progress, input: Seq<u8>) -> Progress {
    Progress { rest: input, ..from }
}

/// A beginning that two inputs share is shared in its two parts.
pub(crate) proof fn lemma_alike_split(input: Seq<u8>, other: Seq<u8>, first: nat, second: nat)
    requires
        first + second <= input.len(),
        starts_alike(input, other, first + second),
    ensures
        starts_alike(input, other, first),
        starts_alike(input.skip(first as int), other.skip(first as int), second),
        other.skip(first as int).skip(second as int) == other.skip((first + second) as int),
        input[0] == other[0] || first + second == 0,
{
    let both = (first + second) as int;
    assert(other.take(first as int) =~= other.take(both).take(first as int));
    assert(input.take(first as int) =~= input.take(both).take(first as int));
    assert(other.skip(first as int).take(second as int) =~= other.take(both).skip(first as int));
    assert(input.skip(first as int).take(second as int) =~= input.take(both).skip(first as int));
    assert(other.skip(first as int).skip(second as int) =~= other.skip(both));
    if both > 0 {
        assert(input[0] == input.take(both)[0]);
        assert(other[0] == other.take(both)[0]);
    }
}

proof fn lemma_dispatch_local(input: Seq<u8>, other: Seq<u8>)
    ensures
        dispatch_error_front(input).value is Some && starts_alike(
            input,
            other,
            dispatch_error_front(input).used,
        ) ==> dispatch_error_front(other) == dispatch_error_front(input),
        dispatch_result_front(input).value is Some && starts_alike(
            input,
            other,
            dispatch_result_front(input).used,
        ) ==> dispatch_result_front(other) == dispatch_result_front(input),
{
    lemma_dispatch_error_local(input, other);
    let outcome = dispatch_result_front(input);
    if outcome.value is Some && starts_alike(input, other, outcome.used) {
        if input[0] == 1 {
            let error = dispatch_error_front(input.skip(1));
            lemma_dispatch_within(input.skip(1));
            lemma_alike_split(input, other, 1, error.used);
            lemma_dispatch_error_local(input.skip(1), other.skip(1));
        } else {
            lemma_alike_split(input, other, 1, 0);
        }
    }
}

proof fn lemma_dispatch_error_local(input: Seq<u8>, other: Seq<u8>)
    ensures
        dispatch_error_front(input).value is Some && starts_alike(
            input,
            other,
            dispatch_error_front(input).used,
        ) ==> dispatch_error_front(other) == dispatch_error_front(input),
{
    let error = dispatch_error_front(input);
    if error.value is Some && starts_alike(input, other, error.used) {
        let n = error.used as int;
        assert(input.take(n)[0] == other.take(n)[0]);
        if n == 3 {
            assert(input.take(n)[1] == other.take(n)[1]);
            assert(input.take(n)[2] == other.take(n)[2]);
        }
    }
}

/// A walk over an argument type that comes to its end looks at no byte past those that it reads,
/// where the segmenters do not.
pub proof fn law_arg_local(
    registry: Registry,
    metadata: Metadata,
    arg: EventArg,
    from: Progress,
    input: Seq<u8>,
)
    requires
        all_within(registry),
        all_local(registry),
        from.failure is None,
        run_arg(registry, metadata, arg, from).failure is None,
        starts_alike(
            from.rest,
            input,
            read_between(from, run_arg(registry, metadata, arg, from)) as nat,
        ),
    ensures
        run_arg(registry, metadata, arg, reading(from, input)) == reading(
            run_arg(registry, metadata, arg, from),
            input.skip(read_between(from, run_arg(registry, metadata, arg, from))),
        ),
    decreases arg, 0nat,
{
    let end = run_arg(registry, metadata, arg, from);
    law_arg_extends(registry, metadata, arg, from);
    let n = read_between(from, end) as nat;
    match arg {
        EventArg::Primitive(name) => {
            lemma_dispatch_within(from.rest);
            lemma_dispatch_local(from.rest, input);
            if name@ == "DispatchResult"@ {
                assert(dispatch_result_front(from.rest).used == n);
            } else if name@ == "DispatchError"@ {
                assert(failed_dispatch(from.rest).used == n);
            } else {
                let segmenter = registry[name@];
                assert(segmenter(from.rest).used == n);
                assert(segmenter(input) == segmenter(from.rest));
            }
        },
        EventArg::Tuple(args) => {
            law_args_local(registry, metadata, args@, from, input);
        },
        EventArg::Vec(inner) => {
            lemma_compact_round_trip(from.rest);
            let count = compact_front(from.rest);
            if let Some(value) = count.value {
                let start = from.take(count.used).put(compact_digits(value));
                lemma_take_put(from, count.used, compact_digits(value));
                law_repeated_extends(registry, metadata, *inner, value, start);
                lemma_extends_trans(from, start, end);
                let m = read_between(start, end) as nat;
                lemma_alike_split(from.rest, input, count.used, m);
                lemma_compact_local(from.rest, input);
                law_repeated_local(
                    registry,
                    metadata,
                    *inner,
                    value,
                    start,
                    input.skip(count.used as int),
                );
            }
        },
        EventArg::Option(inner) => {
            let flag = byte_front(from.rest);
            lemma_take_put(from, 1, seq![0u8]);
            lemma_take_put(from, 1, seq![1u8]);
            if flag.value == Some(1u8) {
                let start = from.take(1).put(seq![1u8]);
                law_arg_extends(registry, metadata, *inner, start);
                lemma_extends_trans(from, start, end);
                let m = read_between(start, end) as nat;
                lemma_alike_split(from.rest, input, 1, m);
                law_arg_local(registry, metadata, *inner, start, input.skip(1));
            } else {
                lemma_alike_split(from.rest, input, 1, 0);
            }
        },
    }
}

/// A walk over a repeated argument type looks no further than one over a single argument type.
pub proof fn law_repeated_local(
    registry: Registry,
    metadata: Metadata,
    arg: EventArg,
    count: nat,
    from: Progress,
    input: Seq<u8>,
)
    requires
        all_within(registry),
        all_local(registry),
        from.failure is None,
        run_repeated(registry, metadata, arg, count, from).failure is None,
        starts_alike(
            from.rest,
            input,
            read_between(from, run_repeated(registry, metadata, arg, count, from)) as nat,
        ),
    ensures
        run_repeated(registry, metadata, arg, count, reading(from, input)) == reading(
            run_repeated(registry, metadata, arg, count, from),
            input.skip(read_between(from, run_repeated(registry, metadata, arg, count, from))),
        ),
    decreases arg, count + 1,
{
    if count == 0 {
        assert(input.skip(0) =~= input);
    } else {
        let next = run_arg(registry, metadata, arg, from);
        let end = run_repeated(registry, metadata, arg, (count - 1) as nat, next);
        assert(next.failure is Some ==> end == next);
        law_arg_extends(registry, metadata, arg, from);
        law_repeated_extends(registry, metadata, arg, (count - 1) as nat, next);
        lemma_extends_trans(from, next, end);
        let n = read_between(from, next) as nat;
        let m = read_between(next, end) as nat;
        lemma_alike_split(from.rest, input, n, m);
        law_arg_local(registry, metadata, arg, from, input);
        law_repeated_local(
            registry,
            metadata,
            arg,
            (count - 1) as nat,
            next,
            input.skip(n as int),
        );
    }
}

/// A walk over several argument types that comes to its end looks at no byte past those that it
/// reads, where the segmenters do not.
pub proof fn law_args_local(
    registry: Registry,
    metadata: Metadata,
    args: Seq<EventArg>,
    from: Progress,
    input: Seq<u8>,
)
    requires
        all_within(registry),
        all_local(registry),
        from.failure is None,
        run_args(registry, metadata, args, from).failure is None,
        starts_alike(
            from.rest,
            input,
            read_between(from, run_args(registry, metadata, args, from)) as nat,
        ),
    ensures
        run_args(registry, metadata, args, reading(from, input)) == reading(
            run_args(registry, metadata, args, from),
            input.skip(read_between(from, run_args(registry, metadata, args, from))),
        ),
    decreases args, 0nat,
{
    if args.len() == 0 {
        assert(input.skip(0) =~= input);
    } else {
        let next = run_arg(registry, metadata, args[0], from);
        let end = run_args(registry, metadata, args.skip(1), next);
        assert(next.failure is Some ==> end == next);
        law_arg_extends(registry, metadata, args[0], from);
        law_args_extend(registry, metadata, args.skip(1), next);
        lemma_extends_trans(from, next, end);
        let n = read_between(from, next) as nat;
        let m = read_between(next, end) as nat;
        lemma_alike_split(from.rest, input, n, m);
        law_arg_local(registry, metadata, args[0], from, input);
        law_args_local(registry, metadata, args.skip(1), next, input.skip(n as int));
    }
}

/// The data of an event is itself what the argument types of the event describe: walking over it
/// once more gives the same data, with nothing left and nothing noted.
pub proof fn law_args_again(
    registry: Registry,
    metadata: Metadata,
    args: Seq<EventArg>,
    input: Seq<u8>,
)
    requires
        all_within(registry),
        all_faithful(registry),
        all_local(registry),
        plain(primitives_of_all(args)),
        run_args(registry, metadata, args, fresh(input)).failure is None,
    ensures
        ({
            let data = run_args(registry, metadata, args, fresh(input)).output;
            run_args(registry, metadata, args, fresh(data)) == (Progress {
                rest: Seq::empty(),
                output: data,
                errors: Seq::empty(),
                failure: None,
            })
        }),
{
    let from = fresh(input);
    let end = run_args(registry, metadata, args, from);
    let n = read_between(from, end);
    law_args_copy(registry, metadata, args, from);
    assert(end.output =~= input.take(n));
    assert(end.output.take(n) =~= end.output);
    law_args_local(registry, metadata, args, from, end.output);
    assert(end.output.skip(n) =~= Seq::empty());
}

/// A walk over an argument type stops for want of a segmenter only at a type that the argument
/// type mentions and that is not registered.
pub proof fn law_arg_unavailable(
    registry: Registry,
    metadata: Metadata,
    arg: EventArg,
    from: Progress,
    name: Seq<char>,
)
    requires
        from.failure is None,
        run_arg(registry, metadata, arg, from).failure == Some(Failure::TypeSizeUnavailable(name)),
    ensures
        primitives_of(arg).contains(name),
        !registry.dom().contains(name),
        !looked_into(name),
    decreases arg, 0nat,
{
    match arg {
        EventArg::Primitive(primitive) => {
            assert(primitives_of(arg)[0] == primitive@);
        },
        EventArg::Tuple(args) => {
            law_args_unavailable(registry, metadata, args@, from, name);
        },
        EventArg::Vec(inner) => {
            let count = compact_front(from.rest);
            if let Some(value) = count.value {
                let start = from.take(count.used).put(compact_digits(value));
                law_repeated_unavailable(registry, metadata, *inner, value, start, name);
            }
        },
        EventArg::Option(inner) => {
            let flag = byte_front(from.rest);
            if flag.value == Some(1u8) {
                let start = from.take(flag.used).put(seq![1u8]);
                law_arg_unavailable(registry, metadata, *inner, start, name);
            }
        },
    }
}

/// A walk over a repeated argument type stops for want of a segmenter as one over a single
/// argument type does.
pub proof fn law_repeated_unavailable(
    registry: Registry,
    metadata: Metadata,
    arg: EventArg,
    count: nat,
    from: Progress,
    name: Seq<char>,
)
    requires
        from.failure is None,
        run_repeated(registry, metadata, arg, count, from).failure == Some(
            Failure::TypeSizeUnavailable(name),
        ),
    ensures
        primitives_of(arg).contains(name),
        !registry.dom().contains(name),
        !looked_into(name),
    decreases arg, count + 1,
{
    let next = run_arg(registry, metadata, arg, from);
    if next.failure is Some {
        assert(run_repeated(registry, metadata, arg, (count - 1) as nat, next) == next);
        law_arg_unavailable(registry, metadata, arg, from, name);
    } else {
        law_repeated_unavailable(registry, metadata, arg, (count - 1) as nat, next, name);
    }
}

/// A walk over several argument types stops for want of a segmenter only at a type that one of
/// them mentions and that is not registered.
pub proof fn law_args_unavailable(
    registry: Registry,
    metadata: Metadata,
    args: Seq<EventArg>,
    from: Progress,
    name: Seq<char>,
)
    requires
        from.failure is None,
        run_args(registry, metadata, args, from).failure == Some(
            Failure::TypeSizeUnavailable(name),
        ),
    ensures
        primitives_of_all(args).contains(name),
        !registry.dom().contains(name),
        !looked_into(name),
    decreases args, 0nat,
{
    let next = run_arg(registry, metadata, args[0], from);
    let first = primitives_of(args[0]);
    let others = primitives_of_all(args.skip(1));
    if next.failure is Some {
        assert(run_args(registry, metadata, args.skip(1), next) == next);
        law_arg_unavailable(registry, metadata, args[0], from, name);
        let i = first.index_of(name);
        assert((first + others)[i] == name);
    } else {
        law_args_unavailable(registry, metadata, args.skip(1), next, name);
        let i = others.index_of(name);
        assert((first + others)[first.len() + i] == name);
    }
}

/// The two registries have the same segmenters for those of the named types that a walk leaves to
/// segmenters.
pub open spec fn agree(registry: Registry, other: Registry, names: Seq<Seq<char>>) -> bool {
    forall|i: int|
        0 <= i < names.len() && !looked_into(#[trigger] names[i]) ==> registry.dom().contains(
            names[i],
        ) == other.dom().contains(names[i]) && (registry.dom().contains(names[i])
            ==> registry[names[i]] == other[names[i]])
}

proof fn lemma_agree_split(
    registry: Registry,
    other: Registry,
    first: Seq<Seq<char>>,
    second: Seq<Seq<char>>,
)
    requires
        agree(registry, other, first + second),
    ensures
        agree(registry, other, first),
        agree(registry, other, second),
{
    assert forall|i: int| 0 <= i < first.len() && !looked_into(#[trigger] first[i]) implies
        registry.dom().contains(first[i]) == other.dom().contains(first[i]) && (
    registry.dom().contains(first[i]) ==> registry[first[i]] == other[first[i]]) by {
        assert((first + second)[i] == first[i]);
    }
    assert forall|i: int| 0 <= i < second.len() && !looked_into(#[trigger] second[i]) implies
        registry.dom().contains(second[i]) == other.dom().contains(second[i]) && (
    registry.dom().contains(second[i]) ==> registry[second[i]] == other[second[i]]) by {
        assert((first + second)[first.len() + i] == second[i]);
    }
}

/// A walk over an argument type depends on no segmenters but those of the types that it mentions.
pub proof fn law_arg_depends(
    registry: Registry,
    other: Registry,
    metadata: Metadata,
    arg: EventArg,
    from: Progress,
)
    requires
        agree(registry, other, primitives_of(arg)),
    ensures
        run_arg(registry, metadata, arg, from) == run_arg(other, metadata, arg, from),
    decreases arg, 0nat,
{
    match arg {
        EventArg::Primitive(name) => {
            assert(primitives_of(arg)[0] == name@);
        },
        EventArg::Tuple(args) => {
            law_args_depend(registry, other, metadata, args@, from);
        },
        EventArg::Vec(inner) => {
            let count = compact_front(from.rest);
            if let Some(value) = count.value {
                let start = from.take(count.used).put(compact_digits(value));
                law_repeated_depends(registry, other, metadata, *inner, value, start);
            }
        },
        EventArg::Option(inner) => {
            let start = from.take(byte_front(from.rest).used).put(seq![1u8]);
            law_arg_depends(registry, other, metadata, *inner, start);
        },
    }
}

/// A walk over a repeated argument type depends on the segmenters that one over a single argument
/// type depends on.
pub proof fn law_repeated_depends(
    registry: Registry,
    other: Registry,
    metadata: Metadata,
    arg: EventArg,
    count: nat,
    from: Progress,
)
    requires
        agree(registry, other, primitives_of(arg)),
    ensures
        run_repeated(registry, metadata, arg, count, from) == run_repeated(
            other,
            metadata,
            arg,
            count,
            from,
        ),
    decreases arg, count + 1,
{
    if count > 0 && from.failure is None {
        law_arg_depends(registry, other, metadata, arg, from);
        law_repeated_depends(
            registry,
            other,
            metadata,
            arg,
            (count - 1) as nat,
            run_arg(registry, metadata, arg, from),
        );
    }
}

/// A walk over several argument types depends on no segmenters but those of the types that they
/// mention.
pub proof fn law_args_depend(
    registry: Registry,
    other: Registry,
    metadata: Metadata,
    args: Seq<EventArg>,
    from: Progress,
)
    requires
        agree(registry, other, primitives_of_all(args)),
    ensures
        run_args(registry, metadata, args, from) == run_args(other, metadata, args, from),
    decreases args, 0nat,
{
    if args.len() > 0 && from.failure is None {
        lemma_agree_split(
            registry,
            other,
            primitives_of(args[0]),
            primitives_of_all(args.skip(1)),
        );
        law_arg_depends(registry, other, metadata, args[0], from);
        law_args_depend(
            registry,
            other,
            metadata,
            args.skip(1),
            run_arg(registry, metadata, args[0], from),
        );
    }
}

} // verus!
