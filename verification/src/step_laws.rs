//! What each step of a decoding does: how a walk reads every kind of argument type, and how phases,
//! headers, topics and records are read.

use vstd::prelude::*;

use crate::bytes::{
    compact_digits, compact_front, le_digits, le_value, lemma_compact_round_trip,
    lemma_compact_written, lemma_four_written, ok_value, Taken,
};
use crate::codec::{dispatch_error_front, dispatch_view, DispatchError, DispatchErrorView};
use crate::error::{failure_of, Error, Failure, RuntimeError, RuntimeErrorView};
use crate::events::{
    entry_values, list_front, phase_front, read_header, run_events, run_record, run_records,
    topics_front, values_front, Decoding, Header, Phase, Raw, RawEvent, RawView,
};
use crate::lookup_laws::{
    law_errors_found, law_errors_found_iff, law_events_found, law_events_found_iff,
};
use crate::metadata::{texts, EventArg, Metadata, MetadataError};
use crate::run::{at, error_values, run_arg, run_args, run_repeated, Progress, Registry};
use crate::segment::{appended, reads_lists, segmenter_of, within, Listed, Segment, Segmenter};
use crate::text::{hex_digit, hex_digits, joined, lists};
use crate::type_laws::{law_arrays, reads_array};

verus! {

/// A walk over no types does nothing, and one that has stopped goes no further.
pub proof fn law_walk_ends(
    registry: Registry,
    metadata: Metadata,
    args: Seq<EventArg>,
    arg: EventArg,
    count: nat,
    from: Progress,
)
    ensures
        run_args(registry, metadata, Seq::empty(), from) == from,
        run_repeated(registry, metadata, arg, 0, from) == from,
        from.failure is Some ==> run_args(registry, metadata, args, from) == from,
        from.failure is Some ==> run_repeated(registry, metadata, arg, count, from) == from,
{
}

/// A walk over a list of one type, and over a tuple, is a walk over what they hold.
pub proof fn law_walk_inside(registry: Registry, metadata: Metadata, arg: EventArg, from: Progress)
    requires
        from.failure is None,
    ensures
        run_args(registry, metadata, seq![arg], from) == run_arg(registry, metadata, arg, from),
        arg matches EventArg::Tuple(args) ==> run_arg(registry, metadata, arg, from) == run_args(
            registry,
            metadata,
            args@,
            from,
        ),
{
    reveal_with_fuel(run_args, 2);
    assert(seq![arg][0] == arg);
    assert(seq![arg].skip(1) =~= Seq::empty());
}

/// An option is a byte and, where the byte is 1, a value. The byte is put out as it is; any byte
/// but 0 and 1 stops the walk, and so does the lack of one.
pub proof fn law_option(
    registry: Registry,
    metadata: Metadata,
    arg: EventArg,
    inner: EventArg,
    from: Progress,
)
    requires
        arg matches EventArg::Option(boxed) && *boxed == inner,
    ensures
        run_arg(registry, metadata, arg, from) == if from.rest.len() == 0 {
            Progress { failure: Some(Failure::Codec), ..from }
        } else if from.rest[0] == 0 {
            Progress { rest: from.rest.skip(1), output: from.output.push(0u8), ..from }
        } else if from.rest[0] == 1 {
            run_arg(
                registry,
                metadata,
                inner,
                Progress { rest: from.rest.skip(1), output: from.output.push(1u8), ..from },
            )
        } else {
            Progress {
                rest: from.rest.skip(1),
                failure: Some(Failure::Other("unexpected first byte decoding Option"@)),
                ..from
            }
        },
{
    assert(from.rest.skip(0) =~= from.rest);
    assert(from.output + seq![0u8] =~= from.output.push(0u8));
    assert(from.output + seq![1u8] =~= from.output.push(1u8));
}

/// Walking over a type a number of times is walking over a list that holds it as often.
pub proof fn law_repeated_is_list(
    registry: Registry,
    metadata: Metadata,
    arg: EventArg,
    count: nat,
    from: Progress,
)
    ensures
        run_repeated(registry, metadata, arg, count, from) == run_args(
            registry,
            metadata,
            Seq::new(count, |i: int| arg),
            from,
        ),
    decreases count,
{
    let list = Seq::new(count, |i: int| arg);
    if count > 0 && from.failure is None {
        let next = run_arg(registry, metadata, arg, from);
        assert(list.skip(1) =~= Seq::new((count - 1) as nat, |i: int| arg));
        law_repeated_is_list(registry, metadata, arg, (count - 1) as nat, next);
    }
}

/// A vector is a count and as many values: the count is put out as it is read and the values are
/// walked over one after the other. Without a count the walk stops.
pub proof fn law_vector(
    registry: Registry,
    metadata: Metadata,
    arg: EventArg,
    inner: EventArg,
    from: Progress,
)
    requires
        arg matches EventArg::Vec(boxed) && *boxed == inner,
    ensures
        ({
            let count = compact_front(from.rest);
            run_arg(registry, metadata, arg, from) == match count.value {
                Some(value) => run_args(
                    registry,
                    metadata,
                    Seq::new(value, |i: int| inner),
                    Progress {
                        rest: from.rest.skip(count.used as int),
                        output: from.output + from.rest.take(count.used as int),
                        ..from
                    },
                ),
                None => Progress {
                    rest: from.rest.skip(count.used as int),
                    failure: Some(Failure::Codec),
                    ..from
                },
            }
        }),
{
    lemma_compact_round_trip(from.rest);
    let count = compact_front(from.rest);
    if let Some(value) = count.value {
        let start = Progress {
            rest: from.rest.skip(count.used as int),
            output: from.output + compact_digits(value),
            ..from
        };
        law_repeated_is_list(registry, metadata, inner, value, start);
    }
}

/// A value of a type that has a name is cut out by the segmenter of that name, which says what goes
/// out. Where it finds no value nothing goes out and the walk stops, with what it took gone; where
/// there is none the walk stops at once. Nothing is noted.
pub proof fn law_named(
    registry: Registry,
    metadata: Metadata,
    arg: EventArg,
    name: Seq<char>,
    from: Progress,
)
    requires
        arg matches EventArg::Primitive(text) && text@ == name,
        name != "DispatchResult"@,
        name != "DispatchError"@,
    ensures
        run_arg(registry, metadata, arg, from) == if registry.dom().contains(name) {
            let taken = registry[name](from.rest);
            if taken.value is Some {
                Progress {
                    rest: from.rest.skip(taken.used as int),
                    output: from.output + taken.value->Some_0,
                    ..from
                }
            } else {
                Progress {
                    rest: from.rest.skip(taken.used as int),
                    failure: Some(Failure::Codec),
                    ..from
                }
            }
        } else {
            Progress { failure: Some(Failure::TypeSizeUnavailable(name)), ..from }
        },
{
}

proof fn lemma_outcomes_differ()
    ensures
        "DispatchError"@ != "DispatchResult"@,
{
    reveal_strlit("DispatchError");
    reveal_strlit("DispatchResult");
    assert("DispatchError"@.len() == 13);
    assert("DispatchResult"@.len() == 14);
}

/// A dispatch error that is not that of a module is a byte: it is taken and noted, and nothing goes
/// out for it. Any byte above 5 is refused, and so is the lack of one.
pub proof fn law_dispatch_error(
    registry: Registry,
    metadata: Metadata,
    arg: EventArg,
    from: Progress,
)
    requires
        arg matches EventArg::Primitive(text) && text@ == "DispatchError"@,
        from.rest.len() == 0 || from.rest[0] != 3,
    ensures
        ({
            let end = run_arg(registry, metadata, arg, from);
            let taken = Progress { rest: from.rest.skip(1), ..from };
            &&& from.rest.len() == 0 ==> end == (Progress {
                failure: Some(Failure::Codec),
                ..from
            })
            &&& from.rest.len() > 0 && from.rest[0] > 5 ==> end == (Progress {
                failure: Some(Failure::Codec),
                ..taken
            })
            &&& from.rest.len() > 0 && from.rest[0] == 0 ==> end == (Progress {
                errors: from.errors.push(RuntimeErrorView::Other(Seq::empty())),
                ..taken
            })
            &&& from.rest.len() > 0 && from.rest[0] == 1 ==> end == (Progress {
                errors: from.errors.push(RuntimeErrorView::CannotLookup),
                ..taken
            })
            &&& from.rest.len() > 0 && from.rest[0] == 2 ==> end == (Progress {
                errors: from.errors.push(RuntimeErrorView::BadOrigin),
                ..taken
            })
            &&& from.rest.len() > 0 && from.rest[0] == 4 ==> end == (Progress {
                errors: from.errors.push(RuntimeErrorView::ConsumerRemaining),
                ..taken
            })
            &&& from.rest.len() > 0 && from.rest[0] == 5 ==> end == (Progress {
                errors: from.errors.push(RuntimeErrorView::NoProviders),
                ..taken
            })
        }),
{
    lemma_outcomes_differ();
    assert(from.rest.skip(0) =~= from.rest);
}

/// A dispatch error of a module is the byte 3, the index of the module and the index of the error
/// in it. It is noted under the names of that module and of that error of it; where the module at
/// `place` is the first of its index but has no such error, the walk stops.
pub proof fn law_dispatch_module_error(
    registry: Registry,
    metadata: Metadata,
    arg: EventArg,
    from: Progress,
    place: int,
)
    requires
        arg matches EventArg::Primitive(text) && text@ == "DispatchError"@,
        from.rest.len() >= 3,
        from.rest[0] == 3,
        0 <= place < metadata.modules_with_errors@.len(),
        metadata.modules_with_errors@[place].index == from.rest[1],
        forall|j: int|
            0 <= j < place ==> (#[trigger] metadata.modules_with_errors@[j]).index != from.rest[1],
    ensures
        ({
            let module = metadata.modules_with_errors@[place];
            run_arg(registry, metadata, arg, from) == if from.rest[2] < module.errors@.len() {
                Progress {
                    rest: from.rest.skip(3),
                    errors: from.errors.push(
                        RuntimeErrorView::Module {
                            module: module.name@,
                            error: module.errors@[from.rest[2] as int]@,
                        },
                    ),
                    ..from
                }
            } else {
                Progress {
                    rest: from.rest.skip(3),
                    failure: Some(Failure::Metadata(MetadataError::ErrorNotFound(from.rest[2]))),
                    ..from
                }
            }
        }),
{
    lemma_outcomes_differ();
    law_errors_found(metadata.modules_with_errors@, from.rest[1], place);
}

/// A dispatch error of a module that is cut short is used up and refused. One of a module that the
/// metadata does not hold is taken and stops the walk.
pub proof fn law_dispatch_module_unknown(
    registry: Registry,
    metadata: Metadata,
    arg: EventArg,
    from: Progress,
)
    requires
        arg matches EventArg::Primitive(text) && text@ == "DispatchError"@,
        from.rest.len() > 0,
        from.rest[0] == 3,
        from.rest.len() < 3 || forall|j: int|
            0 <= j < metadata.modules_with_errors@.len() ==> (
            #[trigger] metadata.modules_with_errors@[j]).index != from.rest[1],
    ensures
        run_arg(registry, metadata, arg, from) == if from.rest.len() < 3 {
            Progress { rest: Seq::empty(), failure: Some(Failure::Codec), ..from }
        } else {
            Progress {
                rest: from.rest.skip(3),
                failure: Some(Failure::Metadata(MetadataError::ModuleIndexNotFound(from.rest[1]))),
                ..from
            }
        },
{
    lemma_outcomes_differ();
    if from.rest.len() < 3 {
        assert(from.rest.skip(from.rest.len() as int) =~= Seq::empty());
    } else {
        law_errors_found_iff(metadata.modules_with_errors@, from.rest[1]);
    }
}

/// The outcome of a dispatched call is the byte 0, for which nothing happens, or the byte 1 and
/// then a dispatch error, for which happens what happens for the error alone. Any other byte is
/// refused, and so is the lack of one.
pub proof fn law_dispatch_result(
    registry: Registry,
    metadata: Metadata,
    arg: EventArg,
    error: EventArg,
    from: Progress,
)
    requires
        arg matches EventArg::Primitive(text) && text@ == "DispatchResult"@,
        error matches EventArg::Primitive(text) && text@ == "DispatchError"@,
    ensures
        ({
            let taken = Progress { rest: from.rest.skip(1), ..from };
            run_arg(registry, metadata, arg, from) == if from.rest.len() == 0 {
                Progress { failure: Some(Failure::Codec), ..from }
            } else if from.rest[0] == 0 {
                taken
            } else if from.rest[0] == 1 {
                run_arg(registry, metadata, error, taken)
            } else {
                Progress { failure: Some(Failure::Codec), ..taken }
            }
        }),
{
    lemma_outcomes_differ();
    assert(from.rest.skip(0) =~= from.rest);
    if from.rest.len() > 0 && from.rest[0] == 1 {
        let rest = from.rest.skip(1);
        let used = dispatch_error_front(rest).used as int;
        assert(used <= rest.len());
        assert(rest.skip(used) =~= from.rest.skip(1 + used));
    }
}

/// A phase is the byte 0 and the index of an extrinsic in four bytes, the low one first, or the
/// byte 1 or 2 alone. Anything else is refused, with no more than the first byte taken.
pub proof fn law_phase(input: Seq<u8>)
    ensures
        phase_front(input) == if input.len() == 0 {
            Taken { used: 0, value: None }
        } else if input[0] == 0 && input.len() >= 5 {
            Taken {
                used: 5,
                value: Some(
                    Phase::ApplyExtrinsic(
                        (input[1] + 0x100 * input[2] + 0x1_0000 * input[3] + 0x100_0000
                            * input[4]) as u32,
                    ),
                ),
            }
        } else if input[0] == 1 {
            Taken { used: 1, value: Some(Phase::Finalization) }
        } else if input[0] == 2 {
            Taken { used: 1, value: Some(Phase::Initialization) }
        } else {
            Taken { used: 1, value: None }
        },
{
    if input.len() >= 5 && input[0] == 0 {
        let digits = input.skip(1).take(4);
        law_four_digits(digits);
    }
}

/// Four digits in base 256, the low one first, and the number that they stand for.
pub proof fn law_four_digits(digits: Seq<u8>)
    requires
        digits.len() == 4,
    ensures
        le_value(digits) == digits[0] + 0x100 * digits[1] + 0x1_0000 * digits[2] + 0x100_0000
            * digits[3],
{
    reveal_with_fuel(le_value, 5);
    let rest = digits.skip(1);
    assert(rest[0] == digits[1]);
    assert(rest.skip(1)[0] == digits[2]);
    assert(rest.skip(1).skip(1)[0] == digits[3]);
    assert(rest.skip(1).skip(1).skip(1) =~= Seq::empty());
}

/// The compact form of a number is as short as the number allows, says so in the two low bits of
/// its first byte, and is read back.
pub proof fn law_compact_form(value: nat, tail: Seq<u8>)
    requires
        value <= u32::MAX,
    ensures
        ({
            let form = compact_digits(value);
            &&& value < 64 ==> form == seq![(4 * value) as u8]
            &&& 64 <= value < 0x4000 ==> form == seq![
                ((4 * value + 1) % 0x100) as u8,
                ((4 * value + 1) / 0x100) as u8,
            ]
            &&& 0x4000 <= value < 0x4000_0000 ==> form.len() == 4 && le_value(form) == 4 * value + 2
            &&& 0x4000_0000 <= value ==> form.len() == 5 && form[0] == 3 && le_value(form.skip(1))
                == value
            &&& compact_front(form + tail) == (Taken { used: form.len(), value: Some(value) })
        }),
{
    lemma_compact_written(value, tail);
    let form = compact_digits(value);
    if value < 0x4000 {
        reveal_with_fuel(le_digits, 3);
        if value < 64 {
            assert(form =~= seq![(4 * value) as u8]);
        } else {
            assert(form =~= seq![
                ((4 * value + 1) % 0x100) as u8,
                ((4 * value + 1) / 0x100) as u8,
            ]);
        }
    } else if value < 0x4000_0000 {
        lemma_four_written(4 * value + 2);
    } else {
        lemma_four_written(value);
        assert(form.skip(1) =~= le_digits(value, 4));
    }
}

/// The header of a record is a phase, the index of a module and the index of an event in it: of the
/// first module of that index, here at `place`.
pub proof fn law_header(metadata: Metadata, input: Seq<u8>, place: int)
    requires
        phase_front(input).value is Some,
        input.len() > phase_front(input).used,
        0 <= place < metadata.modules_with_events@.len(),
        metadata.modules_with_events@[place].index == input[phase_front(input).used as int],
        forall|j: int|
            0 <= j < place ==> (#[trigger] metadata.modules_with_events@[j]).index
                != input[phase_front(input).used as int],
    ensures
        ({
            let used = phase_front(input).used as int;
            let module = metadata.modules_with_events@[place];
            read_header(metadata, input) == if input.len() == used + 1 {
                (Seq::<u8>::empty(), Err(Failure::Codec))
            } else if input[used + 1] < module.events@.len() {
                (
                    input.skip(used + 2),
                    Ok(
                        Header {
                            phase: phase_front(input).value->Some_0,
                            module,
                            event: module.events@[input[used + 1] as int],
                        },
                    ),
                )
            } else {
                (
                    input.skip(used + 2),
                    Err(Failure::Metadata(MetadataError::EventNotFound(input[used + 1]))),
                )
            }
        }),
{
    let used = phase_front(input).used as int;
    law_events_found(metadata.modules_with_events@, input[used], place);
    assert(input.skip(used).skip(1) =~= input.skip(used + 1));
    assert(input.skip(used + 1).skip(1) =~= input.skip(used + 2) || input.len() == used + 1);
    if input.len() == used + 1 {
        assert(input.skip(used + 1).skip(0) =~= Seq::empty());
    }
}

/// A header without a phase, without the index of a module or with one that no module has is
/// refused.
pub proof fn law_header_refused(metadata: Metadata, input: Seq<u8>)
    ensures
        ({
            let used = phase_front(input).used as int;
            let modules = metadata.modules_with_events@;
            &&& phase_front(input).value is None ==> read_header(metadata, input) == (
                input.skip(used),
                Err::<Header, Failure>(Failure::Codec),
            )
            &&& phase_front(input).value is Some && input.len() == used ==> read_header(
                metadata,
                input,
            ) == (Seq::<u8>::empty(), Err::<Header, Failure>(Failure::Codec))
            &&& phase_front(input).value is Some && input.len() > used && (forall|j: int|
                0 <= j < modules.len() ==> (#[trigger] modules[j]).index != input[used])
                ==> read_header(metadata, input) == (
                input.skip(used + 1),
                Err::<Header, Failure>(
                    Failure::Metadata(MetadataError::ModuleIndexNotFound(input[used])),
                ),
            )
        }),
{
    let used = phase_front(input).used as int;
    if phase_front(input).value is Some {
        assert(used <= input.len());
        if input.len() == used {
            assert(input.skip(used).skip(0) =~= Seq::empty());
        } else {
            law_events_found_iff(metadata.modules_with_events@, input[used]);
            assert(input.skip(used).skip(1) =~= input.skip(used + 1));
        }
    }
}

/// Reading no values takes nothing, reading one takes what the segmenter takes, and a value that
/// cannot be read ends the reading.
pub proof fn law_values(segmenter: Segmenter, first: nat, second: nat, input: Seq<u8>)
    ensures
        values_front(segmenter, 0, input) == (Taken { used: 0, value: Some(()) }),
        values_front(segmenter, 1, input).used == segmenter(input).used,
        values_front(segmenter, 1, input).value is Some <==> segmenter(input).value is Some,
        values_front(segmenter, first, input).value is None ==> values_front(
            segmenter,
            first + second,
            input,
        ) == values_front(segmenter, first, input),
    decreases first,
{
    reveal_with_fuel(values_front, 2);
    if first > 0 && segmenter(input).value is Some {
        let rest = input.skip(segmenter(input).used as int);
        law_values(segmenter, (first - 1) as nat, second, rest);
        assert((first + second - 1) as nat == (first - 1) as nat + second);
    }
}

/// Reading some values and then more is reading them all.
pub proof fn law_values_in_sequence(
    segmenter: Segmenter,
    first: nat,
    second: nat,
    input: Seq<u8>,
)
    requires
        within(segmenter),
        values_front(segmenter, first, input).value is Some,
    ensures
        ({
            let begun = values_front(segmenter, first, input);
            let others = values_front(segmenter, second, input.skip(begun.used as int));
            let all = values_front(segmenter, first + second, input);
            &&& begun.used <= input.len()
            &&& all.used == begun.used + others.used
            &&& all.value == others.value
        }),
    decreases first,
{
    if first == 0 {
        assert(input.skip(0) =~= input);
    } else {
        let taken = segmenter(input);
        assert(taken.used <= input.len());
        let rest = input.skip(taken.used as int);
        law_values_in_sequence(segmenter, (first - 1) as nat, second, rest);
        assert((first + second - 1) as nat == (first - 1) as nat + second);
        let others = values_front(segmenter, (first - 1) as nat, rest);
        assert(rest.skip(others.used as int) =~= input.skip((taken.used + others.used) as int));
    }
}

/// A list of a type's values is read in a way of the type exactly where its values are cut out as
/// the type cuts them out and the width is one that the type allows.
pub proof fn law_reads_lists<U: Segment>(list: Listed)
    ensures
        reads_lists::<U>(list) <==> (forall|input: Seq<u8>| #[trigger]
            (list.segmenter)(input) == U::segmented(input)) && U::listed_by(list.bulk),
{
    if forall|input: Seq<u8>| #[trigger] (list.segmenter)(input) == U::segmented(input) {
        assert(list.segmenter =~= segmenter_of::<U>());
    }
}

/// A list is read value by value, or at once where its values have a width for that: then it is
/// there in full or nothing is taken.
pub proof fn law_list(list: Listed, count: nat, input: Seq<u8>)
    ensures
        list.bulk is None ==> list_front(list, count, input) == values_front(
            list.segmenter,
            count,
            input,
        ),
        list.bulk matches Some(width) ==> list_front(list, count, input) == if input.len() >= count
            * (width as nat) {
            Taken { used: count * (width as nat), value: Some(()) }
        } else {
            Taken { used: 0, value: None }
        },
{
}

/// Topics are a count and then a list of as many values.
pub proof fn law_topics(hash: Listed, input: Seq<u8>)
    ensures
        ({
            let count = compact_front(input);
            let topics = topics_front(hash, input);
            let values = list_front(
                hash,
                count.value->Some_0,
                input.skip(count.used as int),
            );
            &&& count.value is None ==> topics == (Taken::<()> { used: count.used, value: None })
            &&& count.value is Some ==> topics == (Taken::<()> {
                used: count.used + values.used,
                value: values.value,
            })
        }),
{
}

/// Topics that are hashes of 32 bytes are there exactly where the count is followed by 32 bytes for
/// each of them, which are then taken.
pub proof fn law_topics_of_hashes(hash: Listed, input: Seq<u8>)
    requires
        reads_lists::<[u8; 32]>(hash),
        compact_front(input).value is Some,
    ensures
        ({
            let count = compact_front(input).value->Some_0;
            let start = compact_front(input).used;
            let topics = topics_front(hash, input);
            &&& topics.value is Some <==> input.len() >= start + 32 * count
            &&& topics.value is Some ==> topics.used == start + 32 * count
            &&& topics.value is None ==> topics.used == input.len()
        }),
{
    lemma_compact_round_trip(input);
    law_arrays();
    let count = compact_front(input);
    lemma_values_of_arrays(
        hash.segmenter,
        count.value->Some_0,
        input.skip(count.used as int),
    );
}

proof fn lemma_values_of_arrays(segmenter: Segmenter, count: nat, input: Seq<u8>)
    requires
        reads_array(segmenter, 32),
    ensures
        values_front(segmenter, count, input).value is Some <==> input.len() >= 32 * count,
        values_front(segmenter, count, input).value is Some ==> values_front(
            segmenter,
            count,
            input,
        ).used == 32 * count,
        values_front(segmenter, count, input).value is None ==> values_front(
            segmenter,
            count,
            input,
        ).used == input.len(),
    decreases count,
{
    if count > 0 {
        if input.len() >= 32 {
            assert(segmenter(input) == (Taken { used: 32, value: Some(input.take(32)) }));
            lemma_values_of_arrays(segmenter, (count - 1) as nat, input.skip(32));
        } else {
            assert(segmenter(input) == (Taken::<Seq<u8>> { used: input.len(), value: None }));
        }
    }
}

/// A record is decoded exactly where its header, its arguments and its topics are, one after the
/// other, and what is left is what comes after the topics. The first of these that cannot be
/// decoded says why the record cannot be.
pub proof fn law_record_outcome(
    registry: Registry,
    metadata: Metadata,
    hash: Listed,
    from: Decoding,
)
    requires
        from.failure is None,
    ensures
        ({
            let end = run_record(registry, metadata, hash, from);
            let (rest, header) = read_header(metadata, from.rest);
            let walked = run_args(
                registry,
                metadata,
                header->Ok_0.event.arguments@,
                Progress {
                    rest,
                    output: Seq::empty(),
                    errors: Seq::empty(),
                    failure: None,
                },
            );
            let topics = topics_front(hash, walked.rest);
            &&& header matches Err(failure) ==> end == (Decoding {
                rest,
                entries: from.entries,
                failure: Some(failure),
            })
            &&& header is Ok && walked.failure is Some ==> end == (Decoding {
                rest: walked.rest,
                entries: from.entries,
                failure: walked.failure,
            })
            &&& header is Ok && walked.failure is None ==> end.rest == walked.rest.skip(
                topics.used as int,
            ) && end.failure == if topics.value is Some {
                None
            } else {
                Some(Failure::Codec)
            }
            &&& header is Ok && walked.failure is None && topics.value is None ==> end.entries
                == from.entries
        }),
{
}

/// No records are decoded for nothing, one record is decoded as a record is, and nothing is decoded
/// after a failure.
pub proof fn law_records_one_by_one(
    registry: Registry,
    metadata: Metadata,
    hash: Listed,
    count: nat,
    from: Decoding,
)
    ensures
        run_records(registry, metadata, hash, 0, from) == from,
        from.failure is None ==> run_records(registry, metadata, hash, 1, from) == run_record(
            registry,
            metadata,
            hash,
            from,
        ),
        from.failure is Some ==> run_records(registry, metadata, hash, count, from) == from,
{
    reveal_with_fuel(run_records, 2);
}

/// The events of a block are a count and as many records; without a count there are none and the
/// decoding fails.
pub proof fn law_events_outcome(
    registry: Registry,
    metadata: Metadata,
    hash: Listed,
    input: Seq<u8>,
)
    ensures
        ({
            let count = compact_front(input);
            let start = Decoding {
                rest: input.skip(count.used as int),
                entries: Seq::empty(),
                failure: None,
            };
            run_events(registry, metadata, hash, input) == match count.value {
                Some(value) => run_records(registry, metadata, hash, value, start),
                None => Decoding { failure: Some(Failure::Codec), ..start },
            }
        }),
{
}

/// The value of an event has its module, its name and its data, and that of an error is the
/// error's.
pub proof fn law_raw_value(event: RawEvent, error: RuntimeError)
    ensures
        Raw::Event(event)@ == (RawView::Event {
            module: event.module@,
            variant: event.variant@,
            data: event.data@,
        }),
        Raw::Error(error)@ == RawView::Error(error@),
{
}

/// The value of a runtime error has its kind and its texts.
pub proof fn law_runtime_error_value(error: RuntimeError)
    ensures
        error matches RuntimeError::Module(named) ==> error@ == (RuntimeErrorView::Module {
            module: named.module@,
            error: named.error@,
        }),
        error matches RuntimeError::Other(text) ==> error@ == RuntimeErrorView::Other(text@),
        error is ConsumerRemaining <==> error@ is ConsumerRemaining,
        error is NoProviders <==> error@ is NoProviders,
        error is BadOrigin <==> error@ is BadOrigin,
        error is CannotLookup <==> error@ is CannotLookup,
        error is Module <==> error@ is Module,
        error is Other <==> error@ is Other,
{
}

/// The value of a dispatch error has its kind, its text and its indices.
pub proof fn law_dispatch_error_value(error: DispatchError)
    ensures
        error matches DispatchError::Other(text) ==> error@ == DispatchErrorView::Other(text@),
        error matches DispatchError::Module { index, error: number } ==> error@ == (
        DispatchErrorView::Module { index, error: number }),
        error is CannotLookup <==> error@ is CannotLookup,
        error is BadOrigin <==> error@ is BadOrigin,
        error is ConsumerRemaining <==> error@ is ConsumerRemaining,
        error is NoProviders <==> error@ is NoProviders,
        dispatch_view(Err(error)) == Some(error@),
        dispatch_view(Ok(())) == None::<DispatchErrorView>,
{
}

/// The value of an error has its kind and what it carries, and a result carries its error or its
/// value.
pub proof fn law_error_value(error: Error, phase: Phase)
    ensures
        error is Codec <==> error@ is Codec,
        error matches Error::Metadata(missing) ==> error@ == Failure::Metadata(missing),
        error matches Error::TypeSizeUnavailable(name) ==> error@ == Failure::TypeSizeUnavailable(
            name@,
        ),
        error matches Error::Other(text) ==> error@ == Failure::Other(text@),
        failure_of(Err::<(), Error>(error)) == Some(error@),
        failure_of(Ok::<(), Error>(())) == None::<Failure>,
        ok_value(Ok::<Phase, Error>(phase)) == Some(phase),
        ok_value(Err::<Phase, Error>(error)) == None::<Phase>,
{
}

/// The values of several things are the values of each, in their order.
pub proof fn law_values_of_each(
    errors: Seq<RuntimeError>,
    entries: Seq<(Phase, Raw)>,
    strings: Seq<String>,
)
    ensures
        error_values(errors).len() == errors.len(),
        forall|i: int| 0 <= i < errors.len() ==> #[trigger] error_values(errors)[i] == errors[i]@,
        entry_values(entries).len() == entries.len(),
        forall|i: int|
            0 <= i < entries.len() ==> #[trigger] entry_values(entries)[i] == (
                entries[i].0,
                entries[i].1@,
            ),
        texts(strings).len() == strings.len(),
        forall|i: int| 0 <= i < strings.len() ==> #[trigger] texts(strings)[i] == strings[i]@,
{
}

/// Where a walk has come to is told by what is left, what has gone out, what was noted and whether
/// it has stopped, each as it is.
pub proof fn law_progress(
    rest: Seq<u8>,
    output: Seq<u8>,
    errors: Seq<RuntimeError>,
    failure: Option<Failure>,
    taken: Taken<Seq<u8>>,
)
    ensures
        at(rest, output, errors, failure).rest == rest,
        at(rest, output, errors, failure).output == output,
        at(rest, output, errors, failure).errors.len() == errors.len(),
        forall|i: int|
            0 <= i < errors.len() ==> #[trigger] at(rest, output, errors, failure).errors[i]
                == errors[i]@,
        at(rest, output, errors, failure).failure == failure,
        taken.value matches Some(bytes) ==> appended(taken) == bytes,
        taken.value is None ==> appended(taken).len() == 0,
{
}

/// Texts run together are the texts of the parts and nothing between them; names that list a set
/// are its members, each once.
pub proof fn law_names(
    first: Seq<Seq<char>>,
    second: Seq<Seq<char>>,
    text: Seq<char>,
    set: Set<Seq<char>>,
)
    ensures
        joined(Seq::empty()) == Seq::<char>::empty(),
        joined(seq![text]) == text,
        joined(first + second) == joined(first) + joined(second),
        lists(first, set) ==> (forall|name: Seq<char>| #[trigger]
            set.contains(name) <==> exists|i: int| 0 <= i < first.len() && first[i] == name),
        lists(first, set) ==> (forall|i: int, j: int|
            0 <= i < j < first.len() ==> first[i] != first[j]),
    decreases second.len(),
{
    reveal_with_fuel(joined, 2);
    assert(seq![text].drop_last() =~= Seq::empty());
    assert(joined(seq![text]) =~= text);
    if second.len() == 0 {
        assert(first + second =~= first);
        assert(joined(first) + joined(second) =~= joined(first));
    } else {
        assert((first + second).drop_last() =~= first + second.drop_last());
        law_names(first, second.drop_last(), text, set);
        assert(joined(first + second) =~= joined(first) + joined(second));
    }
    if lists(first, set) {
        assert forall|name: Seq<char>| #[trigger] set.contains(name) <==> exists|i: int|
            0 <= i < first.len() && first[i] == name by {
            assert(set.contains(name) == first.to_set().contains(name));
            assert(first.to_set().contains(name) == first.contains(name));
        }
    }
}

/// Bytes are shown as two digits each, the high one first.
pub proof fn law_hex_digits(data: Seq<u8>, i: int)
    requires
        0 <= i < data.len(),
    ensures
        hex_digits(data).len() == 2 * data.len(),
        hex_digits(data)[2 * i] == "0123456789abcdef"@[(data[i] / 16) as int],
        hex_digits(data)[2 * i + 1] == "0123456789abcdef"@[(data[i] % 16) as int],
{
    assert((2 * i) / 2 == i && (2 * i) % 2 == 0);
    assert((2 * i + 1) / 2 == i && (2 * i + 1) % 2 == 1);
    lemma_hex_digit((data[i] / 16) as u8);
    lemma_hex_digit((data[i] % 16) as u8);
}

proof fn lemma_hex_digit(value: u8)
    requires
        value < 16,
    ensures
        hex_digit(value) == "0123456789abcdef"@[value as int],
{
    reveal_strlit("0123456789abcdef");
    let digits = "0123456789abcdef"@;
    assert(digits[0] == '0' && digits[1] == '1' && digits[2] == '2' && digits[3] == '3');
    assert(digits[4] == '4' && digits[5] == '5' && digits[6] == '6' && digits[7] == '7');
    assert(digits[8] == '8' && digits[9] == '9' && digits[10] == 'a' && digits[11] == 'b');
    assert(digits[12] == 'c' && digits[13] == 'd' && digits[14] == 'e' && digits[15] == 'f');
}

} // verus!
