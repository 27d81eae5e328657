//! What holds of every decoding of a block's events.

use vstd::prelude::*;

use crate::bytes::{
    compact_digits, compact_front, lemma_compact_local, lemma_compact_round_trip,
    lemma_compact_written,
};
use crate::codec::byte_front;
use crate::error::Failure;
use crate::events::{
    list_front, phase_front, read_header, record_entries, run_events, run_record, run_records,
    topics_front, values_front, Decoding, Phase, RawView,
};
use crate::laws::{
    agree, all_faithful, all_local, all_within, law_args_copy, law_args_depend, law_args_extend,
    law_args_local, law_args_note_nothing, law_args_unavailable, lemma_alike_split, looked_into,
    plain, read_between, reading,
};
use crate::metadata::{first_with_events, primitives_of_all, Metadata, ModuleWithEvents};
use crate::missing::{is_missing, mentioned, missing_labels};
use crate::registry_laws::law_nothing_missing;
use crate::run::{fresh, run_args, Registry};
use crate::segment::{
    local, number_segmented, reads_lists, starts_alike, within, Listed, Segmenter,
};

verus! {

/// The number of bytes that a decoding has read between two points.
pub open spec fn decoded_between(from: Decoding, end: Decoding) -> int {
    from.rest.len() - end.rest.len()
}

/// What a decoding leaves to read is the tail of what it had to read, and the entries that it had
/// stay as they were.
pub open spec fn goes_on(from: Decoding, end: Decoding) -> bool {
    &&& decoded_between(from, end) >= 0
    &&& end.rest == from.rest.skip(decoded_between(from, end))
    &&& from.entries.is_prefix_of(end.entries)
}

/// The decoding `from` with `input` to read in place of what it has.
pub open spec fn decoding(from: Decoding, input: Seq<u8>) -> Decoding {
    Decoding { rest: input, ..from }
}

proof fn lemma_goes_on_trans(a: Decoding, b: Decoding, c: Decoding)
    requires
        goes_on(a, b),
        goes_on(b, c),
    ensures
        goes_on(a, c),
        decoded_between(a, c) == decoded_between(a, b) + decoded_between(b, c),
{
    assert(c.rest =~= a.rest.skip(decoded_between(a, c)));
    assert(a.entries =~= c.entries.take(a.entries.len() as int));
}

proof fn lemma_goes_on_refl(from: Decoding)
    ensures
        goes_on(from, from),
{
    assert(from.rest.skip(0) =~= from.rest);
    assert(from.entries =~= from.entries.take(from.entries.len() as int));
}

/// Bytes that are taken off one after the other are taken off at once.
proof fn lemma_skip_skip(input: Seq<u8>, first: nat, second: nat)
    requires
        first + second <= input.len(),
    ensures
        input.skip(first as int).skip(second as int) == input.skip((first + second) as int),
{
    assert(input.skip(first as int).skip(second as int) =~= input.skip((first + second) as int));
}

/// A header takes some bytes off the front.
proof fn lemma_header_within(metadata: Metadata, input: Seq<u8>) -> (used: nat)
    ensures
        used <= input.len(),
        read_header(metadata, input).0 == input.skip(used as int),
        read_header(metadata, input).1 is Ok ==> used == phase_front(input).used + 2,
{
    let phase = phase_front(input);
    let after_phase = input.skip(phase.used as int);
    let module = byte_front(after_phase);
    let after_module = after_phase.skip(module.used as int);
    let event = byte_front(after_module);
    lemma_skip_skip(input, phase.used, module.used);
    lemma_skip_skip(input, phase.used + module.used, event.used);
    let rest = read_header(metadata, input).0;
    (input.len() - rest.len()) as nat
}

/// A header that is complete does not depend on the bytes after it.
proof fn lemma_header_local(metadata: Metadata, input: Seq<u8>, other: Seq<u8>, used: nat)
    requires
        read_header(metadata, input).1 is Ok,
        used == phase_front(input).used + 2,
        used <= input.len(),
        starts_alike(input, other, used),
    ensures
        read_header(metadata, other) == (
            other.skip(used as int),
            read_header(metadata, input).1,
        ),
{
    let n = phase_front(input).used;
    lemma_alike_split(input, other, n, 2);
    lemma_alike_split(input.skip(n as int), other.skip(n as int), 1, 1);
    let tail = input.skip(n as int).skip(1);
    let other_tail = other.skip(n as int).skip(1);
    lemma_alike_split(tail, other_tail, 1, 0);
    if n == 5 {
        assert(input.skip(1).take(4) =~= input.take(5).skip(1));
        assert(other.skip(1).take(4) =~= other.take(5).skip(1));
    }
    assert(phase_front(other) == phase_front(input));
}

proof fn lemma_values_within(segmenter: Segmenter, count: nat, input: Seq<u8>)
    requires
        within(segmenter),
    ensures
        values_front(segmenter, count, input).used <= input.len(),
    decreases count,
{
    if count > 0 {
        let first = segmenter(input);
        assert(first.used <= input.len());
        lemma_values_within(segmenter, (count - 1) as nat, input.skip(first.used as int));
    }
}

proof fn lemma_values_local(segmenter: Segmenter, count: nat, input: Seq<u8>, other: Seq<u8>)
    requires
        within(segmenter),
        local(segmenter),
        values_front(segmenter, count, input).value is Some,
        starts_alike(input, other, values_front(segmenter, count, input).used),
    ensures
        values_front(segmenter, count, other) == values_front(segmenter, count, input),
    decreases count,
{
    if count > 0 {
        let first = segmenter(input);
        assert(first.used <= input.len());
        let rest = input.skip(first.used as int);
        let others = values_front(segmenter, (count - 1) as nat, rest);
        lemma_values_within(segmenter, (count - 1) as nat, rest);
        lemma_alike_split(input, other, first.used, others.used);
        assert(segmenter(other) == first);
        lemma_values_local(segmenter, (count - 1) as nat, rest, other.skip(first.used as int));
    }
}

proof fn lemma_list_within(list: Listed, count: nat, input: Seq<u8>)
    requires
        within(list.segmenter),
    ensures
        list_front(list, count, input).used <= input.len(),
{
    lemma_values_within(list.segmenter, count, input);
}

proof fn lemma_list_local(list: Listed, count: nat, input: Seq<u8>, other: Seq<u8>)
    requires
        within(list.segmenter),
        local(list.segmenter),
        list_front(list, count, input).value is Some,
        starts_alike(input, other, list_front(list, count, input).used),
    ensures
        list_front(list, count, other) == list_front(list, count, input),
{
    if list.bulk is None {
        lemma_values_local(list.segmenter, count, input, other);
    }
}

proof fn lemma_topics_within(hash: Listed, input: Seq<u8>)
    requires
        within(hash.segmenter),
    ensures
        topics_front(hash, input).used <= input.len(),
{
    let count = compact_front(input);
    lemma_compact_round_trip(input);
    if let Some(value) = count.value {
        lemma_list_within(hash, value, input.skip(count.used as int));
    }
}

proof fn lemma_topics_local(hash: Listed, input: Seq<u8>, other: Seq<u8>)
    requires
        within(hash.segmenter),
        local(hash.segmenter),
        topics_front(hash, input).value is Some,
        starts_alike(input, other, topics_front(hash, input).used),
    ensures
        topics_front(hash, other) == topics_front(hash, input),
{
    let count = compact_front(input);
    lemma_compact_round_trip(input);
    let rest = input.skip(count.used as int);
    let value = count.value->Some_0;
    lemma_list_within(hash, value, rest);
    lemma_alike_split(input, other, count.used, list_front(hash, value, rest).used);
    lemma_compact_local(input, other);
    lemma_list_local(hash, value, rest, other.skip(count.used as int));
}

/// An event record keeps the entries that there are. It adds nothing where it cannot be decoded.
/// Else it adds its event alone, exactly where the walk over its arguments noted no error, or the
/// errors noted, each as an entry and in their order; all in the phase of the record.
pub proof fn law_record(
    registry: Registry,
    metadata: Metadata,
    hash: Listed,
    from: Decoding,
)
    requires
        from.failure is None,
    ensures
        ({
            let end = run_record(registry, metadata, hash, from);
            let added = end.entries.skip(from.entries.len() as int);
            let (rest, header) = read_header(metadata, from.rest);
            let header = header->Ok_0;
            let walked = run_args(registry, metadata, header.event.arguments@, fresh(rest));
            &&& from.entries.is_prefix_of(end.entries)
            &&& end.failure is Some ==> added.len() == 0
            &&& end.failure is None ==> {
                &&& added.len() >= 1
                &&& Some(header.phase) == phase_front(from.rest).value
                &&& forall|i: int| 0 <= i < added.len() ==> (#[trigger] added[i]).0 == header.phase
                &&& walked.errors.len() == 0 <==> exists|i: int|
                    0 <= i < added.len() && (#[trigger] added[i]).1 is Event
                &&& walked.errors.len() == 0 ==> added.len() == 1 && added[0].1 == RawView::Event {
                    module: header.module.name@,
                    variant: header.event.name@,
                    data: walked.output,
                }
                &&& walked.errors.len() > 0 ==> added.len() == walked.errors.len() && forall|i: int|
                    0 <= i < added.len() ==> (#[trigger] added[i]).1 == RawView::Error(
                        walked.errors[i],
                    )
            }
        }),
{
    let end = run_record(registry, metadata, hash, from);
    let added = end.entries.skip(from.entries.len() as int);
    let (rest, header) = read_header(metadata, from.rest);
    if end.failure is None {
        let header = header->Ok_0;
        let walked = run_args(registry, metadata, header.event.arguments@, fresh(rest));
        let new = record_entries(header, walked.output, walked.errors);
        assert(added =~= new);
        if walked.errors.len() == 0 {
            assert(added[0].1 is Event);
        }
    }
    assert(from.entries =~= end.entries.take(from.entries.len() as int));
}

/// An event record is read off the front of the input.
pub proof fn law_record_reads(
    registry: Registry,
    metadata: Metadata,
    hash: Listed,
    from: Decoding,
)
    requires
        all_within(registry),
        within(hash.segmenter),
        from.failure is None,
    ensures
        goes_on(from, run_record(registry, metadata, hash, from)),
{
    law_record(registry, metadata, hash, from);
    let used = lemma_header_within(metadata, from.rest);
    let (rest, header) = read_header(metadata, from.rest);
    if let Ok(header) = header {
        let args = header.event.arguments@;
        let walked = run_args(registry, metadata, args, fresh(rest));
        law_args_extend(registry, metadata, args, fresh(rest));
        lemma_topics_within(hash, walked.rest);
        let read = read_between(fresh(rest), walked) as nat;
        let topics = topics_front(hash, walked.rest);
        lemma_skip_skip(from.rest, used, read);
        lemma_skip_skip(from.rest, used + read, topics.used);
    }
}

/// A decoded event without dispatch outcomes among its arguments comes as it was sent: its data
/// are the bytes of the input between the header of its record and the topics.
pub proof fn law_record_data(
    registry: Registry,
    metadata: Metadata,
    hash: Listed,
    from: Decoding,
)
    requires
        all_within(registry),
        all_faithful(registry),
        within(hash.segmenter),
        run_record(registry, metadata, hash, from).failure is None,
        plain(
            primitives_of_all(read_header(metadata, from.rest).1->Ok_0.event.arguments@),
        ),
    ensures
        ({
            let end = run_record(registry, metadata, hash, from);
            let (rest, header) = read_header(metadata, from.rest);
            let header = header->Ok_0;
            let data = run_args(registry, metadata, header.event.arguments@, fresh(rest)).output;
            let event = RawView::Event {
                module: header.module.name@,
                variant: header.event.name@,
                data,
            };
            &&& end.entries == from.entries.push((header.phase, event))
            &&& data == rest.take(data.len() as int)
            &&& end.rest == rest.skip(
                (data.len() + topics_front(hash, rest.skip(data.len() as int)).used) as int,
            )
        }),
{
    let (rest, header) = read_header(metadata, from.rest);
    let header = header->Ok_0;
    let args = header.event.arguments@;
    let walked = run_args(registry, metadata, args, fresh(rest));
    law_args_copy(registry, metadata, args, fresh(rest));
    let data = walked.output;
    let read = data.len();
    assert(data =~= rest.take(read as int));
    lemma_topics_within(hash, walked.rest);
    lemma_skip_skip(rest, read, topics_front(hash, walked.rest).used);
    assert(run_record(registry, metadata, hash, from).entries =~= from.entries.push(
        (
            header.phase,
            RawView::Event { module: header.module.name@, variant: header.event.name@, data },
        ),
    ));
}

/// Decoding event records keeps the entries that there are. Where it comes to its end, every record
/// has added at least one entry.
pub proof fn law_records(
    registry: Registry,
    metadata: Metadata,
    hash: Listed,
    count: nat,
    from: Decoding,
)
    ensures
        ({
            let end = run_records(registry, metadata, hash, count, from);
            &&& from.entries.is_prefix_of(end.entries)
            &&& end.failure is None ==> end.entries.len() >= from.entries.len() + count
        }),
    decreases count,
{
    assert(from.entries =~= from.entries.take(from.entries.len() as int));
    if count > 0 && from.failure is None {
        let next = run_record(registry, metadata, hash, from);
        let end = run_records(registry, metadata, hash, (count - 1) as nat, next);
        law_record(registry, metadata, hash, from);
        law_records(registry, metadata, hash, (count - 1) as nat, next);
        assert(from.entries =~= end.entries.take(from.entries.len() as int));
    }
}

/// Decoding event records takes bytes off the front of the input only.
pub proof fn law_records_read(
    registry: Registry,
    metadata: Metadata,
    hash: Listed,
    count: nat,
    from: Decoding,
)
    requires
        all_within(registry),
        within(hash.segmenter),
    ensures
        goes_on(from, run_records(registry, metadata, hash, count, from)),
    decreases count,
{
    lemma_goes_on_refl(from);
    if count > 0 && from.failure is None {
        let next = run_record(registry, metadata, hash, from);
        law_record_reads(registry, metadata, hash, from);
        law_records_read(registry, metadata, hash, (count - 1) as nat, next);
        lemma_goes_on_trans(
            from,
            next,
            run_records(registry, metadata, hash, (count - 1) as nat, next),
        );
    }
}

/// Decoding some event records and then some more is decoding all of them. In particular nothing
/// is decoded past a record that cannot be decoded.
pub proof fn law_records_in_sequence(
    registry: Registry,
    metadata: Metadata,
    hash: Listed,
    first: nat,
    second: nat,
    from: Decoding,
)
    ensures
        run_records(registry, metadata, hash, first + second, from) == run_records(
            registry,
            metadata,
            hash,
            second,
            run_records(registry, metadata, hash, first, from),
        ),
    decreases first,
{
    if first > 0 && from.failure is None {
        law_records_in_sequence(
            registry,
            metadata,
            hash,
            (first - 1) as nat,
            second,
            run_record(registry, metadata, hash, from),
        );
        assert((first + second - 1) as nat == (first - 1) as nat + second);
    }
}

/// Where decoding the events of a block comes to its end there are at least as many entries as the
/// block says that it has events.
pub proof fn law_events(registry: Registry, metadata: Metadata, hash: Listed, input: Seq<u8>)
    ensures
        ({
            let end = run_events(registry, metadata, hash, input);
            end.failure is None ==> compact_front(input).value is Some && end.entries.len()
                >= compact_front(input).value->Some_0
        }),
{
    let count = compact_front(input);
    let from = Decoding {
        rest: input.skip(count.used as int),
        entries: Seq::empty(),
        failure: None,
    };
    if let Some(value) = count.value {
        law_records(registry, metadata, hash, value, from);
    }
}

/// No event of the metadata mentions a type whose values the walk looks into.
pub open spec fn plain_events(metadata: Metadata) -> bool {
    forall|module: int, event: int|
        0 <= module < metadata.modules_with_events@.len() && 0 <= event
            < metadata.modules_with_events@[module].events@.len() ==> plain(
            #[trigger] mentioned(metadata, module, event),
        )
}

/// Where no event of the metadata mentions dispatch outcomes, every record that is decoded adds its
/// event and nothing else.
pub proof fn law_plain_records(
    registry: Registry,
    metadata: Metadata,
    hash: Listed,
    count: nat,
    from: Decoding,
)
    requires
        plain_events(metadata),
        run_records(registry, metadata, hash, count, from).failure is None,
    ensures
        ({
            let end = run_records(registry, metadata, hash, count, from);
            &&& end.entries.len() == from.entries.len() + count
            &&& forall|i: int|
                from.entries.len() <= i < end.entries.len() ==> (
                #[trigger] end.entries[i]).1 is Event
        }),
    decreases count,
{
    if count > 0 {
        let next = run_record(registry, metadata, hash, from);
        let end = run_records(registry, metadata, hash, (count - 1) as nat, next);
        assert(next.failure is Some ==> end == next);
        let (rest, header) = read_header(metadata, from.rest);
        let (module, event) = lemma_header_event(metadata, from.rest);
        assert(plain(mentioned(metadata, module, event)));
        law_args_note_nothing(registry, metadata, header->Ok_0.event.arguments@, fresh(rest));
        law_plain_records(registry, metadata, hash, (count - 1) as nat, next);
        law_records(registry, metadata, hash, (count - 1) as nat, next);
        let place = from.entries.len() as int;
        assert(next.entries[place].1 is Event);
        assert(end.entries[place] == next.entries[place]);
    }
}

/// Where no event of the metadata mentions dispatch outcomes, the events of a block are decoded to
/// exactly as many entries as the block says that it has events, and all of them are events.
pub proof fn law_plain_events(registry: Registry, metadata: Metadata, hash: Listed, input: Seq<u8>)
    requires
        plain_events(metadata),
        run_events(registry, metadata, hash, input).failure is None,
    ensures
        ({
            let end = run_events(registry, metadata, hash, input);
            &&& compact_front(input).value == Some(end.entries.len())
            &&& forall|i: int|
                0 <= i < end.entries.len() ==> (#[trigger] end.entries[i]).1 is Event
        }),
{
    let count = compact_front(input);
    let from = Decoding {
        rest: input.skip(count.used as int),
        entries: Seq::empty(),
        failure: None,
    };
    law_plain_records(registry, metadata, hash, count.value->Some_0, from);
}

/// Decoding the events of a block takes bytes off the front of the input only.
pub proof fn law_events_read(registry: Registry, metadata: Metadata, hash: Listed, input: Seq<u8>)
    requires
        all_within(registry),
        within(hash.segmenter),
    ensures
        run_events(registry, metadata, hash, input).rest.is_suffix_of(input),
{
    let count = compact_front(input);
    lemma_compact_round_trip(input);
    let from = Decoding {
        rest: input.skip(count.used as int),
        entries: Seq::empty(),
        failure: None,
    };
    let end = run_events(registry, metadata, hash, input);
    if let Some(value) = count.value {
        law_records_read(registry, metadata, hash, value, from);
        lemma_skip_skip(input, count.used, decoded_between(from, end) as nat);
    }
}

/// An event record that can be decoded does not depend on the bytes after it, where the types of
/// its arguments and topics do not.
pub proof fn law_record_local(
    registry: Registry,
    metadata: Metadata,
    hash: Listed,
    from: Decoding,
    input: Seq<u8>,
)
    requires
        all_within(registry),
        all_local(registry),
        within(hash.segmenter),
        local(hash.segmenter),
        from.failure is None,
        run_record(registry, metadata, hash, from).failure is None,
        starts_alike(
            from.rest,
            input,
            decoded_between(from, run_record(registry, metadata, hash, from)) as nat,
        ),
    ensures
        run_record(registry, metadata, hash, decoding(from, input)) == decoding(
            run_record(registry, metadata, hash, from),
            input.skip(decoded_between(from, run_record(registry, metadata, hash, from))),
        ),
{
    let used = lemma_header_within(metadata, from.rest);
    let (rest, header) = read_header(metadata, from.rest);
    let header = header->Ok_0;
    let args = header.event.arguments@;
    let walked = run_args(registry, metadata, args, fresh(rest));
    law_args_extend(registry, metadata, args, fresh(rest));
    lemma_topics_within(hash, walked.rest);
    let read = read_between(fresh(rest), walked) as nat;
    let topics = topics_front(hash, walked.rest);
    lemma_skip_skip(from.rest, used, read);
    lemma_skip_skip(from.rest, used + read, topics.used);
    lemma_alike_split(from.rest, input, used, read + topics.used);
    let other_rest = input.skip(used as int);
    lemma_alike_split(rest, other_rest, read, topics.used);
    lemma_header_local(metadata, from.rest, input, used);
    law_args_local(registry, metadata, args, fresh(rest), other_rest);
    assert(reading(fresh(rest), other_rest) == fresh(other_rest));
    lemma_topics_local(hash, walked.rest, other_rest.skip(read as int));
}

/// Event records that can be decoded do not depend on the bytes after them, where the types of
/// their arguments and topics do not.
pub proof fn law_records_local(
    registry: Registry,
    metadata: Metadata,
    hash: Listed,
    count: nat,
    from: Decoding,
    input: Seq<u8>,
)
    requires
        all_within(registry),
        all_local(registry),
        within(hash.segmenter),
        local(hash.segmenter),
        from.failure is None,
        run_records(registry, metadata, hash, count, from).failure is None,
        starts_alike(
            from.rest,
            input,
            decoded_between(from, run_records(registry, metadata, hash, count, from)) as nat,
        ),
    ensures
        run_records(registry, metadata, hash, count, decoding(from, input)) == decoding(
            run_records(registry, metadata, hash, count, from),
            input.skip(decoded_between(from, run_records(registry, metadata, hash, count, from))),
        ),
    decreases count,
{
    if count == 0 {
        assert(input.skip(0) =~= input);
    } else {
        let next = run_record(registry, metadata, hash, from);
        let end = run_records(registry, metadata, hash, (count - 1) as nat, next);
        assert(next.failure is Some ==> end == next);
        law_record_reads(registry, metadata, hash, from);
        law_records_read(registry, metadata, hash, (count - 1) as nat, next);
        lemma_goes_on_trans(from, next, end);
        let n = decoded_between(from, next) as nat;
        lemma_alike_split(from.rest, input, n, decoded_between(next, end) as nat);
        law_record_local(registry, metadata, hash, from, input);
        law_records_local(
            registry,
            metadata,
            hash,
            (count - 1) as nat,
            next,
            input.skip(n as int),
        );
    }
}

/// The events of a block do not depend on the bytes that come after them, where the types of their
/// arguments and topics do not: what comes after is left as it is.
pub proof fn law_events_local(
    registry: Registry,
    metadata: Metadata,
    hash: Listed,
    input: Seq<u8>,
    other: Seq<u8>,
)
    requires
        all_within(registry),
        all_local(registry),
        within(hash.segmenter),
        local(hash.segmenter),
        run_events(registry, metadata, hash, input).failure is None,
        starts_alike(
            input,
            other,
            (input.len() - run_events(registry, metadata, hash, input).rest.len()) as nat,
        ),
    ensures
        ({
            let end = run_events(registry, metadata, hash, input);
            run_events(registry, metadata, hash, other) == decoding(
                end,
                other.skip(input.len() - end.rest.len()),
            )
        }),
{
    let count = compact_front(input);
    lemma_compact_round_trip(input);
    let from = Decoding {
        rest: input.skip(count.used as int),
        entries: Seq::empty(),
        failure: None,
    };
    let value = count.value->Some_0;
    let end = run_records(registry, metadata, hash, value, from);
    law_records_read(registry, metadata, hash, value, from);
    lemma_alike_split(input, other, count.used, decoded_between(from, end) as nat);
    lemma_compact_local(input, other);
    law_records_local(registry, metadata, hash, value, from, other.skip(count.used as int));
}

/// The module that goes by an index is one of those in the metadata.
proof fn lemma_first_is_one(modules: Seq<ModuleWithEvents>, index: u8) -> (place: int)
    requires
        first_with_events(modules, index) is Some,
    ensures
        0 <= place < modules.len(),
        first_with_events(modules, index) == Some(modules[place]),
    decreases modules.len(),
{
    if modules[0].index == index {
        0
    } else {
        1 + lemma_first_is_one(modules.skip(1), index)
    }
}

/// The event of a header is one of those in the metadata.
proof fn lemma_header_event(metadata: Metadata, input: Seq<u8>) -> (place: (int, int))
    requires
        read_header(metadata, input).1 is Ok,
    ensures
        0 <= place.0 < metadata.modules_with_events@.len(),
        0 <= place.1 < metadata.modules_with_events@[place.0].events@.len(),
        read_header(metadata, input).1->Ok_0.event
            == metadata.modules_with_events@[place.0].events@[place.1],
{
    let after_phase = input.skip(phase_front(input).used as int);
    let module = lemma_first_is_one(metadata.modules_with_events@, after_phase[0]);
    (module, after_phase.skip(1)[0] as int)
}

/// Where decoding an event record stops for want of a segmenter, the type is one that an event of
/// the metadata mentions and that is not registered.
pub proof fn law_record_unavailable(
    registry: Registry,
    metadata: Metadata,
    hash: Listed,
    from: Decoding,
    name: Seq<char>,
)
    requires
        run_record(registry, metadata, hash, from).failure == Some(
            Failure::TypeSizeUnavailable(name),
        ),
    ensures
        !looked_into(name),
        exists|module: int, event: int, primitive: int| #[trigger]
            is_missing(registry, metadata, module, event, primitive) && mentioned(
                metadata,
                module,
                event,
            )[primitive] == name,
{
    let (rest, header) = read_header(metadata, from.rest);
    let (module, event) = lemma_header_event(metadata, from.rest);
    let args = header->Ok_0.event.arguments@;
    law_args_unavailable(registry, metadata, args, fresh(rest), name);
    let primitive = mentioned(metadata, module, event).index_of(name);
    assert(is_missing(registry, metadata, module, event, primitive));
}

/// Where decoding event records stops for want of a segmenter, the type is one that an event of
/// the metadata mentions and that is not registered.
pub proof fn law_records_unavailable(
    registry: Registry,
    metadata: Metadata,
    hash: Listed,
    count: nat,
    from: Decoding,
    name: Seq<char>,
)
    requires
        from.failure is None,
        run_records(registry, metadata, hash, count, from).failure == Some(
            Failure::TypeSizeUnavailable(name),
        ),
    ensures
        !looked_into(name),
        exists|module: int, event: int, primitive: int| #[trigger]
            is_missing(registry, metadata, module, event, primitive) && mentioned(
                metadata,
                module,
                event,
            )[primitive] == name,
    decreases count,
{
    let next = run_record(registry, metadata, hash, from);
    if next.failure is Some {
        assert(run_records(registry, metadata, hash, (count - 1) as nat, next) == next);
        law_record_unavailable(registry, metadata, hash, from, name);
    } else {
        law_records_unavailable(registry, metadata, hash, (count - 1) as nat, next, name);
    }
}

/// Where checking for missing types finds none, decoding events never stops for want of a
/// segmenter.
pub proof fn law_checked_types_suffice(
    registry: Registry,
    metadata: Metadata,
    hash: Listed,
    input: Seq<u8>,
)
    requires
        missing_labels(registry, metadata) == Set::<Seq<char>>::empty(),
    ensures
        !(run_events(registry, metadata, hash, input).failure matches Some(
            Failure::TypeSizeUnavailable(_),
        )),
{
    law_nothing_missing(registry, metadata);
    let end = run_events(registry, metadata, hash, input);
    if let Some(Failure::TypeSizeUnavailable(name)) = end.failure {
        let count = compact_front(input);
        let from = Decoding {
            rest: input.skip(count.used as int),
            entries: Seq::empty(),
            failure: None,
        };
        law_records_unavailable(registry, metadata, hash, count.value->Some_0, from, name);
    }
}

/// The two registries have the same segmenters for all types that the events of the metadata
/// mention and leave to segmenters.
pub open spec fn agree_on_events(registry: Registry, other: Registry, metadata: Metadata) -> bool {
    forall|module: int, event: int|
        0 <= module < metadata.modules_with_events@.len() && 0 <= event
            < metadata.modules_with_events@[module].events@.len() ==> agree(
            registry,
            other,
            #[trigger] mentioned(metadata, module, event),
        )
}

/// Decoding event records depends on no segmenters but those of the types that the events of the
/// metadata mention.
pub proof fn law_records_depend(
    registry: Registry,
    other: Registry,
    metadata: Metadata,
    hash: Listed,
    count: nat,
    from: Decoding,
)
    requires
        agree_on_events(registry, other, metadata),
    ensures
        run_records(registry, metadata, hash, count, from) == run_records(
            other,
            metadata,
            hash,
            count,
            from,
        ),
    decreases count,
{
    if count > 0 && from.failure is None {
        let (rest, header) = read_header(metadata, from.rest);
        if header is Ok {
            let (module, event) = lemma_header_event(metadata, from.rest);
            assert(agree(registry, other, mentioned(metadata, module, event)));
            law_args_depend(
                registry,
                other,
                metadata,
                header->Ok_0.event.arguments@,
                fresh(rest),
            );
        }
        law_records_depend(
            registry,
            other,
            metadata,
            hash,
            (count - 1) as nat,
            run_record(registry, metadata, hash, from),
        );
    }
}

/// An event record is decoded from its parts, whatever comes after it: from a header, arguments
/// that the event it names can have, and topics.
pub proof fn law_record_of_parts(
    registry: Registry,
    metadata: Metadata,
    hash: Listed,
    entries: Seq<(Phase, RawView)>,
    header: Seq<u8>,
    arguments: Seq<u8>,
    topics: Seq<u8>,
    tail: Seq<u8>,
)
    requires
        all_within(registry),
        all_local(registry),
        within(hash.segmenter),
        local(hash.segmenter),
        read_header(metadata, header).0.len() == 0,
        read_header(metadata, header).1 is Ok,
        ({
            let types = read_header(metadata, header).1->Ok_0.event.arguments@;
            let walked = run_args(registry, metadata, types, fresh(arguments));
            walked.rest.len() == 0 && walked.failure is None
        }),
        topics_front(hash, topics).used == topics.len(),
        topics_front(hash, topics).value is Some,
    ensures
        ({
            let found = read_header(metadata, header).1->Ok_0;
            let walked = run_args(registry, metadata, found.event.arguments@, fresh(arguments));
            run_record(
                registry,
                metadata,
                hash,
                Decoding { rest: header + arguments + topics + tail, entries, failure: None },
            ) == (Decoding {
                rest: tail,
                entries: entries + record_entries(found, walked.output, walked.errors),
                failure: None,
            })
        }),
{
    let input = header + arguments + topics + tail;
    let used = lemma_header_within(metadata, header);
    assert(input.take(used as int) =~= header.take(used as int));
    lemma_header_local(metadata, header, input, used);
    let after_header = arguments + topics + tail;
    assert(input.skip(used as int) =~= after_header);
    let types = read_header(metadata, header).1->Ok_0.event.arguments@;
    let count = arguments.len() as int;
    assert(after_header.take(count) =~= arguments.take(count));
    law_args_local(registry, metadata, types, fresh(arguments), after_header);
    assert(reading(fresh(arguments), after_header) == fresh(after_header));
    assert(after_header.skip(count) =~= topics + tail);
    let count = topics.len() as int;
    assert((topics + tail).take(count) =~= topics.take(count));
    lemma_topics_local(hash, topics, topics + tail);
    assert((topics + tail).skip(count) =~= tail);
}

/// What decoding a record on its own comes to.
pub open spec fn alone(
    registry: Registry,
    metadata: Metadata,
    hash: Listed,
    record: Seq<u8>,
) -> Decoding {
    run_record(
        registry,
        metadata,
        hash,
        Decoding { rest: record, entries: Seq::empty(), failure: None },
    )
}

/// The bytes are an event record, and nothing more.
pub open spec fn is_record(
    registry: Registry,
    metadata: Metadata,
    hash: Listed,
    record: Seq<u8>,
) -> bool {
    let end = alone(registry, metadata, hash, record);
    end.failure is None && end.rest.len() == 0
}

/// The bytes of `records`, one after the other.
pub open spec fn strung(records: Seq<Seq<u8>>) -> Seq<u8>
    decreases records.len(),
{
    if records.len() == 0 {
        Seq::empty()
    } else {
        records[0] + strung(records.skip(1))
    }
}

/// The entries that each of `records` comes to on its own, one after the other.
pub open spec fn all_entries(
    registry: Registry,
    metadata: Metadata,
    hash: Listed,
    records: Seq<Seq<u8>>,
) -> Seq<(Phase, RawView)>
    decreases records.len(),
{
    if records.len() == 0 {
        Seq::empty()
    } else {
        alone(registry, metadata, hash, records[0]).entries + all_entries(
            registry,
            metadata,
            hash,
            records.skip(1),
        )
    }
}

proof fn lemma_strung_records(
    registry: Registry,
    metadata: Metadata,
    hash: Listed,
    records: Seq<Seq<u8>>,
    entries: Seq<(Phase, RawView)>,
    tail: Seq<u8>,
)
    requires
        all_within(registry),
        all_local(registry),
        within(hash.segmenter),
        local(hash.segmenter),
        forall|i: int|
            0 <= i < records.len() ==> is_record(registry, metadata, hash, #[trigger] records[i]),
    ensures
        run_records(
            registry,
            metadata,
            hash,
            records.len(),
            Decoding { rest: strung(records) + tail, entries, failure: None },
        ) == (Decoding {
            rest: tail,
            entries: entries + all_entries(registry, metadata, hash, records),
            failure: None,
        }),
    decreases records.len(),
{
    let from = Decoding { rest: strung(records) + tail, entries, failure: None };
    if records.len() == 0 {
        assert(from.rest =~= tail);
        assert(entries + Seq::<(Phase, RawView)>::empty() =~= entries);
    } else {
        let record = records[0];
        let others = records.skip(1);
        let end = alone(registry, metadata, hash, record);
        let rest = strung(others) + tail;
        assert(from.rest =~= record + rest);
        assert(is_record(registry, metadata, hash, record));
        let count = record.len() as int;
        assert(from.rest.take(count) =~= record.take(count));
        assert(from.rest.skip(count) =~= rest);
        let lone = Decoding { rest: record, entries: Seq::empty(), failure: None };
        law_record_local(registry, metadata, hash, lone, from.rest);
        let next = run_record(registry, metadata, hash, from);
        assert(next.entries =~= entries + end.entries);
        assert(next == Decoding { rest, entries: entries + end.entries, failure: None });
        assert forall|i: int| 0 <= i < others.len() implies is_record(
            registry,
            metadata,
            hash,
            #[trigger] others[i],
        ) by {
            assert(others[i] == records[i + 1]);
        }
        lemma_strung_records(registry, metadata, hash, others, entries + end.entries, tail);
        assert((entries + end.entries) + all_entries(registry, metadata, hash, others) =~= entries
            + all_entries(registry, metadata, hash, records));
    }
}

/// The events of a block, given as the number of its event records and these records, are decoded
/// to what each record is decoded to on its own, and what comes after them is left as it is.
pub proof fn law_events_of_records(
    registry: Registry,
    metadata: Metadata,
    hash: Listed,
    records: Seq<Seq<u8>>,
    tail: Seq<u8>,
)
    requires
        all_within(registry),
        all_local(registry),
        within(hash.segmenter),
        local(hash.segmenter),
        records.len() <= u32::MAX,
        forall|i: int|
            0 <= i < records.len() ==> is_record(registry, metadata, hash, #[trigger] records[i]),
    ensures
        run_events(
            registry,
            metadata,
            hash,
            compact_digits(records.len()) + strung(records) + tail,
        ) == (Decoding {
            rest: tail,
            entries: all_entries(registry, metadata, hash, records),
            failure: None,
        }),
{
    let count = compact_digits(records.len());
    let after = strung(records) + tail;
    let input = count + strung(records) + tail;
    assert(input =~= count + after);
    lemma_compact_written(records.len(), after);
    assert(input.skip(count.len() as int) =~= after);
    lemma_strung_records(registry, metadata, hash, records, Seq::empty(), tail);
    let all = all_entries(registry, metadata, hash, records);
    assert(Seq::<(Phase, RawView)>::empty() + all =~= all);
}

/// Reading a list all at once or value by value gives the same, but for what is taken off an input
/// that does not hold all of the list.
pub open spec fn read_alike(list: Listed, count: nat, input: Seq<u8>) -> bool {
    let at_once = list_front(list, count, input);
    let in_turn = values_front(list.segmenter, count, input);
    &&& at_once.value is Some <==> in_turn.value is Some
    &&& at_once.value is Some ==> at_once.used == in_turn.used
}

proof fn lemma_values_of_width(segmenter: Segmenter, width: nat, count: nat, input: Seq<u8>)
    requires
        forall|other: Seq<u8>| #[trigger] segmenter(other) == number_segmented(other, width),
    ensures
        values_front(segmenter, count, input).value is Some <==> input.len() >= count * width,
        values_front(segmenter, count, input).value is Some ==> values_front(
            segmenter,
            count,
            input,
        ).used == count * width,
    decreases count,
{
    if count == 0 {
        assert(count * width == 0) by (nonlinear_arith)
            requires
                count == 0,
        ;
    } else {
        let others = (count - 1) as nat;
        assert(count * width == others * width + width && others * width >= 0) by (nonlinear_arith)
            requires
                count == others + 1,
                others >= 0,
                width >= 0,
        ;
        assert(segmenter(input) == number_segmented(input, width));
        if input.len() >= width {
            lemma_values_of_width(segmenter, width, others, input.skip(width as int));
        }
    }
}

/// A list of integers is accepted exactly where its values can be read one after the other, and
/// then takes the same bytes, whether it is read all at once or not.
pub proof fn law_integer_lists(list: Listed, count: nat, input: Seq<u8>)
    requires
        reads_lists::<u8>(list) || reads_lists::<u32>(list) || reads_lists::<u64>(list)
            || reads_lists::<u128>(list),
    ensures
        read_alike(list, count, input),
{
    if let Some(width) = list.bulk {
        lemma_values_of_width(list.segmenter, width as nat, count, input);
    }
}

} // verus!
