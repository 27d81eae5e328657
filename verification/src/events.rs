//! The events of a block.

use core::marker::PhantomData;
use parity_scale_codec::Error as CodecError;
use vstd::prelude::*;
use vstd::slice::slice_subrange;

use crate::bytes::{
    compact_front, failed, got, lemma_compact_round_trip, lemma_suffix_trans, ok_value, Taken,
};
use crate::codec::{
    byte_front, chain, codec_error, decode_compact, decode_u32, number_front, read_byte,
};
use crate::error::{failure_of, Error, Failure, RuntimeError, RuntimeErrorView};
use crate::metadata::{
    first_with_events, Metadata, MetadataError, ModuleEventMetadata, ModuleWithEvents,
};
use crate::run::{error_values, fresh, run_args, Registry};
use crate::segment::{reads_lists, segmenter_of, Listed, Segment, Segmenter, System};
use crate::segmenter::EventBytesSegmenter;
use crate::text::{hex_digits, hex_encode, quote, quoted};

verus! {

/// A phase of a block's execution.
#[derive(Clone, Copy, Debug, PartialEq, Eq, Structural)]
pub enum Phase {
    /// Applying an extrinsic.
    ApplyExtrinsic(u32),
    /// Finalizing the block.
    Finalization,
    /// Initializing the block.
    Initialization,
}

/// Reading a phase: a byte for the phase, and the index of an extrinsic that is applied.
pub open spec fn phase_front(input: Seq<u8>) -> Taken<Phase> {
    if input.len() == 0 {
        failed(0)
    } else if input[0] == 0 {
        match number_front(input.skip(1), 4).value {
            Some(index) => got(5, Phase::ApplyExtrinsic(index as u32)),
            None => failed(1),
        }
    } else if input[0] == 1 {
        got(1, Phase::Finalization)
    } else if input[0] == 2 {
        got(1, Phase::Initialization)
    } else {
        failed(1)
    }
}

impl Phase {
    /// Decodes a phase.
    pub fn decode(input: &mut &[u8]) -> (result: Result<Phase, CodecError>)
        ensures
            final(input)@ == old(input)@.skip(phase_front(old(input)@).used as int),
            final(input)@.is_suffix_of(old(input)@),
            ok_value(result) == phase_front(old(input)@).value,
    {
        match read_byte(input) {
            Ok(0) => match decode_u32(input) {
                Ok(index) => {
                    assert(old(input)@.skip(1).skip(4) =~= old(input)@.skip(5));
                    Ok(Phase::ApplyExtrinsic(index))
                },
                Err(error) => Err(chain(error, "Could not decode `Phase::ApplyExtrinsic.0`")),
            },
            Ok(1) => Ok(Phase::Finalization),
            Ok(2) => Ok(Phase::Initialization),
            Ok(_) => Err(codec_error("Could not decode `Phase`, variant doesn't exist")),
            Err(error) => Err(
                chain(error, "Could not decode `Phase`, failed to read variant byte"),
            ),
        }
    }
}

/// Raw bytes for an Event.
pub struct RawEvent {
    /// The name of the module from whence the Event originated.
    pub module: String,
    /// The name of the Event.
    pub variant: String,
    /// The raw Event data.
    pub data: Vec<u8>,
}

/// Raw event or error event.
pub enum Raw {
    /// Event.
    Event(RawEvent),
    /// Error.
    Error(RuntimeError),
}

/// The mathematical value of a [`Raw`].
pub enum RawView {
    Event { module: Seq<char>, variant: Seq<char>, data: Seq<u8> },
    Error(RuntimeErrorView),
}

impl View for Raw {
    type V = RawView;

    open spec fn view(&self) -> RawView {
        match *self {
            Raw::Event(event) => RawView::Event {
                module: event.module@,
                variant: event.variant@,
                data: event.data@,
            },
            Raw::Error(error) => RawView::Error(error@),
        }
    }
}

/// The values of decoded entries.
pub open spec fn entry_values(entries: Seq<(Phase, Raw)>) -> Seq<(Phase, RawView)> {
    entries.map_values(|entry: (Phase, Raw)| (entry.0, entry.1@))
}

/// The text that shows an event, made of the texts that show its parts.
pub fn event_text(module: &str, variant: &str, data: &str) -> (text: String)
    ensures
        text@ == "RawEvent { module: "@ + module@ + ", variant: "@ + variant@ + ", data: "@ + data@
            + " }"@,
{
    let mut text = "RawEvent { module: ".to_owned();
    text.append(module);
    text.append(", variant: ");
    text.append(variant);
    text.append(", data: ");
    text.append(data);
    text.append(" }");
    text
}

impl RawEvent {
    /// The event as debugging output shows it, with its data in hexadecimal digits.
    pub fn debug_text(&self) -> (text: String)
        ensures
            text@ == "RawEvent { module: "@ + quoted(self.module@) + ", variant: "@ + quoted(
                self.variant@,
            ) + ", data: "@ + quoted(hex_digits(self.data@)) + " }"@,
    {
        let module = quote(self.module.as_str());
        let variant = quote(self.variant.as_str());
        let data = quote(hex_encode(&self.data).as_str());
        event_text(module.as_str(), variant.as_str(), data.as_str())
    }
}

/// How far the decoding of a block's events has come: the bytes not read yet, the entries decoded
/// so far, and what stopped it, if anything did.
pub struct Decoding {
    pub rest: Seq<u8>,
    pub entries: Seq<(Phase, RawView)>,
    pub failure: Option<Failure>,
}

impl Decoding {
    /// Goes on, with `rest` still to read.
    pub open spec fn go(self, rest: Seq<u8>) -> Decoding {
        Decoding { rest, ..self }
    }

    /// Stops, with `rest` still to read.
    pub open spec fn stop(self, rest: Seq<u8>, failure: Failure) -> Decoding {
        Decoding { rest, failure: Some(failure), ..self }
    }
}

/// What comes before the arguments of an event: the phase it was emitted in and which event it is.
pub struct Header {
    pub phase: Phase,
    pub module: ModuleWithEvents,
    pub event: ModuleEventMetadata,
}

/// Reading the header of an event record: the phase, the index of the module and the index of the
/// event in it. Gives the bytes that are left, and the header or what is wrong with it.
pub open spec fn read_header(metadata: Metadata, input: Seq<u8>) -> (Seq<u8>, Result<
    Header,
    Failure,
>) {
    let phase = phase_front(input);
    let after_phase = input.skip(phase.used as int);
    let module = byte_front(after_phase);
    let after_module = after_phase.skip(module.used as int);
    let event = byte_front(after_module);
    let after_event = after_module.skip(event.used as int);
    if phase.value is None {
        (after_phase, Err(Failure::Codec))
    } else if module.value is None {
        (after_module, Err(Failure::Codec))
    } else {
        let index = module.value->Some_0;
        match first_with_events(metadata.modules_with_events@, index) {
            None => (
                after_module,
                Err(Failure::Metadata(MetadataError::ModuleIndexNotFound(index))),
            ),
            Some(module) => if event.value is None {
                (after_event, Err(Failure::Codec))
            } else if event.value->Some_0 < module.events@.len() {
                (
                    after_event,
                    Ok(
                        Header {
                            phase: phase.value->Some_0,
                            module,
                            event: module.events@[event.value->Some_0 as int],
                        },
                    ),
                )
            } else {
                (
                    after_event,
                    Err(Failure::Metadata(MetadataError::EventNotFound(event.value->Some_0))),
                )
            },
        }
    }
}

/// Reading `count` values with a segmenter, one after the other.
pub open spec fn values_front(segmenter: Segmenter, count: nat, input: Seq<u8>) -> Taken<()>
    decreases count,
{
    if count == 0 {
        got(0, ())
    } else {
        let first = segmenter(input);
        if first.value is None {
            failed(first.used)
        } else {
            let others = values_front(
                segmenter,
                (count - 1) as nat,
                input.skip(first.used as int),
            );
            Taken { used: first.used + others.used, value: others.value }
        }
    }
}

/// Reading `count` values of a list.
pub open spec fn list_front(list: Listed, count: nat, input: Seq<u8>) -> Taken<()> {
    match list.bulk {
        Some(width) => if input.len() < count * (width as nat) {
            failed(0)
        } else {
            got(count * (width as nat), ())
        },
        None => values_front(list.segmenter, count, input),
    }
}

/// Reading the topics of an event: their number and then the topics.
pub open spec fn topics_front(hash: Listed, input: Seq<u8>) -> Taken<()> {
    let count = compact_front(input);
    match count.value {
        Some(value) => {
            let topics = list_front(hash, value, input.skip(count.used as int));
            Taken { used: count.used + topics.used, value: topics.value }
        },
        None => failed(count.used),
    }
}

/// What an event record is decoded to: the event, or else the errors that it reports.
pub open spec fn record_entries(header: Header, data: Seq<u8>, errors: Seq<RuntimeErrorView>) -> Seq<
    (Phase, RawView),
> {
    if errors.len() == 0 {
        seq![
            (
                header.phase,
                RawView::Event { module: header.module.name@, variant: header.event.name@, data },
            ),
        ]
    } else {
        errors.map_values(|error: RuntimeErrorView| (header.phase, RawView::Error(error)))
    }
}

/// Decodes an event record: its header, the arguments of the event and its topics.
pub open spec fn run_record(
    registry: Registry,
    metadata: Metadata,
    hash: Listed,
    from: Decoding,
) -> Decoding {
    let (rest, header) = read_header(metadata, from.rest);
    match header {
        Err(failure) => from.stop(rest, failure),
        Ok(header) => {
            let end = run_args(registry, metadata, header.event.arguments@, fresh(rest));
            let topics = topics_front(hash, end.rest);
            match end.failure {
                Some(failure) => from.stop(end.rest, failure),
                None => if topics.value is None {
                    from.stop(end.rest.skip(topics.used as int), Failure::Codec)
                } else {
                    Decoding {
                        rest: end.rest.skip(topics.used as int),
                        entries: from.entries + record_entries(header, end.output, end.errors),
                        failure: None,
                    }
                },
            }
        },
    }
}

/// Decodes `count` event records, one after the other.
pub open spec fn run_records(
    registry: Registry,
    metadata: Metadata,
    hash: Listed,
    count: nat,
    from: Decoding,
) -> Decoding
    decreases count,
{
    if count == 0 || from.failure is Some {
        from
    } else {
        run_records(
            registry,
            metadata,
            hash,
            (count - 1) as nat,
            run_record(registry, metadata, hash, from),
        )
    }
}

/// Decodes the events of a block: their number and then each of the event records.
pub open spec fn run_events(
    registry: Registry,
    metadata: Metadata,
    hash: Listed,
    input: Seq<u8>,
) -> Decoding {
    let count = compact_front(input);
    let from = Decoding {
        rest: input.skip(count.used as int),
        entries: Seq::empty(),
        failure: None,
    };
    match count.value {
        Some(value) => run_records(registry, metadata, hash, value, from),
        None => from.stop(from.rest, Failure::Codec),
    }
}

/// Events decoder.
pub struct EventsDecoder<T: System> {
    metadata: Metadata,
    event_segmenter: EventBytesSegmenter<T>,
    topics: ListReader<T::Hash>,
}

impl<T: System> EventsDecoder<T> {
    /// The metadata that the decoder goes by.
    pub closed spec fn metadata(self) -> Metadata {
        self.metadata
    }

    /// The segmenters that the decoder knows.
    pub closed spec fn registry(self) -> Registry {
        self.event_segmenter@
    }

    /// How the decoder reads the hashes of a list of topics.
    pub closed spec fn hash(self) -> Listed {
        self.topics.list()
    }
}

impl<T: System> EventsDecoder<T> {
    /// Creates a new `EventsDecoder`.
    pub fn new(metadata: Metadata, event_segmenter: EventBytesSegmenter<T>) -> (decoder: Self)
        ensures
            decoder.metadata() == metadata,
            decoder.registry() == event_segmenter@,
            reads_lists::<T::Hash>(decoder.hash()),
    {
        EventsDecoder { metadata, event_segmenter, topics: ListReader::new() }
    }

    /// The metadata and the segmenter of the decoder.
    pub fn parts(&self) -> (parts: (&Metadata, &EventBytesSegmenter<T>))
        ensures
            *parts.0 == self.metadata(),
            parts.1@ == self.registry(),
    {
        (&self.metadata, &self.event_segmenter)
    }

    /// Register a type.
    pub fn register_type_size<U: Segment>(&mut self, name: &str)
        ensures
            final(self).metadata() == old(self).metadata(),
            final(self).registry() == old(self).registry().insert(name@, segmenter_of::<U>()),
            final(self).hash() == old(self).hash(),
    {
        self.event_segmenter.register_type_size::<U>(name)
    }

    /// Decode events.
    ///
    /// An event that reports dispatch errors is replaced by these errors.
    pub fn decode_events(&self, input: &mut &[u8]) -> (result: Result<Vec<(Phase, Raw)>, Error>)
        ensures
            reads_lists::<T::Hash>(self.hash()),
            ({
                let end = run_events(
                    self.registry(),
                    self.metadata(),
                    self.hash(),
                    old(input)@,
                );
                &&& final(input)@ == end.rest
                &&& final(input)@.is_suffix_of(old(input)@)
                &&& failure_of(result) == end.failure
                &&& result matches Ok(entries) ==> entry_values(entries@) == end.entries
            }),
    {
        proof {
            use_type_invariant(&self.topics);
            lemma_compact_round_trip(input@);
        }
        let count = match decode_compact(input) {
            Ok(count) => count,
            Err(error) => return Err(Error::Codec(error)),
        };
        let mut entries: Vec<(Phase, Raw)> = Vec::new();
        assert(entry_values(entries@) =~= Seq::empty());
        let ghost hash = self.hash();
        let mut i: u32 = 0;
        while i < count
            invariant
                i <= count,
                hash == self.hash(),
                input@.is_suffix_of(old(input)@),
                run_events(self.registry(), self.metadata(), hash, old(input)@) == run_records(
                    self.registry(),
                    self.metadata(),
                    hash,
                    (count - i) as nat,
                    Decoding {
                        rest: input@,
                        entries: entry_values(entries@),
                        failure: None,
                    },
                ),
            decreases count - i,
        {
            let ghost before = input@;
            let result = self.decode_record(input, &mut entries);
            proof {
                lemma_suffix_trans(old(input)@, before, input@);
            }
            match result {
                Ok(()) => {},
                Err(error) => {
                    proof {
                        let end = Decoding {
                            rest: input@,
                            entries: entry_values(entries@),
                            failure: Some(error@),
                        };
                        assert(run_records(
                            self.registry(),
                            self.metadata(),
                            hash,
                            (count - i - 1) as nat,
                            end,
                        ) == end);
                    }
                    return Err(error);
                },
            }
            i += 1;
        }
        Ok(entries)
    }

    /// Decodes an event record and appends what it comes to.
    pub fn decode_record(&self, input: &mut &[u8], entries: &mut Vec<(Phase, Raw)>) -> (result: Result<
        (),
        Error,
    >)
        ensures
            (Decoding {
                rest: final(input)@,
                entries: entry_values(final(entries)@),
                failure: failure_of(result),
            }) == run_record(
                self.registry(),
                self.metadata(),
                self.hash(),
                Decoding {
                    rest: old(input)@,
                    entries: entry_values(old(entries)@),
                    failure: None,
                },
            ),
            final(input)@.is_suffix_of(old(input)@),
            old(entries)@.is_prefix_of(final(entries)@),
            reads_lists::<T::Hash>(self.hash()),
    {
        proof {
            use_type_invariant(&self.topics);
        }
        let (phase, module, event) = match self.decode_header(input) {
            Ok(header) => header,
            Err(error) => return Err(error),
        };
        let mut data: Vec<u8> = Vec::new();
        let mut errors: Vec<RuntimeError> = Vec::new();
        assert(error_values(errors@) =~= Seq::empty());
        let ghost after_header = input@;
        let result = self.event_segmenter.decode_raw_bytes(
            &self.metadata,
            event.arguments.as_slice(),
            input,
            &mut data,
            &mut errors,
        );
        proof {
            lemma_suffix_trans(old(input)@, after_header, input@);
        }
        match result {
            Ok(()) => {},
            Err(error) => return Err(error),
        }
        let ghost after_data = input@;
        // topics come after the event data in EventRecord
        let result = self.topics.skip(input);
        proof {
            lemma_suffix_trans(old(input)@, after_data, input@);
        }
        match result {
            Ok(()) => {},
            Err(error) => return Err(Error::Codec(error)),
        }
        let ghost header = Header { phase, module: *module, event: *event };
        let ghost before = entries@;
        if errors.len() == 0 {
            let raw = RawEvent { module: module.name.clone(), variant: event.name.clone(), data };
            entries.push((phase, Raw::Event(raw)));
            assert(entry_values(entries@) =~= entry_values(before) + record_entries(
                header,
                data@,
                error_values(errors@),
            ));
        } else {
            let ghost reported = errors@;
            let ghost new = record_entries(header, data@, error_values(reported));
            assert(new.take(0) =~= Seq::empty());
            assert(entry_values(before) + new.take(0) =~= entry_values(before));
            for error in it: errors
                invariant
                    it.seq() == reported,
                    new.len() == reported.len(),
                    forall|k: int|
                        0 <= k < reported.len() ==> #[trigger] new[k] == (
                            phase,
                            RawView::Error(reported[k]@),
                        ),
                    entry_values(entries@) == entry_values(before) + new.take(it.index() as int),
                    before.is_prefix_of(entries@),
            {
                let ghost so_far = entries@;
                entries.push((phase, Raw::Error(error)));
                assert(entry_values(entries@) =~= entry_values(so_far).push(
                    (phase, RawView::Error(error@)),
                ));
                assert(new.take(it.index() + 1) =~= new.take(it.index() as int).push(
                    new[it.index() as int],
                ));
            }
            assert(new.take(new.len() as int) =~= new);
        }
        Ok(())
    }

    /// Decodes the header of an event record: the phase, the module and the event.
    pub fn decode_header(&self, input: &mut &[u8]) -> (result: Result<
        (Phase, &ModuleWithEvents, &ModuleEventMetadata),
        Error,
    >)
        ensures
            final(input)@ == read_header(self.metadata(), old(input)@).0,
            final(input)@.is_suffix_of(old(input)@),
            match read_header(self.metadata(), old(input)@).1 {
                Ok(header) => result matches Ok((phase, module, event)) && phase == header.phase
                    && *module == header.module && *event == header.event,
                Err(failure) => failure_of(result) == Some(failure),
            },
    {
        let phase = match Phase::decode(input) {
            Ok(phase) => phase,
            Err(error) => return Err(Error::Codec(error)),
        };
        let module_variant = match read_byte(input) {
            Ok(byte) => byte,
            Err(error) => return Err(Error::Codec(error)),
        };
        let module = match self.metadata.module_with_events(module_variant) {
            Ok(module) => module,
            Err(missing) => return Err(Error::Metadata(missing)),
        };
        let event_variant = match read_byte(input) {
            Ok(byte) => byte,
            Err(error) => return Err(Error::Codec(error)),
        };
        match module.event(event_variant) {
            Ok(event) => Ok((phase, module, event)),
            Err(missing) => Err(Error::Metadata(missing)),
        }
    }
}

/// The values that are left to read are those after the next one.
proof fn lemma_values_next(segmenter: Segmenter, count: nat, start: Seq<u8>, used: nat)
    requires
        count > 0,
        used + segmenter(start.skip(used as int)).used <= start.len(),
    ensures
        ({
            let here = start.skip(used as int);
            let first = segmenter(here);
            let next = start.skip((used + first.used) as int);
            let others = values_front(segmenter, (count - 1) as nat, next);
            &&& here.skip(first.used as int) == next
            &&& values_front(segmenter, count, here) == if first.value is None {
                failed(first.used)
            } else {
                Taken { used: first.used + others.used, value: others.value }
            }
        }),
{
    let here = start.skip(used as int);
    let more = segmenter(here).used;
    assert(here.skip(more as int) =~= start.skip((used + more) as int));
}

/// Takes `count` values of the type `H` off the input, one after the other.
fn skip_values<H: Segment>(count: u32, input: &mut &[u8]) -> (result: Result<(), CodecError>)
    ensures
        ({
            let all = values_front(segmenter_of::<H>(), count as nat, old(input)@);
            &&& all.used <= old(input)@.len()
            &&& final(input)@ == old(input)@.skip(all.used as int)
            &&& ok_value(result) == all.value
        }),
{
    let ghost segmenter = segmenter_of::<H>();
    let ghost start = input@;
    let ghost all = values_front(segmenter, count as nat, start);
    let ghost mut used: nat = 0;
    assert(start.skip(0) =~= start);
    let mut i: u32 = 0;
    while i < count
        invariant
            i <= count,
            segmenter == segmenter_of::<H>(),
            start == old(input)@,
            all == values_front(segmenter, count as nat, start),
            used <= start.len(),
            input@ == start.skip(used as int),
            all.used == used + values_front(segmenter, (count - i) as nat, input@).used,
            all.value == values_front(segmenter, (count - i) as nat, input@).value,
        decreases count - i,
    {
        let ghost here = input@;
        let mut value: Vec<u8> = Vec::new();
        let result = H::segment(input, &mut value);
        proof {
            assert(segmenter(here) == H::segmented(here));
            lemma_values_next(segmenter, (count - i) as nat, start, used);
            used = used + segmenter(here).used;
        }
        match result {
            Ok(()) => {},
            Err(error) => return Err(error),
        }
        i += 1;
    }
    Ok(())
}

/// Takes `count` values of a list, each `width` bytes wide, off the input at once.
fn skip_bulk(count: u32, width: usize, input: &mut &[u8]) -> (result: Result<(), CodecError>)
    ensures
        final(input)@ == if old(input)@.len() < count * width {
            old(input)@
        } else {
            old(input)@.skip(count * width)
        },
        result is Ok <==> old(input)@.len() >= count * width,
{
    assert(0 <= count * width <= 0xffff_ffff * 0xffff_ffff_ffff_ffff) by (nonlinear_arith)
        requires
            0 <= count <= 0xffff_ffff,
            0 <= width <= 0xffff_ffff_ffff_ffff,
    ;
    let needed: u128 = count as u128 * width as u128;
    if (input.len() as u128) < needed {
        return Err(codec_error("Not enough data to decode vector"));
    }
    *input = slice_subrange(*input, needed as usize, input.len());
    Ok(())
}

/// Takes lists of values of the type `H` off the input, in the way of the machine.
struct ListReader<H: Segment> {
    width: Option<usize>,
    marker: PhantomData<H>,
}

impl<H: Segment> ListReader<H> {
    /// How the reader reads a list.
    closed spec fn list(self) -> Listed {
        Listed { segmenter: segmenter_of::<H>(), bulk: self.width }
    }

    #[verifier::type_invariant]
    spec fn width_is_one_of_the_type(self) -> bool {
        H::listed_by(self.width)
    }

    fn new() -> (reader: Self)
        ensures
            reads_lists::<H>(reader.list()),
    {
        ListReader { width: H::bulk_width(), marker: PhantomData }
    }

    /// Takes a list off the input: the number of its values and then the values.
    fn skip(&self, input: &mut &[u8]) -> (result: Result<(), CodecError>)
        ensures
            reads_lists::<H>(self.list()),
            topics_front(self.list(), old(input)@).used <= old(input)@.len(),
            final(input)@ == old(input)@.skip(topics_front(self.list(), old(input)@).used as int),
            ok_value(result) == topics_front(self.list(), old(input)@).value,
    {
        proof {
            use_type_invariant(self);
            lemma_compact_round_trip(input@);
        }
        let count = match decode_compact(input) {
            Ok(count) => count,
            Err(error) => return Err(error),
        };
        let ghost start = input@;
        let result = match self.width {
            Some(width) => skip_bulk(count, width, input),
            None => skip_values::<H>(count, input),
        };
        proof {
            let before = compact_front(old(input)@).used;
            let values = list_front(self.list(), count as nat, start);
            assert(start.skip(values.used as int) =~= old(input)@.skip(
                (before + values.used) as int,
            ));
        }
        result
    }
}

} // verus!
