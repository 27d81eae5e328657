//! The segmenter of event bytes.

use core::marker::PhantomData;
use std::sync::Arc;
use parity_scale_codec::Error as CodecError;
use vstd::prelude::*;

use crate::bytes::{lemma_compact_round_trip, lemma_prefix_trans, lemma_suffix_trans, Taken};
use crate::codec::{
    decode_compact, decode_dispatch_error, decode_dispatch_result, encode_compact, read_byte,
    DispatchInfo,
};
use crate::error::{failure_of, Error, RuntimeError};
use crate::metadata::{primitives_of_args, texts, EventArg, Metadata};
use crate::missing::{
    holds, is_missing, label_at, lemma_pushed, mentioned, missing_labels, report, reports_before,
};
use crate::run::{at, error_values, run_arg, run_args, run_primitive, run_repeated, Registry};
use crate::segment::{appended, segmenter_of, Segment, Segmenter, System};
use crate::text::{joined, lists, quote, quoted};

verus! {

/// Cuts values of one type out of an input stream.
trait TypeSegmenter: Send + Sync {
    /// What the segmenter does with the bytes at the front of `input`.
    spec fn segmented(&self, input: Seq<u8>) -> Taken<Seq<u8>>;

    /// Consumes an object from an input stream, and output the serialized bytes.
    fn segment(&self, input: &mut &[u8], output: &mut Vec<u8>) -> (result: Result<(), CodecError>)
        ensures
            self.segmented(old(input)@).used <= old(input)@.len(),
            final(input)@ == old(input)@.skip(self.segmented(old(input)@).used as int),
            result is Ok <==> self.segmented(old(input)@).value is Some,
            final(output)@ == old(output)@ + appended(self.segmented(old(input)@)),
    ;
}

/// Stands for the type `T` in the table of segmenters.
struct TypeMarker<T>(PhantomData<T>);

impl<T> Default for TypeMarker<T> {
    fn default() -> Self {
        TypeMarker(PhantomData)
    }
}

impl<T: Segment> TypeSegmenter for TypeMarker<T> {
    closed spec fn segmented(&self, input: Seq<u8>) -> Taken<Seq<u8>> {
        T::segmented(input)
    }

    fn segment(&self, input: &mut &[u8], output: &mut Vec<u8>) -> (result: Result<
        (),
        CodecError,
    >) {
        T::segment(input, output)
    }
}

/// A registered type: its name and what cuts out its values.
struct Entry {
    name: String,
    segmenter: Arc<Box<dyn TypeSegmenter>>,
}

impl Entry {
    spec fn segmenter(self) -> Segmenter {
        |input: Seq<u8>| self.segmenter.segmented(input)
    }

    fn new<U: Segment>(name: &str) -> (entry: Self)
        ensures
            entry.name@ == name@,
            entry.segmenter() == segmenter_of::<U>(),
    {
        let boxed: Box<dyn TypeSegmenter> = Box::new(TypeMarker::<U>::default());
        let ghost segmenter = boxed;
        let shared = Arc::new(boxed);
        assert(*shared == segmenter);
        let entry = Entry { name: name.to_owned(), segmenter: shared };
        assert(entry.segmenter() =~= segmenter_of::<U>());
        entry
    }
}

impl Clone for Entry {
    fn clone(&self) -> (entry: Self)
        ensures
            entry == *self,
    {
        Entry { name: self.name.clone(), segmenter: self.segmenter.clone() }
    }
}

/// The segmenters of `entries` by name.
spec fn registry_of(entries: Seq<Entry>) -> Registry
    decreases entries.len(),
{
    if entries.len() == 0 {
        Map::empty()
    } else {
        registry_of(entries.drop_last()).insert(entries.last().name@, entries.last().segmenter())
    }
}

/// No two of `entries` have the same name.
spec fn distinct(entries: Seq<Entry>) -> bool {
    forall|i: int, j: int|
        0 <= i < j < entries.len() ==> (#[trigger] entries[i]).name@ != (#[trigger] entries[j]).name@
}

/// A name is known where an entry has it, and then goes by that entry.
proof fn lemma_registry_of(entries: Seq<Entry>)
    requires
        distinct(entries),
    ensures
        forall|i: int|
            0 <= i < entries.len() ==> registry_of(entries).dom().contains(
                (#[trigger] entries[i]).name@,
            ) && registry_of(entries)[entries[i].name@] == entries[i].segmenter(),
        forall|name: Seq<char>| #[trigger]
            registry_of(entries).dom().contains(name) ==> exists|i: int|
                0 <= i < entries.len() && (#[trigger] entries[i]).name@ == name,
    decreases entries.len(),
{
    if entries.len() > 0 {
        let init = entries.drop_last();
        lemma_registry_of(init);
        assert forall|i: int| 0 <= i < entries.len() implies registry_of(entries).dom().contains(
            (#[trigger] entries[i]).name@,
        ) && registry_of(entries)[entries[i].name@] == entries[i].segmenter() by {
            if i < entries.len() - 1 {
                assert(init[i] == entries[i]);
                assert(entries[i].name@ != entries[entries.len() - 1].name@);
            }
        }
        assert forall|name: Seq<char>| #[trigger] registry_of(entries).dom().contains(name) implies
            exists|i: int| 0 <= i < entries.len() && (#[trigger] entries[i]).name@ == name by {
            if registry_of(init).dom().contains(name) {
                let i = choose|i: int| 0 <= i < init.len() && (#[trigger] init[i]).name@ == name;
                assert(entries[i].name@ == name);
            } else {
                assert(entries[entries.len() - 1].name@ == name);
            }
        }
    }
}

/// An entry that takes the place of one of the same name takes over that name.
proof fn lemma_replaced(entries: Seq<Entry>, place: int, entry: Entry)
    requires
        distinct(entries),
        0 <= place < entries.len(),
        entries[place].name@ == entry.name@,
    ensures
        distinct(entries.update(place, entry)),
        registry_of(entries.update(place, entry)) == registry_of(entries).insert(
            entry.name@,
            entry.segmenter(),
        ),
{
    let after = entries.update(place, entry);
    let expected = registry_of(entries).insert(entry.name@, entry.segmenter());
    assert forall|i: int| 0 <= i < entries.len() implies (#[trigger] after[i]).name@
        == entries[i].name@ by {}
    assert forall|i: int, j: int| 0 <= i < j < after.len() implies (#[trigger] after[i]).name@ != (
    #[trigger] after[j]).name@ by {
        assert(entries[i].name@ != entries[j].name@);
    }
    lemma_registry_of(entries);
    lemma_registry_of(after);
    assert forall|name: Seq<char>| #[trigger]
        registry_of(after).dom().contains(name) == expected.dom().contains(name) by {
        if registry_of(after).dom().contains(name) {
            let i = choose|i: int| 0 <= i < after.len() && (#[trigger] after[i]).name@ == name;
            assert(entries[i].name@ == name);
        }
        if expected.dom().contains(name) && name != entry.name@ {
            let i = choose|i: int| 0 <= i < entries.len() && (#[trigger] entries[i]).name@ == name;
            assert(after[i].name@ == name);
        }
        assert(after[place].name@ == entry.name@);
    }
    assert forall|name: Seq<char>| #[trigger]
        registry_of(after).dom().contains(name) implies registry_of(after)[name]
        == expected[name] by {
        let i = choose|i: int| 0 <= i < after.len() && (#[trigger] after[i]).name@ == name;
        assert(entries[i].name@ == name);
        if i != place {
            assert(after[i] == entries[i]);
        }
    }
    assert(registry_of(after) =~= expected);
}

/// Consumes the raw bytes for an Event from a SCALE encoded sequence of Events.
pub struct EventBytesSegmenter<T> {
    entries: Vec<Entry>,
    marker: PhantomData<T>,
}

impl<T> View for EventBytesSegmenter<T> {
    type V = Registry;

    closed spec fn view(&self) -> Registry {
        registry_of(self.entries@)
    }
}

/// The types that every chain's events may mention.
pub open spec fn default_registry<T: System>() -> Registry {
    Map::<Seq<char>, Segmenter>::empty()
        .insert("PhantomData"@, segmenter_of::<()>())
        .insert("DispatchInfo"@, segmenter_of::<DispatchInfo>())
        .insert("bool"@, segmenter_of::<bool>())
        .insert("ReferendumIndex"@, segmenter_of::<u32>())
        .insert("Kind"@, segmenter_of::<[u8; 16]>())
        .insert("AuthorityId"@, segmenter_of::<[u8; 32]>())
        .insert("u8"@, segmenter_of::<u8>())
        .insert("u32"@, segmenter_of::<u32>())
        .insert("u64"@, segmenter_of::<u64>())
        .insert("u128"@, segmenter_of::<u128>())
        .insert("AccountIndex"@, segmenter_of::<u32>())
        .insert("SessionIndex"@, segmenter_of::<u32>())
        .insert("PropIndex"@, segmenter_of::<u32>())
        .insert("ProposalIndex"@, segmenter_of::<u32>())
        .insert("AuthorityIndex"@, segmenter_of::<u32>())
        .insert("AuthorityWeight"@, segmenter_of::<u64>())
        .insert("MemberCount"@, segmenter_of::<u32>())
        .insert("AccountId"@, segmenter_of::<T::AccountId>())
        .insert("BlockNumber"@, segmenter_of::<T::BlockNumber>())
        .insert("Hash"@, segmenter_of::<T::Hash>())
        .insert("VoteThreshold"@, segmenter_of::<u8>())
        .insert("TaskAddress<BlockNumber>"@, segmenter_of::<(T::BlockNumber, u32)>())
}

impl<T: System> EventBytesSegmenter<T> {
    /// Create a new [`EventBytesSegmenter`], initializing some default types.
    pub fn new() -> (segmenter: Self)
        ensures
            segmenter@ == default_registry::<T>(),
    {
        let mut segmenter: Self = EventBytesSegmenter { entries: Vec::new(), marker: PhantomData };
        // register default event arg type sizes for dynamic decoding of events
        segmenter.register_type_size::<()>("PhantomData");
        segmenter.register_type_size::<DispatchInfo>("DispatchInfo");
        segmenter.register_type_size::<bool>("bool");
        segmenter.register_type_size::<u32>("ReferendumIndex");
        segmenter.register_type_size::<[u8; 16]>("Kind");
        segmenter.register_type_size::<[u8; 32]>("AuthorityId");
        segmenter.register_type_size::<u8>("u8");
        segmenter.register_type_size::<u32>("u32");
        segmenter.register_type_size::<u64>("u64");
        segmenter.register_type_size::<u128>("u128");
        segmenter.register_type_size::<u32>("AccountIndex");
        segmenter.register_type_size::<u32>("SessionIndex");
        segmenter.register_type_size::<u32>("PropIndex");
        segmenter.register_type_size::<u32>("ProposalIndex");
        segmenter.register_type_size::<u32>("AuthorityIndex");
        segmenter.register_type_size::<u64>("AuthorityWeight");
        segmenter.register_type_size::<u32>("MemberCount");
        segmenter.register_type_size::<T::AccountId>("AccountId");
        segmenter.register_type_size::<T::BlockNumber>("BlockNumber");
        segmenter.register_type_size::<T::Hash>("Hash");
        segmenter.register_type_size::<u8>("VoteThreshold");
        // Additional types
        segmenter.register_type_size::<(T::BlockNumber, u32)>("TaskAddress<BlockNumber>");
        segmenter
    }
}

impl<T> Default for EventBytesSegmenter<T> {
    fn default() -> (segmenter: Self)
        ensures
            segmenter@ == Map::<Seq<char>, Segmenter>::empty(),
    {
        EventBytesSegmenter { entries: Vec::new(), marker: PhantomData }
    }
}

impl<T> Clone for EventBytesSegmenter<T> {
    fn clone(&self) -> (segmenter: Self)
        ensures
            segmenter@ == self@,
    {
        proof {
            use_type_invariant(self);
        }
        let mut entries: Vec<Entry> = Vec::new();
        let mut i: usize = 0;
        while i < self.entries.len()
            invariant
                i <= self.entries.len(),
                entries@ == self.entries@.take(i as int),
            decreases self.entries.len() - i,
        {
            entries.push(self.entries[i].clone());
            assert(self.entries@.take(i + 1) =~= self.entries@.take(i as int).push(
                self.entries@[i as int],
            ));
            i += 1;
        }
        assert(entries@ =~= self.entries@);
        EventBytesSegmenter { entries, marker: PhantomData }
    }
}

/// The text that shows a segmenter, made of the text that shows the names of its types.
pub fn segmenter_text(names: &str) -> (text: String)
    ensures
        text@ == "EventBytesSegmenter<T> { type_segmenters: "@ + names@ + " }"@,
{
    let mut text = "EventBytesSegmenter<T> { type_segmenters: ".to_owned();
    text.append(names);
    text.append(" }");
    text
}

impl<T> EventBytesSegmenter<T> {
    #[verifier::type_invariant]
    spec fn names_are_distinct(self) -> bool {
        distinct(self.entries@)
    }

    /// The place of the entry named `name`, or the number of entries.
    fn position(entries: &Vec<Entry>, name: &String) -> (place: usize)
        ensures
            place <= entries@.len(),
            place < entries@.len() ==> entries@[place as int].name@ == name@,
            forall|i: int| 0 <= i < place ==> (#[trigger] entries@[i]).name@ != name@,
    {
        let mut i: usize = 0;
        while i < entries.len()
            invariant
                i <= entries.len(),
                forall|k: int| 0 <= k < i ==> (#[trigger] entries@[k]).name@ != name@,
            decreases entries.len() - i,
        {
            if entries[i].name == *name {
                return i;
            }
            i += 1;
        }
        i
    }

    /// Register a type.
    pub fn register_type_size<U: Segment>(&mut self, name: &str)
        ensures
            final(self)@ == old(self)@.insert(name@, segmenter_of::<U>()),
    {
        proof {
            use_type_invariant(&*self);
        }
        let mut entries: Vec<Entry> = Vec::new();
        std::mem::swap(&mut entries, &mut self.entries);
        let ghost before = entries@;
        let entry = Entry::new::<U>(name);
        let place = Self::position(&entries, &entry.name);
        if place == entries.len() {
            entries.push(entry);
            assert(entries@.drop_last() =~= before);
        } else {
            entries[place] = entry;
            proof {
                lemma_replaced(before, place as int, entries@[place as int]);
            }
        }
        self.entries = entries;
    }

    /// Check missing type sizes.
    ///
    /// Where events of `metadata` mention types that are not registered, these are reported, each
    /// once for every event that mentions it.
    pub fn check_missing_type_sizes(&self, metadata: &Metadata) -> (result: Result<
        (),
        Vec<String>,
    >)
        ensures
            result is Ok <==> missing_labels(self@, *metadata) == Set::<Seq<char>>::empty(),
            result matches Err(missing) ==> {
                &&& texts(missing@).no_duplicates()
                &&& texts(missing@).to_set() == missing_labels(self@, *metadata)
            },
    {
        let mut missing: Vec<String> = Vec::new();
        let mut m: usize = 0;
        while m < metadata.modules_with_events.len()
            invariant
                m <= metadata.modules_with_events.len(),
                reports_before(missing@, self@, *metadata, m as int, 0, 0),
            decreases metadata.modules_with_events.len() - m,
        {
            let module = &metadata.modules_with_events[m];
            let mut e: usize = 0;
            while e < module.events.len()
                invariant
                    m < metadata.modules_with_events.len(),
                    *module == metadata.modules_with_events@[m as int],
                    e <= module.events.len(),
                    reports_before(missing@, self@, *metadata, m as int, e as int, 0),
                decreases module.events.len() - e,
            {
                let event = &module.events[e];
                let primitives = primitives_of_args(&event.arguments);
                let mut p: usize = 0;
                while p < primitives.len()
                    invariant
                        m < metadata.modules_with_events.len(),
                        *module == metadata.modules_with_events@[m as int],
                        e < module.events.len(),
                        *event == module.events@[e as int],
                        texts(primitives@) == mentioned(*metadata, m as int, e as int),
                        p <= primitives.len(),
                        reports_before(missing@, self@, *metadata, m as int, e as int, p as int),
                    decreases primitives.len() - p,
                {
                    assert(texts(primitives@)[p as int] == primitives@[p as int]@);
                    if !self.is_registered(&primitives[p]) {
                        assert(is_missing(self@, *metadata, m as int, e as int, p as int));
                        let text = report(&module.name, &event.name, &primitives[p]);
                        if !holds(&missing, &text) {
                            proof {
                                lemma_pushed(missing@, text);
                            }
                            missing.push(text);
                        }
                        assert(text@ == label_at(*metadata, m as int, e as int, p as int));
                    }
                    p += 1;
                }
                e += 1;
            }
            m += 1;
        }
        proof {
            let all = missing_labels(self@, *metadata);
            assert(texts(missing@).to_set() =~= all);
            if missing@.len() > 0 {
                assert(texts(missing@).contains(texts(missing@)[0]));
                assert(all.contains(texts(missing@)[0]));
            } else {
                assert(all =~= Set::empty());
            }
        }
        if missing.len() > 0 {
            Err(missing)
        } else {
            Ok(())
        }
    }

    /// Whether a type named `name` is registered.
    fn is_registered(&self, name: &String) -> (known: bool)
        ensures
            known == self@.dom().contains(name@),
    {
        proof {
            use_type_invariant(self);
            lemma_registry_of(self.entries@);
        }
        Self::position(&self.entries, name) < self.entries.len()
    }

    /// Decodes one value of each type in `args` from `input`, one after the other, appends the
    /// encoded values to `output` and the dispatch errors among them to `errors`.
    ///
    /// A dispatch error does not stop the decoding, since the input may contain any number of
    /// args: it is left to the caller.
    pub fn decode_raw_bytes(
        &self,
        metadata: &Metadata,
        args: &[EventArg],
        input: &mut &[u8],
        output: &mut Vec<u8>,
        errors: &mut Vec<RuntimeError>,
    ) -> (result: Result<(), Error>)
        ensures
            at(final(input)@, final(output)@, final(errors)@, failure_of(result)) == run_args(
                self@,
                *metadata,
                args@,
                at(old(input)@, old(output)@, old(errors)@, None),
            ),
            final(input)@.is_suffix_of(old(input)@),
            old(output)@.is_prefix_of(final(output)@),
            old(errors)@.is_prefix_of(final(errors)@),
        decreases args@,
    {
        let ghost from = at(input@, output@, errors@, None);
        let mut i: usize = 0;
        assert(args@.skip(0) =~= args@);
        while i < args.len()
            invariant
                i <= args.len(),
                from == at(old(input)@, old(output)@, old(errors)@, None),
                run_args(self@, *metadata, args@, from) == run_args(
                    self@,
                    *metadata,
                    args@.skip(i as int),
                    at(input@, output@, errors@, None),
                ),
                input@.is_suffix_of(old(input)@),
                old(output)@.is_prefix_of(output@),
                old(errors)@.is_prefix_of(errors@),
            decreases args.len() - i,
        {
            let ghost before = (input@, output@, errors@);
            assert(args@.skip(i as int).skip(1) =~= args@.skip(i + 1));
            assert(decreases_to!(args@ => args@[i as int]));
            let result = self.decode_arg(metadata, &args[i], input, output, errors);
            proof {
                lemma_suffix_trans(old(input)@, before.0, input@);
                lemma_prefix_trans(old(output)@, before.1, output@);
                lemma_prefix_trans(old(errors)@, before.2, errors@);
            }
            match result {
                Ok(()) => {},
                Err(error) => {
                    assert(run_args(
                        self@,
                        *metadata,
                        args@.skip(i + 1),
                        at(input@, output@, errors@, Some(error@)),
                    ) == at(input@, output@, errors@, Some(error@)));
                    return Err(error);
                },
            }
            i += 1;
        }
        Ok(())
    }

    /// Decodes a value of the type `arg`, as [`Self::decode_raw_bytes`] does for several.
    pub fn decode_arg(
        &self,
        metadata: &Metadata,
        arg: &EventArg,
        input: &mut &[u8],
        output: &mut Vec<u8>,
        errors: &mut Vec<RuntimeError>,
    ) -> (result: Result<(), Error>)
        ensures
            at(final(input)@, final(output)@, final(errors)@, failure_of(result)) == run_arg(
                self@,
                *metadata,
                *arg,
                at(old(input)@, old(output)@, old(errors)@, None),
            ),
            final(input)@.is_suffix_of(old(input)@),
            old(output)@.is_prefix_of(final(output)@),
            old(errors)@.is_prefix_of(final(errors)@),
        decreases *arg,
    {
        match arg {
            EventArg::Vec(inner) => {
                proof {
                    lemma_compact_round_trip(input@);
                }
                let count = match decode_compact(input) {
                    Ok(count) => count,
                    Err(error) => return Err(Error::Codec(error)),
                };
                encode_compact(count, output);
                let mut i: u32 = 0;
                while i < count
                    invariant
                        i <= count,
                        *arg == EventArg::Vec(*inner),
                        run_arg(
                            self@,
                            *metadata,
                            *arg,
                            at(old(input)@, old(output)@, old(errors)@, None),
                        ) == run_repeated(
                            self@,
                            *metadata,
                            **inner,
                            (count - i) as nat,
                            at(input@, output@, errors@, None),
                        ),
                        input@.is_suffix_of(old(input)@),
                        old(output)@.is_prefix_of(output@),
                        old(errors)@.is_prefix_of(errors@),
                    decreases count - i,
                {
                    let ghost before = (input@, output@, errors@);
                    let result = self.decode_arg(metadata, inner, input, output, errors);
                    proof {
                        lemma_suffix_trans(old(input)@, before.0, input@);
                        lemma_prefix_trans(old(output)@, before.1, output@);
                        lemma_prefix_trans(old(errors)@, before.2, errors@);
                    }
                    match result {
                        Ok(()) => {},
                        Err(error) => {
                            assert(run_repeated(
                                self@,
                                *metadata,
                                **inner,
                                (count - i - 1) as nat,
                                at(input@, output@, errors@, Some(error@)),
                            ) == at(input@, output@, errors@, Some(error@)));
                            return Err(error);
                        },
                    }
                    i += 1;
                }
                Ok(())
            },
            EventArg::Option(inner) => match read_byte(input) {
                Ok(0) => {
                    output.push(0);
                    assert(output@ =~= old(output)@ + seq![0u8]);
                    Ok(())
                },
                Ok(1) => {
                    output.push(1);
                    assert(output@ =~= old(output)@ + seq![1u8]);
                    let ghost before = (input@, output@);
                    let result = self.decode_arg(metadata, inner, input, output, errors);
                    proof {
                        lemma_suffix_trans(old(input)@, before.0, input@);
                        lemma_prefix_trans(old(output)@, before.1, output@);
                    }
                    result
                },
                Ok(_) => Err(Error::Other("unexpected first byte decoding Option".to_owned())),
                Err(error) => Err(Error::Codec(error)),
            },
            EventArg::Tuple(args) => {
                assert(decreases_to!(*args => args@));
                self.decode_raw_bytes(metadata, args.as_slice(), input, output, errors)
            },
            EventArg::Primitive(name) => {
                self.decode_primitive(metadata, name, input, output, errors)
            },
        }
    }

    /// Decodes a value of the primitive type `name`, as [`Self::decode_raw_bytes`] does.
    fn decode_primitive(
        &self,
        metadata: &Metadata,
        name: &String,
        input: &mut &[u8],
        output: &mut Vec<u8>,
        errors: &mut Vec<RuntimeError>,
    ) -> (result: Result<(), Error>)
        ensures
            at(final(input)@, final(output)@, final(errors)@, failure_of(result)) == run_primitive(
                self@,
                *metadata,
                name@,
                at(old(input)@, old(output)@, old(errors)@, None),
            ),
            final(input)@.is_suffix_of(old(input)@),
            old(output)@.is_prefix_of(final(output)@),
            old(errors)@.is_prefix_of(final(errors)@),
    {
        let outcome = if *name == "DispatchResult".to_owned() {
            match decode_dispatch_result(input) {
                Ok(outcome) => outcome,
                Err(error) => return Err(Error::Codec(error)),
            }
        } else if *name == "DispatchError".to_owned() {
            match decode_dispatch_error(input) {
                Ok(error) => Err(error),
                Err(error) => return Err(Error::Codec(error)),
            }
        } else {
            proof {
                use_type_invariant(self);
                lemma_registry_of(self.entries@);
            }
            let place = Self::position(&self.entries, name);
            if place == self.entries.len() {
                return Err(Error::TypeSizeUnavailable(name.clone()));
            }
            let mut buf: Vec<u8> = Vec::new();
            match self.entries[place].segmenter.segment(input, &mut buf) {
                Ok(()) => {},
                Err(error) => return Err(Error::Codec(error)),
            }
            output.append(&mut buf);
            Ok(())
        };
        if let Err(error) = outcome {
            match RuntimeError::from_dispatch(metadata, error) {
                Ok(error) => {
                    let ghost before = errors@;
                    errors.push(error);
                    assert(error_values(errors@) =~= error_values(before).push(error@));
                },
                Err(error) => return Err(error),
            }
        }
        Ok(())
    }

    /// The names of the registered types, run together.
    pub fn type_names(&self) -> (all: String)
        ensures
            exists|names: Seq<Seq<char>>| #[trigger]
                lists(names, self@.dom()) && all@ == joined(names),
    {
        proof {
            use_type_invariant(self);
            lemma_registry_of(self.entries@);
        }
        let ghost names = Seq::new(self.entries@.len(), |i: int| self.entries@[i].name@);
        let mut all: String = String::new();
        let mut i: usize = 0;
        assert(names.take(0) =~= Seq::empty());
        while i < self.entries.len()
            invariant
                i <= self.entries.len(),
                names == Seq::new(self.entries@.len(), |i: int| self.entries@[i].name@),
                all@ == joined(names.take(i as int)),
            decreases self.entries.len() - i,
        {
            all.append(self.entries[i].name.as_str());
            assert(names.take(i + 1).drop_last() =~= names.take(i as int));
            i += 1;
        }
        proof {
            assert(names.take(i as int) =~= names);
            assert forall|j: int, k: int| 0 <= j < names.len() && 0 <= k < names.len() && j
                != k implies names[j] != names[k] by {
                if j < k {
                    assert(self.entries@[j].name@ != self.entries@[k].name@);
                } else {
                    assert(self.entries@[k].name@ != self.entries@[j].name@);
                }
            }
            assert forall|name: Seq<char>| #[trigger]
                names.to_set().contains(name) == self@.dom().contains(name) by {
                if self@.dom().contains(name) {
                    let k = choose|k: int|
                        0 <= k < self.entries@.len() && (#[trigger] self.entries@[k]).name@ == name;
                    assert(names[k] == name);
                }
                if names.contains(name) {
                    let k = choose|k: int| 0 <= k < names.len() && names[k] == name;
                    assert(self.entries@[k].name@ == name);
                }
            }
            assert(names.to_set() =~= self@.dom());
            assert(lists(names, self@.dom()));
        }
        all
    }

    /// The segmenter as debugging output shows it: the names of the registered types, run
    /// together.
    pub fn debug_text(&self) -> (text: String)
        ensures
            exists|names: Seq<Seq<char>>| #[trigger]
                lists(names, self@.dom()) && text@ == "EventBytesSegmenter<T> { type_segmenters: "@
                    + quoted(joined(names)) + " }"@,
    {
        segmenter_text(quote(self.type_names().as_str()).as_str())
    }
}

} // verus!
