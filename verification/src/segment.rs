//! The types whose values can be cut out of a run of bytes, and the runtime that names some.

use parity_scale_codec::Error as CodecError;
use vstd::prelude::*;

use crate::bytes::{failed, got, lemma_le_round_trip, lemma_le_value_bound, Taken};
use crate::codec::{
    array_front, decode_array, decode_bool, decode_dispatch_info, decode_u128, decode_u32,
    decode_u64, decode_u8, decode_unit, dispatch_info_bytes, dispatch_info_front, encode_array,
    encode_bool, encode_dispatch_info, encode_u128, encode_u32, encode_u64, encode_u8, encode_unit,
    native_bytes, DispatchInfo,
};

verus! {

/// What a segmenter does with the bytes that it is given: how many it takes off the front and,
/// where they hold a value of its type, the bytes of that value in encoded form.
pub type Segmenter = spec_fn(Seq<u8>) -> Taken<Seq<u8>>;

/// A type whose values can be read off some bytes and written back in encoded form.
pub trait Segment: Send + Sync + 'static {
    /// What reading a value off the front of `input` and encoding it again comes to. Where a type
    /// does not say, nothing is known of it.
    closed spec fn segmented(input: Seq<u8>) -> Taken<Seq<u8>> {
        arbitrary::<Segmenter>()(input)
    }

    /// The values of a list may be read all at once, each `width` bytes wide, so that a list that
    /// is not complete is refused before any value of it is taken; or, without a width, one after
    /// the other. Where a type does not say, nothing is known of it.
    closed spec fn listed_by(width: Option<usize>) -> bool {
        arbitrary::<spec_fn(Option<usize>) -> bool>()(width)
    }

    /// The width of a value, where the values of a list are read all at once on this machine. The
    /// codec does so for bytes on every machine, and for wider integers where the machine keeps the
    /// low byte first.
    fn bulk_width() -> (width: Option<usize>)
        ensures
            Self::listed_by(width),
    ;

    /// Decodes a value from `input` and appends its encoded form to `output`.
    ///
    /// Where `input` does not start with a value of the type, nothing is appended.
    fn segment(input: &mut &[u8], output: &mut Vec<u8>) -> (result: Result<
        (),
        CodecError,
    >)
        ensures
            Self::segmented(old(input)@).used <= old(input)@.len(),
            final(input)@ == old(input)@.skip(Self::segmented(old(input)@).used as int),
            result is Ok <==> Self::segmented(old(input)@).value is Some,
            final(output)@ == old(output)@ + appended(Self::segmented(old(input)@)),
    ;
}

/// The bytes that go out for a reading: none where it failed.
pub open spec fn appended(taken: Taken<Seq<u8>>) -> Seq<u8> {
    match taken.value {
        Some(bytes) => bytes,
        None => Seq::empty(),
    }
}

/// The segmenter of the type `U`.
pub open spec fn segmenter_of<U: Segment>() -> Segmenter {
    |input: Seq<u8>| U::segmented(input)
}

/// How the values of a type are read in a list: each with the segmenter, or all at once where they
/// have a width for that.
pub struct Listed {
    pub segmenter: Segmenter,
    pub bulk: Option<usize>,
}

/// `list` is a way in which the values of the type `U` may be read in a list.
pub open spec fn reads_lists<U: Segment>(list: Listed) -> bool {
    list.segmenter == segmenter_of::<U>() && U::listed_by(list.bulk)
}

/// The width of integers of more than one byte, where a list of them is read all at once: on a
/// machine that keeps the low byte first.
fn width_at_once(width: usize) -> (result: Option<usize>)
    ensures
        result == Some(width) || result is None,
{
    let bytes = native_bytes(1);
    if bytes[0] == 1 {
        Some(width)
    } else {
        None
    }
}

/// The segmenter never takes more bytes than there are.
pub open spec fn within(segmenter: Segmenter) -> bool {
    forall|input: Seq<u8>| (#[trigger] segmenter(input)).used <= input.len()
}

/// The segmenter puts out, for every value that it reads, the bytes that it read.
pub open spec fn faithful(segmenter: Segmenter) -> bool {
    forall|input: Seq<u8>|
        (#[trigger] segmenter(input)).value matches Some(bytes) ==> bytes == input.take(
            segmenter(input).used as int,
        )
}

/// Where the segmenter reads a value, it looks at no byte past those that it takes.
pub open spec fn local(segmenter: Segmenter) -> bool {
    forall|input: Seq<u8>, other: Seq<u8>|
        #![trigger segmenter(input), segmenter(other)]
        segmenter(input).value is Some && starts_alike(input, other, segmenter(input).used)
            ==> segmenter(other) == segmenter(input)
}

/// The first `count` bytes of `input` are also those of `other`.
pub open spec fn starts_alike(input: Seq<u8>, other: Seq<u8>, count: nat) -> bool {
    &&& count <= other.len()
    &&& other.take(count as int) == input.take(count as int)
}

/// Reading a number of `width` bytes and writing it back.
pub open spec fn number_segmented(input: Seq<u8>, width: nat) -> Taken<Seq<u8>> {
    if input.len() < width {
        failed(0)
    } else {
        got(width, input.take(width as int))
    }
}

impl Segment for () {
    open spec fn listed_by(width: Option<usize>) -> bool {
        width is None
    }

    fn bulk_width() -> (width: Option<usize>) {
        None
    }

    open spec fn segmented(input: Seq<u8>) -> Taken<Seq<u8>> {
        got(0, Seq::empty())
    }

    fn segment(input: &mut &[u8], output: &mut Vec<u8>) -> (result: Result<
        (),
        CodecError,
    >) {
        match decode_unit(input) {
            Ok(()) => {
                encode_unit(output);
                Ok(())
            },
            Err(error) => Err(error),
        }
    }
}

impl Segment for bool {
    open spec fn listed_by(width: Option<usize>) -> bool {
        width is None
    }

    fn bulk_width() -> (width: Option<usize>) {
        None
    }

    open spec fn segmented(input: Seq<u8>) -> Taken<Seq<u8>> {
        if input.len() == 0 {
            failed(0)
        } else if input[0] > 1 {
            failed(1)
        } else {
            got(1, input.take(1))
        }
    }

    fn segment(input: &mut &[u8], output: &mut Vec<u8>) -> (result: Result<
        (),
        CodecError,
    >) {
        match decode_bool(input) {
            Ok(value) => {
                encode_bool(value, output);
                Ok(())
            },
            Err(error) => Err(error),
        }
    }
}

impl Segment for u8 {
    open spec fn listed_by(width: Option<usize>) -> bool {
        width == Some(1usize)
    }

    fn bulk_width() -> (width: Option<usize>) {
        Some(1)
    }

    open spec fn segmented(input: Seq<u8>) -> Taken<Seq<u8>> {
        number_segmented(input, 1)
    }

    fn segment(input: &mut &[u8], output: &mut Vec<u8>) -> (result: Result<
        (),
        CodecError,
    >) {
        match decode_u8(input) {
            Ok(value) => {
                encode_u8(value, output);
                Ok(())
            },
            Err(error) => Err(error),
        }
    }
}

impl Segment for u32 {
    open spec fn listed_by(width: Option<usize>) -> bool {
        width == Some(4usize) || width is None
    }

    fn bulk_width() -> (width: Option<usize>) {
        width_at_once(4)
    }

    open spec fn segmented(input: Seq<u8>) -> Taken<Seq<u8>> {
        number_segmented(input, 4)
    }

    fn segment(input: &mut &[u8], output: &mut Vec<u8>) -> (result: Result<
        (),
        CodecError,
    >) {
        match decode_u32(input) {
            Ok(value) => {
                proof {
                    lemma_le_round_trip(old(input)@.take(4));
                }
                encode_u32(value, output);
                Ok(())
            },
            Err(error) => Err(error),
        }
    }
}

impl Segment for u64 {
    open spec fn listed_by(width: Option<usize>) -> bool {
        width == Some(8usize) || width is None
    }

    fn bulk_width() -> (width: Option<usize>) {
        width_at_once(8)
    }

    open spec fn segmented(input: Seq<u8>) -> Taken<Seq<u8>> {
        number_segmented(input, 8)
    }

    fn segment(input: &mut &[u8], output: &mut Vec<u8>) -> (result: Result<
        (),
        CodecError,
    >) {
        match decode_u64(input) {
            Ok(value) => {
                proof {
                    lemma_le_round_trip(old(input)@.take(8));
                }
                encode_u64(value, output);
                Ok(())
            },
            Err(error) => Err(error),
        }
    }
}

impl Segment for u128 {
    open spec fn listed_by(width: Option<usize>) -> bool {
        width == Some(16usize) || width is None
    }

    fn bulk_width() -> (width: Option<usize>) {
        width_at_once(16)
    }

    open spec fn segmented(input: Seq<u8>) -> Taken<Seq<u8>> {
        number_segmented(input, 16)
    }

    fn segment(input: &mut &[u8], output: &mut Vec<u8>) -> (result: Result<
        (),
        CodecError,
    >) {
        match decode_u128(input) {
            Ok(value) => {
                proof {
                    lemma_le_round_trip(old(input)@.take(16));
                }
                encode_u128(value, output);
                Ok(())
            },
            Err(error) => Err(error),
        }
    }
}

/// Decodes an array of bytes from `input` and appends its encoded form to `output`.
fn segment_array<const N: usize>(input: &mut &[u8], output: &mut Vec<u8>) -> (result: Result<
    (),
    CodecError,
>)
    requires
        N <= u32::MAX,
    ensures
        final(input)@ == old(input)@.skip(array_front(old(input)@, N as nat).used as int),
        result is Ok <==> array_front(old(input)@, N as nat).value is Some,
        final(output)@ == old(output)@ + appended(array_front(old(input)@, N as nat)),
{
    match decode_array::<N>(input) {
        Ok(value) => {
            encode_array(&value, output);
            Ok(())
        },
        Err(error) => Err(error),
    }
}

impl Segment for [u8; 16] {
    open spec fn listed_by(width: Option<usize>) -> bool {
        width is None
    }

    fn bulk_width() -> (width: Option<usize>) {
        None
    }

    open spec fn segmented(input: Seq<u8>) -> Taken<Seq<u8>> {
        array_front(input, 16)
    }

    fn segment(input: &mut &[u8], output: &mut Vec<u8>) -> (result: Result<
        (),
        CodecError,
    >) {
        segment_array::<16>(input, output)
    }
}

impl Segment for [u8; 20] {
    open spec fn listed_by(width: Option<usize>) -> bool {
        width is None
    }

    fn bulk_width() -> (width: Option<usize>) {
        None
    }

    open spec fn segmented(input: Seq<u8>) -> Taken<Seq<u8>> {
        array_front(input, 20)
    }

    fn segment(input: &mut &[u8], output: &mut Vec<u8>) -> (result: Result<
        (),
        CodecError,
    >) {
        segment_array::<20>(input, output)
    }
}

impl Segment for [u8; 32] {
    open spec fn listed_by(width: Option<usize>) -> bool {
        width is None
    }

    fn bulk_width() -> (width: Option<usize>) {
        None
    }

    open spec fn segmented(input: Seq<u8>) -> Taken<Seq<u8>> {
        array_front(input, 32)
    }

    fn segment(input: &mut &[u8], output: &mut Vec<u8>) -> (result: Result<
        (),
        CodecError,
    >) {
        segment_array::<32>(input, output)
    }
}

impl Segment for [u8; 64] {
    open spec fn listed_by(width: Option<usize>) -> bool {
        width is None
    }

    fn bulk_width() -> (width: Option<usize>) {
        None
    }

    open spec fn segmented(input: Seq<u8>) -> Taken<Seq<u8>> {
        array_front(input, 64)
    }

    fn segment(input: &mut &[u8], output: &mut Vec<u8>) -> (result: Result<
        (),
        CodecError,
    >) {
        segment_array::<64>(input, output)
    }
}

impl Segment for DispatchInfo {
    open spec fn listed_by(width: Option<usize>) -> bool {
        width is None
    }

    fn bulk_width() -> (width: Option<usize>) {
        None
    }

    open spec fn segmented(input: Seq<u8>) -> Taken<Seq<u8>> {
        let info = dispatch_info_front(input);
        match info.value {
            Some(_) => got(info.used, input.take(info.used as int)),
            None => failed(info.used),
        }
    }

    fn segment(input: &mut &[u8], output: &mut Vec<u8>) -> (result: Result<
        (),
        CodecError,
    >) {
        match decode_dispatch_info(input) {
            Ok(info) => {
                proof {
                    lemma_le_round_trip(old(input)@.take(8));
                    lemma_le_value_bound(old(input)@.take(8));
                    assert(dispatch_info_bytes(info) =~= old(input)@.take(10));
                }
                encode_dispatch_info(&info, output);
                Ok(())
            },
            Err(error) => Err(error),
        }
    }
}

impl<A: Segment, B: Segment> Segment for (A, B) {
    open spec fn listed_by(width: Option<usize>) -> bool {
        width is None
    }

    fn bulk_width() -> (width: Option<usize>) {
        None
    }

    open spec fn segmented(input: Seq<u8>) -> Taken<Seq<u8>> {
        let first = A::segmented(input);
        let second = B::segmented(input.skip(first.used as int));
        match (first.value, second.value) {
            (None, _) => failed(first.used),
            (Some(_), None) => failed(first.used + second.used),
            (Some(front), Some(back)) => got(first.used + second.used, front + back),
        }
    }

    fn segment(input: &mut &[u8], output: &mut Vec<u8>) -> (result: Result<
        (),
        CodecError,
    >) {
        let mut pair: Vec<u8> = Vec::new();
        match A::segment(input, &mut pair) {
            Ok(()) => {},
            Err(error) => return Err(error),
        }
        match B::segment(input, &mut pair) {
            Ok(()) => {},
            Err(error) => return Err(error),
        }
        output.append(&mut pair);
        Ok(())
    }
}

/// The types of a runtime that its events mention.
pub trait System {
    /// The user account identifier type of the runtime.
    type AccountId: Segment;

    /// The block number type used by the runtime.
    type BlockNumber: Segment;

    /// The output of the hashing function of the runtime.
    type Hash: Segment;
}

} // verus!
