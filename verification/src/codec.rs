//! The SCALE codec: what its functions read and write for the types that events are made of.
//!
//! Every function here hands its arguments to a function of the `parity_scale_codec` crate, at a
//! type of that crate, of `sp_runtime` or of `frame_support`. Its contract is taken on trust.

use parity_scale_codec::{Compact, Decode, Encode, Error as CodecError, Input};
use vstd::prelude::*;

use crate::bytes::{
    compact_digits, compact_front, failed, got, le_digits, le_front, ok_value, Taken,
};

verus! {

/// The error of the codec, as it comes from the codec. It carries a text and the errors that led
/// to it; the contracts here speak only of when an error comes.
#[verifier::external_type_specification]
#[verifier::external_body]
pub struct ExCodecError(CodecError);

/// The class of a dispatched call.
#[derive(Clone, Copy, Debug, PartialEq, Eq, Structural)]
pub enum DispatchClass {
    /// A normal dispatch.
    Normal,
    /// An operational dispatch.
    Operational,
    /// A mandatory dispatch.
    Mandatory,
}

/// Whether a call pays fees.
#[derive(Clone, Copy, Debug, PartialEq, Eq, Structural)]
pub enum Pays {
    /// Transactor will pay related fees.
    Yes,
    /// Transactor will NOT pay related fees.
    No,
}

/// What a chain reports of a dispatched call.
#[derive(Clone, Copy, Debug, PartialEq, Eq, Structural)]
pub struct DispatchInfo {
    /// Weight of the call.
    pub weight: u64,
    /// Class of the call.
    pub class: DispatchClass,
    /// Does the call pay fees.
    pub pays_fee: Pays,
}

/// Reason why a dispatched call failed.
#[derive(Clone, Copy, Debug, PartialEq, Eq)]
pub enum DispatchError {
    /// Some error occurred. The text does not travel in encoded form.
    Other(&'static str),
    /// Failed to lookup some data.
    CannotLookup,
    /// A bad origin.
    BadOrigin,
    /// A custom error in a module.
    Module {
        /// Module index, matching the metadata module index.
        index: u8,
        /// Module specific error value.
        error: u8,
    },
    /// At least one consumer is remaining so the account cannot be destroyed.
    ConsumerRemaining,
    /// There are no providers so the account cannot be created.
    NoProviders,
}

/// The mathematical value of a [`DispatchError`].
pub enum DispatchErrorView {
    Other(Seq<char>),
    CannotLookup,
    BadOrigin,
    Module { index: u8, error: u8 },
    ConsumerRemaining,
    NoProviders,
}

impl View for DispatchError {
    type V = DispatchErrorView;

    open spec fn view(&self) -> DispatchErrorView {
        match *self {
            DispatchError::Other(text) => DispatchErrorView::Other(text@),
            DispatchError::CannotLookup => DispatchErrorView::CannotLookup,
            DispatchError::BadOrigin => DispatchErrorView::BadOrigin,
            DispatchError::Module { index, error } => DispatchErrorView::Module { index, error },
            DispatchError::ConsumerRemaining => DispatchErrorView::ConsumerRemaining,
            DispatchError::NoProviders => DispatchErrorView::NoProviders,
        }
    }
}

/// The value of the outcome of a dispatched call: `None` where it succeeded.
pub open spec fn dispatch_view(outcome: Result<(), DispatchError>) -> Option<DispatchErrorView> {
    match outcome {
        Ok(_) => None,
        Err(error) => Some(error@),
    }
}

/// Reading one byte.
pub open spec fn byte_front(input: Seq<u8>) -> Taken<u8> {
    if input.len() == 0 {
        failed(0)
    } else {
        got(1, input[0])
    }
}

/// Reading a number of `width` bytes. A short input is left as it is.
pub open spec fn number_front(input: Seq<u8>, width: nat) -> Taken<nat> {
    if input.len() < width {
        failed(0)
    } else {
        got(width, le_front(input, width))
    }
}

/// Reading a truth value.
pub open spec fn bool_front(input: Seq<u8>) -> Taken<bool> {
    if input.len() == 0 {
        failed(0)
    } else if input[0] > 1 {
        failed(1)
    } else {
        got(1, input[0] == 1)
    }
}

/// Reading an array of `width` bytes, one after the other: a short input is used up.
pub open spec fn array_front(input: Seq<u8>, width: nat) -> Taken<Seq<u8>> {
    if input.len() < width {
        failed(input.len())
    } else {
        got(width, input.take(width as int))
    }
}

/// The byte that stands for a dispatch class.
pub open spec fn class_byte(class: DispatchClass) -> u8 {
    match class {
        DispatchClass::Normal => 0,
        DispatchClass::Operational => 1,
        DispatchClass::Mandatory => 2,
    }
}

/// The byte that says whether a call pays fees.
pub open spec fn pays_byte(pays: Pays) -> u8 {
    match pays {
        Pays::Yes => 0,
        Pays::No => 1,
    }
}

/// The bytes of a [`DispatchInfo`]: the weight, the class and whether fees are paid.
pub open spec fn dispatch_info_bytes(info: DispatchInfo) -> Seq<u8> {
    le_digits(info.weight as nat, 8) + seq![class_byte(info.class), pays_byte(info.pays_fee)]
}

/// Reading a [`DispatchInfo`], field by field.
pub open spec fn dispatch_info_front(input: Seq<u8>) -> Taken<DispatchInfo> {
    if input.len() < 8 {
        failed(0)
    } else if input.len() == 8 {
        failed(8)
    } else if input[8] > 2 || input.len() == 9 {
        failed(9)
    } else if input[9] > 1 {
        failed(10)
    } else {
        got(
            10,
            DispatchInfo {
                weight: le_front(input, 8) as u64,
                class: if input[8] == 0 {
                    DispatchClass::Normal
                } else if input[8] == 1 {
                    DispatchClass::Operational
                } else {
                    DispatchClass::Mandatory
                },
                pays_fee: if input[9] == 0 {
                    Pays::Yes
                } else {
                    Pays::No
                },
            },
        )
    }
}

/// Reading a dispatch error: a byte for the reason, and two more for an error of a module.
pub open spec fn dispatch_error_front(input: Seq<u8>) -> Taken<DispatchErrorView> {
    if input.len() == 0 {
        failed(0)
    } else if input[0] == 0 {
        got(1, DispatchErrorView::Other(Seq::empty()))
    } else if input[0] == 1 {
        got(1, DispatchErrorView::CannotLookup)
    } else if input[0] == 2 {
        got(1, DispatchErrorView::BadOrigin)
    } else if input[0] == 3 {
        if input.len() < 3 {
            failed(input.len())
        } else {
            got(3, DispatchErrorView::Module { index: input[1], error: input[2] })
        }
    } else if input[0] == 4 {
        got(1, DispatchErrorView::ConsumerRemaining)
    } else if input[0] == 5 {
        got(1, DispatchErrorView::NoProviders)
    } else {
        failed(1)
    }
}

/// Reading the outcome of a dispatched call: 0 for success, 1 before an error.
pub open spec fn dispatch_result_front(input: Seq<u8>) -> Taken<Option<DispatchErrorView>> {
    if input.len() == 0 {
        failed(0)
    } else if input[0] == 0 {
        got(1, None)
    } else if input[0] == 1 {
        let error = dispatch_error_front(input.skip(1));
        match error.value {
            Some(value) => got(1 + error.used, Some(value)),
            None => failed(1 + error.used),
        }
    } else {
        failed(1)
    }
}

/// `Input::read_byte` on a slice: takes the first byte off, or fails on no bytes.
#[verifier::external_body]
pub(crate) fn read_byte(input: &mut &[u8]) -> (result: Result<u8, CodecError>)
    ensures
        final(input)@ == old(input)@.skip(byte_front(old(input)@).used as int),
        ok_value(result) == byte_front(old(input)@).value,
{
    input.read_byte()
}

/// `<Compact<u32> as Decode>::decode` on a slice: reads a compact number.
#[verifier::external_body]
pub(crate) fn decode_compact(input: &mut &[u8]) -> (result: Result<
    u32,
    CodecError,
>)
    ensures
        final(input)@ == old(input)@.skip(compact_front(old(input)@).used as int),
        match result {
            Ok(value) => compact_front(old(input)@).value == Some(value as nat),
            Err(_) => compact_front(old(input)@).value is None,
        },
{
    <Compact<u32>>::decode(input).map(|compact| compact.0)
}

/// `<Compact<u32> as Encode>::encode_to` on a vector: appends the compact form of a number.
#[verifier::external_body]
pub(crate) fn encode_compact(value: u32, output: &mut Vec<u8>)
    ensures
        final(output)@ == old(output)@ + compact_digits(value as nat),
{
    Compact(value).encode_to(output)
}

/// `<() as Decode>::decode` on a slice: takes nothing and cannot fail.
#[verifier::external_body]
pub(crate) fn decode_unit(input: &mut &[u8]) -> (result: Result<(), CodecError>)
    ensures
        final(input)@ == old(input)@,
        result is Ok,
{
    <()>::decode(input)
}

/// `<() as Encode>::encode_to` on a vector: appends nothing.
#[verifier::external_body]
pub(crate) fn encode_unit(output: &mut Vec<u8>)
    ensures
        final(output)@ == old(output)@,
{
    ().encode_to(output)
}

/// `<bool as Decode>::decode` on a slice: reads 0 or 1 and refuses any other byte.
#[verifier::external_body]
pub(crate) fn decode_bool(input: &mut &[u8]) -> (result: Result<bool, CodecError>)
    ensures
        final(input)@ == old(input)@.skip(bool_front(old(input)@).used as int),
        ok_value(result) == bool_front(old(input)@).value,
{
    bool::decode(input)
}

/// `<bool as Encode>::encode_to` on a vector: appends 1 for `true` and 0 for `false`.
#[verifier::external_body]
pub(crate) fn encode_bool(value: bool, output: &mut Vec<u8>)
    ensures
        final(output)@ == old(output)@.push(if value { 1u8 } else { 0u8 }),
{
    value.encode_to(output)
}

/// `<u8 as Decode>::decode` on a slice: takes the first byte off, or fails on no bytes.
#[verifier::external_body]
pub(crate) fn decode_u8(input: &mut &[u8]) -> (result: Result<u8, CodecError>)
    ensures
        final(input)@ == old(input)@.skip(byte_front(old(input)@).used as int),
        ok_value(result) == byte_front(old(input)@).value,
{
    u8::decode(input)
}

/// `<u8 as Encode>::encode_to` on a vector: appends the byte.
#[verifier::external_body]
pub(crate) fn encode_u8(value: u8, output: &mut Vec<u8>)
    ensures
        final(output)@ == old(output)@.push(value),
{
    value.encode_to(output)
}

/// `<u32 as Decode>::decode` on a slice: reads four little-endian bytes.
#[verifier::external_body]
pub(crate) fn decode_u32(input: &mut &[u8]) -> (result: Result<u32, CodecError>)
    ensures
        final(input)@ == old(input)@.skip(number_front(old(input)@, 4).used as int),
        match result {
            Ok(value) => number_front(old(input)@, 4).value == Some(value as nat),
            Err(_) => number_front(old(input)@, 4).value is None,
        },
{
    u32::decode(input)
}

/// `<u32 as Encode>::encode_to` on a vector: appends four little-endian bytes.
#[verifier::external_body]
pub(crate) fn encode_u32(value: u32, output: &mut Vec<u8>)
    ensures
        final(output)@ == old(output)@ + le_digits(value as nat, 4),
{
    value.encode_to(output)
}

/// `<u64 as Decode>::decode` on a slice: reads eight little-endian bytes.
#[verifier::external_body]
pub(crate) fn decode_u64(input: &mut &[u8]) -> (result: Result<u64, CodecError>)
    ensures
        final(input)@ == old(input)@.skip(number_front(old(input)@, 8).used as int),
        match result {
            Ok(value) => number_front(old(input)@, 8).value == Some(value as nat),
            Err(_) => number_front(old(input)@, 8).value is None,
        },
{
    u64::decode(input)
}

/// `<u64 as Encode>::encode_to` on a vector: appends eight little-endian bytes.
#[verifier::external_body]
pub(crate) fn encode_u64(value: u64, output: &mut Vec<u8>)
    ensures
        final(output)@ == old(output)@ + le_digits(value as nat, 8),
{
    value.encode_to(output)
}

/// `<u128 as Decode>::decode` on a slice: reads sixteen little-endian bytes.
#[verifier::external_body]
pub(crate) fn decode_u128(input: &mut &[u8]) -> (result: Result<u128, CodecError>)
    ensures
        final(input)@ == old(input)@.skip(number_front(old(input)@, 16).used as int),
        match result {
            Ok(value) => number_front(old(input)@, 16).value == Some(value as nat),
            Err(_) => number_front(old(input)@, 16).value is None,
        },
{
    u128::decode(input)
}

/// `<u128 as Encode>::encode_to` on a vector: appends sixteen little-endian bytes.
#[verifier::external_body]
pub(crate) fn encode_u128(value: u128, output: &mut Vec<u8>)
    ensures
        final(output)@ == old(output)@ + le_digits(value as nat, 16),
{
    value.encode_to(output)
}

/// `<[u8; N] as Decode>::decode` on a slice: reads `N` bytes, one by one. It panics for arrays
/// whose length does not fit 32 bits.
#[verifier::external_body]
pub(crate) fn decode_array<const N: usize>(input: &mut &[u8]) -> (result: Result<
    [u8; N],
    CodecError,
>)
    requires
        N <= u32::MAX,
    ensures
        final(input)@ == old(input)@.skip(array_front(old(input)@, N as nat).used as int),
        match result {
            Ok(value) => array_front(old(input)@, N as nat).value == Some(value@),
            Err(_) => array_front(old(input)@, N as nat).value is None,
        },
{
    <[u8; N]>::decode(input)
}

/// `<[u8; N] as Encode>::encode_to` on a vector: appends the bytes of the array.
#[verifier::external_body]
pub(crate) fn encode_array<const N: usize>(value: &[u8; N], output: &mut Vec<u8>)
    ensures
        final(output)@ == old(output)@ + value@,
{
    value.encode_to(output)
}

/// `<frame_support::dispatch::DispatchInfo as Decode>::decode` on a slice: reads the weight, the
/// class and whether fees are paid.
#[verifier::external_body]
pub(crate) fn decode_dispatch_info(input: &mut &[u8]) -> (result: Result<
    DispatchInfo,
    CodecError,
>)
    ensures
        final(input)@ == old(input)@.skip(dispatch_info_front(old(input)@).used as int),
        ok_value(result) == dispatch_info_front(old(input)@).value,
{
    let info = frame_support::dispatch::DispatchInfo::decode(input)?;
    let class = match info.class {
        frame_support::weights::DispatchClass::Normal => DispatchClass::Normal,
        frame_support::weights::DispatchClass::Operational => DispatchClass::Operational,
        frame_support::weights::DispatchClass::Mandatory => DispatchClass::Mandatory,
    };
    let pays_fee = match info.pays_fee {
        frame_support::weights::Pays::Yes => Pays::Yes,
        frame_support::weights::Pays::No => Pays::No,
    };
    Ok(DispatchInfo { weight: info.weight, class, pays_fee })
}

/// `<frame_support::dispatch::DispatchInfo as Encode>::encode_to` on a vector: appends the weight,
/// the class and whether fees are paid.
#[verifier::external_body]
pub(crate) fn encode_dispatch_info(info: &DispatchInfo, output: &mut Vec<u8>)
    ensures
        final(output)@ == old(output)@ + dispatch_info_bytes(*info),
{
    let class = match info.class {
        DispatchClass::Normal => frame_support::weights::DispatchClass::Normal,
        DispatchClass::Operational => frame_support::weights::DispatchClass::Operational,
        DispatchClass::Mandatory => frame_support::weights::DispatchClass::Mandatory,
    };
    let pays_fee = match info.pays_fee {
        Pays::Yes => frame_support::weights::Pays::Yes,
        Pays::No => frame_support::weights::Pays::No,
    };
    frame_support::dispatch::DispatchInfo { weight: info.weight, class, pays_fee }.encode_to(output)
}

/// `<sp_runtime::DispatchError as Decode>::decode` on a slice: reads the reason of a failed call.
#[verifier::external_body]
pub(crate) fn decode_dispatch_error(input: &mut &[u8]) -> (result: Result<
    DispatchError,
    CodecError,
>)
    ensures
        final(input)@ == old(input)@.skip(dispatch_error_front(old(input)@).used as int),
        match result {
            Ok(error) => dispatch_error_front(old(input)@).value == Some(error@),
            Err(_) => dispatch_error_front(old(input)@).value is None,
        },
{
    Ok(match sp_runtime::DispatchError::decode(input)? {
        sp_runtime::DispatchError::Other(text) => DispatchError::Other(text),
        sp_runtime::DispatchError::CannotLookup => DispatchError::CannotLookup,
        sp_runtime::DispatchError::BadOrigin => DispatchError::BadOrigin,
        sp_runtime::DispatchError::Module { index, error, .. } => DispatchError::Module {
            index,
            error,
        },
        sp_runtime::DispatchError::ConsumerRemaining => DispatchError::ConsumerRemaining,
        sp_runtime::DispatchError::NoProviders => DispatchError::NoProviders,
    })
}

/// `<sp_runtime::DispatchResult as Decode>::decode` on a slice: reads the outcome of a call.
#[verifier::external_body]
pub(crate) fn decode_dispatch_result(input: &mut &[u8]) -> (result: Result<
    Result<(), DispatchError>,
    CodecError,
>)
    ensures
        final(input)@ == old(input)@.skip(dispatch_result_front(old(input)@).used as int),
        match result {
            Ok(outcome) => dispatch_result_front(old(input)@).value == Some(
                dispatch_view(outcome),
            ),
            Err(_) => dispatch_result_front(old(input)@).value is None,
        },
{
    Ok(match sp_runtime::DispatchResult::decode(input)? {
        Ok(()) => Ok(()),
        Err(sp_runtime::DispatchError::Other(text)) => Err(DispatchError::Other(text)),
        Err(sp_runtime::DispatchError::CannotLookup) => Err(DispatchError::CannotLookup),
        Err(sp_runtime::DispatchError::BadOrigin) => Err(DispatchError::BadOrigin),
        Err(sp_runtime::DispatchError::Module { index, error, .. }) => Err(
            DispatchError::Module { index, error },
        ),
        Err(sp_runtime::DispatchError::ConsumerRemaining) => Err(DispatchError::ConsumerRemaining),
        Err(sp_runtime::DispatchError::NoProviders) => Err(DispatchError::NoProviders),
    })
}

/// `u16::to_ne_bytes` of std: the two bytes of a number, in the order of the machine.
#[verifier::external_body]
pub(crate) fn native_bytes(value: u16) -> (bytes: [u8; 2])
    ensures
        bytes@ == le_digits(value as nat, 2) || bytes@ == le_digits(value as nat, 2).reverse(),
{
    value.to_ne_bytes()
}

/// `From<&'static str>` of the codec's error: an error with the given text. Nothing is claimed of
/// it, as its text is not visible here.
#[verifier::external_body]
pub(crate) fn codec_error(text: &'static str) -> CodecError {
    CodecError::from(text)
}

/// `Error::chain` of the codec: an error that says in what `error` came up. Nothing is claimed of
/// it, as its text is not visible here.
#[verifier::external_body]
pub(crate) fn chain(
    error: CodecError,
    text: &'static str,
) -> CodecError {
    error.chain(text)
}

} // verus!
