//! Texts for people to read.

use vstd::prelude::*;

verus! {

/// How `{:?}` of std shows a text: in quotes, with escapes for what does not print as it stands.
pub uninterp spec fn quoted(text: Seq<char>) -> Seq<char>;

/// The digit of `value`, which is below 16, in lower case.
pub open spec fn hex_digit(value: u8) -> char {
    if value < 10 {
        ('0' as int + value) as char
    } else {
        ('a' as int + value - 10) as char
    }
}

/// The bytes of `data` as two hexadecimal digits each, the high one first.
pub open spec fn hex_digits(data: Seq<u8>) -> Seq<char> {
    Seq::new(
        2 * data.len(),
        |i: int|
            if i % 2 == 0 {
                hex_digit((data[i / 2] / 16) as u8)
            } else {
                hex_digit((data[i / 2] % 16) as u8)
            },
    )
}

/// `names` has each member of `set` once, in some order.
pub open spec fn lists(names: Seq<Seq<char>>, set: Set<Seq<char>>) -> bool {
    &&& names.no_duplicates()
    &&& names.to_set() == set
}

/// The texts of `parts` run together.
pub open spec fn joined(parts: Seq<Seq<char>>) -> Seq<char>
    decreases parts.len(),
{
    if parts.len() == 0 {
        Seq::empty()
    } else {
        joined(parts.drop_last()) + parts.last()
    }
}

/// `hex::encode`: the bytes as lower case hexadecimal digits.
#[verifier::external_body]
pub(crate) fn hex_encode(data: &Vec<u8>) -> (text: String)
    ensures
        text@ == hex_digits(data@),
{
    hex::encode(data)
}

/// The `Debug` form of a text as std's formatting gives it, under the name [`quoted`].
#[verifier::external_body]
pub(crate) fn quote(text: &str) -> (shown: String)
    ensures
        shown@ == quoted(text@),
{
    format!("{:?}", text)
}

} // verus!
