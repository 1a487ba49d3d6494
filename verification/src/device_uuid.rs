//! Device identifiers: 128-bit UUIDs, their canonical text, and parsing.

use vstd::prelude::*;

verus! {

/// A device's UUID, held as its 128-bit value (most significant byte first,
/// as RFC 4122 lays the bytes out).
#[derive(Clone, Copy, Debug, PartialEq, Eq, Structural)]
pub struct Uuid {
    pub value: u128,
}

/// The lower-case hexadecimal digit for `d` (taken modulo 16).
pub open spec fn hex_char(d: nat) -> char {
    let d = d % 16;
    if d < 10 {
        crate::text::digit_char(d)
    } else if d == 10 {
        'a'
    } else if d == 11 {
        'b'
    } else if d == 12 {
        'c'
    } else if d == 13 {
        'd'
    } else if d == 14 {
        'e'
    } else {
        'f'
    }
}

/// The last `n` hexadecimal digits of `v`, most significant first.
pub open spec fn hex_digits(v: nat, n: nat) -> Seq<char>
    decreases n,
{
    if n == 0 {
        Seq::empty()
    } else {
        hex_digits(v / 16, (n - 1) as nat).push(hex_char(v % 16))
    }
}

/// The hyphenated form of a UUID: 32 lower-case hexadecimal digits grouped
/// 8-4-4-4-12, as in `a1a2a3a4-b1b2-c1c2-d1d2-d3d4d5d6d7d8`.
pub open spec fn hyphenated(v: u128) -> Seq<char> {
    let h = hex_digits(v as nat, 32);
    h.subrange(0, 8) + seq!['-'] + h.subrange(8, 12) + seq!['-'] + h.subrange(12, 16) + seq!['-']
        + h.subrange(16, 20) + seq!['-'] + h.subrange(20, 32)
}

/// The simple form of a UUID: its 32 lower-case hexadecimal digits.
pub open spec fn simple_form(v: u128) -> Seq<char> {
    hex_digits(v as nat, 32)
}

/// The braced form of a UUID: its hyphenated form in braces.
pub open spec fn braced_form(v: u128) -> Seq<char> {
    seq!['{'] + hyphenated(v) + seq!['}']
}

/// The URN form of a UUID: `urn:uuid:` and its hyphenated form.
pub open spec fn urn_form(v: u128) -> Seq<char> {
    "urn:uuid:"@ + hyphenated(v)
}

/// What `uuid::Uuid::parse_str` makes of a text: the UUID's value, or `None`
/// where the text is in none of the forms it accepts.
pub uninterp spec fn parsed_uuid(text: Seq<char>) -> Option<u128>;

/// The hyphenated text of `u`, through `uuid::Uuid::hyphenated` and its
/// `Display`. The claim: the text is [`hyphenated`] of the value, which is
/// what the crate documents (lower-case hex digits grouped 8-4-4-4-12).
#[verifier::external_body]
pub(crate) fn hyphenated_text(u: &Uuid) -> (s: String)
    ensures
        s@ == hyphenated(u.value),
{
    uuid::Uuid::from_u128(u.value).hyphenated().to_string()
}

/// `uuid::Uuid::parse_str`. The claims: the result is the named
/// [`parsed_uuid`] of the text, and a text in the hyphenated, simple,
/// braced or URN form, with lower-case digits, parses to the value it was
/// written from (the parser reads 32 digits, 36 characters with hyphens,
/// those in braces, or those after `urn:uuid:`, most significant digit
/// first). Texts with upper-case digits, which it accepts too, are left
/// unsaid.
#[verifier::external_body]
pub(crate) fn parse_uuid(text: &str) -> (r: Option<Uuid>)
    ensures
        match r {
            Some(u) => parsed_uuid(text@) == Some(u.value),
            None => parsed_uuid(text@) is None,
        },
        forall|v: u128| text@ == #[trigger] hyphenated(v) ==> r == Some(Uuid { value: v }),
        forall|v: u128| text@ == #[trigger] simple_form(v) ==> r == Some(Uuid { value: v }),
        forall|v: u128| text@ == #[trigger] braced_form(v) ==> r == Some(Uuid { value: v }),
        forall|v: u128| text@ == #[trigger] urn_form(v) ==> r == Some(Uuid { value: v }),
{
    match uuid::Uuid::parse_str(text) {
        Ok(u) => Some(Uuid { value: u.as_u128() }),
        Err(_) => None,
    }
}

} // verus!
