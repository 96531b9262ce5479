//! Identifiers of jobs and schedules: 128-bit UUIDs and their text.
use vstd::prelude::*;
use vstd::arithmetic::power::pow;

verus! {

pub open spec fn hex_char(digit: int) -> char {
    if digit < 10 {
        ('0' as int + digit) as char
    } else {
        ('a' as int + digit - 10) as char
    }
}

/// The hexadecimal digit of `id` in place `k`, the most significant first.
pub open spec fn hex_digit_of(id: u128, k: int) -> int {
    id as int / pow(16, (31 - k) as nat) % 16
}

/// The hyphenated lower-case text of an id: 8, 4, 4, 4 and 12 hexadecimal digits.
pub open spec fn id_chars(id: u128) -> Seq<char> {
    Seq::new(
        36,
        |i: int|
            if i == 8 || i == 13 || i == 18 || i == 23 {
                '-'
            } else {
                let hyphens = (if i > 8 {
                    1int
                } else {
                    0
                }) + (if i > 13 {
                    1int
                } else {
                    0
                }) + (if i > 18 {
                    1int
                } else {
                    0
                }) + (if i > 23 {
                    1int
                } else {
                    0
                });
                hex_char(hex_digit_of(id, i - hyphens))
            },
    )
}

/// The id that `uuid` reads from a text in any of the forms it accepts (plain,
/// hyphenated, braced, URN), if it reads one.
pub uninterp spec fn id_in(text: Seq<char>) -> Option<u128>;

/// Whether the version and variant bits are those of a random UUID.
pub open spec fn is_random_id(id: u128) -> bool {
    &&& id / 0x1000_0000_0000_0000_0000 % 16 == 4
    &&& id / 0x4000_0000_0000_0000 % 4 == 2
}

/// Draws an id with `uuid::Uuid::new_v4`. Which one comes is chance; its version and
/// variant bits always mark a random UUID.
#[verifier::external_body]
pub(crate) fn fresh_id() -> (id: u128)
    ensures
        is_random_id(id),
{
    uuid::Uuid::new_v4().as_u128()
}

/// Writes an id as `uuid::Uuid` displays itself: the hyphenated lower-case text,
/// which parses back to the id.
#[verifier::external_body]
pub(crate) fn id_text(id: u128) -> (text: String)
    ensures
        text@ == id_chars(id),
        id_in(text@) == Some(id),
{
    uuid::Uuid::from_u128(id).to_string()
}

/// Parses an id with `uuid::Uuid::parse_str`; what comes back is what `id_in` names.
#[verifier::external_body]
pub(crate) fn parse_id(text: &str) -> (id: Option<u128>)
    ensures
        id == id_in(text@),
{
    uuid::Uuid::parse_str(text).ok().map(|id| id.as_u128())
}

} // verus!
