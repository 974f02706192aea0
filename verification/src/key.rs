//! Entry keys: 128-bit identifiers that sort by the time of their making.
//!
//! A key is a ULID taken as a number: 48 bits of Unix time in milliseconds,
//! then 80 random bits. On the wire and on disk it travels as the 26
//! characters of its Crockford base 32 text.

use ulid::Ulid;
use vstd::prelude::*;

verus! {

/// The number of values that the 80 random bits of a key can take.
pub const RANDOM_SPAN: u128 = 0x1_0000_0000_0000_0000_0000;

/// The text that `Ulid::to_string` gives for the key: its 26 base 32 characters.
pub uninterp spec fn ulid_text(key: u128) -> Seq<char>;

/// What `Ulid::from_string` makes of a text: the key it spells, or nothing
/// where the text is not 26 base 32 characters.
pub uninterp spec fn ulid_value(text: Seq<char>) -> Option<u128>;

/// A new key from `Ulid::new`: the current time and fresh random bits. The
/// result differs from call to call, so nothing is claimed of it.
#[verifier::external_body]
pub(crate) fn fresh_key() -> (key: u128) {
    Ulid::new().0
}

/// The text of a key, from `Ulid::to_string`. Claims that the text is the one
/// named by `ulid_text`, and that `Ulid::from_string` reads the key back from
/// it, as the encoder and the decoder of the ulid crate are inverse on all
/// 128-bit values.
#[verifier::external_body]
pub(crate) fn key_text(key: u128) -> (text: String)
    ensures
        text@ == ulid_text(key),
        ulid_value(text@) == Some(key),
{
    Ulid(key).to_string()
}

/// The key that a text spells, from `Ulid::from_string`; `None` where the
/// decoder refuses the text. Claims only that the result is the one named by
/// `ulid_value`.
#[verifier::external_body]
pub(crate) fn key_value(text: &str) -> (key: Option<u128>)
    ensures
        key == ulid_value(text@),
{
    match Ulid::from_string(text) {
        Ok(id) => Some(id.0),
        Err(_) => None,
    }
}

/// The key that follows `key` within the same millisecond: the random part
/// goes up by one. There is none when the random part is at its highest.
pub open spec fn successor(key: u128) -> Option<u128> {
    if key % RANDOM_SPAN == RANDOM_SPAN - 1 {
        None
    } else {
        Some((key + 1) as u128)
    }
}

/// The key that a new local entry gets, given the newest key of the log and a
/// freshly made candidate. The candidate stands if it is newer than all that
/// the log holds; otherwise the entry takes the successor of the newest key,
/// so that keys made on one host always go up.
pub open spec fn assigned(newest: Option<u128>, candidate: u128) -> Option<u128> {
    match newest {
        None => Some(candidate),
        Some(top) => if candidate > top {
            Some(candidate)
        } else {
            successor(top)
        },
    }
}

/// Computes `successor`.
pub fn next_key(key: u128) -> (next: Option<u128>)
    ensures
        next == successor(key),
        next matches Some(after) ==> after > key,
{
    if key % RANDOM_SPAN == RANDOM_SPAN - 1 {
        None
    } else {
        Some(key + 1)
    }
}

/// Computes `assigned`. A key that comes out is newer than `newest`.
pub fn assign_key(newest: Option<u128>, candidate: u128) -> (key: Option<u128>)
    ensures
        key == assigned(newest, candidate),
        key matches Some(made) ==> (newest matches Some(top) ==> made > top),
{
    match newest {
        None => Some(candidate),
        Some(top) => {
            if candidate > top {
                Some(candidate)
            } else {
                next_key(top)
            }
        },
    }
}

} // verus!
