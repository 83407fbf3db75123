use vstd::prelude::*;

verus! {

/// The sixteen lower-case hexadecimal digits, by value.
pub open spec fn hex_digits() -> Seq<char> {
    seq!['0', '1', '2', '3', '4', '5', '6', '7', '8', '9', 'a', 'b', 'c', 'd', 'e', 'f']
}

/// The number of hexadecimal digits that stand before position `pos` of a
/// hyphenated identifier, whose hyphens stand at 8, 13, 18 and 23.
pub open spec fn digits_before(pos: int) -> int {
    if pos <= 8 {
        pos
    } else if pos <= 13 {
        pos - 1
    } else if pos <= 18 {
        pos - 2
    } else if pos <= 23 {
        pos - 3
    } else {
        pos - 4
    }
}

/// The character at position `pos` of the hyphenated form of `id`.
pub open spec fn hyphenated_char(id: u128, pos: int) -> char {
    if pos == 8 || pos == 13 || pos == 18 || pos == 23 {
        '-'
    } else {
        let shift = (4 * (31 - digits_before(pos))) as u128;
        hex_digits()[((id >> shift) & 0xf) as int]
    }
}

/// The printable form of a 128-bit identifier: 32 lower-case hexadecimal
/// digits, most significant first, in groups of 8, 4, 4, 4 and 12 with a
/// hyphen between them.
pub open spec fn hyphenated(id: u128) -> Seq<char> {
    Seq::new(36, |pos: int| hyphenated_char(id, pos))
}

/// What `uuid::Uuid::parse_str` makes of a text: the identifier it names in
/// one of the notations the parser knows, or nothing.
pub uninterp spec fn parsed_uuid(text: Seq<char>) -> Option<u128>;

/// The SHA-256 digest of a text's UTF-8 bytes, as 64 hexadecimal digits.
pub uninterp spec fn sha256_hex(text: Seq<char>) -> Seq<char>;

/// Draws a random identifier with `uuid::Uuid::new_v4` and hands out its 128
/// bits. The value is random, so nothing is claimed of it.
#[verifier::external_body]
pub(crate) fn fresh_id() -> (id: u128) {
    uuid::Uuid::new_v4().as_u128()
}

/// Reads the clock with `chrono::Utc::now` and hands out
/// `DateTime::timestamp_micros`, the microseconds since the Unix epoch. The
/// value depends on the machine's clock, so nothing is claimed of it. On a
/// machine whose clock stands before 1970 `Utc::now` panics.
#[verifier::external_body]
pub(crate) fn now_micros() -> (micros: i64) {
    chrono::Utc::now().timestamp_micros()
}

/// Prints an identifier with `uuid::Uuid::to_string`, which writes the
/// hyphenated lower-case form.
#[verifier::external_body]
pub(crate) fn format_uuid(id: u128) -> (text: String)
    ensures
        text@ == hyphenated(id),
{
    uuid::Uuid::from_u128(id).to_string()
}

/// Reads an identifier with `uuid::Uuid::parse_str`. The parser accepts every
/// notation that the crate prints, the hyphenated one among them, so the
/// hyphenated form of an identifier reads back as that identifier.
#[verifier::external_body]
pub(crate) fn parse_uuid(text: &str) -> (id: Option<u128>)
    ensures
        id == parsed_uuid(text@),
        forall|known: u128| text@ == hyphenated(known) ==> id == Some(known),
{
    match uuid::Uuid::parse_str(text) {
        Ok(uuid) => Some(uuid.as_u128()),
        Err(_) => None,
    }
}

/// Hashes a text with `sha256::digest`, which returns the SHA-256 digest of
/// the text's bytes in hexadecimal.
#[verifier::external_body]
pub(crate) fn digest_hex(text: &str) -> (digest: String)
    ensures
        digest@ == sha256_hex(text@),
{
    sha256::digest(text)
}

/// What one write draws from outside: two fresh identifiers and a reading of
/// the clock.
#[derive(Clone, Copy, Debug)]
pub struct Stamp {
    /// The identifier for the blob that the write stores, if it stores one.
    pub blob_id: u128,
    /// The identifier for the transaction that the write appends.
    pub transaction_id: u128,
    /// The clock, in microseconds since the Unix epoch.
    pub now: i64,
}

impl Stamp {
    /// Draws two random identifiers and reads the clock.
    pub fn draw() -> (stamp: Stamp) {
        let blob_id = fresh_id();
        let transaction_id = fresh_id();
        let now = now_micros();
        Stamp { blob_id, transaction_id, now }
    }
}

} // verus!
