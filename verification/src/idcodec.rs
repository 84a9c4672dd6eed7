//! Human-readable short codes over the internal numeric identifiers: a
//! reversible, purely cosmetic transform applied at the outward-facing
//! edge.
//!
//! The engine draws its identifiers from [`ID_SPACE`], and the code of any
//! identifier in that space is at most 12 ASCII characters. The decoder is
//! only ever handed candidate strings of that shape — the parser rejects
//! anything longer, or not ASCII, as no identifier's code — because within
//! that shape every arithmetic step of the decoder provably fits in 64
//! bits, while a longer crafted string could drive the decoder's digit
//! accumulation past the 64-bit range and abort in builds that check for
//! overflow.

use vstd::prelude::*;

verus! {

/// The space the engine's unpredictable identifiers are drawn from. Its
/// bound is chosen so that the short code of any identifier below it has
/// at most 12 characters: the codec's working alphabet under the default
/// configuration has 44 characters, 44 to the 11th exceeds this bound,
/// and one leading check character precedes at most 11 digits.
pub const ID_SPACE: u64 = 0x1000000000000000;

/// The short code of a sequence of identifiers, under the codec's default
/// configuration: a function of the identifiers alone.
pub uninterp spec fn short_codes(vals: Seq<u64>) -> Seq<char>;

/// A string the engine accepts as a candidate short code: at most 12
/// characters, all ASCII. Every code of an identifier in [`ID_SPACE`] has
/// this shape, and within it the decoder cannot overflow.
pub open spec fn code_shaped(s: Seq<char>) -> bool {
    s.len() <= 12 && vstd::utf8::is_ascii_chars(s)
}

/// The string is the short code of `id` and has the shape the engine
/// accepts: exactly the strings the identifier parser maps to `id`.
pub open spec fn denotes_id(s: Seq<char>, id: u64) -> bool {
    code_shaped(s) && s == short_codes(seq![id])
}

/// Relies on harsh::Harsh::encode with the default configuration: the
/// code of a value list depends on the values alone and is deterministic
/// across processes and machines; it is built from the codec's alphabet
/// and separator bytes, which are all ASCII; and a single value below
/// 44^11 yields one check character and at most 11 digits, 12 characters
/// in all, with no padding at the default length setting.
#[verifier::external_body]
pub(crate) fn encode_id(id: u64) -> (r: String)
    ensures
        r@ == short_codes(seq![id]),
        vstd::utf8::is_ascii_chars(r@),
        id < ID_SPACE ==> r@.len() <= 12,
{
    harsh::Harsh::default().encode(&[id])
}

/// Relies on harsh::Harsh::decode with the default configuration. A
/// decoded value list re-encodes to exactly the input (the decoder checks
/// this itself before returning), and the code of any single identifier
/// decodes back to that identifier.
///
/// The input must be at most 12 ASCII characters. The decoder reads each
/// separator-delimited segment as digits over its 44-character working
/// alphabet, weighting the leading digit by 44 to the power of the
/// segment's remaining length; within 12 ASCII characters a segment holds
/// at most 11 digits after the leading check character, every digit sum
/// stays below 44^11, and no step of the accumulation can leave the
/// 64-bit range. Longer input could, and would abort rather than return
/// in builds that check for overflow, so it is excluded here.
#[verifier::external_body]
pub(crate) fn decode_ids(s: &str) -> (r: Option<Vec<u64>>)
    requires
        code_shaped(s@),
    ensures
        r matches Some(v) ==> short_codes(v@) == s@,
        forall|id: u64|
            s@ == short_codes(seq![id]) ==> r is Some && r->Some_0@ == seq![id],
{
    harsh::Harsh::default().decode(s).ok()
}

} // verus!
