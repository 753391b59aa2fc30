//! The calls into outside crates (and into std where vstd has no
//! specification), each behind a function whose contract is trusted.

use vstd::prelude::*;
use base64::Engine;
use rand::RngCore;
use sha2::Digest;

verus! {

/// The Base64 digit of a 6-bit value: `A-Z`, `a-z`, `0-9`, then `+` and `/`,
/// or `-` and `_` in the URL-safe alphabet.
pub open spec fn base64_digit(v: int, url_safe: bool) -> char {
    if v < 26 {
        ('A' as int + v) as char
    } else if v < 52 {
        ('a' as int + v - 26) as char
    } else if v < 62 {
        ('0' as int + v - 52) as char
    } else if v == 62 {
        if url_safe {
            '-'
        } else {
            '+'
        }
    } else {
        if url_safe {
            '_'
        } else {
            '/'
        }
    }
}

/// Base64 (RFC 4648): each group of three bytes becomes four digits of six
/// bits each; a final group of one or two bytes becomes two or three digits,
/// followed by `=` up to four where `pad` holds.
pub open spec fn base64_encode(bytes: Seq<u8>, url_safe: bool, pad: bool) -> Seq<char>
    decreases bytes.len(),
{
    if bytes.len() == 0 {
        Seq::empty()
    } else if bytes.len() == 1 {
        let b0 = bytes[0] as int;
        seq![base64_digit(b0 / 4, url_safe), base64_digit((b0 % 4) * 16, url_safe)] + if pad {
            seq!['=', '=']
        } else {
            Seq::empty()
        }
    } else if bytes.len() == 2 {
        let b0 = bytes[0] as int;
        let b1 = bytes[1] as int;
        seq![
            base64_digit(b0 / 4, url_safe),
            base64_digit((b0 % 4) * 16 + b1 / 16, url_safe),
            base64_digit((b1 % 16) * 4, url_safe),
        ] + if pad {
            seq!['=']
        } else {
            Seq::empty()
        }
    } else {
        let b0 = bytes[0] as int;
        let b1 = bytes[1] as int;
        let b2 = bytes[2] as int;
        seq![
            base64_digit(b0 / 4, url_safe),
            base64_digit((b0 % 4) * 16 + b1 / 16, url_safe),
            base64_digit((b1 % 16) * 4 + b2 / 64, url_safe),
            base64_digit(b2 % 64, url_safe),
        ] + base64_encode(bytes.skip(3), url_safe, pad)
    }
}

/// Unpadded Base64 writes four digits per three bytes, and one more digit
/// than the bytes of a final short group.
pub proof fn lemma_base64_unpadded_len(bytes: Seq<u8>, url_safe: bool)
    ensures
        base64_encode(bytes, url_safe, false).len() == 4 * (bytes.len() / 3) + if bytes.len() % 3
            == 0 {
            0
        } else {
            bytes.len() % 3 + 1
        },
    decreases bytes.len(),
{
    if bytes.len() >= 3 {
        lemma_base64_unpadded_len(bytes.skip(3), url_safe);
    }
}

/// The standard Base64 encoding (alphabet `A-Z a-z 0-9 + /`, `=` padding)
/// of a byte string.
pub open spec fn base64_standard(bytes: Seq<u8>) -> Seq<char> {
    base64_encode(bytes, false, true)
}

/// The URL-safe Base64 encoding (alphabet `A-Z a-z 0-9 - _`) without
/// padding of a byte string.
pub open spec fn base64_url_no_pad(bytes: Seq<u8>) -> Seq<char> {
    base64_encode(bytes, true, false)
}

/// The SHA-256 digest of a byte string.
pub uninterp spec fn sha256(bytes: Seq<u8>) -> Seq<u8>;

/// The uppercase form of a text, as Unicode defines it.
pub uninterp spec fn uppercase(s: Seq<char>) -> Seq<char>;

/// Calls `base64::engine::general_purpose::STANDARD.encode`; trusted to give
/// the standard Base64 encoding of `bytes`, with padding. The crate
/// panics only where the encoded length overflows `usize`, which no slice
/// (at most `isize::MAX` bytes long) reaches.
#[verifier::external_body]
pub(crate) fn encode_base64_standard(bytes: &[u8]) -> (r: String)
    ensures
        r@ == base64_standard(bytes@),
{
    base64::engine::general_purpose::STANDARD.encode(bytes)
}

/// Calls `base64::engine::general_purpose::URL_SAFE_NO_PAD.encode`; trusted
/// to give the URL-safe Base64 encoding of `bytes`, without padding. The
/// crate's only panic, an overflow of the encoded length, no
/// slice reaches.
#[verifier::external_body]
pub(crate) fn encode_base64_url_no_pad(bytes: &[u8]) -> (r: String)
    ensures
        r@ == base64_url_no_pad(bytes@),
{
    base64::engine::general_purpose::URL_SAFE_NO_PAD.encode(bytes)
}

/// Calls `sha2::Sha256::digest`; trusted to give the digest of `bytes`,
/// which the type of the crate's output fixes at 32 bytes.
#[verifier::external_body]
pub(crate) fn sha256_digest(bytes: &[u8]) -> (r: Vec<u8>)
    ensures
        r@ == sha256(bytes@),
        r@.len() == 32,
{
    sha2::Sha256::digest(bytes).to_vec()
}

/// Calls `rand::RngCore::fill_bytes` on `rand::thread_rng()` over 64 bytes.
/// The bytes are random: nothing is stated of them.
#[verifier::external_body]
pub(crate) fn random_bytes() -> (r: [u8; 64]) {
    let mut bytes = [0u8; 64];
    rand::thread_rng().fill_bytes(&mut bytes);
    bytes
}

/// Whether `urlencoding` leaves byte `b` as it is: ASCII letters, digits and
/// `-`, `.`, `_`, `~`.
pub open spec fn url_safe_byte(b: u8) -> bool {
    (0x30 <= b <= 0x39) || (0x41 <= b <= 0x5a) || (0x61 <= b <= 0x7a) || b == 0x2d || b == 0x2e
        || b == 0x5f || b == 0x7e
}

/// The uppercase hexadecimal digit of a value below 16.
pub open spec fn hex_upper(d: u8) -> char {
    if d < 10 {
        (0x30 + d) as char
    } else {
        (0x41 - 10 + d) as char
    }
}

/// The percent-encoding of one byte.
pub open spec fn url_encode_byte(b: u8) -> Seq<char> {
    if url_safe_byte(b) {
        seq![b as char]
    } else {
        seq!['%', hex_upper(b / 16), hex_upper(b % 16)]
    }
}

/// The percent-encoding of a byte string, byte by byte.
pub open spec fn url_encode_bytes(bytes: Seq<u8>) -> Seq<char>
    decreases bytes.len(),
{
    if bytes.len() == 0 {
        Seq::empty()
    } else {
        url_encode_bytes(bytes.drop_last()) + url_encode_byte(bytes.last())
    }
}

/// Calls `urlencoding::encode`; trusted to percent-encode every byte of the
/// UTF-8 form of `s` but the unreserved ones, with uppercase hex digits, as
/// the crate's documentation and source show.
#[verifier::external_body]
pub(crate) fn url_encode(s: &str) -> (r: String)
    ensures
        r@ == url_encode_bytes(vstd::utf8::encode_utf8(s@)),
{
    urlencoding::encode(s).into_owned()
}

/// The uppercase form of an ASCII character: `a`-`z` become `A`-`Z`, the
/// rest stays.
pub open spec fn ascii_upper(c: char) -> char {
    if 'a' <= c && c <= 'z' {
        (c as int - 32) as char
    } else {
        c
    }
}

/// Calls `str::to_uppercase`; trusted to give the uppercase form of `s`, a
/// function of `s` alone, which on ASCII text maps `a`-`z` to `A`-`Z` and
/// keeps every other character (Unicode's mapping on ASCII).
#[verifier::external_body]
pub(crate) fn to_uppercase(s: &str) -> (r: String)
    ensures
        r@ == uppercase(s@),
        (forall|i: int| 0 <= i < s@.len() ==> (#[trigger] s@[i] as int) < 128) ==> r@ == s@.map_values(
            |c: char| ascii_upper(c),
        ),
{
    s.to_uppercase()
}

/// The lowercase hexadecimal digit of a value below 16.
pub open spec fn hex_lower(d: int) -> char {
    if d < 10 {
        ('0' as int + d) as char
    } else {
        ('a' as int + d - 10) as char
    }
}

/// How a JSON string writes one character: `"` and `\` and the control
/// characters escaped (`\b \f \n \r \t`, else `\u00XX` in lowercase hex),
/// every other character as it is.
pub open spec fn json_escape(c: char) -> Seq<char> {
    if c == '"' {
        seq!['\\', '"']
    } else if c == '\\' {
        seq!['\\', '\\']
    } else if c == '\u{8}' {
        seq!['\\', 'b']
    } else if c == '\u{c}' {
        seq!['\\', 'f']
    } else if c == '\n' {
        seq!['\\', 'n']
    } else if c == '\r' {
        seq!['\\', 'r']
    } else if c == '\t' {
        seq!['\\', 't']
    } else if (c as int) < 0x20 {
        seq!['\\', 'u', '0', '0', hex_lower(c as int / 16), hex_lower(c as int % 16)]
    } else {
        seq![c]
    }
}

/// The escaped characters of a text, in order.
pub open spec fn json_escaped(s: Seq<char>) -> Seq<char>
    decreases s.len(),
{
    if s.len() == 0 {
        Seq::empty()
    } else {
        json_escaped(s.drop_last()) + json_escape(s.last())
    }
}

/// A text as a JSON string literal.
pub open spec fn json_quoted(s: Seq<char>) -> Seq<char> {
    seq!['"'] + json_escaped(s) + seq!['"']
}

/// Calls `Display` (`to_string`) on `serde_json::Value::String`; trusted to
/// write `s` as a compact JSON string literal, escaping as serde_json's
/// escape table (`ser.rs`) shows.
#[verifier::external_body]
pub(crate) fn json_string(s: &str) -> (r: String)
    ensures
        r@ == json_quoted(s@),
{
    serde_json::Value::String(s.to_owned()).to_string()
}

/// The string at `outer.inner` of a JSON text: `None` where the text is not
/// JSON, `Some(None)` where that field is missing or not a string (or the
/// outer value is not an object).
pub uninterp spec fn json_str_at(text: Seq<char>, outer: Seq<char>, inner: Seq<char>) -> Option<
    Option<Seq<char>>,
>;

/// Calls `serde_json::from_str` into a `serde_json::Value`, then `get` of the
/// two fields and `as_str`; trusted to give the field's string as
/// `json_str_at` names it, a function of the text and the field names alone.
/// Where parsing fails the error is the parser's message, of which nothing is
/// stated.
#[verifier::external_body]
pub(crate) fn json_str_at_path(text: &str, outer: &str, inner: &str) -> (r: Result<Option<String>, String>)
    ensures
        match r {
            Ok(Some(s)) => json_str_at(text@, outer@, inner@) == Some(Some(s@)),
            Ok(None) => json_str_at(text@, outer@, inner@) == Some(None::<Seq<char>>),
            Err(_) => json_str_at(text@, outer@, inner@) is None,
        },
{
    let v: serde_json::Value = serde_json::from_str(text).map_err(|e| e.to_string())?;
    Ok(v.get(outer).and_then(|d| d.get(inner)).and_then(|t| t.as_str()).map(|t| t.to_owned()))
}

} // verus!
