//! JSON text of string values, as `serde_json` writes them.

use vstd::prelude::*;
use vstd::utf8::encode_scalar;

verus! {

/// Lower-case hexadecimal digit of `n` (`0 <= n < 16`), as a byte.
pub open spec fn hex_digit(n: int) -> u8 {
    if n < 10 {
        (48 + n) as u8
    } else {
        (87 + n) as u8
    }
}

/// The bytes `serde_json` writes for one character inside a string: `"`
/// and `\` are backslash-escaped, the control characters below U+0020 use
/// the short escapes `\b \t \n \f \r` or `\u00XX`, and every other character
/// is written as its UTF-8 encoding.
pub open spec fn json_char_bytes(c: char) -> Seq<u8> {
    let u = c as u32;
    if c == '"' {
        seq![92u8, 34u8]
    } else if c == '\\' {
        seq![92u8, 92u8]
    } else if u == 8 {
        seq![92u8, 98u8]
    } else if u == 9 {
        seq![92u8, 116u8]
    } else if u == 10 {
        seq![92u8, 110u8]
    } else if u == 12 {
        seq![92u8, 102u8]
    } else if u == 13 {
        seq![92u8, 114u8]
    } else if u < 0x20 {
        seq![92u8, 117u8, 48u8, 48u8, hex_digit((u / 16) as int), hex_digit((u % 16) as int)]
    } else {
        encode_scalar(u)
    }
}

/// The escaped contents of a JSON string holding `s`, without quotes.
pub open spec fn json_string_body(s: Seq<char>) -> Seq<u8>
    decreases s.len(),
{
    if s.len() == 0 {
        Seq::empty()
    } else {
        json_string_body(s.drop_last()) + json_char_bytes(s.last())
    }
}

/// The JSON string literal for `s`, quotes included.
pub open spec fn json_string(s: Seq<char>) -> Seq<u8> {
    seq![34u8] + json_string_body(s) + seq![34u8]
}

/// `serde_json::to_vec` of a string slice. Serializing a `str` into a
/// `Vec<u8>` cannot fail (the only errors come from the writer, and a vector
/// never refuses bytes); the contract states the escaping that
/// `format_escaped_str` performs.
#[verifier::external_body]
pub(crate) fn json_quote(s: &str) -> (r: Vec<u8>)
    ensures
        r@ == json_string(s@),
{
    match serde_json::to_vec(s) {
        Ok(bytes) => bytes,
        Err(_) => Vec::new(),
    }
}

/// Appends `bytes` to `buf`.
pub fn append_bytes(buf: &mut Vec<u8>, bytes: &[u8])
    ensures
        final(buf)@ == old(buf)@ + bytes@,
{
    let ghost start = buf@;
    for i in 0..bytes.len()
        invariant
            buf@ == start + bytes@.take(i as int),
    {
        buf.push(bytes[i]);
        assert(bytes@.take(i + 1) == bytes@.take(i as int).push(bytes@[i as int]));
    }
    assert(bytes@.take(bytes@.len() as int) == bytes@);
}

} // verus!
