//! Addresses of the objects kept in the object storage.

use vstd::prelude::*;
use vstd::string::{StringExecFns, StringSliceAdditionalSpecFns};
use vstd::utf8::encode_utf8;
use crate::text::push_char;

verus! {

/// Whether the byte `b` cannot stand in an address as it is: a byte beyond
/// ASCII, a control character, a space, a double quote, an angle bracket or
/// a backtick.
pub open spec fn needs_escape(b: u8) -> bool {
    b >= 0x80 || b <= 0x1F || b == 0x7F || b == 0x20 || b == 0x22 || b == 0x3C || b == 0x3E || b == 0x60
}

/// The hexadecimal digit, in upper case, that stands for `n`, a number below
/// sixteen.
pub open spec fn upper_hex_digit(n: nat) -> char {
    if n < 10 {
        (48 + n) as char
    } else {
        (55 + n) as char
    }
}

/// How one byte is written in an address: as it is, or as a percent sign
/// and its two hexadecimal digits.
pub open spec fn escaped_byte(b: u8) -> Seq<char> {
    if needs_escape(b) {
        seq!['%', upper_hex_digit((b / 16) as nat), upper_hex_digit((b % 16) as nat)]
    } else {
        seq![b as char]
    }
}

/// How a sequence of bytes is written in an address, byte by byte.
pub open spec fn percent_encoded(bytes: Seq<u8>) -> Seq<char>
    decreases bytes.len(),
{
    if bytes.len() == 0 {
        Seq::empty()
    } else {
        percent_encoded(bytes.drop_last()) + escaped_byte(bytes.last())
    }
}

/// The address of the object `key` in the bucket `bucket` of the region
/// `region`, before escaping.
pub open spec fn object_address(bucket: Seq<char>, region: Seq<char>, key: Seq<char>) -> Seq<char> {
    "https://"@ + bucket + ".s3."@ + region + ".amazonaws.com/"@ + key
}

/// The hexadecimal digit, in upper case, that stands for `n`.
fn hex_digit(n: u8) -> (c: char)
    requires
        n < 16,
    ensures
        c == upper_hex_digit(n as nat),
{
    if n < 10 {
        (48u8 + n) as char
    } else {
        (55u8 + n) as char
    }
}

/// Writes `text` so that it can stand in an address: its UTF-8 bytes, each
/// as it is or escaped.
pub fn percent_encode(text: &str) -> (encoded: String)
    ensures
        encoded@ == percent_encoded(encode_utf8(text@)),
{
    let bytes = text.as_bytes();
    let mut encoded = String::new();
    let mut i: usize = 0;
    assert(bytes@.take(0) =~= Seq::<u8>::empty());
    while i < bytes.len()
        invariant
            i <= bytes.len(),
            bytes@ == encode_utf8(text@),
            encoded@ == percent_encoded(bytes@.take(i as int)),
        decreases bytes.len() - i,
    {
        let b = bytes[i];
        proof {
            assert(bytes@.take(i + 1).drop_last() =~= bytes@.take(i as int));
            assert(bytes@.take(i + 1).last() == b);
        }
        let ghost before = encoded@;
        if b >= 0x80 || b <= 0x1F || b == 0x7F || b == 0x20 || b == 0x22 || b == 0x3C || b == 0x3E || b == 0x60 {
            push_char(&mut encoded, '%');
            push_char(&mut encoded, hex_digit(b / 16));
            push_char(&mut encoded, hex_digit(b % 16));
            assert(encoded@ =~= before + escaped_byte(b));
        } else {
            push_char(&mut encoded, b as char);
            assert(encoded@ =~= before + escaped_byte(b));
        }
        i += 1;
    }
    assert(bytes@.take(i as int) =~= bytes@);
    encoded
}

/// The address under which the object `key` in the bucket `bucket` of the
/// region `region` is found, escaped so that it can be handed out.
pub fn object_url(bucket: &str, region: &str, key: &str) -> (url: String)
    ensures
        url@ == percent_encoded(encode_utf8(object_address(bucket@, region@, key@))),
{
    let address = String::from_str("https://").concat(bucket).concat(".s3.").concat(region).concat(
        ".amazonaws.com/",
    ).concat(key);
    percent_encode(address.as_str())
}

} // verus!
