//! Base64 transport of images and masks between the interface and the
//! processing core.

use vstd::prelude::*;
use base64::Engine;

verus! {

/// Character of the standard base64 alphabet for a 6-bit value.
pub open spec fn b64_char(v: int) -> char {
    if v < 26 {
        ('A' as int + v) as char
    } else if v < 52 {
        ('a' as int + (v - 26)) as char
    } else if v < 62 {
        ('0' as int + (v - 52)) as char
    } else if v == 62 {
        '+'
    } else {
        '/'
    }
}

/// Standard base64 with padding: each 3 bytes become 4 characters, a final
/// group of 1 or 2 bytes is padded with `=` to 4 characters.
pub open spec fn base64_encoding(b: Seq<u8>) -> Seq<char>
    decreases b.len(),
{
    let x = if b.len() > 0 { b[0] as int } else { 0 };
    let y = if b.len() > 1 { b[1] as int } else { 0 };
    let z = if b.len() > 2 { b[2] as int } else { 0 };
    if b.len() == 0 {
        Seq::empty()
    } else if b.len() == 1 {
        seq![b64_char(x / 4), b64_char((x % 4) * 16), '=', '=']
    } else if b.len() == 2 {
        seq![b64_char(x / 4), b64_char((x % 4) * 16 + y / 16), b64_char((y % 16) * 4), '=']
    } else {
        seq![b64_char(x / 4), b64_char((x % 4) * 16 + y / 16), b64_char((y % 16) * 4 + z / 64), b64_char(z % 64)]
            + base64_encoding(b.subrange(3, b.len() as int))
    }
}

/// The bytes of an ASCII text.
pub open spec fn ascii_bytes(t: Seq<char>) -> Seq<u8> {
    Seq::new(t.len(), |i: int| t[i] as u8)
}

/// The input is the standard base64 text (with padding) of `b`.
pub open spec fn is_base64_of(input: Seq<u8>, b: Seq<u8>) -> bool {
    input == ascii_bytes(base64_encoding(b))
}

/// Bytes that standard base64 text (with padding) decodes to, `None` for text
/// that is not valid standard base64.
pub uninterp spec fn base64_standard_decode(input: Seq<u8>) -> Option<Seq<u8>>;

/// `base64::engine::general_purpose::STANDARD.encode`: the crate encodes with
/// the standard alphabet and padding, which is `base64_encoding`, and the same
/// engine's `decode` gives the bytes back from that text. It panics only when
/// the encoded length overflows `usize`, which cannot happen for a slice,
/// whose size is at most `isize::MAX` bytes.
#[verifier::external_body]
fn base64_encode(bytes: &[u8]) -> (r: String)
    ensures
        r@ == base64_encoding(bytes@),
        base64_standard_decode(vstd::utf8::encode_utf8(r@)) == Some(bytes@),
{
    base64::engine::general_purpose::STANDARD.encode(bytes)
}

/// `base64::engine::general_purpose::STANDARD.decode`: `Ok` with the decoded
/// bytes exactly when the input is valid standard base64, named by
/// `base64_standard_decode`. The engine requires canonical padding and zero
/// trailing bits, so the valid inputs are exactly the texts that `encode`
/// produces, and each decodes to the bytes it encodes. On an error, the
/// error's display text, which is left unstated.
#[verifier::external_body]
fn base64_decode(input: &[u8]) -> (r: Result<Vec<u8>, String>)
    ensures
        match r {
            Ok(v) => base64_standard_decode(input@) == Some(v@) && is_base64_of(input@, v@),
            Err(_) => base64_standard_decode(input@) is None
                && forall|b: Seq<u8>| !#[trigger] is_base64_of(input@, b),
        },
{
    match base64::engine::general_purpose::STANDARD.decode(input) {
        Ok(v) => Ok(v),
        Err(e) => Err(e.to_string()),
    }
}

/// The base64 text of `bytes`; decoding it gives `bytes` back.
pub fn encode_base64(bytes: &[u8]) -> (r: String)
    ensures
        r@ == base64_encoding(bytes@),
        base64_standard_decode(vstd::utf8::encode_utf8(r@)) == Some(bytes@),
{
    base64_encode(bytes)
}

/// The bytes that standard base64 text decodes to; an invalid text gives the
/// decoder's error text.
pub fn decode_base64_bytes(input: &[u8]) -> (r: Result<Vec<u8>, String>)
    ensures
        match r {
            Ok(v) => base64_standard_decode(input@) == Some(v@) && is_base64_of(input@, v@),
            Err(_) => base64_standard_decode(input@) is None
                && forall|b: Seq<u8>| !#[trigger] is_base64_of(input@, b),
        },
{
    base64_decode(input)
}

/// Prefix of the error for an undecodable mask payload.
pub open spec fn decode_failed_prefix() -> Seq<char> {
    "base64 decode failed: "@
}

/// Decodes the base64 text of a saved mask into the image file's bytes; an
/// invalid text gives an error that starts with `base64 decode failed: `.
pub fn decode_mask_payload(mask_base64: &str) -> (r: Result<Vec<u8>, String>)
    ensures
        match r {
            Ok(v) => base64_standard_decode(vstd::utf8::encode_utf8(mask_base64@)) == Some(v@)
                && is_base64_of(vstd::utf8::encode_utf8(mask_base64@), v@),
            Err(m) => base64_standard_decode(vstd::utf8::encode_utf8(mask_base64@)) is None
                && (forall|b: Seq<u8>| !#[trigger] is_base64_of(vstd::utf8::encode_utf8(mask_base64@), b))
                && m@.len() >= decode_failed_prefix().len()
                && m@.subrange(0, decode_failed_prefix().len() as int) == decode_failed_prefix(),
        },
{
    match base64_decode(mask_base64.as_bytes()) {
        Ok(v) => Ok(v),
        Err(e) => {
            let mut m = String::from_str("base64 decode failed: ");
            m.append(e.as_str());
            proof {
                reveal_strlit("base64 decode failed: ");
                assert(m@.subrange(0, decode_failed_prefix().len() as int) =~= decode_failed_prefix());
            }
            Err(m)
        },
    }
}

/// ASCII letters turned to lower case; other characters kept.
pub open spec fn ascii_lower(s: Seq<char>) -> Seq<char> {
    Seq::new(s.len(), |i: int| if 'A' <= s[i] <= 'Z' { ((s[i] as int) + 32) as char } else { s[i] })
}

/// The media type for a file extension (compared without regard to case):
/// JPEG for `jpg`/`jpeg`, WebP, BMP, and PNG for anything else or no
/// extension.
pub open spec fn mime_for_extension(ext: Option<Seq<char>>) -> Seq<char> {
    match ext {
        None => "image/png"@,
        Some(e) => {
            let l = ascii_lower(e);
            if l == "jpg"@ || l == "jpeg"@ {
                "image/jpeg"@
            } else if l == "webp"@ {
                "image/webp"@
            } else if l == "bmp"@ {
                "image/bmp"@
            } else {
                "image/png"@
            }
        },
    }
}

fn ascii_lower_eq(s: &str, lower: &str) -> (r: bool)
    requires
        forall|i: int| 0 <= i < lower@.len() ==> 'a' <= #[trigger] lower@[i] <= 'z',
    ensures
        r == (ascii_lower(s@) == lower@),
{
    let n = s.unicode_len();
    let m = lower.unicode_len();
    if n != m {
        return false;
    }
    let mut i: usize = 0;
    while i < n
        invariant
            n == s@.len(),
            m == lower@.len(),
            n == m,
            i <= n,
            forall|j: int| 0 <= j < i ==> ascii_lower(s@)[j] == lower@[j],
        decreases n - i,
    {
        let c = s.get_char(i);
        let lc = if 'A' <= c && c <= 'Z' { ((c as u32) + 32) } else { c as u32 };
        let want = lower.get_char(i);
        if lc != want as u32 {
            proof {
                assert(ascii_lower(s@)[i as int] != lower@[i as int]);
            }
            return false;
        }
        i = i + 1;
    }
    assert(ascii_lower(s@) =~= lower@);
    true
}

/// The media type of an image file from its extension (see `mime_for_extension`).
/// Comparing ASCII-lowered text is what comparing Unicode-lowered text gives
/// here, since no non-ASCII character lowers to a letter of these names.
pub fn mime_type(ext: Option<&str>) -> (r: &'static str)
    ensures
        r@ == mime_for_extension(match ext { Some(e) => Some(e@), None => None }),
{
    proof {
        reveal_strlit("jpg");
        reveal_strlit("jpeg");
        reveal_strlit("webp");
        reveal_strlit("bmp");
    }
    match ext {
        None => "image/png",
        Some(e) => {
            if ascii_lower_eq(e, "jpg") || ascii_lower_eq(e, "jpeg") {
                "image/jpeg"
            } else if ascii_lower_eq(e, "webp") {
                "image/webp"
            } else if ascii_lower_eq(e, "bmp") {
                "image/bmp"
            } else {
                "image/png"
            }
        },
    }
}

/// The data URL under which the interface shows an image file: its media
/// type from the extension and its bytes in base64.
pub fn image_data_url(ext: Option<&str>, bytes: &[u8]) -> (r: String)
    ensures
        r@ == "data:"@ + mime_for_extension(match ext { Some(e) => Some(e@), None => None })
            + ";base64,"@ + base64_encoding(bytes@),
{
    let mut s = String::from_str("data:");
    s.append(mime_type(ext));
    s.append(";base64,");
    let b64 = base64_encode(bytes);
    s.append(b64.as_str());
    s
}

} // verus!
