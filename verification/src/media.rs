//! Keys of video files and cached previews, and `data:` URLs of cached images.
use vstd::prelude::*;

use base64::Engine;

use crate::scanner::{extension_chars, extension_text};
use crate::text::{
    append_str, chars_of, eq_str, lower, lower_chars, replace_char, replace_chars, string_of,
};

verus! {

pub const SCRUB_JOB_NAME: &'static str = "scrub_sprite";

/// The comparison key of a video path: `\` as `/`, ASCII lower-cased.
pub open spec fn video_path_key(path: Seq<char>) -> Seq<char> {
    lower(replace_char(path, '\\', '/'))
}

pub fn normalized_video_path_key(path: &str) -> (r: String)
    ensures
        r@ == video_path_key(path@),
{
    let p = chars_of(path);
    string_of(&lower_chars(&replace_chars(&p, '\\', '/')))
}

/// The key used to find the cached preview of a source path.
pub fn normalize_path_for_match(path: &str) -> (r: String)
    ensures
        r@ == video_path_key(path@),
{
    normalized_video_path_key(path)
}

/// The job identity of a scrub-preview sprite for a canonical video path:
/// `scrub_sprite:{path, ASCII lower-cased}`.
pub fn scrub_sprite_identity_for(canonical_path: &str) -> (r: String)
    ensures
        r@ == "scrub_sprite:"@ + lower(canonical_path@),
{
    let mut v = chars_of("scrub_sprite:");
    let low = lower_chars(&chars_of(canonical_path));
    crate::text::append_chars(&mut v, &low);
    string_of(&v)
}

/// The digit of a 6-bit value in the standard Base64 alphabet (`A`-`Z`, `a`-`z`, `0`-`9`, `+`,
/// `/`).
pub open spec fn base64_digit(v: int) -> char {
    if v < 26 {
        ('A' as int + v) as char
    } else if v < 52 {
        ('a' as int + (v - 26)) as char
    } else if v < 62 {
        ('0' as int + (v - 52)) as char
    } else if v == 62 {
        '+'
    } else {
        '/'
    }
}

/// The standard Base64 text of `data` (RFC 4648): every group of three bytes becomes four
/// digits, and a last group of one or two bytes is padded with `=` to four characters.
pub open spec fn base64_text(data: Seq<u8>) -> Seq<char>
    decreases data.len(),
{
    if data.len() == 0 {
        Seq::empty()
    } else if data.len() == 1 {
        let b0 = data[0] as int;
        seq![base64_digit(b0 / 4), base64_digit((b0 % 4) * 16), '=', '=']
    } else if data.len() == 2 {
        let b0 = data[0] as int;
        let b1 = data[1] as int;
        seq![
            base64_digit(b0 / 4),
            base64_digit((b0 % 4) * 16 + b1 / 16),
            base64_digit((b1 % 16) * 4),
            '=',
        ]
    } else {
        let b0 = data[0] as int;
        let b1 = data[1] as int;
        let b2 = data[2] as int;
        seq![
            base64_digit(b0 / 4),
            base64_digit((b0 % 4) * 16 + b1 / 16),
            base64_digit((b1 % 16) * 4 + b2 / 64),
            base64_digit(b2 % 64),
        ] + base64_text(data.subrange(3, data.len() as int))
    }
}

/// Four characters for every started group of three bytes.
pub proof fn lemma_base64_len(data: Seq<u8>)
    ensures
        base64_text(data).len() == (data.len() + 2) / 3 * 4,
    decreases data.len(),
{
    if data.len() >= 3 {
        lemma_base64_len(data.subrange(3, data.len() as int));
    }
}

/// Calls `base64::engine::general_purpose::STANDARD.encode`, which writes the standard, padded
/// Base64 text of the bytes (the length it computes beforehand must fit in `usize`).
#[verifier::external_body]
fn base64_standard(data: &[u8]) -> (r: String)
    requires
        (data@.len() + 2) / 3 * 4 <= usize::MAX,
    ensures
        r@ == base64_text(data@),
{
    base64::engine::general_purpose::STANDARD.encode(data)
}

/// The media type of a cached cover, by its extension (any ASCII case): PNG, WebP, else JPEG.
pub open spec fn cover_mime(path: Seq<char>) -> Seq<char> {
    match extension_text(path) {
        Some(e) => if lower(e) == "png"@ {
            "image/png"@
        } else if lower(e) == "webp"@ {
            "image/webp"@
        } else {
            "image/jpeg"@
        },
        None => "image/jpeg"@,
    }
}

pub fn cover_mime_type(path: &str) -> (r: &'static str)
    ensures
        r@ == cover_mime(path@),
{
    match extension_chars(&chars_of(path)) {
        Some(e) => {
            let low = lower_chars(&e);
            if eq_str(&low, "png") {
                "image/png"
            } else if eq_str(&low, "webp") {
                "image/webp"
            } else {
                "image/jpeg"
            }
        },
        None => "image/jpeg",
    }
}

/// A `data:` URL with the given media type and Base64 text.
pub fn data_url_from_encoded(mime: &str, encoded: &str) -> (r: String)
    ensures
        r@ == "data:"@ + mime@ + ";base64,"@ + encoded@,
{
    let mut v = chars_of("data:");
    append_str(&mut v, mime);
    append_str(&mut v, ";base64,");
    append_str(&mut v, encoded);
    string_of(&v)
}

/// A `data:` URL holding `data` in Base64 with the given media type.
pub fn data_url(mime: &str, data: &[u8]) -> (r: String)
    requires
        (data@.len() + 2) / 3 * 4 <= usize::MAX,
    ensures
        r@ == "data:"@ + mime@ + ";base64,"@ + base64_text(data@),
        r@.len() == 13 + mime@.len() + (data@.len() + 2) / 3 * 4,
{
    let encoded = base64_standard(data);
    proof {
        lemma_base64_len(data@);
        reveal_strlit("data:");
        reveal_strlit(";base64,");
    }
    data_url_from_encoded(mime, encoded.as_str())
}

/// How many of the per-path sprite removals freed anything.
pub open spec fn removed_count(bytes: Seq<u64>) -> nat
    decreases bytes.len(),
{
    if bytes.len() == 0 {
        0
    } else {
        removed_count(bytes.drop_last()) + if bytes.last() > 0 {
            1nat
        } else {
            0nat
        }
    }
}

/// The bytes freed by all per-path sprite removals.
pub open spec fn removed_bytes(bytes: Seq<u64>) -> nat
    decreases bytes.len(),
{
    if bytes.len() == 0 {
        0
    } else {
        removed_bytes(bytes.drop_last()) + bytes.last() as nat
    }
}

proof fn lemma_removed_bytes_prefix(bytes: Seq<u64>, i: int)
    requires
        0 <= i <= bytes.len(),
    ensures
        removed_bytes(bytes.take(i)) <= removed_bytes(bytes),
    decreases bytes.len(),
{
    if i < bytes.len() {
        assert(bytes.drop_last().take(i) =~= bytes.take(i));
        lemma_removed_bytes_prefix(bytes.drop_last(), i);
    } else {
        assert(bytes.take(i) =~= bytes);
    }
}

/// The totals of removing the cached sprites of several paths, from the bytes each removal
/// freed: how many paths freed anything, and the bytes freed in all.
pub fn tally_sprite_removals(bytes: &[u64]) -> (r: (usize, u64))
    requires
        removed_bytes(bytes@) <= u64::MAX,
    ensures
        r.0 == removed_count(bytes@),
        r.1 == removed_bytes(bytes@),
{
    let mut count: usize = 0;
    let mut total: u64 = 0;
    let mut i: usize = 0;
    while i < bytes.len()
        invariant
            i <= bytes.len(),
            removed_bytes(bytes@) <= u64::MAX,
            count == removed_count(bytes@.take(i as int)),
            count <= i,
            total == removed_bytes(bytes@.take(i as int)),
        decreases bytes.len() - i,
    {
        assert(bytes@.take(i + 1).drop_last() =~= bytes@.take(i as int));
        proof {
            lemma_removed_bytes_prefix(bytes@, i + 1);
        }
        if bytes[i] > 0 {
            count = count + 1;
            total = total + bytes[i];
        }
        i = i + 1;
    }
    assert(bytes@.take(bytes.len() as int) =~= bytes@);
    (count, total)
}

} // verus!
