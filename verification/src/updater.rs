//! Self-update decisions: version comparison, manifest validation, digest checks, and the
//! list of files to download.
use vstd::prelude::*;

use sha2::Digest;

use crate::urls::{parse_url, parsed_url, url_error, UrlView};

use crate::text::{
    all_digits, append_chars, append_str, char_is_ascii_hex, chars_of, contains_text,
    contains_chars, contains_char, eq_chars, eq_str, is_ascii_hex, lower, lower_chars,
    parse_u32_chars, parse_u32_spec, string_from, string_of, trim, trim_chars, u64_decimal, decimal,
    trim_start, trim_end, is_ascii_digit, unsigned_body,
};

verus! {

pub struct ManifestFile {
    pub name: String,
    pub sha256: String,
    pub size: u64,
    pub url: String,
}

pub struct UpdateManifest {
    pub schema: u32,
    pub version: String,
    pub notes: String,
    pub files: Vec<ManifestFile>,
}

#[derive(PartialEq, Eq, Structural, Clone, Copy)]
pub enum UpdatePhase {
    Idle,
    Checking,
    Downloading,
    Ready,
    Error,
}

pub struct UpdateProgress {
    pub phase: UpdatePhase,
    pub file: Option<String>,
    pub downloaded: u64,
    pub total: u64,
    pub bytes_downloaded: u64,
    pub bytes_total: u64,
}

pub struct UpdateStatus {
    pub current_version: Option<String>,
    pub latest_version: Option<String>,
    pub notes: String,
    pub available: bool,
    pub pending_apply: bool,
    pub downloading: bool,
    pub updates_supported: bool,
    pub download_bytes: u64,
    pub files_to_download: Vec<String>,
    pub last_error: Option<String>,
    pub progress: UpdateProgress,
}

// ---------------------------------------------------------------------------------------------
// Outside calls
// ---------------------------------------------------------------------------------------------

/// The lowercase hex SHA-256 digest of `data` (as `sha2` computes it).
pub uninterp spec fn sha256_hex_text(data: Seq<u8>) -> Seq<char>;

/// Calls `sha2::Sha256::digest` and formats the 32-byte digest with `{:x}`. The contract names
/// the digest and states what the formatting of `generic_array` gives: two lowercase hex
/// digits per byte.
#[verifier::external_body]
fn sha256_hex(data: &[u8]) -> (r: String)
    ensures
        r@ == sha256_hex_text(data@),
        r@.len() == 64,
        forall|i: int| 0 <= i < 64 ==> is_lower_hex(#[trigger] r@[i]),
{
    format!("{:x}", sha2::Sha256::digest(data))
}

// ---------------------------------------------------------------------------------------------
// File names and digests
// ---------------------------------------------------------------------------------------------

/// The files an update may replace.
pub open spec fn allowed_files() -> Seq<Seq<char>> {
    seq![
        "anime-player.exe"@,
        "libmpv-2.dll"@,
        "ffmpeg.exe"@,
        "ffprobe.exe"@,
        "fpcalc.exe"@,
        "update.bat"@,
        "_update.ps1"@,
    ]
}

/// A file name an update may write: one of the known files, with no separator or `..`.
pub open spec fn is_allowed_file(name: Seq<char>) -> bool {
    allowed_files().contains(name) && !name.contains('/') && !name.contains('\\')
        && !contains_text(name, ".."@)
}

pub fn allowed_file_name(name: &str) -> (r: bool)
    ensures
        r == is_allowed_file(name@),
{
    let n = chars_of(name);
    let listed = eq_str(&n, "anime-player.exe") || eq_str(&n, "libmpv-2.dll") || eq_str(
        &n,
        "ffmpeg.exe",
    ) || eq_str(&n, "ffprobe.exe") || eq_str(&n, "fpcalc.exe") || eq_str(&n, "update.bat")
        || eq_str(&n, "_update.ps1");
    proof {
        let l = allowed_files();
        if listed {
            if n@ == "anime-player.exe"@ {
                assert(l[0] == n@);
            } else if n@ == "libmpv-2.dll"@ {
                assert(l[1] == n@);
            } else if n@ == "ffmpeg.exe"@ {
                assert(l[2] == n@);
            } else if n@ == "ffprobe.exe"@ {
                assert(l[3] == n@);
            } else if n@ == "fpcalc.exe"@ {
                assert(l[4] == n@);
            } else if n@ == "update.bat"@ {
                assert(l[5] == n@);
            } else {
                assert(l[6] == n@);
            }
        } else {
            assert forall|i: int| 0 <= i < l.len() implies l[i] != n@ by {
            }
        }
    }
    let dots = chars_of("..");
    listed && !contains_char(&n, '/') && !contains_char(&n, '\\') && !contains_chars(&n, &dots)
}

/// A lowercase hex digit.
pub open spec fn is_lower_hex(c: char) -> bool {
    ('0' <= c && c <= '9') || ('a' <= c && c <= 'f')
}

/// The message for a malformed digest.
pub open spec fn bad_hash_message() -> Seq<char> {
    "manifest file hash is not a SHA256 hex digest"@
}

/// A digest in canonical form: trimmed, ASCII lower-cased; valid when it is 64 hex digits.
pub open spec fn normalized_sha256(value: Seq<char>) -> Option<Seq<char>> {
    let h = lower(trim(value));
    if h.len() == 64 && forall|i: int| 0 <= i < h.len() ==> is_ascii_hex(#[trigger] h[i]) {
        Some(h)
    } else {
        None
    }
}

/// A digest is valid exactly when its trimmed text is 64 hex digits, and a normalized digest
/// normalizes to itself.
pub proof fn lemma_sha256_normal_form(value: Seq<char>)
    ensures
        normalized_sha256(value) is Some <==> (trim(value).len() == 64 && forall|i: int|
            0 <= i < trim(value).len() ==> is_ascii_hex(#[trigger] trim(value)[i])),
        normalized_sha256(value) matches Some(h) ==> normalized_sha256(h) == Some(h),
{
    let t = trim(value);
    let h = lower(t);
    assert forall|i: int| 0 <= i < t.len() implies is_ascii_hex(#[trigger] h[i]) == is_ascii_hex(
        t[i],
    ) by {
        crate::text::lemma_ascii_lower_char(t[i]);
    }
    if h.len() == 64 && forall|i: int| 0 <= i < h.len() ==> is_ascii_hex(#[trigger] h[i]) {
        assert forall|i: int| 0 <= i < t.len() implies is_ascii_hex(#[trigger] t[i]) by {
            assert(is_ascii_hex(h[i]));
        }
    }
    if t.len() == 64 && forall|i: int| 0 <= i < t.len() ==> is_ascii_hex(#[trigger] t[i]) {
        assert forall|i: int| 0 <= i < h.len() implies is_ascii_hex(#[trigger] h[i]) by {
            assert(is_ascii_hex(t[i]));
        }
    }
    crate::text::lemma_lower_trim_stable(value);
}

fn normalize_sha256_chars(value: &Vec<char>) -> (r: Option<Vec<char>>)
    ensures
        match normalized_sha256(value@) {
            Some(h) => r matches Some(v) && v@ == h,
            None => r is None,
        },
{
    let h = lower_chars(&trim_chars(value));
    if h.len() != 64 {
        return None;
    }
    let mut i: usize = 0;
    while i < h.len()
        invariant
            i <= h.len(),
            h.len() == 64,
            h@ == lower(trim(value@)),
            forall|j: int| 0 <= j < i ==> is_ascii_hex(#[trigger] h@[j]),
        decreases h.len() - i,
    {
        if !char_is_ascii_hex(h[i]) {
            return None;
        }
        i = i + 1;
    }
    Some(h)
}

/// Validates and normalizes a manifest digest.
pub fn normalize_sha256(value: &str) -> (r: Result<String, String>)
    ensures
        match normalized_sha256(value@) {
            Some(h) => r matches Ok(s) && s@ == h,
            None => r matches Err(e) && e@ == bad_hash_message(),
        },
{
    let v = chars_of(value);
    match normalize_sha256_chars(&v) {
        Some(h) => Ok(string_of(&h)),
        None => Err(string_of(&chars_of("manifest file hash is not a SHA256 hex digest"))),
    }
}

/// Whether an installed file must be downloaded: it is missing, or its digest differs from the
/// manifest's. `current` holds the installed file's bytes (`None` when there is no such file).
pub fn local_file_needs_update(current: Option<&[u8]>, file: &ManifestFile) -> (r: Result<
    bool,
    String,
>)
    ensures
        match current {
            None => r == Ok::<bool, String>(true),
            Some(bytes) => match normalized_sha256(file.sha256@) {
                Some(h) => r == Ok::<bool, String>(sha256_hex_text(bytes@) != h),
                None => r matches Err(e) && e@ == bad_hash_message(),
            },
        },
{
    match current {
        None => Ok(true),
        Some(bytes) => {
            let actual = sha256_hex(bytes);
            digest_needs_update(actual.as_str(), file)
        },
    }
}

/// Whether an installed file whose digest is `actual_hex` must be downloaded: its digest
/// differs from the manifest's; an error when the manifest's digest is malformed.
pub fn digest_needs_update(actual_hex: &str, file: &ManifestFile) -> (r: Result<bool, String>)
    ensures
        match normalized_sha256(file.sha256@) {
            Some(h) => r == Ok::<bool, String>(actual_hex@ != h),
            None => r matches Err(e) && e@ == bad_hash_message(),
        },
{
    let expected = normalize_sha256(file.sha256.as_str())?;
    let a = chars_of(actual_hex);
    let e = chars_of(expected.as_str());
    Ok(!eq_chars(&a, &e))
}

/// The manifest files that need downloading, and their total size (saturating), given the
/// installed bytes of each manifest file in order.
pub fn files_to_download(current: &Vec<Option<Vec<u8>>>, manifest: &UpdateManifest) -> (r: Result<
    (Vec<usize>, u64),
    String,
>)
    requires
        current@.len() == manifest.files@.len(),
    ensures
        r matches Ok(out) ==> {
            &&& forall|k: int|
                0 <= k < out.0@.len() ==> #[trigger] out.0@[k] < manifest.files@.len()
            &&& forall|k: int, l: int| 0 <= k < l < out.0@.len() ==> out.0@[k] < out.0@[l]
            &&& forall|i: int|
                0 <= i < manifest.files@.len() ==> (out.0@.contains(i as usize) <==> file_stale(
                    current@[i],
                    manifest.files@[i],
                ))
        },
        r matches Ok(out) ==> out.1 == stale_bytes(
            current@,
            manifest.files@,
            manifest.files@.len() as int,
        ),
        r is Ok <==> forall|i: int|
            0 <= i < manifest.files@.len() && current@[i] is Some ==> normalized_sha256(
                #[trigger] manifest.files@[i].sha256@,
            ) is Some,
        r matches Err(e) ==> e@ == bad_hash_message(),
{
    let mut out: Vec<usize> = Vec::new();
    let mut bytes: u64 = 0;
    let mut i: usize = 0;
    while i < manifest.files.len()
        invariant
            current@.len() == manifest.files@.len(),
            i <= manifest.files.len(),
            forall|k: int| 0 <= k < out@.len() ==> #[trigger] out@[k] < i,
            forall|k: int, l: int| 0 <= k < l < out@.len() ==> out@[k] < out@[l],
            forall|j: int|
                0 <= j < i ==> (out@.contains(j as usize) <==> file_stale(
                    current@[j],
                    manifest.files@[j],
                )),
            forall|j: int|
                0 <= j < i && current@[j] is Some ==> normalized_sha256(
                    #[trigger] manifest.files@[j].sha256@,
                ) is Some,
            bytes == stale_bytes(current@, manifest.files@, i as int),
        decreases manifest.files.len() - i,
    {
        let needs = match &current[i] {
            Some(b) => local_file_needs_update(Some(b.as_slice()), &manifest.files[i]),
            None => local_file_needs_update(None, &manifest.files[i]),
        };
        match needs {
            Ok(true) => {
                let size = manifest.files[i].size;
                bytes = if bytes > u64::MAX - size {
                    u64::MAX
                } else {
                    bytes + size
                };
                let ghost before = out@;
                out.push(i);
                assert forall|j: int| 0 <= j <= i implies (out@.contains(j as usize) <==> file_stale(
                    current@[j],
                    manifest.files@[j],
                )) by {
                    if j < i {
                        if before.contains(j as usize) {
                            let k = choose|k: int| 0 <= k < before.len() && before[k] == j as usize;
                            assert(out@[k] == j as usize);
                        }
                        if out@.contains(j as usize) {
                            let k = choose|k: int| 0 <= k < out@.len() && out@[k] == j as usize;
                            if k == before.len() {
                                assert(out@[k] == i);
                            } else {
                                assert(before[k] == j as usize);
                            }
                        }
                    } else {
                        assert(out@[before.len() as int] == i);
                    }
                }
            },
            Ok(false) => {
                assert(!out@.contains(i));
            },
            Err(e) => {
                return Err(e);
            },
        }
        i = i + 1;
    }
    Ok((out, bytes))
}

/// `a + b`, saturating at `u64::MAX`.
pub open spec fn sat_add_u64(a: u64, b: u64) -> u64 {
    if a + b > u64::MAX {
        u64::MAX
    } else {
        (a + b) as u64
    }
}

/// The total size of the stale files among the first `n`, added with saturation in file order.
pub open spec fn stale_bytes(current: Seq<Option<Vec<u8>>>, files: Seq<ManifestFile>, n: int) -> u64
    decreases n,
{
    if n <= 0 {
        0
    } else {
        let before = stale_bytes(current, files, n - 1);
        if file_stale(current[n - 1], files[n - 1]) {
            sat_add_u64(before, files[n - 1].size)
        } else {
            before
        }
    }
}

/// An installed file is stale: missing, or its digest differs from the manifest's (valid) one.
pub open spec fn file_stale(current: Option<Vec<u8>>, file: ManifestFile) -> bool {
    match current {
        None => true,
        Some(bytes) => match normalized_sha256(file.sha256@) {
            Some(h) => sha256_hex_text(bytes@) != h,
            None => false,
        },
    }
}

// ---------------------------------------------------------------------------------------------
// Versions
// ---------------------------------------------------------------------------------------------

/// The text without its leading `c` characters (`trim_start_matches`).
pub open spec fn strip_leading(s: Seq<char>, c: char) -> Seq<char>
    decreases s.len(),
{
    if s.len() > 0 && s[0] == c {
        strip_leading(s.drop_first(), c)
    } else {
        s
    }
}

/// The pieces of `s` between occurrences of `c`, empty pieces included (`str::split`).
pub open spec fn split_on(s: Seq<char>, c: char) -> Seq<Seq<char>>
    decreases s.len(),
{
    if s.len() == 0 {
        seq![Seq::empty()]
    } else {
        let p = split_on(s.drop_last(), c);
        if s.last() == c {
            p.push(Seq::empty())
        } else {
            p.update(p.len() - 1, p.last().push(s.last()))
        }
    }
}

proof fn lemma_split_on_nonempty(s: Seq<char>, c: char)
    ensures
        split_on(s, c).len() >= 1,
    decreases s.len(),
{
    if s.len() > 0 {
        lemma_split_on_nonempty(s.drop_last(), c);
    }
}

/// `major.minor` of a release tag (`v1.2` → `(1, 2)`): trimmed, leading `v`s dropped, exactly
/// two dot-separated unsigned numbers.
pub open spec fn version_parts(tag: Seq<char>) -> Option<(u32, u32)> {
    let pieces = split_on(strip_leading(trim(tag), 'v'), '.');
    if pieces.len() == 2 && parse_u32_spec(pieces[0]) is Some && parse_u32_spec(pieces[1]) is Some {
        Some((parse_u32_spec(pieces[0]).unwrap(), parse_u32_spec(pieces[1]).unwrap()))
    } else {
        None
    }
}

fn split_on_chars(s: &Vec<char>, c: char) -> (r: Vec<Vec<char>>)
    ensures
        crate::text::vviews(r@) == split_on(s@, c),
{
    let mut done: Vec<Vec<char>> = Vec::new();
    let mut cur: Vec<char> = Vec::new();
    let mut i: usize = 0;
    while i < s.len()
        invariant
            i <= s.len(),
            split_on(s@.take(i as int), c) == crate::text::vviews(done@).push(cur@),
        decreases s.len() - i,
    {
        let ghost now = s@.take(i + 1);
        assert(now.drop_last() =~= s@.take(i as int));
        assert(now.last() == s@[i as int]);
        let ch = s[i];
        if ch == c {
            let ghost before = crate::text::vviews(done@);
            let ghost cv = cur@;
            done.push(cur);
            cur = Vec::new();
            assert(crate::text::vviews(done@) =~= before.push(cv));
            assert(crate::text::vviews(done@).push(cur@) =~= before.push(cv).push(Seq::empty()));
        } else {
            let ghost before = crate::text::vviews(done@);
            let ghost old_cur = cur@;
            cur.push(ch);
            let ghost p = split_on(s@.take(i as int), c);
            assert(p =~= before.push(old_cur));
            assert(p.update(p.len() - 1, p.last().push(ch)) =~= before.push(cur@));
        }
        i = i + 1;
    }
    assert(s@.take(s.len() as int) =~= s@);
    let ghost before = crate::text::vviews(done@);
    let ghost cv = cur@;
    done.push(cur);
    assert(crate::text::vviews(done@) =~= before.push(cv));
    done
}

fn parse_version_chars(tag: &Vec<char>) -> (r: Option<(u32, u32)>)
    ensures
        r == version_parts(tag@),
{
    let t = trim_chars(tag);
    let mut k: usize = 0;
    assert(t@.skip(0) =~= t@);
    while k < t.len() && t[k] == 'v'
        invariant
            k <= t.len(),
            strip_leading(t@, 'v') == strip_leading(t@.skip(k as int), 'v'),
        decreases t.len() - k,
    {
        assert(t@.skip(k as int).drop_first() =~= t@.skip(k + 1));
        k = k + 1;
    }
    let body = crate::text::slice_chars(&t, k, t.len());
    assert(body@ =~= t@.skip(k as int));
    let pieces = split_on_chars(&body, '.');
    if pieces.len() != 2 {
        return None;
    }
    let major = parse_u32_chars(&pieces[0]);
    let minor = parse_u32_chars(&pieces[1]);
    match (major, minor) {
        (Some(a), Some(b)) => Some((a, b)),
        _ => None,
    }
}

/// `major.minor` of a release tag.
pub fn parse_version_parts(tag: &str) -> (r: Option<(u32, u32)>)
    ensures
        r == version_parts(tag@),
{
    let v = chars_of(tag);
    parse_version_chars(&v)
}

/// Version pairs in release order.
pub open spec fn version_gt(a: (u32, u32), b: (u32, u32)) -> bool {
    a.0 > b.0 || (a.0 == b.0 && a.1 > b.1)
}

/// The remote release is newer than the installed one: always when nothing is installed, never
/// when the tags are equal, by `major.minor` when both tags parse, otherwise whenever they
/// differ.
pub open spec fn remote_newer(remote: Seq<char>, local: Option<Seq<char>>) -> bool {
    match local {
        None => true,
        Some(l) => if l == remote {
            false
        } else {
            match (version_parts(remote), version_parts(l)) {
                (Some(r), Some(lp)) => version_gt(r, lp),
                _ => remote != l,
            }
        },
    }
}

pub fn remote_is_newer(remote: &str, local: Option<&str>) -> (r: bool)
    ensures
        r == remote_newer(remote@, local.deep_view()),
{
    let rv = chars_of(remote);
    match local {
        None => true,
        Some(l) => {
            let lv = chars_of(l);
            if eq_chars(&lv, &rv) {
                return false;
            }
            match (parse_version_chars(&rv), parse_version_chars(&lv)) {
                (Some(rp), Some(lp)) => rp.0 > lp.0 || (rp.0 == lp.0 && rp.1 > lp.1),
                _ => true,
            }
        },
    }
}

/// A release is never newer than itself, and of two parseable releases at most one is newer
/// than the other.
pub proof fn lemma_remote_newer_is_strict(a: Seq<char>, b: Seq<char>)
    ensures
        !remote_newer(a, Some(a)),
        version_parts(a) is Some && version_parts(b) is Some ==> !(remote_newer(a, Some(b))
            && remote_newer(b, Some(a))),
{
}

/// The tag of a release: `v{major}.{minor}`.
pub open spec fn release_tag(major: u32, minor: u32) -> Seq<char> {
    seq!['v'] + decimal(major as nat) + seq!['.'] + decimal(minor as nat)
}

proof fn lemma_split_on_plain(x: Seq<char>, c: char)
    requires
        forall|i: int| 0 <= i < x.len() ==> x[i] != c,
    ensures
        split_on(x, c) == seq![x],
    decreases x.len(),
{
    if x.len() > 0 {
        lemma_split_on_plain(x.drop_last(), c);
        assert(x.drop_last().push(x.last()) =~= x);
        assert(seq![x.drop_last()].update(0, x.drop_last().push(x.last())) =~= seq![x]);
    } else {
        assert(x =~= Seq::<char>::empty());
    }
}

proof fn lemma_split_on_once(x: Seq<char>, y: Seq<char>, c: char)
    requires
        forall|i: int| 0 <= i < x.len() ==> x[i] != c,
        forall|i: int| 0 <= i < y.len() ==> y[i] != c,
    ensures
        split_on(x.push(c) + y, c) == seq![x, y],
    decreases y.len(),
{
    let s = x.push(c) + y;
    if y.len() == 0 {
        assert(s =~= x.push(c));
        assert(s.drop_last() =~= x);
        lemma_split_on_plain(x, c);
        assert(y =~= Seq::<char>::empty());
        assert(seq![x].push(Seq::<char>::empty()) =~= seq![x, y]);
    } else {
        let yd = y.drop_last();
        lemma_split_on_once(x, yd, c);
        assert(s.drop_last() =~= x.push(c) + yd);
        assert(s.last() == y.last());
        assert(yd.push(y.last()) =~= y);
        assert(seq![x, yd].update(1, yd.push(y.last())) =~= seq![x, y]);
    }
}

proof fn lemma_parse_decimal(n: u32)
    ensures
        parse_u32_spec(decimal(n as nat)) == Some(n),
{
    crate::text::lemma_digits_value_decimal(n as nat);
    assert(unsigned_body(decimal(n as nat)) == decimal(n as nat));
}

/// A tag written as `v{major}.{minor}` reads back as its two numbers.
pub proof fn lemma_release_tag_parts(major: u32, minor: u32)
    ensures
        version_parts(release_tag(major, minor)) == Some((major, minor)),
{
    let d1 = decimal(major as nat);
    let d2 = decimal(minor as nat);
    let t = release_tag(major, minor);
    crate::text::lemma_digits_value_decimal(major as nat);
    crate::text::lemma_digits_value_decimal(minor as nat);
    assert(t[0] == 'v');
    assert(t.last() == d2.last());
    assert(is_ascii_digit(d2[d2.len() - 1]));
    assert(trim_start(t) == t);
    assert(trim_end(t) == t);
    assert(t.drop_first() =~= d1.push('.') + d2);
    assert(strip_leading(t, 'v') == t.drop_first()) by {
        assert(t.drop_first()[0] == d1[0]);
        assert(is_ascii_digit(d1[0]));
        assert(strip_leading(t.drop_first(), 'v') == t.drop_first());
    }
    assert forall|i: int| 0 <= i < d1.len() implies d1[i] != '.' by {
        assert(is_ascii_digit(d1[i]));
    }
    assert forall|i: int| 0 <= i < d2.len() implies d2[i] != '.' by {
        assert(is_ascii_digit(d2[i]));
    }
    lemma_split_on_once(d1, d2, '.');
    lemma_parse_decimal(major);
    lemma_parse_decimal(minor);
}

/// Of two releases tagged `v{a}.{b}` and `v{c}.{d}`, the remote one is newer exactly when
/// `a > c`, or `a == c` and `b > d`.
pub proof fn lemma_release_tags_newer(a: u32, b: u32, c: u32, d: u32)
    ensures
        remote_newer(release_tag(a, b), Some(release_tag(c, d))) == (a > c || (a == c && b > d)),
{
    lemma_release_tag_parts(a, b);
    lemma_release_tag_parts(c, d);
    lemma_remote_newer_major_first(release_tag(a, b), release_tag(c, d), (a, b), (c, d));
}

/// Between two releases whose tags both read as `major.minor`, the remote is newer exactly when
/// its major number is higher, or the majors are equal and its minor number is higher: a higher
/// major wins whatever the minors are.
pub proof fn lemma_remote_newer_major_first(
    remote: Seq<char>,
    local: Seq<char>,
    rp: (u32, u32),
    lp: (u32, u32),
)
    requires
        version_parts(remote) == Some(rp),
        version_parts(local) == Some(lp),
    ensures
        remote_newer(remote, Some(local)) == (rp.0 > lp.0 || (rp.0 == lp.0 && rp.1 > lp.1)),
{
}

// ---------------------------------------------------------------------------------------------
// Manifest validation
// ---------------------------------------------------------------------------------------------

/// What is wrong with a manifest, checked in order: schema, version, file list, then each file
/// in turn (name, digest, URL, scheme).
pub enum ManifestProblem {
    Schema,
    MissingVersion,
    NoFiles,
    DisallowedFile(usize),
    BadHash(usize),
    BadUrl(usize),
    NotHttps(usize),
}

/// The problem of file `i`, if any.
pub open spec fn file_problem(f: ManifestFile, i: usize) -> Option<ManifestProblem> {
    if !is_allowed_file(f.name@) {
        Some(ManifestProblem::DisallowedFile(i))
    } else if normalized_sha256(f.sha256@) is None {
        Some(ManifestProblem::BadHash(i))
    } else if parsed_url(f.url@) is Err {
        Some(ManifestProblem::BadUrl(i))
    } else if !(parsed_url(f.url@) matches Ok(parts) && parts.0 == "https"@) {
        Some(ManifestProblem::NotHttps(i))
    } else {
        None
    }
}

/// The first problem among files `0..n`.
pub open spec fn first_file_problem(files: Seq<ManifestFile>, n: int) -> Option<ManifestProblem>
    decreases n,
{
    if n <= 0 {
        None
    } else {
        match first_file_problem(files, n - 1) {
            Some(p) => Some(p),
            None => file_problem(files[n - 1], (n - 1) as usize),
        }
    }
}

proof fn lemma_first_problem_stable(files: Seq<ManifestFile>, k: int, n: int)
    requires
        0 <= k <= n <= files.len(),
        first_file_problem(files, k) is Some,
    ensures
        first_file_problem(files, n) == first_file_problem(files, k),
    decreases n - k,
{
    if n > k {
        lemma_first_problem_stable(files, k, n - 1);
    }
}

/// The first problem of a manifest, `None` when it is valid.
pub open spec fn manifest_problem(m: UpdateManifest) -> Option<ManifestProblem> {
    if m.schema != 1 {
        Some(ManifestProblem::Schema)
    } else if trim(m.version@).len() == 0 {
        Some(ManifestProblem::MissingVersion)
    } else if m.files@.len() == 0 {
        Some(ManifestProblem::NoFiles)
    } else {
        first_file_problem(m.files@, m.files@.len() as int)
    }
}

/// The message reported for a problem.
pub open spec fn problem_message(m: UpdateManifest, p: ManifestProblem) -> Seq<char> {
    match p {
        ManifestProblem::Schema => "unsupported updater manifest schema "@ + decimal(
            m.schema as nat,
        ),
        ManifestProblem::MissingVersion => "manifest is missing a version"@,
        ManifestProblem::NoFiles => "manifest does not list any files"@,
        ManifestProblem::DisallowedFile(i) => "manifest lists a disallowed file: "@
            + m.files@[i as int].name@,
        ManifestProblem::BadHash(i) => bad_hash_message(),
        ManifestProblem::BadUrl(i) => "invalid file url for "@ + m.files@[i as int].name@ + ": "@
            + url_error(m.files@[i as int].url@),
        ManifestProblem::NotHttps(i) => "file url for "@ + m.files@[i as int].name@
            + " must be https"@,
    }
}

fn message_with_name(prefix: &str, name: &String, suffix: &str) -> (r: Vec<char>)
    ensures
        r@ == prefix@ + name@ + suffix@,
{
    let mut v = chars_of(prefix);
    append_str(&mut v, name.as_str());
    append_str(&mut v, suffix);
    v
}

/// Checks the parsed URL of a manifest file: the parser's error after `invalid file url for
/// {name}: `, or an error when the scheme is not `https`.
pub fn check_file_url(name: &String, parsed: &Result<UrlView, String>) -> (r: Result<(), String>)
    ensures
        match parsed {
            Err(pe) => r matches Err(e) && e@ == "invalid file url for "@ + name@ + ": "@ + pe@,
            Ok(u) => if u.scheme@ == "https"@ {
                r is Ok
            } else {
                r matches Err(e) && e@ == "file url for "@ + name@ + " must be https"@
            },
        },
{
    match parsed {
        Err(e) => {
            let mut v = message_with_name("invalid file url for ", name, ": ");
            append_str(&mut v, e.as_str());
            Err(string_of(&v))
        },
        Ok(u) => {
            let s = chars_of(u.scheme.as_str());
            if !eq_str(&s, "https") {
                Err(string_of(&message_with_name("file url for ", name, " must be https")))
            } else {
                Ok(())
            }
        },
    }
}

/// Checks an update manifest before anything is downloaded.
pub fn validate_manifest(manifest: &UpdateManifest) -> (r: Result<(), String>)
    ensures
        match manifest_problem(*manifest) {
            None => r is Ok,
            Some(p) => r matches Err(e) && e@ == problem_message(*manifest, p),
        },
{
    if manifest.schema != 1 {
        let mut v = chars_of("unsupported updater manifest schema ");
        let d = u64_decimal(manifest.schema as u64);
        append_chars(&mut v, &d);
        return Err(string_of(&v));
    }
    let version = trim_chars(&chars_of(manifest.version.as_str()));
    if version.len() == 0 {
        return Err(string_of(&chars_of("manifest is missing a version")));
    }
    if manifest.files.len() == 0 {
        return Err(string_of(&chars_of("manifest does not list any files")));
    }
    let mut i: usize = 0;
    while i < manifest.files.len()
        invariant
            i <= manifest.files.len(),
            manifest.schema == 1,
            trim(manifest.version@).len() > 0,
            manifest.files@.len() > 0,
            first_file_problem(manifest.files@, i as int) is None,
        decreases manifest.files.len() - i,
    {
        let file = &manifest.files[i];
        proof {
            if file_problem(manifest.files@[i as int], i) is Some {
                assert(first_file_problem(manifest.files@, i + 1) == file_problem(
                    manifest.files@[i as int],
                    i,
                ));
                lemma_first_problem_stable(
                    manifest.files@,
                    i + 1,
                    manifest.files@.len() as int,
                );
            }
        }
        if !allowed_file_name(file.name.as_str()) {
            proof {
                reveal_strlit("");
                assert("manifest lists a disallowed file: "@ + file.name@ + ""@ =~= "manifest lists a disallowed file: "@ + file.name@);
            }
            return Err(
                string_of(&message_with_name("manifest lists a disallowed file: ", &file.name, "")),
            );
        }
        match normalize_sha256(file.sha256.as_str()) {
            Err(e) => {
                return Err(e);
            },
            Ok(_) => {},
        }
        let parsed = parse_url(file.url.as_str());
        check_file_url(&file.name, &parsed)?;
        i = i + 1;
    }
    Ok(())
}

/// Whether an update is available: the remote release is newer, or some file needs downloading.
pub fn update_available(
    remote_version: &str,
    current_version: Option<&str>,
    files_needed: usize,
) -> (r: bool)
    ensures
        r == (remote_newer(remote_version@, current_version.deep_view()) || files_needed > 0),
{
    remote_is_newer(remote_version, current_version) || files_needed > 0
}

/// The phase shown when the status is refreshed from a manifest: unchanged while downloading,
/// otherwise ready when an update waits to be applied, else idle.
pub fn refreshed_phase(downloading: bool, pending_apply: bool, current: UpdatePhase) -> (r:
    UpdatePhase)
    ensures
        r == (if downloading {
            current
        } else if pending_apply {
            UpdatePhase::Ready
        } else {
            UpdatePhase::Idle
        }),
{
    if downloading {
        current
    } else if pending_apply {
        UpdatePhase::Ready
    } else {
        UpdatePhase::Idle
    }
}

// ---------------------------------------------------------------------------------------------
// Installing
// ---------------------------------------------------------------------------------------------

/// The folder next to the executable where an update is staged.
pub const PENDING_DIR: &'static str = "_pending";

/// A version or error recorded in a text file: the trimmed text, nothing when it is blank.
pub fn recorded_text(text: &str) -> (r: Option<String>)
    ensures
        trim(text@).len() == 0 ==> r is None,
        trim(text@).len() > 0 ==> (r matches Some(s) && s@ == trim(text@)),
{
    let t = trim_chars(&chars_of(text));
    if t.len() == 0 {
        None
    } else {
        Some(string_of(&t))
    }
}

/// The name of the partial file a download is written to before it is checked: the name with
/// `.part` added after its extension, or `.download.part` when it has none.
pub fn partial_download_name(name: &str) -> (r: String)
    ensures
        r@ == (match crate::scanner::extension_text(name@) {
            Some(_) => name@ + ".part"@,
            None => name@ + ".download.part"@,
        }),
{
    let n = chars_of(name);
    let mut v = chars_of(name);
    match crate::scanner::extension_chars(&n) {
        Some(_) => append_str(&mut v, ".part"),
        None => append_str(&mut v, ".download.part"),
    }
    string_of(&v)
}

/// A downloaded file is kept only when its digest is the expected one.
pub fn check_download_digest(name: &str, expected: &str, actual: &str) -> (r: Result<(), String>)
    ensures
        expected@ == actual@ ==> r is Ok,
        expected@ != actual@ ==> (r matches Err(e) && e@ == "SHA256 mismatch for "@ + name@
            + ". Expected "@ + expected@ + " but got "@ + actual@ + "."@),
{
    let e = chars_of(expected);
    let a = chars_of(actual);
    if eq_chars(&e, &a) {
        return Ok(());
    }
    let mut v = chars_of("SHA256 mismatch for ");
    append_str(&mut v, name);
    append_str(&mut v, ". Expected ");
    append_str(&mut v, expected);
    append_str(&mut v, " but got ");
    append_str(&mut v, actual);
    append_str(&mut v, ".");
    Err(string_of(&v))
}

/// Each file named by a staged update plan must be one an update may write.
pub fn check_plan_file(name: &str) -> (r: Result<(), String>)
    ensures
        is_allowed_file(name@) ==> r is Ok,
        !is_allowed_file(name@) ==> (r matches Err(e) && e@
            == "pending update listed a disallowed file: "@ + name@),
{
    if allowed_file_name(name) {
        Ok(())
    } else {
        let mut v = chars_of("pending update listed a disallowed file: ");
        append_str(&mut v, name);
        Err(string_of(&v))
    }
}

/// The value after the first `--parent-pid` argument, read as a `u32`; nothing when the flag
/// is missing, last, or followed by something else.
pub open spec fn parent_pid_of(args: Seq<Seq<char>>) -> Option<u32>
    decreases args.len(),
{
    if args.len() == 0 {
        None
    } else if args[0] == "--parent-pid"@ {
        if args.len() >= 2 {
            parse_u32_spec(args[1])
        } else {
            None
        }
    } else {
        parent_pid_of(args.drop_first())
    }
}

/// The id of the process an update helper waits for, from its arguments.
pub fn parent_pid_from_args(args: &Vec<String>) -> (r: Option<u32>)
    ensures
        r == parent_pid_of(args@.map_values(|s: String| s@)),
{
    let ghost all = args@.map_values(|s: String| s@);
    assert(all.skip(0) =~= all);
    let mut i: usize = 0;
    while i < args.len()
        invariant
            i <= args@.len(),
            all == args@.map_values(|s: String| s@),
            parent_pid_of(all) == parent_pid_of(all.skip(i as int)),
        decreases args@.len() - i,
    {
        assert(all.skip(i as int)[0] == args@[i as int]@);
        assert(all.skip(i as int).drop_first() =~= all.skip(i + 1));
        if eq_str(&chars_of(args[i].as_str()), "--parent-pid") {
            if i + 1 < args.len() {
                assert(all.skip(i as int)[1] == args@[i + 1]@);
                return parse_u32_chars(&chars_of(args[i + 1].as_str()));
            }
            return None;
        }
        i = i + 1;
    }
    None
}

/// The install folder of an executable: its folder, or the folder above when it runs from the
/// staging folder.
pub open spec fn install_dir_of(exe: Seq<char>) -> Result<Seq<char>, Seq<char>> {
    match crate::paths::parent_text(exe) {
        None => Err("executable has no parent directory"@),
        Some(dir) => if crate::paths::file_name_text(dir) == Some(PENDING_DIR@) {
            match crate::paths::parent_text(dir) {
                Some(up) => Ok(up),
                None => Err("pending update folder has no install directory"@),
            }
        } else {
            Ok(dir)
        },
    }
}

pub fn install_dir_for_exe(exe: &str) -> (r: Result<String, String>)
    ensures
        match install_dir_of(exe@) {
            Ok(d) => r matches Ok(s) && s@ == d,
            Err(m) => r matches Err(e) && e@ == m,
        },
{
    let e = chars_of(exe);
    let dir = match crate::paths::parent_chars(&e) {
        Some(d) => d,
        None => {
            return Err(string_from("executable has no parent directory"));
        },
    };
    let pending = chars_of(PENDING_DIR);
    let in_pending = match crate::paths::file_name_chars(&dir) {
        Some(n) => eq_chars(&n, &pending),
        None => false,
    };
    if in_pending {
        match crate::paths::parent_chars(&dir) {
            Some(up) => Ok(string_of(&up)),
            None => Err(string_from("pending update folder has no install directory")),
        }
    } else {
        Ok(string_of(&dir))
    }
}

} // verus!
