//! Windows-style path text: components, file names, parents, prefixes, comparison keys.
//!
//! A path is its text (`Seq<char>`); `/` and `\` both separate components, and empty
//! components (repeated or trailing separators) and `.` past the start are ignored, as
//! `std::path` does on Windows; a leading separator gives a root component. A drive prefix
//! is an ordinary first component (`C:` in `C:\a`), so `C:\a` and `C:a` are not compared as
//! `Path` compares them.
use vstd::prelude::*;

use crate::text::{
    ascii_lower, chars_of, eq_chars, eq_str, is_ascii_alpha, lower, lower_chars, replace_char,
    replace_chars, sep_fn, slice_chars, split_words, string_of, vviews, words, Separator,
    char_is_ascii_alpha,
};

verus! {

/// `/` or `\`.
pub open spec fn is_path_sep(c: char) -> bool {
    c == '/' || c == '\\'
}

/// The non-empty texts between separators.
pub open spec fn path_words(p: Seq<char>) -> Seq<Seq<char>> {
    words(p, sep_fn(Separator::PathSep))
}

/// The words without their `.` entries, except a first one when `keep_first` holds.
pub open spec fn skip_dots(ws: Seq<Seq<char>>, keep_first: bool) -> Seq<Seq<char>>
    decreases ws.len(),
{
    if ws.len() == 0 {
        ws
    } else {
        let rest = skip_dots(ws.drop_last(), keep_first);
        if ws.last() == "."@ && !(keep_first && ws.len() == 1) {
            rest
        } else {
            rest.push(ws.last())
        }
    }
}

/// The component that stands for the root of a path that starts with a separator.
pub open spec fn root_component() -> Seq<char> {
    seq!['\\']
}

/// The path starts at a root: its first character is a separator.
pub open spec fn is_rooted(p: Seq<char>) -> bool {
    p.len() > 0 && is_path_sep(p[0])
}

/// The components of a path, as `Path` yields them: the root (as `\`) when the path starts
/// with a separator, then the non-empty texts between separators, where a `.` is kept only at
/// the very start of a path without a root.
pub open spec fn components(p: Seq<char>) -> Seq<Seq<char>> {
    if is_rooted(p) {
        seq![root_component()] + skip_dots(path_words(p), false)
    } else {
        skip_dots(path_words(p), p.len() > 0)
    }
}

/// A drive prefix such as `C:`.
pub open spec fn is_drive_prefix(s: Seq<char>) -> bool {
    s.len() == 2 && is_ascii_alpha(s[0]) && s[1] == ':'
}

/// The index of the last component that is not `.`, `-1` when there is none (`Path` skips a
/// `.` component anywhere but at the start, so it never names the file).
pub open spec fn last_named_index(cs: Seq<Seq<char>>) -> int
    decreases cs.len(),
{
    if cs.len() == 0 {
        -1
    } else if cs.last() == "."@ {
        last_named_index(cs.drop_last())
    } else {
        cs.len() - 1
    }
}

/// `Path::file_name`: the last component other than `.`, unless it is `..`, there is none, or
/// it is the root or a drive prefix at the start of the path.
pub open spec fn file_name_text(p: Seq<char>) -> Option<Seq<char>> {
    let cs = components(p);
    let k = last_named_index(cs);
    if k < 0 {
        None
    } else if cs[k] == ".."@ {
        None
    } else if k == 0 && (is_drive_prefix(cs[0]) || cs[0] == root_component()) {
        None
    } else {
        Some(cs[k])
    }
}

/// The text without its trailing separators.
pub open spec fn strip_trailing_seps(s: Seq<char>) -> Seq<char>
    decreases s.len(),
{
    if s.len() > 0 && is_path_sep(s.last()) {
        strip_trailing_seps(s.drop_last())
    } else {
        s
    }
}

/// The index of the last separator, `-1` when there is none.
pub open spec fn last_sep(s: Seq<char>) -> int
    decreases s.len(),
{
    if s.len() == 0 {
        -1
    } else if is_path_sep(s.last()) {
        s.len() - 1
    } else {
        last_sep(s.drop_last())
    }
}

/// `Path::parent`: the path without its last component; the root (`\` or `C:\`) keeps its
/// separator; `None` for a root or drive alone.
pub open spec fn parent_text(p: Seq<char>) -> Option<Seq<char>> {
    let q = strip_trailing_seps(p);
    let k = last_sep(q);
    if k < 0 {
        if q.len() == 0 || is_drive_prefix(q) {
            None
        } else {
            Some(Seq::empty())
        }
    } else {
        let head = strip_trailing_seps(q.take(k));
        if head.len() == 0 {
            Some(q.take(1))
        } else if is_drive_prefix(head) {
            Some(q.take(3))
        } else {
            Some(head)
        }
    }
}

/// `Path::starts_with`: the components of `base` are the first components of `p`.
pub open spec fn path_starts_with(p: Seq<char>, base: Seq<char>) -> bool {
    let pc = components(p);
    let bc = components(base);
    bc.len() <= pc.len() && pc.take(bc.len() as int) == bc
}

/// The comparison key of a Windows path: `/` as `\`, ASCII lower-cased.
pub open spec fn windows_key(p: Seq<char>) -> Seq<char> {
    lower(replace_char(p, '/', '\\'))
}

/// Bytes taken by a character in UTF-8.
pub open spec fn char_utf8_len(c: char) -> nat {
    if (c as u32) < 0x80 {
        1
    } else if (c as u32) < 0x800 {
        2
    } else if (c as u32) < 0x10000 {
        3
    } else {
        4
    }
}

/// Bytes taken by a text in UTF-8 (the length of its `OsStr` on Windows).
pub open spec fn utf8_len(s: Seq<char>) -> nat
    decreases s.len(),
{
    if s.len() == 0 {
        0
    } else {
        utf8_len(s.drop_last()) + char_utf8_len(s.last())
    }
}

/// Lexicographic order of texts by code point (the order of their UTF-8 bytes).
pub open spec fn text_lt(a: Seq<char>, b: Seq<char>) -> bool
    decreases a.len(),
{
    if a.len() == 0 {
        b.len() > 0
    } else if b.len() == 0 {
        false
    } else if a[0] < b[0] {
        true
    } else if a[0] == b[0] {
        text_lt(a.drop_first(), b.drop_first())
    } else {
        false
    }
}

/// `a` is shorter than `b`: fewer bytes, or as many and lexicographically smaller.
pub open spec fn shorter_path(a: Seq<char>, b: Seq<char>) -> bool {
    utf8_len(a) < utf8_len(b) || (utf8_len(a) == utf8_len(b) && text_lt(a, b))
}

// ---------------------------------------------------------------------------------------------
// Lemmas on the text order
// ---------------------------------------------------------------------------------------------

/// The text order is a strict total order.
pub proof fn lemma_text_lt_total(a: Seq<char>, b: Seq<char>)
    ensures
        text_lt(a, b) || text_lt(b, a) || a == b,
        !(text_lt(a, b) && text_lt(b, a)),
    decreases a.len(),
{
    if a.len() > 0 && b.len() > 0 {
        lemma_text_lt_total(a.drop_first(), b.drop_first());
        if a[0] == b[0] && a.drop_first() == b.drop_first() {
            assert(a =~= seq![a[0]] + a.drop_first());
            assert(b =~= seq![b[0]] + b.drop_first());
        }
    } else if a.len() == 0 && b.len() == 0 {
        assert(a =~= b);
    }
}

/// The text order is transitive.
pub proof fn lemma_text_lt_transitive(a: Seq<char>, b: Seq<char>, c: Seq<char>)
    requires
        text_lt(a, b),
        text_lt(b, c),
    ensures
        text_lt(a, c),
    decreases a.len(),
{
    if a.len() > 0 && b.len() > 0 && c.len() > 0 && a[0] == b[0] && b[0] == c[0] {
        lemma_text_lt_transitive(a.drop_first(), b.drop_first(), c.drop_first());
    }
}

/// Shorter-path is a strict total order on texts.
pub proof fn lemma_shorter_path_order(a: Seq<char>, b: Seq<char>, c: Seq<char>)
    ensures
        shorter_path(a, b) || shorter_path(b, a) || a == b,
        !(shorter_path(a, b) && shorter_path(b, a)),
        shorter_path(a, b) && shorter_path(b, c) ==> shorter_path(a, c),
{
    lemma_text_lt_total(a, b);
    if text_lt(a, b) && text_lt(b, c) {
        lemma_text_lt_transitive(a, b, c);
    }
}

// ---------------------------------------------------------------------------------------------
// Executable functions
// ---------------------------------------------------------------------------------------------

fn is_drive_prefix_exec(s: &Vec<char>) -> (r: bool)
    ensures
        r == is_drive_prefix(s@),
{
    s.len() == 2 && char_is_ascii_alpha(s[0]) && s[1] == ':'
}

/// The components of a path.
pub fn components_of(p: &Vec<char>) -> (r: Vec<Vec<char>>)
    ensures
        vviews(r@) == components(p@),
{
    let ws = split_words(p, Separator::PathSep);
    let rooted = p.len() > 0 && (p[0] == '/' || p[0] == '\\');
    let keep_first = p.len() > 0 && !rooted;
    let mut r: Vec<Vec<char>> = Vec::new();
    if rooted {
        let mut root: Vec<char> = Vec::new();
        root.push('\\');
        r.push(root);
    }
    let ghost head: Seq<Seq<char>> = if rooted {
        seq![root_component()]
    } else {
        Seq::empty()
    };
    assert(vviews(r@) =~= head + skip_dots(vviews(ws@).take(0), keep_first));
    let mut i: usize = 0;
    while i < ws.len()
        invariant
            i <= ws.len(),
            vviews(ws@) == path_words(p@),
            rooted == is_rooted(p@),
            keep_first == (p@.len() > 0 && !rooted),
            head == (if rooted {
                seq![root_component()]
            } else {
                Seq::<Seq<char>>::empty()
            }),
            vviews(r@) == head + skip_dots(vviews(ws@).take(i as int), keep_first),
        decreases ws.len() - i,
    {
        let ghost now = vviews(ws@).take(i + 1);
        assert(now.drop_last() =~= vviews(ws@).take(i as int));
        assert(now.last() == ws@[i as int]@);
        if !(eq_str(&ws[i], ".") && !(keep_first && i == 0)) {
            let ghost before = vviews(r@);
            let w = slice_chars(&ws[i], 0, ws[i].len());
            assert(w@ =~= ws@[i as int]@);
            r.push(w);
            assert(vviews(r@) =~= before.push(ws@[i as int]@));
            assert(vviews(r@) =~= head + skip_dots(vviews(ws@).take(i + 1), keep_first));
        } else {
            assert(vviews(r@) =~= head + skip_dots(vviews(ws@).take(i + 1), keep_first));
        }
        i = i + 1;
    }
    assert(vviews(ws@).take(ws.len() as int) =~= vviews(ws@));
    r
}

/// `Path::file_name`.
pub fn file_name_chars(p: &Vec<char>) -> (r: Option<Vec<char>>)
    ensures
        match file_name_text(p@) {
            Some(n) => r is Some && r->0@ == n,
            None => r is None,
        },
{
    let cs = components_of(p);
    let ghost all = components(p@);
    let mut j = cs.len();
    assert(all.take(j as int) =~= all);
    while j > 0 && eq_str(&cs[j - 1], ".")
        invariant
            j <= cs.len(),
            vviews(cs@) == all,
            last_named_index(all) == last_named_index(all.take(j as int)),
        decreases j,
    {
        assert(all.take(j as int).drop_last() =~= all.take(j - 1));
        j = j - 1;
    }
    if j == 0 {
        return None;
    }
    let k = j - 1;
    assert(last_named_index(all.take(j as int)) == k);
    assert(cs@[k as int]@ == all[k as int]);
    if eq_str(&cs[k], "..") {
        return None;
    }
    let is_root = cs[0].len() == 1 && cs[0][0] == '\\';
    assert(is_root ==> cs@[0]@ =~= root_component());
    assert(cs@[0]@ == root_component() ==> cs@[0]@.len() == 1 && cs@[0]@[0] == '\\');
    if k == 0 && (is_drive_prefix_exec(&cs[0]) || is_root) {
        return None;
    }
    let last = slice_chars(&cs[k], 0, cs[k].len());
    assert(last@ =~= cs@[k as int]@);
    Some(last)
}

fn strip_trailing_seps_len(s: &Vec<char>, end: usize) -> (r: usize)
    requires
        end <= s.len(),
    ensures
        r <= end,
        s@.take(r as int) == strip_trailing_seps(s@.take(end as int)),
{
    let mut j = end;
    while j > 0 && (s[j - 1] == '/' || s[j - 1] == '\\')
        invariant
            j <= end <= s.len(),
            strip_trailing_seps(s@.take(end as int)) == strip_trailing_seps(s@.take(j as int)),
        decreases j,
    {
        assert(s@.take(j as int).drop_last() =~= s@.take(j - 1));
        j = j - 1;
    }
    proof {
        let t = s@.take(j as int);
        if t.len() > 0 {
            assert(t.last() == s@[j - 1]);
        }
    }
    j
}

fn last_sep_before(s: &Vec<char>, end: usize) -> (r: Option<usize>)
    requires
        end <= s.len(),
    ensures
        match r {
            Some(k) => k < end && last_sep(s@.take(end as int)) == k,
            None => last_sep(s@.take(end as int)) == -1,
        },
{
    let mut j = end;
    while j > 0 && !(s[j - 1] == '/' || s[j - 1] == '\\')
        invariant
            j <= end <= s.len(),
            last_sep(s@.take(end as int)) == last_sep(s@.take(j as int)),
        decreases j,
    {
        assert(s@.take(j as int).drop_last() =~= s@.take(j - 1));
        j = j - 1;
    }
    if j == 0 {
        None
    } else {
        assert(s@.take(j as int).last() == s@[j - 1]);
        Some(j - 1)
    }
}

/// `Path::parent`.
pub fn parent_chars(p: &Vec<char>) -> (r: Option<Vec<char>>)
    ensures
        match parent_text(p@) {
            Some(q) => r is Some && r->0@ == q,
            None => r is None,
        },
{
    let qn = strip_trailing_seps_len(p, p.len());
    assert(p@.take(p.len() as int) =~= p@);
    let ghost q = p@.take(qn as int);
    match last_sep_before(p, qn) {
        None => {
            let qv = slice_chars(p, 0, qn);
            assert(qv@ =~= q);
            if qn == 0 || is_drive_prefix_exec(&qv) {
                None
            } else {
                Some(Vec::new())
            }
        },
        Some(k) => {
            let hn = strip_trailing_seps_len(p, k);
            assert(q.take(k as int) =~= p@.take(k as int));
            assert(p@.take(hn as int) =~= q.take(k as int).take(hn as int));
            let head = slice_chars(p, 0, hn);
            assert(head@ =~= p@.take(hn as int));
            if hn == 0 {
                let r = slice_chars(p, 0, 1);
                assert(r@ =~= q.take(1));
                Some(r)
            } else if is_drive_prefix_exec(&head) {
                let r = slice_chars(p, 0, 3);
                assert(r@ =~= q.take(3));
                Some(r)
            } else {
                Some(head)
            }
        },
    }
}

/// `Path::starts_with`.
pub fn path_starts_with_chars(p: &Vec<char>, base: &Vec<char>) -> (r: bool)
    ensures
        r == path_starts_with(p@, base@),
{
    let pc = components_of(p);
    let bc = components_of(base);
    if bc.len() > pc.len() {
        return false;
    }
    let mut i: usize = 0;
    while i < bc.len()
        invariant
            bc.len() <= pc.len(),
            i <= bc.len(),
            vviews(pc@) == components(p@),
            vviews(bc@) == components(base@),
            forall|j: int| 0 <= j < i ==> vviews(pc@)[j] == vviews(bc@)[j],
        decreases bc.len() - i,
    {
        if !eq_chars(&pc[i], &bc[i]) {
            assert(vviews(pc@).take(bc.len() as int)[i as int] != vviews(bc@)[i as int]);
            return false;
        }
        i = i + 1;
    }
    assert(vviews(pc@).take(bc.len() as int) =~= vviews(bc@));
    true
}

/// The comparison key of a Windows path.
pub fn windows_key_chars(p: &Vec<char>) -> (r: Vec<char>)
    ensures
        r@ == windows_key(p@),
{
    lower_chars(&replace_chars(p, '/', '\\'))
}

/// The comparison key of a Windows path: `/` as `\`, ASCII lower-cased.
pub fn windows_path_key(path: &str) -> (r: String)
    ensures
        r@ == windows_key(path@),
{
    let p = chars_of(path);
    string_of(&windows_key_chars(&p))
}

/// Whether two paths name the same file on Windows (same comparison key).
pub fn paths_equal(a: &str, b: &str) -> (r: bool)
    ensures
        r == (windows_key(a@) == windows_key(b@)),
{
    let ka = windows_key_chars(&chars_of(a));
    let kb = windows_key_chars(&chars_of(b));
    eq_chars(&ka, &kb)
}

fn char_utf8_len_exec(c: char) -> (r: usize)
    ensures
        r == char_utf8_len(c),
{
    let n = c as u32;
    if n < 0x80 {
        1
    } else if n < 0x800 {
        2
    } else if n < 0x10000 {
        3
    } else {
        4
    }
}

/// Bytes taken by the text in UTF-8.
pub fn utf8_len_of(s: &Vec<char>) -> (r: u128)
    ensures
        r == utf8_len(s@),
{
    let mut n: u128 = 0;
    let mut i: usize = 0;
    while i < s.len()
        invariant
            i <= s.len(),
            n == utf8_len(s@.take(i as int)),
            n <= 4 * i,
        decreases s.len() - i,
    {
        assert(s@.take(i + 1).drop_last() =~= s@.take(i as int));
        n = n + char_utf8_len_exec(s[i]) as u128;
        i = i + 1;
    }
    assert(s@.take(s.len() as int) =~= s@);
    n
}

/// Lexicographic comparison of texts.
pub fn text_lt_exec(a: &Vec<char>, b: &Vec<char>) -> (r: bool)
    ensures
        r == text_lt(a@, b@),
{
    let mut i: usize = 0;
    assert(a@.skip(0) =~= a@);
    assert(b@.skip(0) =~= b@);
    while i < a.len() && i < b.len() && a[i] == b[i]
        invariant
            i <= a.len(),
            i <= b.len(),
            text_lt(a@, b@) == text_lt(a@.skip(i as int), b@.skip(i as int)),
        decreases a.len() - i,
    {
        proof {
            let sa = a@.skip(i as int);
            let sb = b@.skip(i as int);
            assert(sa.drop_first() =~= a@.skip(i + 1));
            assert(sb.drop_first() =~= b@.skip(i + 1));
        }
        i = i + 1;
    }
    let ghost sa = a@.skip(i as int);
    let ghost sb = b@.skip(i as int);
    if i == a.len() {
        i < b.len()
    } else if i == b.len() {
        false
    } else {
        assert(sa[0] == a@[i as int] && sb[0] == b@[i as int]);
        a[i] < b[i]
    }
}

/// `a` is shorter than `b`: fewer bytes, or as many and lexicographically smaller.
pub fn is_shorter_path(a: &str, b: &str) -> (r: bool)
    ensures
        r == shorter_path(a@, b@),
{
    let av = chars_of(a);
    let bv = chars_of(b);
    shorter_chars(&av, &bv)
}

pub fn shorter_chars(a: &Vec<char>, b: &Vec<char>) -> (r: bool)
    ensures
        r == shorter_path(a@, b@),
{
    let la = utf8_len_of(a);
    let lb = utf8_len_of(b);
    la < lb || (la == lb && text_lt_exec(a, b))
}

} // verus!
