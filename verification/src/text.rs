//! Character and string helpers shared by the library, with their models over `Seq<char>`.
//!
//! Text is modelled as `Seq<char>` (the view of `str` and `String`). The executable helpers
//! work on `Vec<char>` and convert at the edges with [`chars_of`] and [`string_of`].
use vstd::prelude::*;

verus! {

// ---------------------------------------------------------------------------------------------
// Character classes (the ASCII and Unicode predicates of `char`)
// ---------------------------------------------------------------------------------------------

/// `char::is_ascii_uppercase`.
pub open spec fn is_ascii_upper(c: char) -> bool {
    'A' <= c && c <= 'Z'
}

/// `char::is_ascii_lowercase`.
pub open spec fn is_ascii_lower(c: char) -> bool {
    'a' <= c && c <= 'z'
}

/// `char::is_ascii_digit`.
pub open spec fn is_ascii_digit(c: char) -> bool {
    '0' <= c && c <= '9'
}

/// `char::is_ascii_alphabetic`.
pub open spec fn is_ascii_alpha(c: char) -> bool {
    is_ascii_upper(c) || is_ascii_lower(c)
}

/// `char::is_ascii_alphanumeric`.
pub open spec fn is_ascii_alnum(c: char) -> bool {
    is_ascii_alpha(c) || is_ascii_digit(c)
}

/// `char::is_ascii_hexdigit`.
pub open spec fn is_ascii_hex(c: char) -> bool {
    is_ascii_digit(c) || ('a' <= c && c <= 'f') || ('A' <= c && c <= 'F')
}

/// `char::is_whitespace`: the Unicode `White_Space` property.
pub open spec fn is_space(c: char) -> bool {
    ||| c == '\t'
    ||| c == '\n'
    ||| c == '\u{0B}'
    ||| c == '\u{0C}'
    ||| c == '\r'
    ||| c == ' '
    ||| c == '\u{85}'
    ||| c == '\u{A0}'
    ||| c == '\u{1680}'
    ||| ('\u{2000}' <= c && c <= '\u{200A}')
    ||| c == '\u{2028}'
    ||| c == '\u{2029}'
    ||| c == '\u{202F}'
    ||| c == '\u{205F}'
    ||| c == '\u{3000}'
}

/// `char::is_control`: the Unicode general category `Cc`.
pub open spec fn is_control(c: char) -> bool {
    c <= '\u{1F}' || ('\u{7F}' <= c && c <= '\u{9F}')
}

/// `char::to_ascii_lowercase`.
pub open spec fn ascii_lower(c: char) -> char {
    if is_ascii_upper(c) {
        ((c as u32) + 32) as char
    } else {
        c
    }
}

/// `char::to_ascii_uppercase`.
pub open spec fn ascii_upper(c: char) -> char {
    if is_ascii_lower(c) {
        ((c as u32) - 32) as char
    } else {
        c
    }
}

pub fn char_is_ascii_alnum(c: char) -> (r: bool)
    ensures
        r == is_ascii_alnum(c),
{
    ('A' <= c && c <= 'Z') || ('a' <= c && c <= 'z') || ('0' <= c && c <= '9')
}

pub fn char_is_ascii_alpha(c: char) -> (r: bool)
    ensures
        r == is_ascii_alpha(c),
{
    ('A' <= c && c <= 'Z') || ('a' <= c && c <= 'z')
}

pub fn char_is_ascii_hex(c: char) -> (r: bool)
    ensures
        r == is_ascii_hex(c),
{
    ('0' <= c && c <= '9') || ('a' <= c && c <= 'f') || ('A' <= c && c <= 'F')
}

pub fn char_is_space(c: char) -> (r: bool)
    ensures
        r == is_space(c),
{
    c == '\t' || c == '\n' || c == '\u{0B}' || c == '\u{0C}' || c == '\r' || c == ' ' || c
        == '\u{85}' || c == '\u{A0}' || c == '\u{1680}' || ('\u{2000}' <= c && c <= '\u{200A}')
        || c == '\u{2028}' || c == '\u{2029}' || c == '\u{202F}' || c == '\u{205F}' || c
        == '\u{3000}'
}

pub fn char_is_control(c: char) -> (r: bool)
    ensures
        r == is_control(c),
{
    c <= '\u{1F}' || ('\u{7F}' <= c && c <= '\u{9F}')
}

pub fn char_to_ascii_lower(c: char) -> (r: char)
    ensures
        r == ascii_lower(c),
{
    if 'A' <= c && c <= 'Z' {
        let b: u8 = c as u8;
        (b + 32) as char
    } else {
        c
    }
}

pub fn char_to_ascii_upper(c: char) -> (r: char)
    ensures
        r == ascii_upper(c),
{
    if 'a' <= c && c <= 'z' {
        let b: u8 = c as u8;
        (b - 32) as char
    } else {
        c
    }
}

// ---------------------------------------------------------------------------------------------
// Whole-text models
// ---------------------------------------------------------------------------------------------

/// `str::to_ascii_lowercase`.
pub open spec fn lower(s: Seq<char>) -> Seq<char> {
    s.map_values(|c: char| ascii_lower(c))
}

/// `str::to_ascii_uppercase`.
pub open spec fn upper(s: Seq<char>) -> Seq<char> {
    s.map_values(|c: char| ascii_upper(c))
}

/// `str::replace(from, to)` for single characters.
pub open spec fn replace_char(s: Seq<char>, from: char, to: char) -> Seq<char> {
    s.map_values(|c: char| if c == from { to } else { c })
}

/// `str::trim_start`.
pub open spec fn trim_start(s: Seq<char>) -> Seq<char>
    decreases s.len(),
{
    if s.len() > 0 && is_space(s[0]) {
        trim_start(s.drop_first())
    } else {
        s
    }
}

/// `str::trim_end`.
pub open spec fn trim_end(s: Seq<char>) -> Seq<char>
    decreases s.len(),
{
    if s.len() > 0 && is_space(s.last()) {
        trim_end(s.drop_last())
    } else {
        s
    }
}

/// `str::trim`.
pub open spec fn trim(s: Seq<char>) -> Seq<char> {
    trim_end(trim_start(s))
}

/// `t` occurs in `s` starting at index `i`.
pub open spec fn occurs_at(s: Seq<char>, t: Seq<char>, i: int) -> bool {
    0 <= i && i + t.len() <= s.len() && s.subrange(i, i + t.len()) == t
}

/// `str::contains` for a text pattern.
pub open spec fn contains_text(s: Seq<char>, t: Seq<char>) -> bool {
    exists|i: int| occurs_at(s, t, i)
}

/// `str::starts_with` for a text pattern.
pub open spec fn starts_with(s: Seq<char>, t: Seq<char>) -> bool {
    occurs_at(s, t, 0)
}

/// `str::ends_with` for a text pattern.
pub open spec fn ends_with(s: Seq<char>, t: Seq<char>) -> bool {
    occurs_at(s, t, s.len() - t.len())
}

/// The maximal runs of characters of `s` that are not separators, in order
/// (`split_whitespace` when `sep` is [`is_space`]).
pub open spec fn words(s: Seq<char>, sep: spec_fn(char) -> bool) -> Seq<Seq<char>>
    decreases s.len(),
{
    if s.len() == 0 {
        Seq::empty()
    } else {
        let prev = words(s.drop_last(), sep);
        if sep(s.last()) {
            prev
        } else if s.len() >= 2 && !sep(s[s.len() - 2]) {
            prev.update(prev.len() - 1, prev.last().push(s.last()))
        } else {
            prev.push(seq![s.last()])
        }
    }
}

/// The pieces joined with `sep` between neighbours (`[T]::join`).
pub open spec fn join(ws: Seq<Seq<char>>, sep: Seq<char>) -> Seq<char>
    decreases ws.len(),
{
    if ws.len() == 0 {
        Seq::empty()
    } else if ws.len() == 1 {
        ws[0]
    } else {
        join(ws.drop_last(), sep) + sep + ws.last()
    }
}

/// The character of a decimal digit.
pub open spec fn digit_char(d: nat) -> char {
    ((d + 48) as u32) as char
}

/// Decimal digits of a natural number, most significant first, without leading zeros.
pub open spec fn decimal(n: nat) -> Seq<char>
    decreases n,
{
    if n < 10 {
        seq![digit_char(n)]
    } else {
        decimal(n / 10).push(digit_char(n % 10))
    }
}

/// How `Display` writes an integer: an optional minus sign, then its decimal digits.
pub open spec fn int_text(n: int) -> Seq<char> {
    if n < 0 {
        seq!['-'] + decimal((-n) as nat)
    } else {
        decimal(n as nat)
    }
}

/// Decimal digits padded with leading zeros to at least `width` characters (`{:0width$}`).
pub open spec fn zero_padded(n: nat, width: nat) -> Seq<char> {
    let d = decimal(n);
    if d.len() >= width {
        d
    } else {
        Seq::new((width - d.len()) as nat, |i: int| '0') + d
    }
}

// ---------------------------------------------------------------------------------------------
// Lemmas
// ---------------------------------------------------------------------------------------------

/// Decimal digits are ASCII digits, and there is at least one.
pub proof fn lemma_decimal_digits(n: nat)
    ensures
        decimal(n).len() >= 1,
        n >= 10 ==> decimal(n).len() >= 2,
        forall|i: int| 0 <= i < decimal(n).len() ==> '0' <= #[trigger] decimal(n)[i] <= '9',
    decreases n,
{
    if n >= 10 {
        lemma_decimal_digits(n / 10);
        let d = decimal(n / 10);
        assert forall|i: int| 0 <= i < decimal(n).len() implies '0' <= #[trigger] decimal(n)[i]
            <= '9' by {
            if i < d.len() {
                assert(decimal(n)[i] == d[i]);
            }
        }
    }
}

/// Different numbers have different decimal digits.
pub proof fn lemma_decimal_injective(a: nat, b: nat)
    ensures
        decimal(a) == decimal(b) ==> a == b,
    decreases a,
{
    lemma_decimal_digits(a);
    lemma_decimal_digits(b);
    if decimal(a) == decimal(b) {
        if a >= 10 && b >= 10 {
            assert(decimal(a).drop_last() =~= decimal(a / 10));
            assert(decimal(b).drop_last() =~= decimal(b / 10));
            lemma_decimal_injective(a / 10, b / 10);
            assert(decimal(a).last() == digit_char(a % 10));
            assert(decimal(b).last() == digit_char(b % 10));
        } else if a < 10 && b < 10 {
            assert(decimal(a)[0] == digit_char(a));
            assert(decimal(b)[0] == digit_char(b));
        }
    }
}

/// Different integers are written differently, and the text holds only digits and a leading
/// minus sign.
pub proof fn lemma_int_text(a: int, b: int)
    ensures
        int_text(a) == int_text(b) ==> a == b,
        int_text(a).len() >= 1,
        forall|i: int|
            0 <= i < int_text(a).len() ==> ('0' <= #[trigger] int_text(a)[i] <= '9' || (i == 0
                && int_text(a)[i] == '-')),
{
    let da = if a < 0 { (-a) as nat } else { a as nat };
    let db = if b < 0 { (-b) as nat } else { b as nat };
    lemma_decimal_digits(da);
    lemma_decimal_digits(db);
    lemma_decimal_injective(da, db);
    if int_text(a) == int_text(b) {
        if a < 0 && b < 0 {
            assert(int_text(a).drop_first() =~= decimal(da));
            assert(int_text(b).drop_first() =~= decimal(db));
        } else if a < 0 && b >= 0 {
            assert(int_text(a)[0] == '-');
            assert('0' <= int_text(b)[0] <= '9');
        } else if a >= 0 && b < 0 {
            assert(int_text(b)[0] == '-');
            assert('0' <= int_text(a)[0] <= '9');
        }
    }
    assert forall|i: int| 0 <= i < int_text(a).len() implies ('0' <= #[trigger] int_text(a)[i]
        <= '9' || (i == 0 && int_text(a)[i] == '-')) by {
        if a < 0 && i > 0 {
            assert(int_text(a)[i] == decimal(da)[i - 1]);
        }
    }
}

/// Every word is non-empty and holds no separator.
pub proof fn lemma_words_shape(s: Seq<char>, sep: spec_fn(char) -> bool)
    ensures
        words(s, sep).len() <= s.len(),
        forall|k: int| 0 <= k < words(s, sep).len() ==> #[trigger] words(s, sep)[k].len() > 0,
        forall|k: int, j: int|
            0 <= k < words(s, sep).len() && 0 <= j < words(s, sep)[k].len() ==> !sep(
                #[trigger] words(s, sep)[k][j],
            ),
        s.len() > 0 && !sep(s.last()) ==> words(s, sep).len() > 0,
    decreases s.len(),
{
    if s.len() > 0 {
        lemma_words_shape(s.drop_last(), sep);
        let prev = words(s.drop_last(), sep);
        if !sep(s.last()) && s.len() >= 2 && !sep(s[s.len() - 2]) {
            assert(s.drop_last().last() == s[s.len() - 2]);
        }
    }
}

/// A property of every character of `s` holds of every character of its words.
pub proof fn lemma_words_chars(s: Seq<char>, sep: spec_fn(char) -> bool, keep: spec_fn(char) -> bool)
    requires
        forall|i: int| 0 <= i < s.len() ==> keep(#[trigger] s[i]),
    ensures
        forall|k: int, j: int|
            0 <= k < words(s, sep).len() && 0 <= j < words(s, sep)[k].len() ==> keep(
                #[trigger] words(s, sep)[k][j],
            ),
    decreases s.len(),
{
    if s.len() > 0 {
        let d = s.drop_last();
        assert forall|i: int| 0 <= i < d.len() implies keep(#[trigger] d[i]) by {
            assert(d[i] == s[i]);
        }
        lemma_words_chars(d, sep, keep);
        lemma_words_shape(d, sep);
        let prev = words(d, sep);
        assert(keep(s.last())) by {
            assert(s.last() == s[s.len() - 1]);
        }
        if !sep(s.last()) && s.len() >= 2 && !sep(s[s.len() - 2]) {
            assert(d.last() == s[s.len() - 2]);
            let w = words(s, sep);
            assert forall|k: int, j: int| 0 <= k < w.len() && 0 <= j < w[k].len() implies keep(
                #[trigger] w[k][j],
            ) by {
                if k == w.len() - 1 {
                    if j < prev.last().len() {
                        assert(w[k][j] == prev[k][j]);
                    }
                } else {
                    assert(w[k] == prev[k]);
                }
            }
        } else if !sep(s.last()) {
            let w = words(s, sep);
            assert forall|k: int, j: int| 0 <= k < w.len() && 0 <= j < w[k].len() implies keep(
                #[trigger] w[k][j],
            ) by {
                if k < prev.len() {
                    assert(w[k] == prev[k]);
                }
            }
        }
    }
}

/// A separator at the end adds no word.
proof fn lemma_words_push_sep(x: Seq<char>, sep: spec_fn(char) -> bool, c: char)
    requires
        sep(c),
    ensures
        words(x.push(c), sep) == words(x, sep),
{
    assert(x.push(c).drop_last() =~= x);
    assert(x.push(c).last() == c);
}

/// A word without separators after a separator (or at the start) is added as a word of its own.
pub(crate) proof fn lemma_words_append_word(x: Seq<char>, w: Seq<char>, sep: spec_fn(char) -> bool)
    requires
        x.len() == 0 || sep(x.last()),
        w.len() > 0,
        forall|j: int| 0 <= j < w.len() ==> !sep(#[trigger] w[j]),
    ensures
        words(x + w, sep) == words(x, sep).push(w),
    decreases w.len(),
{
    let s = x + w;
    assert(s.drop_last() =~= x + w.drop_last());
    assert(s.last() == w.last());
    assert(!sep(w.last())) by {
        assert(w.last() == w[w.len() - 1]);
    }
    if w.len() == 1 {
        assert(s.drop_last() =~= x);
        if s.len() >= 2 {
            assert(s[s.len() - 2] == x.last());
        }
        assert(w =~= seq![w.last()]);
    } else {
        let wd = w.drop_last();
        assert forall|j: int| 0 <= j < wd.len() implies !sep(#[trigger] wd[j]) by {
            assert(wd[j] == w[j]);
        }
        lemma_words_append_word(x, wd, sep);
        assert(s[s.len() - 2] == w[w.len() - 2]);
        let prev = words(x, sep).push(wd);
        assert(prev.update(prev.len() - 1, prev.last().push(w.last())) =~= words(x, sep).push(w)) by {
            assert(wd.push(w.last()) =~= w);
        }
    }
}

/// The decimal digits of a number read back as that number.
pub(crate) proof fn lemma_digits_value_decimal(n: nat)
    ensures
        digits_value(decimal(n)) == n,
        all_digits(decimal(n)),
        decimal(n).len() > 0,
        is_ascii_digit(decimal(n)[0]),
    decreases n,
{
    lemma_decimal_digits(n);
    let d = decimal(n);
    assert((digit_char(n % 10) as u32) == n % 10 + 48);
    if n >= 10 {
        lemma_digits_value_decimal(n / 10);
        assert(d.drop_last() =~= decimal(n / 10));
        assert(d.last() == digit_char(n % 10));
        assert(d[0] == decimal(n / 10)[0]);
        assert(digits_value(d) == digits_value(decimal(n / 10)) * 10 + n % 10);
        assert((n / 10) * 10 + n % 10 == n) by (nonlinear_arith);
    } else {
        assert(d.drop_last() =~= Seq::<char>::empty());
        assert(digits_value(d.drop_last()) == 0);
        assert(n % 10 == n);
        assert(d.last() == digit_char(n % 10));
    }
    assert forall|i: int| 0 <= i < decimal(n).len() implies is_ascii_digit(#[trigger] decimal(n)[i]) by {}
}

/// Text that starts with a separator (or is empty) adds its own words after those before it.
pub(crate) proof fn lemma_words_append_after_sep(z: Seq<char>, y: Seq<char>, sep: spec_fn(char) -> bool)
    requires
        y.len() == 0 || sep(y[0]),
    ensures
        words(z + y, sep) == words(z, sep) + words(y, sep),
    decreases y.len(),
{
    if y.len() == 0 {
        assert(z + y =~= z);
        assert(words(z, sep) + words(y, sep) =~= words(z, sep));
    } else {
        let yd = y.drop_last();
        let s = z + y;
        assert(s.drop_last() =~= z + yd);
        assert(s.last() == y.last());
        if yd.len() > 0 {
            assert(yd[0] == y[0]);
        }
        lemma_words_append_after_sep(z, yd, sep);
        let wz = words(z, sep);
        let wy = words(yd, sep);
        if sep(y.last()) {
            assert(words(s, sep) == wz + wy);
        } else {
            assert(y.len() >= 2);
            assert(s[s.len() - 2] == y[y.len() - 2]);
            assert(yd.last() == y[y.len() - 2]);
            if !sep(y[y.len() - 2]) {
                lemma_words_shape(yd, sep);
                assert(wy.len() > 0);
                assert((wz + wy).update((wz + wy).len() - 1, (wz + wy).last().push(y.last()))
                    =~= wz + wy.update(wy.len() - 1, wy.last().push(y.last())));
            } else {
                assert((wz + wy).push(seq![y.last()]) =~= wz + wy.push(seq![y.last()]));
            }
        }
    }
}

/// Splitting words joined by a separator gives the words back.
pub proof fn lemma_words_of_join(ws: Seq<Seq<char>>, sep: spec_fn(char) -> bool, c: char)
    requires
        sep(c),
        forall|k: int| 0 <= k < ws.len() ==> (#[trigger] ws[k]).len() > 0,
        forall|k: int, j: int| 0 <= k < ws.len() && 0 <= j < ws[k].len() ==> !sep(#[trigger] ws[k][j]),
    ensures
        words(join(ws, seq![c]), sep) == ws,
    decreases ws.len(),
{
    if ws.len() == 0 {
        assert(words(Seq::<char>::empty(), sep) =~= ws);
    } else if ws.len() == 1 {
        let w = ws[0];
        assert forall|j: int| 0 <= j < w.len() implies !sep(#[trigger] w[j]) by {
            assert(ws[0][j] == w[j]);
        }
        lemma_words_append_word(Seq::<char>::empty(), w, sep);
        assert(Seq::<char>::empty() + w =~= w);
        assert(words(Seq::<char>::empty(), sep).push(w) =~= ws);
    } else {
        let d = ws.drop_last();
        let w = ws.last();
        assert forall|k: int, j: int| 0 <= k < d.len() && 0 <= j < d[k].len() implies !sep(
            #[trigger] d[k][j],
        ) by {
            assert(d[k] == ws[k]);
        }
        assert forall|k: int| 0 <= k < d.len() implies (#[trigger] d[k]).len() > 0 by {
            assert(d[k] == ws[k]);
        }
        assert forall|j: int| 0 <= j < w.len() implies !sep(#[trigger] w[j]) by {
            assert(ws[ws.len() - 1][j] == w[j]);
        }
        assert(w.len() > 0) by {
            assert(ws[ws.len() - 1] == w);
        }
        lemma_words_of_join(d, sep, c);
        let x = join(d, seq![c]) + seq![c];
        assert(x =~= join(d, seq![c]).push(c));
        lemma_words_push_sep(join(d, seq![c]), sep, c);
        lemma_words_append_word(x, w, sep);
        assert(d.push(w) =~= ws);
    }
}

/// Every character of words joined by `c` is `c` or a character of some word.
pub proof fn lemma_join_chars(ws: Seq<Seq<char>>, c: char, keep: spec_fn(char) -> bool)
    requires
        keep(c),
        forall|k: int, j: int| 0 <= k < ws.len() && 0 <= j < ws[k].len() ==> keep(#[trigger] ws[k][j]),
    ensures
        forall|i: int| 0 <= i < join(ws, seq![c]).len() ==> keep(#[trigger] join(ws, seq![c])[i]),
    decreases ws.len(),
{
    if ws.len() == 1 {
        assert forall|i: int| 0 <= i < join(ws, seq![c]).len() implies keep(
            #[trigger] join(ws, seq![c])[i],
        ) by {
            assert(join(ws, seq![c])[i] == ws[0][i]);
        }
    } else if ws.len() > 1 {
        let d = ws.drop_last();
        assert forall|k: int, j: int| 0 <= k < d.len() && 0 <= j < d[k].len() implies keep(
            #[trigger] d[k][j],
        ) by {
            assert(d[k] == ws[k]);
        }
        lemma_join_chars(d, c, keep);
        let a = join(d, seq![c]);
        let w = ws.last();
        let r = join(ws, seq![c]);
        assert(r == a + seq![c] + w);
        assert forall|i: int| 0 <= i < r.len() implies keep(#[trigger] r[i]) by {
            if i < a.len() {
                assert(r[i] == a[i]);
            } else if i == a.len() {
                assert(r[i] == c);
            } else {
                assert(r[i] == w[i - a.len() - 1]);
                assert(w == ws[ws.len() - 1]);
            }
        }
    }
}

/// Non-empty words free of `c` joined by single `c`s: no `c` at either end and none doubled.
pub proof fn lemma_join_spacing(ws: Seq<Seq<char>>, c: char)
    requires
        forall|k: int| 0 <= k < ws.len() ==> (#[trigger] ws[k]).len() > 0,
        forall|k: int, j: int| 0 <= k < ws.len() && 0 <= j < ws[k].len() ==> #[trigger] ws[k][j] != c,
    ensures
        ws.len() > 0 ==> join(ws, seq![c]).len() > 0,
        join(ws, seq![c]).len() > 0 ==> join(ws, seq![c])[0] != c && join(ws, seq![c]).last() != c,
        forall|i: int|
            0 <= i < join(ws, seq![c]).len() - 1 && #[trigger] join(ws, seq![c])[i] == c ==> join(
                ws,
                seq![c],
            )[i + 1] != c,
    decreases ws.len(),
{
    if ws.len() == 1 {
        let w = ws[0];
        assert(w.len() > 0);
        assert(join(ws, seq![c]) == w);
        assert(w[0] != c);
        assert(w.last() != c) by {
            assert(w.last() == ws[0][w.len() - 1]);
        }
    } else if ws.len() > 1 {
        let d = ws.drop_last();
        assert forall|k: int, j: int| 0 <= k < d.len() && 0 <= j < d[k].len() implies #[trigger] d[k][j]
            != c by {
            assert(d[k] == ws[k]);
        }
        assert forall|k: int| 0 <= k < d.len() implies (#[trigger] d[k]).len() > 0 by {
            assert(d[k] == ws[k]);
        }
        lemma_join_spacing(d, c);
        let a = join(d, seq![c]);
        let w = ws.last();
        assert(w == ws[ws.len() - 1]);
        assert(w.len() > 0);
        let r = join(ws, seq![c]);
        assert(r == a + seq![c] + w);
        assert(r[0] == a[0]);
        assert(r.last() == w.last());
        assert(w.last() != c) by {
            assert(w.last() == ws[ws.len() - 1][w.len() - 1]);
        }
        assert forall|i: int| 0 <= i < r.len() - 1 && #[trigger] r[i] == c implies r[i + 1] != c by {
            if i < a.len() - 1 {
                assert(r[i] == a[i]);
                assert(r[i + 1] == a[i + 1]);
            } else if i == a.len() - 1 {
                assert(r[i] == a.last());
            } else if i == a.len() {
                assert(r[i + 1] == w[0]);
                assert(w[0] == ws[ws.len() - 1][0]);
            } else {
                assert(r[i] == w[i - a.len() - 1]);
                assert(w[i - a.len() - 1] == ws[ws.len() - 1][i - a.len() - 1]);
            }
        }
    }
}

/// The total length of the words of `s` is at most the length of `s`; with the joined form
/// this bounds every derived count.
pub proof fn lemma_words_len_le(s: Seq<char>, sep: spec_fn(char) -> bool)
    ensures
        words(s, sep).len() <= s.len(),
{
    lemma_words_shape(s, sep);
}

// ---------------------------------------------------------------------------------------------
// Executable helpers
// ---------------------------------------------------------------------------------------------

/// `String::push`.
pub assume_specification[ String::push ](s: &mut String, ch: char)
    ensures
        final(s)@ == old(s)@.push(ch),
;

/// The characters of `s`, in order.
pub fn chars_of(s: &str) -> (v: Vec<char>)
    ensures
        v@ == s@,
{
    let mut v: Vec<char> = Vec::new();
    for c in it: s.chars()
        invariant
            v@ == it.seq().take(it.index() as int),
            it.seq() == s@,
    {
        v.push(c);
    }
    v
}

/// A `String` holding exactly the characters of `v`.
pub fn string_of(v: &Vec<char>) -> (s: String)
    ensures
        s@ == v@,
{
    let mut s = String::new();
    let mut i: usize = 0;
    while i < v.len()
        invariant
            i <= v.len(),
            s@ == v@.take(i as int),
        decreases v.len() - i,
    {
        s.push(v[i]);
        i = i + 1;
        assert(v@.take(i as int) =~= v@.take(i - 1).push(v@[i - 1]));
    }
    assert(v@.take(v.len() as int) =~= v@);
    s
}

/// A `String` copy of a text slice.
pub fn string_from(s: &str) -> (r: String)
    ensures
        r@ == s@,
{
    let v = chars_of(s);
    string_of(&v)
}

/// Whether `v` spells exactly the text `lit`.
pub fn eq_str(v: &Vec<char>, lit: &str) -> (r: bool)
    ensures
        r == (v@ == lit@),
{
    let w = chars_of(lit);
    eq_chars(v, &w)
}

/// Whether two character vectors are equal.
pub fn eq_chars(v: &Vec<char>, w: &Vec<char>) -> (r: bool)
    ensures
        r == (v@ == w@),
{
    if v.len() != w.len() {
        return false;
    }
    let mut i: usize = 0;
    while i < v.len()
        invariant
            v.len() == w.len(),
            i <= v.len(),
            forall|j: int| 0 <= j < i ==> v@[j] == w@[j],
        decreases v.len() - i,
    {
        if v[i] != w[i] {
            return false;
        }
        i = i + 1;
    }
    assert(v@ =~= w@);
    true
}

/// `to_ascii_lowercase` on a character vector.
pub fn lower_chars(v: &Vec<char>) -> (r: Vec<char>)
    ensures
        r@ == lower(v@),
{
    let mut r: Vec<char> = Vec::new();
    let mut i: usize = 0;
    while i < v.len()
        invariant
            i <= v.len(),
            r@ == lower(v@.take(i as int)),
        decreases v.len() - i,
    {
        let c = char_to_ascii_lower(v[i]);
        r.push(c);
        i = i + 1;
        assert(lower(v@.take(i as int)) =~= lower(v@.take(i - 1)).push(ascii_lower(v@[i - 1])));
    }
    assert(v@.take(v.len() as int) =~= v@);
    r
}

/// `to_ascii_uppercase` on a character vector.
pub fn upper_chars(v: &Vec<char>) -> (r: Vec<char>)
    ensures
        r@ == upper(v@),
{
    let mut r: Vec<char> = Vec::new();
    let mut i: usize = 0;
    while i < v.len()
        invariant
            i <= v.len(),
            r@ == upper(v@.take(i as int)),
        decreases v.len() - i,
    {
        let c = char_to_ascii_upper(v[i]);
        r.push(c);
        i = i + 1;
        assert(upper(v@.take(i as int)) =~= upper(v@.take(i - 1)).push(ascii_upper(v@[i - 1])));
    }
    assert(v@.take(v.len() as int) =~= v@);
    r
}

/// `replace(from, to)` for single characters.
pub fn replace_chars(v: &Vec<char>, from: char, to: char) -> (r: Vec<char>)
    ensures
        r@ == replace_char(v@, from, to),
{
    let mut r: Vec<char> = Vec::new();
    let mut i: usize = 0;
    while i < v.len()
        invariant
            i <= v.len(),
            r@ == replace_char(v@.take(i as int), from, to),
        decreases v.len() - i,
    {
        let c = v[i];
        if c == from {
            r.push(to);
        } else {
            r.push(c);
        }
        i = i + 1;
        assert(replace_char(v@.take(i as int), from, to) =~= replace_char(
            v@.take(i - 1),
            from,
            to,
        ).push(if v@[i - 1] == from { to } else { v@[i - 1] }));
    }
    assert(v@.take(v.len() as int) =~= v@);
    r
}

proof fn lemma_trim_start_skip(s: Seq<char>, i: int)
    requires
        0 <= i <= s.len(),
        forall|j: int| 0 <= j < i ==> is_space(s[j]),
    ensures
        trim_start(s) == trim_start(s.subrange(i, s.len() as int)),
    decreases i,
{
    if i > 0 {
        assert(s.drop_first() =~= s.subrange(1, s.len() as int));
        assert(is_space(s[0]));
        assert(trim_start(s) == trim_start(s.drop_first()));
        assert forall|j: int| 0 <= j < i - 1 implies is_space(s.drop_first()[j]) by {
            assert(s.drop_first()[j] == s[j + 1]);
        }
        lemma_trim_start_skip(s.drop_first(), i - 1);
        assert(s.drop_first().subrange(i - 1, s.drop_first().len() as int) =~= s.subrange(
            i,
            s.len() as int,
        ));
    } else {
        assert(s.subrange(0, s.len() as int) =~= s);
    }
}

proof fn lemma_trim_end_cut(s: Seq<char>, j: int)
    requires
        0 <= j <= s.len(),
        forall|k: int| j <= k < s.len() ==> is_space(s[k]),
    ensures
        trim_end(s) == trim_end(s.subrange(0, j)),
    decreases s.len() - j,
{
    if j < s.len() {
        lemma_trim_end_cut(s.drop_last(), j);
        assert(s.drop_last().subrange(0, j) =~= s.subrange(0, j));
    } else {
        assert(s.subrange(0, j) =~= s);
    }
}

proof fn lemma_trim_start_first(s: Seq<char>)
    ensures
        trim_start(s).len() > 0 ==> !is_space(trim_start(s)[0]),
    decreases s.len(),
{
    if s.len() > 0 && is_space(s[0]) {
        lemma_trim_start_first(s.drop_first());
    }
}

proof fn lemma_trim_end_prefix(s: Seq<char>)
    ensures
        trim_end(s).len() <= s.len(),
        trim_end(s) =~= s.subrange(0, trim_end(s).len() as int),
        trim_end(s).len() > 0 ==> !is_space(trim_end(s).last()),
    decreases s.len(),
{
    if s.len() > 0 && is_space(s.last()) {
        lemma_trim_end_prefix(s.drop_last());
        let k = trim_end(s.drop_last()).len() as int;
        assert(s.drop_last().subrange(0, k) =~= s.subrange(0, k));
    } else {
        assert(s.subrange(0, s.len() as int) =~= s);
    }
}

/// Lower-casing a character keeps white space and hex digits as they were, is idempotent, and
/// leaves no ASCII upper-case letter.
pub proof fn lemma_ascii_lower_char(c: char)
    ensures
        is_space(ascii_lower(c)) == is_space(c),
        is_ascii_hex(ascii_lower(c)) == is_ascii_hex(c),
        ascii_lower(ascii_lower(c)) == ascii_lower(c),
        !is_ascii_upper(ascii_lower(c)),
{
    if is_ascii_upper(c) {
        let r = ((c as u32) + 32) as char;
        assert('a' <= r && r <= 'z');
    }
}

/// A trimmed, lower-cased text is trimmed, holds no ASCII upper-case letter, and trimming and
/// lower-casing it again changes nothing.
pub proof fn lemma_lower_trim_stable(s: Seq<char>)
    ensures
        lower(trim(lower(trim(s)))) == lower(trim(s)),
        trim(lower(trim(s))) == lower(trim(s)),
        forall|i: int| 0 <= i < lower(trim(s)).len() ==> !is_ascii_upper(#[trigger] lower(trim(s))[i]),
{
    let t = trim(s);
    lemma_trim_start_first(s);
    lemma_trim_end_prefix(trim_start(s));
    let l = lower(t);
    if l.len() > 0 {
        lemma_ascii_lower_char(t[0]);
        lemma_ascii_lower_char(t.last());
        assert(l[0] == ascii_lower(t[0]));
        assert(l.last() == ascii_lower(t.last()));
        assert(trim_start(l) == l);
        assert(trim_end(l) == l);
    } else {
        assert(trim_start(l) == l);
        assert(trim_end(l) == l);
    }
    assert forall|i: int| 0 <= i < l.len() implies #[trigger] lower(l)[i] == l[i] by {
        lemma_ascii_lower_char(t[i]);
    }
    assert forall|i: int| 0 <= i < l.len() implies !is_ascii_upper(#[trigger] l[i]) by {
        lemma_ascii_lower_char(t[i]);
    }
    assert(lower(l) =~= l);
}

/// `str::trim` on a character vector.
pub fn trim_chars(v: &Vec<char>) -> (r: Vec<char>)
    ensures
        r@ == trim(v@),
{
    let n = v.len();
    let mut i: usize = 0;
    while i < n && char_is_space(v[i])
        invariant
            n == v.len(),
            i <= n,
            forall|j: int| 0 <= j < i ==> is_space(v@[j]),
        decreases n - i,
    {
        i = i + 1;
    }
    proof {
        lemma_trim_start_skip(v@, i as int);
    }
    let ghost rest = v@.subrange(i as int, n as int);
    assert(trim_start(rest) == rest);
    let mut j: usize = n;
    while j > i && char_is_space(v[j - 1])
        invariant
            n == v.len(),
            i <= j <= n,
            forall|k: int| j <= k < n ==> is_space(v@[k]),
        decreases j,
    {
        j = j - 1;
    }
    proof {
        lemma_trim_end_cut(rest, j - i);
        assert(rest.subrange(0, j - i) =~= v@.subrange(i as int, j as int));
    }
    let mut r: Vec<char> = Vec::new();
    let mut k: usize = i;
    while k < j
        invariant
            n == v.len(),
            i <= k <= j <= n,
            r@ == v@.subrange(i as int, k as int),
        decreases j - k,
    {
        r.push(v[k]);
        k = k + 1;
        assert(v@.subrange(i as int, k as int) =~= v@.subrange(i as int, k - 1).push(v@[k - 1]));
    }
    proof {
        let t = v@.subrange(i as int, j as int);
        if t.len() > 0 {
            assert(t.last() == v@[j - 1]);
            assert(!is_space(t.last()) || j == i);
        }
        assert(trim_end(t) == t);
    }
    r
}

/// Whether `t` occurs in `v` at index `i` (for `i + t.len() <= v.len()`).
pub fn occurs_at_exec(v: &Vec<char>, t: &Vec<char>, i: usize) -> (r: bool)
    requires
        i + t.len() <= v.len(),
    ensures
        r == occurs_at(v@, t@, i as int),
{
    let mut k: usize = 0;
    while k < t.len()
        invariant
            i + t.len() <= v.len(),
            k <= t.len(),
            forall|m: int| 0 <= m < k ==> v@[i + m] == t@[m],
        decreases t.len() - k,
    {
        if v[i + k] != t[k] {
            assert(v@.subrange(i as int, i + t.len())[k as int] != t@[k as int]);
            return false;
        }
        k = k + 1;
    }
    assert(v@.subrange(i as int, i + t.len()) =~= t@);
    true
}

/// First index at which `t` occurs in `v`, if any (`str::find`).
pub fn find_text(v: &Vec<char>, t: &Vec<char>) -> (r: Option<usize>)
    ensures
        match r {
            Some(i) => occurs_at(v@, t@, i as int) && forall|j: int|
                0 <= j < i ==> !occurs_at(v@, t@, j),
            None => !contains_text(v@, t@),
        },
{
    if t.len() > v.len() {
        return None;
    }
    let last = v.len() - t.len();
    let mut i: usize = 0;
    while i <= last
        invariant
            last == v.len() - t.len(),
            t.len() <= v.len(),
            forall|j: int| 0 <= j < i ==> !occurs_at(v@, t@, j),
        decreases last + 1 - i,
    {
        if occurs_at_exec(v, t, i) {
            return Some(i);
        }
        if i == last {
            assert(forall|j: int| 0 <= j <= last ==> !occurs_at(v@, t@, j));
            return None;
        }
        i = i + 1;
    }
    None
}

/// `str::contains` on character vectors.
pub fn contains_chars(v: &Vec<char>, t: &Vec<char>) -> (r: bool)
    ensures
        r == contains_text(v@, t@),
{
    find_text(v, t).is_some()
}

/// `str::starts_with` on character vectors.
pub fn starts_with_chars(v: &Vec<char>, t: &Vec<char>) -> (r: bool)
    ensures
        r == starts_with(v@, t@),
{
    if t.len() > v.len() {
        return false;
    }
    occurs_at_exec(v, t, 0)
}

/// `str::ends_with` on character vectors.
pub fn ends_with_chars(v: &Vec<char>, t: &Vec<char>) -> (r: bool)
    ensures
        r == ends_with(v@, t@),
{
    if t.len() > v.len() {
        return false;
    }
    occurs_at_exec(v, t, v.len() - t.len())
}

/// Whether `c` occurs in `v`.
pub fn contains_char(v: &Vec<char>, c: char) -> (r: bool)
    ensures
        r == v@.contains(c),
{
    let mut i: usize = 0;
    while i < v.len()
        invariant
            i <= v.len(),
            forall|j: int| 0 <= j < i ==> v@[j] != c,
        decreases v.len() - i,
    {
        if v[i] == c {
            return true;
        }
        i = i + 1;
    }
    false
}

/// Appends all of `t` to `v`.
pub fn append_chars(v: &mut Vec<char>, t: &Vec<char>)
    ensures
        final(v)@ == old(v)@ + t@,
{
    let mut i: usize = 0;
    while i < t.len()
        invariant
            i <= t.len(),
            v@ == old(v)@ + t@.take(i as int),
        decreases t.len() - i,
    {
        v.push(t[i]);
        i = i + 1;
        assert(t@.take(i as int) =~= t@.take(i - 1).push(t@[i - 1]));
    }
    assert(t@.take(t.len() as int) =~= t@);
}

/// Appends the characters of a text slice to `v`.
pub fn append_str(v: &mut Vec<char>, s: &str)
    ensures
        final(v)@ == old(v)@ + s@,
{
    let t = chars_of(s);
    append_chars(v, &t);
}

/// The sub-vector `v[from..to]`.
pub fn slice_chars(v: &Vec<char>, from: usize, to: usize) -> (r: Vec<char>)
    requires
        from <= to <= v.len(),
    ensures
        r@ == v@.subrange(from as int, to as int),
{
    let mut r: Vec<char> = Vec::new();
    let mut k: usize = from;
    while k < to
        invariant
            from <= k <= to <= v.len(),
            r@ == v@.subrange(from as int, k as int),
        decreases to - k,
    {
        r.push(v[k]);
        k = k + 1;
        assert(v@.subrange(from as int, k as int) =~= v@.subrange(from as int, k - 1).push(
            v@[k - 1],
        ));
    }
    r
}

/// Joins pieces with the separator `sep` between neighbours.
pub fn join_chars(ws: &Vec<Vec<char>>, sep: &Vec<char>) -> (r: Vec<char>)
    ensures
        r@ == join(vviews(ws@), sep@),
{
    let mut r: Vec<char> = Vec::new();
    let mut i: usize = 0;
    while i < ws.len()
        invariant
            i <= ws.len(),
            r@ == join(vviews(ws@).take(i as int), sep@),
        decreases ws.len() - i,
    {
        let ghost before = vviews(ws@).take(i as int);
        if i > 0 {
            append_chars(&mut r, sep);
        }
        append_chars(&mut r, &ws[i]);
        i = i + 1;
        proof {
            let now = vviews(ws@).take(i as int);
            assert(now.drop_last() =~= before);
            assert(now.last() == ws[i - 1]@);
            if i == 1 {
                assert(r@ =~= now[0]);
            }
        }
    }
    assert(vviews(ws@).take(ws.len() as int) =~= vviews(ws@));
    r
}

/// The character of a decimal digit.
pub fn digit_to_char(d: u64) -> (c: char)
    requires
        d < 10,
    ensures
        c == digit_char(d as nat),
{
    let b: u8 = d as u8;
    (b + 48) as char
}

/// Decimal digits of `n`.
pub fn u64_decimal(n: u64) -> (r: Vec<char>)
    ensures
        r@ == decimal(n as nat),
    decreases n,
{
    if n < 10 {
        let mut r: Vec<char> = Vec::new();
        r.push(digit_to_char(n));
        r
    } else {
        let mut r = u64_decimal(n / 10);
        r.push(digit_to_char(n % 10));
        r
    }
}

/// How `Display` writes an `i64`.
pub fn i64_text(n: i64) -> (r: Vec<char>)
    ensures
        r@ == int_text(n as int),
{
    if n < 0 {
        let m: u64 = (0i128 - (n as i128)) as u64;
        let digits = u64_decimal(m);
        let mut r: Vec<char> = Vec::new();
        r.push('-');
        append_chars(&mut r, &digits);
        assert(r@ =~= seq!['-'] + decimal((-n) as nat));
        r
    } else {
        u64_decimal(n as u64)
    }
}

/// Decimal digits of `n`, padded with zeros to at least `width` characters.
pub fn zero_padded_decimal(n: u64, width: usize) -> (r: Vec<char>)
    ensures
        r@ == zero_padded(n as nat, width as nat),
{
    let d = u64_decimal(n);
    if d.len() >= width {
        return d;
    }
    let pad = width - d.len();
    let mut r: Vec<char> = Vec::new();
    let mut i: usize = 0;
    while i < pad
        invariant
            i <= pad,
            r@ == Seq::new(i as nat, |k: int| '0'),
        decreases pad - i,
    {
        r.push('0');
        i = i + 1;
        assert(r@ =~= Seq::new(i as nat, |k: int| '0'));
    }
    append_chars(&mut r, &d);
    r
}


/// The separators used to cut text into words.
pub enum Separator {
    /// Anything but an ASCII letter or digit.
    NonAlnum,
    /// Unicode whitespace (`split_whitespace`).
    Space,
    /// A path separator, `/` or `\\`.
    PathSep,
}

/// The character predicate of a separator kind.
pub open spec fn sep_fn(k: Separator) -> spec_fn(char) -> bool {
    match k {
        Separator::NonAlnum => |c: char| !is_ascii_alnum(c),
        Separator::Space => |c: char| is_space(c),
        Separator::PathSep => |c: char| c == '/' || c == '\\',
    }
}

fn is_separator(k: &Separator, c: char) -> (r: bool)
    ensures
        r == sep_fn(*k)(c),
{
    match k {
        Separator::NonAlnum => !char_is_ascii_alnum(c),
        Separator::Space => char_is_space(c),
        Separator::PathSep => c == '/' || c == '\\',
    }
}

/// The words of `v`: maximal runs of characters that are not separators of kind `k`.
pub fn split_words(v: &Vec<char>, k: Separator) -> (r: Vec<Vec<char>>)
    ensures
        vviews(r@) == words(v@, sep_fn(k)),
{
    let ghost sep = sep_fn(k);
    let mut res: Vec<Vec<char>> = Vec::new();
    let mut cur: Vec<char> = Vec::new();
    let mut i: usize = 0;
    while i < v.len()
        invariant
            i <= v.len(),
            sep == sep_fn(k),
            words(v@.take(i as int), sep) == (if cur@.len() > 0 {
                vviews(res@).push(cur@)
            } else {
                vviews(res@)
            }),
            cur@.len() > 0 <==> (i > 0 && !sep(v@[i - 1])),
        decreases v.len() - i,
    {
        let c = v[i];
        let ghost prefix = v@.take(i as int);
        let ghost next = v@.take(i + 1);
        assert(next.drop_last() =~= prefix);
        assert(next.last() == c);
        if i > 0 {
            assert(next[next.len() - 2] == v@[i - 1]);
        }
        if is_separator(&k, c) {
            if cur.len() > 0 {
                let w = cur;
                let ghost wv = w@;
                let ghost before = vviews(res@);
                res.push(w);
                cur = Vec::new();
                assert(vviews(res@) =~= before.push(wv));
            }
        } else {
            let ghost before = vviews(res@);
            cur.push(c);
            proof {
                let prev = words(prefix, sep);
                if i > 0 && !sep(v@[i - 1]) {
                    assert(prev.update(prev.len() - 1, prev.last().push(c)) =~= before.push(cur@));
                } else {
                    assert(cur@ =~= seq![c]);
                    assert(prev == before);
                    assert(prev.push(seq![c]) =~= before.push(cur@));
                }
            }
        }
        i = i + 1;
    }
    assert(v@.take(v.len() as int) =~= v@);
    if cur.len() > 0 {
        let ghost before = vviews(res@);
        let ghost cv = cur@;
        res.push(cur);
        assert(vviews(res@) =~= before.push(cv));
    }
    res
}

/// The texts held by a vector of character vectors.
pub open spec fn vviews(v: Seq<Vec<char>>) -> Seq<Seq<char>> {
    v.map_values(|w: Vec<char>| w@)
}


// ---------------------------------------------------------------------------------------------
// Unsigned decimal parsing (`str::parse::<u32>`)
// ---------------------------------------------------------------------------------------------

/// Every character is an ASCII digit.
pub open spec fn all_digits(s: Seq<char>) -> bool {
    forall|i: int| 0 <= i < s.len() ==> is_ascii_digit(#[trigger] s[i])
}

/// The value of a run of decimal digits.
pub open spec fn digits_value(s: Seq<char>) -> nat
    decreases s.len(),
{
    if s.len() == 0 {
        0
    } else {
        digits_value(s.drop_last()) * 10 + ((s.last() as u32) - 48) as nat
    }
}

/// The digits of an unsigned number: an optional leading `+` removed.
pub open spec fn unsigned_body(s: Seq<char>) -> Seq<char> {
    if s.len() > 0 && s[0] == '+' {
        s.drop_first()
    } else {
        s
    }
}

/// What `str::parse::<u32>` accepts and returns: an optional `+`, then one or more ASCII
/// digits whose value fits in `u32`.
pub open spec fn parse_u32_spec(s: Seq<char>) -> Option<u32> {
    let b = unsigned_body(s);
    if b.len() > 0 && all_digits(b) && digits_value(b) <= u32::MAX {
        Some(digits_value(b) as u32)
    } else {
        None
    }
}

proof fn lemma_digits_value_prefix(s: Seq<char>, i: int)
    requires
        0 <= i <= s.len(),
        all_digits(s),
    ensures
        digits_value(s.take(i)) <= digits_value(s),
    decreases s.len() - i,
{
    if i < s.len() {
        lemma_digits_value_prefix(s, i + 1);
        let t = s.take(i + 1);
        assert(t.drop_last() =~= s.take(i));
        assert(is_ascii_digit(s[i]));
    } else {
        assert(s.take(i) =~= s);
    }
}

/// `str::parse::<u32>` on a character vector.
pub fn parse_u32_chars(v: &Vec<char>) -> (r: Option<u32>)
    ensures
        r == parse_u32_spec(v@),
{
    let start: usize = if v.len() > 0 && v[0] == '+' {
        1
    } else {
        0
    };
    let ghost b = unsigned_body(v@);
    assert(b =~= v@.subrange(start as int, v@.len() as int));
    if start >= v.len() {
        return None;
    }
    let mut acc: u64 = 0;
    let mut i: usize = start;
    while i < v.len()
        invariant
            start <= i <= v.len(),
            start < v.len(),
            b == unsigned_body(v@),
            b =~= v@.subrange(start as int, v@.len() as int),
            all_digits(b.take(i - start)),
            acc == digits_value(b.take(i - start)),
            acc <= u32::MAX,
        decreases v.len() - i,
    {
        let c = v[i];
        if !('0' <= c && c <= '9') {
            assert(b[i - start] == c);
            assert(!is_ascii_digit(b[i - start]));
            assert(!all_digits(b));
            return None;
        }
        let d: u64 = (c as u32 - 48) as u64;
        acc = acc * 10 + d;
        proof {
            let t = b.take(i - start + 1);
            assert(t.drop_last() =~= b.take(i - start));
            assert(t.last() == c);
            assert(digits_value(t) == digits_value(b.take(i - start)) * 10 + d);
            assert(all_digits(t));
        }
        i = i + 1;
        if acc > 4294967295 {
            proof {
                let k = i - start;
                if all_digits(b) {
                    lemma_digits_value_prefix(b, k);
                    assert(digits_value(b) > u32::MAX);
                }
            }
            return None;
        }
    }
    assert(b.take(b.len() as int) =~= b);
    Some(acc as u32)
}

} // verus!
