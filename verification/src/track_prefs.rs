//! Saved audio/subtitle track preferences and the scoring that picks the closest track of a
//! newly opened file.
use vstd::prelude::*;

use crate::text::{
    chars_of, contains_chars, contains_text, eq_chars, eq_str, is_space, join, join_chars,
    lemma_lower_trim_stable, lemma_words_len_le, lemma_words_shape, lower, lower_chars, sep_fn,
    slice_chars, split_words, string_from, ascii_lower, is_ascii_alnum,
    lemma_words_append_after_sep, lemma_words_append_word, string_of, trim, trim_chars, trim_end, trim_start, vviews, words, Separator,
};

verus! {

/// The tracks chosen for an episode, as remembered between sessions.
pub struct TrackPref {
    pub audio_lang: Option<String>,
    pub audio_title: Option<String>,
    pub subtitle_off: bool,
    pub subtitle_lang: Option<String>,
    pub subtitle_title: Option<String>,
    pub subtitle_external_path: Option<String>,
}

/// A track of the open file, as offered to the matcher.
pub struct TrackCandidate {
    pub id: i64,
    pub lang: Option<String>,
    pub title: Option<String>,
}

/// A track as reported by the player.
pub struct MpvTrack {
    pub id: i64,
    pub kind: String,
    pub title: Option<String>,
    pub lang: Option<String>,
    pub selected: bool,
    pub external: bool,
    pub external_filename: Option<String>,
}

pub const LANG_MATCH: i32 = 100;

pub const TITLE_EXACT: i32 = 50;

pub const TITLE_CONTAINS: i32 = 25;

pub const TOKEN_OVERLAP: i32 = 5;

pub const SIGNS_ALIGN: i32 = 20;

pub const SIGNS_MISMATCH: i32 = -40;

pub const SIGNS_PREF_ONLY: i32 = -20;

pub const MIN_SCORE: i32 = 50;

/// A preferred title of at most this many characters keeps every score inside `i32`.
pub const SAFE_TITLE_CHARS: usize = 429_496_695;

// ---------------------------------------------------------------------------------------------
// Model
// ---------------------------------------------------------------------------------------------

/// The canonical code of a lower-cased, trimmed language tag, when it is a known alias.
pub open spec fn lang_alias(k: Seq<char>) -> Option<Seq<char>> {
    if k == "jpn"@ || k == "jp"@ || k == "japanese"@ || k == "ja"@ {
        Some("ja"@)
    } else if k == "eng"@ || k == "en"@ || k == "english"@ {
        Some("en"@)
    } else if k == "spa"@ || k == "es"@ || k == "spanish"@ || k == "castilian"@ {
        Some("es"@)
    } else if k == "por"@ || k == "pt"@ || k == "portuguese"@ {
        Some("pt"@)
    } else if k == "fre"@ || k == "fra"@ || k == "fr"@ || k == "french"@ {
        Some("fr"@)
    } else if k == "ger"@ || k == "deu"@ || k == "de"@ || k == "german"@ {
        Some("de"@)
    } else if k == "ita"@ || k == "it"@ || k == "italian"@ {
        Some("it"@)
    } else if k == "kor"@ || k == "ko"@ || k == "korean"@ {
        Some("ko"@)
    } else if k == "chi"@ || k == "zho"@ || k == "zh"@ || k == "chinese"@ || k == "cmn"@ || k
        == "yue"@ {
        Some("zh"@)
    } else if k == "rus"@ || k == "ru"@ || k == "russian"@ {
        Some("ru"@)
    } else if k == "ara"@ || k == "ar"@ || k == "arabic"@ {
        Some("ar"@)
    } else if k == "hin"@ || k == "hi"@ || k == "hindi"@ {
        Some("hi"@)
    } else if k == "tha"@ || k == "th"@ || k == "thai"@ {
        Some("th"@)
    } else if k == "vie"@ || k == "vi"@ || k == "vietnamese"@ {
        Some("vi"@)
    } else if k == "pol"@ || k == "pl"@ || k == "polish"@ {
        Some("pl"@)
    } else if k == "und"@ || k == "unknown"@ || k.len() == 0 {
        Some(Seq::empty())
    } else {
        None
    }
}

/// A language tag in canonical form: trimmed, ASCII lower-cased, aliases mapped to their
/// two-letter code, unknown/undetermined mapped to the empty text.
pub open spec fn lang_code(raw: Seq<char>) -> Seq<char> {
    let k = lower(trim(raw));
    match lang_alias(k) {
        Some(code) => code,
        None => k,
    }
}

/// The text of an optional value, empty when absent.
pub open spec fn opt_text(o: Option<Seq<char>>) -> Seq<char> {
    match o {
        Some(s) => s,
        None => Seq::empty(),
    }
}

/// A known language of an optional tag (`None` for a missing or undetermined one).
pub open spec fn lang_opt(raw: Option<Seq<char>>) -> Option<Seq<char>> {
    let v = lang_code(opt_text(raw));
    if v.len() == 0 {
        None
    } else {
        Some(v)
    }
}

/// The lower-cased ASCII letter/digit runs of a title.
pub open spec fn key_words(title: Seq<char>) -> Seq<Seq<char>> {
    words(lower(title), sep_fn(Separator::NonAlnum))
}

/// The comparison key of a title: its key words joined by single spaces.
pub open spec fn title_key_text(title: Seq<char>) -> Seq<char> {
    join(key_words(title), seq![' '])
}

/// Words that mark a signs/songs/forced subtitle track.
pub open spec fn is_signs_word(w: Seq<char>) -> bool {
    w == "signs"@ || w == "sign"@ || w == "songs"@ || w == "song"@ || w == "forced"@
}

/// Some key word of the title marks a signs/songs track.
pub open spec fn signs_like(title: Seq<char>) -> bool {
    exists|k: int| 0 <= k < key_words(title).len() && is_signs_word(#[trigger] key_words(title)[k])
}

/// A title in which one of the words `signs`, `sign`, `songs`, `song` or `forced` stands on its
/// own (in any ASCII case, with no letter or digit right before or after it) marks a
/// signs/songs track.
pub proof fn lemma_marker_word_is_signs_like(pre: Seq<char>, w: Seq<char>, post: Seq<char>)
    requires
        lower(w) == "signs"@ || lower(w) == "sign"@ || lower(w) == "songs"@ || lower(w)
            == "song"@ || lower(w) == "forced"@,
        pre.len() == 0 || !is_ascii_alnum(pre.last()),
        post.len() == 0 || !is_ascii_alnum(post[0]),
    ensures
        signs_like(pre + w + post),
{
    reveal_strlit("signs");
    reveal_strlit("sign");
    reveal_strlit("songs");
    reveal_strlit("song");
    reveal_strlit("forced");
    let sep = sep_fn(Separator::NonAlnum);
    let lp = lower(pre);
    let lw = lower(w);
    let lq = lower(post);
    assert(lower(pre + w + post) =~= lp + lw + lq);
    assert(lp.len() == 0 || sep(lp.last())) by {
        if lp.len() > 0 {
            assert(lp.last() == ascii_lower(pre.last()));
        }
    }
    assert(lq.len() == 0 || sep(lq[0])) by {
        if lq.len() > 0 {
            assert(lq[0] == ascii_lower(post[0]));
        }
    }
    assert forall|j: int| 0 <= j < lw.len() implies !sep(#[trigger] lw[j]) by {}
    lemma_words_append_word(lp, lw, sep);
    lemma_words_append_after_sep(lp + lw, lq, sep);
    let k = words(lp, sep).len() as int;
    assert(key_words(pre + w + post)[k] == lw);
}

/// With a saved language but no saved title, a candidate in that language scores the language
/// match alone, 100, or 60 when its title marks a signs/songs track (the mismatch penalty).
pub proof fn lemma_untitled_preference_score(
    pref_lang: Option<Seq<char>>,
    cand_lang: Option<Seq<char>>,
    cand_title: Option<Seq<char>>,
)
    requires
        lang_opt(pref_lang) is Some,
        lang_opt(pref_lang) == lang_opt(cand_lang),
    ensures
        track_score(pref_lang, None, cand_lang, cand_title) == Some(
            if signs_like(trim(opt_text(cand_title))) {
                60int
            } else {
                100int
            },
        ),
{
    let e = Seq::<char>::empty();
    assert(trim_start(e) == e);
    assert(trim(opt_text(None)) == e);
    assert(lower(e) =~= e);
    assert(key_words(e) =~= Seq::<Seq<char>>::empty());
    assert(title_key_text(e) =~= e);
    assert(!signs_like(e));
}

/// The words longer than one character, in order.
pub open spec fn long_words(ws: Seq<Seq<char>>) -> Seq<Seq<char>>
    decreases ws.len(),
{
    if ws.len() == 0 {
        Seq::empty()
    } else if ws.last().len() > 1 {
        long_words(ws.drop_last()).push(ws.last())
    } else {
        long_words(ws.drop_last())
    }
}

/// The tokens of a title: key words longer than one character.
pub open spec fn title_tokens(title: Seq<char>) -> Seq<Seq<char>> {
    long_words(key_words(title))
}

/// How many entries of `p` (counted with repetition) occur in `c`.
pub open spec fn shared_count(p: Seq<Seq<char>>, c: Seq<Seq<char>>) -> nat
    decreases p.len(),
{
    if p.len() == 0 {
        0
    } else {
        shared_count(p.drop_last(), c) + if c.contains(p.last()) {
            1nat
        } else {
            0nat
        }
    }
}

/// Points for the titles (already trimmed): exact key, containment, shared tokens.
pub open spec fn title_points(pt: Seq<char>, ct: Seq<char>) -> int {
    let pk = title_key_text(pt);
    let ck = title_key_text(ct);
    if pk.len() > 0 && ck.len() > 0 {
        (if pk == ck {
            TITLE_EXACT as int
        } else if contains_text(pk, ck) || contains_text(ck, pk) {
            TITLE_CONTAINS as int
        } else {
            0
        }) + TOKEN_OVERLAP * shared_count(title_tokens(pt), title_tokens(ct))
    } else {
        0
    }
}

/// Points for agreement on signs/songs tracks.
pub open spec fn signs_points(pt: Seq<char>, ct: Seq<char>) -> int {
    let ps = signs_like(pt);
    let cs = signs_like(ct);
    if ps && cs {
        SIGNS_ALIGN as int
    } else if !ps && cs {
        SIGNS_MISMATCH as int
    } else if ps && !cs {
        SIGNS_PREF_ONLY as int
    } else {
        0
    }
}

/// The score of a candidate track against a saved preference; `None` when both name a
/// language and the languages differ.
pub open spec fn track_score(
    pref_lang: Option<Seq<char>>,
    pref_title: Option<Seq<char>>,
    cand_lang: Option<Seq<char>>,
    cand_title: Option<Seq<char>>,
) -> Option<int> {
    let pl = lang_opt(pref_lang);
    let cl = lang_opt(cand_lang);
    if pl is Some && cl is Some && pl != cl {
        None
    } else {
        let lang_points: int = if pl is Some && cl is Some {
            LANG_MATCH as int
        } else {
            0
        };
        let pt = trim(opt_text(pref_title));
        let ct = trim(opt_text(cand_title));
        Some(lang_points + title_points(pt, ct) + signs_points(pt, ct))
    }
}

/// How many title tokens count toward the overlap bonus (none unless both title keys are
/// non-empty).
pub open spec fn token_overlap(pt: Seq<char>, ct: Seq<char>) -> nat {
    if title_key_text(pt).len() > 0 && title_key_text(ct).len() > 0 {
        shared_count(title_tokens(pt), title_tokens(ct))
    } else {
        0
    }
}

/// Scoring the candidate stays inside `i32` at every step: the overlap bonus, the running
/// score after the title points, and the final score. Always true when the languages clash,
/// since then nothing is added up.
pub open spec fn score_fits(
    pref_lang: Option<Seq<char>>,
    pref_title: Option<Seq<char>>,
    cand_lang: Option<Seq<char>>,
    cand_title: Option<Seq<char>>,
) -> bool {
    match track_score(pref_lang, pref_title, cand_lang, cand_title) {
        None => true,
        Some(total) => {
            let lang_points: int = if lang_opt(pref_lang) is Some && lang_opt(cand_lang) is Some {
                LANG_MATCH as int
            } else {
                0
            };
            let pt = trim(opt_text(pref_title));
            let ct = trim(opt_text(cand_title));
            &&& TOKEN_OVERLAP * token_overlap(pt, ct) <= i32::MAX
            &&& lang_points + title_points(pt, ct) <= i32::MAX
            &&& total <= i32::MAX
        },
    }
}

/// [`score_fits`] for a candidate, by its fields.
pub open spec fn candidate_score_fits(
    pref_lang: Option<Seq<char>>,
    pref_title: Option<Seq<char>>,
    t: TrackCandidate,
) -> bool {
    score_fits(pref_lang, pref_title, t.lang.deep_view(), t.title.deep_view())
}

/// The score of a candidate, by its fields.
pub open spec fn candidate_score(
    pref_lang: Option<Seq<char>>,
    pref_title: Option<Seq<char>>,
    t: TrackCandidate,
) -> Option<int> {
    track_score(pref_lang, pref_title, t.lang.deep_view(), t.title.deep_view())
}

/// The candidate may be picked: it has a score of at least [`MIN_SCORE`].
pub open spec fn eligible(
    pref_lang: Option<Seq<char>>,
    pref_title: Option<Seq<char>>,
    t: TrackCandidate,
) -> bool {
    candidate_score(pref_lang, pref_title, t) matches Some(s) && s >= MIN_SCORE
}

/// The best eligible track among the first `n`: the highest score, the earliest on ties.
pub open spec fn best_upto(
    tracks: Seq<TrackCandidate>,
    pref_lang: Option<Seq<char>>,
    pref_title: Option<Seq<char>>,
    n: int,
) -> Option<(i64, int)>
    decreases n,
{
    if n <= 0 {
        None
    } else {
        let prev = best_upto(tracks, pref_lang, pref_title, n - 1);
        let t = tracks[n - 1];
        if eligible(pref_lang, pref_title, t) && (prev is None || candidate_score(
            pref_lang,
            pref_title,
            t,
        ).unwrap() > prev.unwrap().1) {
            Some((t.id, candidate_score(pref_lang, pref_title, t).unwrap()))
        } else {
            prev
        }
    }
}

/// The id of the closest track, if any track is eligible.
pub open spec fn closest_track(
    tracks: Seq<TrackCandidate>,
    pref_lang: Option<Seq<char>>,
    pref_title: Option<Seq<char>>,
) -> Option<i64> {
    match best_upto(tracks, pref_lang, pref_title, tracks.len() as int) {
        Some(b) => Some(b.0),
        None => None,
    }
}

// ---------------------------------------------------------------------------------------------
// Lemmas
// ---------------------------------------------------------------------------------------------

proof fn lemma_trim_start_len(s: Seq<char>)
    ensures
        trim_start(s).len() <= s.len(),
    decreases s.len(),
{
    if s.len() > 0 && is_space(s[0]) {
        lemma_trim_start_len(s.drop_first());
    }
}

proof fn lemma_trim_end_len(s: Seq<char>)
    ensures
        trim_end(s).len() <= s.len(),
    decreases s.len(),
{
    if s.len() > 0 && is_space(s.last()) {
        lemma_trim_end_len(s.drop_last());
    }
}

proof fn lemma_long_words_len(ws: Seq<Seq<char>>)
    ensures
        long_words(ws).len() <= ws.len(),
    decreases ws.len(),
{
    if ws.len() > 0 {
        lemma_long_words_len(ws.drop_last());
    }
}

proof fn lemma_shared_count_le(p: Seq<Seq<char>>, c: Seq<Seq<char>>)
    ensures
        shared_count(p, c) <= p.len(),
    decreases p.len(),
{
    if p.len() > 0 {
        lemma_shared_count_le(p.drop_last(), c);
    }
}

/// The token bonus of a title is bounded by the title's length.
proof fn lemma_tokens_bounded(title: Seq<char>, c: Seq<Seq<char>>)
    ensures
        shared_count(title_tokens(trim(title)), c) <= title.len(),
{
    let t = trim(title);
    lemma_trim_start_len(title);
    lemma_trim_end_len(trim_start(title));
    lemma_words_len_le(lower(t), sep_fn(Separator::NonAlnum));
    lemma_long_words_len(key_words(t));
    lemma_shared_count_le(title_tokens(t), c);
}

/// Every candidate can be scored against a preferred title of at most [`SAFE_TITLE_CHARS`]
/// characters without leaving `i32`.
pub proof fn lemma_short_title_fits(
    pref_lang: Option<Seq<char>>,
    pref_title: Option<Seq<char>>,
    t: TrackCandidate,
)
    requires
        opt_text(pref_title).len() <= SAFE_TITLE_CHARS,
    ensures
        candidate_score_fits(pref_lang, pref_title, t),
{
    let pt = trim(opt_text(pref_title));
    let ct = trim(opt_text(t.title.deep_view()));
    lemma_tokens_bounded(opt_text(pref_title), title_tokens(ct));
}

// ---------------------------------------------------------------------------------------------
// Executable functions
// ---------------------------------------------------------------------------------------------

fn alias_code(k: &Vec<char>) -> (r: Option<&'static str>)
    ensures
        match lang_alias(k@) {
            Some(code) => r is Some && r->0@ == code,
            None => r is None,
        },
{
    if eq_str(k, "jpn") || eq_str(k, "jp") || eq_str(k, "japanese") || eq_str(k, "ja") {
        Some("ja")
    } else if eq_str(k, "eng") || eq_str(k, "en") || eq_str(k, "english") {
        Some("en")
    } else if eq_str(k, "spa") || eq_str(k, "es") || eq_str(k, "spanish") || eq_str(
        k,
        "castilian",
    ) {
        Some("es")
    } else if eq_str(k, "por") || eq_str(k, "pt") || eq_str(k, "portuguese") {
        Some("pt")
    } else if eq_str(k, "fre") || eq_str(k, "fra") || eq_str(k, "fr") || eq_str(k, "french") {
        Some("fr")
    } else if eq_str(k, "ger") || eq_str(k, "deu") || eq_str(k, "de") || eq_str(k, "german") {
        Some("de")
    } else if eq_str(k, "ita") || eq_str(k, "it") || eq_str(k, "italian") {
        Some("it")
    } else if eq_str(k, "kor") || eq_str(k, "ko") || eq_str(k, "korean") {
        Some("ko")
    } else if eq_str(k, "chi") || eq_str(k, "zho") || eq_str(k, "zh") || eq_str(k, "chinese")
        || eq_str(k, "cmn") || eq_str(k, "yue") {
        Some("zh")
    } else if eq_str(k, "rus") || eq_str(k, "ru") || eq_str(k, "russian") {
        Some("ru")
    } else if eq_str(k, "ara") || eq_str(k, "ar") || eq_str(k, "arabic") {
        Some("ar")
    } else if eq_str(k, "hin") || eq_str(k, "hi") || eq_str(k, "hindi") {
        Some("hi")
    } else if eq_str(k, "tha") || eq_str(k, "th") || eq_str(k, "thai") {
        Some("th")
    } else if eq_str(k, "vie") || eq_str(k, "vi") || eq_str(k, "vietnamese") {
        Some("vi")
    } else if eq_str(k, "pol") || eq_str(k, "pl") || eq_str(k, "polish") {
        Some("pl")
    } else if eq_str(k, "und") || eq_str(k, "unknown") || k.len() == 0 {
        proof {
            reveal_strlit("");
        }
        Some("")
    } else {
        None
    }
}

fn lang_code_chars(raw: &Vec<char>) -> (r: Vec<char>)
    ensures
        r@ == lang_code(raw@),
{
    let k = lower_chars(&trim_chars(raw));
    match alias_code(&k) {
        Some(code) => chars_of(code),
        None => k,
    }
}

/// Canonical form of a language tag (`"jpn"`, `"Japanese"` → `"ja"`; `"und"` → `""`).
pub fn normalize_lang(lang: &str) -> (r: String)
    ensures
        r@ == lang_code(lang@),
{
    let raw = chars_of(lang);
    string_of(&lang_code_chars(&raw))
}

proof fn lemma_alias_code_canonical(k: Seq<char>)
    requires
        lang_alias(k) is Some,
    ensures
        lower(trim(lang_alias(k)->0)) == lang_alias(k)->0,
        trim(lang_alias(k)->0) == lang_alias(k)->0,
        forall|i: int|
            0 <= i < lang_alias(k)->0.len() ==> !crate::text::is_ascii_upper(
                #[trigger] lang_alias(k)->0[i],
            ),
        lang_alias(lang_alias(k)->0) == lang_alias(k),
{
    let code = lang_alias(k)->0;
    reveal_strlit("jpn");
    reveal_strlit("jp");
    reveal_strlit("japanese");
    reveal_strlit("ja");
    reveal_strlit("eng");
    reveal_strlit("en");
    reveal_strlit("english");
    reveal_strlit("spa");
    reveal_strlit("es");
    reveal_strlit("spanish");
    reveal_strlit("castilian");
    reveal_strlit("por");
    reveal_strlit("pt");
    reveal_strlit("portuguese");
    reveal_strlit("fre");
    reveal_strlit("fra");
    reveal_strlit("fr");
    reveal_strlit("french");
    reveal_strlit("ger");
    reveal_strlit("deu");
    reveal_strlit("de");
    reveal_strlit("german");
    reveal_strlit("ita");
    reveal_strlit("it");
    reveal_strlit("italian");
    reveal_strlit("kor");
    reveal_strlit("ko");
    reveal_strlit("korean");
    reveal_strlit("chi");
    reveal_strlit("zho");
    reveal_strlit("zh");
    reveal_strlit("chinese");
    reveal_strlit("cmn");
    reveal_strlit("yue");
    reveal_strlit("rus");
    reveal_strlit("ru");
    reveal_strlit("russian");
    reveal_strlit("ara");
    reveal_strlit("ar");
    reveal_strlit("arabic");
    reveal_strlit("hin");
    reveal_strlit("hi");
    reveal_strlit("hindi");
    reveal_strlit("tha");
    reveal_strlit("th");
    reveal_strlit("thai");
    reveal_strlit("vie");
    reveal_strlit("vi");
    reveal_strlit("vietnamese");
    reveal_strlit("pol");
    reveal_strlit("pl");
    reveal_strlit("polish");
    reveal_strlit("und");
    reveal_strlit("unknown");
    if code.len() > 0 {
        assert(!is_space(code[0]) && !is_space(code.last()));
    }
    assert(trim_start(code) == code);
    assert(trim_end(code) == code);
    assert(lower(code) =~= code);
    assert forall|i: int| 0 <= i < code.len() implies !crate::text::is_ascii_upper(
        #[trigger] code[i],
    ) by {}
}

/// A normalized language tag is trimmed, holds no ASCII upper-case letter, and normalizing it
/// again leaves it unchanged.
pub proof fn lemma_lang_code_idempotent(raw: Seq<char>)
    ensures
        lang_code(lang_code(raw)) == lang_code(raw),
        trim(lang_code(raw)) == lang_code(raw),
        forall|i: int|
            0 <= i < lang_code(raw).len() ==> !crate::text::is_ascii_upper(#[trigger] lang_code(raw)[i]),
{
    let k = lower(trim(raw));
    if lang_alias(k) is Some {
        lemma_alias_code_canonical(k);
    } else {
        lemma_lower_trim_stable(raw);
    }
}

/// A title key holds only lower-case ASCII letters, digits and single spaces between words, with
/// no space at either end; its space-separated words are the key words of the title (its runs of
/// ASCII letters and digits, lower-cased); and the key of a key is the key itself.
pub proof fn lemma_title_key_shape(t: Seq<char>)
    ensures
        forall|i: int|
            0 <= i < title_key_text(t).len() ==> ((crate::text::is_ascii_alnum(
                #[trigger] title_key_text(t)[i],
            ) && !crate::text::is_ascii_upper(title_key_text(t)[i])) || title_key_text(t)[i] == ' '),
        title_key_text(t).len() > 0 ==> title_key_text(t)[0] != ' ' && title_key_text(t).last()
            != ' ',
        forall|i: int|
            0 <= i < title_key_text(t).len() - 1 && #[trigger] title_key_text(t)[i] == ' '
                ==> title_key_text(t)[i + 1] != ' ',
        words(title_key_text(t), sep_fn(Separator::Space)) == key_words(t),
        title_key_text(title_key_text(t)) == title_key_text(t),
{
    let l = lower(t);
    let ws = key_words(t);
    let nonalnum = sep_fn(Separator::NonAlnum);
    let space = sep_fn(Separator::Space);
    let notupper = |c: char| !crate::text::is_ascii_upper(c);
    let keep = |c: char|
        (crate::text::is_ascii_alnum(c) && !crate::text::is_ascii_upper(c)) || c == ' ';
    assert forall|i: int| 0 <= i < l.len() implies notupper(#[trigger] l[i]) by {
        crate::text::lemma_ascii_lower_char(t[i]);
    }
    crate::text::lemma_words_chars(l, nonalnum, notupper);
    lemma_words_shape(l, nonalnum);
    assert forall|k: int, j: int| 0 <= k < ws.len() && 0 <= j < ws[k].len() implies {
        &&& crate::text::is_ascii_alnum(#[trigger] ws[k][j])
        &&& !crate::text::is_ascii_upper(ws[k][j])
        &&& ws[k][j] != ' '
        &&& !space(ws[k][j])
        &&& !nonalnum(ws[k][j])
        &&& keep(ws[k][j])
    } by {
        assert(!nonalnum(ws[k][j]));
        assert(notupper(ws[k][j]));
    }
    crate::text::lemma_join_chars(ws, ' ', keep);
    crate::text::lemma_join_spacing(ws, ' ');
    crate::text::lemma_words_of_join(ws, space, ' ');
    crate::text::lemma_words_of_join(ws, nonalnum, ' ');
    let r = title_key_text(t);
    assert(r == join(ws, seq![' ']));
    assert forall|i: int| 0 <= i < r.len() implies #[trigger] lower(r)[i] == r[i] by {
        assert(keep(r[i]));
    }
    assert(lower(r) =~= r);
}

fn opt_chars(o: Option<&str>) -> (r: Vec<char>)
    ensures
        r@ == opt_text(o.deep_view()),
{
    match o {
        Some(s) => chars_of(s),
        None => Vec::new(),
    }
}

fn opt_string_chars(o: &Option<String>) -> (r: Vec<char>)
    ensures
        r@ == opt_text(o.deep_view()),
{
    match o {
        Some(s) => chars_of(s.as_str()),
        None => Vec::new(),
    }
}

fn lang_opt_chars(raw: &Vec<char>) -> (r: Option<Vec<char>>)
    ensures
        match lang_opt(Some(raw@)) {
            Some(v) => r is Some && r->0@ == v,
            None => r is None,
        },
{
    let v = lang_code_chars(raw);
    if v.len() == 0 {
        None
    } else {
        Some(v)
    }
}

fn key_words_of(title: &Vec<char>) -> (r: Vec<Vec<char>>)
    ensures
        vviews(r@) == key_words(title@),
{
    let low = lower_chars(title);
    split_words(&low, Separator::NonAlnum)
}

/// The comparison key of a title: ASCII letters and digits, lower-cased, with every other run
/// of characters collapsed to a single space and none at either end.
pub fn title_key(title: &str) -> (r: String)
    ensures
        r@ == title_key_text(title@),
{
    let t = chars_of(title);
    let ws = key_words_of(&t);
    let mut sep: Vec<char> = Vec::new();
    sep.push(' ');
    assert(sep@ =~= seq![' ']);
    let joined = join_chars(&ws, &sep);
    string_of(&joined)
}

fn key_of(title: &Vec<char>) -> (r: Vec<char>)
    ensures
        r@ == title_key_text(title@),
{
    let ws = key_words_of(title);
    let mut sep: Vec<char> = Vec::new();
    sep.push(' ');
    assert(sep@ =~= seq![' ']);
    join_chars(&ws, &sep)
}

fn is_signs_word_exec(w: &Vec<char>) -> (r: bool)
    ensures
        r == is_signs_word(w@),
{
    eq_str(w, "signs") || eq_str(w, "sign") || eq_str(w, "songs") || eq_str(w, "song") || eq_str(
        w,
        "forced",
    )
}

fn signs_like_chars(title: &Vec<char>) -> (r: bool)
    ensures
        r == signs_like(title@),
{
    let ws = key_words_of(title);
    let mut i: usize = 0;
    while i < ws.len()
        invariant
            i <= ws.len(),
            vviews(ws@) == key_words(title@),
            forall|k: int| 0 <= k < i ==> !is_signs_word(#[trigger] key_words(title@)[k]),
        decreases ws.len() - i,
    {
        if is_signs_word_exec(&ws[i]) {
            assert(key_words(title@)[i as int] == ws@[i as int]@);
            return true;
        }
        i = i + 1;
    }
    false
}

/// Whether a track title marks a signs/songs/forced track.
pub fn is_signs_like(title: &str) -> (r: bool)
    ensures
        r == signs_like(title@),
{
    let t = chars_of(title);
    signs_like_chars(&t)
}

fn tokens_of(title: &Vec<char>) -> (r: Vec<Vec<char>>)
    ensures
        vviews(r@) == title_tokens(title@),
{
    let ws = key_words_of(title);
    let mut r: Vec<Vec<char>> = Vec::new();
    let mut i: usize = 0;
    while i < ws.len()
        invariant
            i <= ws.len(),
            vviews(ws@) == key_words(title@),
            vviews(r@) == long_words(vviews(ws@).take(i as int)),
        decreases ws.len() - i,
    {
        let ghost before = vviews(r@);
        let ghost pre = vviews(ws@).take(i as int);
        let ghost now = vviews(ws@).take(i + 1);
        assert(now.drop_last() =~= pre);
        assert(now.last() == ws@[i as int]@);
        if ws[i].len() > 1 {
            let w = slice_chars(&ws[i], 0, ws[i].len());
            assert(w@ =~= ws@[i as int]@);
            r.push(w);
            assert(vviews(r@) =~= before.push(ws@[i as int]@));
        }
        i = i + 1;
    }
    assert(vviews(ws@).take(ws.len() as int) =~= vviews(ws@));
    r
}

/// The tokens of a title: its key words longer than one character.
fn tokens(title: &str) -> (r: Vec<String>)
    ensures
        r@.map_values(|s: String| s@) == title_tokens(title@),
{
    let t = chars_of(title);
    let ts = tokens_of(&t);
    let mut r: Vec<String> = Vec::new();
    let mut i: usize = 0;
    while i < ts.len()
        invariant
            i <= ts.len(),
            r@.map_values(|s: String| s@) == vviews(ts@).take(i as int),
        decreases ts.len() - i,
    {
        let s = string_of(&ts[i]);
        let ghost before = r@.map_values(|s: String| s@);
        r.push(s);
        assert(r@.map_values(|s: String| s@) =~= before.push(ts@[i as int]@));
        assert(vviews(ts@).take(i + 1) =~= vviews(ts@).take(i as int).push(ts@[i as int]@));
        i = i + 1;
    }
    assert(vviews(ts@).take(ts.len() as int) =~= vviews(ts@));
    r
}

fn contains_word(ws: &Vec<Vec<char>>, w: &Vec<char>) -> (r: bool)
    ensures
        r == vviews(ws@).contains(w@),
{
    let mut i: usize = 0;
    while i < ws.len()
        invariant
            i <= ws.len(),
            forall|k: int| 0 <= k < i ==> vviews(ws@)[k] != w@,
        decreases ws.len() - i,
    {
        if eq_chars(&ws[i], w) {
            assert(vviews(ws@)[i as int] == w@);
            return true;
        }
        i = i + 1;
    }
    false
}

fn shared_count_exec(p: &Vec<Vec<char>>, c: &Vec<Vec<char>>) -> (r: usize)
    ensures
        r == shared_count(vviews(p@), vviews(c@)),
{
    let mut n: usize = 0;
    let mut i: usize = 0;
    while i < p.len()
        invariant
            i <= p.len(),
            n == shared_count(vviews(p@).take(i as int), vviews(c@)),
            n <= i,
        decreases p.len() - i,
    {
        let ghost now = vviews(p@).take(i + 1);
        assert(now.drop_last() =~= vviews(p@).take(i as int));
        assert(now.last() == p@[i as int]@);
        if contains_word(c, &p[i]) {
            n = n + 1;
        }
        i = i + 1;
    }
    assert(vviews(p@).take(p.len() as int) =~= vviews(p@));
    n
}

/// Scores a candidate track against the saved language and title; `None` when both sides name
/// a language and they differ.
pub fn score_track(pref_lang: Option<&str>, pref_title: Option<&str>, candidate: &TrackCandidate)
    -> (r: Option<i32>)
    requires
        candidate_score_fits(pref_lang.deep_view(), pref_title.deep_view(), *candidate),
    ensures
        match candidate_score(pref_lang.deep_view(), pref_title.deep_view(), *candidate) {
            Some(s) => r is Some && r->0 == s,
            None => r is None,
        },
{
    let pl_raw = opt_chars(pref_lang);
    let cl_raw = opt_string_chars(&candidate.lang);
    let pl = lang_opt_chars(&pl_raw);
    let cl = lang_opt_chars(&cl_raw);
    let mut both = false;
    match (&pl, &cl) {
        (Some(p), Some(c)) => {
            if !eq_chars(p, c) {
                return None;
            }
            both = true;
        },
        _ => {},
    }
    let mut score: i64 = 0;
    if both {
        score = score + 100;
    }
    let pt_raw = opt_chars(pref_title);
    let ct_raw = opt_string_chars(&candidate.title);
    let pt = trim_chars(&pt_raw);
    let ct = trim_chars(&ct_raw);
    let pk = key_of(&pt);
    let ck = key_of(&ct);
    let ghost title_pts = title_points(pt@, ct@);
    if pk.len() > 0 && ck.len() > 0 {
        if eq_chars(&pk, &ck) {
            score = score + 50;
        } else if contains_chars(&pk, &ck) || contains_chars(&ck, &pk) {
            score = score + 25;
        }
        let ptoks = tokens_of(&pt);
        let ctoks = tokens_of(&ct);
        let overlap = shared_count_exec(&ptoks, &ctoks);
        assert(overlap == token_overlap(pt@, ct@));
        score = score + 5 * (overlap as i64);
    }
    let ps = signs_like_chars(&pt);
    let cs = signs_like_chars(&ct);
    if ps && cs {
        score = score + 20;
    } else if !ps && cs {
        score = score - 40;
    } else if ps && !cs {
        score = score - 20;
    }
    Some(score as i32)
}

/// The id of the track closest to the saved preference: the highest score of at least
/// [`MIN_SCORE`], the earliest track on ties; `None` when no track reaches it.
pub fn pick_closest_track(
    tracks: &[TrackCandidate],
    pref_lang: Option<&str>,
    pref_title: Option<&str>,
) -> (r: Option<i64>)
    requires
        forall|j: int|
            0 <= j < tracks.len() ==> candidate_score_fits(
                pref_lang.deep_view(),
                pref_title.deep_view(),
                #[trigger] tracks[j],
            ),
    ensures
        r == closest_track(tracks@, pref_lang.deep_view(), pref_title.deep_view()),
{
    let ghost pl = pref_lang.deep_view();
    let ghost ptl = pref_title.deep_view();
    let mut best: Option<(i64, i32)> = None;
    let mut i: usize = 0;
    while i < tracks.len()
        invariant
            i <= tracks.len(),
            pl == pref_lang.deep_view(),
            ptl == pref_title.deep_view(),
            forall|j: int|
                0 <= j < tracks.len() ==> candidate_score_fits(pl, ptl, #[trigger] tracks[j]),
            match best_upto(tracks@, pl, ptl, i as int) {
                Some(b) => best is Some && best.unwrap().0 == b.0 && best.unwrap().1 == b.1,
                None => best is None,
            },
        decreases tracks.len() - i,
    {
        let track = &tracks[i];
        match score_track(pref_lang, pref_title, track) {
            Some(score) => {
                if score >= MIN_SCORE {
                    match best {
                        Some((_, best_score)) => {
                            if score > best_score {
                                best = Some((track.id, score));
                            }
                        },
                        None => {
                            best = Some((track.id, score));
                        },
                    }
                }
            },
            None => {},
        }
        i = i + 1;
    }
    match best {
        Some((id, _)) => Some(id),
        None => None,
    }
}

fn empty_to_none(value: &Option<String>) -> (r: Option<String>)
    ensures
        r.deep_view() == (match value.deep_view() {
            Some(raw) => if trim(raw).len() == 0 {
                None
            } else {
                Some(trim(raw))
            },
            None => None,
        }),
{
    match value {
        Some(raw) => {
            let t = trim_chars(&chars_of(raw.as_str()));
            if t.len() == 0 {
                None
            } else {
                Some(string_of(&t))
            }
        },
        None => None,
    }
}

/// The first track of `kind` that the player reports as selected.
pub open spec fn first_selected(tracks: Seq<MpvTrack>, kind: Seq<char>) -> Option<int> {
    if exists|i: int| 0 <= i < tracks.len() && tracks[i].kind@ == kind && tracks[i].selected {
        Some(
            choose|i: int|
                0 <= i < tracks.len() && tracks[i].kind@ == kind && tracks[i].selected && forall|
                    j: int,
                |
                    0 <= j < i ==> !(tracks[j].kind@ == kind && tracks[j].selected),
        )
    } else {
        None
    }
}

/// An optional field with surrounding whitespace trimmed; absent when it is empty.
pub open spec fn trimmed_opt(value: Option<Seq<char>>) -> Option<Seq<char>> {
    match value {
        Some(raw) => if trim(raw).len() == 0 {
            None
        } else {
            Some(trim(raw))
        },
        None => None,
    }
}

fn find_selected(tracks: &[MpvTrack], kind: &str) -> (r: Option<usize>)
    ensures
        match r {
            Some(i) => i < tracks.len() && tracks@[i as int].kind@ == kind@
                && tracks@[i as int].selected && forall|j: int|
                0 <= j < i ==> !(tracks@[j].kind@ == kind@ && tracks@[j].selected),
            None => forall|j: int|
                0 <= j < tracks.len() ==> !(tracks@[j].kind@ == kind@ && tracks@[j].selected),
        },
{
    let k = chars_of(kind);
    let mut i: usize = 0;
    while i < tracks.len()
        invariant
            i <= tracks.len(),
            k@ == kind@,
            forall|j: int|
                0 <= j < i ==> !(tracks@[j].kind@ == kind@ && tracks@[j].selected),
        decreases tracks.len() - i,
    {
        let tk = chars_of(tracks[i].kind.as_str());
        if tracks[i].selected && eq_chars(&tk, &k) {
            return Some(i);
        }
        i = i + 1;
    }
    None
}

/// What is currently selected in the player, as a preference to save: the first selected audio
/// and subtitle tracks (`"audio"`, `"sub"`), subtitles off when none is selected, and the
/// external subtitle file when the selected subtitle is external.
pub fn identity_from_tracks(tracks: &[MpvTrack]) -> (r: TrackPref)
    ensures
        ({
            let a = first_selected(tracks@, "audio"@);
            let s = first_selected(tracks@, "sub"@);
            &&& r.audio_lang.deep_view() == (match a {
                Some(i) => trimmed_opt(tracks@[i].lang.deep_view()),
                None => None,
            })
            &&& r.audio_title.deep_view() == (match a {
                Some(i) => trimmed_opt(tracks@[i].title.deep_view()),
                None => None,
            })
            &&& r.subtitle_off == (s is None)
            &&& r.subtitle_lang.deep_view() == (match s {
                Some(i) => trimmed_opt(tracks@[i].lang.deep_view()),
                None => None,
            })
            &&& r.subtitle_title.deep_view() == (match s {
                Some(i) => trimmed_opt(tracks@[i].title.deep_view()),
                None => None,
            })
            &&& r.subtitle_external_path.deep_view() == (match s {
                Some(i) => if tracks@[i].external {
                    trimmed_opt(tracks@[i].external_filename.deep_view())
                } else {
                    None
                },
                None => None,
            })
        }),
{
    let audio = find_selected(tracks, "audio");
    let sub = find_selected(tracks, "sub");
    proof {
        lemma_first_selected(tracks@, "audio"@, audio);
        lemma_first_selected(tracks@, "sub"@, sub);
    }
    let (audio_lang, audio_title) = match audio {
        Some(i) => (empty_to_none(&tracks[i].lang), empty_to_none(&tracks[i].title)),
        None => (None, None),
    };
    let (subtitle_lang, subtitle_title, subtitle_external_path) = match sub {
        Some(i) => (
            empty_to_none(&tracks[i].lang),
            empty_to_none(&tracks[i].title),
            if tracks[i].external {
                empty_to_none(&tracks[i].external_filename)
            } else {
                None
            },
        ),
        None => (None, None, None),
    };
    TrackPref {
        audio_lang,
        audio_title,
        subtitle_off: sub.is_none(),
        subtitle_lang,
        subtitle_title,
        subtitle_external_path,
    }
}

proof fn lemma_first_selected(tracks: Seq<MpvTrack>, kind: Seq<char>, r: Option<usize>)
    requires
        match r {
            Some(i) => i < tracks.len() && tracks[i as int].kind@ == kind && tracks[i as int].selected
                && forall|j: int| 0 <= j < i ==> !(tracks[j].kind@ == kind && tracks[j].selected),
            None => forall|j: int|
                0 <= j < tracks.len() ==> !(tracks[j].kind@ == kind && tracks[j].selected),
        },
    ensures
        first_selected(tracks, kind) == (match r {
            Some(i) => Some(i as int),
            None => None::<int>,
        }),
{
    if let Some(i) = r {
        let c = choose|c: int|
            0 <= c < tracks.len() && tracks[c].kind@ == kind && tracks[c].selected && forall|j: int|
                0 <= j < c ==> !(tracks[j].kind@ == kind && tracks[j].selected);
        assert(0 <= c < tracks.len() && tracks[c].kind@ == kind && tracks[c].selected);
        if c < i {
        } else if c > i {
            assert(!(tracks[i as int].kind@ == kind && tracks[i as int].selected));
        }
    }
}

/// The tracks of one kind, in order.
pub open spec fn of_kind(tracks: Seq<MpvTrack>, kind: Seq<char>) -> Seq<MpvTrack>
    decreases tracks.len(),
{
    if tracks.len() == 0 {
        Seq::empty()
    } else if tracks.last().kind@ == kind {
        of_kind(tracks.drop_last(), kind).push(tracks.last())
    } else {
        of_kind(tracks.drop_last(), kind)
    }
}

/// The candidate a track offers to the matcher.
pub open spec fn as_candidate(c: TrackCandidate, t: MpvTrack) -> bool {
    &&& c.id == t.id
    &&& c.lang.deep_view() == t.lang.deep_view()
    &&& c.title.deep_view() == t.title.deep_view()
}

/// The candidates of one kind (`"audio"` or `"sub"`), in track order.
pub fn candidates_of_kind(tracks: &[MpvTrack], kind: &str) -> (r: Vec<TrackCandidate>)
    ensures
        r@.len() == of_kind(tracks@, kind@).len(),
        forall|i: int| 0 <= i < r@.len() ==> as_candidate(r@[i], #[trigger] of_kind(tracks@, kind@)[i]),
{
    let k = chars_of(kind);
    let mut r: Vec<TrackCandidate> = Vec::new();
    let mut i: usize = 0;
    while i < tracks.len()
        invariant
            i <= tracks.len(),
            k@ == kind@,
            r@.len() == of_kind(tracks@.take(i as int), kind@).len(),
            forall|j: int|
                0 <= j < r@.len() ==> as_candidate(r@[j], #[trigger] of_kind(tracks@.take(i as int), kind@)[j]),
        decreases tracks.len() - i,
    {
        let ghost pre = tracks@.take(i as int);
        let ghost now = tracks@.take(i + 1);
        assert(now.drop_last() =~= pre);
        assert(now.last() == tracks@[i as int]);
        let tk = chars_of(tracks[i].kind.as_str());
        if eq_chars(&tk, &k) {
            let lang = match &tracks[i].lang {
                Some(s) => Some(string_from(s.as_str())),
                None => None,
            };
            let title = match &tracks[i].title {
                Some(s) => Some(string_from(s.as_str())),
                None => None,
            };
            r.push(TrackCandidate { id: tracks[i].id, lang, title });
        }
        i = i + 1;
    }
    assert(tracks@.take(tracks.len() as int) =~= tracks@);
    r
}


/// The score of an eligible candidate.
pub open spec fn score_of(
    pref_lang: Option<Seq<char>>,
    pref_title: Option<Seq<char>>,
    t: TrackCandidate,
) -> int {
    candidate_score(pref_lang, pref_title, t).unwrap()
}

/// `k` is the pick among the first `n` tracks: eligible, no eligible track scores higher, and
/// every earlier eligible track scores lower.
pub open spec fn is_pick_upto(
    tracks: Seq<TrackCandidate>,
    pref_lang: Option<Seq<char>>,
    pref_title: Option<Seq<char>>,
    n: int,
    k: int,
) -> bool {
    &&& 0 <= k < n
    &&& eligible(pref_lang, pref_title, tracks[k])
    &&& forall|j: int|
        0 <= j < n && eligible(pref_lang, pref_title, #[trigger] tracks[j]) ==> score_of(
            pref_lang,
            pref_title,
            tracks[j],
        ) <= score_of(pref_lang, pref_title, tracks[k])
    &&& forall|j: int|
        0 <= j < k && eligible(pref_lang, pref_title, #[trigger] tracks[j]) ==> score_of(
            pref_lang,
            pref_title,
            tracks[j],
        ) < score_of(pref_lang, pref_title, tracks[k])
}

proof fn lemma_best_upto(
    tracks: Seq<TrackCandidate>,
    pref_lang: Option<Seq<char>>,
    pref_title: Option<Seq<char>>,
    n: int,
)
    requires
        0 <= n <= tracks.len(),
    ensures
        match best_upto(tracks, pref_lang, pref_title, n) {
            Some(b) => exists|k: int|
                is_pick_upto(tracks, pref_lang, pref_title, n, k) && #[trigger] tracks[k].id == b.0
                    && b.1 == score_of(pref_lang, pref_title, tracks[k]),
            None => forall|j: int| 0 <= j < n ==> !eligible(pref_lang, pref_title, #[trigger] tracks[j]),
        },
    decreases n,
{
    if n > 0 {
        lemma_best_upto(tracks, pref_lang, pref_title, n - 1);
        let prev = best_upto(tracks, pref_lang, pref_title, n - 1);
        let t = tracks[n - 1];
        if eligible(pref_lang, pref_title, t) && (prev is None || score_of(pref_lang, pref_title, t)
            > prev.unwrap().1) {
            assert(tracks[n - 1].id == t.id);
            if prev is Some {
                let k = choose|k: int|
                    is_pick_upto(tracks, pref_lang, pref_title, n - 1, k) && #[trigger] tracks[k].id
                        == prev.unwrap().0 && prev.unwrap().1 == score_of(pref_lang, pref_title, tracks[k]);
                assert(is_pick_upto(tracks, pref_lang, pref_title, n, n - 1));
            } else {
                assert(is_pick_upto(tracks, pref_lang, pref_title, n, n - 1));
            }
        } else if prev is Some {
            let k = choose|k: int|
                is_pick_upto(tracks, pref_lang, pref_title, n - 1, k) && #[trigger] tracks[k].id
                    == prev.unwrap().0 && prev.unwrap().1 == score_of(pref_lang, pref_title, tracks[k]);
            assert(is_pick_upto(tracks, pref_lang, pref_title, n, k));
        }
    }
}

/// The closest track is the first among the eligible tracks with the highest score, and there
/// is none exactly when no track reaches the minimum score.
pub proof fn lemma_closest_track_is_best(
    tracks: Seq<TrackCandidate>,
    pref_lang: Option<Seq<char>>,
    pref_title: Option<Seq<char>>,
)
    ensures
        closest_track(tracks, pref_lang, pref_title) is None <==> forall|j: int|
            0 <= j < tracks.len() ==> !eligible(pref_lang, pref_title, #[trigger] tracks[j]),
        closest_track(tracks, pref_lang, pref_title) matches Some(id) ==> exists|k: int|
            is_pick_upto(tracks, pref_lang, pref_title, tracks.len() as int, k)
                && #[trigger] tracks[k].id == id,
{
    lemma_best_upto(tracks, pref_lang, pref_title, tracks.len() as int);
    if closest_track(tracks, pref_lang, pref_title) is Some {
        let b = best_upto(tracks, pref_lang, pref_title, tracks.len() as int).unwrap();
        let k = choose|k: int|
            is_pick_upto(tracks, pref_lang, pref_title, tracks.len() as int, k) && #[trigger] tracks[k].id
                == b.0 && b.1 == score_of(pref_lang, pref_title, tracks[k]);
        assert(!eligible(pref_lang, pref_title, tracks[k]) ==> false);
    }
}

/// A track whose known language differs from the saved known language is never picked.
pub proof fn lemma_never_crosses_languages(
    tracks: Seq<TrackCandidate>,
    pref_lang: Option<Seq<char>>,
    pref_title: Option<Seq<char>>,
    k: int,
)
    requires
        0 <= k < tracks.len(),
        lang_opt(pref_lang) is Some,
        lang_opt(tracks[k].lang.deep_view()) is Some,
        lang_opt(pref_lang) != lang_opt(tracks[k].lang.deep_view()),
    ensures
        !eligible(pref_lang, pref_title, tracks[k]),
        closest_track(tracks, pref_lang, pref_title) matches Some(id) ==> exists|j: int|
            0 <= j < tracks.len() && j != k && #[trigger] tracks[j].id == id,
{
    lemma_closest_track_is_best(tracks, pref_lang, pref_title);
}

} // verus!
