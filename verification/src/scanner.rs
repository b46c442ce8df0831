//! Video file recognition and title normalization used when scanning root folders.
use vstd::prelude::*;

use crate::paths::{components, file_name_chars, file_name_text, path_starts_with};
use crate::patterns::{
    debug_quoted, debug_text, regex_compiles, regex_error_text, regex_indexed_group,
    regex_matches, regex_named_group, CompiledPattern,
};
use crate::text::{
    append_str, chars_of, eq_chars, join, join_chars, lower, lower_chars, replace_char,
    replace_chars, sep_fn, slice_chars, split_words, string_from, string_of, vviews, words,
    Separator,
};

verus! {

/// A filename detection rule, as stored.
pub struct DetectionRule {
    pub detection_regex: String,
    pub title_regex: String,
}

/// A video file that no enabled rule recognized.
pub struct UnmatchedFile {
    pub path: String,
    pub relative_path: String,
    pub file_name: String,
    pub reason: String,
}

/// The extensions of the video files the library picks up.
pub open spec fn video_extensions() -> Seq<Seq<char>> {
    seq![
        "mkv"@,
        "mp4"@,
        "m4v"@,
        "mov"@,
        "avi"@,
        "wmv"@,
        "flv"@,
        "webm"@,
        "ts"@,
        "m2ts"@,
        "mts"@,
        "ogv"@,
        "ogm"@,
        "vob"@,
        "3gp"@,
        "rm"@,
        "rmvb"@,
        "mpg"@,
        "mpeg"@,
    ]
}

/// The video extensions, in order.
pub fn video_extension_list() -> (r: Vec<&'static str>)
    ensures
        r@.map_values(|s: &str| s@) == video_extensions(),
{
    let mut v: Vec<&'static str> = Vec::new();
    v.push("mkv");
    v.push("mp4");
    v.push("m4v");
    v.push("mov");
    v.push("avi");
    v.push("wmv");
    v.push("flv");
    v.push("webm");
    v.push("ts");
    v.push("m2ts");
    v.push("mts");
    v.push("ogv");
    v.push("ogm");
    v.push("vob");
    v.push("3gp");
    v.push("rm");
    v.push("rmvb");
    v.push("mpg");
    v.push("mpeg");
    assert(v@.map_values(|s: &str| s@) =~= video_extensions());
    v
}

/// The index of the last `.` in a text, `-1` when there is none.
pub open spec fn last_dot(s: Seq<char>) -> int
    decreases s.len(),
{
    if s.len() == 0 {
        -1
    } else if s.last() == '.' {
        s.len() - 1
    } else {
        last_dot(s.drop_last())
    }
}

/// `Path::extension`: what follows the last `.` of the file name, when the name has a `.` that
/// is not its first character.
pub open spec fn extension_text(path: Seq<char>) -> Option<Seq<char>> {
    match file_name_text(path) {
        Some(name) => {
            let k = last_dot(name);
            if k <= 0 {
                None
            } else {
                Some(name.subrange(k + 1, name.len() as int))
            }
        },
        None => None,
    }
}

/// A path with a video extension (any ASCII case).
pub open spec fn is_video_path(path: Seq<char>) -> bool {
    match extension_text(path) {
        Some(ext) => video_extensions().contains(lower(ext)),
        None => false,
    }
}

fn last_dot_exec(s: &Vec<char>) -> (r: Option<usize>)
    ensures
        match r {
            Some(k) => k < s.len() && last_dot(s@) == k,
            None => last_dot(s@) == -1,
        },
{
    let mut j = s.len();
    assert(s@.take(j as int) =~= s@);
    while j > 0 && s[j - 1] != '.'
        invariant
            j <= s.len(),
            last_dot(s@) == last_dot(s@.take(j as int)),
        decreases j,
    {
        assert(s@.take(j as int).drop_last() =~= s@.take(j - 1));
        j = j - 1;
    }
    if j == 0 {
        None
    } else {
        assert(s@.take(j as int).last() == s@[j - 1]);
        Some(j - 1)
    }
}

/// `Path::extension`.
pub fn extension_chars(path: &Vec<char>) -> (r: Option<Vec<char>>)
    ensures
        match extension_text(path@) {
            Some(e) => r matches Some(v) && v@ == e,
            None => r is None,
        },
{
    match file_name_chars(path) {
        Some(name) => match last_dot_exec(&name) {
            Some(k) => {
                if k == 0 {
                    None
                } else {
                    Some(slice_chars(&name, k + 1, name.len()))
                }
            },
            None => None,
        },
        None => None,
    }
}

/// Whether a text is one of the video extensions.
pub fn is_video_extension(ext: &Vec<char>) -> (r: bool)
    ensures
        r == video_extensions().contains(ext@),
{
    let list = video_extension_list();
    let ghost names = list@.map_values(|s: &str| s@);
    let mut i: usize = 0;
    while i < list.len()
        invariant
            i <= list.len(),
            names == list@.map_values(|s: &str| s@),
            names == video_extensions(),
            forall|j: int| 0 <= j < i ==> names[j] != ext@,
        decreases list.len() - i,
    {
        let e = chars_of(list[i]);
        if eq_chars(&e, ext) {
            assert(names[i as int] == ext@);
            return true;
        }
        i = i + 1;
    }
    false
}

/// Whether a path names a video file by its extension.
pub fn is_video_file(path: &str) -> (r: bool)
    ensures
        r == is_video_path(path@),
{
    let p = chars_of(path);
    match extension_chars(&p) {
        Some(ext) => is_video_extension(&lower_chars(&ext)),
        None => false,
    }
}

/// The grouping key of a title: its whitespace-separated words joined by single spaces,
/// ASCII lower-cased.
pub open spec fn title_group_key(title: Seq<char>) -> Seq<char> {
    lower(join(words(title, sep_fn(Separator::Space)), seq![' ']))
}

pub fn title_key(title: &str) -> (r: String)
    ensures
        r@ == title_group_key(title@),
{
    let t = chars_of(title);
    let ws = split_words(&t, Separator::Space);
    let mut sep: Vec<char> = Vec::new();
    sep.push(' ');
    assert(sep@ =~= seq![' ']);
    let joined = join_chars(&ws, &sep);
    string_of(&lower_chars(&joined))
}

/// A captured title: underscores as spaces, whitespace runs collapsed, no surrounding spaces.
pub open spec fn cleaned_title(raw: Seq<char>) -> Seq<char> {
    join(words(replace_char(raw, '_', ' '), sep_fn(Separator::Space)), seq![' '])
}

pub fn clean_title(raw: &str) -> (r: String)
    ensures
        r@ == cleaned_title(raw@),
{
    let t = replace_chars(&chars_of(raw), '_', ' ');
    let ws = split_words(&t, Separator::Space);
    let mut sep: Vec<char> = Vec::new();
    sep.push(' ');
    assert(sep@ =~= seq![' ']);
    string_of(&join_chars(&ws, &sep))
}

// ---------------------------------------------------------------------------------------------
// Paths the folder watcher reacts to
// ---------------------------------------------------------------------------------------------

/// A file name that embeds a video extension as a download in progress: `.ext.` anywhere, or
/// ending in `.ext.part` or `.ext.tmp`.
pub open spec fn partial_video_name(name: Seq<char>) -> bool {
    exists|i: int|
        0 <= i < video_extensions().len() && {
            let ext = #[trigger] video_extensions()[i];
            ||| crate::text::contains_text(name, "."@ + ext + "."@)
            ||| crate::text::ends_with(name, "."@ + ext + ".part"@)
            ||| crate::text::ends_with(name, "."@ + ext + ".tmp"@)
        }
}

/// The watcher tracks video files and files that look like video downloads in progress.
pub closed spec fn tracked_path(path: Seq<char>) -> bool {
    is_video_path(path) || partial_video_name(
        lower(
            match file_name_text(path) {
                Some(n) => n,
                None => Seq::empty(),
            },
        ),
    )
}

fn dotted(ext: &str, suffix: &str) -> (r: Vec<char>)
    ensures
        r@ == "."@ + ext@ + suffix@,
{
    let mut v = chars_of(".");
    append_str(&mut v, ext);
    append_str(&mut v, suffix);
    v
}

/// Whether the folder watcher reacts to changes of this path.
pub fn should_track_path(path: &str) -> (r: bool)
    ensures
        r == tracked_path(path@),
{
    if is_video_file(path) {
        return true;
    }
    let p = chars_of(path);
    let name = match file_name_chars(&p) {
        Some(n) => lower_chars(&n),
        None => Vec::new(),
    };
    let list = video_extension_list();
    let ghost names = list@.map_values(|s: &str| s@);
    let mut i: usize = 0;
    while i < list.len()
        invariant
            i <= list.len(),
            names == list@.map_values(|s: &str| s@),
            names == video_extensions(),
            name@ == lower(
                match file_name_text(path@) {
                    Some(n) => n,
                    None => Seq::empty(),
                },
            ),
            forall|j: int|
                0 <= j < i ==> !({
                    let ext = #[trigger] video_extensions()[j];
                    ||| crate::text::contains_text(name@, "."@ + ext + "."@)
                    ||| crate::text::ends_with(name@, "."@ + ext + ".part"@)
                    ||| crate::text::ends_with(name@, "."@ + ext + ".tmp"@)
                }),
        decreases list.len() - i,
    {
        let ext = list[i];
        assert(ext@ == video_extensions()[i as int]);
        let a = dotted(ext, ".");
        let b = dotted(ext, ".part");
        let c = dotted(ext, ".tmp");
        if crate::text::contains_chars(&name, &a) || crate::text::ends_with_chars(&name, &b)
            || crate::text::ends_with_chars(&name, &c) {
            return true;
        }
        i = i + 1;
    }
    false
}

// ---------------------------------------------------------------------------------------------
// Detection rules
// ---------------------------------------------------------------------------------------------

/// A detection rule ready to run.
pub struct CompiledRule {
    pub detection: CompiledPattern,
    pub title: CompiledPattern,
}

/// What is wrong with a rule: the first of its two patterns that does not compile.
pub open spec fn rule_problem(rule: DetectionRule) -> Option<Seq<char>> {
    if !regex_compiles(rule.detection_regex@) {
        Some(
            "invalid detection regex "@ + debug_text(rule.detection_regex@) + ": "@
                + regex_error_text(rule.detection_regex@),
        )
    } else if !regex_compiles(rule.title_regex@) {
        Some(
            "invalid title regex "@ + debug_text(rule.title_regex@) + ": "@ + regex_error_text(
                rule.title_regex@,
            ),
        )
    } else {
        None
    }
}

/// The problem of the first faulty rule among the first `n`.
pub open spec fn first_rule_problem(rules: Seq<DetectionRule>, n: int) -> Option<Seq<char>>
    decreases n,
{
    if n <= 0 {
        None
    } else {
        match first_rule_problem(rules, n - 1) {
            Some(m) => Some(m),
            None => rule_problem(rules[n - 1]),
        }
    }
}

proof fn lemma_first_rule_problem_stable(rules: Seq<DetectionRule>, k: int, n: int)
    requires
        0 <= k <= n <= rules.len(),
        first_rule_problem(rules, k) is Some,
    ensures
        first_rule_problem(rules, n) == first_rule_problem(rules, k),
    decreases n - k,
{
    if n > k {
        lemma_first_rule_problem_stable(rules, k, n - 1);
    }
}

/// A compiled rule runs the patterns of a stored rule.
pub open spec fn compiled_from(c: CompiledRule, r: DetectionRule) -> bool {
    c.detection.source() == r.detection_regex@ && c.title.source() == r.title_regex@
}

fn pattern_error(kind: &str, pattern: &String, error: &String) -> (r: String)
    ensures
        r@ == "invalid "@ + kind@ + " regex "@ + debug_text(pattern@) + ": "@ + error@,
{
    let mut v = chars_of("invalid ");
    append_str(&mut v, kind);
    append_str(&mut v, " regex ");
    let quoted = debug_quoted(pattern.as_str());
    append_str(&mut v, quoted.as_str());
    append_str(&mut v, ": ");
    append_str(&mut v, error.as_str());
    string_of(&v)
}

/// Compiles the enabled rules in order; the error names the first pattern that does not
/// compile.
pub fn compile_rules(rules: &[DetectionRule]) -> (r: Result<Vec<CompiledRule>, String>)
    ensures
        match first_rule_problem(rules@, rules@.len() as int) {
            None => r matches Ok(v) && v@.len() == rules@.len() && forall|i: int|
                0 <= i < v@.len() ==> compiled_from(#[trigger] v@[i], rules@[i]),
            Some(m) => r matches Err(e) && e@ == m,
        },
{
    let mut out: Vec<CompiledRule> = Vec::new();
    let mut i: usize = 0;
    while i < rules.len()
        invariant
            i <= rules.len(),
            out@.len() == i,
            first_rule_problem(rules@, i as int) is None,
            forall|k: int| 0 <= k < i ==> compiled_from(#[trigger] out@[k], rules@[k]),
        decreases rules.len() - i,
    {
        let rule = &rules[i];
        proof {
            if rule_problem(rules@[i as int]) is Some {
                assert(first_rule_problem(rules@, i + 1) == rule_problem(rules@[i as int]));
                lemma_first_rule_problem_stable(rules@, i + 1, rules@.len() as int);
            }
        }
        let detection = match CompiledPattern::compile(rule.detection_regex.as_str()) {
            Ok(p) => p,
            Err(e) => {
                proof {
                    reveal_strlit("detection");
                    reveal_strlit("invalid ");
                    reveal_strlit(" regex ");
                    reveal_strlit("invalid detection regex ");
                }
                let msg = pattern_error("detection", &rule.detection_regex, &e);
                assert(msg@ =~= "invalid detection regex "@ + debug_text(rule.detection_regex@)
                    + ": "@ + regex_error_text(rule.detection_regex@));
                return Err(msg);
            },
        };
        let title = match CompiledPattern::compile(rule.title_regex.as_str()) {
            Ok(p) => p,
            Err(e) => {
                proof {
                    reveal_strlit("title");
                    reveal_strlit("invalid ");
                    reveal_strlit(" regex ");
                    reveal_strlit("invalid title regex ");
                }
                let msg = pattern_error("title", &rule.title_regex, &e);
                assert(msg@ =~= "invalid title regex "@ + debug_text(rule.title_regex@) + ": "@
                    + regex_error_text(rule.title_regex@));
                return Err(msg);
            },
        };
        out.push(CompiledRule { detection, title });
        i = i + 1;
    }
    Ok(out)
}

/// The first of two optional texts that is present.
pub open spec fn first_some(a: Option<Seq<char>>, b: Option<Seq<char>>) -> Option<Seq<char>> {
    match a {
        Some(x) => Some(x),
        None => b,
    }
}

/// The raw title a title pattern captures: the `title` group, else group 1.
pub open spec fn captured_title(pattern: Seq<char>, name: Seq<char>) -> Option<Seq<char>> {
    first_some(regex_named_group(pattern, name, "title"@), regex_indexed_group(pattern, name, 1))
}

/// The raw episode number a title pattern captures: the `episode` group, else group 2.
pub open spec fn captured_episode(pattern: Seq<char>, name: Seq<char>) -> Option<Seq<char>> {
    first_some(regex_named_group(pattern, name, "episode"@), regex_indexed_group(pattern, name, 2))
}

/// The patterns of compiled rules, detection first.
pub open spec fn rule_sources(rules: Seq<CompiledRule>) -> Seq<(Seq<char>, Seq<char>)> {
    rules.map_values(|c: CompiledRule| (c.detection.source(), c.title.source()))
}

/// What the rules read from a file name: the first rule whose two patterns both match decides;
/// its cleaned title (which must not be empty, else nothing is detected) and its raw episode
/// number.
pub open spec fn detect_from(rules: Seq<(Seq<char>, Seq<char>)>, name: Seq<char>) -> Option<
    (Seq<char>, Option<Seq<char>>),
>
    decreases rules.len(),
{
    if rules.len() == 0 {
        None
    } else {
        let d = rules[0].0;
        let t = rules[0].1;
        if !regex_matches(d, name) || !regex_matches(t, name) {
            detect_from(rules.drop_first(), name)
        } else {
            match captured_title(t, name) {
                Some(raw) => if cleaned_title(raw).len() > 0 {
                    Some((cleaned_title(raw), captured_episode(t, name)))
                } else {
                    None
                },
                None => None,
            }
        }
    }
}

/// An episode file recognized by a rule. The episode number is kept as captured; it is read as
/// a number where it is stored.
pub struct DetectedEpisode {
    pub path: String,
    pub relative_path: String,
    pub file_name: String,
    pub file_type: String,
    pub title: String,
    pub title_key: String,
    pub episode_text: Option<String>,
    pub size: i64,
}

/// The lower-cased extension of a path, empty when it has none.
pub open spec fn file_type_of(path: Seq<char>) -> Seq<char> {
    match extension_text(path) {
        Some(e) => lower(e),
        None => Seq::empty(),
    }
}

fn group_or(p: &CompiledPattern, text: &str, name: &str, index: usize) -> (r: Option<String>)
    ensures
        r.deep_view() == first_some(
            regex_named_group(p.source(), text@, name@),
            regex_indexed_group(p.source(), text@, index as nat),
        ),
{
    match p.named_group(text, name) {
        Some(g) => Some(g),
        None => p.indexed_group(text, index),
    }
}

/// Runs the rules on one file.
pub fn detect_episode(
    path: &str,
    file_name: &str,
    relative_path: &str,
    size: i64,
    rules: &Vec<CompiledRule>,
) -> (r: Option<DetectedEpisode>)
    ensures
        match detect_from(rule_sources(rules@), file_name@) {
            None => r is None,
            Some(found) => r matches Some(d) && {
                &&& d.title@ == found.0
                &&& d.title_key@ == title_group_key(found.0)
                &&& d.episode_text.deep_view() == found.1
                &&& d.path@ == path@
                &&& d.relative_path@ == relative_path@
                &&& d.file_name@ == file_name@
                &&& d.file_type@ == file_type_of(path@)
                &&& d.size == size
            },
        },
{
    let ghost all = rule_sources(rules@);
    assert(all.skip(0) =~= all);
    let mut i: usize = 0;
    while i < rules.len()
        invariant
            i <= rules.len(),
            all == rule_sources(rules@),
            all.len() == rules@.len(),
            detect_from(all, file_name@) == detect_from(all.skip(i as int), file_name@),
        decreases rules.len() - i,
    {
        let rule = &rules[i];
        assert(all.skip(i as int)[0] == (rule.detection.source(), rule.title.source()));
        assert(all.skip(i as int).drop_first() =~= all.skip(i + 1));
        if !rule.detection.is_match(file_name) || !rule.title.is_match(file_name) {
            i = i + 1;
            continue;
        }
        proof {
            reveal_strlit("title");
            reveal_strlit("episode");
        }
        let raw = match group_or(&rule.title, file_name, "title", 1) {
            Some(t) => t,
            None => {
                return None;
            },
        };
        let title = clean_title(raw.as_str());
        if chars_of(title.as_str()).len() == 0 {
            return None;
        }
        let episode_text = group_or(&rule.title, file_name, "episode", 2);
        let title_key_text = title_key(title.as_str());
        let p = chars_of(path);
        let file_type = match extension_chars(&p) {
            Some(e) => string_of(&lower_chars(&e)),
            None => string_of(&Vec::new()),
        };
        return Some(
            DetectedEpisode {
                path: string_from(path),
                relative_path: string_from(relative_path),
                file_name: string_from(file_name),
                file_type,
                title,
                title_key: title_key_text,
                episode_text,
                size,
            },
        );
    }
    None
}

/// The reason recorded for a video file that no rule recognized.
pub open spec fn unmatched_reason() -> Seq<char> {
    "No enabled regex rule matched this filename."@
}

/// What the scan of a root records for one video file.
pub enum ScannedFile {
    Episode(DetectedEpisode),
    Unmatched(UnmatchedFile),
}

/// How the scan of `root` records the video file at `path` (of `size` bytes): its file name
/// (empty when it has none) and its path relative to the root (with `/` separators; the whole
/// path when it is not under the root), then an episode when a rule recognizes the name, else
/// an unmatched file.
pub fn scan_video_file(root: &str, path: &str, size: i64, rules: &Vec<CompiledRule>) -> (r:
    ScannedFile)
    ensures
        ({
            let name = match file_name_text(path@) {
                Some(n) => n,
                None => Seq::empty(),
            };
            let rel = if path_starts_with(path@, root@) {
                join(components(path@).skip(components(root@).len() as int), seq!['/'])
            } else {
                replace_char(path@, '\\', '/')
            };
            match detect_from(rule_sources(rules@), name) {
                Some(found) => r matches ScannedFile::Episode(d) && d.title@ == found.0
                    && d.title_key@ == title_group_key(found.0) && d.episode_text.deep_view()
                    == found.1 && d.path@ == path@ && d.relative_path@ == rel && d.file_name@
                    == name && d.file_type@ == file_type_of(path@) && d.size == size,
                None => r matches ScannedFile::Unmatched(u) && u.path@ == path@
                    && u.relative_path@ == rel && u.file_name@ == name && u.reason@
                    == unmatched_reason(),
            }
        }),
{
    let p = chars_of(path);
    let name = match file_name_chars(&p) {
        Some(n) => string_of(&n),
        None => string_of(&Vec::new()),
    };
    let rel = crate::library::renamed_relative_path(path, root, path);
    match detect_episode(path, name.as_str(), rel.as_str(), size, rules) {
        Some(d) => ScannedFile::Episode(d),
        None => ScannedFile::Unmatched(
            UnmatchedFile {
                path: string_from(path),
                relative_path: rel,
                file_name: name,
                reason: string_from("No enabled regex rule matched this filename."),
            },
        ),
    }
}

// ---------------------------------------------------------------------------------------------
// Default rules
// ---------------------------------------------------------------------------------------------

/// A detection rule as first stored in a new library.
pub struct DefaultRegexRule {
    pub id: i64,
    pub name: &'static str,
    pub detection_regex: &'static str,
    pub title_regex: &'static str,
    pub enabled: bool,
    pub priority: i64,
}

/// The rules a library starts with (and returns to on reset), by id: fansub releases with and
/// without an episode number, simple `Title - 12` names with and without a number, and a
/// generic catch-all.
pub open spec fn default_rule_ids_and_priorities() -> Seq<(i64, i64)> {
    seq![(1, 10), (2, 9), (4, 5), (5, 4), (6, 0)]
}

/// The name and the two patterns of each default rule, in id order.
pub open spec fn default_rule_texts() -> Seq<(Seq<char>, Seq<char>, Seq<char>)> {
    seq![
        ("Fansub"@, "^\\[(\\w+)\\] .*? - (\\w+ )?\\d+"@, "^\\[(\\w+)\\] (?P<title>.*?) - (?P<episode>\\d+(\\.\\d+)?)"@),
        ("Fansub (no ep)"@, "^\\[(\\w+)\\] .*? - (\\w+ )?\\d+"@, "^\\[(\\w+)\\] (?P<title>.*?) - (?P<episode>\\d+(\\.\\d+)?)?"@),
        ("Simple"@, "^([\\w\\s,.!]|\\w-\\w)+ (- \\w+|(- )?\\d+)"@, "^(?P<title>([\\w\\s,.!]|\\w-\\w)+) (- )?(?P<episode>\\d+(\\.\\d+)?)"@),
        ("Simple (no ep)"@, "^([\\w\\s,.!]|\\w-\\w)+ (- \\w+|(- )?\\d+)"@, "^(?P<title>([\\w\\s,.!]|\\w-\\w)+) (- )?(?P<episode>\\d+(\\.\\d+)?)?"@),
        ("Generic"@, "."@, "(\\[\\w+\\])?(?P<title>[\\w\\s\\-,.'!]+).*\\.\\w+"@),
    ]
}

pub fn default_regex_rules() -> (r: Vec<DefaultRegexRule>)
    ensures
        r@.len() == 5,
        forall|i: int|
            0 <= i < 5 ==> (#[trigger] r@[i]).id == default_rule_ids_and_priorities()[i].0
                && r@[i].priority == default_rule_ids_and_priorities()[i].1 && r@[i].enabled
                && (r@[i].name@, r@[i].detection_regex@, r@[i].title_regex@)
                == default_rule_texts()[i],
{
    let mut v: Vec<DefaultRegexRule> = Vec::new();
    v.push(
        DefaultRegexRule {
            id: 1,
            name: "Fansub",
            detection_regex: "^\\[(\\w+)\\] .*? - (\\w+ )?\\d+",
            title_regex: "^\\[(\\w+)\\] (?P<title>.*?) - (?P<episode>\\d+(\\.\\d+)?)",
            enabled: true,
            priority: 10,
        },
    );
    v.push(
        DefaultRegexRule {
            id: 2,
            name: "Fansub (no ep)",
            detection_regex: "^\\[(\\w+)\\] .*? - (\\w+ )?\\d+",
            title_regex: "^\\[(\\w+)\\] (?P<title>.*?) - (?P<episode>\\d+(\\.\\d+)?)?",
            enabled: true,
            priority: 9,
        },
    );
    v.push(
        DefaultRegexRule {
            id: 4,
            name: "Simple",
            detection_regex: "^([\\w\\s,.!]|\\w-\\w)+ (- \\w+|(- )?\\d+)",
            title_regex: "^(?P<title>([\\w\\s,.!]|\\w-\\w)+) (- )?(?P<episode>\\d+(\\.\\d+)?)",
            enabled: true,
            priority: 5,
        },
    );
    v.push(
        DefaultRegexRule {
            id: 5,
            name: "Simple (no ep)",
            detection_regex: "^([\\w\\s,.!]|\\w-\\w)+ (- \\w+|(- )?\\d+)",
            title_regex: "^(?P<title>([\\w\\s,.!]|\\w-\\w)+) (- )?(?P<episode>\\d+(\\.\\d+)?)?",
            enabled: true,
            priority: 4,
        },
    );
    v.push(
        DefaultRegexRule {
            id: 6,
            name: "Generic",
            detection_regex: ".",
            title_regex: "(\\[\\w+\\])?(?P<title>[\\w\\s\\-,.'!]+).*\\.\\w+",
            enabled: true,
            priority: 0,
        },
    );
    v
}


// ---------------------------------------------------------------------------------------------
// Rule order
// ---------------------------------------------------------------------------------------------

/// A detection rule as stored in the library, with its id, priority and whether it is enabled.
pub struct StoredRule {
    pub id: i64,
    pub priority: i64,
    pub enabled: bool,
    pub detection_regex: String,
    pub title_regex: String,
}

/// Rule `a` runs no later than rule `b`: a higher priority, or the same priority and an id no
/// higher.
pub open spec fn runs_no_later(a: StoredRule, b: StoredRule) -> bool {
    a.priority > b.priority || (a.priority == b.priority && a.id <= b.id)
}

/// `order` lists each enabled rule once, by position, highest priority first, then by id.
pub open spec fn is_run_order(rules: Seq<StoredRule>, order: Seq<usize>) -> bool {
    &&& order.no_duplicates()
    &&& forall|k: int| 0 <= k < order.len() ==> (#[trigger] order[k]) < rules.len() && rules[order[k] as int].enabled
    &&& forall|i: int| 0 <= i < rules.len() && (#[trigger] rules[i]).enabled ==> order.contains(i as usize)
    &&& forall|a: int, b: int|
        0 <= a < b < order.len() ==> runs_no_later(rules[#[trigger] order[a] as int], rules[#[trigger] order[b] as int])
}

fn rule_before(a: &StoredRule, b: &StoredRule) -> (r: bool)
    ensures
        r == !runs_no_later(*b, *a),
{
    a.priority > b.priority || (a.priority == b.priority && a.id < b.id)
}

fn run_order(rules: &[StoredRule]) -> (r: Vec<usize>)
    ensures
        is_run_order(rules@, r@),
{
    let mut o: Vec<usize> = Vec::new();
    let mut i: usize = 0;
    while i < rules.len()
        invariant
            i <= rules@.len(),
            o@.no_duplicates(),
            forall|k: int| 0 <= k < o@.len() ==> (#[trigger] o@[k]) < i && rules@[o@[k] as int].enabled,
            forall|j: int| 0 <= j < i && (#[trigger] rules@[j]).enabled ==> o@.contains(j as usize),
            forall|a: int, b: int|
                0 <= a < b < o@.len() ==> runs_no_later(rules@[#[trigger] o@[a] as int], rules@[#[trigger] o@[b] as int]),
        decreases rules@.len() - i,
    {
        if rules[i].enabled {
            let mut p: usize = 0;
            while p < o.len() && !rule_before(&rules[i], &rules[o[p]])
                invariant
                    p <= o@.len(),
                    i < rules@.len(),
                    forall|k: int| 0 <= k < o@.len() ==> (#[trigger] o@[k]) < i,
                    forall|q: int| 0 <= q < p ==> runs_no_later(rules@[#[trigger] o@[q] as int], rules@[i as int]),
                decreases o@.len() - p,
            {
                p = p + 1;
            }
            let ghost o0 = o@;
            o.insert(p, i);
            proof {
                assert(o@ == o0.insert(p as int, i));
                assert forall|a: int, b: int| 0 <= a < b < o@.len() implies runs_no_later(
                    rules@[#[trigger] o@[a] as int],
                    rules@[#[trigger] o@[b] as int],
                ) by {
                    if b < p {
                        assert(o@[a] == o0[a] && o@[b] == o0[b]);
                    } else if b == p {
                        assert(o@[a] == o0[a]);
                    } else if a < p {
                        assert(o@[a] == o0[a] && o@[b] == o0[b - 1]);
                        if p < o0.len() {
                            assert(runs_no_later(rules@[o0[a] as int], rules@[i as int]));
                            assert(runs_no_later(rules@[i as int], rules@[o0[p as int] as int]));
                            if p < b - 1 {
                                assert(runs_no_later(rules@[o0[p as int] as int], rules@[o0[b - 1] as int]));
                            }
                        }
                    } else if a == p {
                        assert(o@[b] == o0[b - 1]);
                        assert(runs_no_later(rules@[i as int], rules@[o0[p as int] as int]));
                        if p < b - 1 {
                            assert(runs_no_later(rules@[o0[p as int] as int], rules@[o0[b - 1] as int]));
                        }
                    } else {
                        assert(o@[a] == o0[a - 1] && o@[b] == o0[b - 1]);
                    }
                }
                assert forall|x: int, y: int| 0 <= x < y < o@.len() implies o@[x] != o@[y] by {
                    if x < p && y < p {
                        assert(o@[x] == o0[x] && o@[y] == o0[y]);
                    } else if x < p && y == p {
                        assert(o@[x] == o0[x]);
                    } else if x < p {
                        assert(o@[x] == o0[x] && o@[y] == o0[y - 1]);
                    } else if x == p {
                        assert(o@[y] == o0[y - 1]);
                    } else {
                        assert(o@[x] == o0[x - 1] && o@[y] == o0[y - 1]);
                    }
                }
                assert forall|k: int| 0 <= k < o@.len() implies (#[trigger] o@[k]) < i + 1
                    && rules@[o@[k] as int].enabled by {
                    if k < p {
                        assert(o@[k] == o0[k]);
                    } else if k > p {
                        assert(o@[k] == o0[k - 1]);
                    }
                }
                assert forall|j: int| 0 <= j < i + 1 && (#[trigger] rules@[j]).enabled implies o@.contains(
                    j as usize,
                ) by {
                    if j == i {
                        assert(o@[p as int] == i);
                    } else {
                        let k = choose|k: int| 0 <= k < o0.len() && o0[k] == j as usize;
                        if k < p {
                            assert(o@[k] == o0[k]);
                        } else {
                            assert(o@[k + 1] == o0[k]);
                        }
                    }
                }
            }
        }
        i = i + 1;
    }
    o
}

/// The enabled rules in the order they run: highest priority first, then by id.
pub fn rules_in_run_order(rules: &[StoredRule]) -> (r: Vec<DetectionRule>)
    ensures
        exists|order: Seq<usize>|
            #![trigger is_run_order(rules@, order)]
            is_run_order(rules@, order) && order.len() == r@.len() && forall|k: int|
                0 <= k < order.len() ==> (#[trigger] r@[k]).detection_regex@ == rules@[order[k] as int].detection_regex@
                    && r@[k].title_regex@ == rules@[order[k] as int].title_regex@,
{
    let o = run_order(rules);
    let mut r: Vec<DetectionRule> = Vec::new();
    let mut k: usize = 0;
    while k < o.len()
        invariant
            k <= o@.len(),
            is_run_order(rules@, o@),
            r@.len() == k,
            forall|m: int|
                0 <= m < k ==> (#[trigger] r@[m]).detection_regex@ == rules@[o@[m] as int].detection_regex@
                    && r@[m].title_regex@ == rules@[o@[m] as int].title_regex@,
        decreases o@.len() - k,
    {
        let rule = &rules[o[k]];
        r.push(
            DetectionRule {
                detection_regex: string_from(rule.detection_regex.as_str()),
                title_regex: string_from(rule.title_regex.as_str()),
            },
        );
        k = k + 1;
    }
    r
}

} // verus!
