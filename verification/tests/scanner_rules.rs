use anime_player::library::{validate_regex_rule_input, RegexRuleInput};
use anime_player::scanner::{
    compile_rules, default_regex_rules, detect_episode, rules_in_run_order, scan_video_file,
    DetectionRule, ScannedFile, StoredRule,
};

fn defaults() -> Vec<DetectionRule> {
    default_regex_rules()
        .iter()
        .map(|r| DetectionRule {
            detection_regex: r.detection_regex.to_string(),
            title_regex: r.title_regex.to_string(),
        })
        .collect()
}

fn rule(d: &str, t: &str) -> DetectionRule {
    DetectionRule { detection_regex: d.to_string(), title_regex: t.to_string() }
}

#[test]
fn default_rules_compile() {
    let rules = default_regex_rules();
    assert_eq!(rules.len(), 5);
    assert_eq!(rules[0].name, "Fansub");
    assert_eq!(rules[4].id, 6);
    assert_eq!(rules[4].priority, 0);
    assert_eq!(compile_rules(&defaults()).expect("compiles").len(), 5);
}

#[test]
fn fansub_release_is_detected() {
    let rules = compile_rules(&defaults()).unwrap();
    let d = detect_episode(
        r"D:\anime\[SubsPlease] Sousou no Frieren - 05 (1080p).mkv",
        "[SubsPlease] Sousou no Frieren - 05 (1080p).mkv",
        "[SubsPlease] Sousou no Frieren - 05 (1080p).mkv",
        1234,
        &rules,
    )
    .expect("detected");
    assert_eq!(d.title, "Sousou no Frieren");
    assert_eq!(d.title_key, "sousou no frieren");
    assert_eq!(d.episode_text.as_deref(), Some("05"));
    assert_eq!(d.file_type, "mkv");
    assert_eq!(d.size, 1234);
}

#[test]
fn series_release_is_detected() {
    let series = rule(".", r"(?i)^(\[\w+\])?(?P<title>.*?(S\d+|[.\- ]))E(?P<episode>\d+)");
    let rules = compile_rules(&[series]).unwrap();
    let d = detect_episode("x/Frieren_S01E05.MP4", "Frieren_S01E05.MP4", "Frieren_S01E05.MP4", 1, &rules)
        .expect("detected");
    assert_eq!(d.title, "Frieren S01");
    assert_eq!(d.episode_text.as_deref(), Some("05"));
    assert_eq!(d.file_type, "mp4");
    let defaults = compile_rules(&defaults()).unwrap();
    let g = detect_episode("x/Frieren_S01E05.MP4", "Frieren_S01E05.MP4", "Frieren_S01E05.MP4", 1, &defaults)
        .expect("generic rule");
    assert_eq!(g.title, "Frieren S01E05");
    assert_eq!(g.episode_text.as_deref(), Some("Frieren_S01E05"));
}

#[test]
fn unmatched_when_no_rule_matches() {
    let rules = compile_rules(&[rule(r"^\[", r"^\[(?P<title>\w+)\]")]).unwrap();
    assert!(detect_episode("a.mkv", "a.mkv", "a.mkv", 0, &rules).is_none());
    match scan_video_file(r"C:\lib", r"C:\lib\sub\a.mkv", 7, &rules) {
        ScannedFile::Unmatched(u) => {
            assert_eq!(u.relative_path, "sub/a.mkv");
            assert_eq!(u.file_name, "a.mkv");
            assert_eq!(u.reason, "No enabled regex rule matched this filename.");
        }
        ScannedFile::Episode(_) => panic!("should not match"),
    }
}

#[test]
fn empty_title_stops_detection() {
    let rules = compile_rules(&[
        rule(".", r"(?P<title>x*)"),
        rule(".", r"(?P<title>\w+)"),
    ])
    .unwrap();
    assert!(detect_episode("abc.mkv", "abc.mkv", "abc.mkv", 0, &rules).is_none());
}

#[test]
fn numbered_groups_stand_in_for_names() {
    let rules = compile_rules(&[rule(".", r"^(\w+)_(\d+)")]).unwrap();
    let d = detect_episode("Show_12.mkv", "Show_12.mkv", "Show_12.mkv", 0, &rules).unwrap();
    assert_eq!(d.title, "Show");
    assert_eq!(d.episode_text.as_deref(), Some("12"));
}

#[test]
fn scanned_episode_paths() {
    let rules = compile_rules(&defaults()).unwrap();
    match scan_video_file(r"C:\lib", r"C:\lib\Frieren\Frieren - 03.mkv", 9, &rules) {
        ScannedFile::Episode(d) => {
            assert_eq!(d.relative_path, "Frieren/Frieren - 03.mkv");
            assert_eq!(d.title, "Frieren");
            assert_eq!(d.episode_text.as_deref(), Some("03"));
        }
        ScannedFile::Unmatched(_) => panic!("should match"),
    }
}

#[test]
fn bad_patterns_are_reported() {
    let e = compile_rules(&[rule("(", "x")]).err().expect("error");
    assert!(e.starts_with("invalid detection regex \"(\": "));
    let e = compile_rules(&[rule("x", "a\\")]).err().expect("error");
    assert!(e.starts_with("invalid title regex \"a\\\\\": "));
}

fn input(name: &str, d: &str, t: &str) -> RegexRuleInput {
    RegexRuleInput {
        name: name.to_string(),
        detection_regex: d.to_string(),
        title_regex: t.to_string(),
        enabled: true,
        priority: 0,
    }
}

#[test]
fn rule_input_checks() {
    assert_eq!(validate_regex_rule_input(&input("A", ".", "(?P<title>.+)")), Ok(()));
    assert_eq!(
        validate_regex_rule_input(&input("  ", ".", "(?P<title>.+)")),
        Err("Detection rule name cannot be empty.".to_string())
    );
    assert_eq!(
        validate_regex_rule_input(&input("A", " ", "(?P<title>.+)")),
        Err("Detection and title regexes are required.".to_string())
    );
    assert!(validate_regex_rule_input(&input("A", "(", "(?P<title>.+)"))
        .unwrap_err()
        .starts_with("Invalid detection regex: "));
    assert!(validate_regex_rule_input(&input("A", ".", "(?P<title>"))
        .unwrap_err()
        .starts_with("Invalid title regex: "));
    assert_eq!(
        validate_regex_rule_input(&input("A", ".", "(.+)")),
        Err("Title regex must include a named capture group called `title`.".to_string())
    );
}

#[test]
fn default_rules_run_highest_priority_first() {
    let rules = default_regex_rules();
    let names: Vec<&str> = rules.iter().map(|r| r.name).collect();
    assert_eq!(
        names,
        vec!["Fansub", "Fansub (no ep)", "Simple", "Simple (no ep)", "Generic"]
    );
    let priorities: Vec<i64> = rules.iter().map(|r| r.priority).collect();
    assert_eq!(priorities, vec![10, 9, 5, 4, 0]);
    let ids: Vec<i64> = rules.iter().map(|r| r.id).collect();
    assert_eq!(ids, vec![1, 2, 4, 5, 6]);
    assert!(rules.iter().all(|r| r.enabled));
    assert!(rules[4].title_regex.contains("'!"));
}

#[test]
fn enabled_rules_run_by_priority_then_id() {
    let stored = |id: i64, priority: i64, enabled: bool| StoredRule {
        id,
        priority,
        enabled,
        detection_regex: format!("d{id}"),
        title_regex: format!("t{id}"),
    };
    let rules = vec![stored(4, 5, true), stored(1, 10, true), stored(7, 5, true), stored(2, 9, false), stored(3, 5, true)];
    let ordered: Vec<String> = rules_in_run_order(&rules).into_iter().map(|r| r.detection_regex).collect();
    assert_eq!(ordered, vec!["d1", "d3", "d4", "d7"]);
}
