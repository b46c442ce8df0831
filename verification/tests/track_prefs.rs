use anime_player::track_prefs::{
    candidates_of_kind, identity_from_tracks, is_signs_like, normalize_lang, pick_closest_track,
    score_track, title_key, MpvTrack, TrackCandidate,
};

fn track(id: i64, lang: &str, title: &str) -> TrackCandidate {
    TrackCandidate {
        id,
        lang: if lang.is_empty() {
            None
        } else {
            Some(lang.to_string())
        },
        title: if title.is_empty() {
            None
        } else {
            Some(title.to_string())
        },
    }
}

fn mpv(id: i64, kind: &str, lang: Option<&str>, title: Option<&str>, selected: bool) -> MpvTrack {
    MpvTrack {
        id,
        kind: kind.to_string(),
        title: title.map(|t| t.to_string()),
        lang: lang.map(|l| l.to_string()),
        selected,
        external: false,
        external_filename: None,
    }
}

#[test]
fn normalize_lang_aliases() {
    assert_eq!(normalize_lang("jpn"), "ja");
    assert_eq!(normalize_lang("Japanese"), "ja");
    assert_eq!(normalize_lang("ENG"), "en");
    assert_eq!(normalize_lang("und"), "");
}

#[test]
fn title_key_strips_wrappers() {
    assert_eq!(title_key("English [Signs]"), "english signs");
    assert_eq!(title_key("  English  (Full) "), "english full");
}

#[test]
fn exact_lang_and_title_wins() {
    let tracks = [
        track(1, "jpn", "Japanese"),
        track(2, "eng", "English"),
        track(3, "eng", "English [Signs]"),
    ];
    assert_eq!(
        pick_closest_track(&tracks, Some("en"), Some("English")),
        Some(2)
    );
}

#[test]
fn does_not_cross_languages() {
    let tracks = [track(1, "jpn", "Commentary"), track(2, "eng", "English")];
    assert_eq!(
        pick_closest_track(&tracks, Some("ja"), Some("Japanese")),
        Some(1)
    );
    assert_eq!(
        pick_closest_track(&tracks, Some("es"), Some("Spanish")),
        None
    );
}

#[test]
fn prefers_signs_when_saved_title_is_signs() {
    let tracks = [track(1, "eng", "English"), track(2, "eng", "English [Signs]")];
    assert_eq!(
        pick_closest_track(&tracks, Some("en"), Some("English [Signs]")),
        Some(2)
    );
    assert_eq!(
        pick_closest_track(&tracks, Some("en"), Some("English")),
        Some(1)
    );
}

#[test]
fn untagged_needs_strong_title() {
    let tracks = [track(1, "", "Japanese 2.0"), track(2, "", "Commentary")];
    assert_eq!(
        pick_closest_track(&tracks, Some("ja"), Some("Japanese 2.0")),
        Some(1)
    );
    assert_eq!(
        pick_closest_track(&tracks, Some("ja"), Some("Japanese")),
        None
    );
}

#[test]
fn below_minimum_score_is_none() {
    let tracks = [track(1, "eng", "English")];
    assert_eq!(pick_closest_track(&tracks, None, Some("spa")), None);
    assert!(pick_closest_track(&[], Some("en"), Some("English")).is_none());
}

#[test]
fn normalize_lang_is_idempotent_on_examples() {
    for raw in ["jpn", "Japanese", "ENG", "und", "fre", "pt-BR", ""] {
        let once = normalize_lang(raw);
        assert_eq!(normalize_lang(&once), once);
    }
}

#[test]
fn signs_titles_are_recognised() {
    assert!(is_signs_like("English [Signs]"));
    assert!(is_signs_like("Signs & Songs"));
    assert!(!is_signs_like("English"));
    assert!(!is_signs_like(""));
}

#[test]
fn score_of_exact_language_and_title() {
    let c = track(7, "eng", "English");
    assert_eq!(score_track(Some("en"), Some("English"), &c), Some(155));
    assert_eq!(score_track(Some("ja"), Some("English"), &c), None);
}

#[test]
fn repeated_title_tokens_each_count() {
    let c = track(3, "", "ab");
    assert_eq!(score_track(None, Some("ab ab ab"), &c), Some(40));
    let long_title = "word ".repeat(2000);
    let w = track(5, "", "word");
    assert_eq!(score_track(None, Some(&long_title), &w), Some(25 + 5 * 2000));
}

#[test]
fn tie_goes_to_the_earliest_track() {
    let tracks = [track(4, "eng", "English"), track(9, "eng", "English")];
    assert_eq!(
        pick_closest_track(&tracks, Some("en"), Some("English")),
        Some(4)
    );
}

#[test]
fn identity_takes_first_selected_tracks() {
    let tracks = vec![
        mpv(1, "audio", Some("jpn"), Some("Japanese"), true),
        mpv(2, "sub", Some("eng"), Some("English"), false),
        mpv(3, "sub", Some("eng"), Some("Signs"), true),
    ];
    let pref = identity_from_tracks(&tracks);
    assert_eq!(pref.audio_lang.as_deref(), Some("jpn"));
    assert_eq!(pref.audio_title.as_deref(), Some("Japanese"));
    assert!(!pref.subtitle_off);
    assert_eq!(pref.subtitle_lang.as_deref(), Some("eng"));
    assert_eq!(pref.subtitle_title.as_deref(), Some("Signs"));
    assert_eq!(pref.subtitle_external_path, None);
}

#[test]
fn identity_without_selected_subtitle_is_off() {
    let tracks = vec![mpv(1, "audio", None, None, true)];
    let pref = identity_from_tracks(&tracks);
    assert!(pref.subtitle_off);
    assert_eq!(pref.subtitle_lang, None);
}

#[test]
fn candidates_keep_track_order() {
    let tracks = vec![
        mpv(1, "audio", Some("jpn"), None, true),
        mpv(2, "sub", None, Some("A"), false),
        mpv(3, "audio", Some("eng"), None, false),
    ];
    let c = candidates_of_kind(&tracks, "audio");
    assert_eq!(c.len(), 2);
    assert_eq!(c[0].id, 1);
    assert_eq!(c[1].id, 3);
    assert_eq!(c[1].lang.as_deref(), Some("eng"));
}
