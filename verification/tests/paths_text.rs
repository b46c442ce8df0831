use anime_player::paths::{
    components_of, file_name_chars, is_shorter_path, parent_chars, path_starts_with_chars,
    paths_equal, windows_path_key,
};
use anime_player::text::{
    chars_of, i64_text, parse_u32_chars, split_words, string_of, trim_chars, u64_decimal,
    zero_padded_decimal, Separator,
};

fn s(v: &[char]) -> String {
    v.iter().collect()
}

#[test]
fn path_keys_and_equality() {
    assert_eq!(windows_path_key("C:/Anime/X.mkv"), r"c:\anime\x.mkv");
    assert!(paths_equal(r"C:\Anime", "c:/anime"));
    assert!(!paths_equal(r"C:\Anime", r"C:\Anime2"));
}

#[test]
fn shorter_paths() {
    assert!(is_shorter_path(r"D:\a", r"D:\ab"));
    assert!(is_shorter_path(r"D:\a", r"D:\b"));
    assert!(!is_shorter_path(r"D:\b", r"D:\a"));
    assert!(!is_shorter_path(r"D:\a", r"D:\a"));
    assert!(is_shorter_path("ab", "é"));
}

#[test]
fn components_names_parents() {
    let p = chars_of(r"C:\anime\\frieren\01.mkv");
    let cs = components_of(&p);
    assert_eq!(cs.len(), 4);
    assert_eq!(s(&cs[1]), "anime");
    assert_eq!(s(&file_name_chars(&p).unwrap()), "01.mkv");
    assert_eq!(s(&parent_chars(&p).unwrap()), r"C:\anime\\frieren");
    assert_eq!(s(&parent_chars(&chars_of(r"C:\anime")).unwrap()), r"C:\");
    assert!(parent_chars(&chars_of(r"C:\")).is_none());
    assert!(file_name_chars(&chars_of(r"C:\a\..")).is_none());
    assert_eq!(s(&file_name_chars(&chars_of("foo.txt/.")).unwrap()), "foo.txt");
    assert_eq!(s(&file_name_chars(&chars_of("./a/./.")).unwrap()), "a");
    assert!(file_name_chars(&chars_of("./.")).is_none());
    assert!(file_name_chars(&chars_of("C:/.")).is_none());
    let dotted = components_of(&chars_of("./a/./b/."));
    assert_eq!(dotted.len(), 3);
    assert_eq!(s(&dotted[0]), ".");
    assert_eq!(s(&dotted[2]), "b");
    let rooted = components_of(&chars_of("/./a"));
    assert_eq!(rooted.len(), 2);
    assert_eq!(s(&rooted[0]), "\\");
    assert_eq!(s(&rooted[1]), "a");
    assert!(!path_starts_with_chars(&chars_of("/a/b"), &chars_of("a")));
    assert!(path_starts_with_chars(&chars_of(r"\a\b"), &chars_of("/a")));
    assert!(file_name_chars(&chars_of("/")).is_none());
    assert_eq!(s(&file_name_chars(&chars_of("/a")).unwrap()), "a");
    assert!(path_starts_with_chars(&chars_of("a/./b/c.mkv"), &chars_of("a/b")));
    assert!(path_starts_with_chars(&p, &chars_of("C:/anime/")));
    assert!(!path_starts_with_chars(&p, &chars_of(r"C:\ani")));
}

#[test]
fn numbers_and_words() {
    assert_eq!(s(&u64_decimal(0)), "0");
    assert_eq!(s(&u64_decimal(u64::MAX)), "18446744073709551615");
    assert_eq!(s(&i64_text(i64::MIN)), "-9223372036854775808");
    assert_eq!(s(&zero_padded_decimal(7, 3)), "007");
    assert_eq!(s(&zero_padded_decimal(12345, 3)), "12345");
    assert_eq!(parse_u32_chars(&chars_of("+42")), Some(42));
    assert_eq!(parse_u32_chars(&chars_of("4294967296")), None);
    assert_eq!(parse_u32_chars(&chars_of("")), None);
    assert_eq!(parse_u32_chars(&chars_of("-1")), None);
    assert_eq!(string_of(&trim_chars(&chars_of("\t a b \n"))), "a b");
    let ws = split_words(&chars_of("  a  bc "), Separator::Space);
    assert_eq!(ws.len(), 2);
    assert_eq!(s(&ws[1]), "bc");
}
