use landstrip::glob::{
    byte_in_class, find_glob, glob_base, glob_matches, is_glob_byte, path_matches_glob_str,
};
use landstrip::paths::is_under;

#[test]
fn glob_bytes_are_the_four_special_ones() {
    let special: Vec<u8> = (0..=255u8).filter(|byte| is_glob_byte(*byte)).collect();
    assert_eq!(special, b"*?[]");
    assert_eq!(find_glob(b"/a/b*c"), 4);
    assert_eq!(find_glob(b"/plain"), 6);
}

#[test]
fn classes_hold_bytes_and_ranges() {
    assert!(byte_in_class(b'b', b"a-c"));
    assert!(!byte_in_class(b'd', b"a-c"));
    assert!(byte_in_class(b'x', b"a-cx"));
    assert!(byte_in_class(b'-', b"a-"));
    assert!(byte_in_class(b'-', b"-a"));
    assert!(!byte_in_class(b'b', b"c-a"));
    assert!(!byte_in_class(b'b', b""));
    assert!(byte_in_class(b'!', b"!a"));
}

#[test]
fn plain_patterns_match_only_themselves() {
    assert!(glob_matches(b"/a/b", b"/a/b"));
    assert!(!glob_matches(b"/a/b", b"/a/bc"));
    assert!(!glob_matches(b"/a/b", b"/a/"));
    assert!(glob_matches(b"", b""));
    assert!(!glob_matches(b"", b"a"));
}

#[test]
fn a_star_stays_within_a_component() {
    assert!(glob_matches(b"/a/*.rs", b"/a/main.rs"));
    assert!(glob_matches(b"/a/*.rs", b"/a/.rs"));
    assert!(!glob_matches(b"/a/*.rs", b"/a/b/main.rs"));
    assert!(glob_matches(b"*", b""));
    assert!(!glob_matches(b"*", b"a/b"));
    assert!(glob_matches(b"a*b*c", b"axxbyybzc"));
}

#[test]
fn a_double_star_crosses_components() {
    assert!(glob_matches(b"/a/**", b"/a/b/c"));
    assert!(glob_matches(b"/a/**", b"/a/"));
    assert!(!glob_matches(b"/a/**", b"/b"));
    assert!(glob_matches(b"**", b"any/thing"));
}

#[test]
fn leading_directories_of_a_double_star_are_optional() {
    assert!(glob_matches(b"/a/**/x", b"/a/x"));
    assert!(glob_matches(b"/a/**/x", b"/a/b/c/x"));
    assert!(!glob_matches(b"/a/**/x", b"/a/bx"));
}

#[test]
fn a_question_mark_takes_one_byte_of_a_component() {
    assert!(glob_matches(b"a?c", b"abc"));
    assert!(!glob_matches(b"a?c", b"a/c"));
    assert!(!glob_matches(b"a?c", b"ac"));
}

#[test]
fn a_class_without_an_end_is_an_open_bracket() {
    assert!(glob_matches(b"a[b", b"a[b"));
    assert!(!glob_matches(b"a[b", b"ab"));
    assert!(glob_matches(b"a[0-9]z", b"a5z"));
    assert!(!glob_matches(b"a[0-9]z", b"a/z"));
    assert!(!glob_matches(b"a[/]z", b"a/z"));
    assert!(!glob_matches(b"a[]z", b"az"));
}

#[test]
fn paths_are_matched_by_their_shown_text() {
    assert!(path_matches_glob_str(b"/x/secret.env", "/x/*.env"));
    assert!(!path_matches_glob_str(b"/x/y/secret.env", "/x/*.env"));
    // Each ill-formed byte is shown as U+FFFD, which is three bytes long.
    assert!(path_matches_glob_str(b"/x/\xff", "/x/???"));
    assert!(!path_matches_glob_str(b"/x/\xff", "/x/?"));
    assert!(path_matches_glob_str(b"/x/\xff", "/x/\u{fffd}"));
}

#[test]
fn the_base_is_the_directory_before_the_first_special_byte() {
    assert_eq!(glob_base("/a/b/*.rs"), b"/a/b");
    assert_eq!(glob_base("/a/b*c/d"), b"/a");
    assert_eq!(glob_base("/*"), b"/");
    assert_eq!(glob_base("*"), b"/");
    assert_eq!(glob_base("/a//*"), b"/a");
    assert_eq!(glob_base("/a/plain"), b"/a/plain");
    assert_eq!(glob_base("x*"), b"/");
}

#[test]
fn the_base_covers_what_the_pattern_matches() {
    for (pattern, path) in [("/a/b/*.rs", "/a/b/c.rs"), ("/a/**/z", "/a/q/z"), ("/a/x[12]", "/a/x1")] {
        assert!(glob_matches(pattern.as_bytes(), path.as_bytes()));
        assert!(is_under(path.as_bytes(), &glob_base(pattern)));
    }
}

#[test]
fn the_base_is_written_as_in_the_pattern() {
    assert_eq!(glob_base("/usr//lib/x*"), b"/usr//lib");
    assert_eq!(glob_base("/usr//x*"), b"/usr");
    assert_eq!(glob_base("/x*"), b"/");
}
