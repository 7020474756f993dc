use landstrip::error::Error;
use landstrip::paths::{is_strictly_under, is_under};
use landstrip::winpath::{
    resolve_windows_sandbox_path, to_native, to_slashed, windows_has_root, windows_join,
    windows_prefix_len,
};

fn form(path: &str) -> String {
    String::from_utf8(to_slashed(path.as_bytes())).unwrap()
}

fn native(path: &str) -> String {
    String::from_utf8(to_native(path.as_bytes())).unwrap()
}

fn resolved(path: &str) -> Result<String, Error> {
    resolve_windows_sandbox_path(path, br"C:\work", Some(br"D:\home\me"))
        .map(|path| String::from_utf8(path).unwrap())
}

#[test]
fn windows_paths_get_one_form() {
    assert_eq!(form(r"C:\a\b"), "/C:/a/b");
    assert_eq!(form("c:/a/b"), "/C:/a/b");
    assert_eq!(form(r"C:a\b"), "C:/a/b");
    assert_eq!(form(r"\a\b"), "/a/b");
    assert_eq!(form(r"a\..\b"), "a/../b");
    assert_eq!(form(r"\\server\share\a"), r"/\\server\share/a");
    assert_eq!(form("//server/share"), r"/\\server\share");
    assert_eq!(form(r"\\?\C:\a"), r"/\\?\C:/a");
    assert_eq!(form(r"\\?\UNC\server\share\a"), r"/\\?\UNC\server\share/a");
    assert_eq!(form(r"\\.\pipe\x"), r"/\\.\pipe/x");
    assert_eq!(form(r"\\server"), "//server");
    assert_eq!(form(""), "");
}

#[test]
fn windows_roots_are_known() {
    assert!(windows_has_root(br"C:\x"));
    assert!(!windows_has_root(b"C:x"));
    assert!(windows_has_root(br"\x"));
    assert!(windows_has_root(br"\\server\share"));
    assert!(!windows_has_root(b"x"));
    assert_eq!(windows_prefix_len(br"\\server\share\a"), 14);
    assert_eq!(windows_prefix_len(br"\\server\"), 0);
}

#[test]
fn windows_paths_lie_below_their_directories() {
    let under = |path: &str, root: &str| {
        is_under(&to_slashed(path.as_bytes()), &to_slashed(root.as_bytes()))
    };
    assert!(under(r"C:\a\b", r"C:\a"));
    assert!(under(r"c:\a\b", r"C:/a/"));
    assert!(!under(r"C:\ab", r"C:\a"));
    assert!(!under(r"D:\a\b", r"C:\a"));
    assert!(!under(r"C:a\b", r"C:\a"));
    assert!(under(r"\\server\share\a", r"\\server\share"));
    assert!(is_strictly_under(&to_slashed(br"C:\a\b"), &to_slashed(br"C:\a")));
}

#[test]
fn drive_paths_come_back() {
    assert_eq!(native(&form(r"C:\a\b")), r"C:\a\b");
    assert_eq!(native("/C:/"), r"C:\");
    assert_eq!(native("/x/y"), r"\x\y");
    assert_eq!(native(r"/\\server\share/a"), r"\\server\share\a");
}

#[test]
fn windows_paths_are_joined_as_windows_does() {
    let join = |base: &str, path: &str| {
        String::from_utf8(windows_join(base.as_bytes(), path.as_bytes())).unwrap()
    };
    assert_eq!(join(r"C:\a", "b"), r"C:\a\b");
    assert_eq!(join(r"C:\a\", "b"), r"C:\a\b");
    assert_eq!(join(r"C:\a", r"\b"), r"C:\b");
    assert_eq!(join(r"C:\a", r"D:\b"), r"D:\b");
    assert_eq!(join(r"C:\a", "D:b"), "D:b");
    assert_eq!(join("C:", "b"), "C:b");
    assert_eq!(join("", "b"), "b");
}

#[test]
fn windows_settings_start_where_they_say() {
    assert_eq!(resolved(r"C:\x\..\y").unwrap(), "/C:/y");
    assert_eq!(resolved("sub/x").unwrap(), "/C:/work/sub/x");
    assert_eq!(resolved("~").unwrap(), "/D:/home/me");
    assert_eq!(resolved("~/a").unwrap(), "/D:/home/me/a");
    assert_eq!(resolved(r"~\a").unwrap(), "/C:/work/~/a");
    assert_eq!(resolved(r"\x").unwrap(), "/x");
    assert!(matches!(resolved(""), Err(Error::PolicyEmptyPath)));
    assert!(matches!(
        resolve_windows_sandbox_path("~", br"C:\work", None),
        Err(Error::PolicyHomeUnavailable)
    ));
}
