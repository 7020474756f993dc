use landstrip::error::{Error, Mechanism};
use landstrip::policy::{
    AccessPolicy, AppContainerMode, IpBindAccess, NetworkAccess, ReadAccess, UnixSocketAccess,
};
use landstrip::seatbelt::{
    check_profile, escape_sbpl_literal, escape_sbpl_regex_literal, glob_to_sbpl_regex,
    render_mach_rules, render_network_rules, render_parent_dir_rules, render_process_rules,
    render_profile, render_read_rules, render_symlink_metadata_rules, render_write_rules,
    take_sandbox_error,
};

fn roots(list: &[&str]) -> Vec<Vec<u8>> {
    list.iter().map(|text| text.as_bytes().to_vec()).collect()
}

#[test]
fn literals_are_escaped() {
    assert_eq!(escape_sbpl_literal("a\"b\\c\nd"), "a\\\"b\\\\c\\nd");
    assert_eq!(escape_sbpl_literal("caf\u{e9}"), "caf\u{e9}");
    assert_eq!(escape_sbpl_regex_literal("a\"b\\c\nd"), "a\\\"b\\c\\nd");
}

#[test]
fn an_escaped_literal_reads_back() {
    let text = "q\"\\n\n\\";
    let escaped = escape_sbpl_literal(text);
    let mut read = String::new();
    let mut rest = escaped.chars();
    while let Some(next) = rest.next() {
        match next {
            '\\' => match rest.next() {
                Some('n') => read.push('\n'),
                Some(other) => read.push(other),
                None => panic!("a literal ends in an escape"),
            },
            '"' => panic!("a literal is closed early"),
            other => read.push(other),
        }
    }
    assert_eq!(read, text);
}

#[test]
fn patterns_become_regular_expressions() {
    assert_eq!(glob_to_sbpl_regex("/a/*.key"), "^/a/[^/]*\\.key$");
    assert_eq!(glob_to_sbpl_regex("/a/**/b"), "^/a/(.*/)?b$");
    assert_eq!(glob_to_sbpl_regex("/a/**"), "^/a/.*$");
    assert_eq!(glob_to_sbpl_regex("a?[0-9]"), "^a[^/][0-9]$");
    assert_eq!(glob_to_sbpl_regex("a[b"), "^a\\[b$");
    assert_eq!(glob_to_sbpl_regex("({+|^$\\)}"), "^\\(\\{\\+\\|\\^\\$\\\\\\)\\}$");
    assert_eq!(glob_to_sbpl_regex("]"), "^]$");
    assert_eq!(glob_to_sbpl_regex("[]a"), "^[]a$");
    assert_eq!(glob_to_sbpl_regex(""), "^$");
    assert_eq!(glob_to_sbpl_regex("***"), "^.*[^/]*$");
}

#[test]
fn write_denials_follow_the_allowances() {
    let mut sb = "x\n".to_string();
    render_write_rules(
        &mut sb,
        &roots(&["/w\"q"]),
        &roots(&["/w/no"]),
        &["/w/*.key".to_string()],
    );
    assert_eq!(
        sb,
        "x\n(allow file-write* (subpath \"/w\\\"q\"))\n\
         (deny file-write* (subpath \"/w/no\"))\n\
         (deny file-write* (regex #\"^/w/[^/]*\\.key$\"))\n"
    );
}

#[test]
fn read_denials_follow_the_allowances() {
    let mut sb = String::new();
    render_read_rules(&mut sb, &ReadAccess::Unrestricted, &roots(&["/no"]), &[], &roots(&["/l"]));
    assert_eq!(sb, "(allow file-read*)\n");

    let mut sb = String::new();
    render_read_rules(
        &mut sb,
        &ReadAccess::AllowRoots(roots(&["/a/b"])),
        &roots(&["/a/b/no"]),
        &[],
        &roots(&["/l"]),
    );
    assert_eq!(
        sb,
        "(deny file-read*)\n\
         (allow file-read* (literal \"/\"))\n\
         (allow file-read* (subpath \"/a/b\"))\n\
         (allow file-read* (literal \"/\"))\n\
         (allow file-read* (literal \"/a\"))\n\
         (allow file-read-metadata\n  (literal \"/l\"))\n\
         (deny file-read* (subpath \"/a/b/no\"))\n"
    );
}

#[test]
fn the_most_specific_read_rule_comes_last() {
    let mut sb = String::new();
    render_read_rules(
        &mut sb,
        &ReadAccess::AllowRoots(roots(&["/a", "/a/b/c", "/a/b/c/d/e"])),
        &roots(&["/a/no"]),
        &roots(&["/a/b/c/d", "/a/b"]),
        &[],
    );
    assert_eq!(
        sb,
        "(deny file-read*)\n\
         (allow file-read* (literal \"/\"))\n\
         (allow file-read* (subpath \"/a\"))\n\
         (allow file-read* (subpath \"/a/b/c\"))\n\
         (allow file-read* (subpath \"/a/b/c/d/e\"))\n\
         (deny file-read* (subpath \"/a/b\"))\n\
         (allow file-read* (subpath \"/a/b/c\"))\n\
         (allow file-read* (subpath \"/a/b/c/d/e\"))\n\
         (deny file-read* (subpath \"/a/b/c/d\"))\n\
         (allow file-read* (subpath \"/a/b/c/d/e\"))\n\
         (allow file-read* (literal \"/\"))\n\
         (allow file-read* (literal \"/a\"))\n\
         (allow file-read* (literal \"/a/b\"))\n\
         (allow file-read* (literal \"/a/b/c\"))\n\
         (allow file-read* (literal \"/a/b/c/d\"))\n\
         (deny file-read* (subpath \"/a/no\"))\n"
    );
}

#[test]
fn each_directory_above_a_root_is_listed_once() {
    let mut sb = String::new();
    render_parent_dir_rules(&mut sb, &roots(&["/a/b/c", "/a/d"]));
    assert_eq!(
        sb,
        "(allow file-read* (literal \"/\"))\n\
         (allow file-read* (literal \"/a\"))\n\
         (allow file-read* (literal \"/a/b\"))\n"
    );
    let mut sb = String::new();
    render_parent_dir_rules(&mut sb, &roots(&["/a//b/c"]));
    assert_eq!(
        sb,
        "(allow file-read* (literal \"/\"))\n\
         (allow file-read* (literal \"/a\"))\n\
         (allow file-read* (literal \"/a//b\"))\n"
    );
    let mut sb = String::new();
    render_parent_dir_rules(&mut sb, &roots(&["/"]));
    assert_eq!(sb, "");
}

#[test]
fn links_may_be_looked_at() {
    let mut sb = String::new();
    render_symlink_metadata_rules(&mut sb, &[]);
    assert_eq!(sb, "");
    render_symlink_metadata_rules(&mut sb, &roots(&["/a", "/b"]));
    assert_eq!(sb, "(allow file-read-metadata\n  (literal \"/a\")\n  (literal \"/b\"))\n");
}

#[test]
fn network_rules_open_only_what_is_allowed() {
    let mut sb = String::new();
    render_network_rules(&mut sb, &NetworkAccess::Unrestricted);
    assert_eq!(sb, "(allow network*)\n");

    let mut sb = String::new();
    render_network_rules(
        &mut sb,
        &NetworkAccess::Restricted {
            connect_tcp_ports: vec![1080, 8080],
            bind: IpBindAccess::Deny,
            unix_socket_access: UnixSocketAccess::Denied,
        },
    );
    assert_eq!(
        sb,
        "(allow system-socket (socket-domain AF_UNIX))\n\
         (deny network-outbound)\n\
         (allow network-outbound (remote tcp \"localhost:1080\"))\n\
         (allow network-outbound (remote tcp \"localhost:8080\"))\n"
    );

    let mut sb = String::new();
    render_network_rules(
        &mut sb,
        &NetworkAccess::Restricted {
            connect_tcp_ports: Vec::new(),
            bind: IpBindAccess::Localhost,
            unix_socket_access: UnixSocketAccess::AllowPaths(roots(&["/run/x"])),
        },
    );
    assert_eq!(
        sb,
        "(allow system-socket (socket-domain AF_UNIX))\n\
         (deny network-outbound)\n\
         (allow network-outbound (remote tcp \"localhost:*\"))\n\
         (allow network-bind (local tcp \"localhost:*\"))\n\
         (allow network-inbound (local tcp \"localhost:*\"))\n\
         (allow network-outbound (remote udp \"localhost:*\"))\n\
         (allow network-bind (local udp \"localhost:*\"))\n\
         (allow network-inbound (local udp \"localhost:*\"))\n\
         (allow network-outbound (remote unix-socket (subpath \"/run/x\")))\n\
         (allow network-bind (local unix-socket (subpath \"/run/x\")))\n"
    );

    let mut sb = String::new();
    render_network_rules(
        &mut sb,
        &NetworkAccess::Restricted {
            connect_tcp_ports: Vec::new(),
            bind: IpBindAccess::Deny,
            unix_socket_access: UnixSocketAccess::Unrestricted,
        },
    );
    assert!(sb.ends_with(
        "(allow network-outbound (remote unix-socket))\n(allow network-bind (local unix-socket))\n"
    ));
}

#[test]
fn a_profile_starts_from_nothing() {
    let policy = AccessPolicy {
        write_roots: roots(&["/w"]),
        write_denied_roots: Vec::new(),
        write_denied_patterns: Vec::new(),
        write_denied_links: Vec::new(),
        read_access: ReadAccess::Unrestricted,
        read_denied_roots: Vec::new(),
        read_reopened_roots: Vec::new(),
        read_symlinks: Vec::new(),
        network_access: NetworkAccess::Unrestricted,
        app_container_mode: AppContainerMode { name: "lpac".to_string() },
        allow_windows_loopback: false,
    };
    let mut expected = "(version 1)\n(deny default)\n".to_string();
    render_process_rules(&mut expected);
    render_mach_rules(&mut expected);
    expected.push_str("(allow file-write* (subpath \"/w\"))\n(allow file-read*)\n(allow network*)\n");
    assert_eq!(render_profile(&policy), expected);
    assert!(expected.contains("(allow process-exec)\n"));
    assert!(expected.contains("  (global-name \"com.apple.trustd.agent\")\n"));
    assert_eq!(expected.matches("global-name").count(), 17);
}

#[test]
fn a_profile_may_hold_no_zero_character() {
    assert!(check_profile("(version 1)").is_ok());
    match check_profile("\u{e9}b\0c\0") {
        Err(Error::SandboxSetupFailed { mechanism, source }) => {
            assert_eq!(mechanism, Mechanism::Seatbelt);
            assert_eq!(source.message, "profile: interior nul at offset 3");
        }
        _ => panic!("the profile was taken"),
    }
}

#[test]
fn a_silent_failure_is_named() {
    assert_eq!(take_sandbox_error(Some("no".to_string())), "no");
    assert_eq!(take_sandbox_error(None), "sandbox_init failed without an error message");
}
