use landstrip::policy::{
    AccessPolicy, AppContainerMode, DenialReason, IpBindAccess, NetworkAccess, ReadAccess,
    UnixSocketAccess,
};

fn roots(list: &[&str]) -> Vec<Vec<u8>> {
    list.iter().map(|text| text.as_bytes().to_vec()).collect()
}

fn policy() -> AccessPolicy {
    AccessPolicy {
        write_roots: roots(&["/work"]),
        write_denied_roots: roots(&["/work/secret"]),
        write_denied_patterns: vec!["/work/**/*.key".to_string()],
        write_denied_links: roots(&["/work/link"]),
        read_access: ReadAccess::AllowRoots(roots(&["/usr", "/home/me"])),
        read_denied_roots: roots(&["/home/me/.ssh"]),
        read_reopened_roots: Vec::new(),
        read_symlinks: Vec::new(),
        network_access: NetworkAccess::Unrestricted,
        app_container_mode: AppContainerMode { name: "lpac".to_string() },
        allow_windows_loopback: false,
    }
}

fn restricted(ports: &[u16], bind: IpBindAccess, unix: UnixSocketAccess) -> NetworkAccess {
    NetworkAccess::Restricted {
        connect_tcp_ports: ports.to_vec(),
        bind,
        unix_socket_access: unix,
    }
}

#[test]
fn denied_writes_are_found_by_root_link_and_pattern() {
    let policy = policy();
    assert!(policy.is_write_denied(b"/work/secret/a", b"/elsewhere"));
    assert!(policy.is_write_denied(b"/elsewhere", b"/work/link/a"));
    assert!(policy.is_write_denied(b"/elsewhere", b"/work/a/b.key"));
    assert!(!policy.is_write_denied(b"/work/link/a", b"/work/secret/a"));
    assert!(!policy.is_write_denied(b"/work/a", b"/work/a"));
}

#[test]
fn a_denied_write_is_told_as_a_match_even_below_an_allowed_root() {
    let policy = policy();
    assert_eq!(policy.write_reason(b"/work/secret", b"/work/secret", false), Some(DenialReason::DenyMatch));
    assert_eq!(policy.write_reason(b"/etc", b"/etc", true), Some(DenialReason::AllowMiss));
    assert_eq!(policy.write_reason(b"/etc", b"/etc", false), None);
    assert_eq!(policy.write_reason(b"/work/a", b"/work/a", true), None);
}

#[test]
fn reads_are_held_to_the_allowed_roots() {
    let mut policy = policy();
    assert_eq!(policy.read_reason(b"/usr/bin/ls"), None);
    assert_eq!(policy.read_reason(b"/home/me/notes"), None);
    assert_eq!(policy.read_reason(b"/home/me/.ssh/id"), Some(DenialReason::DenyMatch));
    assert_eq!(policy.read_reason(b"/home/you"), Some(DenialReason::AllowMiss));
    policy.read_access = ReadAccess::Unrestricted;
    assert_eq!(policy.read_reason(b"/home/me/.ssh/id"), None);
}

#[test]
fn an_open_network_restricts_nothing() {
    let open = NetworkAccess::Unrestricted;
    assert!(open.is_unrestricted());
    assert!(open.connect_tcp_ports().is_empty());
    assert!(!open.allows_local_binding());
    assert!(!open.restricts_bind_tcp());
    assert!(!open.restricts_connect_tcp());
    assert!(!open.denies_unix_sockets());
    assert!(open.leaves_unix_sockets_open());
    assert!(!open.needs_bind_broker());
    assert!(!open.needs_network_broker());
}

#[test]
fn a_restricted_network_says_what_is_left() {
    let closed = restricted(&[], IpBindAccess::Deny, UnixSocketAccess::Denied);
    assert!(!closed.is_unrestricted());
    assert!(closed.restricts_bind_tcp());
    assert!(closed.restricts_connect_tcp());
    assert!(closed.denies_unix_sockets());
    assert!(closed.needs_bind_broker());
    assert!(closed.needs_network_broker());

    let local = restricted(&[8080], IpBindAccess::Localhost, UnixSocketAccess::Unrestricted);
    assert_eq!(local.connect_tcp_ports(), &[8080]);
    assert!(local.allows_local_binding());
    assert!(!local.restricts_bind_tcp());
    assert!(local.leaves_unix_sockets_open());
    assert!(local.needs_bind_broker());

    let bare = restricted(&[], IpBindAccess::Deny, UnixSocketAccess::Unrestricted);
    assert!(!bare.needs_bind_broker());
    assert!(!bare.needs_network_broker());
    assert!(restricted(&[1], IpBindAccess::Deny, UnixSocketAccess::Unrestricted).needs_network_broker());

    let listed = restricted(&[], IpBindAccess::Deny, UnixSocketAccess::AllowPaths(roots(&["/run/x"])));
    assert!(!listed.denies_unix_sockets());
    assert!(!listed.leaves_unix_sockets_open());
    assert!(listed.needs_bind_broker());
}

#[test]
fn socket_rules_say_whether_a_broker_is_needed() {
    assert!(UnixSocketAccess::Denied.needs_broker());
    assert!(UnixSocketAccess::AllowPaths(Vec::new()).needs_broker());
    assert!(!UnixSocketAccess::Unrestricted.needs_broker());
    assert!(UnixSocketAccess::Denied.is_denied());
    assert!(!UnixSocketAccess::AllowPaths(Vec::new()).is_denied());
}
