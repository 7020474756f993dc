use landstrip::error::Error;
use landstrip::policy::{
    AccessPolicy, AppContainerMode, DenialReason, IpBindAccess, NetworkAccess, ReadAccess,
    UnixSocketAccess,
};
use landstrip::resolve::{
    resolve_policy, resolve_windows_policy, ResolvedPaths, ScannedRoots,
};

fn roots(list: &[&str]) -> Vec<Vec<u8>> {
    list.iter().map(|text| text.as_bytes().to_vec()).collect()
}

fn settings(allow_read: &[&str], deny_read: &[&str]) -> ResolvedPaths {
    ResolvedPaths {
        write_allow: roots(&["/w", "/v"]),
        write_deny: roots(&["/w/no"]),
        write_denied_patterns: vec!["/w/*.key".to_string()],
        write_denied_links: roots(&["/w/link"]),
        read_allow: roots(allow_read),
        read_deny: roots(deny_read),
    }
}

fn mode() -> AppContainerMode {
    AppContainerMode { name: "lpac".to_string() }
}

fn reading(allow_read: &[&str], deny_read: &[&str], scanned: &[&str]) -> AccessPolicy {
    resolve_policy(
        settings(allow_read, deny_read),
        ScannedRoots { roots: roots(scanned), symlinks: roots(&["/lib", "/bin", "/lib"]) },
        b"/",
        NetworkAccess::Unrestricted,
        mode(),
        true,
    )
}

#[test]
fn writes_and_the_rest_are_taken_over() {
    let policy = reading(&[], &[], &[]);
    assert_eq!(policy.write_roots, roots(&["/w", "/v"]));
    assert_eq!(policy.write_denied_roots, roots(&["/w/no"]));
    assert_eq!(policy.write_denied_patterns, vec!["/w/*.key".to_string()]);
    assert_eq!(policy.write_denied_links, roots(&["/w/link"]));
    assert!(policy.allow_windows_loopback);
    assert_eq!(policy.app_container_mode.name, "lpac");
    assert!(policy.network_access.is_unrestricted());
}

#[test]
fn reads_stay_unrestricted_unless_denied() {
    let policy = reading(&["/a"], &[], &["/usr"]);
    assert!(matches!(policy.read_access, ReadAccess::Unrestricted));
    assert!(policy.read_symlinks.is_empty());
    assert_eq!(policy.read_reason(b"/anything"), None);
}

#[test]
fn a_full_allowance_leaves_the_denials() {
    let policy = reading(&["/", "/etc/x"], &["/etc/y", "/etc/x"], &[]);
    assert_eq!(policy.read_denied_roots, roots(&["/etc/y"]));
    assert_eq!(policy.read_reason(b"/usr"), None);
    assert_eq!(policy.read_reason(b"/etc/x/a"), None);
    assert_eq!(policy.read_reason(b"/etc/y/a"), Some(DenialReason::DenyMatch));
}

#[test]
fn the_most_specific_read_rule_wins() {
    let policy = reading(&["/home/me"], &["/home", "/home/me/.ssh"], &["/usr", "/etc"]);
    assert_eq!(policy.read_reason(b"/home/me/notes"), None);
    assert_eq!(policy.read_reason(b"/home/me/.ssh/id"), Some(DenialReason::DenyMatch));
    assert_eq!(policy.read_reason(b"/home/you"), Some(DenialReason::AllowMiss));
    assert_eq!(policy.read_reason(b"/usr/bin"), None);
    assert_eq!(policy.read_symlinks, roots(&["/bin", "/lib"]));
}

#[test]
fn a_denial_between_two_allowances_stays() {
    let policy = reading(&["/a", "/a/b/c"], &["/a/b"], &["/usr", "/a/x"]);
    assert!(policy.read_denied_roots.is_empty());
    assert_eq!(policy.read_reopened_roots, roots(&["/a/b"]));
    assert_eq!(policy.read_reason(b"/a/b/x"), Some(DenialReason::DenyMatch));
    assert_eq!(policy.read_reason(b"/a/b"), Some(DenialReason::DenyMatch));
    assert_eq!(policy.read_reason(b"/a/b/c/d"), None);
    assert_eq!(policy.read_reason(b"/a/new"), None);
    let policy = reading(&["/home", "/home/u/.ssh/pub"], &["/home/u/.ssh"], &[]);
    assert_eq!(policy.read_reason(b"/home/u/.ssh/key"), Some(DenialReason::DenyMatch));
    assert_eq!(policy.read_reason(b"/home/u/.ssh/pub/a"), None);
}

#[test]
fn an_allowance_as_specific_as_the_denial_wins() {
    let policy = reading(&["/", "/x"], &["/"], &[]);
    assert!(policy.read_reopened_roots.is_empty());
    assert_eq!(policy.read_reason(b"/anything"), None);
    assert_eq!(policy.read_reason(b"/x/y"), None);
    let policy = reading(&["/a", "/a/b"], &["/a"], &[]);
    assert_eq!(policy.read_reason(b"/a/c"), None);
}

fn closed() -> NetworkAccess {
    NetworkAccess::Restricted {
        connect_tcp_ports: Vec::new(),
        bind: IpBindAccess::Deny,
        unix_socket_access: UnixSocketAccess::Denied,
    }
}

fn windows(
    allow_read: &[&str],
    deny_read: &[&str],
    network: Result<NetworkAccess, Error>,
) -> Result<AccessPolicy, Error> {
    resolve_windows_policy(
        settings(allow_read, deny_read),
        &vec![roots(&["/w/a"]), Vec::new()],
        &allow_read.iter().map(|_| roots(&["/r/b", "/r/a"])).collect(),
        roots(&["/r/l"]),
        b"/",
        network,
        mode(),
        false,
    )
}

#[test]
fn inherited_access_is_carved() {
    let policy = windows(&["/r", "/q"], &["/r/no"], Ok(closed())).unwrap();
    assert_eq!(policy.write_roots, roots(&["/v", "/w/a"]));
    assert_eq!(policy.write_denied_roots, roots(&["/w/no"]));
    match policy.read_access {
        ReadAccess::AllowRoots(list) => assert_eq!(list, roots(&["/q", "/r/a", "/r/b"])),
        _ => panic!("reads are open"),
    }
    assert!(policy.read_denied_roots.is_empty());
    assert_eq!(policy.read_symlinks, roots(&["/r/l"]));
}

#[test]
fn what_cannot_be_enforced_is_rejected() {
    assert!(matches!(
        windows(&["/"], &["/r/no"], Err(Error::PolicyInvalidPort)),
        Err(Error::PolicyUnrestrictedRead)
    ));
    assert!(matches!(
        windows(&["/r"], &[], Err(Error::PolicyInvalidPort)),
        Err(Error::PolicyInvalidPort)
    ));
    assert!(matches!(
        windows(&["/r"], &[], Ok(closed())),
        Err(Error::PolicyUnrestrictedRead)
    ));
    let binding = NetworkAccess::Restricted {
        connect_tcp_ports: Vec::new(),
        bind: IpBindAccess::Localhost,
        unix_socket_access: UnixSocketAccess::Denied,
    };
    assert!(matches!(
        windows(&["/r"], &["/r/no"], Ok(binding)),
        Err(Error::PolicyTcpBindUnsupported)
    ));
    let sockets = NetworkAccess::Restricted {
        connect_tcp_ports: Vec::new(),
        bind: IpBindAccess::Deny,
        unix_socket_access: UnixSocketAccess::Unrestricted,
    };
    assert!(matches!(
        windows(&["/r"], &["/r/no"], Ok(sockets)),
        Err(Error::PolicyUnixSocketUnsupported)
    ));
    assert!(windows(&["/r"], &["/r/no"], Ok(NetworkAccess::Unrestricted)).is_ok());
}
