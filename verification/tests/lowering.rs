use landstrip::error::Error;
use landstrip::lowering::{
    canonical_pattern, carve_denials, carve_step, effective_denied_roots, has_denied_descendant,
    is_pattern_path, lower_network_policy, lower_read_access, lower_restricted_read_access,
    lower_windows_read_access, lower_windows_write_access, normalize_patterns, path_candidates,
    path_prefixes, policy_base, push_links, push_paths, push_proxy_port, reopened_denied_roots, resolve_deny_paths,
    resolve_paths, resolve_sandbox_path, uncarved_denials, CarveStep, ReadLowering,
    SandboxNetwork, SocketState,
};
use landstrip::policy::{
    AccessPolicy, AppContainerMode, IpBindAccess, NetworkAccess, ReadAccess, UnixSocketAccess,
};

fn roots(list: &[&str]) -> Vec<Vec<u8>> {
    list.iter().map(|text| text.as_bytes().to_vec()).collect()
}

fn names(list: &[&str]) -> Vec<String> {
    list.iter().map(|text| text.to_string()).collect()
}

fn policy() -> AccessPolicy {
    AccessPolicy {
        write_roots: roots(&["/work"]),
        write_denied_roots: Vec::new(),
        write_denied_patterns: Vec::new(),
        write_denied_links: Vec::new(),
        read_access: ReadAccess::AllowRoots(roots(&["/"])),
        read_denied_roots: Vec::new(),
        read_reopened_roots: Vec::new(),
        read_symlinks: Vec::new(),
        network_access: NetworkAccess::Unrestricted,
        app_container_mode: AppContainerMode { name: "lpac".to_string() },
        allow_windows_loopback: false,
    }
}

fn network() -> SandboxNetwork {
    SandboxNetwork {
        allow_network: false,
        http_proxy_port: None,
        socks_proxy_port: None,
        allow_unix_sockets: Vec::new(),
        allow_all_unix_sockets: false,
        allow_local_binding: false,
    }
}

#[test]
fn policy_paths_are_resolved_against_base_and_home() {
    let home: Option<&[u8]> = Some(b"/home/me");
    assert_eq!(resolve_sandbox_path("/a/../b", b"/base", home).unwrap(), b"/b");
    assert_eq!(resolve_sandbox_path("x/y", b"/base", home).unwrap(), b"/base/x/y");
    assert_eq!(resolve_sandbox_path("~", b"/base", home).unwrap(), b"/home/me");
    assert_eq!(resolve_sandbox_path("~/x", b"/base", home).unwrap(), b"/home/me/x");
    assert_eq!(resolve_sandbox_path("~//x", b"/base", home).unwrap(), b"/x");
    assert_eq!(resolve_sandbox_path("~x", b"/base", home).unwrap(), b"/base/~x");
    assert_eq!(resolve_sandbox_path("~x", b"/base", None).unwrap(), b"/base/~x");
    assert!(matches!(resolve_sandbox_path("", b"/base", home), Err(Error::PolicyEmptyPath)));
    assert!(matches!(resolve_sandbox_path("~", b"/base", None), Err(Error::PolicyHomeUnavailable)));
    assert!(matches!(resolve_sandbox_path("~/x", b"/base", None), Err(Error::PolicyHomeUnavailable)));
}

#[test]
fn a_resolved_path_is_absolute() {
    for text in ["a", "./a", "../../a", "~", "/", "a/*"] {
        let path = resolve_sandbox_path(text, b"/base", Some(b"/home/me")).unwrap();
        assert_eq!(path[0], b'/');
    }
}

#[test]
fn the_policy_base_is_absolute_and_normal() {
    assert_eq!(policy_base(b"/a/./b", b"/cwd"), b"/a/b");
    assert_eq!(policy_base(b"conf", b"/cwd"), b"/cwd/conf");
    assert_eq!(policy_base(b"../conf", b"/cwd/x"), b"/cwd/conf");
}

#[test]
fn lists_of_paths_stop_at_the_first_error() {
    let found = resolve_paths(&names(&["/b", "a"]), b"/base", None).unwrap();
    assert_eq!(found, roots(&["/b", "/base/a"]));
    assert!(matches!(
        resolve_paths(&names(&["/b", "", "~"]), b"/base", None),
        Err(Error::PolicyEmptyPath)
    ));
}

#[test]
fn denied_paths_are_parted_from_patterns() {
    let found = resolve_deny_paths(&names(&["/b", "*.key", "/c/[x]"]), b"/base", None).unwrap();
    assert_eq!(found.concrete, roots(&["/b"]));
    assert_eq!(found.patterns, names(&["/base/*.key", "/c/[x]"]));
    assert!(matches!(
        resolve_deny_paths(&names(&["~"]), b"/base", None),
        Err(Error::PolicyHomeUnavailable)
    ));
    assert!(is_pattern_path(b"/a/*"));
    assert!(!is_pattern_path(b"/a/b"));
}

#[test]
fn a_pattern_moves_with_its_base() {
    assert_eq!(
        canonical_pattern(b"/tmp/x/*.key", b"/tmp/x", b"/private/tmp/x"),
        Some(b"/private/tmp/x/*.key".to_vec())
    );
    assert_eq!(canonical_pattern(b"/tmp/x/*.key", b"/tmp/x", b"/tmp/x"), None);
    assert_eq!(canonical_pattern(b"/tmp/x/*.key", b"/other", b"/private"), None);
}

#[test]
fn a_pattern_without_a_match_stands_for_itself_where_it_exists() {
    assert_eq!(path_candidates(b"/a".to_vec(), None, false), roots(&["/a"]));
    assert_eq!(path_candidates(b"/[a]".to_vec(), Some(Vec::new()), true), roots(&["/[a]"]));
    assert!(path_candidates(b"/[a]".to_vec(), Some(Vec::new()), false).is_empty());
    assert_eq!(path_candidates(b"/*".to_vec(), Some(roots(&["/x"])), true), roots(&["/x"]));
}

#[test]
fn patterns_are_sorted_without_repeats() {
    assert_eq!(normalize_patterns(names(&["/b*", "/a*", "/b*"])), names(&["/a*", "/b*"]));
    assert!(normalize_patterns(Vec::new()).is_empty());
}

#[test]
fn an_allowance_below_a_denial_lifts_it() {
    let left = effective_denied_roots(
        &roots(&["/home", "/home/me/.ssh", "/etc"]),
        &roots(&["/home/me", "/etc"]),
    );
    assert_eq!(left, roots(&["/home/me/.ssh"]));
}

#[test]
fn denials_are_opened_again_in_part() {
    let part = reopened_denied_roots(
        &roots(&["/home", "/home/me/.ssh", "/etc", "/srv"]),
        &roots(&["/home/me", "/etc", "/"]),
    );
    assert_eq!(part, roots(&["/home"]));
}

#[test]
fn proxy_ports_are_checked() {
    let mut ports = Vec::new();
    assert!(push_proxy_port(&mut ports, None).is_ok());
    assert!(ports.is_empty());
    assert!(push_proxy_port(&mut ports, Some(8080)).is_ok());
    assert_eq!(ports, vec![8080]);
    assert!(matches!(push_proxy_port(&mut ports, Some(0)), Err(Error::PolicyInvalidPort)));
    assert_eq!(ports, vec![8080]);
    assert!(push_proxy_port(&mut ports, Some(80)).is_ok());
    assert!(push_proxy_port(&mut ports, Some(8080)).is_ok());
    assert_eq!(ports, vec![8080, 80, 8080]);
}

#[test]
fn the_network_is_lowered() {
    let mut open = network();
    open.allow_network = true;
    open.http_proxy_port = Some(0);
    assert!(matches!(
        lower_network_policy(&open, Err(Error::PolicyEmptyPath)),
        Ok(NetworkAccess::Unrestricted)
    ));

    match lower_network_policy(&network(), Ok(Vec::new())).unwrap() {
        NetworkAccess::Restricted { connect_tcp_ports, bind, unix_socket_access } => {
            assert!(connect_tcp_ports.is_empty());
            assert_eq!(bind, IpBindAccess::Deny);
            assert!(unix_socket_access.is_denied());
        }
        _ => panic!("not restricted"),
    }

    let mut proxied = network();
    proxied.http_proxy_port = Some(9000);
    proxied.socks_proxy_port = Some(1080);
    proxied.allow_local_binding = true;
    match lower_network_policy(&proxied, Ok(roots(&["/run/x"]))).unwrap() {
        NetworkAccess::Restricted { connect_tcp_ports, bind, unix_socket_access } => {
            assert_eq!(connect_tcp_ports, vec![1080, 9000]);
            assert_eq!(bind, IpBindAccess::Localhost);
            match unix_socket_access {
                UnixSocketAccess::AllowPaths(paths) => assert_eq!(paths, roots(&["/run/x"])),
                _ => panic!("not listed"),
            }
        }
        _ => panic!("not restricted"),
    }

    proxied.socks_proxy_port = Some(9000);
    proxied.allow_all_unix_sockets = true;
    match lower_network_policy(&proxied, Ok(roots(&["/run/x"]))).unwrap() {
        NetworkAccess::Restricted { connect_tcp_ports, unix_socket_access, .. } => {
            assert_eq!(connect_tcp_ports, vec![9000]);
            assert!(matches!(unix_socket_access, UnixSocketAccess::Unrestricted));
        }
        _ => panic!("not restricted"),
    }

    let mut bad = network();
    bad.socks_proxy_port = Some(0);
    assert!(matches!(
        lower_network_policy(&bad, Err(Error::PolicyEmptyPath)),
        Err(Error::PolicyInvalidPort)
    ));
    assert!(matches!(
        lower_network_policy(&network(), Err(Error::PolicyEmptyPath)),
        Err(Error::PolicyEmptyPath)
    ));
}

#[test]
fn reads_are_lowered() {
    let all = roots(&["/"]);
    let none: Vec<Vec<u8>> = Vec::new();
    assert_eq!(lower_read_access(&none, &none, b"/", false).unwrap(), ReadLowering::Unrestricted);
    assert_eq!(
        lower_read_access(&all, &roots(&["/etc"]), b"/", false).unwrap(),
        ReadLowering::WholeFilesystem
    );
    assert_eq!(
        lower_read_access(&roots(&["/", "/etc/x"]), &roots(&["/etc"]), b"/", false).unwrap(),
        ReadLowering::Scan
    );
    assert_eq!(
        lower_read_access(&none, &roots(&["/etc"]), b"/", false).unwrap(),
        ReadLowering::Scan
    );
    assert!(matches!(
        lower_read_access(&all, &none, b"/", true),
        Err(Error::PolicyUnrestrictedRead)
    ));
}

#[test]
fn denials_are_carved_out_of_roots() {
    assert!(has_denied_descendant(b"/a", &roots(&["/a/b"])));
    assert!(!has_denied_descendant(b"/a", &roots(&["/a", "/ab"])));
    assert_eq!(carve_step(b"/a", &roots(&["/a/b"]), &roots(&["/a"])), CarveStep::Scan);
    assert_eq!(carve_step(b"/a/b", &roots(&["/a"]), &roots(&["/a"])), CarveStep::Drop);
    assert_eq!(carve_step(b"/a/b", &roots(&["/a"]), &roots(&["/q"])), CarveStep::Keep);
    assert_eq!(carve_denials(&roots(&["/b", "/a"]), &roots(&["/a", "/c"])), roots(&["/a", "/b", "/c"]));
    let mut list = roots(&["/a"]);
    push_paths(&mut list, &roots(&["/b", "/c"]));
    assert_eq!(list, roots(&["/a", "/b", "/c"]));
    assert_eq!(uncarved_denials(&roots(&["/a/b", "/c"]), &roots(&["/a"])), roots(&["/c"]));
}

#[test]
fn inheriting_writes_lose_their_denied_parts() {
    let (allowed, denied) = lower_windows_write_access(
        &roots(&["/w", "/v", "/u/x"]),
        &roots(&["/w/secret", "/u"]),
        &roots(&["/w/hidden"]),
        &vec![roots(&["/w/a", "/w/b"]), Vec::new(), Vec::new()],
    );
    assert_eq!(allowed, roots(&["/v", "/w/a", "/w/b"]));
    assert_eq!(denied, roots(&["/w/secret", "/u"]));
}

#[test]
fn inheriting_reads_lose_their_denied_parts() {
    let kept = lower_windows_read_access(
        &roots(&["/r", "/q"]),
        &roots(&["/r/secret"]),
        &vec![roots(&["/r/b", "/r/a"]), Vec::new()],
    );
    assert_eq!(kept, roots(&["/q", "/r/a", "/r/b"]));
}

#[test]
fn explicit_allowances_join_the_scanned_roots() {
    let scanned = || roots(&["/usr", "/bin"]);
    let allowed = roots(&["/home/me", "/"]);
    let joined = lower_restricted_read_access(scanned(), &allowed, &roots(&["/home"]));
    assert_eq!(joined, roots(&["/bin", "/home/me", "/usr"]));
    let joined = lower_restricted_read_access(Vec::new(), &allowed, &roots(&["/"]));
    assert_eq!(joined, roots(&["/", "/home/me"]));
}

#[test]
fn link_ancestors_are_collected() {
    let prefixes = path_prefixes(b"/a/b");
    assert_eq!(prefixes, roots(&["/", "/a", "/a/b"]));
    let mut links = Vec::new();
    push_links(&mut links, &prefixes, &[false, true, true]);
    assert_eq!(links, roots(&["/a", "/a/b"]));
}

#[test]
fn seatbelt_policies_are_checked() {
    let mut policy = policy();
    assert!(policy.validate_macos(&[]).is_ok());
    assert!(policy.validate_macos(&[SocketState::Other]).is_ok());
    policy.network_access = NetworkAccess::Restricted {
        connect_tcp_ports: Vec::new(),
        bind: IpBindAccess::Deny,
        unix_socket_access: UnixSocketAccess::AllowPaths(roots(&["/run/a", "/run/b"])),
    };
    assert!(policy.validate_macos(&[SocketState::Socket, SocketState::Absent]).is_ok());
    assert!(matches!(
        policy.validate_macos(&[SocketState::Socket, SocketState::Other]),
        Err(Error::PolicyUnixSocketPath)
    ));
    policy.write_denied_links = roots(&["/work/link"]);
    assert!(matches!(
        policy.validate_macos(&[SocketState::Socket, SocketState::Absent]),
        Err(Error::PolicyDenyWriteSymlinkAncestor)
    ));
}

#[test]
fn container_policies_are_checked() {
    let mut policy = policy();
    assert!(policy.validate_windows().is_ok());
    policy.network_access = NetworkAccess::Restricted {
        connect_tcp_ports: vec![80],
        bind: IpBindAccess::Deny,
        unix_socket_access: UnixSocketAccess::Denied,
    };
    assert!(policy.validate_windows().is_ok());
    policy.network_access = NetworkAccess::Restricted {
        connect_tcp_ports: Vec::new(),
        bind: IpBindAccess::Deny,
        unix_socket_access: UnixSocketAccess::Unrestricted,
    };
    assert!(matches!(policy.validate_windows(), Err(Error::PolicyUnixSocketUnsupported)));
    policy.network_access = NetworkAccess::Restricted {
        connect_tcp_ports: Vec::new(),
        bind: IpBindAccess::Localhost,
        unix_socket_access: UnixSocketAccess::Unrestricted,
    };
    assert!(matches!(policy.validate_windows(), Err(Error::PolicyTcpBindUnsupported)));
    policy.read_access = ReadAccess::Unrestricted;
    assert!(matches!(policy.validate_windows(), Err(Error::PolicyUnrestrictedRead)));
}
