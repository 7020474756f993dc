use landstrip::errnos::{errno_name_on, System};
use landstrip::error::{
    errno_name, Cause, Error, Mechanism, PathFailure, PathFailureKind, DENIAL_ERRNO,
};
use landstrip::sys;
use landstrip::text::{characters, decimal_text, show, text_equal};
use landstrip::trap::message;

fn cause(errno: Option<i32>, message: &str, below: &[&str]) -> Cause {
    Cause {
        errno,
        message: message.to_string(),
        below: below.iter().map(|text| text.to_string()).collect(),
    }
}

fn every_error() -> Vec<(Error, &'static str)> {
    let plain = || cause(None, "why", &[]);
    vec![
        (Error::FilesystemDenied, "FILESYSTEM_DENIED"),
        (Error::NetworkDenied, "NETWORK_DENIED"),
        (Error::Usage { message: "bad flag".to_string() }, "USAGE_ERROR"),
        (Error::PolicyParseFailed { source: plain() }, "POLICY_PARSE_FAILED"),
        (Error::policy_io(plain()), "POLICY_IO_FAILED"),
        (Error::PolicyUnrestrictedRead, "POLICY_UNRESTRICTED_READ"),
        (Error::PolicyTcpBindUnsupported, "POLICY_TCP_BIND_UNSUPPORTED"),
        (Error::PolicyUnixSocketUnsupported, "POLICY_UNIX_SOCKET_UNSUPPORTED"),
        (Error::PolicyUnixSocketPath, "POLICY_UNIX_SOCKET_PATH"),
        (Error::PolicyDenyWriteSymlinkAncestor, "POLICY_DENY_WRITE_SYMLINK_ANCESTOR"),
        (Error::PolicyInvalidPort, "POLICY_INVALID_PORT"),
        (Error::PolicyEmptyPath, "POLICY_EMPTY_PATH"),
        (Error::PolicyHomeUnavailable, "POLICY_HOME_UNAVAILABLE"),
        (Error::PolicyTraversalDepth, "POLICY_TRAVERSAL_DEPTH"),
        (Error::sandbox_setup(Mechanism::Landlock, plain()), "SANDBOX_SETUP_FAILED"),
        (Error::supervise(plain()), "SUPERVISE_FAILED"),
        (Error::launch(b"/bin/tool".to_vec(), plain()), "LAUNCH_FAILED"),
        (Error::HostJobIncompatible { source: plain() }, "HOST_JOB_INCOMPATIBLE"),
        (Error::IntegerTooLarge, "INTEGER_TOO_LARGE"),
        (Error::PlatformUnsupported, "PLATFORM_UNSUPPORTED"),
    ]
}

#[test]
fn every_error_has_a_code_of_its_own() {
    let all = every_error();
    for (error, code) in &all {
        assert_eq!(error.code(), *code);
    }
    for (at, (_, code)) in all.iter().enumerate() {
        assert!(all.iter().skip(at + 1).all(|(_, other)| other != code));
    }
}

#[test]
fn only_rejected_policies_have_a_validation_message() {
    let told: Vec<&str> = every_error()
        .iter()
        .filter(|(error, _)| error.policy_validation_message().is_some())
        .map(|(_, code)| *code)
        .collect();
    assert_eq!(
        told,
        vec![
            "POLICY_PARSE_FAILED",
            "POLICY_UNRESTRICTED_READ",
            "POLICY_TCP_BIND_UNSUPPORTED",
            "POLICY_UNIX_SOCKET_UNSUPPORTED",
            "POLICY_UNIX_SOCKET_PATH",
            "POLICY_DENY_WRITE_SYMLINK_ANCESTOR",
            "POLICY_INVALID_PORT",
            "POLICY_EMPTY_PATH",
            "POLICY_HOME_UNAVAILABLE",
            "POLICY_TRAVERSAL_DEPTH",
            "PLATFORM_UNSUPPORTED",
        ]
    );
    assert_eq!(
        Error::PolicyInvalidPort.policy_validation_message(),
        Some("proxy ports must be between 1 and 65535")
    );
    assert_eq!(
        Error::PolicyUnixSocketPath.policy_validation_message(),
        Some("an allowed Unix socket path exists but is not a socket")
    );
}

#[test]
fn an_errno_comes_from_the_cause() {
    assert_eq!(Error::supervise(cause(Some(5), "io", &[])).errno(), Some(5));
    assert_eq!(Error::supervise(cause(None, "io", &[])).errno(), None);
    assert_eq!(Error::PolicyEmptyPath.errno(), None);
    assert_eq!(Error::supervise(cause(None, "io", &[])).source().map(|it| it.message.as_str()), Some("io"));
    assert!(Error::IntegerTooLarge.source().is_none());
}

#[test]
fn errors_are_shown_with_their_detail() {
    assert_eq!(Error::PolicyEmptyPath.display(), "POLICY_EMPTY_PATH");
    assert_eq!(
        Error::Usage { message: "bad flag".to_string() }.display(),
        "USAGE_ERROR: bad flag"
    );
    assert_eq!(
        Error::launch(b"/bin/\xfftool".to_vec(), cause(None, "gone", &[])).display(),
        "LAUNCH_FAILED: /bin/\u{fffd}tool"
    );
    assert_eq!(Error::supervise(cause(None, "gone", &[])).display(), "SUPERVISE_FAILED");
    let job = Error::HostJobIncompatible { source: cause(None, "gone", &[]) };
    assert!(job.detail().unwrap().starts_with("Landstrip is running inside a Job Object"));
}

#[test]
fn a_message_lists_the_detail_and_every_cause() {
    assert_eq!(
        message(&Error::launch(b"tool".to_vec(), cause(None, "a", &["b", "c"]))),
        "tool: a: b: c"
    );
    assert_eq!(message(&Error::supervise(cause(None, "a", &["b"]))), "a: b");
    assert_eq!(message(&Error::PolicyEmptyPath), "POLICY_EMPTY_PATH");
    assert_eq!(message(&Error::supervise(cause(None, "", &[]))), "SUPERVISE_FAILED");
}

#[test]
fn errnos_have_their_posix_names() {
    let named = [
        (libc::E2BIG, "E2BIG"),
        (libc::EACCES, "EACCES"),
        (libc::EADDRINUSE, "EADDRINUSE"),
        (libc::EADDRNOTAVAIL, "EADDRNOTAVAIL"),
        (libc::EAFNOSUPPORT, "EAFNOSUPPORT"),
        (libc::EAGAIN, "EAGAIN"),
        (libc::EALREADY, "EALREADY"),
        (libc::EBADF, "EBADF"),
        (libc::EBADMSG, "EBADMSG"),
        (libc::EBUSY, "EBUSY"),
        (libc::ECANCELED, "ECANCELED"),
        (libc::ECHILD, "ECHILD"),
        (libc::ECONNABORTED, "ECONNABORTED"),
        (libc::ECONNREFUSED, "ECONNREFUSED"),
        (libc::ECONNRESET, "ECONNRESET"),
        (libc::EDEADLK, "EDEADLK"),
        (libc::EDESTADDRREQ, "EDESTADDRREQ"),
        (libc::EDOM, "EDOM"),
        (libc::EDQUOT, "EDQUOT"),
        (libc::EEXIST, "EEXIST"),
        (libc::EFAULT, "EFAULT"),
        (libc::EFBIG, "EFBIG"),
        (libc::EHOSTUNREACH, "EHOSTUNREACH"),
        (libc::EIDRM, "EIDRM"),
        (libc::EILSEQ, "EILSEQ"),
        (libc::EINPROGRESS, "EINPROGRESS"),
        (libc::EINTR, "EINTR"),
        (libc::EINVAL, "EINVAL"),
        (libc::EIO, "EIO"),
        (libc::EISCONN, "EISCONN"),
        (libc::EISDIR, "EISDIR"),
        (libc::ELOOP, "ELOOP"),
        (libc::EMFILE, "EMFILE"),
        (libc::EMLINK, "EMLINK"),
        (libc::EMSGSIZE, "EMSGSIZE"),
        (libc::EMULTIHOP, "EMULTIHOP"),
        (libc::ENAMETOOLONG, "ENAMETOOLONG"),
        (libc::ENETDOWN, "ENETDOWN"),
        (libc::ENETRESET, "ENETRESET"),
        (libc::ENETUNREACH, "ENETUNREACH"),
        (libc::ENFILE, "ENFILE"),
        (libc::ENOBUFS, "ENOBUFS"),
        (libc::ENODATA, "ENODATA"),
        (libc::ENODEV, "ENODEV"),
        (libc::ENOENT, "ENOENT"),
        (libc::ENOEXEC, "ENOEXEC"),
        (libc::ENOLCK, "ENOLCK"),
        (libc::ENOLINK, "ENOLINK"),
        (libc::ENOMEM, "ENOMEM"),
        (libc::ENOMSG, "ENOMSG"),
        (libc::ENOPROTOOPT, "ENOPROTOOPT"),
        (libc::ENOSPC, "ENOSPC"),
        (libc::ENOSR, "ENOSR"),
        (libc::ENOSTR, "ENOSTR"),
        (libc::ENOSYS, "ENOSYS"),
        (libc::ENOTCONN, "ENOTCONN"),
        (libc::ENOTDIR, "ENOTDIR"),
        (libc::ENOTEMPTY, "ENOTEMPTY"),
        (libc::ENOTRECOVERABLE, "ENOTRECOVERABLE"),
        (libc::ENOTSOCK, "ENOTSOCK"),
        (libc::ENOTTY, "ENOTTY"),
        (libc::ENXIO, "ENXIO"),
        (libc::EOPNOTSUPP, "EOPNOTSUPP"),
        (libc::EOVERFLOW, "EOVERFLOW"),
        (libc::EOWNERDEAD, "EOWNERDEAD"),
        (libc::EPERM, "EPERM"),
        (libc::EPIPE, "EPIPE"),
        (libc::EPROTO, "EPROTO"),
        (libc::EPROTONOSUPPORT, "EPROTONOSUPPORT"),
        (libc::EPROTOTYPE, "EPROTOTYPE"),
        (libc::ERANGE, "ERANGE"),
        (libc::EROFS, "EROFS"),
        (libc::ESOCKTNOSUPPORT, "ESOCKTNOSUPPORT"),
        (libc::ESPIPE, "ESPIPE"),
        (libc::ESRCH, "ESRCH"),
        (libc::ESTALE, "ESTALE"),
        (libc::ETIME, "ETIME"),
        (libc::ETIMEDOUT, "ETIMEDOUT"),
        (libc::ETXTBSY, "ETXTBSY"),
        (libc::EXDEV, "EXDEV"),
    ];
    for (errno, name) in named {
        assert_eq!(errno_name(errno), Some(name));
    }
    assert_eq!(errno_name(libc::ENOTSUP), Some("EOPNOTSUPP"));
    assert_eq!(errno_name(libc::EWOULDBLOCK), Some("EAGAIN"));
    assert_eq!(errno_name(0), None);
    assert_eq!(errno_name(-1), None);
    assert_eq!(errno_name(1314), None);
    assert_eq!(errno_name(libc::ENOTBLK), None);
    assert_eq!(DENIAL_ERRNO, libc::EACCES);
}

#[test]
fn systems_number_errors_differently() {
    assert_eq!(errno_name_on(System::Macos, 35), Some("EAGAIN"));
    assert_eq!(errno_name_on(System::Macos, 62), Some("ELOOP"));
    assert_eq!(errno_name_on(System::Macos, 63), Some("ENAMETOOLONG"));
    assert_eq!(errno_name_on(System::Macos, 11), Some("EDEADLK"));
    assert_eq!(errno_name_on(System::Macos, 28), Some("ENOSPC"));
    assert_eq!(errno_name_on(System::Linux, 36), Some("ENAMETOOLONG"));
    assert_eq!(errno_name_on(System::Windows, 5), None);
    assert_eq!(errno_name_on(System::LinuxMips, 36), Some("EIDRM"));
    assert_eq!(errno_name_on(System::LinuxMips, 78), Some("ENAMETOOLONG"));
    assert_eq!(errno_name_on(System::LinuxMips, 90), Some("ELOOP"));
    assert_eq!(errno_name_on(System::LinuxMips, 1133), Some("EDQUOT"));
    assert_eq!(errno_name_on(System::LinuxMips, 11), Some("EAGAIN"));
    assert_eq!(errno_name_on(System::LinuxSparc, 36), Some("EINPROGRESS"));
    assert_eq!(errno_name_on(System::LinuxSparc, 62), Some("ELOOP"));
    assert_eq!(errno_name_on(System::LinuxSparc, 63), Some("ENAMETOOLONG"));
    assert_eq!(errno_name_on(System::LinuxSparc, 34), Some("ERANGE"));
}

#[test]
fn mechanisms_have_lowercase_names() {
    assert_eq!(Mechanism::Landlock.name(), "landlock");
    assert_eq!(Mechanism::Seccomp.name(), "seccomp");
    assert_eq!(Mechanism::Seatbelt.name(), "seatbelt");
    assert_eq!(Mechanism::Appcontainer.name(), "appcontainer");
    assert_eq!(Mechanism::Windowsuser.name(), "windowsuser");
}

#[test]
fn hidden_paths_and_failed_transports_are_told_apart() {
    let failure = |kind, errno| PathFailure { kind, errno };
    assert!(failure(PathFailureKind::NotFound, Some(2)).is_opaque());
    assert!(failure(PathFailureKind::PermissionDenied, Some(13)).is_opaque());
    assert!(!failure(PathFailureKind::NotFound, Some(2)).is_transport_failed());
    assert!(failure(PathFailureKind::NotConnected, None).is_transport_failed());
    assert!(failure(PathFailureKind::Other, Some(libc::EIO)).is_transport_failed());
    assert!(failure(PathFailureKind::Other, Some(libc::EIO)).is_opaque());
    assert!(!failure(PathFailureKind::Other, Some(libc::ELOOP)).is_opaque());
}

#[test]
fn numbers_and_texts_are_written_out() {
    assert_eq!(decimal_text(0), "0");
    assert_eq!(decimal_text(1207), "1207");
    assert_eq!(decimal_text(u64::MAX), "18446744073709551615");
    assert_eq!(show(b"caf\xc3\xa9"), "caf\u{e9}");
    assert_eq!(show(b"a\xffb"), "a\u{fffd}b");
    assert!(text_equal("caf\u{e9}", "caf\u{e9}"));
    assert!(!text_equal("caf\u{e9}", "cafe"));
    assert_eq!(characters("a\u{e9}b"), vec!['a', '\u{e9}', 'b']);
}

#[test]
fn system_constants_are_those_of_the_platform() {
    assert_eq!(sys::EEXIST, libc::EEXIST);
    assert_eq!(sys::O_WRONLY, libc::O_WRONLY);
    assert_eq!(sys::O_RDWR, libc::O_RDWR);
    assert_eq!(sys::AT_FDCWD, libc::AT_FDCWD);
    assert_eq!(sys::AT_SYMLINK_NOFOLLOW, libc::AT_SYMLINK_NOFOLLOW);
    assert_eq!(sys::AT_SYMLINK_FOLLOW, libc::AT_SYMLINK_FOLLOW);
    assert_eq!(sys::AT_REMOVEDIR, libc::AT_REMOVEDIR);
    assert_eq!(sys::AF_UNSPEC, libc::AF_UNSPEC);
    assert_eq!(sys::AF_UNIX, libc::AF_UNIX);
    assert_eq!(sys::AF_INET, libc::AF_INET);
    assert_eq!(sys::AF_INET6, libc::AF_INET6);
    assert_eq!(sys::AF_NETLINK, libc::AF_NETLINK);
    assert_eq!(sys::AF_PACKET, libc::AF_PACKET);
    assert_eq!(sys::IPPROTO_TCP, libc::IPPROTO_TCP);
    assert_eq!(sys::IPPROTO_UDP, libc::IPPROTO_UDP);
    assert_eq!(sys::IPPROTO_IP, libc::IPPROTO_IP);
    assert_eq!(sys::IPPROTO_IPV6, libc::IPPROTO_IPV6);
    assert_eq!(sys::SOL_UDP, libc::SOL_UDP);
    assert_eq!(sys::IP_TOS, libc::IP_TOS);
    assert_eq!(sys::IP_TTL, libc::IP_TTL);
    assert_eq!(sys::IPV6_HOPLIMIT, libc::IPV6_HOPLIMIT);
    assert_eq!(sys::IPV6_TCLASS, libc::IPV6_TCLASS);
    assert_eq!(sys::UDP_SEGMENT, libc::UDP_SEGMENT);
    assert_eq!(sys::MSG_ZEROCOPY, libc::MSG_ZEROCOPY);
    assert_eq!(sys::SOCKADDR_IN_LEN, std::mem::size_of::<libc::sockaddr_in>());
    assert_eq!(sys::SOCKADDR_IN6_LEN, std::mem::size_of::<libc::sockaddr_in6>());
    assert_eq!(sys::SOCKADDR_UN_LEN, std::mem::size_of::<libc::sockaddr_un>());
    assert_eq!(sys::SOCKADDR_STORAGE_LEN, std::mem::size_of::<libc::sockaddr_storage>());
}
