//! The POSIX names of error numbers. The systems number them differently, and
//! a Win32 status has none.

use vstd::prelude::*;

verus! {

/// The system whose error numbers are meant. Linux numbers them differently on
/// MIPS and SPARC than on its other machines.
#[derive(Clone, Copy, Debug, PartialEq, Eq, Structural)]
pub enum System {
    Linux,
    LinuxMips,
    LinuxSparc,
    Macos,
    Windows,
}

/// Whether a name is this text, if there is one.
pub open spec fn names(name: Option<&'static str>, text: Option<Seq<char>>) -> bool {
    &&& name is Some <==> text is Some
    &&& name matches Some(found) ==> found@ == text->0
}

/// The POSIX names of the error numbers on which the systems agree.
pub open spec fn shared_text(errno: i32) -> Option<Seq<char>> {
    match errno {
        1 => Some("EPERM"@),
        2 => Some("ENOENT"@),
        3 => Some("ESRCH"@),
        4 => Some("EINTR"@),
        5 => Some("EIO"@),
        6 => Some("ENXIO"@),
        7 => Some("E2BIG"@),
        8 => Some("ENOEXEC"@),
        9 => Some("EBADF"@),
        10 => Some("ECHILD"@),
        12 => Some("ENOMEM"@),
        13 => Some("EACCES"@),
        14 => Some("EFAULT"@),
        16 => Some("EBUSY"@),
        17 => Some("EEXIST"@),
        18 => Some("EXDEV"@),
        19 => Some("ENODEV"@),
        20 => Some("ENOTDIR"@),
        21 => Some("EISDIR"@),
        22 => Some("EINVAL"@),
        23 => Some("ENFILE"@),
        24 => Some("EMFILE"@),
        25 => Some("ENOTTY"@),
        26 => Some("ETXTBSY"@),
        27 => Some("EFBIG"@),
        28 => Some("ENOSPC"@),
        29 => Some("ESPIPE"@),
        30 => Some("EROFS"@),
        31 => Some("EMLINK"@),
        32 => Some("EPIPE"@),
        33 => Some("EDOM"@),
        34 => Some("ERANGE"@),
        _ => None,
    }
}

/// The POSIX names of the error numbers that are Linux's own on most
/// machines.
pub open spec fn linux_text(errno: i32) -> Option<Seq<char>> {
    match errno {
        11 => Some("EAGAIN"@),
        35 => Some("EDEADLK"@),
        36 => Some("ENAMETOOLONG"@),
        37 => Some("ENOLCK"@),
        38 => Some("ENOSYS"@),
        39 => Some("ENOTEMPTY"@),
        40 => Some("ELOOP"@),
        42 => Some("ENOMSG"@),
        43 => Some("EIDRM"@),
        60 => Some("ENOSTR"@),
        61 => Some("ENODATA"@),
        62 => Some("ETIME"@),
        63 => Some("ENOSR"@),
        67 => Some("ENOLINK"@),
        71 => Some("EPROTO"@),
        72 => Some("EMULTIHOP"@),
        74 => Some("EBADMSG"@),
        75 => Some("EOVERFLOW"@),
        84 => Some("EILSEQ"@),
        88 => Some("ENOTSOCK"@),
        89 => Some("EDESTADDRREQ"@),
        90 => Some("EMSGSIZE"@),
        91 => Some("EPROTOTYPE"@),
        92 => Some("ENOPROTOOPT"@),
        93 => Some("EPROTONOSUPPORT"@),
        94 => Some("ESOCKTNOSUPPORT"@),
        95 => Some("EOPNOTSUPP"@),
        97 => Some("EAFNOSUPPORT"@),
        98 => Some("EADDRINUSE"@),
        99 => Some("EADDRNOTAVAIL"@),
        100 => Some("ENETDOWN"@),
        101 => Some("ENETUNREACH"@),
        102 => Some("ENETRESET"@),
        103 => Some("ECONNABORTED"@),
        104 => Some("ECONNRESET"@),
        105 => Some("ENOBUFS"@),
        106 => Some("EISCONN"@),
        107 => Some("ENOTCONN"@),
        110 => Some("ETIMEDOUT"@),
        111 => Some("ECONNREFUSED"@),
        113 => Some("EHOSTUNREACH"@),
        114 => Some("EALREADY"@),
        115 => Some("EINPROGRESS"@),
        116 => Some("ESTALE"@),
        122 => Some("EDQUOT"@),
        125 => Some("ECANCELED"@),
        130 => Some("EOWNERDEAD"@),
        131 => Some("ENOTRECOVERABLE"@),
        _ => None,
    }
}

/// The POSIX names of the error numbers that are those of Linux on MIPS.
pub open spec fn mips_text(errno: i32) -> Option<Seq<char>> {
    match errno {
        11 => Some("EAGAIN"@),
        35 => Some("ENOMSG"@),
        36 => Some("EIDRM"@),
        45 => Some("EDEADLK"@),
        46 => Some("ENOLCK"@),
        60 => Some("ENOSTR"@),
        61 => Some("ENODATA"@),
        62 => Some("ETIME"@),
        63 => Some("ENOSR"@),
        67 => Some("ENOLINK"@),
        71 => Some("EPROTO"@),
        74 => Some("EMULTIHOP"@),
        77 => Some("EBADMSG"@),
        78 => Some("ENAMETOOLONG"@),
        79 => Some("EOVERFLOW"@),
        88 => Some("EILSEQ"@),
        89 => Some("ENOSYS"@),
        90 => Some("ELOOP"@),
        93 => Some("ENOTEMPTY"@),
        95 => Some("ENOTSOCK"@),
        96 => Some("EDESTADDRREQ"@),
        97 => Some("EMSGSIZE"@),
        98 => Some("EPROTOTYPE"@),
        99 => Some("ENOPROTOOPT"@),
        120 => Some("EPROTONOSUPPORT"@),
        121 => Some("ESOCKTNOSUPPORT"@),
        122 => Some("EOPNOTSUPP"@),
        124 => Some("EAFNOSUPPORT"@),
        125 => Some("EADDRINUSE"@),
        126 => Some("EADDRNOTAVAIL"@),
        127 => Some("ENETDOWN"@),
        128 => Some("ENETUNREACH"@),
        129 => Some("ENETRESET"@),
        130 => Some("ECONNABORTED"@),
        131 => Some("ECONNRESET"@),
        132 => Some("ENOBUFS"@),
        133 => Some("EISCONN"@),
        134 => Some("ENOTCONN"@),
        145 => Some("ETIMEDOUT"@),
        146 => Some("ECONNREFUSED"@),
        148 => Some("EHOSTUNREACH"@),
        149 => Some("EALREADY"@),
        150 => Some("EINPROGRESS"@),
        151 => Some("ESTALE"@),
        158 => Some("ECANCELED"@),
        165 => Some("EOWNERDEAD"@),
        166 => Some("ENOTRECOVERABLE"@),
        1133 => Some("EDQUOT"@),
        _ => None,
    }
}

/// The POSIX names of the error numbers that are those of Linux on SPARC.
pub open spec fn sparc_text(errno: i32) -> Option<Seq<char>> {
    match errno {
        11 => Some("EAGAIN"@),
        36 => Some("EINPROGRESS"@),
        37 => Some("EALREADY"@),
        38 => Some("ENOTSOCK"@),
        39 => Some("EDESTADDRREQ"@),
        40 => Some("EMSGSIZE"@),
        41 => Some("EPROTOTYPE"@),
        42 => Some("ENOPROTOOPT"@),
        43 => Some("EPROTONOSUPPORT"@),
        44 => Some("ESOCKTNOSUPPORT"@),
        45 => Some("EOPNOTSUPP"@),
        47 => Some("EAFNOSUPPORT"@),
        48 => Some("EADDRINUSE"@),
        49 => Some("EADDRNOTAVAIL"@),
        50 => Some("ENETDOWN"@),
        51 => Some("ENETUNREACH"@),
        52 => Some("ENETRESET"@),
        53 => Some("ECONNABORTED"@),
        54 => Some("ECONNRESET"@),
        55 => Some("ENOBUFS"@),
        56 => Some("EISCONN"@),
        57 => Some("ENOTCONN"@),
        60 => Some("ETIMEDOUT"@),
        61 => Some("ECONNREFUSED"@),
        62 => Some("ELOOP"@),
        63 => Some("ENAMETOOLONG"@),
        65 => Some("EHOSTUNREACH"@),
        66 => Some("ENOTEMPTY"@),
        69 => Some("EDQUOT"@),
        70 => Some("ESTALE"@),
        72 => Some("ENOSTR"@),
        73 => Some("ETIME"@),
        74 => Some("ENOSR"@),
        75 => Some("ENOMSG"@),
        76 => Some("EBADMSG"@),
        77 => Some("EIDRM"@),
        78 => Some("EDEADLK"@),
        79 => Some("ENOLCK"@),
        82 => Some("ENOLINK"@),
        86 => Some("EPROTO"@),
        87 => Some("EMULTIHOP"@),
        90 => Some("ENOSYS"@),
        92 => Some("EOVERFLOW"@),
        111 => Some("ENODATA"@),
        122 => Some("EILSEQ"@),
        127 => Some("ECANCELED"@),
        132 => Some("EOWNERDEAD"@),
        133 => Some("ENOTRECOVERABLE"@),
        _ => None,
    }
}

/// The POSIX names of the error numbers that are macOS's own.
pub open spec fn macos_text(errno: i32) -> Option<Seq<char>> {
    match errno {
        11 => Some("EDEADLK"@),
        35 => Some("EAGAIN"@),
        36 => Some("EINPROGRESS"@),
        37 => Some("EALREADY"@),
        38 => Some("ENOTSOCK"@),
        39 => Some("EDESTADDRREQ"@),
        40 => Some("EMSGSIZE"@),
        41 => Some("EPROTOTYPE"@),
        42 => Some("ENOPROTOOPT"@),
        43 => Some("EPROTONOSUPPORT"@),
        44 => Some("ESOCKTNOSUPPORT"@),
        45 => Some("ENOTSUP"@),
        47 => Some("EAFNOSUPPORT"@),
        48 => Some("EADDRINUSE"@),
        49 => Some("EADDRNOTAVAIL"@),
        50 => Some("ENETDOWN"@),
        51 => Some("ENETUNREACH"@),
        52 => Some("ENETRESET"@),
        53 => Some("ECONNABORTED"@),
        54 => Some("ECONNRESET"@),
        55 => Some("ENOBUFS"@),
        56 => Some("EISCONN"@),
        57 => Some("ENOTCONN"@),
        60 => Some("ETIMEDOUT"@),
        61 => Some("ECONNREFUSED"@),
        62 => Some("ELOOP"@),
        63 => Some("ENAMETOOLONG"@),
        65 => Some("EHOSTUNREACH"@),
        66 => Some("ENOTEMPTY"@),
        69 => Some("EDQUOT"@),
        70 => Some("ESTALE"@),
        77 => Some("ENOLCK"@),
        78 => Some("ENOSYS"@),
        84 => Some("EOVERFLOW"@),
        89 => Some("ECANCELED"@),
        90 => Some("EIDRM"@),
        91 => Some("ENOMSG"@),
        92 => Some("EILSEQ"@),
        94 => Some("EBADMSG"@),
        95 => Some("EMULTIHOP"@),
        96 => Some("ENODATA"@),
        97 => Some("ENOLINK"@),
        98 => Some("ENOSR"@),
        99 => Some("ENOSTR"@),
        100 => Some("EPROTO"@),
        101 => Some("ETIME"@),
        102 => Some("EOPNOTSUPP"@),
        104 => Some("ENOTRECOVERABLE"@),
        105 => Some("EOWNERDEAD"@),
        _ => None,
    }
}

/// The POSIX name of an error number on a system, or `None` where it has none.
pub open spec fn errno_text_on(system: System, errno: i32) -> Option<Seq<char>> {
    let own = match system {
        System::Linux => linux_text(errno),
        System::LinuxMips => mips_text(errno),
        System::LinuxSparc => sparc_text(errno),
        System::Macos => macos_text(errno),
        System::Windows => None,
    };
    if own is Some || system == System::Windows {
        own
    } else {
        shared_text(errno)
    }
}

/// The POSIX name of an error number on which the systems agree.
fn shared_name(errno: i32) -> (name: Option<&'static str>)
    ensures
        names(name, shared_text(errno)),
{
    match errno {
        1 => Some("EPERM"),
        2 => Some("ENOENT"),
        3 => Some("ESRCH"),
        4 => Some("EINTR"),
        5 => Some("EIO"),
        6 => Some("ENXIO"),
        7 => Some("E2BIG"),
        8 => Some("ENOEXEC"),
        9 => Some("EBADF"),
        10 => Some("ECHILD"),
        12 => Some("ENOMEM"),
        13 => Some("EACCES"),
        14 => Some("EFAULT"),
        16 => Some("EBUSY"),
        17 => Some("EEXIST"),
        18 => Some("EXDEV"),
        19 => Some("ENODEV"),
        20 => Some("ENOTDIR"),
        21 => Some("EISDIR"),
        22 => Some("EINVAL"),
        23 => Some("ENFILE"),
        24 => Some("EMFILE"),
        25 => Some("ENOTTY"),
        26 => Some("ETXTBSY"),
        27 => Some("EFBIG"),
        28 => Some("ENOSPC"),
        29 => Some("ESPIPE"),
        30 => Some("EROFS"),
        31 => Some("EMLINK"),
        32 => Some("EPIPE"),
        33 => Some("EDOM"),
        34 => Some("ERANGE"),
        _ => None,
    }
}

/// The POSIX name of an error number that is Linux's own on most machines.
fn linux_name(errno: i32) -> (name: Option<&'static str>)
    ensures
        names(name, linux_text(errno)),
{
    match errno {
        11 => Some("EAGAIN"),
        35 => Some("EDEADLK"),
        36 => Some("ENAMETOOLONG"),
        37 => Some("ENOLCK"),
        38 => Some("ENOSYS"),
        39 => Some("ENOTEMPTY"),
        40 => Some("ELOOP"),
        42 => Some("ENOMSG"),
        43 => Some("EIDRM"),
        60 => Some("ENOSTR"),
        61 => Some("ENODATA"),
        62 => Some("ETIME"),
        63 => Some("ENOSR"),
        67 => Some("ENOLINK"),
        71 => Some("EPROTO"),
        72 => Some("EMULTIHOP"),
        74 => Some("EBADMSG"),
        75 => Some("EOVERFLOW"),
        84 => Some("EILSEQ"),
        88 => Some("ENOTSOCK"),
        89 => Some("EDESTADDRREQ"),
        90 => Some("EMSGSIZE"),
        91 => Some("EPROTOTYPE"),
        92 => Some("ENOPROTOOPT"),
        93 => Some("EPROTONOSUPPORT"),
        94 => Some("ESOCKTNOSUPPORT"),
        95 => Some("EOPNOTSUPP"),
        97 => Some("EAFNOSUPPORT"),
        98 => Some("EADDRINUSE"),
        99 => Some("EADDRNOTAVAIL"),
        100 => Some("ENETDOWN"),
        101 => Some("ENETUNREACH"),
        102 => Some("ENETRESET"),
        103 => Some("ECONNABORTED"),
        104 => Some("ECONNRESET"),
        105 => Some("ENOBUFS"),
        106 => Some("EISCONN"),
        107 => Some("ENOTCONN"),
        110 => Some("ETIMEDOUT"),
        111 => Some("ECONNREFUSED"),
        113 => Some("EHOSTUNREACH"),
        114 => Some("EALREADY"),
        115 => Some("EINPROGRESS"),
        116 => Some("ESTALE"),
        122 => Some("EDQUOT"),
        125 => Some("ECANCELED"),
        130 => Some("EOWNERDEAD"),
        131 => Some("ENOTRECOVERABLE"),
        _ => None,
    }
}

/// The POSIX name of an error number that is one of Linux on MIPS.
fn mips_name(errno: i32) -> (name: Option<&'static str>)
    ensures
        names(name, mips_text(errno)),
{
    match errno {
        11 => Some("EAGAIN"),
        35 => Some("ENOMSG"),
        36 => Some("EIDRM"),
        45 => Some("EDEADLK"),
        46 => Some("ENOLCK"),
        60 => Some("ENOSTR"),
        61 => Some("ENODATA"),
        62 => Some("ETIME"),
        63 => Some("ENOSR"),
        67 => Some("ENOLINK"),
        71 => Some("EPROTO"),
        74 => Some("EMULTIHOP"),
        77 => Some("EBADMSG"),
        78 => Some("ENAMETOOLONG"),
        79 => Some("EOVERFLOW"),
        88 => Some("EILSEQ"),
        89 => Some("ENOSYS"),
        90 => Some("ELOOP"),
        93 => Some("ENOTEMPTY"),
        95 => Some("ENOTSOCK"),
        96 => Some("EDESTADDRREQ"),
        97 => Some("EMSGSIZE"),
        98 => Some("EPROTOTYPE"),
        99 => Some("ENOPROTOOPT"),
        120 => Some("EPROTONOSUPPORT"),
        121 => Some("ESOCKTNOSUPPORT"),
        122 => Some("EOPNOTSUPP"),
        124 => Some("EAFNOSUPPORT"),
        125 => Some("EADDRINUSE"),
        126 => Some("EADDRNOTAVAIL"),
        127 => Some("ENETDOWN"),
        128 => Some("ENETUNREACH"),
        129 => Some("ENETRESET"),
        130 => Some("ECONNABORTED"),
        131 => Some("ECONNRESET"),
        132 => Some("ENOBUFS"),
        133 => Some("EISCONN"),
        134 => Some("ENOTCONN"),
        145 => Some("ETIMEDOUT"),
        146 => Some("ECONNREFUSED"),
        148 => Some("EHOSTUNREACH"),
        149 => Some("EALREADY"),
        150 => Some("EINPROGRESS"),
        151 => Some("ESTALE"),
        158 => Some("ECANCELED"),
        165 => Some("EOWNERDEAD"),
        166 => Some("ENOTRECOVERABLE"),
        1133 => Some("EDQUOT"),
        _ => None,
    }
}

/// The POSIX name of an error number that is one of Linux on SPARC.
fn sparc_name(errno: i32) -> (name: Option<&'static str>)
    ensures
        names(name, sparc_text(errno)),
{
    match errno {
        11 => Some("EAGAIN"),
        36 => Some("EINPROGRESS"),
        37 => Some("EALREADY"),
        38 => Some("ENOTSOCK"),
        39 => Some("EDESTADDRREQ"),
        40 => Some("EMSGSIZE"),
        41 => Some("EPROTOTYPE"),
        42 => Some("ENOPROTOOPT"),
        43 => Some("EPROTONOSUPPORT"),
        44 => Some("ESOCKTNOSUPPORT"),
        45 => Some("EOPNOTSUPP"),
        47 => Some("EAFNOSUPPORT"),
        48 => Some("EADDRINUSE"),
        49 => Some("EADDRNOTAVAIL"),
        50 => Some("ENETDOWN"),
        51 => Some("ENETUNREACH"),
        52 => Some("ENETRESET"),
        53 => Some("ECONNABORTED"),
        54 => Some("ECONNRESET"),
        55 => Some("ENOBUFS"),
        56 => Some("EISCONN"),
        57 => Some("ENOTCONN"),
        60 => Some("ETIMEDOUT"),
        61 => Some("ECONNREFUSED"),
        62 => Some("ELOOP"),
        63 => Some("ENAMETOOLONG"),
        65 => Some("EHOSTUNREACH"),
        66 => Some("ENOTEMPTY"),
        69 => Some("EDQUOT"),
        70 => Some("ESTALE"),
        72 => Some("ENOSTR"),
        73 => Some("ETIME"),
        74 => Some("ENOSR"),
        75 => Some("ENOMSG"),
        76 => Some("EBADMSG"),
        77 => Some("EIDRM"),
        78 => Some("EDEADLK"),
        79 => Some("ENOLCK"),
        82 => Some("ENOLINK"),
        86 => Some("EPROTO"),
        87 => Some("EMULTIHOP"),
        90 => Some("ENOSYS"),
        92 => Some("EOVERFLOW"),
        111 => Some("ENODATA"),
        122 => Some("EILSEQ"),
        127 => Some("ECANCELED"),
        132 => Some("EOWNERDEAD"),
        133 => Some("ENOTRECOVERABLE"),
        _ => None,
    }
}

/// The POSIX name of an error number that is macOS's own.
fn macos_name(errno: i32) -> (name: Option<&'static str>)
    ensures
        names(name, macos_text(errno)),
{
    match errno {
        11 => Some("EDEADLK"),
        35 => Some("EAGAIN"),
        36 => Some("EINPROGRESS"),
        37 => Some("EALREADY"),
        38 => Some("ENOTSOCK"),
        39 => Some("EDESTADDRREQ"),
        40 => Some("EMSGSIZE"),
        41 => Some("EPROTOTYPE"),
        42 => Some("ENOPROTOOPT"),
        43 => Some("EPROTONOSUPPORT"),
        44 => Some("ESOCKTNOSUPPORT"),
        45 => Some("ENOTSUP"),
        47 => Some("EAFNOSUPPORT"),
        48 => Some("EADDRINUSE"),
        49 => Some("EADDRNOTAVAIL"),
        50 => Some("ENETDOWN"),
        51 => Some("ENETUNREACH"),
        52 => Some("ENETRESET"),
        53 => Some("ECONNABORTED"),
        54 => Some("ECONNRESET"),
        55 => Some("ENOBUFS"),
        56 => Some("EISCONN"),
        57 => Some("ENOTCONN"),
        60 => Some("ETIMEDOUT"),
        61 => Some("ECONNREFUSED"),
        62 => Some("ELOOP"),
        63 => Some("ENAMETOOLONG"),
        65 => Some("EHOSTUNREACH"),
        66 => Some("ENOTEMPTY"),
        69 => Some("EDQUOT"),
        70 => Some("ESTALE"),
        77 => Some("ENOLCK"),
        78 => Some("ENOSYS"),
        84 => Some("EOVERFLOW"),
        89 => Some("ECANCELED"),
        90 => Some("EIDRM"),
        91 => Some("ENOMSG"),
        92 => Some("EILSEQ"),
        94 => Some("EBADMSG"),
        95 => Some("EMULTIHOP"),
        96 => Some("ENODATA"),
        97 => Some("ENOLINK"),
        98 => Some("ENOSR"),
        99 => Some("ENOSTR"),
        100 => Some("EPROTO"),
        101 => Some("ETIME"),
        102 => Some("EOPNOTSUPP"),
        104 => Some("ENOTRECOVERABLE"),
        105 => Some("EOWNERDEAD"),
        _ => None,
    }
}

/// The POSIX name of an error number on a system, or `None` where it has none:
/// a Win32 status, say.
pub fn errno_name_on(system: System, errno: i32) -> (name: Option<&'static str>)
    ensures
        names(name, errno_text_on(system, errno)),
{
    let own = match system {
        System::Linux => linux_name(errno),
        System::LinuxMips => mips_name(errno),
        System::LinuxSparc => sparc_name(errno),
        System::Macos => macos_name(errno),
        System::Windows => return None,
    };
    match own {
        Some(name) => Some(name),
        None => shared_name(errno),
    }
}

/// The numbers below thirty-five are named alike on every system that has POSIX
/// names, but for the two that macOS has the other way round. The names of the
/// others differ, and a Win32 status has none.
pub proof fn law_low_numbers_are_named_alike(system: System, errno: i32)
    ensures
        errno_text_on(System::Windows, errno) is None,
        system != System::Windows ==> ({
            &&& errno_text_on(system, 1) == Some("EPERM"@)
            &&& errno_text_on(system, 2) == Some("ENOENT"@)
            &&& errno_text_on(system, 5) == Some("EIO"@)
            &&& errno_text_on(system, 7) == Some("E2BIG"@)
            &&& errno_text_on(system, 8) == Some("ENOEXEC"@)
            &&& errno_text_on(system, 9) == Some("EBADF"@)
            &&& errno_text_on(system, 12) == Some("ENOMEM"@)
            &&& errno_text_on(system, 13) == Some("EACCES"@)
            &&& errno_text_on(system, 14) == Some("EFAULT"@)
            &&& errno_text_on(system, 17) == Some("EEXIST"@)
            &&& errno_text_on(system, 20) == Some("ENOTDIR"@)
            &&& errno_text_on(system, 21) == Some("EISDIR"@)
            &&& errno_text_on(system, 22) == Some("EINVAL"@)
        }),
        system != System::Windows && system != System::Macos && 1 <= errno <= 34 ==> errno_text_on(
            system,
            errno,
        ) == errno_text_on(System::Linux, errno),
        1 <= errno <= 34 && errno != 11 ==> errno_text_on(System::Macos, errno) == errno_text_on(
            System::Linux,
            errno,
        ),
        errno_text_on(System::Linux, 11) == errno_text_on(System::Macos, 35),
        errno_text_on(System::Macos, 11) == errno_text_on(System::Linux, 35),
        errno_text_on(System::Linux, 36) == Some("ENAMETOOLONG"@) && errno_text_on(
            System::Macos,
            63,
        ) == Some("ENAMETOOLONG"@) && errno_text_on(System::LinuxMips, 78) == Some(
            "ENAMETOOLONG"@,
        ) && errno_text_on(System::LinuxSparc, 63) == Some("ENAMETOOLONG"@),
        errno_text_on(System::Linux, 40) == Some("ELOOP"@) && errno_text_on(System::Macos, 62)
            == Some("ELOOP"@) && errno_text_on(System::LinuxMips, 90) == Some("ELOOP"@)
            && errno_text_on(System::LinuxSparc, 62) == Some("ELOOP"@),
{
}

} // verus!
