//! What a policy allows: the roots, patterns, ports and sockets a request is
//! held against, and the answer it gets.

use crate::bytes;
use crate::glob;
use crate::paths;
use crate::text;
use vstd::prelude::*;

verus! {

/// How an app container is made. Nothing here reads it.
#[derive(Debug)]
pub struct AppContainerMode {
    pub name: String,
}

/// A resolved policy. Every path is normal, and every list of roots ascends.
#[derive(Debug)]
pub struct AccessPolicy {
    pub write_roots: Vec<Vec<u8>>,
    pub write_denied_roots: Vec<Vec<u8>>,
    pub write_denied_patterns: Vec<String>,
    pub write_denied_links: Vec<Vec<u8>>,
    pub read_access: ReadAccess,
    /// What is denied as a whole.
    pub read_denied_roots: Vec<Vec<u8>>,
    /// What is denied but for the read roots within it.
    pub read_reopened_roots: Vec<Vec<u8>>,
    pub read_symlinks: Vec<Vec<u8>>,
    pub network_access: NetworkAccess,
    pub app_container_mode: AppContainerMode,
    pub allow_windows_loopback: bool,
}

/// Why an access is denied.
#[derive(Clone, Copy, Debug, PartialEq, Eq, Hash, Structural)]
pub enum DenialReason {
    /// The policy denies it.
    DenyMatch,
    /// Nothing in the policy allows it.
    AllowMiss,
}

/// What may be read.
#[derive(Debug)]
pub enum ReadAccess {
    Unrestricted,
    AllowRoots(Vec<Vec<u8>>),
}

/// What may be reached over the network.
#[derive(Debug)]
pub enum NetworkAccess {
    Unrestricted,
    Restricted {
        connect_tcp_ports: Vec<u16>,
        bind: IpBindAccess,
        unix_socket_access: UnixSocketAccess,
    },
}

/// Which local addresses may be bound.
#[derive(Clone, Copy, Debug, PartialEq, Eq, Hash, Structural)]
pub enum IpBindAccess {
    Deny,
    Localhost,
}

/// Which Unix sockets may be used.
#[derive(Debug)]
pub enum UnixSocketAccess {
    Unrestricted,
    AllowPaths(Vec<Vec<u8>>),
    Denied,
}

/// Whether one of the patterns matches the text of a path.
pub open spec fn matches_any(path: Seq<u8>, patterns: Seq<String>) -> bool {
    exists|i: int|
        0 <= i < patterns.len() && glob::matches(
            vstd::utf8::encode_utf8((#[trigger] patterns[i])@),
            vstd::utf8::encode_utf8(text::shown(path)),
        )
}

/// Whether a policy denies writing to a path: below a denied root where it
/// leads, or below a denied link or matched by a denied pattern as written.
pub open spec fn write_denied(policy: AccessPolicy, canonical: Seq<u8>, lexical: Seq<u8>) -> bool {
    ||| paths::under_any(canonical, bytes::texts(policy.write_denied_roots@))
    ||| paths::under_any(lexical, bytes::texts(policy.write_denied_links@))
    ||| matches_any(lexical, policy.write_denied_patterns@)
}

/// Whether and why a write is denied. That nothing allows it is told only
/// where that is asked for.
pub open spec fn write_decision(
    policy: AccessPolicy,
    canonical: Seq<u8>,
    lexical: Seq<u8>,
    surface_allow_miss: bool,
) -> Option<DenialReason> {
    if write_denied(policy, canonical, lexical) {
        Some(DenialReason::DenyMatch)
    } else if surface_allow_miss && !paths::under_any(
        canonical,
        bytes::texts(policy.write_roots@),
    ) {
        Some(DenialReason::AllowMiss)
    } else {
        None
    }
}

/// Whether one of the roots that cover a path lies at or below a denied root.
pub open spec fn opened_within(path: Seq<u8>, denied: Seq<u8>, roots: Seq<Seq<u8>>) -> bool {
    exists|i: int|
        0 <= i < roots.len() && #[trigger] paths::under(path, roots[i]) && paths::under(
            roots[i],
            denied,
        )
}

/// Whether a denied root covers a path, and no root at or below it does.
pub open spec fn left_denied(path: Seq<u8>, denied: Seq<Seq<u8>>, roots: Seq<Seq<u8>>) -> bool {
    exists|i: int|
        0 <= i < denied.len() && #[trigger] paths::under(path, denied[i]) && !opened_within(
            path,
            denied[i],
            roots,
        )
}

/// Whether and why a read is denied. Of a denied root and a read root that both
/// cover a path, the more specific decides.
pub open spec fn read_decision(policy: AccessPolicy, path: Seq<u8>) -> Option<DenialReason> {
    match policy.read_access {
        ReadAccess::Unrestricted => None,
        ReadAccess::AllowRoots(roots) => {
            if paths::under_any(path, bytes::texts(policy.read_denied_roots@)) {
                Some(DenialReason::DenyMatch)
            } else if !paths::under_any(path, bytes::texts(roots@)) {
                Some(DenialReason::AllowMiss)
            } else if left_denied(
                path,
                bytes::texts(policy.read_reopened_roots@),
                bytes::texts(roots@),
            ) {
                Some(DenialReason::DenyMatch)
            } else {
                None
            }
        },
    }
}

fn is_opened_within(path: &[u8], denied: &[u8], roots: &[Vec<u8>]) -> (opened: bool)
    ensures
        opened == opened_within(path@, denied@, bytes::texts(roots@)),
{
    let mut at: usize = 0;
    while at < roots.len()
        invariant
            at <= roots.len(),
            forall|i: int|
                0 <= i < at ==> !(#[trigger] paths::under(path@, bytes::texts(roots@)[i])
                    && paths::under(bytes::texts(roots@)[i], denied@)),
        decreases roots.len() - at,
    {
        assert(bytes::texts(roots@)[at as int] == roots@[at as int]@);
        if paths::is_under(path, roots[at].as_slice()) && paths::is_under(
            roots[at].as_slice(),
            denied,
        ) {
            return true;
        }
        at += 1;
    }
    false
}

fn is_left_denied(path: &[u8], denied: &[Vec<u8>], roots: &[Vec<u8>]) -> (left: bool)
    ensures
        left == left_denied(path@, bytes::texts(denied@), bytes::texts(roots@)),
{
    let mut at: usize = 0;
    while at < denied.len()
        invariant
            at <= denied.len(),
            forall|i: int|
                0 <= i < at ==> !(#[trigger] paths::under(path@, bytes::texts(denied@)[i])
                    && !opened_within(path@, bytes::texts(denied@)[i], bytes::texts(roots@))),
        decreases denied.len() - at,
    {
        assert(bytes::texts(denied@)[at as int] == denied@[at as int]@);
        if paths::is_under(path, denied[at].as_slice()) && !is_opened_within(
            path,
            denied[at].as_slice(),
            roots,
        ) {
            return true;
        }
        at += 1;
    }
    false
}

impl AccessPolicy {
    /// Whether the policy denies writing to a path, given where it leads and
    /// how it is written.
    pub fn is_write_denied(&self, canonical: &[u8], lexical: &[u8]) -> (denied: bool)
        ensures
            denied == write_denied(*self, canonical@, lexical@),
    {
        if paths::is_under_any(canonical, self.write_denied_roots.as_slice())
            || paths::is_under_any(lexical, self.write_denied_links.as_slice()) {
            return true;
        }
        let mut at: usize = 0;
        while at < self.write_denied_patterns.len()
            invariant
                at <= self.write_denied_patterns.len(),
                forall|i: int|
                    0 <= i < at ==> !glob::matches(
                        vstd::utf8::encode_utf8((#[trigger] self.write_denied_patterns@[i])@),
                        vstd::utf8::encode_utf8(text::shown(lexical@)),
                    ),
            decreases self.write_denied_patterns.len() - at,
        {
            if glob::path_matches_glob_str(lexical, self.write_denied_patterns[at].as_str()) {
                return true;
            }
            at += 1;
        }
        false
    }

    /// Whether and why writing to a path is denied.
    pub fn write_reason(
        &self,
        canonical: &[u8],
        lexical: &[u8],
        surface_allow_miss: bool,
    ) -> (reason: Option<DenialReason>)
        ensures
            reason == write_decision(*self, canonical@, lexical@, surface_allow_miss),
    {
        if self.is_write_denied(canonical, lexical) {
            Some(DenialReason::DenyMatch)
        } else if surface_allow_miss && !paths::is_under_any(
            canonical,
            self.write_roots.as_slice(),
        ) {
            Some(DenialReason::AllowMiss)
        } else {
            None
        }
    }

    /// Whether and why reading a path is denied.
    pub fn read_reason(&self, path: &[u8]) -> (reason: Option<DenialReason>)
        ensures
            reason == read_decision(*self, path@),
    {
        match &self.read_access {
            ReadAccess::Unrestricted => None,
            ReadAccess::AllowRoots(roots) => {
                if paths::is_under_any(path, self.read_denied_roots.as_slice()) {
                    Some(DenialReason::DenyMatch)
                } else if !paths::is_under_any(path, roots.as_slice()) {
                    Some(DenialReason::AllowMiss)
                } else if is_left_denied(
                    path,
                    self.read_reopened_roots.as_slice(),
                    roots.as_slice(),
                ) {
                    Some(DenialReason::DenyMatch)
                } else {
                    None
                }
            },
        }
    }
}

/// The ports that may be connected to.
pub open spec fn ports_of(access: NetworkAccess) -> Seq<u16> {
    match access {
        NetworkAccess::Unrestricted => Seq::empty(),
        NetworkAccess::Restricted { connect_tcp_ports, .. } => connect_tcp_ports@,
    }
}

/// Which Unix sockets may be used.
pub open spec fn sockets_of(access: NetworkAccess) -> UnixSocketAccess {
    match access {
        NetworkAccess::Unrestricted => UnixSocketAccess::Unrestricted,
        NetworkAccess::Restricted { unix_socket_access, .. } => unix_socket_access,
    }
}

/// Whether local addresses may be bound, and only those.
pub open spec fn binds_locally(access: NetworkAccess) -> bool {
    access matches NetworkAccess::Restricted { bind, .. } && bind == IpBindAccess::Localhost
}

impl NetworkAccess {
    /// Whether nothing is restricted.
    pub fn is_unrestricted(&self) -> (yes: bool)
        ensures
            yes == (*self is Unrestricted),
    {
        match self {
            NetworkAccess::Unrestricted => true,
            NetworkAccess::Restricted { .. } => false,
        }
    }

    /// The ports that may be connected to under a restriction.
    pub fn connect_tcp_ports(&self) -> (ports: &[u16])
        ensures
            ports@ == ports_of(*self),
    {
        match self {
            NetworkAccess::Unrestricted => &[],
            NetworkAccess::Restricted { connect_tcp_ports, .. } => connect_tcp_ports.as_slice(),
        }
    }

    /// Whether local addresses may be bound, and only those.
    pub fn allows_local_binding(&self) -> (yes: bool)
        ensures
            yes == binds_locally(*self),
    {
        match self {
            NetworkAccess::Unrestricted => false,
            NetworkAccess::Restricted { bind, .. } => *bind == IpBindAccess::Localhost,
        }
    }

    /// Whether no address may be bound.
    pub fn restricts_bind_tcp(&self) -> (yes: bool)
        ensures
            yes == (*self matches NetworkAccess::Restricted { bind, .. } && bind
                == IpBindAccess::Deny),
    {
        match self {
            NetworkAccess::Unrestricted => false,
            NetworkAccess::Restricted { bind, .. } => *bind == IpBindAccess::Deny,
        }
    }

    /// Whether connecting is restricted to the allowed ports.
    pub fn restricts_connect_tcp(&self) -> (yes: bool)
        ensures
            yes == (*self is Restricted),
    {
        !self.is_unrestricted()
    }

    /// Whether no Unix socket may be used.
    pub fn denies_unix_sockets(&self) -> (yes: bool)
        ensures
            yes == (sockets_of(*self) is Denied),
    {
        match self {
            NetworkAccess::Unrestricted => false,
            NetworkAccess::Restricted { unix_socket_access, .. } => unix_socket_access.is_denied(),
        }
    }

    /// Whether every Unix socket may be used.
    pub fn leaves_unix_sockets_open(&self) -> (yes: bool)
        ensures
            yes == (sockets_of(*self) is Unrestricted),
    {
        match self {
            NetworkAccess::Unrestricted => true,
            NetworkAccess::Restricted { unix_socket_access, .. } => {
                !unix_socket_access.needs_broker()
            },
        }
    }

    /// Whether a broker has to answer binds.
    pub fn needs_bind_broker(&self) -> (yes: bool)
        ensures
            yes == (binds_locally(*self) || !(sockets_of(*self) is Unrestricted)),
    {
        match self {
            NetworkAccess::Unrestricted => false,
            NetworkAccess::Restricted { bind, unix_socket_access, .. } => *bind
                == IpBindAccess::Localhost || unix_socket_access.needs_broker(),
        }
    }

    /// Whether a broker has to answer network calls.
    pub fn needs_network_broker(&self) -> (yes: bool)
        ensures
            yes == (binds_locally(*self) || ports_of(*self).len() > 0 || !(sockets_of(
                *self,
            ) is Unrestricted)),
    {
        match self {
            NetworkAccess::Unrestricted => false,
            NetworkAccess::Restricted { connect_tcp_ports, bind, unix_socket_access } => *bind
                == IpBindAccess::Localhost || connect_tcp_ports.len() > 0
                || unix_socket_access.needs_broker(),
        }
    }
}

impl UnixSocketAccess {
    /// Whether a broker has to answer for Unix sockets.
    pub fn needs_broker(&self) -> (yes: bool)
        ensures
            yes == !(*self is Unrestricted),
    {
        match self {
            UnixSocketAccess::Unrestricted => false,
            _ => true,
        }
    }

    /// Whether no Unix socket may be used.
    pub fn is_denied(&self) -> (yes: bool)
        ensures
            yes == (*self is Denied),
    {
        match self {
            UnixSocketAccess::Denied => true,
            _ => false,
        }
    }
}

/// A denial outweighs an allowance: whatever is denied is denied in every
/// policy that denies it, however much the policy allows.
pub proof fn law_denied_write_is_never_allowed(
    policy: AccessPolicy,
    canonical: Seq<u8>,
    lexical: Seq<u8>,
    surface_allow_miss: bool,
)
    requires
        write_denied(policy, canonical, lexical),
    ensures
        write_decision(policy, canonical, lexical, surface_allow_miss) == Some(
            DenialReason::DenyMatch,
        ),
{
}

/// A write that passes with allow misses told lies below a write root, and
/// neither where it leads nor how it is written is denied.
pub proof fn law_passed_write_is_allowed(
    policy: AccessPolicy,
    canonical: Seq<u8>,
    lexical: Seq<u8>,
)
    requires
        write_decision(policy, canonical, lexical, true) is None,
    ensures
        paths::under_any(canonical, bytes::texts(policy.write_roots@)),
        !paths::under_any(canonical, bytes::texts(policy.write_denied_roots@)),
        !paths::under_any(lexical, bytes::texts(policy.write_denied_links@)),
        !matches_any(lexical, policy.write_denied_patterns@),
{
}

/// Under restricted reads a passed read lies below a read root and below no
/// denied one, but for the read roots within one that is opened again.
pub proof fn law_passed_read_is_allowed(
    policy: AccessPolicy,
    roots: Vec<Vec<u8>>,
    path: Seq<u8>,
)
    requires
        policy.read_access == ReadAccess::AllowRoots(roots),
        read_decision(policy, path) is None,
    ensures
        paths::under_any(path, bytes::texts(roots@)),
        !paths::under_any(path, bytes::texts(policy.read_denied_roots@)),
        !left_denied(path, bytes::texts(policy.read_reopened_roots@), bytes::texts(roots@)),
{
}

/// What holds of a directory holds of everything below it: a denied root
/// denies all it covers.
pub proof fn law_denied_root_covers_its_tree(
    policy: AccessPolicy,
    canonical: Seq<u8>,
    lexical: Seq<u8>,
    deeper: Seq<u8>,
)
    requires
        paths::under_any(canonical, bytes::texts(policy.write_denied_roots@)),
        paths::under(deeper, canonical),
    ensures
        write_decision(policy, deeper, lexical, true) == Some(DenialReason::DenyMatch),
{
    let roots = bytes::texts(policy.write_denied_roots@);
    let i = choose|i: int| 0 <= i < roots.len() && #[trigger] paths::under(canonical, roots[i]);
    paths::law_coverage_is_an_order(deeper, canonical, roots[i]);
    assert(paths::under(deeper, roots[i]));
}

/// Each rule that denies writes denies what it covers, whatever the others say:
/// a denied root by where the path leads, a denied link and a denied pattern by
/// how it is written.
pub proof fn law_each_denied_write_rule_counts(
    policy: AccessPolicy,
    canonical: Seq<u8>,
    lexical: Seq<u8>,
    surface_allow_miss: bool,
    at: int,
)
    requires
        ({
            ||| 0 <= at < policy.write_denied_roots@.len() && paths::under(
                canonical,
                policy.write_denied_roots@[at]@,
            )
            ||| 0 <= at < policy.write_denied_links@.len() && paths::under(
                lexical,
                policy.write_denied_links@[at]@,
            )
            ||| 0 <= at < policy.write_denied_patterns@.len() && glob::matches(
                vstd::utf8::encode_utf8(policy.write_denied_patterns@[at]@),
                vstd::utf8::encode_utf8(text::shown(lexical)),
            )
        }),
    ensures
        write_decision(policy, canonical, lexical, surface_allow_miss) == Some(
            DenialReason::DenyMatch,
        ),
{
    if 0 <= at < policy.write_denied_roots@.len() && paths::under(
        canonical,
        policy.write_denied_roots@[at]@,
    ) {
        assert(paths::under(canonical, bytes::texts(policy.write_denied_roots@)[at]));
    }
    if 0 <= at < policy.write_denied_links@.len() && paths::under(
        lexical,
        policy.write_denied_links@[at]@,
    ) {
        assert(paths::under(lexical, bytes::texts(policy.write_denied_links@)[at]));
    }
}

/// What no rule denies may be written below each write root. Elsewhere it is
/// denied as allowed by nothing where that is asked for, and passes otherwise.
pub proof fn law_each_write_root_counts(
    policy: AccessPolicy,
    canonical: Seq<u8>,
    lexical: Seq<u8>,
    at: int,
)
    requires
        forall|i: int|
            0 <= i < policy.write_denied_roots@.len() ==> !paths::under(
                canonical,
                (#[trigger] policy.write_denied_roots@[i])@,
            ),
        forall|i: int|
            0 <= i < policy.write_denied_links@.len() ==> !paths::under(
                lexical,
                (#[trigger] policy.write_denied_links@[i])@,
            ),
        forall|i: int|
            0 <= i < policy.write_denied_patterns@.len() ==> !glob::matches(
                vstd::utf8::encode_utf8((#[trigger] policy.write_denied_patterns@[i])@),
                vstd::utf8::encode_utf8(text::shown(lexical)),
            ),
    ensures
        write_decision(policy, canonical, lexical, false) is None,
        0 <= at < policy.write_roots@.len() && paths::under(canonical, policy.write_roots@[at]@)
            ==> write_decision(policy, canonical, lexical, true) is None,
        (forall|i: int|
            0 <= i < policy.write_roots@.len() ==> !paths::under(
                canonical,
                (#[trigger] policy.write_roots@[i])@,
            )) ==> write_decision(policy, canonical, lexical, true) == Some(
            DenialReason::AllowMiss,
        ),
{
    let denied = bytes::texts(policy.write_denied_roots@);
    let links = bytes::texts(policy.write_denied_links@);
    let roots = bytes::texts(policy.write_roots@);
    assert forall|i: int| 0 <= i < denied.len() implies !#[trigger] paths::under(
        canonical,
        denied[i],
    ) by {
        assert(denied[i] == policy.write_denied_roots@[i]@);
    }
    assert forall|i: int| 0 <= i < links.len() implies !#[trigger] paths::under(
        lexical,
        links[i],
    ) by {
        assert(links[i] == policy.write_denied_links@[i]@);
    }
    if 0 <= at < policy.write_roots@.len() && paths::under(canonical, policy.write_roots@[at]@) {
        assert(paths::under(canonical, roots[at]));
    }
    if forall|i: int|
        0 <= i < policy.write_roots@.len() ==> !paths::under(
            canonical,
            (#[trigger] policy.write_roots@[i])@,
        ) {
        assert forall|i: int| 0 <= i < roots.len() implies !#[trigger] paths::under(
            canonical,
            roots[i],
        ) by {
            assert(roots[i] == policy.write_roots@[i]@);
        }
    }
}

/// Without a restriction everything may be read. Under one, each denied root
/// denies what it covers, what no read root covers is allowed by nothing, and a
/// denied root that is opened again denies what no read root within it covers.
/// Everything else may be read.
pub proof fn law_each_read_rule_counts(policy: AccessPolicy, path: Seq<u8>, at: int)
    ensures
        policy.read_access is Unrestricted ==> read_decision(policy, path) is None,
        policy.read_access is AllowRoots && 0 <= at < policy.read_denied_roots@.len()
            && paths::under(path, policy.read_denied_roots@[at]@) ==> read_decision(policy, path)
            == Some(DenialReason::DenyMatch),
        policy.read_access matches ReadAccess::AllowRoots(roots) ==> (forall|i: int|
            0 <= i < roots@.len() ==> !paths::under(path, (#[trigger] roots@[i])@))
            ==> read_decision(policy, path) is Some,
        policy.read_access matches ReadAccess::AllowRoots(roots) ==> (forall|i: int|
            0 <= i < roots@.len() ==> !paths::under(path, (#[trigger] roots@[i])@)) && (
        forall|i: int|
            0 <= i < policy.read_denied_roots@.len() ==> !paths::under(
                path,
                (#[trigger] policy.read_denied_roots@[i])@,
            )) ==> read_decision(policy, path) == Some(DenialReason::AllowMiss),
        policy.read_access matches ReadAccess::AllowRoots(roots) ==> 0 <= at
            < policy.read_reopened_roots@.len() && paths::under(
            path,
            policy.read_reopened_roots@[at]@,
        ) && (forall|i: int|
            0 <= i < roots@.len() ==> !(paths::under(path, (#[trigger] roots@[i])@)
                && paths::under(roots@[i]@, policy.read_reopened_roots@[at]@))) ==> read_decision(
            policy,
            path,
        ) is Some,
        policy.read_access matches ReadAccess::AllowRoots(roots) ==> 0 <= at < roots@.len()
            && paths::under(path, roots@[at]@) && (forall|i: int|
            0 <= i < policy.read_denied_roots@.len() ==> !paths::under(
                path,
                (#[trigger] policy.read_denied_roots@[i])@,
            )) && (forall|i: int|
            0 <= i < policy.read_reopened_roots@.len() ==> !paths::under(
                path,
                (#[trigger] policy.read_reopened_roots@[i])@,
            ) || paths::under(roots@[at]@, policy.read_reopened_roots@[i]@)) ==> read_decision(
            policy,
            path,
        ) is None,
{
    let denied = bytes::texts(policy.read_denied_roots@);
    let reopened = bytes::texts(policy.read_reopened_roots@);
    assert(forall|i: int|
        0 <= i < denied.len() ==> #[trigger] denied[i] == policy.read_denied_roots@[i]@);
    assert(forall|i: int|
        0 <= i < reopened.len() ==> #[trigger] reopened[i] == policy.read_reopened_roots@[i]@);
    if 0 <= at < denied.len() && paths::under(path, denied[at]) {
        assert(paths::under_any(path, denied));
    }
    if let ReadAccess::AllowRoots(list) = policy.read_access {
        let roots = bytes::texts(list@);
        assert(forall|i: int| 0 <= i < roots.len() ==> #[trigger] roots[i] == list@[i]@);
        if 0 <= at < roots.len() && paths::under(path, roots[at]) {
            assert(paths::under_any(path, roots));
            if left_denied(path, reopened, roots) {
                let i = choose|i: int|
                    0 <= i < reopened.len() && #[trigger] paths::under(path, reopened[i])
                        && !opened_within(path, reopened[i], roots);
                assert(!paths::under(roots[at], reopened[i]));
            }
        }
        if 0 <= at < reopened.len() && paths::under(path, reopened[at]) && (forall|i: int|
            0 <= i < list@.len() ==> !(paths::under(path, (#[trigger] list@[i])@) && paths::under(
                list@[i]@,
                reopened[at],
            ))) {
            assert forall|i: int| 0 <= i < roots.len() implies !(#[trigger] paths::under(
                path,
                roots[i],
            ) && paths::under(roots[i], reopened[at])) by {
                assert(roots[i] == list@[i]@);
            }
            assert(left_denied(path, reopened, roots));
        }
    }
}

/// What a restriction lets be reached is what it lists, and without one there is
/// nothing to list: no ports, every Unix socket, and no local binding alone.
pub proof fn law_network_access_is_what_it_lists(access: NetworkAccess)
    ensures
        access is Restricted ==> ports_of(access) == access->connect_tcp_ports@ && sockets_of(
            access,
        ) == access->unix_socket_access && (binds_locally(access) <==> access->bind
            == IpBindAccess::Localhost),
        access is Unrestricted ==> ports_of(access).len() == 0 && sockets_of(access) is Unrestricted
            && !binds_locally(access),
{
}

} // verus!
