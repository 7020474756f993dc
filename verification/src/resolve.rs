//! A policy put together from its settings, once the filesystem was asked what
//! they stand for.

use crate::bytes;
use crate::error::Error;
use crate::lowering;
use crate::lowering::ReadLowering;
use crate::paths;
use crate::policy;
use crate::policy::{AccessPolicy, AppContainerMode, NetworkAccess, ReadAccess};
use vstd::prelude::*;

verus! {

/// What the settings of a policy stand for.
#[derive(Debug)]
pub struct ResolvedPaths {
    pub write_allow: Vec<Vec<u8>>,
    pub write_deny: Vec<Vec<u8>>,
    pub write_denied_patterns: Vec<String>,
    pub write_denied_links: Vec<Vec<u8>>,
    pub read_allow: Vec<Vec<u8>>,
    pub read_deny: Vec<Vec<u8>>,
}

/// What a walk beside the denied roots found.
#[derive(Debug)]
pub struct ScannedRoots {
    pub roots: Vec<Vec<u8>>,
    pub symlinks: Vec<Vec<u8>>,
}

/// Whether a policy restricts reads to what a walk found and what is allowed.
pub open spec fn reads_scanned(
    access: ReadAccess,
    scanned: Seq<Seq<u8>>,
    allowed: Seq<Seq<u8>>,
    denied: Seq<Seq<u8>>,
) -> bool {
    &&& access matches ReadAccess::AllowRoots(roots)
    &&& paths::is_root_set(
        bytes::texts(roots@),
        scanned + lowering::roots_beside_scan(allowed, denied),
    )
}

/// Whether a policy reads what the settings say: everything where nothing is
/// denied, everything but the denied roots where all is allowed, and else what
/// a walk found and what is allowed. A denied root stays denied as a whole where
/// no allowance lies within it, and but for the allowances within it where none
/// lifts the whole.
pub open spec fn reads_resolved(
    policy: AccessPolicy,
    allowed: Seq<Seq<u8>>,
    denied: Seq<Seq<u8>>,
    scanned: ScannedRoots,
    root: Seq<u8>,
) -> bool {
    &&& bytes::texts(policy.read_denied_roots@) == lowering::roots_above_none(denied, allowed)
    &&& bytes::texts(policy.read_reopened_roots@) == lowering::roots_reopened(denied, allowed)
    &&& match lowering::read_lowering(allowed, denied, root, false) {
        Ok(ReadLowering::Unrestricted) => policy.read_access is Unrestricted
            && policy.read_symlinks@.len() == 0,
        Ok(ReadLowering::WholeFilesystem) => {
            &&& policy.read_access matches ReadAccess::AllowRoots(roots)
            &&& bytes::texts(roots@) == seq![root]
            &&& policy.read_symlinks@.len() == 0
        },
        Ok(ReadLowering::Scan) => {
            &&& reads_scanned(
                policy.read_access,
                bytes::texts(scanned.roots@),
                allowed,
                denied,
            )
            &&& paths::is_root_set(
                bytes::texts(policy.read_symlinks@),
                bytes::texts(scanned.symlinks@),
            )
        },
        Err(_) => false,
    }
}

/// The policy that settings stand for, on a system where a broker or a profile
/// denies what lies below an allowed root. What a walk found counts only where
/// reads are restricted to it.
pub fn resolve_policy(
    settings: ResolvedPaths,
    scanned: ScannedRoots,
    root: &[u8],
    network_access: NetworkAccess,
    app_container_mode: AppContainerMode,
    allow_windows_loopback: bool,
) -> (policy: AccessPolicy)
    ensures
        policy.write_roots == settings.write_allow,
        policy.write_denied_roots == settings.write_deny,
        policy.write_denied_patterns == settings.write_denied_patterns,
        policy.write_denied_links == settings.write_denied_links,
        policy.network_access == network_access,
        policy.app_container_mode == app_container_mode,
        policy.allow_windows_loopback == allow_windows_loopback,
        reads_resolved(
            policy,
            bytes::texts(settings.read_allow@),
            bytes::texts(settings.read_deny@),
            scanned,
            root@,
        ),
{
    let read_denied_roots = lowering::effective_denied_roots(
        settings.read_deny.as_slice(),
        settings.read_allow.as_slice(),
    );
    let read_reopened_roots = lowering::reopened_denied_roots(
        settings.read_deny.as_slice(),
        settings.read_allow.as_slice(),
    );
    let (read_access, read_symlinks) = match lowering::lower_read_access(
        settings.read_allow.as_slice(),
        settings.read_deny.as_slice(),
        root,
        false,
    ) {
        Ok(ReadLowering::WholeFilesystem) => {
            let mut roots: Vec<Vec<u8>> = Vec::new();
            roots.push(bytes::copy_bytes(root));
            assert(bytes::texts(roots@) =~= seq![root@]);
            (ReadAccess::AllowRoots(roots), Vec::new())
        },
        Ok(ReadLowering::Scan) => {
            let mut symlinks = scanned.symlinks;
            paths::normalize_roots(&mut symlinks);
            let roots = lowering::lower_restricted_read_access(
                scanned.roots,
                settings.read_allow.as_slice(),
                settings.read_deny.as_slice(),
            );
            (ReadAccess::AllowRoots(roots), symlinks)
        },
        _ => (ReadAccess::Unrestricted, Vec::new()),
    };
    AccessPolicy {
        write_roots: settings.write_allow,
        write_denied_roots: settings.write_deny,
        write_denied_patterns: settings.write_denied_patterns,
        write_denied_links: settings.write_denied_links,
        read_access,
        read_denied_roots,
        read_reopened_roots,
        read_symlinks,
        network_access,
        app_container_mode,
        allow_windows_loopback,
    }
}

/// Whether write access is given only to roots that hold nothing denied, as
/// far as walks found such roots, and the denials below none of them are kept.
pub open spec fn writes_carved(
    policy: AccessPolicy,
    settings: ResolvedPaths,
    scans: Seq<Seq<Seq<u8>>>,
) -> bool {
    let allowed = bytes::texts(settings.write_allow@);
    let denied = bytes::texts(settings.write_deny@);
    let kept = bytes::texts(policy.write_roots@);
    &&& exists|carved: Seq<Seq<u8>>|
        #[trigger] paths::is_root_set(carved, denied + bytes::texts(settings.read_deny@))
            && paths::is_root_set(kept, lowering::carved_roots(allowed, carved, denied, scans))
    &&& bytes::texts(policy.write_denied_roots@) == denied.filter(
        |deny: Seq<u8>| !lowering::strictly_under_any(deny, kept),
    )
}

/// Whether read access is given only to roots that hold nothing denied, as far
/// as walks found such roots. Nothing is left to deny then.
pub open spec fn reads_carved(
    policy: AccessPolicy,
    allowed: Seq<Seq<u8>>,
    denied: Seq<Seq<u8>>,
    scans: Seq<Seq<Seq<u8>>>,
) -> bool {
    &&& policy.read_access matches ReadAccess::AllowRoots(roots)
    &&& exists|carved: Seq<Seq<u8>>|
        #[trigger] paths::is_root_set(carved, denied) && paths::is_root_set(
            bytes::texts(roots@),
            lowering::carved_roots(allowed, carved, Seq::empty(), scans),
        )
    &&& policy.read_denied_roots@.len() == 0
    &&& policy.read_reopened_roots@.len() == 0
}

/// The policy that settings stand for on Windows, where access is inherited
/// from a root by all below it, so that denials are carved out of the roots.
/// `write_scans` and `read_scans` hold what walks of the allowed roots found,
/// and `symlinks` the links that those for reading passed by.
pub fn resolve_windows_policy(
    settings: ResolvedPaths,
    write_scans: &Vec<Vec<Vec<u8>>>,
    read_scans: &Vec<Vec<Vec<u8>>>,
    symlinks: Vec<Vec<u8>>,
    root: &[u8],
    network: Result<NetworkAccess, Error>,
    app_container_mode: AppContainerMode,
    allow_windows_loopback: bool,
) -> (result: Result<AccessPolicy, Error>)
    requires
        write_scans@.len() == settings.write_allow@.len(),
        read_scans@.len() == settings.read_allow@.len(),
    ensures
        ({
            let allowed = bytes::texts(settings.read_allow@);
            let denied = bytes::texts(settings.read_deny@);
            if paths::names_path(allowed, root@) {
                result == Err::<AccessPolicy, _>(Error::PolicyUnrestrictedRead)
            } else if network is Err {
                result == Err::<AccessPolicy, _>(network->Err_0)
            } else if denied.len() == 0 {
                result == Err::<AccessPolicy, _>(Error::PolicyUnrestrictedRead)
            } else if network->Ok_0 is Restricted && policy::binds_locally(network->Ok_0) {
                result == Err::<AccessPolicy, _>(Error::PolicyTcpBindUnsupported)
            } else if network->Ok_0 is Restricted && !(policy::sockets_of(
                network->Ok_0,
            ) is Denied) {
                result == Err::<AccessPolicy, _>(Error::PolicyUnixSocketUnsupported)
            } else {
                &&& result matches Ok(policy)
                &&& writes_carved(policy, settings, lowering::scan_texts(write_scans@))
                &&& reads_carved(policy, allowed, denied, lowering::scan_texts(read_scans@))
                &&& policy.write_denied_patterns == settings.write_denied_patterns
                &&& policy.write_denied_links == settings.write_denied_links
                &&& paths::is_root_set(
                    bytes::texts(policy.read_symlinks@),
                    bytes::texts(symlinks@),
                )
                &&& policy.network_access == network->Ok_0
                &&& policy.app_container_mode == app_container_mode
                &&& policy.allow_windows_loopback == allow_windows_loopback
            }
        }),
{
    let (write_roots, write_denied_roots) = lowering::lower_windows_write_access(
        settings.write_allow.as_slice(),
        settings.write_deny.as_slice(),
        settings.read_deny.as_slice(),
        write_scans,
    );
    let read_access = match lowering::lower_read_access(
        settings.read_allow.as_slice(),
        settings.read_deny.as_slice(),
        root,
        true,
    ) {
        Err(error) => return Err(error),
        Ok(ReadLowering::Scan) => {
            let mut denied: Vec<Vec<u8>> = Vec::new();
            lowering::push_paths(&mut denied, settings.read_deny.as_slice());
            assert(bytes::texts(denied@) =~= bytes::texts(settings.read_deny@));
            paths::normalize_roots(&mut denied);
            ReadAccess::AllowRoots(
                lowering::lower_windows_read_access(
                    settings.read_allow.as_slice(),
                    denied.as_slice(),
                    read_scans,
                ),
            )
        },
        Ok(_) => ReadAccess::Unrestricted,
    };
    let network_access = match network {
        Ok(network_access) => network_access,
        Err(error) => return Err(error),
    };
    let mut read_symlinks = symlinks;
    paths::normalize_roots(&mut read_symlinks);
    let policy = AccessPolicy {
        write_roots,
        write_denied_roots,
        write_denied_patterns: settings.write_denied_patterns,
        write_denied_links: settings.write_denied_links,
        read_access,
        read_denied_roots: Vec::new(),
        read_reopened_roots: Vec::new(),
        read_symlinks,
        network_access,
        app_container_mode,
        allow_windows_loopback,
    };
    match policy.validate_windows() {
        Ok(()) => Ok(policy),
        Err(error) => Err(error),
    }
}

/// Two roots that cover one path cover one another.
proof fn lemma_covering_roots_nest(path: Seq<u8>, left: Seq<u8>, right: Seq<u8>)
    requires
        paths::under(path, left),
        paths::under(path, right),
    ensures
        paths::under(left, right) || paths::under(right, left),
{
    let a = paths::components(left);
    let b = paths::components(right);
    let all = paths::components(path);
    if a.len() <= b.len() {
        assert forall|i: int| 0 <= i < a.len() implies a[i] == b[i] by {
            assert(all[i] == a[i] && all[i] == b[i]);
        }
        assert(a =~= b.take(a.len() as int));
    } else {
        assert forall|i: int| 0 <= i < b.len() implies a[i] == b[i] by {
            assert(all[i] == a[i] && all[i] == b[i]);
        }
        assert(b =~= a.take(b.len() as int));
    }
}

/// Every allowed root that stands beside a walk is named by a read root.
proof fn lemma_allowed_is_root(
    policy: AccessPolicy,
    allowed: Seq<Seq<u8>>,
    denied: Seq<Seq<u8>>,
    scanned: Seq<Seq<u8>>,
    roots: Vec<Vec<u8>>,
    at: int,
)
    requires
        policy.read_access == ReadAccess::AllowRoots(roots),
        reads_scanned(policy.read_access, scanned, allowed, denied),
        0 <= at < allowed.len(),
        lowering::stands_beside_scan(allowed[at], denied),
    ensures
        paths::names_path(bytes::texts(roots@), allowed[at]),
{
    let keep = |allow: Seq<u8>| lowering::stands_beside_scan(allow, denied);
    let beside = allowed.filter(keep);
    allowed.lemma_filter_contains(keep, at);
    let j = choose|j: int| 0 <= j < beside.len() && beside[j] == allowed[at];
    assert((scanned + beside)[scanned.len() + j] == allowed[at]);
}

proof fn lemma_reopened(denied: Seq<Seq<u8>>, allowed: Seq<Seq<u8>>, root: Seq<u8>)
    ensures
        lowering::roots_reopened(denied, allowed).contains(root) <==> denied.contains(root)
            && lowering::has_below(allowed, root) && !paths::names_path(allowed, root),
        lowering::roots_above_none(denied, allowed).contains(root) <==> denied.contains(root)
            && !exists|i: int|
            0 <= i < allowed.len() && paths::under(#[trigger] allowed[i], root),
{
    let part = |deny: Seq<u8>|
        lowering::has_below(allowed, deny) && !paths::names_path(allowed, deny);
    let whole = |deny: Seq<u8>|
        !exists|i: int| 0 <= i < allowed.len() && paths::under(#[trigger] allowed[i], deny);
    if denied.contains(root) {
        let i = choose|i: int| 0 <= i < denied.len() && denied[i] == root;
        if part(root) {
            denied.lemma_filter_contains(part, i);
        }
        if whole(root) {
            denied.lemma_filter_contains(whole, i);
        }
    }
    if denied.filter(part).contains(root) {
        denied.lemma_filter_contains_rev(part, root);
    }
    if denied.filter(whole).contains(root) {
        denied.lemma_filter_contains_rev(whole, root);
    }
}

/// The most specific rule wins where it allows: what lies below an allowed root
/// is read, unless a denied root lies between the two. An allowance of the root
/// directory counts only where it is denied too, or where no other allowance
/// lies below a denied root: otherwise what a walk found stands for it.
pub proof fn law_most_specific_allowance_is_read(
    policy: AccessPolicy,
    allowed: Seq<Seq<u8>>,
    denied: Seq<Seq<u8>>,
    scanned: ScannedRoots,
    root: Seq<u8>,
    at: int,
    path: Seq<u8>,
)
    requires
        reads_resolved(policy, allowed, denied, scanned, root),
        paths::under(path, root),
        0 <= at < allowed.len(),
        paths::under(path, allowed[at]),
        ({
            ||| paths::components(allowed[at]) != seq![seq![0x2fu8]]
            ||| exists|i: int|
                0 <= i < denied.len() && paths::components(#[trigger] denied[i]) == seq![
                    seq![0x2fu8],
                ]
            ||| (exists|i: int| 0 <= i < allowed.len() && #[trigger] paths::same_path(allowed[i], root))
                && forall|i: int, j: int|
                0 <= i < denied.len() && 0 <= j < allowed.len() ==> !#[trigger] paths::strictly_under(
                    allowed[j],
                    denied[i],
                )
        }),
        forall|i: int|
            0 <= i < denied.len() && paths::under(path, #[trigger] denied[i])
                ==> !paths::strictly_under(denied[i], allowed[at]),
    ensures
        policy::read_decision(policy, path) is None,
{
    let left = lowering::roots_above_none(denied, allowed);
    let part = lowering::roots_reopened(denied, allowed);
    let slash = seq![paths::SLASH];
    paths::law_a_name_is_one_more_component(slash, seq![0u8]);
    if exists|i: int|
        0 <= i < denied.len() && paths::components(#[trigger] denied[i]) == seq![seq![0x2fu8]] {
        let i = choose|i: int|
            0 <= i < denied.len() && paths::components(#[trigger] denied[i]) == seq![seq![0x2fu8]];
        assert(paths::same_path(denied[i], slash));
    }
    assert(lowering::stands_beside_scan(allowed[at], denied) || !lowering::carves(allowed, denied)
        && paths::names_path(allowed, root));
    if paths::under_any(path, left) {
        let i = choose|i: int| 0 <= i < left.len() && #[trigger] paths::under(path, left[i]);
        assert(left.contains(left[i]));
        lowering::law_specific_allowance_wins(denied, allowed, left[i]);
        lemma_covering_roots_nest(path, left[i], allowed[at]);
        let k = choose|k: int| 0 <= k < denied.len() && denied[k] == left[i];
        assert(paths::under(path, denied[k]));
        assert(!paths::under(allowed[at], left[i]));
        assert(paths::same_path(left[i], allowed[at]) ==> paths::under(allowed[at], left[i]));
    }
    match lowering::read_lowering(allowed, denied, root, false) {
        Ok(ReadLowering::Scan) => {
            let roots = policy.read_access->AllowRoots_0;
            let found = bytes::texts(scanned.roots@);
            lemma_allowed_is_root(policy, allowed, denied, found, roots, at);
            let list = bytes::texts(roots@);
            let j = choose|j: int|
                0 <= j < list.len() && #[trigger] paths::same_path(list[j], allowed[at]);
            assert(paths::under(path, list[j]));
            if policy::left_denied(path, part, list) {
                let i = choose|i: int|
                    0 <= i < part.len() && #[trigger] paths::under(path, part[i])
                        && !policy::opened_within(path, part[i], list);
                assert(part.contains(part[i]));
                lemma_reopened(denied, allowed, part[i]);
                let k = choose|k: int| 0 <= k < denied.len() && denied[k] == part[i];
                assert(paths::under(path, denied[k]));
                lemma_covering_roots_nest(path, part[i], allowed[at]);
                assert(!paths::same_path(allowed[at], part[i]));
                assert(paths::under(allowed[at], part[i]));
                assert(paths::under(path, list[j]) && paths::under(list[j], part[i]));
            }
        },
        Ok(ReadLowering::WholeFilesystem) => {
            let roots = policy.read_access->AllowRoots_0;
            assert(bytes::texts(roots@)[0] == root);
            assert(paths::under_any(path, bytes::texts(roots@)));
            if part.len() > 0 {
                assert(part.contains(part[0]));
                lemma_reopened(denied, allowed, part[0]);
                let k = choose|k: int| 0 <= k < denied.len() && denied[k] == part[0];
                let j = choose|j: int|
                    0 <= j < allowed.len() && paths::strictly_under(
                        #[trigger] allowed[j],
                        part[0],
                    );
                assert(paths::strictly_under(allowed[j], denied[k]));
            }
        },
        _ => {},
    }
}

/// The most specific rule wins where it denies: what lies below a denied root
/// is not read where every allowed root that covers it lies strictly above the
/// denied one. A walk passes the denied roots by, so what it found lies below
/// none.
pub proof fn law_most_specific_denial_is_not_read(
    policy: AccessPolicy,
    allowed: Seq<Seq<u8>>,
    denied: Seq<Seq<u8>>,
    scanned: ScannedRoots,
    root: Seq<u8>,
    at: int,
    path: Seq<u8>,
)
    requires
        reads_resolved(policy, allowed, denied, scanned, root),
        0 <= at < denied.len(),
        paths::under(path, denied[at]),
        forall|i: int|
            0 <= i < scanned.roots@.len() ==> !paths::under_any(
                #[trigger] bytes::texts(scanned.roots@)[i],
                denied,
            ),
        forall|i: int|
            0 <= i < allowed.len() && paths::under(path, #[trigger] allowed[i])
                ==> paths::strictly_under(denied[at], allowed[i]),
    ensures
        policy::read_decision(policy, path) is Some,
{
    let left = lowering::roots_above_none(denied, allowed);
    let part = lowering::roots_reopened(denied, allowed);
    let deny = denied[at];
    lemma_reopened(denied, allowed, deny);
    assert(denied.contains(deny));
    if left.contains(deny) {
        let i = choose|i: int| 0 <= i < left.len() && left[i] == deny;
        assert(paths::under(path, left[i]));
        assert(paths::under_any(path, left));
    } else {
        let k = choose|k: int| 0 <= k < allowed.len() && paths::under(#[trigger] allowed[k], deny);
        if paths::names_path(allowed, deny) {
            let j = choose|j: int|
                0 <= j < allowed.len() && #[trigger] paths::same_path(allowed[j], deny);
            assert(paths::under(path, allowed[j]));
        }
        assert(!paths::same_path(allowed[k], deny));
        assert(paths::strictly_under(allowed[k], deny));
        assert(lowering::carves(allowed, denied));
        assert(part.contains(deny));
        let p = choose|p: int| 0 <= p < part.len() && part[p] == deny;
        let roots = policy.read_access->AllowRoots_0;
        let list = bytes::texts(roots@);
        let found = bytes::texts(scanned.roots@);
        if policy::opened_within(path, deny, list) {
            let i = choose|i: int|
                0 <= i < list.len() && #[trigger] paths::under(path, list[i]) && paths::under(
                    list[i],
                    deny,
                );
            let before = found + lowering::roots_beside_scan(allowed, denied);
            assert(before.contains(list[i]));
            let b = choose|b: int| 0 <= b < before.len() && before[b] == list[i];
            if b < found.len() {
                assert(found[b] == list[i]);
                assert(paths::under(found[b], denied[at]));
                assert(paths::under_any(found[b], denied));
            } else {
                let keep = |allow: Seq<u8>| lowering::stands_beside_scan(allow, denied);
                let beside = allowed.filter(keep);
                assert(beside.contains(beside[b - found.len()]));
                allowed.lemma_filter_contains_rev(keep, beside[b - found.len()]);
                let j = choose|j: int| 0 <= j < allowed.len() && allowed[j] == list[i];
                assert(paths::under(path, allowed[j]));
                assert(paths::strictly_under(deny, allowed[j]));
                paths::law_coverage_is_an_order(deny, allowed[j], deny);
            }
        }
        assert(paths::under(path, part[p]));
        assert(policy::left_denied(path, part, list));
    }
}

proof fn lemma_clear_path(
    allowed: Seq<Seq<u8>>,
    denied: Seq<Seq<u8>>,
    roots: Seq<Seq<u8>>,
    path: Seq<u8>,
)
    requires
        forall|i: int| 0 <= i < denied.len() ==> !paths::under(path, #[trigger] denied[i]),
    ensures
        !paths::under_any(path, lowering::roots_above_none(denied, allowed)),
        !policy::left_denied(path, lowering::roots_reopened(denied, allowed), roots),
{
    let left = lowering::roots_above_none(denied, allowed);
    let part = lowering::roots_reopened(denied, allowed);
    if paths::under_any(path, left) {
        let i = choose|i: int| 0 <= i < left.len() && #[trigger] paths::under(path, left[i]);
        assert(left.contains(left[i]));
        lemma_reopened(denied, allowed, left[i]);
        let k = choose|k: int| 0 <= k < denied.len() && denied[k] == left[i];
        assert(!paths::under(path, denied[k]));
    }
    if policy::left_denied(path, part, roots) {
        let i = choose|i: int|
            0 <= i < part.len() && #[trigger] paths::under(path, part[i]) && !policy::opened_within(
                path,
                part[i],
                roots,
            );
        assert(part.contains(part[i]));
        lemma_reopened(denied, allowed, part[i]);
        let k = choose|k: int| 0 <= k < denied.len() && denied[k] == part[i];
        assert(!paths::under(path, denied[k]));
    }
}

/// Reads are unrestricted exactly where nothing is denied. Where something is,
/// what a walk found is read as far as no denied root covers it.
pub proof fn law_what_a_walk_found_is_read(
    policy: AccessPolicy,
    allowed: Seq<Seq<u8>>,
    denied: Seq<Seq<u8>>,
    scanned: ScannedRoots,
    root: Seq<u8>,
    path: Seq<u8>,
    at: int,
)
    requires
        reads_resolved(policy, allowed, denied, scanned, root),
        paths::under(path, root),
        0 <= at < scanned.roots@.len(),
        paths::under(path, scanned.roots@[at]@),
        forall|i: int| 0 <= i < denied.len() ==> !paths::under(path, #[trigger] denied[i]),
    ensures
        policy::read_decision(policy, path) is None,
        policy.read_access is Unrestricted <==> denied.len() == 0,
{
    let found = bytes::texts(scanned.roots@);
    if policy.read_access is AllowRoots {
        let list = bytes::texts(policy.read_access->AllowRoots_0@);
        lemma_clear_path(allowed, denied, list, path);
        if lowering::read_lowering(allowed, denied, root, false) == Ok::<_, Error>(
            ReadLowering::Scan,
        ) {
            let before = found + lowering::roots_beside_scan(allowed, denied);
            assert(before[at] == found[at]);
            assert(paths::names_path(list, before[at]));
            let j = choose|j: int|
                0 <= j < list.len() && #[trigger] paths::same_path(list[j], before[at]);
            assert(paths::under(path, list[j]));
        } else {
            assert(list[0] == root);
            assert(paths::under(path, list[0]));
        }
        assert(paths::under_any(path, list));
    }
}

/// Where something is denied and not everything is allowed, nothing is read that
/// is neither allowed nor found by a walk. Each link that the walk passed by is
/// listed.
pub proof fn law_nothing_else_is_read(
    policy: AccessPolicy,
    allowed: Seq<Seq<u8>>,
    denied: Seq<Seq<u8>>,
    scanned: ScannedRoots,
    root: Seq<u8>,
    path: Seq<u8>,
    at: int,
)
    requires
        reads_resolved(policy, allowed, denied, scanned, root),
        denied.len() > 0,
        forall|i: int| 0 <= i < allowed.len() ==> !paths::same_path(#[trigger] allowed[i], root),
    ensures
        (forall|i: int| 0 <= i < allowed.len() ==> !paths::under(path, #[trigger] allowed[i])) && (
        forall|i: int|
            0 <= i < scanned.roots@.len() ==> !paths::under(path, (#[trigger] scanned.roots@[i])@))
            ==> policy::read_decision(policy, path) is Some,
        0 <= at < scanned.symlinks@.len() ==> paths::names_path(
            bytes::texts(policy.read_symlinks@),
            scanned.symlinks@[at]@,
        ),
{
    let found = bytes::texts(scanned.roots@);
    assert(!paths::names_path(allowed, root));
    let list = bytes::texts(policy.read_access->AllowRoots_0@);
    if (forall|i: int| 0 <= i < allowed.len() ==> !paths::under(path, #[trigger] allowed[i])) && (
    forall|i: int|
        0 <= i < scanned.roots@.len() ==> !paths::under(path, (#[trigger] scanned.roots@[i])@))
        && paths::under_any(path, list) {
        let before = found + lowering::roots_beside_scan(allowed, denied);
        let i = choose|i: int| 0 <= i < list.len() && #[trigger] paths::under(path, list[i]);
        assert(before.contains(list[i]));
        let b = choose|b: int| 0 <= b < before.len() && before[b] == list[i];
        if b < found.len() {
            assert(found[b] == scanned.roots@[b]@);
        } else {
            let keep = |allow: Seq<u8>| lowering::stands_beside_scan(allow, denied);
            let beside = allowed.filter(keep);
            assert(beside.contains(beside[b - found.len()]));
            allowed.lemma_filter_contains_rev(keep, beside[b - found.len()]);
            let j = choose|j: int| 0 <= j < allowed.len() && allowed[j] == list[i];
            assert(paths::under(path, allowed[j]));
        }
    }
    if 0 <= at < scanned.symlinks@.len() {
        let links = bytes::texts(scanned.symlinks@);
        assert(links[at] == scanned.symlinks@[at]@);
    }
}

/// On Windows each allowed root that holds nothing denied and is not denied
/// itself is given to write.
pub proof fn law_windows_gives_each_clear_write_root(
    policy: AccessPolicy,
    settings: ResolvedPaths,
    scans: Seq<Seq<Seq<u8>>>,
    at: int,
)
    requires
        writes_carved(policy, settings, scans),
        scans.len() >= settings.write_allow@.len(),
        0 <= at < settings.write_allow@.len(),
        forall|i: int|
            0 <= i < settings.write_deny@.len() ==> !paths::strictly_under(
                (#[trigger] settings.write_deny@[i])@,
                settings.write_allow@[at]@,
            ) && !paths::under(settings.write_allow@[at]@, settings.write_deny@[i]@),
        forall|i: int|
            0 <= i < settings.read_deny@.len() ==> !paths::strictly_under(
                (#[trigger] settings.read_deny@[i])@,
                settings.write_allow@[at]@,
            ),
    ensures
        paths::names_path(bytes::texts(policy.write_roots@), settings.write_allow@[at]@),
{
    let allowed = bytes::texts(settings.write_allow@);
    let denied = bytes::texts(settings.write_deny@);
    let unread = bytes::texts(settings.read_deny@);
    let kept = bytes::texts(policy.write_roots@);
    let both = denied + unread;
    let carved = choose|carved: Seq<Seq<u8>>| #[trigger]
        paths::is_root_set(carved, both) && paths::is_root_set(
            kept,
            lowering::carved_roots(allowed, carved, denied, scans),
        );
    assert forall|i: int| 0 <= i < carved.len() implies !paths::strictly_under(
        #[trigger] carved[i],
        allowed[at],
    ) by {
        assert(both.contains(carved[i]));
        let k = choose|k: int| 0 <= k < both.len() && both[k] == carved[i];
        if k < denied.len() {
            assert(denied[k] == settings.write_deny@[k]@);
        } else {
            assert(unread[k - denied.len()] == settings.read_deny@[k - denied.len()]@);
        }
    }
    assert forall|i: int| 0 <= i < denied.len() implies !paths::under(
        allowed[at],
        #[trigger] denied[i],
    ) by {
        assert(denied[i] == settings.write_deny@[i]@);
    }
    lowering::law_windows_roots_are_kept_or_replaced(
        allowed,
        carved,
        denied,
        scans,
        at,
        allowed[at],
    );
    let list = lowering::carved_roots(allowed, carved, denied, scans);
    let k = choose|k: int| 0 <= k < list.len() && list[k] == allowed[at];
    assert(paths::names_path(kept, list[k]));
}

/// On Windows each allowed root that holds nothing denied is given to read, and
/// no read is left to deny.
pub proof fn law_windows_gives_each_clear_read_root(
    policy: AccessPolicy,
    allowed: Seq<Seq<u8>>,
    denied: Seq<Seq<u8>>,
    scans: Seq<Seq<Seq<u8>>>,
    at: int,
)
    requires
        reads_carved(policy, allowed, denied, scans),
        scans.len() >= allowed.len(),
        0 <= at < allowed.len(),
        forall|i: int|
            0 <= i < denied.len() ==> !paths::strictly_under(#[trigger] denied[i], allowed[at]),
    ensures
        policy.read_access is AllowRoots,
        paths::names_path(bytes::texts(policy.read_access->AllowRoots_0@), allowed[at]),
        policy.read_denied_roots@.len() == 0,
{
    let roots = bytes::texts(policy.read_access->AllowRoots_0@);
    let carved = choose|carved: Seq<Seq<u8>>| #[trigger]
        paths::is_root_set(carved, denied) && paths::is_root_set(
            roots,
            lowering::carved_roots(allowed, carved, Seq::empty(), scans),
        );
    assert forall|i: int| 0 <= i < carved.len() implies !paths::strictly_under(
        #[trigger] carved[i],
        allowed[at],
    ) by {
        assert(denied.contains(carved[i]));
        let k = choose|k: int| 0 <= k < denied.len() && denied[k] == carved[i];
        assert(denied[k] == carved[i]);
    }
    lowering::law_windows_roots_are_kept_or_replaced(
        allowed,
        carved,
        Seq::empty(),
        scans,
        at,
        allowed[at],
    );
    let list = lowering::carved_roots(allowed, carved, Seq::empty(), scans);
    let k = choose|k: int| 0 <= k < list.len() && list[k] == allowed[at];
    assert(paths::names_path(roots, list[k]));
}

/// On Windows a denied root stays denied where it lies below none of the roots
/// that are given to write.
pub proof fn law_windows_keeps_the_other_denials(
    policy: AccessPolicy,
    settings: ResolvedPaths,
    scans: Seq<Seq<Seq<u8>>>,
    at: int,
)
    requires
        writes_carved(policy, settings, scans),
        0 <= at < settings.write_deny@.len(),
        forall|i: int|
            0 <= i < policy.write_roots@.len() ==> !paths::strictly_under(
                settings.write_deny@[at]@,
                (#[trigger] policy.write_roots@[i])@,
            ),
    ensures
        bytes::texts(policy.write_denied_roots@).contains(settings.write_deny@[at]@),
{
    let denied = bytes::texts(settings.write_deny@);
    let kept = bytes::texts(policy.write_roots@);
    let keep = |deny: Seq<u8>| !lowering::strictly_under_any(deny, kept);
    assert forall|i: int| 0 <= i < kept.len() implies !paths::strictly_under(
        denied[at],
        #[trigger] kept[i],
    ) by {
        assert(kept[i] == policy.write_roots@[i]@);
    }
    assert(keep(denied[at]));
    denied.lemma_filter_contains(keep, at);
}

} // verus!
