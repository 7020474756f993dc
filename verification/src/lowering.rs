//! Lowering a policy document to the roots, ports and sockets that a request is
//! held against.

use crate::bytes;
use crate::error::Error;
use crate::glob;
use crate::order;
use crate::order::Relation;
use crate::paths;
use crate::policy;
use crate::policy::{AccessPolicy, IpBindAccess, NetworkAccess, ReadAccess, UnixSocketAccess};
use crate::text;
use vstd::prelude::*;

verus! {

/// `~`
pub const TILDE: u8 = 0x7e;

/// What a policy document says of the network.
#[derive(Debug)]
pub struct SandboxNetwork {
    pub allow_network: bool,
    pub http_proxy_port: Option<u16>,
    pub socks_proxy_port: Option<u16>,
    pub allow_unix_sockets: Vec<String>,
    pub allow_all_unix_sockets: bool,
    pub allow_local_binding: bool,
}

/// The bytes of an optional path.
pub open spec fn option_path(path: Option<&[u8]>) -> Option<Seq<u8>> {
    match path {
        Some(path) => Some(path@),
        None => None,
    }
}

/// Where a path of a policy document starts: at the root, in the home
/// directory after `~`, or else where the document applies.
pub open spec fn sandbox_path(
    path: Seq<u8>,
    base: Seq<u8>,
    home: Option<Seq<u8>>,
) -> Result<Seq<u8>, Error> {
    if path.len() == 0 {
        Err(Error::PolicyEmptyPath)
    } else if paths::is_rooted(path) {
        Ok(paths::normalized(path))
    } else if path == seq![TILDE] {
        match home {
            Some(home) => Ok(paths::normalized(home)),
            None => Err(Error::PolicyHomeUnavailable),
        }
    } else if path.len() >= 2 && path[0] == TILDE && path[1] == paths::SLASH {
        match home {
            Some(home) => Ok(paths::normalized(paths::joined(home, path.skip(2)))),
            None => Err(Error::PolicyHomeUnavailable),
        }
    } else {
        Ok(paths::normalized(paths::joined(base, path)))
    }
}

/// Resolves a path of a policy document without looking at the filesystem.
pub fn resolve_sandbox_path(
    path: &str,
    base: &[u8],
    home: Option<&[u8]>,
) -> (resolved: Result<Vec<u8>, Error>)
    ensures
        match sandbox_path(vstd::utf8::encode_utf8(path@), base@, option_path(home)) {
            Ok(found) => resolved matches Ok(path) && path@ == found,
            Err(error) => resolved == Err::<Vec<u8>, _>(error),
        },
{
    let raw = path.as_bytes();
    if raw.len() == 0 {
        return Err(Error::PolicyEmptyPath);
    }
    if raw[0] == paths::SLASH {
        return Ok(paths::normalize_path_lexically(raw));
    }
    if raw[0] == TILDE && raw.len() == 1 {
        assert(raw@ =~= seq![TILDE]);
        return match home {
            Some(home) => Ok(paths::normalize_path_lexically(home)),
            None => Err(Error::PolicyHomeUnavailable),
        };
    }
    if raw[0] == TILDE && raw[1] == paths::SLASH {
        return match home {
            Some(home) => {
                let rest = vstd::slice::slice_subrange(raw, 2, raw.len());
                assert(rest@ =~= raw@.skip(2));
                let whole = paths::join(home, rest);
                Ok(paths::normalize_path_lexically(whole.as_slice()))
            },
            None => Err(Error::PolicyHomeUnavailable),
        };
    }
    let whole = paths::join(base, raw);
    Ok(paths::normalize_path_lexically(whole.as_slice()))
}

/// Where the relative paths of a document start: its own place, seen from the
/// working directory where it is relative.
pub fn policy_base(base: &[u8], working_directory: &[u8]) -> (resolved: Vec<u8>)
    ensures
        resolved@ == paths::normalized(paths::joined(working_directory@, base@)),
{
    let whole = paths::join(working_directory, base);
    paths::normalize_path_lexically(whole.as_slice())
}

/// Whether the text of a path makes it a pattern.
pub open spec fn is_pattern(path: Seq<u8>) -> bool {
    let shown = vstd::utf8::encode_utf8(text::shown(path));
    glob::first_glob(shown) < shown.len()
}

/// Whether the text of a path makes it a pattern.
pub fn is_pattern_path(path: &[u8]) -> (yes: bool)
    ensures
        yes == is_pattern(path@),
{
    let shown = text::show(path);
    let raw = shown.as_str().as_bytes();
    glob::find_glob(raw) < raw.len()
}

/// Each path of a list, resolved, or the first error.
pub open spec fn sandbox_paths(
    list: Seq<String>,
    base: Seq<u8>,
    home: Option<Seq<u8>>,
) -> Result<Seq<Seq<u8>>, Error>
    decreases list.len(),
{
    if list.len() == 0 {
        Ok(Seq::empty())
    } else {
        match sandbox_paths(list.drop_last(), base, home) {
            Ok(rest) => match sandbox_path(vstd::utf8::encode_utf8(list.last()@), base, home) {
                Ok(path) => Ok(rest.push(path)),
                Err(error) => Err(error),
            },
            Err(error) => Err(error),
        }
    }
}

proof fn lemma_first_error(list: Seq<String>, base: Seq<u8>, home: Option<Seq<u8>>, at: int)
    requires
        0 <= at <= list.len(),
        sandbox_paths(list.take(at), base, home) is Err,
    ensures
        sandbox_paths(list, base, home) == sandbox_paths(list.take(at), base, home),
    decreases list.len(),
{
    if at < list.len() {
        let less = list.drop_last();
        assert(less.take(at) =~= list.take(at));
        lemma_first_error(less, base, home, at);
    } else {
        assert(list.take(at) =~= list);
    }
}

/// Resolves each path of a list without looking at the filesystem.
pub fn resolve_paths(
    list: &[String],
    base: &[u8],
    home: Option<&[u8]>,
) -> (resolved: Result<Vec<Vec<u8>>, Error>)
    ensures
        match sandbox_paths(list@, base@, option_path(home)) {
            Ok(found) => resolved matches Ok(all) && bytes::texts(all@) == found,
            Err(error) => resolved == Err::<Vec<Vec<u8>>, _>(error),
        },
{
    let mut resolved: Vec<Vec<u8>> = Vec::new();
    let mut at: usize = 0;
    assert(bytes::texts(resolved@) =~= Seq::empty());
    assert(sandbox_paths(list@.take(0), base@, option_path(home)) == Ok::<_, Error>(
        bytes::texts(resolved@),
    ));
    while at < list.len()
        invariant
            at <= list@.len(),
            sandbox_paths(list@.take(at as int), base@, option_path(home)) == Ok::<_, Error>(
                bytes::texts(resolved@),
            ),
        decreases list.len() - at,
    {
        let ghost before = bytes::texts(resolved@);
        assert(list@.take(at + 1).drop_last() =~= list@.take(at as int));
        assert(list@.take(at + 1).last() == list@[at as int]);
        match resolve_sandbox_path(list[at].as_str(), base, home) {
            Ok(path) => {
                resolved.push(path);
                assert(bytes::texts(resolved@) =~= before.push(path@));
            },
            Err(error) => {
                proof {
                    lemma_first_error(list@, base@, option_path(home), at + 1);
                }
                return Err(error);
            },
        }
        at += 1;
    }
    assert(list@.take(at as int) =~= list@);
    Ok(resolved)
}

/// The patterns among paths, as text.
pub open spec fn patterns_in(list: Seq<Seq<u8>>) -> Seq<Seq<char>>
    decreases list.len(),
{
    if list.len() == 0 {
        Seq::empty()
    } else if is_pattern(list.last()) {
        patterns_in(list.drop_last()).push(text::shown(list.last()))
    } else {
        patterns_in(list.drop_last())
    }
}

/// The paths among paths that are no patterns.
pub open spec fn concrete_in(list: Seq<Seq<u8>>) -> Seq<Seq<u8>>
    decreases list.len(),
{
    if list.len() == 0 {
        Seq::empty()
    } else if is_pattern(list.last()) {
        concrete_in(list.drop_last())
    } else {
        concrete_in(list.drop_last()).push(list.last())
    }
}

/// A deny list, its paths to be resolved further and its patterns kept as they
/// are, so that they also hold of what is made later.
#[derive(Debug)]
pub struct DenyList {
    pub concrete: Vec<Vec<u8>>,
    pub patterns: Vec<String>,
}

/// Resolves a deny list without looking at the filesystem.
pub fn resolve_deny_paths(
    list: &[String],
    base: &[u8],
    home: Option<&[u8]>,
) -> (resolved: Result<DenyList, Error>)
    ensures
        match sandbox_paths(list@, base@, option_path(home)) {
            Ok(found) => resolved matches Ok(denied) && bytes::texts(denied.concrete@)
                == concrete_in(found) && crate::error::string_texts(denied.patterns@)
                == patterns_in(found),
            Err(error) => resolved == Err::<DenyList, _>(error),
        },
{
    let all = match resolve_paths(list, base, home) {
        Ok(all) => all,
        Err(error) => return Err(error),
    };
    let ghost found = bytes::texts(all@);
    let mut concrete: Vec<Vec<u8>> = Vec::new();
    let mut patterns: Vec<String> = Vec::new();
    let mut at: usize = 0;
    assert(bytes::texts(concrete@) =~= concrete_in(found.take(0)));
    assert(crate::error::string_texts(patterns@) =~= patterns_in(found.take(0)));
    while at < all.len()
        invariant
            at <= all.len(),
            found == bytes::texts(all@),
            bytes::texts(concrete@) == concrete_in(found.take(at as int)),
            crate::error::string_texts(patterns@) == patterns_in(found.take(at as int)),
        decreases all.len() - at,
    {
        assert(found.take(at + 1).drop_last() =~= found.take(at as int));
        assert(found.take(at + 1).last() == all@[at as int]@);
        if is_pattern_path(all[at].as_slice()) {
            let ghost before = crate::error::string_texts(patterns@);
            let pattern = text::show(all[at].as_slice());
            patterns.push(pattern);
            assert(crate::error::string_texts(patterns@) =~= before.push(pattern@));
        } else {
            let ghost before = bytes::texts(concrete@);
            let path = bytes::copy_bytes(all[at].as_slice());
            concrete.push(path);
            assert(bytes::texts(concrete@) =~= before.push(path@));
        }
        at += 1;
    }
    assert(found.take(at as int) =~= found);
    Ok(DenyList { concrete, patterns })
}

/// A pattern below a directory that leads elsewhere, as a pattern below where
/// it leads.
pub open spec fn moved_pattern(
    pattern: Seq<u8>,
    base: Seq<u8>,
    canonical: Seq<u8>,
) -> Option<Seq<u8>> {
    if canonical != base && base.is_prefix_of(pattern) {
        Some(canonical + pattern.skip(base.len() as int))
    } else {
        None
    }
}

/// A pattern below a directory that leads elsewhere, as a pattern below where
/// it leads, or `None` where it leads nowhere else.
pub fn canonical_pattern(
    pattern: &[u8],
    base: &[u8],
    canonical: &[u8],
) -> (moved: Option<Vec<u8>>)
    ensures
        match moved_pattern(pattern@, base@, canonical@) {
            Some(found) => moved matches Some(other) && other@ == found,
            None => moved is None,
        },
{
    if bytes::bytes_equal(canonical, base) || !bytes::starts_with(pattern, base) {
        return None;
    }
    let mut moved = bytes::copy_bytes(canonical);
    let suffix = vstd::slice::slice_subrange(pattern, base.len(), pattern.len());
    assert(suffix@ =~= pattern@.skip(base@.len() as int));
    bytes::append_bytes(&mut moved, suffix);
    Some(moved)
}

/// What a path that is allowed comes to: the matches of a pattern, or the path
/// itself where it is none or where nothing matches but a file has that very
/// name.
pub fn path_candidates(
    path: Vec<u8>,
    matches: Option<Vec<Vec<u8>>>,
    exists: bool,
) -> (candidates: Vec<Vec<u8>>)
    ensures
        bytes::texts(candidates@) == (match matches {
            Some(found) => if found@.len() == 0 && exists {
                seq![path@]
            } else {
                bytes::texts(found@)
            },
            None => seq![path@],
        }),
{
    match matches {
        Some(found) => if found.len() == 0 && exists {
            let mut only: Vec<Vec<u8>> = Vec::new();
            only.push(path);
            assert(bytes::texts(only@) =~= seq![path@]);
            only
        } else {
            found
        },
        None => {
            let mut only: Vec<Vec<u8>> = Vec::new();
            only.push(path);
            assert(bytes::texts(only@) =~= seq![path@]);
            only
        },
    }
}

/// The bytes of each pattern.
pub open spec fn pattern_bytes(patterns: Seq<String>) -> Seq<Seq<u8>> {
    patterns.map_values(|pattern: String| vstd::utf8::encode_utf8(pattern@))
}

/// Whether texts ascend, none of them twice.
pub open spec fn texts_ascend(list: Seq<Seq<u8>>) -> bool {
    forall|i: int, j: int|
        0 <= i < j < list.len() ==> order::text_order(#[trigger] list[i], #[trigger] list[j])
            == Relation::Before
}

fn insert_pattern(list: &mut Vec<String>, pattern: String)
    requires
        texts_ascend(pattern_bytes(old(list)@)),
    ensures
        texts_ascend(pattern_bytes(final(list)@)),
        forall|text: Seq<u8>| #[trigger]
            pattern_bytes(final(list)@).contains(text) <==> pattern_bytes(old(list)@).contains(text)
                || text == vstd::utf8::encode_utf8(pattern@),
{
    let ghost before = pattern_bytes(list@);
    let ghost new = vstd::utf8::encode_utf8(pattern@);
    let mut at: usize = 0;
    while at < list.len()
        invariant
            at <= list.len(),
            list@ == old(list)@,
            before == pattern_bytes(list@),
            new == vstd::utf8::encode_utf8(pattern@),
            texts_ascend(before),
            forall|i: int|
                0 <= i < at ==> order::text_order(#[trigger] before[i], new) == Relation::Before,
        ensures
            at <= list.len(),
            list@ == old(list)@,
            at < list.len() ==> order::text_order(before[at as int], new) == Relation::After,
            forall|i: int|
                0 <= i < at ==> order::text_order(#[trigger] before[i], new) == Relation::Before,
        decreases list.len() - at,
    {
        assert(before[at as int] == vstd::utf8::encode_utf8(list@[at as int]@));
        match order::text_relation(list[at].as_str().as_bytes(), pattern.as_str().as_bytes()) {
            Relation::Before => {
                at += 1;
            },
            Relation::Same => {
                proof {
                    order::lemma_text_same(before[at as int], new);
                    assert(before.contains(new));
                }
                return;
            },
            Relation::After => {
                break;
            },
        }
    }
    list.insert(at, pattern);
    proof {
        let after = pattern_bytes(list@);
        assert(after =~= before.insert(at as int, new));
        assert forall|i: int, j: int| 0 <= i < j < after.len() implies order::text_order(
            #[trigger] after[i],
            #[trigger] after[j],
        ) == Relation::Before by {
            let a = at as int;
            if j < a {
                assert(after[i] == before[i] && after[j] == before[j]);
            } else if j == a {
                assert(after[i] == before[i]);
            } else if i > a {
                assert(after[i] == before[i - 1] && after[j] == before[j - 1]);
            } else if i == a {
                assert(after[j] == before[j - 1]);
                order::lemma_text_opposite(before[a], new);
                if j - 1 > a {
                    order::lemma_text_transitive(new, before[a], before[j - 1]);
                }
            } else {
                assert(after[i] == before[i] && after[j] == before[j - 1]);
            }
        }
        assert forall|text: Seq<u8>| #[trigger] after.contains(text) <==> before.contains(text)
            || text == new by {
            if before.contains(text) {
                let i = choose|i: int| 0 <= i < before.len() && before[i] == text;
                if i < at {
                    assert(after[i] == text);
                } else {
                    assert(after[i + 1] == text);
                }
            }
            if text == new {
                assert(after[at as int] == text);
            }
            if after.contains(text) && text != new {
                let i = choose|i: int| 0 <= i < after.len() && after[i] == text;
                if i < at {
                    assert(before[i] == text);
                } else {
                    assert(before[i - 1] == text);
                }
            }
        }
    }
}

/// Sorts patterns and drops repeats.
pub fn normalize_patterns(patterns: Vec<String>) -> (sorted: Vec<String>)
    ensures
        texts_ascend(pattern_bytes(sorted@)),
        forall|text: Seq<u8>| #[trigger]
            pattern_bytes(sorted@).contains(text) <==> pattern_bytes(patterns@).contains(text),
{
    let ghost all = pattern_bytes(patterns@);
    let mut sorted: Vec<String> = Vec::new();
    let mut at: usize = 0;
    while at < patterns.len()
        invariant
            at <= patterns.len(),
            all == pattern_bytes(patterns@),
            texts_ascend(pattern_bytes(sorted@)),
            forall|text: Seq<u8>| #[trigger]
                pattern_bytes(sorted@).contains(text) <==> all.take(at as int).contains(text),
        decreases patterns.len() - at,
    {
        let ghost held = all.take(at as int);
        insert_pattern(&mut sorted, patterns[at].clone());
        proof {
            let more = all.take(at + 1);
            assert(more =~= held.push(all[at as int]));
            assert forall|text: Seq<u8>| #[trigger] more.contains(text) <==> held.contains(text)
                || text == all[at as int] by {
                if held.contains(text) {
                    let i = choose|i: int| 0 <= i < held.len() && held[i] == text;
                    assert(more[i] == text);
                }
                if text == all[at as int] {
                    assert(more[at as int] == text);
                }
            }
        }
        at += 1;
    }
    assert(all.take(at as int) =~= all);
    sorted
}

/// The roots of one list under which no root of another lies.
pub open spec fn roots_above_none(
    denied: Seq<Seq<u8>>,
    allowed: Seq<Seq<u8>>,
) -> Seq<Seq<u8>> {
    denied.filter(
        |deny: Seq<u8>|
            !exists|i: int| 0 <= i < allowed.len() && paths::under(#[trigger] allowed[i], deny),
    )
}

fn has_path_under(list: &[Vec<u8>], root: &[u8]) -> (found: bool)
    ensures
        found == exists|i: int|
            0 <= i < list@.len() && paths::under(#[trigger] bytes::texts(list@)[i], root@),
{
    let mut at: usize = 0;
    while at < list.len()
        invariant
            at <= list@.len(),
            forall|i: int|
                0 <= i < at ==> !paths::under(#[trigger] bytes::texts(list@)[i], root@),
        decreases list.len() - at,
    {
        assert(bytes::texts(list@)[at as int] == list@[at as int]@);
        if paths::is_under(list[at].as_slice(), root) {
            return true;
        }
        at += 1;
    }
    false
}

/// The denied roots that stay denied as a whole: an allowed root below a denied
/// one, or equal to it, is the more specific and wins there.
pub fn effective_denied_roots(
    read_deny: &[Vec<u8>],
    read_allow: &[Vec<u8>],
) -> (roots: Vec<Vec<u8>>)
    ensures
        bytes::texts(roots@) == roots_above_none(
            bytes::texts(read_deny@),
            bytes::texts(read_allow@),
        ),
{
    let ghost denied = bytes::texts(read_deny@);
    let ghost allowed = bytes::texts(read_allow@);
    let ghost keep = |deny: Seq<u8>|
        !exists|i: int| 0 <= i < allowed.len() && paths::under(#[trigger] allowed[i], deny);
    let mut roots: Vec<Vec<u8>> = Vec::new();
    let mut at: usize = 0;
    proof {
        reveal(Seq::filter);
        assert(bytes::texts(roots@) =~= denied.take(0).filter(keep));
    }
    while at < read_deny.len()
        invariant
            at <= read_deny@.len(),
            denied == bytes::texts(read_deny@),
            allowed == bytes::texts(read_allow@),
            keep == (|deny: Seq<u8>|
                !exists|i: int| 0 <= i < allowed.len() && paths::under(#[trigger] allowed[i], deny)),
            bytes::texts(roots@) == denied.take(at as int).filter(keep),
        decreases read_deny.len() - at,
    {
        let ghost before = bytes::texts(roots@);
        let ghost deny = denied[at as int];
        let covered = has_path_under(read_allow, read_deny[at].as_slice());
        proof {
            reveal(Seq::filter);
            assert(denied.take(at + 1).drop_last() =~= denied.take(at as int));
            assert(denied.take(at + 1).last() == deny);
            assert(keep(deny) == !covered);
        }
        if !covered {
            roots.push(bytes::copy_bytes(read_deny[at].as_slice()));
            assert(bytes::texts(roots@) =~= before.push(deny));
        }
        at += 1;
    }
    assert(denied.take(at as int) =~= denied);
    roots
}

/// Whether a root of a list lies strictly below another root.
pub open spec fn has_below(list: Seq<Seq<u8>>, root: Seq<u8>) -> bool {
    exists|i: int| 0 <= i < list.len() && paths::strictly_under(#[trigger] list[i], root)
}

/// The denied roots of which an allowed root opens a part again: one lies
/// strictly below, and none opens the whole.
pub open spec fn roots_reopened(denied: Seq<Seq<u8>>, allowed: Seq<Seq<u8>>) -> Seq<Seq<u8>> {
    denied.filter(
        |deny: Seq<u8>| has_below(allowed, deny) && !paths::names_path(allowed, deny),
    )
}

fn has_strictly_below(list: &[Vec<u8>], root: &[u8]) -> (found: bool)
    ensures
        found == has_below(bytes::texts(list@), root@),
{
    let mut at: usize = 0;
    while at < list.len()
        invariant
            at <= list@.len(),
            forall|i: int|
                0 <= i < at ==> !paths::strictly_under(#[trigger] bytes::texts(list@)[i], root@),
        decreases list.len() - at,
    {
        assert(bytes::texts(list@)[at as int] == list@[at as int]@);
        if paths::is_strictly_under(list[at].as_slice(), root) {
            return true;
        }
        at += 1;
    }
    false
}

/// The denied roots of which an allowed root opens a part again. What the
/// allowed roots within do not cover stays denied.
pub fn reopened_denied_roots(
    read_deny: &[Vec<u8>],
    read_allow: &[Vec<u8>],
) -> (roots: Vec<Vec<u8>>)
    ensures
        bytes::texts(roots@) == roots_reopened(
            bytes::texts(read_deny@),
            bytes::texts(read_allow@),
        ),
{
    let ghost denied = bytes::texts(read_deny@);
    let ghost allowed = bytes::texts(read_allow@);
    let ghost keep = |deny: Seq<u8>|
        has_below(allowed, deny) && !paths::names_path(allowed, deny);
    let mut roots: Vec<Vec<u8>> = Vec::new();
    let mut at: usize = 0;
    proof {
        reveal(Seq::filter);
        assert(bytes::texts(roots@) =~= denied.take(0).filter(keep));
    }
    while at < read_deny.len()
        invariant
            at <= read_deny@.len(),
            denied == bytes::texts(read_deny@),
            allowed == bytes::texts(read_allow@),
            keep == (|deny: Seq<u8>|
                has_below(allowed, deny) && !paths::names_path(allowed, deny)),
            bytes::texts(roots@) == denied.take(at as int).filter(keep),
        decreases read_deny.len() - at,
    {
        let ghost before = bytes::texts(roots@);
        let ghost deny = denied[at as int];
        let reopened = has_strictly_below(read_allow, read_deny[at].as_slice())
            && !paths::contains_path(read_allow, read_deny[at].as_slice());
        proof {
            reveal(Seq::filter);
            assert(denied.take(at + 1).drop_last() =~= denied.take(at as int));
            assert(denied.take(at + 1).last() == deny);
            assert(keep(deny) == reopened);
        }
        if reopened {
            roots.push(bytes::copy_bytes(read_deny[at].as_slice()));
            assert(bytes::texts(roots@) =~= before.push(deny));
        }
        at += 1;
    }
    assert(denied.take(at as int) =~= denied);
    roots
}

/// The ports that proxies listen on, ascending and each once, or `None` where
/// one is no port.
pub open spec fn proxy_ports(first: Option<u16>, second: Option<u16>) -> Option<Seq<u16>> {
    if first == Some(0u16) || second == Some(0u16) {
        None
    } else {
        Some(
            match (first, second) {
                (Some(low), Some(high)) => if low < high {
                    seq![low, high]
                } else if high < low {
                    seq![high, low]
                } else {
                    seq![low]
                },
                (Some(port), None) => seq![port],
                (None, Some(port)) => seq![port],
                (None, None) => Seq::empty(),
            },
        )
    }
}

/// Adds a proxy's port to a list, if there is one.
pub fn push_proxy_port(ports: &mut Vec<u16>, port: Option<u16>) -> (result: Result<(), Error>)
    ensures
        port == Some(0u16) ==> result == Err::<(), _>(Error::PolicyInvalidPort) && final(ports)@
            == old(ports)@,
        port != Some(0u16) ==> result == Ok::<(), Error>(()) && final(ports)@ == (match port {
            None => old(ports)@,
            Some(port) => old(ports)@.push(port),
        }),
{
    let port: u16 = match port {
        Some(port) => port,
        None => return Ok(()),
    };
    if port == 0 {
        return Err(Error::PolicyInvalidPort);
    }
    ports.push(port);
    Ok(())
}

/// Puts at most two ports in order, each once.
fn sort_ports(ports: &mut Vec<u16>)
    requires
        old(ports)@.len() <= 2,
    ensures
        final(ports)@ == (if old(ports)@.len() < 2 || old(ports)@[0] < old(ports)@[1] {
            old(ports)@
        } else if old(ports)@[0] == old(ports)@[1] {
            seq![old(ports)@[0]]
        } else {
            seq![old(ports)@[1], old(ports)@[0]]
        }),
{
    if ports.len() < 2 {
        return;
    }
    let first: u16 = ports[0];
    let second: u16 = ports[1];
    if first == second {
        ports.truncate(1);
        assert(ports@ =~= seq![first]);
    } else if second < first {
        ports.set(0, second);
        ports.set(1, first);
        assert(ports@ =~= seq![second, first]);
    }
}

/// Whether an access is what a document says of the network, given where its
/// sockets lead.
pub open spec fn lowers_network(
    network: SandboxNetwork,
    sockets: Result<Vec<Vec<u8>>, Error>,
    result: Result<NetworkAccess, Error>,
) -> bool {
    if network.allow_network {
        result == Ok::<NetworkAccess, Error>(NetworkAccess::Unrestricted)
    } else {
        match proxy_ports(network.http_proxy_port, network.socks_proxy_port) {
            None => result == Err::<NetworkAccess, _>(Error::PolicyInvalidPort),
            Some(ports) => match sockets {
                Err(error) => result == Err::<NetworkAccess, _>(error),
                Ok(list) => {
                    &&& result matches Ok(NetworkAccess::Restricted {
                        connect_tcp_ports,
                        bind,
                        unix_socket_access,
                    })
                    &&& connect_tcp_ports@ == ports
                    &&& bind == (if network.allow_local_binding {
                        IpBindAccess::Localhost
                    } else {
                        IpBindAccess::Deny
                    })
                    &&& unix_socket_access == (if network.allow_all_unix_sockets {
                        UnixSocketAccess::Unrestricted
                    } else if list@.len() == 0 {
                        UnixSocketAccess::Denied
                    } else {
                        UnixSocketAccess::AllowPaths(list)
                    })
                },
            },
        }
    }
}

/// What a document says of the network, given where its sockets lead.
pub fn lower_network_policy(
    network: &SandboxNetwork,
    sockets: Result<Vec<Vec<u8>>, Error>,
) -> (result: Result<NetworkAccess, Error>)
    ensures
        lowers_network(*network, sockets, result),
{
    if network.allow_network {
        return Ok(NetworkAccess::Unrestricted);
    }
    let mut connect_tcp_ports: Vec<u16> = Vec::new();
    if let Err(error) = push_proxy_port(&mut connect_tcp_ports, network.http_proxy_port) {
        return Err(error);
    }
    if let Err(error) = push_proxy_port(&mut connect_tcp_ports, network.socks_proxy_port) {
        return Err(error);
    }
    sort_ports(&mut connect_tcp_ports);
    assert(connect_tcp_ports@ =~= proxy_ports(
        network.http_proxy_port,
        network.socks_proxy_port,
    )->0);
    let list = match sockets {
        Ok(list) => list,
        Err(error) => return Err(error),
    };
    let unix_socket_access = if network.allow_all_unix_sockets {
        UnixSocketAccess::Unrestricted
    } else if list.len() == 0 {
        UnixSocketAccess::Denied
    } else {
        UnixSocketAccess::AllowPaths(list)
    };
    let bind = if network.allow_local_binding {
        IpBindAccess::Localhost
    } else {
        IpBindAccess::Deny
    };
    Ok(NetworkAccess::Restricted { connect_tcp_ports, bind, unix_socket_access })
}

/// How reads are restricted.
#[derive(Clone, Copy, Debug, PartialEq, Eq, Structural)]
pub enum ReadLowering {
    /// Not at all.
    Unrestricted,
    /// To everything below the root, less what is denied.
    WholeFilesystem,
    /// To what a scan of the filesystem finds beside what is denied.
    Scan,
}

/// Whether an allowed root lies strictly below a denied one.
pub open spec fn carves(allowed: Seq<Seq<u8>>, denied: Seq<Seq<u8>>) -> bool {
    exists|i: int, j: int|
        0 <= i < denied.len() && 0 <= j < allowed.len() && #[trigger] paths::strictly_under(
            allowed[j],
            denied[i],
        )
}

/// How reads are restricted, `needs_roots` saying that a sandbox cannot leave
/// them unrestricted.
pub open spec fn read_lowering(
    allowed: Seq<Seq<u8>>,
    denied: Seq<Seq<u8>>,
    root: Seq<u8>,
    needs_roots: bool,
) -> Result<ReadLowering, Error> {
    if needs_roots && paths::names_path(allowed, root) {
        Err(Error::PolicyUnrestrictedRead)
    } else if denied.len() == 0 {
        Ok(ReadLowering::Unrestricted)
    } else if paths::names_path(allowed, root) && !carves(allowed, denied) {
        Ok(ReadLowering::WholeFilesystem)
    } else {
        Ok(ReadLowering::Scan)
    }
}

fn has_carving(allowed: &[Vec<u8>], denied: &[Vec<u8>]) -> (found: bool)
    ensures
        found == carves(bytes::texts(allowed@), bytes::texts(denied@)),
{
    let ghost above = bytes::texts(denied@);
    let ghost below = bytes::texts(allowed@);
    let mut at: usize = 0;
    while at < denied.len()
        invariant
            at <= denied@.len(),
            above == bytes::texts(denied@),
            below == bytes::texts(allowed@),
            forall|i: int, j: int|
                0 <= i < at && 0 <= j < below.len() ==> !#[trigger] paths::strictly_under(
                    below[j],
                    above[i],
                ),
        decreases denied.len() - at,
    {
        let mut next: usize = 0;
        while next < allowed.len()
            invariant
                at < denied@.len(),
                next <= allowed@.len(),
                above == bytes::texts(denied@),
                below == bytes::texts(allowed@),
                forall|j: int|
                    0 <= j < next ==> !#[trigger] paths::strictly_under(
                        below[j],
                        above[at as int],
                    ),
            decreases allowed.len() - next,
        {
            assert(below[next as int] == allowed@[next as int]@);
            assert(above[at as int] == denied@[at as int]@);
            if paths::is_strictly_under(allowed[next].as_slice(), denied[at].as_slice()) {
                return true;
            }
            next += 1;
        }
        at += 1;
    }
    false
}

/// How reads are restricted.
pub fn lower_read_access(
    read_allow: &[Vec<u8>],
    read_deny: &[Vec<u8>],
    root: &[u8],
    needs_roots: bool,
) -> (lowering: Result<ReadLowering, Error>)
    ensures
        lowering == read_lowering(
            bytes::texts(read_allow@),
            bytes::texts(read_deny@),
            root@,
            needs_roots,
        ),
{
    if needs_roots && paths::contains_path(read_allow, root) {
        return Err(Error::PolicyUnrestrictedRead);
    }
    if read_deny.len() == 0 {
        return Ok(ReadLowering::Unrestricted);
    }
    if paths::contains_path(read_allow, root) && !has_carving(read_allow, read_deny) {
        return Ok(ReadLowering::WholeFilesystem);
    }
    Ok(ReadLowering::Scan)
}

/// Whether a denied root lies strictly below a root, so that the root has to be
/// scanned.
pub open spec fn needs_carve(root: Seq<u8>, denied: Seq<Seq<u8>>) -> bool {
    exists|i: int| 0 <= i < denied.len() && paths::strictly_under(#[trigger] denied[i], root)
}

/// Whether a denied root lies strictly below a root.
pub fn has_denied_descendant(root: &[u8], denied: &[Vec<u8>]) -> (found: bool)
    ensures
        found == needs_carve(root@, bytes::texts(denied@)),
{
    let mut at: usize = 0;
    while at < denied.len()
        invariant
            at <= denied@.len(),
            forall|i: int|
                0 <= i < at ==> !paths::strictly_under(#[trigger] bytes::texts(denied@)[i], root@),
        decreases denied.len() - at,
    {
        assert(bytes::texts(denied@)[at as int] == denied@[at as int]@);
        if paths::is_strictly_under(denied[at].as_slice(), root) {
            return true;
        }
        at += 1;
    }
    false
}

/// What becomes of an allowed write root where denials have to be carved out
/// of it.
#[derive(Clone, Copy, Debug, PartialEq, Eq, Structural)]
pub enum CarveStep {
    /// It is scanned for what lies beside the denials.
    Scan,
    /// It is denied itself.
    Drop,
    /// It stays as it is.
    Keep,
}

/// What becomes of an allowed write root, given the denials to be carved out
/// and those of writing.
pub fn carve_step(
    allow: &[u8],
    carve_denials: &[Vec<u8>],
    write_deny: &[Vec<u8>],
) -> (step: CarveStep)
    ensures
        step == (if needs_carve(allow@, bytes::texts(carve_denials@)) {
            CarveStep::Scan
        } else if paths::under_any(allow@, bytes::texts(write_deny@)) {
            CarveStep::Drop
        } else {
            CarveStep::Keep
        }),
{
    if has_denied_descendant(allow, carve_denials) {
        CarveStep::Scan
    } else if paths::is_under_any(allow, write_deny) {
        CarveStep::Drop
    } else {
        CarveStep::Keep
    }
}

/// The denials that are carved out of the allowed write roots: what must not be
/// written, and what must not be read.
pub fn carve_denials(write_deny: &[Vec<u8>], read_deny: &[Vec<u8>]) -> (denials: Vec<Vec<u8>>)
    ensures
        paths::is_root_set(
            bytes::texts(denials@),
            bytes::texts(write_deny@) + bytes::texts(read_deny@),
        ),
{
    let mut denials: Vec<Vec<u8>> = Vec::new();
    assert(bytes::texts(denials@) =~= Seq::empty());
    push_paths(&mut denials, write_deny);
    push_paths(&mut denials, read_deny);
    assert(bytes::texts(denials@) =~= bytes::texts(write_deny@) + bytes::texts(read_deny@));
    paths::normalize_roots(&mut denials);
    denials
}

/// Adds copies of paths to a list.
pub fn push_paths(list: &mut Vec<Vec<u8>>, more: &[Vec<u8>])
    ensures
        bytes::texts(final(list)@) == bytes::texts(old(list)@) + bytes::texts(more@),
{
    let ghost added = bytes::texts(more@);
    let mut at: usize = 0;
    assert(bytes::texts(list@) =~= bytes::texts(old(list)@) + added.take(0));
    while at < more.len()
        invariant
            at <= more@.len(),
            added == bytes::texts(more@),
            bytes::texts(list@) == bytes::texts(old(list)@) + added.take(at as int),
        decreases more.len() - at,
    {
        let ghost before = bytes::texts(list@);
        list.push(bytes::copy_bytes(more[at].as_slice()));
        assert(bytes::texts(list@) =~= before.push(added[at as int]));
        assert(added.take(at + 1) =~= added.take(at as int).push(added[at as int]));
        assert(bytes::texts(list@) =~= bytes::texts(old(list)@) + added.take(at + 1));
        at += 1;
    }
    assert(added.take(at as int) =~= added);
}

/// Whether a path lies strictly below one of the roots.
pub open spec fn strictly_under_any(path: Seq<u8>, roots: Seq<Seq<u8>>) -> bool {
    exists|i: int| 0 <= i < roots.len() && paths::strictly_under(path, #[trigger] roots[i])
}

fn is_strictly_under_any(path: &[u8], roots: &[Vec<u8>]) -> (found: bool)
    ensures
        found == strictly_under_any(path@, bytes::texts(roots@)),
{
    let mut at: usize = 0;
    while at < roots.len()
        invariant
            at <= roots@.len(),
            forall|i: int|
                0 <= i < at ==> !paths::strictly_under(path@, #[trigger] bytes::texts(roots@)[i]),
        decreases roots.len() - at,
    {
        assert(bytes::texts(roots@)[at as int] == roots@[at as int]@);
        if paths::is_strictly_under(path, roots[at].as_slice()) {
            return true;
        }
        at += 1;
    }
    false
}

/// The denials that are left once the allowed roots are carved: those that lie
/// below none of them.
pub fn uncarved_denials(write_deny: &[Vec<u8>], carved: &[Vec<u8>]) -> (left: Vec<Vec<u8>>)
    ensures
        bytes::texts(left@) == bytes::texts(write_deny@).filter(
            |deny: Seq<u8>| !strictly_under_any(deny, bytes::texts(carved@)),
        ),
{
    let ghost denied = bytes::texts(write_deny@);
    let ghost roots = bytes::texts(carved@);
    let ghost keep = |deny: Seq<u8>| !strictly_under_any(deny, roots);
    let mut left: Vec<Vec<u8>> = Vec::new();
    let mut at: usize = 0;
    proof {
        reveal(Seq::filter);
        assert(bytes::texts(left@) =~= denied.take(0).filter(keep));
    }
    while at < write_deny.len()
        invariant
            at <= write_deny@.len(),
            denied == bytes::texts(write_deny@),
            roots == bytes::texts(carved@),
            keep == (|deny: Seq<u8>| !strictly_under_any(deny, roots)),
            bytes::texts(left@) == denied.take(at as int).filter(keep),
        decreases write_deny.len() - at,
    {
        let ghost before = bytes::texts(left@);
        let ghost deny = denied[at as int];
        let covered = is_strictly_under_any(write_deny[at].as_slice(), carved);
        proof {
            reveal(Seq::filter);
            assert(denied.take(at + 1).drop_last() =~= denied.take(at as int));
            assert(denied.take(at + 1).last() == deny);
            assert(keep(deny) == !covered);
        }
        if !covered {
            left.push(bytes::copy_bytes(write_deny[at].as_slice()));
            assert(bytes::texts(left@) =~= before.push(deny));
        }
        at += 1;
    }
    assert(denied.take(at as int) =~= denied);
    left
}

/// What the allowed roots come to, one after the other: what a scan found, or
/// the root itself, or nothing.
pub open spec fn carved_roots(
    allowed: Seq<Seq<u8>>,
    carved: Seq<Seq<u8>>,
    dropped: Seq<Seq<u8>>,
    scans: Seq<Seq<Seq<u8>>>,
) -> Seq<Seq<u8>>
    decreases allowed.len(),
{
    if allowed.len() == 0 {
        Seq::empty()
    } else {
        let rest = carved_roots(allowed.drop_last(), carved, dropped, scans);
        if needs_carve(allowed.last(), carved) {
            rest + scans[allowed.len() - 1]
        } else if paths::under_any(allowed.last(), dropped) {
            rest
        } else {
            rest.push(allowed.last())
        }
    }
}

/// The paths that each scan found.
pub open spec fn scan_texts(scans: Seq<Vec<Vec<u8>>>) -> Seq<Seq<Seq<u8>>> {
    scans.map_values(|scan: Vec<Vec<u8>>| bytes::texts(scan@))
}

fn carve_roots(
    allowed: &[Vec<u8>],
    carved: &[Vec<u8>],
    dropped: &[Vec<u8>],
    scans: &Vec<Vec<Vec<u8>>>,
) -> (roots: Vec<Vec<u8>>)
    requires
        scans@.len() == allowed@.len(),
    ensures
        bytes::texts(roots@) == carved_roots(
            bytes::texts(allowed@),
            bytes::texts(carved@),
            bytes::texts(dropped@),
            scan_texts(scans@),
        ),
{
    let ghost all = bytes::texts(allowed@);
    let ghost avoided = bytes::texts(carved@);
    let ghost gone = bytes::texts(dropped@);
    let ghost found = scan_texts(scans@);
    let mut roots: Vec<Vec<u8>> = Vec::new();
    let mut at: usize = 0;
    assert(bytes::texts(roots@) =~= carved_roots(all.take(0), avoided, gone, found));
    while at < allowed.len()
        invariant
            at <= allowed@.len(),
            scans@.len() == allowed@.len(),
            all == bytes::texts(allowed@),
            avoided == bytes::texts(carved@),
            gone == bytes::texts(dropped@),
            found == scan_texts(scans@),
            bytes::texts(roots@) == carved_roots(all.take(at as int), avoided, gone, found),
        decreases allowed.len() - at,
    {
        let ghost before = bytes::texts(roots@);
        assert(all.take(at + 1).drop_last() =~= all.take(at as int));
        assert(all.take(at + 1).last() == allowed@[at as int]@);
        match carve_step(allowed[at].as_slice(), carved, dropped) {
            CarveStep::Scan => {
                push_paths(&mut roots, scans[at].as_slice());
                assert(found[at as int] == bytes::texts(scans@[at as int]@));
            },
            CarveStep::Drop => {},
            CarveStep::Keep => {
                roots.push(bytes::copy_bytes(allowed[at].as_slice()));
                assert(bytes::texts(roots@) =~= before.push(all[at as int]));
            },
        }
        at += 1;
    }
    assert(all.take(at as int) =~= all);
    roots
}

/// The write roots and denials of a sandbox that cannot deny below what it
/// allows: the denials are carved out of the roots, and those that then lie
/// below a root are left out. `scans` holds what was found below each allowed
/// root for which [`carve_step`] asks for a scan.
pub fn lower_windows_write_access(
    write_allow: &[Vec<u8>],
    write_deny: &[Vec<u8>],
    read_deny: &[Vec<u8>],
    scans: &Vec<Vec<Vec<u8>>>,
) -> (lowered: (Vec<Vec<u8>>, Vec<Vec<u8>>))
    requires
        scans@.len() == write_allow@.len(),
    ensures
        exists|carved: Seq<Seq<u8>>|
            #[trigger] paths::is_root_set(
                carved,
                bytes::texts(write_deny@) + bytes::texts(read_deny@),
            ) && paths::is_root_set(
                bytes::texts(lowered.0@),
                carved_roots(
                    bytes::texts(write_allow@),
                    carved,
                    bytes::texts(write_deny@),
                    scan_texts(scans@),
                ),
            ),
        bytes::texts(lowered.1@) == bytes::texts(write_deny@).filter(
            |deny: Seq<u8>| !strictly_under_any(deny, bytes::texts(lowered.0@)),
        ),
{
    let denials = carve_denials(write_deny, read_deny);
    let mut roots = carve_roots(write_allow, denials.as_slice(), write_deny, scans);
    paths::normalize_roots(&mut roots);
    let left = uncarved_denials(write_deny, roots.as_slice());
    (roots, left)
}

/// The read roots of a sandbox that cannot deny below what it allows: each
/// allowed root as it is, or what a scan found below it.
pub fn lower_windows_read_access(
    read_allow: &[Vec<u8>],
    denied: &[Vec<u8>],
    scans: &Vec<Vec<Vec<u8>>>,
) -> (roots: Vec<Vec<u8>>)
    requires
        scans@.len() == read_allow@.len(),
    ensures
        paths::is_root_set(
            bytes::texts(roots@),
            carved_roots(
                bytes::texts(read_allow@),
                bytes::texts(denied@),
                Seq::empty(),
                scan_texts(scans@),
            ),
        ),
{
    let none: Vec<Vec<u8>> = Vec::new();
    assert(bytes::texts(none@) =~= Seq::empty());
    let mut roots = carve_roots(read_allow, denied, none.as_slice(), scans);
    paths::normalize_roots(&mut roots);
    roots
}

/// The allowed roots that stand beside a scan of the whole filesystem. The
/// filesystem's own root does only where it is denied too: otherwise the scan
/// stands for it.
pub open spec fn roots_beside_scan(allowed: Seq<Seq<u8>>, denied: Seq<Seq<u8>>) -> Seq<Seq<u8>> {
    allowed.filter(|allow: Seq<u8>| stands_beside_scan(allow, denied))
}

/// Whether an allowed root stands beside a scan of the whole filesystem.
pub open spec fn stands_beside_scan(allow: Seq<u8>, denied: Seq<Seq<u8>>) -> bool {
    !paths::same_path(allow, seq![paths::SLASH]) || paths::names_path(denied, seq![paths::SLASH])
}

/// The read roots that a scan of the whole filesystem comes to: what the scan
/// found, and the allowed roots that stand beside it.
pub fn lower_restricted_read_access(
    scanned: Vec<Vec<u8>>,
    read_allow: &[Vec<u8>],
    read_deny: &[Vec<u8>],
) -> (roots: Vec<Vec<u8>>)
    ensures
        paths::is_root_set(
            bytes::texts(roots@),
            bytes::texts(scanned@) + roots_beside_scan(
                bytes::texts(read_allow@),
                bytes::texts(read_deny@),
            ),
        ),
{
    let ghost allowed = bytes::texts(read_allow@);
    let ghost denied = bytes::texts(read_deny@);
    let ghost keep = |allow: Seq<u8>| stands_beside_scan(allow, denied);
    let ghost found = bytes::texts(scanned@);
    let mut roots = scanned;
    let root = [paths::SLASH];
    assert(root@ =~= seq![paths::SLASH]);
    let whole_denied = paths::contains_path(read_deny, &root);
    let mut at: usize = 0;
    proof {
        reveal(Seq::filter);
        assert(bytes::texts(roots@) =~= found + allowed.take(0).filter(keep));
    }
    while at < read_allow.len()
        invariant
            at <= read_allow@.len(),
            allowed == bytes::texts(read_allow@),
            keep == (|allow: Seq<u8>| stands_beside_scan(allow, denied)),
            whole_denied == paths::names_path(denied, seq![paths::SLASH]),
            root@ == seq![paths::SLASH],
            bytes::texts(roots@) == found + allowed.take(at as int).filter(keep),
        decreases read_allow.len() - at,
    {
        let ghost before = bytes::texts(roots@);
        let ghost allow = allowed[at as int];
        let beside = whole_denied || !paths::is_same_path(read_allow[at].as_slice(), &root);
        proof {
            reveal(Seq::filter);
            assert(allowed.take(at + 1).drop_last() =~= allowed.take(at as int));
            assert(allowed.take(at + 1).last() == allow);
            assert(keep(allow) == beside);
        }
        if beside {
            roots.push(bytes::copy_bytes(read_allow[at].as_slice()));
            assert(bytes::texts(roots@) =~= before.push(allow));
        }
        assert(bytes::texts(roots@) =~= found + allowed.take(at + 1).filter(keep));
        at += 1;
    }
    assert(allowed.take(at as int) =~= allowed);
    paths::normalize_roots(&mut roots);
    roots
}

/// Every directory and name on the way to a path, and the path itself.
pub open spec fn prefixes(path: Seq<u8>) -> Seq<Seq<u8>> {
    let parts = paths::components(path);
    Seq::new(parts.len(), |i: int| paths::path_text(parts.take(i + 1)))
}

/// Every directory and name on the way to a path, and the path itself, so that
/// each can be looked up for a link.
pub fn path_prefixes(path: &[u8]) -> (list: Vec<Vec<u8>>)
    ensures
        bytes::texts(list@) == prefixes(path@),
{
    let parts = paths::path_components(path);
    let ghost all = paths::components(path@);
    let mut list: Vec<Vec<u8>> = Vec::new();
    let mut so_far: Vec<Vec<u8>> = Vec::new();
    let mut at: usize = 0;
    assert(bytes::texts(parts@).len() == parts@.len());
    assert(bytes::texts(so_far@) =~= all.take(0));
    assert(bytes::texts(list@) =~= prefixes(path@).take(0));
    while at < parts.len()
        invariant
            at <= parts.len(),
            parts@.len() == all.len(),
            all == paths::components(path@),
            bytes::texts(parts@) == all,
            bytes::texts(so_far@) == all.take(at as int),
            bytes::texts(list@) == prefixes(path@).take(at as int),
        decreases parts.len() - at,
    {
        let ghost before = bytes::texts(list@);
        let ghost held = bytes::texts(so_far@);
        assert(bytes::texts(parts@)[at as int] == parts@[at as int]@);
        so_far.push(bytes::copy_bytes(parts[at].as_slice()));
        assert(bytes::texts(so_far@) =~= held.push(all[at as int]));
        assert(all.take(at + 1) =~= all.take(at as int).push(all[at as int]));
        list.push(paths::render_path(&so_far));
        assert(bytes::texts(list@) =~= before.push(prefixes(path@)[at as int]));
        assert(prefixes(path@).take(at + 1) =~= prefixes(path@).take(at as int).push(
            prefixes(path@)[at as int],
        ));
        at += 1;
    }
    assert(prefixes(path@).take(at as int) =~= prefixes(path@));
    list
}

/// The normal form of each path that was found to be a link.
pub open spec fn links_of(list: Seq<Seq<u8>>, is_link: Seq<bool>) -> Seq<Seq<u8>>
    decreases list.len(),
{
    if list.len() == 0 {
        Seq::empty()
    } else {
        let rest = links_of(list.drop_last(), is_link);
        if is_link[list.len() - 1] {
            rest.push(paths::normalized(list.last()))
        } else {
            rest
        }
    }
}

/// Adds the paths that were found to be links.
pub fn push_links(links: &mut Vec<Vec<u8>>, list: &[Vec<u8>], is_link: &[bool])
    requires
        list@.len() == is_link@.len(),
    ensures
        bytes::texts(final(links)@) == bytes::texts(old(links)@) + links_of(
            bytes::texts(list@),
            is_link@,
        ),
{
    let ghost all = bytes::texts(list@);
    let mut at: usize = 0;
    assert(bytes::texts(links@) =~= bytes::texts(old(links)@) + links_of(all.take(0), is_link@));
    while at < list.len()
        invariant
            at <= list@.len(),
            list@.len() == is_link@.len(),
            all == bytes::texts(list@),
            bytes::texts(links@) == bytes::texts(old(links)@) + links_of(
                all.take(at as int),
                is_link@,
            ),
        decreases list.len() - at,
    {
        let ghost before = bytes::texts(links@);
        assert(all.take(at + 1).drop_last() =~= all.take(at as int));
        assert(all.take(at + 1).last() == list@[at as int]@);
        if is_link[at] {
            let normal = paths::normalize_path_lexically(list[at].as_slice());
            links.push(normal);
            assert(bytes::texts(links@) =~= before.push(normal@));
        }
        assert(bytes::texts(links@) =~= bytes::texts(old(links)@) + links_of(
            all.take(at + 1),
            is_link@,
        ));
        at += 1;
    }
    assert(all.take(at as int) =~= all);
}

/// What an allowed Unix socket path is.
#[derive(Clone, Copy, Debug, PartialEq, Eq, Structural)]
pub enum SocketState {
    Socket,
    Absent,
    Other,
}

impl AccessPolicy {
    /// Whether the macOS sandbox can enforce the policy, given what each
    /// allowed Unix socket path is: none may be anything but a socket, and no
    /// link on the way to a denied path may be rewritten.
    pub fn validate_macos(&self, sockets: &[SocketState]) -> (result: Result<(), Error>)
        ensures
            result == (if policy::sockets_of(self.network_access) is AllowPaths
                && sockets@.contains(SocketState::Other) {
                Err::<(), _>(Error::PolicyUnixSocketPath)
            } else if exists|i: int|
                0 <= i < self.write_denied_links@.len() && paths::under_any(
                    #[trigger] bytes::texts(self.write_denied_links@)[i],
                    bytes::texts(self.write_roots@),
                ) {
                Err(Error::PolicyDenyWriteSymlinkAncestor)
            } else {
                Ok(())
            }),
    {
        let listed = !self.network_access.denies_unix_sockets()
            && !self.network_access.leaves_unix_sockets_open();
        let mut at: usize = 0;
        while at < sockets.len()
            invariant
                at <= sockets@.len(),
                listed == (policy::sockets_of(self.network_access) is AllowPaths),
                listed ==> forall|i: int| 0 <= i < at ==> sockets@[i] != SocketState::Other,
            decreases sockets.len() - at,
        {
            if listed && sockets[at] == SocketState::Other {
                return Err(Error::PolicyUnixSocketPath);
            }
            at += 1;
        }
        assert(listed ==> !sockets@.contains(SocketState::Other));
        let ghost links = bytes::texts(self.write_denied_links@);
        let mut link: usize = 0;
        while link < self.write_denied_links.len()
            invariant
                link <= self.write_denied_links.len(),
                listed == (policy::sockets_of(self.network_access) is AllowPaths),
                listed ==> !sockets@.contains(SocketState::Other),
                links == bytes::texts(self.write_denied_links@),
                forall|i: int|
                    0 <= i < link ==> !paths::under_any(
                        #[trigger] links[i],
                        bytes::texts(self.write_roots@),
                    ),
            decreases self.write_denied_links.len() - link,
        {
            assert(links[link as int] == self.write_denied_links@[link as int]@);
            if paths::is_under_any(
                self.write_denied_links[link].as_slice(),
                self.write_roots.as_slice(),
            ) {
                return Err(Error::PolicyDenyWriteSymlinkAncestor);
            }
            link += 1;
        }
        Ok(())
    }

    /// Whether the Windows sandbox can enforce the policy.
    pub fn validate_windows(&self) -> (result: Result<(), Error>)
        ensures
            result == (if self.read_access is Unrestricted {
                Err::<(), _>(Error::PolicyUnrestrictedRead)
            } else if self.network_access is Unrestricted {
                Ok(())
            } else if policy::binds_locally(self.network_access) {
                Err(Error::PolicyTcpBindUnsupported)
            } else if !(policy::sockets_of(self.network_access) is Denied) {
                Err(Error::PolicyUnixSocketUnsupported)
            } else {
                Ok(())
            }),
    {
        if let ReadAccess::Unrestricted = &self.read_access {
            return Err(Error::PolicyUnrestrictedRead);
        }
        if self.network_access.is_unrestricted() {
            return Ok(());
        }
        if self.network_access.allows_local_binding() {
            return Err(Error::PolicyTcpBindUnsupported);
        }
        if !self.network_access.denies_unix_sockets() {
            return Err(Error::PolicyUnixSocketUnsupported);
        }
        Ok(())
    }
}

/// The more specific root wins: a denied root stays denied as a whole only
/// where no allowed root lies within it, and each that stays was denied.
pub proof fn law_specific_allowance_wins(denied: Seq<Seq<u8>>, allowed: Seq<Seq<u8>>, root: Seq<u8>)
    requires
        roots_above_none(denied, allowed).contains(root),
    ensures
        denied.contains(root),
        forall|i: int| 0 <= i < allowed.len() ==> !paths::under(#[trigger] allowed[i], root),
{
    let keep = |deny: Seq<u8>|
        !exists|i: int| 0 <= i < allowed.len() && paths::under(#[trigger] allowed[i], deny);
    broadcast use vstd::seq_lib::group_filter_ensures;

    denied.lemma_filter_contains_rev(keep, root);
    assert(keep(root));
}

/// No proxy is reached on a port that is none, and at most two are.
pub proof fn law_lowered_ports_are_ports(first: Option<u16>, second: Option<u16>, ports: Seq<u16>)
    requires
        proxy_ports(first, second) == Some(ports),
    ensures
        ports.len() <= 2,
        forall|i: int| 0 <= i < ports.len() ==> #[trigger] ports[i] != 0,
        forall|i: int, j: int| 0 <= i < j < ports.len() ==> ports[i] < ports[j],
        forall|port: u16| #[trigger]
            ports.contains(port) <==> first == Some(port) || second == Some(port),
{
    match (first, second) {
        (Some(low), Some(high)) => {
            assert(ports[0] == low || ports[0] == high);
            if low != high {
                assert(ports[1] == low || ports[1] == high);
            }
        },
        (Some(port), None) => {
            assert(ports[0] == port);
        },
        (None, Some(port)) => {
            assert(ports[0] == port);
        },
        (None, None) => {},
    }
}

/// A resolved path is absolute where what it starts from is, and holds no
/// `..`.
pub proof fn law_resolved_path_is_absolute(
    path: Seq<u8>,
    base: Seq<u8>,
    home: Option<Seq<u8>>,
    resolved: Seq<u8>,
)
    requires
        paths::is_rooted(base),
        home matches Some(dir) ==> paths::is_rooted(dir),
        sandbox_path(path, base, home) == Ok::<_, Error>(resolved),
    ensures
        paths::is_rooted(resolved),
        !paths::components(resolved).contains(seq![paths::DOT, paths::DOT]),
{
    let whole = if paths::is_rooted(path) {
        path
    } else if path == seq![TILDE] {
        home->0
    } else if path.len() >= 2 && path[0] == TILDE && path[1] == paths::SLASH {
        paths::joined(home->0, path.skip(2))
    } else {
        paths::joined(base, path)
    };
    assert(paths::is_rooted(whole));
    assert(resolved == paths::normalized(whole));
    paths::law_normalized_rooted_has_no_parent(whole);
}

/// Reads stay unrestricted where nothing is denied.
pub proof fn law_reads_are_unrestricted_by_default(allowed: Seq<Seq<u8>>, root: Seq<u8>)
    ensures
        read_lowering(allowed, Seq::empty(), root, false) == Ok::<_, Error>(
            ReadLowering::Unrestricted,
        ),
{
}

/// A root that denials were carved out of is not denied itself, where the scans
/// of it found nothing that is.
pub proof fn law_carved_roots_are_not_denied(
    allowed: Seq<Seq<u8>>,
    carved: Seq<Seq<u8>>,
    write_denied: Seq<Seq<u8>>,
    read_denied: Seq<Seq<u8>>,
    scans: Seq<Seq<Seq<u8>>>,
    at: int,
)
    requires
        paths::is_root_set(carved, write_denied + read_denied),
        scans.len() >= allowed.len(),
        forall|i: int, j: int|
            0 <= i < scans.len() && 0 <= j < scans[i].len() ==> !paths::under_any(
                #[trigger] scans[i][j],
                carved,
            ),
        0 <= at < carved_roots(allowed, carved, write_denied, scans).len(),
    ensures
        !paths::under_any(carved_roots(allowed, carved, write_denied, scans)[at], write_denied),
    decreases allowed.len(),
{
    if allowed.len() > 0 {
        let rest = carved_roots(allowed.drop_last(), carved, write_denied, scans);
        let all = carved_roots(allowed, carved, write_denied, scans);
        if at < rest.len() {
            law_carved_roots_are_not_denied(
                allowed.drop_last(),
                carved,
                write_denied,
                read_denied,
                scans,
                at,
            );
            assert(all[at] == rest[at]);
        } else if needs_carve(allowed.last(), carved) {
            let root = scans[allowed.len() - 1][at - rest.len()];
            assert(all[at] == root);
            let both = write_denied + read_denied;
            if paths::under_any(root, write_denied) {
                let i = choose|i: int|
                    0 <= i < write_denied.len() && #[trigger] paths::under(root, write_denied[i]);
                assert(both[i] == write_denied[i]);
                assert(paths::under(root, both[i]));
                paths::law_root_set_covers_the_same(carved, both, root);
            }
        }
    }
}

/// A relative path is resolved step by step: its first name leads from the base
/// to what lies there, `..` leads from a directory to the one that holds it and
/// from the root to the root, and `.` leads nowhere.
pub proof fn law_relative_paths_go_step_by_step(
    base: Seq<u8>,
    name: Seq<u8>,
    rest: Seq<u8>,
    home: Option<Seq<u8>>,
)
    requires
        paths::is_rooted(base),
        base.last() != 0x2f,
        name.len() > 0,
        forall|i: int| 0 <= i < name.len() ==> name[i] != 0x2f,
        name != seq![0x2eu8],
        name != seq![0x2eu8, 0x2eu8],
        rest.len() > 0,
        rest[0] != 0x2f,
        rest != seq![0x7eu8],
        !(rest.len() >= 2 && rest[0] == 0x7e && rest[1] == 0x2f),
    ensures
        sandbox_path(seq![0x2eu8, 0x2eu8, 0x2fu8] + rest, base + seq![0x2fu8] + name, home)
            == sandbox_path(rest, base, home),
        sandbox_path(seq![0x2eu8, 0x2eu8], base + seq![0x2fu8] + name, home) == Ok::<_, Error>(
            paths::normalized(base),
        ),
        sandbox_path(seq![0x2eu8, 0x2eu8, 0x2fu8] + rest, seq![0x2fu8], home) == sandbox_path(
            rest,
            seq![0x2fu8],
            home,
        ),
        sandbox_path(seq![0x2eu8, 0x2fu8] + rest, base, home) == sandbox_path(rest, base, home),
        name != seq![0x7eu8] ==> sandbox_path(name + seq![0x2fu8] + rest, base, home)
            == sandbox_path(rest, base + seq![0x2fu8] + name, home),
        name != seq![0x7eu8] ==> sandbox_path(name, base, home) == Ok::<_, Error>(
            paths::normalized(base + seq![0x2fu8] + name),
        ),
        sandbox_path(rest, base, home) == Ok::<_, Error>(
            paths::normalized(base + seq![0x2fu8] + rest),
        ),
{
    let slash = seq![paths::SLASH];
    let dot = seq![paths::DOT];
    let up = seq![paths::DOT, paths::DOT];
    let inner = base + slash + name;
    let all = paths::components(base);
    let names = paths::names(rest);
    assert(dot.len() == 1 && up.len() == 2 && slash.len() == 1);
    assert(dot[0] == paths::DOT && up[0] == paths::DOT && slash[0] == paths::SLASH);
    assert(seq![TILDE].len() == 1 && seq![TILDE][0] == TILDE);
    paths::law_a_name_is_one_more_component(base, name);
    paths::law_each_step_up_takes_one_name(all, name);
    paths::law_each_step_up_takes_one_name(seq![slash], name);
    assert(inner.last() == name.last());
    assert(inner[0] == paths::SLASH);
    // From a directory up.
    let above = up + slash + rest;
    assert(above =~= seq![0x2eu8, 0x2eu8, 0x2fu8] + rest);
    paths::lemma_single_segment(up);
    paths::lemma_names_around_separator(up, rest);
    assert(above =~= up.push(paths::SLASH) + rest);
    paths::lemma_joined_components(inner, above);
    paths::lemma_joined_components(inner, up);
    paths::lemma_joined_components(base, rest);
    assert(paths::names(above) =~= seq![up] + names);
    assert(all.push(name) + (seq![up] + names) =~= all.push(name).push(up) + names);
    assert(all.push(name) + seq![up] =~= all.push(name).push(up));
    paths::lemma_lexical_goes_on(all.push(name).push(up), all, names);
    // From the root up.
    paths::lemma_joined_components(slash, above);
    paths::lemma_joined_components(slash, rest);
    assert(seq![slash] + (seq![up] + names) =~= seq![slash].push(up) + names);
    paths::lemma_lexical_goes_on(seq![slash].push(up), seq![slash], names);
    // Nowhere.
    let here = dot + slash + rest;
    assert(here =~= seq![0x2eu8, 0x2fu8] + rest);
    assert(here =~= dot.push(paths::SLASH) + rest);
    paths::lemma_single_segment(dot);
    paths::lemma_names_around_separator(dot, rest);
    paths::lemma_joined_components(base, here);
    assert(paths::names(here) =~= names);
    // Down.
    let below = name + slash + rest;
    assert(below =~= name.push(paths::SLASH) + rest);
    assert(below[0] == name[0]);
    assert(!name.contains(paths::SLASH));
    paths::lemma_single_segment(name);
    paths::lemma_names_around_separator(name, rest);
    paths::lemma_joined_components(base, below);
    paths::lemma_joined_components(inner, rest);
    assert(paths::names(below) =~= seq![name] + names);
    assert(all + (seq![name] + names) =~= all.push(name) + names);
    assert(below.len() >= 2 && name.len() > 1 ==> below[1] == name[1]);
    if name != seq![TILDE] && name[0] == TILDE {
        assert(name.len() > 1) by {
            if name.len() == 1 {
                assert(name =~= seq![TILDE]);
            }
        }
    }
    assert(paths::joined(base, name) =~= base + slash + name);
    assert(paths::joined(base, rest) =~= base + slash + rest);
}

/// A path that starts in the home directory is resolved as the rest of it is
/// from there, and the home directory by itself is where it is. Without one the
/// path cannot be resolved. A rooted path is its own, and an empty one none.
pub proof fn law_home_paths_start_at_home(
    base: Seq<u8>,
    home: Seq<u8>,
    rest: Seq<u8>,
)
    requires
        rest.len() > 0,
        rest[0] != 0x2f,
        rest != seq![0x7eu8],
        !(rest.len() >= 2 && rest[0] == 0x7e && rest[1] == 0x2f),
        home.len() > 0,
    ensures
        sandbox_path(seq![0x7eu8, 0x2fu8] + rest, base, Some(home)) == sandbox_path(
            rest,
            home,
            None,
        ),
        sandbox_path(seq![0x7eu8, 0x2fu8], base, Some(home)) == Ok::<_, Error>(
            paths::normalized(home),
        ),
        sandbox_path(seq![0x7eu8], base, Some(home)) == Ok::<_, Error>(paths::normalized(home)),
        sandbox_path(seq![0x7eu8], base, None) == Err::<Seq<u8>, _>(Error::PolicyHomeUnavailable),
        sandbox_path(seq![0x7eu8, 0x2fu8] + rest, base, None) == Err::<Seq<u8>, _>(
            Error::PolicyHomeUnavailable,
        ),
        sandbox_path(Seq::<u8>::empty(), base, Some(home)) == Err::<Seq<u8>, _>(
            Error::PolicyEmptyPath,
        ),
        sandbox_path(seq![0x2fu8] + rest, base, Some(home)) == Ok::<_, Error>(
            paths::normalized(seq![0x2fu8] + rest),
        ),
{
    let lead = seq![TILDE, paths::SLASH];
    let whole = lead + rest;
    let tilde = seq![TILDE];
    assert(tilde[0] == TILDE && tilde.len() == 1);
    assert(lead[0] == TILDE && lead[1] == paths::SLASH && lead.len() == 2);
    assert(whole[0] == TILDE && whole[1] == paths::SLASH);
    assert(whole.skip(2) =~= rest);
    assert(lead.skip(2) =~= Seq::empty());
    assert(lead != tilde);
    assert(whole != tilde);
    assert((seq![paths::SLASH] + rest)[0] == paths::SLASH);
    assert(rest != tilde);
    paths::lemma_joined_components(home, Seq::empty());
    assert(paths::names(Seq::empty()) =~= Seq::empty());
    assert(paths::components(home) + Seq::<Seq<u8>>::empty() =~= paths::components(home));
}

/// Which denied roots stay denied as a whole, and which but for a part: one that
/// no allowed root lies at or below stays as it is, and one that is not allowed
/// itself and has an allowed root below it is opened there again. Every other
/// is lifted.
pub proof fn law_denied_roots_are_kept_or_reopened(
    denied: Seq<Seq<u8>>,
    allowed: Seq<Seq<u8>>,
    root: Seq<u8>,
)
    ensures
        roots_above_none(denied, allowed).contains(root) <==> denied.contains(root) && forall|i: int|
            0 <= i < allowed.len() ==> !paths::under(#[trigger] allowed[i], root),
        roots_reopened(denied, allowed).contains(root) <==> denied.contains(root) && (exists|i: int|
            0 <= i < allowed.len() && paths::strictly_under(#[trigger] allowed[i], root)) && forall|
            i: int,
        |
            0 <= i < allowed.len() ==> !paths::same_path(#[trigger] allowed[i], root),
{
    let part = |deny: Seq<u8>| has_below(allowed, deny) && !paths::names_path(allowed, deny);
    let whole = |deny: Seq<u8>|
        !exists|i: int| 0 <= i < allowed.len() && paths::under(#[trigger] allowed[i], deny);
    if denied.contains(root) {
        let i = choose|i: int| 0 <= i < denied.len() && denied[i] == root;
        if part(root) {
            denied.lemma_filter_contains(part, i);
        }
        if whole(root) {
            denied.lemma_filter_contains(whole, i);
        }
    }
    if denied.filter(part).contains(root) {
        denied.lemma_filter_contains_rev(part, root);
    }
    if denied.filter(whole).contains(root) {
        denied.lemma_filter_contains_rev(whole, root);
    }
    if forall|i: int| 0 <= i < allowed.len() ==> !paths::same_path(#[trigger] allowed[i], root) {
        assert(!paths::names_path(allowed, root));
    } else {
        assert(paths::names_path(allowed, root));
    }
}

/// Each allowed root stands beside a walk of the whole filesystem, but for the
/// filesystem's own root where that is not denied.
pub proof fn law_allowed_roots_stand_beside_the_walk(
    allowed: Seq<Seq<u8>>,
    denied: Seq<Seq<u8>>,
    root: Seq<u8>,
)
    ensures
        roots_beside_scan(allowed, denied).contains(root) <==> allowed.contains(root) && (
        paths::components(root) != seq![seq![0x2fu8]] || exists|i: int|
            0 <= i < denied.len() && paths::components(#[trigger] denied[i]) == seq![
                seq![0x2fu8],
            ]),
{
    let keep = |allow: Seq<u8>| stands_beside_scan(allow, denied);
    let slash = seq![paths::SLASH];
    paths::law_a_name_is_one_more_component(slash, seq![0u8]);
    if paths::names_path(denied, slash) {
        let i = choose|i: int| 0 <= i < denied.len() && #[trigger] paths::same_path(denied[i], slash);
        assert(paths::components(denied[i]) == seq![slash]);
    }
    if exists|i: int|
        0 <= i < denied.len() && paths::components(#[trigger] denied[i]) == seq![seq![0x2fu8]] {
        let i = choose|i: int|
            0 <= i < denied.len() && paths::components(#[trigger] denied[i]) == seq![seq![0x2fu8]];
        assert(paths::same_path(denied[i], slash));
    }
    if allowed.contains(root) && keep(root) {
        let i = choose|i: int| 0 <= i < allowed.len() && allowed[i] == root;
        allowed.lemma_filter_contains(keep, i);
    }
    if allowed.filter(keep).contains(root) {
        allowed.lemma_filter_contains_rev(keep, root);
    }
}

/// The network settings of a document come to what they say. Where the network
/// is allowed nothing else counts. Otherwise no proxy may be on port zero, each
/// proxy's port may be reached and no other, local addresses may be bound as
/// asked, and of the Unix sockets all, the given ones or none may be used.
pub proof fn law_network_settings_come_to_what_they_say(
    network: SandboxNetwork,
    sockets: Result<Vec<Vec<u8>>, Error>,
    result: Result<NetworkAccess, Error>,
)
    requires
        lowers_network(network, sockets, result),
    ensures
        network.allow_network ==> result == Ok::<_, Error>(NetworkAccess::Unrestricted),
        !network.allow_network && (network.http_proxy_port == Some(0u16) || network.socks_proxy_port
            == Some(0u16)) ==> result == Err::<NetworkAccess, _>(Error::PolicyInvalidPort),
        !network.allow_network && network.http_proxy_port != Some(0u16) && network.socks_proxy_port
            != Some(0u16) && sockets is Err ==> result == Err::<NetworkAccess, _>(sockets->Err_0),
        !network.allow_network && network.http_proxy_port != Some(0u16) && network.socks_proxy_port
            != Some(0u16) && sockets is Ok ==> ({
            &&& result is Ok
            &&& result->Ok_0 is Restricted
            &&& forall|port: u16| #[trigger]
                result->Ok_0->connect_tcp_ports@.contains(port) <==> network.http_proxy_port
                    == Some(port) || network.socks_proxy_port == Some(port)
            &&& forall|i: int, j: int|
                0 <= i < j < result->Ok_0->connect_tcp_ports@.len()
                    ==> result->Ok_0->connect_tcp_ports@[i] < result->Ok_0->connect_tcp_ports@[j]
            &&& network.allow_local_binding <==> result->Ok_0->bind == IpBindAccess::Localhost
            &&& network.allow_all_unix_sockets
                ==> result->Ok_0->unix_socket_access is Unrestricted
            &&& !network.allow_all_unix_sockets && sockets->Ok_0@.len() == 0
                ==> result->Ok_0->unix_socket_access is Denied
            &&& !network.allow_all_unix_sockets && sockets->Ok_0@.len() > 0
                ==> result->Ok_0->unix_socket_access == UnixSocketAccess::AllowPaths(sockets->Ok_0)
        }),
{
    if let Some(ports) = proxy_ports(network.http_proxy_port, network.socks_proxy_port) {
        law_lowered_ports_are_ports(network.http_proxy_port, network.socks_proxy_port, ports);
    }
}

/// A list of paths is resolved path by path, in its order, and fails with the
/// first that cannot be.
pub proof fn law_each_path_of_a_list_is_resolved(
    list: Seq<String>,
    base: Seq<u8>,
    home: Option<Seq<u8>>,
    at: int,
)
    requires
        0 <= at < list.len(),
        forall|i: int|
            0 <= i < at ==> sandbox_path(
                vstd::utf8::encode_utf8((#[trigger] list[i])@),
                base,
                home,
            ) is Ok,
    ensures
        sandbox_path(vstd::utf8::encode_utf8(list[at]@), base, home) matches Err(error)
            ==> sandbox_paths(list, base, home) == Err::<Seq<Seq<u8>>, _>(error),
        sandbox_paths(list, base, home) matches Ok(found) ==> found.len() == list.len()
            && sandbox_path(vstd::utf8::encode_utf8(list[at]@), base, home) == Ok::<_, Error>(
            found[at],
        ),
    decreases list.len(),
{
    let less = list.drop_last();
    lemma_resolved_front(list, base, home);
    if at == list.len() - 1 {
        lemma_all_resolved(less, base, home);
    } else {
        assert(less[at] == list[at]);
        law_each_path_of_a_list_is_resolved(less, base, home, at);
    }
}

proof fn lemma_resolved_front(list: Seq<String>, base: Seq<u8>, home: Option<Seq<u8>>)
    ensures
        sandbox_paths(list, base, home) matches Ok(found) ==> found.len() == list.len(),
    decreases list.len(),
{
    if list.len() > 0 {
        lemma_resolved_front(list.drop_last(), base, home);
    }
}

proof fn lemma_all_resolved(list: Seq<String>, base: Seq<u8>, home: Option<Seq<u8>>)
    requires
        forall|i: int|
            0 <= i < list.len() ==> sandbox_path(
                vstd::utf8::encode_utf8((#[trigger] list[i])@),
                base,
                home,
            ) is Ok,
    ensures
        sandbox_paths(list, base, home) is Ok,
        sandbox_paths(list, base, home)->Ok_0.len() == list.len(),
    decreases list.len(),
{
    if list.len() > 0 {
        assert(list[list.len() - 1] == list.last());
        lemma_all_resolved(list.drop_last(), base, home);
    }
}

/// A path of a deny list is kept as a pattern where its text holds a `*`, a `?`
/// or a bracket, and as a path otherwise. Each is kept, and nothing else is.
pub proof fn law_deny_lists_keep_each_path(list: Seq<Seq<u8>>, path: Seq<u8>)
    requires
        list.contains(path),
    ensures
        ({
            let shown = vstd::utf8::encode_utf8(text::shown(path));
            let special = exists|i: int|
                0 <= i < shown.len() && (shown[i] == 0x2a || shown[i] == 0x3f || shown[i] == 0x5b
                    || #[trigger] shown[i] == 0x5d);
            &&& special ==> patterns_in(list).contains(text::shown(path)) && !concrete_in(
                list,
            ).contains(path)
            &&& !special ==> concrete_in(list).contains(path)
        }),
{
    lemma_kept_apart(list, path);
    glob::lemma_pattern_text(vstd::utf8::encode_utf8(text::shown(path)));
}

proof fn lemma_kept_apart(list: Seq<Seq<u8>>, path: Seq<u8>)
    ensures
        list.contains(path) && is_pattern(path) ==> patterns_in(list).contains(text::shown(path)),
        concrete_in(list).contains(path) <==> list.contains(path) && !is_pattern(path),
    decreases list.len(),
{
    if list.len() > 0 {
        let less = list.drop_last();
        let last = list.last();
        lemma_kept_apart(less, path);
        if list.contains(path) {
            let i = choose|i: int| 0 <= i < list.len() && list[i] == path;
            if i < less.len() {
                assert(less[i] == path);
            }
        }
        if less.contains(path) {
            let i = choose|i: int| 0 <= i < less.len() && less[i] == path;
            assert(list[i] == path);
        }
        assert(list[list.len() - 1] == last);
        let patterns = patterns_in(less);
        let concrete = concrete_in(less);
        if patterns.contains(text::shown(path)) {
            let i = choose|i: int| 0 <= i < patterns.len() && patterns[i] == text::shown(path);
            assert(patterns_in(list)[i] == text::shown(path));
        }
        if is_pattern(last) {
            assert(patterns_in(list)[patterns.len() as int] == text::shown(last));
        } else {
            assert(concrete_in(list)[concrete.len() as int] == last);
            if concrete_in(list).contains(path) {
                let i = choose|i: int|
                    0 <= i < concrete_in(list).len() && concrete_in(list)[i] == path;
                if i < concrete.len() {
                    assert(concrete[i] == path);
                }
            }
            if concrete.contains(path) {
                let i = choose|i: int| 0 <= i < concrete.len() && concrete[i] == path;
                assert(concrete_in(list)[i] == path);
            }
        }
    }
}

/// A pattern moves with its directory: behind where that leads stands what
/// stood behind the directory. One whose directory leads to itself stays.
pub proof fn law_patterns_move_with_their_directory(
    base: Seq<u8>,
    rest: Seq<u8>,
    canonical: Seq<u8>,
)
    ensures
        canonical != base ==> moved_pattern(base + rest, base, canonical) == Some(canonical + rest),
        moved_pattern(base + rest, base, base) is None,
{
    assert((base + rest).take(base.len() as int) =~= base);
    assert((base + rest).skip(base.len() as int) =~= rest);
}

/// On Windows an allowed root is kept where nothing denied lies below it and it
/// is not denied itself. One with something denied below it is replaced by what
/// a walk of it found. Nothing else is kept.
pub proof fn law_windows_roots_are_kept_or_replaced(
    allowed: Seq<Seq<u8>>,
    carved: Seq<Seq<u8>>,
    dropped: Seq<Seq<u8>>,
    scans: Seq<Seq<Seq<u8>>>,
    at: int,
    path: Seq<u8>,
)
    requires
        scans.len() >= allowed.len(),
        0 <= at < allowed.len(),
    ensures
        ({
            let kept = carved_roots(allowed, carved, dropped, scans);
            let below = exists|i: int|
                0 <= i < carved.len() && paths::strictly_under(
                    #[trigger] carved[i],
                    allowed[at],
                );
            &&& below && scans[at].contains(path) ==> kept.contains(path)
            &&& !below && (forall|i: int|
                0 <= i < dropped.len() ==> !paths::under(allowed[at], #[trigger] dropped[i]))
                ==> kept.contains(allowed[at])
            &&& kept.contains(path) ==> allowed.contains(path) || exists|j: int|
                0 <= j < allowed.len() && (#[trigger] scans[j]).contains(path)
        }),
    decreases allowed.len(),
{
    let less = allowed.drop_last();
    let rest = carved_roots(less, carved, dropped, scans);
    let kept = carved_roots(allowed, carved, dropped, scans);
    let last = allowed.last();
    assert forall|root: Seq<u8>| rest.contains(root) implies kept.contains(root) by {
        let i = choose|i: int| 0 <= i < rest.len() && rest[i] == root;
        assert(kept[i] == root);
    }
    if at < less.len() {
        assert(less[at] == allowed[at]);
        law_windows_roots_are_kept_or_replaced(less, carved, dropped, scans, at, path);
    } else {
        let scan = scans[at];
        if scan.contains(path) && needs_carve(last, carved) {
            let i = choose|i: int| 0 <= i < scan.len() && scan[i] == path;
            assert(kept[rest.len() + i] == path);
        }
        if !needs_carve(last, carved) && !paths::under_any(last, dropped) {
            assert(kept[rest.len() as int] == last);
        }
    }
    if kept.contains(path) {
        let i = choose|i: int| 0 <= i < kept.len() && kept[i] == path;
        if i < rest.len() {
            assert(rest[i] == path);
            lemma_kept_roots(less, carved, dropped, scans, path);
            if less.contains(path) {
                let j = choose|j: int| 0 <= j < less.len() && less[j] == path;
                assert(allowed[j] == path);
            } else {
                let j = choose|j: int| 0 <= j < less.len() && (#[trigger] scans[j]).contains(path);
                assert(scans[j].contains(path));
            }
        } else if needs_carve(last, carved) {
            assert(scans[allowed.len() - 1][i - rest.len()] == path);
            assert(scans[allowed.len() - 1].contains(path));
        } else {
            assert(allowed[allowed.len() - 1] == path);
        }
    }
}

proof fn lemma_kept_roots(
    allowed: Seq<Seq<u8>>,
    carved: Seq<Seq<u8>>,
    dropped: Seq<Seq<u8>>,
    scans: Seq<Seq<Seq<u8>>>,
    path: Seq<u8>,
)
    requires
        scans.len() >= allowed.len(),
        carved_roots(allowed, carved, dropped, scans).contains(path),
    ensures
        allowed.contains(path) || exists|j: int|
            0 <= j < allowed.len() && (#[trigger] scans[j]).contains(path),
    decreases allowed.len(),
{
    if allowed.len() > 0 {
        let less = allowed.drop_last();
        let rest = carved_roots(less, carved, dropped, scans);
        let kept = carved_roots(allowed, carved, dropped, scans);
        let i = choose|i: int| 0 <= i < kept.len() && kept[i] == path;
        if i < rest.len() {
            assert(rest[i] == path);
            lemma_kept_roots(less, carved, dropped, scans, path);
            if less.contains(path) {
                let j = choose|j: int| 0 <= j < less.len() && less[j] == path;
                assert(allowed[j] == path);
            } else {
                let j = choose|j: int| 0 <= j < less.len() && (#[trigger] scans[j]).contains(path);
                assert(scans[j].contains(path));
            }
        } else if needs_carve(allowed.last(), carved) {
            assert(scans[allowed.len() - 1][i - rest.len()] == path);
            assert(scans[allowed.len() - 1].contains(path));
        } else {
            assert(allowed[allowed.len() - 1] == path);
        }
    }
}

/// On the way to a path stand the paths with one, two and more of its
/// components, up to the path itself. Each that is a link is listed in normal
/// form, and no other.
pub proof fn law_links_on_the_way_are_listed(
    path: Seq<u8>,
    at: int,
    list: Seq<Seq<u8>>,
    is_link: Seq<bool>,
    link: Seq<u8>,
)
    requires
        paths::is_rooted(path),
        is_link.len() >= list.len(),
    ensures
        prefixes(path).len() == paths::components(path).len(),
        0 <= at < paths::components(path).len() ==> paths::components(prefixes(path)[at])
            == paths::components(path).take(at + 1),
        links_of(list, is_link).contains(link) <==> exists|i: int|
            0 <= i < list.len() && is_link[i] && link == paths::normalized(#[trigger] list[i]),
{
    let parts = paths::components(path);
    if 0 <= at < parts.len() {
        let front = parts.take(at + 1);
        paths::lemma_components_shape(path);
        assert(parts[0] == seq![paths::SLASH]);
        assert(seq![paths::SLASH][0] == paths::SLASH && seq![paths::DOT][0] == paths::DOT);
        assert forall|i: int| 0 <= i < front.len() implies paths::is_plain(#[trigger] front[i]) || (i
            == 0 && front[i] == seq![paths::SLASH]) by {
            assert(front[i] == parts[i]);
        }
        paths::lemma_components_of_text(front);
    }
    lemma_links_listed(list, is_link, link);
}

proof fn lemma_links_listed(list: Seq<Seq<u8>>, is_link: Seq<bool>, link: Seq<u8>)
    requires
        is_link.len() >= list.len(),
    ensures
        links_of(list, is_link).contains(link) <==> exists|i: int|
            0 <= i < list.len() && is_link[i] && link == paths::normalized(#[trigger] list[i]),
    decreases list.len(),
{
    if list.len() > 0 {
        let less = list.drop_last();
        let rest = links_of(less, is_link);
        let all = links_of(list, is_link);
        lemma_links_listed(less, is_link, link);
        if rest.contains(link) {
            let i = choose|i: int| 0 <= i < rest.len() && rest[i] == link;
            assert(all[i] == link);
            let j = choose|j: int|
                0 <= j < less.len() && is_link[j] && link == paths::normalized(#[trigger] less[j]);
            assert(list[j] == less[j]);
        }
        if all.contains(link) {
            let i = choose|i: int| 0 <= i < all.len() && all[i] == link;
            if i < rest.len() {
                assert(rest[i] == link);
            } else {
                assert(list[list.len() - 1] == list.last());
            }
        }
        if exists|i: int|
            0 <= i < list.len() && is_link[i] && link == paths::normalized(#[trigger] list[i]) {
            let i = choose|i: int|
                0 <= i < list.len() && is_link[i] && link == paths::normalized(#[trigger] list[i]);
            if i < less.len() {
                assert(less[i] == list[i]);
            } else {
                assert(all[rest.len() as int] == link);
            }
        }
    }
}

/// Patterns that ascend are sorted byte by byte, none of them twice.
pub proof fn law_sorted_patterns_are_distinct(list: Seq<Seq<u8>>, first: int, second: int)
    requires
        texts_ascend(list),
        0 <= first < second < list.len(),
    ensures
        order::text_order(list[first], list[second]) == Relation::Before,
        list[first] != list[second],
{
    assert(order::text_order(list[first], list[second]) == Relation::Before);
    order::lemma_text_same(list[first], list[second]);
}

} // verus!
