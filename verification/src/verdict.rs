//! What a macOS profile decides on files: the last rule that speaks of an
//! access decides on it, and where none does it is denied.

use crate::bytes;
use crate::paths;
use crate::policy;
use crate::policy::{AccessPolicy, NetworkAccess, ReadAccess};
use crate::seatbelt;
use crate::text;
use vstd::prelude::*;

verus! {

/// A rule of a profile.
pub enum Rule {
    /// The version, and that nothing is allowed by default.
    Start,
    /// The rules on processes.
    Processes,
    /// The rules on system services.
    Services,
    AllowWritesUnder(Seq<u8>),
    DenyWritesUnder(Seq<u8>),
    /// Denies writes to the paths that a regular expression matches.
    DenyWritesMatching(Seq<char>),
    AllowReads,
    DenyReads,
    AllowReadOf(Seq<u8>),
    AllowReadsUnder(Seq<u8>),
    DenyReadsUnder(Seq<u8>),
    /// The rules that let links be read, but not what they lead to.
    Links(Seq<Seq<u8>>),
    /// The rules on the network.
    Network(NetworkAccess),
}

/// How a rule is written.
pub open spec fn rule_text(rule: Rule) -> Seq<char> {
    match rule {
        Rule::Start => "(version 1)\n(deny default)\n"@,
        Rule::Processes => seatbelt::process_rules(),
        Rule::Services => seatbelt::mach_rules(),
        Rule::AllowWritesUnder(root) => "(allow file-write* (subpath \""@ + seatbelt::path_literal(
            root,
        ) + "\"))\n"@,
        Rule::DenyWritesUnder(root) => "(deny file-write* (subpath \""@ + seatbelt::path_literal(
            root,
        ) + "\"))\n"@,
        Rule::DenyWritesMatching(regex) => "(deny file-write* (regex #\""@
            + seatbelt::escaped_regex(regex) + "\"))\n"@,
        Rule::AllowReads => "(allow file-read*)\n"@,
        Rule::DenyReads => "(deny file-read*)\n"@,
        Rule::AllowReadOf(path) => "(allow file-read* (literal \""@ + seatbelt::path_literal(path)
            + "\"))\n"@,
        Rule::AllowReadsUnder(root) => "(allow file-read* (subpath \""@ + seatbelt::path_literal(
            root,
        ) + "\"))\n"@,
        Rule::DenyReadsUnder(root) => "(deny file-read* (subpath \""@ + seatbelt::path_literal(root)
            + "\"))\n"@,
        Rule::Links(links) => seatbelt::symlink_rules(links),
        Rule::Network(access) => seatbelt::network_rules(access),
    }
}

/// How rules are written, one after the other.
pub open spec fn rules_text(rules: Seq<Rule>) -> Seq<char>
    decreases rules.len(),
{
    if rules.len() == 0 {
        Seq::empty()
    } else {
        rules_text(rules.drop_last()) + rule_text(rules.last())
    }
}

/// An access to a file's contents.
pub enum FileAccess {
    Write,
    Read,
}

/// What a rule says of an access to a path, if it speaks of it. `matches` says
/// which paths a regular expression matches.
pub open spec fn decides(
    rule: Rule,
    access: FileAccess,
    path: Seq<u8>,
    matches: spec_fn(Seq<char>, Seq<u8>) -> bool,
) -> Option<bool> {
    match (rule, access) {
        (Rule::AllowWritesUnder(root), FileAccess::Write) if paths::under(path, seatbelt::named(root)) => {
            Some(true)
        },
        (Rule::DenyWritesUnder(root), FileAccess::Write) if paths::under(path, seatbelt::named(root)) => {
            Some(false)
        },
        (Rule::DenyWritesMatching(regex), FileAccess::Write) if matches(regex, path) => Some(false),
        (Rule::AllowReads, FileAccess::Read) => Some(true),
        (Rule::DenyReads, FileAccess::Read) => Some(false),
        (Rule::AllowReadOf(only), FileAccess::Read) if path == seatbelt::named(only) => Some(true),
        (Rule::AllowReadsUnder(root), FileAccess::Read) if paths::under(path, seatbelt::named(root)) => {
            Some(true)
        },
        (Rule::DenyReadsUnder(root), FileAccess::Read) if paths::under(path, seatbelt::named(root)) => {
            Some(false)
        },
        _ => None,
    }
}

/// What the last rule says that speaks of an access.
pub open spec fn last_word(
    rules: Seq<Rule>,
    access: FileAccess,
    path: Seq<u8>,
    matches: spec_fn(Seq<char>, Seq<u8>) -> bool,
) -> Option<bool>
    decreases rules.len(),
{
    if rules.len() == 0 {
        None
    } else {
        match decides(rules.last(), access, path, matches) {
            Some(allowed) => Some(allowed),
            None => last_word(rules.drop_last(), access, path, matches),
        }
    }
}

/// Whether rules let an access pass.
pub open spec fn passes(
    rules: Seq<Rule>,
    access: FileAccess,
    path: Seq<u8>,
    matches: spec_fn(Seq<char>, Seq<u8>) -> bool,
) -> bool {
    last_word(rules, access, path, matches) == Some(true)
}

/// Whether a policy lets a path be written to: a root covers it, no denied
/// root does, and no denied pattern matches it.
pub open spec fn write_passes(
    policy: AccessPolicy,
    path: Seq<u8>,
    matches: spec_fn(Seq<char>, Seq<u8>) -> bool,
) -> bool {
    &&& paths::under_any(path, seatbelt::all_named(bytes::texts(policy.write_roots@)))
    &&& !paths::under_any(path, seatbelt::all_named(bytes::texts(policy.write_denied_roots@)))
    &&& !exists|i: int|
        0 <= i < policy.write_denied_patterns@.len() && #[trigger] matches(
            seatbelt::regex_of(policy.write_denied_patterns@[i]@),
            path,
        )
}

/// Whether a policy lets a path be read: it leads to a root, or it is the root
/// directory or a root covers it and no denied root in between does, and nothing
/// denied as a whole covers it.
pub open spec fn read_passes(policy: AccessPolicy, path: Seq<u8>) -> bool {
    match policy.read_access {
        ReadAccess::Unrestricted => true,
        ReadAccess::AllowRoots(roots) => {
            &&& !paths::under_any(path, seatbelt::all_named(bytes::texts(policy.read_denied_roots@)))
            &&& {
                ||| !policy::left_denied(
                    path,
                    seatbelt::all_named(bytes::texts(policy.read_reopened_roots@)),
                    seatbelt::all_named(bytes::texts(roots@)),
                ) && (path == seq![paths::SLASH] || paths::under_any(
                    path,
                    seatbelt::all_named(bytes::texts(roots@)),
                ))
                ||| seatbelt::all_named(seatbelt::all_ancestors(bytes::texts(roots@))).contains(path)
            }
        },
    }
}

/// A path that is valid UTF-8 is named as it is.
pub proof fn law_valid_paths_are_named_as_they_are(path: Seq<u8>)
    requires
        vstd::utf8::valid_utf8(path),
    ensures
        seatbelt::named(path) == path,
{
    vstd::utf8::decode_utf8_encode_utf8(path);
}

proof fn lemma_text_of_both(first: Seq<Rule>, second: Seq<Rule>)
    ensures
        rules_text(first + second) == rules_text(first) + rules_text(second),
    decreases second.len(),
{
    if second.len() == 0 {
        assert(first + second =~= first);
        assert(rules_text(first + second) =~= rules_text(first) + rules_text(second));
    } else {
        lemma_text_of_both(first, second.drop_last());
        assert((first + second).drop_last() =~= first + second.drop_last());
        assert(rules_text(first + second) =~= rules_text(first) + rules_text(second));
    }
}

proof fn lemma_text_of_one(rule: Rule)
    ensures
        rules_text(seq![rule]) == rule_text(rule),
{
    assert(seq![rule].drop_last() =~= Seq::empty());
    assert(rules_text(Seq::empty()) =~= Seq::empty());
    assert(rules_text(seq![rule]) =~= rule_text(rule));
}

proof fn lemma_text_of_alike(
    rules: Seq<Rule>,
    front: Seq<char>,
    items: Seq<Seq<char>>,
    back: Seq<char>,
)
    requires
        rules.len() == items.len(),
        forall|i: int|
            0 <= i < rules.len() ==> rule_text(#[trigger] rules[i]) == front + items[i] + back,
    ensures
        rules_text(rules) == seatbelt::wrapped(front, items, back),
    decreases rules.len(),
{
    if rules.len() > 0 {
        assert forall|i: int| 0 <= i < rules.drop_last().len() implies rule_text(
            #[trigger] rules.drop_last()[i],
        ) == front + items.drop_last()[i] + back by {
            assert(rules.drop_last()[i] == rules[i]);
        }
        lemma_text_of_alike(rules.drop_last(), front, items.drop_last(), back);
        assert(rules.last() == rules[rules.len() - 1]);
        assert(rules_text(rules) =~= seatbelt::wrapped(front, items, back));
    }
}

proof fn lemma_word_of_both(
    first: Seq<Rule>,
    second: Seq<Rule>,
    access: FileAccess,
    path: Seq<u8>,
    matches: spec_fn(Seq<char>, Seq<u8>) -> bool,
)
    ensures
        last_word(first + second, access, path, matches) == (match last_word(
            second,
            access,
            path,
            matches,
        ) {
            Some(allowed) => Some(allowed),
            None => last_word(first, access, path, matches),
        }),
    decreases second.len(),
{
    if second.len() == 0 {
        assert(first + second =~= first);
    } else {
        lemma_word_of_both(first, second.drop_last(), access, path, matches);
        assert((first + second).drop_last() =~= first + second.drop_last());
    }
}

proof fn lemma_word_of_one(
    rule: Rule,
    access: FileAccess,
    path: Seq<u8>,
    matches: spec_fn(Seq<char>, Seq<u8>) -> bool,
)
    ensures
        last_word(seq![rule], access, path, matches) == decides(rule, access, path, matches),
{
    reveal_with_fuel(last_word, 2);
    assert(seq![rule].drop_last() =~= Seq::empty());
    assert(seq![rule].last() == rule);
}

/// Whether one of the rules speaks of an access.
spec fn speaks(
    rules: Seq<Rule>,
    access: FileAccess,
    path: Seq<u8>,
    matches: spec_fn(Seq<char>, Seq<u8>) -> bool,
) -> bool {
    exists|i: int|
        0 <= i < rules.len() && decides(#[trigger] rules[i], access, path, matches) is Some
}

proof fn lemma_word_of_alike(
    rules: Seq<Rule>,
    access: FileAccess,
    path: Seq<u8>,
    matches: spec_fn(Seq<char>, Seq<u8>) -> bool,
    allowed: bool,
)
    requires
        forall|i: int|
            0 <= i < rules.len() ==> {
                let said = decides(#[trigger] rules[i], access, path, matches);
                said is None || said == Some(allowed)
            },
    ensures
        last_word(rules, access, path, matches) == (if speaks(rules, access, path, matches) {
            Some(allowed)
        } else {
            None
        }),
    decreases rules.len(),
{
    if rules.len() > 0 {
        let front = rules.drop_last();
        assert forall|i: int| 0 <= i < front.len() implies {
            let said = decides(#[trigger] front[i], access, path, matches);
            said is None || said == Some(allowed)
        } by {
            assert(front[i] == rules[i]);
        }
        lemma_word_of_alike(front, access, path, matches, allowed);
        let last = rules[rules.len() - 1];
        if decides(last, access, path, matches) is None {
            if speaks(rules, access, path, matches) {
                let i = choose|i: int|
                    0 <= i < rules.len() && decides(#[trigger] rules[i], access, path, matches) is Some;
                assert(front[i] == rules[i]);
                assert(speaks(front, access, path, matches));
            }
            if speaks(front, access, path, matches) {
                let i = choose|i: int|
                    0 <= i < front.len() && decides(#[trigger] front[i], access, path, matches) is Some;
                assert(rules[i] == front[i]);
                assert(speaks(rules, access, path, matches));
            }
        }
    }
}

/// Whether paths that name the same file are written alike.
pub open spec fn written_one_way(list: Seq<Seq<u8>>) -> bool {
    forall|i: int, j: int|
        0 <= i < list.len() && 0 <= j < list.len() && #[trigger] paths::same_path(
            list[i],
            list[j],
        ) ==> list[i] == list[j]
}

proof fn lemma_ancestor_of_normal(roots: Seq<Seq<u8>>, at: int)
    requires
        forall|i: int|
            0 <= i < roots.len() ==> paths::path_text(paths::components(#[trigger] roots[i]))
                == roots[i],
        0 <= at < seatbelt::all_ancestors(roots).len(),
    ensures
        ({
            let path = seatbelt::all_ancestors(roots)[at];
            paths::path_text(paths::components(path)) == path
        }),
    decreases roots.len(),
{
    if roots.len() > 0 {
        let rest = roots.drop_last();
        let front = seatbelt::all_ancestors(rest);
        if at < front.len() {
            assert forall|i: int| 0 <= i < rest.len() implies paths::path_text(
                paths::components(#[trigger] rest[i]),
            ) == rest[i] by {
                assert(rest[i] == roots[i]);
            }
            lemma_ancestor_of_normal(rest, at);
        } else {
            let root = roots[roots.len() - 1];
            let count = (paths::components(root).len() - 1 - (at - front.len())) as nat;
            paths::lemma_front_text(root, count);
            paths::lemma_front_of_normal(root, count);
        }
    }
}

/// Where every root is written as its components are, as a resolved path is,
/// the directories above the roots are each written one way.
pub proof fn law_resolved_roots_are_written_one_way(roots: Seq<Seq<u8>>)
    requires
        forall|i: int|
            0 <= i < roots.len() ==> paths::path_text(paths::components(#[trigger] roots[i]))
                == roots[i],
    ensures
        written_one_way(seatbelt::all_ancestors(roots)),
{
    let above = seatbelt::all_ancestors(roots);
    assert forall|i: int, j: int|
        0 <= i < above.len() && 0 <= j < above.len() && #[trigger] paths::same_path(
            above[i],
            above[j],
        ) implies above[i] == above[j] by {
        lemma_ancestor_of_normal(roots, i);
        lemma_ancestor_of_normal(roots, j);
    }
}

/// A list of the directories above roots names each of them as it is written.
proof fn lemma_ancestors_are_listed(list: Seq<Seq<u8>>, roots: Seq<Seq<u8>>, path: Seq<u8>)
    requires
        paths::is_root_set(list, seatbelt::all_ancestors(roots)),
        written_one_way(seatbelt::all_ancestors(roots)),
    ensures
        seatbelt::all_named(list).contains(path) == seatbelt::all_named(seatbelt::all_ancestors(roots)).contains(path),
{
    let above = seatbelt::all_ancestors(roots);
    if seatbelt::all_named(list).contains(path) {
        let i = choose|i: int| 0 <= i < list.len() && #[trigger] seatbelt::all_named(list)[i] == path;
        assert(above.contains(list[i]));
        let j = choose|j: int| 0 <= j < above.len() && above[j] == list[i];
        assert(seatbelt::all_named(above)[j] == path);
    }
    if seatbelt::all_named(above).contains(path) {
        let j = choose|j: int| 0 <= j < above.len() && #[trigger] seatbelt::all_named(above)[j] == path;
        assert(paths::names_path(list, above[j]));
        let i = choose|i: int| 0 <= i < list.len() && #[trigger] paths::same_path(list[i], above[j]);
        assert(above.contains(list[i]));
        let k = choose|k: int| 0 <= k < above.len() && above[k] == list[i];
        assert(written_one_way(above) && paths::same_path(above[k], above[j]));
        assert(list[i] == above[j]);
        assert(seatbelt::all_named(list)[i] == path);
    }
}

/// The rules on writing that a policy comes to.
pub open spec fn write_rule_list(policy: AccessPolicy) -> Seq<Rule> {
    bytes::texts(policy.write_roots@).map_values(|root: Seq<u8>| Rule::AllowWritesUnder(root))
        + bytes::texts(policy.write_denied_roots@).map_values(
        |root: Seq<u8>| Rule::DenyWritesUnder(root),
    ) + policy.write_denied_patterns@.map_values(
        |pattern: String| Rule::DenyWritesMatching(seatbelt::regex_of(pattern@)),
    )
}

/// The rules that deny roots and allow again what lies within them.
pub open spec fn reopened_rule_list(parts: Seq<Seq<u8>>, roots: Seq<Seq<u8>>) -> Seq<Rule>
    decreases parts.len(),
{
    if parts.len() == 0 {
        Seq::empty()
    } else {
        reopened_rule_list(parts.drop_last(), roots) + seq![Rule::DenyReadsUnder(parts.last())]
            + seatbelt::within(roots, parts.last()).map_values(
            |root: Seq<u8>| Rule::AllowReadsUnder(root),
        )
    }
}

/// The rules on reading that a policy comes to. `parts` are the roots that are
/// denied but for the read roots within them, and `parents` the directories
/// above its roots.
pub open spec fn read_rule_list(
    policy: AccessPolicy,
    parts: Seq<Seq<u8>>,
    parents: Seq<Seq<u8>>,
) -> Seq<Rule> {
    match policy.read_access {
        ReadAccess::Unrestricted => seq![Rule::AllowReads],
        ReadAccess::AllowRoots(roots) => seq![
            Rule::DenyReads,
            Rule::AllowReadOf(seq![paths::SLASH]),
        ] + bytes::texts(roots@).map_values(|root: Seq<u8>| Rule::AllowReadsUnder(root))
            + reopened_rule_list(parts, seatbelt::all_named(bytes::texts(roots@)))
            + parents.map_values(|path: Seq<u8>| Rule::AllowReadOf(path)) + seq![
            Rule::Links(bytes::texts(policy.read_symlinks@)),
        ] + bytes::texts(policy.read_denied_roots@).map_values(
            |root: Seq<u8>| Rule::DenyReadsUnder(root),
        ),
    }
}

/// The rules of a policy's profile. `parts` are the roots that are denied but for
/// the read roots within them, and `parents` the directories above its read
/// roots.
pub open spec fn profile_rule_list(
    policy: AccessPolicy,
    parts: Seq<Seq<u8>>,
    parents: Seq<Seq<u8>>,
) -> Seq<Rule> {
    seq![Rule::Start, Rule::Processes, Rule::Services] + write_rule_list(policy) + read_rule_list(
        policy,
        parts,
        parents,
    ) + seq![Rule::Network(policy.network_access)]
}

proof fn lemma_write_text(policy: AccessPolicy)
    ensures
        rules_text(write_rule_list(policy)) == seatbelt::write_rules(
            bytes::texts(policy.write_roots@),
            bytes::texts(policy.write_denied_roots@),
            policy.write_denied_patterns@,
        ),
{
    let roots = bytes::texts(policy.write_roots@);
    let denied = bytes::texts(policy.write_denied_roots@);
    let patterns = policy.write_denied_patterns@;
    let first = roots.map_values(|root: Seq<u8>| Rule::AllowWritesUnder(root));
    let second = denied.map_values(|root: Seq<u8>| Rule::DenyWritesUnder(root));
    let third = patterns.map_values(
        |pattern: String| Rule::DenyWritesMatching(seatbelt::regex_of(pattern@)),
    );
    lemma_text_of_alike(
        first,
        "(allow file-write* (subpath \""@,
        seatbelt::path_literals(roots),
        "\"))\n"@,
    );
    lemma_text_of_alike(
        second,
        "(deny file-write* (subpath \""@,
        seatbelt::path_literals(denied),
        "\"))\n"@,
    );
    lemma_text_of_alike(
        third,
        "(deny file-write* (regex #\""@,
        seatbelt::pattern_literals(patterns),
        "\"))\n"@,
    );
    lemma_text_of_both(first, second);
    lemma_text_of_both(first + second, third);
}

proof fn lemma_root_is_shown()
    ensures
        text::shown(seq![paths::SLASH]) == seq!['/'],
        seatbelt::named(seq![paths::SLASH]) == seq![paths::SLASH],
{
    let chars = seq!['/'];
    vstd::utf8::is_ascii_chars_encode_utf8(chars);
    assert(vstd::utf8::encode_utf8(chars) =~= seq![paths::SLASH]);
    vstd::utf8::encode_utf8_valid_utf8(chars);
    vstd::utf8::encode_utf8_decode_utf8(chars);
}

proof fn lemma_read_head_text()
    ensures
        rules_text(seq![Rule::DenyReads, Rule::AllowReadOf(seq![paths::SLASH])])
            == "(deny file-read*)\n(allow file-read* (literal \"/\"))\n"@,
{
    let first = seq![Rule::DenyReads];
    let second = seq![Rule::AllowReadOf(seq![paths::SLASH])];
    assert(seq![Rule::DenyReads, Rule::AllowReadOf(seq![paths::SLASH])] =~= first + second);
    lemma_text_of_both(first, second);
    lemma_text_of_one(Rule::DenyReads);
    lemma_text_of_one(Rule::AllowReadOf(seq![paths::SLASH]));
    lemma_root_is_shown();
    reveal_with_fuel(seatbelt::escaped, 2);
    assert(seatbelt::path_literal(seq![paths::SLASH]) =~= seq!['/']);
    reveal_strlit("(deny file-read*)\n(allow file-read* (literal \"/\"))\n");
    reveal_strlit("(deny file-read*)\n");
    reveal_strlit("(allow file-read* (literal \"");
    reveal_strlit("\"))\n");
    assert("(deny file-read*)\n"@ + ("(allow file-read* (literal \""@ + seq!['/'] + "\"))\n"@)
        =~= "(deny file-read*)\n(allow file-read* (literal \"/\"))\n"@);
}

proof fn lemma_reopened_text(parts: Seq<Seq<u8>>, roots: Seq<Seq<u8>>)
    ensures
        rules_text(reopened_rule_list(parts, roots)) == seatbelt::reopened_rules(parts, roots),
    decreases parts.len(),
{
    if parts.len() > 0 {
        let front = reopened_rule_list(parts.drop_last(), roots);
        let deny = seq![Rule::DenyReadsUnder(parts.last())];
        let below = seatbelt::within(roots, parts.last());
        let allow = below.map_values(|root: Seq<u8>| Rule::AllowReadsUnder(root));
        lemma_reopened_text(parts.drop_last(), roots);
        lemma_text_of_one(Rule::DenyReadsUnder(parts.last()));
        lemma_text_of_alike(
            allow,
            "(allow file-read* (subpath \""@,
            seatbelt::path_literals(below),
            "\"))\n"@,
        );
        lemma_text_of_both(front, deny);
        lemma_text_of_both(front + deny, allow);
        assert(rules_text(front + deny + allow) =~= seatbelt::reopened_rules(parts, roots));
    }
}

proof fn lemma_read_text(policy: AccessPolicy, roots: Vec<Vec<u8>>, parts: Seq<Seq<u8>>, parents: Seq<Seq<u8>>)
    requires
        policy.read_access == ReadAccess::AllowRoots(roots),
    ensures
        rules_text(read_rule_list(policy, parts, parents))
            == "(deny file-read*)\n(allow file-read* (literal \"/\"))\n"@ + seatbelt::wrapped(
            "(allow file-read* (subpath \""@,
            seatbelt::path_literals(bytes::texts(roots@)),
            "\"))\n"@,
        ) + seatbelt::reopened_rules(
            parts,
            seatbelt::all_named(bytes::texts(roots@)),
        ) + seatbelt::wrapped(
            "(allow file-read* (literal \""@,
            seatbelt::path_literals(parents),
            "\"))\n"@,
        ) + seatbelt::symlink_rules(bytes::texts(policy.read_symlinks@)) + seatbelt::wrapped(
            "(deny file-read* (subpath \""@,
            seatbelt::path_literals(bytes::texts(policy.read_denied_roots@)),
            "\"))\n"@,
        ),
{
    let allowed = bytes::texts(roots@);
    let denied = bytes::texts(policy.read_denied_roots@);
    let links = bytes::texts(policy.read_symlinks@);
    let head = seq![Rule::DenyReads, Rule::AllowReadOf(seq![paths::SLASH])];
    let first = allowed.map_values(|root: Seq<u8>| Rule::AllowReadsUnder(root));
    let second = parents.map_values(|path: Seq<u8>| Rule::AllowReadOf(path));
    let third = seq![Rule::Links(links)];
    let fourth = denied.map_values(|root: Seq<u8>| Rule::DenyReadsUnder(root));
    lemma_read_head_text();
    lemma_text_of_alike(
        first,
        "(allow file-read* (subpath \""@,
        seatbelt::path_literals(allowed),
        "\"))\n"@,
    );
    lemma_text_of_alike(
        second,
        "(allow file-read* (literal \""@,
        seatbelt::path_literals(parents),
        "\"))\n"@,
    );
    let again = reopened_rule_list(parts, seatbelt::all_named(allowed));
    lemma_reopened_text(parts, seatbelt::all_named(allowed));
    lemma_text_of_one(Rule::Links(links));
    lemma_text_of_alike(
        fourth,
        "(deny file-read* (subpath \""@,
        seatbelt::path_literals(denied),
        "\"))\n"@,
    );
    lemma_text_of_both(head, first);
    lemma_text_of_both(head + first, again);
    lemma_text_of_both(head + first + again, second);
    lemma_text_of_both(head + first + again + second, third);
    lemma_text_of_both(head + first + again + second + third, fourth);
}

proof fn lemma_write_word(
    policy: AccessPolicy,
    path: Seq<u8>,
    matches: spec_fn(Seq<char>, Seq<u8>) -> bool,
)
    ensures
        (last_word(write_rule_list(policy), FileAccess::Write, path, matches) == Some(true))
            == write_passes(policy, path, matches),
        last_word(write_rule_list(policy), FileAccess::Read, path, matches) is None,
{
    let roots = bytes::texts(policy.write_roots@);
    let denied = bytes::texts(policy.write_denied_roots@);
    let patterns = policy.write_denied_patterns@;
    let first = roots.map_values(|root: Seq<u8>| Rule::AllowWritesUnder(root));
    let second = denied.map_values(|root: Seq<u8>| Rule::DenyWritesUnder(root));
    let third = patterns.map_values(
        |pattern: String| Rule::DenyWritesMatching(seatbelt::regex_of(pattern@)),
    );
    lemma_word_of_alike(first, FileAccess::Write, path, matches, true);
    lemma_word_of_alike(second, FileAccess::Write, path, matches, false);
    lemma_word_of_alike(third, FileAccess::Write, path, matches, false);
    lemma_word_of_both(first, second, FileAccess::Write, path, matches);
    lemma_word_of_both(first + second, third, FileAccess::Write, path, matches);
    lemma_word_of_alike(write_rule_list(policy), FileAccess::Read, path, matches, false);
    assert(speaks(first, FileAccess::Write, path, matches) == paths::under_any(
        path,
        seatbelt::all_named(roots),
    )) by {
        lemma_speaks_under(first, roots, FileAccess::Write, path, matches);
    }
    assert(speaks(second, FileAccess::Write, path, matches) == paths::under_any(
        path,
        seatbelt::all_named(denied),
    )) by {
        lemma_speaks_under(second, denied, FileAccess::Write, path, matches);
    }
    if speaks(third, FileAccess::Write, path, matches) {
        let i = choose|i: int|
            0 <= i < third.len() && decides(
                #[trigger] third[i],
                FileAccess::Write,
                path,
                matches,
            ) is Some;
        assert(matches(seatbelt::regex_of(patterns[i]@), path));
    }
    if exists|i: int|
        0 <= i < patterns.len() && #[trigger] matches(seatbelt::regex_of(patterns[i]@), path) {
        let i = choose|i: int|
            0 <= i < patterns.len() && #[trigger] matches(seatbelt::regex_of(patterns[i]@), path);
        assert(decides(third[i], FileAccess::Write, path, matches) is Some);
    }
}

/// Rules that each speak of what lies under a root speak of what lies under
/// any.
proof fn lemma_speaks_under(
    rules: Seq<Rule>,
    roots: Seq<Seq<u8>>,
    access: FileAccess,
    path: Seq<u8>,
    matches: spec_fn(Seq<char>, Seq<u8>) -> bool,
)
    requires
        rules.len() == roots.len(),
        forall|i: int|
            0 <= i < rules.len() ==> (decides(#[trigger] rules[i], access, path, matches) is Some)
                == paths::under(path, seatbelt::named(roots[i])),
    ensures
        speaks(rules, access, path, matches) == paths::under_any(path, seatbelt::all_named(roots)),
{
    if speaks(rules, access, path, matches) {
        let i = choose|i: int|
            0 <= i < rules.len() && decides(#[trigger] rules[i], access, path, matches) is Some;
        assert(paths::under(path, seatbelt::all_named(roots)[i]));
    }
    if paths::under_any(path, seatbelt::all_named(roots)) {
        let i = choose|i: int|
            0 <= i < seatbelt::all_named(roots).len() && #[trigger] paths::under(path, seatbelt::all_named(roots)[i]);
        assert(decides(rules[i], access, path, matches) is Some);
    }
}

/// Rules that each speak of one path speak of the paths they name.
proof fn lemma_speaks_of(
    parents: Seq<Seq<u8>>,
    path: Seq<u8>,
    matches: spec_fn(Seq<char>, Seq<u8>) -> bool,
)
    ensures
        last_word(
            parents.map_values(|path: Seq<u8>| Rule::AllowReadOf(path)),
            FileAccess::Read,
            path,
            matches,
        ) == (if seatbelt::all_named(parents).contains(path) {
            Some(true)
        } else {
            None
        }),
{
    let rules = parents.map_values(|path: Seq<u8>| Rule::AllowReadOf(path));
    lemma_word_of_alike(rules, FileAccess::Read, path, matches, true);
    if speaks(rules, FileAccess::Read, path, matches) {
        let i = choose|i: int|
            0 <= i < rules.len() && decides(
                #[trigger] rules[i],
                FileAccess::Read,
                path,
                matches,
            ) is Some;
        assert(seatbelt::all_named(parents)[i] == path);
    }
    if seatbelt::all_named(parents).contains(path) {
        let i = choose|i: int| 0 <= i < parents.len() && #[trigger] seatbelt::all_named(parents)[i] == path;
        assert(decides(rules[i], FileAccess::Read, path, matches) is Some);
    }
}

proof fn lemma_reopened_kinds(parts: Seq<Seq<u8>>, roots: Seq<Seq<u8>>)
    ensures
        forall|i: int|
            0 <= i < reopened_rule_list(parts, roots).len() ==> (#[trigger] reopened_rule_list(
                parts,
                roots,
            )[i] is AllowReadsUnder) || reopened_rule_list(parts, roots)[i] is DenyReadsUnder,
    decreases parts.len(),
{
    if parts.len() > 0 {
        lemma_reopened_kinds(parts.drop_last(), roots);
    }
}

/// Two paths that cover one path cover one another.
proof fn lemma_covers_nest(path: Seq<u8>, left: Seq<u8>, right: Seq<u8>)
    requires
        paths::under(path, left),
        paths::under(path, right),
    ensures
        paths::under(left, right) || paths::under(right, left),
{
    let a = paths::components(left);
    let b = paths::components(right);
    let all = paths::components(path);
    if a.len() <= b.len() {
        assert(a =~= b.take(a.len() as int)) by {
            assert forall|i: int| 0 <= i < a.len() implies a[i] == b[i] by {
                assert(all[i] == a[i] && all[i] == b[i]);
            }
        }
    } else {
        assert(b =~= a.take(b.len() as int)) by {
            assert forall|i: int| 0 <= i < b.len() implies a[i] == b[i] by {
                assert(all[i] == a[i] && all[i] == b[i]);
            }
        }
    }
}

/// A root that a rule names is named as it is.
spec fn as_named(list: Seq<Seq<u8>>) -> bool {
    forall|i: int| 0 <= i < list.len() ==> seatbelt::named(#[trigger] list[i]) == list[i]
}

proof fn lemma_names_are_named(list: Seq<Seq<u8>>)
    ensures
        as_named(seatbelt::all_named(list)),
{
    let names = seatbelt::all_named(list);
    assert forall|i: int| 0 <= i < names.len() implies seatbelt::named(#[trigger] names[i])
        == names[i] by {
        let shown = text::shown(list[i]);
        vstd::utf8::encode_utf8_valid_utf8(shown);
        vstd::utf8::encode_utf8_decode_utf8(shown);
    }
}

/// Of roots that are denied but for those within them, the last that covers a
/// path decides, and since they ascend it is the most specific.
proof fn lemma_reopened_word(
    parts: Seq<Seq<u8>>,
    roots: Seq<Seq<u8>>,
    path: Seq<u8>,
    matches: spec_fn(Seq<char>, Seq<u8>) -> bool,
)
    requires
        paths::is_ascending(parts),
        as_named(parts),
        as_named(roots),
    ensures
        last_word(reopened_rule_list(parts, roots), FileAccess::Read, path, matches) == (
        if paths::under_any(path, parts) {
            Some(!policy::left_denied(path, parts, roots))
        } else {
            None
        }),
    decreases parts.len(),
{
    let access = FileAccess::Read;
    if parts.len() > 0 {
        let rest = parts.drop_last();
        let deny = parts.last();
        let count = parts.len() - 1;
        assert(deny == parts[count]);
        let front = reopened_rule_list(rest, roots);
        let below = seatbelt::within(roots, deny);
        let allow = below.map_values(|root: Seq<u8>| Rule::AllowReadsUnder(root));
        assert(paths::is_ascending(rest)) by {
            assert forall|i: int, j: int| #![trigger rest[i], rest[j]]
                0 <= i < j < rest.len() implies paths::path_order(rest[i], rest[j])
                == crate::order::Relation::Before by {
                assert(rest[i] == parts[i] && rest[j] == parts[j]);
            }
        }
        assert(as_named(rest)) by {
            assert forall|i: int| 0 <= i < rest.len() implies seatbelt::named(#[trigger] rest[i])
                == rest[i] by {
                assert(rest[i] == parts[i]);
            }
        }
        lemma_reopened_word(rest, roots, path, matches);
        lemma_word_of_both(front + seq![Rule::DenyReadsUnder(deny)], allow, access, path, matches);
        lemma_word_of_both(front, seq![Rule::DenyReadsUnder(deny)], access, path, matches);
        lemma_word_of_one(Rule::DenyReadsUnder(deny), access, path, matches);
        lemma_within_word(roots, deny, path, matches);
        if paths::under(path, deny) {
            assert(paths::under_any(path, parts));
            if policy::opened_within(path, deny, roots) {
                if policy::left_denied(path, parts, roots) {
                    let i = choose|i: int|
                        0 <= i < parts.len() && #[trigger] paths::under(path, parts[i])
                            && !policy::opened_within(path, parts[i], roots);
                    lemma_covers_nest(path, parts[i], deny);
                    if paths::under(deny, parts[i]) {
                        let j = choose|j: int|
                            0 <= j < roots.len() && #[trigger] paths::under(path, roots[j])
                                && paths::under(roots[j], deny);
                        paths::law_coverage_is_an_order(roots[j], deny, parts[i]);
                        assert(policy::opened_within(path, parts[i], roots));
                    } else {
                        crate::order::lemma_start_is_not_after(
                            paths::components(deny),
                            paths::components(parts[i]),
                        );
                        crate::order::lemma_list_opposite(
                            paths::components(deny),
                            paths::components(parts[i]),
                        );
                        assert(paths::path_order(parts[i], parts[count])
                            == crate::order::Relation::Before);
                    }
                }
            } else {
                assert(paths::under(path, parts[count]));
                assert(policy::left_denied(path, parts, roots));
            }
        } else {
            if policy::opened_within(path, deny, roots) {
                let j = choose|j: int|
                    0 <= j < roots.len() && #[trigger] paths::under(path, roots[j])
                        && paths::under(roots[j], deny);
                paths::law_coverage_is_an_order(path, roots[j], deny);
            }
            if paths::under_any(path, parts) {
                let i = choose|i: int|
                    0 <= i < parts.len() && #[trigger] paths::under(path, parts[i]);
                assert(rest[i] == parts[i]);
            }
            if paths::under_any(path, rest) {
                let i = choose|i: int|
                    0 <= i < rest.len() && #[trigger] paths::under(path, rest[i]);
                assert(rest[i] == parts[i]);
                assert(paths::under(path, parts[i]));
            }
            if policy::left_denied(path, parts, roots) {
                let i = choose|i: int|
                    0 <= i < parts.len() && #[trigger] paths::under(path, parts[i])
                        && !policy::opened_within(path, parts[i], roots);
                assert(rest[i] == parts[i]);
                assert(paths::under(path, rest[i]));
            }
            if policy::left_denied(path, rest, roots) {
                let i = choose|i: int|
                    0 <= i < rest.len() && #[trigger] paths::under(path, rest[i])
                        && !policy::opened_within(path, rest[i], roots);
                assert(rest[i] == parts[i]);
                assert(paths::under(path, parts[i]));
            }
        }
    }
}

/// The rules on the roots within another speak of what these cover.
proof fn lemma_within_word(
    roots: Seq<Seq<u8>>,
    deny: Seq<u8>,
    path: Seq<u8>,
    matches: spec_fn(Seq<char>, Seq<u8>) -> bool,
)
    requires
        as_named(roots),
    ensures
        last_word(
            seatbelt::within(roots, deny).map_values(|root: Seq<u8>| Rule::AllowReadsUnder(root)),
            FileAccess::Read,
            path,
            matches,
        ) == (if policy::opened_within(path, deny, roots) {
            Some(true)
        } else {
            None
        }),
{
    let keep = |root: Seq<u8>| paths::under(root, deny);
    let below = roots.filter(keep);
    let rules = below.map_values(|root: Seq<u8>| Rule::AllowReadsUnder(root));
    lemma_word_of_alike(rules, FileAccess::Read, path, matches, true);
    if speaks(rules, FileAccess::Read, path, matches) {
        let i = choose|i: int|
            0 <= i < rules.len() && decides(
                #[trigger] rules[i],
                FileAccess::Read,
                path,
                matches,
            ) is Some;
        assert(below.contains(below[i]));
        roots.lemma_filter_contains_rev(keep, below[i]);
        let j = choose|j: int| 0 <= j < roots.len() && roots[j] == below[i];
        assert(keep(below[i]));
        assert(paths::under(path, roots[j]) && paths::under(roots[j], deny));
    }
    if policy::opened_within(path, deny, roots) {
        let j = choose|j: int|
            0 <= j < roots.len() && #[trigger] paths::under(path, roots[j]) && paths::under(
                roots[j],
                deny,
            );
        roots.lemma_filter_contains(keep, j);
        let i = choose|i: int| 0 <= i < below.len() && below[i] == roots[j];
        assert(decides(rules[i], FileAccess::Read, path, matches) is Some);
    }
}

/// Sorted roots leave the same denied.
proof fn lemma_same_left_denied(
    parts: Seq<Seq<u8>>,
    reopened: Seq<Seq<u8>>,
    roots: Seq<Seq<u8>>,
    path: Seq<u8>,
)
    requires
        paths::is_root_set(parts, reopened),
    ensures
        policy::left_denied(path, parts, roots) == policy::left_denied(path, reopened, roots),
{
    if policy::left_denied(path, parts, roots) {
        let i = choose|i: int|
            0 <= i < parts.len() && #[trigger] paths::under(path, parts[i])
                && !policy::opened_within(path, parts[i], roots);
        assert(reopened.contains(parts[i]));
        let j = choose|j: int| 0 <= j < reopened.len() && reopened[j] == parts[i];
        assert(paths::under(path, reopened[j]));
    }
    if policy::left_denied(path, reopened, roots) {
        let j = choose|j: int|
            0 <= j < reopened.len() && #[trigger] paths::under(path, reopened[j])
                && !policy::opened_within(path, reopened[j], roots);
        assert(paths::names_path(parts, reopened[j]));
        let i = choose|i: int|
            0 <= i < parts.len() && #[trigger] paths::same_path(parts[i], reopened[j]);
        assert(paths::under(path, parts[i]));
        if policy::opened_within(path, parts[i], roots) {
            let k = choose|k: int|
                0 <= k < roots.len() && #[trigger] paths::under(path, roots[k]) && paths::under(
                    roots[k],
                    parts[i],
                );
            assert(paths::under(roots[k], reopened[j]));
            assert(policy::opened_within(path, reopened[j], roots));
        }
    }
}

proof fn lemma_reads_leave_writes(
    policy: AccessPolicy,
    parts: Seq<Seq<u8>>,
    parents: Seq<Seq<u8>>,
    path: Seq<u8>,
    matches: spec_fn(Seq<char>, Seq<u8>) -> bool,
)
    ensures
        last_word(read_rule_list(policy, parts, parents), FileAccess::Write, path, matches) is None,
{
    let rules = read_rule_list(policy, parts, parents);
    assert forall|i: int| 0 <= i < rules.len() implies decides(
        #[trigger] rules[i],
        FileAccess::Write,
        path,
        matches,
    ) is None by {
        if let ReadAccess::AllowRoots(roots) = policy.read_access {
            lemma_reopened_kinds(parts, seatbelt::all_named(bytes::texts(roots@)));
        }
        assert(rules[i] is AllowReads || rules[i] is DenyReads || rules[i] is AllowReadOf
            || rules[i] is AllowReadsUnder || rules[i] is Links || rules[i] is DenyReadsUnder);
    }
    lemma_word_of_alike(rules, FileAccess::Write, path, matches, false);
}

proof fn lemma_again_word(
    policy: AccessPolicy,
    allowed: Seq<Seq<u8>>,
    parts: Seq<Seq<u8>>,
    path: Seq<u8>,
    matches: spec_fn(Seq<char>, Seq<u8>) -> bool,
)
    requires
        paths::is_root_set(
            parts,
            seatbelt::all_named(bytes::texts(policy.read_reopened_roots@)),
        ),
    ensures
        ({
            let names = seatbelt::all_named(allowed);
            let reopened = seatbelt::all_named(bytes::texts(policy.read_reopened_roots@));
            let covered = paths::under_any(path, names);
            let left = policy::left_denied(path, reopened, names);
            let word = last_word(
                reopened_rule_list(parts, names),
                FileAccess::Read,
                path,
                matches,
            );
            &&& word == Some(true) ==> covered && !left
            &&& word == Some(false) ==> left
            &&& word is None ==> !left
        }),
{
    let access = FileAccess::Read;
    let names = seatbelt::all_named(allowed);
    let reopened = seatbelt::all_named(bytes::texts(policy.read_reopened_roots@));
    let again = reopened_rule_list(parts, names);
    assert(last_word(again, access, path, matches) == (if paths::under_any(path, parts) {
        Some(!policy::left_denied(path, reopened, names))
    } else {
        None
    })) by {
        lemma_names_are_named(allowed);
        lemma_names_are_named(bytes::texts(policy.read_reopened_roots@));
        assert(as_named(parts)) by {
            assert forall|i: int| 0 <= i < parts.len() implies seatbelt::named(
                #[trigger] parts[i],
            ) == parts[i] by {
                assert(reopened.contains(parts[i]));
            }
        }
        lemma_reopened_word(parts, names, path, matches);
        lemma_same_left_denied(parts, reopened, names, path);
    }
    assert(paths::under_any(path, parts) && !policy::left_denied(path, reopened, names)
        ==> paths::under_any(path, names)) by {
        lemma_same_left_denied(parts, reopened, names, path);
        if paths::under_any(path, parts) && !policy::left_denied(path, parts, names) {
            let i = choose|i: int| 0 <= i < parts.len() && #[trigger] paths::under(path, parts[i]);
            assert(policy::opened_within(path, parts[i], names));
        }
    }
    assert(policy::left_denied(path, reopened, names) ==> paths::under_any(path, parts)) by {
        lemma_same_left_denied(parts, reopened, names, path);
    }
}

proof fn lemma_read_word(
    policy: AccessPolicy,
    roots: Vec<Vec<u8>>,
    parts: Seq<Seq<u8>>,
    parents: Seq<Seq<u8>>,
    path: Seq<u8>,
    matches: spec_fn(Seq<char>, Seq<u8>) -> bool,
)
    requires
        policy.read_access == ReadAccess::AllowRoots(roots),
        paths::is_root_set(
            parts,
            seatbelt::all_named(bytes::texts(policy.read_reopened_roots@)),
        ),
        paths::is_root_set(parents, seatbelt::all_ancestors(bytes::texts(roots@))),
        written_one_way(seatbelt::all_ancestors(bytes::texts(roots@))),
    ensures
        (last_word(read_rule_list(policy, parts, parents), FileAccess::Read, path, matches) == Some(true))
            == read_passes(policy, path),
{
    let access = FileAccess::Read;
    let allowed = bytes::texts(roots@);
    let denied = bytes::texts(policy.read_denied_roots@);
    let root = Rule::AllowReadOf(seq![paths::SLASH]);
    let links = Rule::Links(bytes::texts(policy.read_symlinks@));
    let head = seq![Rule::DenyReads, root];
    let first = allowed.map_values(|root: Seq<u8>| Rule::AllowReadsUnder(root));
    let second = parents.map_values(|path: Seq<u8>| Rule::AllowReadOf(path));
    let third = seq![links];
    let fourth = denied.map_values(|root: Seq<u8>| Rule::DenyReadsUnder(root));
    assert(last_word(head, access, path, matches) == Some(path == seq![paths::SLASH])) by {
        assert(head =~= seq![Rule::DenyReads] + seq![root]);
        lemma_word_of_both(seq![Rule::DenyReads], seq![root], access, path, matches);
        lemma_word_of_one(Rule::DenyReads, access, path, matches);
        lemma_word_of_one(root, access, path, matches);
        lemma_root_is_shown();
    }
    assert(last_word(first, access, path, matches) == (if paths::under_any(
        path,
        seatbelt::all_named(allowed),
    ) {
        Some(true)
    } else {
        None
    })) by {
        lemma_word_of_alike(first, access, path, matches, true);
        lemma_speaks_under(first, allowed, access, path, matches);
    }
    assert(last_word(fourth, access, path, matches) == (if paths::under_any(
        path,
        seatbelt::all_named(denied),
    ) {
        Some(false)
    } else {
        None
    })) by {
        lemma_word_of_alike(fourth, access, path, matches, false);
        lemma_speaks_under(fourth, denied, access, path, matches);
    }
    let again = reopened_rule_list(parts, seatbelt::all_named(allowed));
    assert(last_word(third, access, path, matches) is None) by {
        lemma_word_of_one(links, access, path, matches);
    }
    assert(last_word(second, access, path, matches) == (if seatbelt::all_named(
        seatbelt::all_ancestors(allowed),
    ).contains(path) {
        Some(true)
    } else {
        None
    })) by {
        lemma_speaks_of(parents, path, matches);
        lemma_ancestors_are_listed(parents, allowed, path);
    }
    lemma_again_word(policy, allowed, parts, path, matches);
    lemma_word_of_six(head, first, again, second, third, fourth, access, path, matches);
    assert(read_rule_list(policy, parts, parents) == head + first + again + second + third
        + fourth);
}

/// What a later rule says goes before what an earlier one does.
spec fn over(later: Option<bool>, earlier: Option<bool>) -> Option<bool> {
    match later {
        Some(allowed) => Some(allowed),
        None => earlier,
    }
}

proof fn lemma_word_of_six(
    first: Seq<Rule>,
    second: Seq<Rule>,
    third: Seq<Rule>,
    fourth: Seq<Rule>,
    fifth: Seq<Rule>,
    sixth: Seq<Rule>,
    access: FileAccess,
    path: Seq<u8>,
    matches: spec_fn(Seq<char>, Seq<u8>) -> bool,
)
    ensures
        last_word(first + second + third + fourth + fifth + sixth, access, path, matches) == over(
            last_word(sixth, access, path, matches),
            over(
                last_word(fifth, access, path, matches),
                over(
                    last_word(fourth, access, path, matches),
                    over(
                        last_word(third, access, path, matches),
                        over(
                            last_word(second, access, path, matches),
                            last_word(first, access, path, matches),
                        ),
                    ),
                ),
            ),
        ),
{
    lemma_word_of_both(first, second, access, path, matches);
    lemma_word_of_both(first + second, third, access, path, matches);
    lemma_word_of_both(first + second + third, fourth, access, path, matches);
    lemma_word_of_both(first + second + third + fourth, fifth, access, path, matches);
    lemma_word_of_both(first + second + third + fourth + fifth, sixth, access, path, matches);
}

proof fn lemma_profile_text(policy: AccessPolicy, parts: Seq<Seq<u8>>, parents: Seq<Seq<u8>>)
    ensures
        rules_text(profile_rule_list(policy, parts, parents)) == "(version 1)\n(deny default)\n"@
            + seatbelt::process_rules() + seatbelt::mach_rules() + seatbelt::write_rules(
            bytes::texts(policy.write_roots@),
            bytes::texts(policy.write_denied_roots@),
            policy.write_denied_patterns@,
        ) + rules_text(read_rule_list(policy, parts, parents)) + seatbelt::network_rules(
            policy.network_access,
        ),
{
    let first = seq![Rule::Start];
    let second = seq![Rule::Processes];
    let third = seq![Rule::Services];
    let head = seq![Rule::Start, Rule::Processes, Rule::Services];
    let writes = write_rule_list(policy);
    let reads = read_rule_list(policy, parts, parents);
    assert(head =~= first + second + third);
    lemma_text_of_one(Rule::Start);
    lemma_text_of_one(Rule::Processes);
    lemma_text_of_one(Rule::Services);
    lemma_text_of_one(Rule::Network(policy.network_access));
    lemma_text_of_both(first, second);
    lemma_text_of_both(first + second, third);
    lemma_write_text(policy);
    lemma_text_of_both(head, writes);
    lemma_text_of_both(head + writes, reads);
    lemma_text_of_both(head + writes + reads, seq![Rule::Network(policy.network_access)]);
}

proof fn lemma_profile_word(
    policy: AccessPolicy,
    parts: Seq<Seq<u8>>,
    parents: Seq<Seq<u8>>,
    access: FileAccess,
    path: Seq<u8>,
    matches: spec_fn(Seq<char>, Seq<u8>) -> bool,
)
    ensures
        last_word(profile_rule_list(policy, parts, parents), access, path, matches) == (match last_word(
            read_rule_list(policy, parts, parents),
            access,
            path,
            matches,
        ) {
            Some(allowed) => Some(allowed),
            None => last_word(write_rule_list(policy), access, path, matches),
        }),
{
    let head = seq![Rule::Start, Rule::Processes, Rule::Services];
    let writes = write_rule_list(policy);
    let reads = read_rule_list(policy, parts, parents);
    let network = Rule::Network(policy.network_access);
    lemma_word_of_alike(head, access, path, matches, false);
    lemma_word_of_one(network, access, path, matches);
    lemma_word_of_both(head, writes, access, path, matches);
    lemma_word_of_both(head + writes, reads, access, path, matches);
    lemma_word_of_both(head + writes + reads, seq![network], access, path, matches);
}

/// Whether rules let exactly those accesses pass that a policy allows.
pub open spec fn follows(
    rules: Seq<Rule>,
    policy: AccessPolicy,
    matches: spec_fn(Seq<char>, Seq<u8>) -> bool,
) -> bool {
    &&& forall|path: Seq<u8>| #[trigger]
        passes(rules, FileAccess::Write, path, matches) == write_passes(policy, path, matches)
    &&& forall|path: Seq<u8>| #[trigger]
        passes(rules, FileAccess::Read, path, matches) == read_passes(policy, path)
}

proof fn lemma_list_follows(
    policy: AccessPolicy,
    parts: Seq<Seq<u8>>,
    parents: Seq<Seq<u8>>,
    matches: spec_fn(Seq<char>, Seq<u8>) -> bool,
)
    requires
        paths::is_root_set(
            parts,
            seatbelt::all_named(bytes::texts(policy.read_reopened_roots@)),
        ) || policy.read_access is Unrestricted,
        policy.read_access matches ReadAccess::AllowRoots(roots) ==> paths::is_root_set(
            parents,
            seatbelt::all_ancestors(bytes::texts(roots@)),
        ) && written_one_way(seatbelt::all_ancestors(bytes::texts(roots@))),
    ensures
        follows(profile_rule_list(policy, parts, parents), policy, matches),
{
    let rules = profile_rule_list(policy, parts, parents);
    assert forall|path: Seq<u8>| #[trigger]
        passes(rules, FileAccess::Write, path, matches) == write_passes(policy, path, matches) by {
        lemma_profile_word(policy, parts, parents, FileAccess::Write, path, matches);
        lemma_write_word(policy, path, matches);
        lemma_reads_leave_writes(policy, parts, parents, path, matches);
    }
    assert forall|path: Seq<u8>| #[trigger]
        passes(rules, FileAccess::Read, path, matches) == read_passes(policy, path) by {
        lemma_profile_word(policy, parts, parents, FileAccess::Read, path, matches);
        lemma_write_word(policy, path, matches);
        match policy.read_access {
            ReadAccess::Unrestricted => {
                lemma_word_of_one(Rule::AllowReads, FileAccess::Read, path, matches);
            },
            ReadAccess::AllowRoots(roots) => {
                lemma_read_word(policy, roots, parts, parents, path, matches);
            },
        }
    }
}

/// A profile lets exactly those files be written and read that its policy
/// allows: since the last rule that speaks of an access decides on it, what is
/// denied is taken out of what is allowed, and everything else is denied. This
/// holds whatever the regular expressions in it match, where each directory
/// above the roots is written one way.
pub proof fn law_profile_follows_its_policy(
    profile: Seq<char>,
    policy: AccessPolicy,
    matches: spec_fn(Seq<char>, Seq<u8>) -> bool,
)
    requires
        seatbelt::is_profile(profile, policy),
        policy.read_access matches ReadAccess::AllowRoots(roots) ==> written_one_way(
            seatbelt::all_ancestors(bytes::texts(roots@)),
        ),
    ensures
        exists|parts: Seq<Seq<u8>>, parents: Seq<Seq<u8>>|
            rules_text(#[trigger] profile_rule_list(policy, parts, parents)) == profile && follows(
                profile_rule_list(policy, parts, parents),
                policy,
                matches,
            ),
{
    let denied = bytes::texts(policy.read_denied_roots@);
    let reopened = bytes::texts(policy.read_reopened_roots@);
    let links = bytes::texts(policy.read_symlinks@);
    let reads = choose|reads: Seq<char>| #[trigger]
        seatbelt::read_rules(reads, policy.read_access, denied, reopened, links) && profile
            == "(version 1)\n(deny default)\n"@ + seatbelt::process_rules()
            + seatbelt::mach_rules() + seatbelt::write_rules(
            bytes::texts(policy.write_roots@),
            bytes::texts(policy.write_denied_roots@),
            policy.write_denied_patterns@,
        ) + reads + seatbelt::network_rules(policy.network_access);
    let (parts, parents): (Seq<Seq<u8>>, Seq<Seq<u8>>) = match policy.read_access {
        ReadAccess::Unrestricted => (Seq::empty(), Seq::empty()),
        ReadAccess::AllowRoots(roots) => {
            let allowed = bytes::texts(roots@);
            let (opened, text) = choose|opened: Seq<char>, text: Seq<char>| #[trigger]
                seatbelt::reopens(opened, reopened, allowed) && #[trigger] seatbelt::parent_rules(
                    text,
                    allowed,
                ) && reads == "(deny file-read*)\n(allow file-read* (literal \"/\"))\n"@
                    + seatbelt::wrapped(
                    "(allow file-read* (subpath \""@,
                    seatbelt::path_literals(allowed),
                    "\"))\n"@,
                ) + opened + text + seatbelt::symlink_rules(links) + seatbelt::wrapped(
                    "(deny file-read* (subpath \""@,
                    seatbelt::path_literals(denied),
                    "\"))\n"@,
                );
            reveal(seatbelt::reopens);
            reveal(seatbelt::parent_rules);
            let parts = choose|list: Seq<Seq<u8>>|
                paths::is_root_set(list, seatbelt::all_named(reopened)) && opened
                    == #[trigger] seatbelt::reopened_rules(list, seatbelt::all_named(allowed));
            let list = choose|list: Seq<Seq<u8>>|
                paths::is_root_set(list, seatbelt::all_ancestors(allowed)) && text
                    == seatbelt::wrapped(
                    "(allow file-read* (literal \""@,
                    #[trigger] seatbelt::path_literals(list),
                    "\"))\n"@,
                );
            lemma_read_text(policy, roots, parts, list);
            (parts, list)
        },
    };
    if policy.read_access is Unrestricted {
        lemma_text_of_one(Rule::AllowReads);
    }
    lemma_profile_text(policy, parts, parents);
    lemma_list_follows(policy, parts, parents, matches);
    assert(rules_text(profile_rule_list(policy, parts, parents)) == profile);
}

/// Each root and each pattern of a policy counts in its profile: nothing below a
/// denied root and nothing that a denied pattern matches is written to, and what
/// lies below a write root and is not denied is. Nothing below a denied read root
/// is read, and what lies below a read root and below no denied one is.
pub proof fn law_each_rule_counts_in_a_profile(
    profile: Seq<char>,
    policy: AccessPolicy,
    matches: spec_fn(Seq<char>, Seq<u8>) -> bool,
    path: Seq<u8>,
    at: int,
)
    requires
        seatbelt::is_profile(profile, policy),
        policy.read_access matches ReadAccess::AllowRoots(roots) ==> written_one_way(
            seatbelt::all_ancestors(bytes::texts(roots@)),
        ),
    ensures
        exists|rules: Seq<Rule>|
            {
                &&& #[trigger] rules_text(rules) == profile
                &&& 0 <= at < policy.write_denied_roots@.len() && paths::under(
                    path,
                    seatbelt::named(policy.write_denied_roots@[at]@),
                ) ==> !passes(rules, FileAccess::Write, path, matches)
                &&& 0 <= at < policy.write_denied_patterns@.len() && matches(
                    seatbelt::regex_of(policy.write_denied_patterns@[at]@),
                    path,
                ) ==> !passes(rules, FileAccess::Write, path, matches)
                &&& 0 <= at < policy.write_roots@.len() && paths::under(
                    path,
                    seatbelt::named(policy.write_roots@[at]@),
                ) && (forall|i: int|
                    0 <= i < policy.write_denied_roots@.len() ==> !paths::under(
                        path,
                        seatbelt::named((#[trigger] policy.write_denied_roots@[i])@),
                    )) && (forall|i: int|
                    0 <= i < policy.write_denied_patterns@.len() ==> !matches(
                        seatbelt::regex_of((#[trigger] policy.write_denied_patterns@[i])@),
                        path,
                    )) ==> passes(rules, FileAccess::Write, path, matches)
                &&& (forall|i: int|
                    0 <= i < policy.write_roots@.len() ==> !paths::under(
                        path,
                        seatbelt::named((#[trigger] policy.write_roots@[i])@),
                    )) ==> !passes(rules, FileAccess::Write, path, matches)
                &&& policy.read_access is Unrestricted ==> passes(
                    rules,
                    FileAccess::Read,
                    path,
                    matches,
                )
                &&& policy.read_access is AllowRoots && 0 <= at < policy.read_denied_roots@.len()
                    && paths::under(path, seatbelt::named(policy.read_denied_roots@[at]@))
                    ==> !passes(rules, FileAccess::Read, path, matches)
                &&& policy.read_access is AllowRoots && 0 <= at
                    < policy.read_access->AllowRoots_0@.len() && paths::under(
                    path,
                    seatbelt::named(policy.read_access->AllowRoots_0@[at]@),
                ) && (forall|i: int|
                    0 <= i < policy.read_denied_roots@.len() ==> !paths::under(
                        path,
                        seatbelt::named((#[trigger] policy.read_denied_roots@[i])@),
                    )) && (forall|i: int|
                    0 <= i < policy.read_reopened_roots@.len() ==> !paths::under(
                        path,
                        seatbelt::named((#[trigger] policy.read_reopened_roots@[i])@),
                    )) ==> passes(rules, FileAccess::Read, path, matches)
            },
{
    law_profile_follows_its_policy(profile, policy, matches);
    let (parts, parents) = choose|parts: Seq<Seq<u8>>, parents: Seq<Seq<u8>>|
        rules_text(#[trigger] profile_rule_list(policy, parts, parents)) == profile && follows(
            profile_rule_list(policy, parts, parents),
            policy,
            matches,
        );
    let rules = profile_rule_list(policy, parts, parents);
    assert(passes(rules, FileAccess::Write, path, matches) == write_passes(policy, path, matches));
    assert(passes(rules, FileAccess::Read, path, matches) == read_passes(policy, path));
    let denied = seatbelt::all_named(bytes::texts(policy.write_denied_roots@));
    let allowed = seatbelt::all_named(bytes::texts(policy.write_roots@));
    let unread = seatbelt::all_named(bytes::texts(policy.read_denied_roots@));
    let reopened = seatbelt::all_named(bytes::texts(policy.read_reopened_roots@));
    assert(forall|i: int|
        0 <= i < denied.len() ==> #[trigger] denied[i] == seatbelt::named(
            policy.write_denied_roots@[i]@,
        ));
    assert(forall|i: int|
        0 <= i < allowed.len() ==> #[trigger] allowed[i] == seatbelt::named(
            policy.write_roots@[i]@,
        ));
    assert(forall|i: int|
        0 <= i < unread.len() ==> #[trigger] unread[i] == seatbelt::named(
            policy.read_denied_roots@[i]@,
        ));
    assert(forall|i: int|
        0 <= i < reopened.len() ==> #[trigger] reopened[i] == seatbelt::named(
            policy.read_reopened_roots@[i]@,
        ));
    if 0 <= at < denied.len() && paths::under(path, denied[at]) {
        assert(paths::under_any(path, denied));
    }
    if 0 <= at < allowed.len() && paths::under(path, allowed[at]) {
        assert(paths::under_any(path, allowed));
    }
    if 0 <= at < unread.len() && paths::under(path, unread[at]) {
        assert(paths::under_any(path, unread));
    }
    if let ReadAccess::AllowRoots(list) = policy.read_access {
        let roots = seatbelt::all_named(bytes::texts(list@));
        assert(forall|i: int|
            0 <= i < roots.len() ==> #[trigger] roots[i] == seatbelt::named(list@[i]@));
        if 0 <= at < roots.len() && paths::under(path, roots[at]) {
            assert(paths::under_any(path, roots));
        }
    }
    assert(rules_text(rules) == profile);
}

} // verus!
