//! The profile of a macOS sandbox, rendered from a policy.

use crate::bytes;
use crate::error::{Cause, Error, Mechanism};
use crate::paths;
use crate::policy;
use crate::policy::{AccessPolicy, NetworkAccess, ReadAccess, UnixSocketAccess};
use crate::text;
use vstd::prelude::*;

verus! {

/// How a character is written in a literal.
pub open spec fn escaped_char(character: char) -> Seq<char> {
    if character == '"' {
        seq!['\\', '"']
    } else if character == '\\' {
        seq!['\\', '\\']
    } else if character == '\n' {
        seq!['\\', 'n']
    } else {
        seq![character]
    }
}

/// How a text is written in a literal.
pub open spec fn escaped(text: Seq<char>) -> Seq<char>
    decreases text.len(),
{
    if text.len() == 0 {
        Seq::empty()
    } else {
        escaped(text.drop_last()) + escaped_char(text.last())
    }
}

/// How a text is written in a literal.
pub fn escape_sbpl_literal(path: &str) -> (literal: String)
    ensures
        literal@ == escaped(path@),
{
    let list = text::characters(path);
    let mut literal = String::new();
    let mut at: usize = 0;
    assert(escaped(path@.take(0)) =~= Seq::empty());
    while at < list.len()
        invariant
            at <= list.len(),
            list@ == path@,
            literal@ == escaped(path@.take(at as int)),
        decreases list.len() - at,
    {
        let ghost before = literal@;
        let character = list[at];
        if character == '"' {
            literal.push('\\');
            literal.push('"');
        } else if character == '\\' {
            literal.push('\\');
            literal.push('\\');
        } else if character == '\n' {
            literal.push('\\');
            literal.push('n');
        } else {
            literal.push(character);
        }
        assert(literal@ =~= before + escaped_char(character));
        assert(path@.take(at + 1).drop_last() =~= path@.take(at as int));
        at += 1;
    }
    assert(path@.take(at as int) =~= path@);
    literal
}

/// How a character of a regular expression is written in a literal, where a
/// backslash stands for itself.
pub open spec fn escaped_regex_char(character: char) -> Seq<char> {
    if character == '"' {
        seq!['\\', '"']
    } else if character == '\n' {
        seq!['\\', 'n']
    } else {
        seq![character]
    }
}

/// How a regular expression is written in a literal.
pub open spec fn escaped_regex(text: Seq<char>) -> Seq<char>
    decreases text.len(),
{
    if text.len() == 0 {
        Seq::empty()
    } else {
        escaped_regex(text.drop_last()) + escaped_regex_char(text.last())
    }
}

/// How a regular expression is written in a literal.
pub fn escape_sbpl_regex_literal(regex: &str) -> (literal: String)
    ensures
        literal@ == escaped_regex(regex@),
{
    let list = text::characters(regex);
    let mut literal = String::new();
    let mut at: usize = 0;
    assert(escaped_regex(regex@.take(0)) =~= Seq::empty());
    while at < list.len()
        invariant
            at <= list.len(),
            list@ == regex@,
            literal@ == escaped_regex(regex@.take(at as int)),
        decreases list.len() - at,
    {
        let ghost before = literal@;
        let character = list[at];
        if character == '"' {
            literal.push('\\');
            literal.push('"');
        } else if character == '\n' {
            literal.push('\\');
            literal.push('n');
        } else {
            literal.push(character);
        }
        assert(literal@ =~= before + escaped_regex_char(character));
        assert(regex@.take(at + 1).drop_last() =~= regex@.take(at as int));
        at += 1;
    }
    assert(regex@.take(at as int) =~= regex@);
    literal
}

/// Whether a character means something else in a regular expression.
pub open spec fn is_special(character: char) -> bool {
    character == '.' || character == '(' || character == ')' || character == '{' || character == '}'
        || character == '+' || character == '|' || character == '^' || character == '$' || character
        == '\\'
}

/// Where the first `]` after the start stands, or the length.
pub open spec fn class_end(pattern: Seq<char>, from: int) -> int
    decreases pattern.len() - from,
{
    if from >= pattern.len() {
        pattern.len() as int
    } else if pattern[from] == ']' {
        from
    } else {
        class_end(pattern, from + 1)
    }
}

/// The end of a class lies behind its start.
pub proof fn lemma_class_end(pattern: Seq<char>, from: int)
    requires
        0 <= from <= pattern.len(),
    ensures
        from <= class_end(pattern, from) <= pattern.len(),
    decreases pattern.len() - from,
{
    if from < pattern.len() && pattern[from] != ']' {
        lemma_class_end(pattern, from + 1);
    }
}

/// What a pattern is as a regular expression, without its ends.
pub open spec fn regex_body(pattern: Seq<char>) -> Seq<char>
    decreases pattern.len(),
{
    proof {
        if pattern.len() > 0 {
            lemma_class_end(pattern, 1);
        }
    }
    if pattern.len() == 0 {
        Seq::empty()
    } else if pattern.len() > 2 && pattern[0] == '*' && pattern[1] == '*' && pattern[2] == '/' {
        "(.*/)?"@ + regex_body(pattern.skip(3))
    } else if pattern.len() > 1 && pattern[0] == '*' && pattern[1] == '*' {
        ".*"@ + regex_body(pattern.skip(2))
    } else if pattern[0] == '*' {
        "[^/]*"@ + regex_body(pattern.skip(1))
    } else if pattern[0] == '?' {
        "[^/]"@ + regex_body(pattern.skip(1))
    } else if pattern[0] == '[' {
        if class_end(pattern, 1) < pattern.len() {
            pattern.take(class_end(pattern, 1) + 1) + regex_body(
                pattern.skip(class_end(pattern, 1) + 1),
            )
        } else {
            "\\["@ + regex_body(pattern.skip(1))
        }
    } else if is_special(pattern[0]) {
        seq!['\\', pattern[0]] + regex_body(pattern.skip(1))
    } else {
        seq![pattern[0]] + regex_body(pattern.skip(1))
    }
}

/// What a pattern is as a regular expression: `**/` is any number of leading
/// directories, `**` anything, `*` anything within a component, `?` one
/// character within it, and a class itself.
pub open spec fn regex_of(pattern: Seq<char>) -> Seq<char> {
    "^"@ + regex_body(pattern) + "$"@
}

fn find_class_end(list: &Vec<char>, from: usize) -> (end: usize)
    requires
        from <= list@.len(),
    ensures
        from <= end <= list@.len(),
        end == class_end(list@, from as int),
{
    let mut end: usize = from;
    while end < list.len() && list[end] != ']'
        invariant
            from <= end <= list@.len(),
            class_end(list@, from as int) == class_end(list@, end as int),
        decreases list.len() - end,
    {
        end += 1;
    }
    end
}

proof fn lemma_class_end_of_rest(pattern: Seq<char>, at: int, from: int)
    requires
        0 <= at,
        0 <= from,
        at + from <= pattern.len(),
    ensures
        class_end(pattern.skip(at), from) + at == class_end(pattern, at + from),
    decreases pattern.len() - at - from,
{
    if at + from < pattern.len() && pattern[at + from] != ']' {
        lemma_class_end_of_rest(pattern, at, from + 1);
    }
}

/// What a pattern is as a regular expression.
pub fn glob_to_sbpl_regex(pattern: &str) -> (regex: String)
    ensures
        regex@ == regex_of(pattern@),
{
    let list = text::characters(pattern);
    let mut regex = "^".to_owned();
    let mut at: usize = 0;
    assert(pattern@.skip(0) =~= pattern@);
    while at < list.len()
        invariant
            at <= list.len(),
            list@ == pattern@,
            regex@ + regex_body(pattern@.skip(at as int)) == "^"@ + regex_body(pattern@),
        decreases list.len() - at,
    {
        let ghost before = regex@;
        let ghost rest = pattern@.skip(at as int);
        let left = list.len() - at;
        if left > 2 && list[at] == '*' && list[at + 1] == '*' && list[at + 2] == '/' {
            regex.append("(.*/)?");
            assert(rest.skip(3) =~= pattern@.skip(at + 3));
            assert(regex@ + regex_body(rest.skip(3)) =~= before + regex_body(rest));
            at += 3;
        } else if left > 1 && list[at] == '*' && list[at + 1] == '*' {
            regex.append(".*");
            assert(rest.skip(2) =~= pattern@.skip(at + 2));
            assert(regex@ + regex_body(rest.skip(2)) =~= before + regex_body(rest));
            at += 2;
        } else if list[at] == '*' {
            regex.append("[^/]*");
            assert(rest.skip(1) =~= pattern@.skip(at + 1));
            assert(regex@ + regex_body(rest.skip(1)) =~= before + regex_body(rest));
            at += 1;
        } else if list[at] == '?' {
            regex.append("[^/]");
            assert(rest.skip(1) =~= pattern@.skip(at + 1));
            assert(regex@ + regex_body(rest.skip(1)) =~= before + regex_body(rest));
            at += 1;
        } else if list[at] == '[' {
            let end = find_class_end(&list, at + 1);
            proof {
                lemma_class_end_of_rest(pattern@, at as int, 1);
            }
            if end < list.len() {
                regex.append(pattern.substring_char(at, end + 1));
                assert(pattern@.subrange(at as int, end + 1) =~= rest.take(end - at + 1));
                assert(rest.skip(end - at + 1) =~= pattern@.skip(end + 1));
                assert(regex@ + regex_body(rest.skip(end - at + 1)) =~= before + regex_body(rest));
                at = end + 1;
            } else {
                regex.append("\\[");
                assert(rest.skip(1) =~= pattern@.skip(at + 1));
                assert(regex@ + regex_body(rest.skip(1)) =~= before + regex_body(rest));
                at += 1;
            }
        } else {
            let character = list[at];
            if character == '.' || character == '(' || character == ')' || character == '{'
                || character == '}' || character == '+' || character == '|' || character == '^'
                || character == '$' || character == '\\' {
                regex.push('\\');
            }
            regex.push(character);
            assert(rest.skip(1) =~= pattern@.skip(at + 1));
            assert(regex@ + regex_body(rest.skip(1)) =~= before + regex_body(rest));
            at += 1;
        }
    }
    assert(regex@ + regex_body(pattern@.skip(at as int)) =~= regex@);
    regex.append("$");
    regex
}

/// The rules on processes.
pub open spec fn process_rules() -> Seq<char> {
    "(allow process-exec)\n(allow process-exec (path \"/bin/ps\") (with no-sandbox))\n(allow process-fork)\n(allow process-info* (target same-sandbox))\n(allow signal (target same-sandbox))\n(allow sysctl-read)\n"@
}

/// Adds the rules on processes.
pub fn render_process_rules(sb: &mut String)
    ensures
        final(sb)@ == old(sb)@ + process_rules(),
{
    sb.append(
        "(allow process-exec)\n(allow process-exec (path \"/bin/ps\") (with no-sandbox))\n(allow process-fork)\n(allow process-info* (target same-sandbox))\n(allow signal (target same-sandbox))\n(allow sysctl-read)\n",
    );
}

/// The rules on system services: those that programs commonly need, and those
/// for keys and trust.
pub open spec fn mach_rules() -> Seq<char> {
    "(allow mach-lookup\n  (global-name \"com.apple.SecurityServer\")\n  (global-name \"com.apple.trustd.agent\")\n  (global-name \"com.apple.audio.systemsoundserver\")\n  (global-name \"com.apple.bsd.dirhelper\")\n  (global-name \"com.apple.coreservices.launchservicesd\")\n  (global-name \"com.apple.distributed_notifications@Uv3\")\n  (global-name \"com.apple.FontObjectsServer\")\n  (global-name \"com.apple.fonts\")\n  (global-name \"com.apple.logd\")\n  (global-name \"com.apple.lsd.mapdb\")\n  (global-name \"com.apple.PowerManagement.control\")\n  (global-name \"com.apple.securityd.xpc\")\n  (global-name \"com.apple.container.apiserver\")\n  (global-name \"com.apple.system.logger\")\n  (global-name \"com.apple.system.notification_center\")\n  (global-name \"com.apple.system.opendirectoryd.libinfo\")\n  (global-name \"com.apple.system.opendirectoryd.membership\")\n)\n(allow system-socket (require-all (socket-domain AF_SYSTEM) (socket-protocol 2)))\n"@
}

/// Adds the rules on system services.
pub fn render_mach_rules(sb: &mut String)
    ensures
        final(sb)@ == old(sb)@ + mach_rules(),
{
    sb.append(
        "(allow mach-lookup\n  (global-name \"com.apple.SecurityServer\")\n  (global-name \"com.apple.trustd.agent\")\n  (global-name \"com.apple.audio.systemsoundserver\")\n  (global-name \"com.apple.bsd.dirhelper\")\n  (global-name \"com.apple.coreservices.launchservicesd\")\n  (global-name \"com.apple.distributed_notifications@Uv3\")\n  (global-name \"com.apple.FontObjectsServer\")\n  (global-name \"com.apple.fonts\")\n  (global-name \"com.apple.logd\")\n  (global-name \"com.apple.lsd.mapdb\")\n  (global-name \"com.apple.PowerManagement.control\")\n  (global-name \"com.apple.securityd.xpc\")\n  (global-name \"com.apple.container.apiserver\")\n  (global-name \"com.apple.system.logger\")\n  (global-name \"com.apple.system.notification_center\")\n  (global-name \"com.apple.system.opendirectoryd.libinfo\")\n  (global-name \"com.apple.system.opendirectoryd.membership\")\n)\n(allow system-socket (require-all (socket-domain AF_SYSTEM) (socket-protocol 2)))\n",
    );
}

/// Each text between a front and a back, one after the other.
pub open spec fn wrapped(front: Seq<char>, items: Seq<Seq<char>>, back: Seq<char>) -> Seq<char>
    decreases items.len(),
{
    if items.len() == 0 {
        Seq::empty()
    } else {
        wrapped(front, items.drop_last(), back) + front + items.last() + back
    }
}

/// How a path is written in a literal.
pub open spec fn path_literal(path: Seq<u8>) -> Seq<char> {
    escaped(text::shown(path))
}

/// How each path is written in a literal.
pub open spec fn path_literals(list: Seq<Seq<u8>>) -> Seq<Seq<char>> {
    list.map_values(|path: Seq<u8>| path_literal(path))
}

fn append_paths(sb: &mut String, front: &str, list: &[Vec<u8>], back: &str)
    ensures
        final(sb)@ == old(sb)@ + wrapped(front@, path_literals(bytes::texts(list@)), back@),
{
    let ghost literals = path_literals(bytes::texts(list@));
    let mut at: usize = 0;
    assert(sb@ =~= old(sb)@ + wrapped(front@, literals.take(0), back@));
    while at < list.len()
        invariant
            at <= list@.len(),
            literals == path_literals(bytes::texts(list@)),
            sb@ == old(sb)@ + wrapped(front@, literals.take(at as int), back@),
        decreases list.len() - at,
    {
        let shown = text::show(list[at].as_slice());
        let literal = escape_sbpl_literal(shown.as_str());
        assert(literal@ == literals[at as int]);
        assert(literals.take(at + 1).drop_last() =~= literals.take(at as int));
        sb.append(front);
        sb.append(literal.as_str());
        sb.append(back);
        assert(sb@ =~= old(sb)@ + wrapped(front@, literals.take(at + 1), back@));
        at += 1;
    }
    assert(literals.take(at as int) =~= literals);
}

/// How each pattern is written in a literal.
pub open spec fn pattern_literals(patterns: Seq<String>) -> Seq<Seq<char>> {
    patterns.map_values(|pattern: String| escaped_regex(regex_of(pattern@)))
}

/// The rules on writing: what is allowed, and after it what is denied.
pub open spec fn write_rules(
    roots: Seq<Seq<u8>>,
    denied: Seq<Seq<u8>>,
    patterns: Seq<String>,
) -> Seq<char> {
    wrapped("(allow file-write* (subpath \""@, path_literals(roots), "\"))\n"@) + wrapped(
        "(deny file-write* (subpath \""@,
        path_literals(denied),
        "\"))\n"@,
    ) + wrapped("(deny file-write* (regex #\""@, pattern_literals(patterns), "\"))\n"@)
}

/// Adds the rules on writing.
pub fn render_write_rules(
    sb: &mut String,
    write_roots: &[Vec<u8>],
    write_denied_roots: &[Vec<u8>],
    write_denied_patterns: &[String],
)
    ensures
        final(sb)@ == old(sb)@ + write_rules(
            bytes::texts(write_roots@),
            bytes::texts(write_denied_roots@),
            write_denied_patterns@,
        ),
{
    append_paths(sb, "(allow file-write* (subpath \"", write_roots, "\"))\n");
    append_paths(sb, "(deny file-write* (subpath \"", write_denied_roots, "\"))\n");
    let ghost before = sb@;
    let ghost literals = pattern_literals(write_denied_patterns@);
    let ghost front = "(deny file-write* (regex #\""@;
    let ghost back = "\"))\n"@;
    let mut at: usize = 0;
    assert(sb@ =~= before + wrapped(front, literals.take(0), back));
    while at < write_denied_patterns.len()
        invariant
            at <= write_denied_patterns@.len(),
            literals == pattern_literals(write_denied_patterns@),
            front == "(deny file-write* (regex #\""@,
            back == "\"))\n"@,
            sb@ == before + wrapped(front, literals.take(at as int), back),
        decreases write_denied_patterns.len() - at,
    {
        let regex = glob_to_sbpl_regex(write_denied_patterns[at].as_str());
        let literal = escape_sbpl_regex_literal(regex.as_str());
        assert(literal@ == literals[at as int]);
        assert(literals.take(at + 1).drop_last() =~= literals.take(at as int));
        sb.append("(deny file-write* (regex #\"");
        sb.append(literal.as_str());
        sb.append("\"))\n");
        assert(sb@ =~= before + wrapped(front, literals.take(at + 1), back));
        at += 1;
    }
    assert(literals.take(at as int) =~= literals);
    assert(sb@ =~= old(sb)@ + write_rules(
        bytes::texts(write_roots@),
        bytes::texts(write_denied_roots@),
        write_denied_patterns@,
    ));
}

/// The directories above a path, from the nearest up.
pub open spec fn ancestors_of(path: Seq<u8>) -> Seq<Seq<u8>> {
    let parts = paths::components(path);
    Seq::new(
        if parts.len() == 0 {
            0
        } else {
            (parts.len() - 1) as nat
        },
        |i: int| paths::front_text(path, (parts.len() - 1 - i) as nat),
    )
}

/// The directories above each path.
pub open spec fn all_ancestors(roots: Seq<Seq<u8>>) -> Seq<Seq<u8>>
    decreases roots.len(),
{
    if roots.len() == 0 {
        Seq::empty()
    } else {
        all_ancestors(roots.drop_last()) + ancestors_of(roots.last())
    }
}

/// Whether rules let the directories above each root be listed, each once.
#[verifier::opaque]
pub open spec fn parent_rules(rules: Seq<char>, roots: Seq<Seq<u8>>) -> bool {
    exists|list: Seq<Seq<u8>>|
        paths::is_root_set(list, all_ancestors(roots)) && rules == wrapped(
            "(allow file-read* (literal \""@,
            #[trigger] path_literals(list),
            "\"))\n"@,
        )
}

fn push_ancestors(list: &mut Vec<Vec<u8>>, path: &[u8])
    ensures
        bytes::texts(final(list)@) == bytes::texts(old(list)@) + ancestors_of(path@),
{
    let mut left: usize = paths::path_components(path).len();
    let ghost all = left as int;
    let ghost above = ancestors_of(path@);
    assert(all == paths::components(path@).len());
    assert(bytes::texts(list@) =~= bytes::texts(old(list)@) + above.take(0));
    while left > 1
        invariant
            all == paths::components(path@).len(),
            above == ancestors_of(path@),
            left <= all,
            all > 0 ==> left >= 1,
            bytes::texts(list@) == bytes::texts(old(list)@) + above.take(all - left),
        decreases left,
    {
        let ghost before = bytes::texts(list@);
        let ghost count = all - left;
        left -= 1;
        let parent = paths::path_front(path, left);
        assert(parent@ == above[count]);
        list.push(parent);
        assert(bytes::texts(list@) =~= before.push(above[count]));
        assert(above.take(count + 1) =~= above.take(count).push(above[count]));
        assert(bytes::texts(list@) =~= bytes::texts(old(list)@) + above.take(count + 1));
    }
    assert(above.take(all - left) =~= above);
}

/// Adds rules that let the directories above each root be listed, so that a
/// path to it can be walked.
pub fn render_parent_dir_rules(sb: &mut String, roots: &[Vec<u8>])
    ensures
        exists|rules: Seq<char>|
            #[trigger] parent_rules(rules, bytes::texts(roots@)) && final(sb)@ == old(sb)@ + rules,
{
    let mut ancestors: Vec<Vec<u8>> = Vec::new();
    let ghost all = bytes::texts(roots@);
    let mut at: usize = 0;
    assert(bytes::texts(ancestors@) =~= all_ancestors(all.take(0)));
    while at < roots.len()
        invariant
            at <= roots@.len(),
            all == bytes::texts(roots@),
            bytes::texts(ancestors@) == all_ancestors(all.take(at as int)),
        decreases roots.len() - at,
    {
        assert(all.take(at + 1).drop_last() =~= all.take(at as int));
        assert(all.take(at + 1).last() == roots@[at as int]@);
        push_ancestors(&mut ancestors, roots[at].as_slice());
        at += 1;
    }
    assert(all.take(at as int) =~= all);
    paths::normalize_roots(&mut ancestors);
    append_paths(sb, "(allow file-read* (literal \"", ancestors.as_slice(), "\"))\n");
    proof {
        let list = bytes::texts(ancestors@);
        let rules = wrapped("(allow file-read* (literal \""@, path_literals(list), "\"))\n"@);
        assert(paths::is_root_set(list, all_ancestors(all)));
        assert(parent_rules(rules, all)) by {
            reveal(parent_rules);
        }
    }
}

/// The rules that let links be read, without giving access to what they lead
/// to.
pub open spec fn symlink_rules(symlinks: Seq<Seq<u8>>) -> Seq<char> {
    if symlinks.len() == 0 {
        Seq::empty()
    } else {
        "(allow file-read-metadata"@ + wrapped(
            "\n  (literal \""@,
            path_literals(symlinks),
            "\")"@,
        ) + ")\n"@
    }
}

/// Adds rules that let links be read.
pub fn render_symlink_metadata_rules(sb: &mut String, symlinks: &[Vec<u8>])
    ensures
        final(sb)@ == old(sb)@ + symlink_rules(bytes::texts(symlinks@)),
{
    if symlinks.len() == 0 {
        assert(sb@ =~= old(sb)@ + symlink_rules(bytes::texts(symlinks@)));
        return;
    }
    sb.append("(allow file-read-metadata");
    append_paths(sb, "\n  (literal \"", symlinks, "\")");
    sb.append(")\n");
    assert(sb@ =~= old(sb)@ + symlink_rules(bytes::texts(symlinks@)));
}

/// The path that a literal names: the path itself where it is valid UTF-8.
pub open spec fn named(path: Seq<u8>) -> Seq<u8> {
    vstd::utf8::encode_utf8(text::shown(path))
}

/// The paths that literals name.
pub open spec fn all_named(list: Seq<Seq<u8>>) -> Seq<Seq<u8>> {
    list.map_values(|path: Seq<u8>| named(path))
}

fn named_paths(list: &[Vec<u8>]) -> (names: Vec<Vec<u8>>)
    ensures
        bytes::texts(names@) == all_named(bytes::texts(list@)),
{
    let ghost all = all_named(bytes::texts(list@));
    let mut names: Vec<Vec<u8>> = Vec::new();
    let mut at: usize = 0;
    assert(bytes::texts(names@) =~= all.take(0));
    while at < list.len()
        invariant
            at <= list@.len(),
            all == all_named(bytes::texts(list@)),
            bytes::texts(names@) == all.take(at as int),
        decreases list.len() - at,
    {
        let ghost before = bytes::texts(names@);
        let shown = text::show(list[at].as_slice());
        let name = bytes::copy_bytes(shown.as_str().as_bytes());
        assert(name@ == all[at as int]);
        names.push(name);
        assert(bytes::texts(names@) =~= before.push(name@));
        assert(all.take(at + 1) =~= all.take(at as int).push(all[at as int]));
        at += 1;
    }
    assert(all.take(at as int) =~= all);
    names
}

/// The roots at or below another.
pub open spec fn within(roots: Seq<Seq<u8>>, above: Seq<u8>) -> Seq<Seq<u8>> {
    roots.filter(|root: Seq<u8>| paths::under(root, above))
}

fn roots_within(roots: &[Vec<u8>], above: &[u8]) -> (list: Vec<Vec<u8>>)
    ensures
        bytes::texts(list@) == within(bytes::texts(roots@), above@),
{
    let ghost all = bytes::texts(roots@);
    let ghost keep = |root: Seq<u8>| paths::under(root, above@);
    let mut list: Vec<Vec<u8>> = Vec::new();
    let mut at: usize = 0;
    proof {
        reveal(Seq::filter);
        assert(bytes::texts(list@) =~= all.take(0).filter(keep));
    }
    while at < roots.len()
        invariant
            at <= roots@.len(),
            all == bytes::texts(roots@),
            keep == (|root: Seq<u8>| paths::under(root, above@)),
            bytes::texts(list@) == all.take(at as int).filter(keep),
        decreases roots.len() - at,
    {
        let ghost before = bytes::texts(list@);
        let below = paths::is_under(roots[at].as_slice(), above);
        proof {
            reveal(Seq::filter);
            assert(all.take(at + 1).drop_last() =~= all.take(at as int));
            assert(all.take(at + 1).last() == all[at as int]);
            assert(keep(all[at as int]) == below);
        }
        if below {
            list.push(bytes::copy_bytes(roots[at].as_slice()));
            assert(bytes::texts(list@) =~= before.push(all[at as int]));
        }
        at += 1;
    }
    assert(all.take(at as int) =~= all);
    list
}

/// The rules that deny roots and allow again what lies within them, one root
/// after the other.
pub open spec fn reopened_rules(reopened: Seq<Seq<u8>>, roots: Seq<Seq<u8>>) -> Seq<char>
    decreases reopened.len(),
{
    if reopened.len() == 0 {
        Seq::empty()
    } else {
        reopened_rules(reopened.drop_last(), roots) + "(deny file-read* (subpath \""@
            + path_literal(reopened.last()) + "\"))\n"@ + wrapped(
            "(allow file-read* (subpath \""@,
            path_literals(within(roots, reopened.last())),
            "\"))\n"@,
        )
    }
}

fn append_reopened(sb: &mut String, reopened: &[Vec<u8>], roots: &[Vec<u8>])
    ensures
        final(sb)@ == old(sb)@ + reopened_rules(bytes::texts(reopened@), bytes::texts(roots@)),
{
    let ghost all = bytes::texts(reopened@);
    let ghost below = bytes::texts(roots@);
    let mut at: usize = 0;
    assert(sb@ =~= old(sb)@ + reopened_rules(all.take(0), below));
    while at < reopened.len()
        invariant
            at <= reopened@.len(),
            all == bytes::texts(reopened@),
            below == bytes::texts(roots@),
            sb@ == old(sb)@ + reopened_rules(all.take(at as int), below),
        decreases reopened.len() - at,
    {
        let shown = text::show(reopened[at].as_slice());
        let literal = escape_sbpl_literal(shown.as_str());
        let list = roots_within(roots, reopened[at].as_slice());
        assert(all.take(at + 1).drop_last() =~= all.take(at as int));
        assert(all.take(at + 1).last() == reopened@[at as int]@);
        sb.append("(deny file-read* (subpath \"");
        sb.append(literal.as_str());
        sb.append("\"))\n");
        append_paths(sb, "(allow file-read* (subpath \"", list.as_slice(), "\"))\n");
        assert(sb@ =~= old(sb)@ + reopened_rules(all.take(at + 1), below));
        at += 1;
    }
    assert(all.take(at as int) =~= all);
}

/// Whether rules deny roots but for the read roots within them, each root
/// before those within it, so that the most specific comes last.
#[verifier::opaque]
pub open spec fn reopens(
    rules: Seq<char>,
    reopened: Seq<Seq<u8>>,
    roots: Seq<Seq<u8>>,
) -> bool {
    exists|list: Seq<Seq<u8>>|
        paths::is_root_set(list, all_named(reopened)) && rules == #[trigger] reopened_rules(
            list,
            all_named(roots),
        )
}

/// Adds rules that deny roots but for the read roots within them.
pub fn render_reopened_rules(
    sb: &mut String,
    read_reopened_roots: &[Vec<u8>],
    roots: &[Vec<u8>],
)
    ensures
        exists|rules: Seq<char>|
            #[trigger] reopens(
                rules,
                bytes::texts(read_reopened_roots@),
                bytes::texts(roots@),
            ) && final(sb)@ == old(sb)@ + rules,
{
    let mut list = named_paths(read_reopened_roots);
    paths::normalize_roots(&mut list);
    let below = named_paths(roots);
    append_reopened(sb, list.as_slice(), below.as_slice());
    proof {
        let rules = reopened_rules(bytes::texts(list@), bytes::texts(below@));
        assert(reopens(rules, bytes::texts(read_reopened_roots@), bytes::texts(roots@))) by {
            reveal(reopens);
        }
    }
}

/// Whether rules let exactly the allowed reads pass.
pub open spec fn read_rules(
    rules: Seq<char>,
    access: ReadAccess,
    denied: Seq<Seq<u8>>,
    reopened: Seq<Seq<u8>>,
    symlinks: Seq<Seq<u8>>,
) -> bool {
    match access {
        ReadAccess::Unrestricted => rules == "(allow file-read*)\n"@,
        ReadAccess::AllowRoots(roots) => exists|parts: Seq<char>, parents: Seq<char>| #[trigger]
            reopens(parts, reopened, bytes::texts(roots@)) && #[trigger] parent_rules(
                parents,
                bytes::texts(roots@),
            ) && rules == "(deny file-read*)\n(allow file-read* (literal \"/\"))\n"@ + wrapped(
                "(allow file-read* (subpath \""@,
                path_literals(bytes::texts(roots@)),
                "\"))\n"@,
            ) + parts + parents + symlink_rules(symlinks) + wrapped(
                "(deny file-read* (subpath \""@,
                path_literals(denied),
                "\"))\n"@,
            ),
    }
}

/// Adds the rules on reading: under restricted reads nothing but the roots, the
/// way to them and the links on it, and after them what is denied. What is
/// denied but for the roots within it comes behind the roots.
pub fn render_read_rules(
    sb: &mut String,
    read_access: &ReadAccess,
    read_denied_roots: &[Vec<u8>],
    read_reopened_roots: &[Vec<u8>],
    read_symlinks: &[Vec<u8>],
)
    ensures
        exists|rules: Seq<char>|
            #[trigger] read_rules(
                rules,
                *read_access,
                bytes::texts(read_denied_roots@),
                bytes::texts(read_reopened_roots@),
                bytes::texts(read_symlinks@),
            ) && final(sb)@ == old(sb)@ + rules,
{
    match read_access {
        ReadAccess::Unrestricted => {
            sb.append("(allow file-read*)\n");
            assert(read_rules(
                "(allow file-read*)\n"@,
                *read_access,
                bytes::texts(read_denied_roots@),
                bytes::texts(read_reopened_roots@),
                bytes::texts(read_symlinks@),
            ));
        },
        ReadAccess::AllowRoots(roots) => {
            let ghost begin = sb@;
            sb.append("(deny file-read*)\n(allow file-read* (literal \"/\"))\n");
            let ghost head = "(deny file-read*)\n(allow file-read* (literal \"/\"))\n"@;
            append_paths(sb, "(allow file-read* (subpath \"", roots.as_slice(), "\"))\n");
            let ghost allowed = head + wrapped(
                "(allow file-read* (subpath \""@,
                path_literals(bytes::texts(roots@)),
                "\"))\n"@,
            );
            assert(sb@ =~= begin + allowed);
            render_reopened_rules(sb, read_reopened_roots, roots.as_slice());
            let ghost parts = choose|rules: Seq<char>|
                #[trigger] reopens(
                    rules,
                    bytes::texts(read_reopened_roots@),
                    bytes::texts(roots@),
                ) && sb@ == begin + allowed + rules;
            let ghost opened = allowed + parts;
            assert(sb@ =~= begin + opened);
            render_parent_dir_rules(sb, roots.as_slice());
            let ghost parents = choose|rules: Seq<char>|
                #[trigger] parent_rules(rules, bytes::texts(roots@)) && sb@ == begin + opened
                    + rules;
            let ghost walked = opened + parents;
            assert(sb@ =~= begin + walked);
            render_symlink_metadata_rules(sb, read_symlinks);
            let ghost linked = walked + symlink_rules(bytes::texts(read_symlinks@));
            assert(sb@ =~= begin + linked);
            append_paths(sb, "(deny file-read* (subpath \"", read_denied_roots, "\"))\n");
            let ghost rules = linked + wrapped(
                "(deny file-read* (subpath \""@,
                path_literals(bytes::texts(read_denied_roots@)),
                "\"))\n"@,
            );
            assert(sb@ =~= begin + rules);
            assert(reopens(parts, bytes::texts(read_reopened_roots@), bytes::texts(roots@)));
            assert(parent_rules(parents, bytes::texts(roots@)));
            assert(read_rules(
                rules,
                *read_access,
                bytes::texts(read_denied_roots@),
                bytes::texts(read_reopened_roots@),
                bytes::texts(read_symlinks@),
            ));
        },
    }
}

/// The rules that let a port of the machine be connected to.
pub open spec fn port_rules(ports: Seq<u16>) -> Seq<char> {
    wrapped(
        "(allow network-outbound (remote tcp \"localhost:"@,
        ports.map_values(|port: u16| text::decimal(port as nat)),
        "\"))\n"@,
    )
}

/// The rules on Unix sockets. Each allowed path may be connected to and bound.
pub open spec fn socket_rules(access: UnixSocketAccess) -> Seq<char> {
    match access {
        UnixSocketAccess::Unrestricted => {
            "(allow network-outbound (remote unix-socket))\n(allow network-bind (local unix-socket))\n"@
        },
        UnixSocketAccess::AllowPaths(list) => socket_path_rules(bytes::texts(list@)),
        UnixSocketAccess::Denied => Seq::empty(),
    }
}

/// The rules that let each path be connected to and bound.
pub open spec fn socket_path_rules(list: Seq<Seq<u8>>) -> Seq<char>
    decreases list.len(),
{
    if list.len() == 0 {
        Seq::empty()
    } else {
        socket_path_rules(list.drop_last())
            + "(allow network-outbound (remote unix-socket (subpath \""@ + path_literal(list.last())
            + "\")))\n(allow network-bind (local unix-socket (subpath \""@ + path_literal(
            list.last(),
        ) + "\")))\n"@
    }
}

/// The rules on local binding.
pub open spec fn local_rules() -> Seq<char> {
    "(allow network-outbound (remote tcp \"localhost:*\"))\n(allow network-bind (local tcp \"localhost:*\"))\n(allow network-inbound (local tcp \"localhost:*\"))\n(allow network-outbound (remote udp \"localhost:*\"))\n(allow network-bind (local udp \"localhost:*\"))\n(allow network-inbound (local udp \"localhost:*\"))\n"@
}

/// The rules on the network: everything, or nothing but the allowed ports, the
/// machine itself where local binding is allowed, and the allowed sockets.
pub open spec fn network_rules(access: NetworkAccess) -> Seq<char> {
    match access {
        NetworkAccess::Unrestricted => "(allow network*)\n"@,
        NetworkAccess::Restricted { connect_tcp_ports, unix_socket_access, .. } => {
            "(allow system-socket (socket-domain AF_UNIX))\n(deny network-outbound)\n"@
                + port_rules(connect_tcp_ports@) + (if policy::binds_locally(access) {
                local_rules()
            } else {
                Seq::empty()
            }) + socket_rules(unix_socket_access)
        },
    }
}

fn append_ports(sb: &mut String, ports: &[u16])
    ensures
        final(sb)@ == old(sb)@ + port_rules(ports@),
{
    let ghost front = "(allow network-outbound (remote tcp \"localhost:"@;
    let ghost back = "\"))\n"@;
    let ghost texts = ports@.map_values(|port: u16| text::decimal(port as nat));
    let mut at: usize = 0;
    assert(sb@ =~= old(sb)@ + wrapped(front, texts.take(0), back));
    while at < ports.len()
        invariant
            at <= ports@.len(),
            front == "(allow network-outbound (remote tcp \"localhost:"@,
            back == "\"))\n"@,
            texts == ports@.map_values(|port: u16| text::decimal(port as nat)),
            sb@ == old(sb)@ + wrapped(front, texts.take(at as int), back),
        decreases ports.len() - at,
    {
        let port = text::decimal_text(ports[at] as u64);
        assert(port@ == texts[at as int]);
        assert(texts.take(at + 1).drop_last() =~= texts.take(at as int));
        sb.append("(allow network-outbound (remote tcp \"localhost:");
        sb.append(port.as_str());
        sb.append("\"))\n");
        assert(sb@ =~= old(sb)@ + wrapped(front, texts.take(at + 1), back));
        at += 1;
    }
    assert(texts.take(at as int) =~= texts);
}

fn append_socket_paths(sb: &mut String, list: &[Vec<u8>])
    ensures
        final(sb)@ == old(sb)@ + socket_path_rules(bytes::texts(list@)),
{
    let ghost all = bytes::texts(list@);
    let mut at: usize = 0;
    assert(sb@ =~= old(sb)@ + socket_path_rules(all.take(0)));
    while at < list.len()
        invariant
            at <= list@.len(),
            all == bytes::texts(list@),
            sb@ == old(sb)@ + socket_path_rules(all.take(at as int)),
        decreases list.len() - at,
    {
        let shown = text::show(list[at].as_slice());
        let literal = escape_sbpl_literal(shown.as_str());
        assert(all.take(at + 1).drop_last() =~= all.take(at as int));
        assert(all.take(at + 1).last() == list@[at as int]@);
        sb.append("(allow network-outbound (remote unix-socket (subpath \"");
        sb.append(literal.as_str());
        sb.append("\")))\n(allow network-bind (local unix-socket (subpath \"");
        sb.append(literal.as_str());
        sb.append("\")))\n");
        assert(sb@ =~= old(sb)@ + socket_path_rules(all.take(at + 1)));
        at += 1;
    }
    assert(all.take(at as int) =~= all);
}

/// Adds the rules on the network.
pub fn render_network_rules(sb: &mut String, network: &NetworkAccess)
    ensures
        final(sb)@ == old(sb)@ + network_rules(*network),
{
    match network {
        NetworkAccess::Unrestricted => {
            sb.append("(allow network*)\n");
        },
        NetworkAccess::Restricted { connect_tcp_ports, unix_socket_access, .. } => {
            sb.append("(allow system-socket (socket-domain AF_UNIX))\n(deny network-outbound)\n");
            append_ports(sb, connect_tcp_ports.as_slice());
            if network.allows_local_binding() {
                sb.append(
                    "(allow network-outbound (remote tcp \"localhost:*\"))\n(allow network-bind (local tcp \"localhost:*\"))\n(allow network-inbound (local tcp \"localhost:*\"))\n(allow network-outbound (remote udp \"localhost:*\"))\n(allow network-bind (local udp \"localhost:*\"))\n(allow network-inbound (local udp \"localhost:*\"))\n",
                );
            }
            match unix_socket_access {
                UnixSocketAccess::Unrestricted => sb.append(
                    "(allow network-outbound (remote unix-socket))\n(allow network-bind (local unix-socket))\n",
                ),
                UnixSocketAccess::AllowPaths(list) => append_socket_paths(sb, list.as_slice()),
                UnixSocketAccess::Denied => {},
            }
        },
    }
    assert(sb@ =~= old(sb)@ + network_rules(*network));
}

/// Whether a profile is that of a policy.
pub open spec fn is_profile(profile: Seq<char>, policy: AccessPolicy) -> bool {
    exists|reads: Seq<char>|
        #[trigger] read_rules(
            reads,
            policy.read_access,
            bytes::texts(policy.read_denied_roots@),
            bytes::texts(policy.read_reopened_roots@),
            bytes::texts(policy.read_symlinks@),
        ) && profile == "(version 1)\n(deny default)\n"@ + process_rules() + mach_rules()
            + write_rules(
            bytes::texts(policy.write_roots@),
            bytes::texts(policy.write_denied_roots@),
            policy.write_denied_patterns@,
        ) + reads + network_rules(policy.network_access)
}

/// The profile of a policy: nothing is allowed but what its rules allow.
pub fn render_profile(policy: &AccessPolicy) -> (profile: String)
    ensures
        is_profile(profile@, *policy),
{
    let mut sb = "(version 1)\n(deny default)\n".to_owned();
    render_process_rules(&mut sb);
    render_mach_rules(&mut sb);
    render_write_rules(
        &mut sb,
        policy.write_roots.as_slice(),
        policy.write_denied_roots.as_slice(),
        policy.write_denied_patterns.as_slice(),
    );
    let ghost before = sb@;
    render_read_rules(
        &mut sb,
        &policy.read_access,
        policy.read_denied_roots.as_slice(),
        policy.read_reopened_roots.as_slice(),
        policy.read_symlinks.as_slice(),
    );
    let ghost reads = choose|rules: Seq<char>|
        #[trigger] read_rules(
            rules,
            policy.read_access,
            bytes::texts(policy.read_denied_roots@),
            bytes::texts(policy.read_reopened_roots@),
            bytes::texts(policy.read_symlinks@),
        ) && sb@ == before + rules;
    render_network_rules(&mut sb, &policy.network_access);
    proof {
        assert(read_rules(
            reads,
            policy.read_access,
            bytes::texts(policy.read_denied_roots@),
            bytes::texts(policy.read_reopened_roots@),
            bytes::texts(policy.read_symlinks@),
        ));
    }
    sb
}

/// Where a profile cannot be handed over because a null byte would end it.
pub open spec fn profile_text(offset: nat) -> Seq<char> {
    "profile: interior nul at offset "@ + text::decimal(offset)
}

/// Whether a profile can be handed over as a string.
pub fn check_profile(profile: &str) -> (result: Result<(), Error>)
    ensures
        ({
            let bytes = vstd::utf8::encode_utf8(profile@);
            let offset = bytes::index_from(bytes, 0, 0);
            if offset < bytes.len() {
                result matches Err(Error::SandboxSetupFailed { mechanism, source }) && mechanism
                    == Mechanism::Seatbelt && source.errno is None && source.message@
                    == profile_text(offset as nat) && source.below@.len() == 0
            } else {
                result is Ok
            }
        }),
{
    let bytes = profile.as_bytes();
    let offset = bytes::find_byte(bytes, 0, 0);
    proof {
        bytes::lemma_index_from_unique(bytes@, 0, 0, offset as int);
    }
    if offset < bytes.len() {
        let mut message = "profile: interior nul at offset ".to_owned();
        message.append(text::decimal_text(offset as u64).as_str());
        return Err(
            Error::sandbox_setup(
                Mechanism::Seatbelt,
                Cause { errno: None, message, below: Vec::new() },
            ),
        );
    }
    Ok(())
}

/// What the sandbox said of a profile that it rejected.
pub fn take_sandbox_error(message: Option<String>) -> (told: String)
    ensures
        told@ == (match message {
            Some(message) => message@,
            None => "sandbox_init failed without an error message"@,
        }),
{
    match message {
        Some(message) => message,
        None => "sandbox_init failed without an error message".to_owned(),
    }
}

/// The character that an escape stands for.
pub open spec fn unescaped_char(character: char) -> char {
    if character == 'n' {
        '\n'
    } else {
        character
    }
}

/// What a literal says from behind its opening quote on, and what follows it.
pub open spec fn literal_read(rest: Seq<char>) -> Option<(Seq<char>, Seq<char>)>
    decreases rest.len(),
{
    if rest.len() == 0 {
        None
    } else if rest[0] == '"' {
        Some((Seq::empty(), rest.skip(1)))
    } else if rest[0] == '\\' {
        if rest.len() == 1 {
            None
        } else {
            match literal_read(rest.skip(2)) {
                Some((said, after)) => Some((seq![unescaped_char(rest[1])] + said, after)),
                None => None,
            }
        }
    } else {
        match literal_read(rest.skip(1)) {
            Some((said, after)) => Some((seq![rest[0]] + said, after)),
            None => None,
        }
    }
}

proof fn lemma_escaped_front(first: char, rest: Seq<char>)
    ensures
        escaped(seq![first] + rest) == escaped_char(first) + escaped(rest),
    decreases rest.len(),
{
    let whole = seq![first] + rest;
    if rest.len() == 0 {
        assert(whole.drop_last() =~= Seq::empty());
        assert(rest =~= Seq::empty());
        assert(escaped(Seq::empty()) =~= Seq::empty());
        assert(whole.last() == first);
        assert(escaped(whole) =~= escaped_char(first) + escaped(rest));
    } else {
        assert(whole.drop_last() =~= seq![first] + rest.drop_last());
        lemma_escaped_front(first, rest.drop_last());
        assert(escaped(whole) =~= escaped_char(first) + escaped(rest));
    }
}

/// A path in a rule reads as that path: the literal ends where it was ended,
/// and nothing in the path can end it earlier or add a rule.
pub proof fn law_literal_reads_back(path: Seq<char>, after: Seq<char>)
    ensures
        literal_read(escaped(path) + seq!['"'] + after) == Some((path, after)),
    decreases path.len(),
{
    let whole = escaped(path) + seq!['"'] + after;
    if path.len() == 0 {
        assert(whole =~= seq!['"'] + after);
        assert(whole.skip(1) =~= after);
        assert(path =~= Seq::empty());
    } else {
        let first = path[0];
        let rest = path.skip(1);
        assert(path =~= seq![first] + rest);
        lemma_escaped_front(first, rest);
        law_literal_reads_back(rest, after);
        let tail = escaped(rest) + seq!['"'] + after;
        assert(whole =~= escaped_char(first) + tail);
        if first == '"' || first == '\\' || first == '\n' {
            assert(whole.skip(2) =~= tail);
        } else {
            assert(whole.skip(1) =~= tail);
        }
    }
}

/// Nothing in a pattern can end its literal: every quote in it follows a
/// backslash, and it stays on one line.
pub proof fn law_regex_literal_stays_closed(regex: Seq<char>, at: int)
    requires
        0 <= at < escaped_regex(regex).len(),
    ensures
        escaped_regex(regex)[at] == '"' ==> at > 0 && escaped_regex(regex)[at - 1] == '\\',
        escaped_regex(regex)[at] != '\n',
    decreases regex.len(),
{
    if regex.len() > 0 {
        let front = escaped_regex(regex.drop_last());
        if at < front.len() {
            law_regex_literal_stays_closed(regex.drop_last(), at);
        }
    }
}

/// Rules are written item by item, each between the same two texts.
pub proof fn law_each_item_has_its_rule(
    front: Seq<char>,
    items: Seq<Seq<char>>,
    back: Seq<char>,
    item: Seq<char>,
)
    ensures
        wrapped(front, Seq::empty(), back).len() == 0,
        wrapped(front, items.push(item), back) == wrapped(front, items, back) + front + item + back,
{
    assert(items.push(item).drop_last() =~= items);
}

/// Each allowed port has its rule, and so has each allowed Unix socket, for
/// connecting and for binding.
pub proof fn law_each_port_and_socket_has_its_rule(
    ports: Seq<u16>,
    port: u16,
    sockets: Seq<Seq<u8>>,
    socket: Seq<u8>,
)
    ensures
        port_rules(Seq::empty()).len() == 0,
        port_rules(ports.push(port)) == port_rules(ports)
            + "(allow network-outbound (remote tcp \"localhost:"@ + text::decimal(port as nat)
            + "\"))\n"@,
        socket_path_rules(Seq::empty()).len() == 0,
        socket_path_rules(sockets.push(socket)) == socket_path_rules(sockets)
            + "(allow network-outbound (remote unix-socket (subpath \""@ + path_literal(socket)
            + "\")))\n(allow network-bind (local unix-socket (subpath \""@ + path_literal(socket)
            + "\")))\n"@,
{
    let texts = ports.map_values(|port: u16| text::decimal(port as nat));
    assert(ports.push(port).map_values(|port: u16| text::decimal(port as nat)) =~= texts.push(
        text::decimal(port as nat),
    ));
    law_each_item_has_its_rule(
        "(allow network-outbound (remote tcp \"localhost:"@,
        texts,
        "\"))\n"@,
        text::decimal(port as nat),
    );
    assert(Seq::<u16>::empty().map_values(|port: u16| text::decimal(port as nat)) =~= Seq::empty());
    assert(sockets.push(socket).drop_last() =~= sockets);
}

/// The rules on the network are those of its ports, of local addresses where
/// they may be bound, and of its Unix sockets: all, the listed ones or none.
pub proof fn law_network_rules_hold_what_is_allowed(access: NetworkAccess)
    ensures
        access is Unrestricted ==> network_rules(access) == "(allow network*)\n"@,
        access is Restricted ==> ({
            let local = if access->bind == policy::IpBindAccess::Localhost {
                local_rules()
            } else {
                Seq::empty()
            };
            let sockets = access->unix_socket_access;
            let start = "(allow system-socket (socket-domain AF_UNIX))\n(deny network-outbound)\n"@
                + port_rules(access->connect_tcp_ports@) + local;
            &&& sockets is Denied ==> network_rules(access) == start
            &&& sockets is AllowPaths ==> network_rules(access) == start + socket_path_rules(
                bytes::texts(sockets->AllowPaths_0@),
            )
            &&& sockets is Unrestricted ==> network_rules(access) == start
                + "(allow network-outbound (remote unix-socket))\n(allow network-bind (local unix-socket))\n"@
        }),
{
    if access is Restricted {
        let local = if access->bind == policy::IpBindAccess::Localhost {
            local_rules()
        } else {
            Seq::empty()
        };
        let start = "(allow system-socket (socket-domain AF_UNIX))\n(deny network-outbound)\n"@
            + port_rules(access->connect_tcp_ports@) + local;
        assert(start + Seq::<char>::empty() =~= start);
    }
}

/// A profile starts closed, and then holds its rules in one order: processes,
/// services, writes, reads and the network, so that what is denied comes after
/// what is allowed.
pub proof fn law_profiles_deny_after_they_allow(profile: Seq<char>, policy: AccessPolicy)
    requires
        is_profile(profile, policy),
    ensures
        exists|reads: Seq<char>|
            #[trigger] read_rules(
                reads,
                policy.read_access,
                bytes::texts(policy.read_denied_roots@),
                bytes::texts(policy.read_reopened_roots@),
                bytes::texts(policy.read_symlinks@),
            ) && profile == "(version 1)\n(deny default)\n"@ + process_rules() + mach_rules()
                + wrapped(
                "(allow file-write* (subpath \""@,
                path_literals(bytes::texts(policy.write_roots@)),
                "\"))\n"@,
            ) + wrapped(
                "(deny file-write* (subpath \""@,
                path_literals(bytes::texts(policy.write_denied_roots@)),
                "\"))\n"@,
            ) + wrapped(
                "(deny file-write* (regex #\""@,
                policy.write_denied_patterns@.map_values(
                    |pattern: String| escaped_regex(regex_of(pattern@)),
                ),
                "\"))\n"@,
            ) + reads + network_rules(policy.network_access),
{
    let reads = choose|reads: Seq<char>| #[trigger]
        read_rules(
            reads,
            policy.read_access,
            bytes::texts(policy.read_denied_roots@),
            bytes::texts(policy.read_reopened_roots@),
            bytes::texts(policy.read_symlinks@),
        ) && profile == "(version 1)\n(deny default)\n"@ + process_rules() + mach_rules()
            + write_rules(
            bytes::texts(policy.write_roots@),
            bytes::texts(policy.write_denied_roots@),
            policy.write_denied_patterns@,
        ) + reads + network_rules(policy.network_access);
    let start = "(version 1)\n(deny default)\n"@ + process_rules() + mach_rules();
    let allowed = wrapped(
        "(allow file-write* (subpath \""@,
        path_literals(bytes::texts(policy.write_roots@)),
        "\"))\n"@,
    );
    let denied = wrapped(
        "(deny file-write* (subpath \""@,
        path_literals(bytes::texts(policy.write_denied_roots@)),
        "\"))\n"@,
    );
    let matched = wrapped(
        "(deny file-write* (regex #\""@,
        pattern_literals(policy.write_denied_patterns@),
        "\"))\n"@,
    );
    assert(pattern_literals(policy.write_denied_patterns@)
        =~= policy.write_denied_patterns@.map_values(
        |pattern: String| escaped_regex(regex_of(pattern@)),
    ));
    assert(start + (allowed + denied + matched) =~= start + allowed + denied + matched);
    assert(read_rules(
        reads,
        policy.read_access,
        bytes::texts(policy.read_denied_roots@),
        bytes::texts(policy.read_reopened_roots@),
        bytes::texts(policy.read_symlinks@),
    ));
}

/// Each directory above a root is listed, and nothing else is: the front of the
/// root for each number of its components but all of them.
pub proof fn law_each_directory_above_a_root_is_listed(
    roots: Seq<Seq<u8>>,
    at: int,
    count: nat,
    path: Seq<u8>,
)
    ensures
        0 <= at < roots.len() && 1 <= count < paths::components(roots[at]).len() ==> all_ancestors(
            roots,
        ).contains(paths::front_text(roots[at], count)),
        all_ancestors(roots).contains(path) ==> exists|i: int, k: nat|
            0 <= i < roots.len() && 1 <= k < paths::components(roots[i]).len() && path
                == #[trigger] paths::front_text(roots[i], k),
    decreases roots.len(),
{
    if roots.len() > 0 {
        let less = roots.drop_last();
        let rest = all_ancestors(less);
        let last = roots.last();
        let own = ancestors_of(last);
        let all = all_ancestors(roots);
        law_each_directory_above_a_root_is_listed(less, at, count, path);
        if 0 <= at < roots.len() && 1 <= count < paths::components(roots[at]).len() {
            let text = paths::front_text(roots[at], count);
            if at < less.len() {
                assert(less[at] == roots[at]);
                let j = choose|j: int| 0 <= j < rest.len() && rest[j] == text;
                assert(all[j] == text);
            } else {
                let j = paths::components(last).len() - 1 - count;
                assert(own[j] == text);
                assert(all[rest.len() + j] == text);
            }
        }
        if all.contains(path) {
            let j = choose|j: int| 0 <= j < all.len() && all[j] == path;
            if j < rest.len() {
                assert(rest[j] == path);
                let (i, k) = choose|i: int, k: nat|
                    0 <= i < less.len() && 1 <= k < paths::components(less[i]).len() && path
                        == #[trigger] paths::front_text(less[i], k);
                assert(roots[i] == less[i]);
                assert(path == paths::front_text(roots[i], k));
            } else {
                let k = (paths::components(last).len() - 1 - (j - rest.len())) as nat;
                let i = roots.len() - 1;
                assert(own[j - rest.len()] == path);
                assert(path == paths::front_text(roots[i], k));
            }
        }
    }
}

/// A class in brackets is written as it is in an expression, and a bracket that
/// is not closed stands for itself.
pub proof fn law_classes_are_written_as_they_are(class: Seq<char>, rest: Seq<char>)
    requires
        forall|i: int| 0 <= i < class.len() ==> class[i] != ']',
    ensures
        regex_body(seq!['['] + class + seq![']'] + rest) == seq!['['] + class + seq![']']
            + regex_body(rest),
        regex_body(seq!['['] + class) == "\\["@ + regex_body(class),
{
    let whole = seq!['['] + class + seq![']'] + rest;
    let end = class.len() as int + 1;
    assert(whole[0] == '[' && whole[end] == ']');
    assert forall|i: int| 1 <= i < end implies whole[i] != ']' by {
        assert(whole[i] == class[i - 1]);
    }
    lemma_class_ends(whole, 1, end);
    assert(whole.take(end + 1) =~= seq!['['] + class + seq![']']);
    assert(whole.skip(end + 1) =~= rest);
    let open = seq!['['] + class;
    assert(open[0] == '[');
    assert forall|i: int| 1 <= i < open.len() implies open[i] != ']' by {
        assert(open[i] == class[i - 1]);
    }
    lemma_class_ends(open, 1, open.len() as int);
    assert(open.skip(1) =~= class);
}

proof fn lemma_class_ends(pattern: Seq<char>, from: int, end: int)
    requires
        0 <= from <= end <= pattern.len(),
        end < pattern.len() ==> pattern[end] == ']',
        forall|i: int| from <= i < end ==> pattern[i] != ']',
    ensures
        class_end(pattern, from) == end,
    decreases end - from,
{
    if from < end {
        lemma_class_ends(pattern, from + 1, end);
    }
}

/// The links that a walk passed by may be looked at, each by itself. Where there
/// are none, there is no rule.
pub proof fn law_each_link_may_be_looked_at(links: Seq<Seq<u8>>, link: Seq<u8>)
    ensures
        symlink_rules(Seq::empty()).len() == 0,
        symlink_rules(links.push(link)) == "(allow file-read-metadata"@ + wrapped(
            "\n  (literal \""@,
            path_literals(links),
            "\")"@,
        ) + "\n  (literal \""@ + path_literal(link) + "\")"@ + ")\n"@,
{
    assert(path_literals(links.push(link)) =~= path_literals(links).push(path_literal(link)));
    law_each_item_has_its_rule(
        "\n  (literal \""@,
        path_literals(links),
        "\")"@,
        path_literal(link),
    );
    let start = "(allow file-read-metadata"@;
    let rest = wrapped("\n  (literal \""@, path_literals(links), "\")"@);
    let front = "\n  (literal \""@;
    let literal = path_literal(link);
    let back = "\")"@;
    assert(start + (rest + front + literal + back) + ")\n"@ =~= start + rest + front + literal
        + back + ")\n"@);
}

} // verus!
