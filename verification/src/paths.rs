//! POSIX paths as byte strings.
//!
//! A path is compared by its components: repeated separators, interior `.`
//! components and a trailing separator carry no meaning. The root directory is
//! the component `/`, which no other component can equal.

use crate::bytes;
use crate::order;
use crate::order::Relation;
use vstd::prelude::*;

verus! {

/// `/`
pub const SLASH: u8 = 0x2f;

/// `.`
pub const DOT: u8 = 0x2e;

/// The length of the text before the first separator.
pub open spec fn segment_len(path: Seq<u8>) -> int {
    bytes::index_from(path, SLASH, 0)
}

/// What follows the first separator.
pub open spec fn after_segment(path: Seq<u8>) -> Seq<u8> {
    if segment_len(path) < path.len() {
        path.skip(segment_len(path) + 1)
    } else {
        Seq::empty()
    }
}

/// Whether a segment is a component wherever it stands.
pub open spec fn is_name(segment: Seq<u8>) -> bool {
    segment.len() > 0 && segment != seq![DOT]
}

/// The components of a path that does not start at the root.
pub open spec fn names(path: Seq<u8>) -> Seq<Seq<u8>>
    decreases path.len(),
{
    if path.len() == 0 {
        Seq::empty()
    } else {
        proof {
            bytes::lemma_index_from(path, SLASH, 0);
        }
        let segment = path.take(segment_len(path));
        let rest = names(after_segment(path));
        if is_name(segment) {
            seq![segment] + rest
        } else {
            rest
        }
    }
}

/// Whether a path starts at the root directory.
pub open spec fn is_rooted(path: Seq<u8>) -> bool {
    path.len() > 0 && path[0] == SLASH
}

/// Whether a relative path starts with an explicit `.` component.
pub open spec fn starts_at_dot(path: Seq<u8>) -> bool {
    path.len() > 0 && path.take(segment_len(path)) == seq![DOT]
}

/// The components of a path. A leading `.` of a relative path is one.
pub open spec fn components(path: Seq<u8>) -> Seq<Seq<u8>> {
    if is_rooted(path) {
        seq![seq![SLASH]] + names(path)
    } else if starts_at_dot(path) {
        seq![seq![DOT]] + names(path)
    } else {
        names(path)
    }
}

/// Whether two paths have the same components.
pub open spec fn same_path(left: Seq<u8>, right: Seq<u8>) -> bool {
    components(left) == components(right)
}

/// Whether `path` is `root` or lies in the subtree below it.
pub open spec fn under(path: Seq<u8>, root: Seq<u8>) -> bool {
    components(root).is_prefix_of(components(path))
}

/// Whether `path` lies below `root` and is not `root` itself.
pub open spec fn strictly_under(path: Seq<u8>, root: Seq<u8>) -> bool {
    under(path, root) && !same_path(path, root)
}

/// Whether `path` is covered by one of `roots`.
pub open spec fn under_any(path: Seq<u8>, roots: Seq<Seq<u8>>) -> bool {
    exists|i: int| 0 <= i < roots.len() && #[trigger] under(path, roots[i])
}

/// The components of `path`, the root directory as the component `/`.
pub fn path_components(path: &[u8]) -> (parts: Vec<Vec<u8>>)
    ensures
        bytes::texts(parts@) == components(path@),
{
    let mut parts: Vec<Vec<u8>> = Vec::new();
    let first = bytes::find_byte(path, SLASH, 0);
    let head = vstd::slice::slice_subrange(path, 0, first);
    assert(head@ == path@.take(first as int));
    if path.len() > 0 && path[0] == SLASH {
        parts.push(vec![SLASH]);
        assert(parts@[0]@ =~= seq![SLASH]);
        assert(bytes::texts(parts@) =~= seq![seq![SLASH]]);
    } else if head.len() == 1 && head[0] == DOT {
        assert(head@ =~= seq![DOT]);
        parts.push(vec![DOT]);
        assert(parts@[0]@ =~= seq![DOT]);
        assert(bytes::texts(parts@) =~= seq![seq![DOT]]);
    } else {
        assert(head@ != seq![DOT]);
        assert(bytes::texts(parts@) =~= Seq::<Seq<u8>>::empty());
    }
    let ghost start = bytes::texts(parts@);
    assert(components(path@) == start + names(path@));
    let mut at: usize = 0;
    assert(path@.skip(0) =~= path@);
    while at < path.len()
        invariant
            at <= path.len(),
            components(path@) == bytes::texts(parts@) + names(path@.skip(at as int)),
        decreases path.len() - at,
    {
        let ghost rest = path@.skip(at as int);
        let end = bytes::find_byte(path, SLASH, at);
        proof {
            bytes::lemma_index_from_unique(rest, SLASH, 0, end - at);
        }
        let segment = vstd::slice::slice_subrange(path, at, end);
        assert(segment@ =~= rest.take(end - at));
        let ghost before = bytes::texts(parts@);
        if segment.len() > 1 || (segment.len() == 1 && segment[0] != DOT) {
            assert(is_name(segment@));
            let ghost old_parts = parts@;
            parts.push(bytes::copy_bytes(segment));
            assert(bytes::texts(parts@) =~= before.push(segment@));
            assert(before.push(segment@) + names(after_segment(rest)) =~= before + (seq![segment@]
                + names(after_segment(rest))));
        } else {
            assert(segment.len() == 1 ==> segment@ =~= seq![DOT]);
            assert(!is_name(segment@));
        }
        if end < path.len() {
            at = end + 1;
            assert(after_segment(rest) =~= path@.skip(at as int));
        } else {
            at = end;
            assert(after_segment(rest) =~= path@.skip(at as int));
        }
    }
    assert(path@.skip(at as int) =~= Seq::<u8>::empty());
    assert(bytes::texts(parts@) + Seq::<Seq<u8>>::empty() =~= bytes::texts(parts@));
    parts
}


/// Whether two paths have the same components.
pub fn is_same_path(left: &[u8], right: &[u8]) -> (same: bool)
    ensures
        same == same_path(left@, right@),
{
    let relation = order::list_relation(&path_components(left), &path_components(right));
    proof {
        order::lemma_list_same(components(left@), components(right@));
    }
    match relation {
        Relation::Same => true,
        _ => false,
    }
}

/// Whether `path` is `root` or lies below it.
pub fn is_under(path: &[u8], root: &[u8]) -> (covered: bool)
    ensures
        covered == under(path@, root@),
{
    let parts = path_components(path);
    let prefix = path_components(root);
    if parts.len() < prefix.len() {
        return false;
    }
    let mut at: usize = 0;
    while at < prefix.len()
        invariant
            at <= prefix.len() <= parts.len(),
            bytes::texts(parts@) == components(path@),
            bytes::texts(prefix@) == components(root@),
            forall|i: int| 0 <= i < at ==> components(path@)[i] == components(root@)[i],
        decreases prefix.len() - at,
    {
        if !bytes::bytes_equal(parts[at].as_slice(), prefix[at].as_slice()) {
            assert(components(path@)[at as int] != components(root@)[at as int]);
            return false;
        }
        at += 1;
    }
    true
}

/// Whether `path` lies below `root` and is not `root` itself.
pub fn is_strictly_under(path: &[u8], root: &[u8]) -> (covered: bool)
    ensures
        covered == strictly_under(path@, root@),
{
    is_under(path, root) && !is_same_path(path, root)
}

/// Whether `path` is covered by one of `roots`.
pub fn is_under_any(path: &[u8], roots: &[Vec<u8>]) -> (covered: bool)
    ensures
        covered == under_any(path@, bytes::texts(roots@)),
{
    let mut at: usize = 0;
    while at < roots.len()
        invariant
            at <= roots.len(),
            forall|i: int| 0 <= i < at ==> !under(path@, #[trigger] bytes::texts(roots@)[i]),
        decreases roots.len() - at,
    {
        if is_under(path, roots[at].as_slice()) {
            assert(under(path@, bytes::texts(roots@)[at as int]));
            return true;
        }
        at += 1;
    }
    false
}

/// Whether a list names `path`, by its components.
pub open spec fn names_path(roots: Seq<Seq<u8>>, path: Seq<u8>) -> bool {
    exists|i: int| 0 <= i < roots.len() && #[trigger] same_path(roots[i], path)
}

/// Whether `roots` names `path`.
pub fn contains_path(roots: &[Vec<u8>], path: &[u8]) -> (found: bool)
    ensures
        found == names_path(bytes::texts(roots@), path@),
{
    let mut at: usize = 0;
    while at < roots.len()
        invariant
            at <= roots.len(),
            forall|i: int| 0 <= i < at ==> !same_path(#[trigger] bytes::texts(roots@)[i], path@),
        decreases roots.len() - at,
    {
        if is_same_path(roots[at].as_slice(), path) {
            assert(same_path(bytes::texts(roots@)[at as int], path@));
            return true;
        }
        at += 1;
    }
    false
}

/// A path appended to a base: a rooted path replaces the base, any other is
/// added behind a separator.
pub open spec fn joined(base: Seq<u8>, path: Seq<u8>) -> Seq<u8> {
    if is_rooted(path) || base.len() == 0 {
        path
    } else if base.last() == SLASH {
        base + path
    } else {
        base.push(SLASH) + path
    }
}

/// Appends `path` to `base`.
pub fn join(base: &[u8], path: &[u8]) -> (whole: Vec<u8>)
    ensures
        whole@ == joined(base@, path@),
{
    if base.len() == 0 || (path.len() > 0 && path[0] == SLASH) {
        return bytes::copy_bytes(path);
    }
    let mut whole = bytes::copy_bytes(base);
    if base[base.len() - 1] != SLASH {
        whole.push(SLASH);
    }
    bytes::append_bytes(&mut whole, path);
    whole
}

/// Names joined by single separators.
pub open spec fn joined_names(parts: Seq<Seq<u8>>) -> Seq<u8>
    decreases parts.len(),
{
    if parts.len() == 0 {
        Seq::empty()
    } else if parts.len() == 1 {
        parts[0]
    } else {
        parts[0].push(SLASH) + joined_names(parts.drop_first())
    }
}

/// The text of a component list.
pub open spec fn path_text(parts: Seq<Seq<u8>>) -> Seq<u8> {
    if parts.len() > 0 && parts[0] == seq![SLASH] {
        seq![SLASH] + joined_names(parts.drop_first())
    } else {
        joined_names(parts)
    }
}

/// Whether a component can stand anywhere but at the root.
pub open spec fn is_plain(component: Seq<u8>) -> bool {
    is_name(component) && !component.contains(SLASH)
}

/// Component lists that name a path without `.` components.
pub open spec fn well_formed(parts: Seq<Seq<u8>>) -> bool {
    forall|i: int|
        0 <= i < parts.len() ==> is_plain(#[trigger] parts[i]) || (i == 0 && parts[i]
            == seq![SLASH])
}

proof fn lemma_names_shape(path: Seq<u8>)
    ensures
        forall|i: int| 0 <= i < names(path).len() ==> is_plain(#[trigger] names(path)[i]),
    decreases path.len(),
{
    if path.len() > 0 {
        bytes::lemma_index_from(path, SLASH, 0);
        lemma_names_shape(after_segment(path));
        let segment = path.take(segment_len(path));
        assert(!segment.contains(SLASH));
        let rest = names(after_segment(path));
        assert forall|i: int| 0 <= i < names(path).len() implies is_plain(
            #[trigger] names(path)[i],
        ) by {
            if is_name(segment) {
                if i == 0 {
                    assert(names(path)[i] == segment);
                } else {
                    assert(names(path)[i] == rest[i - 1]);
                }
            }
        }
    }
}

/// Every component is a name, `/` or a leading `.`.
pub proof fn lemma_components_shape(path: Seq<u8>)
    ensures
        forall|i: int|
            0 <= i < components(path).len() ==> is_plain(#[trigger] components(path)[i]) || (i == 0
                && (components(path)[i] == seq![SLASH] || components(path)[i] == seq![DOT])),
{
    lemma_names_shape(path);
}

proof fn lemma_names_of_joined(parts: Seq<Seq<u8>>)
    requires
        forall|i: int| 0 <= i < parts.len() ==> is_plain(#[trigger] parts[i]),
    ensures
        names(joined_names(parts)) == parts,
        !is_rooted(joined_names(parts)),
        !starts_at_dot(joined_names(parts)),
    decreases parts.len(),
{
    let text = joined_names(parts);
    if parts.len() == 0 {
        assert(names(text) =~= parts);
    } else {
        let head = parts[0];
        assert(is_plain(head));
        assert forall|i: int| 0 <= i < head.len() implies text[i] != SLASH by {
            assert(text[i] == head[i]);
            assert(head.contains(head[i]));
        }
        assert(text[0] != SLASH);
        if parts.len() == 1 {
            bytes::lemma_index_from_unique(text, SLASH, 0, head.len() as int);
            assert(text.take(segment_len(text)) =~= head);
            assert(names(after_segment(text)) =~= Seq::<Seq<u8>>::empty());
            assert(names(text) =~= parts);
        } else {
            let rest = parts.drop_first();
            assert forall|i: int| 0 <= i < rest.len() implies is_plain(#[trigger] rest[i]) by {
                assert(rest[i] == parts[i + 1]);
            }
            lemma_names_of_joined(rest);
            assert(text[head.len() as int] == SLASH);
            bytes::lemma_index_from_unique(text, SLASH, 0, head.len() as int);
            assert(text.take(segment_len(text)) =~= head);
            assert(after_segment(text) =~= joined_names(rest));
            assert(names(text) =~= parts);
        }
    }
}

/// The text of a component list has exactly those components.
pub proof fn lemma_components_of_text(parts: Seq<Seq<u8>>)
    requires
        well_formed(parts),
    ensures
        components(path_text(parts)) == parts,
{
    let text = path_text(parts);
    if parts.len() > 0 && parts[0] == seq![SLASH] {
        let rest = parts.drop_first();
        assert forall|i: int| 0 <= i < rest.len() implies is_plain(#[trigger] rest[i]) by {
            assert(rest[i] == parts[i + 1]);
        }
        lemma_names_of_joined(rest);
        assert(text[0] == SLASH);
        bytes::lemma_index_from_unique(text, SLASH, 0, 0);
        assert(after_segment(text) =~= joined_names(rest));
        assert(text.take(0) =~= Seq::<u8>::empty());
        assert(names(text) == names(joined_names(rest)));
        assert(components(text) =~= parts);
    } else {
        assert forall|i: int| 0 <= i < parts.len() implies is_plain(#[trigger] parts[i]) by {
            if !is_plain(parts[i]) {
                assert(parts[0] == seq![SLASH]);
            }
        }
        lemma_names_of_joined(parts);
        assert(components(text) =~= parts);
    }
}

/// A separator parts a path's names.
pub proof fn lemma_names_around_separator(front: Seq<u8>, back: Seq<u8>)
    ensures
        names(front.push(SLASH) + back) == names(front) + names(back),
    decreases front.len(),
{
    let whole = front.push(SLASH) + back;
    let count = segment_len(front);
    bytes::lemma_index_from(front, SLASH, 0);
    assert(whole[count] == SLASH);
    assert forall|i: int| 0 <= i < count implies whole[i] != SLASH by {
        assert(whole[i] == front[i]);
    }
    bytes::lemma_index_from_unique(whole, SLASH, 0, count);
    assert(whole.take(count) =~= front.take(count));
    if count < front.len() {
        let rest = after_segment(front);
        lemma_names_around_separator(rest, back);
        assert(after_segment(whole) =~= rest.push(SLASH) + back);
        assert(names(whole) =~= names(front) + names(back));
    } else {
        assert(after_segment(whole) =~= back);
        assert(front.take(count) =~= front);
        assert(names(Seq::empty()) =~= Seq::empty());
        assert(names(whole) =~= names(front) + names(back));
    }
}

/// A separator behind a path leaves its first segment alone.
pub proof fn lemma_first_segment_stays(front: Seq<u8>, back: Seq<u8>)
    ensures
        segment_len(front.push(SLASH) + back) == segment_len(front),
        (front.push(SLASH) + back).take(segment_len(front)) == front.take(segment_len(front)),
{
    let whole = front.push(SLASH) + back;
    let count = segment_len(front);
    bytes::lemma_index_from(front, SLASH, 0);
    assert(whole[count] == SLASH);
    assert forall|i: int| 0 <= i < count implies whole[i] != SLASH by {
        assert(whole[i] == front[i]);
    }
    bytes::lemma_index_from_unique(whole, SLASH, 0, count);
    assert(whole.take(count) =~= front.take(count));
}

/// A text without separators holds at most one name.
pub proof fn lemma_single_segment(path: Seq<u8>)
    requires
        !path.contains(SLASH),
    ensures
        names(path) == (if is_name(path) {
            seq![path]
        } else {
            Seq::empty()
        }),
{
    assert forall|i: int| 0 <= i < path.len() implies path[i] != SLASH by {
        assert(path.contains(path[i]));
    }
    bytes::lemma_index_from_unique(path, SLASH, 0, path.len() as int);
    assert(path.take(path.len() as int) =~= path);
    assert(names(Seq::empty()) =~= Seq::empty());
    assert(names(path) =~= (if is_name(path) {
        seq![path]
    } else {
        Seq::empty()
    }));
}

/// Where the last separator of a path stands.
pub proof fn lemma_last_separator(path: Seq<u8>) -> (at: int)
    requires
        path.contains(SLASH),
    ensures
        0 <= at < path.len(),
        path[at] == SLASH,
        !path.skip(at + 1).contains(SLASH),
    decreases path.len(),
{
    let last = path.len() - 1;
    if path[last] == SLASH {
        assert(path.skip(last + 1).len() == 0);
        last
    } else {
        let shorter = path.drop_last();
        let i = choose|i: int| 0 <= i < path.len() && path[i] == SLASH;
        assert(shorter[i] == SLASH);
        let at = lemma_last_separator(shorter);
        let tail = path.skip(at + 1);
        assert forall|j: int| 0 <= j < tail.len() implies tail[j] != SLASH by {
            if j < tail.len() - 1 {
                assert(shorter.skip(at + 1)[j] == tail[j]);
                assert(shorter.skip(at + 1).contains(tail[j]));
            }
        }
        at
    }
}

/// The components with every `.` dropped and every `..` taking its name with
/// it. The root directory is its own parent.
pub open spec fn lexical(parts: Seq<Seq<u8>>) -> Seq<Seq<u8>>
    decreases parts.len(),
{
    if parts.len() == 0 {
        Seq::empty()
    } else {
        let before = lexical(parts.drop_last());
        let last = parts.last();
        if last == seq![DOT] {
            before
        } else if last == seq![DOT, DOT] {
            if before.len() == 0 || before.last() == seq![DOT, DOT] {
                before.push(last)
            } else if before.last() == seq![SLASH] {
                before
            } else {
                before.drop_last()
            }
        } else {
            before.push(last)
        }
    }
}

/// `path` in lexically normal form.
pub open spec fn normalized(path: Seq<u8>) -> Seq<u8> {
    path_text(lexical(components(path)))
}

/// Component lists that lexical normalization leaves alone: no `.`, the root
/// only in front, and `..` only before every name of a relative path.
pub open spec fn is_normal(parts: Seq<Seq<u8>>) -> bool {
    &&& well_formed(parts)
    &&& forall|i: int|
        #![trigger parts[i]]
        0 < i < parts.len() && parts[i] == seq![DOT, DOT] ==> parts[i - 1] == seq![DOT, DOT]
}

proof fn lemma_lexical_is_normal(parts: Seq<Seq<u8>>)
    requires
        forall|i: int|
            0 <= i < parts.len() ==> is_plain(#[trigger] parts[i]) || (i == 0 && (parts[i]
                == seq![SLASH] || parts[i] == seq![DOT])),
    ensures
        is_normal(lexical(parts)),
        parts.len() > 0 && parts[0] == seq![SLASH] ==> lexical(parts).len() > 0 && lexical(parts)[0]
            == seq![SLASH],
    decreases parts.len(),
{
    if parts.len() > 0 {
        let shorter = parts.drop_last();
        assert forall|i: int| 0 <= i < shorter.len() implies is_plain(#[trigger] shorter[i]) || (i
            == 0 && (shorter[i] == seq![SLASH] || shorter[i] == seq![DOT])) by {
            assert(shorter[i] == parts[i]);
        }
        lemma_lexical_is_normal(shorter);
        let before = lexical(shorter);
        let last = parts.last();
        assert(seq![SLASH].len() == 1 && seq![DOT, DOT].len() == 2 && seq![DOT].len() == 1);
        assert(seq![SLASH][0] != seq![DOT][0]);
        assert(parts.len() == 1 ==> before.len() == 0);
        if last == seq![DOT] {
        } else if last == seq![DOT, DOT] {
        } else {
            assert(last == seq![SLASH] ==> parts.len() == 1);
        }
        let after = lexical(parts);
        assert forall|i: int| 0 <= i < after.len() implies is_plain(#[trigger] after[i]) || (i == 0
            && after[i] == seq![SLASH]) by {
            if i < before.len() {
                assert(after[i] == before[i]);
            } else {
                assert(after[i] == last);
                assert(parts[parts.len() - 1] == last);
            }
        }
        assert forall|i: int|
            #![trigger after[i]]
            0 < i < after.len() && after[i] == seq![DOT, DOT] implies after[i - 1] == seq![
            DOT,
            DOT,
        ] by {
            if i < before.len() {
                assert(after[i] == before[i]);
                assert(after[i - 1] == before[i - 1]);
            }
        }
    }
}

proof fn lemma_normal_is_kept(parts: Seq<Seq<u8>>)
    requires
        is_normal(parts),
    ensures
        lexical(parts) == parts,
    decreases parts.len(),
{
    if parts.len() > 0 {
        let shorter = parts.drop_last();
        assert forall|i: int| 0 <= i < shorter.len() implies is_plain(#[trigger] shorter[i]) || (i
            == 0 && shorter[i] == seq![SLASH]) by {
            assert(shorter[i] == parts[i]);
        }
        assert forall|i: int|
            #![trigger shorter[i]]
            0 < i < shorter.len() && shorter[i] == seq![DOT, DOT] implies shorter[i - 1] == seq![
            DOT,
            DOT,
        ] by {
            assert(shorter[i] == parts[i]);
            assert(shorter[i - 1] == parts[i - 1]);
        }
        lemma_normal_is_kept(shorter);
        let last = parts.last();
        assert(parts[parts.len() - 1] == last);
        assert(is_plain(last) || last == seq![SLASH]);
        assert(seq![SLASH][0] != seq![DOT][0]);
        assert(last != seq![DOT]);
        if last == seq![DOT, DOT] && shorter.len() > 0 {
            assert(parts[parts.len() - 2] == shorter.last());
        }
        assert(shorter.push(last) =~= parts);
    } else {
        assert(lexical(parts) =~= parts);
    }
}

/// A normalized path names the lexically normal components, and normalizing
/// it again changes nothing.
pub proof fn law_normalized_is_stable(path: Seq<u8>)
    ensures
        components(normalized(path)) == lexical(components(path)),
        normalized(normalized(path)) == normalized(path),
{
    lemma_components_shape(path);
    lemma_lexical_is_normal(components(path));
    lemma_components_of_text(lexical(components(path)));
    lemma_normal_is_kept(lexical(components(path)));
}

/// Normalizing a rooted path leaves no `..` that could climb out of a subtree:
/// it stays rooted and every other component is an ordinary name.
pub proof fn law_normalized_rooted_has_no_parent(path: Seq<u8>)
    requires
        is_rooted(path),
    ensures
        is_rooted(normalized(path)),
        components(normalized(path)).len() > 0,
        components(normalized(path))[0] == seq![SLASH],
        !components(normalized(path)).contains(seq![DOT, DOT]),
{
    law_normalized_is_stable(path);
    lemma_components_shape(path);
    lemma_lexical_is_normal(components(path));
    let parts = lexical(components(path));
    assert(components(path)[0] == seq![SLASH]);
    assert(seq![SLASH].len() == 1 && seq![DOT, DOT].len() == 2);
    if parts.contains(seq![DOT, DOT]) {
        let i = choose|i: int| 0 <= i < parts.len() && parts[i] == seq![DOT, DOT];
        lemma_parent_reaches_front(parts, i);
        assert(false);
    }
}

proof fn lemma_parent_reaches_front(parts: Seq<Seq<u8>>, at: int)
    requires
        is_normal(parts),
        0 <= at < parts.len(),
        parts[at] == seq![DOT, DOT],
    ensures
        parts[0] == seq![DOT, DOT],
    decreases at,
{
    if at > 0 {
        assert(parts[at - 1] == seq![DOT, DOT]);
        lemma_parent_reaches_front(parts, at - 1);
    }
}

/// Coverage is reflexive, transitive, and two paths that cover each other are
/// the same path.
pub proof fn law_coverage_is_an_order(first: Seq<u8>, second: Seq<u8>, third: Seq<u8>)
    ensures
        under(first, first),
        under(first, second) && under(second, third) ==> under(first, third),
        under(first, second) && under(second, first) ==> same_path(first, second),
{
    if under(first, second) && under(second, first) {
        assert(components(first) =~= components(second));
    }
}

/// The text of a component list.
pub fn render_path(parts: &Vec<Vec<u8>>) -> (text: Vec<u8>)
    ensures
        text@ == path_text(bytes::texts(parts@)),
{
    let ghost all = bytes::texts(parts@);
    let mut text: Vec<u8> = Vec::new();
    let mut at: usize = 0;
    if parts.len() > 0 && parts[0].len() == 1 && parts[0][0] == SLASH {
        assert(all[0] =~= seq![SLASH]);
        text.push(SLASH);
        at = 1;
        assert(all.skip(1) =~= all.drop_first());
        assert(text@ =~= seq![SLASH]);
    } else {
        if parts.len() > 0 {
            assert(all[0] != seq![SLASH]) by {
                assert(seq![SLASH][0] == SLASH);
                assert(seq![SLASH].len() == 1);
            }
        }
        assert(all.skip(0) =~= all);
    }
    while at < parts.len()
        invariant
            at <= parts.len(),
            all == bytes::texts(parts@),
            path_text(all) == text@ + joined_names(all.skip(at as int)),
        decreases parts.len() - at,
    {
        let ghost before = text@;
        let ghost rest = all.skip(at as int);
        bytes::append_bytes(&mut text, parts[at].as_slice());
        if at + 1 < parts.len() {
            text.push(SLASH);
            assert(rest.drop_first() =~= all.skip(at + 1));
            assert(text@ + joined_names(rest.drop_first()) =~= before + (rest[0].push(SLASH)
                + joined_names(rest.drop_first())));
        } else {
            assert(rest.len() == 1);
            assert(all.skip(at + 1) =~= Seq::<Seq<u8>>::empty());
            assert(text@ + joined_names(all.skip(at + 1)) =~= before + rest[0]);
        }
        at += 1;
    }
    assert(all.skip(at as int) =~= Seq::<Seq<u8>>::empty());
    assert(text@ + joined_names(all.skip(at as int)) =~= text@);
    text
}

fn is_parent_name(component: &[u8]) -> (yes: bool)
    ensures
        yes == (component@ == seq![DOT, DOT]),
{
    if component.len() == 2 && component[0] == DOT && component[1] == DOT {
        assert(component@ =~= seq![DOT, DOT]);
        true
    } else {
        assert(seq![DOT, DOT].len() == 2 && seq![DOT, DOT][0] == DOT && seq![DOT, DOT][1] == DOT);
        false
    }
}

fn is_single(component: &[u8], byte: u8) -> (yes: bool)
    ensures
        yes == (component@ == seq![byte]),
{
    if component.len() == 1 && component[0] == byte {
        assert(component@ =~= seq![byte]);
        true
    } else {
        assert(seq![byte].len() == 1 && seq![byte][0] == byte);
        false
    }
}

/// `path` with `.` and `..` resolved by name alone.
pub fn normalize_path_lexically(path: &[u8]) -> (normal: Vec<u8>)
    ensures
        normal@ == normalized(path@),
        components(normal@) == lexical(components(path@)),
{
    let parts = path_components(path);
    let ghost all = components(path@);
    let mut kept: Vec<Vec<u8>> = Vec::new();
    let mut at: usize = 0;
    assert(bytes::texts(kept@) =~= lexical(all.take(0)));
    while at < parts.len()
        invariant
            at <= parts.len(),
            all == bytes::texts(parts@),
            bytes::texts(kept@) == lexical(all.take(at as int)),
        decreases parts.len() - at,
    {
        let part = parts[at].as_slice();
        let ghost before = bytes::texts(kept@);
        assert(all.take(at + 1).drop_last() =~= all.take(at as int));
        assert(all.take(at + 1).last() == part@);
        if is_single(part, DOT) {
        } else if is_parent_name(part) {
            if kept.len() == 0 || is_parent_name(kept[kept.len() - 1].as_slice()) {
                kept.push(bytes::copy_bytes(part));
                assert(bytes::texts(kept@) =~= before.push(part@));
            } else if is_single(kept[kept.len() - 1].as_slice(), SLASH) {
            } else {
                kept.pop();
                assert(bytes::texts(kept@) =~= before.drop_last());
            }
        } else {
            kept.push(bytes::copy_bytes(part));
            assert(bytes::texts(kept@) =~= before.push(part@));
        }
        at += 1;
    }
    assert(all.take(at as int) =~= all);
    proof {
        law_normalized_is_stable(path@);
    }
    render_path(&kept)
}

/// Whether a path has a parent directory: neither the empty path nor the root
/// directory has one.
pub open spec fn has_parent(path: Seq<u8>) -> bool {
    components(path).len() > 0 && components(path).last() != seq![SLASH]
}

/// Where the first `count` names of a path end.
pub open spec fn names_end(path: Seq<u8>, count: nat) -> int
    decreases path.len(),
{
    if count == 0 || path.len() == 0 {
        0
    } else {
        proof {
            bytes::lemma_index_from(path, SLASH, 0);
        }
        let segment = path.take(segment_len(path));
        if !is_name(segment) {
            segment_len(path) + 1 + names_end(after_segment(path), count)
        } else if count == 1 {
            segment_len(path)
        } else {
            segment_len(path) + 1 + names_end(after_segment(path), (count - 1) as nat)
        }
    }
}

/// Where the first `count` components of a path end.
pub open spec fn components_end(path: Seq<u8>, count: nat) -> int {
    if count == 0 {
        0
    } else if !is_rooted(path) && !starts_at_dot(path) {
        names_end(path, count)
    } else if count == 1 {
        1
    } else {
        names_end(path, (count - 1) as nat)
    }
}

/// The first `count` components of a path as they are written in it.
pub open spec fn front_text(path: Seq<u8>, count: nat) -> Seq<u8> {
    path.take(components_end(path, count))
}

/// The components of a path from the one at `from` on as they are written in
/// it.
pub open spec fn back_text(path: Seq<u8>, from: nat) -> Seq<u8> {
    let parts = components(path);
    if from >= parts.len() {
        Seq::empty()
    } else {
        path.subrange(
            components_end(path, from + 1) - parts[from as int].len(),
            components_end(path, parts.len()),
        )
    }
}

proof fn lemma_names_end(path: Seq<u8>, count: nat)
    requires
        1 <= count <= names(path).len(),
    ensures
        names(path)[count - 1].len() <= names_end(path, count) <= path.len(),
        segment_len(path) <= names_end(path, count),
        1 <= names_end(path, count),
        names(path.take(names_end(path, count))) == names(path).take(count as int),
        segment_len(path.take(names_end(path, count))) == segment_len(path),
    decreases path.len(),
{
    bytes::lemma_index_from(path, SLASH, 0);
    let len = segment_len(path);
    let segment = path.take(len);
    let rest = after_segment(path);
    let end = names_end(path, count);
    let text = path.take(end);
    if is_name(segment) && count == 1 {
        bytes::lemma_index_from_unique(text, SLASH, 0, len);
        assert(text.take(len) =~= segment);
        assert(names(after_segment(text)) =~= Seq::empty());
        assert(names(text) =~= names(path).take(1));
    } else {
        let left = if is_name(segment) {
            (count - 1) as nat
        } else {
            count
        };
        assert(names(rest).len() >= left);
        lemma_names_end(rest, left);
        assert(end == len + 1 + names_end(rest, left));
        assert(path[len] == SLASH);
        assert(text[len] == SLASH);
        bytes::lemma_index_from_unique(text, SLASH, 0, len);
        assert(text.take(len) =~= segment);
        assert(after_segment(text) =~= rest.take(names_end(rest, left)));
        assert(names(text) =~= names(path).take(count as int));
    }
}

/// The front of a path, as it is written, has the first components of the
/// path.
pub proof fn lemma_front_text(path: Seq<u8>, count: nat)
    requires
        count <= components(path).len(),
    ensures
        0 <= components_end(path, count) <= path.len(),
        count > 0 ==> components(path)[count - 1].len() <= components_end(path, count),
        components(front_text(path, count)) == components(path).take(count as int),
{
    let text = front_text(path, count);
    bytes::lemma_index_from(path, SLASH, 0);
    if count == 0 {
        assert(components(text) =~= components(path).take(0));
    } else if !is_rooted(path) && !starts_at_dot(path) {
        lemma_names_end(path, count);
        assert(text.take(segment_len(path)) =~= path.take(segment_len(path)));
        assert(components(text) =~= components(path).take(count as int));
    } else if count == 1 {
        assert(text =~= components(path)[0]);
        bytes::lemma_index_from_unique(
            text,
            SLASH,
            0,
            if is_rooted(path) {
                0
            } else {
                1
            },
        );
        assert(text.take(1) =~= text);
        assert(names(after_segment(text)) =~= Seq::empty());
        assert(text.take(0) =~= Seq::empty());
        assert(names(text) =~= Seq::empty());
        assert(components(text) =~= components(path).take(1));
    } else {
        lemma_names_end(path, (count - 1) as nat);
        assert(text.take(segment_len(path)) =~= path.take(segment_len(path)));
        assert(components(text) =~= components(path).take(count as int));
    }
}

proof fn lemma_front_of_joined(parts: Seq<Seq<u8>>, count: nat)
    requires
        forall|i: int| 0 <= i < parts.len() ==> is_plain(#[trigger] parts[i]),
        1 <= count <= parts.len(),
    ensures
        0 <= names_end(joined_names(parts), count) <= joined_names(parts).len(),
        joined_names(parts).take(names_end(joined_names(parts), count)) == joined_names(
            parts.take(count as int),
        ),
    decreases parts.len(),
{
    let text = joined_names(parts);
    let head = parts[0];
    let front = parts.take(count as int);
    assert(is_plain(head));
    assert forall|i: int| 0 <= i < head.len() implies text[i] != SLASH by {
        assert(text[i] == head[i]);
        assert(head.contains(head[i]));
    }
    if parts.len() > 1 {
        assert(text[head.len() as int] == SLASH);
    }
    bytes::lemma_index_from_unique(text, SLASH, 0, head.len() as int);
    assert(text.take(segment_len(text)) =~= head);
    if count == 1 {
        assert(joined_names(front) =~= head);
    } else {
        let rest = parts.drop_first();
        assert forall|i: int| 0 <= i < rest.len() implies is_plain(#[trigger] rest[i]) by {
            assert(rest[i] == parts[i + 1]);
        }
        lemma_front_of_joined(rest, (count - 1) as nat);
        assert(after_segment(text) =~= joined_names(rest));
        assert(front.drop_first() =~= rest.take(count - 1));
        assert(front[0] == head);
        let end = names_end(joined_names(rest), (count - 1) as nat);
        assert(text =~= head.push(SLASH) + joined_names(rest));
        assert(joined_names(front) == head.push(SLASH) + joined_names(rest.take(count - 1)));
        assert(names_end(text, count) == head.len() + 1 + end);
        assert(text.take(head.len() + 1 + end) =~= head.push(SLASH) + joined_names(rest).take(end));
    }
}

/// A path that is written as its components are holds its front written as the
/// front's components are.
pub proof fn lemma_front_of_normal(path: Seq<u8>, count: nat)
    requires
        path_text(components(path)) == path,
        count <= components(path).len(),
    ensures
        front_text(path, count) == path_text(components(path).take(count as int)),
{
    let parts = components(path);
    let front = parts.take(count as int);
    lemma_components_shape(path);
    bytes::lemma_index_from(path, SLASH, 0);
    if count == 0 {
        assert(front_text(path, count) =~= path_text(front));
    } else if !is_rooted(path) && !starts_at_dot(path) {
        lemma_names_shape(path);
        assert(parts[0] != seq![SLASH]) by {
            assert(is_plain(parts[0]));
            assert(seq![SLASH].contains(SLASH)) by {
                assert(seq![SLASH][0] == SLASH);
            }
        }
        assert(front[0] == parts[0]);
        lemma_front_of_joined(parts, count);
    } else {
        let lead = parts[0];
        let rest = parts.drop_first();
        assert(rest =~= names(path));
        lemma_names_shape(path);
        assert(front[0] == lead);
        if count == 1 {
            assert(front =~= seq![lead]);
            assert(front.drop_first() =~= Seq::empty());
            assert(path_text(front) =~= lead);
            assert(front_text(path, 1) =~= lead);
        } else {
            let left = (count - 1) as nat;
            lemma_front_of_joined(rest, left);
            assert(front.drop_first() =~= rest.take(left as int));
            assert(!is_name(path.take(segment_len(path)))) by {
                if is_rooted(path) {
                    bytes::lemma_index_from_unique(path, SLASH, 0, 0);
                }
            }
            if is_rooted(path) {
                bytes::lemma_index_from_unique(path, SLASH, 0, 0);
            } else {
                assert(seq![DOT][0] == DOT && seq![SLASH][0] == SLASH);
            }
            assert(after_segment(path) =~= joined_names(rest));
            let end = names_end(joined_names(rest), left);
            if is_rooted(path) {
                assert(path =~= lead + joined_names(rest));
                assert(path_text(front) == lead + joined_names(rest).take(end));
                assert(path.take(1 + end) =~= lead + joined_names(rest).take(end));
            } else {
                assert(path =~= lead.push(SLASH) + joined_names(rest));
                assert(path_text(front) == lead.push(SLASH) + joined_names(rest).take(end));
                assert(path.take(2 + end) =~= lead.push(SLASH) + joined_names(rest).take(end));
            }
        }
    }
}

/// Where the first `count` components of `path` end.
fn front_len(path: &[u8], count: usize) -> (len: usize)
    requires
        count <= components(path@).len(),
    ensures
        len == components_end(path@, count as nat),
        len <= path.len(),
{
    proof {
        lemma_front_text(path@, count as nat);
    }
    if count == 0 {
        return 0;
    }
    let first = bytes::find_byte(path, SLASH, 0);
    let head = vstd::slice::slice_subrange(path, 0, first);
    assert(head@ == path@.take(first as int));
    let led = path[0] == SLASH || is_single(head, DOT);
    if led && count == 1 {
        return 1;
    }
    let mut left: usize = if led {
        count - 1
    } else {
        count
    };
    let mut at: usize = 0;
    let ghost end = names_end(path@, left as nat);
    assert(path@.skip(0) =~= path@);
    loop
        invariant
            at <= path.len(),
            1 <= left <= names(path@.skip(at as int)).len(),
            end == at + names_end(path@.skip(at as int), left as nat),
            end == components_end(path@, count as nat),
            end <= path.len(),
        decreases path.len() - at,
    {
        let ghost rest = path@.skip(at as int);
        let next = bytes::find_byte(path, SLASH, at);
        proof {
            bytes::lemma_index_from_unique(rest, SLASH, 0, next - at);
        }
        let segment = vstd::slice::slice_subrange(path, at, next);
        assert(segment@ =~= rest.take(next - at));
        if segment.len() > 1 || (segment.len() == 1 && segment[0] != DOT) {
            assert(is_name(segment@));
            if left == 1 {
                return next;
            }
            left -= 1;
        } else {
            assert(segment.len() == 1 ==> segment@ =~= seq![DOT]);
            assert(!is_name(segment@));
        }
        assert(next < path.len()) by {
            assert(names(after_segment(rest)).len() >= left);
            assert(names(Seq::<u8>::empty()).len() == 0);
        }
        at = next + 1;
        assert(after_segment(rest) =~= path@.skip(at as int));
    }
}

/// The first `count` components of `path` as they are written in it.
pub fn path_front(path: &[u8], count: usize) -> (text: Vec<u8>)
    requires
        count <= components(path@).len(),
    ensures
        text@ == front_text(path@, count as nat),
{
    let front = vstd::slice::slice_subrange(path, 0, front_len(path, count));
    assert(front@ =~= front_text(path@, count as nat));
    bytes::copy_bytes(front)
}

proof fn lemma_names_end_rises(path: Seq<u8>, from: nat, to: nat)
    requires
        1 <= from <= to <= names(path).len(),
    ensures
        names_end(path, from) <= names_end(path, to),
    decreases path.len(),
{
    bytes::lemma_index_from(path, SLASH, 0);
    let segment = path.take(segment_len(path));
    let rest = after_segment(path);
    if !is_name(segment) {
        lemma_names_end_rises(rest, from, to);
    } else if from > 1 {
        lemma_names_end_rises(rest, (from - 1) as nat, (to - 1) as nat);
    } else if to > 1 {
        lemma_names_end(rest, (to - 1) as nat);
    }
}

proof fn lemma_components_end_rises(path: Seq<u8>, from: nat, to: nat)
    requires
        1 <= from <= to <= components(path).len(),
    ensures
        components_end(path, from) <= components_end(path, to),
{
    if !is_rooted(path) && !starts_at_dot(path) {
        lemma_names_end_rises(path, from, to);
    } else if from > 1 {
        lemma_names_end_rises(path, (from - 1) as nat, (to - 1) as nat);
    } else if to > 1 {
        lemma_names_end(path, (to - 1) as nat);
    }
}

/// The components of `path` from the one at `from` on as they are written in
/// it.
pub fn path_back(path: &[u8], from: usize) -> (text: Vec<u8>)
    ensures
        text@ == back_text(path@, from as nat),
{
    let parts = path_components(path);
    if from >= parts.len() {
        let text: Vec<u8> = Vec::new();
        assert(text@ =~= Seq::empty());
        return text;
    }
    proof {
        lemma_front_text(path@, from as nat + 1);
        lemma_components_end_rises(path@, from as nat + 1, parts@.len());
    }
    let start = front_len(path, from + 1) - parts[from].len();
    let end = front_len(path, parts.len());
    let back = vstd::slice::slice_subrange(path, start, end);
    bytes::copy_bytes(back)
}

/// The directory that holds a path, as it is written in the path.
pub open spec fn parent_text(path: Seq<u8>) -> Seq<u8> {
    front_text(path, (components(path).len() - 1) as nat)
}

/// The directory that holds `path`, or `None` for the empty path and the root.
pub fn parent(path: &[u8]) -> (found: Option<Vec<u8>>)
    ensures
        found is Some <==> has_parent(path@),
        found matches Some(dir) ==> dir@ == parent_text(path@),
{
    let parts = path_components(path);
    if parts.len() == 0 || is_single(parts[parts.len() - 1].as_slice(), SLASH) {
        return None;
    }
    Some(path_front(path, parts.len() - 1))
}

/// Whether a path ends in an ordinary name.
pub open spec fn has_file_name(path: Seq<u8>) -> bool {
    components(path).len() > 0 && components(path).last() != seq![SLASH] && components(path).last()
        != seq![DOT] && components(path).last() != seq![DOT, DOT]
}

/// The final component of `path` when it is an ordinary name.
pub fn file_name(path: &[u8]) -> (found: Option<Vec<u8>>)
    ensures
        found is Some <==> has_file_name(path@),
        found matches Some(name) ==> name@ == components(path@).last(),
{
    let parts = path_components(path);
    if parts.len() == 0 {
        return None;
    }
    let last = parts[parts.len() - 1].as_slice();
    assert(last@ == components(path@).last());
    if is_single(last, SLASH) || is_single(last, DOT) || is_parent_name(last) {
        None
    } else {
        Some(bytes::copy_bytes(last))
    }
}


/// How two paths compare, component by component.
pub open spec fn path_order(left: Seq<u8>, right: Seq<u8>) -> Relation {
    order::list_order(components(left), components(right))
}

/// Whether a list of paths is strictly ascending, so that none occurs twice.
pub open spec fn is_ascending(roots: Seq<Seq<u8>>) -> bool {
    forall|i: int, j: int|
        #![trigger roots[i], roots[j]]
        0 <= i < j < roots.len() ==> path_order(roots[i], roots[j]) == Relation::Before
}

/// Whether `after` is `before` sorted, with repeated paths dropped.
pub open spec fn is_root_set(after: Seq<Seq<u8>>, before: Seq<Seq<u8>>) -> bool {
    &&& is_ascending(after)
    &&& forall|i: int| 0 <= i < after.len() ==> before.contains(#[trigger] after[i])
    &&& forall|i: int| 0 <= i < before.len() ==> names_path(after, #[trigger] before[i])
}

proof fn lemma_named_is_covered(list: Seq<Seq<u8>>, named: Seq<u8>, path: Seq<u8>)
    requires
        names_path(list, named),
        under(path, named),
    ensures
        under_any(path, list),
{
    let i = choose|i: int| 0 <= i < list.len() && #[trigger] same_path(list[i], named);
    assert(under(path, list[i]));
}

/// Sorting a list of roots and dropping repetitions changes neither the paths
/// it names nor the paths it covers.
pub proof fn law_root_set_covers_the_same(
    after: Seq<Seq<u8>>,
    before: Seq<Seq<u8>>,
    path: Seq<u8>,
)
    requires
        is_root_set(after, before),
    ensures
        under_any(path, after) == under_any(path, before),
        names_path(after, path) == names_path(before, path),
{
    if under_any(path, after) {
        let i = choose|i: int| 0 <= i < after.len() && #[trigger] under(path, after[i]);
        assert(before.contains(after[i]));
        let j = choose|j: int| 0 <= j < before.len() && before[j] == after[i];
        assert(under(path, before[j]));
    }
    if under_any(path, before) {
        let i = choose|i: int| 0 <= i < before.len() && #[trigger] under(path, before[i]);
        lemma_named_is_covered(after, before[i], path);
    }
    if names_path(after, path) {
        let i = choose|i: int| 0 <= i < after.len() && #[trigger] same_path(after[i], path);
        assert(before.contains(after[i]));
        let j = choose|j: int| 0 <= j < before.len() && before[j] == after[i];
        assert(same_path(before[j], path));
    }
    if names_path(before, path) {
        let i = choose|i: int| 0 <= i < before.len() && #[trigger] same_path(before[i], path);
        assert(names_path(after, before[i]));
        let j = choose|j: int| 0 <= j < after.len() && #[trigger] same_path(after[j], before[i]);
        assert(same_path(after[j], path));
    }
}

proof fn lemma_insert_keeps_ascending(list: Seq<Seq<u8>>, at: int, path: Seq<u8>)
    requires
        is_ascending(list),
        0 <= at <= list.len(),
        forall|i: int|
            0 <= i < at ==> path_order(#[trigger] list[i], path) == Relation::Before,
        at < list.len() ==> path_order(list[at], path) == Relation::After,
    ensures
        is_ascending(list.insert(at, path)),
        list.insert(at, path)[at] == path,
        forall|i: int| 0 <= i < at ==> list.insert(at, path)[i] == list[i],
        forall|i: int| at <= i < list.len() ==> list.insert(at, path)[i + 1] == list[i],
{
    let after = list.insert(at, path);
    assert forall|j: int| at <= j < list.len() implies path_order(path, #[trigger] list[j])
        == Relation::Before by {
        order::lemma_list_opposite(components(list[at]), components(path));
        if j > at {
            assert(path_order(list[at], list[j]) == Relation::Before);
            order::lemma_list_transitive(
                components(path),
                components(list[at]),
                components(list[j]),
            );
        }
    }
    assert forall|i: int, j: int|
        #![trigger after[i], after[j]]
        0 <= i < j < after.len() implies path_order(after[i], after[j]) == Relation::Before by {
        if i < at && j > at {
            assert(after[j] == list[j - 1]);
            assert(path_order(list[i], list[j - 1]) == Relation::Before);
        } else if i < at && j < at {
            assert(path_order(list[i], list[j]) == Relation::Before);
        } else if i > at {
            assert(after[j] == list[j - 1]);
            assert(after[i] == list[i - 1]);
            assert(path_order(list[i - 1], list[j - 1]) == Relation::Before);
        } else if i == at {
            assert(after[j] == list[j - 1]);
        }
    }
}

/// Adds `path` to an ascending list unless the list already names it.
pub fn insert_path(list: &mut Vec<Vec<u8>>, path: Vec<u8>)
    requires
        is_ascending(bytes::texts(old(list)@)),
    ensures
        is_ascending(bytes::texts(final(list)@)),
        names_path(bytes::texts(old(list)@), path@) ==> final(list)@ == old(list)@,
        !names_path(bytes::texts(old(list)@), path@) ==> exists|at: int|
            0 <= at <= old(list)@.len() && #[trigger] bytes::texts(old(list)@).insert(at, path@)
                == bytes::texts(final(list)@),
{
    let ghost before = bytes::texts(list@);
    let key = path_components(path.as_slice());
    let mut at: usize = 0;
    while at < list.len()
        invariant
            at <= list.len(),
            before == bytes::texts(list@),
            list@ == old(list)@,
            is_ascending(before),
            bytes::texts(key@) == components(path@),
            forall|i: int|
                0 <= i < at ==> path_order(#[trigger] before[i], path@) == Relation::Before,
        ensures
            at <= list.len(),
            list@ == old(list)@,
            forall|i: int|
                0 <= i < at ==> path_order(#[trigger] before[i], path@) == Relation::Before,
            at < list.len() ==> path_order(before[at as int], path@) == Relation::After,
        decreases list.len() - at,
    {
        let other = path_components(list[at].as_slice());
        let relation = order::list_relation(&other, &key);
        assert(relation == path_order(before[at as int], path@));
        match relation {
            Relation::Before => {},
            Relation::Same => {
                proof {
                    order::lemma_list_same(components(before[at as int]), components(path@));
                    assert(same_path(before[at as int], path@));
                }
                return;
            },
            Relation::After => {
                break;
            },
        }
        at += 1;
    }
    proof {
        assert forall|i: int| 0 <= i < before.len() implies !same_path(#[trigger] before[i], path@) by {
            order::lemma_list_same(components(before[i]), components(path@));
            if i > at {
                assert(path_order(before[at as int], before[i]) == Relation::Before);
            }
        }
    }
    proof {
        lemma_insert_keeps_ascending(before, at as int, path@);
    }
    let ghost added = path@;
    list.insert(at, path);
    assert(bytes::texts(list@) =~= before.insert(at as int, added));
}

/// Sorts `roots` and drops repeated paths.
pub fn normalize_roots(roots: &mut Vec<Vec<u8>>)
    ensures
        is_root_set(bytes::texts(final(roots)@), bytes::texts(old(roots)@)),
{
    let ghost before = bytes::texts(roots@);
    let mut kept: Vec<Vec<u8>> = Vec::new();
    let mut at: usize = 0;
    while at < roots.len()
        invariant
            at <= roots.len(),
            roots@ == old(roots)@,
            before == bytes::texts(roots@),
            is_ascending(bytes::texts(kept@)),
            forall|i: int|
                0 <= i < kept@.len() ==> before.contains(#[trigger] bytes::texts(kept@)[i]),
            forall|i: int|
                0 <= i < at ==> names_path(bytes::texts(kept@), #[trigger] before[i]),
        decreases roots.len() - at,
    {
        let ghost held = bytes::texts(kept@);
        let path = bytes::copy_bytes(roots[at].as_slice());
        assert(path@ == before[at as int]);
        insert_path(&mut kept, path);
        proof {
            let now = bytes::texts(kept@);
            if !names_path(held, before[at as int]) {
                let k = choose|k: int|
                    0 <= k <= held.len() && #[trigger] held.insert(k, before[at as int]) == now;
                assert(now[k] == before[at as int]);
                assert(same_path(now[k], before[at as int]));
                assert forall|i: int| 0 <= i < now.len() implies before.contains(
                    #[trigger] now[i],
                ) by {
                    if i < k {
                        assert(now[i] == held[i]);
                    } else if i > k {
                        assert(now[i] == held[i - 1]);
                    }
                }
                assert forall|i: int| 0 <= i < at + 1 implies names_path(
                    now,
                    #[trigger] before[i],
                ) by {
                    if i < at {
                        let j = choose|j: int|
                            0 <= j < held.len() && #[trigger] same_path(held[j], before[i]);
                        if j < k {
                            assert(now[j] == held[j]);
                            assert(same_path(now[j], before[i]));
                        } else {
                            assert(now[j + 1] == held[j]);
                            assert(same_path(now[j + 1], before[i]));
                        }
                    }
                }
            } else {
                assert(now =~= held);
            }
        }
        at += 1;
    }
    *roots = kept;
}

proof fn lemma_name_text(name: Seq<u8>)
    requires
        name.len() > 0,
        forall|i: int| 0 <= i < name.len() ==> name[i] != SLASH,
        name != seq![DOT],
    ensures
        names(name) == seq![name],
        !is_rooted(name),
        !starts_at_dot(name),
        is_plain(name),
{
    if name.contains(SLASH) {
        let i = choose|i: int| 0 <= i < name.len() && name[i] == SLASH;
        assert(name[i] != SLASH);
    }
    lemma_single_segment(name);
    bytes::lemma_index_from_unique(name, SLASH, 0, name.len() as int);
    assert(name.take(name.len() as int) =~= name);
}

/// A path is read from its end, byte by byte: a name behind a separator is one
/// more component, and a separator or a lone dot behind one is none. Alone, a
/// name is one component, and so are `/` and `.`.
pub proof fn law_a_name_is_one_more_component(path: Seq<u8>, name: Seq<u8>)
    requires
        name.len() > 0,
        forall|i: int| 0 <= i < name.len() ==> name[i] != 0x2f,
        name != seq![0x2eu8],
    ensures
        path.len() > 0 ==> components(path + seq![0x2fu8] + name) == components(path).push(name),
        path.len() > 0 ==> components(path + seq![0x2fu8]) == components(path),
        path.len() > 0 ==> components(path + seq![0x2fu8, 0x2eu8]) == components(path),
        components(seq![0x2fu8] + name) == seq![seq![0x2fu8], name],
        components(name) == seq![name],
        components(seq![0x2fu8]) == seq![seq![0x2fu8]],
        components(seq![0x2eu8]) == seq![seq![0x2eu8]],
        components(Seq::<u8>::empty()).len() == 0,
{
    let empty = Seq::<u8>::empty();
    let dot = seq![DOT];
    lemma_name_text(name);
    assert(names(empty) =~= Seq::empty());
    bytes::lemma_index_from_unique(dot, SLASH, 0, 1);
    assert(dot.take(1) =~= dot);
    assert(after_segment(dot) =~= empty);
    assert(names(dot) =~= Seq::empty());
    assert(components(dot) =~= seq![dot]);
    assert(components(name) =~= seq![name]);
    let slash = seq![SLASH];
    lemma_names_around_separator(empty, name);
    lemma_names_around_separator(empty, empty);
    assert(slash + name =~= empty.push(SLASH) + name);
    assert(slash =~= empty.push(SLASH) + empty);
    assert(names(slash) =~= Seq::empty());
    assert(names(slash + name) =~= seq![name]);
    assert((slash + name)[0] == SLASH);
    assert(components(slash) =~= seq![slash]);
    assert(components(slash + name) =~= seq![slash, name]);
    if path.len() > 0 {
        lemma_behind_separator(path, name);
        lemma_behind_separator(path, empty);
        lemma_behind_separator(path, dot);
        assert(path + slash + name =~= path.push(SLASH) + name);
        assert(path + slash =~= path.push(SLASH) + empty);
        assert(path + seq![SLASH, DOT] =~= path.push(SLASH) + dot);
        assert(components(path) + seq![name] =~= components(path).push(name));
        assert(components(path) + Seq::empty() =~= components(path));
    }
}

/// What stands behind a separator adds its names.
pub proof fn lemma_behind_separator(path: Seq<u8>, back: Seq<u8>)
    requires
        path.len() > 0,
    ensures
        components(path.push(SLASH) + back) == components(path) + names(back),
{
    let whole = path.push(SLASH) + back;
    lemma_names_around_separator(path, back);
    lemma_first_segment_stays(path, back);
    assert(whole[0] == path[0]);
    assert(starts_at_dot(whole) == starts_at_dot(path));
    assert(components(whole) =~= components(path) + names(back));
}

/// A path lies below a root where it goes on behind the root and a separator,
/// and one name more leaves it below. Another last name leaves it there only if
/// its directory was there already.
pub proof fn law_coverage_grows_by_names(path: Seq<u8>, name: Seq<u8>, rest: Seq<u8>, root: Seq<u8>)
    requires
        path.len() > 0,
        name.len() > 0,
        forall|i: int| 0 <= i < name.len() ==> name[i] != 0x2f,
        name != seq![0x2eu8],
    ensures
        under(path + seq![0x2fu8] + rest, path),
        under(path + seq![0x2fu8] + name, root) <==> under(path, root) || components(root)
            == components(path).push(name),
        under(path, root) <==> components(root).len() <= components(path).len() && forall|i: int|
            0 <= i < components(root).len() ==> #[trigger] components(root)[i] == components(path)[i],
        strictly_under(path, root) <==> under(path, root) && components(root).len() < components(
            path,
        ).len(),
        same_path(path, root) <==> components(path) == components(root),
        is_rooted(path) ==> under(path, seq![0x2fu8]),
{
    law_a_name_is_one_more_component(path, name);
    lemma_behind_separator(path, rest);
    assert(path + seq![SLASH] + rest =~= path.push(SLASH) + rest);
    let whole = components(path).push(name);
    let above = components(root);
    if above.is_prefix_of(whole) {
        if above.len() == whole.len() {
            assert(above =~= whole);
        } else {
            assert(above =~= components(path).take(above.len() as int));
        }
    }
    if above.is_prefix_of(components(path)) {
        assert(above =~= whole.take(above.len() as int));
        if above.len() == components(path).len() {
            assert(above =~= components(path));
        }
    }
    if above.len() <= components(path).len() && forall|i: int|
        0 <= i < above.len() ==> #[trigger] above[i] == components(path)[i] {
        assert(above =~= components(path).take(above.len() as int));
    }
    if is_rooted(path) {
        assert(components(path)[0] == seq![SLASH]);
        assert(components(path).take(1) =~= seq![seq![SLASH]]);
    }
}

/// A path is covered by a list where one of the list covers it, and named by a
/// list where one of the list is the same path.
pub proof fn law_each_root_of_a_list_counts(path: Seq<u8>, roots: Seq<Seq<u8>>, at: int)
    ensures
        0 <= at < roots.len() && under(path, roots[at]) ==> under_any(path, roots),
        0 <= at < roots.len() && same_path(roots[at], path) ==> names_path(roots, path),
        (forall|i: int| 0 <= i < roots.len() ==> !under(path, #[trigger] roots[i])) ==> !under_any(
            path,
            roots,
        ),
        (forall|i: int| 0 <= i < roots.len() ==> !same_path(#[trigger] roots[i], path))
            ==> !names_path(roots, path),
{
}

/// A path is joined to a base behind one separator, which a base that ends in
/// one already has. A rooted path replaces the base.
pub proof fn law_joined_paths_keep_both_parts(base: Seq<u8>, path: Seq<u8>)
    ensures
        path.len() > 0 && path[0] == 0x2f ==> joined(base, path) == path,
        base.len() == 0 ==> joined(base, path) == path,
        base.len() > 0 && base.last() == 0x2f && !(path.len() > 0 && path[0] == 0x2f) ==> joined(
            base,
            path,
        ) == base + path,
        base.len() > 0 && base.last() != 0x2f && !(path.len() > 0 && path[0] == 0x2f) ==> joined(
            base,
            path,
        ) == base + seq![0x2fu8] + path,
{
    assert(base.push(SLASH) + path =~= base + seq![SLASH] + path);
}

/// What lies in a directory has its components and then its own names.
pub proof fn lemma_joined_components(base: Seq<u8>, path: Seq<u8>)
    requires
        base.len() > 0,
        !is_rooted(path),
    ensures
        components(joined(base, path)) == components(base) + names(path),
{
    if base.last() == SLASH {
        let front = base.drop_last();
        let empty = Seq::<u8>::empty();
        assert(joined(base, path) =~= front.push(SLASH) + path);
        assert(base =~= front.push(SLASH) + empty);
        assert(names(empty) =~= Seq::empty());
        if front.len() > 0 {
            lemma_behind_separator(front, path);
            lemma_behind_separator(front, empty);
            assert(components(base) =~= components(front));
        } else {
            lemma_names_around_separator(front, path);
            lemma_names_around_separator(front, empty);
            assert(names(base) =~= Seq::empty());
            assert(joined(base, path)[0] == SLASH);
            assert(components(joined(base, path)) =~= components(base) + names(path));
        }
    } else {
        lemma_behind_separator(base, path);
    }
}

/// What normal components come to goes on by what follows alone.
pub proof fn lemma_lexical_goes_on(first: Seq<Seq<u8>>, second: Seq<Seq<u8>>, rest: Seq<Seq<u8>>)
    requires
        lexical(first) == lexical(second),
    ensures
        lexical(first + rest) == lexical(second + rest),
    decreases rest.len(),
{
    if rest.len() == 0 {
        assert(first + rest =~= first);
        assert(second + rest =~= second);
    } else {
        lemma_lexical_goes_on(first, second, rest.drop_last());
        assert((first + rest).drop_last() =~= first + rest.drop_last());
        assert((second + rest).drop_last() =~= second + rest.drop_last());
    }
}

/// Names are kept as they come, a `.` is dropped, and a `..` takes off the name
/// before it. At the root it stays there, and where there is nothing to take off
/// it is kept.
pub proof fn law_each_step_up_takes_one_name(parts: Seq<Seq<u8>>, name: Seq<u8>)
    requires
        name != seq![0x2eu8],
        name != seq![0x2eu8, 0x2eu8],
        name != seq![0x2fu8],
    ensures
        lexical(Seq::<Seq<u8>>::empty()).len() == 0,
        lexical(parts.push(name)) == lexical(parts).push(name),
        lexical(parts.push(seq![0x2eu8])) == lexical(parts),
        lexical(parts.push(name).push(seq![0x2eu8, 0x2eu8])) == lexical(parts),
        lexical(seq![seq![0x2fu8]]) == seq![seq![0x2fu8]],
        lexical(parts) == seq![seq![0x2fu8]] ==> lexical(parts.push(seq![0x2eu8, 0x2eu8]))
            == seq![seq![0x2fu8]],
        lexical(parts).len() == 0 ==> lexical(parts.push(seq![0x2eu8, 0x2eu8])) == seq![
            seq![0x2eu8, 0x2eu8],
        ],
        lexical(parts).len() > 0 && lexical(parts).last() == seq![0x2eu8, 0x2eu8] ==> lexical(
            parts.push(seq![0x2eu8, 0x2eu8]),
        ) == lexical(parts).push(seq![0x2eu8, 0x2eu8]),
{
    let dot = seq![DOT];
    let up = seq![DOT, DOT];
    let root = seq![SLASH];
    assert(dot.len() == 1 && up.len() == 2 && root.len() == 1);
    assert(dot[0] == DOT && root[0] == SLASH);
    assert(parts.push(name).drop_last() =~= parts);
    assert(parts.push(dot).drop_last() =~= parts);
    assert(parts.push(up).drop_last() =~= parts);
    assert(parts.push(name).push(up).drop_last() =~= parts.push(name));
    assert(lexical(parts.push(name)) == lexical(parts).push(name));
    assert(parts.push(name).push(up).last() == up);
    assert(lexical(parts).push(name).last() == name);
    assert(lexical(parts).push(name).drop_last() =~= lexical(parts));
    assert(seq![root].drop_last() =~= Seq::empty());
    assert(lexical(seq![root].drop_last()) =~= Seq::empty());
    assert(lexical(seq![root]) =~= seq![root]);
    assert(lexical(parts).len() == 0 ==> lexical(parts).push(up) =~= seq![up]);
}

proof fn lemma_joined_names_push(parts: Seq<Seq<u8>>, name: Seq<u8>)
    requires
        parts.len() > 0,
    ensures
        joined_names(parts.push(name)) == joined_names(parts) + seq![SLASH] + name,
    decreases parts.len(),
{
    let all = parts.push(name);
    assert(all[0] == parts[0]);
    if parts.len() == 1 {
        assert(all.drop_first() =~= seq![name]);
        assert(joined_names(seq![name]) == name);
        assert(joined_names(all) =~= parts[0] + seq![SLASH] + name);
    } else {
        let rest = parts.drop_first();
        lemma_joined_names_push(rest, name);
        assert(all.drop_first() =~= rest.push(name));
        assert(joined_names(all) =~= joined_names(parts) + seq![SLASH] + name);
    }
}

/// Components are written with one separator between two of them, and none
/// behind the root.
pub proof fn law_components_are_written_one_by_one(parts: Seq<Seq<u8>>, name: Seq<u8>)
    requires
        name != seq![0x2fu8],
    ensures
        path_text(Seq::<Seq<u8>>::empty()).len() == 0,
        path_text(seq![name]) == name,
        path_text(seq![seq![0x2fu8]]) == seq![0x2fu8],
        path_text(seq![seq![0x2fu8], name]) == seq![0x2fu8] + name,
        parts.len() > 1 || (parts.len() == 1 && parts[0] != seq![0x2fu8]) ==> path_text(
            parts.push(name),
        ) == path_text(parts) + seq![0x2fu8] + name,
{
    let root = seq![SLASH];
    assert(seq![root].drop_first() =~= Seq::empty());
    assert(path_text(seq![root]) =~= root);
    assert(seq![root, name].drop_first() =~= seq![name]);
    assert(path_text(seq![root, name]) =~= root + name);
    if parts.len() > 1 || (parts.len() == 1 && parts[0] != root) {
        let all = parts.push(name);
        assert(all[0] == parts[0]);
        if parts[0] == root {
            lemma_joined_names_push(parts.drop_first(), name);
            assert(all.drop_first() =~= parts.drop_first().push(name));
            assert(path_text(all) =~= path_text(parts) + root + name);
        } else {
            lemma_joined_names_push(parts, name);
        }
    }
}

proof fn lemma_names_end_behind(front: Seq<u8>, back: Seq<u8>, count: nat)
    requires
        count >= 1,
    ensures
        names_end(front.push(SLASH) + back, names(front).len() + count) == front.len() + 1
            + names_end(back, count),
    decreases front.len(),
{
    let whole = front.push(SLASH) + back;
    let len = segment_len(front);
    bytes::lemma_index_from(front, SLASH, 0);
    lemma_first_segment_stays(front, back);
    if len < front.len() {
        let rest = after_segment(front);
        lemma_names_end_behind(rest, back, count);
        assert(after_segment(whole) =~= rest.push(SLASH) + back);
    } else {
        assert(whole[len] == SLASH);
        assert(after_segment(whole) =~= back);
        assert(front.take(len) =~= front);
        assert(names(Seq::empty()) =~= Seq::empty());
        if front.len() == 0 {
            assert(names(front) =~= Seq::empty());
        }
        assert(names(front).len() == (if is_name(front) {
            1nat
        } else {
            0nat
        }));
    }
}

proof fn lemma_components_end_behind(path: Seq<u8>, back: Seq<u8>, count: nat)
    requires
        path.len() > 0,
        count >= 1,
    ensures
        components_end(path.push(SLASH) + back, components(path).len() + count) == path.len() + 1
            + names_end(back, count),
{
    let whole = path.push(SLASH) + back;
    lemma_names_end_behind(path, back, count);
    lemma_first_segment_stays(path, back);
    assert(whole[0] == path[0]);
    assert(starts_at_dot(whole) == starts_at_dot(path));
    assert(components(path).len() == names(path).len() + (if is_rooted(path) || starts_at_dot(path) {
        1nat
    } else {
        0nat
    }));
}

/// The directory of a path is the text before its last name, without the
/// separators between the two. The rest of a path behind a directory is kept as
/// it is written.
pub proof fn law_directories_are_kept_as_written(
    base: Seq<u8>,
    first: Seq<u8>,
    middle: Seq<u8>,
    last: Seq<u8>,
)
    requires
        base.len() > 0,
        first.len() > 0,
        forall|i: int| 0 <= i < first.len() ==> first[i] != 0x2f,
        first != seq![0x2eu8],
        last.len() > 0,
        forall|i: int| 0 <= i < last.len() ==> last[i] != 0x2f,
        last != seq![0x2eu8],
        middle.len() > 0,
        middle[0] == 0x2f,
        middle.last() == 0x2f,
    ensures
        parent_text(base + seq![0x2fu8] + first + seq![0x2fu8] + last) == base + seq![0x2fu8]
            + first,
        parent_text(base + seq![0x2fu8] + first + seq![0x2fu8, 0x2fu8] + last) == base
            + seq![0x2fu8] + first,
        parent_text(seq![0x2fu8] + first) == seq![0x2fu8],
        parent_text(first).len() == 0,
        back_text(base + seq![0x2fu8] + first, components(base).len()) == first,
        back_text(base + seq![0x2fu8] + first + middle + last, components(base).len()) == first
            + middle + last,
        back_text(base, components(base).len()).len() == 0,
{
    let slash = seq![SLASH];
    let inner = base + slash + first;
    let all = components(base);
    law_a_name_is_one_more_component(base, first);
    lemma_name_text(first);
    lemma_name_text(last);
    lemma_end_of_name(first);
    lemma_end_of_name(last);
    // The text up to a name ends with it.
    assert(inner =~= base.push(SLASH) + first);
    lemma_components_end_behind(base, first, 1);
    assert(components_end(inner, all.len() + 1) == inner.len());
    assert(inner.take(inner.len() as int) =~= inner);
    assert(inner.subrange(base.len() as int + 1, inner.len() as int) =~= first);
    // A parent is that text.
    let one = inner + slash + last;
    let two = inner + seq![SLASH, SLASH] + last;
    assert(one =~= inner.push(SLASH) + last);
    assert(two =~= inner.push(SLASH).push(SLASH) + last);
    lemma_behind_separator(inner, last);
    lemma_behind_separator(inner.push(SLASH), last);
    lemma_behind_separator(inner, Seq::empty());
    assert(inner.push(SLASH) + Seq::<u8>::empty() =~= inner.push(SLASH));
    assert(names(Seq::empty()) =~= Seq::empty());
    assert(components(inner.push(SLASH)) =~= components(inner));
    assert(components(one).len() == all.len() + 2);
    assert(components(two).len() == all.len() + 2);
    let after_one = first + slash + last;
    let after_two = first + seq![SLASH, SLASH] + last;
    assert(one =~= base.push(SLASH) + after_one);
    assert(two =~= base.push(SLASH) + after_two);
    lemma_components_end_behind(base, after_one, 1);
    lemma_components_end_behind(base, after_two, 1);
    lemma_first_name_ends(first, slash + last);
    lemma_first_name_ends(first, seq![SLASH, SLASH] + last);
    assert(after_one =~= first + (slash + last));
    assert(after_two =~= first + (seq![SLASH, SLASH] + last));
    assert(one.take(inner.len() as int) =~= inner);
    assert(two.take(inner.len() as int) =~= inner);
    // Paths of one name.
    assert((slash + first)[0] == SLASH);
    assert((slash + first).take(1) =~= slash);
    // What stands behind a directory.
    let rest = first + middle + last;
    let whole = base + slash + first + middle + last;
    let front = first + middle.drop_last();
    assert(rest =~= front.push(SLASH) + last);
    assert(whole =~= base.push(SLASH) + rest);
    lemma_behind_separator(base, rest);
    lemma_names_around_separator(front, last);
    let count = names(rest).len();
    assert(names(rest) =~= names(front) + seq![last]);
    lemma_names_end_behind(front, last, 1);
    assert(names_end(rest, count) == rest.len());
    lemma_components_end_behind(base, rest, count);
    lemma_first_name_ends(first, middle + last);
    assert(rest =~= first + (middle + last));
    lemma_components_end_behind(base, rest, 1);
    lemma_first_name(first, middle + last);
    assert(components(whole)[all.len() as int] == first);
    assert(whole.subrange(base.len() as int + 1, whole.len() as int) =~= rest);
}

proof fn lemma_end_of_name(name: Seq<u8>)
    requires
        is_plain(name),
    ensures
        names_end(name, 1) == name.len(),
{
    assert forall|i: int| 0 <= i < name.len() implies name[i] != SLASH by {
        assert(name.contains(name[i]));
    }
    bytes::lemma_index_from_unique(name, SLASH, 0, name.len() as int);
    assert(name.take(name.len() as int) =~= name);
}

proof fn lemma_first_name_ends(name: Seq<u8>, rest: Seq<u8>)
    requires
        is_plain(name),
        rest.len() > 0,
        rest[0] == SLASH,
    ensures
        names_end(name + rest, 1) == name.len(),
{
    let whole = name + rest;
    assert forall|i: int| 0 <= i < name.len() implies whole[i] != SLASH by {
        assert(whole[i] == name[i]);
        assert(name.contains(name[i]));
    }
    assert(whole[name.len() as int] == SLASH);
    bytes::lemma_index_from_unique(whole, SLASH, 0, name.len() as int);
    assert(whole.take(name.len() as int) =~= name);
}

proof fn lemma_first_name(name: Seq<u8>, rest: Seq<u8>)
    requires
        is_plain(name),
        rest.len() > 0,
        rest[0] == SLASH,
    ensures
        names(name + rest).len() > 0,
        names(name + rest)[0] == name,
{
    let whole = name + rest;
    assert forall|i: int| 0 <= i < name.len() implies whole[i] != SLASH by {
        assert(whole[i] == name[i]);
        assert(name.contains(name[i]));
    }
    assert(whole[name.len() as int] == SLASH);
    bytes::lemma_index_from_unique(whole, SLASH, 0, name.len() as int);
    assert(whole.take(name.len() as int) =~= name);
}

/// A set of roots is sorted by components, and no two of it are the same path.
pub proof fn law_root_sets_are_sorted(
    after: Seq<Seq<u8>>,
    before: Seq<Seq<u8>>,
    first: int,
    second: int,
)
    requires
        is_root_set(after, before),
        0 <= first < second < after.len(),
    ensures
        order::list_order(components(after[first]), components(after[second])) == Relation::Before,
        !same_path(after[first], after[second]),
        before.contains(after[first]),
{
    assert(path_order(after[first], after[second]) == Relation::Before);
    order::lemma_list_same(components(after[first]), components(after[second]));
}

/// A path has a directory unless it is empty or the root, and a name unless it
/// ends in dots.
pub proof fn law_paths_have_directories_and_names(path: Seq<u8>, name: Seq<u8>)
    requires
        path.len() > 0,
        name.len() > 0,
        forall|i: int| 0 <= i < name.len() ==> name[i] != 0x2f,
        name != seq![0x2eu8],
    ensures
        has_parent(path + seq![0x2fu8] + name),
        has_parent(name),
        !has_parent(seq![0x2fu8]),
        !has_parent(Seq::<u8>::empty()),
        has_file_name(path + seq![0x2fu8] + name) <==> name != seq![0x2eu8, 0x2eu8],
        !has_file_name(seq![0x2fu8]),
        is_rooted(seq![0x2fu8] + name),
        !is_rooted(name),
{
    law_a_name_is_one_more_component(path, name);
    let slash = seq![SLASH];
    assert(slash[0] == SLASH && seq![DOT][0] == DOT);
    assert(components(path + seq![0x2fu8] + name).last() == name);
    assert(components(name).last() == name);
    assert(seq![slash].last() == slash);
    assert((slash + name)[0] == SLASH);
}

} // verus!
