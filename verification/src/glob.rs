//! Path patterns: `*`, `**`, `?` and character classes.

use crate::bytes;
use crate::paths;
use crate::text;
use vstd::prelude::*;

verus! {

/// `*`
pub const STAR: u8 = 0x2a;

/// `?`
pub const QUESTION: u8 = 0x3f;

/// `[`
pub const OPEN: u8 = 0x5b;

/// `]`
pub const CLOSE: u8 = 0x5d;

/// `-`
pub const DASH: u8 = 0x2d;

/// Whether a byte makes a path a pattern.
pub open spec fn is_glob(byte: u8) -> bool {
    byte == STAR || byte == QUESTION || byte == OPEN || byte == CLOSE
}

/// Whether `class`, the text between brackets, holds `byte`: as one of its
/// bytes, or within one of its `low-high` ranges.
pub open spec fn in_class(byte: u8, class: Seq<u8>) -> bool
    decreases class.len(),
{
    if class.len() == 0 {
        false
    } else if class.len() > 2 && class[1] == DASH {
        class[0] <= byte <= class[2] || in_class(byte, class.skip(3))
    } else {
        byte == class[0] || in_class(byte, class.skip(1))
    }
}

/// Whether a pattern starts with `**/`.
pub open spec fn leads_directories(pattern: Seq<u8>) -> bool {
    pattern.len() > 2 && pattern[0] == STAR && pattern[1] == STAR && pattern[2] == paths::SLASH
}

/// Whether a pattern starts with `**`.
pub open spec fn leads_anything(pattern: Seq<u8>) -> bool {
    pattern.len() > 1 && pattern[0] == STAR && pattern[1] == STAR
}

/// Whether the first `count` bytes hold no separator.
pub open spec fn within_segment(text: Seq<u8>, count: int) -> bool {
    forall|i: int| 0 <= i < count ==> text[i] != paths::SLASH
}

/// Whether `pattern` matches the whole of `text`. `**/` stands for any number
/// of leading directories, `**` for any text, `*` for any text within one
/// component, `?` for one byte and `[...]` for one byte of a class, neither of
/// them a separator. A `[` without its `]` stands for itself.
pub open spec fn matches(pattern: Seq<u8>, text: Seq<u8>) -> bool
    decreases pattern.len(),
{
    proof {
        if pattern.len() > 0 {
            bytes::lemma_index_from(pattern, CLOSE, 1);
        }
    }
    if pattern.len() == 0 {
        text.len() == 0
    } else if leads_directories(pattern) {
        matches(pattern.skip(3), text) || exists|next: int|
            #![trigger text[next]]
            0 <= next < text.len() && text[next] == paths::SLASH && matches(
                pattern.skip(3),
                text.skip(next + 1),
            )
    } else if leads_anything(pattern) {
        exists|next: int|
            0 <= next <= text.len() && matches(pattern.skip(2), #[trigger] text.skip(next))
    } else if pattern[0] == STAR {
        exists|next: int|
            0 <= next <= text.len() && within_segment(text, next) && matches(
                pattern.skip(1),
                #[trigger] text.skip(next),
            )
    } else if pattern[0] == QUESTION {
        text.len() > 0 && text[0] != paths::SLASH && matches(pattern.skip(1), text.skip(1))
    } else if pattern[0] == OPEN {
        let end = bytes::index_from(pattern, CLOSE, 1);
        if end < pattern.len() {
            text.len() > 0 && text[0] != paths::SLASH && in_class(
                text[0],
                pattern.subrange(1, end),
            ) && matches(pattern.skip(end + 1), text.skip(1))
        } else {
            text.len() > 0 && text[0] == OPEN && matches(pattern.skip(1), text.skip(1))
        }
    } else {
        text.len() > 0 && text[0] == pattern[0] && matches(pattern.skip(1), text.skip(1))
    }
}

/// Whether a byte makes a path a pattern.
pub fn is_glob_byte(byte: u8) -> (yes: bool)
    ensures
        yes == is_glob(byte),
{
    byte == STAR || byte == QUESTION || byte == OPEN || byte == CLOSE
}


/// Whether every known answer is right: an entry holds whether the pattern
/// from its row on matches the text from its column on.
pub open spec fn memo_holds(
    memo: Seq<Vec<Option<bool>>>,
    pattern: Seq<u8>,
    text: Seq<u8>,
) -> bool {
    &&& memo.len() == pattern.len() + 1
    &&& forall|row: int| 0 <= row < memo.len() ==> (#[trigger] memo[row])@.len() == text.len() + 1
    &&& forall|row: int, column: int|
        #![trigger memo[row]@[column]]
        0 <= row < memo.len() && 0 <= column <= text.len() && memo[row]@[column] is Some
            ==> memo[row]@[column]->0 == matches(pattern.skip(row), text.skip(column))
}

fn glob_matches_at(
    pattern: &[u8],
    text: &[u8],
    pattern_at: usize,
    text_at: usize,
    memo: &mut Vec<Vec<Option<bool>>>,
) -> (result: bool)
    requires
        pattern_at <= pattern@.len(),
        text_at <= text@.len(),
        memo_holds(old(memo)@, pattern@, text@),
    ensures
        result == matches(pattern@.skip(pattern_at as int), text@.skip(text_at as int)),
        memo_holds(final(memo)@, pattern@, text@),
    decreases pattern@.len() - pattern_at, 1int,
{
    if let Some(known) = memo[pattern_at][text_at] {
        return known;
    }
    let ghost rest = pattern@.skip(pattern_at as int);
    let ghost tail = text@.skip(text_at as int);
    let left = pattern.len() - pattern_at;
    let result = if left == 0 {
        text_at == text.len()
    } else if left > 2 && pattern[pattern_at] == STAR && pattern[pattern_at + 1] == STAR
        && pattern[pattern_at + 2] == paths::SLASH {
        globstar_slash_matches(pattern, text, pattern_at, text_at, memo)
    } else if left > 1 && pattern[pattern_at] == STAR && pattern[pattern_at + 1] == STAR {
        globstar_matches(pattern, text, pattern_at, text_at, memo)
    } else if pattern[pattern_at] == STAR {
        star_matches(pattern, text, pattern_at, text_at, memo)
    } else if pattern[pattern_at] == QUESTION {
        assert(rest.skip(1) =~= pattern@.skip(pattern_at + 1));
        assert(tail.len() > 0 ==> tail.skip(1) =~= text@.skip(text_at + 1));
        text_at < text.len() && text[text_at] != paths::SLASH && glob_matches_at(
            pattern,
            text,
            pattern_at + 1,
            text_at + 1,
            memo,
        )
    } else if pattern[pattern_at] == OPEN {
        class_matches(pattern, text, pattern_at, text_at, memo)
    } else {
        assert(rest.skip(1) =~= pattern@.skip(pattern_at + 1));
        assert(tail.len() > 0 ==> tail.skip(1) =~= text@.skip(text_at + 1));
        text_at < text.len() && text[text_at] == pattern[pattern_at] && glob_matches_at(
            pattern,
            text,
            pattern_at + 1,
            text_at + 1,
            memo,
        )
    };
    assert(result == matches(rest, tail));
    let ghost known = memo@;
    memo[pattern_at][text_at] = Some(result);
    assert forall|row: int, column: int|
        #![trigger memo@[row]@[column]]
        0 <= row < memo@.len() && 0 <= column <= text@.len()
            && memo@[row]@[column] is Some implies memo@[row]@[column]->0 == matches(
        pattern@.skip(row),
        text@.skip(column),
    ) by {
        if row != pattern_at || column != text_at {
            assert(memo@[row]@[column] == known[row]@[column]);
        }
    }
    result
}

fn globstar_slash_matches(
    pattern: &[u8],
    text: &[u8],
    pattern_at: usize,
    text_at: usize,
    memo: &mut Vec<Vec<Option<bool>>>,
) -> (result: bool)
    requires
        pattern_at < pattern.len(),
        text_at <= text@.len(),
        leads_directories(pattern@.skip(pattern_at as int)),
        memo_holds(old(memo)@, pattern@, text@),
    ensures
        result == matches(pattern@.skip(pattern_at as int), text@.skip(text_at as int)),
        memo_holds(final(memo)@, pattern@, text@),
    decreases pattern@.len() - pattern_at, 0int,
{
    let ghost rest = pattern@.skip(pattern_at as int);
    let ghost tail = text@.skip(text_at as int);
    assert(rest.skip(3) =~= pattern@.skip(pattern_at + 3));
    assert(pattern_at + 3 <= pattern.len());
    if glob_matches_at(pattern, text, pattern_at + 3, text_at, memo) {
        return true;
    }
    let mut next: usize = text_at;
    while next < text.len()
        invariant
            pattern_at + 3 <= pattern.len(),
            text_at <= next <= text@.len(),
            rest == pattern@.skip(pattern_at as int),
            tail == text@.skip(text_at as int),
            leads_directories(rest),
            rest.skip(3) == pattern@.skip(pattern_at + 3),
            memo_holds(memo@, pattern@, text@),
            !matches(rest.skip(3), tail),
            forall|i: int|
                #![trigger tail[i]]
                0 <= i < next - text_at && tail[i] == paths::SLASH ==> !matches(
                    rest.skip(3),
                    tail.skip(i + 1),
                ),
        decreases text.len() - next,
    {
        if text[next] == paths::SLASH {
            assert(tail.skip(next - text_at + 1) =~= text@.skip(next + 1));
            assert(tail[next - text_at] == text@[next as int]);
            if glob_matches_at(pattern, text, pattern_at + 3, next + 1, memo) {
                return true;
            }
        }
        next += 1;
    }
    false
}

fn globstar_matches(
    pattern: &[u8],
    text: &[u8],
    pattern_at: usize,
    text_at: usize,
    memo: &mut Vec<Vec<Option<bool>>>,
) -> (result: bool)
    requires
        pattern_at < pattern.len(),
        text_at <= text@.len(),
        leads_anything(pattern@.skip(pattern_at as int)),
        !leads_directories(pattern@.skip(pattern_at as int)),
        memo_holds(old(memo)@, pattern@, text@),
    ensures
        result == matches(pattern@.skip(pattern_at as int), text@.skip(text_at as int)),
        memo_holds(final(memo)@, pattern@, text@),
    decreases pattern@.len() - pattern_at, 0int,
{
    let ghost rest = pattern@.skip(pattern_at as int);
    let ghost tail = text@.skip(text_at as int);
    assert(rest.skip(2) =~= pattern@.skip(pattern_at + 2));
    let mut next: usize = text_at;
    loop
        invariant
            pattern_at + 2 <= pattern.len(),
            text_at <= next <= text@.len(),
            rest == pattern@.skip(pattern_at as int),
            tail == text@.skip(text_at as int),
            leads_anything(rest),
            !leads_directories(rest),
            rest.skip(2) == pattern@.skip(pattern_at + 2),
            memo_holds(memo@, pattern@, text@),
            forall|i: int|
                0 <= i < next - text_at ==> !matches(rest.skip(2), #[trigger] tail.skip(i)),
        decreases text.len() - next,
    {
        assert(tail.skip(next - text_at) =~= text@.skip(next as int));
        if glob_matches_at(pattern, text, pattern_at + 2, next, memo) {
            return true;
        }
        if next == text.len() {
            return false;
        }
        next += 1;
    }
}

fn star_matches(
    pattern: &[u8],
    text: &[u8],
    pattern_at: usize,
    text_at: usize,
    memo: &mut Vec<Vec<Option<bool>>>,
) -> (result: bool)
    requires
        pattern_at < pattern.len(),
        text_at <= text@.len(),
        pattern@[pattern_at as int] == STAR,
        !leads_anything(pattern@.skip(pattern_at as int)),
        memo_holds(old(memo)@, pattern@, text@),
    ensures
        result == matches(pattern@.skip(pattern_at as int), text@.skip(text_at as int)),
        memo_holds(final(memo)@, pattern@, text@),
    decreases pattern@.len() - pattern_at, 0int,
{
    let ghost rest = pattern@.skip(pattern_at as int);
    let ghost tail = text@.skip(text_at as int);
    assert(rest.skip(1) =~= pattern@.skip(pattern_at + 1));
    assert(rest[0] == STAR);
    let mut next: usize = text_at;
    loop
        invariant
            pattern_at + 1 <= pattern.len(),
            text_at <= next <= text@.len(),
            rest == pattern@.skip(pattern_at as int),
            tail == text@.skip(text_at as int),
            rest.len() > 0,
            rest[0] == STAR,
            !leads_anything(rest),
            rest.skip(1) == pattern@.skip(pattern_at + 1),
            memo_holds(memo@, pattern@, text@),
            within_segment(tail, next - text_at),
            forall|i: int|
                0 <= i < next - text_at ==> !matches(rest.skip(1), #[trigger] tail.skip(i)),
        decreases text.len() - next,
    {
        assert(tail.skip(next - text_at) =~= text@.skip(next as int));
        if glob_matches_at(pattern, text, pattern_at + 1, next, memo) {
            return true;
        }
        if next == text.len() || text[next] == paths::SLASH {
            proof {
                if next < text.len() {
                    assert(tail[next - text_at] == paths::SLASH);
                    assert(forall|i: int| i > next - text_at ==> !within_segment(tail, i));
                }
            }
            return false;
        }
        assert(tail[next - text_at] == text@[next as int]);
        next += 1;
    }
}

fn class_matches(
    pattern: &[u8],
    text: &[u8],
    pattern_at: usize,
    text_at: usize,
    memo: &mut Vec<Vec<Option<bool>>>,
) -> (result: bool)
    requires
        pattern_at < pattern.len(),
        text_at <= text@.len(),
        pattern@[pattern_at as int] == OPEN,
        memo_holds(old(memo)@, pattern@, text@),
    ensures
        result == matches(pattern@.skip(pattern_at as int), text@.skip(text_at as int)),
        memo_holds(final(memo)@, pattern@, text@),
    decreases pattern@.len() - pattern_at, 0int,
{
    let ghost rest = pattern@.skip(pattern_at as int);
    let ghost tail = text@.skip(text_at as int);
    let class_end = bytes::find_byte(pattern, CLOSE, pattern_at + 1);
    proof {
        assert forall|i: int| 1 <= i < class_end - pattern_at implies rest[i] != CLOSE by {
            assert(rest[i] == pattern@[pattern_at + i]);
        }
        bytes::lemma_index_from_unique(rest, CLOSE, 1, class_end - pattern_at);
        assert(rest.skip(1) =~= pattern@.skip(pattern_at + 1));
        assert(tail.len() > 0 ==> tail.skip(1) =~= text@.skip(text_at + 1));
        assert(rest[0] == OPEN);
    }
    if class_end == pattern.len() {
        return text_at < text.len() && text[text_at] == OPEN && glob_matches_at(
            pattern,
            text,
            pattern_at + 1,
            text_at + 1,
            memo,
        );
    }
    let class = vstd::slice::slice_subrange(pattern, pattern_at + 1, class_end);
    assert(class@ =~= rest.subrange(1, class_end - pattern_at));
    assert(rest.skip(class_end - pattern_at + 1) =~= pattern@.skip(class_end + 1));
    text_at < text.len() && text[text_at] != paths::SLASH && byte_in_class(text[text_at], class)
        && glob_matches_at(pattern, text, class_end + 1, text_at + 1, memo)
}

/// Whether the bracket text `class` holds `byte`.
pub fn byte_in_class(byte: u8, class: &[u8]) -> (found: bool)
    ensures
        found == in_class(byte, class@),
{
    let mut at: usize = 0;
    assert(class@.skip(0) =~= class@);
    while at < class.len()
        invariant
            at <= class@.len(),
            in_class(byte, class@) == in_class(byte, class@.skip(at as int)),
        decreases class.len() - at,
    {
        let ghost rest = class@.skip(at as int);
        if class.len() - at > 2 && class[at + 1] == DASH {
            assert(rest.skip(3) =~= class@.skip(at + 3));
            if byte >= class[at] && byte <= class[at + 2] {
                return true;
            }
            at += 3;
        } else {
            assert(rest.skip(1) =~= class@.skip(at + 1));
            if byte == class[at] {
                return true;
            }
            at += 1;
        }
    }
    false
}

/// Whether `pattern` matches the whole of `text`.
pub fn glob_matches(pattern: &[u8], text: &[u8]) -> (result: bool)
    ensures
        result == matches(pattern@, text@),
{
    let mut memo: Vec<Vec<Option<bool>>> = Vec::new();
    while memo.len() <= pattern.len()
        invariant
            memo@.len() <= pattern@.len() + 1,
            forall|row: int|
                0 <= row < memo@.len() ==> (#[trigger] memo@[row])@.len() == text@.len() + 1,
            forall|row: int, column: int|
                #![trigger memo@[row]@[column]]
                0 <= row < memo@.len() && 0 <= column <= text@.len() ==> memo@[row]@[column]
                    is None,
        decreases pattern@.len() + 1 - memo@.len(),
    {
        let mut row: Vec<Option<bool>> = Vec::new();
        while row.len() <= text.len()
            invariant
                row@.len() <= text@.len() + 1,
                forall|column: int| 0 <= column < row@.len() ==> row@[column] is None,
            decreases text@.len() + 1 - row@.len(),
        {
            row.push(None);
        }
        memo.push(row);
    }
    assert(pattern@.skip(0) =~= pattern@);
    assert(text@.skip(0) =~= text@);
    glob_matches_at(pattern, text, 0, 0, &mut memo)
}

/// Whether the text of `path` matches `pattern`.
pub fn path_matches_glob_str(path: &[u8], pattern: &str) -> (result: bool)
    ensures
        result == matches(vstd::utf8::encode_utf8(pattern@), vstd::utf8::encode_utf8(text::shown(path@))),
{
    let shown = text::show(path);
    glob_matches(pattern.as_bytes(), shown.as_str().as_bytes())
}

/// Where the first byte that makes a pattern stands, or the text's length.
pub open spec fn first_glob(text: Seq<u8>) -> int
    decreases text.len(),
{
    if text.len() == 0 || is_glob(text[0]) {
        0
    } else {
        1 + first_glob(text.skip(1))
    }
}

proof fn lemma_first_glob(text: Seq<u8>)
    ensures
        0 <= first_glob(text) <= text.len(),
        first_glob(text) < text.len() ==> is_glob(text[first_glob(text)]),
        forall|i: int| 0 <= i < first_glob(text) ==> !is_glob(#[trigger] text[i]),
    decreases text.len(),
{
    if text.len() > 0 && !is_glob(text[0]) {
        let rest = text.skip(1);
        lemma_first_glob(rest);
        assert forall|i: int| 0 <= i < first_glob(text) implies !is_glob(#[trigger] text[i]) by {
            if i > 0 {
                assert(text[i] == rest[i - 1]);
            }
        }
    }
}

/// A text is a pattern where it holds a `*`, a `?` or a bracket.
pub proof fn lemma_pattern_text(text: Seq<u8>)
    ensures
        first_glob(text) < text.len() <==> exists|i: int|
            0 <= i < text.len() && (text[i] == 0x2a || text[i] == 0x3f || text[i] == 0x5b
                || #[trigger] text[i] == 0x5d),
{
    lemma_first_glob(text);
    if first_glob(text) < text.len() {
        assert(is_glob(text[first_glob(text)]));
    } else {
        assert forall|i: int| 0 <= i < text.len() implies !is_glob(#[trigger] text[i]) by {}
    }
}

proof fn lemma_first_glob_unique(text: Seq<u8>, at: int)
    requires
        0 <= at <= text.len(),
        at < text.len() ==> is_glob(text[at]),
        forall|i: int| 0 <= i < at ==> !is_glob(#[trigger] text[i]),
    ensures
        first_glob(text) == at,
{
    lemma_first_glob(text);
    let found = first_glob(text);
    if found < at {
        assert(!is_glob(text[found]));
    }
}

/// Where the first byte that makes a pattern stands, or the text's length.
pub fn find_glob(text: &[u8]) -> (at: usize)
    ensures
        at == first_glob(text@),
{
    let mut at: usize = 0;
    while at < text.len() && !is_glob_byte(text[at])
        invariant
            at <= text@.len(),
            forall|i: int| 0 <= i < at ==> !is_glob(#[trigger] text@[i]),
        decreases text.len() - at,
    {
        at += 1;
    }
    proof {
        lemma_first_glob_unique(text@, at as int);
    }
    at
}

/// A path without its trailing separators.
pub open spec fn trimmed(path: Seq<u8>) -> Seq<u8>
    decreases path.len(),
{
    if path.len() > 0 && path.last() == paths::SLASH {
        trimmed(path.drop_last())
    } else {
        path
    }
}

/// The directory that holds every path a pattern can match: what stands before
/// the pattern's first special byte, up to its last separator.
pub open spec fn base_of(pattern: Seq<u8>) -> Seq<u8> {
    let prefix = pattern.take(first_glob(pattern));
    if first_glob(pattern) == pattern.len() {
        pattern
    } else {
        let base = if prefix.len() > 0 && prefix.last() == paths::SLASH {
            trimmed(prefix)
        } else if paths::has_parent(prefix) {
            paths::parent_text(prefix)
        } else {
            Seq::empty()
        };
        if base.len() == 0 {
            seq![paths::SLASH]
        } else {
            base
        }
    }
}

/// The directory that holds every path `pattern` can match.
pub fn glob_base(pattern: &str) -> (base: Vec<u8>)
    ensures
        base@ == base_of(vstd::utf8::encode_utf8(pattern@)),
{
    let text = pattern.as_bytes();
    let glob_at = find_glob(text);
    proof {
        lemma_first_glob(text@);
    }
    if glob_at == text.len() {
        return bytes::copy_bytes(text);
    }
    let prefix = vstd::slice::slice_subrange(text, 0, glob_at);
    assert(prefix@ =~= text@.take(glob_at as int));
    let base = if prefix.len() > 0 && prefix[prefix.len() - 1] == paths::SLASH {
        let mut base = bytes::copy_bytes(prefix);
        while base.len() > 0 && base[base.len() - 1] == paths::SLASH
            invariant
                trimmed(base@) == trimmed(prefix@),
            decreases base.len(),
        {
            base.pop();
        }
        base
    } else {
        match paths::parent(prefix) {
            Some(base) => base,
            None => Vec::new(),
        }
    };
    if base.len() == 0 {
        return vec![paths::SLASH];
    }
    base
}

/// A pattern without special bytes matches its own text and nothing else.
pub proof fn law_plain_pattern_matches_itself_only(pattern: Seq<u8>, text: Seq<u8>)
    requires
        first_glob(pattern) == pattern.len(),
    ensures
        matches(pattern, text) <==> text == pattern,
    decreases pattern.len(),
{
    if pattern.len() > 0 {
        let rest = pattern.skip(1);
        lemma_first_glob(pattern);
        lemma_first_glob(rest);
        assert(!is_glob(pattern[0]));
        assert(first_glob(rest) == rest.len());
        if text.len() > 0 {
            law_plain_pattern_matches_itself_only(rest, text.skip(1));
            assert(pattern =~= seq![pattern[0]] + rest);
            assert(text =~= seq![text[0]] + text.skip(1));
        }
    } else {
        assert(text.len() == 0 ==> text =~= pattern);
    }
}

/// Whatever a pattern matches starts with what the pattern holds before its
/// first special byte.
pub proof fn law_match_starts_with_the_plain_part(pattern: Seq<u8>, text: Seq<u8>)
    requires
        matches(pattern, text),
    ensures
        first_glob(pattern) <= text.len(),
        text.take(first_glob(pattern)) == pattern.take(first_glob(pattern)),
    decreases pattern.len(),
{
    lemma_first_glob(pattern);
    if pattern.len() > 0 && !is_glob(pattern[0]) {
        let rest = pattern.skip(1);
        let count = first_glob(rest);
        law_match_starts_with_the_plain_part(rest, text.skip(1));
        lemma_first_glob(rest);
        assert forall|i: int| 0 <= i < count + 1 implies text[i] == pattern[i] by {
            if i > 0 {
                assert(text.skip(1).take(count)[i - 1] == rest.take(count)[i - 1]);
            }
        }
        assert(text.take(count + 1) =~= pattern.take(count + 1));
    } else {
        assert(text.take(0) =~= pattern.take(0));
    }
}

/// `*` matches exactly the texts without a separator.
pub proof fn law_star_stays_within_a_component(text: Seq<u8>)
    ensures
        matches(seq![STAR], text) <==> within_segment(text, text.len() as int),
{
    let pattern = seq![STAR];
    assert(pattern.skip(1) =~= Seq::<u8>::empty());
    assert forall|rest: Seq<u8>| matches(pattern.skip(1), rest) == (rest.len() == 0) by {}
    if matches(pattern, text) {
        let next = choose|next: int|
            0 <= next <= text.len() && within_segment(text, next) && matches(
                pattern.skip(1),
                #[trigger] text.skip(next),
            );
        assert(text.skip(next).len() == 0);
    }
    if within_segment(text, text.len() as int) {
        assert(text.skip(text.len() as int).len() == 0);
    }
}

/// `**` matches every text.
pub proof fn law_double_star_matches_everything(text: Seq<u8>)
    ensures
        matches(seq![STAR, STAR], text),
{
    let pattern = seq![STAR, STAR];
    assert(pattern.skip(2) =~= Seq::<u8>::empty());
    assert(text.skip(text.len() as int).len() == 0);
    assert(matches(pattern.skip(2), text.skip(text.len() as int)));
}

/// `**/` in front of a pattern lets it match what it matched, at any depth:
/// below any leading directories, or below none.
pub proof fn law_leading_directories_are_optional(
    pattern: Seq<u8>,
    directories: Seq<u8>,
    text: Seq<u8>,
)
    requires
        matches(pattern, text),
    ensures
        matches(seq![STAR, STAR, paths::SLASH] + pattern, text),
        matches(
            seq![STAR, STAR, paths::SLASH] + pattern,
            directories.push(paths::SLASH) + text,
        ),
{
    let deep = seq![STAR, STAR, paths::SLASH] + pattern;
    let whole = directories.push(paths::SLASH) + text;
    assert(deep.skip(3) =~= pattern);
    assert(whole[directories.len() as int] == paths::SLASH);
    assert(whole.skip(directories.len() as int + 1) =~= text);
}

proof fn lemma_trimmed(path: Seq<u8>)
    ensures
        trimmed(path).len() <= path.len(),
        trimmed(path) == path.take(trimmed(path).len() as int),
        paths::names(trimmed(path)) == paths::names(path),
    decreases path.len(),
{
    if path.len() > 0 && path.last() == paths::SLASH {
        let shorter = path.drop_last();
        lemma_trimmed(shorter);
        assert(trimmed(path) =~= path.take(trimmed(path).len() as int));
        paths::lemma_names_around_separator(shorter, Seq::empty());
        assert(path =~= shorter.push(paths::SLASH) + Seq::<u8>::empty());
        assert(paths::names(path) =~= paths::names(shorter));
    } else {
        assert(path =~= path.take(path.len() as int));
    }
}

/// Everything a rooted pattern matches lies in the directory it is looked for
/// in.
pub proof fn law_base_covers_every_match(pattern: Seq<u8>, text: Seq<u8>)
    requires
        paths::is_rooted(pattern),
        matches(pattern, text),
    ensures
        paths::under(text, base_of(pattern)),
{
    let count = first_glob(pattern);
    let prefix = pattern.take(count);
    let root = seq![seq![paths::SLASH]];
    lemma_first_glob(pattern);
    law_match_starts_with_the_plain_part(pattern, text);
    if count == pattern.len() {
        law_plain_pattern_matches_itself_only(pattern, text);
        assert(paths::components(text).take(paths::components(text).len() as int)
            =~= paths::components(text));
    } else {
        assert(is_glob(pattern[count]));
        assert(!is_glob(pattern[0]));
        assert(prefix[0] == paths::SLASH);
        assert(text.take(count)[0] == prefix[0]);
        let rest = text.skip(count);
        assert(text =~= prefix + rest);
        let all = paths::components(text);
        let covering = paths::components(base_of(pattern));
        if prefix.last() == paths::SLASH {
            let inner = prefix.drop_last();
            lemma_trimmed(prefix);
            paths::lemma_names_around_separator(inner, rest);
            paths::lemma_names_around_separator(inner, Seq::empty());
            assert(text =~= inner.push(paths::SLASH) + rest);
            assert(prefix =~= inner.push(paths::SLASH) + Seq::<u8>::empty());
            assert(paths::names(prefix) =~= paths::names(inner));
            if trimmed(prefix).len() == 0 {
                paths::lemma_names_around_separator(Seq::empty(), Seq::empty());
                assert(seq![paths::SLASH] =~= Seq::<u8>::empty().push(paths::SLASH)
                    + Seq::<u8>::empty());
            } else {
                assert(trimmed(prefix)[0] == paths::SLASH);
            }
            assert(covering =~= root + paths::names(inner));
            assert(all =~= covering + paths::names(rest));
        } else {
            let from = paths::lemma_last_separator(prefix);
            let inner = prefix.take(from);
            let partial = prefix.skip(from + 1);
            paths::lemma_names_around_separator(inner, partial);
            paths::lemma_names_around_separator(inner, partial + rest);
            paths::lemma_single_segment(partial);
            assert(prefix =~= inner.push(paths::SLASH) + partial);
            assert(text =~= inner.push(paths::SLASH) + (partial + rest));
            let shared = root + paths::names(inner);
            let parts = paths::components(prefix);
            assert(parts =~= shared + paths::names(partial));
            assert(all =~= shared + paths::names(partial + rest));
            paths::lemma_components_shape(prefix);
            if paths::has_parent(prefix) {
                let kept = parts.drop_last();
                assert(parts[0] == seq![paths::SLASH]);
                assert(kept =~= shared.take(kept.len() as int));
                assert(kept[0] == seq![paths::SLASH]);
                paths::lemma_front_text(prefix, kept.len());
                assert(parts.take(kept.len() as int) =~= kept);
                assert(paths::parent_text(prefix).len() > 0) by {
                    assert(paths::components(Seq::<u8>::empty()).len() == 0);
                }
                assert(covering == kept);
                assert(all.take(kept.len() as int) =~= kept);
            } else {
                paths::lemma_names_around_separator(Seq::empty(), Seq::empty());
                assert(seq![paths::SLASH] =~= Seq::<u8>::empty().push(paths::SLASH)
                    + Seq::<u8>::empty());
                assert(covering =~= root);
                assert(all.take(1) =~= root);
            }
        }
        assert(all.take(covering.len() as int) =~= covering);
    }
}

/// The bytes of a pattern that are not special stand for themselves, a question
/// mark for one byte that is no separator, and nothing but the empty text
/// matches an empty pattern.
pub proof fn law_single_bytes_match_one_byte(byte: u8, other: u8, pattern: Seq<u8>, text: Seq<u8>)
    ensures
        matches(Seq::empty(), text) <==> text.len() == 0,
        byte != 0x2a && byte != 0x3f && byte != 0x5b ==> (matches(
            seq![byte] + pattern,
            seq![other] + text,
        ) <==> byte == other && matches(pattern, text)),
        byte != 0x2a && byte != 0x5b ==> !matches(seq![byte] + pattern, Seq::empty()),
        matches(seq![0x3fu8] + pattern, seq![other] + text) <==> other != 0x2f && matches(
            pattern,
            text,
        ),
{
    let whole = seq![other] + text;
    assert((seq![byte] + pattern)[0] == byte);
    assert((seq![0x3fu8] + pattern)[0] == QUESTION);
    assert((seq![byte] + pattern).skip(1) =~= pattern);
    assert((seq![0x3fu8] + pattern).skip(1) =~= pattern);
    assert(whole[0] == other);
    assert(whole.skip(1) =~= text);
}

/// A star stands for any text without a separator, two stars for any text, and
/// two stars and a separator for nothing or for any text up to a separator. What
/// follows has to match the rest.
pub proof fn law_stars_match_what_they_may(
    pattern: Seq<u8>,
    front: Seq<u8>,
    back: Seq<u8>,
    text: Seq<u8>,
)
    ensures
        !(pattern.len() > 0 && pattern[0] == 0x2a) && matches(pattern, back) && (forall|i: int|
            0 <= i < front.len() ==> front[i] != 0x2f) ==> matches(
            seq![0x2au8] + pattern,
            front + back,
        ),
        !(pattern.len() > 0 && pattern[0] == 0x2a) && matches(seq![0x2au8] + pattern, text)
            ==> exists|next: int|
            0 <= next <= text.len() && (forall|i: int| 0 <= i < next ==> text[i] != 0x2f)
                && #[trigger] matches(pattern, text.skip(next)),
        !(pattern.len() > 0 && pattern[0] == 0x2f) && matches(pattern, back) ==> matches(
            seq![0x2au8, 0x2au8] + pattern,
            front + back,
        ),
        !(pattern.len() > 0 && pattern[0] == 0x2f) && matches(
            seq![0x2au8, 0x2au8] + pattern,
            text,
        ) ==> exists|next: int|
            0 <= next <= text.len() && #[trigger] matches(pattern, text.skip(next)),
        matches(seq![0x2au8, 0x2au8, 0x2fu8] + pattern, text) ==> matches(pattern, text) || exists|
            next: int,
        |
            0 <= next < text.len() && text[next] == 0x2f && #[trigger] matches(
                pattern,
                text.skip(next + 1),
            ),
{
    let one = seq![0x2au8] + pattern;
    let two = seq![0x2au8, 0x2au8] + pattern;
    let three = seq![0x2au8, 0x2au8, 0x2fu8] + pattern;
    let whole = front + back;
    assert(one[0] == STAR && one.skip(1) =~= pattern);
    assert(pattern.len() > 0 ==> one[1] == pattern[0]);
    assert(two[0] == STAR && two[1] == STAR && two.skip(2) =~= pattern);
    assert(pattern.len() > 0 ==> two[2] == pattern[0]);
    assert(three[0] == STAR && three[1] == STAR && three[2] == paths::SLASH);
    assert(three.skip(3) =~= pattern);
    assert(whole.skip(front.len() as int) =~= back);
    if forall|i: int| 0 <= i < front.len() ==> front[i] != 0x2f {
        assert forall|i: int| 0 <= i < front.len() implies whole[i] != paths::SLASH by {
            assert(whole[i] == front[i]);
        }
        assert(within_segment(whole, front.len() as int));
    }
    if !(pattern.len() > 0 && pattern[0] == 0x2a) && matches(one, text) {
        let next = choose|next: int|
            0 <= next <= text.len() && within_segment(text, next) && matches(
                one.skip(1),
                #[trigger] text.skip(next),
            );
        assert(matches(pattern, text.skip(next)));
    }
    if !(pattern.len() > 0 && pattern[0] == 0x2f) && matches(two, text) {
        let next = choose|next: int|
            0 <= next <= text.len() && matches(two.skip(2), #[trigger] text.skip(next));
        assert(matches(pattern, text.skip(next)));
    }
    if matches(three, text) && !matches(pattern, text) {
        let next = choose|next: int|
            #![trigger text[next]]
            0 <= next < text.len() && text[next] == paths::SLASH && matches(
                three.skip(3),
                text.skip(next + 1),
            );
        assert(matches(pattern, text.skip(next + 1)));
    }
}

/// A class in brackets stands for one byte that it holds and that is no
/// separator. It holds each of its bytes, and all bytes from the one before a
/// dash to the one behind it. A bracket that is not closed stands for itself.
pub proof fn law_classes_match_one_of_their_bytes(
    class: Seq<u8>,
    pattern: Seq<u8>,
    byte: u8,
    text: Seq<u8>,
    low: u8,
    high: u8,
)
    ensures
        (forall|i: int| 0 <= i < class.len() ==> class[i] != 0x5d) ==> (matches(
            seq![0x5bu8] + class + seq![0x5du8] + pattern,
            seq![byte] + text,
        ) <==> byte != 0x2f && in_class(byte, class) && matches(pattern, text)),
        (forall|i: int| 0 <= i < pattern.len() ==> pattern[i] != 0x5d) ==> (matches(
            seq![0x5bu8] + pattern,
            seq![byte] + text,
        ) <==> byte == 0x5b && matches(pattern, text)),
        !in_class(byte, Seq::empty()),
        in_class(byte, seq![low, 0x2du8, high] + class) <==> low <= byte <= high || in_class(
            byte,
            class,
        ),
        class.len() < 2 || class[0] != 0x2d ==> (in_class(byte, seq![low] + class) <==> byte == low
            || in_class(byte, class)),
{
    let whole = seq![byte] + text;
    assert(whole[0] == byte && whole.skip(1) =~= text);
    if forall|i: int| 0 <= i < class.len() ==> class[i] != 0x5d {
        let closed = seq![0x5bu8] + class + seq![0x5du8] + pattern;
        let end = 1 + class.len() as int;
        assert(closed[0] == OPEN && closed[end] == CLOSE);
        assert forall|i: int| 1 <= i < end implies closed[i] != CLOSE by {
            assert(closed[i] == class[i - 1]);
        }
        bytes::lemma_index_from_unique(closed, CLOSE, 1, end);
        assert(closed.subrange(1, end) =~= class);
        assert(closed.skip(end + 1) =~= pattern);
    }
    if forall|i: int| 0 <= i < pattern.len() ==> pattern[i] != 0x5d {
        let open = seq![0x5bu8] + pattern;
        assert(open[0] == OPEN);
        assert forall|i: int| 1 <= i < open.len() implies open[i] != CLOSE by {
            assert(open[i] == pattern[i - 1]);
        }
        bytes::lemma_index_from_unique(open, CLOSE, 1, open.len() as int);
        assert(open.skip(1) =~= pattern);
    }
    let range = seq![low, 0x2du8, high] + class;
    assert(range[0] == low && range[1] == DASH && range[2] == high);
    assert(range.skip(3) =~= class);
    let single = seq![low] + class;
    assert(single[0] == low && single.skip(1) =~= class);
    assert(class.len() > 0 ==> single[1] == class[0]);
}

/// A pattern is looked for in the directory that its text names before the
/// component with the first special byte. A text without special bytes is its
/// own directory.
pub proof fn law_base_is_the_last_plain_directory(
    directory: Seq<u8>,
    partial: Seq<u8>,
    special: u8,
    rest: Seq<u8>,
)
    requires
        directory.len() > 0,
        directory[0] == 0x2f,
        directory.last() != 0x2f,
        forall|i: int|
            0 <= i < directory.len() ==> directory[i] != 0x2a && directory[i] != 0x3f && directory[i]
                != 0x5b && directory[i] != 0x5d,
        forall|i: int|
            0 <= i < partial.len() ==> partial[i] != 0x2a && partial[i] != 0x3f && partial[i] != 0x5b
                && partial[i] != 0x5d && partial[i] != 0x2f,
        partial != seq![0x2eu8],
        special == 0x2a || special == 0x3f || special == 0x5b || special == 0x5d,
    ensures
        base_of(directory) == directory,
        paths::same_path(
            base_of(directory + seq![0x2fu8] + partial + seq![special] + rest),
            directory,
        ),
        partial.len() == 0 ==> base_of(
            directory + seq![0x2fu8] + partial + seq![special] + rest,
        ) == directory,
{
    let prefix = directory + seq![0x2fu8] + partial;
    let pattern = prefix + seq![special] + rest;
    let count = prefix.len() as int;
    assert(pattern[count] == special);
    assert forall|i: int| 0 <= i < count implies !is_glob(#[trigger] pattern[i]) by {
        if i < directory.len() {
            assert(pattern[i] == directory[i]);
        } else if i > directory.len() {
            assert(pattern[i] == partial[i - directory.len() - 1]);
        }
    }
    lemma_first_glob_unique(pattern, count);
    lemma_first_glob_unique(directory, directory.len() as int);
    assert(directory.take(directory.len() as int) =~= directory);
    assert(pattern.take(count) =~= prefix);
    if partial.len() == 0 {
        assert(prefix =~= directory.push(paths::SLASH));
        assert(prefix.drop_last() =~= directory);
        assert(trimmed(directory) == directory);
        assert(trimmed(prefix) == trimmed(prefix.drop_last()));
    } else {
        assert(prefix.last() == partial.last());
        paths::law_a_name_is_one_more_component(directory, partial);
        let parts = paths::components(prefix);
        let all = paths::components(directory);
        assert(parts == all.push(partial));
        assert(parts.last() == partial);
        assert(seq![paths::SLASH][0] == paths::SLASH);
        paths::lemma_front_text(prefix, all.len());
        assert(parts.take(all.len() as int) =~= all);
        assert(all.len() > 0);
        assert(paths::parent_text(prefix).len() > 0) by {
            assert(paths::components(Seq::<u8>::empty()).len() == 0);
        }
    }
}

} // verus!
