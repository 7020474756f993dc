//! What the regular expressions of a profile match, and that they match what
//! the patterns they come from do.

use crate::glob;
use crate::paths;
use crate::seatbelt;
use vstd::prelude::*;

verus! {

/// Where a character stands from a place on, or the length.
pub open spec fn char_index(text: Seq<char>, character: char, from: int) -> int
    decreases text.len() - from,
{
    if from >= text.len() {
        text.len() as int
    } else if text[from] == character {
        from
    } else {
        char_index(text, character, from + 1)
    }
}

/// A place of a character lies behind where it is looked for.
pub proof fn lemma_char_index(text: Seq<char>, character: char, from: int)
    requires
        0 <= from <= text.len(),
    ensures
        from <= char_index(text, character, from) <= text.len(),
    decreases text.len() - from,
{
    if from < text.len() && text[from] != character {
        lemma_char_index(text, character, from + 1);
    }
}

/// How long the first element of an expression is: an escaped character, a
/// class up to its `]`, which does not count where the class begins, or a
/// character.
pub open spec fn atom_len(regex: Seq<char>) -> int {
    if regex.len() > 1 && regex[0] == '\\' {
        2
    } else if regex.len() > 2 && regex[0] == '[' {
        let end = char_index(
            regex,
            ']',
            if regex[1] == '^' {
                3
            } else {
                2
            },
        );
        if end < regex.len() {
            end + 1
        } else {
            1
        }
    } else {
        1
    }
}

/// Whether a character is listed in a class, by itself or in a range.
pub open spec fn listed(character: char, list: Seq<char>) -> bool
    decreases list.len(),
{
    if list.len() == 0 {
        false
    } else if list.len() > 2 && list[1] == '-' {
        list[0] <= character <= list[2] || listed(character, list.skip(3))
    } else {
        character == list[0] || listed(character, list.skip(1))
    }
}

/// Whether an element matches a character: `.` any but the end of a line, a
/// class those it lists or, after `^`, those it does not, and an escaped
/// character or any other itself.
pub open spec fn atom_matches(atom: Seq<char>, character: char) -> bool {
    if atom.len() == 1 {
        if atom[0] == '.' {
            character != '\n'
        } else {
            character == atom[0]
        }
    } else if atom[0] == '\\' {
        character == atom[1]
    } else if atom[1] == '^' {
        !listed(character, atom.subrange(2, atom.len() - 1))
    } else {
        listed(character, atom.subrange(1, atom.len() - 1))
    }
}

/// Whether an element matches each of the first characters of a text.
pub open spec fn atom_repeats(atom: Seq<char>, text: Seq<char>, count: int) -> bool {
    forall|i: int| 0 <= i < count ==> atom_matches(atom, #[trigger] text[i])
}

/// Whether an expression without anchors matches the whole of a text. `*`
/// repeats an element, and `?` makes a group optional. Groups do not nest.
pub open spec fn matches_whole(regex: Seq<char>, text: Seq<char>) -> bool
    decreases regex.len(),
{
    proof {
        if regex.len() > 0 {
            lemma_char_index(regex, ')', 1);
        }
        if regex.len() > 2 {
            lemma_char_index(regex, ']', 2);
            lemma_char_index(regex, ']', 3);
        }
    }
    if regex.len() == 0 {
        text.len() == 0
    } else if regex[0] == '(' {
        let end = char_index(regex, ')', 1);
        if end >= regex.len() {
            false
        } else if end + 1 < regex.len() && regex[end + 1] == '?' {
            matches_whole(regex.skip(end + 2), text) || matches_whole(
                regex.subrange(1, end) + regex.skip(end + 2),
                text,
            )
        } else {
            matches_whole(regex.subrange(1, end) + regex.skip(end + 1), text)
        }
    } else {
        let count = atom_len(regex);
        if count < regex.len() && regex[count] == '*' {
            exists|next: int|
                0 <= next <= text.len() && atom_repeats(regex.take(count), text, next)
                    && matches_whole(regex.skip(count + 1), #[trigger] text.skip(next))
        } else {
            text.len() > 0 && atom_matches(regex.take(count), text[0]) && matches_whole(
                regex.skip(count),
                text.skip(1),
            )
        }
    }
}

/// Whether an expression between `^` and `$` matches a text.
pub open spec fn matches_anchored(regex: Seq<char>, text: Seq<char>) -> bool {
    &&& regex.len() >= 2
    &&& regex[0] == '^'
    &&& regex.last() == '$'
    &&& matches_whole(regex.subrange(1, regex.len() - 1), text)
}

/// ASCII characters as bytes.
spec fn ascii(text: Seq<char>) -> Seq<u8> {
    text.map_values(|character: char| character as u8)
}

proof fn lemma_ascii_is_encoded(text: Seq<char>)
    requires
        vstd::utf8::is_ascii_chars(text),
    ensures
        vstd::utf8::encode_utf8(text) == ascii(text),
{
    vstd::utf8::is_ascii_chars_encode_utf8(text);
    assert(vstd::utf8::encode_utf8(text) =~= ascii(text));
}

/// Whether a text is plain: ASCII on one line.
spec fn plain(text: Seq<char>) -> bool {
    vstd::utf8::is_ascii_chars(text) && !text.contains('\n')
}

/// Whether a pattern is ASCII and without classes.
spec fn classless(pattern: Seq<char>) -> bool {
    vstd::utf8::is_ascii_chars(pattern) && !pattern.contains('[')
}

proof fn lemma_rest(pattern: Seq<char>, count: int)
    requires
        0 <= count <= pattern.len(),
    ensures
        ascii(pattern).skip(count) == ascii(pattern.skip(count)),
        classless(pattern) ==> classless(pattern.skip(count)),
        plain(pattern) ==> plain(pattern.skip(count)),
{
    let rest = pattern.skip(count);
    assert(ascii(pattern).skip(count) =~= ascii(rest));
    assert forall|i: int| 0 <= i < rest.len() implies rest[i] == pattern[count + i] by {}
    if rest.contains('[') {
        let i = choose|i: int| 0 <= i < rest.len() && rest[i] == '[';
        assert(pattern[count + i] == '[');
    }
    if rest.contains('\n') {
        let i = choose|i: int| 0 <= i < rest.len() && rest[i] == '\n';
        assert(pattern[count + i] == '\n');
    }
}

/// What a pattern becomes starts with neither `*` nor `?`, so it repeats
/// nothing that stands before it.
proof fn lemma_body_starts(pattern: Seq<char>)
    ensures
        seatbelt::regex_body(pattern).len() > 0 ==> seatbelt::regex_body(pattern)[0] != '*'
            && seatbelt::regex_body(pattern)[0] != '?',
{
    reveal_strlit("(.*/)?");
    reveal_strlit(".*");
    reveal_strlit("[^/]*");
    reveal_strlit("[^/]");
    reveal_strlit("\\[");
    if pattern.len() > 0 {
        seatbelt::lemma_class_end(pattern, 1);
    }
}

/// A character that stands for itself, escaped or not.
proof fn lemma_literal(front: Seq<char>, character: char, rest: Seq<char>, text: Seq<char>)
    requires
        rest.len() > 0 ==> rest[0] != '*',
        front == seq!['\\', character] || front == seq![character] && character != '.' && character
            != '(' && character != '[' && character != '\\',
    ensures
        matches_whole(front + rest, text) == (text.len() > 0 && text[0] == character
            && matches_whole(rest, text.skip(1))),
{
    let whole = front + rest;
    let count = front.len() as int;
    assert(atom_len(whole) == count);
    assert(whole.take(count) =~= front);
    assert(whole.skip(count) =~= rest);
    assert(count < whole.len() ==> whole[count] == rest[0]);
}

/// `[^/]` matches one character within a component.
proof fn lemma_within(rest: Seq<char>, text: Seq<char>)
    requires
        rest.len() > 0 ==> rest[0] != '*',
    ensures
        matches_whole("[^/]"@ + rest, text) == (text.len() > 0 && text[0] != '/' && matches_whole(
            rest,
            text.skip(1),
        )),
{
    reveal_strlit("[^/]");
    let whole = "[^/]"@ + rest;
    lemma_class_atom(whole);
    assert(whole.skip(4) =~= rest);
    assert(4 < whole.len() ==> whole[4] == rest[0]);
}

proof fn lemma_class_atom(whole: Seq<char>)
    requires
        whole.len() >= 4,
        whole[0] == '[',
        whole[1] == '^',
        whole[2] == '/',
        whole[3] == ']',
    ensures
        atom_len(whole) == 4,
        forall|character: char| #[trigger]
            atom_matches(whole.take(4), character) == (character != '/'),
{
    assert(char_index(whole, ']', 3) == 3);
    let atom = whole.take(4);
    assert forall|character: char| #[trigger] atom_matches(atom, character) == (character
        != '/') by {
        let list = atom.subrange(2, 3);
        assert(list =~= seq!['/']);
        assert(list.skip(1) =~= Seq::empty());
        reveal_with_fuel(listed, 2);
    }
}

/// `[^/]*` matches any text within a component.
proof fn lemma_component(rest: Seq<char>, text: Seq<char>)
    ensures
        matches_whole("[^/]*"@ + rest, text) == exists|next: int|
            0 <= next <= text.len() && no_slash(text, next) && matches_whole(
                rest,
                #[trigger] text.skip(next),
            ),
{
    reveal_strlit("[^/]*");
    let whole = "[^/]*"@ + rest;
    lemma_class_atom(whole);
    assert(whole.skip(5) =~= rest);
    assert forall|next: int| 0 <= next <= text.len() implies atom_repeats(
        whole.take(4),
        text,
        next,
    ) == #[trigger] no_slash(text, next) by {
        if atom_repeats(whole.take(4), text, next) {
            assert forall|i: int| 0 <= i < next implies #[trigger] text[i] != '/' by {
                assert(atom_matches(whole.take(4), text[i]));
            }
        }
    }
    if matches_whole(whole, text) {
        let next = choose|next: int|
            0 <= next <= text.len() && atom_repeats(whole.take(4), text, next) && matches_whole(
                whole.skip(5),
                #[trigger] text.skip(next),
            );
        assert(no_slash(text, next));
        assert(matches_whole(rest, text.skip(next)));
    }
    if exists|next: int|
        0 <= next <= text.len() && no_slash(text, next) && matches_whole(
            rest,
            #[trigger] text.skip(next),
        ) {
        let next = choose|next: int|
            0 <= next <= text.len() && no_slash(text, next) && matches_whole(
                rest,
                #[trigger] text.skip(next),
            );
        assert(no_slash(text, next));
        assert(atom_repeats(whole.take(4), text, next));
        assert(matches_whole(whole.skip(5), text.skip(next)));
    }
}

/// Whether the first characters hold no separator.
spec fn no_slash(text: Seq<char>, count: int) -> bool {
    forall|i: int| 0 <= i < count ==> #[trigger] text[i] != '/'
}

/// `.*` matches any text on one line.
proof fn lemma_anything(rest: Seq<char>, text: Seq<char>)
    requires
        !text.contains('\n'),
    ensures
        matches_whole(".*"@ + rest, text) == exists|next: int|
            0 <= next <= text.len() && matches_whole(rest, #[trigger] text.skip(next)),
{
    reveal_strlit(".*");
    let whole = ".*"@ + rest;
    assert(atom_len(whole) == 1);
    assert(whole.skip(2) =~= rest);
    assert(whole.take(1) =~= seq!['.']);
    assert forall|next: int| 0 <= next <= text.len() implies #[trigger] atom_repeats(
        whole.take(1),
        text,
        next,
    ) by {
        assert forall|i: int| 0 <= i < next implies atom_matches(
            whole.take(1),
            #[trigger] text[i],
        ) by {
            assert(text.contains(text[i]));
        }
    }
    if exists|next: int| 0 <= next <= text.len() && matches_whole(rest, #[trigger] text.skip(next)) {
        let next = choose|next: int|
            0 <= next <= text.len() && matches_whole(rest, #[trigger] text.skip(next));
        assert(atom_repeats(whole.take(1), text, next));
        assert(matches_whole(whole.skip(2), text.skip(next)));
    }
    if matches_whole(whole, text) {
        let next = choose|next: int|
            0 <= next <= text.len() && atom_repeats(whole.take(1), text, next) && matches_whole(
                whole.skip(2),
                #[trigger] text.skip(next),
            );
        assert(matches_whole(rest, text.skip(next)));
    }
}

/// `(.*/)?` matches any number of leading directories.
proof fn lemma_directories(rest: Seq<char>, text: Seq<char>)
    requires
        !text.contains('\n'),
        rest.len() > 0 ==> rest[0] != '*',
    ensures
        matches_whole("(.*/)?"@ + rest, text) == (matches_whole(rest, text) || exists|next: int|
            #![trigger text[next]]
            0 <= next < text.len() && text[next] == '/' && matches_whole(
                rest,
                text.skip(next + 1),
            )),
{
    reveal_strlit("(.*/)?");
    reveal_strlit(".*");
    let whole = "(.*/)?"@ + rest;
    reveal_with_fuel(char_index, 5);
    assert(char_index(whole, ')', 1) == 4);
    assert(whole.skip(6) =~= rest);
    let inner = whole.subrange(1, 4) + whole.skip(6);
    let after = seq!['/'] + rest;
    assert(inner =~= ".*"@ + after);
    lemma_anything(after, text);
    assert forall|next: int| 0 <= next <= text.len() implies #[trigger] matches_whole(
        after,
        text.skip(next),
    ) == (next < text.len() && text[next] == '/' && matches_whole(rest, text.skip(next + 1))) by {
        lemma_literal(seq!['/'], '/', rest, text.skip(next));
        if next < text.len() {
            assert(text.skip(next).skip(1) =~= text.skip(next + 1));
        }
    }
    if matches_whole(inner, text) {
        let next = choose|next: int|
            0 <= next <= text.len() && matches_whole(after, #[trigger] text.skip(next));
        assert(text[next] == '/');
    }
    if exists|next: int|
        #![trigger text[next]]
        0 <= next < text.len() && text[next] == '/' && matches_whole(rest, text.skip(next + 1)) {
        let next = choose|next: int|
            #![trigger text[next]]
            0 <= next < text.len() && text[next] == '/' && matches_whole(rest, text.skip(next + 1));
        assert(matches_whole(after, text.skip(next)));
    }
}

proof fn lemma_body_matches(pattern: Seq<char>, text: Seq<char>)
    requires
        classless(pattern),
        plain(text),
    ensures
        matches_whole(seatbelt::regex_body(pattern), text) == glob::matches(
            ascii(pattern),
            ascii(text),
        ),
    decreases pattern.len(), 1int,
{
    let bytes = ascii(pattern);
    let read = ascii(text);
    if pattern.len() == 0 {
        assert(seatbelt::regex_body(pattern).len() == 0);
    } else {
        assert(pattern[0] != '[') by {
            assert(pattern.contains(pattern[0]));
        }
        assert(bytes[0] == pattern[0] as u8);
        lemma_same_char(pattern[0]);
        if pattern.len() > 1 {
            lemma_same_char(pattern[1]);
        }
        if pattern.len() > 2 {
            lemma_same_char(pattern[2]);
        }
        if pattern.len() > 2 && pattern[0] == '*' && pattern[1] == '*' && pattern[2] == '/' {
            lemma_directories_match(pattern, text);
        } else if pattern.len() > 1 && pattern[0] == '*' && pattern[1] == '*' {
            lemma_anything_matches(pattern, text);
        } else if pattern[0] == '*' {
            lemma_component_matches(pattern, text);
        } else {
            let rest = pattern.skip(1);
            let body = seatbelt::regex_body(rest);
            lemma_rest(pattern, 1);
            lemma_body_starts(rest);
            if text.len() > 0 {
                lemma_rest(text, 1);
                lemma_body_matches(rest, text.skip(1));
                lemma_same_char(text[0]);
            }
            if pattern[0] == '?' {
                lemma_within(body, text);
            } else if seatbelt::is_special(pattern[0]) {
                lemma_literal(seq!['\\', pattern[0]], pattern[0], body, text);
            } else {
                lemma_literal(seq![pattern[0]], pattern[0], body, text);
            }
        }
    }
}

/// An ASCII character is its byte.
proof fn lemma_same_char(character: char)
    requires
        '\0' <= character <= '\u{7f}',
    ensures
        character as u8 == character as int,
{
}

proof fn lemma_directories_match(pattern: Seq<char>, text: Seq<char>)
    requires
        classless(pattern),
        plain(text),
        pattern.len() > 2,
        pattern[0] == '*',
        pattern[1] == '*',
        pattern[2] == '/',
    ensures
        matches_whole(seatbelt::regex_body(pattern), text) == glob::matches(
            ascii(pattern),
            ascii(text),
        ),
    decreases pattern.len(), 0int,
{
    let rest = pattern.skip(3);
    let body = seatbelt::regex_body(rest);
    let read = ascii(text);
    lemma_rest(pattern, 3);
    lemma_body_starts(rest);
    lemma_directories(body, text);
    lemma_body_matches(rest, text);
    assert(glob::leads_directories(ascii(pattern)));
    assert forall|next: int| 0 <= next < text.len() implies (#[trigger] text[next] == '/') == (
    read[next] == paths::SLASH) && matches_whole(body, text.skip(next + 1)) == glob::matches(
        ascii(rest),
        read.skip(next + 1),
    ) by {
        lemma_same_char(text[next]);
        lemma_rest(text, next + 1);
        lemma_body_matches(rest, text.skip(next + 1));
    }
    if exists|next: int|
        #![trigger text[next]]
        0 <= next < text.len() && text[next] == '/' && matches_whole(body, text.skip(next + 1)) {
        let next = choose|next: int|
            #![trigger text[next]]
            0 <= next < text.len() && text[next] == '/' && matches_whole(body, text.skip(next + 1));
        assert(read[next] == paths::SLASH);
    }
    if exists|next: int|
        #![trigger read[next]]
        0 <= next < read.len() && read[next] == paths::SLASH && glob::matches(
            ascii(pattern).skip(3),
            read.skip(next + 1),
        ) {
        let next = choose|next: int|
            #![trigger read[next]]
            0 <= next < read.len() && read[next] == paths::SLASH && glob::matches(
                ascii(pattern).skip(3),
                read.skip(next + 1),
            );
        assert(text[next] == '/');
    }
}

proof fn lemma_anything_matches(pattern: Seq<char>, text: Seq<char>)
    requires
        classless(pattern),
        plain(text),
        pattern.len() > 1,
        pattern[0] == '*',
        pattern[1] == '*',
        !(pattern.len() > 2 && pattern[2] == '/'),
    ensures
        matches_whole(seatbelt::regex_body(pattern), text) == glob::matches(
            ascii(pattern),
            ascii(text),
        ),
    decreases pattern.len(), 0int,
{
    let rest = pattern.skip(2);
    let body = seatbelt::regex_body(rest);
    let read = ascii(text);
    lemma_rest(pattern, 2);
    lemma_anything(body, text);
    if pattern.len() > 2 {
        lemma_same_char(pattern[2]);
    }
    assert(!glob::leads_directories(ascii(pattern)));
    assert forall|next: int| 0 <= next <= text.len() implies matches_whole(
        body,
        #[trigger] text.skip(next),
    ) == glob::matches(ascii(rest), read.skip(next)) by {
        lemma_rest(text, next);
        lemma_body_matches(rest, text.skip(next));
    }
    if exists|next: int| 0 <= next <= text.len() && matches_whole(body, #[trigger] text.skip(next)) {
        let next = choose|next: int|
            0 <= next <= text.len() && matches_whole(body, #[trigger] text.skip(next));
        assert(glob::matches(ascii(pattern).skip(2), read.skip(next)));
    }
    if exists|next: int|
        0 <= next <= read.len() && glob::matches(
            ascii(pattern).skip(2),
            #[trigger] read.skip(next),
        ) {
        let next = choose|next: int|
            0 <= next <= read.len() && glob::matches(
                ascii(pattern).skip(2),
                #[trigger] read.skip(next),
            );
        assert(matches_whole(body, text.skip(next)));
    }
}

proof fn lemma_component_matches(pattern: Seq<char>, text: Seq<char>)
    requires
        classless(pattern),
        plain(text),
        pattern.len() > 0,
        pattern[0] == '*',
        !(pattern.len() > 1 && pattern[1] == '*'),
    ensures
        matches_whole(seatbelt::regex_body(pattern), text) == glob::matches(
            ascii(pattern),
            ascii(text),
        ),
    decreases pattern.len(), 0int,
{
    let rest = pattern.skip(1);
    let body = seatbelt::regex_body(rest);
    let read = ascii(text);
    lemma_rest(pattern, 1);
    lemma_component(body, text);
    if pattern.len() > 1 {
        lemma_same_char(pattern[1]);
    }
    assert(!glob::leads_anything(ascii(pattern)));
    assert forall|next: int| 0 <= next <= text.len() implies no_slash(text, next)
        == glob::within_segment(read, next) && matches_whole(body, #[trigger] text.skip(next))
        == glob::matches(ascii(rest), read.skip(next)) by {
        lemma_rest(text, next);
        lemma_body_matches(rest, text.skip(next));
        assert forall|i: int| 0 <= i < next implies (#[trigger] text[i] == '/') == (read[i]
            == paths::SLASH) by {
            lemma_same_char(text[i]);
        }
    }
    if exists|next: int|
        0 <= next <= text.len() && no_slash(text, next) && matches_whole(
            body,
            #[trigger] text.skip(next),
        ) {
        let next = choose|next: int|
            0 <= next <= text.len() && no_slash(text, next) && matches_whole(
                body,
                #[trigger] text.skip(next),
            );
        assert(glob::matches(ascii(pattern).skip(1), read.skip(next)));
    }
    if exists|next: int|
        0 <= next <= read.len() && glob::within_segment(read, next) && glob::matches(
            ascii(pattern).skip(1),
            #[trigger] read.skip(next),
        ) {
        let next = choose|next: int|
            0 <= next <= read.len() && glob::within_segment(read, next) && glob::matches(
                ascii(pattern).skip(1),
                #[trigger] read.skip(next),
            );
        assert(matches_whole(body, text.skip(next)));
    }
}

/// A profile denies the paths that a pattern denies elsewhere: the regular
/// expression of a pattern matches what the pattern matches. Pattern and path
/// are ASCII, since a pattern counts bytes and an expression characters, the
/// path is one line, and the pattern holds no class.
pub proof fn law_expression_matches_like_its_pattern(pattern: Seq<char>, path: Seq<char>)
    requires
        vstd::utf8::is_ascii_chars(pattern),
        vstd::utf8::is_ascii_chars(path),
        !pattern.contains('['),
        !path.contains('\n'),
    ensures
        matches_anchored(seatbelt::regex_of(pattern), path) == glob::matches(
            vstd::utf8::encode_utf8(pattern),
            vstd::utf8::encode_utf8(path),
        ),
{
    reveal_strlit("^");
    reveal_strlit("$");
    let regex = seatbelt::regex_of(pattern);
    assert(regex.subrange(1, regex.len() - 1) =~= seatbelt::regex_body(pattern));
    lemma_ascii_is_encoded(pattern);
    lemma_ascii_is_encoded(path);
    lemma_body_matches(pattern, path);
}

} // verus!
