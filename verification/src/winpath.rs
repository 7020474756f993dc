//! Windows paths, brought to the form that the rest of the library works on:
//! separators are `/`, and a drive or a share is the first name below the root.
//!
//! `C:\a\b` becomes `/C:/a/b`, and `\\server\share\a` becomes
//! `/\\server\share/a`. In that form a path lies below another exactly where it
//! does on Windows.

use crate::bytes;
use crate::error::Error;
use crate::lowering;
use crate::paths;
use vstd::prelude::*;

verus! {

/// `\`
pub const BACKSLASH: u8 = 0x5c;

/// `:`
pub const COLON: u8 = 0x3a;

/// `?`
pub const QUESTION: u8 = 0x3f;

/// Whether a byte separates names.
pub open spec fn is_separator(byte: u8) -> bool {
    byte == paths::SLASH || byte == BACKSLASH
}

/// Whether a byte names a drive.
pub open spec fn is_letter(byte: u8) -> bool {
    0x41 <= byte <= 0x5a || 0x61 <= byte <= 0x7a
}

/// A drive letter in upper case, as drives are told apart.
pub open spec fn upper(byte: u8) -> u8 {
    if 0x61 <= byte <= 0x7a {
        (byte - 0x20) as u8
    } else {
        byte
    }
}

/// Where the next separator stands, or the length.
pub open spec fn separator_from(path: Seq<u8>, from: int) -> int
    decreases path.len() - from,
{
    if from >= path.len() {
        path.len() as int
    } else if is_separator(path[from]) {
        from
    } else {
        separator_from(path, from + 1)
    }
}

/// Whether a path starts with a drive.
pub open spec fn has_drive(path: Seq<u8>) -> bool {
    path.len() >= 2 && is_letter(path[0]) && path[1] == COLON
}

/// Whether a path is taken as it is written: it starts with `\\?\`.
pub open spec fn is_verbatim(path: Seq<u8>) -> bool {
    path.len() >= 4 && path[0] == BACKSLASH && path[1] == BACKSLASH && path[2] == QUESTION
        && path[3] == BACKSLASH
}

/// Whether a verbatim path names a share: it starts with `\\?\UNC\`.
pub open spec fn is_verbatim_share(path: Seq<u8>) -> bool {
    is_verbatim(path) && path.len() >= 8 && path[4] == 0x55 && path[5] == 0x4e && path[6] == 0x43
        && path[7] == BACKSLASH
}

/// Whether a path names a device: it starts with `\\.\`.
pub open spec fn is_device(path: Seq<u8>) -> bool {
    path.len() >= 4 && is_separator(path[0]) && is_separator(path[1]) && path[2] == paths::DOT
        && is_separator(path[3])
}

/// The end of a share: a server and a name. Where either is missing there is
/// none.
pub open spec fn share_end(path: Seq<u8>) -> int {
    let server = separator_from(path, 2);
    let share = separator_from(path, server + 1);
    if server <= 2 || server >= path.len() || share <= server + 1 {
        0
    } else {
        share
    }
}

/// The length of what stands before the root of a path: a drive, a share, a
/// device, or what a verbatim path names.
pub open spec fn prefix_len(path: Seq<u8>) -> int {
    if is_verbatim_share(path) {
        let server = separator_from(path, 8);
        if server < path.len() {
            separator_from(path, server + 1)
        } else {
            server
        }
    } else if is_verbatim(path) || is_device(path) {
        separator_from(path, 4)
    } else if path.len() >= 2 && is_separator(path[0]) && is_separator(path[1]) {
        share_end(path)
    } else if has_drive(path) {
        2
    } else {
        0
    }
}

/// Whether a path starts at a root. A drive without a separator does not.
pub open spec fn has_root(path: Seq<u8>) -> bool {
    if prefix_len(path) == 0 {
        path.len() > 0 && is_separator(path[0])
    } else {
        !has_drive(path) || path.len() > 2 && is_separator(path[2])
    }
}

/// A text with `/` for every separator.
pub open spec fn with_slashes(text: Seq<u8>) -> Seq<u8> {
    text.map_values(
        |byte: u8|
            if byte == BACKSLASH {
                paths::SLASH
            } else {
                byte
            },
    )
}

/// A text with `\` for every separator.
pub open spec fn with_backslashes(text: Seq<u8>) -> Seq<u8> {
    text.map_values(
        |byte: u8|
            if byte == paths::SLASH {
                BACKSLASH
            } else {
                byte
            },
    )
}

/// What stands before the root of a path, as the name it is told apart by.
pub open spec fn prefix_text(path: Seq<u8>) -> Seq<u8> {
    let prefix = with_backslashes(path.take(prefix_len(path)));
    if has_drive(path) {
        prefix.update(0, upper(path[0]))
    } else {
        prefix
    }
}

/// The form of a path that the library works on.
pub open spec fn slashed(path: Seq<u8>) -> Seq<u8> {
    let rest = with_slashes(path.skip(prefix_len(path)));
    if prefix_len(path) == 0 {
        rest
    } else if has_root(path) {
        seq![paths::SLASH] + prefix_text(path) + rest
    } else {
        prefix_text(path) + seq![paths::SLASH] + rest
    }
}

/// The components of a Windows path: the root, what stands before it, and the
/// names below.
pub open spec fn windows_components(path: Seq<u8>) -> Seq<Seq<u8>> {
    let rest = with_slashes(path.skip(prefix_len(path)));
    if prefix_len(path) == 0 {
        paths::components(rest)
    } else if has_root(path) {
        seq![seq![paths::SLASH], prefix_text(path)] + paths::names(rest)
    } else {
        seq![prefix_text(path)] + paths::names(rest)
    }
}

/// A separator lies behind where it is looked for.
pub proof fn lemma_separator_from(path: Seq<u8>, from: int)
    requires
        0 <= from <= path.len(),
    ensures
        from <= separator_from(path, from) <= path.len(),
        separator_from(path, from) < path.len() ==> is_separator(
            path[separator_from(path, from)],
        ),
    decreases path.len() - from,
{
    if from < path.len() && !is_separator(path[from]) {
        lemma_separator_from(path, from + 1);
    }
}

proof fn lemma_prefix(path: Seq<u8>)
    ensures
        0 <= prefix_len(path) <= path.len(),
        prefix_len(path) > 0 ==> prefix_len(path) >= 2,
        prefix_len(path) > 0 && prefix_len(path) < path.len() && !has_drive(path)
            ==> is_separator(path[prefix_len(path)]),
        has_drive(path) ==> prefix_len(path) == 2,
{
    if path.len() >= 8 {
        lemma_separator_from(path, 8);
        let server = separator_from(path, 8);
        if server < path.len() {
            lemma_separator_from(path, server + 1);
        }
    }
    if path.len() >= 4 {
        lemma_separator_from(path, 4);
    }
    if path.len() >= 2 {
        lemma_separator_from(path, 2);
        let server = separator_from(path, 2);
        if server < path.len() {
            lemma_separator_from(path, server + 1);
        }
    }
}

fn find_separator(path: &[u8], from: usize) -> (at: usize)
    requires
        from <= path@.len(),
    ensures
        from <= at <= path@.len(),
        at == separator_from(path@, from as int),
{
    let mut at: usize = from;
    while at < path.len() && path[at] != paths::SLASH && path[at] != BACKSLASH
        invariant
            from <= at <= path@.len(),
            separator_from(path@, from as int) == separator_from(path@, at as int),
        decreases path.len() - at,
    {
        at += 1;
    }
    at
}

fn is_separator_byte(byte: u8) -> (yes: bool)
    ensures
        yes == is_separator(byte),
{
    byte == paths::SLASH || byte == BACKSLASH
}

fn starts_with_drive(path: &[u8]) -> (yes: bool)
    ensures
        yes == has_drive(path@),
{
    path.len() >= 2 && ((0x41 <= path[0] && path[0] <= 0x5a) || (0x61 <= path[0] && path[0]
        <= 0x7a)) && path[1] == COLON
}

/// The length of what stands before the root of a path.
pub fn windows_prefix_len(path: &[u8]) -> (len: usize)
    ensures
        len <= path@.len(),
        len == prefix_len(path@),
{
    proof {
        lemma_prefix(path@);
    }
    let verbatim = path.len() >= 4 && path[0] == BACKSLASH && path[1] == BACKSLASH && path[2]
        == QUESTION && path[3] == BACKSLASH;
    if verbatim && path.len() >= 8 && path[4] == 0x55 && path[5] == 0x4e && path[6] == 0x43
        && path[7] == BACKSLASH {
        let server = find_separator(path, 8);
        if server < path.len() {
            return find_separator(path, server + 1);
        }
        return server;
    }
    let device = path.len() >= 4 && is_separator_byte(path[0]) && is_separator_byte(path[1])
        && path[2] == paths::DOT && is_separator_byte(path[3]);
    if verbatim || device {
        return find_separator(path, 4);
    }
    if path.len() >= 2 && is_separator_byte(path[0]) && is_separator_byte(path[1]) {
        let server = find_separator(path, 2);
        if server <= 2 || server >= path.len() {
            return 0;
        }
        let share = find_separator(path, server + 1);
        if share <= server + 1 {
            return 0;
        }
        return share;
    }
    if starts_with_drive(path) {
        return 2;
    }
    0
}

/// Whether a path starts at a root.
pub fn windows_has_root(path: &[u8]) -> (yes: bool)
    ensures
        yes == has_root(path@),
{
    let len = windows_prefix_len(path);
    if len == 0 {
        path.len() > 0 && is_separator_byte(path[0])
    } else {
        !starts_with_drive(path) || path.len() > 2 && is_separator_byte(path[2])
    }
}

fn append_slashes(text: &mut Vec<u8>, more: &[u8])
    ensures
        final(text)@ == old(text)@ + with_slashes(more@),
{
    let mut at: usize = 0;
    assert(text@ =~= old(text)@ + with_slashes(more@).take(0));
    while at < more.len()
        invariant
            at <= more@.len(),
            text@ == old(text)@ + with_slashes(more@).take(at as int),
        decreases more.len() - at,
    {
        let byte = more[at];
        text.push(
            if byte == BACKSLASH {
                paths::SLASH
            } else {
                byte
            },
        );
        assert(text@ =~= old(text)@ + with_slashes(more@).take(at + 1));
        at += 1;
    }
    assert(with_slashes(more@).take(at as int) =~= with_slashes(more@));
}

fn append_backslashes(text: &mut Vec<u8>, more: &[u8])
    ensures
        final(text)@ == old(text)@ + with_backslashes(more@),
{
    let mut at: usize = 0;
    assert(text@ =~= old(text)@ + with_backslashes(more@).take(0));
    while at < more.len()
        invariant
            at <= more@.len(),
            text@ == old(text)@ + with_backslashes(more@).take(at as int),
        decreases more.len() - at,
    {
        let byte = more[at];
        text.push(
            if byte == paths::SLASH {
                BACKSLASH
            } else {
                byte
            },
        );
        assert(text@ =~= old(text)@ + with_backslashes(more@).take(at + 1));
        at += 1;
    }
    assert(with_backslashes(more@).take(at as int) =~= with_backslashes(more@));
}

fn read_prefix(path: &[u8]) -> (prefix: Vec<u8>)
    ensures
        prefix@ == prefix_text(path@),
{
    let len = windows_prefix_len(path);
    proof {
        lemma_prefix(path@);
    }
    let part = vstd::slice::slice_subrange(path, 0, len);
    assert(part@ =~= path@.take(len as int));
    let mut prefix: Vec<u8> = Vec::new();
    append_backslashes(&mut prefix, part);
    assert(prefix@ =~= with_backslashes(part@));
    if starts_with_drive(path) {
        let letter = path[0];
        if 0x61 <= letter && letter <= 0x7a {
            prefix.set(0, letter - 0x20);
        }
        assert(prefix@ =~= prefix_text(path@));
    }
    prefix
}

/// The form of a Windows path that the library works on.
pub fn to_slashed(path: &[u8]) -> (form: Vec<u8>)
    ensures
        form@ == slashed(path@),
{
    let len = windows_prefix_len(path);
    let rest = vstd::slice::slice_subrange(path, len, path.len());
    assert(rest@ =~= path@.skip(len as int));
    let mut form: Vec<u8> = Vec::new();
    if len > 0 {
        let prefix = read_prefix(path);
        if windows_has_root(path) {
            form.push(paths::SLASH);
            bytes::append_bytes(&mut form, prefix.as_slice());
        } else {
            bytes::append_bytes(&mut form, prefix.as_slice());
            form.push(paths::SLASH);
        }
    }
    append_slashes(&mut form, rest);
    assert(form@ =~= slashed(path@));
    form
}

/// A path as Windows takes it, from the form that the library works on.
pub open spec fn native_form(form: Seq<u8>) -> Seq<u8> {
    if form.len() > 0 && form[0] == paths::SLASH && prefix_len(form.skip(1)) > 0 {
        with_backslashes(form.skip(1))
    } else {
        with_backslashes(form)
    }
}

/// A path as Windows takes it, from the form that the library works on.
pub fn to_native(form: &[u8]) -> (path: Vec<u8>)
    ensures
        path@ == native_form(form@),
{
    let mut path: Vec<u8> = Vec::new();
    if form.len() > 0 && form[0] == paths::SLASH {
        let inner = vstd::slice::slice_subrange(form, 1, form.len());
        assert(inner@ =~= form@.skip(1));
        if windows_prefix_len(inner) > 0 {
            append_backslashes(&mut path, inner);
            assert(path@ =~= with_backslashes(form@.skip(1)));
            return path;
        }
    }
    append_backslashes(&mut path, form);
    assert(path@ =~= with_backslashes(form@));
    path
}

/// A path below another. One with a drive or a share replaces the other, and
/// one that only starts at a root keeps the drive or the share of the other.
pub open spec fn windows_joined(base: Seq<u8>, path: Seq<u8>) -> Seq<u8> {
    if base.len() == 0 || prefix_len(path) > 0 {
        path
    } else if has_root(path) {
        base.take(prefix_len(base)) + path
    } else if is_separator(base.last()) || has_drive(base) && base.len() == 2 {
        base + path
    } else {
        base + seq![BACKSLASH] + path
    }
}

/// A path below another.
pub fn windows_join(base: &[u8], path: &[u8]) -> (whole: Vec<u8>)
    ensures
        whole@ == windows_joined(base@, path@),
{
    if base.len() == 0 || windows_prefix_len(path) > 0 {
        return bytes::copy_bytes(path);
    }
    if windows_has_root(path) {
        let len = windows_prefix_len(base);
        let part = vstd::slice::slice_subrange(base, 0, len);
        assert(part@ =~= base@.take(len as int));
        let mut whole = bytes::copy_bytes(part);
        bytes::append_bytes(&mut whole, path);
        return whole;
    }
    let mut whole = bytes::copy_bytes(base);
    if !is_separator_byte(base[base.len() - 1]) && !(starts_with_drive(base) && base.len() == 2) {
        whole.push(BACKSLASH);
    }
    bytes::append_bytes(&mut whole, path);
    assert(whole@ =~= windows_joined(base@, path@));
    whole
}

/// Where a path of a policy document starts on Windows, in the form that the
/// library works on: at a root, in the home directory after `~`, or else where
/// the document applies. The home directory and the document's place are
/// Windows paths.
pub open spec fn windows_sandbox_path(
    path: Seq<u8>,
    base: Seq<u8>,
    home: Option<Seq<u8>>,
) -> Result<Seq<u8>, Error> {
    if path.len() == 0 {
        Err(Error::PolicyEmptyPath)
    } else if has_root(path) {
        Ok(paths::normalized(slashed(path)))
    } else if path == seq![lowering::TILDE] {
        match home {
            Some(home) => Ok(paths::normalized(slashed(home))),
            None => Err(Error::PolicyHomeUnavailable),
        }
    } else if path.len() >= 2 && path[0] == lowering::TILDE && path[1] == paths::SLASH {
        match home {
            Some(home) => Ok(paths::normalized(slashed(windows_joined(home, path.skip(2))))),
            None => Err(Error::PolicyHomeUnavailable),
        }
    } else {
        Ok(paths::normalized(slashed(windows_joined(base, path))))
    }
}

/// Resolves a path of a policy document on Windows without looking at the
/// filesystem.
pub fn resolve_windows_sandbox_path(
    path: &str,
    base: &[u8],
    home: Option<&[u8]>,
) -> (resolved: Result<Vec<u8>, Error>)
    ensures
        match windows_sandbox_path(
            vstd::utf8::encode_utf8(path@),
            base@,
            lowering::option_path(home),
        ) {
            Ok(found) => resolved matches Ok(path) && path@ == found,
            Err(error) => resolved == Err::<Vec<u8>, _>(error),
        },
{
    let raw = path.as_bytes();
    if raw.len() == 0 {
        return Err(Error::PolicyEmptyPath);
    }
    if windows_has_root(raw) {
        return Ok(paths::normalize_path_lexically(to_slashed(raw).as_slice()));
    }
    if raw[0] == lowering::TILDE && raw.len() == 1 {
        assert(raw@ =~= seq![lowering::TILDE]);
        return match home {
            Some(home) => Ok(paths::normalize_path_lexically(to_slashed(home).as_slice())),
            None => Err(Error::PolicyHomeUnavailable),
        };
    }
    if raw[0] == lowering::TILDE && raw[1] == paths::SLASH {
        return match home {
            Some(home) => {
                let rest = vstd::slice::slice_subrange(raw, 2, raw.len());
                assert(rest@ =~= raw@.skip(2));
                let whole = windows_join(home, rest);
                Ok(paths::normalize_path_lexically(to_slashed(whole.as_slice()).as_slice()))
            },
            None => Err(Error::PolicyHomeUnavailable),
        };
    }
    let whole = windows_join(base, raw);
    Ok(paths::normalize_path_lexically(to_slashed(whole.as_slice()).as_slice()))
}

/// The form that the library works on has the components of the Windows path,
/// so that one path lies below another in that form exactly where it does on
/// Windows.
pub proof fn law_form_keeps_the_components(path: Seq<u8>, other: Seq<u8>)
    ensures
        paths::components(slashed(path)) == windows_components(path),
        paths::under(slashed(path), slashed(other)) <==> windows_components(other).is_prefix_of(
            windows_components(path),
        ),
{
    lemma_form_components(path);
    lemma_form_components(other);
}

proof fn lemma_form_components(path: Seq<u8>)
    ensures
        paths::components(slashed(path)) == windows_components(path),
{
    lemma_prefix(path);
    let len = prefix_len(path);
    if len > 0 {
        let prefix = prefix_text(path);
        let rest = with_slashes(path.skip(len));
        let form = slashed(path);
        assert(!prefix.contains(paths::SLASH)) by {
            if prefix.contains(paths::SLASH) {
                let i = choose|i: int| 0 <= i < prefix.len() && prefix[i] == paths::SLASH;
                if i == 0 && has_drive(path) {
                    assert(prefix[0] == upper(path[0]));
                }
            }
        }
        assert(prefix.len() == len);
        assert(paths::is_name(prefix));
        paths::lemma_single_segment(prefix);
        paths::lemma_single_segment(Seq::<u8>::empty());
        let front = seq![paths::SLASH] + prefix;
        assert(front =~= Seq::<u8>::empty().push(paths::SLASH) + prefix);
        paths::lemma_names_around_separator(Seq::empty(), prefix);
        assert(paths::names(Seq::empty()) =~= Seq::empty());
        assert(paths::names(front) =~= seq![prefix]);
        if has_root(path) {
            if rest.len() == 0 {
                assert(form =~= front);
            } else {
                let below = rest.skip(1);
                assert(rest[0] == paths::SLASH);
                assert(form =~= front.push(paths::SLASH) + below);
                paths::lemma_names_around_separator(front, below);
                assert(rest =~= Seq::<u8>::empty().push(paths::SLASH) + below);
                paths::lemma_names_around_separator(Seq::empty(), below);
                assert(paths::names(rest) =~= paths::names(below));
            }
            assert(paths::is_rooted(form));
            assert(paths::components(form) =~= windows_components(path));
        } else {
            assert(form =~= prefix.push(paths::SLASH) + rest);
            paths::lemma_names_around_separator(prefix, rest);
            paths::lemma_first_segment_stays(prefix, rest);
            assert(prefix.contains(prefix[0]));
            assert(form[0] == prefix[0]);
            bytes::lemma_index_from(prefix, paths::SLASH, 0);
            assert(!paths::starts_at_dot(form)) by {
                if paths::starts_at_dot(form) {
                    let first = form.take(paths::segment_len(form));
                    assert(first == prefix.take(paths::segment_len(prefix)));
                    let at = paths::segment_len(prefix);
                    if at < prefix.len() {
                        assert(prefix.contains(prefix[at]));
                    }
                    assert(first =~= prefix);
                }
            }
            assert(paths::components(form) =~= windows_components(path));
        }
    }
}

/// What lies in a directory of a drive lies below it, and on no other drive.
pub proof fn law_drives_hold_their_directories(dir: Seq<u8>, name: Seq<u8>, other: Seq<u8>)
    requires
        has_drive(dir),
        has_root(dir),
        name.len() > 0,
        name != seq![paths::DOT],
        forall|i: int| 0 <= i < name.len() ==> !is_separator(#[trigger] name[i]),
        has_drive(other),
        has_root(other),
        upper(other[0]) != upper(dir[0]),
    ensures
        paths::strictly_under(slashed(dir + seq![BACKSLASH] + name), slashed(dir)),
        !paths::under(slashed(dir + seq![BACKSLASH] + name), slashed(other)),
{
    let path = dir + seq![BACKSLASH] + name;
    lemma_form_components(dir);
    lemma_form_components(path);
    lemma_form_components(other);
    lemma_prefix(dir);
    lemma_prefix(path);
    lemma_prefix(other);
    assert(path[0] == dir[0] && path[1] == dir[1] && path[2] == dir[2]);
    assert(prefix_text(path) =~= prefix_text(dir));
    let rest = with_slashes(dir.skip(2));
    let more = with_slashes(path.skip(2));
    let last = with_slashes(name);
    assert(last =~= name);
    assert(more =~= rest.push(paths::SLASH) + name);
    paths::lemma_names_around_separator(rest, name);
    assert(!name.contains(paths::SLASH));
    paths::lemma_single_segment(name);
    assert(paths::names(more) =~= paths::names(rest) + seq![name]);
    let above = windows_components(dir);
    assert(windows_components(path) =~= above + seq![name]);
    assert(above =~= (above + seq![name]).take(above.len() as int));
    assert(prefix_text(other)[0] == upper(other[0]));
    assert(prefix_text(path)[0] == upper(path[0]));
    if paths::under(slashed(path), slashed(other)) {
        assert(windows_components(other)[1] == windows_components(path)[1]);
    }
}

/// A rooted path on a drive is given back to Windows as the same path.
pub proof fn law_drive_paths_come_back(path: Seq<u8>)
    requires
        has_drive(path),
        has_root(path),
    ensures
        slashed(native_form(slashed(path))) == slashed(path),
{
    lemma_prefix(path);
    let form = slashed(path);
    let inner = form.skip(1);
    let prefix = prefix_text(path);
    let rest = with_slashes(path.skip(2));
    assert(prefix.len() == 2 && prefix[0] == upper(path[0]) && prefix[1] == COLON);
    assert(inner =~= prefix + rest);
    assert(has_drive(inner));
    lemma_prefix(inner);
    let back = with_backslashes(inner);
    assert(native_form(form) == back);
    assert(has_drive(back));
    lemma_prefix(back);
    assert(rest[0] == paths::SLASH);
    assert(back[2] == BACKSLASH);
    assert(prefix_text(back) =~= prefix);
    assert(with_slashes(back.skip(2)) =~= rest);
    assert(slashed(back) =~= form);
}

/// Whether a path starts at the root of a drive: a letter, a colon and a
/// separator.
pub open spec fn on_drive(path: Seq<u8>) -> bool {
    &&& path.len() >= 3
    &&& 0x41 <= path[0] <= 0x5a || 0x61 <= path[0] <= 0x7a
    &&& path[1] == 0x3a
    &&& path[2] == 0x2f || path[2] == 0x5c
}

/// Whether a path starts neither at a root nor on a drive or a share.
pub open spec fn is_relative(path: Seq<u8>) -> bool {
    &&& path.len() > 0
    &&& path[0] != 0x2f
    &&& path[0] != 0x5c
    &&& !(path.len() >= 2 && path[1] == 0x3a)
}

proof fn lemma_behind_drive(base: Seq<u8>, separator: u8, path: Seq<u8>)
    requires
        on_drive(base),
        separator == 0x2f || separator == 0x5c,
    ensures
        windows_components(base + seq![separator] + path) == windows_components(base)
            + paths::names(with_slashes(path)),
{
    let whole = base + seq![separator] + path;
    assert(whole[0] == base[0] && whole[1] == base[1] && whole[2] == base[2]);
    assert(prefix_len(base) == 2 && prefix_len(whole) == 2);
    assert(has_root(base) && has_root(whole));
    let front = with_slashes(base.skip(2));
    let back = with_slashes(path);
    assert(with_slashes(whole.skip(2)) =~= front.push(paths::SLASH) + back);
    paths::lemma_names_around_separator(front, back);
    assert(whole.take(2) =~= base.take(2));
    assert(prefix_text(whole) =~= prefix_text(base));
    assert(windows_components(whole) =~= windows_components(base) + paths::names(back));
}

/// On a drive each name behind either separator is one more component. The drive
/// is told by its letter, however that is written.
pub proof fn law_a_name_is_one_more_windows_component(
    base: Seq<u8>,
    separator: u8,
    name: Seq<u8>,
    letter: u8,
)
    requires
        on_drive(base),
        separator == 0x2f || separator == 0x5c,
        name.len() > 0,
        forall|i: int| 0 <= i < name.len() ==> name[i] != 0x2f && name[i] != 0x5c,
        name != seq![0x2eu8],
        0x41 <= letter <= 0x5a,
    ensures
        windows_components(base + seq![separator] + name) == windows_components(base).push(name),
        windows_components(seq![letter, 0x3au8, 0x5cu8]) == seq![
            seq![0x2fu8],
            seq![letter, 0x3au8],
        ],
        windows_components(seq![(letter + 0x20) as u8, 0x3au8, 0x2fu8]) == seq![
            seq![0x2fu8],
            seq![letter, 0x3au8],
        ],
{
    lemma_behind_drive(base, separator, name);
    assert(with_slashes(name) =~= name);
    assert(!name.contains(paths::SLASH));
    paths::lemma_single_segment(name);
    assert(windows_components(base) + seq![name] =~= windows_components(base).push(name));
    let upper_case = seq![letter, 0x3au8, 0x5cu8];
    let lower_case = seq![(letter + 0x20) as u8, 0x3au8, 0x2fu8];
    lemma_drive_root(upper_case, letter);
    lemma_drive_root(lower_case, letter);
}

proof fn lemma_drive_root(path: Seq<u8>, letter: u8)
    requires
        0x41 <= letter <= 0x5a,
        path.len() == 3,
        path[0] == letter || path[0] == letter + 0x20,
        path[1] == 0x3a,
        path[2] == 0x2f || path[2] == 0x5c,
    ensures
        windows_components(path) == seq![seq![paths::SLASH], seq![letter, 0x3au8]],
{
    let empty = Seq::<u8>::empty();
    assert(prefix_len(path) == 2);
    assert(has_root(path));
    assert(with_slashes(path.skip(2)) =~= empty.push(paths::SLASH) + empty);
    paths::lemma_names_around_separator(empty, empty);
    assert(paths::names(empty) =~= Seq::empty());
    assert(prefix_text(path) =~= seq![letter, 0x3au8]);
    assert(windows_components(path) =~= seq![seq![paths::SLASH], seq![letter, 0x3au8]]);
}

/// A relative path is resolved step by step from a directory on a drive: a name
/// leads down, `..` leads up and `.` nowhere, behind either separator. A path on
/// a drive is its own, and one in the home directory starts there.
pub proof fn law_windows_paths_go_step_by_step(
    base: Seq<u8>,
    separator: u8,
    name: Seq<u8>,
    rest: Seq<u8>,
    home: Option<Seq<u8>>,
)
    requires
        on_drive(base),
        base.last() != 0x2f,
        base.last() != 0x5c,
        separator == 0x2f || separator == 0x5c,
        name.len() > 0,
        forall|i: int| 0 <= i < name.len() ==> name[i] != 0x2f && name[i] != 0x5c,
        name[0] != 0x7e,
        name != seq![0x2eu8],
        name != seq![0x2eu8, 0x2eu8],
        is_relative(name),
        is_relative(rest),
        rest[0] != 0x7e,
    ensures
        windows_sandbox_path(
            seq![0x2eu8, 0x2eu8, separator] + rest,
            base + seq![0x5cu8] + name,
            home,
        ) == windows_sandbox_path(rest, base, home),
        windows_sandbox_path(seq![0x2eu8, separator] + rest, base, home) == windows_sandbox_path(
            rest,
            base,
            home,
        ),
        name.len() > 1 ==> windows_sandbox_path(name + seq![separator] + rest, base, home)
            == windows_sandbox_path(rest, base + seq![0x5cu8] + name, home),
        windows_sandbox_path(rest, base, home) == Ok::<_, Error>(
            paths::normalized(slashed(base + seq![0x5cu8] + rest)),
        ),
        windows_sandbox_path(base, rest, home) == Ok::<_, Error>(paths::normalized(slashed(base))),
        windows_sandbox_path(seq![0x7eu8, 0x2fu8] + rest, rest, Some(base)) == windows_sandbox_path(
            rest,
            base,
            None,
        ),
        windows_sandbox_path(seq![0x7eu8], rest, None) == Err::<Seq<u8>, _>(
            Error::PolicyHomeUnavailable,
        ),
        windows_sandbox_path(Seq::empty(), base, home) == Err::<Seq<u8>, _>(Error::PolicyEmptyPath),
{
    let back = seq![BACKSLASH];
    let up = seq![paths::DOT, paths::DOT];
    let dot = seq![paths::DOT];
    let slash = seq![paths::SLASH];
    let inner = base + back + name;
    let all = windows_components(base);
    let names = paths::names(with_slashes(rest));
    assert(dot.len() == 1 && up.len() == 2);
    assert(dot[0] == paths::DOT && slash[0] == paths::SLASH);
    assert(seq![0x7eu8].len() == 1 && seq![0x7eu8][0] == 0x7e);
    assert(inner[0] == base[0] && inner[1] == base[1] && inner[2] == base[2]);
    assert(inner.last() == name.last());
    law_a_name_is_one_more_windows_component(base, 0x5c, name, 0x41);
    paths::law_each_step_up_takes_one_name(all, name);
    lemma_relative(rest);
    lemma_behind_drive(base, 0x5c, rest);
    lemma_behind_drive(inner, 0x5c, rest);
    law_form_keeps_the_components(base + back + rest, base);
    law_form_keeps_the_components(inner + back + rest, base);
    // Up.
    let above = seq![0x2eu8, 0x2eu8, separator] + rest;
    lemma_relative(above);
    assert(with_slashes(above) =~= up.push(paths::SLASH) + with_slashes(rest));
    paths::lemma_single_segment(up);
    paths::lemma_names_around_separator(up, with_slashes(rest));
    lemma_behind_drive(inner, 0x5c, above);
    law_form_keeps_the_components(inner + back + above, base);
    assert(paths::names(with_slashes(above)) =~= seq![up] + names);
    assert(all.push(name) + (seq![up] + names) =~= all.push(name).push(up) + names);
    paths::lemma_lexical_goes_on(all.push(name).push(up), all, names);
    // Nowhere.
    let here = seq![0x2eu8, separator] + rest;
    lemma_relative(here);
    assert(with_slashes(here) =~= dot.push(paths::SLASH) + with_slashes(rest));
    paths::lemma_single_segment(dot);
    paths::lemma_names_around_separator(dot, with_slashes(rest));
    lemma_behind_drive(base, 0x5c, here);
    law_form_keeps_the_components(base + back + here, base);
    assert(paths::names(with_slashes(here)) =~= names);
    // Down.
    if name.len() > 1 {
        let below = name + seq![separator] + rest;
        assert(below[0] == name[0] && below[1] == name[1]);
        lemma_relative(below);
        assert(with_slashes(name) =~= name);
        assert(with_slashes(below) =~= name.push(paths::SLASH) + with_slashes(rest));
        assert(!name.contains(paths::SLASH));
        paths::lemma_single_segment(name);
        paths::lemma_names_around_separator(name, with_slashes(rest));
        lemma_behind_drive(base, 0x5c, below);
        law_form_keeps_the_components(base + back + below, base);
        assert(all + (seq![name] + names) =~= all.push(name) + names);
        assert(paths::names(with_slashes(below)) =~= seq![name] + names);
    }
    // Home.
    let homely = seq![0x7eu8, 0x2fu8] + rest;
    lemma_relative(homely);
    assert(homely[0] == 0x7e && homely[1] == 0x2f);
    assert(homely.skip(2) =~= rest);
    assert(homely != seq![0x7eu8]);
    let tilde = seq![0x7eu8];
    assert(prefix_len(tilde) == 0 && !has_root(tilde));
    assert(has_root(base));
}

proof fn lemma_relative(path: Seq<u8>)
    requires
        is_relative(path),
    ensures
        prefix_len(path) == 0,
        !has_root(path),
{
}

/// A share is told by its server and its name, behind two separators, and what
/// follows starts at its root. On a drive the path starts at the root only behind
/// a separator. Without either, it starts at the root of whatever is current.
pub proof fn law_shares_are_told_by_their_names(
    server: Seq<u8>,
    share: Seq<u8>,
    rest: Seq<u8>,
    letter: u8,
)
    requires
        server.len() > 0,
        share.len() > 0,
        forall|i: int| 0 <= i < server.len() ==> server[i] != 0x2f && server[i] != 0x5c,
        forall|i: int| 0 <= i < share.len() ==> share[i] != 0x2f && share[i] != 0x5c,
        server != seq![0x3fu8],
        server != seq![0x2eu8],
        rest.len() == 0 || rest[0] == 0x2f || rest[0] == 0x5c,
        0x41 <= letter <= 0x5a || 0x61 <= letter <= 0x7a,
    ensures
        ({
            let path = seq![0x5cu8, 0x5cu8] + server + seq![0x5cu8] + share + rest;
            &&& prefix_len(path) == 3 + server.len() + share.len()
            &&& has_root(path)
        }),
        prefix_len(seq![letter, 0x3au8] + rest) == 2,
        has_root(seq![letter, 0x3au8] + rest) <==> rest.len() > 0,
        prefix_len(seq![0x5cu8] + share) == 0,
        has_root(seq![0x5cu8] + share),
{
    let path = seq![0x5cu8, 0x5cu8] + server + seq![0x5cu8] + share + rest;
    let middle = 2 + server.len() as int;
    let end = 3 + server.len() as int + share.len();
    assert(path[0] == BACKSLASH && path[1] == BACKSLASH && path[middle] == BACKSLASH);
    assert forall|i: int| 2 <= i < middle implies !is_separator(path[i]) by {
        assert(path[i] == server[i - 2]);
    }
    assert forall|i: int| middle + 1 <= i < end implies !is_separator(path[i]) by {
        assert(path[i] == share[i - middle - 1]);
    }
    if rest.len() > 0 {
        assert(path[end] == rest[0]);
    }
    lemma_separator_stands(path, 2, middle);
    lemma_separator_stands(path, middle + 1, end);
    if server.len() == 1 {
        assert(path[2] == server[0]);
        assert(server =~= seq![server[0]]);
    } else {
        assert(path[3] == server[1]);
    }
    let drive = seq![letter, 0x3au8] + rest;
    assert(drive[0] == letter && drive[1] == COLON);
    assert(rest.len() > 0 ==> drive[2] == rest[0]);
    let current = seq![0x5cu8] + share;
    assert(current[0] == BACKSLASH && current[1] == share[0]);
}

proof fn lemma_separator_stands(path: Seq<u8>, from: int, at: int)
    requires
        0 <= from <= at <= path.len(),
        at < path.len() ==> is_separator(path[at]),
        forall|i: int| from <= i < at ==> !is_separator(path[i]),
    ensures
        separator_from(path, from) == at,
    decreases at - from,
{
    if from < at {
        lemma_separator_stands(path, from + 1, at);
    }
}

/// A path with a drive or a share of its own replaces the base. One that starts
/// at a root keeps the drive of the base. Every other is added behind a separator.
pub proof fn law_windows_paths_are_joined_by_where_they_start(
    base: Seq<u8>,
    rest: Seq<u8>,
    path: Seq<u8>,
)
    requires
        on_drive(base),
        on_drive(rest),
        is_relative(path),
    ensures
        windows_joined(base, rest) == rest,
        windows_joined(Seq::empty(), path) == path,
        windows_joined(base, seq![0x5cu8] + path) == seq![base[0], 0x3au8, 0x5cu8] + path,
        base.last() != 0x2f && base.last() != 0x5c ==> windows_joined(base, path) == base
            + seq![0x5cu8] + path,
        base.last() == 0x5c || base.last() == 0x2f ==> windows_joined(base, path) == base + path,
{
    lemma_relative(path);
    let rooted = seq![0x5cu8] + path;
    assert(rooted[0] == BACKSLASH && rooted[1] == path[0]);
    assert(prefix_len(rooted) == 0 && has_root(rooted));
    assert(prefix_len(base) == 2 && prefix_len(rest) == 2);
    assert(base.take(2) + rooted =~= seq![base[0], 0x3au8, 0x5cu8] + path);
}

} // verus!
