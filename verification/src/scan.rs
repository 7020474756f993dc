//! Walks of the filesystem, one look at a time: for what lies beside denied
//! roots, and for what matches a pattern.

use crate::bytes;
use crate::error;
use crate::error::{Cause, Error, PathFailure, PathFailureKind};
use crate::glob;
use crate::lowering;
use crate::paths;
use crate::text;
use vstd::prelude::*;

verus! {

/// How deep a walk goes.
pub const MAX_TRAVERSAL_DEPTH: u32 = 40;

/// What a path is, links not followed.
#[derive(Clone, Copy, Debug, PartialEq, Eq, Structural)]
pub struct FileKind {
    pub symlink: bool,
    pub dir: bool,
}

/// A failed look, and what is told of it.
#[derive(Debug)]
pub struct LookFailure {
    pub failure: PathFailure,
    pub source: Cause,
}

/// An entry of a directory: its name, or why it could not be read.
pub type DirectoryEntry = Result<Vec<u8>, LookFailure>;

/// Whether a directory could not be listed for a reason that is passed over.
pub open spec fn listing_hidden(failure: PathFailure) -> bool {
    failure.kind == PathFailureKind::PermissionDenied || error::transport_failed(failure)
}

fn is_listing_hidden(failure: &PathFailure) -> (hidden: bool)
    ensures
        hidden == listing_hidden(*failure),
{
    failure.kind == PathFailureKind::PermissionDenied || failure.is_transport_failed()
}

/// A path that is still to be looked at.
#[derive(Debug)]
pub struct ScanEntry {
    pub path: Vec<u8>,
    pub explicit: bool,
    pub depth: u32,
}

/// What an entry says.
pub struct EntryView {
    pub path: Seq<u8>,
    pub explicit: bool,
    pub depth: u32,
}

impl View for ScanEntry {
    type V = EntryView;

    open spec fn view(&self) -> EntryView {
        EntryView { path: self.path@, explicit: self.explicit, depth: self.depth }
    }
}

/// What each entry says.
pub open spec fn entry_views(entries: Seq<ScanEntry>) -> Seq<EntryView> {
    entries.map_values(|entry: ScanEntry| entry@)
}

/// A walk through a root for what lies beside denied roots.
#[derive(Debug)]
pub struct Scan {
    pub root: Vec<u8>,
    pub denied: Vec<Vec<u8>>,
    pub stack: Vec<ScanEntry>,
    pub current: Option<ScanEntry>,
    pub roots: Vec<Vec<u8>>,
    pub symlinks: Vec<Vec<u8>>,
}

/// What a walk holds.
pub struct Walk {
    pub root: Seq<u8>,
    pub denied: Seq<Seq<u8>>,
    pub stack: Seq<EntryView>,
    pub current: Option<EntryView>,
    pub roots: Seq<Seq<u8>>,
    pub symlinks: Seq<Seq<u8>>,
}

impl View for Scan {
    type V = Walk;

    open spec fn view(&self) -> Walk {
        Walk {
            root: self.root@,
            denied: bytes::texts(self.denied@),
            stack: entry_views(self.stack@),
            current: entry_view(self.current),
            roots: bytes::texts(self.roots@),
            symlinks: bytes::texts(self.symlinks@),
        }
    }
}

/// A step of a walk that did not end it.
pub enum WalkEvent {
    Turn,
    Look(Result<FileKind, LookFailure>),
    List(Result<Vec<DirectoryEntry>, LookFailure>),
}

/// Whether a directory was found to hold a path.
pub open spec fn lists_path(entries: Seq<DirectoryEntry>, dir: Seq<u8>, path: Seq<u8>) -> bool {
    exists|i: int|
        0 <= i < entries.len() && (#[trigger] entries[i]) is Ok && path == paths::joined(
            dir,
            entries[i]->Ok_0@,
        )
}

/// Whether a step loses nothing: a path that is turned to was to be looked at
/// and is not denied, one that is looked at is returned, passed over as a link
/// or listed, and of one that is listed every entry is to be looked at.
pub open spec fn walked(before: Walk, event: WalkEvent, after: Walk) -> bool {
    &&& after.root == before.root
    &&& after.denied == before.denied
    &&& match event {
        WalkEvent::Turn => {
            &&& after.roots == before.roots
            &&& after.symlinks == before.symlinks
            &&& forall|i: int|
                0 <= i < after.stack.len() ==> before.stack.contains(#[trigger] after.stack[i])
            &&& after.current matches Some(entry) ==> before.stack.contains(entry)
                && !paths::under_any(entry.path, before.denied)
            &&& after.current is None ==> after.stack.len() == 0
            &&& forall|i: int|
                #![trigger before.stack[i]]
                0 <= i < before.stack.len() ==> paths::under_any(
                    before.stack[i].path,
                    before.denied,
                ) || after.current == Some(before.stack[i]) || after.stack.contains(before.stack[i])
        },
        WalkEvent::Look(looked) => {
            &&& before.current is Some
            &&& after.stack == before.stack
            &&& ({
                let entry = before.current->0;
                let link = looked matches Ok(kind) && kind.symlink && !entry.explicit;
                let listed = looked matches Ok(kind) && kind.dir && !link && exists|i: int|
                    0 <= i < before.denied.len() && #[trigger] paths::strictly_under(
                        before.denied[i],
                        entry.path,
                    );
                if link {
                    &&& after.current is None
                    &&& after.roots == before.roots
                    &&& after.symlinks == before.symlinks.push(paths::normalized(entry.path))
                } else if listed {
                    after == before
                } else {
                    &&& after.current is None
                    &&& after.roots == before.roots.push(entry.path)
                    &&& after.symlinks == before.symlinks
                }
            })
        },
        WalkEvent::List(listed) => {
            &&& before.current is Some
            &&& after.current is None
            &&& after.symlinks == before.symlinks
            &&& ({
                let entry = before.current->0;
                match listed {
                    Err(_) => {
                        &&& after.roots == before.roots.push(entry.path)
                        &&& after.stack == before.stack
                    },
                    Ok(entries) => {
                        &&& after.roots == before.roots
                        &&& before.stack.is_prefix_of(after.stack)
                        &&& forall|i: int|
                            0 <= i < entries@.len() ==> ((#[trigger] entries@[i]) matches Ok(name)
                                ==> after.stack.contains(
                                EntryView {
                                    path: paths::joined(entry.path, name@),
                                    explicit: false,
                                    depth: (entry.depth + 1) as u32,
                                },
                            ))
                        &&& forall|j: int|
                            #![trigger after.stack[j]]
                            before.stack.len() <= j < after.stack.len() ==> lists_path(
                                entries@,
                                entry.path,
                                after.stack[j].path,
                            )
                    },
                }
            })
        },
    }
}

/// Whether every path of a list lies below a root and below no denied one.
pub open spec fn clear_of(list: Seq<Seq<u8>>, root: Seq<u8>, denied: Seq<Seq<u8>>) -> bool {
    forall|i: int|
        0 <= i < list.len() ==> paths::under(#[trigger] list[i], root) && !paths::under_any(
            list[i],
            denied,
        )
}

/// Whether a walk stays within its root and returns nothing denied.
pub open spec fn scan_valid(scan: Scan) -> bool {
    &&& clear_of(bytes::texts(scan.roots@), scan.root@, bytes::texts(scan.denied@))
    &&& forall|i: int|
        0 <= i < scan.stack@.len() ==> paths::under(
            (#[trigger] scan.stack@[i]).path@,
            scan.root@,
        )
    &&& scan.current matches Some(entry) ==> entry.depth < MAX_TRAVERSAL_DEPTH && paths::under(
        entry.path@,
        scan.root@,
    ) && !paths::under_any(entry.path@, bytes::texts(scan.denied@))
}

/// The entry that is looked at next, and those left after it: the last that
/// is not denied. One that lies too deep ends the walk.
pub open spec fn next_entry(
    stack: Seq<EntryView>,
    denied: Seq<Seq<u8>>,
) -> Result<(Option<EntryView>, Seq<EntryView>), Error>
    decreases stack.len(),
{
    if stack.len() == 0 {
        Ok((None, stack))
    } else if stack.last().depth >= MAX_TRAVERSAL_DEPTH {
        Err(Error::PolicyTraversalDepth)
    } else if paths::under_any(stack.last().path, denied) {
        next_entry(stack.drop_last(), denied)
    } else {
        Ok((Some(stack.last()), stack.drop_last()))
    }
}

/// What an optional entry says.
pub open spec fn entry_view(entry: Option<ScanEntry>) -> Option<EntryView> {
    match entry {
        Some(entry) => Some(entry@),
        None => None,
    }
}

/// The entries of a directory, to be looked at. What could not be read for a
/// reason that is passed over is left out.
pub open spec fn child_entries(dir: Seq<u8>, depth: u32, entries: Seq<DirectoryEntry>) -> Seq<
    EntryView,
>
    decreases entries.len(),
{
    if entries.len() == 0 {
        Seq::empty()
    } else {
        let rest = child_entries(dir, depth, entries.drop_last());
        match entries.last() {
            Ok(name) => rest.push(
                EntryView {
                    path: paths::joined(dir, name@),
                    explicit: false,
                    depth: (depth + 1) as u32,
                },
            ),
            Err(_) => rest,
        }
    }
}

/// Whether an entry could not be read for a reason that ends the walk.
pub open spec fn is_broken(entry: DirectoryEntry) -> bool {
    entry matches Err(look) && !error::transport_failed(look.failure)
}

/// Where the first entry stands that ends the walk, or the count.
pub open spec fn first_broken(entries: Seq<DirectoryEntry>, from: nat) -> nat
    decreases entries.len() - from,
{
    if from >= entries.len() {
        entries.len()
    } else if is_broken(entries[from as int]) {
        from
    } else {
        first_broken(entries, from + 1)
    }
}

/// Whether each name stands for something in its directory.
pub open spec fn plain_names(entries: Seq<DirectoryEntry>) -> bool {
    forall|i: int|
        0 <= i < entries.len() ==> ((#[trigger] entries[i]) matches Ok(name) ==> !paths::is_rooted(
            name@,
        ))
}

/// What lies in a directory lies below what the directory lies below.
pub proof fn lemma_child_is_under(dir: Seq<u8>, name: Seq<u8>, root: Seq<u8>)
    requires
        !paths::is_rooted(name),
        paths::under(dir, root),
    ensures
        paths::under(paths::joined(dir, name), root),
{
    let whole = paths::joined(dir, name);
    if dir.len() > 0 {
        lemma_below_directory(dir, name);
    } else {
        assert(paths::components(dir) =~= Seq::empty());
    }
}

proof fn lemma_below_directory(dir: Seq<u8>, name: Seq<u8>)
    requires
        !paths::is_rooted(name),
        dir.len() > 0,
    ensures
        paths::components(paths::joined(dir, name)) == paths::components(dir) + paths::names(name),
{
    let whole = paths::joined(dir, name);
    let front = if dir.last() == paths::SLASH {
        dir.drop_last()
    } else {
        dir
    };
    assert(whole =~= front.push(paths::SLASH) + name);
    paths::lemma_names_around_separator(front, name);
    if dir.last() == paths::SLASH {
        paths::lemma_names_around_separator(front, Seq::empty());
        assert(dir =~= front.push(paths::SLASH) + Seq::<u8>::empty());
        assert(paths::names(Seq::empty()) =~= Seq::empty());
        assert(paths::names(dir) =~= paths::names(front));
    }
    assert(whole[0] == dir[0]);
    paths::lemma_first_segment_stays(front, name);
    paths::lemma_first_segment_stays(front, Seq::empty());
    assert(paths::starts_at_dot(whole) == paths::starts_at_dot(dir));
    assert(paths::components(whole) =~= paths::components(dir) + paths::names(name));
}

/// A directory is carved where a denied root lies below it.
proof fn lemma_carve_is_below(path: Seq<u8>, denied: Seq<Seq<u8>>)
    ensures
        lowering::needs_carve(path, denied) == exists|i: int|
            0 <= i < denied.len() && #[trigger] paths::strictly_under(denied[i], path),
{
}

fn find_broken(entries: &Vec<DirectoryEntry>) -> (at: usize)
    ensures
        at == first_broken(entries@, 0),
        at <= entries@.len(),
        at < entries@.len() ==> is_broken(entries@[at as int]),
{
    let mut at: usize = 0;
    while at < entries.len()
        invariant
            at <= entries.len(),
            first_broken(entries@, 0) == first_broken(entries@, at as nat),
        decreases entries.len() - at,
    {
        if let Err(look) = &entries[at] {
            if !look.failure.is_transport_failed() {
                return at;
            }
        }
        at += 1;
    }
    at
}

/// The first entry that ends a walk, taken out of the list.
fn take_broken(entries: Vec<DirectoryEntry>) -> (result: Result<Vec<DirectoryEntry>, Error>)
    ensures
        ({
            let at = first_broken(entries@, 0);
            if at < entries@.len() {
                entries@[at as int] is Err && result == Err::<Vec<DirectoryEntry>, _>(
                    Error::PolicyIoFailed { source: entries@[at as int]->Err_0.source },
                )
            } else {
                result == Ok::<Vec<DirectoryEntry>, Error>(entries)
            }
        }),
{
    let at = find_broken(&entries);
    if at == entries.len() {
        return Ok(entries);
    }
    let mut entries = entries;
    let broken = entries.remove(at);
    match broken {
        Err(look) => Err(Error::PolicyIoFailed { source: look.source }),
        Ok(_) => Ok(entries),
    }
}

impl Scan {
    /// The start of a walk.
    pub fn scan_allowed_root(root: &[u8], denied: &[Vec<u8>]) -> (scan: Self)
        ensures
            scan_valid(scan),
            scan.root@ == root@,
            bytes::texts(scan.denied@) == bytes::texts(denied@),
            entry_views(scan.stack@) == seq![
                EntryView { path: root@, explicit: true, depth: 0 },
            ],
            scan.current is None,
            scan.roots@.len() == 0,
            scan.symlinks@.len() == 0,
    {
        let mut copies: Vec<Vec<u8>> = Vec::new();
        assert(bytes::texts(copies@) =~= Seq::empty());
        lowering::push_paths(&mut copies, denied);
        assert(bytes::texts(copies@) =~= bytes::texts(denied@));
        let mut stack: Vec<ScanEntry> = Vec::new();
        stack.push(ScanEntry { path: bytes::copy_bytes(root), explicit: true, depth: 0 });
        assert(entry_views(stack@) =~= seq![EntryView { path: root@, explicit: true, depth: 0 }]);
        Scan {
            root: bytes::copy_bytes(root),
            denied: copies,
            stack,
            current: None,
            roots: Vec::new(),
            symlinks: Vec::new(),
        }
    }

    /// Turns to the next path that is to be looked at. Returns whether there is
    /// one.
    pub fn next(&mut self) -> (more: Result<bool, Error>)
        requires
            scan_valid(*old(self)),
        ensures
            final(self).root == old(self).root,
            final(self).denied == old(self).denied,
            final(self).roots == old(self).roots,
            final(self).symlinks == old(self).symlinks,
            match next_entry(entry_views(old(self).stack@), bytes::texts(old(self).denied@)) {
                Err(error) => more == Err::<bool, _>(error),
                Ok((entry, rest)) => more == Ok::<bool, Error>(entry is Some) && scan_valid(
                    *final(self),
                ) && entry_view(final(self).current) == entry && entry_views(final(self).stack@)
                    == rest,
            },
            more is Ok ==> walked(old(self)@, WalkEvent::Turn, final(self)@),
            more matches Ok(found) ==> found == (final(self).current is Some),
    {
        let ghost start = entry_views(self.stack@);
        let ghost avoided = bytes::texts(self.denied@);
        assert(start.take(start.len() as int) =~= start);
        self.current = None;
        while self.stack.len() > 0
            invariant
                scan_valid(*self),
                self.current is None,
                self.root == old(self).root,
                self.denied == old(self).denied,
                self.roots == old(self).roots,
                self.symlinks == old(self).symlinks,
                start == entry_views(old(self).stack@),
                avoided == bytes::texts(self.denied@),
                next_entry(start, avoided) == next_entry(entry_views(self.stack@), avoided),
                self.stack@.len() <= start.len(),
                entry_views(self.stack@) == start.take(self.stack@.len() as int),
                forall|i: int|
                    self.stack@.len() <= i < start.len() ==> paths::under_any(
                        (#[trigger] start[i]).path,
                        avoided,
                    ),
            decreases self.stack.len(),
        {
            let ghost before = entry_views(self.stack@);
            let ghost held = self.stack@;
            let last = self.stack.len() - 1;
            let entry = self.stack.remove(last);
            assert(self.stack@ =~= held.drop_last());
            assert(before.last() == entry@);
            assert(entry_views(self.stack@) =~= before.drop_last());
            assert forall|i: int| 0 <= i < self.stack@.len() implies paths::under(
                (#[trigger] self.stack@[i]).path@,
                self.root@,
            ) by {
                assert(self.stack@[i] == held[i]);
            }
            assert(paths::under(held[held.len() - 1].path@, self.root@));
            assert(entry_views(self.stack@) =~= start.take(self.stack@.len() as int));
            assert(start[self.stack@.len() as int] == entry@);
            if entry.depth >= MAX_TRAVERSAL_DEPTH {
                return Err(Error::PolicyTraversalDepth);
            }
            if !paths::is_under_any(entry.path.as_slice(), self.denied.as_slice()) {
                proof {
                    let left = entry_views(self.stack@);
                    assert forall|i: int| 0 <= i < left.len() implies start.contains(
                        #[trigger] left[i],
                    ) by {
                        assert(left[i] == start[i]);
                    }
                    assert forall|i: int|
                        #![trigger start[i]]
                        0 <= i < start.len() implies paths::under_any(start[i].path, avoided)
                        || start[i] == entry@ || left.contains(start[i]) by {
                        if i < left.len() {
                            assert(left[i] == start[i]);
                        }
                    }
                }
                self.current = Some(entry);
                return Ok(true);
            }
        }
        assert(entry_views(self.stack@).len() == 0);
        Ok(false)
    }

    /// Takes in what the path is. Returns whether it has to be listed: a
    /// directory in which something is denied. A path that is hidden, or in
    /// which nothing is denied, is returned whole. A link is not followed
    /// unless the walk started there.
    pub fn look(&mut self, looked: Result<FileKind, LookFailure>) -> (list: Result<bool, Error>)
        requires
            scan_valid(*old(self)),
            old(self).current is Some,
        ensures
            final(self).root == old(self).root,
            final(self).denied == old(self).denied,
            final(self).stack == old(self).stack,
            ({
                let entry = old(self).current->0;
                let roots = bytes::texts(old(self).roots@);
                let links = bytes::texts(old(self).symlinks@);
                let kept = final(self).roots@ == old(self).roots@;
                let link = looked matches Ok(kind) && kind.symlink && !entry.explicit;
                let whole = match looked {
                    Ok(kind) => !link && (!lowering::needs_carve(
                        entry.path@,
                        bytes::texts(old(self).denied@),
                    ) || !kind.dir),
                    Err(look) => error::opaque(look.failure),
                };
                if link {
                    list == Ok::<bool, Error>(false) && kept && bytes::texts(final(self).symlinks@)
                        == links.push(paths::normalized(entry.path@)) && final(self).current is None
                        && scan_valid(*final(self))
                } else if whole {
                    list == Ok::<bool, Error>(false) && bytes::texts(final(self).roots@)
                        == roots.push(entry.path@) && final(self).symlinks@ == old(self).symlinks@
                        && final(self).current is None && scan_valid(*final(self))
                } else if looked is Err {
                    list == Err::<bool, _>(
                        Error::PolicyIoFailed { source: looked->Err_0.source },
                    )
                } else {
                    list == Ok::<bool, Error>(true) && *final(self) == *old(self)
                }
            }),
            list is Ok ==> walked(old(self)@, WalkEvent::Look(looked), final(self)@),
            list matches Ok(wanted) ==> wanted == (final(self).current is Some),
    {
        proof {
            lemma_carve_is_below(
                self.current->0.path@,
                bytes::texts(self.denied@),
            );
        }
        let entry = match self.current.take() {
            Some(entry) => entry,
            None => return Ok(false),
        };
        let kind = match looked {
            Ok(kind) => kind,
            Err(look) => {
                if look.failure.is_opaque() {
                    self.keep(entry);
                    return Ok(false);
                }
                return Err(Error::PolicyIoFailed { source: look.source });
            },
        };
        if kind.symlink && !entry.explicit {
            let ghost links = bytes::texts(self.symlinks@);
            let link = paths::normalize_path_lexically(entry.path.as_slice());
            self.symlinks.push(link);
            assert(bytes::texts(self.symlinks@) =~= links.push(link@));
            return Ok(false);
        }
        if !lowering::has_denied_descendant(entry.path.as_slice(), self.denied.as_slice())
            || !kind.dir {
            self.keep(entry);
            return Ok(false);
        }
        self.current = Some(entry);
        assert(*self == *old(self));
        proof {
            let denied = bytes::texts(self.denied@);
            let i = choose|i: int|
                0 <= i < denied.len() && #[trigger] paths::strictly_under(denied[i], entry.path@);
            assert(paths::strictly_under(
                old(self)@.denied[i],
                old(self)@.current->0.path,
            ));
        }
        Ok(true)
    }

    fn keep(&mut self, entry: ScanEntry)
        requires
            scan_valid(*old(self)),
            old(self).current is None,
            paths::under(entry.path@, old(self).root@),
            !paths::under_any(entry.path@, bytes::texts(old(self).denied@)),
        ensures
            scan_valid(*final(self)),
            final(self).root == old(self).root,
            final(self).denied == old(self).denied,
            final(self).stack == old(self).stack,
            final(self).symlinks == old(self).symlinks,
            final(self).current is None,
            bytes::texts(final(self).roots@) == bytes::texts(old(self).roots@).push(entry.path@),
    {
        let ghost roots = bytes::texts(self.roots@);
        self.roots.push(entry.path);
        assert(bytes::texts(self.roots@) =~= roots.push(entry.path@));
    }

    /// Takes in what is in the directory. Each entry is to be looked at, one
    /// level deeper. A directory that is hidden is returned whole.
    pub fn list(
        &mut self,
        listed: Result<Vec<DirectoryEntry>, LookFailure>,
    ) -> (result: Result<(), Error>)
        requires
            scan_valid(*old(self)),
            old(self).current is Some,
            listed matches Ok(entries) ==> plain_names(entries@),
        ensures
            final(self).root == old(self).root,
            final(self).denied == old(self).denied,
            final(self).symlinks == old(self).symlinks,
            ({
                let entry = old(self).current->0;
                match listed {
                    Err(look) => if listing_hidden(look.failure) {
                        result == Ok::<(), Error>(()) && bytes::texts(final(self).roots@)
                            == bytes::texts(old(self).roots@).push(entry.path@)
                            && final(self).stack == old(self).stack && final(self).current is None
                            && scan_valid(*final(self))
                    } else {
                        result == Err::<(), _>(Error::PolicyIoFailed { source: look.source })
                    },
                    Ok(entries) => {
                        let broken = first_broken(entries@, 0);
                        if broken < entries@.len() {
                            result == Err::<(), _>(
                                Error::PolicyIoFailed {
                                    source: entries@[broken as int]->Err_0.source,
                                },
                            )
                        } else {
                            result == Ok::<(), Error>(()) && final(self).roots == old(self).roots
                                && entry_views(final(self).stack@) == entry_views(old(self).stack@)
                                + child_entries(entry.path@, entry.depth, entries@)
                                && final(self).current is None && scan_valid(*final(self))
                        }
                    },
                }
            }),
            result is Ok ==> walked(old(self)@, WalkEvent::List(listed), final(self)@),
    {
        let entry = match self.current.take() {
            Some(entry) => entry,
            None => return Ok(()),
        };
        let entries = match listed {
            Ok(entries) => entries,
            Err(look) => {
                if is_listing_hidden(&look.failure) {
                    self.keep(entry);
                    return Ok(());
                }
                return Err(Error::PolicyIoFailed { source: look.source });
            },
        };
        let entries = match take_broken(entries) {
            Ok(entries) => entries,
            Err(error) => return Err(error),
        };
        let ghost dir = entry.path@;
        let ghost depth = entry.depth;
        let ghost before = entry_views(self.stack@);
        let mut at: usize = 0;
        assert(entry_views(self.stack@) =~= before + child_entries(dir, depth, entries@.take(0)));
        while at < entries.len()
            invariant
                at <= entries.len(),
                scan_valid(*self),
                self.current is None,
                self.root == old(self).root,
                self.denied == old(self).denied,
                self.symlinks == old(self).symlinks,
                self.roots == old(self).roots,
                plain_names(entries@),
                dir == entry.path@,
                depth == entry.depth,
                depth < MAX_TRAVERSAL_DEPTH,
                paths::under(dir, self.root@),
                entry_views(self.stack@) == before + child_entries(
                    dir,
                    depth,
                    entries@.take(at as int),
                ),
            decreases entries.len() - at,
        {
            let ghost held = entry_views(self.stack@);
            assert(entries@.take(at + 1).drop_last() =~= entries@.take(at as int));
            assert(entries@.take(at + 1).last() == entries@[at as int]);
            if let Ok(name) = &entries[at] {
                assert(!paths::is_rooted(name@));
                proof {
                    lemma_child_is_under(dir, name@, self.root@);
                }
                let child = ScanEntry {
                    path: paths::join(entry.path.as_slice(), name.as_slice()),
                    explicit: false,
                    depth: entry.depth + 1,
                };
                self.stack.push(child);
                assert(entry_views(self.stack@) =~= held.push(child@));
            }
            assert(entry_views(self.stack@) =~= before + child_entries(
                dir,
                depth,
                entries@.take(at + 1),
            ));
            at += 1;
        }
        assert(entries@.take(at as int) =~= entries@);
        proof {
            lemma_entries_are_children(dir, depth, entries@);
            let children = child_entries(dir, depth, entries@);
            let after = entry_views(self.stack@);
            assert(before =~= after.take(before.len() as int));
            assert forall|i: int| 0 <= i < entries@.len() implies ((#[trigger] entries@[i]) matches Ok(
                name,
            ) ==> after.contains(
                EntryView {
                    path: paths::joined(dir, name@),
                    explicit: false,
                    depth: (depth + 1) as u32,
                },
            )) by {
                if let Ok(name) = entries@[i] {
                    let child = EntryView {
                        path: paths::joined(dir, name@),
                        explicit: false,
                        depth: (depth + 1) as u32,
                    };
                    let j = choose|j: int| 0 <= j < children.len() && children[j] == child;
                    assert(after[before.len() + j] == child);
                }
            }
            assert forall|j: int|
                #![trigger after[j]]
                before.len() <= j < after.len() implies lists_path(
                entries@,
                dir,
                after[j].path,
            ) by {
                assert(after[j] == children[j - before.len()]);
            }
        }
        Ok(())
    }
}

/// Each entry with a name is among the children, and each child has a name.
proof fn lemma_entries_are_children(dir: Seq<u8>, depth: u32, entries: Seq<DirectoryEntry>)
    ensures
        forall|i: int|
            0 <= i < entries.len() ==> ((#[trigger] entries[i]) matches Ok(name) ==> child_entries(
                dir,
                depth,
                entries,
            ).contains(
                EntryView {
                    path: paths::joined(dir, name@),
                    explicit: false,
                    depth: (depth + 1) as u32,
                },
            )),
        forall|j: int|
            #![trigger child_entries(dir, depth, entries)[j]]
            0 <= j < child_entries(dir, depth, entries).len() ==> lists_path(
                entries,
                dir,
                child_entries(dir, depth, entries)[j].path,
            ),
    decreases entries.len(),
{
    if entries.len() > 0 {
        let less = entries.drop_last();
        let rest = child_entries(dir, depth, less);
        let all = child_entries(dir, depth, entries);
        lemma_entries_are_children(dir, depth, less);
        assert forall|i: int| 0 <= i < entries.len() implies ((#[trigger] entries[i]) matches Ok(
            name,
        ) ==> all.contains(
            EntryView {
                path: paths::joined(dir, name@),
                explicit: false,
                depth: (depth + 1) as u32,
            },
        )) by {
            if let Ok(name) = entries[i] {
                let child = EntryView {
                    path: paths::joined(dir, name@),
                    explicit: false,
                    depth: (depth + 1) as u32,
                };
                if i < less.len() {
                    assert(less[i] == entries[i]);
                    let j = choose|j: int| 0 <= j < rest.len() && rest[j] == child;
                    assert(all[j] == child);
                } else {
                    assert(all[all.len() - 1] == child);
                }
            }
        }
        assert forall|j: int|
            #![trigger all[j]]
            0 <= j < all.len() implies lists_path(entries, dir, all[j].path) by {
            if j < rest.len() {
                assert(all[j] == rest[j]);
                assert(lists_path(less, dir, rest[j].path));
                let i = choose|i: int|
                    0 <= i < less.len() && (#[trigger] less[i]) is Ok && rest[j].path
                        == paths::joined(dir, less[i]->Ok_0@);
                assert(entries[i] == less[i]);
            } else {
                let i = entries.len() - 1;
                assert(entries[i] is Ok && all[j].path == paths::joined(dir, entries[i]->Ok_0@));
            }
        }
    } else {
        assert(child_entries(dir, depth, entries).len() == 0);
    }
}

/// Whether the steps of a walk follow on each other as it is driven: what is
/// turned to is looked at, and listed where that is asked for.
pub open spec fn driven(states: Seq<Walk>, events: Seq<WalkEvent>) -> bool {
    &&& states.len() == events.len() + 1
    &&& forall|i: int|
        0 <= i < events.len() ==> walked(states[i], #[trigger] events[i], states[i + 1])
    &&& forall|i: int|
        0 <= i < events.len() ==> match #[trigger] events[i] {
            WalkEvent::Turn => states[i].current is None,
            WalkEvent::Look(_) => i > 0 && events[i - 1] is Turn,
            WalkEvent::List(_) => i > 0 && events[i - 1] is Look,
        }
}

proof fn lemma_entry_is_returned(
    states: Seq<Walk>,
    events: Seq<WalkEvent>,
    at: int,
    entry: EntryView,
)
    requires
        driven(states, events),
        0 <= at <= events.len(),
        states.last().stack.len() == 0,
        states.last().current is None,
        states[at].stack.contains(entry) || states[at].current == Some(entry),
        states[at].current == Some(entry) ==> at == events.len() || !(events[at] is List),
        !paths::under_any(entry.path, states[at].denied),
        forall|i: int|
            0 <= i < states[at].denied.len() ==> !paths::strictly_under(
                #[trigger] states[at].denied[i],
                entry.path,
            ),
        entry.explicit || forall|j: int|
            at <= j < events.len() && states[j].current is Some && states[j].current->0.path
                == entry.path ==> ((#[trigger] events[j]) matches WalkEvent::Look(Ok(kind))
                ==> !kind.symlink),
    ensures
        states.last().roots.contains(entry.path),
    decreases events.len() - at,
{
    if at < events.len() {
        let before = states[at];
        let after = states[at + 1];
        let event = events[at];
        assert(walked(before, event, after));
        if before.current == Some(entry) {
            if let WalkEvent::Look(looked) = event {
                assert(after.roots == before.roots.push(entry.path));
                assert(after.roots[before.roots.len() as int] == entry.path);
                lemma_roots_stay(states, events, at + 1, entry.path);
            }
        } else {
            let i = choose|i: int| 0 <= i < before.stack.len() && before.stack[i] == entry;
            match event {
                WalkEvent::Turn => {
                    if after.current == Some(entry) && at + 1 < events.len() {
                        assert(!(events[at + 1] is List));
                    }
                },
                WalkEvent::Look(_) => {},
                WalkEvent::List(listed) => {
                    if let Ok(entries) = listed {
                        assert(after.stack[i] == before.stack[i]);
                    }
                },
            }
            if after.current == Some(entry) && at + 1 < events.len() && events[at + 1] is List {
                assert(events[at] is Look);
                assert(after == before);
                assert(false);
            }
            lemma_entry_is_returned(states, events, at + 1, entry);
        }
    }
}

proof fn lemma_roots_stay(states: Seq<Walk>, events: Seq<WalkEvent>, at: int, path: Seq<u8>)
    requires
        driven(states, events),
        0 <= at <= events.len(),
        states[at].roots.contains(path),
    ensures
        states.last().roots.contains(path),
    decreases events.len() - at,
{
    if at < events.len() {
        let before = states[at].roots;
        let after = states[at + 1].roots;
        assert(walked(states[at], events[at], states[at + 1]));
        let i = choose|i: int| 0 <= i < before.len() && before[i] == path;
        assert(after[i] == path);
        lemma_roots_stay(states, events, at + 1, path);
    }
}

/// A walk that is driven to its end returns everything beside what is denied:
/// each path that was listed in a directory, that is no link, lies below no
/// denied root and holds none, is among the roots that it returns.
pub proof fn law_walk_returns_all_that_was_listed(
    states: Seq<Walk>,
    events: Seq<WalkEvent>,
    at: int,
    entries: Vec<DirectoryEntry>,
    which: int,
    name: Vec<u8>,
)
    requires
        driven(states, events),
        states.last().stack.len() == 0,
        states.last().current is None,
        0 <= at < events.len(),
        events[at] == WalkEvent::List(Ok(entries)),
        0 <= which < entries@.len(),
        entries@[which] == Ok::<Vec<u8>, LookFailure>(name),
        ({
            let path = paths::joined(states[at].current->0.path, name@);
            &&& !paths::under_any(path, states[at].denied)
            &&& forall|i: int|
                0 <= i < states[at].denied.len() ==> !paths::strictly_under(
                    #[trigger] states[at].denied[i],
                    path,
                )
            &&& forall|j: int|
                at < j < events.len() && states[j].current is Some && states[j].current->0.path
                    == path ==> ((#[trigger] events[j]) matches WalkEvent::Look(Ok(kind))
                    ==> !kind.symlink)
        }),
    ensures
        states.last().roots.contains(paths::joined(states[at].current->0.path, name@)),
{
    let dir = states[at].current->0;
    assert(walked(states[at], events[at], states[at + 1]));
    let child = EntryView {
        path: paths::joined(dir.path, name@),
        explicit: false,
        depth: (dir.depth + 1) as u32,
    };
    assert(states[at + 1].stack.contains(child));
    lemma_entry_is_returned(states, events, at + 1, child);
}

/// A root in which nothing is denied is returned as it is, even where it is a
/// link.
pub proof fn law_walk_returns_a_root_without_denials(
    states: Seq<Walk>,
    events: Seq<WalkEvent>,
    root: Seq<u8>,
)
    requires
        driven(states, events),
        states.last().stack.len() == 0,
        states.last().current is None,
        states[0].stack == seq![EntryView { path: root, explicit: true, depth: 0 }],
        states[0].current is None,
        !paths::under_any(root, states[0].denied),
        forall|i: int|
            0 <= i < states[0].denied.len() ==> !paths::strictly_under(
                #[trigger] states[0].denied[i],
                root,
            ),
    ensures
        states.last().roots.contains(root),
{
    let entry = EntryView { path: root, explicit: true, depth: 0 };
    assert(states[0].stack[0] == entry);
    lemma_entry_is_returned(states, events, 0, entry);
}

/// A path that is still to be looked at for a match, or what ends the walk
/// when its turn comes.
#[derive(Debug)]
pub enum GlobEntry {
    Visit { path: Vec<u8>, depth: u32 },
    Broken(Cause),
}

/// A path that is looked at for a match.
#[derive(Debug)]
pub struct GlobVisit {
    pub path: Vec<u8>,
    pub depth: u32,
}

/// A walk for what matches a pattern.
#[derive(Debug)]
pub struct GlobScan {
    pub pattern: String,
    pub stack: Vec<GlobEntry>,
    pub current: Option<GlobVisit>,
    pub matches: Vec<Vec<u8>>,
}

/// Whether the text of a path matches a pattern.
pub open spec fn is_match(path: Seq<u8>, pattern: Seq<char>) -> bool {
    glob::matches(
        vstd::utf8::encode_utf8(pattern),
        vstd::utf8::encode_utf8(text::shown(path)),
    )
}

/// Whether everything found matches, and nothing too deep is looked into.
pub open spec fn glob_valid(scan: GlobScan) -> bool {
    &&& forall|i: int|
        0 <= i < scan.matches@.len() ==> is_match(
            #[trigger] bytes::texts(scan.matches@)[i],
            scan.pattern@,
        )
    &&& scan.current matches Some(visit) ==> visit.depth < MAX_TRAVERSAL_DEPTH
}

/// What is found at a path: its normal form, where that matches.
pub open spec fn found_at(path: Seq<u8>, pattern: Seq<char>) -> Seq<Seq<u8>> {
    if is_match(paths::normalized(path), pattern) {
        seq![paths::normalized(path)]
    } else {
        Seq::empty()
    }
}

/// The entries of a directory in the order in which they come off the stack.
/// What could not be read for a reason that is passed over is left out, and
/// for any other reason ends the walk in its turn.
pub open spec fn glob_children(
    dir: Seq<u8>,
    depth: u32,
    entries: Seq<DirectoryEntry>,
    stack: Seq<GlobEntry>,
) -> bool
    decreases entries.len(),
{
    if entries.len() == 0 {
        stack.len() == 0
    } else {
        let rest = entries.drop_first();
        match entries[0] {
            Ok(name) => {
                &&& stack.len() > 0
                &&& stack.last() matches GlobEntry::Visit { path, depth: below }
                &&& path@ == paths::joined(dir, name@)
                &&& below == depth + 1
                &&& glob_children(dir, depth, rest, stack.drop_last())
            },
            Err(look) => if error::transport_failed(look.failure) {
                glob_children(dir, depth, rest, stack)
            } else {
                stack.len() > 0 && stack.last() == GlobEntry::Broken(look.source) && glob_children(
                    dir,
                    depth,
                    rest,
                    stack.drop_last(),
                )
            },
        }
    }
}

/// Whether a path is still to be looked at for a match.
pub open spec fn holds_visit(stack: Seq<GlobEntry>, path: Seq<u8>) -> bool {
    exists|i: int|
        0 <= i < stack.len() && ((#[trigger] stack[i]) matches GlobEntry::Visit { path: held, .. }
            && held@ == path)
}

/// Whether a step of a walk for matches loses nothing: a path that is turned to
/// is found where it matches, and of a directory that is listed every entry is
/// to be looked at.
pub open spec fn searched(before: GlobScan, event: WalkEvent, after: GlobScan) -> bool {
    &&& after.pattern@ == before.pattern@
    &&& bytes::texts(before.matches@).is_prefix_of(bytes::texts(after.matches@))
    &&& match event {
        WalkEvent::Turn => if before.stack@.len() == 0 {
            after.stack@.len() == 0 && after.matches@ == before.matches@
        } else {
            &&& before.stack@.last() matches GlobEntry::Visit { path, .. }
            &&& after.stack@ == before.stack@.drop_last()
            &&& ({
                let normal = paths::normalized(path@);
                let matched = glob::matches(
                    vstd::utf8::encode_utf8(before.pattern@),
                    vstd::utf8::encode_utf8(text::shown(normal)),
                );
                let found = bytes::texts(after.matches@);
                &&& matched ==> found == bytes::texts(before.matches@).push(normal)
                &&& !matched ==> found == bytes::texts(before.matches@)
            })
        },
        WalkEvent::Look(_) => after == before,
        WalkEvent::List(listed) => {
            &&& before.current is Some
            &&& after.matches@ == before.matches@
            &&& before.stack@.is_prefix_of(after.stack@)
            &&& listed matches Ok(entries) ==> forall|i: int|
                0 <= i < entries@.len() ==> ((#[trigger] entries@[i]) matches Ok(name)
                    ==> holds_visit(
                    after.stack@,
                    paths::joined(before.current->0.path@, name@),
                ))
        },
    }
}

proof fn lemma_children_are_visited(
    dir: Seq<u8>,
    depth: u32,
    entries: Seq<DirectoryEntry>,
    stack: Seq<GlobEntry>,
)
    requires
        glob_children(dir, depth, entries, stack),
    ensures
        forall|i: int|
            0 <= i < entries.len() ==> ((#[trigger] entries[i]) matches Ok(name) ==> holds_visit(
                stack,
                paths::joined(dir, name@),
            )),
    decreases entries.len(),
{
    if entries.len() > 0 {
        let rest = entries.drop_first();
        let left = match entries[0] {
            Ok(_) => stack.drop_last(),
            Err(look) => if error::transport_failed(look.failure) {
                stack
            } else {
                stack.drop_last()
            },
        };
        lemma_children_are_visited(dir, depth, rest, left);
        assert forall|i: int| 0 <= i < entries.len() implies ((#[trigger] entries[i]) matches Ok(
            name,
        ) ==> holds_visit(stack, paths::joined(dir, name@))) by {
            if let Ok(name) = entries[i] {
                let path = paths::joined(dir, name@);
                if i == 0 {
                    assert(stack[stack.len() - 1] is Visit);
                } else {
                    assert(rest[i - 1] == entries[i]);
                    assert(holds_visit(left, path));
                    let j = choose|j: int|
                        0 <= j < left.len() && ((#[trigger] left[j]) matches GlobEntry::Visit {
                            path: held,
                            ..
                        } && held@ == path);
                    assert(stack[j] == left[j]);
                }
            }
        }
    }
}

proof fn lemma_visit_is_made(
    states: Seq<GlobScan>,
    events: Seq<WalkEvent>,
    at: int,
    path: Seq<u8>,
)
    requires
        states.len() == events.len() + 1,
        forall|i: int|
            0 <= i < events.len() ==> searched(states[i], #[trigger] events[i], states[i + 1]),
        0 <= at <= events.len(),
        states.last().stack@.len() == 0,
        holds_visit(states[at].stack@, path),
        glob::matches(
            vstd::utf8::encode_utf8(states[at].pattern@),
            vstd::utf8::encode_utf8(text::shown(paths::normalized(path))),
        ),
    ensures
        bytes::texts(states.last().matches@).contains(paths::normalized(path)),
    decreases events.len() - at,
{
    let before = states[at];
    let i = choose|i: int|
        0 <= i < before.stack@.len() && ((#[trigger] before.stack@[i]) matches GlobEntry::Visit {
            path: held,
            ..
        } && held@ == path);
    if at < events.len() {
        let after = states[at + 1];
        assert(searched(before, events[at], after));
        if events[at] is Turn && i == before.stack@.len() - 1 {
            let count = before.matches@.len() as int;
            assert(bytes::texts(after.matches@)[count] == paths::normalized(path));
            lemma_matches_stay(states, events, at + 1, paths::normalized(path));
        } else {
            assert(after.stack@[i] == before.stack@[i]);
            lemma_visit_is_made(states, events, at + 1, path);
        }
    }
}

proof fn lemma_matches_stay(
    states: Seq<GlobScan>,
    events: Seq<WalkEvent>,
    at: int,
    path: Seq<u8>,
)
    requires
        states.len() == events.len() + 1,
        forall|i: int|
            0 <= i < events.len() ==> searched(states[i], #[trigger] events[i], states[i + 1]),
        0 <= at <= events.len(),
        bytes::texts(states[at].matches@).contains(path),
    ensures
        bytes::texts(states.last().matches@).contains(path),
    decreases events.len() - at,
{
    if at < events.len() {
        let before = bytes::texts(states[at].matches@);
        let after = bytes::texts(states[at + 1].matches@);
        assert(searched(states[at], events[at], states[at + 1]));
        let i = choose|i: int| 0 <= i < before.len() && before[i] == path;
        assert(after[i] == path);
        lemma_matches_stay(states, events, at + 1, path);
    }
}

/// A walk for matches that goes to its end finds every match: each path that
/// was listed in a directory and whose normal form the pattern matches.
pub proof fn law_walk_finds_each_listed_match(
    states: Seq<GlobScan>,
    events: Seq<WalkEvent>,
    at: int,
    entries: Vec<DirectoryEntry>,
    which: int,
    name: Vec<u8>,
)
    requires
        states.len() == events.len() + 1,
        forall|i: int|
            0 <= i < events.len() ==> searched(states[i], #[trigger] events[i], states[i + 1]),
        states.last().stack@.len() == 0,
        0 <= at < events.len(),
        events[at] == WalkEvent::List(Ok(entries)),
        0 <= which < entries@.len(),
        entries@[which] == Ok::<Vec<u8>, LookFailure>(name),
        glob::matches(
            vstd::utf8::encode_utf8(states[at].pattern@),
            vstd::utf8::encode_utf8(
                text::shown(
                    paths::normalized(paths::joined(states[at].current->0.path@, name@)),
                ),
            ),
        ),
    ensures
        bytes::texts(states.last().matches@).contains(
            paths::normalized(paths::joined(states[at].current->0.path@, name@)),
        ),
{
    assert(searched(states[at], events[at], states[at + 1]));
    lemma_visit_is_made(
        states,
        events,
        at + 1,
        paths::joined(states[at].current->0.path@, name@),
    );
}

impl GlobScan {
    /// The start of a walk, in the directory that holds every match.
    pub fn expand_glob_path(pattern: &str) -> (scan: Self)
        ensures
            glob_valid(scan),
            scan.pattern@ == pattern@,
            scan.current is None,
            scan.matches@.len() == 0,
            scan.stack@.len() == 1,
            scan.stack@[0] matches GlobEntry::Visit { path, depth } && path@ == glob::base_of(
                vstd::utf8::encode_utf8(pattern@),
            ) && depth == 0,
    {
        let mut stack: Vec<GlobEntry> = Vec::new();
        stack.push(GlobEntry::Visit { path: glob::glob_base(pattern), depth: 0 });
        GlobScan { pattern: pattern.to_owned(), stack, current: None, matches: Vec::new() }
    }

    /// Whether the walk starts at all, given whether the directory could be
    /// looked at: in one that is hidden nothing is found.
    pub fn starts(looked: Result<(), LookFailure>) -> (result: Result<bool, Error>)
        ensures
            match looked {
                Ok(_) => result == Ok::<bool, Error>(true),
                Err(look) => if error::opaque(look.failure) {
                    result == Ok::<bool, Error>(false)
                } else {
                    result == Err::<bool, _>(Error::PolicyIoFailed { source: look.source })
                },
            },
    {
        match looked {
            Ok(_) => Ok(true),
            Err(look) => if look.failure.is_opaque() {
                Ok(false)
            } else {
                Err(Error::PolicyIoFailed { source: look.source })
            },
        }
    }

    /// Turns to the next path, which is found where it matches. Returns
    /// whether there is one.
    pub fn next(&mut self) -> (more: Result<bool, Error>)
        requires
            glob_valid(*old(self)),
        ensures
            final(self).pattern == old(self).pattern,
            old(self).stack@.len() == 0 ==> more == Ok::<bool, Error>(false) && glob_valid(
                *final(self),
            ) && final(self).matches == old(self).matches && final(self).current is None
                && final(self).stack@.len() == 0,
            old(self).stack@.len() > 0 ==> match old(self).stack@.last() {
                GlobEntry::Broken(source) => more == Err::<bool, _>(
                    Error::PolicyIoFailed { source },
                ),
                GlobEntry::Visit { path, depth } => if depth >= MAX_TRAVERSAL_DEPTH {
                    more == Err::<bool, _>(Error::PolicyTraversalDepth)
                } else {
                    more == Ok::<bool, Error>(true) && glob_valid(*final(self))
                        && final(self).stack@ == old(self).stack@.drop_last()
                        && final(self).current == Some(GlobVisit { path, depth }) && bytes::texts(
                        final(self).matches@,
                    ) == bytes::texts(old(self).matches@) + found_at(path@, old(self).pattern@)
                },
            },
            more is Ok ==> searched(*old(self), WalkEvent::Turn, *final(self)),
    {
        self.current = None;
        let (path, depth) = match self.stack.pop() {
            None => return Ok(false),
            Some(GlobEntry::Broken(source)) => return Err(Error::PolicyIoFailed { source }),
            Some(GlobEntry::Visit { path, depth }) => (path, depth),
        };
        if depth >= MAX_TRAVERSAL_DEPTH {
            return Err(Error::PolicyTraversalDepth);
        }
        let candidate = paths::normalize_path_lexically(path.as_slice());
        let ghost before = bytes::texts(self.matches@);
        if glob::path_matches_glob_str(candidate.as_slice(), self.pattern.as_str()) {
            self.matches.push(candidate);
            assert(bytes::texts(self.matches@) =~= before.push(candidate@));
        }
        assert(bytes::texts(self.matches@) =~= before + found_at(path@, self.pattern@));
        proof {
            let all = bytes::texts(self.matches@);
            assert forall|i: int| 0 <= i < all.len() implies is_match(
                #[trigger] all[i],
                self.pattern@,
            ) by {
                if i < before.len() {
                    assert(all[i] == before[i]);
                }
            }
        }
        self.current = Some(GlobVisit { path, depth });
        Ok(true)
    }

    /// Takes in what the path is. Returns whether it has to be listed: a
    /// directory, not a link to one.
    pub fn look(&mut self, looked: Result<FileKind, LookFailure>) -> (list: Result<bool, Error>)
        requires
            glob_valid(*old(self)),
        ensures
            glob_valid(*final(self)),
            *final(self) == *old(self),
            match looked {
                Ok(kind) => list == Ok::<bool, Error>(kind.dir && !kind.symlink),
                Err(look) => if error::opaque(look.failure) {
                    list == Ok::<bool, Error>(false)
                } else {
                    list == Err::<bool, _>(Error::PolicyIoFailed { source: look.source })
                },
            },
            list is Ok ==> searched(*old(self), WalkEvent::Look(looked), *final(self)),
    {
        match looked {
            Ok(kind) => Ok(kind.dir && !kind.symlink),
            Err(look) => if look.failure.is_opaque() {
                Ok(false)
            } else {
                Err(Error::PolicyIoFailed { source: look.source })
            },
        }
    }

    /// Takes in what is in the directory. The entries are looked at before
    /// anything that was found earlier, in their order.
    pub fn collect_glob_matches(
        &mut self,
        listed: Result<Vec<DirectoryEntry>, LookFailure>,
    ) -> (result: Result<(), Error>)
        requires
            glob_valid(*old(self)),
            old(self).current is Some,
        ensures
            final(self).pattern == old(self).pattern,
            final(self).matches == old(self).matches,
            match listed {
                Err(look) => if listing_hidden(look.failure) {
                    result == Ok::<(), Error>(()) && final(self).stack@ == old(self).stack@
                        && glob_valid(*final(self))
                } else {
                    result == Err::<(), _>(Error::PolicyIoFailed { source: look.source })
                },
                Ok(entries) => result == Ok::<(), Error>(()) && glob_valid(*final(self))
                    && old(self).stack@.is_prefix_of(final(self).stack@) && glob_children(
                    old(self).current->0.path@,
                    old(self).current->0.depth,
                    entries@,
                    final(self).stack@.skip(old(self).stack@.len() as int),
                ),
            },
            result is Ok ==> searched(*old(self), WalkEvent::List(listed), *final(self)),
    {
        let visit = match self.current.take() {
            Some(visit) => visit,
            None => return Ok(()),
        };
        let dir = visit.path;
        let depth: u32 = visit.depth;
        let entries = match listed {
            Ok(entries) => entries,
            Err(look) => {
                if is_listing_hidden(&look.failure) {
                    return Ok(());
                }
                return Err(Error::PolicyIoFailed { source: look.source });
            },
        };
        let ghost all = entries@;
        let ghost before = self.stack@;
        let ghost count = before.len() as int;
        let mut entries = entries;
        assert(all.skip(all.len() as int) =~= Seq::empty());
        while entries.len() > 0
            invariant
                glob_valid(*self),
                self.pattern == old(self).pattern,
                self.matches == old(self).matches,
                self.current is None,
                depth < MAX_TRAVERSAL_DEPTH,
                entries@.len() <= all.len(),
                entries@ == all.take(entries@.len() as int),
                count == before.len(),
                before.is_prefix_of(self.stack@),
                glob_children(
                    dir@,
                    depth,
                    all.skip(entries@.len() as int),
                    self.stack@.skip(count),
                ),
            decreases entries.len(),
        {
            let ghost held = self.stack@;
            let ghost at = entries@.len() - 1;
            let ghost rest = all.skip(at + 1);
            let ghost now = all.skip(at);
            let last = entries.len() - 1;
            let entry = entries.remove(last);
            assert(entry == all[at]);
            assert(entries@ =~= all.take(at));
            assert(now[0] == entry);
            assert(now.drop_first() =~= rest);
            match entry {
                Ok(name) => {
                    let path = paths::join(dir.as_slice(), name.as_slice());
                    let child = GlobEntry::Visit { path, depth: depth + 1 };
                    self.stack.push(child);
                    assert(self.stack@.skip(count) =~= held.skip(count).push(child));
                    assert(self.stack@.skip(count).drop_last() =~= held.skip(count));
                },
                Err(look) => {
                    if !look.failure.is_transport_failed() {
                        let child = GlobEntry::Broken(look.source);
                        self.stack.push(child);
                        assert(self.stack@.skip(count) =~= held.skip(count).push(child));
                        assert(self.stack@.skip(count).drop_last() =~= held.skip(count));
                    }
                },
            }
        }
        assert(all.skip(0) =~= all);
        proof {
            let new = self.stack@.skip(count);
            lemma_children_are_visited(dir@, depth, all, new);
            assert forall|i: int| 0 <= i < all.len() implies ((#[trigger] all[i]) matches Ok(name)
                ==> holds_visit(self.stack@, paths::joined(dir@, name@))) by {
                if let Ok(name) = all[i] {
                    let path = paths::joined(dir@, name@);
                    assert(holds_visit(new, path));
                    let j = choose|j: int|
                        0 <= j < new.len() && ((#[trigger] new[j]) matches GlobEntry::Visit {
                            path: held,
                            ..
                        } && held@ == path);
                    assert(self.stack@[count + j] == new[j]);
                }
            }
        }
        Ok(())
    }
}

/// A walk goes forty levels deep and no deeper: it fails where what it would look
/// at next lies there, and never otherwise. A directory that is closed or cannot
/// be reached is passed over, and so is an entry of it that cannot be reached.
pub proof fn law_walks_end_only_where_they_must(
    stack: Seq<EntryView>,
    denied: Seq<Seq<u8>>,
    failure: PathFailure,
    look: LookFailure,
    entries: Seq<DirectoryEntry>,
    at: int,
)
    ensures
        stack.len() > 0 && stack.last().depth >= 40 ==> next_entry(stack, denied) is Err,
        stack.len() > 0 && stack.last().depth < 40 && !paths::under_any(stack.last().path, denied)
            ==> next_entry(stack, denied) == Ok::<_, Error>(
            (Some(stack.last()), stack.drop_last()),
        ),
        stack.len() > 0 && stack.last().depth < 40 && paths::under_any(stack.last().path, denied)
            ==> next_entry(stack, denied) == next_entry(stack.drop_last(), denied),
        stack.len() == 0 ==> next_entry(stack, denied) == Ok::<_, Error>((None::<EntryView>, stack)),
        listing_hidden(failure) <==> failure.kind == PathFailureKind::PermissionDenied
            || failure.kind == PathFailureKind::NotConnected || failure.errno == Some(5i32),
        is_broken(Err(look)) <==> look.failure.kind != PathFailureKind::NotConnected
            && look.failure.errno != Some(5i32),
        0 <= at < entries.len() && is_broken(entries[at]) && (forall|i: int|
            0 <= i < at ==> !is_broken(#[trigger] entries[i])) ==> first_broken(entries, 0) == at,
        (forall|i: int| 0 <= i < entries.len() ==> !is_broken(#[trigger] entries[i]))
            ==> first_broken(entries, 0) == entries.len(),
        forall|i: int| 0 <= i < entries.len() && entries[i] is Ok ==> !is_broken(#[trigger] entries[i]),
{
    if 0 <= at < entries.len() && is_broken(entries[at]) && (forall|i: int|
        0 <= i < at ==> !is_broken(#[trigger] entries[i])) {
        lemma_first_broken(entries, 0, at as nat);
    }
    if forall|i: int| 0 <= i < entries.len() ==> !is_broken(#[trigger] entries[i]) {
        lemma_first_broken(entries, 0, entries.len());
    }
}

proof fn lemma_first_broken(entries: Seq<DirectoryEntry>, from: nat, at: nat)
    requires
        from <= at <= entries.len(),
        at < entries.len() ==> is_broken(entries[at as int]),
        forall|i: int| from <= i < at ==> !is_broken(#[trigger] entries[i]),
    ensures
        first_broken(entries, from) == at,
    decreases at - from,
{
    if from < at {
        lemma_first_broken(entries, from + 1, at);
    }
}

proof fn lemma_roots_are_clear(states: Seq<Walk>, events: Seq<WalkEvent>, at: int)
    requires
        driven(states, events),
        0 <= at <= events.len(),
        states[0].current is None,
        states[0].roots.len() == 0,
    ensures
        states[at].denied == states[0].denied,
        states[at].current matches Some(entry) ==> !paths::under_any(
            entry.path,
            states[0].denied,
        ),
        forall|i: int|
            0 <= i < states[at].roots.len() ==> !paths::under_any(
                #[trigger] states[at].roots[i],
                states[0].denied,
            ),
    decreases at,
{
    if at > 0 {
        lemma_roots_are_clear(states, events, at - 1);
        let before = states[at - 1];
        let after = states[at];
        assert(walked(before, events[at - 1], after));
        assert forall|i: int| 0 <= i < after.roots.len() implies !paths::under_any(
            #[trigger] after.roots[i],
            states[0].denied,
        ) by {
            if i < before.roots.len() {
                assert(after.roots[i] == before.roots[i]);
            } else {
                assert(after.roots[i] == before.current->0.path);
            }
        }
    }
}

/// A walk returns nothing that lies below a denied root, whatever it met.
pub proof fn law_walk_returns_nothing_denied(
    states: Seq<Walk>,
    events: Seq<WalkEvent>,
    at: int,
    which: int,
)
    requires
        driven(states, events),
        states[0].current is None,
        states[0].roots.len() == 0,
        0 <= at < states.last().roots.len(),
        0 <= which < states[0].denied.len(),
    ensures
        !paths::under(states.last().roots[at], states[0].denied[which]),
{
    lemma_roots_are_clear(states, events, events.len() as int);
    assert(!paths::under_any(states.last().roots[at], states[0].denied));
}

} // verus!
