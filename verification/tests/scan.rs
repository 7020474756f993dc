use landstrip::error::{Cause, Error, PathFailure, PathFailureKind};
use landstrip::paths::{is_under, is_under_any};
use landstrip::scan::{
    DirectoryEntry, FileKind, GlobScan, LookFailure, Scan, MAX_TRAVERSAL_DEPTH,
};

fn roots(list: &[&str]) -> Vec<Vec<u8>> {
    list.iter().map(|text| text.as_bytes().to_vec()).collect()
}

fn failure(kind: PathFailureKind, errno: Option<i32>) -> LookFailure {
    LookFailure {
        failure: PathFailure { kind, errno },
        source: Cause { errno, message: "look".to_string(), below: Vec::new() },
    }
}

const DIRECTORY: FileKind = FileKind { symlink: false, dir: true };
const FILE: FileKind = FileKind { symlink: false, dir: false };
const LINK: FileKind = FileKind { symlink: true, dir: false };

/// A directory tree: each path with its kind, and the names in each directory.
fn look_at(path: &[u8]) -> Result<FileKind, LookFailure> {
    match path {
        b"/" | b"/home" | b"/home/me" | b"/usr" | b"/locked" => Ok(DIRECTORY),
        b"/vmlinuz" => Ok(FILE),
        b"/bin" => Ok(LINK),
        b"/gone" => Err(failure(PathFailureKind::NotFound, Some(libc::ENOENT))),
        _ => Ok(FILE),
    }
}

fn list_of(path: &[u8]) -> Result<Vec<DirectoryEntry>, LookFailure> {
    let listed = |list: &[&str]| -> Vec<DirectoryEntry> {
        list.iter().map(|name| Ok(name.as_bytes().to_vec())).collect()
    };
    match path {
        b"/" => Ok(listed(&["home", "usr", "bin", "vmlinuz", "gone", "locked"])),
        b"/home" => Ok(listed(&["me", "you"])),
        b"/home/me" => Ok(listed(&[".ssh", "notes"])),
        b"/locked" => Err(failure(PathFailureKind::PermissionDenied, Some(libc::EACCES))),
        _ => Ok(Vec::new()),
    }
}

fn walk(root: &str, denied: &[&str]) -> Result<Scan, Error> {
    let mut scan = Scan::scan_allowed_root(root.as_bytes(), &roots(denied));
    while scan.next()? {
        let path = scan.current.as_ref().unwrap().path.clone();
        if scan.look(look_at(&path))? {
            scan.list(list_of(&path))?;
        }
    }
    Ok(scan)
}

#[test]
fn a_walk_keeps_what_lies_beside_the_denied() {
    let scan = walk("/", &["/home/me/.ssh", "/locked/x"]).unwrap();
    assert_eq!(
        scan.roots,
        roots(&["/locked", "/gone", "/vmlinuz", "/usr", "/home/you", "/home/me/notes"])
    );
    assert_eq!(scan.symlinks, roots(&["/bin"]));
    for root in &scan.roots {
        assert!(is_under(root, b"/"));
        assert!(!is_under_any(root, &roots(&["/home/me/.ssh"])));
    }
}

#[test]
fn a_walk_without_denials_keeps_the_root() {
    let scan = walk("/usr", &["/etc"]).unwrap();
    assert_eq!(scan.roots, roots(&["/usr"]));
    let denied = walk("/usr/x", &["/usr"]).unwrap();
    assert!(denied.roots.is_empty());
}

#[test]
fn an_explicit_link_is_kept() {
    let scan = walk("/bin", &["/etc"]).unwrap();
    assert_eq!(scan.roots, roots(&["/bin"]));
    assert!(scan.symlinks.is_empty());
}

#[test]
fn a_walk_ends_on_a_failure_that_is_not_hidden() {
    let mut scan = Scan::scan_allowed_root(b"/a", &roots(&["/a/b"]));
    assert!(scan.next().unwrap());
    match scan.look(Err(failure(PathFailureKind::Other, Some(libc::ELOOP)))) {
        Err(Error::PolicyIoFailed { source }) => assert_eq!(source.errno, Some(libc::ELOOP)),
        _ => panic!("not a failed look"),
    }

    let mut scan = Scan::scan_allowed_root(b"/a", &roots(&["/a/b"]));
    assert!(scan.next().unwrap());
    assert!(scan.look(Ok(DIRECTORY)).unwrap());
    match scan.list(Err(failure(PathFailureKind::NotFound, Some(libc::ENOENT)))) {
        Err(Error::PolicyIoFailed { source }) => assert_eq!(source.errno, Some(libc::ENOENT)),
        _ => panic!("not a failed list"),
    }

    let mut scan = Scan::scan_allowed_root(b"/a", &roots(&["/a/b"]));
    assert!(scan.next().unwrap());
    assert!(scan.look(Ok(DIRECTORY)).unwrap());
    let entries: Vec<DirectoryEntry> = vec![
        Ok(b"c".to_vec()),
        Err(failure(PathFailureKind::Other, Some(libc::EIO))),
        Ok(b"d".to_vec()),
    ];
    assert!(scan.list(Ok(entries)).is_ok());
    assert_eq!(scan.stack.len(), 2);
    assert_eq!(scan.stack[1].path, b"/a/d");
    assert_eq!(scan.stack[1].depth, 1);

    let mut scan = Scan::scan_allowed_root(b"/a", &roots(&["/a/b"]));
    assert!(scan.next().unwrap());
    assert!(scan.look(Ok(DIRECTORY)).unwrap());
    let entries: Vec<DirectoryEntry> =
        vec![Err(failure(PathFailureKind::PermissionDenied, Some(libc::EACCES)))];
    assert!(matches!(scan.list(Ok(entries)), Err(Error::PolicyIoFailed { .. })));
}

#[test]
fn a_walk_goes_only_so_deep() {
    let mut denied = b"/a".to_vec();
    for _ in 0..60 {
        denied.extend_from_slice(b"/a");
    }
    let mut scan = Scan::scan_allowed_root(b"/a", &vec![denied]);
    let mut looked: u32 = 0;
    let ended = loop {
        match scan.next() {
            Ok(true) => {
                looked += 1;
                assert!(scan.look(Ok(DIRECTORY)).unwrap());
                assert!(scan.list(Ok(vec![Ok(b"a".to_vec())])).is_ok());
            }
            Ok(false) => break None,
            Err(error) => break Some(error),
        }
    };
    assert!(matches!(ended, Some(Error::PolicyTraversalDepth)));
    assert_eq!(looked, MAX_TRAVERSAL_DEPTH);
}

fn expand(pattern: &str) -> Result<Vec<Vec<u8>>, Error> {
    let mut scan = GlobScan::expand_glob_path(pattern);
    while scan.next()? {
        let path = scan.current.as_ref().unwrap().path.clone();
        if scan.look(look_at(&path))? {
            scan.collect_glob_matches(list_of(&path))?;
        }
    }
    Ok(scan.matches)
}

#[test]
fn a_pattern_is_expanded_in_directory_order() {
    assert_eq!(expand("/home/*").unwrap(), roots(&["/home/me", "/home/you"]));
    assert_eq!(expand("/home/**/notes").unwrap(), roots(&["/home/me/notes"]));
    assert_eq!(expand("/*z").unwrap(), roots(&["/vmlinuz"]));
    assert!(expand("/locked/*").unwrap().is_empty());
    assert_eq!(expand("/home/me/.[a-s]*").unwrap(), roots(&["/home/me/.ssh"]));
}

#[test]
fn a_pattern_with_a_hidden_base_matches_nothing() {
    assert!(GlobScan::starts(Ok(())).unwrap());
    assert!(!GlobScan::starts(Err(failure(PathFailureKind::NotFound, Some(2)))).unwrap());
    assert!(matches!(
        GlobScan::starts(Err(failure(PathFailureKind::Other, Some(libc::ELOOP)))),
        Err(Error::PolicyIoFailed { .. })
    ));
}

#[test]
fn a_pattern_goes_only_so_deep() {
    let mut scan = GlobScan::expand_glob_path("/a/**");
    let mut looked: u32 = 0;
    let ended = loop {
        match scan.next() {
            Ok(true) => {
                looked += 1;
                assert!(scan.look(Ok(DIRECTORY)).unwrap());
                assert!(scan.collect_glob_matches(Ok(vec![Ok(b"a".to_vec())])).is_ok());
            }
            Ok(false) => break None,
            Err(error) => break Some(error),
        }
    };
    assert!(matches!(ended, Some(Error::PolicyTraversalDepth)));
    assert_eq!(looked, MAX_TRAVERSAL_DEPTH);
}

#[test]
fn entries_before_a_failed_one_are_still_matched() {
    let mut scan = GlobScan::expand_glob_path("/a/*");
    assert!(scan.next().unwrap());
    assert!(scan.look(Ok(DIRECTORY)).unwrap());
    let entries: Vec<DirectoryEntry> = vec![
        Ok(b"x".to_vec()),
        Err(failure(PathFailureKind::Other, Some(libc::ELOOP))),
        Ok(b"y".to_vec()),
    ];
    assert!(scan.collect_glob_matches(Ok(entries)).is_ok());
    assert!(scan.next().unwrap());
    assert!(!scan.look(Ok(FILE)).unwrap());
    assert_eq!(scan.matches, roots(&["/a/x"]));
    assert!(matches!(scan.next(), Err(Error::PolicyIoFailed { .. })));
}
