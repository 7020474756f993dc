use landstrip::bytes::{append_bytes, bytes_equal, copy_bytes, find_byte, starts_with};
use landstrip::order::{list_relation, text_relation, Relation};
use landstrip::paths::{
    contains_path, file_name, insert_path, is_same_path, is_strictly_under, is_under,
    is_under_any, join, normalize_path_lexically, normalize_roots, parent, path_back, path_components, path_front,
    render_path,
};

fn roots(list: &[&str]) -> Vec<Vec<u8>> {
    list.iter().map(|text| text.as_bytes().to_vec()).collect()
}

#[test]
fn bytes_are_compared_and_searched() {
    assert!(bytes_equal(b"abc", b"abc"));
    assert!(!bytes_equal(b"abc", b"abd"));
    assert!(!bytes_equal(b"abc", b"ab"));
    assert!(starts_with(b"abc", b""));
    assert!(starts_with(b"abc", b"ab"));
    assert!(!starts_with(b"ab", b"abc"));
    assert_eq!(find_byte(b"a/b/c", b'/', 0), 1);
    assert_eq!(find_byte(b"a/b/c", b'/', 2), 3);
    assert_eq!(find_byte(b"abc", b'/', 0), 3);
    let mut text = copy_bytes(b"ab");
    append_bytes(&mut text, b"cd");
    assert_eq!(text, b"abcd");
}

#[test]
fn texts_and_lists_are_ordered() {
    assert_eq!(text_relation(b"ab", b"abc"), Relation::Before);
    assert_eq!(text_relation(b"b", b"abc"), Relation::After);
    assert_eq!(text_relation(b"abc", b"abc"), Relation::Same);
    assert_eq!(list_relation(&roots(&["a", "b"]), &roots(&["a", "c"])), Relation::Before);
    assert_eq!(list_relation(&roots(&["a"]), &roots(&["a", "c"])), Relation::Before);
    assert_eq!(list_relation(&roots(&["ab"]), &roots(&["a", "z"])), Relation::After);
    assert_eq!(list_relation(&roots(&["a"]), &roots(&["a"])), Relation::Same);
}

#[test]
fn components_drop_what_std_drops() {
    for text in ["/", "/a//b/", "a/./b", "./a", ".", "", "../x", "/a/../b/.", "//a", "a/.hidden"] {
        let expected: Vec<Vec<u8>> = std::path::Path::new(text)
            .components()
            .map(|part| part.as_os_str().to_str().unwrap().as_bytes().to_vec())
            .collect();
        assert_eq!(path_components(text.as_bytes()), expected, "{text}");
    }
}

#[test]
fn coverage_goes_by_whole_components() {
    assert!(is_under(b"/a/b", b"/a"));
    assert!(is_under(b"/a", b"/a/"));
    assert!(!is_under(b"/ab", b"/a"));
    assert!(!is_strictly_under(b"/a", b"/a"));
    assert!(is_strictly_under(b"/a/b", b"/a"));
    assert!(is_under(b"/anything", b"/"));
    assert!(!is_under(b"relative", b"/"));
    assert!(is_under_any(b"/x/y", &roots(&["/a", "/x"])));
    assert!(!is_under_any(b"/x/y", &roots(&["/a", "/x/z"])));
    assert!(!is_under_any(b"/x/y", &[]));
}

#[test]
fn same_paths_have_the_same_components() {
    assert!(is_same_path(b"/a//b/.", b"/a/b"));
    assert!(!is_same_path(b"a/b", b"/a/b"));
    assert!(contains_path(&roots(&["/q", "/a/b/"]), b"/a/b"));
    assert!(!contains_path(&roots(&["/q"]), b"/a/b"));
}

#[test]
fn joining_an_absolute_path_replaces_the_base() {
    assert_eq!(join(b"/a", b"b"), b"/a/b");
    assert_eq!(join(b"/a/", b"b"), b"/a/b");
    assert_eq!(join(b"/a", b"/b"), b"/b");
    assert_eq!(join(b"", b"b"), b"b");
    assert_eq!(join(b"/a", b""), b"/a/");
    for (base, path) in [("/a", "b"), ("/a/", "b"), ("/a", "/b"), ("", "b"), ("/a", ""), ("", "")] {
        let whole = std::path::Path::new(base).join(path);
        assert_eq!(join(base.as_bytes(), path.as_bytes()), whole.to_str().unwrap().as_bytes());
    }
}

#[test]
fn parents_and_names_are_those_of_std() {
    for text in ["/", "/a", "/a/b", "a", "a/b/", "/a/..", "..", "", "/a/.", "a//b"] {
        let path = std::path::Path::new(text);
        let up = path.parent().map(|up| up.to_str().unwrap().as_bytes().to_vec());
        let name = path.file_name().map(|name| name.to_str().unwrap().as_bytes().to_vec());
        assert_eq!(parent(text.as_bytes()), up, "{text}");
        assert_eq!(file_name(text.as_bytes()), name, "{text}");
    }
}

#[test]
fn rendering_gives_the_components_back() {
    for text in ["/", "/a/b", "a/b", "../a", "."] {
        let parts = path_components(text.as_bytes());
        assert_eq!(render_path(&parts), text.as_bytes());
        assert_eq!(path_components(&render_path(&parts)), parts);
    }
}

#[test]
fn normal_paths_hold_no_parent_steps() {
    assert_eq!(normalize_path_lexically(b"/a/../b/./c"), b"/b/c");
    assert_eq!(normalize_path_lexically(b"/../../a"), b"/a");
    assert_eq!(normalize_path_lexically(b"/a/b/../.."), b"/");
    assert_eq!(normalize_path_lexically(b"/a//b/"), b"/a/b");
    let once = normalize_path_lexically(b"/a/b/../c");
    assert_eq!(normalize_path_lexically(&once), once);
}

#[test]
fn root_lists_are_sorted_without_repeats() {
    let mut list = roots(&["/b", "/a/x", "/a", "/b/", "/a/x"]);
    normalize_roots(&mut list);
    assert_eq!(list, roots(&["/a", "/a/x", "/b"]));
    for path in ["/a/x/y", "/b", "/c"] {
        assert_eq!(
            is_under_any(path.as_bytes(), &list),
            is_under_any(path.as_bytes(), &roots(&["/b", "/a/x", "/a", "/b/", "/a/x"]))
        );
    }
    let mut growing = Vec::new();
    insert_path(&mut growing, b"/m".to_vec());
    insert_path(&mut growing, b"/c".to_vec());
    insert_path(&mut growing, b"/m".to_vec());
    assert!(contains_path(&growing, b"/c"));
    assert_eq!(growing.len(), 2);
}

#[test]
fn parents_are_written_as_in_the_path() {
    for text in [
        "/usr//lib", "/usr//lib/x", "//x", "//", "/./a", "/a/./b", "./a", ".//a/b", ".", "./",
        "a//b/", "a/.", "/a/b/.//", "..//x", "", "/a//../b", ".a/b", "a",
    ] {
        let up = std::path::Path::new(text).parent().map(|up| up.to_str().unwrap().as_bytes().to_vec());
        assert_eq!(parent(text.as_bytes()), up, "{text}");
    }
    assert_eq!(parent(b"/usr//lib/x"), Some(b"/usr//lib".to_vec()));
}

#[test]
fn the_rest_of_a_path_is_written_as_in_the_path() {
    for text in ["/proc/self//a//b/", "/proc//self/./x/.", "/proc/self", "/proc/self/"] {
        let rest = std::path::Path::new(text).strip_prefix("/proc/self").unwrap();
        assert_eq!(path_back(text.as_bytes(), 3), rest.to_str().unwrap().as_bytes(), "{text}");
    }
    assert_eq!(path_back(b"/proc/self//a//b/", 3), b"a//b");
    assert_eq!(path_front(b"/a//b/c", 3), b"/a//b");
}
