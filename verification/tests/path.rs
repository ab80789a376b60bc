use tmc_langs_util::path::{bytes_equal, FilePath};

fn text(path: &FilePath) -> String {
    String::from_utf8(path.to_bytes()).unwrap()
}

fn segments(path: &FilePath) -> Vec<String> {
    (0..path.len())
        .map(|i| String::from_utf8(path.segment(i).to_vec()).unwrap())
        .collect()
}

#[test]
fn parse_splits_into_whole_components() {
    assert_eq!(segments(&FilePath::parse("src/dir/file")), vec!["src", "dir", "file"]);
    assert_eq!(segments(&FilePath::parse("file")), vec!["file"]);
    assert_eq!(segments(&FilePath::parse("some dir/f")), vec!["some dir", "f"]);
    assert!(FilePath::parse("").is_empty());
    assert_eq!(FilePath::parse("").len(), 0);
    assert_eq!(FilePath::new().len(), 0);
}

#[test]
fn parse_keeps_root_and_leading_dot_only() {
    assert_eq!(segments(&FilePath::parse("/")), vec!["/"]);
    assert_eq!(segments(&FilePath::parse("/a/b")), vec!["/", "a", "b"]);
    assert_eq!(segments(&FilePath::parse("//a")), vec!["/", "a"]);
    assert_eq!(segments(&FilePath::parse(".")), vec!["."]);
    assert_eq!(segments(&FilePath::parse("./a")), vec![".", "a"]);
    assert_eq!(segments(&FilePath::parse("a/./b")), vec!["a", "b"]);
    assert_eq!(segments(&FilePath::parse("a/.")), vec!["a"]);
    assert_eq!(segments(&FilePath::parse("/./a")), vec!["/", "a"]);
    assert_eq!(segments(&FilePath::parse("a//b/")), vec!["a", "b"]);
    assert_eq!(segments(&FilePath::parse("a/../b")), vec!["a", "..", "b"]);
    assert_eq!(segments(&FilePath::parse("..")), vec![".."]);
    assert_eq!(segments(&FilePath::parse(".hidden/..x")), vec![".hidden", "..x"]);
}

#[test]
fn from_bytes_reads_any_bytes() {
    let path = FilePath::from_bytes(&[0x61, 0xff, 0x2f, 0x62]);
    assert_eq!(path.len(), 2);
    assert_eq!(path.segment(0), &[0x61, 0xff]);
    assert_eq!(path.segment(1), &[0x62]);
    assert!(path.same_as(&FilePath::from_bytes(&[0x61, 0xff, 0x2f, 0x2f, 0x62, 0x2f])));
}

#[test]
fn to_bytes_writes_the_components_back() {
    assert_eq!(text(&FilePath::parse("src/dir/file")), "src/dir/file");
    assert_eq!(text(&FilePath::parse("/")), "/");
    assert_eq!(text(&FilePath::parse("/a/b")), "/a/b");
    assert_eq!(text(&FilePath::parse("//a//b//")), "/a/b");
    assert_eq!(text(&FilePath::parse("./a/./b")), "./a/b");
    assert_eq!(text(&FilePath::parse("")), "");
    assert_eq!(text(&FilePath::parse("a/../b")), "a/../b");
}

#[test]
fn reading_what_was_written_gives_the_same_path() {
    for written in ["", "/", ".", "..", "a", "/a", "./a", "a/b/c", "/a/../b", "src/some dir/f"] {
        let path = FilePath::parse(written);
        let again = FilePath::from_bytes(&path.to_bytes());
        assert!(again.same_as(&path), "{written}");
        assert_eq!(text(&again), written);
    }
}

#[test]
fn same_as_compares_components() {
    assert!(FilePath::parse("a/b").same_as(&FilePath::parse("a//b/")));
    assert!(!FilePath::parse("a/b").same_as(&FilePath::parse("a/b/c")));
    assert!(!FilePath::parse("a/b").same_as(&FilePath::parse("a/c")));
    assert!(!FilePath::parse("a/b").same_as(&FilePath::parse("/a/b")));
    assert!(FilePath::parse("").same_as(&FilePath::new()));
    let path = FilePath::parse("x/y");
    assert!(path.clone().same_as(&path));
}

#[test]
fn starts_with_matches_whole_components_only() {
    let path = FilePath::parse("srca/file");
    assert!(!path.starts_with(&FilePath::parse("src")));
    assert!(path.starts_with(&FilePath::parse("srca")));
    assert!(path.starts_with(&FilePath::parse("srca/file")));
    assert!(path.starts_with(&FilePath::parse("")));
    assert!(!path.starts_with(&FilePath::parse("srca/file/more")));
    assert!(!path.starts_with(&FilePath::parse("file")));
    assert!(FilePath::parse("/a/b").starts_with(&FilePath::parse("/a")));
    assert!(!FilePath::parse("/a/b").starts_with(&FilePath::parse("a")));
}

#[test]
fn strip_prefix_leaves_the_rest() {
    let path = FilePath::parse("/tmp/dir/another/file");
    let rest = path.strip_prefix(&FilePath::parse("/tmp")).unwrap();
    assert_eq!(text(&rest), "dir/another/file");
    let all = path.strip_prefix(&FilePath::parse("")).unwrap();
    assert_eq!(text(&all), "/tmp/dir/another/file");
    let none = path.strip_prefix(&path).unwrap();
    assert!(none.is_empty());
    assert!(path.strip_prefix(&FilePath::parse("/tm")).is_none());
    assert!(path.strip_prefix(&FilePath::parse("tmp")).is_none());
}

#[test]
fn join_appends_or_replaces() {
    let base = FilePath::parse("/target/some");
    assert_eq!(text(&base.join(&FilePath::parse("dir/file"))), "/target/some/dir/file");
    assert_eq!(text(&base.join(&FilePath::parse("/etc/x"))), "/etc/x");
    assert_eq!(text(&base.join(&FilePath::parse("./x"))), "/target/some/x");
    assert_eq!(text(&base.join(&FilePath::parse(""))), "/target/some");
    assert_eq!(text(&base.join(&FilePath::parse("../x"))), "/target/some/../x");
    assert_eq!(text(&FilePath::parse("").join(&FilePath::parse("./x"))), "./x");
    assert_eq!(text(&FilePath::parse("/").join(&FilePath::parse("x"))), "/x");
    assert_eq!(text(&FilePath::parse(".").join(&FilePath::parse("x"))), "./x");
}

#[test]
fn parent_drops_the_last_component() {
    assert_eq!(text(&FilePath::parse("/foo/bar").parent().unwrap()), "/foo");
    assert_eq!(text(&FilePath::parse("/foo").parent().unwrap()), "/");
    assert_eq!(text(&FilePath::parse("foo").parent().unwrap()), "");
    assert_eq!(text(&FilePath::parse("foo/bar/").parent().unwrap()), "foo");
    assert_eq!(text(&FilePath::parse("a/..").parent().unwrap()), "a");
    assert_eq!(text(&FilePath::parse(".").parent().unwrap()), "");
    assert!(FilePath::parse("/").parent().is_none());
    assert!(FilePath::parse("").parent().is_none());
}

#[test]
fn file_name_is_the_last_name() {
    assert_eq!(FilePath::parse("dir/file").file_name().unwrap(), b"file");
    assert_eq!(FilePath::parse("/usr/bin/").file_name().unwrap(), b"bin");
    assert_eq!(FilePath::parse("foo.txt/.").file_name().unwrap(), b"foo.txt");
    assert_eq!(FilePath::parse("foo.txt/.//").file_name().unwrap(), b"foo.txt");
    assert!(FilePath::parse("foo.txt/..").file_name().is_none());
    assert!(FilePath::parse("/").file_name().is_none());
    assert!(FilePath::parse("").file_name().is_none());
    assert!(FilePath::parse(".").file_name().is_none());
    assert!(FilePath::parse("..").file_name().is_none());
}

#[test]
fn is_absolute_looks_at_the_root() {
    assert!(FilePath::parse("/").is_absolute());
    assert!(FilePath::parse("/a").is_absolute());
    assert!(!FilePath::parse("a").is_absolute());
    assert!(!FilePath::parse("./a").is_absolute());
    assert!(!FilePath::parse("").is_absolute());
}

#[test]
fn bytes_equal_compares_every_byte() {
    assert!(bytes_equal(b"src", b"src"));
    assert!(!bytes_equal(b"src", b"srca"));
    assert!(!bytes_equal(b"src", b"srd"));
    assert!(bytes_equal(b"", b""));
}
