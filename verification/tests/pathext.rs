use rbxfs::pathext::{absoluteify, collapse, normalize, Component, FsPath};

#[test]
fn test_collapse() {
    fn identity(buf: FsPath) {
        assert_eq!(buf, collapse(&buf));
    }

    identity(FsPath::parse("C:\\foo\\bar"));
    identity(FsPath::parse("/a/b/c"));
    identity(FsPath::parse("a/b"));

    assert_eq!(collapse(&FsPath::parse("a/b/..")), FsPath::parse("a"));
    assert_eq!(collapse(&FsPath::parse("./a/b/c/..")), FsPath::parse("a/b"));
    assert_eq!(collapse(&FsPath::parse("../a")), FsPath::parse("../a"));
}

#[test]
fn it_keeps_stuff_the_same() {
    let source = "C:\\windows\\foo";
    let normalized = normalize(source);

    assert_eq!(normalized.as_str(), source);
}

#[test]
fn it_collapses_dot_dot() {
    let source = "/foo/bar/..";
    let normalized = normalize(source);

    assert_eq!(normalized.as_str(), "/foo");
}

#[test]
fn parse_reads_components() {
    let path = FsPath::parse("/tmp//proj/./a.lua/");
    assert_eq!(
        path.components(),
        &vec![
            Component::RootDir,
            Component::Normal("tmp".to_string()),
            Component::Normal("proj".to_string()),
            Component::CurDir,
            Component::Normal("a.lua".to_string()),
        ]
    );
    assert!(path.is_absolute());
    assert_eq!(path.len(), 5);
    assert_eq!(FsPath::parse("").len(), 0);
    assert_eq!(FsPath::parse("/").components(), &vec![Component::RootDir]);
    assert_eq!(
        FsPath::parse("../x").components(),
        &vec![Component::ParentDir, Component::Normal("x".to_string())]
    );
    assert!(!FsPath::parse("a/b").is_absolute());
}

#[test]
fn parse_keeps_names_that_only_look_like_dots() {
    assert_eq!(
        FsPath::parse("...").components(),
        &vec![Component::Normal("...".to_string())]
    );
    assert_eq!(
        FsPath::parse(".a").components(),
        &vec![Component::Normal(".a".to_string())]
    );
}

#[test]
fn to_string_writes_what_parse_reads() {
    assert_eq!(FsPath::parse("/a/b").to_string(), "/a/b");
    assert_eq!(FsPath::parse("a//b/").to_string(), "a/b");
    assert_eq!(FsPath::parse("/").to_string(), "/");
    assert_eq!(FsPath::parse("").to_string(), "");
    assert_eq!(FsPath::parse("./../x").to_string(), "./../x");
}

#[test]
fn collapse_is_idempotent() {
    for text in ["/a/../../b/./c", "../../a", "a/b/../..", "/..", "./.", "x/../../y/.."] {
        let once = collapse(&FsPath::parse(text));
        assert_eq!(collapse(&once), once);
        let written = normalize(text);
        assert_eq!(normalize(&written), written);
    }
}

#[test]
fn collapse_takes_away_what_is_on_the_left() {
    assert_eq!(collapse(&FsPath::parse("/a/b/../c")), FsPath::parse("/a/c"));
    assert_eq!(collapse(&FsPath::parse("a/./b")), FsPath::parse("a/b"));
    assert_eq!(collapse(&FsPath::parse("a/..")), FsPath::parse(""));
    assert_eq!(collapse(&FsPath::parse("..")), FsPath::parse(".."));
    assert_eq!(collapse(&FsPath::parse("../..")), FsPath::parse(""));
    assert_eq!(collapse(&FsPath::parse("/..")), FsPath::parse(""));
}

#[test]
fn absoluteify_keeps_absolute_paths() {
    let root = FsPath::parse("/home/me");
    assert_eq!(absoluteify(&root, &FsPath::parse("/tmp/x")), FsPath::parse("/tmp/x"));
    assert_eq!(absoluteify(&root, &FsPath::parse("src/x")), FsPath::parse("/home/me/src/x"));
    assert_eq!(absoluteify(&root, &FsPath::parse("")), FsPath::parse("/home/me"));
}

#[test]
fn join_starts_with_and_strip_prefix() {
    let base = FsPath::parse("/tmp/proj");
    let inner = base.join(&FsPath::parse("a/b.lua"));
    assert_eq!(inner, FsPath::parse("/tmp/proj/a/b.lua"));
    assert!(inner.starts_with(&base));
    assert!(!base.starts_with(&inner));
    assert!(!FsPath::parse("/tmp/project").starts_with(&base));
    assert_eq!(inner.strip_prefix(&base), Some(FsPath::parse("a/b.lua")));
    assert_eq!(base.strip_prefix(&inner), None);
    assert_eq!(base.strip_prefix(&base), Some(FsPath::new()));
    assert_eq!(base.clone(), base);
}
