use rbxfs::config::{Config, MountPoint};
use rbxfs::pathext::FsPath;
use rbxfs::route::{get_net_path, path_to_rbx_path, route_from, RbxPath};
use rbxfs::snapshot::{is_readable, omitted_paths, snapshot, DiskNode, VfsItem};
use rbxfs::vfs::{DiskOutcome, Vfs, VfsChange, VfsError};
use rbxfs::vfs_watch::FsEvent;

fn segments(parts: &[&str]) -> Vec<String> {
    parts.iter().map(|part| part.to_string()).collect()
}

fn game() -> Vfs {
    let mut vfs = Vfs::new();
    assert!(vfs.add_partition("game".to_string(), &FsPath::parse("/tmp/proj")));
    vfs
}

fn file(text: &str) -> DiskNode {
    DiskNode::File { bytes: text.as_bytes().to_vec() }
}

#[test]
fn read_gives_the_contents_of_a_file() {
    let vfs = game();
    let route = segments(&["game", "a.lua"]);
    assert_eq!(vfs.resolve(&route), Ok(FsPath::parse("/tmp/proj/a.lua")));
    assert_eq!(
        vfs.read(&route, &file("return 1")),
        Ok(VfsItem::File { contents: "return 1".to_string() })
    );
}

#[test]
fn read_of_an_unknown_partition_fails() {
    let vfs = game();
    let route = segments(&["missing", "x"]);
    assert_eq!(vfs.resolve(&route), Err(VfsError::UnknownPartition));
    assert_eq!(vfs.read(&route, &file("x")), Err(VfsError::UnknownPartition));
    assert_eq!(vfs.read(&segments(&[]), &file("x")), Err(VfsError::UnknownPartition));
}

#[test]
fn write_and_delete_of_an_unknown_partition_fail() {
    let mut vfs = game();
    let route = segments(&["missing", "x"]);
    let item = VfsItem::File { contents: "X".to_string() };
    assert_eq!(vfs.plan_write(&route, &item), Err(VfsError::UnknownPartition));
    assert_eq!(vfs.write(&route, &item, DiskOutcome::Done), Err(VfsError::UnknownPartition));
    assert_eq!(vfs.delete(&route, DiskOutcome::Done), Err(VfsError::UnknownPartition));
    assert!(vfs.get_changes_since(0).is_empty());
}

#[test]
fn a_created_file_is_recorded_under_its_route() {
    let mut vfs = game();
    while vfs.current_time() == 0 {}
    vfs.handle_fs_event(&FsEvent::Created(FsPath::parse("/tmp/proj/b.lua")));
    let changes = vfs.get_changes_since(0);
    assert_eq!(changes.len(), 1);
    assert_eq!(changes[0].route, segments(&["game", "b.lua"]));
}

#[test]
fn add_change_stamps_with_the_clock() {
    let mut vfs = game();
    vfs.record_change(0, segments(&["game", "first"]));
    while vfs.current_time() == 0 {}
    let before = vfs.current_time();
    vfs.add_change(segments(&["game", "second"]));
    let after = vfs.current_time();
    let changes = vfs.get_changes_since(0);
    assert_eq!(changes.len(), 1);
    assert_eq!(changes[0].route, segments(&["game", "second"]));
    assert!(before <= changes[0].time && changes[0].time <= after);
}

#[test]
fn a_write_is_read_back_and_recorded() {
    let mut vfs = game();
    vfs.record_change(5, segments(&["game", "old.lua"]));
    let t0 = 5;
    let route = segments(&["game", "a.lua"]);
    let item = VfsItem::File { contents: "return 2".to_string() };
    assert_eq!(vfs.plan_write(&route, &item), Ok(FsPath::parse("/tmp/proj/a.lua")));
    while vfs.current_time() <= t0 {}
    assert_eq!(vfs.write(&route, &item, DiskOutcome::Done), Ok(()));
    assert_eq!(
        vfs.read(&route, &file("return 2")),
        Ok(VfsItem::File { contents: "return 2".to_string() })
    );
    let changes = vfs.get_changes_since(t0);
    assert_eq!(changes.len(), 1);
    assert_eq!(changes[0].route, route);
    assert!(changes[0].time > t0);
}

#[test]
fn a_deleted_file_is_not_found() {
    let mut vfs = game();
    let route = segments(&["game", "a.lua"]);
    assert_eq!(vfs.delete(&route, DiskOutcome::Done), Ok(()));
    assert_eq!(vfs.read(&route, &DiskNode::Missing), Err(VfsError::NotFound));
    assert_eq!(vfs.delete(&route, DiskOutcome::Missing), Err(VfsError::NotFound));
    assert_eq!(vfs.delete(&route, DiskOutcome::Failed), Err(VfsError::DeleteFailure));
}

#[test]
fn a_route_that_leaves_its_partition_is_not_contained() {
    let vfs = game();
    let route = segments(&["game", "..", " etc", "passwd"]);
    assert_eq!(vfs.resolve(&route), Err(VfsError::NotContained));
    assert_eq!(vfs.read(&route, &file("root:x:0:0")), Err(VfsError::NotContained));
    assert_eq!(vfs.read(&route, &DiskNode::Missing), Err(VfsError::NotContained));
    assert_eq!(
        vfs.resolve(&segments(&["game", "/etc/passwd"])),
        Err(VfsError::NotContained)
    );
    assert_eq!(
        vfs.resolve(&segments(&["game", "a/../../x"])),
        Err(VfsError::NotContained)
    );
    assert_eq!(
        vfs.resolve(&segments(&["game", "..", "project", "x"])),
        Err(VfsError::NotContained)
    );
}

#[test]
fn a_route_may_step_back_inside_its_partition() {
    let vfs = game();
    assert_eq!(
        vfs.resolve(&segments(&["game", "a", "..", "b", ".", "c.lua"])),
        Ok(FsPath::parse("/tmp/proj/b/c.lua"))
    );
    assert_eq!(vfs.resolve(&segments(&["game"])), Ok(FsPath::parse("/tmp/proj")));
    assert_eq!(vfs.resolve(&segments(&["game", "a/b", "", "c"])), Ok(FsPath::parse("/tmp/proj/a/b/c")));
    assert_eq!(
        vfs.resolve(&segments(&["game", "..", "proj", "x"])),
        Ok(FsPath::parse("/tmp/proj/x"))
    );
}

#[test]
fn changes_since_gives_the_newer_end_of_the_log() {
    let mut vfs = game();
    for (time, name) in [(1, "a"), (3, "b"), (3, "c"), (7, "d")] {
        assert!(vfs.record_change(time, segments(&["game", name])));
    }
    let times = |changes: &[VfsChange]| changes.iter().map(|change| change.time).collect::<Vec<u64>>();
    assert_eq!(times(vfs.get_changes_since(0)), vec![1, 3, 3, 7]);
    assert_eq!(times(vfs.get_changes_since(1)), vec![3, 3, 7]);
    assert_eq!(times(vfs.get_changes_since(2)), vec![3, 3, 7]);
    assert_eq!(times(vfs.get_changes_since(3)), vec![7]);
    assert_eq!(times(vfs.get_changes_since(7)), Vec::<u64>::new());
    assert_eq!(times(vfs.get_changes_since(u64::MAX)), Vec::<u64>::new());
    let newer = vfs.get_changes_since(2);
    assert_eq!(newer[0].route, segments(&["game", "b"]));
    assert_eq!(newer[1].route, segments(&["game", "c"]));
}

#[test]
fn a_record_is_never_older_than_the_one_before() {
    let mut vfs = game();
    assert!(vfs.record_change(10, segments(&["game", "a"])));
    assert!(vfs.record_change(4, segments(&["game", "b"])));
    let changes = vfs.get_changes_since(0);
    assert_eq!(changes.len(), 2);
    assert_eq!(changes[1].time, 10);
    assert_eq!(changes[1].route, segments(&["game", "b"]));
}

#[test]
fn a_change_in_no_partition_is_not_recorded() {
    let mut vfs = game();
    assert!(!vfs.record_change(1, segments(&["other", "a"])));
    assert!(!vfs.record_change(1, segments(&[])));
    vfs.add_change(segments(&["other", "a"]));
    vfs.apply_fs_event(2, &FsEvent::Modified(FsPath::parse("/var/log/x")));
    vfs.apply_fs_event(2, &FsEvent::Removed(FsPath::parse("tmp/proj/x")));
    assert!(vfs.get_changes_since(0).is_empty());
    assert_eq!(vfs.locate(&FsPath::parse("/var/log/x")), None);
}

#[test]
fn a_renaming_is_recorded_twice_with_one_time() {
    let mut vfs = game();
    vfs.apply_fs_event(
        9,
        &FsEvent::Renamed(FsPath::parse("/tmp/proj/a.lua"), FsPath::parse("/tmp/proj/sub/b.lua")),
    );
    let changes = vfs.get_changes_since(0);
    assert_eq!(changes.len(), 2);
    assert_eq!(changes[0], VfsChange { time: 9, route: segments(&["game", "a.lua"]) });
    assert_eq!(changes[1], VfsChange { time: 9, route: segments(&["game", "sub", "b.lua"]) });
}

#[test]
fn a_renaming_out_of_the_partitions_is_recorded_once() {
    let mut vfs = game();
    vfs.apply_fs_event(
        3,
        &FsEvent::Renamed(FsPath::parse("/tmp/proj/a.lua"), FsPath::parse("/tmp/elsewhere/a.lua")),
    );
    let changes = vfs.get_changes_since(0);
    assert_eq!(changes.len(), 1);
    assert_eq!(changes[0].route, segments(&["game", "a.lua"]));
}

#[test]
fn locate_takes_the_first_partition_that_holds_the_path() {
    let mut vfs = game();
    assert!(vfs.add_partition("inner".to_string(), &FsPath::parse("/tmp/proj/inner")));
    assert!(vfs.add_partition("lib".to_string(), &FsPath::parse("/srv/lib/../lib")));
    assert_eq!(
        vfs.locate(&FsPath::parse("/tmp/proj/inner/x.lua")),
        Some(RbxPath(segments(&["game", "inner", "x.lua"])))
    );
    assert_eq!(
        vfs.locate(&FsPath::parse("/srv/lib/a/../b.lua")),
        Some(RbxPath(segments(&["lib", "b.lua"])))
    );
    assert_eq!(vfs.locate(&FsPath::parse("/tmp/proj")), Some(RbxPath(segments(&["game"]))));
}

#[test]
fn add_partition_wants_an_absolute_root() {
    let mut vfs = Vfs::new();
    assert!(!vfs.add_partition("rel".to_string(), &FsPath::parse("proj")));
    assert!(!vfs.add_partition("up".to_string(), &FsPath::parse("/..")));
    assert!(vfs.partitions().is_empty());
    assert!(vfs.add_partition("game".to_string(), &FsPath::parse("/tmp/./proj/x/..")));
    assert_eq!(vfs.partitions()[0].root, FsPath::parse("/tmp/proj"));
    assert!(vfs.add_partition("game".to_string(), &FsPath::parse("/srv")));
    assert_eq!(vfs.partitions().len(), 1);
    assert_eq!(vfs.partitions()[0].root, FsPath::parse("/srv"));
    assert_eq!(vfs.resolve(&segments(&["game", "a"])), Ok(FsPath::parse("/srv/a")));
}

#[test]
fn only_a_file_can_be_written() {
    let mut vfs = game();
    let route = segments(&["game", "dir"]);
    let item = VfsItem::Dir { children: Vec::new() };
    assert_eq!(vfs.plan_write(&route, &item), Err(VfsError::WriteFailure));
    assert_eq!(vfs.write(&route, &item, DiskOutcome::Done), Err(VfsError::WriteFailure));
    let item = VfsItem::File { contents: String::new() };
    assert_eq!(vfs.write(&route, &item, DiskOutcome::Failed), Err(VfsError::WriteFailure));
    assert_eq!(vfs.write(&route, &item, DiskOutcome::Missing), Err(VfsError::WriteFailure));
    assert!(vfs.get_changes_since(0).is_empty());
}

#[test]
fn a_directory_is_read_without_what_cannot_be_read() {
    let disk = DiskNode::Dir {
        entries: vec![
            ("a.lua".to_string(), file("return 1")),
            ("broken.bin".to_string(), DiskNode::File { bytes: vec![0xff, 0xfe] }),
            ("gone".to_string(), DiskNode::Missing),
            ("socket".to_string(), DiskNode::Unreadable),
            (
                "sub".to_string(),
                DiskNode::Dir { entries: vec![("b.lua".to_string(), file("return 2"))] },
            ),
        ],
    };
    let expected = VfsItem::Dir {
        children: vec![
            ("a.lua".to_string(), VfsItem::File { contents: "return 1".to_string() }),
            (
                "sub".to_string(),
                VfsItem::Dir {
                    children: vec![(
                        "b.lua".to_string(),
                        VfsItem::File { contents: "return 2".to_string() },
                    )],
                },
            ),
        ],
    };
    assert_eq!(snapshot(&disk), Ok(expected));
    let vfs = game();
    assert_eq!(vfs.read(&segments(&["game"]), &disk), snapshot(&disk));
    assert_eq!(vfs.read(&segments(&["game"]), &disk), vfs.read(&segments(&["game"]), &disk));
}

#[test]
fn what_cannot_be_read_fails_at_the_top() {
    assert_eq!(snapshot(&DiskNode::Missing), Err(VfsError::NotFound));
    assert_eq!(snapshot(&DiskNode::Unreadable), Err(VfsError::ReadFailure));
    assert_eq!(snapshot(&DiskNode::File { bytes: vec![0xc3, 0x28] }), Err(VfsError::ReadFailure));
    assert_eq!(
        snapshot(&DiskNode::File { bytes: "h\u{e9}llo".as_bytes().to_vec() }),
        Ok(VfsItem::File { contents: "h\u{e9}llo".to_string() })
    );
    assert_eq!(snapshot(&DiskNode::Dir { entries: Vec::new() }), Ok(VfsItem::Dir { children: Vec::new() }));
}

#[test]
fn path_to_rbx_path_leads_from_the_base() {
    let base = FsPath::parse("/a/b/c");
    assert_eq!(
        path_to_rbx_path(&base, &FsPath::parse("/a/b/c/def/ya")),
        Ok(RbxPath(segments(&["def", "ya"])))
    );
    assert_eq!(
        path_to_rbx_path(&base, &FsPath::parse("/a/b/c/x/../y")),
        Ok(RbxPath(segments(&["y"])))
    );
    assert_eq!(path_to_rbx_path(&base, &FsPath::parse("/a/b/c")), Ok(RbxPath(Vec::new())));
    assert_eq!(path_to_rbx_path(&base, &FsPath::parse("/a/b")), Err(VfsError::NotContained));
    assert_eq!(path_to_rbx_path(&base, &FsPath::parse("def/ya")), Err(VfsError::NotContained));
    assert_eq!(
        path_to_rbx_path(&base, &FsPath::parse("/a/b/c/../d")),
        Err(VfsError::NotContained)
    );
}

#[test]
fn get_net_path_names_what_is_behind_the_root() {
    let root = FsPath::parse("/tmp/proj");
    assert_eq!(
        get_net_path(&root, &FsPath::parse("/tmp/proj/src/a.lua")),
        segments(&["src", "a.lua"])
    );
    assert_eq!(get_net_path(&root, &root), Vec::<String>::new());
}

#[test]
fn from_config_mounts_each_mount_point() {
    let config = Config {
        port: 8000,
        verbose: false,
        root_path: FsPath::parse("/home/me/project"),
        mount_points: vec![
            ("src".to_string(), MountPoint { path: FsPath::parse("src"), target: segments(&["Game"]) }),
            ("lib".to_string(), MountPoint { path: FsPath::parse("/opt/lib"), target: Vec::new() }),
            ("up".to_string(), MountPoint { path: FsPath::parse("../shared"), target: Vec::new() }),
        ],
    };
    let vfs = Vfs::from_config(&config);
    assert_eq!(vfs.partitions().len(), 3);
    assert_eq!(vfs.resolve(&segments(&["src", "a.lua"])), Ok(FsPath::parse("/home/me/project/src/a.lua")));
    assert_eq!(vfs.resolve(&segments(&["lib", "x"])), Ok(FsPath::parse("/opt/lib/x")));
    assert_eq!(vfs.resolve(&segments(&["up"])), Ok(FsPath::parse("/home/me/shared")));
    assert!(vfs.get_changes_since(0).is_empty());
}

#[test]
fn a_snapshot_is_navigated_by_names() {
    let item = VfsItem::Dir {
        children: vec![
            ("a.lua".to_string(), VfsItem::File { contents: "return 1".to_string() }),
            (
                "sub".to_string(),
                VfsItem::Dir {
                    children: vec![(
                        "b.lua".to_string(),
                        VfsItem::File { contents: "return 2".to_string() },
                    )],
                },
            ),
        ],
    };
    assert_eq!(item.navigate(&segments(&[])), Some(&item));
    assert_eq!(
        item.navigate(&segments(&["sub", "b.lua"])),
        Some(&VfsItem::File { contents: "return 2".to_string() })
    );
    assert_eq!(item.navigate(&segments(&["b.lua"])), None);
    assert_eq!(item.navigate(&segments(&["a.lua", "x"])), None);
}

#[test]
fn of_two_entries_of_one_name_the_later_stays() {
    let disk = DiskNode::Dir {
        entries: vec![
            ("a.lua".to_string(), file("return 1")),
            ("b.lua".to_string(), file("return 2")),
            ("a.lua".to_string(), file("return 3")),
            ("b.lua".to_string(), DiskNode::Unreadable),
        ],
    };
    assert_eq!(
        snapshot(&disk),
        Ok(VfsItem::Dir {
            children: vec![
                ("a.lua".to_string(), VfsItem::File { contents: "return 3".to_string() }),
                ("b.lua".to_string(), VfsItem::File { contents: "return 2".to_string() }),
            ],
        })
    );
}

#[test]
fn what_a_snapshot_leaves_out_is_told() {
    let disk = DiskNode::Dir {
        entries: vec![
            ("a.lua".to_string(), file("return 1")),
            ("broken.bin".to_string(), DiskNode::File { bytes: vec![0xff, 0xfe] }),
            (
                "sub".to_string(),
                DiskNode::Dir {
                    entries: vec![
                        ("gone".to_string(), DiskNode::Missing),
                        ("b.lua".to_string(), file("return 2")),
                        (
                            "deep".to_string(),
                            DiskNode::Dir { entries: vec![("pipe".to_string(), DiskNode::Unreadable)] },
                        ),
                    ],
                },
            ),
            ("socket".to_string(), DiskNode::Unreadable),
        ],
    };
    assert_eq!(
        omitted_paths(&disk),
        vec![
            segments(&["broken.bin"]),
            segments(&["sub", "gone"]),
            segments(&["sub", "deep", "pipe"]),
            segments(&["socket"]),
        ]
    );
    assert_eq!(omitted_paths(&file("x")), Vec::<Vec<String>>::new());
    assert_eq!(omitted_paths(&DiskNode::Missing), Vec::<Vec<String>>::new());
    assert!(is_readable(&disk));
    assert!(is_readable(&file("x")));
    assert!(!is_readable(&DiskNode::File { bytes: vec![0x80] }));
    assert!(!is_readable(&DiskNode::Missing));
    assert!(!is_readable(&DiskNode::Unreadable));
}

#[test]
fn route_from_puts_the_first_segment_in_front() {
    assert_eq!(route_from(&"game".to_string(), &segments(&["a", "b"])), segments(&["game", "a", "b"]));
    assert_eq!(route_from(&"game".to_string(), &[]), segments(&["game"]));
}
