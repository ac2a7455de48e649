use rbxfs::fs::{instance_named, read_instance_from_path, SCRIPT_SUFFIX};
use rbxfs::pathext::FsPath;
use rbxfs::roblox::instance_types::{RobloxFolder, RobloxModuleScript};
use rbxfs::roblox::InstanceDetails;
use rbxfs::snapshot::DiskNode;

fn file(text: &str) -> DiskNode {
    DiskNode::File { bytes: text.as_bytes().to_vec() }
}

#[test]
fn a_script_file_is_a_module_script() {
    assert_eq!(SCRIPT_SUFFIX, ".lua");
    let instance = read_instance_from_path(&FsPath::parse("/proj/main.lua"), &file("return 1")).unwrap();
    assert_eq!(instance.name, "main");
    assert_eq!(
        instance.details,
        InstanceDetails::ModuleScript(RobloxModuleScript { source: "return 1".to_string() })
    );
    assert!(!instance.children.contains_key("main"));
}

#[test]
fn a_directory_is_a_folder_of_its_entries() {
    let disk = DiskNode::Dir {
        entries: vec![
            ("a.lua".to_string(), file("return 1")),
            (
                "sub".to_string(),
                DiskNode::Dir { entries: vec![("b.lua".to_string(), file("return 2"))] },
            ),
        ],
    };
    let instance = read_instance_from_path(&FsPath::parse("/proj/src/"), &disk).unwrap();
    assert_eq!(instance.name, "src");
    assert_eq!(instance.details, InstanceDetails::Folder(RobloxFolder {}));
    assert_eq!(
        instance.children.get("a").map(|child| &child.details),
        Some(&InstanceDetails::ModuleScript(RobloxModuleScript { source: "return 1".to_string() }))
    );
    let route = vec!["sub".to_string(), "b".to_string()];
    assert_eq!(
        instance.navigate(&route).map(|child| &child.details),
        Some(&InstanceDetails::ModuleScript(RobloxModuleScript { source: "return 2".to_string() }))
    );
}

#[test]
fn one_entry_that_is_no_instance_fails_the_whole() {
    let disk = DiskNode::Dir {
        entries: vec![
            ("a.lua".to_string(), file("return 1")),
            ("notes.txt".to_string(), file("hello")),
        ],
    };
    assert_eq!(instance_named("src", &disk), None);
    let disk = DiskNode::Dir {
        entries: vec![(
            "sub".to_string(),
            DiskNode::Dir { entries: vec![("gone.lua".to_string(), DiskNode::Missing)] },
        )],
    };
    assert_eq!(instance_named("src", &disk), None);
}

#[test]
fn what_is_no_script_is_no_instance() {
    assert_eq!(instance_named("notes.txt", &file("hello")), None);
    assert_eq!(instance_named("bad.lua", &DiskNode::File { bytes: vec![0xff] }), None);
    assert_eq!(instance_named("a.lua", &DiskNode::Missing), None);
    assert_eq!(instance_named("a.lua", &DiskNode::Unreadable), None);
    assert_eq!(read_instance_from_path(&FsPath::parse("/"), &DiskNode::Dir { entries: Vec::new() }), None);
    assert_eq!(read_instance_from_path(&FsPath::parse("a/.."), &file("x")), None);
}

#[test]
fn file_name_is_the_last_name() {
    assert_eq!(FsPath::parse("/a/b.lua").file_name().map(String::as_str), Some("b.lua"));
    assert_eq!(FsPath::parse("/").file_name(), None);
    assert_eq!(FsPath::parse("").file_name(), None);
    assert_eq!(FsPath::parse("a/.").file_name(), None);
}
