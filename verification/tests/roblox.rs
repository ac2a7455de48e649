use rbxfs::roblox::instance_types::{RobloxFolder, RobloxModuleScript};
use rbxfs::roblox::{Instance, InstanceDetails};

#[test]
fn roblox_it_makes_instances() {
    let name = "hello, world";
    let details = InstanceDetails::Unknown;
    let child_details = InstanceDetails::Folder(RobloxFolder {});

    let mut parent = Instance::new(name, details);

    let child = Instance::new(name, child_details);
    parent.children.insert(name.into(), child);
}

fn route(segments: &[&str]) -> Vec<String> {
    segments.iter().map(|segment| segment.to_string()).collect()
}

#[test]
fn navigate_follows_a_route() {
    let mut root = Instance::new("root", InstanceDetails::Folder(RobloxFolder {}));
    let mut folder = Instance::new("src", InstanceDetails::Folder(RobloxFolder {}));
    folder.add_child(Instance::new(
        "main",
        InstanceDetails::ModuleScript(RobloxModuleScript { source: "return 1".to_string() }),
    ));
    root.add_child(folder);

    assert_eq!(root.navigate(&route(&[])).map(|found| found.name.as_str()), Some("root"));
    assert_eq!(root.navigate(&route(&["src"])).map(|found| found.name.as_str()), Some("src"));
    let main = root.navigate(&route(&["src", "main"])).unwrap();
    assert_eq!(
        main.details,
        InstanceDetails::ModuleScript(RobloxModuleScript { source: "return 1".to_string() })
    );
    assert!(root.navigate(&route(&["main"])).is_none());
    assert!(root.navigate(&route(&["src", "main", "deeper"])).is_none());
}

#[test]
fn add_child_replaces_a_child_of_the_same_name() {
    let mut root = Instance::new("root", InstanceDetails::Unknown);
    root.add_child(Instance::new("a", InstanceDetails::Unknown));
    root.add_child(Instance::new("a", InstanceDetails::Folder(RobloxFolder {})));
    assert!(root.children.contains_key("a"));
    assert!(!root.children.contains_key("b"));
    assert_eq!(
        root.children.get("a").map(|found| &found.details),
        Some(&InstanceDetails::Folder(RobloxFolder {}))
    );
}

#[test]
fn navigate_mut_changes_the_tree_in_place() {
    let mut root = Instance::new("root", InstanceDetails::Folder(RobloxFolder {}));
    let mut folder = Instance::new("src", InstanceDetails::Folder(RobloxFolder {}));
    folder.add_child(Instance::new("main", InstanceDetails::Unknown));
    root.add_child(folder);
    root.add_child(Instance::new("other", InstanceDetails::Unknown));

    assert!(root.navigate_mut(&route(&["src", "missing"])).is_none());
    {
        let main = root.navigate_mut(&route(&["src", "main"])).unwrap();
        main.details =
            InstanceDetails::ModuleScript(RobloxModuleScript { source: "return 3".to_string() });
        main.add_child(Instance::new("deep", InstanceDetails::Unknown));
    }
    assert_eq!(
        root.navigate(&route(&["src", "main"])).unwrap().details,
        InstanceDetails::ModuleScript(RobloxModuleScript { source: "return 3".to_string() })
    );
    assert!(root.navigate(&route(&["src", "main", "deep"])).is_some());
    assert_eq!(root.navigate(&route(&["other"])).unwrap().details, InstanceDetails::Unknown);
    assert_eq!(root.navigate_mut(&route(&[])).unwrap().name, "root");
}
