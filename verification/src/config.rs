//! What the server is started with.

use crate::pathext::{absoluteify, collapse_components, is_absolute, join_components, FsPath};
use crate::vfs::{find_mount, ChangeView, MountView, Vfs};
use vstd::prelude::*;

verus! {

/// A directory that is served, and the place in the tree that it is served
/// at.
#[derive(Debug, Clone)]
pub struct MountPoint {
    pub path: FsPath,
    pub target: Vec<String>,
}

/// What the server is started with: where it listens, how much it says, and
/// the directories that it serves, by name. A mount point's path that is not
/// absolute is taken from `root_path`.
#[derive(Debug)]
pub struct Config {
    pub port: u64,
    pub verbose: bool,
    pub root_path: FsPath,
    pub mount_points: Vec<(String, MountPoint)>,
}

/// The partitions after `name` was added with `root`: a root that is not
/// absolute once collapsed adds nothing, a name that is there already gets
/// the new root.
pub open spec fn mounts_with(
    mounts: Seq<MountView>,
    name: Seq<char>,
    root: Seq<crate::pathext::ComponentView>,
) -> Seq<MountView> {
    let collapsed = collapse_components(root);
    if !is_absolute(collapsed) {
        mounts
    } else {
        match find_mount(mounts, name) {
            Some(index) => mounts.update(index, MountView { name, root: collapsed }),
            None => mounts.push(MountView { name, root: collapsed }),
        }
    }
}

/// The partitions after the first `count` mount points of a configuration
/// were added, in order.
pub open spec fn mounts_of(
    root_path: Seq<crate::pathext::ComponentView>,
    mount_points: Seq<(String, MountPoint)>,
    count: int,
) -> Seq<MountView>
    decreases count,
{
    if count <= 0 {
        Seq::empty()
    } else {
        mounts_with(
            mounts_of(root_path, mount_points, count - 1),
            mount_points[count - 1].0@,
            join_components(root_path, mount_points[count - 1].1.path@),
        )
    }
}

impl Vfs {
    /// The store that serves the mount points of `config`: each becomes a
    /// partition under its name, in order. Its log is empty.
    pub fn from_config(config: &Config) -> (vfs: Vfs)
        ensures
            vfs.mounts() == mounts_of(
                config.root_path@,
                config.mount_points@,
                config.mount_points@.len() as int,
            ),
            vfs.log() == Seq::<ChangeView>::empty(),
    {
        let mut vfs = Vfs::new();
        let mut i: usize = 0;
        while i < config.mount_points.len()
            invariant
                i <= config.mount_points.len(),
                vfs.mounts() == mounts_of(config.root_path@, config.mount_points@, i as int),
                vfs.log() == Seq::<ChangeView>::empty(),
            decreases config.mount_points.len() - i,
        {
            let name = config.mount_points[i].0.clone();
            let root = absoluteify(&config.root_path, &config.mount_points[i].1.path);
            vfs.add_partition(name, &root);
            i += 1;
        }
        vfs
    }
}

} // verus!
