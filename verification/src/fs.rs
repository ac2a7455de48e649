//! Instances from what is on disk.
//!
//! Reading the disk is not done here. Whoever reads it hands over what was
//! found, as a [`DiskNode`]; what instance it stands for is decided here.

use crate::pathext::{ComponentView, FsPath};
use crate::roblox::instance_types::{RobloxFolder, RobloxModuleScript};
use crate::roblox::{Instance, InstanceDetails};
use crate::snapshot::{entry_views, DiskNode, DiskView};
use crate::text::{ends_with, stripped, without_suffix};
use vstd::prelude::*;
use vstd::string::StringExecFns;
use vstd::utf8::{decode_utf8, valid_utf8};

verus! {

/// How the name of a file that holds a script ends.
pub const SCRIPT_SUFFIX: &'static str = ".lua";

/// Whether what was found under `name` stands for an instance: a file does
/// where it holds text and is named as a script; a directory does where
/// every entry in it does.
pub open spec fn loadable(name: Seq<char>, disk: DiskView) -> bool
    decreases disk,
{
    match disk {
        DiskView::File { bytes } => valid_utf8(bytes) && SCRIPT_SUFFIX@.is_suffix_of(name),
        DiskView::Dir { entries } => all_loadable(entries),
        _ => false,
    }
}

/// Whether every one of `entries` stands for an instance.
pub open spec fn all_loadable(entries: Seq<(Seq<char>, DiskView)>) -> bool
    decreases entries,
{
    entries.len() == 0 || (all_loadable(entries.drop_last()) && loadable(
        entries.last().0,
        entries.last().1,
    ))
}

/// Whether `instance` is the one that what was found under `name` stands
/// for. A script file stands for a module script with the file's text as
/// its source, named as the file without the ending. A directory stands for
/// a folder of its name, with the instances of its entries as children.
pub open spec fn is_instance_of(instance: Instance, name: Seq<char>, disk: DiskView) -> bool
    decreases disk,
{
    match disk {
        DiskView::File { bytes } => {
            &&& instance.name@ == stripped(name, SCRIPT_SUFFIX@)
            &&& instance.children@ == Map::<Seq<char>, Instance>::empty()
            &&& instance.details matches InstanceDetails::ModuleScript(script)
            &&& script.source@ == decode_utf8(bytes)
        },
        DiskView::Dir { entries } => {
            &&& instance.name@ == name
            &&& instance.details is Folder
            &&& hold_instances_of(instance.children@, entries)
        },
        _ => false,
    }
}

/// Whether `children` are the instances of `entries`, each added under its
/// own name in the order of the entries, a later one in place of an earlier
/// one of the same name.
pub open spec fn hold_instances_of(
    children: Map<Seq<char>, Instance>,
    entries: Seq<(Seq<char>, DiskView)>,
) -> bool
    decreases entries,
{
    if entries.len() == 0 {
        children == Map::<Seq<char>, Instance>::empty()
    } else {
        exists|before: Map<Seq<char>, Instance>, child: Instance|
            {
                &&& hold_instances_of(before, entries.drop_last())
                &&& is_instance_of(child, entries.last().0, entries.last().1)
                &&& children == #[trigger] before.insert(child.name@, child)
            }
    }
}

/// Where all entries stand for instances, so do the first of them.
proof fn lemma_all_loadable_front(entries: Seq<(Seq<char>, DiskView)>, count: int)
    requires
        0 <= count <= entries.len(),
        all_loadable(entries),
    ensures
        all_loadable(entries.take(count)),
    decreases entries.len(),
{
    if count == entries.len() {
        assert(entries.take(count) =~= entries);
    } else {
        lemma_all_loadable_front(entries.drop_last(), count);
        assert(entries.drop_last().take(count) =~= entries.take(count));
    }
}

/// The folder called `name` with the instances of `entries` beneath it.
fn folder_named(name: &str, entries: &Vec<(String, DiskNode)>) -> (loaded: Option<Instance>)
    ensures
        match loaded {
            Some(instance) => {
                &&& all_loadable(entry_views(entries@))
                &&& instance.name@ == name@
                &&& instance.details is Folder
                &&& hold_instances_of(instance.children@, entry_views(entries@))
            },
            None => !all_loadable(entry_views(entries@)),
        },
    decreases entries,
{
    let mut instance = Instance::new(name, InstanceDetails::Folder(RobloxFolder {}));
    let mut i: usize = 0;
    let ghost views = entry_views(entries@);
    proof {
        crate::snapshot::lemma_entry_views(entries@);
    }
    while i < entries.len()
        invariant
            i <= entries.len(),
            views == entry_views(entries@),
            views.len() == entries@.len(),
            forall|k: int|
                0 <= k < entries@.len() ==> #[trigger] views[k] == (
                    entries@[k].0@,
                    entries@[k].1@,
                ),
            all_loadable(views.take(i as int)),
            instance.name@ == name@,
            instance.details is Folder,
            hold_instances_of(instance.children@, views.take(i as int)),
        decreases entries.len() - i,
    {
        let ghost grown = views.take(i as int + 1);
        proof {
            assert(grown.drop_last() =~= views.take(i as int));
            assert(grown.last() == views[i as int]);
        }
        match instance_named(entries[i].0.as_str(), &entries[i].1) {
            Some(child) => {
                let ghost before = instance.children@;
                instance.add_child(child);
                proof {
                    assert(instance.children@ == before.insert(child.name@, child));
                }
            },
            None => {
                proof {
                    if all_loadable(views) {
                        lemma_all_loadable_front(views, i as int + 1);
                    }
                }
                return None;
            },
        }
        i += 1;
    }
    proof {
        assert(views.take(views.len() as int) =~= views);
    }
    Some(instance)
}

/// The instance that what was found under `name` stands for.
pub fn instance_named(name: &str, disk: &DiskNode) -> (loaded: Option<Instance>)
    ensures
        match loaded {
            Some(instance) => loadable(name@, disk@) && is_instance_of(instance, name@, disk@),
            None => !loadable(name@, disk@),
        },
    decreases disk,
{
    match disk {
        DiskNode::Dir { entries } => folder_named(name, entries),
        DiskNode::File { bytes } => match core::str::from_utf8(bytes.as_slice()) {
            Ok(contents) => {
                if ends_with(name, SCRIPT_SUFFIX) {
                    proof {
                        vstd::utf8::encode_utf8_decode_utf8(contents@);
                    }
                    let script = RobloxModuleScript { source: String::from_str(contents) };
                    Some(
                        Instance::new(
                            without_suffix(name, SCRIPT_SUFFIX),
                            InstanceDetails::ModuleScript(script),
                        ),
                    )
                } else {
                    None
                }
            },
            Err(_) => None,
        },
        _ => None,
    }
}

/// The instance that what was found at `path` stands for, named by the
/// last component of `path`. A path that does not end in a name stands for
/// none.
pub fn read_instance_from_path(path: &FsPath, disk: &DiskNode) -> (loaded: Option<Instance>)
    ensures
        match loaded {
            Some(instance) => {
                &&& path@.len() > 0
                &&& path@.last() matches ComponentView::Normal(name)
                &&& loadable(name, disk@)
                &&& is_instance_of(instance, name, disk@)
            },
            None => path@.len() > 0 ==> (path@.last() matches ComponentView::Normal(name)
                ==> !loadable(name, disk@)),
        },
{
    match path.file_name() {
        Some(name) => instance_named(name.as_str(), disk),
        None => None,
    }
}

} // verus!
