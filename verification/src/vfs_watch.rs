//! The bridge from filesystem events to the store's log.
//!
//! An event names one or two absolute paths. Each path that lies in a
//! partition becomes a record of the route that leads to it; a path in no
//! partition is passed over.

use crate::pathext::{ComponentView, FsPath};
use crate::route::{path_to_rbx_path, route_beneath, route_from, RbxPath};
use crate::vfs::{
    find_mount, log_with, mount_names, mount_views, valid_store, ChangeView, MountView, Vfs,
};
use vstd::prelude::*;

verus! {

/// Something that happened in the filesystem.
#[derive(Debug, PartialEq, Eq)]
pub enum FsEvent {
    /// An entry was created at the path.
    Created(FsPath),
    /// The entry at the path was written to.
    Modified(FsPath),
    /// The entry at the path was removed.
    Removed(FsPath),
    /// The entry at the first path was moved to the second.
    Renamed(FsPath, FsPath),
}

/// The first partition, from `from` on, that `path` lies in.
pub open spec fn first_containing(
    mounts: Seq<MountView>,
    path: Seq<ComponentView>,
    from: int,
) -> Option<int>
    decreases mounts.len() - from,
{
    if from < 0 || from >= mounts.len() {
        None
    } else if route_beneath(mounts[from].root, path) is Some {
        Some(from)
    } else {
        first_containing(mounts, path, from + 1)
    }
}

/// The route of `path`: the name of the first partition that it lies in,
/// then the names that lead to it from that partition's root.
pub open spec fn route_of_path(mounts: Seq<MountView>, path: Seq<ComponentView>) -> Option<
    Seq<Seq<char>>,
> {
    match first_containing(mounts, path, 0) {
        Some(index) => Some(
            seq![mounts[index].name] + route_beneath(mounts[index].root, path).unwrap(),
        ),
        None => None,
    }
}

/// The log after a change at `path` was reported at `time`.
pub open spec fn log_with_path(
    mounts: Seq<MountView>,
    log: Seq<ChangeView>,
    time: u64,
    path: Seq<ComponentView>,
) -> Seq<ChangeView> {
    match route_of_path(mounts, path) {
        Some(route) => log_with(mounts, log, time, route),
        None => log,
    }
}

/// The log after `event` was reported at `time`: one record for the path of
/// a creation, a modification or a removal; two for a renaming, first for
/// the old path, then for the new.
pub open spec fn log_after_event(
    mounts: Seq<MountView>,
    log: Seq<ChangeView>,
    time: u64,
    event: FsEvent,
) -> Seq<ChangeView> {
    match event {
        FsEvent::Created(path) => log_with_path(mounts, log, time, path@),
        FsEvent::Modified(path) => log_with_path(mounts, log, time, path@),
        FsEvent::Removed(path) => log_with_path(mounts, log, time, path@),
        FsEvent::Renamed(from, to) => log_with_path(
            mounts,
            log_with_path(mounts, log, time, from@),
            time,
            to@,
        ),
    }
}

/// The first partition is found from any place in front of it.
proof fn lemma_first_containing_skips(mounts: Seq<MountView>, path: Seq<ComponentView>, from: int)
    requires
        0 <= from < mounts.len(),
        route_beneath(mounts[from].root, path) is None,
    ensures
        first_containing(mounts, path, from) == first_containing(mounts, path, from + 1),
{
}

/// A first partition lies among the partitions, and the path lies in it.
pub proof fn lemma_first_containing_found(
    mounts: Seq<MountView>,
    path: Seq<ComponentView>,
    from: int,
)
    requires
        0 <= from,
    ensures
        first_containing(mounts, path, from) matches Some(index) ==> from <= index < mounts.len()
            && route_beneath(mounts[index].root, path) is Some,
    decreases mounts.len() - from,
{
    if from < mounts.len() && route_beneath(mounts[from].root, path) is None {
        lemma_first_containing_found(mounts, path, from + 1);
    }
}

/// The route of a path names a partition, so a change at it is recorded.
pub proof fn lemma_located_route_is_recorded(
    mounts: Seq<MountView>,
    log: Seq<ChangeView>,
    time: u64,
    path: Seq<ComponentView>,
)
    ensures
        route_of_path(mounts, path) matches Some(route) ==> {
            &&& route.len() > 0
            &&& find_mount(mounts, route[0]) is Some
            &&& log_with_path(mounts, log, time, path).len() == log.len() + 1
            &&& log_with_path(mounts, log, time, path).last().route == route
        },
        route_of_path(mounts, path) is None ==> log_with_path(mounts, log, time, path) == log,
{
    lemma_first_containing_found(mounts, path, 0);
    if let Some(index) = first_containing(mounts, path, 0) {
        let names = mount_names(mounts);
        assert(names[index] == mounts[index].name);
        assert(names.contains(mounts[index].name));
        names.index_of_first_ensures(mounts[index].name);
    }
}

/// An event keeps the store valid and only adds to the log: at most two
/// records, behind what was there.
pub proof fn lemma_event_keeps_store_valid(
    mounts: Seq<MountView>,
    log: Seq<ChangeView>,
    time: u64,
    event: FsEvent,
)
    requires
        valid_store(mounts, log),
    ensures
        valid_store(mounts, log_after_event(mounts, log, time, event)),
        log.is_prefix_of(log_after_event(mounts, log, time, event)),
        log_after_event(mounts, log, time, event).len() <= log.len() + 2,
{
    match event {
        FsEvent::Created(path) => lemma_path_keeps_store_valid(mounts, log, time, path@),
        FsEvent::Modified(path) => lemma_path_keeps_store_valid(mounts, log, time, path@),
        FsEvent::Removed(path) => lemma_path_keeps_store_valid(mounts, log, time, path@),
        FsEvent::Renamed(from, to) => {
            lemma_path_keeps_store_valid(mounts, log, time, from@);
            let between = log_with_path(mounts, log, time, from@);
            lemma_path_keeps_store_valid(mounts, between, time, to@);
            let after = log_with_path(mounts, between, time, to@);
            assert(log =~= after.subrange(0, log.len() as int)) by {
                assert(log =~= between.subrange(0, log.len() as int));
                assert(between =~= after.subrange(0, between.len() as int));
            }
        },
    }
}

/// A change at a path keeps the store valid and adds at most one record.
proof fn lemma_path_keeps_store_valid(
    mounts: Seq<MountView>,
    log: Seq<ChangeView>,
    time: u64,
    path: Seq<ComponentView>,
)
    requires
        valid_store(mounts, log),
    ensures
        valid_store(mounts, log_with_path(mounts, log, time, path)),
        log.is_prefix_of(log_with_path(mounts, log, time, path)),
        log_with_path(mounts, log, time, path).len() <= log.len() + 1,
{
    match route_of_path(mounts, path) {
        Some(route) => {
            crate::vfs::lemma_recording_keeps_store_valid(mounts, log, time, route);
        },
        None => {
            assert(log =~= log.subrange(0, log.len() as int));
        },
    }
}

/// Both records of a renaming within the partitions get the same time.
pub proof fn lemma_renaming_has_one_time(
    mounts: Seq<MountView>,
    log: Seq<ChangeView>,
    time: u64,
    from: FsPath,
    to: FsPath,
)
    requires
        route_of_path(mounts, from@) is Some,
        route_of_path(mounts, to@) is Some,
    ensures
        ({
            let after = log_after_event(mounts, log, time, FsEvent::Renamed(from, to));
            &&& after.len() == log.len() + 2
            &&& after[log.len() as int].route == route_of_path(mounts, from@).unwrap()
            &&& after[log.len() as int + 1].route == route_of_path(mounts, to@).unwrap()
            &&& after[log.len() as int].time == after[log.len() as int + 1].time
            &&& after[log.len() as int].time == crate::vfs::stamp(log, time)
        }),
{
    lemma_located_route_is_recorded(mounts, log, time, from@);
    let between = log_with_path(mounts, log, time, from@);
    lemma_located_route_is_recorded(mounts, between, time, to@);
}

impl Vfs {
    /// The route of `path`, where `path` lies in a partition: the first
    /// partition that holds it gives the route its first segment.
    pub fn locate(&self, path: &FsPath) -> (route: Option<RbxPath>)
        ensures
            match route {
                Some(found) => route_of_path(self.mounts(), path@) == Some(found@),
                None => route_of_path(self.mounts(), path@) is None,
            },
    {
        let partitions = self.partitions();
        let ghost mounts = self.mounts();
        let mut i: usize = 0;
        while i < partitions.len()
            invariant
                i <= partitions.len(),
                mounts == mount_views(partitions@),
                mounts == self.mounts(),
                first_containing(mounts, path@, 0) == first_containing(mounts, path@, i as int),
            decreases partitions.len() - i,
        {
            match path_to_rbx_path(&partitions[i].root, path) {
                Ok(beneath) => {
                    let found = RbxPath(route_from(&partitions[i].name, beneath.0.as_slice()));
                    proof {
                        assert(mounts[i as int].name == partitions@[i as int].name@);
                        assert(mounts[i as int].root == partitions@[i as int].root@);
                    }
                    return Some(found);
                },
                Err(_) => {
                    proof {
                        lemma_first_containing_skips(mounts, path@, i as int);
                    }
                },
            }
            i += 1;
        }
        None
    }

    /// Records what `event`, reported at `time`, changed.
    ///
    /// Each path of the event that lies in a partition gets one record, and
    /// both records of a renaming get the same time. A path in no partition
    /// is passed over.
    pub fn apply_fs_event(&mut self, time: u64, event: &FsEvent)
        ensures
            final(self).mounts() == old(self).mounts(),
            final(self).log() == log_after_event(old(self).mounts(), old(self).log(), time, *event),
    {
        match event {
            FsEvent::Created(path) => self.record_path(time, path),
            FsEvent::Modified(path) => self.record_path(time, path),
            FsEvent::Removed(path) => self.record_path(time, path),
            FsEvent::Renamed(from, to) => {
                self.record_path(time, from);
                self.record_path(time, to);
            },
        }
    }

    /// Records what `event` changed, at the time that the store's clock
    /// shows.
    pub fn handle_fs_event(&mut self, event: &FsEvent)
        ensures
            final(self).mounts() == old(self).mounts(),
            exists|time: u64|
                final(self).log() == log_after_event(
                    old(self).mounts(),
                    old(self).log(),
                    time,
                    *event,
                ),
    {
        let time = self.current_time();
        self.apply_fs_event(time, event);
        assert(self.log() == log_after_event(old(self).mounts(), old(self).log(), time, *event));
    }

    /// Records that the entry at `path` changed at `time`, where `path`
    /// lies in a partition.
    fn record_path(&mut self, time: u64, path: &FsPath)
        ensures
            final(self).mounts() == old(self).mounts(),
            final(self).log() == log_with_path(old(self).mounts(), old(self).log(), time, path@),
    {
        match self.locate(path) {
            Some(route) => {
                self.record_change(time, route.0);
            },
            None => {},
        }
    }
}

} // verus!
