//! The store: partitions, and the log of what changed in them.
//!
//! A partition is a named directory tree. A route names a partition in its
//! first segment and an entry beneath the partition's root in the others.
//! The store resolves routes to paths, never to one outside the partition,
//! and keeps a log of the routes that changed, in the order of their times.

use crate::pathext::{
    collapse, collapse_components, is_absolute, is_collapsed, join_components, parse_components,
    separator, well_formed, ComponentView, FsPath,
};
use crate::route::segment_views;
pub use crate::snapshot::VfsItem;
use crate::snapshot::{snapshot, snapshot_of, DiskNode, DiskView, ItemView};
use std::time::Instant;
use vstd::pervasive::VecAdditionalExecFns;
use vstd::prelude::*;
use vstd::slice::slice_subrange;
use vstd::string::StringExecFns;

verus! {

/// Why an operation of the store failed.
#[derive(Debug, Clone, Copy, PartialEq, Eq, Structural)]
pub enum VfsError {
    /// The route's first segment names no partition.
    UnknownPartition,
    /// The route leads out of its partition.
    NotContained,
    /// Nothing exists where the route leads.
    NotFound,
    /// What the route leads to could not be read as text.
    ReadFailure,
    /// The contents could not be written.
    WriteFailure,
    /// The entry could not be removed.
    DeleteFailure,
}

/// A named directory tree.
#[derive(Debug)]
pub struct Partition {
    pub name: String,
    pub root: FsPath,
}

/// The mathematical value of a [`Partition`].
pub struct MountView {
    pub name: Seq<char>,
    pub root: Seq<ComponentView>,
}

impl View for Partition {
    type V = MountView;

    open spec fn view(&self) -> MountView {
        MountView { name: self.name@, root: self.root@ }
    }
}

/// A record that something changed at `route`, `time` nanoseconds after the
/// store was made.
#[derive(Debug, PartialEq, Eq)]
pub struct VfsChange {
    pub time: u64,
    pub route: Vec<String>,
}

/// The mathematical value of a [`VfsChange`].
pub struct ChangeView {
    pub time: u64,
    pub route: Seq<Seq<char>>,
}

impl View for VfsChange {
    type V = ChangeView;

    open spec fn view(&self) -> ChangeView {
        ChangeView { time: self.time, route: segment_views(self.route@) }
    }
}

/// The values of a list of partitions.
pub open spec fn mount_views(partitions: Seq<Partition>) -> Seq<MountView> {
    partitions.map_values(|partition: Partition| partition@)
}

/// The values of a list of records.
pub open spec fn change_views(changes: Seq<VfsChange>) -> Seq<ChangeView> {
    changes.map_values(|change: VfsChange| change@)
}

/// The names of the partitions, in order.
pub open spec fn mount_names(mounts: Seq<MountView>) -> Seq<Seq<char>> {
    mounts.map_values(|mount: MountView| mount.name)
}

/// Where the partition called `name` stands among `mounts`.
pub open spec fn find_mount(mounts: Seq<MountView>, name: Seq<char>) -> Option<int> {
    mount_names(mounts).index_of_first(name)
}

/// The segments written as one relative path, with a separator between
/// each two.
pub open spec fn join_segments(segments: Seq<Seq<char>>) -> Seq<char>
    decreases segments.len(),
{
    if segments.len() == 0 {
        Seq::empty()
    } else if segments.len() == 1 {
        segments[0]
    } else {
        join_segments(segments.drop_last()).push(separator()) + segments.last()
    }
}

/// Where the segments `rest` lead from `root`, with `.` and `..` resolved.
pub open spec fn target_path(root: Seq<ComponentView>, rest: Seq<Seq<char>>) -> Seq<
    ComponentView,
> {
    collapse_components(join_components(root, parse_components(join_segments(rest))))
}

/// The path of a route: that of its partition's root followed by the other
/// segments, if it lies at or beneath that root.
pub open spec fn resolve_route(mounts: Seq<MountView>, route: Seq<Seq<char>>) -> Result<
    Seq<ComponentView>,
    VfsError,
> {
    if route.len() == 0 {
        Err(VfsError::UnknownPartition)
    } else {
        match find_mount(mounts, route[0]) {
            None => Err(VfsError::UnknownPartition),
            Some(index) => {
                let target = target_path(mounts[index].root, route.skip(1));
                if mounts[index].root.is_prefix_of(target) {
                    Ok(target)
                } else {
                    Err(VfsError::NotContained)
                }
            },
        }
    }
}

/// The time of the newest record, or 0 where there is none.
pub open spec fn last_time(log: Seq<ChangeView>) -> u64 {
    if log.len() == 0 {
        0
    } else {
        log.last().time
    }
}

/// The time that a record made at `time` gets: never before the newest one.
pub open spec fn stamp(log: Seq<ChangeView>, time: u64) -> u64 {
    if time >= last_time(log) {
        time
    } else {
        last_time(log)
    }
}

/// The log after a change at `route` was reported at `time`. A route that
/// names no partition is not recorded.
pub open spec fn log_with(
    mounts: Seq<MountView>,
    log: Seq<ChangeView>,
    time: u64,
    route: Seq<Seq<char>>,
) -> Seq<ChangeView> {
    if route.len() > 0 && find_mount(mounts, route[0]) is Some {
        log.push(ChangeView { time: stamp(log, time), route })
    } else {
        log
    }
}

/// The records of `log` that are newer than `timestamp`.
pub open spec fn changes_after(log: Seq<ChangeView>, timestamp: u64) -> Seq<ChangeView> {
    log.filter(|change: ChangeView| change.time > timestamp)
}

/// How an action on the disk ended.
#[derive(Debug, Clone, Copy, PartialEq, Eq, Structural)]
pub enum DiskOutcome {
    /// It was carried out.
    Done,
    /// Nothing existed where it was to be carried out.
    Missing,
    /// It could not be carried out.
    Failed,
}

/// What reading `route` gives, where `disk` was found at its path.
pub open spec fn read_result(
    mounts: Seq<MountView>,
    route: Seq<Seq<char>>,
    disk: DiskView,
) -> Result<ItemView, VfsError> {
    match resolve_route(mounts, route) {
        Err(error) => Err(error),
        Ok(_) => snapshot_of(disk),
    }
}

/// Where `item` is to be written for `route`: only a file can be written.
pub open spec fn write_target(
    mounts: Seq<MountView>,
    route: Seq<Seq<char>>,
    item: ItemView,
) -> Result<Seq<ComponentView>, VfsError> {
    match resolve_route(mounts, route) {
        Err(error) => Err(error),
        Ok(path) => if item is File {
            Ok(path)
        } else {
            Err(VfsError::WriteFailure)
        },
    }
}

/// What writing `item` to `route` gives, where the disk answered with
/// `outcome`.
pub open spec fn write_result(
    mounts: Seq<MountView>,
    route: Seq<Seq<char>>,
    item: ItemView,
    outcome: DiskOutcome,
) -> Result<(), VfsError> {
    match write_target(mounts, route, item) {
        Err(error) => Err(error),
        Ok(_) => if outcome is Done {
            Ok(())
        } else {
            Err(VfsError::WriteFailure)
        },
    }
}

/// What deleting `route` gives, where the disk answered with `outcome`.
pub open spec fn delete_result(
    mounts: Seq<MountView>,
    route: Seq<Seq<char>>,
    outcome: DiskOutcome,
) -> Result<(), VfsError> {
    match resolve_route(mounts, route) {
        Err(error) => Err(error),
        Ok(_) => match outcome {
            DiskOutcome::Done => Ok(()),
            DiskOutcome::Missing => Err(VfsError::NotFound),
            DiskOutcome::Failed => Err(VfsError::DeleteFailure),
        },
    }
}

/// What holds of every store: partitions have distinct names and absolute,
/// collapsed roots; the log is in the order of its times, and each of its
/// routes names a partition.
pub open spec fn valid_store(mounts: Seq<MountView>, log: Seq<ChangeView>) -> bool {
    &&& forall|i: int, j: int|
        0 <= i < j < mounts.len() ==> (#[trigger] mounts[i]).name != (#[trigger] mounts[j]).name
    &&& forall|i: int|
        0 <= i < mounts.len() ==> {
            &&& well_formed((#[trigger] mounts[i]).root)
            &&& is_absolute(mounts[i].root)
            &&& is_collapsed(mounts[i].root)
        }
    &&& forall|i: int, j: int|
        0 <= i <= j < log.len() ==> (#[trigger] log[i]).time <= (#[trigger] log[j]).time
    &&& forall|i: int|
        0 <= i < log.len() ==> {
            &&& (#[trigger] log[i]).route.len() > 0
            &&& find_mount(mounts, log[i].route[0]) is Some
        }
}

/// A virtual layer over several parts of the filesystem.
pub struct Vfs {
    partitions: Vec<Partition>,
    start_time: Instant,
    change_history: Vec<VfsChange>,
}

/// Where the partition called `name` stands in `partitions`.
fn position_of(partitions: &Vec<Partition>, name: &String) -> (found: Option<usize>)
    ensures
        match found {
            Some(index) => find_mount(mount_views(partitions@), name@) == Some(index as int),
            None => find_mount(mount_views(partitions@), name@) is None,
        },
        found matches Some(index) ==> index < partitions.len(),
{
    let ghost names = mount_names(mount_views(partitions@));
    let mut i: usize = 0;
    while i < partitions.len()
        invariant
            i <= partitions.len(),
            names == mount_names(mount_views(partitions@)),
            forall|k: int| 0 <= k < i ==> names[k] != name@,
        decreases partitions.len() - i,
    {
        if partitions[i].name.eq(name) {
            proof {
                names.index_of_first_ensures(name@);
                assert(names[i as int] == name@);
                assert(names.contains(name@));
            }
            return Some(i);
        }
        i += 1;
    }
    proof {
        names.index_of_first_ensures(name@);
        if names.contains(name@) {
            let k = choose|k: int| 0 <= k < names.len() && names[k] == name@;
            assert(names[k] != name@);
        }
    }
    None
}

/// The segments written as one relative path.
fn join_route(segments: &[String]) -> (text: String)
    ensures
        text@ == join_segments(segment_views(segments@)),
{
    let ghost views = segment_views(segments@);
    let mut text = String::new();
    let mut i: usize = 0;
    while i < segments.len()
        invariant
            i <= segments.len(),
            views == segment_views(segments@),
            text@ == join_segments(views.take(i as int)),
        decreases segments.len() - i,
    {
        proof {
            assert(views.take(i as int + 1).drop_last() =~= views.take(i as int));
            assert(views.take(i as int + 1).last() == segments@[i as int]@);
        }
        if i > 0 {
            text.push('/');
        }
        text.append(segments[i].as_str());
        proof {
            if i == 0 {
                assert(text@ =~= segments@[0]@);
            }
        }
        i += 1;
    }
    proof {
        assert(views.take(views.len() as int) =~= views);
    }
    text
}

/// A copy of a route's segments.
fn copy_segments(segments: &[String]) -> (copy: Vec<String>)
    ensures
        segment_views(copy@) == segment_views(segments@),
{
    let mut copy: Vec<String> = Vec::new();
    let mut i: usize = 0;
    while i < segments.len()
        invariant
            i <= segments.len(),
            segment_views(copy@) == segment_views(segments@).take(i as int),
        decreases segments.len() - i,
    {
        let ghost before = segment_views(copy@);
        let segment = segments[i].clone();
        copy.push(segment);
        proof {
            assert(segment_views(copy@) =~= before.push(segment@));
            assert(segment_views(segments@).take(i as int + 1) =~= segment_views(segments@).take(
                i as int,
            ).push(segments@[i as int]@));
        }
        i += 1;
    }
    proof {
        assert(segment_views(segments@).take(segments@.len() as int) =~= segment_views(
            segments@,
        ));
    }
    copy
}

impl Vfs {
    /// The partitions, in the order in which they were added.
    pub closed spec fn mounts(&self) -> Seq<MountView> {
        mount_views(self.partitions@)
    }

    /// The log of changes, oldest first.
    pub closed spec fn log(&self) -> Seq<ChangeView> {
        change_views(self.change_history@)
    }

    /// Every store is valid.
    #[verifier::type_invariant]
    pub open spec fn inv(self) -> bool {
        valid_store(self.mounts(), self.log())
    }

    /// A store without partitions, with an empty log, whose clock starts
    /// now.
    pub fn new() -> (vfs: Vfs)
        ensures
            vfs.mounts() == Seq::<MountView>::empty(),
            vfs.log() == Seq::<ChangeView>::empty(),
    {
        let vfs = Vfs {
            partitions: Vec::new(),
            start_time: Instant::now(),
            change_history: Vec::new(),
        };
        assert(vfs.mounts() =~= Seq::empty());
        assert(vfs.log() =~= Seq::empty());
        vfs
    }

    /// Adds the partition `name` with the collapsed form of `root` as its
    /// root, in place of an earlier partition of that name if there is one.
    /// A root that is not absolute once collapsed is refused, and nothing
    /// changes.
    pub fn add_partition(&mut self, name: String, root: &FsPath) -> (added: bool)
        ensures
            added == is_absolute(collapse_components(root@)),
            final(self).log() == old(self).log(),
            !added ==> final(self).mounts() == old(self).mounts(),
            added ==> final(self).mounts() == (match find_mount(old(self).mounts(), name@) {
                Some(index) => old(self).mounts().update(
                    index,
                    MountView { name: name@, root: collapse_components(root@) },
                ),
                None => old(self).mounts().push(
                    MountView { name: name@, root: collapse_components(root@) },
                ),
            }),
    {
        proof {
            use_type_invariant(&*self);
            use_type_invariant(root);
            crate::pathext::laws::lemma_collapse_is_collapsed(root@);
        }
        let collapsed = collapse(root);
        if !collapsed.is_absolute() {
            return false;
        }
        let ghost before = self.mounts();
        let ghost history = self.log();
        let ghost mount = MountView { name: name@, root: collapsed@ };
        // Both lists leave the store while the partitions change, the log
        // first, so that what stays in the store is valid at every step.
        let mut changes: Vec<VfsChange> = Vec::new();
        std::mem::swap(&mut changes, &mut self.change_history);
        let mut partitions: Vec<Partition> = Vec::new();
        std::mem::swap(&mut partitions, &mut self.partitions);
        match position_of(&partitions, &name) {
            Some(index) => {
                proof {
                    mount_names(before).index_of_first_ensures(name@);
                    let after = before.update(index as int, mount);
                    assert(mount_names(after) =~= mount_names(before));
                    assert(mount_views(
                        partitions@.update(index as int, Partition { name, root: collapsed }),
                    ) =~= after);
                }
                partitions.set(index, Partition { name, root: collapsed });
            },
            None => {
                proof {
                    mount_names(before).index_of_first_ensures(name@);
                    let after = before.push(mount);
                    assert(mount_views(partitions@.push(Partition { name, root: collapsed }))
                        =~= after);
                    assert forall|i: int, j: int| 0 <= i < j < after.len() implies (
                    #[trigger] after[i]).name != (#[trigger] after[j]).name by {
                        if j == before.len() {
                            assert(mount_names(before)[i] == before[i].name);
                            assert(mount_names(before).contains(before[i].name));
                        }
                    }
                    assert forall|i: int| 0 <= i < history.len() implies find_mount(
                        after,
                        (#[trigger] history[i]).route[0],
                    ) is Some by {
                        lemma_find_mount_grows(before, mount, history[i].route[0]);
                    }
                }
                partitions.push(Partition { name, root: collapsed });
            },
        }
        self.partitions = partitions;
        self.change_history = changes;
        true
    }

    /// The partitions, in the order in which they were added.
    pub fn partitions(&self) -> (partitions: &Vec<Partition>)
        ensures
            mount_views(partitions@) == self.mounts(),
            valid_store(self.mounts(), self.log()),
    {
        proof {
            use_type_invariant(self);
        }
        &self.partitions
    }

    /// Resolves a route to the path that it stands for.
    ///
    /// The first segment names the partition. The other segments are
    /// written as one relative path, taken from the partition's root, and
    /// collapsed. The route is refused where that path does not lie at or
    /// beneath the root, whatever `..` or separators its segments hold.
    pub fn resolve(&self, route: &[String]) -> (resolved: Result<FsPath, VfsError>)
        ensures
            match resolved {
                Ok(path) => resolve_route(self.mounts(), segment_views(route@)) == Ok::<
                    Seq<ComponentView>,
                    VfsError,
                >(path@),
                Err(error) => resolve_route(self.mounts(), segment_views(route@)) == Err::<
                    Seq<ComponentView>,
                    VfsError,
                >(error),
            },
    {
        if route.len() == 0 {
            return Err(VfsError::UnknownPartition);
        }
        let ghost segments = segment_views(route@);
        match position_of(&self.partitions, &route[0]) {
            None => Err(VfsError::UnknownPartition),
            Some(index) => {
                let rest = slice_subrange(route, 1, route.len());
                proof {
                    assert(segment_views(rest@) =~= segments.skip(1));
                }
                let relative = FsPath::parse(join_route(rest).as_str());
                let root = &self.partitions[index].root;
                let target = collapse(&root.join(&relative));
                if target.starts_with(root) {
                    Ok(target)
                } else {
                    Err(VfsError::NotContained)
                }
            },
        }
    }

    /// The nanoseconds that have passed since the store was made, as far as
    /// they fit.
    pub fn current_time(&self) -> u64 {
        let nanos: u128 = self.start_time.elapsed().as_nanos();
        if nanos > 0xffff_ffff_ffff_ffff {
            0xffff_ffff_ffff_ffff
        } else {
            nanos as u64
        }
    }

    /// Records that `route` changed at `time`.
    ///
    /// The record gets `time`, or the time of the newest record where that
    /// is later, so that the log stays in the order of its times. A route
    /// that is empty or names no partition is not recorded.
    pub fn record_change(&mut self, time: u64, route: Vec<String>) -> (recorded: bool)
        ensures
            final(self).mounts() == old(self).mounts(),
            final(self).log() == log_with(
                old(self).mounts(),
                old(self).log(),
                time,
                segment_views(route@),
            ),
            recorded == (route@.len() > 0 && find_mount(old(self).mounts(), route@[0]@) is Some),
    {
        proof {
            use_type_invariant(&*self);
        }
        if route.len() == 0 {
            return false;
        }
        if position_of(&self.partitions, &route[0]).is_none() {
            return false;
        }
        let ghost history = self.log();
        let count = self.change_history.len();
        let newest: u64 = if count == 0 {
            0
        } else {
            self.change_history[count - 1].time
        };
        let stamped: u64 = if time >= newest {
            time
        } else {
            newest
        };
        let change = VfsChange { time: stamped, route };
        // The log leaves the store while it grows, so that what stays in
        // the store is valid at every step.
        let mut changes: Vec<VfsChange> = Vec::new();
        std::mem::swap(&mut changes, &mut self.change_history);
        proof {
            assert(change_views(changes@.push(change)) =~= history.push(change@));
            assert(stamped == stamp(history, time));
        }
        changes.push(change);
        self.change_history = changes;
        true
    }

    /// Records that `route` changed now.
    ///
    /// The record's time is read from the store's clock, and is never
    /// before that of the newest record. A route that is empty or names no
    /// partition is not recorded.
    pub fn add_change(&mut self, route: Vec<String>)
        ensures
            final(self).mounts() == old(self).mounts(),
            exists|time: u64|
                final(self).log() == log_with(
                    old(self).mounts(),
                    old(self).log(),
                    time,
                    segment_views(route@),
                ),
    {
        let time = self.current_time();
        let ghost views = segment_views(route@);
        self.record_change(time, route);
        assert(self.log() == log_with(old(self).mounts(), old(self).log(), time, views));
    }

    /// The records that are newer than `timestamp`, oldest first.
    ///
    /// They are the end of the log: it is read from its newest record back
    /// to the first that is not newer.
    pub fn get_changes_since(&self, timestamp: u64) -> (changes: &[VfsChange])
        ensures
            change_views(changes@) == changes_after(self.log(), timestamp),
            forall|i: int| 0 <= i < changes@.len() ==> (#[trigger] changes@[i]).time > timestamp,
            forall|i: int, j: int|
                0 <= i <= j < changes@.len() ==> (#[trigger] changes@[i]).time <= (
                #[trigger] changes@[j]).time,
            changes@.len() <= self.log().len(),
            change_views(changes@) == self.log().skip(self.log().len() - changes@.len()),
    {
        proof {
            use_type_invariant(self);
        }
        let count = self.change_history.len();
        let mut start: usize = count;
        while start > 0 && self.change_history[start - 1].time > timestamp
            invariant
                start <= count,
                count == self.change_history.len(),
                forall|k: int| start <= k < count ==> self.change_history@[k].time > timestamp,
            decreases start,
        {
            start -= 1;
        }
        let changes = slice_subrange(self.change_history.as_slice(), start, count);
        proof {
            let log = self.log();
            assert(change_views(changes@) =~= log.skip(start as int));
            assert forall|i: int, j: int| 0 <= i <= j < changes@.len() implies (
            #[trigger] changes@[i]).time <= (#[trigger] changes@[j]).time by {
                assert(log[start + i].time <= log[start + j].time);
            }
            assert forall|k: int| 0 <= k < start implies (#[trigger] log[k]).time <= timestamp by {
                assert(log[start - 1].time <= timestamp);
            }
            lemma_newer_records_are_a_suffix(log, timestamp, start as int);
        }
        changes
    }

    /// Reads `route`, where `disk` is what was found at the path that the
    /// route resolves to.
    ///
    /// A route that does not resolve fails as [`Vfs::resolve`] says, whatever
    /// was found. Otherwise the result is the snapshot of what was found.
    pub fn read(&self, route: &[String], disk: &DiskNode) -> (item: Result<VfsItem, VfsError>)
        ensures
            match item {
                Ok(found) => read_result(self.mounts(), segment_views(route@), disk@) == Ok::<
                    ItemView,
                    VfsError,
                >(found@),
                Err(error) => read_result(self.mounts(), segment_views(route@), disk@) == Err::<
                    ItemView,
                    VfsError,
                >(error),
            },
    {
        match self.resolve(route) {
            Err(error) => Err(error),
            Ok(_) => snapshot(disk),
        }
    }

    /// The path at which `item` is to be written for `route`.
    ///
    /// A route that does not resolve fails as [`Vfs::resolve`] says. Only a
    /// file can be written: a directory fails with `WriteFailure`.
    pub fn plan_write(&self, route: &[String], item: &VfsItem) -> (target: Result<
        FsPath,
        VfsError,
    >)
        ensures
            match target {
                Ok(path) => write_target(self.mounts(), segment_views(route@), item@) == Ok::<
                    Seq<ComponentView>,
                    VfsError,
                >(path@),
                Err(error) => write_target(self.mounts(), segment_views(route@), item@) == Err::<
                    Seq<ComponentView>,
                    VfsError,
                >(error),
            },
    {
        match self.resolve(route) {
            Err(error) => Err(error),
            Ok(path) => match item {
                VfsItem::File { .. } => Ok(path),
                VfsItem::Dir { .. } => Err(VfsError::WriteFailure),
            },
        }
    }

    /// Takes note of a write of `item` to `route`, where `outcome` is what
    /// became of it on disk at the path of [`Vfs::plan_write`].
    ///
    /// A write that was carried out is recorded in the log, at the time that
    /// the store's clock shows. Any other leaves the log as it was.
    pub fn write(&mut self, route: &[String], item: &VfsItem, outcome: DiskOutcome) -> (result:
        Result<(), VfsError>)
        ensures
            result == write_result(old(self).mounts(), segment_views(route@), item@, outcome),
            final(self).mounts() == old(self).mounts(),
            result is Err ==> final(self).log() == old(self).log(),
            result is Ok ==> exists|time: u64|
                final(self).log() == old(self).log().push(
                    ChangeView { time: stamp(old(self).log(), time), route: segment_views(route@) },
                ),
    {
        match self.plan_write(route, item) {
            Err(error) => Err(error),
            Ok(_) => match outcome {
                DiskOutcome::Done => {
                    self.add_change(copy_segments(route));
                    Ok(())
                },
                _ => Err(VfsError::WriteFailure),
            },
        }
    }

    /// Takes note of the removal of what `route` leads to, where `outcome`
    /// is what became of it on disk at the path of [`Vfs::resolve`].
    ///
    /// A removal that was carried out is recorded in the log, at the time
    /// that the store's clock shows. Any other leaves the log as it was:
    /// where nothing existed the result is `NotFound`, where the removal
    /// failed it is `DeleteFailure`.
    pub fn delete(&mut self, route: &[String], outcome: DiskOutcome) -> (result: Result<
        (),
        VfsError,
    >)
        ensures
            result == delete_result(old(self).mounts(), segment_views(route@), outcome),
            final(self).mounts() == old(self).mounts(),
            result is Err ==> final(self).log() == old(self).log(),
            result is Ok ==> exists|time: u64|
                final(self).log() == old(self).log().push(
                    ChangeView { time: stamp(old(self).log(), time), route: segment_views(route@) },
                ),
    {
        match self.resolve(route) {
            Err(error) => Err(error),
            Ok(_) => match outcome {
                DiskOutcome::Done => {
                    self.add_change(copy_segments(route));
                    Ok(())
                },
                DiskOutcome::Missing => Err(VfsError::NotFound),
                DiskOutcome::Failed => Err(VfsError::DeleteFailure),
            },
        }
    }
}

/// A partition that is found stays found when another is added behind.
pub proof fn lemma_find_mount_grows(mounts: Seq<MountView>, mount: MountView, name: Seq<char>)
    requires
        find_mount(mounts, name) is Some,
    ensures
        find_mount(mounts.push(mount), name) == find_mount(mounts, name),
{
    let names = mount_names(mounts);
    let grown = mount_names(mounts.push(mount));
    names.index_of_first_ensures(name);
    grown.index_of_first_ensures(name);
    let index = names.index_of_first(name).unwrap();
    assert(grown =~= names.push(mount.name));
    assert(grown[index] == name);
    assert(grown.contains(name));
    let other = grown.index_of_first(name).unwrap();
    if other < index {
        assert(names[other] == grown[other]);
    }
}

/// In a log whose records up to `start` are not newer than `timestamp` and
/// whose records from `start` on are, the newer records are the log from
/// `start` on.
pub proof fn lemma_newer_records_are_a_suffix(log: Seq<ChangeView>, timestamp: u64, start: int)
    requires
        0 <= start <= log.len(),
        forall|k: int| 0 <= k < start ==> (#[trigger] log[k]).time <= timestamp,
        forall|k: int| start <= k < log.len() ==> (#[trigger] log[k]).time > timestamp,
    ensures
        changes_after(log, timestamp) == log.skip(start),
    decreases log.len(),
{
    reveal(Seq::filter);
    if log.len() == 0 {
        assert(changes_after(log, timestamp) =~= log.skip(start));
    } else {
        let front = log.drop_last();
        assert forall|k: int| 0 <= k < front.len() implies front[k] == log[k] by {}
        assert(changes_after(log, timestamp) == if log.last().time > timestamp {
            changes_after(front, timestamp).push(log.last())
        } else {
            changes_after(front, timestamp)
        });
        if start == log.len() {
            lemma_newer_records_are_a_suffix(front, timestamp, start - 1);
            assert(log[log.len() - 1].time <= timestamp);
            assert(front.skip(start - 1) =~= log.skip(start));
        } else {
            lemma_newer_records_are_a_suffix(front, timestamp, start);
            assert(log[log.len() - 1].time > timestamp);
            assert(front.skip(start).push(log.last()) =~= log.skip(start));
        }
    }
}

/// Resolution never leaves the partition: a route resolves only to an
/// absolute path that begins with the root of the partition that its first
/// segment names, and in which every component behind the root names an
/// entry. Any other route fails, with `UnknownPartition` or `NotContained`.
pub proof fn lemma_resolution_stays_in_partition(
    mounts: Seq<MountView>,
    log: Seq<ChangeView>,
    route: Seq<Seq<char>>,
)
    requires
        valid_store(mounts, log),
    ensures
        match resolve_route(mounts, route) {
            Ok(path) => {
                &&& route.len() > 0
                &&& find_mount(mounts, route[0]) matches Some(index)
                &&& 0 <= index < mounts.len()
                &&& mounts[index].name == route[0]
                &&& mounts[index].root.is_prefix_of(path)
                &&& is_absolute(path)
                &&& is_collapsed(path)
                &&& well_formed(path)
                &&& forall|k: int| 0 < k < path.len() ==> #[trigger] path[k] is Normal
            },
            Err(error) => error == VfsError::UnknownPartition || error == VfsError::NotContained,
        },
{
    if let Ok(path) = resolve_route(mounts, route) {
        mount_names(mounts).index_of_first_ensures(route[0]);
        let index = find_mount(mounts, route[0]).unwrap();
        let root = mounts[index].root;
        let relative = parse_components(join_segments(route.skip(1)));
        crate::pathext::laws::lemma_parse_well_formed(join_segments(route.skip(1)));
        crate::pathext::laws::lemma_join_well_formed(root, relative);
        crate::pathext::laws::lemma_collapse_is_collapsed(join_components(root, relative));
        assert(path[0] == root[0]);
        crate::pathext::laws::lemma_collapsed_absolute_is_named(path);
    }
}

/// A route whose first segment names no partition fails with
/// `UnknownPartition`, whatever is read, written or deleted, and whatever
/// the disk holds or answers.
pub proof fn lemma_unknown_partition_always_fails(
    mounts: Seq<MountView>,
    route: Seq<Seq<char>>,
    disk: DiskView,
    item: ItemView,
    outcome: DiskOutcome,
)
    requires
        route.len() == 0 || find_mount(mounts, route[0]) is None,
    ensures
        resolve_route(mounts, route) == Err::<Seq<ComponentView>, VfsError>(
            VfsError::UnknownPartition,
        ),
        read_result(mounts, route, disk) == Err::<ItemView, VfsError>(VfsError::UnknownPartition),
        write_result(mounts, route, item, outcome) == Err::<(), VfsError>(
            VfsError::UnknownPartition,
        ),
        delete_result(mounts, route, outcome) == Err::<(), VfsError>(VfsError::UnknownPartition),
{
}

/// What was written is read back: where a route resolves and the disk holds
/// at its path a file with the bytes of `contents`, reading the route gives
/// a file with `contents`.
pub proof fn lemma_written_contents_read_back(
    mounts: Seq<MountView>,
    route: Seq<Seq<char>>,
    contents: Seq<char>,
)
    requires
        resolve_route(mounts, route) is Ok,
    ensures
        write_result(mounts, route, ItemView::File { contents }, DiskOutcome::Done) == Ok::<
            (),
            VfsError,
        >(()),
        read_result(mounts, route, DiskView::File { bytes: vstd::utf8::encode_utf8(contents) })
            == Ok::<ItemView, VfsError>(ItemView::File { contents }),
{
    vstd::utf8::encode_utf8_valid_utf8(contents);
    vstd::utf8::encode_utf8_decode_utf8(contents);
}

/// Recording keeps the store valid and only adds to the log: what was in
/// the log stays in front, and the order of times is kept.
pub proof fn lemma_recording_keeps_store_valid(
    mounts: Seq<MountView>,
    log: Seq<ChangeView>,
    time: u64,
    route: Seq<Seq<char>>,
)
    requires
        valid_store(mounts, log),
    ensures
        valid_store(mounts, log_with(mounts, log, time, route)),
        log.is_prefix_of(log_with(mounts, log, time, route)),
{
    let after = log_with(mounts, log, time, route);
    if after != log {
        let change = ChangeView { time: stamp(log, time), route };
        assert forall|i: int, j: int| 0 <= i <= j < after.len() implies (#[trigger] after[i]).time <= (
        #[trigger] after[j]).time by {
            if j == log.len() && i < log.len() {
                assert(log[i].time <= log[log.len() - 1].time);
            }
        }
        assert(log =~= after.subrange(0, log.len() as int));
    } else {
        assert(log =~= log.subrange(0, log.len() as int));
    }
}

} // verus!
