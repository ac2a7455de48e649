//! Snapshots: what a route held at the moment it was read.
//!
//! Reading the disk is not done here. Whoever reads it hands over what was
//! found, as a [`DiskNode`]; the rules of what becomes of it are here.

use crate::route::{route_from, segment_views};
use crate::vfs::VfsError;
use vstd::pervasive::VecAdditionalExecFns;
use vstd::prelude::*;
use vstd::string::StringExecFns;
use vstd::utf8::{decode_utf8, valid_utf8};

verus! {

/// What a route holds: a file's text, or a directory's entries by name.
#[derive(Debug, PartialEq, Eq)]
pub enum VfsItem {
    File { contents: String },
    Dir { children: Vec<(String, VfsItem)> },
}

/// The mathematical value of a [`VfsItem`].
pub enum ItemView {
    File { contents: Seq<char> },
    Dir { children: Seq<(Seq<char>, ItemView)> },
}

/// What was found on disk at a path.
#[derive(Debug, PartialEq, Eq)]
pub enum DiskNode {
    /// Nothing exists there.
    Missing,
    /// Something exists there that is neither a file nor a directory, or
    /// that could not be read.
    Unreadable,
    /// A file with these bytes.
    File { bytes: Vec<u8> },
    /// A directory with these entries, each under its name.
    Dir { entries: Vec<(String, DiskNode)> },
}

/// The mathematical value of a [`DiskNode`].
pub enum DiskView {
    Missing,
    Unreadable,
    File { bytes: Seq<u8> },
    Dir { entries: Seq<(Seq<char>, DiskView)> },
}

/// The values of a directory's children.
pub open spec fn children_views(children: Seq<(String, VfsItem)>) -> Seq<(Seq<char>, ItemView)>
    decreases children,
{
    if children.len() == 0 {
        Seq::empty()
    } else {
        children_views(children.drop_last()).push((children.last().0@, children.last().1@))
    }
}

impl View for VfsItem {
    type V = ItemView;

    open spec fn view(&self) -> ItemView
        decreases self,
    {
        match self {
            VfsItem::File { contents } => ItemView::File { contents: contents@ },
            VfsItem::Dir { children } => ItemView::Dir { children: children_views(children@) },
        }
    }
}

/// The values of a directory's entries.
pub open spec fn entry_views(entries: Seq<(String, DiskNode)>) -> Seq<(Seq<char>, DiskView)>
    decreases entries,
{
    if entries.len() == 0 {
        Seq::empty()
    } else {
        entry_views(entries.drop_last()).push((entries.last().0@, entries.last().1@))
    }
}

impl View for DiskNode {
    type V = DiskView;

    open spec fn view(&self) -> DiskView
        decreases self,
    {
        match self {
            DiskNode::Missing => DiskView::Missing,
            DiskNode::Unreadable => DiskView::Unreadable,
            DiskNode::File { bytes } => DiskView::File { bytes: bytes@ },
            DiskNode::Dir { entries } => DiskView::Dir { entries: entry_views(entries@) },
        }
    }
}

/// The snapshot of what was found: the text of a file whose bytes are
/// UTF-8, or the readable entries of a directory.
pub open spec fn snapshot_of(disk: DiskView) -> Result<ItemView, VfsError>
    decreases disk,
{
    match disk {
        DiskView::Missing => Err(VfsError::NotFound),
        DiskView::Unreadable => Err(VfsError::ReadFailure),
        DiskView::File { bytes } => if valid_utf8(bytes) {
            Ok(ItemView::File { contents: decode_utf8(bytes) })
        } else {
            Err(VfsError::ReadFailure)
        },
        DiskView::Dir { entries } => Ok(ItemView::Dir { children: readable_children(entries) }),
    }
}

/// The names of the children of a directory's value, in order.
pub open spec fn item_names(children: Seq<(Seq<char>, ItemView)>) -> Seq<Seq<char>> {
    children.map_values(|child: (Seq<char>, ItemView)| child.0)
}

/// `children` with `item` held under `name`: in place of the child of that
/// name, where there is one, and behind the others, where there is none.
pub open spec fn with_child(
    children: Seq<(Seq<char>, ItemView)>,
    name: Seq<char>,
    item: ItemView,
) -> Seq<(Seq<char>, ItemView)> {
    match item_names(children).index_of_first(name) {
        Some(index) => children.update(index, (name, item)),
        None => children.push((name, item)),
    }
}

/// The snapshots of the entries that have one, each held under its entry's
/// name. An entry without a snapshot is left out, and of two entries of one
/// name the later one stays.
pub open spec fn readable_children(entries: Seq<(Seq<char>, DiskView)>) -> Seq<
    (Seq<char>, ItemView),
>
    decreases entries,
{
    if entries.len() == 0 {
        Seq::empty()
    } else {
        let before = readable_children(entries.drop_last());
        match snapshot_of(entries.last().1) {
            Ok(item) => with_child(before, entries.last().0, item),
            Err(_) => before,
        }
    }
}

/// The snapshots of the readable entries among `entries`.
fn snapshot_entries(entries: &Vec<(String, DiskNode)>) -> (children: Vec<(String, VfsItem)>)
    ensures
        children_views(children@) == readable_children(entry_views(entries@)),
    decreases entries,
{
    let mut children: Vec<(String, VfsItem)> = Vec::new();
    let mut i: usize = 0;
    while i < entries.len()
        invariant
            i <= entries.len(),
            children_views(children@) == readable_children(entry_views(entries@.take(i as int))),
        decreases entries.len() - i,
    {
        proof {
            let seen = entry_views(entries@.take(i as int));
            let grown = entry_views(entries@.take(i as int + 1));
            assert(entries@.take(i as int + 1).drop_last() =~= entries@.take(i as int));
            assert(entries@.take(i as int + 1).last() == entries@[i as int]);
            assert(grown == seen.push((entries@[i as int].0@, entries@[i as int].1@)));
            assert(grown.drop_last() =~= seen);
        }
        match snapshot(&entries[i].1) {
            Ok(item) => {
                let ghost before = children@;
                let name = entries[i].0.clone();
                proof {
                    lemma_children_views(before);
                    assert(item_names(children_views(before)) =~= child_names(before));
                }
                match child_position(&children, &name) {
                    Some(index) => {
                        children.set(index, (name, item));
                        proof {
                            lemma_children_views(children@);
                            assert(children_views(children@) =~= children_views(before).update(
                                index as int,
                                (name@, item@),
                            ));
                        }
                    },
                    None => {
                        children.push((name, item));
                        assert(children@.drop_last() =~= before);
                    },
                }
            },
            Err(_) => {},
        }
        i += 1;
    }
    proof {
        assert(entries@.take(entries@.len() as int) =~= entries@);
    }
    children
}

/// The snapshot of what was found on disk.
///
/// A file gives its text, where its bytes are UTF-8. A directory gives its
/// entries by name; an entry that is missing, unreadable or not UTF-8 is
/// left out of it without failing the whole.
pub fn snapshot(disk: &DiskNode) -> (item: Result<VfsItem, VfsError>)
    ensures
        match item {
            Ok(found) => snapshot_of(disk@) == Ok::<ItemView, VfsError>(found@),
            Err(error) => snapshot_of(disk@) == Err::<ItemView, VfsError>(error),
        },
    decreases disk,
{
    match disk {
        DiskNode::Missing => Err(VfsError::NotFound),
        DiskNode::Unreadable => Err(VfsError::ReadFailure),
        DiskNode::File { bytes } => match core::str::from_utf8(bytes.as_slice()) {
            Ok(text) => {
                proof {
                    vstd::utf8::encode_utf8_decode_utf8(text@);
                }
                Ok(VfsItem::File { contents: String::from_str(text) })
            },
            Err(_) => Err(VfsError::ReadFailure),
        },
        DiskNode::Dir { entries } => Ok(VfsItem::Dir { children: snapshot_entries(entries) }),
    }
}

/// `path` with `name` in front.
pub open spec fn beneath(name: Seq<char>, path: Seq<Seq<char>>) -> Seq<Seq<char>> {
    seq![name] + path
}

/// The entries that the snapshot of what was found leaves out, each as the
/// names that lead to it.
pub open spec fn omitted_of(disk: DiskView) -> Seq<Seq<Seq<char>>>
    decreases disk,
{
    match disk {
        DiskView::Dir { entries } => omitted_among(entries),
        _ => Seq::empty(),
    }
}

/// The entries among `entries`, and beneath them, that a snapshot leaves
/// out: an entry without a snapshot is left out itself; one with a snapshot
/// gives what is left out beneath it.
pub open spec fn omitted_among(entries: Seq<(Seq<char>, DiskView)>) -> Seq<Seq<Seq<char>>>
    decreases entries,
{
    if entries.len() == 0 {
        Seq::empty()
    } else {
        let before = omitted_among(entries.drop_last());
        let name = entries.last().0;
        if snapshot_of(entries.last().1) is Err {
            before.push(seq![name])
        } else {
            before + omitted_of(entries.last().1).map_values(
                |path: Seq<Seq<char>>| beneath(name, path),
            )
        }
    }
}

/// The values of a list of routes.
pub open spec fn route_views(routes: Seq<Vec<String>>) -> Seq<Seq<Seq<char>>> {
    routes.map_values(|route: Vec<String>| segment_views(route@))
}

/// Whether what was found has a snapshot.
pub fn is_readable(disk: &DiskNode) -> (readable: bool)
    ensures
        readable == snapshot_of(disk@) is Ok,
{
    match disk {
        DiskNode::Missing => false,
        DiskNode::Unreadable => false,
        DiskNode::File { bytes } => core::str::from_utf8(bytes.as_slice()).is_ok(),
        DiskNode::Dir { .. } => true,
    }
}

/// The entries among `entries`, and beneath them, that a snapshot leaves
/// out.
fn omitted_entries(entries: &Vec<(String, DiskNode)>) -> (omitted: Vec<Vec<String>>)
    ensures
        route_views(omitted@) == omitted_among(entry_views(entries@)),
    decreases entries,
{
    let mut omitted: Vec<Vec<String>> = Vec::new();
    let mut i: usize = 0;
    while i < entries.len()
        invariant
            i <= entries.len(),
            route_views(omitted@) == omitted_among(entry_views(entries@.take(i as int))),
        decreases entries.len() - i,
    {
        proof {
            let seen = entry_views(entries@.take(i as int));
            let grown = entry_views(entries@.take(i as int + 1));
            assert(entries@.take(i as int + 1).drop_last() =~= entries@.take(i as int));
            assert(entries@.take(i as int + 1).last() == entries@[i as int]);
            assert(grown == seen.push((entries@[i as int].0@, entries@[i as int].1@)));
            assert(grown.drop_last() =~= seen);
        }
        let ghost name = entries@[i as int].0@;
        if !is_readable(&entries[i].1) {
            let ghost before = route_views(omitted@);
            let mut route: Vec<String> = Vec::new();
            route.push(entries[i].0.clone());
            assert(segment_views(route@) =~= seq![name]);
            omitted.push(route);
            assert(route_views(omitted@) =~= before.push(seq![name]));
        } else {
            let inner = omitted_paths(&entries[i].1);
            let ghost before = route_views(omitted@);
            let ghost wanted = route_views(inner@).map_values(
                |path: Seq<Seq<char>>| beneath(name, path),
            );
            let mut k: usize = 0;
            while k < inner.len()
                invariant
                    k <= inner.len(),
                    i < entries.len(),
                    name == entries@[i as int].0@,
                    wanted == route_views(inner@).map_values(
                        |path: Seq<Seq<char>>| beneath(name, path),
                    ),
                    route_views(omitted@) == before + wanted.take(k as int),
                decreases inner.len() - k,
            {
                let ghost so_far = route_views(omitted@);
                let route = route_from(&entries[i].0, inner[k].as_slice());
                proof {
                    let rest = segment_views(inner@[k as int]@);
                    assert(segment_views(route@) == beneath(name, rest));
                    assert(wanted[k as int] == beneath(name, rest));
                }
                omitted.push(route);
                proof {
                    assert(route_views(omitted@) =~= so_far.push(wanted[k as int]));
                    assert(wanted.take(k as int + 1) =~= wanted.take(k as int).push(
                        wanted[k as int],
                    ));
                    assert(before + wanted.take(k as int + 1) =~= (before + wanted.take(
                        k as int,
                    )).push(wanted[k as int]));
                }
                k += 1;
            }
            proof {
                assert(wanted.take(wanted.len() as int) =~= wanted);
            }
        }
        i += 1;
    }
    proof {
        assert(entries@.take(entries@.len() as int) =~= entries@);
    }
    omitted
}

/// The entries that the snapshot of what was found leaves out, each as the
/// names that lead to it from what was read.
pub fn omitted_paths(disk: &DiskNode) -> (omitted: Vec<Vec<String>>)
    ensures
        route_views(omitted@) == omitted_of(disk@),
    decreases disk,
{
    match disk {
        DiskNode::Dir { entries } => omitted_entries(entries),
        _ => {
            let omitted: Vec<Vec<String>> = Vec::new();
            assert(route_views(omitted@) =~= Seq::empty());
            omitted
        },
    }
}

/// The names of a directory's children, in order.
pub open spec fn child_names(children: Seq<(String, VfsItem)>) -> Seq<Seq<char>> {
    children.map_values(|child: (String, VfsItem)| child.0@)
}

/// What `path` leads to from `item`: each name picks the first child of that
/// name in a directory. A file has nothing beneath it.
pub open spec fn item_at(item: VfsItem, path: Seq<Seq<char>>) -> Option<VfsItem>
    decreases path.len(),
{
    if path.len() == 0 {
        Some(item)
    } else {
        match item {
            VfsItem::File { .. } => None,
            VfsItem::Dir { children } => match child_names(children@).index_of_first(path[0]) {
                Some(index) => item_at(children@[index].1, path.skip(1)),
                None => None,
            },
        }
    }
}

/// Where the first child called `name` stands among `children`.
fn child_position(children: &Vec<(String, VfsItem)>, name: &String) -> (found: Option<usize>)
    ensures
        match found {
            Some(index) => index < children.len() && child_names(children@).index_of_first(name@)
                == Some(index as int),
            None => child_names(children@).index_of_first(name@) is None,
        },
{
    let ghost listed = child_names(children@);
    let mut k: usize = 0;
    while k < children.len()
        invariant
            k <= children.len(),
            listed == child_names(children@),
            forall|j: int| 0 <= j < k ==> listed[j] != name@,
        decreases children.len() - k,
    {
        if children[k].0.eq(name) {
            proof {
                assert(listed[k as int] == name@);
                assert(listed.contains(name@));
                listed.index_of_first_ensures(name@);
            }
            return Some(k);
        }
        k += 1;
    }
    proof {
        listed.index_of_first_ensures(name@);
        if listed.contains(name@) {
            let j = choose|j: int| 0 <= j < listed.len() && listed[j] == name@;
            assert(listed[j] != name@);
        }
    }
    None
}

impl VfsItem {
    /// What `path` leads to from this item.
    pub fn navigate(&self, path: &[String]) -> (found: Option<&VfsItem>)
        ensures
            match found {
                Some(item) => item_at(*self, segment_views(path@)) == Some(*item),
                None => item_at(*self, segment_views(path@)) is None,
            },
    {
        let ghost names = segment_views(path@);
        let mut location = self;
        let mut i: usize = 0;
        assert(names.skip(0) =~= names);
        while i < path.len()
            invariant
                i <= path.len(),
                names == segment_views(path@),
                item_at(*self, names) == item_at(*location, names.skip(i as int)),
            decreases path.len() - i,
        {
            proof {
                assert(names.skip(i as int)[0] == path@[i as int]@);
                assert(names.skip(i as int).skip(1) =~= names.skip(i as int + 1));
            }
            match location {
                VfsItem::File { .. } => {
                    return None;
                },
                VfsItem::Dir { children } => match child_position(children, &path[i]) {
                    Some(index) => {
                        location = &children[index].1;
                    },
                    None => {
                        return None;
                    },
                },
            }
            i += 1;
        }
        Some(location)
    }
}

/// The values of a directory's entries stand in the order of the entries.
pub proof fn lemma_entry_views(entries: Seq<(String, DiskNode)>)
    ensures
        entry_views(entries).len() == entries.len(),
        forall|k: int|
            0 <= k < entries.len() ==> #[trigger] entry_views(entries)[k] == (
                entries[k].0@,
                entries[k].1@,
            ),
    decreases entries.len(),
{
    if entries.len() > 0 {
        let front = entries.drop_last();
        lemma_entry_views(front);
        assert(entry_views(entries) == entry_views(front).push(
            (entries.last().0@, entries.last().1@),
        ));
        assert forall|k: int| 0 <= k < entries.len() implies #[trigger] entry_views(entries)[k] == (
            entries[k].0@,
            entries[k].1@,
        ) by {
            if k < front.len() {
                assert(front[k] == entries[k]);
            }
        }
    }
}

/// The values of a directory's children stand in the order of the
/// children.
pub proof fn lemma_children_views(children: Seq<(String, VfsItem)>)
    ensures
        children_views(children).len() == children.len(),
        forall|k: int|
            0 <= k < children.len() ==> #[trigger] children_views(children)[k] == (
                children[k].0@,
                children[k].1@,
            ),
    decreases children.len(),
{
    if children.len() > 0 {
        let front = children.drop_last();
        lemma_children_views(front);
        assert(children_views(children) == children_views(front).push(
            (children.last().0@, children.last().1@),
        ));
        assert forall|k: int| 0 <= k < children.len() implies #[trigger] children_views(
            children,
        )[k] == (children[k].0@, children[k].1@) by {
            if k < front.len() {
                assert(front[k] == children[k]);
            }
        }
    }
}

/// No two children of a directory's snapshot have the same name.
pub proof fn lemma_snapshot_names_are_distinct(entries: Seq<(Seq<char>, DiskView)>)
    ensures
        item_names(readable_children(entries)).no_duplicates(),
    decreases entries.len(),
{
    if entries.len() > 0 {
        lemma_snapshot_names_are_distinct(entries.drop_last());
        let before = readable_children(entries.drop_last());
        let names = item_names(before);
        if let Ok(item) = snapshot_of(entries.last().1) {
            let name = entries.last().0;
            names.index_of_first_ensures(name);
            let after = with_child(before, name, item);
            match names.index_of_first(name) {
                Some(index) => {
                    assert(item_names(after) =~= names);
                },
                None => {
                    assert(item_names(after) =~= names.push(name));
                    assert forall|i: int, j: int|
                        0 <= i < item_names(after).len() && 0 <= j < item_names(after).len() && i
                            != j implies item_names(after)[i] != item_names(after)[j] by {
                        if i == names.len() {
                            assert(names.contains(names[j]));
                        } else if j == names.len() {
                            assert(names.contains(names[i]));
                        }
                    }
                },
            }
        }
    }
}

} // verus!
