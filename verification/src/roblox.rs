//! The tree of instances.
//!
//! An instance has a name, details of its kind, and children by name. A
//! route is followed from an instance down through its children, one
//! segment for each step.

pub mod instance_types;

use crate::route::segment_views;
use instance_types::{RobloxFolder, RobloxLocalScript, RobloxModuleScript, RobloxServerScript};
use vstd::pervasive::VecAdditionalExecFns;
use vstd::prelude::*;
use vstd::slice::slice_subrange;
use vstd::string::StringExecFns;

verus! {

/// The details of an instance, by its kind.
#[derive(Debug, PartialEq, Eq)]
pub enum InstanceDetails {
    Folder(RobloxFolder),
    ModuleScript(RobloxModuleScript),
    ServerScript(RobloxServerScript),
    LocalScript(RobloxLocalScript),
    Unknown,
}

/// An instance and all that is beneath it.
#[derive(Debug, PartialEq, Eq)]
pub struct Instance {
    pub name: String,
    pub children: InstanceMap,
    pub details: InstanceDetails,
}

/// Instances by name. A name stands for one instance at most.
#[derive(Debug, PartialEq, Eq)]
pub struct InstanceMap {
    entries: Vec<(String, Instance)>,
}

/// The names under which `entries` are held, in order.
pub open spec fn entry_names(entries: Seq<(String, Instance)>) -> Seq<Seq<char>> {
    entries.map_values(|entry: (String, Instance)| entry.0@)
}

/// What `entries` hold by name: under each name the first entry that has it.
pub open spec fn entries_map(entries: Seq<(String, Instance)>) -> Map<Seq<char>, Instance> {
    Map::new(
        |name: Seq<char>| entry_names(entries).contains(name),
        |name: Seq<char>| entries[entry_names(entries).index_of_first(name).unwrap()].1,
    )
}

impl View for InstanceMap {
    type V = Map<Seq<char>, Instance>;

    closed spec fn view(&self) -> Map<Seq<char>, Instance> {
        entries_map(self.entries@)
    }
}

/// Where the first entry called `name` stands in `entries`.
fn position_of(entries: &Vec<(String, Instance)>, name: &str) -> (found: Option<usize>)
    ensures
        match found {
            Some(index) => {
                &&& index < entries.len()
                &&& entries@[index as int].0@ == name@
                &&& entry_names(entries@).contains(name@)
                &&& entry_names(entries@).index_of_first(name@) == Some(index as int)
            },
            None => !entry_names(entries@).contains(name@),
        },
{
    let ghost names = entry_names(entries@);
    let wanted = String::from_str(name);
    let mut i: usize = 0;
    while i < entries.len()
        invariant
            i <= entries.len(),
            wanted@ == name@,
            names == entry_names(entries@),
            forall|k: int| 0 <= k < i ==> names[k] != name@,
        decreases entries.len() - i,
    {
        if entries[i].0.eq(&wanted) {
            proof {
                names.index_of_first_ensures(name@);
                assert(names[i as int] == name@);
                assert(names.contains(name@));
            }
            return Some(i);
        }
        i += 1;
    }
    proof {
        if names.contains(name@) {
            let k = choose|k: int| 0 <= k < names.len() && names[k] == name@;
            assert(names[k] != name@);
        }
    }
    None
}

impl InstanceMap {
    /// The map that holds nothing.
    pub fn new() -> (map: InstanceMap)
        ensures
            map@ == Map::<Seq<char>, Instance>::empty(),
    {
        let map = InstanceMap { entries: Vec::new() };
        assert(map@ =~= Map::empty());
        map
    }

    /// Whether an instance is held under `name`.
    pub fn contains_key(&self, name: &str) -> (found: bool)
        ensures
            found == self@.contains_key(name@),
    {
        position_of(&self.entries, name).is_some()
    }

    /// The instance that is held under `name`.
    pub fn get(&self, name: &str) -> (found: Option<&Instance>)
        ensures
            match found {
                Some(instance) => self@.contains_key(name@) && *instance == self@[name@],
                None => !self@.contains_key(name@),
            },
    {
        match position_of(&self.entries, name) {
            Some(index) => Some(&self.entries[index].1),
            None => None,
        }
    }

    /// The instance that is held under `name`, to be changed in place.
    pub fn get_mut(&mut self, name: &str) -> (found: Option<&mut Instance>)
        ensures
            match found {
                Some(instance) => {
                    &&& old(self)@.contains_key(name@)
                    &&& *instance == old(self)@[name@]
                    &&& final(self)@ == old(self)@.insert(name@, *final(instance))
                },
                None => !old(self)@.contains_key(name@) && *final(self) == *old(self),
            },
    {
        match position_of(&self.entries, name) {
            Some(index) => {
                let ghost before = self.entries@;
                let instance = &mut self.entries[index].1;
                proof {
                    lemma_value_replaced(before, index as int, *final(instance));
                }
                Some(instance)
            },
            None => None,
        }
    }

    /// Holds `instance` under `name` from now on, in place of what was held
    /// under it before.
    pub fn insert(&mut self, name: String, instance: Instance)
        ensures
            final(self)@ == old(self)@.insert(name@, instance),
    {
        let ghost before = self.entries@;
        let ghost names = entry_names(before);
        match position_of(&self.entries, name.as_str()) {
            Some(index) => {
                let ghost key = name@;
                self.entries.set(index, (name, instance));
                proof {
                    let after = self.entries@;
                    assert(entry_names(after) =~= names);
                    assert forall|other: Seq<char>| names.contains(other) implies #[trigger] entries_map(
                        after,
                    )[other] == entries_map(before).insert(key, instance)[other] by {
                        names.index_of_first_ensures(other);
                    }
                    assert(entries_map(after) =~= entries_map(before).insert(key, instance));
                }
            },
            None => {
                let ghost key = name@;
                self.entries.push((name, instance));
                proof {
                    let after = self.entries@;
                    let grown = entry_names(after);
                    assert(grown =~= names.push(key));
                    assert(grown[names.len() as int] == key);
                    assert forall|other: Seq<char>| grown.contains(other) implies #[trigger] entries_map(
                        after,
                    )[other] == entries_map(before).insert(key, instance)[other] by {
                        grown.index_of_first_ensures(other);
                        names.index_of_first_ensures(other);
                        let found = grown.index_of_first(other).unwrap();
                        if other != key {
                            assert(found < names.len());
                            assert(names[found] == other);
                            assert(names.contains(other));
                            let first = names.index_of_first(other).unwrap();
                            assert(grown[first] == other);
                        }
                    }
                    assert forall|other: Seq<char>| grown.contains(other) <==> (other == key
                        || names.contains(other)) by {
                        if grown.contains(other) {
                            let k = choose|k: int| 0 <= k < grown.len() && grown[k] == other;
                            if k < names.len() {
                                assert(names[k] == other);
                            }
                        }
                        if names.contains(other) {
                            let k = choose|k: int| 0 <= k < names.len() && names[k] == other;
                            assert(grown[k] == other);
                        }
                    }
                    assert(entries_map(after) =~= entries_map(before).insert(key, instance));
                }
            },
        }
    }
}

/// Replacing the instance of the first entry of a name replaces what the
/// name stands for, and nothing else.
proof fn lemma_value_replaced(entries: Seq<(String, Instance)>, index: int, instance: Instance)
    requires
        0 <= index < entries.len(),
        entry_names(entries).index_of_first(entries[index].0@) == Some(index),
    ensures
        entries_map(entries.update(index, (entries[index].0, instance))) == entries_map(
            entries,
        ).insert(entries[index].0@, instance),
{
    let names = entry_names(entries);
    let key = entries[index].0@;
    let after = entries.update(index, (entries[index].0, instance));
    assert(entry_names(after) =~= names);
    assert(names[index] == key);
    assert(names.contains(key));
    assert forall|other: Seq<char>| names.contains(other) implies #[trigger] entries_map(after)[other]
        == entries_map(entries).insert(key, instance)[other] by {
        names.index_of_first_ensures(other);
    }
    assert(entries_map(after) =~= entries_map(entries).insert(key, instance));
}

/// The instance that `route` leads to from `instance`, one child for each
/// segment.
pub open spec fn descend(instance: Instance, route: Seq<Seq<char>>) -> Option<Instance>
    decreases route.len(),
{
    if route.len() == 0 {
        Some(instance)
    } else if instance.children@.contains_key(route[0]) {
        descend(instance.children@[route[0]], route.skip(1))
    } else {
        None
    }
}

/// Whether `after` is `before` with the instance that `route` leads to
/// replaced by `replacement`, and nothing else changed.
pub open spec fn grafted(
    before: Instance,
    after: Instance,
    route: Seq<Seq<char>>,
    replacement: Instance,
) -> bool
    decreases route.len(),
{
    if route.len() == 0 {
        after == replacement
    } else {
        &&& before.children@.contains_key(route[0])
        &&& after.name == before.name
        &&& after.details == before.details
        &&& after.children@.contains_key(route[0])
        &&& after.children@ == before.children@.insert(route[0], after.children@[route[0]])
        &&& grafted(
            before.children@[route[0]],
            after.children@[route[0]],
            route.skip(1),
            replacement,
        )
    }
}

impl Instance {
    /// An instance without children.
    pub fn new(name: &str, details: InstanceDetails) -> (instance: Instance)
        ensures
            instance.name@ == name@,
            instance.children@ == Map::<Seq<char>, Instance>::empty(),
            instance.details == details,
    {
        Instance { name: String::from_str(name), children: InstanceMap::new(), details }
    }

    /// Makes `child` a child of this instance, under its own name.
    pub fn add_child(&mut self, child: Instance)
        ensures
            final(self).children@ == old(self).children@.insert(child.name@, child),
            final(self).name == old(self).name,
            final(self).details == old(self).details,
    {
        self.children.insert(child.name.clone(), child);
    }

    /// The instance that `route` leads to from this one.
    pub fn navigate(&self, route: &[String]) -> (found: Option<&Instance>)
        ensures
            match found {
                Some(instance) => descend(*self, segment_views(route@)) == Some(*instance),
                None => descend(*self, segment_views(route@)) is None,
            },
    {
        let ghost segments = segment_views(route@);
        let mut current = self;
        let mut i: usize = 0;
        assert(segments.skip(0) =~= segments);
        while i < route.len()
            invariant
                i <= route.len(),
                segments == segment_views(route@),
                descend(*self, segments) == descend(*current, segments.skip(i as int)),
            decreases route.len() - i,
        {
            proof {
                assert(segments.skip(i as int)[0] == route@[i as int]@);
                assert(segments.skip(i as int).skip(1) =~= segments.skip(i as int + 1));
            }
            match current.children.get(route[i].as_str()) {
                Some(child) => {
                    current = child;
                },
                None => {
                    return None;
                },
            }
            i += 1;
        }
        Some(current)
    }

    /// The instance that `route` leads to from this one, to be changed in
    /// place: what is changed in it is changed in the tree, and nothing
    /// else is. Where the route leads nowhere, the tree stays as it is.
    pub fn navigate_mut(&mut self, route: &[String]) -> (found: Option<&mut Instance>)
        ensures
            match found {
                Some(instance) => {
                    &&& descend(*old(self), segment_views(route@)) == Some(*instance)
                    &&& grafted(*old(self), *final(self), segment_views(route@), *final(instance))
                },
                None => {
                    &&& descend(*old(self), segment_views(route@)) is None
                    &&& *final(self) == *old(self)
                },
            },
    {
        if self.navigate(route).is_none() {
            None
        } else {
            self.descend_mut(route)
        }
    }

    /// The instance that `route` leads to from this one, to be changed in
    /// place, for a route that leads somewhere.
    fn descend_mut(&mut self, route: &[String]) -> (found: Option<&mut Instance>)
        requires
            descend(*old(self), segment_views(route@)) is Some,
        ensures
            found matches Some(instance) && descend(*old(self), segment_views(route@)) == Some(
                *instance,
            ) && grafted(*old(self), *final(self), segment_views(route@), *final(instance)),
        decreases route.len(),
    {
        if route.len() == 0 {
            return Some(self);
        }
        let ghost segments = segment_views(route@);
        let rest = slice_subrange(route, 1, route.len());
        proof {
            assert(segment_views(rest@) =~= segments.skip(1));
            assert(segments[0] == route@[0]@);
        }
        match self.children.get_mut(route[0].as_str()) {
            Some(child) => child.descend_mut(rest),
            None => None,
        }
    }
}

} // verus!
