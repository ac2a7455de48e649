//! Routes: locations in the virtual namespace.
//!
//! A route is a list of segments. The first names a partition, the others
//! lead from the partition's root to an entry beneath it.

use crate::pathext::{
    collapse, collapse_components, component_views, is_absolute, normal_names, Component,
    ComponentView, FsPath,
};
use crate::vfs::VfsError;
use vstd::prelude::*;

verus! {

/// A route, segment by segment.
#[derive(Debug, PartialEq, Eq, Hash, Clone)]
pub struct RbxPath(pub Vec<String>);

/// The values of a list of segments.
pub open spec fn segment_views(segments: Seq<String>) -> Seq<Seq<char>> {
    segments.map_values(|segment: String| segment@)
}

impl View for RbxPath {
    type V = Seq<Seq<char>>;

    open spec fn view(&self) -> Seq<Seq<char>> {
        segment_views(self.0@)
    }
}

/// The route that leads from `root` to `path`, where `path` is absolute and
/// lies at or beneath `root` once both are collapsed.
pub open spec fn route_beneath(
    root: Seq<ComponentView>,
    path: Seq<ComponentView>,
) -> Option<Seq<Seq<char>>> {
    let from = collapse_components(root);
    let to = collapse_components(path);
    if is_absolute(to) && from.is_prefix_of(to) {
        Some(normal_names(to.skip(from.len() as int)))
    } else {
        None
    }
}

/// The route that begins with `first` and goes on with `rest`.
pub fn route_from(first: &String, rest: &[String]) -> (route: Vec<String>)
    ensures
        segment_views(route@) == seq![first@] + segment_views(rest@),
{
    let mut route: Vec<String> = Vec::new();
    route.push(first.clone());
    let ghost head = segment_views(route@);
    let ghost tail = segment_views(rest@);
    assert(head =~= seq![first@]);
    let mut i: usize = 0;
    while i < rest.len()
        invariant
            i <= rest.len(),
            tail == segment_views(rest@),
            segment_views(route@) == head + tail.take(i as int),
        decreases rest.len() - i,
    {
        let ghost before = segment_views(route@);
        let segment = rest[i].clone();
        route.push(segment);
        proof {
            assert(segment_views(route@) =~= before.push(segment@));
            assert(tail.take(i as int + 1) =~= tail.take(i as int).push(tail[i as int]));
            assert(head + tail.take(i as int + 1) =~= (head + tail.take(i as int)).push(
                tail[i as int],
            ));
        }
        i += 1;
    }
    proof {
        assert(tail.take(tail.len() as int) =~= tail);
    }
    route
}

/// The names of the named entries among `components`, in order.
pub fn names_of(components: &Vec<Component>) -> (names: Vec<String>)
    ensures
        segment_views(names@) == normal_names(component_views(components@)),
{
    let mut names: Vec<String> = Vec::new();
    let mut i: usize = 0;
    let ghost views = component_views(components@);
    while i < components.len()
        invariant
            i <= components.len(),
            views == component_views(components@),
            segment_views(names@) == normal_names(views.take(i as int)),
        decreases components.len() - i,
    {
        proof {
            assert(views.take(i as int + 1).drop_last() =~= views.take(i as int));
        }
        match &components[i] {
            Component::Normal(name) => {
                let ghost before = segment_views(names@);
                let copy = name.clone();
                names.push(copy);
                assert(segment_views(names@) =~= before.push(name@));
            },
            _ => {},
        }
        i += 1;
    }
    proof {
        assert(views.take(views.len() as int) =~= views);
    }
    names
}

/// The route from `base` to `path`.
///
/// Both are collapsed first. The route is owed where `path` is then absolute
/// and begins with `base`; it holds the names behind `base`. Any other
/// `path` is not contained in `base`.
pub fn path_to_rbx_path(base: &FsPath, path: &FsPath) -> (route: Result<RbxPath, VfsError>)
    ensures
        match route {
            Ok(found) => route_beneath(base@, path@) == Some(found@),
            Err(error) => error == VfsError::NotContained && route_beneath(base@, path@) is None,
        },
{
    let from = collapse(base);
    let to = collapse(path);
    if !to.is_absolute() {
        return Err(VfsError::NotContained);
    }
    match to.strip_prefix(&from) {
        Some(rest) => Ok(RbxPath(names_of(rest.components()))),
        None => Err(VfsError::NotContained),
    }
}

/// The route from `root` to `source`, for a `source` that is absolute,
/// begins with `root`, and names an entry in every component behind it.
pub fn get_net_path(root: &FsPath, source: &FsPath) -> (result: Vec<String>)
    requires
        is_absolute(source@),
        root@.is_prefix_of(source@),
        forall|i: int| root@.len() <= i < source@.len() ==> #[trigger] source@[i] is Normal,
    ensures
        segment_views(result@) == normal_names(source@.skip(root@.len() as int)),
        result@.len() == source@.len() - root@.len(),
{
    match source.strip_prefix(root) {
        Some(relative) => {
            proof {
                lemma_all_named(relative@);
            }
            names_of(relative.components())
        },
        None => Vec::new(),
    }
}

/// Where every component names an entry, there are as many names as
/// components.
pub proof fn lemma_all_named(components: Seq<ComponentView>)
    requires
        forall|i: int| 0 <= i < components.len() ==> #[trigger] components[i] is Normal,
    ensures
        normal_names(components).len() == components.len(),
        forall|i: int|
            0 <= i < components.len() ==> ComponentView::Normal(
                #[trigger] normal_names(components)[i],
            ) == components[i],
    decreases components.len(),
{
    if components.len() > 0 {
        let front = components.drop_last();
        assert forall|i: int| 0 <= i < front.len() implies #[trigger] front[i] is Normal by {
            assert(front[i] == components[i]);
        }
        lemma_all_named(front);
        assert(components[components.len() - 1] is Normal);
    }
}

} // verus!
