//! Filesystem paths as sequences of components.
//!
//! A path is written with `/` between its parts. It is held as the list of
//! its components, so that two spellings of one location (`a//b` and `a/b`)
//! are one value, and so that collapsing `.` and `..` is a plain function on
//! lists.

pub mod laws;

use laws::{lemma_classify_proper, lemma_collapse_is_collapsed};
use vstd::prelude::*;
use vstd::string::StringExecFns;

verus! {

/// One component of a path.
#[derive(Debug, PartialEq, Eq)]
pub enum Component {
    /// The root of the filesystem: a leading separator.
    RootDir,
    /// The current directory, written `.`.
    CurDir,
    /// The parent directory, written `..`.
    ParentDir,
    /// A named entry.
    Normal(String),
}

/// The mathematical value of a [`Component`].
pub enum ComponentView {
    RootDir,
    CurDir,
    ParentDir,
    Normal(Seq<char>),
}

impl View for Component {
    type V = ComponentView;

    open spec fn view(&self) -> ComponentView {
        match self {
            Component::RootDir => ComponentView::RootDir,
            Component::CurDir => ComponentView::CurDir,
            Component::ParentDir => ComponentView::ParentDir,
            Component::Normal(name) => ComponentView::Normal(name@),
        }
    }
}

impl Clone for Component {
    fn clone(&self) -> (copy: Component)
        ensures
            copy@ == self@,
    {
        match self {
            Component::RootDir => Component::RootDir,
            Component::CurDir => Component::CurDir,
            Component::ParentDir => Component::ParentDir,
            Component::Normal(name) => Component::Normal(name.clone()),
        }
    }
}

/// The character that separates the parts of a written path.
pub open spec fn separator() -> char {
    '/'
}

/// Whether `name` can be the name of an entry: it is not empty, holds no
/// separator, and is neither `.` nor `..`.
pub open spec fn proper_name(name: Seq<char>) -> bool {
    &&& name.len() > 0
    &&& !name.contains(separator())
    &&& name != seq!['.']
    &&& name != seq!['.', '.']
}

/// Whether `components` is a path in the shape that parsing produces: the
/// root stands only in front, and every name is proper.
pub open spec fn well_formed(components: Seq<ComponentView>) -> bool {
    &&& forall|i: int|
        0 < i < components.len() ==> !(#[trigger] components[i] is RootDir)
    &&& forall|i: int|
        0 <= i < components.len() ==> (#[trigger] components[i] matches ComponentView::Normal(name)
            ==> proper_name(name))
}

/// The pieces of `text` between its separators, empty ones included. A text
/// with `n` separators has `n + 1` pieces.
pub open spec fn split_pieces(text: Seq<char>) -> Seq<Seq<char>>
    decreases text.len(),
{
    if text.len() == 0 {
        seq![Seq::empty()]
    } else {
        let before = split_pieces(text.drop_last());
        if text.last() == separator() {
            before.push(Seq::empty())
        } else {
            before.drop_last().push(before.last().push(text.last()))
        }
    }
}

/// The component that a non-empty piece stands for.
pub open spec fn classify(piece: Seq<char>) -> ComponentView {
    if piece == seq!['.'] {
        ComponentView::CurDir
    } else if piece == seq!['.', '.'] {
        ComponentView::ParentDir
    } else {
        ComponentView::Normal(piece)
    }
}

/// The components that `pieces` stand for: empty pieces stand for nothing.
pub open spec fn named_components(pieces: Seq<Seq<char>>) -> Seq<ComponentView>
    decreases pieces.len(),
{
    if pieces.len() == 0 {
        Seq::empty()
    } else {
        let before = named_components(pieces.drop_last());
        if pieces.last().len() == 0 {
            before
        } else {
            before.push(classify(pieces.last()))
        }
    }
}

/// Whether a written path starts at the root.
pub open spec fn starts_at_root(text: Seq<char>) -> bool {
    text.len() > 0 && text[0] == separator()
}

/// The components of a written path. A leading separator is the root;
/// repeated and trailing separators count for nothing.
pub open spec fn parse_components(text: Seq<char>) -> Seq<ComponentView> {
    let named = named_components(split_pieces(text));
    if starts_at_root(text) {
        seq![ComponentView::RootDir] + named
    } else {
        named
    }
}

/// Whether a path starts at the root.
pub open spec fn is_absolute(components: Seq<ComponentView>) -> bool {
    components.len() > 0 && components[0] is RootDir
}

/// `relative` taken from `base`: an absolute path stands for itself, any
/// other is appended to `base`.
pub open spec fn join_components(
    base: Seq<ComponentView>,
    relative: Seq<ComponentView>,
) -> Seq<ComponentView> {
    if is_absolute(relative) {
        relative
    } else {
        base + relative
    }
}

/// What one component does to the components collected so far: `.` does
/// nothing, `..` takes the last one away, or stays where there is none, and
/// anything else is added.
pub open spec fn collapse_step(
    buffer: Seq<ComponentView>,
    component: ComponentView,
) -> Seq<ComponentView> {
    match component {
        ComponentView::CurDir => buffer,
        ComponentView::ParentDir => if buffer.len() > 0 {
            buffer.drop_last()
        } else {
            buffer.push(component)
        },
        _ => buffer.push(component),
    }
}

/// A path with its `.` and `..` resolved from left to right.
pub open spec fn collapse_components(components: Seq<ComponentView>) -> Seq<ComponentView>
    decreases components.len(),
{
    if components.len() == 0 {
        Seq::empty()
    } else {
        collapse_step(collapse_components(components.drop_last()), components.last())
    }
}

/// Whether nothing is left to collapse: no `.` anywhere, and `..` only in
/// front.
pub open spec fn is_collapsed(components: Seq<ComponentView>) -> bool {
    &&& forall|i: int| 0 <= i < components.len() ==> !(#[trigger] components[i] is CurDir)
    &&& forall|i: int| 0 < i < components.len() ==> !(#[trigger] components[i] is ParentDir)
}

/// The names of the named entries of a path, in order.
pub open spec fn normal_names(components: Seq<ComponentView>) -> Seq<Seq<char>>
    decreases components.len(),
{
    if components.len() == 0 {
        Seq::empty()
    } else {
        let before = normal_names(components.drop_last());
        match components.last() {
            ComponentView::Normal(name) => before.push(name),
            _ => before,
        }
    }
}

/// How a component is written.
pub open spec fn component_text(component: ComponentView) -> Seq<char> {
    match component {
        ComponentView::RootDir => seq![separator()],
        ComponentView::CurDir => seq!['.'],
        ComponentView::ParentDir => seq!['.', '.'],
        ComponentView::Normal(name) => name,
    }
}

/// How a path is written: its components with a separator between each
/// two, and none behind the root.
pub open spec fn render_components(components: Seq<ComponentView>) -> Seq<char>
    decreases components.len(),
{
    if components.len() == 0 {
        Seq::empty()
    } else {
        let before = render_components(components.drop_last());
        if components.last() is RootDir {
            seq![separator()]
        } else if before.len() == 0 || before.last() == separator() {
            before + component_text(components.last())
        } else {
            before.push(separator()) + component_text(components.last())
        }
    }
}

/// A written path, collapsed and written again.
pub open spec fn normalized(text: Seq<char>) -> Seq<char> {
    render_components(collapse_components(parse_components(text)))
}

/// The component that the non-empty text `piece` stands for.
fn component_of(piece: String) -> (component: Component)
    requires
        piece@.len() > 0,
    ensures
        component@ == classify(piece@),
{
    let length = piece.as_str().unicode_len();
    if length == 1 && piece.as_str().get_char(0) == '.' {
        assert(piece@ =~= seq!['.']);
        Component::CurDir
    } else if length == 2 && piece.as_str().get_char(0) == '.' && piece.as_str().get_char(1)
        == '.' {
        assert(piece@ =~= seq!['.', '.']);
        Component::ParentDir
    } else {
        assert(piece@ != seq!['.']) by {
            if piece@ == seq!['.'] {
                assert(seq!['.'].len() == 1);
                assert(seq!['.'][0] == '.');
            }
        }
        assert(piece@ != seq!['.', '.']) by {
            if piece@ == seq!['.', '.'] {
                assert(seq!['.', '.'].len() == 2);
                assert(seq!['.', '.'][0] == '.');
                assert(seq!['.', '.'][1] == '.');
            }
        }
        Component::Normal(piece)
    }
}

/// The values of a list of components.
pub open spec fn component_views(components: Seq<Component>) -> Seq<ComponentView> {
    components.map_values(|c: Component| c@)
}

/// A path: the list of its components.
#[derive(Debug, PartialEq, Eq)]
pub struct FsPath {
    components: Vec<Component>,
}

impl View for FsPath {
    type V = Seq<ComponentView>;

    closed spec fn view(&self) -> Seq<ComponentView> {
        component_views(self.components@)
    }
}

impl FsPath {
    /// Every path is well formed.
    #[verifier::type_invariant]
    pub open spec fn inv(self) -> bool {
        well_formed(self@)
    }

    /// Reads a written path.
    pub fn parse(text: &str) -> (path: FsPath)
        ensures
            path@ == parse_components(text@),
    {
        let mut components: Vec<Component> = Vec::new();
        let mut current = String::new();
        let ghost mut done: Seq<Seq<char>> = Seq::empty();
        let ghost lead: Seq<ComponentView> = if starts_at_root(text@) {
            seq![ComponentView::RootDir]
        } else {
            Seq::empty()
        };
        if text.unicode_len() > 0 && text.get_char(0) == '/' {
            components.push(Component::RootDir);
        }
        proof {
            assert(text@.take(0) =~= Seq::empty());
            assert(done.push(current@) =~= seq![Seq::empty()]);
            assert(component_views(components@) =~= lead + named_components(done));
        }
        for c in it: text.chars()
            invariant
                it.seq() == text@,
                split_pieces(text@.take(it.index() as int)) == done.push(current@),
                !current@.contains(separator()),
                component_views(components@) == lead + named_components(done),
                lead.len() <= 1,
                well_formed(component_views(components@)),
        {
            proof {
                let grown = text@.take(it.index() as int + 1);
                assert(grown.drop_last() =~= text@.take(it.index() as int));
                assert(grown.last() == c);
            }
            if c == '/' {
                proof {
                    assert(done.push(current@).drop_last() =~= done);
                    done = done.push(current@);
                }
                if current.as_str().unicode_len() > 0 {
                    proof {
                        lemma_classify_proper(current@);
                    }
                    let ghost before = component_views(components@);
                    let component = component_of(current);
                    components.push(component);
                    assert(component_views(components@) =~= before.push(component@));
                }
                current = String::new();
            } else {
                let ghost before = current@;
                current.push(c);
                proof {
                    assert(done.push(before).drop_last() =~= done);
                    assert forall|k: int| 0 <= k < current@.len() implies current@[k]
                        != separator() by {
                        if k < before.len() {
                            assert(before.contains(current@[k]));
                        }
                    }
                }
            }
        }
        proof {
            assert(text@.take(text@.len() as int) =~= text@);
            assert(done.push(current@).drop_last() =~= done);
        }
        if current.as_str().unicode_len() > 0 {
            proof {
                lemma_classify_proper(current@);
            }
            let ghost before = component_views(components@);
            let component = component_of(current);
            components.push(component);
            assert(component_views(components@) =~= before.push(component@));
        }
        FsPath { components }
    }

    /// The path without components.
    pub fn new() -> (path: FsPath)
        ensures
            path@ == Seq::<ComponentView>::empty(),
    {
        FsPath { components: Vec::new() }
    }

    /// The number of components.
    pub fn len(&self) -> (count: usize)
        ensures
            count == self@.len(),
    {
        self.components.len()
    }

    /// The components, in order.
    pub fn components(&self) -> (components: &Vec<Component>)
        ensures
            component_views(components@) == self@,
            well_formed(self@),
    {
        proof {
            use_type_invariant(self);
        }
        &self.components
    }

    /// The name of the entry that the path leads to: its last component,
    /// where that names an entry.
    pub fn file_name(&self) -> (name: Option<&String>)
        ensures
            match name {
                Some(found) => self@.len() > 0 && self@.last() == ComponentView::Normal(found@),
                None => self@.len() == 0 || !(self@.last() is Normal),
            },
    {
        let count = self.components.len();
        if count == 0 {
            return None;
        }
        match &self.components[count - 1] {
            Component::Normal(name) => Some(name),
            _ => None,
        }
    }

    /// Whether the path starts at the root.
    pub fn is_absolute(&self) -> (absolute: bool)
        ensures
            absolute == is_absolute(self@),
    {
        self.components.len() > 0 && matches!(self.components[0], Component::RootDir)
    }

    /// `relative` taken from this path: an absolute path replaces it, any
    /// other is appended to it.
    pub fn join(&self, relative: &FsPath) -> (joined: FsPath)
        ensures
            joined@ == join_components(self@, relative@),
    {
        proof {
            use_type_invariant(self);
            use_type_invariant(relative);
        }
        if relative.is_absolute() {
            relative.clone()
        } else {
            let mut components = copy_components(&self.components);
            let mut i: usize = 0;
            while i < relative.components.len()
                invariant
                    i <= relative.components.len(),
                    component_views(components@) == self@ + relative@.take(i as int),
                    well_formed(self@),
                    well_formed(relative@),
                    !is_absolute(relative@),
                decreases relative.components.len() - i,
            {
                let ghost before = component_views(components@);
                let component = relative.components[i].clone();
                components.push(component);
                proof {
                    assert(component_views(components@) =~= before.push(component@));
                    assert(relative@.take(i as int + 1) =~= relative@.take(i as int).push(
                        relative@[i as int],
                    ));
                    assert(self@ + relative@.take(i as int + 1) =~= (self@ + relative@.take(
                        i as int,
                    )).push(relative@[i as int]));
                }
                i += 1;
            }
            proof {
                assert(relative@.take(relative@.len() as int) =~= relative@);
                let joined = self@ + relative@;
                assert forall|k: int| 0 < k < joined.len() implies !(#[trigger] joined[k] is RootDir) by {
                    if k >= self@.len() {
                        assert(joined[k] == relative@[k - self@.len()]);
                    }
                }
                assert forall|k: int| 0 <= k < joined.len() implies (#[trigger] joined[k] matches ComponentView::Normal(
                    name,
                ) ==> proper_name(name)) by {
                    if k >= self@.len() {
                        assert(joined[k] == relative@[k - self@.len()]);
                    }
                }
            }
            FsPath { components }
        }
    }

    /// The path as it is written.
    pub fn to_string(&self) -> (text: String)
        ensures
            text@ == render_components(self@),
    {
        proof {
            use_type_invariant(self);
        }
        let mut text = String::new();
        let mut open = true;
        let mut i: usize = 0;
        while i < self.components.len()
            invariant
                i <= self.components.len(),
                well_formed(self@),
                text@ == render_components(self@.take(i as int)),
                open == (text@.len() == 0 || text@.last() == separator()),
            decreases self.components.len() - i,
        {
            proof {
                assert(self@.take(i as int + 1).drop_last() =~= self@.take(i as int));
                assert(self@.take(i as int + 1).last() == self@[i as int]);
            }
            let ghost before = text@;
            match &self.components[i] {
                Component::RootDir => {
                    text = String::new();
                    text.push('/');
                    assert(text@ =~= seq![separator()]);
                    open = true;
                },
                Component::CurDir => {
                    if !open {
                        text.push('/');
                    }
                    text.push('.');
                    assert(text@ =~= (if open {
                        before
                    } else {
                        before.push(separator())
                    }) + seq!['.']);
                    open = false;
                },
                Component::ParentDir => {
                    if !open {
                        text.push('/');
                    }
                    text.push('.');
                    text.push('.');
                    assert(text@ =~= (if open {
                        before
                    } else {
                        before.push(separator())
                    }) + seq!['.', '.']);
                    open = false;
                },
                Component::Normal(name) => {
                    if !open {
                        text.push('/');
                    }
                    text.append(name.as_str());
                    proof {
                        assert(self@[i as int] == ComponentView::Normal(name@));
                        assert(proper_name(name@));
                        assert(text@.last() == name@.last());
                        assert(name@.contains(name@.last()));
                    }
                    open = false;
                },
            }
            i += 1;
        }
        proof {
            assert(self@.take(self@.len() as int) =~= self@);
        }
        text
    }

    /// Whether this path begins with all of `base`, component by component.
    pub fn starts_with(&self, base: &FsPath) -> (found: bool)
        ensures
            found == base@.is_prefix_of(self@),
    {
        if base.components.len() > self.components.len() {
            return false;
        }
        let mut i: usize = 0;
        while i < base.components.len()
            invariant
                i <= base.components.len() <= self.components.len(),
                forall|k: int| 0 <= k < i ==> self@[k] == base@[k],
            decreases base.components.len() - i,
        {
            if !same_component(&self.components[i], &base.components[i]) {
                assert(self@[i as int] != base@[i as int]);
                return false;
            }
            i += 1;
        }
        assert(base@ =~= self@.subrange(0, base@.len() as int));
        true
    }

    /// What is left of this path behind `base`, if it begins with `base`.
    pub fn strip_prefix(&self, base: &FsPath) -> (rest: Option<FsPath>)
        ensures
            rest is Some <==> base@.is_prefix_of(self@),
            rest matches Some(path) ==> path@ == self@.skip(base@.len() as int),
    {
        proof {
            use_type_invariant(self);
        }
        if !self.starts_with(base) {
            return None;
        }
        let mut components: Vec<Component> = Vec::new();
        let mut i: usize = base.components.len();
        while i < self.components.len()
            invariant
                base.components.len() <= i <= self.components.len(),
                component_views(components@) == self@.subrange(base@.len() as int, i as int),
            decreases self.components.len() - i,
        {
            let ghost before = component_views(components@);
            let component = self.components[i].clone();
            components.push(component);
            proof {
                assert(component_views(components@) =~= before.push(component@));
                assert(self@.subrange(base@.len() as int, i as int + 1) =~= self@.subrange(
                    base@.len() as int,
                    i as int,
                ).push(self@[i as int]));
            }
            i += 1;
        }
        proof {
            let rest = self@.skip(base@.len() as int);
            assert(self@.subrange(base@.len() as int, self@.len() as int) =~= rest);
        }
        Some(FsPath { components })
    }
}

impl Clone for FsPath {
    fn clone(&self) -> (copy: FsPath)
        ensures
            copy@ == self@,
    {
        proof {
            use_type_invariant(self);
        }
        FsPath { components: copy_components(&self.components) }
    }
}

/// A copy of a list of components.
fn copy_components(components: &Vec<Component>) -> (copy: Vec<Component>)
    ensures
        component_views(copy@) == component_views(components@),
{
    let mut copy: Vec<Component> = Vec::new();
    let mut i: usize = 0;
    while i < components.len()
        invariant
            i <= components.len(),
            component_views(copy@) == component_views(components@).take(i as int),
        decreases components.len() - i,
    {
        let ghost before = component_views(copy@);
        let component = components[i].clone();
        copy.push(component);
        proof {
            assert(component_views(copy@) =~= before.push(component@));
            assert(component_views(components@).take(i as int + 1) =~= component_views(
                components@,
            ).take(i as int).push(components@[i as int]@));
        }
        i += 1;
    }
    proof {
        assert(component_views(components@).take(components@.len() as int) =~= component_views(
            components@,
        ));
    }
    copy
}

/// Whether two components are the same.
pub fn same_component(left: &Component, right: &Component) -> (same: bool)
    ensures
        same == (left@ == right@),
{
    match (left, right) {
        (Component::RootDir, Component::RootDir) => true,
        (Component::CurDir, Component::CurDir) => true,
        (Component::ParentDir, Component::ParentDir) => true,
        (Component::Normal(a), Component::Normal(b)) => a.eq(b),
        _ => false,
    }
}

/// Turns `value` into an absolute path, taking it from `root` where it is
/// not absolute already.
pub fn absoluteify(root: &FsPath, value: &FsPath) -> (path: FsPath)
    ensures
        path@ == join_components(root@, value@),
        is_absolute(root@) || is_absolute(value@) ==> is_absolute(path@),
{
    if value.is_absolute() {
        value.clone()
    } else {
        root.join(value)
    }
}

/// Collapses any `.` along with any `..` that has something on its left to
/// take away.
pub fn collapse(value: &FsPath) -> (path: FsPath)
    ensures
        path@ == collapse_components(value@),
        is_collapsed(path@),
{
    proof {
        use_type_invariant(value);
    }
    let mut buffer: Vec<Component> = Vec::new();
    let mut i: usize = 0;
    while i < value.components.len()
        invariant
            i <= value.components.len(),
            component_views(buffer@) == collapse_components(value@.take(i as int)),
        decreases value.components.len() - i,
    {
        let ghost before = component_views(buffer@);
        proof {
            assert(value@.take(i as int + 1).drop_last() =~= value@.take(i as int));
        }
        match &value.components[i] {
            Component::CurDir => {},
            Component::ParentDir => {
                if buffer.len() > 0 {
                    buffer.pop();
                    assert(component_views(buffer@) =~= before.drop_last());
                } else {
                    buffer.push(Component::ParentDir);
                    assert(component_views(buffer@) =~= before.push(ComponentView::ParentDir));
                }
            },
            component => {
                let copy = component.clone();
                buffer.push(copy);
                assert(component_views(buffer@) =~= before.push(copy@));
            },
        }
        i += 1;
    }
    proof {
        assert(value@.take(value@.len() as int) =~= value@);
        lemma_collapse_is_collapsed(value@);
    }
    FsPath { components: buffer }
}

/// Collapses a written path: reads it, collapses its `.` and `..` with no
/// regard for links, and writes it again.
pub fn normalize(path: &str) -> (text: String)
    ensures
        text@ == normalized(path@),
{
    collapse(&FsPath::parse(path)).to_string()
}

} // verus!
