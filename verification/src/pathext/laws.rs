//! What holds of paths: of how they are read and written, and of
//! collapsing them.

use super::{
    classify, collapse_components, component_text, is_absolute, is_collapsed, join_components,
    named_components, normalized, parse_components, proper_name, render_components, separator,
    split_pieces, starts_at_root, well_formed, ComponentView,
};
use vstd::prelude::*;

verus! {

/// Every piece of a text is free of separators, and the last piece grows
/// with the text.
pub proof fn lemma_split_pieces_shape(text: Seq<char>)
    ensures
        split_pieces(text).len() > 0,
        forall|i: int|
            0 <= i < split_pieces(text).len() ==> !(#[trigger] split_pieces(text)[i]).contains(
                separator(),
            ),
    decreases text.len(),
{
    if text.len() > 0 {
        lemma_split_pieces_shape(text.drop_last());
        let before = split_pieces(text.drop_last());
        if text.last() != separator() {
            let grown = before.last().push(text.last());
            assert forall|k: int| 0 <= k < grown.len() implies grown[k] != separator() by {
                if k < before.last().len() {
                    assert(before.last().contains(grown[k]));
                }
            }
        }
    }
}

/// A non-empty piece without separators is classified as a component whose
/// name, if it has one, is proper.
pub proof fn lemma_classify_proper(piece: Seq<char>)
    requires
        piece.len() > 0,
        !piece.contains(separator()),
    ensures
        !(classify(piece) is RootDir),
        classify(piece) matches ComponentView::Normal(name) ==> proper_name(name),
{
}

/// A text without separators is a single piece, and a proper name is read
/// as the one component of that name.
pub proof fn lemma_plain_name_is_one_piece(text: Seq<char>)
    requires
        !text.contains(separator()),
    ensures
        split_pieces(text) == seq![text],
        proper_name(text) ==> parse_components(text) == seq![ComponentView::Normal(text)],
    decreases text.len(),
{
    if text.len() == 0 {
        assert(text =~= Seq::empty());
    } else {
        let front = text.drop_last();
        assert forall|k: int| 0 <= k < front.len() implies front[k] != separator() by {
            assert(front[k] == text[k]);
            assert(text.contains(text[k]));
        }
        lemma_plain_name_is_one_piece(front);
        assert(text.contains(text[text.len() - 1]));
        assert(front.push(text.last()) =~= text);
        assert(seq![front].last() == front);
        assert(seq![front].drop_last().push(text) =~= seq![text]);
    }
    if proper_name(text) {
        assert(text.contains(text[0]));
        let pieces = seq![text];
        assert(pieces.drop_last() =~= Seq::<Seq<char>>::empty());
        assert(pieces.last() == text);
        assert(named_components(pieces.drop_last()) =~= Seq::<ComponentView>::empty());
        assert(classify(text) == ComponentView::Normal(text));
        assert(named_components(pieces) =~= seq![ComponentView::Normal(text)]);
    }
}

/// The components that pieces without separators stand for never hold the
/// root, and their names are proper.
pub proof fn lemma_named_components_proper(pieces: Seq<Seq<char>>)
    requires
        forall|i: int| 0 <= i < pieces.len() ==> !(#[trigger] pieces[i]).contains(separator()),
    ensures
        forall|i: int|
            0 <= i < named_components(pieces).len() ==> {
                &&& !(#[trigger] named_components(pieces)[i] is RootDir)
                &&& (named_components(pieces)[i] matches ComponentView::Normal(name)
                    ==> proper_name(name))
            },
    decreases pieces.len(),
{
    if pieces.len() > 0 {
        let front = pieces.drop_last();
        assert forall|i: int| 0 <= i < front.len() implies !(#[trigger] front[i]).contains(
            separator(),
        ) by {
            assert(front[i] == pieces[i]);
        }
        lemma_named_components_proper(front);
        if pieces.last().len() > 0 {
            assert(!pieces[pieces.len() - 1].contains(separator()));
            lemma_classify_proper(pieces.last());
        }
    }
}

/// Every written path is read as a well-formed one.
pub proof fn lemma_parse_well_formed(text: Seq<char>)
    ensures
        well_formed(parse_components(text)),
{
    lemma_split_pieces_shape(text);
    lemma_named_components_proper(split_pieces(text));
    let named = named_components(split_pieces(text));
    let parsed = parse_components(text);
    if starts_at_root(text) {
        assert forall|i: int| 0 < i < parsed.len() implies !(#[trigger] parsed[i] is RootDir) by {
            assert(parsed[i] == named[i - 1]);
        }
        assert forall|i: int| 0 <= i < parsed.len() implies (#[trigger] parsed[i] matches ComponentView::Normal(
            name,
        ) ==> proper_name(name)) by {
            if i > 0 {
                assert(parsed[i] == named[i - 1]);
            }
        }
    }
}

/// Joining well-formed paths gives a well-formed path.
pub proof fn lemma_join_well_formed(base: Seq<ComponentView>, relative: Seq<ComponentView>)
    requires
        well_formed(base),
        well_formed(relative),
    ensures
        well_formed(join_components(base, relative)),
{
    if !is_absolute(relative) {
        let joined = base + relative;
        assert forall|k: int| 0 < k < joined.len() implies !(#[trigger] joined[k] is RootDir) by {
            if k >= base.len() {
                assert(joined[k] == relative[k - base.len()]);
            }
        }
        assert forall|k: int| 0 <= k < joined.len() implies (#[trigger] joined[k] matches ComponentView::Normal(
            name,
        ) ==> proper_name(name)) by {
            if k >= base.len() {
                assert(joined[k] == relative[k - base.len()]);
            }
        }
    }
}

/// In a well-formed, collapsed, absolute path every component behind the
/// root names an entry.
pub proof fn lemma_collapsed_absolute_is_named(components: Seq<ComponentView>)
    requires
        well_formed(components),
        is_collapsed(components),
        is_absolute(components),
    ensures
        forall|i: int| 0 < i < components.len() ==> #[trigger] components[i] is Normal,
{
    assert forall|i: int| 0 < i < components.len() implies #[trigger] components[i] is Normal by {
        assert(!(components[i] is RootDir));
        assert(!(components[i] is CurDir));
        assert(!(components[i] is ParentDir));
    }
}

/// Behind a text, characters without a separator lengthen its last piece.
pub proof fn lemma_split_append_plain(text: Seq<char>, plain: Seq<char>)
    requires
        !plain.contains(separator()),
    ensures
        split_pieces(text + plain) == split_pieces(text).drop_last().push(
            split_pieces(text).last() + plain,
        ),
    decreases plain.len(),
{
    lemma_split_pieces_shape(text);
    let pieces = split_pieces(text);
    if plain.len() == 0 {
        assert(text + plain =~= text);
        assert(pieces.last() + plain =~= pieces.last());
        assert(pieces.drop_last().push(pieces.last()) =~= pieces);
    } else {
        let front = plain.drop_last();
        assert forall|k: int| 0 <= k < front.len() implies front[k] != separator() by {
            assert(front[k] == plain[k]);
            assert(plain.contains(plain[k]));
        }
        lemma_split_append_plain(text, front);
        assert(plain.contains(plain[plain.len() - 1]));
        assert((text + plain).drop_last() =~= text + front);
        assert((text + plain).last() == plain.last());
        let before = split_pieces(text + front);
        assert(before.drop_last() =~= pieces.drop_last());
        assert(before.last().push(plain.last()) =~= pieces.last() + plain);
    }
}

/// A component that is not the root is written without separators, is not
/// written as nothing, and is read back as itself.
pub proof fn lemma_component_text(component: ComponentView)
    requires
        !(component is RootDir),
        component matches ComponentView::Normal(name) ==> proper_name(name),
    ensures
        component_text(component).len() > 0,
        !component_text(component).contains(separator()),
        classify(component_text(component)) == component,
{
    let text = component_text(component);
    match component {
        ComponentView::CurDir => {
            assert(text[0] == '.');
            assert forall|k: int| 0 <= k < text.len() implies text[k] != separator() by {}
            assert(seq!['.'].len() == 1);
            assert(seq!['.', '.'].len() == 2);
        },
        ComponentView::ParentDir => {
            assert forall|k: int| 0 <= k < text.len() implies text[k] != separator() by {}
            assert(seq!['.'].len() == 1);
            assert(seq!['.', '.'].len() == 2);
        },
        _ => {},
    }
}

/// How a well-formed path is written: not as nothing unless it is empty,
/// and with a separator at its end only where it is the root alone.
pub proof fn lemma_render_shape(components: Seq<ComponentView>)
    requires
        well_formed(components),
    ensures
        components.len() > 0 ==> render_components(components).len() > 0,
        components.len() > 0 ==> (render_components(components).last() == separator()
            <==> components.last() is RootDir),
        components.len() > 0 ==> (starts_at_root(render_components(components)) <==> is_absolute(
            components,
        )),
    decreases components.len(),
{
    if components.len() > 0 {
        let front = components.drop_last();
        let last = components.last();
        lemma_well_formed_front(components);
        lemma_render_shape(front);
        assert(last == components[components.len() - 1]);
        if !(last is RootDir) {
            lemma_component_text(last);
            let text = component_text(last);
            let before = render_components(front);
            assert(text.contains(text[text.len() - 1]));
            assert(text.contains(text[0]));
            if front.len() > 0 {
                assert(front[0] == components[0]);
            }
        } else {
            assert(components.len() == 1);
        }
    }
}

/// The front of a well-formed path is well formed.
pub proof fn lemma_well_formed_front(components: Seq<ComponentView>)
    requires
        well_formed(components),
        components.len() > 0,
    ensures
        well_formed(components.drop_last()),
{
    let front = components.drop_last();
    assert forall|i: int| 0 < i < front.len() implies !(#[trigger] front[i] is RootDir) by {
        assert(front[i] == components[i]);
    }
    assert forall|i: int| 0 <= i < front.len() implies (#[trigger] front[i] matches ComponentView::Normal(
        name,
    ) ==> proper_name(name)) by {
        assert(front[i] == components[i]);
    }
}

/// The pieces of a well-formed path as it is written stand for its
/// components behind the root.
pub proof fn lemma_render_pieces(components: Seq<ComponentView>)
    requires
        well_formed(components),
    ensures
        named_components(split_pieces(render_components(components))) == if is_absolute(
            components,
        ) {
            components.skip(1)
        } else {
            components
        },
    decreases components.len(),
{
    let written = render_components(components);
    if components.len() == 0 {
        assert(split_pieces(written).drop_last() =~= Seq::<Seq<char>>::empty());
        assert(named_components(split_pieces(written).drop_last()) =~= Seq::<
            ComponentView,
        >::empty());
        assert(named_components(split_pieces(written)) =~= components);
    } else {
        let front = components.drop_last();
        let last = components.last();
        assert(last == components[components.len() - 1]);
        lemma_well_formed_front(components);
        lemma_render_pieces(front);
        lemma_render_shape(front);
        let before = render_components(front);
        if last is RootDir {
            assert(components.len() == 1);
            assert(written =~= Seq::<char>::empty().push(separator()));
            assert(written.drop_last() =~= Seq::<char>::empty());
            let pieces = split_pieces(written);
            assert(pieces =~= seq![Seq::<char>::empty(), Seq::<char>::empty()]);
            assert(pieces.drop_last() =~= seq![Seq::<char>::empty()]);
            assert(pieces.drop_last().drop_last() =~= Seq::<Seq<char>>::empty());
            assert(named_components(pieces.drop_last().drop_last()) =~= Seq::<
                ComponentView,
            >::empty());
            assert(named_components(pieces.drop_last()) =~= Seq::<ComponentView>::empty());
            assert(named_components(pieces) =~= components.skip(1));
        } else {
            lemma_component_text(last);
            let text = component_text(last);
            let stem = if before.len() == 0 || before.last() == separator() {
                before
            } else {
                before.push(separator())
            };
            assert(written == stem + text);
            lemma_split_append_plain(stem, text);
            let old_pieces = split_pieces(before);
            lemma_split_pieces_shape(before);
            let stem_pieces = split_pieces(stem);
            // The last piece of the stem is empty, and the pieces in front of
            // it stand for the front of the path.
            if before.len() == 0 {
                assert(front.len() == 0);
                assert(stem_pieces =~= seq![Seq::<char>::empty()]);
                assert(stem_pieces.drop_last() =~= Seq::<Seq<char>>::empty());
                assert(named_components(stem_pieces.drop_last()) =~= Seq::<
                    ComponentView,
                >::empty());
            } else if before.last() == separator() {
                assert(front.last() is RootDir);
                assert(front[front.len() - 1] is RootDir);
                assert(front.len() == 1);
                assert(before =~= Seq::<char>::empty().push(separator()));
                assert(before.drop_last() =~= Seq::<char>::empty());
                assert(split_pieces(before.drop_last()) =~= seq![Seq::<char>::empty()]);
                assert(stem == before);
                assert(stem_pieces == split_pieces(before.drop_last()).push(Seq::<char>::empty()));
                assert(stem_pieces =~= seq![Seq::<char>::empty(), Seq::<char>::empty()]);
                assert(stem_pieces.drop_last() =~= seq![Seq::<char>::empty()]);
                assert(stem_pieces.drop_last().drop_last() =~= Seq::<Seq<char>>::empty());
                assert(named_components(stem_pieces.drop_last().drop_last()) =~= Seq::<
                    ComponentView,
                >::empty());
                assert(named_components(stem_pieces.drop_last()) =~= Seq::<
                    ComponentView,
                >::empty());
            } else {
                assert(stem.drop_last() =~= before);
                assert(stem_pieces == old_pieces.push(Seq::<char>::empty()));
                assert(stem_pieces.drop_last() =~= old_pieces);
            }
            assert(stem_pieces.last() =~= Seq::<char>::empty());
            let pieces = split_pieces(written);
            assert(stem_pieces.last() + text =~= text);
            assert(pieces == stem_pieces.drop_last().push(text));
            assert(pieces.drop_last() =~= stem_pieces.drop_last());
            assert(pieces.last() == text);
            let so_far = named_components(stem_pieces.drop_last());
            assert(named_components(pieces) == so_far.push(last));
            if is_absolute(components) {
                assert(front.len() > 0);
                assert(front[0] == components[0]);
                assert(so_far == front.skip(1));
                assert(front.skip(1).push(last) =~= components.skip(1));
            } else {
                if front.len() > 0 {
                    assert(front[0] == components[0]);
                }
                assert(so_far == front);
                assert(front.push(last) =~= components);
            }
        }
    }
}

/// A well-formed path is read back from how it is written.
pub proof fn lemma_parse_render(components: Seq<ComponentView>)
    requires
        well_formed(components),
    ensures
        parse_components(render_components(components)) == components,
{
    lemma_render_pieces(components);
    lemma_render_shape(components);
    if is_absolute(components) {
        assert(seq![ComponentView::RootDir] + components.skip(1) =~= components);
    }
}

/// Normalizing is idempotent: a normalized path is its own normalized
/// form.
pub proof fn lemma_normalize_idempotent(text: Seq<char>)
    ensures
        normalized(normalized(text)) == normalized(text),
{
    let collapsed = collapse_components(parse_components(text));
    lemma_parse_well_formed(text);
    lemma_collapse_is_collapsed(parse_components(text));
    lemma_parse_render(collapsed);
    lemma_collapse_idempotent(parse_components(text));
}

/// Collapsing leaves nothing to collapse, and keeps a well-formed path well
/// formed.
pub proof fn lemma_collapse_is_collapsed(components: Seq<ComponentView>)
    ensures
        is_collapsed(collapse_components(components)),
        well_formed(components) ==> well_formed(collapse_components(components)),
        collapse_components(components).len() <= components.len(),
    decreases components.len(),
{
    if components.len() > 0 {
        let front = components.drop_last();
        lemma_collapse_is_collapsed(front);
        if well_formed(components) {
            assert forall|i: int| 0 < i < front.len() implies !(#[trigger] front[i] is RootDir) by {
                assert(front[i] == components[i]);
            }
            assert forall|i: int| 0 <= i < front.len() implies (#[trigger] front[i] matches ComponentView::Normal(
                name,
            ) ==> proper_name(name)) by {
                assert(front[i] == components[i]);
            }
            let buffer = collapse_components(front);
            if buffer.len() > 0 && components.last() is RootDir {
                assert(front.len() > 0);
                assert(components[components.len() - 1] is RootDir);
            }
        }
    }
}

/// A path with nothing to collapse is its own collapsed form.
pub proof fn lemma_collapse_fixed(components: Seq<ComponentView>)
    requires
        is_collapsed(components),
    ensures
        collapse_components(components) == components,
    decreases components.len(),
{
    if components.len() > 0 {
        let front = components.drop_last();
        assert forall|i: int| 0 <= i < front.len() implies !(#[trigger] front[i] is CurDir) by {
            assert(front[i] == components[i]);
        }
        assert forall|i: int| 0 < i < front.len() implies !(#[trigger] front[i] is ParentDir) by {
            assert(front[i] == components[i]);
        }
        lemma_collapse_fixed(front);
        assert(!(components[components.len() - 1] is CurDir));
        if components.last() is ParentDir {
            assert(components.len() == 1);
        }
        assert(front.push(components.last()) =~= components);
    }
}

/// Collapsing is idempotent: collapsing a collapsed path changes nothing.
pub proof fn lemma_collapse_idempotent(components: Seq<ComponentView>)
    ensures
        collapse_components(collapse_components(components)) == collapse_components(components),
{
    lemma_collapse_is_collapsed(components);
    lemma_collapse_fixed(collapse_components(components));
}

} // verus!
