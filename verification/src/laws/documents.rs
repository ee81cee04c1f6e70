//! Whole documents: every group comes out with the children that its
//! element holds, in the order in which they stand, whatever else the
//! document holds.

use crate::cipher::Cipher;
use crate::db::{ChildView, GroupView};
use crate::error::IntegrityError;
use crate::laws::runs::{events_of, lemma_ran_first, lemma_ran_in_two, lemma_ran_one};
use crate::model::{
    closed, decoded, finished, initial, link_into, opened, protected_field, ran, texted,
    with_secret, with_text, DecoderView,
};
use crate::node::{fresh_node, NodeView};
use crate::tag::{is_structural, tag_of_name, Tag};
use crate::xml::TokenView;
use vstd::prelude::*;

verus! {

/// A piece of a well-formed document.
pub enum Item {
    /// An element with all that stands between its tags.
    Element { name: Seq<char>, attributes: Seq<(Seq<char>, Seq<char>)>, content: Seq<Item> },
    /// Character data.
    Text(Seq<char>),
    /// Anything that is neither: a declaration, a comment, white space, the
    /// start or the end of the document.
    Other,
}

/// The tokens of a piece of a document.
pub open spec fn item_tokens(item: Item) -> Seq<TokenView>
    decreases item,
{
    match item {
        Item::Element { name, attributes, content } => seq![TokenView::Open { name, attributes }]
            + (items_tokens(content) + seq![TokenView::Close { name }]),
        Item::Text(text) => seq![TokenView::Text(text)],
        Item::Other => seq![TokenView::Other],
    }
}

/// The tokens of a run of pieces, one after the other.
pub open spec fn items_tokens(items: Seq<Item>) -> Seq<TokenView>
    decreases items,
{
    if items.len() == 0 {
        Seq::empty()
    } else {
        items_tokens(items.drop_last()) + item_tokens(items.last())
    }
}

/// The number of group and entry elements in a piece that have no element
/// with a node of its own between them and what encloses the piece.
pub open spec fn direct_count(item: Item) -> nat
    decreases item,
{
    match item {
        Item::Element { name, attributes, content } => {
            let tag = tag_of_name(name);
            if tag == Tag::Group || tag == Tag::Entry {
                1
            } else if is_structural(tag) {
                0
            } else {
                direct_count_all(content)
            }
        },
        _ => 0,
    }
}

/// The same number for a run of pieces.
pub open spec fn direct_count_all(items: Seq<Item>) -> nat
    decreases items,
{
    if items.len() == 0 {
        0
    } else {
        direct_count_all(items.drop_last()) + direct_count(items.last())
    }
}

/// Whether `children` are what the group and entry elements directly inside
/// a piece come to: one child for each of them, in their order, a group for
/// a group element and an entry for an entry element, and each group with
/// the children that its own element holds.
pub open spec fn item_match(children: Seq<ChildView>, item: Item) -> bool
    decreases item,
{
    match item {
        Item::Element { name, attributes, content } => {
            let tag = tag_of_name(name);
            if tag == Tag::Group {
                &&& children.len() == 1
                &&& children[0] is Group
                &&& items_match(children[0]->Group_0.children, content)
            } else if tag == Tag::Entry {
                children.len() == 1 && children[0] is Entry
            } else if is_structural(tag) {
                children.len() == 0
            } else {
                items_match(children, content)
            }
        },
        _ => children.len() == 0,
    }
}

/// The same for a run of pieces.
pub open spec fn items_match(children: Seq<ChildView>, items: Seq<Item>) -> bool
    decreases items,
{
    if items.len() == 0 {
        children.len() == 0
    } else {
        let count = direct_count(items.last());
        &&& count <= children.len()
        &&& items_match(children.take(children.len() - count), items.drop_last())
        &&& item_match(children.skip(children.len() - count), items.last())
    }
}

/// The number of group elements in a piece that nothing with a node of its
/// own encloses.
pub open spec fn outer_groups(item: Item) -> nat
    decreases item,
{
    match item {
        Item::Element { name, attributes, content } => {
            let tag = tag_of_name(name);
            if tag == Tag::Group {
                1
            } else if is_structural(tag) {
                0
            } else {
                outer_groups_all(content)
            }
        },
        _ => 0,
    }
}

/// The same number for a run of pieces.
pub open spec fn outer_groups_all(items: Seq<Item>) -> nat
    decreases items,
{
    if items.len() == 0 {
        0
    } else {
        outer_groups_all(items.drop_last()) + outer_groups(items.last())
    }
}

/// Whether `root` has the children that the last outermost group element
/// of a piece holds.
pub open spec fn root_match(root: GroupView, item: Item) -> bool
    decreases item,
{
    match item {
        Item::Element { name, attributes, content } => {
            let tag = tag_of_name(name);
            if tag == Tag::Group {
                items_match(root.children, content)
            } else if is_structural(tag) {
                false
            } else {
                root_match_all(root, content)
            }
        },
        _ => false,
    }
}

/// The same for a run of pieces.
pub open spec fn root_match_all(root: GroupView, items: Seq<Item>) -> bool
    decreases items,
{
    if items.len() == 0 {
        false
    } else if outer_groups(items.last()) > 0 {
        root_match(root, items.last())
    } else {
        root_match_all(root, items.drop_last())
    }
}

/// The kind of a node, as a number.
pub open spec fn kind(node: NodeView) -> nat {
    match node {
        NodeView::Metadata(_) => 0,
        NodeView::Entry(_) => 1,
        NodeView::Group(_) => 2,
        NodeView::KeyValue(_, _) => 3,
        NodeView::AutoType(_) => 4,
        NodeView::AutoTypeAssociation(_) => 5,
        NodeView::ExpiryTime(_) => 6,
        NodeView::Expires(_) => 7,
        NodeView::Icon(_) => 8,
        NodeView::CustomIcon(_, _) => 9,
    }
}

/// The children of a node that is a group; no children for any other node.
pub open spec fn children_of(node: NodeView) -> Seq<ChildView> {
    match node {
        NodeView::Group(group) => group.children,
        _ => Seq::empty(),
    }
}

/// What a well-formed piece of a document leaves as it was: the open
/// elements, every node below the innermost, the kind of the innermost node
/// and the children it had. While a node is open, the root is left alone too.
pub open spec fn framed(before: DecoderView, after: DecoderView) -> bool {
    &&& after.names == before.names
    &&& after.nodes.len() == before.nodes.len()
    &&& before.nodes.len() > 0 ==> {
        &&& after.nodes.drop_last() == before.nodes.drop_last()
        &&& kind(after.nodes.last()) == kind(before.nodes.last())
        &&& children_of(before.nodes.last()).len() <= children_of(after.nodes.last()).len()
        &&& children_of(after.nodes.last()).take(children_of(before.nodes.last()).len() as int)
            == children_of(before.nodes.last())
        &&& after.root == before.root
    }
}

/// The children that the innermost node has gained.
pub open spec fn gained(before: DecoderView, after: DecoderView) -> Seq<ChildView> {
    children_of(after.nodes.last()).skip(children_of(before.nodes.last()).len() as int)
}

/// What a piece of a document does to a state: inside an open group it adds
/// the children that stand directly in it, and outside every node it sets
/// the root to its last outermost group, if it has one.
pub open spec fn grown_by(before: DecoderView, after: DecoderView, item: Item) -> bool {
    &&& framed(before, after)
    &&& before.nodes.len() > 0 && before.nodes.last() is Group ==> item_match(
        gained(before, after),
        item,
    )
    &&& before.nodes.len() == 0 ==> if outer_groups(item) > 0 {
        root_match(after.root, item)
    } else {
        after.root == before.root
    }
}

/// The same for a run of pieces.
pub open spec fn grown_by_all(before: DecoderView, after: DecoderView, items: Seq<Item>) -> bool {
    &&& framed(before, after)
    &&& before.nodes.len() > 0 && before.nodes.last() is Group ==> items_match(
        gained(before, after),
        items,
    )
    &&& before.nodes.len() == 0 ==> if outer_groups_all(items) > 0 {
        root_match_all(after.root, items)
    } else {
        after.root == before.root
    }
}

/// Children that match a piece are as many as the piece has group and entry
/// elements directly in it.
pub proof fn lemma_match_counts(children: Seq<ChildView>, item: Item)
    requires
        item_match(children, item),
    ensures
        children.len() == direct_count(item),
    decreases item,
{
    match item {
        Item::Element { name, attributes, content } => {
            let tag = tag_of_name(name);
            if tag != Tag::Group && tag != Tag::Entry && !is_structural(tag) {
                lemma_match_counts_all(children, content);
            }
        },
        _ => {},
    }
}

/// The same for a run of pieces.
pub proof fn lemma_match_counts_all(children: Seq<ChildView>, items: Seq<Item>)
    requires
        items_match(children, items),
    ensures
        children.len() == direct_count_all(items),
    decreases items,
{
    if items.len() > 0 {
        let count = direct_count(items.last());
        lemma_match_counts_all(children.take(children.len() - count), items.drop_last());
    }
}

/// What the opening of an element does.
pub proof fn lemma_opening(
    state: DecoderView,
    name: Seq<char>,
    attributes: Seq<(Seq<char>, Seq<char>)>,
)
    ensures
        ({
            let after = opened(state, name, attributes);
            let tag = tag_of_name(name);
            &&& after.names == state.names.push(tag)
            &&& after.root == state.root
            &&& match fresh_node(tag) {
                Some(node) => after.nodes == state.nodes.push(node),
                None => {
                    &&& after.nodes.len() == state.nodes.len()
                    &&& state.nodes.len() > 0 ==> {
                        &&& after.nodes.drop_last() == state.nodes.drop_last()
                        &&& kind(after.nodes.last()) == kind(state.nodes.last())
                        &&& children_of(after.nodes.last()) == children_of(state.nodes.last())
                    }
                },
            }
        }),
{
    let after = opened(state, name, attributes);
    if state.nodes.len() > 0 {
        let top = state.nodes.last();
        assert(kind(protected_field(top)) == kind(top));
        assert(children_of(protected_field(top)) == children_of(top));
        if after.nodes != state.nodes && fresh_node(tag_of_name(name)) is None {
            assert(after.nodes.drop_last() =~= state.nodes.drop_last());
        }
    }
}

/// What handing a finished node to its parent does to the parent.
pub proof fn lemma_linking(node: NodeView, parent: NodeView)
    ensures
        kind(link_into(node, parent)) == kind(parent),
        children_of(link_into(node, parent)) == if parent is Group {
            match node {
                NodeView::Group(group) => children_of(parent).push(ChildView::Group(group)),
                NodeView::Entry(entry) => children_of(parent).push(ChildView::Entry(entry)),
                _ => children_of(parent),
            }
        } else {
            children_of(parent)
        },
{
}

/// What the finishing of the innermost node does.
pub proof fn lemma_finishing(state: DecoderView)
    requires
        state.nodes.len() > 0,
    ensures
        ({
            let node = state.nodes.last();
            let rest = state.nodes.drop_last();
            let after = finished(state);
            &&& after.names == state.names
            &&& after.nodes.len() == rest.len()
            &&& rest.len() > 0 ==> {
                &&& after.nodes.drop_last() == rest.drop_last()
                &&& after.root == state.root
                &&& after.nodes.last() == if node is Metadata {
                    rest.last()
                } else {
                    link_into(node, rest.last())
                }
            }
            &&& rest.len() == 0 ==> after.root == match node {
                NodeView::Group(group) => group,
                _ => state.root,
            }
        }),
{
    let rest = state.nodes.drop_last();
    let after = finished(state);
    if rest.len() > 0 {
        assert(after.nodes.drop_last() =~= rest.drop_last());
    }
}

/// What character data does, where it does not fail.
pub proof fn lemma_reading<C: Cipher>(state: DecoderView, text: Seq<char>, cipher: C)
    requires
        texted(state, text, cipher).0 is Ok,
    ensures
        ({
            let after = texted(state, text, cipher).0->Ok_0;
            &&& framed(state, after)
            &&& state.nodes.len() > 0 ==> children_of(after.nodes.last()) == children_of(
                state.nodes.last(),
            )
            &&& after.root == state.root
        }),
{
    let after = texted(state, text, cipher).0->Ok_0;
    if state.names.len() > 0 && state.nodes.len() > 0 {
        let top = state.nodes.last();
        let tag = state.names.last();
        assert(kind(with_text(top, tag, text)) == kind(top));
        assert(children_of(with_text(top, tag, text)) == children_of(top));
        assert(forall|plain: Seq<u8>| kind(#[trigger] with_secret(top, plain)) == kind(top));
        assert(forall|plain: Seq<u8>|
            children_of(#[trigger] with_secret(top, plain)) == children_of(top));
        assert(after.nodes.drop_last() =~= state.nodes.drop_last());
    }
    if state.nodes.len() > 0 {
        let kept = children_of(state.nodes.last());
        assert(kept.take(kept.len() as int) =~= kept);
    }
}

/// Only the tags with a node of their own start one, and the kind of the
/// node tells groups and entries from the rest.
pub proof fn lemma_fresh_kinds(tag: Tag)
    ensures
        fresh_node(tag) is Some <==> is_structural(tag),
        fresh_node(tag) matches Some(node) ==> {
            &&& kind(node) == 2 <==> tag == Tag::Group
            &&& kind(node) == 1 <==> tag == Tag::Entry
            &&& kind(node) == 0 <==> tag == Tag::Meta
            &&& children_of(node) == Seq::<ChildView>::empty()
        },
{
}

/// A piece of a document, read from any state without a failure, grows the
/// state as [`grown_by`] says.
pub proof fn lemma_item_grows<C: Cipher>(state: DecoderView, item: Item, cipher: C)
    requires
        ran(state, events_of(item_tokens(item)), cipher).0 is Ok,
    ensures
        grown_by(state, ran(state, events_of(item_tokens(item)), cipher).0->Ok_0, item),
    decreases item,
{
    let kept = if state.nodes.len() > 0 {
        children_of(state.nodes.last())
    } else {
        Seq::empty()
    };
    assert(kept.take(kept.len() as int) =~= kept);
    assert(kept.skip(kept.len() as int) =~= Seq::<ChildView>::empty());
    match item {
        Item::Other => {
            lemma_ran_one(state, TokenView::Other, cipher);
        },
        Item::Text(text) => {
            lemma_ran_one(state, TokenView::Text(text), cipher);
            lemma_reading(state, text, cipher);
        },
        Item::Element { name, attributes, content } => {
            let tag = tag_of_name(name);
            let open = TokenView::Open { name, attributes };
            let close = TokenView::Close { name };
            let body = items_tokens(content);
            lemma_ran_first(state, open, body + seq![close], cipher);
            let s1 = opened(state, name, attributes);
            assert(events_of(body + seq![close]) =~= events_of(body) + events_of(seq![close]));
            lemma_ran_in_two(s1, events_of(body), events_of(seq![close]), cipher);
            let (middle, turn) = ran(s1, events_of(body), cipher);
            assert(middle is Ok);
            let s2 = middle->Ok_0;
            lemma_items_grow(s1, content, cipher);
            lemma_ran_one(s2, close, turn);
            let s3 = closed(s2, name);
            assert(ran(state, events_of(item_tokens(item)), cipher).0 == Ok::<
                DecoderView,
                IntegrityError,
            >(s3));
            lemma_opening(state, name, attributes);
            lemma_fresh_kinds(tag);
            assert(s2.names.drop_last() =~= state.names);
            match fresh_node(tag) {
                Some(node) => {
                    let popped = DecoderView { names: state.names, ..s2 };
                    assert(s3 == finished(popped));
                    lemma_finishing(popped);
                    let built = s2.nodes.last();
                    assert(s1.nodes.last() == node);
                    assert(s1.nodes.drop_last() =~= state.nodes);
                    assert(s2.nodes.drop_last() == state.nodes);
                    assert(gained(s1, s2) =~= children_of(built));
                    if state.nodes.len() > 0 {
                        let parent = state.nodes.last();
                        lemma_linking(built, parent);
                        let linked = s3.nodes.last();
                        assert(children_of(linked).take(kept.len() as int) =~= kept);
                        if parent is Group {
                            if tag == Tag::Group {
                                assert(gained(state, s3) =~= seq![
                                    ChildView::Group(built->Group_0),
                                ]);
                            } else if tag == Tag::Entry {
                                assert(gained(state, s3) =~= seq![
                                    ChildView::Entry(built->Entry_0),
                                ]);
                            } else {
                                assert(gained(state, s3) =~= Seq::<ChildView>::empty());
                            }
                        }
                    }
                },
                None => {
                    assert(s3.nodes == s2.nodes);
                    if state.nodes.len() > 0 {
                        assert(children_of(s2.nodes.last()).take(kept.len() as int) =~= kept);
                        assert(gained(state, s3) =~= gained(s1, s2));
                    }
                },
            }
        },
    }
}

/// A run of pieces of a document, read from any state without a failure,
/// grows the state as [`grown_by_all`] says.
pub proof fn lemma_items_grow<C: Cipher>(state: DecoderView, items: Seq<Item>, cipher: C)
    requires
        ran(state, events_of(items_tokens(items)), cipher).0 is Ok,
    ensures
        grown_by_all(state, ran(state, events_of(items_tokens(items)), cipher).0->Ok_0, items),
    decreases items,
{
    let kept = if state.nodes.len() > 0 {
        children_of(state.nodes.last())
    } else {
        Seq::empty()
    };
    if items.len() == 0 {
        assert(events_of(items_tokens(items)) =~= Seq::<Option<TokenView>>::empty());
        assert(kept.take(kept.len() as int) =~= kept);
        assert(kept.skip(kept.len() as int) =~= Seq::<ChildView>::empty());
    } else {
        let front = items.drop_last();
        let last = items.last();
        let front_events = events_of(items_tokens(front));
        let last_events = events_of(item_tokens(last));
        assert(events_of(items_tokens(items)) =~= front_events + last_events);
        lemma_ran_in_two(state, front_events, last_events, cipher);
        let (middle, turn) = ran(state, front_events, cipher);
        assert(middle is Ok);
        let s1 = middle->Ok_0;
        lemma_items_grow(state, front, cipher);
        lemma_item_grows(s1, last, turn);
        let s2 = ran(s1, last_events, turn).0->Ok_0;
        if state.nodes.len() > 0 {
            let grown = children_of(s1.nodes.last());
            let full = children_of(s2.nodes.last());
            assert(full.take(kept.len() as int) =~= kept) by {
                assert(full.take(grown.len() as int) == grown);
                assert(grown.take(kept.len() as int) == kept);
                assert(full.take(grown.len() as int).take(kept.len() as int) =~= full.take(
                    kept.len() as int,
                ));
            }
            if state.nodes.last() is Group {
                let count = direct_count(last);
                lemma_match_counts(gained(s1, s2), last);
                let all = gained(state, s2);
                assert(all.take(all.len() - count) =~= gained(state, s1)) by {
                    assert(full.take(grown.len() as int) == grown);
                    assert forall|i: int| 0 <= i < all.len() - count implies all.take(
                        all.len() - count,
                    )[i] == gained(state, s1)[i] by {
                        assert(full.take(grown.len() as int)[kept.len() + i] == full[kept.len()
                            + i]);
                    }
                }
                assert(all.skip(all.len() - count) =~= gained(s1, s2));
            }
        }
    }
}

/// A well-formed document that is read without a failure comes out with the
/// tree of its groups and entries. The root has the children that the last
/// outermost group element holds: one child for each group or entry element
/// that stands in it with no other node-bearing element in between, in
/// document order and of the same kind, and each group among them has its
/// own children in the same way, to any depth. Whatever else the document
/// holds, inside those elements or around them, does not add, drop or
/// reorder a child.
pub proof fn lemma_document_tree_is_kept<C: Cipher>(document: Seq<Item>, cipher: C)
    requires
        decoded(events_of(items_tokens(document)), cipher).0 is Ok,
        outer_groups_all(document) > 0,
    ensures
        root_match_all(decoded(events_of(items_tokens(document)), cipher).0->Ok_0.1, document),
        built_from(
            ChildView::Group(decoded(events_of(items_tokens(document)), cipher).0->Ok_0.1),
            outer_group_elements_all(document).last(),
        ),
{
    lemma_items_grow(initial(), document, cipher);
    lemma_root_is_the_last_outer_group(
        decoded(events_of(items_tokens(document)), cipher).0->Ok_0.1,
        document,
    );
}

/// The group and entry elements that stand directly in a piece, with no
/// other node-bearing element in between, in document order.
pub open spec fn direct_children(item: Item) -> Seq<Item>
    decreases item,
{
    match item {
        Item::Element { name, attributes, content } => {
            let tag = tag_of_name(name);
            if tag == Tag::Group || tag == Tag::Entry {
                seq![item]
            } else if is_structural(tag) {
                Seq::empty()
            } else {
                direct_children_all(content)
            }
        },
        _ => Seq::empty(),
    }
}

/// The same for a run of pieces.
pub open spec fn direct_children_all(items: Seq<Item>) -> Seq<Item>
    decreases items,
{
    if items.len() == 0 {
        Seq::empty()
    } else {
        direct_children_all(items.drop_last()) + direct_children(items.last())
    }
}

/// The outermost group elements of a piece, in document order.
pub open spec fn outer_group_elements(item: Item) -> Seq<Item>
    decreases item,
{
    match item {
        Item::Element { name, attributes, content } => {
            let tag = tag_of_name(name);
            if tag == Tag::Group {
                seq![item]
            } else if is_structural(tag) {
                Seq::empty()
            } else {
                outer_group_elements_all(content)
            }
        },
        _ => Seq::empty(),
    }
}

/// The same for a run of pieces.
pub open spec fn outer_group_elements_all(items: Seq<Item>) -> Seq<Item>
    decreases items,
{
    if items.len() == 0 {
        Seq::empty()
    } else {
        outer_group_elements_all(items.drop_last()) + outer_group_elements(items.last())
    }
}

/// Whether a child is built from an element: a group from a group element,
/// with the children that the element holds, or an entry from an entry
/// element.
pub open spec fn built_from(child: ChildView, element: Item) -> bool {
    match element {
        Item::Element { name, attributes, content } => {
            let tag = tag_of_name(name);
            if tag == Tag::Group {
                child is Group && items_match(child->Group_0.children, content)
            } else {
                tag == Tag::Entry && child is Entry
            }
        },
        _ => false,
    }
}

/// Children that match a piece of a document are, one for one and in
/// document order, built from the group and entry elements that stand
/// directly in it.
pub proof fn lemma_children_are_in_order(children: Seq<ChildView>, item: Item)
    requires
        item_match(children, item),
    ensures
        children.len() == direct_children(item).len(),
        forall|i: int|
            0 <= i < children.len() ==> built_from(
                #[trigger] children[i],
                direct_children(item)[i],
            ),
    decreases item,
{
    match item {
        Item::Element { name, attributes, content } => {
            let tag = tag_of_name(name);
            if tag != Tag::Group && tag != Tag::Entry && !is_structural(tag) {
                lemma_all_children_are_in_order(children, content);
            }
        },
        _ => {},
    }
}

/// The same for a run of pieces: the children of a group that matches the
/// content of its element are built, one for one and in document order, from
/// the group and entry elements that stand directly in that content.
pub proof fn lemma_all_children_are_in_order(children: Seq<ChildView>, items: Seq<Item>)
    requires
        items_match(children, items),
    ensures
        children.len() == direct_children_all(items).len(),
        forall|i: int|
            0 <= i < children.len() ==> built_from(
                #[trigger] children[i],
                direct_children_all(items)[i],
            ),
    decreases items,
{
    if items.len() > 0 {
        let count = direct_count(items.last());
        let front = children.take(children.len() - count);
        let back = children.skip(children.len() - count);
        lemma_all_children_are_in_order(front, items.drop_last());
        lemma_children_are_in_order(back, items.last());
        lemma_match_counts(back, items.last());
        assert forall|i: int| 0 <= i < children.len() implies built_from(
            #[trigger] children[i],
            direct_children_all(items)[i],
        ) by {
            if i < front.len() {
                assert(children[i] == front[i]);
            } else {
                assert(children[i] == back[i - front.len()]);
            }
        }
    }
}

/// The root that matches a document is built from the last of the
/// document's outermost group elements.
pub proof fn lemma_root_is_the_last_outer_group(root: GroupView, items: Seq<Item>)
    requires
        root_match_all(root, items),
    ensures
        outer_group_elements_all(items).len() > 0,
        built_from(ChildView::Group(root), outer_group_elements_all(items).last()),
    decreases items,
{
    if items.len() > 0 {
        lemma_outer_groups_are_counted(items.last());
        if outer_groups(items.last()) > 0 {
            lemma_root_is_the_last_outer_group_of(root, items.last());
        } else {
            lemma_root_is_the_last_outer_group(root, items.drop_last());
            assert(outer_group_elements_all(items) =~= outer_group_elements_all(
                items.drop_last(),
            ));
        }
    }
}

/// The same for a single piece.
pub proof fn lemma_root_is_the_last_outer_group_of(root: GroupView, item: Item)
    requires
        root_match(root, item),
    ensures
        outer_group_elements(item).len() > 0,
        built_from(ChildView::Group(root), outer_group_elements(item).last()),
    decreases item,
{
    match item {
        Item::Element { name, attributes, content } => {
            let tag = tag_of_name(name);
            if tag != Tag::Group && !is_structural(tag) {
                lemma_root_is_the_last_outer_group(root, content);
            }
        },
        _ => {},
    }
}

/// A piece has as many outermost group elements as [`outer_groups`] counts.
pub proof fn lemma_outer_groups_are_counted(item: Item)
    ensures
        outer_group_elements(item).len() == outer_groups(item),
    decreases item,
{
    match item {
        Item::Element { name, attributes, content } => {
            let tag = tag_of_name(name);
            if tag != Tag::Group && !is_structural(tag) {
                lemma_all_outer_groups_are_counted(content);
            }
        },
        _ => {},
    }
}

/// The same for a run of pieces.
pub proof fn lemma_all_outer_groups_are_counted(items: Seq<Item>)
    ensures
        outer_group_elements_all(items).len() == outer_groups_all(items),
    decreases items,
{
    if items.len() > 0 {
        lemma_all_outer_groups_are_counted(items.drop_last());
        lemma_outer_groups_are_counted(items.last());
    }
}

} // verus!
