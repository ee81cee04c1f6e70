//! Nested groups and entries come out as they stand in the document.

use crate::cipher::Cipher;
use crate::db::{empty_entry, empty_group, ChildView, GroupView, MetadataView};
use crate::error::IntegrityError;
use crate::laws::runs::{close_tag, events_of, lemma_ran_in_two, lemma_ran_one, open_tag};
use crate::model::{closed, decoded, initial, opened, ran, with_top, DecoderView};
use crate::node::NodeView;
use crate::tag::lemma_known_names;
use crate::xml::TokenView;
use vstd::prelude::*;

verus! {

/// A group that holds nothing but its children, each of them as bare as itself.
pub open spec fn is_bare_group(group: GroupView) -> bool
    decreases group,
{
    &&& group == GroupView { children: group.children, ..empty_group() }
    &&& forall|i: int|
        0 <= i < group.children.len() ==> is_bare_child(#[trigger] group.children[i])
}

/// A bare group, or an entry in which nothing has been set.
pub open spec fn is_bare_child(child: ChildView) -> bool
    decreases child,
{
    match child {
        ChildView::Group(group) => is_bare_group(group),
        ChildView::Entry(entry) => entry == empty_entry(),
    }
}

/// The tokens of a group element that holds its children and nothing else.
pub open spec fn group_tokens(group: GroupView) -> Seq<TokenView>
    decreases group,
{
    seq![open_tag("Group"@)] + children_tokens(group.children) + seq![close_tag("Group"@)]
}

/// The tokens of a run of children, one element after the other.
pub open spec fn children_tokens(children: Seq<ChildView>) -> Seq<TokenView>
    decreases children,
{
    if children.len() == 0 {
        Seq::empty()
    } else {
        children_tokens(children.drop_last()) + child_tokens(children.last())
    }
}

/// The tokens of one child: a group element, or an empty entry element.
pub open spec fn child_tokens(child: ChildView) -> Seq<TokenView>
    decreases child,
{
    match child {
        ChildView::Group(group) => group_tokens(group),
        ChildView::Entry(_) => seq![open_tag("Entry"@), close_tag("Entry"@)],
    }
}

/// The state in which the innermost node, a group, has taken more children.
pub open spec fn with_children(
    state: DecoderView,
    parent: GroupView,
    children: Seq<ChildView>,
) -> DecoderView {
    DecoderView {
        nodes: with_top(
            state.nodes,
            NodeView::Group(GroupView { children: parent.children + children, ..parent }),
        ),
        ..state
    }
}

/// Inside an open group, the elements of bare children add exactly those
/// children to the group, in the order in which they stand, and change
/// nothing else.
pub proof fn lemma_children_are_appended<C: Cipher>(
    state: DecoderView,
    parent: GroupView,
    children: Seq<ChildView>,
    cipher: C,
)
    requires
        state.nodes.len() > 0,
        state.nodes.last() == NodeView::Group(parent),
        forall|i: int| 0 <= i < children.len() ==> is_bare_child(#[trigger] children[i]),
    ensures
        ran(state, events_of(children_tokens(children)), cipher) == (
            Ok::<DecoderView, IntegrityError>(with_children(state, parent, children)),
            cipher,
        ),
    decreases children,
{
    lemma_known_names();
    if children.len() == 0 {
        assert(with_top(state.nodes, state.nodes.last()) =~= state.nodes);
    } else {
        let front = children.drop_last();
        let last = children.last();
        let front_events = events_of(children_tokens(front));
        let last_events = events_of(child_tokens(last));
        assert(events_of(children_tokens(children)) =~= front_events + last_events);
        assert(forall|i: int| 0 <= i < front.len() ==> is_bare_child(#[trigger] front[i]));
        lemma_children_are_appended(state, parent, front, cipher);
        lemma_ran_in_two(state, front_events, last_events, cipher);
        let middle = with_children(state, parent, front);
        let grown = GroupView { children: parent.children + front, ..parent };
        lemma_child_is_appended(middle, grown, last, cipher);
        assert(with_children(middle, grown, seq![last]).nodes =~= with_children(
            state,
            parent,
            children,
        ).nodes) by {
            assert(grown.children + seq![last] =~= parent.children + children);
        }
    }
}

/// Inside an open group, the element of one bare child adds that child to
/// the group and changes nothing else.
pub proof fn lemma_child_is_appended<C: Cipher>(
    state: DecoderView,
    parent: GroupView,
    child: ChildView,
    cipher: C,
)
    requires
        state.nodes.len() > 0,
        state.nodes.last() == NodeView::Group(parent),
        is_bare_child(child),
    ensures
        ran(state, events_of(child_tokens(child)), cipher) == (
            Ok::<DecoderView, IntegrityError>(with_children(state, parent, seq![child])),
            cipher,
        ),
    decreases child,
{
    lemma_known_names();
    let done = with_children(state, parent, seq![child]);
    assert(parent.children + seq![child] =~= parent.children.push(child));
    match child {
        ChildView::Entry(entry) => {
            let open = open_tag("Entry"@);
            let close = close_tag("Entry"@);
            assert(events_of(child_tokens(child)) =~= events_of(seq![open]) + events_of(
                seq![close],
            ));
            lemma_ran_in_two(state, events_of(seq![open]), events_of(seq![close]), cipher);
            lemma_ran_one(state, open, cipher);
            let inside = opened(state, "Entry"@, Seq::empty());
            lemma_ran_one(inside, close, cipher);
            assert(inside.names.drop_last() =~= state.names);
            assert(closed(inside, "Entry"@).nodes =~= done.nodes);
        },
        ChildView::Group(group) => {
            let open = open_tag("Group"@);
            let close = close_tag("Group"@);
            let body = events_of(children_tokens(group.children));
            assert(events_of(child_tokens(child)) =~= events_of(seq![open]) + (body + events_of(
                seq![close],
            )));
            lemma_ran_in_two(state, events_of(seq![open]), body + events_of(seq![close]), cipher);
            lemma_ran_one(state, open, cipher);
            let inside = opened(state, "Group"@, Seq::empty());
            lemma_ran_in_two(inside, body, events_of(seq![close]), cipher);
            lemma_children_are_appended(inside, empty_group(), group.children, cipher);
            let filled = with_children(inside, empty_group(), group.children);
            lemma_ran_one(filled, close, cipher);
            assert(filled.names.drop_last() =~= state.names);
            assert(closed(filled, "Group"@).nodes =~= done.nodes);
        },
    }
}

/// A document that is one bare group, with groups and entries nested in it
/// to any depth, decodes to that very tree: every group has the children
/// that its element holds, in the order in which they stand. No metadata is
/// read, and the cipher is not touched.
pub proof fn lemma_tree_is_rebuilt<C: Cipher>(root: GroupView, cipher: C)
    requires
        is_bare_group(root),
    ensures
        decoded(events_of(group_tokens(root)), cipher) == (
            Ok::<(Option<MetadataView>, GroupView), IntegrityError>((None, root)),
            cipher,
        ),
{
    lemma_known_names();
    let open = open_tag("Group"@);
    let close = close_tag("Group"@);
    let body = events_of(children_tokens(root.children));
    assert(events_of(group_tokens(root)) =~= events_of(seq![open]) + (body + events_of(
        seq![close],
    )));
    lemma_ran_in_two(initial(), events_of(seq![open]), body + events_of(seq![close]), cipher);
    lemma_ran_one(initial(), open, cipher);
    let inside = opened(initial(), "Group"@, Seq::empty());
    lemma_ran_in_two(inside, body, events_of(seq![close]), cipher);
    lemma_children_are_appended(inside, empty_group(), root.children, cipher);
    let filled = with_children(inside, empty_group(), root.children);
    lemma_ran_one(filled, close, cipher);
}

} // verus!
