//! Fields of an entry: the last value written under a name is the one kept.

use crate::cipher::Cipher;
use crate::db::{EntryView, ValueView};
use crate::error::IntegrityError;
use crate::laws::runs::{
    close_tag, events_of, lemma_ran_first, lemma_ran_in_two, lemma_ran_one, open_tag,
};
use crate::model::{closed, link_into, opened, ran, with_top, DecoderView};
use crate::node::NodeView;
use crate::tag::lemma_known_names;
use crate::xml::TokenView;
use vstd::prelude::*;

verus! {

/// The state in which the innermost node, an entry, has other fields.
pub open spec fn with_fields(
    state: DecoderView,
    entry: EntryView,
    fields: Map<Seq<char>, ValueView>,
) -> DecoderView {
    DecoderView {
        nodes: with_top(state.nodes, NodeView::Entry(EntryView { fields, ..entry })),
        ..state
    }
}

/// Of two fields with the same name that close inside one entry, the entry
/// keeps the value of the second: the outcome is the same as if the first
/// had never been there.
pub proof fn lemma_last_field_wins(
    entry: EntryView,
    key: Seq<char>,
    first: ValueView,
    second: ValueView,
)
    ensures
        link_into(
            NodeView::KeyValue(key, second),
            link_into(NodeView::KeyValue(key, first), NodeView::Entry(entry)),
        ) == link_into(NodeView::KeyValue(key, second), NodeView::Entry(entry)),
        link_into(NodeView::KeyValue(key, second), NodeView::Entry(entry))
            == NodeView::Entry(EntryView { fields: entry.fields.insert(key, second), ..entry }),
        entry.fields.insert(key, first).insert(key, second)[key] == second,
{
    assert(entry.fields.insert(key, first).insert(key, second) =~= entry.fields.insert(
        key,
        second,
    ));
}

/// The tokens of a field element whose value is stored in the clear.
pub open spec fn clear_field_tokens(key: Seq<char>, text: Seq<char>) -> Seq<TokenView> {
    seq![
        open_tag("String"@),
        open_tag("Key"@),
        TokenView::Text(key),
        close_tag("Key"@),
        open_tag("Value"@),
        TokenView::Text(text),
        close_tag("Value"@),
        close_tag("String"@),
    ]
}

/// Inside an open entry, the element of a field in the clear puts the
/// field's text under the field's name, and leaves the cipher alone.
pub proof fn lemma_clear_field_is_read<C: Cipher>(
    state: DecoderView,
    entry: EntryView,
    key: Seq<char>,
    text: Seq<char>,
    cipher: C,
)
    requires
        state.nodes.len() > 0,
        state.nodes.last() == NodeView::Entry(entry),
    ensures
        ran(state, events_of(clear_field_tokens(key, text)), cipher) == (
            Ok::<DecoderView, IntegrityError>(
                with_fields(state, entry, entry.fields.insert(key, ValueView::Unprotected(text))),
            ),
            cipher,
        ),
{
    lemma_known_names();
    let t1 = open_tag("String"@);
    let t2 = open_tag("Key"@);
    let t3 = TokenView::Text(key);
    let t4 = close_tag("Key"@);
    let t5 = open_tag("Value"@);
    let t6 = TokenView::Text(text);
    let t7 = close_tag("Value"@);
    let t8 = close_tag("String"@);
    let r8 = seq![t8];
    let r7 = seq![t7] + r8;
    let r6 = seq![t6] + r7;
    let r5 = seq![t5] + r6;
    let r4 = seq![t4] + r5;
    let r3 = seq![t3] + r4;
    let r2 = seq![t2] + r3;
    assert(clear_field_tokens(key, text) =~= seq![t1] + r2);
    let nothing = Seq::<char>::empty();

    let s1 = opened(state, "String"@, Seq::empty());
    lemma_ran_first(state, t1, r2, cipher);
    let s2 = opened(s1, "Key"@, Seq::empty());
    lemma_ran_first(s1, t2, r3, cipher);
    let s3 = DecoderView {
        nodes: with_top(s2.nodes, NodeView::KeyValue(key, ValueView::Unprotected(nothing))),
        ..s2
    };
    lemma_ran_first(s2, t3, r4, cipher);
    let s4 = closed(s3, "Key"@);
    lemma_ran_first(s3, t4, r5, cipher);
    let s5 = opened(s4, "Value"@, Seq::empty());
    lemma_ran_first(s4, t5, r6, cipher);
    let s6 = DecoderView {
        nodes: with_top(s5.nodes, NodeView::KeyValue(key, ValueView::Unprotected(text))),
        ..s5
    };
    lemma_ran_first(s5, t6, r7, cipher);
    let s7 = closed(s6, "Value"@);
    lemma_ran_first(s6, t7, r8, cipher);
    lemma_ran_one(s7, t8, cipher);
    let s8 = closed(s7, "String"@);
    assert(s8.names =~= state.names);
    assert(s8.nodes =~= with_fields(
        state,
        entry,
        entry.fields.insert(key, ValueView::Unprotected(text)),
    ).nodes);
}

/// Two field elements with the same name, one after the other inside an
/// entry, leave the entry as the second alone would: under that name it
/// holds the second value, and nothing of the first is left.
pub proof fn lemma_second_of_two_fields_wins<C: Cipher>(
    state: DecoderView,
    entry: EntryView,
    key: Seq<char>,
    first: Seq<char>,
    second: Seq<char>,
    cipher: C,
)
    requires
        state.nodes.len() > 0,
        state.nodes.last() == NodeView::Entry(entry),
    ensures
        ran(
            state,
            events_of(clear_field_tokens(key, first) + clear_field_tokens(key, second)),
            cipher,
        ) == ran(state, events_of(clear_field_tokens(key, second)), cipher),
        ran(state, events_of(clear_field_tokens(key, second)), cipher) == (
            Ok::<DecoderView, IntegrityError>(
                with_fields(state, entry, entry.fields.insert(key, ValueView::Unprotected(second))),
            ),
            cipher,
        ),
{
    let once = entry.fields.insert(key, ValueView::Unprotected(first));
    let middle = with_fields(state, entry, once);
    assert(events_of(clear_field_tokens(key, first) + clear_field_tokens(key, second))
        =~= events_of(clear_field_tokens(key, first)) + events_of(
        clear_field_tokens(key, second),
    ));
    lemma_ran_in_two(
        state,
        events_of(clear_field_tokens(key, first)),
        events_of(clear_field_tokens(key, second)),
        cipher,
    );
    lemma_clear_field_is_read(state, entry, key, first, cipher);
    lemma_clear_field_is_read(middle, EntryView { fields: once, ..entry }, key, second, cipher);
    lemma_clear_field_is_read(state, entry, key, second, cipher);
    assert(once.insert(key, ValueView::Unprotected(second)) =~= entry.fields.insert(
        key,
        ValueView::Unprotected(second),
    ));
    assert(middle.nodes.drop_last() =~= state.nodes.drop_last());
}

} // verus!
