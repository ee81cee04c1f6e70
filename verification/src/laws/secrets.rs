//! Protected values are decrypted in document order.

use crate::cipher::Cipher;
use crate::db::{EntryView, ValueView};
use crate::error::IntegrityError;
use crate::laws::fields::with_fields;
use crate::laws::runs::{
    close_tag, events_of, lemma_ran_first, lemma_ran_in_two, lemma_ran_one, open_tag,
};
use crate::model::{closed, opened, protection_requested, ran, with_top, DecoderView};
use crate::node::NodeView;
use crate::protect::unsealed;
use crate::tag::lemma_known_names;
use crate::text::ascii_lowered;
use crate::xml::TokenView;
use vstd::prelude::*;

verus! {

/// A field of a document whose value is protected: its name, and the base64
/// text of its value.
pub struct ProtectedField {
    pub key: Seq<char>,
    pub text: Seq<char>,
}

/// The opening tag of a value element that asks for protection.
pub open spec fn open_protected_value() -> TokenView {
    TokenView::Open { name: "Value"@, attributes: seq![("Protected"@, "True"@)] }
}

/// The tokens of a field element whose value is protected.
pub open spec fn protected_field_tokens(field: ProtectedField) -> Seq<TokenView> {
    seq![
        open_tag("String"@),
        open_tag("Key"@),
        TokenView::Text(field.key),
        close_tag("Key"@),
        open_protected_value(),
        TokenView::Text(field.text),
        close_tag("Value"@),
        close_tag("String"@),
    ]
}

/// The tokens of a run of protected fields, one element after the other.
pub open spec fn protected_fields_tokens(fields: Seq<ProtectedField>) -> Seq<TokenView>
    decreases fields.len(),
{
    if fields.len() == 0 {
        Seq::empty()
    } else {
        protected_fields_tokens(fields.drop_last()) + protected_field_tokens(fields.last())
    }
}

/// The cipher after it has decrypted the values of the fields, first to last.
pub open spec fn cipher_after<C: Cipher>(cipher: C, fields: Seq<ProtectedField>) -> C
    decreases fields.len(),
{
    if fields.len() == 0 {
        cipher
    } else {
        unsealed(fields.last().text, cipher_after(cipher, fields.drop_last())).1
    }
}

/// What decrypting the value of field `i` gives once the cipher has
/// decrypted the values of all the fields before it, first to last.
pub open spec fn plaintext_at<C: Cipher>(cipher: C, fields: Seq<ProtectedField>, i: int) -> Result<
    Seq<u8>,
    IntegrityError,
> {
    unsealed(fields[i].text, cipher_after(cipher, fields.take(i))).0
}

/// The fields of an entry after protected fields have been read into it,
/// first to last, each with the plaintext that its turn at the cipher gave.
pub open spec fn with_secrets<C: Cipher>(
    known: Map<Seq<char>, ValueView>,
    cipher: C,
    fields: Seq<ProtectedField>,
) -> Map<Seq<char>, ValueView>
    decreases fields.len(),
{
    if fields.len() == 0 {
        known
    } else {
        with_secrets(known, cipher, fields.drop_last()).insert(
            fields.last().key,
            ValueView::Protected(plaintext_at(cipher, fields, fields.len() - 1)->Ok_0),
        )
    }
}

/// Inside an open entry, the element of one protected field costs the cipher
/// one call, on the field's text, and puts the plaintext under the field's
/// name.
pub proof fn lemma_protected_field_is_read<C: Cipher>(
    state: DecoderView,
    entry: EntryView,
    field: ProtectedField,
    cipher: C,
)
    requires
        state.nodes.len() > 0,
        state.nodes.last() == NodeView::Entry(entry),
        unsealed(field.text, cipher).0 is Ok,
    ensures
        ran(state, events_of(protected_field_tokens(field)), cipher) == (
            Ok::<DecoderView, IntegrityError>(
                with_fields(
                    state,
                    entry,
                    entry.fields.insert(
                        field.key,
                        ValueView::Protected(unsealed(field.text, cipher).0->Ok_0),
                    ),
                ),
            ),
            unsealed(field.text, cipher).1,
        ),
{
    lemma_known_names();
    let t1 = open_tag("String"@);
    let t2 = open_tag("Key"@);
    let t3 = TokenView::Text(field.key);
    let t4 = close_tag("Key"@);
    let t5 = open_protected_value();
    let t6 = TokenView::Text(field.text);
    let t7 = close_tag("Value"@);
    let t8 = close_tag("String"@);
    let r8 = seq![t8];
    let r7 = seq![t7] + r8;
    let r6 = seq![t6] + r7;
    let r5 = seq![t5] + r6;
    let r4 = seq![t4] + r5;
    let r3 = seq![t3] + r4;
    let r2 = seq![t2] + r3;
    assert(protected_field_tokens(field) =~= seq![t1] + r2);
    let after = unsealed(field.text, cipher).1;
    let plain = unsealed(field.text, cipher).0->Ok_0;

    let s1 = opened(state, "String"@, Seq::empty());
    lemma_ran_first(state, t1, r2, cipher);
    let s2 = opened(s1, "Key"@, Seq::empty());
    lemma_ran_first(s1, t2, r3, cipher);
    assert(s2.nodes.last() == NodeView::KeyValue(
        Seq::<char>::empty(),
        ValueView::Unprotected(Seq::<char>::empty()),
    ));
    let s3 = DecoderView {
        nodes: with_top(
            s2.nodes,
            NodeView::KeyValue(field.key, ValueView::Unprotected(Seq::<char>::empty())),
        ),
        ..s2
    };
    lemma_ran_first(s2, t3, r4, cipher);
    let s4 = closed(s3, "Key"@);
    lemma_ran_first(s3, t4, r5, cipher);
    assert(protection_requested(seq![("Protected"@, "True"@)])) by {
        reveal_strlit("True");
        reveal_strlit("true");
        reveal_strlit("Protected");
        assert(ascii_lowered("True"@) =~= "true"@);
    }
    let s5 = opened(s4, "Value"@, seq![("Protected"@, "True"@)]);
    lemma_ran_first(s4, t5, r6, cipher);
    assert(s5.nodes.last() == NodeView::KeyValue(
        field.key,
        ValueView::Protected(Seq::<u8>::empty()),
    ));
    let s6 = DecoderView {
        nodes: with_top(s5.nodes, NodeView::KeyValue(field.key, ValueView::Protected(plain))),
        ..s5
    };
    lemma_ran_first(s5, t6, r7, cipher);
    let s7 = closed(s6, "Value"@);
    lemma_ran_first(s6, t7, r8, after);
    lemma_ran_one(s7, t8, after);
    let s8 = closed(s7, "String"@);
    assert(s8.names =~= state.names);
    assert(s8.nodes =~= with_fields(
        state,
        entry,
        entry.fields.insert(field.key, ValueView::Protected(plain)),
    ).nodes);
}

/// Inside an open entry, a run of protected fields is decrypted in the
/// order in which the fields stand: each value gets the plaintext that the
/// cipher gives once it has decrypted all the values before it, no other
/// call is made, and the cipher ends where those calls leave it. This holds
/// as long as every value can be decrypted.
pub proof fn lemma_secrets_are_read_in_order<C: Cipher>(
    state: DecoderView,
    entry: EntryView,
    fields: Seq<ProtectedField>,
    cipher: C,
)
    requires
        state.nodes.len() > 0,
        state.nodes.last() == NodeView::Entry(entry),
        forall|i: int| 0 <= i < fields.len() ==> plaintext_at(cipher, fields, i) is Ok,
    ensures
        ran(state, events_of(protected_fields_tokens(fields)), cipher) == (
            Ok::<DecoderView, IntegrityError>(
                with_fields(state, entry, with_secrets(entry.fields, cipher, fields)),
            ),
            cipher_after(cipher, fields),
        ),
    decreases fields.len(),
{
    if fields.len() == 0 {
        assert(with_top(state.nodes, state.nodes.last()) =~= state.nodes);
    } else {
        let front = fields.drop_last();
        let last = fields.last();
        let front_events = events_of(protected_fields_tokens(front));
        let last_events = events_of(protected_field_tokens(last));
        assert(events_of(protected_fields_tokens(fields)) =~= front_events + last_events);
        assert forall|i: int| 0 <= i < front.len() implies plaintext_at(cipher, front, i) is Ok by {
            assert(front.take(i) =~= fields.take(i));
            assert(plaintext_at(cipher, fields, i) is Ok);
        }
        lemma_secrets_are_read_in_order(state, entry, front, cipher);
        lemma_ran_in_two(state, front_events, last_events, cipher);
        let known = with_secrets(entry.fields, cipher, front);
        let middle = with_fields(state, entry, known);
        let grown = EntryView { fields: known, ..entry };
        let turn = cipher_after(cipher, front);
        lemma_protected_field_is_read(middle, grown, last, turn);
        assert(middle.nodes.drop_last() =~= state.nodes.drop_last());
    }
}

/// Where no two of the fields share a name, each name ends up with the
/// plaintext of its own field.
pub proof fn lemma_each_secret_is_kept<C: Cipher>(
    known: Map<Seq<char>, ValueView>,
    cipher: C,
    fields: Seq<ProtectedField>,
    i: int,
)
    requires
        0 <= i < fields.len(),
        forall|a: int, b: int|
            0 <= a < b < fields.len() ==> (#[trigger] fields[a]).key != (#[trigger] fields[b]).key,
    ensures
        with_secrets(known, cipher, fields).contains_key(fields[i].key),
        with_secrets(known, cipher, fields)[fields[i].key] == ValueView::Protected(
            plaintext_at(cipher, fields, i)->Ok_0,
        ),
    decreases fields.len(),
{
    let front = fields.drop_last();
    if i < fields.len() - 1 {
        assert(front.take(i) =~= fields.take(i));
        assert(forall|a: int, b: int|
            0 <= a < b < front.len() ==> (#[trigger] front[a]).key != (#[trigger] front[b]).key);
        lemma_each_secret_is_kept(known, cipher, front, i);
    }
}

} // verus!
