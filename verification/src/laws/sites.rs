//! Where the protected values of a well-formed document stand, and that the
//! cipher is called for exactly those, in document order.

use crate::cipher::Cipher;
use crate::db::ValueView;
use crate::laws::calls::{
    at_protected_site, cipher_through, decrypted_texts, lemma_cipher_is_called_in_order,
    lemma_texts_in_two,
};
use crate::laws::documents::{
    item_tokens, items_tokens, kind, lemma_finishing, lemma_fresh_kinds, lemma_items_grow,
    lemma_linking, lemma_opening, Item,
};
use crate::laws::runs::{events_of, lemma_ran_first, lemma_ran_in_two, lemma_ran_one};
use crate::model::{
    closed, finished, initial, link_into, opened, protected_field, protection_requested, ran,
    stepped, with_secret, with_text, DecoderView,
};
use crate::node::{fresh_node, NodeView};
use crate::tag::{is_structural, tag_of_name, Tag};
use crate::xml::TokenView;
use vstd::prelude::*;

verus! {

/// Where in a document a piece stands, as far as protected values go.
pub struct Place {
    /// The tag of the innermost open element.
    pub tag: Tag,
    /// Whether the innermost node-bearing element is a field.
    pub in_field: bool,
    /// Whether that field's value has been marked as protected.
    pub armed: bool,
}

/// The place at which a state stands.
pub open spec fn place_of(state: DecoderView) -> Place {
    Place {
        tag: if state.names.len() > 0 {
            state.names.last()
        } else {
            Tag::Other
        },
        in_field: state.nodes.len() > 0 && state.nodes.last() is KeyValue,
        armed: state.nodes.len() > 0 && state.nodes.last() matches NodeView::KeyValue(
            _,
            ValueView::Protected(_),
        ),
    }
}

/// The texts of the protected values in a piece that stands at `place`, in
/// document order, and whether the field around the piece is marked as
/// protected once the piece is over.
///
/// Character data is the text of a protected value where it stands directly
/// in a value element, inside a field that has been marked. A field is
/// marked by the first of its value elements that asks for protection, and
/// stays marked to its end. Every element with a node of its own starts
/// afresh inside, and leaves the field around it as it was.
pub open spec fn item_sites(item: Item, place: Place) -> (Seq<Seq<char>>, bool)
    decreases item,
{
    match item {
        Item::Element { name, attributes, content } => {
            let tag = tag_of_name(name);
            if is_structural(tag) {
                let inside = Place { tag, in_field: tag == Tag::Field, armed: false };
                (items_sites(content, inside).0, place.armed)
            } else if tag == Tag::Value {
                let armed = place.armed || (place.in_field && protection_requested(attributes));
                items_sites(content, Place { tag, armed, ..place })
            } else {
                items_sites(content, Place { tag, ..place })
            }
        },
        Item::Text(text) => if place.tag == Tag::Value && place.armed {
            (seq![text], place.armed)
        } else {
            (Seq::empty(), place.armed)
        },
        Item::Other => (Seq::empty(), place.armed),
    }
}

/// The same for a run of pieces.
pub open spec fn items_sites(items: Seq<Item>, place: Place) -> (Seq<Seq<char>>, bool)
    decreases items,
{
    if items.len() == 0 {
        (Seq::empty(), place.armed)
    } else {
        let front = items_sites(items.drop_last(), place);
        let last = item_sites(items.last(), Place { armed: front.1, ..place });
        (front.0 + last.0, last.1)
    }
}

/// The texts of the protected values of a whole document, in document order.
pub open spec fn document_sites(document: Seq<Item>) -> Seq<Seq<char>> {
    items_sites(document, Place { tag: Tag::Other, in_field: false, armed: false }).0
}

/// The texts handed to the decryptor over a token and what follows it.
pub proof fn lemma_texts_first<C: Cipher>(
    state: DecoderView,
    token: TokenView,
    rest: Seq<TokenView>,
    cipher: C,
)
    ensures
        decrypted_texts(state, events_of(seq![token] + rest), cipher) == (if at_protected_site(
            state,
            token,
        ) {
            seq![token->Text_0]
        } else {
            Seq::empty()
        }) + match stepped(state, token, cipher).0 {
            Ok(next) => decrypted_texts(next, events_of(rest), stepped(state, token, cipher).1),
            Err(_) => Seq::empty(),
        },
{
    let events = events_of(seq![token] + rest);
    assert(events[0] == Some(token));
    assert(events.drop_first() =~= events_of(rest));
    let here = if at_protected_site(state, token) {
        seq![token->Text_0]
    } else {
        Seq::<Seq<char>>::empty()
    };
    assert(here + Seq::<Seq<char>>::empty() =~= here);
}

/// What a piece of a document does to the place of a state and to the
/// cipher's diet.
pub open spec fn sited<C: Cipher>(
    before: DecoderView,
    events: Seq<Option<TokenView>>,
    cipher: C,
    sites: (Seq<Seq<char>>, bool),
) -> bool {
    let after = ran(before, events, cipher).0->Ok_0;
    &&& decrypted_texts(before, events, cipher) == sites.0
    &&& place_of(after) == Place { armed: sites.1, ..place_of(before) }
}

/// A piece of a document that is read without a failure hands the decryptor
/// exactly the texts of its protected values, in document order.
pub proof fn lemma_item_is_sited<C: Cipher>(state: DecoderView, item: Item, cipher: C)
    requires
        ran(state, events_of(item_tokens(item)), cipher).0 is Ok,
    ensures
        sited(
            state,
            events_of(item_tokens(item)),
            cipher,
            item_sites(item, place_of(state)),
        ),
    decreases item,
{
    let place = place_of(state);
    let nothing = Seq::<TokenView>::empty();
    match item {
        Item::Other => {
            lemma_ran_one(state, TokenView::Other, cipher);
            lemma_texts_first(state, TokenView::Other, nothing, cipher);
            assert(seq![TokenView::Other] + nothing =~= seq![TokenView::Other]);
            assert(events_of(nothing) =~= Seq::<Option<TokenView>>::empty());
        },
        Item::Text(text) => {
            let token = TokenView::Text(text);
            lemma_ran_one(state, token, cipher);
            lemma_texts_first(state, token, nothing, cipher);
            assert(seq![token] + nothing =~= seq![token]);
            assert(events_of(nothing) =~= Seq::<Option<TokenView>>::empty());
            if state.names.len() > 0 && state.nodes.len() > 0 {
                let top = state.nodes.last();
                assert(kind(with_text(top, state.names.last(), text)) == kind(top));
                assert(forall|plain: Seq<u8>| kind(#[trigger] with_secret(top, plain)) == kind(top));
            }
            assert(decrypted_texts(state, events_of(item_tokens(item)), cipher) =~= item_sites(
                item,
                place,
            ).0);
        },
        Item::Element { name, attributes, content } => {
            let tag = tag_of_name(name);
            let open = TokenView::Open { name, attributes };
            let close = TokenView::Close { name };
            let body = items_tokens(content);
            lemma_ran_first(state, open, body + seq![close], cipher);
            lemma_texts_first(state, open, body + seq![close], cipher);
            let s1 = opened(state, name, attributes);
            assert(events_of(body + seq![close]) =~= events_of(body) + events_of(seq![close]));
            lemma_ran_in_two(s1, events_of(body), events_of(seq![close]), cipher);
            lemma_texts_in_two(s1, events_of(body), events_of(seq![close]), cipher);
            let (middle, turn) = ran(s1, events_of(body), cipher);
            assert(middle is Ok);
            let s2 = middle->Ok_0;
            lemma_items_grow(s1, content, cipher);
            lemma_items_are_sited(s1, content, cipher);
            lemma_ran_one(s2, close, turn);
            lemma_texts_first(s2, close, nothing, turn);
            assert(seq![close] + nothing =~= seq![close]);
            assert(events_of(nothing) =~= Seq::<Option<TokenView>>::empty());
            let s3 = closed(s2, name);
            lemma_opening(state, name, attributes);
            lemma_fresh_kinds(tag);
            assert(s2.names.drop_last() =~= state.names);
            let inner = decrypted_texts(s1, events_of(body), cipher);
            assert(decrypted_texts(state, events_of(item_tokens(item)), cipher) =~= inner) by {
                assert(Seq::<Seq<char>>::empty() + (inner + Seq::<Seq<char>>::empty()) =~= inner);
            }
            match fresh_node(tag) {
                Some(node) => {
                    let popped = DecoderView { names: state.names, ..s2 };
                    assert(s3 == finished(popped));
                    lemma_finishing(popped);
                    assert(s1.nodes.last() == node);
                    assert(s1.nodes.drop_last() =~= state.nodes);
                    assert(s2.nodes.drop_last() == state.nodes);
                    if state.nodes.len() > 0 {
                        lemma_linking(s2.nodes.last(), state.nodes.last());
                        if state.nodes.last() is KeyValue {
                            assert(link_into(s2.nodes.last(), state.nodes.last())
                                == state.nodes.last());
                        }
                    }
                },
                None => {
                    assert(s3.nodes == s2.nodes);
                    if state.nodes.len() > 0 {
                        let top = state.nodes.last();
                        assert(kind(protected_field(top)) == kind(top));
                    }
                },
            }
        },
    }
}

/// The same for a run of pieces.
pub proof fn lemma_items_are_sited<C: Cipher>(state: DecoderView, items: Seq<Item>, cipher: C)
    requires
        ran(state, events_of(items_tokens(items)), cipher).0 is Ok,
    ensures
        sited(
            state,
            events_of(items_tokens(items)),
            cipher,
            items_sites(items, place_of(state)),
        ),
    decreases items,
{
    if items.len() == 0 {
        assert(events_of(items_tokens(items)) =~= Seq::<Option<TokenView>>::empty());
    } else {
        let front = items.drop_last();
        let last = items.last();
        let front_events = events_of(items_tokens(front));
        let last_events = events_of(item_tokens(last));
        assert(events_of(items_tokens(items)) =~= front_events + last_events);
        lemma_ran_in_two(state, front_events, last_events, cipher);
        lemma_texts_in_two(state, front_events, last_events, cipher);
        let (middle, turn) = ran(state, front_events, cipher);
        assert(middle is Ok);
        lemma_items_are_sited(state, front, cipher);
        lemma_item_is_sited(middle->Ok_0, last, turn);
    }
}

/// Over a well-formed document that is read without a failure, the cipher is
/// called for exactly the protected values of the document, once for each,
/// in the order in which they stand, and on the bytes that the value's text
/// stands for in base64. That holds wherever the values stand, also inside
/// elements whose nodes are dropped in the end, and no value in the clear,
/// no name and no other text ever reaches the cipher.
pub proof fn lemma_document_is_decrypted_in_order<C: Cipher>(document: Seq<Item>, cipher: C)
    requires
        ran(initial(), events_of(items_tokens(document)), cipher).0 is Ok,
    ensures
        decrypted_texts(initial(), events_of(items_tokens(document)), cipher) == document_sites(
            document,
        ),
        ran(initial(), events_of(items_tokens(document)), cipher).1 == cipher_through(
            cipher,
            document_sites(document),
        ),
{
    lemma_items_are_sited(initial(), document, cipher);
    lemma_cipher_is_called_in_order(initial(), events_of(items_tokens(document)), cipher);
}

} // verus!
