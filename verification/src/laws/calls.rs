//! The calls that a decode makes to the cipher, over any run of events.

use crate::cipher::Cipher;
use crate::db::ValueView;
use crate::error::IntegrityError;
use crate::laws::runs::lemma_ran_in_two;
use crate::model::{is_protected_site, ran, stepped, with_secret, with_top, DecoderView};
use crate::node::NodeView;
use crate::protect::unsealed;
use crate::xml::TokenView;
use vstd::prelude::*;

verus! {

/// Whether `token` is the text of a protected value in `state`: character
/// data, read while the innermost open element is a value element and the
/// innermost node is a field whose value has been marked as protected.
pub open spec fn at_protected_site(state: DecoderView, token: TokenView) -> bool {
    &&& token is Text
    &&& state.names.len() > 0
    &&& state.nodes.len() > 0
    &&& is_protected_site(state.names.last(), state.nodes.last())
}

/// The texts that a decode hands to the decryptor during a run of events, in
/// the order of the events. The run is followed as far as it goes: up to its
/// end, or up to and including the event at which it fails.
pub open spec fn decrypted_texts<C: Cipher>(
    state: DecoderView,
    events: Seq<Option<TokenView>>,
    cipher: C,
) -> Seq<Seq<char>>
    decreases events.len(),
{
    if events.len() == 0 {
        Seq::empty()
    } else {
        match events[0] {
            Some(token) => {
                let here = if at_protected_site(state, token) {
                    seq![token->Text_0]
                } else {
                    Seq::empty()
                };
                let (next, cipher) = stepped(state, token, cipher);
                match next {
                    Ok(next) => here + decrypted_texts(next, events.drop_first(), cipher),
                    Err(_) => here,
                }
            },
            None => Seq::empty(),
        }
    }
}

/// The cipher after it has been handed the given texts, first to last, each
/// through the decryptor: text that is base64 costs it one call on the
/// decoded bytes, other text none.
pub open spec fn cipher_through<C: Cipher>(cipher: C, texts: Seq<Seq<char>>) -> C
    decreases texts.len(),
{
    if texts.len() == 0 {
        cipher
    } else {
        cipher_through(unsealed(texts[0], cipher).1, texts.drop_first())
    }
}

/// A token that is not the text of a protected value leaves the cipher
/// alone: no unprotected value, no name, no tag ever reaches it.
pub proof fn lemma_cipher_is_left_alone<C: Cipher>(state: DecoderView, token: TokenView, cipher: C)
    requires
        !at_protected_site(state, token),
    ensures
        stepped(state, token, cipher).0 is Ok,
        stepped(state, token, cipher).1 == cipher,
{
}

/// The text of a protected value goes through the decryptor exactly once, in
/// the keystream state that the cipher is in at that moment. Where that
/// succeeds, the field holds the plaintext from then on; where it fails, the
/// decode ends with that failure.
pub proof fn lemma_protected_text_is_decrypted<C: Cipher>(
    state: DecoderView,
    text: Seq<char>,
    cipher: C,
)
    requires
        at_protected_site(state, TokenView::Text(text)),
    ensures
        stepped(state, TokenView::Text(text), cipher).1 == unsealed(text, cipher).1,
        match unsealed(text, cipher).0 {
            Ok(plain) => {
                &&& stepped(state, TokenView::Text(text), cipher).0 == Ok::<
                    DecoderView,
                    IntegrityError,
                >(
                    DecoderView {
                        nodes: with_top(state.nodes, with_secret(state.nodes.last(), plain)),
                        ..state
                    },
                )
                &&& with_secret(state.nodes.last(), plain) == NodeView::KeyValue(
                    state.nodes.last()->KeyValue_0,
                    ValueView::Protected(plain),
                )
            },
            Err(e) => stepped(state, TokenView::Text(text), cipher).0 == Err::<
                DecoderView,
                IntegrityError,
            >(e),
        },
{
}

/// Over any run of events, the cipher ends exactly where the texts of the
/// protected values leave it, taken in the order in which they stand: each
/// such text costs it one call, and nothing else costs it any.
pub proof fn lemma_cipher_is_called_in_order<C: Cipher>(
    state: DecoderView,
    events: Seq<Option<TokenView>>,
    cipher: C,
)
    ensures
        ran(state, events, cipher).1 == cipher_through(
            cipher,
            decrypted_texts(state, events, cipher),
        ),
    decreases events.len(),
{
    if events.len() > 0 {
        match events[0] {
            Some(token) => {
                let (next, after) = stepped(state, token, cipher);
                let texts = decrypted_texts(state, events, cipher);
                let rest = match next {
                    Ok(next) => decrypted_texts(next, events.drop_first(), after),
                    Err(_) => Seq::empty(),
                };
                match next {
                    Ok(next) => {
                        lemma_cipher_is_called_in_order(next, events.drop_first(), after);
                    },
                    Err(_) => {},
                }
                assert(ran(state, events, cipher).1 == cipher_through(after, rest));
                if at_protected_site(state, token) {
                    let text = token->Text_0;
                    lemma_protected_text_is_decrypted(state, text, cipher);
                    assert(texts =~= seq![text] + rest);
                    assert(texts[0] == text);
                    assert(texts.drop_first() =~= rest);
                } else {
                    lemma_cipher_is_left_alone(state, token, cipher);
                    assert(texts =~= rest);
                }
            },
            None => {},
        }
    }
}

/// The texts of a run in two parts are those of the first part, followed by
/// those of the second where the first part does not fail.
pub proof fn lemma_texts_in_two<C: Cipher>(
    state: DecoderView,
    first: Seq<Option<TokenView>>,
    second: Seq<Option<TokenView>>,
    cipher: C,
)
    ensures
        decrypted_texts(state, first + second, cipher) == decrypted_texts(state, first, cipher)
            + match ran(state, first, cipher).0 {
            Ok(middle) => decrypted_texts(middle, second, ran(state, first, cipher).1),
            Err(_) => Seq::empty(),
        },
    decreases first.len(),
{
    let whole = decrypted_texts(state, first + second, cipher);
    if first.len() == 0 {
        assert(first + second =~= second);
        assert(Seq::<Seq<char>>::empty() + whole =~= whole);
    } else {
        assert((first + second).drop_first() =~= first.drop_first() + second);
        match first[0] {
            Some(token) => {
                let here = if at_protected_site(state, token) {
                    seq![token->Text_0]
                } else {
                    Seq::empty()
                };
                let (next, after) = stepped(state, token, cipher);
                match next {
                    Ok(next) => {
                        lemma_texts_in_two(next, first.drop_first(), second, after);
                        let a = decrypted_texts(next, first.drop_first(), after);
                        let b = match ran(next, first.drop_first(), after).0 {
                            Ok(middle) => decrypted_texts(
                                middle,
                                second,
                                ran(next, first.drop_first(), after).1,
                            ),
                            Err(_) => Seq::empty(),
                        };
                        assert(here + (a + b) =~= (here + a) + b);
                    },
                    Err(_) => {
                        assert(here + Seq::<Seq<char>>::empty() =~= here);
                    },
                }
            },
            None => {
                assert(whole + Seq::<Seq<char>>::empty() =~= whole);
            },
        }
    }
}

/// Wherever a protected value stands in a document, it is decrypted in its
/// turn: the cipher has by then been through the texts of exactly the
/// protected values before it, in their order, and through nothing else.
pub proof fn lemma_each_protected_value_has_its_turn<C: Cipher>(
    start: DecoderView,
    before: Seq<Option<TokenView>>,
    text: Seq<char>,
    cipher: C,
)
    requires
        ran(start, before, cipher).0 is Ok,
        at_protected_site(ran(start, before, cipher).0->Ok_0, TokenView::Text(text)),
    ensures
        ({
            let (state, turn) = ran(start, before, cipher);
            let earlier = decrypted_texts(start, before, cipher);
            let here = seq![Some(TokenView::Text(text))];
            &&& turn == cipher_through(cipher, earlier)
            &&& decrypted_texts(start, before + here, cipher) == earlier.push(text)
            &&& ran(start, before + here, cipher) == stepped(
                state->Ok_0,
                TokenView::Text(text),
                turn,
            )
            &&& ran(start, before + here, cipher).1 == unsealed(text, turn).1
        }),
{
    let (state, turn) = ran(start, before, cipher);
    let earlier = decrypted_texts(start, before, cipher);
    let here = seq![Some(TokenView::Text(text))];
    lemma_cipher_is_called_in_order(start, before, cipher);
    lemma_texts_in_two(start, before, here, cipher);
    lemma_ran_in_two(start, before, here, cipher);
    assert(here.drop_first() =~= Seq::<Option<TokenView>>::empty());
    reveal_with_fuel(ran, 2);
    reveal_with_fuel(decrypted_texts, 2);
    let token = TokenView::Text(text);
    let (next, after) = stepped(state->Ok_0, token, turn);
    assert(decrypted_texts(state->Ok_0, here, turn) =~= seq![text]);
    assert(earlier + seq![text] =~= earlier.push(text));
    assert(ran(state->Ok_0, here, turn) == stepped(state->Ok_0, token, turn));
}

/// Once the value of a field has been marked as protected it stays so: no
/// token turns it back, for as long as the field's node is on the stack.
pub proof fn lemma_protection_is_kept<C: Cipher>(
    state: DecoderView,
    token: TokenView,
    cipher: C,
    i: int,
)
    requires
        0 <= i < state.nodes.len(),
        state.nodes[i] matches NodeView::KeyValue(_, ValueView::Protected(_)),
        stepped(state, token, cipher).0 matches Ok(next) && i < next.nodes.len(),
    ensures
        stepped(state, token, cipher).0->Ok_0.nodes[i] matches NodeView::KeyValue(
            _,
            ValueView::Protected(_),
        ),
{
}

} // verus!
