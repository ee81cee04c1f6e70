//! Runs of events: how they compose, and what never fails.

use crate::cipher::Cipher;
use crate::error::IntegrityError;
use crate::model::{ran, stepped, DecoderView};
use crate::xml::TokenView;
use vstd::prelude::*;

verus! {

/// The events of a run of tokens that the tokenizer read without an error.
pub open spec fn events_of(tokens: Seq<TokenView>) -> Seq<Option<TokenView>> {
    tokens.map_values(|t: TokenView| Some(t))
}

/// An opening tag without attributes.
pub open spec fn open_tag(name: Seq<char>) -> TokenView {
    TokenView::Open { name, attributes: Seq::empty() }
}

/// A closing tag.
pub open spec fn close_tag(name: Seq<char>) -> TokenView {
    TokenView::Close { name }
}

/// What becomes of an outcome when more events follow it: a failure stays,
/// and a state goes on from where it is.
pub open spec fn then_ran<C: Cipher>(
    outcome: (Result<DecoderView, IntegrityError>, C),
    events: Seq<Option<TokenView>>,
) -> (Result<DecoderView, IntegrityError>, C) {
    match outcome.0 {
        Ok(state) => ran(state, events, outcome.1),
        Err(e) => outcome,
    }
}

/// Running two runs of events one after the other is running the second
/// from where the first ended.
pub proof fn lemma_ran_in_two<C: Cipher>(
    state: DecoderView,
    first: Seq<Option<TokenView>>,
    second: Seq<Option<TokenView>>,
    cipher: C,
)
    ensures
        ran(state, first + second, cipher) == then_ran(ran(state, first, cipher), second),
    decreases first.len(),
{
    if first.len() == 0 {
    } else {
        assert((first + second).drop_first() =~= first.drop_first() + second);
        match first[0] {
            Some(token) => {
                let (next, after) = stepped(state, token, cipher);
                match next {
                    Ok(next) => {
                        lemma_ran_in_two(next, first.drop_first(), second, after);
                    },
                    Err(_) => {},
                }
            },
            None => {},
        }
    }
}

/// Running a single token is taking one step.
pub proof fn lemma_ran_one<C: Cipher>(state: DecoderView, token: TokenView, cipher: C)
    ensures
        ran(state, events_of(seq![token]), cipher) == stepped(state, token, cipher),
{
    reveal_with_fuel(ran, 2);
}

/// Running a token and then more tokens is taking one step and going on from there.
pub proof fn lemma_ran_first<C: Cipher>(
    state: DecoderView,
    token: TokenView,
    rest: Seq<TokenView>,
    cipher: C,
)
    ensures
        ran(state, events_of(seq![token] + rest), cipher) == then_ran(
            stepped(state, token, cipher),
            events_of(rest),
        ),
{
    assert(events_of(seq![token] + rest) =~= events_of(seq![token]) + events_of(rest));
    lemma_ran_in_two(state, events_of(seq![token]), events_of(rest), cipher);
    lemma_ran_one(state, token, cipher);
}

/// No opening or closing tag, and nothing that is neither tag nor text, ever
/// ends a lenient decode or touches the cipher.
pub proof fn lemma_structure_never_fails<C: Cipher>(
    state: DecoderView,
    token: TokenView,
    cipher: C,
)
    requires
        token !is Text,
    ensures
        stepped(state, token, cipher).0 is Ok,
        stepped(state, token, cipher).1 == cipher,
{
}

/// A lenient decode never ends with a report of something passed over:
/// whatever it recovers from stays silent.
pub proof fn lemma_lenient_never_reports<C: Cipher>(
    state: DecoderView,
    events: Seq<Option<TokenView>>,
    cipher: C,
)
    ensures
        !(ran(state, events, cipher).0 matches Err(IntegrityError::Recovery(_))),
    decreases events.len(),
{
    if events.len() > 0 {
        match events[0] {
            Some(token) => {
                let (next, after) = stepped(state, token, cipher);
                match next {
                    Ok(next) => {
                        lemma_lenient_never_reports(next, events.drop_first(), after);
                    },
                    Err(_) => {},
                }
            },
            None => {},
        }
    }
}

} // verus!
