//! Orphans, and how the strict mode relates to the lenient one.

use crate::cipher::Cipher;
use crate::error::{IntegrityError, Recovery};
use crate::model::{
    ran, ran_strictly, recovery_at, stepped, top_is_orphan, with_top, without_last, DecoderView,
};
use crate::tag::{is_structural, tag_of_name};
use crate::xml::TokenView;
use vstd::prelude::*;

verus! {

/// An element that closes over an orphan does not end the decode. The orphan
/// is dropped: the nodes below it, the root and the metadata stay exactly as
/// they were, and the cipher is not touched.
pub proof fn lemma_orphan_is_dropped<C: Cipher>(state: DecoderView, name: Seq<char>, cipher: C)
    requires
        is_structural(tag_of_name(name)),
        top_is_orphan(state),
    ensures
        stepped(state, TokenView::Close { name }, cipher) == (
            Ok::<DecoderView, IntegrityError>(
                DecoderView {
                    names: without_last(state.names),
                    nodes: state.nodes.drop_last(),
                    ..state
                },
            ),
            cipher,
        ),
{
    let rest = state.nodes.drop_last();
    if rest.len() > 0 {
        assert(with_top(rest, rest.last()) =~= rest);
    }
}

/// Under the strict rule, an element that closes over an orphan ends the
/// decode: the orphan is reported, not dropped.
pub proof fn lemma_orphan_is_reported<C: Cipher>(
    state: DecoderView,
    name: Seq<char>,
    rest: Seq<Option<TokenView>>,
    cipher: C,
)
    requires
        is_structural(tag_of_name(name)),
        top_is_orphan(state),
    ensures
        ran_strictly(state, seq![Some(TokenView::Close { name })] + rest, cipher) == (
            Err::<DecoderView, IntegrityError>(IntegrityError::Recovery(Recovery::Orphan)),
            cipher,
        ),
{
}

/// A strict decode either ends with a report of what the lenient decode
/// would have passed over, or goes exactly as the lenient one: the same result,
/// and the same calls to the cipher.
pub proof fn lemma_strict_agrees_with_lenient<C: Cipher>(
    state: DecoderView,
    events: Seq<Option<TokenView>>,
    cipher: C,
)
    ensures
        ran_strictly(state, events, cipher).0 matches Err(IntegrityError::Recovery(_))
            || ran_strictly(state, events, cipher) == ran(state, events, cipher),
    decreases events.len(),
{
    if events.len() > 0 {
        match events[0] {
            Some(token) => {
                if recovery_at(state, token) is None {
                    let (next, after) = stepped(state, token, cipher);
                    match next {
                        Ok(next) => {
                            lemma_strict_agrees_with_lenient(next, events.drop_first(), after);
                        },
                        Err(_) => {},
                    }
                }
            },
            None => {},
        }
    }
}

} // verus!
