//! The envelope of machine-readable command output.
use vstd::prelude::*;

use crate::asset_refs::strings_view;
use crate::config::{join, lemma_join_push};

verus! {

/// Declares `anyhow::Error`, the error type of the command layer.
#[verifier::external_type_specification]
#[verifier::external_body]
pub struct ExAnyhowError(anyhow::Error);

/// An error reported to a machine reader.
pub struct ApiError {
    pub message: String,
}

/// The answer of a machine-readable command: data on success, an error otherwise.
pub struct ApiEnvelope<T> {
    pub ok: bool,
    pub data: Option<T>,
    pub error: Option<ApiError>,
}

/// The messages of an error and of its causes, outermost first, joined by `": "`, as
/// the alternate display of `anyhow::Error` writes them.
pub open spec fn chain_message(messages: Seq<Seq<char>>) -> Seq<char> {
    join(messages, ": "@)
}

/// Name for the displayed messages of `anyhow::Error::chain`: the error's own message,
/// then those of its causes, outermost first.
pub uninterp spec fn anyhow_messages(error: anyhow::Error) -> Seq<Seq<char>>;

/// Calls `anyhow::Error::chain` and displays each error of the chain; the chain starts
/// with the error itself, so it has at least one message.
#[verifier::external_body]
fn error_chain(error: &anyhow::Error) -> (r: Vec<String>)
    ensures
        strings_view(r@) == anyhow_messages(*error),
        r@.len() >= 1,
{
    let mut messages = Vec::new();
    for cause in error.chain() {
        messages.push(format!("{cause}"));
    }
    messages
}

impl<T> ApiEnvelope<T> {
    /// A successful answer carrying `data`.
    pub fn success(data: T) -> (r: ApiEnvelope<T>)
        ensures
            r.ok,
            r.data == Some(data),
            r.error is None,
    {
        ApiEnvelope { ok: true, data: Some(data), error: None }
    }

    /// A failed answer whose message is the error's chain of messages (see
    /// [`chain_message`]).
    pub fn failure_from_chain(messages: &[String]) -> (r: ApiEnvelope<T>)
        ensures
            !r.ok,
            r.data is None,
            r.error matches Some(e) && e.message@ == chain_message(strings_view(messages@)),
    {
        let mut text: Vec<char> = Vec::new();
        let mut i: usize = 0;
        while i < messages.len()
            invariant
                i <= messages@.len(),
                text@ == join(strings_view(messages@).subrange(0, i as int), ": "@),
            decreases messages.len() - i,
        {
            let ghost before = strings_view(messages@).subrange(0, i as int);
            if i > 0 {
                crate::text::append_str(&mut text, ": ");
            }
            crate::text::append_str(&mut text, messages[i].as_str());
            proof {
                lemma_join_push(before, messages@[i as int]@, ": "@);
                assert(strings_view(messages@).subrange(0, i + 1) =~= before.push(messages@[i as int]@));
            }
            i += 1;
        }
        assert(strings_view(messages@).subrange(0, messages@.len() as int) =~= strings_view(messages@));
        ApiEnvelope {
            ok: false,
            data: None,
            error: Some(ApiError { message: crate::text::string_of(text.as_slice()) }),
        }
    }

    /// A failed answer for `error`, its message made from the error's chain (see
    /// [`chain_message`]).
    pub fn failure(error: &anyhow::Error) -> (r: ApiEnvelope<T>)
        ensures
            !r.ok,
            r.data is None,
            r.error matches Some(e) && e.message@ == chain_message(anyhow_messages(*error)),
    {
        let messages = error_chain(error);
        Self::failure_from_chain(messages.as_slice())
    }
}

} // verus!
