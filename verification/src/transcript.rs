//! The transcript store: the single source of truth for what was said, in
//! what order, by which sender. Append-only; no deletion or edit.

use vstd::prelude::*;
use crate::message::{Message, MessageView, SpliceEvent};

verus! {

/// Errors raised by the transcript store.
#[derive(Clone, Copy, PartialEq, Eq, Structural, Debug)]
pub enum TranscriptError {
    /// An index at or past `len()` was accessed: a programming-contract
    /// violation, not a recoverable runtime condition.
    OutOfRange,
}

/// Ordered, append-growing sequence of messages. Insertion order is
/// conversation order; indices of existing entries never change.
pub struct Transcript {
    messages: Vec<Message>,
}

impl View for Transcript {
    type V = Seq<MessageView>;

    closed spec fn view(&self) -> Seq<MessageView> {
        self.messages@.map(|i: int, m: Message| m@)
    }
}

impl Transcript {
    /// An empty transcript.
    pub fn new() -> (t: Transcript)
        ensures
            t@ == Seq::<MessageView>::empty(),
    {
        let t = Transcript { messages: Vec::new() };
        proof {
            assert(t@ =~= Seq::<MessageView>::empty());
        }
        t
    }

    /// Number of messages appended so far.
    pub fn len(&self) -> (n: usize)
        ensures
            n == self@.len(),
    {
        self.messages.len()
    }

    /// The message at `index`, or `OutOfRange` exactly when `index` is at or
    /// past the current length.
    pub fn get(&self, index: usize) -> (r: Result<&Message, TranscriptError>)
        ensures
            r is Ok <==> index < self@.len(),
            r is Ok ==> r->Ok_0@ == self@[index as int],
            r is Err ==> r->Err_0 == TranscriptError::OutOfRange,
    {
        if index < self.messages.len() {
            Ok(&self.messages[index])
        } else {
            Err(TranscriptError::OutOfRange)
        }
    }

    /// Appends `batch` at the tail and reports the exact range inserted.
    /// Existing entries keep their indices and values.
    pub fn append_many(&mut self, batch: Vec<Message>) -> (ev: SpliceEvent)
        ensures
            final(self)@ == old(self)@ + batch@.map(|i: int, m: Message| m@),
            ev.start_index == old(self)@.len(),
            ev.inserted_count == batch@.len(),
    {
        let ghost batch_view = batch@.map(|i: int, m: Message| m@);
        let start = self.messages.len();
        let count = batch.len();
        let mut incoming = batch;
        self.messages.append(&mut incoming);
        proof {
            assert(self@ =~= old(self)@ + batch_view);
        }
        SpliceEvent { start_index: start, inserted_count: count }
    }
}

/// Append-only ordering law: appending never changes the value observed at
/// any index that already existed. `get(i)` before an append and after it
/// denote the same message view.
pub proof fn lemma_append_preserves_existing(
    before: Seq<MessageView>,
    added: Seq<MessageView>,
    i: int,
)
    requires
        0 <= i < before.len(),
    ensures
        (before + added)[i] == before[i],
{
}

} // verus!
