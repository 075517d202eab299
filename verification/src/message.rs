//! Messages and splice events: the vocabulary shared by the transcript
//! store and the virtualized window.

use vstd::prelude::*;

verus! {

/// Who produced a message.
#[derive(Clone, Copy, PartialEq, Eq, Structural, Debug)]
pub enum Sender {
    User,
    Assistant,
}

/// One transcript entry. Immutable once appended; identity is positional.
pub struct Message {
    pub sender: Sender,
    pub text: String,
}

/// Mathematical model of a `Message`.
pub ghost struct MessageView {
    pub sender: Sender,
    pub text: Seq<char>,
}

impl View for Message {
    type V = MessageView;

    open spec fn view(&self) -> MessageView {
        MessageView { sender: self.sender, text: self.text@ }
    }
}

/// A contiguous insertion into an ordered sequence: `inserted_count` new
/// entries beginning at `start_index`. Observers use it to update
/// incrementally instead of rescanning the whole transcript.
#[derive(Clone, Copy, PartialEq, Eq, Structural, Debug)]
pub struct SpliceEvent {
    pub start_index: usize,
    pub inserted_count: usize,
}

} // verus!
