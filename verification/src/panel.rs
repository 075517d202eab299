//! The panel core: a transcript store and a virtualized window driven by
//! the submit pipeline. On submit the composer's text becomes a user
//! message, the responder's reply an assistant message, and the window is
//! told about the splice so the new tail stays visible when pinned.

use vstd::prelude::*;
use vstd::string::StringExecFns;
use crate::message::{Message, MessageView, Sender, SpliceEvent};
use crate::transcript::Transcript;
use crate::window::{content_height, spliced_rows, AnchorState, VirtualWindow};

verus! {

/// Where the submit pipeline stands. A new submission may only start once
/// the previous cycle is back to `Idle`; a responder reply is only
/// accepted while `Submitting`, so a superseded reply cannot be appended
/// out of order.
#[derive(Clone, Copy, PartialEq, Eq, Structural, Debug)]
pub enum Phase {
    /// Nothing in flight.
    Idle,
    /// The composer holds text being edited.
    Composing,
    /// A user message is appended and the responder's reply is awaited.
    Submitting,
}

/// The responder collaborator failed or timed out. The turn is still
/// recorded: the user's message stays visible and a distinguishable
/// placeholder stands in for the missing reply.
#[derive(Clone, Copy, PartialEq, Eq, Structural, Debug)]
pub struct ResponderFailure;

/// The reply the echo responder owes for a given input.
pub open spec fn echo_reply(user_text: Seq<char>) -> Seq<char> {
    "You said: "@ + user_text
}

/// Text of the placeholder appended when the responder fails.
pub open spec fn failed_reply() -> Seq<char> {
    "(the responder failed to reply)"@
}

/// The assistant text a responder outcome leads to: the reply itself, or
/// the failure placeholder.
pub open spec fn outcome_text(outcome: Result<String, ResponderFailure>) -> Seq<char> {
    match outcome {
        Ok(reply) => reply@,
        Err(_) => failed_reply(),
    }
}

/// The stubbed responder capability: echoes the input behind a fixed
/// label. The seam where a real reply backend plugs in.
pub fn respond(user_text: &str) -> (reply: String)
    ensures
        reply@ == echo_reply(user_text@),
{
    let mut reply = String::from_str("You said: ");
    reply.append(user_text);
    reply
}

/// The chat panel's core state: the message sequence, the derived window
/// geometry, and the pipeline phase.
pub struct Assistant {
    pub transcript: Transcript,
    pub window: VirtualWindow,
    pub phase: Phase,
}

impl Assistant {
    /// The window lays out exactly one row per transcript message.
    pub open spec fn wf(self) -> bool {
        &&& self.window.wf()
        &&& self.window.heights@.len() == self.transcript@.len()
    }

    /// An empty panel: no messages, bottom-pinned window, idle pipeline.
    pub fn new(default_row_height: u64, epsilon: u64) -> (a: Assistant)
        requires
            default_row_height > 0,
        ensures
            a.wf(),
            a.transcript@.len() == 0,
            a.phase == Phase::Idle,
            a.window.default_height == default_row_height,
            a.window.epsilon == epsilon,
            a.window.anchor == AnchorState::BottomPinned,
    {
        Assistant {
            transcript: Transcript::new(),
            window: VirtualWindow::new(default_row_height, epsilon),
            phase: Phase::Idle,
        }
    }

    /// The composer gained text: the pipeline is now composing.
    pub fn begin_composing(&mut self)
        requires
            old(self).phase is Idle,
        ensures
            final(self).phase == Phase::Composing,
            final(self).transcript == old(self).transcript,
            final(self).window == old(self).window,
    {
        self.phase = Phase::Composing;
    }

    /// Submits the composer's text through the synchronous echo responder.
    /// Empty text is a no-op: nothing is appended and no splice happens.
    /// Otherwise the user message and the echoed reply are appended
    /// together, as one atomic splice of two rows, and the window reacts
    /// to it: pinned stays at the bottom, free scroll does not move.
    pub fn submit(&mut self, composer_text: String) -> (ev: Option<SpliceEvent>)
        requires
            old(self).wf(),
            !(old(self).phase is Submitting),
            old(self).transcript@.len() + 2 <= usize::MAX,
            content_height(old(self).window.heights@, old(self).window.default_height) + 2
                * old(self).window.default_height <= u64::MAX,
        ensures
            final(self).wf(),
            final(self).phase == Phase::Idle,
            composer_text@.len() == 0 ==> {
                &&& ev is None
                &&& final(self).transcript == old(self).transcript
                &&& final(self).window == old(self).window
            },
            composer_text@.len() > 0 ==> {
                &&& ev == Some(
                    SpliceEvent {
                        start_index: old(self).transcript@.len() as usize,
                        inserted_count: 2,
                    },
                )
                &&& final(self).transcript@ == old(self).transcript@ + seq![
                    MessageView { sender: Sender::User, text: composer_text@ },
                    MessageView { sender: Sender::Assistant, text: echo_reply(composer_text@) },
                ]
                &&& final(self).window.heights@ == spliced_rows(
                    old(self).window.heights@,
                    old(self).transcript@.len() as int,
                    2,
                )
                &&& final(self).window.anchor == old(self).window.anchor
                &&& (old(self).window.anchor is FreeScroll ==> final(self).window.scroll_offset
                    == old(self).window.scroll_offset)
            },
    {
        if composer_text.as_str().is_empty() {
            self.phase = Phase::Idle;
            return None;
        }
        self.phase = Phase::Submitting;
        let reply = respond(composer_text.as_str());
        let ghost user_view = MessageView { sender: Sender::User, text: composer_text@ };
        let ghost reply_view = MessageView {
            sender: Sender::Assistant,
            text: echo_reply(composer_text@),
        };
        let mut batch: Vec<Message> = Vec::new();
        batch.push(Message { sender: Sender::User, text: composer_text });
        batch.push(Message { sender: Sender::Assistant, text: reply });
        proof {
            assert(batch@.map(|i: int, m: Message| m@) =~= seq![user_view, reply_view]);
        }
        let ev = self.transcript.append_many(batch);
        proof {
            lemma_splice_extends_by_default(
                old(self).window.heights@,
                old(self).window.default_height,
                2,
            );
        }
        self.window.on_splice(ev);
        self.phase = Phase::Idle;
        Some(ev)
    }

    /// First half of a submission against an asynchronous responder:
    /// appends the user's message alone — so it is visible immediately,
    /// before the pipeline waits for a reply — and enters `Submitting`.
    /// Empty text is a no-op that returns the pipeline to `Idle`.
    pub fn begin_submission(&mut self, composer_text: String) -> (ev: Option<SpliceEvent>)
        requires
            old(self).wf(),
            !(old(self).phase is Submitting),
            old(self).transcript@.len() + 1 <= usize::MAX,
            content_height(old(self).window.heights@, old(self).window.default_height)
                + old(self).window.default_height <= u64::MAX,
        ensures
            final(self).wf(),
            composer_text@.len() == 0 ==> {
                &&& ev is None
                &&& final(self).phase == Phase::Idle
                &&& final(self).transcript == old(self).transcript
                &&& final(self).window == old(self).window
            },
            composer_text@.len() > 0 ==> {
                &&& ev == Some(
                    SpliceEvent {
                        start_index: old(self).transcript@.len() as usize,
                        inserted_count: 1,
                    },
                )
                &&& final(self).phase == Phase::Submitting
                &&& final(self).transcript@ == old(self).transcript@ + seq![
                    MessageView { sender: Sender::User, text: composer_text@ },
                ]
                &&& final(self).window.anchor == old(self).window.anchor
                &&& (old(self).window.anchor is FreeScroll ==> final(self).window.scroll_offset
                    == old(self).window.scroll_offset)
            },
    {
        if composer_text.as_str().is_empty() {
            self.phase = Phase::Idle;
            return None;
        }
        self.phase = Phase::Submitting;
        let ghost user_view = MessageView { sender: Sender::User, text: composer_text@ };
        let mut batch: Vec<Message> = Vec::new();
        batch.push(Message { sender: Sender::User, text: composer_text });
        proof {
            assert(batch@.map(|i: int, m: Message| m@) =~= seq![user_view]);
        }
        let ev = self.transcript.append_many(batch);
        proof {
            lemma_splice_extends_by_default(
                old(self).window.heights@,
                old(self).window.default_height,
                1,
            );
        }
        self.window.on_splice(ev);
        Some(ev)
    }

    /// Second half of a submission: the responder's outcome arrives. A
    /// reply is appended as the assistant's message; a failure appends the
    /// distinguishable placeholder instead, so the turn is never silently
    /// dropped and ordering is preserved. Only accepted while
    /// `Submitting`, which forces superseded replies to be discarded by
    /// the caller rather than appended out of order.
    pub fn finish_submission(
        &mut self,
        outcome: Result<String, ResponderFailure>,
    ) -> (ev: SpliceEvent)
        requires
            old(self).wf(),
            old(self).phase is Submitting,
            old(self).transcript@.len() + 1 <= usize::MAX,
            content_height(old(self).window.heights@, old(self).window.default_height)
                + old(self).window.default_height <= u64::MAX,
        ensures
            final(self).wf(),
            final(self).phase == Phase::Idle,
            ev == (SpliceEvent {
                start_index: old(self).transcript@.len() as usize,
                inserted_count: 1,
            }),
            final(self).transcript@ == old(self).transcript@ + seq![
                MessageView { sender: Sender::Assistant, text: outcome_text(outcome) },
            ],
            final(self).window.anchor == old(self).window.anchor,
            old(self).window.anchor is FreeScroll ==> final(self).window.scroll_offset
                == old(self).window.scroll_offset,
    {
        let text = match outcome {
            Ok(reply) => reply,
            Err(_) => String::from_str("(the responder failed to reply)"),
        };
        let ghost reply_view = MessageView { sender: Sender::Assistant, text: text@ };
        let mut batch: Vec<Message> = Vec::new();
        batch.push(Message { sender: Sender::Assistant, text });
        proof {
            assert(batch@.map(|i: int, m: Message| m@) =~= seq![reply_view]);
        }
        let ev = self.transcript.append_many(batch);
        proof {
            lemma_splice_extends_by_default(
                old(self).window.heights@,
                old(self).window.default_height,
                1,
            );
        }
        self.window.on_splice(ev);
        self.phase = Phase::Idle;
        ev
    }
}

/// A splice that begins at the tail keeps every cached height and costs
/// `count` default estimates more content height.
pub proof fn lemma_splice_extends_by_default(rows: Seq<Option<u64>>, default: u64, count: int)
    requires
        0 <= count,
    ensures
        content_height(spliced_rows(rows, rows.len() as int, count), default) == content_height(
            rows,
            default,
        ) + count * default,
    decreases count,
{
    let n = rows.len() as int;
    if count == 0 {
        assert(spliced_rows(rows, n, 0) =~= rows);
    } else {
        lemma_splice_extends_by_default(rows, default, count - 1);
        assert(spliced_rows(rows, n, count) =~= spliced_rows(rows, n, count - 1).push(None));
        crate::window::lemma_content_push_none(spliced_rows(rows, n, count - 1), default);
        assert(count * default == (count - 1) * default + default) by (nonlinear_arith);
    }
}

} // verus!
