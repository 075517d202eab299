use assistant::message::{Sender, SpliceEvent};
use assistant::panel::{respond, Assistant, Phase, ResponderFailure};
use assistant::window::AnchorState;

const ROW: u64 = 100;
const EPS: u64 = 10;
const VIEW: u64 = 400;

#[test]
fn responder_echoes_behind_label() {
    assert_eq!(respond("hello"), "You said: hello");
    assert_eq!(respond(""), "You said: ");
}

#[test]
fn empty_submission_is_a_noop() {
    let mut a = Assistant::new(ROW, EPS);
    let ev = a.submit(String::new());
    assert!(ev.is_none());
    assert_eq!(a.transcript.len(), 0);
    assert_eq!(a.phase, Phase::Idle);
    assert!(a.window.visible_range(VIEW).is_empty());
}

#[test]
fn submit_hello_end_to_end() {
    // Empty transcript, submit "hello": two entries, one splice of two,
    // and a viewport covering both rows returns both indices in order.
    let mut a = Assistant::new(ROW, EPS);
    let ev = a.submit("hello".to_string());
    assert_eq!(ev, Some(SpliceEvent { start_index: 0, inserted_count: 2 }));
    assert_eq!(a.transcript.len(), 2);
    let user = a.transcript.get(0).unwrap();
    assert_eq!(user.sender, Sender::User);
    assert_eq!(user.text, "hello");
    let reply = a.transcript.get(1).unwrap();
    assert_eq!(reply.sender, Sender::Assistant);
    assert_eq!(reply.text, "You said: hello");
    let rows = a.window.visible_range(VIEW);
    let indices: Vec<usize> = rows.iter().map(|r| r.index).collect();
    assert_eq!(indices, vec![0, 1]);
}

#[test]
fn submissions_accumulate_in_order() {
    let mut a = Assistant::new(ROW, EPS);
    a.submit("one".to_string());
    a.submit("two".to_string());
    assert_eq!(a.transcript.len(), 4);
    assert_eq!(a.transcript.get(0).unwrap().text, "one");
    assert_eq!(a.transcript.get(1).unwrap().text, "You said: one");
    assert_eq!(a.transcript.get(2).unwrap().text, "two");
    assert_eq!(a.transcript.get(3).unwrap().text, "You said: two");
}

#[test]
fn composing_phase_round_trip() {
    let mut a = Assistant::new(ROW, EPS);
    a.begin_composing();
    assert_eq!(a.phase, Phase::Composing);
    a.submit("typed".to_string());
    assert_eq!(a.phase, Phase::Idle);
}

#[test]
fn two_phase_submission_with_reply() {
    let mut a = Assistant::new(ROW, EPS);
    let ev = a.begin_submission("question".to_string());
    assert_eq!(ev, Some(SpliceEvent { start_index: 0, inserted_count: 1 }));
    // the user's message is visible before the reply arrives
    assert_eq!(a.phase, Phase::Submitting);
    assert_eq!(a.transcript.len(), 1);
    assert_eq!(a.window.visible_range(VIEW)[0].index, 0);
    let reply = respond("question");
    let ev2 = a.finish_submission(Ok(reply));
    assert_eq!(ev2, SpliceEvent { start_index: 1, inserted_count: 1 });
    assert_eq!(a.phase, Phase::Idle);
    assert_eq!(a.transcript.get(1).unwrap().text, "You said: question");
}

#[test]
fn empty_two_phase_submission_is_a_noop() {
    let mut a = Assistant::new(ROW, EPS);
    let ev = a.begin_submission(String::new());
    assert!(ev.is_none());
    assert_eq!(a.phase, Phase::Idle);
    assert_eq!(a.transcript.len(), 0);
}

#[test]
fn responder_failure_leaves_a_placeholder() {
    let mut a = Assistant::new(ROW, EPS);
    a.begin_submission("anyone there?".to_string());
    let ev = a.finish_submission(Err(ResponderFailure));
    assert_eq!(ev, SpliceEvent { start_index: 1, inserted_count: 1 });
    // the user's message survives, in order, followed by the placeholder
    assert_eq!(a.transcript.len(), 2);
    assert_eq!(a.transcript.get(0).unwrap().text, "anyone there?");
    let placeholder = a.transcript.get(1).unwrap();
    assert_eq!(placeholder.sender, Sender::Assistant);
    assert_eq!(placeholder.text, "(the responder failed to reply)");
}

#[test]
fn pinned_panel_keeps_new_messages_visible() {
    let mut a = Assistant::new(ROW, EPS);
    for i in 0..30 {
        a.submit(format!("message {i}"));
    }
    assert_eq!(a.window.anchor, AnchorState::BottomPinned);
    let rows = a.window.visible_range(VIEW);
    assert_eq!(rows.last().unwrap().index, 59);
}

#[test]
fn scrolled_away_panel_does_not_jump_on_submit() {
    let mut a = Assistant::new(ROW, EPS);
    for i in 0..25 {
        a.submit(format!("message {i}"));
    }
    a.window.set_scroll_offset(500, VIEW);
    assert_eq!(a.window.anchor, AnchorState::FreeScroll);
    a.submit("late".to_string());
    assert_eq!(a.window.scroll_offset, 500);
}
