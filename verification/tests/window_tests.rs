use assistant::message::SpliceEvent;
use assistant::window::{AnchorState, RowSlice, VirtualWindow};

const ROW: u64 = 100;
const EPS: u64 = 10;
const VIEW: u64 = 400;

fn window_with_rows(n: usize) -> VirtualWindow {
    let mut w = VirtualWindow::new(ROW, EPS);
    w.on_splice(SpliceEvent { start_index: 0, inserted_count: n });
    w
}

#[test]
fn empty_window_has_empty_visible_range() {
    let mut w = VirtualWindow::new(ROW, EPS);
    assert_eq!(w.num_rows(), 0);
    assert!(w.visible_range(VIEW).is_empty());
}

#[test]
fn zero_viewport_has_empty_visible_range() {
    let mut w = window_with_rows(50);
    assert!(w.visible_range(0).is_empty());
}

#[test]
fn zero_count_splice_is_noop() {
    let mut w = window_with_rows(50);
    w.set_scroll_offset(500, VIEW);
    let before_anchor = w.anchor;
    let before_offset = w.scroll_offset;
    let before = w.visible_range(VIEW);
    w.on_splice(SpliceEvent { start_index: 50, inserted_count: 0 });
    assert_eq!(w.num_rows(), 50);
    assert_eq!(w.anchor, before_anchor);
    assert_eq!(w.scroll_offset, before_offset);
    assert_eq!(w.visible_range(VIEW), before);
}

#[test]
fn pinned_window_shows_the_tail() {
    // Splice correctness: right after a splice, a pinned window's visible
    // range includes the new tail indices.
    let mut w = window_with_rows(50);
    assert_eq!(w.anchor, AnchorState::BottomPinned);
    w.on_splice(SpliceEvent { start_index: 50, inserted_count: 3 });
    let rows = w.visible_range(VIEW);
    // total 5300, viewport 400: rows at offsets 4900..5300 are visible
    let indices: Vec<usize> = rows.iter().map(|r| r.index).collect();
    assert_eq!(indices, vec![49, 50, 51, 52]);
    assert_eq!(rows.last().unwrap().index, 52);
    assert_eq!(rows.last().unwrap().offset, 5200);
}

#[test]
fn free_scroll_offset_survives_appends() {
    // Anchor stability: 50 rows, scroll to offset 500, append 10 more;
    // the absolute offset stays numerically 500.
    let mut w = window_with_rows(50);
    w.set_scroll_offset(500, VIEW);
    assert_eq!(w.anchor, AnchorState::FreeScroll);
    assert_eq!(w.scroll_offset, 500);
    w.on_splice(SpliceEvent { start_index: 50, inserted_count: 10 });
    assert_eq!(w.scroll_offset, 500);
    let rows = w.visible_range(VIEW);
    let indices: Vec<usize> = rows.iter().map(|r| r.index).collect();
    assert_eq!(indices, vec![5, 6, 7, 8]);
}

#[test]
fn visible_range_is_idempotent() {
    let mut w = window_with_rows(50);
    w.set_scroll_offset(1234, VIEW);
    let first = w.visible_range(VIEW);
    let second = w.visible_range(VIEW);
    assert_eq!(first, second);
}

#[test]
fn near_bottom_scroll_reengages_pin() {
    // Bottom-pin re-engagement: within epsilon of the max offset the
    // anchor pins, and a subsequent append keeps the bottom edge visible.
    let mut w = window_with_rows(50);
    w.set_scroll_offset(500, VIEW);
    assert_eq!(w.anchor, AnchorState::FreeScroll);
    // total 5000, max offset 4600; 4595 is within epsilon (10) of it
    w.set_scroll_offset(4595, VIEW);
    assert_eq!(w.anchor, AnchorState::BottomPinned);
    w.on_splice(SpliceEvent { start_index: 50, inserted_count: 4 });
    let rows = w.visible_range(VIEW);
    assert_eq!(rows.last().unwrap().index, 53);
    assert_eq!(rows.last().unwrap().offset, 5300);
}

#[test]
fn scroll_offset_clamps_to_max() {
    let mut w = window_with_rows(50);
    w.set_scroll_offset(1_000_000, VIEW);
    // total 5000, viewport 400: the maximum offset is 4600
    assert_eq!(w.scroll_offset, 4600);
    assert_eq!(w.anchor, AnchorState::BottomPinned);
}

#[test]
fn short_content_never_scrolls() {
    let mut w = window_with_rows(2);
    // content (200) is shorter than the viewport: max offset is 0
    w.set_scroll_offset(50, VIEW);
    assert_eq!(w.scroll_offset, 0);
    assert_eq!(w.anchor, AnchorState::BottomPinned);
}

#[test]
fn measurement_replaces_estimate() {
    let mut w = window_with_rows(3);
    // a first query builds the offset cache from the estimates
    let estimated = w.visible_range(1000);
    assert_eq!(estimated[2], RowSlice { index: 2, offset: 200, height: 100 });
    // measuring row 0 invalidates the cached offsets after it lazily
    w.set_row_height(0, 40);
    let rows = w.visible_range(1000);
    assert_eq!(
        rows,
        vec![
            RowSlice { index: 0, offset: 0, height: 40 },
            RowSlice { index: 1, offset: 40, height: 100 },
            RowSlice { index: 2, offset: 140, height: 100 },
        ]
    );
}

#[test]
fn splice_invalidates_only_at_and_after_start() {
    let mut w = window_with_rows(4);
    w.set_row_height(0, 40);
    w.set_row_height(2, 70);
    // splice in the middle: measurements before the start survive,
    // rows at and after it fall back to the estimate
    w.on_splice(SpliceEvent { start_index: 2, inserted_count: 1 });
    let rows = w.visible_range(1000);
    assert_eq!(rows.len(), 5);
    assert_eq!(rows[0].height, 40);
    assert_eq!(rows[1].height, 100);
    assert_eq!(rows[2].height, 100);
    assert_eq!(rows[3].offset, 240);
    assert_eq!(rows[4].offset, 340);
}
