//! The virtualized window: maps the transcript's length onto a bounded,
//! bottom-anchored visible slice. It owns only derived geometry (cached row
//! heights, a scroll offset, an anchor state) — never message content — so
//! it can always be rebuilt from the transcript plus fresh measurements.
//!
//! Heights and offsets are integer pixel units. A row that was never
//! measured carries `None` in the cache and is costed at the configured
//! default estimate; a measurement replaces the estimate, and offsets of
//! later rows follow lazily at the next query.

use vstd::prelude::*;
use crate::message::SpliceEvent;

verus! {

/// Whether the viewport's bottom edge tracks the newest message.
#[derive(Clone, Copy, PartialEq, Eq, Structural, Debug)]
pub enum AnchorState {
    /// The bottom edge follows the tail as content grows (the start state).
    BottomPinned,
    /// The viewer scrolled away; the absolute scroll offset stays put.
    FreeScroll,
}

/// One row of the visible slice: which message, at which vertical offset,
/// with which (measured or estimated) height.
#[derive(Clone, Copy, PartialEq, Eq, Structural, Debug)]
pub struct RowSlice {
    pub index: usize,
    pub offset: u64,
    pub height: u64,
}

/// Height of row `i`: its cached measurement, or the default estimate.
pub open spec fn row_height(rows: Seq<Option<u64>>, default: u64, i: int) -> int {
    match rows[i] {
        Some(h) => h as int,
        None => default as int,
    }
}

/// Top offset of row `i`: the summed heights of all rows before it.
pub open spec fn offset_of(rows: Seq<Option<u64>>, default: u64, i: int) -> int
    decreases i,
{
    if i <= 0 {
        0
    } else {
        offset_of(rows, default, i - 1) + row_height(rows, default, i - 1)
    }
}

/// Total pixel height of the whole content.
pub open spec fn content_height(rows: Seq<Option<u64>>, default: u64) -> int {
    offset_of(rows, default, rows.len() as int)
}

/// Every row is strictly taller than zero pixels.
pub open spec fn rows_positive(rows: Seq<Option<u64>>, default: u64) -> bool {
    forall|i: int| 0 <= i < rows.len() ==> row_height(rows, default, i) > 0
}

/// Offsets depend only on the rows before the cut: two caches that agree on
/// `[0, i)` give row `i` the same top offset.
pub proof fn lemma_offset_of_agree(
    a: Seq<Option<u64>>,
    b: Seq<Option<u64>>,
    default: u64,
    i: int,
)
    requires
        i <= a.len(),
        i <= b.len(),
        forall|k: int| 0 <= k < i ==> a[k] == b[k],
    ensures
        offset_of(a, default, i) == offset_of(b, default, i),
    decreases i,
{
    if i > 0 {
        lemma_offset_of_agree(a, b, default, i - 1);
    }
}

/// Offsets grow with the index; strictly so when rows are positive.
pub proof fn lemma_offset_of_monotone(rows: Seq<Option<u64>>, default: u64, i: int, j: int)
    requires
        0 <= i <= j,
    ensures
        offset_of(rows, default, i) <= offset_of(rows, default, j),
        default > 0 && rows_positive(rows, default) && i < j <= rows.len()
            ==> offset_of(rows, default, i) < offset_of(rows, default, j),
    decreases j - i,
{
    if i < j {
        lemma_offset_of_monotone(rows, default, i, j - 1);
        if default > 0 && rows_positive(rows, default) && j <= rows.len() {
            assert(row_height(rows, default, j - 1) > 0);
        } else {
            assert(row_height(rows, default, j - 1) >= 0);
        }
    }
}

/// Appending an unmeasured row grows the content height by the default
/// estimate and moves no existing offset.
pub proof fn lemma_content_push_none(rows: Seq<Option<u64>>, default: u64)
    ensures
        content_height(rows.push(None), default) == content_height(rows, default) + default,
        forall|i: int| 0 <= i <= rows.len()
            ==> offset_of(rows.push(None), default, i) == offset_of(rows, default, i),
{
    let pushed = rows.push(None);
    assert forall|i: int| 0 <= i <= rows.len()
        implies offset_of(pushed, default, i) == offset_of(rows, default, i) by {
        lemma_offset_of_agree(pushed, rows, default, i);
    }
    assert(offset_of(pushed, default, pushed.len() as int)
        == offset_of(pushed, default, rows.len() as int)
            + row_height(pushed, default, rows.len() as int));
}

/// The largest meaningful scroll offset: content taller than the viewport
/// can scroll until its bottom edge meets the viewport's; shorter content
/// cannot scroll at all.
pub open spec fn spec_max_offset(total: int, viewport: int) -> int {
    if total > viewport {
        total - viewport
    } else {
        0
    }
}

/// The rows of `[0, n)` whose pixel extent intersects the viewport window
/// `[lo, hi)`, in index order, each with its top offset and height.
pub open spec fn visible_rows(
    rows: Seq<Option<u64>>,
    default: u64,
    lo: int,
    hi: int,
    n: int,
) -> Seq<RowSlice>
    decreases n,
{
    if n <= 0 {
        Seq::empty()
    } else {
        let rest = visible_rows(rows, default, lo, hi, n - 1);
        let off = offset_of(rows, default, n - 1);
        let h = row_height(rows, default, n - 1);
        if lo < hi && off < hi && off + h > lo {
            rest.push(
                RowSlice { index: (n - 1) as usize, offset: off as u64, height: h as u64 },
            )
        } else {
            rest
        }
    }
}

/// Rows that end at or above the window's top edge are invisible: while
/// every row before `m` does, the visible slice up to `m` stays empty.
pub proof fn lemma_visible_rows_empty_prefix(
    rows: Seq<Option<u64>>,
    default: u64,
    lo: int,
    hi: int,
    m: int,
)
    requires
        forall|k: int| 0 <= k < m ==> #[trigger] offset_of(rows, default, k + 1) <= lo,
    ensures
        visible_rows(rows, default, lo, hi, m).len() == 0,
    decreases m,
{
    if m > 0 {
        lemma_visible_rows_empty_prefix(rows, default, lo, hi, m - 1);
        assert(offset_of(rows, default, (m - 1) + 1) <= lo);
        assert(offset_of(rows, default, m) == offset_of(rows, default, m - 1) + row_height(
            rows,
            default,
            m - 1,
        ));
    }
}

/// Rows that start at or below the window's bottom edge are invisible:
/// once offsets reach `hi`, the visible slice stops growing.
pub proof fn lemma_visible_rows_stable_suffix(
    rows: Seq<Option<u64>>,
    default: u64,
    lo: int,
    hi: int,
    i: int,
    m: int,
)
    requires
        0 <= i <= m,
        offset_of(rows, default, i) >= hi,
    ensures
        visible_rows(rows, default, lo, hi, m) == visible_rows(rows, default, lo, hi, i),
    decreases m - i,
{
    if m > i {
        lemma_visible_rows_stable_suffix(rows, default, lo, hi, i, m - 1);
        lemma_offset_of_monotone(rows, default, i, m - 1);
    }
}

/// An empty viewport window selects no rows.
pub proof fn lemma_visible_rows_empty_window(
    rows: Seq<Option<u64>>,
    default: u64,
    lo: int,
    hi: int,
    n: int,
)
    requires
        lo >= hi,
    ensures
        visible_rows(rows, default, lo, hi, n).len() == 0,
    decreases n,
{
    if n > 0 {
        lemma_visible_rows_empty_window(rows, default, lo, hi, n - 1);
    }
}

/// The geometry cache after a splice at `start` of `count` rows: rows
/// before `start` keep their cached measurement, every row at or after it
/// is unmeasured (the splice shifted or inserted them), and the cache grows
/// by `count` entries.
pub open spec fn spliced_rows(rows: Seq<Option<u64>>, start: int, count: int) -> Seq<Option<u64>> {
    rows.subrange(0, start) + Seq::new((rows.len() - start + count) as nat, |i: int| None)
}

/// Replacing one row's cached height moves the offsets after it by exactly
/// the height difference, and no offset at or before it.
pub proof fn lemma_offset_of_update(
    rows: Seq<Option<u64>>,
    default: u64,
    i: int,
    v: Option<u64>,
    k: int,
)
    requires
        0 <= i < rows.len(),
        i < k <= rows.len(),
    ensures
        offset_of(rows.update(i, v), default, k) == offset_of(rows, default, k)
            - row_height(rows, default, i) + row_height(rows.update(i, v), default, i),
    decreases k,
{
    let upd = rows.update(i, v);
    if k == i + 1 {
        lemma_offset_of_agree(upd, rows, default, i);
    } else {
        lemma_offset_of_update(rows, default, i, v, k - 1);
        assert(row_height(upd, default, k - 1) == row_height(rows, default, k - 1));
    }
}

/// The geometry cache and scroll/anchor state of the panel's list.
pub struct VirtualWindow {
    /// One entry per transcript row: `Some(measured height)` or `None`.
    pub heights: Vec<Option<u64>>,
    /// Placeholder height for rows never measured. Strictly positive.
    pub default_height: u64,
    /// How close to the maximum offset still counts as "at the bottom".
    pub epsilon: u64,
    /// Absolute distance in pixels from the top of the content to the top
    /// of the viewport. Authoritative in `FreeScroll`; clamped at queries.
    pub scroll_offset: u64,
    pub anchor: AnchorState,
    /// Cached `content_height` of `heights`, kept in step incrementally.
    pub total_height: u64,
    /// Cumulative-offset cache: `ends[i]` is the bottom offset of row `i`,
    /// valid for a prefix of the rows. Splices and measurements only cut
    /// it back; queries re-extend it lazily and then binary-search it, so
    /// a query costs the invalidated region once, not the whole history.
    pub ends: Vec<u64>,
}

impl VirtualWindow {
    /// Well-formedness: a positive default estimate, positive cached
    /// heights, a total that is in step with the rows and fits in `u64`,
    /// and an offset cache that is a correct prefix of the cumulative
    /// bottom offsets.
    pub open spec fn wf(self) -> bool {
        &&& self.default_height > 0
        &&& rows_positive(self.heights@, self.default_height)
        &&& self.total_height as int == content_height(self.heights@, self.default_height)
        &&& self.ends@.len() <= self.heights@.len()
        &&& forall|i: int| 0 <= i < self.ends@.len() ==> self.ends@[i] as int == offset_of(
            self.heights@,
            self.default_height,
            i + 1,
        )
    }

    /// Where the viewport actually starts for a query: a pinned window
    /// reads from the maximum offset (the bottom), a free-scrolling one
    /// from its stored offset, clamped to the maximum.
    pub open spec fn spec_effective_offset(self, viewport: int) -> int {
        let max = spec_max_offset(content_height(self.heights@, self.default_height), viewport);
        match self.anchor {
            AnchorState::BottomPinned => max,
            AnchorState::FreeScroll => if self.scroll_offset as int <= max {
                self.scroll_offset as int
            } else {
                max
            },
        }
    }

    /// What a visibility query returns: the rows intersecting the viewport
    /// placed at the effective offset.
    pub open spec fn spec_visible_range(self, viewport: u64) -> Seq<RowSlice> {
        let lo = self.spec_effective_offset(viewport as int);
        visible_rows(
            self.heights@,
            self.default_height,
            lo,
            lo + viewport,
            self.heights@.len() as int,
        )
    }

    /// An empty window, pinned to the bottom, with the given estimate for
    /// unmeasured rows and the given bottom re-engagement threshold.
    pub fn new(default_height: u64, epsilon: u64) -> (w: VirtualWindow)
        requires
            default_height > 0,
        ensures
            w.wf(),
            w.heights@.len() == 0,
            w.default_height == default_height,
            w.epsilon == epsilon,
            w.scroll_offset == 0,
            w.anchor == AnchorState::BottomPinned,
    {
        VirtualWindow {
            heights: Vec::new(),
            default_height,
            epsilon,
            scroll_offset: 0,
            anchor: AnchorState::BottomPinned,
            total_height: 0,
            ends: Vec::new(),
        }
    }

    /// Number of rows the window currently lays out.
    pub fn num_rows(&self) -> (n: usize)
        ensures
            n == self.heights@.len(),
    {
        self.heights.len()
    }

    /// Reacts to a splice of the transcript. A count of zero is a no-op:
    /// nothing is invalidated and the anchor does not move. Otherwise the
    /// cached geometry of every row at or after the splice point is
    /// invalidated — earlier rows are untouched — and the logical length
    /// grows by the inserted count. When pinned to the bottom the scroll
    /// offset is recomputed so the new tail sits at the bottom edge; in
    /// free scroll it stays numerically unchanged, so the viewer's position
    /// on existing content does not jump.
    #[verifier::loop_isolation(false)]
    pub fn on_splice(&mut self, event: SpliceEvent)
        requires
            old(self).wf(),
            event.inserted_count > 0 ==> event.start_index <= old(self).heights@.len(),
            event.inserted_count > 0 ==> old(self).heights@.len() + event.inserted_count
                <= usize::MAX,
            event.inserted_count > 0 ==> content_height(
                spliced_rows(
                    old(self).heights@,
                    event.start_index as int,
                    event.inserted_count as int,
                ),
                old(self).default_height,
            ) <= u64::MAX,
        ensures
            final(self).wf(),
            event.inserted_count == 0 ==> *final(self) == *old(self),
            event.inserted_count > 0 ==> final(self).heights@ == spliced_rows(
                old(self).heights@,
                event.start_index as int,
                event.inserted_count as int,
            ),
            final(self).default_height == old(self).default_height,
            final(self).epsilon == old(self).epsilon,
            final(self).anchor == old(self).anchor,
            old(self).anchor is FreeScroll ==> final(self).scroll_offset
                == old(self).scroll_offset,
            event.inserted_count > 0 && old(self).anchor is BottomPinned
                ==> final(self).scroll_offset == final(self).total_height,
    {
        if event.inserted_count == 0 {
            return ;
        }
        let ghost old_rows = self.heights@;
        let ghost d = self.default_height;
        let start = event.start_index;
        let old_len = self.heights.len();
        let ghost target = spliced_rows(old_rows, start as int, event.inserted_count as int);
        proof {
            assert(old_rows.subrange(0, start as int).len() == start);
            assert(target.len() == old_len + event.inserted_count);
        }

        // Walk the invalidated tail once, removing its heights from the
        // running total: O(rows at or after the splice point).
        let mut t = self.total_height;
        let mut i = old_len;
        while i > start
            invariant
                start <= i <= old_len == self.heights@.len(),
                self.heights@ == old_rows,
                self == old(self),
                t as int == offset_of(old_rows, d, i as int),
            decreases i,
        {
            i = i - 1;
            let h = match self.heights[i] {
                Some(m) => m,
                None => self.default_height,
            };
            proof {
                lemma_offset_of_monotone(old_rows, d, 0, i as int);
                assert(offset_of(old_rows, d, i + 1) == offset_of(old_rows, d, i as int)
                    + row_height(old_rows, d, i as int));
                assert(h as int == row_height(old_rows, d, i as int)) by {
                    if old_rows[i as int] is Some {
                    }
                }
            }
            t = t - h;
        }
        self.heights.truncate(start);
        // the offset cache is only valid up to the splice point now
        self.ends.truncate(start);
        let ghost ends_snap = self.ends@;

        // Every spliced row enters the cache unmeasured, at the default
        // estimate: O(inserted + shifted rows).
        let add_count = (old_len - start) + event.inserted_count;
        let mut j: usize = 0;
        proof {
            assert(self.heights@ =~= target.subrange(0, start as int));
            assert forall|k: int| 0 <= k < start implies old_rows[k] == target[k] by {
                assert(target[k] == old_rows.subrange(0, start as int)[k]);
            }
            lemma_offset_of_agree(old_rows, target, d, start as int);
        }
        while j < add_count
            invariant
                j <= add_count,
                start + add_count == target.len(),
                self.heights@ =~= target.subrange(0, start + j),
                self.default_height == d,
                self.epsilon == old(self).epsilon,
                self.scroll_offset == old(self).scroll_offset,
                self.anchor == old(self).anchor,
                self.ends@ == ends_snap,
                t as int == offset_of(target, d, start + j),
                content_height(target, d) <= u64::MAX,
            decreases add_count - j,
        {
            proof {
                assert(old_rows.subrange(0, start as int).len() == start);
                assert(target[start + j] == Seq::new(
                    (old_len - start + event.inserted_count) as nat,
                    |k: int| None::<u64>,
                )[j as int]);
                assert(target[start + j] is None);
                assert(row_height(target, d, start + j) == d as int);
                lemma_offset_of_monotone(target, d, start + j + 1, target.len() as int);
                assert(offset_of(target, d, start + j + 1) == t as int + d as int);
            }
            self.heights.push(None);
            t = t + self.default_height;
            j = j + 1;
            proof {
                assert(self.heights@ =~= target.subrange(0, start + j));
            }
        }
        self.total_height = t;
        proof {
            assert(self.heights@ =~= target);
            lemma_offset_of_agree(self.heights@, target, d, target.len() as int);
            assert forall|k: int| 0 <= k < target.len() implies row_height(target, d, k) > 0 by {
                if k < start {
                    assert(target[k] == old_rows[k]);
                    assert(row_height(old_rows, d, k) > 0);
                } else {
                    assert(target[k] is None);
                }
            }
            assert forall|k: int| 0 <= k < self.ends@.len() implies self.ends@[k] as int
                == offset_of(target, d, k + 1) by {
                assert(self.ends@[k] == old(self).ends@[k]);
                assert(old(self).ends@[k] as int == offset_of(old_rows, d, k + 1));
                lemma_offset_of_agree(old_rows, target, d, k + 1);
            }
        }
        match self.anchor {
            AnchorState::BottomPinned => {
                self.scroll_offset = self.total_height;
            },
            AnchorState::FreeScroll => {},
        }
    }

    /// Moves the viewport to `new_offset`, clamped to the maximum offset
    /// for the given viewport height — out-of-range requests clamp, they
    /// never fail. Lands the viewport within `epsilon` of the bottom and
    /// the window re-engages `BottomPinned`; otherwise it is `FreeScroll`.
    pub fn set_scroll_offset(&mut self, new_offset: u64, viewport_height: u64)
        requires
            old(self).wf(),
        ensures
            final(self).wf(),
            final(self).heights@ == old(self).heights@,
            final(self).default_height == old(self).default_height,
            final(self).epsilon == old(self).epsilon,
            final(self).total_height == old(self).total_height,
            ({
                let max = spec_max_offset(
                    content_height(old(self).heights@, old(self).default_height),
                    viewport_height as int,
                );
                &&& final(self).scroll_offset as int == (if new_offset as int <= max {
                    new_offset as int
                } else {
                    max
                })
                &&& (final(self).anchor is BottomPinned <==> final(self).scroll_offset
                    + old(self).epsilon >= max)
            }),
    {
        let max_off = if self.total_height > viewport_height {
            self.total_height - viewport_height
        } else {
            0
        };
        let clamped = if new_offset <= max_off {
            new_offset
        } else {
            max_off
        };
        self.scroll_offset = clamped;
        if max_off - clamped <= self.epsilon {
            self.anchor = AnchorState::BottomPinned;
        } else {
            self.anchor = AnchorState::FreeScroll;
        }
    }

    /// Where a query's viewport starts, as a pixel offset from the top.
    pub fn effective_offset(&self, viewport_height: u64) -> (off: u64)
        requires
            self.wf(),
        ensures
            off as int == self.spec_effective_offset(viewport_height as int),
            off <= self.total_height,
    {
        let max_off = if self.total_height > viewport_height {
            self.total_height - viewport_height
        } else {
            0
        };
        match self.anchor {
            AnchorState::BottomPinned => max_off,
            AnchorState::FreeScroll => if self.scroll_offset <= max_off {
                self.scroll_offset
            } else {
                max_off
            },
        }
    }

    /// Re-extends the cumulative-offset cache to cover every row. Costs
    /// only the rows invalidated since the last query.
    #[verifier::loop_isolation(false)]
    fn refresh_offsets(&mut self)
        requires
            old(self).wf(),
        ensures
            final(self).wf(),
            final(self).ends@.len() == final(self).heights@.len(),
            final(self).heights@ == old(self).heights@,
            final(self).default_height == old(self).default_height,
            final(self).epsilon == old(self).epsilon,
            final(self).scroll_offset == old(self).scroll_offset,
            final(self).anchor == old(self).anchor,
            final(self).total_height == old(self).total_height,
    {
        let ghost d = self.default_height;
        let n = self.heights.len();
        let mut acc = if self.ends.len() == 0 {
            0
        } else {
            self.ends[self.ends.len() - 1]
        };
        while self.ends.len() < n
            invariant
                self.wf(),
                self.heights@ == old(self).heights@,
                self.default_height == old(self).default_height,
                self.epsilon == old(self).epsilon,
                self.scroll_offset == old(self).scroll_offset,
                self.anchor == old(self).anchor,
                self.total_height == old(self).total_height,
                acc as int == offset_of(self.heights@, d, self.ends@.len() as int),
            decreases n - self.ends.len(),
        {
            let i = self.ends.len();
            let h = match self.heights[i] {
                Some(m) => m,
                None => self.default_height,
            };
            proof {
                assert(h as int == row_height(self.heights@, d, i as int)) by {
                    if self.heights@[i as int] is Some {
                    }
                }
                lemma_offset_of_monotone(self.heights@, d, i + 1, n as int);
                assert(offset_of(self.heights@, d, i + 1) == acc as int + h as int);
            }
            acc = acc + h;
            self.ends.push(acc);
        }
    }

    /// The rows to render for a viewport of the given height: an ordered
    /// slice of (index, offset, height), empty for an empty transcript or
    /// a zero viewport. Its only effect is on the internal offset cache,
    /// so repeated queries with no intervening mutation return the same
    /// slice, and the query never touches rows far outside the viewport:
    /// it binary-searches the cached offsets for the first visible row and
    /// walks only as far as the viewport reaches. A host that wants an
    /// overscan margin passes the viewport height plus that margin.
    #[verifier::loop_isolation(false)]
    pub fn visible_range(&mut self, viewport_height: u64) -> (rows: Vec<RowSlice>)
        requires
            old(self).wf(),
        ensures
            final(self).wf(),
            rows@ == old(self).spec_visible_range(viewport_height),
            final(self).heights@ == old(self).heights@,
            final(self).default_height == old(self).default_height,
            final(self).epsilon == old(self).epsilon,
            final(self).scroll_offset == old(self).scroll_offset,
            final(self).anchor == old(self).anchor,
            final(self).total_height == old(self).total_height,
            old(self).heights@.len() == 0 ==> rows@.len() == 0,
            viewport_height == 0 ==> rows@.len() == 0,
    {
        let eff = self.effective_offset(viewport_height);
        let ghost lo = eff as int;
        let ghost hi = lo + viewport_height as int;
        let ghost d = self.default_height;
        let ghost rows_g = self.heights@;
        let n = self.heights.len();
        if viewport_height == 0 {
            proof {
                lemma_visible_rows_empty_window(rows_g, d, lo, hi, n as int);
            }
            return Vec::new();
        }
        self.refresh_offsets();

        // First candidate row: the earliest whose bottom edge is below the
        // viewport's top. Offsets grow monotonically, so binary search.
        let mut low: usize = 0;
        let mut high: usize = n;
        while low < high
            invariant
                low <= high <= n,
                forall|k: int| 0 <= k < low ==> #[trigger] offset_of(rows_g, d, k + 1) <= lo,
                forall|k: int| high <= k < n ==> #[trigger] offset_of(rows_g, d, k + 1) > lo,
            decreases high - low,
        {
            let mid = low + (high - low) / 2;
            if self.ends[mid] <= eff {
                proof {
                    assert forall|k: int| 0 <= k < mid + 1 implies #[trigger] offset_of(
                        rows_g,
                        d,
                        k + 1,
                    ) <= lo by {
                        lemma_offset_of_monotone(rows_g, d, k + 1, mid + 1);
                    }
                }
                low = mid + 1;
            } else {
                proof {
                    assert forall|k: int| mid <= k < n implies #[trigger] offset_of(
                        rows_g,
                        d,
                        k + 1,
                    ) > lo by {
                        lemma_offset_of_monotone(rows_g, d, mid + 1, k + 1);
                    }
                }
                high = mid;
            }
        }
        let first = low;
        proof {
            lemma_visible_rows_empty_prefix(rows_g, d, lo, hi, first as int);
        }

        // Collect rows from there until one starts below the viewport.
        let mut out: Vec<RowSlice> = Vec::new();
        let mut acc = if first == 0 {
            0
        } else {
            self.ends[first - 1]
        };
        proof {
            assert(acc as int == offset_of(rows_g, d, first as int));
        }
        let mut i = first;
        while i < n && (acc < eff || acc - eff < viewport_height)
            invariant
                first <= i <= n,
                acc as int == offset_of(rows_g, d, i as int),
                out@ == visible_rows(rows_g, d, lo, hi, i as int),
            decreases n - i,
        {
            let h = match self.heights[i] {
                Some(m) => m,
                None => self.default_height,
            };
            proof {
                assert(h as int == row_height(rows_g, d, i as int)) by {
                    if rows_g[i as int] is Some {
                    }
                }
                lemma_offset_of_monotone(rows_g, d, i + 1, n as int);
                assert(offset_of(rows_g, d, i + 1) == acc as int + h as int);
                assert(offset_of(rows_g, d, i as int + 1) > lo);
            }
            out.push(RowSlice { index: i, offset: acc, height: h });
            acc = acc + h;
            i = i + 1;
        }
        proof {
            if i < n {
                lemma_visible_rows_stable_suffix(rows_g, d, lo, hi, i as int, n as int);
            }
        }
        out
    }

    /// Records the measured height of one rendered row, replacing its
    /// estimate. Offsets of rows at or before `index` are unchanged; later
    /// offsets shift by the height difference at the next query.
    pub fn set_row_height(&mut self, index: usize, height: u64)
        requires
            old(self).wf(),
            index < old(self).heights@.len(),
            height > 0,
            old(self).total_height - row_height(
                old(self).heights@,
                old(self).default_height,
                index as int,
            ) + height <= u64::MAX,
        ensures
            final(self).wf(),
            final(self).heights@ == old(self).heights@.update(index as int, Some(height)),
            final(self).default_height == old(self).default_height,
            final(self).epsilon == old(self).epsilon,
            final(self).scroll_offset == old(self).scroll_offset,
            final(self).anchor == old(self).anchor,
            forall|k: int| 0 <= k <= index ==> offset_of(
                final(self).heights@,
                final(self).default_height,
                k,
            ) == offset_of(old(self).heights@, old(self).default_height, k),
    {
        let ghost old_rows = self.heights@;
        let ghost d = self.default_height;
        let old_h = match self.heights[index] {
            Some(m) => m,
            None => self.default_height,
        };
        proof {
            assert(old_h as int == row_height(old_rows, d, index as int));
            lemma_offset_of_monotone(old_rows, d, 0, index as int);
            lemma_offset_of_monotone(old_rows, d, index + 1, old_rows.len() as int);
            assert(offset_of(old_rows, d, index + 1) == offset_of(old_rows, d, index as int)
                + row_height(old_rows, d, index as int));
        }
        self.heights.set(index, Some(height));
        // offsets of later rows moved: cut the cache back to this row
        self.ends.truncate(index);
        let t = self.total_height - old_h;
        self.total_height = t + height;
        proof {
            let upd = old_rows.update(index as int, Some(height));
            lemma_offset_of_update(old_rows, d, index as int, Some(height), old_rows.len() as int);
            assert forall|k: int| 0 <= k <= index implies offset_of(upd, d, k) == offset_of(
                old_rows,
                d,
                k,
            ) by {
                lemma_offset_of_agree(upd, old_rows, d, k);
            }
            assert forall|k: int| 0 <= k < upd.len() implies row_height(upd, d, k) > 0 by {
                if k != index {
                    assert(upd[k] == old_rows[k]);
                    assert(row_height(old_rows, d, k) > 0);
                }
            }
            assert forall|k: int| 0 <= k < self.ends@.len() implies self.ends@[k] as int
                == offset_of(upd, d, k + 1) by {
                assert(self.ends@[k] == old(self).ends@[k]);
                assert(old(self).ends@[k] as int == offset_of(old_rows, d, k + 1));
                lemma_offset_of_agree(old_rows, upd, d, k + 1);
            }
        }
    }
}

/// Splice correctness law: a bottom-pinned window with any content shows
/// its last row — in particular, immediately after `on_splice` reported a
/// grown tail, a visibility query with a non-empty viewport includes the
/// newly appended indices.
pub proof fn lemma_pinned_tail_visible(w: VirtualWindow, viewport_height: u64)
    requires
        w.wf(),
        w.anchor is BottomPinned,
        viewport_height > 0,
        0 < w.heights@.len() <= usize::MAX,
    ensures
        w.spec_visible_range(viewport_height).len() > 0,
        w.spec_visible_range(viewport_height).last().index + 1 == w.heights@.len(),
        w.spec_visible_range(viewport_height).last().offset as int + w.spec_visible_range(
            viewport_height,
        ).last().height as int == content_height(w.heights@, w.default_height),
{
    let rows = w.heights@;
    let d = w.default_height;
    let n = rows.len() as int;
    let total = content_height(rows, d);
    let lo = w.spec_effective_offset(viewport_height as int);
    let hi = lo + viewport_height;
    let off = offset_of(rows, d, n - 1);
    let h = row_height(rows, d, n - 1);
    lemma_offset_of_monotone(rows, d, 0, n - 1);
    assert(total == off + h);
    assert(h > 0);
    assert(off + h > lo);
    assert(off < hi);
    assert(w.spec_visible_range(viewport_height) == visible_rows(rows, d, lo, hi, n - 1).push(
        RowSlice { index: (n - 1) as usize, offset: off as u64, height: h as u64 },
    ));
}

/// Idempotence law for visibility queries: what `visible_range` returns
/// is a function of the row geometry, the anchor and the scroll offset
/// alone — the internal offset cache plays no part — so two queries with
/// no intervening mutation return identical slices.
pub proof fn lemma_visible_range_idempotent(
    before: VirtualWindow,
    after: VirtualWindow,
    viewport_height: u64,
)
    requires
        before.heights@ == after.heights@,
        before.default_height == after.default_height,
        before.anchor == after.anchor,
        before.scroll_offset == after.scroll_offset,
    ensures
        before.spec_visible_range(viewport_height) == after.spec_visible_range(viewport_height),
{
}

} // verus!
