//! Regions of the window a native child view draws over, so nothing the window paints there can be
//! seen: an embedded browser, for one. The element that positions such a view records its frame
//! during prepaint, and overlays that must stay readable, tooltips first of all, lay themselves
//! out around the recorded regions instead of only around the window's edges.

use crate::geometry::{Bounds, Pixels, Point, Rect, Size, EDGE_UNITS, MAX_UNITS};
use std::ops::Range;
use vstd::prelude::*;

verus! {

/// How far above and below an anchor a region still counts as sitting on the anchor's row, in
/// units: 48 pixels. A tooltip opens next to its anchor, so a region this close is one it could
/// run into.
pub const ROW_REACH: i64 = 3145728;

/// What the window is doing with the frame being drawn.
#[derive(Clone, Copy, Debug, PartialEq, Eq, Structural)]
pub enum DrawPhase {
    Idle,
    Prepaint,
    Paint,
}

/// What one drawn frame recorded.
pub struct Frame {
    pub native_occlusions: Vec<Bounds>,
}

/// The part of a window that keeps track of covered regions.
pub struct Window {
    pub phase: DrawPhase,
    /// The frame being drawn.
    pub next_frame: Frame,
    /// The frame on screen.
    pub rendered_frame: Frame,
}

/// Whether `after` is `before` with the frame being drawn put on screen and the next one started.
pub open spec fn frame_finished(before: Window, after: Window) -> bool {
    &&& after.phase == DrawPhase::Idle
    &&& after.rendered_frame == before.next_frame
    &&& after.next_frame.native_occlusions@ == Seq::<Bounds>::empty()
}

impl Window {
    /// The regions overlays lay themselves out around.
    pub open spec fn occlusions(self) -> Seq<Bounds> {
        if self.next_frame.native_occlusions@.len() == 0 {
            self.rendered_frame.native_occlusions@
        } else {
            self.next_frame.native_occlusions@
        }
    }

    /// A window that has drawn nothing yet.
    pub fn new() -> (window: Window)
        ensures
            window.phase == DrawPhase::Idle,
            window.next_frame.native_occlusions@ == Seq::<Bounds>::empty(),
            window.rendered_frame.native_occlusions@ == Seq::<Bounds>::empty(),
    {
        Window {
            phase: DrawPhase::Idle,
            next_frame: Frame { native_occlusions: Vec::new() },
            rendered_frame: Frame { native_occlusions: Vec::new() },
        }
    }

    /// Puts the frame being drawn on screen and starts the next one, which has recorded nothing.
    pub fn finish_frame(&mut self)
        ensures
            frame_finished(*old(self), *final(self)),
    {
        let mut drawn = Frame { native_occlusions: Vec::new() };
        std::mem::swap(&mut drawn, &mut self.next_frame);
        self.rendered_frame = drawn;
        self.phase = DrawPhase::Idle;
    }

    /// Records `bounds` as a region a native child view covers in the frame being drawn. The
    /// element that positions the view calls this from its prepaint on every frame the view is
    /// visible; the record lasts one frame, like a hitbox.
    pub fn occlude_native_region(&mut self, bounds: Bounds)
        requires
            old(self).phase == DrawPhase::Prepaint,
        ensures
            final(self).next_frame.native_occlusions@ == old(
                self,
            ).next_frame.native_occlusions@.push(bounds),
            final(self).rendered_frame == old(self).rendered_frame,
            final(self).phase == old(self).phase,
    {
        self.next_frame.native_occlusions.push(bounds);
    }

    /// The regions native child views cover: the ones the frame being drawn has recorded so far,
    /// or the last frame's until it records one, so an overlay laid out early in a frame sees
    /// them too. That keeps the regions one frame longer than the views themselves; the next
    /// frame corrects it.
    pub fn native_occlusions(&self) -> (regions: &[Bounds])
        ensures
            regions@ == self.occlusions(),
    {
        if self.next_frame.native_occlusions.len() == 0 {
            self.rendered_frame.native_occlusions.as_slice()
        } else {
            self.next_frame.native_occlusions.as_slice()
        }
    }
}

/// Twice the x coordinate of the middle of `anchor`.
pub open spec fn twice_center_x(anchor: Rect) -> int {
    2 * anchor.x + anchor.w
}

/// The strip of the window on which a region can get in the way of an overlay next to `anchor`.
pub open spec fn anchor_row(anchor: Rect, window_width: int) -> Rect {
    Rect { x: 0, y: anchor.y - ROW_REACH, w: window_width, h: anchor.h + 2 * ROW_REACH }
}

/// Whether `region` is on the anchor's row and ends at or before the anchor's middle.
pub open spec fn ends_before(region: Rect, anchor: Rect, window_width: int) -> bool {
    &&& region.overlaps(anchor_row(anchor, window_width))
    &&& 2 * region.right() <= twice_center_x(anchor)
}

/// Whether `region` is on the anchor's row and starts at or after the anchor's middle.
pub open spec fn starts_after(region: Rect, anchor: Rect, window_width: int) -> bool {
    &&& region.overlaps(anchor_row(anchor, window_width))
    &&& 2 * region.right() > twice_center_x(anchor)
    &&& 2 * region.x >= twice_center_x(anchor)
}

/// Whether `start` is the right edge of the nearest region left of the anchor, or the window's
/// left edge where there is none.
pub open spec fn is_gap_start(
    start: int,
    anchor: Rect,
    occlusions: Seq<Bounds>,
    window_width: int,
) -> bool {
    &&& start >= 0
    &&& forall|i: int|
        0 <= i < occlusions.len() && ends_before(#[trigger] occlusions[i]@, anchor, window_width)
            ==> occlusions[i]@.right() <= start
    &&& start == 0 || exists|i: int|
        0 <= i < occlusions.len() && ends_before(#[trigger] occlusions[i]@, anchor, window_width)
            && occlusions[i]@.right() == start
}

/// Whether `end` is the left edge of the nearest region right of the anchor, or the window's right
/// edge where there is none.
pub open spec fn is_gap_end(
    end: int,
    anchor: Rect,
    occlusions: Seq<Bounds>,
    window_width: int,
) -> bool {
    &&& end <= window_width
    &&& forall|i: int|
        0 <= i < occlusions.len() && starts_after(#[trigger] occlusions[i]@, anchor, window_width)
            ==> end <= occlusions[i]@.x
    &&& end == window_width || exists|i: int|
        0 <= i < occlusions.len() && starts_after(#[trigger] occlusions[i]@, anchor, window_width)
            && occlusions[i]@.x == end
}

pub open spec fn is_row_gap(
    gap: Range<Pixels>,
    anchor: Rect,
    occlusions: Seq<Bounds>,
    window_width: int,
) -> bool {
    &&& is_gap_start(gap.start@, anchor, occlusions, window_width)
    &&& is_gap_end(gap.end@, anchor, occlusions, window_width)
}

/// Whether every region is small enough to lay things out with.
pub open spec fn all_in_range(occlusions: Seq<Bounds>) -> bool {
    forall|i: int| 0 <= i < occlusions.len() ==> (#[trigger] occlusions[i]).in_range()
}

/// The horizontal room an overlay anchored at `anchor` has on its row: from the right edge of the
/// nearest covered region left of the anchor to the left edge of the nearest one right of it,
/// or the window's edges where there is none. Regions on other rows do not narrow it.
pub fn native_occlusion_row_gap(
    anchor: Bounds,
    occlusions: &[Bounds],
    viewport_size: Size,
) -> (gap: Range<Pixels>)
    requires
        anchor.in_range(),
        all_in_range(occlusions@),
        viewport_size.in_range(),
    ensures
        is_row_gap(gap, anchor@, occlusions@, viewport_size.width@),
{
    let row = Bounds {
        origin: Point {
            x: Pixels { units: 0 },
            y: Pixels { units: anchor.origin.y.units - ROW_REACH },
        },
        size: Size {
            width: viewport_size.width,
            height: Pixels { units: anchor.size.height.units + ROW_REACH * 2 },
        },
    };
    assert(row@ == anchor_row(anchor@, viewport_size.width@));
    let twice_center: i64 = 2 * anchor.origin.x.units + anchor.size.width.units;
    let mut left: i64 = 0;
    let mut right: i64 = viewport_size.width.units;
    let mut i: usize = 0;
    while i < occlusions.len()
        invariant
            i <= occlusions.len(),
            all_in_range(occlusions@),
            row.within(EDGE_UNITS as int),
            row@ == anchor_row(anchor@, viewport_size.width@),
            twice_center == twice_center_x(anchor@),
            is_gap_start(left as int, anchor@, occlusions@.take(i as int), viewport_size.width@),
            is_gap_end(right as int, anchor@, occlusions@.take(i as int), viewport_size.width@),
        decreases occlusions.len() - i,
    {
        let region = occlusions[i];
        assert(occlusions@[i as int].in_range());
        let ghost seen = occlusions@.take(i as int);
        let ghost now = occlusions@.take(i as int + 1);
        let ghost left_before = left;
        let ghost right_before = right;
        assert(now[i as int] == region);
        assert(forall|j: int| 0 <= j < i ==> #[trigger] now[j] == seen[j]);
        if region.intersects(&row) {
            if 2 * region.right().units <= twice_center {
                if left < region.right().units {
                    left = region.right().units;
                }
            } else if 2 * region.left().units >= twice_center {
                if right > region.left().units {
                    right = region.left().units;
                }
            }
        }
        proof {
            let w = viewport_size.width@;
            if left == left_before && left != 0 {
                let j = choose|j: int|
                    0 <= j < seen.len() && ends_before(#[trigger] seen[j]@, anchor@, w)
                        && seen[j]@.right() == left;
                assert(now[j] == seen[j]);
            }
            if left != left_before {
                assert(ends_before(now[i as int]@, anchor@, w));
            }
            if right == right_before && right != w {
                let j = choose|j: int|
                    0 <= j < seen.len() && starts_after(#[trigger] seen[j]@, anchor@, w)
                        && seen[j]@.x == right;
                assert(now[j] == seen[j]);
            }
            if right != right_before {
                assert(starts_after(now[i as int]@, anchor@, w));
            }
            assert forall|j: int|
                0 <= j < now.len() && ends_before(#[trigger] now[j]@, anchor@, w) implies
                now[j]@.right() <= left by {
                if j < i {
                    assert(now[j] == seen[j]);
                }
            }
            assert forall|j: int|
                0 <= j < now.len() && starts_after(#[trigger] now[j]@, anchor@, w) implies right
                <= now[j]@.x by {
                if j < i {
                    assert(now[j] == seen[j]);
                }
            }
        }
        i = i + 1;
    }
    assert(occlusions@.take(i as int) =~= occlusions@);
    Pixels { units: left }..Pixels { units: right }
}

/// How many passes are made when they would go on for ever.
pub const ENDLESS_PASSES: usize = 4;

/// The first region `bounds` overlaps, looking from index `from` on.
pub open spec fn first_overlap_from(occlusions: Seq<Bounds>, bounds: Rect, from: int) -> Option<Rect>
    decreases occlusions.len() - from,
{
    if from < 0 || from >= occlusions.len() {
        None
    } else if occlusions[from]@.overlaps(bounds) {
        Some(occlusions[from]@)
    } else {
        first_overlap_from(occlusions, bounds, from + 1)
    }
}

pub open spec fn first_overlap(occlusions: Seq<Bounds>, bounds: Rect) -> Option<Rect> {
    first_overlap_from(occlusions, bounds, 0)
}

/// `bounds` moved straight out of `region`: to its left, right, top or bottom.
pub open spec fn beside(region: Rect, bounds: Rect, side: int) -> Rect {
    if side == 0 {
        bounds.at(region.x - bounds.w, bounds.y)
    } else if side == 1 {
        bounds.at(region.right(), bounds.y)
    } else if side == 2 {
        bounds.at(bounds.x, region.y - bounds.h)
    } else {
        bounds.at(bounds.x, region.bottom())
    }
}

/// Whether moving out on `side` stays in the window, takes the shortest shift of the sides that
/// do, and is the first of equally short ones.
pub open spec fn is_best_side(region: Rect, bounds: Rect, viewport: Rect, side: int) -> bool {
    &&& 0 <= side < 4
    &&& beside(region, bounds, side).inside(viewport)
    &&& forall|other: int|
        0 <= other < 4 && (#[trigger] beside(region, bounds, other)).inside(viewport)
            ==> bounds.shift(beside(region, bounds, side)) <= bounds.shift(
            beside(region, bounds, other),
        )
    &&& forall|other: int|
        0 <= other < side && (#[trigger] beside(region, bounds, other)).inside(viewport)
            ==> bounds.shift(beside(region, bounds, side)) < bounds.shift(
            beside(region, bounds, other),
        )
}

pub open spec fn has_best_side(region: Rect, bounds: Rect, viewport: Rect) -> bool {
    exists|side: int| #[trigger] is_best_side(region, bounds, viewport, side)
}

/// The side to move out on, where there is one.
pub open spec fn the_best_side(region: Rect, bounds: Rect, viewport: Rect) -> int {
    choose|side: int| #[trigger] is_best_side(region, bounds, viewport, side)
}

/// Where one pass moves `bounds`: out of the first region it overlaps, or nowhere when it overlaps
/// none or no side of that region has room in the window.
pub open spec fn nudge_once(bounds: Rect, occlusions: Seq<Bounds>, viewport: Rect) -> Option<Rect> {
    match first_overlap(occlusions, bounds) {
        Some(region) => if has_best_side(region, bounds, viewport) {
            Some(beside(region, bounds, the_best_side(region, bounds, viewport)))
        } else {
            None
        },
        None => None,
    }
}

/// `bounds` after one pass: where the pass moves it, or where it was.
pub open spec fn pass(bounds: Rect, occlusions: Seq<Bounds>, viewport: Rect) -> Rect {
    match nudge_once(bounds, occlusions, viewport) {
        Some(moved) => moved,
        None => bounds,
    }
}

/// `bounds` after this many passes. Each pass clears one region.
pub open spec fn after_passes(
    bounds: Rect,
    occlusions: Seq<Bounds>,
    viewport: Rect,
    passes: nat,
) -> Rect
    decreases passes,
{
    if passes == 0 {
        bounds
    } else {
        pass(
            after_passes(bounds, occlusions, viewport, (passes - 1) as nat),
            occlusions,
            viewport,
        )
    }
}

/// Whether `bounds` overlaps no region.
pub open spec fn is_clear(bounds: Rect, occlusions: Seq<Bounds>) -> bool {
    forall|i: int| 0 <= i < occlusions.len() ==> !(#[trigger] occlusions[i]@.overlaps(bounds))
}

/// Whether `bounds` overlaps a region that no shift inside the window can clear.
pub open spec fn is_stuck(bounds: Rect, occlusions: Seq<Bounds>, viewport: Rect) -> bool {
    &&& first_overlap(occlusions, bounds) is Some
    &&& forall|side: int|
        0 <= side < 4 ==> !(#[trigger] beside(
            first_overlap(occlusions, bounds)->0,
            bounds,
            side,
        )).inside(viewport)
}

pub open spec fn is_clear_after(
    bounds: Rect,
    occlusions: Seq<Bounds>,
    viewport: Rect,
    passes: nat,
) -> bool {
    is_clear(after_passes(bounds, occlusions, viewport, passes), occlusions)
}

/// Whether pass after pass brings `bounds` out of every region.
pub open spec fn settles_clear(bounds: Rect, occlusions: Seq<Bounds>, viewport: Rect) -> bool {
    exists|passes: nat| #[trigger] is_clear_after(bounds, occlusions, viewport, passes)
}

pub open spec fn is_stuck_after(
    bounds: Rect,
    occlusions: Seq<Bounds>,
    viewport: Rect,
    passes: nat,
) -> bool {
    is_stuck(after_passes(bounds, occlusions, viewport, passes), occlusions, viewport)
}

/// Whether some pass meets a region that no shift can clear.
pub open spec fn gets_stuck(bounds: Rect, occlusions: Seq<Bounds>, viewport: Rect) -> bool {
    exists|passes: nat| #[trigger] is_stuck_after(bounds, occlusions, viewport, passes)
}

/// Where `bounds` ends up: where the passes bring it out of every region; where it was, when they
/// meet a region that no shift can clear; and where a few passes bring it, when they would go on for
/// ever.
pub open spec fn nudged(bounds: Rect, occlusions: Seq<Bounds>, viewport: Rect) -> Rect {
    if settles_clear(bounds, occlusions, viewport) {
        let passes = choose|passes: nat| #[trigger]
            is_clear_after(bounds, occlusions, viewport, passes);
        after_passes(bounds, occlusions, viewport, passes)
    } else if gets_stuck(bounds, occlusions, viewport) {
        bounds
    } else {
        after_passes(bounds, occlusions, viewport, ENDLESS_PASSES as nat)
    }
}

proof fn lemma_best_side_unique(region: Rect, bounds: Rect, viewport: Rect, a: int, b: int)
    requires
        is_best_side(region, bounds, viewport, a),
        is_best_side(region, bounds, viewport, b),
    ensures
        a == b,
{
    let _ = (beside(region, bounds, a), beside(region, bounds, b));
}

proof fn lemma_no_overlap_before(occlusions: Seq<Bounds>, bounds: Rect, from: int, to: int)
    requires
        0 <= from <= to <= occlusions.len(),
        forall|i: int| from <= i < to ==> !(#[trigger] occlusions[i]@.overlaps(bounds)),
    ensures
        first_overlap_from(occlusions, bounds, from) == first_overlap_from(occlusions, bounds, to),
    decreases to - from,
{
    if from < to {
        assert(!occlusions[from]@.overlaps(bounds));
        lemma_no_overlap_before(occlusions, bounds, from + 1, to);
    }
}

/// The index of the first region `bounds` overlaps.
fn find_overlap(occlusions: &[Bounds], bounds: &Bounds) -> (found: Option<usize>)
    requires
        all_in_range(occlusions@),
        bounds.within(EDGE_UNITS as int),
    ensures
        match found {
            Some(i) => i < occlusions.len() && first_overlap(occlusions@, bounds@) == Some(
                occlusions@[i as int]@,
            ) && occlusions@[i as int]@.overlaps(bounds@),
            None => first_overlap(occlusions@, bounds@) is None,
        },
{
    let mut i: usize = 0;
    while i < occlusions.len()
        invariant
            i <= occlusions.len(),
            all_in_range(occlusions@),
            bounds.within(EDGE_UNITS as int),
            forall|j: int| 0 <= j < i ==> !(#[trigger] occlusions@[j]@.overlaps(bounds@)),
        decreases occlusions.len() - i,
    {
        assert(occlusions@[i as int].in_range());
        if occlusions[i].intersects(bounds) {
            proof {
                lemma_no_overlap_before(occlusions@, bounds@, 0, i as int);
            }
            return Some(i);
        }
        i = i + 1;
    }
    proof {
        lemma_no_overlap_before(occlusions@, bounds@, 0, i as int);
    }
    None
}

/// `bounds` with its origin at `(x, y)`, when that lies in the window, with the square of the
/// shift.
fn candidate(bounds: &Bounds, viewport: &Bounds, x: i64, y: i64) -> (fit: Option<i128>)
    requires
        bounds.within(2 * MAX_UNITS),
        viewport.in_range(),
        -2 * MAX_UNITS <= x <= 2 * MAX_UNITS,
        -2 * MAX_UNITS <= y <= 2 * MAX_UNITS,
    ensures
        fit is Some <==> bounds@.at(x as int, y as int).inside(viewport@),
        fit is Some ==> fit->0 == bounds@.shift(bounds@.at(x as int, y as int)),
{
    if x >= viewport.left().units && y >= viewport.top().units && x + bounds.size.width.units
        <= viewport.right().units && y + bounds.size.height.units <= viewport.bottom().units {
        let dx: i128 = x as i128 - bounds.origin.x.units as i128;
        let dy: i128 = y as i128 - bounds.origin.y.units as i128;
        let limit: i128 = 562949953421312;
        assert(-limit <= dx <= limit && -limit <= dy <= limit);
        assert(0 <= dx * dx <= limit * limit) by (nonlinear_arith)
            requires
                -limit <= dx <= limit,
        ;
        assert(0 <= dy * dy <= limit * limit) by (nonlinear_arith)
            requires
                -limit <= dy <= limit,
        ;
        assert(limit * limit == 316912650057057350374175801344) by (nonlinear_arith)
            requires
                limit == 562949953421312,
        ;
        Some(dx * dx + dy * dy)
    } else {
        None
    }
}

/// The side of `region` to move out on.
fn best_side(region: &Bounds, bounds: &Bounds, viewport: &Bounds) -> (best: Option<(usize, Point)>)
    requires
        region.in_range(),
        bounds.within(2 * MAX_UNITS),
        bounds.size.in_range(),
        viewport.in_range(),
    ensures
        match best {
            Some((side, origin)) => {
                &&& is_best_side(region@, bounds@, viewport@, side as int)
                &&& bounds@.at(origin.x@, origin.y@) == beside(region@, bounds@, side as int)
                &&& origin.x.within(2 * MAX_UNITS)
                &&& origin.y.within(2 * MAX_UNITS)
            },
            None => forall|side: int|
                0 <= side < 4 ==> !(#[trigger] beside(region@, bounds@, side)).inside(viewport@),
        },
{
    let mut best: Option<(usize, Point)> = None;
    let mut least: i128 = 0;
    let mut side: usize = 0;
    while side < 4
        invariant
            side <= 4,
            region.in_range(),
            bounds.within(2 * MAX_UNITS),
            bounds.size.in_range(),
            viewport.in_range(),
            match best {
                Some((b, origin)) => {
                    &&& b < side
                    &&& beside(region@, bounds@, b as int).inside(viewport@)
                    &&& least == bounds@.shift(beside(region@, bounds@, b as int))
                    &&& bounds@.at(origin.x@, origin.y@) == beside(region@, bounds@, b as int)
                    &&& origin.x.within(2 * MAX_UNITS)
                    &&& origin.y.within(2 * MAX_UNITS)
                    &&& forall|other: int|
                        0 <= other < side && (#[trigger] beside(region@, bounds@, other)).inside(
                            viewport@,
                        ) ==> least <= bounds@.shift(beside(region@, bounds@, other))
                    &&& forall|other: int|
                        0 <= other < b && (#[trigger] beside(region@, bounds@, other)).inside(
                            viewport@,
                        ) ==> least < bounds@.shift(beside(region@, bounds@, other))
                },
                None => forall|other: int|
                    0 <= other < side ==> !(#[trigger] beside(region@, bounds@, other)).inside(
                        viewport@,
                    ),
            },
        decreases 4 - side,
    {
        let (x, y): (i64, i64) = if side == 0 {
            (region.left().units - bounds.size.width.units, bounds.origin.y.units)
        } else if side == 1 {
            (region.right().units, bounds.origin.y.units)
        } else if side == 2 {
            (bounds.origin.x.units, region.top().units - bounds.size.height.units)
        } else {
            (bounds.origin.x.units, region.bottom().units)
        };
        assert(bounds@.at(x as int, y as int) == beside(region@, bounds@, side as int));
        let fit = candidate(bounds, viewport, x, y);
        match fit {
            Some(shift) => {
                let shorter = match best {
                    Some(_) => shift < least,
                    None => true,
                };
                if shorter {
                    best = Some((side, Point { x: Pixels { units: x }, y: Pixels { units: y } }));
                    least = shift;
                }
            },
            None => {},
        }
        side = side + 1;
    }
    best
}

/// The first overlapped region is one of the regions, it is overlapped, and there is one whenever
/// any region is overlapped.
proof fn lemma_first_overlap(occlusions: Seq<Bounds>, bounds: Rect, from: int)
    requires
        0 <= from <= occlusions.len(),
    ensures
        match first_overlap_from(occlusions, bounds, from) {
            Some(region) => region.overlaps(bounds) && exists|i: int|
                from <= i < occlusions.len() && #[trigger] occlusions[i]@ == region,
            None => forall|i: int|
                from <= i < occlusions.len() ==> !(#[trigger] occlusions[i]@.overlaps(bounds)),
        },
    decreases occlusions.len() - from,
{
    if from < occlusions.len() {
        if !occlusions[from]@.overlaps(bounds) {
            lemma_first_overlap(occlusions, bounds, from + 1);
        }
    }
}

/// A rectangle is clear exactly where it overlaps no first region.
proof fn lemma_clear(bounds: Rect, occlusions: Seq<Bounds>)
    ensures
        is_clear(bounds, occlusions) <==> first_overlap(occlusions, bounds) is None,
{
    lemma_first_overlap(occlusions, bounds, 0);
    if is_clear(bounds, occlusions) {
        lemma_no_overlap_before(occlusions, bounds, 0, occlusions.len() as int);
    }
}

/// Where a pass moves nothing, further passes move nothing either.
proof fn lemma_still(bounds: Rect, occlusions: Seq<Bounds>, viewport: Rect, from: nat, to: nat)
    requires
        from <= to,
        nudge_once(after_passes(bounds, occlusions, viewport, from), occlusions, viewport) is None,
    ensures
        after_passes(bounds, occlusions, viewport, to) == after_passes(
            bounds,
            occlusions,
            viewport,
            from,
        ),
    decreases to - from,
{
    if from < to {
        lemma_still(bounds, occlusions, viewport, from, (to - 1) as nat);
    }
}

/// Passes that come to a clear place end there.
proof fn lemma_settled(bounds: Rect, occlusions: Seq<Bounds>, viewport: Rect, passes: nat)
    requires
        is_clear_after(bounds, occlusions, viewport, passes),
    ensures
        settles_clear(bounds, occlusions, viewport),
        nudged(bounds, occlusions, viewport) == after_passes(bounds, occlusions, viewport, passes),
{
    let chosen = choose|k: nat| #[trigger] is_clear_after(bounds, occlusions, viewport, k);
    lemma_clear(after_passes(bounds, occlusions, viewport, passes), occlusions);
    lemma_clear(after_passes(bounds, occlusions, viewport, chosen), occlusions);
    if passes <= chosen {
        lemma_still(bounds, occlusions, viewport, passes, chosen);
    } else {
        lemma_still(bounds, occlusions, viewport, chosen, passes);
    }
}

/// Passes that come to a region no side of which has room never come to a clear place.
proof fn lemma_stuck(bounds: Rect, occlusions: Seq<Bounds>, viewport: Rect, passes: nat)
    requires
        nudge_once(after_passes(bounds, occlusions, viewport, passes), occlusions, viewport) is None,
        !is_clear_after(bounds, occlusions, viewport, passes),
    ensures
        !settles_clear(bounds, occlusions, viewport),
        gets_stuck(bounds, occlusions, viewport),
{
    let met = after_passes(bounds, occlusions, viewport, passes);
    lemma_clear(met, occlusions);
    let region = first_overlap(occlusions, met)->0;
    assert forall|side: int| 0 <= side < 4 implies !(#[trigger] beside(region, met, side)).inside(
        viewport,
    ) by {
        if beside(region, met, side).inside(viewport) {
            lemma_best_side_exists(region, met, viewport, side);
        }
    }
    assert(is_stuck_after(bounds, occlusions, viewport, passes));
    assert forall|k: nat| !(#[trigger] is_clear_after(bounds, occlusions, viewport, k)) by {
        if passes <= k {
            lemma_still(bounds, occlusions, viewport, passes, k);
        } else if is_clear_after(bounds, occlusions, viewport, k) {
            lemma_clear(after_passes(bounds, occlusions, viewport, k), occlusions);
            lemma_still(bounds, occlusions, viewport, k, passes);
        }
    }
}

/// Passes that come back to a place go round for ever: every place they come to is one they came to
/// before they were back.
proof fn lemma_goes_round(
    bounds: Rect,
    occlusions: Seq<Bounds>,
    viewport: Rect,
    first: nat,
    back: nat,
    passes: nat,
) -> (same: nat)
    requires
        first < back,
        after_passes(bounds, occlusions, viewport, first) == after_passes(
            bounds,
            occlusions,
            viewport,
            back,
        ),
    ensures
        same < back,
        after_passes(bounds, occlusions, viewport, passes) == after_passes(
            bounds,
            occlusions,
            viewport,
            same,
        ),
    decreases passes,
{
    if passes < back {
        passes
    } else {
        let before = lemma_goes_round(
            bounds,
            occlusions,
            viewport,
            first,
            back,
            (passes - 1) as nat,
        );
        if before + 1 == back {
            first
        } else {
            before + 1
        }
    }
}

/// Passes that come back to a place, having moved each time, neither come to a clear place nor get
/// stuck.
proof fn lemma_endless(
    bounds: Rect,
    occlusions: Seq<Bounds>,
    viewport: Rect,
    first: nat,
    back: nat,
)
    requires
        first < back,
        after_passes(bounds, occlusions, viewport, first) == after_passes(
            bounds,
            occlusions,
            viewport,
            back,
        ),
        forall|k: nat|
            k < back ==> nudge_once(
                #[trigger] after_passes(bounds, occlusions, viewport, k),
                occlusions,
                viewport,
            ) is Some,
    ensures
        !settles_clear(bounds, occlusions, viewport),
        !gets_stuck(bounds, occlusions, viewport),
{
    assert forall|k: nat|
        #![trigger is_clear_after(bounds, occlusions, viewport, k)]
        #![trigger is_stuck_after(bounds, occlusions, viewport, k)]
        !is_clear_after(bounds, occlusions, viewport, k) && !is_stuck_after(
            bounds,
            occlusions,
            viewport,
            k,
        ) by {
        let same = lemma_goes_round(bounds, occlusions, viewport, first, back, k);
        let place = after_passes(bounds, occlusions, viewport, same);
        lemma_clear(place, occlusions);
        let region = first_overlap(occlusions, place)->0;
        let side = the_best_side(region, place, viewport);
        assert(is_best_side(region, place, viewport, side));
        assert(beside(region, place, side).inside(viewport));
    }
}

/// Passes that come to a clear place never get stuck.
proof fn lemma_clear_is_not_stuck(bounds: Rect, occlusions: Seq<Bounds>, viewport: Rect)
    requires
        settles_clear(bounds, occlusions, viewport),
    ensures
        !gets_stuck(bounds, occlusions, viewport),
{
    if gets_stuck(bounds, occlusions, viewport) {
        let passes = choose|k: nat| #[trigger] is_stuck_after(bounds, occlusions, viewport, k);
        let met = after_passes(bounds, occlusions, viewport, passes);
        lemma_clear(met, occlusions);
        assert(nudge_once(met, occlusions, viewport) is None);
        lemma_stuck(bounds, occlusions, viewport, passes);
    }
}

/// A number for every place a rectangle can be moved to.
spec fn place_number(place: Rect) -> int {
    let span = 4 * MAX_UNITS + 1;
    (place.x + 2 * MAX_UNITS) * span + (place.y + 2 * MAX_UNITS)
}

spec fn place_count() -> int {
    (4 * MAX_UNITS + 1) * (4 * MAX_UNITS + 1)
}

spec fn is_place(place: Rect) -> bool {
    &&& -2 * MAX_UNITS <= place.x <= 2 * MAX_UNITS
    &&& -2 * MAX_UNITS <= place.y <= 2 * MAX_UNITS
}

proof fn lemma_place_number(a: Rect, b: Rect)
    requires
        is_place(a),
        is_place(b),
    ensures
        0 <= place_number(a) < place_count(),
        place_number(a) == place_number(b) ==> a.x == b.x && a.y == b.y,
{
    let span = 4 * MAX_UNITS + 1;
    let (ax, ay) = (a.x + 2 * MAX_UNITS, a.y + 2 * MAX_UNITS);
    let (bx, by) = (b.x + 2 * MAX_UNITS, b.y + 2 * MAX_UNITS);
    assert(0 <= ax * span + ay < span * span) by (nonlinear_arith)
        requires
            0 <= ax < span,
            0 <= ay < span,
    ;
    if ax * span + ay == bx * span + by {
        assert(ax == bx) by (nonlinear_arith)
            requires
                ax * span + ay == bx * span + by,
                0 <= ay < span,
                0 <= by < span,
        ;
    }
}

/// There are only so many different places of one size.
proof fn lemma_places_run_out(places: Seq<Rect>)
    requires
        forall|i: int| 0 <= i < places.len() ==> is_place(#[trigger] places[i]),
        forall|i: int, j: int|
            0 <= i < j < places.len() ==> (#[trigger] places[i]).w == (#[trigger] places[j]).w
                && places[i].h == places[j].h && places[i] != places[j],
    ensures
        places.len() <= place_count(),
{
    let numbers = places.map_values(|place: Rect| place_number(place));
    assert forall|i: int, j: int| 0 <= i < j < numbers.len() implies numbers[i] != numbers[j] by {
        lemma_place_number(places[i], places[j]);
        assert(places[i] != places[j]);
    }
    assert(numbers.no_duplicates());
    numbers.unique_seq_to_set();
    let all = vstd::set_lib::set_int_range(0, place_count());
    vstd::set_lib::lemma_int_range(0, place_count());
    assert forall|n: int| numbers.to_set().contains(n) implies all.contains(n) by {
        let i = choose|i: int| 0 <= i < numbers.len() && numbers[i] == n;
        lemma_place_number(places[i], places[i]);
    }
    vstd::set_lib::lemma_len_subset(numbers.to_set(), all);
}

/// Whether `place` is one of `places`.
fn was_at(places: &Vec<Bounds>, place: &Bounds) -> (found: Option<usize>)
    ensures
        match found {
            Some(i) => i < places.len() && places@[i as int]@ == place@,
            None => forall|i: int| 0 <= i < places.len() ==> (#[trigger] places@[i])@ != place@,
        },
{
    let mut i: usize = 0;
    while i < places.len()
        invariant
            i <= places.len(),
            forall|j: int| 0 <= j < i ==> (#[trigger] places@[j])@ != place@,
        decreases places.len() - i,
    {
        if places[i] == *place {
            return Some(i);
        }
        i = i + 1;
    }
    None
}

/// Moves `bounds` out of the first region it overlaps; `None` when it overlaps none or no shift can
/// clear the region.
fn one_pass(bounds: Bounds, occlusions: &[Bounds], viewport: &Bounds) -> (moved: Option<Bounds>)
    requires
        bounds.within(2 * MAX_UNITS),
        bounds.size.in_range(),
        all_in_range(occlusions@),
        viewport.in_range(),
    ensures
        match moved {
            Some(moved) => {
                &&& nudge_once(bounds@, occlusions@, viewport@) == Some(moved@)
                &&& moved.within(2 * MAX_UNITS)
                &&& moved.size == bounds.size
            },
            None => nudge_once(bounds@, occlusions@, viewport@) is None,
        },
{
    let index: usize = match find_overlap(occlusions, &bounds) {
        Some(index) => index,
        None => {
            return None;
        },
    };
    let region = occlusions[index];
    assert(occlusions@[index as int].in_range());
    match best_side(&region, &bounds, viewport) {
        Some((side, origin)) => {
            proof {
                assert(is_best_side(region@, bounds@, viewport@, side as int));
                lemma_best_side_unique(
                    region@,
                    bounds@,
                    viewport@,
                    the_best_side(region@, bounds@, viewport@),
                    side as int,
                );
            }
            let moved = Bounds { origin, size: bounds.size };
            assert(moved@ == bounds@.at(origin.x@, origin.y@));
            Some(moved)
        },
        None => None,
    }
}

/// `bounds` after the passes made when they would go on for ever.
fn after_endless_passes(bounds: Bounds, occlusions: &[Bounds], viewport: &Bounds) -> (moved: Bounds)
    requires
        bounds.in_range(),
        all_in_range(occlusions@),
        viewport.in_range(),
    ensures
        moved@ == after_passes(bounds@, occlusions@, viewport@, ENDLESS_PASSES as nat),
        moved.size == bounds.size,
{
    let mut moved = bounds;
    let mut passes: usize = 0;
    while passes < ENDLESS_PASSES
        invariant
            passes <= ENDLESS_PASSES,
            moved.within(2 * MAX_UNITS),
            moved.size == bounds.size,
            moved.size.in_range(),
            all_in_range(occlusions@),
            viewport.in_range(),
            moved@ == after_passes(bounds@, occlusions@, viewport@, passes as nat),
        decreases ENDLESS_PASSES - passes,
    {
        match one_pass(moved, occlusions, viewport) {
            Some(next) => {
                moved = next;
            },
            None => {},
        }
        passes = passes + 1;
    }
    moved
}

/// Moves `bounds` out of every covered region it overlaps, one region at a time, by the shortest
/// shift that keeps it inside `viewport`. Returns it unchanged when no shift can clear a region.
///
/// Each pass clears one region; a corner between two regions settles within a few. Passes that come
/// back to a place they came from would go on for ever, and are stopped after a few.
pub fn nudge_out_of_native_occlusions(
    bounds: Bounds,
    occlusions: &[Bounds],
    viewport: Bounds,
) -> (moved: Bounds)
    requires
        bounds.in_range(),
        all_in_range(occlusions@),
        viewport.in_range(),
    ensures
        moved@ == nudged(bounds@, occlusions@, viewport@),
        moved.size == bounds.size,
        settles_clear(bounds@, occlusions@, viewport@) ==> is_clear(moved@, occlusions@),
        gets_stuck(bounds@, occlusions@, viewport@) ==> moved == bounds,
{
    let mut moved = bounds;
    let mut visited: Vec<Bounds> = Vec::new();
    let ghost mut places: Seq<Rect> = Seq::empty();
    loop
        invariant
            bounds.in_range(),
            moved.within(2 * MAX_UNITS),
            moved.size == bounds.size,
            moved.size.in_range(),
            all_in_range(occlusions@),
            viewport.in_range(),
            moved@ == after_passes(bounds@, occlusions@, viewport@, visited.len() as nat),
            places.len() == visited.len(),
            forall|i: int|
                0 <= i < visited.len() ==> (#[trigger] visited@[i])@ == after_passes(
                    bounds@,
                    occlusions@,
                    viewport@,
                    i as nat,
                ),
            forall|i: int|
                0 <= i < visited.len() ==> nudge_once(
                    (#[trigger] visited@[i])@,
                    occlusions@,
                    viewport@,
                ) is Some,
            forall|i: int|
                0 <= i < visited.len() ==> #[trigger] places[i] == visited@[i]@ && is_place(
                    places[i],
                ) && places[i].w == bounds@.w && places[i].h == bounds@.h,
            forall|i: int, j: int|
                0 <= i < j < places.len() ==> #[trigger] places[i] != #[trigger] places[j],
        decreases place_count() - visited.len(),
    {
        let ghost passes = visited.len() as nat;
        match was_at(&visited, &moved) {
            Some(first) => {
                proof {
                    assert(visited@[first as int]@ == moved@);
                    assert forall|k: nat| k < passes implies nudge_once(
                        #[trigger] after_passes(bounds@, occlusions@, viewport@, k),
                        occlusions@,
                        viewport@,
                    ) is Some by {
                        assert(visited@[k as int]@ == after_passes(
                            bounds@,
                            occlusions@,
                            viewport@,
                            k,
                        ));
                    }
                    lemma_endless(bounds@, occlusions@, viewport@, first as nat, passes);
                }
                return after_endless_passes(bounds, occlusions, &viewport);
            },
            None => {},
        }
        match one_pass(moved, occlusions, &viewport) {
            Some(next) => {
                let ghost before = moved@;
                visited.push(moved);
                moved = next;
                proof {
                    places = places.push(before);
                    assert forall|i: int, j: int| 0 <= i < j < places.len() implies
                        #[trigger] places[i] != #[trigger] places[j] by {
                        assert(places[i] == visited@[i]@);
                    }
                    lemma_places_run_out(places);
                }
            },
            None => {
                let clear = find_overlap(occlusions, &moved).is_none();
                proof {
                    lemma_clear(moved@, occlusions@);
                    if clear {
                        assert(is_clear_after(bounds@, occlusions@, viewport@, passes));
                        lemma_settled(bounds@, occlusions@, viewport@, passes);
                        lemma_clear_is_not_stuck(bounds@, occlusions@, viewport@);
                    } else {
                        lemma_stuck(bounds@, occlusions@, viewport@, passes);
                    }
                }
                return if clear {
                    moved
                } else {
                    bounds
                };
            },
        }
    }
}

/// The record of a covered region lasts one frame: it is what overlays see while the next frame
/// has recorded nothing, and it is gone once that frame is on screen.
pub proof fn law_record_lasts_one_frame(recorded: Window, next: Window, after: Window)
    requires
        frame_finished(recorded, next),
        frame_finished(next, after),
    ensures
        next.occlusions() == recorded.next_frame.native_occlusions@,
        after.occlusions() == Seq::<Bounds>::empty(),
{
}

/// Only the regions on the anchor's row decide the gap: neither regions on other rows nor the
/// order or repetition of regions change it.
pub proof fn law_row_gap_depends_on_row_only(
    gap: Range<Pixels>,
    anchor: Rect,
    a: Seq<Bounds>,
    b: Seq<Bounds>,
    window_width: int,
)
    requires
        is_row_gap(gap, anchor, a, window_width),
        forall|i: int|
            0 <= i < a.len() && (#[trigger] a[i])@.overlaps(anchor_row(anchor, window_width))
                ==> b.contains(a[i]),
        forall|i: int|
            0 <= i < b.len() && (#[trigger] b[i])@.overlaps(anchor_row(anchor, window_width))
                ==> a.contains(b[i]),
    ensures
        is_row_gap(gap, anchor, b, window_width),
{
    assert forall|i: int|
        0 <= i < b.len() && ends_before(#[trigger] b[i]@, anchor, window_width) implies b[i]@.right()
        <= gap.start@ by {
        let j = choose|j: int| 0 <= j < a.len() && a[j] == b[i];
        assert(ends_before(a[j]@, anchor, window_width));
    }
    assert forall|i: int|
        0 <= i < b.len() && starts_after(#[trigger] b[i]@, anchor, window_width) implies gap.end@
        <= b[i]@.x by {
        let j = choose|j: int| 0 <= j < a.len() && a[j] == b[i];
        assert(starts_after(a[j]@, anchor, window_width));
    }
    if gap.start@ != 0 {
        let i = choose|i: int|
            0 <= i < a.len() && ends_before(#[trigger] a[i]@, anchor, window_width)
                && a[i]@.right() == gap.start@;
        let j = choose|j: int| 0 <= j < b.len() && b[j] == a[i];
        assert(ends_before(b[j]@, anchor, window_width));
    }
    if gap.end@ != window_width {
        let i = choose|i: int|
            0 <= i < a.len() && starts_after(#[trigger] a[i]@, anchor, window_width)
                && a[i]@.x == gap.end@;
        let j = choose|j: int| 0 <= j < b.len() && b[j] == a[i];
        assert(starts_after(b[j]@, anchor, window_width));
    }
}

/// There is only one gap for an anchor and a list of regions.
pub proof fn law_row_gap_unique(
    a: Range<Pixels>,
    b: Range<Pixels>,
    anchor: Rect,
    occlusions: Seq<Bounds>,
    window_width: int,
)
    requires
        is_row_gap(a, anchor, occlusions, window_width),
        is_row_gap(b, anchor, occlusions, window_width),
    ensures
        a.start@ == b.start@,
        a.end@ == b.end@,
{
}

/// No region reaches into the gap on the anchor's row, except one that lies across the anchor's
/// middle; and the gap lies around the middle of an anchor that is in the window.
pub proof fn law_row_gap_is_free(
    gap: Range<Pixels>,
    anchor: Rect,
    occlusions: Seq<Bounds>,
    window_width: int,
    i: int,
)
    requires
        is_row_gap(gap, anchor, occlusions, window_width),
        0 <= i < occlusions.len(),
        occlusions[i]@.overlaps(anchor_row(anchor, window_width)),
        !(2 * occlusions[i]@.x < twice_center_x(anchor) < 2 * occlusions[i]@.right()),
    ensures
        occlusions[i]@.right() <= gap.start@ || gap.end@ <= occlusions[i]@.x,
        0 <= twice_center_x(anchor) ==> 2 * gap.start@ <= twice_center_x(anchor),
        twice_center_x(anchor) <= 2 * window_width ==> twice_center_x(anchor) <= 2 * gap.end@,
{
    assert(ends_before(occlusions[i]@, anchor, window_width) || starts_after(
        occlusions[i]@,
        anchor,
        window_width,
    ));
}

/// A rectangle that overlaps no region is not moved.
pub proof fn law_clear_bounds_stay(bounds: Rect, occlusions: Seq<Bounds>, viewport: Rect)
    requires
        is_clear(bounds, occlusions),
    ensures
        nudged(bounds, occlusions, viewport) == bounds,
{
    assert(is_clear_after(bounds, occlusions, viewport, 0));
    lemma_settled(bounds, occlusions, viewport, 0);
}

/// Where some side of a region has room in the window, there is a best side.
proof fn lemma_best_side_exists(region: Rect, bounds: Rect, viewport: Rect, side: int)
    requires
        0 <= side < 4,
        beside(region, bounds, side).inside(viewport),
    ensures
        exists|best: int| #[trigger] is_best_side(region, bounds, viewport, best),
{
    let c0 = beside(region, bounds, 0);
    let c1 = beside(region, bounds, 1);
    let c2 = beside(region, bounds, 2);
    let c3 = beside(region, bounds, 3);
    let s0 = bounds.shift(c0);
    let s1 = bounds.shift(c1);
    let s2 = bounds.shift(c2);
    let s3 = bounds.shift(c3);
    let f0 = c0.inside(viewport);
    let f1 = c1.inside(viewport);
    let f2 = c2.inside(viewport);
    let f3 = c3.inside(viewport);
    if f0 && (!f1 || s0 <= s1) && (!f2 || s0 <= s2) && (!f3 || s0 <= s3) {
        assert(is_best_side(region, bounds, viewport, 0));
    } else if f1 && (!f2 || s1 <= s2) && (!f3 || s1 <= s3) {
        assert(is_best_side(region, bounds, viewport, 1));
    } else if f2 && (!f3 || s2 <= s3) {
        assert(is_best_side(region, bounds, viewport, 2));
    } else {
        assert(is_best_side(region, bounds, viewport, 3));
    }
}

/// Bounds are returned unchanged when no shift can clear a region, whichever pass meets it.
pub proof fn law_stuck_bounds_stay(
    bounds: Rect,
    occlusions: Seq<Bounds>,
    viewport: Rect,
    passes: nat,
)
    requires
        is_stuck(after_passes(bounds, occlusions, viewport, passes), occlusions, viewport),
    ensures
        nudged(bounds, occlusions, viewport) == bounds,
{
    let met = after_passes(bounds, occlusions, viewport, passes);
    lemma_clear(met, occlusions);
    assert(nudge_once(met, occlusions, viewport) is None);
    lemma_stuck(bounds, occlusions, viewport, passes);
}

/// Bounds end up clear of every region as soon as any number of passes brings them to a clear place,
/// and that place is where they end up.
pub proof fn law_nudge_ends_where_it_is_clear(
    bounds: Rect,
    occlusions: Seq<Bounds>,
    viewport: Rect,
    passes: nat,
)
    requires
        is_clear(after_passes(bounds, occlusions, viewport, passes), occlusions),
    ensures
        nudged(bounds, occlusions, viewport) == after_passes(bounds, occlusions, viewport, passes),
        is_clear(nudged(bounds, occlusions, viewport), occlusions),
{
    assert(is_clear_after(bounds, occlusions, viewport, passes));
    lemma_settled(bounds, occlusions, viewport, passes);
}

/// Passes that come back to a place, having moved each time, are stopped where a few of them bring
/// the rectangle.
pub proof fn law_endless_passes_are_stopped(
    bounds: Rect,
    occlusions: Seq<Bounds>,
    viewport: Rect,
    first: nat,
    back: nat,
)
    requires
        first < back,
        after_passes(bounds, occlusions, viewport, first) == after_passes(
            bounds,
            occlusions,
            viewport,
            back,
        ),
        forall|k: nat|
            k < back ==> nudge_once(
                #[trigger] after_passes(bounds, occlusions, viewport, k),
                occlusions,
                viewport,
            ) is Some,
    ensures
        nudged(bounds, occlusions, viewport) == after_passes(
            bounds,
            occlusions,
            viewport,
            ENDLESS_PASSES as nat,
        ),
{
    lemma_endless(bounds, occlusions, viewport, first, back);
}

/// A pass clears the region it moves out of and leaves the rectangle in the window.
pub proof fn law_pass_clears_its_region(bounds: Rect, occlusions: Seq<Bounds>, viewport: Rect)
    requires
        nudge_once(bounds, occlusions, viewport) is Some,
    ensures
        ({
            let moved = nudge_once(bounds, occlusions, viewport)->0;
            let region = first_overlap(occlusions, bounds)->0;
            &&& first_overlap(occlusions, bounds) is Some
            &&& region.overlaps(bounds)
            &&& !region.overlaps(moved)
            &&& moved.inside(viewport)
            &&& moved.w == bounds.w
            &&& moved.h == bounds.h
            &&& moved != bounds
        }),
{
    lemma_first_overlap(occlusions, bounds, 0);
    let region = first_overlap(occlusions, bounds)->0;
    assert(is_best_side(region, bounds, viewport, the_best_side(region, bounds, viewport)));
}

/// A pass takes the shortest shift that keeps the rectangle in the window: whatever place inside
/// the window clears the region, the pass finds one that is no further away.
pub proof fn law_pass_takes_the_shortest_shift(
    bounds: Rect,
    occlusions: Seq<Bounds>,
    viewport: Rect,
    place: Rect,
)
    requires
        bounds.inside(viewport),
        first_overlap(occlusions, bounds) is Some,
        place.w == bounds.w,
        place.h == bounds.h,
        place.inside(viewport),
        !first_overlap(occlusions, bounds)->0.overlaps(place),
    ensures
        nudge_once(bounds, occlusions, viewport) is Some,
        bounds.shift(nudge_once(bounds, occlusions, viewport)->0) <= bounds.shift(place),
{
    lemma_first_overlap(occlusions, bounds, 0);
    let region = first_overlap(occlusions, bounds)->0;
    let side: int = if region.x >= place.right() {
        0
    } else if region.right() <= place.x {
        1
    } else if region.y >= place.bottom() {
        2
    } else {
        3
    };
    let moved = beside(region, bounds, side);
    assert(moved.inside(viewport));
    lemma_best_side_exists(region, bounds, viewport, side);
    assert(has_best_side(region, bounds, viewport));
    assert(is_best_side(region, bounds, viewport, the_best_side(region, bounds, viewport)));
    let dx = place.x - bounds.x;
    let dy = place.y - bounds.y;
    let mx = moved.x - bounds.x;
    let my = moved.y - bounds.y;
    assert(dx * dx >= 0 && dy * dy >= 0) by (nonlinear_arith);
    if side < 2 {
        assert(my == 0);
        assert(mx * mx <= dx * dx) by (nonlinear_arith)
            requires
                dx <= mx <= 0 || 0 <= mx <= dx,
        ;
    } else {
        assert(mx == 0);
        assert(my * my <= dy * dy) by (nonlinear_arith)
            requires
                dy <= my <= 0 || 0 <= my <= dy,
        ;
    }
}

proof fn lemma_passes_stay_in_the_window(
    bounds: Rect,
    occlusions: Seq<Bounds>,
    viewport: Rect,
    passes: nat,
)
    ensures
        ({
            let moved = after_passes(bounds, occlusions, viewport, passes);
            &&& moved == bounds || moved.inside(viewport)
            &&& moved.w == bounds.w
            &&& moved.h == bounds.h
        }),
    decreases passes,
{
    if passes > 0 {
        lemma_passes_stay_in_the_window(bounds, occlusions, viewport, (passes - 1) as nat);
        let before = after_passes(bounds, occlusions, viewport, (passes - 1) as nat);
        if nudge_once(before, occlusions, viewport) is Some {
            law_pass_clears_its_region(before, occlusions, viewport);
        }
    }
}

/// A rectangle in the window is kept in the window, and one that is moved ends up in it.
pub proof fn law_nudge_stays_in_the_window(bounds: Rect, occlusions: Seq<Bounds>, viewport: Rect)
    ensures
        bounds.inside(viewport) || nudged(bounds, occlusions, viewport) != bounds ==> nudged(
            bounds,
            occlusions,
            viewport,
        ).inside(viewport),
        nudged(bounds, occlusions, viewport).w == bounds.w,
        nudged(bounds, occlusions, viewport).h == bounds.h,
{
    if settles_clear(bounds, occlusions, viewport) {
        let passes = choose|k: nat| #[trigger] is_clear_after(bounds, occlusions, viewport, k);
        lemma_passes_stay_in_the_window(bounds, occlusions, viewport, passes);
    } else {
        lemma_passes_stay_in_the_window(bounds, occlusions, viewport, ENDLESS_PASSES as nat);
    }
}

proof fn lemma_passes_are_places(
    bounds: Bounds,
    occlusions: Seq<Bounds>,
    viewport: Rect,
    passes: nat,
)
    requires
        bounds.in_range(),
        all_in_range(occlusions),
    ensures
        is_place(after_passes(bounds@, occlusions, viewport, passes)),
    decreases passes,
{
    if passes > 0 {
        lemma_passes_are_places(bounds, occlusions, viewport, (passes - 1) as nat);
        lemma_passes_stay_in_the_window(bounds@, occlusions, viewport, (passes - 1) as nat);
        let before = after_passes(bounds@, occlusions, viewport, (passes - 1) as nat);
        lemma_first_overlap(occlusions, before, 0);
        if nudge_once(before, occlusions, viewport) is Some {
            let region = first_overlap(occlusions, before)->0;
            let i = choose|i: int|
                0 <= i < occlusions.len() && #[trigger] occlusions[i]@ == region;
            assert(occlusions[i].in_range());
        }
    }
}

/// Passes that neither come to a clear place nor meet a region no shift can clear go on for ever, and
/// come back to a place they came from: being clear, being stuck and going round are all there is.
pub proof fn law_endless_passes_come_back(
    bounds: Bounds,
    occlusions: Seq<Bounds>,
    viewport: Rect,
) -> (places: (nat, nat))
    requires
        bounds.in_range(),
        all_in_range(occlusions),
        !settles_clear(bounds@, occlusions, viewport),
        !gets_stuck(bounds@, occlusions, viewport),
    ensures
        forall|passes: nat|
            nudge_once(
                #[trigger] after_passes(bounds@, occlusions, viewport, passes),
                occlusions,
                viewport,
            ) is Some,
        places.0 < places.1,
        after_passes(bounds@, occlusions, viewport, places.0) == after_passes(
            bounds@,
            occlusions,
            viewport,
            places.1,
        ),
{
    assert forall|passes: nat|
        nudge_once(
            #[trigger] after_passes(bounds@, occlusions, viewport, passes),
            occlusions,
            viewport,
        ) is Some by {
        let place = after_passes(bounds@, occlusions, viewport, passes);
        assert(!is_clear_after(bounds@, occlusions, viewport, passes));
        lemma_clear(place, occlusions);
        assert(!is_stuck_after(bounds@, occlusions, viewport, passes));
        let region = first_overlap(occlusions, place)->0;
        let side = choose|side: int|
            0 <= side < 4 && (#[trigger] beside(region, place, side)).inside(viewport);
        lemma_best_side_exists(region, place, viewport, side);
    }
    let count = (place_count() + 1) as nat;
    let places = Seq::new(
        count,
        |i: int| after_passes(bounds@, occlusions, viewport, i as nat),
    );
    if forall|i: int, j: int| 0 <= i < j < count ==> #[trigger] places[i] != #[trigger] places[j] {
        assert forall|i: int| 0 <= i < places.len() implies is_place(#[trigger] places[i])
            && places[i].w == bounds@.w && places[i].h == bounds@.h by {
            lemma_passes_are_places(bounds, occlusions, viewport, i as nat);
            lemma_passes_stay_in_the_window(bounds@, occlusions, viewport, i as nat);
        }
        lemma_places_run_out(places);
    }
    let (i, j) = choose|i: int, j: int|
        0 <= i < j < count && #[trigger] places[i] == #[trigger] places[j];
    (i as nat, j as nat)
}

/// With a single region, one pass decides: the rectangle ends up where it moves out of the region,
/// or where it was.
pub proof fn law_single_region_takes_one_pass(
    bounds: Rect,
    occlusions: Seq<Bounds>,
    viewport: Rect,
)
    requires
        occlusions.len() == 1,
    ensures
        nudged(bounds, occlusions, viewport) == pass(bounds, occlusions, viewport),
        occlusions[0]@.overlaps(pass(bounds, occlusions, viewport)) ==> pass(
            bounds,
            occlusions,
            viewport,
        ) == bounds,
{
    reveal_with_fuel(after_passes, 2);
    lemma_first_overlap(occlusions, bounds, 0);
    if nudge_once(bounds, occlusions, viewport) is Some {
        law_pass_clears_its_region(bounds, occlusions, viewport);
        assert(is_clear_after(bounds, occlusions, viewport, 1));
        lemma_settled(bounds, occlusions, viewport, 1);
    } else if is_clear(bounds, occlusions) {
        law_clear_bounds_stay(bounds, occlusions, viewport);
    } else {
        assert(!is_clear_after(bounds, occlusions, viewport, 0));
        lemma_stuck(bounds, occlusions, viewport, 0);
    }
}

/// Overlays see the regions the frame being drawn has recorded as soon as it has recorded one, and
/// the regions of the frame on screen until then.
pub proof fn law_recorded_regions_come_first(window: Window)
    ensures
        window.next_frame.native_occlusions@.len() > 0 ==> window.occlusions()
            == window.next_frame.native_occlusions@,
        window.next_frame.native_occlusions@.len() == 0 ==> window.occlusions()
            == window.rendered_frame.native_occlusions@,
{
}

/// A region that starts 48 pixels or more below the bottom edge of the anchor, or ends 48 pixels or
/// more above its top edge, does not change the gap: the gap with it is the gap without it, wherever
/// it stands in the list. Nor does a region that lies beside the window.
pub proof fn law_region_off_the_row_does_not_change_the_gap(
    gap: Range<Pixels>,
    anchor: Bounds,
    others: Seq<Bounds>,
    at: int,
    region: Bounds,
    window_width: int,
)
    requires
        0 <= at <= others.len(),
        region.origin.y.units >= anchor.origin.y.units + anchor.size.height.units + 48 * 65536
            || region.origin.y.units + region.size.height.units <= anchor.origin.y.units - 48 * 65536
            || region.origin.x.units >= window_width || region.origin.x.units
            + region.size.width.units <= 0,
    ensures
        is_row_gap(gap, anchor@, others.insert(at, region), window_width) <==> is_row_gap(
            gap,
            anchor@,
            others,
            window_width,
        ),
{
    let with = others.insert(at, region);
    assert(with[at] == region);
    assert(!region@.overlaps(anchor_row(anchor@, window_width)));
    assert forall|i: int|
        0 <= i < others.len() && (#[trigger] others[i])@.overlaps(
            anchor_row(anchor@, window_width),
        ) implies with.contains(others[i]) by {
        assert(others[i] == with[if i < at {
            i
        } else {
            i + 1
        }]);
    }
    assert forall|i: int|
        0 <= i < with.len() && (#[trigger] with[i])@.overlaps(
            anchor_row(anchor@, window_width),
        ) implies others.contains(with[i]) by {
        assert(with[i] == others[if i < at {
            i
        } else {
            i - 1
        }]);
    }
    if is_row_gap(gap, anchor@, with, window_width) {
        law_row_gap_depends_on_row_only(gap, anchor@, with, others, window_width);
    }
    if is_row_gap(gap, anchor@, others, window_width) {
        law_row_gap_depends_on_row_only(gap, anchor@, others, with, window_width);
    }
}

/// A region in the window's width that comes nearer than 48 pixels to the anchor, above or below,
/// counts: the gap starts no further left than the right edge of one that ends at or before the
/// anchor's middle, and ends no further right than the left edge of one that starts at or after it.
pub proof fn law_region_on_the_row_narrows_the_gap(
    gap: Range<Pixels>,
    anchor: Bounds,
    occlusions: Seq<Bounds>,
    window_width: int,
    i: int,
)
    requires
        is_row_gap(gap, anchor@, occlusions, window_width),
        0 <= i < occlusions.len(),
        occlusions[i].origin.y.units < anchor.origin.y.units + anchor.size.height.units + 48
            * 65536,
        occlusions[i].origin.y.units + occlusions[i].size.height.units > anchor.origin.y.units - 48
            * 65536,
        occlusions[i].origin.x.units < window_width,
        occlusions[i].origin.x.units + occlusions[i].size.width.units > 0,
    ensures
        ({
            let left = occlusions[i].origin.x.units as int;
            let right = occlusions[i].origin.x.units + occlusions[i].size.width.units;
            let middle = anchor.origin.x.units + anchor.origin.x.units + anchor.size.width.units;
            &&& right + right <= middle ==> gap.start.units >= right
            &&& left + left >= middle && right + right > middle ==> gap.end.units <= left
        }),
{
    let region = occlusions[i]@;
    assert(region.overlaps(anchor_row(anchor@, window_width)));
    assert(ends_before(region, anchor@, window_width) || starts_after(region, anchor@, window_width)
        || 2 * region.x < twice_center_x(anchor@) < 2 * region.right());
}

/// The gap starts at the window's left edge or where a region nearer than 48 pixels above and below
/// the anchor ends, at or before the anchor's middle; it ends at the window's right edge or where
/// such a region starts, at or after the middle. It never reaches out of the window.
pub proof fn law_gap_ends_at_a_region_or_the_window(
    gap: Range<Pixels>,
    anchor: Bounds,
    occlusions: Seq<Bounds>,
    window_width: int,
) -> (regions: (int, int))
    requires
        is_row_gap(gap, anchor@, occlusions, window_width),
    ensures
        gap.start.units >= 0,
        gap.end.units <= window_width,
        gap.start.units != 0 ==> {
            let region = occlusions[regions.0];
            &&& 0 <= regions.0 < occlusions.len()
            &&& gap.start.units == region.origin.x.units + region.size.width.units
            &&& 2 * gap.start.units <= 2 * anchor.origin.x.units + anchor.size.width.units
            &&& region.origin.y.units < anchor.origin.y.units + anchor.size.height.units + 48 * 65536
            &&& region.origin.y.units + region.size.height.units > anchor.origin.y.units - 48 * 65536
        },
        gap.end.units != window_width ==> {
            let region = occlusions[regions.1];
            &&& 0 <= regions.1 < occlusions.len()
            &&& gap.end.units == region.origin.x.units
            &&& 2 * gap.end.units >= 2 * anchor.origin.x.units + anchor.size.width.units
            &&& region.origin.y.units < anchor.origin.y.units + anchor.size.height.units + 48 * 65536
            &&& region.origin.y.units + region.size.height.units > anchor.origin.y.units - 48 * 65536
        },
{
    let before = choose|i: int|
        0 <= i < occlusions.len() && ends_before(#[trigger] occlusions[i]@, anchor@, window_width)
            && occlusions[i]@.right() == gap.start@;
    let after = choose|i: int|
        0 <= i < occlusions.len() && starts_after(#[trigger] occlusions[i]@, anchor@, window_width)
            && occlusions[i]@.x == gap.end@;
    (before, after)
}

/// Without regions the gap is the window's whole width.
pub proof fn law_empty_row_is_the_whole_window(
    gap: Range<Pixels>,
    anchor: Bounds,
    window_width: int,
)
    requires
        window_width >= 0,
        is_row_gap(gap, anchor@, Seq::empty(), window_width),
    ensures
        gap.start.units == 0,
        gap.end.units == window_width,
{
}

/// A rectangle is clear exactly when every region lies wholly to its left, right, top or bottom.
pub proof fn law_clear_is_apart_from_every_region(bounds: Bounds, occlusions: Seq<Bounds>)
    ensures
        is_clear(bounds@, occlusions) <==> forall|i: int|
            0 <= i < occlusions.len() ==> {
                let region = #[trigger] occlusions[i];
                ||| region.origin.x.units + region.size.width.units <= bounds.origin.x.units
                ||| bounds.origin.x.units + bounds.size.width.units <= region.origin.x.units
                ||| region.origin.y.units + region.size.height.units <= bounds.origin.y.units
                ||| bounds.origin.y.units + bounds.size.height.units <= region.origin.y.units
            },
{
    if is_clear(bounds@, occlusions) {
        assert forall|i: int| 0 <= i < occlusions.len() implies {
            let region = #[trigger] occlusions[i];
            ||| region.origin.x.units + region.size.width.units <= bounds.origin.x.units
            ||| bounds.origin.x.units + bounds.size.width.units <= region.origin.x.units
            ||| region.origin.y.units + region.size.height.units <= bounds.origin.y.units
            ||| bounds.origin.y.units + bounds.size.height.units <= region.origin.y.units
        } by {
            assert(!occlusions[i]@.overlaps(bounds@));
        }
    }
}

/// The shorter of two distances has the smaller square.
proof fn lemma_squares_in_order(a: int, b: int)
    requires
        0 < a,
        0 < b,
    ensures
        a < b <==> a * a < b * b,
        a <= b <==> a * a <= b * b,
{
    assert(a < b ==> a * a < b * b) by (nonlinear_arith)
        requires
            0 < a,
            0 < b,
    ;
    assert(b < a ==> b * b < a * a) by (nonlinear_arith)
        requires
            0 < a,
            0 < b,
    ;
}

/// A pass moves the rectangle out of the first region in the list that it overlaps, along one axis
/// and no further than to the region's edge: to the side it is least deep from among those that stay
/// in the window, and of equally near ones to the left before the right, the top and the bottom.
/// Where no side stays in the window the rectangle is not moved, now or by any later pass.
pub proof fn law_pass_moves_out_by_the_nearest_side(
    bounds: Rect,
    occlusions: Seq<Bounds>,
    viewport: Rect,
    first: int,
)
    requires
        0 <= first < occlusions.len(),
        ({
            let region = occlusions[first];
            &&& region.origin.x.units < bounds.x + bounds.w
            &&& bounds.x < region.origin.x.units + region.size.width.units
            &&& region.origin.y.units < bounds.y + bounds.h
            &&& bounds.y < region.origin.y.units + region.size.height.units
        }),
        forall|i: int|
            0 <= i < first ==> {
                let region = #[trigger] occlusions[i];
                ||| region.origin.x.units + region.size.width.units <= bounds.x
                ||| bounds.x + bounds.w <= region.origin.x.units
                ||| region.origin.y.units + region.size.height.units <= bounds.y
                ||| bounds.y + bounds.h <= region.origin.y.units
            },
    ensures
        ({
            let x = occlusions[first].origin.x.units as int;
            let y = occlusions[first].origin.y.units as int;
            let right = x + occlusions[first].size.width.units;
            let bottom = y + occlusions[first].size.height.units;
            let rows_fit = viewport.y <= bounds.y && bounds.y + bounds.h <= viewport.y + viewport.h;
            let columns_fit = viewport.x <= bounds.x && bounds.x + bounds.w <= viewport.x
                + viewport.w;
            let left_fits = rows_fit && viewport.x <= x - bounds.w && x <= viewport.x + viewport.w;
            let right_fits = rows_fit && viewport.x <= right && right + bounds.w <= viewport.x
                + viewport.w;
            let top_fits = columns_fit && viewport.y <= y - bounds.h && y <= viewport.y
                + viewport.h;
            let bottom_fits = columns_fit && viewport.y <= bottom && bottom + bounds.h
                <= viewport.y + viewport.h;
            let from_left = bounds.x + bounds.w - x;
            let from_right = right - bounds.x;
            let from_top = bounds.y + bounds.h - y;
            let from_bottom = bottom - bounds.y;
            let moved = nudge_once(bounds, occlusions, viewport);
            &&& left_fits && (right_fits ==> from_left <= from_right) && (top_fits ==> from_left
                <= from_top) && (bottom_fits ==> from_left <= from_bottom) ==> moved == Some(
                (Rect { x: bounds.x - from_left, y: bounds.y, w: bounds.w, h: bounds.h }),
            )
            &&& right_fits && (left_fits ==> from_right < from_left) && (top_fits ==> from_right
                <= from_top) && (bottom_fits ==> from_right <= from_bottom) ==> moved == Some(
                (Rect { x: bounds.x + from_right, y: bounds.y, w: bounds.w, h: bounds.h }),
            )
            &&& top_fits && (left_fits ==> from_top < from_left) && (right_fits ==> from_top
                < from_right) && (bottom_fits ==> from_top <= from_bottom) ==> moved == Some(
                (Rect { x: bounds.x, y: bounds.y - from_top, w: bounds.w, h: bounds.h }),
            )
            &&& bottom_fits && (left_fits ==> from_bottom < from_left) && (right_fits
                ==> from_bottom < from_right) && (top_fits ==> from_bottom < from_top) ==> moved
                == Some(
                (Rect { x: bounds.x, y: bounds.y + from_bottom, w: bounds.w, h: bounds.h }),
            )
            &&& !left_fits && !right_fits && !top_fits && !bottom_fits ==> moved is None && nudged(
                bounds,
                occlusions,
                viewport,
            ) == bounds
        }),
{
    let region = occlusions[first]@;
    assert forall|i: int| 0 <= i < first implies !(#[trigger] occlusions[i]@.overlaps(bounds)) by {
        assert(occlusions[i]@.x == occlusions[i].origin.x.units);
    }
    lemma_no_overlap_before(occlusions, bounds, 0, first);
    assert(first_overlap(occlusions, bounds) == Some(region));
    let from_left = bounds.x + bounds.w - region.x;
    let from_right = region.x + region.w - bounds.x;
    let from_top = bounds.y + bounds.h - region.y;
    let from_bottom = region.y + region.h - bounds.y;
    assert(bounds.shift(beside(region, bounds, 0)) == from_left * from_left) by (nonlinear_arith)
        requires
            beside(region, bounds, 0).x - bounds.x == -from_left,
            beside(region, bounds, 0).y - bounds.y == 0,
    ;
    assert(bounds.shift(beside(region, bounds, 1)) == from_right * from_right) by (nonlinear_arith)
        requires
            beside(region, bounds, 1).x - bounds.x == from_right,
            beside(region, bounds, 1).y - bounds.y == 0,
    ;
    assert(bounds.shift(beside(region, bounds, 2)) == from_top * from_top) by (nonlinear_arith)
        requires
            beside(region, bounds, 2).x - bounds.x == 0,
            beside(region, bounds, 2).y - bounds.y == -from_top,
    ;
    assert(bounds.shift(beside(region, bounds, 3)) == from_bottom * from_bottom)
        by (nonlinear_arith)
        requires
            beside(region, bounds, 3).x - bounds.x == 0,
            beside(region, bounds, 3).y - bounds.y == from_bottom,
    ;
    lemma_squares_in_order(from_left, from_right);
    lemma_squares_in_order(from_left, from_top);
    lemma_squares_in_order(from_left, from_bottom);
    lemma_squares_in_order(from_right, from_top);
    lemma_squares_in_order(from_right, from_bottom);
    lemma_squares_in_order(from_top, from_bottom);
    let best = the_best_side(region, bounds, viewport);
    if beside(region, bounds, 0).inside(viewport) {
        lemma_best_side_exists(region, bounds, viewport, 0);
    } else if beside(region, bounds, 1).inside(viewport) {
        lemma_best_side_exists(region, bounds, viewport, 1);
    } else if beside(region, bounds, 2).inside(viewport) {
        lemma_best_side_exists(region, bounds, viewport, 2);
    } else if beside(region, bounds, 3).inside(viewport) {
        lemma_best_side_exists(region, bounds, viewport, 3);
    } else {
        assert(is_stuck(after_passes(bounds, occlusions, viewport, 0), occlusions, viewport));
        law_stuck_bounds_stay(bounds, occlusions, viewport, 0);
        if has_best_side(region, bounds, viewport) {
            assert(is_best_side(region, bounds, viewport, best));
        }
    }
    if has_best_side(region, bounds, viewport) {
        assert(is_best_side(region, bounds, viewport, best));
        assert(best == 0 || best == 1 || best == 2 || best == 3);
        assert(beside(region, bounds, 0).x == region.x - bounds.w);
        assert(beside(region, bounds, 1).x == region.x + region.w);
        assert(beside(region, bounds, 2).y == region.y - bounds.h);
        assert(beside(region, bounds, 3).y == region.y + region.h);
    }
}

/// Passes follow one another: each starts where the one before it ended, and one that moves nothing
/// leaves the rectangle where it is.
pub proof fn law_passes_follow_one_another(
    bounds: Rect,
    occlusions: Seq<Bounds>,
    viewport: Rect,
    passes: nat,
)
    ensures
        after_passes(bounds, occlusions, viewport, 0) == bounds,
        ({
            let before = after_passes(bounds, occlusions, viewport, passes);
            let after = after_passes(bounds, occlusions, viewport, passes + 1);
            match nudge_once(before, occlusions, viewport) {
                Some(moved) => after == moved,
                None => after == before,
            }
        }),
{
}

/// Passes that would go on for ever stop after the fourth.
pub proof fn law_endless_passes_stop_after_the_fourth(
    bounds: Rect,
    occlusions: Seq<Bounds>,
    viewport: Rect,
)
    requires
        !settles_clear(bounds, occlusions, viewport),
        !gets_stuck(bounds, occlusions, viewport),
    ensures
        nudged(bounds, occlusions, viewport) == after_passes(bounds, occlusions, viewport, 4),
{
}

} // verus!
