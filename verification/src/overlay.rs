//! Where the marks of an annotated frame go: the outlines of the regions, the
//! numbered labels, the seven-segment digits and the text tags placed beside
//! the regions without covering them.
//!
//! A frame is under `2^29` pixels on a side, which keeps every coordinate
//! computed here inside `i32`.
use vstd::prelude::*;

use crate::layout::{scaled, Roi, RoiTemplateSet};
use crate::recognition::SlotDebugInfo;
use crate::text::{copy_range, push_char, string_of, trim, trim_str};

verus! {

/// A rectangle of pixels: left and top edges, width and height.
#[derive(Debug, Clone, Copy, PartialEq, Eq)]
pub struct OverlayRect {
    pub left: i32,
    pub top: i32,
    pub width: u32,
    pub height: u32,
}

/// The rectangle with the given edges and size.
pub open spec fn rect_at(left: int, top: int, width: int, height: int) -> OverlayRect {
    OverlayRect { left: left as i32, top: top as i32, width: width as u32, height: height as u32 }
}

/// The last column inside the rectangle.
pub open spec fn right_edge(r: OverlayRect) -> int {
    r.left + r.width - 1
}

/// The last row inside the rectangle.
pub open spec fn bottom_edge(r: OverlayRect) -> int {
    r.top + r.height - 1
}

/// A rectangle that is not empty and whose far edges fit in `i32`.
pub open spec fn rect_fits(r: OverlayRect) -> bool {
    &&& 1 <= r.width <= i32::MAX
    &&& 1 <= r.height <= i32::MAX
    &&& r.left + r.width <= i32::MAX
    &&& r.top + r.height <= i32::MAX
}

/// A frame size that the overlay handles.
pub open spec fn frame_ok(width: u32, height: u32) -> bool {
    width < 0x2000_0000 && height < 0x2000_0000
}

/// Two rectangles share at least one pixel.
pub open spec fn overlap(a: OverlayRect, b: OverlayRect) -> bool {
    &&& a.left < b.left + b.width
    &&& a.left + a.width > b.left
    &&& a.top < b.top + b.height
    &&& a.top + a.height > b.top
}

/// Whether two rectangles share at least one pixel.
pub fn rects_overlap(a: OverlayRect, b: OverlayRect) -> (o: bool)
    requires
        rect_fits(a),
        rect_fits(b),
    ensures
        o == overlap(a, b),
{
    let ax2 = a.left + a.width as i32;
    let ay2 = a.top + a.height as i32;
    let bx2 = b.left + b.width as i32;
    let by2 = b.top + b.height as i32;
    a.left < bx2 && ax2 > b.left && a.top < by2 && ay2 > b.top
}

/// The pixel `(x, y)` lies inside the rectangle.
pub open spec fn inside(x: int, y: int, r: OverlayRect) -> bool {
    r.left <= x <= right_edge(r) && r.top <= y <= bottom_edge(r)
}

/// Whether the pixel lies inside the rectangle.
pub fn point_in_rect(point: (i32, i32), r: OverlayRect) -> (b: bool)
    requires
        rect_fits(r),
    ensures
        b == inside(point.0 as int, point.1 as int, r),
{
    let right = r.left + r.width as i32 - 1;
    let bottom = r.top + r.height as i32 - 1;
    point.0 >= r.left && point.0 <= right && point.1 >= r.top && point.1 <= bottom
}

/// The rectangle grown by `padding` on every side; it keeps at least one
/// pixel in each direction.
pub open spec fn expanded(r: OverlayRect, padding: int) -> OverlayRect {
    let w = r.width + 2 * padding;
    let h = r.height + 2 * padding;
    rect_at(
        r.left - padding,
        r.top - padding,
        if w >= 1 { w } else { 1 },
        if h >= 1 { h } else { 1 },
    )
}

/// Grows the rectangle by `padding` on every side.
pub fn expand_rect(r: OverlayRect, padding: i32) -> (e: OverlayRect)
    requires
        r.width <= i32::MAX,
        r.height <= i32::MAX,
        i32::MIN <= 2 * padding <= i32::MAX,
        i32::MIN <= r.width + 2 * padding <= i32::MAX,
        i32::MIN <= r.height + 2 * padding <= i32::MAX,
        i32::MIN <= r.left - padding <= i32::MAX,
        i32::MIN <= r.top - padding <= i32::MAX,
    ensures
        e == expanded(r, padding as int),
        e.left == r.left - padding,
        e.top == r.top - padding,
{
    let w = r.width as i32 + padding * 2;
    let h = r.height as i32 + padding * 2;
    let w1: i32 = if w >= 1 { w } else { 1 };
    let h1: i32 = if h >= 1 { h } else { 1 };
    OverlayRect { left: r.left - padding, top: r.top - padding, width: w1 as u32, height: h1 as u32 }
}

/// `size - taken`, or zero where `taken` is larger.
pub open spec fn room(size: int, taken: int) -> int {
    if size >= taken {
        size - taken
    } else {
        0
    }
}

/// `v` held between `lo` and `hi`.
pub open spec fn clamp_int(v: int, lo: int, hi: int) -> int {
    if v < lo {
        lo
    } else if v > hi {
        hi
    } else {
        v
    }
}

/// The rectangle moved, at unchanged size, to keep a margin of four pixels
/// to the frame's edges where the frame has room for it.
pub open spec fn clamped(frame_w: u32, frame_h: u32, r: OverlayRect) -> OverlayRect {
    let max_x = room(frame_w as int, r.width + 4);
    let max_y = room(frame_h as int, r.height + 4);
    rect_at(
        clamp_int(r.left as int, 4, if max_x >= 4 { max_x } else { 4 }),
        clamp_int(r.top as int, 4, if max_y >= 4 { max_y } else { 4 }),
        r.width as int,
        r.height as int,
    )
}

fn clamp_i32(v: i32, lo: i32, hi: i32) -> (c: i32)
    requires
        lo <= hi,
    ensures
        c == clamp_int(v as int, lo as int, hi as int),
{
    if v < lo {
        lo
    } else if v > hi {
        hi
    } else {
        v
    }
}

/// Moves the rectangle inside the frame, four pixels from its edges.
pub fn clamp_rect_to_image(frame_w: u32, frame_h: u32, r: OverlayRect) -> (c: OverlayRect)
    requires
        frame_ok(frame_w, frame_h),
        r.width + 4 <= u32::MAX,
        r.height + 4 <= u32::MAX,
    ensures
        c == clamped(frame_w, frame_h, r),
        4 <= c.left,
        4 <= c.top,
        c.left + c.width <= if frame_w >= r.width + 8 { frame_w as int - 4 } else { r.width + 4 },
        c.top + c.height <= if frame_h >= r.height + 8 { frame_h as int - 4 } else { r.height + 4 },
        c.width == r.width,
        c.height == r.height,
{
    let max_x: i32 = if frame_w >= r.width + 4 { (frame_w - (r.width + 4)) as i32 } else { 0 };
    let max_y: i32 = if frame_h >= r.height + 4 { (frame_h - (r.height + 4)) as i32 } else { 0 };
    let hi_x: i32 = if max_x >= 4 { max_x } else { 4 };
    let hi_y: i32 = if max_y >= 4 { max_y } else { 4 };
    let x = clamp_i32(r.left, 4, hi_x);
    let y = clamp_i32(r.top, 4, hi_y);
    OverlayRect { left: x, top: y, width: r.width, height: r.height }
}

/// Half of `d`, rounded toward zero.
pub open spec fn half_toward_zero(d: int) -> int {
    if d >= 0 {
        d / 2
    } else {
        -((-d) / 2)
    }
}

fn half_i32(d: i32) -> (h: i32)
    requires
        d > i32::MIN,
    ensures
        h == half_toward_zero(d as int),
{
    if d >= 0 {
        d / 2
    } else {
        let n: i32 = -d;
        -(n / 2)
    }
}

/// The centre pixel of the rectangle, halves rounded down.
pub open spec fn center_of(r: OverlayRect) -> (int, int) {
    (r.left + r.width / 2, r.top + r.height / 2)
}

/// The centre pixel of the rectangle.
pub fn rect_center(r: OverlayRect) -> (c: (i32, i32))
    requires
        rect_fits(r),
    ensures
        c.0 == center_of(r).0,
        c.1 == center_of(r).1,
{
    (r.left + (r.width / 2) as i32, r.top + (r.height / 2) as i32)
}

/// The distance between two coordinates.
pub open spec fn gap(a: int, b: int) -> int {
    if a >= b {
        a - b
    } else {
        b - a
    }
}

/// The point of the rectangle's border nearest to `(x, y)`: the edge that
/// is closest, earlier edges (left, right, top, bottom) winning ties, with
/// the other coordinate held inside the rectangle.
pub open spec fn nearest_on_border(r: OverlayRect, x: int, y: int) -> (int, int) {
    let left = r.left as int;
    let right = right_edge(r);
    let top = r.top as int;
    let bottom = bottom_edge(r);
    let cx = clamp_int(x, left, right);
    let cy = clamp_int(y, top, bottom);
    let dl = gap(x, left);
    let dr = gap(x, right);
    let dt = gap(y, top);
    let db = gap(y, bottom);
    if dl <= dr && dl <= dt && dl <= db {
        (left, cy)
    } else if dr <= dt && dr <= db {
        (right, cy)
    } else if dt <= db {
        (cx, top)
    } else {
        (cx, bottom)
    }
}

fn gap_i32(a: i32, b: i32) -> (g: i32)
    requires
        i32::MIN < a - b <= i32::MAX,
    ensures
        g == gap(a as int, b as int),
{
    if a >= b {
        a - b
    } else {
        b - a
    }
}

/// The point of the rectangle's border nearest to `(x, y)`.
pub fn nearest_point_on_rect(r: OverlayRect, x: i32, y: i32) -> (p: (i32, i32))
    requires
        rect_fits(r),
        i32::MIN < x - r.left <= i32::MAX,
        i32::MIN < x - right_edge(r) <= i32::MAX,
        i32::MIN < y - r.top <= i32::MAX,
        i32::MIN < y - bottom_edge(r) <= i32::MAX,
    ensures
        p.0 == nearest_on_border(r, x as int, y as int).0,
        p.1 == nearest_on_border(r, x as int, y as int).1,
{
    let left = r.left;
    let right = r.left + r.width as i32 - 1;
    let top = r.top;
    let bottom = r.top + r.height as i32 - 1;
    let cx = clamp_i32(x, left, right);
    let cy = clamp_i32(y, top, bottom);
    let dl = gap_i32(x, left);
    let dr = gap_i32(x, right);
    let dt = gap_i32(y, top);
    let db = gap_i32(y, bottom);
    if dl <= dr && dl <= dt && dl <= db {
        (left, cy)
    } else if dr <= dt && dr <= db {
        (right, cy)
    } else if dt <= db {
        (cx, top)
    } else {
        (cx, bottom)
    }
}

/// The pixel rectangle of a region in a frame of the given size: edges
/// rounded down, at least one pixel wide and high.
pub open spec fn region_rect(frame_w: u32, frame_h: u32, r: Roi) -> OverlayRect {
    let w = scaled(r.w, frame_w);
    let h = scaled(r.h, frame_h);
    rect_at(
        scaled(r.x, frame_w),
        scaled(r.y, frame_h),
        if w >= 1 { w } else { 1 },
        if h >= 1 { h } else { 1 },
    )
}

fn scale_down(frac: u32, size: u32) -> (v: u32)
    requires
        frac <= 10000,
    ensures
        v == scaled(frac, size),
        v <= size,
{
    assert(frac as u64 * size as u64 <= 10000 * 0xffff_ffffu64) by (nonlinear_arith)
        requires
            frac <= 10000,
            size <= 0xffff_ffffu32,
    ;
    let p: u64 = frac as u64 * size as u64;
    assert(p <= 10000 * size) by (nonlinear_arith)
        requires
            p == frac * size,
            frac <= 10000,
    ;
    assert(p / 10000 <= size) by (nonlinear_arith)
        requires
            p <= 10000 * size,
    ;
    (p / 10000) as u32
}

/// The pixel rectangle of a region in a frame of the given size.
pub fn roi_to_rect(frame_w: u32, frame_h: u32, r: Roi) -> (rect: OverlayRect)
    requires
        frame_ok(frame_w, frame_h),
        r.x <= 10000,
        r.y <= 10000,
        r.w <= 10000,
        r.h <= 10000,
    ensures
        rect == region_rect(frame_w, frame_h, r),
        rect_fits(rect),
        0 <= rect.left <= frame_w,
        0 <= rect.top <= frame_h,
        rect.width <= frame_w + 1,
        rect.height <= frame_h + 1,
{
    let x = scale_down(r.x, frame_w);
    let y = scale_down(r.y, frame_h);
    let w = scale_down(r.w, frame_w);
    let h = scale_down(r.h, frame_h);
    let w1: u32 = if w >= 1 { w } else { 1 };
    let h1: u32 = if h >= 1 { h } else { 1 };
    OverlayRect { left: x as i32, top: y as i32, width: w1, height: h1 }
}

/// Which side of its region a text tag prefers.
#[derive(Debug, Clone, Copy, PartialEq, Eq)]
pub enum TagAnchor {
    Above,
    Below,
}

/// `v - d`, held at `i32::MIN`.
pub open spec fn minus_saturating(v: int, d: int) -> int {
    if v - d >= i32::MIN {
        v - d
    } else {
        i32::MIN as int
    }
}

/// The larger of `v` and four.
pub open spec fn at_least_four(v: int) -> int {
    if v >= 4 {
        v
    } else {
        4
    }
}

/// The positions tried, in order, for a tag of the given width beside a
/// region: three along the preferred side (left-aligned, centred,
/// right-aligned), two along the other side, then one below the region at the
/// frame's left margin and one high up at the frame's right margin.
pub open spec fn tag_origins(frame_w: u32, roi: OverlayRect, width: u32, anchor: TagAnchor) -> Seq<(int, int)> {
    let left = at_least_four(roi.left as int);
    let right = at_least_four(right_edge(roi) - width + 1);
    let center = at_least_four(roi.left + half_toward_zero(roi.width - width));
    let above = minus_saturating(roi.top as int, 26);
    let below = bottom_edge(roi) + 6;
    let preferred = match anchor {
        TagAnchor::Above => seq![(left, above), (center, above), (right, above), (left, below), (right, below)],
        TagAnchor::Below => seq![(left, below), (center, below), (right, below), (left, above), (right, above)],
    };
    preferred + seq![
        (4int, bottom_edge(roi) + 28),
        (frame_w - width - 4, minus_saturating(roi.top as int, 48)),
    ]
}

/// The tag rectangles tried, in order: the positions moved inside the frame.
pub open spec fn tag_candidates(
    frame_w: u32,
    frame_h: u32,
    roi: OverlayRect,
    width: u32,
    height: u32,
    anchor: TagAnchor,
) -> Seq<OverlayRect> {
    tag_origins(frame_w, roi, width, anchor).map_values(
        |p: (int, int)| tag_candidate(frame_w, frame_h, p, width, height),
    )
}

/// The tag rectangle tried at position `p`: moved inside the frame.
#[verifier::opaque]
pub open spec fn tag_candidate(frame_w: u32, frame_h: u32, p: (int, int), width: u32, height: u32) -> OverlayRect {
    clamped(frame_w, frame_h, rect_at(p.0, p.1, width as int, height as int))
}

/// No rectangle of `taken` shares a pixel with `r`.
pub open spec fn free_of(r: OverlayRect, taken: Seq<OverlayRect>) -> bool {
    forall|i: int| 0 <= i < taken.len() ==> !overlap(#[trigger] taken[i], r)
}

/// The first candidate clear of both obstacle lists, or the fallback.
pub open spec fn first_free(
    cands: Seq<OverlayRect>,
    roi_taken: Seq<OverlayRect>,
    label_taken: Seq<OverlayRect>,
    fallback: OverlayRect,
) -> OverlayRect
    decreases cands.len(),
{
    if cands.len() == 0 {
        fallback
    } else if free_of(cands[0], roi_taken) && free_of(cands[0], label_taken) {
        cands[0]
    } else {
        first_free(cands.drop_first(), roi_taken, label_taken, fallback)
    }
}

/// Where a tag goes: the first tried rectangle that covers no region and no
/// earlier tag, else below the region at its left edge.
pub open spec fn tag_place(
    frame_w: u32,
    frame_h: u32,
    roi: OverlayRect,
    width: u32,
    height: u32,
    anchor: TagAnchor,
    roi_taken: Seq<OverlayRect>,
    label_taken: Seq<OverlayRect>,
) -> OverlayRect {
    first_free(
        tag_candidates(frame_w, frame_h, roi, width, height, anchor),
        roi_taken,
        label_taken,
        clamped(
            frame_w,
            frame_h,
            rect_at(at_least_four(roi.left as int), bottom_edge(roi) + 6, width as int, height as int),
        ),
    )
}

/// A placed tag is one of the tried rectangles and covers no region and no
/// earlier tag, unless every tried rectangle covers something; then it is the
/// spot below the region.
pub proof fn lemma_tag_clear_or_fallback(
    cands: Seq<OverlayRect>,
    roi_taken: Seq<OverlayRect>,
    label_taken: Seq<OverlayRect>,
    fallback: OverlayRect,
)
    ensures
        ({
            let t = first_free(cands, roi_taken, label_taken, fallback);
            ||| (cands.contains(t) && free_of(t, roi_taken) && free_of(t, label_taken))
            ||| (t == fallback && forall|i: int|
                0 <= i < cands.len() ==> !(free_of(#[trigger] cands[i], roi_taken) && free_of(
                    cands[i],
                    label_taken,
                )))
        }),
    decreases cands.len(),
{
    if cands.len() > 0 {
        let rest = cands.drop_first();
        lemma_tag_clear_or_fallback(rest, roi_taken, label_taken, fallback);
        if !(free_of(cands[0], roi_taken) && free_of(cands[0], label_taken)) {
            let t = first_free(rest, roi_taken, label_taken, fallback);
            if rest.contains(t) && free_of(t, roi_taken) && free_of(t, label_taken) {
                let j = choose|j: int| 0 <= j < rest.len() && rest[j] == t;
                assert(cands[j + 1] == t);
            } else {
                assert forall|i: int| 0 <= i < cands.len() implies !(free_of(
                    #[trigger] cands[i],
                    roi_taken,
                ) && free_of(cands[i], label_taken)) by {
                    if i > 0 {
                        assert(cands[i] == rest[i - 1]);
                    }
                }
            }
        } else {
            assert(cands[0] == cands[0]);
            assert(cands.contains(cands[0]));
        }
    }
}

/// The sizes and positions for which a tag can be placed beside a region
/// without leaving `i32`.
pub open spec fn tag_args_ok(frame_w: u32, frame_h: u32, roi: OverlayRect, width: u32, height: u32) -> bool {
    &&& frame_ok(frame_w, frame_h)
    &&& rect_fits(roi)
    &&& roi.top + roi.height + 27 <= i32::MAX
    &&& i32::MIN <= roi.left + roi.width - width
    &&& i32::MIN <= roi.left + half_toward_zero(roi.width - width)
    &&& 1 <= width && width + 4 <= i32::MAX
    &&& 1 <= height && height + 4 <= i32::MAX
}

/// A rectangle that fits and lies in a frame's margins.
pub open spec fn placed_ok(r: OverlayRect) -> bool {
    &&& rect_fits(r)
    &&& 4 <= r.left <= 0x2000_0000
    &&& 4 <= r.top <= 0x2000_0000
}

/// All rectangles of the list fit.
pub open spec fn all_fit(rs: Seq<OverlayRect>) -> bool {
    forall|i: int| 0 <= i < rs.len() ==> rect_fits(#[trigger] rs[i])
}

/// Whether no rectangle of `taken` shares a pixel with `r`.
pub fn rect_is_free(r: OverlayRect, taken: &Vec<OverlayRect>) -> (b: bool)
    requires
        rect_fits(r),
        all_fit(taken@),
    ensures
        b == free_of(r, taken@),
{
    let mut i: usize = 0;
    while i < taken.len()
        invariant
            i <= taken.len(),
            rect_fits(r),
            all_fit(taken@),
            forall|j: int| 0 <= j < i ==> !overlap(#[trigger] taken@[j], r),
        decreases taken.len() - i,
    {
        if rects_overlap(taken[i], r) {
            return false;
        }
        i += 1;
    }
    true
}

fn push_clamped(
    v: &mut Vec<OverlayRect>,
    frame_w: u32,
    frame_h: u32,
    x: i32,
    y: i32,
    width: u32,
    height: u32,
)
    requires
        frame_ok(frame_w, frame_h),
        1 <= width && width + 4 <= i32::MAX,
        1 <= height && height + 4 <= i32::MAX,
    ensures
        final(v)@ == old(v)@.push(tag_candidate(frame_w, frame_h, (x as int, y as int), width, height)),
        placed_ok(tag_candidate(frame_w, frame_h, (x as int, y as int), width, height)),
{
    let c = clamp_rect_to_image(frame_w, frame_h, OverlayRect { left: x, top: y, width, height });
    proof {
        reveal(tag_candidate);
    }
    v.push(c);
}

fn tag_candidate_rects(
    frame_w: u32,
    frame_h: u32,
    roi: OverlayRect,
    width: u32,
    height: u32,
    anchor: TagAnchor,
) -> (v: Vec<OverlayRect>)
    requires
        tag_args_ok(frame_w, frame_h, roi, width, height),
    ensures
        v@ == tag_candidates(frame_w, frame_h, roi, width, height, anchor),
        forall|i: int| 0 <= i < v@.len() ==> placed_ok(#[trigger] v@[i]),
{
    let left: i32 = if roi.left >= 4 { roi.left } else { 4 };
    let r0: i32 = roi.left + roi.width as i32 - width as i32;
    let right: i32 = if r0 >= 4 { r0 } else { 4 };
    let c0: i32 = roi.left + half_i32(roi.width as i32 - width as i32);
    let center: i32 = if c0 >= 4 { c0 } else { 4 };
    let above: i32 = if roi.top >= i32::MIN + 26 { roi.top - 26 } else { i32::MIN };
    let high: i32 = if roi.top >= i32::MIN + 48 { roi.top - 48 } else { i32::MIN };
    let bottom: i32 = roi.top + roi.height as i32 - 1;
    let below: i32 = bottom + 6;
    let far: i32 = frame_w as i32 - width as i32 - 4;
    let mut v: Vec<OverlayRect> = Vec::new();
    match anchor {
        TagAnchor::Above => {
            push_clamped(&mut v, frame_w, frame_h, left, above, width, height);
            push_clamped(&mut v, frame_w, frame_h, center, above, width, height);
            push_clamped(&mut v, frame_w, frame_h, right, above, width, height);
            push_clamped(&mut v, frame_w, frame_h, left, below, width, height);
            push_clamped(&mut v, frame_w, frame_h, right, below, width, height);
        },
        TagAnchor::Below => {
            push_clamped(&mut v, frame_w, frame_h, left, below, width, height);
            push_clamped(&mut v, frame_w, frame_h, center, below, width, height);
            push_clamped(&mut v, frame_w, frame_h, right, below, width, height);
            push_clamped(&mut v, frame_w, frame_h, left, above, width, height);
            push_clamped(&mut v, frame_w, frame_h, right, above, width, height);
        },
    }
    push_clamped(&mut v, frame_w, frame_h, 4, bottom + 28, width, height);
    push_clamped(&mut v, frame_w, frame_h, far, high, width, height);
    let ghost origins = tag_origins(frame_w, roi, width, anchor);
    assert(origins.len() == 7);
    assert(v@.len() == 7);
    assert forall|k: int| 0 <= k < 7 implies v@[k] == tag_candidate(frame_w, frame_h, #[trigger] origins[k], width, height) by {
        match anchor {
            TagAnchor::Above => {
                assert(origins[0] == (left as int, above as int));
                assert(origins[1] == (center as int, above as int));
                assert(origins[2] == (right as int, above as int));
                assert(origins[3] == (left as int, below as int));
                assert(origins[4] == (right as int, below as int));
            },
            TagAnchor::Below => {
                assert(origins[0] == (left as int, below as int));
                assert(origins[1] == (center as int, below as int));
                assert(origins[2] == (right as int, below as int));
                assert(origins[3] == (left as int, above as int));
                assert(origins[4] == (right as int, above as int));
            },
        }
        assert(origins[5] == (4int, (bottom + 28) as int));
        assert(origins[6] == (far as int, high as int));
    }
    assert(v@ =~= tag_candidates(frame_w, frame_h, roi, width, height, anchor));
    v
}

/// Finds where a tag of the given size goes beside a region: the first tried
/// rectangle that covers no region and no earlier tag.
pub fn find_text_tag_rect(
    frame_w: u32,
    frame_h: u32,
    roi: OverlayRect,
    width: u32,
    height: u32,
    anchor: TagAnchor,
    roi_taken: &Vec<OverlayRect>,
    label_taken: &Vec<OverlayRect>,
) -> (t: OverlayRect)
    requires
        tag_args_ok(frame_w, frame_h, roi, width, height),
        all_fit(roi_taken@),
        all_fit(label_taken@),
    ensures
        t == tag_place(frame_w, frame_h, roi, width, height, anchor, roi_taken@, label_taken@),
        placed_ok(t),
{
    let cands = tag_candidate_rects(frame_w, frame_h, roi, width, height, anchor);
    let left: i32 = if roi.left >= 4 { roi.left } else { 4 };
    let below: i32 = roi.top + roi.height as i32 + 5;
    let fallback = clamp_rect_to_image(
        frame_w,
        frame_h,
        OverlayRect { left, top: below, width, height },
    );
    assert(OverlayRect { left, top: below, width, height } == rect_at(
        at_least_four(roi.left as int),
        bottom_edge(roi) + 6,
        width as int,
        height as int,
    ));
    let ghost all = cands@;
    assert(all == tag_candidates(frame_w, frame_h, roi, width, height, anchor));
    let mut i: usize = 0;
    assert(all.subrange(0, all.len() as int) =~= all);
    while i < cands.len()
        invariant
            i <= cands.len(),
            all == cands@,
            all == tag_candidates(frame_w, frame_h, roi, width, height, anchor),
            fallback == clamped(
                frame_w,
                frame_h,
                rect_at(at_least_four(roi.left as int), bottom_edge(roi) + 6, width as int, height as int),
            ),
            forall|k: int| 0 <= k < all.len() ==> placed_ok(#[trigger] all[k]),
            placed_ok(fallback),
            all_fit(roi_taken@),
            all_fit(label_taken@),
            first_free(all.subrange(i as int, all.len() as int), roi_taken@, label_taken@, fallback)
                == first_free(all, roi_taken@, label_taken@, fallback),
        decreases cands.len() - i,
    {
        let c = cands[i];
        let ghost rest = all.subrange(i as int, all.len() as int);
        assert(rest[0] == c);
        let free_roi = rect_is_free(c, roi_taken);
        let free_label = rect_is_free(c, label_taken);
        if free_roi && free_label {
            assert(first_free(rest, roi_taken@, label_taken@, fallback) == c);
            return c;
        }
        assert(rest.drop_first() =~= all.subrange(i + 1, all.len() as int));
        i += 1;
    }
    assert(all.subrange(i as int, all.len() as int).len() == 0);
    fallback
}

/// A placed text tag: its box and where its text starts.
#[derive(Debug, Clone, Copy, PartialEq, Eq)]
pub struct TextTag {
    pub rect: OverlayRect,
    pub text_x: i32,
    pub text_y: i32,
}

/// The width of the tag of a text of `char_count` characters: fourteen
/// pixels a character plus fourteen, at most the frame's width less eight.
pub open spec fn tag_width_for(char_count: int, frame_w: u32) -> int {
    let n = if char_count >= 1 { char_count } else { 1 };
    let w = n * 14 + 14;
    let cap = room(frame_w as int, 8);
    if w <= cap {
        w
    } else {
        cap
    }
}

/// The height of a text tag.
pub open spec fn tag_height() -> u32 {
    22
}

/// Places the tag of a text of `char_count` characters beside a region,
/// clear of the regions and of the tags placed before, and records it among
/// the placed tags.
pub fn place_text_tag(
    frame_w: u32,
    frame_h: u32,
    roi: OverlayRect,
    char_count: usize,
    anchor: TagAnchor,
    roi_taken: &Vec<OverlayRect>,
    label_taken: &mut Vec<OverlayRect>,
) -> (t: TextTag)
    requires
        frame_w >= 9,
        char_count * 14 + 14 <= u32::MAX,
        tag_args_ok(frame_w, frame_h, roi, tag_width_for(char_count as int, frame_w) as u32, tag_height()),
        all_fit(roi_taken@),
        all_fit(old(label_taken)@),
    ensures
        t.rect == tag_place(
            frame_w,
            frame_h,
            roi,
            tag_width_for(char_count as int, frame_w) as u32,
            tag_height(),
            anchor,
            roi_taken@,
            old(label_taken)@,
        ),
        t.text_x == t.rect.left + 6,
        t.text_y == t.rect.top + 3,
        final(label_taken)@ == old(label_taken)@.push(t.rect),
        all_fit(final(label_taken)@),
{
    let n: u32 = if char_count >= 1 { char_count as u32 } else { 1 };
    let w0: u32 = n * 14 + 14;
    let cap: u32 = if frame_w >= 8 { frame_w - 8 } else { 0 };
    let width: u32 = if w0 <= cap { w0 } else { cap };
    let rect = find_text_tag_rect(frame_w, frame_h, roi, width, 22, anchor, roi_taken, label_taken);
    label_taken.push(rect);
    assert forall|i: int| 0 <= i < label_taken@.len() implies rect_fits(#[trigger] label_taken@[i]) by {
        if i < old(label_taken)@.len() {
            assert(label_taken@[i] == old(label_taken)@[i]);
        }
    }
    TextTag { rect, text_x: rect.left + 6, text_y: rect.top + 3 }
}

/// The eight bars that mark the corners of a region, two at each corner,
/// each six pixels long and two thick, hugging the outline from outside.
pub open spec fn corner_markers(r: OverlayRect) -> Seq<OverlayRect> {
    let l = r.left - 1;
    let t = r.top - 1;
    let rt = right_edge(r);
    let b = bottom_edge(r);
    seq![
        rect_at(l, t, 6, 2),
        rect_at(l, t, 2, 6),
        rect_at(rt - 5, t, 6, 2),
        rect_at(rt, t, 2, 6),
        rect_at(l, b - 1, 2, 6),
        rect_at(l, b + 1, 6, 2),
        rect_at(rt, b - 1, 2, 6),
        rect_at(rt - 5, b + 1, 6, 2),
    ]
}

/// The corner bars of a region.
pub fn corner_marker_rects(r: OverlayRect) -> (v: Vec<OverlayRect>)
    requires
        rect_fits(r),
        r.left > i32::MIN,
        r.top > i32::MIN,
        r.left + r.width - 6 >= i32::MIN,
    ensures
        v@ == corner_markers(r),
{
    let l = r.left - 1;
    let t = r.top - 1;
    let rt = r.left + r.width as i32 - 1;
    let b = r.top + r.height as i32 - 1;
    let mut v: Vec<OverlayRect> = Vec::new();
    v.push(OverlayRect { left: l, top: t, width: 6, height: 2 });
    v.push(OverlayRect { left: l, top: t, width: 2, height: 6 });
    v.push(OverlayRect { left: rt - 5, top: t, width: 6, height: 2 });
    v.push(OverlayRect { left: rt, top: t, width: 2, height: 6 });
    v.push(OverlayRect { left: l, top: b - 1, width: 2, height: 6 });
    v.push(OverlayRect { left: l, top: b + 1, width: 6, height: 2 });
    v.push(OverlayRect { left: rt, top: b - 1, width: 2, height: 6 });
    v.push(OverlayRect { left: rt - 5, top: b + 1, width: 6, height: 2 });
    assert(v@ =~= corner_markers(r));
    v
}

/// The second outline of an emphasised region, one pixel outside the first.
pub open spec fn outer_outline(r: OverlayRect) -> OverlayRect {
    rect_at(r.left - 1, r.top - 1, r.width + 2, r.height + 2)
}

/// The second outline of an emphasised region.
pub fn emphasis_outline(r: OverlayRect) -> (o: OverlayRect)
    requires
        r.left > i32::MIN,
        r.top > i32::MIN,
        r.width + 2 <= u32::MAX,
        r.height + 2 <= u32::MAX,
    ensures
        o == outer_outline(r),
{
    OverlayRect { left: r.left - 1, top: r.top - 1, width: r.width + 2, height: r.height + 2 }
}

/// The numbered box of a region: eighteen pixels square on the region's
/// top-left corner (held inside the frame's top), and the digit written in
/// it, the number's last decimal digit.
#[derive(Debug, Clone, Copy, PartialEq, Eq)]
pub struct LabelMark {
    pub rect: OverlayRect,
    pub digit: usize,
    pub digit_x: i32,
    pub digit_y: i32,
}

/// The label box of a region.
pub open spec fn label_box(r: OverlayRect) -> OverlayRect {
    rect_at(r.left as int, if r.top - 18 >= 0 { r.top - 18 } else { 0 }, 18, 18)
}

/// The numbered box of a region.
pub fn region_label(r: OverlayRect, label: usize) -> (m: LabelMark)
    requires
        r.top - 18 >= i32::MIN,
        r.left + 4 <= i32::MAX,
    ensures
        m.rect == label_box(r),
        m.digit == label % 10,
        m.digit_x == r.left + 4,
        m.digit_y == m.rect.top + 3,
{
    let top: i32 = if r.top - 18 >= 0 { r.top - 18 } else { 0 };
    let rect = OverlayRect { left: r.left, top, width: 18, height: 18 };
    LabelMark { rect, digit: label % 10, digit_x: r.left + 4, digit_y: top + 3 }
}

/// Which of the seven segments show a digit: top, upper right, lower
/// right, bottom, lower left, upper left, middle. Other numbers show none.
pub open spec fn digit_pattern(digit: int) -> Seq<bool> {
    if digit == 0 {
        seq![true, true, true, true, true, true, false]
    } else if digit == 1 {
        seq![false, true, true, false, false, false, false]
    } else if digit == 2 {
        seq![true, true, false, true, true, false, true]
    } else if digit == 3 {
        seq![true, true, true, true, false, false, true]
    } else if digit == 4 {
        seq![false, true, true, false, false, true, true]
    } else if digit == 5 {
        seq![true, false, true, true, false, true, true]
    } else if digit == 6 {
        seq![true, false, true, true, true, true, true]
    } else if digit == 7 {
        seq![true, true, true, false, false, false, false]
    } else if digit == 8 {
        seq![true, true, true, true, true, true, true]
    } else if digit == 9 {
        seq![true, true, true, true, false, true, true]
    } else {
        seq![false, false, false, false, false, false, false]
    }
}

/// Segment `k` of a digit drawn with its top-left corner at `(x, y)`.
pub open spec fn segment_rect(x: int, y: int, k: int) -> OverlayRect {
    if k == 0 {
        rect_at(x + 1, y, 6, 2)
    } else if k == 1 {
        rect_at(x + 8, y + 1, 2, 4)
    } else if k == 2 {
        rect_at(x + 8, y + 6, 2, 4)
    } else if k == 3 {
        rect_at(x + 1, y + 10, 6, 2)
    } else if k == 4 {
        rect_at(x, y + 6, 2, 4)
    } else if k == 5 {
        rect_at(x, y + 1, 2, 4)
    } else {
        rect_at(x + 1, y + 5, 6, 2)
    }
}

/// The lit segments among the first `k`, in segment order.
pub open spec fn lit_segments(x: int, y: int, digit: int, k: nat) -> Seq<OverlayRect>
    decreases k,
{
    if k == 0 {
        Seq::empty()
    } else {
        let prev = lit_segments(x, y, digit, (k - 1) as nat);
        if digit_pattern(digit)[k - 1] {
            prev.push(segment_rect(x, y, k - 1))
        } else {
            prev
        }
    }
}

fn segments_of(digit: usize) -> (p: [bool; 7])
    ensures
        p@ == digit_pattern(digit as int),
{
    let p = match digit {
        0 => [true, true, true, true, true, true, false],
        1 => [false, true, true, false, false, false, false],
        2 => [true, true, false, true, true, false, true],
        3 => [true, true, true, true, false, false, true],
        4 => [false, true, true, false, false, true, true],
        5 => [true, false, true, true, false, true, true],
        6 => [true, false, true, true, true, true, true],
        7 => [true, true, true, false, false, false, false],
        8 => [true, true, true, true, true, true, true],
        9 => [true, true, true, true, false, true, true],
        _ => [false, false, false, false, false, false, false],
    };
    assert(p@ =~= digit_pattern(digit as int));
    p
}

fn segment_at(x: i32, y: i32, k: usize) -> (r: OverlayRect)
    requires
        x + 10 <= i32::MAX,
        y + 12 <= i32::MAX,
        k < 7,
    ensures
        r == segment_rect(x as int, y as int, k as int),
{
    if k == 0 {
        OverlayRect { left: x + 1, top: y, width: 6, height: 2 }
    } else if k == 1 {
        OverlayRect { left: x + 8, top: y + 1, width: 2, height: 4 }
    } else if k == 2 {
        OverlayRect { left: x + 8, top: y + 6, width: 2, height: 4 }
    } else if k == 3 {
        OverlayRect { left: x + 1, top: y + 10, width: 6, height: 2 }
    } else if k == 4 {
        OverlayRect { left: x, top: y + 6, width: 2, height: 4 }
    } else if k == 5 {
        OverlayRect { left: x, top: y + 1, width: 2, height: 4 }
    } else {
        OverlayRect { left: x + 1, top: y + 5, width: 6, height: 2 }
    }
}

/// The filled bars of a seven-segment digit drawn at `(x, y)`.
pub fn digit_segment_rects(x: i32, y: i32, digit: usize) -> (v: Vec<OverlayRect>)
    requires
        x + 10 <= i32::MAX,
        y + 12 <= i32::MAX,
    ensures
        v@ == lit_segments(x as int, y as int, digit as int, 7),
{
    let pattern = segments_of(digit);
    let mut v: Vec<OverlayRect> = Vec::new();
    let mut k: usize = 0;
    while k < 7
        invariant
            k <= 7,
            x + 10 <= i32::MAX,
            y + 12 <= i32::MAX,
            pattern@ == digit_pattern(digit as int),
            v@ == lit_segments(x as int, y as int, digit as int, k as nat),
        decreases 7 - k,
    {
        if pattern[k] {
            v.push(segment_at(x, y, k));
        }
        k += 1;
    }
    v
}

/// The price reading shown in a tag: its first four characters once
/// trimmed, or `-` where nothing is left.
pub open spec fn short_price(text: Seq<char>) -> Seq<char> {
    let t = trim(text);
    if t.len() == 0 {
        seq!['-']
    } else if t.len() <= 4 {
        t
    } else {
        t.take(4)
    }
}

/// The name reading shown in a tag: its first six characters once trimmed,
/// followed by `…` where there were more, or `-` where nothing is left.
pub open spec fn short_name(text: Seq<char>) -> Seq<char> {
    let t = trim(text);
    if t.len() == 0 {
        seq!['-']
    } else if t.len() <= 6 {
        t
    } else {
        t.take(6).push('…')
    }
}

fn dash() -> (s: String)
    ensures
        s@ == seq!['-'],
{
    let mut s = String::new();
    push_char(&mut s, '-');
    s
}

/// The price reading as shown in a tag.
pub fn short_price_text(text: &str) -> (s: String)
    ensures
        s@ == short_price(text@),
{
    let t = trim_str(text);
    if t.len() == 0 {
        dash()
    } else {
        let n: usize = if t.len() <= 4 { t.len() } else { 4 };
        let head = copy_range(&t, 0, n);
        assert(t@.len() <= 4 ==> t@.subrange(0, n as int) =~= t@);
        string_of(&head)
    }
}

/// The name reading as shown in a tag.
pub fn short_name_text(text: &str) -> (s: String)
    ensures
        s@ == short_name(text@),
{
    let t = trim_str(text);
    if t.len() == 0 {
        dash()
    } else {
        let n: usize = if t.len() <= 6 { t.len() } else { 6 };
        let head = copy_range(&t, 0, n);
        assert(t@.len() <= 6 ==> t@.subrange(0, n as int) =~= t@);
        let mut s = string_of(&head);
        if t.len() > 6 {
            push_char(&mut s, '…');
        }
        s
    }
}

/// Every measure of the region is at most the whole frame.
pub open spec fn roi_bounded(r: Roi) -> bool {
    r.x <= 10000 && r.y <= 10000 && r.w <= 10000 && r.h <= 10000
}

/// Every region of the set is bounded.
pub open spec fn rois_bounded(rois: RoiTemplateSet) -> bool {
    &&& roi_bounded(rois.remaining_funds_roi)
    &&& forall|i: int| 0 <= i < 6 ==> roi_bounded(#[trigger] rois.price_rois@[i])
    &&& forall|i: int| 0 <= i < 6 ==> roi_bounded(#[trigger] rois.name_rois@[i])
}

/// The area kept free of tags around a region: its rectangle grown by four.
pub open spec fn region_obstacle(frame_w: u32, frame_h: u32, r: Roi) -> OverlayRect {
    expanded(region_rect(frame_w, frame_h, r), 4)
}

/// The areas kept free of tags: around the funds region, then the six price
/// regions, then the six name regions.
pub open spec fn region_obstacles(frame_w: u32, frame_h: u32, rois: RoiTemplateSet) -> Seq<OverlayRect> {
    seq![region_obstacle(frame_w, frame_h, rois.remaining_funds_roi)] + rois.price_rois@.map_values(
        |r: Roi| region_obstacle(frame_w, frame_h, r),
    ) + rois.name_rois@.map_values(|r: Roi| region_obstacle(frame_w, frame_h, r))
}

fn obstacle_of(frame_w: u32, frame_h: u32, r: Roi) -> (o: OverlayRect)
    requires
        frame_ok(frame_w, frame_h),
        roi_bounded(r),
    ensures
        o == region_obstacle(frame_w, frame_h, r),
        rect_fits(o),
{
    let rect = roi_to_rect(frame_w, frame_h, r);
    expand_rect(rect, 4)
}

/// The areas around the shop's regions that tags must not cover.
pub fn collect_roi_obstacles(frame_w: u32, frame_h: u32, rois: RoiTemplateSet) -> (v: Vec<OverlayRect>)
    requires
        frame_ok(frame_w, frame_h),
        rois_bounded(rois),
    ensures
        v@ == region_obstacles(frame_w, frame_h, rois),
        all_fit(v@),
{
    let mut v: Vec<OverlayRect> = Vec::new();
    v.push(obstacle_of(frame_w, frame_h, rois.remaining_funds_roi));
    let mut i: usize = 0;
    while i < 6
        invariant
            i <= 6,
            frame_ok(frame_w, frame_h),
            rois_bounded(rois),
            all_fit(v@),
            v@ =~= seq![region_obstacle(frame_w, frame_h, rois.remaining_funds_roi)]
                + rois.price_rois@.take(i as int).map_values(|r: Roi| region_obstacle(frame_w, frame_h, r)),
        decreases 6 - i,
    {
        let o = obstacle_of(frame_w, frame_h, rois.price_rois[i]);
        v.push(o);
        assert(rois.price_rois@.take(i + 1) =~= rois.price_rois@.take(i as int).push(rois.price_rois@[i as int]));
        i += 1;
    }
    assert(rois.price_rois@.take(6) =~= rois.price_rois@);
    let mut j: usize = 0;
    while j < 6
        invariant
            j <= 6,
            frame_ok(frame_w, frame_h),
            rois_bounded(rois),
            all_fit(v@),
            v@ =~= seq![region_obstacle(frame_w, frame_h, rois.remaining_funds_roi)]
                + rois.price_rois@.map_values(|r: Roi| region_obstacle(frame_w, frame_h, r))
                + rois.name_rois@.take(j as int).map_values(|r: Roi| region_obstacle(frame_w, frame_h, r)),
        decreases 6 - j,
    {
        let o = obstacle_of(frame_w, frame_h, rois.name_rois[j]);
        v.push(o);
        assert(rois.name_rois@.take(j + 1) =~= rois.name_rois@.take(j as int).push(rois.name_rois@[j as int]));
        j += 1;
    }
    assert(rois.name_rois@.take(6) =~= rois.name_rois@);
    v
}

/// The region index of a slot: slot 1 is index 0; slot 0 counts as slot 1.
pub open spec fn slot_region(s: SlotDebugInfo) -> int {
    if s.slot >= 1 {
        s.slot - 1
    } else {
        0
    }
}

/// The marks of the slots whose reading is (or is not) recognised, in the
/// order of the slots: the slot's position in the list, its region index and
/// whether it is emphasised. Slots past the sixth have no region and no mark.
pub open spec fn slot_marks_of(slots: Seq<SlotDebugInfo>, recognized: bool) -> Seq<(usize, usize, bool)>
    decreases slots.len(),
{
    if slots.len() == 0 {
        Seq::empty()
    } else {
        let prev = slot_marks_of(slots.drop_last(), recognized);
        let s = slots.last();
        if s.recognized == recognized && slot_region(s) < 6 {
            prev.push(((slots.len() - 1) as usize, slot_region(s) as usize, recognized))
        } else {
            prev
        }
    }
}

/// The regions marked on a frame of recognised slots: the unrecognised
/// slots first, muted, then the recognised ones, emphasised.
pub fn slot_marks(slots: &Vec<SlotDebugInfo>) -> (v: Vec<(usize, usize, bool)>)
    ensures
        v@ == slot_marks_of(slots@, false) + slot_marks_of(slots@, true),
{
    let mut v: Vec<(usize, usize, bool)> = Vec::new();
    let mut pass: usize = 0;
    while pass < 2
        invariant
            pass <= 2,
            pass == 0 ==> v@ == Seq::<(usize, usize, bool)>::empty(),
            pass == 1 ==> v@ == slot_marks_of(slots@, false),
            pass == 2 ==> v@ == slot_marks_of(slots@, false) + slot_marks_of(slots@, true),
        decreases 2 - pass,
    {
        let want = pass == 1;
        let ghost start = v@;
        let mut i: usize = 0;
        while i < slots.len()
            invariant
                i <= slots.len(),
                v@ == start + slot_marks_of(slots@.take(i as int), want),
            decreases slots.len() - i,
        {
            let s = &slots[i];
            let index: usize = if s.slot >= 1 { s.slot - 1 } else { 0 };
            assert(slots@.take(i + 1).drop_last() =~= slots@.take(i as int));
            if s.recognized == want && index < 6 {
                v.push((i, index, want));
            }
            i += 1;
        }
        assert(slots@.take(slots.len() as int) =~= slots@);
        assert(Seq::<(usize, usize, bool)>::empty() + slot_marks_of(slots@, want) =~= slot_marks_of(
            slots@,
            want,
        ));
        pass += 1;
    }
    v
}

} // verus!
