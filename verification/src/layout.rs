//! Screen regions of the shop, relative to the game frame.
//!
//! A region is given in ten-thousandths of the frame's width and height: the
//! regions are measured to four decimal places, so these integers hold them
//! exactly.
use vstd::prelude::*;

use crate::config::UiScale;

verus! {

/// A region of the frame: left edge, top edge, width and height, each in
/// ten-thousandths of the frame's size.
#[derive(Debug, Clone, Copy, PartialEq, Eq)]
pub struct Roi {
    pub x: u32,
    pub y: u32,
    pub w: u32,
    pub h: u32,
}

/// The regions read in the shop.
#[derive(Debug, Clone, Copy)]
pub struct RoiTemplateSet {
    pub remaining_funds_roi: Roi,
    pub price_rois: [Roi; 6],
    pub name_rois: [Roi; 6],
    pub max_card_roi: Roi,
    pub hand_area_roi: Roi,
    pub shop_display_roi: Roi,
}

/// A region built from its four measures.
pub open spec fn roi_of(x: u32, y: u32, w: u32, h: u32) -> Roi {
    Roi { x, y, w, h }
}

fn roi(x: u32, y: u32, w: u32, h: u32) -> (r: Roi)
    ensures
        r == roi_of(x, y, w, h),
{
    Roi { x, y, w, h }
}

/// The price regions of the six shop slots, slot 1 first.
pub open spec fn price_regions(scale: UiScale) -> Seq<Roi> {
    match scale {
        UiScale::Scale90 => seq![
            roi_of(8141, 7704, 100, 232),
            roi_of(6990, 7704, 100, 232),
            roi_of(5839, 7704, 100, 232),
            roi_of(4688, 7704, 100, 232),
            roi_of(3537, 7704, 100, 232),
            roi_of(2386, 7704, 100, 232),
        ],
        UiScale::Scale100 => seq![
            roi_of(7927, 7444, 120, 269),
            roi_of(6650, 7444, 120, 269),
            roi_of(5373, 7444, 120, 269),
            roi_of(4095, 7444, 120, 269),
            roi_of(2818, 7444, 120, 269),
            roi_of(1541, 7444, 120, 269),
        ],
    }
}

/// The name regions of the six shop slots, slot 1 first.
pub open spec fn name_regions(scale: UiScale) -> Seq<Roi> {
    match scale {
        UiScale::Scale90 => seq![
            roi_of(7807, 9556, 818, 250),
            roi_of(6656, 9556, 818, 250),
            roi_of(5505, 9556, 818, 250),
            roi_of(4354, 9556, 818, 250),
            roi_of(3203, 9556, 818, 250),
            roi_of(2052, 9556, 818, 250),
        ],
        UiScale::Scale100 => seq![
            roi_of(7568, 9500, 896, 296),
            roi_of(6289, 9500, 896, 296),
            roi_of(5010, 9500, 896, 296),
            roi_of(3730, 9500, 896, 296),
            roi_of(2451, 9500, 896, 296),
            roi_of(1172, 9500, 896, 296),
        ],
    }
}

/// The remaining-funds region.
pub open spec fn funds_region(scale: UiScale) -> Roi {
    match scale {
        UiScale::Scale90 => roi_of(9381, 7481, 240, 342),
        UiScale::Scale100 => roi_of(9313, 7204, 266, 370),
    }
}

/// The region whose colour tells that the hand is full.
pub open spec fn max_card_region(scale: UiScale) -> Roi {
    match scale {
        UiScale::Scale90 => roi_of(3625, 7037, 2740, 435),
        UiScale::Scale100 => roi_of(3460, 6687, 3073, 514),
    }
}

/// The region of the cards in hand.
pub open spec fn hand_area_region(scale: UiScale) -> Roi {
    match scale {
        UiScale::Scale90 => roi_of(1234, 5907, 6599, 1102),
        UiScale::Scale100 => roi_of(1240, 5824, 6594, 889),
    }
}

/// The region of the shop display.
pub open spec fn shop_display_region(scale: UiScale) -> Roi {
    match scale {
        UiScale::Scale90 => roi_of(1901, 7685, 6844, 2204),
        UiScale::Scale100 => roi_of(995, 7435, 7599, 2444),
    }
}

/// The regions of a scale.
pub fn roi_set(scale: UiScale) -> (set: RoiTemplateSet)
    ensures
        set.price_rois@ == price_regions(scale),
        set.name_rois@ == name_regions(scale),
        set.remaining_funds_roi == funds_region(scale),
        set.max_card_roi == max_card_region(scale),
        set.hand_area_roi == hand_area_region(scale),
        set.shop_display_roi == shop_display_region(scale),
{
    match scale {
        UiScale::Scale90 => {
            let set = RoiTemplateSet {
                remaining_funds_roi: roi(9381, 7481, 240, 342),
                price_rois: [
                    roi(8141, 7704, 100, 232),
                    roi(6990, 7704, 100, 232),
                    roi(5839, 7704, 100, 232),
                    roi(4688, 7704, 100, 232),
                    roi(3537, 7704, 100, 232),
                    roi(2386, 7704, 100, 232),
                ],
                name_rois: [
                    roi(7807, 9556, 818, 250),
                    roi(6656, 9556, 818, 250),
                    roi(5505, 9556, 818, 250),
                    roi(4354, 9556, 818, 250),
                    roi(3203, 9556, 818, 250),
                    roi(2052, 9556, 818, 250),
                ],
                max_card_roi: roi(3625, 7037, 2740, 435),
                hand_area_roi: roi(1234, 5907, 6599, 1102),
                shop_display_roi: roi(1901, 7685, 6844, 2204),
            };
            assert(set.price_rois@ =~= price_regions(scale));
            assert(set.name_rois@ =~= name_regions(scale));
            set
        },
        UiScale::Scale100 => {
            let set = RoiTemplateSet {
                remaining_funds_roi: roi(9313, 7204, 266, 370),
                price_rois: [
                    roi(7927, 7444, 120, 269),
                    roi(6650, 7444, 120, 269),
                    roi(5373, 7444, 120, 269),
                    roi(4095, 7444, 120, 269),
                    roi(2818, 7444, 120, 269),
                    roi(1541, 7444, 120, 269),
                ],
                name_rois: [
                    roi(7568, 9500, 896, 296),
                    roi(6289, 9500, 896, 296),
                    roi(5010, 9500, 896, 296),
                    roi(3730, 9500, 896, 296),
                    roi(2451, 9500, 896, 296),
                    roi(1172, 9500, 896, 296),
                ],
                max_card_roi: roi(3460, 6687, 3073, 514),
                hand_area_roi: roi(1240, 5824, 6594, 889),
                shop_display_roi: roi(995, 7435, 7599, 2444),
            };
            assert(set.price_rois@ =~= price_regions(scale));
            assert(set.name_rois@ =~= name_regions(scale));
            set
        },
    }
}

/// Twice the horizontal centre of a region.
pub open spec fn center_x2(r: Roi) -> int {
    2 * r.x + r.w
}

/// Twice the vertical centre of a region.
pub open spec fn center_y2(r: Roi) -> int {
    2 * r.y + r.h
}

/// Whether region `j` comes before region `i` when the regions are ordered
/// left to right by centre, then top to bottom, then by index.
pub open spec fn center_before(rois: Seq<Roi>, j: int, i: int) -> bool {
    let (xj, xi) = (center_x2(rois[j]), center_x2(rois[i]));
    let (yj, yi) = (center_y2(rois[j]), center_y2(rois[i]));
    xj < xi || (xj == xi && (yj < yi || (yj == yi && j < i)))
}

/// The number of regions among the first `n` that come before region `i`.
pub open spec fn count_before(rois: Seq<Roi>, i: int, n: int) -> int
    decreases n,
{
    if n <= 0 {
        0
    } else {
        count_before(rois, i, n - 1) + if center_before(rois, n - 1, i) {
            1int
        } else {
            0int
        }
    }
}

/// The left-to-right region index of a shop slot: its position when the six
/// slots are ordered by the centres of their price regions. Slots outside
/// 1 to 6 have none.
pub open spec fn shop_region_index(slot: usize, scale: UiScale) -> Option<usize> {
    if 1 <= slot <= 6 {
        Some(count_before(price_regions(scale), slot - 1, 6) as usize)
    } else {
        None
    }
}

/// The left-to-right region index of a shop slot.
pub fn shop_region_index_from_slot(slot: usize, scale: UiScale) -> (r: Option<usize>)
    ensures
        r == shop_region_index(slot, scale),
{
    if slot < 1 || slot > 6 {
        return None;
    }
    let rois = roi_set(scale);
    let ghost regions = price_regions(scale);
    let i = slot - 1;
    let me = rois.price_rois[i];
    let mx = 2 * (me.x as u64) + me.w as u64;
    let my = 2 * (me.y as u64) + me.h as u64;
    let mut count: usize = 0;
    let mut j: usize = 0;
    while j < 6
        invariant
            j <= 6,
            i < 6,
            rois.price_rois@ == regions,
            regions.len() == 6,
            me == regions[i as int],
            mx == center_x2(me),
            my == center_y2(me),
            count as int == count_before(regions, i as int, j as int),
            count <= j,
        decreases 6 - j,
    {
        let other = rois.price_rois[j];
        let ox = 2 * (other.x as u64) + other.w as u64;
        let oy = 2 * (other.y as u64) + other.h as u64;
        assert(other == regions[j as int]);
        if ox < mx || (ox == mx && (oy < my || (oy == my && j < i))) {
            count = count + 1;
        }
        j = j + 1;
    }
    Some(count)
}

proof fn lemma_count_before_descending(rois: Seq<Roi>, i: int, n: int)
    requires
        0 <= i < 6,
        0 <= n <= 6,
        rois.len() == 6,
        forall|a: int, b: int| 0 <= a < b < 6 ==> center_x2(#[trigger] rois[b]) < center_x2(#[trigger] rois[a]),
    ensures
        count_before(rois, i, n) == if n <= i + 1 { 0 } else { n - i - 1 },
    decreases n,
{
    if n > 0 {
        lemma_count_before_descending(rois, i, n - 1);
        if n - 1 < i {
            assert(center_x2(rois[i]) < center_x2(rois[n - 1]));
        } else if n - 1 > i {
            assert(center_x2(rois[n - 1]) < center_x2(rois[i]));
        }
    }
}

/// Under each UI scale the six price regions lie strictly from right to
/// left, slot 1 rightmost, on one row and of one size; each slot's name
/// region lies below its price region and spans it; so the left-to-right
/// region index of slot `s` is `6 - s` for every slot from 1 to 6, and no
/// other slot has one.
pub proof fn lemma_slots_run_right_to_left(scale: UiScale)
    ensures
        price_regions(scale).len() == 6,
        forall|a: int, b: int|
            0 <= a < b < 6 ==> {
                let (ra, rb) = (#[trigger] price_regions(scale)[a], #[trigger] price_regions(scale)[b]);
                &&& rb.x < ra.x
                &&& rb.y == ra.y
                &&& rb.w == ra.w
                &&& rb.h == ra.h
            },
        name_regions(scale).len() == 6,
        forall|k: int|
            0 <= k < 6 ==> {
                let (p, n) = (#[trigger] price_regions(scale)[k], name_regions(scale)[k]);
                &&& n.x <= p.x
                &&& p.x + p.w <= n.x + n.w
                &&& p.y < n.y
            },
        forall|a: int, b: int|
            0 <= a < b < 6 ==> (#[trigger] name_regions(scale)[b]).x < (#[trigger] name_regions(scale)[a]).x,
        forall|s: usize| 1 <= s <= 6 ==> #[trigger] shop_region_index(s, scale) == Some((6 - s) as usize),
        forall|s: usize| (s < 1 || s > 6) ==> #[trigger] shop_region_index(s, scale) is None,
{
    let rois = price_regions(scale);
    assert forall|a: int, b: int| 0 <= a < b < 6 implies center_x2(#[trigger] rois[b]) < center_x2(#[trigger] rois[a]) by {
    }
    assert forall|s: usize| 1 <= s <= 6 implies #[trigger] shop_region_index(s, scale) == Some((6 - s) as usize) by {
        lemma_count_before_descending(rois, s - 1, 6);
    }
}

/// A rectangle of whole pixels.
#[derive(Debug, Clone, Copy, PartialEq, Eq)]
pub struct PixelRect {
    pub x: u32,
    pub y: u32,
    pub width: u32,
    pub height: u32,
}

/// `frac` ten-thousandths of `size`, rounded down.
pub open spec fn scaled(frac: u32, size: u32) -> int {
    (frac as int * size as int) / 10000
}

fn scaled_exec(frac: u32, size: u32) -> (r: u64)
    ensures
        r as int == scaled(frac, size),
        r as int <= frac as int * size as int,
{
    assert(frac as int * size as int <= 0xffff_ffff * 0xffff_ffff) by (nonlinear_arith)
        requires
            0 <= frac as int <= 0xffff_ffff,
            0 <= size as int <= 0xffff_ffff,
    ;
    assert(frac as int * size as int >= 0) by (nonlinear_arith)
        requires
            0 <= frac as int,
            0 <= size as int,
    ;
    let p = (frac as u64) * (size as u64);
    p / 10000
}

/// The pixels of a region in a `width` by `height` frame, as they are cut
/// out: the left and top edges rounded down; width and height rounded down
/// but at least one pixel, then cut at the frame's right and bottom edges.
pub open spec fn crop_rect_spec(width: u32, height: u32, r: Roi) -> PixelRect {
    let x = scaled(r.x, width);
    let y = scaled(r.y, height);
    let w = if scaled(r.w, width) >= 1 {
        scaled(r.w, width)
    } else {
        1
    };
    let h = if scaled(r.h, height) >= 1 {
        scaled(r.h, height)
    } else {
        1
    };
    let room_w = if width >= x {
        width - x
    } else {
        0
    };
    let room_h = if height >= y {
        height - y
    } else {
        0
    };
    PixelRect {
        x: x as u32,
        y: y as u32,
        width: (if w <= room_w {
            w
        } else {
            room_w
        }) as u32,
        height: (if h <= room_h {
            h
        } else {
            room_h
        }) as u32,
    }
}

/// The pixel rectangle of a region in a frame of the given size.
pub fn crop_rect(width: u32, height: u32, r: Roi) -> (rect: PixelRect)
    requires
        r.x <= 10000,
        r.y <= 10000,
        r.w <= 10000,
        r.h <= 10000,
    ensures
        rect == crop_rect_spec(width, height, r),
{
    let x = scaled_exec(r.x, width);
    let y = scaled_exec(r.y, height);
    assert(x <= width as int) by (nonlinear_arith)
        requires
            x as int == (r.x as int * width as int) / 10000,
            r.x <= 10000,
    ;
    assert(y <= height as int) by (nonlinear_arith)
        requires
            y as int == (r.y as int * height as int) / 10000,
            r.y <= 10000,
    ;
    let sw = scaled_exec(r.w, width);
    let sh = scaled_exec(r.h, height);
    assert(sw <= width as int) by (nonlinear_arith)
        requires
            sw as int == (r.w as int * width as int) / 10000,
            r.w <= 10000,
    ;
    assert(sh <= height as int) by (nonlinear_arith)
        requires
            sh as int == (r.h as int * height as int) / 10000,
            r.h <= 10000,
    ;
    let w = if sw >= 1 {
        sw
    } else {
        1
    };
    let h = if sh >= 1 {
        sh
    } else {
        1
    };
    let room_w = (width as u64) - x;
    let room_h = (height as u64) - y;
    let cw = if w <= room_w {
        w
    } else {
        room_w
    };
    let ch = if h <= room_h {
        h
    } else {
        room_h
    };
    PixelRect { x: x as u32, y: y as u32, width: cw as u32, height: ch as u32 }
}

/// The pixel at the centre of a region, rounded down.
pub open spec fn roi_center_spec(width: u32, height: u32, r: Roi) -> (int, int) {
    (
        ((2 * r.x as int + r.w as int) * width as int) / 20000,
        ((2 * r.y as int + r.h as int) * height as int) / 20000,
    )
}

/// The pixel at the centre of a region of a frame of the given size.
pub fn center_of_roi(width: u32, height: u32, r: Roi) -> (c: (i32, i32))
    requires
        r.x as int + r.w as int <= 10000,
        r.y as int + r.h as int <= 10000,
        width <= i32::MAX,
        height <= i32::MAX,
    ensures
        c.0 as int == roi_center_spec(width, height, r).0,
        c.1 as int == roi_center_spec(width, height, r).1,
{
    let sx = 2 * (r.x as u64) + r.w as u64;
    let sy = 2 * (r.y as u64) + r.h as u64;
    assert(sx as int * width as int <= 20000 * 0x7fff_ffff) by (nonlinear_arith)
        requires
            0 <= sx as int <= 20000,
            0 <= width as int <= 0x7fff_ffff,
    ;
    assert(sy as int * height as int <= 20000 * 0x7fff_ffff) by (nonlinear_arith)
        requires
            0 <= sy as int <= 20000,
            0 <= height as int <= 0x7fff_ffff,
    ;
    let px = sx * (width as u64) / 20000;
    let py = sy * (height as u64) / 20000;
    assert(px <= width as int) by (nonlinear_arith)
        requires
            px as int == (sx as int * width as int) / 20000,
            sx <= 20000,
    ;
    assert(py <= height as int) by (nonlinear_arith)
        requires
            py as int == (sy as int * height as int) / 20000,
            sy <= 20000,
    ;
    (px as i32, py as i32)
}

} // verus!
