use maa_auto_reverse_rs::config::UiScale;
use maa_auto_reverse_rs::launch::{join_windows_args, quote_windows_arg};
use maa_auto_reverse_rs::layout::{center_of_roi, crop_rect, roi_set, shop_region_index_from_slot, Roi};
use maa_auto_reverse_rs::overlay::{
    clamp_rect_to_image, collect_roi_obstacles, corner_marker_rects, digit_segment_rects,
    emphasis_outline, expand_rect, find_text_tag_rect, nearest_point_on_rect, place_text_tag,
    point_in_rect, rect_center, rects_overlap, region_label, roi_to_rect, short_name_text,
    short_price_text, slot_marks, OverlayRect, TagAnchor,
};
use maa_auto_reverse_rs::recognition::SlotDebugInfo;

fn rect(left: i32, top: i32, width: u32, height: u32) -> OverlayRect {
    OverlayRect { left, top, width, height }
}

fn slot(n: usize, recognized: bool) -> SlotDebugInfo {
    SlotDebugInfo {
        slot: n,
        recognized,
        price_ocr: String::new(),
        name_ocr: String::new(),
        price_roi: None,
        name_roi: None,
    }
}

#[test]
fn regions_scale_to_pixels() {
    let r = Roi { x: 8141, y: 7704, w: 100, h: 232 };
    let c = crop_rect(1280, 720, r);
    assert_eq!((c.x, c.y, c.width, c.height), (1042, 554, 12, 16));
    assert_eq!(center_of_roi(1280, 720, r), (1048, 563));
    let o = roi_to_rect(1280, 720, r);
    assert_eq!(o, rect(1042, 554, 12, 16));
    let tiny = roi_to_rect(10, 10, Roi { x: 0, y: 0, w: 1, h: 1 });
    assert_eq!(tiny, rect(0, 0, 1, 1));
}

#[test]
fn crop_stays_inside_the_frame() {
    let c = crop_rect(100, 100, Roi { x: 9990, y: 9990, w: 500, h: 500 });
    assert_eq!((c.x, c.y, c.width, c.height), (99, 99, 1, 1));
}

#[test]
fn region_sets_have_six_slots_ordered_right_to_left() {
    let set = roi_set(UiScale::Scale90);
    assert_eq!(set.price_rois[0], Roi { x: 8141, y: 7704, w: 100, h: 232 });
    assert_eq!(shop_region_index_from_slot(1, UiScale::Scale90), Some(5));
    assert_eq!(shop_region_index_from_slot(6, UiScale::Scale100), Some(0));
}

#[test]
fn rectangle_relations() {
    let a = rect(0, 0, 10, 10);
    assert!(rects_overlap(a, rect(9, 9, 5, 5)));
    assert!(!rects_overlap(a, rect(10, 0, 5, 5)));
    assert!(!rects_overlap(a, rect(0, 10, 5, 5)));
    assert!(point_in_rect((9, 9), a));
    assert!(!point_in_rect((10, 9), a));
    assert_eq!(expand_rect(a, 4), rect(-4, -4, 18, 18));
    assert_eq!(expand_rect(rect(5, 5, 2, 2), -3), rect(8, 8, 1, 1));
    assert_eq!(rect_center(rect(10, 20, 5, 8)), (12, 24));
}

#[test]
fn clamping_keeps_a_four_pixel_margin() {
    assert_eq!(clamp_rect_to_image(100, 50, rect(-20, 90, 30, 10)), rect(4, 36, 30, 10));
    assert_eq!(clamp_rect_to_image(100, 50, rect(50, 10, 30, 10)), rect(50, 10, 30, 10));
    assert_eq!(clamp_rect_to_image(100, 50, rect(90, 10, 30, 10)), rect(66, 10, 30, 10));
    // A frame too small for the margin keeps the rectangle at four.
    assert_eq!(clamp_rect_to_image(20, 20, rect(10, 10, 30, 30)), rect(4, 4, 30, 30));
}

#[test]
fn nearest_border_point() {
    let r = rect(10, 10, 11, 11); // right and bottom edges at 20
    // The edge whose line is nearest wins, the other coordinate clamped.
    assert_eq!(nearest_point_on_rect(r, 0, 15), (10, 10));
    assert_eq!(nearest_point_on_rect(r, 30, 15), (20, 10));
    assert_eq!(nearest_point_on_rect(r, 15, 30), (10, 20));
    assert_eq!(nearest_point_on_rect(r, 19, 18), (20, 18));
    assert_eq!(nearest_point_on_rect(r, 15, 19), (15, 20));
    // Inside, equally far from left and top: the left edge wins.
    assert_eq!(nearest_point_on_rect(r, 12, 12), (10, 12));
    assert_eq!(nearest_point_on_rect(r, 0, 0), (10, 10));
}

#[test]
fn tags_go_above_when_free_and_elsewhere_otherwise() {
    let roi = rect(100, 100, 40, 20);
    let none: Vec<OverlayRect> = vec![];
    let t = find_text_tag_rect(400, 300, roi, 50, 22, TagAnchor::Above, &none, &none);
    assert_eq!(t, rect(100, 74, 50, 22));
    let t = find_text_tag_rect(400, 300, roi, 50, 22, TagAnchor::Below, &none, &none);
    assert_eq!(t, rect(100, 125, 50, 22));

    // The left-aligned spot above is taken: the centred one is tried next.
    let taken = vec![rect(95, 70, 10, 10)];
    let t = find_text_tag_rect(400, 300, roi, 50, 22, TagAnchor::Above, &none, &taken);
    // Left-aligned, centred and right-aligned spots above all touch it.
    assert_eq!(t, rect(100, 125, 50, 22));
    assert!(!rects_overlap(t, taken[0]));

    // Everything is covered: the fallback below the region is used.
    let all = vec![rect(0, 0, 400, 300)];
    let t = find_text_tag_rect(400, 300, roi, 50, 22, TagAnchor::Above, &all, &none);
    assert_eq!(t, rect(100, 125, 50, 22));
}

#[test]
fn placed_tags_are_recorded_and_avoid_each_other() {
    let roi = rect(100, 100, 40, 20);
    let regions: Vec<OverlayRect> = vec![];
    let mut labels: Vec<OverlayRect> = vec![];
    let first = place_text_tag(400, 300, roi, 3, TagAnchor::Above, &regions, &mut labels);
    assert_eq!(first.rect, rect(100, 74, 56, 22));
    assert_eq!((first.text_x, first.text_y), (106, 77));
    let second = place_text_tag(400, 300, roi, 3, TagAnchor::Above, &regions, &mut labels);
    assert_eq!(labels.len(), 2);
    assert!(!rects_overlap(first.rect, second.rect));
}

#[test]
fn corner_bars_and_outlines() {
    let r = rect(10, 20, 30, 40);
    let bars = corner_marker_rects(r);
    assert_eq!(bars.len(), 8);
    assert_eq!(bars[0], rect(9, 19, 6, 2));
    assert_eq!(bars[2], rect(34, 19, 6, 2));
    assert_eq!(bars[7], rect(34, 60, 6, 2));
    assert_eq!(emphasis_outline(r), rect(9, 19, 32, 42));
    let m = region_label(r, 12);
    assert_eq!(m.rect, rect(10, 2, 18, 18));
    assert_eq!((m.digit, m.digit_x, m.digit_y), (2, 14, 5));
    assert_eq!(region_label(rect(0, 5, 4, 4), 3).rect, rect(0, 0, 18, 18));
}

#[test]
fn seven_segment_digits() {
    assert_eq!(digit_segment_rects(0, 0, 1), vec![rect(8, 1, 2, 4), rect(8, 6, 2, 4)]);
    assert_eq!(digit_segment_rects(0, 0, 8).len(), 7);
    assert_eq!(digit_segment_rects(0, 0, 0).len(), 6);
    assert!(digit_segment_rects(0, 0, 10).is_empty());
    assert_eq!(digit_segment_rects(5, 5, 7)[0], rect(6, 5, 6, 2));
}

#[test]
fn short_tag_texts() {
    assert_eq!(short_price_text("  "), "-");
    assert_eq!(short_price_text(" 12 "), "12");
    assert_eq!(short_price_text("123456"), "1234");
    assert_eq!(short_name_text(""), "-");
    assert_eq!(short_name_text("银灰"), "银灰");
    assert_eq!(short_name_text("一二三四五六"), "一二三四五六");
    assert_eq!(short_name_text(" 一二三四五六七 "), "一二三四五六…");
}

#[test]
fn obstacles_cover_every_region() {
    let set = roi_set(UiScale::Scale90);
    let obs = collect_roi_obstacles(1280, 720, set);
    assert_eq!(obs.len(), 13);
    assert_eq!(obs[1], rect(1038, 550, 20, 24));
}

#[test]
fn slot_marks_put_misses_first() {
    let slots = vec![slot(1, true), slot(2, false), slot(9, false), slot(0, true), slot(6, false)];
    assert_eq!(
        slot_marks(&slots),
        vec![(1, 1, false), (4, 5, false), (0, 0, true), (3, 0, true)]
    );
}

#[test]
fn arguments_are_quoted_for_windows() {
    assert_eq!(quote_windows_arg("plain"), "plain");
    assert_eq!(quote_windows_arg(r"C:\dir\x"), r"C:\dir\x");
    assert_eq!(quote_windows_arg("a b"), "\"a b\"");
    assert_eq!(quote_windows_arg("say \"hi\""), r#""say \"hi\"""#);
    assert_eq!(quote_windows_arg(r"C:\my dir\"), r#""C:\my dir\\""#);
    assert_eq!(quote_windows_arg(r#"a\"b c"#), r#""a\\\"b c""#);
    assert_eq!(quote_windows_arg(""), "");
    assert_eq!(
        join_windows_args(&vec!["scan-once".to_string(), "--window".to_string(), "明日方舟 2".to_string()]),
        "scan-once --window \"明日方舟 2\""
    );
    assert_eq!(join_windows_args(&vec![]), "");
}

/// The Windows rules for splitting a command line into its arguments.
fn read_arguments(line: &str) -> Vec<String> {
    let mut args = Vec::new();
    let mut out = String::new();
    let mut started = false;
    let mut quoting = false;
    let mut pending = 0usize;
    for c in line.chars() {
        if c == '\\' {
            pending += 1;
            started = true;
            continue;
        }
        if c == '"' {
            out.push_str(&"\\".repeat(pending / 2));
            if pending % 2 == 1 {
                out.push('"');
            } else {
                quoting = !quoting;
            }
            pending = 0;
            started = true;
            continue;
        }
        out.push_str(&"\\".repeat(pending));
        pending = 0;
        if (c == ' ' || c == '\t') && !quoting {
            if started {
                args.push(std::mem::take(&mut out));
                started = false;
            }
            continue;
        }
        out.push(c);
        started = true;
    }
    out.push_str(&"\\".repeat(pending));
    if started {
        args.push(out);
    }
    args
}

#[test]
fn law_quoted_arguments_read_back() {
    for arg in [
        "plain",
        "a b",
        "tab\there",
        "say \"hi\"",
        r"C:\my dir\",
        r#"a\"b c"#,
        r"\\server\share name\\",
        "\"",
        "明日方舟 2",
        r"x\\\",
    ] {
        assert_eq!(read_arguments(&quote_windows_arg(arg)), vec![arg.to_string()], "argument {arg:?}");
    }
}

#[test]
fn law_joined_arguments_read_back() {
    let args: Vec<String> = ["scan-once", "--window", "明日方舟 2", r"C:\my dir\", "say \"hi\"", r"x\\\"]
        .iter()
        .map(|a| a.to_string())
        .collect();
    assert_eq!(read_arguments(&join_windows_args(&args)), args);
}
