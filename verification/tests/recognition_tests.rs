use maa_auto_reverse_rs::recognition::{
    accept_ocr_text, card_from_ocr, clean_ocr_text, ocr_text_from_detail, parse_price,
    split_into_six_bounds, ScanDebugResult,
};
use maa_auto_reverse_rs::report::{
    missing_window_message, pipeline_override_note, recognized_summary, scan_line, scan_report,
    slot_title,
};
use maa_auto_reverse_rs::recognition::SlotDebugInfo;
use maa_auto_reverse_rs::strategy::RecognizedCard;

fn slot(n: usize, recognized: bool, price: &str, name: &str) -> SlotDebugInfo {
    SlotDebugInfo {
        slot: n,
        recognized,
        price_ocr: price.to_string(),
        name_ocr: name.to_string(),
        price_roi: None,
        name_roi: None,
    }
}

#[test]
fn number_readings_fix_look_alike_letters_and_drop_the_rest() {
    assert_eq!(clean_ocr_text("O1 lZ", true), "0112");
    assert_eq!(clean_ocr_text("Ss Bb gq", true), "558699");
    assert_eq!(clean_ocr_text("费用:3", true), "3");
    assert_eq!(clean_ocr_text("  银灰 ", false), "银灰");
}

#[test]
fn detail_text_prefers_best_then_joins_filtered() {
    assert_eq!(
        ocr_text_from_detail(Some(" 能天使 ".to_string()), None, false),
        Some("能天使".to_string())
    );
    assert_eq!(
        ocr_text_from_detail(None, Some(vec!["1".to_string(), "O".to_string()]), true),
        Some("10".to_string())
    );
    assert_eq!(
        ocr_text_from_detail(None, Some(vec!["推进".to_string(), "之王".to_string()]), false),
        Some("推进 之王".to_string())
    );
    assert_eq!(ocr_text_from_detail(None, None, false), None);
    assert_eq!(
        ocr_text_from_detail(Some("A".to_string()), Some(vec!["B".to_string()]), false),
        Some("A".to_string())
    );
}

#[test]
fn blank_readings_are_not_accepted() {
    assert!(accept_ocr_text(&Some("x".to_string())));
    assert!(!accept_ocr_text(&Some("  ".to_string())));
    assert!(!accept_ocr_text(&None));
}

#[test]
fn prices_parse_as_i32_or_minus_one() {
    assert_eq!(parse_price("12"), 12);
    assert_eq!(parse_price("0"), 0);
    assert_eq!(parse_price(""), -1);
    assert_eq!(parse_price("1a"), -1);
    assert_eq!(parse_price("+7"), 7);
    assert_eq!(parse_price("-3"), -3);
    assert_eq!(parse_price("-"), -1);
    assert_eq!(parse_price("2147483647"), 2147483647);
    assert_eq!(parse_price("2147483648"), -1);
    assert_eq!(parse_price("-2147483648"), -2147483648);
    assert_eq!(parse_price(" 5"), -1);
}

#[test]
fn cards_need_a_name() {
    let c = card_from_ocr(3, "4", "银灰").unwrap();
    assert_eq!(c.slot, 3);
    assert_eq!(c.name, "银灰");
    assert_eq!(c.price, 4);
    let c = card_from_ocr(2, "", " 陈 ").unwrap();
    assert_eq!(c.name, " 陈 ");
    assert_eq!(c.price, -1);
    assert!(card_from_ocr(1, "3", "  ").is_none());
}

#[test]
fn shop_display_splits_in_six() {
    assert_eq!(
        split_into_six_bounds(100),
        vec![(0, 16), (16, 16), (32, 16), (48, 16), (64, 16), (80, 20)]
    );
    assert_eq!(split_into_six_bounds(5), vec![(0, 0), (0, 0), (0, 0), (0, 0), (0, 0), (0, 5)]);
}

#[test]
fn empty_debug_result() {
    let d = ScanDebugResult::default();
    assert!(d.full_frame.is_none());
    assert!(d.annotated_frame.is_none());
    assert!(d.recognized_frame.is_none());
    assert!(d.slots.is_empty());
}

#[test]
fn scan_report_lines() {
    let cards = vec![
        RecognizedCard { slot: 2, name: "银灰".to_string(), price: 4 },
        RecognizedCard { slot: 5, name: "杂鱼".to_string(), price: -1 },
    ];
    assert_eq!(scan_line(&cards[0]), "槽位2 | 费用: 4 | 名称: 银灰");
    assert_eq!(
        scan_report("明日方舟", &cards),
        "槽位2 | 费用: 4 | 名称: 银灰\n槽位5 | 费用: -1 | 名称: 杂鱼"
    );
    assert_eq!(scan_report("明日方舟", &[]), "窗口 `明日方舟` 未识别到可用卡片");
}

#[test]
fn summary_lists_recognized_slots_only() {
    let slots = vec![slot(1, true, "3", "银灰"), slot(2, false, "", ""), slot(3, true, "", "陈")];
    assert_eq!(
        recognized_summary(&slots),
        vec!["槽位 1 | 价格 3 | 名称 银灰".to_string(), "槽位 3 | 价格 (空) | 名称 陈".to_string()]
    );
    assert_eq!(slot_title(4, true), "槽位 4 · 命中");
    assert_eq!(slot_title(12, false), "槽位 12 · 未命中");
}

#[test]
fn override_and_missing_window_messages() {
    assert_eq!(
        pipeline_override_note(" {} ", "a.json"),
        "[AutoReverse] 检测到 pipeline override 文件，但当前内容为空对象: a.json"
    );
    assert_eq!(
        pipeline_override_note("{\"x\":1}", "a.json"),
        "[AutoReverse] 检测到 pipeline override 文件，启动时将应用覆盖配置: a.json"
    );
    assert_eq!(missing_window_message("明日方舟"), "未找到目标窗口: 明日方舟");
}
