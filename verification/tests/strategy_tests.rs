use maa_auto_reverse_rs::config::{default_corrections, CorrectionMap};
use maa_auto_reverse_rs::strategy::{
    classify_action, is_list_match, is_similar, normalize_text, plan_actions, PlannedActionKind,
    RecognizedCard,
};

fn names(list: &[&str]) -> Vec<String> {
    list.iter().map(|s| s.to_string()).collect()
}

fn card(slot: usize, name: &str, price: i32) -> RecognizedCard {
    RecognizedCard { slot, name: name.to_string(), price }
}

fn map_of(pairs: &[(&str, &str)]) -> CorrectionMap {
    let mut m = CorrectionMap::new();
    for (k, v) in pairs {
        m.insert(k.to_string(), v.to_string());
    }
    m
}

#[test]
fn normalize_trims_and_applies_corrections() {
    let map = default_corrections();
    assert_eq!(normalize_text("  铜鼓 ", &map), "锏鼓");
    assert_eq!(normalize_text("湖光", &map), "溯光");
    assert_eq!(normalize_text("   ", &map), "");
    assert_eq!(normalize_text("银灰", &map), "银灰");
}

#[test]
fn normalize_applies_whole_text_correction_then_each_entry_in_key_order() {
    let map = map_of(&[("ab", "x"), ("x", "y")]);
    assert_eq!(normalize_text("ab", &map), "y");
    assert_eq!(normalize_text("cab", &map), "cy");
}

#[test]
fn list_match_exact_and_ignoring_spaces() {
    let map = CorrectionMap::new();
    assert!(is_list_match("推进之王", &names(&["推进之王"]), &map));
    assert!(is_list_match("推进 之王", &names(&["推进之王"]), &map));
    assert!(!is_list_match("推进之王", &names(&[]), &map));
    assert!(!is_list_match("推进之王", &names(&[""]), &map));
    assert!(!is_list_match("   ", &names(&["推进之王"]), &map));
}

#[test]
fn list_match_by_similarity() {
    let map = CorrectionMap::new();
    // One character of three differs: similarity 2/3, enough.
    assert!(is_list_match("能天便", &names(&["能天使"]), &map));
    // Two of three differ: not enough.
    assert!(!is_list_match("能便便", &names(&["能天使"]), &map));
    // Lengths in bytes differ by more than one: no partial match.
    assert!(!is_list_match("推进之王改", &names(&["推进之王"]), &map));
    // Containment within one byte of length.
    assert!(is_list_match("ab", &names(&["a"]), &map));
    assert!(!is_list_match("abc", &names(&["a"]), &map));
}

#[test]
fn list_match_sees_corrected_text() {
    let map = default_corrections();
    assert!(is_list_match("湖光", &names(&["溯光"]), &map));
}

#[test]
fn similarity_threshold_is_sixty_percent() {
    // distance 2 over 5 characters: exactly 60%.
    assert!(is_similar(2, 5, 4));
    assert!(!is_similar(3, 5, 5));
    assert!(is_similar(0, 0, 0));
}

#[test]
fn classify_follows_the_list_priority() {
    let map = CorrectionMap::new();
    let items = names(&["人事部文档"]);
    let ops = names(&["推进之王"]);
    let keep = names(&["银灰"]);
    let six = names(&["能天使"]);
    let classify = |c: &RecognizedCard| classify_action(c, &items, &ops, &keep, &six, &map);

    assert_eq!(classify(&card(6, "人事部文档", 3)), Some(PlannedActionKind::BuyItem));
    assert_eq!(classify(&card(6, "银灰", 0)), None);
    assert_eq!(classify(&card(2, "银灰", 4)), Some(PlannedActionKind::BuyOnlyOperator));
    assert_eq!(classify(&card(3, "推进之王", 4)), Some(PlannedActionKind::BuySellOperator));
    assert_eq!(classify(&card(4, "能天使", 0)), None);
    assert_eq!(classify(&card(5, "杂鱼", 1)), Some(PlannedActionKind::BuySellCheapOperator));
    assert_eq!(classify(&card(5, "杂鱼", 0)), Some(PlannedActionKind::BuySellCheapOperator));
    assert_eq!(classify(&card(5, "杂鱼", 2)), None);
    assert_eq!(classify(&card(5, "杂鱼", -1)), None);
}

#[test]
fn plan_orders_by_kind_price_and_slot() {
    let map = default_corrections();
    let items = names(&["人事部文档"]);
    let ops = names(&["推进之王"]);
    let cards = vec![
        card(1, "杂鱼", 1),
        card(2, "人事部文档", 5),
        card(3, "推进之王", 3),
        card(4, "人事部文档", 2),
        card(5, "无关", 9),
    ];
    let plan = plan_actions(&cards, &items, &ops, &[], &[], &map);
    let got: Vec<(PlannedActionKind, usize, i32)> =
        plan.iter().map(|a| (a.kind, a.slot, a.price)).collect();
    assert_eq!(
        got,
        vec![
            (PlannedActionKind::BuyItem, 4, 2),
            (PlannedActionKind::BuyItem, 2, 5),
            (PlannedActionKind::BuySellOperator, 3, 3),
            (PlannedActionKind::BuySellCheapOperator, 1, 1),
        ]
    );
}

#[test]
fn plan_names_are_normalized() {
    let map = default_corrections();
    let items = names(&["锏"]);
    let plan = plan_actions(&[card(2, " 铜 ", 3)], &items, &[], &[], &[], &map);
    assert_eq!(plan.len(), 1);
    assert_eq!(plan[0].name, "锏");
    assert_eq!(plan[0].kind, PlannedActionKind::BuyItem);
}

#[test]
fn action_kind_labels() {
    assert_eq!(PlannedActionKind::BuyItem.label(), "购买道具");
    assert_eq!(PlannedActionKind::BuyOnlyOperator.label(), "保留干员");
    assert_eq!(PlannedActionKind::BuySellOperator.label(), "倒转干员");
    assert_eq!(PlannedActionKind::BuySellCheapOperator.label(), "低费倒转");
}

#[test]
fn law_items_are_bought_in_every_slot() {
    let map = CorrectionMap::new();
    let items = names(&["招聘许可"]);
    for slot in 1..=6 {
        for price in [-1, 0, 1, 7] {
            assert_eq!(
                classify_action(&card(slot, "招聘许可", price), &items, &[], &[], &[], &map),
                Some(PlannedActionKind::BuyItem)
            );
        }
    }
}

#[test]
fn law_blank_reading_matches_no_list() {
    let map = default_corrections();
    assert!(!is_list_match(" \t ", &names(&["a", " ", "人事部文档"]), &map));
}
