use maa_auto_reverse_rs::config::{
    default_corrections, imported_app_settings, imported_strategy, AppSettings, ControllerKind,
    CorrectionMap, EditableLists, PresetCatalog, RuntimeMode, StrategyConfig, UiScale,
};
use maa_auto_reverse_rs::text::{compare_text, parse_name_list, TextOrder};

fn names(list: &[&str]) -> Vec<String> {
    list.iter().map(|s| s.to_string()).collect()
}

fn entries(m: &CorrectionMap) -> Vec<(String, String)> {
    (0..m.len()).map(|i| {
        let (k, v) = m.entry(i);
        (k.clone(), v.clone())
    }).collect()
}

#[test]
fn ui_scale_labels_round_trip() {
    assert_eq!(UiScale::Scale100.as_str(), "100%");
    assert_eq!(UiScale::Scale90.as_str(), "90%");
    assert_eq!(UiScale::from_label("100%"), Some(UiScale::Scale100));
    assert_eq!(UiScale::from_label("90%"), Some(UiScale::Scale90));
    assert_eq!(UiScale::from_label("80%"), None);
    assert_eq!(UiScale::from_label(UiScale::Scale90.as_str()), Some(UiScale::Scale90));
}

#[test]
fn runtime_mode_labels() {
    assert_eq!(RuntimeMode::AutoReverse.label(), "自动倒转");
    assert_eq!(RuntimeMode::RefreshKeep.label(), "刷新保留");
}

#[test]
fn default_settings_and_strategy() {
    let s = AppSettings::default();
    assert_eq!(s.controller, ControllerKind::Win32);
    assert_eq!(s.selected_window_title, "明日方舟");
    assert_eq!(s.ui_scale, UiScale::Scale90);
    assert!(s.recent_windows.is_empty());

    let c = StrategyConfig::default();
    assert_eq!(c.item_list, names(&["人事部文档"]));
    assert!(c.operator_list.is_empty());
    assert!(c.buy_only_operator_list.is_empty());
    assert!(c.six_star_list.is_empty());
    assert!(!c.refresh_keep_mode);
    assert!(!c.auto_reverse_auto_refresh);
    assert_eq!(c.ui_scale, UiScale::Scale90);
    assert_eq!(
        entries(&c.ocr_correction_map),
        vec![("湖".to_string(), "溯".to_string()), ("铜".to_string(), "锏".to_string())]
    );

    let p = PresetCatalog::default();
    assert!(p.predefined_items.is_empty());
    assert!(p.predefined_buy_only_operators.is_empty());
}

#[test]
fn correction_map_keeps_keys_sorted_and_reads_back_writes() {
    let mut m = CorrectionMap::new();
    m.insert("b".to_string(), "1".to_string());
    m.insert("a".to_string(), "2".to_string());
    m.insert("c".to_string(), "3".to_string());
    m.insert("b".to_string(), "4".to_string());
    assert_eq!(m.len(), 3);
    assert_eq!(
        entries(&m),
        vec![
            ("a".to_string(), "2".to_string()),
            ("b".to_string(), "4".to_string()),
            ("c".to_string(), "3".to_string())
        ]
    );
    assert_eq!(m.get(&vec!['b']), Some("4".to_string()));
    assert_eq!(m.get(&vec!['z']), None);
    let copy = m.clone();
    assert_eq!(entries(&copy), entries(&m));
}

#[test]
fn correction_map_from_pairs_keeps_the_last_value() {
    let pairs = vec![
        ("x".to_string(), "1".to_string()),
        ("y".to_string(), "2".to_string()),
        ("x".to_string(), "3".to_string()),
    ];
    let m = CorrectionMap::from_pairs(&pairs);
    assert_eq!(m.get(&vec!['x']), Some("3".to_string()));
    assert_eq!(m.get(&vec!['y']), Some("2".to_string()));
    assert_eq!(m.len(), 2);
}

#[test]
fn default_corrections_are_two() {
    let m = default_corrections();
    assert_eq!(m.get(&vec!['铜']), Some("锏".to_string()));
    assert_eq!(m.get(&vec!['湖']), Some("溯".to_string()));
}

#[test]
fn parse_name_list_splits_on_all_separators() {
    assert_eq!(
        parse_name_list(" 银灰，能天使,推进之王；史尔特尔;陈、 塞雷娅 \n 艾雅法拉\r\n"),
        names(&["银灰", "能天使", "推进之王", "史尔特尔", "陈", "塞雷娅", "艾雅法拉"])
    );
    assert_eq!(parse_name_list(""), Vec::<String>::new());
    assert_eq!(parse_name_list(" ,, ;\n"), Vec::<String>::new());
    assert_eq!(parse_name_list("a  b"), names(&["a  b"]));
}

#[test]
fn editable_lists_join_and_apply() {
    let mut c = StrategyConfig::default();
    c.operator_list = names(&["银灰", "能天使"]);
    let lists = EditableLists::from_strategy(&c);
    assert_eq!(lists.items, "人事部文档");
    assert_eq!(lists.operators, "银灰、能天使");
    assert_eq!(lists.buy_only_operators, "");

    let edited = EditableLists {
        items: "招聘许可, 龙门币".to_string(),
        operators: lists.operators.clone(),
        buy_only_operators: "  ".to_string(),
        six_star_operators: "艾雅法拉\n".to_string(),
    };
    c.refresh_keep_mode = true;
    edited.apply_to(&mut c);
    assert_eq!(c.item_list, names(&["招聘许可", "龙门币"]));
    assert_eq!(c.operator_list, names(&["银灰", "能天使"]));
    assert!(c.buy_only_operator_list.is_empty());
    assert_eq!(c.six_star_list, names(&["艾雅法拉"]));
    assert!(c.refresh_keep_mode);
}

#[test]
fn law_edit_round_trip_on_clean_names() {
    let mut c = StrategyConfig::default();
    c.item_list = names(&["人事部文档", "招聘 许可"]);
    c.six_star_list = names(&["能天使"]);
    let lists = EditableLists::from_strategy(&c);
    let mut d = StrategyConfig::default();
    lists.apply_to(&mut d);
    assert_eq!(d.item_list, c.item_list);
    assert_eq!(d.six_star_list, c.six_star_list);
    assert!(d.operator_list.is_empty());
}

#[test]
fn imported_settings_follow_the_option_file() {
    let s = imported_app_settings(true, Some("MuMu模拟器".to_string()), Some(UiScale::Scale100));
    assert_eq!(s.selected_window_title, "MuMu模拟器");
    assert_eq!(s.ui_scale, UiScale::Scale100);
    let s = imported_app_settings(true, None, None);
    assert_eq!(s.selected_window_title, "明日方舟");
    assert_eq!(s.ui_scale, UiScale::Scale90);
    let s = imported_app_settings(false, Some("x".to_string()), Some(UiScale::Scale100));
    assert_eq!(s.selected_window_title, "明日方舟");
    assert_eq!(s.ui_scale, UiScale::Scale90);
}

#[test]
fn imported_strategy_takes_advanced_settings_only_with_the_file() {
    let pairs = vec![("鸭".to_string(), "鸦".to_string())];
    let c = imported_strategy(
        names(&["a"]),
        names(&["b"]),
        names(&["c"]),
        names(&["d"]),
        true,
        Some(pairs.clone()),
        Some(UiScale::Scale100),
    );
    assert_eq!(c.item_list, names(&["a"]));
    assert_eq!(c.six_star_list, names(&["d"]));
    assert_eq!(c.ui_scale, UiScale::Scale100);
    assert_eq!(entries(&c.ocr_correction_map), pairs);

    let c = imported_strategy(vec![], vec![], vec![], vec![], false, Some(pairs), Some(UiScale::Scale100));
    assert_eq!(c.ui_scale, UiScale::Scale90);
    assert_eq!(c.ocr_correction_map.len(), 2);

    let c = imported_strategy(vec![], vec![], vec![], vec![], true, None, None);
    assert_eq!(c.ui_scale, UiScale::Scale90);
    assert_eq!(c.ocr_correction_map.get(&vec!['湖']), Some("溯".to_string()));
}

#[test]
fn text_order_is_by_characters() {
    let chars = |s: &str| s.chars().collect::<Vec<char>>();
    assert!(matches!(compare_text(&chars("a"), &chars("b")), TextOrder::Less));
    assert!(matches!(compare_text(&chars("ab"), &chars("a")), TextOrder::Greater));
    assert!(matches!(compare_text(&chars("铜"), &chars("铜")), TextOrder::Equal));
    assert!(matches!(compare_text(&chars("Z"), &chars("湖")), TextOrder::Less));
}
