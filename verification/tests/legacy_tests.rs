use maa_auto_reverse_rs::config::UiScale;
use maa_auto_reverse_rs::legacy::{
    compact_json, legacy_corrections, legacy_presets, legacy_string_list, legacy_ui_scale,
    legacy_window_title, pipeline_override_text,
};

#[test]
fn compact_json_rewrites_without_spaces() {
    assert_eq!(compact_json("{ \"a\" : [1, 2] }").unwrap(), "{\"a\":[1,2]}");
    assert!(compact_json("{ not json").is_err());
}

#[test]
fn override_without_file_is_empty_object() {
    assert_eq!(pipeline_override_text(None).unwrap(), "{}");
}

#[test]
fn override_file_is_compacted() {
    let text = pipeline_override_text(Some("{ \"Task\" : { \"timeout\" : 5 } }".to_string()));
    assert_eq!(text.unwrap(), "{\"Task\":{\"timeout\":5}}");
}

#[test]
fn override_file_that_is_not_json_is_refused() {
    let err = pipeline_override_text(Some("{ oops".to_string())).unwrap_err();
    assert!(err.starts_with("pipeline override JSON 无效: "), "{err}");
    assert!(err.len() > "pipeline override JSON 无效: ".len());
}

#[test]
fn string_list_keeps_text_members_in_order() {
    let list = legacy_string_list(Some("[\"推进之王\", 3, \"人事部文档\", null]".to_string())).unwrap();
    assert_eq!(list, vec!["推进之王".to_string(), "人事部文档".to_string()]);
}

#[test]
fn string_list_without_file_or_array_is_empty() {
    assert_eq!(legacy_string_list(None).unwrap(), Vec::<String>::new());
    assert_eq!(legacy_string_list(Some("{\"a\": \"b\"}".to_string())).unwrap(), Vec::<String>::new());
    assert!(legacy_string_list(Some("[\"a\"".to_string())).is_err());
}

#[test]
fn presets_need_text_label_and_value() {
    let raw = "[{\"label\": \"常用\", \"value\": \"a,b\"}, {\"label\": 1, \"value\": \"x\"}, \
               {\"value\": \"y\"}, \"z\", {\"value\": \"c\", \"label\": \"其他\", \"extra\": 2}]";
    let presets = legacy_presets(Some(raw.to_string())).unwrap();
    let pairs: Vec<(String, String)> = presets.into_iter().map(|p| (p.label, p.value)).collect();
    assert_eq!(
        pairs,
        vec![("常用".to_string(), "a,b".to_string()), ("其他".to_string(), "c".to_string())]
    );
    assert!(legacy_presets(None).unwrap().is_empty());
    assert!(legacy_presets(Some("[".to_string())).is_err());
}

#[test]
fn corrections_keep_text_values() {
    let raw = "{\"ocr_correction_map\": {\"x\": \"y\", \"z\": 1}, \"other\": true}";
    assert_eq!(
        legacy_corrections(raw).unwrap(),
        Some(vec![("x".to_string(), "y".to_string())])
    );
}

#[test]
fn corrections_absent_or_not_an_object() {
    assert_eq!(legacy_corrections("{\"ui_scale\": \"90%\"}").unwrap(), None);
    assert_eq!(legacy_corrections("{\"ocr_correction_map\": [1]}").unwrap(), None);
    assert_eq!(legacy_corrections("[1, 2]").unwrap(), None);
    assert!(legacy_corrections("{").is_err());
}

#[test]
fn window_title_is_read_when_text() {
    assert_eq!(
        legacy_window_title("{\"window_title\": \"明日方舟\"}").unwrap(),
        Some("明日方舟".to_string())
    );
    assert_eq!(legacy_window_title("{\"window_title\": 5}").unwrap(), None);
    assert_eq!(legacy_window_title("{}").unwrap(), None);
    assert!(legacy_window_title("nope").is_err());
}

#[test]
fn ui_scale_is_read_from_its_label() {
    assert_eq!(legacy_ui_scale("{\"ui_scale\": \"100%\"}"), Some(UiScale::Scale100));
    assert_eq!(legacy_ui_scale("{\"ui_scale\": \"90%\"}"), Some(UiScale::Scale90));
    assert_eq!(legacy_ui_scale("{\"ui_scale\": \"80%\"}"), None);
    assert_eq!(legacy_ui_scale("not json"), None);
}
