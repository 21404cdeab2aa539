use maa_auto_reverse_rs::config::RuntimeMode;
use maa_auto_reverse_rs::ui_state::{
    apply_preset_toggle, button_action, button_text, display_text, next_status, preset_columns,
    scan_enabled, status_text, uses_wide_layout, HotkeySignal, RuntimeStatus, UiEffect, UiEvent,
};
use maa_auto_reverse_rs::win_input::{
    directinput_scancode, is_key_pressed, press_key, unmappable_key_message,
};
use maa_auto_reverse_rs::windowing::{
    find_window_hwnd, is_window_candidate, select_windows, WindowEntry, WindowInfo,
};

fn window(hwnd: isize, title: &str, process: &str) -> WindowInfo {
    WindowInfo {
        hwnd,
        title: title.to_string(),
        class_name: "C".to_string(),
        process_name: process.to_string(),
        width: 100,
        height: 50,
    }
}

fn entry(hwnd: isize, title: &str, visible: bool, minimized: bool, w: i32, h: i32) -> WindowEntry {
    let mut info = window(hwnd, title, "");
    info.width = w;
    info.height = h;
    WindowEntry { info, visible, minimized }
}

#[test]
fn status_and_button_texts() {
    assert_eq!(status_text(RuntimeStatus::Idle), "空闲");
    assert_eq!(status_text(RuntimeStatus::Starting), "启动中");
    assert_eq!(status_text(RuntimeStatus::Running(RuntimeMode::AutoReverse)), "自动倒转运行中");
    assert_eq!(status_text(RuntimeStatus::Running(RuntimeMode::RefreshKeep)), "刷新保留运行中");
    assert_eq!(status_text(RuntimeStatus::Stopping), "停止中");
    assert_eq!(status_text(RuntimeStatus::ScanDebugging), "扫描中");
    assert_eq!(status_text(RuntimeStatus::Error), "错误");

    let running = RuntimeStatus::Running(RuntimeMode::AutoReverse);
    assert_eq!(button_text(running, RuntimeMode::AutoReverse), "停止自动倒转 (F8)");
    assert_eq!(button_text(running, RuntimeMode::RefreshKeep), "干员道具刷新保留 (F9)");
    assert_eq!(
        button_text(RuntimeStatus::Running(RuntimeMode::RefreshKeep), RuntimeMode::RefreshKeep),
        "停止刷新保留 (F9)"
    );
    assert_eq!(button_text(RuntimeStatus::Idle, RuntimeMode::AutoReverse), "启动自动倒转 (F8)");
}

#[test]
fn buttons_act_only_when_toggling_does_something() {
    let running = RuntimeStatus::Running(RuntimeMode::AutoReverse);
    assert_eq!(button_action(running, RuntimeMode::AutoReverse), Some(RuntimeMode::AutoReverse));
    assert_eq!(button_action(running, RuntimeMode::RefreshKeep), None);
    assert_eq!(button_action(RuntimeStatus::Idle, RuntimeMode::RefreshKeep), Some(RuntimeMode::RefreshKeep));
    assert_eq!(button_action(RuntimeStatus::Error, RuntimeMode::AutoReverse), Some(RuntimeMode::AutoReverse));
    assert_eq!(button_action(RuntimeStatus::Starting, RuntimeMode::AutoReverse), None);
    assert_eq!(button_action(RuntimeStatus::ScanDebugging, RuntimeMode::AutoReverse), None);
    assert!(scan_enabled(RuntimeStatus::Idle));
    assert!(scan_enabled(RuntimeStatus::Error));
    assert!(!scan_enabled(running));
}

#[test]
fn status_machine_runs_a_mode_and_stops_it() {
    let (s, e) = next_status(RuntimeStatus::Idle, UiEvent::Toggle(RuntimeMode::AutoReverse));
    assert_eq!((s, e), (RuntimeStatus::Starting, UiEffect::StartRuntime(RuntimeMode::AutoReverse)));
    let (s, e) = next_status(s, UiEvent::Started { ok: true, mode: RuntimeMode::AutoReverse });
    assert_eq!((s, e), (RuntimeStatus::Running(RuntimeMode::AutoReverse), UiEffect::Nothing));
    let (s2, e2) = next_status(s, UiEvent::Toggle(RuntimeMode::RefreshKeep));
    assert_eq!((s2, e2), (s, UiEffect::Nothing));
    let (s, e) = next_status(s, UiEvent::Tick { running: Some(RuntimeMode::AutoReverse), hotkey: Some(HotkeySignal::ToggleAutoReverse) });
    assert_eq!((s, e), (RuntimeStatus::Stopping, UiEffect::StopRuntime));
    let (s, e) = next_status(s, UiEvent::Stopped { ok: true });
    assert_eq!((s, e), (RuntimeStatus::Idle, UiEffect::Nothing));
}

#[test]
fn failures_lead_to_error_and_can_be_retried() {
    let (s, _) = next_status(RuntimeStatus::Starting, UiEvent::Started { ok: false, mode: RuntimeMode::RefreshKeep });
    assert_eq!(s, RuntimeStatus::Error);
    let (s, e) = next_status(s, UiEvent::Tick { running: None, hotkey: Some(HotkeySignal::ToggleRefreshKeep) });
    assert_eq!((s, e), (RuntimeStatus::Starting, UiEffect::StartRuntime(RuntimeMode::RefreshKeep)));
    let (s, _) = next_status(RuntimeStatus::Stopping, UiEvent::Stopped { ok: false });
    assert_eq!(s, RuntimeStatus::Error);
}

#[test]
fn runtime_that_stopped_by_itself_shows_idle() {
    let running = RuntimeStatus::Running(RuntimeMode::RefreshKeep);
    let (s, e) = next_status(running, UiEvent::Tick { running: None, hotkey: None });
    assert_eq!((s, e), (RuntimeStatus::Idle, UiEffect::Nothing));
    let (s, _) = next_status(RuntimeStatus::Starting, UiEvent::Tick { running: None, hotkey: None });
    assert_eq!(s, RuntimeStatus::Starting);
}

#[test]
fn scans_run_only_when_free() {
    let (s, e) = next_status(RuntimeStatus::Idle, UiEvent::ScanRequested);
    assert_eq!((s, e), (RuntimeStatus::ScanDebugging, UiEffect::StartScan));
    let (s2, e2) = next_status(s, UiEvent::ScanRequested);
    assert_eq!((s2, e2), (RuntimeStatus::ScanDebugging, UiEffect::Nothing));
    assert_eq!(next_status(s, UiEvent::ScanCompleted { ok: true }).0, RuntimeStatus::Idle);
    assert_eq!(next_status(s, UiEvent::ScanCompleted { ok: false }).0, RuntimeStatus::Error);
}

#[test]
fn display_texts_and_layout() {
    assert_eq!(display_text("  "), "(空)");
    assert_eq!(display_text(" 银灰"), " 银灰");
    assert_eq!(preset_columns(1600), 4);
    assert_eq!(preset_columns(1500), 4);
    assert_eq!(preset_columns(1180), 3);
    assert_eq!(preset_columns(860), 2);
    assert_eq!(preset_columns(859), 1);
    assert!(!uses_wide_layout(1379));
    assert!(uses_wide_layout(1380));
}

#[test]
fn preset_toggle_adds_once_and_removes_all() {
    let list = vec!["a".to_string(), "b".to_string(), "a".to_string()];
    assert_eq!(apply_preset_toggle(&list, &"c".to_string(), true), vec!["a", "b", "a", "c"]);
    assert_eq!(apply_preset_toggle(&list, &"b".to_string(), true), vec!["a", "b", "a"]);
    assert_eq!(apply_preset_toggle(&list, &"a".to_string(), false), vec!["b"]);
    assert_eq!(apply_preset_toggle(&list, &"z".to_string(), false), vec!["a", "b", "a"]);
}

#[test]
fn window_labels_and_candidates() {
    assert_eq!(window(1, "明日方舟", "").display_label(), "明日方舟");
    assert_eq!(window(1, "明日方舟", "MuMu.exe").display_label(), "明日方舟 (MuMu.exe)");
    assert!(is_window_candidate(10, 10, true, false));
    assert!(is_window_candidate(0, 0, true, true));
    assert!(!is_window_candidate(0, 10, true, false));
    assert!(!is_window_candidate(10, 10, false, false));
}

#[test]
fn windows_are_filtered_deduplicated_and_ordered() {
    let entries = vec![
        entry(1, "记事本", true, false, 100, 100),
        entry(2, "MuMu模拟器12", true, false, 100, 100),
        entry(3, "明日方舟", true, true, 0, 0),
        entry(4, "   ", true, false, 100, 100),
        entry(5, "隐藏", false, false, 100, 100),
        entry(6, "Alpha", true, false, 100, 100),
        entry(7, " 记事本 ", true, false, 100, 100),
        entry(8, "零尺寸", true, false, 0, 100),
    ];
    let got: Vec<isize> = select_windows(entries).iter().map(|w| w.hwnd).collect();
    assert_eq!(got, vec![3, 2, 6, 1]);
}

#[test]
fn window_lookup_by_title_part() {
    let windows = vec![window(10, "MuMu模拟器", ""), window(11, "明日方舟 - 模拟器", "")];
    assert_eq!(find_window_hwnd(&windows, "明日方舟"), Some(11));
    assert_eq!(find_window_hwnd(&windows, "模拟器"), Some(10));
    assert_eq!(find_window_hwnd(&windows, "记事本"), None);
}

#[test]
fn scancodes_and_key_input() {
    assert_eq!(directinput_scancode(0x58), Some(0x2D));
    assert_eq!(directinput_scancode(0x78), Some(0x2D));
    assert_eq!(directinput_scancode(0x44), Some(0x20));
    assert_eq!(directinput_scancode(0x64), Some(0x20));
    assert_eq!(directinput_scancode(0x41), None);
    assert_eq!(press_key(0, 0x58), Err("仅支持 Windows".to_string()));
    assert!(!is_key_pressed(0x58));
    assert_eq!(unmappable_key_message(65), "无法将按键码映射为扫描码: 65");
}
