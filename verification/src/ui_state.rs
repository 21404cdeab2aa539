//! The runtime status shown by the interface, the decisions taken on the
//! interface's events, and the small text rules of its panels.
use vstd::prelude::*;

use crate::config::RuntimeMode;
use crate::text::{chars_of, string_views, trim, trim_chars};

verus! {

/// What the automation is doing, as the interface shows it.
#[derive(Debug, Clone, Copy, PartialEq, Eq)]
pub enum RuntimeStatus {
    Idle,
    Starting,
    Running(RuntimeMode),
    Stopping,
    ScanDebugging,
    Error,
}

/// A global hotkey that was pressed.
#[derive(Debug, Clone, Copy, PartialEq, Eq)]
pub enum HotkeySignal {
    ToggleAutoReverse,
    ToggleRefreshKeep,
}

/// The mode a hotkey toggles.
pub open spec fn hotkey_mode(signal: HotkeySignal) -> RuntimeMode {
    match signal {
        HotkeySignal::ToggleAutoReverse => RuntimeMode::AutoReverse,
        HotkeySignal::ToggleRefreshKeep => RuntimeMode::RefreshKeep,
    }
}

/// The text shown for a status.
pub open spec fn status_label(status: RuntimeStatus) -> Seq<char> {
    match status {
        RuntimeStatus::Idle => seq!['空', '闲'],
        RuntimeStatus::Starting => seq!['启', '动', '中'],
        RuntimeStatus::Running(RuntimeMode::AutoReverse) => seq![
            '自', '动', '倒', '转', '运', '行', '中'
        ],
        RuntimeStatus::Running(RuntimeMode::RefreshKeep) => seq![
            '刷', '新', '保', '留', '运', '行', '中'
        ],
        RuntimeStatus::Stopping => seq!['停', '止', '中'],
        RuntimeStatus::ScanDebugging => seq!['扫', '描', '中'],
        RuntimeStatus::Error => seq!['错', '误'],
    }
}

/// The text shown for a status.
pub fn status_text(status: RuntimeStatus) -> (s: &'static str)
    ensures
        s@ == status_label(status),
{
    match status {
        RuntimeStatus::Idle => {
            let s = "空闲";
            proof {
                reveal_strlit("空闲");
            }
            assert(s@ =~= status_label(status));
            s
        },
        RuntimeStatus::Starting => {
            let s = "启动中";
            proof {
                reveal_strlit("启动中");
            }
            assert(s@ =~= status_label(status));
            s
        },
        RuntimeStatus::Running(RuntimeMode::AutoReverse) => {
            let s = "自动倒转运行中";
            proof {
                reveal_strlit("自动倒转运行中");
            }
            assert(s@ =~= status_label(status));
            s
        },
        RuntimeStatus::Running(RuntimeMode::RefreshKeep) => {
            let s = "刷新保留运行中";
            proof {
                reveal_strlit("刷新保留运行中");
            }
            assert(s@ =~= status_label(status));
            s
        },
        RuntimeStatus::Stopping => {
            let s = "停止中";
            proof {
                reveal_strlit("停止中");
            }
            assert(s@ =~= status_label(status));
            s
        },
        RuntimeStatus::ScanDebugging => {
            let s = "扫描中";
            proof {
                reveal_strlit("扫描中");
            }
            assert(s@ =~= status_label(status));
            s
        },
        RuntimeStatus::Error => {
            let s = "错误";
            proof {
                reveal_strlit("错误");
            }
            assert(s@ =~= status_label(status));
            s
        },
    }
}

/// The caption of the button of a mode: stop while that mode runs, start
/// otherwise.
pub open spec fn button_label(status: RuntimeStatus, mode: RuntimeMode) -> Seq<char> {
    match (status, mode) {
        (RuntimeStatus::Running(RuntimeMode::AutoReverse), RuntimeMode::AutoReverse) => seq![
            '停', '止', '自', '动', '倒', '转', ' ', '(', 'F', '8', ')'
        ],
        (RuntimeStatus::Running(RuntimeMode::RefreshKeep), RuntimeMode::RefreshKeep) => seq![
            '停', '止', '刷', '新', '保', '留', ' ', '(', 'F', '9', ')'
        ],
        (_, RuntimeMode::AutoReverse) => seq![
            '启', '动', '自', '动', '倒', '转', ' ', '(', 'F', '8', ')'
        ],
        (_, RuntimeMode::RefreshKeep) => seq![
            '干', '员', '道', '具', '刷', '新', '保', '留', ' ', '(', 'F', '9', ')'
        ],
    }
}

/// The caption of the button of a mode.
pub fn button_text(status: RuntimeStatus, mode: RuntimeMode) -> (s: &'static str)
    ensures
        s@ == button_label(status, mode),
{
    match (status, mode) {
        (RuntimeStatus::Running(RuntimeMode::AutoReverse), RuntimeMode::AutoReverse) => {
            let s = "停止自动倒转 (F8)";
            proof {
                reveal_strlit("停止自动倒转 (F8)");
            }
            assert(s@ =~= button_label(status, mode));
            s
        },
        (RuntimeStatus::Running(RuntimeMode::RefreshKeep), RuntimeMode::RefreshKeep) => {
            let s = "停止刷新保留 (F9)";
            proof {
                reveal_strlit("停止刷新保留 (F9)");
            }
            assert(s@ =~= button_label(status, mode));
            s
        },
        (_, RuntimeMode::AutoReverse) => {
            let s = "启动自动倒转 (F8)";
            proof {
                reveal_strlit("启动自动倒转 (F8)");
            }
            assert(s@ =~= button_label(status, mode));
            s
        },
        (_, RuntimeMode::RefreshKeep) => {
            let s = "干员道具刷新保留 (F9)";
            proof {
                reveal_strlit("干员道具刷新保留 (F9)");
            }
            assert(s@ =~= button_label(status, mode));
            s
        },
    }
}

/// Whether the button of a mode can be pressed: to stop that mode while it
/// runs, or to start it while nothing runs (idle or after an error).
pub open spec fn button_enabled(status: RuntimeStatus, mode: RuntimeMode) -> bool {
    status == RuntimeStatus::Running(mode) || status == RuntimeStatus::Idle || status
        == RuntimeStatus::Error
}

/// The toggle the button of a mode sends, when it can be pressed.
pub fn button_action(status: RuntimeStatus, mode: RuntimeMode) -> (r: Option<RuntimeMode>)
    ensures
        r is Some <==> button_enabled(status, mode),
        r matches Some(m) ==> m == mode,
{
    match (status, mode) {
        (RuntimeStatus::Running(RuntimeMode::AutoReverse), RuntimeMode::AutoReverse) => Some(mode),
        (RuntimeStatus::Running(RuntimeMode::RefreshKeep), RuntimeMode::RefreshKeep) => Some(mode),
        (RuntimeStatus::Idle, _) => Some(mode),
        (RuntimeStatus::Error, _) => Some(mode),
        _ => None,
    }
}

/// Whether the scan button can be pressed: only while nothing runs.
pub fn scan_enabled(status: RuntimeStatus) -> (b: bool)
    ensures
        b == (status == RuntimeStatus::Idle || status == RuntimeStatus::Error),
{
    matches!(status, RuntimeStatus::Idle | RuntimeStatus::Error)
}

/// An event of the interface that changes the runtime status.
#[derive(Debug, Clone, Copy, PartialEq, Eq)]
pub enum UiEvent {
    /// The button or hotkey of a mode.
    Toggle(RuntimeMode),
    /// Starting a mode finished, well or not.
    Started { ok: bool, mode: RuntimeMode },
    /// Stopping finished, well or not.
    Stopped { ok: bool },
    /// The scan button.
    ScanRequested,
    /// A scan finished, well or not.
    ScanCompleted { ok: bool },
    /// The periodic tick: the mode the runtime runs in, if it runs, and the
    /// first hotkey pressed since the last tick.
    Tick { running: Option<RuntimeMode>, hotkey: Option<HotkeySignal> },
}

/// What the interface has to do after an event.
#[derive(Debug, Clone, Copy, PartialEq, Eq)]
pub enum UiEffect {
    Nothing,
    StopRuntime,
    StartRuntime(RuntimeMode),
    StartScan,
}

/// A toggle: it stops the mode while that mode runs, starts it while
/// nothing runs, and is ignored otherwise.
pub open spec fn toggle_transition(status: RuntimeStatus, mode: RuntimeMode) -> (RuntimeStatus, UiEffect) {
    if status == RuntimeStatus::Running(mode) {
        (RuntimeStatus::Stopping, UiEffect::StopRuntime)
    } else if status == RuntimeStatus::Idle || status == RuntimeStatus::Error {
        (RuntimeStatus::Starting, UiEffect::StartRuntime(mode))
    } else {
        (status, UiEffect::Nothing)
    }
}

/// The status a tick reports: running in the runtime's mode; back to idle
/// when the runtime stopped by itself.
pub open spec fn tick_status(status: RuntimeStatus, running: Option<RuntimeMode>) -> RuntimeStatus {
    match running {
        Some(m) => RuntimeStatus::Running(m),
        None => if status is Running {
            RuntimeStatus::Idle
        } else {
            status
        },
    }
}

/// The status after an event and what is to be done.
pub open spec fn ui_transition(status: RuntimeStatus, event: UiEvent) -> (RuntimeStatus, UiEffect) {
    match event {
        UiEvent::Toggle(mode) => toggle_transition(status, mode),
        UiEvent::Started { ok, mode } => if ok {
            (RuntimeStatus::Running(mode), UiEffect::Nothing)
        } else {
            (RuntimeStatus::Error, UiEffect::Nothing)
        },
        UiEvent::Stopped { ok } => if ok {
            (RuntimeStatus::Idle, UiEffect::Nothing)
        } else {
            (RuntimeStatus::Error, UiEffect::Nothing)
        },
        UiEvent::ScanRequested => if status == RuntimeStatus::Idle || status == RuntimeStatus::Error {
            (RuntimeStatus::ScanDebugging, UiEffect::StartScan)
        } else {
            (status, UiEffect::Nothing)
        },
        UiEvent::ScanCompleted { ok } => if ok {
            (RuntimeStatus::Idle, UiEffect::Nothing)
        } else {
            (RuntimeStatus::Error, UiEffect::Nothing)
        },
        UiEvent::Tick { running, hotkey } => {
            let after = tick_status(status, running);
            match hotkey {
                Some(signal) => toggle_transition(after, hotkey_mode(signal)),
                None => (after, UiEffect::Nothing),
            }
        },
    }
}

fn toggle(status: RuntimeStatus, mode: RuntimeMode) -> (r: (RuntimeStatus, UiEffect))
    ensures
        r == toggle_transition(status, mode),
{
    let running_this = match (status, mode) {
        (RuntimeStatus::Running(RuntimeMode::AutoReverse), RuntimeMode::AutoReverse) => true,
        (RuntimeStatus::Running(RuntimeMode::RefreshKeep), RuntimeMode::RefreshKeep) => true,
        _ => false,
    };
    if running_this {
        (RuntimeStatus::Stopping, UiEffect::StopRuntime)
    } else if matches!(status, RuntimeStatus::Idle | RuntimeStatus::Error) {
        (RuntimeStatus::Starting, UiEffect::StartRuntime(mode))
    } else {
        (status, UiEffect::Nothing)
    }
}

/// Decides the status after an interface event and what is to be done.
pub fn next_status(status: RuntimeStatus, event: UiEvent) -> (r: (RuntimeStatus, UiEffect))
    ensures
        r == ui_transition(status, event),
{
    match event {
        UiEvent::Toggle(mode) => toggle(status, mode),
        UiEvent::Started { ok, mode } => if ok {
            (RuntimeStatus::Running(mode), UiEffect::Nothing)
        } else {
            (RuntimeStatus::Error, UiEffect::Nothing)
        },
        UiEvent::Stopped { ok } => if ok {
            (RuntimeStatus::Idle, UiEffect::Nothing)
        } else {
            (RuntimeStatus::Error, UiEffect::Nothing)
        },
        UiEvent::ScanRequested => if matches!(status, RuntimeStatus::Idle | RuntimeStatus::Error) {
            (RuntimeStatus::ScanDebugging, UiEffect::StartScan)
        } else {
            (status, UiEffect::Nothing)
        },
        UiEvent::ScanCompleted { ok } => if ok {
            (RuntimeStatus::Idle, UiEffect::Nothing)
        } else {
            (RuntimeStatus::Error, UiEffect::Nothing)
        },
        UiEvent::Tick { running, hotkey } => {
            let after = match running {
                Some(m) => RuntimeStatus::Running(m),
                None => if matches!(status, RuntimeStatus::Running(_)) {
                    RuntimeStatus::Idle
                } else {
                    status
                },
            };
            match hotkey {
                Some(HotkeySignal::ToggleAutoReverse) => toggle(after, RuntimeMode::AutoReverse),
                Some(HotkeySignal::ToggleRefreshKeep) => toggle(after, RuntimeMode::RefreshKeep),
                None => (after, UiEffect::Nothing),
            }
        },
    }
}

/// A mode's button can be pressed exactly when toggling that mode does
/// something.
pub proof fn lemma_button_matches_toggle(status: RuntimeStatus, mode: RuntimeMode)
    ensures
        button_enabled(status, mode) <==> toggle_transition(status, mode).1 != UiEffect::Nothing,
{
}

/// The runtime is only ever started from a status where nothing runs, and
/// the interface then shows it as starting; a stop is only asked of the mode
/// that runs.
pub proof fn lemma_start_only_when_free(status: RuntimeStatus, event: UiEvent)
    ensures
        ui_transition(status, event).1 is StartRuntime ==> ui_transition(status, event).0
            == RuntimeStatus::Starting,
        ui_transition(status, event).1 is StartRuntime && !(event is Tick) ==> (status
            == RuntimeStatus::Idle || status == RuntimeStatus::Error),
        ui_transition(status, event).1 == UiEffect::StopRuntime ==> ui_transition(status, event).0
            == RuntimeStatus::Stopping,
{
}

/// A failed start or stop always leaves the interface in the error status,
/// from which both modes can be started again.
pub proof fn lemma_failures_recoverable(status: RuntimeStatus, mode: RuntimeMode, ok: bool)
    ensures
        !ok ==> ui_transition(status, UiEvent::Started { ok, mode }).0 == RuntimeStatus::Error,
        !ok ==> ui_transition(status, UiEvent::Stopped { ok }).0 == RuntimeStatus::Error,
        button_enabled(RuntimeStatus::Error, RuntimeMode::AutoReverse),
        button_enabled(RuntimeStatus::Error, RuntimeMode::RefreshKeep),
{
}

/// F8 and F9 toggle their mode: pressed while that mode runs, the runtime is
/// stopped; pressed while nothing runs (or after an error), the mode starts.
pub proof fn lemma_hotkeys_toggle(status: RuntimeStatus, running: Option<RuntimeMode>, signal: HotkeySignal)
    ensures
        running == Some(hotkey_mode(signal)) ==> ui_transition(
            status,
            UiEvent::Tick { running, hotkey: Some(signal) },
        ) == (RuntimeStatus::Stopping, UiEffect::StopRuntime),
        running is None && (status == RuntimeStatus::Idle || status == RuntimeStatus::Error
            || status is Running) ==> ui_transition(
            status,
            UiEvent::Tick { running, hotkey: Some(signal) },
        ) == (RuntimeStatus::Starting, UiEffect::StartRuntime(hotkey_mode(signal))),
{
}

/// The text shown for a recognised value: `(空)` when it is blank.
pub open spec fn shown_text(value: Seq<char>) -> Seq<char> {
    if trim(value).len() == 0 {
        seq!['(', '空', ')']
    } else {
        value
    }
}

/// The text shown for a recognised value.
pub fn display_text(value: &str) -> (s: String)
    ensures
        s@ == shown_text(value@),
{
    let v = chars_of(value);
    if trim_chars(&v).len() == 0 {
        let e = "(空)";
        proof {
            reveal_strlit("(空)");
        }
        assert(e@ =~= seq!['(', '空', ')']);
        String::from_str(e)
    } else {
        String::from_str(value)
    }
}

/// How many preset check boxes fit in a row of a window that many pixels
/// wide.
pub open spec fn preset_columns_for(width: u32) -> usize {
    if width >= 1500 {
        4
    } else if width >= 1180 {
        3
    } else if width >= 860 {
        2
    } else {
        1
    }
}

/// The number of preset columns for a window width in whole pixels.
pub fn preset_columns(width: u32) -> (n: usize)
    ensures
        n == preset_columns_for(width),
{
    if width >= 1500 {
        4
    } else if width >= 1180 {
        3
    } else if width >= 860 {
        2
    } else {
        1
    }
}

/// Whether the configuration and results are shown side by side: in windows
/// at least 1380 pixels wide.
pub fn uses_wide_layout(width: u32) -> (b: bool)
    ensures
        b == (width >= 1380),
{
    width >= 1380
}

/// A list after a preset is ticked (added at the end unless present) or
/// unticked (every occurrence removed).
pub open spec fn preset_toggled(list: Seq<Seq<char>>, value: Seq<char>, checked: bool) -> Seq<
    Seq<char>,
> {
    if checked {
        if list.contains(value) {
            list
        } else {
            list.push(value)
        }
    } else {
        list.filter(|item: Seq<char>| item != value)
    }
}

/// Ticks or unticks a preset in a name list.
pub fn apply_preset_toggle(list: &Vec<String>, value: &String, checked: bool) -> (r: Vec<String>)
    ensures
        string_views(r@) == preset_toggled(string_views(list@), value@, checked),
{
    let ghost views = string_views(list@);
    let mut out: Vec<String> = Vec::new();
    let mut found = false;
    let mut i: usize = 0;
    proof {
        reveal(Seq::filter);
    }
    assert(views.subrange(0, 0).filter(|item: Seq<char>| item != value@) =~= Seq::<Seq<char>>::empty());
    while i < list.len()
        invariant
            i <= list@.len(),
            views == string_views(list@),
            found == views.subrange(0, i as int).contains(value@),
            checked ==> string_views(out@) == views.subrange(0, i as int),
            !checked ==> string_views(out@) == views.subrange(0, i as int).filter(
                |item: Seq<char>| item != value@,
            ),
        decreases list@.len() - i,
    {
        let item = list[i].clone();
        let same = item == *value;
        let ghost before = string_views(out@);
        proof {
            reveal(Seq::filter);
            assert(views.subrange(0, i + 1).drop_last() =~= views.subrange(0, i as int));
            assert(views[i as int] == item@);
            if views.subrange(0, i + 1).contains(value@) {
                let j = choose|j: int| 0 <= j < i + 1 && #[trigger] views.subrange(0, i + 1)[j] == value@;
                if j < i {
                    assert(views.subrange(0, i as int)[j] == value@);
                }
            }
            if views.subrange(0, i as int).contains(value@) {
                let j = choose|j: int| 0 <= j < i && #[trigger] views.subrange(0, i as int)[j] == value@;
                assert(views.subrange(0, i + 1)[j] == value@);
            }
            if same {
                assert(views.subrange(0, i + 1)[i as int] == value@);
            }
        }
        if same {
            found = true;
        }
        if checked || !same {
            out.push(item);
            assert(string_views(out@) =~= before.push(views[i as int]));
        }
        i = i + 1;
    }
    assert(views.subrange(0, views.len() as int) =~= views);
    if checked && !found {
        let ghost before = string_views(out@);
        out.push(value.clone());
        assert(string_views(out@) =~= before.push(value@));
    }
    out
}

} // verus!
