//! The automation engine: the decisions of one shop round, as a state
//! machine that asks for captures, recognition, clicks and key presses and
//! is told what they found.
use vstd::prelude::*;

use crate::config::{RuntimeMode, StrategyConfig, UiScale};
use crate::layout::{shop_region_index, shop_region_index_from_slot};
use crate::strategy::{
    action_key, action_view, action_views, kind_rank, plan_actions, planned_actions,
    sorted_by_key, with_key, ActionView, PlannedAction, PlannedActionKind, RecognizedCard,
};
use crate::text::string_views;

verus! {

/// The result of comparing the shop display region by region.
#[derive(Debug, Clone, Copy, PartialEq, Eq)]
pub struct ShopRefreshCheck {
    /// Whether the shop counts as refreshed.
    pub refreshed: bool,
    /// How many compared regions changed.
    pub changed: usize,
    /// How many regions were compared.
    pub checked: usize,
}

/// The number of regions among the first `n`, other than `excluded`.
pub open spec fn regions_checked(n: int, excluded: Option<usize>) -> int
    decreases n,
{
    if n <= 0 {
        0
    } else {
        regions_checked(n - 1, excluded) + if excluded == Some((n - 1) as usize) {
            0int
        } else {
            1int
        }
    }
}

/// The number of changed regions among the first `n`, other than `excluded`.
pub open spec fn regions_changed(flags: Seq<bool>, n: int, excluded: Option<usize>) -> int
    decreases n,
{
    if n <= 0 {
        0
    } else {
        regions_changed(flags, n - 1, excluded) + if excluded != Some((n - 1) as usize)
            && flags[n - 1] {
            1int
        } else {
            0int
        }
    }
}

/// The shop counts as refreshed when at least three of the compared regions
/// changed.
pub open spec fn shop_refresh_check(flags: Seq<bool>, excluded: Option<usize>) -> ShopRefreshCheck {
    let checked = regions_checked(flags.len() as int, excluded);
    let changed = regions_changed(flags, flags.len() as int, excluded);
    ShopRefreshCheck { refreshed: checked > 0 && changed >= 3, changed: changed as usize, checked: checked as usize }
}

/// Counts the changed regions of the shop display, leaving out the region
/// of the slot just bought.
pub fn eval_shop_refresh(region_changed: &[bool], excluded_region: Option<usize>) -> (r:
    ShopRefreshCheck)
    ensures
        r == shop_refresh_check(region_changed@, excluded_region),
{
    let mut changed: usize = 0;
    let mut checked: usize = 0;
    let mut i: usize = 0;
    while i < region_changed.len()
        invariant
            i <= region_changed@.len(),
            checked as int == regions_checked(i as int, excluded_region),
            changed as int == regions_changed(region_changed@, i as int, excluded_region),
            changed <= i,
            checked <= i,
        decreases region_changed@.len() - i,
    {
        let skip = match excluded_region {
            Some(e) => e == i,
            None => false,
        };
        if !skip {
            checked = checked + 1;
            if region_changed[i] {
                changed = changed + 1;
            }
        }
        i = i + 1;
    }
    ShopRefreshCheck { refreshed: checked > 0 && changed >= 3, changed, checked }
}

/// A frame the engine refers to.
#[derive(Debug, Clone, Copy, PartialEq, Eq)]
pub enum FrameSlot {
    /// The frame captured when the round was observed.
    Current,
    /// The frame captured once the screen stopped changing.
    Stable,
    /// The frame captured just before buying a buy-only operator.
    BeforeBuy,
    /// The frame captured after a purchase.
    AfterBuy,
    /// The frame captured after selling.
    AfterSell,
}

/// What the engine asks to be done next.
#[derive(Debug, Clone, Copy, PartialEq, Eq)]
pub enum EngineCommand {
    /// Capture a frame into `Current`, read whether the refresh key is held
    /// and compare the shop display with the remembered one (answer
    /// `Observed`).
    Observe,
    /// Capture until two frames in a row are alike; keep the last in `Stable`
    /// (answer `Done`).
    WaitForStability,
    /// Tell whether the hand is full in a frame (answer `HandFull`).
    CheckHandFull { frame: FrameSlot },
    /// Read the six shop slots of the `Stable` frame (answer `Scanned`).
    Scan,
    /// Double-click the price of a slot (answer `Done`).
    DoubleClick { slot: usize },
    /// Capture a frame (answer `Done`).
    CaptureFrame { frame: FrameSlot },
    /// Double-click the price of a slot, wait for the interface, capture
    /// into `AfterBuy` (answer `Done`).
    BuyAndCapture { slot: usize },
    /// Compare the shop display of `frame` with that of `baseline`, region by
    /// region, and tell whether the hand is full in `frame` (answer
    /// `Inspected`).
    InspectShop { baseline: FrameSlot, frame: FrameSlot },
    /// Find where the hand of `AfterBuy` differs from that of `Stable`
    /// (answer `HandLocated`).
    LocateHandChange,
    /// Capture again and again, until the hand change is found or the wait
    /// for stability runs out (answer `HandLocated`).
    PollHandChange,
    /// Click the changed hand card, press the sell key and capture into
    /// `AfterSell` (answer `Done`).
    SellAtHandChange,
    /// Wait between two actions (answer `Done`).
    Pause,
    /// Press the shop refresh key and forget the remembered shop (answer
    /// `Done`).
    PressRefresh,
    /// Forget the remembered shop (answer `Done`).
    ForgetShop,
    /// Remember the shop display of a frame (answer `Done`).
    RememberShop { frame: FrameSlot },
    /// Capture a frame and remember its shop display (answer `Done`).
    RememberFreshShop,
    /// The round is over.
    Finish,
}

/// What was found by carrying out a command.
#[derive(Debug, Clone)]
pub enum EngineEvent {
    Done,
    Observed { manual_refresh: bool, shop_changed: bool },
    HandFull { full: bool },
    Scanned { cards: Vec<RecognizedCard> },
    Inspected { region_changed: Vec<bool>, hand_full: bool },
    HandLocated { found: bool },
}

/// Where the engine is in a round.
#[derive(Debug, Clone, Copy, PartialEq, Eq)]
pub enum RoundStep {
    Idle,
    Observing,
    Stabilizing,
    CheckingStable,
    Scanning,
    Finishing,
    ItemBuying,
    Pausing,
    KeepCapturing,
    KeepBuying,
    KeepInspecting,
    SellBuying,
    SellInspectingBuy,
    SellLocating,
    SellPolling,
    SellSelling,
    SellCheckingHand,
    SellInspectingSell,
}

/// The engine's state as plain values: the mode of the round, the
/// configuration (its refresh-keep setting, automatic refresh, scale, lists
/// and corrections), the remembered shop, and the round in progress.
pub struct EngineState {
    pub mode: RuntimeMode,
    pub refresh_keep: bool,
    pub auto_refresh: bool,
    pub scale: UiScale,
    pub items: Seq<Seq<char>>,
    pub operators: Seq<Seq<char>>,
    pub buy_only: Seq<Seq<char>>,
    pub six_star: Seq<Seq<char>>,
    pub entries: Seq<(Seq<char>, Seq<char>)>,
    pub has_last_shop: bool,
    pub step: RoundStep,
    pub actions: Seq<ActionView>,
    pub current: int,
    pub refreshed_buy: bool,
    pub hand_full_after_buy: bool,
    pub hand_full_after_sell: bool,
    pub sell_attempts: int,
}

/// Whether an action kind is carried out in a mode: refresh-keep mode only
/// buys items and buy-only operators.
pub open spec fn kind_allowed(mode: RuntimeMode, kind: PlannedActionKind) -> bool {
    mode == RuntimeMode::AutoReverse || kind == PlannedActionKind::BuyItem || kind
        == PlannedActionKind::BuyOnlyOperator
}

/// The planned actions a mode carries out.
pub open spec fn allowed_actions(mode: RuntimeMode, s: Seq<ActionView>) -> Seq<ActionView> {
    s.filter(|a: ActionView| kind_allowed(mode, a.0))
}

/// The actions of a round: the plan for the cards, keeping only what the
/// mode carries out, ordered by key with equal keys in card order.
pub open spec fn round_actions(st: EngineState, cards: Seq<RecognizedCard>, actions: Seq<ActionView>) -> bool {
    let planned = planned_actions(cards, st.items, st.operators, st.buy_only, st.six_star, st.entries);
    &&& sorted_by_key(actions)
    &&& forall|k: (int, int, int)|
        #[trigger] with_key(actions, k) == with_key(allowed_actions(st.mode, planned), k)
}

/// The state with only the step changed.
pub open spec fn at_step(st: EngineState, step: RoundStep) -> EngineState {
    EngineState { step, ..st }
}

/// The first command of action `k` and the step it leads to.
pub open spec fn start_action(st: EngineState, k: int) -> (EngineState, EngineCommand) {
    let a = st.actions[k];
    let st1 = EngineState { current: k, ..st };
    match a.0 {
        PlannedActionKind::BuyItem => (at_step(st1, RoundStep::ItemBuying), EngineCommand::DoubleClick { slot: a.1 }),
        PlannedActionKind::BuyOnlyOperator => (
            at_step(st1, RoundStep::KeepCapturing),
            EngineCommand::CaptureFrame { frame: FrameSlot::BeforeBuy },
        ),
        _ => (
            EngineState {
                step: RoundStep::SellBuying,
                refreshed_buy: false,
                hand_full_after_buy: false,
                hand_full_after_sell: false,
                sell_attempts: 0,
                ..st1
            },
            EngineCommand::BuyAndCapture { slot: a.1 },
        ),
    }
}

/// How a round ends when nothing (more) is to be bought: refresh-keep mode
/// and the automatic refresh press the refresh key; otherwise the shop seen
/// is remembered (`frame`, or a fresh capture when there is none).
pub open spec fn end_round(st: EngineState, frame: Option<FrameSlot>) -> (EngineState, EngineCommand) {
    if st.mode == RuntimeMode::RefreshKeep || st.auto_refresh {
        (EngineState { step: RoundStep::Finishing, has_last_shop: false, ..st }, EngineCommand::PressRefresh)
    } else {
        (
            EngineState { step: RoundStep::Finishing, has_last_shop: true, ..st },
            match frame {
                Some(f) => EngineCommand::RememberShop { frame: f },
                None => EngineCommand::RememberFreshShop,
            },
        )
    }
}

/// The round is cut short after the shop refreshed.
pub open spec fn refreshed_end(st: EngineState) -> (EngineState, EngineCommand) {
    (EngineState { step: RoundStep::Finishing, has_last_shop: false, ..st }, EngineCommand::ForgetShop)
}

/// The round is over.
pub open spec fn finished(st: EngineState) -> (EngineState, EngineCommand) {
    (at_step(st, RoundStep::Idle), EngineCommand::Finish)
}

/// Whether the shop refreshed by the comparison of the current action's
/// slot, unless the hand is full (a full hand greys the interface out).
pub open spec fn refresh_seen(st: EngineState, flags: Seq<bool>, hand_full: bool) -> bool {
    shop_refresh_check(flags, shop_region_index(st.actions[st.current].1, st.scale)).refreshed
        && !hand_full
}

/// One step of the engine: from `st`, told `e`, the engine moves to `next`
/// and asks for `cmd`. Any answer that does not fit the step ends the round.
pub open spec fn engine_step(st: EngineState, e: EngineEvent, next: EngineState, cmd: EngineCommand) -> bool {
    match (st.step, e) {
        (RoundStep::Observing, EngineEvent::Observed { manual_refresh, shop_changed }) => {
            if manual_refresh || !st.has_last_shop || shop_changed {
                (next, cmd) == (at_step(st, RoundStep::Stabilizing), EngineCommand::WaitForStability)
            } else {
                (next, cmd) == finished(st)
            }
        },
        (RoundStep::Stabilizing, EngineEvent::Done) => (next, cmd) == (
            at_step(st, RoundStep::CheckingStable),
            EngineCommand::CheckHandFull { frame: FrameSlot::Stable },
        ),
        (RoundStep::CheckingStable, EngineEvent::HandFull { full }) => {
            if full {
                (next, cmd) == (
                    EngineState { step: RoundStep::Finishing, has_last_shop: true, ..st },
                    EngineCommand::RememberShop { frame: FrameSlot::Stable },
                )
            } else {
                (next, cmd) == (at_step(st, RoundStep::Scanning), EngineCommand::Scan)
            }
        },
        (RoundStep::Scanning, EngineEvent::Scanned { cards }) => {
            &&& round_actions(st, cards@, next.actions)
            &&& {
                let st1 = EngineState { actions: next.actions, ..st };
                if next.actions.len() == 0 {
                    (next, cmd) == end_round(st1, Some(FrameSlot::Current))
                } else {
                    (next, cmd) == start_action(st1, 0)
                }
            }
        },
        (RoundStep::ItemBuying, EngineEvent::Done) => (next, cmd) == (
            at_step(st, RoundStep::Pausing),
            EngineCommand::Pause,
        ),
        (RoundStep::KeepCapturing, EngineEvent::Done) => (next, cmd) == (
            at_step(st, RoundStep::KeepBuying),
            EngineCommand::BuyAndCapture { slot: st.actions[st.current].1 },
        ),
        (RoundStep::KeepBuying, EngineEvent::Done) => (next, cmd) == (
            at_step(st, RoundStep::KeepInspecting),
            EngineCommand::InspectShop { baseline: FrameSlot::BeforeBuy, frame: FrameSlot::AfterBuy },
        ),
        (RoundStep::KeepInspecting, EngineEvent::Inspected { region_changed, hand_full }) => {
            if refresh_seen(st, region_changed@, hand_full) {
                (next, cmd) == refreshed_end(st)
            } else {
                (next, cmd) == (at_step(st, RoundStep::Pausing), EngineCommand::Pause)
            }
        },
        (RoundStep::SellBuying, EngineEvent::Done) => (next, cmd) == (
            at_step(st, RoundStep::SellInspectingBuy),
            EngineCommand::InspectShop { baseline: FrameSlot::Stable, frame: FrameSlot::AfterBuy },
        ),
        (RoundStep::SellInspectingBuy, EngineEvent::Inspected { region_changed, hand_full }) => (
        next,
        cmd,
        ) == (
            EngineState {
                step: RoundStep::SellLocating,
                refreshed_buy: refresh_seen(st, region_changed@, hand_full),
                hand_full_after_buy: hand_full,
                ..st
            },
            EngineCommand::LocateHandChange,
        ),
        (RoundStep::SellLocating, EngineEvent::HandLocated { found }) => {
            if found {
                (next, cmd) == (
                    EngineState { step: RoundStep::SellSelling, sell_attempts: 1, ..st },
                    EngineCommand::SellAtHandChange,
                )
            } else if st.hand_full_after_buy {
                (next, cmd) == (at_step(st, RoundStep::SellPolling), EngineCommand::PollHandChange)
            } else {
                (next, cmd) == (at_step(st, RoundStep::Pausing), EngineCommand::Pause)
            }
        },
        (RoundStep::SellPolling, EngineEvent::HandLocated { found }) => {
            if found {
                (next, cmd) == (
                    EngineState { step: RoundStep::SellSelling, sell_attempts: 1, ..st },
                    EngineCommand::SellAtHandChange,
                )
            } else {
                (next, cmd) == (at_step(st, RoundStep::Pausing), EngineCommand::Pause)
            }
        },
        (RoundStep::SellSelling, EngineEvent::Done) => (next, cmd) == (
            at_step(st, RoundStep::SellCheckingHand),
            EngineCommand::CheckHandFull { frame: FrameSlot::AfterSell },
        ),
        (RoundStep::SellCheckingHand, EngineEvent::HandFull { full }) => {
            if full && st.sell_attempts < 3 {
                (next, cmd) == (
                    EngineState {
                        step: RoundStep::SellSelling,
                        sell_attempts: st.sell_attempts + 1,
                        hand_full_after_sell: full,
                        ..st
                    },
                    EngineCommand::SellAtHandChange,
                )
            } else {
                (next, cmd) == (
                    EngineState {
                        step: RoundStep::SellInspectingSell,
                        hand_full_after_sell: full,
                        ..st
                    },
                    EngineCommand::InspectShop {
                        baseline: if st.hand_full_after_buy {
                            FrameSlot::Stable
                        } else {
                            FrameSlot::AfterBuy
                        },
                        frame: FrameSlot::AfterSell,
                    },
                )
            }
        },
        (RoundStep::SellInspectingSell, EngineEvent::Inspected { region_changed, hand_full }) => {
            if st.refreshed_buy || refresh_seen(st, region_changed@, st.hand_full_after_sell) {
                (next, cmd) == refreshed_end(st)
            } else {
                (next, cmd) == (at_step(st, RoundStep::Pausing), EngineCommand::Pause)
            }
        },
        (RoundStep::Pausing, EngineEvent::Done) => {
            if st.current + 1 < st.actions.len() {
                (next, cmd) == start_action(st, st.current + 1)
            } else {
                (next, cmd) == end_round(st, None)
            }
        },
        (RoundStep::Finishing, EngineEvent::Done) => (next, cmd) == finished(st),
        _ => (next, cmd) == finished(st),
    }
}

/// The engine's invariant: while a round runs past its scan, the current
/// action exists; the sell steps only serve buy-and-sell actions, with at
/// most three attempts; refresh-keep mode plans nothing to sell.
pub open spec fn engine_inv(st: EngineState) -> bool {
    &&& 0 <= st.current
    &&& 0 <= st.sell_attempts <= 3
    &&& forall|i: int| 0 <= i < st.actions.len() ==> kind_allowed(st.mode, #[trigger] st.actions[i].0)
    &&& match st.step {
        RoundStep::Idle | RoundStep::Observing | RoundStep::Stabilizing
        | RoundStep::CheckingStable | RoundStep::Scanning | RoundStep::Finishing => true,
        _ => st.current < st.actions.len(),
    }
    &&& match st.step {
        RoundStep::ItemBuying => st.actions[st.current].0 == PlannedActionKind::BuyItem,
        RoundStep::KeepCapturing | RoundStep::KeepBuying | RoundStep::KeepInspecting =>
            st.actions[st.current].0 == PlannedActionKind::BuyOnlyOperator,
        RoundStep::SellBuying | RoundStep::SellInspectingBuy | RoundStep::SellLocating
        | RoundStep::SellPolling | RoundStep::SellSelling | RoundStep::SellCheckingHand
        | RoundStep::SellInspectingSell => {
            &&& (st.actions[st.current].0 == PlannedActionKind::BuySellOperator
                || st.actions[st.current].0 == PlannedActionKind::BuySellCheapOperator)
            &&& (st.step == RoundStep::SellSelling || st.step == RoundStep::SellCheckingHand)
                ==> 1 <= st.sell_attempts
        },
        _ => true,
    }
}

/// The automation engine: the configuration it plans with, the window it
/// drives, whether a shop display is remembered, and the round in progress.
pub struct AutoReverseEngine {
    config: StrategyConfig,
    target_hwnd: isize,
    has_last_shop: bool,
    mode: RuntimeMode,
    step: RoundStep,
    actions: Vec<PlannedAction>,
    current: usize,
    refreshed_buy: bool,
    hand_full_after_buy: bool,
    hand_full_after_sell: bool,
    sell_attempts: u8,
}

/// A copy of the configuration with the mode it runs in.
#[derive(Debug, Clone)]
pub struct EngineConfigSnapshot {
    pub strategy: StrategyConfig,
    pub mode: RuntimeMode,
}

impl AutoReverseEngine {
    /// The engine's state as plain values.
    pub closed spec fn state(&self) -> EngineState {
        EngineState {
            mode: self.mode,
            refresh_keep: self.config.refresh_keep_mode,
            auto_refresh: self.config.auto_reverse_auto_refresh,
            scale: self.config.ui_scale,
            items: string_views(self.config.item_list@),
            operators: string_views(self.config.operator_list@),
            buy_only: string_views(self.config.buy_only_operator_list@),
            six_star: string_views(self.config.six_star_list@),
            entries: self.config.ocr_correction_map.entries(),
            has_last_shop: self.has_last_shop,
            step: self.step,
            actions: action_views(self.actions@),
            current: self.current as int,
            refreshed_buy: self.refreshed_buy,
            hand_full_after_buy: self.hand_full_after_buy,
            hand_full_after_sell: self.hand_full_after_sell,
            sell_attempts: self.sell_attempts as int,
        }
    }

    /// The window the engine presses keys in.
    pub closed spec fn window(&self) -> isize {
        self.target_hwnd
    }

    /// An idle engine that remembers no shop.
    pub fn new(config: StrategyConfig, target_hwnd: isize) -> (e: Self)
        ensures
            e.state().step == RoundStep::Idle,
            !e.state().has_last_shop,
            e.state().mode == RuntimeMode::AutoReverse,
            e.state().actions.len() == 0,
            e.state().items == string_views(config.item_list@),
            e.state().operators == string_views(config.operator_list@),
            e.state().buy_only == string_views(config.buy_only_operator_list@),
            e.state().six_star == string_views(config.six_star_list@),
            e.state().entries == config.ocr_correction_map.entries(),
            e.state().refresh_keep == config.refresh_keep_mode,
            e.state().auto_refresh == config.auto_reverse_auto_refresh,
            e.state().scale == config.ui_scale,
            e.window() == target_hwnd,
            engine_inv(e.state()),
    {
        let e = AutoReverseEngine {
            config,
            target_hwnd,
            has_last_shop: false,
            mode: RuntimeMode::AutoReverse,
            step: RoundStep::Idle,
            actions: Vec::new(),
            current: 0,
            refreshed_buy: false,
            hand_full_after_buy: false,
            hand_full_after_sell: false,
            sell_attempts: 0,
        };
        assert(action_views(e.actions@) =~= Seq::<ActionView>::empty());
        e
    }

    /// Whether the engine's state keeps its invariant: what `begin_round` and
    /// `advance` ask of it, and what every operation leaves behind.
    pub fn is_consistent(&self) -> (b: bool)
        ensures
            b == engine_inv(self.state()),
    {
        let n = self.actions.len();
        let mut i: usize = 0;
        while i < n
            invariant
                n == self.actions@.len(),
                i <= n,
                forall|j: int| 0 <= j < i ==> kind_allowed(self.mode, #[trigger] self.actions@[j].kind),
            decreases n - i,
        {
            let k = self.actions[i].kind;
            let allowed = match self.mode {
                RuntimeMode::AutoReverse => true,
                _ => match k {
                    PlannedActionKind::BuyItem | PlannedActionKind::BuyOnlyOperator => true,
                    _ => false,
                },
            };
            if !allowed {
                assert(action_views(self.actions@)[i as int].0 == k);
                return false;
            }
            i += 1;
        }
        assert forall|j: int| 0 <= j < action_views(self.actions@).len() implies kind_allowed(
            self.mode,
            #[trigger] action_views(self.actions@)[j].0,
        ) by {
            assert(action_views(self.actions@)[j].0 == self.actions@[j].kind);
        }
        if self.sell_attempts > 3 {
            return false;
        }
        let in_action = match self.step {
            RoundStep::Idle | RoundStep::Observing | RoundStep::Stabilizing
            | RoundStep::CheckingStable | RoundStep::Scanning | RoundStep::Finishing => false,
            _ => true,
        };
        if !in_action {
            return true;
        }
        if self.current >= n {
            return false;
        }
        let kind = self.actions[self.current].kind;
        assert(action_views(self.actions@)[self.current as int].0 == kind);
        match self.step {
            RoundStep::ItemBuying => matches!(kind, PlannedActionKind::BuyItem),
            RoundStep::KeepCapturing | RoundStep::KeepBuying | RoundStep::KeepInspecting => matches!(
                kind,
                PlannedActionKind::BuyOnlyOperator
            ),
            RoundStep::SellBuying | RoundStep::SellInspectingBuy | RoundStep::SellLocating
            | RoundStep::SellPolling | RoundStep::SellSelling | RoundStep::SellCheckingHand
            | RoundStep::SellInspectingSell => {
                let sell_kind = matches!(
                    kind,
                    PlannedActionKind::BuySellOperator | PlannedActionKind::BuySellCheapOperator
                );
                let attempts_ok = match self.step {
                    RoundStep::SellSelling | RoundStep::SellCheckingHand => self.sell_attempts >= 1,
                    _ => true,
                };
                sell_kind && attempts_ok
            },
            _ => true,
        }
    }

    /// The window the engine presses keys in.
    pub fn target_hwnd(&self) -> (h: isize)
        ensures
            h == self.window(),
    {
        self.target_hwnd
    }

    /// Replaces the configuration; the round state is kept.
    pub fn update_config(&mut self, config: StrategyConfig)
        ensures
            final(self).state() == (EngineState {
                refresh_keep: config.refresh_keep_mode,
                auto_refresh: config.auto_reverse_auto_refresh,
                scale: config.ui_scale,
                items: string_views(config.item_list@),
                operators: string_views(config.operator_list@),
                buy_only: string_views(config.buy_only_operator_list@),
                six_star: string_views(config.six_star_list@),
                entries: config.ocr_correction_map.entries(),
                ..old(self).state()
            }),
            final(self).window() == old(self).window(),
    {
        self.config = config;
    }

    /// A copy of the configuration, with the given mode.
    pub fn snapshot(&self, mode: RuntimeMode) -> (s: EngineConfigSnapshot)
        ensures
            s.mode == mode,
            string_views(s.strategy.item_list@) == self.state().items,
            string_views(s.strategy.operator_list@) == self.state().operators,
            string_views(s.strategy.buy_only_operator_list@) == self.state().buy_only,
            string_views(s.strategy.six_star_list@) == self.state().six_star,
            s.strategy.ocr_correction_map.entries() == self.state().entries,
            s.strategy.refresh_keep_mode == self.state().refresh_keep,
            s.strategy.auto_reverse_auto_refresh == self.state().auto_refresh,
            s.strategy.ui_scale == self.state().scale,
    {
        EngineConfigSnapshot {
            strategy: StrategyConfig {
                item_list: clone_strings(&self.config.item_list),
                operator_list: clone_strings(&self.config.operator_list),
                buy_only_operator_list: clone_strings(&self.config.buy_only_operator_list),
                six_star_list: clone_strings(&self.config.six_star_list),
                ocr_correction_map: self.config.ocr_correction_map.duplicate(),
                refresh_keep_mode: self.config.refresh_keep_mode,
                auto_reverse_auto_refresh: self.config.auto_reverse_auto_refresh,
                ui_scale: self.config.ui_scale,
            },
            mode,
        }
    }

    /// The left-to-right shop region of a slot under an interface scale.
    pub fn shop_region_index_from_slot(&self, slot: usize, scale: UiScale) -> (r: Option<usize>)
        ensures
            r == shop_region_index(slot, scale),
    {
        shop_region_index_from_slot(slot, scale)
    }
}

/// A copy of a list of strings.
pub fn clone_strings(v: &Vec<String>) -> (r: Vec<String>)
    ensures
        string_views(r@) == string_views(v@),
{
    let mut r: Vec<String> = Vec::new();
    let mut i: usize = 0;
    while i < v.len()
        invariant
            i <= v@.len(),
            string_views(r@) == string_views(v@).subrange(0, i as int),
        decreases v@.len() - i,
    {
        let s = v[i].clone();
        let ghost before = r@;
        r.push(s);
        assert(string_views(r@) =~= string_views(before).push(v@[i as int]@));
        i = i + 1;
        assert(string_views(r@) =~= string_views(v@).subrange(0, i as int));
    }
    assert(string_views(v@).subrange(0, v@.len() as int) =~= string_views(v@));
    r
}

/// Whether the actions of a rank are carried out in a mode.
pub open spec fn rank_allowed(mode: RuntimeMode, rank: int) -> bool {
    mode == RuntimeMode::AutoReverse || rank == 0 || rank == 1
}

proof fn lemma_with_key_allowed(s: Seq<ActionView>, mode: RuntimeMode, k: (int, int, int))
    ensures
        with_key(allowed_actions(mode, s), k) == if rank_allowed(mode, k.0) {
            with_key(s, k)
        } else {
            Seq::<ActionView>::empty()
        },
    decreases s.len(),
{
    reveal(Seq::filter);
    if s.len() > 0 {
        lemma_with_key_allowed(s.drop_last(), mode, k);
        let x = s.last();
        assert(kind_allowed(mode, x.0) == rank_allowed(mode, kind_rank(x.0)));
        if kind_allowed(mode, x.0) {
            assert(allowed_actions(mode, s) == allowed_actions(mode, s.drop_last()).push(x));
            assert(allowed_actions(mode, s).drop_last() =~= allowed_actions(mode, s.drop_last()));
        } else {
            assert(allowed_actions(mode, s) == allowed_actions(mode, s.drop_last()));
        }
        assert(s.drop_last().push(x) =~= s);
        lemma_with_key_push_local(s.drop_last(), x, k);
        lemma_with_key_push_local(allowed_actions(mode, s.drop_last()), x, k);
    } else {
        assert(allowed_actions(mode, s) =~= s);
        assert(with_key(s, k) =~= Seq::<ActionView>::empty());
    }
}

proof fn lemma_with_key_push_local(s: Seq<ActionView>, x: ActionView, k: (int, int, int))
    ensures
        with_key(s.push(x), k) == if action_key(x) == k {
            with_key(s, k).push(x)
        } else {
            with_key(s, k)
        },
{
    reveal(Seq::filter);
    assert(s.push(x).drop_last() =~= s);
}

proof fn lemma_sorted_push(before: Seq<ActionView>, x: ActionView)
    requires
        sorted_by_key(before),
        forall|j: int| 0 <= j < before.len() ==> crate::strategy::action_key_le(#[trigger] before[j], x),
    ensures
        sorted_by_key(before.push(x)),
{
    let after = before.push(x);
    assert forall|i: int, j: int| 0 <= i < j < after.len() implies crate::strategy::action_key_le(
        #[trigger] after[i],
        #[trigger] after[j],
    ) by {
        assert(after[i] == before[i]);
        if j < before.len() {
            assert(after[j] == before[j]);
        }
    }
}

/// The actions that a mode carries out, in their order.
fn retain_allowed(v: Vec<PlannedAction>, mode: RuntimeMode) -> (r: Vec<PlannedAction>)
    ensures
        action_views(r@) == allowed_actions(mode, action_views(v@)),
        sorted_by_key(action_views(v@)) ==> sorted_by_key(action_views(r@)),
{
    let ghost v0 = v@;
    let ghost orig = action_views(v@);
    let ghost sorted = sorted_by_key(orig);
    let mut rest = v;
    let mut out: Vec<PlannedAction> = Vec::new();
    let ghost mut c: int = 0;
    proof {
        reveal(Seq::filter);
        assert(orig.subrange(0, 0) =~= Seq::<ActionView>::empty());
        assert(action_views(out@) =~= Seq::<ActionView>::empty());
        assert(rest@ =~= v0.subrange(0, v0.len() as int));
    }
    while rest.len() > 0
        invariant
            0 <= c <= v0.len(),
            orig == action_views(v0),
            orig.len() == v0.len(),
            sorted == sorted_by_key(orig),
            rest@ == v0.subrange(c, v0.len() as int),
            action_views(out@) == allowed_actions(mode, orig.subrange(0, c)),
            sorted ==> sorted_by_key(action_views(out@)),
            sorted ==> forall|j: int|
                0 <= j < out@.len() && c < orig.len() ==> crate::strategy::action_key_le(
                    #[trigger] action_views(out@)[j],
                    orig[c],
                ),
        decreases rest@.len(),
    {
        let ghost before_out = action_views(out@);
        let ghost before_rest = rest@;
        let a = rest.remove(0);
        let ghost x = action_view(a);
        proof {
            assert(a == v0[c]);
            assert(x == orig[c]);
            assert(rest@ =~= v0.subrange(c + 1, v0.len() as int));
            reveal(Seq::filter);
            assert(orig.subrange(0, c + 1).drop_last() =~= orig.subrange(0, c));
        }
        let keep = match mode {
            RuntimeMode::AutoReverse => true,
            RuntimeMode::RefreshKeep => match a.kind {
                PlannedActionKind::BuyItem => true,
                PlannedActionKind::BuyOnlyOperator => true,
                _ => false,
            },
        };
        assert(keep == kind_allowed(mode, x.0));
        if keep {
            out.push(a);
            assert(action_views(out@) =~= before_out.push(x));
            proof {
                if sorted {
                    lemma_sorted_push(before_out, x);
                }
            }
        }
        proof {
            if sorted && c + 1 < orig.len() {
                assert(crate::strategy::action_key_le(orig[c], orig[c + 1]));
                assert forall|j: int| 0 <= j < out@.len() implies crate::strategy::action_key_le(
                    #[trigger] action_views(out@)[j],
                    orig[c + 1],
                ) by {
                    if keep && j == before_out.len() {
                        assert(action_views(out@)[j] == x);
                    } else {
                        assert(action_views(out@)[j] == before_out[j]);
                    }
                }
            }
            c = c + 1;
        }
    }
    assert(orig.subrange(0, orig.len() as int) =~= orig);
    out
}

impl AutoReverseEngine {
    /// Starts a round in the given mode: the plan of the last round is
    /// dropped and the frame is observed.
    pub fn begin_round(&mut self, mode: RuntimeMode) -> (cmd: EngineCommand)
        requires
            engine_inv(old(self).state()),
        ensures
            cmd == EngineCommand::Observe,
            final(self).state() == (EngineState {
                mode,
                step: RoundStep::Observing,
                actions: Seq::empty(),
                current: 0,
                sell_attempts: 0,
                ..old(self).state()
            }),
            engine_inv(final(self).state()),
            final(self).window() == old(self).window(),
    {
        self.mode = mode;
        self.step = RoundStep::Observing;
        self.actions = Vec::new();
        self.current = 0;
        self.sell_attempts = 0;
        assert(action_views(self.actions@) =~= Seq::<ActionView>::empty());
        EngineCommand::Observe
    }

    fn start_action_at(&mut self, k: usize) -> (cmd: EngineCommand)
        requires
            k < old(self).actions@.len(),
        ensures
            (final(self).state(), cmd) == start_action(old(self).state(), k as int),
            final(self).target_hwnd == old(self).target_hwnd,
    {
        self.current = k;
        let kind = self.actions[k].kind;
        let slot = self.actions[k].slot;
        match kind {
            PlannedActionKind::BuyItem => {
                self.step = RoundStep::ItemBuying;
                EngineCommand::DoubleClick { slot }
            },
            PlannedActionKind::BuyOnlyOperator => {
                self.step = RoundStep::KeepCapturing;
                EngineCommand::CaptureFrame { frame: FrameSlot::BeforeBuy }
            },
            _ => {
                self.step = RoundStep::SellBuying;
                self.refreshed_buy = false;
                self.hand_full_after_buy = false;
                self.hand_full_after_sell = false;
                self.sell_attempts = 0;
                EngineCommand::BuyAndCapture { slot }
            },
        }
    }

    fn end_round_with(&mut self, frame: Option<FrameSlot>) -> (cmd: EngineCommand)
        ensures
            (final(self).state(), cmd) == end_round(old(self).state(), frame),
            final(self).target_hwnd == old(self).target_hwnd,
    {
        self.step = RoundStep::Finishing;
        let refresh = match self.mode {
            RuntimeMode::RefreshKeep => true,
            RuntimeMode::AutoReverse => self.config.auto_reverse_auto_refresh,
        };
        if refresh {
            self.has_last_shop = false;
            EngineCommand::PressRefresh
        } else {
            self.has_last_shop = true;
            match frame {
                Some(f) => EngineCommand::RememberShop { frame: f },
                None => EngineCommand::RememberFreshShop,
            }
        }
    }

    fn finish(&mut self) -> (cmd: EngineCommand)
        ensures
            (final(self).state(), cmd) == finished(old(self).state()),
            final(self).target_hwnd == old(self).target_hwnd,
    {
        self.step = RoundStep::Idle;
        EngineCommand::Finish
    }

    fn refresh_seen_now(&self, region_changed: &Vec<bool>, hand_full: bool) -> (b: bool)
        requires
            self.current < self.actions@.len(),
        ensures
            b == refresh_seen(self.state(), region_changed@, hand_full),
    {
        let slot = self.actions[self.current].slot;
        let excluded = shop_region_index_from_slot(slot, self.config.ui_scale);
        let check = eval_shop_refresh(region_changed.as_slice(), excluded);
        check.refreshed && !hand_full
    }

    fn on_scanned(&mut self, cards: Vec<RecognizedCard>) -> (cmd: EngineCommand)
        requires
            engine_inv(old(self).state()),
            old(self).state().step == RoundStep::Scanning,
        ensures
            engine_step(old(self).state(), EngineEvent::Scanned { cards }, final(self).state(), cmd),
            engine_inv(final(self).state()),
            final(self).window() == old(self).window(),
    {
        let ghost st = self.state();
        let planned = plan_actions(
            cards.as_slice(),
            self.config.item_list.as_slice(),
            self.config.operator_list.as_slice(),
            self.config.buy_only_operator_list.as_slice(),
            self.config.six_star_list.as_slice(),
            &self.config.ocr_correction_map,
        );
        let ghost planned_views = action_views(planned@);
        let actions = retain_allowed(planned, self.mode);
        proof {
            let p = planned_actions(cards@, st.items, st.operators, st.buy_only, st.six_star, st.entries);
            assert forall|k: (int, int, int)|
                #[trigger] with_key(action_views(actions@), k) == with_key(
                    allowed_actions(st.mode, p),
                    k,
                ) by {
                lemma_with_key_allowed(planned_views, st.mode, k);
                lemma_with_key_allowed(p, st.mode, k);
            }
            reveal(Seq::filter);
            planned_views.filter_lemma(|a: ActionView| kind_allowed(st.mode, a.0));
            assert forall|i: int| 0 <= i < action_views(actions@).len() implies kind_allowed(
                st.mode,
                #[trigger] action_views(actions@)[i].0,
            ) by {
                assert(allowed_actions(st.mode, planned_views)[i] == action_views(actions@)[i]);
            }
        }
        self.actions = actions;
        if self.actions.len() == 0 {
            self.end_round_with(Some(FrameSlot::Current))
        } else {
            self.start_action_at(0)
        }
    }

    fn on_done(&mut self) -> (cmd: EngineCommand)
        requires
            engine_inv(old(self).state()),
        ensures
            engine_step(old(self).state(), EngineEvent::Done, final(self).state(), cmd),
            engine_inv(final(self).state()),
            final(self).window() == old(self).window(),
    {
        match self.step {
            RoundStep::Stabilizing => {
                self.step = RoundStep::CheckingStable;
                EngineCommand::CheckHandFull { frame: FrameSlot::Stable }
            },
            RoundStep::ItemBuying => {
                self.step = RoundStep::Pausing;
                EngineCommand::Pause
            },
            RoundStep::KeepCapturing => {
                assert(self.current < self.actions@.len());
                self.step = RoundStep::KeepBuying;
                EngineCommand::BuyAndCapture { slot: self.actions[self.current].slot }
            },
            RoundStep::KeepBuying => {
                self.step = RoundStep::KeepInspecting;
                EngineCommand::InspectShop { baseline: FrameSlot::BeforeBuy, frame: FrameSlot::AfterBuy }
            },
            RoundStep::SellBuying => {
                self.step = RoundStep::SellInspectingBuy;
                EngineCommand::InspectShop { baseline: FrameSlot::Stable, frame: FrameSlot::AfterBuy }
            },
            RoundStep::SellSelling => {
                self.step = RoundStep::SellCheckingHand;
                EngineCommand::CheckHandFull { frame: FrameSlot::AfterSell }
            },
            RoundStep::Pausing => {
                let n = self.actions.len();
                assert(self.current < n);
                if n - self.current > 1 {
                    let k = self.current + 1;
                    self.start_action_at(k)
                } else {
                    self.end_round_with(None)
                }
            },
            _ => self.finish(),
        }
    }

    fn on_inspected(&mut self, region_changed: Vec<bool>, hand_full: bool) -> (cmd: EngineCommand)
        requires
            engine_inv(old(self).state()),
        ensures
            engine_step(
                old(self).state(),
                EngineEvent::Inspected { region_changed, hand_full },
                final(self).state(),
                cmd,
            ),
            engine_inv(final(self).state()),
            final(self).window() == old(self).window(),
    {
        match self.step {
            RoundStep::KeepInspecting => {
                assert(self.current < self.actions@.len());
                if self.refresh_seen_now(&region_changed, hand_full) {
                    self.step = RoundStep::Finishing;
                    self.has_last_shop = false;
                    EngineCommand::ForgetShop
                } else {
                    self.step = RoundStep::Pausing;
                    EngineCommand::Pause
                }
            },
            RoundStep::SellInspectingBuy => {
                assert(self.current < self.actions@.len());
                let seen = self.refresh_seen_now(&region_changed, hand_full);
                self.refreshed_buy = seen;
                self.hand_full_after_buy = hand_full;
                self.step = RoundStep::SellLocating;
                EngineCommand::LocateHandChange
            },
            RoundStep::SellInspectingSell => {
                assert(self.current < self.actions@.len());
                let full_sell = self.hand_full_after_sell;
                if self.refreshed_buy || self.refresh_seen_now(&region_changed, full_sell) {
                    self.step = RoundStep::Finishing;
                    self.has_last_shop = false;
                    EngineCommand::ForgetShop
                } else {
                    self.step = RoundStep::Pausing;
                    EngineCommand::Pause
                }
            },
            _ => self.finish(),
        }
    }

    fn on_hand_full(&mut self, full: bool) -> (cmd: EngineCommand)
        requires
            engine_inv(old(self).state()),
        ensures
            engine_step(old(self).state(), EngineEvent::HandFull { full }, final(self).state(), cmd),
            engine_inv(final(self).state()),
            final(self).window() == old(self).window(),
    {
        match self.step {
            RoundStep::CheckingStable => {
                if full {
                    self.step = RoundStep::Finishing;
                    self.has_last_shop = true;
                    EngineCommand::RememberShop { frame: FrameSlot::Stable }
                } else {
                    self.step = RoundStep::Scanning;
                    EngineCommand::Scan
                }
            },
            RoundStep::SellCheckingHand => {
                self.hand_full_after_sell = full;
                if full && self.sell_attempts < 3 {
                    self.step = RoundStep::SellSelling;
                    self.sell_attempts = self.sell_attempts + 1;
                    EngineCommand::SellAtHandChange
                } else {
                    self.step = RoundStep::SellInspectingSell;
                    let baseline = if self.hand_full_after_buy {
                        FrameSlot::Stable
                    } else {
                        FrameSlot::AfterBuy
                    };
                    EngineCommand::InspectShop { baseline, frame: FrameSlot::AfterSell }
                }
            },
            _ => self.finish(),
        }
    }

    fn on_hand_located(&mut self, found: bool) -> (cmd: EngineCommand)
        requires
            engine_inv(old(self).state()),
        ensures
            engine_step(old(self).state(), EngineEvent::HandLocated { found }, final(self).state(), cmd),
            engine_inv(final(self).state()),
            final(self).window() == old(self).window(),
    {
        match self.step {
            RoundStep::SellLocating => {
                if found {
                    self.step = RoundStep::SellSelling;
                    self.sell_attempts = 1;
                    EngineCommand::SellAtHandChange
                } else if self.hand_full_after_buy {
                    self.step = RoundStep::SellPolling;
                    EngineCommand::PollHandChange
                } else {
                    self.step = RoundStep::Pausing;
                    EngineCommand::Pause
                }
            },
            RoundStep::SellPolling => {
                if found {
                    self.step = RoundStep::SellSelling;
                    self.sell_attempts = 1;
                    EngineCommand::SellAtHandChange
                } else {
                    self.step = RoundStep::Pausing;
                    EngineCommand::Pause
                }
            },
            _ => self.finish(),
        }
    }

    fn on_observed(&mut self, manual_refresh: bool, shop_changed: bool) -> (cmd: EngineCommand)
        requires
            engine_inv(old(self).state()),
        ensures
            engine_step(
                old(self).state(),
                EngineEvent::Observed { manual_refresh, shop_changed },
                final(self).state(),
                cmd,
            ),
            engine_inv(final(self).state()),
            final(self).window() == old(self).window(),
    {
        match self.step {
            RoundStep::Observing => {
                if manual_refresh || !self.has_last_shop || shop_changed {
                    self.step = RoundStep::Stabilizing;
                    EngineCommand::WaitForStability
                } else {
                    self.finish()
                }
            },
            _ => self.finish(),
        }
    }

    /// Takes what the last command found and decides the next command.
    pub fn advance(&mut self, event: EngineEvent) -> (cmd: EngineCommand)
        requires
            engine_inv(old(self).state()),
        ensures
            engine_step(old(self).state(), event, final(self).state(), cmd),
            engine_inv(final(self).state()),
            final(self).window() == old(self).window(),
    {
        match event {
            EngineEvent::Done => self.on_done(),
            EngineEvent::Observed { manual_refresh, shop_changed } => self.on_observed(
                manual_refresh,
                shop_changed,
            ),
            EngineEvent::HandFull { full } => self.on_hand_full(full),
            EngineEvent::Scanned { cards } => {
                if matches!(self.step, RoundStep::Scanning) {
                    self.on_scanned(cards)
                } else {
                    self.finish()
                }
            },
            EngineEvent::Inspected { region_changed, hand_full } => self.on_inspected(
                region_changed,
                hand_full,
            ),
            EngineEvent::HandLocated { found } => self.on_hand_located(found),
        }
    }
}

/// Whether a command belongs to selling a card.
pub open spec fn is_sell_command(cmd: EngineCommand) -> bool {
    cmd == EngineCommand::LocateHandChange || cmd == EngineCommand::PollHandChange || cmd
        == EngineCommand::SellAtHandChange
}

proof fn lemma_filter_from(s: Seq<ActionView>, pred: spec_fn(ActionView) -> bool, i: int)
    requires
        0 <= i < s.filter(pred).len(),
    ensures
        s.contains(s.filter(pred)[i]),
    decreases s.len(),
{
    reveal(Seq::filter);
    if s.len() > 0 {
        let prev = s.drop_last().filter(pred);
        if pred(s.last()) && i == prev.len() {
            assert(s[s.len() - 1] == s.last());
        } else {
            s.drop_last().lemma_filter_len(pred);
            lemma_filter_from(s.drop_last(), pred, i);
            let j = choose|j: int| 0 <= j < s.drop_last().len() && s.drop_last()[j] == prev[i];
            assert(s[j] == prev[i]);
        }
    }
}

proof fn lemma_round_actions_allowed(st: EngineState, cards: Seq<RecognizedCard>, actions: Seq<ActionView>)
    requires
        round_actions(st, cards, actions),
    ensures
        forall|i: int| 0 <= i < actions.len() ==> kind_allowed(st.mode, #[trigger] actions[i].0),
{
    let planned = planned_actions(cards, st.items, st.operators, st.buy_only, st.six_star, st.entries);
    let allowed = allowed_actions(st.mode, planned);
    assert forall|i: int| 0 <= i < actions.len() implies kind_allowed(st.mode, #[trigger] actions[i].0) by {
        let x = actions[i];
        let k = action_key(x);
        let pred = |y: ActionView| action_key(y) == k;
        actions.filter_lemma(pred);
        assert(with_key(actions, k).contains(x));
        assert(with_key(allowed, k) == with_key(actions, k));
        allowed.filter_lemma(pred);
        let j = choose|j: int| 0 <= j < with_key(allowed, k).len() && with_key(allowed, k)[j] == x;
        assert(allowed.filter(pred)[j] == x);
        lemma_filter_from(allowed, pred, j);
        let m = choose|m: int| 0 <= m < allowed.len() && allowed[m] == x;
        planned.filter_lemma(|y: ActionView| kind_allowed(st.mode, y.0));
        assert(kind_allowed(st.mode, allowed[m].0));
    }
}

/// Every step keeps the engine's invariant: the current action exists while
/// actions run, the sell steps serve buy-and-sell actions with at most three
/// attempts, and refresh-keep mode holds no action that sells.
pub proof fn lemma_step_keeps_invariant(
    st: EngineState,
    e: EngineEvent,
    next: EngineState,
    cmd: EngineCommand,
)
    requires
        engine_inv(st),
        engine_step(st, e, next, cmd),
    ensures
        engine_inv(next),
{
    match (st.step, e) {
        (RoundStep::Scanning, EngineEvent::Scanned { cards }) => {
            lemma_round_actions_allowed(st, cards@, next.actions);
        },
        _ => {},
    }
}

/// In refresh-keep mode the engine never asks to locate, wait for or sell a
/// card: it only buys.
pub proof fn lemma_refresh_keep_never_sells(
    st: EngineState,
    e: EngineEvent,
    next: EngineState,
    cmd: EngineCommand,
)
    requires
        engine_inv(st),
        engine_step(st, e, next, cmd),
        st.mode == RuntimeMode::RefreshKeep,
    ensures
        !is_sell_command(cmd),
{
    if st.current < st.actions.len() {
        assert(kind_allowed(st.mode, st.actions[st.current].0));
    }
}

/// The remembered shop follows the commands: it is forgotten when the
/// refresh key is pressed or a refresh is seen, remembered when a shop
/// display is stored, and otherwise left as it was.
pub proof fn lemma_memory_follows_commands(
    st: EngineState,
    e: EngineEvent,
    next: EngineState,
    cmd: EngineCommand,
)
    requires
        engine_step(st, e, next, cmd),
    ensures
        cmd == EngineCommand::PressRefresh || cmd == EngineCommand::ForgetShop ==> !next.has_last_shop,
        cmd is RememberShop || cmd == EngineCommand::RememberFreshShop ==> next.has_last_shop,
        !(cmd == EngineCommand::PressRefresh || cmd == EngineCommand::ForgetShop || cmd is RememberShop
            || cmd == EngineCommand::RememberFreshShop) ==> next.has_last_shop == st.has_last_shop,
{
}

/// The progress measure of a round: first the steps before the scan, then
/// the actions left and the sub-step of the current action.
pub open spec fn round_measure(st: EngineState) -> (int, int) {
    let left = st.actions.len() - 1 - st.current;
    match st.step {
        RoundStep::Idle => (0, 0),
        RoundStep::Observing => (4, 0),
        RoundStep::Stabilizing => (3, 0),
        RoundStep::CheckingStable => (2, 0),
        RoundStep::Scanning => (1, 0),
        RoundStep::Finishing => (0, 0),
        RoundStep::ItemBuying => (0, 100 * left + 60),
        RoundStep::KeepCapturing => (0, 100 * left + 60),
        RoundStep::KeepBuying => (0, 100 * left + 55),
        RoundStep::KeepInspecting => (0, 100 * left + 50),
        RoundStep::SellBuying => (0, 100 * left + 60),
        RoundStep::SellInspectingBuy => (0, 100 * left + 55),
        RoundStep::SellLocating => (0, 100 * left + 50),
        RoundStep::SellPolling => (0, 100 * left + 45),
        RoundStep::SellSelling => (0, 100 * left + 10 * (4 - st.sell_attempts) + 5),
        RoundStep::SellCheckingHand => (0, 100 * left + 10 * (4 - st.sell_attempts)),
        RoundStep::SellInspectingSell => (0, 100 * left + 5),
        RoundStep::Pausing => (0, 100 * left + 1),
    }
}

/// Lexicographic order of measures.
pub open spec fn measure_less(a: (int, int), b: (int, int)) -> bool {
    a.0 < b.0 || (a.0 == b.0 && a.1 < b.1)
}

/// Every round ends: each step either ends the round or lowers the
/// measure, which never goes below zero.
pub proof fn lemma_round_progress(st: EngineState, e: EngineEvent, next: EngineState, cmd: EngineCommand)
    requires
        engine_inv(st),
        engine_step(st, e, next, cmd),
    ensures
        next.step == RoundStep::Idle || measure_less(round_measure(next), round_measure(st)),
        engine_inv(next) ==> round_measure(next).0 >= 0 && round_measure(next).1 >= 0,
{
    lemma_step_keeps_invariant(st, e, next, cmd);
}

/// Holding the refresh key when a round is observed always starts a new scan:
/// the engine waits for a still screen whatever shop it remembers.
pub proof fn lemma_manual_refresh_rescans(
    st: EngineState,
    shop_changed: bool,
    next: EngineState,
    cmd: EngineCommand,
)
    requires
        st.step == RoundStep::Observing,
        engine_step(st, EngineEvent::Observed { manual_refresh: true, shop_changed }, next, cmd),
    ensures
        next.step == RoundStep::Stabilizing,
        cmd == EngineCommand::WaitForStability,
{
}

/// An unchanged shop that the engine remembers ends the round at once,
/// unless the refresh key is held.
pub proof fn lemma_unchanged_shop_is_skipped(st: EngineState, next: EngineState, cmd: EngineCommand)
    requires
        st.step == RoundStep::Observing,
        st.has_last_shop,
        engine_step(st, EngineEvent::Observed { manual_refresh: false, shop_changed: false }, next, cmd),
    ensures
        next.step == RoundStep::Idle,
        cmd == EngineCommand::Finish,
{
}

/// The first planned action starts right after the scan: the engine buys
/// the first action's card at once; with nothing to buy the round ends, by
/// pressing refresh or remembering the shop just scanned.
pub proof fn lemma_scan_starts_first_action(
    st: EngineState,
    e: EngineEvent,
    next: EngineState,
    cmd: EngineCommand,
)
    requires
        st.step == RoundStep::Scanning,
        e is Scanned,
        engine_step(st, e, next, cmd),
    ensures
        next.actions.len() > 0 ==> {
            let a = next.actions[0];
            &&& next.current == 0
            &&& a.0 == PlannedActionKind::BuyItem ==> cmd == EngineCommand::DoubleClick { slot: a.1 }
            &&& a.0 == PlannedActionKind::BuyOnlyOperator ==> cmd == EngineCommand::CaptureFrame {
                frame: FrameSlot::BeforeBuy,
            }
            &&& (a.0 == PlannedActionKind::BuySellOperator || a.0 == PlannedActionKind::BuySellCheapOperator)
                ==> cmd == EngineCommand::BuyAndCapture { slot: a.1 }
        },
        next.actions.len() == 0 ==> next.step == RoundStep::Finishing && (cmd
            == EngineCommand::PressRefresh || cmd == EngineCommand::RememberShop {
            frame: FrameSlot::Current,
        }),
{
}

/// Every planned action is carried out: after the pause that follows action
/// `k` of a round, when there is an action `k + 1` the engine starts it at
/// once (a double click on the item's slot, a capture before buying a
/// buy-only operator, or a purchase of the operator to resell); only after
/// the last action does the round end, by pressing refresh or remembering
/// the shop.
pub proof fn lemma_pause_starts_next_action(st: EngineState, next: EngineState, cmd: EngineCommand)
    requires
        st.step == RoundStep::Pausing,
        engine_step(st, EngineEvent::Done, next, cmd),
    ensures
        st.current + 1 < st.actions.len() ==> {
            let a = st.actions[st.current + 1];
            &&& next.current == st.current + 1
            &&& next.actions == st.actions
            &&& a.0 == PlannedActionKind::BuyItem ==> cmd == EngineCommand::DoubleClick { slot: a.1 }
            &&& a.0 == PlannedActionKind::BuyOnlyOperator ==> cmd == EngineCommand::CaptureFrame {
                frame: FrameSlot::BeforeBuy,
            }
            &&& (a.0 == PlannedActionKind::BuySellOperator || a.0 == PlannedActionKind::BuySellCheapOperator)
                ==> cmd == EngineCommand::BuyAndCapture { slot: a.1 }
        },
        st.current + 1 >= st.actions.len() ==> next.step == RoundStep::Finishing && (cmd
            == EngineCommand::PressRefresh || cmd == EngineCommand::RememberFreshShop),
{
}

/// A refresh seen after buying an operator to resell is not lost: while the
/// card is located and sold, the engine keeps what the comparison after the
/// purchase found.
pub proof fn lemma_refresh_after_buy_is_kept(
    st: EngineState,
    e: EngineEvent,
    next: EngineState,
    cmd: EngineCommand,
)
    requires
        st.step == RoundStep::SellLocating || st.step == RoundStep::SellPolling || st.step
            == RoundStep::SellSelling || st.step == RoundStep::SellCheckingHand,
        engine_step(st, e, next, cmd),
    ensures
        next.refreshed_buy == st.refreshed_buy,
{
}

/// When the comparison after buying an operator to resell saw the shop
/// refresh, the inspection after the sale ends the round and forgets the
/// shop, whatever that second comparison finds: the refreshed shop is
/// scanned in the next round.
pub proof fn lemma_refresh_after_buy_ends_round(
    st: EngineState,
    e: EngineEvent,
    next: EngineState,
    cmd: EngineCommand,
)
    requires
        st.step == RoundStep::SellInspectingSell,
        st.refreshed_buy,
        e is Inspected,
        engine_step(st, e, next, cmd),
    ensures
        cmd == EngineCommand::ForgetShop,
        next.step == RoundStep::Finishing,
        !next.has_last_shop,
{
}

} // verus!
