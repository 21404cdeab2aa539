use maa_auto_reverse_rs::config::{RuntimeMode, StrategyConfig, UiScale};
use maa_auto_reverse_rs::engine::{
    eval_shop_refresh, AutoReverseEngine, EngineCommand, EngineEvent, FrameSlot,
};
use maa_auto_reverse_rs::strategy::RecognizedCard;

fn card(slot: usize, name: &str, price: i32) -> RecognizedCard {
    RecognizedCard { slot, name: name.to_string(), price }
}

fn config_with(items: &[&str], operators: &[&str], buy_only: &[&str]) -> StrategyConfig {
    let mut config = StrategyConfig::default();
    config.item_list = items.iter().map(|s| s.to_string()).collect();
    config.operator_list = operators.iter().map(|s| s.to_string()).collect();
    config.buy_only_operator_list = buy_only.iter().map(|s| s.to_string()).collect();
    config
}

fn step(engine: &mut AutoReverseEngine, event: EngineEvent) -> EngineCommand {
    assert!(engine.is_consistent());
    engine.advance(event)
}

#[test]
fn maps_slots_to_left_to_right_shop_regions() {
    let engine = AutoReverseEngine::new(StrategyConfig::default(), 0);

    assert_eq!(engine.shop_region_index_from_slot(6, UiScale::Scale90), Some(0));
    assert_eq!(engine.shop_region_index_from_slot(5, UiScale::Scale90), Some(1));
    assert_eq!(engine.shop_region_index_from_slot(4, UiScale::Scale90), Some(2));
    assert_eq!(engine.shop_region_index_from_slot(3, UiScale::Scale90), Some(3));
    assert_eq!(engine.shop_region_index_from_slot(2, UiScale::Scale90), Some(4));
    assert_eq!(engine.shop_region_index_from_slot(1, UiScale::Scale90), Some(5));
}

#[test]
fn slots_outside_one_to_six_have_no_region() {
    let engine = AutoReverseEngine::new(StrategyConfig::default(), 0);
    assert_eq!(engine.shop_region_index_from_slot(0, UiScale::Scale90), None);
    assert_eq!(engine.shop_region_index_from_slot(7, UiScale::Scale100), None);
    assert_eq!(engine.shop_region_index_from_slot(1, UiScale::Scale100), Some(5));
    assert_eq!(engine.shop_region_index_from_slot(6, UiScale::Scale100), Some(0));
}

#[test]
fn new_engine_keeps_window_and_is_consistent() {
    let engine = AutoReverseEngine::new(StrategyConfig::default(), 4242);
    assert_eq!(engine.target_hwnd(), 4242);
    assert!(engine.is_consistent());
    let snap = engine.snapshot(RuntimeMode::RefreshKeep);
    assert_eq!(snap.mode, RuntimeMode::RefreshKeep);
    assert_eq!(snap.strategy.item_list, vec!["人事部文档".to_string()]);
    assert_eq!(snap.strategy.ui_scale, UiScale::Scale90);
}

#[test]
fn update_config_replaces_lists_for_snapshots() {
    let mut engine = AutoReverseEngine::new(StrategyConfig::default(), 1);
    let mut config = config_with(&["招聘许可"], &["推进之王"], &[]);
    config.ui_scale = UiScale::Scale100;
    engine.update_config(config);
    let snap = engine.snapshot(RuntimeMode::AutoReverse);
    assert_eq!(snap.strategy.item_list, vec!["招聘许可".to_string()]);
    assert_eq!(snap.strategy.operator_list, vec!["推进之王".to_string()]);
    assert_eq!(snap.strategy.ui_scale, UiScale::Scale100);
    assert_eq!(engine.target_hwnd(), 1);
}

#[test]
fn snapshot_carries_the_refresh_keep_setting() {
    let mut engine = AutoReverseEngine::new(StrategyConfig::default(), 1);
    assert!(!engine.snapshot(RuntimeMode::AutoReverse).strategy.refresh_keep_mode);
    let mut config = StrategyConfig::default();
    config.refresh_keep_mode = true;
    engine.update_config(config);
    assert!(engine.snapshot(RuntimeMode::RefreshKeep).strategy.refresh_keep_mode);
}

#[test]
fn item_round_buys_pauses_and_remembers_the_shop() {
    let mut engine = AutoReverseEngine::new(config_with(&["人事部文档"], &[], &[]), 7);
    assert_eq!(engine.begin_round(RuntimeMode::AutoReverse), EngineCommand::Observe);
    assert_eq!(
        step(&mut engine, EngineEvent::Observed { manual_refresh: false, shop_changed: false }),
        EngineCommand::WaitForStability
    );
    assert_eq!(
        step(&mut engine, EngineEvent::Done),
        EngineCommand::CheckHandFull { frame: FrameSlot::Stable }
    );
    assert_eq!(step(&mut engine, EngineEvent::HandFull { full: false }), EngineCommand::Scan);
    let cards = vec![card(2, "人事部文档", 3), card(4, "无名之辈", 5)];
    assert_eq!(
        step(&mut engine, EngineEvent::Scanned { cards }),
        EngineCommand::DoubleClick { slot: 2 }
    );
    assert_eq!(step(&mut engine, EngineEvent::Done), EngineCommand::Pause);
    assert_eq!(step(&mut engine, EngineEvent::Done), EngineCommand::RememberFreshShop);
    assert_eq!(step(&mut engine, EngineEvent::Done), EngineCommand::Finish);

    // The shop is remembered: an unchanged shop ends the next round at once.
    assert_eq!(engine.begin_round(RuntimeMode::AutoReverse), EngineCommand::Observe);
    assert_eq!(
        step(&mut engine, EngineEvent::Observed { manual_refresh: false, shop_changed: false }),
        EngineCommand::Finish
    );
    // A manual refresh starts a round again.
    assert_eq!(engine.begin_round(RuntimeMode::AutoReverse), EngineCommand::Observe);
    assert_eq!(
        step(&mut engine, EngineEvent::Observed { manual_refresh: true, shop_changed: false }),
        EngineCommand::WaitForStability
    );
}

#[test]
fn full_hand_ends_the_round_remembering_the_stable_frame() {
    let mut engine = AutoReverseEngine::new(StrategyConfig::default(), 0);
    engine.begin_round(RuntimeMode::AutoReverse);
    step(&mut engine, EngineEvent::Observed { manual_refresh: false, shop_changed: true });
    step(&mut engine, EngineEvent::Done);
    assert_eq!(
        step(&mut engine, EngineEvent::HandFull { full: true }),
        EngineCommand::RememberShop { frame: FrameSlot::Stable }
    );
    assert_eq!(step(&mut engine, EngineEvent::Done), EngineCommand::Finish);
}

#[test]
fn refresh_keep_mode_skips_sell_operators_and_presses_refresh() {
    let mut engine = AutoReverseEngine::new(config_with(&[], &["推进之王"], &[]), 0);
    engine.begin_round(RuntimeMode::RefreshKeep);
    step(&mut engine, EngineEvent::Observed { manual_refresh: false, shop_changed: true });
    step(&mut engine, EngineEvent::Done);
    step(&mut engine, EngineEvent::HandFull { full: false });
    let cards = vec![card(3, "推进之王", 2), card(5, "杂鱼", 1)];
    assert_eq!(step(&mut engine, EngineEvent::Scanned { cards }), EngineCommand::PressRefresh);
    assert_eq!(step(&mut engine, EngineEvent::Done), EngineCommand::Finish);
}

#[test]
fn empty_scan_in_auto_reverse_remembers_the_current_frame() {
    let mut engine = AutoReverseEngine::new(StrategyConfig::default(), 0);
    engine.begin_round(RuntimeMode::AutoReverse);
    step(&mut engine, EngineEvent::Observed { manual_refresh: false, shop_changed: true });
    step(&mut engine, EngineEvent::Done);
    step(&mut engine, EngineEvent::HandFull { full: false });
    assert_eq!(
        step(&mut engine, EngineEvent::Scanned { cards: vec![] }),
        EngineCommand::RememberShop { frame: FrameSlot::Current }
    );
}

#[test]
fn automatic_refresh_presses_refresh_after_the_round() {
    let mut config = config_with(&["人事部文档"], &[], &[]);
    config.auto_reverse_auto_refresh = true;
    let mut engine = AutoReverseEngine::new(config, 0);
    engine.begin_round(RuntimeMode::AutoReverse);
    step(&mut engine, EngineEvent::Observed { manual_refresh: false, shop_changed: true });
    step(&mut engine, EngineEvent::Done);
    step(&mut engine, EngineEvent::HandFull { full: false });
    step(&mut engine, EngineEvent::Scanned { cards: vec![card(1, "人事部文档", 2)] });
    step(&mut engine, EngineEvent::Done);
    assert_eq!(step(&mut engine, EngineEvent::Done), EngineCommand::PressRefresh);
}

#[test]
fn keep_operator_refresh_is_detected_and_forgets_the_shop() {
    let mut engine = AutoReverseEngine::new(config_with(&[], &[], &["银灰"]), 0);
    engine.begin_round(RuntimeMode::RefreshKeep);
    step(&mut engine, EngineEvent::Observed { manual_refresh: false, shop_changed: true });
    step(&mut engine, EngineEvent::Done);
    step(&mut engine, EngineEvent::HandFull { full: false });
    assert_eq!(
        step(&mut engine, EngineEvent::Scanned { cards: vec![card(1, "银灰", 4)] }),
        EngineCommand::CaptureFrame { frame: FrameSlot::BeforeBuy }
    );
    assert_eq!(step(&mut engine, EngineEvent::Done), EngineCommand::BuyAndCapture { slot: 1 });
    assert_eq!(
        step(&mut engine, EngineEvent::Done),
        EngineCommand::InspectShop { baseline: FrameSlot::BeforeBuy, frame: FrameSlot::AfterBuy }
    );
    // Slot 1 is region 5, which is left out; three of the others changed.
    let region_changed = vec![true, true, true, false, false, true];
    assert_eq!(
        step(&mut engine, EngineEvent::Inspected { region_changed, hand_full: false }),
        EngineCommand::ForgetShop
    );
    assert_eq!(step(&mut engine, EngineEvent::Done), EngineCommand::Finish);
}

#[test]
fn keep_operator_without_refresh_pauses() {
    let mut engine = AutoReverseEngine::new(config_with(&[], &[], &["银灰"]), 0);
    engine.begin_round(RuntimeMode::AutoReverse);
    step(&mut engine, EngineEvent::Observed { manual_refresh: false, shop_changed: true });
    step(&mut engine, EngineEvent::Done);
    step(&mut engine, EngineEvent::HandFull { full: false });
    step(&mut engine, EngineEvent::Scanned { cards: vec![card(2, "银灰", 4)] });
    step(&mut engine, EngineEvent::Done);
    step(&mut engine, EngineEvent::Done);
    // Changes under a full hand do not count as a refresh.
    let region_changed = vec![true, true, true, true, true, true];
    assert_eq!(
        step(&mut engine, EngineEvent::Inspected { region_changed, hand_full: true }),
        EngineCommand::Pause
    );
}

#[test]
fn sell_retries_at_most_three_times() {
    let mut engine = AutoReverseEngine::new(config_with(&[], &["推进之王"], &[]), 0);
    engine.begin_round(RuntimeMode::AutoReverse);
    step(&mut engine, EngineEvent::Observed { manual_refresh: false, shop_changed: true });
    step(&mut engine, EngineEvent::Done);
    step(&mut engine, EngineEvent::HandFull { full: false });
    assert_eq!(
        step(&mut engine, EngineEvent::Scanned { cards: vec![card(3, "推进之王", 4)] }),
        EngineCommand::BuyAndCapture { slot: 3 }
    );
    assert_eq!(
        step(&mut engine, EngineEvent::Done),
        EngineCommand::InspectShop { baseline: FrameSlot::Stable, frame: FrameSlot::AfterBuy }
    );
    assert_eq!(
        step(&mut engine, EngineEvent::Inspected { region_changed: vec![false; 6], hand_full: false }),
        EngineCommand::LocateHandChange
    );
    assert_eq!(
        step(&mut engine, EngineEvent::HandLocated { found: true }),
        EngineCommand::SellAtHandChange
    );
    for _ in 0..2 {
        assert_eq!(
            step(&mut engine, EngineEvent::Done),
            EngineCommand::CheckHandFull { frame: FrameSlot::AfterSell }
        );
        assert_eq!(
            step(&mut engine, EngineEvent::HandFull { full: true }),
            EngineCommand::SellAtHandChange
        );
    }
    step(&mut engine, EngineEvent::Done);
    assert_eq!(
        step(&mut engine, EngineEvent::HandFull { full: true }),
        EngineCommand::InspectShop { baseline: FrameSlot::AfterBuy, frame: FrameSlot::AfterSell }
    );
    assert_eq!(
        step(&mut engine, EngineEvent::Inspected { region_changed: vec![false; 6], hand_full: true }),
        EngineCommand::Pause
    );
    assert_eq!(step(&mut engine, EngineEvent::Done), EngineCommand::RememberFreshShop);
}

#[test]
fn hand_not_found_after_full_hand_polls() {
    let mut engine = AutoReverseEngine::new(config_with(&[], &["推进之王"], &[]), 0);
    engine.begin_round(RuntimeMode::AutoReverse);
    step(&mut engine, EngineEvent::Observed { manual_refresh: false, shop_changed: true });
    step(&mut engine, EngineEvent::Done);
    step(&mut engine, EngineEvent::HandFull { full: false });
    step(&mut engine, EngineEvent::Scanned { cards: vec![card(3, "推进之王", 4)] });
    step(&mut engine, EngineEvent::Done);
    step(&mut engine, EngineEvent::Inspected { region_changed: vec![false; 6], hand_full: true });
    assert_eq!(
        step(&mut engine, EngineEvent::HandLocated { found: false }),
        EngineCommand::PollHandChange
    );
    assert_eq!(step(&mut engine, EngineEvent::HandLocated { found: false }), EngineCommand::Pause);
}

#[test]
fn unexpected_answer_ends_the_round() {
    let mut engine = AutoReverseEngine::new(StrategyConfig::default(), 0);
    engine.begin_round(RuntimeMode::AutoReverse);
    assert_eq!(step(&mut engine, EngineEvent::Done), EngineCommand::Finish);
    assert!(engine.is_consistent());
}

#[test]
fn shop_refresh_needs_three_changed_regions() {
    let r = eval_shop_refresh(&[true, true, true, false, false, false], Some(0));
    assert!(!r.refreshed);
    assert_eq!(r.changed, 2);
    assert_eq!(r.checked, 5);

    let r = eval_shop_refresh(&[true, true, true, false, false, false], None);
    assert!(r.refreshed);
    assert_eq!(r.changed, 3);
    assert_eq!(r.checked, 6);

    let r = eval_shop_refresh(&[], None);
    assert!(!r.refreshed);
    assert_eq!(r.checked, 0);
}
