//! What each key does.

use uncia::tui::app::{App, KeyCode, Tab};
use uncia::{Drift, DriftKind, DriftReport, ResourceId, Severity};

fn drift(address: &str) -> Drift {
    Drift {
        resource: ResourceId(address.to_string()),
        kind: DriftKind::Missing,
        severity: Severity::Critical,
    }
}

fn app_with(n: usize) -> App {
    let report = DriftReport {
        drifts: (0..n).map(|i| drift(&format!("r{i}"))).collect(),
        ..Default::default()
    };
    App::new("state.json".to_string(), report)
}

#[test]
fn tab_cycles_forward_and_wraps() {
    let mut app = app_with(1);
    assert_eq!(app.tab, Tab::Drifts);
    app.on_key(KeyCode::Tab);
    assert_eq!(app.tab, Tab::Unresolved);
    app.on_key(KeyCode::Tab);
    assert_eq!(app.tab, Tab::Unjoinable);
    app.on_key(KeyCode::Tab);
    assert_eq!(app.tab, Tab::Drifts, "wraps back to the first tab");
}

#[test]
fn tab_cycles_backward_and_wraps() {
    let mut app = app_with(1);
    app.on_key(KeyCode::BackTab);
    assert_eq!(
        app.tab,
        Tab::Unjoinable,
        "wraps to the last tab going backward"
    );
}

#[test]
fn quit_keys_set_should_quit() {
    let mut app = app_with(1);
    assert!(!app.should_quit);
    app.on_key(KeyCode::Char('q'));
    assert!(app.should_quit);

    let mut app = app_with(1);
    app.on_key(KeyCode::Esc);
    assert!(app.should_quit);
}

#[test]
fn selection_starts_at_the_first_drift() {
    let app = app_with(3);
    assert_eq!(app.drift_list.selected(), Some(0));
    assert_eq!(app.selected_drift().unwrap().resource.0, "r0");
}

#[test]
fn selection_clamps_at_the_last_drift() {
    let mut app = app_with(2);
    app.on_key(KeyCode::Down);
    assert_eq!(app.selected_drift().unwrap().resource.0, "r1");
    app.on_key(KeyCode::Down);
    assert_eq!(
        app.selected_drift().unwrap().resource.0,
        "r1",
        "stays on the last item rather than going out of bounds"
    );
}

#[test]
fn selection_clamps_at_the_first_drift() {
    let mut app = app_with(2);
    app.on_key(KeyCode::Up);
    assert_eq!(
        app.selected_drift().unwrap().resource.0,
        "r0",
        "stays on the first item rather than going negative"
    );
}

#[test]
fn an_empty_drift_list_has_no_selection() {
    let mut app = app_with(0);
    assert_eq!(app.drift_list.selected(), None);
    assert!(app.selected_drift().is_none());
    app.on_key(KeyCode::Down);
    assert_eq!(app.drift_list.selected(), None, "no drifts to select");
}

#[test]
fn arrow_keys_are_ignored_outside_the_drifts_tab() {
    let mut app = app_with(3);
    app.on_key(KeyCode::Tab);
    assert_eq!(app.tab, Tab::Unresolved);
    app.on_key(KeyCode::Down);
    assert_eq!(
        app.drift_list.selected(),
        Some(0),
        "selection is scoped to the Drifts tab"
    );
}

#[test]
fn the_keys_j_and_k_move_like_the_arrows() {
    let mut app = app_with(3);
    app.on_key(KeyCode::Char('j'));
    app.on_key(KeyCode::Char('j'));
    assert_eq!(app.drift_list.selected(), Some(2));
    app.on_key(KeyCode::Char('k'));
    assert_eq!(app.drift_list.selected(), Some(1));
    app.on_key(KeyCode::Char('x'));
    app.on_key(KeyCode::Other);
    assert_eq!(app.drift_list.selected(), Some(1));
    assert!(!app.should_quit);
}

#[test]
fn moving_without_a_selection_starts_at_an_end() {
    let mut app = app_with(3);
    app.drift_list.select(None);
    app.on_key(KeyCode::Down);
    assert_eq!(app.drift_list.selected(), Some(0));
    app.drift_list.select(None);
    app.on_key(KeyCode::Up);
    assert_eq!(app.drift_list.selected(), Some(2));
}

#[test]
fn a_selection_past_the_end_comes_back() {
    let mut app = app_with(2);
    app.drift_list.select(Some(usize::MAX));
    assert!(app.selected_drift().is_none());
    app.on_key(KeyCode::Down);
    assert_eq!(app.drift_list.selected(), Some(1));
}

#[test]
fn tabs_lead_round_in_both_directions() {
    for tab in [Tab::Drifts, Tab::Unresolved, Tab::Unjoinable] {
        assert_eq!(tab.next().previous(), tab);
        assert_eq!(tab.previous().next(), tab);
        assert_eq!(tab.next().next().next(), tab);
    }
    assert_eq!(Tab::Unjoinable.label(), "Unjoinable");
    assert_eq!(Tab::Unjoinable.index(), 2);
}

#[test]
fn no_sequence_of_keys_leaves_the_list() {
    let mut app = app_with(2);
    for key in [
        KeyCode::Down,
        KeyCode::Down,
        KeyCode::Tab,
        KeyCode::Down,
        KeyCode::BackTab,
        KeyCode::Up,
        KeyCode::Up,
        KeyCode::Up,
    ] {
        app.on_key(key);
        assert!(app.selected_drift().is_some());
    }
}
