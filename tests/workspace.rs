use hypowertools::config::Colors;
use hypowertools::workspace::{
    extra_app_count, get_workspaces, icon_lookup_name, workspace_apps, KeyOutcome, KeyPresses,
    Window, Workspace, WorkspaceSwitcher,
};

fn ws(id: i32, name: &str) -> Workspace {
    Workspace::new(id, name)
}

fn ids(s: &WorkspaceSwitcher<u32>) -> Vec<(i32, String)> {
    s.workspaces().iter().map(|w| (w.id, w.name.clone())).collect()
}

#[test]
fn poll_sorts_workspaces_by_id() {
    let mut s: WorkspaceSwitcher<u32> = WorkspaceSwitcher::new(Colors::new(None), 0);
    s.update(Some(vec![ws(2, "II"), ws(1, "I")]), Some(2), 600);
    assert_eq!(ids(&s), vec![(1, "I".to_string()), (2, "II".to_string())]);
    assert_eq!(s.current_workspace(), 2);
    assert_eq!(s.workspace_count(), 2);
}

#[test]
fn poll_result_strictly_ascending() {
    let sorted = get_workspaces(&vec![ws(5, "e"), ws(3, "c"), ws(9, "i"), ws(1, "a"), ws(4, "d")]);
    let v: Vec<i32> = sorted.iter().map(|w| w.id).collect();
    assert_eq!(v, vec![1, 3, 4, 5, 9]);
    assert!(v.windows(2).all(|p| p[0] < p[1]));
}

#[test]
fn equal_ids_keep_their_order() {
    let sorted = get_workspaces(&vec![ws(2, "b"), ws(1, "x"), ws(2, "a")]);
    let v: Vec<(i32, &str)> = sorted.iter().map(|w| (w.id, w.name.as_str())).collect();
    assert_eq!(v, vec![(1, "x"), (2, "b"), (2, "a")]);
}

#[test]
fn failed_poll_keeps_previous_state() {
    let mut s: WorkspaceSwitcher<u32> = WorkspaceSwitcher::new(Colors::new(None), 0);
    s.update(Some(vec![ws(3, "c"), ws(1, "a")]), Some(3), 600);
    s.update(None, None, 1200);
    assert_eq!(ids(&s), vec![(1, "a".to_string()), (3, "c".to_string())]);
    assert_eq!(s.current_workspace(), 3);
    s.update(None, Some(1), 1800);
    assert_eq!(s.current_workspace(), 1);
    assert_eq!(s.workspace_count(), 2);
    s.update(Some(vec![]), None, 2400);
    assert_eq!(s.workspace_count(), 0);
    assert_eq!(s.current_workspace(), 1);
}

#[test]
fn switcher_starts_on_workspace_one() {
    let s: WorkspaceSwitcher<u32> = WorkspaceSwitcher::new(Colors::new(None), 100);
    assert_eq!(s.current_workspace(), 1);
    assert_eq!(s.workspace_count(), 0);
    assert!(!s.should_update(600));
    assert!(s.should_update(601));
    assert!(!s.should_update(50));
}

#[test]
fn switch_target_is_workspace_name() {
    let mut s: WorkspaceSwitcher<u32> = WorkspaceSwitcher::new(Colors::new(None), 0);
    s.update(Some(vec![ws(1, "web"), ws(2, "code")]), Some(1), 600);
    assert_eq!(s.switch_to_workspace(2), Some("code".to_string()));
    assert_eq!(s.switch_to_workspace(7), None);
}

fn keys(left: bool, right: bool, digits: Vec<u8>, dismiss: bool) -> KeyPresses {
    KeyPresses { left, right, digits, dismiss }
}

#[test]
fn arrow_and_digit_navigation() {
    let mut s: WorkspaceSwitcher<u32> = WorkspaceSwitcher::new(Colors::new(None), 0);
    s.update(Some(vec![ws(1, "1"), ws(2, "2"), ws(3, "3"), ws(10, "10")]), Some(2), 600);
    assert_eq!(s.navigate(&keys(true, false, vec![], false)), KeyOutcome { switch_to: Some(1), close: false });
    assert_eq!(s.navigate(&keys(false, true, vec![], false)), KeyOutcome { switch_to: Some(3), close: false });
    assert_eq!(s.navigate(&keys(true, true, vec![], false)), KeyOutcome { switch_to: Some(3), close: false });
    assert_eq!(s.navigate(&keys(false, false, vec![0], false)), KeyOutcome { switch_to: Some(10), close: true });
    assert_eq!(s.navigate(&keys(false, false, vec![7], false)), KeyOutcome { switch_to: None, close: false });
    assert_eq!(s.navigate(&keys(true, false, vec![3, 7], false)), KeyOutcome { switch_to: Some(3), close: true });
    assert_eq!(s.navigate(&keys(false, false, vec![], true)), KeyOutcome { switch_to: None, close: true });
    s.update(None, Some(1), 1200);
    assert_eq!(s.navigate(&keys(true, false, vec![], false)), KeyOutcome { switch_to: None, close: false });
    s.update(None, Some(10), 1800);
    assert_eq!(s.navigate(&keys(false, true, vec![], false)), KeyOutcome { switch_to: None, close: false });
    s.update(None, Some(42), 2400);
    assert_eq!(s.navigate(&keys(true, true, vec![], false)), KeyOutcome { switch_to: None, close: false });
}

fn win(id: i32, class: &str) -> Window {
    Window { workspace_id: id, class: class.to_string() }
}

#[test]
fn apps_are_distinct_in_first_seen_order() {
    let windows = vec![
        win(1, "firefox"),
        win(2, "kitty"),
        win(1, "hypowertools"),
        win(1, "code"),
        win(1, "firefox"),
        win(1, "kitty"),
    ];
    assert_eq!(workspace_apps(&windows, 1), vec!["firefox", "code", "kitty"]);
    assert_eq!(workspace_apps(&windows, 2), vec!["kitty"]);
    assert!(workspace_apps(&windows, 3).is_empty());
}

#[test]
fn icon_names_and_overflow() {
    assert_eq!(icon_lookup_name("Cursor"), "cursor");
    assert_eq!(icon_lookup_name("cursor"), "cursor");
    assert_eq!(icon_lookup_name("kitty"), "kitty");
    assert_eq!(extra_app_count(2), 0);
    assert_eq!(extra_app_count(3), 0);
    assert_eq!(extra_app_count(5), 2);
}

#[test]
fn icon_cache_is_write_once_and_cleared() {
    let mut s: WorkspaceSwitcher<u32> = WorkspaceSwitcher::new(Colors::new(None), 0);
    assert!(s.get_app_icon("kitty").is_none());
    s.record_app_icon("kitty", Some(7));
    s.record_app_icon("ghost", None);
    s.record_app_icon("kitty", Some(9));
    assert_eq!(s.get_app_icon("kitty"), Some(&Some(7)));
    assert_eq!(s.get_app_icon("ghost"), Some(&None));
    s.set_background(3);
    assert_eq!(s.background(), &Some(3));
    s.cleanup();
    assert!(s.get_app_icon("kitty").is_none());
    assert_eq!(s.background(), &None);
}
