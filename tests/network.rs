use hypowertools::config::Colors;
use hypowertools::network::{
    get_networks, get_signal_icon, parse_active_ssid, parse_known, row_controls, security_label,
    shows_security, NetworkWidget, RowControls, SignalLevel, WidgetSize,
};

fn widget() -> NetworkWidget {
    NetworkWidget::new(Colors::new(None), 0)
}

#[test]
fn status_and_scan_merge_into_connected_first_list() {
    let mut w = widget();
    let rescan = w.update(Some("yes:HomeNet:80\n"), 1500);
    assert!(rescan);
    assert_eq!(w.connection_state().current(), Some("HomeNet".to_string()));
    w.apply_networks(
        Some("HomeNet:1f0c-uuid\n"),
        Some("HomeNet:80:WPA2:yes\nGuest:40:--:no\n"),
    );
    let rows = w.display_list();
    assert_eq!(rows.len(), 2);
    assert_eq!(rows[0].0.ssid, "HomeNet");
    assert!(rows[0].0.is_known);
    assert_eq!(rows[0].0.signal_strength, 80);
    assert_eq!(rows[0].0.security, "WPA2");
    assert!(rows[0].1);
    assert_eq!(rows[1].0.ssid, "Guest");
    assert!(!rows[1].0.is_known);
    assert_eq!(rows[1].0.signal_strength, 40);
    assert!(!rows[1].1);
}

#[test]
fn zero_signal_profile_stays_known_but_hidden() {
    let mut w = widget();
    w.update(Some(""), 10);
    w.apply_networks(Some("OldNet:aa-bb\nCafe:cc-dd\n"), Some("Cafe:55:WPA1:no\n"));
    let rows = w.display_list();
    assert_eq!(rows.len(), 1);
    assert_eq!(rows[0].0.ssid, "Cafe");
    assert!(w.known_networks().iter().any(|n| n.ssid == "OldNet" && n.signal_strength == 0));
    assert!(rows.iter().all(|r| r.0.signal_strength > 0));
}

#[test]
fn connected_network_comes_first_even_when_weaker() {
    let mut w = widget();
    w.update(Some("no:Strong:90\nyes:Weak:20\n"), 10);
    w.apply_networks(Some(""), Some("Strong:90:WPA2:no\nWeak:20:WPA2:yes\n"));
    let rows = w.display_list();
    assert_eq!(rows.len(), 2);
    assert_eq!(rows[0].0.ssid, "Weak");
    assert!(rows[0].1);
    assert_eq!(rows[1].0.ssid, "Strong");
    assert!(!rows[1].1);
}

#[test]
fn connected_network_without_signal_is_not_shown() {
    let mut w = widget();
    w.update(Some("yes:Gone:0\n"), 10);
    w.apply_networks(Some("Gone:x\n"), Some("Other:30:--:no\n"));
    let rows = w.display_list();
    assert_eq!(rows.len(), 1);
    assert_eq!(rows[0].0.ssid, "Other");
    assert!(!rows[0].1);
}

#[test]
fn failed_status_check_keeps_state() {
    let mut w = widget();
    w.update(Some("yes:HomeNet:80\n"), 10);
    w.apply_networks(Some("HomeNet:u\n"), Some("HomeNet:70:WPA2:yes\n"));
    let rescan = w.update(None, 2000);
    assert!(!rescan);
    assert_eq!(w.connection_state().current(), Some("HomeNet".to_string()));
    assert_eq!(w.known_networks().len(), 1);
    assert_eq!(w.known_networks()[0].signal_strength, 70);
    assert!(!w.should_update(2500));
    assert!(w.should_update(3001));
}

#[test]
fn failed_scan_keeps_lists() {
    let mut w = widget();
    w.update(Some(""), 10);
    w.apply_networks(Some("A:u\n"), Some("A:50:WPA2:no\n"));
    w.apply_networks(None, Some("B:60:--:no\n"));
    assert_eq!(w.known_networks().len(), 1);
    assert_eq!(w.known_networks()[0].ssid, "A");
    assert!(w.available_networks().is_empty());
    w.apply_networks(Some("A:u\n"), None);
    assert_eq!(w.known_networks()[0].signal_strength, 50);
}

#[test]
fn rescan_only_when_connection_changes_or_nothing_listed() {
    let mut w = widget();
    assert!(w.update(Some(""), 10));
    w.apply_networks(Some("A:u\n"), Some("A:50:WPA2:no\n"));
    assert!(!w.update(Some("no:A:50\n"), 20));
    assert!(w.update(Some("yes:A:50\n"), 30));
    assert!(!w.update(Some("yes:A:50\n"), 40));
    assert!(w.update(Some("yes:B:10\n"), 50));
    assert!(w.update(Some(""), 60));
}

#[test]
fn active_ssid_is_first_yes_row() {
    assert_eq!(parse_active_ssid("no:X:10\nyes:Y:20\nyes:Z:30\n"), Some("Y".to_string()));
    assert_eq!(parse_active_ssid("no:X:10\n"), None);
    assert_eq!(parse_active_ssid("yes\n"), None);
    assert_eq!(parse_active_ssid(""), None);
    assert_eq!(parse_active_ssid("yes::40\r\n"), Some("".to_string()));
}

#[test]
fn known_profiles_skip_wired_connections() {
    let known = parse_known("Wired ethernet:1\nlo loopback:2\nHome:3\n");
    assert_eq!(known.len(), 1);
    assert_eq!(known[0].ssid, "Home");
    assert!(known[0].is_known);
    assert_eq!(known[0].signal_strength, 0);
    assert_eq!(known[0].security, "");
}

#[test]
fn scan_rows_sorted_by_signal_and_filtered() {
    let (known, avail) = get_networks(
        "K1:a\nK2:b\n",
        "X:10:--:no\n:99:WPA2:no\nK2:70:WPA2:no\nY:abc:--:no\nZ:60:WPA3\nW:80:WEP:no\nV:10:--:no\n",
    );
    let k: Vec<(&str, i32)> = known.iter().map(|n| (n.ssid.as_str(), n.signal_strength)).collect();
    assert_eq!(k, vec![("K2", 70), ("K1", 0)]);
    let a: Vec<(&str, i32)> = avail.iter().map(|n| (n.ssid.as_str(), n.signal_strength)).collect();
    assert_eq!(a, vec![("W", 80), ("X", 10), ("V", 10), ("Y", 0)]);
}

#[test]
fn scan_signal_parsing_edges() {
    let (_, avail) = get_networks("", "A:+7:--:no\nB:-3:--:no\nC:99999999999:--:no\nD:2147483647:--:no\n");
    let a: Vec<(&str, i32)> = avail.iter().map(|n| (n.ssid.as_str(), n.signal_strength)).collect();
    assert_eq!(a, vec![("D", 2147483647), ("A", 7), ("C", 0), ("B", -3)]);
}

#[test]
fn signal_levels() {
    assert_eq!(get_signal_icon(100), SignalLevel::High);
    assert_eq!(get_signal_icon(80), SignalLevel::High);
    assert_eq!(get_signal_icon(79), SignalLevel::Medium);
    assert_eq!(get_signal_icon(60), SignalLevel::Medium);
    assert_eq!(get_signal_icon(40), SignalLevel::Low);
    assert_eq!(get_signal_icon(20), SignalLevel::Weak);
    assert_eq!(get_signal_icon(19), SignalLevel::Faint);
    assert_eq!(get_signal_icon(0), SignalLevel::Faint);
}

#[test]
fn security_labels() {
    assert_eq!(security_label("WPA1 WPA2"), "WPA2");
    assert_eq!(security_label("WPA3"), "WPA3");
    assert_eq!(security_label("WPA1"), "WPA");
    assert_eq!(security_label("WEP"), "WEP");
    assert_eq!(security_label("802.1X"), "802.1X");
    assert!(shows_security("WPA2"));
    assert!(!shows_security(""));
    assert!(!shows_security("none"));
}

#[test]
fn expanded_row_toggles() {
    let mut w = widget();
    assert!(!w.is_expanded("A"));
    w.toggle_expanded("A");
    assert!(w.is_expanded("A"));
    w.toggle_expanded("B");
    assert!(w.is_expanded("B"));
    assert!(!w.is_expanded("A"));
    w.toggle_expanded("B");
    assert!(!w.is_expanded("B"));
}

#[test]
fn row_controls_by_kind() {
    assert_eq!(row_controls(true, true), RowControls::Connected);
    assert_eq!(row_controls(false, true), RowControls::Saved);
    assert_eq!(row_controls(false, false), RowControls::Unsaved);
}

#[test]
fn widget_starts_empty() {
    let w = widget();
    assert!(w.connection_state().current().is_none());
    assert!(w.display_list().is_empty());
    assert_eq!(w.size(), WidgetSize { width: 400, height: 434 });
}

#[test]
fn network_seen_by_several_access_points_is_listed_once() {
    let (_, avail) = get_networks("", "Cafe:30:--:no\nCafe:70:WPA2:no\nCafe:50:WPA1:no\nBar:20:--:no\n");
    let a: Vec<(&str, i32, &str)> =
        avail.iter().map(|n| (n.ssid.as_str(), n.signal_strength, n.security.as_str())).collect();
    assert_eq!(a, vec![("Cafe", 70, "WPA2"), ("Bar", 20, "--")]);
    let mut w = widget();
    w.update(Some(""), 10);
    w.apply_networks(Some("Home:a\nHome:b\n"), Some("Cafe:30:--:no\nCafe:70:WPA2:no\nHome:50:WPA2:no\n"));
    let rows: Vec<(String, i32)> =
        w.display_list().iter().map(|r| (r.0.ssid.clone(), r.0.signal_strength)).collect();
    assert_eq!(rows, vec![("Home".to_string(), 50), ("Cafe".to_string(), 70)]);
}

#[test]
fn connected_network_not_repeated_below() {
    let mut w = widget();
    w.update(Some("yes:Home:60\n"), 10);
    w.apply_networks(Some("Home:a\nHome:b\n"), Some("Home:60:WPA2:yes\n"));
    let rows = w.display_list();
    assert_eq!(rows.len(), 1);
    assert!(rows[0].1);
}
