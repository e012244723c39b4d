use flow_tracker::document::{
    create_space, delete_space, get_time_entries, get_today_stats, record_time, record_time_today,
    save_settings, save_space, str_le, today_stats,
};
use flow_tracker::matching::{contains_chars, fuzzy_match, fuzzy_match_folded, is_tracked};
use flow_tracker::tracking::{stop_all_tracking, toggle_tracking, tracking_tick};
use flow_tracker::{AppSettings, AppState, TimeEntry, TrackingSpace, TrackingState};

fn space(id: &str, apps: &[&str], active: bool) -> TrackingSpace {
    TrackingSpace {
        id: id.to_string(),
        name: format!("space {}", id),
        apps: apps.iter().map(|a| a.to_string()).collect(),
        is_active: active,
        color: "#ffffff".to_string(),
    }
}

fn entry(space_id: &str, app: &str, date: &str, duration: u64) -> TimeEntry {
    TimeEntry {
        space_id: space_id.to_string(),
        app_name: app.to_string(),
        date: date.to_string(),
        duration,
    }
}

fn doc(spaces: Vec<TrackingSpace>, entries: Vec<TimeEntry>) -> AppState {
    AppState { spaces, entries, settings: AppSettings::default() }
}

fn active_flags(state: &AppState) -> Vec<bool> {
    state.spaces.iter().map(|s| s.is_active).collect()
}

fn s(x: &str) -> String {
    x.to_string()
}

#[test]
fn defaults_are_empty() {
    let st = AppState::default();
    assert!(st.spaces.is_empty());
    assert!(st.entries.is_empty());
    assert!(!st.settings.enable_dnd);
    assert!(st.settings.muted_apps.is_empty());
    let ts = TrackingState::default();
    assert!(ts.active_space_id.is_none() && ts.last_app.is_none() && ts.last_check.is_none());
}

#[test]
fn fuzzy_match_pattern_inside_name() {
    assert!(fuzzy_match(&s("Google Chrome"), &s("chrome")));
}

#[test]
fn fuzzy_match_name_inside_pattern() {
    assert!(fuzzy_match(&s("chrome"), &s("Google Chrome Canary")));
}

#[test]
fn fuzzy_match_ignores_case() {
    assert!(fuzzy_match(&s("CHROME"), &s("chrome")));
    assert!(fuzzy_match(&s("Slack"), &s("SLACK")));
}

#[test]
fn fuzzy_match_rejects_unrelated() {
    assert!(!fuzzy_match(&s("Google Chrome"), &s("slack")));
}

#[test]
fn folded_match_is_case_sensitive() {
    assert!(fuzzy_match_folded(&s("google chrome"), &s("chrome")));
    assert!(!fuzzy_match_folded(&s("google chrome"), &s("Chrome")));
}

#[test]
fn substring_search() {
    assert!(contains_chars(&s("abcdef"), &s("cde")));
    assert!(contains_chars(&s("abc"), &s("")));
    assert!(contains_chars(&s("abc"), &s("abc")));
    assert!(!contains_chars(&s("abc"), &s("abcd")));
    assert!(!contains_chars(&s("abcabd"), &s("abe")));
    assert!(contains_chars(&s("aaab"), &s("aab")));
}

#[test]
fn space_tracks_any_pattern() {
    let sp = space("w", &["code", "Terminal"], false);
    assert!(is_tracked(&sp, &s("Visual Studio Code")));
    assert!(is_tracked(&sp, &s("terminal")));
    assert!(!is_tracked(&sp, &s("Firefox")));
    assert!(!is_tracked(&space("e", &[], false), &s("Firefox")));
}

#[test]
fn date_order_is_lexicographic() {
    assert!(str_le(&s("2024-01-04"), &s("2024-01-05")));
    assert!(str_le(&s("2024-01-10"), &s("2024-01-10")));
    assert!(!str_le(&s("2024-01-11"), &s("2024-01-10")));
    assert!(str_le(&s(""), &s("2024")));
    assert!(!str_le(&s("2024-01"), &s("2024")));
}

#[test]
fn time_entries_date_range() {
    let entries = vec![
        entry("a", "Foo", "2024-01-04", 5),
        entry("a", "Foo", "2024-01-05", 6),
        entry("b", "Bar", "2024-01-10", 7),
        entry("a", "Foo", "2024-01-11", 8),
    ];
    let r = get_time_entries(&entries, &None, &Some(s("2024-01-05")), &Some(s("2024-01-10")));
    let dates: Vec<&str> = r.iter().map(|e| e.date.as_str()).collect();
    assert_eq!(dates, vec!["2024-01-05", "2024-01-10"]);
}

#[test]
fn time_entries_space_filter_and_no_filter() {
    let entries = vec![
        entry("a", "Foo", "2024-01-04", 5),
        entry("b", "Bar", "2024-01-10", 7),
        entry("a", "Baz", "2024-01-11", 8),
    ];
    let r = get_time_entries(&entries, &Some(s("a")), &None, &None);
    assert_eq!(r.len(), 2);
    assert!(r.iter().all(|e| e.space_id == "a"));
    assert_eq!(get_time_entries(&entries, &None, &None, &None).len(), 3);
    assert_eq!(get_time_entries(&entries, &Some(s("zzz")), &None, &None).len(), 0);
}

#[test]
fn delete_space_cascades() {
    let mut st = doc(
        vec![space("a", &["Foo"], false), space("b", &["Bar"], true)],
        vec![entry("a", "Foo", "2024-01-01", 3), entry("b", "Bar", "2024-01-01", 4), entry("a", "Baz", "2024-01-02", 5)],
    );
    delete_space(&mut st, &s("a"));
    assert_eq!(st.spaces.len(), 1);
    assert_eq!(st.spaces[0].id, "b");
    assert_eq!(st.entries.len(), 1);
    assert_eq!(st.entries[0].space_id, "b");
    assert_eq!(st.entries[0].duration, 4);
}

#[test]
fn delete_unknown_space_changes_nothing() {
    let mut st = doc(vec![space("a", &[], false)], vec![entry("a", "Foo", "2024-01-01", 3)]);
    delete_space(&mut st, &s("nope"));
    assert_eq!(st.spaces.len(), 1);
    assert_eq!(st.entries.len(), 1);
}

#[test]
fn save_space_replaces_or_appends() {
    let mut st = doc(vec![space("a", &["Foo"], false), space("b", &[], false)], vec![]);
    let mut changed = space("a", &["Foo", "Bar"], false);
    changed.name = s("Renamed");
    save_space(&mut st, changed);
    assert_eq!(st.spaces.len(), 2);
    assert_eq!(st.spaces[0].name, "Renamed");
    assert_eq!(st.spaces[0].apps.len(), 2);
    save_space(&mut st, space("c", &[], false));
    assert_eq!(st.spaces.len(), 3);
    assert_eq!(st.spaces[2].id, "c");
}

#[test]
fn create_space_appends_inactive_space() {
    let mut st = AppState::default();
    let a = create_space(&mut st, s("Work"), s("#ff0000"));
    let b = create_space(&mut st, s("Home"), s("#00ff00"));
    assert_eq!(st.spaces.len(), 2);
    assert_eq!(a.name, "Work");
    assert_eq!(a.color, "#ff0000");
    assert!(a.apps.is_empty());
    assert!(!a.is_active);
    assert_eq!(st.spaces[0].id, a.id);
    assert_eq!(st.spaces[1].id, b.id);
    assert_ne!(a.id, b.id);
    assert!(!a.id.is_empty());
}

#[test]
fn settings_are_replaced() {
    let mut st = AppState::default();
    save_settings(&mut st, AppSettings { enable_dnd: true, muted_apps: vec![s("Mail")] });
    assert!(st.settings.enable_dnd);
    assert_eq!(st.settings.muted_apps, vec![s("Mail")]);
}

#[test]
fn toggle_activates_exclusively() {
    let mut st = doc(vec![space("a", &[], true), space("b", &[], false), space("c", &[], false)], vec![]);
    let mut ts = TrackingState::default();
    assert!(toggle_tracking(&mut st, &mut ts, s("b"), 500));
    assert_eq!(active_flags(&st), vec![false, true, false]);
    assert_eq!(ts.active_space_id.as_deref(), Some("b"));
    assert_eq!(ts.last_check, Some(500));
    assert!(ts.last_app.is_none());
}

#[test]
fn toggle_twice_restores_flag_and_coordinator() {
    let mut st = doc(vec![space("a", &[], false), space("b", &[], false)], vec![]);
    let mut ts = TrackingState::default();
    assert!(toggle_tracking(&mut st, &mut ts, s("a"), 0));
    assert!(!toggle_tracking(&mut st, &mut ts, s("a"), 1000));
    assert_eq!(active_flags(&st), vec![false, false]);
    assert!(ts.active_space_id.is_none());

    let mut st = doc(vec![space("a", &[], true), space("b", &[], false)], vec![]);
    let mut ts = TrackingState::default();
    ts.activate(s("a"), 0);
    assert!(!toggle_tracking(&mut st, &mut ts, s("a"), 10));
    assert!(toggle_tracking(&mut st, &mut ts, s("a"), 20));
    assert_eq!(active_flags(&st), vec![true, false]);
    assert_eq!(ts.active_space_id.as_deref(), Some("a"));
}

#[test]
fn toggle_unknown_space_deactivates_all() {
    let mut st = doc(vec![space("a", &[], true)], vec![]);
    let mut ts = TrackingState::default();
    ts.activate(s("a"), 0);
    assert!(!toggle_tracking(&mut st, &mut ts, s("gone"), 10));
    assert_eq!(active_flags(&st), vec![false]);
    assert!(ts.active_space_id.is_none());
}

#[test]
fn stop_all_twice_is_stable() {
    let mut st = doc(vec![space("a", &[], false), space("b", &[], true)], vec![]);
    let mut ts = TrackingState::default();
    ts.activate(s("b"), 0);
    stop_all_tracking(&mut st, &mut ts);
    assert_eq!(active_flags(&st), vec![false, false]);
    stop_all_tracking(&mut st, &mut ts);
    assert_eq!(active_flags(&st), vec![false, false]);
    assert!(ts.active_space_id.is_none() && ts.last_app.is_none() && ts.last_check.is_none());
}

#[test]
fn record_time_creates_then_adds() {
    let mut st = doc(vec![space("a", &[], false)], vec![]);
    record_time(&mut st, &s("a"), &s("Foo"), &s("2024-01-01"), 0);
    assert!(st.entries.is_empty());
    record_time(&mut st, &s("a"), &s("Foo"), &s("2024-01-01"), 2);
    record_time(&mut st, &s("a"), &s("Foo"), &s("2024-01-01"), 3);
    record_time(&mut st, &s("a"), &s("Foo"), &s("2024-01-02"), 4);
    assert_eq!(st.entries.len(), 2);
    assert_eq!(st.entries[0].duration, 5);
    assert_eq!(st.entries[1].duration, 4);
    assert_eq!(st.entries[1].date, "2024-01-02");
}

#[test]
fn record_time_saturates() {
    let mut st = doc(vec![], vec![entry("a", "Foo", "2024-01-01", u64::MAX - 1)]);
    record_time(&mut st, &s("a"), &s("Foo"), &s("2024-01-01"), 10);
    assert_eq!(st.entries[0].duration, u64::MAX);
}

fn run_ticks(st: &mut AppState, ts: &mut TrackingState, ticks: &[(u64, Option<&str>)]) {
    for (now, app) in ticks {
        let observed = app.map(|a| a.to_string());
        if let Some(secs) = tracking_tick(ts, &st.spaces, &observed, *now) {
            let sid = ts.active_space_id.clone().unwrap();
            record_time(st, &sid, &observed.unwrap(), &s("2024-01-01"), secs);
        }
    }
}

fn duration_of(st: &AppState, app: &str) -> u64 {
    st.entries.iter().filter(|e| e.app_name == app).map(|e| e.duration).sum()
}

#[test]
fn accounting_on_steady_focus() {
    let mut st = doc(vec![space("w", &["foo"], true)], vec![]);
    let mut ts = TrackingState::default();
    ts.activate(s("w"), 0);
    run_ticks(&mut st, &mut ts, &[(0, Some("Foo")), (1000, Some("Foo")), (2000, Some("Foo")), (3000, Some("Foo"))]);
    assert_eq!(duration_of(&st, "Foo"), 3);
    assert_eq!(st.entries.len(), 1);
}

#[test]
fn focus_switch_sets_new_baseline() {
    let mut st = doc(vec![space("w", &["foo", "bar"], true)], vec![]);
    let mut ts = TrackingState::default();
    ts.activate(s("w"), 0);
    run_ticks(&mut st, &mut ts, &[(0, Some("Foo")), (1000, Some("Bar")), (2000, Some("Bar"))]);
    assert_eq!(duration_of(&st, "Foo"), 0);
    assert_eq!(duration_of(&st, "Bar"), 1);
}

#[test]
fn tick_skips_idle_unknown_and_untracked() {
    let spaces = vec![space("w", &["foo"], true)];
    let mut ts = TrackingState::default();
    assert_eq!(tracking_tick(&mut ts, &spaces, &Some(s("Foo")), 1000), None);
    assert!(ts.last_app.is_none());

    ts.activate(s("gone"), 0);
    assert_eq!(tracking_tick(&mut ts, &spaces, &Some(s("Foo")), 1000), None);
    assert!(ts.last_app.is_none());

    ts.activate(s("w"), 0);
    assert_eq!(tracking_tick(&mut ts, &spaces, &None, 1000), None);
    assert_eq!(tracking_tick(&mut ts, &spaces, &Some(s("Mail")), 1000), None);
    assert!(ts.last_app.is_none());
    assert_eq!(ts.last_check, Some(0));
}

#[test]
fn tick_commits_whole_seconds_since_last_check() {
    let spaces = vec![space("w", &["foo"], true)];
    let mut ts = TrackingState::default();
    ts.activate(s("w"), 0);
    assert_eq!(tracking_tick(&mut ts, &spaces, &Some(s("Foo")), 0), None);
    assert_eq!(tracking_tick(&mut ts, &spaces, &Some(s("Foo")), 999), None);
    assert_eq!(tracking_tick(&mut ts, &spaces, &Some(s("Foo")), 3500), Some(2));
    assert_eq!(ts.last_app.as_deref(), Some("Foo"));
    assert_eq!(ts.last_check, Some(3500));
}

#[test]
fn today_stats_sum_across_spaces() {
    let entries = vec![
        entry("a", "Foo", "2024-01-05", 10),
        entry("b", "Foo", "2024-01-05", 5),
        entry("a", "Bar", "2024-01-05", 2),
        entry("a", "Foo", "2024-01-04", 100),
    ];
    let stats = today_stats(&entries, &s("2024-01-05"));
    assert_eq!(stats.len(), 2);
    let foo = stats.iter().find(|(k, _)| k == "Foo").unwrap().1;
    let bar = stats.iter().find(|(k, _)| k == "Bar").unwrap().1;
    assert_eq!(foo, 15);
    assert_eq!(bar, 2);
    assert!(today_stats(&entries, &s("2023-12-31")).is_empty());
}

#[test]
fn today_stats_uses_local_date() {
    let today = chrono::Local::now().format("%Y-%m-%d").to_string();
    let st = doc(vec![], vec![entry("a", "Foo", &today, 7), entry("b", "Foo", &today, 1), entry("a", "Foo", "1999-01-01", 50)]);
    let stats = get_today_stats(&st);
    assert_eq!(stats, vec![(s("Foo"), 8)]);
}

#[test]
fn record_time_today_uses_local_date() {
    let mut st = doc(vec![space("a", &[], true)], vec![]);
    record_time_today(&mut st, &s("a"), &s("Foo"), 4);
    let today = chrono::Local::now().format("%Y-%m-%d").to_string();
    assert_eq!(st.entries.len(), 1);
    assert_eq!(st.entries[0].date, today);
    assert_eq!(st.entries[0].duration, 4);
}
