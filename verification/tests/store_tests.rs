use volunteer_log::model::{build_entry, Entry, ValidationError};
use volunteer_log::session::{
    storage_key, structured_export_filename, tabular_export_filename, Session,
};
use volunteer_log::store::{sort_newest_first, Store};

fn entry(date: &str, org: &str, hours: &str, id: &str, at: &str) -> Entry {
    build_entry(date, org, hours, "", "", "", id, at).unwrap()
}

#[test]
fn load_from_empty_store_is_empty() {
    let store = Store::new();
    assert!(store.load().is_empty());
}

#[test]
fn load_from_corrupt_slot_is_empty() {
    let store = Store::from_raw(Some(String::from("{{ not the format }}")));
    assert!(store.load().is_empty());
}

#[test]
fn save_load_round_trip() {
    let mut store = Store::new();
    let list = vec![entry("2025-01-10", "Food Bank", "2.5", "id-1", "t1")];
    store.save(&list);
    let back = store.load();
    assert_eq!(back.len(), 1);
    assert_eq!(back[0].org, "Food Bank");
    assert_eq!(back[0].hours, "2.5");
}

#[test]
fn save_of_load_then_load_is_idempotent() {
    let mut store = Store::new();
    let list = vec![
        entry("2025-01-10", "Food Bank", "2.5", "id-1", "t2"),
        entry("2025-02-03", "Shelter", "4", "id-2", "t1"),
    ];
    store.save(&list);
    let first = store.load();
    store.save(&first);
    let second = store.load();
    assert_eq!(first.len(), second.len());
    for (a, b) in first.iter().zip(second.iter()) {
        assert_eq!(a.id, b.id);
        assert_eq!(a.created_at, b.created_at);
        assert_eq!(a.org, b.org);
        assert_eq!(a.hours, b.hours);
    }
}

#[test]
fn save_of_load_is_idempotent_on_corrupt_slot() {
    let mut store = Store::from_raw(Some(String::from("garbage")));
    let first = store.load();
    store.save(&first);
    let second = store.load();
    assert!(first.is_empty() && second.is_empty());
}

#[test]
fn sort_is_newest_first() {
    let list = vec![
        entry("2025-01-10", "A", "1", "id-1", "2025-01-10 08:00"),
        entry("2025-01-12", "B", "1", "id-2", "2025-01-12 09:00"),
        entry("2025-01-11", "C", "1", "id-3", "2025-01-11 07:30"),
    ];
    let sorted = sort_newest_first(list);
    assert_eq!(sorted.len(), 3);
    assert_eq!(sorted[0].org, "B");
    assert_eq!(sorted[1].org, "C");
    assert_eq!(sorted[2].org, "A");
}

#[test]
fn sort_keeps_entries_with_equal_stamps() {
    let list = vec![
        entry("2025-01-10", "A", "1", "id-1", "same"),
        entry("2025-01-11", "B", "1", "id-2", "same"),
    ];
    let sorted = sort_newest_first(list);
    assert_eq!(sorted.len(), 2);
    let orgs: Vec<&str> = sorted.iter().map(|e| e.org.as_str()).collect();
    assert!(orgs.contains(&"A") && orgs.contains(&"B"));
}

#[test]
fn session_loads_sorted_and_insert_goes_to_front() {
    let mut store = Store::new();
    let list = vec![
        entry("2025-01-10", "Old", "1", "id-1", "2025-01-10 08:00"),
        entry("2025-01-12", "New", "1", "id-2", "2025-01-12 08:00"),
    ];
    store.save(&list);
    let mut session = Session::start(store);
    assert_eq!(session.entries[0].org, "New");
    assert_eq!(session.entries[1].org, "Old");
    let r = session.add(
        "2025-01-13",
        "Newest",
        "3",
        "",
        "",
        "",
        "id-3",
        "2025-01-13 10:00",
    );
    assert!(r.is_ok());
    assert_eq!(session.entries[0].org, "Newest");
    assert_eq!(session.entry_count(), 3);
}

#[test]
fn scenario_add_entry_then_reload() {
    let mut session = Session::start(Store::new());
    let r = session.add(
        "2025-01-10",
        "Food Bank",
        "2.5",
        "sorting",
        "",
        "service",
        "id-1",
        "2025-01-10 09:00",
    );
    assert!(r.is_ok());
    let reloaded = Store::from_raw(session.store.slot.clone()).load();
    assert_eq!(reloaded.len(), 1);
    assert_eq!(reloaded[0].hours, "2.5");
    assert_eq!(reloaded[0].org, "Food Bank");
}

#[test]
fn scenario_bad_hours_leaves_count_unchanged() {
    let mut session = Session::start(Store::new());
    let r = session.add("2025-01-10", "Food Bank", "abc", "", "", "", "id-1", "t1");
    assert_eq!(r.unwrap_err(), ValidationError::NonPositiveHours);
    assert_eq!(session.entry_count(), 0);
}

#[test]
fn scenario_clear_all_after_confirmation() {
    let mut session = Session::start(Store::new());
    session
        .add("2025-01-10", "Food Bank", "2.5", "", "", "", "id-1", "t1")
        .unwrap();
    session
        .add("2025-01-11", "Shelter", "1", "", "", "", "id-2", "t2")
        .unwrap();
    assert_eq!(session.entry_count(), 2);
    session.clear_all(false);
    assert_eq!(session.entry_count(), 2);
    session.clear_all(true);
    assert_eq!(session.entry_count(), 0);
    let reloaded = Store::from_raw(session.store.slot.clone()).load();
    assert!(reloaded.is_empty());
}

#[test]
fn session_exports_render_current_list() {
    let mut session = Session::start(Store::new());
    session
        .add("2025-01-10", "Food Bank", "2.5", "", "", "", "id-1", "t1")
        .unwrap();
    let structured = session.export_structured();
    assert!(structured.contains("org: \"Food Bank\""));
    let tab = session.export_tabular();
    assert!(tab.contains("\"Food Bank\""));
}

#[test]
fn fixed_names() {
    assert_eq!(storage_key(), "gifnar_volunteer_log_v1");
    assert_eq!(structured_export_filename(), "gifnar-volunteer-log.json");
    assert_eq!(tabular_export_filename(), "gifnar-volunteer-log.csv");
}
