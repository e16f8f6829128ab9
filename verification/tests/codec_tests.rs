use volunteer_log::codec::{from_structured, to_structured};
use volunteer_log::model::{build_entry, Entry};
use volunteer_log::tabular::to_tabular;

fn entry(date: &str, org: &str, hours: &str, tasks: &str, tags: &str, id: &str, at: &str) -> Entry {
    build_entry(date, org, hours, tasks, "thoughts", tags, id, at).unwrap()
}

fn assert_same_entry(a: &Entry, b: &Entry) {
    assert_eq!(a.id, b.id);
    assert_eq!(a.date, b.date);
    assert_eq!(a.org, b.org);
    assert_eq!(a.hours, b.hours);
    assert_eq!(a.tasks, b.tasks);
    assert_eq!(a.reflection, b.reflection);
    assert_eq!(a.tags, b.tags);
    assert_eq!(a.created_at, b.created_at);
}

#[test]
fn structured_round_trip_two_entries() {
    let list = vec![
        entry("2025-01-10", "Food Bank", "2.5", "sorting", "service", "id-1", "t1"),
        entry("2025-02-03", "Shelter", "4", "cooking", "kitchen", "id-2", "t2"),
    ];
    let text = to_structured(&list);
    let back = from_structured(text.as_str()).unwrap();
    assert_eq!(back.len(), list.len());
    for (a, b) in back.iter().zip(list.iter()) {
        assert_same_entry(a, b);
    }
}

#[test]
fn structured_round_trip_tricky_characters() {
    let list = vec![entry(
        "2025-03-01",
        "A \"quoted\" org, with \\ backslash",
        "1.5",
        "line one\nline two",
        "a,b",
        "id-\\\"x",
        "t \"now\"",
    )];
    let text = to_structured(&list);
    let back = from_structured(text.as_str()).unwrap();
    assert_eq!(back.len(), 1);
    assert_same_entry(&back[0], &list[0]);
}

#[test]
fn structured_empty_list() {
    let list: Vec<Entry> = Vec::new();
    let text = to_structured(&list);
    assert_eq!(text, "[\n]");
    let back = from_structured(text.as_str()).unwrap();
    assert!(back.is_empty());
}

#[test]
fn structured_shape_of_one_entry() {
    let list = vec![entry("2025-01-10", "Food Bank", "2.5", "sorting", "service", "id-1", "t1")];
    let text = to_structured(&list);
    let expected = "[\n  {\n    id: \"id-1\"DELIM    date: \"2025-01-10\"DELIM    org: \"Food Bank\"DELIM    hours: \"2.5\"DELIM    tasks: \"sorting\"DELIM    reflection: \"thoughts\"DELIM    tags: \"service\"DELIM    created_at: \"t1\"DELIM  },\n]"
        .replace("DELIM", ",\n");
    assert_eq!(text, expected);
}

#[test]
fn decode_rejects_garbage() {
    assert!(from_structured("not a log at all").is_none());
    assert!(from_structured("").is_none());
    assert!(from_structured("[\n").is_none());
    assert!(from_structured("[\n]trailing").is_none());
}

#[test]
fn decode_rejects_invalid_stored_entry() {
    // Shape is right, but the entry breaks the storage invariant
    // (org empty, hours not positive): the slot counts as corrupt.
    let text = "[\n  {\n    id: \"i\",\n    date: \"2025-01-10\",\n    org: \"\",\n    hours: \"2.5\",\n    tasks: \"\",\n    reflection: \"\",\n    tags: \"\",\n    created_at: \"t\",\n  },\n]";
    assert!(from_structured(text).is_none());
    let bad_hours = "[\n  {\n    id: \"i\",\n    date: \"2025-01-10\",\n    org: \"Org\",\n    hours: \"0\",\n    tasks: \"\",\n    reflection: \"\",\n    tags: \"\",\n    created_at: \"t\",\n  },\n]";
    assert!(from_structured(bad_hours).is_none());
}

#[test]
fn tabular_escaping_quote_and_comma() {
    let e = build_entry(
        "2025-01-10",
        "Food Bank",
        "2.5",
        "sort, box \"fast\"",
        "",
        "",
        "id-1",
        "t1",
    )
    .unwrap();
    let out = to_tabular(&vec![e]);
    assert!(out.contains("\"sort, box \"\"fast\"\"\""));
}

#[test]
fn tabular_two_entries_has_three_lines() {
    let list = vec![
        entry("2025-01-10", "Food Bank", "2.5", "sorting", "service", "id-1", "t1"),
        entry("2025-02-03", "Shelter", "4", "cooking", "kitchen", "id-2", "t2"),
    ];
    let out = to_tabular(&list);
    let lines: Vec<&str> = out.lines().collect();
    assert_eq!(lines.len(), 3);
    assert_eq!(lines[0], "date,organization,hours,tasks,reflection,tags,created_at");
    for row in &lines[1..] {
        assert!(row.starts_with('"'));
    }
    assert!(lines[1].starts_with("\"2025-01-10\","));
    assert!(lines[2].starts_with("\"2025-02-03\","));
}

#[test]
fn tabular_hours_column_unquoted() {
    let list = vec![entry("2025-01-10", "Food Bank", "2.5", "", "", "id-1", "t1")];
    let out = to_tabular(&list);
    assert_eq!(out, "date,organization,hours,tasks,reflection,tags,created_at\n\"2025-01-10\",\"Food Bank\",2.5,\"\",\"thoughts\",\"\",\"t1\"\n");
}

#[test]
fn tabular_embedded_newline_stays_inside_quotes() {
    let e = build_entry(
        "2025-01-10",
        "Food Bank",
        "2.5",
        "line one\nline two",
        "",
        "",
        "id-1",
        "t1",
    )
    .unwrap();
    let out = to_tabular(&vec![e]);
    assert!(out.contains("\"line one\nline two\""));
    assert_eq!(out.matches('\n').count(), 3);
}

#[test]
fn tabular_empty_list_is_header_only() {
    let list: Vec<Entry> = Vec::new();
    let out = to_tabular(&list);
    assert_eq!(out, "date,organization,hours,tasks,reflection,tags,created_at\n");
}
