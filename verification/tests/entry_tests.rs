use volunteer_log::model::{build_entry, Entry, ValidationError};

fn build_ok(
    date: &str,
    org: &str,
    hours: &str,
    tasks: &str,
    reflection: &str,
    tags: &str,
    id: &str,
    created_at: &str,
) -> Entry {
    build_entry(date, org, hours, tasks, reflection, tags, id, created_at).unwrap()
}

#[test]
fn valid_input_fields_match_trimmed_inputs() {
    let e = build_ok(
        " 2025-01-10 ",
        "  Food Bank",
        " 2.5\t",
        " sorting ",
        "",
        " service ",
        "id-1",
        "stamp-1",
    );
    assert_eq!(e.date, "2025-01-10");
    assert_eq!(e.org, "Food Bank");
    assert_eq!(e.hours, "2.5");
    assert_eq!(e.tasks, "sorting");
    assert_eq!(e.reflection, "");
    assert_eq!(e.tags, "service");
    assert_eq!(e.id, "id-1");
    assert_eq!(e.created_at, "stamp-1");
}

#[test]
fn empty_date_is_missing_required() {
    let r = build_entry("   ", "Food Bank", "2.5", "", "", "", "id", "st");
    assert_eq!(r.unwrap_err(), ValidationError::MissingRequired);
}

#[test]
fn empty_org_is_missing_required() {
    let r = build_entry("2025-01-10", "", "2.5", "", "", "", "id", "st");
    assert_eq!(r.unwrap_err(), ValidationError::MissingRequired);
}

#[test]
fn zero_hours_is_non_positive() {
    let r = build_entry("2025-01-10", "Food Bank", "0", "", "", "", "id", "st");
    assert_eq!(r.unwrap_err(), ValidationError::NonPositiveHours);
}

#[test]
fn zero_point_zero_hours_is_non_positive() {
    let r = build_entry("2025-01-10", "Food Bank", "0.00", "", "", "", "id", "st");
    assert_eq!(r.unwrap_err(), ValidationError::NonPositiveHours);
}

#[test]
fn unparsable_hours_is_non_positive() {
    let r = build_entry("2025-01-10", "Food Bank", "abc", "", "", "", "id", "st");
    assert_eq!(r.unwrap_err(), ValidationError::NonPositiveHours);
}

#[test]
fn negative_hours_is_non_positive() {
    let r = build_entry("2025-01-10", "Food Bank", "-2", "", "", "", "id", "st");
    assert_eq!(r.unwrap_err(), ValidationError::NonPositiveHours);
}

#[test]
fn missing_required_takes_precedence_over_hours() {
    let r = build_entry("", "", "abc", "", "", "", "id", "st");
    assert_eq!(r.unwrap_err(), ValidationError::MissingRequired);
}

#[test]
fn fractional_hours_accepted() {
    let e = build_ok("2025-01-10", "Shelter", "0.25", "", "", "", "id", "st");
    assert_eq!(e.hours, "0.25");
}

#[test]
fn hours_with_leading_dot_accepted() {
    let e = build_ok("2025-01-10", "Shelter", ".5", "", "", "", "id", "st");
    assert_eq!(e.hours, ".5");
}

#[test]
fn hours_with_trailing_dot_accepted() {
    let e = build_ok("2025-01-10", "Shelter", "5.", "", "", "", "id", "st");
    assert_eq!(e.hours, "5.");
}

#[test]
fn hours_with_plus_sign_accepted() {
    let e = build_ok("2025-01-10", "Shelter", "+2", "", "", "", "id", "st");
    assert_eq!(e.hours, "+2");
}

#[test]
fn hours_with_exponent_accepted() {
    let e = build_ok("2025-01-10", "Shelter", "2e1", "", "", "", "id", "st");
    assert_eq!(e.hours, "2e1");
    let e = build_ok("2025-01-10", "Shelter", "1.5E-2", "", "", "", "id", "st");
    assert_eq!(e.hours, "1.5E-2");
    let e = build_ok("2025-01-10", "Shelter", "2e+3", "", "", "", "id", "st");
    assert_eq!(e.hours, "2e+3");
}

#[test]
fn hours_zero_mantissa_with_exponent_rejected() {
    let r = build_entry("2025-01-10", "Shelter", "0e7", "", "", "", "id", "st");
    assert_eq!(r.unwrap_err(), ValidationError::NonPositiveHours);
}

#[test]
fn hours_malformed_exponent_rejected() {
    for bad in ["2e", "2e+", "2e1.5", "2e5e6", "e5"] {
        let r = build_entry("2025-01-10", "Shelter", bad, "", "", "", "id", "st");
        assert_eq!(r.unwrap_err(), ValidationError::NonPositiveHours);
    }
}

#[test]
fn hours_lone_dot_or_sign_rejected() {
    for bad in [".", "+", "-", "+.", "--2", "++2", "inf", "nan"] {
        let r = build_entry("2025-01-10", "Shelter", bad, "", "", "", "id", "st");
        assert_eq!(r.unwrap_err(), ValidationError::NonPositiveHours);
    }
}

#[test]
fn hours_with_two_dots_rejected() {
    let r = build_entry("2025-01-10", "Shelter", "1.2.3", "", "", "", "id", "st");
    assert_eq!(r.unwrap_err(), ValidationError::NonPositiveHours);
}
