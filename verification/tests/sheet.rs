use classroom_helper::roster::{load_roster, serialize_roster, LoadError};

fn load(roster: &str, results: Option<&str>) -> Vec<classroom_helper::roster::Student> {
    load_roster(roster, results).unwrap()
}

#[test]
fn roster_order_is_kept() {
    let roster = "student_id,name,github\n3,Carol,carol\n1,Ann,ann\n2,Bob,bob\n";
    let students = load(roster, None);
    let ids: Vec<&str> = students.iter().map(|s| s.student_id.as_str()).collect();
    assert_eq!(ids, ["3", "1", "2"]);
    let names: Vec<&str> = students.iter().map(|s| s.name.as_str()).collect();
    assert_eq!(names, ["Carol", "Ann", "Bob"]);
}

#[test]
fn results_merge_by_triple() {
    let roster = "student_id,name,github\n1,Ann,ann\n2,Bob,bob\n";
    let results = "\u{feff}h1,h2,h3,h4,h5,h6\n2,Bob,bob,88,77,fine\n";
    let students = load(roster, Some(results));
    assert!(students[0].blackbox.is_none());
    assert_eq!(students[1].blackbox.as_deref(), Some("88"));
    assert_eq!(students[1].whitebox.as_deref(), Some("77"));
    assert_eq!(students[1].comment.as_deref(), Some("fine"));
}

#[test]
fn results_row_with_wrong_triple_is_ignored() {
    let roster = "student_id,name,github\n1,Ann,ann\n";
    let results = "h1,h2,h3,h4,h5,h6\n1,Ann,other,88,77,x\n";
    let students = load(roster, Some(results));
    assert!(students[0].blackbox.is_none());
    assert!(students[0].comment.is_none());
}

#[test]
fn duplicate_triples_hit_the_first() {
    let roster = "student_id,name,github\n1,Ann,ann\n1,Ann,ann\n";
    let results = "h1,h2,h3,h4,h5,h6\n1,Ann,ann,50,N/A,\n";
    let students = load(roster, Some(results));
    assert_eq!(students[0].blackbox.as_deref(), Some("50"));
    assert!(students[1].blackbox.is_none());
}

#[test]
fn non_numeric_grade_is_absent() {
    let roster = "student_id,name,github\n1,Ann,ann\n";
    let results = "h1,h2,h3,h4,h5,h6\n1,Ann,ann,N/A,abc,\n";
    let students = load(roster, Some(results));
    assert!(students[0].blackbox.is_none());
    assert!(students[0].whitebox.is_none());
}

#[test]
fn short_roster_row_is_refused() {
    let roster = "student_id,name,github\n1,Ann\n";
    match load_roster(roster, None) {
        Err(LoadError::RosterRow { row }) => assert_eq!(row, 0),
        _ => panic!("expected the roster error"),
    }
}

#[test]
fn short_results_row_is_refused() {
    let roster = "student_id,name,github\n1,Ann,ann\n";
    let results = "h1,h2,h3\nonly,two\n";
    match load_roster(roster, Some(results)) {
        Err(LoadError::ResultsRow { row }) => assert_eq!(row, 0),
        _ => panic!("expected the results error"),
    }
}

#[test]
fn serialize_writes_bom_header_and_rows() {
    let roster = "student_id,name,github\n1,Ann,ann\n";
    let students = load(roster, None);
    let sheet = serialize_roster(&students);
    assert!(sheet.starts_with('\u{feff}'));
    let body = &sheet[3..];
    assert!(body.starts_with("\u{5b66}\u{53f7},\u{59d3}\u{540d},GitHub,\u{9ed1}\u{76d2}\u{6210}\u{7ee9},\u{767d}\u{76d2}\u{6210}\u{7ee9},\u{5907}\u{6ce8}\n"));
    assert!(body.ends_with("1,Ann,ann,N/A,N/A,\n"));
}

#[test]
fn save_load_round_trip_is_idempotent() {
    let roster = "student_id,name,github\n1,Ann,ann\n2,Bob,bob\n";
    let results = "h1,h2,h3,h4,h5,h6\n1,Ann,ann,085.50,7,says \"hi\", really\n";
    let first = serialize_roster(&load(roster, Some(results)));
    let second = serialize_roster(&load(roster, Some(first.as_str())));
    assert_eq!(first, second);
    let third = serialize_roster(&load(roster, Some(second.as_str())));
    assert_eq!(second, third);
}

#[test]
fn quoted_fields_survive_the_round_trip() {
    let roster = "student_id,name,github\n1,\"Ann, the first\",ann\n";
    let students = load(roster, None);
    assert_eq!(students[0].name.as_str(), "Ann, the first");
    let sheet = serialize_roster(&students);
    assert!(sheet.contains("1,\"Ann, the first\",ann,N/A,N/A,\n"));
    let reloaded = load(roster, Some(sheet.as_str()));
    assert_eq!(reloaded[0].name.as_str(), "Ann, the first");
}

#[test]
fn comment_with_newline_survives() {
    let roster = "student_id,name,github\n1,Ann,ann\n";
    let mut students = load(roster, None);
    students[0].comment = Some(String::from("line one\nline two"));
    let sheet = serialize_roster(&students);
    let reloaded = load(roster, Some(sheet.as_str()));
    assert_eq!(reloaded[0].comment.as_deref(), Some("line one\nline two"));
    let again = serialize_roster(&reloaded);
    assert_eq!(sheet, again);
}

#[test]
fn crlf_and_blank_lines_are_accepted() {
    let roster = "student_id,name,github\r\n\r\n1,Ann,ann\r\n\r\n2,Bob,bob\r\n";
    let students = load(roster, None);
    assert_eq!(students.len(), 2);
    assert_eq!(students[1].github.as_str(), "bob");
}

#[test]
fn extra_roster_columns_are_ignored() {
    let roster = "student_id,name,github,email\n1,Ann,ann,ann@example.com\n";
    let students = load(roster, None);
    assert_eq!(students.len(), 1);
    assert_eq!(students[0].github.as_str(), "ann");
}

#[test]
fn grades_are_canonicalised_on_load() {
    let roster = "student_id,name,github\n1,Ann,ann\n";
    let results = "h1,h2,h3,h4,h5,h6\n1,Ann,ann,085.50,.5,\n";
    let students = load(roster, Some(results));
    assert_eq!(students[0].blackbox.as_deref(), Some("85.5"));
    assert_eq!(students[0].whitebox.as_deref(), Some("0.5"));
}
