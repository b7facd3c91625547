use classroom_helper::numtext::canon_grade;
use classroom_helper::text::{normalize_tabs, usize_to_string};

#[test]
fn canonical_grades() {
    assert_eq!(canon_grade("85").as_deref(), Some("85"));
    assert_eq!(canon_grade("085").as_deref(), Some("85"));
    assert_eq!(canon_grade("73.5").as_deref(), Some("73.5"));
    assert_eq!(canon_grade("73.50").as_deref(), Some("73.5"));
    assert_eq!(canon_grade(".5").as_deref(), Some("0.5"));
    assert_eq!(canon_grade("5.").as_deref(), Some("5"));
    assert_eq!(canon_grade("0").as_deref(), Some("0"));
    assert_eq!(canon_grade("00.00").as_deref(), Some("0"));
    assert_eq!(canon_grade("+7").as_deref(), Some("7"));
    assert_eq!(canon_grade("-0").as_deref(), Some("-0"));
    assert_eq!(canon_grade("-00.5").as_deref(), Some("-0.5"));
}

#[test]
fn rejected_grades() {
    assert!(canon_grade("").is_none());
    assert!(canon_grade(".").is_none());
    assert!(canon_grade("-").is_none());
    assert!(canon_grade("1.2.3").is_none());
    assert!(canon_grade("N/A").is_none());
    assert!(canon_grade("12a").is_none());
    assert!(canon_grade("1e3").is_none());
    assert!(canon_grade(" 5").is_none());
}

#[test]
fn canonical_text_is_a_fixed_point() {
    for s in ["85", "0.5", "-0", "73.5", "0"] {
        assert_eq!(canon_grade(s).as_deref(), Some(s));
    }
}

#[test]
fn decimal_rendering() {
    assert_eq!(usize_to_string(0), "0");
    assert_eq!(usize_to_string(7), "7");
    assert_eq!(usize_to_string(120), "120");
    assert_eq!(usize_to_string(100003), "100003");
}

#[test]
fn tabs_become_four_spaces() {
    assert_eq!(normalize_tabs("a\tb"), "a    b");
    assert_eq!(normalize_tabs("\t\t"), "        ");
    assert_eq!(normalize_tabs("none"), "none");
}
