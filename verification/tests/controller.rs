use classroom_helper::configs::Config;
use classroom_helper::model::{Effect, InputMode, Key, Message, Model, UiWidget};

fn test_config() -> Config {
    Config {
        org: String::from("school"),
        prefix: String::from("hw1"),
        students: String::from("students.csv"),
        template: String::from("hw1-template"),
        template_branch: String::from("master"),
        workspace: String::from("workspace"),
        results: String::from("results.csv"),
        grader: String::from("grade.py"),
        diff: String::from("src"),
        before_grader: None,
        copy: Vec::new(),
        deadline: None,
    }
}

fn two_student_model() -> Model {
    let roster = "student_id,name,github\n1,Ann,ann\n2,Bob,bob\n";
    Model::new(test_config(), roster, None).unwrap()
}

fn press(m: &mut Model, keys: &str) -> Vec<Effect> {
    let mut all = Vec::new();
    for c in keys.chars() {
        let mut es = m.handle(Key::Char(c));
        all.append(&mut es);
    }
    all
}

#[test]
fn save_after_manual_grade() {
    // selects the first student, types 85, commits it as blackbox
    let mut m = two_student_model();
    press(&mut m, "j85b");
    assert_eq!(m.students[0].blackbox.as_deref(), Some("85"));
    assert_eq!(m.student_select, Some(1));
    let effects = press(&mut m, "s");
    assert_eq!(effects.len(), 1);
    match &effects[0] {
        Effect::SaveResults { path, contents } => {
            assert_eq!(path, "results.csv");
            let bytes = contents.as_bytes();
            assert_eq!(&bytes[0..3], &[0xef, 0xbb, 0xbf]);
            assert!(contents.contains("1,Ann,ann,85,N/A,"));
            assert!(contents.contains("2,Bob,bob,N/A,N/A,"));
        },
        _ => panic!("expected a save"),
    }
}

#[test]
fn grader_output_parses() {
    let mut m = two_student_model();
    press(&mut m, "j");
    let effects = press(&mut m, "g");
    assert!(matches!(&effects[0], Effect::SubmitGrade { index: 0, github } if github == "ann"));
    let msgs = classroom_helper::jobs::grade_finish(0, "ann", "{\"grade\": 73.5}\n");
    m.tick(msgs, 0);
    assert_eq!(m.students[0].blackbox.as_deref(), Some("73.5"));
}

#[test]
fn grader_output_garbage_is_absent() {
    let mut m = two_student_model();
    press(&mut m, "j");
    let msgs = classroom_helper::jobs::grade_finish(0, "ann", "oops");
    m.tick(msgs, 0);
    assert!(m.students[0].blackbox.is_none());
    assert!(m.status.iter().any(|l| l.contains("Grading ann ended with None")));
}

#[test]
fn repeat_applies_last_grade() {
    let mut m = two_student_model();
    press(&mut m, "j85b");
    assert_eq!(m.student_select, Some(1));
    press(&mut m, "r");
    assert_eq!(m.students[1].blackbox.as_deref(), Some("85"));
}

#[test]
fn repeat_without_history_is_a_no_op() {
    let mut m = two_student_model();
    press(&mut m, "j");
    press(&mut m, "r");
    assert!(m.students[0].blackbox.is_none());
    assert!(m.students[0].whitebox.is_none());
    assert_eq!(m.student_select, Some(0));
}

#[test]
fn comment_mode_collects_text() {
    let mut m = two_student_model();
    press(&mut m, "j");
    press(&mut m, "c");
    assert!(matches!(m.input_mode, InputMode::Text));
    press(&mut m, "Hello");
    m.handle(Key::Esc);
    assert!(matches!(m.input_mode, InputMode::Normal));
    assert_eq!(m.students[0].comment.as_deref(), Some("Hello"));
    let sheet = m.gen_results();
    assert!(sheet.contains("1,Ann,ann,N/A,N/A,Hello\n"));
}

#[test]
fn comment_backspace_removes_last_character() {
    let mut m = two_student_model();
    press(&mut m, "jc");
    press(&mut m, "Hix");
    m.handle(Key::Backspace);
    m.handle(Key::Esc);
    assert_eq!(m.students[0].comment.as_deref(), Some("Hi"));
}

#[test]
fn focus_cycle_returns_to_students() {
    let mut m = two_student_model();
    assert!(matches!(m.current, UiWidget::Student));
    press(&mut m, "L");
    assert!(matches!(m.current, UiWidget::Log));
    press(&mut m, "J");
    assert!(matches!(m.current, UiWidget::Diff));
    press(&mut m, "H");
    assert!(matches!(m.current, UiWidget::Student));
    press(&mut m, "K");
    assert!(matches!(m.current, UiWidget::Student));
}

#[test]
fn focus_stays_on_grid() {
    let mut m = two_student_model();
    for c in "HJKLLKJHJJLLKKHHLJKH".chars() {
        m.handle(Key::Char(c));
        assert!(matches!(
            m.current,
            UiWidget::Student | UiWidget::Status | UiWidget::Log | UiWidget::Diff
        ));
    }
}

#[test]
fn numeric_buffer_empty_iff_digit_last() {
    let mut m = two_student_model();
    press(&mut m, "7");
    assert_eq!(m.grade_buffer.as_deref(), Some("7"));
    press(&mut m, ".");
    assert_eq!(m.grade_buffer.as_deref(), Some("7."));
    press(&mut m, "5");
    assert_eq!(m.grade_buffer.as_deref(), Some("7.5"));
    press(&mut m, "x");
    assert!(m.grade_buffer.is_none());
    press(&mut m, "9");
    assert_eq!(m.grade_buffer.as_deref(), Some("9"));
    press(&mut m, "s");
    assert!(m.grade_buffer.is_none());
}

#[test]
fn commit_advances_except_on_last() {
    let mut m = two_student_model();
    press(&mut m, "j");
    assert_eq!(m.student_select, Some(0));
    press(&mut m, "5w");
    assert_eq!(m.student_select, Some(1));
    assert_eq!(m.students[0].whitebox.as_deref(), Some("5"));
    press(&mut m, "6w");
    assert_eq!(m.student_select, Some(1));
    assert_eq!(m.students[1].whitebox.as_deref(), Some("6"));
}

#[test]
fn unparsable_buffer_commits_absent_grade() {
    let mut m = two_student_model();
    press(&mut m, "j1.2.3b");
    assert!(m.students[0].blackbox.is_none());
    assert_eq!(m.student_select, Some(1));
}

#[test]
fn tick_without_messages_changes_nothing() {
    let mut m = two_student_model();
    let status_before = m.status.clone();
    m.tick(Vec::new(), 7);
    assert_eq!(m.status, status_before);
    assert!(m.students[0].blackbox.is_none());
    assert!(m.students[1].blackbox.is_none());
}

#[test]
fn tick_appends_status_with_queue_count() {
    let mut m = two_student_model();
    let msgs = vec![Message::Status(String::from("Cloning hw1-ann begin"))];
    m.tick(msgs, 3);
    assert_eq!(m.status.last().unwrap(), "Cloning hw1-ann begin (3 jobs left)\n");
}

#[test]
fn tick_last_grade_message_wins() {
    let mut m = two_student_model();
    let msgs = vec![
        Message::Grade(0, Some(String::from("10"))),
        Message::Grade(0, Some(String::from("20"))),
    ];
    m.tick(msgs, 0);
    assert_eq!(m.students[0].blackbox.as_deref(), Some("20"));
}

#[test]
fn selection_cycles_with_wraparound() {
    let mut m = two_student_model();
    press(&mut m, "j");
    assert_eq!(m.student_select, Some(0));
    press(&mut m, "j");
    assert_eq!(m.student_select, Some(1));
    press(&mut m, "j");
    assert_eq!(m.student_select, Some(0));
    press(&mut m, "k");
    assert_eq!(m.student_select, Some(1));
}

#[test]
fn selection_from_none_k_picks_last() {
    let mut m = two_student_model();
    press(&mut m, "k");
    assert_eq!(m.student_select, Some(1));
}

#[test]
fn selection_change_requests_refresh() {
    let mut m = two_student_model();
    let effects = press(&mut m, "j");
    assert_eq!(effects.len(), 1);
    assert!(matches!(&effects[0], Effect::RefreshView { repo } if repo == "hw1-ann"));
    assert!(m.status.iter().any(|l| l == "Looking at Ann\n"));
}

#[test]
fn selection_on_empty_roster_stays_empty() {
    let roster = "student_id,name,github\n";
    let mut m = Model::new(test_config(), roster, None).unwrap();
    let effects = press(&mut m, "jk");
    assert!(m.student_select.is_none());
    assert!(effects.is_empty());
}

#[test]
fn fetch_submits_selected_repository() {
    let mut m = two_student_model();
    press(&mut m, "jj");
    let effects = press(&mut m, "f");
    assert_eq!(effects.len(), 1);
    assert!(matches!(
        &effects[0],
        Effect::SubmitSync { repo, branch } if repo == "hw1-bob" && branch == "master"
    ));
}

#[test]
fn fetch_all_starts_with_template() {
    let mut m = two_student_model();
    let effects = press(&mut m, "F");
    assert_eq!(effects.len(), 3);
    assert!(matches!(
        &effects[0],
        Effect::SubmitSync { repo, branch } if repo == "hw1-template" && branch == "master"
    ));
    assert!(matches!(&effects[1], Effect::SubmitSync { repo, .. } if repo == "hw1-ann"));
    assert!(matches!(&effects[2], Effect::SubmitSync { repo, .. } if repo == "hw1-bob"));
}

#[test]
fn grade_all_in_roster_order() {
    let mut m = two_student_model();
    let effects = press(&mut m, "G");
    assert_eq!(effects.len(), 2);
    assert!(matches!(&effects[0], Effect::SubmitGrade { index: 0, github } if github == "ann"));
    assert!(matches!(&effects[1], Effect::SubmitGrade { index: 1, github } if github == "bob"));
}

#[test]
fn template_bump_submits_template() {
    let mut m = two_student_model();
    let effects = press(&mut m, "t");
    assert_eq!(effects.len(), 1);
    assert!(matches!(
        &effects[0],
        Effect::SubmitSync { repo, branch } if repo == "hw1-template" && branch == "master"
    ));
}

#[test]
fn quit_key_asks_to_leave() {
    let mut m = two_student_model();
    let effects = press(&mut m, "q");
    assert_eq!(effects.len(), 1);
    assert!(matches!(effects[0], Effect::Quit));
}

#[test]
fn unhandled_key_is_reported() {
    let mut m = two_student_model();
    press(&mut m, "z");
    assert_eq!(m.status.last().unwrap(), "Unhandled key Char('z')\n");
    m.handle(Key::Enter);
    assert_eq!(m.status.last().unwrap(), "Unhandled key Enter\n");
}

#[test]
fn usage_block_appended() {
    let mut m = two_student_model();
    let before = m.status.len();
    press(&mut m, "?");
    assert_eq!(m.status.len(), before + 10);
    assert_eq!(m.status[before], "Usage: \n");
    assert_eq!(m.status.last().unwrap(), "       c: edit comment\n");
}

#[test]
fn diff_output_empty_becomes_no_difference() {
    let mut m = two_student_model();
    let effects = press(&mut m, "d");
    assert!(matches!(&effects[0], Effect::DiffResults { path, .. } if path == "results.csv"));
    m.set_diff_output("");
    assert_eq!(m.diff, "No difference");
    assert_eq!(m.diff_lines, 1);
}

#[test]
fn diff_output_normalises_tabs_and_counts_lines() {
    let mut m = two_student_model();
    m.set_diff_output("a\tb\nline\n");
    assert_eq!(m.diff, "a    b\nline\n");
    assert_eq!(m.diff_lines, 2);
    assert_eq!(m.diff_scroll_start, 0);
}

#[test]
fn refresh_for_missing_checkout_shows_na() {
    let mut m = two_student_model();
    m.apply_refresh(None);
    assert_eq!(m.log, "N/A");
    assert_eq!(m.diff, "N/A");
    assert_eq!(m.log_lines, 1);
    assert_eq!(m.diff_lines, 1);
}

#[test]
fn refresh_with_history_waits_for_diff() {
    let mut m = two_student_model();
    m.apply_refresh(Some("commit one\n\tindented\n"));
    assert_eq!(m.log, "commit one\n    indented\n");
    assert_eq!(m.log_lines, 2);
    assert_eq!(m.diff, "Waiting...");
    m.apply_refresh_diff("diff body\n");
    assert_eq!(m.diff, "diff body\n");
    assert_eq!(m.diff_lines, 1);
}

#[test]
fn scroll_wraps_in_log_pane() {
    let mut m = two_student_model();
    m.apply_refresh(Some("a\nb\nc\n"));
    press(&mut m, "L");
    assert!(matches!(m.current, UiWidget::Log));
    press(&mut m, "j");
    assert_eq!(m.log_scroll_start, 1);
    press(&mut m, "jj");
    assert_eq!(m.log_scroll_start, 0);
    press(&mut m, "k");
    assert_eq!(m.log_scroll_start, 2);
}

#[test]
fn opening_status_counts_students() {
    let m = two_student_model();
    assert_eq!(m.status.len(), 1);
    assert_eq!(m.status[0], "Read 2 students from data\n");
}

#[test]
fn comment_key_without_selection_is_ignored() {
    let mut m = two_student_model();
    press(&mut m, "c");
    assert!(matches!(m.input_mode, InputMode::Normal));
    assert!(m.grade_buffer.is_none());
}

#[test]
fn buffer_is_canonicalised_on_commit() {
    let mut m = two_student_model();
    press(&mut m, "j07.50b");
    assert_eq!(m.students[0].blackbox.as_deref(), Some("7.5"));
}

#[test]
fn tick_handles_mixed_messages_in_order() {
    let mut m = two_student_model();
    let msgs = vec![
        Message::Status(String::from("one")),
        Message::Grade(1, Some(String::from("42"))),
        Message::Status(String::from("two")),
    ];
    let before = m.status.len();
    m.tick(msgs, 1);
    assert_eq!(m.status.len(), before + 2);
    assert_eq!(m.status[before], "one (1 jobs left)\n");
    assert_eq!(m.status[before + 1], "two (1 jobs left)\n");
    assert_eq!(m.students[1].blackbox.as_deref(), Some("42"));
}
