use classroom_helper::configs::{Config, ConfigError, ConfigKey, RawOptions};
use classroom_helper::roster::load_roster;
use classroom_helper::view::{
    clamp_render_start, cursor_position, github_column_width, status_scroll, student_row,
};

fn empty_options() -> RawOptions {
    RawOptions {
        organization: None,
        prefix: None,
        students: None,
        template: None,
        template_branch: None,
        workspace: None,
        result: None,
        grader: None,
        before_grader: None,
        diff: None,
        copy: None,
        deadline: None,
    }
}

fn file_options() -> RawOptions {
    RawOptions {
        organization: Some(String::from("school")),
        prefix: Some(String::from("hw1")),
        students: Some(String::from("students.csv")),
        template: Some(String::from("hw1-template")),
        template_branch: None,
        workspace: Some(String::from("workspace")),
        result: Some(String::from("results.csv")),
        grader: Some(String::from("grade.py")),
        before_grader: None,
        diff: Some(String::from("src")),
        copy: Some(vec![String::from("tests")]),
        deadline: None,
    }
}

#[test]
fn command_line_wins_over_file() {
    let mut cli = empty_options();
    cli.organization = Some(String::from("other-org"));
    let c = Config::new(cli, empty_options(), file_options()).unwrap();
    assert_eq!(c.org, "other-org");
    assert_eq!(c.prefix, "hw1");
}

#[test]
fn environment_wins_over_file() {
    let mut env = empty_options();
    env.workspace = Some(String::from("/tmp/ws"));
    let c = Config::new(empty_options(), env, file_options()).unwrap();
    assert_eq!(c.workspace, "/tmp/ws");
}

#[test]
fn template_branch_defaults_to_master() {
    let c = Config::new(empty_options(), empty_options(), file_options()).unwrap();
    assert_eq!(c.template_branch, "master");
    let mut file = file_options();
    file.template_branch = Some(String::from("main"));
    let c = Config::new(empty_options(), empty_options(), file).unwrap();
    assert_eq!(c.template_branch, "main");
}

#[test]
fn missing_required_option_is_named() {
    let mut file = file_options();
    file.grader = None;
    match Config::new(empty_options(), empty_options(), file) {
        Err(ConfigError::Missing { key }) => assert!(matches!(key, ConfigKey::Grader)),
        _ => panic!("expected the missing key"),
    }
}

#[test]
fn deadline_parses_to_epoch_seconds() {
    let mut file = file_options();
    file.deadline = Some(String::from("2023-01-01T00:00:00Z"));
    let c = Config::new(empty_options(), empty_options(), file).unwrap();
    assert_eq!(c.deadline, Some(1672531200));
    let mut file = file_options();
    file.deadline = Some(String::from("not a time"));
    let c = Config::new(empty_options(), empty_options(), file).unwrap();
    assert!(c.deadline.is_none());
}

#[test]
fn render_start_follows_the_selection() {
    assert_eq!(clamp_render_start(None, 4, 30), 4);
    assert_eq!(clamp_render_start(Some(2), 4, 30), 2);
    assert_eq!(clamp_render_start(Some(40), 4, 30), 16);
    assert_eq!(clamp_render_start(Some(10), 4, 30), 4);
}

#[test]
fn github_column_is_ten_at_least() {
    let roster = "student_id,name,github\n1,Ann,ann\n2,Bob,a-very-long-handle\n";
    let students = load_roster(roster, None).unwrap();
    assert_eq!(github_column_width(&students, 0), 18);
    assert_eq!(github_column_width(&students, 2), 10);
}

#[test]
fn status_pane_scrolls_to_the_tail() {
    assert_eq!(status_scroll(10, 8), 5);
    assert_eq!(status_scroll(3, 8), 0);
    assert_eq!(status_scroll(3, 2), 3);
}

#[test]
fn student_row_shows_na_for_absent_grades() {
    let roster = "student_id,name,github\n1,Ann,ann\n";
    let mut students = load_roster(roster, None).unwrap();
    students[0].blackbox = Some(String::from("85"));
    let row = student_row(&students[0]);
    assert_eq!(row, ["1", "Ann", "ann", "85", "N/A"]);
}

#[test]
fn cursor_sits_past_the_text() {
    let (col, row) = cursor_position(2, 40, "Hello");
    assert_eq!(col, 8);
    assert_eq!(row, 41);
    let (col, _row) = cursor_position(2, 40, "");
    assert_eq!(col, 3);
}

#[test]
fn command_line_wins_over_environment() {
    let mut cli = empty_options();
    cli.grader = Some(String::from("cli.py"));
    let mut env = empty_options();
    env.grader = Some(String::from("env.py"));
    let c = Config::new(cli, env, file_options()).unwrap();
    assert_eq!(c.grader, "cli.py");
}
