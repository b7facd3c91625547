use classroom_helper::jobs::{
    copy_plan, grade_finish, grade_repo_missing, interpreter_for, GitCmd, SyncJob, SyncPhase,
};
use classroom_helper::model::Message;

#[test]
fn sync_clones_when_checkout_is_missing() {
    let (mut job, cmd, msg) = SyncJob::start(
        String::from("school"),
        String::from("hw1-ann"),
        String::from("master"),
        false,
    );
    assert!(matches!(cmd, GitCmd::Clone { org, repo } if org == "school" && repo == "hw1-ann"));
    assert_eq!(msg, "Cloning hw1-ann begin");
    let (cmd, msg) = job.step(true);
    assert!(matches!(cmd, Some(GitCmd::Clean { repo }) if repo == "hw1-ann"));
    assert_eq!(msg.as_deref(), Some("Cloning hw1-ann done"));
    let (cmd, msg) = job.step(true);
    assert!(
        matches!(cmd, Some(GitCmd::Reset { repo, branch }) if repo == "hw1-ann" && branch == "master")
    );
    assert!(msg.is_none());
    let (cmd, msg) = job.step(true);
    assert!(
        matches!(cmd, Some(GitCmd::Checkout { repo, branch }) if repo == "hw1-ann" && branch == "master")
    );
    assert!(msg.is_none());
    let (cmd, msg) = job.step(true);
    assert!(cmd.is_none());
    assert!(msg.is_none());
    assert!(matches!(job.phase, SyncPhase::Done));
}

#[test]
fn sync_fetches_when_checkout_exists() {
    let (_job, cmd, msg) = SyncJob::start(
        String::from("school"),
        String::from("hw1-bob"),
        String::from("main"),
        true,
    );
    assert!(
        matches!(cmd, GitCmd::Fetch { repo, branch } if repo == "hw1-bob" && branch == "main")
    );
    assert_eq!(msg, "Fetching hw1-bob begin");
}

#[test]
fn failed_clone_aborts_the_job() {
    let (mut job, _cmd, _msg) =
        SyncJob::start(String::from("o"), String::from("r"), String::from("master"), false);
    let (cmd, msg) = job.step(false);
    assert!(cmd.is_none());
    assert_eq!(msg.as_deref(), Some("Cloning r failed"));
    assert!(matches!(job.phase, SyncPhase::Done));
}

#[test]
fn failed_reset_reports_and_aborts() {
    let (mut job, _cmd, _msg) =
        SyncJob::start(String::from("o"), String::from("r"), String::from("master"), true);
    job.step(true);
    let (cmd, msg) = job.step(false);
    assert!(cmd.is_none());
    assert_eq!(msg.as_deref(), Some("Resetting r failed"));
}

#[test]
fn failed_checkout_reports() {
    let (mut job, _cmd, _msg) =
        SyncJob::start(String::from("o"), String::from("r"), String::from("master"), true);
    job.step(true);
    job.step(true);
    job.step(true);
    let (cmd, msg) = job.step(false);
    assert!(cmd.is_none());
    assert_eq!(msg.as_deref(), Some("Checkout r failed"));
}

#[test]
fn fixtures_copy_from_template_to_checkout() {
    let copy = vec![String::from("tests"), String::from("Makefile")];
    let steps = copy_plan("workspace", "hw1-template", "hw1", "ann", &copy);
    assert_eq!(steps.len(), 2);
    assert_eq!(steps[0].src, "workspace/hw1-template/tests");
    assert_eq!(steps[0].dest, "workspace/hw1-ann/tests");
    assert_eq!(steps[1].src, "workspace/hw1-template/Makefile");
    assert_eq!(steps[1].dest, "workspace/hw1-ann/Makefile");
}

#[test]
fn interpreter_choice() {
    assert_eq!(interpreter_for("run.sh"), "bash");
    assert_eq!(interpreter_for("sh"), "bash");
    assert_eq!(interpreter_for("grade.py"), "python3");
    assert_eq!(interpreter_for("grader"), "python3");
}

#[test]
fn missing_repo_reports_and_unblocks() {
    let msgs = grade_repo_missing(4, "ann");
    assert_eq!(msgs.len(), 2);
    assert!(matches!(&msgs[0], Message::Status(t) if t == "Grading ann repo not found"));
    assert!(matches!(&msgs[1], Message::Grade(4, None)));
}

#[test]
fn grade_field_variants() {
    let msgs = grade_finish(1, "bob", "{\"grade\": 100}");
    assert!(matches!(&msgs[0], Message::Status(t) if t == "Grading bob ended with Some(100)"));
    assert!(matches!(&msgs[1], Message::Grade(1, Some(g)) if g == "100"));

    let msgs = grade_finish(1, "bob", "{\"grade\": \"90\"}");
    assert!(matches!(&msgs[1], Message::Grade(1, None)));

    let msgs = grade_finish(1, "bob", "{\"score\": 90}");
    assert!(matches!(&msgs[1], Message::Grade(1, None)));

    let msgs = grade_finish(1, "bob", "  {\"grade\": 7.25}\n");
    assert!(matches!(&msgs[1], Message::Grade(1, Some(g)) if g == "7.25"));
}
