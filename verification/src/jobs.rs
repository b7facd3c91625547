//! The background work: synchronising a repository with its remote and
//! running the grader over a checkout. The decisions live here — which
//! command comes next, what to report, what a grader's output means —
//! while the surrounding program runs the commands, copies the files and
//! spawns the processes, feeding every outcome back in.

use crate::model::Message;
use crate::numtext::canon_num;
use crate::roster::opt_view;
use crate::text::{concat2, concat3, string_to_chars};
use vstd::prelude::*;

verus! {

/// One git invocation. The program runs `Clone` in the workspace against
/// `git@github.com:<org>/<repo>.git`, and the others in the repository's
/// checkout.
pub enum GitCmd {
    Clone { org: String, repo: String },
    Fetch { repo: String, branch: String },
    Clean { repo: String },
    Reset { repo: String, branch: String },
    Checkout { repo: String, branch: String },
}

/// Where a synchronisation stands.
#[derive(Clone, Copy, PartialEq, Eq, Structural, Debug)]
pub enum SyncPhase {
    /// Cloning or fetching from the remote.
    Remote,
    /// Removing untracked files.
    Cleaning,
    /// Hard-resetting to the remote branch.
    Resetting,
    /// Checking the branch out.
    CheckingOut,
    /// Finished, well or badly.
    Done,
}

/// A synchronisation of one repository: clone it when it is not there,
/// else fetch; then clean, hard-reset and check out. Any failure ends
/// the job; what was left on disk converges on the next run.
pub struct SyncJob {
    pub org: String,
    pub repo: String,
    pub branch: String,
    /// Whether the remote step is a clone (no checkout yet) or a fetch.
    pub cloning: bool,
    pub phase: SyncPhase,
}

pub open spec fn cloning_begin_text(repo: Seq<char>) -> Seq<char> {
    "Cloning "@ + repo + " begin"@
}

pub open spec fn cloning_done_text(repo: Seq<char>) -> Seq<char> {
    "Cloning "@ + repo + " done"@
}

pub open spec fn cloning_failed_text(repo: Seq<char>) -> Seq<char> {
    "Cloning "@ + repo + " failed"@
}

pub open spec fn fetching_begin_text(repo: Seq<char>) -> Seq<char> {
    "Fetching "@ + repo + " begin"@
}

pub open spec fn fetching_done_text(repo: Seq<char>) -> Seq<char> {
    "Fetching "@ + repo + " done"@
}

pub open spec fn fetching_failed_text(repo: Seq<char>) -> Seq<char> {
    "Fetching "@ + repo + " failed"@
}

pub open spec fn resetting_failed_text(repo: Seq<char>) -> Seq<char> {
    "Resetting "@ + repo + " failed"@
}

pub open spec fn checkout_failed_text(repo: Seq<char>) -> Seq<char> {
    "Checkout "@ + repo + " failed"@
}

impl SyncJob {
    /// Starts a synchronisation: a clone when the checkout is not on
    /// disk, else a fetch of the branch, each announced.
    pub fn start(org: String, repo: String, branch: String, git_exists: bool) -> (r: (
        SyncJob,
        GitCmd,
        String,
    ))
        ensures
            r.0.org == org && r.0.repo == repo && r.0.branch == branch,
            r.0.phase matches SyncPhase::Remote,
            r.0.cloning == !git_exists,
            !git_exists ==> (r.1 matches GitCmd::Clone { org: o2, repo: r2 } && o2@ == org@ && r2@
                == repo@) && r.2@ == cloning_begin_text(repo@),
            git_exists ==> (r.1 matches GitCmd::Fetch { repo: r2, branch: b2 } && r2@ == repo@
                && b2@ == branch@) && r.2@ == fetching_begin_text(repo@),
    {
        if !git_exists {
            let msg = concat2("Cloning ", repo.as_str());
            let msg = concat2(msg.as_str(), " begin");
            proof {
                assert(msg@ =~= cloning_begin_text(repo@));
            }
            let cmd = GitCmd::Clone { org: org.clone(), repo: repo.clone() };
            (SyncJob { org, repo, branch, cloning: true, phase: SyncPhase::Remote }, cmd, msg)
        } else {
            let msg = concat2("Fetching ", repo.as_str());
            let msg = concat2(msg.as_str(), " begin");
            proof {
                assert(msg@ =~= fetching_begin_text(repo@));
            }
            let cmd = GitCmd::Fetch { repo: repo.clone(), branch: branch.clone() };
            (SyncJob { org, repo, branch, cloning: false, phase: SyncPhase::Remote }, cmd, msg)
        }
    }

    /// Feeds the outcome of the last command in and hands out the next
    /// command and the status to report, if any: success runs remote,
    /// clean, reset, checkout in turn; any failure ends the job with its
    /// report.
    pub fn step(&mut self, success: bool) -> (r: (Option<GitCmd>, Option<String>))
        ensures
            final(self).org == old(self).org,
            final(self).repo == old(self).repo,
            final(self).branch == old(self).branch,
            final(self).cloning == old(self).cloning,
            match old(self).phase {
                SyncPhase::Remote => {
                    if success {
                        &&& final(self).phase matches SyncPhase::Cleaning
                        &&& (r.0 matches Some(c) && (c matches GitCmd::Clean { repo } && repo@
                            == old(self).repo@))
                        &&& (r.1 matches Some(m) && m@ == (if old(self).cloning {
                            cloning_done_text(old(self).repo@)
                        } else {
                            fetching_done_text(old(self).repo@)
                        }))
                    } else {
                        &&& final(self).phase matches SyncPhase::Done
                        &&& r.0 is None
                        &&& (r.1 matches Some(m) && m@ == (if old(self).cloning {
                            cloning_failed_text(old(self).repo@)
                        } else {
                            fetching_failed_text(old(self).repo@)
                        }))
                    }
                },
                SyncPhase::Cleaning => {
                    if success {
                        &&& final(self).phase matches SyncPhase::Resetting
                        &&& (r.0 matches Some(c) && (c matches GitCmd::Reset { repo, branch }
                            && repo@ == old(self).repo@ && branch@ == old(self).branch@))
                        &&& r.1 is None
                    } else {
                        &&& final(self).phase matches SyncPhase::Done
                        &&& r.0 is None
                        &&& (r.1 matches Some(m) && m@ == resetting_failed_text(old(self).repo@))
                    }
                },
                SyncPhase::Resetting => {
                    if success {
                        &&& final(self).phase matches SyncPhase::CheckingOut
                        &&& (r.0 matches Some(c) && (c matches GitCmd::Checkout { repo, branch }
                            && repo@ == old(self).repo@ && branch@ == old(self).branch@))
                        &&& r.1 is None
                    } else {
                        &&& final(self).phase matches SyncPhase::Done
                        &&& r.0 is None
                        &&& (r.1 matches Some(m) && m@ == resetting_failed_text(old(self).repo@))
                    }
                },
                SyncPhase::CheckingOut => {
                    &&& final(self).phase matches SyncPhase::Done
                    &&& r.0 is None
                    &&& if success {
                        r.1 is None
                    } else {
                        (r.1 matches Some(m) && m@ == checkout_failed_text(old(self).repo@))
                    }
                },
                SyncPhase::Done => {
                    &&& final(self).phase matches SyncPhase::Done
                    &&& r.0 is None
                    &&& r.1 is None
                },
            },
    {
        match self.phase {
            SyncPhase::Remote => {
                if success {
                    self.phase = SyncPhase::Cleaning;
                    let msg = if self.cloning {
                        let m = concat2("Cloning ", self.repo.as_str());
                        concat2(m.as_str(), " done")
                    } else {
                        let m = concat2("Fetching ", self.repo.as_str());
                        concat2(m.as_str(), " done")
                    };
                    proof {
                        if old(self).cloning {
                            assert(msg@ =~= cloning_done_text(old(self).repo@));
                        } else {
                            assert(msg@ =~= fetching_done_text(old(self).repo@));
                        }
                    }
                    (Some(GitCmd::Clean { repo: self.repo.clone() }), Some(msg))
                } else {
                    self.phase = SyncPhase::Done;
                    let msg = if self.cloning {
                        let m = concat2("Cloning ", self.repo.as_str());
                        concat2(m.as_str(), " failed")
                    } else {
                        let m = concat2("Fetching ", self.repo.as_str());
                        concat2(m.as_str(), " failed")
                    };
                    proof {
                        if old(self).cloning {
                            assert(msg@ =~= cloning_failed_text(old(self).repo@));
                        } else {
                            assert(msg@ =~= fetching_failed_text(old(self).repo@));
                        }
                    }
                    (None, Some(msg))
                }
            },
            SyncPhase::Cleaning => {
                if success {
                    self.phase = SyncPhase::Resetting;
                    (
                        Some(
                            GitCmd::Reset { repo: self.repo.clone(), branch: self.branch.clone() },
                        ),
                        None,
                    )
                } else {
                    self.phase = SyncPhase::Done;
                    let m = concat2("Resetting ", self.repo.as_str());
                    let msg = concat2(m.as_str(), " failed");
                    proof {
                        assert(msg@ =~= resetting_failed_text(old(self).repo@));
                    }
                    (None, Some(msg))
                }
            },
            SyncPhase::Resetting => {
                if success {
                    self.phase = SyncPhase::CheckingOut;
                    (
                        Some(
                            GitCmd::Checkout {
                                repo: self.repo.clone(),
                                branch: self.branch.clone(),
                            },
                        ),
                        None,
                    )
                } else {
                    self.phase = SyncPhase::Done;
                    let m = concat2("Resetting ", self.repo.as_str());
                    let msg = concat2(m.as_str(), " failed");
                    proof {
                        assert(msg@ =~= resetting_failed_text(old(self).repo@));
                    }
                    (None, Some(msg))
                }
            },
            SyncPhase::CheckingOut => {
                self.phase = SyncPhase::Done;
                if success {
                    (None, None)
                } else {
                    let m = concat2("Checkout ", self.repo.as_str());
                    let msg = concat2(m.as_str(), " failed");
                    proof {
                        assert(msg@ =~= checkout_failed_text(old(self).repo@));
                    }
                    (None, Some(msg))
                }
            },
            SyncPhase::Done => (None, None),
        }
    }
}

/// One fixture to copy from the template checkout into a student
/// checkout before grading.
pub struct CopyStep {
    pub src: String,
    pub dest: String,
}

/// A slash-joined path of three parts.
pub open spec fn joined3(a: Seq<char>, b: Seq<char>, c: Seq<char>) -> Seq<char> {
    a + seq!['/'] + b + seq!['/'] + c
}

/// The student checkout's directory name under the workspace.
pub open spec fn checkout_name(prefix: Seq<char>, github: Seq<char>) -> Seq<char> {
    prefix + seq!['-'] + github
}

/// The fixture copies for one student: each configured path, from the
/// template checkout to the student checkout, in order.
pub fn copy_plan(
    workspace: &str,
    template: &str,
    prefix: &str,
    github: &str,
    copy: &Vec<String>,
) -> (steps: Vec<CopyStep>)
    ensures
        steps@.len() == copy@.len(),
        forall|i: int|
            0 <= i < steps@.len() ==> (#[trigger] steps@[i]).src@ == joined3(
                workspace@,
                template@,
                copy@[i]@,
            ) && steps@[i].dest@ == joined3(
                workspace@,
                checkout_name(prefix@, github@),
                copy@[i]@,
            ),
{
    let checkout = concat3(prefix, "-", github);
    proof {
        reveal_strlit("-");
        assert("-"@ =~= seq!['-']);
        assert(checkout@ =~= checkout_name(prefix@, github@));
    }
    let mut steps: Vec<CopyStep> = Vec::new();
    let mut i: usize = 0;
    while i < copy.len()
        invariant
            i <= copy@.len(),
            checkout@ == checkout_name(prefix@, github@),
            steps@.len() == i,
            forall|j: int|
                0 <= j < i ==> (#[trigger] steps@[j]).src@ == joined3(
                    workspace@,
                    template@,
                    copy@[j]@,
                ) && steps@[j].dest@ == joined3(
                    workspace@,
                    checkout_name(prefix@, github@),
                    copy@[j]@,
                ),
        decreases copy@.len() - i,
    {
        let s1 = concat3(workspace, "/", template);
        let src = concat3(s1.as_str(), "/", copy[i].as_str());
        let d1 = concat3(workspace, "/", checkout.as_str());
        let dest = concat3(d1.as_str(), "/", copy[i].as_str());
        proof {
            reveal_strlit("/");
            assert("/"@ =~= seq!['/']);
            assert(src@ =~= joined3(workspace@, template@, copy@[i as int]@));
            assert(dest@ =~= joined3(workspace@, checkout_name(prefix@, github@), copy@[i as int]@));
        }
        steps.push(CopyStep { src, dest });
        i = i + 1;
    }
    steps
}

/// The interpreter a script runs under: `bash` when its name ends in
/// `sh`, else `python3`.
pub open spec fn interpreter_of(script: Seq<char>) -> Seq<char> {
    if script.len() >= 2 && script[script.len() - 2] == 's' && script[script.len() - 1] == 'h' {
        seq!['b', 'a', 's', 'h']
    } else {
        seq!['p', 'y', 't', 'h', 'o', 'n', '3']
    }
}

/// Picks the interpreter for a script.
pub fn interpreter_for(script: &str) -> (r: String)
    ensures
        r@ == interpreter_of(script@),
{
    let chars = string_to_chars(script);
    let n = chars.len();
    let is_sh = n >= 2 && chars[n - 2] == 's' && chars[n - 1] == 'h';
    if is_sh {
        let r = String::from_str("bash");
        proof {
            reveal_strlit("bash");
            assert(r@ =~= interpreter_of(script@));
        }
        r
    } else {
        let r = String::from_str("python3");
        proof {
            reveal_strlit("python3");
            assert(r@ =~= interpreter_of(script@));
        }
        r
    }
}

pub open spec fn repo_not_found_text(github: Seq<char>) -> Seq<char> {
    "Grading "@ + github + " repo not found"@
}

pub open spec fn before_grader_text(github: Seq<char>) -> Seq<char> {
    "Before grader procedure "@ + github + " begin"@
}

pub open spec fn grading_begin_text(github: Seq<char>) -> Seq<char> {
    "Grading "@ + github + " begin"@
}

pub open spec fn grading_ended_text(github: Seq<char>, grade: Option<Seq<char>>) -> Seq<char> {
    "Grading "@ + github + " ended with "@ + (match grade {
        Some(t) => "Some("@ + t + ")"@,
        None => "None"@,
    })
}

/// The messages when a student's checkout is not on disk: the report and
/// an absent grade, so that the controller is unblocked.
pub fn grade_repo_missing(index: usize, github: &str) -> (msgs: Vec<Message>)
    ensures
        msgs@.len() == 2,
        (msgs@[0] matches Message::Status(t) && t@ == repo_not_found_text(github@)),
        (msgs@[1] matches Message::Grade(i, g) && i == index && g is None),
{
    let msg = concat2("Grading ", github);
    let msg = concat2(msg.as_str(), " repo not found");
    proof {
        assert(msg@ =~= repo_not_found_text(github@));
    }
    let mut msgs: Vec<Message> = Vec::new();
    msgs.push(Message::Status(msg));
    msgs.push(Message::Grade(index, None));
    msgs
}

/// The announcement before the pre-grader runs.
pub fn before_grader_message(github: &str) -> (msg: String)
    ensures
        msg@ == before_grader_text(github@),
{
    let msg = concat2("Before grader procedure ", github);
    let msg = concat2(msg.as_str(), " begin");
    proof {
        assert(msg@ =~= before_grader_text(github@));
    }
    msg
}

/// The announcement before the grader runs.
pub fn grading_begin_message(github: &str) -> (msg: String)
    ensures
        msg@ == grading_begin_text(github@),
{
    let msg = concat2("Grading ", github);
    let msg = concat2(msg.as_str(), " begin");
    proof {
        assert(msg@ =~= grading_begin_text(github@));
    }
    msg
}

/// What serde_json finds in a grader's output: the text of the `grade`
/// field when the output is a JSON value whose `grade` field is a
/// number, and nothing otherwise. The outcome depends on the text alone.
pub uninterp spec fn json_grade_of(s: Seq<char>) -> Option<Seq<char>>;

/// Relies on serde_json's `from_str`, `Value::get`, `Value::is_number`
/// and the `Display` of `Value`: parses the output as JSON and renders
/// the number under `grade`, if there is one.
#[verifier::external_body]
fn json_grade_field(s: &str) -> (r: Option<String>)
    ensures
        match r {
            Some(t) => json_grade_of(s@) == Some(t@),
            None => json_grade_of(s@) is None,
        },
{
    match serde_json::from_str::<serde_json::Value>(s) {
        Ok(v) => match v.get("grade") {
            Some(g) => if g.is_number() {
                Some(g.to_string())
            } else {
                None
            },
            None => None,
        },
        Err(_) => None,
    }
}

/// The grade a grader's extracted `grade` text stands for, and the two
/// closing messages: the report of how grading ended, and the grade for
/// the student at `index` — the field's number reduced to canonical
/// text, or absent when there was none or it was no number.
pub fn grade_outcome(index: usize, github: &str, field: Option<String>) -> (msgs: Vec<Message>)
    ensures
        msgs@.len() == 2,
        ({
            let grade = match field {
                Some(t) => canon_num(t@),
                None => None,
            };
            &&& (msgs@[0] matches Message::Status(t) && t@ == grading_ended_text(github@, grade))
            &&& (msgs@[1] matches Message::Grade(i, g) && i == index && opt_view(g) == grade)
        }),
{
    let grade: Option<String> = match &field {
        Some(t) => crate::numtext::canon_grade(t.as_str()),
        None => None,
    };
    let shown: String = match &grade {
        Some(t) => {
            let m = concat3("Some(", t.as_str(), ")");
            m
        },
        None => String::from_str("None"),
    };
    let msg = concat2("Grading ", github);
    let msg = concat2(msg.as_str(), " ended with ");
    let msg = concat2(msg.as_str(), shown.as_str());
    proof {
        let g = match field {
            Some(t) => canon_num(t@),
            None => None,
        };
        assert(msg@ =~= grading_ended_text(github@, g));
    }
    let mut msgs: Vec<Message> = Vec::new();
    msgs.push(Message::Status(msg));
    msgs.push(Message::Grade(index, grade));
    msgs
}

/// The closing messages for a grader's raw standard output: what the
/// `grade` field holds, reduced to canonical text, reported and
/// delivered — whatever the JSON reading returned.
pub fn grade_finish(index: usize, github: &str, output: &str) -> (msgs: Vec<Message>)
    ensures
        msgs@.len() == 2,
        ({
            let grade = match json_grade_of(output@) {
                Some(t) => canon_num(t),
                None => None,
            };
            &&& (msgs@[0] matches Message::Status(t) && t@ == grading_ended_text(github@, grade))
            &&& (msgs@[1] matches Message::Grade(i, g) && i == index && opt_view(g) == grade)
        }),
{
    let field = json_grade_field(output);
    grade_outcome(index, github, field)
}

} // verus!
