//! The configuration: immutable after start. Values come from three
//! sources — command line, environment, configuration file — and for each
//! option the first source that has it wins, in that order. The template
//! branch falls back to `master`; the deadline is advisory text parsed to
//! epoch seconds.

use vstd::prelude::*;

verus! {

/// The settings the program runs with.
pub struct Config {
    /// Organization slug at the hosting service.
    pub org: String,
    /// Prefix of every submission repository; a student's repository is
    /// `<prefix>-<github>`.
    pub prefix: String,
    /// Path of the roster table.
    pub students: String,
    /// Template repository slug.
    pub template: String,
    /// Branch of the template repository.
    pub template_branch: String,
    /// Working directory holding the checkouts.
    pub workspace: String,
    /// Path of the result sheet.
    pub results: String,
    /// Grader script, run inside a student checkout.
    pub grader: String,
    /// Pathspec shown in the diff pane.
    pub diff: String,
    /// Script run before the grader, if any.
    pub before_grader: Option<String>,
    /// Template-relative paths copied into a checkout before grading.
    pub copy: Vec<String>,
    /// Advisory deadline, seconds since the epoch.
    pub deadline: Option<i64>,
}

/// The option values one source offers.
pub struct RawOptions {
    pub organization: Option<String>,
    pub prefix: Option<String>,
    pub students: Option<String>,
    pub template: Option<String>,
    pub template_branch: Option<String>,
    pub workspace: Option<String>,
    pub result: Option<String>,
    pub grader: Option<String>,
    pub before_grader: Option<String>,
    pub diff: Option<String>,
    pub copy: Option<Vec<String>>,
    pub deadline: Option<String>,
}

/// A required option that no source has.
#[derive(Debug)]
pub enum ConfigKey {
    Organization,
    Prefix,
    Students,
    Template,
    Workspace,
    Result,
    Grader,
    Diff,
    Copy,
}

/// What building the configuration can object to.
#[derive(Debug)]
pub enum ConfigError {
    Missing { key: ConfigKey },
}

/// The first value in precedence order: command line, then environment,
/// then file.
pub open spec fn resolve3<T>(cli: Option<T>, env: Option<T>, file: Option<T>) -> Option<T> {
    match cli {
        Some(v) => Some(v),
        None => match env {
            Some(v) => Some(v),
            None => file,
        },
    }
}

/// The branch used when no source names one.
pub open spec fn master_text() -> Seq<char> {
    seq!['m', 'a', 's', 't', 'e', 'r']
}

/// What chrono parses an RFC 3339 timestamp text to, as seconds since
/// the epoch; `None` when the text is no timestamp.
pub uninterp spec fn rfc3339_secs(s: Seq<char>) -> Option<i64>;

/// Relies on chrono's `DateTime<Utc>` `FromStr` (RFC 3339) and
/// `timestamp`: the outcome depends on the text alone.
#[verifier::external_body]
fn parse_deadline(s: &str) -> (r: Option<i64>)
    ensures
        r == rfc3339_secs(s@),
{
    match s.parse::<chrono::DateTime<chrono::Utc>>() {
        Ok(d) => Some(d.timestamp()),
        Err(_) => None,
    }
}

fn pick3(cli: Option<String>, env: Option<String>, file: Option<String>) -> (r: Option<String>)
    ensures
        r == resolve3(cli, env, file),
{
    match cli {
        Some(v) => Some(v),
        None => match env {
            Some(v) => Some(v),
            None => file,
        },
    }
}

fn need(v: Option<String>, key: ConfigKey) -> (r: Result<String, ConfigError>)
    ensures
        match r {
            Ok(s) => v == Some(s),
            Err(e) => v is None && e == (ConfigError::Missing { key }),
        },
{
    match v {
        Some(s) => Ok(s),
        None => Err(ConfigError::Missing { key }),
    }
}

impl Config {
    /// Builds the configuration from the three sources, command line
    /// first, environment second, file last. A required option that no
    /// source has is refused, and the error names the first such option
    /// in the order organization, prefix, students, template, workspace,
    /// result, grader, diff, copy.
    pub fn new(cli: RawOptions, env: RawOptions, file: RawOptions) -> (r: Result<
        Config,
        ConfigError,
    >)
        ensures
            match r {
                Ok(c) => {
                    &&& Some(c.org) == resolve3(cli.organization, env.organization, file.organization)
                    &&& Some(c.prefix) == resolve3(cli.prefix, env.prefix, file.prefix)
                    &&& Some(c.students) == resolve3(cli.students, env.students, file.students)
                    &&& Some(c.template) == resolve3(cli.template, env.template, file.template)
                    &&& Some(c.workspace) == resolve3(cli.workspace, env.workspace, file.workspace)
                    &&& Some(c.results) == resolve3(cli.result, env.result, file.result)
                    &&& Some(c.grader) == resolve3(cli.grader, env.grader, file.grader)
                    &&& Some(c.diff) == resolve3(cli.diff, env.diff, file.diff)
                    &&& Some(c.copy) == resolve3(cli.copy, env.copy, file.copy)
                    &&& c.template_branch@ == match resolve3(
                        cli.template_branch,
                        env.template_branch,
                        file.template_branch,
                    ) {
                        Some(b) => b@,
                        None => master_text(),
                    }
                    &&& c.before_grader == resolve3(
                        cli.before_grader,
                        env.before_grader,
                        file.before_grader,
                    )
                    &&& c.deadline == match resolve3(cli.deadline, env.deadline, file.deadline) {
                        Some(d) => rfc3339_secs(d@),
                        None => None,
                    }
                },
                Err(ConfigError::Missing { key }) => match key {
                    ConfigKey::Organization => resolve3(
                        cli.organization,
                        env.organization,
                        file.organization,
                    ) is None,
                    ConfigKey::Prefix => resolve3(cli.prefix, env.prefix, file.prefix) is None
                        && resolve3(cli.organization, env.organization, file.organization) is Some,
                    ConfigKey::Students => resolve3(cli.students, env.students, file.students)
                        is None && resolve3(cli.prefix, env.prefix, file.prefix) is Some,
                    ConfigKey::Template => resolve3(cli.template, env.template, file.template)
                        is None && resolve3(cli.students, env.students, file.students) is Some,
                    ConfigKey::Workspace => resolve3(cli.workspace, env.workspace, file.workspace)
                        is None && resolve3(cli.template, env.template, file.template) is Some,
                    ConfigKey::Result => resolve3(cli.result, env.result, file.result) is None
                        && resolve3(cli.workspace, env.workspace, file.workspace) is Some,
                    ConfigKey::Grader => resolve3(cli.grader, env.grader, file.grader) is None
                        && resolve3(cli.result, env.result, file.result) is Some,
                    ConfigKey::Diff => resolve3(cli.diff, env.diff, file.diff) is None && resolve3(
                        cli.grader,
                        env.grader,
                        file.grader,
                    ) is Some,
                    ConfigKey::Copy => resolve3(cli.copy, env.copy, file.copy) is None && resolve3(
                        cli.diff,
                        env.diff,
                        file.diff,
                    ) is Some,
                },
            },
    {
        let org = match need(
            pick3(cli.organization, env.organization, file.organization),
            ConfigKey::Organization,
        ) {
            Ok(v) => v,
            Err(e) => {
                return Err(e);
            },
        };
        let prefix = match need(pick3(cli.prefix, env.prefix, file.prefix), ConfigKey::Prefix) {
            Ok(v) => v,
            Err(e) => {
                return Err(e);
            },
        };
        let students = match need(
            pick3(cli.students, env.students, file.students),
            ConfigKey::Students,
        ) {
            Ok(v) => v,
            Err(e) => {
                return Err(e);
            },
        };
        let template = match need(
            pick3(cli.template, env.template, file.template),
            ConfigKey::Template,
        ) {
            Ok(v) => v,
            Err(e) => {
                return Err(e);
            },
        };
        let workspace = match need(
            pick3(cli.workspace, env.workspace, file.workspace),
            ConfigKey::Workspace,
        ) {
            Ok(v) => v,
            Err(e) => {
                return Err(e);
            },
        };
        let results = match need(pick3(cli.result, env.result, file.result), ConfigKey::Result) {
            Ok(v) => v,
            Err(e) => {
                return Err(e);
            },
        };
        let grader = match need(pick3(cli.grader, env.grader, file.grader), ConfigKey::Grader) {
            Ok(v) => v,
            Err(e) => {
                return Err(e);
            },
        };
        let diff = match need(pick3(cli.diff, env.diff, file.diff), ConfigKey::Diff) {
            Ok(v) => v,
            Err(e) => {
                return Err(e);
            },
        };
        let copy = match pick3_vec(cli.copy, env.copy, file.copy) {
            Some(v) => v,
            None => {
                return Err(ConfigError::Missing { key: ConfigKey::Copy });
            },
        };
        let template_branch = match pick3(
            cli.template_branch,
            env.template_branch,
            file.template_branch,
        ) {
            Some(b) => b,
            None => {
                let b = String::from_str("master");
                proof {
                    reveal_strlit("master");
                    assert(b@ =~= master_text());
                }
                b
            },
        };
        let before_grader = pick3(cli.before_grader, env.before_grader, file.before_grader);
        let deadline = match pick3(cli.deadline, env.deadline, file.deadline) {
            Some(d) => parse_deadline(d.as_str()),
            None => None,
        };
        Ok(
            Config {
                org,
                prefix,
                students,
                template,
                template_branch,
                workspace,
                results,
                grader,
                diff,
                before_grader,
                copy,
                deadline,
            },
        )
    }
}

fn pick3_vec(cli: Option<Vec<String>>, env: Option<Vec<String>>, file: Option<Vec<String>>) -> (r:
    Option<Vec<String>>)
    ensures
        r == resolve3(cli, env, file),
{
    match cli {
        Some(v) => Some(v),
        None => match env {
            Some(v) => Some(v),
            None => file,
        },
    }
}

} // verus!
