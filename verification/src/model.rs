//! The controller: all user-interface state and the state machine over
//! it. Keystrokes and periodic ticks come in; the controller mutates its
//! state and hands back the side effects to perform — repository work to
//! submit, text to save or diff, a pane refresh to run. The surrounding
//! program owns the terminal, the worker pools and the message channel;
//! it feeds drained messages back through `tick`.

use crate::configs::Config;
use crate::numtext::{canon_num, is_digit};
use crate::roster::{
    comment_cell, grade_cell, na_text, opt_view, roster_view, serialize_spec, LoadError, Student,
    StudentV,
};
use crate::text::{
    concat2, concat3, count_char, count_char_occurrences, dec_str, normalize_tabs, pop_char,
    push_char, tab_norm, usize_to_string,
};
use vstd::prelude::*;

verus! {

/// The four panes.
#[derive(Clone, Copy, PartialEq, Eq, Structural, Debug)]
pub enum UiWidget {
    Student,
    Status,
    Log,
    Diff,
}

/// Which grade a commit writes: the whitebox axis, the blackbox axis, or
/// whatever was committed last.
#[derive(Clone, Copy, Debug)]
pub enum Select {
    Whitebox,
    Blackbox,
    Last,
}

/// Whether keystrokes drive the controller or edit the comment line.
#[derive(Clone, Copy, PartialEq, Eq, Structural, Debug)]
pub enum InputMode {
    Normal,
    Text,
}

/// A keystroke, as the controller sees it.
#[derive(Clone, Copy, PartialEq, Eq, Structural, Debug)]
pub enum Key {
    Char(char),
    Esc,
    Backspace,
    Enter,
    Other,
}

/// What a worker reports back: a status line, or a grade for the student
/// at an index.
pub enum Message {
    Status(String),
    Grade(usize, Option<String>),
}

/// What the surrounding program must do after a keystroke.
pub enum Effect {
    /// Leave the main loop.
    Quit,
    /// Write `contents` to `path` in one piece.
    SaveResults { path: String, contents: String },
    /// Diff `contents` against the file at `path` and hand the output to
    /// `set_diff_output`.
    DiffResults { path: String, contents: String },
    /// Submit a repository synchronisation to the fetch pool.
    SubmitSync { repo: String, branch: String },
    /// Submit a grade job for the student at `index` to the grade pool.
    SubmitGrade { index: usize, github: String },
    /// The selection moved: show the repository's history in the panes,
    /// through `apply_refresh` and `apply_refresh_diff`.
    RefreshView { repo: String },
}

/// All controller state.
pub struct Model {
    pub config: Config,
    pub current: UiWidget,
    pub students: Vec<Student>,
    pub status: Vec<String>,
    pub log: String,
    pub diff: String,
    pub student_select: Option<usize>,
    pub student_render_start: usize,
    pub log_scroll_start: usize,
    pub log_lines: usize,
    pub diff_scroll_start: usize,
    pub diff_lines: usize,
    pub grade_buffer: Option<String>,
    pub last_grade: Option<(Option<String>, bool)>,
    pub input_mode: InputMode,
    pub bottom_line: String,
}

/// The name of a student's repository: the prefix, a dash, the handle.
pub open spec fn repo_name(prefix: Seq<char>, github: Seq<char>) -> Seq<char> {
    prefix + seq!['-'] + github
}

/// The larger of two numbers.
pub open spec fn spec_max(a: int, b: int) -> int {
    if a >= b {
        a
    } else {
        b
    }
}

impl Model {
    /// The controller's invariant: a selection is in range, a comment
    /// edit has a selected student, and each scroll start lies under its
    /// pane's line count (taken as one line at least).
    pub open spec fn wf(self) -> bool {
        &&& match self.student_select {
            Some(i) => i < self.students@.len(),
            None => true,
        }
        &&& (self.input_mode matches InputMode::Text ==> self.student_select is Some)
        &&& self.log_scroll_start < spec_max(1, self.log_lines as int)
        &&& self.diff_scroll_start < spec_max(1, self.diff_lines as int)
    }
}

/// Where focus goes from `w` under one of the four movement keys. The
/// panes form a grid — Students beside Log, Status beside Diff, Students
/// above Status, Log above Diff — and a move off the grid stays put.
pub open spec fn focus_move_spec(w: UiWidget, c: char) -> UiWidget {
    if c == 'H' {
        match w {
            UiWidget::Student => UiWidget::Student,
            UiWidget::Status => UiWidget::Status,
            UiWidget::Log => UiWidget::Student,
            UiWidget::Diff => UiWidget::Student,
        }
    } else if c == 'J' {
        match w {
            UiWidget::Student => UiWidget::Status,
            UiWidget::Status => UiWidget::Status,
            UiWidget::Log => UiWidget::Diff,
            UiWidget::Diff => UiWidget::Diff,
        }
    } else if c == 'K' {
        match w {
            UiWidget::Student => UiWidget::Student,
            UiWidget::Status => UiWidget::Student,
            UiWidget::Log => UiWidget::Log,
            UiWidget::Diff => UiWidget::Log,
        }
    } else if c == 'L' {
        match w {
            UiWidget::Student => UiWidget::Log,
            UiWidget::Status => UiWidget::Diff,
            UiWidget::Log => UiWidget::Log,
            UiWidget::Diff => UiWidget::Diff,
        }
    } else {
        w
    }
}

/// The selection one step down, wrapping; from no selection, the first
/// student.
pub open spec fn select_down(sel: Option<usize>, n: int) -> Option<usize> {
    match sel {
        None => if n > 0 {
            Some(0usize)
        } else {
            None
        },
        Some(i) => if i + 1 < n {
            Some((i + 1) as usize)
        } else {
            Some(0usize)
        },
    }
}

/// The selection one step up, wrapping; from no selection, the last
/// student.
pub open spec fn select_up(sel: Option<usize>, n: int) -> Option<usize> {
    match sel {
        None => if n > 0 {
            Some((n - 1) as usize)
        } else {
            None
        },
        Some(i) => if i > 0 {
            Some((i - 1) as usize)
        } else {
            Some((n - 1) as usize)
        },
    }
}

/// A scroll start one line down, wrapping at the line count.
pub open spec fn scroll_down(start: int, lines: int) -> int {
    if start + 1 < lines {
        start + 1
    } else {
        0
    }
}

/// A scroll start one line up, wrapping at the line count.
pub open spec fn scroll_up(start: int, lines: int) -> int {
    if start > 0 {
        start - 1
    } else if lines > 0 {
        lines - 1
    } else {
        0
    }
}

/// Whether the key feeds the numeric grade buffer.
pub open spec fn is_digit_key(key: Key) -> bool {
    match key {
        Key::Char(c) => is_digit(c) || c == '.',
        _ => false,
    }
}

/// The text a key is reported as when nothing handles it.
pub open spec fn key_label(key: Key) -> Seq<char> {
    match key {
        Key::Char(c) => "Char('"@ + seq![c] + "')"@,
        Key::Esc => "Esc"@,
        Key::Backspace => "Backspace"@,
        Key::Enter => "Enter"@,
        Key::Other => "Other"@,
    }
}

pub open spec fn unhandled_text(key: Key) -> Seq<char> {
    "Unhandled key "@ + key_label(key) + "\n"@
}

pub open spec fn looking_at_text(name: Seq<char>) -> Seq<char> {
    "Looking at "@ + name + "\n"@
}

pub open spec fn saved_to_text(path: Seq<char>) -> Seq<char> {
    "Saved to "@ + path + "\n"@
}

pub open spec fn editing_text(name: Seq<char>) -> Seq<char> {
    "Editing comment for user "@ + name + "\n"@
}

pub open spec fn editing_done_text(name: Seq<char>) -> Seq<char> {
    "Editing comment for user "@ + name + " done\n"@
}

pub open spec fn read_students_text(n: nat) -> Seq<char> {
    "Read "@ + dec_str(n) + " students from data\n"@
}

/// The help block that `h` or `?` appends to the status log.
pub open spec fn usage_lines() -> Seq<Seq<char>> {
    seq![
        "Usage: \n"@,
        "       H J K L: navigate between panels\n"@,
        "       j k: scroll in panels\n"@,
        "       f F: fetch selected(f)/all(F) students\n"@,
        "       g G: grade blackbox for selected(g)/all(G) students\n"@,
        "       s d: save(s)/diff(d) results\n"@,
        "       [num]+b w: set blackbox(b)/whitebox(w) grade manually\n"@,
        "       r: repeat last grade for current student\n"@,
        "       t: bump template repo to newest version\n"@,
        "       c: edit comment\n"@,
    ]
}

/// The grade the numeric buffer commits: its canonical number, absent on
/// any other text or an empty buffer.
pub open spec fn buffer_grade(buf: Option<Seq<char>>) -> Option<Seq<char>> {
    match buf {
        Some(b) => canon_num(b),
        None => None,
    }
}

/// The image of the last-grade memory.
pub open spec fn last_grade_view(last: Option<(Option<String>, bool)>) -> Option<
    (Option<Seq<char>>, bool),
> {
    match last {
        Some(p) => Some((opt_view(p.0), p.1)),
        None => None,
    }
}

/// What a grade commit writes: the buffer's number for the two axes, the
/// remembered pair for a repeat, nothing for a repeat without history.
pub open spec fn grade_choice(
    select: Select,
    buf: Option<Seq<char>>,
    last: Option<(Option<String>, bool)>,
) -> Option<(Option<Seq<char>>, bool)> {
    match select {
        Select::Whitebox => Some((buffer_grade(buf), true)),
        Select::Blackbox => Some((buffer_grade(buf), false)),
        Select::Last => last_grade_view(last),
    }
}

/// A student with one grade replaced: the whitebox axis when `wbox`,
/// else the blackbox axis.
pub open spec fn with_grade(s: StudentV, g: Option<Seq<char>>, wbox: bool) -> StudentV {
    if wbox {
        StudentV { whitebox: g, ..s }
    } else {
        StudentV { blackbox: g, ..s }
    }
}

/// A student with the comment replaced.
pub open spec fn with_comment(s: StudentV, c: Seq<char>) -> StudentV {
    StudentV { comment: Some(c), ..s }
}

fn unhandled_line(key: Key) -> (r: String)
    ensures
        r@ == unhandled_text(key),
{
    let label: String = match key {
        Key::Char(c) => {
            let mut l = String::from_str("Char('");
            push_char(&mut l, c);
            l.append("')");
            proof {
                assert(l@ =~= key_label(key));
            }
            l
        },
        Key::Esc => String::from_str("Esc"),
        Key::Backspace => String::from_str("Backspace"),
        Key::Enter => String::from_str("Enter"),
        Key::Other => String::from_str("Other"),
    };
    let r = concat3("Unhandled key ", label.as_str(), "\n");
    proof {
        assert(r@ =~= unhandled_text(key));
    }
    r
}

impl Model {
    /// The result sheet for the present roster.
    pub fn gen_results(&self) -> (out: String)
        ensures
            out@ == serialize_spec(roster_view(self.students@)),
    {
        crate::roster::serialize_roster(&self.students)
    }

    /// Builds the controller over a configuration, the roster text and
    /// the saved results text, if any — with the students the roster
    /// module reads from them, one opening status line, focus on the
    /// student pane, nothing selected and nothing pending. A bad record
    /// is passed on as the roster module's error.
    pub fn new(config: Config, roster_text: &str, results_text: Option<&str>) -> (r: Result<
        Model,
        LoadError,
    >)
        ensures
            match r {
                Ok(m) => {
                    &&& m.wf()
                    &&& m.config == config
                    &&& roster_view(m.students@) == crate::roster::load_spec(
                        roster_text@,
                        match results_text {
                            Some(t) => Some(t@),
                            None => None,
                        },
                    )
                    &&& m.students@.len() == crate::csvtext::data_records(roster_text@).len()
                    &&& forall|i: int|
                        0 <= i < m.students@.len() ==> (#[trigger] m.students@[i])@.student_id
                            == crate::csvtext::data_records(roster_text@)[i][0]
                            && m.students@[i]@.name == crate::csvtext::data_records(
                            roster_text@,
                        )[i][1] && m.students@[i]@.github == crate::csvtext::data_records(
                            roster_text@,
                        )[i][2]
                    &&& m.status.deep_view() == seq![
                        read_students_text(m.students@.len() as nat),
                    ]
                    &&& m.current matches UiWidget::Student
                    &&& m.student_select is None
                    &&& m.student_render_start == 0
                    &&& m.log@.len() == 0 && m.diff@.len() == 0
                    &&& m.log_scroll_start == 0 && m.log_lines == 0
                    &&& m.diff_scroll_start == 0 && m.diff_lines == 0
                    &&& m.grade_buffer is None
                    &&& m.last_grade is None
                    &&& m.input_mode matches InputMode::Normal
                    &&& m.bottom_line@.len() == 0
                },
                Err(e) => crate::roster::load_err_spec(
                    roster_text@,
                    match results_text {
                        Some(t) => Some(t@),
                        None => None,
                    },
                    e,
                ),
            },
    {
        let students = match crate::roster::load_roster(roster_text, results_text) {
            Ok(v) => v,
            Err(e) => {
                return Err(e);
            },
        };
        let n = students.len();
        let count = usize_to_string(n);
        let line = concat3("Read ", count.as_str(), " students from data\n");
        let mut status: Vec<String> = Vec::new();
        status.push(line);
        proof {
            assert(status.deep_view() =~= seq![read_students_text(n as nat)]);
        }
        Ok(
            Model {
                config,
                current: UiWidget::Student,
                students,
                status,
                log: String::new(),
                diff: String::new(),
                student_select: None,
                student_render_start: 0,
                log_scroll_start: 0,
                log_lines: 0,
                diff_scroll_start: 0,
                diff_lines: 0,
                grade_buffer: None,
                last_grade: None,
                input_mode: InputMode::Normal,
                bottom_line: String::new(),
            },
        )
    }

    /// Takes the output of a diff of the sheet against the saved file:
    /// tabs become four spaces; empty output becomes the literal
    /// `No difference` with one line; the pane scrolls back to the top.
    pub fn set_diff_output(&mut self, raw: &str)
        ensures
            final(self).diff@ == (if tab_norm(raw@).len() > 0 {
                tab_norm(raw@)
            } else {
                "No difference"@
            }),
            final(self).diff_lines == (if tab_norm(raw@).len() > 0 {
                count_char(tab_norm(raw@), '\n')
            } else {
                1nat
            }),
            final(self).diff_scroll_start == 0,
            *final(self) == (Model {
                diff: final(self).diff,
                diff_lines: final(self).diff_lines,
                diff_scroll_start: final(self).diff_scroll_start,
                ..*old(self)
            }),
            old(self).wf() ==> final(self).wf(),
    {
        let normalized = normalize_tabs(raw);
        if normalized.as_str().unicode_len() > 0 {
            self.diff_lines = count_char_occurrences(normalized.as_str(), '\n');
            self.diff = normalized;
            self.diff_scroll_start = 0;
        } else {
            self.diff = String::from_str("No difference");
            self.diff_lines = 1;
            self.diff_scroll_start = 0;
        }
    }

    /// Takes the history of the newly selected student's repository, or
    /// `None` when the checkout is missing: the log pane shows the
    /// history (tabs as four spaces) or `N/A`; the diff pane waits or
    /// shows `N/A`; both panes scroll back to the top.
    pub fn apply_refresh(&mut self, log_raw: Option<&str>)
        ensures
            match log_raw {
                Some(t) => {
                    &&& final(self).log@ == tab_norm(t@)
                    &&& final(self).log_lines == count_char(tab_norm(t@), '\n')
                    &&& final(self).diff@ == "Waiting..."@
                    &&& final(self).diff_lines == 1
                },
                None => {
                    &&& final(self).log@ == "N/A"@
                    &&& final(self).log_lines == 1
                    &&& final(self).diff@ == "N/A"@
                    &&& final(self).diff_lines == 1
                },
            },
            final(self).log_scroll_start == 0,
            final(self).diff_scroll_start == 0,
            *final(self) == (Model {
                log: final(self).log,
                log_lines: final(self).log_lines,
                log_scroll_start: 0,
                diff: final(self).diff,
                diff_lines: final(self).diff_lines,
                diff_scroll_start: 0,
                ..*old(self)
            }),
            old(self).wf() ==> final(self).wf(),
    {
        match log_raw {
            Some(t) => {
                let normalized = normalize_tabs(t);
                self.log_lines = count_char_occurrences(normalized.as_str(), '\n');
                self.log = normalized;
                self.log_scroll_start = 0;
                self.diff = String::from_str("Waiting...");
                self.diff_lines = 1;
                self.diff_scroll_start = 0;
            },
            None => {
                self.log = String::from_str("N/A");
                self.log_lines = 1;
                self.log_scroll_start = 0;
                self.diff = String::from_str("N/A");
                self.diff_lines = 1;
                self.diff_scroll_start = 0;
            },
        }
    }

    /// Takes the pathspec history for the newly selected student: the
    /// diff pane shows it, tabs as four spaces, scrolled to the top.
    pub fn apply_refresh_diff(&mut self, raw: &str)
        ensures
            final(self).diff@ == tab_norm(raw@),
            final(self).diff_lines == count_char(tab_norm(raw@), '\n'),
            final(self).diff_scroll_start == 0,
            *final(self) == (Model {
                diff: final(self).diff,
                diff_lines: final(self).diff_lines,
                diff_scroll_start: 0,
                ..*old(self)
            }),
            old(self).wf() ==> final(self).wf(),
    {
        let normalized = normalize_tabs(raw);
        self.diff_lines = count_char_occurrences(normalized.as_str(), '\n');
        self.diff = normalized;
        self.diff_scroll_start = 0;
    }
}

fn same_selection(a: Option<usize>, b: Option<usize>) -> (r: bool)
    ensures
        r == (a == b),
{
    match (a, b) {
        (None, None) => true,
        (Some(x), Some(y)) => x == y,
        _ => false,
    }
}

fn master_string() -> (s: String)
    ensures
        s@ == crate::configs::master_text(),
{
    let s = String::from_str("master");
    proof {
        reveal_strlit("master");
        assert(s@ =~= crate::configs::master_text());
    }
    s
}

impl Model {
    /// Commits a grade to the selected student: the buffer's number
    /// (absent when it is no number) to the chosen axis, or the
    /// remembered pair for a repeat; the selection advances by one
    /// unless it is on the last student; the pair is remembered.
    /// Without a selection, or for a repeat without history, nothing
    /// happens.
    fn update_grade(&mut self, select: Select)
        requires
            old(self).wf(),
        ensures
            final(self).wf(),
            final(self).config == old(self).config,
            final(self).current == old(self).current,
            final(self).status == old(self).status,
            final(self).log == old(self).log,
            final(self).diff == old(self).diff,
            final(self).log_lines == old(self).log_lines,
            final(self).diff_lines == old(self).diff_lines,
            final(self).log_scroll_start == old(self).log_scroll_start,
            final(self).diff_scroll_start == old(self).diff_scroll_start,
            final(self).input_mode == old(self).input_mode,
            final(self).bottom_line == old(self).bottom_line,
            final(self).grade_buffer == old(self).grade_buffer,
            final(self).student_render_start == old(self).student_render_start,
            final(self).students@.len() == old(self).students@.len(),
            old(self).students@.len() <= usize::MAX,
            match old(self).student_select {
                None => *final(self) == *old(self),
                Some(i) => match grade_choice(
                    select,
                    opt_view(old(self).grade_buffer),
                    old(self).last_grade,
                ) {
                    None => *final(self) == *old(self),
                    Some(p) => {
                        &&& roster_view(final(self).students@) == roster_view(
                            old(self).students@,
                        ).update(i as int, with_grade(old(self).students@[i as int]@, p.0, p.1))
                        &&& final(self).student_select == (if i + 1 < old(self).students@.len() {
                            Some((i + 1) as usize)
                        } else {
                            Some(i)
                        })
                        &&& last_grade_view(final(self).last_grade) == Some(p)
                    },
                },
            },
    {
        let roster_len = self.students.len();
        proof {
            assert(old(self).students@.len() == roster_len);
        }
        let sel = self.student_select;
        if let Some(index) = sel {
            let pair: Option<(Option<String>, bool)> = match select {
                Select::Last => match &self.last_grade {
                    Some(p) => Some((crate::roster::clone_opt_string(&p.0), p.1)),
                    None => None,
                },
                Select::Whitebox => {
                    let g = match &self.grade_buffer {
                        Some(b) => crate::numtext::canon_grade(b.as_str()),
                        None => None,
                    };
                    Some((g, true))
                },
                Select::Blackbox => {
                    let g = match &self.grade_buffer {
                        Some(b) => crate::numtext::canon_grade(b.as_str()),
                        None => None,
                    };
                    Some((g, false))
                },
            };
            proof {
                if pair is Some {
                    assert(grade_choice(
                        select,
                        opt_view(old(self).grade_buffer),
                        old(self).last_grade,
                    ) matches Some(q) && q.0 == opt_view((pair->0).0) && q.1 == (pair->0).1);
                } else {
                    assert(grade_choice(
                        select,
                        opt_view(old(self).grade_buffer),
                        old(self).last_grade,
                    ) is None);
                }
            }
            if let Some((g, wbox)) = pair {
                let ghost sv = roster_view(self.students@);
                let old_s = &self.students[index];
                let updated = if wbox {
                    Student {
                        student_id: old_s.student_id.clone(),
                        name: old_s.name.clone(),
                        github: old_s.github.clone(),
                        blackbox: crate::roster::clone_opt_string(&old_s.blackbox),
                        whitebox: crate::roster::clone_opt_string(&g),
                        comment: crate::roster::clone_opt_string(&old_s.comment),
                    }
                } else {
                    Student {
                        student_id: old_s.student_id.clone(),
                        name: old_s.name.clone(),
                        github: old_s.github.clone(),
                        blackbox: crate::roster::clone_opt_string(&g),
                        whitebox: crate::roster::clone_opt_string(&old_s.whitebox),
                        comment: crate::roster::clone_opt_string(&old_s.comment),
                    }
                };
                proof {
                    assert(updated@ == with_grade(sv[index as int], opt_view(g), wbox));
                }
                let ghost pre = self.students@;
                self.students.set(index, updated);
                proof {
                    let cur = roster_view(self.students@);
                    let target = sv.update(
                        index as int,
                        with_grade(old(self).students@[index as int]@, opt_view(g), wbox),
                    );
                    assert forall|j: int| 0 <= j < cur.len() implies cur[j] == target[j] by {
                        if j == index as int {
                            assert(self.students@[j] == updated);
                        } else {
                            assert(self.students@[j] == pre[j]);
                            assert(sv[j] == pre[j]@);
                        }
                    }
                    assert(cur =~= target);
                }
                let n = self.students.len();
                proof {
                    assert(index < n);
                }
                if index + 1 < n {
                    self.student_select = Some(index + 1);
                }
                self.last_grade = Some((g, wbox));
            }
        }
    }

    /// Notes that the selection moved: appends the `Looking at` line,
    /// puts the new student's comment on the bottom line, and asks for a
    /// pane refresh of the student's repository.
    fn note_selection(&mut self, effects: &mut Vec<Effect>)
        requires
            old(self).wf(),
            old(self).student_select is Some,
        ensures
            final(self).wf(),
            ({
                let t = old(self).students@[(old(self).student_select->0) as int]@;
                &&& final(self).status.deep_view() == old(self).status.deep_view() + seq![
                    looking_at_text(t.name),
                ]
                &&& final(self).bottom_line@ == comment_cell(t.comment)
                &&& *final(self) == (Model {
                    status: final(self).status,
                    bottom_line: final(self).bottom_line,
                    ..*old(self)
                })
                &&& final(effects)@.len() == old(effects)@.len() + 1
                &&& final(effects)@.subrange(0, old(effects)@.len() as int) == old(effects)@
                &&& is_refresh(
                    final(effects)@.last(),
                    repo_name(old(self).config.prefix@, t.github),
                )
            }),
    {
        let index = match self.student_select {
            Some(i) => i,
            None => {
                proof {
                    assert(false);
                }
                0
            },
        };
        let line = concat3("Looking at ", self.students[index].name.as_str(), "\n");
        proof {
            assert(line@ =~= looking_at_text(old(self).students@[index as int]@.name));
        }
        let ghost pre = self.status.deep_view();
        self.status.push(line);
        proof {
            assert(self.status.deep_view() =~= pre + seq![
                looking_at_text(old(self).students@[index as int]@.name),
            ]);
        }
        self.bottom_line = match &self.students[index].comment {
            Some(c) => c.clone(),
            None => String::new(),
        };
        let repo = concat3(
            self.config.prefix.as_str(),
            "-",
            self.students[index].github.as_str(),
        );
        proof {
            reveal_strlit("-");
            assert("-"@ =~= seq!['-']);
            assert(repo@ =~= repo_name(
                old(self).config.prefix@,
                old(self).students@[index as int]@.github,
            ));
        }
        effects.push(Effect::RefreshView { repo });
        proof {
            assert(effects@.subrange(0, effects@.len() - 1) =~= old(effects)@);
        }
    }
}

/// The keystroke changed nothing but the cleared numeric buffer.
pub open spec fn only_buffer(o: Model, f: Model) -> bool {
    &&& f == (Model { grade_buffer: f.grade_buffer, ..o })
    &&& f.grade_buffer is None
}

/// The keystroke appended status lines and cleared the numeric buffer.
pub open spec fn buffer_and_status(o: Model, f: Model, lines: Seq<Seq<char>>) -> bool {
    &&& f == (Model { grade_buffer: f.grade_buffer, status: f.status, ..o })
    &&& f.grade_buffer is None
    &&& f.status.deep_view() == o.status.deep_view() + lines
}

pub open spec fn is_sync(e: Effect, repo: Seq<char>, branch: Seq<char>) -> bool {
    e matches Effect::SubmitSync { repo: r, branch: b } && r@ == repo && b@ == branch
}

pub open spec fn is_grade_job(e: Effect, index: int, github: Seq<char>) -> bool {
    e matches Effect::SubmitGrade { index: i, github: g } && i == index && g@ == github
}

pub open spec fn is_refresh(e: Effect, repo: Seq<char>) -> bool {
    e matches Effect::RefreshView { repo: r } && r@ == repo
}

/// The keystroke moved the selection to `ns` and asked for the refresh.
pub open spec fn moved_selection(o: Model, f: Model, es: Seq<Effect>, ns: Option<usize>) -> bool {
    let t = o.students@[(ns->0) as int]@;
    &&& f == (Model {
        grade_buffer: f.grade_buffer,
        status: f.status,
        bottom_line: f.bottom_line,
        student_select: f.student_select,
        ..o
    })
    &&& f.grade_buffer is None
    &&& f.student_select == ns
    &&& f.status.deep_view() == o.status.deep_view() + seq![looking_at_text(t.name)]
    &&& f.bottom_line@ == comment_cell(t.comment)
    &&& es.len() == 1
    &&& is_refresh(es[0], repo_name(o.config.prefix@, t.github))
}

/// What one keystroke does, spelled out case by case over the
/// controller's fields.
pub open spec fn handle_spec(o: Model, f: Model, key: Key, es: Seq<Effect>) -> bool {
    if (o.input_mode matches InputMode::Text) {
        let i = (o.student_select->0) as int;
        let t = o.students@[i]@;
        match key {
            Key::Esc => {
                &&& f.input_mode matches InputMode::Normal
                &&& roster_view(f.students@) == roster_view(o.students@).update(
                    i,
                    with_comment(t, o.bottom_line@),
                )
                &&& f.status.deep_view() == o.status.deep_view() + seq![editing_done_text(t.name)]
                &&& f.bottom_line@.len() == 0
                &&& f.grade_buffer == o.grade_buffer
                &&& f.student_select == o.student_select
                &&& f.current == o.current
                &&& f.config == o.config
                &&& f.log == o.log && f.diff == o.diff
                &&& f.log_lines == o.log_lines && f.diff_lines == o.diff_lines
                &&& f.log_scroll_start == o.log_scroll_start
                &&& f.diff_scroll_start == o.diff_scroll_start
                &&& f.last_grade == o.last_grade
                &&& f.student_render_start == o.student_render_start
                &&& f.students@.len() == o.students@.len()
                &&& es.len() == 0
            },
            Key::Backspace => {
                &&& f == (Model { bottom_line: f.bottom_line, ..o })
                &&& f.bottom_line@ == (if o.bottom_line@.len() > 0 {
                    o.bottom_line@.drop_last()
                } else {
                    o.bottom_line@
                })
                &&& es.len() == 0
            },
            Key::Char(c) => {
                &&& f == (Model { bottom_line: f.bottom_line, ..o })
                &&& f.bottom_line@ == o.bottom_line@.push(c)
                &&& es.len() == 0
            },
            _ => {
                &&& f == (Model { status: f.status, ..o })
                &&& f.status.deep_view() == o.status.deep_view() + seq![unhandled_text(key)]
                &&& es.len() == 0
            },
        }
    } else {
        match key {
            Key::Char(c) => {
                if c == 'H' || c == 'J' || c == 'K' || c == 'L' {
                    &&& f == (Model {
                        current: f.current,
                        grade_buffer: f.grade_buffer,
                        ..o
                    })
                    &&& f.current == focus_move_spec(o.current, c)
                    &&& f.grade_buffer is None
                    &&& es.len() == 0
                } else if c == 'j' || c == 'k' {
                    match o.current {
                        UiWidget::Student => {
                            let n = o.students@.len() as int;
                            let ns = if c == 'j' {
                                select_down(o.student_select, n)
                            } else {
                                select_up(o.student_select, n)
                            };
                            if ns == o.student_select {
                                only_buffer(o, f) && es.len() == 0
                            } else {
                                moved_selection(o, f, es, ns)
                            }
                        },
                        UiWidget::Log => {
                            &&& f == (Model {
                                log_scroll_start: f.log_scroll_start,
                                grade_buffer: f.grade_buffer,
                                ..o
                            })
                            &&& f.log_scroll_start == (if c == 'j' {
                                scroll_down(o.log_scroll_start as int, o.log_lines as int)
                            } else {
                                scroll_up(o.log_scroll_start as int, o.log_lines as int)
                            })
                            &&& f.grade_buffer is None
                            &&& es.len() == 0
                        },
                        UiWidget::Diff => {
                            &&& f == (Model {
                                diff_scroll_start: f.diff_scroll_start,
                                grade_buffer: f.grade_buffer,
                                ..o
                            })
                            &&& f.diff_scroll_start == (if c == 'j' {
                                scroll_down(o.diff_scroll_start as int, o.diff_lines as int)
                            } else {
                                scroll_up(o.diff_scroll_start as int, o.diff_lines as int)
                            })
                            &&& f.grade_buffer is None
                            &&& es.len() == 0
                        },
                        UiWidget::Status => only_buffer(o, f) && es.len() == 0,
                    }
                } else if c == 'h' || c == '?' {
                    buffer_and_status(o, f, usage_lines()) && es.len() == 0
                } else if c == 'd' {
                    &&& only_buffer(o, f)
                    &&& es.len() == 1
                    &&& (es[0] matches Effect::DiffResults { path, contents } && path@
                        == o.config.results@ && contents@ == serialize_spec(
                        roster_view(o.students@),
                    ))
                } else if c == 's' {
                    &&& buffer_and_status(o, f, seq![saved_to_text(o.config.results@)])
                    &&& es.len() == 1
                    &&& (es[0] matches Effect::SaveResults { path, contents } && path@
                        == o.config.results@ && contents@ == serialize_spec(
                        roster_view(o.students@),
                    ))
                } else if is_digit(c) || c == '.' {
                    &&& f == (Model { grade_buffer: f.grade_buffer, ..o })
                    &&& (f.grade_buffer matches Some(b) && b@ == (match o.grade_buffer {
                        Some(ob) => ob@.push(c),
                        None => seq![c],
                    }))
                    &&& es.len() == 0
                } else if c == 'b' || c == 'w' || c == 'r' {
                    let kind = if c == 'b' {
                        Select::Blackbox
                    } else if c == 'w' {
                        Select::Whitebox
                    } else {
                        Select::Last
                    };
                    match o.student_select {
                        None => only_buffer(o, f) && es.len() == 0,
                        Some(i) => match grade_choice(
                            kind,
                            opt_view(o.grade_buffer),
                            o.last_grade,
                        ) {
                            None => only_buffer(o, f) && es.len() == 0,
                            Some(p) => {
                                let updated = roster_view(o.students@).update(
                                    i as int,
                                    with_grade(o.students@[i as int]@, p.0, p.1),
                                );
                                &&& roster_view(f.students@) == updated
                                &&& f.students@.len() == o.students@.len()
                                &&& last_grade_view(f.last_grade) == Some(p)
                                &&& f.grade_buffer is None
                                &&& f.config == o.config && f.current == o.current
                                &&& f.input_mode == o.input_mode
                                &&& f.log == o.log && f.diff == o.diff
                                &&& f.log_lines == o.log_lines && f.diff_lines == o.diff_lines
                                &&& f.log_scroll_start == o.log_scroll_start
                                &&& f.diff_scroll_start == o.diff_scroll_start
                                &&& f.student_render_start == o.student_render_start
                                &&& if i + 1 < o.students@.len() {
                                    let t = updated[i + 1];
                                    &&& f.student_select == Some((i + 1) as usize)
                                    &&& f.status.deep_view() == o.status.deep_view() + seq![
                                        looking_at_text(t.name),
                                    ]
                                    &&& f.bottom_line@ == comment_cell(t.comment)
                                    &&& es.len() == 1
                                    &&& is_refresh(es[0], repo_name(o.config.prefix@, t.github))
                                } else {
                                    &&& f.student_select == Some(i)
                                    &&& f.status == o.status
                                    &&& f.bottom_line == o.bottom_line
                                    &&& es.len() == 0
                                }
                            },
                        },
                    }
                } else if c == 'f' {
                    &&& only_buffer(o, f)
                    &&& match o.student_select {
                        Some(i) => es.len() == 1 && is_sync(
                            es[0],
                            repo_name(o.config.prefix@, o.students@[i as int]@.github),
                            crate::configs::master_text(),
                        ),
                        None => es.len() == 0,
                    }
                } else if c == 'F' {
                    &&& only_buffer(o, f)
                    &&& es.len() == o.students@.len() + 1
                    &&& is_sync(es[0], o.config.template@, o.config.template_branch@)
                    &&& forall|j: int|
                        1 <= j < es.len() ==> is_sync(
                            #[trigger] es[j],
                            repo_name(o.config.prefix@, o.students@[j - 1]@.github),
                            crate::configs::master_text(),
                        )
                } else if c == 'g' {
                    &&& only_buffer(o, f)
                    &&& match o.student_select {
                        Some(i) => es.len() == 1 && is_grade_job(
                            es[0],
                            i as int,
                            o.students@[i as int]@.github,
                        ),
                        None => es.len() == 0,
                    }
                } else if c == 'G' {
                    &&& only_buffer(o, f)
                    &&& es.len() == o.students@.len()
                    &&& forall|j: int|
                        0 <= j < es.len() ==> is_grade_job(
                            #[trigger] es[j],
                            j,
                            o.students@[j]@.github,
                        )
                } else if c == 't' {
                    &&& only_buffer(o, f)
                    &&& es.len() == 1
                    &&& is_sync(es[0], o.config.template@, o.config.template_branch@)
                } else if c == 'c' {
                    match o.student_select {
                        Some(i) => {
                            let t = o.students@[i as int]@;
                            &&& f == (Model {
                                input_mode: f.input_mode,
                                status: f.status,
                                bottom_line: f.bottom_line,
                                grade_buffer: f.grade_buffer,
                                ..o
                            })
                            &&& f.input_mode matches InputMode::Text
                            &&& f.status.deep_view() == o.status.deep_view() + seq![
                                editing_text(t.name),
                            ]
                            &&& f.bottom_line@ == comment_cell(t.comment)
                            &&& f.grade_buffer is None
                            &&& es.len() == 0
                        },
                        None => only_buffer(o, f) && es.len() == 0,
                    }
                } else if c == 'q' {
                    &&& only_buffer(o, f)
                    &&& es.len() == 1
                    &&& es[0] matches Effect::Quit
                } else {
                    buffer_and_status(o, f, seq![unhandled_text(key)]) && es.len() == 0
                }
            },
            _ => buffer_and_status(o, f, seq![unhandled_text(key)]) && es.len() == 0,
        }
    }
}

fn focus_move(w: UiWidget, c: char) -> (r: UiWidget)
    ensures
        r == focus_move_spec(w, c),
{
    if c == 'H' {
        match w {
            UiWidget::Student => UiWidget::Student,
            UiWidget::Status => UiWidget::Status,
            UiWidget::Log => UiWidget::Student,
            UiWidget::Diff => UiWidget::Student,
        }
    } else if c == 'J' {
        match w {
            UiWidget::Student => UiWidget::Status,
            UiWidget::Status => UiWidget::Status,
            UiWidget::Log => UiWidget::Diff,
            UiWidget::Diff => UiWidget::Diff,
        }
    } else if c == 'K' {
        match w {
            UiWidget::Student => UiWidget::Student,
            UiWidget::Status => UiWidget::Student,
            UiWidget::Log => UiWidget::Log,
            UiWidget::Diff => UiWidget::Log,
        }
    } else if c == 'L' {
        match w {
            UiWidget::Student => UiWidget::Log,
            UiWidget::Status => UiWidget::Diff,
            UiWidget::Log => UiWidget::Log,
            UiWidget::Diff => UiWidget::Diff,
        }
    } else {
        w
    }
}

impl Model {
    /// Appends the usage block to the status log.
    fn push_usage(&mut self)
        ensures
            final(self).status.deep_view() == old(self).status.deep_view() + usage_lines(),
            *final(self) == (Model { status: final(self).status, ..*old(self) }),
    {
        let ghost pre = self.status.deep_view();
        self.status.push(String::from_str("Usage: \n"));
        self.status.push(String::from_str("       H J K L: navigate between panels\n"));
        self.status.push(String::from_str("       j k: scroll in panels\n"));
        self.status.push(String::from_str("       f F: fetch selected(f)/all(F) students\n"));
        self.status.push(
            String::from_str("       g G: grade blackbox for selected(g)/all(G) students\n"),
        );
        self.status.push(String::from_str("       s d: save(s)/diff(d) results\n"));
        self.status.push(
            String::from_str("       [num]+b w: set blackbox(b)/whitebox(w) grade manually\n"),
        );
        self.status.push(String::from_str("       r: repeat last grade for current student\n"));
        self.status.push(String::from_str("       t: bump template repo to newest version\n"));
        self.status.push(String::from_str("       c: edit comment\n"));
        proof {
            assert(self.status.deep_view() =~= pre + usage_lines());
        }
    }

    /// Handles one keystroke in comment mode.
    fn handle_text(&mut self, key: Key)
        requires
            old(self).wf(),
            old(self).input_mode matches InputMode::Text,
        ensures
            final(self).wf(),
            handle_spec(*old(self), *final(self), key, Seq::<Effect>::empty()),
    {
        let index = match self.student_select {
            Some(i) => i,
            None => {
                proof {
                    assert(false);
                }
                0
            },
        };
        match key {
            Key::Esc => {
                self.input_mode = InputMode::Normal;
                let line = concat3(
                    "Editing comment for user ",
                    self.students[index].name.as_str(),
                    " done\n",
                );
                proof {
                    assert(line@ =~= editing_done_text(old(self).students@[index as int]@.name));
                }
                let ghost pre_status = self.status.deep_view();
                self.status.push(line);
                proof {
                    assert(self.status.deep_view() =~= pre_status + seq![
                        editing_done_text(old(self).students@[index as int]@.name),
                    ]);
                }
                let old_s = &self.students[index];
                let updated = Student {
                    student_id: old_s.student_id.clone(),
                    name: old_s.name.clone(),
                    github: old_s.github.clone(),
                    blackbox: crate::roster::clone_opt_string(&old_s.blackbox),
                    whitebox: crate::roster::clone_opt_string(&old_s.whitebox),
                    comment: Some(self.bottom_line.clone()),
                };
                proof {
                    assert(updated@ == with_comment(
                        old(self).students@[index as int]@,
                        old(self).bottom_line@,
                    ));
                }
                let ghost pre = self.students@;
                self.students.set(index, updated);
                proof {
                    let cur = roster_view(self.students@);
                    let target = roster_view(old(self).students@).update(
                        index as int,
                        with_comment(old(self).students@[index as int]@, old(self).bottom_line@),
                    );
                    assert forall|j: int| 0 <= j < cur.len() implies cur[j] == target[j] by {
                        if j == index as int {
                            assert(self.students@[j] == updated);
                        } else {
                            assert(self.students@[j] == pre[j]);
                        }
                    }
                    assert(cur =~= target);
                }
                self.bottom_line = String::new();
            },
            Key::Backspace => {
                pop_char(&mut self.bottom_line);
            },
            Key::Char(c) => {
                push_char(&mut self.bottom_line, c);
            },
            _ => {
                let line = unhandled_line(key);
                let ghost pre_status = self.status.deep_view();
                self.status.push(line);
                proof {
                    assert(self.status.deep_view() =~= pre_status + seq![unhandled_text(key)]);
                }
            },
        }
    }

    /// Handles one keystroke, as `handle_spec` lays out case by case,
    /// and returns the side effects for the surrounding program to
    /// perform, in order. At the end of every keystroke in normal mode
    /// the numeric buffer is empty exactly when the key was no digit
    /// and no dot.
    #[verifier::rlimit(100)]
    pub fn handle(&mut self, key: Key) -> (effects: Vec<Effect>)
        requires
            old(self).wf(),
        ensures
            final(self).wf(),
            final(self).config == old(self).config,
            old(self).input_mode matches InputMode::Normal ==> ((final(self).grade_buffer
                is None) <==> !is_digit_key(key)),
            handle_spec(*old(self), *final(self), key, effects@),
    {
        let mut effects: Vec<Effect> = Vec::new();
        if let InputMode::Text = self.input_mode {
            self.handle_text(key);
            proof {
                assert(effects@ =~= Seq::<Effect>::empty());
            }
            return effects;
        }
        match key {
            Key::Char(c) => {
                if c == 'H' || c == 'J' || c == 'K' || c == 'L' {
                    self.current = focus_move(self.current, c);
                    self.grade_buffer = None;
                } else if c == 'j' || c == 'k' {
                    match self.current {
                        UiWidget::Student => {
                            let n = self.students.len();
                            let ns: Option<usize> = if c == 'j' {
                                match self.student_select {
                                    None => if n > 0 {
                                        Some(0)
                                    } else {
                                        None
                                    },
                                    Some(i) => if i + 1 < n {
                                        Some(i + 1)
                                    } else {
                                        Some(0)
                                    },
                                }
                            } else {
                                match self.student_select {
                                    None => if n > 0 {
                                        Some(n - 1)
                                    } else {
                                        None
                                    },
                                    Some(i) => if i > 0 {
                                        Some(i - 1)
                                    } else {
                                        Some(n - 1)
                                    },
                                }
                            };
                            let changed = !same_selection(self.student_select, ns);
                            self.student_select = ns;
                            self.grade_buffer = None;
                            if changed {
                                proof {
                                    assert(ns is Some);
                                }
                                self.note_selection(&mut effects);
                            }
                        },
                        UiWidget::Log => {
                            self.log_scroll_start = if c == 'j' {
                                if self.log_scroll_start + 1 < self.log_lines {
                                    self.log_scroll_start + 1
                                } else {
                                    0
                                }
                            } else {
                                if self.log_scroll_start > 0 {
                                    self.log_scroll_start - 1
                                } else if self.log_lines > 0 {
                                    self.log_lines - 1
                                } else {
                                    0
                                }
                            };
                            self.grade_buffer = None;
                        },
                        UiWidget::Diff => {
                            self.diff_scroll_start = if c == 'j' {
                                if self.diff_scroll_start + 1 < self.diff_lines {
                                    self.diff_scroll_start + 1
                                } else {
                                    0
                                }
                            } else {
                                if self.diff_scroll_start > 0 {
                                    self.diff_scroll_start - 1
                                } else if self.diff_lines > 0 {
                                    self.diff_lines - 1
                                } else {
                                    0
                                }
                            };
                            self.grade_buffer = None;
                        },
                        UiWidget::Status => {
                            self.grade_buffer = None;
                        },
                    }
                } else if c == 'h' || c == '?' {
                    self.push_usage();
                    self.grade_buffer = None;
                } else if c == 'd' {
                    let contents = self.gen_results();
                    effects.push(
                        Effect::DiffResults { path: self.config.results.clone(), contents },
                    );
                    self.grade_buffer = None;
                } else if c == 's' {
                    let contents = self.gen_results();
                    let line = concat3("Saved to ", self.config.results.as_str(), "\n");
                    proof {
                        assert(line@ =~= saved_to_text(old(self).config.results@));
                    }
                    let ghost pre = self.status.deep_view();
                    self.status.push(line);
                    proof {
                        assert(self.status.deep_view() =~= pre + seq![
                            saved_to_text(old(self).config.results@),
                        ]);
                    }
                    effects.push(
                        Effect::SaveResults { path: self.config.results.clone(), contents },
                    );
                    self.grade_buffer = None;
                } else if crate::numtext::digit(c) || c == '.' {
                    let nb = match &self.grade_buffer {
                        Some(b) => {
                            let mut b2 = b.clone();
                            push_char(&mut b2, c);
                            b2
                        },
                        None => {
                            let mut s = String::new();
                            push_char(&mut s, c);
                            s
                        },
                    };
                    proof {
                        if old(self).grade_buffer is None {
                            assert(nb@ =~= seq![c]);
                        }
                    }
                    self.grade_buffer = Some(nb);
                } else if c == 'b' || c == 'w' || c == 'r' {
                    let kind = if c == 'b' {
                        Select::Blackbox
                    } else if c == 'w' {
                        Select::Whitebox
                    } else {
                        Select::Last
                    };
                    let orig = self.student_select;
                    self.update_grade(kind);
                    self.grade_buffer = None;
                    let changed = !same_selection(orig, self.student_select);
                    if changed {
                        let ghost mid = *self;
                        self.note_selection(&mut effects);
                        proof {
                            let o = *old(self);
                            assert(o.student_select is Some);
                            let i = (o.student_select->0) as int;
                            assert(grade_choice(
                                kind,
                                opt_view(o.grade_buffer),
                                o.last_grade,
                            ) is Some);
                            let p = grade_choice(
                                kind,
                                opt_view(o.grade_buffer),
                                o.last_grade,
                            )->0;
                            assert(i + 1 < o.students@.len()) by {
                                if !(i + 1 < o.students@.len()) {
                                    assert(mid.student_select == Some(i as usize));
                                }
                            }
                            let updated = roster_view(o.students@).update(
                                i,
                                with_grade(o.students@[i]@, p.0, p.1),
                            );
                            assert(roster_view(mid.students@) == updated);
                            assert((mid.student_select->0) as int == i + 1);
                            assert(mid.students@[i + 1]@ == roster_view(mid.students@)[i + 1]);
                            assert(mid.students@[i + 1]@ == updated[i + 1]);
                        }
                    }
                } else if c == 'f' {
                    if let Some(index) = self.student_select {
                        let repo = concat3(
                            self.config.prefix.as_str(),
                            "-",
                            self.students[index].github.as_str(),
                        );
                        proof {
                            reveal_strlit("-");
                            assert("-"@ =~= seq!['-']);
                            assert(repo@ =~= repo_name(
                                old(self).config.prefix@,
                                old(self).students@[index as int]@.github,
                            ));
                        }
                        effects.push(Effect::SubmitSync { repo, branch: master_string() });
                    }
                    self.grade_buffer = None;
                } else if c == 'F' {
                    effects.push(
                        Effect::SubmitSync {
                            repo: self.config.template.clone(),
                            branch: self.config.template_branch.clone(),
                        },
                    );
                    let mut i: usize = 0;
                    while i < self.students.len()
                        invariant
                            i <= self.students@.len(),
                            self == old(self),
                            effects@.len() == i + 1,
                            is_sync(
                                effects@[0],
                                old(self).config.template@,
                                old(self).config.template_branch@,
                            ),
                            forall|j: int|
                                1 <= j <= i ==> is_sync(
                                    #[trigger] effects@[j],
                                    repo_name(
                                        old(self).config.prefix@,
                                        old(self).students@[j - 1]@.github,
                                    ),
                                    crate::configs::master_text(),
                                ),
                        decreases self.students@.len() - i,
                    {
                        let repo = concat3(
                            self.config.prefix.as_str(),
                            "-",
                            self.students[i].github.as_str(),
                        );
                        proof {
                            reveal_strlit("-");
                            assert("-"@ =~= seq!['-']);
                            assert(repo@ =~= repo_name(
                                old(self).config.prefix@,
                                old(self).students@[i as int]@.github,
                            ));
                        }
                        effects.push(Effect::SubmitSync { repo, branch: master_string() });
                        i = i + 1;
                    }
                    self.grade_buffer = None;
                } else if c == 'g' {
                    if let Some(index) = self.student_select {
                        let github = self.students[index].github.clone();
                        effects.push(Effect::SubmitGrade { index, github });
                    }
                    self.grade_buffer = None;
                } else if c == 'G' {
                    let mut i: usize = 0;
                    while i < self.students.len()
                        invariant
                            i <= self.students@.len(),
                            self == old(self),
                            effects@.len() == i,
                            forall|j: int|
                                0 <= j < i ==> is_grade_job(
                                    #[trigger] effects@[j],
                                    j,
                                    old(self).students@[j]@.github,
                                ),
                        decreases self.students@.len() - i,
                    {
                        let github = self.students[i].github.clone();
                        effects.push(Effect::SubmitGrade { index: i, github });
                        i = i + 1;
                    }
                    self.grade_buffer = None;
                } else if c == 't' {
                    effects.push(
                        Effect::SubmitSync {
                            repo: self.config.template.clone(),
                            branch: self.config.template_branch.clone(),
                        },
                    );
                    self.grade_buffer = None;
                } else if c == 'c' {
                    if let Some(index) = self.student_select {
                        self.input_mode = InputMode::Text;
                        let line = concat3(
                            "Editing comment for user ",
                            self.students[index].name.as_str(),
                            "\n",
                        );
                        proof {
                            assert(line@ =~= editing_text(
                                old(self).students@[index as int]@.name,
                            ));
                        }
                        let ghost pre = self.status.deep_view();
                        self.status.push(line);
                        proof {
                            assert(self.status.deep_view() =~= pre + seq![
                                editing_text(old(self).students@[index as int]@.name),
                            ]);
                        }
                        self.bottom_line = match &self.students[index].comment {
                            Some(cm) => cm.clone(),
                            None => String::new(),
                        };
                    }
                    self.grade_buffer = None;
                } else if c == 'q' {
                    effects.push(Effect::Quit);
                    self.grade_buffer = None;
                } else {
                    let line = unhandled_line(key);
                    let ghost pre = self.status.deep_view();
                    self.status.push(line);
                    proof {
                        assert(self.status.deep_view() =~= pre + seq![unhandled_text(key)]);
                    }
                    self.grade_buffer = None;
                }
            },
            _ => {
                let line = unhandled_line(key);
                let ghost pre = self.status.deep_view();
                self.status.push(line);
                proof {
                    assert(self.status.deep_view() =~= pre + seq![unhandled_text(key)]);
                }
                self.grade_buffer = None;
            },
        }
        effects
    }
}

/// Every grade message names a student of the roster.
pub open spec fn msgs_ok(msgs: Seq<Message>, n: int) -> bool {
    forall|j: int|
        0 <= j < msgs.len() ==> ((#[trigger] msgs[j]) matches Message::Grade(i, g) ==> i < n)
}

/// The status line a worker report becomes: the text and the number of
/// jobs still queued.
pub open spec fn status_line_text(t: Seq<char>, n: nat) -> Seq<char> {
    t + " ("@ + dec_str(n) + " jobs left)\n"@
}

/// The status lines of a batch of messages, in order.
pub open spec fn status_lines(msgs: Seq<Message>, n: nat) -> Seq<Seq<char>>
    decreases msgs.len(),
{
    if msgs.len() == 0 {
        Seq::<Seq<char>>::empty()
    } else {
        (match msgs[0] {
            Message::Status(t) => seq![status_line_text(t@, n)],
            Message::Grade(_, _) => Seq::<Seq<char>>::empty(),
        }) + status_lines(msgs.drop_first(), n)
    }
}

/// The grade the last message for student `i` carries, if any.
pub open spec fn last_grade_msg(msgs: Seq<Message>, i: int) -> Option<Option<Seq<char>>>
    decreases msgs.len(),
{
    if msgs.len() == 0 {
        None
    } else {
        match msgs.last() {
            Message::Grade(j, g) => if j == i {
                Some(opt_view(g))
            } else {
                last_grade_msg(msgs.drop_last(), i)
            },
            Message::Status(_) => last_grade_msg(msgs.drop_last(), i),
        }
    }
}

/// Whether a batch of messages changes anything: some status line, or
/// some student whose final grade message differs from what he has.
pub open spec fn tick_effective(m: Model, msgs: Seq<Message>) -> bool {
    ||| exists|j: int| 0 <= j < msgs.len() && (#[trigger] msgs[j]) matches Message::Status(_)
    ||| exists|i: int|
        0 <= i < m.students@.len() && (match last_grade_msg(msgs, i) {
            Some(g) => g != (#[trigger] m.students@[i])@.blackbox,
            None => false,
        })
}

proof fn lemma_status_lines_snoc(msgs: Seq<Message>, m: Message, n: nat)
    ensures
        status_lines(msgs.push(m), n) == status_lines(msgs, n) + (match m {
            Message::Status(t) => seq![status_line_text(t@, n)],
            Message::Grade(_, _) => Seq::<Seq<char>>::empty(),
        }),
    decreases msgs.len(),
{
    let tail = match m {
        Message::Status(t) => seq![status_line_text(t@, n)],
        Message::Grade(_, _) => Seq::<Seq<char>>::empty(),
    };
    if msgs.len() == 0 {
        assert(msgs.push(m)[0] == m);
        assert(msgs.push(m).drop_first() =~= Seq::<Message>::empty());
        assert(status_lines(Seq::<Message>::empty(), n) =~= Seq::<Seq<char>>::empty());
        assert(status_lines(msgs, n) =~= Seq::<Seq<char>>::empty());
        assert(status_lines(msgs.push(m), n) =~~= status_lines(msgs, n) + tail);
    } else {
        assert(msgs.push(m)[0] == msgs[0]);
        assert(msgs.push(m).drop_first() =~= msgs.drop_first().push(m));
        lemma_status_lines_snoc(msgs.drop_first(), m, n);
        assert(status_lines(msgs.push(m), n) == (match msgs[0] {
            Message::Status(t) => seq![status_line_text(t@, n)],
            Message::Grade(_, _) => Seq::<Seq<char>>::empty(),
        }) + status_lines(msgs.drop_first().push(m), n));
        assert(status_lines(msgs, n) == (match msgs[0] {
            Message::Status(t) => seq![status_line_text(t@, n)],
            Message::Grade(_, _) => Seq::<Seq<char>>::empty(),
        }) + status_lines(msgs.drop_first(), n));
        assert(status_lines(msgs.push(m), n) =~~= status_lines(msgs, n) + tail);
    }
}

proof fn lemma_last_grade_snoc(msgs: Seq<Message>, m: Message, i: int)
    ensures
        last_grade_msg(msgs.push(m), i) == (match m {
            Message::Grade(j, g) => if j == i {
                Some(opt_view(g))
            } else {
                last_grade_msg(msgs, i)
            },
            Message::Status(_) => last_grade_msg(msgs, i),
        }),
{
    assert(msgs.push(m).last() == m);
    assert(msgs.push(m).drop_last() =~= msgs);
}

proof fn lemma_status_lines_nonempty(msgs: Seq<Message>, n: nat, j: int)
    requires
        0 <= j < msgs.len(),
        msgs[j] matches Message::Status(_),
    ensures
        status_lines(msgs, n).len() >= 1,
    decreases msgs.len(),
{
    if j == 0 {
    } else {
        lemma_status_lines_nonempty(msgs.drop_first(), n, j - 1);
    }
}

impl Model {
    /// Takes the messages a tick drained from the channel, with how many
    /// jobs the two pools still hold queued. Every status text is
    /// appended to the status log with the queue count; every grade
    /// message writes the named student's blackbox grade, the last
    /// message for a student winning. An empty batch changes nothing; a
    /// batch with a status line, or with a final grade a student does
    /// not already have, always changes something.
    pub fn tick(&mut self, messages: Vec<Message>, jobs_left: usize)
        requires
            old(self).wf(),
            msgs_ok(messages@, old(self).students@.len() as int),
        ensures
            final(self).wf(),
            *final(self) == (Model {
                students: final(self).students,
                status: final(self).status,
                ..*old(self)
            }),
            final(self).status.deep_view() == old(self).status.deep_view() + status_lines(
                messages@,
                jobs_left as nat,
            ),
            final(self).students@.len() == old(self).students@.len(),
            roster_view(final(self).students@) == Seq::new(
                old(self).students@.len(),
                |i: int|
                    match last_grade_msg(messages@, i) {
                        Some(g) => StudentV { blackbox: g, ..old(self).students@[i]@ },
                        None => old(self).students@[i]@,
                    },
            ),
            messages@.len() == 0 ==> *final(self) == *old(self),
            tick_effective(*old(self), messages@) ==> *final(self) != *old(self),
    {
        let ghost o = *old(self);
        let ghost msgs = messages@;
        if messages.len() == 0 {
            proof {
                assert(status_lines(msgs, jobs_left as nat) =~= Seq::<Seq<char>>::empty());
                assert(self.status.deep_view() =~= o.status.deep_view() + status_lines(
                    msgs,
                    jobs_left as nat,
                ));
                assert(roster_view(self.students@) =~= Seq::new(
                    o.students@.len(),
                    |i: int|
                        match last_grade_msg(msgs, i) {
                            Some(g) => StudentV { blackbox: g, ..o.students@[i]@ },
                            None => o.students@[i]@,
                        },
                ));
            }
            return ;
        }
        let count = usize_to_string(jobs_left);
        let n = self.students.len();
        let mut k: usize = 0;
        while k < messages.len()
            invariant
                k <= msgs.len(),
                messages@ == msgs,
                o.wf(),
                msgs_ok(msgs, o.students@.len() as int),
                n == o.students@.len(),
                count@ == dec_str(jobs_left as nat),
                self.students@.len() == o.students@.len(),
                *self == (Model { students: self.students, status: self.status, ..o }),
                self.status.deep_view() == o.status.deep_view() + status_lines(
                    msgs.subrange(0, k as int),
                    jobs_left as nat,
                ),
                roster_view(self.students@) == Seq::new(
                    o.students@.len(),
                    |i: int|
                        match last_grade_msg(msgs.subrange(0, k as int), i) {
                            Some(g) => StudentV { blackbox: g, ..o.students@[i]@ },
                            None => o.students@[i]@,
                        },
                ),
            decreases msgs.len() - k,
        {
            let ghost pre = msgs.subrange(0, k as int);
            proof {
                assert(pre.push(msgs[k as int]) =~= msgs.subrange(0, k as int + 1));
            }
            match &messages[k] {
                Message::Status(t) => {
                    let l1 = concat3(t.as_str(), " (", count.as_str());
                    let line = concat2(l1.as_str(), " jobs left)\n");
                    proof {
                        assert(line@ =~= status_line_text(t@, jobs_left as nat));
                    }
                    let ghost pre_status = self.status.deep_view();
                    self.status.push(line);
                    proof {
                        lemma_status_lines_snoc(pre, msgs[k as int], jobs_left as nat);
                        assert(self.status.deep_view() =~= pre_status + seq![
                            status_line_text(t@, jobs_left as nat),
                        ]);
                        assert(self.status.deep_view() =~= o.status.deep_view() + status_lines(
                            msgs.subrange(0, k as int + 1),
                            jobs_left as nat,
                        ));
                        assert forall|i: int| 0 <= i < o.students@.len() implies last_grade_msg(
                            msgs.subrange(0, k as int + 1),
                            i,
                        ) == last_grade_msg(pre, i) by {
                            lemma_last_grade_snoc(pre, msgs[k as int], i);
                        }
                        assert(roster_view(self.students@) =~= Seq::new(
                            o.students@.len(),
                            |i: int|
                                match last_grade_msg(msgs.subrange(0, k as int + 1), i) {
                                    Some(g) => StudentV { blackbox: g, ..o.students@[i]@ },
                                    None => o.students@[i]@,
                                },
                        ));
                    }
                },
                Message::Grade(j, g) => {
                    let index: usize = *j;
                    proof {
                        assert(msgs[k as int] matches Message::Grade(i2, _) && i2 == index);
                        assert(index < o.students@.len());
                    }
                    let gc = crate::roster::clone_opt_string(g);
                    let old_s = &self.students[index];
                    let updated = Student {
                        student_id: old_s.student_id.clone(),
                        name: old_s.name.clone(),
                        github: old_s.github.clone(),
                        blackbox: gc,
                        whitebox: crate::roster::clone_opt_string(&old_s.whitebox),
                        comment: crate::roster::clone_opt_string(&old_s.comment),
                    };
                    let ghost pre_students = self.students@;
                    self.students.set(index, updated);
                    proof {
                        lemma_status_lines_snoc(pre, msgs[k as int], jobs_left as nat);
                        assert(self.status.deep_view() =~= o.status.deep_view() + status_lines(
                            msgs.subrange(0, k as int + 1),
                            jobs_left as nat,
                        ));
                        let target = Seq::new(
                            o.students@.len(),
                            |i: int|
                                match last_grade_msg(msgs.subrange(0, k as int + 1), i) {
                                    Some(g2) => StudentV { blackbox: g2, ..o.students@[i]@ },
                                    None => o.students@[i]@,
                                },
                        );
                        assert forall|i: int|
                            0 <= i < o.students@.len() implies roster_view(self.students@)[i]
                            == target[i] by {
                            lemma_last_grade_snoc(pre, msgs[k as int], i);
                            if i == index as int {
                                assert(self.students@[i] == updated);
                                assert(roster_view(pre_students)[i] == pre_students[i]@);
                                if last_grade_msg(pre, i) is Some {
                                    assert(pre_students[i]@ == StudentV {
                                        blackbox: last_grade_msg(pre, i)->0,
                                        ..o.students@[i]@
                                    });
                                } else {
                                    assert(pre_students[i]@ == o.students@[i]@);
                                }
                                assert(pre_students[i]@.student_id == o.students@[i]@.student_id);
                                assert(pre_students[i]@.name == o.students@[i]@.name);
                                assert(pre_students[i]@.github == o.students@[i]@.github);
                                assert(pre_students[i]@.whitebox == o.students@[i]@.whitebox);
                                assert(pre_students[i]@.comment == o.students@[i]@.comment);
                                assert(updated@ == StudentV {
                                    blackbox: opt_view(msgs[k as int]->Grade_1),
                                    ..o.students@[i]@
                                });
                            } else {
                                assert(self.students@[i] == pre_students[i]);
                                assert(roster_view(pre_students)[i] == pre_students[i]@);
                            }
                        }
                        assert(roster_view(self.students@) =~= target);
                    }
                },
            }
            k = k + 1;
        }
        proof {
            assert(msgs.subrange(0, msgs.len() as int) =~= msgs);
            if tick_effective(o, msgs) {
                if exists|j: int|
                    0 <= j < msgs.len() && (#[trigger] msgs[j]) matches Message::Status(_) {
                    let j = choose|j: int|
                        0 <= j < msgs.len() && (#[trigger] msgs[j]) matches Message::Status(_);
                    lemma_status_lines_nonempty(msgs, jobs_left as nat, j);
                    assert(self.status.deep_view().len() > o.status.deep_view().len());
                    assert(self.status != o.status);
                    assert(*self != o);
                } else {
                    let i = choose|i: int|
                        0 <= i < o.students@.len() && (match last_grade_msg(msgs, i) {
                            Some(g) => g != (#[trigger] o.students@[i])@.blackbox,
                            None => false,
                        });
                    assert(roster_view(self.students@)[i] == self.students@[i]@);
                    assert(self.students@[i]@.blackbox != o.students@[i]@.blackbox);
                    assert(self.students@[i] != o.students@[i]);
                    assert(self.students@ != o.students@);
                    assert(*self != o);
                }
            }
        }
    }
}

/// Focus after a sequence of movement keys, starting from `start`.
pub open spec fn focus_after(start: UiWidget, keys: Seq<char>) -> UiWidget
    decreases keys.len(),
{
    if keys.len() == 0 {
        start
    } else {
        focus_after(focus_move_spec(start, keys[0]), keys.drop_first())
    }
}

/// Focus moves form a closed graph: however long the run of movement
/// keys, focus stays one of the four panes.
pub proof fn lemma_focus_closed(start: UiWidget, keys: Seq<char>)
    ensures
        focus_after(start, keys) matches UiWidget::Student || focus_after(
            start,
            keys,
        ) matches UiWidget::Status || focus_after(start, keys) matches UiWidget::Log
            || focus_after(start, keys) matches UiWidget::Diff,
    decreases keys.len(),
{
    if keys.len() > 0 {
        lemma_focus_closed(focus_move_spec(start, keys[0]), keys.drop_first());
    }
}

} // verus!
