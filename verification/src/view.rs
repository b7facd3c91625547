//! The pure side of drawing: where the student table starts so that the
//! selection stays visible, how wide the handle column is, how far the
//! status pane scrolls, the display cells of a row, and where the cursor
//! sits on the comment line. The terminal itself is drawn outside the
//! library from these numbers.

use crate::roster::{grade_cell, roster_view, Student, StudentV};
use vstd::prelude::*;

verus! {

/// The first row shown in the student table: moved up to the selection,
/// or down so that the selection keeps six rows of context above the
/// bottom edge (fewer on a very low pane).
pub open spec fn clamped_start(select: Option<usize>, start: int, height: int) -> int {
    let ctx = if height >= 6 {
        height - 6
    } else {
        0
    };
    match select {
        None => start,
        Some(s) => if s < start {
            s as int
        } else if s > start + ctx {
            s - ctx
        } else {
            start
        },
    }
}

/// Clamps the table's first shown row for a pane of `height` rows.
pub fn clamp_render_start(select: Option<usize>, start: usize, height: usize) -> (r: usize)
    ensures
        r == clamped_start(select, start as int, height as int),
{
    let ctx: usize = if height >= 6 {
        height - 6
    } else {
        0
    };
    match select {
        None => start,
        Some(s) => {
            if s < start {
                s
            } else if s - start > ctx {
                s - ctx
            } else {
                start
            }
        },
    }
}

/// The widest handle from row `from` on, ten at least.
pub open spec fn github_width_from(ss: Seq<StudentV>, from: int) -> int
    decreases ss.len() - from,
{
    if from < 0 || from >= ss.len() {
        10
    } else {
        let rest = github_width_from(ss, from + 1);
        if ss[from].github.len() > rest {
            ss[from].github.len() as int
        } else {
            rest
        }
    }
}

/// The width of the handle column: the longest shown handle, in
/// characters, and ten at least.
pub fn github_column_width(students: &Vec<Student>, from: usize) -> (w: usize)
    requires
        students@.len() <= usize::MAX,
    ensures
        w == github_width_from(roster_view(students@), from as int),
{
    let ghost sv = roster_view(students@);
    let mut w: usize = 10;
    let mut i: usize = students.len();
    while i > from
        invariant
            from <= i <= students@.len() || (i == students@.len() && from > i),
            sv == roster_view(students@),
            w == (if from <= students@.len() && i >= from {
                github_width_from(sv, i as int)
            } else {
                10int
            }),
        decreases i,
    {
        i = i - 1;
        let l = students[i].github.as_str().unicode_len();
        proof {
            assert(sv[i as int].github == students@[i as int]@.github);
        }
        if l > w {
            w = l;
        }
    }
    proof {
        if from >= students@.len() {
            assert(github_width_from(sv, from as int) == 10);
        }
    }
    w
}

/// How far the status pane scrolls so that its last lines are visible in
/// a pane of `height` rows.
pub open spec fn status_scroll_spec(len: int, height: int) -> int {
    let room = if height >= 3 {
        height - 3
    } else {
        0
    };
    if len > room {
        len - room
    } else {
        0
    }
}

/// The scroll of the status pane.
pub fn status_scroll(len: usize, height: usize) -> (r: usize)
    ensures
        r == status_scroll_spec(len as int, height as int),
{
    let room: usize = if height >= 3 {
        height - 3
    } else {
        0
    };
    if len > room {
        len - room
    } else {
        0
    }
}

/// The five display cells of a student's table row: the triple and the
/// two grades, absent ones as `N/A`.
pub fn student_row(s: &Student) -> (row: Vec<String>)
    ensures
        row.deep_view() == seq![
            s@.student_id,
            s@.name,
            s@.github,
            grade_cell(s@.blackbox),
            grade_cell(s@.whitebox),
        ],
{
    let mut row: Vec<String> = Vec::new();
    row.push(s.student_id.clone());
    row.push(s.name.clone());
    row.push(s.github.clone());
    row.push(
        match &s.blackbox {
            Some(t) => t.clone(),
            None => crate::roster::na_string(),
        },
    );
    row.push(
        match &s.whitebox {
            Some(t) => t.clone(),
            None => crate::roster::na_string(),
        },
    );
    proof {
        assert(row.deep_view() =~~= seq![
            s@.student_id,
            s@.name,
            s@.github,
            grade_cell(s@.blackbox),
            grade_cell(s@.whitebox),
        ]);
    }
    row
}

/// The width a terminal gives a text, as the unicode-width tables say;
/// it depends on the characters alone.
pub uninterp spec fn display_width_of(s: Seq<char>) -> nat;

/// Relies on unicode-width's `UnicodeWidthStr::width`: the sum of the
/// columns of the characters; an empty text has none.
#[verifier::external_body]
fn text_width(s: &str) -> (r: usize)
    ensures
        r as nat == display_width_of(s@),
        s@.len() == 0 ==> r == 0,
{
    unicode_width::UnicodeWidthStr::width(s)
}

/// Where the cursor sits while a comment is edited: one column past the
/// text, one row into the bottom pane, held inside the terminal's
/// numbering.
pub fn cursor_position(x: u16, y: u16, text: &str) -> (pos: (u16, u16))
    ensures
        pos.0 as int == (if x + display_width_of(text@) + 1 <= u16::MAX {
            x + display_width_of(text@) + 1
        } else {
            u16::MAX as int
        }),
        pos.1 as int == (if y + 1 <= u16::MAX {
            y + 1
        } else {
            u16::MAX as int
        }),
{
    let w = text_width(text);
    let col: u16 = if w >= 65535 {
        65535
    } else if x as usize + w + 1 <= 65535 {
        (x as usize + w + 1) as u16
    } else {
        65535
    };
    let row: u16 = if y < 65535 {
        y + 1
    } else {
        65535
    };
    (col, row)
}

} // verus!
