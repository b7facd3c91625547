//! The roster: students in file order, their grades and comments, and the
//! result sheet that is written for them.
//!
//! `Model::new` reads the roster table (columns: student id, name, handle,
//! more columns ignored) and, when a result sheet from an earlier run is
//! there, copies grades and comment of each record whose id, name and
//! handle match a student. `serialize_roster` writes the sheet back: a
//! byte-order mark, a header row, one row per student in roster order,
//! absent grades as `N/A`, absent comments empty.

use crate::csvtext::{data_records, data_rows, enc_records};
use crate::numtext::canon_num;
use crate::text::{chars_to_string, push_char, string_to_chars};
use vstd::prelude::*;

verus! {

/// One student: the identifying triple, two optional grades and an
/// optional comment.
pub struct Student {
    pub student_id: String,
    pub name: String,
    pub github: String,
    pub blackbox: Option<String>,
    pub whitebox: Option<String>,
    pub comment: Option<String>,
}

/// The mathematical image of a student.
pub ghost struct StudentV {
    pub student_id: Seq<char>,
    pub name: Seq<char>,
    pub github: Seq<char>,
    pub blackbox: Option<Seq<char>>,
    pub whitebox: Option<Seq<char>>,
    pub comment: Option<Seq<char>>,
}

/// The image of an optional string.
pub open spec fn opt_view(o: Option<String>) -> Option<Seq<char>> {
    match o {
        Some(s) => Some(s@),
        None => None,
    }
}

impl View for Student {
    type V = StudentV;

    open spec fn view(&self) -> StudentV {
        StudentV {
            student_id: self.student_id@,
            name: self.name@,
            github: self.github@,
            blackbox: opt_view(self.blackbox),
            whitebox: opt_view(self.whitebox),
            comment: opt_view(self.comment),
        }
    }
}

/// The images of a roster.
pub open spec fn roster_view(v: Seq<Student>) -> Seq<StudentV> {
    Seq::new(v.len(), |i: int| v[i]@)
}

/// A grade is either absent or canonical numeric text.
pub open spec fn grade_wf(g: Option<Seq<char>>) -> bool {
    match g {
        Some(t) => canon_num(t) == Some(t),
        None => true,
    }
}

/// Both grades of the student are well formed.
pub open spec fn student_wf(s: StudentV) -> bool {
    grade_wf(s.blackbox) && grade_wf(s.whitebox)
}

/// The student a roster record stands for: the first three fields, no
/// grades, no comment.
pub open spec fn student_of_row(r: Seq<Seq<char>>) -> StudentV {
    StudentV {
        student_id: r[0],
        name: r[1],
        github: r[2],
        blackbox: None,
        whitebox: None,
        comment: None,
    }
}

/// The students of the roster records, in record order.
pub open spec fn students_of_rows(rows: Seq<Seq<Seq<char>>>) -> Seq<StudentV> {
    Seq::new(rows.len(), |i: int| student_of_row(rows[i]))
}

/// Every record has the three identifying fields.
pub open spec fn rows_ok(rows: Seq<Seq<Seq<char>>>) -> bool {
    forall|i: int| 0 <= i < rows.len() ==> #[trigger] rows[i].len() >= 3
}

/// Whether the identifying triple of `s` is the one of record `r`.
pub open spec fn triple_matches(s: StudentV, r: Seq<Seq<char>>) -> bool {
    s.student_id == r[0] && s.name == r[1] && s.github == r[2]
}

/// The first student whose triple is the one of `r`, or `-1`.
pub open spec fn first_match(ss: Seq<StudentV>, r: Seq<Seq<char>>) -> int
    decreases ss.len(),
{
    if ss.len() == 0 {
        -1
    } else if triple_matches(ss[0], r) {
        0
    } else {
        let m = first_match(ss.drop_first(), r);
        if m < 0 {
            -1
        } else {
            m + 1
        }
    }
}

/// The student with the grades and comment of record `r` copied in: a
/// grade field that is no number becomes absent; a comment field is
/// taken as it stands; fields the record does not have leave the student
/// as he was.
pub open spec fn merge_row(s: StudentV, r: Seq<Seq<char>>) -> StudentV {
    StudentV {
        blackbox: if r.len() > 3 {
            canon_num(r[3])
        } else {
            s.blackbox
        },
        whitebox: if r.len() > 4 {
            canon_num(r[4])
        } else {
            s.whitebox
        },
        comment: if r.len() > 5 {
            Some(r[5])
        } else {
            s.comment
        },
        ..s
    }
}

/// One record applied to the roster: the first matching student takes its
/// grades and comment; with no match the roster stands.
pub open spec fn apply_row(ss: Seq<StudentV>, r: Seq<Seq<char>>) -> Seq<StudentV> {
    let m = first_match(ss, r);
    if m >= 0 {
        ss.update(m, merge_row(ss[m], r))
    } else {
        ss
    }
}

/// All records applied in order.
pub open spec fn merge_rows(ss: Seq<StudentV>, rows: Seq<Seq<Seq<char>>>) -> Seq<StudentV>
    decreases rows.len(),
{
    if rows.len() == 0 {
        ss
    } else {
        merge_rows(apply_row(ss, rows[0]), rows.drop_first())
    }
}

/// What loading a roster text and an optional result text produces.
pub open spec fn load_spec(roster_text: Seq<char>, results_text: Option<Seq<char>>) -> Seq<
    StudentV,
> {
    let base = students_of_rows(data_records(roster_text));
    match results_text {
        Some(t) => merge_rows(base, data_records(t)),
        None => base,
    }
}

/// The byte-order mark.
pub open spec fn bom_char() -> char {
    '\u{feff}'
}

/// The text of an absent grade.
pub open spec fn na_text() -> Seq<char> {
    seq!['N', '/', 'A']
}

/// The header record of the result sheet.
pub open spec fn header_record() -> Seq<Seq<char>> {
    seq![
        seq!['\u{5b66}', '\u{53f7}'],
        seq!['\u{59d3}', '\u{540d}'],
        seq!['G', 'i', 't', 'H', 'u', 'b'],
        seq!['\u{9ed1}', '\u{76d2}', '\u{6210}', '\u{7ee9}'],
        seq!['\u{767d}', '\u{76d2}', '\u{6210}', '\u{7ee9}'],
        seq!['\u{5907}', '\u{6ce8}'],
    ]
}

/// The grade cell of the sheet: the grade text, or `N/A`.
pub open spec fn grade_cell(g: Option<Seq<char>>) -> Seq<char> {
    match g {
        Some(t) => t,
        None => na_text(),
    }
}

/// The comment cell of the sheet: the comment, or nothing.
pub open spec fn comment_cell(c: Option<Seq<char>>) -> Seq<char> {
    match c {
        Some(t) => t,
        None => Seq::<char>::empty(),
    }
}

/// The sheet record of one student.
pub open spec fn student_record(s: StudentV) -> Seq<Seq<char>> {
    seq![
        s.student_id,
        s.name,
        s.github,
        grade_cell(s.blackbox),
        grade_cell(s.whitebox),
        comment_cell(s.comment),
    ]
}

/// The sheet records of the roster, in order.
pub open spec fn student_records(ss: Seq<StudentV>) -> Seq<Seq<Seq<char>>> {
    Seq::new(ss.len(), |i: int| student_record(ss[i]))
}

/// The whole result sheet: byte-order mark, header, one record per
/// student.
pub open spec fn serialize_spec(ss: Seq<StudentV>) -> Seq<char> {
    seq![bom_char()] + enc_records(seq![header_record()] + student_records(ss))
}

/// What loading can object to: a record of the named table that lacks the
/// three identifying fields. `row` is the first such record.
#[derive(Debug)]
pub enum LoadError {
    RosterRow { row: usize },
    ResultsRow { row: usize },
}

/// Builds the text of an absent grade.
pub fn na_string() -> (s: String)
    ensures
        s@ == na_text(),
{
    let mut s = String::new();
    push_char(&mut s, 'N');
    push_char(&mut s, '/');
    push_char(&mut s, 'A');
    proof {
        assert(s@ =~= na_text());
    }
    s
}

fn grade_cell_string(g: &Option<String>) -> (r: String)
    ensures
        r@ == grade_cell(opt_view(*g)),
{
    match g {
        Some(t) => t.clone(),
        None => na_string(),
    }
}

fn comment_cell_string(c: &Option<String>) -> (r: String)
    ensures
        r@ == comment_cell(opt_view(*c)),
{
    match c {
        Some(t) => t.clone(),
        None => String::new(),
    }
}

fn header_row() -> (row: Vec<String>)
    ensures
        row.deep_view() == header_record(),
{
    let mut row: Vec<String> = Vec::new();
    let h0 = String::from_str("\u{5b66}\u{53f7}");
    let h1 = String::from_str("\u{59d3}\u{540d}");
    let h2 = String::from_str("GitHub");
    let h3 = String::from_str("\u{9ed1}\u{76d2}\u{6210}\u{7ee9}");
    let h4 = String::from_str("\u{767d}\u{76d2}\u{6210}\u{7ee9}");
    let h5 = String::from_str("\u{5907}\u{6ce8}");
    proof {
        reveal_strlit("\u{5b66}\u{53f7}");
        reveal_strlit("\u{59d3}\u{540d}");
        reveal_strlit("GitHub");
        reveal_strlit("\u{9ed1}\u{76d2}\u{6210}\u{7ee9}");
        reveal_strlit("\u{767d}\u{76d2}\u{6210}\u{7ee9}");
        reveal_strlit("\u{5907}\u{6ce8}");
        assert(h0@ =~= header_record()[0]);
        assert(h1@ =~= header_record()[1]);
        assert(h2@ =~= header_record()[2]);
        assert(h3@ =~= header_record()[3]);
        assert(h4@ =~= header_record()[4]);
        assert(h5@ =~= header_record()[5]);
    }
    row.push(h0);
    row.push(h1);
    row.push(h2);
    row.push(h3);
    row.push(h4);
    row.push(h5);
    proof {
        assert(row.deep_view() =~= header_record());
    }
    row
}

/// Writes the result sheet for the roster.
pub fn serialize_roster(students: &Vec<Student>) -> (out: String)
    ensures
        out@ == serialize_spec(roster_view(students@)),
{
    let ghost sv = roster_view(students@);
    let mut rows: Vec<Vec<String>> = Vec::new();
    rows.push(header_row());
    proof {
        assert(rows.deep_view() =~= seq![header_record()] + student_records(sv.subrange(0, 0)));
    }
    let mut i: usize = 0;
    while i < students.len()
        invariant
            i <= students@.len(),
            sv == roster_view(students@),
            rows.deep_view() == seq![header_record()] + student_records(
                sv.subrange(0, i as int),
            ),
        decreases students@.len() - i,
    {
        let ghost pre = rows.deep_view();
        let s = &students[i];
        let mut row: Vec<String> = Vec::new();
        row.push(s.student_id.clone());
        row.push(s.name.clone());
        row.push(s.github.clone());
        row.push(grade_cell_string(&s.blackbox));
        row.push(grade_cell_string(&s.whitebox));
        row.push(comment_cell_string(&s.comment));
        proof {
            assert(row.deep_view() =~~= student_record(sv[i as int]));
        }
        rows.push(row);
        proof {
            let cur = rows.deep_view();
            let target = seq![header_record()] + student_records(sv.subrange(0, i as int + 1));
            assert(pre.len() == i + 1);
            assert(cur.len() == i + 2);
            assert(target.len() == i + 2);
            assert forall|j: int| 0 <= j < cur.len() implies cur[j] == target[j] by {
                assert(cur[j] == rows@[j].deep_view());
                if j < i + 1 {
                    assert(rows@[j] == rows@.drop_last()[j]);
                    assert(pre[j] == rows@[j].deep_view());
                    assert(pre[j] == (seq![header_record()] + student_records(
                        sv.subrange(0, i as int),
                    ))[j]);
                    if j >= 1 {
                        assert(pre[j] == student_records(sv.subrange(0, i as int))[j - 1]);
                        assert(student_records(sv.subrange(0, i as int))[j - 1] == student_record(
                            sv.subrange(0, i as int)[j - 1],
                        ));
                        assert(target[j] == student_record(sv.subrange(0, i as int + 1)[j - 1]));
                    }
                } else {
                    assert(rows@[j] == row);
                    assert(target[j] == student_record(sv.subrange(0, i as int + 1)[j - 1]));
                }
            }
            assert(cur =~= target);
        }
        i = i + 1;
    }
    proof {
        assert(sv.subrange(0, sv.len() as int) =~= sv);
    }
    let body = crate::csvtext::encode_csv(&rows);
    let mut out = String::new();
    push_char(&mut out, '\u{feff}');
    out.append(body.as_str());
    proof {
        assert(out@ =~= serialize_spec(sv));
    }
    out
}

proof fn lemma_first_match_at(ss: Seq<StudentV>, r: Seq<Seq<char>>, i: int)
    requires
        0 <= i < ss.len(),
        forall|j: int| 0 <= j < i ==> !triple_matches(#[trigger] ss[j], r),
        triple_matches(ss[i], r),
    ensures
        first_match(ss, r) == i,
    decreases i,
{
    if i == 0 {
    } else {
        assert(!triple_matches(ss[0], r));
        let rest = ss.drop_first();
        assert(forall|j: int| 0 <= j < i - 1 ==> !triple_matches(#[trigger] rest[j], r));
        assert(rest[i - 1] == ss[i]);
        lemma_first_match_at(rest, r, i - 1);
    }
}

proof fn lemma_first_match_none(ss: Seq<StudentV>, r: Seq<Seq<char>>)
    requires
        forall|j: int| 0 <= j < ss.len() ==> !triple_matches(#[trigger] ss[j], r),
    ensures
        first_match(ss, r) == -1,
    decreases ss.len(),
{
    if ss.len() > 0 {
        lemma_first_match_none(ss.drop_first(), r);
    }
}

pub(crate) fn clone_opt_string(o: &Option<String>) -> (r: Option<String>)
    ensures
        opt_view(r) == opt_view(*o),
{
    match o {
        Some(s) => Some(s.clone()),
        None => None,
    }
}

/// Copies the grades and comment of `row` into the first student whose
/// triple matches it; with no match the roster stands.
fn apply_row_exec(students: &mut Vec<Student>, row: &Vec<String>)
    requires
        row@.len() >= 3,
    ensures
        roster_view(final(students)@) == apply_row(roster_view(old(students)@), row.deep_view()),
{
    let ghost sv = roster_view(students@);
    let ghost rv = row.deep_view();
    proof {
        assert(rv[0] == row@[0]@);
        assert(rv[1] == row@[1]@);
        assert(rv[2] == row@[2]@);
    }
    let mut i: usize = 0;
    while i < students.len()
        invariant
            i <= students@.len(),
            row@.len() >= 3,
            rv == row.deep_view(),
            rv[0] == row@[0]@ && rv[1] == row@[1]@ && rv[2] == row@[2]@,
            students@ == old(students)@,
            sv == roster_view(students@),
            forall|j: int| 0 <= j < i ==> !triple_matches(#[trigger] sv[j], rv),
        decreases students@.len() - i,
    {
        let hit = students[i].student_id == row[0] && students[i].name == row[1]
            && students[i].github == row[2];
        proof {
            assert(sv[i as int] == students@[i as int]@);
            assert(hit == triple_matches(sv[i as int], rv));
        }
        if hit {
            let old_s = &students[i];
            let new_bb = if row.len() > 3 {
                crate::numtext::canon_grade(row[3].as_str())
            } else {
                clone_opt_string(&old_s.blackbox)
            };
            let new_wb = if row.len() > 4 {
                crate::numtext::canon_grade(row[4].as_str())
            } else {
                clone_opt_string(&old_s.whitebox)
            };
            let new_cm = if row.len() > 5 {
                Some(row[5].clone())
            } else {
                clone_opt_string(&old_s.comment)
            };
            let merged = Student {
                student_id: old_s.student_id.clone(),
                name: old_s.name.clone(),
                github: old_s.github.clone(),
                blackbox: new_bb,
                whitebox: new_wb,
                comment: new_cm,
            };
            proof {
                if row@.len() > 3 {
                    assert(rv[3] == row@[3]@);
                }
                if row@.len() > 4 {
                    assert(rv[4] == row@[4]@);
                }
                if row@.len() > 5 {
                    assert(rv[5] == row@[5]@);
                }
                assert(merged@ == merge_row(sv[i as int], rv));
            }
            let ghost pre = students@;
            students.set(i, merged);
            proof {
                lemma_first_match_at(sv, rv, i as int);
                assert(first_match(sv, rv) == i as int);
                assert(apply_row(sv, rv) == sv.update(i as int, merge_row(sv[i as int], rv)));
                let cur = roster_view(students@);
                let target = sv.update(i as int, merge_row(sv[i as int], rv));
                assert forall|j: int| 0 <= j < cur.len() implies cur[j] == target[j] by {
                    assert(cur[j] == students@[j]@);
                    if j == i as int {
                        assert(students@[j] == merged);
                    } else {
                        assert(students@[j] == pre[j]);
                        assert(sv[j] == pre[j]@);
                    }
                }
                assert(cur =~= target);
            }
            return ;
        }
        i = i + 1;
    }
    proof {
        lemma_first_match_none(sv, rv);
    }
}

proof fn lemma_merge_rows_snoc(ss: Seq<StudentV>, rows: Seq<Seq<Seq<char>>>, r: Seq<Seq<char>>)
    ensures
        merge_rows(ss, rows.push(r)) == apply_row(merge_rows(ss, rows), r),
    decreases rows.len(),
{
    if rows.len() == 0 {
        assert(rows.push(r)[0] == r);
        assert(rows.push(r).drop_first() =~~= Seq::<Seq<Seq<char>>>::empty());
        assert(merge_rows(ss, rows.push(r)) == merge_rows(
            apply_row(ss, r),
            Seq::<Seq<Seq<char>>>::empty(),
        ));
        assert(merge_rows(apply_row(ss, r), Seq::<Seq<Seq<char>>>::empty()) == apply_row(ss, r));
        assert(merge_rows(ss, rows) == ss);
    } else {
        assert(rows.push(r)[0] == rows[0]);
        assert(rows.push(r).drop_first() =~~= rows.drop_first().push(r));
        lemma_merge_rows_snoc(apply_row(ss, rows[0]), rows.drop_first(), r);
        assert(merge_rows(ss, rows.push(r)) == merge_rows(
            apply_row(ss, rows[0]),
            rows.drop_first().push(r),
        ));
        assert(merge_rows(ss, rows) == merge_rows(apply_row(ss, rows[0]), rows.drop_first()));
    }
}

proof fn lemma_first_match_bound(ss: Seq<StudentV>, r: Seq<Seq<char>>)
    ensures
        first_match(ss, r) == -1 || (0 <= first_match(ss, r) < ss.len()),
    decreases ss.len(),
{
    if ss.len() > 0 && !triple_matches(ss[0], r) {
        lemma_first_match_bound(ss.drop_first(), r);
    }
}

/// Applying a record changes no student's identifying triple, and no
/// student's place.
proof fn lemma_apply_row_triples(ss: Seq<StudentV>, r: Seq<Seq<char>>)
    ensures
        apply_row(ss, r).len() == ss.len(),
        forall|i: int|
            0 <= i < ss.len() ==> (#[trigger] apply_row(ss, r)[i]).student_id == ss[i].student_id
                && apply_row(ss, r)[i].name == ss[i].name && apply_row(ss, r)[i].github
                == ss[i].github,
{
    lemma_first_match_bound(ss, r);
    let m = first_match(ss, r);
    if m >= 0 {
        assert(apply_row(ss, r) == ss.update(m, merge_row(ss[m], r)));
        assert forall|i: int|
            0 <= i < ss.len() implies (#[trigger] apply_row(ss, r)[i]).student_id
            == ss[i].student_id && apply_row(ss, r)[i].name == ss[i].name && apply_row(
            ss,
            r,
        )[i].github == ss[i].github by {
            if i == m {
                assert(apply_row(ss, r)[i] == merge_row(ss[m], r));
            } else {
                assert(apply_row(ss, r)[i] == ss[i]);
            }
        }
    }
}

/// Merging records changes no student's identifying triple.
proof fn lemma_merge_rows_triples(ss: Seq<StudentV>, rows: Seq<Seq<Seq<char>>>)
    ensures
        merge_rows(ss, rows).len() == ss.len(),
        forall|i: int|
            0 <= i < ss.len() ==> (#[trigger] merge_rows(ss, rows)[i]).student_id
                == ss[i].student_id && merge_rows(ss, rows)[i].name == ss[i].name && merge_rows(
                ss,
                rows,
            )[i].github == ss[i].github,
    decreases rows.len(),
{
    if rows.len() == 0 {
    } else {
        lemma_apply_row_triples(ss, rows[0]);
        lemma_merge_rows_triples(apply_row(ss, rows[0]), rows.drop_first());
    }
}

/// What a load error tells: the named table's first record that lacks
/// the three identifying fields.
pub open spec fn load_err_spec(
    roster_text: Seq<char>,
    results_text: Option<Seq<char>>,
    e: LoadError,
) -> bool {
    match e {
        LoadError::RosterRow { row } => {
            &&& row < data_records(roster_text).len()
            &&& data_records(roster_text)[row as int].len() < 3
            &&& forall|j: int| 0 <= j < row ==> #[trigger] data_records(roster_text)[j].len() >= 3
        },
        LoadError::ResultsRow { row } => {
            &&& rows_ok(data_records(roster_text))
            &&& results_text is Some
            &&& row < data_records(results_text->0).len()
            &&& data_records(results_text->0)[row as int].len() < 3
            &&& forall|j: int|
                0 <= j < row ==> #[trigger] data_records(results_text->0)[j].len() >= 3
        },
    }
}

/// Reads the roster and, when a result text is given, the saved grades
/// and comments. The students come out in roster record order with the
/// record's triple (the order of the table is the order of the roster);
/// a record without its three identifying fields is refused, and the
/// error names the first such record.
pub fn load_roster(roster_text: &str, results_text: Option<&str>) -> (r: Result<
    Vec<Student>,
    LoadError,
>)
    ensures
        match r {
            Ok(v) => {
                &&& rows_ok(data_records(roster_text@))
                &&& match results_text {
                    Some(t) => rows_ok(data_records(t@)),
                    None => true,
                }
                &&& roster_view(v@) == load_spec(
                    roster_text@,
                    match results_text {
                        Some(t) => Some(t@),
                        None => None,
                    },
                )
                &&& v@.len() == data_records(roster_text@).len()
                &&& forall|i: int|
                    0 <= i < v@.len() ==> (#[trigger] v@[i])@.student_id == data_records(
                        roster_text@,
                    )[i][0] && v@[i]@.name == data_records(roster_text@)[i][1] && v@[i]@.github
                        == data_records(roster_text@)[i][2]
            },
            Err(e) => load_err_spec(
                roster_text@,
                match results_text {
                    Some(t) => Some(t@),
                    None => None,
                },
                e,
            ),
        },
{
    let rrows = data_rows(roster_text);
    let ghost rdata = data_records(roster_text@);
    let mut students: Vec<Student> = Vec::new();
    let mut i: usize = 0;
    while i < rrows.len()
        invariant
            i <= rrows@.len(),
            rdata == data_records(roster_text@),
            rrows.deep_view() == rdata,
            forall|j: int| 0 <= j < i ==> #[trigger] rdata[j].len() >= 3,
            roster_view(students@) == students_of_rows(rdata.subrange(0, i as int)),
            students@.len() == i,
        decreases rrows@.len() - i,
    {
        proof {
            assert(rdata[i as int] =~= rrows@[i as int].deep_view());
        }
        if rrows[i].len() < 3 {
            return Err(LoadError::RosterRow { row: i });
        }
        let row = &rrows[i];
        let stu = Student {
            student_id: row[0].clone(),
            name: row[1].clone(),
            github: row[2].clone(),
            blackbox: None,
            whitebox: None,
            comment: None,
        };
        proof {
            assert(rdata[i as int][0] == row@[0]@);
            assert(rdata[i as int][1] == row@[1]@);
            assert(rdata[i as int][2] == row@[2]@);
            assert(stu@ == student_of_row(rdata[i as int]));
        }
        let ghost pre = students@;
        students.push(stu);
        proof {
            let cur = roster_view(students@);
            let target = students_of_rows(rdata.subrange(0, i as int + 1));
            assert forall|j: int| 0 <= j < cur.len() implies cur[j] == target[j] by {
                assert(cur[j] == students@[j]@);
                assert(target[j] == student_of_row(rdata.subrange(0, i as int + 1)[j]));
                if j < i as int {
                    assert(students@[j] == pre[j]);
                    assert(roster_view(pre)[j] == pre[j]@);
                    assert(roster_view(pre)[j] == students_of_rows(
                        rdata.subrange(0, i as int),
                    )[j]);
                    assert(students_of_rows(rdata.subrange(0, i as int))[j] == student_of_row(
                        rdata.subrange(0, i as int)[j],
                    ));
                } else {
                    assert(students@[j] == stu);
                }
            }
            assert(cur =~= target);
        }
        i = i + 1;
    }
    proof {
        assert(rdata.subrange(0, rdata.len() as int) =~= rdata);
        assert(rows_ok(rdata));
    }
    let ghost base = students_of_rows(rdata);
    match results_text {
        None => {
            proof {
                assert(roster_view(students@) == base);
                assert forall|i2: int|
                    0 <= i2 < students@.len() implies (#[trigger] students@[i2])@.student_id
                    == rdata[i2][0] && students@[i2]@.name == rdata[i2][1] && students@[i2]@.github
                    == rdata[i2][2] by {
                    assert(roster_view(students@)[i2] == students@[i2]@);
                    assert(base[i2] == student_of_row(rdata[i2]));
                }
            }
            Ok(students)
        },
        Some(rt) => {
            let srows = data_rows(rt);
            let ghost sdata = data_records(rt@);
            let mut k: usize = 0;
            while k < srows.len()
                invariant
                    k <= srows@.len(),
                    results_text == Some(rt),
                    rdata == data_records(roster_text@),
                    sdata == data_records(rt@),
                    srows.deep_view() == sdata,
                    rows_ok(rdata),
                    base == students_of_rows(rdata),
                    forall|j: int| 0 <= j < k ==> #[trigger] sdata[j].len() >= 3,
                    roster_view(students@) == merge_rows(base, sdata.subrange(0, k as int)),
                decreases srows@.len() - k,
            {
                proof {
                    assert(sdata[k as int] =~= srows@[k as int].deep_view());
                }
                if srows[k].len() < 3 {
                    return Err(LoadError::ResultsRow { row: k });
                }
                apply_row_exec(&mut students, &srows[k]);
                proof {
                    lemma_merge_rows_snoc(base, sdata.subrange(0, k as int), sdata[k as int]);
                    assert(sdata.subrange(0, k as int).push(sdata[k as int]) =~= sdata.subrange(
                        0,
                        k as int + 1,
                    ));
                }
                k = k + 1;
            }
            proof {
                assert(sdata.subrange(0, sdata.len() as int) =~= sdata);
                lemma_merge_rows_triples(base, sdata);
                assert(roster_view(students@) == merge_rows(base, sdata));
                assert forall|i2: int|
                    0 <= i2 < students@.len() implies (#[trigger] students@[i2])@.student_id
                    == rdata[i2][0] && students@[i2]@.name == rdata[i2][1] && students@[i2]@.github
                    == rdata[i2][2] by {
                    assert(roster_view(students@)[i2] == students@[i2]@);
                    assert(merge_rows(base, sdata)[i2].student_id == base[i2].student_id);
                    assert(merge_rows(base, sdata)[i2].name == base[i2].name);
                    assert(merge_rows(base, sdata)[i2].github == base[i2].github);
                    assert(base[i2] == student_of_row(rdata[i2]));
                }
            }
            Ok(students)
        },
    }
}

/// Whether two students carry the same identifying triple.
pub open spec fn same_triple(a: StudentV, b: StudentV) -> bool {
    a.student_id == b.student_id && a.name == b.name && a.github == b.github
}

/// No two students carry the same identifying triple.
pub open spec fn triples_unique(ss: Seq<StudentV>) -> bool {
    forall|i: int, j: int|
        0 <= i < j < ss.len() ==> !same_triple(#[trigger] ss[i], #[trigger] ss[j])
}

/// The data records of a written sheet are exactly the student records.
proof fn lemma_data_records_of_serialize(ss: Seq<StudentV>)
    ensures
        data_records(serialize_spec(ss)) == student_records(ss),
{
    let all = seq![header_record()] + student_records(ss);
    let text = serialize_spec(ss);
    assert(text[0] == bom_char());
    assert(text.drop_first() =~= crate::csvtext::enc_records(all));
    assert(crate::csvtext::strip_bom(text) == crate::csvtext::enc_records(all));
    assert(forall|i: int| 0 <= i < all.len() ==> #[trigger] all[i].len() >= 1) by {
        assert(all[0].len() == 6);
        assert(forall|i: int|
            1 <= i < all.len() ==> #[trigger] all[i].len() == student_record(
                ss[i - 1],
            ).len());
    }
    crate::csvtext::lemma_scan_enc_records(all);
    assert(forall|i: int| 0 <= i < all.len() ==> !crate::csvtext::is_blank_record(
        #[trigger] all[i],
    ));
    crate::csvtext::lemma_drop_blanks_id(all);
    assert(data_records(text) =~~= student_records(ss));
}

/// A grade written to a cell and read back is the same grade: `N/A` is no
/// number, and canonical text is a fixed point of the reduction.
proof fn lemma_grade_cell_roundtrip(g: Option<Seq<char>>)
    requires
        grade_wf(g),
    ensures
        canon_num(grade_cell(g)) == g,
{
    match g {
        Some(t) => {
        },
        None => {
            let cell = na_text();
            assert(crate::numtext::num_body(cell) == cell);
            assert(!crate::numtext::is_num_char(cell[0]));
            assert(!crate::numtext::all_num_chars(cell));
        },
    }
}

proof fn lemma_apply_row_wf(ss: Seq<StudentV>, r: Seq<Seq<char>>)
    requires
        forall|i: int| 0 <= i < ss.len() ==> student_wf(#[trigger] ss[i]),
    ensures
        apply_row(ss, r).len() == ss.len(),
        forall|i: int| 0 <= i < ss.len() ==> student_wf(#[trigger] apply_row(ss, r)[i]),
{
    lemma_first_match_bound(ss, r);
    let m = first_match(ss, r);
    if m >= 0 {
        let merged = merge_row(ss[m], r);
        assert(grade_wf(merged.blackbox)) by {
            if r.len() > 3 {
                if canon_num(r[3]) is Some {
                    crate::numtext::lemma_canon_idempotent(r[3]);
                }
            }
        }
        assert(grade_wf(merged.whitebox)) by {
            if r.len() > 4 {
                if canon_num(r[4]) is Some {
                    crate::numtext::lemma_canon_idempotent(r[4]);
                }
            }
        }
        assert(forall|i: int|
            0 <= i < ss.len() && i != m ==> #[trigger] apply_row(ss, r)[i] == ss[i]);
        assert(apply_row(ss, r)[m] == merged);
    }
}

/// Merging keeps every student's grades well formed.
proof fn lemma_merge_rows_wf(ss: Seq<StudentV>, rows: Seq<Seq<Seq<char>>>)
    requires
        forall|i: int| 0 <= i < ss.len() ==> student_wf(#[trigger] ss[i]),
    ensures
        merge_rows(ss, rows).len() == ss.len(),
        forall|i: int| 0 <= i < ss.len() ==> student_wf(#[trigger] merge_rows(ss, rows)[i]),
    decreases rows.len(),
{
    if rows.len() == 0 {
    } else {
        lemma_apply_row_wf(ss, rows[0]);
        lemma_merge_rows_wf(apply_row(ss, rows[0]), rows.drop_first());
    }
}

/// Merging records whose triples are the students' own, in order and
/// unique, hits student `i` with record `i` exactly.
proof fn lemma_merge_own_rows(t: Seq<StudentV>, rows: Seq<Seq<Seq<char>>>, k: int)
    requires
        t.len() == rows.len(),
        0 <= k <= rows.len(),
        forall|i: int| 0 <= i < rows.len() ==> #[trigger] rows[i].len() >= 3,
        forall|i: int|
            0 <= i < t.len() ==> (#[trigger] t[i]).student_id == rows[i][0] && t[i].name
                == rows[i][1] && t[i].github == rows[i][2],
        triples_unique(t),
    ensures
        merge_rows(t, rows.subrange(k, rows.len() as int)) == Seq::new(
            t.len(),
            |i: int|
                if i >= k {
                    merge_row(t[i], rows[i])
                } else {
                    t[i]
                },
        ),
    decreases rows.len() - k,
{
    let sub = rows.subrange(k, rows.len() as int);
    if k == rows.len() {
        assert(sub.len() == 0);
        assert(merge_rows(t, sub) == t);
        assert(t =~= Seq::new(
            t.len(),
            |i: int|
                if i >= k {
                    merge_row(t[i], rows[i])
                } else {
                    t[i]
                },
        ));
    } else {
        assert(sub[0] == rows[k]);
        assert(triple_matches(t[k], rows[k]));
        assert forall|j: int| 0 <= j < k implies !triple_matches(#[trigger] t[j], rows[k]) by {
            if triple_matches(t[j], rows[k]) {
                assert(same_triple(t[j], t[k]));
            }
        }
        lemma_first_match_at(t, rows[k], k);
        let merged = merge_row(t[k], rows[k]);
        let t2 = t.update(k, merged);
        assert(apply_row(t, rows[k]) == t2);
        assert(forall|i: int|
            0 <= i < t2.len() ==> (#[trigger] t2[i]).student_id == rows[i][0] && t2[i].name
                == rows[i][1] && t2[i].github == rows[i][2]);
        assert(triples_unique(t2)) by {
            assert forall|i: int, j: int|
                0 <= i < j < t2.len() implies !same_triple(#[trigger] t2[i], #[trigger] t2[j]) by {
                assert(t2[i].student_id == t[i].student_id && t2[i].name == t[i].name
                    && t2[i].github == t[i].github);
                assert(t2[j].student_id == t[j].student_id && t2[j].name == t[j].name
                    && t2[j].github == t[j].github);
                assert(!same_triple(t[i], t[j]));
            }
        }
        lemma_merge_own_rows(t2, rows, k + 1);
        assert(sub.drop_first() =~= rows.subrange(k + 1, rows.len() as int));
        assert(merge_rows(t, sub) == merge_rows(t2, rows.subrange(k + 1, rows.len() as int)));
        let lhs = Seq::new(
            t2.len(),
            |i: int|
                if i >= k + 1 {
                    merge_row(t2[i], rows[i])
                } else {
                    t2[i]
                },
        );
        let rhs = Seq::new(
            t.len(),
            |i: int|
                if i >= k {
                    merge_row(t[i], rows[i])
                } else {
                    t[i]
                },
        );
        assert forall|i: int| 0 <= i < t.len() implies lhs[i] == rhs[i] by {
            if i < k {
                assert(t2[i] == t[i]);
            } else if i == k {
                assert(t2[k] == merged);
            } else {
                assert(t2[i] == t[i]);
            }
        }
        assert(lhs =~= rhs);
    }
}

/// Loading a sheet that the library itself wrote, against the roster it
/// was written for, and writing it again gives the same text: the save
/// and load round trip is idempotent. The roster's identifying triples
/// must be unique — with a duplicated triple a saved record lands on the
/// first twin, not its own student — which the data model asks of every
/// roster.
pub proof fn lemma_serialize_load_idempotent(roster_text: Seq<char>, results_text: Seq<char>)
    requires
        triples_unique(students_of_rows(data_records(roster_text))),
        rows_ok(data_records(roster_text)),
    ensures
        serialize_spec(
            load_spec(
                roster_text,
                Some(serialize_spec(load_spec(roster_text, Some(results_text)))),
            ),
        ) == serialize_spec(load_spec(roster_text, Some(results_text))),
{
    let rdata = data_records(roster_text);
    let s0 = students_of_rows(rdata);
    let sdata = data_records(results_text);
    let s1 = merge_rows(s0, sdata);
    let b = serialize_spec(s1);
    assert(load_spec(roster_text, Some(results_text)) == s1);
    lemma_data_records_of_serialize(s1);
    let rows2 = student_records(s1);
    assert(load_spec(roster_text, Some(b)) == merge_rows(s0, rows2));

    lemma_merge_rows_triples(s0, sdata);
    assert(s1.len() == s0.len());
    assert(forall|i: int| 0 <= i < s0.len() ==> student_wf(#[trigger] s0[i]));
    lemma_merge_rows_wf(s0, sdata);

    assert(forall|i: int| 0 <= i < rows2.len() ==> #[trigger] rows2[i].len() >= 3) by {
        assert(forall|i: int|
            0 <= i < rows2.len() ==> #[trigger] rows2[i] == student_record(s1[i]));
    }
    assert(forall|i: int|
        0 <= i < s0.len() ==> (#[trigger] s0[i]).student_id == rows2[i][0] && s0[i].name
            == rows2[i][1] && s0[i].github == rows2[i][2]) by {
        assert(forall|i: int|
            0 <= i < rows2.len() ==> #[trigger] rows2[i] == student_record(s1[i]));
    }
    lemma_merge_own_rows(s0, rows2, 0);
    assert(rows2.subrange(0, rows2.len() as int) =~= rows2);
    let t = merge_rows(s0, rows2);
    assert(t == Seq::new(
        s0.len(),
        |i: int|
            if i >= 0 {
                merge_row(s0[i], rows2[i])
            } else {
                s0[i]
            },
    ));

    assert forall|i: int| 0 <= i < t.len() implies #[trigger] student_record(t[i])
        == student_record(s1[i]) by {
        assert(t[i] == merge_row(s0[i], rows2[i]));
        assert(rows2[i] == student_record(s1[i]));
        let m = t[i];
        assert(m.student_id == s0[i].student_id);
        assert(s1[i].student_id == s0[i].student_id);
        assert(m.name == s1[i].name && m.github == s1[i].github);
        assert(rows2[i][3] == grade_cell(s1[i].blackbox));
        assert(rows2[i][4] == grade_cell(s1[i].whitebox));
        assert(rows2[i][5] == comment_cell(s1[i].comment));
        assert(student_wf(s1[i]));
        lemma_grade_cell_roundtrip(s1[i].blackbox);
        lemma_grade_cell_roundtrip(s1[i].whitebox);
        assert(m.blackbox == s1[i].blackbox);
        assert(m.whitebox == s1[i].whitebox);
        assert(m.comment == Some(comment_cell(s1[i].comment)));
        assert(comment_cell(m.comment) == comment_cell(s1[i].comment));
        assert(student_record(m) =~~= student_record(s1[i]));
    }
    assert(student_records(t) =~~= student_records(s1));
    assert(serialize_spec(t) == serialize_spec(s1));
}

} // verus!
