//! The spreadsheet format, as this library defines it: records of fields,
//! fields joined by commas, records ended by a newline. A field holding a
//! comma, a quote or a line break is written quoted, with inner quotes
//! doubled. The scanner accepts the same shape back, takes a lone `\n`,
//! a `\r\n` pair or a lone `\r` as a record end, and never fails: on
//! malformed text it still produces records, dropping what stands between
//! a closing quote and the next separator.

use vstd::prelude::*;

verus! {

/// Whether `c` separates fields or records.
pub open spec fn is_sep(c: char) -> bool {
    c == ',' || c == '\n' || c == '\r'
}

/// Whether `f` must be written quoted.
pub open spec fn needs_quote(f: Seq<char>) -> bool {
    exists|i: int| 0 <= i < f.len() && (is_sep(#[trigger] f[i]) || f[i] == '"')
}

/// `f` with every quote doubled.
pub open spec fn escape_quotes(f: Seq<char>) -> Seq<char>
    decreases f.len(),
{
    if f.len() == 0 {
        f
    } else {
        (if f[0] == '"' {
            seq!['"', '"']
        } else {
            seq![f[0]]
        }) + escape_quotes(f.drop_first())
    }
}

/// The written form of one field.
pub open spec fn enc_field(f: Seq<char>) -> Seq<char> {
    if needs_quote(f) {
        seq!['"'] + escape_quotes(f) + seq!['"']
    } else {
        f
    }
}

/// The written form of the fields of one record, joined by commas.
pub open spec fn enc_fields(r: Seq<Seq<char>>) -> Seq<char>
    decreases r.len(),
{
    if r.len() == 0 {
        Seq::<char>::empty()
    } else if r.len() == 1 {
        enc_field(r[0])
    } else {
        enc_field(r[0]) + seq![','] + enc_fields(r.drop_first())
    }
}

/// The written form of one record, with its terminator.
pub open spec fn enc_record(r: Seq<Seq<char>>) -> Seq<char> {
    enc_fields(r) + seq!['\n']
}

/// The written form of a whole table.
pub open spec fn enc_records(rs: Seq<Seq<Seq<char>>>) -> Seq<char>
    decreases rs.len(),
{
    if rs.len() == 0 {
        Seq::<char>::empty()
    } else {
        enc_record(rs[0]) + enc_records(rs.drop_first())
    }
}

/// Scans an unquoted field: everything up to the next separator. The
/// result is the field and the rest, beginning at the separator.
pub open spec fn scan_unquoted(s: Seq<char>) -> (Seq<char>, Seq<char>)
    decreases s.len(),
{
    if s.len() == 0 || is_sep(s[0]) {
        (Seq::<char>::empty(), s)
    } else {
        let (f, rest) = scan_unquoted(s.drop_first());
        (seq![s[0]] + f, rest)
    }
}

/// Scans the inside of a quoted field, after the opening quote: a doubled
/// quote stands for one, a single quote closes the field. The result is
/// the field and the rest, beginning after the closing quote.
pub open spec fn scan_quoted(s: Seq<char>) -> (Seq<char>, Seq<char>)
    decreases s.len(),
{
    if s.len() == 0 {
        (Seq::<char>::empty(), s)
    } else if s[0] == '"' {
        if s.len() >= 2 && s[1] == '"' {
            let (f, rest) = scan_quoted(s.subrange(2, s.len() as int));
            (seq!['"'] + f, rest)
        } else {
            (Seq::<char>::empty(), s.drop_first())
        }
    } else {
        let (f, rest) = scan_quoted(s.drop_first());
        (seq![s[0]] + f, rest)
    }
}

/// Drops everything up to the next separator.
pub open spec fn skip_to_sep(s: Seq<char>) -> Seq<char>
    decreases s.len(),
{
    if s.len() == 0 || is_sep(s[0]) {
        s
    } else {
        skip_to_sep(s.drop_first())
    }
}

/// Scans one field, quoted or not. The rest begins at a separator or is
/// empty.
pub open spec fn scan_field(s: Seq<char>) -> (Seq<char>, Seq<char>) {
    if s.len() > 0 && s[0] == '"' {
        let (f, rest) = scan_quoted(s.drop_first());
        (f, skip_to_sep(rest))
    } else {
        scan_unquoted(s)
    }
}

proof fn lemma_scan_unquoted_le(s: Seq<char>)
    ensures
        scan_unquoted(s).1.len() <= s.len(),
    decreases s.len(),
{
    if s.len() == 0 || is_sep(s[0]) {
    } else {
        lemma_scan_unquoted_le(s.drop_first());
    }
}

proof fn lemma_scan_quoted_le(s: Seq<char>)
    ensures
        scan_quoted(s).1.len() <= s.len(),
    decreases s.len(),
{
    if s.len() == 0 {
    } else if s[0] == '"' {
        if s.len() >= 2 && s[1] == '"' {
            lemma_scan_quoted_le(s.subrange(2, s.len() as int));
        }
    } else {
        lemma_scan_quoted_le(s.drop_first());
    }
}

proof fn lemma_skip_to_sep_le(s: Seq<char>)
    ensures
        skip_to_sep(s).len() <= s.len(),
    decreases s.len(),
{
    if s.len() == 0 || is_sep(s[0]) {
    } else {
        lemma_skip_to_sep_le(s.drop_first());
    }
}

proof fn lemma_scan_field_le(s: Seq<char>)
    ensures
        scan_field(s).1.len() <= s.len(),
{
    if s.len() > 0 && s[0] == '"' {
        lemma_scan_quoted_le(s.drop_first());
        lemma_skip_to_sep_le(scan_quoted(s.drop_first()).1);
    } else {
        lemma_scan_unquoted_le(s);
    }
}

/// Scans one record: fields joined by commas, ended by a separator pair
/// `\r\n`, a lone `\n` or `\r`, or the end of the text. The rest begins
/// after the terminator.
pub open spec fn scan_record(s: Seq<char>) -> (Seq<Seq<char>>, Seq<char>)
    decreases s.len(),
    via scan_record_dec
{
    let (f, rest) = scan_field(s);
    if rest.len() == 0 {
        (seq![f], rest)
    } else if rest[0] == ',' {
        let (fs, rest2) = scan_record(rest.drop_first());
        (seq![f] + fs, rest2)
    } else {
        let rest2 = if rest[0] == '\r' && rest.len() >= 2 && rest[1] == '\n' {
            rest.subrange(2, rest.len() as int)
        } else {
            rest.drop_first()
        };
        (seq![f], rest2)
    }
}

#[via_fn]
proof fn scan_record_dec(s: Seq<char>) {
    lemma_scan_field_le(s);
}

proof fn lemma_scan_record_lt(s: Seq<char>)
    ensures
        s.len() > 0 ==> scan_record(s).1.len() < s.len(),
        scan_record(s).1.len() <= s.len(),
    decreases s.len(),
{
    lemma_scan_field_le(s);
    let (f, rest) = scan_field(s);
    if rest.len() == 0 {
    } else if rest[0] == ',' {
        lemma_scan_record_lt(rest.drop_first());
    } else {
    }
}

/// Scans a whole text into records.
pub open spec fn scan_records(s: Seq<char>) -> Seq<Seq<Seq<char>>>
    decreases s.len(),
    via scan_records_dec
{
    if s.len() == 0 {
        Seq::<Seq<Seq<char>>>::empty()
    } else {
        let (r, rest) = scan_record(s);
        seq![r] + scan_records(rest)
    }
}

#[via_fn]
proof fn scan_records_dec(s: Seq<char>) {
    lemma_scan_record_lt(s);
}

proof fn lemma_scan_unquoted_clean(f: Seq<char>, rest: Seq<char>)
    requires
        forall|i: int| 0 <= i < f.len() ==> !is_sep(#[trigger] f[i]),
        rest.len() > 0 ==> is_sep(rest[0]),
    ensures
        scan_unquoted(f + rest) == (f, rest),
    decreases f.len(),
{
    let s = f + rest;
    if f.len() == 0 {
        assert(s =~= rest);
        assert(scan_unquoted(s) == (Seq::<char>::empty(), s));
    } else {
        assert(s[0] == f[0]);
        assert(!is_sep(s[0]));
        assert(s.drop_first() =~= f.drop_first() + rest);
        lemma_scan_unquoted_clean(f.drop_first(), rest);
        assert(seq![f[0]] + f.drop_first() =~= f);
    }
}

proof fn lemma_scan_quoted_rt(f: Seq<char>, rest: Seq<char>)
    requires
        rest.len() > 0 ==> rest[0] != '"',
    ensures
        scan_quoted(escape_quotes(f) + seq!['"'] + rest) == (f, rest),
    decreases f.len(),
{
    let s = escape_quotes(f) + seq!['"'] + rest;
    if f.len() == 0 {
        assert(escape_quotes(f) =~= Seq::<char>::empty());
        assert(s =~= seq!['"'] + rest);
        assert(s[0] == '"');
        if s.len() >= 2 {
            assert(s[1] == rest[0]);
            assert(s[1] != '"');
        }
        assert(s.drop_first() =~= rest);
        assert(f =~= Seq::<char>::empty());
    } else if f[0] == '"' {
        assert(escape_quotes(f) =~= seq!['"', '"'] + escape_quotes(f.drop_first()));
        assert(s[0] == '"');
        assert(s[1] == '"');
        assert(s.len() >= 2);
        assert(s.subrange(2, s.len() as int) =~= escape_quotes(f.drop_first()) + seq!['"'] + rest);
        lemma_scan_quoted_rt(f.drop_first(), rest);
        assert(seq!['"'] + f.drop_first() =~= f);
    } else {
        assert(escape_quotes(f) =~= seq![f[0]] + escape_quotes(f.drop_first()));
        assert(s[0] == f[0]);
        assert(s[0] != '"');
        assert(s.drop_first() =~= escape_quotes(f.drop_first()) + seq!['"'] + rest);
        lemma_scan_quoted_rt(f.drop_first(), rest);
        assert(seq![f[0]] + f.drop_first() =~= f);
    }
}

proof fn lemma_scan_field_rt(f: Seq<char>, rest: Seq<char>)
    requires
        rest.len() > 0 ==> is_sep(rest[0]),
    ensures
        scan_field(enc_field(f) + rest) == (f, rest),
{
    let s = enc_field(f) + rest;
    if needs_quote(f) {
        assert(s =~= seq!['"'] + (escape_quotes(f) + seq!['"'] + rest));
        assert(s[0] == '"');
        assert(s.drop_first() =~= escape_quotes(f) + seq!['"'] + rest);
        lemma_scan_quoted_rt(f, rest);
        assert(skip_to_sep(rest) == rest);
    } else {
        assert(s =~= f + rest);
        assert(forall|i: int| 0 <= i < f.len() ==> !is_sep(#[trigger] f[i]) && f[i] != '"');
        if s.len() > 0 && s[0] == '"' {
            if f.len() > 0 {
                assert(f[0] == '"');
                assert(false);
            } else {
                assert(s =~= rest);
                assert(is_sep(rest[0]));
                assert(false);
            }
        }
        lemma_scan_unquoted_clean(f, rest);
    }
}

proof fn lemma_scan_record_rt(r: Seq<Seq<char>>, rest: Seq<char>)
    requires
        r.len() >= 1,
    ensures
        scan_record(enc_fields(r) + seq!['\n'] + rest) == (r, rest),
    decreases r.len(),
{
    let s = enc_fields(r) + seq!['\n'] + rest;
    if r.len() == 1 {
        let tail = seq!['\n'] + rest;
        assert(s =~= enc_field(r[0]) + tail);
        lemma_scan_field_rt(r[0], tail);
        assert(scan_field(s) == (r[0], tail));
        assert(tail[0] == '\n');
        assert(tail.drop_first() =~= rest);
        assert(seq![r[0]] =~= r);
    } else {
        let tail = seq![','] + (enc_fields(r.drop_first()) + seq!['\n'] + rest);
        assert(enc_fields(r) =~= enc_field(r[0]) + seq![','] + enc_fields(r.drop_first()));
        assert(s =~= enc_field(r[0]) + tail);
        lemma_scan_field_rt(r[0], tail);
        assert(scan_field(s) == (r[0], tail));
        assert(tail[0] == ',');
        assert(tail.drop_first() =~= enc_fields(r.drop_first()) + seq!['\n'] + rest);
        lemma_scan_record_rt(r.drop_first(), rest);
        assert(seq![r[0]] + r.drop_first() =~= r);
    }
}

/// Scanning what was written gives the records back, field for field,
/// whatever the fields hold, as long as every record has a field.
pub proof fn lemma_scan_enc_records(rs: Seq<Seq<Seq<char>>>)
    requires
        forall|i: int| 0 <= i < rs.len() ==> #[trigger] rs[i].len() >= 1,
    ensures
        scan_records(enc_records(rs)) == rs,
    decreases rs.len(),
{
    if rs.len() == 0 {
    } else {
        let s = enc_records(rs);
        assert(s =~= enc_fields(rs[0]) + seq!['\n'] + enc_records(rs.drop_first()));
        lemma_scan_record_rt(rs[0], enc_records(rs.drop_first()));
        assert(s.len() >= 1) by {
            assert(s.len() == enc_fields(rs[0]).len() + 1 + enc_records(rs.drop_first()).len());
        }
        assert(scan_record(s) == (rs[0], enc_records(rs.drop_first())));
        assert(forall|i: int|
            0 <= i < rs.drop_first().len() ==> #[trigger] rs.drop_first()[i].len() >= 1);
        lemma_scan_enc_records(rs.drop_first());
        assert(seq![rs[0]] + rs.drop_first() =~= rs);
    }
}

/// Whether `c` separates fields or records.
pub fn sep(c: char) -> (r: bool)
    ensures
        r == is_sep(c),
{
    c == ',' || c == '\n' || c == '\r'
}

fn field_needs_quote(f: &Vec<char>) -> (r: bool)
    ensures
        r == needs_quote(f@),
{
    let mut i: usize = 0;
    let mut found = false;
    while i < f.len()
        invariant
            i <= f@.len(),
            found == (exists|k: int| 0 <= k < i && (is_sep(#[trigger] f@[k]) || f@[k] == '"')),
        decreases f@.len() - i,
    {
        if sep(f[i]) || f[i] == '"' {
            found = true;
        }
        i = i + 1;
    }
    found
}

proof fn lemma_escape_concat(a: Seq<char>, b: Seq<char>)
    ensures
        escape_quotes(a + b) == escape_quotes(a) + escape_quotes(b),
    decreases a.len(),
{
    if a.len() == 0 {
        assert(a + b =~= b);
        assert(escape_quotes(a) =~= Seq::<char>::empty());
        assert(escape_quotes(a) + escape_quotes(b) =~= escape_quotes(b));
    } else {
        lemma_escape_concat(a.drop_first(), b);
        assert((a + b).drop_first() =~= a.drop_first() + b);
        assert(escape_quotes(a + b) =~= escape_quotes(a) + escape_quotes(b));
    }
}

proof fn lemma_escape_single(c: char)
    ensures
        c == '"' ==> escape_quotes(seq![c]) == seq!['"', '"'],
        c != '"' ==> escape_quotes(seq![c]) == seq![c],
{
    let s = seq![c];
    assert(s.drop_first() =~= Seq::<char>::empty());
    assert(escape_quotes(Seq::<char>::empty()) == Seq::<char>::empty());
    if c == '"' {
        assert(escape_quotes(s) =~= seq!['"', '"']);
    } else {
        assert(escape_quotes(s) =~= seq![c]);
    }
}

/// Appends the written form of one field.
fn enc_field_into(field: &String, out: &mut Vec<char>)
    ensures
        final(out)@ == old(out)@ + enc_field(field@),
{
    let f = crate::text::string_to_chars(field.as_str());
    let quote = field_needs_quote(&f);
    let ghost base = out@;
    if quote {
        out.push('"');
        let mut i: usize = 0;
        while i < f.len()
            invariant
                i <= f@.len(),
                out@ == base + seq!['"'] + escape_quotes(f@.subrange(0, i as int)),
            decreases f@.len() - i,
        {
            let c = f[i];
            if c == '"' {
                out.push('"');
                out.push('"');
            } else {
                out.push(c);
            }
            proof {
                let pre = f@.subrange(0, i as int);
                lemma_escape_concat(pre, seq![f@[i as int]]);
                lemma_escape_single(f@[i as int]);
                assert(f@.subrange(0, i as int + 1) =~= pre + seq![f@[i as int]]);
                assert(out@ =~= base + seq!['"'] + escape_quotes(f@.subrange(0, i as int + 1)));
            }
            i = i + 1;
        }
        out.push('"');
        proof {
            assert(f@.subrange(0, f@.len() as int) =~= f@);
            assert(out@ =~= base + (seq!['"'] + escape_quotes(field@) + seq!['"']));
        }
    } else {
        let mut i: usize = 0;
        while i < f.len()
            invariant
                i <= f@.len(),
                out@ == base + f@.subrange(0, i as int),
            decreases f@.len() - i,
        {
            out.push(f[i]);
            proof {
                assert(base + f@.subrange(0, i as int) + seq![f@[i as int]] =~= base + f@.subrange(
                    0,
                    i as int + 1,
                ));
            }
            i = i + 1;
        }
        proof {
            assert(f@.subrange(0, f@.len() as int) =~= f@);
            assert(out@ =~= base + enc_field(field@));
        }
    }
}

/// Appends the written form of the fields of `rec` from `i` on.
fn enc_fields_into(rec: &Vec<String>, i: usize, out: &mut Vec<char>)
    requires
        i <= rec@.len(),
    ensures
        final(out)@ == old(out)@ + enc_fields(rec.deep_view().subrange(i as int, rec@.len() as int)),
    decreases rec@.len() - i,
{
    let ghost suffix = rec.deep_view().subrange(i as int, rec@.len() as int);
    if i == rec.len() {
        proof {
            assert(out@ =~= out@ + enc_fields(suffix));
        }
    } else if i + 1 == rec.len() {
        enc_field_into(&rec[i], out);
        proof {
            assert(suffix.len() == 1);
            assert(suffix[0] == rec[i as int]@);
            assert(enc_fields(suffix) == enc_field(suffix[0]));
        }
    } else {
        let ghost base = out@;
        enc_field_into(&rec[i], out);
        out.push(',');
        enc_fields_into(rec, i + 1, out);
        proof {
            assert(suffix.len() >= 2);
            assert(suffix[0] == rec[i as int]@);
            assert(suffix.drop_first() =~= rec.deep_view().subrange(
                i + 1 as int,
                rec@.len() as int,
            ));
            assert(out@ =~= base + (enc_field(suffix[0]) + seq![','] + enc_fields(
                suffix.drop_first(),
            )));
        }
    }
}

/// Appends the written form of the records of `rs` from `i` on.
fn enc_records_into(rs: &Vec<Vec<String>>, i: usize, out: &mut Vec<char>)
    requires
        i <= rs@.len(),
    ensures
        final(out)@ == old(out)@ + enc_records(
            rs.deep_view().subrange(i as int, rs@.len() as int),
        ),
    decreases rs@.len() - i,
{
    let ghost suffix = rs.deep_view().subrange(i as int, rs@.len() as int);
    if i == rs.len() {
        proof {
            assert(out@ =~= out@ + enc_records(suffix));
        }
    } else {
        let ghost base = out@;
        enc_fields_into(&rs[i], 0, out);
        out.push('\n');
        enc_records_into(rs, i + 1, out);
        proof {
            assert(suffix[0] =~= rs[i as int].deep_view());
            assert(rs[i as int].deep_view().subrange(0, rs[i as int]@.len() as int) =~= suffix[0]);
            assert(suffix.drop_first() =~= rs.deep_view().subrange(i + 1 as int, rs@.len() as int));
            assert(out@ =~= base + (enc_fields(suffix[0]) + seq!['\n'] + enc_records(
                suffix.drop_first(),
            )));
        }
    }
}

/// Writes a table of records.
pub fn encode_csv(records: &Vec<Vec<String>>) -> (out: String)
    ensures
        out@ == enc_records(records.deep_view()),
{
    let mut chars: Vec<char> = Vec::new();
    enc_records_into(records, 0, &mut chars);
    proof {
        assert(records.deep_view().subrange(0, records@.len() as int) =~= records.deep_view());
    }
    crate::text::chars_to_string(&chars)
}

/// Scans an unquoted field beginning at `pos`, appending its characters.
fn scan_unquoted_at(chars: &Vec<char>, pos: usize, out: &mut Vec<char>) -> (newpos: usize)
    requires
        pos <= chars@.len(),
    ensures
        pos <= newpos <= chars@.len(),
        ({
            let (f, rest) = scan_unquoted(chars@.subrange(pos as int, chars@.len() as int));
            final(out)@ == old(out)@ + f && rest == chars@.subrange(
                newpos as int,
                chars@.len() as int,
            )
        }),
    decreases chars@.len() - pos,
{
    let ghost s = chars@.subrange(pos as int, chars@.len() as int);
    if pos == chars.len() {
        proof {
            assert(out@ =~= out@ + scan_unquoted(s).0);
        }
        pos
    } else if sep(chars[pos]) {
        proof {
            assert(s[0] == chars@[pos as int]);
            assert(out@ =~= out@ + scan_unquoted(s).0);
        }
        pos
    } else {
        let ghost base = out@;
        out.push(chars[pos]);
        let newpos = scan_unquoted_at(chars, pos + 1, out);
        proof {
            assert(s[0] == chars@[pos as int]);
            assert(s.drop_first() =~= chars@.subrange(pos + 1 as int, chars@.len() as int));
            let (f1, _rest1) = scan_unquoted(s.drop_first());
            assert(out@ =~= base + (seq![s[0]] + f1));
        }
        newpos
    }
}

/// Scans the inside of a quoted field beginning at `pos`, appending its
/// characters.
fn scan_quoted_at(chars: &Vec<char>, pos: usize, out: &mut Vec<char>) -> (newpos: usize)
    requires
        pos <= chars@.len(),
    ensures
        pos <= newpos <= chars@.len(),
        ({
            let (f, rest) = scan_quoted(chars@.subrange(pos as int, chars@.len() as int));
            final(out)@ == old(out)@ + f && rest == chars@.subrange(
                newpos as int,
                chars@.len() as int,
            )
        }),
    decreases chars@.len() - pos,
{
    let ghost s = chars@.subrange(pos as int, chars@.len() as int);
    if pos == chars.len() {
        proof {
            assert(out@ =~= out@ + scan_quoted(s).0);
        }
        pos
    } else if chars[pos] == '"' {
        proof {
            assert(s[0] == '"');
        }
        if pos + 1 < chars.len() && chars[pos + 1] == '"' {
            let ghost base = out@;
            out.push('"');
            let newpos = scan_quoted_at(chars, pos + 2, out);
            proof {
                assert(s[1] == chars@[pos + 1]);
                assert(s.len() >= 2);
                assert(s.subrange(2, s.len() as int) =~= chars@.subrange(
                    pos + 2 as int,
                    chars@.len() as int,
                ));
                let (f1, _rest1) = scan_quoted(s.subrange(2, s.len() as int));
                assert(out@ =~= base + (seq!['"'] + f1));
            }
            newpos
        } else {
            proof {
                if s.len() >= 2 {
                    assert(s[1] == chars@[pos + 1]);
                    assert(s[1] != '"');
                }
                assert(s.drop_first() =~= chars@.subrange(pos + 1 as int, chars@.len() as int));
                assert(out@ =~= out@ + scan_quoted(s).0);
            }
            pos + 1
        }
    } else {
        let ghost base = out@;
        out.push(chars[pos]);
        let newpos = scan_quoted_at(chars, pos + 1, out);
        proof {
            assert(s[0] == chars@[pos as int]);
            assert(s.drop_first() =~= chars@.subrange(pos + 1 as int, chars@.len() as int));
            let (f1, _rest1) = scan_quoted(s.drop_first());
            assert(out@ =~= base + (seq![s[0]] + f1));
        }
        newpos
    }
}

/// Advances `pos` to the next separator, or the end.
fn skip_to_sep_at(chars: &Vec<char>, pos: usize) -> (newpos: usize)
    requires
        pos <= chars@.len(),
    ensures
        pos <= newpos <= chars@.len(),
        skip_to_sep(chars@.subrange(pos as int, chars@.len() as int)) == chars@.subrange(
            newpos as int,
            chars@.len() as int,
        ),
    decreases chars@.len() - pos,
{
    let ghost s = chars@.subrange(pos as int, chars@.len() as int);
    if pos == chars.len() {
        pos
    } else if sep(chars[pos]) {
        proof {
            assert(s[0] == chars@[pos as int]);
        }
        pos
    } else {
        proof {
            assert(s[0] == chars@[pos as int]);
            assert(s.drop_first() =~= chars@.subrange(pos + 1 as int, chars@.len() as int));
        }
        skip_to_sep_at(chars, pos + 1)
    }
}

/// Scans one field beginning at `pos`.
fn scan_field_at(chars: &Vec<char>, pos: usize) -> (r: (Vec<char>, usize))
    requires
        pos <= chars@.len(),
    ensures
        pos <= r.1 <= chars@.len(),
        ({
            let (f, rest) = scan_field(chars@.subrange(pos as int, chars@.len() as int));
            r.0@ == f && rest == chars@.subrange(r.1 as int, chars@.len() as int)
        }),
{
    let ghost s = chars@.subrange(pos as int, chars@.len() as int);
    let mut f: Vec<char> = Vec::new();
    if pos < chars.len() && chars[pos] == '"' {
        proof {
            assert(s[0] == '"');
            assert(s.drop_first() =~= chars@.subrange(pos + 1 as int, chars@.len() as int));
        }
        let p1 = scan_quoted_at(chars, pos + 1, &mut f);
        let p2 = skip_to_sep_at(chars, p1);
        (f, p2)
    } else {
        proof {
            if s.len() > 0 {
                assert(s[0] == chars@[pos as int]);
            }
        }
        let p1 = scan_unquoted_at(chars, pos, &mut f);
        (f, p1)
    }
}

/// Scans one record beginning at `pos`, appending its fields.
fn scan_record_at(chars: &Vec<char>, pos: usize, out: &mut Vec<String>) -> (newpos: usize)
    requires
        pos <= chars@.len(),
    ensures
        pos <= newpos <= chars@.len(),
        ({
            let (r, rest) = scan_record(chars@.subrange(pos as int, chars@.len() as int));
            final(out).deep_view() == old(out).deep_view() + r && rest == chars@.subrange(
                newpos as int,
                chars@.len() as int,
            )
        }),
    decreases chars@.len() - pos,
{
    let ghost s = chars@.subrange(pos as int, chars@.len() as int);
    let ghost base = out.deep_view();
    let (f, p1) = scan_field_at(chars, pos);
    let field = crate::text::chars_to_string(&f);
    out.push(field);
    proof {
        assert(out.deep_view() =~= base.push(f@));
    }
    if p1 == chars.len() {
        proof {
            assert(scan_field(s).1.len() == 0);
            assert(out.deep_view() =~= base + scan_record(s).0);
        }
        p1
    } else if chars[p1] == ',' {
        proof {
            let rest = scan_field(s).1;
            assert(rest[0] == chars@[p1 as int]);
            assert(rest.drop_first() =~= chars@.subrange(p1 + 1 as int, chars@.len() as int));
        }
        let newpos = scan_record_at(chars, p1 + 1, out);
        proof {
            let rest = scan_field(s).1;
            let (fs, _rest2) = scan_record(rest.drop_first());
            assert(out.deep_view() =~= base + (seq![f@] + fs));
        }
        newpos
    } else {
        proof {
            let rest = scan_field(s).1;
            assert(rest[0] == chars@[p1 as int]);
            assert(rest[0] != ',');
        }
        if chars[p1] == '\r' && p1 + 1 < chars.len() && chars[p1 + 1] == '\n' {
            proof {
                let rest = scan_field(s).1;
                assert(rest[1] == chars@[p1 + 1]);
                assert(rest.subrange(2, rest.len() as int) =~= chars@.subrange(
                    p1 + 2 as int,
                    chars@.len() as int,
                ));
                assert(out.deep_view() =~= base + scan_record(s).0);
            }
            p1 + 2
        } else {
            proof {
                let rest = scan_field(s).1;
                if rest[0] == '\r' && rest.len() >= 2 {
                    assert(rest[1] == chars@[p1 + 1]);
                }
                assert(rest.drop_first() =~= chars@.subrange(p1 + 1 as int, chars@.len() as int));
                assert(out.deep_view() =~= base + scan_record(s).0);
            }
            p1 + 1
        }
    }
}

/// Scans all records beginning at `pos`, appending them.
pub(crate) fn scan_records_at(chars: &Vec<char>, pos: usize, out: &mut Vec<Vec<String>>)
    requires
        pos <= chars@.len(),
    ensures
        final(out).deep_view() == old(out).deep_view() + scan_records(
            chars@.subrange(pos as int, chars@.len() as int),
        ),
    decreases chars@.len() - pos,
{
    let ghost s = chars@.subrange(pos as int, chars@.len() as int);
    if pos == chars.len() {
        proof {
            assert(out.deep_view() =~= out.deep_view() + scan_records(s));
        }
    } else {
        let ghost base = out.deep_view();
        let mut fields: Vec<String> = Vec::new();
        let p1 = scan_record_at(chars, pos, &mut fields);
        let ghost rec = scan_record(s).0;
        proof {
            assert(fields.deep_view() =~= Seq::<Seq<char>>::empty() + rec);
            assert(fields.deep_view() =~= rec);
            lemma_scan_record_lt(s);
            assert(p1 > pos);
        }
        out.push(fields);
        proof {
            assert(out.deep_view() =~= base.push(rec));
        }
        scan_records_at(chars, p1, out);
        proof {
            assert(out.deep_view() =~= base + (seq![rec] + scan_records(
                chars@.subrange(p1 as int, chars@.len() as int),
            )));
        }
    }
}

/// Scans a whole text into records.
pub fn parse_csv(text: &str) -> (records: Vec<Vec<String>>)
    ensures
        records.deep_view() == scan_records(text@),
{
    let chars = crate::text::string_to_chars(text);
    let mut out: Vec<Vec<String>> = Vec::new();
    scan_records_at(&chars, 0, &mut out);
    proof {
        assert(chars@.subrange(0, chars@.len() as int) =~= text@);
        assert(out.deep_view() =~= scan_records(text@));
    }
    out
}

/// A record that stands for an empty line: one empty field.
pub open spec fn is_blank_record(r: Seq<Seq<char>>) -> bool {
    r.len() == 1 && r[0].len() == 0
}

/// The records with the empty lines dropped.
pub open spec fn drop_blanks(rs: Seq<Seq<Seq<char>>>) -> Seq<Seq<Seq<char>>>
    decreases rs.len(),
{
    if rs.len() == 0 {
        Seq::<Seq<Seq<char>>>::empty()
    } else {
        (if is_blank_record(rs[0]) {
            Seq::<Seq<Seq<char>>>::empty()
        } else {
            seq![rs[0]]
        }) + drop_blanks(rs.drop_first())
    }
}

/// Dropping empty lines from records without any is no change.
pub proof fn lemma_drop_blanks_id(rs: Seq<Seq<Seq<char>>>)
    requires
        forall|i: int| 0 <= i < rs.len() ==> !is_blank_record(#[trigger] rs[i]),
    ensures
        drop_blanks(rs) == rs,
    decreases rs.len(),
{
    if rs.len() == 0 {
        assert(drop_blanks(rs) =~= rs);
    } else {
        lemma_drop_blanks_id(rs.drop_first());
        assert(drop_blanks(rs) =~= seq![rs[0]] + rs.drop_first());
        assert(seq![rs[0]] + rs.drop_first() =~= rs);
    }
}

/// The text with a leading byte-order mark removed.
pub open spec fn strip_bom(s: Seq<char>) -> Seq<char> {
    if s.len() > 0 && s[0] == '\u{feff}' {
        s.drop_first()
    } else {
        s
    }
}

/// The data records of a table text: the byte-order mark and the empty
/// lines dropped, and the first remaining record taken as the header.
pub open spec fn data_records(text: Seq<char>) -> Seq<Seq<Seq<char>>> {
    let rs = drop_blanks(scan_records(strip_bom(text)));
    if rs.len() > 0 {
        rs.drop_first()
    } else {
        rs
    }
}

/// Reads the data records of a table text.
pub fn data_rows(text: &str) -> (rows: Vec<Vec<String>>)
    ensures
        rows.deep_view() == data_records(text@),
{
    let chars = crate::text::string_to_chars(text);
    let start: usize = if chars.len() > 0 && chars[0] == '\u{feff}' {
        1
    } else {
        0
    };
    proof {
        assert(chars@.subrange(start as int, chars@.len() as int) =~= strip_bom(text@));
    }
    let mut raw: Vec<Vec<String>> = Vec::new();
    scan_records_at(&chars, start, &mut raw);
    proof {
        assert(raw.deep_view() =~= scan_records(strip_bom(text@)));
    }
    let ghost orig = raw.deep_view();
    let mut clean: Vec<Vec<String>> = Vec::new();
    while raw.len() > 0
        invariant
            drop_blanks(orig) == clean.deep_view() + drop_blanks(raw.deep_view()),
        decreases raw@.len(),
    {
        let ghost pre = raw.deep_view();
        let ghost cpre = clean.deep_view();
        let rec = raw.remove(0);
        let blank = rec.len() == 1 && rec[0].as_str().is_empty();
        proof {
            assert(pre[0] =~= rec.deep_view());
            assert(blank == is_blank_record(pre[0]));
            assert(raw.deep_view() =~= pre.drop_first());
        }
        if !blank {
            clean.push(rec);
            proof {
                assert(clean.deep_view() =~= cpre.push(rec.deep_view()));
                assert(cpre + (seq![pre[0]] + drop_blanks(pre.drop_first())) =~= clean.deep_view()
                    + drop_blanks(pre.drop_first()));
            }
        } else {
            proof {
                assert(cpre + (Seq::<Seq<Seq<char>>>::empty() + drop_blanks(pre.drop_first()))
                    =~= clean.deep_view() + drop_blanks(pre.drop_first()));
            }
        }
    }
    proof {
        assert(raw.deep_view() =~= Seq::<Seq<Seq<char>>>::empty());
        assert(drop_blanks(Seq::<Seq<Seq<char>>>::empty()) =~= Seq::<Seq<Seq<char>>>::empty());
        assert(clean.deep_view() =~= drop_blanks(orig));
    }
    if clean.len() > 0 {
        let ghost cpre = clean.deep_view();
        clean.remove(0);
        proof {
            assert(clean.deep_view() =~= cpre.drop_first());
        }
    }
    clean
}

} // verus!
