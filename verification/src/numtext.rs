//! Canonical decimal text for grades.
//!
//! A grade is stored and written as text. The library accepts a string as
//! a grade when it is an optionally signed decimal number — digits with at
//! most one dot and at least one digit — and reduces it to a canonical
//! form: no `+` sign, no leading zeros in the integer part (a bare zero is
//! kept as `0`), no trailing zeros in the fractional part, and no dot when
//! the fractional part is empty. Anything else (such as the literal
//! `N/A`) is no grade at all.

use vstd::prelude::*;

verus! {

/// Whether `c` is a decimal digit.
pub open spec fn is_digit(c: char) -> bool {
    c == '0' || c == '1' || c == '2' || c == '3' || c == '4' || c == '5' || c == '6' || c == '7'
        || c == '8' || c == '9'
}

/// Whether `c` may occur in the body of a number: a digit or a dot.
pub open spec fn is_num_char(c: char) -> bool {
    is_digit(c) || c == '.'
}

/// Whether every character of `s` may occur in the body of a number.
pub open spec fn all_num_chars(s: Seq<char>) -> bool {
    forall|i: int| 0 <= i < s.len() ==> is_num_char(#[trigger] s[i])
}

/// Whether some character of `s` is a digit.
pub open spec fn has_digit(s: Seq<char>) -> bool {
    exists|i: int| 0 <= i < s.len() && is_digit(#[trigger] s[i])
}

/// How many dots occur in `s`.
pub open spec fn dot_count(s: Seq<char>) -> nat
    decreases s.len(),
{
    if s.len() == 0 {
        0
    } else {
        dot_count(s.drop_first()) + (if s[0] == '.' {
            1nat
        } else {
            0nat
        })
    }
}

/// The body of `s`: everything after an optional leading sign.
pub open spec fn num_body(s: Seq<char>) -> Seq<char> {
    if s.len() > 0 && (s[0] == '-' || s[0] == '+') {
        s.drop_first()
    } else {
        s
    }
}

/// Whether `s` is negative: a leading `-`.
pub open spec fn num_neg(s: Seq<char>) -> bool {
    s.len() > 0 && s[0] == '-'
}

/// Whether `s` is accepted as a number.
pub open spec fn num_valid(s: Seq<char>) -> bool {
    &&& all_num_chars(num_body(s))
    &&& dot_count(num_body(s)) <= 1
    &&& has_digit(num_body(s))
}

/// The characters of the body before the first dot.
pub open spec fn int_part(body: Seq<char>) -> Seq<char>
    decreases body.len(),
{
    if body.len() == 0 || body[0] == '.' {
        Seq::<char>::empty()
    } else {
        seq![body[0]] + int_part(body.drop_first())
    }
}

/// The characters of the body after the first dot.
pub open spec fn frac_part(body: Seq<char>) -> Seq<char>
    decreases body.len(),
{
    if body.len() == 0 {
        Seq::<char>::empty()
    } else if body[0] == '.' {
        body.drop_first()
    } else {
        frac_part(body.drop_first())
    }
}

/// `s` with leading zeros removed.
pub open spec fn strip_leading_zeros(s: Seq<char>) -> Seq<char>
    decreases s.len(),
{
    if s.len() > 0 && s[0] == '0' {
        strip_leading_zeros(s.drop_first())
    } else {
        s
    }
}

/// `s` with trailing zeros removed.
pub open spec fn strip_trailing_zeros(s: Seq<char>) -> Seq<char>
    decreases s.len(),
{
    if s.len() > 0 && s[s.len() - 1] == '0' {
        strip_trailing_zeros(s.drop_last())
    } else {
        s
    }
}

/// The canonical integer part: leading zeros removed, a single `0` kept
/// when nothing is left.
pub open spec fn canon_int(body: Seq<char>) -> Seq<char> {
    let ip = strip_leading_zeros(int_part(body));
    if ip.len() == 0 {
        seq!['0']
    } else {
        ip
    }
}

/// The canonical fractional part: trailing zeros removed.
pub open spec fn canon_frac(body: Seq<char>) -> Seq<char> {
    strip_trailing_zeros(frac_part(body))
}

/// The canonical text of `s`, or `None` when `s` is not accepted.
pub open spec fn canon_num(s: Seq<char>) -> Option<Seq<char>> {
    if num_valid(s) {
        let body = num_body(s);
        let sign = if num_neg(s) {
            seq!['-']
        } else {
            Seq::<char>::empty()
        };
        let frac = canon_frac(body);
        let tail = if frac.len() > 0 {
            seq!['.'] + frac
        } else {
            Seq::<char>::empty()
        };
        Some(sign + canon_int(body) + tail)
    } else {
        None
    }
}

/// Whether `c` is a decimal digit.
pub fn digit(c: char) -> (r: bool)
    ensures
        r == is_digit(c),
{
    c == '0' || c == '1' || c == '2' || c == '3' || c == '4' || c == '5' || c == '6' || c == '7'
        || c == '8' || c == '9'
}

proof fn lemma_dot_count_concat(a: Seq<char>, b: Seq<char>)
    ensures
        dot_count(a + b) == dot_count(a) + dot_count(b),
    decreases a.len(),
{
    if a.len() == 0 {
        assert(a + b =~= b);
    } else {
        lemma_dot_count_concat(a.drop_first(), b);
        assert((a + b).drop_first() =~= a.drop_first() + b);
    }
}

/// In a body whose prefix up to `d` has no dot and whose character at `d`
/// (if any) is a dot, the integer part is that prefix and the fractional
/// part is what follows the dot.
proof fn lemma_split_at_dot(body: Seq<char>, d: int)
    requires
        0 <= d <= body.len(),
        forall|i: int| 0 <= i < d ==> #[trigger] body[i] != '.',
        d < body.len() ==> body[d] == '.',
    ensures
        int_part(body) == body.subrange(0, d),
        frac_part(body) == (if d < body.len() {
            body.subrange(d + 1, body.len() as int)
        } else {
            Seq::<char>::empty()
        }),
    decreases body.len(),
{
    if body.len() == 0 {
        assert(int_part(body) =~= body.subrange(0, d));
    } else if body[0] == '.' {
        assert(d == 0);
        assert(int_part(body) =~= body.subrange(0, 0));
        assert(frac_part(body) =~= body.subrange(1, body.len() as int));
    } else {
        assert(d >= 1);
        let rest = body.drop_first();
        lemma_split_at_dot(rest, d - 1);
        assert(int_part(body) =~= seq![body[0]] + int_part(rest));
        assert(seq![body[0]] + rest.subrange(0, d - 1) =~= body.subrange(0, d));
        if d < body.len() {
            assert(rest.subrange(d - 1 + 1, rest.len() as int) =~= body.subrange(
                d + 1,
                body.len() as int,
            ));
        }
    }
}

/// When the first `j` characters are zeros and the character at `j` (if
/// any) is not, stripping leading zeros leaves the suffix from `j`.
proof fn lemma_strip_leading(s: Seq<char>, j: int)
    requires
        0 <= j <= s.len(),
        forall|i: int| 0 <= i < j ==> #[trigger] s[i] == '0',
        j < s.len() ==> s[j] != '0',
    ensures
        strip_leading_zeros(s) == s.subrange(j, s.len() as int),
    decreases s.len(),
{
    if j == 0 {
        assert(s.subrange(0, s.len() as int) =~= s);
    } else {
        let rest = s.drop_first();
        lemma_strip_leading(rest, j - 1);
        assert(rest.subrange(j - 1, rest.len() as int) =~= s.subrange(j, s.len() as int));
    }
}

/// When the characters from `j` on are zeros and the character before `j`
/// (if any) is not, stripping trailing zeros leaves the prefix up to `j`.
proof fn lemma_strip_trailing(s: Seq<char>, j: int)
    requires
        0 <= j <= s.len(),
        forall|i: int| j <= i < s.len() ==> #[trigger] s[i] == '0',
        j > 0 ==> s[j - 1] != '0',
    ensures
        strip_trailing_zeros(s) == s.subrange(0, j),
    decreases s.len(),
{
    if j == s.len() {
        assert(s.subrange(0, s.len() as int) =~= s);
    } else {
        let rest = s.drop_last();
        lemma_strip_trailing(rest, j);
        assert(rest.subrange(0, j) =~= s.subrange(0, j));
    }
}


proof fn lemma_no_dot_count(s: Seq<char>)
    requires
        forall|i: int| 0 <= i < s.len() ==> #[trigger] s[i] != '.',
    ensures
        dot_count(s) == 0,
    decreases s.len(),
{
    if s.len() > 0 {
        lemma_no_dot_count(s.drop_first());
    }
}

proof fn lemma_dot_count_single()
    ensures
        dot_count(seq!['.']) == 1,
{
    let s = seq!['.'];
    assert(s.drop_first() =~= Seq::<char>::empty());
    assert(dot_count(Seq::<char>::empty()) == 0);
}

/// A dot somewhere in `s` puts the count at one at least.
proof fn lemma_dot_count_at_least_one(s: Seq<char>, i: int)
    requires
        0 <= i < s.len(),
        s[i] == '.',
    ensures
        dot_count(s) >= 1,
    decreases s.len(),
{
    if i > 0 {
        lemma_dot_count_at_least_one(s.drop_first(), i - 1);
    }
}

/// Two dots at distinct places put the count at two at least.
proof fn lemma_two_dots(s: Seq<char>, i: int, j: int)
    requires
        0 <= i < j < s.len(),
        s[i] == '.',
        s[j] == '.',
    ensures
        dot_count(s) >= 2,
    decreases s.len(),
{
    if i > 0 {
        lemma_two_dots(s.drop_first(), i - 1, j - 1);
    } else {
        lemma_dot_count_at_least_one(s.drop_first(), j - 1);
    }
}

/// Scans `v` from `start`: the index of the first dot (or the length when
/// there is none), whether every character is numeric, whether a second
/// dot occurs, and whether any digit occurs.
fn scan_number(v: &Vec<char>, start: usize) -> (r: (usize, bool, bool, bool))
    requires
        start <= v@.len(),
    ensures
        start <= r.0 <= v@.len(),
        r.0 < v@.len() ==> v@[r.0 as int] == '.',
        forall|k: int| start <= k < r.0 ==> #[trigger] v@[k] != '.',
        r.2 == (exists|k: int| r.0 < k < v@.len() && #[trigger] v@[k] == '.'),
        r.1 == (forall|k: int| start <= k < v@.len() ==> is_num_char(#[trigger] v@[k])),
        r.3 == (exists|k: int| start <= k < v@.len() && is_digit(#[trigger] v@[k])),
{
    let mut dot: usize = v.len();
    let mut valid_chars = true;
    let mut dup_dot = false;
    let mut any_digit = false;
    let mut i: usize = start;
    while i < v.len()
        invariant
            start <= i <= v@.len(),
            start <= dot,
            dot < i || dot == v@.len(),
            dot < i ==> v@[dot as int] == '.',
            forall|k: int| start <= k < i && k < dot ==> #[trigger] v@[k] != '.',
            dup_dot == (exists|k: int| dot < k < i && #[trigger] v@[k] == '.'),
            valid_chars == (forall|k: int| start <= k < i ==> is_num_char(#[trigger] v@[k])),
            any_digit == (exists|k: int| start <= k < i && is_digit(#[trigger] v@[k])),
        decreases v@.len() - i,
    {
        let c = v[i];
        if digit(c) {
            any_digit = true;
        } else if c == '.' {
            if dot < i {
                dup_dot = true;
            } else {
                dot = i;
            }
        } else {
            valid_chars = false;
        }
        i = i + 1;
    }
    (dot, valid_chars, dup_dot, any_digit)
}

/// Appends `v[a..b]` to `out`.
fn copy_range(v: &Vec<char>, a: usize, b: usize, out: &mut Vec<char>)
    requires
        a <= b <= v@.len(),
    ensures
        final(out)@ == old(out)@ + v@.subrange(a as int, b as int),
{
    let mut k: usize = a;
    while k < b
        invariant
            a <= k <= b <= v@.len(),
            out@ == old(out)@ + v@.subrange(a as int, k as int),
        decreases b - k,
    {
        out.push(v[k]);
        proof {
            assert(old(out)@ + v@.subrange(a as int, k as int) + seq![v@[k as int]] =~= old(out)@
                + v@.subrange(a as int, k + 1));
        }
        k = k + 1;
    }
    proof {
        assert(out@ =~= old(out)@ + v@.subrange(a as int, b as int));
    }
}

/// Where the body of `s` begins: after an optional leading sign.
pub open spec fn sign_skip(s: Seq<char>) -> int {
    if s.len() > 0 && (s[0] == '-' || s[0] == '+') {
        1
    } else {
        0
    }
}

proof fn lemma_body_subrange(s: Seq<char>)
    ensures
        num_body(s) == s.subrange(sign_skip(s), s.len() as int),
{
    if s.len() > 0 && (s[0] == '-' || s[0] == '+') {
        assert(s.drop_first() =~= s.subrange(1, s.len() as int));
    } else {
        assert(s =~= s.subrange(0, s.len() as int));
    }
}

/// A character that is neither digit nor dot rejects the whole text.
proof fn lemma_invalid_char(s: Seq<char>, k: int)
    requires
        sign_skip(s) <= k < s.len(),
        !is_num_char(s[k]),
    ensures
        canon_num(s) is None,
{
    lemma_body_subrange(s);
    assert(num_body(s)[k - sign_skip(s)] == s[k]);
    assert(!all_num_chars(num_body(s)));
}

/// A second dot rejects the whole text.
proof fn lemma_second_dot(s: Seq<char>, i: int, j: int)
    requires
        sign_skip(s) <= i < j < s.len(),
        s[i] == '.',
        s[j] == '.',
    ensures
        canon_num(s) is None,
{
    lemma_body_subrange(s);
    let st = sign_skip(s);
    let body = num_body(s);
    assert(body[i - st] == '.');
    assert(body[j - st] == '.');
    lemma_two_dots(body, i - st, j - st);
    assert(!(dot_count(body) <= 1));
}

/// Text without a digit is rejected.
proof fn lemma_no_digit(s: Seq<char>)
    requires
        forall|k: int| sign_skip(s) <= k < s.len() ==> !is_digit(#[trigger] s[k]),
    ensures
        canon_num(s) is None,
{
    lemma_body_subrange(s);
    let st = sign_skip(s);
    let body = num_body(s);
    assert(forall|k: int| 0 <= k < body.len() ==> body[k] == s[st + k] && !is_digit(
        #[trigger] body[k],
    ));
    assert(!has_digit(body));
}

/// With one dot at `dot` (or none, `dot` at the end), numeric characters
/// throughout and a digit somewhere, the text is valid and its parts are
/// the ranges beside the dot.
proof fn lemma_scan_parts(s: Seq<char>, dot: int)
    requires
        sign_skip(s) <= dot <= s.len(),
        dot < s.len() ==> s[dot] == '.',
        forall|k: int| sign_skip(s) <= k < s.len() && k != dot ==> #[trigger] s[k] != '.',
        forall|k: int| sign_skip(s) <= k < s.len() ==> is_num_char(#[trigger] s[k]),
        exists|k: int| sign_skip(s) <= k < s.len() && is_digit(#[trigger] s[k]),
    ensures
        num_valid(s),
        int_part(num_body(s)) == s.subrange(sign_skip(s), dot),
        frac_part(num_body(s)) == (if dot < s.len() {
            s.subrange(dot + 1, s.len() as int)
        } else {
            Seq::<char>::empty()
        }),
{
    lemma_body_subrange(s);
    let st = sign_skip(s);
    let body = num_body(s);
    let d = dot - st;
    assert(forall|k: int| 0 <= k < body.len() ==> body[k] == s[st + k]);
    assert(forall|k: int| 0 <= k < d ==> #[trigger] body[k] != '.');
    lemma_split_at_dot(body, d);
    assert(int_part(body) =~= s.subrange(st, dot));
    if dot < s.len() {
        assert(body.subrange(d + 1, body.len() as int) =~= s.subrange(dot + 1, s.len() as int));
    }
    assert(all_num_chars(body));
    let kd = choose|k: int| st <= k < s.len() && is_digit(#[trigger] s[k]);
    assert(body[kd - st] == s[kd]);
    assert(has_digit(body));
    if d < body.len() {
        let pre = body.subrange(0, d);
        let post = body.subrange(d + 1, body.len() as int);
        assert(body =~= pre + seq!['.'] + post);
        lemma_dot_count_concat(pre + seq!['.'], post);
        lemma_dot_count_concat(pre, seq!['.']);
        lemma_no_dot_count(pre);
        lemma_dot_count_single();
        assert(forall|k: int| 0 <= k < post.len() ==> #[trigger] post[k] != '.') by {
            assert(forall|k: int| 0 <= k < post.len() ==> post[k] == s[dot + 1 + k]);
        }
        lemma_no_dot_count(post);
    } else {
        assert(body =~= body.subrange(0, d));
        lemma_no_dot_count(body);
    }
}

/// The canonical integer part is the range from the first nonzero digit
/// to the dot, or `0` when that range is empty.
proof fn lemma_canon_int_range(s: Seq<char>, dot: int, z: int)
    requires
        sign_skip(s) <= z <= dot <= s.len(),
        int_part(num_body(s)) == s.subrange(sign_skip(s), dot),
        forall|k: int| sign_skip(s) <= k < z ==> #[trigger] s[k] == '0',
        z < dot ==> s[z] != '0',
    ensures
        canon_int(num_body(s)) == (if z == dot {
            seq!['0']
        } else {
            s.subrange(z, dot)
        }),
{
    let st = sign_skip(s);
    let ip = int_part(num_body(s));
    assert(forall|k: int| 0 <= k < ip.len() ==> ip[k] == s[st + k]);
    lemma_strip_leading(ip, z - st);
    assert(ip.subrange(z - st, ip.len() as int) =~= s.subrange(z, dot));
    if z == dot {
        assert(strip_leading_zeros(ip).len() == 0);
        assert(canon_int(num_body(s)) =~= seq!['0']);
    } else {
        assert(canon_int(num_body(s)) =~= s.subrange(z, dot));
    }
}

/// The canonical fractional part is the range from past the dot to the
/// last nonzero digit.
proof fn lemma_canon_frac_range(s: Seq<char>, dot: int, fend: int)
    requires
        sign_skip(s) <= dot <= s.len(),
        dot < s.len() ==> dot + 1 <= fend <= s.len(),
        dot == s.len() ==> fend == s.len(),
        frac_part(num_body(s)) == (if dot < s.len() {
            s.subrange(dot + 1, s.len() as int)
        } else {
            Seq::<char>::empty()
        }),
        forall|k: int| fend <= k < s.len() ==> #[trigger] s[k] == '0',
        dot < s.len() && fend > dot + 1 ==> s[fend - 1] != '0',
    ensures
        canon_frac(num_body(s)) == (if dot < s.len() {
            s.subrange(dot + 1, fend)
        } else {
            Seq::<char>::empty()
        }),
{
    let fp = frac_part(num_body(s));
    if dot < s.len() {
        assert(forall|k: int| 0 <= k < fp.len() ==> fp[k] == s[dot + 1 + k]);
        lemma_strip_trailing(fp, fend - (dot + 1));
        assert(fp.subrange(0, fend - (dot + 1)) =~= s.subrange(dot + 1, fend));
    } else {
        assert(fp =~= Seq::<char>::empty());
        assert(strip_trailing_zeros(Seq::<char>::empty()) =~= Seq::<char>::empty());
    }
}

/// Reduces `v` to canonical numeric text, or `None` when it is not a
/// number.
#[verifier::rlimit(100)]
pub fn canon_grade_chars(v: &Vec<char>) -> (r: Option<Vec<char>>)
    ensures
        match r {
            Some(t) => canon_num(v@) == Some(t@),
            None => canon_num(v@) is None,
        },
{
    let ghost s = v@;
    // skip the sign
    let start: usize = if v.len() > 0 && (v[0] == '-' || v[0] == '+') {
        1
    } else {
        0
    };
    let neg = v.len() > 0 && v[0] == '-';
    proof {
        assert(start as int == sign_skip(s));
        assert(num_neg(s) == neg);
    }
    let (dot, valid_chars, dup_dot, any_digit) = scan_number(v, start);
    if !valid_chars {
        proof {
            let k = choose|k: int| start <= k < v@.len() && !is_num_char(#[trigger] v@[k]);
            lemma_invalid_char(s, k);
        }
        return None;
    }
    if dup_dot {
        proof {
            let j = choose|k: int| dot < k < v@.len() && #[trigger] v@[k] == '.';
            lemma_second_dot(s, dot as int, j);
        }
        return None;
    }
    if !any_digit {
        proof {
            lemma_no_digit(s);
        }
        return None;
    }
    proof {
        lemma_scan_parts(s, dot as int);
    }
    // strip leading zeros of the integer part v[start..dot]
    let mut z: usize = start;
    while z < dot && v[z] == '0'
        invariant
            start <= z <= dot,
            dot <= v@.len(),
            forall|k: int| start <= k < z ==> #[trigger] v@[k] == '0',
        decreases dot - z,
    {
        z = z + 1;
    }
    proof {
        lemma_canon_int_range(s, dot as int, z as int);
    }
    // find the end of the fractional part, past its trailing zeros
    let mut fend: usize = v.len();
    if dot < v.len() {
        while fend > dot + 1 && v[fend - 1] == '0'
            invariant
                dot + 1 <= fend <= v@.len(),
                forall|k: int| fend <= k < v@.len() ==> #[trigger] v@[k] == '0',
            decreases fend,
        {
            fend = fend - 1;
        }
    }
    proof {
        lemma_canon_frac_range(s, dot as int, fend as int);
    }
    // assemble sign, integer part and fractional part
    let mut out: Vec<char> = Vec::new();
    if neg {
        out.push('-');
    }
    let ghost sign = if neg {
        seq!['-']
    } else {
        Seq::<char>::empty()
    };
    proof {
        assert(out@ =~= sign);
    }
    if z == dot {
        out.push('0');
    } else {
        copy_range(v, z, dot, &mut out);
    }
    proof {
        assert(out@ =~= sign + canon_int(num_body(s)));
    }
    if dot < v.len() && fend > dot + 1 {
        let ghost before = out@;
        out.push('.');
        copy_range(v, dot + 1, fend, &mut out);
        proof {
            assert(before.push('.') =~= before + seq!['.']);
            assert(out@ =~= sign + canon_int(num_body(s)) + (seq!['.'] + canon_frac(num_body(s))));
        }
    } else {
        proof {
            assert(canon_frac(num_body(s)).len() == 0);
            assert(out@ =~= sign + canon_int(num_body(s)) + Seq::<char>::empty());
        }
    }
    Some(out)
}

proof fn lemma_dot_count_zero(s: Seq<char>)
    requires
        dot_count(s) == 0,
    ensures
        forall|i: int| 0 <= i < s.len() ==> #[trigger] s[i] != '.',
    decreases s.len(),
{
    if s.len() > 0 {
        lemma_dot_count_zero(s.drop_first());
        assert forall|i: int| 0 <= i < s.len() implies #[trigger] s[i] != '.' by {
            if i >= 1 {
                assert(s.drop_first()[i - 1] == s[i]);
            }
        }
    }
}

/// The integer part of a numeric body holds digits only.
proof fn lemma_int_part_digits(body: Seq<char>)
    requires
        all_num_chars(body),
    ensures
        forall|i: int|
            0 <= i < int_part(body).len() ==> is_digit(#[trigger] int_part(body)[i]) && int_part(
                body,
            )[i] != '.',
    decreases body.len(),
{
    if body.len() == 0 || body[0] == '.' {
    } else {
        let rest = body.drop_first();
        assert(all_num_chars(rest)) by {
            assert(forall|i: int| 0 <= i < rest.len() ==> rest[i] == #[trigger] body[i + 1]);
        }
        lemma_int_part_digits(rest);
        assert(int_part(body) == seq![body[0]] + int_part(rest));
        assert(forall|i: int|
            1 <= i < int_part(body).len() ==> #[trigger] int_part(body)[i] == int_part(rest)[i
                - 1]);
        assert(is_digit(body[0]));
    }
}

/// The fractional part of a body with one dot at most holds digits only.
proof fn lemma_frac_part_digits(body: Seq<char>)
    requires
        all_num_chars(body),
        dot_count(body) <= 1,
    ensures
        forall|i: int|
            0 <= i < frac_part(body).len() ==> is_digit(#[trigger] frac_part(body)[i]) && frac_part(
                body,
            )[i] != '.',
    decreases body.len(),
{
    if body.len() == 0 {
    } else {
        let rest = body.drop_first();
        assert(forall|i: int| 0 <= i < rest.len() ==> #[trigger] rest[i] == body[i + 1]);
        assert(all_num_chars(rest));
        if body[0] == '.' {
            assert(dot_count(rest) == 0);
            lemma_dot_count_zero(rest);
            assert(frac_part(body) == rest);
            assert forall|i: int|
                0 <= i < frac_part(body).len() implies is_digit(#[trigger] frac_part(body)[i])
                && frac_part(body)[i] != '.' by {
                assert(frac_part(body)[i] == rest[i]);
                assert(is_num_char(rest[i]));
                assert(rest[i] != '.');
            }
        } else {
            lemma_frac_part_digits(rest);
            assert(frac_part(body) == frac_part(rest));
        }
    }
}

/// Stripping leading zeros leaves a suffix that does not begin with zero.
proof fn lemma_strip_leading_props(s: Seq<char>)
    ensures
        strip_leading_zeros(s).len() <= s.len(),
        strip_leading_zeros(s) == s.subrange(
            s.len() - strip_leading_zeros(s).len(),
            s.len() as int,
        ),
        strip_leading_zeros(s).len() > 0 ==> strip_leading_zeros(s)[0] != '0',
    decreases s.len(),
{
    if s.len() > 0 && s[0] == '0' {
        let rest = s.drop_first();
        lemma_strip_leading_props(rest);
        let r = strip_leading_zeros(s);
        assert(rest.subrange(rest.len() - r.len(), rest.len() as int) =~= s.subrange(
            s.len() - r.len(),
            s.len() as int,
        ));
    } else {
        assert(s.subrange(0, s.len() as int) =~= s);
    }
}

/// Stripping trailing zeros leaves a prefix that does not end with zero.
proof fn lemma_strip_trailing_props(s: Seq<char>)
    ensures
        strip_trailing_zeros(s).len() <= s.len(),
        strip_trailing_zeros(s) == s.subrange(0, strip_trailing_zeros(s).len() as int),
        strip_trailing_zeros(s).len() > 0 ==> strip_trailing_zeros(s)[strip_trailing_zeros(
            s,
        ).len() - 1] != '0',
    decreases s.len(),
{
    if s.len() > 0 && s[s.len() - 1] == '0' {
        let rest = s.drop_last();
        lemma_strip_trailing_props(rest);
        let r = strip_trailing_zeros(s);
        assert(rest.subrange(0, r.len() as int) =~= s.subrange(0, r.len() as int));
    } else {
        assert(s.subrange(0, s.len() as int) =~= s);
    }
}

/// Canonical text is a fixed point: running the reduction on its own
/// output gives the output back. This is what keeps a saved grade stable
/// across a save and a reload.
pub proof fn lemma_canon_idempotent(s: Seq<char>)
    requires
        canon_num(s) is Some,
    ensures
        canon_num(canon_num(s)->0) == canon_num(s),
{
    let body = num_body(s);
    let sign = if num_neg(s) {
        seq!['-']
    } else {
        Seq::<char>::empty()
    };
    let ip = canon_int(body);
    let fp = canon_frac(body);
    let tail = if fp.len() > 0 {
        seq!['.'] + fp
    } else {
        Seq::<char>::empty()
    };
    let t = sign + ip + tail;
    assert(canon_num(s)->0 == t);

    // properties of the canonical integer part
    lemma_int_part_digits(body);
    lemma_strip_leading_props(int_part(body));
    let sp = strip_leading_zeros(int_part(body));
    assert(forall|i: int| 0 <= i < sp.len() ==> is_digit(#[trigger] sp[i]) && sp[i] != '.') by {
        let base = int_part(body).len() - sp.len();
        assert(forall|i: int| 0 <= i < sp.len() ==> sp[i] == #[trigger] int_part(body)[base + i]);
    }
    assert(forall|i: int| 0 <= i < ip.len() ==> is_digit(#[trigger] ip[i]) && ip[i] != '.');
    assert(ip.len() > 0);
    assert(ip.len() > 1 ==> ip[0] != '0');

    // properties of the canonical fractional part
    lemma_frac_part_digits(body);
    lemma_strip_trailing_props(frac_part(body));
    assert(forall|i: int| 0 <= i < fp.len() ==> is_digit(#[trigger] fp[i]) && fp[i] != '.') by {
        assert(forall|i: int| 0 <= i < fp.len() ==> fp[i] == #[trigger] frac_part(body)[i]);
    }
    assert(fp.len() > 0 ==> fp[fp.len() - 1] != '0');

    // the output decomposes into the same sign and body
    let body2 = num_body(t);
    assert(t.len() > 0);
    if num_neg(s) {
        assert(t[0] == '-');
        assert(body2 == t.drop_first());
        assert(body2 =~= ip + tail);
    } else {
        assert(is_digit(t[0]));
        assert(t[0] != '-' && t[0] != '+');
        assert(body2 == t);
        assert(body2 =~= ip + tail);
    }
    assert(num_neg(t) == num_neg(s));

    // the body of the output is valid and splits at the same dot
    let d = ip.len() as int;
    assert(forall|k: int| 0 <= k < d ==> #[trigger] body2[k] != '.');
    if fp.len() > 0 {
        assert(body2[d] == '.');
        assert(forall|k: int| d + 1 <= k < body2.len() ==> #[trigger] body2[k] == fp[k - d - 1]);
        assert(forall|k: int| 0 <= k < body2.len() && k != d ==> #[trigger] body2[k] != '.');
    } else {
        assert(body2 =~= ip);
        assert(d == body2.len());
    }
    assert(forall|k: int| 0 <= k < body2.len() ==> is_num_char(#[trigger] body2[k]));
    assert(all_num_chars(body2));
    lemma_split_at_dot(body2, d);
    assert(int_part(body2) =~= ip);
    if fp.len() > 0 {
        assert(frac_part(body2) =~= fp);
    } else {
        assert(frac_part(body2) =~= Seq::<char>::empty());
    }
    if d < body2.len() {
        let pre = body2.subrange(0, d);
        let post = body2.subrange(d + 1, body2.len() as int);
        assert(body2 =~= pre + seq!['.'] + post);
        lemma_dot_count_concat(pre + seq!['.'], post);
        lemma_dot_count_concat(pre, seq!['.']);
        assert(forall|k: int| 0 <= k < pre.len() ==> #[trigger] pre[k] != '.');
        lemma_no_dot_count(pre);
        lemma_dot_count_single();
        assert(forall|k: int| 0 <= k < post.len() ==> #[trigger] post[k] != '.');
        lemma_no_dot_count(post);
    } else {
        assert(body2 =~= body2.subrange(0, d));
        lemma_no_dot_count(body2);
    }
    assert(dot_count(body2) <= 1);
    assert(is_digit(body2[0]));
    assert(has_digit(body2));
    assert(num_valid(t));

    // the reduction leaves both parts unchanged
    if ip.len() == 1 && ip[0] == '0' {
        assert(strip_leading_zeros(ip) =~= Seq::<char>::empty()) by {
            assert(ip.drop_first() =~= Seq::<char>::empty());
            assert(strip_leading_zeros(Seq::<char>::empty()) =~= Seq::<char>::empty());
        }
        assert(canon_int(body2) =~= ip);
    } else {
        if ip[0] == '0' {
            assert(ip.len() > 1);
            assert(false);
        }
        lemma_strip_leading(ip, 0);
        assert(ip.subrange(0, ip.len() as int) =~= ip);
        assert(canon_int(body2) =~= ip);
    }
    lemma_strip_trailing(frac_part(body2), frac_part(body2).len() as int);
    assert(frac_part(body2).subrange(0, frac_part(body2).len() as int) =~= frac_part(body2));
    assert(canon_frac(body2) == frac_part(body2));
    if fp.len() > 0 {
        assert(canon_num(t)->0 =~= t);
    } else {
        assert(canon_num(t)->0 =~= t);
    }
    assert(canon_num(t) == Some(t));
}

/// Reduces string `text` to canonical numeric text, or `None` when it is
/// not a number.
pub fn canon_grade(text: &str) -> (r: Option<String>)
    ensures
        match r {
            Some(t) => canon_num(text@) == Some(t@),
            None => canon_num(text@) is None,
        },
{
    let v = crate::text::string_to_chars(text);
    match canon_grade_chars(&v) {
        Some(t) => Some(crate::text::chars_to_string(&t)),
        None => None,
    }
}

} // verus!
