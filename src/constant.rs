//! Literal constants: booleans, numbers with an optional cast, and strings.
use crate::ast::{ConstantModel, NLType, OpConstant, TypeModel};
use crate::lexer::{
    agrees, ends_within, blank_end, blank_len, char_at, char_is, fail, is_digit, run_end, run_len, CharClass,
    Label, Outcome, Parsed, Source,
};
use crate::types::{read_cast, spec_cast};
use vstd::prelude::*;

verus! {

/// The value of a run of decimal digits.
pub open spec fn digits_value(t: Seq<char>) -> int
    decreases t.len(),
{
    if t.len() == 0 {
        0
    } else {
        digits_value(t.drop_last()) * 10 + (t.last() as int - '0' as int)
    }
}

pub open spec fn all_digits(t: Seq<char>) -> bool {
    forall|i: int| 0 <= i < t.len() ==> is_digit(#[trigger] t[i])
}

/// The `i64` that a decimal text with an optional leading `-` denotes.
pub open spec fn integer_of(t: Seq<char>) -> Option<int> {
    let neg = t.len() > 0 && t[0] == '-';
    let digits = if neg { t.drop_first() } else { t };
    let v = if neg { -digits_value(digits) } else { digits_value(digits) };
    if digits.len() > 0 && all_digits(digits) && i64::MIN <= v <= i64::MAX {
        Option::Some(v)
    } else {
        Option::None
    }
}

/// The number of occurrences of `c` in `t`.
pub open spec fn count_char(t: Seq<char>, c: char) -> nat
    decreases t.len(),
{
    if t.len() == 0 {
        0
    } else {
        count_char(t.drop_last(), c) + if t.last() == c { 1nat } else { 0nat }
    }
}

/// Whether a text of digits, `.` and `-` is a decimal floating-point number:
/// an optional leading `-`, one `.`, and at least one digit.
pub open spec fn is_float_text(t: Seq<char>) -> bool {
    if t.len() > 0 && t[0] == '-' {
        is_unsigned_float_text(t.drop_first())
    } else {
        is_unsigned_float_text(t)
    }
}

/// Digits and exactly one `.`, with at least one digit.
pub open spec fn is_unsigned_float_text(u: Seq<char>) -> bool {
    &&& u.len() >= 2
    &&& count_char(u, '.') == 1
    &&& forall|i: int| 0 <= i < u.len() ==> (is_digit(#[trigger] u[i]) || u[i] == '.')
}

proof fn lemma_digits_monotone(t: Seq<char>, k: int)
    requires
        0 <= k <= t.len(),
        all_digits(t),
    ensures
        0 <= digits_value(t.subrange(0, k)) <= digits_value(t),
    decreases t.len() - k,
{
    if k < t.len() {
        lemma_digits_monotone(t, k + 1);
        assert(t.subrange(0, k + 1).drop_last() =~= t.subrange(0, k));
    } else {
        assert(t.subrange(0, k) =~= t);
    }
    lemma_digits_nonneg(t.subrange(0, k));
}

proof fn lemma_digits_nonneg(t: Seq<char>)
    requires
        all_digits(t),
    ensures
        digits_value(t) >= 0,
    decreases t.len(),
{
    if t.len() > 0 {
        assert(is_digit(t[t.len() - 1]));
        lemma_digits_nonneg(t.drop_last());
    }
}

/// Reads the integer written in `[p, e)`.
pub fn parse_integer(src: &Source, lim: usize, p: usize, e: usize) -> (r: Option<i64>)
    requires
        src.wf(),
        p <= e <= lim <= src.chars@.len(),
    ensures
        match integer_of(src.window(lim as int).subrange(p as int, e as int)) {
            Option::Some(v) => r == Option::Some(v as i64),
            Option::None => r is None,
        },
{
    let ghost s = src.window(lim as int);
    let ghost t = s.subrange(p as int, e as int);
    let neg = p < e && src.chars[p] == '-';
    let start = if neg { p + 1 } else { p };
    let ghost digits = if neg { t.drop_first() } else { t };
    assert(p < e ==> t[0] == src.chars@[p as int]);
    assert(neg == (t.len() > 0 && t[0] == '-'));
    assert(digits =~= s.subrange(start as int, e as int));
    if start == e {
        return None;
    }
    let mut acc: i64 = 0;
    let mut i = start;
    while i < e
        invariant
            src.wf(),
            start <= i <= e <= lim <= src.chars@.len(),
            s == src.window(lim as int),
            digits == s.subrange(start as int, e as int),
            t == s.subrange(p as int, e as int),
            digits == (if neg { t.drop_first() } else { t }),
            neg == (t.len() > 0 && t[0] == '-'),
            start > p ==> neg,
            all_digits(s.subrange(start as int, i as int)),
            neg ==> acc == -digits_value(s.subrange(start as int, i as int)),
            !neg ==> acc == digits_value(s.subrange(start as int, i as int)),
        decreases e - i,
    {
        let c = src.chars[i];
        if !('0' <= c && c <= '9') {
            assert(digits[i - start] == c);
            assert(!all_digits(digits));
            return None;
        }
        let d = (c as u32 - '0' as u32) as i64;
        let ghost prefix = s.subrange(start as int, i as int);
        let ghost next = s.subrange(start as int, i + 1);
        assert(next.drop_last() =~= prefix);
        assert(all_digits(next));
        let stepped = match acc.checked_mul(10) {
            Some(m) => if neg {
                m.checked_sub(d)
            } else {
                m.checked_add(d)
            },
            None => None,
        };
        match stepped {
            Some(v) => {
                acc = v;
            },
            None => {
                proof {
                    assert(next.last() == c);
                    assert(digits_value(next) == digits_value(prefix) * 10 + d);
                    lemma_overflow_stays(s, start as int, i as int, e as int);
                    lemma_digits_nonneg(prefix);
                    if neg {
                        assert(-digits_value(next) < i64::MIN);
                    } else {
                        assert(digits_value(next) > i64::MAX);
                    }
                    if all_digits(digits) {
                        assert(digits_value(next) <= digits_value(digits));
                    }
                }
                return None;
            },
        }
        i = i + 1;
    }
    assert(s.subrange(start as int, e as int) =~= digits);
    Some(acc)
}

/// Once a prefix of the digits is too large, the whole run is.
proof fn lemma_overflow_stays(s: Seq<char>, start: int, i: int, e: int)
    requires
        0 <= start <= i < e <= s.len(),
    ensures
        all_digits(s.subrange(start, e)) ==> digits_value(s.subrange(start, i + 1)) <= digits_value(
            s.subrange(start, e),
        ),
{
    if all_digits(s.subrange(start, e)) {
        lemma_digits_monotone(s.subrange(start, e), i + 1 - start);
        assert(s.subrange(start, e).subrange(0, i + 1 - start) =~= s.subrange(start, i + 1));
    }
}

/// Whether the characters in `[p, e)` form a floating-point number.
fn is_float_at(src: &Source, lim: usize, p: usize, e: usize) -> (r: bool)
    requires
        src.wf(),
        p <= e <= lim <= src.chars@.len(),
    ensures
        r == is_float_text(src.window(lim as int).subrange(p as int, e as int)),
{
    let ghost s = src.window(lim as int);
    let ghost t = s.subrange(p as int, e as int);
    let neg = p < e && src.chars[p] == '-';
    let start = if neg { p + 1 } else { p };
    let ghost u = if neg { t.drop_first() } else { t };
    assert(p < e ==> t[0] == src.chars@[p as int]);
    assert(u =~= s.subrange(start as int, e as int));
    let mut dots: usize = 0;
    let mut ok = true;
    let mut i = start;
    while i < e
        invariant
            p <= start <= i <= e <= lim <= src.chars@.len(),
            s == src.window(lim as int),
            u == s.subrange(start as int, e as int),
            t == s.subrange(p as int, e as int),
            u == (if t.len() > 0 && t[0] == '-' { t.drop_first() } else { t }),
            dots == count_char(s.subrange(start as int, i as int), '.'),
            dots <= i - start,
            ok == forall|j: int| start <= j < i ==> (is_digit(#[trigger] s[j]) || s[j] == '.'),
        decreases e - i,
    {
        let c = src.chars[i];
        assert(s[i as int] == c);
        assert(s.subrange(start as int, i + 1).drop_last() =~= s.subrange(start as int, i as int));
        if c == '.' {
            dots = dots + 1;
        } else if !('0' <= c && c <= '9') {
            ok = false;
        }
        i = i + 1;
    }
    assert(s.subrange(start as int, e as int) =~= u);
    assert(forall|j: int| 0 <= j < u.len() ==> u[j] == s[start + j]);
    assert(ok == forall|j: int| 0 <= j < u.len() ==> (is_digit(#[trigger] u[j]) || u[j] == '.'))
        by {
        if !ok {
            let j0 = choose|j: int| start <= j < e && !(is_digit(#[trigger] s[j]) || s[j] == '.');
            assert(u[j0 - start] == s[j0]);
        }
    }
    e - start >= 2 && dots == 1 && ok
}

/// `true` or `false`, read as a run of letters with no blank before it.
pub open spec fn spec_boolean_constant(s: Seq<char>, p: int) -> Outcome<ConstantModel> {
    let n = run_len(s, p, CharClass::Letter);
    let tok = s.subrange(p, p + n);
    if n > 0 && tok == "true"@ {
        Outcome::Ok((ConstantModel::Boolean(true), n))
    } else if n > 0 && tok == "false"@ {
        Outcome::Ok((ConstantModel::Boolean(false), n))
    } else {
        Outcome::Err(false)
    }
}

pub fn read_boolean_constant<'a>(src: &Source<'a>, lim: usize, p: usize) -> (r: Parsed<OpConstant<'a>>)
    requires
        src.wf(),
        p <= lim <= src.chars@.len(),
    ensures
        agrees(r, p as int, spec_boolean_constant(src.window(lim as int), p as int)),
        ends_within(r, lim as int),
{
    let e = run_end(src, lim, p, CharClass::Letter);
    if e > p && crate::types::token_is(src, lim, p, e, "true") {
        Ok((OpConstant::Boolean(true), e))
    } else if e > p && crate::types::token_is(src, lim, p, e, "false") {
        Ok((OpConstant::Boolean(false), e))
    } else {
        Err(fail(false, p, Label::Context("boolean must be true or false")))
    }
}

/// A run of digits, `.` and `-`, then blank and an optional cast.  With a
/// `.` it is a floating-point number, else an `i64`.
pub open spec fn spec_numerical_constant(s: Seq<char>, p: int) -> Outcome<ConstantModel> {
    let n = run_len(s, p, CharClass::Number);
    let text = s.subrange(p, p + n);
    let q = p + n + blank_len(s, p + n);
    let cast = spec_cast(s, q);
    if n == 0 {
        Outcome::Err(false)
    } else if cast == Outcome::<TypeModel>::Err(true) {
        Outcome::Err(true)
    } else {
        let (ty, end) = match cast {
            Outcome::Ok((t, m)) => (t, q + m),
            Outcome::Err(_) => (TypeModel::NoType, q),
        };
        if !text.contains('.') {
            match integer_of(text) {
                Option::Some(v) => Outcome::Ok((ConstantModel::Integer(v, ty), (end - p) as nat)),
                Option::None => Outcome::Err(false),
            }
        } else if is_float_text(text) {
            Outcome::Ok((ConstantModel::Float(text, ty), (end - p) as nat))
        } else {
            Outcome::Err(false)
        }
    }
}

fn contains_dot(src: &Source, lim: usize, p: usize, e: usize) -> (r: bool)
    requires
        src.wf(),
        p <= e <= lim <= src.chars@.len(),
    ensures
        r == src.window(lim as int).subrange(p as int, e as int).contains('.'),
{
    let ghost t = src.window(lim as int).subrange(p as int, e as int);
    let mut i = p;
    while i < e
        invariant
            p <= i <= e <= lim <= src.chars@.len(),
            t == src.window(lim as int).subrange(p as int, e as int),
            forall|j: int| 0 <= j < i - p ==> t[j] != '.',
        decreases e - i,
    {
        if src.chars[i] == '.' {
            assert(t[i - p] == '.');
            return true;
        }
        i = i + 1;
    }
    false
}

pub fn read_numerical_constant<'a>(src: &Source<'a>, lim: usize, p: usize) -> (r: Parsed<OpConstant<'a>>)
    requires
        src.wf(),
        p <= lim <= src.chars@.len(),
    ensures
        agrees(r, p as int, spec_numerical_constant(src.window(lim as int), p as int)),
        ends_within(r, lim as int),
{
    let ghost s = src.window(lim as int);
    let e = run_end(src, lim, p, CharClass::Number);
    if e == p {
        return Err(fail(false, p, Label::Context("number")));
    }
    let q = blank_end(src, lim, e);
    let (ty, end) = match read_cast(src, lim, q) {
        Ok((t, m)) => (t, m),
        Err(f) => {
            if f.fatal {
                return Err(f);
            }
            (NLType::NoType, q)
        },
    };
    if !contains_dot(src, lim, p, e) {
        match parse_integer(src, lim, p, e) {
            Some(v) => Ok((OpConstant::Integer(v, ty), end)),
            None => Err(fail(false, p, Label::Context("parse constant integer"))),
        }
    } else if is_float_at(src, lim, p, e) {
        assert(src.chars@.subrange(p as int, e as int) =~= s.subrange(p as int, e as int));
        Ok((OpConstant::Float(src.slice(p, e), ty), end))
    } else {
        Err(fail(false, p, Label::Context("parse constant float")))
    }
}

/// The length of a string literal's contents from `i`: up to the first
/// double quote that no backslash escapes, or to the end.
pub open spec fn string_body_len(s: Seq<char>, i: int) -> nat
    decreases s.len() - i,
{
    if 0 <= i < s.len() && s[i] != '"' {
        if s[i] == '\\' && i + 1 < s.len() {
            2 + string_body_len(s, i + 2)
        } else {
            1 + string_body_len(s, i + 1)
        }
    } else {
        0
    }
}

/// Blank, then text between two double quotes, kept as written; a quote
/// after a backslash does not end it.
pub open spec fn spec_string_constant(s: Seq<char>, p: int) -> Outcome<ConstantModel> {
    let q = p + blank_len(s, p);
    let n = string_body_len(s, q + 1);
    if char_at(s, q, '"') && char_at(s, q + 1 + n, '"') {
        Outcome::Ok((ConstantModel::Text(s.subrange(q + 1, q + 1 + n)), (q + 2 + n - p) as nat))
    } else {
        Outcome::Err(false)
    }
}

fn string_body_end(src: &Source, lim: usize, i: usize) -> (e: usize)
    requires
        src.wf(),
        i <= lim <= src.chars@.len(),
    ensures
        e == i + string_body_len(src.window(lim as int), i as int),
        e <= lim,
{
    let ghost s = src.window(lim as int);
    let mut j = i;
    while j < lim && src.chars[j] != '"'
        invariant
            i <= j <= lim <= src.chars@.len(),
            s == src.window(lim as int),
            string_body_len(s, i as int) == (j - i) + string_body_len(s, j as int),
        decreases lim - j,
    {
        if src.chars[j] == '\\' && j + 1 < lim {
            j = j + 2;
        } else {
            j = j + 1;
        }
    }
    j
}

pub fn read_string_constant<'a>(src: &Source<'a>, lim: usize, p: usize) -> (r: Parsed<OpConstant<'a>>)
    requires
        src.wf(),
        p <= lim <= src.chars@.len(),
    ensures
        agrees(r, p as int, spec_string_constant(src.window(lim as int), p as int)),
        ends_within(r, lim as int),
{
    let ghost s = src.window(lim as int);
    let q = blank_end(src, lim, p);
    if !char_is(src, lim, q, '"') {
        return Err(fail(false, q, Label::Char('"')));
    }
    let e = string_body_end(src, lim, q + 1);
    if !char_is(src, lim, e, '"') {
        return Err(fail(false, e, Label::Char('"')));
    }
    assert(src.chars@.subrange(q + 1, e as int) =~= s.subrange(q + 1, e as int));
    Ok((OpConstant::String(src.slice(q + 1, e)), e + 1))
}

/// An outcome read after `k` characters of blank.
pub open spec fn after_blank<V>(o: Outcome<V>, k: nat) -> Outcome<V> {
    match o {
        Outcome::Ok((v, n)) => Outcome::Ok((v, k + n)),
        Outcome::Err(f) => Outcome::Err(f),
    }
}

/// Blank, then a boolean, a number or a string, tried in that order.
pub open spec fn spec_constant(s: Seq<char>, p: int) -> Outcome<ConstantModel> {
    let k = blank_len(s, p);
    match after_blank(spec_boolean_constant(s, p + k), k) {
        Outcome::Err(false) => match after_blank(spec_numerical_constant(s, p + k), k) {
            Outcome::Err(false) => spec_string_constant(s, p),
            other => other,
        },
        other => other,
    }
}

pub fn read_constant<'a>(src: &Source<'a>, lim: usize, p: usize) -> (r: Parsed<OpConstant<'a>>)
    requires
        src.wf(),
        p <= lim <= src.chars@.len(),
    ensures
        agrees(r, p as int, spec_constant(src.window(lim as int), p as int)),
        ends_within(r, lim as int),
{
    let q = blank_end(src, lim, p);
    match read_boolean_constant(src, lim, q) {
        Err(f) if !f.fatal => match read_numerical_constant(src, lim, q) {
            Err(g) if !g.fatal => read_string_constant(src, lim, p),
            other => other,
        },
        other => other,
    }
}

} // verus!
