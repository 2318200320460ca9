//! Lexical primitives: the source buffer, failures, character classes,
//! blank regions (whitespace and comments), keywords and symbol runs.
//!
//! Every parser reads a window `[0, lim)` of the buffer and starts at a
//! position `p`; its contract relates it to a spec function over the
//! window's characters, which returns the model of what was read and the
//! number of characters consumed, or whether the failure was fatal.
use vstd::prelude::*;

verus! {

/// The text being parsed, with its characters laid out for indexing.
pub struct Source<'a> {
    pub text: &'a str,
    pub chars: Vec<char>,
}

impl<'a> Source<'a> {
    pub open spec fn wf(&self) -> bool {
        self.chars@ == self.text@
    }

    /// The characters a parser limited to `lim` sees.
    pub open spec fn window(&self, lim: int) -> Seq<char> {
        self.chars@.subrange(0, lim)
    }

    pub fn new(text: &'a str) -> (r: Source<'a>)
        ensures
            r.wf(),
            r.text == text,
    {
        let mut chars: Vec<char> = Vec::new();
        for c in it: text.chars()
            invariant
                it.seq() == text@,
                chars@ == it.seq().subrange(0, it.index() as int),
        {
            chars.push(c);
            assert(chars@ =~= it.seq().subrange(0, it.index() + 1));
        }
        assert(chars@ =~= text@);
        Source { text, chars }
    }

    /// The text between two character positions, borrowed from the buffer.
    pub fn slice(&self, from: usize, to: usize) -> (r: &'a str)
        requires
            self.wf(),
            from <= to <= self.chars@.len(),
        ensures
            r@ == self.chars@.subrange(from as int, to as int),
    {
        self.text.substring_char(from, to)
    }
}

/// What a failure frame says was expected.
#[derive(PartialEq, Eq, Debug, Clone, Copy)]
pub enum Label {
    Char(char),
    Context(&'static str),
}

/// One frame of a failure: where, and what was expected there.
#[derive(PartialEq, Eq, Debug, Clone, Copy)]
pub struct Frame {
    pub pos: usize,
    pub label: Label,
}

/// A parse failure.  A fatal one stops every enclosing alternation.
#[derive(Debug)]
pub struct Failure {
    pub fatal: bool,
    pub frames: Vec<Frame>,
}

/// The outcome of a parser in the model: what was read and how many
/// characters it took, or whether the failure was fatal.
pub type Outcome<V> = Result<(V, nat), bool>;

/// The outcome of an executable parser: the value and the end position.
pub type Parsed<T> = Result<(T, usize), Failure>;

/// An executable outcome started at `p` agrees with a model outcome, through
/// the model function `f`.
pub open spec fn agrees_by<T, V>(r: Parsed<T>, p: int, m: Outcome<V>, f: spec_fn(T) -> V) -> bool {
    match r {
        Ok((v, e)) => e >= p && m == Outcome::<V>::Ok((f(v), (e - p) as nat)),
        Err(fl) => m == Outcome::<V>::Err(fl.fatal) && fl.frames@.len() > 0,
    }
}

/// An executable outcome agrees with a model outcome through the view.
pub open spec fn agrees<T: View>(r: Parsed<T>, p: int, m: Outcome<T::V>) -> bool {
    agrees_by(r, p, m, |t: T| t@)
}

/// Whether an executable outcome ends within the window.
pub open spec fn ends_within<T>(r: Parsed<T>, lim: int) -> bool {
    r matches Ok((_, e)) ==> e <= lim
}

pub fn fail(fatal: bool, pos: usize, label: Label) -> (r: Failure)
    ensures
        r.fatal == fatal,
        r.frames@.len() == 1,
{
    let mut frames: Vec<Frame> = Vec::new();
    frames.push(Frame { pos, label });
    Failure { fatal, frames }
}

/// Adds a frame naming the construct that was being read.
pub fn within_context(f: Failure, pos: usize, what: &'static str) -> (r: Failure)
    ensures
        r.fatal == f.fatal,
        r.frames@.len() == f.frames@.len() + 1,
{
    let mut frames = f.frames;
    frames.push(Frame { pos, label: Label::Context(what) });
    Failure { fatal: f.fatal, frames }
}

/// The classes of characters that runs are made of.
#[derive(PartialEq, Eq, Structural, Debug, Clone, Copy)]
pub enum CharClass {
    Space,
    Letter,
    AlphaNumeric,
    NameStart,
    NameRest,
    Number,
    OperatorSymbol,
    Except(char),
}

pub open spec fn is_letter(c: char) -> bool {
    ('a' <= c && c <= 'z') || ('A' <= c && c <= 'Z')
}

pub open spec fn is_digit(c: char) -> bool {
    '0' <= c && c <= '9'
}

pub open spec fn in_class(k: CharClass, c: char) -> bool {
    match k {
        CharClass::Space => c == ' ' || c == '\t' || c == '\r' || c == '\n',
        CharClass::Letter => is_letter(c),
        CharClass::AlphaNumeric => is_letter(c) || is_digit(c),
        CharClass::NameStart => is_letter(c) || c == '_',
        CharClass::NameRest => is_letter(c) || is_digit(c) || c == '_',
        CharClass::Number => is_digit(c) || c == '.' || c == '-',
        CharClass::OperatorSymbol => c == '=' || c == '!' || c == '~' || c == '|' || c == '&'
            || c == '^' || c == '%' || c == '+' || c == '-' || c == '*' || c == '/' || c == '<'
            || c == '>',
        CharClass::Except(x) => c != x,
    }
}

pub fn class_has(k: CharClass, c: char) -> (r: bool)
    ensures
        r == in_class(k, c),
{
    match k {
        CharClass::Space => c == ' ' || c == '\t' || c == '\r' || c == '\n',
        CharClass::Letter => ('a' <= c && c <= 'z') || ('A' <= c && c <= 'Z'),
        CharClass::AlphaNumeric => ('a' <= c && c <= 'z') || ('A' <= c && c <= 'Z') || ('0' <= c
            && c <= '9'),
        CharClass::NameStart => ('a' <= c && c <= 'z') || ('A' <= c && c <= 'Z') || c == '_',
        CharClass::NameRest => ('a' <= c && c <= 'z') || ('A' <= c && c <= 'Z') || ('0' <= c && c
            <= '9') || c == '_',
        CharClass::Number => ('0' <= c && c <= '9') || c == '.' || c == '-',
        CharClass::OperatorSymbol => c == '=' || c == '!' || c == '~' || c == '|' || c == '&' || c
            == '^' || c == '%' || c == '+' || c == '-' || c == '*' || c == '/' || c == '<' || c
            == '>',
        CharClass::Except(x) => c != x,
    }
}

/// The length of the longest run of class `k` that starts at `p`.
#[verifier::opaque]
pub open spec fn run_len(s: Seq<char>, p: int, k: CharClass) -> nat
    decreases s.len() - p,
{
    if 0 <= p < s.len() && in_class(k, s[p]) {
        1 + run_len(s, p + 1, k)
    } else {
        0
    }
}

pub proof fn lemma_run_len_bound(s: Seq<char>, p: int, k: CharClass)
    requires
        0 <= p <= s.len(),
    ensures
        p + run_len(s, p, k) <= s.len(),
        forall|i: int| p <= i < p + run_len(s, p, k) ==> in_class(k, #[trigger] s[i]),
    decreases s.len() - p,
{
    reveal(run_len);
    if p < s.len() && in_class(k, s[p]) {
        lemma_run_len_bound(s, p + 1, k);
    }
}

/// The end of the run of class `k` that starts at `p`.
pub fn run_end(src: &Source, lim: usize, p: usize, k: CharClass) -> (e: usize)
    requires
        src.wf(),
        p <= lim <= src.chars@.len(),
    ensures
        e == p + run_len(src.window(lim as int), p as int, k),
        e <= lim,
{
    proof {
        reveal(run_len);
    }
    let ghost s = src.window(lim as int);
    let mut i = p;
    while i < lim && class_has(k, src.chars[i])
        invariant
            p <= i <= lim <= src.chars@.len(),
            s == src.window(lim as int),
            run_len(s, p as int, k) == (i - p) + run_len(s, i as int, k),
        decreases lim - i,
    {
        proof {
            reveal(run_len);
        }
        i = i + 1;
    }
    i
}

/// Whether `t` stands at `p`.
pub open spec fn starts_with(s: Seq<char>, p: int, t: Seq<char>) -> bool {
    0 <= p && p + t.len() <= s.len() && s.subrange(p, p + t.len()) == t
}

pub fn tag_at(src: &Source, lim: usize, p: usize, t: &str) -> (r: bool)
    requires
        src.wf(),
        p <= lim <= src.chars@.len(),
    ensures
        r == starts_with(src.window(lim as int), p as int, t@),
{
    let ghost s = src.window(lim as int);
    let n = t.unicode_len();
    if n > lim - p {
        return false;
    }
    let mut i: usize = 0;
    while i < n
        invariant
            n == t@.len(),
            p + n <= lim <= src.chars@.len(),
            s == src.window(lim as int),
            i <= n,
            forall|j: int| 0 <= j < i ==> s[p + j] == t@[j],
        decreases n - i,
    {
        if src.chars[p + i] != t.get_char(i) {
            assert(s.subrange(p as int, p + n)[i as int] != t@[i as int]);
            return false;
        }
        i = i + 1;
    }
    assert(s.subrange(p as int, p + n) =~= t@);
    true
}

/// Whether the keyword `kw` stands at `p` as a whole word: no letter,
/// digit or underscore follows it.
pub open spec fn keyword_at(s: Seq<char>, p: int, kw: Seq<char>) -> bool {
    starts_with(s, p, kw) && !(p + kw.len() < s.len() && in_class(CharClass::NameRest, s[p + kw.len()]))
}

pub fn keyword_is(src: &Source, lim: usize, p: usize, kw: &str) -> (r: bool)
    requires
        src.wf(),
        p <= lim <= src.chars@.len(),
    ensures
        r == keyword_at(src.window(lim as int), p as int, kw@),
{
    if !tag_at(src, lim, p, kw) {
        return false;
    }
    let e = p + kw.unicode_len();
    !(e < lim && class_has(CharClass::NameRest, src.chars[e]))
}

/// Whether the character at `p` is `c`.
pub open spec fn char_at(s: Seq<char>, p: int, c: char) -> bool {
    0 <= p < s.len() && s[p] == c
}

pub fn char_is(src: &Source, lim: usize, p: usize, c: char) -> (r: bool)
    requires
        src.wf(),
        lim <= src.chars@.len(),
    ensures
        r == char_at(src.window(lim as int), p as int, c),
{
    p < lim && src.chars[p] == c
}

/// The offset from `p` of the first place where `t` stands, if any.
#[verifier::opaque]
pub open spec fn find(s: Seq<char>, p: int, t: Seq<char>) -> Option<nat>
    decreases s.len() - p,
{
    if starts_with(s, p, t) {
        Option::Some(0)
    } else if 0 <= p < s.len() {
        match find(s, p + 1, t) {
            Option::Some(n) => Option::Some(n + 1),
            Option::None => Option::None,
        }
    } else {
        Option::None
    }
}

pub proof fn lemma_find(s: Seq<char>, p: int, t: Seq<char>)
    ensures
        find(s, p, t) matches Option::Some(n) ==> starts_with(s, p + n, t),
    decreases s.len() - p,
{
    reveal(find);
    if !starts_with(s, p, t) && 0 <= p < s.len() {
        lemma_find(s, p + 1, t);
    }
}

pub fn find_from(src: &Source, lim: usize, p: usize, t: &str) -> (r: Option<usize>)
    requires
        src.wf(),
        p <= lim <= src.chars@.len(),
    ensures
        match find(src.window(lim as int), p as int, t@) {
            Option::Some(n) => r == Option::Some((p + n) as usize) && p + n <= lim,
            Option::None => r is None,
        },
{
    proof {
        reveal(find);
    }
    let ghost s = src.window(lim as int);
    let mut i = p;
    while i <= lim
        invariant
            p <= i <= lim + 1,
            lim <= src.chars@.len(),
            src.wf(),
            s == src.window(lim as int),
            i <= lim ==> find(s, p as int, t@) == match find(s, i as int, t@) {
                Option::Some(n) => Option::Some((n + (i - p)) as nat),
                Option::None => Option::None,
            },
            i > lim ==> find(s, p as int, t@) is None,
        decreases lim + 1 - i,
    {
        proof {
            reveal(find);
        }
        if tag_at(src, lim, i, t) {
            return Some(i);
        }
        if i == lim {
            return None;
        }
        i = i + 1;
    }
    None
}

/// The length of the comment that starts at `p`: `//` up to and including
/// the end of the line, or `/*` up to and including the first `*/`.
#[verifier::opaque]
pub open spec fn comment_len(s: Seq<char>, p: int) -> Option<nat> {
    if starts_with(s, p, "//"@) {
        let n = run_len(s, p + 2, CharClass::Except('\n'));
        if p + 2 + n < s.len() {
            Option::Some(n + 3)
        } else {
            Option::None
        }
    } else if starts_with(s, p, "/*"@) {
        match find(s, p + 2, "*/"@) {
            Option::Some(n) => Option::Some(n + 4),
            Option::None => Option::None,
        }
    } else {
        Option::None
    }
}

/// The length of the blank region at `p`: whitespace, then any number of
/// comments each followed by whitespace.
#[verifier::opaque]
pub open spec fn blank_len(s: Seq<char>, p: int) -> nat
    decreases s.len() - p,
{
    proof {
        reveal(comment_len);
    }
    let q = p + run_len(s, p, CharClass::Space);
    match comment_len(s, q) {
        Option::Some(n) => if q + n <= s.len() {
            (q - p + n + blank_len(s, q + n)) as nat
        } else {
            (q - p) as nat
        },
        Option::None => (q - p) as nat,
    }
}

pub fn comment_end(src: &Source, lim: usize, p: usize) -> (r: Option<usize>)
    requires
        src.wf(),
        p <= lim <= src.chars@.len(),
    ensures
        match comment_len(src.window(lim as int), p as int) {
            Option::Some(n) => r == Option::Some((p + n) as usize) && p + n <= lim,
            Option::None => r is None,
        },
{
    proof {
        reveal(comment_len);
    }
    let ghost s = src.window(lim as int);
    proof {
        reveal_strlit("//");
        reveal_strlit("/*");
        reveal_strlit("*/");
    }
    if tag_at(src, lim, p, "//") {
        let e = run_end(src, lim, p + 2, CharClass::Except('\n'));
        if e < lim {
            Some(e + 1)
        } else {
            None
        }
    } else if tag_at(src, lim, p, "/*") {
        match find_from(src, lim, p + 2, "*/") {
            Some(e) => {
                proof {
                    lemma_find(s, p + 2, "*/"@);
                }
                Some(e + 2)
            },
            None => None,
        }
    } else {
        None
    }
}

pub proof fn lemma_blank_bound(s: Seq<char>, p: int)
    requires
        0 <= p <= s.len(),
    ensures
        p + blank_len(s, p) <= s.len(),
    decreases s.len() - p,
{
    reveal(blank_len);
    reveal(comment_len);
    lemma_run_len_bound(s, p, CharClass::Space);
    let q = p + run_len(s, p, CharClass::Space);
    if let Option::Some(n) = comment_len(s, q) {
        if q + n <= s.len() {
            lemma_blank_bound(s, q + n);
        }
    }
}

/// The end of the blank region at `p`.
pub fn blank_end(src: &Source, lim: usize, p: usize) -> (e: usize)
    requires
        src.wf(),
        p <= lim <= src.chars@.len(),
    ensures
        e == p + blank_len(src.window(lim as int), p as int),
        e <= lim,
{
    proof {
        reveal(blank_len);
        reveal(comment_len);
    }
    let ghost s = src.window(lim as int);
    let mut i = p;
    loop
        invariant
            src.wf(),
            p <= i <= lim <= src.chars@.len(),
            s == src.window(lim as int),
            blank_len(s, p as int) == (i - p) + blank_len(s, i as int),
        decreases lim - i,
    {
        proof {
            reveal(blank_len);
            reveal(comment_len);
        }
        let q = run_end(src, lim, i, CharClass::Space);
        match comment_end(src, lim, q) {
            Some(e) => {
                if e <= lim {
                    i = e;
                } else {
                    return q;
                }
            },
            None => {
                return q;
            },
        }
    }
}

/// The length of a variable or method name at `p`: a letter or underscore,
/// then letters, digits and underscores.
pub open spec fn name_len(s: Seq<char>, p: int) -> nat {
    if 0 <= p < s.len() && in_class(CharClass::NameStart, s[p]) {
        1 + run_len(s, p + 1, CharClass::NameRest)
    } else {
        0
    }
}

/// A variable name, with no blank around it.
pub open spec fn spec_variable_name(s: Seq<char>, p: int) -> Outcome<Seq<char>> {
    let n = name_len(s, p);
    if n > 0 {
        Outcome::Ok((s.subrange(p, p + n), n))
    } else {
        Outcome::Err(false)
    }
}

pub proof fn lemma_name_bound(s: Seq<char>, p: int)
    requires
        0 <= p <= s.len(),
    ensures
        p + name_len(s, p) <= s.len(),
{
    if p < s.len() {
        lemma_run_len_bound(s, p + 1, CharClass::NameRest);
    }
}

pub fn read_variable_name<'a>(src: &Source<'a>, lim: usize, p: usize) -> (r: Parsed<&'a str>)
    requires
        src.wf(),
        p <= lim <= src.chars@.len(),
    ensures
        agrees(r, p as int, spec_variable_name(src.window(lim as int), p as int)),
        ends_within(r, lim as int),
{
    let ghost s = src.window(lim as int);
    if p < lim && class_has(CharClass::NameStart, src.chars[p]) {
        let e = run_end(src, lim, p + 1, CharClass::NameRest);
        assert(src.chars@.subrange(p as int, e as int) =~= s.subrange(p as int, e as int));
        Ok((src.slice(p, e), e))
    } else {
        Err(fail(false, p, Label::Context("variable name")))
    }
}

/// A method name, with blank on both sides.
pub open spec fn spec_method_name(s: Seq<char>, p: int) -> Outcome<Seq<char>> {
    let q = p + blank_len(s, p);
    let n = name_len(s, q);
    if n > 0 {
        Outcome::Ok((s.subrange(q, q + n), (q + n + blank_len(s, q + n) - p) as nat))
    } else {
        Outcome::Err(false)
    }
}

pub fn read_method_name<'a>(src: &Source<'a>, lim: usize, p: usize) -> (r: Parsed<&'a str>)
    requires
        src.wf(),
        p <= lim <= src.chars@.len(),
    ensures
        agrees(r, p as int, spec_method_name(src.window(lim as int), p as int)),
        ends_within(r, lim as int),
{
    let ghost s = src.window(lim as int);
    let q = blank_end(src, lim, p);
    match read_variable_name(src, lim, q) {
        Ok((name, e)) => {
            proof {
                lemma_name_bound(s, q as int);
            }
            let e2 = blank_end(src, lim, e);
            Ok((name, e2))
        },
        Err(f) => Err(f),
    }
}

/// A struct or trait name (letters and underscores), with blank on both sides.
pub open spec fn spec_struct_or_trait_name(s: Seq<char>, p: int) -> Outcome<Seq<char>> {
    let q = p + blank_len(s, p);
    let n = run_len(s, q, CharClass::NameStart);
    if n > 0 {
        Outcome::Ok((s.subrange(q, q + n), (q + n + blank_len(s, q + n) - p) as nat))
    } else {
        Outcome::Err(false)
    }
}

pub fn read_struct_or_trait_name<'a>(src: &Source<'a>, lim: usize, p: usize) -> (r: Parsed<&'a str>)
    requires
        src.wf(),
        p <= lim <= src.chars@.len(),
    ensures
        agrees(r, p as int, spec_struct_or_trait_name(src.window(lim as int), p as int)),
        ends_within(r, lim as int),
{
    let ghost s = src.window(lim as int);
    let q = blank_end(src, lim, p);
    let e = run_end(src, lim, q, CharClass::NameStart);
    if e > q {
        assert(src.chars@.subrange(q as int, e as int) =~= s.subrange(q as int, e as int));
        let name = src.slice(q, e);
        let e2 = blank_end(src, lim, e);
        Ok((name, e2))
    } else {
        Err(fail(false, q, Label::Context("struct or trait name")))
    }
}

/// A run of operator symbol characters, with no blank around it.
pub open spec fn spec_operator_symbol(s: Seq<char>, p: int) -> Outcome<Seq<char>> {
    let n = run_len(s, p, CharClass::OperatorSymbol);
    if n > 0 {
        Outcome::Ok((s.subrange(p, p + n), n))
    } else {
        Outcome::Err(false)
    }
}

pub fn take_operator_symbol<'a>(src: &Source<'a>, lim: usize, p: usize) -> (r: Parsed<&'a str>)
    requires
        src.wf(),
        p <= lim <= src.chars@.len(),
    ensures
        agrees(r, p as int, spec_operator_symbol(src.window(lim as int), p as int)),
        ends_within(r, lim as int),
{
    let ghost s = src.window(lim as int);
    let e = run_end(src, lim, p, CharClass::OperatorSymbol);
    if e > p {
        assert(src.chars@.subrange(p as int, e as int) =~= s.subrange(p as int, e as int));
        Ok((src.slice(p, e), e))
    } else {
        Err(fail(false, p, Label::Context("operator")))
    }
}

} // verus!
