//! Expressions.  The full operation parser tries, in order: code block,
//! tuple, assignment, binary operator, constant, unary operator.  Operands
//! of operators are read by the sub-operation parser, which is the same
//! without the binary alternative, so `a + b + c` needs parentheses.
use crate::ast::{
    binary_model, operations_view, unary_model, variable_names, BinaryKind, NLBlock, NLOperation,
    NLType, OpAssignment, OpOperator, OpVariable, OperationModel, TypeModel, UnaryKind,
};
use crate::constant::{read_constant, spec_constant};
use crate::lexer::{
    agrees, agrees_by, ends_within, blank_end, blank_len, char_at, char_is, fail, read_variable_name, run_end,
    run_len, spec_operator_symbol, spec_variable_name, starts_with, tag_at, keyword_at, keyword_is, take_operator_symbol,
    CharClass, Label, Outcome, Parsed, Source,
};
use crate::types::{read_variable_type, spec_variable_type, token_is};
use vstd::prelude::*;

verus! {

/// Puts `xs`, read in `k` characters, in front of a list outcome.
pub open spec fn prepend<V>(xs: Seq<V>, k: nat, o: Outcome<Seq<V>>) -> Outcome<Seq<V>> {
    match o {
        Outcome::Ok((vs, m)) => Outcome::Ok((xs + vs, k + m)),
        Outcome::Err(f) => Outcome::Err(f),
    }
}

pub proof fn lemma_prepend_empty<V>(xs: Seq<V>, k: nat)
    ensures
        prepend(xs, k, Outcome::Ok((Seq::<V>::empty(), 0))) == Outcome::<Seq<V>>::Ok((xs, k)),
{
    assert(xs + Seq::<V>::empty() =~= xs);
}

pub proof fn lemma_prepend_push<V>(xs: Seq<V>, k: nat, v: V, n: nat, o: Outcome<Seq<V>>)
    ensures
        prepend(xs, k, prepend(seq![v], n, o)) == prepend(xs.push(v), k + n, o),
{
    if let Outcome::Ok((vs, m)) = o {
        assert(xs + (seq![v] + vs) =~= xs.push(v) + vs);
    }
}

/// A failure that lets an enclosing alternation try its next branch.
pub open spec fn is_soft<V>(o: Outcome<V>) -> bool {
    o == Outcome::<V>::Err(false)
}

fn soft<T>(r: &Parsed<T>) -> (b: bool)
    ensures
        b == (r is Err && !r->Err_0.fatal),
{
    match r {
        Ok(_) => false,
        Err(f) => !f.fatal,
    }
}

/// The binary operator a symbol run names.
pub open spec fn binary_kind(sym: Seq<char>) -> Option<BinaryKind> {
    if sym == "=="@ {
        Option::Some(BinaryKind::CompareEqual)
    } else if sym == "!="@ {
        Option::Some(BinaryKind::CompareNotEqual)
    } else if sym == ">="@ {
        Option::Some(BinaryKind::CompareGreaterEqual)
    } else if sym == "<="@ {
        Option::Some(BinaryKind::CompareLessEqual)
    } else if sym == ">"@ {
        Option::Some(BinaryKind::CompareGreater)
    } else if sym == "<"@ {
        Option::Some(BinaryKind::CompareLess)
    } else if sym == "&&"@ {
        Option::Some(BinaryKind::LogicalAnd)
    } else if sym == "||"@ {
        Option::Some(BinaryKind::LogicalOr)
    } else if sym == "^^"@ {
        Option::Some(BinaryKind::LogicalXor)
    } else if sym == "&"@ {
        Option::Some(BinaryKind::BitAnd)
    } else if sym == "|"@ {
        Option::Some(BinaryKind::BitOr)
    } else if sym == "^"@ {
        Option::Some(BinaryKind::BitXor)
    } else if sym == "<<"@ {
        Option::Some(BinaryKind::BitLeftShift)
    } else if sym == ">>"@ {
        Option::Some(BinaryKind::BitRightShift)
    } else if sym == "+"@ {
        Option::Some(BinaryKind::ArithmeticAdd)
    } else if sym == "-"@ {
        Option::Some(BinaryKind::ArithmeticSub)
    } else if sym == "%"@ {
        Option::Some(BinaryKind::ArithmeticMod)
    } else if sym == "/"@ {
        Option::Some(BinaryKind::ArithmeticDiv)
    } else if sym == "*"@ {
        Option::Some(BinaryKind::ArithmeticMul)
    } else {
        Option::None
    }
}

fn binary_kind_at(src: &Source, lim: usize, q: usize, e: usize) -> (r: Option<BinaryKind>)
    requires
        src.wf(),
        q <= e <= lim <= src.chars@.len(),
    ensures
        r == binary_kind(src.window(lim as int).subrange(q as int, e as int)),
{
    if token_is(src, lim, q, e, "==") {
        Some(BinaryKind::CompareEqual)
    } else if token_is(src, lim, q, e, "!=") {
        Some(BinaryKind::CompareNotEqual)
    } else if token_is(src, lim, q, e, ">=") {
        Some(BinaryKind::CompareGreaterEqual)
    } else if token_is(src, lim, q, e, "<=") {
        Some(BinaryKind::CompareLessEqual)
    } else if token_is(src, lim, q, e, ">") {
        Some(BinaryKind::CompareGreater)
    } else if token_is(src, lim, q, e, "<") {
        Some(BinaryKind::CompareLess)
    } else if token_is(src, lim, q, e, "&&") {
        Some(BinaryKind::LogicalAnd)
    } else if token_is(src, lim, q, e, "||") {
        Some(BinaryKind::LogicalOr)
    } else if token_is(src, lim, q, e, "^^") {
        Some(BinaryKind::LogicalXor)
    } else if token_is(src, lim, q, e, "&") {
        Some(BinaryKind::BitAnd)
    } else if token_is(src, lim, q, e, "|") {
        Some(BinaryKind::BitOr)
    } else if token_is(src, lim, q, e, "^") {
        Some(BinaryKind::BitXor)
    } else if token_is(src, lim, q, e, "<<") {
        Some(BinaryKind::BitLeftShift)
    } else if token_is(src, lim, q, e, ">>") {
        Some(BinaryKind::BitRightShift)
    } else if token_is(src, lim, q, e, "+") {
        Some(BinaryKind::ArithmeticAdd)
    } else if token_is(src, lim, q, e, "-") {
        Some(BinaryKind::ArithmeticSub)
    } else if token_is(src, lim, q, e, "%") {
        Some(BinaryKind::ArithmeticMod)
    } else if token_is(src, lim, q, e, "/") {
        Some(BinaryKind::ArithmeticDiv)
    } else if token_is(src, lim, q, e, "*") {
        Some(BinaryKind::ArithmeticMul)
    } else {
        None
    }
}

/// The unary operator a symbol run names.
pub open spec fn unary_kind(sym: Seq<char>) -> Option<UnaryKind> {
    if sym == "!"@ {
        Option::Some(UnaryKind::LogicalNegate)
    } else if sym == "~"@ {
        Option::Some(UnaryKind::BitNegate)
    } else if sym == "-"@ {
        Option::Some(UnaryKind::ArithmeticNegate)
    } else {
        Option::None
    }
}

fn unary_kind_at(src: &Source, lim: usize, q: usize, e: usize) -> (r: Option<UnaryKind>)
    requires
        src.wf(),
        q <= e <= lim <= src.chars@.len(),
    ensures
        r == unary_kind(src.window(lim as int).subrange(q as int, e as int)),
{
    if token_is(src, lim, q, e, "!") {
        Some(UnaryKind::LogicalNegate)
    } else if token_is(src, lim, q, e, "~") {
        Some(UnaryKind::BitNegate)
    } else if token_is(src, lim, q, e, "-") {
        Some(UnaryKind::ArithmeticNegate)
    } else {
        None
    }
}

fn make_binary<'a>(k: BinaryKind, a: NLOperation<'a>, b: NLOperation<'a>) -> (r: NLOperation<'a>)
    ensures
        r@ == binary_model(k, a@, b@),
{
    proof {
        reveal(crate::ast::operation_model);
    }
    let a = Box::new(a);
    let b = Box::new(b);
    NLOperation::Operator(
        match k {
            BinaryKind::CompareEqual => OpOperator::CompareEqual(a, b),
            BinaryKind::CompareNotEqual => OpOperator::CompareNotEqual(a, b),
            BinaryKind::CompareGreater => OpOperator::CompareGreater(a, b),
            BinaryKind::CompareLess => OpOperator::CompareLess(a, b),
            BinaryKind::CompareGreaterEqual => OpOperator::CompareGreaterEqual(a, b),
            BinaryKind::CompareLessEqual => OpOperator::CompareLessEqual(a, b),
            BinaryKind::LogicalAnd => OpOperator::LogicalAnd(a, b),
            BinaryKind::LogicalOr => OpOperator::LogicalOr(a, b),
            BinaryKind::LogicalXor => OpOperator::LogicalXor(a, b),
            BinaryKind::BitAnd => OpOperator::BitAnd(a, b),
            BinaryKind::BitOr => OpOperator::BitOr(a, b),
            BinaryKind::BitXor => OpOperator::BitXor(a, b),
            BinaryKind::BitLeftShift => OpOperator::BitLeftShift(a, b),
            BinaryKind::BitRightShift => OpOperator::BitRightShift(a, b),
            BinaryKind::ArithmeticMod => OpOperator::ArithmeticMod(a, b),
            BinaryKind::ArithmeticAdd => OpOperator::ArithmeticAdd(a, b),
            BinaryKind::ArithmeticSub => OpOperator::ArithmeticSub(a, b),
            BinaryKind::ArithmeticMul => OpOperator::ArithmeticMul(a, b),
            BinaryKind::ArithmeticDiv => OpOperator::ArithmeticDiv(a, b),
        },
    )
}

fn make_unary<'a>(k: UnaryKind, a: NLOperation<'a>) -> (r: NLOperation<'a>)
    ensures
        r@ == unary_model(k, a@),
{
    proof {
        reveal(crate::ast::operation_model);
    }
    let a = Box::new(a);
    NLOperation::Operator(
        match k {
            UnaryKind::LogicalNegate => OpOperator::LogicalNegate(a),
            UnaryKind::ArithmeticNegate => OpOperator::ArithmeticNegate(a),
            UnaryKind::BitNegate => OpOperator::BitNegate(a),
            UnaryKind::PropError => OpOperator::PropError(a),
        },
    )
}

/// Variable names each followed by blank, `,` and blank.  What the names
/// read took, and the names; a name without a comma after it is left.
pub open spec fn spec_separated_names(t: Seq<char>, p: int) -> (Seq<Seq<char>>, nat)
    decreases t.len() - p,
{
    match spec_variable_name(t, p) {
        Outcome::Ok((v, n)) => {
            let q = p + n + blank_len(t, p + n);
            if char_at(t, q, ',') {
                let q3 = q + 1 + blank_len(t, q + 1);
                if q3 <= t.len() {
                    let (vs, m) = spec_separated_names(t, q3);
                    (seq![v] + vs, (q3 - p + m) as nat)
                } else {
                    (Seq::empty(), 0)
                }
            } else {
                (Seq::empty(), 0)
            }
        },
        Outcome::Err(_) => (Seq::empty(), 0),
    }
}

/// The names of a destructuring list: separated names, then an optional
/// last name.  What follows inside the parentheses is not looked at.
pub open spec fn spec_name_list(t: Seq<char>, p: int) -> Option<Seq<Seq<char>>> {
    let (vs, m) = spec_separated_names(t, p);
    let (all, e) = match spec_variable_name(t, p + m) {
        Outcome::Ok((v, k)) => (vs.push(v), p + m + k),
        Outcome::Err(_) => (vs, p + m),
    };
    if e + blank_len(t, e) == t.len() {
        Option::Some(all)
    } else {
        Option::None
    }
}

/// `(a, b, ...)`: the region up to the first `)` holds the names and
/// nothing else but blank.
pub open spec fn spec_tuple_of_variable_names(s: Seq<char>, p: int) -> Outcome<Seq<Seq<char>>> {
    let n = run_len(s, p + 1, CharClass::Except(')'));
    let r = p + 1 + n;
    if char_at(s, p, '(') && char_at(s, r, ')') {
        match spec_name_list(s.subrange(0, r), p + 1) {
            Option::Some(names) => Outcome::Ok((names, (r + 1 - p) as nat)),
            Option::None => Outcome::Err(false),
        }
    } else {
        Outcome::Err(false)
    }
}

/// The names on the left of an assignment: a list, or a single name.
pub open spec fn spec_assigned_names(s: Seq<char>, p: int) -> Outcome<Seq<Seq<char>>> {
    match spec_tuple_of_variable_names(s, p) {
        Outcome::Err(false) => match spec_variable_name(s, p) {
            Outcome::Ok((v, n)) => Outcome::Ok((seq![v], n)),
            Outcome::Err(f) => Outcome::Err(f),
        },
        other => other,
    }
}

fn read_separated_names<'a>(src: &Source<'a>, lim: usize, p: usize) -> (r: (Vec<OpVariable<'a>>, usize))
    requires
        src.wf(),
        p <= lim <= src.chars@.len(),
    ensures
        spec_separated_names(src.window(lim as int), p as int) == (variable_names(r.0@), (r.1 - p) as nat),
        p <= r.1 <= lim,
{
    let ghost t = src.window(lim as int);
    let mut acc: Vec<OpVariable<'a>> = Vec::new();
    let mut i = p;
    loop
        invariant
            src.wf(),
            p <= i <= lim <= src.chars@.len(),
            t == src.window(lim as int),
            spec_separated_names(t, p as int) == ({
                let (vs, m) = spec_separated_names(t, i as int);
                (variable_names(acc@) + vs, ((i - p) + m) as nat)
            }),
        decreases lim - i,
    {
        let ghost old_acc = acc@;
        assert(variable_names(acc@) + Seq::<Seq<char>>::empty() =~= variable_names(acc@));
        match read_variable_name(src, lim, i) {
            Ok((v, e)) => {
                proof {
                    crate::lexer::lemma_name_bound(t, i as int);
                }
                let q = blank_end(src, lim, e);
                if !char_is(src, lim, q, ',') {
                    return (acc, i);
                }
                let q3 = blank_end(src, lim, q + 1);
                acc.push(OpVariable { name: v });
                proof {
                    let (vs, m) = spec_separated_names(t, q3 as int);
                    assert(variable_names(acc@) =~= variable_names(old_acc).push(v@));
                    assert(variable_names(old_acc) + (seq![v@] + vs) =~= variable_names(acc@) + vs);
                }
                i = q3;
            },
            Err(_) => {
                return (acc, i);
            },
        }
    }
}

fn read_tuple_of_variable_names<'a>(src: &Source<'a>, lim: usize, p: usize) -> (r: Parsed<Vec<OpVariable<'a>>>)
    requires
        src.wf(),
        p <= lim <= src.chars@.len(),
    ensures
        agrees_by(r, p as int, spec_tuple_of_variable_names(src.window(lim as int), p as int),
            |v: Vec<OpVariable<'a>>| variable_names(v@)),
        ends_within(r, lim as int),
{
    let ghost s = src.window(lim as int);
    if !char_is(src, lim, p, '(') {
        return Err(fail(false, p, Label::Char('(')));
    }
    let r = run_end(src, lim, p + 1, CharClass::Except(')'));
    if !char_is(src, lim, r, ')') {
        return Err(fail(false, r, Label::Char(')')));
    }
    assert(src.window(r as int) =~= s.subrange(0, r as int));
    let (mut names, m) = read_separated_names(src, r, p + 1);
    let e = match read_variable_name(src, r, m) {
        Ok((v, k)) => {
            let ghost before = variable_names(names@);
            names.push(OpVariable { name: v });
            assert(variable_names(names@) =~= before.push(v@));
            k
        },
        Err(_) => m,
    };
    let end = blank_end(src, r, e);
    if end != r {
        return Err(fail(false, end, Label::Char(')')));
    }
    Ok((names, r + 1))
}

fn read_assigned_names<'a>(src: &Source<'a>, lim: usize, p: usize) -> (r: Parsed<Vec<OpVariable<'a>>>)
    requires
        src.wf(),
        p <= lim <= src.chars@.len(),
    ensures
        agrees_by(r, p as int, spec_assigned_names(src.window(lim as int), p as int),
            |v: Vec<OpVariable<'a>>| variable_names(v@)),
        ends_within(r, lim as int),
{
    let ghost s = src.window(lim as int);
    let r = read_tuple_of_variable_names(src, lim, p);
    if !soft(&r) {
        return r;
    }
    match read_variable_name(src, lim, p) {
        Ok((v, e)) => {
            proof {
                crate::lexer::lemma_name_bound(s, p as int);
            }
            let mut names: Vec<OpVariable<'a>> = Vec::new();
            names.push(OpVariable { name: v });
            assert(variable_names(names@) =~= seq![v@]);
            Ok((names, e))
        },
        Err(f) => Err(f),
    }
}

/// The model outcome of a constant read as an operation.
pub open spec fn constant_operation(o: Outcome<crate::ast::ConstantModel>) -> Outcome<OperationModel> {
    match o {
        Outcome::Ok((c, n)) => Outcome::Ok((OperationModel::Constant(c), n)),
        Outcome::Err(f) => Outcome::Err(f),
    }
}

/// A full operation: the first alternative that does not fail softly.
pub open spec fn spec_operation(s: Seq<char>, p: int) -> Outcome<OperationModel>
    decreases s.len() - p, 5nat,
{
    match spec_code_block(s, p) {
        Outcome::Err(false) => match spec_tuple(s, p) {
            Outcome::Err(false) => match spec_assignment(s, p) {
                Outcome::Err(false) => match spec_binary(s, p) {
                    Outcome::Err(false) => match constant_operation(spec_constant(s, p)) {
                        Outcome::Err(false) => spec_unary(s, p),
                        other => other,
                    },
                    other => other,
                },
                other => other,
            },
            other => other,
        },
        other => other,
    }
}

/// An operand: an operation that is not itself a binary operator.
pub open spec fn spec_sub_operation(s: Seq<char>, p: int) -> Outcome<OperationModel>
    decreases s.len() - p, 3nat,
{
    match spec_code_block(s, p) {
        Outcome::Err(false) => match spec_tuple(s, p) {
            Outcome::Err(false) => match spec_assignment(s, p) {
                Outcome::Err(false) => match constant_operation(spec_constant(s, p)) {
                    Outcome::Err(false) => spec_unary(s, p),
                    other => other,
                },
                other => other,
            },
            other => other,
        },
        other => other,
    }
}

/// Zero or more operations, one after another.
pub open spec fn spec_operations(s: Seq<char>, p: int) -> Outcome<Seq<OperationModel>>
    decreases s.len() - p, 6nat,
{
    match spec_operation(s, p) {
        Outcome::Ok((v, n)) => if n > 0 && p + n <= s.len() {
            prepend(seq![v], n, spec_operations(s, p + n))
        } else {
            Outcome::Err(false)
        },
        Outcome::Err(true) => Outcome::Err(true),
        Outcome::Err(false) => Outcome::Ok((Seq::empty(), 0)),
    }
}

/// `{ operations }`.
pub open spec fn spec_code_block(s: Seq<char>, p: int) -> Outcome<OperationModel>
    decreases s.len() - p, 2nat,
{
    let q = p + blank_len(s, p);
    if char_at(s, q, '{') && 0 <= p {
        match spec_operations(s, q + 1) {
            Outcome::Ok((ops, n)) => {
                let q2 = q + 1 + n;
                let q3 = q2 + blank_len(s, q2);
                if char_at(s, q3, '}') {
                    Outcome::Ok((OperationModel::Block(ops), (q3 + 1 - p) as nat))
                } else {
                    Outcome::Err(false)
                }
            },
            Outcome::Err(f) => Outcome::Err(f),
        }
    } else {
        Outcome::Err(false)
    }
}

/// Operations each followed by blank, `,` and blank.
pub open spec fn spec_separated_operations(t: Seq<char>, p: int) -> Outcome<Seq<OperationModel>>
    decreases t.len() - p, 6nat,
{
    match spec_operation(t, p) {
        Outcome::Ok((v, n)) => {
            let q = p + n + blank_len(t, p + n);
            if char_at(t, q, ',') {
                let q3 = q + 1 + blank_len(t, q + 1);
                if q3 <= t.len() {
                    prepend(seq![v], (q3 - p) as nat, spec_separated_operations(t, q3))
                } else {
                    Outcome::Err(false)
                }
            } else {
                Outcome::Ok((Seq::empty(), 0))
            }
        },
        Outcome::Err(true) => Outcome::Err(true),
        Outcome::Err(false) => Outcome::Ok((Seq::empty(), 0)),
    }
}

/// The items of a tuple: separated operations, then an optional last one.
pub open spec fn spec_tuple_items(t: Seq<char>, p: int) -> Outcome<Seq<OperationModel>>
    decreases t.len() - p, 7nat,
{
    match spec_separated_operations(t, p) {
        Outcome::Ok((vs, m)) => if p + m <= t.len() {
            match spec_operation(t, p + m) {
                Outcome::Ok((v, k)) => if p + m + k + blank_len(t, p + m + k) == t.len() {
                    Outcome::Ok((vs.push(v), m))
                } else {
                    Outcome::Err(false)
                },
                Outcome::Err(true) => Outcome::Err(true),
                Outcome::Err(false) => if p + m + blank_len(t, p + m) == t.len() {
                    Outcome::Ok((vs, m))
                } else {
                    Outcome::Err(false)
                },
            }
        } else {
            Outcome::Err(false)
        },
        Outcome::Err(f) => Outcome::Err(f),
    }
}

/// The offset from `i` of the `)` that closes a group, when `d` groups
/// opened since are still open.
pub open spec fn close_len(s: Seq<char>, i: int, d: nat) -> Option<nat>
    decreases s.len() - i,
{
    if 0 <= i < s.len() {
        let rest = if s[i] == ')' {
            if d == 0 {
                Option::Some(0nat)
            } else {
                close_len(s, i + 1, (d - 1) as nat)
            }
        } else if s[i] == '(' {
            close_len(s, i + 1, d + 1)
        } else {
            close_len(s, i + 1, d)
        };
        if s[i] == ')' && d == 0 {
            Option::Some(0nat)
        } else {
            match rest {
                Option::Some(n) => Option::Some(n + 1),
                Option::None => Option::None,
            }
        }
    } else {
        Option::None
    }
}

fn close_end(src: &Source, lim: usize, i: usize) -> (r: Option<usize>)
    requires
        src.wf(),
        i <= lim <= src.chars@.len(),
    ensures
        match close_len(src.window(lim as int), i as int, 0) {
            Option::Some(n) => r == Option::Some((i + n) as usize) && i + n < lim,
            Option::None => r is None,
        },
{
    let ghost s = src.window(lim as int);
    let mut j = i;
    let mut d: usize = 0;
    while j < lim
        invariant
            i <= j <= lim <= src.chars@.len(),
            d <= j - i,
            s == src.window(lim as int),
            close_len(s, i as int, 0) == match close_len(s, j as int, d as nat) {
                Option::Some(n) => Option::Some((n + (j - i)) as nat),
                Option::None => Option::None,
            },
        decreases lim - j,
    {
        let c = src.chars[j];
        if c == ')' {
            if d == 0 {
                return Some(j);
            }
            d = d - 1;
        } else if c == '(' {
            d = d + 1;
        }
        j = j + 1;
    }
    None
}

/// `( items )`: the region up to the `)` that balances the opening one
/// holds the items.
pub open spec fn spec_tuple(s: Seq<char>, p: int) -> Outcome<OperationModel>
    decreases s.len() - p, 2nat,
{
    let q = p + blank_len(s, p);
    let r = match close_len(s, q + 1, 0) {
        Option::Some(n) => q + 1 + n,
        Option::None => s.len() as int,
    };
    if char_at(s, q, '(') && char_at(s, r, ')') && 0 <= p {
        match spec_tuple_items(s.subrange(0, r), q + 1) {
            Outcome::Ok((items, _)) => Outcome::Ok((OperationModel::Tuple(items), (r + 1 - p) as nat)),
            Outcome::Err(f) => Outcome::Err(f),
        }
    } else {
        Outcome::Err(false)
    }
}

/// `[let] names [: type] = operation`.
pub open spec fn spec_assignment(s: Seq<char>, p: int) -> Outcome<OperationModel>
    decreases s.len() - p, 2nat,
{
    let q = p + blank_len(s, p);
    let is_new = keyword_at(s, q, "let"@);
    let q1 = if is_new { q + 3 } else { q };
    let q2 = q1 + blank_len(s, q1);
    match spec_assigned_names(s, q2) {
        Outcome::Ok((names, n)) => {
            let q3 = q2 + n + blank_len(s, q2 + n);
            let typed = if char_at(s, q3, ':') {
                match spec_variable_type(s, q3 + 1) {
                    Outcome::Ok((t, m)) => Outcome::Ok((t, (q3 + 1 + m - q3) as nat)),
                    Outcome::Err(f) => Outcome::Err(f),
                }
            } else {
                Outcome::Ok((TypeModel::NoType, 0))
            };
            match typed {
                Outcome::Ok((ty, m)) => {
                    let q4 = q3 + m;
                    let q5 = q4 + blank_len(s, q4);
                    if char_at(s, q5, '=') && 0 <= p {
                        let q6 = q5 + 1 + blank_len(s, q5 + 1);
                        let q7 = q6 + blank_len(s, q6);
                        if q7 <= s.len() {
                            match spec_operation(s, q7) {
                                Outcome::Ok((v, k)) => Outcome::Ok(
                                    (
                                        OperationModel::Assign {
                                            is_new,
                                            names,
                                            ty,
                                            value: Box::new(v),
                                        },
                                        (q7 + k - p) as nat,
                                    ),
                                ),
                                Outcome::Err(f) => Outcome::Err(f),
                            }
                        } else {
                            Outcome::Err(false)
                        }
                    } else {
                        Outcome::Err(false)
                    }
                },
                Outcome::Err(f) => Outcome::Err(f),
            }
        },
        Outcome::Err(f) => Outcome::Err(f),
    }
}

/// `operand symbol operand`; an unknown symbol is a fatal failure.
pub open spec fn spec_binary(s: Seq<char>, p: int) -> Outcome<OperationModel>
    decreases s.len() - p, 4nat,
{
    let q = p + blank_len(s, p);
    if 0 <= p && q <= s.len() {
        match spec_sub_operation(s, q) {
            Outcome::Ok((a, na)) => {
                let q2 = q + na + blank_len(s, q + na);
                match spec_operator_symbol(s, q2) {
                    Outcome::Ok((sym, ns)) => {
                        let q3 = q2 + ns + blank_len(s, q2 + ns);
                        if q3 <= s.len() && q3 > p {
                            match spec_sub_operation(s, q3) {
                                Outcome::Ok((b, nb)) => match binary_kind(sym) {
                                    Option::Some(k) => Outcome::Ok(
                                        (binary_model(k, a, b), (q3 + nb - p) as nat),
                                    ),
                                    Option::None => Outcome::Err(true),
                                },
                                Outcome::Err(f) => Outcome::Err(f),
                            }
                        } else {
                            Outcome::Err(false)
                        }
                    },
                    Outcome::Err(f) => Outcome::Err(f),
                }
            },
            Outcome::Err(f) => Outcome::Err(f),
        }
    } else {
        Outcome::Err(false)
    }
}

/// `symbol operand`; an unknown symbol is a fatal failure.
pub open spec fn spec_unary(s: Seq<char>, p: int) -> Outcome<OperationModel>
    decreases s.len() - p, 2nat,
{
    let q = p + blank_len(s, p);
    match spec_operator_symbol(s, q) {
        Outcome::Ok((sym, ns)) => {
            let q2 = q + ns + blank_len(s, q + ns);
            if q2 <= s.len() && q2 > p {
                match spec_sub_operation(s, q2) {
                    Outcome::Ok((a, na)) => match unary_kind(sym) {
                        Option::Some(k) => Outcome::Ok((unary_model(k, a), (q2 + na - p) as nat)),
                        Option::None => Outcome::Err(true),
                    },
                    Outcome::Err(f) => Outcome::Err(f),
                }
            } else {
                Outcome::Err(false)
            }
        },
        Outcome::Err(f) => Outcome::Err(f),
    }
}

pub fn read_operation<'a>(src: &Source<'a>, lim: usize, p: usize) -> (r: Parsed<NLOperation<'a>>)
    requires
        src.wf(),
        p <= lim <= src.chars@.len(),
    ensures
        agrees(r, p as int, spec_operation(src.window(lim as int), p as int)),
        ends_within(r, lim as int),
    decreases lim - p, 5nat,
{
    let r = read_code_block(src, lim, p);
    if !soft(&r) {
        return r;
    }
    let r = read_tuple(src, lim, p);
    if !soft(&r) {
        return r;
    }
    let r = read_assignment(src, lim, p);
    if !soft(&r) {
        return r;
    }
    let r = read_binary_operator(src, lim, p);
    if !soft(&r) {
        return r;
    }
    match read_constant(src, lim, p) {
        Ok((c, e)) => {
            return Ok((constant_operation_of(c), e));
        },
        Err(f) => {
            if f.fatal {
                return Err(f);
            }
        },
    }
    read_unary_operator(src, lim, p)
}

pub fn read_sub_operation<'a>(src: &Source<'a>, lim: usize, p: usize) -> (r: Parsed<NLOperation<'a>>)
    requires
        src.wf(),
        p <= lim <= src.chars@.len(),
    ensures
        agrees(r, p as int, spec_sub_operation(src.window(lim as int), p as int)),
        ends_within(r, lim as int),
    decreases lim - p, 3nat,
{
    let r = read_code_block(src, lim, p);
    if !soft(&r) {
        return r;
    }
    let r = read_tuple(src, lim, p);
    if !soft(&r) {
        return r;
    }
    let r = read_assignment(src, lim, p);
    if !soft(&r) {
        return r;
    }
    match read_constant(src, lim, p) {
        Ok((c, e)) => {
            return Ok((constant_operation_of(c), e));
        },
        Err(f) => {
            if f.fatal {
                return Err(f);
            }
        },
    }
    read_unary_operator(src, lim, p)
}

pub fn read_operations<'a>(src: &Source<'a>, lim: usize, p: usize) -> (r: Parsed<Vec<NLOperation<'a>>>)
    requires
        src.wf(),
        p <= lim <= src.chars@.len(),
    ensures
        agrees_by(r, p as int, spec_operations(src.window(lim as int), p as int),
            |v: Vec<NLOperation<'a>>| operations_view(v@)),
        ends_within(r, lim as int),
    decreases lim - p, 6nat,
{
    let ghost s = src.window(lim as int);
    let mut acc: Vec<NLOperation<'a>> = Vec::new();
    let mut i = p;
    loop
        invariant
            src.wf(),
            p <= i <= lim <= src.chars@.len(),
            s == src.window(lim as int),
            spec_operations(s, p as int) == prepend(operations_view(acc@), (i - p) as nat,
                spec_operations(s, i as int)),
        decreases lim - i,
    {
        proof {
            lemma_prepend_empty(operations_view(acc@), (i - p) as nat);
        }
        match read_operation(src, lim, i) {
            Ok((v, e)) => {
                if e == i {
                    return Err(fail(false, i, Label::Context("operation that reads nothing")));
                }
                proof {
                    lemma_prepend_push(operations_view(acc@), (i - p) as nat, v@, (e - i) as nat,
                        spec_operations(s, e as int));
                }
                let ghost before = operations_view(acc@);
                acc.push(v);
                assert(operations_view(acc@) =~= before.push(acc@[acc@.len() - 1]@));
                i = e;
            },
            Err(f) => {
                if f.fatal {
                    return Err(f);
                }
                return Ok((acc, i));
            },
        }
    }
}

fn constant_operation_of<'a>(c: crate::ast::OpConstant<'a>) -> (r: NLOperation<'a>)
    ensures
        r@ == OperationModel::Constant(c@),
{
    proof {
        reveal(crate::ast::operation_model);
    }
    NLOperation::Constant(c)
}

fn assign_operation<'a>(is_new: bool, names: Vec<OpVariable<'a>>, ty: NLType<'a>, v: NLOperation<'a>) -> (r: NLOperation<'a>)
    ensures
        r@ == (OperationModel::Assign {
            is_new,
            names: variable_names(names@),
            ty: ty@,
            value: Box::new(v@),
        }),
{
    proof {
        reveal(crate::ast::operation_model);
    }
    NLOperation::Assign(OpAssignment { is_new, to_assign: names, type_assignment: ty, assignment: Box::new(v) })
}

fn block_operation<'a>(ops: Vec<NLOperation<'a>>) -> (r: NLOperation<'a>)
    ensures
        r@ == OperationModel::Block(operations_view(ops@)),
{
    proof {
        reveal(crate::ast::operation_model);
    }
    let r = NLOperation::Block(NLBlock { operations: ops });
    assert(r@->Block_0 =~= operations_view(ops@));
    r
}

fn tuple_operation<'a>(items: Vec<NLOperation<'a>>) -> (r: NLOperation<'a>)
    ensures
        r@ == OperationModel::Tuple(operations_view(items@)),
{
    proof {
        reveal(crate::ast::operation_model);
    }
    let r = NLOperation::Tuple(items);
    assert(r@->Tuple_0 =~= operations_view(items@));
    r
}

pub fn read_code_block<'a>(src: &Source<'a>, lim: usize, p: usize) -> (r: Parsed<NLOperation<'a>>)
    requires
        src.wf(),
        p <= lim <= src.chars@.len(),
    ensures
        agrees(r, p as int, spec_code_block(src.window(lim as int), p as int)),
        ends_within(r, lim as int),
    decreases lim - p, 2nat,
{
    let q = blank_end(src, lim, p);
    if !char_is(src, lim, q, '{') {
        return Err(fail(false, q, Label::Char('{')));
    }
    match read_operations(src, lim, q + 1) {
        Ok((ops, e)) => {
            let q3 = blank_end(src, lim, e);
            if !char_is(src, lim, q3, '}') {
                return Err(fail(false, q3, Label::Char('}')));
            }
            Ok((block_operation(ops), q3 + 1))
        },
        Err(f) => Err(f),
    }
}

fn read_separated_operations<'a>(src: &Source<'a>, lim: usize, p: usize) -> (r: Parsed<Vec<NLOperation<'a>>>)
    requires
        src.wf(),
        p <= lim <= src.chars@.len(),
    ensures
        agrees_by(r, p as int, spec_separated_operations(src.window(lim as int), p as int),
            |v: Vec<NLOperation<'a>>| operations_view(v@)),
        ends_within(r, lim as int),
    decreases lim - p, 6nat,
{
    let ghost s = src.window(lim as int);
    let mut acc: Vec<NLOperation<'a>> = Vec::new();
    let mut i = p;
    loop
        invariant
            src.wf(),
            p <= i <= lim <= src.chars@.len(),
            s == src.window(lim as int),
            spec_separated_operations(s, p as int) == prepend(operations_view(acc@), (i - p) as nat,
                spec_separated_operations(s, i as int)),
        decreases lim - i,
    {
        proof {
            lemma_prepend_empty(operations_view(acc@), (i - p) as nat);
        }
        match read_operation(src, lim, i) {
            Ok((v, e)) => {
                let q = blank_end(src, lim, e);
                if !char_is(src, lim, q, ',') {
                    return Ok((acc, i));
                }
                let q3 = blank_end(src, lim, q + 1);
                proof {
                    lemma_prepend_push(operations_view(acc@), (i - p) as nat, v@, (q3 - i) as nat,
                        spec_separated_operations(s, q3 as int));
                }
                let ghost before = operations_view(acc@);
                acc.push(v);
                assert(operations_view(acc@) =~= before.push(acc@[acc@.len() - 1]@));
                i = q3;
            },
            Err(f) => {
                if f.fatal {
                    return Err(f);
                }
                return Ok((acc, i));
            },
        }
    }
}

#[verifier::rlimit(100)]
#[verifier::spinoff_prover]
fn read_tuple_items<'a>(src: &Source<'a>, lim: usize, p: usize) -> (r: Parsed<Vec<NLOperation<'a>>>)
    requires
        src.wf(),
        p <= lim <= src.chars@.len(),
    ensures
        agrees_by(r, p as int, spec_tuple_items(src.window(lim as int), p as int),
            |v: Vec<NLOperation<'a>>| operations_view(v@)),
        ends_within(r, lim as int),
    decreases lim - p, 7nat,
{
    match read_separated_operations(src, lim, p) {
        Ok((mut items, m)) => {
            match read_operation(src, lim, m) {
                Ok((v, k)) => {
                    let end = blank_end(src, lim, k);
                    if end != lim {
                        return Err(fail(false, end, Label::Char(',')));
                    }
                    let ghost before = operations_view(items@);
                    items.push(v);
                    assert(operations_view(items@) =~= before.push(items@[items@.len() - 1]@));
                    Ok((items, m))
                },
                Err(f) => {
                    if f.fatal {
                        return Err(f);
                    }
                    let end = blank_end(src, lim, m);
                    if end != lim {
                        return Err(fail(false, end, Label::Char(',')));
                    }
                    Ok((items, m))
                },
            }
        },
        Err(f) => Err(f),
    }
}

pub fn read_tuple<'a>(src: &Source<'a>, lim: usize, p: usize) -> (r: Parsed<NLOperation<'a>>)
    requires
        src.wf(),
        p <= lim <= src.chars@.len(),
    ensures
        agrees(r, p as int, spec_tuple(src.window(lim as int), p as int)),
        ends_within(r, lim as int),
    decreases lim - p, 2nat,
{
    let ghost s = src.window(lim as int);
    let q = blank_end(src, lim, p);
    if !char_is(src, lim, q, '(') {
        return Err(fail(false, q, Label::Char('(')));
    }
    let r = match close_end(src, lim, q + 1) {
        Some(r) => r,
        None => {
            return Err(fail(false, lim, Label::Char(')')));
        },
    };
    if !char_is(src, lim, r, ')') {
        return Err(fail(false, r, Label::Char(')')));
    }
    assert(src.window(r as int) =~= s.subrange(0, r as int));
    match read_tuple_items(src, r, q + 1) {
        Ok((items, _)) => Ok((tuple_operation(items), r + 1)),
        Err(f) => Err(f),
    }
}

#[verifier::rlimit(100)]
#[verifier::spinoff_prover]
pub fn read_assignment<'a>(src: &Source<'a>, lim: usize, p: usize) -> (r: Parsed<NLOperation<'a>>)
    requires
        src.wf(),
        p <= lim <= src.chars@.len(),
    ensures
        agrees(r, p as int, spec_assignment(src.window(lim as int), p as int)),
        ends_within(r, lim as int),
    decreases lim - p, 2nat,
{
    proof {
        reveal_strlit("let");
    }
    let q = blank_end(src, lim, p);
    let is_new = keyword_is(src, lim, q, "let");
    let q1 = if is_new { q + 3 } else { q };
    let q2 = blank_end(src, lim, q1);
    let (names, e) = match read_assigned_names(src, lim, q2) {
        Ok(x) => x,
        Err(f) => {
            return Err(f);
        },
    };
    let q3 = blank_end(src, lim, e);
    let (ty, q4) = if char_is(src, lim, q3, ':') {
        match read_variable_type(src, lim, q3 + 1) {
            Ok(x) => x,
            Err(f) => {
                return Err(f);
            },
        }
    } else {
        (NLType::NoType, q3)
    };
    let q5 = blank_end(src, lim, q4);
    if !char_is(src, lim, q5, '=') {
        return Err(fail(false, q5, Label::Char('=')));
    }
    let q6 = blank_end(src, lim, q5 + 1);
    let q7 = blank_end(src, lim, q6);
    match read_operation(src, lim, q7) {
        Ok((v, k)) => Ok((assign_operation(is_new, names, ty, v), k)),
        Err(f) => Err(f),
    }
}

#[verifier::rlimit(100)]
#[verifier::spinoff_prover]
pub fn read_binary_operator<'a>(src: &Source<'a>, lim: usize, p: usize) -> (r: Parsed<NLOperation<'a>>)
    requires
        src.wf(),
        p <= lim <= src.chars@.len(),
    ensures
        agrees(r, p as int, spec_binary(src.window(lim as int), p as int)),
        ends_within(r, lim as int),
    decreases lim - p, 4nat,
{
    let q = blank_end(src, lim, p);
    let (a, ea) = match read_sub_operation(src, lim, q) {
        Ok(x) => x,
        Err(f) => {
            return Err(f);
        },
    };
    let q2 = blank_end(src, lim, ea);
    let (sym, es) = match take_operator_symbol(src, lim, q2) {
        Ok(x) => x,
        Err(f) => {
            return Err(f);
        },
    };
    let q3 = blank_end(src, lim, es);
    let (b, eb) = match read_sub_operation(src, lim, q3) {
        Ok(x) => x,
        Err(f) => {
            return Err(f);
        },
    };
    match binary_kind_at(src, lim, q2, es) {
        Some(k) => Ok((make_binary(k, a, b), eb)),
        None => Err(fail(true, q2, Label::Context("unknown operator"))),
    }
}

#[verifier::rlimit(100)]
#[verifier::spinoff_prover]
pub fn read_unary_operator<'a>(src: &Source<'a>, lim: usize, p: usize) -> (r: Parsed<NLOperation<'a>>)
    requires
        src.wf(),
        p <= lim <= src.chars@.len(),
    ensures
        agrees(r, p as int, spec_unary(src.window(lim as int), p as int)),
        ends_within(r, lim as int),
    decreases lim - p, 2nat,
{
    let q = blank_end(src, lim, p);
    let (sym, es) = match take_operator_symbol(src, lim, q) {
        Ok(x) => x,
        Err(f) => {
            return Err(f);
        },
    };
    let q2 = blank_end(src, lim, es);
    let (a, ea) = match read_sub_operation(src, lim, q2) {
        Ok(x) => x,
        Err(f) => {
            return Err(f);
        },
    };
    match unary_kind_at(src, lim, q, es) {
        Some(k) => Ok((make_unary(k, a), ea)),
        None => Err(fail(true, q, Label::Context("unknown operator"))),
    }
}

} // verus!
