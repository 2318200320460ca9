//! Properties of the grammar as a whole, stated over the spec functions
//! that the parsers' contracts speak of.
use crate::ast::{BindingModel, RootModel};
use crate::decl::{
    spec_argument, spec_argument_list, spec_field_list, spec_struct_variable, spec_function_like, spec_getter, spec_optional_block,
    spec_setter,
};
use crate::expr::{spec_binary, spec_code_block, spec_operation, spec_sub_operation};
use crate::ast::OperationModel;
use crate::file::{file_model, spec_declarations};
use crate::lexer::{blank_len, comment_len, in_class, run_len, CharClass, Outcome};
use vstd::prelude::*;

verus! {

/// The empty buffer parses to a file with no structs, traits or functions,
/// whatever the file's name.
pub proof fn lemma_empty_buffer(name: Seq<char>)
    ensures
        spec_declarations(Seq::empty()) matches Option::Some(roots) && ({
            let f = file_model(name, roots);
            &&& f.name == name
            &&& f.structs.len() == 0
            &&& f.traits.len() == 0
            &&& f.functions.len() == 0
        }),
{
    let roots = Seq::<RootModel>::empty();
    assert(spec_declarations(Seq::empty()) == Option::Some(roots));
}

/// A code block is read up to and including its closing brace.
pub proof fn lemma_code_block_ends_with_brace(s: Seq<char>, p: int)
    ensures
        spec_code_block(s, p) matches Outcome::Ok((m, n)) ==> {
            &&& m is Block
            &&& n > 0
            &&& 0 <= p + n - 1 < s.len()
            &&& s[p + n - 1] == '}'
        },
{
}

/// An optional body, when present, ends with a closing brace.
proof fn lemma_optional_block_ends(s: Seq<char>, p: int)
    ensures
        spec_optional_block(s, p) matches Outcome::Ok((b, n)) ==> (b is Some ==> (n > 0 && 0
            <= p + n - 1 < s.len() && s[p + n - 1] == '}')),
{
    lemma_code_block_ends_with_brace(s, p);
}

/// A function or method declaration has a body or a semicolon, never both
/// and never neither: what it reads ends with the body's closing brace when
/// it has a body, and with a semicolon when it has none.
pub proof fn lemma_function_body_xor_semicolon(s: Seq<char>, p: int, kw: Seq<char>)
    ensures
        spec_function_like(s, p, kw) matches Outcome::Ok((f, n)) ==> {
            &&& n > 0
            &&& 0 <= p + n - 1 < s.len()
            &&& f.body is Some <==> s[p + n - 1] == '}'
            &&& f.body is None <==> s[p + n - 1] == ';'
        },
{
    reveal(spec_function_like);
    let q = p + crate::lexer::blank_len(s, p);
    if spec_function_like(s, p, kw) is Ok {
        let q1 = q + kw.len() + crate::lexer::blank_len(s, q + kw.len());
        let (name, n) = crate::lexer::spec_method_name(s, q1)->Ok_0;
        let q2 = q1 + n + crate::lexer::blank_len(s, q1 + n);
        let (args, m) = crate::decl::spec_argument_list(s, q2)->Ok_0;
        let q3 = q2 + m + crate::lexer::blank_len(s, q2 + m);
        let (ret, k) = crate::decl::spec_return_type(s, q3)->Ok_0;
        let q4 = q3 + k + crate::lexer::blank_len(s, q3 + k);
        lemma_optional_block_ends(s, q4);
    }
}

/// A getter has a body or ends with a semicolon, never both and never
/// neither.
pub proof fn lemma_getter_body_xor_semicolon(s: Seq<char>, p: int)
    ensures
        spec_getter(s, p) matches Outcome::Ok((g, n)) ==> {
            &&& n > 0
            &&& 0 <= p + n - 1 < s.len()
            &&& g.block is Body <==> s[p + n - 1] == '}'
            &&& !(g.block is Body) <==> s[p + n - 1] == ';'
        },
{
    reveal(spec_getter);
    let q = p + crate::lexer::blank_len(s, p);
    if spec_getter(s, p) is Ok {
        let (name, n) = crate::lexer::spec_method_name(s, q + 3)->Ok_0;
        let q2 = q + 3 + n + crate::lexer::blank_len(s, q + 3 + n);
        let q3 = q2 + 1 + crate::lexer::blank_len(s, q2 + 1);
        if !(crate::lexer::char_at(s, q2, ':') && crate::lexer::keyword_at(s, q3, "default"@)) {
            let (args, m) = crate::decl::spec_argument_list(s, q2)->Ok_0;
            let (ty, k) = crate::decl::spec_return_type(s, q2 + m)->Ok_0;
            lemma_optional_block_ends(s, q2 + m + k);
        }
    }
}


/// A setter has a body or ends with a semicolon, never both and never
/// neither.
pub proof fn lemma_setter_body_xor_semicolon(s: Seq<char>, p: int)
    ensures
        spec_setter(s, p) matches Outcome::Ok((st, n)) ==> {
            &&& n > 0
            &&& 0 <= p + n - 1 < s.len()
            &&& st.block is Body <==> s[p + n - 1] == '}'
            &&& !(st.block is Body) <==> s[p + n - 1] == ';'
        },
{
    reveal(spec_setter);
    let q = p + crate::lexer::blank_len(s, p);
    if spec_setter(s, p) is Ok {
        let (name, n) = crate::lexer::spec_method_name(s, q + 3)->Ok_0;
        let q2 = q + 3 + n + crate::lexer::blank_len(s, q + 3 + n);
        let q3 = q2 + 1 + crate::lexer::blank_len(s, q2 + 1);
        let q4 = q3 + 7 + crate::lexer::blank_len(s, q3 + 7);
        if !(crate::lexer::char_at(s, q2, ':') && crate::lexer::keyword_at(s, q3, "default"@)
            && crate::lexer::char_at(s, q4, ';')) {
            let (args, m) = crate::decl::spec_argument_list(s, q2)->Ok_0;
            lemma_optional_block_ends(s, q2 + m + crate::lexer::blank_len(s, q2 + m));
        }
    }
}

/// Nothing blank stands at or past the end.
proof fn lemma_blank_at_end(s: Seq<char>, p: int)
    requires
        p >= s.len(),
    ensures
        blank_len(s, p) == 0,
{
    reveal(blank_len);
    reveal(run_len);
    reveal(comment_len);
}

/// A run of class `k` over `[p, p + n)` that the end or another character
/// stops has length `n`.
proof fn lemma_run_len_exact(s: Seq<char>, p: int, n: int, k: CharClass)
    requires
        0 <= p,
        0 <= n,
        p + n <= s.len(),
        forall|i: int| p <= i < p + n ==> in_class(k, #[trigger] s[i]),
        p + n == s.len() || !in_class(k, s[p + n]),
    ensures
        run_len(s, p, k) == n,
    decreases n,
{
    reveal(run_len);
    if n > 0 {
        lemma_run_len_exact(s, p + 1, n - 1, k);
    }
}

proof fn lemma_separated_with_comma(t2: Seq<char>, cuts: Seq<int>, args: Seq<BindingModel>, i: int)
    requires
        0 <= i <= args.len(),
        cuts.len() == args.len() + 1,
        cuts[0] >= 1,
        cuts[args.len() as int] == t2.len(),
        forall|j: int, l: int| 0 <= j < l <= args.len() ==> cuts[j] < cuts[l],
        forall|j: int| 0 <= j < args.len() ==> t2[#[trigger] cuts[j + 1] - 1] == ',',
        forall|j: int| 0 <= j < args.len() ==> spec_argument(t2, cuts[j]) == Outcome::Ok(
            (args[j], (cuts[j + 1] - 1 - cuts[j]) as nat),
        ),
    ensures
        crate::decl::spec_separated_arguments(t2, cuts[i]) == Outcome::Ok(
            (args.subrange(i, args.len() as int), (t2.len() - cuts[i]) as nat),
        ),
    decreases args.len() - i,
{
    if i == args.len() {
        let l = t2.len() as int;
        lemma_blank_at_end(t2, l);
        lemma_blank_at_end(t2, l + 1);
        assert(spec_argument(t2, l) == Outcome::<BindingModel>::Err(false)) by {
            reveal(run_len);
            reveal(spec_argument);
        }
        assert(args.subrange(i, args.len() as int) =~= Seq::<BindingModel>::empty());
    } else {
        lemma_separated_with_comma(t2, cuts, args, i + 1);
        assert(seq![args[i]] + args.subrange(i + 1, args.len() as int) =~= args.subrange(i, args.len() as int));
    }
}

proof fn lemma_separated_without_comma(t1: Seq<char>, cuts: Seq<int>, args: Seq<BindingModel>, i: int)
    requires
        0 <= i < args.len(),
        cuts.len() == args.len() + 1,
        cuts[0] >= 1,
        cuts[args.len() as int] == t1.len() + 1,
        forall|j: int, l: int| 0 <= j < l <= args.len() ==> cuts[j] < cuts[l],
        forall|j: int| 0 <= j < args.len() - 1 ==> t1[#[trigger] cuts[j + 1] - 1] == ',',
        forall|j: int| 0 <= j < args.len() ==> spec_argument(t1, cuts[j]) == Outcome::Ok(
            (args[j], (cuts[j + 1] - 1 - cuts[j]) as nat),
        ),
    ensures
        crate::decl::spec_separated_arguments(t1, cuts[i]) == Outcome::Ok(
            (args.subrange(i, args.len() - 1), (cuts[args.len() - 1] - cuts[i]) as nat),
        ),
    decreases args.len() - i,
{
    if i == args.len() - 1 {
        assert(args.subrange(i, args.len() - 1) =~= Seq::<BindingModel>::empty());
    } else {
        lemma_separated_without_comma(t1, cuts, args, i + 1);
        assert(seq![args[i]] + args.subrange(i + 1, args.len() - 1) =~= args.subrange(i, args.len() - 1));
    }
}

/// An argument list reads the same with or without a trailing comma before
/// its closing parenthesis.  The list is well formed: `body` holds no `)`,
/// and it is `k` arguments joined by commas, the `i`-th standing from
/// `cuts[i]` to the comma before `cuts[i + 1]` (counted in `(` + `body` +
/// `,`), each read whole by the argument parser with or without that last
/// comma.
pub proof fn lemma_argument_trailing_comma(body: Seq<char>, cuts: Seq<int>, args: Seq<BindingModel>)
    requires
        args.len() > 0,
        cuts.len() == args.len() + 1,
        cuts[0] == 1,
        cuts[args.len() as int] == body.len() + 2,
        forall|j: int, l: int| 0 <= j < l <= args.len() ==> cuts[j] < cuts[l],
        forall|i: int| 0 <= i < body.len() ==> body[i] != ')',
        forall|j: int| 0 <= j < args.len() ==> (seq!['('] + body + seq![','])[#[trigger] cuts[j + 1] - 1] == ',',
        forall|j: int| 0 <= j < args.len() ==> spec_argument(seq!['('] + body + seq![','], cuts[j])
            == Outcome::Ok((args[j], (cuts[j + 1] - 1 - cuts[j]) as nat)),
        forall|j: int| 0 <= j < args.len() ==> spec_argument(seq!['('] + body, cuts[j]) == Outcome::Ok(
            (args[j], (cuts[j + 1] - 1 - cuts[j]) as nat),
        ),
    ensures
        spec_argument_list(seq!['('] + body + seq![')'], 0) == Outcome::Ok((args, body.len() + 2)),
        spec_argument_list(seq!['('] + body + seq![',', ')'], 0) == Outcome::Ok(
            (args, body.len() + 3),
        ),
{
    let n = body.len() as int;
    let k = args.len() as int;
    let s1 = seq!['('] + body + seq![')'];
    let t1 = seq!['('] + body;
    let t2 = seq!['('] + body + seq![','];
    assert forall|j: int| 0 <= j < k - 1 implies t1[#[trigger] cuts[j + 1] - 1] == ',' by {
        assert(cuts[j + 1] < cuts[k]);
        assert(t1[cuts[j + 1] - 1] == t2[cuts[j + 1] - 1]);
    }
    assert forall|i: int| 1 <= i < 1 + n implies in_class(CharClass::Except(')'), #[trigger] s1[i]) by {
        assert(s1[i] == body[i - 1]);
    }
    lemma_run_len_exact(s1, 1, n, CharClass::Except(')'));
    assert(s1.subrange(0, 1 + n) =~= t1);
    lemma_separated_without_comma(t1, cuts, args, 0);
    lemma_blank_at_end(t1, 1 + n);
    assert(args.subrange(0, k - 1).push(args[k - 1]) =~= args);
    let s2 = seq!['('] + body + seq![',', ')'];
    assert forall|i: int| 1 <= i < 2 + n implies in_class(CharClass::Except(')'), #[trigger] s2[i]) by {
        if i < 1 + n {
            assert(s2[i] == body[i - 1]);
        }
    }
    lemma_run_len_exact(s2, 1, n + 1, CharClass::Except(')'));
    assert(s2.subrange(0, 2 + n) =~= t2);
    lemma_separated_with_comma(t2, cuts, args, 0);
    assert(args.subrange(0, k) =~= args);
    let l = t2.len() as int;
    lemma_blank_at_end(t2, l);
    lemma_blank_at_end(t2, l + 1);
    assert(spec_argument(t2, l) == Outcome::<BindingModel>::Err(false)) by {
        reveal(run_len);
        reveal(spec_argument);
    }
}

/// Nothing blank starts at a character that is neither white space nor `/`.
proof fn lemma_blank_at_solid(s: Seq<char>, p: int)
    requires
        0 <= p < s.len(),
        !in_class(CharClass::Space, s[p]),
        s[p] != '/',
    ensures
        blank_len(s, p) == 0,
{
    reveal(blank_len);
    reveal(run_len);
    reveal(comment_len);
    reveal_strlit("//");
    reveal_strlit("/*");
    if crate::lexer::starts_with(s, p, "//"@) {
        assert(s.subrange(p, p + 2)[0] == s[p]);
    }
    if crate::lexer::starts_with(s, p, "/*"@) {
        assert(s.subrange(p, p + 2)[0] == s[p]);
    }
}

proof fn lemma_separated_fields_run(
    t: Seq<char>,
    cuts: Seq<int>,
    lens: Seq<nat>,
    fields: Seq<BindingModel>,
    last: int,
    i: int,
)
    requires
        0 <= i <= last <= fields.len(),
        cuts.len() == fields.len() + 1,
        lens.len() == fields.len(),
        cuts[0] >= 0,
        forall|j: int, l: int| 0 <= j < l <= fields.len() ==> cuts[j] < cuts[l],
        cuts[fields.len() as int] <= t.len(),
        forall|j: int| 0 <= j < fields.len() ==> spec_struct_variable(t, #[trigger] cuts[j])
            == Outcome::Ok((fields[j], lens[j])),
        forall|j: int| 0 <= j < fields.len() ==> cuts[j] + lens[j] + blank_len(t, cuts[j] + lens[j])
            == #[trigger] cuts[j + 1] - 1,
        forall|j: int| 0 <= j < last ==> t[#[trigger] cuts[j + 1] - 1] == ',',
        last < fields.len() ==> t[cuts[last + 1] - 1] != ',',
        last == fields.len() ==> spec_struct_variable(t, cuts[last]) is Err && !(
        spec_struct_variable(t, cuts[last]) == Outcome::<BindingModel>::Err(true)),
    ensures
        crate::decl::spec_separated_fields(t, cuts[i]) == Outcome::Ok(
            (fields.subrange(i, last), (cuts[last] - cuts[i]) as nat),
        ),
    decreases last - i,
{
    if i == last {
        assert(fields.subrange(i, last) =~= Seq::<BindingModel>::empty());
        if last < fields.len() {
            assert(cuts[i] + lens[i] + blank_len(t, cuts[i] + lens[i]) == cuts[i + 1] - 1);
        }
    } else {
        lemma_separated_fields_run(t, cuts, lens, fields, last, i + 1);
        assert(cuts[i] + lens[i] + blank_len(t, cuts[i] + lens[i]) == cuts[i + 1] - 1);
        assert(t[cuts[i + 1] - 1] == ',');
        assert(seq![fields[i]] + fields.subrange(i + 1, last) =~= fields.subrange(i, last));
    }
}

/// A struct's field list reads the same fields with or without a trailing
/// comma before the closing brace.  The list is well formed: `body` is `k`
/// fields joined by commas, the `i`-th starting with its name at
/// `cuts[i]`, read by the field parser in `lens[i]` characters, and
/// followed by blank and then the comma (or the brace) at `cuts[i + 1] - 1`,
/// with or without the trailing comma.
pub proof fn lemma_field_trailing_comma(
    body: Seq<char>,
    cuts: Seq<int>,
    lens: Seq<nat>,
    fields: Seq<BindingModel>,
)
    requires
        fields.len() > 0,
        cuts.len() == fields.len() + 1,
        lens.len() == fields.len(),
        cuts[0] == 0,
        cuts[fields.len() as int] == body.len() + 1,
        forall|j: int, l: int| 0 <= j < l <= fields.len() ==> cuts[j] < cuts[l],
        forall|j: int| 0 <= j < fields.len() ==> in_class(CharClass::NameStart, body[#[trigger] cuts[j]]),
        forall|j: int| 0 <= j < fields.len() ==> (body + seq![',', '}'])[#[trigger] cuts[j + 1] - 1] == ',',
        forall|j: int| 0 <= j < fields.len() ==> spec_struct_variable(body + seq![',', '}'], #[trigger] cuts[j])
            == Outcome::Ok((fields[j], lens[j])),
        forall|j: int| 0 <= j < fields.len() ==> spec_struct_variable(body + seq!['}'], #[trigger] cuts[j])
            == Outcome::Ok((fields[j], lens[j])),
        forall|j: int| 0 <= j < fields.len() ==> cuts[j] + lens[j] + blank_len(body + seq![',', '}'], cuts[j] + lens[j])
            == #[trigger] cuts[j + 1] - 1,
        forall|j: int| 0 <= j < fields.len() ==> cuts[j] + lens[j] + blank_len(body + seq!['}'], cuts[j] + lens[j])
            == #[trigger] cuts[j + 1] - 1,
    ensures
        spec_field_list(body + seq!['}'], 0) matches Outcome::Ok((fs, _)) && fs == fields,
        spec_field_list(body + seq![',', '}'], 0) matches Outcome::Ok((fs, _)) && fs == fields,
{
    let k = fields.len() as int;
    let n = body.len() as int;
    let s1 = body + seq!['}'];
    let s2 = body + seq![',', '}'];
    assert forall|j: int| 0 <= j < k - 1 implies s1[#[trigger] cuts[j + 1] - 1] == ',' by {
        assert(cuts[j + 1] < cuts[k]);
        assert(s1[cuts[j + 1] - 1] == s2[cuts[j + 1] - 1]);
    }
    assert(s1[cuts[k] - 1] == '}');
    lemma_separated_fields_run(s1, cuts, lens, fields, k - 1, 0);
    assert(cuts[k - 1] < cuts[k]);
    assert(s1[cuts[k - 1]] == body[cuts[k - 1]]);
    lemma_blank_at_solid(s1, cuts[k - 1]);
    assert(fields.subrange(0, k - 1).push(fields[k - 1]) =~= fields);
    assert(s2[cuts[k]] == '}');
    assert(spec_struct_variable(s2, cuts[k]) == Outcome::<BindingModel>::Err(false)) by {
        lemma_blank_at_solid(s2, cuts[k]);
        reveal(run_len);
    }
    lemma_separated_fields_run(s2, cuts, lens, fields, k, 0);
    lemma_blank_at_solid(s2, cuts[k]);
    assert(fields.subrange(0, k) =~= fields);
}

/// An operand is never itself a binary operator expression.
pub proof fn lemma_operand_is_not_binary(s: Seq<char>, p: int)
    ensures
        spec_sub_operation(s, p) matches Outcome::Ok((m, _)) ==> !(m is Binary),
{
    reveal(crate::expr::spec_code_block);
    assert(spec_code_block(s, p) matches Outcome::Ok((m, _)) ==> m is Block);
    assert(crate::expr::spec_tuple(s, p) matches Outcome::Ok((m, _)) ==> m is Tuple);
    assert(crate::expr::spec_assignment(s, p) matches Outcome::Ok((m, _)) ==> m is Assign);
    assert(crate::expr::spec_unary(s, p) matches Outcome::Ok((m, _)) ==> m is Unary);
}

/// Binary operators do not chain: in an operation read as a binary
/// operator, neither operand is an unparenthesized binary operator, so
/// `a + b + c` needs grouping around one side.
pub proof fn lemma_binary_operands_are_not_binary(s: Seq<char>, p: int)
    ensures
        spec_binary(s, p) matches Outcome::Ok((m, _)) ==> (m matches OperationModel::Binary(_, a, b)
            && !(*a is Binary) && !(*b is Binary)),
{
    if spec_binary(s, p) is Ok {
        let q = p + blank_len(s, p);
        lemma_operand_is_not_binary(s, q);
        let (a, na) = spec_sub_operation(s, q)->Ok_0;
        let q2 = q + na + blank_len(s, q + na);
        let (sym, ns) = crate::lexer::spec_operator_symbol(s, q2)->Ok_0;
        let q3 = q2 + ns + blank_len(s, q2 + ns);
        lemma_operand_is_not_binary(s, q3);
    }
}
/// An operation read as a binary operator has no unparenthesized binary
/// operator as an operand.
pub proof fn lemma_operation_operands_are_not_binary(s: Seq<char>, p: int)
    ensures
        spec_operation(s, p) matches Outcome::Ok((OperationModel::Binary(_, a, b), _)) ==> !(*a is Binary)
            && !(*b is Binary),
{
    reveal(crate::expr::spec_code_block);
    assert(spec_code_block(s, p) matches Outcome::Ok((m, _)) ==> m is Block);
    assert(crate::expr::spec_tuple(s, p) matches Outcome::Ok((m, _)) ==> m is Tuple);
    assert(crate::expr::spec_assignment(s, p) matches Outcome::Ok((m, _)) ==> m is Assign);
    assert(crate::expr::spec_unary(s, p) matches Outcome::Ok((m, _)) ==> m is Unary);
    lemma_binary_operands_are_not_binary(s, p);
}

/// Every backslash of `x` from `k` on escapes a character of `x`.
pub open spec fn escapes_closed(x: Seq<char>, k: int) -> bool
    decreases x.len() - k,
{
    if 0 <= k < x.len() {
        if x[k] == '\\' {
            k + 1 < x.len() && escapes_closed(x, k + 2)
        } else {
            escapes_closed(x, k + 1)
        }
    } else {
        true
    }
}

proof fn lemma_string_body(s: Seq<char>, b: int, x: Seq<char>, k: int)
    requires
        0 <= b,
        0 <= k <= x.len(),
        b + x.len() < s.len(),
        s.subrange(b, b + x.len()) == x,
        s[b + x.len()] == '"',
        forall|i: int| 0 <= i < x.len() ==> x[i] != '"',
        escapes_closed(x, k),
    ensures
        crate::constant::string_body_len(s, b + k) == x.len() - k,
    decreases x.len() - k,
{
    if k < x.len() {
        assert(s[b + k] == x[k]);
        if x[k] == '\\' {
            lemma_string_body(s, b, x, k + 2);
        } else {
            lemma_string_body(s, b, x, k + 1);
        }
    }
}

/// A string literal after white space is read up to its closing quote,
/// and its contents are the text between the quotes as written: escapes
/// are neither decoded nor allowed to end it.  The contents hold no bare
/// `"`, and every backslash in them escapes a character of them.
pub proof fn lemma_string_verbatim(w: Seq<char>, x: Seq<char>, r: Seq<char>)
    requires
        forall|i: int| 0 <= i < w.len() ==> in_class(CharClass::Space, #[trigger] w[i]),
        forall|i: int| 0 <= i < x.len() ==> x[i] != '"',
        escapes_closed(x, 0),
    ensures
        crate::constant::spec_string_constant(w + seq!['"'] + x + seq!['"'] + r, 0) == Outcome::Ok(
            (crate::ast::ConstantModel::Text(x), w.len() + x.len() + 2),
        ),
{
    let s = w + seq!['"'] + x + seq!['"'] + r;
    let n = w.len() as int;
    assert(s[n] == '"');
    assert forall|i: int| 0 <= i < n implies in_class(CharClass::Space, #[trigger] s[i]) by {
        assert(s[i] == w[i]);
    }
    lemma_run_len_exact(s, 0, n, CharClass::Space);
    assert(blank_len(s, 0) == n) by {
        reveal(blank_len);
        reveal(comment_len);
        reveal_strlit("//");
        reveal_strlit("/*");
        if crate::lexer::starts_with(s, n, "//"@) {
            assert(s.subrange(n, n + 2)[0] == s[n]);
        }
        if crate::lexer::starts_with(s, n, "/*"@) {
            assert(s.subrange(n, n + 2)[0] == s[n]);
        }
    }
    let b = n + 1;
    assert(s.subrange(b, b + x.len()) =~= x);
    assert(s[b + x.len()] == '"');
    lemma_string_body(s, b, x, 0);
}
} // verus!
