//! Declarations: arguments, return types, methods, getters, setters,
//! traits, implementation blocks, structs and free functions.
use crate::ast::{
    arguments_view, fields_view, implementations_view, implementors_view, operations_view,
    BindingModel, EncapsulationModel, FunctionModel, GetterModel, ImplementorModel, InterfaceModel,
    NLArgument, NLBlock, NLEncapsulationBlock, NLFunction, NLGetter, NLImplementation,
    NLImplementor, NLOperation, NLSetter, NLStruct, NLStructVariable, NLTrait, NLType,
    OperationModel, RootDeclaration, RootModel, SetterModel, StructModel, TypeModel,
};
use crate::expr::{prepend, lemma_prepend_empty, lemma_prepend_push, read_code_block, spec_code_block};
use crate::lexer::{
    agrees, agrees_by, ends_within, blank_end, blank_len, char_at, char_is, fail, read_method_name,
    read_struct_or_trait_name, read_variable_name, run_end, run_len, spec_method_name,
    spec_struct_or_trait_name, spec_variable_name, starts_with, tag_at, keyword_at, keyword_is, within_context, CharClass,
    Label, Outcome, Parsed, Source,
};
use crate::types::{read_variable_type, spec_variable_type};
use vstd::prelude::*;

verus! {

/// One argument: `name: type`, or `&self`, or `&mut self`.  The name
/// `self` is reserved for the last two forms.  Anything else that is not
/// the end of the list is a fatal failure, and so is anything after `&`
/// that is not `self` or `mut self`.
#[verifier::opaque]
pub open spec fn spec_argument(s: Seq<char>, p: int) -> Outcome<BindingModel> {
    let q = p + blank_len(s, p);
    match spec_variable_name(s, q) {
        Outcome::Ok((name, n)) => {
            let q2 = q + n + blank_len(s, q + n);
            if name == "self"@ {
                Outcome::Err(true)
            } else if char_at(s, q2, ':') {
                let q3 = q2 + 1 + blank_len(s, q2 + 1);
                match spec_variable_type(s, q3) {
                    Outcome::Ok((ty, m)) => Outcome::Ok(
                        (BindingModel { name, ty }, (q3 + m + blank_len(s, q3 + m) - p) as nat),
                    ),
                    Outcome::Err(f) => Outcome::Err(f),
                }
            } else {
                Outcome::Err(false)
            }
        },
        Outcome::Err(_) => {
            let q1 = q + 1 + blank_len(s, q + 1);
            if char_at(s, q, '&') {
                if keyword_at(s, q1, "self"@) {
                    Outcome::Ok((BindingModel { name: "self"@, ty: TypeModel::SelfReference }, (q1 + 4 - p) as nat))
                } else if keyword_at(s, q1, "mut"@) {
                    let q2 = q1 + 3 + blank_len(s, q1 + 3);
                    if keyword_at(s, q2, "self"@) {
                        Outcome::Ok(
                            (BindingModel { name: "self"@, ty: TypeModel::MutableSelfReference }, (q2 + 4 - p) as nat),
                        )
                    } else {
                        Outcome::Err(true)
                    }
                } else {
                    Outcome::Err(true)
                }
            } else {
                Outcome::Err(q < s.len())
            }
        },
    }
}

#[verifier::rlimit(100)]
#[verifier::spinoff_prover]
pub fn read_argument_declaration<'a>(src: &Source<'a>, lim: usize, p: usize) -> (r: Parsed<NLArgument<'a>>)
    requires
        src.wf(),
        p <= lim <= src.chars@.len(),
    ensures
        agrees(r, p as int, spec_argument(src.window(lim as int), p as int)),
        ends_within(r, lim as int),
{
    proof {
        reveal(spec_argument);
        reveal_strlit("self");
        reveal_strlit("mut");
    }
    let ghost s = src.window(lim as int);
    let q = blank_end(src, lim, p);
    match read_variable_name(src, lim, q) {
        Ok((name, e)) => {
            let q2 = blank_end(src, lim, e);
            if crate::types::token_is(src, lim, q, e, "self") {
                return Err(fail(true, q, Label::Context("self is reserved for &self and &mut self")));
            }
            if !char_is(src, lim, q2, ':') {
                return Err(fail(false, q2, Label::Char(':')));
            }
            let q3 = blank_end(src, lim, q2 + 1);
            match read_variable_type(src, lim, q3) {
                Ok((nl_type, e2)) => {
                    let e3 = blank_end(src, lim, e2);
                    Ok((NLArgument { name, nl_type }, e3))
                },
                Err(f) => Err(f),
            }
        },
        Err(_) => {
            if char_is(src, lim, q, '&') {
                let q1 = blank_end(src, lim, q + 1);
                if keyword_is(src, lim, q1, "self") {
                    return Ok((NLArgument { name: "self", nl_type: NLType::SelfReference }, q1 + 4));
                }
                if keyword_is(src, lim, q1, "mut") {
                    let q2 = blank_end(src, lim, q1 + 3);
                    if keyword_is(src, lim, q2, "self") {
                        return Ok((NLArgument { name: "self", nl_type: NLType::MutableSelfReference }, q2 + 4));
                    }
                    return Err(fail(true, q2, Label::Context("self")));
                }
                return Err(fail(true, q1, Label::Context("self or mut self")));
            }
            if q < lim {
                Err(fail(true, q, Label::Context("could not read declaration of argument correctly")))
            } else {
                Err(fail(false, q, Label::Context("there is no argument")))
            }
        },
    }
}

/// Arguments each directly followed by `,`.
pub open spec fn spec_separated_arguments(t: Seq<char>, p: int) -> Outcome<Seq<BindingModel>>
    decreases t.len() - p,
{
    match spec_argument(t, p) {
        Outcome::Ok((a, n)) => if char_at(t, p + n, ',') && 0 <= p {
            prepend(seq![a], n + 1, spec_separated_arguments(t, p + n + 1))
        } else {
            Outcome::Ok((Seq::empty(), 0))
        },
        Outcome::Err(true) => Outcome::Err(true),
        Outcome::Err(false) => Outcome::Ok((Seq::empty(), 0)),
    }
}

/// `( arguments )`, the region up to the first `)` holding the arguments:
/// separated ones, then an optional last one without a comma, then only
/// blank.  Anything else in the region is a fatal failure.
pub open spec fn spec_argument_list(s: Seq<char>, p: int) -> Outcome<Seq<BindingModel>> {
    let r = p + 1 + run_len(s, p + 1, CharClass::Except(')'));
    if char_at(s, p, '(') && char_at(s, r, ')') {
        let t = s.subrange(0, r);
        match spec_separated_arguments(t, p + 1) {
            Outcome::Ok((args, m)) => {
                let e = p + 1 + m;
                match spec_argument(t, e) {
                    Outcome::Ok((a, k)) => if e + k + blank_len(t, e + k) == r {
                        Outcome::Ok((args.push(a), (r + 1 - p) as nat))
                    } else {
                        Outcome::Err(true)
                    },
                    Outcome::Err(true) => Outcome::Err(true),
                    Outcome::Err(false) => if e + blank_len(t, e) == r {
                        Outcome::Ok((args, (r + 1 - p) as nat))
                    } else {
                        Outcome::Err(true)
                    },
                }
            },
            Outcome::Err(f) => Outcome::Err(f),
        }
    } else {
        Outcome::Err(false)
    }
}

fn read_separated_arguments<'a>(src: &Source<'a>, lim: usize, p: usize) -> (r: Parsed<Vec<NLArgument<'a>>>)
    requires
        src.wf(),
        p <= lim <= src.chars@.len(),
    ensures
        agrees_by(r, p as int, spec_separated_arguments(src.window(lim as int), p as int),
            |v: Vec<NLArgument<'a>>| arguments_view(v@)),
        ends_within(r, lim as int),
{
    let ghost s = src.window(lim as int);
    let mut acc: Vec<NLArgument<'a>> = Vec::new();
    let mut i = p;
    loop
        invariant
            src.wf(),
            p <= i <= lim <= src.chars@.len(),
            s == src.window(lim as int),
            spec_separated_arguments(s, p as int) == prepend(arguments_view(acc@), (i - p) as nat,
                spec_separated_arguments(s, i as int)),
        decreases lim - i,
    {
        proof {
            lemma_prepend_empty(arguments_view(acc@), (i - p) as nat);
        }
        match read_argument_declaration(src, lim, i) {
            Ok((a, e)) => {
                if !char_is(src, lim, e, ',') {
                    return Ok((acc, i));
                }
                proof {
                    lemma_prepend_push(arguments_view(acc@), (i - p) as nat, a@, (e + 1 - i) as nat,
                        spec_separated_arguments(s, e + 1));
                }
                let ghost before = arguments_view(acc@);
                acc.push(a);
                assert(arguments_view(acc@) =~= before.push(acc@[acc@.len() - 1]@));
                i = e + 1;
            },
            Err(f) => {
                if f.fatal {
                    return Err(f);
                }
                return Ok((acc, i));
            },
        }
    }
}

#[verifier::rlimit(100)]
#[verifier::spinoff_prover]
pub fn read_argument_declaration_list<'a>(src: &Source<'a>, lim: usize, p: usize) -> (r: Parsed<Vec<NLArgument<'a>>>)
    requires
        src.wf(),
        p <= lim <= src.chars@.len(),
    ensures
        agrees_by(r, p as int, spec_argument_list(src.window(lim as int), p as int),
            |v: Vec<NLArgument<'a>>| arguments_view(v@)),
        ends_within(r, lim as int),
{
    let ghost s = src.window(lim as int);
    if !char_is(src, lim, p, '(') {
        return Err(fail(false, p, Label::Char('(')));
    }
    let r = run_end(src, lim, p + 1, CharClass::Except(')'));
    if !char_is(src, lim, r, ')') {
        return Err(fail(false, r, Label::Char(')')));
    }
    assert(src.window(r as int) =~= s.subrange(0, r as int));
    match read_separated_arguments(src, r, p + 1) {
        Ok((mut args, m)) => match read_argument_declaration(src, r, m) {
            Ok((a, k)) => {
                let end = blank_end(src, r, k);
                if end != r {
                    return Err(fail(true, end, Label::Char(')')));
                }
                let ghost before = arguments_view(args@);
                args.push(a);
                assert(arguments_view(args@) =~= before.push(args@[args@.len() - 1]@));
                Ok((args, r + 1))
            },
            Err(f) => {
                if f.fatal {
                    return Err(f);
                }
                let end = blank_end(src, r, m);
                if end != r {
                    return Err(fail(true, end, Label::Char(')')));
                }
                Ok((args, r + 1))
            },
        },
        Err(f) => Err(f),
    }
}

/// An optional `-> type`; without it the type is none.
pub open spec fn spec_return_type(s: Seq<char>, p: int) -> Outcome<TypeModel> {
    let q = p + blank_len(s, p);
    if starts_with(s, q, "->"@) {
        let q2 = q + 2 + blank_len(s, q + 2);
        match spec_variable_type(s, q2) {
            Outcome::Ok((ty, m)) => Outcome::Ok((ty, (q2 + m + blank_len(s, q2 + m) - p) as nat)),
            Outcome::Err(f) => Outcome::Err(f),
        }
    } else {
        Outcome::Ok((TypeModel::NoType, (q - p) as nat))
    }
}

pub fn read_return_type<'a>(src: &Source<'a>, lim: usize, p: usize) -> (r: Parsed<NLType<'a>>)
    requires
        src.wf(),
        p <= lim <= src.chars@.len(),
    ensures
        agrees(r, p as int, spec_return_type(src.window(lim as int), p as int)),
        ends_within(r, lim as int),
{
    proof {
        reveal_strlit("->");
    }
    let q = blank_end(src, lim, p);
    if tag_at(src, lim, q, "->") {
        let q2 = blank_end(src, lim, q + 2);
        match read_variable_type(src, lim, q2) {
            Ok((ty, e)) => {
                let e2 = blank_end(src, lim, e);
                Ok((ty, e2))
            },
            Err(f) => Err(f),
        }
    } else {
        Ok((NLType::NoType, q))
    }
}

/// The model of an optional body.
pub open spec fn block_view<'a>(b: Option<NLBlock<'a>>) -> Option<Seq<OperationModel>> {
    match b {
        Option::Some(b) => Option::Some(operations_view(b.operations@)),
        Option::None => Option::None,
    }
}

/// An optional code block: a soft failure means there is none.
pub open spec fn spec_optional_block(s: Seq<char>, p: int) -> Outcome<Option<Seq<OperationModel>>> {
    match spec_code_block(s, p) {
        Outcome::Ok((OperationModel::Block(ops), n)) => Outcome::Ok((Option::Some(ops), n)),
        Outcome::Ok(_) => Outcome::Ok((Option::None, 0)),
        Outcome::Err(true) => Outcome::Err(true),
        Outcome::Err(false) => Outcome::Ok((Option::None, 0)),
    }
}

fn read_optional_block<'a>(src: &Source<'a>, lim: usize, p: usize) -> (r: Parsed<Option<NLBlock<'a>>>)
    requires
        src.wf(),
        p <= lim <= src.chars@.len(),
    ensures
        agrees_by(r, p as int, spec_optional_block(src.window(lim as int), p as int),
            |b: Option<NLBlock<'a>>| block_view(b)),
        ends_within(r, lim as int),
{
    proof {
        reveal(crate::ast::operation_model);
    }
    match read_code_block(src, lim, p) {
        Ok((op, e)) => match op {
            NLOperation::Block(b) => {
                assert(operations_view(b.operations@) =~= op@->Block_0);
                Ok((Some(b), e))
            },
            _ => Ok((None, p)),
        },
        Err(f) => {
            if f.fatal {
                Err(f)
            } else {
                Ok((None, p))
            }
        },
    }
}

/// `kw name (arguments) [-> type]` then a body or `;`: never both, never
/// neither.
#[verifier::opaque]
pub open spec fn spec_function_like(s: Seq<char>, p: int, kw: Seq<char>) -> Outcome<FunctionModel> {
    let q = p + blank_len(s, p);
    if keyword_at(s, q, kw) {
        let q1 = q + kw.len() + blank_len(s, q + kw.len());
        match spec_method_name(s, q1) {
            Outcome::Ok((name, n)) => {
                let q2 = q1 + n + blank_len(s, q1 + n);
                match spec_argument_list(s, q2) {
                    Outcome::Ok((args, m)) => {
                        let q3 = q2 + m + blank_len(s, q2 + m);
                        match spec_return_type(s, q3) {
                            Outcome::Ok((ret, k)) => {
                                let q4 = q3 + k + blank_len(s, q3 + k);
                                match spec_optional_block(s, q4) {
                                    Outcome::Ok((body, b)) => {
                                        let f = FunctionModel { name, args, ret, body };
                                        if body.is_some() {
                                            Outcome::Ok((f, (q4 + b - p) as nat))
                                        } else if char_at(s, q4, ';') {
                                            Outcome::Ok((f, (q4 + 1 - p) as nat))
                                        } else {
                                            Outcome::Err(false)
                                        }
                                    },
                                    Outcome::Err(e) => Outcome::Err(e),
                                }
                            },
                            Outcome::Err(e) => Outcome::Err(e),
                        }
                    },
                    Outcome::Err(e) => Outcome::Err(e),
                }
            },
            Outcome::Err(e) => Outcome::Err(e),
        }
    } else {
        Outcome::Err(false)
    }
}

#[verifier::rlimit(100)]
#[verifier::spinoff_prover]
fn read_function_like<'a>(src: &Source<'a>, lim: usize, p: usize, kw: &str) -> (r: Parsed<NLFunction<'a>>)
    requires
        src.wf(),
        p <= lim <= src.chars@.len(),
    ensures
        agrees(r, p as int, spec_function_like(src.window(lim as int), p as int, kw@)),
        ends_within(r, lim as int),
{
    proof {
        reveal(spec_function_like);
    }
    let q = blank_end(src, lim, p);
    if !keyword_is(src, lim, q, kw) {
        return Err(fail(false, q, Label::Context("keyword")));
    }
    let q1 = blank_end(src, lim, q + kw.unicode_len());
    let (name, e1) = match read_method_name(src, lim, q1) {
        Ok(x) => x,
        Err(f) => {
            return Err(f);
        },
    };
    let q2 = blank_end(src, lim, e1);
    let (arguments, e2) = match read_argument_declaration_list(src, lim, q2) {
        Ok(x) => x,
        Err(f) => {
            return Err(f);
        },
    };
    let q3 = blank_end(src, lim, e2);
    let (return_type, e3) = match read_return_type(src, lim, q3) {
        Ok(x) => x,
        Err(f) => {
            return Err(f);
        },
    };
    let q4 = blank_end(src, lim, e3);
    let (block, e4) = match read_optional_block(src, lim, q4) {
        Ok(x) => x,
        Err(f) => {
            return Err(f);
        },
    };
    let has_body = block.is_some();
    let f = NLFunction { name, arguments, return_type, block };
    if has_body {
        Ok((f, e4))
    } else if char_is(src, lim, q4, ';') {
        Ok((f, q4 + 1))
    } else {
        Err(fail(false, q4, Label::Char(';')))
    }
}

/// `met name (...) ...`: a method.
pub open spec fn spec_method(s: Seq<char>, p: int) -> Outcome<FunctionModel> {
    spec_function_like(s, p, "met"@)
}

pub fn read_method<'a>(src: &Source<'a>, lim: usize, p: usize) -> (r: Parsed<NLFunction<'a>>)
    requires
        src.wf(),
        p <= lim <= src.chars@.len(),
    ensures
        agrees(r, p as int, spec_method(src.window(lim as int), p as int)),
        ends_within(r, lim as int),
{
    read_function_like(src, lim, p, "met")
}

/// `fn name (...) ...`: a free function.
pub open spec fn spec_function(s: Seq<char>, p: int) -> Outcome<FunctionModel> {
    spec_function_like(s, p, "fn"@)
}

pub fn read_function<'a>(src: &Source<'a>, lim: usize, p: usize) -> (r: Parsed<NLFunction<'a>>)
    requires
        src.wf(),
        p <= lim <= src.chars@.len(),
    ensures
        agrees(r, p as int, spec_function(src.window(lim as int), p as int)),
        ends_within(r, lim as int),
{
    read_function_like(src, lim, p, "fn")
}

/// The encapsulation model of an optional body.
pub open spec fn encapsulation_of(body: Option<Seq<OperationModel>>) -> EncapsulationModel {
    match body {
        Option::Some(ops) => EncapsulationModel::Body(ops),
        Option::None => EncapsulationModel::Abstract,
    }
}

fn encapsulation<'a>(block: Option<NLBlock<'a>>) -> (r: NLEncapsulationBlock<'a>)
    ensures
        r@ == encapsulation_of(block_view(block)),
{
    match block {
        Some(b) => NLEncapsulationBlock::Body(b),
        None => NLEncapsulationBlock::Abstract,
    }
}

/// `get name: default -> type;`, or `get name (arguments) [-> type]` then
/// a body or `;`.
#[verifier::opaque]
pub open spec fn spec_getter(s: Seq<char>, p: int) -> Outcome<GetterModel> {
    let q = p + blank_len(s, p);
    if keyword_at(s, q, "get"@) {
        match spec_method_name(s, q + 3) {
            Outcome::Ok((name, n)) => {
                let q2 = q + 3 + n + blank_len(s, q + 3 + n);
                let q3 = q2 + 1 + blank_len(s, q2 + 1);
                let q4 = q3 + 7 + blank_len(s, q3 + 7);
                if char_at(s, q2, ':') && keyword_at(s, q3, "default"@) {
                    match spec_return_type(s, q4) {
                        Outcome::Ok((ty, k)) => if char_at(s, q4 + k, ';') {
                            Outcome::Ok(
                                (
                                    GetterModel {
                                        name,
                                        args: Seq::empty(),
                                        ty,
                                        block: EncapsulationModel::Default,
                                    },
                                    (q4 + k + 1 - p) as nat,
                                ),
                            )
                        } else {
                            Outcome::Err(false)
                        },
                        Outcome::Err(e) => Outcome::Err(e),
                    }
                } else {
                    match spec_argument_list(s, q2) {
                        Outcome::Ok((args, m)) => match spec_return_type(s, q2 + m) {
                            Outcome::Ok((ty, k)) => {
                                let q5 = q2 + m + k;
                                match spec_optional_block(s, q5) {
                                    Outcome::Ok((body, b)) => {
                                        let g = GetterModel {
                                            name,
                                            args,
                                            ty,
                                            block: encapsulation_of(body),
                                        };
                                        if body.is_some() {
                                            Outcome::Ok((g, (q5 + b - p) as nat))
                                        } else if char_at(s, q5, ';') {
                                            Outcome::Ok((g, (q5 + 1 - p) as nat))
                                        } else {
                                            Outcome::Err(false)
                                        }
                                    },
                                    Outcome::Err(e) => Outcome::Err(e),
                                }
                            },
                            Outcome::Err(e) => Outcome::Err(e),
                        },
                        Outcome::Err(e) => Outcome::Err(e),
                    }
                }
            },
            Outcome::Err(e) => Outcome::Err(e),
        }
    } else {
        Outcome::Err(false)
    }
}

#[verifier::rlimit(100)]
#[verifier::spinoff_prover]
pub fn read_getter<'a>(src: &Source<'a>, lim: usize, p: usize) -> (r: Parsed<NLGetter<'a>>)
    requires
        src.wf(),
        p <= lim <= src.chars@.len(),
    ensures
        agrees(r, p as int, spec_getter(src.window(lim as int), p as int)),
        ends_within(r, lim as int),
{
    proof {
        reveal(spec_getter);
    }
    proof {
        reveal_strlit("get");
        reveal_strlit("default");
    }
    let ghost s = src.window(lim as int);
    let q = blank_end(src, lim, p);
    if !keyword_is(src, lim, q, "get") {
        return Err(fail(false, q, Label::Context("get")));
    }
    let (name, e1) = match read_method_name(src, lim, q + 3) {
        Ok(x) => x,
        Err(f) => {
            return Err(f);
        },
    };
    let q2 = blank_end(src, lim, e1);
    if char_is(src, lim, q2, ':') {
        let q3 = blank_end(src, lim, q2 + 1);
        if keyword_is(src, lim, q3, "default") {
            let q4 = blank_end(src, lim, q3 + 7);
            let (nl_type, e2) = match read_return_type(src, lim, q4) {
                Ok(x) => x,
                Err(f) => {
                    return Err(f);
                },
            };
            if !char_is(src, lim, e2, ';') {
                return Err(fail(false, e2, Label::Char(';')));
            }
            let g = NLGetter {
                name,
                args: Vec::new(),
                nl_type,
                block: NLEncapsulationBlock::Default,
            };
            assert(arguments_view(g.args@) =~= Seq::<BindingModel>::empty());
            return Ok((g, e2 + 1));
        }
    }
    let (args, e2) = match read_argument_declaration_list(src, lim, q2) {
        Ok(x) => x,
        Err(f) => {
            return Err(f);
        },
    };
    let (nl_type, q5) = match read_return_type(src, lim, e2) {
        Ok(x) => x,
        Err(f) => {
            return Err(f);
        },
    };
    let (block, e4) = match read_optional_block(src, lim, q5) {
        Ok(x) => x,
        Err(f) => {
            return Err(f);
        },
    };
    let has_body = block.is_some();
    let g = NLGetter { name, args, nl_type, block: encapsulation(block) };
    if has_body {
        Ok((g, e4))
    } else if char_is(src, lim, q5, ';') {
        Ok((g, q5 + 1))
    } else {
        Err(fail(false, q5, Label::Char(';')))
    }
}

/// `set name: default;`, or `set name (arguments)` then a body or `;`.
#[verifier::opaque]
pub open spec fn spec_setter(s: Seq<char>, p: int) -> Outcome<SetterModel> {
    let q = p + blank_len(s, p);
    if keyword_at(s, q, "set"@) {
        match spec_method_name(s, q + 3) {
            Outcome::Ok((name, n)) => {
                let q2 = q + 3 + n + blank_len(s, q + 3 + n);
                let q3 = q2 + 1 + blank_len(s, q2 + 1);
                let q4 = q3 + 7 + blank_len(s, q3 + 7);
                if char_at(s, q2, ':') && keyword_at(s, q3, "default"@) && char_at(s, q4, ';') {
                    Outcome::Ok(
                        (
                            SetterModel {
                                name,
                                args: Seq::empty(),
                                block: EncapsulationModel::Default,
                            },
                            (q4 + 1 - p) as nat,
                        ),
                    )
                } else {
                    match spec_argument_list(s, q2) {
                        Outcome::Ok((args, m)) => {
                            let q5 = q2 + m + blank_len(s, q2 + m);
                            match spec_optional_block(s, q5) {
                                Outcome::Ok((body, b)) => {
                                    let st = SetterModel { name, args, block: encapsulation_of(body) };
                                    if body.is_some() {
                                        Outcome::Ok((st, (q5 + b - p) as nat))
                                    } else if char_at(s, q5, ';') {
                                        Outcome::Ok((st, (q5 + 1 - p) as nat))
                                    } else {
                                        Outcome::Err(false)
                                    }
                                },
                                Outcome::Err(e) => Outcome::Err(e),
                            }
                        },
                        Outcome::Err(e) => Outcome::Err(e),
                    }
                }
            },
            Outcome::Err(e) => Outcome::Err(e),
        }
    } else {
        Outcome::Err(false)
    }
}

#[verifier::rlimit(100)]
#[verifier::spinoff_prover]
pub fn read_setter<'a>(src: &Source<'a>, lim: usize, p: usize) -> (r: Parsed<NLSetter<'a>>)
    requires
        src.wf(),
        p <= lim <= src.chars@.len(),
    ensures
        agrees(r, p as int, spec_setter(src.window(lim as int), p as int)),
        ends_within(r, lim as int),
{
    proof {
        reveal(spec_setter);
    }
    proof {
        reveal_strlit("set");
        reveal_strlit("default");
    }
    let q = blank_end(src, lim, p);
    if !keyword_is(src, lim, q, "set") {
        return Err(fail(false, q, Label::Context("set")));
    }
    let (name, e1) = match read_method_name(src, lim, q + 3) {
        Ok(x) => x,
        Err(f) => {
            return Err(f);
        },
    };
    let q2 = blank_end(src, lim, e1);
    if char_is(src, lim, q2, ':') {
        let q3 = blank_end(src, lim, q2 + 1);
        if keyword_is(src, lim, q3, "default") {
            let q4 = blank_end(src, lim, q3 + 7);
            if char_is(src, lim, q4, ';') {
                let st = NLSetter { name, args: Vec::new(), block: NLEncapsulationBlock::Default };
                assert(arguments_view(st.args@) =~= Seq::<BindingModel>::empty());
                return Ok((st, q4 + 1));
            }
        }
    }
    let (args, e2) = match read_argument_declaration_list(src, lim, q2) {
        Ok(x) => x,
        Err(f) => {
            return Err(f);
        },
    };
    let q5 = blank_end(src, lim, e2);
    let (block, e4) = match read_optional_block(src, lim, q5) {
        Ok(x) => x,
        Err(f) => {
            return Err(f);
        },
    };
    let has_body = block.is_some();
    let st = NLSetter { name, args, block: encapsulation(block) };
    if has_body {
        Ok((st, e4))
    } else if char_is(src, lim, q5, ';') {
        Ok((st, q5 + 1))
    } else {
        Err(fail(false, q5, Label::Char(';')))
    }
}

/// A method, a getter or a setter, tried in that order.
#[verifier::opaque]
pub open spec fn spec_implementor(s: Seq<char>, p: int) -> Outcome<ImplementorModel> {
    match spec_method(s, p) {
        Outcome::Ok((f, n)) => Outcome::Ok((ImplementorModel::Method(f), n)),
        Outcome::Err(true) => Outcome::Err(true),
        Outcome::Err(false) => match spec_getter(s, p) {
            Outcome::Ok((g, n)) => Outcome::Ok((ImplementorModel::Getter(g), n)),
            Outcome::Err(true) => Outcome::Err(true),
            Outcome::Err(false) => match spec_setter(s, p) {
                Outcome::Ok((st, n)) => Outcome::Ok((ImplementorModel::Setter(st), n)),
                Outcome::Err(e) => Outcome::Err(e),
            },
        },
    }
}

pub fn read_implementor<'a>(src: &Source<'a>, lim: usize, p: usize) -> (r: Parsed<NLImplementor<'a>>)
    requires
        src.wf(),
        p <= lim <= src.chars@.len(),
    ensures
        agrees(r, p as int, spec_implementor(src.window(lim as int), p as int)),
        ends_within(r, lim as int),
{
    proof {
        reveal(spec_implementor);
    }
    match read_method(src, lim, p) {
        Ok((f, e)) => {
            return Ok((NLImplementor::Method(f), e));
        },
        Err(f) => {
            if f.fatal {
                return Err(f);
            }
        },
    }
    match read_getter(src, lim, p) {
        Ok((g, e)) => {
            return Ok((NLImplementor::Getter(g), e));
        },
        Err(f) => {
            if f.fatal {
                return Err(f);
            }
        },
    }
    match read_setter(src, lim, p) {
        Ok((st, e)) => Ok((NLImplementor::Setter(st), e)),
        Err(f) => Err(f),
    }
}

/// Zero or more implementors.
pub open spec fn spec_implementors(s: Seq<char>, p: int) -> Outcome<Seq<ImplementorModel>>
    decreases s.len() - p,
{
    match spec_implementor(s, p) {
        Outcome::Ok((v, n)) => if n > 0 && 0 <= p && p + n <= s.len() {
            prepend(seq![v], n, spec_implementors(s, p + n))
        } else {
            Outcome::Err(false)
        },
        Outcome::Err(true) => Outcome::Err(true),
        Outcome::Err(false) => Outcome::Ok((Seq::empty(), 0)),
    }
}

fn read_implementors<'a>(src: &Source<'a>, lim: usize, p: usize) -> (r: Parsed<Vec<NLImplementor<'a>>>)
    requires
        src.wf(),
        p <= lim <= src.chars@.len(),
    ensures
        agrees_by(r, p as int, spec_implementors(src.window(lim as int), p as int),
            |v: Vec<NLImplementor<'a>>| implementors_view(v@)),
        ends_within(r, lim as int),
{
    let ghost s = src.window(lim as int);
    let mut acc: Vec<NLImplementor<'a>> = Vec::new();
    let mut i = p;
    loop
        invariant
            src.wf(),
            p <= i <= lim <= src.chars@.len(),
            s == src.window(lim as int),
            spec_implementors(s, p as int) == prepend(implementors_view(acc@), (i - p) as nat,
                spec_implementors(s, i as int)),
        decreases lim - i,
    {
        proof {
            lemma_prepend_empty(implementors_view(acc@), (i - p) as nat);
        }
        match read_implementor(src, lim, i) {
            Ok((v, e)) => {
                if e == i {
                    return Err(fail(false, i, Label::Context("member that reads nothing")));
                }
                proof {
                    lemma_prepend_push(implementors_view(acc@), (i - p) as nat, v@, (e - i) as nat,
                        spec_implementors(s, e as int));
                }
                let ghost before = implementors_view(acc@);
                acc.push(v);
                assert(implementors_view(acc@) =~= before.push(acc@[acc@.len() - 1]@));
                i = e;
            },
            Err(f) => {
                if f.fatal {
                    return Err(f);
                }
                return Ok((acc, i));
            },
        }
    }
}

/// `trait Name { implementors }`.
pub open spec fn spec_trait(s: Seq<char>, p: int) -> Outcome<InterfaceModel> {
    let q = p + blank_len(s, p);
    if keyword_at(s, q, "trait"@) {
        let q1 = q + 5 + blank_len(s, q + 5);
        match spec_struct_or_trait_name(s, q1) {
            Outcome::Ok((name, n)) => {
                let q2 = q1 + n + blank_len(s, q1 + n);
                if char_at(s, q2, '{') {
                    let q3 = q2 + 1 + blank_len(s, q2 + 1);
                    match spec_implementors(s, q3) {
                        Outcome::Ok((implementors, m)) => {
                            let q4 = q3 + m + blank_len(s, q3 + m);
                            if char_at(s, q4, '}') {
                                Outcome::Ok((InterfaceModel { name, implementors }, (q4 + 1 - p) as nat))
                            } else {
                                Outcome::Err(false)
                            }
                        },
                        Outcome::Err(e) => Outcome::Err(e),
                    }
                } else {
                    Outcome::Err(false)
                }
            },
            Outcome::Err(e) => Outcome::Err(e),
        }
    } else {
        Outcome::Err(false)
    }
}

#[verifier::rlimit(100)]
#[verifier::spinoff_prover]
pub fn read_trait<'a>(src: &Source<'a>, lim: usize, p: usize) -> (r: Parsed<NLTrait<'a>>)
    requires
        src.wf(),
        p <= lim <= src.chars@.len(),
    ensures
        agrees(r, p as int, spec_trait(src.window(lim as int), p as int)),
        ends_within(r, lim as int),
{
    proof {
        reveal_strlit("trait");
    }
    let q = blank_end(src, lim, p);
    if !keyword_is(src, lim, q, "trait") {
        return Err(fail(false, q, Label::Context("trait")));
    }
    let q1 = blank_end(src, lim, q + 5);
    let (name, e1) = match read_struct_or_trait_name(src, lim, q1) {
        Ok(x) => x,
        Err(f) => {
            return Err(within_context(f, q, "trait"));
        },
    };
    let q2 = blank_end(src, lim, e1);
    if !char_is(src, lim, q2, '{') {
        return Err(within_context(fail(false, q2, Label::Char('{')), q, "trait"));
    }
    let q3 = blank_end(src, lim, q2 + 1);
    let (implementors, e2) = match read_implementors(src, lim, q3) {
        Ok(x) => x,
        Err(f) => {
            return Err(within_context(f, q, "trait"));
        },
    };
    let q4 = blank_end(src, lim, e2);
    if !char_is(src, lim, q4, '}') {
        return Err(within_context(fail(false, q4, Label::Char('}')), q, "trait"));
    }
    Ok((NLTrait { name, implementors }, q4 + 1))
}

/// `impl Name { implementors }`.
pub open spec fn spec_implementation(s: Seq<char>, p: int) -> Outcome<InterfaceModel> {
    let q = p + blank_len(s, p);
    if keyword_at(s, q, "impl"@) {
        match spec_struct_or_trait_name(s, q + 4) {
            Outcome::Ok((name, n)) => {
                let q2 = q + 4 + n;
                if char_at(s, q2, '{') {
                    let q3 = q2 + 1 + blank_len(s, q2 + 1);
                    match spec_implementors(s, q3) {
                        Outcome::Ok((implementors, m)) => {
                            let q4 = q3 + m + blank_len(s, q3 + m);
                            if char_at(s, q4, '}') {
                                Outcome::Ok((InterfaceModel { name, implementors }, (q4 + 1 - p) as nat))
                            } else {
                                Outcome::Err(false)
                            }
                        },
                        Outcome::Err(e) => Outcome::Err(e),
                    }
                } else {
                    Outcome::Err(false)
                }
            },
            Outcome::Err(e) => Outcome::Err(e),
        }
    } else {
        Outcome::Err(false)
    }
}

#[verifier::rlimit(100)]
#[verifier::spinoff_prover]
pub fn read_implementation<'a>(src: &Source<'a>, lim: usize, p: usize) -> (r: Parsed<NLImplementation<'a>>)
    requires
        src.wf(),
        p <= lim <= src.chars@.len(),
    ensures
        agrees(r, p as int, spec_implementation(src.window(lim as int), p as int)),
        ends_within(r, lim as int),
{
    proof {
        reveal_strlit("impl");
    }
    let q = blank_end(src, lim, p);
    if !keyword_is(src, lim, q, "impl") {
        return Err(fail(false, q, Label::Context("impl")));
    }
    let (name, q2) = match read_struct_or_trait_name(src, lim, q + 4) {
        Ok(x) => x,
        Err(f) => {
            return Err(within_context(f, q, "implementation"));
        },
    };
    if !char_is(src, lim, q2, '{') {
        return Err(within_context(fail(false, q2, Label::Char('{')), q, "implementation"));
    }
    let q3 = blank_end(src, lim, q2 + 1);
    let (implementors, e2) = match read_implementors(src, lim, q3) {
        Ok(x) => x,
        Err(f) => {
            return Err(within_context(f, q, "implementation"));
        },
    };
    let q4 = blank_end(src, lim, e2);
    if !char_is(src, lim, q4, '}') {
        return Err(within_context(fail(false, q4, Label::Char('}')), q, "implementation"));
    }
    Ok((NLImplementation { name, implementors }, q4 + 1))
}

/// Zero or more implementation blocks.
pub open spec fn spec_implementations(s: Seq<char>, p: int) -> Outcome<Seq<InterfaceModel>>
    decreases s.len() - p,
{
    match spec_implementation(s, p) {
        Outcome::Ok((v, n)) => if n > 0 && 0 <= p && p + n <= s.len() {
            prepend(seq![v], n, spec_implementations(s, p + n))
        } else {
            Outcome::Err(false)
        },
        Outcome::Err(true) => Outcome::Err(true),
        Outcome::Err(false) => Outcome::Ok((Seq::empty(), 0)),
    }
}

fn read_implementations<'a>(src: &Source<'a>, lim: usize, p: usize) -> (r: Parsed<Vec<NLImplementation<'a>>>)
    requires
        src.wf(),
        p <= lim <= src.chars@.len(),
    ensures
        agrees_by(r, p as int, spec_implementations(src.window(lim as int), p as int),
            |v: Vec<NLImplementation<'a>>| implementations_view(v@)),
        ends_within(r, lim as int),
{
    let ghost s = src.window(lim as int);
    let mut acc: Vec<NLImplementation<'a>> = Vec::new();
    let mut i = p;
    loop
        invariant
            src.wf(),
            p <= i <= lim <= src.chars@.len(),
            s == src.window(lim as int),
            spec_implementations(s, p as int) == prepend(implementations_view(acc@), (i - p) as nat,
                spec_implementations(s, i as int)),
        decreases lim - i,
    {
        proof {
            lemma_prepend_empty(implementations_view(acc@), (i - p) as nat);
        }
        match read_implementation(src, lim, i) {
            Ok((v, e)) => {
                if e == i {
                    return Err(fail(false, i, Label::Context("implementation that reads nothing")));
                }
                proof {
                    lemma_prepend_push(implementations_view(acc@), (i - p) as nat, v@, (e - i) as nat,
                        spec_implementations(s, e as int));
                }
                let ghost before = implementations_view(acc@);
                acc.push(v);
                assert(implementations_view(acc@) =~= before.push(acc@[acc@.len() - 1]@));
                i = e;
            },
            Err(f) => {
                if f.fatal {
                    return Err(f);
                }
                return Ok((acc, i));
            },
        }
    }
}

/// A field: `name: type`.
pub open spec fn spec_struct_variable(s: Seq<char>, p: int) -> Outcome<BindingModel> {
    let q = p + blank_len(s, p);
    match spec_variable_name(s, q) {
        Outcome::Ok((name, n)) => {
            let q2 = q + n + blank_len(s, q + n);
            if char_at(s, q2, ':') {
                let q3 = q2 + 1 + blank_len(s, q2 + 1);
                match spec_variable_type(s, q3) {
                    Outcome::Ok((ty, m)) => Outcome::Ok((BindingModel { name, ty }, (q3 + m - p) as nat)),
                    Outcome::Err(e) => Outcome::Err(e),
                }
            } else {
                Outcome::Err(false)
            }
        },
        Outcome::Err(e) => Outcome::Err(e),
    }
}

pub fn read_struct_variable<'a>(src: &Source<'a>, lim: usize, p: usize) -> (r: Parsed<NLStructVariable<'a>>)
    requires
        src.wf(),
        p <= lim <= src.chars@.len(),
    ensures
        agrees(r, p as int, spec_struct_variable(src.window(lim as int), p as int)),
        ends_within(r, lim as int),
{
    let q = blank_end(src, lim, p);
    let (name, e) = match read_variable_name(src, lim, q) {
        Ok(x) => x,
        Err(f) => {
            return Err(f);
        },
    };
    let q2 = blank_end(src, lim, e);
    if !char_is(src, lim, q2, ':') {
        return Err(fail(false, q2, Label::Char(':')));
    }
    let q3 = blank_end(src, lim, q2 + 1);
    match read_variable_type(src, lim, q3) {
        Ok((my_type, e2)) => Ok((NLStructVariable { name, my_type }, e2)),
        Err(f) => Err(f),
    }
}

/// Fields each followed by blank and `,`.
pub open spec fn spec_separated_fields(s: Seq<char>, p: int) -> Outcome<Seq<BindingModel>>
    decreases s.len() - p,
{
    match spec_struct_variable(s, p) {
        Outcome::Ok((v, n)) => {
            let q = p + n + blank_len(s, p + n);
            if char_at(s, q, ',') && 0 <= p {
                prepend(seq![v], (q + 1 - p) as nat, spec_separated_fields(s, q + 1))
            } else {
                Outcome::Ok((Seq::empty(), 0))
            }
        },
        Outcome::Err(true) => Outcome::Err(true),
        Outcome::Err(false) => Outcome::Ok((Seq::empty(), 0)),
    }
}

fn read_separated_fields<'a>(src: &Source<'a>, lim: usize, p: usize) -> (r: Parsed<Vec<NLStructVariable<'a>>>)
    requires
        src.wf(),
        p <= lim <= src.chars@.len(),
    ensures
        agrees_by(r, p as int, spec_separated_fields(src.window(lim as int), p as int),
            |v: Vec<NLStructVariable<'a>>| fields_view(v@)),
        ends_within(r, lim as int),
{
    let ghost s = src.window(lim as int);
    let mut acc: Vec<NLStructVariable<'a>> = Vec::new();
    let mut i = p;
    loop
        invariant
            src.wf(),
            p <= i <= lim <= src.chars@.len(),
            s == src.window(lim as int),
            spec_separated_fields(s, p as int) == prepend(fields_view(acc@), (i - p) as nat,
                spec_separated_fields(s, i as int)),
        decreases lim - i,
    {
        proof {
            lemma_prepend_empty(fields_view(acc@), (i - p) as nat);
        }
        match read_struct_variable(src, lim, i) {
            Ok((v, e)) => {
                let q = blank_end(src, lim, e);
                if !char_is(src, lim, q, ',') {
                    return Ok((acc, i));
                }
                proof {
                    lemma_prepend_push(fields_view(acc@), (i - p) as nat, v@, (q + 1 - i) as nat,
                        spec_separated_fields(s, q + 1));
                }
                let ghost before = fields_view(acc@);
                acc.push(v);
                assert(fields_view(acc@) =~= before.push(acc@[acc@.len() - 1]@));
                i = q + 1;
            },
            Err(f) => {
                if f.fatal {
                    return Err(f);
                }
                return Ok((acc, i));
            },
        }
    }
}

/// The fields of a struct body: separated fields, then an optional last
/// one without a comma.
pub open spec fn spec_field_list(s: Seq<char>, p: int) -> Outcome<Seq<BindingModel>> {
    match spec_separated_fields(s, p) {
        Outcome::Ok((fields, m)) => {
            let q = p + m + blank_len(s, p + m);
            match spec_struct_variable(s, q) {
                Outcome::Ok((v, k)) => Outcome::Ok((fields.push(v), (q + k - p) as nat)),
                Outcome::Err(true) => Outcome::Err(true),
                Outcome::Err(false) => Outcome::Ok((fields, (q - p) as nat)),
            }
        },
        Outcome::Err(e) => Outcome::Err(e),
    }
}

pub fn read_field_list<'a>(src: &Source<'a>, lim: usize, p: usize) -> (r: Parsed<Vec<NLStructVariable<'a>>>)
    requires
        src.wf(),
        p <= lim <= src.chars@.len(),
    ensures
        agrees_by(r, p as int, spec_field_list(src.window(lim as int), p as int),
            |v: Vec<NLStructVariable<'a>>| fields_view(v@)),
        ends_within(r, lim as int),
{
    let (mut variables, e) = match read_separated_fields(src, lim, p) {
        Ok(x) => x,
        Err(f) => {
            return Err(f);
        },
    };
    let q = blank_end(src, lim, e);
    match read_struct_variable(src, lim, q) {
        Ok((v, k)) => {
            let ghost before = fields_view(variables@);
            variables.push(v);
            assert(fields_view(variables@) =~= before.push(variables@[variables@.len() - 1]@));
            Ok((variables, k))
        },
        Err(f) => {
            if f.fatal {
                Err(f)
            } else {
                Ok((variables, q))
            }
        },
    }
}

/// `struct Name { fields }` followed by its implementation blocks.
#[verifier::opaque]
pub open spec fn spec_struct(s: Seq<char>, p: int) -> Outcome<StructModel> {
    let q = p + blank_len(s, p);
    if keyword_at(s, q, "struct"@) {
        let q1 = q + 6 + blank_len(s, q + 6);
        match spec_struct_or_trait_name(s, q1) {
            Outcome::Ok((name, n)) => {
                let q2 = q1 + n + blank_len(s, q1 + n);
                if char_at(s, q2, '{') {
                    let q3 = q2 + 1 + blank_len(s, q2 + 1);
                    match spec_field_list(s, q3) {
                        Outcome::Ok((all, m)) => {
                            let q6 = q3 + m + blank_len(s, q3 + m);
                            if char_at(s, q6, '}') {
                                match spec_implementations(s, q6 + 1) {
                                    Outcome::Ok((implementations, j)) => Outcome::Ok(
                                        (
                                            StructModel { name, fields: all, implementations },
                                            (q6 + 1 + j - p) as nat,
                                        ),
                                    ),
                                    Outcome::Err(e) => Outcome::Err(e),
                                }
                            } else {
                                Outcome::Err(false)
                            }
                        },
                        Outcome::Err(e) => Outcome::Err(e),
                    }
                } else {
                    Outcome::Err(false)
                }
            },
            Outcome::Err(e) => Outcome::Err(e),
        }
    } else {
        Outcome::Err(false)
    }
}

#[verifier::rlimit(100)]
#[verifier::spinoff_prover]
pub fn read_struct<'a>(src: &Source<'a>, lim: usize, p: usize) -> (r: Parsed<NLStruct<'a>>)
    requires
        src.wf(),
        p <= lim <= src.chars@.len(),
    ensures
        agrees(r, p as int, spec_struct(src.window(lim as int), p as int)),
        ends_within(r, lim as int),
{
    proof {
        reveal(spec_struct);
        reveal_strlit("struct");
    }
    let q = blank_end(src, lim, p);
    if !keyword_is(src, lim, q, "struct") {
        return Err(fail(false, q, Label::Context("struct")));
    }
    let q1 = blank_end(src, lim, q + 6);
    let (name, e1) = match read_struct_or_trait_name(src, lim, q1) {
        Ok(x) => x,
        Err(f) => {
            return Err(within_context(f, q, "struct"));
        },
    };
    let q2 = blank_end(src, lim, e1);
    if !char_is(src, lim, q2, '{') {
        return Err(within_context(fail(false, q2, Label::Char('{')), q, "struct"));
    }
    let q3 = blank_end(src, lim, q2 + 1);
    let (variables, q5) = match read_field_list(src, lim, q3) {
        Ok(x) => x,
        Err(f) => {
            return Err(within_context(f, q, "struct"));
        },
    };
    let q6 = blank_end(src, lim, q5);
    if !char_is(src, lim, q6, '}') {
        return Err(within_context(fail(false, q6, Label::Char('}')), q, "struct"));
    }
    match read_implementations(src, lim, q6 + 1) {
        Ok((implementations, e3)) => Ok((NLStruct { name, variables, implementations }, e3)),
        Err(f) => Err(within_context(f, q, "struct")),
    }
}

/// A struct, a trait or a free function, tried in that order.
pub open spec fn spec_root_declaration(s: Seq<char>, p: int) -> Outcome<RootModel> {
    match spec_struct(s, p) {
        Outcome::Ok((v, n)) => Outcome::Ok((RootModel::Struct(v), n)),
        Outcome::Err(true) => Outcome::Err(true),
        Outcome::Err(false) => match spec_trait(s, p) {
            Outcome::Ok((v, n)) => Outcome::Ok((RootModel::Trait(v), n)),
            Outcome::Err(true) => Outcome::Err(true),
            Outcome::Err(false) => match spec_function(s, p) {
                Outcome::Ok((v, n)) => Outcome::Ok((RootModel::Function(v), n)),
                Outcome::Err(e) => Outcome::Err(e),
            },
        },
    }
}

pub fn read_root_declaration<'a>(src: &Source<'a>, lim: usize, p: usize) -> (r: Parsed<RootDeclaration<'a>>)
    requires
        src.wf(),
        p <= lim <= src.chars@.len(),
    ensures
        agrees(r, p as int, spec_root_declaration(src.window(lim as int), p as int)),
        ends_within(r, lim as int),
{
    match read_struct(src, lim, p) {
        Ok((v, e)) => {
            return Ok((RootDeclaration::Struct(v), e));
        },
        Err(f) => {
            if f.fatal {
                return Err(f);
            }
        },
    }
    match read_trait(src, lim, p) {
        Ok((v, e)) => {
            return Ok((RootDeclaration::Trait(v), e));
        },
        Err(f) => {
            if f.fatal {
                return Err(f);
            }
        },
    }
    match read_function(src, lim, p) {
        Ok((v, e)) => Ok((RootDeclaration::Function(v), e)),
        Err(f) => Err(f),
    }
}

} // verus!
