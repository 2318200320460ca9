//! Type references: the primitive keywords, and struct or trait names with
//! their ownership marks (`&`, `&mut`, `dyn`).
use crate::ast::{NLType, TypeModel};
use crate::lexer::{
    blank_end, blank_len, char_at, char_is, fail, run_end, run_len, spec_struct_or_trait_name,
    read_struct_or_trait_name, starts_with, tag_at, keyword_at, keyword_is, agrees, ends_within, CharClass, Label, Outcome, Parsed,
    Source,
};
use vstd::prelude::*;

verus! {

/// The primitive type a whole token names, if it is a keyword.
pub open spec fn keyword_type(tok: Seq<char>) -> Option<TypeModel> {
    if tok == "i8"@ {
        Option::Some(TypeModel::I8)
    } else if tok == "i16"@ {
        Option::Some(TypeModel::I16)
    } else if tok == "i32"@ {
        Option::Some(TypeModel::I32)
    } else if tok == "i64"@ {
        Option::Some(TypeModel::I64)
    } else if tok == "u8"@ {
        Option::Some(TypeModel::U8)
    } else if tok == "u16"@ {
        Option::Some(TypeModel::U16)
    } else if tok == "u32"@ {
        Option::Some(TypeModel::U32)
    } else if tok == "u64"@ {
        Option::Some(TypeModel::U64)
    } else if tok == "f32"@ {
        Option::Some(TypeModel::F32)
    } else if tok == "f64"@ {
        Option::Some(TypeModel::F64)
    } else if tok == "bool"@ {
        Option::Some(TypeModel::Boolean)
    } else if tok == "str"@ {
        Option::Some(TypeModel::OwnedString)
    } else {
        Option::None
    }
}

/// Whether the characters in `[q, e)` are exactly `kw`.
pub fn token_is(src: &Source, lim: usize, q: usize, e: usize, kw: &str) -> (r: bool)
    requires
        src.wf(),
        q <= e <= lim <= src.chars@.len(),
    ensures
        r == (src.window(lim as int).subrange(q as int, e as int) == kw@),
{
    let ghost s = src.window(lim as int);
    if e - q != kw.unicode_len() {
        assert(s.subrange(q as int, e as int).len() != kw@.len());
        return false;
    }
    let r = tag_at(src, lim, q, kw);
    r
}

fn primitive_keyword_at<'a>(src: &Source<'a>, lim: usize, q: usize, e: usize) -> (r: Option<NLType<'a>>)
    requires
        src.wf(),
        q <= e <= lim <= src.chars@.len(),
    ensures
        match keyword_type(src.window(lim as int).subrange(q as int, e as int)) {
            Option::Some(t) => r matches Option::Some(x) && x@ == t,
            Option::None => r is None,
        },
{
    if token_is(src, lim, q, e, "i8") {
        Some(NLType::I8)
    } else if token_is(src, lim, q, e, "i16") {
        Some(NLType::I16)
    } else if token_is(src, lim, q, e, "i32") {
        Some(NLType::I32)
    } else if token_is(src, lim, q, e, "i64") {
        Some(NLType::I64)
    } else if token_is(src, lim, q, e, "u8") {
        Some(NLType::U8)
    } else if token_is(src, lim, q, e, "u16") {
        Some(NLType::U16)
    } else if token_is(src, lim, q, e, "u32") {
        Some(NLType::U32)
    } else if token_is(src, lim, q, e, "u64") {
        Some(NLType::U64)
    } else if token_is(src, lim, q, e, "f32") {
        Some(NLType::F32)
    } else if token_is(src, lim, q, e, "f64") {
        Some(NLType::F64)
    } else if token_is(src, lim, q, e, "bool") {
        Some(NLType::Boolean)
    } else if token_is(src, lim, q, e, "str") {
        Some(NLType::OwnedString)
    } else {
        None
    }
}

/// The model of a struct or trait reference named `name`.
pub open spec fn struct_or_trait_model(is_trait: bool, is_ref: bool, is_mut: bool, name: Seq<char>) -> TypeModel {
    if !is_trait {
        if is_ref {
            if is_mut {
                TypeModel::MutableReferencedStruct(name)
            } else {
                TypeModel::ReferencedStruct(name)
            }
        } else {
            TypeModel::OwnedStruct(name)
        }
    } else {
        if is_ref {
            if is_mut {
                TypeModel::MutableReferencedTrait(name)
            } else {
                TypeModel::ReferencedTrait(name)
            }
        } else {
            TypeModel::OwnedTrait(name)
        }
    }
}

/// `[&] [mut] [dyn] Name`: `mut` is looked for only after `&`, and `dyn`
/// selects the trait forms.
pub open spec fn spec_struct_or_trait_type(s: Seq<char>, p: int) -> Outcome<TypeModel> {
    let is_ref = char_at(s, p, '&');
    let q1 = if is_ref { p + 1 } else { p };
    let q2 = q1 + blank_len(s, q1);
    let is_mut = is_ref && keyword_at(s, q2, "mut"@);
    let q3 = if is_ref {
        let m = if is_mut { q2 + 3 } else { q2 };
        m + blank_len(s, m)
    } else {
        q2
    };
    let is_trait = keyword_at(s, q3, "dyn"@);
    let q4 = if is_trait { q3 + 3 } else { q3 };
    match spec_struct_or_trait_name(s, q4) {
        Outcome::Ok((name, n)) => Outcome::Ok(
            (struct_or_trait_model(is_trait, is_ref, is_mut, name), (q4 + n - p) as nat),
        ),
        Outcome::Err(f) => Outcome::Err(f),
    }
}

fn make_struct_or_trait<'a>(is_trait: bool, is_ref: bool, is_mut: bool, name: &'a str) -> (r: NLType<'a>)
    ensures
        r@ == struct_or_trait_model(is_trait, is_ref, is_mut, name@),
{
    if !is_trait {
        if is_ref {
            if is_mut {
                NLType::MutableReferencedStruct(name)
            } else {
                NLType::ReferencedStruct(name)
            }
        } else {
            NLType::OwnedStruct(name)
        }
    } else {
        if is_ref {
            if is_mut {
                NLType::MutableReferencedTrait(name)
            } else {
                NLType::ReferencedTrait(name)
            }
        } else {
            NLType::OwnedTrait(name)
        }
    }
}

pub fn identify_struct_or_trait_type<'a>(src: &Source<'a>, lim: usize, p: usize) -> (r: Parsed<NLType<'a>>)
    requires
        src.wf(),
        p <= lim <= src.chars@.len(),
    ensures
        agrees(r, p as int, spec_struct_or_trait_type(src.window(lim as int), p as int)),
        ends_within(r, lim as int),
{
    let ghost s = src.window(lim as int);
    proof {
        reveal_strlit("mut");
        reveal_strlit("dyn");
    }
    let is_ref = char_is(src, lim, p, '&');
    let q1 = if is_ref { p + 1 } else { p };
    let q2 = blank_end(src, lim, q1);
    let is_mut = is_ref && keyword_is(src, lim, q2, "mut");
    let q3 = if is_ref {
        let m = if is_mut { q2 + 3 } else { q2 };
        blank_end(src, lim, m)
    } else {
        q2
    };
    let is_trait = keyword_is(src, lim, q3, "dyn");
    let q4 = if is_trait { q3 + 3 } else { q3 };
    match read_struct_or_trait_name(src, lim, q4) {
        Ok((name, e)) => Ok((make_struct_or_trait(is_trait, is_ref, is_mut, name), e)),
        Err(f) => Err(f),
    }
}

/// A type: blank, then a primitive keyword token, or a struct or trait
/// reference read from the start of that token.
pub open spec fn spec_variable_type(s: Seq<char>, p: int) -> Outcome<TypeModel> {
    let q = p + blank_len(s, p);
    let n = run_len(s, q, CharClass::AlphaNumeric);
    match keyword_type(s.subrange(q, q + n)) {
        Option::Some(t) => Outcome::Ok((t, (q + n - p) as nat)),
        Option::None => match spec_struct_or_trait_type(s, q) {
            Outcome::Ok((t, m)) => Outcome::Ok((t, (q + m - p) as nat)),
            Outcome::Err(f) => Outcome::Err(f),
        },
    }
}

pub fn read_variable_type<'a>(src: &Source<'a>, lim: usize, p: usize) -> (r: Parsed<NLType<'a>>)
    requires
        src.wf(),
        p <= lim <= src.chars@.len(),
    ensures
        agrees(r, p as int, spec_variable_type(src.window(lim as int), p as int)),
        ends_within(r, lim as int),
{
    let q = blank_end(src, lim, p);
    let e = run_end(src, lim, q, CharClass::AlphaNumeric);
    match primitive_keyword_at(src, lim, q, e) {
        Some(t) => Ok((t, e)),
        None => identify_struct_or_trait_type(src, lim, q),
    }
}

/// `as <type>`, with blank before and after `as`.
pub open spec fn spec_cast(s: Seq<char>, p: int) -> Outcome<TypeModel> {
    let q = p + blank_len(s, p);
    if keyword_at(s, q, "as"@) {
        let q2 = q + 2 + blank_len(s, q + 2);
        match spec_variable_type(s, q2) {
            Outcome::Ok((t, n)) => Outcome::Ok((t, (q2 + n - p) as nat)),
            Outcome::Err(f) => Outcome::Err(f),
        }
    } else {
        Outcome::Err(false)
    }
}

pub fn read_cast<'a>(src: &Source<'a>, lim: usize, p: usize) -> (r: Parsed<NLType<'a>>)
    requires
        src.wf(),
        p <= lim <= src.chars@.len(),
    ensures
        agrees(r, p as int, spec_cast(src.window(lim as int), p as int)),
        ends_within(r, lim as int),
{
    proof {
        reveal_strlit("as");
    }
    let q = blank_end(src, lim, p);
    if keyword_is(src, lim, q, "as") {
        let q2 = blank_end(src, lim, q + 2);
        read_variable_type(src, lim, q2)
    } else {
        Err(fail(false, q, Label::Context("cast")))
    }
}

} // verus!
