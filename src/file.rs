//! File assembly: top-level declarations bucketed by kind, the whole buffer
//! consumed, and failures rendered into one diagnostic message.
use crate::ast::{
    NLOperation, NLType, FunctionModel, InterfaceModel, NLFunction, NLStruct, NLTrait, RootDeclaration, RootModel,
    StructModel,
};
use crate::decl::{read_root_declaration, spec_root_declaration};
use crate::expr::{read_operation, spec_operation};
use crate::types::{read_variable_type, spec_variable_type};
use crate::expr::{lemma_prepend_empty, lemma_prepend_push, prepend};
use crate::lexer::{blank_end, blank_len, fail, Failure, Frame, Label, Outcome, Source};
use vstd::prelude::*;

verus! {

/// Zero or more top-level declarations.
pub open spec fn spec_roots(s: Seq<char>, p: int) -> Outcome<Seq<RootModel>>
    decreases s.len() - p,
{
    match spec_root_declaration(s, p) {
        Outcome::Ok((v, n)) => if n > 0 && 0 <= p && p + n <= s.len() {
            prepend(seq![v], n, spec_roots(s, p + n))
        } else {
            Outcome::Err(false)
        },
        Outcome::Err(true) => Outcome::Err(true),
        Outcome::Err(false) => Outcome::Ok((Seq::empty(), 0)),
    }
}

/// The declarations of a whole buffer, if it is well formed: none for the
/// empty buffer; else one or more, followed only by blank.
pub open spec fn spec_declarations(s: Seq<char>) -> Option<Seq<RootModel>> {
    if s.len() == 0 {
        Option::Some(Seq::empty())
    } else {
        match spec_root_declaration(s, 0) {
            Outcome::Ok((v, n)) => if n > 0 && n <= s.len() {
                match spec_roots(s, n as int) {
                    Outcome::Ok((vs, m)) => if n + m + blank_len(s, (n + m) as int) == s.len() {
                        Option::Some(seq![v] + vs)
                    } else {
                        Option::None
                    },
                    Outcome::Err(_) => Option::None,
                }
            } else {
                Option::None
            },
            Outcome::Err(_) => Option::None,
        }
    }
}

/// The structs among `roots`, in order.
pub open spec fn structs_of(roots: Seq<RootModel>) -> Seq<StructModel>
    decreases roots.len(),
{
    if roots.len() == 0 {
        Seq::empty()
    } else {
        structs_of(roots.drop_last()) + match roots.last() {
            RootModel::Struct(v) => seq![v],
            _ => Seq::empty(),
        }
    }
}

/// The traits among `roots`, in order.
pub open spec fn traits_of(roots: Seq<RootModel>) -> Seq<InterfaceModel>
    decreases roots.len(),
{
    if roots.len() == 0 {
        Seq::empty()
    } else {
        traits_of(roots.drop_last()) + match roots.last() {
            RootModel::Trait(v) => seq![v],
            _ => Seq::empty(),
        }
    }
}

/// The free functions among `roots`, in order.
pub open spec fn functions_of(roots: Seq<RootModel>) -> Seq<FunctionModel>
    decreases roots.len(),
{
    if roots.len() == 0 {
        Seq::empty()
    } else {
        functions_of(roots.drop_last()) + match roots.last() {
            RootModel::Function(v) => seq![v],
            _ => Seq::empty(),
        }
    }
}

/// Model of [`NLFile`].
pub struct FileModel {
    pub name: Seq<char>,
    pub structs: Seq<StructModel>,
    pub traits: Seq<InterfaceModel>,
    pub functions: Seq<FunctionModel>,
}

/// The file named `name` that holds `roots`.
pub open spec fn file_model(name: Seq<char>, roots: Seq<RootModel>) -> FileModel {
    FileModel {
        name,
        structs: structs_of(roots),
        traits: traits_of(roots),
        functions: functions_of(roots),
    }
}

pub open spec fn structs_view<'a>(v: Seq<NLStruct<'a>>) -> Seq<StructModel> {
    Seq::new(v.len(), |i: int| v[i]@)
}

pub open spec fn traits_view<'a>(v: Seq<NLTrait<'a>>) -> Seq<InterfaceModel> {
    Seq::new(v.len(), |i: int| v[i]@)
}

pub open spec fn functions_view<'a>(v: Seq<NLFunction<'a>>) -> Seq<FunctionModel> {
    Seq::new(v.len(), |i: int| v[i]@)
}

/// A parsed source file.
pub struct NLFile<'a> {
    pub name: String,
    pub structs: Vec<NLStruct<'a>>,
    pub traits: Vec<NLTrait<'a>>,
    pub functions: Vec<NLFunction<'a>>,
}

impl<'a> View for NLFile<'a> {
    type V = FileModel;

    open spec fn view(&self) -> FileModel {
        FileModel {
            name: self.name@,
            structs: structs_view(self.structs@),
            traits: traits_view(self.traits@),
            functions: functions_view(self.functions@),
        }
    }
}

impl<'a> NLFile<'a> {
    pub fn get_name(&self) -> (r: &str)
        ensures
            r@ == self@.name,
    {
        self.name.as_str()
    }

    pub fn get_structs(&self) -> (r: &Vec<NLStruct<'a>>)
        ensures
            structs_view(r@) == self@.structs,
    {
        &self.structs
    }

    pub fn get_traits(&self) -> (r: &Vec<NLTrait<'a>>)
        ensures
            traits_view(r@) == self@.traits,
    {
        &self.traits
    }

    pub fn get_functions(&self) -> (r: &Vec<NLFunction<'a>>)
        ensures
            functions_view(r@) == self@.functions,
    {
        &self.functions
    }
}

/// Appends a declaration to the bucket of its kind.
fn bucket<'a>(file: &mut NLFile<'a>, root: RootDeclaration<'a>)
    ensures
        final(file)@.name == old(file)@.name,
        final(file)@.structs == old(file)@.structs + match root@ {
            RootModel::Struct(v) => seq![v],
            _ => Seq::empty(),
        },
        final(file)@.traits == old(file)@.traits + match root@ {
            RootModel::Trait(v) => seq![v],
            _ => Seq::empty(),
        },
        final(file)@.functions == old(file)@.functions + match root@ {
            RootModel::Function(v) => seq![v],
            _ => Seq::empty(),
        },
{
    match root {
        RootDeclaration::Struct(v) => {
            file.structs.push(v);
        },
        RootDeclaration::Trait(v) => {
            file.traits.push(v);
        },
        RootDeclaration::Function(v) => {
            file.functions.push(v);
        },
    }
    assert(final(file)@.structs =~= old(file)@.structs + match root@ {
        RootModel::Struct(v) => seq![v],
        _ => Seq::empty(),
    });
    assert(final(file)@.traits =~= old(file)@.traits + match root@ {
        RootModel::Trait(v) => seq![v],
        _ => Seq::empty(),
    });
    assert(final(file)@.functions =~= old(file)@.functions + match root@ {
        RootModel::Function(v) => seq![v],
        _ => Seq::empty(),
    });
}

proof fn lemma_buckets_push(roots: Seq<RootModel>, v: RootModel)
    ensures
        structs_of(roots.push(v)) == structs_of(roots) + match v {
            RootModel::Struct(x) => seq![x],
            _ => Seq::empty(),
        },
        traits_of(roots.push(v)) == traits_of(roots) + match v {
            RootModel::Trait(x) => seq![x],
            _ => Seq::empty(),
        },
        functions_of(roots.push(v)) == functions_of(roots) + match v {
            RootModel::Function(x) => seq![x],
            _ => Seq::empty(),
        },
{
    assert(roots.push(v).drop_last() =~= roots);
}

/// Parses a whole buffer into a file with an empty name.
pub fn parse_file_root<'a>(src: &Source<'a>) -> (r: Result<NLFile<'a>, Failure>)
    requires
        src.wf(),
    ensures
        match spec_declarations(src.chars@) {
            Option::Some(roots) => r matches Ok(f) && f@ == file_model(Seq::empty(), roots),
            Option::None => r matches Err(fl) && fl.frames@.len() > 0,
        },
{
    let n = src.chars.len();
    let ghost s = src.window(n as int);
    assert(s =~= src.chars@);
    let mut file = NLFile {
        name: String::new(),
        structs: Vec::new(),
        traits: Vec::new(),
        functions: Vec::new(),
    };
    assert(file@.structs =~= Seq::<StructModel>::empty());
    assert(file@.traits =~= Seq::<InterfaceModel>::empty());
    assert(file@.functions =~= Seq::<FunctionModel>::empty());
    if n == 0 {
        return Ok(file);
    }
    let (first, e0) = match read_root_declaration(src, n, 0) {
        Ok(x) => x,
        Err(f) => {
            return Err(f);
        },
    };
    if e0 == 0 {
        return Err(fail(false, 0, Label::Context("declaration")));
    }
    let ghost v0 = first@;
    proof {
        lemma_buckets_push(Seq::empty(), v0);
        assert(Seq::<RootModel>::empty().push(v0) =~= seq![v0]);
    }
    bucket(&mut file, first);
    let ghost mut rest: Seq<RootModel> = Seq::empty();
    let mut i = e0;
    assert(seq![v0] + rest =~= seq![v0]);
    loop
        invariant
            src.wf(),
            0 < e0 <= i <= n,
            n == src.chars@.len(),
            s == src.window(n as int),
            s == src.chars@,
            spec_root_declaration(s, 0) == Outcome::Ok((v0, e0 as nat)),
            spec_roots(s, e0 as int) == prepend(rest, (i - e0) as nat, spec_roots(s, i as int)),
            file@ == file_model(Seq::empty(), seq![v0] + rest),
        decreases n - i,
    {
        proof {
            lemma_prepend_empty(rest, (i - e0) as nat);
        }
        match read_root_declaration(src, n, i) {
            Ok((v, e)) => {
                if e == i {
                    return Err(fail(false, i, Label::Context("declaration that reads nothing")));
                }
                proof {
                    lemma_prepend_push(rest, (i - e0) as nat, v@, (e - i) as nat, spec_roots(s, e as int));
                    lemma_buckets_push(seq![v0] + rest, v@);
                    assert((seq![v0] + rest).push(v@) =~= seq![v0] + rest.push(v@));
                    rest = rest.push(v@);
                }
                bucket(&mut file, v);
                i = e;
            },
            Err(f) => {
                if f.fatal {
                    return Err(f);
                }
                let q = blank_end(src, n, i);
                if q != n {
                    return Err(fail(false, q, Label::Context("declaration")));
                }
                return Ok(file);
            },
        }
    }
}

/// What `nom` renders for a list of failure frames over `input`.
pub uninterp spec fn rendered_message(input: Seq<char>, frames: Seq<Frame>) -> Seq<char>;

/// Relies on nom::error::convert_error: it renders each frame as the line
/// of `input` that holds its position, a caret under the column, and what
/// was expected there.  Each position is handed over as the tail of
/// `input` that starts there.
#[verifier::external_body]
fn render_failure(input: &str, frames: &Vec<Frame>) -> (r: String)
    ensures
        r@ == rendered_message(input@, frames@),
{
    let errors = frames.iter().map(|f| {
        let at = input.char_indices().nth(f.pos).map_or(input.len(), |(b, _)| b);
        let kind = match f.label {
            Label::Char(c) => nom::error::VerboseErrorKind::Char(c),
            Label::Context(c) => nom::error::VerboseErrorKind::Context(c),
        };
        (&input[at..], kind)
    }).collect();
    nom::error::convert_error(input, nom::error::VerboseError { errors })
}

/// The diagnostic for a buffer that does not parse.
#[derive(Debug)]
pub struct ParseError {
    pub message: String,
}

impl ParseError {
    pub fn description(&self) -> (r: &str)
        ensures
            r@ == self.message@,
    {
        self.message.as_str()
    }
}

/// Parses `input` into a file named `file_name`, or renders why it does
/// not parse.
pub fn parse_string<'a>(input: &'a str, file_name: &str) -> (r: Result<NLFile<'a>, ParseError>)
    ensures
        match spec_declarations(input@) {
            Option::Some(roots) => r matches Ok(f) && f@ == file_model(file_name@, roots),
            Option::None => r matches Err(e) && exists|frames: Seq<Frame>|
                e.message@ == rendered_message(input@, frames),
        },
{
    let src = Source::new(input);
    match parse_file_root(&src) {
        Ok(mut file) => {
            file.name = file_name.to_owned();
            Ok(file)
        },
        Err(f) => {
            let message = render_failure(input, &f.frames);
            Err(ParseError { message })
        },
    }
}

/// The value read from the start of `s`, when only blank follows it.
pub open spec fn whole<V>(s: Seq<char>, o: Outcome<V>) -> Option<V> {
    match o {
        Outcome::Ok((v, n)) => if n + blank_len(s, n as int) == s.len() {
            Option::Some(v)
        } else {
            Option::None
        },
        Outcome::Err(_) => Option::None,
    }
}

/// Parses `input` as one operation followed only by blank.
pub fn parse_expression<'a>(input: &'a str) -> (r: Option<NLOperation<'a>>)
    ensures
        match whole(input@, spec_operation(input@, 0)) {
            Option::Some(m) => r matches Some(v) && v@ == m,
            Option::None => r is None,
        },
{
    let src = Source::new(input);
    let n = src.chars.len();
    assert(src.window(n as int) =~= input@);
    match read_operation(&src, n, 0) {
        Ok((v, e)) => {
            if blank_end(&src, n, e) == n {
                Some(v)
            } else {
                None
            }
        },
        Err(_) => None,
    }
}

/// Parses `input` as one type followed only by blank.
pub fn parse_type<'a>(input: &'a str) -> (r: Option<NLType<'a>>)
    ensures
        match whole(input@, spec_variable_type(input@, 0)) {
            Option::Some(m) => r matches Some(v) && v@ == m,
            Option::None => r is None,
        },
{
    let src = Source::new(input);
    let n = src.chars.len();
    assert(src.window(n as int) =~= input@);
    match read_variable_type(&src, n, 0) {
        Ok((v, e)) => {
            if blank_end(&src, n, e) == n {
                Some(v)
            } else {
                None
            }
        },
        Err(_) => None,
    }
}

} // verus!
