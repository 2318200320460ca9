//! The syntax tree built by the parser, and its mathematical model.
//!
//! Every name and literal text in the tree is a slice of the parsed buffer.
//! Each executable type has a view into a model type whose names are
//! character sequences, which is what the parser's contracts speak of.
use vstd::prelude::*;

verus! {

/// A type reference.
#[derive(PartialEq, PartialOrd, Debug)]
pub enum NLType<'a> {
    NoType,
    Boolean,
    I8,
    I16,
    I32,
    I64,
    U8,
    U16,
    U32,
    U64,
    F32,
    F64,
    OwnedString,
    BorrowedString,
    Tuple(Vec<NLType<'a>>),
    OwnedStruct(&'a str),
    ReferencedStruct(&'a str),
    MutableReferencedStruct(&'a str),
    OwnedTrait(&'a str),
    ReferencedTrait(&'a str),
    MutableReferencedTrait(&'a str),
    SelfReference,
    MutableSelfReference,
}

/// Model of [`NLType`].
pub enum TypeModel {
    NoType,
    Boolean,
    I8,
    I16,
    I32,
    I64,
    U8,
    U16,
    U32,
    U64,
    F32,
    F64,
    OwnedString,
    BorrowedString,
    Tuple(Seq<TypeModel>),
    OwnedStruct(Seq<char>),
    ReferencedStruct(Seq<char>),
    MutableReferencedStruct(Seq<char>),
    OwnedTrait(Seq<char>),
    ReferencedTrait(Seq<char>),
    MutableReferencedTrait(Seq<char>),
    SelfReference,
    MutableSelfReference,
}

impl<'a> View for NLType<'a> {
    type V = TypeModel;

    open spec fn view(&self) -> TypeModel
        decreases self,
    {
        match self {
            NLType::NoType => TypeModel::NoType,
            NLType::Boolean => TypeModel::Boolean,
            NLType::I8 => TypeModel::I8,
            NLType::I16 => TypeModel::I16,
            NLType::I32 => TypeModel::I32,
            NLType::I64 => TypeModel::I64,
            NLType::U8 => TypeModel::U8,
            NLType::U16 => TypeModel::U16,
            NLType::U32 => TypeModel::U32,
            NLType::U64 => TypeModel::U64,
            NLType::F32 => TypeModel::F32,
            NLType::F64 => TypeModel::F64,
            NLType::OwnedString => TypeModel::OwnedString,
            NLType::BorrowedString => TypeModel::BorrowedString,
            NLType::Tuple(v) => TypeModel::Tuple(
                Seq::new(
                    v@.len(),
                    |i: int|
                        if 0 <= i < v@.len() {
                            v@[i].view()
                        } else {
                            TypeModel::NoType
                        },
                ),
            ),
            NLType::OwnedStruct(n) => TypeModel::OwnedStruct(n@),
            NLType::ReferencedStruct(n) => TypeModel::ReferencedStruct(n@),
            NLType::MutableReferencedStruct(n) => TypeModel::MutableReferencedStruct(n@),
            NLType::OwnedTrait(n) => TypeModel::OwnedTrait(n@),
            NLType::ReferencedTrait(n) => TypeModel::ReferencedTrait(n@),
            NLType::MutableReferencedTrait(n) => TypeModel::MutableReferencedTrait(n@),
            NLType::SelfReference => TypeModel::SelfReference,
            NLType::MutableSelfReference => TypeModel::MutableSelfReference,
        }
    }
}

/// Binary operator kinds.
#[derive(PartialEq, Eq, Structural, Debug, Clone, Copy)]
pub enum BinaryKind {
    CompareEqual,
    CompareNotEqual,
    CompareGreater,
    CompareLess,
    CompareGreaterEqual,
    CompareLessEqual,
    LogicalAnd,
    LogicalOr,
    LogicalXor,
    BitAnd,
    BitOr,
    BitXor,
    BitLeftShift,
    BitRightShift,
    ArithmeticMod,
    ArithmeticAdd,
    ArithmeticSub,
    ArithmeticMul,
    ArithmeticDiv,
}

/// Unary operator kinds.
#[derive(PartialEq, Eq, Structural, Debug, Clone, Copy)]
pub enum UnaryKind {
    LogicalNegate,
    ArithmeticNegate,
    BitNegate,
    PropError,
}

/// A sequence of operations between braces.
#[derive(PartialEq, PartialOrd, Debug)]
pub struct NLBlock<'a> {
    pub operations: Vec<NLOperation<'a>>,
}

/// A literal constant.  A floating-point literal keeps its text.
#[derive(PartialEq, PartialOrd, Debug)]
pub enum OpConstant<'a> {
    Boolean(bool),
    Integer(i64, NLType<'a>),
    Float(&'a str, NLType<'a>),
    String(&'a str),
}

/// A variable named on the left of an assignment.
#[derive(PartialEq, PartialOrd, Debug)]
pub struct OpVariable<'a> {
    pub name: &'a str,
}

/// `let (a, b): T = value`, or a rebinding without `let`.
#[derive(PartialEq, PartialOrd, Debug)]
pub struct OpAssignment<'a> {
    pub is_new: bool,
    pub to_assign: Vec<OpVariable<'a>>,
    pub type_assignment: NLType<'a>,
    pub assignment: Box<NLOperation<'a>>,
}

/// A unary or binary operator applied to its operands.
#[derive(PartialEq, PartialOrd, Debug)]
pub enum OpOperator<'a> {
    CompareEqual(Box<NLOperation<'a>>, Box<NLOperation<'a>>),
    CompareNotEqual(Box<NLOperation<'a>>, Box<NLOperation<'a>>),
    CompareGreater(Box<NLOperation<'a>>, Box<NLOperation<'a>>),
    CompareLess(Box<NLOperation<'a>>, Box<NLOperation<'a>>),
    CompareGreaterEqual(Box<NLOperation<'a>>, Box<NLOperation<'a>>),
    CompareLessEqual(Box<NLOperation<'a>>, Box<NLOperation<'a>>),
    LogicalNegate(Box<NLOperation<'a>>),
    LogicalAnd(Box<NLOperation<'a>>, Box<NLOperation<'a>>),
    LogicalOr(Box<NLOperation<'a>>, Box<NLOperation<'a>>),
    LogicalXor(Box<NLOperation<'a>>, Box<NLOperation<'a>>),
    BitAnd(Box<NLOperation<'a>>, Box<NLOperation<'a>>),
    BitOr(Box<NLOperation<'a>>, Box<NLOperation<'a>>),
    BitXor(Box<NLOperation<'a>>, Box<NLOperation<'a>>),
    ArithmeticNegate(Box<NLOperation<'a>>),
    BitNegate(Box<NLOperation<'a>>),
    BitLeftShift(Box<NLOperation<'a>>, Box<NLOperation<'a>>),
    BitRightShift(Box<NLOperation<'a>>, Box<NLOperation<'a>>),
    PropError(Box<NLOperation<'a>>),
    ArithmeticMod(Box<NLOperation<'a>>, Box<NLOperation<'a>>),
    ArithmeticAdd(Box<NLOperation<'a>>, Box<NLOperation<'a>>),
    ArithmeticSub(Box<NLOperation<'a>>, Box<NLOperation<'a>>),
    ArithmeticMul(Box<NLOperation<'a>>, Box<NLOperation<'a>>),
    ArithmeticDiv(Box<NLOperation<'a>>, Box<NLOperation<'a>>),
}

/// An expression.
#[derive(PartialEq, PartialOrd, Debug)]
pub enum NLOperation<'a> {
    Block(NLBlock<'a>),
    Constant(OpConstant<'a>),
    Assign(OpAssignment<'a>),
    Tuple(Vec<NLOperation<'a>>),
    Operator(OpOperator<'a>),
}

/// Model of [`OpConstant`]; an integer is a mathematical integer.
pub enum ConstantModel {
    Boolean(bool),
    Integer(int, TypeModel),
    Float(Seq<char>, TypeModel),
    Text(Seq<char>),
}

/// Model of [`NLOperation`]: operators are grouped by arity.
pub enum OperationModel {
    Block(Seq<OperationModel>),
    Constant(ConstantModel),
    Assign { is_new: bool, names: Seq<Seq<char>>, ty: TypeModel, value: Box<OperationModel> },
    Tuple(Seq<OperationModel>),
    Unary(UnaryKind, Box<OperationModel>),
    Binary(BinaryKind, Box<OperationModel>, Box<OperationModel>),
}

impl<'a> View for OpConstant<'a> {
    type V = ConstantModel;

    open spec fn view(&self) -> ConstantModel {
        match self {
            OpConstant::Boolean(b) => ConstantModel::Boolean(*b),
            OpConstant::Integer(v, t) => ConstantModel::Integer(*v as int, t@),
            OpConstant::Float(text, t) => ConstantModel::Float(text@, t@),
            OpConstant::String(text) => ConstantModel::Text(text@),
        }
    }
}

/// The names of a list of assigned variables.
pub open spec fn variable_names<'a>(v: Seq<OpVariable<'a>>) -> Seq<Seq<char>> {
    Seq::new(v.len(), |i: int| v[i].name@)
}

/// The models of a list of operations.
pub open spec fn operations_view<'a>(v: Seq<NLOperation<'a>>) -> Seq<OperationModel> {
    Seq::new(v.len(), |i: int| v[i]@)
}

/// The model of a binary operator node.
pub open spec fn binary_model(k: BinaryKind, a: OperationModel, b: OperationModel) -> OperationModel {
    OperationModel::Binary(k, Box::new(a), Box::new(b))
}

/// The model of a unary operator node.
pub open spec fn unary_model(k: UnaryKind, a: OperationModel) -> OperationModel {
    OperationModel::Unary(k, Box::new(a))
}

impl<'a> View for NLOperation<'a> {
    type V = OperationModel;

    open spec fn view(&self) -> OperationModel {
        operation_model(*self)
    }
}

/// The model of an operation; opaque, so that proofs about parsers do not
/// unfold it where they have no need to.
#[verifier::opaque]
pub open spec fn operation_model<'a>(op: NLOperation<'a>) -> OperationModel
    decreases op,
{
        match op {
            NLOperation::Block(b) => OperationModel::Block(
                Seq::new(
                    b.operations@.len(),
                    |i: int|
                        if 0 <= i < b.operations@.len() {
                            operation_model(b.operations@[i])
                        } else {
                            OperationModel::Tuple(Seq::empty())
                        },
                ),
            ),
            NLOperation::Constant(c) => OperationModel::Constant(c@),
            NLOperation::Assign(a) => OperationModel::Assign {
                is_new: a.is_new,
                names: variable_names(a.to_assign@),
                ty: a.type_assignment@,
                value: Box::new(operation_model(*a.assignment)),
            },
            NLOperation::Tuple(v) => OperationModel::Tuple(
                Seq::new(
                    v@.len(),
                    |i: int|
                        if 0 <= i < v@.len() {
                            operation_model(v@[i])
                        } else {
                            OperationModel::Tuple(Seq::empty())
                        },
                ),
            ),
            NLOperation::Operator(op) => match op {
                OpOperator::CompareEqual(a, b) => binary_model(BinaryKind::CompareEqual, operation_model(*a), operation_model(*b)),
                OpOperator::CompareNotEqual(a, b) => binary_model(BinaryKind::CompareNotEqual, operation_model(*a), operation_model(*b)),
                OpOperator::CompareGreater(a, b) => binary_model(BinaryKind::CompareGreater, operation_model(*a), operation_model(*b)),
                OpOperator::CompareLess(a, b) => binary_model(BinaryKind::CompareLess, operation_model(*a), operation_model(*b)),
                OpOperator::CompareGreaterEqual(a, b) => binary_model(BinaryKind::CompareGreaterEqual, operation_model(*a), operation_model(*b)),
                OpOperator::CompareLessEqual(a, b) => binary_model(BinaryKind::CompareLessEqual, operation_model(*a), operation_model(*b)),
                OpOperator::LogicalNegate(a) => unary_model(UnaryKind::LogicalNegate, operation_model(*a)),
                OpOperator::LogicalAnd(a, b) => binary_model(BinaryKind::LogicalAnd, operation_model(*a), operation_model(*b)),
                OpOperator::LogicalOr(a, b) => binary_model(BinaryKind::LogicalOr, operation_model(*a), operation_model(*b)),
                OpOperator::LogicalXor(a, b) => binary_model(BinaryKind::LogicalXor, operation_model(*a), operation_model(*b)),
                OpOperator::BitAnd(a, b) => binary_model(BinaryKind::BitAnd, operation_model(*a), operation_model(*b)),
                OpOperator::BitOr(a, b) => binary_model(BinaryKind::BitOr, operation_model(*a), operation_model(*b)),
                OpOperator::BitXor(a, b) => binary_model(BinaryKind::BitXor, operation_model(*a), operation_model(*b)),
                OpOperator::ArithmeticNegate(a) => unary_model(UnaryKind::ArithmeticNegate, operation_model(*a)),
                OpOperator::BitNegate(a) => unary_model(UnaryKind::BitNegate, operation_model(*a)),
                OpOperator::BitLeftShift(a, b) => binary_model(BinaryKind::BitLeftShift, operation_model(*a), operation_model(*b)),
                OpOperator::BitRightShift(a, b) => binary_model(BinaryKind::BitRightShift, operation_model(*a), operation_model(*b)),
                OpOperator::PropError(a) => unary_model(UnaryKind::PropError, operation_model(*a)),
                OpOperator::ArithmeticMod(a, b) => binary_model(BinaryKind::ArithmeticMod, operation_model(*a), operation_model(*b)),
                OpOperator::ArithmeticAdd(a, b) => binary_model(BinaryKind::ArithmeticAdd, operation_model(*a), operation_model(*b)),
                OpOperator::ArithmeticSub(a, b) => binary_model(BinaryKind::ArithmeticSub, operation_model(*a), operation_model(*b)),
                OpOperator::ArithmeticMul(a, b) => binary_model(BinaryKind::ArithmeticMul, operation_model(*a), operation_model(*b)),
                OpOperator::ArithmeticDiv(a, b) => binary_model(BinaryKind::ArithmeticDiv, operation_model(*a), operation_model(*b)),
            },
        }
}

/// A named, typed slot: a struct field or a function argument.
pub struct BindingModel {
    pub name: Seq<char>,
    pub ty: TypeModel,
}

/// A field of a struct.
pub struct NLStructVariable<'a> {
    pub name: &'a str,
    pub my_type: NLType<'a>,
}

impl<'a> View for NLStructVariable<'a> {
    type V = BindingModel;

    open spec fn view(&self) -> BindingModel {
        BindingModel { name: self.name@, ty: self.my_type@ }
    }
}

impl<'a> NLStructVariable<'a> {
    pub fn get_name(&self) -> (r: &'a str)
        ensures
            r@ == self@.name,
    {
        self.name
    }

    pub fn get_type(&self) -> (r: &NLType<'a>)
        ensures
            r@ == self@.ty,
    {
        &self.my_type
    }
}

/// An argument of a function, method, getter or setter.
pub struct NLArgument<'a> {
    pub name: &'a str,
    pub nl_type: NLType<'a>,
}

impl<'a> View for NLArgument<'a> {
    type V = BindingModel;

    open spec fn view(&self) -> BindingModel {
        BindingModel { name: self.name@, ty: self.nl_type@ }
    }
}

impl<'a> NLArgument<'a> {
    pub fn get_name(&self) -> (r: &'a str)
        ensures
            r@ == self@.name,
    {
        self.name
    }

    pub fn get_type(&self) -> (r: &NLType<'a>)
        ensures
            r@ == self@.ty,
    {
        &self.nl_type
    }
}

/// The models of a list of arguments.
pub open spec fn arguments_view<'a>(v: Seq<NLArgument<'a>>) -> Seq<BindingModel> {
    Seq::new(v.len(), |i: int| v[i]@)
}

/// The models of a list of struct fields.
pub open spec fn fields_view<'a>(v: Seq<NLStructVariable<'a>>) -> Seq<BindingModel> {
    Seq::new(v.len(), |i: int| v[i]@)
}

/// Model of [`NLFunction`]; the body is the list of its operations.
pub struct FunctionModel {
    pub name: Seq<char>,
    pub args: Seq<BindingModel>,
    pub ret: TypeModel,
    pub body: Option<Seq<OperationModel>>,
}

/// A free function or a method.
pub struct NLFunction<'a> {
    pub name: &'a str,
    pub arguments: Vec<NLArgument<'a>>,
    pub return_type: NLType<'a>,
    pub block: Option<NLBlock<'a>>,
}

impl<'a> View for NLFunction<'a> {
    type V = FunctionModel;

    open spec fn view(&self) -> FunctionModel {
        FunctionModel {
            name: self.name@,
            args: arguments_view(self.arguments@),
            ret: self.return_type@,
            body: match self.block {
                Option::Some(b) => Option::Some(operations_view(b.operations@)),
                Option::None => Option::None,
            },
        }
    }
}

impl<'a> NLFunction<'a> {
    pub fn get_name(&self) -> (r: &'a str)
        ensures
            r@ == self@.name,
    {
        self.name
    }

    pub fn get_arguments(&self) -> (r: &Vec<NLArgument<'a>>)
        ensures
            arguments_view(r@) == self@.args,
    {
        &self.arguments
    }

    pub fn get_return_type(&self) -> (r: &NLType<'a>)
        ensures
            r@ == self@.ret,
    {
        &self.return_type
    }

    pub fn get_block(&self) -> (r: &Option<NLBlock<'a>>)
        ensures
            r.is_some() == self@.body.is_some(),
            r.is_some() ==> operations_view(r.unwrap().operations@) == self@.body.unwrap(),
    {
        &self.block
    }
}

/// The body of a getter or a setter: written out, abstract, or synthesized.
#[derive(PartialEq, PartialOrd, Debug)]
pub enum NLEncapsulationBlock<'a> {
    Body(NLBlock<'a>),
    Abstract,
    Default,
}

/// Model of [`NLEncapsulationBlock`].
pub enum EncapsulationModel {
    Body(Seq<OperationModel>),
    Abstract,
    Default,
}

impl<'a> View for NLEncapsulationBlock<'a> {
    type V = EncapsulationModel;

    open spec fn view(&self) -> EncapsulationModel {
        match self {
            NLEncapsulationBlock::Body(b) => EncapsulationModel::Body(operations_view(b.operations@)),
            NLEncapsulationBlock::Abstract => EncapsulationModel::Abstract,
            NLEncapsulationBlock::Default => EncapsulationModel::Default,
        }
    }
}

/// Model of [`NLGetter`].
pub struct GetterModel {
    pub name: Seq<char>,
    pub args: Seq<BindingModel>,
    pub ty: TypeModel,
    pub block: EncapsulationModel,
}

/// `get name ...`: a getter.
pub struct NLGetter<'a> {
    pub name: &'a str,
    pub args: Vec<NLArgument<'a>>,
    pub nl_type: NLType<'a>,
    pub block: NLEncapsulationBlock<'a>,
}

impl<'a> View for NLGetter<'a> {
    type V = GetterModel;

    open spec fn view(&self) -> GetterModel {
        GetterModel {
            name: self.name@,
            args: arguments_view(self.args@),
            ty: self.nl_type@,
            block: self.block@,
        }
    }
}

impl<'a> NLGetter<'a> {
    pub fn get_name(&self) -> (r: &'a str)
        ensures
            r@ == self@.name,
    {
        self.name
    }

    pub fn get_arguments(&self) -> (r: &Vec<NLArgument<'a>>)
        ensures
            arguments_view(r@) == self@.args,
    {
        &self.args
    }

    pub fn get_type(&self) -> (r: &NLType<'a>)
        ensures
            r@ == self@.ty,
    {
        &self.nl_type
    }

    pub fn get_block(&self) -> (r: &NLEncapsulationBlock<'a>)
        ensures
            r@ == self@.block,
    {
        &self.block
    }
}

/// Model of [`NLSetter`].
pub struct SetterModel {
    pub name: Seq<char>,
    pub args: Seq<BindingModel>,
    pub block: EncapsulationModel,
}

/// `set name ...`: a setter.
pub struct NLSetter<'a> {
    pub name: &'a str,
    pub args: Vec<NLArgument<'a>>,
    pub block: NLEncapsulationBlock<'a>,
}

impl<'a> View for NLSetter<'a> {
    type V = SetterModel;

    open spec fn view(&self) -> SetterModel {
        SetterModel { name: self.name@, args: arguments_view(self.args@), block: self.block@ }
    }
}

impl<'a> NLSetter<'a> {
    pub fn get_name(&self) -> (r: &'a str)
        ensures
            r@ == self@.name,
    {
        self.name
    }

    pub fn get_arguments(&self) -> (r: &Vec<NLArgument<'a>>)
        ensures
            arguments_view(r@) == self@.args,
    {
        &self.args
    }

    pub fn get_block(&self) -> (r: &NLEncapsulationBlock<'a>)
        ensures
            r@ == self@.block,
    {
        &self.block
    }
}

/// Model of [`NLImplementor`].
pub enum ImplementorModel {
    Method(FunctionModel),
    Getter(GetterModel),
    Setter(SetterModel),
}

/// A member of a trait or of an implementation block.
pub enum NLImplementor<'a> {
    Method(NLFunction<'a>),
    Getter(NLGetter<'a>),
    Setter(NLSetter<'a>),
}

impl<'a> View for NLImplementor<'a> {
    type V = ImplementorModel;

    open spec fn view(&self) -> ImplementorModel {
        match self {
            NLImplementor::Method(f) => ImplementorModel::Method(f@),
            NLImplementor::Getter(g) => ImplementorModel::Getter(g@),
            NLImplementor::Setter(s) => ImplementorModel::Setter(s@),
        }
    }
}

/// The models of a list of implementors.
pub open spec fn implementors_view<'a>(v: Seq<NLImplementor<'a>>) -> Seq<ImplementorModel> {
    Seq::new(v.len(), |i: int| v[i]@)
}

/// Model of [`NLImplementation`] and of [`NLTrait`].
pub struct InterfaceModel {
    pub name: Seq<char>,
    pub implementors: Seq<ImplementorModel>,
}

/// `impl Name { ... }` after a struct.
pub struct NLImplementation<'a> {
    pub name: &'a str,
    pub implementors: Vec<NLImplementor<'a>>,
}

impl<'a> View for NLImplementation<'a> {
    type V = InterfaceModel;

    open spec fn view(&self) -> InterfaceModel {
        InterfaceModel { name: self.name@, implementors: implementors_view(self.implementors@) }
    }
}

impl<'a> NLImplementation<'a> {
    pub fn get_name(&self) -> (r: &'a str)
        ensures
            r@ == self@.name,
    {
        self.name
    }

    pub fn get_implementors(&self) -> (r: &Vec<NLImplementor<'a>>)
        ensures
            implementors_view(r@) == self@.implementors,
    {
        &self.implementors
    }
}

/// `trait Name { ... }`.
pub struct NLTrait<'a> {
    pub name: &'a str,
    pub implementors: Vec<NLImplementor<'a>>,
}

impl<'a> View for NLTrait<'a> {
    type V = InterfaceModel;

    open spec fn view(&self) -> InterfaceModel {
        InterfaceModel { name: self.name@, implementors: implementors_view(self.implementors@) }
    }
}

impl<'a> NLTrait<'a> {
    pub fn get_name(&self) -> (r: &'a str)
        ensures
            r@ == self@.name,
    {
        self.name
    }

    pub fn get_implementors(&self) -> (r: &Vec<NLImplementor<'a>>)
        ensures
            implementors_view(r@) == self@.implementors,
    {
        &self.implementors
    }
}

/// The models of a list of implementation blocks.
pub open spec fn implementations_view<'a>(v: Seq<NLImplementation<'a>>) -> Seq<InterfaceModel> {
    Seq::new(v.len(), |i: int| v[i]@)
}

/// Model of [`NLStruct`].
pub struct StructModel {
    pub name: Seq<char>,
    pub fields: Seq<BindingModel>,
    pub implementations: Seq<InterfaceModel>,
}

/// `struct Name { fields } impl ... { }*`.
pub struct NLStruct<'a> {
    pub name: &'a str,
    pub variables: Vec<NLStructVariable<'a>>,
    pub implementations: Vec<NLImplementation<'a>>,
}

impl<'a> View for NLStruct<'a> {
    type V = StructModel;

    open spec fn view(&self) -> StructModel {
        StructModel {
            name: self.name@,
            fields: fields_view(self.variables@),
            implementations: implementations_view(self.implementations@),
        }
    }
}

impl<'a> NLStruct<'a> {
    pub fn get_name(&self) -> (r: &'a str)
        ensures
            r@ == self@.name,
    {
        self.name
    }

    pub fn get_variables(&self) -> (r: &Vec<NLStructVariable<'a>>)
        ensures
            fields_view(r@) == self@.fields,
    {
        &self.variables
    }

    pub fn get_implementations(&self) -> (r: &Vec<NLImplementation<'a>>)
        ensures
            implementations_view(r@) == self@.implementations,
    {
        &self.implementations
    }
}

/// Model of [`RootDeclaration`].
pub enum RootModel {
    Struct(StructModel),
    Trait(InterfaceModel),
    Function(FunctionModel),
}

/// A top-level declaration.
pub enum RootDeclaration<'a> {
    Struct(NLStruct<'a>),
    Trait(NLTrait<'a>),
    Function(NLFunction<'a>),
}

impl<'a> View for RootDeclaration<'a> {
    type V = RootModel;

    open spec fn view(&self) -> RootModel {
        match self {
            RootDeclaration::Struct(s) => RootModel::Struct(s@),
            RootDeclaration::Trait(t) => RootModel::Trait(t@),
            RootDeclaration::Function(f) => RootModel::Function(f@),
        }
    }
}

} // verus!
