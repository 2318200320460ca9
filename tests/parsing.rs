use nl_parser::{
    parse_expression, parse_string, parse_type, NLEncapsulationBlock, NLImplementor,
    NLOperation, NLType, OpConstant, OpOperator,
};

fn integer<'a>(op: &'a NLOperation<'a>) -> Option<(i64, &'a NLType<'a>)> {
    match op {
        NLOperation::Constant(OpConstant::Integer(v, t)) => Some((*v, t)),
        _ => None,
    }
}

#[test]
fn empty_buffer_gives_empty_file() {
    for name in ["main.nl", "", "other"] {
        let file = parse_string("", name).unwrap();
        assert_eq!(file.get_name(), name);
        assert!(file.get_structs().is_empty());
        assert!(file.get_traits().is_empty());
        assert!(file.get_functions().is_empty());
    }
}

#[test]
fn struct_point_has_two_float_fields() {
    let file = parse_string("struct Point { x: f64, y: f64 }", "p.nl").unwrap();
    assert_eq!(file.get_structs().len(), 1);
    let s = &file.get_structs()[0];
    assert_eq!(s.get_name(), "Point");
    let vars = s.get_variables();
    assert_eq!(vars.len(), 2);
    assert_eq!(vars[0].get_name(), "x");
    assert_eq!(vars[0].get_type(), &NLType::F64);
    assert_eq!(vars[1].get_name(), "y");
    assert_eq!(vars[1].get_type(), &NLType::F64);
    assert!(s.get_implementations().is_empty());
}

#[test]
fn trailing_field_separator_is_optional() {
    let a = parse_string("struct P { x: f64 }", "a").unwrap();
    let b = parse_string("struct P { x: f64, }", "a").unwrap();
    let va = a.get_structs()[0].get_variables();
    let vb = b.get_structs()[0].get_variables();
    assert_eq!(va.len(), 1);
    assert_eq!(vb.len(), 1);
    assert_eq!(va[0].get_name(), vb[0].get_name());
    assert_eq!(va[0].get_type(), vb[0].get_type());
}

#[test]
fn trailing_argument_separator_is_optional() {
    let a = parse_string("fn f(a: i32);", "a").unwrap();
    let b = parse_string("fn f(a: i32,);", "a").unwrap();
    let aa = a.get_functions()[0].get_arguments();
    let ab = b.get_functions()[0].get_arguments();
    assert_eq!(aa.len(), 1);
    assert_eq!(ab.len(), 1);
    assert_eq!(aa[0].get_name(), "a");
    assert_eq!(ab[0].get_name(), "a");
    assert_eq!(aa[0].get_type(), &NLType::I32);
    assert_eq!(ab[0].get_type(), &NLType::I32);
}

#[test]
fn function_add_with_body() {
    let file = parse_string("fn add(a: i32, b: i32) -> i32 { let c = 1 }", "f").unwrap();
    let f = &file.get_functions()[0];
    assert_eq!(f.get_name(), "add");
    let args = f.get_arguments();
    assert_eq!(args.len(), 2);
    assert_eq!(args[0].get_name(), "a");
    assert_eq!(args[0].get_type(), &NLType::I32);
    assert_eq!(args[1].get_name(), "b");
    assert_eq!(args[1].get_type(), &NLType::I32);
    assert_eq!(f.get_return_type(), &NLType::I32);
    let body = f.get_block().as_ref().unwrap();
    assert_eq!(body.operations.len(), 1);
}

#[test]
fn bare_identifier_is_not_an_operation() {
    assert!(parse_string("fn add(a: i32, b: i32) -> i32 { a }", "f").is_err());
    assert!(parse_expression("a").is_none());
}

#[test]
fn default_getter() {
    let file = parse_string("trait T { get value: default -> i32; }", "g").unwrap();
    let t = &file.get_traits()[0];
    assert_eq!(t.get_name(), "T");
    match &t.get_implementors()[0] {
        NLImplementor::Getter(g) => {
            assert_eq!(g.get_name(), "value");
            assert!(g.get_arguments().is_empty());
            assert_eq!(g.get_type(), &NLType::I32);
            assert_eq!(g.get_block(), &NLEncapsulationBlock::Default);
        },
        _ => panic!("expected a getter"),
    }
}

#[test]
fn chained_operators_need_grouping() {
    assert!(parse_expression("1 + 2 + 3").is_none());
    let op = parse_expression("1 + (2 + 3)").unwrap();
    match op {
        NLOperation::Operator(OpOperator::ArithmeticAdd(a, b)) => {
            assert_eq!(integer(&a), Some((1, &NLType::NoType)));
            match *b {
                NLOperation::Tuple(items) => {
                    assert_eq!(items.len(), 1);
                    match &items[0] {
                        NLOperation::Operator(OpOperator::ArithmeticAdd(c, d)) => {
                            assert_eq!(integer(c), Some((2, &NLType::NoType)));
                            assert_eq!(integer(d), Some((3, &NLType::NoType)));
                        },
                        _ => panic!("expected an add in the group"),
                    }
                },
                _ => panic!("expected a group"),
            }
        },
        _ => panic!("expected an add"),
    }
}

#[test]
fn string_contents_are_kept_verbatim() {
    let op = parse_expression("\"ab\\ncd\"").unwrap();
    assert_eq!(op, NLOperation::Constant(OpConstant::String("ab\\ncd")));
    let op = parse_expression("\"ab\\\"cd\"").unwrap();
    assert_eq!(op, NLOperation::Constant(OpConstant::String("ab\\\"cd")));
    let op = parse_expression("\"a\\\\\"").unwrap();
    assert_eq!(op, NLOperation::Constant(OpConstant::String("a\\\\")));
    assert!(parse_expression("\"ab\\\"").is_none());
}

#[test]
fn self_is_reserved() {
    assert!(parse_string("fn f(self: i32);", "s").is_err());
    assert!(parse_string("fn f(&);", "s").is_err());
    assert!(parse_string("fn f(&mut);", "s").is_err());
    assert!(parse_string("fn f(&selfish);", "s").is_err());
    let file = parse_string("fn f(&self, b: i32);", "s").unwrap();
    let args = file.get_functions()[0].get_arguments();
    assert_eq!(args[0].get_type(), &NLType::SelfReference);
    assert_eq!(args[1].get_name(), "b");
}

#[test]
fn argument_list_rejects_leftover() {
    assert!(parse_string("fn f(a: i32 b: i32);", "s").is_err());
    assert!(parse_string("fn f(a: i32,, b: i32);", "s").is_err());
    let file = parse_string("fn f( a: i32 , b: i32 );", "s").unwrap();
    assert_eq!(file.get_functions()[0].get_arguments().len(), 2);
}

#[test]
fn keywords_are_whole_words() {
    let op = parse_expression("letter = 5").unwrap();
    match op {
        NLOperation::Assign(a) => {
            assert!(!a.is_new);
            assert_eq!(a.to_assign.len(), 1);
            assert_eq!(a.to_assign[0].name, "letter");
            assert_eq!(integer(&a.assignment), Some((5, &NLType::NoType)));
        },
        _ => panic!("expected an assignment"),
    }
    assert!(parse_string("fnord();", "k").is_err());
    assert!(parse_string("structure A {}", "k").is_err());
    assert_eq!(parse_type("&mutable"), Some(NLType::ReferencedStruct("mutable")));
    assert_eq!(parse_type("dynamo"), Some(NLType::OwnedStruct("dynamo")));
}

#[test]
fn tuples_end_at_the_balancing_parenthesis() {
    let op = parse_expression("((1), 2)").unwrap();
    match op {
        NLOperation::Tuple(items) => {
            assert_eq!(items.len(), 2);
            match &items[0] {
                NLOperation::Tuple(inner) => {
                    assert_eq!(inner.len(), 1);
                    assert_eq!(integer(&inner[0]), Some((1, &NLType::NoType)));
                },
                _ => panic!("expected an inner tuple"),
            }
            assert_eq!(integer(&items[1]), Some((2, &NLType::NoType)));
        },
        _ => panic!("expected a tuple"),
    }
    assert!(parse_expression("(1 2)").is_none());
    assert!(parse_expression("(a b) = 1").is_none());
    assert!(parse_expression("(1, 2").is_none());
}

#[test]
fn operations_in_blocks_need_no_delimiters() {
    let op = parse_expression("{ 1 2 }").unwrap();
    match op {
        NLOperation::Block(b) => {
            assert_eq!(b.operations.len(), 2);
            assert_eq!(integer(&b.operations[0]), Some((1, &NLType::NoType)));
            assert_eq!(integer(&b.operations[1]), Some((2, &NLType::NoType)));
        },
        _ => panic!("expected a block"),
    }
    let file = parse_string("fn f() { 1 }", "b").unwrap();
    assert!(file.get_functions()[0].get_block().is_some());
    assert_eq!(parse_expression(" true"), Some(NLOperation::Constant(OpConstant::Boolean(true))));
}

#[test]
fn integer_with_cast_and_plain_float() {
    let op = parse_expression("42 as u8").unwrap();
    assert_eq!(op, NLOperation::Constant(OpConstant::Integer(42, NLType::U8)));
    let op = parse_expression("3.5").unwrap();
    assert_eq!(op, NLOperation::Constant(OpConstant::Float("3.5", NLType::NoType)));
}

#[test]
fn integer_limits() {
    let op = parse_expression("9223372036854775807").unwrap();
    assert_eq!(op, NLOperation::Constant(OpConstant::Integer(i64::MAX, NLType::NoType)));
    let op = parse_expression("-9223372036854775808").unwrap();
    assert_eq!(op, NLOperation::Constant(OpConstant::Integer(i64::MIN, NLType::NoType)));
    assert!(parse_expression("9223372036854775808").is_none());
    assert!(parse_expression("1.2.3").is_none());
    assert!(parse_expression("1-2").is_none());
}

#[test]
fn mutable_trait_reference_type() {
    assert_eq!(parse_type("&mut dyn Shape"), Some(NLType::MutableReferencedTrait("Shape")));
    assert_eq!(parse_type("& dyn Shape"), Some(NLType::ReferencedTrait("Shape")));
    assert_eq!(parse_type("dyn Shape"), Some(NLType::OwnedTrait("Shape")));
    assert_eq!(parse_type("&mut Point"), Some(NLType::MutableReferencedStruct("Point")));
    assert_eq!(parse_type("&Point"), Some(NLType::ReferencedStruct("Point")));
    assert_eq!(parse_type("Point"), Some(NLType::OwnedStruct("Point")));
    assert_eq!(parse_type("str"), Some(NLType::OwnedString));
    assert_eq!(parse_type("bool"), Some(NLType::Boolean));
    assert_eq!(parse_type("u64"), Some(NLType::U64));
}

#[test]
fn body_and_semicolon_are_exclusive() {
    assert!(parse_string("fn f() {};", "f").is_err());
    assert!(parse_string("fn f()", "f").is_err());
    let file = parse_string("fn f();", "f").unwrap();
    assert!(file.get_functions()[0].get_block().is_none());
    let file = parse_string("fn f() {}", "f").unwrap();
    assert!(file.get_functions()[0].get_block().is_some());
}

#[test]
fn self_arguments_and_implementations() {
    let src = "struct A { a: i32 } impl B { met m(&self, x: i32) -> bool; set v: default; get w(&mut self) -> u8 {} }";
    let file = parse_string(src, "s").unwrap();
    let s = &file.get_structs()[0];
    let imps = s.get_implementations();
    assert_eq!(imps.len(), 1);
    assert_eq!(imps[0].get_name(), "B");
    let members = imps[0].get_implementors();
    assert_eq!(members.len(), 3);
    match &members[0] {
        NLImplementor::Method(m) => {
            assert_eq!(m.get_name(), "m");
            let args = m.get_arguments();
            assert_eq!(args[0].get_name(), "self");
            assert_eq!(args[0].get_type(), &NLType::SelfReference);
            assert_eq!(args[1].get_type(), &NLType::I32);
            assert_eq!(m.get_return_type(), &NLType::Boolean);
            assert!(m.get_block().is_none());
        },
        _ => panic!("expected a method"),
    }
    match &members[1] {
        NLImplementor::Setter(st) => {
            assert_eq!(st.get_name(), "v");
            assert_eq!(st.get_block(), &NLEncapsulationBlock::Default);
        },
        _ => panic!("expected a setter"),
    }
    match &members[2] {
        NLImplementor::Getter(g) => {
            assert_eq!(g.get_arguments()[0].get_type(), &NLType::MutableSelfReference);
            assert_eq!(g.get_type(), &NLType::U8);
            assert!(matches!(g.get_block(), NLEncapsulationBlock::Body(_)));
        },
        _ => panic!("expected a getter"),
    }
}

#[test]
fn declarations_are_bucketed_in_order() {
    let src = "// leading comment\nfn a(); struct S {} trait T {} /* between */ fn b(); struct U {}\n";
    let file = parse_string(src, "b").unwrap();
    let f: Vec<&str> = file.get_functions().iter().map(|f| f.get_name()).collect();
    assert_eq!(f, vec!["a", "b"]);
    let s: Vec<&str> = file.get_structs().iter().map(|s| s.get_name()).collect();
    assert_eq!(s, vec!["S", "U"]);
    assert_eq!(file.get_traits().len(), 1);
}

#[test]
fn errors_are_rendered() {
    let err = parse_string("struct {", "e").err().unwrap();
    assert!(!err.description().is_empty());
    assert!(err.description().contains("line 1"));
    assert!(parse_string("   ", "e").is_err());
    assert!(parse_string("struct A {} garbage", "e").is_err());
}

#[test]
fn unknown_operator_is_fatal() {
    assert!(parse_expression("1 <> 2").is_none());
    assert!(parse_string("fn f() {1 <> 2}", "e").is_err());
    assert!(parse_expression("?1").is_none());
}

#[test]
fn assignments_and_blocks() {
    let op = parse_expression("let (a, b): i32 = 1").unwrap();
    match op {
        NLOperation::Assign(a) => {
            assert!(a.is_new);
            let names: Vec<&str> = a.to_assign.iter().map(|v| v.name).collect();
            assert_eq!(names, vec!["a", "b"]);
            assert_eq!(a.type_assignment, NLType::I32);
            assert_eq!(integer(&a.assignment), Some((1, &NLType::NoType)));
        },
        _ => panic!("expected an assignment"),
    }
    let op = parse_expression("x = !true").unwrap();
    match op {
        NLOperation::Assign(a) => {
            assert!(!a.is_new);
            assert_eq!(
                *a.assignment,
                NLOperation::Operator(OpOperator::LogicalNegate(Box::new(NLOperation::Constant(
                    OpConstant::Boolean(true)
                ))))
            );
        },
        _ => panic!("expected an assignment"),
    }
    let op = parse_expression("{let a = 1 let b = (2 == 3)}").unwrap();
    match op {
        NLOperation::Block(b) => assert_eq!(b.operations.len(), 2),
        _ => panic!("expected a block"),
    }
    assert_eq!(parse_expression("()"), Some(NLOperation::Tuple(vec![])));
}

#[test]
fn trailing_separator_with_several_items() {
    let a = parse_string("fn f(a: i32, &self, b: u8);", "t").unwrap();
    let b = parse_string("fn f(a: i32, &self, b: u8,);", "t").unwrap();
    let aa = a.get_functions()[0].get_arguments();
    let ab = b.get_functions()[0].get_arguments();
    assert_eq!(aa.len(), 3);
    assert_eq!(ab.len(), 3);
    for i in 0..3 {
        assert_eq!(aa[i].get_name(), ab[i].get_name());
        assert_eq!(aa[i].get_type(), ab[i].get_type());
    }
    let c = parse_string("struct P { x: f64, y: bool, z: &Q }", "t").unwrap();
    let d = parse_string("struct P { x: f64, y: bool, z: &Q, }", "t").unwrap();
    let vc = c.get_structs()[0].get_variables();
    let vd = d.get_structs()[0].get_variables();
    assert_eq!(vc.len(), 3);
    assert_eq!(vd.len(), 3);
    assert_eq!(vc[2].get_type(), &NLType::ReferencedStruct("Q"));
    for i in 0..3 {
        assert_eq!(vc[i].get_name(), vd[i].get_name());
        assert_eq!(vc[i].get_type(), vd[i].get_type());
    }
}

#[test]
fn operands_of_binary_operators_are_not_binary() {
    assert!(matches!(parse_expression("(1 * 2) - 3"), None));
    match parse_expression("1 - (3 / 4)").unwrap() {
        NLOperation::Operator(OpOperator::ArithmeticSub(a, b)) => {
            assert!(matches!(*a, NLOperation::Constant(_)));
            assert!(matches!(*b, NLOperation::Tuple(_)));
        },
        _ => panic!("expected a subtraction"),
    }
    assert!(parse_expression("1 * 2 - 3").is_none());
}
