use huzi::ast::{Block, EnumDef, EnumVariant, MatchArm, Pattern, Program, Stmt, StructDef, StructField, Type};
use huzi::decls::{
    check_type_cycles, find_variant, lower_type, register_enum_names, register_struct_names,
    resolve_enum_bodies, resolve_struct_bodies, struct_literal_fields, variant_construct, ValueType,
};
use huzi::lexer::Lexer;
use huzi::parser::Parser;
use huzi::decls::{first_pattern_enum, match_target, payload_binding, MatchTarget};
use huzi::program::{
    arms_tried, assign_target, check_assignable, check_known, check_loop_jump, check_nested, let_form, lvalue_root,
    plan_program, AssignTarget, LetForm, NameKind,
};

fn field(name: &str, t: Type) -> StructField {
    StructField { name: name.to_string(), field_type: t }
}

fn named(n: &str) -> Type {
    Type::Named(n.to_string())
}

fn st(name: &str, fields: Vec<StructField>) -> StructDef {
    StructDef { name: name.to_string(), fields }
}

fn en(name: &str, variants: Vec<(&str, Option<Type>)>) -> EnumDef {
    EnumDef {
        name: name.to_string(),
        variants: variants
            .into_iter()
            .map(|(n, p)| EnumVariant { name: n.to_string(), payload: p })
            .collect(),
    }
}

fn message(r: Result<(), huzi::error::HuziError>) -> String {
    match r {
        Ok(()) => panic!("expected an error"),
        Err(e) => e.message().to_string(),
    }
}

#[test]
fn scalar_type_mapping() {
    let none: Vec<StructDef> = vec![];
    let no_enums: Vec<EnumDef> = vec![];
    let mapped = |t: &Type| lower_type(t, &none, &no_enums).unwrap();
    assert_eq!(mapped(&Type::I32), ValueType::Int(32));
    assert_eq!(mapped(&Type::Bool), ValueType::Int(1));
    assert_eq!(mapped(&Type::F64), ValueType::Float(64));
    assert_eq!(mapped(&Type::F32), ValueType::Float(32));
    assert_eq!(mapped(&Type::Str), ValueType::Ptr);
    // Arrays decay to bare pointers.
    assert_eq!(mapped(&Type::Array(Box::new(Type::I32), 4)), ValueType::Ptr);
}

#[test]
fn named_types_lower_to_primitives_structs_and_enums() {
    let structs = vec![st("Point", vec![field("x", Type::I32)])];
    let enums = vec![en("Color", vec![("Red", None)]), en("Shape", vec![("Circle", Some(Type::F64))])];
    assert_eq!(lower_type(&named("u64"), &structs, &enums).unwrap(), ValueType::Int(64));
    assert_eq!(lower_type(&named("char"), &structs, &enums).unwrap(), ValueType::Int(8));
    assert_eq!(lower_type(&named("Point"), &structs, &enums).unwrap(), ValueType::Aggregate("Point".to_string()));
    assert_eq!(lower_type(&named("Color"), &structs, &enums).unwrap(), ValueType::Int(32));
    assert_eq!(lower_type(&named("Shape"), &structs, &enums).unwrap(), ValueType::Aggregate("Shape".to_string()));
    let e = lower_type(&named("Nope"), &structs, &enums).unwrap_err();
    assert_eq!(e.message(), "Unsupported type: Nope");
}

#[test]
fn by_value_cycle_is_rejected() {
    let structs = vec![st("A", vec![field("b", named("B"))]), st("B", vec![field("a", named("A"))])];
    assert_eq!(message(check_type_cycles(&structs, &[])), "Type 'A' is part of a by-value reference cycle");
}

#[test]
fn type_leading_into_a_cycle_is_reported_first() {
    let structs = vec![
        st("Top", vec![field("c", named("C"))]),
        st("C", vec![field("d", named("D"))]),
        st("D", vec![field("c", named("C"))]),
    ];
    assert_eq!(message(check_type_cycles(&structs, &[])), "Type 'Top' is part of a by-value reference cycle");
}

#[test]
fn cycle_through_an_enum_payload() {
    let structs = vec![st("Node", vec![field("next", named("Link"))])];
    let enums = vec![en("Link", vec![("More", Some(named("Node"))), ("End", None)])];
    assert_eq!(message(check_type_cycles(&structs, &enums)), "Type 'Node' is part of a by-value reference cycle");
}

#[test]
fn arrays_and_undeclared_names_make_no_cycle() {
    let structs = vec![
        st("List", vec![field("items", Type::Array(Box::new(named("List")), 3))]),
        st("Other", vec![field("x", named("Unknown")), field("y", Type::I32)]),
        st("Chain", vec![field("o", named("Other"))]),
    ];
    assert!(check_type_cycles(&structs, &[]).is_ok());
}

#[test]
fn duplicate_type_names() {
    let structs = vec![st("A", vec![]), st("B", vec![]), st("A", vec![])];
    assert_eq!(message(register_struct_names(&structs)), "Duplicate type definition: A");
    let structs = vec![st("A", vec![])];
    let enums = vec![en("E", vec![]), en("A", vec![])];
    assert!(register_struct_names(&structs).is_ok());
    assert_eq!(message(register_enum_names(&structs, &enums)), "Duplicate type definition: A");
    let enums = vec![en("E", vec![]), en("E", vec![])];
    assert_eq!(message(register_enum_names(&structs, &enums)), "Duplicate type definition: E");
    let enums = vec![en("E", vec![]), en("F", vec![])];
    assert!(register_enum_names(&structs, &enums).is_ok());
}

#[test]
fn struct_body_errors_in_order() {
    let own = vec![st("S", vec![field("me", named("S"))])];
    assert_eq!(message(resolve_struct_bodies(&own, &[])), "Struct 'S' cannot contain itself by value");
    let unknown = vec![st("S", vec![field("x", named("Missing"))])];
    assert_eq!(message(resolve_struct_bodies(&unknown, &[])), "Unsupported type: Missing");
    let dup = vec![st("S", vec![field("x", Type::I32), field("x", Type::I64)])];
    assert_eq!(message(resolve_struct_bodies(&dup, &[])), "Duplicate field 'x' in struct 'S'");
    let fine = vec![st("S", vec![field("x", Type::I32), field("t", named("T"))]), st("T", vec![])];
    assert!(resolve_struct_bodies(&fine, &[]).is_ok());
}

#[test]
fn enum_layout_tags_and_payload_slots() {
    let enums = vec![en("E", vec![("A", None), ("B", Some(Type::I32)), ("C", None), ("D", Some(Type::F64))])];
    let layouts = resolve_enum_bodies(&[], &enums).unwrap();
    assert_eq!(layouts.len(), 1);
    let l = &layouts[0];
    assert_eq!(l.iter().map(|v| v.tag).collect::<Vec<_>>(), vec![0, 1, 2, 3]);
    assert_eq!(l.iter().map(|v| v.payload_slot).collect::<Vec<_>>(), vec![None, Some(0), None, Some(1)]);
}

#[test]
fn enum_body_errors() {
    let dup = vec![en("E", vec![("A", None), ("A", None)])];
    assert_eq!(resolve_enum_bodies(&[], &dup).unwrap_err().message(), "Duplicate variant 'A' in enum 'E'");
    let bad = vec![en("E", vec![("A", Some(named("Ghost")))])];
    assert_eq!(resolve_enum_bodies(&[], &bad).unwrap_err().message(), "Unsupported type: Ghost");
}

#[test]
fn struct_literal_checks_and_slots() {
    let point = st("Point", vec![field("x", Type::I32), field("y", Type::I32)]);
    let given = |ns: &[&str]| ns.iter().map(|s| s.to_string()).collect::<Vec<String>>();
    assert_eq!(struct_literal_fields(&point, &given(&["y", "x"])).unwrap(), vec![1, 0]);
    assert_eq!(
        struct_literal_fields(&point, &given(&["x", "x", "z"])).unwrap_err().message(),
        "Duplicate field 'x' in struct literal"
    );
    assert_eq!(
        struct_literal_fields(&point, &given(&["x", "z"])).unwrap_err().message(),
        "Struct 'Point' has no field 'z'"
    );
    assert_eq!(
        struct_literal_fields(&point, &given(&["y"])).unwrap_err().message(),
        "Missing field 'x' in struct literal for 'Point'"
    );
}

#[test]
fn variant_lookup_and_construction() {
    let e = en("Shape", vec![("Circle", Some(Type::F64)), ("Empty", None)]);
    assert_eq!(find_variant(&e, &"Empty".to_string()).unwrap(), 1);
    assert_eq!(find_variant(&e, &"Square".to_string()).unwrap_err().message(), "Enum 'Shape' has no variant 'Square'");
    assert_eq!(variant_construct(&e, &"Circle".to_string(), 1).unwrap(), 0);
    assert_eq!(
        variant_construct(&e, &"Circle".to_string(), 2).unwrap_err().message(),
        "Variant 'Shape::Circle' expects exactly 1 argument"
    );
    assert_eq!(
        variant_construct(&e, &"Empty".to_string(), 1).unwrap_err().message(),
        "Unit variant 'Shape::Empty' takes no arguments"
    );
}

fn parse(src: &str) -> Program {
    let tokens = Lexer::new(src.to_string()).tokenize().unwrap();
    Parser::new(tokens).parse().unwrap()
}

#[test]
fn program_plan_sorts_statements() {
    let program = parse("struct P { x: i32 }\nenum E { A }\nfn f() { }\nlet x = 1\nprint(x)");
    let plan = plan_program(&program);
    assert_eq!(plan.structs, vec![0]);
    assert_eq!(plan.enums, vec![1]);
    assert_eq!(plan.functions, vec![2]);
    assert_eq!(plan.top_level, vec![3, 4]);
    assert!(!plan.has_main);
    assert_eq!(plan.entry().unwrap(), true);
    assert!(matches!(program.statements[0].node, Stmt::Struct(_)));
}

#[test]
fn entry_point_rule() {
    let with_main = parse("fn main() -> i32 { return 0 }");
    assert_eq!(plan_program(&with_main).entry().unwrap(), false);
    let mixed = parse("fn main() -> i32 { return 0 }\nlet x = 1");
    assert_eq!(
        plan_program(&mixed).entry().unwrap_err().message(),
        "Cannot mix top-level statements with `fn main`; move the top-level code into a function"
    );
    let nothing = parse("fn helper() { }");
    assert_eq!(
        plan_program(&nothing).entry().unwrap_err().message(),
        "No `fn main` found; define `fn main() -> i32 { ... }` or write top-level statements"
    );
}


#[test]
fn match_target_by_scrutinee_and_patterns() {
    let enums = vec![en("Color", vec![("Red", None)]), en("Shape", vec![("Circle", Some(Type::F64))])];
    let shape = "Shape".to_string();
    let color = "Color".to_string();
    let agg = ValueType::Aggregate("Shape".to_string());
    assert_eq!(match_target(&agg, Some(&shape), &enums).unwrap(), MatchTarget::Data(1));
    assert_eq!(match_target(&agg, None, &enums).unwrap(), MatchTarget::Data(1));
    assert_eq!(
        match_target(&agg, Some(&color), &enums).unwrap_err().message(),
        "Match arms use 'Color' but the scrutinee is 'Shape'"
    );
    assert_eq!(match_target(&ValueType::Int(32), Some(&color), &enums).unwrap(), MatchTarget::Tag(Some(0)));
    assert_eq!(match_target(&ValueType::Int(32), None, &enums).unwrap(), MatchTarget::Tag(None));
    assert_eq!(
        match_target(&ValueType::Int(32), Some(&shape), &enums).unwrap_err().message(),
        "Cannot match 'Shape' against a plain i32 scrutinee; it carries data"
    );
    assert_eq!(
        match_target(&ValueType::Int(32), Some(&"Nope".to_string()), &enums).unwrap_err().message(),
        "Unknown enum: Nope"
    );
    assert_eq!(
        match_target(&ValueType::Float(64), None, &enums).unwrap_err().message(),
        "match scrutinee must be an enum value"
    );
}

#[test]
fn first_variant_pattern_names_the_enum() {
    let program = parse("let r = match s { _ => 0, Shape::Circle(r) => r, Color::Red => 1 }");
    let Stmt::Let(l) = &program.statements[0].node else { panic!("expected let") };
    let Some(huzi::ast::Expr::Match(m)) = &l.value else { panic!("expected match") };
    assert_eq!(first_pattern_enum(&m.arms), Some("Shape".to_string()));
}

#[test]
fn binding_a_payload() {
    let e = en("E", vec![("A", None), ("B", Some(Type::I32)), ("C", Some(Type::F64))]);
    let layouts = resolve_enum_bodies(&[], &[e.clone()]).unwrap();
    assert_eq!(payload_binding(&e, &layouts[0], 2, true).unwrap(), 1);
    assert_eq!(payload_binding(&e, &layouts[0], 0, true).unwrap_err().message(), "Variant 'E::A' has no payload to bind");
    assert_eq!(payload_binding(&e, &layouts[0], 1, false).unwrap_err().message(), "Variant 'E::B' has no payload to bind");
}

#[test]
fn statement_rules_inside_functions() {
    let program = parse("struct P { x: i32 }\nenum E { A }\nlet x = 1");
    assert_eq!(
        check_nested(&program.statements[0].node).unwrap_err().message(),
        "Struct definitions are only allowed at the top level"
    );
    assert_eq!(
        check_nested(&program.statements[1].node).unwrap_err().message(),
        "Enum definitions are only allowed at the top level"
    );
    assert!(check_nested(&program.statements[2].node).is_ok());
}

#[test]
fn let_forms() {
    let program = parse("let a = [1, 2]\nlet b = []\nlet c = 3\nlet d: i32\nlet e");
    let lets: Vec<&huzi::ast::LetStmt> = program
        .statements
        .iter()
        .map(|s| match &s.node {
            Stmt::Let(l) => l,
            _ => panic!("expected let"),
        })
        .collect();
    assert_eq!(let_form(lets[0]).unwrap(), LetForm::Array);
    assert_eq!(let_form(lets[1]).unwrap_err().message(), "Empty array literal not supported");
    assert_eq!(let_form(lets[2]).unwrap(), LetForm::Value);
    assert_eq!(let_form(lets[3]).unwrap(), LetForm::Zeroed);
    assert_eq!(
        let_form(lets[4]).unwrap_err().message(),
        "Variable 'e' declared without a value or a type annotation"
    );
}

#[test]
fn assignment_targets_and_roots() {
    let program = parse("p.items[2].x = 1\nv = 2");
    let target = |i: usize| match &program.statements[i].node {
        Stmt::Expr(e) => match &e.expr {
            huzi::ast::Expr::Assign(a) => &*a.target,
            _ => panic!("expected assignment"),
        },
        _ => panic!("expected expression statement"),
    };
    assert_eq!(assign_target(target(0)).unwrap(), AssignTarget::Field);
    assert_eq!(lvalue_root(target(0)), Some("p".to_string()));
    assert_eq!(assign_target(target(1)).unwrap(), AssignTarget::Variable);
    assert_eq!(lvalue_root(target(1)), Some("v".to_string()));
    let literal = huzi::ast::Expr::Literal(huzi::ast::Literal::Int(3));
    assert_eq!(assign_target(&literal).unwrap_err().message(), "Invalid assignment target");
    assert_eq!(lvalue_root(&literal), None);
}

#[test]
fn types_as_written() {
    assert_eq!(Type::I64.text(), "i64");
    assert_eq!(Type::Unit.text(), "()");
    assert_eq!(named("Point").text(), "Point");
    assert_eq!(Type::Array(Box::new(Type::Array(Box::new(Type::Char), 2)), 10).text(), "[[char; 2]; 10]");
}

#[test]
fn program_plan_sets_imports_apart() {
    let program = parse("import mods.helpers\nfn main() -> i32 { return 0 }");
    let plan = plan_program(&program);
    assert_eq!(plan.imports, vec![0]);
    assert_eq!(plan.functions, vec![1]);
    assert!(plan.top_level.is_empty());
    assert!(plan.has_main);
    assert_eq!(plan.entry().unwrap(), false);
}

#[test]
fn variables_must_be_bound_and_mutable_to_assign() {
    let none: Vec<String> = vec![];
    assert!(check_known(NameKind::Variable, "x", true, &none).is_ok());
    assert_eq!(check_known(NameKind::Variable, "y", false, &none).unwrap_err().message(), "Unknown variable: y");
    assert!(check_assignable("x", Some(true), &none).is_ok());
    assert_eq!(
        check_assignable("x", Some(false), &none).unwrap_err().message(),
        "Cannot assign to immutable variable 'x'; declare it with `let mut`"
    );
    assert_eq!(check_assignable("count", None, &none).unwrap_err().message(), "Unknown variable: count");
    let visible = vec!["counter".to_string()];
    assert_eq!(
        check_assignable("countr", None, &visible).unwrap_err().message(),
        "Unknown variable: countr\n  help: did you mean `counter`?"
    );
}

#[test]
fn break_and_continue_need_a_loop() {
    assert!(check_loop_jump(true, 1).is_ok());
    assert!(check_loop_jump(false, 3).is_ok());
    assert_eq!(check_loop_jump(true, 0).unwrap_err().message(), "`break` outside of a loop");
    assert_eq!(check_loop_jump(false, 0).unwrap_err().message(), "`continue` outside of a loop");
}

fn arm(pattern: Pattern) -> MatchArm {
    MatchArm { pattern, body: Block { statements: vec![] } }
}

fn variant_arm(v: &str) -> MatchArm {
    arm(Pattern::Variant { enum_name: "Shape".to_string(), variant: v.to_string(), binding: None })
}

#[test]
fn match_arms_run_up_to_the_wildcard() {
    let arms = vec![variant_arm("Circle"), arm(Pattern::Wildcard), variant_arm("Rect")];
    assert_eq!(arms_tried(&arms).unwrap(), 2);
    assert_eq!(arms_tried(&vec![arm(Pattern::Wildcard)]).unwrap(), 1);
    let e = arms_tried(&vec![variant_arm("Circle"), variant_arm("Rect")]).unwrap_err();
    assert_eq!(e.message(), "match must have a wildcard arm `_`");
    assert_eq!(arms_tried(&vec![]).unwrap_err().message(), "match must have a wildcard arm `_`");
}

#[test]
fn unknown_names_say_what_they_were_looked_up_as() {
    let visible = vec!["fo".to_string(), "Pointer".to_string(), "Colour".to_string()];
    assert!(check_known(NameKind::Function, "f", true, &visible).is_ok());
    assert_eq!(
        check_known(NameKind::Function, "foo", false, &visible).unwrap_err().message(),
        "Unknown function: foo\n  help: did you mean `fo`?"
    );
    assert_eq!(check_known(NameKind::Function, "bar", false, &visible).unwrap_err().message(), "Unknown function: bar");
    assert_eq!(check_known(NameKind::Struct, "Point", false, &visible).unwrap_err().message(), "Unknown struct: Point");
    assert_eq!(check_known(NameKind::Enum, "Color", false, &visible).unwrap_err().message(), "Unknown enum: Color");
}

#[test]
fn unknown_variable_error_suggests_close_name() {
    // `let count = 1; return cont + 1`: the visible names are the function
    // `main` and the variable `count`.
    let visible = vec!["main".to_string(), "count".to_string()];
    let err = check_known(NameKind::Variable, "cont", false, &visible).expect_err("typo must fail");
    let message = err.message();
    assert!(message.contains("Unknown variable: cont"), "got: {}", message);
    assert!(message.contains("did you mean `count`?"), "got: {}", message);
}

#[test]
fn tuple_type_maps_to_struct() {
    // A tuple is an aggregate of its components, named as it is written.
    let ty = Type::Tuple(vec![Type::I32, Type::Str]);
    assert_eq!(lower_type(&ty, &[], &[]).unwrap(), ValueType::Aggregate("(i32, str)".to_string()));
    assert_eq!(ty.text(), "(i32, str)");
    let nested = Type::Tuple(vec![named("i64"), Type::Tuple(vec![Type::Bool])]);
    assert_eq!(lower_type(&nested, &[], &[]).unwrap(), ValueType::Aggregate("(i64, (bool))".to_string()));
}

#[test]
fn tuple_with_an_unknown_component() {
    let ty = Type::Tuple(vec![Type::I32, named("Foo"), named("Bar")]);
    assert_eq!(lower_type(&ty, &[], &[]).unwrap_err().message(), "Unsupported type: Foo");
}

#[test]
fn cycle_through_a_tuple_field() {
    let structs = vec![
        st("A", vec![field("pair", Type::Tuple(vec![Type::I32, named("B")]))]),
        st("B", vec![field("a", named("A"))]),
    ];
    assert_eq!(message(check_type_cycles(&structs, &[])), "Type 'A' is part of a by-value reference cycle");
}
