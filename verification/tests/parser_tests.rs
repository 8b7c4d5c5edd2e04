use huzi::ast::{BinOp, Expr, ForSource, Literal, Pattern, Program, Stmt, Type};
use huzi::lexer::Lexer;
use huzi::parser::Parser;

fn parse(src: &str) -> Program {
    let tokens = Lexer::new(src.to_string())
        .tokenize()
        .unwrap_or_else(|e| panic!("unexpected lex error: {}", e.render()));
    Parser::new(tokens)
        .parse()
        .unwrap_or_else(|e| panic!("unexpected parse error: {}", e.render()))
}

fn parse_err(src: &str) -> huzi::error::HuziError {
    let tokens = Lexer::new(src.to_string()).tokenize().expect("lexing must succeed");
    match Parser::new(tokens).parse() {
        Ok(_) => panic!("parsing `{}` must fail", src),
        Err(e) => e,
    }
}

#[test]
fn multiplication_binds_tighter_than_addition() {
    let program = parse("let r = 1 + 2 * 3");
    let Stmt::Let(let_stmt) = &program.statements[0].node else {
        panic!("expected a let statement");
    };
    let Some(Expr::Binary(add)) = &let_stmt.value else {
        panic!("expected a binary expression");
    };
    assert!(matches!(add.operator, BinOp::Add));
    let Expr::Literal(Literal::Int(1)) = &*add.left else {
        panic!("expected literal 1 as the left operand");
    };
    let Expr::Binary(mul) = &*add.right else {
        panic!("expected `2 * 3` as the right operand");
    };
    assert!(matches!(mul.operator, BinOp::Mul));
}

#[test]
fn let_mut_is_parsed_as_mutable() {
    let program = parse("let mut x = 1
let y = 2");
    let Stmt::Let(mutable) = &program.statements[0].node else {
        panic!("expected a let statement");
    };
    assert!(mutable.mutable);
    let Stmt::Let(immutable) = &program.statements[1].node else {
        panic!("expected a let statement");
    };
    assert!(!immutable.mutable);
}

#[test]
fn if_elif_else_structure() {
    let program = parse(
        "if x > 0 { let a = 1 } elif x < 0 { let b = 2 } else { let c = 3 }",
    );
    let Stmt::If(if_stmt) = &program.statements[0].node else {
        panic!("expected an if statement");
    };
    assert_eq!(if_stmt.then_branch.statements.len(), 1);
    assert_eq!(if_stmt.elif_branches.len(), 1);
    assert!(if_stmt.else_branch.is_some());
}

#[test]
fn parse_error_reports_real_position() {
    let tokens = Lexer::new("let x = ;".to_string())
        .tokenize()
        .expect("lexing must succeed");
    let err = match Parser::new(tokens).parse() {
        Ok(_) => panic!("`;` is not a valid expression"),
        Err(e) => e,
    };
    assert_eq!((err.line(), err.column()), (1, 9));
}

#[test]
fn unexpected_token_message_names_the_token() {
    let err = parse_err("let x = ;");
    assert_eq!(err.message(), "Unexpected token: ;");
    assert_eq!(err.render(), "Error at line 1, column 9: Unexpected token: ;");
}

#[test]
fn comparison_binds_looser_than_addition_and_left_associates() {
    let program = parse("let r = 1 - 2 - 3 < 4");
    let Stmt::Let(l) = &program.statements[0].node else { panic!("expected let") };
    let Some(Expr::Binary(lt)) = &l.value else { panic!("expected comparison") };
    assert!(matches!(lt.operator, BinOp::Lt));
    let Expr::Binary(sub2) = &*lt.left else { panic!("expected subtraction") };
    assert!(matches!(sub2.operator, BinOp::Sub));
    let Expr::Binary(sub1) = &*sub2.left else { panic!("subtraction must associate to the left") };
    assert!(matches!(sub1.operator, BinOp::Sub));
    assert!(matches!(&*sub2.right, Expr::Literal(Literal::Int(3))));
}

#[test]
fn and_binds_tighter_than_or() {
    let program = parse("let r = a || b && c");
    let Stmt::Let(l) = &program.statements[0].node else { panic!("expected let") };
    let Some(Expr::Binary(or)) = &l.value else { panic!("expected ||") };
    assert!(matches!(or.operator, BinOp::Or));
    let Expr::Binary(and) = &*or.right else { panic!("expected && on the right") };
    assert!(matches!(and.operator, BinOp::And));
}

#[test]
fn function_with_params_and_return_type() {
    let program = parse("fn add(a: i32, b: i64) -> i64 { return a + b }");
    let Stmt::Fn(f) = &program.statements[0].node else { panic!("expected fn") };
    assert_eq!(f.name, "add");
    assert_eq!(f.params.len(), 2);
    assert_eq!(f.params[0].name, "a");
    assert!(matches!(&f.params[0].param_type, Type::Named(n) if n == "i32"));
    assert!(matches!(&f.params[1].param_type, Type::Named(n) if n == "i64"));
    assert!(matches!(&f.return_type, Some(Type::Named(n)) if n == "i64"));
    assert_eq!(f.body.statements.len(), 1);
    assert!(matches!(f.body.statements[0], Stmt::Return(_)));
}

#[test]
fn struct_and_enum_definitions() {
    let program = parse("struct Point { x: i32, y: f64 }\nenum Shape { Circle(f64), Empty }");
    let Stmt::Struct(s) = &program.statements[0].node else { panic!("expected struct") };
    assert_eq!(s.name, "Point");
    assert_eq!(s.fields.len(), 2);
    assert_eq!(s.fields[1].name, "y");
    assert!(matches!(&s.fields[1].field_type, Type::Named(n) if n == "f64"));
    let Stmt::Enum(e) = &program.statements[1].node else { panic!("expected enum") };
    assert_eq!(e.name, "Shape");
    assert_eq!(e.variants.len(), 2);
    assert!(matches!(&e.variants[0].payload, Some(Type::Named(n)) if n == "f64"));
    assert!(e.variants[1].payload.is_none());
}

#[test]
fn array_type_and_named_type() {
    let program = parse("let a: [i32; 4] = [1, 2, 3, 4]\nlet p: Point = q");
    let Stmt::Let(l) = &program.statements[0].node else { panic!("expected let") };
    let Some(Type::Array(elem, 4)) = &l.type_annotation else { panic!("expected [i32; 4]") };
    assert!(matches!(&**elem, Type::Named(n) if n == "i32"));
    let Some(Expr::ArrayLiteral(items)) = &l.value else { panic!("expected array literal") };
    assert_eq!(items.len(), 4);
    let Stmt::Let(l2) = &program.statements[1].node else { panic!("expected let") };
    let Some(Type::Named(n)) = &l2.type_annotation else { panic!("expected named type") };
    assert_eq!(n, "Point");
}

#[test]
fn for_range_loop() {
    let program = parse("for i in 0..10 { print(i) }");
    let Stmt::For(f) = &program.statements[0].node else { panic!("expected for") };
    assert_eq!(f.var_name, "i");
    let ForSource::Range(start, end) = &f.source else { panic!("expected a range") };
    assert!(matches!(start, Expr::Literal(Literal::Int(0))));
    assert!(matches!(end, Expr::Literal(Literal::Int(10))));
    assert_eq!(f.body.statements.len(), 1);
}

#[test]
fn match_with_variant_binding_and_wildcard() {
    let program = parse("let r = match s { Shape::Circle(r) => r, _ => 0 }");
    let Stmt::Let(l) = &program.statements[0].node else { panic!("expected let") };
    let Some(Expr::Match(m)) = &l.value else { panic!("expected match") };
    assert_eq!(m.arms.len(), 2);
    let Pattern::Variant { enum_name, variant, binding } = &m.arms[0].pattern else {
        panic!("expected a variant pattern");
    };
    assert_eq!(enum_name, "Shape");
    assert_eq!(variant, "Circle");
    assert_eq!(binding.as_deref(), Some("r"));
    assert!(matches!(m.arms[1].pattern, Pattern::Wildcard));
}

#[test]
fn struct_literal_and_field_access() {
    let program = parse("let p = Point { x: 1, y: 2 }\nlet z = p.x");
    let Stmt::Let(l) = &program.statements[0].node else { panic!("expected let") };
    let Some(Expr::StructLiteral(sl)) = &l.value else { panic!("expected struct literal") };
    assert_eq!(sl.name, "Point");
    assert_eq!(sl.fields.len(), 2);
    assert_eq!(sl.fields[0].0, "x");
    let Stmt::Let(l2) = &program.statements[1].node else { panic!("expected let") };
    let Some(Expr::FieldAccess(fa)) = &l2.value else { panic!("expected field access") };
    assert_eq!(fa.field, "x");
}

#[test]
fn if_expression_folds_elif_into_else() {
    let program = parse("let v = if a { 1 } elif b { 2 } else { 3 }");
    let Stmt::Let(l) = &program.statements[0].node else { panic!("expected let") };
    let Some(Expr::If(outer)) = &l.value else { panic!("expected if expression") };
    assert_eq!(outer.else_branch.statements.len(), 1);
    let Stmt::Expr(inner) = &outer.else_branch.statements[0] else { panic!("expected nested if") };
    assert!(matches!(inner.expr, Expr::If(_)));
}

#[test]
fn if_expression_without_else_is_an_error() {
    let err = parse_err("let v = if a { 1 }");
    assert_eq!(err.message(), "Expected 'else' after if expression");
}

#[test]
fn empty_program_parses_to_nothing() {
    let program = parse("   // only a comment\n");
    assert!(program.statements.is_empty());
}

#[test]
fn documented_example_with_hash_comments_parses() {
    let program = parse(
        "# 变量声明
let x: i32 = 10
let mut y = 20

# 函数定义
fn add(a: i32, b: i32) -> i32 {
    return a + b
}

# 控制流
if x > 5 {
    print(\"big\")
} elif x > 2 {
    print(\"medium\")
} else {
    print(\"small\")
}

# 循环
for i in 0..10 {
    print(i)
}",
    );
    assert_eq!(program.statements.len(), 5);
    assert!(matches!(program.statements[2].node, Stmt::Fn(_)));
    assert!(matches!(program.statements[3].node, Stmt::If(_)));
    assert!(matches!(program.statements[4].node, Stmt::For(_)));
}

#[test]
fn documented_enum_and_match_example_parses() {
    let program = parse(
        "enum Shape {
    Circle(f64),
    Rect(f64),
    Point2D,
}
fn area(s: Shape) -> f64 {
    return match s {
        Shape::Circle(r) => 3.14159 * r * r,
        Shape::Rect(w) => w * w,
        Shape::Point2D => 0.0,
        _ => 0.0,
    }
}
let s = Shape::Circle(2.0)
print(area(s))",
    );
    assert_eq!(program.statements.len(), 4);
    let Stmt::Let(l) = &program.statements[2].node else { panic!("expected let") };
    let Some(Expr::EnumConstruct(ec)) = &l.value else { panic!("expected enum construction") };
    assert_eq!(ec.enum_name, "Shape");
    assert_eq!(ec.variant, "Circle");
    assert_eq!(ec.args.len(), 1);
}

#[test]
fn parse_source_reports_the_failing_stage_with_a_position() {
    let program = huzi::parser::parse_source("let x = 1\nprint(x)".to_string()).unwrap();
    assert_eq!(program.statements.len(), 2);
    match huzi::parser::parse_source("let x = 1\n  @".to_string()) {
        Err(huzi::parser::SourceError::Lex(e)) => assert_eq!((e.line(), e.column()), (2, 3)),
        _ => panic!("expected a lexing error"),
    }
    match huzi::parser::parse_source("let x = ;".to_string()) {
        Err(huzi::parser::SourceError::Parse(e)) => {
            assert_eq!(e.render(), "Error at line 1, column 9: Unexpected token: ;")
        }
        _ => panic!("expected a parse error"),
    }
}

#[test]
fn import_parses_dotted_name() {
    let program = parse("import mods.helpers");
    let Stmt::Import(imp) = &program.statements[0].node else {
        panic!("expected an import statement");
    };
    assert_eq!(imp.name, "mods.helpers");
}

/// `for x in arr` reads as a walk over the array.
#[test]
fn parses_for_in_array() {
    let program = parse("fn main() -> i32 {\n    for x in nums {\n        print(x)\n    }\n    return 0\n}");
    let Stmt::Fn(fn_stmt) = &program.statements[0].node else {
        panic!("expected fn main");
    };
    let mut found_array = false;
    for s in &fn_stmt.body.statements {
        if let Stmt::For(for_stmt) = s {
            assert!(
                matches!(&for_stmt.source, ForSource::Array(_)),
                "for x in nums should parse as array iteration"
            );
            found_array = true;
        }
    }
    assert!(found_array, "for statement should be present");
}

#[test]
fn import_of_a_single_name_and_its_errors() {
    let program = parse("import helpers\nlet x = 1");
    let Stmt::Import(imp) = &program.statements[0].node else { panic!("expected an import statement") };
    assert_eq!(imp.name, "helpers");
    assert!(matches!(program.statements[1].node, Stmt::Let(_)));
    assert_eq!(parse_err("import 1").message(), "Expected module name after 'import'");
    assert_eq!(parse_err("import a.").message(), "Expected module name after '.'");
}

#[test]
fn for_over_an_array_expression() {
    let program = parse("for x in [1, 2, 3] { print(x) }");
    let Stmt::For(f) = &program.statements[0].node else { panic!("expected for") };
    assert_eq!(f.var_name, "x");
    let ForSource::Array(Expr::ArrayLiteral(items)) = &f.source else { panic!("expected an array source") };
    assert_eq!(items.len(), 3);
}

#[test]
fn empty_token_list_is_an_empty_program() {
    let program = Parser::new(vec![]).parse().unwrap();
    assert!(program.statements.is_empty());
}

#[test]
fn statements_carry_source_span() {
    let program = parse("let x = 1\nlet y = 2");
    assert_eq!(program.statements[0].span.line, 1);
    assert_eq!(program.statements[0].span.column, 1);
    assert_eq!(program.statements[1].span.line, 2);
    assert_eq!(program.statements[1].span.column, 1);
}

#[test]
fn spans_point_at_each_first_token() {
    let program = parse("  import a\n\n   fn f() { }   print(1)");
    let spans: Vec<(usize, usize)> = program.statements.iter().map(|s| (s.span.line, s.span.column)).collect();
    assert_eq!(spans, vec![(1, 3), (3, 4), (3, 17)]);
}

#[test]
fn tokens_without_end_of_input_get_one() {
    let mut tokens = Lexer::new("let x = 1".to_string()).tokenize().unwrap();
    tokens.pop();
    let program = Parser::new(tokens).parse().unwrap();
    assert_eq!(program.statements.len(), 1);
    let mut tokens = Lexer::new("let x =".to_string()).tokenize().unwrap();
    tokens.pop();
    let e = Parser::new(tokens).parse().unwrap_err();
    assert_eq!((e.line(), e.column()), (1, 7));
}

#[test]
fn tuple_and_unit_types() {
    let program = parse("let t: (i32, str, (bool, f64))\nlet u: ()\nlet one: (i32)");
    let Stmt::Let(l) = &program.statements[0].node else { panic!("expected let") };
    let Some(Type::Tuple(parts)) = &l.type_annotation else { panic!("expected a tuple type") };
    assert_eq!(parts.len(), 3);
    assert!(matches!(&parts[0], Type::Named(n) if n == "i32"));
    assert!(matches!(&parts[2], Type::Tuple(inner) if inner.len() == 2));
    let Stmt::Let(l) = &program.statements[1].node else { panic!("expected let") };
    assert!(matches!(l.type_annotation, Some(Type::Unit)));
    let Stmt::Let(l) = &program.statements[2].node else { panic!("expected let") };
    assert!(matches!(&l.type_annotation, Some(Type::Tuple(p)) if p.len() == 1));
    assert_eq!(parse_err("let t: (i32, str").message(), "Expected ')' in tuple type");
}
