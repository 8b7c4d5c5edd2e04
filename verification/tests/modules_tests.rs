use huzi::ast::{Program, Stmt};
use huzi::lexer::Lexer;
use huzi::modules::{
    extract_imports, import_step, module_bind_name, module_file_segments, module_program_error, resolved_step,
    ImportStep,
};
use huzi::parser::Parser;

fn parse(src: &str) -> Program {
    let tokens = Lexer::new(src.to_string()).tokenize().unwrap();
    Parser::new(tokens).parse().unwrap()
}

#[test]
fn imports_are_taken_out_in_order() {
    let mut program = parse("import math\nlet x = 1\nimport mods.helpers\nfn f() { }\nprint(x)");
    let names = extract_imports(&mut program);
    assert_eq!(names, vec!["math".to_string(), "mods.helpers".to_string()]);
    assert_eq!(program.statements.len(), 3);
    assert!(matches!(program.statements[0].node, Stmt::Let(_)));
    assert!(matches!(program.statements[1].node, Stmt::Fn(_)));
    assert!(matches!(program.statements[2].node, Stmt::Expr(_)));
    assert_eq!(program.statements[1].span.line, 4);
}

#[test]
fn modules_hold_only_definitions_and_imports() {
    let ok = parse("import math\nstruct P { x: i32 }\nenum E { A }\nfn f() { }");
    assert!(module_program_error("helpers", &ok).is_ok());
    let bad = parse("fn f() { }\nlet x = 1");
    assert_eq!(
        module_program_error("helpers", &bad).unwrap_err().message(),
        "Module 'helpers' may only contain fn/struct/enum definitions and imports"
    );
}

#[test]
fn import_names_give_file_segments_and_bound_names() {
    assert_eq!(module_file_segments("mods.helpers"), vec!["mods".to_string(), "helpers".to_string()]);
    assert_eq!(module_file_segments("util"), vec!["util".to_string()]);
    assert_eq!(module_file_segments("a."), vec!["a".to_string(), "".to_string()]);
    assert_eq!(module_bind_name("mods.helpers"), "helpers");
    assert_eq!(module_bind_name("util"), "util");
}

#[test]
fn what_an_import_does() {
    let loaded = vec!["helpers".to_string()];
    assert_eq!(import_step(&loaded, "helpers"), ImportStep::AlreadyLoaded);
    assert_eq!(import_step(&loaded, "math"), ImportStep::Builtin);
    assert_eq!(import_step(&loaded, "util"), ImportStep::FindFile);
    assert_eq!(import_step(&vec!["math".to_string()], "math"), ImportStep::AlreadyLoaded);
}

#[test]
fn a_name_resolves_to_one_file() {
    let resolved = vec![("helpers".to_string(), "./mods/helpers.hz".to_string())];
    assert_eq!(resolved_step(&resolved, "util", "./util.hz").unwrap(), true);
    assert_eq!(resolved_step(&resolved, "helpers", "./mods/helpers.hz").unwrap(), false);
    assert_eq!(
        resolved_step(&resolved, "helpers", "./helpers.hz").unwrap_err().message(),
        "Module 'helpers' resolves to different files: ./mods/helpers.hz and ./helpers.hz"
    );
}
