use huzi::ast::{BinOp, EnumDef, EnumVariant, Type, UnOp};
use huzi::decls::lower_type;
use huzi::builtins::{
    abs_plan, builtin_of, check_arity, check_call_arity, print_format, print_kind, string_argument,
    spec_text, string_spec_text, to_f64_coercion, to_string_buffer_size, to_string_kind, Builtin, FormatKind,
};
use huzi::cli::{llc_arguments, LinkerKind};
use huzi::decls::ValueType;
use huzi::ops::{
    binary_plan, coercion, index_coercion, int_literal_type, short_circuit, truth, unary_plan, Coercion,
    bounds_check, divisor_check_message, Conversion, DivisorCheck, FloatComparison, IntComparison, Operation, Truth,
    UnaryPlan,
};

#[test]
fn mixed_int_and_float_converts_the_int() {
    let p = binary_plan(BinOp::Add, &ValueType::Int(32), &ValueType::Float(64)).unwrap();
    assert_eq!(p.left, Conversion::IntToFloat(64));
    assert_eq!(p.right, Conversion::Keep);
    assert_eq!(p.operands, ValueType::Float(64));
    assert_eq!(p.result, ValueType::Float(64));
    let p = binary_plan(BinOp::Mul, &ValueType::Float(32), &ValueType::Int(64)).unwrap();
    assert_eq!(p.right, Conversion::IntToFloat(32));
}

#[test]
fn narrower_integer_is_sign_extended() {
    let p = binary_plan(BinOp::Sub, &ValueType::Int(32), &ValueType::Int(64)).unwrap();
    assert_eq!(p.left, Conversion::SignExtend(64));
    assert_eq!(p.right, Conversion::Keep);
    assert_eq!(p.result, ValueType::Int(64));
    let p = binary_plan(BinOp::Lt, &ValueType::Int(64), &ValueType::Int(8)).unwrap();
    assert_eq!(p.right, Conversion::SignExtend(64));
    assert_eq!(p.result, ValueType::Int(1));
}

#[test]
fn modulo_on_floats_is_an_error() {
    let e = binary_plan(BinOp::Mod, &ValueType::Float(64), &ValueType::Int(32)).err().unwrap();
    assert_eq!(e.message(), "Operator '%' requires integer operands");
    assert!(binary_plan(BinOp::Mod, &ValueType::Int(32), &ValueType::Int(32)).is_ok());
}

#[test]
fn short_circuit_operators() {
    assert_eq!(short_circuit(BinOp::And), Some(true));
    assert_eq!(short_circuit(BinOp::Or), Some(false));
    assert_eq!(short_circuit(BinOp::Add), None);
}

#[test]
fn conditions_and_negation() {
    assert_eq!(truth(&ValueType::Int(1)).unwrap(), Truth::AsIs);
    assert_eq!(truth(&ValueType::Int(32)).unwrap(), Truth::NonZero);
    assert_eq!(truth(&ValueType::Ptr).unwrap(), Truth::NonNull);
    assert_eq!(truth(&ValueType::Float(64)).unwrap_err().message(), "Value cannot be used as a condition");
    assert_eq!(unary_plan(UnOp::Neg, &ValueType::Int(32)).unwrap(), UnaryPlan::IntNeg);
    assert_eq!(unary_plan(UnOp::Neg, &ValueType::Float(64)).unwrap(), UnaryPlan::FloatNeg);
    assert_eq!(unary_plan(UnOp::Not, &ValueType::Int(1)).unwrap(), UnaryPlan::Not(Truth::AsIs));
}

#[test]
fn coercions_between_value_types() {
    assert_eq!(coercion(&ValueType::Int(64), &ValueType::Int(32)), Some(Coercion::SignExtend));
    assert_eq!(coercion(&ValueType::Int(8), &ValueType::Int(32)), Some(Coercion::Truncate));
    assert_eq!(coercion(&ValueType::Float(64), &ValueType::Int(32)), Some(Coercion::IntToFloat));
    assert_eq!(coercion(&ValueType::Int(32), &ValueType::Float(64)), Some(Coercion::FloatToInt));
    assert_eq!(coercion(&ValueType::Float(32), &ValueType::Float(64)), Some(Coercion::FloatCast));
    assert_eq!(coercion(&ValueType::Int(64), &ValueType::Ptr), Some(Coercion::PtrToInt));
    assert_eq!(coercion(&ValueType::Int(32), &ValueType::Ptr), None);
    assert_eq!(coercion(&ValueType::Ptr, &ValueType::Ptr), Some(Coercion::Keep));
    let a = ValueType::Aggregate("A".to_string());
    let b = ValueType::Aggregate("B".to_string());
    assert_eq!(coercion(&a, &a.clone()), Some(Coercion::Keep));
    assert_eq!(coercion(&a, &b), None);
}

#[test]
fn index_and_literal_types() {
    assert_eq!(index_coercion(&ValueType::Int(32)).unwrap(), Coercion::Keep);
    assert_eq!(index_coercion(&ValueType::Int(8)).unwrap(), Coercion::SignExtend);
    assert_eq!(index_coercion(&ValueType::Int(64)).unwrap(), Coercion::Truncate);
    assert_eq!(index_coercion(&ValueType::Ptr).unwrap_err().message(), "Array index must be an integer");
    assert_eq!(int_literal_type(2147483647), ValueType::Int(32));
    assert_eq!(int_literal_type(-2147483648), ValueType::Int(32));
    assert_eq!(int_literal_type(2147483648), ValueType::Int(64));
    assert_eq!(int_literal_type(-2147483649), ValueType::Int(64));
}

#[test]
fn builtin_names_and_arity() {
    assert_eq!(builtin_of(&"to_string".to_string()), Some(Builtin::ToString));
    assert_eq!(builtin_of(&"sqrt".to_string()), Some(Builtin::Sqrt));
    assert_eq!(builtin_of(&"main".to_string()), None);
    assert!(check_arity(Builtin::Print, 5).is_ok());
    assert!(check_arity(Builtin::ReadLine, 3).is_ok());
    assert_eq!(check_arity(Builtin::Len, 2).unwrap_err().message(), "len() requires exactly 1 argument");
    assert_eq!(check_arity(Builtin::Floor, 0).unwrap_err().message(), "floor() requires exactly 1 argument");
    assert_eq!(check_arity(Builtin::Pow, 1).unwrap_err().message(), "pow() requires exactly 2 arguments");
    assert_eq!(check_arity(Builtin::Concat, 1).unwrap_err().message(), "concat() requires at least 2 arguments");
    assert!(check_arity(Builtin::Concat, 3).is_ok());
    assert_eq!(
        check_call_arity(&"add".to_string(), 2, 3).unwrap_err().message(),
        "Function 'add' expects 2 argument(s), got 3"
    );
    assert!(check_call_arity(&"add".to_string(), 2, 2).is_ok());
}

#[test]
fn print_formats() {
    let kinds: Vec<FormatKind> = [
        ValueType::Int(1),
        ValueType::Int(8),
        ValueType::Int(64),
        ValueType::Int(32),
        ValueType::Float(32),
        ValueType::Float(64),
        ValueType::Ptr,
    ]
    .iter()
    .map(|t| print_kind(t).unwrap())
    .collect();
    assert_eq!(print_format(&kinds), "%s%c%ld%d%g%.15g%s\n");
    assert_eq!(print_format(&vec![]), "");
    assert_eq!(print_format(&vec![FormatKind::Int]), "%d\n");
    assert_eq!(
        print_kind(&ValueType::Aggregate("P".to_string())).unwrap_err().message(),
        "print() does not support this value type"
    );
}

#[test]
fn to_string_formats_and_buffers() {
    assert_eq!(to_string_kind(&ValueType::Int(64)).unwrap(), FormatKind::Long);
    assert_eq!(to_string_kind(&ValueType::Int(1)).unwrap(), FormatKind::BoolText);
    assert_eq!(to_string_kind(&ValueType::Ptr).unwrap_err().message(), "to_string() requires a numeric argument");
    assert_eq!(
        to_string_kind(&ValueType::Aggregate("P".to_string())).unwrap_err().message(),
        "to_string() unsupported type"
    );
    assert_eq!(to_string_buffer_size(FormatKind::BoolText), 8);
    assert_eq!(to_string_buffer_size(FormatKind::Float64), 320);
}

#[test]
fn math_argument_handling() {
    assert_eq!(to_f64_coercion(&ValueType::Int(32), "sqrt()").unwrap(), Coercion::IntToFloat);
    assert_eq!(to_f64_coercion(&ValueType::Float(64), "sqrt()").unwrap(), Coercion::Keep);
    assert_eq!(to_f64_coercion(&ValueType::Float(32), "pow()").unwrap(), Coercion::FloatCast);
    assert_eq!(to_f64_coercion(&ValueType::Ptr, "pow()").unwrap_err().message(), "pow() requires a numeric argument");
    assert_eq!(abs_plan(&ValueType::Int(64)).unwrap(), Coercion::IntToFloat);
    assert_eq!(abs_plan(&ValueType::Int(32)).unwrap(), Coercion::IntToFloat);
    assert_eq!(abs_plan(&ValueType::Float(64)).unwrap(), Coercion::Keep);
    assert_eq!(abs_plan(&ValueType::Float(32)).unwrap(), Coercion::FloatCast);
    assert_eq!(abs_plan(&ValueType::Ptr).unwrap_err().message(), "abs() requires a numeric argument");
    assert!(string_argument(Builtin::Len, &ValueType::Ptr).is_ok());
    assert_eq!(
        string_argument(Builtin::Len, &ValueType::Int(32)).unwrap_err().message(),
        "len() requires a string or array argument"
    );
    assert_eq!(
        string_argument(Builtin::Concat, &ValueType::Int(32)).unwrap_err().message(),
        "concat() requires string arguments"
    );
}

#[test]
fn linker_choice_and_llc_arguments() {
    assert_eq!(LinkerKind::platform_default(true), LinkerKind::Msvc);
    assert_eq!(LinkerKind::platform_default(false), LinkerKind::Clang);
    assert_eq!(LinkerKind::Mingw.name(), "mingw");
    assert_eq!(
        llc_arguments("out.o", "out.ll"),
        vec!["--relocation-model=pic", "--filetype=obj", "-o", "out.o", "out.ll"]
    );
}

#[test]
fn simple_enums_print_as_integers_and_data_enums_do_not_print() {
    let enums = vec![
        EnumDef {
            name: "Color".to_string(),
            variants: vec![EnumVariant { name: "Red".to_string(), payload: None }],
        },
        EnumDef {
            name: "Shape".to_string(),
            variants: vec![EnumVariant { name: "Circle".to_string(), payload: Some(Type::F64) }],
        },
    ];
    let color = lower_type(&Type::Named("Color".to_string()), &[], &enums).unwrap();
    assert_eq!(color, ValueType::Int(32));
    assert_eq!(print_kind(&color).unwrap(), FormatKind::Int);
    let shape = lower_type(&Type::Named("Shape".to_string()), &[], &enums).unwrap();
    assert_eq!(shape, ValueType::Aggregate("Shape".to_string()));
    assert!(print_kind(&shape).is_err());
}

#[test]
fn build_modes_and_opt_arguments() {
    let dev = huzi::cli::build_mode(false, None);
    assert_eq!((dev.opt_level, dev.quiet), (0, false));
    let release = huzi::cli::build_mode(true, None);
    assert_eq!((release.opt_level, release.quiet), (2, true));
    let explicit = huzi::cli::build_mode(false, Some(3));
    assert_eq!((explicit.opt_level, explicit.quiet), (3, true));
    let release_dev = huzi::cli::build_mode(true, Some(0));
    assert_eq!((release_dev.opt_level, release_dev.quiet), (0, false));
    assert_eq!(huzi::cli::opt_arguments(2, "a.ll"), vec!["-O2", "-S", "a.ll", "-o", "a.ll"]);
}

#[test]
fn output_file_names() {
    let unix = huzi::cli::OutputPaths::new("out/hello", false);
    assert_eq!((unix.ll_path.as_str(), unix.obj_path.as_str(), unix.exe_path.as_str()), ("out/hello.ll", "out/hello.o", "out/hello"));
    let win = huzi::cli::OutputPaths::new("hello", true);
    assert_eq!((win.ll_path.as_str(), win.obj_path.as_str(), win.exe_path.as_str()), ("hello.ll", "hello.obj", "hello.exe"));
}

#[test]
fn module_bind_names() {
    assert_eq!(huzi::modules::module_bind_name("mods.helpers"), "helpers");
    assert_eq!(huzi::modules::module_bind_name("math"), "math");
    assert_eq!(huzi::modules::module_bind_name("a.b.c"), "c");
    assert_eq!(huzi::modules::module_bind_name("trailing."), "");
}

#[test]
fn doubles_print_without_trailing_zeros() {
    assert_eq!(spec_text(FormatKind::Float64), "%.15g");
    assert_eq!(print_format(&vec![FormatKind::Float64]), "%.15g\n");
    assert_eq!(string_spec_text(FormatKind::Float64), "%f");
    assert_eq!(string_spec_text(FormatKind::Float32), "%g");
    assert_eq!(string_spec_text(FormatKind::Long), "%ld");
}

#[test]
fn operators_pick_their_instruction() {
    let p = binary_plan(BinOp::Div, &ValueType::Int(32), &ValueType::Int(32)).unwrap();
    assert_eq!(p.operation, Operation::IntSignedDiv);
    let p = binary_plan(BinOp::Mod, &ValueType::Int(64), &ValueType::Int(8)).unwrap();
    assert_eq!(p.operation, Operation::IntSignedRem);
    let p = binary_plan(BinOp::Div, &ValueType::Int(32), &ValueType::Float(64)).unwrap();
    assert_eq!(p.operation, Operation::FloatDiv);
    let p = binary_plan(BinOp::Add, &ValueType::Float(32), &ValueType::Float(32)).unwrap();
    assert_eq!(p.operation, Operation::FloatAdd);
    let p = binary_plan(BinOp::Lt, &ValueType::Int(8), &ValueType::Int(32)).unwrap();
    assert_eq!(p.operation, Operation::IntCompare(IntComparison::SignedLess));
    let p = binary_plan(BinOp::Neq, &ValueType::Float(64), &ValueType::Int(32)).unwrap();
    assert_eq!(p.operation, Operation::FloatCompare(FloatComparison::OrderedNotEqual));
    assert_eq!(p.result, ValueType::Int(1));
    let p = binary_plan(BinOp::Ge, &ValueType::Int(64), &ValueType::Int(64)).unwrap();
    assert_eq!(p.operation, Operation::IntCompare(IntComparison::SignedGreaterOrEqual));
}

#[test]
fn operators_on_values_that_are_not_numbers() {
    let e = binary_plan(BinOp::Eq, &ValueType::Aggregate("Shape".to_string()), &ValueType::Aggregate("Shape".to_string()))
        .err()
        .unwrap();
    assert_eq!(e.message(), "Operator '==' requires numeric operands");
    let e = binary_plan(BinOp::Add, &ValueType::Ptr, &ValueType::Int(32)).err().unwrap();
    assert_eq!(e.message(), "Operator '+' requires numeric operands");
    let e = binary_plan(BinOp::Lt, &ValueType::Int(32), &ValueType::Ptr).err().unwrap();
    assert_eq!(e.message(), "Operator '<' requires numeric operands");
    assert_eq!(unary_plan(UnOp::Neg, &ValueType::Ptr).unwrap_err().message(), "Operator '-' requires a numeric operand");
    assert_eq!(
        unary_plan(UnOp::Neg, &ValueType::Aggregate("P".to_string())).unwrap_err().message(),
        "Operator '-' requires a numeric operand"
    );
}

#[test]
fn integer_division_checks_its_divisor() {
    let p = binary_plan(BinOp::Div, &ValueType::Int(32), &ValueType::Int(32)).unwrap();
    assert_eq!(p.divisor_check, Some(DivisorCheck::Division));
    let p = binary_plan(BinOp::Mod, &ValueType::Int(64), &ValueType::Int(32)).unwrap();
    assert_eq!(p.divisor_check, Some(DivisorCheck::Modulo));
    let p = binary_plan(BinOp::Div, &ValueType::Float(64), &ValueType::Int(32)).unwrap();
    assert_eq!(p.divisor_check, None);
    let p = binary_plan(BinOp::Add, &ValueType::Int(32), &ValueType::Int(32)).unwrap();
    assert_eq!(p.divisor_check, None);
    assert_eq!(divisor_check_message(DivisorCheck::Division), "Runtime error: division by zero\n");
    assert_eq!(divisor_check_message(DivisorCheck::Modulo), "Runtime error: modulo by zero\n");
}

#[test]
fn indices_into_arrays_of_known_length_are_checked() {
    assert_eq!(bounds_check(Some(4)), Some("Runtime error: array index out of bounds (length 4)\n".to_string()));
    assert_eq!(bounds_check(Some(120)), Some("Runtime error: array index out of bounds (length 120)\n".to_string()));
    assert_eq!(bounds_check(None), None);
}
