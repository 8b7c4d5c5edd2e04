use vstd::prelude::*;
use crate::ast::{EnumDef, StructDef, TypeView};
use crate::decls::{ValueType, ValueTypeView, carries_data, enum_index, enum_names, lower, primitive_named, struct_names};
use crate::error::{ErrorView, HuziError};
use crate::ops::Coercion;
use crate::text::{decimal, is_text, usize_to_decimal};

verus! {

// ---------------------------------------------------------------------------
// The built-in functions: which names they have, how many arguments they
// take, and how their arguments are handed to the C library.
// ---------------------------------------------------------------------------

/// A built-in function.
#[derive(Debug, Clone, Copy, PartialEq, Eq, Structural)]
pub enum Builtin {
    Print,
    ReadLine,
    ReadInt,
    ReadFloat,
    Len,
    Abs,
    Sqrt,
    Pow,
    Sin,
    Cos,
    Tan,
    Floor,
    Ceil,
    Round,
    Concat,
    ToString,
}

/// The name a built-in is called by.
pub open spec fn builtin_name(b: Builtin) -> Seq<char> {
    match b {
        Builtin::Print => "print"@,
        Builtin::ReadLine => "read_line"@,
        Builtin::ReadInt => "read_int"@,
        Builtin::ReadFloat => "read_float"@,
        Builtin::Len => "len"@,
        Builtin::Abs => "abs"@,
        Builtin::Sqrt => "sqrt"@,
        Builtin::Pow => "pow"@,
        Builtin::Sin => "sin"@,
        Builtin::Cos => "cos"@,
        Builtin::Tan => "tan"@,
        Builtin::Floor => "floor"@,
        Builtin::Ceil => "ceil"@,
        Builtin::Round => "round"@,
        Builtin::Concat => "concat"@,
        Builtin::ToString => "to_string"@,
    }
}

/// The built-in that a call by `name` goes to, if any.
pub fn builtin_of(name: &String) -> (r: Option<Builtin>)
    ensures
        match r {
            Some(b) => builtin_name(b) == name@,
            None => forall|b: Builtin| #[trigger] builtin_name(b) != name@,
        },
{
    if is_text(name, "print") {
        Some(Builtin::Print)
    } else if is_text(name, "read_line") {
        Some(Builtin::ReadLine)
    } else if is_text(name, "read_int") {
        Some(Builtin::ReadInt)
    } else if is_text(name, "read_float") {
        Some(Builtin::ReadFloat)
    } else if is_text(name, "len") {
        Some(Builtin::Len)
    } else if is_text(name, "abs") {
        Some(Builtin::Abs)
    } else if is_text(name, "sqrt") {
        Some(Builtin::Sqrt)
    } else if is_text(name, "pow") {
        Some(Builtin::Pow)
    } else if is_text(name, "sin") {
        Some(Builtin::Sin)
    } else if is_text(name, "cos") {
        Some(Builtin::Cos)
    } else if is_text(name, "tan") {
        Some(Builtin::Tan)
    } else if is_text(name, "floor") {
        Some(Builtin::Floor)
    } else if is_text(name, "ceil") {
        Some(Builtin::Ceil)
    } else if is_text(name, "round") {
        Some(Builtin::Round)
    } else if is_text(name, "concat") {
        Some(Builtin::Concat)
    } else if is_text(name, "to_string") {
        Some(Builtin::ToString)
    } else {
        proof {
            assert forall|b: Builtin| #[trigger] builtin_name(b) != name@ by {
                match b {
                    Builtin::Print => {},
                    _ => {},
                }
            }
        }
        None
    }
}

/// How many arguments a built-in accepts, and the error otherwise: `print`
/// and the readers take any number; `pow` two; `concat` two or more; the
/// others exactly one.
pub open spec fn arity_error(b: Builtin, n: nat) -> Option<ErrorView> {
    if b is Print || b is ReadLine || b is ReadInt || b is ReadFloat {
        None
    } else if b is Pow {
        if n == 2 {
            None
        } else {
            Some(global("pow() requires exactly 2 arguments"@))
        }
    } else if b is Concat {
        if n >= 2 {
            None
        } else {
            Some(global("concat() requires at least 2 arguments"@))
        }
    } else if n == 1 {
        None
    } else {
        Some(global(builtin_name(b) + "() requires exactly 1 argument"@))
    }
}

/// An error that belongs to no position.
pub open spec fn global(message: Seq<char>) -> ErrorView {
    ErrorView { message, line: 0, column: 0 }
}

/// The name of a built-in.
pub fn name_of(b: Builtin) -> (s: &'static str)
    ensures
        s@ == builtin_name(b),
{
    match b {
        Builtin::Print => "print",
        Builtin::ReadLine => "read_line",
        Builtin::ReadInt => "read_int",
        Builtin::ReadFloat => "read_float",
        Builtin::Len => "len",
        Builtin::Abs => "abs",
        Builtin::Sqrt => "sqrt",
        Builtin::Pow => "pow",
        Builtin::Sin => "sin",
        Builtin::Cos => "cos",
        Builtin::Tan => "tan",
        Builtin::Floor => "floor",
        Builtin::Ceil => "ceil",
        Builtin::Round => "round",
        Builtin::Concat => "concat",
        Builtin::ToString => "to_string",
    }
}

/// Checks the number of arguments of a built-in call.
pub fn check_arity(b: Builtin, n: usize) -> (r: Result<(), HuziError>)
    ensures
        match r {
            Ok(()) => arity_error(b, n as nat) is None,
            Err(e) => arity_error(b, n as nat) == Some(e@),
        },
{
    match b {
        Builtin::Print | Builtin::ReadLine | Builtin::ReadInt | Builtin::ReadFloat => Ok(()),
        Builtin::Pow => if n == 2 {
            Ok(())
        } else {
            Err(HuziError::new_global("pow() requires exactly 2 arguments"))
        },
        Builtin::Concat => if n >= 2 {
            Ok(())
        } else {
            Err(HuziError::new_global("concat() requires at least 2 arguments"))
        },
        _ => if n == 1 {
            Ok(())
        } else {
            let mut message = name_of(b).to_owned();
            message.append("() requires exactly 1 argument");
            Err(HuziError::new_global(message.as_str()))
        },
    }
}

/// The error for a call of a user function with the wrong number of
/// arguments.
pub open spec fn call_arity_error(name: Seq<char>, expected: nat, got: nat) -> ErrorView {
    global(
        "Function '"@ + name + "' expects "@ + decimal(expected) + " argument(s), got "@ + decimal(got),
    )
}

/// Checks the number of arguments of a call of the user function `name`
/// that takes `expected` parameters.
pub fn check_call_arity(name: &String, expected: usize, got: usize) -> (r: Result<(), HuziError>)
    ensures
        match r {
            Ok(()) => expected == got,
            Err(e) => expected != got && e@ == call_arity_error(name@, expected as nat, got as nat),
        },
{
    if expected == got {
        Ok(())
    } else {
        let mut message = "Function '".to_owned();
        message.append(name.as_str());
        message.append("' expects ");
        message.append(usize_to_decimal(expected).as_str());
        message.append(" argument(s), got ");
        message.append(usize_to_decimal(got).as_str());
        Err(HuziError::new_global(message.as_str()))
    }
}

/// How a value is formatted by `printf`/`sprintf`.
#[derive(Debug, Clone, Copy, PartialEq, Eq, Structural)]
pub enum FormatKind {
    /// A one-bit integer, shown as the text `true` or `false`.
    BoolText,
    /// An 8-bit integer, shown as a character after widening to 32 bits.
    Char,
    /// A 64-bit integer.
    Long,
    /// Another integer.
    Int,
    /// A 32-bit float, widened to a double.
    Float32,
    /// Another float.
    Float64,
    /// A string.
    Text,
}

/// The conversion specification for a format kind.
pub open spec fn format_spec(k: FormatKind) -> Seq<char> {
    match k {
        FormatKind::BoolText => "%s"@,
        FormatKind::Char => "%c"@,
        FormatKind::Long => "%ld"@,
        FormatKind::Int => "%d"@,
        FormatKind::Float32 => "%g"@,
        FormatKind::Float64 => "%.15g"@,
        FormatKind::Text => "%s"@,
    }
}

/// The conversion specification that `to_string` uses for a format kind:
/// a double keeps six decimals there, the rest is as in `print`.
pub open spec fn string_format_spec(k: FormatKind) -> Seq<char> {
    match k {
        FormatKind::Float64 => "%f"@,
        _ => format_spec(k),
    }
}

/// The format kind of a number or string of type `t`.
pub open spec fn format_kind(t: ValueTypeView) -> Option<FormatKind> {
    match t {
        ValueTypeView::Int(w) => Some(if w == 1 {
            FormatKind::BoolText
        } else if w == 8 {
            FormatKind::Char
        } else if w == 64 {
            FormatKind::Long
        } else {
            FormatKind::Int
        }),
        ValueTypeView::Float(w) => Some(if w == 32 {
            FormatKind::Float32
        } else {
            FormatKind::Float64
        }),
        ValueTypeView::Ptr => Some(FormatKind::Text),
        ValueTypeView::Aggregate(_) => None,
    }
}

fn kind_of(t: &ValueType) -> (r: Option<FormatKind>)
    ensures
        r == format_kind(t@),
{
    match t {
        ValueType::Int(w) => Some(if *w == 1 {
            FormatKind::BoolText
        } else if *w == 8 {
            FormatKind::Char
        } else if *w == 64 {
            FormatKind::Long
        } else {
            FormatKind::Int
        }),
        ValueType::Float(w) => Some(if *w == 32 {
            FormatKind::Float32
        } else {
            FormatKind::Float64
        }),
        ValueType::Ptr => Some(FormatKind::Text),
        ValueType::Aggregate(_) => None,
    }
}

/// The conversion specification for a format kind.
pub fn spec_text(k: FormatKind) -> (s: &'static str)
    ensures
        s@ == format_spec(k),
{
    match k {
        FormatKind::BoolText => "%s",
        FormatKind::Char => "%c",
        FormatKind::Long => "%ld",
        FormatKind::Int => "%d",
        FormatKind::Float32 => "%g",
        FormatKind::Float64 => "%.15g",
        FormatKind::Text => "%s",
    }
}

/// The conversion specification that `to_string` uses for a format kind.
pub fn string_spec_text(k: FormatKind) -> (s: &'static str)
    ensures
        s@ == string_format_spec(k),
{
    match k {
        FormatKind::Float64 => "%f",
        _ => spec_text(k),
    }
}

/// How `print` shows an argument of type `t`; structs and data enums
/// cannot be printed.
pub fn print_kind(t: &ValueType) -> (r: Result<FormatKind, HuziError>)
    ensures
        match r {
            Ok(k) => format_kind(t@) == Some(k),
            Err(e) => format_kind(t@) is None && e@ == global("print() does not support this value type"@),
        },
{
    match kind_of(t) {
        Some(k) => Ok(k),
        None => Err(HuziError::new_global("print() does not support this value type")),
    }
}

/// The conversion specifications of the kinds, in order.
pub open spec fn specs(kinds: Seq<FormatKind>) -> Seq<char>
    decreases kinds.len(),
{
    if kinds.len() == 0 {
        Seq::empty()
    } else {
        specs(kinds.drop_last()) + format_spec(kinds.last())
    }
}

/// The format string of a `print` call: each argument's specification, in
/// order, then a newline; a call without arguments prints nothing.
pub fn print_format(kinds: &Vec<FormatKind>) -> (s: String)
    ensures
        s@ == if kinds@.len() == 0 {
            Seq::<char>::empty()
        } else {
            specs(kinds@).push('\n')
        },
{
    if kinds.len() == 0 {
        return String::new();
    }
    let mut s = String::new();
    let mut i: usize = 0;
    while i < kinds.len()
        invariant
            i <= kinds@.len(),
            s@ == specs(kinds@.take(i as int)),
        decreases kinds@.len() - i,
    {
        proof {
            assert(kinds@.take(i + 1).drop_last() =~= kinds@.take(i as int));
        }
        s.append(spec_text(kinds[i]));
        i += 1;
    }
    proof {
        assert(kinds@.take(kinds@.len() as int) =~= kinds@);
    }
    crate::text::push_char(&mut s, '\n');
    s
}

/// How `to_string` formats an argument of type `t`: strings and aggregates
/// are errors.
pub fn to_string_kind(t: &ValueType) -> (r: Result<FormatKind, HuziError>)
    ensures
        match r {
            Ok(k) => format_kind(t@) == Some(k) && k != FormatKind::Text,
            Err(e) => (t@ is Ptr && e@ == global("to_string() requires a numeric argument"@)) || (t@ is Aggregate
                && e@ == global("to_string() unsupported type"@)),
        },
{
    match t {
        ValueType::Ptr => Err(HuziError::new_global("to_string() requires a numeric argument")),
        ValueType::Aggregate(_) => Err(HuziError::new_global("to_string() unsupported type")),
        _ => match kind_of(t) {
            Some(k) => Ok(k),
            None => Err(HuziError::new_global("to_string() unsupported type")),
        },
    }
}

/// The size of the buffer that `to_string` allocates: room for `false` and
/// its terminator for a boolean, for any formatted double otherwise.
pub fn to_string_buffer_size(k: FormatKind) -> (n: u64)
    ensures
        n == if k == FormatKind::BoolText {
            8u64
        } else {
            320u64
        },
{
    match k {
        FormatKind::BoolText => 8,
        _ => 320,
    }
}

/// How a numeric argument of a math built-in is brought to `f64`; `what`
/// names the call in the error for a value that is not a number.
pub fn to_f64_coercion(t: &ValueType, what: &str) -> (r: Result<Coercion, HuziError>)
    ensures
        match r {
            Ok(c) => match t@ {
                ValueTypeView::Int(_) => c == Coercion::IntToFloat,
                ValueTypeView::Float(w) => c == if w == 64 {
                    Coercion::Keep
                } else {
                    Coercion::FloatCast
                },
                _ => false,
            },
            Err(e) => (t@ is Ptr || t@ is Aggregate) && e@ == global(what@ + " requires a numeric argument"@),
        },
{
    match t {
        ValueType::Int(_) => Ok(Coercion::IntToFloat),
        ValueType::Float(w) => if *w == 64 {
            Ok(Coercion::Keep)
        } else {
            Ok(Coercion::FloatCast)
        },
        _ => {
            let mut message = what.to_owned();
            message.append(" requires a numeric argument");
            Err(HuziError::new_global(message.as_str()))
        },
    }
}

/// How `abs` brings its argument to `f64` before `fabs` is applied: every
/// number is converted, so `abs` always gives a double.
pub fn abs_plan(t: &ValueType) -> (r: Result<Coercion, HuziError>)
    ensures
        match r {
            Ok(c) => match t@ {
                ValueTypeView::Int(_) => c == Coercion::IntToFloat,
                ValueTypeView::Float(w) => c == if w == 64 {
                    Coercion::Keep
                } else {
                    Coercion::FloatCast
                },
                _ => false,
            },
            Err(e) => (t@ is Ptr || t@ is Aggregate) && e@ == global("abs() requires a numeric argument"@),
        },
{
    match t {
        ValueType::Int(_) => Ok(Coercion::IntToFloat),
        ValueType::Float(w) => if *w == 64 {
            Ok(Coercion::Keep)
        } else {
            Ok(Coercion::FloatCast)
        },
        _ => Err(HuziError::new_global("abs() requires a numeric argument")),
    }
}

/// Checks that the argument of `len` or `concat` is a string (or array):
/// a pointer.
pub fn string_argument(b: Builtin, t: &ValueType) -> (r: Result<(), HuziError>)
    requires
        b is Len || b is Concat,
    ensures
        match r {
            Ok(()) => t@ is Ptr,
            Err(e) => !(t@ is Ptr) && e@ == if b is Len {
                global("len() requires a string or array argument"@)
            } else {
                global("concat() requires string arguments"@)
            },
        },
{
    match t {
        ValueType::Ptr => Ok(()),
        _ => match b {
            Builtin::Len => Err(HuziError::new_global("len() requires a string or array argument")),
            _ => Err(HuziError::new_global("concat() requires string arguments")),
        },
    }
}

/// A simple enum (no variant with a payload) is its 32-bit tag, and `print`
/// shows it as an integer; a data-carrying enum is an aggregate, which
/// `print` does not show.
pub proof fn lemma_enum_values_print(structs: Seq<StructDef>, enums: Seq<EnumDef>, n: Seq<char>)
    requires
        enum_names(enums).contains(n),
        !struct_names(structs).contains(n),
        primitive_named(n) is None,
    ensures
        !carries_data(enums[enum_index(enums, n)].variants@) ==> lower(TypeView::Named(n), structs, enums)
            == Some(ValueTypeView::Int(32)) && format_kind(ValueTypeView::Int(32)) == Some(FormatKind::Int),
        carries_data(enums[enum_index(enums, n)].variants@) ==> lower(TypeView::Named(n), structs, enums)
            == Some(ValueTypeView::Aggregate(n)) && format_kind(ValueTypeView::Aggregate(n)) is None,
{
    reveal(lower);
}

} // verus!
