use vstd::prelude::*;
use crate::ast::{BinOp, UnOp};
use crate::decls::{ValueType, ValueTypeView};
use crate::error::{ErrorView, HuziError};
use crate::text::{decimal, u64_to_decimal};

verus! {

// ---------------------------------------------------------------------------
// How generated code treats values of each type: operators, conditions,
// conversions, indices and integer literals.
// ---------------------------------------------------------------------------

/// What is done to an operand before an operator applies.
#[derive(Debug, Clone, Copy, PartialEq, Eq, Structural)]
pub enum Conversion {
    Keep,
    /// Sign-extend an integer to this bit width.
    SignExtend(u32),
    /// Convert a signed integer to a float of this bit width.
    IntToFloat(u32),
}

/// The predicate of an integer comparison (signed where order matters).
#[derive(Debug, Clone, Copy, PartialEq, Eq, Structural)]
pub enum IntComparison {
    Equal,
    NotEqual,
    SignedLess,
    SignedLessOrEqual,
    SignedGreater,
    SignedGreaterOrEqual,
}

/// The predicate of a floating-point comparison (ordered: false when either
/// operand is NaN).
#[derive(Debug, Clone, Copy, PartialEq, Eq, Structural)]
pub enum FloatComparison {
    OrderedEqual,
    OrderedNotEqual,
    OrderedLess,
    OrderedLessOrEqual,
    OrderedGreater,
    OrderedGreaterOrEqual,
}

/// The instruction that carries out a binary operator on converted operands.
#[derive(Debug, Clone, Copy, PartialEq, Eq, Structural)]
pub enum Operation {
    IntAdd,
    IntSub,
    IntMul,
    IntSignedDiv,
    IntSignedRem,
    FloatAdd,
    FloatSub,
    FloatMul,
    FloatDiv,
    IntCompare(IntComparison),
    FloatCompare(FloatComparison),
}

/// How a binary operator is carried out: the conversions of both operands,
/// the type they share afterwards, the instruction and the type of the
/// result.
pub struct BinaryPlan {
    pub left: Conversion,
    pub right: Conversion,
    pub operands: ValueType,
    pub operation: Operation,
    pub result: ValueType,
    /// The run-time check on the divisor, for integer `/` and `%`.
    pub divisor_check: Option<DivisorCheck>,
}

/// A run-time check that an integer divisor is not zero: the program
/// prints the check's message and exits with status 1 when it is.
#[derive(Debug, Clone, Copy, PartialEq, Eq, Structural)]
pub enum DivisorCheck {
    Division,
    Modulo,
}

/// The check on the divisor of an operation: integer division and
/// remainder have one; float division follows IEEE (infinities, NaN).
pub open spec fn divisor_check_of(op: Operation) -> Option<DivisorCheck> {
    match op {
        Operation::IntSignedDiv => Some(DivisorCheck::Division),
        Operation::IntSignedRem => Some(DivisorCheck::Modulo),
        _ => None,
    }
}

/// What a failed divisor check prints.
pub open spec fn divisor_check_text(c: DivisorCheck) -> Seq<char> {
    match c {
        DivisorCheck::Division => "Runtime error: division by zero\n"@,
        DivisorCheck::Modulo => "Runtime error: modulo by zero\n"@,
    }
}

/// What a failed divisor check prints.
pub fn divisor_check_message(c: DivisorCheck) -> (s: &'static str)
    ensures
        s@ == divisor_check_text(c),
{
    match c {
        DivisorCheck::Division => "Runtime error: division by zero\n",
        DivisorCheck::Modulo => "Runtime error: modulo by zero\n",
    }
}

/// What a failed bounds check on an array of `len` elements prints.
pub open spec fn bounds_check_text(len: u32) -> Seq<char> {
    "Runtime error: array index out of bounds (length "@ + decimal(len as nat) + ")\n"@
}

/// The run-time check on an index into an array of `len` elements, where
/// the length is known when compiling: the index, as a 32-bit integer, is
/// compared unsigned with the length, so that a negative index fails too;
/// a failed check prints the returned message and exits with status 1.
/// Where the length is not known, nothing is checked (`None`).
pub fn bounds_check(len: Option<u32>) -> (r: Option<String>)
    ensures
        match len {
            Some(n) => r matches Some(m) && m@ == bounds_check_text(n),
            None => r is None,
        },
{
    match len {
        Some(n) => {
            let mut m = "Runtime error: array index out of bounds (length ".to_owned();
            let digits = u64_to_decimal(n as u64);
            m.append(digits.as_str());
            m.append(")\n");
            Some(m)
        },
        None => None,
    }
}

/// An index passes the bounds check on `len` elements: read unsigned, it is
/// below the length.
pub open spec fn index_passes(index: i32, len: u32) -> bool {
    (index as u32) < len
}

/// For an array no longer than the largest 32-bit integer, an index passes
/// the bounds check exactly when it is at least 0 and below the length.
pub proof fn lemma_index_passes(index: i32, len: u32)
    requires
        len <= i32::MAX,
    ensures
        index_passes(index, len) <==> 0 <= index < len,
{
    assert(index_passes(index, len) <==> 0 <= index < len) by (bit_vector)
        requires
            len <= 0x7fff_ffffu32,
    ;
}

/// The instruction for `op` on two integers (`float` false) or two floats:
/// division and remainder are signed, comparisons signed or ordered.
pub open spec fn operation_of(op: BinOp, float: bool) -> Operation {
    match op {
        BinOp::Add => if float { Operation::FloatAdd } else { Operation::IntAdd },
        BinOp::Sub => if float { Operation::FloatSub } else { Operation::IntSub },
        BinOp::Mul => if float { Operation::FloatMul } else { Operation::IntMul },
        BinOp::Div => if float { Operation::FloatDiv } else { Operation::IntSignedDiv },
        BinOp::Mod => Operation::IntSignedRem,
        BinOp::Eq => if float {
            Operation::FloatCompare(FloatComparison::OrderedEqual)
        } else {
            Operation::IntCompare(IntComparison::Equal)
        },
        BinOp::Neq => if float {
            Operation::FloatCompare(FloatComparison::OrderedNotEqual)
        } else {
            Operation::IntCompare(IntComparison::NotEqual)
        },
        BinOp::Lt => if float {
            Operation::FloatCompare(FloatComparison::OrderedLess)
        } else {
            Operation::IntCompare(IntComparison::SignedLess)
        },
        BinOp::Le => if float {
            Operation::FloatCompare(FloatComparison::OrderedLessOrEqual)
        } else {
            Operation::IntCompare(IntComparison::SignedLessOrEqual)
        },
        BinOp::Gt => if float {
            Operation::FloatCompare(FloatComparison::OrderedGreater)
        } else {
            Operation::IntCompare(IntComparison::SignedGreater)
        },
        BinOp::Ge => if float {
            Operation::FloatCompare(FloatComparison::OrderedGreaterOrEqual)
        } else {
            Operation::IntCompare(IntComparison::SignedGreaterOrEqual)
        },
        // `&&` and `||` branch instead; they have no instruction of their own.
        BinOp::And | BinOp::Or => Operation::IntAdd,
    }
}

fn operation(op: BinOp, float: bool) -> (r: Operation)
    ensures
        r == operation_of(op, float),
{
    match op {
        BinOp::Add => if float { Operation::FloatAdd } else { Operation::IntAdd },
        BinOp::Sub => if float { Operation::FloatSub } else { Operation::IntSub },
        BinOp::Mul => if float { Operation::FloatMul } else { Operation::IntMul },
        BinOp::Div => if float { Operation::FloatDiv } else { Operation::IntSignedDiv },
        BinOp::Mod => Operation::IntSignedRem,
        BinOp::Eq => if float {
            Operation::FloatCompare(FloatComparison::OrderedEqual)
        } else {
            Operation::IntCompare(IntComparison::Equal)
        },
        BinOp::Neq => if float {
            Operation::FloatCompare(FloatComparison::OrderedNotEqual)
        } else {
            Operation::IntCompare(IntComparison::NotEqual)
        },
        BinOp::Lt => if float {
            Operation::FloatCompare(FloatComparison::OrderedLess)
        } else {
            Operation::IntCompare(IntComparison::SignedLess)
        },
        BinOp::Le => if float {
            Operation::FloatCompare(FloatComparison::OrderedLessOrEqual)
        } else {
            Operation::IntCompare(IntComparison::SignedLessOrEqual)
        },
        BinOp::Gt => if float {
            Operation::FloatCompare(FloatComparison::OrderedGreater)
        } else {
            Operation::IntCompare(IntComparison::SignedGreater)
        },
        BinOp::Ge => if float {
            Operation::FloatCompare(FloatComparison::OrderedGreaterOrEqual)
        } else {
            Operation::IntCompare(IntComparison::SignedGreaterOrEqual)
        },
        BinOp::And | BinOp::Or => Operation::IntAdd,
    }
}

/// What a binary operator of the language means on two integers: its
/// result, as a number (a comparison gives 1 for true and 0 for false);
/// division and remainder truncate toward zero.
pub open spec fn integer_meaning(op: BinOp, a: int, b: int) -> int {
    match op {
        BinOp::Add => a + b,
        BinOp::Sub => a - b,
        BinOp::Mul => a * b,
        BinOp::Div => truncated_quotient(a, b),
        BinOp::Mod => a - b * truncated_quotient(a, b),
        BinOp::Eq => if a == b { 1 } else { 0 },
        BinOp::Neq => if a != b { 1 } else { 0 },
        BinOp::Lt => if a < b { 1 } else { 0 },
        BinOp::Le => if a <= b { 1 } else { 0 },
        BinOp::Gt => if a > b { 1 } else { 0 },
        BinOp::Ge => if a >= b { 1 } else { 0 },
        BinOp::And => if a != 0 && b != 0 { 1 } else { 0 },
        BinOp::Or => if a != 0 || b != 0 { 1 } else { 0 },
    }
}

/// The quotient of `a` by `b` rounded toward zero.
pub open spec fn truncated_quotient(a: int, b: int) -> int {
    let q = abs_int(a) / abs_int(b);
    if (a >= 0) == (b >= 0) {
        q
    } else {
        -q
    }
}

/// The absolute value of an integer.
pub open spec fn abs_int(a: int) -> int {
    if a >= 0 {
        a
    } else {
        -a
    }
}

/// What an instruction computes on two numbers, as a number (a comparison
/// gives 1 for true and 0 for false); floats are taken as the exact numbers
/// they stand for (float division only where the quotient is a whole
/// number, which is all an integer can say of it), and the ordered float
/// comparisons as the plain ones on numbers (neither operand being NaN).
pub open spec fn instruction_meaning(o: Operation, a: int, b: int) -> int {
    match o {
        Operation::IntAdd | Operation::FloatAdd => a + b,
        Operation::IntSub | Operation::FloatSub => a - b,
        Operation::IntMul | Operation::FloatMul => a * b,
        Operation::IntSignedDiv => truncated_quotient(a, b),
        Operation::IntSignedRem => a - b * truncated_quotient(a, b),
        Operation::FloatDiv => truncated_quotient(a, b),
        Operation::IntCompare(c) => if int_comparison_holds(c, a, b) { 1 } else { 0 },
        Operation::FloatCompare(c) => if float_comparison_holds(c, a, b) { 1 } else { 0 },
    }
}

/// Whether an integer comparison predicate holds of `a` and `b` (as
/// signed numbers).
pub open spec fn int_comparison_holds(c: IntComparison, a: int, b: int) -> bool {
    match c {
        IntComparison::Equal => a == b,
        IntComparison::NotEqual => a != b,
        IntComparison::SignedLess => a < b,
        IntComparison::SignedLessOrEqual => a <= b,
        IntComparison::SignedGreater => a > b,
        IntComparison::SignedGreaterOrEqual => a >= b,
    }
}

/// Whether an ordered float comparison predicate holds of two numbers that
/// are not NaN.
pub open spec fn float_comparison_holds(c: FloatComparison, a: int, b: int) -> bool {
    match c {
        FloatComparison::OrderedEqual => a == b,
        FloatComparison::OrderedNotEqual => a != b,
        FloatComparison::OrderedLess => a < b,
        FloatComparison::OrderedLessOrEqual => a <= b,
        FloatComparison::OrderedGreater => a > b,
        FloatComparison::OrderedGreaterOrEqual => a >= b,
    }
}

/// The instruction chosen for an operator computes what the operator means:
/// on integers for every operator but `&&` and `||` (which branch instead),
/// and on floats for every one but `%` (an error there; `/` where the
/// quotient is whole) — in particular, a comparison instruction holds
/// exactly when the comparison does.
pub proof fn lemma_instructions_mean_their_operators(op: BinOp, a: int, b: int)
    requires
        !is_short_circuit(op),
    ensures
        instruction_meaning(operation_of(op, false), a, b) == integer_meaning(op, a, b),
        !(op is Mod) && (op is Div ==> b != 0 && a % b == 0) ==> instruction_meaning(operation_of(op, true), a, b)
            == integer_meaning(op, a, b),
        is_comparison(op) ==> (operation_of(op, false) matches Operation::IntCompare(c) && int_comparison_holds(
            c,
            a,
            b,
        ) == (integer_meaning(op, a, b) == 1)),
{
}

/// The source text of a binary operator.
pub open spec fn operator_text(op: BinOp) -> Seq<char> {
    match op {
        BinOp::Add => "+"@,
        BinOp::Sub => "-"@,
        BinOp::Mul => "*"@,
        BinOp::Div => "/"@,
        BinOp::Mod => "%"@,
        BinOp::Eq => "=="@,
        BinOp::Neq => "!="@,
        BinOp::Lt => "<"@,
        BinOp::Le => "<="@,
        BinOp::Gt => ">"@,
        BinOp::Ge => ">="@,
        BinOp::And => "&&"@,
        BinOp::Or => "||"@,
    }
}

fn operator_symbol(op: BinOp) -> (s: &'static str)
    ensures
        s@ == operator_text(op),
{
    match op {
        BinOp::Add => "+",
        BinOp::Sub => "-",
        BinOp::Mul => "*",
        BinOp::Div => "/",
        BinOp::Mod => "%",
        BinOp::Eq => "==",
        BinOp::Neq => "!=",
        BinOp::Lt => "<",
        BinOp::Le => "<=",
        BinOp::Gt => ">",
        BinOp::Ge => ">=",
        BinOp::And => "&&",
        BinOp::Or => "||",
    }
}

/// The error for an operator applied to a value that is not a number (a
/// string, a struct, a data-carrying enum).
pub open spec fn numeric_operands_error(op: BinOp) -> ErrorView {
    ErrorView {
        message: "Operator '"@ + operator_text(op) + "' requires numeric operands"@,
        line: 0,
        column: 0,
    }
}

/// The error for `-` applied to a value that is not a number.
pub open spec fn negation_error() -> ErrorView {
    ErrorView { message: "Operator '-' requires a numeric operand"@, line: 0, column: 0 }
}

/// A number: an integer or a float.
pub open spec fn is_numeric(t: ValueTypeView) -> bool {
    t is Int || t is Float
}

/// Comparison operators give a one-bit integer.
pub open spec fn is_comparison(op: BinOp) -> bool {
    op is Eq || op is Neq || op is Lt || op is Le || op is Gt || op is Ge
}

/// Short-circuit operators evaluate their right operand only when needed.
pub open spec fn is_short_circuit(op: BinOp) -> bool {
    op is And || op is Or
}

/// The conversions that bring two numeric operands to one type: an integer
/// meeting a float becomes that float; of two integers the narrower one is
/// sign-extended to the wider; two floats are kept.
pub open spec fn operand_conversions(l: ValueTypeView, r: ValueTypeView) -> (Conversion, Conversion, ValueTypeView) {
    match (l, r) {
        (ValueTypeView::Float(fw), ValueTypeView::Int(_)) => (
            Conversion::Keep,
            Conversion::IntToFloat(fw),
            ValueTypeView::Float(fw),
        ),
        (ValueTypeView::Int(_), ValueTypeView::Float(fw)) => (
            Conversion::IntToFloat(fw),
            Conversion::Keep,
            ValueTypeView::Float(fw),
        ),
        (ValueTypeView::Int(a), ValueTypeView::Int(b)) => if a < b {
            (Conversion::SignExtend(b), Conversion::Keep, ValueTypeView::Int(b))
        } else if b < a {
            (Conversion::Keep, Conversion::SignExtend(a), ValueTypeView::Int(a))
        } else {
            (Conversion::Keep, Conversion::Keep, ValueTypeView::Int(a))
        },
        _ => (Conversion::Keep, Conversion::Keep, l),
    }
}

/// The error for `%` on floating-point operands.
pub open spec fn modulo_error() -> ErrorView {
    ErrorView { message: "Operator '%' requires integer operands"@, line: 0, column: 0 }
}

/// Whether `op` is `&&` (`Some(true)`) or `||` (`Some(false)`), which are
/// carried out by branching; `None` for every other operator.
pub fn short_circuit(op: BinOp) -> (r: Option<bool>)
    ensures
        r == (if op is And {
            Some(true)
        } else if op is Or {
            Some(false)
        } else {
            None::<bool>
        }),
{
    match op {
        BinOp::And => Some(true),
        BinOp::Or => Some(false),
        _ => None,
    }
}

/// How to carry out a binary operator other than `&&` and `||`: on numeric
/// operands, the conversions of `operand_conversions`, then the instruction
/// of `operation_of` for the shared type; comparisons give a one-bit
/// integer. An operand that is not a number, and `%` on floats, are errors.
pub fn binary_plan(op: BinOp, left: &ValueType, right: &ValueType) -> (r: Result<BinaryPlan, HuziError>)
    requires
        !is_short_circuit(op),
    ensures
        ({
            let (lc, rc, common) = operand_conversions(left@, right@);
            let numeric = is_numeric(left@) && is_numeric(right@);
            match r {
                Ok(plan) => numeric && plan.left == lc && plan.right == rc && plan.operands@ == common && !(op is Mod
                    && common is Float) && plan.operation == operation_of(op, common is Float)
                    && plan.divisor_check == divisor_check_of(plan.operation) && plan.result@
                    == if is_comparison(op) {
                    ValueTypeView::Int(1)
                } else {
                    common
                },
                Err(e) => (!numeric && e@ == numeric_operands_error(op)) || (numeric && op is Mod && common is Float
                    && e@ == modulo_error()),
            }
        }),
{
    let numeric = match (left, right) {
        (ValueType::Int(_), ValueType::Int(_)) | (ValueType::Int(_), ValueType::Float(_)) | (
            ValueType::Float(_),
            ValueType::Int(_),
        ) | (ValueType::Float(_), ValueType::Float(_)) => true,
        _ => false,
    };
    if !numeric {
        let mut message = "Operator '".to_owned();
        message.append(operator_symbol(op));
        message.append("' requires numeric operands");
        return Err(HuziError::new_global(message.as_str()));
    }
    let (lc, rc, common) = match (left, right) {
        (ValueType::Float(fw), ValueType::Int(_)) => (
            Conversion::Keep,
            Conversion::IntToFloat(*fw),
            ValueType::Float(*fw),
        ),
        (ValueType::Int(_), ValueType::Float(fw)) => (
            Conversion::IntToFloat(*fw),
            Conversion::Keep,
            ValueType::Float(*fw),
        ),
        (ValueType::Int(a), ValueType::Int(b)) => if *a < *b {
            (Conversion::SignExtend(*b), Conversion::Keep, ValueType::Int(*b))
        } else if *b < *a {
            (Conversion::Keep, Conversion::SignExtend(*a), ValueType::Int(*a))
        } else {
            (Conversion::Keep, Conversion::Keep, ValueType::Int(*a))
        },
        (ValueType::Float(fw), _) => (Conversion::Keep, Conversion::Keep, ValueType::Float(*fw)),
        (ValueType::Int(a), _) => (Conversion::Keep, Conversion::Keep, ValueType::Int(*a)),
        (ValueType::Ptr, _) => (Conversion::Keep, Conversion::Keep, ValueType::Ptr),
        (ValueType::Aggregate(n), _) => (Conversion::Keep, Conversion::Keep, ValueType::Aggregate(n.clone())),
    };
    let is_float = match common {
        ValueType::Float(_) => true,
        _ => false,
    };
    let comparison = match op {
        BinOp::Eq | BinOp::Neq | BinOp::Lt | BinOp::Le | BinOp::Gt | BinOp::Ge => true,
        _ => false,
    };
    let is_mod = match op {
        BinOp::Mod => true,
        _ => false,
    };
    if is_mod && is_float {
        return Err(HuziError::new_global("Operator '%' requires integer operands"));
    }
    let result = if comparison {
        ValueType::Int(1)
    } else {
        match &common {
            ValueType::Int(w) => ValueType::Int(*w),
            ValueType::Float(w) => ValueType::Float(*w),
            ValueType::Ptr => ValueType::Ptr,
            ValueType::Aggregate(n) => ValueType::Aggregate(n.clone()),
        }
    };
    let operation = operation(op, is_float);
    let divisor_check = match operation {
        Operation::IntSignedDiv => Some(DivisorCheck::Division),
        Operation::IntSignedRem => Some(DivisorCheck::Modulo),
        _ => None,
    };
    Ok(BinaryPlan { left: lc, right: rc, operands: common, operation, result, divisor_check })
}

/// How a value is read as a condition.
#[derive(Debug, Clone, Copy, PartialEq, Eq, Structural)]
pub enum Truth {
    /// A one-bit integer is the condition itself.
    AsIs,
    /// A wider integer is true when not zero.
    NonZero,
    /// A pointer is true when not null.
    NonNull,
}

/// The error for a value that cannot stand as a condition.
pub open spec fn condition_error() -> ErrorView {
    ErrorView { message: "Value cannot be used as a condition"@, line: 0, column: 0 }
}

/// How a value of type `t` is read as a condition (for `if`, `while`, `!`,
/// `&&` and `||`): floats and aggregates cannot be.
pub fn truth(t: &ValueType) -> (r: Result<Truth, HuziError>)
    ensures
        match r {
            Ok(k) => (t@ == ValueTypeView::Int(1) && k == Truth::AsIs) || (t@ is Int && t@ != ValueTypeView::Int(1)
                && k == Truth::NonZero) || (t@ is Ptr && k == Truth::NonNull),
            Err(e) => (t@ is Float || t@ is Aggregate) && e@ == condition_error(),
        },
{
    match t {
        ValueType::Int(w) => if *w == 1 {
            Ok(Truth::AsIs)
        } else {
            Ok(Truth::NonZero)
        },
        ValueType::Ptr => Ok(Truth::NonNull),
        _ => Err(HuziError::new_global("Value cannot be used as a condition")),
    }
}

/// How a unary operator is carried out.
#[derive(Debug, Clone, Copy, PartialEq, Eq, Structural)]
pub enum UnaryPlan {
    IntNeg,
    FloatNeg,
    /// Read the operand as a condition, then negate it.
    Not(Truth),
}

/// How to carry out a unary operator: `-` negates an integer or a float,
/// and is an error on anything else; `!` negates the operand read as a
/// condition.
pub fn unary_plan(op: UnOp, t: &ValueType) -> (r: Result<UnaryPlan, HuziError>)
    ensures
        match op {
            UnOp::Neg => match r {
                Ok(p) => is_numeric(t@) && p == if t@ is Int {
                    UnaryPlan::IntNeg
                } else {
                    UnaryPlan::FloatNeg
                },
                Err(e) => !is_numeric(t@) && e@ == negation_error(),
            },
            UnOp::Not => match r {
                Ok(p) => exists|k: Truth| p == UnaryPlan::Not(k) && #[trigger] truth_of(t@, k),
                Err(e) => (t@ is Float || t@ is Aggregate) && e@ == condition_error(),
            },
        },
{
    match op {
        UnOp::Neg => match t {
            ValueType::Int(_) => Ok(UnaryPlan::IntNeg),
            ValueType::Float(_) => Ok(UnaryPlan::FloatNeg),
            _ => Err(HuziError::new_global("Operator '-' requires a numeric operand")),
        },
        UnOp::Not => match truth(t) {
            Ok(k) => {
                proof {
                    assert(truth_of(t@, k));
                }
                Ok(UnaryPlan::Not(k))
            },
            Err(e) => Err(e),
        },
    }
}

/// `k` is how a value of type `t` is read as a condition.
pub open spec fn truth_of(t: ValueTypeView, k: Truth) -> bool {
    (t == ValueTypeView::Int(1) && k == Truth::AsIs) || (t is Int && t != ValueTypeView::Int(1) && k
        == Truth::NonZero) || (t is Ptr && k == Truth::NonNull)
}

/// How a value is brought to the type a place expects.
#[derive(Debug, Clone, Copy, PartialEq, Eq, Structural)]
pub enum Coercion {
    Keep,
    SignExtend,
    Truncate,
    IntToFloat,
    FloatToInt,
    FloatCast,
    PtrToInt,
}

/// The coercion from `source` to `target`, if there is one: a value of the
/// target type is kept; integers are sign-extended or truncated, integers
/// and floats converted either way, floats cast to the other width, and a
/// pointer turned into a 64-bit integer.
pub open spec fn coercion_of(target: ValueTypeView, source: ValueTypeView) -> Option<Coercion> {
    if target == source {
        Some(Coercion::Keep)
    } else {
        match (target, source) {
            (ValueTypeView::Int(tw), ValueTypeView::Int(sw)) => if tw > sw {
                Some(Coercion::SignExtend)
            } else {
                Some(Coercion::Truncate)
            },
            (ValueTypeView::Float(_), ValueTypeView::Int(_)) => Some(Coercion::IntToFloat),
            (ValueTypeView::Int(_), ValueTypeView::Float(_)) => Some(Coercion::FloatToInt),
            (ValueTypeView::Float(_), ValueTypeView::Float(_)) => Some(Coercion::FloatCast),
            (ValueTypeView::Int(64), ValueTypeView::Ptr) => Some(Coercion::PtrToInt),
            _ => None,
        }
    }
}

/// The coercion from a value of type `source` to the type `target`;
/// `None` is a type mismatch.
pub fn coercion(target: &ValueType, source: &ValueType) -> (r: Option<Coercion>)
    ensures
        r == coercion_of(target@, source@),
{
    match (target, source) {
        (ValueType::Int(tw), ValueType::Int(sw)) => if *tw == *sw {
            Some(Coercion::Keep)
        } else if *tw > *sw {
            Some(Coercion::SignExtend)
        } else {
            Some(Coercion::Truncate)
        },
        (ValueType::Float(_), ValueType::Int(_)) => Some(Coercion::IntToFloat),
        (ValueType::Int(tw), ValueType::Float(_)) => Some(Coercion::FloatToInt),
        (ValueType::Float(tw), ValueType::Float(sw)) => if *tw == *sw {
            Some(Coercion::Keep)
        } else {
            Some(Coercion::FloatCast)
        },
        (ValueType::Int(tw), ValueType::Ptr) => if *tw == 64 {
            Some(Coercion::PtrToInt)
        } else {
            None
        },
        (ValueType::Ptr, ValueType::Ptr) => Some(Coercion::Keep),
        (ValueType::Aggregate(a), ValueType::Aggregate(b)) => if *a == *b {
            Some(Coercion::Keep)
        } else {
            None
        },
        _ => None,
    }
}

/// The error for an array index that is not an integer.
pub open spec fn index_error() -> ErrorView {
    ErrorView { message: "Array index must be an integer"@, line: 0, column: 0 }
}

/// How an array index is brought to a 32-bit integer.
pub fn index_coercion(t: &ValueType) -> (r: Result<Coercion, HuziError>)
    ensures
        match r {
            Ok(c) => match t@ {
                ValueTypeView::Int(w) => c == if w == 32 {
                    Coercion::Keep
                } else if w < 32 {
                    Coercion::SignExtend
                } else {
                    Coercion::Truncate
                },
                _ => false,
            },
            Err(e) => !(t@ is Int) && e@ == index_error(),
        },
{
    match t {
        ValueType::Int(w) => if *w == 32 {
            Ok(Coercion::Keep)
        } else if *w < 32 {
            Ok(Coercion::SignExtend)
        } else {
            Ok(Coercion::Truncate)
        },
        _ => Err(HuziError::new_global("Array index must be an integer")),
    }
}

/// The type of an integer literal: 32 bits when it fits, 64 otherwise.
pub fn int_literal_type(n: i64) -> (t: ValueType)
    ensures
        t@ == if i32::MIN <= n <= i32::MAX {
            ValueTypeView::Int(32)
        } else {
            ValueTypeView::Int(64)
        },
{
    if n >= -2147483648i64 && n <= 2147483647i64 {
        ValueType::Int(32)
    } else {
        ValueType::Int(64)
    }
}

/// The type of an operand after a conversion.
pub open spec fn converted(c: Conversion, t: ValueTypeView) -> ValueTypeView {
    match c {
        Conversion::Keep => t,
        Conversion::SignExtend(w) => ValueTypeView::Int(w),
        Conversion::IntToFloat(w) => ValueTypeView::Float(w),
    }
}

/// After the conversions that `operand_conversions` chooses, two numeric
/// operands have the same type, the type the operator works on, unless they
/// are floats of two widths (which are left as they are). Integers are only
/// ever widened.
pub proof fn lemma_operands_meet(l: ValueTypeView, r: ValueTypeView)
    requires
        l is Int || l is Float,
        r is Int || r is Float,
        !(l is Float && r is Float && l != r),
    ensures
        ({
            let (lc, rc, common) = operand_conversions(l, r);
            &&& converted(lc, l) == common
            &&& converted(rc, r) == common
            &&& (l is Int && r is Int) ==> (common matches ValueTypeView::Int(w) && w >= l->Int_0 && w >= r->Int_0)
        }),
{
}

/// A value already of the target type is kept, and a number can always be
/// brought to any numeric type.
pub proof fn lemma_numbers_coerce(target: ValueTypeView, source: ValueTypeView)
    ensures
        coercion_of(source, source) == Some(Coercion::Keep),
        (target is Int || target is Float) && (source is Int || source is Float) ==> coercion_of(
            target,
            source,
        ) is Some,
{
}

} // verus!
