use vstd::prelude::*;
use crate::ast::{Expr, ExprView, LetStmt, MatchArm, Pattern, PatternView, Program, Stmt, nodes};
use crate::error::{ErrorView, HuziError};
use crate::text::is_text;
use crate::suggest::{did_you_mean, hint, names_of};

verus! {

/// What a top-level statement is to code generation.
#[derive(Debug, Clone, Copy, PartialEq, Eq, Structural)]
pub enum StmtClass {
    Struct,
    Enum,
    Function,
    /// A module import: it declares, and runs nothing.
    Import,
    /// Any other statement: it runs as part of the program's entry point.
    Other,
}

/// The class of a statement.
pub open spec fn class_of(s: Stmt) -> StmtClass {
    match s {
        Stmt::Struct(_) => StmtClass::Struct,
        Stmt::Enum(_) => StmtClass::Enum,
        Stmt::Fn(_) => StmtClass::Function,
        Stmt::Import(_) => StmtClass::Import,
        _ => StmtClass::Other,
    }
}

/// The positions, in order, of the first `n` statements of class `c`.
pub open spec fn indices_of(stmts: Seq<Stmt>, c: StmtClass, n: int) -> Seq<usize>
    decreases n,
{
    if n <= 0 {
        Seq::empty()
    } else {
        let rest = indices_of(stmts, c, n - 1);
        if class_of(stmts[n - 1]) == c {
            rest.push((n - 1) as usize)
        } else {
            rest
        }
    }
}

/// Some statement defines a function named `main`.
pub open spec fn declares_main(stmts: Seq<Stmt>) -> bool {
    exists|k: int| 0 <= k < stmts.len() && (#[trigger] stmts[k] matches Stmt::Fn(f) && f.name@ == "main"@)
}

/// The top-level statements of a program, sorted by what code generation
/// does with them: positions of the struct definitions, enum definitions,
/// functions, imports and other statements, and whether a `main` function
/// is defined.
pub struct ProgramPlan {
    pub structs: Vec<usize>,
    pub enums: Vec<usize>,
    pub functions: Vec<usize>,
    pub imports: Vec<usize>,
    pub top_level: Vec<usize>,
    pub has_main: bool,
}

/// The error for a program with both `fn main` and top-level statements.
pub open spec fn mixed_main_error() -> ErrorView {
    ErrorView {
        message: "Cannot mix top-level statements with `fn main`; move the top-level code into a function"@,
        line: 0,
        column: 0,
    }
}

/// The error for a program with neither `fn main` nor top-level statements.
pub open spec fn missing_main_error() -> ErrorView {
    ErrorView {
        message: "No `fn main` found; define `fn main() -> i32 { ... }` or write top-level statements"@,
        line: 0,
        column: 0,
    }
}

fn class(s: &Stmt) -> (c: StmtClass)
    ensures
        c == class_of(*s),
{
    match s {
        Stmt::Struct(_) => StmtClass::Struct,
        Stmt::Enum(_) => StmtClass::Enum,
        Stmt::Fn(_) => StmtClass::Function,
        Stmt::Import(_) => StmtClass::Import,
        _ => StmtClass::Other,
    }
}

/// Sorts the program's top-level statements.
pub fn plan_program(program: &Program) -> (p: ProgramPlan)
    ensures
        p.structs@ == indices_of(nodes(program.statements@), StmtClass::Struct, program.statements@.len() as int),
        p.enums@ == indices_of(nodes(program.statements@), StmtClass::Enum, program.statements@.len() as int),
        p.functions@ == indices_of(nodes(program.statements@), StmtClass::Function, program.statements@.len() as int),
        p.imports@ == indices_of(nodes(program.statements@), StmtClass::Import, program.statements@.len() as int),
        p.top_level@ == indices_of(nodes(program.statements@), StmtClass::Other, program.statements@.len() as int),
        p.has_main == declares_main(nodes(program.statements@)),
{
    let ghost stmts = nodes(program.statements@);
    let mut structs: Vec<usize> = Vec::new();
    let mut enums: Vec<usize> = Vec::new();
    let mut functions: Vec<usize> = Vec::new();
    let mut imports: Vec<usize> = Vec::new();
    let mut top_level: Vec<usize> = Vec::new();
    let mut has_main = false;
    let mut i: usize = 0;
    while i < program.statements.len()
        invariant
            stmts == nodes(program.statements@),
            stmts.len() == program.statements@.len(),
            i <= stmts.len(),
            structs@ == indices_of(stmts, StmtClass::Struct, i as int),
            enums@ == indices_of(stmts, StmtClass::Enum, i as int),
            functions@ == indices_of(stmts, StmtClass::Function, i as int),
            imports@ == indices_of(stmts, StmtClass::Import, i as int),
            top_level@ == indices_of(stmts, StmtClass::Other, i as int),
            has_main == exists|k: int| 0 <= k < i && (#[trigger] stmts[k] matches Stmt::Fn(f) && f.name@ == "main"@),
        decreases stmts.len() - i,
    {
        let s = &program.statements[i].node;
        let c = class(s);
        match c {
            StmtClass::Struct => structs.push(i),
            StmtClass::Enum => enums.push(i),
            StmtClass::Function => functions.push(i),
            StmtClass::Import => imports.push(i),
            StmtClass::Other => top_level.push(i),
        }
        let is_main = match s {
            Stmt::Fn(f) => is_text(&f.name, "main"),
            _ => false,
        };
        if is_main {
            has_main = true;
        }
        proof {
            assert(has_main == exists|k: int| 0 <= k < i + 1 && (#[trigger] stmts[k] matches Stmt::Fn(f) && f.name@
                == "main"@)) by {
                if is_main {
                    assert(stmts[i as int] matches Stmt::Fn(f) && f.name@ == "main"@);
                }
            }
        }
        i += 1;
    }
    ProgramPlan { structs, enums, functions, imports, top_level, has_main }
}

impl ProgramPlan {
    /// The entry-point rule: a program either defines `fn main` or has
    /// top-level statements, not both and not neither. `Ok(true)` when a
    /// `main` must be made around the top-level statements.
    pub fn entry(&self) -> (r: Result<bool, HuziError>)
        ensures
            match r {
                Ok(make_main) => (self.has_main && self.top_level@.len() == 0 && !make_main) || (!self.has_main
                    && self.top_level@.len() > 0 && make_main),
                Err(e) => (self.has_main && self.top_level@.len() > 0 && e@ == mixed_main_error()) || (
                !self.has_main && self.top_level@.len() == 0 && e@ == missing_main_error()),
            },
    {
        if self.has_main {
            if self.top_level.len() > 0 {
                return Err(
                    HuziError::new_global(
                        "Cannot mix top-level statements with `fn main`; move the top-level code into a function",
                    ),
                );
            }
            Ok(false)
        } else {
            if self.top_level.len() == 0 {
                return Err(
                    HuziError::new_global(
                        "No `fn main` found; define `fn main() -> i32 { ... }` or write top-level statements",
                    ),
                );
            }
            Ok(true)
        }
    }
}

/// The error for a struct definition inside a function or block.
pub open spec fn nested_struct_error() -> ErrorView {
    ErrorView { message: "Struct definitions are only allowed at the top level"@, line: 0, column: 0 }
}

/// The error for an enum definition inside a function or block.
pub open spec fn nested_enum_error() -> ErrorView {
    ErrorView { message: "Enum definitions are only allowed at the top level"@, line: 0, column: 0 }
}

/// Checks a statement inside a function or block: struct and enum
/// definitions belong at the top level only.
pub fn check_nested(s: &Stmt) -> (r: Result<(), HuziError>)
    ensures
        match r {
            Ok(()) => !(*s is Struct) && !(*s is Enum),
            Err(e) => (*s is Struct && e@ == nested_struct_error()) || (*s is Enum && e@ == nested_enum_error()),
        },
{
    match s {
        Stmt::Struct(_) => Err(HuziError::new_global("Struct definitions are only allowed at the top level")),
        Stmt::Enum(_) => Err(HuziError::new_global("Enum definitions are only allowed at the top level")),
        _ => Ok(()),
    }
}

/// How a `let` statement makes its variable.
#[derive(Debug, Clone, Copy, PartialEq, Eq, Structural)]
pub enum LetForm {
    /// From a non-empty array literal: the elements are stored in place.
    Array,
    /// From a value, brought to the annotated type when there is one.
    Value,
    /// Without a value: the annotated type's zero.
    Zeroed,
}

/// The error for an empty array literal.
pub open spec fn empty_array_error() -> ErrorView {
    ErrorView { message: "Empty array literal not supported"@, line: 0, column: 0 }
}

/// The error for a variable with neither a value nor a type.
pub open spec fn untyped_let_error(name: Seq<char>) -> ErrorView {
    ErrorView {
        message: "Variable '"@ + name + "' declared without a value or a type annotation"@,
        line: 0,
        column: 0,
    }
}

/// How a `let` statement makes its variable: an array literal must have
/// elements, and a variable without a value needs a type.
pub fn let_form(l: &LetStmt) -> (r: Result<LetForm, HuziError>)
    ensures
        match l.value {
            Some(Expr::ArrayLiteral(items)) => if items@.len() > 0 {
                r matches Ok(f) && f == LetForm::Array
            } else {
                r matches Err(e) && e@ == empty_array_error()
            },
            Some(_) => r matches Ok(f) && f == LetForm::Value,
            None => if l.type_annotation is Some {
                r matches Ok(f) && f == LetForm::Zeroed
            } else {
                r matches Err(e) && e@ == untyped_let_error(l.name@)
            },
        },
{
    match &l.value {
        Some(Expr::ArrayLiteral(items)) => if items.len() > 0 {
            Ok(LetForm::Array)
        } else {
            Err(HuziError::new_global("Empty array literal not supported"))
        },
        Some(_) => Ok(LetForm::Value),
        None => match &l.type_annotation {
            Some(_) => Ok(LetForm::Zeroed),
            None => {
                let mut message = "Variable '".to_owned();
                message.append(l.name.as_str());
                message.append("' declared without a value or a type annotation");
                Err(HuziError::new_global(message.as_str()))
            },
        },
    }
}

/// The variable at the root of a place: through field accesses and
/// indexing to a variable, if the place starts at one.
pub open spec fn root_variable(e: ExprView) -> Option<Seq<char>>
    decreases e,
{
    match e {
        ExprView::Ident(n) => Some(n),
        ExprView::FieldAccess(base, _) => root_variable(*base),
        ExprView::ArrayIndex(array, _) => root_variable(*array),
        _ => None,
    }
}

/// The variable at the root of the place `e`, which must be declared
/// `mut` for the place to be assigned.
pub fn lvalue_root(e: &Expr) -> (r: Option<String>)
    ensures
        match r {
            Some(n) => root_variable(e@) == Some(n@),
            None => root_variable(e@) is None,
        },
    decreases e,
{
    match e {
        Expr::Ident(n) => Some(n.clone()),
        Expr::FieldAccess(fa) => lvalue_root(&fa.base),
        Expr::ArrayIndex(ix) => lvalue_root(&ix.array),
        _ => None,
    }
}

/// What an assignment writes to.
#[derive(Debug, Clone, Copy, PartialEq, Eq, Structural)]
pub enum AssignTarget {
    Variable,
    Element,
    Field,
}

/// The error for assigning to something that is not a place.
pub open spec fn assign_target_error() -> ErrorView {
    ErrorView { message: "Invalid assignment target"@, line: 0, column: 0 }
}

/// What an assignment to `target` writes: a variable, an array element or
/// a field; anything else cannot be assigned.
pub fn assign_target(target: &Expr) -> (r: Result<AssignTarget, HuziError>)
    ensures
        match target@ {
            ExprView::Ident(_) => r matches Ok(t) && t == AssignTarget::Variable,
            ExprView::ArrayIndex(_, _) => r matches Ok(t) && t == AssignTarget::Element,
            ExprView::FieldAccess(_, _) => r matches Ok(t) && t == AssignTarget::Field,
            _ => r matches Err(e) && e@ == assign_target_error(),
        },
{
    match target {
        Expr::Ident(_) => Ok(AssignTarget::Variable),
        Expr::ArrayIndex(_) => Ok(AssignTarget::Element),
        Expr::FieldAccess(_) => Ok(AssignTarget::Field),
        _ => Err(HuziError::new_global("Invalid assignment target")),
    }
}

/// What a name is looked up as.
#[derive(Debug, Clone, Copy, PartialEq, Eq, Structural)]
pub enum NameKind {
    Variable,
    Function,
    Struct,
    Enum,
}

/// The word for a kind of name in diagnostics.
pub open spec fn name_kind_text(k: NameKind) -> Seq<char> {
    match k {
        NameKind::Variable => "variable"@,
        NameKind::Function => "function"@,
        NameKind::Struct => "struct"@,
        NameKind::Enum => "enum"@,
    }
}

fn name_kind_word(k: NameKind) -> (s: &'static str)
    ensures
        s@ == name_kind_text(k),
{
    match k {
        NameKind::Variable => "variable",
        NameKind::Function => "function",
        NameKind::Struct => "struct",
        NameKind::Enum => "enum",
    }
}

/// Whether an unknown name of this kind gets a "did you mean" hint: unknown
/// variables and functions do.
pub open spec fn gets_hint(k: NameKind) -> bool {
    k is Variable || k is Function
}

/// The error for a name that nothing of its kind declares, given the names
/// visible there; for a variable or a function it ends with a hint on a line
/// of its own where a visible name is close (see `crate::suggest::hint`).
pub open spec fn unknown_name_error(k: NameKind, name: Seq<char>, visible: Seq<Seq<char>>) -> ErrorView {
    let base = "Unknown "@ + name_kind_text(k) + ": "@ + name;
    ErrorView {
        message: if gets_hint(k) && hint(name, visible) is Some {
            base + "\n  help: "@ + hint(name, visible)->0
        } else {
            base
        },
        line: 0,
        column: 0,
    }
}

/// Checks that a name used as a variable, function, struct or enum is
/// declared as one: `found` says whether the lookup found it, and `visible`
/// lists the names visible there (functions, structs, enums, variables).
pub fn check_known(k: NameKind, name: &str, found: bool, visible: &Vec<String>) -> (r: Result<(), HuziError>)
    requires
        forall|j: int| 0 <= j < visible@.len() ==> name@.len() + (#[trigger] visible@[j])@.len() < usize::MAX,
    ensures
        match r {
            Ok(()) => found,
            Err(e) => !found && e@ == unknown_name_error(k, name@, names_of(visible@)),
        },
{
    if found {
        Ok(())
    } else {
        let mut message = "Unknown ".to_owned();
        message.append(name_kind_word(k));
        message.append(": ");
        message.append(name);
        let hinted = match k {
            NameKind::Variable | NameKind::Function => true,
            _ => false,
        };
        if hinted {
            match did_you_mean(name, visible) {
                Some(h) => {
                    message.append("\n  help: ");
                    message.append(h.as_str());
                },
                None => {},
            }
        }
        Err(HuziError::new_global(message.as_str()))
    }
}

/// The error for assigning to a variable declared without `mut`.
pub open spec fn immutable_variable_error(name: Seq<char>) -> ErrorView {
    ErrorView {
        message: "Cannot assign to immutable variable '"@ + name + "'; declare it with `let mut`"@,
        line: 0,
        column: 0,
    }
}

/// Checks that a variable may be assigned: `found` is its mutability, or
/// `None` where no scope binds it (then the error is that of `check_known`,
/// with its hint from the `visible` names). Only a variable declared with
/// `mut` may be assigned.
pub fn check_assignable(name: &str, found: Option<bool>, visible: &Vec<String>) -> (r: Result<(), HuziError>)
    requires
        forall|j: int| 0 <= j < visible@.len() ==> name@.len() + (#[trigger] visible@[j])@.len() < usize::MAX,
    ensures
        match r {
            Ok(()) => found == Some(true),
            Err(e) => match found {
                None => e@ == unknown_name_error(NameKind::Variable, name@, names_of(visible@)),
                Some(mutable) => !mutable && e@ == immutable_variable_error(name@),
            },
        },
{
    match found {
        None => check_known(NameKind::Variable, name, false, visible),
        Some(true) => Ok(()),
        Some(false) => {
            let mut message = "Cannot assign to immutable variable '".to_owned();
            message.append(name);
            message.append("'; declare it with `let mut`");
            Err(HuziError::new_global(message.as_str()))
        },
    }
}

/// The error for `break` (`is_break`) or `continue` outside every loop.
pub open spec fn loop_jump_error(is_break: bool) -> ErrorView {
    ErrorView {
        message: if is_break {
            "`break` outside of a loop"@
        } else {
            "`continue` outside of a loop"@
        },
        line: 0,
        column: 0,
    }
}

/// Checks that `break` (`is_break`) or `continue` stands inside a loop:
/// `loops` is how many loops enclose it.
pub fn check_loop_jump(is_break: bool, loops: usize) -> (r: Result<(), HuziError>)
    ensures
        match r {
            Ok(()) => loops > 0,
            Err(e) => loops == 0 && e@ == loop_jump_error(is_break),
        },
{
    if loops > 0 {
        Ok(())
    } else if is_break {
        Err(HuziError::new_global("`break` outside of a loop"))
    } else {
        Err(HuziError::new_global("`continue` outside of a loop"))
    }
}

/// The error for a `match` whose arms hold no wildcard.
pub open spec fn missing_wildcard_error() -> ErrorView {
    ErrorView { message: "match must have a wildcard arm `_`"@, line: 0, column: 0 }
}

/// The arms that a `match` tries, in order: those up to and including the
/// first wildcard `_`; arms after it are never reached. A `match` without a
/// wildcard is an error.
pub fn arms_tried(arms: &Vec<MatchArm>) -> (r: Result<usize, HuziError>)
    ensures
        match r {
            Ok(n) => 1 <= n <= arms@.len() && arms@[n - 1].pattern@ == PatternView::Wildcard && forall|i: int|
                0 <= i < n - 1 ==> #[trigger] arms@[i].pattern@ != PatternView::Wildcard,
            Err(e) => (forall|i: int| 0 <= i < arms@.len() ==> #[trigger] arms@[i].pattern@ != PatternView::Wildcard)
                && e@ == missing_wildcard_error(),
        },
{
    let mut i: usize = 0;
    while i < arms.len()
        invariant
            i <= arms@.len(),
            forall|j: int| 0 <= j < i ==> #[trigger] arms@[j].pattern@ != PatternView::Wildcard,
        decreases arms@.len() - i,
    {
        match &arms[i].pattern {
            Pattern::Wildcard => return Ok(i + 1),
            _ => {},
        }
        i += 1;
    }
    Err(HuziError::new_global("match must have a wildcard arm `_`"))
}

} // verus!
