use vstd::prelude::*;
use crate::text::{decimal, usize_to_decimal};

verus! {

/// A type as written in the source.
#[derive(Debug)]
pub enum Type {
    I32,
    I64,
    U32,
    U64,
    F32,
    F64,
    Bool,
    Str,
    Char,
    Unit,
    Named(String),
    /// Element type and length.
    Array(Box<Type>, usize),
    /// The types of the components, one or more: `(i32, str)`.
    Tuple(Vec<Type>),
}

#[derive(Debug)]
pub struct Program {
    pub statements: Vec<Spanned>,
}

/// Where a statement starts: the line and column of its first token.
#[derive(Debug, Clone, Copy, PartialEq, Eq, Structural)]
pub struct Span {
    pub line: usize,
    pub column: usize,
}

/// A top-level statement and where it starts.
#[derive(Debug)]
pub struct Spanned {
    pub node: Stmt,
    pub span: Span,
}

#[derive(Debug)]
pub enum Stmt {
    Let(LetStmt),
    Struct(StructDef),
    Enum(EnumDef),
    Fn(FnStmt),
    Expr(ExprStmt),
    Return(ReturnStmt),
    Break,
    Continue,
    Import(ImportStmt),
    Block(Block),
    If(IfStmt),
    For(ForStmt),
    While(WhileStmt),
}

#[derive(Debug)]
pub struct LetStmt {
    pub name: String,
    pub mutable: bool,
    pub type_annotation: Option<Type>,
    pub value: Option<Expr>,
}

#[derive(Debug)]
pub struct FnStmt {
    pub name: String,
    pub params: Vec<FnParam>,
    pub return_type: Option<Type>,
    pub body: Block,
}

#[derive(Debug, Clone)]
pub struct FnParam {
    pub name: String,
    pub param_type: Type,
}

#[derive(Debug, Clone)]
pub struct StructDef {
    pub name: String,
    pub fields: Vec<StructField>,
}

#[derive(Debug, Clone)]
pub struct StructField {
    pub name: String,
    pub field_type: Type,
}

#[derive(Debug, Clone)]
pub struct EnumDef {
    pub name: String,
    pub variants: Vec<EnumVariant>,
}

#[derive(Debug, Clone)]
pub struct EnumVariant {
    pub name: String,
    /// Optional payload type: `Ok(i32)` has one, `Red` has none.
    pub payload: Option<Type>,
}

#[derive(Debug)]
pub struct ExprStmt {
    pub expr: Expr,
}

#[derive(Debug)]
pub struct ReturnStmt {
    pub value: Option<Expr>,
}

#[derive(Debug)]
pub struct Block {
    pub statements: Vec<Stmt>,
}

#[derive(Debug)]
pub struct IfStmt {
    pub condition: Expr,
    pub then_branch: Block,
    pub elif_branches: Vec<(Expr, Block)>,
    pub else_branch: Option<Block>,
}

/// `import name`: the dotted name of a module, such as `mods.helpers`.
#[derive(Debug)]
pub struct ImportStmt {
    pub name: String,
}

/// What a `for` loop runs over.
#[derive(Debug)]
pub enum ForSource {
    /// `start..end`: the integers from `start` up to, not including, `end`.
    Range(Expr, Expr),
    /// The elements of an array.
    Array(Expr),
}

#[derive(Debug)]
pub struct ForStmt {
    pub var_name: String,
    pub source: ForSource,
    pub body: Block,
}

#[derive(Debug)]
pub struct WhileStmt {
    pub condition: Expr,
    pub body: Block,
}

#[derive(Debug)]
pub enum Expr {
    Literal(Literal),
    Ident(String),
    Binary(BinaryExpr),
    Unary(UnaryExpr),
    Call(CallExpr),
    Assign(AssignExpr),
    ArrayIndex(ArrayIndexExpr),
    ArrayLiteral(Vec<Expr>),
    If(IfExpr),
    FieldAccess(FieldAccessExpr),
    StructLiteral(StructLiteralExpr),
    EnumConstruct(EnumConstructExpr),
    Match(MatchExpr),
}

/// Enum variant construction: `Color::Red` or `Result::Ok(42)`
#[derive(Debug)]
pub struct EnumConstructExpr {
    pub enum_name: String,
    pub variant: String,
    pub args: Vec<Expr>,
}

/// `match scrutinee { pattern => body, ... }` used as an expression.
#[derive(Debug)]
pub struct MatchExpr {
    pub scrutinee: Box<Expr>,
    pub arms: Vec<MatchArm>,
}

#[derive(Debug)]
pub struct MatchArm {
    pub pattern: Pattern,
    pub body: Block,
}

#[derive(Debug)]
pub enum Pattern {
    /// `Enum::Variant` or `Enum::Variant(binding)`: binds the payload to a
    /// variable inside the arm body.
    Variant { enum_name: String, variant: String, binding: Option<String> },
    /// `_`: matches anything.
    Wildcard,
}

#[derive(Debug)]
pub struct FieldAccessExpr {
    pub base: Box<Expr>,
    pub field: String,
}

/// Struct instantiation: `Point { x: 1, y: 2 }`
#[derive(Debug)]
pub struct StructLiteralExpr {
    pub name: String,
    pub fields: Vec<(String, Expr)>,
}

/// If used as an expression: `let m = if cond { a } else { b }`
#[derive(Debug)]
pub struct IfExpr {
    pub condition: Box<Expr>,
    pub then_branch: Block,
    pub else_branch: Block,
}

#[derive(Debug)]
pub struct ArrayIndexExpr {
    pub array: Box<Expr>,
    pub index: Box<Expr>,
}

/// A literal. A float literal keeps its source text: digits with one dot.
#[derive(Debug)]
pub enum Literal {
    Int(i64),
    Float(String),
    Bool(bool),
    String(String),
    Char(char),
}

#[derive(Debug)]
pub struct BinaryExpr {
    pub left: Box<Expr>,
    pub operator: BinOp,
    pub right: Box<Expr>,
}

#[derive(Debug)]
pub struct UnaryExpr {
    pub operator: UnOp,
    pub operand: Box<Expr>,
}

#[derive(Debug)]
pub struct CallExpr {
    pub callee: Box<Expr>,
    pub arguments: Vec<Expr>,
}

#[derive(Debug)]
pub struct AssignExpr {
    pub target: Box<Expr>,
    pub value: Box<Expr>,
}

#[derive(Debug, Clone, Copy, PartialEq, Eq, Structural)]
pub enum BinOp {
    Add,
    Sub,
    Mul,
    Div,
    Mod,
    Eq,
    Neq,
    Lt,
    Le,
    Gt,
    Ge,
    And,
    Or,
}

#[derive(Debug, Clone, Copy, PartialEq, Eq, Structural)]
pub enum UnOp {
    Neg,
    Not,
}

// ---------------------------------------------------------------------------
// The syntax tree as mathematical values: names as character sequences,
// lists as sequences, blocks as sequences of statements.
// ---------------------------------------------------------------------------

pub enum TypeView {
    I32,
    I64,
    U32,
    U64,
    F32,
    F64,
    Bool,
    Str,
    Char,
    Unit,
    Named(Seq<char>),
    Array(Box<TypeView>, usize),
    Tuple(Seq<TypeView>),
}

pub enum LiteralView {
    Int(i64),
    Float(Seq<char>),
    Bool(bool),
    Str(Seq<char>),
    Char(char),
}

pub enum PatternView {
    Variant { enum_name: Seq<char>, variant: Seq<char>, binding: Option<Seq<char>> },
    Wildcard,
}

pub enum ExprView {
    Literal(LiteralView),
    Ident(Seq<char>),
    Binary(Box<ExprView>, BinOp, Box<ExprView>),
    Unary(UnOp, Box<ExprView>),
    Call(Box<ExprView>, Seq<ExprView>),
    Assign(Box<ExprView>, Box<ExprView>),
    ArrayIndex(Box<ExprView>, Box<ExprView>),
    ArrayLiteral(Seq<ExprView>),
    /// Condition, then block, else block.
    If(Box<ExprView>, Seq<StmtView>, Seq<StmtView>),
    FieldAccess(Box<ExprView>, Seq<char>),
    StructLiteral(Seq<char>, Seq<(Seq<char>, ExprView)>),
    /// Enum name, variant name, arguments.
    EnumConstruct(Seq<char>, Seq<char>, Seq<ExprView>),
    Match(Box<ExprView>, Seq<(PatternView, Seq<StmtView>)>),
}

pub enum StmtView {
    Let { name: Seq<char>, mutable: bool, ty: Option<TypeView>, value: Option<ExprView> },
    Struct { name: Seq<char>, fields: Seq<(Seq<char>, TypeView)> },
    Enum { name: Seq<char>, variants: Seq<(Seq<char>, Option<TypeView>)> },
    Fn { name: Seq<char>, params: Seq<(Seq<char>, TypeView)>, ret: Option<TypeView>, body: Seq<StmtView> },
    Expr(ExprView),
    Return(Option<ExprView>),
    Break,
    Continue,
    Block(Seq<StmtView>),
    If {
        cond: ExprView,
        then_branch: Seq<StmtView>,
        elifs: Seq<(ExprView, Seq<StmtView>)>,
        else_branch: Option<Seq<StmtView>>,
    },
    Import(Seq<char>),
    For { var: Seq<char>, source: ForSourceView, body: Seq<StmtView> },
    While { cond: ExprView, body: Seq<StmtView> },
}

/// What a `for` loop runs over, as a mathematical value.
pub enum ForSourceView {
    Range(ExprView, ExprView),
    Array(ExprView),
}

pub open spec fn type_view(t: Type) -> TypeView
    decreases t,
{
    match t {
        Type::I32 => TypeView::I32,
        Type::I64 => TypeView::I64,
        Type::U32 => TypeView::U32,
        Type::U64 => TypeView::U64,
        Type::F32 => TypeView::F32,
        Type::F64 => TypeView::F64,
        Type::Bool => TypeView::Bool,
        Type::Str => TypeView::Str,
        Type::Char => TypeView::Char,
        Type::Unit => TypeView::Unit,
        Type::Named(n) => TypeView::Named(n@),
        Type::Array(t, n) => TypeView::Array(Box::new(type_view(*t)), n),
        Type::Tuple(ts) => TypeView::Tuple(types_view(ts@)),
    }
}

/// Views of a list of types.
pub open spec fn types_view(s: Seq<Type>) -> Seq<TypeView>
    decreases s,
{
    if s.len() == 0 {
        Seq::empty()
    } else {
        types_view(s.drop_last()).push(type_view(s.last()))
    }
}

impl View for Type {
    type V = TypeView;

    open spec fn view(&self) -> TypeView {
        type_view(*self)
    }
}

pub open spec fn opt_type_view(t: Option<Type>) -> Option<TypeView> {
    match t {
        Some(t) => Some(t@),
        None => None,
    }
}

/// How a type is written: keywords for the built-in types, `()` for the
/// unit type, the name of a named type, `[element; length]`, and
/// `(first, second, ...)`.
pub open spec fn type_text(t: TypeView) -> Seq<char>
    decreases t,
{
    match t {
        TypeView::I32 => "i32"@,
        TypeView::I64 => "i64"@,
        TypeView::U32 => "u32"@,
        TypeView::U64 => "u64"@,
        TypeView::F32 => "f32"@,
        TypeView::F64 => "f64"@,
        TypeView::Bool => "bool"@,
        TypeView::Str => "str"@,
        TypeView::Char => "char"@,
        TypeView::Unit => "()"@,
        TypeView::Named(n) => n,
        TypeView::Array(elem, size) => "["@ + type_text(*elem) + "; "@ + decimal(size as nat) + "]"@,
        TypeView::Tuple(ts) => "("@ + types_text(ts) + ")"@,
    }
}

/// Types written one after another, separated by `, `.
pub open spec fn types_text(ts: Seq<TypeView>) -> Seq<char>
    decreases ts,
{
    if ts.len() == 0 {
        Seq::empty()
    } else if ts.len() == 1 {
        type_text(ts[0])
    } else {
        types_text(ts.drop_last()) + ", "@ + type_text(ts.last())
    }
}

impl Type {
    /// The type as written in the source.
    pub fn text(&self) -> (s: String)
        ensures
            s@ == type_text(self@),
        decreases self,
    {
        match self {
            Type::I32 => "i32".to_owned(),
            Type::I64 => "i64".to_owned(),
            Type::U32 => "u32".to_owned(),
            Type::U64 => "u64".to_owned(),
            Type::F32 => "f32".to_owned(),
            Type::F64 => "f64".to_owned(),
            Type::Bool => "bool".to_owned(),
            Type::Str => "str".to_owned(),
            Type::Char => "char".to_owned(),
            Type::Unit => "()".to_owned(),
            Type::Named(n) => n.clone(),
            Type::Array(elem, size) => {
                let e: &Type = elem;
                let mut s = "[".to_owned();
                s.append(e.text().as_str());
                s.append("; ");
                s.append(usize_to_decimal(*size).as_str());
                s.append("]");
                s
            },
            Type::Tuple(ts) => {
                let mut s = "(".to_owned();
                let mut i: usize = 0;
                proof {
                    assert(types_view(ts@.take(0)) =~= Seq::<TypeView>::empty());
                }
                while i < ts.len()
                    invariant
                        i <= ts@.len(),
                        *self == Type::Tuple(*ts),
                        s@ == "("@ + types_text(types_view(ts@.take(i as int))),
                    decreases ts@.len() - i,
                {
                    let ghost before = s@;
                    proof {
                        assert(ts@.take(i + 1).drop_last() =~= ts@.take(i as int));
                        lemma_types_view_len(ts@.take(i as int));
                        lemma_types_view_len(ts@.take(i + 1));
                    }
                    let t: &Type = &ts[i];
                    proof {
                        assert((*self)->0 == *ts);
                        assert(decreases_to!(*self => (*self)->0));
                        assert(decreases_to!(*ts => ts@));
                        assert(decreases_to!(ts@ => ts@[i as int]));
                    }
                    if i > 0 {
                        s.append(", ");
                    }
                    s.append(t.text().as_str());
                    proof {
                        let tv = types_view(ts@.take(i + 1));
                        assert(tv.drop_last() == types_view(ts@.take(i as int)));
                        assert(tv.last() == type_view(ts@[i as int]));
                        if i == 0 {
                            assert(tv.len() == 1);
                            assert(s@ =~= "("@ + types_text(tv));
                        } else {
                            assert(s@ =~= "("@ + types_text(tv));
                        }
                    }
                    i += 1;
                }
                proof {
                    assert(ts@.take(i as int) =~= ts@);
                }
                s.append(")");
                s
            },
        }
    }
}

/// A list of types has a view of each.
pub proof fn lemma_types_view_len(s: Seq<Type>)
    ensures
        types_view(s).len() == s.len(),
        forall|i: int| 0 <= i < s.len() ==> #[trigger] types_view(s)[i] == type_view(s[i]),
    decreases s.len(),
{
    if s.len() > 0 {
        lemma_types_view_len(s.drop_last());
    }
}

impl Clone for Type {
    fn clone(&self) -> (r: Type)
        ensures
            r@ == self@,
        decreases self,
    {
        match self {
            Type::I32 => Type::I32,
            Type::I64 => Type::I64,
            Type::U32 => Type::U32,
            Type::U64 => Type::U64,
            Type::F32 => Type::F32,
            Type::F64 => Type::F64,
            Type::Bool => Type::Bool,
            Type::Str => Type::Str,
            Type::Char => Type::Char,
            Type::Unit => Type::Unit,
            Type::Named(n) => Type::Named(n.clone()),
            Type::Array(elem, len) => {
                let e: &Type = elem;
                Type::Array(Box::new(e.clone()), *len)
            },
            Type::Tuple(ts) => {
                let mut v: Vec<Type> = Vec::new();
                let mut i: usize = 0;
                while i < ts.len()
                    invariant
                        i <= ts@.len(),
                        *self == Type::Tuple(*ts),
                        types_view(v@) == types_view(ts@.take(i as int)),
                    decreases ts@.len() - i,
                {
                    let t: &Type = &ts[i];
                    proof {
                        assert((*self)->0 == *ts);
                        assert(decreases_to!(*self => (*self)->0));
                        assert(decreases_to!(*ts => ts@));
                        assert(decreases_to!(ts@ => ts@[i as int]));
                    }
                    let c = t.clone();
                    let ghost before = v@;
                    v.push(c);
                    proof {
                        assert(v@.drop_last() =~= before);
                        assert(ts@.take(i + 1).drop_last() =~= ts@.take(i as int));
                    }
                    i += 1;
                }
                proof {
                    assert(ts@.take(i as int) =~= ts@);
                }
                Type::Tuple(v)
            },
        }
    }
}

impl View for Literal {
    type V = LiteralView;

    open spec fn view(&self) -> LiteralView {
        match self {
            Literal::Int(v) => LiteralView::Int(*v),
            Literal::Float(s) => LiteralView::Float(s@),
            Literal::Bool(b) => LiteralView::Bool(*b),
            Literal::String(s) => LiteralView::Str(s@),
            Literal::Char(c) => LiteralView::Char(*c),
        }
    }
}

impl View for Pattern {
    type V = PatternView;

    open spec fn view(&self) -> PatternView {
        match self {
            Pattern::Variant { enum_name, variant, binding } => PatternView::Variant {
                enum_name: enum_name@,
                variant: variant@,
                binding: match binding {
                    Some(b) => Some(b@),
                    None => None,
                },
            },
            Pattern::Wildcard => PatternView::Wildcard,
        }
    }
}

/// Views of a list of expressions.
pub open spec fn exprs_view(s: Seq<Expr>) -> Seq<ExprView>
    decreases s,
{
    if s.len() == 0 {
        Seq::empty()
    } else {
        exprs_view(s.drop_last()).push(expr_view(s.last()))
    }
}

/// Views of a list of statements.
pub open spec fn stmts_view(s: Seq<Stmt>) -> Seq<StmtView>
    decreases s,
{
    if s.len() == 0 {
        Seq::empty()
    } else {
        stmts_view(s.drop_last()).push(stmt_view(s.last()))
    }
}

/// Views of the fields of a struct literal.
pub open spec fn inits_view(s: Seq<(String, Expr)>) -> Seq<(Seq<char>, ExprView)>
    decreases s,
{
    if s.len() == 0 {
        Seq::empty()
    } else {
        inits_view(s.drop_last()).push((s.last().0@, expr_view(s.last().1)))
    }
}

/// Views of the `elif` branches of an `if`.
pub open spec fn elifs_view(s: Seq<(Expr, Block)>) -> Seq<(ExprView, Seq<StmtView>)>
    decreases s,
{
    if s.len() == 0 {
        Seq::empty()
    } else {
        elifs_view(s.drop_last()).push((expr_view(s.last().0), stmts_view(s.last().1.statements@)))
    }
}

/// Views of the arms of a `match`.
pub open spec fn arms_view(s: Seq<MatchArm>) -> Seq<(PatternView, Seq<StmtView>)>
    decreases s,
{
    if s.len() == 0 {
        Seq::empty()
    } else {
        arms_view(s.drop_last()).push((s.last().pattern@, stmts_view(s.last().body.statements@)))
    }
}

/// Views of the fields of a struct definition.
pub open spec fn fields_view(s: Seq<StructField>) -> Seq<(Seq<char>, TypeView)> {
    s.map_values(|f: StructField| (f.name@, f.field_type@))
}

/// Views of the parameters of a function.
pub open spec fn params_view(s: Seq<FnParam>) -> Seq<(Seq<char>, TypeView)> {
    s.map_values(|f: FnParam| (f.name@, f.param_type@))
}

/// Views of the variants of an enum definition.
pub open spec fn variants_view(s: Seq<EnumVariant>) -> Seq<(Seq<char>, Option<TypeView>)> {
    s.map_values(|v: EnumVariant| (v.name@, opt_type_view(v.payload)))
}

pub open spec fn block_view(b: Block) -> Seq<StmtView> {
    stmts_view(b.statements@)
}

pub open spec fn expr_view(e: Expr) -> ExprView
    decreases e,
{
    match e {
        Expr::Literal(l) => ExprView::Literal(l@),
        Expr::Ident(n) => ExprView::Ident(n@),
        Expr::Binary(b) => ExprView::Binary(
            Box::new(expr_view(*b.left)),
            b.operator,
            Box::new(expr_view(*b.right)),
        ),
        Expr::Unary(u) => ExprView::Unary(u.operator, Box::new(expr_view(*u.operand))),
        Expr::Call(c) => ExprView::Call(Box::new(expr_view(*c.callee)), exprs_view(c.arguments@)),
        Expr::Assign(a) => ExprView::Assign(
            Box::new(expr_view(*a.target)),
            Box::new(expr_view(*a.value)),
        ),
        Expr::ArrayIndex(a) => ExprView::ArrayIndex(
            Box::new(expr_view(*a.array)),
            Box::new(expr_view(*a.index)),
        ),
        Expr::ArrayLiteral(v) => ExprView::ArrayLiteral(exprs_view(v@)),
        Expr::If(i) => ExprView::If(
            Box::new(expr_view(*i.condition)),
            stmts_view(i.then_branch.statements@),
            stmts_view(i.else_branch.statements@),
        ),
        Expr::FieldAccess(f) => ExprView::FieldAccess(Box::new(expr_view(*f.base)), f.field@),
        Expr::StructLiteral(s) => ExprView::StructLiteral(s.name@, inits_view(s.fields@)),
        Expr::EnumConstruct(c) => ExprView::EnumConstruct(
            c.enum_name@,
            c.variant@,
            exprs_view(c.args@),
        ),
        Expr::Match(m) => ExprView::Match(Box::new(expr_view(*m.scrutinee)), arms_view(m.arms@)),
    }
}

pub open spec fn stmt_view(s: Stmt) -> StmtView
    decreases s,
{
    match s {
        Stmt::Let(l) => StmtView::Let {
            name: l.name@,
            mutable: l.mutable,
            ty: opt_type_view(l.type_annotation),
            value: match l.value {
                Some(e) => Some(expr_view(e)),
                None => None,
            },
        },
        Stmt::Struct(d) => StmtView::Struct { name: d.name@, fields: fields_view(d.fields@) },
        Stmt::Enum(d) => StmtView::Enum { name: d.name@, variants: variants_view(d.variants@) },
        Stmt::Fn(f) => StmtView::Fn {
            name: f.name@,
            params: params_view(f.params@),
            ret: opt_type_view(f.return_type),
            body: stmts_view(f.body.statements@),
        },
        Stmt::Expr(e) => StmtView::Expr(expr_view(e.expr)),
        Stmt::Return(r) => StmtView::Return(
            match r.value {
                Some(e) => Some(expr_view(e)),
                None => None,
            },
        ),
        Stmt::Break => StmtView::Break,
        Stmt::Continue => StmtView::Continue,
        Stmt::Block(b) => StmtView::Block(stmts_view(b.statements@)),
        Stmt::If(i) => StmtView::If {
            cond: expr_view(i.condition),
            then_branch: stmts_view(i.then_branch.statements@),
            elifs: elifs_view(i.elif_branches@),
            else_branch: match i.else_branch {
                Some(b) => Some(stmts_view(b.statements@)),
                None => None,
            },
        },
        Stmt::Import(i) => StmtView::Import(i.name@),
        Stmt::For(f) => StmtView::For {
            var: f.var_name@,
            source: match f.source {
                ForSource::Range(a, b) => ForSourceView::Range(expr_view(a), expr_view(b)),
                ForSource::Array(a) => ForSourceView::Array(expr_view(a)),
            },
            body: stmts_view(f.body.statements@),
        },
        Stmt::While(w) => StmtView::While {
            cond: expr_view(w.condition),
            body: stmts_view(w.body.statements@),
        },
    }
}

impl View for Expr {
    type V = ExprView;

    open spec fn view(&self) -> ExprView {
        expr_view(*self)
    }
}

impl View for Stmt {
    type V = StmtView;

    open spec fn view(&self) -> StmtView {
        stmt_view(*self)
    }
}

impl View for Block {
    type V = Seq<StmtView>;

    open spec fn view(&self) -> Seq<StmtView> {
        stmts_view(self.statements@)
    }
}

/// The statements of a spanned list, without their positions.
pub open spec fn nodes(s: Seq<Spanned>) -> Seq<Stmt> {
    s.map_values(|x: Spanned| x.node)
}

/// The positions of a spanned list, as (line, column) pairs.
pub open spec fn spans_view(s: Seq<Spanned>) -> Seq<(usize, usize)> {
    s.map_values(|x: Spanned| (x.span.line, x.span.column))
}

impl View for Program {
    type V = Seq<StmtView>;

    open spec fn view(&self) -> Seq<StmtView> {
        stmts_view(nodes(self.statements@))
    }
}

impl Program {
    /// Where each top-level statement starts, in order.
    pub open spec fn spans(&self) -> Seq<(usize, usize)> {
        spans_view(self.statements@)
    }
}

pub proof fn lemma_exprs_view_push(s: Seq<Expr>, e: Expr)
    ensures
        exprs_view(s.push(e)) == exprs_view(s).push(e@),
{
    assert(s.push(e).drop_last() =~= s);
}

pub proof fn lemma_stmts_view_push(s: Seq<Stmt>, e: Stmt)
    ensures
        stmts_view(s.push(e)) == stmts_view(s).push(e@),
{
    assert(s.push(e).drop_last() =~= s);
}

pub proof fn lemma_inits_view_push(s: Seq<(String, Expr)>, e: (String, Expr))
    ensures
        inits_view(s.push(e)) == inits_view(s).push((e.0@, e.1@)),
{
    assert(s.push(e).drop_last() =~= s);
}

pub proof fn lemma_elifs_view_push(s: Seq<(Expr, Block)>, e: (Expr, Block))
    ensures
        elifs_view(s.push(e)) == elifs_view(s).push((e.0@, block_view(e.1))),
{
    assert(s.push(e).drop_last() =~= s);
}

pub proof fn lemma_arms_view_push(s: Seq<MatchArm>, e: MatchArm)
    ensures
        arms_view(s.push(e)) == arms_view(s).push((e.pattern@, block_view(e.body))),
{
    assert(s.push(e).drop_last() =~= s);
}

} // verus!
