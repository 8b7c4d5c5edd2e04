use vstd::prelude::*;
use crate::ast::{BinOp, ExprView, ForSourceView, LiteralView, PatternView, StmtView, TypeView, UnOp};
use crate::error::ErrorView;
use crate::lexer::{ends_with_single_eof, lemma_lex_ends_with_eof, lemma_lex_positioned, lex};
use crate::token::{SpannedToken, SpannedTokenView, Token, TokenKind, kind_text, token_text};

verus! {

// ---------------------------------------------------------------------------
// The grammar of Huzi, as the result of reading a token sequence from a
// position: the syntax read and the position after it, or the first error.
//
// Reading goes by recursive descent with one token of lookahead (two for a
// struct literal). A token sequence is read up to its first end-of-input
// token. Every successful step consumes at least one token (the parser's
// readers each promise so); the `stalled` error stands for a step that would
// not, which keeps these definitions well founded. On tokens whose lines
// count from 1, every error of `Parser::parse` has such a line, so reading
// them never ends in `stalled` (whose line is 0).
// ---------------------------------------------------------------------------

/// The tokens of a list, as mathematical values.
pub open spec fn token_views(v: Seq<SpannedToken>) -> Seq<SpannedTokenView> {
    v.map_values(|t: SpannedToken| t@)
}

/// Whether an end-of-input token stands at or after `p`.
pub open spec fn eof_ahead(toks: Seq<SpannedTokenView>, p: int) -> bool {
    exists|e: int| p <= e < toks.len() && toks[e].token.kind == TokenKind::Eof
}

/// The tokens a parser reads from a list: the list itself where an
/// end-of-input token stands in it; otherwise the list with one appended,
/// at the position of the last token (line 1, column 1 for an empty list).
pub open spec fn readable_tokens(toks: Seq<SpannedTokenView>) -> Seq<SpannedTokenView> {
    if eof_ahead(toks, 0) {
        toks
    } else if toks.len() == 0 {
        seq![SpannedTokenView { token: Token::Eof@, line: 1, column: 1 }]
    } else {
        toks.push(SpannedTokenView { token: Token::Eof@, line: toks.last().line, column: toks.last().column })
    }
}

/// What the lexer hands out is ready for reading: tokens that end with one
/// end-of-input token have an end of input ahead of their first position.
pub proof fn lemma_lexed_tokens_readable(toks: Seq<SpannedTokenView>)
    requires
        ends_with_single_eof(toks),
    ensures
        eof_ahead(toks, 0),
{
    assert(toks[toks.len() - 1].token.kind == TokenKind::Eof);
}

/// The tokens of a source that lexes are ready for reading, and every one
/// stands at a line counted from 1; so the parser's errors on them (see
/// `Parser::parse`) always carry a position.
pub proof fn lemma_lexed_source_readable(src: Seq<char>)
    requires
        src.len() < usize::MAX,
    ensures
        lex(src) matches Ok(v) ==> eof_ahead(v, 0) && lines_from_one(v),
{
    lemma_lex_ends_with_eof(src);
    lemma_lex_positioned(src);
    if let Ok(v) = lex(src) {
        lemma_lexed_tokens_readable(v);
    }
}

/// Every token stands at a line counted from 1, as the lexer's do.
pub open spec fn lines_from_one(toks: Seq<SpannedTokenView>) -> bool {
    forall|i: int| 0 <= i < toks.len() ==> (#[trigger] toks[i]).line >= 1
}

/// Whether reading stands at the end: past the tokens or on end of input.
pub open spec fn at_end(toks: Seq<SpannedTokenView>, p: int) -> bool {
    p < 0 || p >= toks.len() || toks[p].token.kind == TokenKind::Eof
}

/// The kind of the token at `p`.
pub open spec fn kind_at(toks: Seq<SpannedTokenView>, p: int) -> TokenKind {
    toks[p].token.kind
}

/// Whether the token at `p` is of kind `k` (never at the end).
pub open spec fn check(toks: Seq<SpannedTokenView>, p: int, k: TokenKind) -> bool {
    !at_end(toks, p) && kind_at(toks, p) == k
}

/// The line reported for an error at `p`.
pub open spec fn line_at(toks: Seq<SpannedTokenView>, p: int) -> usize {
    if 0 <= p < toks.len() {
        toks[p].line
    } else {
        usize::MAX
    }
}

/// The column reported for an error at `p`.
pub open spec fn column_at(toks: Seq<SpannedTokenView>, p: int) -> usize {
    if 0 <= p < toks.len() {
        toks[p].column
    } else {
        usize::MAX
    }
}

/// The error `message` at the token at `p`.
pub open spec fn error_at(toks: Seq<SpannedTokenView>, p: int, message: Seq<char>) -> ErrorView {
    ErrorView { message, line: line_at(toks, p), column: column_at(toks, p) }
}

/// Stands for a step that consumed nothing.
pub open spec fn stalled() -> ErrorView {
    ErrorView { message: Seq::empty(), line: 0, column: 0 }
}

/// Whether a step from `p` to `q` read forward, within the tokens.
pub open spec fn moved(toks: Seq<SpannedTokenView>, p: int, q: int) -> bool {
    p < q && q <= toks.len()
}

/// Whether a step from `p` to `q` stayed or read forward, within the tokens.
pub open spec fn kept(toks: Seq<SpannedTokenView>, p: int, q: int) -> bool {
    p <= q && q <= toks.len()
}

/// The result of reading: the value and the position after it.
pub type Parsed<T> = Result<(T, int), ErrorView>;

/// Consumes a token of kind `k`, or fails with `message`.
pub open spec fn expect(toks: Seq<SpannedTokenView>, p: int, k: TokenKind, message: Seq<char>) -> Result<int, ErrorView> {
    if check(toks, p, k) {
        Ok(p + 1)
    } else {
        Err(error_at(toks, p, message))
    }
}

/// Consumes an identifier and gives its name, or fails with `message`.
pub open spec fn expect_ident(toks: Seq<SpannedTokenView>, p: int, message: Seq<char>) -> Parsed<Seq<char>> {
    if 0 <= p < toks.len() && kind_at(toks, p) == TokenKind::Ident {
        Ok((toks[p].token.text, p + 1))
    } else {
        Err(error_at(toks, p, message))
    }
}

/// Consumes an integer and gives its value, or fails with `message`.
pub open spec fn expect_integer(toks: Seq<SpannedTokenView>, p: int, message: Seq<char>) -> Parsed<i64> {
    if 0 <= p < toks.len() && kind_at(toks, p) == TokenKind::Int {
        Ok((toks[p].token.int, p + 1))
    } else {
        Err(error_at(toks, p, message))
    }
}

// ----------------------------- types ---------------------------------------

/// `[T; N]` or a name.
pub open spec fn type_from(toks: Seq<SpannedTokenView>, p: int) -> Parsed<TypeView>
    decreases toks.len() - p, 0int,
{
    if check(toks, p, TokenKind::LBracket) {
        match type_from(toks, p + 1) {
            Err(e) => Err(e),
            Ok((elem, q)) => if !moved(toks, p, q) {
                Err(stalled())
            } else {
                match expect(toks, q, TokenKind::Semi, "Expected ';' in array type"@) {
                    Err(e) => Err(e),
                    Ok(q) => match expect_integer(toks, q, "Expected array size"@) {
                        Err(e) => Err(e),
                        Ok((n, q)) => match expect(toks, q, TokenKind::RBracket, "Expected ']' in array type"@) {
                            Err(e) => Err(e),
                            Ok(q) => Ok((TypeView::Array(Box::new(elem), n as usize), q)),
                        },
                    },
                }
            },
        }
    } else if check(toks, p, TokenKind::LParen) {
        if check(toks, p + 1, TokenKind::RParen) {
            Ok((TypeView::Unit, p + 2))
        } else {
            match type_from(toks, p + 1) {
                Err(e) => Err(e),
                Ok((first, q)) => if !moved(toks, p + 1, q) {
                    Err(stalled())
                } else {
                    match types_rest(toks, q, seq![first]) {
                        Err(e) => Err(e),
                        Ok((ts, r)) => match expect(toks, r, TokenKind::RParen, "Expected ')' in tuple type"@) {
                            Err(e) => Err(e),
                            Ok(r) => Ok((TypeView::Tuple(ts), r)),
                        },
                    }
                },
            }
        }
    } else if 0 <= p < toks.len() && kind_at(toks, p) == TokenKind::Ident {
        Ok((TypeView::Named(toks[p].token.text), p + 1))
    } else {
        Err(error_at(toks, p, "Expected type"@))
    }
}

/// The components of a tuple type after the first: `, T` repeated, added
/// to `acc`.
pub open spec fn types_rest(toks: Seq<SpannedTokenView>, p: int, acc: Seq<TypeView>) -> Parsed<Seq<TypeView>>
    decreases toks.len() - p, 1int,
{
    if p < 0 {
        Err(stalled())
    } else if check(toks, p, TokenKind::Comma) {
        match type_from(toks, p + 1) {
            Err(e) => Err(e),
            Ok((t, q)) => if !moved(toks, p + 1, q) {
                Err(stalled())
            } else {
                types_rest(toks, q, acc.push(t))
            },
        }
    } else {
        Ok((acc, p))
    }
}

// ----------------------------- patterns ------------------------------------

/// `_`, `Enum::Variant` or `Enum::Variant(binding)`.
pub open spec fn pattern_from(toks: Seq<SpannedTokenView>, p: int) -> Parsed<PatternView> {
    if 0 <= p < toks.len() && kind_at(toks, p) == TokenKind::Ident && toks[p].token.text == seq!['_'] {
        Ok((PatternView::Wildcard, p + 1))
    } else {
        match expect_ident(toks, p, "Expected pattern (variant or '_')"@) {
            Err(e) => Err(e),
            Ok((enum_name, q)) => match expect(toks, q, TokenKind::PathSep, "Expected '::' after enum name in pattern"@) {
                Err(e) => Err(e),
                Ok(q) => match expect_ident(toks, q, "Expected variant name after '::'"@) {
                    Err(e) => Err(e),
                    Ok((variant, q)) => if check(toks, q, TokenKind::LParen) {
                        match expect_ident(toks, q + 1, "Expected binding name in pattern"@) {
                            Err(e) => Err(e),
                            Ok((b, q)) => match expect(toks, q, TokenKind::RParen, "Expected ')' after pattern binding"@) {
                                Err(e) => Err(e),
                                Ok(q) => Ok((PatternView::Variant { enum_name, variant, binding: Some(b) }, q)),
                            },
                        }
                    } else {
                        Ok((PatternView::Variant { enum_name, variant, binding: None }, q))
                    },
                },
            },
        }
    }
}

// ----------------------------- expressions ---------------------------------

/// The binary operator that token kind `k` stands for at precedence level
/// `level`: 0 `||`, 1 `&&`, 2 equality, 3 comparison, 4 additive,
/// 5 multiplicative.
pub open spec fn binary_op(level: nat, k: TokenKind) -> Option<BinOp> {
    if level == 0 {
        if k == TokenKind::BarBar { Some(BinOp::Or) } else { None }
    } else if level == 1 {
        if k == TokenKind::AmpAmp { Some(BinOp::And) } else { None }
    } else if level == 2 {
        if k == TokenKind::EqualEqual {
            Some(BinOp::Eq)
        } else if k == TokenKind::BangEqual {
            Some(BinOp::Neq)
        } else {
            None
        }
    } else if level == 3 {
        if k == TokenKind::Less {
            Some(BinOp::Lt)
        } else if k == TokenKind::LessEqual {
            Some(BinOp::Le)
        } else if k == TokenKind::Greater {
            Some(BinOp::Gt)
        } else if k == TokenKind::GreaterEqual {
            Some(BinOp::Ge)
        } else {
            None
        }
    } else if level == 4 {
        if k == TokenKind::Plus {
            Some(BinOp::Add)
        } else if k == TokenKind::Minus {
            Some(BinOp::Sub)
        } else {
            None
        }
    } else if level == 5 {
        if k == TokenKind::Star {
            Some(BinOp::Mul)
        } else if k == TokenKind::Slash {
            Some(BinOp::Div)
        } else if k == TokenKind::Percent {
            Some(BinOp::Mod)
        } else {
            None
        }
    } else {
        None
    }
}

/// The operator read from an operator token is the one that token spells:
/// at every level, `binary_op` gives for `k` only the operator written as
/// `k` is.
pub proof fn lemma_operator_is_spelled_by_its_token(level: nat, k: TokenKind)
    ensures
        binary_op(level, k) matches Some(op) ==> crate::ops::operator_text(op) == kind_text(k),
{
}

/// Every binary operator is read: some level reads it from a token that
/// spells it.
pub proof fn lemma_every_operator_is_read(op: BinOp)
    ensures
        exists|level: nat, k: TokenKind|
            #![trigger binary_op(level, k)]
            binary_op(level, k) == Some(op) && kind_text(k) == crate::ops::operator_text(op),
{
    let (level, k): (nat, TokenKind) = match op {
        BinOp::Or => (0, TokenKind::BarBar),
        BinOp::And => (1, TokenKind::AmpAmp),
        BinOp::Eq => (2, TokenKind::EqualEqual),
        BinOp::Neq => (2, TokenKind::BangEqual),
        BinOp::Lt => (3, TokenKind::Less),
        BinOp::Le => (3, TokenKind::LessEqual),
        BinOp::Gt => (3, TokenKind::Greater),
        BinOp::Ge => (3, TokenKind::GreaterEqual),
        BinOp::Add => (4, TokenKind::Plus),
        BinOp::Sub => (4, TokenKind::Minus),
        BinOp::Mul => (5, TokenKind::Star),
        BinOp::Div => (5, TokenKind::Slash),
        BinOp::Mod => (5, TokenKind::Percent),
    };
    assert(binary_op(level, k) == Some(op) && kind_text(k) == crate::ops::operator_text(op));
}

/// The operator of level `level` at `q`, if there is one.
pub open spec fn op_at(toks: Seq<SpannedTokenView>, q: int, level: nat) -> Option<BinOp> {
    if at_end(toks, q) {
        None
    } else {
        binary_op(level, kind_at(toks, q))
    }
}

/// Assignment, the loosest form: `target = value`, where the target is a
/// name, an index or a field access; otherwise an `||` expression.
pub open spec fn expression_from(toks: Seq<SpannedTokenView>, p: int) -> Parsed<ExprView>
    decreases toks.len() - p, 30int,
{
    match binary_from(toks, p, 0) {
        Err(e) => Err(e),
        Ok((e, q)) => if !moved(toks, p, q) {
            Err(stalled())
        } else if check(toks, q, TokenKind::Equal) {
            match e {
                ExprView::Ident(_) | ExprView::ArrayIndex(_, _) | ExprView::FieldAccess(_, _) => {
                    match expression_from(toks, q + 1) {
                        Err(err) => Err(err),
                        Ok((v, q2)) => Ok((ExprView::Assign(Box::new(e), Box::new(v)), q2)),
                    }
                },
                _ => Err(error_at(toks, q, "Invalid assignment target"@)),
            }
        } else {
            Ok((e, q))
        },
    }
}

/// A left-associative chain of operands joined by operators of `level`.
pub open spec fn binary_from(toks: Seq<SpannedTokenView>, p: int, level: nat) -> Parsed<ExprView>
    decreases toks.len() - p, 29 - 2 * level, 0int,
{
    if level > 5 {
        Err(stalled())
    } else {
        match operand_from(toks, p, level) {
            Err(e) => Err(e),
            Ok((left, q)) => if !moved(toks, p, q) {
                Err(stalled())
            } else {
                binary_rest(toks, left, q, level)
            },
        }
    }
}

/// An operand of level `level`: the next tighter level, or a unary
/// expression under the multiplicative level.
pub open spec fn operand_from(toks: Seq<SpannedTokenView>, p: int, level: nat) -> Parsed<ExprView>
    decreases toks.len() - p, 28 - 2 * level, 0int,
{
    if level > 5 {
        Err(stalled())
    } else if level == 5 {
        unary_from(toks, p)
    } else {
        binary_from(toks, p, level + 1)
    }
}

/// The rest of a chain at level `level` after `left`, from `q`.
pub open spec fn binary_rest(toks: Seq<SpannedTokenView>, left: ExprView, q: int, level: nat) -> Parsed<ExprView>
    decreases toks.len() - q, 29 - 2 * level, 1int,
{
    if level > 5 || q < 0 {
        Err(stalled())
    } else {
        match op_at(toks, q, level) {
            None => Ok((left, q)),
            Some(op) => match operand_from(toks, q + 1, level) {
                Err(e) => Err(e),
                Ok((right, q2)) => if !moved(toks, q, q2) {
                    Err(stalled())
                } else {
                    binary_rest(toks, ExprView::Binary(Box::new(left), op, Box::new(right)), q2, level)
                },
            },
        }
    }
}

/// `!e`, `-e`, or a postfix expression.
pub open spec fn unary_from(toks: Seq<SpannedTokenView>, p: int) -> Parsed<ExprView>
    decreases toks.len() - p, 17int, 0int,
{
    if check(toks, p, TokenKind::Bang) {
        match unary_from(toks, p + 1) {
            Err(e) => Err(e),
            Ok((e, q)) => Ok((ExprView::Unary(UnOp::Not, Box::new(e)), q)),
        }
    } else if check(toks, p, TokenKind::Minus) {
        match unary_from(toks, p + 1) {
            Err(e) => Err(e),
            Ok((e, q)) => Ok((ExprView::Unary(UnOp::Neg, Box::new(e)), q)),
        }
    } else {
        call_from(toks, p)
    }
}

/// A primary expression followed by postfix operations.
pub open spec fn call_from(toks: Seq<SpannedTokenView>, p: int) -> Parsed<ExprView>
    decreases toks.len() - p, 16int, 0int,
{
    match primary_from(toks, p) {
        Err(e) => Err(e),
        Ok((e, q)) => if !moved(toks, p, q) {
            Err(stalled())
        } else {
            postfix_rest(toks, e, q)
        },
    }
}

/// Indexing `[i]`, field access `.f` and calls `(args)` after `e`, in any
/// order and number.
pub open spec fn postfix_rest(toks: Seq<SpannedTokenView>, e: ExprView, q: int) -> Parsed<ExprView>
    decreases toks.len() - q, 19int, 0int,
{
    if q < 0 {
        Err(stalled())
    } else if check(toks, q, TokenKind::LBracket) {
        match expression_from(toks, q + 1) {
            Err(err) => Err(err),
            Ok((index, q1)) => if !moved(toks, q, q1) {
                Err(stalled())
            } else {
                match expect(toks, q1, TokenKind::RBracket, "Expected ']' after index"@) {
                    Err(err) => Err(err),
                    Ok(q2) => postfix_rest(toks, ExprView::ArrayIndex(Box::new(e), Box::new(index)), q2),
                }
            },
        }
    } else if check(toks, q, TokenKind::Dot) {
        match expect_ident(toks, q + 1, "Expected field name after '.'"@) {
            Err(err) => Err(err),
            Ok((field, q1)) => postfix_rest(toks, ExprView::FieldAccess(Box::new(e), field), q1),
        }
    } else if check(toks, q, TokenKind::LParen) {
        match args_rest(toks, q + 1, Seq::empty()) {
            Err(err) => Err(err),
            Ok((args, q1)) => if !moved(toks, q, q1) {
                Err(stalled())
            } else {
                match expect(toks, q1, TokenKind::RParen, "Expected ')' after arguments"@) {
                    Err(err) => Err(err),
                    Ok(q2) => postfix_rest(toks, ExprView::Call(Box::new(e), args), q2),
                }
            },
        }
    } else {
        Ok((e, q))
    }
}

/// Arguments up to `)` or the end, each optionally followed by a comma,
/// added to `acc`.
pub open spec fn args_rest(toks: Seq<SpannedTokenView>, q: int, acc: Seq<ExprView>) -> Parsed<Seq<ExprView>>
    decreases toks.len() - q, 31int, 0int,
{
    if q < 0 {
        Err(stalled())
    } else if check(toks, q, TokenKind::RParen) || at_end(toks, q) {
        Ok((acc, q))
    } else {
        match expression_from(toks, q) {
            Err(e) => Err(e),
            Ok((a, q1)) => if !moved(toks, q, q1) {
                Err(stalled())
            } else {
                let q2 = if check(toks, q1, TokenKind::Comma) { q1 + 1 } else { q1 };
                args_rest(toks, q2, acc.push(a))
            },
        }
    }
}

/// Elements of an array literal, separated by commas, added to `acc`.
pub open spec fn elems_rest(toks: Seq<SpannedTokenView>, q: int, acc: Seq<ExprView>) -> Parsed<Seq<ExprView>>
    decreases toks.len() - q, 31int, 0int,
{
    if q < 0 {
        Err(stalled())
    } else {
        match expression_from(toks, q) {
            Err(e) => Err(e),
            Ok((a, q1)) => if !moved(toks, q, q1) {
                Err(stalled())
            } else if check(toks, q1, TokenKind::Comma) {
                elems_rest(toks, q1 + 1, acc.push(a))
            } else {
                Ok((acc.push(a), q1))
            },
        }
    }
}

/// Whether the tokens after `q` (on `{`) read `ident :`, the start of a
/// struct literal's body.
pub open spec fn looks_like_struct_literal(toks: Seq<SpannedTokenView>, q: int) -> bool {
    &&& 0 <= q + 1 < toks.len()
    &&& toks[q + 1].token.kind == TokenKind::Ident
    &&& 0 <= q + 2 < toks.len()
    &&& toks[q + 2].token.kind == TokenKind::Colon
}

/// Literals, names, enum construction, struct literals, parenthesized
/// expressions, array literals, `if` and `match` expressions.
pub open spec fn primary_from(toks: Seq<SpannedTokenView>, p: int) -> Parsed<ExprView>
    decreases toks.len() - p, 15int, 0int,
{
    if p < 0 || p >= toks.len() {
        Err(error_at(toks, p, "Unexpected token"@))
    } else {
        let t = toks[p].token;
        match t.kind {
            TokenKind::True => Ok((ExprView::Literal(LiteralView::Bool(true)), p + 1)),
            TokenKind::False => Ok((ExprView::Literal(LiteralView::Bool(false)), p + 1)),
            TokenKind::Int => Ok((ExprView::Literal(LiteralView::Int(t.int)), p + 1)),
            TokenKind::Float => Ok((ExprView::Literal(LiteralView::Float(t.text)), p + 1)),
            TokenKind::Str => Ok((ExprView::Literal(LiteralView::Str(t.text)), p + 1)),
            TokenKind::Char => Ok((ExprView::Literal(LiteralView::Char(t.ch)), p + 1)),
            TokenKind::Ident => {
                let name = t.text;
                let q = p + 1;
                if check(toks, q, TokenKind::PathSep) {
                    match expect_ident(toks, q + 1, "Expected variant name after '::'"@) {
                        Err(e) => Err(e),
                        Ok((variant, q1)) => if check(toks, q1, TokenKind::LParen) {
                            match args_rest(toks, q1 + 1, Seq::empty()) {
                                Err(e) => Err(e),
                                Ok((args, q2)) => match expect(toks, q2, TokenKind::RParen, "Expected ')' after variant arguments"@) {
                                    Err(e) => Err(e),
                                    Ok(q3) => Ok((ExprView::EnumConstruct(name, variant, args), q3)),
                                },
                            }
                        } else {
                            Ok((ExprView::EnumConstruct(name, variant, Seq::empty()), q1))
                        },
                    }
                } else if check(toks, q, TokenKind::LBrace) && looks_like_struct_literal(toks, q) {
                    struct_literal_from(toks, q, name)
                } else {
                    Ok((ExprView::Ident(name), q))
                }
            },
            TokenKind::LParen => match expression_from(toks, p + 1) {
                Err(e) => Err(e),
                Ok((e, q)) => match expect(toks, q, TokenKind::RParen, "Expected ')' after expression"@) {
                    Err(err) => Err(err),
                    Ok(q) => Ok((e, q)),
                },
            },
            TokenKind::LBracket => {
                let q = p + 1;
                let elems = if !check(toks, q, TokenKind::RBracket) {
                    elems_rest(toks, q, Seq::empty())
                } else {
                    Ok((Seq::empty(), q))
                };
                match elems {
                    Err(e) => Err(e),
                    Ok((es, q1)) => match expect(toks, q1, TokenKind::RBracket, "Expected ']' after array literal"@) {
                        Err(e) => Err(e),
                        Ok(q2) => Ok((ExprView::ArrayLiteral(es), q2)),
                    },
                }
            },
            TokenKind::If => if_expr_from(toks, p),
            TokenKind::Match => match_from(toks, p),
            _ => Err(error_at(toks, p, "Unexpected token: "@ + token_text(t))),
        }
    }
}

/// The fields `name: value` of a struct literal whose `{` is at `q`.
pub open spec fn struct_literal_from(toks: Seq<SpannedTokenView>, q: int, name: Seq<char>) -> Parsed<ExprView>
    decreases toks.len() - q, 16int, 0int,
{
    match expect(toks, q, TokenKind::LBrace, "Expected '{' in struct literal"@) {
        Err(e) => Err(e),
        Ok(q1) => match inits_rest(toks, q1, Seq::empty()) {
            Err(e) => Err(e),
            Ok((fields, q2)) => match expect(toks, q2, TokenKind::RBrace, "Expected '}' after struct literal fields"@) {
                Err(e) => Err(e),
                Ok(q3) => Ok((ExprView::StructLiteral(name, fields), q3)),
            },
        },
    }
}

/// Field initializers `name: value`, separated by commas, up to `}` or the
/// end, added to `acc`.
pub open spec fn inits_rest(toks: Seq<SpannedTokenView>, q: int, acc: Seq<(Seq<char>, ExprView)>) -> Parsed<Seq<(Seq<char>, ExprView)>>
    decreases toks.len() - q, 15int, 0int,
{
    if q < 0 {
        Err(stalled())
    } else if check(toks, q, TokenKind::RBrace) || at_end(toks, q) {
        Ok((acc, q))
    } else {
        match expect_ident(toks, q, "Expected field name in struct literal"@) {
            Err(e) => Err(e),
            Ok((field, q1)) => match expect(toks, q1, TokenKind::Colon, "Expected ':' after field name in struct literal"@) {
                Err(e) => Err(e),
                Ok(q2) => match expression_from(toks, q2) {
                    Err(e) => Err(e),
                    Ok((v, q3)) => if !moved(toks, q, q3) {
                        Err(stalled())
                    } else if check(toks, q3, TokenKind::Comma) {
                        inits_rest(toks, q3 + 1, acc.push((field, v)))
                    } else {
                        Ok((acc.push((field, v)), q3))
                    },
                },
            },
        }
    }
}

/// `match scrutinee { arms }` from the `match` at `p`.
pub open spec fn match_from(toks: Seq<SpannedTokenView>, p: int) -> Parsed<ExprView>
    decreases toks.len() - p, 14int, 0int,
{
    if p < 0 || p >= toks.len() {
        Err(stalled())
    } else {
    match expression_from(toks, p + 1) {
        Err(e) => Err(e),
        Ok((s, q)) => match expect(toks, q, TokenKind::LBrace, "Expected '{' after match scrutinee"@) {
            Err(e) => Err(e),
            Ok(q1) => if !moved(toks, p, q1) {
                Err(stalled())
            } else {
                match arms_rest(toks, q1, Seq::empty()) {
                    Err(e) => Err(e),
                    Ok((arms, q2)) => match expect(toks, q2, TokenKind::RBrace, "Expected '}' after match arms"@) {
                        Err(e) => Err(e),
                        Ok(q3) => Ok((ExprView::Match(Box::new(s), arms), q3)),
                    },
                }
            },
        }
    }
    }
}

/// Match arms `pattern => body`, each optionally followed by a comma, up to
/// `}` or the end, added to `acc`. A body is a block or one expression.
pub open spec fn arms_rest(toks: Seq<SpannedTokenView>, q: int, acc: Seq<(PatternView, Seq<StmtView>)>) -> Parsed<Seq<(PatternView, Seq<StmtView>)>>
    decreases toks.len() - q, 15int, 0int,
{
    if q < 0 {
        Err(stalled())
    } else if check(toks, q, TokenKind::RBrace) || at_end(toks, q) {
        Ok((acc, q))
    } else {
        match pattern_from(toks, q) {
            Err(e) => Err(e),
            Ok((pat, q1)) => match expect(toks, q1, TokenKind::FatArrow, "Expected '=>' after match pattern"@) {
                Err(e) => Err(e),
                Ok(q2) => if !moved(toks, q, q2) {
                    Err(stalled())
                } else {
                    let body = if check(toks, q2, TokenKind::LBrace) {
                        block_from(toks, q2)
                    } else {
                        match expression_from(toks, q2) {
                            Err(e) => Err(e),
                            Ok((e, q3)) => Ok((seq![StmtView::Expr(e)], q3)),
                        }
                    };
                    match body {
                        Err(e) => Err(e),
                        Ok((b, q3)) => if !moved(toks, q2, q3) {
                            Err(stalled())
                        } else {
                            let q4 = if check(toks, q3, TokenKind::Comma) { q3 + 1 } else { q3 };
                            arms_rest(toks, q4, acc.push((pat, b)))
                        },
                    }
                },
            },
        }
    }
}

/// `if` branches folded into nested `if` expressions: each `elif` becomes
/// an `if` that stands alone as the else block of the one before.
pub open spec fn fold_elifs(elifs: Seq<(ExprView, Seq<StmtView>)>, else_block: Seq<StmtView>) -> Seq<StmtView>
    decreases elifs.len(),
{
    if elifs.len() == 0 {
        else_block
    } else {
        seq![StmtView::Expr(ExprView::If(
            Box::new(elifs[0].0),
            elifs[0].1,
            fold_elifs(elifs.drop_first(), else_block),
        ))]
    }
}

/// `elif cond { block }` branches added to `acc`.
pub open spec fn elifs_rest(toks: Seq<SpannedTokenView>, q: int, acc: Seq<(ExprView, Seq<StmtView>)>) -> Parsed<Seq<(ExprView, Seq<StmtView>)>>
    decreases toks.len() - q, 15int, 0int,
{
    if q < 0 {
        Err(stalled())
    } else if check(toks, q, TokenKind::Elif) {
        match expression_from(toks, q + 1) {
            Err(e) => Err(e),
            Ok((c, q1)) => if !moved(toks, q, q1) {
                Err(stalled())
            } else {
                match block_from(toks, q1) {
                    Err(e) => Err(e),
                    Ok((b, q2)) => if !moved(toks, q1, q2) {
                        Err(stalled())
                    } else {
                        elifs_rest(toks, q2, acc.push((c, b)))
                    },
                }
            },
        }
    } else {
        Ok((acc, q))
    }
}

/// An `if` expression from the `if` at `p`: it must have an `else`, which is
/// a block or another `if` expression; `elif` branches are folded in.
pub open spec fn if_expr_from(toks: Seq<SpannedTokenView>, p: int) -> Parsed<ExprView>
    decreases toks.len() - p, 14int, 0int,
{
    if p < 0 || p >= toks.len() {
        Err(stalled())
    } else {
        match expression_from(toks, p + 1) {
            Err(e) => Err(e),
            Ok((c, q)) => if !moved(toks, p, q) {
                Err(stalled())
            } else {
                match block_from(toks, q) {
                    Err(e) => Err(e),
                    Ok((then_b, q1)) => if !moved(toks, q, q1) {
                        Err(stalled())
                    } else {
                        match elifs_rest(toks, q1, Seq::empty()) {
                            Err(e) => Err(e),
                            Ok((elifs, q2)) => if !kept(toks, q1, q2) {
                                Err(stalled())
                            } else {
                                match expect(toks, q2, TokenKind::Else, "Expected 'else' after if expression"@) {
                                    Err(e) => Err(e),
                                    Ok(q3) => {
                                        let else_b = if check(toks, q3, TokenKind::If) {
                                            match if_expr_from(toks, q3) {
                                                Err(e) => Err(e),
                                                Ok((nested, q4)) => Ok((seq![StmtView::Expr(nested)], q4)),
                                            }
                                        } else {
                                            block_from(toks, q3)
                                        };
                                        match else_b {
                                            Err(e) => Err(e),
                                            Ok((eb, q4)) => Ok((
                                                ExprView::If(Box::new(c), then_b, fold_elifs(elifs, eb)),
                                                q4,
                                            )),
                                        }
                                    },
                                }
                            },
                        }
                    },
                }
            },
        }
    }
}

// ----------------------------- statements ----------------------------------

/// `{ statements }`.
pub open spec fn block_from(toks: Seq<SpannedTokenView>, p: int) -> Parsed<Seq<StmtView>>
    decreases toks.len() - p, 37int, 0int,
{
    match expect(toks, p, TokenKind::LBrace, "Expected '{'"@) {
        Err(e) => Err(e),
        Ok(q) => match stmts_rest(toks, q, Seq::empty()) {
            Err(e) => Err(e),
            Ok((stmts, q1)) => match expect(toks, q1, TokenKind::RBrace, "Expected '}'"@) {
                Err(e) => Err(e),
                Ok(q2) => Ok((stmts, q2)),
            },
        },
    }
}

/// Statements up to `}` or the end, added to `acc`.
pub open spec fn stmts_rest(toks: Seq<SpannedTokenView>, q: int, acc: Seq<StmtView>) -> Parsed<Seq<StmtView>>
    decreases toks.len() - q, 39int, 0int,
{
    if q < 0 {
        Err(stalled())
    } else if check(toks, q, TokenKind::RBrace) || at_end(toks, q) {
        Ok((acc, q))
    } else {
        match statement_from(toks, q) {
            Err(e) => Err(e),
            Ok((s, q1)) => if !moved(toks, q, q1) {
                Err(stalled())
            } else {
                stmts_rest(toks, q1, acc.push(s))
            },
        }
    }
}

/// One statement: a definition, `let`, `return`, `break`, `continue`, `if`,
/// `for`, `while`, a block, or an expression.
pub open spec fn statement_from(toks: Seq<SpannedTokenView>, p: int) -> Parsed<StmtView>
    decreases toks.len() - p, 38int, 0int,
{
    if check(toks, p, TokenKind::Let) {
        let_from(toks, p)
    } else if check(toks, p, TokenKind::Struct) {
        struct_from(toks, p)
    } else if check(toks, p, TokenKind::Enum) {
        enum_from(toks, p)
    } else if check(toks, p, TokenKind::Fn) {
        fn_from(toks, p)
    } else if check(toks, p, TokenKind::Return) {
        let q = p + 1;
        if 0 <= q < toks.len() && starts_expression(kind_at(toks, q)) {
            match expression_from(toks, q) {
                Err(e) => Err(e),
                Ok((e, q1)) => Ok((StmtView::Return(Some(e)), q1)),
            }
        } else {
            Ok((StmtView::Return(None), q))
        }
    } else if check(toks, p, TokenKind::Break) {
        Ok((StmtView::Break, p + 1))
    } else if check(toks, p, TokenKind::Continue) {
        Ok((StmtView::Continue, p + 1))
    } else if check(toks, p, TokenKind::If) {
        if_stmt_from(toks, p)
    } else if check(toks, p, TokenKind::For) {
        for_from(toks, p)
    } else if check(toks, p, TokenKind::While) {
        match expression_from(toks, p + 1) {
            Err(e) => Err(e),
            Ok((c, q)) => if !moved(toks, p, q) {
                Err(stalled())
            } else {
                match block_from(toks, q) {
                    Err(e) => Err(e),
                    Ok((b, q1)) => Ok((StmtView::While { cond: c, body: b }, q1)),
                }
            },
        }
    } else if check(toks, p, TokenKind::Import) {
        import_from(toks, p)
    } else if check(toks, p, TokenKind::LBrace) {
        match block_from(toks, p) {
            Err(e) => Err(e),
            Ok((b, q)) => Ok((StmtView::Block(b), q)),
        }
    } else {
        match expression_from(toks, p) {
            Err(e) => Err(e),
            Ok((e, q)) => Ok((StmtView::Expr(e), q)),
        }
    }
}

/// Token kinds that can start an expression (a `return` value).
pub open spec fn starts_expression(k: TokenKind) -> bool {
    k == TokenKind::True || k == TokenKind::False || k == TokenKind::Int || k == TokenKind::Float
        || k == TokenKind::Str || k == TokenKind::Char || k == TokenKind::Ident || k == TokenKind::LParen
        || k == TokenKind::LBracket || k == TokenKind::If || k == TokenKind::Match || k == TokenKind::Bang
        || k == TokenKind::Minus
}

/// `let [mut] name [: type] [= value]` from the `let` at `p`.
pub open spec fn let_from(toks: Seq<SpannedTokenView>, p: int) -> Parsed<StmtView>
    decreases toks.len() - p, 37int, 0int,
{
    let q = p + 1;
    let mutable = check(toks, q, TokenKind::Mut);
    let q = if mutable { q + 1 } else { q };
    match expect_ident(toks, q, "Expected variable name"@) {
        Err(e) => Err(e),
        Ok((name, q1)) => {
            let ty = if check(toks, q1, TokenKind::Colon) {
                match type_from(toks, q1 + 1) {
                    Err(e) => Err(e),
                    Ok((t, q2)) => Ok((Some(t), q2)),
                }
            } else {
                Ok((None, q1))
            };
            match ty {
                Err(e) => Err(e),
                Ok((ty, q2)) => if !kept(toks, q1, q2) {
                    Err(stalled())
                } else {
                    let value = if check(toks, q2, TokenKind::Equal) {
                        match expression_from(toks, q2 + 1) {
                            Err(e) => Err(e),
                            Ok((v, q3)) => Ok((Some(v), q3)),
                        }
                    } else {
                        Ok((None, q2))
                    };
                    match value {
                        Err(e) => Err(e),
                        Ok((value, q3)) => Ok((StmtView::Let { name, mutable, ty, value }, q3)),
                    }
                },
            }
        },
    }
}

/// `struct Name { field: type, ... }` from the `struct` at `p`.
pub open spec fn struct_from(toks: Seq<SpannedTokenView>, p: int) -> Parsed<StmtView>
    decreases toks.len() - p, 37int, 0int,
{
    match expect_ident(toks, p + 1, "Expected struct name"@) {
        Err(e) => Err(e),
        Ok((name, q)) => match expect(toks, q, TokenKind::LBrace, "Expected '{' after struct name"@) {
            Err(e) => Err(e),
            Ok(q1) => match fields_rest(toks, q1, Seq::empty()) {
                Err(e) => Err(e),
                Ok((fields, q2)) => match expect(toks, q2, TokenKind::RBrace, "Expected '}' after struct fields"@) {
                    Err(e) => Err(e),
                    Ok(q3) => Ok((StmtView::Struct { name, fields }, q3)),
                },
            },
        },
    }
}

/// Struct fields `name: type`, separated by commas, up to `}` or the end,
/// added to `acc`.
pub open spec fn fields_rest(toks: Seq<SpannedTokenView>, q: int, acc: Seq<(Seq<char>, TypeView)>) -> Parsed<Seq<(Seq<char>, TypeView)>>
    decreases toks.len() - q, 36int, 0int,
{
    if q < 0 {
        Err(stalled())
    } else if check(toks, q, TokenKind::RBrace) || at_end(toks, q) {
        Ok((acc, q))
    } else {
        match expect_ident(toks, q, "Expected field name"@) {
            Err(e) => Err(e),
            Ok((name, q1)) => match expect(toks, q1, TokenKind::Colon, "Expected ':' after field name"@) {
                Err(e) => Err(e),
                Ok(q2) => match type_from(toks, q2) {
                    Err(e) => Err(e),
                    Ok((t, q3)) => if !moved(toks, q, q3) {
                        Err(stalled())
                    } else if check(toks, q3, TokenKind::Comma) {
                        fields_rest(toks, q3 + 1, acc.push((name, t)))
                    } else {
                        Ok((acc.push((name, t)), q3))
                    },
                },
            },
        }
    }
}

/// `enum Name { Variant, Variant(type), ... }` from the `enum` at `p`.
pub open spec fn enum_from(toks: Seq<SpannedTokenView>, p: int) -> Parsed<StmtView>
    decreases toks.len() - p, 37int, 0int,
{
    match expect_ident(toks, p + 1, "Expected enum name"@) {
        Err(e) => Err(e),
        Ok((name, q)) => match expect(toks, q, TokenKind::LBrace, "Expected '{' after enum name"@) {
            Err(e) => Err(e),
            Ok(q1) => match variants_rest(toks, q1, Seq::empty()) {
                Err(e) => Err(e),
                Ok((variants, q2)) => match expect(toks, q2, TokenKind::RBrace, "Expected '}' after enum variants"@) {
                    Err(e) => Err(e),
                    Ok(q3) => Ok((StmtView::Enum { name, variants }, q3)),
                },
            },
        },
    }
}

/// Enum variants, each with at most one payload type, separated by commas,
/// up to `}` or the end, added to `acc`.
pub open spec fn variants_rest(toks: Seq<SpannedTokenView>, q: int, acc: Seq<(Seq<char>, Option<TypeView>)>) -> Parsed<Seq<(Seq<char>, Option<TypeView>)>>
    decreases toks.len() - q, 36int, 0int,
{
    if q < 0 {
        Err(stalled())
    } else if check(toks, q, TokenKind::RBrace) || at_end(toks, q) {
        Ok((acc, q))
    } else {
        match expect_ident(toks, q, "Expected variant name"@) {
            Err(e) => Err(e),
            Ok((name, q1)) => {
                let payload = if check(toks, q1, TokenKind::LParen) {
                    match type_from(toks, q1 + 1) {
                        Err(e) => Err(e),
                        Ok((t, q2)) => if check(toks, q2, TokenKind::Comma) {
                            Err(error_at(toks, q2, "Multiple payload values per variant are not supported"@))
                        } else {
                            match expect(toks, q2, TokenKind::RParen, "Expected ')' after variant payload type"@) {
                                Err(e) => Err(e),
                                Ok(q3) => Ok((Some(t), q3)),
                            }
                        },
                    }
                } else {
                    Ok((None, q1))
                };
                match payload {
                    Err(e) => Err(e),
                    Ok((pt, q3)) => if !moved(toks, q, q3) {
                        Err(stalled())
                    } else if check(toks, q3, TokenKind::Comma) {
                        variants_rest(toks, q3 + 1, acc.push((name, pt)))
                    } else {
                        Ok((acc.push((name, pt)), q3))
                    },
                }
            },
        }
    }
}

/// `fn name(params) [-> type] { body }` from the `fn` at `p`.
pub open spec fn fn_from(toks: Seq<SpannedTokenView>, p: int) -> Parsed<StmtView>
    decreases toks.len() - p, 37int, 0int,
{
    match expect_ident(toks, p + 1, "Expected function name"@) {
        Err(e) => Err(e),
        Ok((name, q)) => match expect(toks, q, TokenKind::LParen, "Expected '(' after function name"@) {
            Err(e) => Err(e),
            Ok(q1) => match params_rest(toks, q1, Seq::empty()) {
                Err(e) => Err(e),
                Ok((params, q2)) => match expect(toks, q2, TokenKind::RParen, "Expected ')' after parameters"@) {
                    Err(e) => Err(e),
                    Ok(q3) => {
                        let ret = if check(toks, q3, TokenKind::Arrow) {
                            match type_from(toks, q3 + 1) {
                                Err(e) => Err(e),
                                Ok((t, q4)) => Ok((Some(t), q4)),
                            }
                        } else {
                            Ok((None, q3))
                        };
                        match ret {
                            Err(e) => Err(e),
                            Ok((ret, q4)) => if !moved(toks, p, q4) {
                                Err(stalled())
                            } else {
                                match block_from(toks, q4) {
                                    Err(e) => Err(e),
                                    Ok((body, q5)) => Ok((StmtView::Fn { name, params, ret, body }, q5)),
                                }
                            },
                        }
                    },
                },
            },
        },
    }
}

/// Parameters `name: type`, each optionally followed by a comma, up to `)`,
/// added to `acc`.
pub open spec fn params_rest(toks: Seq<SpannedTokenView>, q: int, acc: Seq<(Seq<char>, TypeView)>) -> Parsed<Seq<(Seq<char>, TypeView)>>
    decreases toks.len() - q, 36int, 0int,
{
    if q < 0 {
        Err(stalled())
    } else if check(toks, q, TokenKind::RParen) {
        Ok((acc, q))
    } else {
        match expect_ident(toks, q, "Expected parameter name"@) {
            Err(e) => Err(e),
            Ok((name, q1)) => match expect(toks, q1, TokenKind::Colon, "Expected ':' after parameter name"@) {
                Err(e) => Err(e),
                Ok(q2) => match type_from(toks, q2) {
                    Err(e) => Err(e),
                    Ok((t, q3)) => if !moved(toks, q, q3) {
                        Err(stalled())
                    } else {
                        let q4 = if check(toks, q3, TokenKind::Comma) { q3 + 1 } else { q3 };
                        params_rest(toks, q4, acc.push((name, t)))
                    },
                },
            },
        }
    }
}

/// `if cond { } elif cond { } ... [else { }]` from the `if` at `p`.
pub open spec fn if_stmt_from(toks: Seq<SpannedTokenView>, p: int) -> Parsed<StmtView>
    decreases toks.len() - p, 37int, 0int,
{
    if p < 0 || p >= toks.len() {
        Err(stalled())
    } else {
        match expression_from(toks, p + 1) {
            Err(e) => Err(e),
            Ok((c, q)) => if !moved(toks, p, q) {
                Err(stalled())
            } else {
                match block_from(toks, q) {
                    Err(e) => Err(e),
                    Ok((then_b, q1)) => if !moved(toks, q, q1) {
                        Err(stalled())
                    } else {
                        match elifs_rest(toks, q1, Seq::empty()) {
                            Err(e) => Err(e),
                            Ok((elifs, q2)) => if !kept(toks, q1, q2) {
                                Err(stalled())
                            } else if check(toks, q2, TokenKind::Else) {
                                match block_from(toks, q2 + 1) {
                                    Err(e) => Err(e),
                                    Ok((b, q3)) => Ok((
                                        StmtView::If { cond: c, then_branch: then_b, elifs, else_branch: Some(b) },
                                        q3,
                                    )),
                                }
                            } else {
                                Ok((StmtView::If { cond: c, then_branch: then_b, elifs, else_branch: None }, q2))
                            },
                        }
                    },
                }
            },
        }
    }
}

/// `for name in start..end { body }` from the `for` at `p`.
pub open spec fn for_from(toks: Seq<SpannedTokenView>, p: int) -> Parsed<StmtView>
    decreases toks.len() - p, 37int, 0int,
{
    match expect_ident(toks, p + 1, "Expected loop variable name"@) {
        Err(e) => Err(e),
        Ok((var, q)) => match expect(toks, q, TokenKind::In, "Expected 'in' after loop variable"@) {
            Err(e) => Err(e),
            Ok(q1) => if !moved(toks, p, q1) {
                Err(stalled())
            } else {
                match expression_from(toks, q1) {
                    Err(e) => Err(e),
                    Ok((first, q2)) => if !moved(toks, q1, q2) {
                        Err(stalled())
                    } else if check(toks, q2, TokenKind::DotDot) {
                        let q3 = q2 + 1;
                        match expression_from(toks, q3) {
                            Err(e) => Err(e),
                            Ok((end, q4)) => if !moved(toks, q3, q4) {
                                Err(stalled())
                            } else {
                                match block_from(toks, q4) {
                                    Err(e) => Err(e),
                                    Ok((body, q5)) => Ok(
                                        (StmtView::For { var, source: ForSourceView::Range(first, end), body }, q5),
                                    ),
                                }
                            },
                        }
                    } else {
                        match block_from(toks, q2) {
                            Err(e) => Err(e),
                            Ok((body, q5)) => Ok((StmtView::For { var, source: ForSourceView::Array(first), body }, q5)),
                        }
                    },
                }
            },
        },
    }
}

/// `import name(.name)*` from the `import` at `p`: the dotted module name.
pub open spec fn import_from(toks: Seq<SpannedTokenView>, p: int) -> Parsed<StmtView> {
    match expect_ident(toks, p + 1, "Expected module name after 'import'"@) {
        Err(e) => Err(e),
        Ok((first, q)) => match dotted_rest(toks, q, first) {
            Err(e) => Err(e),
            Ok((name, q1)) => Ok((StmtView::Import(name), q1)),
        },
    }
}

/// `.name` segments added to the dotted name `acc`.
pub open spec fn dotted_rest(toks: Seq<SpannedTokenView>, q: int, acc: Seq<char>) -> Parsed<Seq<char>>
    decreases toks.len() - q,
{
    if check(toks, q, TokenKind::Dot) {
        match expect_ident(toks, q + 1, "Expected module name after '.'"@) {
            Err(e) => Err(e),
            Ok((segment, q1)) => dotted_rest(toks, q1, acc.push('.') + segment),
        }
    } else {
        Ok((acc, q))
    }
}

/// A whole program: statements up to the end of input.
pub open spec fn program_from(toks: Seq<SpannedTokenView>, p: int, acc: Seq<StmtView>) -> Result<Seq<StmtView>, ErrorView>
    decreases toks.len() - p,
{
    if p < 0 || at_end(toks, p) {
        Ok(acc)
    } else {
        match statement_from(toks, p) {
            Err(e) => Err(e),
            Ok((s, q)) => if !moved(toks, p, q) {
                Err(stalled())
            } else {
                program_from(toks, q, acc.push(s))
            },
        }
    }
}

/// Where each statement of a program read from `p` starts: the line and
/// column of its first token, for as long as statements read.
pub open spec fn program_spans(toks: Seq<SpannedTokenView>, p: int) -> Seq<(usize, usize)>
    decreases toks.len() - p,
{
    if p < 0 || at_end(toks, p) {
        Seq::empty()
    } else {
        match statement_from(toks, p) {
            Ok((_, q)) => if moved(toks, p, q) {
                seq![(line_at(toks, p), column_at(toks, p))] + program_spans(toks, q)
            } else {
                Seq::empty()
            },
            Err(_) => Seq::empty(),
        }
    }
}

} // verus!
