use vstd::prelude::*;
use crate::ast::{
    EnumDef, EnumVariant, FnParam, FnStmt, ForSource, ForStmt, ImportStmt, IfStmt, LetStmt, ReturnStmt, StructDef,
    StructField, TypeView, WhileStmt, fields_view, opt_type_view, params_view, variants_view, Program,
    ArrayIndexExpr, AssignExpr, BinOp, BinaryExpr, Block, CallExpr, EnumConstructExpr, Expr,
    ExprStmt, ExprView, FieldAccessExpr, IfExpr, Literal, MatchArm, MatchExpr, Pattern, Stmt,
    PatternView, StmtView, StructLiteralExpr, Type, UnOp, UnaryExpr, block_view, stmts_view, elifs_view, exprs_view,
    inits_view, arms_view, lemma_exprs_view_push, lemma_inits_view_push, lemma_arms_view_push,
    lemma_elifs_view_push, Span, Spanned, nodes, spans_view, types_view,
};
use crate::error::{ErrorView, HuziError};
use crate::grammar::{
    Parsed, args_rest, arms_rest, at_end, binary_from, binary_rest, call_from, check, elems_rest,
    eof_ahead, error_at, expect, expect_ident, expect_integer, expression_from, fold_elifs,
    if_expr_from, inits_rest, kind_at, line_at, column_at, looks_like_struct_literal, match_from,
    moved, kept, op_at, operand_from, pattern_from, postfix_rest, primary_from,
    struct_literal_from, token_views, type_from, unary_from, binary_op, elifs_rest, block_from,
    statement_from, stmts_rest, let_from, struct_from, fields_rest, enum_from, variants_rest, fn_from,
    lines_from_one, lemma_lexed_source_readable, import_from, dotted_rest, readable_tokens, program_spans, types_rest,
    params_rest, if_stmt_from, for_from, program_from,
};
use crate::text::is_single;
use crate::lexer::{Lexer, lex};
use crate::token::{SpannedToken, SpannedTokenView, Token, TokenKind, TokenView, token_text};

verus! {

/// A result seen through the views of its value and error.
pub open spec fn lift<T: View>(r: Result<T, HuziError>) -> Result<T::V, ErrorView> {
    match r {
        Ok(v) => Ok(v@),
        Err(e) => Err(e@),
    }
}

/// `res` is what the grammar reads from `start`, with reading ending at
/// `end`, after `start` and within the `len` tokens.
pub open spec fn parsed_as<V>(spec: Parsed<V>, res: Result<V, ErrorView>, start: int, end: int, len: int) -> bool {
    match res {
        Ok(v) => spec == Ok::<(V, int), ErrorView>((v, end)) && start < end <= len,
        Err(e) => spec == Err::<(V, int), ErrorView>(e),
    }
}

/// An empty token list reads as the empty program: a parser made from it
/// (see `Parser::new`) parses to no statements.
pub proof fn lemma_empty_tokens_read_as_empty_program()
    ensures
        program_from(readable_tokens(token_views(Seq::<SpannedToken>::empty())), 0, Seq::empty()) == Ok::<
            Seq<StmtView>,
            ErrorView,
        >(Seq::empty()),
        program_spans(readable_tokens(token_views(Seq::<SpannedToken>::empty())), 0) == Seq::<(usize, usize)>::empty(),
{
    assert(token_views(Seq::<SpannedToken>::empty()) =~= Seq::<SpannedTokenView>::empty());
}

/// Reads a token sequence into a program.
pub struct Parser {
    tokens: Vec<SpannedToken>,
    pos: usize,
}

impl Parser {
    #[verifier::type_invariant]
    spec fn well_formed(self) -> bool {
        eof_ahead(token_views(self.tokens@), self.pos as int)
    }

    /// The tokens being read.
    pub closed spec fn toks(&self) -> Seq<SpannedTokenView> {
        token_views(self.tokens@)
    }

    proof fn lemma_toks(&self)
        ensures
            self.toks().len() == self.tokens@.len(),
            forall|i: int| 0 <= i < self.tokens@.len() ==> #[trigger] self.toks()[i] == self.tokens@[i]@,
    {
    }

    /// The index of the next token to read.
    pub closed spec fn position(&self) -> int {
        self.pos as int
    }

    /// A parser at the first of `tokens`. Where no end-of-input token stands
    /// in the list, one is appended at the position of the last token (at
    /// line 1, column 1 for an empty list), so that reading always stops.
    pub fn new(tokens: Vec<SpannedToken>) -> (p: Parser)
        ensures
            p.toks() == readable_tokens(token_views(tokens@)),
            p.position() == 0,
    {
        let ghost given = token_views(tokens@);
        let mut tokens = tokens;
        let mut i: usize = 0;
        let mut found = false;
        while i < tokens.len()
            invariant
                i <= tokens@.len(),
                given == token_views(tokens@),
                found ==> eof_ahead(given, 0),
                !found ==> forall|k: int| 0 <= k < i ==> #[trigger] given[k].token.kind != TokenKind::Eof,
            decreases tokens@.len() - i,
        {
            if tokens[i].token.kind() == TokenKind::Eof {
                proof {
                    assert(given[i as int] == tokens@[i as int]@);
                }
                found = true;
            } else {
                proof {
                    assert(given[i as int] == tokens@[i as int]@);
                }
            }
            i += 1;
        }
        if !found {
            let (line, column) = if tokens.len() == 0 {
                (1, 1)
            } else {
                let last = tokens.len() - 1;
                (tokens[last].line, tokens[last].column)
            };
            proof {
                if tokens@.len() > 0 {
                    assert(given.last() == tokens@[tokens@.len() - 1]@);
                }
            }
            tokens.push(SpannedToken { token: Token::Eof, line, column });
            proof {
                assert(token_views(tokens@) =~= readable_tokens(given));
                assert(token_views(tokens@)[tokens@.len() - 1].token.kind == TokenKind::Eof);
            }
        }
        Parser { tokens, pos: 0 }
    }

    fn is_at_end(&self) -> (b: bool)
        ensures
            b == at_end(self.toks(), self.pos as int),
            self.toks().len() == self.tokens@.len(),
    {
        proof {
            self.lemma_toks();
        }
        if self.pos >= self.tokens.len() {
            return true;
        }
        let k = self.tokens[self.pos].token.kind();
        proof {
            assert(self.toks()[self.pos as int] == self.tokens@[self.pos as int]@);
        }
        k == TokenKind::Eof
    }

    fn peek(&self) -> (t: &Token)
        ensures
            self.pos < self.tokens@.len(),
            t@ == self.toks()[self.pos as int].token,
    {
        proof {
            use_type_invariant(self);
            assert(self.toks()[self.pos as int] == self.tokens@[self.pos as int]@);
        }
        &self.tokens[self.pos].token
    }

    fn check(&self, k: TokenKind) -> (b: bool)
        ensures
            b == check(self.toks(), self.pos as int, k),
    {
        if self.is_at_end() {
            false
        } else {
            self.peek().kind() == k
        }
    }

    fn advance(&mut self)
        ensures
            final(self).tokens == old(self).tokens,
            final(self).pos as int == if at_end(old(self).toks(), old(self).pos as int) {
                old(self).pos as int
            } else {
                old(self).pos + 1
            },
            final(self).pos <= final(self).toks().len(),
    {
        proof {
            use_type_invariant(&*self);
        }
        if !self.is_at_end() {
            let n = self.tokens.len();
            proof {
                let toks = self.toks();
                assert(self.pos < n);
                let e = choose|e: int| self.pos <= e < toks.len() && toks[e].token.kind == TokenKind::Eof;
                assert(self.pos + 1 <= e);
            }
            self.pos = self.pos + 1;
        }
    }

    /// The token `offset` places ahead, if any.
    fn peek_at(&self, offset: usize) -> (t: Option<&Token>)
        ensures
            match t {
                Some(t) => self.pos + offset < self.toks().len() && t@ == self.toks()[self.pos + offset].token,
                None => self.pos + offset >= self.toks().len(),
            },
    {
        if offset < self.tokens.len() && self.pos < self.tokens.len() - offset {
            proof {
                assert(self.toks()[self.pos + offset] == self.tokens@[self.pos + offset]@);
            }
            Some(&self.tokens[self.pos + offset].token)
        } else {
            None
        }
    }

    fn current_line(&self) -> (l: usize)
        ensures
            l == line_at(self.toks(), self.pos as int),
    {
        if self.pos < self.tokens.len() {
            proof {
                assert(self.toks()[self.pos as int] == self.tokens@[self.pos as int]@);
            }
            self.tokens[self.pos].line
        } else {
            usize::MAX
        }
    }

    fn current_col(&self) -> (c: usize)
        ensures
            c == column_at(self.toks(), self.pos as int),
    {
        if self.pos < self.tokens.len() {
            proof {
                assert(self.toks()[self.pos as int] == self.tokens@[self.pos as int]@);
            }
            self.tokens[self.pos].column
        } else {
            usize::MAX
        }
    }

    /// The error `message` at the current token.
    fn error(&self, message: &str) -> (e: HuziError)
        ensures
            e@ == error_at(self.toks(), self.pos as int, message@),
    {
        HuziError::new(message, self.current_line(), self.current_col())
    }

    fn expect(&mut self, k: TokenKind, message: &str) -> (res: Result<(), HuziError>)
        ensures
            lines_from_one(old(self).toks()) ==> (res matches Err(e) ==> e@.line >= 1),
            final(self).tokens == old(self).tokens,
            match res {
                Ok(_) => expect(old(self).toks(), old(self).pos as int, k, message@) == Ok::<int, ErrorView>(
                    final(self).pos as int,
                ),
                Err(e) => expect(old(self).toks(), old(self).pos as int, k, message@) == Err::<int, ErrorView>(
                    e@,
                ),
            },
    {
        if self.check(k) {
            self.advance();
            Ok(())
        } else {
            Err(self.error(message))
        }
    }

    fn expect_ident(&mut self, message: &str) -> (res: Result<String, HuziError>)
        ensures
            lines_from_one(old(self).toks()) ==> (res matches Err(e) ==> e@.line >= 1),
            final(self).tokens == old(self).tokens,
            match res {
                Ok(n) => expect_ident(old(self).toks(), old(self).pos as int, message@) == Ok::<
                    (Seq<char>, int),
                    ErrorView,
                >((n@, final(self).pos as int)),
                Err(e) => expect_ident(old(self).toks(), old(self).pos as int, message@) == Err::<
                    (Seq<char>, int),
                    ErrorView,
                >(e@),
            },
    {
        if self.pos < self.tokens.len() {
            proof {
                assert(self.toks()[self.pos as int] == self.tokens@[self.pos as int]@);
            }
            let name = match &self.tokens[self.pos].token {
                Token::Ident(name) => Some(name.clone()),
                _ => None,
            };
            if let Some(name) = name {
                self.advance();
                return Ok(name);
            }
        }
        Err(self.error(message))
    }

    fn expect_integer(&mut self, message: &str) -> (res: Result<i64, HuziError>)
        ensures
            lines_from_one(old(self).toks()) ==> (res matches Err(e) ==> e@.line >= 1),
            final(self).tokens == old(self).tokens,
            match res {
                Ok(n) => expect_integer(old(self).toks(), old(self).pos as int, message@) == Ok::<
                    (i64, int),
                    ErrorView,
                >((n, final(self).pos as int)),
                Err(e) => expect_integer(old(self).toks(), old(self).pos as int, message@) == Err::<
                    (i64, int),
                    ErrorView,
                >(e@),
            },
    {
        if self.pos < self.tokens.len() {
            proof {
                assert(self.toks()[self.pos as int] == self.tokens@[self.pos as int]@);
            }
            let value = match &self.tokens[self.pos].token {
                Token::Int(n) => Some(*n),
                _ => None,
            };
            if let Some(n) = value {
                self.advance();
                return Ok(n);
            }
        }
        Err(self.error(message))
    }

    /// Whether the tokens after the current `{` read `ident :`.
    fn looks_like_struct_literal(&self) -> (b: bool)
        ensures
            b == looks_like_struct_literal(self.toks(), self.pos as int),
    {
        let first = match self.peek_at(1) {
            Some(t) => t.kind() == TokenKind::Ident,
            None => false,
        };
        let second = match self.peek_at(2) {
            Some(t) => t.kind() == TokenKind::Colon,
            None => false,
        };
        first && second
    }

    /// Whether the current token can start an expression.
    fn is_expr_start(&self) -> (b: bool)
        ensures
            b == crate::grammar::starts_expression(kind_at(self.toks(), self.pos as int)),
    {
        let k = self.peek().kind();
        k == TokenKind::True || k == TokenKind::False || k == TokenKind::Int || k == TokenKind::Float
            || k == TokenKind::Str || k == TokenKind::Char || k == TokenKind::Ident || k
            == TokenKind::LParen || k == TokenKind::LBracket || k == TokenKind::If || k == TokenKind::Match
            || k == TokenKind::Bang || k == TokenKind::Minus
    }

    // ------------------------------ types ----------------------------------

    fn parse_type(&mut self) -> (res: Result<Type, HuziError>)
        ensures
            lines_from_one(old(self).toks()) ==> (res matches Err(e) ==> e@.line >= 1),
            final(self).tokens == old(self).tokens,
            parsed_as(type_from(old(self).toks(), old(self).pos as int), lift(res), old(self).pos as int,
                final(self).pos as int, old(self).toks().len() as int),
        decreases old(self).toks().len() - old(self).pos, 0int,
    {
        proof {
            use_type_invariant(&*self);
        }
        if self.check(TokenKind::LBracket) {
            self.advance();
            let elem = match self.parse_type() {
                Ok(t) => t,
                Err(e) => return Err(e),
            };
            match self.expect(TokenKind::Semi, "Expected ';' in array type") {
                Ok(_) => {},
                Err(e) => return Err(e),
            }
            let size = match self.expect_integer("Expected array size") {
                Ok(n) => #[verifier::truncate] (n as usize),
                Err(e) => return Err(e),
            };
            match self.expect(TokenKind::RBracket, "Expected ']' in array type") {
                Ok(_) => {},
                Err(e) => return Err(e),
            }
            return Ok(Type::Array(Box::new(elem), size));
        }
        if self.check(TokenKind::LParen) {
            let ghost toks = self.toks();
            let ghost p0 = self.pos as int;
            self.advance();
            if self.check(TokenKind::RParen) {
                self.advance();
                return Ok(Type::Unit);
            }
            let first = match self.parse_type() {
                Ok(t) => t,
                Err(e) => return Err(e),
            };
            let ghost q0 = self.pos as int;
            let ghost first_view = first@;
            let mut items: Vec<Type> = Vec::new();
            items.push(first);
            proof {
                assert(items@.drop_last() =~= Seq::<Type>::empty());
                assert(types_view(items@.drop_last()) =~= Seq::<TypeView>::empty());
                assert(types_view(items@) =~= seq![first_view]);
            }
            loop
                invariant_except_break
                    self.toks() == toks,
                    self.tokens == old(self).tokens,
                    toks == old(self).toks(),
                    p0 == old(self).pos,
                    q0 <= self.pos <= toks.len(),
                    p0 + 1 < q0,
                    check(toks, p0, TokenKind::LParen),
                    !check(toks, p0 + 1, TokenKind::RParen),
                    type_from(toks, p0 + 1) == Ok::<(TypeView, int), ErrorView>((first_view, q0)),
                    types_rest(toks, self.pos as int, types_view(items@)) == types_rest(toks, q0, seq![first_view]),
                ensures
                    self.toks() == toks,
                    self.tokens == old(self).tokens,
                    q0 <= self.pos <= toks.len(),
                    p0 == old(self).pos,
                    p0 + 1 < q0,
                    check(toks, p0, TokenKind::LParen),
                    !check(toks, p0 + 1, TokenKind::RParen),
                    type_from(toks, p0 + 1) == Ok::<(TypeView, int), ErrorView>((first_view, q0)),
                    types_rest(toks, q0, seq![first_view]) == Ok::<(Seq<TypeView>, int), ErrorView>(
                        (types_view(items@), self.pos as int),
                    ),
                decreases toks.len() - self.pos,
            {
                if self.check(TokenKind::Comma) {
                    let ghost at = self.pos as int;
                    self.advance();
                    let ghost before = items@;
                    let t = match self.parse_type() {
                        Ok(t) => t,
                        Err(e) => {
                            proof {
                                assert(types_rest(toks, at, types_view(before)) == Err::<
                                    (Seq<TypeView>, int),
                                    ErrorView,
                                >(e@));
                                assert(types_rest(toks, q0, seq![first_view]) == Err::<
                                    (Seq<TypeView>, int),
                                    ErrorView,
                                >(e@));
                                assert(type_from(toks, p0) == Err::<(TypeView, int), ErrorView>(e@));
                            }
                            return Err(e);
                        },
                    };
                    let ghost tv = t@;
                    items.push(t);
                    proof {
                        assert(items@.drop_last() =~= before);
                        assert(types_view(items@) =~= types_view(before).push(tv));
                    }
                } else {
                    break;
                }
            }
            match self.expect(TokenKind::RParen, "Expected ')' in tuple type") {
                Ok(_) => {},
                Err(e) => return Err(e),
            }
            return Ok(Type::Tuple(items));
        }
        let name = match self.peek() {
            Token::Ident(name) => Some(name.clone()),
            _ => None,
        };
        match name {
            Some(name) => {
                self.advance();
                Ok(Type::Named(name))
            },
            None => Err(self.error("Expected type")),
        }
    }

    // ------------------------------ patterns -------------------------------

    fn parse_pattern(&mut self) -> (res: Result<Pattern, HuziError>)
        ensures
            lines_from_one(old(self).toks()) ==> (res matches Err(e) ==> e@.line >= 1),
            final(self).tokens == old(self).tokens,
            parsed_as(pattern_from(old(self).toks(), old(self).pos as int), lift(res), old(self).pos as int,
                final(self).pos as int, old(self).toks().len() as int),
    {
        proof {
            use_type_invariant(&*self);
        }
        let wildcard = match self.peek() {
            Token::Ident(name) => is_single(name, '_'),
            _ => false,
        };
        if wildcard {
            self.advance();
            return Ok(Pattern::Wildcard);
        }
        let enum_name = match self.expect_ident("Expected pattern (variant or '_')") {
            Ok(n) => n,
            Err(e) => return Err(e),
        };
        match self.expect(TokenKind::PathSep, "Expected '::' after enum name in pattern") {
            Ok(_) => {},
            Err(e) => return Err(e),
        }
        let variant = match self.expect_ident("Expected variant name after '::'") {
            Ok(n) => n,
            Err(e) => return Err(e),
        };
        let binding = if self.check(TokenKind::LParen) {
            self.advance();
            let binding = match self.expect_ident("Expected binding name in pattern") {
                Ok(n) => n,
                Err(e) => return Err(e),
            };
            match self.expect(TokenKind::RParen, "Expected ')' after pattern binding") {
                Ok(_) => {},
                Err(e) => return Err(e),
            }
            Some(binding)
        } else {
            None
        };
        Ok(Pattern::Variant { enum_name, variant, binding })
    }

    // ------------------------------ expressions ----------------------------

    /// An assignment, or an `||` expression.
    fn parse_expression(&mut self) -> (res: Result<Expr, HuziError>)
        ensures
            lines_from_one(old(self).toks()) ==> (res matches Err(e) ==> e@.line >= 1),
            final(self).tokens == old(self).tokens,
            parsed_as(expression_from(old(self).toks(), old(self).pos as int), lift(res), old(self).pos as int,
                final(self).pos as int, old(self).toks().len() as int),
        decreases old(self).toks().len() - old(self).pos, 30int,
    {
        proof {
            use_type_invariant(&*self);
        }
        let expr = match self.parse_binary(0) {
            Ok(e) => e,
            Err(e) => return Err(e),
        };
        if self.check(TokenKind::Equal) {
            let is_target = match &expr {
                Expr::Ident(_) => true,
                Expr::ArrayIndex(_) => true,
                Expr::FieldAccess(_) => true,
                _ => false,
            };
            if !is_target {
                return Err(self.error("Invalid assignment target"));
            }
            self.advance();
            let value = match self.parse_expression() {
                Ok(v) => v,
                Err(e) => return Err(e),
            };
            return Ok(Expr::Assign(AssignExpr { target: Box::new(expr), value: Box::new(value) }));
        }
        Ok(expr)
    }

    /// The operator of precedence level `level` at the current token.
    fn binary_operator(&self, level: u8) -> (op: Option<BinOp>)
        ensures
            op == op_at(self.toks(), self.pos as int, level as nat),
    {
        if level == 0 {
            if self.check(TokenKind::BarBar) { Some(BinOp::Or) } else { None }
        } else if level == 1 {
            if self.check(TokenKind::AmpAmp) { Some(BinOp::And) } else { None }
        } else if level == 2 {
            if self.check(TokenKind::EqualEqual) {
                Some(BinOp::Eq)
            } else if self.check(TokenKind::BangEqual) {
                Some(BinOp::Neq)
            } else {
                None
            }
        } else if level == 3 {
            if self.check(TokenKind::Less) {
                Some(BinOp::Lt)
            } else if self.check(TokenKind::LessEqual) {
                Some(BinOp::Le)
            } else if self.check(TokenKind::Greater) {
                Some(BinOp::Gt)
            } else if self.check(TokenKind::GreaterEqual) {
                Some(BinOp::Ge)
            } else {
                None
            }
        } else if level == 4 {
            if self.check(TokenKind::Plus) {
                Some(BinOp::Add)
            } else if self.check(TokenKind::Minus) {
                Some(BinOp::Sub)
            } else {
                None
            }
        } else if level == 5 {
            if self.check(TokenKind::Star) {
                Some(BinOp::Mul)
            } else if self.check(TokenKind::Slash) {
                Some(BinOp::Div)
            } else if self.check(TokenKind::Percent) {
                Some(BinOp::Mod)
            } else {
                None
            }
        } else {
            None
        }
    }

    /// A left-associative chain at precedence level `level` (0 `||`,
    /// 1 `&&`, 2 equality, 3 comparison, 4 additive, 5 multiplicative).
    fn parse_binary(&mut self, level: u8) -> (res: Result<Expr, HuziError>)
        requires
            level <= 5,
        ensures
            lines_from_one(old(self).toks()) ==> (res matches Err(e) ==> e@.line >= 1),
            final(self).tokens == old(self).tokens,
            parsed_as(binary_from(old(self).toks(), old(self).pos as int, level as nat), lift(res),
                old(self).pos as int, final(self).pos as int, old(self).toks().len() as int),
        decreases old(self).toks().len() - old(self).pos, 29 - 2 * level,
    {
        proof {
            use_type_invariant(&*self);
        }
        let ghost toks = self.toks();
        let ghost p = self.pos as int;
        let mut left = match self.parse_operand(level) {
            Ok(e) => e,
            Err(e) => return Err(e),
        };
        loop
            invariant
                self.toks() == toks,
                self.tokens == old(self).tokens,
                toks == old(self).toks(),
                p == old(self).pos,
                level <= 5,
                p < self.pos <= toks.len(),
                binary_rest(toks, left@, self.pos as int, level as nat) == binary_from(toks, p, level as nat),
            decreases toks.len() - self.pos,
        {
            let op = match self.binary_operator(level) {
                Some(op) => op,
                None => return Ok(left),
            };
            self.advance();
            let right = match self.parse_operand(level) {
                Ok(e) => e,
                Err(e) => return Err(e),
            };
            left = Expr::Binary(BinaryExpr { left: Box::new(left), operator: op, right: Box::new(right) });
        }
    }

    /// An operand of level `level`.
    fn parse_operand(&mut self, level: u8) -> (res: Result<Expr, HuziError>)
        requires
            level <= 5,
        ensures
            lines_from_one(old(self).toks()) ==> (res matches Err(e) ==> e@.line >= 1),
            final(self).tokens == old(self).tokens,
            parsed_as(operand_from(old(self).toks(), old(self).pos as int, level as nat), lift(res),
                old(self).pos as int, final(self).pos as int, old(self).toks().len() as int),
        decreases old(self).toks().len() - old(self).pos, 28 - 2 * level,
    {
        if level == 5 {
            self.parse_unary_expression()
        } else {
            self.parse_binary(level + 1)
        }
    }

    fn parse_unary_expression(&mut self) -> (res: Result<Expr, HuziError>)
        ensures
            lines_from_one(old(self).toks()) ==> (res matches Err(e) ==> e@.line >= 1),
            final(self).tokens == old(self).tokens,
            parsed_as(unary_from(old(self).toks(), old(self).pos as int), lift(res), old(self).pos as int,
                final(self).pos as int, old(self).toks().len() as int),
        decreases old(self).toks().len() - old(self).pos, 17int,
    {
        proof {
            use_type_invariant(&*self);
        }
        if self.check(TokenKind::Bang) {
            self.advance();
            let operand = match self.parse_unary_expression() {
                Ok(e) => e,
                Err(e) => return Err(e),
            };
            Ok(Expr::Unary(UnaryExpr { operator: UnOp::Not, operand: Box::new(operand) }))
        } else if self.check(TokenKind::Minus) {
            self.advance();
            let operand = match self.parse_unary_expression() {
                Ok(e) => e,
                Err(e) => return Err(e),
            };
            Ok(Expr::Unary(UnaryExpr { operator: UnOp::Neg, operand: Box::new(operand) }))
        } else {
            self.parse_call_expression()
        }
    }

    /// A primary expression with indexing, field access and calls after it.
    fn parse_call_expression(&mut self) -> (res: Result<Expr, HuziError>)
        ensures
            lines_from_one(old(self).toks()) ==> (res matches Err(e) ==> e@.line >= 1),
            final(self).tokens == old(self).tokens,
            parsed_as(call_from(old(self).toks(), old(self).pos as int), lift(res), old(self).pos as int,
                final(self).pos as int, old(self).toks().len() as int),
        decreases old(self).toks().len() - old(self).pos, 16int,
    {
        proof {
            use_type_invariant(&*self);
        }
        let ghost toks = self.toks();
        let ghost p = self.pos as int;
        let mut expr = match self.parse_primary_expression() {
            Ok(e) => e,
            Err(e) => return Err(e),
        };
        loop
            invariant
                self.toks() == toks,
                self.tokens == old(self).tokens,
                toks == old(self).toks(),
                p == old(self).pos,
                p < self.pos <= toks.len(),
                postfix_rest(toks, expr@, self.pos as int) == call_from(toks, p),
            decreases toks.len() - self.pos,
        {
            if self.check(TokenKind::LBracket) {
                self.advance();
                let index = match self.parse_expression() {
                    Ok(e) => e,
                    Err(e) => return Err(e),
                };
                match self.expect(TokenKind::RBracket, "Expected ']' after index") {
                    Ok(_) => {},
                    Err(e) => return Err(e),
                }
                expr = Expr::ArrayIndex(ArrayIndexExpr { array: Box::new(expr), index: Box::new(index) });
            } else if self.check(TokenKind::Dot) {
                self.advance();
                let field = match self.expect_ident("Expected field name after '.'") {
                    Ok(n) => n,
                    Err(e) => return Err(e),
                };
                expr = Expr::FieldAccess(FieldAccessExpr { base: Box::new(expr), field });
            } else if self.check(TokenKind::LParen) {
                self.advance();
                let arguments = match self.parse_arguments() {
                    Ok(a) => a,
                    Err(e) => return Err(e),
                };
                match self.expect(TokenKind::RParen, "Expected ')' after arguments") {
                    Ok(_) => {},
                    Err(e) => return Err(e),
                }
                expr = Expr::Call(CallExpr { callee: Box::new(expr), arguments });
            } else {
                return Ok(expr);
            }
        }
    }

    /// Arguments up to `)` or the end, each optionally followed by a comma.
    fn parse_arguments(&mut self) -> (res: Result<Vec<Expr>, HuziError>)
        ensures
            lines_from_one(old(self).toks()) ==> (res matches Err(e) ==> e@.line >= 1),
            final(self).tokens == old(self).tokens,
            res is Ok ==> old(self).pos <= final(self).pos <= final(self).toks().len(),
            match res {
                Ok(v) => args_rest(old(self).toks(), old(self).pos as int, Seq::empty()) == Ok::<
                    (Seq<ExprView>, int),
                    ErrorView,
                >((exprs_view(v@), final(self).pos as int)),
                Err(e) => args_rest(old(self).toks(), old(self).pos as int, Seq::empty()) == Err::<
                    (Seq<ExprView>, int),
                    ErrorView,
                >(e@),
            },
        decreases old(self).toks().len() - old(self).pos, 31int,
    {
        proof {
            use_type_invariant(&*self);
        }
        let ghost toks = self.toks();
        let ghost p = self.pos as int;
        let mut arguments: Vec<Expr> = Vec::new();
        while !self.check(TokenKind::RParen) && !self.is_at_end()
            invariant
                self.toks() == toks,
                self.tokens == old(self).tokens,
                toks == old(self).toks(),
                p == old(self).pos,
                p <= self.pos <= toks.len(),
                args_rest(toks, self.pos as int, exprs_view(arguments@)) == args_rest(toks, p, Seq::empty()),
            decreases toks.len() - self.pos,
        {
            let arg = match self.parse_expression() {
                Ok(e) => e,
                Err(e) => return Err(e),
            };
            proof {
                lemma_exprs_view_push(arguments@, arg);
            }
            arguments.push(arg);
            if self.check(TokenKind::Comma) {
                self.advance();
            }
        }
        Ok(arguments)
    }

    fn parse_primary_expression(&mut self) -> (res: Result<Expr, HuziError>)
        ensures
            lines_from_one(old(self).toks()) ==> (res matches Err(e) ==> e@.line >= 1),
            final(self).tokens == old(self).tokens,
            parsed_as(primary_from(old(self).toks(), old(self).pos as int), lift(res), old(self).pos as int,
                final(self).pos as int, old(self).toks().len() as int),
        decreases old(self).toks().len() - old(self).pos, 15int,
    {
        proof {
            use_type_invariant(&*self);
        }
        let ghost toks = self.toks();
        let ghost p = self.pos as int;
        let k = self.peek().kind();
        if k == TokenKind::True {
            self.advance();
            Ok(Expr::Literal(Literal::Bool(true)))
        } else if k == TokenKind::False {
            self.advance();
            Ok(Expr::Literal(Literal::Bool(false)))
        } else if k == TokenKind::Int || k == TokenKind::Float || k == TokenKind::Str || k == TokenKind::Char {
            let lit = match self.peek() {
                Token::Int(n) => Literal::Int(*n),
                Token::Float(s) => Literal::Float(s.clone()),
                Token::String(s) => Literal::String(s.clone()),
                Token::Char(c) => Literal::Char(*c),
                _ => Literal::Bool(false),
            };
            self.advance();
            Ok(Expr::Literal(lit))
        } else if k == TokenKind::Ident {
            let name = match self.peek() {
                Token::Ident(name) => name.clone(),
                _ => String::new(),
            };
            self.advance();
            if self.check(TokenKind::PathSep) {
                self.advance();
                let variant = match self.expect_ident("Expected variant name after '::'") {
                    Ok(n) => n,
                    Err(e) => return Err(e),
                };
                let args = if self.check(TokenKind::LParen) {
                    self.advance();
                    let args = match self.parse_arguments() {
                        Ok(a) => a,
                        Err(e) => return Err(e),
                    };
                    match self.expect(TokenKind::RParen, "Expected ')' after variant arguments") {
                        Ok(_) => {},
                        Err(e) => return Err(e),
                    }
                    args
                } else {
                    Vec::new()
                };
                proof {
                    assert(exprs_view(Seq::<Expr>::empty()) =~= Seq::<ExprView>::empty());
                }
                return Ok(Expr::EnumConstruct(EnumConstructExpr { enum_name: name, variant, args }));
            }
            if self.check(TokenKind::LBrace) && self.looks_like_struct_literal() {
                return self.parse_struct_literal(name);
            }
            Ok(Expr::Ident(name))
        } else if k == TokenKind::LParen {
            self.advance();
            let expr = match self.parse_expression() {
                Ok(e) => e,
                Err(e) => return Err(e),
            };
            match self.expect(TokenKind::RParen, "Expected ')' after expression") {
                Ok(_) => {},
                Err(e) => return Err(e),
            }
            Ok(expr)
        } else if k == TokenKind::LBracket {
            self.advance();
            let elements = if !self.check(TokenKind::RBracket) {
                match self.parse_elements() {
                    Ok(v) => v,
                    Err(e) => return Err(e),
                }
            } else {
                proof {
                    assert(exprs_view(Seq::<Expr>::empty()) =~= Seq::<ExprView>::empty());
                }
                Vec::new()
            };
            match self.expect(TokenKind::RBracket, "Expected ']' after array literal") {
                Ok(_) => {},
                Err(e) => return Err(e),
            }
            Ok(Expr::ArrayLiteral(elements))
        } else if k == TokenKind::If {
            self.parse_if_expression()
        } else if k == TokenKind::Match {
            self.parse_match_expression()
        } else {
            let mut message = "Unexpected token: ".to_owned();
            message.append(self.peek().describe().as_str());
            Err(HuziError::from_message(message, self.current_line(), self.current_col()))
        }
    }

    /// `{ field: value, ... }` after the struct name `name`.
    fn parse_struct_literal(&mut self, name: String) -> (res: Result<Expr, HuziError>)
        ensures
            lines_from_one(old(self).toks()) ==> (res matches Err(e) ==> e@.line >= 1),
            final(self).tokens == old(self).tokens,
            parsed_as(struct_literal_from(old(self).toks(), old(self).pos as int, name@), lift(res),
                old(self).pos as int, final(self).pos as int, old(self).toks().len() as int),
        decreases old(self).toks().len() - old(self).pos, 16int,
    {
        proof {
            use_type_invariant(&*self);
        }
        let ghost toks = self.toks();
        let ghost p = self.pos as int;
        match self.expect(TokenKind::LBrace, "Expected '{' in struct literal") {
            Ok(_) => {},
            Err(e) => return Err(e),
        }
        let fields = match self.parse_field_inits() {
            Ok(v) => v,
            Err(e) => return Err(e),
        };
        match self.expect(TokenKind::RBrace, "Expected '}' after struct literal fields") {
            Ok(_) => {},
            Err(e) => return Err(e),
        }
        Ok(Expr::StructLiteral(StructLiteralExpr { name, fields }))
    }

    /// `match scrutinee { pattern => body, ... }`.
    fn parse_match_expression(&mut self) -> (res: Result<Expr, HuziError>)
        requires
            check(old(self).toks(), old(self).pos as int, TokenKind::Match),
        ensures
            lines_from_one(old(self).toks()) ==> (res matches Err(e) ==> e@.line >= 1),
            final(self).tokens == old(self).tokens,
            parsed_as(match_from(old(self).toks(), old(self).pos as int), lift(res), old(self).pos as int,
                final(self).pos as int, old(self).toks().len() as int),
        decreases old(self).toks().len() - old(self).pos, 14int,
    {
        proof {
            use_type_invariant(&*self);
        }
        let ghost toks = self.toks();
        let ghost p = self.pos as int;
        self.advance();
        let scrutinee = match self.parse_expression() {
            Ok(e) => e,
            Err(e) => return Err(e),
        };
        match self.expect(TokenKind::LBrace, "Expected '{' after match scrutinee") {
            Ok(_) => {},
            Err(e) => return Err(e),
        }
        let arms = match self.parse_arms() {
            Ok(v) => v,
            Err(e) => return Err(e),
        };
        match self.expect(TokenKind::RBrace, "Expected '}' after match arms") {
            Ok(_) => {},
            Err(e) => return Err(e),
        }
        Ok(Expr::Match(MatchExpr { scrutinee: Box::new(scrutinee), arms }))
    }

    /// `elif cond { block }` branches.
    fn parse_elifs(&mut self) -> (res: Result<Vec<(Expr, Block)>, HuziError>)
        ensures
            lines_from_one(old(self).toks()) ==> (res matches Err(e) ==> e@.line >= 1),
            final(self).tokens == old(self).tokens,
            res is Ok ==> old(self).pos <= final(self).pos <= final(self).toks().len(),
            match res {
                Ok(v) => elifs_rest(old(self).toks(), old(self).pos as int, Seq::empty()) == Ok::<
                    (Seq<(ExprView, Seq<StmtView>)>, int),
                    ErrorView,
                >((elifs_view(v@), final(self).pos as int)),
                Err(e) => elifs_rest(old(self).toks(), old(self).pos as int, Seq::empty()) == Err::<
                    (Seq<(ExprView, Seq<StmtView>)>, int),
                    ErrorView,
                >(e@),
            },
        decreases old(self).toks().len() - old(self).pos, 31int,
    {
        proof {
            use_type_invariant(&*self);
        }
        let ghost toks = self.toks();
        let ghost p = self.pos as int;
        let mut elif_branches: Vec<(Expr, Block)> = Vec::new();
        while self.check(TokenKind::Elif)
            invariant
                self.toks() == toks,
                self.tokens == old(self).tokens,
                toks == old(self).toks(),
                p == old(self).pos,
                p <= self.pos <= toks.len(),
                elifs_rest(toks, self.pos as int, elifs_view(elif_branches@)) == elifs_rest(toks, p, Seq::empty()),
            decreases toks.len() - self.pos,
        {
            self.advance();
            let condition = match self.parse_expression() {
                Ok(e) => e,
                Err(e) => return Err(e),
            };
            let block = match self.parse_block() {
                Ok(b) => b,
                Err(e) => return Err(e),
            };
            proof {
                lemma_elifs_view_push(elif_branches@, (condition, block));
            }
            elif_branches.push((condition, block));
        }
        Ok(elif_branches)
    }

    /// `if cond { } [elif cond { } ...] else { }` as an expression, with the
    /// `elif` branches folded into nested `if` expressions.
    fn parse_if_expression(&mut self) -> (res: Result<Expr, HuziError>)
        requires
            check(old(self).toks(), old(self).pos as int, TokenKind::If),
        ensures
            lines_from_one(old(self).toks()) ==> (res matches Err(e) ==> e@.line >= 1),
            final(self).tokens == old(self).tokens,
            parsed_as(if_expr_from(old(self).toks(), old(self).pos as int), lift(res), old(self).pos as int,
                final(self).pos as int, old(self).toks().len() as int),
        decreases old(self).toks().len() - old(self).pos, 14int,
    {
        proof {
            use_type_invariant(&*self);
        }
        self.advance();
        let condition = match self.parse_expression() {
            Ok(e) => e,
            Err(e) => return Err(e),
        };
        let then_branch = match self.parse_block() {
            Ok(b) => b,
            Err(e) => return Err(e),
        };
        let elif_branches = match self.parse_elifs() {
            Ok(v) => v,
            Err(e) => return Err(e),
        };
        match self.expect(TokenKind::Else, "Expected 'else' after if expression") {
            Ok(_) => {},
            Err(e) => return Err(e),
        }
        let else_block = if self.check(TokenKind::If) {
            let nested = match self.parse_if_expression() {
                Ok(e) => e,
                Err(e) => return Err(e),
            };
            let b = Block { statements: vec![Stmt::Expr(ExprStmt { expr: nested })] };
            proof {
                crate::ast::lemma_stmts_view_push(Seq::empty(), Stmt::Expr(ExprStmt { expr: nested }));
                assert(Seq::<Stmt>::empty().push(Stmt::Expr(ExprStmt { expr: nested })) =~= b.statements@);
                assert(stmts_view(Seq::<Stmt>::empty()) =~= Seq::<StmtView>::empty());
            }
            b
        } else {
            match self.parse_block() {
                Ok(b) => b,
                Err(e) => return Err(e),
            }
        };
        let else_branch = Self::fold_elif_expr(elif_branches, else_block);
        Ok(Expr::If(IfExpr { condition: Box::new(condition), then_branch, else_branch }))
    }

    /// Folds `elif` branches into nested `if` expressions: the result is the
    /// else block of the outer `if`.
    pub fn fold_elif_expr(elifs: Vec<(Expr, Block)>, else_b: Block) -> (b: Block)
        ensures
            b@ == fold_elifs(elifs_view(elifs@), else_b@),
    {
        let ghost all = elifs_view(elifs@);
        let mut rest = elifs;
        let mut acc = else_b;
        while rest.len() > 0
            invariant
                fold_elifs(all, else_b@) == fold_elifs(elifs_view(rest@), acc@),
            decreases rest.len(),
        {
            let ghost before = rest@;
            let (cond, block) = rest.pop().unwrap();
            proof {
                assert(before =~= rest@.push((cond, block)));
                lemma_elifs_view_push(rest@, (cond, block));
                lemma_fold_elifs_push(elifs_view(rest@), (cond@, block@), acc@);
            }
            let nested = Block {
                statements: vec![Stmt::Expr(ExprStmt {
                    expr: Expr::If(IfExpr { condition: Box::new(cond), then_branch: block, else_branch: acc }),
                })],
            };
            proof {
                let st = Stmt::Expr(ExprStmt {
                    expr: Expr::If(IfExpr { condition: Box::new(cond), then_branch: block, else_branch: acc }),
                });
                crate::ast::lemma_stmts_view_push(Seq::empty(), st);
                assert(Seq::<Stmt>::empty().push(st) =~= nested.statements@);
                assert(stmts_view(Seq::<Stmt>::empty()) =~= Seq::<StmtView>::empty());
            }
            acc = nested;
        }
        proof {
            assert(elifs_view(rest@) =~= Seq::<(ExprView, Seq<StmtView>)>::empty());
        }
        acc
    }

    // ------------------------------ statements -----------------------------

    /// `{ statements }`.
    fn parse_block(&mut self) -> (res: Result<Block, HuziError>)
        ensures
            lines_from_one(old(self).toks()) ==> (res matches Err(e) ==> e@.line >= 1),
            final(self).tokens == old(self).tokens,
            parsed_as(block_from(old(self).toks(), old(self).pos as int), lift(res), old(self).pos as int,
                final(self).pos as int, old(self).toks().len() as int),
        decreases old(self).toks().len() - old(self).pos, 37int,
    {
        proof {
            use_type_invariant(&*self);
        }
        let ghost toks = self.toks();
        let ghost p = self.pos as int;
        match self.expect(TokenKind::LBrace, "Expected '{'") {
            Ok(_) => {},
            Err(e) => return Err(e),
        }
        let statements = match self.parse_statements() {
            Ok(v) => v,
            Err(e) => return Err(e),
        };
        match self.expect(TokenKind::RBrace, "Expected '}'") {
            Ok(_) => {},
            Err(e) => return Err(e),
        }
        Ok(Block { statements })
    }

    fn parse_statement(&mut self) -> (res: Result<Stmt, HuziError>)
        ensures
            lines_from_one(old(self).toks()) ==> (res matches Err(e) ==> e@.line >= 1),
            final(self).tokens == old(self).tokens,
            parsed_as(statement_from(old(self).toks(), old(self).pos as int), lift(res), old(self).pos as int,
                final(self).pos as int, old(self).toks().len() as int),
        decreases old(self).toks().len() - old(self).pos, 38int,
    {
        proof {
            use_type_invariant(&*self);
        }
        if self.check(TokenKind::Let) {
            self.parse_let_statement()
        } else if self.check(TokenKind::Struct) {
            self.parse_struct_statement()
        } else if self.check(TokenKind::Enum) {
            self.parse_enum_statement()
        } else if self.check(TokenKind::Fn) {
            self.parse_fn_statement()
        } else if self.check(TokenKind::Return) {
            self.parse_return_statement()
        } else if self.check(TokenKind::Break) {
            self.advance();
            Ok(Stmt::Break)
        } else if self.check(TokenKind::Continue) {
            self.advance();
            Ok(Stmt::Continue)
        } else if self.check(TokenKind::If) {
            self.parse_if_statement()
        } else if self.check(TokenKind::For) {
            self.parse_for_statement()
        } else if self.check(TokenKind::While) {
            self.parse_while_statement()
        } else if self.check(TokenKind::Import) {
            self.parse_import_statement()
        } else if self.check(TokenKind::LBrace) {
            match self.parse_block() {
                Ok(b) => Ok(Stmt::Block(b)),
                Err(e) => Err(e),
            }
        } else {
            match self.parse_expression() {
                Ok(expr) => Ok(Stmt::Expr(ExprStmt { expr })),
                Err(e) => Err(e),
            }
        }
    }

    fn parse_let_statement(&mut self) -> (res: Result<Stmt, HuziError>)
        requires
            check(old(self).toks(), old(self).pos as int, TokenKind::Let),
        ensures
            lines_from_one(old(self).toks()) ==> (res matches Err(e) ==> e@.line >= 1),
            final(self).tokens == old(self).tokens,
            parsed_as(let_from(old(self).toks(), old(self).pos as int), lift(res), old(self).pos as int,
                final(self).pos as int, old(self).toks().len() as int),
        decreases old(self).toks().len() - old(self).pos, 37int,
    {
        proof {
            use_type_invariant(&*self);
        }
        self.advance();
        let mutable = self.check(TokenKind::Mut);
        if mutable {
            self.advance();
        }
        let name = match self.expect_ident("Expected variable name") {
            Ok(n) => n,
            Err(e) => return Err(e),
        };
        let type_annotation = if self.check(TokenKind::Colon) {
            self.advance();
            match self.parse_type() {
                Ok(t) => Some(t),
                Err(e) => return Err(e),
            }
        } else {
            None
        };
        let value = if self.check(TokenKind::Equal) {
            self.advance();
            match self.parse_expression() {
                Ok(v) => Some(v),
                Err(e) => return Err(e),
            }
        } else {
            None
        };
        Ok(Stmt::Let(LetStmt { name, mutable, type_annotation, value }))
    }

    fn parse_struct_statement(&mut self) -> (res: Result<Stmt, HuziError>)
        requires
            check(old(self).toks(), old(self).pos as int, TokenKind::Struct),
        ensures
            lines_from_one(old(self).toks()) ==> (res matches Err(e) ==> e@.line >= 1),
            final(self).tokens == old(self).tokens,
            parsed_as(struct_from(old(self).toks(), old(self).pos as int), lift(res), old(self).pos as int,
                final(self).pos as int, old(self).toks().len() as int),
        decreases old(self).toks().len() - old(self).pos, 37int,
    {
        proof {
            use_type_invariant(&*self);
        }
        let ghost toks = self.toks();
        let ghost p = self.pos as int;
        self.advance();
        let name = match self.expect_ident("Expected struct name") {
            Ok(n) => n,
            Err(e) => return Err(e),
        };
        match self.expect(TokenKind::LBrace, "Expected '{' after struct name") {
            Ok(_) => {},
            Err(e) => return Err(e),
        }
        let fields = match self.parse_struct_fields() {
            Ok(v) => v,
            Err(e) => return Err(e),
        };
        match self.expect(TokenKind::RBrace, "Expected '}' after struct fields") {
            Ok(_) => {},
            Err(e) => return Err(e),
        }
        Ok(Stmt::Struct(StructDef { name, fields }))
    }

    fn parse_enum_statement(&mut self) -> (res: Result<Stmt, HuziError>)
        requires
            check(old(self).toks(), old(self).pos as int, TokenKind::Enum),
        ensures
            lines_from_one(old(self).toks()) ==> (res matches Err(e) ==> e@.line >= 1),
            final(self).tokens == old(self).tokens,
            parsed_as(enum_from(old(self).toks(), old(self).pos as int), lift(res), old(self).pos as int,
                final(self).pos as int, old(self).toks().len() as int),
        decreases old(self).toks().len() - old(self).pos, 37int,
    {
        proof {
            use_type_invariant(&*self);
        }
        let ghost toks = self.toks();
        let ghost p = self.pos as int;
        self.advance();
        let name = match self.expect_ident("Expected enum name") {
            Ok(n) => n,
            Err(e) => return Err(e),
        };
        match self.expect(TokenKind::LBrace, "Expected '{' after enum name") {
            Ok(_) => {},
            Err(e) => return Err(e),
        }
        let variants = match self.parse_variants() {
            Ok(v) => v,
            Err(e) => return Err(e),
        };
        match self.expect(TokenKind::RBrace, "Expected '}' after enum variants") {
            Ok(_) => {},
            Err(e) => return Err(e),
        }
        Ok(Stmt::Enum(EnumDef { name, variants }))
    }

    fn parse_fn_statement(&mut self) -> (res: Result<Stmt, HuziError>)
        requires
            check(old(self).toks(), old(self).pos as int, TokenKind::Fn),
        ensures
            lines_from_one(old(self).toks()) ==> (res matches Err(e) ==> e@.line >= 1),
            final(self).tokens == old(self).tokens,
            parsed_as(fn_from(old(self).toks(), old(self).pos as int), lift(res), old(self).pos as int,
                final(self).pos as int, old(self).toks().len() as int),
        decreases old(self).toks().len() - old(self).pos, 37int,
    {
        proof {
            use_type_invariant(&*self);
        }
        let ghost toks = self.toks();
        let ghost p = self.pos as int;
        self.advance();
        let name = match self.expect_ident("Expected function name") {
            Ok(n) => n,
            Err(e) => return Err(e),
        };
        match self.expect(TokenKind::LParen, "Expected '(' after function name") {
            Ok(_) => {},
            Err(e) => return Err(e),
        }
        let params = match self.parse_params() {
            Ok(v) => v,
            Err(e) => return Err(e),
        };
        match self.expect(TokenKind::RParen, "Expected ')' after parameters") {
            Ok(_) => {},
            Err(e) => return Err(e),
        }
        let return_type = if self.check(TokenKind::Arrow) {
            self.advance();
            match self.parse_type() {
                Ok(t) => Some(t),
                Err(e) => return Err(e),
            }
        } else {
            None
        };
        let body = match self.parse_block() {
            Ok(b) => b,
            Err(e) => return Err(e),
        };
        Ok(Stmt::Fn(FnStmt { name, params, return_type, body }))
    }

    fn parse_return_statement(&mut self) -> (res: Result<Stmt, HuziError>)
        requires
            check(old(self).toks(), old(self).pos as int, TokenKind::Return),
        ensures
            lines_from_one(old(self).toks()) ==> (res matches Err(e) ==> e@.line >= 1),
            final(self).tokens == old(self).tokens,
            parsed_as(statement_from(old(self).toks(), old(self).pos as int), lift(res), old(self).pos as int,
                final(self).pos as int, old(self).toks().len() as int),
        decreases old(self).toks().len() - old(self).pos, 37int,
    {
        proof {
            use_type_invariant(&*self);
        }
        self.advance();
        proof {
            use_type_invariant(&*self);
        }
        let value = if self.is_expr_start() {
            match self.parse_expression() {
                Ok(e) => Some(e),
                Err(e) => return Err(e),
            }
        } else {
            None
        };
        Ok(Stmt::Return(ReturnStmt { value }))
    }

    fn parse_if_statement(&mut self) -> (res: Result<Stmt, HuziError>)
        requires
            check(old(self).toks(), old(self).pos as int, TokenKind::If),
        ensures
            lines_from_one(old(self).toks()) ==> (res matches Err(e) ==> e@.line >= 1),
            final(self).tokens == old(self).tokens,
            parsed_as(if_stmt_from(old(self).toks(), old(self).pos as int), lift(res), old(self).pos as int,
                final(self).pos as int, old(self).toks().len() as int),
        decreases old(self).toks().len() - old(self).pos, 37int,
    {
        proof {
            use_type_invariant(&*self);
        }
        self.advance();
        let condition = match self.parse_expression() {
            Ok(e) => e,
            Err(e) => return Err(e),
        };
        let then_branch = match self.parse_block() {
            Ok(b) => b,
            Err(e) => return Err(e),
        };
        let elif_branches = match self.parse_elifs() {
            Ok(v) => v,
            Err(e) => return Err(e),
        };
        let else_branch = if self.check(TokenKind::Else) {
            self.advance();
            match self.parse_block() {
                Ok(b) => Some(b),
                Err(e) => return Err(e),
            }
        } else {
            None
        };
        Ok(Stmt::If(IfStmt { condition, then_branch, elif_branches, else_branch }))
    }

    fn parse_for_statement(&mut self) -> (res: Result<Stmt, HuziError>)
        requires
            check(old(self).toks(), old(self).pos as int, TokenKind::For),
        ensures
            lines_from_one(old(self).toks()) ==> (res matches Err(e) ==> e@.line >= 1),
            final(self).tokens == old(self).tokens,
            parsed_as(for_from(old(self).toks(), old(self).pos as int), lift(res), old(self).pos as int,
                final(self).pos as int, old(self).toks().len() as int),
        decreases old(self).toks().len() - old(self).pos, 37int,
    {
        proof {
            use_type_invariant(&*self);
        }
        self.advance();
        let var_name = match self.expect_ident("Expected loop variable name") {
            Ok(n) => n,
            Err(e) => return Err(e),
        };
        match self.expect(TokenKind::In, "Expected 'in' after loop variable") {
            Ok(_) => {},
            Err(e) => return Err(e),
        }
        let first = match self.parse_expression() {
            Ok(e) => e,
            Err(e) => return Err(e),
        };
        let source = if self.check(TokenKind::DotDot) {
            self.advance();
            let end = match self.parse_expression() {
                Ok(e) => e,
                Err(e) => return Err(e),
            };
            ForSource::Range(first, end)
        } else {
            ForSource::Array(first)
        };
        let body = match self.parse_block() {
            Ok(b) => b,
            Err(e) => return Err(e),
        };
        Ok(Stmt::For(ForStmt { var_name, source, body }))
    }

    /// `import name(.name)*`.
    fn parse_import_statement(&mut self) -> (res: Result<Stmt, HuziError>)
        requires
            check(old(self).toks(), old(self).pos as int, TokenKind::Import),
        ensures
            lines_from_one(old(self).toks()) ==> (res matches Err(e) ==> e@.line >= 1),
            final(self).tokens == old(self).tokens,
            parsed_as(import_from(old(self).toks(), old(self).pos as int), lift(res), old(self).pos as int,
                final(self).pos as int, old(self).toks().len() as int),
    {
        proof {
            use_type_invariant(&*self);
        }
        let ghost toks = self.toks();
        let ghost p = self.pos as int;
        self.advance();
        let mut name = match self.expect_ident("Expected module name after 'import'") {
            Ok(n) => n,
            Err(e) => return Err(e),
        };
        let ghost q0 = self.pos as int;
        let ghost first = name@;
        while self.check(TokenKind::Dot)
            invariant
                self.toks() == toks,
                self.tokens == old(self).tokens,
                toks == old(self).toks(),
                p == old(self).pos,
                p < q0 <= self.pos <= toks.len(),
                dotted_rest(toks, self.pos as int, name@) == dotted_rest(toks, q0, first),
                import_from(toks, p) == match dotted_rest(toks, q0, first) {
                    Err(e) => Err(e),
                    Ok((n, q1)) => Ok((StmtView::Import(n), q1)),
                },
            decreases toks.len() - self.pos,
        {
            let ghost before = self.pos as int;
            self.advance();
            let segment = match self.expect_ident("Expected module name after '.'") {
                Ok(n) => n,
                Err(e) => {
                    proof {
                        assert(dotted_rest(toks, before, name@) == Err::<(Seq<char>, int), ErrorView>(e@));
                    }
                    return Err(e);
                },
            };
            crate::text::push_char(&mut name, '.');
            name.append(segment.as_str());
        }
        Ok(Stmt::Import(ImportStmt { name }))
    }

    fn parse_while_statement(&mut self) -> (res: Result<Stmt, HuziError>)
        requires
            check(old(self).toks(), old(self).pos as int, TokenKind::While),
        ensures
            lines_from_one(old(self).toks()) ==> (res matches Err(e) ==> e@.line >= 1),
            final(self).tokens == old(self).tokens,
            parsed_as(statement_from(old(self).toks(), old(self).pos as int), lift(res), old(self).pos as int,
                final(self).pos as int, old(self).toks().len() as int),
        decreases old(self).toks().len() - old(self).pos, 37int,
    {
        proof {
            use_type_invariant(&*self);
        }
        self.advance();
        let condition = match self.parse_expression() {
            Ok(e) => e,
            Err(e) => return Err(e),
        };
        let body = match self.parse_block() {
            Ok(b) => b,
            Err(e) => return Err(e),
        };
        Ok(Stmt::While(WhileStmt { condition, body }))
    }

    /// Reads statements up to the end of input, each with where it starts.
    pub fn parse(&mut self) -> (res: Result<Program, HuziError>)
        ensures
            lines_from_one(old(self).toks()) ==> (res matches Err(e) ==> e@.line >= 1),
            final(self).toks() == old(self).toks(),
            match res {
                Ok(prog) => program_from(old(self).toks(), old(self).position(), Seq::empty()) == Ok::<
                    Seq<StmtView>,
                    ErrorView,
                >(prog@) && prog.spans() == program_spans(old(self).toks(), old(self).position()),
                Err(e) => program_from(old(self).toks(), old(self).position(), Seq::empty()) == Err::<
                    Seq<StmtView>,
                    ErrorView,
                >(e@),
            },
    {
        proof {
            use_type_invariant(&*self);
        }
        let ghost toks = self.toks();
        let ghost p = self.pos as int;
        let mut statements: Vec<Spanned> = Vec::new();
        proof {
            assert(nodes(statements@) =~= Seq::<Stmt>::empty());
            assert(stmts_view(Seq::<Stmt>::empty()) =~= Seq::<StmtView>::empty());
            assert(spans_view(statements@) =~= Seq::<(usize, usize)>::empty());
            assert(spans_view(statements@) + program_spans(toks, p) =~= program_spans(toks, p));
        }
        while !self.is_at_end()
            invariant
                self.toks() == toks,
                self.tokens == old(self).tokens,
                toks == old(self).toks(),
                p == old(self).pos,
                p <= self.pos <= toks.len(),
                program_from(toks, self.pos as int, stmts_view(nodes(statements@))) == program_from(
                    toks,
                    p,
                    Seq::empty(),
                ),
                spans_view(statements@) + program_spans(toks, self.pos as int) == program_spans(toks, p),
            decreases toks.len() - self.pos,
        {
            let ghost at = self.pos as int;
            let line = self.current_line();
            let column = self.current_col();
            let stmt = match self.parse_statement() {
                Ok(st) => st,
                Err(e) => return Err(e),
            };
            let ghost before = statements@;
            proof {
                crate::ast::lemma_stmts_view_push(nodes(before), stmt);
            }
            statements.push(Spanned { node: stmt, span: Span { line, column } });
            proof {
                assert(nodes(statements@) =~= nodes(before).push(stmt));
                assert(spans_view(statements@) =~= spans_view(before).push((line, column)));
                assert(program_spans(toks, at) == seq![(line, column)] + program_spans(toks, self.pos as int));
                assert(spans_view(statements@) + program_spans(toks, self.pos as int) =~= spans_view(before)
                    + program_spans(toks, at));
            }
        }
        proof {
            assert(spans_view(statements@) =~= spans_view(statements@) + program_spans(toks, self.pos as int));
        }
        Ok(Program { statements })
    }

    /// Elements of an array literal, separated by commas.
    fn parse_elements(&mut self) -> (res: Result<Vec<Expr>, HuziError>)
        ensures
            lines_from_one(old(self).toks()) ==> (res matches Err(e) ==> e@.line >= 1),
            final(self).tokens == old(self).tokens,
            res is Ok ==> old(self).pos <= final(self).pos <= final(self).toks().len(),
            match res {
                Ok(v) => elems_rest(old(self).toks(), old(self).pos as int, Seq::empty()) == Ok::<
                    (Seq<ExprView>, int),
                    ErrorView,
                >((exprs_view(v@), final(self).pos as int)),
                Err(e) => elems_rest(old(self).toks(), old(self).pos as int, Seq::empty()) == Err::<
                    (Seq<ExprView>, int),
                    ErrorView,
                >(e@),
            },
        decreases old(self).toks().len() - old(self).pos, 31int,
    {
        proof {
            use_type_invariant(&*self);
        }
        let ghost toks = self.toks();
        let ghost p = self.pos as int;
        let mut items: Vec<Expr> = Vec::new();
        proof {
            assert(exprs_view(items@) =~= Seq::<ExprView>::empty());
        }
        loop
            invariant_except_break
                self.toks() == toks,
                self.tokens == old(self).tokens,
                toks == old(self).toks(),
                p == old(self).pos,
                p <= self.pos <= toks.len(),
                elems_rest(toks, self.pos as int, exprs_view(items@)) == elems_rest(toks, p, Seq::empty()),
            ensures
                self.toks() == toks,
                self.tokens == old(self).tokens,
                p <= self.pos <= toks.len(),
                elems_rest(toks, p, Seq::empty()) == Ok::<(Seq<ExprView>, int), ErrorView>(
                    (exprs_view(items@), self.pos as int),
                ),
            decreases toks.len() - self.pos,
        {
            let element = match self.parse_expression() {
                Ok(e) => e,
                Err(e) => return Err(e),
            };
            proof {
                lemma_exprs_view_push(items@, element);
            }
            items.push(element);
            if self.check(TokenKind::Comma) {
                self.advance();
            } else {
                break;
            }
        }
        Ok(items)
    }

    /// Field initializers `name: value` of a struct literal.
    fn parse_field_inits(&mut self) -> (res: Result<Vec<(String, Expr)>, HuziError>)
        ensures
            lines_from_one(old(self).toks()) ==> (res matches Err(e) ==> e@.line >= 1),
            final(self).tokens == old(self).tokens,
            res is Ok ==> old(self).pos <= final(self).pos <= final(self).toks().len(),
            match res {
                Ok(v) => inits_rest(old(self).toks(), old(self).pos as int, Seq::empty()) == Ok::<
                    (Seq<(Seq<char>, ExprView)>, int),
                    ErrorView,
                >((inits_view(v@), final(self).pos as int)),
                Err(e) => inits_rest(old(self).toks(), old(self).pos as int, Seq::empty()) == Err::<
                    (Seq<(Seq<char>, ExprView)>, int),
                    ErrorView,
                >(e@),
            },
        decreases old(self).toks().len() - old(self).pos, 31int,
    {
        proof {
            use_type_invariant(&*self);
        }
        let ghost toks = self.toks();
        let ghost p = self.pos as int;
        let mut items: Vec<(String, Expr)> = Vec::new();
        proof {
            assert(inits_view(items@) =~= Seq::<(Seq<char>, ExprView)>::empty());
        }
        loop
            invariant_except_break
                self.toks() == toks,
                self.tokens == old(self).tokens,
                toks == old(self).toks(),
                p == old(self).pos,
                p <= self.pos <= toks.len(),
                inits_rest(toks, self.pos as int, inits_view(items@)) == inits_rest(toks, p, Seq::empty()),
            ensures
                self.toks() == toks,
                self.tokens == old(self).tokens,
                p <= self.pos <= toks.len(),
                inits_rest(toks, p, Seq::empty()) == Ok::<(Seq<(Seq<char>, ExprView)>, int), ErrorView>(
                    (inits_view(items@), self.pos as int),
                ),
            decreases toks.len() - self.pos,
        {
            if self.check(TokenKind::RBrace) || self.is_at_end() {
                break;
            }
            let field_name = match self.expect_ident("Expected field name in struct literal") {
                Ok(n) => n,
                Err(e) => return Err(e),
            };
            match self.expect(TokenKind::Colon, "Expected ':' after field name in struct literal") {
                Ok(_) => {},
                Err(e) => return Err(e),
            }
            let value = match self.parse_expression() {
                Ok(v) => v,
                Err(e) => return Err(e),
            };
            proof {
                lemma_inits_view_push(items@, (field_name, value));
            }
            items.push((field_name, value));
            if self.check(TokenKind::Comma) {
                self.advance();
            } else {
                break;
            }
        }
        Ok(items)
    }

    /// Arms `pattern => body` of a match.
    fn parse_arms(&mut self) -> (res: Result<Vec<MatchArm>, HuziError>)
        ensures
            lines_from_one(old(self).toks()) ==> (res matches Err(e) ==> e@.line >= 1),
            final(self).tokens == old(self).tokens,
            res is Ok ==> old(self).pos <= final(self).pos <= final(self).toks().len(),
            match res {
                Ok(v) => arms_rest(old(self).toks(), old(self).pos as int, Seq::empty()) == Ok::<
                    (Seq<(PatternView, Seq<StmtView>)>, int),
                    ErrorView,
                >((arms_view(v@), final(self).pos as int)),
                Err(e) => arms_rest(old(self).toks(), old(self).pos as int, Seq::empty()) == Err::<
                    (Seq<(PatternView, Seq<StmtView>)>, int),
                    ErrorView,
                >(e@),
            },
        decreases old(self).toks().len() - old(self).pos, 31int,
    {
        proof {
            use_type_invariant(&*self);
        }
        let ghost toks = self.toks();
        let ghost p = self.pos as int;
        let mut items: Vec<MatchArm> = Vec::new();
        proof {
            assert(arms_view(items@) =~= Seq::<(PatternView, Seq<StmtView>)>::empty());
        }
        while !self.check(TokenKind::RBrace) && !self.is_at_end()
            invariant
                self.toks() == toks,
                self.tokens == old(self).tokens,
                toks == old(self).toks(),
                p == old(self).pos,
                p <= self.pos <= toks.len(),
                arms_rest(toks, self.pos as int, arms_view(items@)) == arms_rest(toks, p, Seq::empty()),
            decreases toks.len() - self.pos,
        {
            let pattern = match self.parse_pattern() {
                Ok(pat) => pat,
                Err(e) => return Err(e),
            };
            match self.expect(TokenKind::FatArrow, "Expected '=>' after match pattern") {
                Ok(_) => {},
                Err(e) => return Err(e),
            }
            let body = if self.check(TokenKind::LBrace) {
                match self.parse_block() {
                    Ok(b) => b,
                    Err(e) => return Err(e),
                }
            } else {
                let expr = match self.parse_expression() {
                    Ok(e) => e,
                    Err(e) => return Err(e),
                };
                let b = Block { statements: vec![Stmt::Expr(ExprStmt { expr })] };
                proof {
                    crate::ast::lemma_stmts_view_push(Seq::empty(), Stmt::Expr(ExprStmt { expr }));
                    assert(Seq::<Stmt>::empty().push(Stmt::Expr(ExprStmt { expr })) =~= b.statements@);
                    assert(stmts_view(Seq::<Stmt>::empty()) =~= Seq::<StmtView>::empty());
                }
                b
            };
            let arm = MatchArm { pattern, body };
            proof {
                lemma_arms_view_push(items@, arm);
            }
            items.push(arm);
            if self.check(TokenKind::Comma) {
                self.advance();
            }
        }
        Ok(items)
    }

    /// Statements up to `}` or the end.
    fn parse_statements(&mut self) -> (res: Result<Vec<Stmt>, HuziError>)
        ensures
            lines_from_one(old(self).toks()) ==> (res matches Err(e) ==> e@.line >= 1),
            final(self).tokens == old(self).tokens,
            res is Ok ==> old(self).pos <= final(self).pos <= final(self).toks().len(),
            match res {
                Ok(v) => stmts_rest(old(self).toks(), old(self).pos as int, Seq::empty()) == Ok::<
                    (Seq<StmtView>, int),
                    ErrorView,
                >((stmts_view(v@), final(self).pos as int)),
                Err(e) => stmts_rest(old(self).toks(), old(self).pos as int, Seq::empty()) == Err::<
                    (Seq<StmtView>, int),
                    ErrorView,
                >(e@),
            },
        decreases old(self).toks().len() - old(self).pos, 39int,
    {
        proof {
            use_type_invariant(&*self);
        }
        let ghost toks = self.toks();
        let ghost p = self.pos as int;
        let mut items: Vec<Stmt> = Vec::new();
        proof {
            assert(stmts_view(items@) =~= Seq::<StmtView>::empty());
        }
        while !self.check(TokenKind::RBrace) && !self.is_at_end()
            invariant
                self.toks() == toks,
                self.tokens == old(self).tokens,
                toks == old(self).toks(),
                p == old(self).pos,
                p <= self.pos <= toks.len(),
                stmts_rest(toks, self.pos as int, stmts_view(items@)) == stmts_rest(toks, p, Seq::empty()),
            decreases toks.len() - self.pos,
        {
            let stmt = match self.parse_statement() {
                Ok(st) => st,
                Err(e) => return Err(e),
            };
            proof {
                crate::ast::lemma_stmts_view_push(items@, stmt);
            }
            items.push(stmt);
        }
        Ok(items)
    }

    /// Fields `name: type` of a struct definition.
    fn parse_struct_fields(&mut self) -> (res: Result<Vec<StructField>, HuziError>)
        ensures
            lines_from_one(old(self).toks()) ==> (res matches Err(e) ==> e@.line >= 1),
            final(self).tokens == old(self).tokens,
            res is Ok ==> old(self).pos <= final(self).pos <= final(self).toks().len(),
            match res {
                Ok(v) => fields_rest(old(self).toks(), old(self).pos as int, Seq::empty()) == Ok::<
                    (Seq<(Seq<char>, TypeView)>, int),
                    ErrorView,
                >((fields_view(v@), final(self).pos as int)),
                Err(e) => fields_rest(old(self).toks(), old(self).pos as int, Seq::empty()) == Err::<
                    (Seq<(Seq<char>, TypeView)>, int),
                    ErrorView,
                >(e@),
            },
        decreases old(self).toks().len() - old(self).pos, 31int,
    {
        proof {
            use_type_invariant(&*self);
        }
        let ghost toks = self.toks();
        let ghost p = self.pos as int;
        let mut items: Vec<StructField> = Vec::new();
        proof {
            assert(fields_view(items@) =~= Seq::<(Seq<char>, TypeView)>::empty());
        }
        loop
            invariant_except_break
                self.toks() == toks,
                self.tokens == old(self).tokens,
                toks == old(self).toks(),
                p == old(self).pos,
                p <= self.pos <= toks.len(),
                fields_rest(toks, self.pos as int, fields_view(items@)) == fields_rest(toks, p, Seq::empty()),
            ensures
                self.toks() == toks,
                self.tokens == old(self).tokens,
                p <= self.pos <= toks.len(),
                fields_rest(toks, p, Seq::empty()) == Ok::<(Seq<(Seq<char>, TypeView)>, int), ErrorView>(
                    (fields_view(items@), self.pos as int),
                ),
            decreases toks.len() - self.pos,
        {
            if self.check(TokenKind::RBrace) || self.is_at_end() {
                break;
            }
            let field_name = match self.expect_ident("Expected field name") {
                Ok(n) => n,
                Err(e) => return Err(e),
            };
            match self.expect(TokenKind::Colon, "Expected ':' after field name") {
                Ok(_) => {},
                Err(e) => return Err(e),
            }
            let field_type = match self.parse_type() {
                Ok(t) => t,
                Err(e) => return Err(e),
            };
            let field = StructField { name: field_name, field_type };
            proof {
                assert(fields_view(items@.push(field)) =~= fields_view(items@).push((field.name@, field.field_type@)));
            }
            items.push(field);
            if self.check(TokenKind::Comma) {
                self.advance();
            } else {
                break;
            }
        }
        Ok(items)
    }

    /// Variants of an enum definition.
    fn parse_variants(&mut self) -> (res: Result<Vec<EnumVariant>, HuziError>)
        ensures
            lines_from_one(old(self).toks()) ==> (res matches Err(e) ==> e@.line >= 1),
            final(self).tokens == old(self).tokens,
            res is Ok ==> old(self).pos <= final(self).pos <= final(self).toks().len(),
            match res {
                Ok(v) => variants_rest(old(self).toks(), old(self).pos as int, Seq::empty()) == Ok::<
                    (Seq<(Seq<char>, Option<TypeView>)>, int),
                    ErrorView,
                >((variants_view(v@), final(self).pos as int)),
                Err(e) => variants_rest(old(self).toks(), old(self).pos as int, Seq::empty()) == Err::<
                    (Seq<(Seq<char>, Option<TypeView>)>, int),
                    ErrorView,
                >(e@),
            },
        decreases old(self).toks().len() - old(self).pos, 31int,
    {
        proof {
            use_type_invariant(&*self);
        }
        let ghost toks = self.toks();
        let ghost p = self.pos as int;
        let mut items: Vec<EnumVariant> = Vec::new();
        proof {
            assert(variants_view(items@) =~= Seq::<(Seq<char>, Option<TypeView>)>::empty());
        }
        loop
            invariant_except_break
                self.toks() == toks,
                self.tokens == old(self).tokens,
                toks == old(self).toks(),
                p == old(self).pos,
                p <= self.pos <= toks.len(),
                variants_rest(toks, self.pos as int, variants_view(items@)) == variants_rest(toks, p, Seq::empty()),
            ensures
                self.toks() == toks,
                self.tokens == old(self).tokens,
                p <= self.pos <= toks.len(),
                variants_rest(toks, p, Seq::empty()) == Ok::<(Seq<(Seq<char>, Option<TypeView>)>, int), ErrorView>(
                    (variants_view(items@), self.pos as int),
                ),
            decreases toks.len() - self.pos,
        {
            if self.check(TokenKind::RBrace) || self.is_at_end() {
                break;
            }
            let variant_name = match self.expect_ident("Expected variant name") {
                Ok(n) => n,
                Err(e) => return Err(e),
            };
            let payload = if self.check(TokenKind::LParen) {
                self.advance();
                let payload_type = match self.parse_type() {
                    Ok(t) => t,
                    Err(e) => return Err(e),
                };
                if self.check(TokenKind::Comma) {
                    return Err(self.error("Multiple payload values per variant are not supported"));
                }
                match self.expect(TokenKind::RParen, "Expected ')' after variant payload type") {
                    Ok(_) => {},
                    Err(e) => return Err(e),
                }
                Some(payload_type)
            } else {
                None
            };
            let variant = EnumVariant { name: variant_name, payload };
            proof {
                assert(variants_view(items@.push(variant)) =~= variants_view(items@).push(
                    (variant.name@, opt_type_view(variant.payload)),
                ));
            }
            items.push(variant);
            if self.check(TokenKind::Comma) {
                self.advance();
            } else {
                break;
            }
        }
        Ok(items)
    }

    /// Parameters `name: type` of a function.
    fn parse_params(&mut self) -> (res: Result<Vec<FnParam>, HuziError>)
        ensures
            lines_from_one(old(self).toks()) ==> (res matches Err(e) ==> e@.line >= 1),
            final(self).tokens == old(self).tokens,
            res is Ok ==> old(self).pos <= final(self).pos <= final(self).toks().len(),
            match res {
                Ok(v) => params_rest(old(self).toks(), old(self).pos as int, Seq::empty()) == Ok::<
                    (Seq<(Seq<char>, TypeView)>, int),
                    ErrorView,
                >((params_view(v@), final(self).pos as int)),
                Err(e) => params_rest(old(self).toks(), old(self).pos as int, Seq::empty()) == Err::<
                    (Seq<(Seq<char>, TypeView)>, int),
                    ErrorView,
                >(e@),
            },
        decreases old(self).toks().len() - old(self).pos, 31int,
    {
        proof {
            use_type_invariant(&*self);
        }
        let ghost toks = self.toks();
        let ghost p = self.pos as int;
        let mut items: Vec<FnParam> = Vec::new();
        proof {
            assert(params_view(items@) =~= Seq::<(Seq<char>, TypeView)>::empty());
        }
        while !self.check(TokenKind::RParen)
            invariant
                self.toks() == toks,
                self.tokens == old(self).tokens,
                toks == old(self).toks(),
                p == old(self).pos,
                p <= self.pos <= toks.len(),
                params_rest(toks, self.pos as int, params_view(items@)) == params_rest(toks, p, Seq::empty()),
            decreases toks.len() - self.pos,
        {
            let param_name = match self.expect_ident("Expected parameter name") {
                Ok(n) => n,
                Err(e) => return Err(e),
            };
            match self.expect(TokenKind::Colon, "Expected ':' after parameter name") {
                Ok(_) => {},
                Err(e) => return Err(e),
            }
            let param_type = match self.parse_type() {
                Ok(t) => t,
                Err(e) => return Err(e),
            };
            let param = FnParam { name: param_name, param_type };
            proof {
                assert(params_view(items@.push(param)) =~= params_view(items@).push((param.name@, param.param_type@)));
            }
            items.push(param);
            if self.check(TokenKind::Comma) {
                self.advance();
            }
        }
        Ok(items)
    }
}

/// Folding one more branch at the end goes through the innermost else.
proof fn lemma_fold_elifs_push(
    s: Seq<(ExprView, Seq<StmtView>)>,
    x: (ExprView, Seq<StmtView>),
    e: Seq<StmtView>,
)
    ensures
        fold_elifs(s.push(x), e) == fold_elifs(
            s,
            seq![StmtView::Expr(ExprView::If(Box::new(x.0), x.1, e))],
        ),
    decreases s.len(),
{
    let inner = seq![StmtView::Expr(ExprView::If(Box::new(x.0), x.1, e))];
    if s.len() > 0 {
        assert(s.push(x).drop_first() =~= s.drop_first().push(x));
        assert(s.push(x)[0] == s[0]);
        lemma_fold_elifs_push(s.drop_first(), x, e);
        assert(fold_elifs(s.push(x), e) == seq![StmtView::Expr(ExprView::If(
            Box::new(s[0].0),
            s[0].1,
            fold_elifs(s.drop_first().push(x), e),
        ))]);
        assert(fold_elifs(s, inner) == seq![StmtView::Expr(ExprView::If(
            Box::new(s[0].0),
            s[0].1,
            fold_elifs(s.drop_first(), inner),
        ))]);
    } else {
        assert(s.push(x).drop_first() =~= Seq::<(ExprView, Seq<StmtView>)>::empty());
        assert(s.push(x)[0] == x);
        assert(fold_elifs(s.push(x).drop_first(), e) == e);
        assert(fold_elifs(s, inner) == inner);
    }
}

/// Why a source could not be read into a program: its lexing or its
/// parsing failed.
#[derive(Debug)]
pub enum SourceError {
    Lex(HuziError),
    Parse(HuziError),
}

/// Reads a whole source into a program: lexing, then parsing the tokens.
/// Every error it reports carries the position (line counted from 1) where
/// the source went wrong.
pub fn parse_source(source: String) -> (r: Result<Program, SourceError>)
    requires
        source@.len() < usize::MAX,
    ensures
        match r {
            Ok(p) => lex(source@) matches Ok(toks) && program_from(toks, 0, Seq::empty()) == Ok::<
                Seq<StmtView>,
                ErrorView,
            >(p@) && p.spans() == program_spans(toks, 0),
            Err(SourceError::Lex(e)) => lex(source@) == Err::<Seq<SpannedTokenView>, ErrorView>(e@) && e@.line >= 1,
            Err(SourceError::Parse(e)) => lex(source@) matches Ok(toks) && program_from(toks, 0, Seq::empty())
                == Err::<Seq<StmtView>, ErrorView>(e@) && e@.line >= 1,
        },
{
    let ghost src = source@;
    let mut lexer = Lexer::new(source);
    let tokens = match lexer.tokenize() {
        Ok(t) => t,
        Err(e) => return Err(SourceError::Lex(e)),
    };
    proof {
        lemma_lexed_source_readable(src);
        assert(token_views(tokens@) == tokens@.map_values(|t: SpannedToken| t@));
    }
    let mut parser = Parser::new(tokens);
    match parser.parse() {
        Ok(p) => Ok(p),
        Err(e) => Err(SourceError::Parse(e)),
    }
}

} // verus!
