use vstd::prelude::*;
use crate::error::{ErrorView, HuziError};
use crate::text::{alphabetic, numeric, is_alphabetic, is_numeric, is_alphanumeric, collect_text, spells};
use crate::token::{
    SpannedToken, SpannedTokenView, Token, TokenKind, TokenView, plain, with_text, int_token,
    char_token, kind_text,
};

verus! {

// ---------------------------------------------------------------------------
// The language of the lexer, over the characters of the source.
// ---------------------------------------------------------------------------

/// A character that may start an identifier or keyword.
pub open spec fn starts_ident(c: char) -> bool {
    alphabetic(c) || c == '_'
}

/// A character that may continue an identifier or keyword.
pub open spec fn continues_ident(c: char) -> bool {
    alphabetic(c) || numeric(c) || c == '_'
}

pub open spec fn is_digit(c: char) -> bool {
    '0' <= c && c <= '9'
}

/// The value of a digit character.
pub open spec fn digit_value(c: char) -> int {
    c as int - '0' as int
}

/// The value of a string of decimal digits, most significant first.
pub open spec fn digits_value(s: Seq<char>) -> int
    decreases s.len(),
{
    if s.len() == 0 {
        0
    } else {
        digits_value(s.drop_last()) * 10 + digit_value(s.last())
    }
}

/// End of the identifier that continues at `i`: the first index at or after
/// `i` whose character cannot continue an identifier.
pub open spec fn ident_end(src: Seq<char>, i: int) -> int
    decreases src.len() - i,
{
    if 0 <= i < src.len() && continues_ident(src[i]) {
        ident_end(src, i + 1)
    } else {
        i
    }
}

/// End of a line comment that continues at `i`: the index of the next
/// newline, or the end of the source.
pub open spec fn comment_end(src: Seq<char>, i: int) -> int
    decreases src.len() - i,
{
    if 0 <= i < src.len() && src[i] != '\n' {
        comment_end(src, i + 1)
    } else {
        i
    }
}

/// End of a number literal that continues at `i`, and whether it holds a
/// dot: digits, and at most one dot that is not the start of `..`.
pub open spec fn number_scan(src: Seq<char>, i: int, dot: bool) -> (int, bool)
    decreases src.len() - i,
{
    if i < 0 || i >= src.len() {
        (i, dot)
    } else if is_digit(src[i]) {
        number_scan(src, i + 1, dot)
    } else if src[i] == '.' && !dot {
        if i + 1 < src.len() && src[i + 1] == '.' {
            (i, dot)
        } else {
            number_scan(src, i + 1, true)
        }
    } else {
        (i, dot)
    }
}

/// The character that an escape `\c` stands for.
pub open spec fn unescape(c: char) -> char {
    if c == 'n' {
        '\n'
    } else if c == 't' {
        '\t'
    } else if c == 'r' {
        '\r'
    } else if c == '0' {
        '\0'
    } else {
        c
    }
}

/// The body of a string literal that continues at `i` with `acc` read so
/// far: the value and the index after the closing quote, or the index where
/// the literal is found unterminated (end of source or a raw newline).
pub open spec fn string_scan(src: Seq<char>, i: int, acc: Seq<char>) -> Result<(Seq<char>, int), int>
    decreases src.len() - i,
{
    if i < 0 || i >= src.len() {
        Err(i)
    } else if src[i] == '"' {
        Ok((acc, i + 1))
    } else if src[i] == '\n' {
        Err(i)
    } else if src[i] == '\\' {
        if i + 1 >= src.len() {
            Err(i + 1)
        } else {
            string_scan(src, i + 2, acc.push(unescape(src[i + 1])))
        }
    } else {
        string_scan(src, i + 1, acc.push(src[i]))
    }
}

/// A char literal whose opening quote is at `p`: the character and the index
/// after the closing quote, or the index where it is found unterminated.
pub open spec fn char_scan(src: Seq<char>, p: int) -> Result<(char, int), int> {
    let i = p + 1;
    if i >= src.len() {
        Err(i)
    } else {
        let (c, j) = if src[i] == '\\' {
            if i + 1 >= src.len() {
                ('\0', -1)
            } else {
                (unescape(src[i + 1]), i + 2)
            }
        } else {
            (src[i], i + 1)
        };
        if j < 0 {
            Err(i + 1)
        } else if j >= src.len() || src[j] != '\'' {
            Err(j)
        } else {
            Ok((c, j + 1))
        }
    }
}

/// The keyword spelled by `s`, if any.
pub open spec fn keyword_of(s: Seq<char>) -> Option<TokenKind> {
    if s == kind_text(TokenKind::Fn) {
        Some(TokenKind::Fn)
    } else if s == kind_text(TokenKind::Struct) {
        Some(TokenKind::Struct)
    } else if s == kind_text(TokenKind::Enum) {
        Some(TokenKind::Enum)
    } else if s == kind_text(TokenKind::Match) {
        Some(TokenKind::Match)
    } else if s == kind_text(TokenKind::Let) {
        Some(TokenKind::Let)
    } else if s == kind_text(TokenKind::Mut) {
        Some(TokenKind::Mut)
    } else if s == kind_text(TokenKind::If) {
        Some(TokenKind::If)
    } else if s == kind_text(TokenKind::Else) {
        Some(TokenKind::Else)
    } else if s == kind_text(TokenKind::Elif) {
        Some(TokenKind::Elif)
    } else if s == kind_text(TokenKind::For) {
        Some(TokenKind::For)
    } else if s == kind_text(TokenKind::In) {
        Some(TokenKind::In)
    } else if s == kind_text(TokenKind::While) {
        Some(TokenKind::While)
    } else if s == kind_text(TokenKind::Return) {
        Some(TokenKind::Return)
    } else if s == kind_text(TokenKind::Break) {
        Some(TokenKind::Break)
    } else if s == kind_text(TokenKind::Continue) {
        Some(TokenKind::Continue)
    } else if s == kind_text(TokenKind::Import) {
        Some(TokenKind::Import)
    } else if s == kind_text(TokenKind::True) {
        Some(TokenKind::True)
    } else if s == kind_text(TokenKind::False) {
        Some(TokenKind::False)
    } else {
        None
    }
}

/// The kinds of token that a reserved word spells.
pub open spec fn is_keyword_kind(k: TokenKind) -> bool {
    k == TokenKind::Fn || k == TokenKind::Struct || k == TokenKind::Enum || k == TokenKind::Match || k
        == TokenKind::Let || k == TokenKind::Mut || k == TokenKind::If || k == TokenKind::Else || k
        == TokenKind::Elif || k == TokenKind::For || k == TokenKind::In || k == TokenKind::While || k
        == TokenKind::Return || k == TokenKind::Break || k == TokenKind::Continue || k == TokenKind::Import
        || k == TokenKind::True || k == TokenKind::False
}

/// A keyword and its spelling determine each other: each keyword's
/// spelling reads as that very keyword, and a word reads as a keyword only
/// when it is that keyword's spelling.
pub proof fn lemma_keywords_spell_themselves()
    ensures
        forall|k: TokenKind| is_keyword_kind(k) ==> #[trigger] keyword_of(kind_text(k)) == Some(k),
        forall|s: Seq<char>|
            #![trigger keyword_of(s)]
            keyword_of(s) matches Some(k) ==> is_keyword_kind(k) && kind_text(k) == s,
{
    reveal_strlit("fn");
    reveal_strlit("struct");
    reveal_strlit("enum");
    reveal_strlit("match");
    reveal_strlit("let");
    reveal_strlit("mut");
    reveal_strlit("if");
    reveal_strlit("else");
    reveal_strlit("elif");
    reveal_strlit("for");
    reveal_strlit("in");
    reveal_strlit("while");
    reveal_strlit("return");
    reveal_strlit("break");
    reveal_strlit("continue");
    reveal_strlit("import");
    reveal_strlit("true");
    reveal_strlit("false");
    assert forall|k: TokenKind| is_keyword_kind(k) implies #[trigger] keyword_of(kind_text(k)) == Some(k) by {
        let t = kind_text(k);
        assert(t.len() >= 2);
        assert(t != kind_text(TokenKind::Fn) ==> k != TokenKind::Fn);
        if k == TokenKind::Fn {
        } else if k == TokenKind::Struct {
            assert(t[0] != 'f');
        } else if k == TokenKind::Enum {
            assert(t[0] != 'f' && t[0] != 's');
        } else if k == TokenKind::Match {
            assert(t[0] == 'm');
        } else if k == TokenKind::Let {
            assert(t[0] == 'l');
        } else if k == TokenKind::Mut {
            assert(t[0] == 'm' && t[1] == 'u');
        } else if k == TokenKind::If {
            assert(t[0] == 'i' && t[1] == 'f');
        } else if k == TokenKind::Else {
            assert(t[0] == 'e' && t[1] == 'l' && t[2] == 's');
        } else if k == TokenKind::Elif {
            assert(t[0] == 'e' && t[1] == 'l' && t[2] == 'i');
        } else if k == TokenKind::For {
            assert(t[0] == 'f' && t[1] == 'o');
        } else if k == TokenKind::In {
            assert(t[0] == 'i' && t[1] == 'n');
        } else if k == TokenKind::While {
            assert(t[0] == 'w');
        } else if k == TokenKind::Return {
            assert(t[0] == 'r');
        } else if k == TokenKind::Break {
            assert(t[0] == 'b');
        } else if k == TokenKind::Continue {
            assert(t[0] == 'c');
        } else if k == TokenKind::Import {
            assert(t[0] == 'i' && t[1] == 'm');
        } else if k == TokenKind::True {
            assert(t[0] == 't');
        } else {
            assert(t[0] == 'f' && t[1] == 'a');
        }
    }
}

/// The token for the word `s`: its keyword, or an identifier.
pub open spec fn word_token(s: Seq<char>) -> TokenView {
    match keyword_of(s) {
        Some(k) => plain(k),
        None => with_text(TokenKind::Ident, s),
    }
}

/// What reading one token at index `p` gives.
pub enum Scan {
    /// A token and the index just after it.
    Token(TokenView, int),
    /// An error message and the index the error is reported at.
    Fail(Seq<char>, int),
}

/// A token of one or two characters: `second` follows when the next
/// character is `next`.
pub open spec fn one_or_two(src: Seq<char>, p: int, next: char, second: TokenKind, first: TokenKind) -> Scan {
    if p + 1 < src.len() && src[p + 1] == next {
        Scan::Token(plain(second), p + 2)
    } else {
        Scan::Token(plain(first), p + 1)
    }
}

/// Reads the token that starts at `p` (not whitespace, not end of source).
pub open spec fn scan_token(src: Seq<char>, p: int) -> Scan {
    let c = src[p];
    if starts_ident(c) {
        let e = ident_end(src, p);
        Scan::Token(word_token(src.subrange(p, e)), e)
    } else if numeric(c) {
        let (e, dot) = number_scan(src, p, false);
        let text = src.subrange(p, e);
        if dot {
            Scan::Token(with_text(TokenKind::Float, text), e)
        } else if text.len() > 0 && digits_value(text) <= i64::MAX {
            Scan::Token(int_token(digits_value(text) as i64), e)
        } else {
            Scan::Fail("Invalid integer"@, e)
        }
    } else if c == '"' {
        match string_scan(src, p + 1, Seq::empty()) {
            Ok((v, e)) => Scan::Token(with_text(TokenKind::Str, v), e),
            Err(k) => Scan::Fail("Unterminated string"@, k),
        }
    } else if c == '\'' {
        match char_scan(src, p) {
            Ok((ch, e)) => Scan::Token(char_token(ch), e),
            Err(k) => Scan::Fail("Unterminated char"@, k),
        }
    } else if c == '(' {
        Scan::Token(plain(TokenKind::LParen), p + 1)
    } else if c == ')' {
        Scan::Token(plain(TokenKind::RParen), p + 1)
    } else if c == '{' {
        Scan::Token(plain(TokenKind::LBrace), p + 1)
    } else if c == '}' {
        Scan::Token(plain(TokenKind::RBrace), p + 1)
    } else if c == '[' {
        Scan::Token(plain(TokenKind::LBracket), p + 1)
    } else if c == ']' {
        Scan::Token(plain(TokenKind::RBracket), p + 1)
    } else if c == ',' {
        Scan::Token(plain(TokenKind::Comma), p + 1)
    } else if c == ':' {
        one_or_two(src, p, ':', TokenKind::PathSep, TokenKind::Colon)
    } else if c == ';' {
        Scan::Token(plain(TokenKind::Semi), p + 1)
    } else if c == '/' {
        Scan::Token(plain(TokenKind::Slash), p + 1)
    } else if c == '+' {
        Scan::Token(plain(TokenKind::Plus), p + 1)
    } else if c == '-' {
        one_or_two(src, p, '>', TokenKind::Arrow, TokenKind::Minus)
    } else if c == '*' {
        Scan::Token(plain(TokenKind::Star), p + 1)
    } else if c == '%' {
        Scan::Token(plain(TokenKind::Percent), p + 1)
    } else if c == '.' {
        one_or_two(src, p, '.', TokenKind::DotDot, TokenKind::Dot)
    } else if c == '=' {
        if p + 1 < src.len() && src[p + 1] == '=' {
            Scan::Token(plain(TokenKind::EqualEqual), p + 2)
        } else {
            one_or_two(src, p, '>', TokenKind::FatArrow, TokenKind::Equal)
        }
    } else if c == '!' {
        one_or_two(src, p, '=', TokenKind::BangEqual, TokenKind::Bang)
    } else if c == '<' {
        one_or_two(src, p, '=', TokenKind::LessEqual, TokenKind::Less)
    } else if c == '>' {
        one_or_two(src, p, '=', TokenKind::GreaterEqual, TokenKind::Greater)
    } else if c == '&' {
        if p + 1 < src.len() && src[p + 1] == '&' {
            Scan::Token(plain(TokenKind::AmpAmp), p + 2)
        } else {
            Scan::Fail("Unexpected character '&' (did you mean '&&'?)"@, p + 1)
        }
    } else if c == '|' {
        if p + 1 < src.len() && src[p + 1] == '|' {
            Scan::Token(plain(TokenKind::BarBar), p + 2)
        } else {
            Scan::Fail("Unexpected character '|' (did you mean '||'?)"@, p + 1)
        }
    } else {
        Scan::Fail("Unexpected character '"@ + seq![c] + "'"@, p)
    }
}

/// A position in the source: index, line and column.
pub struct Cursor {
    pub pos: int,
    pub line: int,
    pub column: int,
}

/// Skips blanks, newlines and line comments (`//` or `#` to the end of the
/// line). A newline moves to column 1 of the next line; every other
/// character moves one column right.
pub open spec fn skip_blank(src: Seq<char>, cur: Cursor) -> Cursor
    decreases src.len() - cur.pos,
{
    let p = cur.pos;
    if p < 0 || p >= src.len() {
        cur
    } else {
        let c = src[p];
        if c == ' ' || c == '\t' || c == '\r' {
            skip_blank(src, Cursor { pos: p + 1, line: cur.line, column: cur.column + 1 })
        } else if c == '\n' {
            skip_blank(src, Cursor { pos: p + 1, line: cur.line + 1, column: 1 })
        } else if c == '#' || (c == '/' && p + 1 < src.len() && src[p + 1] == '/') {
            let e = comment_end(src, p);
            if e < src.len() {
                proof {
                    lemma_comment_end(src, p);
                }
                skip_blank(src, Cursor { pos: e + 1, line: cur.line + 1, column: 1 })
            } else {
                Cursor { pos: e, line: cur.line, column: cur.column + (e - p) }
            }
        } else {
            cur
        }
    }
}

/// The next token from `cur`: after skipping blanks, either the end-of-input
/// token (at the cursor reached) or the token read there, with the cursor
/// after it; or the error, reported at its line and the column of the index
/// it names.
pub open spec fn next_token_from(src: Seq<char>, cur: Cursor) -> Result<(SpannedTokenView, Cursor), ErrorView> {
    let at = skip_blank(src, cur);
    if at.pos >= src.len() {
        Ok((SpannedTokenView { token: plain(TokenKind::Eof), line: at.line as usize, column: at.column as usize }, at))
    } else {
        match scan_token(src, at.pos) {
            Scan::Token(t, e) => Ok((
                SpannedTokenView { token: t, line: at.line as usize, column: at.column as usize },
                Cursor { pos: e, line: at.line, column: at.column + (e - at.pos) },
            )),
            Scan::Fail(m, k) => Err(ErrorView {
                message: m,
                line: at.line as usize,
                column: (at.column + (k - at.pos)) as usize,
            }),
        }
    }
}

/// All tokens from `cur` up to and including the end-of-input token, or the
/// first error.
pub open spec fn tokens_from(src: Seq<char>, cur: Cursor) -> Result<Seq<SpannedTokenView>, ErrorView>
    decreases src.len() - cur.pos,
{
    if cur.pos < 0 || cur.pos > src.len() {
        Ok(Seq::empty())
    } else {
        match next_token_from(src, cur) {
            Err(e) => Err(e),
            Ok((t, next)) => if t.token.kind == TokenKind::Eof {
                Ok(seq![t])
            } else {
                proof {
                    lemma_next_token_progress(src, cur);
                }
                match tokens_from(src, next) {
                    Ok(rest) => Ok(seq![t] + rest),
                    Err(e) => Err(e),
                }
            },
        }
    }
}

/// The tokens of a whole source, read from line 1, column 1.
pub open spec fn lex(src: Seq<char>) -> Result<Seq<SpannedTokenView>, ErrorView> {
    tokens_from(src, Cursor { pos: 0, line: 1, column: 1 })
}

// ---------------------------------------------------------------------------
// Facts about the scanners: each consumes what it claims, within the source.
// ---------------------------------------------------------------------------

pub proof fn lemma_ident_end(src: Seq<char>, i: int)
    requires
        0 <= i <= src.len(),
    ensures
        i <= ident_end(src, i) <= src.len(),
        forall|j: int| i <= j < ident_end(src, i) ==> continues_ident(#[trigger] src[j]),
        ident_end(src, i) < src.len() ==> !continues_ident(src[ident_end(src, i)]),
    decreases src.len() - i,
{
    if i < src.len() && continues_ident(src[i]) {
        lemma_ident_end(src, i + 1);
    }
}

pub proof fn lemma_comment_end(src: Seq<char>, i: int)
    requires
        0 <= i <= src.len(),
    ensures
        i <= comment_end(src, i) <= src.len(),
        comment_end(src, i) < src.len() ==> src[comment_end(src, i)] == '\n',
    decreases src.len() - i,
{
    if i < src.len() && src[i] != '\n' {
        lemma_comment_end(src, i + 1);
    }
}

pub proof fn lemma_number_scan(src: Seq<char>, i: int, dot: bool)
    requires
        0 <= i <= src.len(),
    ensures
        i <= number_scan(src, i, dot).0 <= src.len(),
        dot ==> number_scan(src, i, dot).1,
        !dot && number_scan(src, i, dot).1 ==> i < number_scan(src, i, dot).0,
        !number_scan(src, i, dot).1 ==> forall|j: int|
            i <= j < number_scan(src, i, dot).0 ==> is_digit(#[trigger] src[j]),
    decreases src.len() - i,
{
    if i < src.len() {
        if is_digit(src[i]) {
            lemma_number_scan(src, i + 1, dot);
        } else if src[i] == '.' && !dot {
            if !(i + 1 < src.len() && src[i + 1] == '.') {
                lemma_number_scan(src, i + 1, true);
            }
        }
    }
}

pub proof fn lemma_string_scan(src: Seq<char>, i: int, acc: Seq<char>)
    requires
        0 <= i <= src.len(),
    ensures
        string_scan(src, i, acc) matches Ok((_, e)) ==> i < e <= src.len(),
        string_scan(src, i, acc) matches Err(k) ==> i <= k <= src.len(),
    decreases src.len() - i,
{
    if i < src.len() && src[i] != '"' && src[i] != '\n' {
        if src[i] == '\\' {
            if i + 1 < src.len() {
                lemma_string_scan(src, i + 2, acc.push(unescape(src[i + 1])));
            }
        } else {
            lemma_string_scan(src, i + 1, acc.push(src[i]));
        }
    }
}

/// Every token read at `p` ends after `p` and within the source; every error
/// is reported at or after `p`, within the source.
pub proof fn lemma_scan_token_bounds(src: Seq<char>, p: int)
    requires
        0 <= p < src.len(),
    ensures
        scan_token(src, p) matches Scan::Token(_, e) ==> p < e <= src.len(),
        scan_token(src, p) matches Scan::Fail(_, k) ==> p <= k <= src.len(),
{
    lemma_ident_end(src, p);
    lemma_number_scan(src, p, false);
    lemma_string_scan(src, p + 1, Seq::empty());
}

pub proof fn lemma_skip_blank(src: Seq<char>, cur: Cursor)
    requires
        0 <= cur.pos <= src.len(),
        1 <= cur.line <= cur.pos + 1,
        1 <= cur.column <= cur.pos + 1,
    ensures
        cur.pos <= skip_blank(src, cur).pos <= src.len(),
        1 <= skip_blank(src, cur).line <= skip_blank(src, cur).pos + 1,
        1 <= skip_blank(src, cur).column <= skip_blank(src, cur).pos + 1,
    decreases src.len() - cur.pos,
{
    let p = cur.pos;
    if p < src.len() {
        let c = src[p];
        if c == ' ' || c == '\t' || c == '\r' {
            lemma_skip_blank(src, Cursor { pos: p + 1, line: cur.line, column: cur.column + 1 });
        } else if c == '\n' {
            lemma_skip_blank(src, Cursor { pos: p + 1, line: cur.line + 1, column: 1 });
        } else if c == '#' || (c == '/' && p + 1 < src.len() && src[p + 1] == '/') {
            lemma_comment_end(src, p);
            let e = comment_end(src, p);
            if e < src.len() {
                lemma_skip_blank(src, Cursor { pos: e + 1, line: cur.line + 1, column: 1 });
            }
        }
    }
}

/// Reading a token other than end of input moves forward; the cursor stays
/// within the source and its line and column stay within bounds.
pub proof fn lemma_next_token_progress(src: Seq<char>, cur: Cursor)
    requires
        0 <= cur.pos <= src.len(),
    ensures
        next_token_from(src, cur) matches Ok((t, next)) ==> {
            &&& cur.pos <= next.pos <= src.len()
            &&& t.token.kind != TokenKind::Eof ==> cur.pos < next.pos
        },
{
    if 1 <= cur.line <= cur.pos + 1 && 1 <= cur.column <= cur.pos + 1 {
        lemma_skip_blank(src, cur);
    } else {
        lemma_skip_blank_any(src, cur);
    }
    let at = skip_blank(src, cur);
    if at.pos < src.len() {
        lemma_scan_token_bounds(src, at.pos);
        lemma_ident_end(src, at.pos);
    }
}

/// A cursor within the source, with line and column counted from 1.
pub open spec fn cursor_ok(src: Seq<char>, cur: Cursor) -> bool {
    &&& 0 <= cur.pos <= src.len()
    &&& 1 <= cur.line <= cur.pos + 1
    &&& 1 <= cur.column <= cur.pos + 1
}

/// Lexing from a cursor within the source gives tokens, or an error, whose
/// lines and columns count from 1.
pub proof fn lemma_tokens_positioned(src: Seq<char>, cur: Cursor)
    requires
        src.len() < usize::MAX,
        cursor_ok(src, cur),
    ensures
        match tokens_from(src, cur) {
            Ok(v) => forall|i: int| 0 <= i < v.len() ==> (#[trigger] v[i]).line >= 1 && v[i].column >= 1,
            Err(e) => e.line >= 1 && e.column >= 1,
        },
    decreases src.len() - cur.pos,
{
    lemma_skip_blank(src, cur);
    lemma_next_token_progress(src, cur);
    let at = skip_blank(src, cur);
    if at.pos < src.len() {
        lemma_scan_token_bounds(src, at.pos);
    }
    match next_token_from(src, cur) {
        Err(_) => {},
        Ok((t, next)) => {
            if t.token.kind == TokenKind::Eof {
                assert(seq![t][0] == t);
            } else {
                assert(cursor_ok(src, next));
                lemma_tokens_positioned(src, next);
                match tokens_from(src, next) {
                    Ok(rest) => {
                        let v = seq![t] + rest;
                        assert forall|i: int| 0 <= i < v.len() implies (#[trigger] v[i]).line >= 1 && v[i].column
                            >= 1 by {
                            if i > 0 {
                                assert(v[i] == rest[i - 1]);
                            }
                        }
                    },
                    Err(_) => {},
                }
            }
        },
    }
}

/// The tokens of a whole source, or its lexing error, stand at lines and
/// columns counted from 1: a lexing error always has a position.
pub proof fn lemma_lex_positioned(src: Seq<char>)
    requires
        src.len() < usize::MAX,
    ensures
        match lex(src) {
            Ok(v) => forall|i: int| 0 <= i < v.len() ==> (#[trigger] v[i]).line >= 1 && v[i].column >= 1,
            Err(e) => e.line >= 1 && e.column >= 1,
        },
{
    lemma_tokens_positioned(src, Cursor { pos: 0, line: 1, column: 1 });
}

/// `a` stands at or after `b`: on a later line, or on the same line at the
/// same or a later column.
pub open spec fn at_or_after(a: Cursor, b: Cursor) -> bool {
    a.line > b.line || (a.line == b.line && a.column >= b.column)
}

/// Token `a` stands before token `b`: on an earlier line, or on the same
/// line at an earlier column.
pub open spec fn stands_before(a: SpannedTokenView, b: SpannedTokenView) -> bool {
    a.line < b.line || (a.line == b.line && a.column < b.column)
}

proof fn lemma_skip_blank_ahead(src: Seq<char>, cur: Cursor)
    requires
        0 <= cur.pos <= src.len(),
    ensures
        at_or_after(skip_blank(src, cur), cur),
    decreases src.len() - cur.pos,
{
    let p = cur.pos;
    if p < src.len() {
        let c = src[p];
        if c == ' ' || c == '\t' || c == '\r' {
            lemma_skip_blank_ahead(src, Cursor { pos: p + 1, line: cur.line, column: cur.column + 1 });
        } else if c == '\n' {
            lemma_skip_blank_ahead(src, Cursor { pos: p + 1, line: cur.line + 1, column: 1 });
        } else if c == '#' || (c == '/' && p + 1 < src.len() && src[p + 1] == '/') {
            lemma_comment_end(src, p);
            let e = comment_end(src, p);
            if e < src.len() {
                lemma_skip_blank_ahead(src, Cursor { pos: e + 1, line: cur.line + 1, column: 1 });
            }
        }
    }
}

/// Lexing from a cursor gives tokens in source order, none of them before
/// the cursor.
proof fn lemma_tokens_ordered_from(src: Seq<char>, cur: Cursor)
    requires
        src.len() < usize::MAX,
        cursor_ok(src, cur),
    ensures
        tokens_from(src, cur) matches Ok(v) ==> {
            &&& forall|i: int, j: int| 0 <= i < j < v.len() ==> stands_before(#[trigger] v[i], #[trigger] v[j])
            &&& forall|k: int| 0 <= k < v.len() ==> ((#[trigger] v[k]).line > cur.line || (v[k].line == cur.line
                && v[k].column >= cur.column))
        },
    decreases src.len() - cur.pos,
{
    lemma_skip_blank(src, cur);
    lemma_skip_blank_ahead(src, cur);
    lemma_next_token_progress(src, cur);
    let at = skip_blank(src, cur);
    if at.pos < src.len() {
        lemma_scan_token_bounds(src, at.pos);
    }
    match next_token_from(src, cur) {
        Err(_) => {},
        Ok((t, next)) => {
            assert(t.line == at.line && t.column == at.column);
            if t.token.kind == TokenKind::Eof {
                assert(seq![t][0] == t);
            } else {
                assert(cursor_ok(src, next));
                assert(next.line == at.line && next.column > at.column);
                lemma_tokens_ordered_from(src, next);
                match tokens_from(src, next) {
                    Ok(rest) => {
                        let v = seq![t] + rest;
                        assert forall|k: int| 0 <= k < v.len() implies ((#[trigger] v[k]).line > cur.line || (
                        v[k].line == cur.line && v[k].column >= cur.column)) by {
                            if k > 0 {
                                assert(v[k] == rest[k - 1]);
                            }
                        }
                        assert forall|i: int, j: int| 0 <= i < j < v.len() implies stands_before(
                            #[trigger] v[i],
                            #[trigger] v[j],
                        ) by {
                            assert(v[j] == rest[j - 1]);
                            if i > 0 {
                                assert(v[i] == rest[i - 1]);
                            } else {
                                assert(v[i] == t);
                            }
                        }
                    },
                    Err(_) => {},
                }
            }
        },
    }
}

/// The tokens of a source stand in source order: each one on an earlier
/// line than the next, or on the same line at an earlier column.
pub proof fn lemma_lex_in_source_order(src: Seq<char>)
    requires
        src.len() < usize::MAX,
    ensures
        lex(src) matches Ok(v) ==> forall|i: int, j: int|
            0 <= i < j < v.len() ==> stands_before(#[trigger] v[i], #[trigger] v[j]),
{
    lemma_tokens_ordered_from(src, Cursor { pos: 0, line: 1, column: 1 });
}

/// Whether `v` ends with an end-of-input token and holds no other.
pub open spec fn ends_with_single_eof(v: Seq<SpannedTokenView>) -> bool {
    &&& v.len() > 0
    &&& v.last().token.kind == TokenKind::Eof
    &&& forall|i: int| 0 <= i < v.len() - 1 ==> #[trigger] v[i].token.kind != TokenKind::Eof
}

/// Lexing from any position within the source gives, when it succeeds,
/// tokens that end with one end-of-input token and hold no other.
pub proof fn lemma_tokens_end_with_eof(src: Seq<char>, cur: Cursor)
    requires
        0 <= cur.pos <= src.len(),
    ensures
        tokens_from(src, cur) matches Ok(v) ==> ends_with_single_eof(v),
    decreases src.len() - cur.pos,
{
    lemma_next_token_progress(src, cur);
    match next_token_from(src, cur) {
        Err(_) => {},
        Ok((t, next)) => {
            if t.token.kind == TokenKind::Eof {
                assert(seq![t].last() == t);
            } else {
                lemma_tokens_end_with_eof(src, next);
                match tokens_from(src, next) {
                    Ok(rest) => {
                        let v = seq![t] + rest;
                        assert(v.last() == rest.last());
                        assert forall|i: int| 0 <= i < v.len() - 1 implies #[trigger] v[i].token.kind
                            != TokenKind::Eof by {
                            if i > 0 {
                                assert(v[i] == rest[i - 1]);
                            }
                        }
                    },
                    Err(_) => {},
                }
            }
        },
    }
}

/// The tokens of a whole source, when lexing succeeds, end with one
/// end-of-input token and hold no other.
pub proof fn lemma_lex_ends_with_eof(src: Seq<char>)
    ensures
        lex(src) matches Ok(v) ==> ends_with_single_eof(v),
{
    lemma_tokens_end_with_eof(src, Cursor { pos: 0, line: 1, column: 1 });
}

pub proof fn lemma_skip_blank_any(src: Seq<char>, cur: Cursor)
    requires
        0 <= cur.pos <= src.len(),
    ensures
        cur.pos <= skip_blank(src, cur).pos <= src.len(),
    decreases src.len() - cur.pos,
{
    let p = cur.pos;
    if p < src.len() {
        let c = src[p];
        if c == ' ' || c == '\t' || c == '\r' {
            lemma_skip_blank_any(src, Cursor { pos: p + 1, line: cur.line, column: cur.column + 1 });
        } else if c == '\n' {
            lemma_skip_blank_any(src, Cursor { pos: p + 1, line: cur.line + 1, column: 1 });
        } else if c == '#' || (c == '/' && p + 1 < src.len() && src[p + 1] == '/') {
            lemma_comment_end(src, p);
            let e = comment_end(src, p);
            if e < src.len() {
                lemma_skip_blank_any(src, Cursor { pos: e + 1, line: cur.line + 1, column: 1 });
            }
        }
    }
}

/// Whether a line comment (`#`, or `//`) starts at index `p`.
pub open spec fn comment_starts(src: Seq<char>, p: int) -> bool {
    0 <= p < src.len() && (src[p] == '#' || (src[p] == '/' && p + 1 < src.len() && src[p + 1] == '/'))
}

/// A line comment yields no token: reading from its first character gives
/// exactly what reading from the start of the next line gives, tokens,
/// lines and columns alike.
pub proof fn lemma_comment_skipped(src: Seq<char>, cur: Cursor)
    requires
        comment_starts(src, cur.pos),
        comment_end(src, cur.pos) < src.len(),
    ensures
        ({
            let after = Cursor { pos: comment_end(src, cur.pos) + 1, line: cur.line + 1, column: 1 };
            &&& skip_blank(src, cur) == skip_blank(src, after)
            &&& next_token_from(src, cur) == next_token_from(src, after)
            &&& tokens_from(src, cur) == tokens_from(src, after)
        }),
{
    lemma_comment_end(src, cur.pos);
}

/// A line comment that runs to the end of the source leaves only the
/// end-of-input token, just past the comment.
pub proof fn lemma_final_comment_skipped(src: Seq<char>, cur: Cursor)
    requires
        comment_starts(src, cur.pos),
        comment_end(src, cur.pos) == src.len(),
    ensures
        tokens_from(src, cur) == Ok::<Seq<SpannedTokenView>, ErrorView>(
            seq![SpannedTokenView {
                token: plain(TokenKind::Eof),
                line: cur.line as usize,
                column: (cur.column + (src.len() - cur.pos)) as usize,
            }],
        ),
{
}

// ---------------------------------------------------------------------------
// The lexer.
// ---------------------------------------------------------------------------

/// Turns source text into tokens, tracking line and column.
pub struct Lexer {
    source: Vec<char>,
    pos: usize,
    line: usize,
    column: usize,
}

impl Lexer {
    #[verifier::type_invariant]
    spec fn well_formed(self) -> bool {
        &&& self.source@.len() < usize::MAX
        &&& self.pos <= self.source@.len()
        &&& 1 <= self.line <= self.pos + 1
        &&& 1 <= self.column <= self.pos + 1
    }

    /// The characters being read.
    pub closed spec fn source(&self) -> Seq<char> {
        self.source@
    }

    /// Where reading stands.
    pub closed spec fn cursor(&self) -> Cursor {
        Cursor { pos: self.pos as int, line: self.line as int, column: self.column as int }
    }

    /// A lexer at the start (line 1, column 1) of `source`.
    pub fn new(source: String) -> (l: Lexer)
        requires
            source@.len() < usize::MAX,
        ensures
            l.source() == source@,
            l.cursor() == (Cursor { pos: 0, line: 1, column: 1 }),
    {
        let mut chars: Vec<char> = Vec::new();
        for c in it: source.as_str().chars()
            invariant
                it.seq() == source@,
                chars@ == it.seq().take(it.index() as int),
        {
            chars.push(c);
            assert(chars@ =~= it.seq().take(it.index() + 1));
        }
        assert(chars@ =~= source@);
        Lexer { source: chars, pos: 0, line: 1, column: 1 }
    }

    /// All tokens up to and including the end-of-input token, or the first
    /// error.
    pub fn tokenize(&mut self) -> (res: Result<Vec<SpannedToken>, HuziError>)
        ensures
            final(self).source() == old(self).source(),
            match res {
                Ok(v) => tokens_from(old(self).source(), old(self).cursor()) == Ok::<
                    Seq<SpannedTokenView>,
                    ErrorView,
                >(v@.map_values(|t: SpannedToken| t@)),
                Err(e) => tokens_from(old(self).source(), old(self).cursor()) == Err::<
                    Seq<SpannedTokenView>,
                    ErrorView,
                >(e@),
            },
            res matches Ok(v) ==> ends_with_single_eof(v@.map_values(|t: SpannedToken| t@)),
            res matches Ok(v) ==> forall|i: int| 0 <= i < v@.len() ==> (#[trigger] v@[i]).line >= 1 && v@[i].column >= 1,
            res matches Err(e) ==> e@.line >= 1 && e@.column >= 1,
    {
        proof {
            use_type_invariant(&*self);
            lemma_tokens_positioned(self.source@, self.cursor());
        }
        let ghost src = self.source@;
        let ghost start = self.cursor();
        let mut tokens: Vec<SpannedToken> = Vec::new();
        loop
            invariant
                self.source@ == src,
                src == old(self).source@,
                start == old(self).cursor(),
                0 <= start.pos <= self.cursor().pos <= src.len(),
                tokens_from(src, start) == match tokens_from(src, self.cursor()) {
                    Ok(rest) => Ok(tokens@.map_values(|t: SpannedToken| t@) + rest),
                    Err(e) => Err::<Seq<SpannedTokenView>, ErrorView>(e),
                },
                match tokens_from(src, start) {
                    Ok(v) => forall|i: int| 0 <= i < v.len() ==> (#[trigger] v[i]).line >= 1 && v[i].column >= 1,
                    Err(e) => e.line >= 1 && e.column >= 1,
                },
            decreases src.len() - self.cursor().pos,
        {
            proof {
                use_type_invariant(&*self);
                lemma_next_token_progress(src, self.cursor());
            }
            let ghost before = self.cursor();
            let token = match self.next_token() {
                Ok(t) => t,
                Err(e) => return Err(e),
            };
            let is_eof = matches!(token.token, Token::Eof);
            let ghost old_tokens = tokens@.map_values(|t: SpannedToken| t@);
            tokens.push(token);
            proof {
                assert(tokens@.map_values(|t: SpannedToken| t@) =~= old_tokens.push(token@));
                if !is_eof {
                    match tokens_from(src, self.cursor()) {
                        Ok(rest) => {
                            assert(old_tokens + (seq![token@] + rest) =~= old_tokens.push(token@) + rest);
                        },
                        Err(_) => {},
                    }
                } else {
                    assert(old_tokens + seq![token@] =~= old_tokens.push(token@));
                }
            }
            if is_eof {
                proof {
                    lemma_tokens_end_with_eof(src, start);
                    assert(tokens_from(src, start) == Ok::<Seq<SpannedTokenView>, ErrorView>(
                        tokens@.map_values(|t: SpannedToken| t@),
                    ));
                    assert forall|i: int| 0 <= i < tokens@.len() implies (#[trigger] tokens@[i]).line >= 1
                        && tokens@[i].column >= 1 by {
                        assert(tokens@.map_values(|t: SpannedToken| t@)[i] == tokens@[i]@);
                    }
                }
                return Ok(tokens);
            }
        }
    }

    /// The next token, after blanks and comments.
    fn next_token(&mut self) -> (res: Result<SpannedToken, HuziError>)
        ensures
            final(self).source@ == old(self).source@,
            match res {
                Ok(t) => next_token_from(old(self).source@, old(self).cursor()) == Ok::<
                    (SpannedTokenView, Cursor),
                    ErrorView,
                >((t@, final(self).cursor())),
                Err(e) => next_token_from(old(self).source@, old(self).cursor()) matches Err(
                    e2,
                ) && e2 == e@,
            },
    {
        self.skip_whitespace();
        proof {
            use_type_invariant(&*self);
        }
        let (line, column) = (self.line, self.column);
        if self.is_at_end() {
            return Ok(SpannedToken { token: Token::Eof, line, column });
        }
        let ghost at = self.pos as int;
        proof {
            lemma_scan_token_bounds(self.source@, at);
        }
        let c = self.peek();
        let token = if is_alphabetic(c) || c == '_' {
            self.read_ident()
        } else if is_numeric(c) {
            self.read_number()?
        } else if c == '"' {
            self.read_string()?
        } else if c == '\'' {
            self.read_char()?
        } else if c == '(' {
            self.single(Token::LParen)
        } else if c == ')' {
            self.single(Token::RParen)
        } else if c == '{' {
            self.single(Token::LBrace)
        } else if c == '}' {
            self.single(Token::RBrace)
        } else if c == '[' {
            self.single(Token::LBracket)
        } else if c == ']' {
            self.single(Token::RBracket)
        } else if c == ',' {
            self.single(Token::Comma)
        } else if c == ':' {
            self.read_pair(':', Token::PathSep, Token::Colon)
        } else if c == ';' {
            self.single(Token::Semi)
        } else if c == '/' {
            self.read_slash()
        } else if c == '+' {
            self.single(Token::Plus)
        } else if c == '-' {
            self.read_pair('>', Token::Arrow, Token::Minus)
        } else if c == '*' {
            self.single(Token::Star)
        } else if c == '%' {
            self.single(Token::Percent)
        } else if c == '.' {
            self.read_pair('.', Token::DotDot, Token::Dot)
        } else if c == '=' {
            self.read_equal()
        } else if c == '!' {
            self.read_pair('=', Token::BangEqual, Token::Bang)
        } else if c == '<' {
            self.read_pair('=', Token::LessEqual, Token::Less)
        } else if c == '>' {
            self.read_pair('=', Token::GreaterEqual, Token::Greater)
        } else if c == '&' {
            self.read_amp()?
        } else if c == '|' {
            self.read_bar()?
        } else {
            let mut message = "Unexpected character '".to_owned();
            crate::text::push_char(&mut message, c);
            crate::text::push_char(&mut message, '\'');
            proof {
                assert(message@ =~= "Unexpected character '"@ + seq![c] + "'"@) by {
                    reveal_strlit("'");
                }
            }
            return Err(HuziError::from_message(message, line, column));
        };
        Ok(SpannedToken { token, line, column })
    }

    /// A one-character token.
    fn single(&mut self, token: Token) -> (t: Token)
        requires
            old(self).pos < old(self).source@.len(),
        ensures
            t == token,
            final(self).source@ == old(self).source@,
            final(self).cursor() == advanced(old(self).cursor(), 1),
    {
        self.advance();
        token
    }

    /// `first`, or `second` when the next character is `next`.
    fn read_pair(&mut self, next: char, second: Token, first: Token) -> (t: Token)
        requires
            old(self).pos < old(self).source@.len(),
            second@ == plain(second@.kind),
            first@ == plain(first@.kind),
        ensures
            final(self).source@ == old(self).source@,
            one_or_two(old(self).source@, old(self).pos as int, next, second@.kind, first@.kind)
                == Scan::Token(t@, final(self).pos as int),
            t == first || t == second,
            final(self).cursor() == advanced(
                old(self).cursor(),
                final(self).pos - old(self).pos,
            ),
    {
        self.advance();
        if !self.is_at_end() && self.peek() == next {
            self.advance();
            second
        } else {
            first
        }
    }

    fn skip_whitespace(&mut self)
        ensures
            final(self).source@ == old(self).source@,
            final(self).cursor() == skip_blank(old(self).source@, old(self).cursor()),
    {
        proof {
            use_type_invariant(&*self);
        }
        let ghost src = self.source@;
        let ghost target = skip_blank(src, self.cursor());
        while !self.is_at_end()
            invariant
                self.source@ == src,
                skip_blank(src, self.cursor()) == target,
            ensures
                self.source@ == src,
                self.cursor() == target,
            decreases src.len() - self.pos,
        {
            proof {
                use_type_invariant(&*self);
            }
            let c = self.peek();
            if c == ' ' || c == '\t' || c == '\r' {
                self.advance();
            } else if c == '\n' {
                self.advance();
                self.line = self.line + 1;
                self.column = 1;
            } else if c == '/' {
                if self.pos + 1 < self.source.len() && self.source[self.pos + 1] == '/' {
                    proof {
                        lemma_comment_end(src, self.pos as int);
                    }
                    self.skip_line_comment();
                } else {
                    break;
                }
            } else if c == '#' {
                proof {
                    lemma_comment_end(src, self.pos as int);
                }
                self.skip_line_comment();
            } else {
                break;
            }
        }
    }

    /// Skips to the end of the line, and over the newline.
    fn skip_line_comment(&mut self)
        requires
            old(self).pos < old(self).source@.len(),
        ensures
            final(self).source@ == old(self).source@,
            ({
                let src = old(self).source@;
                let p = old(self).pos as int;
                let e = comment_end(src, p);
                let cur = old(self).cursor();
                final(self).cursor() == if e < src.len() {
                    Cursor { pos: e + 1, line: cur.line + 1, column: 1 }
                } else {
                    Cursor { pos: e, line: cur.line, column: cur.column + (e - p) }
                }
            }),
    {
        proof {
            use_type_invariant(&*self);
            lemma_tokens_positioned(self.source@, self.cursor());
        }
        let ghost src = self.source@;
        let ghost start = self.cursor();
        while !self.is_at_end() && self.peek() != '\n'
            invariant
                self.source@ == src,
                start.pos <= self.pos,
                comment_end(src, self.pos as int) == comment_end(src, start.pos),
                self.cursor() == advanced(start, self.pos - start.pos),
            decreases src.len() - self.pos,
        {
            proof {
                use_type_invariant(&*self);
            }
            self.advance();
        }
        if !self.is_at_end() && self.peek() == '\n' {
            self.advance();
            self.line = self.line + 1;
            self.column = 1;
        }
    }

    fn read_ident(&mut self) -> (t: Token)
        requires
            old(self).pos < old(self).source@.len(),
            starts_ident(old(self).source@[old(self).pos as int]),
        ensures
            final(self).source@ == old(self).source@,
            scan_token(old(self).source@, old(self).pos as int) == Scan::Token(t@, final(self).pos as int),
            final(self).cursor() == advanced(old(self).cursor(), final(self).pos - old(self).pos),
    {
        proof {
            use_type_invariant(&*self);
        }
        let ghost src = self.source@;
        let ghost start_cur = self.cursor();
        let start = self.pos;
        while !self.is_at_end() && (is_alphanumeric(self.peek()) || self.peek() == '_')
            invariant
                self.source@ == src,
                start <= self.pos,
                ident_end(src, self.pos as int) == ident_end(src, start as int),
                self.cursor() == advanced(start_cur, self.pos - start),
            decreases src.len() - self.pos,
        {
            proof {
                use_type_invariant(&*self);
            }
            self.advance();
        }
        proof {
            use_type_invariant(&*self);
        }
        let end = self.pos;
        let kind = self.keyword(start, end);
        match kind {
            Some(k) => Self::keyword_token(k),
            None => Token::Ident(collect_text(&self.source, start, end)),
        }
    }

    /// The keyword spelled by `source[start..end]`, if any.
    fn keyword(&self, start: usize, end: usize) -> (k: Option<TokenKind>)
        requires
            start <= end <= self.source@.len(),
        ensures
            k == keyword_of(self.source@.subrange(start as int, end as int)),
            k matches Some(kw) ==> kw != TokenKind::Int && kw != TokenKind::Float && kw != TokenKind::Str
                && kw != TokenKind::Char && kw != TokenKind::Ident,
    {
        let kinds = [
            TokenKind::Fn,
            TokenKind::Struct,
            TokenKind::Enum,
            TokenKind::Match,
            TokenKind::Let,
            TokenKind::Mut,
            TokenKind::If,
            TokenKind::Else,
            TokenKind::Elif,
            TokenKind::For,
            TokenKind::In,
            TokenKind::While,
            TokenKind::Return,
            TokenKind::Break,
            TokenKind::Continue,
            TokenKind::Import,
            TokenKind::True,
            TokenKind::False,
        ];
        let ghost word = self.source@.subrange(start as int, end as int);
        let mut i: usize = 0;
        while i < 18
            invariant
                i <= 18,
                word == self.source@.subrange(start as int, end as int),
                start <= end <= self.source@.len(),
                kinds@ == seq![
                    TokenKind::Fn,
                    TokenKind::Struct,
                    TokenKind::Enum,
                    TokenKind::Match,
                    TokenKind::Let,
                    TokenKind::Mut,
                    TokenKind::If,
                    TokenKind::Else,
                    TokenKind::Elif,
                    TokenKind::For,
                    TokenKind::In,
                    TokenKind::While,
                    TokenKind::Return,
                    TokenKind::Break,
                    TokenKind::Continue,
                    TokenKind::Import,
                    TokenKind::True,
                    TokenKind::False,
                ],
                forall|j: int| 0 <= j < i ==> word != kind_text(#[trigger] kinds@[j]),
            decreases 18 - i,
        {
            if spells(&self.source, start, end, kinds[i].text()) {
                return Some(kinds[i]);
            }
            i = i + 1;
        }
        None
    }

    /// The token of a keyword kind.
    fn keyword_token(k: TokenKind) -> (t: Token)
        requires
            k != TokenKind::Int && k != TokenKind::Float && k != TokenKind::Str && k != TokenKind::Char
                && k != TokenKind::Ident,
        ensures
            t@ == plain(k),
    {
        match k {
            TokenKind::Fn => Token::Fn,
            TokenKind::Struct => Token::Struct,
            TokenKind::Enum => Token::Enum,
            TokenKind::Match => Token::Match,
            TokenKind::Let => Token::Let,
            TokenKind::Mut => Token::Mut,
            TokenKind::If => Token::If,
            TokenKind::Else => Token::Else,
            TokenKind::Elif => Token::Elif,
            TokenKind::For => Token::For,
            TokenKind::In => Token::In,
            TokenKind::While => Token::While,
            TokenKind::Return => Token::Return,
            TokenKind::Break => Token::Break,
            TokenKind::Continue => Token::Continue,
            TokenKind::Import => Token::Import,
            TokenKind::True => Token::True,
            TokenKind::False => Token::False,
            TokenKind::LParen => Token::LParen,
            TokenKind::RParen => Token::RParen,
            TokenKind::LBrace => Token::LBrace,
            TokenKind::RBrace => Token::RBrace,
            TokenKind::LBracket => Token::LBracket,
            TokenKind::RBracket => Token::RBracket,
            TokenKind::Comma => Token::Comma,
            TokenKind::Colon => Token::Colon,
            TokenKind::PathSep => Token::PathSep,
            TokenKind::Semi => Token::Semi,
            TokenKind::Slash => Token::Slash,
            TokenKind::Plus => Token::Plus,
            TokenKind::Minus => Token::Minus,
            TokenKind::Arrow => Token::Arrow,
            TokenKind::Star => Token::Star,
            TokenKind::Percent => Token::Percent,
            TokenKind::Dot => Token::Dot,
            TokenKind::DotDot => Token::DotDot,
            TokenKind::Equal => Token::Equal,
            TokenKind::EqualEqual => Token::EqualEqual,
            TokenKind::FatArrow => Token::FatArrow,
            TokenKind::Bang => Token::Bang,
            TokenKind::BangEqual => Token::BangEqual,
            TokenKind::Less => Token::Less,
            TokenKind::LessEqual => Token::LessEqual,
            TokenKind::Greater => Token::Greater,
            TokenKind::GreaterEqual => Token::GreaterEqual,
            TokenKind::AmpAmp => Token::AmpAmp,
            TokenKind::BarBar => Token::BarBar,
            _ => Token::Eof,
        }
    }

    fn read_number(&mut self) -> (res: Result<Token, HuziError>)
        requires
            old(self).pos < old(self).source@.len(),
            numeric(old(self).source@[old(self).pos as int]),
            !alphabetic(old(self).source@[old(self).pos as int]),
            old(self).source@[old(self).pos as int] != '_',
        ensures
            final(self).source@ == old(self).source@,
            final(self).cursor() == advanced(old(self).cursor(), final(self).pos - old(self).pos),
            match res {
                Ok(t) => scan_token(old(self).source@, old(self).pos as int) == Scan::Token(
                    t@,
                    final(self).pos as int,
                ),
                Err(e) => scan_token(old(self).source@, old(self).pos as int) matches Scan::Fail(m, k)
                    && e@ == (ErrorView { message: m, line: final(self).line, column: final(self).column })
                    && k == final(self).pos,
            },
    {
        proof {
            use_type_invariant(&*self);
        }
        let ghost src = self.source@;
        let ghost start_cur = self.cursor();
        let start = self.pos;
        let mut has_dot = false;
        loop
            invariant_except_break
                self.source@ == src,
                start <= self.pos,
                number_scan(src, self.pos as int, has_dot) == number_scan(src, start as int, false),
                self.cursor() == advanced(start_cur, self.pos - start),
            ensures
                self.source@ == src,
                start <= self.pos,
                (self.pos as int, has_dot) == number_scan(src, start as int, false),
                self.cursor() == advanced(start_cur, self.pos - start),
            decreases src.len() - self.pos,
        {
            proof {
                use_type_invariant(&*self);
            }
            if self.is_at_end() {
                break;
            }
            let c = self.peek();
            if '0' <= c && c <= '9' {
                self.advance();
            } else if c == '.' && !has_dot {
                if self.pos + 1 < self.source.len() && self.source[self.pos + 1] == '.' {
                    break;
                }
                has_dot = true;
                self.advance();
            } else {
                break;
            }
        }
        proof {
            use_type_invariant(&*self);
            lemma_number_scan(src, start as int, false);
        }
        let end = self.pos;
        if has_dot {
            Ok(Token::Float(collect_text(&self.source, start, end)))
        } else {
            match parse_digits(&self.source, start, end) {
                Some(v) => Ok(Token::Int(v)),
                None => Err(HuziError::new("Invalid integer", self.line, self.column)),
            }
        }
    }

    fn read_string(&mut self) -> (res: Result<Token, HuziError>)
        requires
            !alphabetic(old(self).source@[old(self).pos as int]),
            !numeric(old(self).source@[old(self).pos as int]),
            old(self).pos < old(self).source@.len(),
            old(self).source@[old(self).pos as int] == '"',
        ensures
            final(self).source@ == old(self).source@,
            final(self).cursor() == advanced(old(self).cursor(), final(self).pos - old(self).pos),
            match res {
                Ok(t) => string_scan(old(self).source@, old(self).pos + 1, Seq::empty()) == Ok::<
                    (Seq<char>, int),
                    int,
                >((t@.text, final(self).pos as int)) && t@ == with_text(TokenKind::Str, t@.text),
                Err(e) => string_scan(old(self).source@, old(self).pos + 1, Seq::empty()) == Err::<
                    (Seq<char>, int),
                    int,
                >(final(self).pos as int) && e@ == (ErrorView {
                    message: "Unterminated string"@,
                    line: final(self).line,
                    column: final(self).column,
                }),
            },
    {
        proof {
            use_type_invariant(&*self);
        }
        let ghost src = self.source@;
        let ghost start_cur = self.cursor();
        let start = self.pos;
        self.advance();
        let mut value = String::new();
        while !self.is_at_end() && self.peek() != '"'
            invariant
                self.source@ == src,
                src == old(self).source@,
                start_cur == old(self).cursor(),
                start < self.pos,
                string_scan(src, self.pos as int, value@) == string_scan(src, start + 1, Seq::empty()),
                self.cursor() == advanced(start_cur, self.pos - start),
            decreases src.len() - self.pos,
        {
            proof {
                use_type_invariant(&*self);
            }
            if self.peek() == '\n' {
                return Err(HuziError::new("Unterminated string", self.line, self.column));
            }
            if self.peek() == '\\' {
                self.advance();
                if self.is_at_end() {
                    return Err(HuziError::new("Unterminated string", self.line, self.column));
                }
                let escaped = unescape_char(self.peek());
                crate::text::push_char(&mut value, escaped);
            } else {
                crate::text::push_char(&mut value, self.peek());
            }
            self.advance();
        }
        if self.is_at_end() {
            return Err(HuziError::new("Unterminated string", self.line, self.column));
        }
        self.advance();
        Ok(Token::String(value))
    }

    fn read_char(&mut self) -> (res: Result<Token, HuziError>)
        requires
            !alphabetic(old(self).source@[old(self).pos as int]),
            !numeric(old(self).source@[old(self).pos as int]),
            old(self).pos < old(self).source@.len(),
            old(self).source@[old(self).pos as int] == '\'',
        ensures
            final(self).source@ == old(self).source@,
            final(self).cursor() == advanced(old(self).cursor(), final(self).pos - old(self).pos),
            match res {
                Ok(t) => char_scan(old(self).source@, old(self).pos as int) == Ok::<(char, int), int>(
                    (t@.ch, final(self).pos as int),
                ) && t@ == char_token(t@.ch),
                Err(e) => char_scan(old(self).source@, old(self).pos as int) == Err::<(char, int), int>(
                    final(self).pos as int,
                ) && e@ == (ErrorView {
                    message: "Unterminated char"@,
                    line: final(self).line,
                    column: final(self).column,
                }),
            },
    {
        proof {
            use_type_invariant(&*self);
        }
        self.advance();
        if self.is_at_end() {
            return Err(HuziError::new("Unterminated char", self.line, self.column));
        }
        let c = if self.peek() == '\\' {
            self.advance();
            if self.is_at_end() {
                return Err(HuziError::new("Unterminated char", self.line, self.column));
            }
            unescape_char(self.peek())
        } else {
            self.peek()
        };
        self.advance();
        if self.is_at_end() || self.peek() != '\'' {
            return Err(HuziError::new("Unterminated char", self.line, self.column));
        }
        self.advance();
        Ok(Token::Char(c))
    }

    fn read_slash(&mut self) -> (t: Token)
        requires
            old(self).pos < old(self).source@.len(),
        ensures
            t == Token::Slash,
            final(self).source@ == old(self).source@,
            final(self).cursor() == advanced(old(self).cursor(), 1),
    {
        // A `//` at the start of a token was already skipped as a comment.
        self.advance();
        Token::Slash
    }

    fn read_equal(&mut self) -> (t: Token)
        requires
            !alphabetic(old(self).source@[old(self).pos as int]),
            !numeric(old(self).source@[old(self).pos as int]),
            old(self).pos < old(self).source@.len(),
            old(self).source@[old(self).pos as int] == '=',
        ensures
            final(self).source@ == old(self).source@,
            scan_token(old(self).source@, old(self).pos as int) == Scan::Token(t@, final(self).pos as int),
            final(self).cursor() == advanced(old(self).cursor(), final(self).pos - old(self).pos),
    {
        proof {
            use_type_invariant(&*self);
        }
        self.advance();
        if !self.is_at_end() && self.peek() == '=' {
            self.advance();
            Token::EqualEqual
        } else if !self.is_at_end() && self.peek() == '>' {
            self.advance();
            Token::FatArrow
        } else {
            Token::Equal
        }
    }

    fn read_amp(&mut self) -> (res: Result<Token, HuziError>)
        requires
            !alphabetic(old(self).source@[old(self).pos as int]),
            !numeric(old(self).source@[old(self).pos as int]),
            old(self).pos < old(self).source@.len(),
            old(self).source@[old(self).pos as int] == '&',
        ensures
            final(self).source@ == old(self).source@,
            final(self).cursor() == advanced(old(self).cursor(), final(self).pos - old(self).pos),
            match res {
                Ok(t) => scan_token(old(self).source@, old(self).pos as int) == Scan::Token(
                    t@,
                    final(self).pos as int,
                ),
                Err(e) => scan_token(old(self).source@, old(self).pos as int) matches Scan::Fail(m, k)
                    && e@ == (ErrorView { message: m, line: final(self).line, column: final(self).column })
                    && k == final(self).pos,
            },
    {
        proof {
            use_type_invariant(&*self);
        }
        self.advance();
        if !self.is_at_end() && self.peek() == '&' {
            self.advance();
            Ok(Token::AmpAmp)
        } else {
            Err(HuziError::new("Unexpected character '&' (did you mean '&&'?)", self.line, self.column))
        }
    }

    fn read_bar(&mut self) -> (res: Result<Token, HuziError>)
        requires
            !alphabetic(old(self).source@[old(self).pos as int]),
            !numeric(old(self).source@[old(self).pos as int]),
            old(self).pos < old(self).source@.len(),
            old(self).source@[old(self).pos as int] == '|',
        ensures
            final(self).source@ == old(self).source@,
            final(self).cursor() == advanced(old(self).cursor(), final(self).pos - old(self).pos),
            match res {
                Ok(t) => scan_token(old(self).source@, old(self).pos as int) == Scan::Token(
                    t@,
                    final(self).pos as int,
                ),
                Err(e) => scan_token(old(self).source@, old(self).pos as int) matches Scan::Fail(m, k)
                    && e@ == (ErrorView { message: m, line: final(self).line, column: final(self).column })
                    && k == final(self).pos,
            },
    {
        proof {
            use_type_invariant(&*self);
        }
        self.advance();
        if !self.is_at_end() && self.peek() == '|' {
            self.advance();
            Ok(Token::BarBar)
        } else {
            Err(HuziError::new("Unexpected character '|' (did you mean '||'?)", self.line, self.column))
        }
    }

    fn peek(&self) -> (c: char)
        requires
            self.pos < self.source@.len(),
        ensures
            c == self.source@[self.pos as int],
    {
        self.source[self.pos]
    }

    /// Moves one character right, unless at the end.
    fn advance(&mut self)
        ensures
            final(self).source@ == old(self).source@,
            final(self).cursor() == if old(self).pos < old(self).source@.len() {
                advanced(old(self).cursor(), 1)
            } else {
                old(self).cursor()
            },
    {
        proof {
            use_type_invariant(&*self);
        }
        if !self.is_at_end() {
            self.pos = self.pos + 1;
            self.column = self.column + 1;
        }
    }

    fn is_at_end(&self) -> (b: bool)
        ensures
            b == (self.pos >= self.source@.len()),
    {
        self.pos >= self.source.len()
    }
}

/// The cursor `n` characters further on the same line.
pub open spec fn advanced(cur: Cursor, n: int) -> Cursor {
    Cursor { pos: cur.pos + n, line: cur.line, column: cur.column + n }
}

fn unescape_char(c: char) -> (r: char)
    ensures
        r == unescape(c),
{
    if c == 'n' {
        '\n'
    } else if c == 't' {
        '\t'
    } else if c == 'r' {
        '\r'
    } else if c == '0' {
        '\0'
    } else {
        c
    }
}

/// The value of the digits `src[start..end]`, if there are any and it fits
/// in an `i64`.
fn parse_digits(src: &Vec<char>, start: usize, end: usize) -> (v: Option<i64>)
    requires
        start <= end <= src@.len(),
        forall|j: int| start <= j < end ==> is_digit(#[trigger] src@[j]),
    ensures
        ({
            let text = src@.subrange(start as int, end as int);
            v == if text.len() > 0 && digits_value(text) <= i64::MAX {
                Some(digits_value(text) as i64)
            } else {
                None
            }
        }),
{
    if start == end {
        return None;
    }
    let mut value: i64 = 0;
    let mut i = start;
    while i < end
        invariant
            start <= i <= end <= src@.len(),
            forall|j: int| start <= j < end ==> is_digit(#[trigger] src@[j]),
            value as int == digits_value(src@.subrange(start as int, i as int)),
            value >= 0,
        decreases end - i,
    {
        let d = (src[i] as u32 - '0' as u32) as i64;
        proof {
            assert(src@.subrange(start as int, i + 1).drop_last() =~= src@.subrange(start as int, i as int));
        }
        if value > (i64::MAX - d) / 10 {
            proof {
                lemma_digits_grow(src@.subrange(start as int, end as int), (i + 1 - start) as int);
                assert(src@.subrange(start as int, end as int).subrange(0, i + 1 - start) =~= src@.subrange(start as int, i + 1));
            }
            return None;
        }
        value = value * 10 + d;
        i = i + 1;
    }
    Some(value)
}

/// A longer string of digits has at least the value of its prefix.
proof fn lemma_digits_grow(s: Seq<char>, n: int)
    requires
        0 <= n <= s.len(),
        forall|j: int| 0 <= j < s.len() ==> is_digit(#[trigger] s[j]),
    ensures
        digits_value(s.subrange(0, n)) <= digits_value(s),
    decreases s.len() - n,
{
    if n < s.len() {
        lemma_digits_grow(s, n + 1);
        assert(s.subrange(0, n + 1).drop_last() =~= s.subrange(0, n));
        lemma_digits_nonneg(s.subrange(0, n));
    } else {
        assert(s.subrange(0, n) =~= s);
    }
}

proof fn lemma_digits_nonneg(s: Seq<char>)
    requires
        forall|j: int| 0 <= j < s.len() ==> is_digit(#[trigger] s[j]),
    ensures
        digits_value(s) >= 0,
    decreases s.len(),
{
    if s.len() > 0 {
        lemma_digits_nonneg(s.drop_last());
    }
}

} // verus!
