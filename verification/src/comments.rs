use vstd::prelude::*;
use crate::error::ErrorView;
use crate::lexer::{
    Cursor, Scan, char_scan, comment_end, comment_starts, continues_ident, ident_end, is_digit, lemma_comment_end,
    lemma_next_token_progress, lex, next_token_from, number_scan, scan_token, skip_blank, string_scan,
    tokens_from,
};
use crate::token::SpannedTokenView;

verus! {

// ---------------------------------------------------------------------------
// Line comments are invisible to the rest of the source: what the lexer reads
// after a point depends only on the characters from that point on, and
// replacing a line break by a comment and that line break changes no token,
// line or column.
// ---------------------------------------------------------------------------

/// `x` from index `ox` on and `y` from index `oy` on hold the same
/// characters.
pub open spec fn same_tail(x: Seq<char>, ox: int, y: Seq<char>, oy: int) -> bool {
    &&& 0 <= ox <= x.len()
    &&& 0 <= oy <= y.len()
    &&& x.len() - ox == y.len() - oy
    &&& forall|i: int| ox <= i < x.len() ==> #[trigger] x[i] == y[i - (ox - oy)]
}

/// A scan result with its indices moved `d` to the right.
pub open spec fn shift_scan(s: Scan, d: int) -> Scan {
    match s {
        Scan::Token(t, e) => Scan::Token(t, e + d),
        Scan::Fail(m, k) => Scan::Fail(m, k + d),
    }
}

/// A cursor moved `d` to the right, on the same line and column.
pub open spec fn shift_cursor(c: Cursor, d: int) -> Cursor {
    Cursor { pos: c.pos + d, line: c.line, column: c.column }
}

proof fn lemma_ident_end_shift(x: Seq<char>, ox: int, y: Seq<char>, oy: int, i: int)
    requires
        same_tail(x, ox, y, oy),
        ox <= i <= x.len(),
    ensures
        ident_end(x, i) == ident_end(y, i - (ox - oy)) + (ox - oy),
    decreases x.len() - i,
{
    if i < x.len() {
        assert(x[i] == y[i - (ox - oy)]);
        if continues_ident(x[i]) {
            lemma_ident_end_shift(x, ox, y, oy, i + 1);
        }
    }
}

proof fn lemma_comment_end_shift(x: Seq<char>, ox: int, y: Seq<char>, oy: int, i: int)
    requires
        same_tail(x, ox, y, oy),
        ox <= i <= x.len(),
    ensures
        comment_end(x, i) == comment_end(y, i - (ox - oy)) + (ox - oy),
    decreases x.len() - i,
{
    if i < x.len() {
        assert(x[i] == y[i - (ox - oy)]);
        if x[i] != '\n' {
            lemma_comment_end_shift(x, ox, y, oy, i + 1);
        }
    }
}

proof fn lemma_number_scan_shift(x: Seq<char>, ox: int, y: Seq<char>, oy: int, i: int, dot: bool)
    requires
        same_tail(x, ox, y, oy),
        ox <= i <= x.len(),
    ensures
        number_scan(x, i, dot).0 == number_scan(y, i - (ox - oy), dot).0 + (ox - oy),
        number_scan(x, i, dot).1 == number_scan(y, i - (ox - oy), dot).1,
    decreases x.len() - i,
{
    if i < x.len() {
        assert(x[i] == y[i - (ox - oy)]);
        if i + 1 < x.len() {
            assert(x[i + 1] == y[i + 1 - (ox - oy)]);
        }
        if is_digit(x[i]) {
            lemma_number_scan_shift(x, ox, y, oy, i + 1, dot);
        } else if x[i] == '.' && !dot {
            if !(i + 1 < x.len() && x[i + 1] == '.') {
                lemma_number_scan_shift(x, ox, y, oy, i + 1, true);
            }
        }
    }
}

proof fn lemma_string_scan_shift(x: Seq<char>, ox: int, y: Seq<char>, oy: int, i: int, acc: Seq<char>)
    requires
        same_tail(x, ox, y, oy),
        ox <= i <= x.len(),
    ensures
        match (string_scan(x, i, acc), string_scan(y, i - (ox - oy), acc)) {
            (Ok((v, e)), Ok((w, f))) => v == w && e == f + (ox - oy),
            (Err(k), Err(l)) => k == l + (ox - oy),
            _ => false,
        },
    decreases x.len() - i,
{
    if i < x.len() {
        assert(x[i] == y[i - (ox - oy)]);
        if i + 1 < x.len() {
            assert(x[i + 1] == y[i + 1 - (ox - oy)]);
        }
        if x[i] == '"' {
        } else if x[i] == '\n' {
        } else if x[i] == '\\' {
            if i + 1 < x.len() {
                lemma_string_scan_shift(x, ox, y, oy, i + 2, acc.push(crate::lexer::unescape(x[i + 1])));
            }
        } else {
            lemma_string_scan_shift(x, ox, y, oy, i + 1, acc.push(x[i]));
        }
    }
}

proof fn lemma_char_scan_shift(x: Seq<char>, ox: int, y: Seq<char>, oy: int, p: int)
    requires
        same_tail(x, ox, y, oy),
        ox <= p < x.len(),
    ensures
        match (char_scan(x, p), char_scan(y, p - (ox - oy))) {
            (Ok((c, e)), Ok((d, f))) => c == d && e == f + (ox - oy),
            (Err(k), Err(l)) => k == l + (ox - oy),
            _ => false,
        },
{
    let d = ox - oy;
    if p + 1 < x.len() {
        assert(x[p + 1] == y[p + 1 - d]);
    }
    if p + 2 < x.len() {
        assert(x[p + 2] == y[p + 2 - d]);
    }
    if p + 3 < x.len() {
        assert(x[p + 3] == y[p + 3 - d]);
    }
}

proof fn lemma_scan_token_shift(x: Seq<char>, ox: int, y: Seq<char>, oy: int, p: int)
    requires
        same_tail(x, ox, y, oy),
        ox <= p < x.len(),
    ensures
        scan_token(x, p) == shift_scan(scan_token(y, p - (ox - oy)), ox - oy),
{
    let d = ox - oy;
    assert(x[p] == y[p - d]);
    if p + 1 < x.len() {
        assert(x[p + 1] == y[p + 1 - d]);
    }
    lemma_ident_end_shift(x, ox, y, oy, p);
    lemma_number_scan_shift(x, ox, y, oy, p, false);
    lemma_string_scan_shift(x, ox, y, oy, p + 1, Seq::empty());
    lemma_char_scan_shift(x, ox, y, oy, p);
    crate::lexer::lemma_ident_end(x, p);
    crate::lexer::lemma_number_scan(x, p, false);
    let ie = ident_end(x, p);
    assert(x.subrange(p, ie) =~= y.subrange(p - d, ie - d));
    let ne = number_scan(x, p, false).0;
    assert(x.subrange(p, ne) =~= y.subrange(p - d, ne - d));
}

proof fn lemma_skip_blank_shift(x: Seq<char>, ox: int, y: Seq<char>, oy: int, cur: Cursor)
    requires
        same_tail(x, ox, y, oy),
        ox <= cur.pos <= x.len(),
    ensures
        skip_blank(x, cur) == shift_cursor(skip_blank(y, shift_cursor(cur, -(ox - oy))), ox - oy),
    decreases x.len() - cur.pos,
{
    let d = ox - oy;
    let p = cur.pos;
    if p < x.len() {
        assert(x[p] == y[p - d]);
        if p + 1 < x.len() {
            assert(x[p + 1] == y[p + 1 - d]);
        }
        let c = x[p];
        if c == ' ' || c == '\t' || c == '\r' {
            lemma_skip_blank_shift(x, ox, y, oy, Cursor { pos: p + 1, line: cur.line, column: cur.column + 1 });
        } else if c == '\n' {
            lemma_skip_blank_shift(x, ox, y, oy, Cursor { pos: p + 1, line: cur.line + 1, column: 1 });
        } else if c == '#' || (c == '/' && p + 1 < x.len() && x[p + 1] == '/') {
            lemma_comment_end_shift(x, ox, y, oy, p);
            lemma_comment_end(x, p);
            let e = comment_end(x, p);
            if e < x.len() {
                lemma_skip_blank_shift(x, ox, y, oy, Cursor { pos: e + 1, line: cur.line + 1, column: 1 });
            }
        }
    }
}

proof fn lemma_next_token_shift(x: Seq<char>, ox: int, y: Seq<char>, oy: int, cur: Cursor)
    requires
        same_tail(x, ox, y, oy),
        ox <= cur.pos <= x.len(),
    ensures
        match (next_token_from(x, cur), next_token_from(y, shift_cursor(cur, -(ox - oy)))) {
            (Ok((t, next)), Ok((u, n2))) => t == u && next == shift_cursor(n2, ox - oy),
            (Err(e), Err(f)) => e == f,
            _ => false,
        },
{
    let d = ox - oy;
    lemma_skip_blank_shift(x, ox, y, oy, cur);
    crate::lexer::lemma_skip_blank_any(x, cur);
    let at = skip_blank(x, cur);
    if at.pos < x.len() {
        lemma_scan_token_shift(x, ox, y, oy, at.pos);
    }
}

/// What the lexer reads from a point depends only on the characters from
/// that point on (and on the line and column it starts at).
pub proof fn lemma_tokens_depend_on_tail(x: Seq<char>, ox: int, y: Seq<char>, oy: int, cur: Cursor)
    requires
        same_tail(x, ox, y, oy),
        ox <= cur.pos <= x.len(),
    ensures
        tokens_from(x, cur) == tokens_from(y, shift_cursor(cur, -(ox - oy))),
    decreases x.len() - cur.pos,
{
    let d = ox - oy;
    lemma_next_token_shift(x, ox, y, oy, cur);
    lemma_next_token_progress(x, cur);
    match next_token_from(x, cur) {
        Ok((t, next)) => {
            if t.token.kind != crate::token::TokenKind::Eof {
                lemma_tokens_depend_on_tail(x, ox, y, oy, next);
            }
        },
        Err(_) => {},
    }
}

/// `y` continues `a` with a blank (a space or a line break) that no word
/// continues through.
pub open spec fn extends_with_blank(a: Seq<char>, y: Seq<char>) -> bool {
    &&& a.len() < y.len()
    &&& forall|i: int| 0 <= i < a.len() ==> #[trigger] y[i] == a[i]
    &&& (y[a.len() as int] == ' ' || y[a.len() as int] == '\n')
    &&& !continues_ident(y[a.len() as int])
}

/// At index `n`, `y` ends the line and the next one starts at `resume`:
/// either a line break stands at `n`, or a space and then a line comment
/// that ends at a line break.
pub open spec fn line_resumes(y: Seq<char>, n: int, resume: int) -> bool {
    ||| 0 <= n < y.len() && y[n] == '\n' && resume == n + 1
    ||| 0 <= n < y.len() && y[n] == ' ' && comment_starts(y, n + 1) && comment_end(y, n + 1) + 1 == resume
        && resume <= y.len()
}

proof fn lemma_ident_end_extends(a: Seq<char>, y: Seq<char>, i: int)
    requires
        extends_with_blank(a, y),
        0 <= i <= a.len(),
    ensures
        ident_end(y, i) == ident_end(a, i),
    decreases a.len() - i,
{
    if i < a.len() {
        assert(y[i] == a[i]);
        if continues_ident(a[i]) {
            lemma_ident_end_extends(a, y, i + 1);
        }
    }
}

proof fn lemma_number_scan_extends(a: Seq<char>, y: Seq<char>, i: int, dot: bool)
    requires
        extends_with_blank(a, y),
        0 <= i <= a.len(),
    ensures
        number_scan(y, i, dot) == number_scan(a, i, dot),
    decreases a.len() - i,
{
    if i < a.len() {
        assert(y[i] == a[i]);
        if i + 1 < a.len() {
            assert(y[i + 1] == a[i + 1]);
        }
        if is_digit(a[i]) {
            lemma_number_scan_extends(a, y, i + 1, dot);
        } else if a[i] == '.' && !dot {
            if !(i + 1 < a.len() && a[i + 1] == '.') {
                lemma_number_scan_extends(a, y, i + 1, true);
            }
        }
    }
}

proof fn lemma_string_scan_extends(a: Seq<char>, y: Seq<char>, i: int, acc: Seq<char>)
    requires
        extends_with_blank(a, y),
        0 <= i <= a.len(),
        string_scan(a, i, acc) is Ok,
    ensures
        string_scan(y, i, acc) == string_scan(a, i, acc),
    decreases a.len() - i,
{
    if i < a.len() {
        assert(y[i] == a[i]);
        if i + 1 < a.len() {
            assert(y[i + 1] == a[i + 1]);
        }
        if a[i] == '"' {
        } else if a[i] == '\n' {
        } else if a[i] == '\\' {
            if i + 1 < a.len() {
                lemma_string_scan_extends(a, y, i + 2, acc.push(crate::lexer::unescape(a[i + 1])));
            }
        } else {
            lemma_string_scan_extends(a, y, i + 1, acc.push(a[i]));
        }
    }
}

proof fn lemma_char_scan_extends(a: Seq<char>, y: Seq<char>, p: int)
    requires
        extends_with_blank(a, y),
        0 <= p < a.len(),
        char_scan(a, p) is Ok,
    ensures
        char_scan(y, p) == char_scan(a, p),
{
    if p + 1 < a.len() {
        assert(y[p + 1] == a[p + 1]);
    }
    if p + 2 < a.len() {
        assert(y[p + 2] == a[p + 2]);
    }
    if p + 3 < a.len() {
        assert(y[p + 3] == a[p + 3]);
    }
}

proof fn lemma_scan_token_extends(a: Seq<char>, y: Seq<char>, p: int)
    requires
        extends_with_blank(a, y),
        0 <= p < a.len(),
        scan_token(a, p) is Token,
    ensures
        scan_token(y, p) == scan_token(a, p),
{
    assert(y[p] == a[p]);
    if p + 1 < a.len() {
        assert(y[p + 1] == a[p + 1]);
    }
    lemma_ident_end_extends(a, y, p);
    lemma_number_scan_extends(a, y, p, false);
    crate::lexer::lemma_ident_end(a, p);
    crate::lexer::lemma_number_scan(a, p, false);
    let c = a[p];
    if crate::lexer::starts_ident(c) || crate::text::numeric(c) {
    } else if c == '"' {
        lemma_string_scan_extends(a, y, p + 1, Seq::empty());
    } else if c == '\'' {
        lemma_char_scan_extends(a, y, p);
    }
    let ie = ident_end(a, p);
    assert(y.subrange(p, ie) =~= a.subrange(p, ie));
    let ne = number_scan(a, p, false).0;
    assert(y.subrange(p, ne) =~= a.subrange(p, ne));
}

proof fn lemma_comment_end_extends(a: Seq<char>, y: Seq<char>, i: int)
    requires
        extends_with_blank(a, y),
        0 <= i <= a.len(),
    ensures
        comment_end(a, i) < a.len() ==> comment_end(y, i) == comment_end(a, i),
        comment_end(a, i) >= a.len() ==> comment_end(y, i) == comment_end(y, a.len() as int),
    decreases a.len() - i,
{
    if i < a.len() {
        assert(y[i] == a[i]);
        if a[i] != '\n' {
            lemma_comment_end_extends(a, y, i + 1);
        }
    }
}

proof fn lemma_skip_blank_extends(a: Seq<char>, y: Seq<char>, resume: int, cur: Cursor)
    requires
        extends_with_blank(a, y),
        line_resumes(y, a.len() as int, resume),
        0 <= cur.pos <= a.len(),
    ensures
        skip_blank(a, cur).pos < a.len() ==> skip_blank(y, cur) == skip_blank(a, cur),
        skip_blank(a, cur).pos >= a.len() ==> skip_blank(y, cur) == skip_blank(
            y,
            Cursor { pos: resume, line: skip_blank(a, cur).line + 1, column: 1 },
        ),
    decreases a.len() - cur.pos,
{
    let n = a.len() as int;
    let p = cur.pos;
    if p == n {
        if y[n] == ' ' {
            let next = Cursor { pos: n + 1, line: cur.line, column: cur.column + 1 };
            assert(skip_blank(y, cur) == skip_blank(y, next));
            lemma_comment_end(y, n + 1);
        }
    } else {
        assert(y[p] == a[p]);
        if p + 1 < n {
            assert(y[p + 1] == a[p + 1]);
        }
        let c = a[p];
        if c == ' ' || c == '\t' || c == '\r' {
            lemma_skip_blank_extends(a, y, resume, Cursor { pos: p + 1, line: cur.line, column: cur.column + 1 });
        } else if c == '\n' {
            lemma_skip_blank_extends(a, y, resume, Cursor { pos: p + 1, line: cur.line + 1, column: 1 });
        } else if c == '#' || (c == '/' && p + 1 < n && a[p + 1] == '/') {
            lemma_comment_end_extends(a, y, p);
            lemma_comment_end(a, p);
            let e = comment_end(a, p);
            if e < n {
                lemma_skip_blank_extends(a, y, resume, Cursor { pos: e + 1, line: cur.line + 1, column: 1 });
            } else {
                if y[n] == ' ' {
                    assert(comment_end(y, n) == comment_end(y, n + 1));
                }
            }
        }
    }
}

/// Two sources that continue `a` with a line ending (see `line_resumes`)
/// and then the same characters read the same tokens from any point of `a`
/// from which `a` itself reads without error.
proof fn lemma_tokens_extend(
    a: Seq<char>,
    y1: Seq<char>,
    r1: int,
    y2: Seq<char>,
    r2: int,
    cur: Cursor,
)
    requires
        extends_with_blank(a, y1),
        line_resumes(y1, a.len() as int, r1),
        extends_with_blank(a, y2),
        line_resumes(y2, a.len() as int, r2),
        same_tail(y1, r1, y2, r2),
        0 <= cur.pos <= a.len(),
        tokens_from(a, cur) is Ok,
    ensures
        tokens_from(y1, cur) == tokens_from(y2, cur),
    decreases a.len() - cur.pos,
{
    let n = a.len() as int;
    lemma_skip_blank_extends(a, y1, r1, cur);
    lemma_skip_blank_extends(a, y2, r2, cur);
    crate::lexer::lemma_skip_blank_any(a, cur);
    let r = skip_blank(a, cur);
    if r.pos < n {
        lemma_scan_token_extends(a, y1, r.pos);
        lemma_scan_token_extends(a, y2, r.pos);
        lemma_next_token_progress(a, cur);
        assert(next_token_from(y1, cur) == next_token_from(a, cur));
        assert(next_token_from(y2, cur) == next_token_from(a, cur));
        match next_token_from(a, cur) {
            Ok((t, next)) => {
                if t.token.kind != crate::token::TokenKind::Eof {
                    lemma_tokens_extend(a, y1, r1, y2, r2, next);
                }
            },
            Err(_) => {},
        }
    } else {
        let c1 = Cursor { pos: r1, line: r.line + 1, column: 1 };
        let c2 = Cursor { pos: r2, line: r.line + 1, column: 1 };
        assert(next_token_from(y1, cur) == next_token_from(y1, c1));
        assert(next_token_from(y2, cur) == next_token_from(y2, c2));
        assert(tokens_from(y1, cur) == tokens_from(y1, c1));
        assert(tokens_from(y2, cur) == tokens_from(y2, c2));
        lemma_tokens_depend_on_tail(y1, r1, y2, r2, c1);
        assert(shift_cursor(c1, -(r1 - r2)) == c2);
    }
}

proof fn lemma_comment_end_runs(src: Seq<char>, i: int, j: int)
    requires
        0 <= i <= j < src.len(),
        src[j] == '\n',
        forall|m: int| i <= m < j ==> #[trigger] src[m] != '\n',
    ensures
        comment_end(src, i) == j,
    decreases j - i,
{
    if i < j {
        lemma_comment_end_runs(src, i + 1, j);
    }
}

/// Neither a space nor a line break continues a word: std's tables, asked
/// through `char::is_alphabetic` and `char::is_numeric`, say so. Calling this
/// meets the last two conditions of `lemma_comment_changes_nothing`.
pub fn blanks_end_words()
    ensures
        !continues_ident(' '),
        !continues_ident('\n'),
{
    let _ = crate::text::is_alphabetic(' ');
    let _ = crate::text::is_numeric(' ');
    let _ = crate::text::is_alphabetic('\n');
    let _ = crate::text::is_numeric('\n');
}

/// A line comment changes no token, line or column: where a source that
/// reads without error is followed by a line break and more text, putting a
/// `#` or `//` comment (after a space) before that line break gives exactly
/// the tokens, lines and columns that the plain line break gives.
///
/// `continues_ident` rests on std's Unicode tables (`char::is_alphabetic`,
/// `char::is_numeric`); the law takes from them that neither a space nor a
/// line break continues a word, which `blanks_end_words` establishes.
pub proof fn lemma_comment_changes_nothing(a: Seq<char>, comment: Seq<char>, b: Seq<char>)
    requires
        lex(a) is Ok,
        comment.len() >= 1,
        comment[0] == '#' || (comment.len() >= 2 && comment[0] == '/' && comment[1] == '/'),
        forall|m: int| 0 <= m < comment.len() ==> #[trigger] comment[m] != '\n',
        !continues_ident(' '),
        !continues_ident('\n'),
    ensures
        lex(a + seq![' '] + comment + seq!['\n'] + b) == lex(a + seq!['\n'] + b),
{
    let n = a.len() as int;
    let k = comment.len() as int;
    let s1 = a + seq!['\n'] + b;
    let s2 = a + seq![' '] + comment + seq!['\n'] + b;
    assert forall|i: int| 0 <= i < n implies #[trigger] s1[i] == a[i] by {}
    assert forall|i: int| 0 <= i < n implies #[trigger] s2[i] == a[i] by {}
    assert(s1[n] == '\n');
    assert(s2[n] == ' ');
    assert(extends_with_blank(a, s1));
    assert(extends_with_blank(a, s2));
    assert(line_resumes(s1, n, n + 1));
    assert(s2[n + 1] == comment[0]);
    if k >= 2 {
        assert(s2[n + 2] == comment[1]);
    }
    assert(s2[n + 1 + k] == '\n');
    assert forall|m: int| n + 1 <= m < n + 1 + k implies #[trigger] s2[m] != '\n' by {
        assert(s2[m] == comment[m - n - 1]);
    }
    lemma_comment_end_runs(s2, n + 1, n + 1 + k);
    assert(line_resumes(s2, n, n + 2 + k));
    assert forall|i: int| n + 1 <= i < s1.len() implies #[trigger] s1[i] == s2[i - ((n + 1) - (n + 2 + k))] by {
        assert(s1[i] == b[i - n - 1]);
        assert(s2[i + k + 1] == b[i - n - 1]);
    }
    assert(same_tail(s1, n + 1, s2, n + 2 + k));
    let start = Cursor { pos: 0, line: 1, column: 1 };
    lemma_tokens_extend(a, s2, n + 2 + k, s1, n + 1, start);
}

} // verus!
