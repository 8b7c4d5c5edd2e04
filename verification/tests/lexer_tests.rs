use huzi::error::HuziError;
use huzi::lexer::Lexer;
use huzi::token::{SpannedToken, Token, TokenKind};

fn lex(src: &str) -> Vec<SpannedToken> {
    Lexer::new(src.to_string())
        .tokenize()
        .unwrap_or_else(|e| panic!("unexpected lex error: {}", e.render()))
}

fn lex_err(src: &str) -> HuziError {
    match Lexer::new(src.to_string()).tokenize() {
        Ok(_) => panic!("lexing `{}` must fail", src),
        Err(e) => e,
    }
}

fn kinds(src: &str) -> Vec<TokenKind> {
    lex(src).iter().map(|t| t.token.kind()).collect()
}

#[test]
fn empty_source_is_only_end_of_input() {
    let toks = lex("");
    assert_eq!(toks.len(), 1);
    assert!(matches!(toks[0].token, Token::Eof));
    assert_eq!((toks[0].line, toks[0].column), (1, 1));
}

#[test]
fn output_ends_with_single_end_of_input() {
    let toks = lex("let x = 1\nfn f() { }");
    let eofs = toks.iter().filter(|t| matches!(t.token, Token::Eof)).count();
    assert_eq!(eofs, 1);
    assert!(matches!(toks.last().unwrap().token, Token::Eof));
}

#[test]
fn keywords_identifiers_and_numbers() {
    assert_eq!(
        kinds("let mut x = 42"),
        vec![TokenKind::Let, TokenKind::Mut, TokenKind::Ident, TokenKind::Equal, TokenKind::Int, TokenKind::Eof]
    );
    let toks = lex("count 42 3.25");
    assert!(matches!(&toks[0].token, Token::Ident(n) if n == "count"));
    assert!(matches!(toks[1].token, Token::Int(42)));
    assert!(matches!(&toks[2].token, Token::Float(t) if t == "3.25"));
}

#[test]
fn two_character_operators() {
    assert_eq!(
        kinds("== != <= >= && || -> => :: .."),
        vec![
            TokenKind::EqualEqual,
            TokenKind::BangEqual,
            TokenKind::LessEqual,
            TokenKind::GreaterEqual,
            TokenKind::AmpAmp,
            TokenKind::BarBar,
            TokenKind::Arrow,
            TokenKind::FatArrow,
            TokenKind::PathSep,
            TokenKind::DotDot,
            TokenKind::Eof,
        ]
    );
}

#[test]
fn positions_count_lines_and_columns_from_one() {
    let toks = lex("let a\n  b");
    assert_eq!((toks[0].line, toks[0].column), (1, 1));
    assert_eq!((toks[1].line, toks[1].column), (1, 5));
    assert_eq!((toks[2].line, toks[2].column), (2, 3));
}

#[test]
fn comments_are_skipped() {
    assert_eq!(kinds("x // a comment\ny"), vec![TokenKind::Ident, TokenKind::Ident, TokenKind::Eof]);
}

#[test]
fn string_and_char_literals_with_escapes() {
    let toks = lex(r#""a\nb" 'c' '\t'"#);
    assert!(matches!(&toks[0].token, Token::String(s) if s == "a\nb"));
    assert!(matches!(toks[1].token, Token::Char('c')));
    assert!(matches!(toks[2].token, Token::Char('\t')));
}

#[test]
fn unterminated_string_is_an_error() {
    assert_eq!(lex_err("\"abc").message(), "Unterminated string");
}

#[test]
fn unterminated_char_is_an_error() {
    assert_eq!(lex_err("'a").message(), "Unterminated char");
}

#[test]
fn lone_ampersand_and_bar_are_errors() {
    assert_eq!(lex_err("a & b").message(), "Unexpected character '&' (did you mean '&&'?)");
    assert_eq!(lex_err("a | b").message(), "Unexpected character '|' (did you mean '||'?)");
}

#[test]
fn unexpected_character_reports_position() {
    let e = lex_err("let x = 1\n  @");
    assert_eq!(e.message(), "Unexpected character '@'");
    assert_eq!((e.line(), e.column()), (2, 3));
}

#[test]
fn describe_writes_tokens_as_in_source() {
    assert_eq!(Token::Int(-7).describe(), "-7");
    assert_eq!(Token::Int(i64::MIN).describe(), "-9223372036854775808");
    assert_eq!(Token::String("hi".to_string()).describe(), "\"hi\"");
    assert_eq!(Token::Char('x').describe(), "'x'");
    assert_eq!(Token::Fn.describe(), "fn");
    assert_eq!(TokenKind::FatArrow.text(), "=>");
}

#[test]
fn error_render_with_and_without_position() {
    assert_eq!(HuziError::new("bad", 3, 7).render(), "Error at line 3, column 7: bad");
    assert_eq!(HuziError::new_global("bad").render(), "Error: bad");
    let e = HuziError::new_global("oops");
    assert_eq!((e.line(), e.column()), (0, 0));
}

#[test]
fn decimal_writing() {
    assert_eq!(huzi::text::usize_to_decimal(0), "0");
    assert_eq!(huzi::text::u64_to_decimal(1234567890), "1234567890");
    assert_eq!(huzi::text::u64_to_decimal(u64::MAX), "18446744073709551615");
}

#[test]
fn unicode_letters_and_digits_in_identifiers() {
    let toks = lex("名字1 = 2");
    assert!(matches!(&toks[0].token, Token::Ident(n) if n == "名字1"));
    assert!(matches!(toks[1].token, Token::Equal));
    assert!(matches!(toks[2].token, Token::Int(2)));
    let toks = lex("_tmp_9");
    assert!(matches!(&toks[0].token, Token::Ident(n) if n == "_tmp_9"));
}

#[test]
fn hash_comments_are_skipped() {
    assert_eq!(kinds("# note\nlet x"), vec![TokenKind::Let, TokenKind::Ident, TokenKind::Eof]);
    let toks = lex("# note\nlet x");
    assert_eq!((toks[0].line, toks[0].column), (2, 1));
}

#[test]
fn number_edge_cases() {
    // A numeric character that is no ASCII digit starts a number with no digits.
    let e = lex_err("٣");
    assert_eq!((e.message(), e.line(), e.column()), ("Invalid integer", 1, 1));
    // An integer too large for 64 bits, reported after its digits.
    let e = lex_err("99999999999999999999");
    assert_eq!((e.message(), e.line(), e.column()), ("Invalid integer", 1, 21));
    // A trailing dot makes a float; two dots end the number before a range.
    let toks = lex("1. 1..5");
    assert!(matches!(&toks[0].token, Token::Float(t) if t == "1."));
    assert!(matches!(toks[1].token, Token::Int(1)));
    assert!(matches!(toks[2].token, Token::DotDot));
    assert!(matches!(toks[3].token, Token::Int(5)));
    assert!(matches!(lex("9223372036854775807")[0].token, Token::Int(i64::MAX)));
}

#[test]
fn import_is_a_keyword() {
    assert_eq!(
        kinds("import mods.helpers"),
        vec![TokenKind::Import, TokenKind::Ident, TokenKind::Dot, TokenKind::Ident, TokenKind::Eof]
    );
}

fn positions(src: &str) -> Vec<(TokenKind, usize, usize)> {
    lex(src).iter().map(|t| (t.token.kind(), t.line, t.column)).collect()
}

#[test]
fn a_comment_changes_no_token_or_position() {
    let plain = positions("let x = 1\nlet y = 2");
    assert_eq!(positions("let x = 1 # the first\nlet y = 2"), plain);
    assert_eq!(positions("let x = 1 // the first\nlet y = 2"), plain);
    assert_eq!(positions("# only a comment"), vec![(TokenKind::Eof, 1, 17)]);
    assert_eq!(positions(" // note\nlet y = 2"), positions("\nlet y = 2"));
    assert_eq!(positions("x = \"a\" #c\n  y"), positions("x = \"a\"\n  y"));
}

#[test]
fn blanks_end_words_holds() {
    huzi::comments::blanks_end_words();
    assert!(!' '.is_alphanumeric() && !'\n'.is_alphanumeric());
}

#[test]
fn tokens_stand_in_source_order() {
    let toks = positions("let a = 1\n  fn f() { }\n# c\nx");
    for w in toks.windows(2) {
        let (a, b) = ((w[0].1, w[0].2), (w[1].1, w[1].2));
        assert!(a < b, "{:?} should stand before {:?}", a, b);
    }
    assert_eq!(toks.last().unwrap(), &(TokenKind::Eof, 4, 2));
}
