use interpreter::lex::{Lexer, Token};

fn kinds(source: &str) -> Vec<Token> {
    let mut lex = Lexer::new(source);
    let mut out = Vec::new();
    while let Some(t) = lex.next() {
        out.push(t);
    }
    out
}

#[test]
fn it_works() {
    let program = r"
            # comment
            let foo = 1 + 2
            ";
    let mut lex = Lexer::new(program);

    assert_eq!(lex.next(), Some(Token::Comment));
    assert_eq!(lex.slice(), "# comment");

    assert_eq!(lex.next(), Some(Token::Let));

    assert_eq!(lex.next(), Some(Token::Ident));
    assert_eq!(lex.slice(), "foo");

    assert_eq!(lex.next(), Some(Token::Equal));

    assert_eq!(lex.next(), Some(Token::Num));
    assert_eq!(lex.slice(), "1");

    assert_eq!(lex.next(), Some(Token::Plus));

    assert_eq!(lex.next(), Some(Token::Num));
    assert_eq!(lex.slice(), "2");

    assert_eq!(lex.next(), None);
}

#[test]
fn greater_equal_is_one_token() {
    assert_eq!(kinds(">="), vec![Token::GreaterEqual]);
    assert_eq!(kinds("> ="), vec![Token::Greater, Token::Equal]);
}

#[test]
fn two_character_operators_are_greedy() {
    assert_eq!(
        kinds("== != <= && || = ! < >"),
        vec![
            Token::EqualEqual,
            Token::BangEqual,
            Token::LessEqual,
            Token::And,
            Token::Or,
            Token::Equal,
            Token::Bang,
            Token::Less,
            Token::Greater,
        ]
    );
    assert_eq!(kinds("==="), vec![Token::EqualEqual, Token::Equal]);
}

#[test]
fn punctuation_and_arithmetic() {
    assert_eq!(
        kinds("(){},;.-+/*"),
        vec![
            Token::LeftParen,
            Token::RightParen,
            Token::LeftBrace,
            Token::RightBrace,
            Token::Comma,
            Token::SemiColon,
            Token::Dot,
            Token::Minus,
            Token::Plus,
            Token::Slash,
            Token::Star,
        ]
    );
}

#[test]
fn keywords_and_identifiers() {
    assert_eq!(
        kinds("let const fn null true false loop break continue return if else"),
        vec![
            Token::Let,
            Token::Const,
            Token::Func,
            Token::Null,
            Token::True,
            Token::False,
            Token::Loop,
            Token::Break,
            Token::Continue,
            Token::Return,
            Token::If,
            Token::Else,
        ]
    );
    assert_eq!(kinds("letter _x9 iff"), vec![Token::Ident, Token::Ident, Token::Ident]);
}

#[test]
fn literal_text_is_the_matched_slice() {
    let mut lex = Lexer::new(r#"  foo_1 "a\"b\n" 12.50 # note  "#);
    assert_eq!(lex.next(), Some(Token::Ident));
    assert_eq!(lex.slice(), "foo_1");
    assert_eq!(lex.span(), 2..7);
    assert_eq!(lex.next(), Some(Token::Str));
    assert_eq!(lex.slice(), r#""a\"b\n""#);
    assert_eq!(lex.next(), Some(Token::Num));
    assert_eq!(lex.slice(), "12.50");
    assert_eq!(lex.next(), Some(Token::Comment));
    assert_eq!(lex.slice(), "# note  ");
    assert_eq!(lex.next(), None);
}

#[test]
fn number_takes_at_most_one_point() {
    let mut lex = Lexer::new("1.2.3 4.");
    assert_eq!(lex.next(), Some(Token::Num));
    assert_eq!(lex.slice(), "1.2");
    assert_eq!(lex.next(), Some(Token::Dot));
    assert_eq!(lex.next(), Some(Token::Num));
    assert_eq!(lex.slice(), "3");
    assert_eq!(lex.next(), Some(Token::Num));
    assert_eq!(lex.slice(), "4");
    assert_eq!(lex.next(), Some(Token::Dot));
    assert_eq!(lex.next(), None);
}

#[test]
fn comment_runs_to_end_of_line() {
    let mut lex = Lexer::new("# one\r\n# two\nx");
    assert_eq!(lex.next(), Some(Token::Comment));
    assert_eq!(lex.slice(), "# one");
    assert_eq!(lex.next(), Some(Token::Error));
    assert_eq!(lex.next(), Some(Token::Comment));
    assert_eq!(lex.slice(), "# two");
    assert_eq!(lex.next(), Some(Token::Ident));
}

#[test]
fn unrecognised_characters_are_error_tokens() {
    assert_eq!(kinds("@ & |"), vec![Token::Error, Token::Error, Token::Error]);
    // An unterminated string is no string: its quote is an error of its own.
    assert_eq!(kinds("\"ab"), vec![Token::Error, Token::Ident]);
    // A backslash that starts no escape ends no string either.
    assert_eq!(kinds(r#""\q""#), vec![Token::Error, Token::Error, Token::Ident, Token::Error]);
}

#[test]
fn separators_make_no_tokens() {
    assert_eq!(kinds(" \t\n\u{c}"), vec![]);
    assert_eq!(kinds(""), vec![]);
}

#[test]
fn peek_is_idempotent() {
    let mut lex = Lexer::new("foo + 1");
    assert_eq!(lex.peek(), Some(Token::Ident));
    assert_eq!(lex.peek(), Some(Token::Ident));
    assert_eq!(lex.slice(), "foo");
    assert_eq!(lex.next(), Some(Token::Ident));
    assert_eq!(lex.peek(), Some(Token::Plus));
    assert_eq!(lex.next(), Some(Token::Plus));
    assert_eq!(lex.next(), Some(Token::Num));
    assert_eq!(lex.peek(), None);
    assert_eq!(lex.peek(), None);
    assert_eq!(lex.next(), None);
}
