use interpreter::lex::Token;
use interpreter::pratt::{get_rule, ParseFn, ParseRule, Precedence};

#[test]
fn precedence_levels_are_ordered() {
    let levels = [
        Precedence::Lowest,
        Precedence::Assignment,
        Precedence::Or,
        Precedence::And,
        Precedence::Equality,
        Precedence::Comparison,
        Precedence::Term,
        Precedence::Factor,
        Precedence::Unary,
        Precedence::Call,
        Precedence::Primary,
    ];
    for i in 0..levels.len() {
        for j in 0..levels.len() {
            assert_eq!(levels[i] < levels[j], i < j);
            assert_eq!(levels[i] <= levels[j], i <= j);
        }
    }
}

#[test]
fn next_precedence_steps_up_one_level() {
    let next = |p: Precedence| {
        ParseRule { prefix: ParseFn::Nothing, infix: ParseFn::Nothing, precedence: p }
            .get_next_precedence()
    };
    assert_eq!(next(Precedence::Lowest), Precedence::Assignment);
    assert_eq!(next(Precedence::Term), Precedence::Factor);
    assert_eq!(next(Precedence::Factor), Precedence::Unary);
    assert_eq!(next(Precedence::Call), Precedence::Primary);
    assert_eq!(next(Precedence::Primary), Precedence::Primary);
}

#[test]
fn rule_table() {
    let r = get_rule(&Token::Minus);
    assert_eq!((r.prefix, r.infix, r.precedence), (ParseFn::Unary, ParseFn::Binary, Precedence::Term));
    let r = get_rule(&Token::Plus);
    assert_eq!((r.prefix, r.infix, r.precedence), (ParseFn::Nothing, ParseFn::Binary, Precedence::Term));
    let r = get_rule(&Token::Star);
    assert_eq!((r.prefix, r.infix, r.precedence), (ParseFn::Nothing, ParseFn::Binary, Precedence::Factor));
    let r = get_rule(&Token::EqualEqual);
    assert_eq!(r.precedence, Precedence::Equality);
    let r = get_rule(&Token::GreaterEqual);
    assert_eq!(r.precedence, Precedence::Comparison);
    let r = get_rule(&Token::LeftParen);
    assert_eq!((r.prefix, r.infix, r.precedence), (ParseFn::Grouping, ParseFn::Nothing, Precedence::Lowest));
    let r = get_rule(&Token::Bang);
    assert_eq!((r.prefix, r.infix), (ParseFn::Unary, ParseFn::Nothing));
    let r = get_rule(&Token::Str);
    assert_eq!(r.prefix, ParseFn::Literal);
    let r = get_rule(&Token::Ident);
    assert_eq!(r.prefix, ParseFn::Variable);
    let r = get_rule(&Token::Equal);
    assert_eq!((r.prefix, r.infix, r.precedence), (ParseFn::Nothing, ParseFn::Nothing, Precedence::Lowest));
}
