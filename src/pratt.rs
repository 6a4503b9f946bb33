//! The Pratt table: which grammar role each token plays in prefix and infix
//! position, and how tightly it binds.
use crate::lex::Token;
use vstd::prelude::*;

verus! {

/// Binding strength, from loosest to tightest.
#[derive(Debug, Clone, Copy, PartialEq, Eq, Structural)]
pub enum Precedence {
    Lowest,
    Assignment,  // =
    Or,  // or
    And,  // and
    Equality,  // == !=
    Comparison,  // < > <= >=
    Term,  // + -
    Factor,  // * /
    Unary,  // ! -
    Call,  // . ()
    Primary,
}

/// The production that a token starts (prefix) or continues (infix).
#[derive(Debug, Clone, Copy, PartialEq, Eq, Structural)]
pub enum ParseFn {
    Nothing,
    Unary,
    Binary,
    Grouping,
    Literal,
    Variable,
}

/// A token's entry in the table.
pub struct ParseRule {
    pub prefix: ParseFn,
    pub infix: ParseFn,
    pub precedence: Precedence,
}

/// Position of a level in the order `Lowest < Assignment < ... < Primary`.
pub open spec fn level(p: Precedence) -> nat {
    match p {
        Precedence::Lowest => 0,
        Precedence::Assignment => 1,
        Precedence::Or => 2,
        Precedence::And => 3,
        Precedence::Equality => 4,
        Precedence::Comparison => 5,
        Precedence::Term => 6,
        Precedence::Factor => 7,
        Precedence::Unary => 8,
        Precedence::Call => 9,
        Precedence::Primary => 10,
    }
}

/// The level one step tighter than `p`; `Primary` is the tightest.
pub open spec fn tighter(p: Precedence) -> Precedence {
    match p {
        Precedence::Lowest => Precedence::Assignment,
        Precedence::Assignment => Precedence::Or,
        Precedence::Or => Precedence::And,
        Precedence::And => Precedence::Equality,
        Precedence::Equality => Precedence::Comparison,
        Precedence::Comparison => Precedence::Term,
        Precedence::Term => Precedence::Factor,
        Precedence::Factor => Precedence::Unary,
        Precedence::Unary => Precedence::Call,
        Precedence::Call => Precedence::Primary,
        Precedence::Primary => Precedence::Primary,
    }
}

/// Prefix role of a token.
pub open spec fn prefix_of(t: Token) -> ParseFn {
    match t {
        Token::LeftParen => ParseFn::Grouping,
        Token::Minus | Token::Bang => ParseFn::Unary,
        Token::True | Token::False | Token::Num | Token::Str | Token::Null => ParseFn::Literal,
        Token::Ident => ParseFn::Variable,
        _ => ParseFn::Nothing,
    }
}

/// Infix role of a token: every binary operator, nothing else.
pub open spec fn infix_of(t: Token) -> ParseFn {
    if is_binary_op(t) {
        ParseFn::Binary
    } else {
        ParseFn::Nothing
    }
}

/// The tokens that join two operands.
pub open spec fn is_binary_op(t: Token) -> bool {
    match t {
        Token::Plus | Token::Minus | Token::Star | Token::Slash | Token::EqualEqual
        | Token::BangEqual | Token::Greater | Token::GreaterEqual | Token::Less
        | Token::LessEqual => true,
        _ => false,
    }
}

/// Infix binding strength of a token; `Lowest` for a token that continues no
/// expression.
pub open spec fn precedence_of(t: Token) -> Precedence {
    match t {
        Token::Minus | Token::Plus => Precedence::Term,
        Token::Slash | Token::Star => Precedence::Factor,
        Token::BangEqual | Token::EqualEqual => Precedence::Equality,
        Token::Greater | Token::GreaterEqual | Token::Less | Token::LessEqual => Precedence::Comparison,
        _ => Precedence::Lowest,
    }
}

/// Levels compare by binding strength.
pub open spec fn compare(a: Precedence, b: Precedence) -> Option<core::cmp::Ordering> {
    if level(a) < level(b) {
        Some(core::cmp::Ordering::Less)
    } else if level(a) == level(b) {
        Some(core::cmp::Ordering::Equal)
    } else {
        Some(core::cmp::Ordering::Greater)
    }
}

impl PartialOrd for Precedence {
    fn partial_cmp(&self, other: &Precedence) -> (r: Option<core::cmp::Ordering>)
        ensures
            r == compare(*self, *other),
    {
        let (a, b) = (self.rank(), other.rank());
        if a < b {
            Some(core::cmp::Ordering::Less)
        } else if a == b {
            Some(core::cmp::Ordering::Equal)
        } else {
            Some(core::cmp::Ordering::Greater)
        }
    }
}

impl vstd::std_specs::cmp::PartialOrdSpecImpl for Precedence {
    open spec fn obeys_partial_cmp_spec() -> bool {
        true
    }

    open spec fn partial_cmp_spec(&self, other: &Precedence) -> Option<core::cmp::Ordering> {
        compare(*self, *other)
    }
}

impl Precedence {
    fn rank(&self) -> (r: u8)
        ensures
            r as nat == level(*self),
    {
        match self {
            Precedence::Lowest => 0,
            Precedence::Assignment => 1,
            Precedence::Or => 2,
            Precedence::And => 3,
            Precedence::Equality => 4,
            Precedence::Comparison => 5,
            Precedence::Term => 6,
            Precedence::Factor => 7,
            Precedence::Unary => 8,
            Precedence::Call => 9,
            Precedence::Primary => 10,
        }
    }
}

impl ParseRule {
    /// The level at which the right operand of this rule's operator is
    /// parsed: one step tighter, which makes binary operators left-associative.
    pub fn get_next_precedence(&self) -> (r: Precedence)
        ensures
            r == tighter(self.precedence),
    {
        match self.precedence {
            Precedence::Lowest => Precedence::Assignment,
            Precedence::Assignment => Precedence::Or,
            Precedence::Or => Precedence::And,
            Precedence::And => Precedence::Equality,
            Precedence::Equality => Precedence::Comparison,
            Precedence::Comparison => Precedence::Term,
            Precedence::Term => Precedence::Factor,
            Precedence::Factor => Precedence::Unary,
            Precedence::Unary => Precedence::Call,
            Precedence::Call => Precedence::Primary,
            Precedence::Primary => Precedence::Primary,
        }
    }
}

/// The table entry for a token.
pub fn get_rule(operator: &Token) -> (r: ParseRule)
    ensures
        r.prefix == prefix_of(*operator),
        r.infix == infix_of(*operator),
        r.precedence == precedence_of(*operator),
{
    match operator {
        Token::LeftParen => ParseRule {
            prefix: ParseFn::Grouping,
            infix: ParseFn::Nothing,
            precedence: Precedence::Lowest,
        },
        Token::Minus => ParseRule {
            prefix: ParseFn::Unary,
            infix: ParseFn::Binary,
            precedence: Precedence::Term,
        },
        Token::Plus => ParseRule {
            prefix: ParseFn::Nothing,
            infix: ParseFn::Binary,
            precedence: Precedence::Term,
        },
        Token::Slash | Token::Star => ParseRule {
            prefix: ParseFn::Nothing,
            infix: ParseFn::Binary,
            precedence: Precedence::Factor,
        },
        Token::Bang => ParseRule {
            prefix: ParseFn::Unary,
            infix: ParseFn::Nothing,
            precedence: Precedence::Lowest,
        },
        Token::BangEqual | Token::EqualEqual => ParseRule {
            prefix: ParseFn::Nothing,
            infix: ParseFn::Binary,
            precedence: Precedence::Equality,
        },
        Token::Greater | Token::GreaterEqual | Token::Less | Token::LessEqual => ParseRule {
            prefix: ParseFn::Nothing,
            infix: ParseFn::Binary,
            precedence: Precedence::Comparison,
        },
        Token::True | Token::False | Token::Num | Token::Str | Token::Null => ParseRule {
            prefix: ParseFn::Literal,
            infix: ParseFn::Nothing,
            precedence: Precedence::Lowest,
        },
        Token::Ident => ParseRule {
            prefix: ParseFn::Variable,
            infix: ParseFn::Nothing,
            precedence: Precedence::Lowest,
        },
        _ => ParseRule { prefix: ParseFn::Nothing, infix: ParseFn::Nothing, precedence: Precedence::Lowest },
    }
}

} // verus!
