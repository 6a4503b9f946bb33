//! The parser: recursive descent for statements, precedence climbing for
//! expressions. The grammar is first stated as functions on the source
//! characters and a position in them; the executable parser is proved to
//! compute exactly those functions.
use crate::ast::{stmts_view, Expr, ExprView, Stmt, StmtView, Value, ValueView};
use crate::lex::{front, next_token, Lexer, Token};
use crate::pratt::{
    get_rule, infix_of, level, precedence_of, prefix_of, tighter, ParseFn, Precedence,
};
use vstd::prelude::*;

verus! {

#[derive(Debug, PartialEq)]
pub enum ParserError {
    /// A token stood where no expression can start.
    UnexpectedToken(Token),
    /// One of a set of tokens (first) was required; the second field is the
    /// token found instead, `None` where the source ended.
    ExpectedToken(Vec<Token>, Option<Token>),
    /// The source ended where more was required.
    ExpectedExpression,
    /// A literal token made no value.
    InvalidValue,
    /// A numeral could not be converted to a number. This parser keeps
    /// numerals as text and so never fails with it; a consumer that converts
    /// them reports its failures with it.
    TypeCoercion,
}

pub enum ErrorView {
    UnexpectedToken(Token),
    ExpectedToken(Seq<Token>, Option<Token>),
    ExpectedExpression,
    InvalidValue,
    TypeCoercion,
}

impl View for ParserError {
    type V = ErrorView;

    open spec fn view(&self) -> ErrorView {
        match self {
            ParserError::UnexpectedToken(t) => ErrorView::UnexpectedToken(*t),
            ParserError::ExpectedToken(set, t) => ErrorView::ExpectedToken(set@, *t),
            ParserError::ExpectedExpression => ErrorView::ExpectedExpression,
            ParserError::InvalidValue => ErrorView::InvalidValue,
            ParserError::TypeCoercion => ErrorView::TypeCoercion,
        }
    }
}

// ---------------------------------------------------------------------------
// The grammar. Each function reads the source `s` from position `c` and
// gives what it parsed with the position just past it, or the first error.
// ---------------------------------------------------------------------------

pub type Parsed<T> = Result<(T, int), ErrorView>;

/// Whether `d` lies past `c` and within `s`: each production consumes.
pub open spec fn advances(s: Seq<char>, c: int, d: int) -> bool {
    c < d <= s.len()
}

/// The operators that `binary` accepts.
pub open spec fn binary_ops() -> Seq<Token> {
    seq![
        Token::Plus,
        Token::Minus,
        Token::Star,
        Token::Slash,
        Token::EqualEqual,
        Token::BangEqual,
        Token::Greater,
        Token::GreaterEqual,
        Token::Less,
        Token::LessEqual,
    ]
}

/// The operators that `unary` accepts.
pub open spec fn unary_ops() -> Seq<Token> {
    seq![Token::Bang, Token::Minus]
}

/// The tokens that `primary` accepts.
pub open spec fn literal_tokens() -> Seq<Token> {
    seq![Token::True, Token::False, Token::Num, Token::Str, Token::Null]
}

/// The next token, which must be one of `set`, with its span; where the
/// source has ended, `ExpectedToken` with no token found.
pub open spec fn expect(s: Seq<char>, c: int, set: Seq<Token>) -> Result<
    (Token, int, int),
    ErrorView,
> {
    match next_token(s, c) {
        None => Err(ErrorView::ExpectedToken(set, None)),
        Some((t, a, b)) => if set.contains(t) {
            Ok((t, a, b))
        } else {
            Err(ErrorView::ExpectedToken(set, Some(t)))
        },
    }
}

/// Unicode `White_Space`, which trimming removes.
pub open spec fn is_white_space(c: char) -> bool {
    ('\u{9}' <= c && c <= '\u{D}') || c == ' ' || c == '\u{85}' || c == '\u{A0}' || c
        == '\u{1680}' || ('\u{2000}' <= c && c <= '\u{200A}') || c == '\u{2028}' || c
        == '\u{2029}' || c == '\u{202F}' || c == '\u{205F}' || c == '\u{3000}'
}

/// First position at or after `i` that holds no white space.
pub open spec fn trim_front(w: Seq<char>, i: int) -> int
    decreases w.len() - i,
{
    if 0 <= i < w.len() && is_white_space(w[i]) {
        trim_front(w, i + 1)
    } else {
        i
    }
}

/// Last end at or before `j`, and after `lo`, with no white space before it.
pub open spec fn trim_back(w: Seq<char>, lo: int, j: int) -> int
    decreases j - lo,
{
    if lo < j <= w.len() && is_white_space(w[j - 1]) {
        trim_back(w, lo, j - 1)
    } else {
        j
    }
}

/// `w` without white space at either end.
pub open spec fn trim(w: Seq<char>) -> Seq<char> {
    let a = trim_front(w, 0);
    w.subrange(a, trim_back(w, a, w.len() as int))
}

/// A whole program from `c` to the end of the source.
pub open spec fn program(s: Seq<char>, c: int) -> Result<Seq<StmtView>, ErrorView>
    decreases s.len() - c, 10int,
{
    if front(s, c) is None {
        Ok(Seq::empty())
    } else {
        match declaration(s, c) {
            Err(e) => Err(e),
            Ok((st, d)) => if advances(s, c, d) {
                prepend(seq![st], program(s, d))
            } else {
                Err(ErrorView::ExpectedExpression)
            },
        }
    }
}

/// `done` followed by the statements of `rest`, if `rest` is no error.
pub open spec fn prepend(done: Seq<StmtView>, rest: Result<Seq<StmtView>, ErrorView>) -> Result<
    Seq<StmtView>,
    ErrorView,
> {
    match rest {
        Ok(more) => Ok(done + more),
        Err(e) => Err(e),
    }
}

/// A declaration, or else a statement.
pub open spec fn declaration(s: Seq<char>, c: int) -> Parsed<StmtView>
    decreases s.len() - c, 8int,
{
    if front(s, c) == Some(Token::Let) {
        variable_declaration(s, c)
    } else {
        statement(s, c)
    }
}

/// `let name` or `let name = expression`.
pub open spec fn variable_declaration(s: Seq<char>, c: int) -> Parsed<StmtView>
    decreases s.len() - c, 6int,
{
    match next_token(s, c) {
        None => Err(ErrorView::ExpectedExpression),
        Some((_, _, c1)) => if !advances(s, c, c1) {
            Err(ErrorView::ExpectedExpression)
        } else {
            match expect(s, c1, seq![Token::Ident]) {
                Err(e) => Err(e),
                Ok((_, a, c2)) => {
                    let name = s.subrange(a, c2);
                    if front(s, c2) == Some(Token::Equal) {
                        match next_token(s, c2) {
                            Some((_, _, c3)) => if advances(s, c, c3) {
                                match expression(s, c3) {
                                    Err(e) => Err(e),
                                    Ok((v, c4)) => Ok(
                                        (StmtView::VariableDeclaration { name, value: Some(v) }, c4),
                                    ),
                                }
                            } else {
                                Err(ErrorView::ExpectedExpression)
                            },
                            None => Err(ErrorView::ExpectedExpression),
                        }
                    } else {
                        Ok((StmtView::VariableDeclaration { name, value: None }, c2))
                    }
                },
            }
        },
    }
}

/// A comment, an `if`, a block, or an expression.
pub open spec fn statement(s: Seq<char>, c: int) -> Parsed<StmtView>
    decreases s.len() - c, 7int,
{
    if front(s, c) == Some(Token::Comment) {
        comment_statement(s, c)
    } else if front(s, c) == Some(Token::If) {
        if_statement(s, c)
    } else if front(s, c) == Some(Token::LeftBrace) {
        block_statement(s, c)
    } else {
        match expression(s, c) {
            Err(e) => Err(e),
            Ok((e, d)) => Ok((StmtView::Expr(e), d)),
        }
    }
}

/// A comment token; its text after the `#`, trimmed.
pub open spec fn comment_statement(s: Seq<char>, c: int) -> Parsed<StmtView>
    decreases s.len() - c, 6int,
{
    match next_token(s, c) {
        None => Err(ErrorView::ExpectedExpression),
        Some((_, a, b)) => Ok((StmtView::Comment(trim(s.subrange(a + 1, b))), b)),
    }
}

/// `if condition block`, optionally followed by `else block`.
pub open spec fn if_statement(s: Seq<char>, c: int) -> Parsed<StmtView>
    decreases s.len() - c, 6int,
{
    match next_token(s, c) {
        None => Err(ErrorView::ExpectedExpression),
        Some((_, _, c1)) => if !advances(s, c, c1) {
            Err(ErrorView::ExpectedExpression)
        } else {
            match expression(s, c1) {
                Err(e) => Err(e),
                Ok((condition, c2)) => if !advances(s, c, c2) {
                    Err(ErrorView::ExpectedExpression)
                } else {
                    match block_statement(s, c2) {
                        Err(e) => Err(e),
                        Ok((then, c3)) => if front(s, c3) == Some(Token::Else) {
                            match next_token(s, c3) {
                                Some((_, _, c4)) => if advances(s, c, c4) {
                                    match block_statement(s, c4) {
                                        Err(e) => Err(e),
                                        Ok((otherwise, c5)) => Ok(
                                            (
                                                StmtView::If {
                                                    condition,
                                                    then: Box::new(then),
                                                    otherwise: Some(Box::new(otherwise)),
                                                },
                                                c5,
                                            ),
                                        ),
                                    }
                                } else {
                                    Err(ErrorView::ExpectedExpression)
                                },
                                None => Err(ErrorView::ExpectedExpression),
                            }
                        } else {
                            Ok(
                                (
                                    StmtView::If { condition, then: Box::new(then), otherwise: None },
                                    c3,
                                ),
                            )
                        },
                    }
                },
            }
        },
    }
}

/// `{`, statements, `}`.
pub open spec fn block_statement(s: Seq<char>, c: int) -> Parsed<StmtView>
    decreases s.len() - c, 6int,
{
    match expect(s, c, seq![Token::LeftBrace]) {
        Err(e) => Err(e),
        Ok((_, _, c1)) => if !advances(s, c, c1) {
            Err(ErrorView::ExpectedExpression)
        } else {
            match block_items(s, c1) {
                Err(e) => Err(e),
                Ok((items, c2)) => match expect(s, c2, seq![Token::RightBrace]) {
                    Err(e) => Err(e),
                    Ok((_, _, c3)) => Ok((StmtView::Block(items), c3)),
                },
            }
        },
    }
}

/// The statements of a block, up to its `}` or the end of the source.
pub open spec fn block_items(s: Seq<char>, c: int) -> Parsed<Seq<StmtView>>
    decreases s.len() - c, 10int,
{
    match front(s, c) {
        None => Ok((Seq::empty(), c)),
        Some(Token::RightBrace) => Ok((Seq::empty(), c)),
        Some(_) => match declaration(s, c) {
            Err(e) => Err(e),
            Ok((st, d)) => if !advances(s, c, d) {
                Err(ErrorView::ExpectedExpression)
            } else {
                match block_items(s, d) {
                    Err(e) => Err(e),
                    Ok((more, d2)) => Ok((seq![st] + more, d2)),
                }
            },
        },
    }
}

/// An expression at the loosest level.
pub open spec fn expression(s: Seq<char>, c: int) -> Parsed<ExprView>
    decreases s.len() - c, 5int,
{
    parse_precedence(s, c, Precedence::Assignment)
}

/// An expression none of whose infix operators binds more loosely than `p`:
/// a prefix production, then infix productions while the next operator
/// binds at least as tightly as `p`.
pub open spec fn parse_precedence(s: Seq<char>, c: int, p: Precedence) -> Parsed<ExprView>
    decreases s.len() - c, 4int,
{
    match next_token(s, c) {
        None => Err(ErrorView::ExpectedExpression),
        Some((t, _, _)) => match parse_by_rule(s, c, prefix_of(t), None) {
            Err(e) => Err(e),
            Ok((left, c1)) => if !advances(s, c, c1) {
                Err(ErrorView::ExpectedExpression)
            } else {
                infix_loop(s, c1, p, left)
            },
        },
    }
}

/// The infix continuation of `left` at level `p`.
pub open spec fn infix_loop(s: Seq<char>, c: int, p: Precedence, left: ExprView) -> Parsed<
    ExprView,
>
    decreases s.len() - c, 5int,
{
    match next_token(s, c) {
        None => Ok((left, c)),
        Some((t, _, _)) => if level(p) <= level(precedence_of(t)) {
            match parse_by_rule(s, c, infix_of(t), Some(left)) {
                Err(e) => Err(e),
                Ok((e, d)) => if !advances(s, c, d) {
                    Err(ErrorView::ExpectedExpression)
                } else {
                    infix_loop(s, d, p, e)
                },
            }
        } else {
            Ok((left, c))
        },
    }
}

/// The production that `rule` names; `operand` is the left operand of an
/// infix one.
pub open spec fn parse_by_rule(
    s: Seq<char>,
    c: int,
    rule: ParseFn,
    operand: Option<ExprView>,
) -> Parsed<ExprView>
    decreases s.len() - c, 3int,
{
    match rule {
        ParseFn::Unary => unary(s, c),
        ParseFn::Binary => match operand {
            Some(left) => binary(s, c, left),
            None => Err(ErrorView::ExpectedExpression),
        },
        ParseFn::Grouping => grouping(s, c),
        ParseFn::Literal => primary(s, c),
        ParseFn::Variable => variable(s, c),
        ParseFn::Nothing => match next_token(s, c) {
            Some((t, _, _)) => Err(ErrorView::UnexpectedToken(t)),
            None => Err(ErrorView::ExpectedExpression),
        },
    }
}

/// `left op right`, the right operand one level tighter than `op`.
pub open spec fn binary(s: Seq<char>, c: int, left: ExprView) -> Parsed<ExprView>
    decreases s.len() - c, 2int,
{
    match expect(s, c, binary_ops()) {
        Err(e) => Err(e),
        Ok((op, _, c1)) => if !advances(s, c, c1) {
            Err(ErrorView::ExpectedExpression)
        } else {
            match parse_precedence(s, c1, tighter(precedence_of(op))) {
                Err(e) => Err(e),
                Ok((right, c2)) => Ok(
                    (ExprView::Binary { left: Box::new(left), op, right: Box::new(right) }, c2),
                ),
            }
        },
    }
}

/// `!` or `-`, then an operand at the unary level.
pub open spec fn unary(s: Seq<char>, c: int) -> Parsed<ExprView>
    decreases s.len() - c, 2int,
{
    match expect(s, c, unary_ops()) {
        Err(e) => Err(e),
        Ok((op, _, c1)) => if !advances(s, c, c1) {
            Err(ErrorView::ExpectedExpression)
        } else {
            match parse_precedence(s, c1, Precedence::Unary) {
                Err(e) => Err(e),
                Ok((e, c2)) => Ok((ExprView::Unary { op, expr: Box::new(e) }, c2)),
            }
        },
    }
}

/// `(`, an expression, `)`.
pub open spec fn grouping(s: Seq<char>, c: int) -> Parsed<ExprView>
    decreases s.len() - c, 2int,
{
    match expect(s, c, seq![Token::LeftParen]) {
        Err(e) => Err(e),
        Ok((_, _, c1)) => if !advances(s, c, c1) {
            Err(ErrorView::ExpectedExpression)
        } else {
            match expression(s, c1) {
                Err(e) => Err(e),
                Ok((e, c2)) => match expect(s, c2, seq![Token::RightParen]) {
                    Err(err) => Err(err),
                    Ok((_, _, c3)) => Ok((ExprView::Grouping(Box::new(e)), c3)),
                },
            }
        },
    }
}

/// The value that a literal token spelled `text` makes.
pub open spec fn literal_value(t: Token, text: Seq<char>) -> Option<ValueView> {
    match t {
        Token::True => Some(ValueView::Bool(true)),
        Token::False => Some(ValueView::Bool(false)),
        Token::Num => Some(ValueView::Num(text)),
        Token::Str => Some(ValueView::Str(text.subrange(1, text.len() - 1))),
        Token::Null => Some(ValueView::Null),
        _ => None,
    }
}

/// A literal: `true`, `false`, a number, a string (without its quotes), `null`.
pub open spec fn primary(s: Seq<char>, c: int) -> Parsed<ExprView>
    decreases s.len() - c, 2int,
{
    match expect(s, c, literal_tokens()) {
        Err(e) => Err(e),
        Ok((t, a, b)) => match literal_value(t, s.subrange(a, b)) {
            Some(v) => Ok((ExprView::Literal(v), b)),
            None => Err(ErrorView::InvalidValue),
        },
    }
}

/// An identifier; followed by `=` and an expression, an assignment to it.
pub open spec fn variable(s: Seq<char>, c: int) -> Parsed<ExprView>
    decreases s.len() - c, 2int,
{
    match next_token(s, c) {
        None => Err(ErrorView::ExpectedExpression),
        Some((_, a, b)) => {
            let name = s.subrange(a, b);
            if front(s, b) == Some(Token::Equal) {
                match next_token(s, b) {
                    Some((_, _, c2)) => if advances(s, c, c2) {
                        match expression(s, c2) {
                            Err(e) => Err(e),
                            Ok((v, c3)) => Ok((ExprView::Assignment(name, Box::new(v)), c3)),
                        }
                    } else {
                        Err(ErrorView::ExpectedExpression)
                    },
                    None => Err(ErrorView::ExpectedExpression),
                }
            } else {
                Ok((ExprView::Variable(name), b))
            }
        },
    }
}

/// `done` followed by the statements of `rest`, if `rest` is no error.
pub open spec fn prepend_items(done: Seq<StmtView>, rest: Parsed<Seq<StmtView>>) -> Parsed<
    Seq<StmtView>,
> {
    match rest {
        Ok((more, d)) => Ok((done + more, d)),
        Err(e) => Err(e),
    }
}

/// Whether an executable result is what the grammar gives: the same value,
/// with the parser then at position `c` just past it, or the same error.
pub open spec fn agrees<T: View>(r: Result<T, ParserError>, c: int, g: Parsed<T::V>) -> bool {
    match g {
        Ok((v, d)) => r matches Ok(x) && x@ == v && c == d,
        Err(e) => r matches Err(x) && x@ == e,
    }
}

/// The view of an optional boxed operand.
pub open spec fn operand_view(o: Option<Box<Expr>>) -> Option<ExprView> {
    match o {
        Some(b) => Some((*b)@),
        None => None,
    }
}

proof fn lemma_stmts_view_push(v: Seq<Stmt>, x: Stmt)
    ensures
        stmts_view(v.push(x)) == stmts_view(v).push(x@),
{
    assert(v.push(x).drop_last() =~= v);
}

proof fn lemma_single(t: Token, u: Token)
    ensures
        seq![t].contains(u) <==> t == u,
{
    assert(seq![t][0] == t);
}

fn contains(tokens: &[Token], t: Token) -> (r: bool)
    ensures
        r == tokens@.contains(t),
{
    let mut i: usize = 0;
    while i < tokens.len()
        invariant
            0 <= i <= tokens@.len(),
            forall|j: int| 0 <= j < i ==> tokens@[j] != t,
        decreases tokens@.len() - i,
    {
        if tokens[i] == t {
            assert(tokens@[i as int] == t);
            return true;
        }
        i = i + 1;
    }
    false
}

fn white_space(c: char) -> (r: bool)
    ensures
        r == is_white_space(c),
{
    ('\u{9}' <= c && c <= '\u{D}') || c == ' ' || c == '\u{85}' || c == '\u{A0}' || c
        == '\u{1680}' || ('\u{2000}' <= c && c <= '\u{200A}') || c == '\u{2028}' || c
        == '\u{2029}' || c == '\u{202F}' || c == '\u{205F}' || c == '\u{3000}'
}

/// The text of a comment token: what follows its `#`, trimmed.
fn comment_text(raw: &str) -> (r: String)
    requires
        raw@.len() >= 1,
    ensures
        r@ == trim(raw@.subrange(1, raw@.len() as int)),
{
    let mut w: Vec<char> = Vec::new();
    for ch in it: raw.chars()
        invariant
            w@ == it.seq().take(it.index() as int),
    {
        w.push(ch);
    }
    assert(w@ =~= raw@);
    let ghost v = raw@.subrange(1, raw@.len() as int);
    let m = w.len();
    let mut a: usize = 0;
    while a + 1 < m && white_space(w[a + 1])
        invariant
            m == w@.len(),
            w@ == raw@,
            v == w@.subrange(1, m as int),
            a + 1 <= m,
            trim_front(v, a as int) == trim_front(v, 0),
        decreases m - a,
    {
        a = a + 1;
    }
    let mut b: usize = m - 1;
    while b > a && white_space(w[b])
        invariant
            m == w@.len(),
            w@ == raw@,
            v == w@.subrange(1, m as int),
            a <= b < m,
            trim_back(v, a as int, b as int) == trim_back(v, a as int, (m - 1) as int),
        decreases b - a,
    {
        b = b - 1;
    }
    String::from_str(raw.substring_char(a + 1, b + 1))
}

/// Parses source text into statements.
pub struct Parser {
    lexer: Lexer,
}

impl Parser {
    /// The source text.
    pub closed spec fn src(&self) -> Seq<char> {
        self.lexer.src()
    }

    /// Where parsing goes on.
    pub closed spec fn cursor(&self) -> int {
        self.lexer.cursor()
    }

    /// The lexer is well formed and its cursor lies within the source.
    pub closed spec fn wf(&self) -> bool {
        &&& self.lexer.wf()
        &&& 0 <= self.lexer.cursor() <= self.lexer.src().len()
    }

    /// A parser at the start of `source`.
    pub fn new(source: &str) -> (r: Parser)
        ensures
            r.wf(),
            r.src() == source@,
            r.cursor() == 0,
    {
        Parser { lexer: Lexer::new(source) }
    }

    /// Parses statements until the source ends; the first error stops it.
    pub fn parse(&mut self) -> (r: Result<Vec<Stmt>, ParserError>)
        requires
            old(self).wf(),
        ensures
            final(self).wf(),
            final(self).src() == old(self).src(),
            match program(old(self).src(), old(self).cursor()) {
                Ok(v) => r matches Ok(x) && stmts_view(x@) == v,
                Err(e) => r matches Err(x) && x@ == e,
            },
            r matches Err(x) ==> !(x is InvalidValue) && !(x is TypeCoercion),
    {
        let ghost s = self.src();
        let ghost c0 = self.cursor();
        proof {
            lemma_program_errors(s, c0);
        }
        let mut statements: Vec<Stmt> = Vec::new();
        loop
            invariant
                self.wf(),
                self.src() == s,
                s == old(self).src(),
                c0 == old(self).cursor(),
                reachable_error(program(s, c0)),
                program(s, c0) == prepend(stmts_view(statements@), program(s, self.cursor())),
            ensures
                self.wf(),
                self.src() == s,
                program(s, c0) == Ok::<Seq<StmtView>, ErrorView>(stmts_view(statements@)),
            decreases s.len() - self.cursor(),
        {
            if self.lexer.peek().is_none() {
                assert(stmts_view(statements@) + Seq::empty() =~= stmts_view(statements@));
                break;
            }
            match self.declaration() {
                Err(e) => {
                    return Err(e);
                },
                Ok(d) => {
                    proof {
                        lemma_stmts_view_push(statements@, d);
                        let ghost rest = program(s, self.cursor());
                        match rest {
                            Ok(more) => {
                                assert(stmts_view(statements@) + (seq![d@] + more) =~= stmts_view(
                                    statements@,
                                ).push(d@) + more);
                            },
                            Err(_) => {},
                        }
                    }
                    statements.push(d);
                },
            }
        }
        Ok(statements)
    }

    /// Whether the next token is one of `tokens`; consumes nothing.
    fn par(&mut self, tokens: &[Token]) -> (r: bool)
        requires
            old(self).wf(),
        ensures
            final(self).wf(),
            final(self).src() == old(self).src(),
            final(self).cursor() == old(self).cursor(),
            r == (front(old(self).src(), old(self).cursor()) matches Some(t) && tokens@.contains(t)),
    {
        match self.lexer.peek() {
            Some(token) => contains(tokens, token),
            None => false,
        }
    }

    /// Consumes the next token, which must be one of `tokens`.
    fn must_be_next(&mut self, tokens: &[Token]) -> (r: Result<Token, ParserError>)
        requires
            old(self).wf(),
        ensures
            final(self).wf(),
            final(self).src() == old(self).src(),
            match expect(old(self).src(), old(self).cursor(), tokens@) {
                Ok((t, a, b)) => {
                    &&& r matches Ok(x) && x == t
                    &&& final(self).cursor() == b
                    &&& final(self).lexer.last_span() == (a, b)
                    &&& old(self).cursor() <= a < b
                },
                Err(e) => r matches Err(x) && x@ == e,
            },
    {
        match self.lexer.next() {
            Some(token) => {
                if contains(tokens, token) {
                    Ok(token)
                } else {
                    Err(ParserError::ExpectedToken(vstd::slice::slice_to_vec(tokens), Some(token)))
                }
            },
            None => Err(ParserError::ExpectedToken(vstd::slice::slice_to_vec(tokens), None)),
        }
    }
}

// The productions. Each one is proved to compute the grammar function of the
// same name from the position where it starts.
impl Parser {
    fn declaration(&mut self) -> (r: Result<Stmt, ParserError>)
        requires
            old(self).wf(),
        ensures
            final(self).wf(),
            final(self).src() == old(self).src(),
            agrees(r, final(self).cursor(), declaration(old(self).src(), old(self).cursor())),
            r is Ok ==> old(self).cursor() < final(self).cursor(),
        decreases old(self).src().len() - old(self).cursor(), 8int,
    {
        proof {
            lemma_single(Token::Let, Token::Let);
            if let Some(t) = front(self.src(), self.cursor()) {
                lemma_single(Token::Let, t);
            }
        }
        if self.par(&[Token::Let]) {
            self.variable_declaration()
        } else {
            self.statement()
        }
    }

    fn variable_declaration(&mut self) -> (r: Result<Stmt, ParserError>)
        requires
            old(self).wf(),
        ensures
            final(self).wf(),
            final(self).src() == old(self).src(),
            agrees(
                r,
                final(self).cursor(),
                variable_declaration(old(self).src(), old(self).cursor()),
            ),
            r is Ok ==> old(self).cursor() < final(self).cursor(),
        decreases old(self).src().len() - old(self).cursor(), 6int,
    {
        if self.lexer.next().is_none() {
            return Err(ParserError::ExpectedExpression);
        }
        let ident: &[Token] = &[Token::Ident];
        assert(ident@ =~= seq![Token::Ident]);
        match self.must_be_next(ident) {
            Err(e) => {
                return Err(e);
            },
            Ok(_) => {},
        }
        let name = self.lexer.slice();
        let mut value: Option<Expr> = None;
        proof {
            if let Some(t) = front(self.src(), self.cursor()) {
                lemma_single(Token::Equal, t);
            }
        }
        if self.par(&[Token::Equal]) {
            self.lexer.next();
            match self.expression() {
                Err(e) => {
                    return Err(e);
                },
                Ok(v) => {
                    value = Some(v);
                },
            }
        }
        Ok(Stmt::VariableDeclaration { name, value })
    }

    fn statement(&mut self) -> (r: Result<Stmt, ParserError>)
        requires
            old(self).wf(),
        ensures
            final(self).wf(),
            final(self).src() == old(self).src(),
            agrees(r, final(self).cursor(), statement(old(self).src(), old(self).cursor())),
            r is Ok ==> old(self).cursor() < final(self).cursor(),
        decreases old(self).src().len() - old(self).cursor(), 7int,
    {
        proof {
            if let Some(t) = front(self.src(), self.cursor()) {
                lemma_single(Token::Comment, t);
                lemma_single(Token::If, t);
                lemma_single(Token::LeftBrace, t);
            }
        }
        if self.par(&[Token::Comment]) {
            return self.comment_statement();
        }
        if self.par(&[Token::If]) {
            return self.if_statement();
        }
        if self.par(&[Token::LeftBrace]) {
            return self.block_statement();
        }
        match self.expression() {
            Ok(e) => Ok(Stmt::Expr(e)),
            Err(e) => Err(e),
        }
    }

    fn comment_statement(&mut self) -> (r: Result<Stmt, ParserError>)
        requires
            old(self).wf(),
        ensures
            final(self).wf(),
            final(self).src() == old(self).src(),
            agrees(
                r,
                final(self).cursor(),
                comment_statement(old(self).src(), old(self).cursor()),
            ),
            r is Ok ==> old(self).cursor() < final(self).cursor(),
    {
        if self.lexer.next().is_none() {
            return Err(ParserError::ExpectedExpression);
        }
        let raw = self.lexer.slice();
        let text = comment_text(raw.as_str());
        proof {
            let (a, b) = self.lexer.last_span();
            assert(raw@.subrange(1, raw@.len() as int) =~= self.src().subrange(a + 1, b));
        }
        Ok(Stmt::Comment(text))
    }

    fn if_statement(&mut self) -> (r: Result<Stmt, ParserError>)
        requires
            old(self).wf(),
        ensures
            final(self).wf(),
            final(self).src() == old(self).src(),
            agrees(r, final(self).cursor(), if_statement(old(self).src(), old(self).cursor())),
            r is Ok ==> old(self).cursor() < final(self).cursor(),
        decreases old(self).src().len() - old(self).cursor(), 6int,
    {
        if self.lexer.next().is_none() {
            return Err(ParserError::ExpectedExpression);
        }
        let condition = match self.expression() {
            Ok(e) => e,
            Err(e) => {
                return Err(e);
            },
        };
        let then = match self.block_statement() {
            Ok(b) => b,
            Err(e) => {
                return Err(e);
            },
        };
        let mut otherwise: Option<Box<Stmt>> = None;
        proof {
            if let Some(t) = front(self.src(), self.cursor()) {
                lemma_single(Token::Else, t);
            }
        }
        if self.par(&[Token::Else]) {
            self.lexer.next();
            match self.block_statement() {
                Ok(b) => {
                    otherwise = Some(Box::new(b));
                },
                Err(e) => {
                    return Err(e);
                },
            }
        }
        Ok(Stmt::If { condition, then: Box::new(then), otherwise })
    }

    fn block_statement(&mut self) -> (r: Result<Stmt, ParserError>)
        requires
            old(self).wf(),
        ensures
            final(self).wf(),
            final(self).src() == old(self).src(),
            agrees(
                r,
                final(self).cursor(),
                block_statement(old(self).src(), old(self).cursor()),
            ),
            r is Ok ==> old(self).cursor() < final(self).cursor(),
        decreases old(self).src().len() - old(self).cursor(), 6int,
    {
        let ghost s = self.src();
        let ghost c = self.cursor();
        let open: &[Token] = &[Token::LeftBrace];
        assert(open@ =~= seq![Token::LeftBrace]);
        match self.must_be_next(open) {
            Err(e) => {
                return Err(e);
            },
            Ok(_) => {},
        }
        let ghost c1 = self.cursor();
        let mut statements: Vec<Stmt> = Vec::new();
        loop
            invariant
                self.wf(),
                self.src() == s,
                s == old(self).src(),
                c == old(self).cursor(),
                c < c1 <= self.cursor(),
                expect(s, c, seq![Token::LeftBrace]) matches Ok((_, _, e1)) && e1 == c1,
                block_items(s, c1) == prepend_items(
                    stmts_view(statements@),
                    block_items(s, self.cursor()),
                ),
            ensures
                self.wf(),
                self.src() == s,
                c < self.cursor(),
                block_items(s, c1) == Ok::<(Seq<StmtView>, int), ErrorView>(
                    (stmts_view(statements@), self.cursor()),
                ),
            decreases s.len() - self.cursor(),
        {
            match self.lexer.peek() {
                None => {
                    assert(stmts_view(statements@) + Seq::empty() =~= stmts_view(statements@));
                    break;
                },
                Some(t) => {
                    if t == Token::RightBrace {
                        assert(stmts_view(statements@) + Seq::empty() =~= stmts_view(
                            statements@,
                        ));
                        break;
                    }
                },
            }
            match self.declaration() {
                Err(e) => {
                    return Err(e);
                },
                Ok(d) => {
                    proof {
                        lemma_stmts_view_push(statements@, d);
                        let ghost rest = block_items(s, self.cursor());
                        match rest {
                            Ok((more, _)) => {
                                assert(stmts_view(statements@) + (seq![d@] + more) =~= stmts_view(
                                    statements@,
                                ).push(d@) + more);
                            },
                            Err(_) => {},
                        }
                    }
                    statements.push(d);
                },
            }
        }
        let close: &[Token] = &[Token::RightBrace];
        assert(close@ =~= seq![Token::RightBrace]);
        match self.must_be_next(close) {
            Err(e) => Err(e),
            Ok(_) => Ok(Stmt::Block(statements)),
        }
    }

    fn expression(&mut self) -> (r: Result<Expr, ParserError>)
        requires
            old(self).wf(),
        ensures
            final(self).wf(),
            final(self).src() == old(self).src(),
            agrees(r, final(self).cursor(), expression(old(self).src(), old(self).cursor())),
            r is Ok ==> old(self).cursor() < final(self).cursor(),
        decreases old(self).src().len() - old(self).cursor(), 5int,
    {
        self.parse_precedence(Precedence::Assignment)
    }

    fn binary(&mut self, left: Box<Expr>) -> (r: Result<Expr, ParserError>)
        requires
            old(self).wf(),
        ensures
            final(self).wf(),
            final(self).src() == old(self).src(),
            agrees(r, final(self).cursor(), binary(old(self).src(), old(self).cursor(), (*left)@)),
            r is Ok ==> old(self).cursor() < final(self).cursor(),
        decreases old(self).src().len() - old(self).cursor(), 2int,
    {
        let op = match self.must_be_next(
            &[
                Token::Plus,
                Token::Minus,
                Token::Star,
                Token::Slash,
                Token::EqualEqual,
                Token::BangEqual,
                Token::Greater,
                Token::GreaterEqual,
                Token::Less,
                Token::LessEqual,
            ],
        ) {
            Ok(t) => t,
            Err(e) => {
                return Err(e);
            },
        };
        let precedence = get_rule(&op).get_next_precedence();
        let right = match self.parse_precedence(precedence) {
            Ok(e) => e,
            Err(e) => {
                return Err(e);
            },
        };
        Ok(Expr::Binary { left, op, right: Box::new(right) })
    }

    fn unary(&mut self) -> (r: Result<Expr, ParserError>)
        requires
            old(self).wf(),
        ensures
            final(self).wf(),
            final(self).src() == old(self).src(),
            agrees(r, final(self).cursor(), unary(old(self).src(), old(self).cursor())),
            r is Ok ==> old(self).cursor() < final(self).cursor(),
        decreases old(self).src().len() - old(self).cursor(), 2int,
    {
        let op = match self.must_be_next(&[Token::Bang, Token::Minus]) {
            Ok(t) => t,
            Err(e) => {
                return Err(e);
            },
        };
        let expr = match self.parse_precedence(Precedence::Unary) {
            Ok(e) => e,
            Err(e) => {
                return Err(e);
            },
        };
        Ok(Expr::Unary { op, expr: Box::new(expr) })
    }

    fn primary(&mut self) -> (r: Result<Expr, ParserError>)
        requires
            old(self).wf(),
        ensures
            final(self).wf(),
            final(self).src() == old(self).src(),
            agrees(r, final(self).cursor(), primary(old(self).src(), old(self).cursor())),
            r is Ok ==> old(self).cursor() < final(self).cursor(),
    {
        let token = match self.must_be_next(
            &[Token::True, Token::False, Token::Num, Token::Str, Token::Null],
        ) {
            Ok(t) => t,
            Err(e) => {
                return Err(e);
            },
        };
        let value = match token {
            Token::True => Value::Bool(true),
            Token::False => Value::Bool(false),
            Token::Num => Value::Num(self.lexer.slice()),
            Token::Str => {
                let slice = self.lexer.slice();
                let n = slice.as_str().unicode_len();
                proof {
                    let (a, b) = self.lexer.last_span();
                    crate::lex::lemma_string_token(self.src(), a);
                }
                Value::Str(String::from_str(slice.as_str().substring_char(1, n - 1)))
            },
            Token::Null => Value::Null,
            _ => {
                return Err(ParserError::InvalidValue);
            },
        };
        Ok(Expr::Literal(value))
    }

    fn grouping(&mut self) -> (r: Result<Expr, ParserError>)
        requires
            old(self).wf(),
        ensures
            final(self).wf(),
            final(self).src() == old(self).src(),
            agrees(r, final(self).cursor(), grouping(old(self).src(), old(self).cursor())),
            r is Ok ==> old(self).cursor() < final(self).cursor(),
        decreases old(self).src().len() - old(self).cursor(), 2int,
    {
        let open: &[Token] = &[Token::LeftParen];
        assert(open@ =~= seq![Token::LeftParen]);
        match self.must_be_next(open) {
            Err(e) => {
                return Err(e);
            },
            Ok(_) => {},
        }
        let value = match self.expression() {
            Ok(e) => Expr::Grouping(Box::new(e)),
            Err(e) => {
                return Err(e);
            },
        };
        let close: &[Token] = &[Token::RightParen];
        assert(close@ =~= seq![Token::RightParen]);
        match self.must_be_next(close) {
            Err(e) => Err(e),
            Ok(_) => Ok(value),
        }
    }

    fn variable(&mut self) -> (r: Result<Expr, ParserError>)
        requires
            old(self).wf(),
        ensures
            final(self).wf(),
            final(self).src() == old(self).src(),
            agrees(r, final(self).cursor(), variable(old(self).src(), old(self).cursor())),
            r is Ok ==> old(self).cursor() < final(self).cursor(),
        decreases old(self).src().len() - old(self).cursor(), 2int,
    {
        if self.lexer.next().is_none() {
            return Err(ParserError::ExpectedExpression);
        }
        let name = self.lexer.slice();
        proof {
            if let Some(t) = front(self.src(), self.cursor()) {
                lemma_single(Token::Equal, t);
            }
        }
        if self.par(&[Token::Equal]) {
            self.lexer.next();
            match self.expression() {
                Ok(value) => Ok(Expr::Assignment(name, Box::new(value))),
                Err(e) => Err(e),
            }
        } else {
            Ok(Expr::Variable(name))
        }
    }

    fn parse_precedence(&mut self, prec: Precedence) -> (r: Result<Expr, ParserError>)
        requires
            old(self).wf(),
        ensures
            final(self).wf(),
            final(self).src() == old(self).src(),
            agrees(
                r,
                final(self).cursor(),
                parse_precedence(old(self).src(), old(self).cursor(), prec),
            ),
            r is Ok ==> old(self).cursor() < final(self).cursor(),
        decreases old(self).src().len() - old(self).cursor(), 4int,
    {
        let ghost s = self.src();
        let ghost c = self.cursor();
        let peek = match self.lexer.peek() {
            Some(t) => t,
            None => {
                return Err(ParserError::ExpectedExpression);
            },
        };
        let prefix_rule = get_rule(&peek).prefix;
        let mut left = match self.parse_by_rule(prefix_rule, None) {
            Ok(e) => e,
            Err(e) => {
                return Err(e);
            },
        };
        loop
            invariant
                self.wf(),
                self.src() == s,
                s == old(self).src(),
                c == old(self).cursor(),
                c < self.cursor(),
                parse_precedence(s, c, prec) == infix_loop(s, self.cursor(), prec, left@),
            ensures
                self.wf(),
                self.src() == s,
                c < self.cursor(),
                parse_precedence(s, c, prec) == Ok::<(ExprView, int), ErrorView>(
                    (left@, self.cursor()),
                ),
            decreases s.len() - self.cursor(),
        {
            let next = match self.lexer.peek() {
                Some(t) => t,
                None => {
                    break;
                },
            };
            let rule = get_rule(&next);
            if !(prec <= rule.precedence) {
                break;
            }
            left = match self.parse_by_rule(rule.infix, Some(Box::new(left))) {
                Ok(e) => e,
                Err(e) => {
                    return Err(e);
                },
            };
        }
        Ok(left)
    }

    fn parse_by_rule(&mut self, rule: ParseFn, operand: Option<Box<Expr>>) -> (r: Result<
        Expr,
        ParserError,
    >)
        requires
            old(self).wf(),
        ensures
            final(self).wf(),
            final(self).src() == old(self).src(),
            agrees(
                r,
                final(self).cursor(),
                parse_by_rule(old(self).src(), old(self).cursor(), rule, operand_view(operand)),
            ),
            r is Ok ==> old(self).cursor() < final(self).cursor(),
        decreases old(self).src().len() - old(self).cursor(), 3int,
    {
        match rule {
            ParseFn::Unary => self.unary(),
            ParseFn::Binary => match operand {
                Some(left) => self.binary(left),
                None => Err(ParserError::ExpectedExpression),
            },
            ParseFn::Grouping => self.grouping(),
            ParseFn::Literal => self.primary(),
            ParseFn::Variable => self.variable(),
            ParseFn::Nothing => match self.lexer.next() {
                Some(t) => Err(ParserError::UnexpectedToken(t)),
                None => Err(ParserError::ExpectedExpression),
            },
        }
    }
}

/// Only an identifier can be assigned to: where a source starts with a
/// literal followed by `=`, parsing it fails on the `=`.
pub proof fn lemma_literal_not_assignable(s: Seq<char>)
    requires
        next_token(s, 0) matches Some((t, _, b)) && prefix_of(t) == ParseFn::Literal && front(
            s,
            b,
        ) == Some(Token::Equal),
    ensures
        program(s, 0) == Err::<Seq<StmtView>, ErrorView>(ErrorView::UnexpectedToken(Token::Equal)),
{
    crate::lex::lemma_next_token_span(s, 0);
    let (t, a, b) = next_token(s, 0)->Some_0;
    crate::lex::lemma_next_token_span(s, b);
    let (u, a2, b2) = next_token(s, b)->Some_0;
    assert(literal_tokens().contains(t)) by {
        if t == Token::True {
            assert(literal_tokens()[0] == t);
        } else if t == Token::False {
            assert(literal_tokens()[1] == t);
        } else if t == Token::Num {
            assert(literal_tokens()[2] == t);
        } else if t == Token::Str {
            assert(literal_tokens()[3] == t);
        } else {
            assert(literal_tokens()[4] == t);
        }
    }
    let lit = ExprView::Literal(literal_value(t, s.subrange(a, b))->Some_0);
    assert(primary(s, 0) == Ok::<(ExprView, int), ErrorView>((lit, b)));
    assert(infix_loop(s, b, Precedence::Assignment, lit) == Ok::<(ExprView, int), ErrorView>(
        (lit, b),
    ));
    assert(parse_precedence(s, 0, Precedence::Assignment) == Ok::<(ExprView, int), ErrorView>(
        (lit, b),
    ));
    assert(declaration(s, 0) == Ok::<(StmtView, int), ErrorView>((StmtView::Expr(lit), b)));
    assert(parse_precedence(s, b, Precedence::Assignment) == Err::<(ExprView, int), ErrorView>(
        ErrorView::UnexpectedToken(Token::Equal),
    ));
    assert(declaration(s, b) == Err::<(StmtView, int), ErrorView>(
        ErrorView::UnexpectedToken(Token::Equal),
    ));
    assert(program(s, b) == Err::<Seq<StmtView>, ErrorView>(
        ErrorView::UnexpectedToken(Token::Equal),
    ));
    assert(advances(s, 0, b));
}

/// Whether `r` is a result or an error that the grammar can give: never
/// `InvalidValue` or `TypeCoercion`.
pub open spec fn reachable_error<T>(r: Result<T, ErrorView>) -> bool {
    r matches Err(e) ==> !(e is InvalidValue) && !(e is TypeCoercion)
}

/// Parsing fails only with `UnexpectedToken`, `ExpectedToken` or
/// `ExpectedExpression`: every literal token makes a value, and numerals are
/// kept as text, so `InvalidValue` and `TypeCoercion` never come.
pub proof fn lemma_program_errors(s: Seq<char>, c: int)
    ensures
        reachable_error(program(s, c)),
    decreases s.len() - c, 10int,
{
    if front(s, c) is Some {
        lemma_declaration_errors(s, c);
        if let Ok((_, d)) = declaration(s, c) {
            if advances(s, c, d) {
                lemma_program_errors(s, d);
            }
        }
    }
}

proof fn lemma_declaration_errors(s: Seq<char>, c: int)
    ensures
        reachable_error(declaration(s, c)),
    decreases s.len() - c, 8int,
{
    if front(s, c) == Some(Token::Let) {
        lemma_variable_declaration_errors(s, c);
    } else {
        lemma_statement_errors(s, c);
    }
}

proof fn lemma_variable_declaration_errors(s: Seq<char>, c: int)
    ensures
        reachable_error(variable_declaration(s, c)),
    decreases s.len() - c, 6int,
{
    if let Some((_, _, c1)) = next_token(s, c) {
        if advances(s, c, c1) {
            if let Ok((_, _, c2)) = expect(s, c1, seq![Token::Ident]) {
                if let Some((_, _, c3)) = next_token(s, c2) {
                    if advances(s, c, c3) {
                        lemma_expression_errors(s, c3);
                    }
                }
            }
        }
    }
}

proof fn lemma_statement_errors(s: Seq<char>, c: int)
    ensures
        reachable_error(statement(s, c)),
    decreases s.len() - c, 7int,
{
    if front(s, c) == Some(Token::Comment) {
    } else if front(s, c) == Some(Token::If) {
        lemma_if_statement_errors(s, c);
    } else if front(s, c) == Some(Token::LeftBrace) {
        lemma_block_statement_errors(s, c);
    } else {
        lemma_expression_errors(s, c);
    }
}

proof fn lemma_if_statement_errors(s: Seq<char>, c: int)
    ensures
        reachable_error(if_statement(s, c)),
    decreases s.len() - c, 6int,
{
    if let Some((_, _, c1)) = next_token(s, c) {
        if advances(s, c, c1) {
            lemma_expression_errors(s, c1);
            if let Ok((_, c2)) = expression(s, c1) {
                if advances(s, c, c2) {
                    lemma_block_statement_errors(s, c2);
                    if let Ok((_, c3)) = block_statement(s, c2) {
                        if let Some((_, _, c4)) = next_token(s, c3) {
                            if advances(s, c, c4) {
                                lemma_block_statement_errors(s, c4);
                            }
                        }
                    }
                }
            }
        }
    }
}

proof fn lemma_block_statement_errors(s: Seq<char>, c: int)
    ensures
        reachable_error(block_statement(s, c)),
    decreases s.len() - c, 6int,
{
    if let Ok((_, _, c1)) = expect(s, c, seq![Token::LeftBrace]) {
        if advances(s, c, c1) {
            lemma_block_items_errors(s, c1);
        }
    }
}

proof fn lemma_block_items_errors(s: Seq<char>, c: int)
    ensures
        reachable_error(block_items(s, c)),
    decreases s.len() - c, 10int,
{
    if front(s, c) is Some && front(s, c) != Some(Token::RightBrace) {
        lemma_declaration_errors(s, c);
        if let Ok((_, d)) = declaration(s, c) {
            if advances(s, c, d) {
                lemma_block_items_errors(s, d);
            }
        }
    }
}

proof fn lemma_expression_errors(s: Seq<char>, c: int)
    ensures
        reachable_error(expression(s, c)),
    decreases s.len() - c, 5int,
{
    lemma_parse_precedence_errors(s, c, Precedence::Assignment);
}

proof fn lemma_parse_precedence_errors(s: Seq<char>, c: int, p: Precedence)
    ensures
        reachable_error(parse_precedence(s, c, p)),
    decreases s.len() - c, 4int,
{
    if let Some((t, _, _)) = next_token(s, c) {
        lemma_parse_by_rule_errors(s, c, prefix_of(t), None);
        if let Ok((left, c1)) = parse_by_rule(s, c, prefix_of(t), None) {
            if advances(s, c, c1) {
                lemma_infix_loop_errors(s, c1, p, left);
            }
        }
    }
}

proof fn lemma_infix_loop_errors(s: Seq<char>, c: int, p: Precedence, left: ExprView)
    ensures
        reachable_error(infix_loop(s, c, p, left)),
    decreases s.len() - c, 5int,
{
    if let Some((t, _, _)) = next_token(s, c) {
        if level(p) <= level(precedence_of(t)) {
            lemma_parse_by_rule_errors(s, c, infix_of(t), Some(left));
            if let Ok((e, d)) = parse_by_rule(s, c, infix_of(t), Some(left)) {
                if advances(s, c, d) {
                    lemma_infix_loop_errors(s, d, p, e);
                }
            }
        }
    }
}

proof fn lemma_parse_by_rule_errors(
    s: Seq<char>,
    c: int,
    rule: ParseFn,
    operand: Option<ExprView>,
)
    ensures
        reachable_error(parse_by_rule(s, c, rule, operand)),
    decreases s.len() - c, 3int,
{
    match rule {
        ParseFn::Unary => {
            if let Ok((_, _, c1)) = expect(s, c, unary_ops()) {
                if advances(s, c, c1) {
                    lemma_parse_precedence_errors(s, c1, Precedence::Unary);
                }
            }
        },
        ParseFn::Binary => {
            if let Some(left) = operand {
                if let Ok((op, _, c1)) = expect(s, c, binary_ops()) {
                    if advances(s, c, c1) {
                        lemma_parse_precedence_errors(s, c1, tighter(precedence_of(op)));
                    }
                }
            }
        },
        ParseFn::Grouping => {
            if let Ok((_, _, c1)) = expect(s, c, seq![Token::LeftParen]) {
                if advances(s, c, c1) {
                    lemma_expression_errors(s, c1);
                }
            }
        },
        ParseFn::Literal => {
            if let Ok((t, _, _)) = expect(s, c, literal_tokens()) {
                let ts = literal_tokens();
                assert(ts.contains(t));
                let k = choose|k: int| 0 <= k < ts.len() && ts[k] == t;
                assert(k == 0 || k == 1 || k == 2 || k == 3 || k == 4);
            }
        },
        ParseFn::Variable => {
            if let Some((_, _, b)) = next_token(s, c) {
                if let Some((_, _, c2)) = next_token(s, b) {
                    if advances(s, c, c2) {
                        lemma_expression_errors(s, c2);
                    }
                }
            }
        },
        ParseFn::Nothing => {},
    }
}

} // verus!
