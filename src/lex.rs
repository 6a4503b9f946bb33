//! The tokenizer: a longest-match scanner over the source characters,
//! stated first as functions on the characters, with one token of lookahead.
use vstd::prelude::*;

verus! {

/// One lexical unit. The literal kinds (`Comment`, `Ident`, `Str`, `Num`)
/// carry no text of their own: the lexer hands out the matched text.
#[derive(Debug, Clone, Copy, PartialEq, Eq, Structural)]
pub enum Token {
    // Single-character tokens
    LeftParen,
    RightParen,
    LeftBrace,
    RightBrace,
    Comma,
    SemiColon,
    Dot,
    // Operators
    Minus,
    Plus,
    Slash,
    Star,
    // Comparison
    Bang,
    BangEqual,
    Equal,
    EqualEqual,
    Greater,
    GreaterEqual,
    Less,
    LessEqual,
    // Logical
    And,
    Or,
    // Keywords
    Let,
    Const,
    Func,
    Null,
    True,
    False,
    Loop,
    Break,
    Continue,
    Return,
    If,
    Else,
    // Literals
    Comment,
    Ident,
    Str,
    Num,
    /// A character that starts no token.
    Error,
}


// ---------------------------------------------------------------------------
// The token grammar, as functions on the source characters.
// ---------------------------------------------------------------------------

/// Characters that separate tokens and make none.
pub open spec fn is_space(c: char) -> bool {
    c == ' ' || c == '\t' || c == '\n' || c == '\x0C'
}

pub open spec fn is_digit(c: char) -> bool {
    '0' <= c && c <= '9'
}

pub open spec fn is_alpha(c: char) -> bool {
    ('a' <= c && c <= 'z') || ('A' <= c && c <= 'Z')
}

pub open spec fn is_ident_start(c: char) -> bool {
    is_alpha(c) || c == '_'
}

pub open spec fn is_ident_char(c: char) -> bool {
    is_ident_start(c) || is_digit(c)
}

/// The escapes a string may hold after a backslash: `\t \u \n \"`.
pub open spec fn is_escape(c: char) -> bool {
    c == 't' || c == 'u' || c == 'n' || c == '"'
}

/// First position at or after `i` that holds no separator.
pub open spec fn skip_space(s: Seq<char>, i: int) -> int
    decreases s.len() - i,
{
    if 0 <= i < s.len() && is_space(s[i]) {
        skip_space(s, i + 1)
    } else {
        i
    }
}

/// End of the run of identifier characters that starts at `i`.
pub open spec fn ident_end(s: Seq<char>, i: int) -> int
    decreases s.len() - i,
{
    if 0 <= i < s.len() && is_ident_char(s[i]) {
        ident_end(s, i + 1)
    } else {
        i
    }
}

/// End of the run of digits that starts at `i`.
pub open spec fn digits_end(s: Seq<char>, i: int) -> int
    decreases s.len() - i,
{
    if 0 <= i < s.len() && is_digit(s[i]) {
        digits_end(s, i + 1)
    } else {
        i
    }
}

/// End of the number that starts at digit `i`: digits, then at most one `.`
/// followed by digits.
pub open spec fn number_end(s: Seq<char>, i: int) -> int {
    let e = digits_end(s, i);
    if e + 1 < s.len() && s[e] == '.' && is_digit(s[e + 1]) {
        digits_end(s, e + 1)
    } else {
        e
    }
}

/// End of the comment whose text runs on from `i`: the next line break, or
/// the end of the source.
pub open spec fn comment_end(s: Seq<char>, i: int) -> int
    decreases s.len() - i,
{
    if 0 <= i < s.len() && s[i] != '\n' && s[i] != '\r' {
        comment_end(s, i + 1)
    } else {
        i
    }
}

/// End of the string whose body starts at `i` (just after the opening
/// quote), past the closing quote; `None` where no closing quote comes or a
/// backslash starts no escape.
pub open spec fn string_end(s: Seq<char>, i: int) -> Option<int>
    decreases s.len() - i,
{
    if i < 0 || i >= s.len() {
        None
    } else if s[i] == '"' {
        Some(i + 1)
    } else if s[i] == '\\' {
        if i + 1 < s.len() && is_escape(s[i + 1]) {
            string_end(s, i + 2)
        } else {
            None
        }
    } else {
        string_end(s, i + 1)
    }
}

/// The token that a word of identifier characters makes: a keyword, or `Ident`.
pub open spec fn keyword_of(w: Seq<char>) -> Token {
    if w == "let"@ {
        Token::Let
    } else if w == "const"@ {
        Token::Const
    } else if w == "fn"@ {
        Token::Func
    } else if w == "null"@ {
        Token::Null
    } else if w == "true"@ {
        Token::True
    } else if w == "false"@ {
        Token::False
    } else if w == "loop"@ {
        Token::Loop
    } else if w == "break"@ {
        Token::Break
    } else if w == "continue"@ {
        Token::Continue
    } else if w == "return"@ {
        Token::Return
    } else if w == "if"@ {
        Token::If
    } else if w == "else"@ {
        Token::Else
    } else {
        Token::Ident
    }
}

/// An operator of one character, or of two where the second is `second`.
pub open spec fn one_or_two(s: Seq<char>, i: int, second: char, short: Token, long: Token) -> (
    Token,
    int,
) {
    let n = s.len();
    if i + 1 < n && s[i + 1] == second {
        (long, i + 2)
    } else {
        (short, i + 1)
    }
}

/// The longest token that starts at `i`, which holds no separator, and where
/// it ends. A character that starts no token is an `Error` token of its own.
pub open spec fn token_at(s: Seq<char>, i: int) -> (Token, int) {
    let n = s.len();
    let c = s[i];
    if c == '(' {
        (Token::LeftParen, i + 1)
    } else if c == ')' {
        (Token::RightParen, i + 1)
    } else if c == '{' {
        (Token::LeftBrace, i + 1)
    } else if c == '}' {
        (Token::RightBrace, i + 1)
    } else if c == ',' {
        (Token::Comma, i + 1)
    } else if c == ';' {
        (Token::SemiColon, i + 1)
    } else if c == '.' {
        (Token::Dot, i + 1)
    } else if c == '-' {
        (Token::Minus, i + 1)
    } else if c == '+' {
        (Token::Plus, i + 1)
    } else if c == '/' {
        (Token::Slash, i + 1)
    } else if c == '*' {
        (Token::Star, i + 1)
    } else if c == '!' {
        one_or_two(s, i, '=', Token::Bang, Token::BangEqual)
    } else if c == '=' {
        one_or_two(s, i, '=', Token::Equal, Token::EqualEqual)
    } else if c == '>' {
        one_or_two(s, i, '=', Token::Greater, Token::GreaterEqual)
    } else if c == '<' {
        one_or_two(s, i, '=', Token::Less, Token::LessEqual)
    } else if c == '&' {
        one_or_two(s, i, '&', Token::Error, Token::And)
    } else if c == '|' {
        one_or_two(s, i, '|', Token::Error, Token::Or)
    } else if c == '#' {
        (Token::Comment, comment_end(s, i + 1))
    } else if c == '"' {
        match string_end(s, i + 1) {
            Some(e) => (Token::Str, e),
            None => (Token::Error, i + 1),
        }
    } else if is_digit(c) {
        (Token::Num, number_end(s, i))
    } else if is_ident_start(c) {
        let e = ident_end(s, i + 1);
        (keyword_of(s.subrange(i, e)), e)
    } else {
        (Token::Error, i + 1)
    }
}

/// The next token at or after `c`, with the span it covers; `None` once only
/// separators are left.
pub open spec fn next_token(s: Seq<char>, c: int) -> Option<(Token, int, int)> {
    let a = skip_space(s, c);
    if 0 <= a < s.len() {
        Some((token_at(s, a).0, a, token_at(s, a).1))
    } else {
        None
    }
}

// ---------------------------------------------------------------------------
// The scanner.
// ---------------------------------------------------------------------------

fn space(c: char) -> (r: bool)
    ensures
        r == is_space(c),
{
    c == ' ' || c == '\t' || c == '\n' || c == '\x0C'
}

fn digit(c: char) -> (r: bool)
    ensures
        r == is_digit(c),
{
    '0' <= c && c <= '9'
}

fn ident_start(c: char) -> (r: bool)
    ensures
        r == is_ident_start(c),
{
    ('a' <= c && c <= 'z') || ('A' <= c && c <= 'Z') || c == '_'
}

fn ident_char(c: char) -> (r: bool)
    ensures
        r == is_ident_char(c),
{
    ident_start(c) || digit(c)
}

fn scan_space(s: &Vec<char>, i: usize) -> (r: usize)
    requires
        i <= s@.len(),
    ensures
        r == skip_space(s@, i as int),
        i <= r <= s@.len(),
{
    let mut j: usize = i;
    while j < s.len() && space(s[j])
        invariant
            i <= j <= s@.len(),
            skip_space(s@, j as int) == skip_space(s@, i as int),
        decreases s@.len() - j,
    {
        j = j + 1;
    }
    j
}

fn scan_ident(s: &Vec<char>, i: usize) -> (r: usize)
    requires
        i <= s@.len(),
    ensures
        r == ident_end(s@, i as int),
        i <= r <= s@.len(),
{
    let mut j: usize = i;
    while j < s.len() && ident_char(s[j])
        invariant
            i <= j <= s@.len(),
            ident_end(s@, j as int) == ident_end(s@, i as int),
        decreases s@.len() - j,
    {
        j = j + 1;
    }
    j
}

fn scan_digits(s: &Vec<char>, i: usize) -> (r: usize)
    requires
        i <= s@.len(),
    ensures
        r == digits_end(s@, i as int),
        i <= r <= s@.len(),
{
    let mut j: usize = i;
    while j < s.len() && digit(s[j])
        invariant
            i <= j <= s@.len(),
            digits_end(s@, j as int) == digits_end(s@, i as int),
        decreases s@.len() - j,
    {
        j = j + 1;
    }
    j
}

fn scan_number(s: &Vec<char>, i: usize) -> (r: usize)
    requires
        i < s@.len(),
        is_digit(s@[i as int]),
    ensures
        r == number_end(s@, i as int),
        i < r <= s@.len(),
{
    let n = s.len();
    let e = scan_digits(s, i + 1);
    assert(digits_end(s@, i as int) == digits_end(s@, i + 1));
    if e < s.len() && e + 1 < s.len() && s[e] == '.' && digit(s[e + 1]) {
        scan_digits(s, e + 1)
    } else {
        e
    }
}

fn scan_comment(s: &Vec<char>, i: usize) -> (r: usize)
    requires
        i <= s@.len(),
    ensures
        r == comment_end(s@, i as int),
        i <= r <= s@.len(),
{
    let mut j: usize = i;
    while j < s.len() && s[j] != '\n' && s[j] != '\r'
        invariant
            i <= j <= s@.len(),
            comment_end(s@, j as int) == comment_end(s@, i as int),
        decreases s@.len() - j,
    {
        j = j + 1;
    }
    j
}

fn scan_string(s: &Vec<char>, i: usize) -> (r: Option<usize>)
    requires
        i <= s@.len(),
    ensures
        r matches Some(e) ==> string_end(s@, i as int) == Some(e as int) && i < e <= s@.len(),
        r is None ==> string_end(s@, i as int) is None,
{
    let mut j: usize = i;
    while j < s.len()
        invariant
            i <= j <= s@.len(),
            string_end(s@, j as int) == string_end(s@, i as int),
        decreases s@.len() - j,
    {
        if s[j] == '"' {
            return Some(j + 1);
        } else if s[j] == '\\' {
            if j + 1 < s.len() && (s[j + 1] == 't' || s[j + 1] == 'u' || s[j + 1] == 'n' || s[j
                + 1] == '"') {
                j = j + 2;
            } else {
                return None;
            }
        } else {
            j = j + 1;
        }
    }
    None
}

/// Whether `s[a..e]` spells `k`.
fn spells(s: &Vec<char>, a: usize, e: usize, k: &str) -> (r: bool)
    requires
        a <= e <= s@.len(),
    ensures
        r == (s@.subrange(a as int, e as int) == k@),
{
    let n = k.unicode_len();
    if e - a != n {
        return false;
    }
    let mut i: usize = 0;
    while i < n
        invariant
            n == k@.len(),
            e - a == n,
            a <= e <= s@.len(),
            0 <= i <= n,
            forall|j: int| 0 <= j < i ==> s@[a + j] == k@[j],
        decreases n - i,
    {
        if s[a + i] != k.get_char(i) {
            assert(s@.subrange(a as int, e as int)[i as int] != k@[i as int]);
            return false;
        }
        i = i + 1;
    }
    assert(s@.subrange(a as int, e as int) =~= k@);
    true
}

fn keyword(s: &Vec<char>, a: usize, e: usize) -> (r: Token)
    requires
        a <= e <= s@.len(),
    ensures
        r == keyword_of(s@.subrange(a as int, e as int)),
{
    if spells(s, a, e, "let") {
        Token::Let
    } else if spells(s, a, e, "const") {
        Token::Const
    } else if spells(s, a, e, "fn") {
        Token::Func
    } else if spells(s, a, e, "null") {
        Token::Null
    } else if spells(s, a, e, "true") {
        Token::True
    } else if spells(s, a, e, "false") {
        Token::False
    } else if spells(s, a, e, "loop") {
        Token::Loop
    } else if spells(s, a, e, "break") {
        Token::Break
    } else if spells(s, a, e, "continue") {
        Token::Continue
    } else if spells(s, a, e, "return") {
        Token::Return
    } else if spells(s, a, e, "if") {
        Token::If
    } else if spells(s, a, e, "else") {
        Token::Else
    } else {
        Token::Ident
    }
}

fn scan_pair(s: &Vec<char>, i: usize, second: char, short: Token, long: Token) -> (r: (
    Token,
    usize,
))
    requires
        i < s@.len(),
    ensures
        (r.0, r.1 as int) == one_or_two(s@, i as int, second, short, long),
{
    let n = s.len();
    if i + 1 < n && s[i + 1] == second {
        (long, i + 2)
    } else {
        (short, i + 1)
    }
}

/// The longest token at `i`.
fn scan_token(s: &Vec<char>, i: usize) -> (r: (Token, usize))
    requires
        i < s@.len(),
    ensures
        (r.0, r.1 as int) == token_at(s@, i as int),
        i < r.1 <= s@.len(),
{
    let n = s.len();
    let c = s[i];
    if c == '(' {
        (Token::LeftParen, i + 1)
    } else if c == ')' {
        (Token::RightParen, i + 1)
    } else if c == '{' {
        (Token::LeftBrace, i + 1)
    } else if c == '}' {
        (Token::RightBrace, i + 1)
    } else if c == ',' {
        (Token::Comma, i + 1)
    } else if c == ';' {
        (Token::SemiColon, i + 1)
    } else if c == '.' {
        (Token::Dot, i + 1)
    } else if c == '-' {
        (Token::Minus, i + 1)
    } else if c == '+' {
        (Token::Plus, i + 1)
    } else if c == '/' {
        (Token::Slash, i + 1)
    } else if c == '*' {
        (Token::Star, i + 1)
    } else if c == '!' {
        scan_pair(s, i, '=', Token::Bang, Token::BangEqual)
    } else if c == '=' {
        scan_pair(s, i, '=', Token::Equal, Token::EqualEqual)
    } else if c == '>' {
        scan_pair(s, i, '=', Token::Greater, Token::GreaterEqual)
    } else if c == '<' {
        scan_pair(s, i, '=', Token::Less, Token::LessEqual)
    } else if c == '&' {
        scan_pair(s, i, '&', Token::Error, Token::And)
    } else if c == '|' {
        scan_pair(s, i, '|', Token::Error, Token::Or)
    } else if c == '#' {
        (Token::Comment, scan_comment(s, i + 1))
    } else if c == '"' {
        match scan_string(s, i + 1) {
            Some(e) => (Token::Str, e),
            None => (Token::Error, i + 1),
        }
    } else if digit(c) {
        (Token::Num, scan_number(s, i))
    } else if ident_start(c) {
        let e = scan_ident(s, i + 1);
        (keyword(s, i, e), e)
    } else {
        (Token::Error, i + 1)
    }
}

/// The next token at or after `c`, with its span.
fn scan(s: &Vec<char>, c: usize) -> (r: Option<(Token, usize, usize)>)
    requires
        c <= s@.len(),
    ensures
        match next_token(s@, c as int) {
            Some((t, a, b)) => {
                &&& r matches Some((t2, a2, b2))
                &&& t2 == t && a2 == a && b2 == b
                &&& c <= a < b <= s@.len()
            },
            None => r is None,
        },
{
    let a = scan_space(s, c);
    if a < s.len() {
        let (t, b) = scan_token(s, a);
        Some((t, a, b))
    } else {
        None
    }
}

/// The kind of the next token at or after `c`.
pub open spec fn front(s: Seq<char>, c: int) -> Option<Token> {
    match next_token(s, c) {
        Some((t, _, _)) => Some(t),
        None => None,
    }
}

/// A tokenizer over one source text with one token of lookahead.
///
/// Its state is the source, a cursor (where the next token not yet handed
/// out by `next` is searched for), and the span of the last token scanned,
/// whose text `slice` gives.
pub struct Lexer {
    text: String,
    chars: Vec<char>,
    mark: usize,
    start: usize,
    end: usize,
    peeked: Option<Option<Token>>,
}

impl Lexer {
    /// The source text.
    pub closed spec fn src(&self) -> Seq<char> {
        self.chars@
    }

    /// Where the next token that `next` hands out is searched for.
    pub closed spec fn cursor(&self) -> int {
        self.mark as int
    }

    /// Span of the token scanned last.
    pub closed spec fn last_span(&self) -> (int, int) {
        (self.start as int, self.end as int)
    }

    /// The buffered lookahead, if any, is the token at the cursor.
    pub closed spec fn wf(&self) -> bool {
        &&& self.chars@ == self.text@
        &&& self.start <= self.end <= self.chars@.len()
        &&& self.mark <= self.chars@.len()
        &&& match self.peeked {
            Some(Some(t)) => {
                &&& next_token(self.chars@, self.mark as int) == Some(
                    (t, self.start as int, self.end as int),
                )
                &&& self.mark <= self.start < self.end
            },
            Some(None) => next_token(self.chars@, self.mark as int) is None,
            None => true,
        }
    }

    /// A lexer at the start of `source`.
    pub fn new(source: &str) -> (r: Lexer)
        ensures
            r.wf(),
            r.src() == source@,
            r.cursor() == 0,
            r.cursor() <= r.src().len(),
    {
        let mut chars: Vec<char> = Vec::new();
        for ch in it: source.chars()
            invariant
                chars@ == it.seq().take(it.index() as int),
        {
            chars.push(ch);
        }
        assert(chars@ =~= source@);
        Lexer {
            text: String::from_str(source),
            chars,
            mark: 0,
            start: 0,
            end: 0,
            peeked: None,
        }
    }

    /// The next token, without consuming it.
    pub fn peek(&mut self) -> (r: Option<Token>)
        requires
            old(self).wf(),
        ensures
            final(self).wf(),
            final(self).cursor() <= final(self).src().len(),
            final(self).src() == old(self).src(),
            final(self).cursor() == old(self).cursor(),
            r == front(old(self).src(), old(self).cursor()),
            match next_token(old(self).src(), old(self).cursor()) {
                Some((_, a, b)) => {
                    &&& final(self).last_span() == (a, b)
                    &&& old(self).cursor() <= a < b <= old(self).src().len()
                },
                None => final(self).last_span() == old(self).last_span(),
            },
    {
        if self.peeked.is_none() {
            match scan(&self.chars, self.mark) {
                Some((t, a, b)) => {
                    self.start = a;
                    self.end = b;
                    self.peeked = Some(Some(t));
                },
                None => {
                    self.peeked = Some(None);
                },
            }
        }
        match self.peeked {
            Some(p) => p,
            None => None,
        }
    }

    /// Hands out the next token and moves past it; `None` at the end of the
    /// source.
    pub fn next(&mut self) -> (r: Option<Token>)
        requires
            old(self).wf(),
        ensures
            final(self).wf(),
            final(self).cursor() <= final(self).src().len(),
            final(self).src() == old(self).src(),
            match next_token(old(self).src(), old(self).cursor()) {
                Some((t, a, b)) => {
                    &&& r == Some(t)
                    &&& old(self).cursor() <= a < b <= old(self).src().len()
                    &&& final(self).cursor() == b
                    &&& final(self).last_span() == (a, b)
                },
                None => {
                    &&& r is None
                    &&& final(self).cursor() == old(self).cursor()
                    &&& final(self).last_span() == old(self).last_span()
                },
            },
    {
        let r = self.peek();
        if r.is_some() {
            self.mark = self.end;
            self.peeked = None;
        }
        r
    }

    /// Span of the token scanned last, in characters.
    pub fn span(&self) -> (r: std::ops::Range<usize>)
        requires
            self.wf(),
        ensures
            (r.start as int, r.end as int) == self.last_span(),
    {
        std::ops::Range { start: self.start, end: self.end }
    }

    /// Text of the token scanned last.
    pub fn slice(&self) -> (r: String)
        requires
            self.wf(),
        ensures
            r@ == self.src().subrange(self.last_span().0, self.last_span().1),
    {
        String::from_str(self.text.as_str().substring_char(self.start, self.end))
    }
}

/// A string body that closes ends past where it starts.
pub proof fn lemma_string_end(s: Seq<char>, i: int)
    ensures
        string_end(s, i) matches Some(e) ==> i < e <= s.len(),
    decreases s.len() - i,
{
    if 0 <= i < s.len() && s[i] != '"' {
        if s[i] == '\\' {
            if i + 1 < s.len() && is_escape(s[i + 1]) {
                lemma_string_end(s, i + 2);
            }
        } else {
            lemma_string_end(s, i + 1);
        }
    }
}

/// A string token holds at least its two quotes.
pub proof fn lemma_string_token(s: Seq<char>, a: int)
    requires
        0 <= a < s.len(),
        token_at(s, a).0 == Token::Str,
    ensures
        s[a] == '"',
        string_end(s, a + 1) == Some(token_at(s, a).1),
        token_at(s, a).1 >= a + 2,
{
    lemma_string_end(s, a + 1);
}

proof fn lemma_skip_space(s: Seq<char>, i: int)
    requires
        0 <= i <= s.len(),
    ensures
        i <= skip_space(s, i) <= s.len(),
        skip_space(s, i) < s.len() ==> !is_space(s[skip_space(s, i)]),
    decreases s.len() - i,
{
    if i < s.len() && is_space(s[i]) {
        lemma_skip_space(s, i + 1);
    }
}

proof fn lemma_ident_end(s: Seq<char>, i: int)
    requires
        0 <= i <= s.len(),
    ensures
        i <= ident_end(s, i) <= s.len(),
        forall|k: int| i <= k < ident_end(s, i) ==> is_ident_char(#[trigger] s[k]),
        ident_end(s, i) < s.len() ==> !is_ident_char(s[ident_end(s, i)]),
    decreases s.len() - i,
{
    if i < s.len() && is_ident_char(s[i]) {
        lemma_ident_end(s, i + 1);
    }
}

proof fn lemma_digits_end(s: Seq<char>, i: int)
    requires
        0 <= i <= s.len(),
    ensures
        i <= digits_end(s, i) <= s.len(),
        forall|k: int| i <= k < digits_end(s, i) ==> is_digit(#[trigger] s[k]),
        digits_end(s, i) < s.len() ==> !is_digit(s[digits_end(s, i)]),
    decreases s.len() - i,
{
    if i < s.len() && is_digit(s[i]) {
        lemma_digits_end(s, i + 1);
    }
}

proof fn lemma_comment_end(s: Seq<char>, i: int)
    requires
        0 <= i <= s.len(),
    ensures
        i <= comment_end(s, i) <= s.len(),
        forall|k: int| i <= k < comment_end(s, i) ==> #[trigger] s[k] != '\n' && s[k] != '\r',
        comment_end(s, i) < s.len() ==> (s[comment_end(s, i)] == '\n' || s[comment_end(s, i)]
            == '\r'),
    decreases s.len() - i,
{
    if i < s.len() && s[i] != '\n' && s[i] != '\r' {
        lemma_comment_end(s, i + 1);
    }
}

/// Whether `w` splits at `k` into digits, then nothing or a `.` followed by
/// digits.
pub open spec fn numeral_at(w: Seq<char>, k: int) -> bool {
    &&& 0 < k <= w.len()
    &&& forall|j: int| 0 <= j < k ==> is_digit(#[trigger] w[j])
    &&& k == w.len() || (w[k] == '.' && k + 1 < w.len() && forall|j: int|
        k < j < w.len() ==> is_digit(#[trigger] w[j]))
}

/// Whether `w` is a decimal numeral: digits, then at most one `.` followed
/// by digits.
pub open spec fn is_numeral(w: Seq<char>) -> bool {
    exists|k: int| numeral_at(w, k)
}

/// The next token lies at or after the cursor, is not empty, and ends within
/// the source.
pub proof fn lemma_next_token_span(s: Seq<char>, c: int)
    requires
        0 <= c <= s.len(),
    ensures
        next_token(s, c) matches Some((_, a, b)) ==> c <= a < b <= s.len() && !is_space(s[a]),
        next_token(s, c) is None ==> skip_space(s, c) == s.len(),
{
    lemma_skip_space(s, c);
    let a = skip_space(s, c);
    if a < s.len() {
        lemma_comment_end(s, a + 1);
        lemma_string_end(s, a + 1);
        lemma_digits_end(s, a);
        lemma_ident_end(s, a + 1);
        if is_digit(s[a]) {
            let e = digits_end(s, a);
            if e + 1 < s.len() && s[e] == '.' && is_digit(s[e + 1]) {
                lemma_digits_end(s, e + 1);
            }
        }
    }
}

/// Every token that carries text is the longest match of its kind where it
/// starts, so the text that `slice` gives for it is exactly that match:
/// an identifier is a maximal run of identifier characters that spells no
/// keyword; a number is a maximal numeral; a string runs from its opening
/// quote through its closing one; a comment runs from `#` to the end of the
/// line.
pub proof fn lemma_literal_token_text(s: Seq<char>, c: int)
    requires
        0 <= c <= s.len(),
    ensures
        next_token(s, c) matches Some((t, a, b)) ==> {
            &&& t == Token::Ident ==> {
                &&& is_ident_start(s[a])
                &&& forall|k: int| a <= k < b ==> is_ident_char(#[trigger] s[k])
                &&& (b == s.len() || !is_ident_char(s[b]))
                &&& keyword_of(s.subrange(a, b)) == Token::Ident
            }
            &&& t == Token::Num ==> {
                &&& is_numeral(s.subrange(a, b))
                &&& (b == s.len() || !is_digit(s[b]))
                &&& !(b + 1 < s.len() && s[b] == '.' && is_digit(s[b + 1]) && forall|k: int|
                    a <= k < b ==> is_digit(#[trigger] s[k]))
            }
            &&& t == Token::Str ==> {
                &&& s[a] == '"' && s[b - 1] == '"' && b >= a + 2
                &&& string_end(s, a + 1) == Some(b)
            }
            &&& t == Token::Comment ==> {
                &&& s[a] == '#'
                &&& forall|k: int| a < k < b ==> #[trigger] s[k] != '\n' && s[k] != '\r'
                &&& (b == s.len() || s[b] == '\n' || s[b] == '\r')
            }
        },
{
    lemma_next_token_span(s, c);
    if let Some((t, a, b)) = next_token(s, c) {
        lemma_comment_end(s, a + 1);
        lemma_ident_end(s, a + 1);
        lemma_digits_end(s, a);
        if t == Token::Str {
            lemma_string_token(s, a);
            lemma_string_end(s, a + 1);
            string_end_closes(s, a + 1);
        }
        if t == Token::Num {
            let e = digits_end(s, a);
            let w = s.subrange(a, b);
            if e + 1 < s.len() && s[e] == '.' && is_digit(s[e + 1]) {
                lemma_digits_end(s, e + 1);
                assert forall|j: int| 0 <= j < e - a implies is_digit(#[trigger] w[j]) by {
                    assert(is_digit(s[a + j]));
                }
                assert forall|j: int| e - a < j < w.len() implies is_digit(#[trigger] w[j]) by {
                    assert(is_digit(s[a + j]));
                }
                assert(w[e - a] == '.');
                assert(is_digit(s[e]) == false);
            } else {
                assert forall|j: int| 0 <= j < e - a implies is_digit(#[trigger] w[j]) by {
                    assert(is_digit(s[a + j]));
                }
            }
            let k = e - a;
            assert(is_digit(s[a]));
            assert(0 < k <= w.len());
            assert(numeral_at(w, k));
        }
    }
}

/// A closed string ends on its closing quote.
proof fn string_end_closes(s: Seq<char>, i: int)
    ensures
        string_end(s, i) matches Some(e) ==> s[e - 1] == '"',
    decreases s.len() - i,
{
    if 0 <= i < s.len() && s[i] != '"' {
        if s[i] == '\\' {
            if i + 1 < s.len() && is_escape(s[i + 1]) {
                string_end_closes(s, i + 2);
            }
        } else {
            string_end_closes(s, i + 1);
        }
    }
}

/// Two-character operators are matched whole, never as their one-character
/// prefix followed by another token.
pub proof fn lemma_greedy_operators(s: Seq<char>, c: int)
    requires
        0 <= c <= s.len(),
    ensures
        next_token(s, c) matches Some((_, a, _)) ==> a + 1 < s.len() ==> {
            let pair = (s[a], s[a + 1]);
            &&& pair == ('>', '=') ==> next_token(s, c) == Some((Token::GreaterEqual, a, a + 2))
            &&& pair == ('<', '=') ==> next_token(s, c) == Some((Token::LessEqual, a, a + 2))
            &&& pair == ('=', '=') ==> next_token(s, c) == Some((Token::EqualEqual, a, a + 2))
            &&& pair == ('!', '=') ==> next_token(s, c) == Some((Token::BangEqual, a, a + 2))
            &&& pair == ('&', '&') ==> next_token(s, c) == Some((Token::And, a, a + 2))
            &&& pair == ('|', '|') ==> next_token(s, c) == Some((Token::Or, a, a + 2))
        },
{
}

} // verus!
