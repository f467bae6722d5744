use std::ops::Range;
use vstd::prelude::*;

use crate::grammar::{
    is_digit, is_letter, is_numeral_char, is_well_formed_numeral, letters_end, numeral_end,
    scan_step, token_at, ErrorView, TokenKind, TokenView,
};

verus! {

/// Every kind of token the lexer can produce.
#[derive(Debug, PartialEq)]
pub enum TokenType {
    // Single-character tokens.
    Plus,
    Minus,
    Multiply,
    Divide,
    Power,
    Dot,
    OpeningParenthesis,
    ClosingParenthesis,
    Equals,
    Space,
    Less,
    Greater,
    // Two-character tokens.
    LessEqual,
    GreaterEqual,
    NotEqual,
    /// A function call such as `sin`; not produced yet.
    Function(String),
    /// A numeric literal, holding its text: digits with at most one `.`,
    /// which reads as a decimal number.
    Constant(String),
    Variable(String),
    EndOfExpression,
}

impl View for TokenType {
    type V = TokenKind;

    open spec fn view(&self) -> TokenKind {
        match self {
            TokenType::Plus => TokenKind::Plus,
            TokenType::Minus => TokenKind::Minus,
            TokenType::Multiply => TokenKind::Multiply,
            TokenType::Divide => TokenKind::Divide,
            TokenType::Power => TokenKind::Power,
            TokenType::Dot => TokenKind::Dot,
            TokenType::OpeningParenthesis => TokenKind::OpeningParenthesis,
            TokenType::ClosingParenthesis => TokenKind::ClosingParenthesis,
            TokenType::Equals => TokenKind::Equals,
            TokenType::Space => TokenKind::Space,
            TokenType::Less => TokenKind::Less,
            TokenType::Greater => TokenKind::Greater,
            TokenType::LessEqual => TokenKind::LessEqual,
            TokenType::GreaterEqual => TokenKind::GreaterEqual,
            TokenType::NotEqual => TokenKind::NotEqual,
            TokenType::Function(s) => TokenKind::Function(s@),
            TokenType::Constant(s) => TokenKind::Constant(s@),
            TokenType::Variable(s) => TokenKind::Variable(s@),
            TokenType::EndOfExpression => TokenKind::EndOfExpression,
        }
    }
}

/// A lexical error, with the character position at fault.
#[derive(Debug, PartialEq)]
pub enum LexerError {
    /// A character that starts no token.
    UnexpectedCharacter { position: usize, character: char },
    /// A numeral with an underscore or more than one `.`; `literal` is its text.
    MalformedNumber { position: usize, literal: String },
    /// A `!` followed by something other than `=` (`found`), or by nothing.
    InvalidBang { position: usize, found: Option<char> },
}

impl View for LexerError {
    type V = ErrorView;

    open spec fn view(&self) -> ErrorView {
        match self {
            LexerError::UnexpectedCharacter { position, character } => ErrorView::UnexpectedCharacter {
                position: *position as int,
                character: *character,
            },
            LexerError::MalformedNumber { position, literal } => ErrorView::MalformedNumber {
                position: *position as int,
                literal: literal@,
            },
            LexerError::InvalidBang { position, found } => ErrorView::InvalidBang {
                position: *position as int,
                found: *found,
            },
        }
    }
}

/// A token and the half-open range of character indices it was read from.
#[derive(Debug, PartialEq)]
pub struct Token {
    pub token_type: TokenType,
    pub span: Range<usize>,
}

impl View for Token {
    type V = TokenView;

    open spec fn view(&self) -> TokenView {
        token_at(self.token_type@, self.span.start as int, self.span.end as int)
    }
}

impl Token {
    /// A token of `token_type` spanning the characters `span`.
    pub fn new(token_type: TokenType, span: Range<usize>) -> (r: Self)
        ensures
            r.token_type == token_type,
            r.span == span,
    {
        Self { token_type, span }
    }

    /// The successful scan result holding a token of `token_type` over `span`.
    pub fn some_token(token_type: TokenType, span: Range<usize>) -> (r: Result<Option<Self>, LexerError>)
        ensures
            r matches Ok(Some(t)) && t.token_type == token_type && t.span == span,
    {
        Ok(Some(Self::new(token_type, span)))
    }
}


fn char_is_digit(c: char) -> (r: bool)
    ensures
        r == is_digit(c),
{
    '0' <= c && c <= '9'
}

fn char_is_letter(c: char) -> (r: bool)
    ensures
        r == is_letter(c),
{
    ('a' <= c && c <= 'z') || ('A' <= c && c <= 'Z')
}

fn char_is_numeral(c: char) -> (r: bool)
    ensures
        r == is_numeral_char(c),
{
    char_is_digit(c) || c == '.' || c == '_'
}

/// Whether `chars[start..end]` reads as a number: no underscore and at most
/// one decimal point.
fn numeral_is_well_formed(chars: &Vec<char>, start: usize, end: usize) -> (r: bool)
    requires
        start <= end <= chars@.len(),
    ensures
        r == is_well_formed_numeral(chars@.subrange(start as int, end as int)),
{
    let ghost t = chars@.subrange(start as int, end as int);
    let mut seen_dot = false;
    let mut k: usize = start;
    while k < end
        invariant
            start <= k <= end <= chars@.len(),
            t == chars@.subrange(start as int, end as int),
            is_well_formed_numeral(chars@.subrange(start as int, k as int)),
            seen_dot <==> exists|a: int| start <= a < k && chars@[a] == '.',
        decreases end - k,
    {
        let c = chars[k];
        if c == '_' || (c == '.' && seen_dot) {
            proof {
                let j = (k - start) as int;
                if c == '.' {
                    let a = choose|a: int| start <= a < k && chars@[a] == '.';
                    assert(t[a - start] == '.' && t[j] == '.');
                } else {
                    assert(t[j] == '_');
                }
            }
            return false;
        }
        proof {
            let p = chars@.subrange(start as int, k as int);
            let q = chars@.subrange(start as int, k + 1);
            assert forall|a: int, b: int| 0 <= a < b < q.len() && q[a] == '.' implies q[b] != '.' by {
                if b < p.len() {
                    assert(p[a] == q[a] && p[b] == q[b]);
                } else {
                    assert(chars@[start + a] == '.');
                }
            }
            assert forall|a: int| 0 <= a < q.len() implies q[a] != '_' by {
                if a < p.len() {
                    assert(p[a] == q[a]);
                }
            }
        }
        if c == '.' {
            seen_dot = true;
        }
        k = k + 1;
    }
    assert(t == chars@.subrange(start as int, k as int));
    true
}

/// A lexer over one source text, handing out one token per call of
/// `scan_token`.
pub struct Lexer<'a> {
    full_str: &'a str,
    source: Vec<char>,
    index: usize,
    tokens_list: Vec<Token>,
}

impl<'a> Lexer<'a> {
    /// The lexer's state is consistent: the character buffer is the source
    /// text, and the cursor lies within it.
    pub closed spec fn wf(&self) -> bool {
        &&& self.full_str@ == self.source@
        &&& self.index <= self.source@.len()
    }

    /// The characters of the source text.
    pub closed spec fn text(&self) -> Seq<char> {
        self.source@
    }

    /// The position of the next character to read.
    pub closed spec fn cursor(&self) -> int {
        self.index as int
    }

    /// The tokens recorded with `add_singlechar_token`.
    pub closed spec fn recorded(&self) -> Seq<TokenView> {
        self.tokens_list@.map_values(|t: Token| t@)
    }

    /// Creates a lexer over `source`, with its cursor at the start.
    pub fn new(source: &'a str) -> (r: Self)
        ensures
            r.wf(),
            r.text() == source@,
            r.cursor() == 0,
            r.recorded() == Seq::<TokenView>::empty(),
    {
        let n = source.unicode_len();
        let mut chars: Vec<char> = Vec::new();
        let mut i: usize = 0;
        while i < n
            invariant
                i <= n == source@.len(),
                chars@ == source@.subrange(0, i as int),
            decreases n - i,
        {
            chars.push(source.get_char(i));
            i = i + 1;
        }
        assert(chars@ == source@);
        let r = Self { full_str: source, source: chars, index: 0, tokens_list: Vec::new() };
        assert(r.recorded() == Seq::<TokenView>::empty());
        r
    }

    /// Returns the character under the cursor and moves past it, or `None`
    /// at the end of the source.
    pub fn next(&mut self) -> (r: Option<char>)
        requires
            old(self).wf(),
        ensures
            final(self).wf(),
            final(self).text() == old(self).text(),
            final(self).recorded() == old(self).recorded(),
            old(self).cursor() < old(self).text().len() ==> {
                &&& r == Some(old(self).text()[old(self).cursor()])
                &&& final(self).cursor() == old(self).cursor() + 1
            },
            old(self).cursor() >= old(self).text().len() ==> {
                &&& r is None
                &&& final(self).cursor() == old(self).cursor()
            },
    {
        if self.index < self.source.len() {
            self.index = self.index + 1;
            Some(self.source[self.index - 1])
        } else {
            None
        }
    }

    /// Returns the character under the cursor without moving, or `None` at
    /// the end of the source.
    pub fn peek(&mut self) -> (r: Option<char>)
        requires
            old(self).wf(),
        ensures
            *final(self) == *old(self),
            old(self).cursor() < old(self).text().len() ==> r == Some(
                old(self).text()[old(self).cursor()],
            ),
            old(self).cursor() >= old(self).text().len() ==> r is None,
    {
        if self.index < self.source.len() {
            Some(self.source[self.index])
        } else {
            None
        }
    }

    /// Records a token of `token_type` spanning the character just read.
    pub fn add_singlechar_token(&mut self, token_type: TokenType)
        requires
            old(self).wf(),
            old(self).cursor() >= 1,
        ensures
            final(self).wf(),
            final(self).text() == old(self).text(),
            final(self).cursor() == old(self).cursor(),
            final(self).recorded() == old(self).recorded().push(
                token_at(token_type@, old(self).cursor() - 1, old(self).cursor()),
            ),
    {
        let ghost before = self.tokens_list@;
        let t = Token::new(token_type, (self.index - 1)..self.index);
        self.tokens_list.push(t);
        assert(self.tokens_list@.map_values(|t: Token| t@) =~= before.map_values(|t: Token| t@).push(t@));
    }

    /// Scans the token under the cursor and moves past it. At the end of the
    /// source this yields the end-of-expression token, with an empty span at
    /// the end, each time it is called.
    pub fn scan_token(&mut self) -> (r: Result<Option<Token>, LexerError>)
        requires
            old(self).wf(),
        ensures
            final(self).wf(),
            final(self).text() == old(self).text(),
            final(self).recorded() == old(self).recorded(),
            final(self).cursor() == scan_step(old(self).text(), old(self).cursor()).1,
            match r {
                Ok(Some(t)) => scan_step(old(self).text(), old(self).cursor()).0 == Ok::<
                    TokenView,
                    ErrorView,
                >(t@),
                Ok(None) => false,
                Err(e) => scan_step(old(self).text(), old(self).cursor()).0 == Err::<
                    TokenView,
                    ErrorView,
                >(e@),
            },
    {
        let start = self.index;
        let c = match self.next() {
            None => {
                let n = self.source.len();
                return Token::some_token(TokenType::EndOfExpression, n..n);
            },
            Some(c) => c,
        };
        let single = start..self.index;
        if c == ' ' {
            Token::some_token(TokenType::Space, single)
        } else if c == '+' {
            Token::some_token(TokenType::Plus, single)
        } else if c == '-' {
            Token::some_token(TokenType::Minus, single)
        } else if c == '*' {
            Token::some_token(TokenType::Multiply, single)
        } else if c == '/' {
            Token::some_token(TokenType::Divide, single)
        } else if c == '^' {
            Token::some_token(TokenType::Power, single)
        } else if c == '.' {
            Token::some_token(TokenType::Dot, single)
        } else if c == '(' {
            Token::some_token(TokenType::OpeningParenthesis, single)
        } else if c == ')' {
            Token::some_token(TokenType::ClosingParenthesis, single)
        } else if c == '=' {
            Token::some_token(TokenType::Equals, single)
        } else if c == '<' || c == '>' || c == '!' {
            let next = self.peek();
            let has_equals_next = match next {
                Some(d) => d == '=',
                None => false,
            };
            if has_equals_next {
                let _ = self.next();
                let kind = if c == '<' {
                    TokenType::LessEqual
                } else if c == '>' {
                    TokenType::GreaterEqual
                } else {
                    TokenType::NotEqual
                };
                Token::some_token(kind, start..self.index)
            } else if c == '<' {
                Token::some_token(TokenType::Less, single)
            } else if c == '>' {
                Token::some_token(TokenType::Greater, single)
            } else {
                Err(LexerError::InvalidBang { position: start, found: next })
            }
        } else if char_is_digit(c) {
            let ghost s = self.source@;
            loop
                invariant
                    self.wf(),
                    self.source@ == s,
                    self.recorded() == old(self).recorded(),
                    start < self.index <= s.len(),
                    numeral_end(s, start + 1) == numeral_end(s, self.index as int),
                ensures
                    self.wf(),
                    self.source@ == s,
                    self.recorded() == old(self).recorded(),
                    start < self.index <= s.len(),
                    self.index == numeral_end(s, start + 1),
                decreases s.len() - self.index,
            {
                match self.peek() {
                    Some(d) => {
                        if !char_is_numeral(d) {
                            break;
                        }
                    },
                    None => {
                        break;
                    },
                }
                let _ = self.next();
            }
            let end = self.index;
            let literal = self.full_str.substring_char(start, end).to_owned();
            if numeral_is_well_formed(&self.source, start, end) {
                Token::some_token(TokenType::Constant(literal), start..end)
            } else {
                Err(LexerError::MalformedNumber { position: start, literal })
            }
        } else if char_is_letter(c) {
            let ghost s = self.source@;
            loop
                invariant
                    self.wf(),
                    self.source@ == s,
                    self.recorded() == old(self).recorded(),
                    start < self.index <= s.len(),
                    letters_end(s, start + 1) == letters_end(s, self.index as int),
                ensures
                    self.wf(),
                    self.source@ == s,
                    self.recorded() == old(self).recorded(),
                    start < self.index <= s.len(),
                    self.index == letters_end(s, start + 1),
                decreases s.len() - self.index,
            {
                match self.peek() {
                    Some(d) => {
                        if !char_is_letter(d) {
                            break;
                        }
                    },
                    None => {
                        break;
                    },
                }
                let _ = self.next();
            }
            let end = self.index;
            let name = self.full_str.substring_char(start, end).to_owned();
            Token::some_token(TokenType::Variable(name), start..end)
        } else {
            Err(LexerError::UnexpectedCharacter { position: start, character: c })
        }
    }
}

} // verus!
