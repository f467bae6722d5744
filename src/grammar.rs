use vstd::prelude::*;

verus! {

/// What a token is, as a mathematical value: the payload of a name or a
/// numeral is the text it was read from.
pub enum TokenKind {
    Plus,
    Minus,
    Multiply,
    Divide,
    Power,
    Dot,
    OpeningParenthesis,
    ClosingParenthesis,
    Equals,
    Space,
    Less,
    Greater,
    LessEqual,
    GreaterEqual,
    NotEqual,
    Function(Seq<char>),
    Constant(Seq<char>),
    Variable(Seq<char>),
    EndOfExpression,
}

/// A token with its half-open span `[start, end)` of character indices.
pub struct TokenView {
    pub kind: TokenKind,
    pub start: int,
    pub end: int,
}

/// A lexical error, as a mathematical value.
pub enum ErrorView {
    UnexpectedCharacter { position: int, character: char },
    MalformedNumber { position: int, literal: Seq<char> },
    InvalidBang { position: int, found: Option<char> },
}

pub open spec fn token_at(kind: TokenKind, start: int, end: int) -> TokenView {
    TokenView { kind, start, end }
}

/// The token kind of a character that is a token by itself.
pub open spec fn single_char_kind(c: char) -> Option<TokenKind> {
    if c == ' ' {
        Some(TokenKind::Space)
    } else if c == '+' {
        Some(TokenKind::Plus)
    } else if c == '-' {
        Some(TokenKind::Minus)
    } else if c == '*' {
        Some(TokenKind::Multiply)
    } else if c == '/' {
        Some(TokenKind::Divide)
    } else if c == '^' {
        Some(TokenKind::Power)
    } else if c == '.' {
        Some(TokenKind::Dot)
    } else if c == '(' {
        Some(TokenKind::OpeningParenthesis)
    } else if c == ')' {
        Some(TokenKind::ClosingParenthesis)
    } else if c == '=' {
        Some(TokenKind::Equals)
    } else {
        None
    }
}

pub open spec fn is_digit(c: char) -> bool {
    '0' <= c && c <= '9'
}

pub open spec fn is_letter(c: char) -> bool {
    ('a' <= c && c <= 'z') || ('A' <= c && c <= 'Z')
}

/// Characters that continue a numeral once its first digit has been read.
pub open spec fn is_numeral_char(c: char) -> bool {
    is_digit(c) || c == '.' || c == '_'
}

/// The end of the maximal run of numeral characters of `s` starting at `j`.
pub open spec fn numeral_end(s: Seq<char>, j: int) -> int
    decreases s.len() - j,
{
    if 0 <= j < s.len() && is_numeral_char(s[j]) {
        numeral_end(s, j + 1)
    } else {
        j
    }
}

/// The end of the maximal run of letters of `s` starting at `j`.
pub open spec fn letters_end(s: Seq<char>, j: int) -> int
    decreases s.len() - j,
{
    if 0 <= j < s.len() && is_letter(s[j]) {
        letters_end(s, j + 1)
    } else {
        j
    }
}

/// A run of numeral characters that reads as a number: no underscore and at
/// most one decimal point.
pub open spec fn is_well_formed_numeral(t: Seq<char>) -> bool {
    &&& forall|k: int| 0 <= k < t.len() ==> t[k] != '_'
    &&& forall|a: int, b: int| 0 <= a < b < t.len() && t[a] == '.' ==> t[b] != '.'
}

/// One call of the scanner on `s` with the cursor at `i`: the token or error
/// produced, and where the cursor stands afterwards.
pub open spec fn scan_step(s: Seq<char>, i: int) -> (Result<TokenView, ErrorView>, int) {
    if i >= s.len() {
        (Ok(token_at(TokenKind::EndOfExpression, s.len() as int, s.len() as int)), s.len() as int)
    } else {
        let c = s[i];
        let has_equals_next = i + 1 < s.len() && s[i + 1] == '=';
        if single_char_kind(c) is Some {
            (Ok(token_at(single_char_kind(c)->0, i, i + 1)), i + 1)
        } else if c == '<' || c == '>' {
            if has_equals_next {
                let kind = if c == '<' {
                    TokenKind::LessEqual
                } else {
                    TokenKind::GreaterEqual
                };
                (Ok(token_at(kind, i, i + 2)), i + 2)
            } else {
                let kind = if c == '<' {
                    TokenKind::Less
                } else {
                    TokenKind::Greater
                };
                (Ok(token_at(kind, i, i + 1)), i + 1)
            }
        } else if c == '!' {
            if has_equals_next {
                (Ok(token_at(TokenKind::NotEqual, i, i + 2)), i + 2)
            } else {
                let found = if i + 1 < s.len() {
                    Some(s[i + 1])
                } else {
                    None
                };
                (Err(ErrorView::InvalidBang { position: i, found }), i + 1)
            }
        } else if is_digit(c) {
            let e = numeral_end(s, i + 1);
            let literal = s.subrange(i, e);
            if is_well_formed_numeral(literal) {
                (Ok(token_at(TokenKind::Constant(literal), i, e)), e)
            } else {
                (Err(ErrorView::MalformedNumber { position: i, literal }), e)
            }
        } else if is_letter(c) {
            let e = letters_end(s, i + 1);
            (Ok(token_at(TokenKind::Variable(s.subrange(i, e)), i, e)), e)
        } else {
            (Err(ErrorView::UnexpectedCharacter { position: i, character: c }), i + 1)
        }
    }
}

/// The tokens that repeated scanning of `s` from cursor `i` yields, up to and
/// including the end-of-expression token, or the first error met on the way.
pub open spec fn scan_all(s: Seq<char>, i: int) -> Result<Seq<TokenView>, ErrorView>
    decreases s.len() - i
        when 0 <= i
{
    let (r, j) = scan_step(s, i);
    match r {
        Err(e) => Err(e),
        Ok(t) => if i >= s.len() {
            Ok(seq![t])
        } else {
            proof {
                lemma_step_advances(s, i);
            }
            match scan_all(s, j) {
                Ok(ts) => Ok(seq![t] + ts),
                Err(e) => Err(e),
            }
        },
    }
}

proof fn lemma_numeral_end_bounds(s: Seq<char>, j: int)
    requires
        0 <= j <= s.len(),
    ensures
        j <= numeral_end(s, j) <= s.len(),
        forall|k: int| j <= k < numeral_end(s, j) ==> is_numeral_char(#[trigger] s[k]),
        numeral_end(s, j) < s.len() ==> !is_numeral_char(s[numeral_end(s, j)]),
    decreases s.len() - j,
{
    if j < s.len() && is_numeral_char(s[j]) {
        lemma_numeral_end_bounds(s, j + 1);
    }
}

proof fn lemma_letters_end_bounds(s: Seq<char>, j: int)
    requires
        0 <= j <= s.len(),
    ensures
        j <= letters_end(s, j) <= s.len(),
        forall|k: int| j <= k < letters_end(s, j) ==> is_letter(#[trigger] s[k]),
        letters_end(s, j) < s.len() ==> !is_letter(s[letters_end(s, j)]),
    decreases s.len() - j,
{
    if j < s.len() && is_letter(s[j]) {
        lemma_letters_end_bounds(s, j + 1);
    }
}

/// Every step before the end of the source consumes at least one character,
/// stays within the source, and yields a token whose span is what it consumed.
pub proof fn lemma_step_advances(s: Seq<char>, i: int)
    requires
        0 <= i < s.len(),
    ensures
        i < scan_step(s, i).1 <= s.len(),
        scan_step(s, i).0 is Ok ==> {
            let t = scan_step(s, i).0->Ok_0;
            &&& t.start == i
            &&& t.end == scan_step(s, i).1
            &&& !(t.kind is EndOfExpression)
        },
{
    lemma_numeral_end_bounds(s, i + 1);
    lemma_letters_end_bounds(s, i + 1);
}

/// The end-of-expression token at the end of `s`, with an empty span.
pub open spec fn end_token(s: Seq<char>) -> TokenView {
    token_at(TokenKind::EndOfExpression, s.len() as int, s.len() as int)
}

/// The tokens of a source made of single-character tokens only, read from
/// position `i` on: one token per character, each spanning that character.
pub open spec fn single_char_tokens(s: Seq<char>, i: int) -> Seq<TokenView> {
    Seq::new(
        (s.len() - i) as nat,
        |k: int| token_at(single_char_kind(s[i + k])->0, i + k, i + k + 1),
    )
}

proof fn lemma_single_char_suffix(s: Seq<char>, i: int)
    requires
        0 <= i <= s.len(),
        forall|k: int| 0 <= k < s.len() ==> (#[trigger] single_char_kind(s[k])) is Some,
    ensures
        scan_all(s, i) == Ok::<Seq<TokenView>, ErrorView>(
            single_char_tokens(s, i).push(end_token(s)),
        ),
    decreases s.len() - i,
{
    if i < s.len() {
        assert(single_char_kind(s[i]) is Some);
        lemma_single_char_suffix(s, i + 1);
        assert(single_char_tokens(s, i).push(end_token(s)) =~= seq![
            token_at(single_char_kind(s[i])->0, i, i + 1),
        ] + single_char_tokens(s, i + 1).push(end_token(s)));
    } else {
        assert(single_char_tokens(s, i).push(end_token(s)) =~= seq![end_token(s)]);
    }
}

/// A source made only of the characters `+ - * / ^ . ( ) =` and space scans
/// to one token per character, in order, each of the character's kind and
/// spanning exactly that character, followed by the end-of-expression token.
pub proof fn law_single_char_sources(s: Seq<char>)
    requires
        forall|k: int| 0 <= k < s.len() ==> (#[trigger] single_char_kind(s[k])) is Some,
    ensures
        scan_all(s, 0) == Ok::<Seq<TokenView>, ErrorView>(
            single_char_tokens(s, 0).push(end_token(s)),
        ),
{
    lemma_single_char_suffix(s, 0);
}

/// The spans of a token sequence read from position `i` of `s` tile the rest
/// of the source, and the end-of-expression token comes exactly once, last.
pub open spec fn well_laid_out(s: Seq<char>, i: int, ts: Seq<TokenView>) -> bool {
    &&& ts.len() >= 1
    &&& ts[0].start == i
    &&& ts.last() == end_token(s)
    &&& forall|k: int| 0 <= k < ts.len() - 1 ==> !((#[trigger] ts[k]).kind is EndOfExpression)
    &&& forall|k: int| 0 <= k < ts.len() - 1 ==> (#[trigger] ts[k]).end == ts[k + 1].start
    &&& forall|k: int| 0 <= k < ts.len() ==> 0 <= (#[trigger] ts[k]).start <= ts[k].end <= s.len()
}

proof fn lemma_scan_all_laid_out(s: Seq<char>, i: int)
    requires
        0 <= i <= s.len(),
    ensures
        scan_all(s, i) is Ok ==> well_laid_out(s, i, scan_all(s, i)->Ok_0),
    decreases s.len() - i,
{
    if i < s.len() {
        lemma_step_advances(s, i);
        let j = scan_step(s, i).1;
        lemma_scan_all_laid_out(s, j);
        if scan_all(s, i) is Ok {
            let t = scan_step(s, i).0->Ok_0;
            let rest = scan_all(s, j)->Ok_0;
            let ts = scan_all(s, i)->Ok_0;
            assert(ts == seq![t] + rest);
            assert forall|k: int| 0 <= k < ts.len() - 1 implies ts[k].end == ts[k + 1].start by {
                if k > 0 {
                    assert(ts[k] == rest[k - 1] && ts[k + 1] == rest[k]);
                }
            }
            assert forall|k: int| 0 <= k < ts.len() - 1 implies !((
            #[trigger] ts[k]).kind is EndOfExpression) by {
                if k > 0 {
                    assert(ts[k] == rest[k - 1]);
                }
            }
            assert forall|k: int| 0 <= k < ts.len() implies 0 <= (#[trigger] ts[k]).start
                <= ts[k].end <= s.len() by {
                if k > 0 {
                    assert(ts[k] == rest[k - 1]);
                }
            }
        }
    }
}

/// Scanning ends with exactly one end-of-expression token after all others:
/// an empty source yields it on the first call, and a call at the end of
/// the source yields it again without moving. When the whole source scans
/// without error, the spans run from 0 to the source length, each token's
/// span starting where the previous one ended.
pub proof fn law_end_of_expression(s: Seq<char>)
    ensures
        scan_step(s, s.len() as int) == (
        Ok::<TokenView, ErrorView>(end_token(s)),
        s.len() as int,
        ),
        s.len() == 0 ==> scan_all(s, 0) == Ok::<Seq<TokenView>, ErrorView>(seq![end_token(s)]),
        scan_all(s, 0) is Ok ==> well_laid_out(s, 0, scan_all(s, 0)->Ok_0),
{
    lemma_scan_all_laid_out(s, 0);
}

proof fn lemma_numeral_end_at(s: Seq<char>, j: int, e: int)
    requires
        0 <= j <= e <= s.len(),
        forall|k: int| j <= k < e ==> is_numeral_char(#[trigger] s[k]),
        e == s.len() || !is_numeral_char(s[e]),
    ensures
        numeral_end(s, j) == e,
    decreases e - j,
{
    if j < e {
        lemma_numeral_end_at(s, j + 1, e);
    }
}

/// A numeral of digits with at most one `.`, standing at position `i` of
/// `s` and not followed by a digit, `.` or `_`, scans to one constant token
/// that holds exactly its text and spans exactly its characters.
pub proof fn law_numeral_literal(s: Seq<char>, i: int, literal: Seq<char>)
    requires
        0 <= i,
        i + literal.len() <= s.len(),
        literal.len() >= 1,
        is_digit(literal[0]),
        forall|k: int| 0 <= k < literal.len() ==> is_digit(#[trigger] literal[k]) || literal[k] == '.',
        forall|a: int, b: int| 0 <= a < b < literal.len() && literal[a] == '.' ==> literal[b] != '.',
        s.subrange(i, i + literal.len()) == literal,
        i + literal.len() == s.len() || !is_numeral_char(s[i + literal.len()]),
    ensures
        scan_step(s, i) == (
        Ok::<TokenView, ErrorView>(
            token_at(TokenKind::Constant(literal), i, i + literal.len()),
        ),
        i + literal.len(),
        ),
{
    let e = i + literal.len();
    assert forall|k: int| i + 1 <= k < e implies is_numeral_char(#[trigger] s[k]) by {
        assert(s[k] == literal[k - i]);
    }
    lemma_numeral_end_at(s, i + 1, e);
    assert(s[i] == literal[0]);
}

} // verus!
