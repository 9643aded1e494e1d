//! Turns source text into a sequence of tokens.
use vstd::prelude::*;
use vstd::string::*;

verus! {

/// A lexical token of the surface syntax.
#[derive(Clone, Debug, PartialEq)]
pub enum Token {
    /// An identifier.
    Var(String),
    /// `\`, which starts a lambda.
    Lambda,
    /// `.`, between a lambda's parameter and its body.
    Dot,
    /// `{`, which opens a lambda body.
    LBrace,
    /// `}`, which closes a lambda body.
    RBrace,
    /// `<`, which opens an application.
    Bra,
    /// `|`, between the function and the argument of an application.
    Delim,
    /// `>`, which closes an application.
    Ket,
}

/// The mathematical model of a token: an identifier is its sequence of characters.
pub enum TokenV {
    Var(Seq<char>),
    Lambda,
    Dot,
    LBrace,
    RBrace,
    Bra,
    Delim,
    Ket,
}

impl View for Token {
    type V = TokenV;

    open spec fn view(&self) -> TokenV {
        match self {
            Token::Var(s) => TokenV::Var(s@),
            Token::Lambda => TokenV::Lambda,
            Token::Dot => TokenV::Dot,
            Token::LBrace => TokenV::LBrace,
            Token::RBrace => TokenV::RBrace,
            Token::Bra => TokenV::Bra,
            Token::Delim => TokenV::Delim,
            Token::Ket => TokenV::Ket,
        }
    }
}

/// The models of a sequence of tokens.
pub open spec fn tokens_view(ts: Seq<Token>) -> Seq<TokenV> {
    Seq::new(ts.len(), |i: int| ts[i]@)
}

/// A character that cannot start a token, found at `pos` (counted in characters).
#[derive(Clone, Copy, Debug, PartialEq, Eq)]
pub struct LexError {
    pub ch: char,
    pub pos: usize,
}

pub open spec fn is_ident_start(c: char) -> bool {
    ('a' <= c && c <= 'z') || ('A' <= c && c <= 'Z') || c == '_'
}

pub open spec fn is_ident_body(c: char) -> bool {
    is_ident_start(c) || ('0' <= c && c <= '9')
}

/// The characters with the Unicode `White_Space` property.
pub open spec fn is_space(c: char) -> bool {
    ('\u{9}' <= c && c <= '\u{d}') || c == ' ' || c == '\u{85}' || c == '\u{a0}'
        || c == '\u{1680}' || ('\u{2000}' <= c && c <= '\u{200a}') || c == '\u{2028}'
        || c == '\u{2029}' || c == '\u{202f}' || c == '\u{205f}' || c == '\u{3000}'
}

/// The token that a punctuation character stands for, if it is one.
pub open spec fn punct(c: char) -> Option<TokenV> {
    if c == '\\' {
        Some(TokenV::Lambda)
    } else if c == '.' {
        Some(TokenV::Dot)
    } else if c == '{' {
        Some(TokenV::LBrace)
    } else if c == '}' {
        Some(TokenV::RBrace)
    } else if c == '<' {
        Some(TokenV::Bra)
    } else if c == '|' {
        Some(TokenV::Delim)
    } else if c == '>' {
        Some(TokenV::Ket)
    } else {
        None
    }
}

/// `t` followed by the tokens of `r`, or the error of `r`.
pub open spec fn cons_token(t: TokenV, r: Result<Seq<TokenV>, int>) -> Result<Seq<TokenV>, int> {
    match r {
        Ok(ts) => Ok(seq![t] + ts),
        Err(p) => Err(p),
    }
}

/// The tokens of `s` from position `i` on, or the position of the first
/// character that starts no token. Whitespace separates tokens and is dropped;
/// an identifier takes every identifier character that follows its first one.
pub open spec fn lex_from(s: Seq<char>, i: int) -> Result<Seq<TokenV>, int>
    decreases s.len() - i, 0int,
{
    if i < 0 || i >= s.len() {
        Ok(seq![])
    } else {
        let c = s[i];
        if punct(c) is Some {
            cons_token(punct(c)->0, lex_from(s, i + 1))
        } else if is_ident_start(c) {
            lex_ident(s, i, i + 1)
        } else if is_space(c) {
            lex_from(s, i + 1)
        } else {
            Err(i)
        }
    }
}

/// Continues an identifier that starts at `start` and has reached `k`: it
/// ends before the first character at or after `k` that is no identifier
/// character.
pub open spec fn lex_ident(s: Seq<char>, start: int, k: int) -> Result<Seq<TokenV>, int>
    decreases s.len() - k, 1int,
{
    if 0 <= k < s.len() && is_ident_body(s[k]) {
        lex_ident(s, start, k + 1)
    } else {
        cons_token(TokenV::Var(s.subrange(start, k)), lex_from(s, k))
    }
}

/// The tokens of `s`, or the position of the first character that starts none.
pub open spec fn lex(s: Seq<char>) -> Result<Seq<TokenV>, int> {
    lex_from(s, 0)
}

/// What `tokenize` returns on the text `s`.
pub open spec fn lexed(s: Seq<char>, r: Result<Vec<Token>, LexError>) -> bool {
    match r {
        Ok(ts) => lex(s) == Ok::<Seq<TokenV>, int>(tokens_view(ts@)),
        Err(e) => lex(s) == Err::<Seq<TokenV>, int>(e.pos as int) && e.pos < s.len() && s[e.pos as int]
            == e.ch,
    }
}

/// `ts` followed by the tokens of `r`, or the error of `r`.
pub open spec fn after(ts: Seq<TokenV>, r: Result<Seq<TokenV>, int>) -> Result<Seq<TokenV>, int> {
    match r {
        Ok(rest) => Ok(ts + rest),
        Err(p) => Err(p),
    }
}

proof fn lemma_after_cons(ts: Seq<TokenV>, t: TokenV, r: Result<Seq<TokenV>, int>)
    ensures
        after(ts, cons_token(t, r)) == after(ts.push(t), r),
{
    if let Ok(rest) = r {
        assert(ts + (seq![t] + rest) =~= ts.push(t) + rest);
    }
}

proof fn lemma_tokens_view_push(ts: Seq<Token>, t: Token)
    ensures
        tokens_view(ts.push(t)) == tokens_view(ts).push(t@),
{
    assert(tokens_view(ts.push(t)) =~= tokens_view(ts).push(t@));
}

fn ident_start(c: char) -> (r: bool)
    ensures
        r == is_ident_start(c),
{
    ('a' <= c && c <= 'z') || ('A' <= c && c <= 'Z') || c == '_'
}

fn ident_body(c: char) -> (r: bool)
    ensures
        r == is_ident_body(c),
{
    ident_start(c) || ('0' <= c && c <= '9')
}

fn whitespace(c: char) -> (r: bool)
    ensures
        r == is_space(c),
{
    ('\u{9}' <= c && c <= '\u{d}') || c == ' ' || c == '\u{85}' || c == '\u{a0}' || c == '\u{1680}'
        || ('\u{2000}' <= c && c <= '\u{200a}') || c == '\u{2028}' || c == '\u{2029}' || c
        == '\u{202f}' || c == '\u{205f}' || c == '\u{3000}'
}

fn punct_token(c: char) -> (r: Option<Token>)
    ensures
        r is Some <==> punct(c) is Some,
        r is Some ==> r->0@ == punct(c)->0,
{
    match c {
        '\\' => Some(Token::Lambda),
        '.' => Some(Token::Dot),
        '{' => Some(Token::LBrace),
        '}' => Some(Token::RBrace),
        '<' => Some(Token::Bra),
        '|' => Some(Token::Delim),
        '>' => Some(Token::Ket),
        _ => None,
    }
}

/// Reads the identifier that starts at character `start` of `input`, which has
/// `n` characters; returns it with the position just after it.
fn tok_var(input: &str, n: usize, start: usize) -> (r: (Token, usize))
    requires
        n == input@.len(),
        start < n,
        is_ident_start(input@[start as int]),
    ensures
        start < r.1 <= n,
        r.0@ == TokenV::Var(input@.subrange(start as int, r.1 as int)),
        forall|k: int| start <= k < r.1 ==> is_ident_body(#[trigger] input@[k]),
        r.1 == n || !is_ident_body(input@[r.1 as int]),
        lex_from(input@, start as int) == cons_token(r.0@, lex_from(input@, r.1 as int)),
{
    let mut k: usize = start + 1;
    while k < n && ident_body(input.get_char(k))
        invariant
            n == input@.len(),
            start < k <= n,
            lex_from(input@, start as int) == lex_ident(input@, start as int, k as int),
            forall|j: int| start <= j < k ==> is_ident_body(#[trigger] input@[j]),
        decreases n - k,
    {
        k = k + 1;
    }
    let name = String::from_str(input.substring_char(start, k));
    (Token::Var(name), k)
}

/// Splits `input` into tokens, or reports the first character that can start
/// no token.
pub fn tokenize(input: &str) -> (r: Result<Vec<Token>, LexError>)
    ensures
        lexed(input@, r),
{
    let n = input.unicode_len();
    let mut tokens: Vec<Token> = Vec::new();
    let mut i: usize = 0;
    while i < n
        invariant
            n == input@.len(),
            i <= n,
            lex(input@) == after(tokens_view(tokens@), lex_from(input@, i as int)),
        decreases n - i,
    {
        let c = input.get_char(i);
        let p = punct_token(c);
        if let Some(t) = p {
            proof {
                lemma_after_cons(tokens_view(tokens@), t@, lex_from(input@, i + 1));
                lemma_tokens_view_push(tokens@, t);
            }
            tokens.push(t);
            i = i + 1;
        } else if ident_start(c) {
            let (t, j) = tok_var(input, n, i);
            proof {
                lemma_after_cons(tokens_view(tokens@), t@, lex_from(input@, j as int));
                lemma_tokens_view_push(tokens@, t);
            }
            tokens.push(t);
            i = j;
        } else if whitespace(c) {
            i = i + 1;
        } else {
            return Err(LexError { ch: c, pos: i });
        }
    }
    assert(tokens_view(tokens@) + seq![] =~= tokens_view(tokens@));
    Ok(tokens)
}

/// The model of what `tokenize` returns.
pub open spec fn lex_result_view(r: Result<Vec<Token>, LexError>) -> Result<Seq<TokenV>, LexError> {
    match r {
        Ok(ts) => Ok(tokens_view(ts@)),
        Err(e) => Err(e),
    }
}

/// Tokenizing is deterministic: two runs of `tokenize` on the same text give
/// the same tokens, or the same error.
pub proof fn lemma_tokenize_deterministic(
    s: Seq<char>,
    r1: Result<Vec<Token>, LexError>,
    r2: Result<Vec<Token>, LexError>,
)
    requires
        lexed(s, r1),
        lexed(s, r2),
    ensures
        lex_result_view(r1) == lex_result_view(r2),
{
}

} // verus!
