//! Recursive-descent parser that resolves each variable either to the
//! de Bruijn depth of its binder or to a slot of the free-variable table.
use vstd::prelude::*;
use crate::tokenizer::{Token, TokenV, tokens_view};

verus! {

/// A term whose bound variables are de Bruijn depths.
///
/// `Variable(k)` with `k > 0` refers to the binder `k` lambdas outward (the
/// innermost is 1); `Variable(-(i + 1))` refers to slot `i` of the
/// free-variable table.
#[derive(Debug, PartialEq)]
pub enum Term {
    Variable(i32),
    Lambda(String, Box<Term>),
    Application(Box<Term>, Box<Term>),
}

/// The mathematical model of a term.
pub enum TermV {
    Variable(int),
    Lambda(Seq<char>, Box<TermV>),
    Application(Box<TermV>, Box<TermV>),
}

pub open spec fn term_view(t: Term) -> TermV
    decreases t,
{
    match t {
        Term::Variable(k) => TermV::Variable(k as int),
        Term::Lambda(p, b) => TermV::Lambda(p@, Box::new(term_view(*b))),
        Term::Application(f, a) => TermV::Application(Box::new(term_view(*f)), Box::new(term_view(*a))),
    }
}

impl View for Term {
    type V = TermV;

    open spec fn view(&self) -> TermV {
        term_view(*self)
    }
}

/// The sequences of characters of a sequence of strings.
pub open spec fn names(v: Seq<String>) -> Seq<Seq<char>> {
    Seq::new(v.len(), |i: int| v[i]@)
}

/// What the parser expected where it failed.
#[derive(Clone, Copy, Debug, PartialEq, Eq, Structural)]
pub enum Expected {
    /// The start of a term: an identifier, `\` or `<`.
    Term,
    /// An identifier after `\`.
    Identifier,
    /// `.` after a lambda's parameter.
    Dot,
    /// `{` after `.` in a lambda.
    LBrace,
    /// `}` after a lambda body.
    RBrace,
    /// `|` between the two sides of an application.
    Delim,
    /// `>` after the argument of an application.
    Ket,
    /// The end of the input after a complete term.
    End,
}

/// The description of an expectation.
pub open spec fn message_text(e: Expected) -> Seq<char> {
    match e {
        Expected::Term => "expected a term"@,
        Expected::Identifier => "expected an identifier after '\\'"@,
        Expected::Dot => "expected '.' after variable in lambda"@,
        Expected::LBrace => "expected '{' after '.' in lambda"@,
        Expected::RBrace => "expected '}' after lambda body"@,
        Expected::Delim => "expected delimiter '|' in application"@,
        Expected::Ket => "expected '>' after application"@,
        Expected::End => "expected the end of the input"@,
    }
}

impl Expected {
    /// A description of what was expected.
    pub fn message(&self) -> (r: &'static str)
        ensures
            r@ == message_text(*self),
    {
        match self {
            Expected::Term => "expected a term",
            Expected::Identifier => "expected an identifier after '\\'",
            Expected::Dot => "expected '.' after variable in lambda",
            Expected::LBrace => "expected '{' after '.' in lambda",
            Expected::RBrace => "expected '}' after lambda body",
            Expected::Delim => "expected delimiter '|' in application",
            Expected::Ket => "expected '>' after application",
            Expected::End => "expected the end of the input",
        }
    }
}

/// A syntax error: what was expected at token position `pos`, and the token
/// found there (`None` at the end of the input).
#[derive(Clone, Debug, PartialEq)]
pub struct ParseError {
    pub expected: Expected,
    pub pos: usize,
    pub found: Option<Token>,
}

/// The token at position `pos`, if there is one.
pub open spec fn tok_at(ts: Seq<TokenV>, pos: int) -> Option<TokenV> {
    if 0 <= pos < ts.len() {
        Some(ts[pos])
    } else {
        None
    }
}

/// The model of the token found where a syntax error arose.
pub open spec fn found_view(o: Option<Token>) -> Option<TokenV> {
    match o {
        Some(t) => Some(t@),
        None => None,
    }
}

/// The de Bruijn depth of the innermost binder of `n` among the first `p`
/// entries of the binder stack `env` (the last entry is the innermost).
pub open spec fn binder_from(env: Seq<Seq<char>>, n: Seq<char>, p: int) -> Option<int>
    decreases p,
{
    if p <= 0 {
        None
    } else if env[p - 1] == n {
        Some(env.len() - (p - 1))
    } else {
        binder_from(env, n, p - 1)
    }
}

/// The de Bruijn depth of the innermost binder of `n` in `env`.
pub open spec fn binder_depth(env: Seq<Seq<char>>, n: Seq<char>) -> Option<int> {
    binder_from(env, n, env.len() as int)
}

/// The first slot at or after `i` of the free-variable table `fv` that holds `n`.
pub open spec fn slot_from(fv: Seq<Seq<char>>, n: Seq<char>, i: int) -> Option<int>
    decreases fv.len() - i,
{
    if i < 0 || i >= fv.len() {
        None
    } else if fv[i] == n {
        Some(i)
    } else {
        slot_from(fv, n, i + 1)
    }
}

/// The slot of the free-variable table `fv` that holds `n`.
pub open spec fn slot_of(fv: Seq<Seq<char>>, n: Seq<char>) -> Option<int> {
    slot_from(fv, n, 0)
}

/// The index that a variable named `n` gets under the binder stack `env`, and
/// the free-variable table after it: its binder's depth, or else the slot of
/// the table that holds `n`, which is appended when there is none.
pub open spec fn resolve(
    env: Seq<Seq<char>>,
    fv: Seq<Seq<char>>,
    n: Seq<char>,
) -> (int, Seq<Seq<char>>) {
    match binder_depth(env, n) {
        Some(d) => (d, fv),
        None => match slot_of(fv, n) {
            Some(i) => (-(i + 1), fv),
            None => (-(fv.len() + 1), fv.push(n)),
        },
    }
}

/// The result of reading one production: the term, how many tokens it spans,
/// and the free-variable table after it; or what was expected, and where.
pub type Production = Result<(TermV, nat, Seq<Seq<char>>), (Expected, int)>;

/// The result of reading a whole term: the term and the free-variable table;
/// or what was expected, and where.
pub type Parsed = Result<(TermV, Seq<Seq<char>>), (Expected, int)>;

/// Reads a term at token position `pos`, under the binder stack `env` and with
/// the free-variable table `fv`.
///
///   Term        := IDENT | Lambda | Application
///   Lambda      := '\' IDENT '.' '{' Term '}'
///   Application := '<' Term '|' Term '>'
pub open spec fn term_at(
    ts: Seq<TokenV>,
    pos: int,
    env: Seq<Seq<char>>,
    fv: Seq<Seq<char>>,
) -> Production
    decreases ts.len() - pos, 1int,
{
    match tok_at(ts, pos) {
        Some(TokenV::Var(n)) => {
            let (k, fv2) = resolve(env, fv, n);
            Ok((TermV::Variable(k), 1, fv2))
        },
        Some(TokenV::Lambda) => lambda_at(ts, pos, env, fv),
        Some(TokenV::Bra) => application_at(ts, pos, env, fv),
        _ => Err((Expected::Term, pos)),
    }
}

/// Reads a lambda whose `\` stands at `pos`.
pub open spec fn lambda_at(
    ts: Seq<TokenV>,
    pos: int,
    env: Seq<Seq<char>>,
    fv: Seq<Seq<char>>,
) -> Production
    decreases ts.len() - pos, 0int,
{
    if tok_at(ts, pos) != Some(TokenV::Lambda) {
        Err((Expected::Term, pos))
    } else {
        match tok_at(ts, pos + 1) {
            Some(TokenV::Var(p)) => if tok_at(ts, pos + 2) != Some(TokenV::Dot) {
                Err((Expected::Dot, pos + 2))
            } else if tok_at(ts, pos + 3) != Some(TokenV::LBrace) {
                Err((Expected::LBrace, pos + 3))
            } else {
                match term_at(ts, pos + 4, env.push(p), fv) {
                    Ok((body, c, fv2)) => if tok_at(ts, pos + 4 + c) == Some(TokenV::RBrace) {
                        Ok((TermV::Lambda(p, Box::new(body)), c + 5, fv2))
                    } else {
                        Err((Expected::RBrace, pos + 4 + c))
                    },
                    Err(e) => Err(e),
                }
            },
            _ => Err((Expected::Identifier, pos + 1)),
        }
    }
}

/// Reads an application whose `<` stands at `pos`.
pub open spec fn application_at(
    ts: Seq<TokenV>,
    pos: int,
    env: Seq<Seq<char>>,
    fv: Seq<Seq<char>>,
) -> Production
    decreases ts.len() - pos, 0int,
{
    if tok_at(ts, pos) != Some(TokenV::Bra) {
        Err((Expected::Term, pos))
    } else {
        match term_at(ts, pos + 1, env, fv) {
            Ok((f, c1, fv1)) => if tok_at(ts, pos + 1 + c1) != Some(TokenV::Delim) {
                Err((Expected::Delim, pos + 1 + c1))
            } else {
                match term_at(ts, pos + 2 + c1, env, fv1) {
                    Ok((a, c2, fv2)) => if tok_at(ts, pos + 2 + c1 + c2) == Some(TokenV::Ket) {
                        Ok((TermV::Application(Box::new(f), Box::new(a)), c1 + c2 + 3, fv2))
                    } else {
                        Err((Expected::Ket, pos + 2 + c1 + c2))
                    },
                    Err(e) => Err(e),
                }
            },
            Err(e) => Err(e),
        }
    }
}

/// Reads one term from `pos` to the end of `ts`, with no enclosing binder.
pub open spec fn parse_from(
    ts: Seq<TokenV>,
    pos: int,
    fv: Seq<Seq<char>>,
) -> Parsed {
    match term_at(ts, pos, seq![], fv) {
        Ok((t, c, fv2)) => if pos + c == ts.len() {
            Ok((t, fv2))
        } else {
            Err((Expected::End, pos + c))
        },
        Err(e) => Err(e),
    }
}

/// The term that `ts` spells, with its free-variable table.
pub open spec fn parse_tokens(ts: Seq<TokenV>) -> Parsed {
    parse_from(ts, 0, seq![])
}

/// Every index of `t` refers to a binder among the `depth` that enclose it, or
/// to one of the `nfree` slots of the free-variable table.
pub open spec fn well_scoped(t: TermV, depth: int, nfree: int) -> bool
    decreases t,
{
    match t {
        TermV::Variable(k) => (1 <= k && k <= depth) || (-nfree <= k && k <= -1),
        TermV::Lambda(_, b) => well_scoped(*b, depth + 1, nfree),
        TermV::Application(f, a) => well_scoped(*f, depth, nfree) && well_scoped(*a, depth, nfree),
    }
}

/// No name occurs twice in the free-variable table `fv`.
pub open spec fn distinct(fv: Seq<Seq<char>>) -> bool {
    forall|i: int, j: int| 0 <= i < j < fv.len() ==> fv[i] != fv[j]
}

/// Each bound variable of `t`, under the binder names `env`, refers to the
/// innermost binder of its own name: spelling the term out with its binders'
/// names loses nothing.
pub open spec fn faithful(t: TermV, env: Seq<Seq<char>>) -> bool
    decreases t,
{
    match t {
        TermV::Variable(k) => k >= 1 ==> binder_depth(env, env[env.len() - k]) == Some(k),
        TermV::Lambda(p, b) => faithful(*b, env.push(p)),
        TermV::Application(f, a) => faithful(*f, env) && faithful(*a, env),
    }
}

/// A binder found for `n` lies within the stack and carries the name `n`.
pub proof fn lemma_binder_from(env: Seq<Seq<char>>, n: Seq<char>, p: int)
    requires
        0 <= p <= env.len(),
    ensures
        binder_from(env, n, p) matches Some(d) ==> 1 <= d <= env.len() && env[env.len() - d] == n,
    decreases p,
{
    if p > 0 {
        lemma_binder_from(env, n, p - 1);
    }
}

/// A slot found for `n` holds `n`; when none is found, no slot from `i` on does.
pub proof fn lemma_slot_from(fv: Seq<Seq<char>>, n: Seq<char>, i: int)
    requires
        0 <= i,
    ensures
        slot_from(fv, n, i) matches Some(k) ==> 0 <= k < fv.len() && fv[k] == n,
        slot_from(fv, n, i) is None ==> forall|j: int| i <= j < fv.len() ==> fv[j] != n,
    decreases fv.len() - i,
{
    if i < fv.len() {
        lemma_slot_from(fv, n, i + 1);
    }
}

/// A term stays well scoped when the free-variable table grows.
pub proof fn lemma_well_scoped_more_free(t: TermV, depth: int, n1: int, n2: int)
    requires
        n1 <= n2,
        well_scoped(t, depth, n1),
    ensures
        well_scoped(t, depth, n2),
    decreases t,
{
    match t {
        TermV::Variable(_) => {},
        TermV::Lambda(_, b) => lemma_well_scoped_more_free(*b, depth + 1, n1, n2),
        TermV::Application(f, a) => {
            lemma_well_scoped_more_free(*f, depth, n1, n2);
            lemma_well_scoped_more_free(*a, depth, n1, n2);
        },
    }
}

/// What holds of every term that the parser reads: its indices are in scope,
/// each bound variable refers to the innermost binder of its name, and the
/// free-variable table only grows, by names that it did not hold.
pub open spec fn sound_production(env: Seq<Seq<char>>, fv: Seq<Seq<char>>, p: Production) -> bool {
    p matches Ok((t, c, fv2)) ==> {
        &&& well_scoped(t, env.len() as int, fv2.len() as int)
        &&& faithful(t, env)
        &&& fv.len() <= fv2.len()
        &&& fv2.subrange(0, fv.len() as int) == fv
        &&& distinct(fv2)
    }
}

/// The parser's output is well scoped, faithful to the binders' names, and
/// keeps the free-variable table free of repeats.
pub proof fn lemma_term_at_sound(ts: Seq<TokenV>, pos: int, env: Seq<Seq<char>>, fv: Seq<Seq<char>>)
    requires
        distinct(fv),
    ensures
        sound_production(env, fv, term_at(ts, pos, env, fv)),
    decreases ts.len() - pos,
{
    match tok_at(ts, pos) {
        Some(TokenV::Var(n)) => {
            lemma_binder_from(env, n, env.len() as int);
            lemma_slot_from(fv, n, 0);
            assert(fv.subrange(0, fv.len() as int) =~= fv);
            assert(fv.push(n).subrange(0, fv.len() as int) =~= fv);
        },
        Some(TokenV::Lambda) => {
            if let Some(TokenV::Var(p)) = tok_at(ts, pos + 1) {
                if tok_at(ts, pos + 2) == Some(TokenV::Dot) && tok_at(ts, pos + 3) == Some(
                    TokenV::LBrace,
                ) {
                    lemma_term_at_sound(ts, pos + 4, env.push(p), fv);
                }
            }
        },
        Some(TokenV::Bra) => {
            lemma_term_at_sound(ts, pos + 1, env, fv);
            if let Ok((f, c1, fv1)) = term_at(ts, pos + 1, env, fv) {
                if tok_at(ts, pos + 1 + c1) == Some(TokenV::Delim) {
                    lemma_term_at_sound(ts, pos + 2 + c1, env, fv1);
                    if let Ok((a, c2, fv2)) = term_at(ts, pos + 2 + c1, env, fv1) {
                        lemma_well_scoped_more_free(f, env.len() as int, fv1.len() as int, fv2.len() as int);
                        assert(fv2.subrange(0, fv.len() as int) =~= fv1.subrange(0, fv.len() as int));
                    }
                }
            }
        },
        _ => {},
    }
}

/// What `parse` returns on the tokens `ts`.
pub open spec fn parsed(ts: Seq<TokenV>, r: Result<(Term, Vec<String>), ParseError>) -> bool {
    match r {
        Ok((t, fv)) => parse_tokens(ts) == Parsed::Ok((t@, names(fv@))),
        Err(e) => parse_tokens(ts) == Parsed::Err((e.expected, e.pos as int))
            && found_view(e.found) == tok_at(ts, e.pos as int),
    }
}

/// The token that a delimiter expectation asks for.
pub open spec fn delimiter(e: Expected) -> TokenV {
    match e {
        Expected::Dot => TokenV::Dot,
        Expected::LBrace => TokenV::LBrace,
        Expected::RBrace => TokenV::RBrace,
        Expected::Delim => TokenV::Delim,
        _ => TokenV::Ket,
    }
}

/// The expectations that ask for one fixed token.
pub open spec fn is_delimiter(e: Expected) -> bool {
    e == Expected::Dot || e == Expected::LBrace || e == Expected::RBrace || e == Expected::Delim || e
        == Expected::Ket
}

proof fn lemma_names_push(v: Seq<String>, s: String)
    ensures
        names(v.push(s)) == names(v).push(s@),
{
    assert(names(v.push(s)) =~= names(v).push(s@));
}

fn token_copy(t: &Token) -> (r: Token)
    ensures
        r@ == t@,
{
    match t {
        Token::Var(n) => Token::Var(n.clone()),
        Token::Lambda => Token::Lambda,
        Token::Dot => Token::Dot,
        Token::LBrace => Token::LBrace,
        Token::RBrace => Token::RBrace,
        Token::Bra => Token::Bra,
        Token::Delim => Token::Delim,
        Token::Ket => Token::Ket,
    }
}

fn matches_delimiter(t: &Token, want: Expected) -> (r: bool)
    requires
        is_delimiter(want),
    ensures
        r == (t@ == delimiter(want)),
{
    match (t, want) {
        (Token::Dot, Expected::Dot) => true,
        (Token::LBrace, Expected::LBrace) => true,
        (Token::RBrace, Expected::RBrace) => true,
        (Token::Delim, Expected::Delim) => true,
        (Token::Ket, Expected::Ket) => true,
        _ => false,
    }
}

/// A parser over a sequence of tokens. It keeps the stack of the binders that
/// enclose the current position and the table of the free variables met so far.
pub struct Parser<'a> {
    tokens: &'a [Token],
    pos: usize,
    env: Vec<String>,
    freevar: Vec<String>,
}

impl<'a> Parser<'a> {
    /// The tokens being read.
    pub closed spec fn tokens(&self) -> Seq<TokenV> {
        tokens_view(self.tokens@)
    }

    /// The position of the next token to read.
    pub closed spec fn position(&self) -> int {
        self.pos as int
    }

    /// The free-variable table so far.
    pub closed spec fn free_vars(&self) -> Seq<Seq<char>> {
        names(self.freevar@)
    }

    /// The binder names that enclose the current position, innermost last.
    pub closed spec fn binders(&self) -> Seq<Seq<char>> {
        names(self.env@)
    }

    /// The parser stands between two terms: no binder is open, and every index
    /// it can produce fits in an `i32`.
    pub closed spec fn wf(&self) -> bool {
        self.inv() && self.env@.len() == 0
    }

    spec fn inv(&self) -> bool {
        &&& self.tokens@.len() <= i32::MAX
        &&& self.pos <= self.tokens@.len()
        &&& self.env@.len() <= self.pos
        &&& self.freevar@.len() <= self.pos
        &&& distinct(names(self.freevar@))
    }

    /// `self` became `next` by reading a production whose model is `p`, with the
    /// result `r`.
    spec fn produced(&self, next: &Self, p: Production, r: Result<Term, ParseError>) -> bool {
        &&& next.inv()
        &&& next.tokens == self.tokens
        &&& next.env@ == self.env@
        &&& self.pos <= next.pos
        &&& match r {
            Ok(t) => p == Production::Ok((t@, (next.pos - self.pos) as nat, names(next.freevar@))),
            Err(e) => p == Production::Err((e.expected, e.pos as int)) && found_view(e.found) == tok_at(
                tokens_view(self.tokens@),
                e.pos as int,
            ),
        }
    }

    /// A parser at the first of `tokens`, with no free variable yet.
    pub fn new(tokens: &'a [Token]) -> (r: Parser<'a>)
        requires
            tokens@.len() <= i32::MAX,
        ensures
            r.wf(),
            r.tokens() == tokens_view(tokens@),
            r.position() == 0,
            r.free_vars() == Seq::<Seq<char>>::empty(),
    {
        let r = Parser { tokens, pos: 0, env: Vec::new(), freevar: Vec::new() };
        assert(names(r.freevar@) =~= Seq::<Seq<char>>::empty());
        r
    }

    /// Reads one term from the current position to the last token, and returns
    /// it with the free-variable table.
    pub fn parse(&mut self) -> (r: Result<(Term, Vec<String>), ParseError>)
        requires
            old(self).wf(),
        ensures
            final(self).wf(),
            final(self).tokens() == old(self).tokens(),
            match r {
                Ok((t, fv)) => parse_from(old(self).tokens(), old(self).position(), old(self).free_vars())
                    == Parsed::Ok((t@, names(fv@))),
                Err(e) => parse_from(old(self).tokens(), old(self).position(), old(self).free_vars())
                    == Parsed::Err((e.expected, e.pos as int))
                    && found_view(e.found) == tok_at(old(self).tokens(), e.pos as int),
            },
            r matches Ok((t, fv)) ==> well_scoped(t@, 0, fv@.len() as int) && faithful(t@, seq![])
                && distinct(names(fv@)),
    {
        proof {
            assert(names(self.env@) =~= Seq::<Seq<char>>::empty());
            lemma_term_at_sound(self.tokens(), self.pos as int, seq![], self.free_vars());
        }
        match self.parse_term() {
            Ok(t) => {
                if self.pos < self.tokens.len() {
                    Err(self.fail(Expected::End))
                } else {
                    let fv = self.freevar.clone();
                    assert(fv@ =~= self.freevar@);
                    Ok((t, fv))
                }
            },
            Err(e) => Err(e),
        }
    }

    /// The error "expected `what`" at the current position.
    fn fail(&self, what: Expected) -> (e: ParseError)
        requires
            self.inv(),
        ensures
            e.expected == what,
            e.pos == self.pos,
            found_view(e.found) == tok_at(self.tokens(), self.pos as int),
    {
        let found = if self.pos < self.tokens.len() {
            Some(token_copy(&self.tokens[self.pos]))
        } else {
            None
        };
        ParseError { expected: what, pos: self.pos, found }
    }

    fn expect_token(&mut self, want: Expected) -> (r: Result<(), ParseError>)
        requires
            old(self).inv(),
            is_delimiter(want),
        ensures
            final(self).inv(),
            final(self).tokens == old(self).tokens,
            final(self).env@ == old(self).env@,
            final(self).freevar@ == old(self).freevar@,
            r is Ok <==> tok_at(old(self).tokens(), old(self).pos as int) == Some(delimiter(want)),
            r is Ok ==> final(self).pos == old(self).pos + 1,
            r matches Err(e) ==> final(self).pos == old(self).pos && e.expected == want && e.pos
                == old(self).pos && found_view(e.found) == tok_at(old(self).tokens(), e.pos as int),
    {
        if self.pos < self.tokens.len() && matches_delimiter(&self.tokens[self.pos], want) {
            self.pos = self.pos + 1;
            Ok(())
        } else {
            Err(self.fail(want))
        }
    }

    fn expect_ident(&mut self) -> (r: Result<String, ParseError>)
        requires
            old(self).inv(),
        ensures
            final(self).inv(),
            final(self).tokens == old(self).tokens,
            final(self).env@ == old(self).env@,
            final(self).freevar@ == old(self).freevar@,
            match r {
                Ok(n) => tok_at(old(self).tokens(), old(self).pos as int) == Some(TokenV::Var(n@))
                    && final(self).pos == old(self).pos + 1,
                Err(e) => !(tok_at(old(self).tokens(), old(self).pos as int) matches Some(TokenV::Var(_)))
                    && final(self).pos == old(self).pos && e.expected == Expected::Identifier && e.pos
                    == old(self).pos && found_view(e.found) == tok_at(old(self).tokens(), e.pos as int),
            },
    {
        if self.pos < self.tokens.len() {
            if let Token::Var(name) = &self.tokens[self.pos] {
                let n = name.clone();
                self.pos = self.pos + 1;
                return Ok(n);
            }
        }
        Err(self.fail(Expected::Identifier))
    }

    fn parse_term(&mut self) -> (r: Result<Term, ParseError>)
        requires
            old(self).inv(),
        ensures
            old(self).produced(final(self), term_at(old(self).tokens(), old(self).pos as int, old(self).binders(), old(self).free_vars()), r),
            !(tok_at(old(self).tokens(), old(self).pos as int) matches Some(
                TokenV::Var(_) | TokenV::Lambda | TokenV::Bra,
            )) ==> final(self).pos == old(self).pos && final(self).freevar@ == old(self).freevar@,
        decreases old(self).tokens@.len() - old(self).pos, 1int,
    {
        if self.pos < self.tokens.len() {
            match &self.tokens[self.pos] {
                Token::Var(_) => return self.parse_var(),
                Token::Lambda => return self.parse_lambda(),
                Token::Bra => return self.parse_application(),
                _ => {},
            }
        }
        Err(self.fail(Expected::Term))
    }

    fn parse_var(&mut self) -> (r: Result<Term, ParseError>)
        requires
            old(self).inv(),
            tok_at(old(self).tokens(), old(self).pos as int) matches Some(TokenV::Var(_)),
        ensures
            r is Ok,
            old(self).produced(final(self), term_at(old(self).tokens(), old(self).pos as int, old(self).binders(), old(self).free_vars()), r),
    {
        let ghost env = names(self.env@);
        let ghost fv = names(self.freevar@);
        let ident = match self.expect_ident() {
            Ok(n) => n,
            Err(e) => return Err(e),
        };
        let mut p: usize = self.env.len();
        while p > 0
            invariant
                self.inv(),
                self.pos == old(self).pos + 1,
                self.tokens == old(self).tokens,
                self.env@ == old(self).env@,
                self.freevar@ == old(self).freevar@,
                tok_at(old(self).tokens(), old(self).pos as int) == Some(TokenV::Var(ident@)),
                env == names(old(self).env@),
                fv == names(old(self).freevar@),
                p <= self.env@.len(),
                binder_depth(env, ident@) == binder_from(env, ident@, p as int),
            decreases p,
        {
            if self.env[p - 1] == ident {
                return Ok(Term::Variable((self.env.len() - (p - 1)) as i32));
            }
            p = p - 1;
        }
        let mut i: usize = 0;
        while i < self.freevar.len()
            invariant
                self.inv(),
                self.pos == old(self).pos + 1,
                self.tokens == old(self).tokens,
                self.env@ == old(self).env@,
                self.freevar@ == old(self).freevar@,
                tok_at(old(self).tokens(), old(self).pos as int) == Some(TokenV::Var(ident@)),
                env == names(old(self).env@),
                fv == names(old(self).freevar@),
                i <= self.freevar@.len(),
                binder_depth(env, ident@) is None,
                slot_of(fv, ident@) == slot_from(fv, ident@, i as int),
            decreases self.freevar@.len() - i,
        {
            if self.freevar[i] == ident {
                return Ok(Term::Variable(-((i + 1) as i32)));
            }
            i = i + 1;
        }
        self.freevar.push(ident);
        proof {
            lemma_names_push(old(self).freevar@, ident);
            lemma_slot_from(fv, ident@, 0);
        }
        Ok(Term::Variable(-(self.freevar.len() as i32)))
    }

    fn parse_lambda(&mut self) -> (r: Result<Term, ParseError>)
        requires
            old(self).inv(),
            tok_at(old(self).tokens(), old(self).pos as int) == Some(TokenV::Lambda),
        ensures
            old(self).produced(final(self), lambda_at(old(self).tokens(), old(self).pos as int, old(self).binders(), old(self).free_vars()), r),
        decreases old(self).tokens@.len() - old(self).pos, 0int,
    {
        self.pos = self.pos + 1;
        let param = match self.expect_ident() {
            Ok(n) => n,
            Err(e) => return Err(e),
        };
        match self.expect_token(Expected::Dot) {
            Ok(()) => {},
            Err(e) => return Err(e),
        }
        match self.expect_token(Expected::LBrace) {
            Ok(()) => {},
            Err(e) => return Err(e),
        }
        self.env.push(param.clone());
        proof {
            lemma_names_push(old(self).env@, param);
        }
        let body = self.parse_term();
        let _ = self.env.pop();
        assert(self.env@ =~= old(self).env@);
        match body {
            Ok(b) => match self.expect_token(Expected::RBrace) {
                Ok(()) => Ok(Term::Lambda(param, Box::new(b))),
                Err(e) => Err(e),
            },
            Err(e) => Err(e),
        }
    }

    fn parse_application(&mut self) -> (r: Result<Term, ParseError>)
        requires
            old(self).inv(),
            tok_at(old(self).tokens(), old(self).pos as int) == Some(TokenV::Bra),
        ensures
            old(self).produced(final(self), application_at(old(self).tokens(), old(self).pos as int, old(self).binders(), old(self).free_vars()), r),
        decreases old(self).tokens@.len() - old(self).pos, 0int,
    {
        self.pos = self.pos + 1;
        let lhs = match self.parse_term() {
            Ok(t) => t,
            Err(e) => return Err(e),
        };
        match self.expect_token(Expected::Delim) {
            Ok(()) => {},
            Err(e) => return Err(e),
        }
        let rhs = match self.parse_term() {
            Ok(t) => t,
            Err(e) => return Err(e),
        };
        match self.expect_token(Expected::Ket) {
            Ok(()) => {},
            Err(e) => return Err(e),
        }
        Ok(Term::Application(Box::new(lhs), Box::new(rhs)))
    }
}

/// Reads one term that spans all of `tokens`, resolving each variable to the
/// depth of its innermost binder or to its slot in the returned free-variable
/// table. That table holds each free name once, in order of first appearance.
pub fn parse(tokens: &[Token]) -> (r: Result<(Term, Vec<String>), ParseError>)
    requires
        tokens@.len() <= i32::MAX,
    ensures
        parsed(tokens_view(tokens@), r),
        r matches Ok((t, fv)) ==> well_scoped(t@, 0, fv@.len() as int) && faithful(t@, seq![])
            && distinct(names(fv@)),
{
    let mut p = Parser::new(tokens);
    p.parse()
}

} // verus!
