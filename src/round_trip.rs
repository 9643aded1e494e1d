//! Spelling a resolved term out again in the source syntax, and reading it back.
use vstd::prelude::*;
use crate::parser::{
    Parsed, TermV, Production, term_at, parse_tokens, well_scoped, faithful,
    lemma_term_at_sound,
};
use crate::tokenizer::{
    Token, TokenV, LexError, tokens_view, lex, lex_from, lex_ident, lexed, after, cons_token,
    is_ident_start, is_ident_body,
};

verus! {

/// The tokens that spell `t` in the source syntax, where a bound variable is
/// written with the name of its binder among `env` (innermost last).
pub open spec fn source(t: TermV, env: Seq<Seq<char>>) -> Seq<TokenV>
    decreases t,
{
    match t {
        TermV::Variable(k) => seq![TokenV::Var(env[env.len() - k])],
        TermV::Lambda(p, b) => seq![TokenV::Lambda, TokenV::Var(p), TokenV::Dot, TokenV::LBrace]
            + source(*b, env.push(p)) + seq![TokenV::RBrace],
        TermV::Application(f, a) => seq![TokenV::Bra] + source(*f, env) + seq![TokenV::Delim]
            + source(*a, env) + seq![TokenV::Ket],
    }
}

/// Where the tokens of `t` stand in `ts` from `pos` on, the parser reads `t`
/// back from them and leaves the free-variable table as it was.
pub proof fn lemma_term_at_source(
    ts: Seq<TokenV>,
    pos: int,
    t: TermV,
    env: Seq<Seq<char>>,
    fv: Seq<Seq<char>>,
)
    requires
        well_scoped(t, env.len() as int, 0),
        faithful(t, env),
        0 <= pos,
        pos + source(t, env).len() <= ts.len(),
        ts.subrange(pos, pos + source(t, env).len()) == source(t, env),
    ensures
        term_at(ts, pos, env, fv) == Production::Ok((t, source(t, env).len(), fv)),
    decreases t,
{
    let src = source(t, env);
    assert(forall|i: int| 0 <= i < src.len() ==> ts[pos + i] == #[trigger] src[i]) by {
        assert forall|i: int| 0 <= i < src.len() implies ts[pos + i] == #[trigger] src[i] by {
            assert(ts.subrange(pos, pos + src.len())[i] == src[i]);
        }
    }
    match t {
        TermV::Variable(k) => {
            assert(src[0] == TokenV::Var(env[env.len() - k]));
        },
        TermV::Lambda(p, b) => {
            let env2 = env.push(p);
            let sb = source(*b, env2);
            let nb = sb.len() as int;
            assert(src[0] == TokenV::Lambda);
            assert(src[1] == TokenV::Var(p));
            assert(src[2] == TokenV::Dot);
            assert(src[3] == TokenV::LBrace);
            assert(src[4 + nb] == TokenV::RBrace);
            assert(ts.subrange(pos + 4, pos + 4 + nb) =~= sb) by {
                assert forall|i: int| 0 <= i < nb implies ts[pos + 4 + i] == sb[i] by {
                    assert(src[4 + i] == sb[i]);
                }
            }
            lemma_term_at_source(ts, pos + 4, *b, env2, fv);
        },
        TermV::Application(f, a) => {
            let sf = source(*f, env);
            let sa = source(*a, env);
            let nf = sf.len() as int;
            let na = sa.len() as int;
            assert(src[0] == TokenV::Bra);
            assert(src[1 + nf] == TokenV::Delim);
            assert(src[2 + nf + na] == TokenV::Ket);
            assert(ts.subrange(pos + 1, pos + 1 + nf) =~= sf) by {
                assert forall|i: int| 0 <= i < nf implies ts[pos + 1 + i] == sf[i] by {
                    assert(src[1 + i] == sf[i]);
                }
            }
            assert(ts.subrange(pos + 2 + nf, pos + 2 + nf + na) =~= sa) by {
                assert forall|i: int| 0 <= i < na implies ts[pos + 2 + nf + i]
                    == sa[i] by {
                    assert(src[2 + nf + i] == sa[i]);
                }
            }
            lemma_term_at_source(ts, pos + 1, *f, env, fv);
            lemma_term_at_source(ts, pos + 2 + nf, *a, env, fv);
        },
    }
}

/// A closed term whose bound variables each refer to the innermost binder of
/// their name reads back from its spelling in the source syntax as itself,
/// with an empty free-variable table.
pub proof fn lemma_round_trip(t: TermV)
    requires
        well_scoped(t, 0, 0),
        faithful(t, seq![]),
    ensures
        parse_tokens(source(t, seq![])) == Parsed::Ok(
            (t, seq![]),
        ),
{
    let src = source(t, seq![]);
    assert(src.subrange(0, src.len() as int) =~= src);
    lemma_term_at_source(src, 0, t, seq![], seq![]);
}

/// Parsing tokens that spell a term with no free variable, spelling the term
/// out again with its binders' names, and parsing that gives the same term.
pub proof fn lemma_reparse(ts: Seq<TokenV>, t: TermV)
    requires
        parse_tokens(ts) == Parsed::Ok((t, seq![])),
    ensures
        parse_tokens(source(t, seq![])) == Parsed::Ok(
            (t, seq![]),
        ),
{
    lemma_term_at_sound(ts, 0, seq![], seq![]);
    lemma_round_trip(t);
}

/// `n` is an identifier: a letter or `_`, then letters, digits or `_`.
pub open spec fn is_identifier(n: Seq<char>) -> bool {
    &&& n.len() > 0
    &&& is_ident_start(n[0])
    &&& forall|k: int| 0 <= k < n.len() ==> is_ident_body(#[trigger] n[k])
}

/// Every lambda of `t` names its parameter with an identifier.
pub open spec fn named_by_identifiers(t: TermV) -> bool
    decreases t,
{
    match t {
        TermV::Variable(_) => true,
        TermV::Lambda(p, b) => is_identifier(p) && named_by_identifiers(*b),
        TermV::Application(f, a) => named_by_identifiers(*f) && named_by_identifiers(*a),
    }
}

/// The text of `t` in the source syntax, where a bound variable is written
/// with the name of its binder among `env` (innermost last).
pub open spec fn source_text(t: TermV, env: Seq<Seq<char>>) -> Seq<char>
    decreases t,
{
    match t {
        TermV::Variable(k) => env[env.len() - k],
        TermV::Lambda(p, b) => seq!['\\'] + p + seq!['.', '{'] + source_text(*b, env.push(p))
            + seq!['}'],
        TermV::Application(f, a) => seq!['<'] + source_text(*f, env) + seq!['|'] + source_text(
            *a,
            env,
        ) + seq!['>'],
    }
}

/// No identifier goes on past position `j` of `s`.
pub open spec fn word_ends(s: Seq<char>, j: int) -> bool {
    j == s.len() || !is_ident_body(s[j])
}

proof fn lemma_after_after(a: Seq<TokenV>, b: Seq<TokenV>, r: Result<Seq<TokenV>, int>)
    ensures
        after(a, after(b, r)) == after(a + b, r),
{
    if let Ok(rest) = r {
        assert(a + (b + rest) =~= (a + b) + rest);
    }
}

proof fn lemma_cons_after(t: TokenV, r: Result<Seq<TokenV>, int>)
    ensures
        cons_token(t, r) == after(seq![t], r),
{
}

proof fn lemma_lex_ident(s: Seq<char>, start: int, k: int, j: int)
    requires
        0 <= start < k <= j <= s.len(),
        forall|m: int| k <= m < j ==> is_ident_body(#[trigger] s[m]),
        word_ends(s, j),
    ensures
        lex_ident(s, start, k) == cons_token(TokenV::Var(s.subrange(start, j)), lex_from(s, j)),
    decreases j - k,
{
    if k < j {
        lemma_lex_ident(s, start, k + 1, j);
    }
}

/// An identifier that stands at `i` in `s`, and ends a word there, lexes as one token.
proof fn lemma_lex_word(s: Seq<char>, i: int, w: Seq<char>)
    requires
        0 <= i,
        i + w.len() <= s.len(),
        s.subrange(i, i + w.len()) == w,
        is_identifier(w),
        word_ends(s, i + w.len()),
    ensures
        lex_from(s, i) == cons_token(TokenV::Var(w), lex_from(s, i + w.len())),
{
    assert forall|m: int| i + 1 <= m < i + w.len() implies is_ident_body(#[trigger] s[m]) by {
        assert(s.subrange(i, i + w.len())[m - i] == s[m]);
    }
    assert(s.subrange(i, i + w.len())[0] == s[i]);
    lemma_lex_ident(s, i, i + 1, i + w.len());
}

/// Where the text of `t` stands in `s` from `i` on and ends a word, its tokens
/// are the tokens that spell `t`.
pub proof fn lemma_lex_source(s: Seq<char>, i: int, t: TermV, env: Seq<Seq<char>>)
    requires
        well_scoped(t, env.len() as int, 0),
        named_by_identifiers(t),
        forall|m: int| 0 <= m < env.len() ==> is_identifier(#[trigger] env[m]),
        0 <= i,
        i + source_text(t, env).len() <= s.len(),
        s.subrange(i, i + source_text(t, env).len()) == source_text(t, env),
        word_ends(s, i + source_text(t, env).len()),
    ensures
        lex_from(s, i) == after(source(t, env), lex_from(s, i + source_text(t, env).len())),
    decreases t,
{
    let w = source_text(t, env);
    let e = i + w.len();
    assert forall|m: int| 0 <= m < w.len() implies s[i + m] == #[trigger] w[m] by {
        assert(s.subrange(i, e)[m] == s[i + m]);
    }
    match t {
        TermV::Variable(k) => {
            assert(is_identifier(env[env.len() - k]));
            lemma_lex_word(s, i, w);
            lemma_cons_after(TokenV::Var(w), lex_from(s, e));
        },
        TermV::Lambda(p, b) => {
            let env2 = env.push(p);
            let wb = source_text(*b, env2);
            let np = p.len() as int;
            let nb = wb.len() as int;
            assert(w[0] == '\\');
            assert(w[1 + np] == '.');
            assert(w[2 + np] == '{');
            assert(w[3 + np + nb] == '}');
            assert(s.subrange(i + 1, i + 1 + np) =~= p) by {
                assert forall|m: int| 0 <= m < np implies s[i + 1 + m] == p[m] by {
                    assert(w[1 + m] == p[m]);
                }
            }
            assert(s.subrange(i + 3 + np, i + 3 + np + nb) =~= wb) by {
                assert forall|m: int| 0 <= m < nb implies s[i + 3 + np + m] == wb[m] by {
                    assert(w[3 + np + m] == wb[m]);
                }
            }
            assert(s[i] == '\\' && s[i + 1 + np] == '.' && s[i + 2 + np] == '{');
            assert(s[i + 3 + np + nb] == '}');
            assert(lex_from(s, i) == cons_token(TokenV::Lambda, lex_from(s, i + 1)));
            assert(lex_from(s, i + 1 + np) == cons_token(TokenV::Dot, lex_from(s, i + 2 + np)));
            assert(lex_from(s, i + 2 + np) == cons_token(TokenV::LBrace, lex_from(s, i + 3 + np)));
            assert(lex_from(s, i + 3 + np + nb) == cons_token(TokenV::RBrace, lex_from(s, e)));
            lemma_lex_word(s, i + 1, p);
            lemma_lex_source(s, i + 3 + np, *b, env2);
            let r = lex_from(s, e);
            lemma_cons_after(TokenV::RBrace, r);
            lemma_after_after(source(*b, env2), seq![TokenV::RBrace], r);
            let tail = source(*b, env2) + seq![TokenV::RBrace];
            lemma_cons_after(TokenV::LBrace, after(tail, r));
            lemma_after_after(seq![TokenV::LBrace], tail, r);
            lemma_cons_after(TokenV::Dot, after(seq![TokenV::LBrace] + tail, r));
            lemma_after_after(seq![TokenV::Dot], seq![TokenV::LBrace] + tail, r);
            let t3 = seq![TokenV::Dot] + (seq![TokenV::LBrace] + tail);
            lemma_cons_after(TokenV::Var(p), after(t3, r));
            lemma_after_after(seq![TokenV::Var(p)], t3, r);
            let t4 = seq![TokenV::Var(p)] + t3;
            lemma_cons_after(TokenV::Lambda, after(t4, r));
            lemma_after_after(seq![TokenV::Lambda], t4, r);
            assert(seq![TokenV::Lambda] + t4 =~= source(t, env));
        },
        TermV::Application(f, a) => {
            let wf = source_text(*f, env);
            let wa = source_text(*a, env);
            let nf = wf.len() as int;
            let na = wa.len() as int;
            assert(w[0] == '<');
            assert(w[1 + nf] == '|');
            assert(w[2 + nf + na] == '>');
            assert(s.subrange(i + 1, i + 1 + nf) =~= wf) by {
                assert forall|m: int| 0 <= m < nf implies s[i + 1 + m] == wf[m] by {
                    assert(w[1 + m] == wf[m]);
                }
            }
            assert(s.subrange(i + 2 + nf, i + 2 + nf + na) =~= wa) by {
                assert forall|m: int| 0 <= m < na implies s[i + 2 + nf + m] == wa[m] by {
                    assert(w[2 + nf + m] == wa[m]);
                }
            }
            assert(s[i] == '<' && s[i + 1 + nf] == '|' && s[i + 2 + nf + na] == '>');
            assert(lex_from(s, i) == cons_token(TokenV::Bra, lex_from(s, i + 1)));
            assert(lex_from(s, i + 1 + nf) == cons_token(TokenV::Delim, lex_from(s, i + 2 + nf)));
            assert(lex_from(s, i + 2 + nf + na) == cons_token(TokenV::Ket, lex_from(s, e)));
            lemma_lex_source(s, i + 1, *f, env);
            lemma_lex_source(s, i + 2 + nf, *a, env);
            let r = lex_from(s, e);
            let sf = source(*f, env);
            let sa = source(*a, env);
            lemma_cons_after(TokenV::Ket, r);
            lemma_after_after(sa, seq![TokenV::Ket], r);
            let t1 = sa + seq![TokenV::Ket];
            lemma_cons_after(TokenV::Delim, after(t1, r));
            lemma_after_after(seq![TokenV::Delim], t1, r);
            let t2 = seq![TokenV::Delim] + t1;
            lemma_after_after(sf, t2, r);
            let t3 = sf + t2;
            lemma_cons_after(TokenV::Bra, after(t3, r));
            lemma_after_after(seq![TokenV::Bra], t3, r);
            assert(seq![TokenV::Bra] + t3 =~= source(t, env));
        },
    }
}

/// A closed term whose bound variables each refer to the innermost binder of
/// their name, and whose lambdas name their parameters with identifiers, reads
/// back from its text in the source syntax as itself: that text lexes to the
/// tokens that spell the term, and these parse to the term with an empty
/// free-variable table.
pub proof fn lemma_text_round_trip(t: TermV)
    requires
        well_scoped(t, 0, 0),
        faithful(t, seq![]),
        named_by_identifiers(t),
    ensures
        lex(source_text(t, seq![])) == Ok::<Seq<TokenV>, int>(source(t, seq![])),
        parse_tokens(source(t, seq![])) == Parsed::Ok((t, seq![])),
{
    let s = source_text(t, seq![]);
    assert(s.subrange(0, s.len() as int) =~= s);
    lemma_lex_source(s, 0, t, seq![]);
    assert(source(t, seq![]) + seq![] =~= source(t, seq![]));
    lemma_round_trip(t);
}

/// What `tokenize` returns on the source text of such a term is a list of
/// tokens that `parse` reads back as the term, with no free variable.
pub proof fn lemma_tokenize_parse_round_trip(t: TermV, r: Result<Vec<Token>, LexError>)
    requires
        well_scoped(t, 0, 0),
        faithful(t, seq![]),
        named_by_identifiers(t),
        lexed(source_text(t, seq![]), r),
    ensures
        r matches Ok(ts) && parse_tokens(tokens_view(ts@)) == Parsed::Ok((t, seq![])),
{
    lemma_text_round_trip(t);
}

} // verus!
