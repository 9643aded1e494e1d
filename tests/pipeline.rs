use lambda_debruijn::{
    parse, pretty_print, tokenize, Expected, LexError, ParseError, Parser, PrettyPrinter, Term,
    Token,
};

fn var(name: &str) -> Token {
    Token::Var(name.to_string())
}

fn lam(name: &str, body: Term) -> Term {
    Term::Lambda(name.to_string(), Box::new(body))
}

fn app(f: Term, a: Term) -> Term {
    Term::Application(Box::new(f), Box::new(a))
}

fn read(text: &str) -> (Term, Vec<String>) {
    let tokens = tokenize(text).expect("tokens");
    parse(&tokens).expect("term")
}

fn read_err(text: &str) -> ParseError {
    let tokens = tokenize(text).expect("tokens");
    parse(&tokens).expect_err("syntax error")
}

/// Spells a term in the source syntax, naming each bound variable after its binder.
fn spell(t: &Term, env: &mut Vec<String>, fv: &[String]) -> String {
    match t {
        Term::Variable(k) if *k > 0 => env[env.len() - *k as usize].clone(),
        Term::Variable(k) => fv[(-(k + 1)) as usize].clone(),
        Term::Lambda(p, b) => {
            env.push(p.clone());
            let body = spell(b, env, fv);
            env.pop();
            format!("\\{}.{{{}}}", p, body)
        }
        Term::Application(f, a) => {
            format!("<{}|{}>", spell(f, env, fv), spell(a, env, fv))
        }
    }
}

#[test]
fn tokenize_scenario() {
    let tokens = tokenize(r"\x.{\y.{<x|y>}}").unwrap();
    assert_eq!(
        tokens,
        vec![
            Token::Lambda,
            var("x"),
            Token::Dot,
            Token::LBrace,
            Token::Lambda,
            var("y"),
            Token::Dot,
            Token::LBrace,
            Token::Bra,
            var("x"),
            Token::Delim,
            var("y"),
            Token::Ket,
            Token::RBrace,
            Token::RBrace,
        ]
    );
}

#[test]
fn parse_scenario() {
    let (term, fv) = read(r"\x.{\y.{<x|y>}}");
    assert_eq!(term, lam("x", lam("y", app(Term::Variable(2), Term::Variable(1)))));
    assert!(fv.is_empty());
}

#[test]
fn print_scenario() {
    let (term, fv) = read(r"\x.{\y.{<x|y>}}");
    assert_eq!(pretty_print(&term, &fv), "λx. λy. xy");
}

#[test]
fn tokenize_is_deterministic() {
    let text = "\\f.{ <f | _a1> }\t\u{3000}<p|q>";
    assert_eq!(tokenize(text), tokenize(text));
    assert_eq!(tokenize("a @"), tokenize("a @"));
}

#[test]
fn closed_term_round_trips() {
    for text in [r"\x.{\y.{<x|y>}}", r"\x.{\y.{\z.{<<x|z>|<y|z>>}}}", r"<\a.{a}|\b.{\c.{b}}>"] {
        let (term, fv) = read(text);
        assert!(fv.is_empty());
        let again = spell(&term, &mut Vec::new(), &fv);
        let (term2, fv2) = read(&again);
        assert_eq!(term2, term);
        assert!(fv2.is_empty());
    }
}

#[test]
fn inner_binder_shadows_outer() {
    let (term, fv) = read(r"\x.{\x.{x}}");
    assert_eq!(term, lam("x", lam("x", Term::Variable(1))));
    assert!(fv.is_empty());
}

#[test]
fn free_variable_gets_one_slot() {
    let (term, fv) = read("<x|x>");
    assert_eq!(term, app(Term::Variable(-1), Term::Variable(-1)));
    assert_eq!(fv, vec!["x".to_string()]);
}

#[test]
fn free_variables_in_order_of_first_use() {
    let (term, fv) = read(r"<<b|\b.{<b|a>}>|a>");
    assert_eq!(
        term,
        app(app(Term::Variable(-1), lam("b", app(Term::Variable(1), Term::Variable(-2)))), Term::Variable(-2))
    );
    assert_eq!(fv, vec!["b".to_string(), "a".to_string()]);
}

#[test]
fn unknown_character_is_rejected() {
    assert_eq!(tokenize("@"), Err(LexError { ch: '@', pos: 0 }));
}

#[test]
fn error_position_counts_characters() {
    assert_eq!(tokenize("x λ"), Err(LexError { ch: 'λ', pos: 2 }));
    assert_eq!(tokenize("ab 9"), Err(LexError { ch: '9', pos: 3 }));
    assert_eq!(tokenize("ab@"), Err(LexError { ch: '@', pos: 2 }));
}

#[test]
fn missing_ket_is_rejected() {
    let e = read_err("<x|y");
    assert_eq!(e, ParseError { expected: Expected::Ket, pos: 4, found: None });
    assert_eq!(e.expected.message(), "expected '>' after application");
}

#[test]
fn each_expectation_has_a_message() {
    assert_eq!(Expected::Term.message(), "expected a term");
    assert_eq!(Expected::Identifier.message(), "expected an identifier after '\\'");
    assert_eq!(Expected::Dot.message(), "expected '.' after variable in lambda");
    assert_eq!(Expected::LBrace.message(), "expected '{' after '.' in lambda");
    assert_eq!(Expected::RBrace.message(), "expected '}' after lambda body");
    assert_eq!(Expected::Delim.message(), "expected delimiter '|' in application");
    assert_eq!(Expected::End.message(), "expected the end of the input");
}

#[test]
fn each_syntax_error() {
    assert_eq!(read_err("").expected, Expected::Term);
    assert_eq!(read_err("}"), ParseError { expected: Expected::Term, pos: 0, found: Some(Token::RBrace) });
    assert_eq!(read_err(r"\.{x}"), ParseError { expected: Expected::Identifier, pos: 1, found: Some(Token::Dot) });
    assert_eq!(read_err(r"\x{x}"), ParseError { expected: Expected::Dot, pos: 2, found: Some(Token::LBrace) });
    assert_eq!(read_err(r"\x.x}"), ParseError { expected: Expected::LBrace, pos: 3, found: Some(var("x")) });
    assert_eq!(read_err(r"\x.{x"), ParseError { expected: Expected::RBrace, pos: 5, found: None });
    assert_eq!(read_err("<x y>"), ParseError { expected: Expected::Delim, pos: 2, found: Some(var("y")) });
    assert_eq!(read_err("x y"), ParseError { expected: Expected::End, pos: 1, found: Some(var("y")) });
}

#[test]
fn whitespace_and_identifiers() {
    let tokens = tokenize(" _a1\n\u{a0}B_2\u{2003}").unwrap();
    assert_eq!(tokens, vec![var("_a1"), var("B_2")]);
    assert_eq!(tokenize("").unwrap(), vec![]);
}

#[test]
fn parser_reads_whole_stream() {
    let tokens = tokenize("<f|y>").unwrap();
    let mut p = Parser::new(&tokens);
    let (term, fv) = p.parse().unwrap();
    assert_eq!(term, app(Term::Variable(-1), Term::Variable(-2)));
    assert_eq!(fv, vec!["f".to_string(), "y".to_string()]);
}

#[test]
fn s_combinator_prints_with_grouping() {
    let (term, fv) = read(r"\x.{\y.{\z.{<<x|z>|<y|z>>}}}");
    assert_eq!(pretty_print(&term, &fv), "λx. (λy. λz. xz(yz))");
}

#[test]
fn free_variables_print_marked() {
    let (term, fv) = read(r"<f|\x.{x}>");
    assert_eq!(pretty_print(&term, &fv), "?f(λx. x)");
}

#[test]
fn threshold_is_configurable() {
    let (term, fv) = read(r"\x.{\y.{<x|y>}}");
    let mut printer = PrettyPrinter::with_threshold(2);
    assert_eq!(printer.format(&term, &fv), "λx. (λy. xy)");
    let mut printer = PrettyPrinter::new();
    assert_eq!(printer.format(&term, &fv), "λx. λy. xy");
    assert_eq!(printer.format(&lam("a", Term::Variable(1)), &[]), "λa. a");
}

#[test]
fn long_function_side_is_grouped() {
    let (term, fv) = read(r"<\long_name.{long_name}|z>");
    assert_eq!(pretty_print(&term, &fv), "(λlong_name. long_name)?z");
}

#[test]
fn built_term_reads_back_from_its_text() {
    let term = lam("a", app(lam("b", app(Term::Variable(2), Term::Variable(1))), Term::Variable(1)));
    let text = spell(&term, &mut Vec::new(), &[]);
    assert_eq!(text, r"\a.{<\b.{<a|b>}|a>}");
    let (again, fv) = read(&text);
    assert_eq!(again, term);
    assert!(fv.is_empty());
}
