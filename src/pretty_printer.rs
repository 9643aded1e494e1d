//! Renders a resolved term as text, with the names that its binders carry.
use vstd::prelude::*;
use vstd::string::*;
use crate::parser::{Term, TermV, names, well_scoped};

verus! {

/// The width above which a lambda body or the function side of an
/// application is put in parentheses, unless it already is.
pub const DEFAULT_THRESHOLD: usize = 10;

/// The text starts with `(` and ends with `)`.
pub open spec fn parenthesized(s: Seq<char>) -> bool {
    s.len() > 0 && s[0] == '(' && s[s.len() - 1] == ')'
}

/// `s` in parentheses.
pub open spec fn wrap(s: Seq<char>) -> Seq<char> {
    seq!['('] + s + seq![')']
}

/// `s`, put in parentheses when it is longer than `threshold` and not already
/// parenthesized.
pub open spec fn group(s: Seq<char>, threshold: nat) -> Seq<char> {
    if s.len() > threshold && !parenthesized(s) {
        wrap(s)
    } else {
        s
    }
}

/// The argument of an application as it is shown: bare when it is a variable
/// or already parenthesized, else in parentheses.
pub open spec fn argument(a: TermV, s: Seq<char>) -> Seq<char> {
    if a is Variable || parenthesized(s) {
        s
    } else {
        wrap(s)
    }
}

/// The text of `t` under the binder names `env` (innermost last) and the
/// free-variable table `fv`. A bound variable shows its binder's name, a free
/// one its name after `?`; a lambda shows as `λx. body`, an application as
/// the function followed by the argument.
pub open spec fn show(
    t: TermV,
    env: Seq<Seq<char>>,
    fv: Seq<Seq<char>>,
    threshold: nat,
) -> Seq<char>
    decreases t,
{
    match t {
        TermV::Variable(k) => if k > 0 {
            env[env.len() - k]
        } else {
            seq!['?'] + fv[-k - 1]
        },
        TermV::Lambda(p, b) => seq!['λ'] + p + seq!['.', ' '] + group(
            show(*b, env.push(p), fv, threshold),
            threshold,
        ),
        TermV::Application(f, a) => group(show(*f, env, fv, threshold), threshold) + argument(
            *a,
            show(*a, env, fv, threshold),
        ),
    }
}

/// The number of nodes of `t`.
pub open spec fn size(t: &Term) -> nat
    decreases t,
{
    match t {
        Term::Variable(_) => 1,
        Term::Lambda(_, b) => 1 + size(b),
        Term::Application(f, a) => 1 + size(f) + size(a),
    }
}

fn is_parenthesized(s: &str) -> (r: bool)
    ensures
        r == parenthesized(s@),
{
    let n = s.unicode_len();
    n > 0 && s.get_char(0) == '(' && s.get_char(n - 1) == ')'
}

fn parens(s: &str) -> (r: String)
    ensures
        r@ == wrap(s@),
{
    let mut r = String::from_str("(");
    r.append(s);
    r.append(")");
    proof {
        reveal_strlit("(");
        reveal_strlit(")");
    }
    r
}

/// A printer that rebuilds the names of the binders as it descends a term.
pub struct PrettyPrinter {
    env: Vec<String>,
    threshold: usize,
}

impl PrettyPrinter {
    /// The width above which a lambda body or a function is parenthesized.
    pub closed spec fn threshold(&self) -> nat {
        self.threshold as nat
    }

    /// A printer with the default threshold.
    pub fn new() -> (r: PrettyPrinter)
        ensures
            r.threshold() == DEFAULT_THRESHOLD,
    {
        PrettyPrinter { env: Vec::new(), threshold: DEFAULT_THRESHOLD }
    }

    /// A printer with the given threshold.
    pub fn with_threshold(threshold: usize) -> (r: PrettyPrinter)
        ensures
            r.threshold() == threshold,
    {
        PrettyPrinter { env: Vec::new(), threshold }
    }

    /// The text of `term`, whose free variables are named by `free_vars`.
    pub fn format(&mut self, term: &Term, free_vars: &[String]) -> (r: String)
        requires
            well_scoped(term@, 0, free_vars@.len() as int),
        ensures
            final(self).threshold() == old(self).threshold(),
            r@ == show(term@, seq![], names(free_vars@), old(self).threshold()),
    {
        self.env.clear();
        assert(names(self.env@) =~= Seq::<Seq<char>>::empty());
        self.print_term(term, free_vars)
    }

    fn group(&self, s: String) -> (r: String)
        ensures
            r@ == group(s@, self.threshold as nat),
    {
        if s.as_str().unicode_len() > self.threshold && !is_parenthesized(s.as_str()) {
            parens(s.as_str())
        } else {
            s
        }
    }

    fn print_term(&mut self, term: &Term, fv: &[String]) -> (r: String)
        requires
            well_scoped(term@, old(self).env@.len() as int, fv@.len() as int),
        ensures
            final(self).env@ == old(self).env@,
            final(self).threshold == old(self).threshold,
            r@ == show(term@, names(old(self).env@), names(fv@), old(self).threshold as nat),
        decreases size(term), 2int,
    {
        match term {
            Term::Variable(index) => self.print_var(*index, fv),
            Term::Lambda(param, body) => self.print_lambda(param, body, fv),
            Term::Application(lhs, rhs) => self.print_application(lhs, rhs, fv),
        }
    }

    fn print_var(&self, index: i32, fv: &[String]) -> (r: String)
        requires
            well_scoped(TermV::Variable(index as int), self.env@.len() as int, fv@.len() as int),
        ensures
            r@ == show(TermV::Variable(index as int), names(self.env@), names(fv@), self.threshold as nat),
    {
        if index > 0 {
            self.env[self.env.len() - index as usize].clone()
        } else {
            let mut r = String::from_str("?");
            r.append(fv[(-(index + 1)) as usize].as_str());
            proof {
                reveal_strlit("?");
            }
            r
        }
    }

    fn print_lambda(&mut self, param: &String, body: &Term, fv: &[String]) -> (r: String)
        requires
            well_scoped(body@, old(self).env@.len() + 1int, fv@.len() as int),
        ensures
            final(self).env@ == old(self).env@,
            final(self).threshold == old(self).threshold,
            r@ == show(
                TermV::Lambda(param@, Box::new(body@)),
                names(old(self).env@),
                names(fv@),
                old(self).threshold as nat,
            ),
        decreases size(body) + 1, 1int,
    {
        self.env.push(param.clone());
        assert(names(self.env@) =~= names(old(self).env@).push(param@));
        let body_str = self.print_term(body, fv);
        let _ = self.env.pop();
        assert(self.env@ =~= old(self).env@);
        let mut r = String::from_str("λ");
        r.append(param.as_str());
        r.append(". ");
        let grouped = self.group(body_str);
        r.append(grouped.as_str());
        proof {
            reveal_strlit("λ");
            reveal_strlit(". ");
        }
        r
    }

    fn print_application(&mut self, lhs: &Term, rhs: &Term, fv: &[String]) -> (r: String)
        requires
            well_scoped(lhs@, old(self).env@.len() as int, fv@.len() as int),
            well_scoped(rhs@, old(self).env@.len() as int, fv@.len() as int),
        ensures
            final(self).env@ == old(self).env@,
            final(self).threshold == old(self).threshold,
            r@ == show(
                TermV::Application(Box::new(lhs@), Box::new(rhs@)),
                names(old(self).env@),
                names(fv@),
                old(self).threshold as nat,
            ),
        decreases size(lhs) + size(rhs) + 1, 1int,
    {
        let lhs_str = self.print_term(lhs, fv);
        let rhs_str = self.print_term(rhs, fv);
        let mut r = self.group(lhs_str);
        let bare = match rhs {
            Term::Variable(_) => true,
            _ => is_parenthesized(rhs_str.as_str()),
        };
        if bare {
            r.append(rhs_str.as_str());
        } else {
            let wrapped = parens(rhs_str.as_str());
            r.append(wrapped.as_str());
        }
        r
    }
}

/// The text of `term` with the default threshold.
pub fn pretty_print(term: &Term, free_vars: &[String]) -> (r: String)
    requires
        well_scoped(term@, 0, free_vars@.len() as int),
    ensures
        r@ == show(term@, seq![], names(free_vars@), DEFAULT_THRESHOLD as nat),
{
    let mut printer = PrettyPrinter::new();
    printer.format(term, free_vars)
}

} // verus!
