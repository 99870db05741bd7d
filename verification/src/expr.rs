use vstd::prelude::*;

verus! {

/// An expression of the plain-text math syntax, as the parser produces it.
#[derive(Debug)]
pub enum Expr {
    VarNum(String),
    Add(Box<Expr>, Box<Expr>),
    Sub(Box<Expr>, Box<Expr>),
    Mul(Box<Expr>, Box<Expr>),
    Eq(Box<Expr>, Box<Expr>),
    Fraction(Box<Expr>, Box<Expr>),
    Power(Box<Expr>, Box<Expr>),
    Parens(Box<Expr>),
    Braces(Box<Expr>),
    Brackets(Box<Expr>),
    Fn { name: String, power: Option<Box<Expr>>, derivatives: usize, args: Box<Expr> },
}

/// The mathematical model of an [`Expr`]: the same tree, with strings taken as
/// sequences of characters.
pub enum Term {
    VarNum(Seq<char>),
    Add(Box<Term>, Box<Term>),
    Sub(Box<Term>, Box<Term>),
    Mul(Box<Term>, Box<Term>),
    Eq(Box<Term>, Box<Term>),
    Fraction(Box<Term>, Box<Term>),
    Power(Box<Term>, Box<Term>),
    Parens(Box<Term>),
    Braces(Box<Term>),
    Brackets(Box<Term>),
    Fn { name: Seq<char>, power: Option<Box<Term>>, derivatives: nat, args: Box<Term> },
}

impl Expr {
    pub open spec fn model(&self) -> Term
        decreases self,
    {
        match self {
            Expr::VarNum(s) => Term::VarNum(s@),
            Expr::Add(l, r) => Term::Add(Box::new(l.model()), Box::new(r.model())),
            Expr::Sub(l, r) => Term::Sub(Box::new(l.model()), Box::new(r.model())),
            Expr::Mul(l, r) => Term::Mul(Box::new(l.model()), Box::new(r.model())),
            Expr::Eq(l, r) => Term::Eq(Box::new(l.model()), Box::new(r.model())),
            Expr::Fraction(l, r) => Term::Fraction(Box::new(l.model()), Box::new(r.model())),
            Expr::Power(l, r) => Term::Power(Box::new(l.model()), Box::new(r.model())),
            Expr::Parens(e) => Term::Parens(Box::new(e.model())),
            Expr::Braces(e) => Term::Braces(Box::new(e.model())),
            Expr::Brackets(e) => Term::Brackets(Box::new(e.model())),
            Expr::Fn { name, power, derivatives, args } => Term::Fn {
                name: name@,
                power: match power {
                    Some(p) => Some(Box::new(p.model())),
                    None => None,
                },
                derivatives: *derivatives as nat,
                args: Box::new(args.model()),
            },
        }
    }
}

impl View for Expr {
    type V = Term;

    open spec fn view(&self) -> Term {
        self.model()
    }
}

} // verus!
