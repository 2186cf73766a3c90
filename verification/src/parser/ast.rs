//! The abstract syntax tree of an algorithmic program.
use vstd::prelude::*;

verus! {

/// Primitive type of a variable.
///
/// Only scalar types are supported for now: arrays (`tableau_de`) and
/// constants (`constante`) are still to come.
#[derive(Debug, Clone, Copy, PartialEq, Eq, Structural)]
pub enum Type {
    Entier,
    EntierNaturel,
    Reel,
    Booleen,
    Caractere,
    Chaine,
}

/// Expression: literal, variable or unary negation.
///
/// A real literal keeps the text it was written with.
#[derive(Debug, PartialEq)]
pub enum Expr {
    Entier(i64),
    Reel(String),
    Chaine(String),
    Caractere(char),
    Booleen(bool),
    Ident(String),
    Neg(Box<Expr>),
}

/// The mathematical content of an [`Expr`].
pub enum ExprV {
    Entier(i64),
    Reel(Seq<char>),
    Chaine(Seq<char>),
    Caractere(char),
    Booleen(bool),
    Ident(Seq<char>),
    Neg(Box<ExprV>),
}

/// The view of an expression.
pub open spec fn expr_view(e: Expr) -> ExprV
    decreases e,
{
    match e {
        Expr::Entier(n) => ExprV::Entier(n),
        Expr::Reel(t) => ExprV::Reel(t@),
        Expr::Chaine(s) => ExprV::Chaine(s@),
        Expr::Caractere(c) => ExprV::Caractere(c),
        Expr::Booleen(b) => ExprV::Booleen(b),
        Expr::Ident(n) => ExprV::Ident(n@),
        Expr::Neg(inner) => ExprV::Neg(Box::new(expr_view(*inner))),
    }
}

impl View for Expr {
    type V = ExprV;

    open spec fn view(&self) -> ExprV {
        expr_view(*self)
    }
}

impl Expr {
    /// A copy of the expression.
    fn duplicate(&self) -> (r: Expr)
        ensures
            r@ == self@,
        decreases self,
    {
        match self {
            Expr::Entier(n) => Expr::Entier(*n),
            Expr::Reel(t) => Expr::Reel(t.clone()),
            Expr::Chaine(s) => Expr::Chaine(s.clone()),
            Expr::Caractere(c) => Expr::Caractere(*c),
            Expr::Booleen(b) => Expr::Booleen(*b),
            Expr::Ident(n) => Expr::Ident(n.clone()),
            Expr::Neg(inner) => Expr::Neg(Box::new(inner.duplicate())),
        }
    }
}

impl Clone for Expr {
    fn clone(&self) -> (r: Expr)
        ensures
            r@ == self@,
    {
        self.duplicate()
    }
}

/// Algorithmic statement.
#[derive(Debug, Clone, PartialEq)]
pub enum Statement {
    /// `afficher(expr);`
    Afficher(Expr),
    /// `declarer nom : type;`
    Declarer { name: String, ty: Type },
    /// `nom <- expr;`
    Affecter { name: String, value: Expr },
}

/// The mathematical content of a [`Statement`].
pub enum StatementV {
    Afficher(ExprV),
    Declarer { name: Seq<char>, ty: Type },
    Affecter { name: Seq<char>, value: ExprV },
}

impl View for Statement {
    type V = StatementV;

    open spec fn view(&self) -> StatementV {
        match self {
            Statement::Afficher(e) => StatementV::Afficher(e@),
            Statement::Declarer { name, ty } => StatementV::Declarer { name: name@, ty: *ty },
            Statement::Affecter { name, value } => StatementV::Affecter {
                name: name@,
                value: value@,
            },
        }
    }
}

/// A complete program: the list of its statements.
#[derive(Debug, Clone, PartialEq)]
pub struct Program {
    pub statements: Vec<Statement>,
}

/// The views of a sequence of statements.
pub open spec fn statement_views(ss: Seq<Statement>) -> Seq<StatementV> {
    ss.map_values(|s: Statement| s@)
}

impl View for Program {
    type V = Seq<StatementV>;

    open spec fn view(&self) -> Seq<StatementV> {
        statement_views(self.statements@)
    }
}

} // verus!
