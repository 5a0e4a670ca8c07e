use vstd::prelude::*;

verus! {

/// The four binary arithmetic operators.
#[derive(Clone, Copy, Debug, PartialEq, Eq, Structural)]
pub enum BinOp {
    Add,
    Sub,
    Mul,
    Div,
}

/// The syntax tree of a program.
///
/// `Let` and `Fn` nodes chain declarations in front of the program's final
/// expression: each one is in effect over its `then` subtree only.
#[derive(Debug)]
pub enum Expr {
    /// A numeric literal, kept as its decimal digits.
    Num(String),
    Var(String),
    Neg(Box<Expr>),
    Binary(BinOp, Box<Expr>, Box<Expr>),
    Call(String, Vec<Expr>),
    Let { name: String, rhs: Box<Expr>, then: Box<Expr> },
    Fn { name: String, params: Vec<String>, body: Box<Expr>, then: Box<Expr> },
}

/// The mathematical model of [`Expr`]: names and literals as character
/// sequences, children as sequences of models.
pub enum SExpr {
    Num(Seq<char>),
    Var(Seq<char>),
    Neg(Box<SExpr>),
    Binary(BinOp, Box<SExpr>, Box<SExpr>),
    Call(Seq<char>, Seq<SExpr>),
    Let { name: Seq<char>, rhs: Box<SExpr>, then: Box<SExpr> },
    Fn { name: Seq<char>, params: Seq<Seq<char>>, body: Box<SExpr>, then: Box<SExpr> },
}

/// The models of a sequence of trees, element by element.
pub open spec fn view_all(es: Seq<Expr>) -> Seq<SExpr>
    decreases es,
{
    if es.len() == 0 {
        Seq::empty()
    } else {
        view_all(es.subrange(0, es.len() - 1)).push(es[es.len() - 1].view())
    }
}

impl Expr {
    pub open spec fn view(&self) -> SExpr
        decreases self,
    {
        match self {
            Expr::Num(d) => SExpr::Num(d@),
            Expr::Var(n) => SExpr::Var(n@),
            Expr::Neg(a) => SExpr::Neg(Box::new(a.view())),
            Expr::Binary(op, a, b) => SExpr::Binary(*op, Box::new(a.view()), Box::new(b.view())),
            Expr::Call(n, args) => SExpr::Call(n@, view_all(args@)),
            Expr::Let { name, rhs, then } => SExpr::Let {
                name: name@,
                rhs: Box::new(rhs.view()),
                then: Box::new(then.view()),
            },
            Expr::Fn { name, params, body, then } => SExpr::Fn {
                name: name@,
                params: params.deep_view(),
                body: Box::new(body.view()),
                then: Box::new(then.view()),
            },
        }
    }
}

pub proof fn lemma_view_all_len(es: Seq<Expr>)
    ensures
        view_all(es).len() == es.len(),
        forall|i: int| 0 <= i < es.len() ==> #[trigger] view_all(es)[i] == es[i].view(),
    decreases es.len(),
{
    if es.len() > 0 {
        lemma_view_all_len(es.subrange(0, es.len() - 1));
    }
}

} // verus!
