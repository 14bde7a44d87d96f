use vstd::prelude::*;

verus! {

broadcast use {vstd::std_specs::vec::group_vec_axioms, vstd::seq::group_seq_axioms};

/// A literal value.
///
/// A floating-point literal is kept as the decimal text it was written with.
#[derive(Clone, Debug)]
pub enum JanetLiteral {
    String(String),
    Number(String),
    Integer(i64),
    Boolean(bool),
    Keyword(String),
}

/// An expression tree.
#[derive(Debug)]
pub enum JanetExpr {
    /// A literal value.
    Literal(JanetLiteral),
    /// A name, unresolved.
    Symbol(String),
    /// A form `(head arg ...)`.
    List(Vec<JanetExpr>),
    /// A vector literal `[elem ...]`.
    Array(Vec<JanetExpr>),
    /// A map literal `@{key value ...}`; keys may repeat.
    Table(Vec<(JanetExpr, JanetExpr)>),
}

/// The model of a literal.
pub enum LitV {
    String(Seq<char>),
    Number(Seq<char>),
    Integer(i64),
    Boolean(bool),
    Keyword(Seq<char>),
}

/// The model of an expression tree.
pub enum ExprV {
    Literal(LitV),
    Symbol(Seq<char>),
    List(Seq<ExprV>),
    Array(Seq<ExprV>),
    Table(Seq<(ExprV, ExprV)>),
}

impl View for JanetLiteral {
    type V = LitV;

    open spec fn view(&self) -> LitV {
        match self {
            JanetLiteral::String(s) => LitV::String(s@),
            JanetLiteral::Number(s) => LitV::Number(s@),
            JanetLiteral::Integer(i) => LitV::Integer(*i),
            JanetLiteral::Boolean(b) => LitV::Boolean(*b),
            JanetLiteral::Keyword(k) => LitV::Keyword(k@),
        }
    }
}

/// The models of a sequence of expressions.
pub open spec fn exprs_view(s: Seq<JanetExpr>) -> Seq<ExprV>
    decreases s,
{
    if s.len() == 0 {
        Seq::empty()
    } else {
        exprs_view(s.drop_last()).push(expr_view(s.last()))
    }
}

/// The models of a sequence of key/value pairs.
pub open spec fn pairs_view(s: Seq<(JanetExpr, JanetExpr)>) -> Seq<(ExprV, ExprV)>
    decreases s,
{
    if s.len() == 0 {
        Seq::empty()
    } else {
        pairs_view(s.drop_last()).push((expr_view(s.last().0), expr_view(s.last().1)))
    }
}

/// The model of an expression tree.
pub open spec fn expr_view(e: JanetExpr) -> ExprV
    decreases e,
{
    match e {
        JanetExpr::Literal(l) => ExprV::Literal(l@),
        JanetExpr::Symbol(s) => ExprV::Symbol(s@),
        JanetExpr::List(v) => ExprV::List(exprs_view(v@)),
        JanetExpr::Array(v) => ExprV::Array(exprs_view(v@)),
        JanetExpr::Table(v) => ExprV::Table(pairs_view(v@)),
    }
}

impl View for JanetExpr {
    type V = ExprV;

    open spec fn view(&self) -> ExprV {
        expr_view(*self)
    }
}

/// The model of a sequence of expressions is taken element by element.
pub proof fn lemma_exprs_view(s: Seq<JanetExpr>)
    ensures
        exprs_view(s).len() == s.len(),
        forall|i: int| 0 <= i < s.len() ==> #[trigger] exprs_view(s)[i] == s[i]@,
    decreases s.len(),
{
    if s.len() > 0 {
        lemma_exprs_view(s.drop_last());
    }
}

/// The model of a sequence of pairs is taken element by element.
pub proof fn lemma_pairs_view(s: Seq<(JanetExpr, JanetExpr)>)
    ensures
        pairs_view(s).len() == s.len(),
        forall|i: int|
            0 <= i < s.len() ==> #[trigger] pairs_view(s)[i] == (s[i].0@, s[i].1@),
    decreases s.len(),
{
    if s.len() > 0 {
        lemma_pairs_view(s.drop_last());
    }
}

} // verus!
