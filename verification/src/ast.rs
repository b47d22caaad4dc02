//! The typed abstract syntax tree produced by the parser, and the error
//! taxonomy of the whole crate.

use vstd::prelude::*;

verus! {

/// One modifier attached to a dice roll or to a variable reference.
///
/// Modifiers are purely syntactic here: operands are accepted as written
/// (a threshold of 0 parses fine); semantic legality belongs to an
/// evaluator.
#[derive(Clone, Copy, Debug, PartialEq, Eq, Structural)]
pub enum DiceModifier {
    Explode,
    ExplodeAlias,
    ExplodeKeepHigh(i32),
    Reroll(i32),
    RerollOnce(i32),
    RerollUntil(i32),
    RerollAndAdd(i32),
    KeepAlias(i32),
    KeepHigh(i32),
    KeepLow(i32),
    DropHigh(i32),
    DropLow(i32),
    Unique,
    Sort,
    Count(i32),
    Merge,
    Group { threshold: i32, show_structure: bool },
}

/// A dice-roll specification: `count` dice with `sides` sides, and an
/// ordered modifier chain. Both numbers are syntactically signed; range
/// checks beyond fitting in `i32` are deferred to the evaluator.
#[derive(Clone, Debug, PartialEq)]
pub struct DiceRoll {
    pub count: i32,
    pub sides: i32,
    pub modifiers: Vec<DiceModifier>,
}

/// The expression tree. Binary arithmetic nodes are built by left-to-right
/// folding, so `1+2-3` becomes `Subtract(Add(1,2),3)`. `Paren` is kept as
/// a distinct node so grouping intent survives. `Sequence` only ever holds
/// two or more instructions; a single instruction is returned bare.
#[derive(Debug, PartialEq)]
pub enum Expression {
    Number(i32),
    DiceRoll(DiceRoll),
    Add(Box<Expression>, Box<Expression>),
    Subtract(Box<Expression>, Box<Expression>),
    Multiply(Box<Expression>, Box<Expression>),
    Divide(Box<Expression>, Box<Expression>),
    Power(Box<Expression>, Box<Expression>),
    Paren(Box<Expression>),
    WithComment(Box<Expression>, Option<String>),
    VariableRefWithModifiers(usize, Vec<DiceModifier>),
    Sequence(Vec<Expression>),
}

/// Names the integer field whose text failed to parse, so that every
/// invalid-integer error is field-specific.
#[derive(Clone, Copy, Debug, PartialEq, Eq, Structural)]
pub enum IntField {
    DiceCount,
    DiceSides,
    VariableIndex,
    NumberLiteral,
    ExplodeKeepHigh,
    Reroll,
    RerollOnce,
    RerollUntil,
    RerollAndAdd,
    KeepAlias,
    KeepHigh,
    KeepLow,
    DropHigh,
    DropLow,
    Count,
    GroupThreshold,
}

/// The single error type of the parser. Every failure is terminal: the
/// first error aborts the parse and no partial tree is returned.
#[derive(Clone, Debug, PartialEq)]
pub enum DiceError {
    /// The recognizer could not match the grammar; carries its diagnostic.
    Syntax(String),
    /// An integer field held non-numeric text or overflowed `i32`.
    InvalidInteger(IntField),
    /// A variable reference `$n` with `n <= 0`.
    NonPositiveVariableRef,
    /// An operator node whose text is none of `+ - * / ^`; carries the text.
    UnknownOperator(String),
    /// A modifier node with an unrecognized child tag.
    UnknownModifier,
    /// A dice-term node with an unrecognized child tag.
    InvalidDiceTerm,
    /// Structural fallback: a node whose tag no assembly step expects.
    UnexpectedNode,
}

/// Deep (mathematical) view of `DiceRoll`.
pub ghost struct DiceRollV {
    pub count: i32,
    pub sides: i32,
    pub modifiers: Seq<DiceModifier>,
}

/// Deep (mathematical) view of `Expression`.
pub ghost enum ExprV {
    Number(i32),
    DiceRoll(DiceRollV),
    Add(Box<ExprV>, Box<ExprV>),
    Subtract(Box<ExprV>, Box<ExprV>),
    Multiply(Box<ExprV>, Box<ExprV>),
    Divide(Box<ExprV>, Box<ExprV>),
    Power(Box<ExprV>, Box<ExprV>),
    Paren(Box<ExprV>),
    WithComment(Box<ExprV>, Option<Seq<char>>),
    VariableRefWithModifiers(usize, Seq<DiceModifier>),
    Sequence(Seq<ExprV>),
}

/// Deep (mathematical) view of `DiceError`.
pub ghost enum ErrorV {
    Syntax(Seq<char>),
    InvalidInteger(IntField),
    NonPositiveVariableRef,
    UnknownOperator(Seq<char>),
    UnknownModifier,
    InvalidDiceTerm,
    UnexpectedNode,
}

impl View for DiceRoll {
    type V = DiceRollV;

    open spec fn view(&self) -> DiceRollV {
        DiceRollV { count: self.count, sides: self.sides, modifiers: self.modifiers@ }
    }
}

/// Deep view of an `Expression`, recursing through boxes and vectors.
pub open spec fn expr_view(e: Expression) -> ExprV
    decreases e,
{
    match e {
        Expression::Number(n) => ExprV::Number(n),
        Expression::DiceRoll(d) => ExprV::DiceRoll(d@),
        Expression::Add(a, b) => ExprV::Add(Box::new(expr_view(*a)), Box::new(expr_view(*b))),
        Expression::Subtract(a, b) => ExprV::Subtract(
            Box::new(expr_view(*a)),
            Box::new(expr_view(*b)),
        ),
        Expression::Multiply(a, b) => ExprV::Multiply(
            Box::new(expr_view(*a)),
            Box::new(expr_view(*b)),
        ),
        Expression::Divide(a, b) => ExprV::Divide(
            Box::new(expr_view(*a)),
            Box::new(expr_view(*b)),
        ),
        Expression::Power(a, b) => ExprV::Power(Box::new(expr_view(*a)), Box::new(expr_view(*b))),
        Expression::Paren(a) => ExprV::Paren(Box::new(expr_view(*a))),
        Expression::WithComment(a, c) => ExprV::WithComment(
            Box::new(expr_view(*a)),
            match c {
                Some(s) => Some(s@),
                None => None,
            },
        ),
        Expression::VariableRefWithModifiers(n, ms) => ExprV::VariableRefWithModifiers(n, ms@),
        Expression::Sequence(es) => ExprV::Sequence(exprs_view(es@)),
    }
}

/// Deep view of a sequence of expressions, element by element.
pub open spec fn exprs_view(es: Seq<Expression>) -> Seq<ExprV>
    decreases es,
{
    if es.len() == 0 {
        Seq::empty()
    } else {
        seq![expr_view(es[0])] + exprs_view(es.drop_first())
    }
}

impl View for Expression {
    type V = ExprV;

    open spec fn view(&self) -> ExprV {
        expr_view(*self)
    }
}

/// `exprs_view` maps the sequence pointwise.
pub proof fn lemma_exprs_view(es: Seq<Expression>)
    ensures
        exprs_view(es).len() == es.len(),
        forall|i: int| 0 <= i < es.len() ==> exprs_view(es)[i] == expr_view(#[trigger] es[i]),
    decreases es,
{
    if es.len() > 0 {
        lemma_exprs_view(es.drop_first());
        assert forall|i: int| 0 <= i < es.len() implies exprs_view(es)[i] == expr_view(
            #[trigger] es[i],
        ) by {
            if i > 0 {
                assert(es.drop_first()[i - 1] == es[i]);
                assert(exprs_view(es)[i] == exprs_view(es.drop_first())[i - 1]);
            }
        }
    }
}

impl View for DiceError {
    type V = ErrorV;

    open spec fn view(&self) -> ErrorV {
        match self {
            DiceError::Syntax(s) => ErrorV::Syntax(s@),
            DiceError::InvalidInteger(f) => ErrorV::InvalidInteger(*f),
            DiceError::NonPositiveVariableRef => ErrorV::NonPositiveVariableRef,
            DiceError::UnknownOperator(s) => ErrorV::UnknownOperator(s@),
            DiceError::UnknownModifier => ErrorV::UnknownModifier,
            DiceError::InvalidDiceTerm => ErrorV::InvalidDiceTerm,
            DiceError::UnexpectedNode => ErrorV::UnexpectedNode,
        }
    }
}

} // verus!
