use vstd::prelude::*;

verus! {

/// The five binary operators.
#[derive(Clone, Copy, Debug, PartialEq, Eq, Structural)]
pub enum Op {
    Add,
    Sub,
    Mul,
    Div,
    Pow,
}

/// Binding strength of an operator: additive 1, multiplicative 2, power 3.
pub open spec fn prec(op: Op) -> nat {
    match op {
        Op::Add | Op::Sub => 1,
        Op::Mul | Op::Div => 2,
        Op::Pow => 3,
    }
}

/// Returns the binding strength of `op`.
pub fn precedence(op: &Op) -> (r: u8)
    ensures
        r as nat == prec(*op),
{
    match op {
        Op::Add | Op::Sub => 1,
        Op::Mul | Op::Div => 2,
        Op::Pow => 3,
    }
}

/// A token of an expression. `N` is what a number literal carries: its text
/// straight out of the tokenizer, a number once the host has read it.
#[derive(Clone, Debug, PartialEq)]
pub enum Token<N> {
    Value(N),
    Variable(String),
    Operator(Op),
    OpenParen,
    CloseParen,
}

/// What can go wrong while tokenizing or evaluating.
#[derive(Clone, Debug, PartialEq)]
pub enum Error {
    /// A literal that is neither a number nor a name, or a token that a
    /// postfix stream may not hold when it is evaluated.
    InvalidToken(String),
    /// An operator met fewer than two operands.
    StackUnderflow,
    /// Evaluation ended with other than exactly one value.
    MalformedExpression,
}

/// The mathematical content of an `Error`.
pub enum ErrorView {
    InvalidToken(Seq<char>),
    StackUnderflow,
    MalformedExpression,
}

impl View for Error {
    type V = ErrorView;

    open spec fn view(&self) -> ErrorView {
        match self {
            Error::InvalidToken(s) => ErrorView::InvalidToken(s@),
            Error::StackUnderflow => ErrorView::StackUnderflow,
            Error::MalformedExpression => ErrorView::MalformedExpression,
        }
    }
}

} // verus!
