use vstd::prelude::*;
use crate::token::{Op, Token, Error, ErrorView};

verus! {

/// An expression tree: what a postfix stream evaluates to before any
/// arithmetic is done. `Node(op, l, r)` stands for `l op r`.
#[derive(Debug, PartialEq)]
pub enum Expr<N> {
    Leaf(N),
    Node(Op, Box<Expr<N>>, Box<Expr<N>>),
}

/// The text that a token reports when it may not stand in a postfix stream.
pub open spec fn misplaced_text<N>(t: Token<N>) -> Seq<char> {
    match t {
        Token::Variable(name) => name@,
        Token::OpenParen => seq!['('],
        Token::CloseParen => seq![')'],
        _ => Seq::empty(),
    }
}

/// One token of postfix evaluation on the stack of subtrees `st`.
pub open spec fn reduce_step<N>(st: Seq<Expr<N>>, t: Token<N>) -> Result<Seq<Expr<N>>, ErrorView> {
    match t {
        Token::Value(x) => Ok(st.push(Expr::Leaf(x))),
        Token::Operator(op) => if st.len() < 2 {
            Err(ErrorView::StackUnderflow)
        } else {
            let l = st[st.len() - 2];
            let r = st[st.len() - 1];
            Ok(st.take(st.len() - 2).push(Expr::Node(op, Box::new(l), Box::new(r))))
        },
        _ => Err(ErrorView::InvalidToken(misplaced_text(t))),
    }
}

/// The stack of subtrees after reading the postfix stream `p`, or the first
/// error met.
pub open spec fn reduce<N>(p: Seq<Token<N>>) -> Result<Seq<Expr<N>>, ErrorView>
    decreases p.len(),
{
    if p.len() == 0 {
        Ok(Seq::empty())
    } else {
        match reduce(p.drop_last()) {
            Ok(st) => reduce_step(st, p.last()),
            Err(e) => Err(e),
        }
    }
}

/// What the postfix stream `p` evaluates to: the one tree left on the stack.
pub open spec fn eval_tree<N>(p: Seq<Token<N>>) -> Result<Expr<N>, ErrorView> {
    match reduce(p) {
        Ok(st) => if st.len() == 1 {
            Ok(st[0])
        } else {
            Err(ErrorView::MalformedExpression)
        },
        Err(e) => Err(e),
    }
}

proof fn lemma_reduce_error_persists<N>(p: Seq<Token<N>>, i: int)
    requires
        0 <= i <= p.len(),
        reduce(p.take(i)) is Err,
    ensures
        reduce(p) == reduce(p.take(i)),
    decreases p.len() - i,
{
    if i < p.len() {
        assert(p.take(i + 1).drop_last() =~= p.take(i));
        lemma_reduce_error_persists(p, i + 1);
    } else {
        assert(p.take(i) =~= p);
    }
}

fn misplaced<N>(t: Token<N>) -> (e: Error)
    ensures
        e@ == ErrorView::InvalidToken(misplaced_text(t)),
{
    broadcast use vstd::string::to_string_from_display_ensures_for_str;

    proof {
        reveal_strlit("(");
        reveal_strlit(")");
    }
    match t {
        Token::Variable(name) => Error::InvalidToken(name),
        Token::OpenParen => {
            let s = "(".to_string();
            assert(s@ =~= seq!['(']);
            Error::InvalidToken(s)
        },
        Token::CloseParen => {
            let s = ")".to_string();
            assert(s@ =~= seq![')']);
            Error::InvalidToken(s)
        },
        _ => Error::InvalidToken(String::new()),
    }
}

/// Evaluates a postfix stream to its expression tree.
///
/// A value pushes a leaf; an operator pops its right operand, then its left
/// one, and pushes the node that joins them, or fails with `StackUnderflow`
/// when fewer than two are there. A variable or a parenthesis fails with
/// `InvalidToken`. The stream must leave exactly one tree, else the result
/// is `MalformedExpression` (the empty stream among them).
pub fn evaluate<N>(postfix: Vec<Token<N>>) -> (r: Result<Expr<N>, Error>)
    ensures
        r matches Ok(e) ==> eval_tree(postfix@) == Ok::<Expr<N>, ErrorView>(e),
        r matches Err(e) ==> eval_tree(postfix@) == Err::<Expr<N>, ErrorView>(e@),
{
    let ghost all = postfix@;
    let mut stack: Vec<Expr<N>> = Vec::new();
    for t in it: postfix.into_iter()
        invariant
            it.seq() == all,
            reduce(all.take(it.index() as int)) == Ok::<Seq<Expr<N>>, ErrorView>(stack@),
    {
        let ghost k = it.index();
        proof {
            assert(all.take(k + 1).drop_last() =~= all.take(k as int));
        }
        match t {
            Token::Value(x) => stack.push(Expr::Leaf(x)),
            Token::Operator(op) => {
                if stack.len() < 2 {
                    proof {
                        lemma_reduce_error_persists(all, k + 1);
                    }
                    return Err(Error::StackUnderflow);
                }
                let r = stack.pop().unwrap();
                let l = stack.pop().unwrap();
                stack.push(Expr::Node(op, Box::new(l), Box::new(r)));
                proof {
                    let st = reduce(all.take(k as int))->Ok_0;
                    assert(stack@ =~= st.take(st.len() - 2).push(
                        Expr::Node(op, Box::new(st[st.len() - 2]), Box::new(st[st.len() - 1])),
                    ));
                }
            },
            _ => {
                let e = misplaced(t);
                proof {
                    lemma_reduce_error_persists(all, k + 1);
                }
                return Err(e);
            },
        }
    }
    assert(all.take(all.len() as int) =~= all);
    if stack.len() == 1 {
        Ok(stack.pop().unwrap())
    } else {
        Err(Error::MalformedExpression)
    }
}

/// `t` with a variable replaced by the value `v`.
pub open spec fn bound<N>(t: Token<N>, v: N) -> Token<N> {
    if t is Variable {
        Token::Value(v)
    } else {
        t
    }
}

/// Substitutes `value` for every variable of a postfix stream, whatever its
/// name, and passes every other token through.
pub fn bind<N: Copy>(postfix: Vec<Token<N>>, value: N) -> (r: Vec<Token<N>>)
    ensures
        r@.len() == postfix@.len(),
        forall|i: int| 0 <= i < r@.len() ==> #[trigger] r@[i] == bound(postfix@[i], value),
        forall|i: int| 0 <= i < r@.len() ==> !(#[trigger] r@[i] is Variable),
{
    let ghost all = postfix@;
    let mut out: Vec<Token<N>> = Vec::new();
    for t in it: postfix.into_iter()
        invariant
            it.seq() == all,
            out@.len() == it.index(),
            forall|i: int| 0 <= i < out@.len() ==> #[trigger] out@[i] == bound(all[i], value),
    {
        match t {
            Token::Variable(_) => out.push(Token::Value(value)),
            _ => out.push(t),
        }
    }
    out
}

} // verus!
