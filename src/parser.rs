use vstd::prelude::*;
use crate::token::{Op, Token, prec, precedence};

verus! {

/// Moves operators that bind at least as tightly as `p` from the top of
/// `stack` to `out`, stopping at anything else.
pub open spec fn pop_binding<N>(out: Seq<Token<N>>, stack: Seq<Token<N>>, p: nat) -> (Seq<
    Token<N>,
>, Seq<Token<N>>)
    decreases stack.len(),
{
    if stack.len() > 0 && stack.last() is Operator && prec(stack.last()->Operator_0) >= p {
        pop_binding(out.push(stack.last()), stack.drop_last(), p)
    } else {
        (out, stack)
    }
}

/// Moves entries from the top of `stack` to `out` until an open parenthesis,
/// which is dropped, or until the stack is empty.
pub open spec fn pop_to_open<N>(out: Seq<Token<N>>, stack: Seq<Token<N>>) -> (Seq<Token<N>>, Seq<
    Token<N>,
>)
    decreases stack.len(),
{
    if stack.len() == 0 {
        (out, stack)
    } else if stack.last() is OpenParen {
        (out, stack.drop_last())
    } else {
        pop_to_open(out.push(stack.last()), stack.drop_last())
    }
}

/// One token of the reducer: `st` is the pair (output, operator stack).
pub open spec fn shunt_step<N>(st: (Seq<Token<N>>, Seq<Token<N>>), t: Token<N>) -> (Seq<
    Token<N>,
>, Seq<Token<N>>) {
    match t {
        Token::Value(_) | Token::Variable(_) => (st.0.push(t), st.1),
        Token::Operator(op) => {
            let r = pop_binding(st.0, st.1, prec(op));
            (r.0, r.1.push(t))
        },
        Token::OpenParen => (st.0, st.1.push(t)),
        Token::CloseParen => pop_to_open(st.0, st.1),
    }
}

/// The (output, operator stack) pair after the reducer has read `ts`.
pub open spec fn shunt<N>(ts: Seq<Token<N>>) -> (Seq<Token<N>>, Seq<Token<N>>)
    decreases ts.len(),
{
    if ts.len() == 0 {
        (Seq::empty(), Seq::empty())
    } else {
        shunt_step(shunt(ts.drop_last()), ts.last())
    }
}

/// The postfix form of `ts`: the output, then what is left on the operator
/// stack, top first.
pub open spec fn postfix<N>(ts: Seq<Token<N>>) -> Seq<Token<N>> {
    shunt(ts).0 + shunt(ts).1.reverse()
}

fn pop_while_binding<N>(out: &mut Vec<Token<N>>, stack: &mut Vec<Token<N>>, op: &Op)
    ensures
        (final(out)@, final(stack)@) == pop_binding(old(out)@, old(stack)@, prec(*op)),
{
    let p = precedence(op);
    loop
        invariant
            pop_binding(out@, stack@, prec(*op)) == pop_binding(
                old(out)@,
                old(stack)@,
                prec(*op),
            ),
            p as nat == prec(*op),
        ensures
            (out@, stack@) == pop_binding(old(out)@, old(stack)@, prec(*op)),
        decreases stack.len(),
    {
        let n = stack.len();
        if n == 0 {
            break;
        }
        let binds = match &stack[n - 1] {
            Token::Operator(top) => precedence(top) >= p,
            _ => false,
        };
        if !binds {
            break;
        }
        let t = stack.pop().unwrap();
        out.push(t);
    }
}

fn pop_until_open<N>(out: &mut Vec<Token<N>>, stack: &mut Vec<Token<N>>)
    ensures
        (final(out)@, final(stack)@) == pop_to_open(old(out)@, old(stack)@),
{
    loop
        invariant_except_break
            pop_to_open(out@, stack@) == pop_to_open(old(out)@, old(stack)@),
        ensures
            (out@, stack@) == pop_to_open(old(out)@, old(stack)@),
        decreases stack.len(),
    {
        match stack.pop() {
            None => break,
            Some(Token::OpenParen) => break,
            Some(t) => out.push(t),
        }
    }
}

/// Reorders an infix token stream into postfix order (shunting-yard).
///
/// An operator first moves to the output every operator on top of the stack
/// whose precedence is at least its own, so all operators group to the left,
/// power included: `2^2^3` is `(2^2)^3`. A close parenthesis with no open one
/// below it moves the whole stack out and is otherwise ignored; an open
/// parenthesis that is never closed ends up in the output.
pub fn to_postfix<N>(tokens: Vec<Token<N>>) -> (r: Vec<Token<N>>)
    ensures
        r@ == postfix(tokens@),
{
    let mut out: Vec<Token<N>> = Vec::new();
    let mut stack: Vec<Token<N>> = Vec::new();
    let ghost all = tokens@;
    for t in it: tokens.into_iter()
        invariant
            it.seq() == all,
            (out@, stack@) == shunt(all.take(it.index() as int)),
    {
        proof {
            assert(all.take(it.index() + 1).drop_last() =~= all.take(it.index() as int));
        }
        match t {
            Token::Value(_) | Token::Variable(_) => out.push(t),
            Token::Operator(op) => {
                pop_while_binding(&mut out, &mut stack, &op);
                stack.push(Token::Operator(op));
            },
            Token::OpenParen => stack.push(t),
            Token::CloseParen => pop_until_open(&mut out, &mut stack),
        }
    }
    assert(all.take(all.len() as int) =~= all);
    let ghost out0 = out@;
    let ghost stack0 = stack@;
    while stack.len() > 0
        invariant
            out@ + stack@.reverse() == out0 + stack0.reverse(),
        decreases stack.len(),
    {
        let t = stack.pop().unwrap();
        out.push(t);
    }
    out
}

/// Reducing a single-token stream again changes nothing; and a single
/// token other than a close parenthesis is already its own postfix form.
pub proof fn lemma_single_token_postfix<N>(t: Token<N>)
    ensures
        postfix(postfix(seq![t])) == postfix(seq![t]),
        !(t is CloseParen) ==> postfix(seq![t]) == seq![t],
{
    let s = seq![t];
    assert(s.drop_last() =~= Seq::<Token<N>>::empty());
    reveal_with_fuel(pop_binding, 2);
    reveal_with_fuel(pop_to_open, 2);
    reveal_with_fuel(shunt, 2);
    if t is CloseParen {
        assert(postfix(s) =~= Seq::<Token<N>>::empty());
        assert(postfix(postfix(s)) =~= Seq::<Token<N>>::empty());
    } else {
        assert(shunt(s).1.reverse() =~= shunt(s).1);
        assert(postfix(s) =~= s);
    }
}

/// Every token of `ts` is a value, a variable or an operator.
pub open spec fn no_parens<N>(ts: Seq<Token<N>>) -> bool {
    forall|i: int| 0 <= i < ts.len() ==> !(#[trigger] ts[i] is OpenParen || ts[i] is CloseParen)
}

pub open spec fn all_operators<N>(s: Seq<Token<N>>) -> bool {
    forall|i: int| 0 <= i < s.len() ==> #[trigger] s[i] is Operator
}

proof fn lemma_pop_binding_keeps_operators<N>(out: Seq<Token<N>>, stack: Seq<Token<N>>, p: nat)
    requires
        all_operators(stack),
    ensures
        all_operators(pop_binding(out, stack, p).1),
    decreases stack.len(),
{
    if stack.len() > 0 && prec(stack.last()->Operator_0) >= p {
        lemma_pop_binding_keeps_operators(out.push(stack.last()), stack.drop_last(), p);
    }
}

proof fn lemma_shunt_no_parens<N>(ts: Seq<Token<N>>)
    requires
        no_parens(ts),
    ensures
        all_operators(shunt(ts).1),
    decreases ts.len(),
{
    if ts.len() > 0 {
        assert(no_parens(ts.drop_last()));
        lemma_shunt_no_parens(ts.drop_last());
        let st = shunt(ts.drop_last());
        assert(!(ts[ts.len() - 1] is OpenParen || ts[ts.len() - 1] is CloseParen));
        if ts.last() is Operator {
            lemma_pop_binding_keeps_operators(st.0, st.1, prec(ts.last()->Operator_0));
        }
    }
}

proof fn lemma_pop_to_open_drains<N>(out: Seq<Token<N>>, stack: Seq<Token<N>>)
    requires
        all_operators(stack),
    ensures
        pop_to_open(out, stack) == (out + stack.reverse(), Seq::<Token<N>>::empty()),
    decreases stack.len(),
{
    if stack.len() == 0 {
        assert(out + stack.reverse() =~= out);
    } else {
        assert(stack[stack.len() - 1] is Operator);
        lemma_pop_to_open_drains(out.push(stack.last()), stack.drop_last());
        assert(out.push(stack.last()) + stack.drop_last().reverse() =~= out + stack.reverse());
    }
}

/// A close parenthesis with no open one before it is absorbed: appending it
/// to a stream without parentheses leaves the postfix form unchanged.
pub proof fn lemma_unmatched_close_absorbed<N>(ts: Seq<Token<N>>)
    requires
        no_parens(ts),
    ensures
        postfix(ts.push(Token::CloseParen)) == postfix(ts),
{
    let u = ts.push(Token::CloseParen);
    assert(u.drop_last() =~= ts);
    lemma_shunt_no_parens(ts);
    lemma_pop_to_open_drains(shunt(ts).0, shunt(ts).1);
    assert(postfix(u) =~= postfix(ts));
}

proof fn lemma_pop_binding_stops_at_open<N>(out: Seq<Token<N>>, stack: Seq<Token<N>>, p: nat)
    requires
        all_operators(stack),
    ensures
        pop_binding(out, seq![Token::OpenParen] + stack, p) == (
        pop_binding(out, stack, p).0,
        seq![Token::OpenParen] + pop_binding(out, stack, p).1,
    ),
    decreases stack.len(),
{
    let o = seq![Token::<N>::OpenParen];
    if stack.len() == 0 {
        assert(o + stack =~= o);
        reveal_with_fuel(pop_binding, 2);
        assert(o + stack =~= o);
    } else {
        assert((o + stack).last() == stack.last());
        assert((o + stack).drop_last() =~= o + stack.drop_last());
        assert(stack[stack.len() - 1] is Operator);
        if prec(stack.last()->Operator_0) >= p {
            lemma_pop_binding_stops_at_open(out.push(stack.last()), stack.drop_last(), p);
        }
    }
}

proof fn lemma_shunt_after_open<N>(ts: Seq<Token<N>>)
    requires
        no_parens(ts),
    ensures
        shunt(seq![Token::OpenParen] + ts) == (shunt(ts).0, seq![Token::OpenParen] + shunt(ts).1),
    decreases ts.len(),
{
    let o = seq![Token::<N>::OpenParen];
    if ts.len() == 0 {
        assert(o + ts =~= o);
        assert(o.drop_last() =~= Seq::<Token<N>>::empty());
        reveal_with_fuel(shunt, 2);
        assert(shunt(o).1 =~= o);
        assert(o + shunt(ts).1 =~= o);
    } else {
        assert(no_parens(ts.drop_last()));
        lemma_shunt_after_open(ts.drop_last());
        lemma_shunt_no_parens(ts.drop_last());
        assert((o + ts).drop_last() =~= o + ts.drop_last());
        assert((o + ts).last() == ts.last());
        let st = shunt(ts.drop_last());
        let t = ts.last();
        assert(!(ts[ts.len() - 1] is OpenParen || ts[ts.len() - 1] is CloseParen));
        if t is Operator {
            lemma_pop_binding_stops_at_open(st.0, st.1, prec(t->Operator_0));
            assert((o + pop_binding(st.0, st.1, prec(t->Operator_0)).1).push(t) =~= o + pop_binding(
                st.0,
                st.1,
                prec(t->Operator_0),
            ).1.push(t));
        } else {
            assert(o + st.1 =~= o + st.1);
        }
    }
}

/// An open parenthesis that is never closed is passed to the output last:
/// before a stream without parentheses it adds itself at the end of that
/// stream's postfix form.
pub proof fn lemma_unclosed_open_kept<N>(ts: Seq<Token<N>>)
    requires
        no_parens(ts),
    ensures
        postfix(seq![Token::OpenParen] + ts) == postfix(ts).push(Token::OpenParen),
{
    lemma_shunt_after_open(ts);
    let st = shunt(ts);
    assert((seq![Token::OpenParen] + st.1).reverse() =~= st.1.reverse().push(Token::OpenParen));
    assert(postfix(seq![Token::OpenParen] + ts) =~= postfix(ts).push(Token::OpenParen));
}

} // verus!
