//! The grammar that the calculator implements, and the proof that it
//! evaluates every well-formed expression to the value its syntax tree
//! gives:
//!
//! ```text
//! expr   := expr ('+' | '-') term | term
//! term   := term ('*' | '/') factor | factor
//! factor := number | '(' expr ')'
//! ```
use vstd::prelude::*;

use crate::calc::{apply, drain, pop_at_least, pop_to_open, prec, shunt, spec_calc, spec_eval_rpn, spec_to_rpn, spec_tokenize, rpn_run, top_at_least, CalcError, Halt, Token};

verus! {

/// A syntax tree. `Paren` records explicit parentheses, so that every tree
/// that is well formed at a level has exactly one token rendering.
pub enum Ast {
    Num(i64),
    Paren(Box<Ast>),
    Bin(char, Box<Ast>, Box<Ast>),
}

pub open spec fn is_additive(c: char) -> bool {
    c == '+' || c == '-'
}

pub open spec fn is_multiplicative(c: char) -> bool {
    c == '*' || c == '/'
}

/// The tree follows the grammar at `level`: 0 is a factor, 1 a term, 2 an
/// expression. Operators associate to the left.
pub open spec fn well_formed(a: Ast, level: nat) -> bool
    decreases a,
{
    match a {
        Ast::Num(_) => true,
        Ast::Paren(e) => well_formed(*e, 2),
        Ast::Bin(op, l, r) => if is_additive(op) {
            level == 2 && well_formed(*l, 2) && well_formed(*r, 1)
        } else if is_multiplicative(op) {
            level >= 1 && well_formed(*l, 1) && well_formed(*r, 0)
        } else {
            false
        },
    }
}

/// The infix tokens of a tree.
pub open spec fn tokens_of(a: Ast) -> Seq<Token>
    decreases a,
{
    match a {
        Ast::Num(n) => seq![Token::Num(n)],
        Ast::Paren(e) => seq![Token::Open] + tokens_of(*e) + seq![Token::Close],
        Ast::Bin(op, l, r) => tokens_of(*l) + seq![Token::Op(op)] + tokens_of(*r),
    }
}

/// The reverse Polish notation of a tree (post-order).
pub open spec fn postfix(a: Ast) -> Seq<Token>
    decreases a,
{
    match a {
        Ast::Num(n) => seq![Token::Num(n)],
        Ast::Paren(e) => postfix(*e),
        Ast::Bin(op, l, r) => postfix(*l) + postfix(*r) + seq![Token::Op(op)],
    }
}

/// The value of a tree: the left operand is evaluated first, then the
/// right one, then the checked operation.
pub open spec fn value(a: Ast) -> Result<i64, Halt>
    decreases a,
{
    match a {
        Ast::Num(n) => Ok(n),
        Ast::Paren(e) => value(*e),
        Ast::Bin(op, l, r) => match value(*l) {
            Err(h) => Err(h),
            Ok(x) => match value(*r) {
                Err(h) => Err(h),
                Ok(y) => apply(op, x, y),
            },
        },
    }
}

/// Operators that shunting-yard still holds on its stack after reading the
/// tokens of a tree (bottom first).
pub open spec fn pending(a: Ast) -> Seq<Token>
    decreases a,
{
    match a {
        Ast::Bin(op, l, r) => if is_additive(op) {
            seq![Token::Op(op)] + pending(*r)
        } else {
            seq![Token::Op(op)]
        },
        _ => seq![],
    }
}

/// What shunting-yard has written out after reading the tokens of a tree.
pub open spec fn emitted(a: Ast) -> Seq<Token>
    decreases a,
{
    match a {
        Ast::Bin(op, l, r) => if is_additive(op) {
            postfix(*l) + emitted(*r)
        } else {
            postfix(*l) + postfix(*r)
        },
        _ => postfix(a),
    }
}

/// Every token is an operator of precedence at least `p`.
pub open spec fn ops_at_least(s: Seq<Token>, p: int) -> bool {
    forall|i: int| 0 <= i < s.len() ==> (#[trigger] s[i] matches Token::Op(t) && prec(t) >= p)
}

/// The operator stack may receive the tokens of a tree at `level`.
pub open spec fn stack_admits(stack: Seq<Token>, level: nat) -> bool {
    if level == 0 {
        true
    } else if level == 1 {
        !top_at_least(stack, 2)
    } else {
        !top_at_least(stack, 1)
    }
}

proof fn lemma_reverse_cons(x: Token, p: Seq<Token>)
    ensures
        (seq![x] + p).reverse() =~= p.reverse() + seq![x],
{
    let s = seq![x] + p;
    assert(s.len() > 0);
    if p.len() == 0 {
        assert(p.reverse() =~= Seq::<Token>::empty());
    }
}

proof fn lemma_reverse_drop_last(p: Seq<Token>)
    requires
        p.len() > 0,
    ensures
        seq![p.last()] + p.drop_last().reverse() =~= p.reverse(),
{
    if p.len() == 1 {
        assert(p.drop_last().reverse() =~= Seq::<Token>::empty());
    }
}

proof fn lemma_pending(a: Ast, level: nat)
    requires
        well_formed(a, level),
    ensures
        postfix(a) =~= emitted(a) + pending(a).reverse(),
        ops_at_least(pending(a), 1),
        level <= 1 ==> ops_at_least(pending(a), 2),
        level == 0 ==> pending(a).len() == 0,
    decreases a,
{
    match a {
        Ast::Bin(op, l, r) => {
            if is_additive(op) {
                lemma_pending(*r, 1);
                lemma_reverse_cons(Token::Op(op), pending(*r));
                let pr = pending(*r);
                let p = seq![Token::Op(op)] + pr;
                assert forall|i: int| 0 <= i < p.len() implies (#[trigger] p[i] matches Token::Op(t) && prec(t) >= 1) by {
                    if i > 0 {
                        assert(p[i] == pr[i - 1]);
                    }
                }
            } else {
                assert(seq![Token::Op(op)].reverse() =~= seq![Token::Op(op)]);
            }
        },
        _ => {
            assert(pending(a).reverse() =~= Seq::<Token>::empty());
        },
    }
}

proof fn lemma_pop_pending(out: Seq<Token>, stack: Seq<Token>, pend: Seq<Token>, p: int)
    requires
        ops_at_least(pend, p),
        !top_at_least(stack, p),
    ensures
        pop_at_least(out, stack + pend, p) == (out + pend.reverse(), stack),
    decreases pend.len(),
{
    if pend.len() == 0 {
        assert(stack + pend =~= stack);
        assert(out + pend.reverse() =~= out);
    } else {
        let s = stack + pend;
        assert(s.last() == pend.last());
        assert(pend[pend.len() - 1] == pend.last());
        assert(s.drop_last() =~= stack + pend.drop_last());
        let rest = pend.drop_last();
        assert forall|i: int| 0 <= i < rest.len() implies (#[trigger] rest[i] matches Token::Op(t) && prec(t) >= p) by {
            assert(rest[i] == pend[i]);
        }
        lemma_pop_pending(out.push(pend.last()), stack, rest, p);
        lemma_reverse_drop_last(pend);
        assert(out.push(pend.last()) + rest.reverse() =~= out + pend.reverse());
    }
}

proof fn lemma_close_pending(out: Seq<Token>, stack: Seq<Token>, pend: Seq<Token>)
    requires
        ops_at_least(pend, 1),
    ensures
        pop_to_open(out, stack.push(Token::Open) + pend) == Some((out + pend.reverse(), stack)),
    decreases pend.len(),
{
    let s = stack.push(Token::Open) + pend;
    if pend.len() == 0 {
        assert(s =~= stack.push(Token::Open));
        assert(s.drop_last() =~= stack);
        assert(out + pend.reverse() =~= out);
    } else {
        assert(s.last() == pend.last());
        assert(pend[pend.len() - 1] == pend.last());
        assert(s.drop_last() =~= stack.push(Token::Open) + pend.drop_last());
        let rest = pend.drop_last();
        assert forall|i: int| 0 <= i < rest.len() implies (#[trigger] rest[i] matches Token::Op(t) && prec(t) >= 1) by {
            assert(rest[i] == pend[i]);
        }
        lemma_close_pending(out.push(pend.last()), stack, rest);
        lemma_reverse_drop_last(pend);
        assert(out.push(pend.last()) + rest.reverse() =~= out + pend.reverse());
    }
}

proof fn lemma_drain_pending(out: Seq<Token>, pend: Seq<Token>)
    requires
        ops_at_least(pend, 1),
    ensures
        drain(out, pend) == Ok::<Seq<Token>, CalcError>(out + pend.reverse()),
    decreases pend.len(),
{
    if pend.len() == 0 {
        assert(out + pend.reverse() =~= out);
    } else {
        assert(pend[pend.len() - 1] == pend.last());
        let rest = pend.drop_last();
        assert forall|i: int| 0 <= i < rest.len() implies (#[trigger] rest[i] matches Token::Op(t) && prec(t) >= 1) by {
            assert(rest[i] == pend[i]);
        }
        lemma_drain_pending(out.push(pend.last()), rest);
        lemma_reverse_drop_last(pend);
        assert(out.push(pend.last()) + rest.reverse() =~= out + pend.reverse());
    }
}

/// Reading the tokens of a tree at `level` writes `emitted` and leaves
/// `pending` on the stack, whatever follows.
proof fn lemma_shunt_tree(a: Ast, level: nat, rest: Seq<Token>, out: Seq<Token>, stack: Seq<Token>)
    requires
        level <= 2,
        well_formed(a, level),
        stack_admits(stack, level),
    ensures
        shunt(tokens_of(a) + rest, out, stack) == shunt(rest, out + emitted(a), stack + pending(a)),
    decreases a,
{
    match a {
        Ast::Num(n) => {
            let t = tokens_of(a) + rest;
            assert(t[0] == Token::Num(n));
            assert(t.drop_first() =~= rest);
            assert(out.push(Token::Num(n)) =~= out + emitted(a));
            assert(stack + pending(a) =~= stack);
        },
        Ast::Paren(e) => {
            let inner = seq![Token::Close] + rest;
            let t = tokens_of(a) + rest;
            assert(t[0] == Token::Open);
            assert(t.drop_first() =~= tokens_of(*e) + inner);
            lemma_shunt_tree(*e, 2, inner, out, stack.push(Token::Open));
            lemma_pending(*e, 2);
            let o = out + emitted(*e);
            let s = stack.push(Token::Open) + pending(*e);
            assert(inner[0] == Token::Close);
            assert(inner.drop_first() =~= rest);
            lemma_close_pending(o, stack, pending(*e));
            assert(o + pending(*e).reverse() =~= out + emitted(a));
            assert(stack + pending(a) =~= stack);
        },
        Ast::Bin(op, l, r) => {
            let after = seq![Token::Op(op)] + (tokens_of(*r) + rest);
            assert(tokens_of(a) + rest =~= tokens_of(*l) + after);
            assert(after[0] == Token::Op(op));
            assert(after.drop_first() =~= tokens_of(*r) + rest);
            if is_additive(op) {
                lemma_shunt_tree(*l, 2, after, out, stack);
                lemma_pending(*l, 2);
                lemma_pop_pending(out + emitted(*l), stack, pending(*l), prec(op));
                let o = out + postfix(*l);
                assert(out + emitted(*l) + pending(*l).reverse() =~= o);
                let s = stack.push(Token::Op(op));
                lemma_shunt_tree(*r, 1, rest, o, s);
                assert(o + emitted(*r) =~= out + emitted(a));
                assert(s + pending(*r) =~= stack + pending(a));
            } else {
                lemma_shunt_tree(*l, 1, after, out, stack);
                lemma_pending(*l, 1);
                lemma_pop_pending(out + emitted(*l), stack, pending(*l), prec(op));
                let o = out + postfix(*l);
                assert(out + emitted(*l) + pending(*l).reverse() =~= o);
                let s = stack.push(Token::Op(op));
                lemma_shunt_tree(*r, 0, rest, o, s);
                lemma_pending(*r, 0);
                assert(o + emitted(*r) =~= out + emitted(a));
                assert(s + pending(*r) =~= stack + pending(a));
            }
        },
    }
}

/// Running the reverse Polish notation of a tree pushes its value.
proof fn lemma_run_postfix(a: Ast, rest: Seq<Token>, st: Seq<i64>)
    ensures
        rpn_run(postfix(a) + rest, st) == match value(a) {
            Ok(v) => rpn_run(rest, st.push(v)),
            Err(h) => Err(h),
        },
    decreases a,
{
    match a {
        Ast::Num(n) => {
            let t = postfix(a) + rest;
            assert(t[0] == Token::Num(n));
            assert(t.drop_first() =~= rest);
        },
        Ast::Paren(e) => {
            lemma_run_postfix(*e, rest, st);
        },
        Ast::Bin(op, l, r) => {
            let tail = seq![Token::Op(op)] + rest;
            let after = postfix(*r) + tail;
            assert(postfix(a) + rest =~= postfix(*l) + after);
            lemma_run_postfix(*l, after, st);
            match value(*l) {
                Ok(x) => {
                    lemma_run_postfix(*r, tail, st.push(x));
                    match value(*r) {
                        Ok(y) => {
                            let s2 = st.push(x).push(y);
                            assert(tail[0] == Token::Op(op));
                            assert(tail.drop_first() =~= rest);
                            assert(s2.last() == y);
                            assert(s2.drop_last() =~= st.push(x));
                            assert(s2.drop_last().drop_last() =~= st);
                        },
                        Err(_) => {},
                    }
                },
                Err(_) => {},
            }
        },
    }
}

/// Shunting-yard turns the tokens of every well-formed expression into its
/// reverse Polish notation, and that notation evaluates to the expression's
/// value: `*` and `/` bind tighter than `+` and `-`, operators associate to
/// the left, and parentheses group.
pub proof fn law_rpn_evaluates_expression(a: Ast)
    requires
        well_formed(a, 2),
    ensures
        spec_to_rpn(tokens_of(a)) == Ok::<Seq<Token>, CalcError>(postfix(a)),
        spec_eval_rpn(postfix(a)) == value(a),
{
    let e: Seq<Token> = seq![];
    lemma_shunt_tree(a, 2, e, e, e);
    assert(tokens_of(a) + e =~= tokens_of(a));
    assert(e + emitted(a) =~= emitted(a));
    assert(e + pending(a) =~= pending(a));
    lemma_pending(a, 2);
    lemma_drain_pending(emitted(a), pending(a));
    lemma_run_postfix(a, e, seq![]);
    assert(postfix(a) + e =~= postfix(a));
    match value(a) {
        Ok(v) => {
            assert(seq![].push(v) =~= seq![v]);
        },
        Err(_) => {},
    }
}

/// A text whose tokens are those of a well-formed expression is calculated
/// to that expression's value.
pub proof fn law_calc_evaluates_expression(s: Seq<char>, a: Ast)
    requires
        well_formed(a, 2),
        spec_tokenize(s) == Ok::<Seq<Token>, CalcError>(tokens_of(a)),
    ensures
        spec_calc(s) == value(a),
{
    law_rpn_evaluates_expression(a);
}

} // verus!
