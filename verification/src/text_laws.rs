//! Laws of the calculator stated on source texts: where blanks matter, and
//! what parentheses around calculable texts do.
use vstd::prelude::*;

use crate::calc::{
    apply, drain, is_blank, is_digit, is_op_char, leading_digits, lemma_leading_digits,
    lemma_leading_digits_exact, pop_at_least, pop_to_open, prefix_tokens, rpn_run, shunt,
    spec_calc, spec_eval_rpn, spec_to_rpn, spec_tokenize, top_at_least, CalcError, Halt, Token,
};

verus! {

/// The tokens of two texts read one after the other: the first error wins.
pub open spec fn join_tokens(
    r1: Result<Seq<Token>, CalcError>,
    r2: Result<Seq<Token>, CalcError>,
) -> Result<Seq<Token>, CalcError> {
    match r1 {
        Err(e) => Err(e),
        Ok(t) => prefix_tokens(t, r2),
    }
}

/// `s1` ends with a digit and `s2` starts with one, so that putting them
/// together would make one number of two.
pub open spec fn digits_meet(s1: Seq<char>, s2: Seq<char>) -> bool {
    s1.len() > 0 && s2.len() > 0 && is_digit(s1.last()) && is_digit(s2[0])
}

proof fn lemma_prefix_join(x: Seq<Token>, r1: Result<Seq<Token>, CalcError>, r2: Result<Seq<Token>, CalcError>)
    ensures
        prefix_tokens(x, join_tokens(r1, r2)) == join_tokens(prefix_tokens(x, r1), r2),
{
    match r1 {
        Ok(t) => match r2 {
            Ok(u) => {
                assert(x + (t + u) =~= (x + t) + u);
            },
            Err(_) => {},
        },
        Err(_) => {},
    }
}

/// Texts that do not join two digit runs are tokenized piece by piece.
pub proof fn lemma_tokenize_concat(s1: Seq<char>, s2: Seq<char>)
    requires
        !digits_meet(s1, s2),
    ensures
        spec_tokenize(s1 + s2) == join_tokens(spec_tokenize(s1), spec_tokenize(s2)),
    decreases s1.len(),
{
    let s = s1 + s2;
    if s1.len() == 0 {
        assert(s =~= s2);
        match spec_tokenize(s2) {
            Ok(t) => {
                assert(seq![] + t =~= t);
            },
            Err(_) => {},
        }
    } else {
        let c = s1[0];
        assert(s[0] == c);
        lemma_leading_digits(s1);
        if is_digit(c) {
            let k = leading_digits(s1) as int;
            let rest1 = s1.skip(k);
            assert forall|j: int| 0 <= j < k implies is_digit(#[trigger] s[j]) by {
                assert(s[j] == s1[j]);
            }
            if k < s.len() {
                if k < s1.len() {
                    assert(s[k] == s1[k]);
                } else {
                    assert(s1[s1.len() - 1] == s1.last());
                    assert(s[k] == s2[0]);
                }
            }
            lemma_leading_digits_exact(s, k);
            assert(s.take(k) =~= s1.take(k));
            assert(s.skip(k) =~= rest1 + s2);
            if rest1.len() > 0 {
                assert(rest1.last() == s1.last());
            }
            lemma_tokenize_concat(rest1, s2);
            let v = crate::calc::digits_value(s1.take(k));
            if v <= i64::MAX {
                lemma_prefix_join(seq![Token::Num(v as i64)], spec_tokenize(rest1), spec_tokenize(s2));
            }
        } else {
            let rest1 = s1.drop_first();
            assert(s.drop_first() =~= rest1 + s2);
            if rest1.len() > 0 {
                assert(rest1.last() == s1.last());
            }
            lemma_tokenize_concat(rest1, s2);
            if is_op_char(c) {
                lemma_prefix_join(seq![Token::Op(c)], spec_tokenize(rest1), spec_tokenize(s2));
            } else if c == '(' {
                lemma_prefix_join(seq![Token::Open], spec_tokenize(rest1), spec_tokenize(s2));
            } else if c == ')' {
                lemma_prefix_join(seq![Token::Close], spec_tokenize(rest1), spec_tokenize(s2));
            }
        }
    }
}

proof fn lemma_tokenize_char(c: char)
    ensures
        is_blank(c) ==> spec_tokenize(seq![c]) == Ok::<Seq<Token>, CalcError>(seq![]),
        c == '(' ==> spec_tokenize(seq![c]) == Ok::<Seq<Token>, CalcError>(seq![Token::Open]),
        c == ')' ==> spec_tokenize(seq![c]) == Ok::<Seq<Token>, CalcError>(seq![Token::Close]),
        is_op_char(c) ==> spec_tokenize(seq![c]) == Ok::<Seq<Token>, CalcError>(seq![Token::Op(c)]),
{
    let s = seq![c];
    assert(s[0] == c);
    assert(s.drop_first() =~= Seq::<char>::empty());
    assert(spec_tokenize(Seq::<char>::empty()) == Ok::<Seq<Token>, CalcError>(seq![]));
    assert(seq![Token::Open] + Seq::<Token>::empty() =~= seq![Token::Open]);
    assert(seq![Token::Close] + Seq::<Token>::empty() =~= seq![Token::Close]);
    assert(seq![Token::Op(c)] + Seq::<Token>::empty() =~= seq![Token::Op(c)]);
}

/// Removing a blank changes no token, unless the blank is all that
/// separates two digit runs.
pub proof fn law_blank_removal(p: Seq<char>, b: char, q: Seq<char>)
    requires
        is_blank(b),
        !digits_meet(p, q),
    ensures
        spec_tokenize(p + seq![b] + q) == spec_tokenize(p + q),
{
    let bq = seq![b] + q;
    assert(p + seq![b] + q =~= p + bq);
    assert(bq[0] == b);
    lemma_tokenize_concat(p, bq);
    lemma_tokenize_concat(seq![b], q);
    lemma_tokenize_char(b);
    lemma_tokenize_concat(p, q);
    match spec_tokenize(q) {
        Ok(t) => {
            assert(seq![] + t =~= t);
        },
        Err(_) => {},
    }
}

/// The first character of `t` that is not blank is a digit.
pub open spec fn first_solid_digit(t: Seq<char>) -> bool
    decreases t.len(),
{
    if t.len() == 0 {
        false
    } else if is_blank(t[0]) {
        first_solid_digit(t.drop_first())
    } else {
        is_digit(t[0])
    }
}

/// The last character of `t` that is not blank is a digit.
pub open spec fn last_solid_digit(t: Seq<char>) -> bool
    decreases t.len(),
{
    if t.len() == 0 {
        false
    } else if is_blank(t.last()) {
        last_solid_digit(t.drop_last())
    } else {
        is_digit(t.last())
    }
}

/// The characters of `s` whose mark in `m` is not set.
pub open spec fn unmarked(s: Seq<char>, m: Seq<bool>) -> Seq<char>
    decreases s.len(),
{
    if s.len() == 0 || m.len() != s.len() {
        s
    } else if m.last() {
        unmarked(s.drop_last(), m.drop_last())
    } else {
        unmarked(s.drop_last(), m.drop_last()).push(s.last())
    }
}

/// Every character marked in `m` is a blank whose nearest non-blank
/// neighbours are not both digits.
pub open spec fn removable_blanks(s: Seq<char>, m: Seq<bool>) -> bool {
    &&& m.len() == s.len()
    &&& forall|i: int|
        0 <= i < s.len() && #[trigger] m[i] ==> is_blank(s[i]) && !(last_solid_digit(s.take(i))
            && first_solid_digit(s.skip(i + 1)))
}

/// Index of the last set mark, or -1.
spec fn last_mark(m: Seq<bool>) -> int
    decreases m.len(),
{
    if m.len() == 0 {
        -1
    } else if m.last() {
        m.len() - 1
    } else {
        last_mark(m.drop_last())
    }
}

proof fn lemma_last_mark(m: Seq<bool>)
    ensures
        -1 <= last_mark(m) < m.len(),
        last_mark(m) >= 0 ==> m[last_mark(m)],
        forall|j: int| last_mark(m) < j < m.len() ==> !#[trigger] m[j],
    decreases m.len(),
{
    if m.len() > 0 && !m.last() {
        lemma_last_mark(m.drop_last());
        assert forall|j: int| last_mark(m) < j < m.len() implies !#[trigger] m[j] by {
            if j < m.len() - 1 {
                assert(m[j] == m.drop_last()[j]);
            }
        }
    }
}

proof fn lemma_unmarked_concat(a: Seq<char>, ma: Seq<bool>, b: Seq<char>, mb: Seq<bool>)
    requires
        ma.len() == a.len(),
        mb.len() == b.len(),
    ensures
        unmarked(a + b, ma + mb) == unmarked(a, ma) + unmarked(b, mb),
    decreases b.len(),
{
    if b.len() == 0 {
        assert(a + b =~= a);
        assert(ma + mb =~= ma);
        assert(unmarked(a, ma) + unmarked(b, mb) =~= unmarked(a, ma));
    } else {
        assert((a + b).drop_last() =~= a + b.drop_last());
        assert((ma + mb).drop_last() =~= ma + mb.drop_last());
        lemma_unmarked_concat(a, ma, b.drop_last(), mb.drop_last());
        if !mb.last() {
            assert(unmarked(a, ma) + unmarked(b.drop_last(), mb.drop_last()).push(b.last())
                =~= (unmarked(a, ma) + unmarked(b.drop_last(), mb.drop_last())).push(b.last()));
        }
    }
}

proof fn lemma_unmarked_none(s: Seq<char>, m: Seq<bool>)
    requires
        m.len() == s.len(),
        forall|j: int| 0 <= j < m.len() ==> !#[trigger] m[j],
    ensures
        unmarked(s, m) == s,
    decreases s.len(),
{
    if s.len() > 0 {
        assert(m.last() == m[m.len() - 1]);
        assert forall|j: int| 0 <= j < m.drop_last().len() implies !#[trigger] m.drop_last()[j] by {
            assert(m.drop_last()[j] == m[j]);
        }
        lemma_unmarked_none(s.drop_last(), m.drop_last());
        assert(s.drop_last().push(s.last()) =~= s);
    }
}

proof fn lemma_first_solid_skip_blank(a: Seq<char>, b: char, q: Seq<char>)
    requires
        is_blank(b),
    ensures
        first_solid_digit(a + seq![b] + q) == first_solid_digit(a + q),
    decreases a.len(),
{
    if a.len() == 0 {
        assert(a + seq![b] + q =~= seq![b] + q);
        assert(a + q =~= q);
        assert((seq![b] + q).drop_first() =~= q);
    } else {
        assert((a + seq![b] + q)[0] == a[0]);
        assert((a + q)[0] == a[0]);
        assert((a + seq![b] + q).drop_first() =~= a.drop_first() + seq![b] + q);
        assert((a + q).drop_first() =~= a.drop_first() + q);
        lemma_first_solid_skip_blank(a.drop_first(), b, q);
    }
}

/// Deleting blanks, none of which separates two digit runs, changes no
/// token: `unmarked(s, m)` is `s` without the blanks marked in `m`.
pub proof fn law_blanks_removal(s: Seq<char>, m: Seq<bool>)
    requires
        removable_blanks(s, m),
    ensures
        spec_tokenize(unmarked(s, m)) == spec_tokenize(s),
    decreases s.len(),
{
    lemma_last_mark(m);
    let i = last_mark(m);
    if i < 0 {
        lemma_unmarked_none(s, m);
    } else {
        let p = s.take(i);
        let b = s[i];
        let q = s.skip(i + 1);
        let mp = m.take(i);
        let mq = m.skip(i + 1);
        assert(s =~= p + seq![b] + q);
        assert(m =~= mp + seq![true] + mq);
        assert(m[i]);
        assert(is_blank(b));
        // the blank at `i` does not join two digit runs
        if digits_meet(p, q) {
            assert(q[0] == s.skip(i + 1)[0]);
            assert(first_solid_digit(q));
            assert(last_solid_digit(p));
            assert(false);
        }
        law_blank_removal(p, b, q);
        // the marks before `i` stay removable once `i` is gone
        let s2 = p + q;
        let m2 = mp + mq;
        assert forall|j: int| 0 <= j < s2.len() && #[trigger] m2[j] implies is_blank(s2[j]) && !(
        last_solid_digit(s2.take(j)) && first_solid_digit(s2.skip(j + 1))) by {
            if j >= i {
                assert(m2[j] == mq[j - i]);
                assert(mq[j - i] == m[j + 1]);
            } else {
                assert(m2[j] == m[j]);
                assert(s2[j] == s[j]);
                assert(s2.take(j) =~= s.take(j));
                let a = p.skip(j + 1);
                assert(s.skip(j + 1) =~= a + seq![b] + q);
                assert(s2.skip(j + 1) =~= a + q);
                lemma_first_solid_skip_blank(a, b, q);
            }
        }
        law_blanks_removal(s2, m2);
        // the same characters are kept
        assert forall|j: int| 0 <= j < mq.len() implies !#[trigger] mq[j] by {
            assert(mq[j] == m[j + i + 1]);
        }
        lemma_unmarked_none(q, mq);
        lemma_unmarked_concat(p, mp, q, mq);
        lemma_unmarked_concat(p + seq![b], mp + seq![true], q, mq);
        lemma_unmarked_concat(p, mp, seq![b], seq![true]);
        let bs = seq![b];
        let ts = seq![true];
        assert(bs.drop_last() =~= Seq::<char>::empty());
        assert(ts.drop_last() =~= Seq::<bool>::empty());
        assert(ts.last());
        assert(unmarked(Seq::<char>::empty(), Seq::<bool>::empty()) =~= Seq::<char>::empty());
        assert(unmarked(bs, ts) =~= Seq::<char>::empty());
        assert(unmarked(p, mp) + Seq::<char>::empty() =~= unmarked(p, mp));
    }
}

// ---------------------------------------------------------------------------
// Shunting-yard inside parentheses
// ---------------------------------------------------------------------------

pub open spec fn prefixed(pre: Seq<Token>, r: Result<Seq<Token>, CalcError>) -> Result<Seq<Token>, CalcError> {
    match r {
        Ok(o) => Ok(pre + o),
        Err(e) => Err(e),
    }
}

proof fn lemma_pop_at_least_prefix(pre: Seq<Token>, out: Seq<Token>, st: Seq<Token>, p: int)
    ensures
        pop_at_least(pre + out, st, p) == (pre + pop_at_least(out, st, p).0, pop_at_least(out, st, p).1),
    decreases st.len(),
{
    if top_at_least(st, p) {
        assert((pre + out).push(st.last()) =~= pre + out.push(st.last()));
        lemma_pop_at_least_prefix(pre, out.push(st.last()), st.drop_last(), p);
    }
}

proof fn lemma_pop_to_open_prefix(pre: Seq<Token>, out: Seq<Token>, st: Seq<Token>)
    ensures
        pop_to_open(pre + out, st) == match pop_to_open(out, st) {
            Some((o, s)) => Some((pre + o, s)),
            None => None,
        },
    decreases st.len(),
{
    if st.len() > 0 && !(st.last() is Open) {
        assert((pre + out).push(st.last()) =~= pre + out.push(st.last()));
        lemma_pop_to_open_prefix(pre, out.push(st.last()), st.drop_last());
    }
}

proof fn lemma_drain_prefix(pre: Seq<Token>, out: Seq<Token>, st: Seq<Token>)
    ensures
        drain(pre + out, st) == prefixed(pre, drain(out, st)),
    decreases st.len(),
{
    if st.len() > 0 && !(st.last() is Open) {
        assert((pre + out).push(st.last()) =~= pre + out.push(st.last()));
        lemma_drain_prefix(pre, out.push(st.last()), st.drop_last());
    }
}

/// What is already written out plays no part in shunting-yard.
proof fn lemma_shunt_prefix(pre: Seq<Token>, toks: Seq<Token>, out: Seq<Token>, st: Seq<Token>)
    ensures
        shunt(toks, pre + out, st) == prefixed(pre, shunt(toks, out, st)),
    decreases toks.len(),
{
    if toks.len() == 0 {
        lemma_drain_prefix(pre, out, st);
    } else {
        let rest = toks.drop_first();
        match toks[0] {
            Token::Num(_) => {
                assert((pre + out).push(toks[0]) =~= pre + out.push(toks[0]));
                lemma_shunt_prefix(pre, rest, out.push(toks[0]), st);
            },
            Token::Op(op) => {
                lemma_pop_at_least_prefix(pre, out, st, crate::calc::prec(op));
                let (o, s) = pop_at_least(out, st, crate::calc::prec(op));
                lemma_shunt_prefix(pre, rest, o, s.push(Token::Op(op)));
            },
            Token::Open => {
                lemma_shunt_prefix(pre, rest, out, st.push(Token::Open));
            },
            Token::Close => {
                lemma_pop_to_open_prefix(pre, out, st);
                match pop_to_open(out, st) {
                    Some((o, s)) => {
                        lemma_shunt_prefix(pre, rest, o, s);
                    },
                    None => {},
                }
            },
        }
    }
}

proof fn lemma_pop_at_least_nested(out: Seq<Token>, local: Seq<Token>, base: Seq<Token>, p: int)
    ensures
        pop_at_least(out, base.push(Token::Open) + local, p) == (
            pop_at_least(out, local, p).0,
            base.push(Token::Open) + pop_at_least(out, local, p).1,
        ),
    decreases local.len(),
{
    let s = base.push(Token::Open) + local;
    if local.len() == 0 {
        assert(s =~= base.push(Token::Open));
        assert(!top_at_least(s, p));
    } else {
        assert(s.last() == local.last());
        assert(s.drop_last() =~= base.push(Token::Open) + local.drop_last());
        lemma_pop_at_least_nested(out.push(local.last()), local.drop_last(), base, p);
    }
}

proof fn lemma_pop_to_open_nested(out: Seq<Token>, local: Seq<Token>, base: Seq<Token>)
    ensures
        pop_to_open(out, local) matches Some((o, s)) ==> pop_to_open(out, base.push(Token::Open) + local)
            == Some((o, base.push(Token::Open) + s)),
    decreases local.len(),
{
    let s = base.push(Token::Open) + local;
    if local.len() > 0 {
        assert(s.last() == local.last());
        assert(s.drop_last() =~= base.push(Token::Open) + local.drop_last());
        if !(local.last() is Open) {
            lemma_pop_to_open_nested(out.push(local.last()), local.drop_last(), base);
        }
    }
}

proof fn lemma_drain_closes(out: Seq<Token>, local: Seq<Token>, base: Seq<Token>)
    ensures
        drain(out, local) matches Ok(r) ==> pop_to_open(out, base.push(Token::Open) + local) == Some((r, base)),
    decreases local.len(),
{
    let s = base.push(Token::Open) + local;
    if local.len() == 0 {
        assert(s =~= base.push(Token::Open));
        assert(s.drop_last() =~= base);
    } else {
        assert(s.last() == local.last());
        assert(s.drop_last() =~= base.push(Token::Open) + local.drop_last());
        if !(local.last() is Open) {
            lemma_drain_closes(out.push(local.last()), local.drop_last(), base);
        }
    }
}

/// Tokens that shunting-yard accepts on their own are handled the same
/// between parentheses, on top of whatever the stack already holds.
proof fn lemma_shunt_nested(
    ta: Seq<Token>,
    rest: Seq<Token>,
    out: Seq<Token>,
    local: Seq<Token>,
    base: Seq<Token>,
)
    requires
        shunt(ta, out, local) is Ok,
    ensures
        shunt(ta + (seq![Token::Close] + rest), out, base.push(Token::Open) + local)
            == shunt(rest, shunt(ta, out, local)->Ok_0, base),
    decreases ta.len(),
{
    let tail = seq![Token::Close] + rest;
    let t = ta + tail;
    let st = base.push(Token::Open) + local;
    if ta.len() == 0 {
        assert(t =~= tail);
        assert(tail[0] == Token::Close);
        assert(tail.drop_first() =~= rest);
        lemma_drain_closes(out, local, base);
    } else {
        let r = ta.drop_first();
        assert(t[0] == ta[0]);
        assert(t.drop_first() =~= r + tail);
        match ta[0] {
            Token::Num(_) => {
                lemma_shunt_nested(r, rest, out.push(ta[0]), local, base);
            },
            Token::Op(op) => {
                let p = crate::calc::prec(op);
                lemma_pop_at_least_nested(out, local, base, p);
                let (o, s) = pop_at_least(out, local, p);
                assert((base.push(Token::Open) + s).push(Token::Op(op)) =~= base.push(Token::Open) + s.push(
                    Token::Op(op),
                ));
                lemma_shunt_nested(r, rest, o, s.push(Token::Op(op)), base);
            },
            Token::Open => {
                assert(st.push(Token::Open) =~= base.push(Token::Open) + local.push(Token::Open));
                lemma_shunt_nested(r, rest, out, local.push(Token::Open), base);
            },
            Token::Close => {
                lemma_pop_to_open_nested(out, local, base);
                let (o, s) = pop_to_open(out, local)->Some_0;
                lemma_shunt_nested(r, rest, o, s, base);
            },
        }
    }
}

// ---------------------------------------------------------------------------
// Reverse Polish notation in pieces
// ---------------------------------------------------------------------------

proof fn lemma_run_concat(p: Seq<Token>, q: Seq<Token>, st: Seq<i64>)
    ensures
        rpn_run(p + q, st) == match rpn_run(p, st) {
            Ok(s) => rpn_run(q, s),
            Err(h) => Err(h),
        },
    decreases p.len(),
{
    if p.len() == 0 {
        assert(p + q =~= q);
    } else {
        let r = p.drop_first();
        assert((p + q)[0] == p[0]);
        assert((p + q).drop_first() =~= r + q);
        match p[0] {
            Token::Num(n) => {
                lemma_run_concat(r, q, st.push(n));
            },
            Token::Op(op) => {
                if st.len() >= 2 {
                    let b = st.last();
                    let a = st.drop_last().last();
                    if let Ok(v) = apply(op, a, b) {
                        lemma_run_concat(r, q, st.drop_last().drop_last().push(v));
                    }
                }
            },
            _ => {},
        }
    }
}

/// Values below the ones a run uses are carried along untouched.
proof fn lemma_run_base(r: Seq<Token>, base: Seq<i64>, st: Seq<i64>)
    requires
        rpn_run(r, st) is Ok,
    ensures
        rpn_run(r, base + st) == Ok::<Seq<i64>, Halt>(base + rpn_run(r, st)->Ok_0),
    decreases r.len(),
{
    if r.len() > 0 {
        let rest = r.drop_first();
        match r[0] {
            Token::Num(n) => {
                assert((base + st).push(n) =~= base + st.push(n));
                lemma_run_base(rest, base, st.push(n));
            },
            Token::Op(op) => {
                let full = base + st;
                assert(full.last() == st.last());
                assert(full.drop_last() =~= base + st.drop_last());
                assert(full.drop_last().last() == st.drop_last().last());
                let b = st.last();
                let a = st.drop_last().last();
                let v = apply(op, a, b)->Ok_0;
                assert(full.drop_last().drop_last().push(v) =~= base + st.drop_last().drop_last().push(v));
                lemma_run_base(rest, base, st.drop_last().drop_last().push(v));
            },
            _ => {},
        }
    }
}

proof fn lemma_calc_parts(s: Seq<char>)
    requires
        spec_calc(s) is Ok,
    ensures
        spec_tokenize(s) is Ok,
        spec_to_rpn(spec_tokenize(s)->Ok_0) is Ok,
        rpn_run(spec_to_rpn(spec_tokenize(s)->Ok_0)->Ok_0, seq![]) == Ok::<Seq<i64>, Halt>(
            seq![spec_calc(s)->Ok_0],
        ),
{
    let rpn = spec_to_rpn(spec_tokenize(s)->Ok_0)->Ok_0;
    let st = rpn_run(rpn, seq![])->Ok_0;
    assert(st =~= seq![st[0]]);
}

/// The tokens of `"(" + s + ")"`.
proof fn lemma_tokenize_wrapped(s: Seq<char>)
    ensures
        spec_tokenize(seq!['('] + s + seq![')']) == join_tokens(
            Ok(seq![Token::Open]),
            join_tokens(spec_tokenize(s), Ok(seq![Token::Close])),
        ),
{
    let close = seq![')'];
    assert(seq!['('] + s + close =~= seq!['('] + (s + close));
    lemma_tokenize_concat(seq!['('], s + close);
    lemma_tokenize_concat(s, close);
    lemma_tokenize_char('(');
    lemma_tokenize_char(')');
}

/// Parentheses around a text that tokenizes and converts to reverse Polish
/// notation change nothing in its calculation.
pub proof fn law_parentheses_keep_value(s: Seq<char>)
    requires
        spec_tokenize(s) is Ok,
        spec_to_rpn(spec_tokenize(s)->Ok_0) is Ok,
    ensures
        spec_calc(seq!['('] + s + seq![')']) == spec_calc(s),
{
    let ts = spec_tokenize(s)->Ok_0;
    lemma_tokenize_wrapped(s);
    let wrapped = seq![Token::Open] + (ts + seq![Token::Close]);
    assert(spec_tokenize(seq!['('] + s + seq![')']) == Ok::<Seq<Token>, CalcError>(wrapped));
    let e: Seq<Token> = seq![];
    assert(wrapped[0] == Token::Open);
    assert(wrapped.drop_first() =~= ts + (seq![Token::Close] + e));
    assert(e.push(Token::Open) =~= e.push(Token::Open) + e);
    lemma_shunt_nested(ts, e, e, e, e);
    assert(spec_to_rpn(wrapped) == spec_to_rpn(ts));
}

/// Two calculable texts in parentheses joined by an operator are
/// calculated to the operator applied to their values.
pub proof fn law_parenthesised_operation(a: Seq<char>, op: char, b: Seq<char>)
    requires
        spec_calc(a) is Ok,
        spec_calc(b) is Ok,
        is_op_char(op),
    ensures
        spec_calc(seq!['('] + a + seq![')'] + seq![op] + (seq!['('] + b + seq![')'])) == apply(
            op,
            spec_calc(a)->Ok_0,
            spec_calc(b)->Ok_0,
        ),
{
    let x = spec_calc(a)->Ok_0;
    let y = spec_calc(b)->Ok_0;
    lemma_calc_parts(a);
    lemma_calc_parts(b);
    let ta = spec_tokenize(a)->Ok_0;
    let tb = spec_tokenize(b)->Ok_0;
    let ra = spec_to_rpn(ta)->Ok_0;
    let rb = spec_to_rpn(tb)->Ok_0;

    // tokens
    let wa = seq!['('] + a + seq![')'];
    let wb = seq!['('] + b + seq![')'];
    let opb = seq![op] + wb;
    lemma_tokenize_wrapped(a);
    lemma_tokenize_wrapped(b);
    assert(wa.last() == ')');
    lemma_tokenize_concat(wa, opb);
    assert(opb[0] == op);
    lemma_tokenize_concat(seq![op], wb);
    lemma_tokenize_char(op);
    assert(wa + seq![op] + wb =~= wa + opb);
    let close = seq![Token::Close];
    let toks_b = seq![Token::Open] + (tb + close);
    let toks = seq![Token::Open] + (ta + close) + (seq![Token::Op(op)] + toks_b);
    assert(spec_tokenize(wa + opb) == Ok::<Seq<Token>, CalcError>(toks));

    // shunting-yard
    let e: Seq<Token> = seq![];
    let rest = seq![Token::Op(op)] + toks_b;
    let p = crate::calc::prec(op);
    let open1 = e.push(Token::Open);
    assert(toks[0] == Token::Open);
    assert(toks.drop_first() =~= ta + (close + rest));
    assert(shunt(toks, e, e) == shunt(ta + (close + rest), e, open1));
    assert(open1 =~= open1 + e);
    lemma_shunt_nested(ta, rest, e, e, e);
    assert(shunt(ta, e, e) == Ok::<Seq<Token>, CalcError>(ra));
    assert(shunt(toks, e, e) == shunt(rest, ra, e));
    assert(rest[0] == Token::Op(op));
    assert(rest.drop_first() =~= toks_b);
    assert(!top_at_least(e, p));
    assert(pop_at_least(ra, e, p) == (ra, e));
    let st1 = e.push(Token::Op(op));
    assert(shunt(rest, ra, e) == shunt(toks_b, ra, st1));
    assert(toks_b[0] == Token::Open);
    assert(toks_b.drop_first() =~= tb + (close + e));
    let open2 = st1.push(Token::Open);
    assert(shunt(toks_b, ra, st1) == shunt(tb + (close + e), ra, open2));
    assert(open2 =~= open2 + e);
    lemma_shunt_prefix(ra, tb, e, e);
    assert(ra + e =~= ra);
    assert(shunt(tb, e, e) == Ok::<Seq<Token>, CalcError>(rb));
    assert(shunt(tb, ra, e) == Ok::<Seq<Token>, CalcError>(ra + rb));
    lemma_shunt_nested(tb, e, ra, e, st1);
    let o = ra + rb;
    assert(shunt(toks_b, ra, st1) == shunt(e, o, st1));
    assert(st1.last() == Token::Op(op));
    assert(st1.drop_last() =~= e);
    let rpn = o.push(Token::Op(op));
    assert(drain(o, st1) == drain(rpn, e));
    assert(spec_to_rpn(toks) == Ok::<Seq<Token>, CalcError>(rpn));

    // evaluation
    let opn = seq![Token::Op(op)];
    let ei: Seq<i64> = seq![];
    assert(rpn =~= ra + (rb + opn));
    assert(rpn_run(ra, ei) == Ok::<Seq<i64>, Halt>(seq![x]));
    lemma_run_concat(ra, rb + opn, ei);
    assert(rpn_run(rpn, ei) == rpn_run(rb + opn, seq![x]));
    assert(rpn_run(rb, ei) == Ok::<Seq<i64>, Halt>(seq![y]));
    lemma_run_base(rb, seq![x], ei);
    assert(seq![x] + ei =~= seq![x]);
    let s2 = seq![x] + seq![y];
    assert(rpn_run(rb, seq![x]) == Ok::<Seq<i64>, Halt>(s2));
    lemma_run_concat(rb, opn, seq![x]);
    assert(rpn_run(rb + opn, seq![x]) == rpn_run(opn, s2));
    assert(s2.len() == 2);
    assert(s2.last() == y);
    assert(s2.drop_last() =~= seq![x]);
    assert(s2.drop_last().last() == x);
    assert(s2.drop_last().drop_last() =~= ei);
    assert(opn[0] == Token::Op(op));
    assert(opn.drop_first() =~= Seq::<Token>::empty());
    match apply(op, x, y) {
        Ok(v) => {
            assert(ei.push(v) =~= seq![v]);
            assert(s2.drop_last().drop_last().push(v) =~= seq![v]);
            assert(rpn_run(Seq::<Token>::empty(), seq![v]) == Ok::<Seq<i64>, Halt>(seq![v]));
            assert(rpn_run(opn, s2) == Ok::<Seq<i64>, Halt>(seq![v]));
            assert(spec_eval_rpn(rpn) == Ok::<i64, Halt>(v));
        },
        Err(h) => {
            assert(rpn_run(opn, s2) == Err::<Seq<i64>, Halt>(h));
        },
    }
}

} // verus!
