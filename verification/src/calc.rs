//! An integer expression calculator: a tokenizer, the shunting-yard
//! conversion to reverse Polish notation, and a stack evaluator.
//!
//! Numbers are non-negative `i64` literals, the operators are `+ - * /`
//! (with `*` and `/` binding tighter, all left-associative), and
//! parentheses group. Every arithmetic step is checked: overflow and
//! division by zero are reported as errors.
use vstd::prelude::*;

verus! {

/// A lexical unit of an expression.
#[derive(Debug, Clone, Copy)]
pub enum Token {
    Num(i64),
    Op(char),
    Open,
    Close,
}

/// The reasons a calculation is rejected.
pub enum CalcError {
    /// A character that is neither a digit, blank, operator nor parenthesis.
    UnknownChar(char),
    /// A literal that does not fit in `i64`.
    NumberTooLarge,
    /// A `)` with no matching `(`.
    UnmatchedClose,
    /// A `(` that is never closed.
    UnclosedOpen,
    /// An operator with fewer than two operands on the stack.
    MissingOperand,
    /// An arithmetic result outside the `i64` range.
    Overflow,
    /// A division whose divisor is zero.
    DivisionByZero,
    /// A parenthesis inside reverse Polish notation.
    ParenInRpn,
    /// Reverse Polish notation that leaves no value.
    EmptyExpression,
    /// Reverse Polish notation that leaves more than one value.
    Malformed,
}

/// How an evaluation stops without a value: with an error, or by trapping
/// on the one division that `i64` cannot represent (`i64::MIN / -1`),
/// which panics in Rust.
pub enum Halt {
    Error(CalcError),
    Trap,
}

// ---------------------------------------------------------------------------
// Characters
// ---------------------------------------------------------------------------

pub open spec fn is_blank(c: char) -> bool {
    c == ' ' || c == '\t'
}

pub open spec fn is_digit(c: char) -> bool {
    '0' <= c && c <= '9'
}

pub open spec fn digit_value(c: char) -> int {
    c as int - '0' as int
}

pub open spec fn is_op_char(c: char) -> bool {
    c == '+' || c == '-' || c == '*' || c == '/'
}

/// Number of decimal digits at the start of `s`.
pub open spec fn leading_digits(s: Seq<char>) -> nat
    decreases s.len(),
{
    if s.len() > 0 && is_digit(s[0]) {
        1 + leading_digits(s.drop_first())
    } else {
        0
    }
}

/// The value of a string of decimal digits, most significant first.
pub open spec fn digits_value(d: Seq<char>) -> int
    decreases d.len(),
{
    if d.len() == 0 {
        0
    } else {
        digits_value(d.drop_last()) * 10 + digit_value(d.last())
    }
}

/// `std`'s `Debug` rendering of a character (quoted and escaped).
pub uninterp spec fn char_debug(c: char) -> Seq<char>;

/// The text of each error.
pub open spec fn message(e: CalcError) -> Seq<char> {
    match e {
        CalcError::UnknownChar(c) => "неизвестный символ: "@ + char_debug(c),
        CalcError::NumberTooLarge => "число слишком большое, разбор прерван"@,
        CalcError::UnmatchedClose => "лишняя закрывающая скобка"@,
        CalcError::UnclosedOpen => "незакрытая скобка"@,
        CalcError::MissingOperand => "не хватает операнда"@,
        CalcError::Overflow => "переполнение"@,
        CalcError::DivisionByZero => "деление на ноль"@,
        CalcError::ParenInRpn => "скобка в RPN"@,
        CalcError::EmptyExpression => "пустое выражение"@,
        CalcError::Malformed => "некорректное выражение"@,
    }
}

// ---------------------------------------------------------------------------
// Tokenizing
// ---------------------------------------------------------------------------

/// Puts `ts` in front of a successful token sequence; passes an error on.
pub open spec fn prefix_tokens(
    ts: Seq<Token>,
    r: Result<Seq<Token>, CalcError>,
) -> Result<Seq<Token>, CalcError> {
    match r {
        Ok(rest) => Ok(ts + rest),
        Err(e) => Err(e),
    }
}

/// The tokens of `s`, read left to right: blanks are skipped, a maximal run
/// of digits is one number, and the first offending character decides the
/// error.
pub open spec fn spec_tokenize(s: Seq<char>) -> Result<Seq<Token>, CalcError>
    decreases s.len(),
{
    if s.len() == 0 {
        Ok(seq![])
    } else {
        let c = s[0];
        if is_blank(c) {
            spec_tokenize(s.drop_first())
        } else if is_digit(c) {
            let k = leading_digits(s);
            proof {
                lemma_leading_digits(s);
            }
            let v = digits_value(s.take(k as int));
            if v > i64::MAX {
                Err(CalcError::NumberTooLarge)
            } else {
                prefix_tokens(seq![Token::Num(v as i64)], spec_tokenize(s.skip(k as int)))
            }
        } else if is_op_char(c) {
            prefix_tokens(seq![Token::Op(c)], spec_tokenize(s.drop_first()))
        } else if c == '(' {
            prefix_tokens(seq![Token::Open], spec_tokenize(s.drop_first()))
        } else if c == ')' {
            prefix_tokens(seq![Token::Close], spec_tokenize(s.drop_first()))
        } else {
            Err(CalcError::UnknownChar(c))
        }
    }
}

/// No token is a parenthesis.
pub open spec fn no_parens(ts: Seq<Token>) -> bool {
    forall|i: int| 0 <= i < ts.len() ==> !(#[trigger] ts[i] is Open || ts[i] is Close)
}

/// Every token is an operator or an opening parenthesis.
pub open spec fn ops_or_open(ts: Seq<Token>) -> bool {
    forall|i: int| 0 <= i < ts.len() ==> (#[trigger] ts[i] is Op || ts[i] is Open)
}

/// Every operator token carries one of `+ - * /`.
pub open spec fn ops_valid(ts: Seq<Token>) -> bool {
    forall|i: int| 0 <= i < ts.len() ==> (#[trigger] ts[i] matches Token::Op(c) ==> is_op_char(c))
}

// ---------------------------------------------------------------------------
// Shunting-yard
// ---------------------------------------------------------------------------

/// Precedence of an operator: `*` and `/` bind tighter than `+` and `-`.
pub open spec fn prec(c: char) -> int {
    if c == '*' || c == '/' {
        2
    } else {
        1
    }
}

/// The operator stack's top is an operator of precedence at least `p`.
pub open spec fn top_at_least(stack: Seq<Token>, p: int) -> bool {
    stack.len() > 0 && (stack.last() matches Token::Op(t) && prec(t) >= p)
}

/// Moves operators of precedence at least `p` from the top of the stack to
/// the output.
pub open spec fn pop_at_least(out: Seq<Token>, stack: Seq<Token>, p: int) -> (Seq<Token>, Seq<Token>)
    decreases stack.len(),
{
    if top_at_least(stack, p) {
        pop_at_least(out.push(stack.last()), stack.drop_last(), p)
    } else {
        (out, stack)
    }
}

/// Moves operators to the output up to the nearest `(`, which is dropped;
/// `None` when the stack holds no `(`.
pub open spec fn pop_to_open(out: Seq<Token>, stack: Seq<Token>) -> Option<(Seq<Token>, Seq<Token>)>
    decreases stack.len(),
{
    if stack.len() == 0 {
        None
    } else if stack.last() is Open {
        Some((out, stack.drop_last()))
    } else {
        pop_to_open(out.push(stack.last()), stack.drop_last())
    }
}

/// Moves the whole stack to the output; a `(` left on it is an error.
pub open spec fn drain(out: Seq<Token>, stack: Seq<Token>) -> Result<Seq<Token>, CalcError>
    decreases stack.len(),
{
    if stack.len() == 0 {
        Ok(out)
    } else if stack.last() is Open {
        Err(CalcError::UnclosedOpen)
    } else {
        drain(out.push(stack.last()), stack.drop_last())
    }
}

/// Shunting-yard over the remaining tokens, from an output and a stack.
pub open spec fn shunt(toks: Seq<Token>, out: Seq<Token>, stack: Seq<Token>) -> Result<Seq<Token>, CalcError>
    decreases toks.len(),
{
    if toks.len() == 0 {
        drain(out, stack)
    } else {
        let rest = toks.drop_first();
        match toks[0] {
            Token::Num(_) => shunt(rest, out.push(toks[0]), stack),
            Token::Op(op) => {
                let (o, s) = pop_at_least(out, stack, prec(op));
                shunt(rest, o, s.push(Token::Op(op)))
            },
            Token::Open => shunt(rest, out, stack.push(Token::Open)),
            Token::Close => match pop_to_open(out, stack) {
                Some((o, s)) => shunt(rest, o, s),
                None => Err(CalcError::UnmatchedClose),
            },
        }
    }
}

pub open spec fn spec_to_rpn(toks: Seq<Token>) -> Result<Seq<Token>, CalcError> {
    shunt(toks, seq![], seq![])
}

// ---------------------------------------------------------------------------
// Evaluation
// ---------------------------------------------------------------------------

/// One checked arithmetic step, `a op b`; division truncates toward zero.
pub open spec fn apply(op: char, a: i64, b: i64) -> Result<i64, Halt> {
    if op == '+' {
        match a.checked_add(b) {
            Some(v) => Ok(v),
            None => Err(Halt::Error(CalcError::Overflow)),
        }
    } else if op == '-' {
        match a.checked_sub(b) {
            Some(v) => Ok(v),
            None => Err(Halt::Error(CalcError::Overflow)),
        }
    } else if op == '*' {
        match a.checked_mul(b) {
            Some(v) => Ok(v),
            None => Err(Halt::Error(CalcError::Overflow)),
        }
    } else if b == 0 {
        Err(Halt::Error(CalcError::DivisionByZero))
    } else {
        match a.checked_div(b) {
            Some(v) => Ok(v),
            None => Err(Halt::Trap),
        }
    }
}

/// `r` is `exact` (the mathematical value of a sum, difference or product)
/// when it fits in `i64`, and an overflow otherwise.
pub open spec fn checked_result(exact: int, r: Result<i64, Halt>) -> bool {
    if i64::MIN <= exact <= i64::MAX {
        r == Ok::<i64, Halt>(exact as i64)
    } else {
        r == Err::<i64, Halt>(Halt::Error(CalcError::Overflow))
    }
}

/// `q` is `a / b` truncated toward zero: the remainder `a - q * b` is
/// smaller than `b` in size and has the sign of `a` (or is zero).
pub open spec fn truncated_quotient(a: int, b: int, q: int) -> bool {
    let r = a - q * b;
    &&& (if r < 0 { -r } else { r }) < (if b < 0 { -b } else { b })
    &&& (r == 0 || (r < 0) == (a < 0))
}

proof fn lemma_trunc_div_pos(x: int, d: int)
    requires
        x >= 0,
        d > 0,
    ensures
        0 <= x - (x / d) * d < d,
        x / d >= 0,
{
    vstd::arithmetic::div_mod::lemma_fundamental_div_mod(x, d);
    assert(x / d >= 0) by (nonlinear_arith)
        requires
            x >= 0,
            d > 0,
    ;
    assert((x / d) * d == d * (x / d)) by (nonlinear_arith);
}

/// Each operator step computes the mathematical result: sums, differences
/// and products are exact when they fit in `i64` and overflow otherwise;
/// division by zero is refused, `i64::MIN / -1` traps, and every other
/// division truncates toward zero.
pub proof fn law_apply_is_arithmetic(op: char, a: i64, b: i64)
    ensures
        op == '+' ==> checked_result(a + b, apply(op, a, b)),
        op == '-' ==> checked_result(a - b, apply(op, a, b)),
        op == '*' ==> checked_result(a * b, apply(op, a, b)),
        op == '/' && b == 0 ==> apply(op, a, b) == Err::<i64, Halt>(Halt::Error(CalcError::DivisionByZero)),
        op == '/' && a == i64::MIN && b == -1 ==> apply(op, a, b) == Err::<i64, Halt>(Halt::Trap),
        op == '/' && b != 0 && !(a == i64::MIN && b == -1) ==> (apply(op, a, b) matches Ok(q)
            && truncated_quotient(a as int, b as int, q as int)),
{
    if op == '/' && b != 0 && !(a == i64::MIN && b == -1) {
        let x = a as int;
        let d = b as int;
        if x == 0 {
        } else if x > 0 && d > 0 {
            lemma_trunc_div_pos(x, d);
            assert(x / d <= x) by (nonlinear_arith)
                requires
                    x > 0,
                    d > 0,
            ;
        } else if x < 0 && d < 0 {
            lemma_trunc_div_pos(-x, -d);
            let q = (x * -1) / (d * -1);
            assert(q <= -x) by (nonlinear_arith)
                requires
                    q == (-x) / (-d),
                    -x > 0,
                    -d > 0,
            ;
            assert(q * (-d) == -(q * d)) by (nonlinear_arith);
            if x == i64::MIN as int {
                assert(q <= i64::MAX) by (nonlinear_arith)
                    requires
                        q == (-x) / (-d),
                        -x == 0x8000_0000_0000_0000,
                        -d >= 2,
                ;
            }
        } else if x < 0 {
            lemma_trunc_div_pos(-x, d);
            let q0 = (x * -1) / d;
            assert(q0 <= -x) by (nonlinear_arith)
                requires
                    q0 == (-x) / d,
                    -x > 0,
                    d > 0,
            ;
            assert((q0 * -1) * d == -(q0 * d)) by (nonlinear_arith);
        } else {
            lemma_trunc_div_pos(x, -d);
            let q0 = x / (d * -1);
            assert(q0 <= x) by (nonlinear_arith)
                requires
                    q0 == x / (-d),
                    x > 0,
                    -d > 0,
            ;
            assert((q0 * -1) * d == q0 * (-d)) by (nonlinear_arith);
        }
    }
}

/// Runs reverse Polish notation on a value stack.
pub open spec fn rpn_run(rpn: Seq<Token>, st: Seq<i64>) -> Result<Seq<i64>, Halt>
    decreases rpn.len(),
{
    if rpn.len() == 0 {
        Ok(st)
    } else {
        let rest = rpn.drop_first();
        match rpn[0] {
            Token::Num(n) => rpn_run(rest, st.push(n)),
            Token::Op(op) => {
                if st.len() < 2 {
                    Err(Halt::Error(CalcError::MissingOperand))
                } else {
                    let b = st.last();
                    let a = st.drop_last().last();
                    match apply(op, a, b) {
                        Ok(v) => rpn_run(rest, st.drop_last().drop_last().push(v)),
                        Err(h) => Err(h),
                    }
                }
            },
            _ => Err(Halt::Error(CalcError::ParenInRpn)),
        }
    }
}

/// The value of reverse Polish notation: exactly one value must remain.
pub open spec fn spec_eval_rpn(rpn: Seq<Token>) -> Result<i64, Halt> {
    match rpn_run(rpn, seq![]) {
        Ok(st) => if st.len() == 0 {
            Err(Halt::Error(CalcError::EmptyExpression))
        } else if st.len() > 1 {
            Err(Halt::Error(CalcError::Malformed))
        } else {
            Ok(st[0])
        },
        Err(h) => Err(h),
    }
}

/// The whole calculation on the characters of a source text.
pub open spec fn spec_calc(s: Seq<char>) -> Result<i64, Halt> {
    match spec_tokenize(s) {
        Err(e) => Err(Halt::Error(e)),
        Ok(toks) => match spec_to_rpn(toks) {
            Err(e) => Err(Halt::Error(e)),
            Ok(rpn) => spec_eval_rpn(rpn),
        },
    }
}

// ---------------------------------------------------------------------------
// What an executable result reports
// ---------------------------------------------------------------------------

pub open spec fn reports_tokens(r: Result<Vec<Token>, String>, s: Result<Seq<Token>, CalcError>) -> bool {
    match (r, s) {
        (Ok(v), Ok(ts)) => v@ == ts,
        (Err(m), Err(e)) => m@ == message(e),
        _ => false,
    }
}

pub open spec fn reports_value(r: Result<i64, String>, s: Result<i64, Halt>) -> bool {
    match (r, s) {
        (Ok(v), Ok(w)) => v == w,
        (Err(m), Err(Halt::Error(e))) => m@ == message(e),
        _ => false,
    }
}

// ---------------------------------------------------------------------------
// Lemmas
// ---------------------------------------------------------------------------

pub proof fn lemma_leading_digits(s: Seq<char>)
    ensures
        leading_digits(s) <= s.len(),
        s.len() > 0 && is_digit(s[0]) ==> leading_digits(s) >= 1,
        forall|k: int| 0 <= k < leading_digits(s) ==> is_digit(#[trigger] s[k]),
        leading_digits(s) < s.len() ==> !is_digit(s[leading_digits(s) as int]),
    decreases s.len(),
{
    if s.len() > 0 && is_digit(s[0]) {
        lemma_leading_digits(s.drop_first());
        assert forall|k: int| 0 <= k < leading_digits(s) implies is_digit(#[trigger] s[k]) by {
            if k > 0 {
                assert(s[k] == s.drop_first()[k - 1]);
            }
        }
    }
}

/// A run of digits followed by a non-digit (or the end) is the leading run.
pub proof fn lemma_leading_digits_exact(s: Seq<char>, m: int)
    requires
        0 <= m <= s.len(),
        forall|k: int| 0 <= k < m ==> is_digit(#[trigger] s[k]),
        m < s.len() ==> !is_digit(s[m]),
    ensures
        leading_digits(s) == m,
    decreases m,
{
    if m > 0 {
        let t = s.drop_first();
        assert forall|k: int| 0 <= k < m - 1 implies is_digit(#[trigger] t[k]) by {
            assert(t[k] == s[k + 1]);
        }
        if m < s.len() {
            assert(t[m - 1] == s[m]);
        }
        lemma_leading_digits_exact(t, m - 1);
    }
}

pub proof fn lemma_digits_value_nonneg(d: Seq<char>)
    requires
        forall|k: int| 0 <= k < d.len() ==> is_digit(#[trigger] d[k]),
    ensures
        digits_value(d) >= 0,
    decreases d.len(),
{
    if d.len() > 0 {
        let t = d.drop_last();
        assert forall|k: int| 0 <= k < t.len() implies is_digit(#[trigger] t[k]) by {
            assert(t[k] == d[k]);
        }
        lemma_digits_value_nonneg(t);
        assert(is_digit(d[d.len() - 1]));
    }
}

/// Appending digits never decreases the value.
pub proof fn lemma_digits_value_prefix(d: Seq<char>, p: int)
    requires
        0 <= p <= d.len(),
        forall|k: int| 0 <= k < d.len() ==> is_digit(#[trigger] d[k]),
    ensures
        digits_value(d.take(p)) <= digits_value(d),
    decreases d.len(),
{
    if p < d.len() {
        let t = d.drop_last();
        assert forall|k: int| 0 <= k < t.len() implies is_digit(#[trigger] t[k]) by {
            assert(t[k] == d[k]);
        }
        lemma_digits_value_prefix(t, p);
        assert(t.take(p) =~= d.take(p));
        lemma_digits_value_nonneg(t);
        assert(is_digit(d[d.len() - 1]));
    } else {
        assert(d.take(p) =~= d);
    }
}

proof fn lemma_pop_at_least_shape(out: Seq<Token>, stack: Seq<Token>, p: int)
    requires
        no_parens(out),
        ops_or_open(stack),
    ensures
        no_parens(pop_at_least(out, stack, p).0),
        ops_or_open(pop_at_least(out, stack, p).1),
    decreases stack.len(),
{
    if top_at_least(stack, p) {
        let s = stack.drop_last();
        assert forall|i: int| 0 <= i < s.len() implies (#[trigger] s[i] is Op || s[i] is Open) by {
            assert(s[i] == stack[i]);
        }
        lemma_pop_at_least_shape(out.push(stack.last()), s, p);
    }
}

proof fn lemma_pop_to_open_shape(out: Seq<Token>, stack: Seq<Token>)
    requires
        no_parens(out),
        ops_or_open(stack),
    ensures
        pop_to_open(out, stack) matches Some((o, s)) ==> no_parens(o) && ops_or_open(s),
    decreases stack.len(),
{
    if stack.len() > 0 {
        let s = stack.drop_last();
        assert forall|i: int| 0 <= i < s.len() implies (#[trigger] s[i] is Op || s[i] is Open) by {
            assert(s[i] == stack[i]);
        }
        assert(stack[stack.len() - 1] == stack.last());
        if !(stack.last() is Open) {
            lemma_pop_to_open_shape(out.push(stack.last()), s);
        }
    }
}

proof fn lemma_drain_shape(out: Seq<Token>, stack: Seq<Token>)
    requires
        no_parens(out),
        ops_or_open(stack),
    ensures
        drain(out, stack) matches Ok(o) ==> no_parens(o),
        drain(out, stack) matches Err(e) ==> e is UnclosedOpen,
    decreases stack.len(),
{
    if stack.len() > 0 {
        let s = stack.drop_last();
        assert forall|i: int| 0 <= i < s.len() implies (#[trigger] s[i] is Op || s[i] is Open) by {
            assert(s[i] == stack[i]);
        }
        assert(stack[stack.len() - 1] == stack.last());
        if !(stack.last() is Open) {
            lemma_drain_shape(out.push(stack.last()), s);
        }
    }
}

proof fn lemma_shunt_shape(toks: Seq<Token>, out: Seq<Token>, stack: Seq<Token>)
    requires
        no_parens(out),
        ops_or_open(stack),
    ensures
        shunt(toks, out, stack) matches Ok(o) ==> no_parens(o),
        shunt(toks, out, stack) matches Err(e) ==> e is UnclosedOpen || e is UnmatchedClose,
    decreases toks.len(),
{
    if toks.len() == 0 {
        lemma_drain_shape(out, stack);
    } else {
        let rest = toks.drop_first();
        match toks[0] {
            Token::Num(_) => {
                lemma_shunt_shape(rest, out.push(toks[0]), stack);
            },
            Token::Op(op) => {
                lemma_pop_at_least_shape(out, stack, prec(op));
                let (o, s) = pop_at_least(out, stack, prec(op));
                lemma_shunt_shape(rest, o, s.push(Token::Op(op)));
            },
            Token::Open => {
                lemma_shunt_shape(rest, out, stack.push(Token::Open));
            },
            Token::Close => {
                lemma_pop_to_open_shape(out, stack);
                match pop_to_open(out, stack) {
                    Some((o, s)) => {
                        lemma_shunt_shape(rest, o, s);
                    },
                    None => {},
                }
            },
        }
    }
}

proof fn lemma_run_no_parens(rpn: Seq<Token>, st: Seq<i64>)
    requires
        no_parens(rpn),
    ensures
        rpn_run(rpn, st) != Err::<Seq<i64>, Halt>(Halt::Error(CalcError::ParenInRpn)),
    decreases rpn.len(),
{
    if rpn.len() > 0 {
        let rest = rpn.drop_first();
        assert forall|i: int| 0 <= i < rest.len() implies !(#[trigger] rest[i] is Open || rest[i] is Close) by {
            assert(rest[i] == rpn[i + 1]);
        }
        assert(!(rpn[0] is Open || rpn[0] is Close));
        match rpn[0] {
            Token::Num(n) => {
                lemma_run_no_parens(rest, st.push(n));
            },
            Token::Op(op) => {
                if st.len() >= 2 {
                    let b = st.last();
                    let a = st.drop_last().last();
                    if let Ok(v) = apply(op, a, b) {
                        lemma_run_no_parens(rest, st.drop_last().drop_last().push(v));
                    }
                }
            },
            _ => {},
        }
    }
}

proof fn lemma_tokenize_errors(s: Seq<char>)
    ensures
        spec_tokenize(s) matches Err(e) ==> e is UnknownChar || e is NumberTooLarge,
    decreases s.len(),
{
    if s.len() > 0 {
        let c = s[0];
        lemma_leading_digits(s);
        if is_blank(c) {
            lemma_tokenize_errors(s.drop_first());
        } else if is_digit(c) {
            lemma_tokenize_errors(s.skip(leading_digits(s) as int));
        } else {
            lemma_tokenize_errors(s.drop_first());
        }
    }
}

/// Shunting-yard writes no parentheses, so a calculation never fails with
/// a parenthesis in reverse Polish notation.
pub proof fn law_calc_never_sees_paren_in_rpn(s: Seq<char>)
    ensures
        spec_calc(s) != Err::<i64, Halt>(Halt::Error(CalcError::ParenInRpn)),
{
    lemma_tokenize_errors(s);
    if let Ok(toks) = spec_tokenize(s) {
        lemma_shunt_shape(toks, seq![], seq![]);
        if let Ok(rpn) = spec_to_rpn(toks) {
            lemma_run_no_parens(rpn, seq![]);
        }
    }
}

// ---------------------------------------------------------------------------
// Executable code
// ---------------------------------------------------------------------------

/// `std`'s `Debug` formatting of a character.
#[verifier::external_body]
fn char_debug_text(c: char) -> (s: String)
    ensures
        s@ == char_debug(c),
{
    format!("{c:?}")
}

fn error_text(s: &str) -> (m: String)
    ensures
        m@ == s@,
{
    s.to_owned()
}

fn is_digit_char(c: char) -> (b: bool)
    ensures
        b == is_digit(c),
{
    '0' <= c && c <= '9'
}

/// Splits a source text into tokens.
pub fn tokenize(src: &str) -> (r: Result<Vec<Token>, String>)
    ensures
        reports_tokens(r, spec_tokenize(src@)),
        r is Ok ==> ops_valid(r->Ok_0@),
{
    let mut cs: Vec<char> = Vec::new();
    for c in it: src.chars()
        invariant
            cs@ == it.seq().take(it.index() as int),
            it.seq() == src@,
    {
        cs.push(c);
    }
    assert(cs@ =~= src@);

    let mut out: Vec<Token> = Vec::new();
    let mut i: usize = 0;
    assert(cs@.skip(0) =~= cs@);
    while i < cs.len()
        invariant
            i <= cs.len(),
            cs@ == src@,
            spec_tokenize(cs@) == prefix_tokens(out@, spec_tokenize(cs@.skip(i as int))),
            ops_valid(out@),
        decreases cs.len() - i,
    {
        let c = cs[i];
        let ghost rest = cs@.skip(i as int);
        assert(rest[0] == c);
        assert(rest.drop_first() =~= cs@.skip(i + 1));
        if c == ' ' || c == '\t' {
            i = i + 1;
        } else if is_digit_char(c) {
            let start = i;
            let mut n: i64 = 0;
            assert(cs@.subrange(start as int, start as int) =~= seq![]);
            while i < cs.len() && is_digit_char(cs[i])
                invariant
                    start <= i <= cs.len(),
                    rest == cs@.skip(start as int),
                    cs@ == src@,
                    spec_tokenize(cs@) == prefix_tokens(out@, spec_tokenize(rest)),
                    forall|k: int| start <= k < i ==> is_digit(#[trigger] cs@[k]),
                    n == digits_value(cs@.subrange(start as int, i as int)),
                decreases cs.len() - i,
            {
                let d = cs[i];
                let dv = (d as u32 - '0' as u32) as i64;
                proof {
                    let sub = cs@.subrange(start as int, i + 1);
                    assert(sub.drop_last() =~= cs@.subrange(start as int, i as int));
                    assert(sub.last() == d);
                }
                let next = match n.checked_mul(10) {
                    Some(m) => m.checked_add(dv),
                    None => None,
                };
                match next {
                    Some(v) => {
                        n = v;
                    },
                    None => {
                        proof {
                            let k = leading_digits(rest);
                            lemma_leading_digits(rest);
                            let m = (i + 1 - start) as int;
                            lemma_digits_value_nonneg(cs@.subrange(start as int, i as int));
                            // the digits read so far all belong to the leading run
                            assert forall|j: int| 0 <= j < m implies is_digit(#[trigger] rest[j]) by {
                                assert(rest[j] == cs@[start + j]);
                            }
                            lemma_run_covers(rest, m);
                            let run = rest.take(k as int);
                            assert(run.take(m) =~= cs@.subrange(start as int, i + 1));
                            lemma_digits_value_prefix(run, m);
                            assert(n * 10 + dv > i64::MAX);
                            assert(digits_value(run) > i64::MAX);
                            assert(spec_tokenize(rest) == Err::<Seq<Token>, CalcError>(CalcError::NumberTooLarge));
                        }
                        return Err(error_text("число слишком большое, разбор прерван"));
                    },
                }
                i = i + 1;
            }
            proof {
                let m = (i - start) as int;
                assert forall|j: int| 0 <= j < m implies is_digit(#[trigger] rest[j]) by {
                    assert(rest[j] == cs@[start + j]);
                }
                if m < rest.len() {
                    assert(rest[m] == cs@[i as int]);
                }
                lemma_leading_digits_exact(rest, m);
                assert(rest.take(m) =~= cs@.subrange(start as int, i as int));
                assert(rest.skip(m) =~= cs@.skip(i as int));
                assert(out@.push(Token::Num(n)) =~= out@ + seq![Token::Num(n)]);
                assert(spec_tokenize(rest) == prefix_tokens(seq![Token::Num(n)], spec_tokenize(cs@.skip(i as int))));
                lemma_prefix_tokens_assoc(out@, seq![Token::Num(n)], spec_tokenize(cs@.skip(i as int)));
            }
            out.push(Token::Num(n));
        } else if c == '+' || c == '-' || c == '*' || c == '/' {
            assert(out@.push(Token::Op(c)) =~= out@ + seq![Token::Op(c)]);
            proof {
                lemma_prefix_tokens_assoc(out@, seq![Token::Op(c)], spec_tokenize(cs@.skip(i + 1)));
            }
            out.push(Token::Op(c));
            i = i + 1;
        } else if c == '(' {
            assert(out@.push(Token::Open) =~= out@ + seq![Token::Open]);
            proof {
                lemma_prefix_tokens_assoc(out@, seq![Token::Open], spec_tokenize(cs@.skip(i + 1)));
            }
            out.push(Token::Open);
            i = i + 1;
        } else if c == ')' {
            assert(out@.push(Token::Close) =~= out@ + seq![Token::Close]);
            proof {
                lemma_prefix_tokens_assoc(out@, seq![Token::Close], spec_tokenize(cs@.skip(i + 1)));
            }
            out.push(Token::Close);
            i = i + 1;
        } else {
            let mut m = error_text("неизвестный символ: ");
            let shown = char_debug_text(c);
            m.append(shown.as_str());
            return Err(m);
        }
        proof {
            assert forall|k: int| 0 <= k < out@.len() implies (#[trigger] out@[k] matches Token::Op(ch) ==> is_op_char(ch)) by {
            }
        }
    }
    assert(cs@.skip(i as int) =~= seq![]);
    assert(out@ + seq![] =~= out@);
    Ok(out)
}

proof fn lemma_prefix_tokens_assoc(a: Seq<Token>, b: Seq<Token>, r: Result<Seq<Token>, CalcError>)
    ensures
        prefix_tokens(a, prefix_tokens(b, r)) == prefix_tokens(a + b, r),
{
    match r {
        Ok(t) => {
            assert(a + (b + t) =~= (a + b) + t);
        },
        Err(_) => {},
    }
}

/// The first `m` characters are digits, so the leading run is at least `m` long.
proof fn lemma_run_covers(s: Seq<char>, m: int)
    requires
        0 <= m <= s.len(),
        forall|j: int| 0 <= j < m ==> is_digit(#[trigger] s[j]),
    ensures
        leading_digits(s) >= m,
        forall|j: int| 0 <= j < leading_digits(s) ==> is_digit(#[trigger] s.take(leading_digits(s) as int)[j]),
    decreases m,
{
    lemma_leading_digits(s);
    if m > 0 {
        let t = s.drop_first();
        assert forall|j: int| 0 <= j < m - 1 implies is_digit(#[trigger] t[j]) by {
            assert(t[j] == s[j + 1]);
        }
        lemma_run_covers(t, m - 1);
    }
}


fn precedence(op: char) -> (p: u8)
    ensures
        p as int == prec(op),
{
    if op == '*' || op == '/' {
        2
    } else {
        1
    }
}

fn top_binds_at_least(stack: &Vec<Token>, p: u8) -> (b: bool)
    ensures
        b == top_at_least(stack@, p as int),
{
    if stack.len() == 0 {
        return false;
    }
    match stack[stack.len() - 1] {
        Token::Op(t) => precedence(t) >= p,
        _ => false,
    }
}

/// Converts infix tokens to reverse Polish notation (shunting-yard).
fn to_rpn(tokens: Vec<Token>) -> (r: Result<Vec<Token>, String>)
    requires
        ops_valid(tokens@),
    ensures
        reports_tokens(r, spec_to_rpn(tokens@)),
        r is Ok ==> ops_valid(r->Ok_0@) && no_parens(r->Ok_0@),
{
    let mut out: Vec<Token> = Vec::new();
    let mut stack: Vec<Token> = Vec::new();
    let mut i: usize = 0;
    assert(tokens@.skip(0) =~= tokens@);
    while i < tokens.len()
        invariant
            i <= tokens.len(),
            ops_valid(tokens@),
            ops_valid(out@),
            ops_valid(stack@),
            no_parens(out@),
            ops_or_open(stack@),
            spec_to_rpn(tokens@) == shunt(tokens@.skip(i as int), out@, stack@),
        decreases tokens.len() - i,
    {
        let tok = tokens[i];
        assert(tokens@.skip(i as int)[0] == tok);
        assert(tokens@.skip(i as int).drop_first() =~= tokens@.skip(i + 1));
        match tok {
            Token::Num(_) => {
                out.push(tok);
            },
            Token::Op(op) => {
                let p = precedence(op);
                let ghost popped = pop_at_least(out@, stack@, p as int);
                while top_binds_at_least(&stack, p)
                    invariant
                        ops_valid(out@),
                        ops_valid(stack@),
                        no_parens(out@),
                        ops_or_open(stack@),
                        popped == pop_at_least(out@, stack@, p as int),
                    decreases stack.len(),
                {
                    let ghost s0 = stack@;
                    let top = stack.pop().unwrap();
                    assert(top == s0.last());
                    assert(top is Op);
                    out.push(top);
                }
                assert(is_op_char(op)) by {
                    assert(tokens@[i as int] == tok);
                }
                stack.push(Token::Op(op));
            },
            Token::Open => {
                stack.push(Token::Open);
            },
            Token::Close => {
                let ghost closed = pop_to_open(out@, stack@);
                let mut matched = false;
                while !matched && stack.len() > 0
                    invariant
                        ops_valid(out@),
                        ops_valid(stack@),
                        no_parens(out@),
                        ops_or_open(stack@),
                        !matched ==> closed == pop_to_open(out@, stack@),
                        matched ==> closed == Some((out@, stack@)),
                    decreases stack.len(),
                {
                    let top = stack.pop().unwrap();
                    match top {
                        Token::Open => {
                            matched = true;
                        },
                        _ => {
                            out.push(top);
                        },
                    }
                }
                if !matched {
                    return Err(error_text("лишняя закрывающая скобка"));
                }
            },
        }
        i = i + 1;
    }
    assert(tokens@.skip(i as int) =~= seq![]);
    while stack.len() > 0
        invariant
            ops_valid(out@),
            ops_valid(stack@),
            no_parens(out@),
            ops_or_open(stack@),
            spec_to_rpn(tokens@) == drain(out@, stack@),
        decreases stack.len(),
    {
        let top = stack.pop().unwrap();
        match top {
            Token::Open => {
                return Err(error_text("незакрытая скобка"));
            },
            _ => {
                out.push(top);
            },
        }
    }
    Ok(out)
}

/// One checked arithmetic step; `None` where `i64` division traps.
fn apply_op(op: char, a: i64, b: i64) -> (r: Option<Result<i64, String>>)
    requires
        is_op_char(op),
    ensures
        match r {
            None => apply(op, a, b) matches Err(Halt::Trap),
            Some(x) => reports_value(x, apply(op, a, b)),
        },
{
    if op == '+' {
        match a.checked_add(b) {
            Some(v) => Some(Ok(v)),
            None => Some(Err(error_text("переполнение"))),
        }
    } else if op == '-' {
        match a.checked_sub(b) {
            Some(v) => Some(Ok(v)),
            None => Some(Err(error_text("переполнение"))),
        }
    } else if op == '*' {
        match a.checked_mul(b) {
            Some(v) => Some(Ok(v)),
            None => Some(Err(error_text("переполнение"))),
        }
    } else if b == 0 {
        Some(Err(error_text("деление на ноль")))
    } else {
        match a.checked_div(b) {
            Some(v) => Some(Ok(v)),
            None => None,
        }
    }
}

/// The evaluation trapped (the `i64::MIN / -1` division).
pub open spec fn traps(r: Result<i64, Halt>) -> bool {
    r matches Err(Halt::Trap)
}

/// Evaluates reverse Polish notation; `None` where the evaluation traps.
fn run_rpn(rpn: &[Token]) -> (r: Option<Result<i64, String>>)
    requires
        ops_valid(rpn@),
    ensures
        match r {
            None => traps(spec_eval_rpn(rpn@)),
            Some(x) => reports_value(x, spec_eval_rpn(rpn@)),
        },
{
    let mut st: Vec<i64> = Vec::new();
    let mut i: usize = 0;
    assert(rpn@.skip(0) =~= rpn@);
    while i < rpn.len()
        invariant
            i <= rpn.len(),
            ops_valid(rpn@),
            rpn_run(rpn@, seq![]) == rpn_run(rpn@.skip(i as int), st@),
        decreases rpn.len() - i,
    {
        let tok = rpn[i];
        assert(rpn@.skip(i as int)[0] == tok);
        assert(rpn@.skip(i as int).drop_first() =~= rpn@.skip(i + 1));
        match tok {
            Token::Num(n) => {
                st.push(n);
            },
            Token::Op(op) => {
                assert(is_op_char(op)) by {
                    assert(rpn@[i as int] == tok);
                }
                let ghost before = st@;
                let b = match st.pop() {
                    Some(v) => v,
                    None => {
                        return Some(Err(error_text("не хватает операнда")));
                    },
                };
                let a = match st.pop() {
                    Some(v) => v,
                    None => {
                        return Some(Err(error_text("не хватает операнда")));
                    },
                };
                assert(before.drop_last().drop_last() =~= st@);
                match apply_op(op, a, b) {
                    Some(Ok(v)) => {
                        st.push(v);
                    },
                    Some(Err(m)) => {
                        return Some(Err(m));
                    },
                    None => {
                        return None;
                    },
                }
            },
            _ => {
                return Some(Err(error_text("скобка в RPN")));
            },
        }
        i = i + 1;
    }
    assert(rpn@.skip(i as int) =~= seq![]);
    let ghost fin = st@;
    let top = match st.pop() {
        Some(v) => v,
        None => {
            return Some(Err(error_text("пустое выражение")));
        },
    };
    if st.len() > 0 {
        return Some(Err(error_text("некорректное выражение")));
    }
    assert(fin.len() == 1);
    Some(Ok(top))
}

/// Evaluates reverse Polish notation.
fn eval_rpn(rpn: &[Token]) -> (r: Result<i64, String>)
    requires
        ops_valid(rpn@),
        !traps(spec_eval_rpn(rpn@)),
    ensures
        reports_value(r, spec_eval_rpn(rpn@)),
{
    match run_rpn(rpn) {
        Some(r) => r,
        None => {
            assert(false);
            Err(String::new())
        },
    }
}

/// Evaluates an infix expression such as `"(2 + 3) * 4"`.
pub fn calc(src: &str) -> (r: Result<i64, String>)
    requires
        !traps(spec_calc(src@)),
    ensures
        reports_value(r, spec_calc(src@)),
{
    let toks = match tokenize(src) {
        Ok(t) => t,
        Err(e) => {
            return Err(e);
        },
    };
    let rpn = match to_rpn(toks) {
        Ok(r) => r,
        Err(e) => {
            return Err(e);
        },
    };
    eval_rpn(rpn.as_slice())
}

/// Like [`calc`], for every input: `None` exactly where the evaluation would
/// divide `i64::MIN` by `-1`, on which [`calc`] is not defined.
pub fn calc_checked(src: &str) -> (r: Option<Result<i64, String>>)
    ensures
        match r {
            None => traps(spec_calc(src@)),
            Some(x) => reports_value(x, spec_calc(src@)),
        },
{
    let toks = match tokenize(src) {
        Ok(t) => t,
        Err(e) => {
            return Some(Err(e));
        },
    };
    let rpn = match to_rpn(toks) {
        Ok(r) => r,
        Err(e) => {
            return Some(Err(e));
        },
    };
    run_rpn(rpn.as_slice())
}

} // verus!
