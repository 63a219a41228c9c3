//! Numbers, operators and expressions: how they are read from text and what
//! they evaluate to.

use crate::error::{Error, ErrorView, Expected, ExpectedView};
use crate::utils::{
    all_digits, all_spaces, digit_run, extract_digits, extract_whitespace, is_digit, is_space,
    lemma_extract_digits_splits, lemma_extract_whitespace_splits, lemma_primitives_leave_suffix,
    lemma_run_len_maximal, lemma_skip_is_suffix, lemma_split_at_run, lemma_suffix_of_suffix,
    lemma_tag_one_char, space_run, spec_extract_digits, spec_extract_whitespace, split_at, tag,
};
use crate::val::Val;
use vstd::prelude::*;
use vstd::std_specs::iter::IteratorSpec;

verus! {

/// An integer literal.
#[derive(Clone, Debug, PartialEq, Eq, PartialOrd, Ord, Structural)]
pub struct Number(pub i32);

/// One of the four arithmetic operators.
#[derive(Clone, Debug, PartialEq, Eq, Structural)]
pub enum Op {
    Add,
    Sub,
    Mul,
    Div,
}

/// A number, or one operator applied to two numbers.
#[derive(Clone, Debug, PartialEq, Eq, Structural)]
pub enum Expr {
    Number(Number),
    Operation { lhs: Number, rhs: Number, op: Op },
}

/// What a parsing result says, with the unread text as a sequence.
pub open spec fn parse_view<T>(r: Result<(T, &str), Error>) -> Result<(T, Seq<char>), ErrorView> {
    match r {
        Ok((node, rest)) => Ok((node, rest@)),
        Err(e) => Err(e@),
    }
}

/// What an evaluation result says.
pub open spec fn eval_view<T>(r: Result<T, Error>) -> Result<T, ErrorView> {
    match r {
        Ok(v) => Ok(v),
        Err(e) => Err(e@),
    }
}

/// The number that a digit stands for.
pub open spec fn digit_value(c: char) -> nat {
    (c as int - '0' as int) as nat
}

/// The number that a run of digits writes in base ten.
pub open spec fn digits_value(d: Seq<char>) -> nat
    decreases d.len(),
{
    if d.len() == 0 {
        0
    } else {
        10 * digits_value(d.drop_last()) + digit_value(d.last())
    }
}

/// A number and the rest: the digits at the front, which must write a value
/// of at most `i32::MAX`.
pub open spec fn spec_parse_number(s: Seq<char>) -> Result<(Number, Seq<char>), ErrorView> {
    match spec_extract_digits(s) {
        Ok((digits, rest)) => if digits_value(digits) <= i32::MAX {
            Ok((Number(digits_value(digits) as i32), rest))
        } else {
            Err(ErrorView::Malformed(ExpectedView::NumberInRange))
        },
        Err(e) => Err(e),
    }
}

/// The operator that a symbol stands for.
pub open spec fn op_of_symbol(c: char) -> Option<Op> {
    if c == '+' {
        Some(Op::Add)
    } else if c == '-' {
        Some(Op::Sub)
    } else if c == '*' {
        Some(Op::Mul)
    } else if c == '/' {
        Some(Op::Div)
    } else {
        None
    }
}

/// An operator and the rest: the first character, which must be a symbol.
pub open spec fn spec_parse_op(s: Seq<char>) -> Result<(Op, Seq<char>), ErrorView> {
    if s.len() > 0 && op_of_symbol(s[0]) is Some {
        Ok((op_of_symbol(s[0])->0, s.skip(1)))
    } else {
        Err(ErrorView::Malformed(ExpectedView::Operator))
    }
}

/// A bare number as an expression, and the rest.
pub open spec fn spec_parse_bare_number(s: Seq<char>) -> Result<(Expr, Seq<char>), ErrorView> {
    match spec_parse_number(s) {
        Ok((n, rest)) => Ok((Expr::Number(n), rest)),
        Err(e) => Err(e),
    }
}

/// An operation and the rest: a number, an operator and a number, with any
/// number of spaces on either side of the operator.
pub open spec fn spec_parse_operation(s: Seq<char>) -> Result<(Expr, Seq<char>), ErrorView> {
    match spec_parse_number(s) {
        Ok((lhs, after_lhs)) => match spec_parse_op(spec_extract_whitespace(after_lhs).1) {
            Ok((op, after_op)) => match spec_parse_number(spec_extract_whitespace(after_op).1) {
                Ok((rhs, rest)) => Ok((Expr::Operation { lhs, rhs, op }, rest)),
                Err(e) => Err(e),
            },
            Err(e) => Err(e),
        },
        Err(e) => Err(e),
    }
}

/// An expression and the rest: an operation where the text begins with one,
/// else a bare number read from the same place.
pub open spec fn spec_parse_expr(s: Seq<char>) -> Result<(Expr, Seq<char>), ErrorView> {
    match spec_parse_operation(s) {
        Ok(parsed) => Ok(parsed),
        Err(_) => spec_parse_bare_number(s),
    }
}

/// The 32-bit two's-complement integer that `x` wraps around to.
pub open spec fn wrap(x: int) -> int {
    let m = x % 0x1_0000_0000;
    if m > i32::MAX {
        m - 0x1_0000_0000
    } else {
        m
    }
}

/// The quotient of `a` by `b`, rounded towards zero.
pub open spec fn quotient(a: int, b: int) -> int
    recommends
        b != 0,
{
    let q = (if a < 0 { -a } else { a }) / (if b < 0 { -b } else { b });
    if (a < 0) != (b < 0) {
        -q
    } else {
        q
    }
}

impl Op {
    /// What the operator makes of two operands. Sums, differences, products
    /// and the one quotient that does not fit wrap around; a division by zero
    /// has no result.
    pub open spec fn apply(self, lhs: i32, rhs: i32) -> Result<Val, ErrorView> {
        match self {
            Op::Add => Ok(Val::Number(wrap(lhs + rhs) as i32)),
            Op::Sub => Ok(Val::Number(wrap(lhs - rhs) as i32)),
            Op::Mul => Ok(Val::Number(wrap(lhs * rhs) as i32)),
            Op::Div => if rhs == 0 {
                Err(ErrorView::DivisionByZero)
            } else {
                Ok(Val::Number(wrap(quotient(lhs as int, rhs as int)) as i32))
            },
        }
    }
}

impl Expr {
    /// The value of the expression.
    pub open spec fn spec_eval(self) -> Result<Val, ErrorView> {
        match self {
            Expr::Number(n) => Ok(Val::Number(n.0)),
            Expr::Operation { lhs, rhs, op } => op.apply(lhs.0, rhs.0),
        }
    }
}

/// The digits `d`, followed by anything but a digit, are read as the number
/// they write, and what follows is left. Digits that write more than
/// `i32::MAX` are refused.
pub proof fn lemma_parse_number_of_digits(d: Seq<char>, rest: Seq<char>)
    requires
        d.len() > 0,
        all_digits(d),
        rest.len() > 0 ==> !is_digit(rest[0]),
    ensures
        spec_parse_number(d + rest) == if digits_value(d) <= i32::MAX {
            Ok((Number(digits_value(d) as i32), rest))
        } else {
            Err(ErrorView::Malformed(ExpectedView::NumberInRange))
        },
{
    lemma_extract_digits_splits(d, rest);
}

/// Text that is empty or begins with anything but a digit is no number.
pub proof fn lemma_parse_number_rejects(s: Seq<char>)
    requires
        s.len() == 0 || !is_digit(s[0]),
    ensures
        spec_parse_number(s) == Err::<(Number, Seq<char>), _>(
            ErrorView::Malformed(ExpectedView::Digits),
        ),
{
}

/// An operator is read from its symbol alone: one character is taken, and
/// what follows is left.
pub proof fn lemma_parse_op_of_symbol(symbol: char, rest: Seq<char>)
    requires
        op_of_symbol(symbol) is Some,
    ensures
        spec_parse_op(seq![symbol] + rest) == Ok::<_, ErrorView>((op_of_symbol(symbol)->0, rest)),
{
    let s = seq![symbol] + rest;
    assert(s[0] == symbol);
    assert(s.skip(1) =~= rest);
}

/// Text that is empty or begins with anything but one of the four symbols
/// is no operator.
pub proof fn lemma_parse_op_rejects(s: Seq<char>)
    requires
        s.len() == 0 || (s[0] != '+' && s[0] != '-' && s[0] != '*' && s[0] != '/'),
    ensures
        spec_parse_op(s) == Err::<(Op, Seq<char>), _>(
            ErrorView::Malformed(ExpectedView::Operator),
        ),
{
}

/// The grammar of an operation: digits, spaces, a symbol, spaces, digits.
/// Such a text is read as the operation of its two numbers, and what follows
/// the second number is left. The spaces, of any number on either side and
/// none at all for one, have no part in the result.
pub proof fn lemma_parse_operation_of_parts(
    lhs: Seq<char>,
    before: Seq<char>,
    symbol: char,
    after: Seq<char>,
    rhs: Seq<char>,
    rest: Seq<char>,
)
    requires
        lhs.len() > 0,
        all_digits(lhs),
        digits_value(lhs) <= i32::MAX,
        all_spaces(before),
        op_of_symbol(symbol) is Some,
        all_spaces(after),
        rhs.len() > 0,
        all_digits(rhs),
        digits_value(rhs) <= i32::MAX,
        rest.len() > 0 ==> !is_digit(rest[0]),
    ensures
        spec_parse_operation(lhs + before + seq![symbol] + after + rhs + rest) == Ok::<
            _,
            ErrorView,
        >(
            (
                Expr::Operation {
                    lhs: Number(digits_value(lhs) as i32),
                    rhs: Number(digits_value(rhs) as i32),
                    op: op_of_symbol(symbol)->0,
                },
                rest,
            ),
        ),
{
    let s = lhs + before + seq![symbol] + after + rhs + rest;
    let at_rhs = rhs + rest;
    let after_op = after + at_rhs;
    let at_op = seq![symbol] + after_op;
    let after_lhs = before + at_op;
    assert(s =~= lhs + after_lhs);
    assert(at_op[0] == symbol);
    assert(at_rhs[0] == rhs[0]);
    assert(is_digit(rhs[0]));
    if before.len() > 0 {
        assert(after_lhs[0] == before[0]);
        assert(is_space(before[0]));
    } else {
        assert(after_lhs[0] == symbol);
    }
    if after.len() > 0 {
        assert(after_op[0] == after[0]);
        assert(is_space(after[0]));
    } else {
        assert(after_op[0] == rhs[0]);
    }
    lemma_parse_number_of_digits(lhs, after_lhs);
    lemma_extract_whitespace_splits(before, at_op);
    lemma_parse_op_of_symbol(symbol, after_op);
    lemma_extract_whitespace_splits(after, at_rhs);
    lemma_parse_number_of_digits(rhs, rest);
}

/// A text that is read as a number begins with digits that write a value of
/// at most `i32::MAX`; what is left follows them and begins with no digit.
pub proof fn lemma_parse_number_shape(s: Seq<char>)
    requires
        spec_parse_number(s) is Ok,
    ensures
        ({
            let (digits, rest) = split_at(s, digit_run(s));
            &&& s == digits + rest
            &&& digits.len() > 0
            &&& all_digits(digits)
            &&& digits_value(digits) <= i32::MAX
            &&& rest.len() > 0 ==> !is_digit(rest[0])
            &&& spec_parse_number(s) == Ok::<_, ErrorView>(
                (Number(digits_value(digits) as i32), rest),
            )
        }),
{
    lemma_split_at_run(s, |c: char| is_digit(c));
}

/// Nothing else is read as an operation: a text that is read as one is made
/// of digits, spaces, a symbol, spaces and digits, in that order, and of
/// what is left. The parts are returned.
pub proof fn lemma_parse_operation_shape(s: Seq<char>) -> (parts: (
    Seq<char>,
    Seq<char>,
    char,
    Seq<char>,
    Seq<char>,
    Seq<char>,
))
    requires
        spec_parse_operation(s) is Ok,
    ensures
        ({
            let (lhs, before, symbol, after, rhs, rest) = parts;
            &&& s == lhs + before + seq![symbol] + after + rhs + rest
            &&& lhs.len() > 0
            &&& all_digits(lhs)
            &&& digits_value(lhs) <= i32::MAX
            &&& all_spaces(before)
            &&& op_of_symbol(symbol) is Some
            &&& all_spaces(after)
            &&& rhs.len() > 0
            &&& all_digits(rhs)
            &&& digits_value(rhs) <= i32::MAX
            &&& rest.len() > 0 ==> !is_digit(rest[0])
        }),
{
    let (lhs, after_lhs) = split_at(s, digit_run(s));
    let (before, at_op) = split_at(after_lhs, space_run(after_lhs));
    let symbol = at_op[0];
    let after_op = at_op.skip(1);
    let (after, at_rhs) = split_at(after_op, space_run(after_op));
    let (rhs, rest) = split_at(at_rhs, digit_run(at_rhs));

    assert(spec_parse_number(s) is Ok);
    lemma_parse_number_shape(s);
    assert(spec_parse_op(at_op) is Ok);
    assert(spec_parse_number(at_rhs) is Ok);
    lemma_parse_number_shape(at_rhs);
    assert(after_lhs == before + at_op && all_spaces(before)) by {
        lemma_split_at_run(after_lhs, |c: char| is_space(c));
    }
    assert(after_op == after + at_rhs && all_spaces(after)) by {
        lemma_split_at_run(after_op, |c: char| is_space(c));
    }
    assert(at_op =~= seq![symbol] + after_op);
    assert(s =~= lhs + before + seq![symbol] + after + rhs + rest);
    (lhs, before, symbol, after, rhs, rest)
}

/// An expression is read wherever a number leads, and nowhere else; where
/// there is none, the failure is that of reading the number.
pub proof fn lemma_parse_expr_needs_number(s: Seq<char>)
    ensures
        spec_parse_expr(s) is Ok <==> spec_parse_number(s) is Ok,
        spec_parse_number(s) matches Err(e) ==> spec_parse_expr(s) == Err::<
            (Expr, Seq<char>),
            _,
        >(e),
{
}

/// Where an operation can be read, the expression is that operation; where
/// none can, it is the leading number, read from the start of the text.
pub proof fn lemma_parse_expr_alternatives(s: Seq<char>)
    ensures
        spec_parse_operation(s) is Ok ==> spec_parse_expr(s) == spec_parse_operation(s),
        spec_parse_operation(s) is Err ==> spec_parse_expr(s) == spec_parse_bare_number(s),
{
}

/// Spaces around the operator do not change what is read: two texts that
/// differ only in them give the same expression and leave the same rest.
pub proof fn lemma_whitespace_is_ignored(
    lhs: Seq<char>,
    symbol: char,
    rhs: Seq<char>,
    rest: Seq<char>,
    before: Seq<char>,
    after: Seq<char>,
)
    requires
        lhs.len() > 0,
        all_digits(lhs),
        digits_value(lhs) <= i32::MAX,
        op_of_symbol(symbol) is Some,
        rhs.len() > 0,
        all_digits(rhs),
        digits_value(rhs) <= i32::MAX,
        rest.len() > 0 ==> !is_digit(rest[0]),
        all_spaces(before),
        all_spaces(after),
    ensures
        spec_parse_expr(lhs + before + seq![symbol] + after + rhs + rest) == spec_parse_expr(
            lhs + seq![symbol] + rhs + rest,
        ),
        spec_parse_expr(lhs + before + seq![symbol] + after + rhs + rest) is Ok,
{
    let none = Seq::<char>::empty();
    lemma_parse_operation_of_parts(lhs, before, symbol, after, rhs, rest);
    lemma_parse_operation_of_parts(lhs, none, symbol, none, rhs, rest);
    assert(lhs + none + seq![symbol] + none + rhs + rest =~= lhs + seq![symbol] + rhs + rest);
}

/// Each parser reads from the front and leaves an end of its text, shorter
/// than the text itself: parsers can be run one after another, each on what
/// the one before it left.
pub proof fn lemma_parsers_leave_suffix(s: Seq<char>)
    ensures
        spec_parse_number(s) matches Ok((_, rest)) ==> rest.is_suffix_of(s) && rest.len()
            < s.len(),
        spec_parse_op(s) matches Ok((_, rest)) ==> rest.is_suffix_of(s) && rest.len() < s.len(),
        spec_parse_operation(s) matches Ok((_, rest)) ==> rest.is_suffix_of(s) && rest.len()
            < s.len(),
        spec_parse_expr(s) matches Ok((_, rest)) ==> rest.is_suffix_of(s) && rest.len()
            < s.len(),
{
    let none = Seq::<char>::empty();
    lemma_primitives_leave_suffix(s, none);
    if s.len() > 0 {
        lemma_skip_is_suffix(s, 1);
    }
    if let Ok((_, after_lhs)) = spec_parse_number(s) {
        let at_op = spec_extract_whitespace(after_lhs).1;
        lemma_primitives_leave_suffix(after_lhs, none);
        lemma_suffix_of_suffix(at_op, after_lhs, s);
        if let Ok((_, after_op)) = spec_parse_op(at_op) {
            let at_rhs = spec_extract_whitespace(after_op).1;
            lemma_skip_is_suffix(at_op, 1);
            lemma_suffix_of_suffix(after_op, at_op, s);
            lemma_primitives_leave_suffix(after_op, none);
            lemma_suffix_of_suffix(at_rhs, after_op, s);
            if let Ok((_, rest)) = spec_parse_number(at_rhs) {
                lemma_primitives_leave_suffix(at_rhs, none);
                lemma_suffix_of_suffix(rest, at_rhs, s);
            }
        }
    }
}

/// What `wrap` gives is a 32-bit integer that differs from its argument by
/// a multiple of 2^32; a number that is one already is left as it is.
pub proof fn lemma_wrap(x: int)
    ensures
        i32::MIN <= wrap(x) <= i32::MAX,
        (x - wrap(x)) % 0x1_0000_0000 == 0,
        i32::MIN <= x <= i32::MAX ==> wrap(x) == x,
{
}

/// Evaluation fails for a division by zero and for nothing else.
pub proof fn lemma_eval_fails_on_division_by_zero(e: Expr)
    ensures
        e.spec_eval() is Err <==> (e matches Expr::Operation { rhs, op, .. } && op == Op::Div
            && rhs.0 == 0),
        e.spec_eval() is Err ==> e.spec_eval() == Err::<Val, _>(ErrorView::DivisionByZero),
{
}

/// Where the exact result fits in 32 bits, it is the value: the sum, the
/// difference, the product, or the quotient rounded towards zero.
pub proof fn lemma_eval_exact(lhs: i32, rhs: i32, op: Op)
    ensures
        op == Op::Add && i32::MIN <= lhs + rhs <= i32::MAX ==> op.apply(lhs, rhs) == Ok::<
            _,
            ErrorView,
        >(Val::Number((lhs + rhs) as i32)),
        op == Op::Sub && i32::MIN <= lhs - rhs <= i32::MAX ==> op.apply(lhs, rhs) == Ok::<
            _,
            ErrorView,
        >(Val::Number((lhs - rhs) as i32)),
        op == Op::Mul && i32::MIN <= lhs * rhs <= i32::MAX ==> op.apply(lhs, rhs) == Ok::<
            _,
            ErrorView,
        >(Val::Number((lhs * rhs) as i32)),
        op == Op::Div && lhs >= 0 && rhs > 0 ==> op.apply(lhs, rhs) == Ok::<_, ErrorView>(
            Val::Number((lhs / rhs) as i32),
        ),
{
    lemma_wrap(lhs + rhs);
    lemma_wrap(lhs - rhs);
    lemma_wrap(lhs * rhs);
    if op == Op::Div && lhs >= 0 && rhs > 0 {
        assert(0 <= lhs as int / rhs as int <= lhs) by (nonlinear_arith)
            requires
                lhs >= 0,
                rhs > 0,
        ;
        lemma_wrap(lhs as int / rhs as int);
    }
}

/// A prefix of a digit run writes a number no greater than the whole run.
pub proof fn lemma_digits_value_prefix(d: Seq<char>, n: int)
    requires
        0 <= n <= d.len(),
    ensures
        digits_value(d.take(n)) <= digits_value(d),
    decreases d.len(),
{
    if n == d.len() {
        assert(d.take(n) =~= d);
    } else {
        assert(d.drop_last().take(n) =~= d.take(n));
        lemma_digits_value_prefix(d.drop_last(), n);
    }
}

/// The value that a run of digits writes, where it fits in an `i32`.
fn digits_to_i32(digits: &str) -> (value: Option<i32>)
    requires
        forall|i: int| 0 <= i < digits@.len() ==> is_digit(#[trigger] digits@[i]),
    ensures
        value == if digits_value(digits@) <= i32::MAX {
            Some(digits_value(digits@) as i32)
        } else {
            None
        },
{
    broadcast use vstd::string::group_string_axioms;

    let len = digits.unicode_len();
    let mut chars = digits.chars();
    let mut n: usize = 0;
    let mut value: i32 = 0;
    loop
        invariant_except_break
            chars.remaining() == digits@.skip(n as int),
            chars.obeys_prophetic_iter_laws(),
        invariant
            n <= len,
            len == digits@.len(),
            forall|i: int| 0 <= i < digits@.len() ==> is_digit(#[trigger] digits@[i]),
            value == digits_value(digits@.take(n as int)),
        ensures
            n == len,
        decreases len - n,
    {
        match chars.next() {
            Some(c) => {
                assert(c == digits@[n as int]);
                assert(is_digit(c));
                let digit: u32 = c as u32 - '0' as u32;
                let next: i64 = value as i64 * 10 + digit as i64;
                proof {
                    let longer = digits@.take(n + 1);
                    assert(longer.drop_last() =~= digits@.take(n as int));
                    assert(longer.last() == c);
                    assert(next == digits_value(longer));
                    lemma_digits_value_prefix(digits@, n + 1);
                }
                if next > i32::MAX as i64 {
                    return None;
                }
                value = next as i32;
                n = n + 1;
            },
            None => {
                break;
            },
        }
    }
    assert(digits@.take(n as int) =~= digits@);
    Some(value)
}

impl Number {
    /// Reads a number from the front of `s`: the digits there, in base ten.
    /// Fails where no digit leads, and where the digits write more than
    /// `i32::MAX`.
    pub fn new(s: &str) -> (r: Result<(Number, &str), Error>)
        ensures
            parse_view(r) == spec_parse_number(s@),
    {
        let (digits, rest) = extract_digits(s)?;
        proof {
            lemma_run_len_maximal(s@, |c: char| is_digit(c));
        }
        match digits_to_i32(digits) {
            Some(value) => Ok((Number(value), rest)),
            None => Err(Error::Malformed(Expected::NumberInRange)),
        }
    }
}

impl Op {
    /// Reads an operator from the front of `s`, trying `+`, `-`, `*` and `/`
    /// in that order. Fails where none of them comes first.
    pub fn new(s: &str) -> (r: Result<(Op, &str), Error>)
        ensures
            parse_view(r) == spec_parse_op(s@),
    {
        proof {
            reveal_strlit("+");
            reveal_strlit("-");
            reveal_strlit("*");
            reveal_strlit("/");
            assert("+"@ =~= seq!['+']);
            assert("-"@ =~= seq!['-']);
            assert("*"@ =~= seq!['*']);
            assert("/"@ =~= seq!['/']);
            lemma_tag_one_char('+', s@);
            lemma_tag_one_char('-', s@);
            lemma_tag_one_char('*', s@);
            lemma_tag_one_char('/', s@);
        }
        if let Ok(rest) = tag("+", s) {
            Ok((Op::Add, rest))
        } else if let Ok(rest) = tag("-", s) {
            Ok((Op::Sub, rest))
        } else if let Ok(rest) = tag("*", s) {
            Ok((Op::Mul, rest))
        } else if let Ok(rest) = tag("/", s) {
            Ok((Op::Div, rest))
        } else {
            Err(Error::Malformed(Expected::Operator))
        }
    }
}

impl Expr {
    /// Reads an expression from the front of `s`: an operation if there is
    /// one, else a bare number, read from the start of `s` again.
    pub fn new(s: &str) -> (r: Result<(Expr, &str), Error>)
        ensures
            parse_view(r) == spec_parse_expr(s@),
    {
        match Expr::new_operation(s) {
            Ok(parsed) => Ok(parsed),
            Err(_) => Expr::new_number(s),
        }
    }

    /// Reads a bare number from the front of `s`.
    pub fn new_number(s: &str) -> (r: Result<(Expr, &str), Error>)
        ensures
            parse_view(r) == spec_parse_bare_number(s@),
    {
        let (n, s) = Number::new(s)?;
        Ok((Expr::Number(n), s))
    }

    /// Reads a number, an operator and a number from the front of `s`,
    /// passing over the spaces around the operator.
    pub fn new_operation(s: &str) -> (r: Result<(Expr, &str), Error>)
        ensures
            parse_view(r) == spec_parse_operation(s@),
    {
        let (lhs, s) = Number::new(s)?;
        let (_, s) = extract_whitespace(s);

        let (op, s) = Op::new(s)?;
        let (_, s) = extract_whitespace(s);

        let (rhs, s) = Number::new(s)?;

        Ok((Expr::Operation { lhs, rhs, op }, s))
    }

    /// Evaluates the expression. Sums, differences and products wrap around
    /// in 32 bits; a quotient is rounded towards zero; a division by zero is
    /// an error.
    pub fn eval(&self) -> (r: Result<Val, Error>)
        ensures
            eval_view(r) == self.spec_eval(),
    {
        match self {
            Expr::Number(Number(n)) => Ok(Val::Number(*n)),
            Expr::Operation { lhs, rhs, op } => {
                let Number(lhs) = lhs;
                let Number(rhs) = rhs;

                let result = match op {
                    Op::Add => lhs.wrapping_add(*rhs),
                    Op::Sub => lhs.wrapping_sub(*rhs),
                    Op::Mul => lhs.wrapping_mul(*rhs),
                    Op::Div => {
                        if *rhs == 0 {
                            return Err(Error::DivisionByZero);
                        }
                        match lhs.checked_div(*rhs) {
                            Some(q) => q,
                            None => i32::MIN,
                        }
                    },
                };

                Ok(Val::Number(result))
            },
        }
    }
}

} // verus!
