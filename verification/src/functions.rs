//! The native functions of the expression language: arithmetic, comparison,
//! predicates on kinds, lists and errors.
//!
//! Numbers are integers. An operation whose result does not fit a signed
//! 64-bit integer is an error.
use crate::lruntimeerror::{wrong_number_text, wrong_type_text, LResult, LRuntimeError};
use crate::lvalue::{clone_values, lemma_list_model, models, KindLValue, LNumber, LValue, Sexp};
use vstd::prelude::*;

verus! {

pub const ADD: &'static str = "+";

pub const SUB: &'static str = "-";

pub const MUL: &'static str = "*";

pub const DIV: &'static str = "/";

pub const GT: &'static str = ">";

pub const LT: &'static str = "<";

pub const GE: &'static str = ">=";

pub const LE: &'static str = "<=";

pub const EQ: &'static str = "=";

pub const GET: &'static str = "get";

pub const SET: &'static str = "set";

pub const BEGIN: &'static str = "begin";

pub const CONS: &'static str = "cons";

pub const CAR: &'static str = "car";

pub const CDR: &'static str = "cdr";

pub const APPEND: &'static str = "append";

pub const LAST: &'static str = "last";

pub const MEMBER: &'static str = "member";

pub const REVERSE: &'static str = "reverse";

pub const LIST: &'static str = "list";

pub const LENGTH: &'static str = "length";

pub const IS_NONE: &'static str = "none?";

pub const IS_NUMBER: &'static str = "number?";

pub const IS_BOOL: &'static str = "bool?";

pub const IS_FN: &'static str = "fn?";

pub const CHECK: &'static str = "check";

pub const ERR: &'static str = "err";

pub const IS_ERR: &'static str = "err?";

/// What an error says when a result does not fit.
pub const OVERFLOW: &'static str = "integer overflow";

/// What an error says when a number is divided by zero.
pub const DIVISION_BY_ZERO: &'static str = "division by zero";

/// The integer that a value denotes, if it is a number.
pub open spec fn number_of(s: Sexp) -> Option<int> {
    match s {
        Sexp::Number(n) => Some(n.value()),
        _ => None,
    }
}

/// Tells whether an integer fits a signed 64-bit integer.
pub open spec fn fits(i: int) -> bool {
    i64::MIN <= i <= i64::MAX
}

/// How folding the first `n` arguments with an operation went.
pub enum Folded {
    /// All of them are numbers and every partial result fits: the result.
    Value(int),
    /// The argument at this place is no number.
    NotNumber(int),
    /// The partial result did not fit when the argument at this place was
    /// taken in.
    Overflow(int),
}

/// The sum of the first `n` arguments, taken in from the first on.
pub open spec fn sum_of(args: Seq<Sexp>, n: nat) -> Folded
    decreases n,
{
    if n == 0 || n > args.len() {
        Folded::Value(0)
    } else {
        match sum_of(args, (n - 1) as nat) {
            Folded::Value(s) => match number_of(args[n - 1]) {
                None => Folded::NotNumber(n - 1),
                Some(v) => if fits(v) && fits(s + v) {
                    Folded::Value(s + v)
                } else {
                    Folded::Overflow(n - 1)
                },
            },
            other => other,
        }
    }
}

/// The product of the first `n` arguments, taken in from the first on.
pub open spec fn product_of(args: Seq<Sexp>, n: nat) -> Folded
    decreases n,
{
    if n == 0 || n > args.len() {
        Folded::Value(1)
    } else {
        match product_of(args, (n - 1) as nat) {
            Folded::Value(s) => match number_of(args[n - 1]) {
                None => Folded::NotNumber(n - 1),
                Some(v) => if fits(v) && fits(s * v) {
                    Folded::Value(s * v)
                } else {
                    Folded::Overflow(n - 1)
                },
            },
            other => other,
        }
    }
}

/// Folding stops at the first argument that cannot be taken in.
pub proof fn lemma_sum_stops(args: Seq<Sexp>, k: nat, n: nat)
    requires
        k <= n <= args.len(),
        !(sum_of(args, k) is Value),
    ensures
        sum_of(args, n) == sum_of(args, k),
    decreases n,
{
    if k < n {
        lemma_sum_stops(args, k, (n - 1) as nat);
    }
}

/// Folding stops at the first argument that cannot be taken in.
pub proof fn lemma_product_stops(args: Seq<Sexp>, k: nat, n: nat)
    requires
        k <= n <= args.len(),
        !(product_of(args, k) is Value),
    ensures
        product_of(args, n) == product_of(args, k),
    decreases n,
{
    if k < n {
        lemma_product_stops(args, k, (n - 1) as nat);
    }
}

/// Tells whether `r` is what folding gave: the number, or the error of the
/// first argument that is no number, or the error of an overflow.
pub open spec fn is_folded(r: LResult, f: Folded, args: Seq<Sexp>, context: Seq<char>) -> bool {
    match f {
        Folded::Value(v) => gives(r, Sexp::Number(LNumber::Int(v as i64))),
        Folded::NotNumber(k) => r matches Err(e) && e.trace() == seq![context] && e.message()
            == wrong_type_text(args[k], KindLValue::Number),
        Folded::Overflow(_) => r matches Err(e) && e.trace() == seq![context] && e.message()
            == OVERFLOW@,
    }
}

/// The signed integer that a number denotes, if it fits.
pub fn number_to_i64(n: &LNumber) -> (r: Option<i64>)
    ensures
        r is Some <==> fits(n.value()),
        r matches Some(v) ==> v == n.value(),
{
    match n {
        LNumber::Int(i) => Some(*i),
        LNumber::Usize(u) => {
            if (*u as u64) <= 9223372036854775807u64 {
                Some(*u as i64)
            } else {
                None
            }
        },
    }
}

/// The sum of the arguments.
pub fn add(values: &[LValue]) -> (r: LResult)
    ensures
        is_folded(r, sum_of(models(values@), values@.len()), models(values@), ADD@),
{
    let mut sum: i64 = 0;
    let mut i: usize = 0;
    while i < values.len()
        invariant
            i <= values.len(),
            sum_of(models(values@), i as nat) == Folded::Value(sum as int),
        decreases values.len() - i,
    {
        assert(models(values@)[i as int] == values@[i as int]@);
        match &values[i] {
            LValue::Number(n) => {
                let next = match number_to_i64(n) {
                    Some(v) => sum.checked_add(v),
                    None => None,
                };
                match next {
                    Some(s) => {
                        sum = s;
                    },
                    None => {
                        proof {
                            lemma_sum_stops(models(values@), i as nat + 1, values@.len());
                        }
                        return Err(LRuntimeError::new(ADD, OVERFLOW));
                    },
                }
            },
            lv => {
                proof {
                    lemma_sum_stops(models(values@), i as nat + 1, values@.len());
                }
                return Err(LRuntimeError::wrong_type(ADD, lv, KindLValue::Number));
            },
        }
        i += 1;
    }
    Ok(LValue::Number(LNumber::Int(sum)))
}

/// The product of the arguments.
pub fn mul(values: &[LValue]) -> (r: LResult)
    ensures
        is_folded(r, product_of(models(values@), values@.len()), models(values@), MUL@),
{
    let mut product: i64 = 1;
    let mut i: usize = 0;
    while i < values.len()
        invariant
            i <= values.len(),
            product_of(models(values@), i as nat) == Folded::Value(product as int),
        decreases values.len() - i,
    {
        assert(models(values@)[i as int] == values@[i as int]@);
        match &values[i] {
            LValue::Number(n) => {
                let next = match number_to_i64(n) {
                    Some(v) => product.checked_mul(v),
                    None => None,
                };
                match next {
                    Some(s) => {
                        product = s;
                    },
                    None => {
                        proof {
                            lemma_product_stops(models(values@), i as nat + 1, values@.len());
                        }
                        return Err(LRuntimeError::new(MUL, OVERFLOW));
                    },
                }
            },
            lv => {
                proof {
                    lemma_product_stops(models(values@), i as nat + 1, values@.len());
                }
                return Err(LRuntimeError::wrong_type(MUL, lv, KindLValue::Number));
            },
        }
        i += 1;
    }
    Ok(LValue::Number(LNumber::Int(product)))
}

/// Tells whether `r` is the error of a call of `context` with a number of
/// arguments outside `start..end`.
pub open spec fn is_arity_error(
    r: LResult,
    args: Seq<Sexp>,
    context: Seq<char>,
    start: nat,
    end: nat,
) -> bool {
    r matches Err(e) && e.trace() == seq![context] && e.message() == wrong_number_text(
        args,
        start,
        end,
    )
}

/// Tells whether `r` is the error of a value that is not of the kind
/// `expected`, raised in `context`.
pub open spec fn is_type_error(r: LResult, lv: Sexp, context: Seq<char>, expected: KindLValue) -> bool {
    r matches Err(e) && e.trace() == seq![context] && e.message() == wrong_type_text(lv, expected)
}

/// Tells whether `r` is the value whose model is `s`.
pub open spec fn gives(r: LResult, s: Sexp) -> bool {
    r matches Ok(lv) && lv@ == s
}

/// Tells whether `r` is the error that says `message`, raised in `context`.
pub open spec fn fails<T>(r: Result<T, LRuntimeError>, context: Seq<char>, message: Seq<char>) -> bool {
    r matches Err(e) && e.trace() == seq![context] && e.message() == message
}

/// Tells whether `r` is the error that says `message`, raised in `context`.
pub open spec fn is_error(r: LResult, context: Seq<char>, message: Seq<char>) -> bool {
    r matches Err(e) && e.trace() == seq![context] && e.message() == message
}

/// What a subtraction or a division of two arguments gives.
pub open spec fn binary_result(
    r: LResult,
    args: Seq<Sexp>,
    context: Seq<char>,
    division: bool,
) -> bool {
    if args.len() != 2 {
        is_arity_error(r, args, context, 2, 2)
    } else if number_of(args[0]) is None {
        is_type_error(r, args[0], context, KindLValue::Number)
    } else if number_of(args[1]) is None {
        is_type_error(r, args[1], context, KindLValue::Number)
    } else {
        let a = number_of(args[0])->0;
        let b = number_of(args[1])->0;
        if !fits(a) || !fits(b) {
            is_error(r, context, OVERFLOW@)
        } else if division {
            if b == 0 {
                is_error(r, context, DIVISION_BY_ZERO@)
            } else if a == i64::MIN && b == -1 {
                is_error(r, context, OVERFLOW@)
            } else {
                gives(r, Sexp::Number(
                    LNumber::Int(truncating_quotient(a, b) as i64),
                ))}
        } else if !fits(a - b) {
            is_error(r, context, OVERFLOW@)
        } else {
            gives(r, Sexp::Number(LNumber::Int((a - b) as i64)))}
    }
}

/// The quotient of `a` by `b`, rounded towards zero.
pub open spec fn truncating_quotient(a: int, b: int) -> int {
    if a >= 0 && b > 0 {
        a / b
    } else if a < 0 && b > 0 {
        -((-a) / b)
    } else if a >= 0 && b < 0 {
        -(a / (-b))
    } else {
        (-a) / (-b)
    }
}

/// The distance of `a` from zero.
pub fn magnitude(a: i64) -> (m: u64)
    ensures
        m == (if a < 0 {
            -(a as int)
        } else {
            a as int
        }),
{
    if a == i64::MIN {
        9223372036854775808u64
    } else if a < 0 {
        (-a) as u64
    } else {
        a as u64
    }
}

/// The two numbers of a call with two arguments, as far as they are there.
fn two_numbers(values: &[LValue], context: &'static str) -> (r: Result<(i64, i64), LRuntimeError>)
    ensures
        ({
            let args = models(values@);
            if args.len() != 2 {
                fails(r, context@, wrong_number_text(
                    args,
                    2,
                    2,
                ))} else if number_of(args[0]) is None {
                fails(r, context@, wrong_type_text(
                    args[0],
                    KindLValue::Number,
                ))} else if number_of(args[1]) is None {
                fails(r, context@, wrong_type_text(
                    args[1],
                    KindLValue::Number,
                ))} else if !fits(number_of(args[0])->0) || !fits(number_of(args[1])->0) {
                fails(r, context@, OVERFLOW@)} else {
                r == Ok::<(i64, i64), LRuntimeError>(
                    (number_of(args[0])->0 as i64, number_of(args[1])->0 as i64),
                )
            }
        }),
{
    if values.len() != 2 {
        return Err(LRuntimeError::wrong_number_of_args(context, values, 2..2));
    }
    assert(models(values@)[0] == values@[0]@);
    assert(models(values@)[1] == values@[1]@);
    let a = match &values[0] {
        LValue::Number(n) => number_to_i64(n),
        lv => { return Err(LRuntimeError::wrong_type(context, lv, KindLValue::Number)); },
    };
    let b = match &values[1] {
        LValue::Number(n) => number_to_i64(n),
        lv => { return Err(LRuntimeError::wrong_type(context, lv, KindLValue::Number)); },
    };
    match (a, b) {
        (Some(a), Some(b)) => Ok((a, b)),
        _ => Err(LRuntimeError::new(context, OVERFLOW)),
    }
}

/// The first argument minus the second.
pub fn sub(values: &[LValue]) -> (r: LResult)
    ensures
        binary_result(r, models(values@), SUB@, false),
{
    match two_numbers(values, SUB) {
        Err(e) => Err(e),
        Ok((a, b)) => match a.checked_sub(b) {
            Some(d) => Ok(LValue::Number(LNumber::Int(d))),
            None => Err(LRuntimeError::new(SUB, OVERFLOW)),
        },
    }
}

/// The first argument divided by the second, rounded towards zero.
pub fn div(values: &[LValue]) -> (r: LResult)
    ensures
        binary_result(r, models(values@), DIV@, true),
{
    match two_numbers(values, DIV) {
        Err(e) => Err(e),
        Ok((a, b)) => {
            if b == 0 {
                Err(LRuntimeError::new(DIV, DIVISION_BY_ZERO))
            } else if a == i64::MIN && b == -1 {
                Err(LRuntimeError::new(DIV, OVERFLOW))
            } else {
                let na: u64 = magnitude(a);
                let nb: u64 = magnitude(b);
                let nq: u64 = na / nb;
                proof {
                    assert(nq <= na) by (nonlinear_arith)
                        requires
                            nq == na / nb,
                            nb >= 1,
                    ;
                    if nb >= 2 {
                        assert(2 * nq <= na) by (nonlinear_arith)
                            requires
                                nq == na / nb,
                                nb >= 2,
                                na >= 0,
                        ;
                    }
                }
                let q: i64 = if (a < 0) != (b < 0) {
                    if nq == 9223372036854775808u64 {
                        i64::MIN
                    } else {
                        -(nq as i64)
                    }
                } else {
                    nq as i64
                };
                Ok(LValue::Number(LNumber::Int(q)))
            }
        },
    }
}

/// The order in which two numbers are compared.
#[derive(Clone, Copy, Debug, PartialEq, Eq, Structural)]
pub enum Comparison {
    Greater,
    Less,
    GreaterOrEqual,
    LessOrEqual,
}

/// What comparing `a` with `b` gives.
pub open spec fn compared(c: Comparison, a: int, b: int) -> bool {
    match c {
        Comparison::Greater => a > b,
        Comparison::Less => a < b,
        Comparison::GreaterOrEqual => a >= b,
        Comparison::LessOrEqual => a <= b,
    }
}

/// What a comparison of two arguments gives: `true` or `nil` for two
/// numbers, `nil` where one of them is no number.
pub open spec fn comparison_result(r: LResult, args: Seq<Sexp>, context: Seq<char>, c: Comparison) -> bool {
    if args.len() != 2 {
        is_arity_error(r, args, context, 2, 2)
    } else {
        gives(r, Sexp::of_bool(
            number_of(args[0]) is Some && number_of(args[1]) is Some && compared(
                c,
                number_of(args[0])->0,
                number_of(args[1])->0,
            ),
        ))}
}

/// Tells whether the number `a` stands in the order `c` to the number `b`.
fn compare_numbers(a: &LNumber, b: &LNumber, c: Comparison) -> (r: bool)
    ensures
        r == compared(c, a.value(), b.value()),
{
    let x: i128 = match a {
        LNumber::Int(i) => *i as i128,
        LNumber::Usize(u) => *u as i128,
    };
    let y: i128 = match b {
        LNumber::Int(i) => *i as i128,
        LNumber::Usize(u) => *u as i128,
    };
    match c {
        Comparison::Greater => x > y,
        Comparison::Less => x < y,
        Comparison::GreaterOrEqual => x >= y,
        Comparison::LessOrEqual => x <= y,
    }
}

/// Compares two arguments.
fn compare(values: &[LValue], context: &'static str, c: Comparison) -> (r: LResult)
    ensures
        comparison_result(r, models(values@), context@, c),
{
    if values.len() != 2 {
        return Err(LRuntimeError::wrong_number_of_args(context, values, 2..2));
    }
    assert(models(values@)[0] == values@[0]@);
    assert(models(values@)[1] == values@[1]@);
    match (&values[0], &values[1]) {
        (LValue::Number(a), LValue::Number(b)) => Ok(LValue::from_bool(compare_numbers(a, b, c))),
        _ => Ok(LValue::Nil),
    }
}

/// Tells whether the first argument is greater than the second.
pub fn gt(values: &[LValue]) -> (r: LResult)
    ensures
        comparison_result(r, models(values@), GT@, Comparison::Greater),
{
    compare(values, GT, Comparison::Greater)
}

/// Tells whether the first argument is less than the second.
pub fn lt(values: &[LValue]) -> (r: LResult)
    ensures
        comparison_result(r, models(values@), LT@, Comparison::Less),
{
    compare(values, LT, Comparison::Less)
}

/// Tells whether the first argument is greater than the second or equal to
/// it.
pub fn ge(values: &[LValue]) -> (r: LResult)
    ensures
        comparison_result(r, models(values@), GE@, Comparison::GreaterOrEqual),
{
    compare(values, GE, Comparison::GreaterOrEqual)
}

/// Tells whether the first argument is less than the second or equal to it.
pub fn le(values: &[LValue]) -> (r: LResult)
    ensures
        comparison_result(r, models(values@), LE@, Comparison::LessOrEqual),
{
    compare(values, LE, Comparison::LessOrEqual)
}

/// Tells whether the two arguments are the same value.
pub fn eq(values: &[LValue]) -> (r: LResult)
    ensures
        models(values@).len() != 2 ==> is_arity_error(r, models(values@), EQ@, 2, 2),
        models(values@).len() == 2 ==> gives(r, Sexp::of_bool(
            models(values@)[0] == models(values@)[1],
        )),
{
    if values.len() != 2 {
        return Err(LRuntimeError::wrong_number_of_args(EQ, values, 2..2));
    }
    assert(models(values@)[0] == values@[0]@);
    assert(models(values@)[1] == values@[1]@);
    Ok(LValue::from_bool(values[0].same(&values[1])))
}

/// What a function of one argument gives: the error of a wrong number of
/// arguments, or what `f` makes of the argument.
pub open spec fn unary_result(
    r: LResult,
    args: Seq<Sexp>,
    context: Seq<char>,
    f: spec_fn(Sexp) -> Sexp,
) -> bool {
    if args.len() != 1 {
        is_arity_error(r, args, context, 1, 1)
    } else {
        gives(r, f(args[0]))}
}

/// The one argument of a call, if there is one and no more.
fn one_argument<'a>(values: &'a [LValue], context: &'static str) -> (r: Result<
    &'a LValue,
    LRuntimeError,
>)
    ensures
        models(values@).len() != 1 ==> fails(r, context@, wrong_number_text(models(values@), 1, 1)),
        models(values@).len() == 1 ==> (r matches Ok(lv) && lv@ == models(values@)[0] && *lv
            == values@[0]),
{
    if values.len() != 1 {
        return Err(LRuntimeError::wrong_number_of_args(context, values, 1..1));
    }
    assert(models(values@)[0] == values@[0]@);
    Ok(&values[0])
}

/// The argument itself.
pub fn get(values: &[LValue]) -> (r: LResult)
    ensures
        unary_result(r, models(values@), GET@, |s: Sexp| s),
{
    match one_argument(values, GET) {
        Ok(lv) => Ok(lv.clone()),
        Err(e) => Err(e),
    }
}

/// Tells whether the argument is `nil`.
pub fn is_none(values: &[LValue]) -> (r: LResult)
    ensures
        unary_result(r, models(values@), IS_NONE@, |s: Sexp| Sexp::of_bool(s is Nil)),
{
    match one_argument(values, IS_NONE) {
        Ok(lv) => Ok(LValue::from_bool(matches!(lv, LValue::Nil))),
        Err(e) => Err(e),
    }
}

/// Tells whether the argument is a number.
pub fn is_number(values: &[LValue]) -> (r: LResult)
    ensures
        unary_result(r, models(values@), IS_NUMBER@, |s: Sexp| Sexp::of_bool(s is Number)),
{
    match one_argument(values, IS_NUMBER) {
        Ok(lv) => Ok(LValue::from_bool(matches!(lv, LValue::Number(_)))),
        Err(e) => Err(e),
    }
}

/// Tells whether the argument is a boolean: `true` or `nil`.
pub fn is_bool(values: &[LValue]) -> (r: LResult)
    ensures
        unary_result(r, models(values@), IS_BOOL@, |s: Sexp| Sexp::of_bool(s is True || s is Nil)),
{
    match one_argument(values, IS_BOOL) {
        Ok(lv) => Ok(LValue::from_bool(matches!(lv, LValue::True | LValue::Nil))),
        Err(e) => Err(e),
    }
}

/// Tells whether the argument is a native function.
pub fn is_fn(values: &[LValue]) -> (r: LResult)
    ensures
        unary_result(r, models(values@), IS_FN@, |s: Sexp| Sexp::of_bool(s is Fn)),
{
    match one_argument(values, IS_FN) {
        Ok(lv) => Ok(LValue::from_bool(matches!(lv, LValue::Fn(_)))),
        Err(e) => Err(e),
    }
}

/// What `begin` says when it has nothing to return.
pub const NO_EXPRESSION: &'static str = "no SExpr after begin";

/// The last argument.
pub fn begin(values: &[LValue]) -> (r: LResult)
    ensures
        models(values@).len() == 0 ==> is_error(r, BEGIN@, NO_EXPRESSION@),
        models(values@).len() > 0 ==> gives(r, models(values@).last()),
{
    if values.len() == 0 {
        Err(LRuntimeError::new(BEGIN, NO_EXPRESSION))
    } else {
        assert(models(values@).last() == values@[values@.len() - 1]@);
        Ok(values[values.len() - 1].clone())
    }
}

/// The string that stands for a function without a body.
pub fn default(_values: &[LValue]) -> (r: LResult)
    ensures
        gives(r, Sexp::Text("default function"@)),
{
    Ok(LValue::String(String::from_str("default function")))
}

/// The list of the arguments.
pub fn list(values: &[LValue]) -> (r: LResult)
    ensures
        gives(r, Sexp::List(models(values@))),
{
    Ok(LValue::list(clone_values(values)))
}

/// The value flagged as an error.
pub fn err(values: &[LValue]) -> (r: LResult)
    ensures
        unary_result(r, models(values@), ERR@, |s: Sexp| Sexp::Failure(Box::new(s))),
{
    match one_argument(values, ERR) {
        Ok(lv) => Ok(LValue::failure(lv.clone())),
        Err(e) => Err(e),
    }
}

/// Tells whether the argument is flagged as an error.
pub fn is_err(values: &[LValue]) -> (r: LResult)
    ensures
        unary_result(r, models(values@), IS_ERR@, |s: Sexp| Sexp::of_bool(s is Failure)),
{
    match one_argument(values, IS_ERR) {
        Ok(lv) => Ok(LValue::from_bool(matches!(lv, LValue::Failure(_)))),
        Err(e) => Err(e),
    }
}

/// Turns a boolean into the outcome of a check: `true` stays, `nil` becomes
/// the error of `nil`. Anything else is no boolean.
pub fn check(values: &[LValue]) -> (r: LResult)
    ensures
        models(values@).len() != 1 ==> is_arity_error(r, models(values@), CHECK@, 1, 1),
        models(values@).len() == 1 ==> match models(values@)[0] {
            Sexp::True => gives(r, Sexp::True),
            Sexp::Nil => gives(r, Sexp::Failure(Box::new(Sexp::Nil))),
            other => is_type_error(r, other, CHECK@, KindLValue::Bool),
        },
{
    match one_argument(values, CHECK) {
        Ok(lv) => match lv {
            LValue::True => Ok(LValue::True),
            LValue::Nil => Ok(LValue::failure(LValue::Nil)),
            other => Err(LRuntimeError::wrong_type(CHECK, other, KindLValue::Bool)),
        },
        Err(e) => Err(e),
    }
}

/// The list of the items of `l`, or `nil` when there is none.
pub fn list_or_nil(l: Vec<LValue>) -> (r: LValue)
    ensures
        r@ == Sexp::of_args(models(l@)),
{
    if l.len() == 0 {
        LValue::Nil
    } else {
        LValue::list(l)
    }
}

/// The items of a value that is a list.
pub open spec fn items_of(s: Sexp) -> Seq<Sexp> {
    s->List_0
}

/// The list argument of a call with one argument.
fn one_list<'a>(values: &'a [LValue], context: &'static str) -> (r: Result<
    &'a Vec<LValue>,
    LRuntimeError,
>)
    ensures
        models(values@).len() != 1 ==> fails(r, context@, wrong_number_text(models(values@), 1, 1)),
        models(values@).len() == 1 && !(models(values@)[0] is List) ==> fails(r, context@, wrong_type_text(
            models(values@)[0],
            KindLValue::List,
        )),
        models(values@).len() == 1 && models(values@)[0] is List ==> (r matches Ok(l) && models(l@)
            == items_of(models(values@)[0])),
{
    match one_argument(values, context) {
        Err(e) => Err(e),
        Ok(lv) => match lv {
            LValue::List(l) => {
                proof {
                    lemma_list_model(*l);
                }
                Ok(l)
            },
            other => Err(LRuntimeError::wrong_type(context, other, KindLValue::List)),
        },
    }
}

/// What a function of one list gives: the error of a wrong number of
/// arguments, the error of an argument that is no list, or what `f` makes of
/// the items.
pub open spec fn list_result(
    r: LResult,
    args: Seq<Sexp>,
    context: Seq<char>,
    f: spec_fn(Seq<Sexp>) -> Sexp,
) -> bool {
    if args.len() != 1 {
        is_arity_error(r, args, context, 1, 1)
    } else if !(args[0] is List) {
        is_type_error(r, args[0], context, KindLValue::List)
    } else {
        gives(r, f(items_of(args[0])))}
}

/// The first item of a list; `nil` for a list without items.
pub fn car(values: &[LValue]) -> (r: LResult)
    ensures
        list_result(
            r,
            models(values@),
            CAR@,
            |l: Seq<Sexp>|
                if l.len() > 0 {
                    l[0]
                } else {
                    Sexp::Nil
                },
        ),
{
    match one_list(values, CAR) {
        Err(e) => Err(e),
        Ok(l) => {
            if l.len() > 0 {
                assert(models(l@)[0] == l@[0]@);
                Ok(l[0].clone())
            } else {
                Ok(LValue::Nil)
            }
        },
    }
}

/// The number of items of a list.
pub fn length(values: &[LValue]) -> (r: LResult)
    ensures
        list_result(
            r,
            models(values@),
            LENGTH@,
            |l: Seq<Sexp>| Sexp::Number(LNumber::Usize(l.len() as usize)),
        ),
{
    match one_list(values, LENGTH) {
        Err(e) => Err(e),
        Ok(l) => Ok(LValue::Number(LNumber::Usize(l.len()))),
    }
}

/// The list without its first item; `nil` when nothing is left.
pub fn cdr(values: &[LValue]) -> (r: LResult)
    ensures
        list_result(
            r,
            models(values@),
            CDR@,
            |l: Seq<Sexp>|
                if l.len() > 0 {
                    Sexp::of_args(l.skip(1))
                } else {
                    Sexp::Nil
                },
        ),
{
    match one_list(values, CDR) {
        Err(e) => Err(e),
        Ok(l) => {
            if l.len() > 0 {
                let mut rest = clone_values(l.as_slice());
                let _ = rest.remove(0);
                assert(models(rest@) =~= models(l@).skip(1));
                Ok(list_or_nil(rest))
            } else {
                Ok(LValue::Nil)
            }
        },
    }
}

/// The last item of a list; `nil` for a list without items.
pub fn last(values: &[LValue]) -> (r: LResult)
    ensures
        list_result(
            r,
            models(values@),
            LAST@,
            |l: Seq<Sexp>|
                if l.len() > 0 {
                    l.last()
                } else {
                    Sexp::Nil
                },
        ),
{
    match one_list(values, LAST) {
        Err(e) => Err(e),
        Ok(l) => {
            if l.len() > 0 {
                assert(models(l@).last() == l@[l@.len() - 1]@);
                Ok(l[l.len() - 1].clone())
            } else {
                Ok(LValue::Nil)
            }
        },
    }
}

/// The list with its items in reverse order; `nil` for a list without items.
pub fn reverse(values: &[LValue]) -> (r: LResult)
    ensures
        list_result(r, models(values@), REVERSE@, |l: Seq<Sexp>| Sexp::of_args(l.reverse())),
{
    match one_list(values, REVERSE) {
        Err(e) => Err(e),
        Ok(l) => {
            let mut out: Vec<LValue> = Vec::new();
            let mut i: usize = l.len();
            while i > 0
                invariant
                    i <= l.len(),
                    out@.len() == l.len() - i,
                    forall|j: int| 0 <= j < out@.len() ==> out@[j]@ == l@[l@.len() - 1 - j]@,
                decreases i,
            {
                i -= 1;
                out.push(l[i].clone());
            }
            assert(models(out@) =~= models(l@).reverse());
            Ok(list_or_nil(out))
        },
    }
}

/// Puts the first argument in front of the second: in front of its items
/// when the second is a list; alone when the second is `nil`; in a list of
/// the two otherwise.
pub fn cons(values: &[LValue]) -> (r: LResult)
    ensures
        models(values@).len() != 2 ==> is_arity_error(r, models(values@), CONS@, 2, 2),
        models(values@).len() == 2 ==> gives(r, (match models(values@)[1] {
            Sexp::List(l) => Sexp::List(seq![models(values@)[0]] + l),
            Sexp::Nil => models(values@)[0],
            other => Sexp::List(seq![models(values@)[0], other]),
        })),
{
    if values.len() != 2 {
        return Err(LRuntimeError::wrong_number_of_args(CONS, values, 2..2));
    }
    assert(models(values@)[0] == values@[0]@);
    assert(models(values@)[1] == values@[1]@);
    let first = &values[0];
    match &values[1] {
        LValue::List(list) => {
            let mut new_list: Vec<LValue> = Vec::new();
            new_list.push(first.clone());
            let mut rest = clone_values(list.as_slice());
            let ghost r0 = rest@;
            new_list.append(&mut rest);
            proof {
                lemma_list_model(*list);
                assert(models(new_list@) =~= seq![first@] + models(r0));
            }
            Ok(LValue::list(new_list))
        },
        LValue::Nil => Ok(first.clone()),
        other => {
            let mut new_list: Vec<LValue> = Vec::new();
            new_list.push(first.clone());
            new_list.push(other.clone());
            assert(models(new_list@) =~= seq![first@, other@]);
            Ok(LValue::list(new_list))
        },
    }
}

/// The items of the first `n` arguments put end to end, where each of them
/// is a list.
pub open spec fn joined(args: Seq<Sexp>, n: nat) -> Seq<Sexp>
    decreases n,
{
    if n == 0 || n > args.len() {
        Seq::empty()
    } else {
        joined(args, (n - 1) as nat) + items_of(args[n - 1])
    }
}

/// Tells whether `k` is the first argument that is no list.
pub open spec fn first_non_list(args: Seq<Sexp>, k: int) -> bool {
    &&& 0 <= k < args.len()
    &&& !(args[k] is List)
    &&& forall|j: int| 0 <= j < k ==> args[j] is List
}

/// Merges lists into one: the items of the arguments put end to end, or
/// `nil` when there is none.
pub fn append(values: &[LValue]) -> (r: LResult)
    ensures
        (forall|j: int| 0 <= j < models(values@).len() ==> models(values@)[j] is List) ==> gives(r, Sexp::of_args(joined(models(values@), values@.len()))),
        forall|k: int|
            first_non_list(models(values@), k) ==> is_type_error(
                r,
                models(values@)[k],
                APPEND@,
                KindLValue::List,
            ),
{
    let mut new_list: Vec<LValue> = Vec::new();
    let mut i: usize = 0;
    while i < values.len()
        invariant
            i <= values.len(),
            forall|j: int| 0 <= j < i ==> models(values@)[j] is List,
            models(new_list@) == joined(models(values@), i as nat),
        decreases values.len() - i,
    {
        assert(models(values@)[i as int] == values@[i as int]@);
        match &values[i] {
            LValue::List(list) => {
                let mut items = clone_values(list.as_slice());
                let ghost a = new_list@;
                let ghost b = items@;
                new_list.append(&mut items);
                proof {
                    lemma_list_model(*list);
                    assert(models(new_list@) =~= models(a) + models(b));
                }
            },
            element => {
                proof {
                    assert forall|k: int| first_non_list(models(values@), k) implies k == i by {
                        if k < i {
                            assert(models(values@)[k] is List);
                        } else if k > i {
                            assert(models(values@)[i as int] is List);
                        }
                    }
                }
                return Err(LRuntimeError::wrong_type(APPEND, element, KindLValue::List));
            },
        }
        i += 1;
    }
    proof {
        assert forall|k: int| !first_non_list(models(values@), k) by {
            if 0 <= k < models(values@).len() {
                assert(models(values@)[k] is List);
            }
        }
    }
    Ok(list_or_nil(new_list))
}

/// Tells whether `k` is the first place of `l` that holds `x`.
pub open spec fn first_place(l: Seq<Sexp>, x: Sexp, k: int) -> bool {
    &&& 0 <= k < l.len()
    &&& l[k] == x
    &&& forall|j: int| 0 <= j < k ==> l[j] != x
}

/// The first place of `list` that holds `x`, if any.
pub fn find_value(list: &Vec<LValue>, x: &LValue) -> (r: Option<usize>)
    ensures
        r is Some <==> models(list@).contains(x@),
        r matches Some(k) ==> first_place(models(list@), x@, k as int),
{
    let mut k: usize = 0;
    while k < list.len()
        invariant
            k <= list.len(),
            forall|j: int| 0 <= j < k ==> models(list@)[j] != x@,
        decreases list.len() - k,
    {
        assert(models(list@)[k as int] == list@[k as int]@);
        if list[k].same(x) {
            return Some(k);
        }
        k += 1;
    }
    None
}

/// A copy of the items of `list` from the place `k` on.
pub fn clone_from_place(list: &Vec<LValue>, k: usize) -> (r: Vec<LValue>)
    requires
        k <= list@.len(),
    ensures
        models(r@) == models(list@).skip(k as int),
{
    let mut r: Vec<LValue> = Vec::new();
    let mut i: usize = k;
    while i < list.len()
        invariant
            k <= i <= list.len(),
            r@.len() == i - k,
            forall|j: int| 0 <= j < r@.len() ==> r@[j]@ == list@[k + j]@,
        decreases list.len() - i,
    {
        r.push(list[i].clone());
        i += 1;
    }
    assert(models(r@) =~= models(list@).skip(k as int));
    r
}

/// Looks for the first argument in the second, which is a list, and returns
/// the list from the first place that holds it on; `nil` when no place does.
pub fn member(values: &[LValue]) -> (r: LResult)
    ensures
        models(values@).len() != 2 ==> is_arity_error(r, models(values@), MEMBER@, 2, 2),
        models(values@).len() == 2 && !(models(values@)[1] is List) ==> is_type_error(
            r,
            models(values@)[1],
            MEMBER@,
            KindLValue::List,
        ),
        models(values@).len() == 2 && models(values@)[1] is List ==> {
            let x = models(values@)[0];
            let l = items_of(models(values@)[1]);
            &&& (forall|k: int| first_place(l, x, k) ==> gives(r, Sexp::List(l.skip(k))))
            &&& !l.contains(x) ==> gives(r, Sexp::Nil)
        },
{
    if values.len() != 2 {
        return Err(LRuntimeError::wrong_number_of_args(MEMBER, values, 2..2));
    }
    assert(models(values@)[0] == values@[0]@);
    assert(models(values@)[1] == values@[1]@);
    let value_to_find = &values[0];
    match &values[1] {
        LValue::List(list) => {
            proof {
                lemma_list_model(*list);
            }
            let ghost l = models(list@);
            match find_value(list, value_to_find) {
                Some(k) => {
                    proof {
                        assert forall|k2: int| first_place(l, value_to_find@, k2) implies k2
                            == k by {
                            if k2 < k {
                                assert(l[k2] != value_to_find@);
                            } else if k2 > k {
                                assert(l[k as int] != value_to_find@);
                            }
                        }
                    }
                    Ok(LValue::list(clone_from_place(list, k)))
                },
                None => {
                    proof {
                        assert forall|k2: int| !first_place(l, value_to_find@, k2) by {
                            if 0 <= k2 < l.len() {
                                assert(l.contains(l[k2]));
                            }
                        }
                    }
                    Ok(LValue::Nil)
                },
            }
        },
        lv => Err(LRuntimeError::wrong_type(MEMBER, lv, KindLValue::List)),
    }
}

} // verus!
