use ompas::functions;
use ompas::lvalue::{LNumber, LValue};

fn num(i: i64) -> LValue {
    LValue::from_int(i)
}

fn nums(v: &[i64]) -> LValue {
    LValue::list(v.iter().map(|i| num(*i)).collect())
}

#[test]
fn arithmetic_on_integers() {
    assert_eq!(functions::add(&[num(1), num(2), num(39)]).unwrap(), num(42));
    assert_eq!(functions::add(&[]).unwrap(), num(0));
    assert_eq!(functions::mul(&[num(6), num(-7)]).unwrap(), num(-42));
    assert_eq!(functions::mul(&[]).unwrap(), num(1));
    assert_eq!(functions::sub(&[num(1), num(3)]).unwrap(), num(-2));
    assert_eq!(functions::div(&[num(7), num(2)]).unwrap(), num(3));
    assert_eq!(functions::div(&[num(-7), num(2)]).unwrap(), num(-3));
    assert_eq!(functions::div(&[num(7), num(-2)]).unwrap(), num(-3));
    assert_eq!(functions::div(&[num(-7), num(-2)]).unwrap(), num(3));
    assert_eq!(functions::div(&[num(i64::MIN), num(1)]).unwrap(), num(i64::MIN));
    assert_eq!(functions::div(&[num(i64::MIN), num(i64::MIN)]).unwrap(), num(1));
    assert_eq!(functions::div(&[num(5), num(i64::MIN)]).unwrap(), num(0));
    assert_eq!(
        functions::add(&[LValue::Number(LNumber::Usize(2)), num(3)]).unwrap(),
        num(5)
    );
}

#[test]
fn arithmetic_errors() {
    let e = functions::add(&[num(i64::MAX), num(1)]).unwrap_err();
    assert_eq!(e.to_string(), "+: integer overflow\n");
    let e = functions::add(&[num(1), LValue::symbol("a"), num(i64::MAX)]).unwrap_err();
    assert_eq!(e.get_message(), "Wrong type: a is a symbol, expected number.");
    let e = functions::mul(&[num(i64::MAX), num(2)]).unwrap_err();
    assert_eq!(e.to_string(), "*: integer overflow\n");
    let e = functions::sub(&[num(i64::MIN), num(1)]).unwrap_err();
    assert_eq!(e.to_string(), "-: integer overflow\n");
    let e = functions::sub(&[num(1)]).unwrap_err();
    assert_eq!(
        e.get_message(),
        "Wrong number of args: (1) is of length 1, expected 2."
    );
    let e = functions::div(&[num(1), num(0)]).unwrap_err();
    assert_eq!(e.to_string(), "/: division by zero\n");
    let e = functions::div(&[num(i64::MIN), num(-1)]).unwrap_err();
    assert_eq!(e.to_string(), "/: integer overflow\n");
    let e = functions::div(&[num(1), LValue::True]).unwrap_err();
    assert_eq!(e.get_message(), "Wrong type: true is a bool, expected number.");
}

#[test]
fn comparisons() {
    assert_eq!(functions::gt(&[num(3), num(2)]).unwrap(), LValue::True);
    assert_eq!(functions::gt(&[num(2), num(2)]).unwrap(), LValue::Nil);
    assert_eq!(functions::lt(&[num(-3), num(2)]).unwrap(), LValue::True);
    assert_eq!(functions::ge(&[num(2), num(2)]).unwrap(), LValue::True);
    assert_eq!(functions::le(&[num(3), num(2)]).unwrap(), LValue::Nil);
    assert_eq!(functions::lt(&[num(1), LValue::symbol("a")]).unwrap(), LValue::Nil);
    assert_eq!(
        functions::lt(&[num(-1), LValue::Number(LNumber::Usize(usize::MAX))]).unwrap(),
        LValue::True
    );
    assert!(functions::gt(&[num(3)]).is_err());
    assert_eq!(functions::eq(&[nums(&[1, 2]), nums(&[1, 2])]).unwrap(), LValue::True);
    assert_eq!(functions::eq(&[nums(&[1, 2]), nums(&[2, 1])]).unwrap(), LValue::Nil);
    assert!(functions::eq(&[num(3)]).is_err());
}

#[test]
fn predicates_on_kinds() {
    assert_eq!(functions::is_none(&[LValue::Nil]).unwrap(), LValue::True);
    assert_eq!(functions::is_none(&[num(0)]).unwrap(), LValue::Nil);
    assert_eq!(functions::is_number(&[num(0)]).unwrap(), LValue::True);
    assert_eq!(functions::is_number(&[LValue::symbol("a")]).unwrap(), LValue::Nil);
    assert_eq!(functions::is_bool(&[LValue::True]).unwrap(), LValue::True);
    assert_eq!(functions::is_bool(&[LValue::Nil]).unwrap(), LValue::True);
    assert_eq!(functions::is_bool(&[num(1)]).unwrap(), LValue::Nil);
    assert_eq!(functions::is_fn(&[LValue::Fn("car".to_string())]).unwrap(), LValue::True);
    assert_eq!(functions::is_fn(&[num(1)]).unwrap(), LValue::Nil);
    assert!(functions::is_fn(&[]).is_err());
}

#[test]
fn lists() {
    assert_eq!(functions::list(&[num(1), num(2)]).unwrap(), nums(&[1, 2]));
    assert_eq!(functions::list(&[]).unwrap(), nums(&[]));
    assert_eq!(functions::car(&[nums(&[4, 5, 6])]).unwrap(), num(4));
    assert_eq!(functions::car(&[nums(&[])]).unwrap(), LValue::Nil);
    assert!(functions::car(&[num(4)]).is_err());
    assert_eq!(functions::cdr(&[nums(&[4, 5, 6])]).unwrap(), nums(&[5, 6]));
    assert_eq!(functions::cdr(&[nums(&[4])]).unwrap(), LValue::Nil);
    assert_eq!(functions::cdr(&[nums(&[])]).unwrap(), LValue::Nil);
    assert_eq!(functions::last(&[nums(&[4, 5, 6])]).unwrap(), num(6));
    assert_eq!(functions::last(&[nums(&[])]).unwrap(), LValue::Nil);
    assert_eq!(functions::reverse(&[nums(&[4, 5, 6])]).unwrap(), nums(&[6, 5, 4]));
    assert_eq!(functions::reverse(&[nums(&[])]).unwrap(), LValue::Nil);
    assert_eq!(functions::cons(&[num(1), nums(&[2, 3])]).unwrap(), nums(&[1, 2, 3]));
    assert_eq!(functions::cons(&[num(1), LValue::Nil]).unwrap(), num(1));
    assert_eq!(functions::cons(&[num(1), num(2)]).unwrap(), nums(&[1, 2]));
    assert!(functions::cons(&[num(1)]).is_err());
    assert_eq!(
        functions::append(&[nums(&[1]), nums(&[]), nums(&[2, 3])]).unwrap(),
        nums(&[1, 2, 3])
    );
    assert_eq!(functions::append(&[]).unwrap(), LValue::Nil);
    let e = functions::append(&[nums(&[1]), num(2), LValue::True]).unwrap_err();
    assert_eq!(e.get_message(), "Wrong type: 2 is a int, expected list.");
    assert_eq!(
        functions::member(&[num(5), nums(&[4, 5, 6, 5])]).unwrap(),
        nums(&[5, 6, 5])
    );
    assert_eq!(functions::member(&[num(4), nums(&[4, 5])]).unwrap(), nums(&[4, 5]));
    assert_eq!(functions::member(&[num(7), nums(&[4, 5])]).unwrap(), LValue::Nil);
    assert!(functions::member(&[num(7), num(7)]).is_err());
}

#[test]
fn begin_get_default() {
    assert_eq!(functions::begin(&[num(1), num(2)]).unwrap(), num(2));
    let e = functions::begin(&[]).unwrap_err();
    assert_eq!(e.to_string(), "begin: no SExpr after begin\n");
    assert_eq!(functions::get(&[num(1)]).unwrap(), num(1));
    assert!(functions::get(&[]).is_err());
    assert!(functions::get(&[num(1), num(2)]).is_err());
    assert_eq!(
        functions::default(&[]).unwrap(),
        LValue::String("default function".to_string())
    );
}

#[test]
fn length_counts_the_items() {
    let two = ompas::functions::length(&[LValue::list(vec![num(1), num(2)])]).unwrap();
    assert!(two == LValue::Number(LNumber::Usize(2)));
    assert_eq!(two.to_string(), "2");
    let e = ompas::functions::length(&[num(1)]).unwrap_err();
    assert_eq!(e.to_string(), "length: Wrong type: 1 is a int, expected list.\n");
    assert!(ompas::functions::length(&[]).is_err());
}
