use ompas::functions::{check, err, is_err};
use ompas::lruntimeerror::LRuntimeError;
use ompas::lvalue::{KindLValue, LValue};

#[test]
fn test_err() {
    let lv = LValue::from_int(5);
    let result = err(&[lv]).unwrap();
    assert_eq!(LValue::Failure(Box::new(LValue::from_int(5))), result);
}

#[test]
fn test_is_err() {
    let result = is_err(&[LValue::Failure(Box::new(LValue::from_int(5)))]).unwrap();
    assert_eq!(result, LValue::True);
    let result = is_err(&[LValue::from_int(5)]).unwrap();
    assert_eq!(result, LValue::Nil);
}

#[test]
fn test_check() {
    let result = check(&[LValue::Nil]).unwrap();
    assert_eq!(result, LValue::Failure(Box::new(LValue::Nil)));
    let result = check(&[LValue::True]).unwrap();
    assert_eq!(result, LValue::True);
}

#[test]
fn check_refuses_what_is_no_boolean() {
    let e = check(&[LValue::from_int(3)]).unwrap_err();
    assert_eq!(e.to_string(), "check: Wrong type: 3 is a int, expected bool.\n");
    let e = check(&[]).unwrap_err();
    assert_eq!(
        e.to_string(),
        "check: Wrong number of args: nil is of length 0, expected 1.\n"
    );
}

#[test]
fn error_messages() {
    let e = LRuntimeError::new("eval", "boom");
    assert_eq!(e.to_string(), "eval: boom\n");
    let e = e.chain("outer");
    assert_eq!(e.to_string(), "outer:eval: boom\n");
    assert_eq!(e.get_message(), "boom");

    let args = [LValue::from_int(1), LValue::from_int(2), LValue::from_int(3)];
    let e = LRuntimeError::wrong_number_of_args("f", &args, 2..2);
    assert_eq!(e.get_message(), "Wrong number of args: (1 2 3) is of length 3, expected 2.");
    let e = LRuntimeError::wrong_number_of_args("f", &args, 4..usize::MAX);
    assert_eq!(
        e.get_message(),
        "Wrong number of args: (1 2 3) is of length 3, expected at least 4."
    );
    let e = LRuntimeError::wrong_number_of_args("f", &args, 0..2);
    assert_eq!(
        e.get_message(),
        "Wrong number of args: (1 2 3) is of length 3, expected at most 2."
    );
    let e = LRuntimeError::wrong_number_of_args("f", &args, 1..2);
    assert_eq!(
        e.get_message(),
        "Wrong number of args: (1 2 3) is of length 3, expected between 1 and 2."
    );

    let e = LRuntimeError::wrong_type("f", &LValue::symbol("a"), KindLValue::List);
    assert_eq!(e.get_message(), "Wrong type: a is a symbol, expected list.");

    let e = LRuntimeError::not_in_list_of_expected_types(
        "f",
        &LValue::True,
        vec![KindLValue::List, KindLValue::Symbol],
    );
    assert_eq!(
        e.get_message(),
        "Wrong type: true is a bool, expected either one of [\n    List,\n    Symbol,\n]."
    );
    let e = LRuntimeError::not_in_list_of_expected_types("f", &LValue::True, vec![]);
    assert_eq!(e.get_message(), "Wrong type: true is a bool, expected either one of [].");

    let e = LRuntimeError::conversion_error("f", &LValue::from_int(4), KindLValue::Symbol);
    assert_eq!(e.get_message(), "Cannot convert 4 of type int into symbol");

    let e = LRuntimeError::extended_conversion_error("f", "4", "i64", "String");
    assert_eq!(e.get_message(), "Cannot convert 4 of type i64 into String");
}
