use ompas::lvalue::{LNumber, LValue};

#[test]
fn test_read() {
    assert!(true)
}

#[test]
fn test_write() {
    assert!(true)
}

#[test]
fn value_prints_as_list() {
    let lv = LValue::list(vec![LValue::symbol("pick"), LValue::from_int(-12), LValue::True]);
    assert_eq!(lv.to_string(), "(pick -12 true)");
}

#[test]
fn values_print_by_kind() {
    assert_eq!(LValue::Nil.to_string(), "nil");
    assert_eq!(LValue::True.to_string(), "true");
    assert_eq!(LValue::from_int(0).to_string(), "0");
    assert_eq!(LValue::from_int(i64::MIN).to_string(), "-9223372036854775808");
    assert_eq!(LValue::from_int(i64::MAX).to_string(), "9223372036854775807");
    assert_eq!(LValue::Number(LNumber::Usize(1907)).to_string(), "1907");
    assert_eq!(LValue::String("a b".to_string()).to_string(), "a b");
    assert_eq!(LValue::Character('x').to_string(), "x");
    assert_eq!(LValue::list(vec![]).to_string(), "()");
    assert_eq!(LValue::failure(LValue::from_int(5)).to_string(), "(err 5)");
    assert_eq!(LValue::Fn("car".to_string()).to_string(), "car");
    assert_eq!(LValue::Handle(12).to_string(), "handle-12");
}

#[test]
fn character_is_appended_once() {
    let lv = LValue::list(vec![LValue::Character('a'), LValue::Character('b')]);
    assert_eq!(lv.to_string(), "(a b)");
}

#[test]
fn equality_is_structural() {
    let a = LValue::list(vec![LValue::symbol("at"), LValue::symbol("r1"), LValue::from_int(3)]);
    let b = a.clone();
    assert_eq!(a, b);
    assert_ne!(a, LValue::list(vec![LValue::symbol("at"), LValue::symbol("r1")]));
    assert_ne!(LValue::symbol("a"), LValue::String("a".to_string()));
    assert_ne!(LValue::Number(LNumber::Int(3)), LValue::Number(LNumber::Usize(3)));
}
