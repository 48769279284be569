use ompas::lvalue::LValue;
use ompas::quoting::{_expand_quoting, name_of_mark};

fn s(name: &str) -> LValue {
    LValue::symbol(name)
}

#[test]
fn marks_of_quotation_are_written_out() {
    let out = _expand_quoting(vec![s("f"), s("'x"), s("`y"), s(",z"), LValue::from_int(3)]);
    assert_eq!(out.to_string(), "(f (quote x) (quasiquote y) (unquote z) 3)");
}

#[test]
fn a_mark_alone_takes_the_value_behind_it() {
    let list = LValue::list(vec![s("a"), s("b")]);
    let out = _expand_quoting(vec![s("'"), list, s("c"), s(","), s("'d")]);
    assert_eq!(out.to_string(), "((quote (a b)) c (unquote 'd))");
    // a mark at the end has nothing to take
    assert_eq!(_expand_quoting(vec![s("a"), s("`")]).to_string(), "(a `)");
}

#[test]
fn what_bears_no_mark_stays() {
    let text = LValue::String("'x".to_string());
    let out = _expand_quoting(vec![s("a"), text.clone(), s("x'")]);
    // a string is no symbol: it keeps its mark
    match &out {
        LValue::List(items) => {
            assert_eq!(items.len(), 3);
            assert!(items[1] == text);
            assert!(items[2] == s("x'"));
        }
        _ => panic!("a list was expected"),
    }
    assert!(_expand_quoting(vec![]) == LValue::Nil);
    assert_eq!(name_of_mark('\''), Some("quote"));
    assert_eq!(name_of_mark('`'), Some("quasiquote"));
    assert_eq!(name_of_mark(','), Some("unquote"));
    assert_eq!(name_of_mark('a'), None);
}
