use ompas::benchmark::{BenchmarkData, Duration, RunData};
use ompas::lmodule::{Doc, InitScheme, LModule};
use ompas::lvalue::LValue;
use ompas::platform::{signal_or_none, InterruptSignal, SocketInfo};
use ompas::static_eval::PLValue;

#[test]
fn benchmark_report() {
    let data = BenchmarkData {
        runs: vec![
            RunData { duration: Duration::new(3599, 600_000_000) },
            RunData { duration: Duration::new(62, 500_000_000) },
            RunData { duration: Duration::from_secs(1) },
        ],
    };
    assert_eq!(
        data.format_data(),
        "GOBOT-SIM BENCHMARK\n\t-total time: 1:1:3\n\t-number of runs: 3"
    );
    let mean = data.mean_time();
    assert_eq!(mean.as_secs(), 1221);
    assert_eq!(mean.subsec_nanos(), 33_333_333);
    assert_eq!(data.total().as_secs(), 3663);
    assert_eq!(Duration::from_secs(u64::MAX).checked_add(&Duration::new(0, 999_999_999)).map(|d| d.as_secs()), Some(u64::MAX));
    assert!(Duration::from_secs(u64::MAX).checked_add(&Duration::from_secs(1)).is_none());
    assert_eq!(Duration::new(7, 0).div(2).subsec_nanos(), 500_000_000);
}

#[test]
fn modules_document_their_elements() {
    let mut m = LModule::new("mod-io", Doc::new_verbose("Input and output.", "functions:"));
    m.add_fn("print", Doc::new("Prints a value."), false);
    m.add_async_fn("read", Doc::new("Reads a file."), true);
    m.add_lambda("twice", "(lambda (x) (* 2 x))", Doc::new("Doubles."));
    m.add_macro("unless", "(lambda (c b) `(if ,c nil ,b))", Doc::new("Unless."));
    m.add_prelude("pi", LValue::from_int(3), Doc::new("Roughly."));
    m.add_mut_fn("write", Doc::new("Writes."));
    m.add_async_mut_fn("load", Doc::new("Loads."));
    let sub = LModule::new("sub", Doc::new("A module inside."));
    m.add_submodule(sub);
    assert_eq!(m.get_label(), "mod-io");
    let mut prelude = InitScheme::default();
    prelude.add("(define a 1)".to_string());
    let mut other = InitScheme(vec!["(define b 2)".to_string()]);
    prelude.append(&mut other);
    assert_eq!(prelude.inner(), vec!["(define a 1)", "(define b 2)"]);
    assert!(other.inner().is_empty());
}

#[test]
fn values_of_a_static_evaluation() {
    let p = PLValue::into_pure(&LValue::from_int(3));
    assert!(p.is_pure());
    assert_eq!(p.get_lvalue(), &LValue::from_int(3));
    let u = PLValue::into_unpure(&LValue::symbol("x"));
    assert!(!u.is_pure());
    assert_eq!(u.to_string(), "x");
    let d = PLValue::default();
    assert!(d.is_pure());
    assert_eq!(d.into_lvalue(), LValue::Nil);
}

#[test]
fn signals_and_sockets() {
    assert_eq!(signal_or_none(None), InterruptSignal::NInterrupted);
    assert_eq!(
        signal_or_none(Some(InterruptSignal::Interrupted)),
        InterruptSignal::Interrupted
    );
    let s = SocketInfo::default();
    assert_eq!(s.addr, "");
    assert_eq!(s.port, 0);
}
