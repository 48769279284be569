use ompas::instance::{InstanceCollection, InstanceSet};
use ompas::lvalue::LValue;
use ompas::monitor::{MonitorService, WaitOutcome};
use ompas::state::{state_function_of, PartialState, StateType, WorldState};
use ompas::state_update::{StateRule, StateUpdateManager};

fn sv(f: &str, arg: &str) -> LValue {
    LValue::list(vec![LValue::symbol(f), LValue::symbol(arg)])
}

#[test]
fn facts_are_written_and_read_back() {
    let mut w = WorldState::new();
    w.add_fact(StateType::Dynamic, sv("robot.busy", "r1"), LValue::True);
    w.add_fact(StateType::Static, sv("robot.speed", "r1"), LValue::from_int(3));
    assert_eq!(w.get_fact(StateType::Dynamic, &sv("robot.busy", "r1")), LValue::True);
    // reading an absent key yields nil
    assert_eq!(w.get_fact(StateType::Dynamic, &sv("robot.busy", "r2")), LValue::Nil);
    assert_eq!(w.get_fact(StateType::InnerWorld, &sv("robot.busy", "r1")), LValue::Nil);
    // adding a fact whose state variable exists overwrites the value
    w.add_fact(StateType::Dynamic, sv("robot.busy", "r1"), LValue::Nil);
    assert_eq!(w.get_fact(StateType::Dynamic, &sv("robot.busy", "r1")), LValue::Nil);
    assert_eq!(w.get_partition(StateType::Dynamic).len(), 1);
    // retracting a fact that does not hold is a no-op
    w.retract_fact(StateType::Dynamic, &sv("robot.busy", "r1"), &LValue::True);
    assert_eq!(w.get_partition(StateType::Dynamic).len(), 1);
    w.retract_fact(StateType::Dynamic, &sv("robot.busy", "r1"), &LValue::Nil);
    assert_eq!(w.get_partition(StateType::Dynamic).len(), 0);
    w.retract_fact(StateType::Dynamic, &sv("robot.busy", "r9"), &LValue::Nil);
    assert_eq!(w.get_partition(StateType::Static).len(), 1);
}

#[test]
fn snapshots_do_not_move() {
    let mut w = WorldState::new();
    w.add_fact(StateType::Dynamic, sv("at", "r1"), LValue::symbol("dock"));
    w.add_instance("r1", "robot");
    let snapshot = w.get_snapshot();
    w.add_fact(StateType::Dynamic, sv("at", "r1"), LValue::symbol("bay"));
    w.add_instance("r2", "robot");
    assert_eq!(snapshot.dynamic.get(&sv("at", "r1")), LValue::symbol("dock"));
    assert_eq!(snapshot.instance.get_instances("robot"), vec!["r1".to_string()]);
    assert_eq!(w.get_fact(StateType::Dynamic, &sv("at", "r1")), LValue::symbol("bay"));
    assert_eq!(w.instances("robot"), vec!["r1".to_string(), "r2".to_string()]);
}

#[test]
fn partial_state_alone() {
    let mut p = PartialState::new();
    p.insert(LValue::symbol("a"), LValue::from_int(1));
    p.insert(LValue::symbol("b"), LValue::from_int(2));
    p.insert(LValue::symbol("a"), LValue::from_int(3));
    assert_eq!(p.len(), 2);
    assert_eq!(p.fact_at(0), (LValue::symbol("a"), LValue::from_int(3)));
    assert_eq!(p.get(&LValue::symbol("b")), LValue::from_int(2));
    assert_eq!(state_function_of(&sv("at", "r1")), Some("at".to_string()));
    assert_eq!(state_function_of(&LValue::symbol("x")), Some("x".to_string()));
    assert_eq!(state_function_of(&LValue::from_int(1)), None);
}

#[test]
fn instance_of_follows_the_lattice() {
    let mut c = InstanceCollection::new();
    c.add_type("robot", None);
    c.add_type("drone", Some("robot"));
    c.add_type("truck", Some("vehicle"));
    c.add_instance("d1", "drone");
    c.add_instance("r1", "robot");
    c.add_instance("p1", "package");
    assert!(c.is_of_type("d1", "drone"));
    assert!(c.is_of_type("d1", "robot"));
    assert!(c.is_of_type("d1", "object"));
    assert!(!c.is_of_type("r1", "drone"));
    assert!(c.is_of_type("r1", "robot"));
    assert!(!c.is_of_type("d1", "vehicle"));
    assert!(!c.is_of_type("d1", "nothing"));
    // an unknown type is added under the root type
    assert!(c.is_of_type("p1", "object"));
    assert_eq!(c.get_instances("robot"), vec!["r1".to_string(), "d1".to_string()]);
    assert_eq!(
        c.get_instances("object"),
        vec!["r1".to_string(), "d1".to_string(), "p1".to_string()]
    );
    assert_eq!(c.get_instances("nothing"), Vec::<String>::new());
    assert_eq!(c.get_unk_of_type("robot"), "unk_robot");
    assert_eq!(c.get_unk_of_type("nothing"), "unk");
    assert_eq!(InstanceCollection::format_unk_type("t"), "unk_t");
    // an instance has one type
    c.add_instance("d1", "truck");
    assert!(!c.is_of_type("d1", "robot"));
    assert!(c.is_of_type("d1", "vehicle"));
    let snapshot = c.get_snapshot();
    c.clear();
    assert_eq!(c.get_instances("object"), Vec::<String>::new());
    assert!(snapshot.is_of_type("r1", "robot"));
}

#[test]
fn instance_set_alone() {
    let mut s = InstanceSet::new("unk_robot".to_string());
    s.add_element("r1");
    s.add_element("r2");
    s.add_element("r1");
    assert_eq!(s.get_instance(), vec!["r1".to_string(), "r2".to_string()]);
    assert_eq!(
        s.get_all_elements(),
        vec!["r1".to_string(), "r2".to_string(), "unk_robot".to_string()]
    );
    assert!(s.contains("r2"));
    assert!(!s.contains("r3"));
    s.remove_element("r1");
    assert_eq!(s.get_instance(), vec!["r2".to_string()]);
}

#[test]
fn monitor_wakes_once() {
    // wait-for (= (robot.busy r) false), with the robot busy at first
    let mut monitors = MonitorService::new();
    let expr = LValue::list(vec![LValue::symbol("="), sv("robot.busy", "r"), LValue::Nil]);
    let outcome = monitors
        .wait_for(expr.clone(), vec!["robot.busy".to_string()], false)
        .unwrap();
    let handle = match outcome {
        WaitOutcome::Suspended(h) => h,
        WaitOutcome::Ready(_) => panic!("the predicate does not hold yet"),
    };
    assert_eq!(monitors.n_waiting(), 1);
    // a write on another state function does not concern the predicate
    assert_eq!(monitors.affected(&vec!["robot.battery".to_string()]), Vec::<u64>::new());
    // the assert on robot.busy does
    assert_eq!(monitors.affected(&vec!["robot.busy".to_string()]), vec![handle]);
    // the predicate is evaluated again: still false, then true
    assert!(!monitors.report(handle, false));
    assert!(monitors.report(handle, true));
    // one wakeup per handle at most
    assert!(!monitors.report(handle, true));
    assert_eq!(monitors.n_waiting(), 0);
    assert_eq!(monitors.affected(&vec!["robot.busy".to_string()]), Vec::<u64>::new());
}

#[test]
fn monitor_returns_at_once_when_true() {
    let mut monitors = MonitorService::new();
    let outcome = monitors.wait_for(LValue::True, vec![], true).unwrap();
    assert_eq!(outcome, WaitOutcome::Ready(0));
    assert_eq!(monitors.n_waiting(), 0);
    let outcome = monitors
        .wait_for(LValue::symbol("p"), vec!["p".to_string()], false)
        .unwrap();
    assert_eq!(outcome, WaitOutcome::Suspended(1));
    assert!(monitors.cancel(1));
    assert!(!monitors.cancel(1));
    assert!(!monitors.report(1, true));
}

fn labels(l: &[&str]) -> Vec<String> {
    l.iter().map(|s| s.to_string()).collect()
}

#[test]
fn subscribers_hear_of_the_writes_they_asked_for() {
    let mut m = StateUpdateManager::new();
    let all = m.subscribe(StateRule::All);
    let doors = m.subscribe(StateRule::Specific(labels(&["door", "lock"])));
    let battery = m.subscribe(StateRule::Specific(labels(&["battery"])));
    assert_eq!((all, doors, battery), (0, 1, 2));
    assert_eq!(m.notified(&labels(&["door"])), vec![0, 1]);
    assert_eq!(m.notified(&labels(&["battery", "lock"])), vec![0, 1, 2]);
    assert_eq!(m.notified(&labels(&["position"])), vec![0]);
    assert_eq!(m.notified(&labels(&[])), vec![0]);
    assert!(m.update_rule(doors, StateRule::Specific(labels(&["position"]))));
    assert_eq!(m.notified(&labels(&["door"])), vec![0]);
    assert_eq!(m.notified(&labels(&["position"])), vec![0, 1]);
    assert!(!m.update_rule(7, StateRule::All));
    assert_eq!(m.len(), 3);
    assert!(m.rule_of(7).is_none());
    match m.rule_of(1) {
        Some(StateRule::Specific(l)) => assert_eq!(l, labels(&["position"])),
        _ => panic!("the rule of the second subscriber is specific"),
    }
}

#[test]
fn a_write_is_announced_to_those_who_read_it() {
    let mut w = WorldState::new();
    let mut subs = StateUpdateManager::new();
    subs.subscribe(StateRule::Specific(labels(&["robot.busy"])));
    subs.subscribe(StateRule::Specific(labels(&["robot.at"])));
    subs.subscribe(StateRule::All);
    let mut monitors = MonitorService::new();
    let busy = monitors.wait_for(LValue::symbol("e1"), labels(&["robot.busy"]), false);
    let at = monitors.wait_for(LValue::symbol("e2"), labels(&["robot.at", "door"]), false);
    assert!(matches!(busy, Some(WaitOutcome::Suspended(0))));
    assert!(matches!(at, Some(WaitOutcome::Suspended(1))));
    let n = ompas::commit::commit_fact(
        &mut w,
        StateType::Dynamic,
        sv("robot.busy", "r1"),
        LValue::Nil,
        &subs,
        &monitors,
    );
    assert_eq!(n.subscribers, vec![0, 2]);
    assert_eq!(n.monitors, vec![0]);
    assert_eq!(w.get_fact(StateType::Dynamic, &sv("robot.busy", "r1")), LValue::Nil);
    let n = ompas::commit::commit_fact(
        &mut w,
        StateType::Dynamic,
        LValue::from_int(3),
        LValue::True,
        &subs,
        &monitors,
    );
    assert_eq!(n.subscribers, vec![2]);
    assert!(n.monitors.is_empty());
    assert_eq!(ompas::commit::footprint(&LValue::symbol("door")), labels(&["door"]));
}

#[test]
fn the_facts_that_a_body_reads_hold_the_locks() {
    let mut w = WorldState::new();
    w.add_fact(StateType::Static, sv("robot.speed", "r1"), LValue::from_int(3));
    w.add_fact(StateType::Dynamic, sv("robot.busy", "r1"), LValue::True);
    w.add_fact(StateType::Dynamic, sv("robot.speed", "r1"), LValue::from_int(5));
    w.add_fact(StateType::InnerWorld, sv("door", "d1"), LValue::Nil);
    let mut m = ompas::resource_manager::ResourceManager::new();
    m.declare("arm", 1).unwrap();
    m.declare("bay", 2).unwrap();
    m.declare("dock", 1).unwrap();
    m.acquire("bay", 1, 0).unwrap();
    m.acquire("dock", 1, 0).unwrap();
    let facts = ompas::facts::get_facts(&w, &m);
    assert_eq!(facts.len(), 5);
    // the later partition is written over the earlier one
    assert_eq!(facts.get(&sv("robot.speed", "r1")), LValue::from_int(5));
    assert_eq!(facts.get(&sv("robot.busy", "r1")), LValue::True);
    assert_eq!(facts.get(&sv("door", "d1")), LValue::Nil);
    assert_eq!(facts.get(&sv("locked", "bay")), LValue::True);
    assert_eq!(facts.get(&sv("locked", "dock")), LValue::True);
    // a resource that nobody holds has no such fact: reading it gives nil
    assert_eq!(facts.get(&sv("locked", "arm")), LValue::Nil);
    let (a, _) = facts.fact_at(3);
    assert!(a == sv("locked", "bay"));
    m.release(1).unwrap();
    let facts = ompas::facts::get_facts(&w, &m);
    assert_eq!(facts.len(), 4);
    assert_eq!(facts.get(&sv("locked", "dock")), LValue::Nil);
}

#[test]
fn instances_are_gathered_once() {
    let mut c = InstanceCollection::new();
    c.add_type("robot", None);
    c.add_type("arm", Some("robot"));
    c.add_instance("r1", "robot");
    c.add_instance("r1", "robot");
    c.add_instance("a1", "arm");
    c.add_instance("r1", "arm");
    c.add_instance("a1", "arm");
    let mut all = c.get_instances("object");
    all.sort();
    assert_eq!(all, vec!["a1".to_string(), "r1".to_string()]);
    assert_eq!(c.get_instances("robot").len(), 2);
    assert!(c.get_instances("truck").is_empty());
}

#[test]
fn a_fact_may_bear_the_instant_of_its_observation() {
    let mut w = WorldState::new();
    w.add_fact_at(StateType::Dynamic, sv("robot.at", "r1"), LValue::symbol("kitchen"), 12);
    w.add_fact(StateType::Dynamic, sv("robot.busy", "r1"), LValue::True);
    assert_eq!(w.fact_time(StateType::Dynamic, &sv("robot.at", "r1")), Some(12));
    assert_eq!(w.fact_time(StateType::Dynamic, &sv("robot.busy", "r1")), None);
    assert_eq!(w.fact_time(StateType::Dynamic, &sv("robot.at", "r2")), None);
    assert_eq!(w.fact_time(StateType::Static, &sv("robot.at", "r1")), None);
    assert_eq!(w.fact_time(StateType::Instance, &sv("robot.at", "r1")), None);
    // a later value takes the place and the instant of the earlier one
    w.add_fact_at(StateType::Dynamic, sv("robot.at", "r1"), LValue::symbol("hall"), 20);
    assert_eq!(w.get_fact(StateType::Dynamic, &sv("robot.at", "r1")), LValue::symbol("hall"));
    assert_eq!(w.fact_time(StateType::Dynamic, &sv("robot.at", "r1")), Some(20));
    w.add_fact(StateType::Dynamic, sv("robot.at", "r1"), LValue::symbol("dock"));
    assert_eq!(w.fact_time(StateType::Dynamic, &sv("robot.at", "r1")), None);
    // a copy keeps the instants
    let mut p = PartialState::new();
    p.insert_at(LValue::symbol("a"), LValue::from_int(1), 3);
    p.insert(LValue::symbol("b"), LValue::from_int(2));
    let q = p.clone();
    assert_eq!(q.time_of(&LValue::symbol("a")), Some(3));
    assert_eq!(q.time_of(&LValue::symbol("b")), None);
    p.retract(&LValue::symbol("a"), &LValue::from_int(1));
    assert_eq!(p.time_of(&LValue::symbol("a")), None);
    assert_eq!(p.time_of(&LValue::symbol("b")), None);
    assert_eq!(p.len(), 1);
}
