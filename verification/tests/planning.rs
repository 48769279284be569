use ompas::flow::{self, BranchingFlow, Flow, FlowKind, RootType};
use ompas::lvalue::{LCoreOperator, LNumber, LValue};
use ompas::planning::atom::{Atom, AtomType, Sym, SymbolTypes, TypesNumber};
use ompas::planning::chronicle::{
    Effect, ExpressionChronicleResult, Interval, PartialChronicle, Transition,
};
use ompas::planning::conversion::{
    convert_if, convert_lvalue_to_expression_chronicle, lvalue_to_lit, ChronicleHierarchy,
    ConversionError,
};
use ompas::planning::expression_chronicle::ExpressionChronicle;
use ompas::planning::lit::{Constraint, Lit};
use ompas::planning::planner::{
    is_fully_populated, ChronicleOrigin, InstanceInfo, PlannerState, PlannerStep, PlanningResult,
    SolverAnswer, TaskId,
};
use ompas::planning::problem::{embed_facts, extract_facts, lit_to_lvalue, root_chronicle};
use ompas::planning::sym_table::SymTable;
use ompas::state::PartialState;
use ompas::sym_table_id::{Id, SymbolTableId};

fn sym(s: &str) -> LValue {
    LValue::symbol(s)
}

fn call(items: Vec<LValue>) -> LValue {
    LValue::list(items)
}

fn atom(l: &Lit) -> usize {
    match l {
        Lit::Atom(a) => *a,
        _ => panic!("an atom was expected"),
    }
}

#[test]
fn symbols_print_with_their_versions() {
    assert_eq!(Sym::from_str("x").to_string(), "x");
    assert_eq!(Sym::Several("x".to_string(), 3).to_string(), "x_3");
    assert_eq!(Sym::Several("x".to_string(), 3).get_string(), "x");
    assert_eq!(Atom::Bool(true).to_string(), "true");
    assert_eq!(Atom::Bool(false).to_string(), "nil");
    assert_eq!(Atom::Number(LNumber::Int(-4)).to_string(), "-4");
    assert_eq!(AtomType::StateFunction.to_str(), "state-function");
    assert_eq!(AtomType::Result.to_str(), "return");
}

#[test]
fn types_are_counted() {
    let mut n = TypesNumber::new();
    assert_eq!(n.get_number_of_type(&AtomType::Lambda), 1);
    assert_eq!(n.get_number_of_type(&AtomType::Task), 0);
    assert_eq!(n.increase_number_of_type(&AtomType::Task), 0);
    assert_eq!(n.increase_number_of_type(&AtomType::Task), 1);
    assert_eq!(n.get_number_of_type(&AtomType::Task), 2);
    let mut types = SymbolTypes::new();
    types.add_new_atom(4, AtomType::Object);
    assert_eq!(types.get_type(&4), Some(&AtomType::Object));
    assert_eq!(types.get_type(&5), None);
    assert_eq!(types.get_number_of_type(&AtomType::Object), 1);
}

#[test]
fn symbol_table_declares_and_scopes() {
    let mut st = SymTable::new();
    let x = st.declare_new_symbol("x".to_string(), false);
    assert_eq!(st.declare_new_symbol("x".to_string(), false), x);
    assert_eq!(st.id("x"), Some(x));
    assert!(st.it_exists("x"));
    assert!(!st.it_exists("y"));
    st.new_scope();
    let x1 = st.declare_new_symbol("x".to_string(), true);
    assert_ne!(x1, x);
    assert_eq!(st.id("x"), Some(x1));
    assert_eq!(st.get_atom(&x).unwrap().to_string(), "x_0");
    assert_eq!(st.get_atom(&x1).unwrap().to_string(), "x_1");
    st.revert_scope();
    assert_eq!(st.id("x"), Some(x));
    // the outermost scope stays open
    st.revert_scope();
    assert_eq!(st.id("x"), Some(x));

    let i = st.declare_new_interval();
    assert_eq!(st.get_atom(&i.start()).unwrap().to_string(), "t_0");
    assert_eq!(st.get_atom(&i.end()).unwrap().to_string(), "t_1");
    assert_eq!(st.get_type(&i.end()), Some(&AtomType::Timepoint));
    let r = st.declare_new_result();
    assert_eq!(st.get_atom(r.get_id()).unwrap().to_string(), "r_0");
    let o = st.declare_new_object();
    assert_eq!(st.get_atom(&o).unwrap().to_string(), "o_0");
    let t = st.declare_new_timepoint();
    assert_eq!(st.get_atom(&t).unwrap().to_string(), "t_2");
    let b = st.new_bool(true);
    let n = st.new_number(LNumber::Int(3));
    assert_eq!(st.get_type(&b), Some(&AtomType::Boolean));
    assert_eq!(st.get_type(&n), Some(&AtomType::Number));
    assert_eq!(st.n_atoms(), 9);

    // classes of atoms
    assert_eq!(st.get_parent(&b), b);
    st.union_atom(&b, &n);
    assert_eq!(st.get_parent(&b), n);
    assert_eq!(st.find_parent(&n), n);
    assert_eq!(st.get_sym(&b).unwrap().to_string(), "3");
    st.union_atom(&x, &b);
    st.union_atom(&n, &o);
    assert_eq!(st.get_parent(&x), o);
    assert_eq!(st.get_parent(&b), o);
    assert_eq!(st.get_parent(&999), 999);

    let (added, stopped) = st.add_list_of_symbols_of_same_type(
        vec!["car".to_string(), "cdr".to_string(), "x".to_string(), "cons".to_string()],
        &AtomType::Function,
    );
    assert_eq!(added, 2);
    assert_eq!(stopped, Some("x".to_string()));
    assert_eq!(st.get_type(&st.id("cdr").unwrap()), Some(&AtomType::Function));
    assert!(!st.it_exists("cons"));
}

#[test]
fn partial_chronicles_keep_what_is_added() {
    let mut pc = PartialChronicle::default();
    pc.add_var(&3);
    pc.add_var(&3);
    pc.add_interval(&Interval::new(&7, &8));
    assert_eq!(pc.get_variables().len(), 3);
    assert!(pc.get_variables().contains(&7));
    pc.rm_var(&7);
    assert!(!pc.get_variables().contains(&7));
    pc.rm_set_var(vec![3, 99]);
    assert_eq!(pc.get_variables().len(), 1);
    pc.add_constraint(Constraint::Neg(Lit::Atom(1)));
    pc.add_constraint(Constraint::Neg(Lit::Atom(2)));
    pc.add_constraint(Constraint::Neg(Lit::Atom(3)));
    pc.rm_set_constraint(vec![0, 2]);
    assert_eq!(pc.get_constraints().len(), 1);
    assert!(matches!(pc.get_constraints()[0], Constraint::Neg(Lit::Atom(2))));
    pc.rm_constraint(0);
    assert_eq!(pc.get_constraints().len(), 0);

    let mut other = PartialChronicle::default();
    other.add_var(&42);
    other.add_effect(Effect {
        interval: Interval::new(&1, &2),
        transition: Transition::new(Lit::Atom(5), Lit::Atom(6)),
    });
    pc.add_effect(Effect {
        interval: Interval::new(&3, &4),
        transition: Transition::new(Lit::Atom(5), Lit::Atom(6)),
    });
    pc.absorb(other);
    assert_eq!(pc.get_variables().len(), 2);
    assert!(pc.get_variables().contains(&42));
    assert!(pc.get_variables().contains(&8));
    assert_eq!(pc.get_effects().len(), 2);
    assert_eq!(pc.get_effects()[1].get_start(), 1);
    assert_eq!(pc.get_effects()[1].get_end(), 2);

    let mut r = ExpressionChronicleResult::new(4);
    assert!(!r.is_pure());
    assert_eq!(atom(&r.to_lit()), 4);
    r.set_pure(Lit::Atom(9));
    assert!(r.is_pure());
    assert_eq!(atom(&r.to_lit()), 9);
    assert_eq!(*r.get_id(), 4);
    assert!(r.get_pure().is_some());
}

#[test]
fn flow_effects_gather_their_atoms() {
    let e = flow::Effect { interval: Interval::new(&1, &2), sv: vec![5, 6, 5], value: 9 };
    assert_eq!(e.get_start(), 1);
    assert_eq!(e.get_end(), 2);
    let vars = e.get_variables();
    assert_eq!(vars.len(), 5);
    for v in [1, 2, 5, 6, 9] {
        assert!(vars.contains(&v));
    }
    assert_eq!(RootType::try_from(13), Some(RootType::True));
    assert_eq!(RootType::try_from(15), None);
    assert_eq!(RootType::Nil.id(), flow::NIL_ID);
    assert_eq!(RootType::Failure.to_str(), "Err");
    let f = Flow::from_branching(BranchingFlow {
        branch: None,
        cond_flow: 1,
        true_flow: 2,
        false_flow: 3,
        result: 4,
    });
    assert!(f.valid);
    assert!(f.parent.is_none());
    assert!(matches!(f.kind, FlowKind::Branching(_)));
}

#[test]
fn names_of_a_flow_graph() {
    let mut t = SymbolTableId::new();
    assert_eq!(t.version("x"), 0);
    assert_eq!(t.insert("x", &4), 0);
    assert_eq!(t.get_id("x"), Some(4));
    assert_eq!(t.insert("x", &7), 1);
    assert_eq!(t.insert("x", &9), 2);
    assert_eq!(t.version("x"), 3);
    assert_eq!(t.get_id("x"), Some(9));
    assert!(t.contains("x"));
    assert!(!t.contains("y"));
    assert_eq!(t.get_id("y"), None);
    assert_eq!(*Id::unique(&3).get_id(), 3);
    assert_eq!(Id::several(&3).n_version(), 1);
}

fn hierarchy() -> ChronicleHierarchy {
    let mut st = SymTable::new();
    st.add_list_of_symbols_of_same_type(
        vec!["eval".to_string(), "+".to_string(), "instance".to_string()],
        &AtomType::Function,
    );
    st.add_list_of_symbols_of_same_type(vec!["pick".to_string()], &AtomType::Action);
    st.add_list_of_symbols_of_same_type(vec!["t_move".to_string()], &AtomType::Task);
    st.add_list_of_symbols_of_same_type(vec!["m_move".to_string()], &AtomType::Method);
    st.add_list_of_symbols_of_same_type(vec!["robot.at".to_string()], &AtomType::StateFunction);
    ChronicleHierarchy::new(st)
}

fn convert(exp: &LValue, ch: &mut ChronicleHierarchy) -> ExpressionChronicle {
    convert_lvalue_to_expression_chronicle(exp, ch).unwrap()
}

#[test]
fn literals_become_atoms() {
    let mut st = SymTable::new();
    let lit = lvalue_to_lit(&call(vec![sym("a"), LValue::from_int(2), LValue::True]), &mut st).unwrap();
    match lit {
        Lit::Exp(items) => {
            assert_eq!(items.len(), 3);
            assert_eq!(st.get_atom(&atom(&items[0])).unwrap().to_string(), "a");
            assert_eq!(st.get_atom(&atom(&items[1])).unwrap().to_string(), "2");
            assert_eq!(st.get_atom(&atom(&items[2])).unwrap().to_string(), "true");
        }
        _ => panic!("a sequence was expected"),
    }
}

#[test]
fn a_symbol_is_its_own_result() {
    let mut ch = hierarchy();
    let n = ch.sym_table.n_atoms();
    let ec = convert(&sym("robot1"), &mut ch);
    assert_eq!(ec.get_interval().start(), n);
    assert_eq!(ec.get_interval().end(), n + 1);
    assert_eq!(*ec.get_result_id(), n + 2);
    assert!(ec.is_result_pure());
    let id = atom(&ec.get_result());
    assert_eq!(ch.sym_table.get_atom(&id).unwrap().to_string(), "robot1");
    // the interval does not end before it starts
    assert_eq!(ec.get_constraints().len(), 1);
    assert!(matches!(&ec.get_constraints()[0], Constraint::LEq(Lit::Atom(a), Lit::Atom(b)) if *a == n && *b == n + 1));
}

#[test]
fn an_action_becomes_a_subtask() {
    let mut ch = hierarchy();
    let ec = convert(&call(vec![sym("pick"), sym("robot1")]), &mut ch);
    assert!(!ec.is_result_pure());
    let pc = ec.get_partial_chronicle();
    assert_eq!(pc.get_subtasks().len(), 1);
    assert_eq!(pc.get_effects().len(), 0);
    match &pc.get_subtasks()[0].lit {
        Lit::Exp(items) => {
            assert_eq!(items.len(), 3);
            assert_eq!(atom(&items[0]), ch.sym_table.id("pick").unwrap());
            assert_eq!(ch.sym_table.get_atom(&atom(&items[1])).unwrap().to_string(), "robot1");
            assert_eq!(atom(&items[2]), *ec.get_result_id());
        }
        _ => panic!("a sequence was expected"),
    }
    // the interval of the call, the argument starts with the call, the interval of the
    // argument, and the argument ends before the call ends
    assert_eq!(ec.get_constraints().len(), 4);
    // the interval and the result of the argument are variables of the call
    assert_eq!(ec.get_variables().len(), 3);
}

#[test]
fn a_state_function_and_a_function_become_effects() {
    let mut ch = hierarchy();
    let ec = convert(&call(vec![sym("robot.at"), sym("r1")]), &mut ch);
    let pc = ec.get_partial_chronicle();
    assert_eq!(pc.get_effects().len(), 1);
    assert_eq!(atom(pc.get_effects()[0].transition.get_variable()), *ec.get_result_id());
    match pc.get_effects()[0].transition.get_value() {
        Lit::Exp(items) => assert_eq!(atom(&items[0]), ch.sym_table.id("robot.at").unwrap()),
        _ => panic!("a sequence was expected"),
    }
    let ec = convert(&call(vec![sym("+"), LValue::from_int(1), LValue::from_int(2)]), &mut ch);
    let pc = ec.get_partial_chronicle();
    match pc.get_effects()[0].transition.get_value() {
        Lit::Exp(items) => {
            assert_eq!(items.len(), 2);
            assert_eq!(atom(&items[0]), ch.sym_table.id("eval").unwrap());
            assert!(matches!(&items[1], Lit::Exp(inner) if inner.len() == 3));
        }
        _ => panic!("a sequence was expected"),
    }
}

#[test]
fn an_assertion_becomes_an_effect() {
    let mut ch = hierarchy();
    let exp = call(vec![sym("assert"), sym("busy"), LValue::True]);
    let ec = convert(&exp, &mut ch);
    assert!(ec.is_result_pure());
    let pc = ec.get_partial_chronicle();
    assert_eq!(pc.get_effects().len(), 1);
    let e = &pc.get_effects()[0];
    assert_eq!(e.interval, *ec.get_interval());
    assert_eq!(
        ch.sym_table.get_atom(&atom(e.transition.get_variable())).unwrap().to_string(),
        "busy"
    );
    assert_eq!(
        ch.sym_table.get_atom(&atom(e.transition.get_value())).unwrap().to_string(),
        "true"
    );
}

#[test]
fn a_sequence_takes_the_result_of_its_last_part() {
    let mut ch = hierarchy();
    let exp = call(vec![
        LValue::CoreOperator(LCoreOperator::Begin),
        call(vec![sym("pick"), sym("r1")]),
        sym("done"),
    ]);
    let ec = convert(&exp, &mut ch);
    assert!(ec.is_result_pure());
    assert_eq!(
        ch.sym_table.get_atom(&atom(&ec.get_result())).unwrap().to_string(),
        "done"
    );
    assert_eq!(ec.get_partial_chronicle().get_subtasks().len(), 1);
    let exp = call(vec![
        LValue::CoreOperator(LCoreOperator::Do),
        sym("done"),
        call(vec![sym("pick"), sym("r1")]),
    ]);
    let ec = convert(&exp, &mut ch);
    assert!(!ec.is_result_pure());
    // the result of the sequence is assigned the result of the action
    assert_eq!(ec.get_partial_chronicle().get_effects().len(), 1);
}

#[test]
fn a_definition_binds_a_new_version() {
    let mut ch = hierarchy();
    let x = ch.sym_table.declare_new_symbol("x".to_string(), false);
    let exp = call(vec![LValue::CoreOperator(LCoreOperator::Define), sym("x"), LValue::from_int(3)]);
    let ec = convert(&exp, &mut ch);
    assert!(ec.is_result_pure());
    let bound = ch.sym_table.id("x").unwrap();
    assert_ne!(bound, x);
    assert_eq!(ch.sym_table.get_atom(&bound).unwrap().to_string(), "x_1");
    assert_eq!(
        ch.sym_table.get_atom(&atom(&ec.get_result())).unwrap().to_string(),
        "nil"
    );
    // the interval, that the definition is instantaneous, the binding, and the interval
    // of the value
    assert_eq!(ec.get_constraints().len(), 4);
}

#[test]
fn a_conditional_becomes_a_task_with_two_methods() {
    let mut ch = hierarchy();
    let exp = call(vec![
        LValue::CoreOperator(LCoreOperator::If),
        sym("c"),
        call(vec![sym("pick"), sym("r1")]),
        sym("nothing"),
    ]);
    let ec = convert_if(&exp, &mut ch).unwrap();
    assert_eq!(ch.tasks.len(), 1);
    assert_eq!(ch.methods.len(), 2);
    assert!(ch.sym_table.it_exists("t_if_0"));
    assert!(ch.sym_table.it_exists("t_if_0_cond"));
    assert!(ch.sym_table.it_exists("m_t_if_0_true"));
    assert!(ch.sym_table.it_exists("m_t_if_0_false_r"));
    let pc = ec.get_partial_chronicle();
    assert_eq!(pc.get_subtasks().len(), 1);
    match &pc.get_subtasks()[0].lit {
        Lit::Exp(items) => {
            assert_eq!(items.len(), 3);
            assert_eq!(atom(&items[0]), ch.sym_table.id("t_if_0").unwrap());
        }
        _ => panic!("a sequence was expected"),
    }
    // the interval, six constraints on the subtask, and the interval of the condition
    assert_eq!(ec.get_constraints().len(), 8);
    // the method of the branch that calls the action holds its subtask
    assert_eq!(ch.methods[0].get_partial_chronicle().get_subtasks().len(), 1);
    assert_eq!(ch.methods[0].get_partial_chronicle().get_conditions().len(), 1);
    assert_eq!(ch.methods[1].get_partial_chronicle().get_subtasks().len(), 0);
    // a second conditional gets a task of its own
    convert(&exp, &mut ch);
    assert!(ch.sym_table.it_exists("t_if_1"));
    assert_eq!(ch.methods.len(), 4);
}

#[test]
fn what_cannot_be_converted() {
    let mut ch = hierarchy();
    let cases = vec![
        (call(vec![]), ConversionError::EmptyExpression),
        (call(vec![sym("unknown"), sym("a")]), ConversionError::UndefinedFunction),
        (call(vec![sym("m_move"), sym("a")]), ConversionError::MethodCalledDirectly),
        (call(vec![sym("retract"), sym("a"), sym("b")]), ConversionError::RetractNotSupported),
        (call(vec![sym("assert"), sym("a")]), ConversionError::WrongNumberOfArguments),
        (call(vec![LValue::from_int(1), sym("a")]), ConversionError::UnsupportedHead),
        (
            call(vec![LValue::CoreOperator(LCoreOperator::Define), LValue::from_int(1), sym("a")]),
            ConversionError::DefineNeedsSymbol,
        ),
        (
            call(vec![LValue::CoreOperator(LCoreOperator::Await), sym("a")]),
            ConversionError::UnsupportedOperator,
        ),
        (
            call(vec![LValue::CoreOperator(LCoreOperator::If), sym("a")]),
            ConversionError::WrongNumberOfArguments,
        ),
        (LValue::Handle(3), ConversionError::UnsupportedValue),
        (
            call(vec![sym("pick"), call(vec![sym("unknown")])]),
            ConversionError::UndefinedFunction,
        ),
    ];
    for (exp, expected) in cases {
        match convert_lvalue_to_expression_chronicle(&exp, &mut ch) {
            Err(e) => assert_eq!(e, expected),
            Ok(_) => panic!("an error was expected"),
        }
    }
    // a symbol that stands for nothing that can be called
    ch.sym_table.declare_new_symbol("x".to_string(), false);
    assert!(matches!(
        convert_lvalue_to_expression_chronicle(&call(vec![sym("x")]), &mut ch),
        Err(ConversionError::NotCallable)
    ));
}

#[test]
fn planner_loop() {
    let (mut s, step) = PlannerState::start(0, 3, true);
    assert_eq!(step, PlannerStep::Solve { depth: 0, bound: 2147483647 });
    // no solution yet: one layer deeper
    assert_eq!(s.on_answer(SolverAnswer::Unsat, false), PlannerStep::Solve { depth: 1, bound: 2147483647 });
    // a solution that can be improved tightens the bound
    assert_eq!(
        s.on_answer(SolverAnswer::Sat(Some(10)), false),
        PlannerStep::Solve { depth: 2, bound: 9 }
    );
    assert_eq!(s.best_cost, 10);
    // no better solution in a problem that is fully populated: no plan under the bound
    assert_eq!(
        s.on_answer(SolverAnswer::Unsat, true),
        PlannerStep::Return(PlanningResult::Unsat)
    );
    let (mut s, _) = PlannerState::start(0, 1, false);
    assert_eq!(
        s.on_answer(SolverAnswer::Sat(None), false),
        PlannerStep::Return(PlanningResult::Solution { depth: 0, cost: None })
    );
    let (mut s, _) = PlannerState::start(2, 2, true);
    assert_eq!(
        s.on_answer(SolverAnswer::Sat(Some(4)), false),
        PlannerStep::Return(PlanningResult::Solution { depth: 2, cost: Some(4) })
    );
    assert_eq!(s.on_answer(SolverAnswer::Unsat, false), PlannerStep::Return(PlanningResult::Unsat));
    assert_eq!(
        s.on_answer(SolverAnswer::Timeout, false),
        PlannerStep::Return(PlanningResult::Timeout)
    );
    assert_eq!(
        s.on_answer(SolverAnswer::Interrupt, false),
        PlannerStep::Return(PlanningResult::Interrupt)
    );
    let (_, step) = PlannerState::start(3, 2, true);
    assert_eq!(step, PlannerStep::Return(PlanningResult::Unsat));
}

#[test]
fn population() {
    let refined = |i, t| ChronicleOrigin::Refinement {
        refined: TaskId { instance_id: i, task_id: t },
        template_id: 0,
    };
    let mut instances = vec![
        InstanceInfo { origin: ChronicleOrigin::Original, n_subtasks: 2 },
        InstanceInfo { origin: refined(0, 0), n_subtasks: 0 },
    ];
    assert!(!is_fully_populated(&instances));
    instances.push(InstanceInfo { origin: refined(0, 1), n_subtasks: 1 });
    assert!(!is_fully_populated(&instances));
    instances.push(InstanceInfo {
        origin: ChronicleOrigin::Refinement {
            refined: TaskId { instance_id: 2, task_id: 0 },
            template_id: 1,
        },
        n_subtasks: 0,
    });
    assert!(!is_fully_populated(&instances));
    instances.push(InstanceInfo { origin: refined(2, 0), n_subtasks: 0 });
    assert!(is_fully_populated(&instances));
    assert!(is_fully_populated(&vec![]));
}

#[test]
fn facts_embedded_in_the_root_are_read_back() {
    let mut facts = PartialState::new();
    facts.insert(
        LValue::List(vec![sym("at"), sym("r1")]),
        sym("kitchen"),
    );
    facts.insert(sym("battery"), LValue::Number(LNumber::Int(42)));
    facts.insert(LValue::List(vec![sym("open"), sym("d1")]), LValue::True);
    facts.insert(LValue::List(vec![sym("open"), sym("d2")]), LValue::Nil);
    facts.insert(
        sym("route"),
        LValue::List(vec![sym("kitchen"), sym("hall"), LValue::Number(LNumber::Int(-3))]),
    );
    let goals = vec![LValue::List(vec![sym("deliver"), sym("p1"), sym("kitchen")])];
    let mut st = SymTable::default();
    let root = root_chronicle(&facts, &goals, &mut st).unwrap();
    assert_eq!(root.get_effects().len(), 5);
    assert_eq!(root.get_subtasks().len(), 1);
    for e in root.get_effects().iter() {
        assert_eq!(e.get_start(), 0);
        assert_eq!(e.get_end(), 0);
    }
    let back = extract_facts(root.get_effects(), &st);
    assert_eq!(back.len(), 5);
    for i in 0..5 {
        let (sv, v) = facts.fact_at(i);
        let (sv2, v2) = back.fact_at(i);
        assert!(sv == sv2);
        assert!(v == v2);
    }
    assert!(back.get(&sym("battery")) == LValue::Number(LNumber::Int(42)));
}

#[test]
fn a_symbol_is_embedded_once() {
    let mut facts = PartialState::new();
    facts.insert(sym("a"), sym("b"));
    facts.insert(sym("b"), sym("a"));
    let mut st = SymTable::default();
    let before = st.n_atoms();
    let effects = embed_facts(&facts, &7, &mut st).unwrap();
    assert_eq!(st.n_atoms(), before + 2);
    assert_eq!(effects.len(), 2);
    assert_eq!(effects[0].get_start(), 7);
    let first = lit_to_lvalue(effects[0].transition.get_variable(), &st);
    let second = lit_to_lvalue(effects[1].transition.get_value(), &st);
    assert!(first == sym("a"));
    assert!(second == sym("a"));
}

#[test]
fn a_string_comes_back_as_the_symbol_of_its_printed_form() {
    let mut facts = PartialState::new();
    facts.insert(sym("name"), LValue::String("bob".to_string()));
    let mut st = SymTable::default();
    let effects = embed_facts(&facts, &0, &mut st).unwrap();
    let back = extract_facts(&effects, &st);
    let (_, v) = back.fact_at(0);
    assert!(v == sym(&LValue::String("bob".to_string()).to_string()));
}

#[test]
fn an_unknown_atom_and_a_constraint_stand_for_nil() {
    let st = SymTable::default();
    assert!(lit_to_lvalue(&Lit::Atom(1000), &st) == LValue::Nil);
    let l = Lit::Exp(vec![Lit::Atom(1000)]);
    assert!(lit_to_lvalue(&l, &st) == LValue::List(vec![LValue::Nil]));
}

#[test]
fn a_chronicle_tells_its_variables() {
    let mut pc = PartialChronicle::default();
    assert!(!pc.has_var(&3));
    pc.add_var(&3);
    pc.add_interval(&Interval::new(&5, &6));
    assert!(pc.has_var(&3));
    assert!(pc.has_var(&5));
    assert!(pc.has_var(&6));
    assert!(!pc.has_var(&4));
    pc.rm_var(&3);
    assert!(!pc.has_var(&3));
    assert!(pc.has_var(&5));
}

#[test]
fn literals_and_constraints_print_with_the_names_of_their_atoms() {
    let mut st = SymTable::new();
    let a = st.declare_new_symbol("a".to_string(), false);
    let t0 = st.declare_new_timepoint();
    let t1 = st.declare_new_timepoint();
    let three = st.new_number(LNumber::Int(3));
    let lit = Lit::Exp(vec![Lit::Atom(a), Lit::Atom(three), Lit::Exp(vec![])]);
    assert_eq!(lit.format_with_sym_table(&st), "(a 3 ())");
    let c = Constraint::LEq(Lit::Atom(t0), Lit::Atom(t1));
    assert_eq!(c.format_with_sym_table(&st), "(t_0 <= t_1)");
    let n = Constraint::Neg(Lit::Constraint(Box::new(Constraint::Eq(
        Lit::Atom(a),
        Lit::Atom(1_000_000),
    ))));
    assert_eq!(n.format_with_sym_table(&st), "(! (a = ?))");
    assert_eq!(
        Constraint::And(Lit::Atom(a), Lit::Atom(a)).format_with_sym_table(&st),
        "(a && a)"
    );
    assert_eq!(
        Constraint::Or(Lit::Atom(a), Lit::Atom(a)).format_with_sym_table(&st),
        "(a || a)"
    );
    assert_eq!(
        Constraint::LT(Lit::Atom(t0), Lit::Atom(t1)).format_with_sym_table(&st),
        "(t_0 < t_1)"
    );
    assert_eq!(Interval::new(&t0, &t1).format_with_sym_table(&st), "[t_0,t_1]");
    // an atom prints as the atom that stands for its class
    st.union_atom(&t1, &t0);
    assert_eq!(Interval::new(&t0, &t1).format_with_sym_table(&st), "[t_0,t_0]");
}

#[test]
fn a_chronicle_prints_its_blocks() {
    let mut st = SymTable::new();
    let a = st.declare_new_symbol("a".to_string(), false);
    let b = st.declare_new_symbol("b".to_string(), false);
    let t0 = st.declare_new_timepoint();
    let t1 = st.declare_new_timepoint();
    let i = Interval::new(&t0, &t1);
    let mut pc = PartialChronicle::default();
    pc.add_interval(&i);
    pc.add_var(&b);
    pc.add_constraint(Constraint::LEq(Lit::Atom(t0), Lit::Atom(t1)));
    pc.add_effect(Effect { interval: i, transition: Transition::new(Lit::Atom(a), Lit::Atom(b)) });
    assert_eq!(
        pc.format_with_sym_table(&st),
        "-variable(s): {b,t_0,t_1}\n\
         -constraint(s): {\n\t(t_0 <= t_1)\n}\n\
         -conditon(s): {\n}\n\
         -effect(s): {\n\t[t_0,t_1] a <- b\n}\n\
         -subtask(s): {\n}\n"
    );
    let empty = PartialChronicle::default();
    assert!(empty.format_with_sym_table(&st).starts_with("-variable(s): {}\n"));
}

#[test]
fn what_is_no_conditional_is_refused() {
    let mut ch = hierarchy();
    let n = ch.sym_table.n_atoms();
    assert!(matches!(
        convert_if(&call(vec![sym("pick"), sym("robot1")]), &mut ch),
        Err(ConversionError::NotAConditional)
    ));
    assert!(matches!(convert_if(&sym("a"), &mut ch), Err(ConversionError::NotAConditional)));
    assert!(matches!(
        convert_if(&LValue::list(vec![]), &mut ch),
        Err(ConversionError::NotAConditional)
    ));
    assert_eq!(ch.sym_table.n_atoms(), n);
    assert!(matches!(
        convert_if(
            &call(vec![LValue::CoreOperator(LCoreOperator::If), sym("a")]),
            &mut ch
        ),
        Err(ConversionError::WrongNumberOfArguments)
    ));
}
