use ompas::config::{activate_debug, get_debug, EngineConfig, SelectMode};
use ompas::domain::{generate_test_type_expr, DomainError, Method, OMPASDomain, Parameters};
use ompas::engine::{select_mode_after_conversion, EngineAction, EngineEvent, EngineState};
use ompas::lvalue::LValue;
use ompas::select::{
    cheapest, compose_cost, greedy, planner_ranked, score_ranked, sort_greedy, Candidate,
    PlannerOutcome,
};

fn sym(s: &str) -> LValue {
    LValue::symbol(s)
}

fn params(pairs: &[(&str, &str)]) -> Parameters {
    let items = pairs
        .iter()
        .map(|(n, t)| LValue::list(vec![sym(n), sym(t)]))
        .collect();
    Parameters::from_lvalue(&LValue::list(items)).unwrap()
}

#[test]
fn parameters_are_read_from_values() {
    let p = params(&[("?r", "robot"), ("?x", "int")]);
    assert_eq!(p.get_labels(), vec!["?r".to_string(), "?x".to_string()]);
    assert_eq!(p.get_types(), vec!["robot".to_string(), "int".to_string()]);
    let q = Parameters::from_lvalue(&LValue::list(vec![sym("?a")])).unwrap();
    assert_eq!(q.get_types(), vec!["object".to_string()]);
    assert_eq!(Parameters::from_lvalue(&LValue::Nil).unwrap().len(), 0);
    assert!(matches!(
        Parameters::from_lvalue(&LValue::from_int(3)),
        Err(DomainError::Malformed)
    ));
    assert!(matches!(
        Parameters::from_lvalue(&LValue::list(vec![LValue::list(vec![sym("?a")])])),
        Err(DomainError::Malformed)
    ));
    assert!(p.extends(&params(&[("?r", "robot")])));
    assert!(!p.extends(&params(&[("?r", "truck")])));
    assert!(!params(&[("?r", "robot")]).extends(&p));
}

#[test]
fn type_tests_are_generated() {
    let p = params(&[("?r", "robot"), ("?x", "int"), ("?l", "list")]);
    assert_eq!(
        generate_test_type_expr(&p).to_string(),
        "(do (check (instance ?r robot)) (check (int? ?x)) (check (list? ?l)))"
    );
    assert_eq!(generate_test_type_expr(&Parameters::new()), LValue::True);
}

#[test]
fn registry_keeps_declarations() {
    let mut d = OMPASDomain::new();
    assert_eq!(d.add_task("t_navigate_to", params(&[("?r", "robot"), ("?x", "int")]), None), Ok(()));
    let task = d.get_task("t_navigate_to").unwrap();
    assert_eq!(
        task.body.to_string(),
        "(lambda (?r ?x) (exec-task (quote t_navigate_to) ?r ?x))"
    );
    assert_eq!(task.model.to_string(), "(lambda (?r ?x) nil)");

    // a method whose task is unknown is rejected
    assert_eq!(
        d.add_method("m", "t_unknown", params(&[("?r", "robot")]), None, None, LValue::Nil),
        Err(DomainError::UnknownTask)
    );
    // the first parameters of a method are those of its task
    assert_eq!(
        d.add_method("m", "t_navigate_to", params(&[("?x", "int")]), None, None, LValue::Nil),
        Err(DomainError::ParametersMismatch)
    );
    assert_eq!(
        d.add_method(
            "m_navigate_to",
            "t_navigate_to",
            params(&[("?r", "robot"), ("?x", "int"), ("?a", "float")]),
            Some(vec![LValue::list(vec![sym("robot.available"), sym("?r")])]),
            Some(LValue::from_int(7)),
            LValue::list(vec![sym("navigate_to"), sym("?r"), sym("?x")]),
        ),
        Ok(())
    );
    let m: &Method = d.get_method("m_navigate_to").unwrap();
    assert_eq!(m.get_label(), "m_navigate_to");
    assert_eq!(m.get_task_label(), "t_navigate_to");
    assert_eq!(m.get_parameters().len(), 3);
    assert_eq!(
        m.get_pre_conditions().to_string(),
        "(lambda (?r ?x ?a) (do (do (check (instance ?r robot)) (check (int? ?x)) \
         (check (float? ?a))) (do (check (robot.available ?r)))))"
    );
    assert_eq!(m.get_score().to_string(), "(lambda (?r ?x ?a) 7)");
    assert!(m
        .get_body()
        .to_string()
        .ends_with("?r ?x ?a) (navigate_to ?r ?x)))"));
    assert_eq!(d.get_methods_of("t_navigate_to"), vec!["m_navigate_to".to_string()]);
    assert_eq!(d.get_methods_of("t_unknown"), Vec::<String>::new());
    // a task cannot be declared again with parameters that its methods do not begin with
    assert_eq!(
        d.add_task("t_navigate_to", params(&[("?z", "robot")]), None),
        Err(DomainError::ParametersMismatch)
    );

    d.add_command("pick", params(&[("?r", "robot")]), None, None);
    let c = d.get_command("pick").unwrap();
    assert_eq!(c.body.to_string(), "(lambda (?r) (await (exec-command (quote pick) ?r)))");
    assert_eq!(c.cost.to_string(), "(lambda (?r) 1)");
    d.add_state_function("robot.busy", params(&[("?r", "robot")]), "bool");
    let sf = d.get_state_function("robot.busy").unwrap();
    assert_eq!(sf.result, "bool");
    assert_eq!(sf.body.to_string(), "(lambda (?r) (read-state (quote robot.busy) ?r))");
    assert_eq!(d.add_lambda("f", LValue::from_int(3)), Err(DomainError::Malformed));
    let lambda = d.get_task("t_navigate_to").unwrap().model.clone();
    assert_eq!(d.add_lambda("f", lambda.clone()), Ok(()));
    assert_eq!(d.get_lambda("f"), Some(&lambda));
    assert!(d.get_lambda("g").is_none());
}

fn candidate(name: &str, applicable: bool, score: i64, cost: Option<u64>) -> Candidate {
    Candidate { method: sym(name), applicable, score, cost }
}

#[test]
fn select_policies() {
    let c = vec![
        candidate("m1", true, 1, Some(9)),
        candidate("m2", false, 100, Some(1)),
        candidate("m3", true, 5, None),
        candidate("m4", true, 5, Some(4)),
        candidate("m5", true, 2, Some(4)),
    ];
    assert_eq!(greedy(&c), vec![sym("m1"), sym("m3"), sym("m4"), sym("m5")]);
    assert_eq!(score_ranked(&c), vec![sym("m3"), sym("m4"), sym("m5"), sym("m1")]);
    assert_eq!(cheapest(&c), Some(3));
    assert_eq!(cheapest(&vec![candidate("m", false, 0, Some(1))]), None);
    assert_eq!(greedy(&vec![]), Vec::<LValue>::new());
    assert_eq!(compose_cost(Some(3), Some(4)), Some(7));
    assert_eq!(compose_cost(Some(3), None), None);
    assert_eq!(compose_cost(Some(u64::MAX), Some(1)), None);
    assert_eq!(
        planner_ranked(PlannerOutcome::Plan(vec![sym("m4")]), &c),
        vec![sym("m4")]
    );
    // a select that asked for a plan falls back to greedy on a timeout
    assert_eq!(planner_ranked(PlannerOutcome::Timeout, &c), greedy(&c));
    assert_eq!(planner_ranked(PlannerOutcome::Unsat, &c), Vec::<LValue>::new());
    assert_eq!(planner_ranked(PlannerOutcome::Interrupt, &c), Vec::<LValue>::new());
}

#[test]
fn sort_greedy_keeps_the_heads() {
    let methods = LValue::list(vec![
        LValue::list(vec![sym("m1"), sym("r1")]),
        sym("m2"),
        LValue::list(vec![sym("m3")]),
    ]);
    assert_eq!(
        sort_greedy(methods).unwrap(),
        LValue::list(vec![sym("m1"), LValue::Nil, sym("m3")])
    );
    assert_eq!(sort_greedy(LValue::list(vec![])).unwrap(), LValue::Nil);
    assert_eq!(sort_greedy(LValue::Nil).unwrap(), LValue::Nil);
    let e = sort_greedy(LValue::from_int(1)).unwrap_err();
    assert_eq!(
        e.to_string(),
        "select_first_applicable_method: Wrong type: 1 is a int, expected list.\n"
    );
}

#[test]
fn engine_decisions() {
    let mut config = EngineConfig::new();
    assert!(!get_debug(&config));
    activate_debug(&mut config);
    assert!(get_debug(&config));
    assert_eq!(config.select, SelectMode::Greedy);

    let mut state = EngineState::new();
    match state.on_event(EngineEvent::Job(sym("t"))) {
        EngineAction::Spawn { job, task } => {
            assert_eq!(job, 0);
            assert_eq!(task, sym("t"));
        }
        _ => panic!("the job is to be spawned"),
    }
    assert!(matches!(
        state.on_event(EngineEvent::Job(sym("u"))),
        EngineAction::Spawn { job: 1, .. }
    ));
    assert!(matches!(
        state.on_event(EngineEvent::Killed),
        EngineAction::InterruptAll { n: 2 }
    ));
    assert!(matches!(state.on_event(EngineEvent::Closed), EngineAction::Stop));
    assert_eq!(
        select_mode_after_conversion(SelectMode::PlannerAries, false),
        SelectMode::Greedy
    );
    assert_eq!(
        select_mode_after_conversion(SelectMode::PlannerAries, true),
        SelectMode::PlannerAries
    );
    assert_eq!(select_mode_after_conversion(SelectMode::Cost, false), SelectMode::Cost);
}

#[test]
fn the_registry_keeps_the_types() {
    let mut d = OMPASDomain::new();
    assert_eq!(d.get_type("robot"), None);
    d.add_type("robot", None);
    d.add_type("arm", Some("robot"));
    assert_eq!(d.get_type("robot"), Some("object".to_string()));
    assert_eq!(d.get_type("arm"), Some("robot".to_string()));
    assert_eq!(d.get_types(), vec!["robot".to_string(), "arm".to_string()]);
    // a second declaration gives the type another parent and keeps its place
    d.add_type("robot", Some("machine"));
    assert_eq!(d.get_type("robot"), Some("machine".to_string()));
    assert_eq!(d.get_types(), vec!["robot".to_string(), "arm".to_string()]);
    assert_eq!(d.get_type("truck"), None);
}
