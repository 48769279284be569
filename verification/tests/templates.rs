use ompas::domain::{OMPASDomain, Parameters};
use ompas::lvalue::{LCoreOperator, LLambda, LValue, LambdaArgs};
use ompas::planning::atom::AtomType;
use ompas::planning::conversion::{ChronicleHierarchy, ConversionError};
use ompas::planning::lit::Lit;
use ompas::planning::planning_domain::{convert_acting_domain, convert_entry, declare_domain};
use ompas::planning::pre_processing::{pre_processing, transform_lambda_expression};
use ompas::planning::reachable::{contains_label, label_of_call, p_convert};
use ompas::planning::sym_table::SymTable;
use ompas::planning::template::convert_abstract_task_to_chronicle;

fn s(name: &str) -> LValue {
    LValue::symbol(name)
}

fn l(items: Vec<LValue>) -> LValue {
    LValue::list(items)
}

fn lambda(params: &[&str], body: LValue) -> LValue {
    LValue::Lambda(LLambda {
        params: LambdaArgs::List(params.iter().map(|p| p.to_string()).collect()),
        body: Box::new(body),
    })
}

fn parameters(names: &[&str]) -> Parameters {
    Parameters::from_lvalue(&l(names.iter().map(|n| s(n)).collect())).unwrap()
}

fn table() -> ChronicleHierarchy {
    let mut st = SymTable::new();
    st.add_list_of_symbols_of_same_type(
        vec![
            "eval".to_string(),
            "check".to_string(),
            "instance".to_string(),
        ],
        &AtomType::Function,
    );
    st.add_list_of_symbols_of_same_type(vec!["pick".to_string()], &AtomType::Action);
    st.add_list_of_symbols_of_same_type(
        vec!["t_deliver".to_string(), "t_move".to_string()],
        &AtomType::Task,
    );
    st.add_list_of_symbols_of_same_type(vec!["m_move".to_string()], &AtomType::Method);
    ChronicleHierarchy::new(st)
}

fn domain() -> OMPASDomain {
    let mut d = OMPASDomain::new();
    d.add_command("pick", parameters(&["?r"]), None, None);
    d.add_task(
        "t_deliver",
        parameters(&["?r"]),
        Some(l(vec![
            LValue::CoreOperator(LCoreOperator::Begin),
            l(vec![s("t_move"), s("?r")]),
            l(vec![s("pick"), s("?r")]),
        ])),
    )
    .unwrap();
    d.add_task("t_move", parameters(&["?r"]), None).unwrap();
    d.add_method(
        "m_move",
        "t_move",
        parameters(&["?r"]),
        None,
        None,
        l(vec![s("pick"), s("?r")]),
    )
    .unwrap();
    d
}

fn atoms(lit: &Lit) -> Vec<usize> {
    match lit {
        Lit::Exp(v) => v
            .iter()
            .map(|x| match x {
                Lit::Atom(a) => *a,
                _ => panic!("an atom was expected"),
            })
            .collect(),
        _ => panic!("a sequence was expected"),
    }
}

#[test]
fn an_applied_lambda_is_written_out() {
    let app = l(vec![
        lambda(&["x", "y"], l(vec![s("f"), s("x"), s("y")])),
        LValue::from_int(1),
        s("a"),
    ]);
    let out = transform_lambda_expression(&app).unwrap();
    assert_eq!(
        out.to_string(),
        "(begin (define x (quote 1)) (define y (quote a)) (f x y))"
    );
    assert!(pre_processing(&app) == out);
}

#[test]
fn a_single_parameter_takes_all_arguments() {
    let rest = |args: Vec<LValue>| {
        let mut items = vec![LValue::Lambda(LLambda {
            params: LambdaArgs::Sym("args".to_string()),
            body: Box::new(s("args")),
        })];
        items.extend(args);
        transform_lambda_expression(&l(items)).unwrap().to_string()
    };
    assert_eq!(
        rest(vec![s("a"), s("b")]),
        "(begin (define args (quote (a b))) args)"
    );
    assert_eq!(rest(vec![s("a")]), "(begin (define args (quote (a))) args)");
    assert_eq!(rest(vec![LValue::Nil]), "(begin (define args (quote nil)) args)");
    let none = LValue::Lambda(LLambda { params: LambdaArgs::Nil, body: Box::new(s("c")) });
    assert_eq!(
        transform_lambda_expression(&l(vec![none.clone()])).unwrap().to_string(),
        "(begin c)"
    );
    assert_eq!(
        transform_lambda_expression(&l(vec![none, s("a")])),
        Err(ConversionError::WrongNumberOfArguments)
    );
}

#[test]
fn what_applies_no_lambda_is_refused() {
    assert_eq!(transform_lambda_expression(&s("a")), Err(ConversionError::NotALambda));
    assert_eq!(
        transform_lambda_expression(&l(vec![s("f"), s("a")])),
        Err(ConversionError::NotALambda)
    );
    assert_eq!(
        transform_lambda_expression(&l(vec![lambda(&["x"], s("x"))])),
        Err(ConversionError::WrongNumberOfArguments)
    );
}

#[test]
fn applications_are_written_out_at_every_depth() {
    let inner = l(vec![lambda(&["y"], s("y")), s("b")]);
    let outer = l(vec![
        s("f"),
        l(vec![lambda(&["x"], l(vec![s("g"), s("x"), inner.clone()])), inner]),
    ]);
    assert_eq!(
        pre_processing(&outer).to_string(),
        "(f (begin (define x (quote (begin (define y (quote b)) y))) \
         (g x (begin (define y (quote b)) y))))"
    );
    let plain = l(vec![s("f"), s("a"), lambda(&["x"], s("x"))]);
    assert!(pre_processing(&plain) == plain);
    let wrong = l(vec![lambda(&["x"], s("x")), s("a"), s("b")]);
    assert!(pre_processing(&wrong) == wrong);
}

#[test]
fn a_method_has_its_name_its_task_and_its_parameters() {
    let mut ch = table();
    let d = domain();
    let n = ch.sym_table.n_atoms();
    let body = LLambda {
        params: LambdaArgs::List(vec!["?r".to_string(), "?to".to_string()]),
        body: Box::new(l(vec![s("pick"), s("?r")])),
    };
    let c = convert_abstract_task_to_chronicle(
        &body,
        "m_move",
        d.get_task("t_move"),
        &parameters(&["?r", "?to"]),
        &mut ch,
    )
    .unwrap();
    let m_move = ch.sym_table.id("m_move").unwrap();
    let t_move = ch.sym_table.id("t_move").unwrap();
    assert_eq!(atoms(c.get_name()), vec![m_move, n, n + 1]);
    assert_eq!(atoms(c.get_task()), vec![t_move, n]);
    assert!(c.get_partial_chronicle().get_variables().contains(&n));
    assert!(c.get_partial_chronicle().get_variables().contains(&(n + 1)));
    let subtasks = c.get_partial_chronicle().get_subtasks();
    assert_eq!(subtasks.len(), 1);
    assert_eq!(label_of_call(&subtasks[0].lit, &ch.sym_table), Some("pick".to_string()));
    // the argument of the call is the parameter
    assert_eq!(atoms(&subtasks[0].lit)[1], n);
    // outside the chronicle the name of the parameter stands for nothing new
    assert_eq!(ch.sym_table.get_atom(&n).unwrap().to_string(), "?r");
}

#[test]
fn a_lambda_must_bind_the_declared_parameters() {
    let mut ch = table();
    let d = domain();
    let n = ch.sym_table.n_atoms();
    let body = LLambda {
        params: LambdaArgs::List(vec!["?r".to_string()]),
        body: Box::new(LValue::Nil),
    };
    assert!(matches!(
        convert_abstract_task_to_chronicle(&body, "m", None, &parameters(&["?r", "?x"]), &mut ch),
        Err(ConversionError::ParametersDiffer)
    ));
    let none = LLambda { params: LambdaArgs::Nil, body: Box::new(LValue::Nil) };
    assert!(matches!(
        convert_abstract_task_to_chronicle(&none, "m", d.get_task("t_move"), &parameters(&[]), &mut ch),
        Err(ConversionError::ParametersDiffer)
    ));
    assert_eq!(ch.sym_table.n_atoms(), n);
    assert!(matches!(
        convert_entry(&s("no-lambda"), "m", None, &parameters(&[]), &mut ch),
        Err(ConversionError::NotALambda)
    ));
    let c = convert_abstract_task_to_chronicle(&none, "c", None, &parameters(&["?r"]), &mut ch)
        .unwrap();
    assert_eq!(atoms(c.get_name()).len(), 1);
    assert_eq!(atoms(c.get_task()), atoms(c.get_name()));
}

#[test]
fn a_whole_domain_is_converted() {
    let mut ch = table();
    let d = domain();
    let pd = convert_acting_domain(&d, &mut ch).unwrap();
    assert_eq!(pd.tasks, vec!["t_deliver".to_string(), "t_move".to_string()]);
    assert_eq!(pd.commands, vec!["pick".to_string()]);
    assert_eq!(pd.methods, vec!["m_move".to_string()]);
    assert_eq!(pd.templates.len(), 2);
    let pick = ch.sym_table.id("pick").unwrap();
    let m_move = ch.sym_table.id("m_move").unwrap();
    let t_move = ch.sym_table.id("t_move").unwrap();
    assert_eq!(atoms(pd.templates[0].get_name())[0], pick);
    assert_eq!(atoms(pd.templates[0].get_task())[0], pick);
    assert_eq!(atoms(pd.templates[1].get_name())[0], m_move);
    assert_eq!(atoms(pd.templates[1].get_task())[0], t_move);
    assert_eq!(atoms(pd.templates[1].get_task()).len(), 2);
}

#[test]
fn what_a_problem_reaches_is_converted_once() {
    let mut ch = table();
    let d = domain();
    let roots = vec!["t_deliver".to_string(), "unknown".to_string(), "t_deliver".to_string()];
    let pd = p_convert(&d, &roots, &mut ch).unwrap();
    assert_eq!(pd.tasks, vec!["t_deliver".to_string(), "t_move".to_string()]);
    assert_eq!(pd.commands, vec!["pick".to_string()]);
    assert!(pd.methods.is_empty());
    assert_eq!(pd.templates.len(), 3);
    let heads: Vec<String> = pd
        .templates
        .iter()
        .map(|t| ch.sym_table.get_atom(&atoms(t.get_name())[0]).unwrap().to_string())
        .collect();
    assert_eq!(heads, vec!["t_deliver".to_string(), "m_move".to_string(), "pick".to_string()]);
    let none = p_convert(&d, &vec!["pick".to_string()], &mut table()).unwrap();
    assert_eq!(none.templates.len(), 1);
    assert!(none.tasks.is_empty());
    let empty = p_convert(&d, &vec![], &mut table()).unwrap();
    assert!(empty.templates.is_empty());
}

#[test]
fn a_failing_entry_stops_the_conversion() {
    let mut d = domain();
    d.add_task(
        "t_bad",
        parameters(&[]),
        Some(l(vec![s("undeclared-function"), s("a")])),
    )
    .unwrap();
    let mut ch = table();
    let r = p_convert(&d, &vec!["t_bad".to_string(), "t_move".to_string()], &mut ch);
    assert!(r.is_err());
}

#[test]
fn labels_are_found_among_labels() {
    let v = vec!["a".to_string(), "b".to_string()];
    assert!(contains_label(&v, &"b".to_string()));
    assert!(!contains_label(&v, &"c".to_string()));
    let st = SymTable::new();
    assert_eq!(label_of_call(&Lit::Atom(0), &st), None);
    assert_eq!(label_of_call(&Lit::Exp(vec![]), &st), None);
    assert_eq!(label_of_call(&Lit::Exp(vec![Lit::Atom(100_000)]), &st), None);
}

#[test]
fn the_labels_of_a_domain_become_typed_symbols() {
    let mut st = SymTable::new();
    st.add_list_of_symbols_of_same_type(
        vec!["eval".to_string(), "check".to_string(), "instance".to_string()],
        &AtomType::Function,
    );
    let mut d = domain();
    d.add_state_function("robot.at", parameters(&["?r"]), "place");
    let n = st.n_atoms();
    assert_eq!(declare_domain(&d, &mut st), Ok(()));
    assert_eq!(st.n_atoms(), n + 5);
    let kind = |st: &SymTable, name: &str| *st.get_type(&st.id(name).unwrap()).unwrap();
    assert_eq!(kind(&st, "t_deliver"), AtomType::Task);
    assert_eq!(kind(&st, "t_move"), AtomType::Task);
    assert_eq!(kind(&st, "pick"), AtomType::Action);
    assert_eq!(kind(&st, "m_move"), AtomType::Method);
    assert_eq!(kind(&st, "robot.at"), AtomType::StateFunction);
    // tasks come first, in the order of their declaration
    assert_eq!(st.id("t_deliver"), Some(n));
    assert_eq!(st.id("t_move"), Some(n + 1));
    assert_eq!(st.id("pick"), Some(n + 2));
    // the whole domain is converted in the table that holds its labels
    let mut ch = ChronicleHierarchy::new(st);
    let pd = p_convert(&d, &vec!["t_deliver".to_string()], &mut ch).unwrap();
    assert_eq!(pd.templates.len(), 3);
    // a second declaration is refused
    assert_eq!(
        declare_domain(&d, &mut ch.sym_table),
        Err(ConversionError::AlreadyDeclared)
    );
}

#[test]
fn the_state_functions_that_are_named_are_listed() {
    let mut d = domain();
    d.add_state_function("robot.at", parameters(&["?r"]), "place");
    d.add_state_function("door.open", parameters(&["?d"]), "bool");
    d.add_task("t_look", parameters(&["?r"]), Some(l(vec![s("robot.at"), s("?r")])))
        .unwrap();
    let mut st = SymTable::new();
    st.add_list_of_symbols_of_same_type(
        vec!["eval".to_string(), "check".to_string(), "instance".to_string()],
        &AtomType::Function,
    );
    declare_domain(&d, &mut st).unwrap();
    let mut ch = ChronicleHierarchy::new(st);
    let pd = p_convert(&d, &vec!["t_look".to_string()], &mut ch).unwrap();
    assert_eq!(pd.tasks, vec!["t_look".to_string()]);
    assert_eq!(pd.state_functions, vec!["robot.at".to_string()]);
    let other = p_convert(&d, &vec!["pick".to_string()], &mut ch).unwrap();
    assert!(other.state_functions.is_empty());
    let all = convert_acting_domain(&d, &mut ch).unwrap();
    assert_eq!(
        all.state_functions,
        vec!["robot.at".to_string(), "door.open".to_string()]
    );
}

#[test]
fn the_variables_of_the_branches_are_parameters_of_the_conditional() {
    let mut ch = table();
    let n = ch.sym_table.n_atoms();
    // (if ?a (pick ?r) (pick ?q)) in a method of the parameters ?a, ?r and ?q
    let body = LLambda {
        params: LambdaArgs::List(vec!["?a".to_string(), "?r".to_string(), "?q".to_string()]),
        body: Box::new(l(vec![
            LValue::CoreOperator(LCoreOperator::If),
            s("?a"),
            l(vec![s("pick"), s("?r")]),
            l(vec![s("pick"), s("?q")]),
        ])),
    };
    let c = convert_abstract_task_to_chronicle(
        &body,
        "m_move",
        None,
        &parameters(&["?a", "?r", "?q"]),
        &mut ch,
    )
    .unwrap();
    let m_move = ch.sym_table.id("m_move").unwrap();
    let (a, r, q) = (n, n + 1, n + 2);
    assert_eq!(atoms(c.get_name()), vec![m_move, a, r, q]);
    for p in [a, r, q] {
        assert_eq!(ch.sym_table.get_type(&p), Some(&AtomType::Variable));
        assert!(c.get_partial_chronicle().has_var(&p));
    }
    // the conditional calls a task of the condition, the result and the two
    // variables that its branches use, in the order of their identifiers
    let subtasks = c.get_partial_chronicle().get_subtasks();
    assert_eq!(subtasks.len(), 1);
    let call = atoms(&subtasks[0].lit);
    assert_eq!(call.len(), 5);
    assert_eq!(ch.sym_table.get_atom(&call[0]).unwrap().to_string(), "t_if_0");
    assert_eq!(&call[3..], &[r, q]);
    assert_eq!(ch.tasks.len(), 1);
    let task = atoms(&ch.tasks[0]);
    assert_eq!(task.len(), 5);
    assert_eq!(task[0], call[0]);
    // the parameters of the task are versions of their own
    for k in 1..5 {
        assert!(!call.contains(&task[k]));
        assert_eq!(ch.sym_table.get_type(&task[k]), Some(&AtomType::Variable));
    }
    assert_eq!(ch.methods.len(), 2);
    let yes = atoms(ch.methods[0].get_name());
    let no = atoms(ch.methods[1].get_name());
    assert_eq!(yes.len(), 5);
    assert_eq!(no.len(), 5);
    // the branch that uses a variable has it as it is, the other gets a
    // version of its own
    assert_eq!(yes[3], r);
    assert_ne!(yes[4], q);
    assert_ne!(no[3], r);
    assert_eq!(no[4], q);
    assert_eq!(ch.sym_table.get_atom(&yes[4]).unwrap().to_string().starts_with("?q"), true);
    assert!(ch.methods[0].get_partial_chronicle().has_var(&yes[4]));
    assert!(ch.methods[1].get_partial_chronicle().has_var(&no[3]));
    assert_eq!(atoms(ch.methods[0].get_task()).len(), 5);
    assert_eq!(atoms(ch.methods[0].get_task())[0], task[0]);
}

#[test]
fn a_symbol_that_is_a_variable_is_recorded() {
    let mut ch = table();
    let v = ch.sym_table.declare_new_variable("?x".to_string(), false);
    let plain = ch.sym_table.declare_new_symbol("robot1".to_string(), false);
    assert_eq!(ch.sym_table.get_type(&v), Some(&AtomType::Variable));
    assert_eq!(ch.sym_table.get_type(&plain), Some(&AtomType::Symbol));
    let ec = ompas::planning::conversion::convert_lvalue_to_expression_chronicle(&s("?x"), &mut ch)
        .unwrap();
    assert!(ec.get_partial_chronicle().has_var(&v));
    let ec = ompas::planning::conversion::convert_lvalue_to_expression_chronicle(
        &s("robot1"),
        &mut ch,
    )
    .unwrap();
    assert!(!ec.get_partial_chronicle().has_var(&plain));
    // a second declaration gives the same variable, a new version another one
    assert_eq!(ch.sym_table.declare_new_variable("?x".to_string(), false), v);
    let w = ch.sym_table.declare_new_variable("?x".to_string(), true);
    assert_ne!(w, v);
    assert_eq!(ch.sym_table.get_type(&w), Some(&AtomType::Variable));
}
