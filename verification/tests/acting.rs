use ompas::acting_tree::{ActingTree, ProcessKind, ProcessStatus, TreeError};
use ompas::error::{ActingError, ErrorKind};
use ompas::lvalue::LValue;
use ompas::refinement::{
    begin_command, begin_command_task, begin_task, instantiate_methods, method_ended,
    next_method, on_command_status, CommandStep, RefineError, RefineStep,
};
use ompas::root_task::RootProcess;

fn instance(label: &str, arg: &str) -> LValue {
    LValue::list(vec![LValue::symbol(label), LValue::symbol(arg)])
}

#[test]
fn single_command_success() {
    // the task names a command: it stands for it
    let mut tree = ActingTree::new();
    let (task, command) =
        begin_command_task(&mut tree, 0, "pick", vec![LValue::symbol("robot1")], 1).unwrap();
    assert_eq!(tree.len(), 3);
    assert_eq!(tree.kind(task), Some(ProcessKind::Task));
    assert_eq!(tree.kind(command), Some(ProcessKind::Command));
    assert_eq!(tree.children(0), vec![task]);
    assert_eq!(tree.children(task), vec![command]);
    assert_eq!(tree.parent(command), Some(task));
    assert_eq!(tree.label(task), Some("pick".to_string()));
    assert_eq!(tree.label(command), Some("pick".to_string()));
    assert_eq!(tree.args(command), Some(vec![LValue::symbol("robot1")]));
    // the platform reports: the call returns at the terminal status only
    assert!(matches!(
        on_command_status(&mut tree, command, ProcessStatus::Pending, 2),
        Ok(CommandStep::Wait)
    ));
    assert!(matches!(
        on_command_status(&mut tree, command, ProcessStatus::Running, 3),
        Ok(CommandStep::Wait)
    ));
    assert_eq!(tree.status(task), Some(ProcessStatus::Running));
    match on_command_status(&mut tree, command, ProcessStatus::Success, 4) {
        Ok(CommandStep::Return(v)) => assert!(v == LValue::True),
        _ => panic!("the command returns"),
    }
    assert_eq!(tree.status(command), Some(ProcessStatus::Success));
    assert_eq!(tree.status(task), Some(ProcessStatus::Success));
    assert_eq!(tree.interval(command), Some((Some(1), Some(4))));
    assert_eq!(tree.interval(task), Some((Some(1), Some(4))));
    // exactly one command was dispatched
    let commands: Vec<usize> = (0..tree.len())
        .filter(|p| tree.kind(*p) == Some(ProcessKind::Command))
        .collect();
    assert_eq!(commands, vec![command]);
    // the task takes no method
    let mut candidates = vec![instance("m_pick", "robot1")];
    assert!(matches!(
        next_method(&mut tree, task, &mut candidates, 5),
        Ok(RefineStep::Ended(ProcessStatus::Success))
    ));
}

#[test]
fn a_task_fails_with_its_command() {
    let mut tree = ActingTree::new();
    let (task, command) = begin_command_task(&mut tree, 0, "pick", vec![], 1).unwrap();
    // while the command runs the task takes neither a method nor another command
    let mut candidates = vec![LValue::symbol("m")];
    assert!(matches!(
        next_method(&mut tree, task, &mut candidates, 2),
        Err(RefineError::Tree(TreeError::NoCandidate))
    ));
    assert_eq!(tree.new_command(task, "drop", vec![]), Err(TreeError::AlreadyCounted));
    assert_eq!(tree.new_acquire(task, "R", 1), Err(TreeError::WrongKind));
    match on_command_status(&mut tree, command, ProcessStatus::Failure, 3) {
        Ok(CommandStep::Return(v)) => {
            assert!(v == LValue::failure(LValue::symbol("action-failure")))
        }
        _ => panic!("the command returns"),
    }
    assert_eq!(tree.status(task), Some(ProcessStatus::Failure));
    // a task that has counted its candidates stands for no command
    let other = begin_task(&mut tree, 0, "t", vec![], 4).unwrap();
    let method = match next_method(&mut tree, other, &mut candidates, 5).unwrap() {
        RefineStep::Evaluate { method, .. } => method,
        _ => panic!("a method was expected"),
    };
    assert_eq!(tree.new_command(other, "pick", vec![]), Err(TreeError::AlreadyCounted));
    // a pending process does not succeed before it runs
    let c = tree.new_command(method, "pick", vec![]).unwrap();
    assert_eq!(
        tree.set_status(c, ProcessStatus::Success, 6),
        Err(TreeError::IllegalTransition)
    );
    assert_eq!(tree.set_status(c, ProcessStatus::Failure, 6), Ok(()));
}

#[test]
fn a_method_runs_a_command() {
    // a task whose one method runs one command of the platform
    let mut tree = ActingTree::new();
    let task = begin_task(&mut tree, 0, "pick", vec![LValue::symbol("robot1")], 1).unwrap();
    let mut candidates = vec![instance("m_pick", "robot1")];
    let step = next_method(&mut tree, task, &mut candidates, 2).unwrap();
    let method = match step {
        RefineStep::Evaluate { method, instance: i } => {
            assert_eq!(i, instance("m_pick", "robot1"));
            method
        }
        _ => panic!("a method was expected"),
    };
    let command = begin_command(&mut tree, method, "pick", vec![LValue::symbol("robot1")], 3).unwrap();
    assert_eq!(tree.set_status(command, ProcessStatus::Success, 4), Ok(()));
    assert_eq!(method_ended(&mut tree, method, true, 5), Ok(ProcessStatus::Success));

    assert_eq!(tree.len(), 4);
    assert_eq!(tree.kind(task), Some(ProcessKind::Task));
    assert_eq!(tree.kind(command), Some(ProcessKind::Command));
    assert_eq!(tree.children(0), vec![task]);
    assert_eq!(tree.children(task), vec![method]);
    assert_eq!(tree.children(method), vec![command]);
    assert_eq!(tree.status(task), Some(ProcessStatus::Success));
    assert_eq!(tree.status(method), Some(ProcessStatus::Success));
    assert_eq!(tree.status(command), Some(ProcessStatus::Success));
    // exactly one command was dispatched
    let commands: Vec<usize> = (0..tree.len())
        .filter(|p| tree.kind(*p) == Some(ProcessKind::Command))
        .collect();
    assert_eq!(commands, vec![command]);
    assert_eq!(tree.label(command), Some("pick".to_string()));
    assert_eq!(tree.args(command), Some(vec![LValue::symbol("robot1")]));
}

#[test]
fn retry_with_the_next_method() {
    let mut tree = ActingTree::new();
    let task = begin_task(&mut tree, 0, "t", vec![], 1).unwrap();
    let mut candidates = vec![LValue::symbol("m1"), LValue::symbol("m2")];
    let m1 = match next_method(&mut tree, task, &mut candidates, 2).unwrap() {
        RefineStep::Evaluate { method, .. } => method,
        _ => panic!("a method was expected"),
    };
    let c = begin_command(&mut tree, m1, "move", vec![], 3).unwrap();
    tree.set_status(c, ProcessStatus::Failure, 4).unwrap();
    // the task runs on: a candidate is left
    assert_eq!(method_ended(&mut tree, m1, false, 5), Ok(ProcessStatus::Running));
    let m2 = match next_method(&mut tree, task, &mut candidates, 6).unwrap() {
        RefineStep::Evaluate { method, .. } => method,
        _ => panic!("a method was expected"),
    };
    assert_eq!(method_ended(&mut tree, m2, true, 7), Ok(ProcessStatus::Success));
    assert_eq!(tree.children(task), vec![m1, m2]);
    assert_eq!(tree.status(m1), Some(ProcessStatus::Failure));
    assert_eq!(tree.status(m2), Some(ProcessStatus::Success));
    assert_eq!(tree.status(task), Some(ProcessStatus::Success));
    assert!(matches!(
        next_method(&mut tree, task, &mut candidates, 8),
        Ok(RefineStep::Ended(ProcessStatus::Success))
    ));
}

#[test]
fn task_fails_when_every_method_failed() {
    let mut tree = ActingTree::new();
    let task = begin_task(&mut tree, 0, "t", vec![], 1).unwrap();
    let mut candidates = vec![LValue::symbol("m1"), LValue::symbol("m2")];
    let m1 = match next_method(&mut tree, task, &mut candidates, 2).unwrap() {
        RefineStep::Evaluate { method, .. } => method,
        _ => panic!("a method was expected"),
    };
    assert_eq!(tree.remaining(task), Some(1));
    assert_eq!(method_ended(&mut tree, m1, false, 3), Ok(ProcessStatus::Running));
    let m2 = match next_method(&mut tree, task, &mut candidates, 4).unwrap() {
        RefineStep::Evaluate { method, .. } => method,
        _ => panic!("a method was expected"),
    };
    assert_eq!(method_ended(&mut tree, m2, false, 5), Ok(ProcessStatus::Failure));
    assert_eq!(tree.status(task), Some(ProcessStatus::Failure));
}

#[test]
fn no_applicable_method() {
    let mut tree = ActingTree::new();
    let task = begin_task(&mut tree, 0, "t", vec![], 1).unwrap();
    let mut candidates = vec![];
    assert!(matches!(
        next_method(&mut tree, task, &mut candidates, 2),
        Ok(RefineStep::Ended(ProcessStatus::Failure))
    ));
    assert_eq!(tree.status(task), Some(ProcessStatus::Failure));
    assert_eq!(tree.children(task), Vec::<usize>::new());
}

#[test]
fn instants_are_in_order() {
    let mut tree = ActingTree::new();
    let task = begin_task(&mut tree, 0, "t", vec![], 10).unwrap();
    let mut candidates = vec![LValue::symbol("m")];
    let m = match next_method(&mut tree, task, &mut candidates, 5).unwrap() {
        RefineStep::Evaluate { method, .. } => method,
        _ => panic!("a method was expected"),
    };
    // the clock never goes back: an earlier instant is recorded as the latest one
    assert_eq!(tree.interval(task), Some((Some(10), None)));
    assert_eq!(tree.interval(m), Some((Some(10), None)));
    method_ended(&mut tree, m, true, 12).unwrap();
    for p in [task, m] {
        let (start, end) = tree.interval(p).unwrap();
        assert!(end.unwrap() >= start.unwrap());
        let parent = tree.parent(p).unwrap();
        assert!(start.unwrap() >= tree.interval(parent).unwrap().0.unwrap());
    }
    assert_eq!(tree.interval(task), Some((Some(10), Some(12))));
    assert_eq!(tree.clock(), 12);
}

#[test]
fn cancellation_converges() {
    // a task whose method waits for a fact that never comes
    let mut tree = ActingTree::new();
    let task = begin_task(&mut tree, 0, "t", vec![], 1).unwrap();
    let mut candidates = vec![LValue::symbol("m_wait")];
    let method = match next_method(&mut tree, task, &mut candidates, 2).unwrap() {
        RefineStep::Evaluate { method, .. } => method,
        _ => panic!("a method was expected"),
    };
    let done = begin_command(&mut tree, method, "noop", vec![], 3).unwrap();
    tree.set_status(done, ProcessStatus::Success, 4).unwrap();
    assert_eq!(tree.cancel(0, 5), Ok(()));
    assert_eq!(tree.status(0), Some(ProcessStatus::Cancelled));
    assert_eq!(tree.status(task), Some(ProcessStatus::Cancelled));
    assert_eq!(tree.status(method), Some(ProcessStatus::Cancelled));
    // what had ended stays as it was
    assert_eq!(tree.status(done), Some(ProcessStatus::Success));
    assert_eq!(tree.interval(done), Some((Some(3), Some(4))));
    // nothing moves after the cancellation
    assert_eq!(
        tree.set_status(method, ProcessStatus::Success, 6),
        Err(TreeError::IllegalTransition)
    );
    assert_eq!(tree.cancel(0, 7), Ok(()));
    assert_eq!(tree.interval(task), Some((Some(1), Some(5))));
    assert!(matches!(
        next_method(&mut tree, task, &mut candidates, 8),
        Ok(RefineStep::Ended(ProcessStatus::Cancelled))
    ));
}

#[test]
fn tree_refuses_what_breaks_its_rules() {
    let mut tree = ActingTree::new();
    assert_eq!(tree.new_task(9, "t", vec![]), Err(TreeError::UnknownProcess));
    let task = tree.new_task(0, "t", vec![]).unwrap();
    // under a task stand its methods, or the command that it stands for,
    // once it runs
    assert_eq!(tree.new_acquire(task, "R", 1), Err(TreeError::WrongKind));
    assert_eq!(tree.new_task(task, "u", vec![]), Err(TreeError::WrongKind));
    assert_eq!(tree.new_command(task, "c", vec![]), Err(TreeError::IllegalTransition));
    assert_eq!(tree.new_method(0, "m", vec![]), Err(TreeError::WrongKind));
    // a pending task has no method yet
    assert_eq!(tree.new_method(task, "m", vec![]), Err(TreeError::IllegalTransition));
    assert_eq!(tree.set_start(task, 1), Ok(()));
    assert_eq!(tree.new_method(task, "m", vec![]), Err(TreeError::NoCandidate));
    assert_eq!(tree.set_candidates(task, 2, 2), Ok(()));
    assert_eq!(tree.set_candidates(task, 2, 2), Err(TreeError::AlreadyCounted));
    let m = tree.new_method(task, "m", vec![]).unwrap();
    assert_eq!(tree.new_method(task, "m2", vec![]), Err(TreeError::MethodActive));
    // a task takes its outcome from its methods
    assert_eq!(
        tree.set_status(task, ProcessStatus::Success, 3),
        Err(TreeError::IllegalTransition)
    );
    assert_eq!(tree.set_status(m, ProcessStatus::Pending, 3), Err(TreeError::IllegalTransition));
    let acquire = tree.new_acquire(m, "R", 2).unwrap();
    assert_eq!(tree.kind(acquire), Some(ProcessKind::Acquire));
    // the method has not started: what lies below it cannot start
    assert_eq!(tree.set_start(acquire, 4), Err(TreeError::ParentNotStarted));
    let chosen = tree
        .new_arbitrary(m, vec![LValue::from_int(1), LValue::from_int(2)], LValue::from_int(1))
        .unwrap();
    assert_eq!(
        tree.args(chosen),
        Some(vec![LValue::from_int(1), LValue::from_int(1), LValue::from_int(2)])
    );
    assert_eq!(tree.ancestors(chosen), vec![m, task, 0]);
    assert_eq!(tree.subtree(task), vec![task, m, acquire, chosen]);
    assert_eq!(tree.ancestors(0), Vec::<usize>::new());
}

#[test]
fn errors_carry_codes_and_traces() {
    let mut tree = ActingTree::new();
    let task = begin_task(&mut tree, 0, "t", vec![], 1).unwrap();
    let e = ActingError::raised_in(ErrorKind::NoApplicableMethod, &tree, task);
    assert_eq!(e.kind.code(), 301);
    assert_eq!(e.trace, vec![task, 0]);
    assert!(e.kind.is_recoverable());
    assert!(!ErrorKind::Programming.is_recoverable());
    assert_eq!(ErrorKind::Cancellation.code(), 500);
    assert_eq!(ErrorKind::CommandFailure.code(), 400);
    assert_eq!(ErrorKind::Domain.code(), 200);
    assert_eq!(ErrorKind::PlannerTimeout.code(), 602);
}

#[test]
fn root_keeps_top_level_tasks() {
    let mut root = RootProcess::new();
    assert_eq!(root.n_task(), 0);
    root.add_top_level_task(4);
    root.add_top_level_task(9);
    assert_eq!(root.n_task(), 2);
    assert_eq!(root.nth_task(1), Some(9));
    assert_eq!(root.nth_task(2), None);
    assert_eq!(root.to_string(), "(0) Root");
}

#[test]
fn the_end_of_a_process_is_recorded() {
    let mut t = ActingTree::new();
    let c = t.new_command(0, "pick", vec![]).unwrap();
    assert_eq!(t.set_end(c, 5), Err(TreeError::IllegalTransition));
    t.set_start(c, 3).unwrap();
    t.set_end(c, 7).unwrap();
    assert_eq!(t.interval(c), Some((Some(3), Some(7))));
    assert_eq!(t.status(c), Some(ProcessStatus::Running));
    assert_eq!(t.set_end(99, 1), Err(TreeError::UnknownProcess));
    // the clock does not go back
    t.set_end(c, 2).unwrap();
    assert_eq!(t.interval(c), Some((Some(3), Some(7))));
    t.set_status(c, ProcessStatus::Success, 9).unwrap();
    assert_eq!(t.interval(c), Some((Some(3), Some(9))));
    // what has ended stays as it is
    assert_eq!(t.set_end(c, 12), Err(TreeError::IllegalTransition));
    assert_eq!(t.interval(c), Some((Some(3), Some(9))));
}

#[test]
fn the_platform_reports_on_a_command() {
    let mut tree = ActingTree::new();
    let task = begin_task(&mut tree, 0, "t", vec![], 1).unwrap();
    let mut candidates = vec![LValue::symbol("m")];
    let method = match next_method(&mut tree, task, &mut candidates, 1).unwrap() {
        RefineStep::Evaluate { method, .. } => method,
        _ => panic!("a method was expected"),
    };
    let c = tree.new_command(method, "pick", vec![]).unwrap();
    assert!(matches!(
        on_command_status(&mut tree, c, ProcessStatus::Pending, 2),
        Ok(CommandStep::Wait)
    ));
    assert_eq!(tree.status(c), Some(ProcessStatus::Pending));
    assert!(matches!(
        on_command_status(&mut tree, c, ProcessStatus::Running, 3),
        Ok(CommandStep::Wait)
    ));
    assert!(matches!(
        on_command_status(&mut tree, c, ProcessStatus::Running, 4),
        Ok(CommandStep::Wait)
    ));
    assert_eq!(tree.interval(c), Some((Some(3), None)));
    match on_command_status(&mut tree, c, ProcessStatus::Success, 5) {
        Ok(CommandStep::Return(v)) => assert!(v == LValue::True),
        _ => panic!("the command returns"),
    }
    assert_eq!(tree.interval(c), Some((Some(3), Some(5))));
    // a second report of the end is refused
    assert!(matches!(
        on_command_status(&mut tree, c, ProcessStatus::Failure, 6),
        Err(TreeError::IllegalTransition)
    ));
    let d = tree.new_command(method, "drop", vec![]).unwrap();
    match on_command_status(&mut tree, d, ProcessStatus::Failure, 7) {
        Ok(CommandStep::Return(v)) => {
            assert!(v == LValue::failure(LValue::symbol("action-failure")))
        }
        _ => panic!("the command returns"),
    }
    assert_eq!(tree.status(d), Some(ProcessStatus::Failure));
    assert!(matches!(
        on_command_status(&mut tree, task, ProcessStatus::Running, 8),
        Err(TreeError::WrongKind)
    ));
    assert!(matches!(
        on_command_status(&mut tree, 99, ProcessStatus::Running, 8),
        Err(TreeError::UnknownProcess)
    ));
    assert!(matches!(
        on_command_status(&mut tree, d, ProcessStatus::Cancelled, 8),
        Err(TreeError::IllegalTransition)
    ));
}

#[test]
fn methods_are_instantiated_on_the_arguments_of_the_task() {
    let methods = vec!["m1".to_string(), "m2".to_string()];
    let args = vec![LValue::symbol("r1"), LValue::from_int(3)];
    let instances = instantiate_methods(&methods, &args);
    assert_eq!(instances.len(), 2);
    assert_eq!(instances[0].to_string(), "(m1 r1 3)");
    assert_eq!(instances[1].to_string(), "(m2 r1 3)");
    assert_eq!(instantiate_methods(&methods, &vec![])[0].to_string(), "(m1)");
    assert!(instantiate_methods(&vec![], &args).is_empty());
}

#[test]
fn the_next_method_is_the_first_candidate_or_the_task_fails() {
    let mut tree = ActingTree::new();
    let task = begin_task(&mut tree, 0, "t", vec![], 1).unwrap();
    // a later call without candidate, while none was counted as left, is refused
    let mut two = instantiate_methods(&vec!["m1".to_string(), "m2".to_string()], &vec![]);
    let first = match next_method(&mut tree, task, &mut two, 2) {
        Ok(RefineStep::Evaluate { method, instance }) => {
            assert_eq!(instance.to_string(), "(m1)");
            method
        }
        _ => panic!("the first candidate is handed out"),
    };
    assert_eq!(two.len(), 1);
    // while the first method runs, no other is handed out
    assert!(matches!(
        next_method(&mut tree, task, &mut two, 3),
        Err(RefineError::Tree(TreeError::MethodActive))
    ));
    assert_eq!(two.len(), 1);
    method_ended(&mut tree, first, false, 4).unwrap();
    let mut none: Vec<LValue> = vec![];
    assert!(matches!(
        next_method(&mut tree, task, &mut none, 5),
        Err(RefineError::Tree(TreeError::NoCandidate))
    ));
    assert!(matches!(
        next_method(&mut tree, task, &mut two, 5),
        Ok(RefineStep::Evaluate { .. })
    ));
    // a task without candidates fails at once
    let other = begin_task(&mut tree, 0, "u", vec![], 6).unwrap();
    assert!(matches!(
        next_method(&mut tree, other, &mut none, 7),
        Ok(RefineStep::Ended(ProcessStatus::Failure))
    ));
    // a candidate without label is no method
    let third = begin_task(&mut tree, 0, "v", vec![], 8).unwrap();
    let mut odd = vec![LValue::from_int(3)];
    assert!(matches!(
        next_method(&mut tree, third, &mut odd, 9),
        Err(RefineError::NotAMethod)
    ));
    assert_eq!(odd.len(), 1);
    assert!(matches!(
        next_method(&mut tree, 99, &mut odd, 9),
        Err(RefineError::Tree(TreeError::UnknownProcess))
    ));
}
