use ompas::acquisitions::{
    begin_acquire, cancel_subtree, on_granted, release_acquire, AcquireError, Acquisitions,
};
use ompas::acting_tree::{ActingTree, ProcessStatus, TreeError};
use ompas::lvalue::LValue;
use ompas::refinement::{begin_task, method_ended, next_method, RefineStep};
use ompas::resource::{Acquisition, Resource, ResourceError};
use ompas::resource_manager::{AnyAcquisition, Request, ResourceManager};

fn ticket(a: Acquisition) -> u64 {
    match a {
        Acquisition::Granted(t) => t,
        Acquisition::Waiting(t) => t,
    }
}

#[test]
fn declare_is_idempotent() {
    let mut m = ResourceManager::new();
    assert_eq!(m.declare("R", 2), Ok(()));
    assert_eq!(m.declare("R", 2), Ok(()));
    assert_eq!(m.declare("R", 3), Err(ResourceError::CapacityMismatch));
    assert_eq!(m.declare("Z", 0), Err(ResourceError::ZeroCapacity));
    assert_eq!(m.resources(), vec!["R".to_string()]);
    assert_eq!(m.free_capacity("R"), Ok(2));
    assert_eq!(m.is_locked("R"), Ok(false));
    assert_eq!(m.is_locked("Q"), Err(ResourceError::Undeclared));
}

#[test]
fn free_capacity_stays_within_bounds() {
    let mut m = ResourceManager::new();
    m.declare("R", 3).unwrap();
    let a = m.acquire("R", 2, 0).unwrap();
    assert_eq!(a, Acquisition::Granted(0));
    assert_eq!(m.free_capacity("R"), Ok(1));
    assert_eq!(m.is_locked("R"), Ok(true));
    let b = m.acquire("R", 2, 0).unwrap();
    assert_eq!(b, Acquisition::Waiting(1));
    assert_eq!(m.free_capacity("R"), Ok(1));
    let c = m.acquire("R", 1, 0).unwrap();
    // the head of the queue asks for 2: nobody overtakes it at the same priority
    assert_eq!(c, Acquisition::Waiting(2));
    assert_eq!(m.acquire("R", 4, 0), Err(ResourceError::ExceedsCapacity));
    assert_eq!(m.acquire("Q", 1, 0), Err(ResourceError::Undeclared));
    let (amount, woken) = m.release(ticket(a)).unwrap();
    assert_eq!(amount, 2);
    assert_eq!(woken, vec![1, 2]);
    assert_eq!(m.free_capacity("R"), Ok(0));
    assert_eq!(m.release(ticket(a)), Err(ResourceError::UnknownTicket));
}

#[test]
fn release_gives_back_what_acquire_took() {
    let mut m = ResourceManager::new();
    m.declare("R", 5).unwrap();
    let before = m.free_capacity("R").unwrap();
    let a = m.acquire("R", 3, 1).unwrap();
    assert_eq!(m.free_capacity("R"), Ok(before - 3));
    let (amount, woken) = m.release(ticket(a)).unwrap();
    assert_eq!(amount, 3);
    assert!(woken.is_empty());
    assert_eq!(m.free_capacity("R"), Ok(before));
    assert_eq!(m.is_locked("R"), Ok(false));
}

#[test]
fn resource_contention_never_overlaps() {
    // two tasks acquire a resource of capacity 1 one after the other
    let mut m = ResourceManager::new();
    m.declare("R", 1).unwrap();
    let first = m.acquire("R", 1, 0).unwrap();
    let second = m.acquire("R", 1, 0).unwrap();
    assert_eq!(first, Acquisition::Granted(0));
    assert_eq!(second, Acquisition::Waiting(1));
    assert_eq!(m.free_capacity("R"), Ok(0));
    // the second hold starts with the release of the first
    let (_, woken) = m.release(0).unwrap();
    assert_eq!(woken, vec![1]);
    assert_eq!(m.free_capacity("R"), Ok(0));
    let (_, woken) = m.release(1).unwrap();
    assert!(woken.is_empty());
    assert_eq!(m.free_capacity("R"), Ok(1));
}

#[test]
fn priority_preemption() {
    let mut m = ResourceManager::new();
    m.declare("R", 1).unwrap();
    let holder = ticket(m.acquire("R", 1, 0).unwrap());
    let low1 = ticket(m.acquire("R", 1, 1).unwrap());
    let low2 = ticket(m.acquire("R", 1, 1).unwrap());
    let high = ticket(m.acquire("R", 1, 9).unwrap());
    let mut order = vec![];
    let (_, woken) = m.release(holder).unwrap();
    order.extend(woken.clone());
    let (_, woken) = m.release(order[0]).unwrap();
    order.extend(woken.clone());
    let (_, woken) = m.release(order[1]).unwrap();
    order.extend(woken);
    assert_eq!(order, vec![high, low1, low2]);
}

#[test]
fn cancel_before_and_after_grant() {
    let mut m = ResourceManager::new();
    m.declare("R", 1).unwrap();
    let holder = ticket(m.acquire("R", 1, 0).unwrap());
    let waiter = ticket(m.acquire("R", 1, 0).unwrap());
    let other = ticket(m.acquire("R", 1, 0).unwrap());
    // a waiter that is cancelled leaves the queue
    assert_eq!(m.cancel(waiter), Ok(vec![]));
    // cancelling the holder is a release
    assert_eq!(m.cancel(holder), Ok(vec![other]));
    // cancelling twice does no harm
    assert_eq!(m.cancel(holder), Err(ResourceError::UnknownTicket));
    assert_eq!(m.free_capacity("R"), Ok(0));
}

#[test]
fn one_resource_alone() {
    let mut r = Resource::new("arm", 2);
    assert_eq!(r.get_label(), "arm");
    assert_eq!(r.capacity(), 2);
    assert_eq!(r.acquire(7, 2, 0), Ok(true));
    assert_eq!(r.acquire(8, 1, 5), Ok(false));
    assert_eq!(r.acquire(9, 3, 5), Err(ResourceError::ExceedsCapacity));
    assert_eq!(r.n_waiters(), 1);
    assert!(r.is_locked());
    assert_eq!(r.find_hold(7), Some(0));
    assert_eq!(r.find_wait(8), Some(0));
    assert_eq!(r.release(7), Ok((2, vec![8])));
    assert_eq!(r.free_capacity(), 1);
}

fn request(label: &str, amount: usize) -> Request {
    Request { label: label.to_string(), amount }
}

#[test]
fn any_takes_the_first_resource_that_grants() {
    let mut m = ResourceManager::new();
    m.declare("arm_left", 1).unwrap();
    m.declare("arm_right", 1).unwrap();
    let first = m.acquire("arm_left", 1, 0).unwrap();
    assert_eq!(first, Acquisition::Granted(0));
    let any = m
        .acquire_any(&vec![request("arm_left", 1), request("arm_right", 1)], 0)
        .unwrap();
    assert_eq!(any, AnyAcquisition::Granted(1, 1));
    assert_eq!(m.free_capacity("arm_right"), Ok(0));
    let tie = {
        let mut n = ResourceManager::new();
        n.declare("a", 2).unwrap();
        n.declare("b", 2).unwrap();
        n.acquire_any(&vec![request("b", 1), request("a", 1)], 3).unwrap()
    };
    assert_eq!(tie, AnyAcquisition::Granted(0, 0));
}

#[test]
fn any_waits_everywhere_and_is_settled() {
    let mut m = ResourceManager::new();
    m.declare("a", 1).unwrap();
    m.declare("b", 1).unwrap();
    assert_eq!(m.acquire("a", 1, 0), Ok(Acquisition::Granted(0)));
    assert_eq!(m.acquire("b", 1, 0), Ok(Acquisition::Granted(1)));
    // the request waits in a under the ticket 2 and in b under the ticket 3
    let any = m.acquire_any(&vec![request("a", 1), request("b", 1)], 0).unwrap();
    assert_eq!(any, AnyAcquisition::Waiting(2));
    assert_eq!(m.acquire("a", 1, 0), Ok(Acquisition::Waiting(4)));
    // b comes free: the request for any of the two gets it.
    let (amount, woken) = m.release(1).unwrap();
    assert_eq!(amount, 1);
    assert_eq!(woken, vec![3]);
    // it leaves the queue of a, where ticket 4 stays behind.
    let more = m.settle(2, 2, 3);
    assert!(more.is_empty());
    let (_, woken) = m.release(0).unwrap();
    assert_eq!(woken, vec![4]);
    assert_eq!(m.free_capacity("b"), Ok(0));
}

#[test]
fn any_is_refused() {
    let mut m = ResourceManager::new();
    m.declare("a", 1).unwrap();
    assert_eq!(m.acquire_any(&vec![], 0), Err(ResourceError::NothingRequested));
    assert_eq!(
        m.acquire_any(&vec![request("a", 1), request("z", 1)], 0),
        Err(ResourceError::Undeclared)
    );
    assert_eq!(
        m.acquire_any(&vec![request("a", 2), request("z", 1)], 0),
        Err(ResourceError::ExceedsCapacity)
    );
    assert_eq!(m.free_capacity("a"), Ok(1));
}

#[test]
fn settling_a_granted_ticket_elsewhere_wakes_the_next() {
    let mut m = ResourceManager::new();
    m.declare("a", 1).unwrap();
    m.declare("b", 1).unwrap();
    assert_eq!(m.acquire("a", 1, 0), Ok(Acquisition::Granted(0)));
    assert_eq!(m.acquire("b", 1, 0), Ok(Acquisition::Granted(1)));
    assert_eq!(
        m.acquire_any(&vec![request("a", 1), request("b", 1)], 0),
        Ok(AnyAcquisition::Waiting(2))
    );
    assert_eq!(m.acquire("a", 1, 0), Ok(Acquisition::Waiting(4)));
    // both come free before the request is settled: it holds both.
    assert_eq!(m.release(0).unwrap().1, vec![2]);
    assert_eq!(m.release(1).unwrap().1, vec![3]);
    // keeping b gives a back, which goes to ticket 4.
    assert_eq!(m.settle(2, 2, 3), vec![4]);
    assert_eq!(m.free_capacity("a"), Ok(0));
    assert_eq!(m.free_capacity("b"), Ok(0));
}

#[test]
fn a_ticket_is_released_once() {
    let mut m = ResourceManager::new();
    m.declare("R", 2).unwrap();
    assert_eq!(m.acquire("R", 2, 0), Ok(Acquisition::Granted(0)));
    assert_eq!(m.acquire("R", 1, 0), Ok(Acquisition::Waiting(1)));
    assert_eq!(m.release(0), Ok((2, vec![1])));
    assert_eq!(m.free_capacity("R"), Ok(1));
    // the second release is refused and gives nothing back
    assert_eq!(m.release(0), Err(ResourceError::UnknownTicket));
    assert_eq!(m.free_capacity("R"), Ok(1));
    assert_eq!(m.cancel(0), Err(ResourceError::UnknownTicket));
    assert_eq!(m.release(1), Ok((1, vec![])));
    assert_eq!(m.release(1), Err(ResourceError::UnknownTicket));
    assert_eq!(m.free_capacity("R"), Ok(2));
}

fn method_of(tree: &mut ActingTree, task: usize, label: &str, now: u64) -> usize {
    let mut candidates = vec![LValue::symbol(label)];
    match next_method(tree, task, &mut candidates, now).unwrap() {
        RefineStep::Evaluate { method, .. } => method,
        _ => panic!("a method was expected"),
    }
}

#[test]
fn two_tasks_hold_a_resource_one_after_the_other() {
    let mut m = ResourceManager::new();
    m.declare("R", 1).unwrap();
    let mut tree = ActingTree::new();
    let t1 = begin_task(&mut tree, 0, "t1", vec![], 1).unwrap();
    let t2 = begin_task(&mut tree, 0, "t2", vec![], 1).unwrap();
    let m1 = method_of(&mut tree, t1, "m1", 1);
    let m2 = method_of(&mut tree, t2, "m2", 1);
    let a1 = tree.new_acquire(m1, "R", 1).unwrap();
    let a2 = tree.new_acquire(m2, "R", 1).unwrap();
    // the first request is granted at once, the second waits
    assert_eq!(m.acquire("R", 1, 0), Ok(Acquisition::Granted(0)));
    tree.set_start(a1, 2).unwrap();
    assert_eq!(m.acquire("R", 1, 0), Ok(Acquisition::Waiting(1)));
    assert_eq!(tree.status(a2), Some(ProcessStatus::Pending));
    // the first task holds the resource for a while, then releases it
    tree.set_status(a1, ProcessStatus::Success, 6).unwrap();
    let (_, woken) = m.release(0).unwrap();
    assert_eq!(woken, vec![1]);
    tree.set_start(a2, 6).unwrap();
    assert_eq!(method_ended(&mut tree, m1, true, 7), Ok(ProcessStatus::Success));
    tree.set_status(a2, ProcessStatus::Success, 9).unwrap();
    assert!(m.release(1).unwrap().1.is_empty());
    assert_eq!(method_ended(&mut tree, m2, true, 10), Ok(ProcessStatus::Success));
    // both tasks have succeeded, and the holds do not overlap
    assert_eq!(tree.status(t1), Some(ProcessStatus::Success));
    assert_eq!(tree.status(t2), Some(ProcessStatus::Success));
    let (first_start, first_end) = tree.interval(a1).unwrap();
    let (second_start, second_end) = tree.interval(a2).unwrap();
    assert_eq!((first_start, first_end), (Some(2), Some(6)));
    assert_eq!((second_start, second_end), (Some(6), Some(9)));
    assert!(second_start.unwrap() >= first_end.unwrap());
    assert_eq!(m.free_capacity("R"), Ok(1));
}

#[test]
fn what_is_cancelled_gives_back_what_it_holds() {
    let mut m = ResourceManager::new();
    m.declare("R", 1).unwrap();
    m.declare("S", 1).unwrap();
    let mut tree = ActingTree::new();
    let mut links = Acquisitions::new();
    let t1 = begin_task(&mut tree, 0, "t1", vec![], 1).unwrap();
    let t2 = begin_task(&mut tree, 0, "t2", vec![], 1).unwrap();
    let m1 = method_of(&mut tree, t1, "m1", 1);
    let m2 = method_of(&mut tree, t2, "m2", 1);
    // the first method holds R and S, the second waits for R
    let (a1, g1) = begin_acquire(&mut tree, &mut m, &mut links, m1, "R", 1, 0, 2).unwrap();
    let (a2, g2) = begin_acquire(&mut tree, &mut m, &mut links, m2, "R", 1, 0, 3).unwrap();
    let (a3, g3) = begin_acquire(&mut tree, &mut m, &mut links, m1, "S", 1, 0, 4).unwrap();
    assert_eq!(g1, Acquisition::Granted(0));
    assert_eq!(g2, Acquisition::Waiting(1));
    assert_eq!(g3, Acquisition::Granted(2));
    assert_eq!(tree.status(a1), Some(ProcessStatus::Success));
    assert_eq!(tree.status(a2), Some(ProcessStatus::Running));
    assert_eq!(links.len(), 3);
    assert_eq!(links.ticket_of(a2), Some(1));
    assert_eq!(links.ticket_of(99), None);
    // a resource that is not declared makes the acquisition fail
    let refused = begin_acquire(&mut tree, &mut m, &mut links, m1, "Z", 1, 0, 4);
    assert_eq!(refused, Err(AcquireError::Resource(ResourceError::Undeclared)));
    assert_eq!(tree.status(tree.len() - 1), Some(ProcessStatus::Failure));
    assert_eq!(links.len(), 3);
    // the first task is cancelled: its acquisitions give back R and S
    let woken = cancel_subtree(&mut tree, &mut m, &mut links, t1, 5).unwrap();
    assert_eq!(woken, vec![1]);
    assert_eq!(tree.status(t1), Some(ProcessStatus::Cancelled));
    assert_eq!(tree.status(m1), Some(ProcessStatus::Cancelled));
    // what had succeeded stays as it was, and its ticket is given back
    assert_eq!(tree.status(a1), Some(ProcessStatus::Success));
    assert_eq!(m.free_capacity("S"), Ok(1));
    assert_eq!(m.release(0), Err(ResourceError::UnknownTicket));
    assert_eq!(m.release(2), Err(ResourceError::UnknownTicket));
    assert_eq!(links.len(), 1);
    assert_eq!(links.ticket_of(a3), None);
    // the second acquisition was granted by the cancellation
    assert_eq!(on_granted(&mut tree, &m, &links, 1, 6), Ok(a2));
    assert_eq!(tree.status(a2), Some(ProcessStatus::Success));
    assert_eq!(m.free_capacity("R"), Ok(0));
    assert_eq!(on_granted(&mut tree, &m, &links, 7, 6), Err(TreeError::UnknownProcess));
    // its release path gives R back
    assert!(release_acquire(&tree, &mut m, &mut links, a2).is_empty());
    assert_eq!(m.free_capacity("R"), Ok(1));
    assert_eq!(links.len(), 0);
    assert!(release_acquire(&tree, &mut m, &mut links, a2).is_empty());
    // a cancellation of what is not there changes nothing
    assert_eq!(
        cancel_subtree(&mut tree, &mut m, &mut links, 99, 8),
        Err(TreeError::UnknownProcess)
    );
}

#[test]
fn a_waiting_acquisition_that_is_cancelled_leaves_its_queue() {
    let mut m = ResourceManager::new();
    m.declare("R", 1).unwrap();
    let mut tree = ActingTree::new();
    let mut links = Acquisitions::new();
    let t1 = begin_task(&mut tree, 0, "t1", vec![], 1).unwrap();
    let t2 = begin_task(&mut tree, 0, "t2", vec![], 1).unwrap();
    let m1 = method_of(&mut tree, t1, "m1", 1);
    let m2 = method_of(&mut tree, t2, "m2", 1);
    begin_acquire(&mut tree, &mut m, &mut links, m1, "R", 1, 0, 2).unwrap();
    let (a2, _) = begin_acquire(&mut tree, &mut m, &mut links, m2, "R", 1, 0, 3).unwrap();
    let woken = cancel_subtree(&mut tree, &mut m, &mut links, t2, 4).unwrap();
    assert!(woken.is_empty());
    assert_eq!(tree.status(a2), Some(ProcessStatus::Cancelled));
    assert_eq!(m.cancel(1), Err(ResourceError::UnknownTicket));
    // nobody is woken when the holder releases
    assert_eq!(m.release(0), Ok((1, vec![])));
    assert_eq!(links.len(), 1);
}
