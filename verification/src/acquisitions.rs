//! The acquisitions of the acting tree: which ticket of the resources each
//! acquisition of the tree stands for, so that what is cancelled in the tree
//! gives back what it holds and leaves the queues in which it waits.
use crate::acting_tree::{
    ActingProcessId, ActingTree, ProcessKind, ProcessStatus, TreeError, TreeModel,
};
use crate::lvalue::{LNumber, Sexp};
use crate::refinement::{start_refused, started};
use crate::resource::{Acquisition, ResourceError, Ticket};
use crate::resource_manager::{lemma_granted_holds, ManagerModel, ResourceManager};
use vstd::prelude::*;

verus! {

/// An acquisition of the tree and the ticket that it stands for.
#[derive(Clone, Copy, Debug, PartialEq, Eq, Structural)]
pub struct AcquireLink {
    pub process: ActingProcessId,
    pub ticket: Ticket,
}

/// The acquisitions that have not given back their ticket, in the order in
/// which they were made.
pub struct Acquisitions {
    links: Vec<AcquireLink>,
}

impl View for Acquisitions {
    type V = Seq<AcquireLink>;

    closed spec fn view(&self) -> Seq<AcquireLink> {
        self.links@
    }
}

/// Why an acquisition is refused.
#[derive(Clone, Copy, Debug, PartialEq, Eq, Structural)]
pub enum AcquireError {
    /// The tree refused the process of the acquisition.
    Tree(TreeError),
    /// The resources refused the request; the process of the acquisition
    /// has failed.
    Resource(ResourceError),
}

/// The resources once the tickets of those of the first `n` links whose
/// process is `pid` or lies below it have been withdrawn, one after the
/// other.
pub open spec fn withdrawn(m: ManagerModel, links: Seq<AcquireLink>, tree: TreeModel, pid: int, n: nat) -> ManagerModel
    decreases n,
{
    if n == 0 || n > links.len() {
        m
    } else {
        let before = withdrawn(m, links, tree, pid, (n - 1) as nat);
        if tree.above(pid, links[n - 1].process as int) {
            before.cancel(links[n - 1].ticket)
        } else {
            before
        }
    }
}

/// The tickets that are granted while those tickets are withdrawn,
/// withdrawal by withdrawal.
pub open spec fn withdraw_wakes(m: ManagerModel, links: Seq<AcquireLink>, tree: TreeModel, pid: int, n: nat) -> Seq<
    Ticket,
>
    decreases n,
{
    if n == 0 || n > links.len() {
        Seq::empty()
    } else {
        let before = withdrawn(m, links, tree, pid, (n - 1) as nat);
        let woken = withdraw_wakes(m, links, tree, pid, (n - 1) as nat);
        let t = links[n - 1].ticket;
        if tree.above(pid, links[n - 1].process as int) && before.knows(t) {
            woken + before.resources[before.place_of(t)].cancel_wakes(t)
        } else {
            woken
        }
    }
}

/// Those of the first `n` links whose process is neither `pid` nor below
/// it.
pub open spec fn spared(links: Seq<AcquireLink>, tree: TreeModel, pid: int, n: nat) -> Seq<AcquireLink>
    decreases n,
{
    if n == 0 || n > links.len() {
        Seq::empty()
    } else {
        let before = spared(links, tree, pid, (n - 1) as nat);
        if tree.above(pid, links[n - 1].process as int) {
            before
        } else {
            before.push(links[n - 1])
        }
    }
}

/// What ties the acquisitions to the resources: every link is that of an
/// acquisition of the tree and of a ticket that was handed out, no two
/// links have the same ticket or the same process, and the ticket of an
/// acquisition that has succeeded holds its amount until its release path
/// runs.
pub open spec fn linked(links: Seq<AcquireLink>, tree: TreeModel, m: ManagerModel) -> bool {
    &&& forall|k: int|
        0 <= k < links.len() ==> (#[trigger] links[k]).ticket < m.next && links[k].process
            < tree.nodes.len() && tree.nodes[links[k].process as int].kind == ProcessKind::Acquire
    &&& forall|j: int, k: int|
        0 <= j < k < links.len() ==> (#[trigger] links[j]).ticket != (#[trigger] links[k]).ticket
            && links[j].process != links[k].process
    &&& forall|k: int|
        0 <= k < links.len() && tree.nodes[(#[trigger] links[k]).process as int].status
            == ProcessStatus::Success ==> m.holds(links[k].ticket)
}

/// Tells whether `i` is the first link of the process `pid`.
pub open spec fn first_link(links: Seq<AcquireLink>, pid: ActingProcessId, i: int) -> bool {
    &&& 0 <= i < links.len()
    &&& links[i].process == pid
    &&& forall|j: int| 0 <= j < i ==> links[j].process != pid
}

impl Acquisitions {
    /// No acquisition.
    pub fn new() -> (a: Self)
        ensures
            a@ == Seq::<AcquireLink>::empty(),
    {
        Acquisitions { links: Vec::new() }
    }

    /// The number of acquisitions that have not given back their ticket.
    pub fn len(&self) -> (n: usize)
        ensures
            n == self@.len(),
    {
        self.links.len()
    }

    /// The ticket of the first acquisition made for the process `pid`, if
    /// one has not been given back.
    pub fn ticket_of(&self, pid: ActingProcessId) -> (r: Option<Ticket>)
        ensures
            r is Some <==> exists|i: int| first_link(self@, pid, i),
            r matches Some(t) ==> exists|i: int| first_link(self@, pid, i) && self@[i].ticket == t,
    {
        let mut i: usize = 0;
        while i < self.links.len()
            invariant
                i <= self.links.len(),
                forall|j: int| 0 <= j < i ==> self@[j].process != pid,
            decreases self.links.len() - i,
        {
            if self.links[i].process == pid {
                assert(first_link(self@, pid, i as int));
                return Some(self.links[i].ticket);
            }
            i += 1;
        }
        assert forall|k: int| !first_link(self@, pid, k) by {}
        None
    }
}

/// Starts an acquisition under `parent`: creates and starts its process,
/// and asks the resources for `amount` units of `label` at the given
/// priority. A request that is granted at once ends the process in success,
/// and the ticket holds its amount; a request that has to wait leaves the
/// process running. Either way the ticket is linked to the process. A
/// request that the resources refuse makes the process fail.
pub fn begin_acquire(
    tree: &mut ActingTree,
    resources: &mut ResourceManager,
    links: &mut Acquisitions,
    parent: ActingProcessId,
    label: &str,
    amount: usize,
    priority: usize,
    now: u64,
) -> (r: Result<(ActingProcessId, Acquisition), AcquireError>)
    requires
        old(tree).wf(),
        old(resources)@.wf(),
    ensures
        final(tree).wf(),
        final(resources)@.wf(),
        linked(old(links)@, old(tree)@, old(resources)@) ==> linked(
            final(links)@,
            final(tree)@,
            final(resources)@,
        ),
        start_refused(old(tree)@, parent as int, ProcessKind::Acquire) ==> {
            &&& r matches Err(AcquireError::Tree(_))
            &&& final(tree)@ == old(tree)@
            &&& final(resources)@ == old(resources)@
            &&& final(links)@ == old(links)@
        },
        !start_refused(old(tree)@, parent as int, ProcessKind::Acquire) ==> ({
            let node = old(tree)@.nodes.len();
            let ticket = old(resources)@.next as Ticket;
            let running = started(
                old(tree)@,
                parent as int,
                ProcessKind::Acquire,
                label@,
                seq![Sexp::Number(LNumber::Usize(amount))],
                now,
            );
            match old(resources)@.acquire_error(label@, amount) {
                Some(e) => {
                    &&& r == Err::<(ActingProcessId, Acquisition), AcquireError>(
                        AcquireError::Resource(e),
                    )
                    &&& final(tree)@ == running.advance(
                        node as int,
                        ProcessStatus::Failure,
                        running.instant(now),
                    )
                    &&& final(resources)@ == old(resources)@
                    &&& final(links)@ == old(links)@
                },
                None => {
                    &&& final(resources)@ == old(resources)@.acquire(label@, amount, priority)
                    &&& final(links)@ == old(links)@.push(
                        AcquireLink { process: node as usize, ticket },
                    )
                    &&& if old(resources)@.resource(label@).grants(amount, priority) {
                        &&& r == Ok::<(ActingProcessId, Acquisition), AcquireError>(
                            (node as usize, Acquisition::Granted(ticket)),
                        )
                        &&& final(tree)@ == running.advance(
                            node as int,
                            ProcessStatus::Success,
                            running.instant(now),
                        )
                        &&& final(tree)@.nodes[node as int].status == ProcessStatus::Success
                        &&& final(resources)@.holds(ticket)
                    } else {
                        &&& r == Ok::<(ActingProcessId, Acquisition), AcquireError>(
                            (node as usize, Acquisition::Waiting(ticket)),
                        )
                        &&& final(tree)@ == running
                    }
                },
            }
        }),
{
    proof {
        tree.lemma_wf();
    }
    let started_parent = match tree.interval(parent) {
        Some((start, _)) => start.is_some(),
        None => true,
    };
    if !started_parent {
        return Err(AcquireError::Tree(TreeError::ParentNotStarted));
    }
    let ghost before = tree@;
    let node = match tree.new_acquire(parent, label, amount) {
        Ok(id) => id,
        Err(e) => { return Err(AcquireError::Tree(e)); },
    };
    proof {
        tree.lemma_wf();
        let spawned = tree@;
        assert(spawned.nodes[node as int].parent == Some(parent as nat));
        assert(spawned.nodes[parent as int].start == before.nodes[parent as int].start);
        assert(spawned.advance_error(node as int, ProcessStatus::Running) is None);
    }
    match tree.set_status(node, ProcessStatus::Running, now) {
        Ok(()) => {},
        Err(e) => { return Err(AcquireError::Tree(e)); },
    }
    proof {
        tree.lemma_wf();
    }
    let ghost running = tree@;
    let ghost m0 = resources@;
    let ghost l0 = links@;
    assert(before.nodes[parent as int].kind != ProcessKind::Task);
    assert forall|p: int| 0 <= p < before.nodes.len() implies #[trigger] running.nodes[p].status
        == before.nodes[p].status by {}
    match resources.acquire(label, amount, priority) {
        Err(e) => {
            proof {
                assert(running.advance_error(node as int, ProcessStatus::Failure) is None);
            }
            match tree.set_status(node, ProcessStatus::Failure, now) {
                Ok(()) => {},
                Err(_) => {},
            }
            proof {
                assert forall|p: int| 0 <= p < before.nodes.len() implies #[trigger] tree@.nodes[p].status
                    == before.nodes[p].status by {}
            }
            Err(AcquireError::Resource(e))
        },
        Ok(Acquisition::Granted(t)) => {
            proof {
                assert(running.advance_error(node as int, ProcessStatus::Success) is None);
                lemma_granted_holds(m0, label@, amount, priority);
            }
            match tree.set_status(node, ProcessStatus::Success, now) {
                Ok(()) => {},
                Err(_) => {},
            }
            proof {
                tree.lemma_wf();
            }
            links.links.push(AcquireLink { process: node, ticket: t });
            proof {
                assert forall|p: int| 0 <= p < before.nodes.len() implies #[trigger] tree@.nodes[p].status
                    == before.nodes[p].status by {}
                if linked(l0, before, m0) {
                    assert forall|k: int|
                        0 <= k < links@.len() && tree@.nodes[(
                        #[trigger] links@[k]).process as int].status
                            == ProcessStatus::Success implies resources@.holds(links@[k].ticket) by {
                        if k < l0.len() {
                            assert(links@[k] == l0[k]);
                            assert(l0[k].process < before.nodes.len());
                            assert(m0.holds(l0[k].ticket));
                            crate::resource_manager::lemma_acquire_holds(
                                m0,
                                label@,
                                amount,
                                priority,
                                l0[k].ticket,
                            );
                        }
                    }
                    assert forall|k: int| 0 <= k < links@.len() implies (
                    #[trigger] links@[k]).ticket < resources@.next && links@[k].process
                        < tree@.nodes.len() && tree@.nodes[links@[k].process as int].kind
                        == ProcessKind::Acquire by {
                        if k < l0.len() {
                            assert(links@[k] == l0[k]);
                            assert(tree@.nodes[l0[k].process as int].kind
                                == before.nodes[l0[k].process as int].kind);
                        }
                    }
                }
            }
            Ok((node, Acquisition::Granted(t)))
        },
        Ok(Acquisition::Waiting(t)) => {
            links.links.push(AcquireLink { process: node, ticket: t });
            proof {
                if linked(l0, before, m0) {
                    assert forall|k: int|
                        0 <= k < links@.len() && tree@.nodes[(
                        #[trigger] links@[k]).process as int].status
                            == ProcessStatus::Success implies resources@.holds(links@[k].ticket) by {
                        if k < l0.len() {
                            assert(links@[k] == l0[k]);
                            assert(l0[k].process < before.nodes.len());
                            assert(m0.holds(l0[k].ticket));
                            crate::resource_manager::lemma_acquire_holds(
                                m0,
                                label@,
                                amount,
                                priority,
                                l0[k].ticket,
                            );
                        }
                    }
                    assert forall|k: int| 0 <= k < links@.len() implies (
                    #[trigger] links@[k]).ticket < resources@.next && links@[k].process
                        < tree@.nodes.len() && tree@.nodes[links@[k].process as int].kind
                        == ProcessKind::Acquire by {
                        if k < l0.len() {
                            assert(links@[k] == l0[k]);
                            assert(tree@.nodes[l0[k].process as int].kind
                                == before.nodes[l0[k].process as int].kind);
                        }
                    }
                }
            }
            Ok((node, Acquisition::Waiting(t)))
        },
    }
}

/// Runs the release path of the acquisition `pid`: gives back what its
/// ticket holds, or takes it out of the queue where it still waits, and
/// forgets the link. Returns the tickets that were granted in consequence.
/// An acquisition that has no link changes nothing.
pub fn release_acquire(
    tree: &ActingTree,
    resources: &mut ResourceManager,
    links: &mut Acquisitions,
    pid: ActingProcessId,
) -> (woken: Vec<Ticket>)
    requires
        old(resources)@.wf(),
    ensures
        final(resources)@.wf(),
        linked(old(links)@, tree@, old(resources)@) ==> linked(
            final(links)@,
            tree@,
            final(resources)@,
        ),
        (exists|i: int| first_link(old(links)@, pid, i)) ==> ({
            let i = choose|i: int| first_link(old(links)@, pid, i);
            let t = old(links)@[i].ticket;
            &&& final(resources)@ == old(resources)@.cancel(t)
            &&& !final(resources)@.knows(t)
            &&& final(links)@ == old(links)@.remove(i)
            &&& old(resources)@.knows(t) ==> woken@ == old(resources)@.resources[old(
                resources,
            )@.place_of(t)].cancel_wakes(t)
            &&& !old(resources)@.knows(t) ==> woken@.len() == 0
        }),
        !(exists|i: int| first_link(old(links)@, pid, i)) ==> final(resources)@ == old(
            resources,
        )@ && final(links)@ == old(links)@ && woken@.len() == 0,
{
    let mut i: usize = 0;
    while i < links.links.len()
        invariant
            i <= links.links.len(),
            *links == *old(links),
            *resources == *old(resources),
            resources@.wf(),
            forall|j: int| 0 <= j < i ==> links@[j].process != pid,
        decreases links.links.len() - i,
    {
        if links.links[i].process == pid {
            proof {
                let at = choose|k: int| first_link(links@, pid, k);
                assert(first_link(links@, pid, i as int));
                if at < i {
                    assert(links@[at].process != pid);
                } else if i < at {
                    assert(links@[i as int].process != pid);
                }
            }
            let ghost l0 = links@;
            let ghost m0 = resources@;
            let link = links.links.remove(i);
            let woken = match resources.cancel(link.ticket) {
                Ok(w) => w,
                Err(_) => Vec::new(),
            };
            proof {
                if linked(l0, tree@, m0) {
                    assert forall|k: int| 0 <= k < links@.len() implies ({
                        &&& (#[trigger] links@[k]).ticket < resources@.next
                        &&& links@[k].process < tree@.nodes.len()
                        &&& tree@.nodes[links@[k].process as int].kind == ProcessKind::Acquire
                        &&& links@[k].ticket != link.ticket
                        &&& tree@.nodes[links@[k].process as int].status == ProcessStatus::Success
                            ==> resources@.holds(links@[k].ticket)
                    }) by {
                        let o = if k < i {
                            k
                        } else {
                            k + 1
                        };
                        assert(links@[k] == l0[o]);
                        assert(l0[o].ticket != l0[i as int].ticket);
                        if tree@.nodes[l0[o].process as int].status == ProcessStatus::Success {
                            assert(m0.holds(l0[o].ticket));
                            crate::resource_manager::lemma_cancel_holds(
                                m0,
                                link.ticket,
                                l0[o].ticket,
                            );
                        }
                    }
                    assert forall|j: int, k: int| 0 <= j < k < links@.len() implies (
                    #[trigger] links@[j]).ticket != (#[trigger] links@[k]).ticket
                        && links@[j].process != links@[k].process by {
                        let a = if j < i {
                            j
                        } else {
                            j + 1
                        };
                        let b = if k < i {
                            k
                        } else {
                            k + 1
                        };
                        assert(links@[j] == l0[a] && links@[k] == l0[b]);
                    }
                }
            }
            return woken;
        }
        i += 1;
    }
    assert forall|k: int| !first_link(links@, pid, k) by {}
    Vec::new()
}

/// Cancels the process `pid` and all that lies below it, and runs the
/// release path of every acquisition among them: a ticket that waits leaves
/// its queue, a ticket that holds gives back what it holds. Returns the
/// tickets that were granted in consequence, withdrawal by withdrawal. The
/// links of the acquisitions that were cancelled are forgotten. A
/// cancellation that the tree refuses changes nothing.
pub fn cancel_subtree(
    tree: &mut ActingTree,
    resources: &mut ResourceManager,
    links: &mut Acquisitions,
    pid: ActingProcessId,
    now: u64,
) -> (r: Result<Vec<Ticket>, TreeError>)
    requires
        old(tree).wf(),
        old(resources)@.wf(),
    ensures
        final(tree).wf(),
        final(resources)@.wf(),
        r is Err <==> old(tree)@.cancel_error(pid as int) is Some,
        r matches Err(e) ==> {
            &&& Some(e) == old(tree)@.cancel_error(pid as int)
            &&& final(tree)@ == old(tree)@
            &&& final(resources)@ == old(resources)@
            &&& final(links)@ == old(links)@
        },
        linked(old(links)@, old(tree)@, old(resources)@) ==> linked(
            final(links)@,
            final(tree)@,
            final(resources)@,
        ),
        r matches Ok(woken) ==> {
            &&& final(tree)@ == old(tree)@.cancel(pid as int, old(tree)@.instant(now))
            &&& final(resources)@ == withdrawn(
                old(resources)@,
                old(links)@,
                old(tree)@,
                pid as int,
                old(links)@.len(),
            )
            &&& woken@ == withdraw_wakes(
                old(resources)@,
                old(links)@,
                old(tree)@,
                pid as int,
                old(links)@.len(),
            )
            &&& final(links)@ == spared(old(links)@, old(tree)@, pid as int, old(links)@.len())
        },
{
    let ghost t0 = tree@;
    let ghost m0 = resources@;
    let ghost l0 = links@;
    let marks = tree.below(pid);
    match tree.cancel(pid, now) {
        Ok(()) => {},
        Err(e) => { return Err(e); },
    }
    let mut woken: Vec<Ticket> = Vec::new();
    let mut kept: Vec<AcquireLink> = Vec::new();
    let n = links.links.len();
    let mut i: usize = 0;
    while i < n
        invariant
            i <= n,
            n == l0.len(),
            links@ == l0,
            marks@.len() == t0.nodes.len(),
            forall|k: int| 0 <= k < marks@.len() ==> marks@[k] == t0.above(pid as int, k),
            resources@.wf(),
            resources@ == withdrawn(m0, l0, t0, pid as int, i as nat),
            woken@ == withdraw_wakes(m0, l0, t0, pid as int, i as nat),
            kept@ == spared(l0, t0, pid as int, i as nat),
            resources@.next == m0.next,
            forall|a: int|
                0 <= a < kept@.len() ==> exists|k: int|
                    0 <= k < i && #[trigger] kept@[a] == l0[k] && !t0.above(
                        pid as int,
                        l0[k].process as int,
                    ),
            forall|a: int, b: int|
                0 <= a < b < kept@.len() && linked(l0, t0, m0) ==> (#[trigger] kept@[a]).ticket != (
                #[trigger] kept@[b]).ticket && kept@[a].process != kept@[b].process,
            forall|k: int|
                0 <= k < l0.len() && linked(l0, t0, m0) && (k >= i || !t0.above(
                    pid as int,
                    (#[trigger] l0[k]).process as int,
                )) && t0.nodes[l0[k].process as int].status == ProcessStatus::Success
                    ==> resources@.holds(l0[k].ticket),
        decreases n - i,
    {
        let link = links.links[i];
        let below = link.process < marks.len() && marks[link.process];
        let ghost then = resources@;
        let ghost kept0 = kept@;
        proof {
            if link.process >= marks.len() {
                assert(!t0.above(pid as int, link.process as int));
            }
        }
        if below {
            match resources.cancel(link.ticket) {
                Ok(mut more) => {
                    woken.append(&mut more);
                },
                Err(_) => {},
            }
            proof {
                assert forall|k: int|
                    0 <= k < l0.len() && linked(l0, t0, m0) && (k >= i + 1 || !t0.above(
                        pid as int,
                        (#[trigger] l0[k]).process as int,
                    )) && t0.nodes[l0[k].process as int].status
                        == ProcessStatus::Success implies resources@.holds(l0[k].ticket) by {
                    assert(k != i);
                    if k < i {
                        assert(l0[k].ticket != l0[i as int].ticket);
                    } else {
                        assert(l0[i as int].ticket != l0[k].ticket);
                    }
                    assert(then.holds(l0[k].ticket));
                    crate::resource_manager::lemma_cancel_holds(then, link.ticket, l0[k].ticket);
                }
            }
        } else {
            kept.push(link);
            proof {
                assert forall|a: int| 0 <= a < kept@.len() implies exists|k: int|
                    0 <= k < i + 1 && #[trigger] kept@[a] == l0[k] && !t0.above(
                        pid as int,
                        l0[k].process as int,
                    ) by {
                    if a < kept0.len() {
                        assert(kept@[a] == kept0[a]);
                        let k = choose|k: int|
                            0 <= k < i && kept0[a] == l0[k] && !t0.above(
                                pid as int,
                                l0[k].process as int,
                            );
                        assert(kept@[a] == l0[k]);
                    } else {
                        assert(kept@[a] == l0[i as int]);
                    }
                }
                assert forall|a: int, b: int|
                    0 <= a < b < kept@.len() && linked(l0, t0, m0) implies (
                #[trigger] kept@[a]).ticket != (#[trigger] kept@[b]).ticket && kept@[a].process
                    != kept@[b].process by {
                    if b < kept0.len() {
                        assert(kept0[a].ticket != kept0[b].ticket);
                    } else {
                        let k = choose|k: int|
                            0 <= k < i && kept0[a] == l0[k] && !t0.above(
                                pid as int,
                                l0[k].process as int,
                            );
                        assert(l0[k].ticket != l0[i as int].ticket);
                    }
                }
            }
        }
        i += 1;
    }
    links.links = kept;
    proof {
        if linked(l0, t0, m0) {
            assert forall|a: int| 0 <= a < links@.len() implies ({
                &&& (#[trigger] links@[a]).ticket < resources@.next
                &&& links@[a].process < tree@.nodes.len()
                &&& tree@.nodes[links@[a].process as int].kind == ProcessKind::Acquire
                &&& tree@.nodes[links@[a].process as int].status == ProcessStatus::Success
                    ==> resources@.holds(links@[a].ticket)
            }) by {
                let k = choose|k: int|
                    0 <= k < n && links@[a] == l0[k] && !t0.above(pid as int, l0[k].process as int);
                assert(l0[k].process < t0.nodes.len());
                assert(tree@.nodes[l0[k].process as int] == t0.nodes[l0[k].process as int]);
            }
        }
    }
    Ok(woken)
}

/// Tells whether `i` is the first link of the ticket `t`.
pub open spec fn first_of_ticket(links: Seq<AcquireLink>, t: Ticket, i: int) -> bool {
    &&& 0 <= i < links.len()
    &&& links[i].ticket == t
    &&& forall|j: int| 0 <= j < i ==> links[j].ticket != t
}

/// Takes note that the ticket `t` was granted: the acquisition that waited
/// under it has succeeded. A ticket without link is refused as of an unknown
/// process, and so is whatever the tree refuses; nothing changes then.
pub fn on_granted(
    tree: &mut ActingTree,
    resources: &ResourceManager,
    links: &Acquisitions,
    t: Ticket,
    now: u64,
) -> (r: Result<ActingProcessId, TreeError>)
    requires
        old(tree).wf(),
    ensures
        final(tree).wf(),
        linked(links@, old(tree)@, resources@) && resources@.holds(t) ==> linked(
            links@,
            final(tree)@,
            resources@,
        ),
        !(exists|i: int| first_of_ticket(links@, t, i)) ==> r == Err::<ActingProcessId, TreeError>(
            TreeError::UnknownProcess,
        ) && final(tree)@ == old(tree)@,
        (exists|i: int| first_of_ticket(links@, t, i)) ==> ({
            let i = choose|i: int| first_of_ticket(links@, t, i);
            let p = links@[i].process;
            match old(tree)@.advance_error(p as int, ProcessStatus::Success) {
                Some(e) => r == Err::<ActingProcessId, TreeError>(e) && final(tree)@ == old(tree)@,
                None => r == Ok::<ActingProcessId, TreeError>(p) && final(tree)@ == old(
                    tree,
                )@.advance(p as int, ProcessStatus::Success, old(tree)@.instant(now)),
            }
        }),
{
    let mut i: usize = 0;
    while i < links.links.len()
        invariant
            i <= links.links.len(),
            *tree == *old(tree),
            tree.wf(),
            forall|j: int| 0 <= j < i ==> links@[j].ticket != t,
        decreases links.links.len() - i,
    {
        if links.links[i].ticket == t {
            proof {
                let at = choose|k: int| first_of_ticket(links@, t, k);
                assert(first_of_ticket(links@, t, i as int));
                if at < i {
                    assert(links@[at].ticket != t);
                } else if i < at {
                    assert(links@[i as int].ticket != t);
                }
            }
            let p = links.links[i].process;
            let ghost t0 = tree@;
            let outcome = tree.set_status(p, ProcessStatus::Success, now);
            proof {
                tree.lemma_wf();
                old(tree).lemma_wf();
                if outcome is Ok && linked(links@, t0, resources@) && resources@.holds(t) {
                    assert(t0.nodes[p as int].kind == ProcessKind::Acquire);
                    if p >= 1 {
                        let q = t0.nodes[p as int].parent->0 as int;
                        assert(t0.child_of(p as int, q));
                        assert(crate::acting_tree::kinds_fit(
                            t0.nodes[p as int].kind,
                            t0.nodes[q].kind,
                        ));
                    }
                    assert(!t0.under_task(p as int));
                    assert forall|k: int| 0 <= k < links@.len() implies ({
                        &&& (#[trigger] links@[k]).process < tree@.nodes.len()
                        &&& tree@.nodes[links@[k].process as int].kind == ProcessKind::Acquire
                        &&& tree@.nodes[links@[k].process as int].status == ProcessStatus::Success
                            ==> resources@.holds(links@[k].ticket)
                    }) by {
                        if links@[k].process != p {
                            assert(tree@.nodes[links@[k].process as int]
                                == t0.nodes[links@[k].process as int]);
                        } else if k != i {
                            if tree@.nodes[p as int].status == ProcessStatus::Success {
                                assert(t0.nodes[p as int].status != ProcessStatus::Success);
                            }
                        }
                    }
                }
            }
            return match outcome {
                Ok(()) => Ok(p),
                Err(e) => Err(e),
            };
        }
        i += 1;
    }
    assert forall|k: int| !first_of_ticket(links@, t, k) by {}
    Err(TreeError::UnknownProcess)
}

} // verus!
