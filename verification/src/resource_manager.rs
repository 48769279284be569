//! The resources of an engine, found by their labels, and the tickets of
//! their requests.
use crate::resource::{
    holds_ticket, lemma_acquire_tickets, lemma_cancel_tickets, lemma_release_tickets,
    lemma_tickets, waits_ticket, Acquisition, Resource, ResourceError, ResourceModel, Ticket,
};
use vstd::prelude::*;

verus! {

/// The state of all resources, as contracts see it.
pub struct ManagerModel {
    /// The resources, in the order of their declaration.
    pub resources: Seq<ResourceModel>,
    /// The next ticket to hand out.
    pub next: nat,
}

/// Tells whether `i` is the place of the resource labelled `label`.
pub open spec fn labelled(s: Seq<ResourceModel>, label: Seq<char>, i: int) -> bool {
    0 <= i < s.len() && s[i].label == label
}

/// Tells whether `t` holds or waits in the resource `r`.
pub open spec fn known_in(r: ResourceModel, t: Ticket) -> bool {
    holds_ticket(r.holders, t) || waits_ticket(r.waiters, t)
}

/// Tells whether `i` is the first resource in which `t` holds or waits.
pub open spec fn first_known(s: Seq<ResourceModel>, t: Ticket, i: int) -> bool {
    &&& 0 <= i < s.len()
    &&& known_in(s[i], t)
    &&& forall|j: int| 0 <= j < i ==> !known_in(#[trigger] s[j], t)
}

/// Tells whether `i` is the first resource in which `t` holds something.
pub open spec fn first_holder(s: Seq<ResourceModel>, t: Ticket, i: int) -> bool {
    &&& 0 <= i < s.len()
    &&& holds_ticket(s[i].holders, t)
    &&& forall|j: int| 0 <= j < i ==> !holds_ticket(#[trigger] s[j].holders, t)
}

impl ManagerModel {
    /// Every resource is well formed and no label is declared twice. Every
    /// ticket that holds or waits was handed out, and stands for one request:
    /// it occurs once, in one resource.
    pub open spec fn wf(self) -> bool {
        &&& forall|i: int| 0 <= i < self.resources.len() ==> (#[trigger] self.resources[i]).wf()
        &&& forall|i: int, j: int|
            0 <= i < j < self.resources.len() ==> (#[trigger] self.resources[i]).label != (
            #[trigger] self.resources[j]).label
        &&& self.next <= u64::MAX
        &&& self.ticketed()
    }

    /// Every ticket of a hold or of a waiter lies below the next ticket, no
    /// ticket occurs twice in a resource, and none occurs in two resources.
    pub open spec fn ticketed(self) -> bool {
        &&& forall|i: int|
            0 <= i < self.resources.len() ==> (#[trigger] self.resources[i]).once()
                && self.resources[i].below(self.next)
        &&& forall|i: int, j: int, t: Ticket|
            0 <= i < self.resources.len() && 0 <= j < self.resources.len() && i != j
                && #[trigger] self.resources[i].tickets().contains(t)
                ==> !#[trigger] self.resources[j].tickets().contains(t)
    }

    /// Tells whether a resource is declared under `label`.
    pub open spec fn declared(self, label: Seq<char>) -> bool {
        exists|i: int| labelled(self.resources, label, i)
    }

    /// The place of the resource labelled `label`, where it is declared.
    pub open spec fn index_of(self, label: Seq<char>) -> int {
        choose|i: int| labelled(self.resources, label, i)
    }

    /// The resource labelled `label`, where it is declared.
    pub open spec fn resource(self, label: Seq<char>) -> ResourceModel {
        self.resources[self.index_of(label)]
    }

    /// Tells whether `t` holds something in some resource.
    pub open spec fn holds(self, t: Ticket) -> bool {
        exists|i: int| first_holder(self.resources, t, i)
    }

    /// The first resource in which `t` holds something.
    pub open spec fn holder_of(self, t: Ticket) -> int {
        choose|i: int| first_holder(self.resources, t, i)
    }

    /// Tells whether `t` holds or waits in some resource.
    pub open spec fn knows(self, t: Ticket) -> bool {
        exists|i: int| first_known(self.resources, t, i)
    }

    /// The first resource in which `t` holds or waits.
    pub open spec fn place_of(self, t: Ticket) -> int {
        choose|i: int| first_known(self.resources, t, i)
    }

    /// Why a declaration is refused, if it is.
    pub open spec fn declare_error(self, label: Seq<char>, capacity: usize) -> Option<
        ResourceError,
    > {
        if self.declared(label) {
            if self.resource(label).total == capacity {
                None
            } else {
                Some(ResourceError::CapacityMismatch)
            }
        } else if capacity == 0 {
            Some(ResourceError::ZeroCapacity)
        } else {
            None
        }
    }

    /// The resources once `label` has been declared with `capacity`: a new
    /// label gets a resource that nobody holds, a known label changes nothing.
    pub open spec fn declare(self, label: Seq<char>, capacity: usize) -> ManagerModel {
        if self.declared(label) || capacity == 0 {
            self
        } else {
            ManagerModel {
                resources: self.resources.push(
                    ResourceModel {
                        label,
                        total: capacity as nat,
                        free: capacity as nat,
                        holders: Seq::empty(),
                        waiters: Seq::empty(),
                    },
                ),
                ..self
            }
        }
    }

    /// Why a request is refused, if it is.
    pub open spec fn acquire_error(self, label: Seq<char>, amount: usize) -> Option<ResourceError> {
        if !self.declared(label) {
            Some(ResourceError::Undeclared)
        } else if amount > self.resource(label).total {
            Some(ResourceError::ExceedsCapacity)
        } else if self.next >= u64::MAX {
            Some(ResourceError::TicketsExhausted)
        } else {
            None
        }
    }

    /// The resources once a request that is not refused has entered under
    /// the next ticket.
    pub open spec fn acquire(self, label: Seq<char>, amount: usize, priority: usize) -> ManagerModel {
        if self.acquire_error(label, amount) is Some {
            self
        } else {
            ManagerModel {
                resources: self.resources.update(
                    self.index_of(label),
                    self.resource(label).acquire(self.next as Ticket, amount, priority),
                ),
                next: self.next + 1,
            }
        }
    }

    /// The resources once `t` has released its first hold.
    pub open spec fn release(self, t: Ticket) -> ManagerModel {
        if self.holds(t) {
            ManagerModel {
                resources: self.resources.update(
                    self.holder_of(t),
                    self.resources[self.holder_of(t)].release(t),
                ),
                ..self
            }
        } else {
            self
        }
    }

    /// The resources once `t` has been withdrawn from the first resource that
    /// knows it.
    pub open spec fn cancel(self, t: Ticket) -> ManagerModel {
        if self.knows(t) {
            ManagerModel {
                resources: self.resources.update(
                    self.place_of(t),
                    self.resources[self.place_of(t)].cancel(t),
                ),
                ..self
            }
        } else {
            self
        }
    }
}

/// A label names one resource at most.
pub proof fn lemma_index_of(m: ManagerModel, label: Seq<char>, i: int)
    requires
        m.wf(),
        labelled(m.resources, label, i),
    ensures
        m.declared(label),
        m.index_of(label) == i,
{
    let j = m.index_of(label);
    assert(labelled(m.resources, label, j));
    if i < j {
        assert(m.resources[i].label != m.resources[j].label);
    } else if j < i {
        assert(m.resources[j].label != m.resources[i].label);
    }
}

/// There is one first holder at most.
pub proof fn lemma_holder_of(m: ManagerModel, t: Ticket, i: int)
    requires
        first_holder(m.resources, t, i),
    ensures
        m.holds(t),
        m.holder_of(t) == i,
{
    let j = m.holder_of(t);
    assert(first_holder(m.resources, t, j));
    if i < j {
        assert(!holds_ticket(m.resources[i].holders, t));
    } else if j < i {
        assert(!holds_ticket(m.resources[j].holders, t));
    }
}

/// There is one first place at most.
pub proof fn lemma_place_of(m: ManagerModel, t: Ticket, i: int)
    requires
        first_known(m.resources, t, i),
    ensures
        m.knows(t),
        m.place_of(t) == i,
{
    let j = m.place_of(t);
    assert(first_known(m.resources, t, j));
    if i < j {
        assert(!known_in(m.resources[i], t));
    } else if j < i {
        assert(!known_in(m.resources[j], t));
    }
}

/// The resources of an engine.
pub struct ResourceManager {
    resources: Vec<Resource>,
    next: Ticket,
}

/// The models of a sequence of resources.
pub open spec fn resource_models(s: Seq<Resource>) -> Seq<ResourceModel> {
    Seq::new(s.len(), |i: int| s[i]@)
}

impl View for ResourceManager {
    type V = ManagerModel;

    closed spec fn view(&self) -> ManagerModel {
        ManagerModel { resources: resource_models(self.resources@), next: self.next as nat }
    }
}

impl ResourceManager {
    /// No resource, and the first ticket to hand out is 0.
    pub fn new() -> (m: Self)
        ensures
            m@.wf(),
            m@ == (ManagerModel { resources: Seq::empty(), next: 0 }),
    {
        let m = ResourceManager { resources: Vec::new(), next: 0 };
        assert(m@.resources =~= Seq::empty());
        m
    }

    /// The place of the resource labelled `label`, if it is declared.
    pub fn find(&self, label: &str) -> (r: Option<usize>)
        requires
            self@.wf(),
        ensures
            r is Some <==> self@.declared(label@),
            r matches Some(i) ==> labelled(self@.resources, label@, i as int) && i
                == self@.index_of(label@),
    {
        let key = String::from_str(label);
        let mut i: usize = 0;
        while i < self.resources.len()
            invariant
                i <= self.resources.len(),
                key@ == label@,
                self@.wf(),
                forall|j: int| 0 <= j < i ==> self@.resources[j].label != label@,
            decreases self.resources.len() - i,
        {
            if *self.resources[i].get_label() == key {
                proof {
                    assert(self@.resources[i as int] == self.resources@[i as int]@);
                    lemma_index_of(self@, label@, i as int);
                }
                return Some(i);
            }
            assert(self@.resources[i as int] == self.resources@[i as int]@);
            i += 1;
        }
        None
    }

    /// Declares a resource. Declaring a label again with the same capacity
    /// changes nothing; with another capacity it is refused, and so is a
    /// capacity of zero.
    pub fn declare(&mut self, label: &str, capacity: usize) -> (r: Result<(), ResourceError>)
        requires
            old(self)@.wf(),
        ensures
            final(self)@.wf(),
            r is Err <==> old(self)@.declare_error(label@, capacity) is Some,
            r matches Err(e) ==> Some(e) == old(self)@.declare_error(label@, capacity) && final(self)@ == old(self)@,
            r is Ok ==> final(self)@ == old(self)@.declare(label@, capacity),
    {
        match self.find(label) {
            Some(i) => {
                assert(self@.resources[i as int] == self.resources@[i as int]@);
                if self.resources[i].capacity() == capacity {
                    Ok(())
                } else {
                    Err(ResourceError::CapacityMismatch)
                }
            },
            None => {
                if capacity == 0 {
                    return Err(ResourceError::ZeroCapacity);
                }
                let r = Resource::new(label, capacity);
                let ghost before = self@;
                self.resources.push(r);
                proof {
                    assert(self@.resources =~= before.resources.push(r@));
                    assert forall|i: int, j: int| 0 <= i < j < self@.resources.len() implies (
                    #[trigger] self@.resources[i]).label != (#[trigger] self@.resources[j]).label by {
                        if j == before.resources.len() {
                            assert(!labelled(before.resources, label@, i));
                        } else {
                            assert(before.resources[i].label != before.resources[j].label);
                        }
                    }
                    assert(r@.tickets() =~= Seq::<Ticket>::empty());
                    assert forall|i: int| 0 <= i < self@.resources.len() implies (
                    #[trigger] self@.resources[i]).once() && self@.resources[i].below(
                        self@.next,
                    ) by {
                        if i < before.resources.len() {
                            assert(before.resources[i].once());
                        }
                    }
                    assert forall|i: int, j: int, t: Ticket|
                        0 <= i < self@.resources.len() && 0 <= j < self@.resources.len() && i != j
                            && #[trigger] self@.resources[i].tickets().contains(t)
                            implies !#[trigger] self@.resources[j].tickets().contains(t) by {
                        if i < before.resources.len() && j < before.resources.len() {
                            assert(before.resources[i].tickets().contains(t));
                        }
                    }
                }
                Ok(())
            },
        }
    }

    /// Enters a request of `amount` units of the resource `label` at the
    /// given priority, under a new ticket.
    pub fn acquire(&mut self, label: &str, amount: usize, priority: usize) -> (r: Result<
        Acquisition,
        ResourceError,
    >)
        requires
            old(self)@.wf(),
        ensures
            final(self)@.wf(),
            final(self)@ == old(self)@.acquire(label@, amount, priority),
            r is Err <==> old(self)@.acquire_error(label@, amount) is Some,
            r matches Err(e) ==> Some(e) == old(self)@.acquire_error(label@, amount),
            r matches Ok(a) ==> a == (if old(self)@.resource(label@).grants(amount, priority) {
                Acquisition::Granted(old(self)@.next as Ticket)
            } else {
                Acquisition::Waiting(old(self)@.next as Ticket)
            }),
    {
        let i = match self.find(label) {
            Some(i) => i,
            None => { return Err(ResourceError::Undeclared); },
        };
        assert(self@.resources[i as int] == self.resources@[i as int]@);
        if amount > self.resources[i].capacity() {
            return Err(ResourceError::ExceedsCapacity);
        }
        if self.next == u64::MAX {
            return Err(ResourceError::TicketsExhausted);
        }
        let t = self.next;
        let ghost before = self@;
        let mut r = self.resources.remove(i);
        let outcome = r.acquire(t, amount, priority);
        self.resources.insert(i, r);
        self.next = self.next + 1;
        proof {
            assert(self@.resources =~= before.resources.update(i as int, r@));
            lemma_fresh(before, t, i as int);
            lemma_acquire_tickets(before.resources[i as int], t, amount, priority);
            lemma_update_keeps_wf(before, i as int, r@, (t + 1) as nat);
        }
        match outcome {
            Ok(true) => Ok(Acquisition::Granted(t)),
            Ok(false) => Ok(Acquisition::Waiting(t)),
            Err(e) => Err(e),
        }
    }

    /// The first resource in which `t` holds something.
    fn find_holder(&self, t: Ticket) -> (r: Option<usize>)
        ensures
            r is Some <==> self@.holds(t),
            r matches Some(i) ==> first_holder(self@.resources, t, i as int) && i
                == self@.holder_of(t),
    {
        let mut i: usize = 0;
        while i < self.resources.len()
            invariant
                i <= self.resources.len(),
                forall|j: int| 0 <= j < i ==> !holds_ticket(#[trigger] self@.resources[j].holders, t),
            decreases self.resources.len() - i,
        {
            assert(self@.resources[i as int] == self.resources@[i as int]@);
            if self.resources[i].find_hold(t).is_some() {
                proof {
                    lemma_holder_of(self@, t, i as int);
                }
                return Some(i);
            }
            i += 1;
        }
        assert(forall|k: int| !first_holder(self@.resources, t, k));
        None
    }

    /// The first resource in which `t` holds or waits.
    fn find_place(&self, t: Ticket) -> (r: Option<usize>)
        ensures
            r is Some <==> self@.knows(t),
            r matches Some(i) ==> first_known(self@.resources, t, i as int) && i
                == self@.place_of(t),
    {
        let mut i: usize = 0;
        while i < self.resources.len()
            invariant
                i <= self.resources.len(),
                forall|j: int| 0 <= j < i ==> !known_in(#[trigger] self@.resources[j], t),
            decreases self.resources.len() - i,
        {
            assert(self@.resources[i as int] == self.resources@[i as int]@);
            let holds = self.resources[i].find_hold(t).is_some();
            let waits = self.resources[i].find_wait(t).is_some();
            if holds || waits {
                proof {
                    lemma_place_of(self@, t, i as int);
                }
                return Some(i);
            }
            i += 1;
        }
        assert(forall|k: int| !first_known(self@.resources, t, k));
        None
    }

    /// Gives back what the ticket `t` holds. Returns the amount given back
    /// and the tickets that were granted in consequence, in the order of the
    /// queue.
    pub fn release(&mut self, t: Ticket) -> (r: Result<(usize, Vec<Ticket>), ResourceError>)
        requires
            old(self)@.wf(),
        ensures
            final(self)@.wf(),
            final(self)@ == old(self)@.release(t),
            r is Ok <==> old(self)@.holds(t),
            r matches Err(e) ==> e == ResourceError::UnknownTicket,
            r matches Ok((amount, woken)) ==> {
                let res = old(self)@.resources[old(self)@.holder_of(t)];
                amount == res.held_by(t) && woken@ == res.release_wakes(t)
            },
            !final(self)@.holds(t),
            r is Ok ==> !final(self)@.knows(t),
    {
        let i = match self.find_holder(t) {
            Some(i) => i,
            None => { return Err(ResourceError::UnknownTicket); },
        };
        assert(self@.resources[i as int] == self.resources@[i as int]@);
        let ghost before = self@;
        let mut r = self.resources.remove(i);
        let outcome = r.release(t);
        self.resources.insert(i, r);
        proof {
            assert(self@.resources =~= before.resources.update(i as int, r@));
            lemma_release_tickets(before.resources[i as int], t);
            lemma_update_keeps_wf(before, i as int, r@, before.next);
            lemma_tickets(before.resources[i as int], t);
            assert forall|j: int| 0 <= j < self@.resources.len() implies !(
            #[trigger] self@.resources[j]).tickets().contains(t) by {
                if j != i {
                    assert(before.resources[i as int].tickets().contains(t));
                    assert(!before.resources[j].tickets().contains(t));
                }
            }
            lemma_unknown(self@, t);
        }
        outcome
    }

    /// Withdraws the ticket `t`: a request that waits leaves its queue, a
    /// request that was granted releases what it holds. Cancelling a ticket
    /// that is no longer known is refused and changes nothing, so that
    /// cancelling twice does no harm.
    pub fn cancel(&mut self, t: Ticket) -> (r: Result<Vec<Ticket>, ResourceError>)
        requires
            old(self)@.wf(),
        ensures
            final(self)@.wf(),
            final(self)@ == old(self)@.cancel(t),
            r is Ok <==> old(self)@.knows(t),
            r matches Err(e) ==> e == ResourceError::UnknownTicket,
            r matches Ok(woken) ==> woken@ == old(self)@.resources[old(self)@.place_of(
                t,
            )].cancel_wakes(t),
            !final(self)@.knows(t),
    {
        let i = match self.find_place(t) {
            Some(i) => i,
            None => { return Err(ResourceError::UnknownTicket); },
        };
        assert(self@.resources[i as int] == self.resources@[i as int]@);
        let ghost before = self@;
        let mut r = self.resources.remove(i);
        let outcome = r.cancel(t);
        self.resources.insert(i, r);
        proof {
            assert(self@.resources =~= before.resources.update(i as int, r@));
            lemma_tickets(before.resources[i as int], t);
            lemma_cancel_tickets(before.resources[i as int], t);
            lemma_update_keeps_wf(before, i as int, r@, before.next);
            assert forall|j: int| 0 <= j < self@.resources.len() implies !(
            #[trigger] self@.resources[j]).tickets().contains(t) by {
                if j != i {
                    assert(before.resources[i as int].tickets().contains(t));
                    assert(!before.resources[j].tickets().contains(t));
                }
            }
            lemma_unknown(self@, t);
        }
        outcome
    }

    /// Tells whether part of the resource `label` is held.
    pub fn is_locked(&self, label: &str) -> (r: Result<bool, ResourceError>)
        requires
            self@.wf(),
        ensures
            r is Ok <==> self@.declared(label@),
            r matches Err(e) ==> e == ResourceError::Undeclared,
            r matches Ok(b) ==> b == self@.resource(label@).locked(),
    {
        match self.find(label) {
            Some(i) => {
                assert(self@.resources[i as int] == self.resources@[i as int]@);
                Ok(self.resources[i].is_locked())
            },
            None => Err(ResourceError::Undeclared),
        }
    }

    /// The capacity of the resource `label` that nobody holds.
    pub fn free_capacity(&self, label: &str) -> (r: Result<usize, ResourceError>)
        requires
            self@.wf(),
        ensures
            r is Ok <==> self@.declared(label@),
            r matches Err(e) ==> e == ResourceError::Undeclared,
            r matches Ok(c) ==> c == self@.resource(label@).free,
    {
        match self.find(label) {
            Some(i) => {
                assert(self@.resources[i as int] == self.resources@[i as int]@);
                Ok(self.resources[i].free_capacity())
            },
            None => Err(ResourceError::Undeclared),
        }
    }

    /// The labels of the resources, in the order of their declaration.
    pub fn resources(&self) -> (labels: Vec<String>)
        ensures
            labels@.len() == self@.resources.len(),
            forall|i: int| 0 <= i < labels@.len() ==> labels@[i]@ == self@.resources[i].label,
    {
        let mut labels: Vec<String> = Vec::new();
        let mut i: usize = 0;
        while i < self.resources.len()
            invariant
                i <= self.resources.len(),
                labels@.len() == i,
                forall|j: int| 0 <= j < i ==> labels@[j]@ == self@.resources[j].label,
            decreases self.resources.len() - i,
        {
            assert(self@.resources[i as int] == self.resources@[i as int]@);
            labels.push(self.resources[i].get_label().clone());
            i += 1;
        }
        labels
    }
}

/// Replacing a resource by a well-formed one of the same label keeps the
/// whole well formed, where the tickets of the new one are tickets of the old
/// one or tickets that are handed out on this occasion.
pub proof fn lemma_update_keeps_wf(m: ManagerModel, i: int, r: ResourceModel, next: nat)
    requires
        m.wf(),
        0 <= i < m.resources.len(),
        r.wf(),
        r.once(),
        r.label == m.resources[i].label,
        m.next <= next <= u64::MAX,
        forall|x: Ticket|
            #[trigger] r.tickets().contains(x) ==> m.resources[i].tickets().contains(x) || m.next
                <= x < next,
    ensures
        (ManagerModel { resources: m.resources.update(i, r), next }).wf(),
{
    let s = m.resources.update(i, r);
    let n = ManagerModel { resources: s, next };
    assert forall|a: int, b: int| 0 <= a < b < s.len() implies (#[trigger] s[a]).label != (
    #[trigger] s[b]).label by {
        assert(m.resources[a].label != m.resources[b].label);
    }
    assert forall|a: int| 0 <= a < s.len() implies (#[trigger] s[a]).once() && s[a].below(
        next,
    ) by {
        assert(m.resources[a].once() && m.resources[a].below(m.next));
        if a == i {
            assert forall|k: int| 0 <= k < r.tickets().len() implies #[trigger] r.tickets()[k]
                < next by {
                let x = r.tickets()[k];
                assert(r.tickets().contains(x));
                if m.resources[i].tickets().contains(x) {
                    let j = choose|j: int|
                        0 <= j < m.resources[i].tickets().len() && m.resources[i].tickets()[j]
                            == x;
                    assert(m.resources[i].tickets()[j] < m.next);
                }
            }
        } else {
            assert forall|k: int| 0 <= k < s[a].tickets().len() implies #[trigger] s[a].tickets()[k]
                < next by {
                assert(m.resources[a].tickets()[k] < m.next);
            }
        }
    }
    assert forall|a: int, b: int, t: Ticket|
        0 <= a < s.len() && 0 <= b < s.len() && a != b && #[trigger] s[a].tickets().contains(t)
            implies !#[trigger] s[b].tickets().contains(t) by {
        if s[b].tickets().contains(t) {
            let other = if a == i {
                b
            } else {
                a
            };
            if a != i && b != i {
                assert(m.resources[a].tickets().contains(t));
                assert(m.resources[b].tickets().contains(t));
            } else {
                assert(r.tickets().contains(t));
                assert(m.resources[other].tickets().contains(t));
                if m.resources[i].tickets().contains(t) {
                    assert(m.resources[other].tickets().contains(t));
                } else {
                    let j = choose|j: int|
                        0 <= j < m.resources[other].tickets().len()
                            && m.resources[other].tickets()[j] == t;
                    assert(m.resources[other].below(m.next));
                    assert(m.resources[other].tickets()[j] < m.next);
                }
            }
        }
    }
}

/// A ticket that no resource holds or queues is known nowhere.
pub proof fn lemma_unknown(m: ManagerModel, t: Ticket)
    requires
        forall|i: int| 0 <= i < m.resources.len() ==> !(#[trigger] m.resources[i]).tickets().contains(t),
    ensures
        !m.knows(t),
        !m.holds(t),
{
    if m.knows(t) {
        let i = m.place_of(t);
        assert(first_known(m.resources, t, i));
        lemma_tickets(m.resources[i], t);
    }
    if m.holds(t) {
        let i = m.holder_of(t);
        assert(first_holder(m.resources, t, i));
        lemma_tickets(m.resources[i], t);
    }
}

/// A ticket that was not handed out yet is in no resource.
pub proof fn lemma_fresh(m: ManagerModel, t: Ticket, i: int)
    requires
        m.wf(),
        t >= m.next,
        0 <= i < m.resources.len(),
    ensures
        !m.resources[i].tickets().contains(t),
{
    let r = m.resources[i];
    if r.tickets().contains(t) {
        let k = choose|k: int| 0 <= k < r.tickets().len() && r.tickets()[k] == t;
        assert(r.below(m.next));
        assert(r.tickets()[k] < m.next);
    }
}

/// A request that is granted at once holds its resource under its ticket.
pub proof fn lemma_granted_holds(m: ManagerModel, label: Seq<char>, amount: usize, priority: usize)
    requires
        m.wf(),
        m.acquire_error(label, amount) is None,
        m.resource(label).grants(amount, priority),
    ensures
        m.acquire(label, amount, priority).holds(m.next as Ticket),
{
    let i = m.index_of(label);
    assert(labelled(m.resources, label, i));
    let t = m.next as Ticket;
    let n = m.acquire(label, amount, priority);
    let r = m.resources[i];
    let h = r.holders.push(crate::resource::Hold { ticket: t, amount });
    assert(n.resources[i].holders == h);
    assert(h[r.holders.len() as int].ticket == t);
    assert(holds_ticket(n.resources[i].holders, t));
    assert forall|j: int| 0 <= j < i implies !holds_ticket(#[trigger] n.resources[j].holders, t) by {
        lemma_fresh(m, t, j);
        lemma_tickets(m.resources[j], t);
    }
    assert(first_holder(n.resources, t, i));
}

/// A ticket that holds in the resource at `i` holds in the manager.
pub proof fn lemma_holds_at(m: ManagerModel, x: Ticket, i: int)
    requires
        m.ticketed(),
        0 <= i < m.resources.len(),
        holds_ticket(m.resources[i].holders, x),
    ensures
        m.holds(x),
        m.holder_of(x) == i,
{
    lemma_tickets(m.resources[i], x);
    assert forall|j: int| 0 <= j < m.resources.len() && j != i implies !holds_ticket(
        #[trigger] m.resources[j].holders,
        x,
    ) by {
        lemma_tickets(m.resources[j], x);
        assert(m.resources[i].tickets().contains(x));
    }
    assert(first_holder(m.resources, x, i));
    let j = m.holder_of(x);
    assert(first_holder(m.resources, x, j));
}

/// A request that enters takes no hold away.
pub proof fn lemma_acquire_holds(m: ManagerModel, label: Seq<char>, amount: usize, priority: usize, x: Ticket)
    requires
        m.wf(),
        m.acquire(label, amount, priority).wf(),
        m.holds(x),
    ensures
        m.acquire(label, amount, priority).holds(x),
{
    let n = m.acquire(label, amount, priority);
    if m.acquire_error(label, amount) is None {
        let j = m.holder_of(x);
        assert(first_holder(m.resources, x, j));
        let i = m.index_of(label);
        assert(labelled(m.resources, label, i));
        if i == j {
            crate::resource::lemma_acquire_keeps_holds(
                m.resources[i],
                m.next as Ticket,
                amount,
                priority,
                x,
            );
        }
        lemma_holds_at(n, x, j);
    }
}

/// Withdrawing a ticket takes no hold of another ticket away.
pub proof fn lemma_cancel_holds(m: ManagerModel, t: Ticket, x: Ticket)
    requires
        m.wf(),
        m.cancel(t).wf(),
        x != t,
        m.holds(x),
    ensures
        m.cancel(t).holds(x),
{
    let n = m.cancel(t);
    if m.knows(t) {
        let j = m.holder_of(x);
        assert(first_holder(m.resources, x, j));
        let i = m.place_of(t);
        assert(first_known(m.resources, t, i));
        if i == j {
            crate::resource::lemma_cancel_keeps_holds(m.resources[i], t, x);
        }
        lemma_holds_at(n, x, j);
    }
}

/// A ticket is released once: after its release it holds nothing and waits
/// for nothing, so that a second release of it is refused.
pub proof fn law_released_once(m: ManagerModel, t: Ticket)
    requires
        m.wf(),
    ensures
        !m.release(t).holds(t),
        m.holds(t) ==> !m.release(t).knows(t),
{
    if m.holds(t) {
        let i = m.holder_of(t);
        assert(first_holder(m.resources, t, i));
        lemma_release_tickets(m.resources[i], t);
        lemma_tickets(m.resources[i], t);
        let n = m.release(t);
        assert forall|j: int| 0 <= j < n.resources.len() implies !(#[trigger] n.resources[j]).tickets().contains(
            t,
        ) by {
            if j != i {
                assert(m.resources[i].tickets().contains(t));
                assert(!m.resources[j].tickets().contains(t));
            }
        }
        lemma_unknown(n, t);
    }
}

/// Whatever is declared, requested, released or withdrawn, every resource
/// keeps its free capacity between zero and its capacity, and is locked
/// exactly when less than its capacity is free.
pub proof fn law_capacities_hold(m: ManagerModel, i: int)
    requires
        m.wf(),
        0 <= i < m.resources.len(),
    ensures
        0 <= m.resources[i].free <= m.resources[i].total,
        m.resources[i].locked() <==> m.resources[i].free < m.resources[i].total,
{
    assert(m.resources[i].wf());
}

/// One of the requests among which a caller lets the manager choose: a
/// resource and an amount of it.
#[derive(Debug)]
pub struct Request {
    pub label: String,
    pub amount: usize,
}

/// A request, as contracts see it.
pub struct RequestModel {
    pub label: Seq<char>,
    pub amount: usize,
}

impl View for Request {
    type V = RequestModel;

    open spec fn view(&self) -> RequestModel {
        RequestModel { label: self.label@, amount: self.amount }
    }
}

/// The models of a sequence of requests.
pub open spec fn request_models(s: Seq<Request>) -> Seq<RequestModel> {
    Seq::new(s.len(), |i: int| s[i]@)
}

/// What became of a request for one of several resources.
#[derive(Clone, Copy, Debug, PartialEq, Eq, Structural)]
pub enum AnyAcquisition {
    /// The ticket holds the amount asked of the request at the given place
    /// of the list.
    Granted(Ticket, usize),
    /// The request waits in the queue of every resource of the list, under
    /// one ticket for each: the request at the place `k` of the list has the
    /// ticket that lies `k` behind the given one.
    Waiting(Ticket),
}

impl ManagerModel {
    /// Why the first of the first `n` requests that is refused is refused.
    pub open spec fn refused(self, reqs: Seq<RequestModel>, n: nat) -> Option<ResourceError>
        decreases n,
    {
        if n == 0 || n > reqs.len() {
            None
        } else {
            match self.refused(reqs, (n - 1) as nat) {
                Some(e) => Some(e),
                None => if !self.declared(reqs[n - 1].label) {
                    Some(ResourceError::Undeclared)
                } else if reqs[n - 1].amount > self.resource(reqs[n - 1].label).total {
                    Some(ResourceError::ExceedsCapacity)
                } else {
                    None
                },
            }
        }
    }

    /// Why a request for one of several resources is refused, if it is: it
    /// names no resource, one of its requests is refused, or the tickets
    /// that are left do not suffice for one ticket for each request.
    pub open spec fn any_error(self, reqs: Seq<RequestModel>) -> Option<ResourceError> {
        if reqs.len() == 0 {
            Some(ResourceError::NothingRequested)
        } else if self.refused(reqs, reqs.len()) is Some {
            self.refused(reqs, reqs.len())
        } else if self.next + reqs.len() > u64::MAX {
            Some(ResourceError::TicketsExhausted)
        } else {
            None
        }
    }

    /// Tells whether the request at place `i` would be granted at once.
    pub open spec fn grants_at(self, reqs: Seq<RequestModel>, priority: usize, i: int) -> bool {
        0 <= i < reqs.len() && self.resource(reqs[i].label).grants(reqs[i].amount, priority)
    }

    /// Tells whether `i` is the first place of the list whose request would
    /// be granted at once.
    pub open spec fn first_grant(self, reqs: Seq<RequestModel>, priority: usize, i: int) -> bool {
        &&& self.grants_at(reqs, priority, i)
        &&& forall|j: int| 0 <= j < i ==> !self.grants_at(reqs, priority, j)
    }

    /// Tells whether some request of the list would be granted at once.
    pub open spec fn some_grant(self, reqs: Seq<RequestModel>, priority: usize) -> bool {
        exists|i: int| self.first_grant(reqs, priority, i)
    }

    /// The first place of the list whose request would be granted at once.
    pub open spec fn chosen(self, reqs: Seq<RequestModel>, priority: usize) -> int {
        choose|i: int| self.first_grant(reqs, priority, i)
    }

    /// The resources once the first `n` requests have entered the queues of
    /// their resources, each under a ticket of its own: the request at the
    /// place `k` has the ticket that lies `k` behind the next ticket.
    pub open spec fn queued(self, reqs: Seq<RequestModel>, n: nat, priority: usize) -> Seq<
        ResourceModel,
    >
        decreases n,
    {
        if n == 0 || n > reqs.len() {
            self.resources
        } else {
            let before = self.queued(reqs, (n - 1) as nat, priority);
            let i = self.index_of(reqs[n - 1].label);
            before.update(
                i,
                before[i].acquire((self.next + n - 1) as Ticket, reqs[n - 1].amount, priority),
            )
        }
    }

    /// The resources once a request for one of several resources has
    /// entered: it holds the first resource of the list that grants it at
    /// once, under the next ticket; where none does it waits for all of them,
    /// under one ticket for each.
    pub open spec fn acquire_any(self, reqs: Seq<RequestModel>, priority: usize) -> ManagerModel {
        if self.any_error(reqs) is Some {
            self
        } else if self.some_grant(reqs, priority) {
            let i = self.chosen(reqs, priority);
            self.acquire(reqs[i].label, reqs[i].amount, priority)
        } else {
            ManagerModel {
                resources: self.queued(reqs, reqs.len(), priority),
                next: self.next + reqs.len(),
            }
        }
    }

    /// The resources once the first `n` of the tickets that follow `first`
    /// have been withdrawn, one after the other, but for the ticket `kept`.
    pub open spec fn settled(self, first: Ticket, kept: Ticket, n: nat) -> ManagerModel
        decreases n,
    {
        if n == 0 {
            self
        } else {
            let before = self.settled(first, kept, (n - 1) as nat);
            let t = first + n - 1;
            if t > u64::MAX || t == kept {
                before
            } else {
                before.cancel(t as Ticket)
            }
        }
    }

    /// The tickets that are granted while the first `n` of the tickets that
    /// follow `first` are withdrawn, but for the ticket `kept`, withdrawal
    /// by withdrawal.
    pub open spec fn settle_wakes(self, first: Ticket, kept: Ticket, n: nat) -> Seq<Ticket>
        decreases n,
    {
        if n == 0 {
            Seq::empty()
        } else {
            let before = self.settled(first, kept, (n - 1) as nat);
            let woken = self.settle_wakes(first, kept, (n - 1) as nat);
            let t = first + n - 1;
            if t > u64::MAX || t == kept || !before.knows(t as Ticket) {
                woken
            } else {
                woken + before.resources[before.place_of(t as Ticket)].cancel_wakes(t as Ticket)
            }
        }
    }
}

/// Once a request has been refused, the requests that follow are not looked
/// at.
proof fn lemma_refused_stops(m: ManagerModel, reqs: Seq<RequestModel>, n: nat, k: nat)
    requires
        n <= k <= reqs.len(),
        m.refused(reqs, n) is Some,
    ensures
        m.refused(reqs, k) == m.refused(reqs, n),
    decreases k,
{
    if n < k {
        lemma_refused_stops(m, reqs, n, (k - 1) as nat);
    }
}

/// The first request that would be granted is the chosen one.
proof fn lemma_chosen(m: ManagerModel, reqs: Seq<RequestModel>, priority: usize, i: int)
    requires
        m.first_grant(reqs, priority, i),
    ensures
        m.some_grant(reqs, priority),
        m.chosen(reqs, priority) == i,
{
    let j = m.chosen(reqs, priority);
    assert(m.first_grant(reqs, priority, j));
    if i < j {
        assert(!m.grants_at(reqs, priority, i));
    } else if j < i {
        assert(!m.grants_at(reqs, priority, j));
    }
}

impl ResourceManager {
    /// Enters a request for one of several resources at the given priority,
    /// under a new ticket. The request holds the first resource of the list
    /// that grants it at once. Where none does, it waits in the queue of
    /// every resource of the list; the caller settles it once one of them
    /// has granted it.
    pub fn acquire_any(&mut self, requests: &Vec<Request>, priority: usize) -> (r: Result<
        AnyAcquisition,
        ResourceError,
    >)
        requires
            old(self)@.wf(),
        ensures
            final(self)@.wf(),
            final(self)@ == old(self)@.acquire_any(request_models(requests@), priority),
            r is Err <==> old(self)@.any_error(request_models(requests@)) is Some,
            r matches Err(e) ==> Some(e) == old(self)@.any_error(request_models(requests@)),
            r matches Ok(a) ==> a == (if old(self)@.some_grant(
                request_models(requests@),
                priority,
            ) {
                AnyAcquisition::Granted(
                    old(self)@.next as Ticket,
                    old(self)@.chosen(request_models(requests@), priority) as usize,
                )
            } else {
                AnyAcquisition::Waiting(old(self)@.next as Ticket)
            }),
    {
        let ghost reqs = request_models(requests@);
        let ghost before = self@;
        let n = requests.len();
        if n == 0 {
            return Err(ResourceError::NothingRequested);
        }
        let mut places: Vec<usize> = Vec::new();
        let mut k: usize = 0;
        while k < n
            invariant
                k <= n,
                n == requests.len(),
                reqs == request_models(requests@),
                self@ == before,
                *self == *old(self),
                before.wf(),
                before.refused(reqs, k as nat) is None,
                places.len() == k,
                forall|j: int|
                    0 <= j < k ==> labelled(before.resources, reqs[j].label, #[trigger] places[j] as int)
                        && places[j] == before.index_of(reqs[j].label),
                forall|j: int|
                    0 <= j < k ==> (#[trigger] reqs[j]).amount <= before.resource(reqs[j].label).total,
            decreases n - k,
        {
            let i = match self.find(requests[k].label.as_str()) {
                Some(i) => i,
                None => {
                    proof {
                        lemma_refused_stops(before, reqs, (k + 1) as nat, n as nat);
                    }
                    return Err(ResourceError::Undeclared);
                },
            };
            assert(self@.resources[i as int] == self.resources@[i as int]@);
            if requests[k].amount > self.resources[i].capacity() {
                proof {
                    lemma_refused_stops(before, reqs, (k + 1) as nat, n as nat);
                }
                return Err(ResourceError::ExceedsCapacity);
            }
            places.push(i);
            k += 1;
        }
        if n as u64 > u64::MAX - self.next {
            return Err(ResourceError::TicketsExhausted);
        }
        let mut g: usize = 0;
        while g < n
            invariant
                g <= n,
                n == requests.len(),
                n == places.len(),
                reqs == request_models(requests@),
                self@ == before,
                *self == *old(self),
                before.wf(),
                before.any_error(reqs) is None,
                forall|j: int|
                    0 <= j < n ==> labelled(before.resources, reqs[j].label, #[trigger] places[j] as int)
                        && places[j] == before.index_of(reqs[j].label),
                forall|j: int|
                    0 <= j < n ==> (#[trigger] reqs[j]).amount <= before.resource(reqs[j].label).total,
                forall|j: int| 0 <= j < g ==> !before.grants_at(reqs, priority, j),
            decreases n - g,
        {
            let i = places[g];
            assert(self@.resources[i as int] == self.resources@[i as int]@);
            if self.resources[i].would_grant(requests[g].amount, priority) {
                proof {
                    lemma_chosen(before, reqs, priority, g as int);
                }
                let r = self.acquire(requests[g].label.as_str(), requests[g].amount, priority);
                return match r {
                    Ok(Acquisition::Granted(t)) => Ok(AnyAcquisition::Granted(t, g)),
                    Ok(Acquisition::Waiting(t)) => Ok(AnyAcquisition::Waiting(t)),
                    Err(e) => Err(e),
                };
            }
            g += 1;
        }
        proof {
            if before.some_grant(reqs, priority) {
                let c = before.chosen(reqs, priority);
                assert(before.first_grant(reqs, priority, c));
                assert(!before.grants_at(reqs, priority, c));
            }
        }
        let t = self.next;
        let mut q: usize = 0;
        while q < n
            invariant
                q <= n,
                n == requests.len(),
                n == places.len(),
                reqs == request_models(requests@),
                before == old(self)@,
                before.wf(),
                before.any_error(reqs) is None,
                t == before.next,
                t + n <= u64::MAX,
                self.next == t,
                self@.resources == before.queued(reqs, q as nat, priority),
                self@.resources.len() == before.resources.len(),
                (ManagerModel { resources: self@.resources, next: (t + q) as nat }).wf(),
                forall|j: int|
                    0 <= j < self@.resources.len() ==> (#[trigger] self@.resources[j]).label
                        == before.resources[j].label && self@.resources[j].total
                        == before.resources[j].total,
                forall|j: int|
                    0 <= j < n ==> labelled(before.resources, reqs[j].label, #[trigger] places[j] as int)
                        && places[j] == before.index_of(reqs[j].label),
                forall|j: int|
                    0 <= j < n ==> (#[trigger] reqs[j]).amount <= before.resource(reqs[j].label).total,
            decreases n - q,
        {
            let i = places[q];
            let ghost now = self@;
            let ghost cur = ManagerModel { resources: now.resources, next: (t + q) as nat };
            assert(self@.resources[i as int] == self.resources@[i as int]@);
            assert(cur.resources[i as int].wf());
            let ticket: Ticket = t + q as u64;
            let mut r = self.resources.remove(i);
            let _ = r.acquire(ticket, requests[q].amount, priority);
            self.resources.insert(i, r);
            proof {
                assert(self@.resources =~= now.resources.update(i as int, r@));
                assert(reqs[q as int].amount <= before.resource(reqs[q as int].label).total);
                lemma_fresh(cur, ticket, i as int);
                lemma_acquire_tickets(cur.resources[i as int], ticket, requests[q as int].amount, priority);
                lemma_update_keeps_wf(cur, i as int, r@, (t + q + 1) as nat);
            }
            q += 1;
        }
        self.next = self.next + n as u64;
        Ok(AnyAcquisition::Waiting(t))
    }

    /// Settles a request for one of several resources once one of its
    /// tickets has been granted: withdraws the other tickets of the request,
    /// which are the `count` tickets from `first` on but for `granted`, and
    /// returns the tickets that were granted in consequence, withdrawal by
    /// withdrawal. A ticket that waits leaves its queue; one that was granted
    /// in the meantime gives back what it holds.
    pub fn settle(&mut self, first: Ticket, count: usize, granted: Ticket) -> (woken: Vec<Ticket>)
        requires
            old(self)@.wf(),
        ensures
            final(self)@.wf(),
            final(self)@ == old(self)@.settled(first, granted, count as nat),
            woken@ == old(self)@.settle_wakes(first, granted, count as nat),
    {
        let mut woken: Vec<Ticket> = Vec::new();
        let mut k: usize = 0;
        while k < count
            invariant
                k <= count,
                self@.wf(),
                self@ == old(self)@.settled(first, granted, k as nat),
                woken@ == old(self)@.settle_wakes(first, granted, k as nat),
            decreases count - k,
        {
            if k as u64 <= u64::MAX - first {
                let t: Ticket = first + k as u64;
                if t != granted {
                    match self.cancel(t) {
                        Ok(mut more) => {
                            woken.append(&mut more);
                        },
                        Err(_) => {},
                    }
                }
            }
            k += 1;
        }
        woken
    }
}

} // verus!
