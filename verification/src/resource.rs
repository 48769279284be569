//! Named resources of bounded capacity with priority-ordered waitlists.
//!
//! A request that cannot be served at once waits in the queue of its
//! resource. The queue is ordered by priority, highest first, and by arrival
//! among equal priorities. Capacity is only ever handed to the head of the
//! queue, so a waiter is never overtaken by a later request of the same or of
//! a lower priority.
use vstd::prelude::*;

verus! {

/// A ticket that names one request, from the call of `acquire` to the release.
pub type Ticket = u64;

/// A share of a resource that a request holds.
#[derive(Clone, Copy, Debug, PartialEq, Eq, Structural)]
pub struct Hold {
    pub ticket: Ticket,
    pub amount: usize,
}

/// A request that waits for capacity.
#[derive(Clone, Copy, Debug, PartialEq, Eq, Structural)]
pub struct Waiter {
    pub ticket: Ticket,
    pub amount: usize,
    pub priority: usize,
}

/// Why an operation on resources is refused.
#[derive(Clone, Copy, Debug, PartialEq, Eq, Structural)]
pub enum ResourceError {
    /// No resource has the given label.
    Undeclared,
    /// The resource is already declared with another capacity.
    CapacityMismatch,
    /// A resource has at least one unit.
    ZeroCapacity,
    /// The request asks for more than the resource has in all.
    ExceedsCapacity,
    /// The ticket neither holds nor waits for anything.
    UnknownTicket,
    /// No ticket is left to hand out.
    TicketsExhausted,
    /// A request for one of several resources names none.
    NothingRequested,
}

/// What became of a request.
#[derive(Clone, Copy, Debug, PartialEq, Eq, Structural)]
pub enum Acquisition {
    /// The request holds its amount.
    Granted(Ticket),
    /// The request waits in the queue.
    Waiting(Ticket),
}

/// The amounts that the holds of `s` add up to.
pub open spec fn held_sum(s: Seq<Hold>) -> nat
    decreases s.len(),
{
    if s.len() == 0 {
        0
    } else {
        held_sum(s.drop_last()) + s.last().amount as nat
    }
}

/// The amounts that the waiters of `s` add up to.
pub open spec fn asked_sum(s: Seq<Waiter>) -> nat
    decreases s.len(),
{
    if s.len() == 0 {
        0
    } else {
        asked_sum(s.drop_last()) + s.last().amount as nat
    }
}

/// Tells whether the priorities of `s` never rise from one waiter to the next.
pub open spec fn by_priority(s: Seq<Waiter>) -> bool {
    forall|i: int, j: int| 0 <= i < j < s.len() ==> s[i].priority >= s[j].priority
}

/// Tells whether `pos` is where a request of priority `p` enters the queue
/// `s`: behind every waiter of the same or of a higher priority, in front of
/// every waiter of a lower one.
pub open spec fn is_slot(s: Seq<Waiter>, p: usize, pos: int) -> bool {
    &&& 0 <= pos <= s.len()
    &&& forall|j: int| 0 <= j < pos ==> s[j].priority >= p
    &&& forall|j: int| pos <= j < s.len() ==> s[j].priority < p
}

/// The number of waiters at the head of `s` that `free` units serve, one
/// after the other: serving stops at the first waiter that asks for more than
/// what is left.
pub open spec fn served(s: Seq<Waiter>, free: nat) -> nat
    decreases s.len(),
{
    if s.len() > 0 && s[0].amount <= free {
        1 + served(s.drop_first(), (free - s[0].amount) as nat)
    } else {
        0
    }
}

/// The holds that the first `n` waiters of `s` get when they are served.
pub open spec fn holds_of(s: Seq<Waiter>, n: nat) -> Seq<Hold> {
    Seq::new(n, |i: int| Hold { ticket: s[i].ticket, amount: s[i].amount })
}

/// The tickets of the first `n` waiters of `s`.
pub open spec fn tickets_of(s: Seq<Waiter>, n: nat) -> Seq<Ticket> {
    Seq::new(n, |i: int| s[i].ticket)
}

/// Tells whether some hold of `s` belongs to `t`.
pub open spec fn holds_ticket(s: Seq<Hold>, t: Ticket) -> bool {
    exists|i: int| 0 <= i < s.len() && s[i].ticket == t
}

/// Tells whether some waiter of `s` belongs to `t`.
pub open spec fn waits_ticket(s: Seq<Waiter>, t: Ticket) -> bool {
    exists|i: int| 0 <= i < s.len() && s[i].ticket == t
}

/// Tells whether `i` is the first place of `s` that belongs to `t`.
pub open spec fn first_hold(s: Seq<Hold>, t: Ticket, i: int) -> bool {
    &&& 0 <= i < s.len()
    &&& s[i].ticket == t
    &&& forall|j: int| 0 <= j < i ==> s[j].ticket != t
}

/// Tells whether `i` is the first place of `s` that belongs to `t`.
pub open spec fn first_wait(s: Seq<Waiter>, t: Ticket, i: int) -> bool {
    &&& 0 <= i < s.len()
    &&& s[i].ticket == t
    &&& forall|j: int| 0 <= j < i ==> s[j].ticket != t
}

/// The first place of `s` that belongs to `t`, where there is one.
pub open spec fn hold_index(s: Seq<Hold>, t: Ticket) -> int {
    choose|i: int| first_hold(s, t, i)
}

/// The first place of `s` that belongs to `t`, where there is one.
pub open spec fn wait_index(s: Seq<Waiter>, t: Ticket) -> int {
    choose|i: int| first_wait(s, t, i)
}

/// The place at which a request of priority `p` enters the queue `s`.
pub open spec fn slot_index(s: Seq<Waiter>, p: usize) -> int {
    choose|pos: int| is_slot(s, p, pos)
}

/// There is one first place at most.
pub proof fn lemma_hold_index(s: Seq<Hold>, t: Ticket, i: int)
    requires
        first_hold(s, t, i),
    ensures
        hold_index(s, t) == i,
{
    let j = hold_index(s, t);
    assert(first_hold(s, t, j));
    if j < i {
        assert(s[j].ticket != t);
    } else if i < j {
        assert(s[i].ticket != t);
    }
}

/// There is one first place at most.
pub proof fn lemma_wait_index(s: Seq<Waiter>, t: Ticket, i: int)
    requires
        first_wait(s, t, i),
    ensures
        wait_index(s, t) == i,
{
    let j = wait_index(s, t);
    assert(first_wait(s, t, j));
    if j < i {
        assert(s[j].ticket != t);
    } else if i < j {
        assert(s[i].ticket != t);
    }
}

/// A request enters a queue at one place only.
pub proof fn lemma_slot_index(s: Seq<Waiter>, p: usize, pos: int)
    requires
        is_slot(s, p, pos),
    ensures
        slot_index(s, p) == pos,
{
    let j = slot_index(s, p);
    assert(is_slot(s, p, j));
    if j < pos {
        assert(s[j].priority >= p);
        assert(s[j].priority < p);
    } else if pos < j {
        assert(s[pos].priority >= p);
        assert(s[pos].priority < p);
    }
}

/// Adding a hold adds its amount.
pub proof fn lemma_held_push(s: Seq<Hold>, h: Hold)
    ensures
        held_sum(s.push(h)) == held_sum(s) + h.amount,
{
    assert(s.push(h).drop_last() =~= s);
}

/// Taking a hold away takes its amount away.
pub proof fn lemma_held_remove(s: Seq<Hold>, i: int)
    requires
        0 <= i < s.len(),
    ensures
        held_sum(s.remove(i)) + s[i].amount == held_sum(s),
    decreases s.len(),
{
    if i == s.len() - 1 {
        assert(s.remove(i) =~= s.drop_last());
    } else {
        lemma_held_remove(s.drop_last(), i);
        assert(s.remove(i).drop_last() =~= s.drop_last().remove(i));
        assert(s.remove(i).last() == s.last());
    }
}

/// The holds of two sequences put end to end add up.
pub proof fn lemma_held_concat(a: Seq<Hold>, b: Seq<Hold>)
    ensures
        held_sum(a + b) == held_sum(a) + held_sum(b),
    decreases b.len(),
{
    if b.len() == 0 {
        assert(a + b =~= a);
    } else {
        lemma_held_concat(a, b.drop_last());
        assert((a + b).drop_last() =~= a + b.drop_last());
        assert((a + b).last() == b.last());
    }
}

/// The state of one resource, as contracts see it.
pub struct ResourceModel {
    pub label: Seq<char>,
    pub total: nat,
    pub free: nat,
    /// The holds, in the order in which they were granted.
    pub holders: Seq<Hold>,
    /// The waitlist, head first.
    pub waiters: Seq<Waiter>,
}

impl ResourceModel {
    /// What holds of a resource at any time: the capacity is positive and fits
    /// the machine, the free capacity and the holds add up to the capacity,
    /// the waitlist is ordered by priority, no waiter asks for more than the
    /// capacity, and the head of the waitlist asks for more than what is free.
    pub open spec fn wf(self) -> bool {
        &&& 1 <= self.total <= usize::MAX
        &&& self.free + held_sum(self.holders) == self.total
        &&& by_priority(self.waiters)
        &&& forall|i: int|
            0 <= i < self.waiters.len() ==> (#[trigger] self.waiters[i]).amount <= self.total
        &&& self.waiters.len() > 0 ==> self.waiters[0].amount > self.free
    }

    /// A resource is locked when part of its capacity is held.
    pub open spec fn locked(self) -> bool {
        self.free < self.total
    }

    /// The resource once the head of its queue has been served as long as it
    /// fits in what is free.
    pub open spec fn serve(self) -> ResourceModel {
        let n = served(self.waiters, self.free);
        ResourceModel {
            free: (self.free - held_sum(holds_of(self.waiters, n))) as nat,
            holders: self.holders + holds_of(self.waiters, n),
            waiters: self.waiters.skip(n as int),
            ..self
        }
    }

    /// The tickets that `serve` grants, in the order of the queue.
    pub open spec fn woken(self) -> Seq<Ticket> {
        tickets_of(self.waiters, served(self.waiters, self.free))
    }

    /// Tells whether a new request of `amount` units at the given priority is
    /// granted at once: it becomes the head of the queue and fits in what is
    /// free.
    pub open spec fn grants(self, amount: usize, priority: usize) -> bool {
        slot_index(self.waiters, priority) == 0 && amount <= self.free
    }

    /// The resource once the request has entered: granted at once, or
    /// waiting behind every waiter of the same or of a higher priority. A
    /// request for more than the capacity changes nothing.
    pub open spec fn acquire(self, t: Ticket, amount: usize, priority: usize) -> ResourceModel {
        if amount > self.total {
            self
        } else if self.grants(amount, priority) {
            ResourceModel {
                free: (self.free - amount) as nat,
                holders: self.holders.push(Hold { ticket: t, amount }),
                ..self
            }
        } else {
            ResourceModel {
                waiters: self.waiters.insert(
                    slot_index(self.waiters, priority),
                    Waiter { ticket: t, amount, priority },
                ),
                ..self
            }
        }
    }

    /// The amount that the first hold of `t` stands for.
    pub open spec fn held_by(self, t: Ticket) -> nat {
        self.holders[hold_index(self.holders, t)].amount as nat
    }

    /// The resource once `t` has given back its first hold and the queue has
    /// been served. A ticket that holds nothing changes nothing.
    pub open spec fn release(self, t: Ticket) -> ResourceModel {
        if holds_ticket(self.holders, t) {
            ResourceModel {
                free: self.free + self.held_by(t),
                holders: self.holders.remove(hold_index(self.holders, t)),
                ..self
            }.serve()
        } else {
            self
        }
    }

    /// The tickets that are granted when `t` gives back its first hold.
    pub open spec fn release_wakes(self, t: Ticket) -> Seq<Ticket> {
        ResourceModel {
            free: self.free + self.held_by(t),
            holders: self.holders.remove(hold_index(self.holders, t)),
            ..self
        }.woken()
    }

    /// The resource once `t` has left the queue and the queue has been
    /// served.
    pub open spec fn leave(self, t: Ticket) -> ResourceModel {
        ResourceModel { waiters: self.waiters.remove(wait_index(self.waiters, t)), ..self }.serve()
    }

    /// The tickets that are granted when `t` leaves the queue.
    pub open spec fn leave_wakes(self, t: Ticket) -> Seq<Ticket> {
        ResourceModel { waiters: self.waiters.remove(wait_index(self.waiters, t)), ..self }.woken()
    }

    /// The resource once the ticket `t` has been withdrawn: a request that
    /// waits leaves the queue, a request that was granted releases.
    pub open spec fn cancel(self, t: Ticket) -> ResourceModel {
        if waits_ticket(self.waiters, t) {
            self.leave(t)
        } else {
            self.release(t)
        }
    }

    /// The tickets that are granted when `t` is withdrawn.
    pub open spec fn cancel_wakes(self, t: Ticket) -> Seq<Ticket> {
        if waits_ticket(self.waiters, t) {
            self.leave_wakes(t)
        } else {
            self.release_wakes(t)
        }
    }
}

/// One resource: its capacity, what is free, who holds and who waits.
pub struct Resource {
    label: String,
    total: usize,
    free: usize,
    holders: Vec<Hold>,
    waiters: Vec<Waiter>,
}

impl View for Resource {
    type V = ResourceModel;

    closed spec fn view(&self) -> ResourceModel {
        ResourceModel {
            label: self.label@,
            total: self.total as nat,
            free: self.free as nat,
            holders: self.holders@,
            waiters: self.waiters@,
        }
    }
}

impl Resource {
    /// A resource of the given capacity that nobody holds.
    pub fn new(label: &str, capacity: usize) -> (r: Self)
        requires
            capacity >= 1,
        ensures
            r@.wf(),
            r@ == (ResourceModel {
                label: label@,
                total: capacity as nat,
                free: capacity as nat,
                holders: Seq::empty(),
                waiters: Seq::empty(),
            }),
    {
        Resource {
            label: String::from_str(label),
            total: capacity,
            free: capacity,
            holders: Vec::new(),
            waiters: Vec::new(),
        }
    }

    /// The label of the resource.
    pub fn get_label(&self) -> (l: &String)
        ensures
            l@ == self@.label,
    {
        &self.label
    }

    /// The capacity of the resource.
    pub fn capacity(&self) -> (c: usize)
        ensures
            c == self@.total,
    {
        self.total
    }

    /// The capacity that nobody holds.
    pub fn free_capacity(&self) -> (c: usize)
        ensures
            c == self@.free,
    {
        self.free
    }

    /// Tells whether part of the capacity is held.
    pub fn is_locked(&self) -> (b: bool)
        ensures
            b == self@.locked(),
    {
        self.free < self.total
    }

    /// The number of requests that wait.
    pub fn n_waiters(&self) -> (n: usize)
        ensures
            n == self@.waiters.len(),
    {
        self.waiters.len()
    }

    /// The place of the first hold of `t`, if it holds anything.
    pub fn find_hold(&self, t: Ticket) -> (r: Option<usize>)
        ensures
            r is Some <==> holds_ticket(self@.holders, t),
            r matches Some(i) ==> first_hold(self@.holders, t, i as int) && i == hold_index(
                self@.holders,
                t,
            ),
    {
        let mut i: usize = 0;
        while i < self.holders.len()
            invariant
                i <= self.holders.len(),
                forall|j: int| 0 <= j < i ==> self.holders@[j].ticket != t,
            decreases self.holders.len() - i,
        {
            if self.holders[i].ticket == t {
                proof {
                    lemma_hold_index(self.holders@, t, i as int);
                }
                return Some(i);
            }
            i += 1;
        }
        None
    }

    /// The place of the first wait of `t`, if it waits.
    pub fn find_wait(&self, t: Ticket) -> (r: Option<usize>)
        ensures
            r is Some <==> waits_ticket(self@.waiters, t),
            r matches Some(i) ==> first_wait(self@.waiters, t, i as int) && i == wait_index(
                self@.waiters,
                t,
            ),
    {
        let mut i: usize = 0;
        while i < self.waiters.len()
            invariant
                i <= self.waiters.len(),
                forall|j: int| 0 <= j < i ==> self.waiters@[j].ticket != t,
            decreases self.waiters.len() - i,
        {
            if self.waiters[i].ticket == t {
                proof {
                    lemma_wait_index(self.waiters@, t, i as int);
                }
                return Some(i);
            }
            i += 1;
        }
        None
    }

    /// Tells whether a new request of `amount` units at the given priority
    /// would be granted at once.
    pub fn would_grant(&self, amount: usize, priority: usize) -> (b: bool)
        requires
            self@.wf(),
        ensures
            b == self@.grants(amount, priority),
    {
        self.slot(priority) == 0 && amount <= self.free
    }

    /// The place at which a request of priority `p` enters the queue.
    fn slot(&self, p: usize) -> (pos: usize)
        requires
            by_priority(self@.waiters),
        ensures
            is_slot(self@.waiters, p, pos as int),
            pos == slot_index(self@.waiters, p),
    {
        let mut i: usize = 0;
        while i < self.waiters.len() && self.waiters[i].priority >= p
            invariant
                i <= self.waiters.len(),
                by_priority(self.waiters@),
                forall|j: int| 0 <= j < i ==> self.waiters@[j].priority >= p,
            decreases self.waiters.len() - i,
        {
            i += 1;
        }
        proof {
            lemma_slot_index(self.waiters@, p, i as int);
        }
        i
    }

    /// Serves the head of the queue as long as it fits in what is free, and
    /// returns the tickets served, in the order of the queue.
    fn serve(&mut self) -> (woken: Vec<Ticket>)
        requires
            1 <= old(self)@.total <= usize::MAX,
            old(self)@.free + held_sum(old(self)@.holders) == old(self)@.total,
            by_priority(old(self)@.waiters),
            forall|i: int|
                0 <= i < old(self)@.waiters.len() ==> (#[trigger] old(self)@.waiters[i]).amount
                    <= old(self)@.total,
        ensures
            final(self)@.wf(),
            final(self)@ == old(self)@.serve(),
            woken@ == old(self)@.woken(),
    {
        let mut woken: Vec<Ticket> = Vec::new();
        let ghost queue = self.waiters@;
        let ghost held = self.holders@;
        let ghost free0 = self.free as nat;
        let ghost mut k: nat = 0;
        assert(self.waiters@ =~= queue.skip(0));
        assert(self.holders@ =~= held + holds_of(queue, 0));
        proof {
            lemma_held_concat(held, holds_of(queue, 0));
        }
        while self.waiters.len() > 0 && self.waiters[0].amount <= self.free
            invariant
                k <= queue.len(),
                self.waiters@ == queue.skip(k as int),
                self.holders@ == held + holds_of(queue, k),
                woken@ == tickets_of(queue, k),
                self.free + held_sum(self.holders@) == self.total,
                self.free + held_sum(holds_of(queue, k)) == free0,
                self.total == old(self).total,
                self.label == old(self).label,
                k + served(self.waiters@, self.free as nat) == served(queue, free0),
            decreases self.waiters.len(),
        {
            let w = self.waiters.remove(0);
            proof {
                assert(w == queue[k as int]);
                assert(queue.skip(k as int).drop_first() =~= queue.skip(k as int + 1));
                assert(self.waiters@ =~= queue.skip(k as int + 1));
                lemma_held_push(self.holders@, Hold { ticket: w.ticket, amount: w.amount });
                lemma_held_push(holds_of(queue, k), Hold { ticket: w.ticket, amount: w.amount });
                assert(holds_of(queue, k).push(Hold { ticket: w.ticket, amount: w.amount })
                    =~= holds_of(queue, k + 1));
            }
            self.free = self.free - w.amount;
            self.holders.push(Hold { ticket: w.ticket, amount: w.amount });
            woken.push(w.ticket);
            proof {
                k = k + 1;
                assert(self.holders@ =~= held + holds_of(queue, k));
                assert(woken@ =~= tickets_of(queue, k));
            }
        }
        proof {
            assert forall|i: int, j: int| 0 <= i < j < self.waiters@.len() implies self.waiters@[i].priority
                >= self.waiters@[j].priority by {
                assert(self.waiters@[i] == queue[k + i]);
                assert(self.waiters@[j] == queue[k + j]);
            }
            assert forall|i: int| 0 <= i < self.waiters@.len() implies (
            #[trigger] self.waiters@[i]).amount <= self.total by {
                assert(self.waiters@[i] == queue[k + i]);
            }
        }
        woken
    }

    /// Enters a request of `amount` units at the given priority under the
    /// ticket `t`, and tells whether it was granted at once. A request for
    /// more than the capacity is refused.
    pub fn acquire(&mut self, t: Ticket, amount: usize, priority: usize) -> (r: Result<
        bool,
        ResourceError,
    >)
        requires
            old(self)@.wf(),
        ensures
            final(self)@.wf(),
            final(self)@ == old(self)@.acquire(t, amount, priority),
            r is Err <==> amount > old(self)@.total,
            r matches Err(e) ==> e == ResourceError::ExceedsCapacity,
            r matches Ok(granted) ==> granted == old(self)@.grants(amount, priority),
    {
        if amount > self.total {
            return Err(ResourceError::ExceedsCapacity);
        }
        let pos = self.slot(priority);
        if pos == 0 && amount <= self.free {
            proof {
                lemma_held_push(self.holders@, Hold { ticket: t, amount });
            }
            self.free = self.free - amount;
            self.holders.push(Hold { ticket: t, amount });
            Ok(true)
        } else {
            let ghost before = self.waiters@;
            self.waiters.insert(pos, Waiter { ticket: t, amount, priority });
            proof {
                let w = Waiter { ticket: t, amount, priority };
                assert(self.waiters@ == before.insert(pos as int, w));
                assert forall|i: int, j: int| 0 <= i < j < self.waiters@.len() implies self.waiters@[i].priority
                    >= self.waiters@[j].priority by {
                    if i < pos && j > pos {
                        assert(self.waiters@[i] == before[i]);
                        assert(self.waiters@[j] == before[j - 1]);
                    } else if i < pos && j < pos {
                    } else if i > pos {
                        assert(self.waiters@[i] == before[i - 1]);
                        assert(self.waiters@[j] == before[j - 1]);
                    }
                }
                assert forall|i: int| 0 <= i < self.waiters@.len() implies (
                #[trigger] self.waiters@[i]).amount <= self.total by {
                    if i < pos {
                        assert(self.waiters@[i] == before[i]);
                    } else if i > pos {
                        assert(self.waiters@[i] == before[i - 1]);
                    }
                }
                if pos > 0 {
                    assert(self.waiters@[0] == before[0]);
                }
            }
            Ok(false)
        }
    }

    /// Gives back what the ticket `t` holds and serves the queue with what
    /// became free. Returns the amount given back and the tickets that were
    /// granted, in the order of the queue.
    pub fn release(&mut self, t: Ticket) -> (r: Result<(usize, Vec<Ticket>), ResourceError>)
        requires
            old(self)@.wf(),
        ensures
            final(self)@.wf(),
            final(self)@ == old(self)@.release(t),
            r is Ok <==> holds_ticket(old(self)@.holders, t),
            r matches Err(e) ==> e == ResourceError::UnknownTicket,
            r matches Ok((amount, woken)) ==> amount == old(self)@.held_by(t) && woken@ == old(
                self,
            )@.release_wakes(t),
    {
        match self.find_hold(t) {
            None => Err(ResourceError::UnknownTicket),
            Some(i) => {
                proof {
                    lemma_held_remove(self.holders@, i as int);
                }
                let h = self.holders.remove(i);
                self.free = self.free + h.amount;
                let woken = self.serve();
                Ok((h.amount, woken))
            },
        }
    }

    /// Withdraws the ticket `t`: a request that waits leaves the queue, a
    /// request that was granted releases what it holds. Returns the tickets
    /// that were granted in consequence.
    pub fn cancel(&mut self, t: Ticket) -> (r: Result<Vec<Ticket>, ResourceError>)
        requires
            old(self)@.wf(),
        ensures
            final(self)@.wf(),
            final(self)@ == old(self)@.cancel(t),
            r is Ok <==> waits_ticket(old(self)@.waiters, t) || holds_ticket(
                old(self)@.holders,
                t,
            ),
            r matches Err(e) ==> e == ResourceError::UnknownTicket,
            r matches Ok(woken) ==> woken@ == old(self)@.cancel_wakes(t),
    {
        match self.find_wait(t) {
            Some(i) => {
                let ghost before = self.waiters@;
                let _ = self.waiters.remove(i);
                proof {
                    assert forall|a: int, b: int| 0 <= a < b < self.waiters@.len() implies self.waiters@[a].priority
                        >= self.waiters@[b].priority by {
                        let a0 = if a < i { a } else { a + 1 };
                        let b0 = if b < i { b } else { b + 1 };
                        assert(self.waiters@[a] == before[a0]);
                        assert(self.waiters@[b] == before[b0]);
                    }
                    assert forall|a: int| 0 <= a < self.waiters@.len() implies (
                    #[trigger] self.waiters@[a]).amount <= self.total by {
                        let a0 = if a < i { a } else { a + 1 };
                        assert(self.waiters@[a] == before[a0]);
                    }
                }
                let woken = self.serve();
                Ok(woken)
            },
            None => {
                match self.release(t) {
                    Ok((_, woken)) => Ok(woken),
                    Err(e) => Err(e),
                }
            },
        }
    }
}

/// At any time the free capacity of a resource lies between zero and its
/// capacity, and the resource is locked exactly when less than its capacity
/// is free.
pub proof fn law_free_within_capacity(r: ResourceModel)
    requires
        r.wf(),
    ensures
        0 <= r.free <= r.total,
        r.locked() <==> r.free < r.total,
{
}

/// Releasing gives back exactly what the hold stands for: before the queue is
/// served the free capacity has risen by that amount, and afterwards the free
/// capacity and what the newly served waiters got add up to it.
pub proof fn law_release_gives_back(r: ResourceModel, t: Ticket)
    requires
        r.wf(),
        holds_ticket(r.holders, t),
    ensures
        r.release(t).free + held_sum(holds_of(r.waiters, served(r.waiters, r.free + r.held_by(t))))
            == r.free + r.held_by(t),
        r.release(t).free + held_sum(r.release(t).holders) == r.total,
        r.release(t).free <= r.total,
{
    let i = hold_index(r.holders, t);
    let some = choose|k: int| 0 <= k < r.holders.len() && r.holders[k].ticket == t;
    lemma_first_hold_exists(r.holders, t, some);
    lemma_held_remove(r.holders, i);
    let risen = ResourceModel { free: r.free + r.held_by(t), holders: r.holders.remove(i), ..r };
    lemma_served_within(risen.waiters, risen.free);
    lemma_held_concat(risen.holders, holds_of(risen.waiters, served(risen.waiters, risen.free)));
}

/// A request that is granted at once and then released leaves the resource
/// as it was: the release gives back what the matching acquire took, whoever
/// waits.
pub proof fn law_acquire_then_release(r: ResourceModel, t: Ticket, amount: usize, priority: usize)
    requires
        r.wf(),
        amount <= r.total,
        r.grants(amount, priority),
        !holds_ticket(r.holders, t),
    ensures
        r.acquire(t, amount, priority).held_by(t) == amount,
        r.acquire(t, amount, priority).release(t) == r,
{
    let a = r.acquire(t, amount, priority);
    let h = Hold { ticket: t, amount };
    let last = r.holders.len() as int;
    assert(a.holders[last] == h);
    assert forall|j: int| 0 <= j < last implies a.holders[j].ticket != t by {
        assert(a.holders[j] == r.holders[j]);
    }
    assert(first_hold(a.holders, t, last));
    lemma_hold_index(a.holders, t, last);
    assert(a.holders.remove(last) =~= r.holders);
    let risen = ResourceModel { free: a.free + a.held_by(t), holders: a.holders.remove(last), ..a };
    assert(risen == r);
    assert(served(r.waiters, r.free) == 0);
    assert(holds_of(r.waiters, 0) =~= Seq::<Hold>::empty());
    assert(r.holders + Seq::<Hold>::empty() =~= r.holders);
    assert(r.waiters.skip(0) =~= r.waiters);
    assert(r.serve() == r);
}

/// A ticket that holds something has a first hold.
pub proof fn lemma_first_hold_exists(s: Seq<Hold>, t: Ticket, n: int)
    requires
        0 <= n < s.len(),
        s[n].ticket == t,
    ensures
        first_hold(s, t, hold_index(s, t)),
    decreases n,
{
    if exists|j: int| 0 <= j < n && s[j].ticket == t {
        let j = choose|j: int| 0 <= j < n && s[j].ticket == t;
        lemma_first_hold_exists(s, t, j);
    } else {
        assert(first_hold(s, t, n));
    }
}

/// What the served waiters get fits in what was free.
pub proof fn lemma_served_within(s: Seq<Waiter>, free: nat)
    ensures
        served(s, free) <= s.len(),
        held_sum(holds_of(s, served(s, free))) <= free,
    decreases s.len(),
{
    if s.len() > 0 && s[0].amount <= free {
        let rest = s.drop_first();
        let left = (free - s[0].amount) as nat;
        lemma_served_within(rest, left);
        let n = served(rest, left);
        let first = seq![Hold { ticket: s[0].ticket, amount: s[0].amount }];
        assert(holds_of(s, n + 1) =~= first + holds_of(rest, n));
        lemma_held_concat(first, holds_of(rest, n));
        assert(first.drop_last() =~= Seq::<Hold>::empty());
        assert(held_sum(first) == s[0].amount) by {
            reveal_with_fuel(held_sum, 2);
        }
    } else {
        assert(holds_of(s, 0) =~= Seq::<Hold>::empty());
    }
}

/// A queue that is ordered by priority has a place for every request.
pub proof fn lemma_slot_exists(s: Seq<Waiter>, p: usize)
    requires
        by_priority(s),
    ensures
        is_slot(s, p, slot_index(s, p)),
    decreases s.len(),
{
    if s.len() == 0 {
        assert(is_slot(s, p, 0));
    } else if s.last().priority >= p {
        assert forall|j: int| 0 <= j < s.len() implies s[j].priority >= p by {
            if j < s.len() - 1 {
                assert(s[j].priority >= s[s.len() - 1].priority);
            }
        }
        assert(is_slot(s, p, s.len() as int));
    } else {
        let init = s.drop_last();
        assert forall|i: int, j: int| 0 <= i < j < init.len() implies init[i].priority
            >= init[j].priority by {
            assert(s[i].priority >= s[j].priority);
        }
        lemma_slot_exists(init, p);
        let pos = slot_index(init, p);
        assert forall|j: int| 0 <= j < pos implies s[j].priority >= p by {
            assert(init[j].priority >= p);
        }
        assert forall|j: int| pos <= j < s.len() implies s[j].priority < p by {
            if j < init.len() {
                assert(init[j].priority < p);
            }
        }
        assert(is_slot(s, p, pos));
    }
}

/// No waiter is overtaken by a later request of the same or of a lower
/// priority: a request that has to wait enters the queue behind every waiter
/// whose priority is not lower than its own, and in front of the others,
/// which keep their order.
pub proof fn law_no_overtaking(r: ResourceModel, t: Ticket, amount: usize, priority: usize, i: int)
    requires
        r.wf(),
        amount <= r.total,
        !r.grants(amount, priority),
        0 <= i < r.waiters.len(),
    ensures
        ({
            let n = r.acquire(t, amount, priority);
            let pos = slot_index(r.waiters, priority);
            &&& n.waiters.len() == r.waiters.len() + 1
            &&& 0 <= pos <= r.waiters.len()
            &&& n.waiters[pos] == (Waiter { ticket: t, amount, priority })
            &&& r.waiters[i].priority >= priority ==> i < pos && n.waiters[i] == r.waiters[i]
            &&& r.waiters[i].priority < priority ==> pos <= i && n.waiters[i + 1] == r.waiters[i]
        }),
{
    lemma_slot_exists(r.waiters, priority);
}

/// The tickets of holds, in their order.
pub open spec fn hold_tickets(s: Seq<Hold>) -> Seq<Ticket> {
    Seq::new(s.len(), |i: int| s[i].ticket)
}

/// The tickets of waiters, in their order.
pub open spec fn wait_tickets(s: Seq<Waiter>) -> Seq<Ticket> {
    Seq::new(s.len(), |i: int| s[i].ticket)
}

impl ResourceModel {
    /// The tickets of the resource: those that hold, then those that wait.
    pub open spec fn tickets(self) -> Seq<Ticket> {
        hold_tickets(self.holders) + wait_tickets(self.waiters)
    }

    /// No ticket occurs twice in the resource: none holds twice, none waits
    /// twice, none holds and waits.
    pub open spec fn once(self) -> bool {
        self.tickets().no_duplicates()
    }

    /// Every ticket of the resource lies below `bound`.
    pub open spec fn below(self, bound: nat) -> bool {
        forall|i: int| 0 <= i < self.tickets().len() ==> #[trigger] self.tickets()[i] < bound
    }
}

/// A ticket is among the tickets of a resource exactly when it holds or
/// waits there.
pub proof fn lemma_tickets(r: ResourceModel, t: Ticket)
    ensures
        r.tickets().contains(t) <==> holds_ticket(r.holders, t) || waits_ticket(r.waiters, t),
{
    let h = hold_tickets(r.holders);
    let w = wait_tickets(r.waiters);
    let all = r.tickets();
    if all.contains(t) {
        let k = choose|k: int| 0 <= k < all.len() && all[k] == t;
        if k < h.len() {
            assert(r.holders[k].ticket == t);
        } else {
            assert(r.waiters[k - h.len()].ticket == t);
        }
    }
    if holds_ticket(r.holders, t) {
        let k = choose|k: int| 0 <= k < r.holders.len() && r.holders[k].ticket == t;
        assert(all[k] == t);
    }
    if waits_ticket(r.waiters, t) {
        let k = choose|k: int| 0 <= k < r.waiters.len() && r.waiters[k].ticket == t;
        assert(all[h.len() + k] == t);
    }
}

/// Taking one ticket out of tickets without duplicates leaves the others,
/// without duplicates.
pub proof fn lemma_removed(s: Seq<Ticket>, k: int)
    requires
        s.no_duplicates(),
        0 <= k < s.len(),
    ensures
        s.remove(k).no_duplicates(),
        forall|x: Ticket| #[trigger] s.remove(k).contains(x) <==> (x != s[k] && s.contains(x)),
{
    let r = s.remove(k);
    assert forall|i: int, j: int| 0 <= i < r.len() && 0 <= j < r.len() && i != j implies r[i]
        != r[j] by {
        let a = if i < k { i } else { i + 1 };
        let b = if j < k { j } else { j + 1 };
        assert(s[a] != s[b]);
    }
    assert forall|x: Ticket| #[trigger] r.contains(x) <==> (x != s[k] && s.contains(x)) by {
        if r.contains(x) {
            let i = choose|i: int| 0 <= i < r.len() && r[i] == x;
            let a = if i < k { i } else { i + 1 };
            assert(s[a] == x);
            assert(a != k);
        }
        if x != s[k] && s.contains(x) {
            let a = choose|a: int| 0 <= a < s.len() && s[a] == x;
            let i = if a < k { a } else { a - 1 };
            assert(r[i] == x);
        }
    }
}

/// Putting a new ticket among tickets without duplicates leaves no
/// duplicate, and adds that ticket only.
pub proof fn lemma_inserted(s: Seq<Ticket>, pos: int, t: Ticket)
    requires
        0 <= pos <= s.len(),
    ensures
        forall|x: Ticket| #[trigger] s.insert(pos, t).contains(x) <==> (x == t || s.contains(x)),
        s.no_duplicates() && !s.contains(t) ==> s.insert(pos, t).no_duplicates(),
{
    let r = s.insert(pos, t);
    assert forall|x: Ticket| #[trigger] r.contains(x) <==> (x == t || s.contains(x)) by {
        if r.contains(x) {
            let i = choose|i: int| 0 <= i < r.len() && r[i] == x;
            if i < pos {
                assert(s[i] == x);
            } else if i > pos {
                assert(s[i - 1] == x);
            }
        }
        if x == t {
            assert(r[pos] == t);
        }
        if s.contains(x) {
            let a = choose|a: int| 0 <= a < s.len() && s[a] == x;
            let i = if a < pos { a } else { a + 1 };
            assert(r[i] == x);
        }
    }
    if s.no_duplicates() && !s.contains(t) {
        assert forall|i: int, j: int| 0 <= i < r.len() && 0 <= j < r.len() && i != j implies r[i]
            != r[j] by {
            let a = if i < pos { i } else { i - 1 };
            let b = if j < pos { j } else { j - 1 };
            if i == pos {
                assert(s.contains(s[b]));
            } else if j == pos {
                assert(s.contains(s[a]));
            } else {
                assert(s[a] != s[b]);
            }
        }
    }
}

/// Serving the queue moves tickets from the queue to the holds: the tickets
/// of the resource stay what they are.
pub proof fn lemma_serve_tickets(r: ResourceModel)
    ensures
        r.serve().tickets() == r.tickets(),
{
    lemma_served_within(r.waiters, r.free);
    assert(r.serve().tickets() =~= r.tickets());
}

/// A request that enters adds its ticket to those of the resource, and
/// nothing else; a new ticket leaves no ticket twice.
pub proof fn lemma_acquire_tickets(r: ResourceModel, t: Ticket, amount: usize, priority: usize)
    requires
        r.wf(),
        amount <= r.total,
    ensures
        forall|x: Ticket|
            #[trigger] r.acquire(t, amount, priority).tickets().contains(x) <==> (x == t
                || r.tickets().contains(x)),
        r.once() && !r.tickets().contains(t) ==> r.acquire(t, amount, priority).once(),
{
    let n = r.acquire(t, amount, priority);
    let h = hold_tickets(r.holders);
    let w = wait_tickets(r.waiters);
    let at = if r.grants(amount, priority) {
        h.len() as int
    } else {
        lemma_slot_exists(r.waiters, priority);
        h.len() + slot_index(r.waiters, priority)
    };
    let ins = r.tickets().insert(at, t);
    assert(n.tickets() =~= ins);
    lemma_inserted(r.tickets(), at, t);
    assert forall|x: Ticket| #[trigger] n.tickets().contains(x) <==> (x == t
        || r.tickets().contains(x)) by {
        assert(ins.contains(x) <==> (x == t || r.tickets().contains(x)));
    }
}

/// A release takes the ticket out of those of the resource, and nothing
/// else: the ticket holds nothing afterwards.
pub proof fn lemma_release_tickets(r: ResourceModel, t: Ticket)
    requires
        r.wf(),
        r.once(),
        holds_ticket(r.holders, t),
    ensures
        r.release(t).once(),
        forall|x: Ticket|
            #[trigger] r.release(t).tickets().contains(x) <==> (x != t && r.tickets().contains(x)),
        !holds_ticket(r.release(t).holders, t),
        !waits_ticket(r.release(t).waiters, t),
{
    let any = choose|i: int| 0 <= i < r.holders.len() && r.holders[i].ticket == t;
    lemma_first_hold_exists(r.holders, t, any);
    let k = hold_index(r.holders, t);
    let risen = ResourceModel {
        free: r.free + r.held_by(t),
        holders: r.holders.remove(k),
        ..r
    };
    assert(risen.tickets() =~= r.tickets().remove(k));
    assert(r.tickets()[k] == t);
    lemma_removed(r.tickets(), k);
    lemma_serve_tickets(risen);
    let rem = r.tickets().remove(k);
    assert(r.release(t).tickets() == rem);
    assert forall|x: Ticket| #[trigger] r.release(t).tickets().contains(x) <==> (x != t
        && r.tickets().contains(x)) by {
        assert(rem.contains(x) <==> (x != r.tickets()[k] && r.tickets().contains(x)));
    }
    lemma_tickets(r.release(t), t);
}

/// A ticket that waits has a first place in the queue.
pub proof fn lemma_first_wait_exists(s: Seq<Waiter>, t: Ticket, n: int)
    requires
        0 <= n < s.len(),
        s[n].ticket == t,
    ensures
        first_wait(s, t, wait_index(s, t)),
    decreases n,
{
    if exists|j: int| 0 <= j < n && s[j].ticket == t {
        let j = choose|j: int| 0 <= j < n && s[j].ticket == t;
        lemma_first_wait_exists(s, t, j);
    } else {
        assert(first_wait(s, t, n));
    }
}

/// A request that leaves the queue takes its ticket out of those of the
/// resource, and nothing else.
pub proof fn lemma_leave_tickets(r: ResourceModel, t: Ticket)
    requires
        r.wf(),
        r.once(),
        waits_ticket(r.waiters, t),
    ensures
        r.leave(t).once(),
        forall|x: Ticket|
            #[trigger] r.leave(t).tickets().contains(x) <==> (x != t && r.tickets().contains(x)),
{
    let any = choose|i: int| 0 <= i < r.waiters.len() && r.waiters[i].ticket == t;
    lemma_first_wait_exists(r.waiters, t, any);
    let k = wait_index(r.waiters, t);
    let left = ResourceModel { waiters: r.waiters.remove(k), ..r };
    let h = hold_tickets(r.holders);
    assert(left.tickets() =~= r.tickets().remove(h.len() + k));
    assert(r.tickets()[h.len() + k] == t);
    lemma_removed(r.tickets(), h.len() + k);
    lemma_serve_tickets(left);
    let rem = r.tickets().remove(h.len() + k);
    assert(r.leave(t).tickets() == rem);
    assert forall|x: Ticket| #[trigger] r.leave(t).tickets().contains(x) <==> (x != t
        && r.tickets().contains(x)) by {
        assert(rem.contains(x) <==> (x != r.tickets()[h.len() + k] && r.tickets().contains(x)));
    }
}

/// A withdrawal takes the ticket out of those of the resource, and nothing
/// else.
pub proof fn lemma_cancel_tickets(r: ResourceModel, t: Ticket)
    requires
        r.wf(),
        r.once(),
        r.tickets().contains(t),
    ensures
        r.cancel(t).once(),
        forall|x: Ticket|
            #[trigger] r.cancel(t).tickets().contains(x) <==> (x != t && r.tickets().contains(x)),
{
    lemma_tickets(r, t);
    if waits_ticket(r.waiters, t) {
        lemma_leave_tickets(r, t);
    } else {
        lemma_release_tickets(r, t);
    }
}

/// Serving the queue takes no hold away.
pub proof fn lemma_serve_keeps_holds(r: ResourceModel, x: Ticket)
    requires
        holds_ticket(r.holders, x),
    ensures
        holds_ticket(r.serve().holders, x),
{
    let k = choose|k: int| 0 <= k < r.holders.len() && r.holders[k].ticket == x;
    assert(r.serve().holders[k].ticket == x);
}

/// Withdrawing a ticket takes no hold of another ticket away.
pub proof fn lemma_cancel_keeps_holds(r: ResourceModel, t: Ticket, x: Ticket)
    requires
        x != t,
        holds_ticket(r.holders, x),
    ensures
        holds_ticket(r.cancel(t).holders, x),
{
    let k = choose|k: int| 0 <= k < r.holders.len() && r.holders[k].ticket == x;
    if waits_ticket(r.waiters, t) {
        let left = ResourceModel { waiters: r.waiters.remove(wait_index(r.waiters, t)), ..r };
        lemma_serve_keeps_holds(left, x);
    } else if holds_ticket(r.holders, t) {
        let any = choose|i: int| 0 <= i < r.holders.len() && r.holders[i].ticket == t;
        lemma_first_hold_exists(r.holders, t, any);
        let i = hold_index(r.holders, t);
        let risen = ResourceModel {
            free: r.free + r.held_by(t),
            holders: r.holders.remove(i),
            ..r
        };
        let at = if k < i {
            k
        } else {
            k - 1
        };
        assert(risen.holders[at].ticket == x);
        lemma_serve_keeps_holds(risen, x);
    }
}

/// A request that enters takes no hold away.
pub proof fn lemma_acquire_keeps_holds(r: ResourceModel, t: Ticket, amount: usize, priority: usize, x: Ticket)
    requires
        holds_ticket(r.holders, x),
    ensures
        holds_ticket(r.acquire(t, amount, priority).holders, x),
{
    let k = choose|k: int| 0 <= k < r.holders.len() && r.holders[k].ticket == x;
    assert(r.acquire(t, amount, priority).holders[k].ticket == x);
}

} // verus!
