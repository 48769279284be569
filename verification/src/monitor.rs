//! The monitor service: predicates over the world state and the handles that
//! wait for them to become true.
//!
//! The service does not evaluate a predicate itself. It tells which
//! predicates a write may have changed, takes back what their evaluation gave,
//! and wakes a handle once at most.
use crate::lvalue::{string_views, LValue, Sexp};
use vstd::prelude::*;

verus! {

/// The handle of one wait.
pub type WaitHandle = u64;

/// A predicate that a handle waits for.
pub struct Monitor {
    pub handle: WaitHandle,
    pub expr: LValue,
    /// The labels of the state functions that the predicate reads.
    pub footprint: Vec<String>,
}

/// A registered predicate, as contracts see it.
pub struct MonitorModel {
    pub handle: WaitHandle,
    pub expr: Sexp,
    pub footprint: Seq<Seq<char>>,
}

impl View for Monitor {
    type V = MonitorModel;

    open spec fn view(&self) -> MonitorModel {
        MonitorModel {
            handle: self.handle,
            expr: self.expr@,
            footprint: string_views(self.footprint@),
        }
    }
}

/// What a call of `wait_for` gave.
#[derive(Clone, Copy, Debug, PartialEq, Eq, Structural)]
pub enum WaitOutcome {
    /// The predicate held at the call: the wait is over.
    Ready(WaitHandle),
    /// The predicate did not hold: the handle waits.
    Suspended(WaitHandle),
}

/// Tells whether two footprints have a label in common.
pub open spec fn intersects(a: Seq<Seq<char>>, b: Seq<Seq<char>>) -> bool {
    exists|i: int, j: int| 0 <= i < a.len() && 0 <= j < b.len() && a[i] == b[j]
}

/// The service, as contracts see it.
pub struct ServiceModel {
    /// The predicates that wait, in the order in which they came.
    pub waiting: Seq<MonitorModel>,
    /// The next handle to hand out.
    pub next: nat,
}

impl ServiceModel {
    /// Handles grow along the registry and lie below the next handle.
    pub open spec fn wf(self) -> bool {
        &&& self.next <= u64::MAX
        &&& forall|i: int| 0 <= i < self.waiting.len() ==> (#[trigger] self.waiting[i]).handle
            < self.next
        &&& forall|i: int, j: int|
            0 <= i < j < self.waiting.len() ==> (#[trigger] self.waiting[i]).handle < (
            #[trigger] self.waiting[j]).handle
    }

    /// Tells whether the handle `h` waits.
    pub open spec fn waits(self, h: WaitHandle) -> bool {
        exists|i: int| 0 <= i < self.waiting.len() && (#[trigger] self.waiting[i]).handle == h
    }

    /// The place of the handle `h` in the registry, where it waits.
    pub open spec fn index_of(self, h: WaitHandle) -> int {
        choose|i: int| 0 <= i < self.waiting.len() && (#[trigger] self.waiting[i]).handle == h
    }

    /// The service once a wait has been asked for: a predicate that holds
    /// uses up a handle and nothing more, one that does not is registered.
    pub open spec fn wait_for(self, expr: Sexp, footprint: Seq<Seq<char>>, holds: bool) -> ServiceModel {
        if self.next >= u64::MAX {
            self
        } else if holds {
            ServiceModel { next: self.next + 1, ..self }
        } else {
            ServiceModel {
                waiting: self.waiting.push(
                    MonitorModel { handle: self.next as WaitHandle, expr, footprint },
                ),
                next: self.next + 1,
            }
        }
    }

    /// The service once the handle `h` has left the registry, if it waited.
    pub open spec fn without(self, h: WaitHandle) -> ServiceModel {
        if self.waits(h) {
            ServiceModel { waiting: self.waiting.remove(self.index_of(h)), ..self }
        } else {
            self
        }
    }

    /// Tells whether reporting on `h` wakes it: the handle waits and its
    /// predicate was found to hold.
    pub open spec fn wakes(self, h: WaitHandle, holds: bool) -> bool {
        holds && self.waits(h)
    }

    /// The service once it has been told what the predicate of `h` gave.
    pub open spec fn report(self, h: WaitHandle, holds: bool) -> ServiceModel {
        if holds {
            self.without(h)
        } else {
            self
        }
    }

    /// Tells whether the handle `h` waits for a predicate that a write on
    /// `written` may have changed.
    pub open spec fn touched(self, h: WaitHandle, written: Seq<Seq<char>>) -> bool {
        exists|i: int|
            0 <= i < self.waiting.len() && (#[trigger] self.waiting[i]).handle == h && intersects(
                self.waiting[i].footprint,
                written,
            )
    }
}

/// A handle waits at one place at most.
pub proof fn lemma_index_of(m: ServiceModel, h: WaitHandle, i: int)
    requires
        m.wf(),
        0 <= i < m.waiting.len(),
        m.waiting[i].handle == h,
    ensures
        m.waits(h),
        m.index_of(h) == i,
{
    let j = m.index_of(h);
    if i < j {
        assert(m.waiting[i].handle < m.waiting[j].handle);
    } else if j < i {
        assert(m.waiting[j].handle < m.waiting[i].handle);
    }
}

/// Taking a handle out of the registry keeps the service well formed, and
/// the handle no longer waits.
pub proof fn lemma_without_wf(m: ServiceModel, h: WaitHandle)
    requires
        m.wf(),
    ensures
        m.without(h).wf(),
        !m.without(h).waits(h),
        forall|g: WaitHandle| g != h ==> m.without(h).waits(g) == m.waits(g),
{
    let n = m.without(h);
    if m.waits(h) {
        let i = m.index_of(h);
        assert forall|a: int| 0 <= a < n.waiting.len() implies (#[trigger] n.waiting[a]).handle
            < n.next by {
            let a0 = if a < i { a } else { a + 1 };
            assert(n.waiting[a] == m.waiting[a0]);
        }
        assert forall|a: int, b: int| 0 <= a < b < n.waiting.len() implies (
        #[trigger] n.waiting[a]).handle < (#[trigger] n.waiting[b]).handle by {
            let a0 = if a < i { a } else { a + 1 };
            let b0 = if b < i { b } else { b + 1 };
            assert(n.waiting[a] == m.waiting[a0]);
            assert(n.waiting[b] == m.waiting[b0]);
        }
        if n.waits(h) {
            let a = n.index_of(h);
            let a0 = if a < i { a } else { a + 1 };
            assert(n.waiting[a] == m.waiting[a0]);
            lemma_index_of(m, h, a0);
        }
        assert forall|g: WaitHandle| g != h implies n.waits(g) == m.waits(g) by {
            if n.waits(g) {
                let a = n.index_of(g);
                let a0 = if a < i { a } else { a + 1 };
                assert(n.waiting[a] == m.waiting[a0]);
            }
            if m.waits(g) {
                let a0 = m.index_of(g);
                let a = if a0 < i { a0 } else { a0 - 1 };
                assert(n.waiting[a] == m.waiting[a0]);
            }
        }
    }
}

/// A handle is woken once at most: a report that wakes a handle takes it out
/// of the registry, where no later report finds it.
pub proof fn law_one_wakeup(m: ServiceModel, h: WaitHandle, later: bool)
    requires
        m.wf(),
        m.wakes(h, true),
    ensures
        !m.report(h, true).wakes(h, later),
{
    lemma_without_wf(m, h);
}

/// A wait ends normally only on a state in which its predicate was found to
/// hold: at the call, or at the report that wakes the handle.
pub proof fn law_woken_on_truth(m: ServiceModel, h: WaitHandle, holds: bool)
    requires
        m.wf(),
    ensures
        m.wakes(h, holds) ==> holds,
        !holds ==> m.report(h, holds) == m,
{
}

/// The monitor service of an engine.
pub struct MonitorService {
    waiting: Vec<Monitor>,
    next: WaitHandle,
}

/// The models of a sequence of monitors.
pub open spec fn monitor_models(s: Seq<Monitor>) -> Seq<MonitorModel> {
    Seq::new(s.len(), |i: int| s[i]@)
}

impl View for MonitorService {
    type V = ServiceModel;

    closed spec fn view(&self) -> ServiceModel {
        ServiceModel { waiting: monitor_models(self.waiting@), next: self.next as nat }
    }
}

/// Tells whether two footprints have a label in common.
pub fn footprints_meet(a: &Vec<String>, b: &Vec<String>) -> (r: bool)
    ensures
        r == intersects(string_views(a@), string_views(b@)),
{
    let mut i: usize = 0;
    while i < a.len()
        invariant
            i <= a.len(),
            forall|x: int, y: int| 0 <= x < i && 0 <= y < b.len() ==> a@[x]@ != b@[y]@,
        decreases a.len() - i,
    {
        let mut j: usize = 0;
        while j < b.len()
            invariant
                i < a.len(),
                j <= b.len(),
                forall|y: int| 0 <= y < j ==> a@[i as int]@ != b@[y]@,
            decreases b.len() - j,
        {
            if a[i] == b[j] {
                assert(string_views(a@)[i as int] == string_views(b@)[j as int]);
                return true;
            }
            j += 1;
        }
        i += 1;
    }
    assert forall|x: int, y: int|
        0 <= x < string_views(a@).len() && 0 <= y < string_views(b@).len() implies string_views(
        a@,
    )[x] != string_views(b@)[y] by {
        assert(a@[x]@ != b@[y]@);
    }
    false
}

impl MonitorService {
    /// A service in which nothing waits.
    pub fn new() -> (s: Self)
        ensures
            s@.wf(),
            s@ == (ServiceModel { waiting: Seq::empty(), next: 0 }),
    {
        let s = MonitorService { waiting: Vec::new(), next: 0 };
        assert(s@.waiting =~= Seq::empty());
        s
    }

    /// The number of handles that wait.
    pub fn n_waiting(&self) -> (n: usize)
        ensures
            n == self@.waiting.len(),
    {
        self.waiting.len()
    }

    /// Asks to wait for `expr`, which reads the state functions of
    /// `footprint`; `holds` tells what `expr` gave on the present state. A
    /// predicate that holds is not registered: the wait is over at once.
    /// Returns nothing when no handle is left.
    pub fn wait_for(&mut self, expr: LValue, footprint: Vec<String>, holds: bool) -> (r: Option<
        WaitOutcome,
    >)
        requires
            old(self)@.wf(),
        ensures
            final(self)@.wf(),
            final(self)@ == old(self)@.wait_for(expr@, string_views(footprint@), holds),
            r is None <==> old(self)@.next >= u64::MAX,
            r matches Some(o) ==> o == (if holds {
                WaitOutcome::Ready(old(self)@.next as WaitHandle)
            } else {
                WaitOutcome::Suspended(old(self)@.next as WaitHandle)
            }),
    {
        if self.next == u64::MAX {
            return None;
        }
        let h = self.next;
        let ghost before = self@;
        self.next = self.next + 1;
        if holds {
            assert(self@.waiting =~= before.waiting);
            Some(WaitOutcome::Ready(h))
        } else {
            let m = Monitor { handle: h, expr, footprint };
            self.waiting.push(m);
            assert(self@.waiting =~= before.waiting.push(m@));
            Some(WaitOutcome::Suspended(h))
        }
    }

    /// The place of the handle `h`, if it waits.
    fn find(&self, h: WaitHandle) -> (r: Option<usize>)
        requires
            self@.wf(),
        ensures
            r is Some <==> self@.waits(h),
            r matches Some(i) ==> i == self@.index_of(h) && i < self@.waiting.len(),
    {
        let mut i: usize = 0;
        while i < self.waiting.len()
            invariant
                i <= self.waiting.len(),
                self@.wf(),
                self@.waiting.len() == self.waiting@.len(),
                forall|j: int| 0 <= j < i ==> (#[trigger] self@.waiting[j]).handle != h,
            decreases self.waiting.len() - i,
        {
            assert(self@.waiting[i as int] == self.waiting@[i as int]@);
            if self.waiting[i].handle == h {
                proof {
                    lemma_index_of(self@, h, i as int);
                }
                return Some(i);
            }
            i += 1;
        }
        None
    }

    /// Withdraws the handle `h`, and tells whether it waited. Withdrawing a
    /// handle that does not wait changes nothing.
    pub fn cancel(&mut self, h: WaitHandle) -> (waited: bool)
        requires
            old(self)@.wf(),
        ensures
            final(self)@.wf(),
            waited == old(self)@.waits(h),
            final(self)@ == old(self)@.without(h),
    {
        let ghost before = self@;
        proof {
            lemma_without_wf(before, h);
        }
        match self.find(h) {
            Some(i) => {
                let _ = self.waiting.remove(i);
                assert(self@.waiting =~= before.waiting.remove(i as int));
                true
            },
            None => false,
        }
    }

    /// Takes what the predicate of `h` gave on the state that a write left,
    /// and tells whether the handle is woken: it is when it waits and the
    /// predicate holds, and it then waits no longer.
    pub fn report(&mut self, h: WaitHandle, holds: bool) -> (woken: bool)
        requires
            old(self)@.wf(),
        ensures
            final(self)@.wf(),
            woken == old(self)@.wakes(h, holds),
            final(self)@ == old(self)@.report(h, holds),
    {
        if holds {
            self.cancel(h)
        } else {
            false
        }
    }

    /// The handles whose predicates a write on the state functions of
    /// `written` may have changed, in the order in which they came: they are
    /// the ones to evaluate again.
    pub fn affected(&self, written: &Vec<String>) -> (r: Vec<WaitHandle>)
        requires
            self@.wf(),
        ensures
            forall|k: int|
                0 <= k < r@.len() ==> self@.touched(#[trigger] r@[k], string_views(written@)),
            forall|h: WaitHandle|
                self@.touched(h, string_views(written@)) ==> #[trigger] r@.contains(h),
            forall|a: int, b: int| 0 <= a < b < r@.len() ==> r@[a] < r@[b],
    {
        let mut r: Vec<WaitHandle> = Vec::new();
        let ghost w = string_views(written@);
        let mut i: usize = 0;
        while i < self.waiting.len()
            invariant
                i <= self.waiting.len(),
                self@.wf(),
                self@.waiting.len() == self.waiting@.len(),
                w == string_views(written@),
                forall|k: int| 0 <= k < r@.len() ==> self@.touched(#[trigger] r@[k], w),
                forall|k: int|
                    0 <= k < r@.len() && i < self.waiting.len() ==> #[trigger] r@[k]
                        < self@.waiting[i as int].handle,
                forall|j: int|
                    0 <= j < i && intersects((#[trigger] self@.waiting[j]).footprint, w)
                        ==> r@.contains(self@.waiting[j].handle),
                forall|a: int, b: int| 0 <= a < b < r@.len() ==> r@[a] < r@[b],
            decreases self.waiting.len() - i,
        {
            assert(self@.waiting[i as int] == self.waiting@[i as int]@);
            let ghost before = r@;
            if footprints_meet(&self.waiting[i].footprint, written) {
                r.push(self.waiting[i].handle);
                proof {
                    assert(r@[before.len() as int] == self@.waiting[i as int].handle);
                    assert forall|j: int|
                        0 <= j < i + 1 && intersects((#[trigger] self@.waiting[j]).footprint, w)
                        implies r@.contains(self@.waiting[j].handle) by {
                        if j < i {
                            let k = choose|k: int|
                                0 <= k < before.len() && before[k] == self@.waiting[j].handle;
                            assert(r@[k] == self@.waiting[j].handle);
                        }
                    }
                }
            }
            proof {
                if i + 1 < self.waiting.len() {
                    assert(self@.waiting[i as int].handle < self@.waiting[i as int + 1].handle);
                }
            }
            i += 1;
        }
        proof {
            assert forall|h: WaitHandle| self@.touched(h, w) implies #[trigger] r@.contains(h) by {
                let j = choose|j: int|
                    0 <= j < self@.waiting.len() && (#[trigger] self@.waiting[j]).handle == h
                        && intersects(self@.waiting[j].footprint, w);
                assert(r@.contains(self@.waiting[j].handle));
            }
        }
        r
    }
}

} // verus!
