//! What follows a committed write: which subscribers are told of it, and
//! which predicates the monitor service has to look at again.
use crate::lvalue::{string_views, LValue, Sexp};
use crate::monitor::{MonitorService, WaitHandle};
use crate::state::{head_of, state_function_of, StateType, WorldState};
use crate::state_update::{matched, StateUpdateManager, SubscriberId};
use vstd::prelude::*;

verus! {

/// The state functions that a write to the state variable `sv` touches: the
/// one that `sv` is a value of, if it is a value of one.
pub open spec fn footprint_of(sv: Sexp) -> Seq<Seq<char>> {
    match head_of(sv) {
        Some(label) => seq![label],
        None => Seq::empty(),
    }
}

/// The state functions that a write to the state variable `sv` touches.
pub fn footprint(sv: &LValue) -> (f: Vec<String>)
    ensures
        string_views(f@) == footprint_of(sv@),
{
    let mut f: Vec<String> = Vec::new();
    match state_function_of(sv) {
        Some(label) => {
            f.push(label);
            assert(string_views(f@) =~= seq![label@]);
        },
        None => {
            assert(string_views(f@) =~= Seq::<Seq<char>>::empty());
        },
    }
    f
}

/// Who has to hear of a write.
pub struct Notice {
    /// The subscribers whose rule the write matches, in the order in which
    /// they subscribed.
    pub subscribers: Vec<SubscriberId>,
    /// The handles of the predicates whose footprint the write touches, in
    /// the order in which they were registered.
    pub monitors: Vec<WaitHandle>,
}

/// Writes the fact that `sv` is `value` into the partition `kind`, and
/// tells who has to hear of it: the subscribers whose rule matches the state
/// function written, and the waiting predicates that read it, which are to
/// be evaluated again on the new state.
pub fn commit_fact(
    world: &mut WorldState,
    kind: StateType,
    sv: LValue,
    value: LValue,
    subscribers: &StateUpdateManager,
    monitors: &MonitorService,
) -> (notice: Notice)
    requires
        old(world)@.wf(),
        monitors@.wf(),
    ensures
        final(world)@.wf(),
        final(world)@ == old(world)@.with_facts(
            kind,
            old(world)@.facts(kind).insert(sv@, value@),
        ),
        notice.subscribers@ == matched(subscribers@, footprint_of(sv@), subscribers@.len()),
        forall|k: int|
            0 <= k < notice.monitors@.len() ==> monitors@.touched(
                #[trigger] notice.monitors@[k],
                footprint_of(sv@),
            ),
        forall|h: WaitHandle|
            monitors@.touched(h, footprint_of(sv@)) ==> #[trigger] notice.monitors@.contains(h),
        forall|a: int, b: int|
            0 <= a < b < notice.monitors@.len() ==> notice.monitors@[a] < notice.monitors@[b],
{
    let written = footprint(&sv);
    world.add_fact(kind, sv, value);
    Notice { subscribers: subscribers.notified(&written), monitors: monitors.affected(&written) }
}

} // verus!
