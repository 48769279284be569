//! The facts that the body of a method reads: those of the world, and for
//! each resource of which part is held the fact that it is locked.
use crate::lvalue::{lemma_list_model, models, LValue, Sexp};
use crate::resource::ResourceModel;
use crate::resource_manager::ResourceManager;
use crate::state::{FactsModel, PartialState, StateType, WorldModel, WorldState};
use vstd::prelude::*;

verus! {

/// The head of the state variable that tells that a resource is locked.
pub const LOCKED: &'static str = "locked";

/// The state variable that tells that the resource `label` is locked.
pub open spec fn locked_variable(label: Seq<char>) -> Sexp {
    Sexp::List(seq![Sexp::Symbol(LOCKED@), Sexp::Symbol(label)])
}

/// The facts `a` once the first `n` facts of `b` have been written over
/// them, one after the other.
pub open spec fn overlaid(a: FactsModel, b: FactsModel, n: nat) -> FactsModel
    decreases n,
{
    if n == 0 || n > b.keys.len() || n > b.values.len() {
        a
    } else {
        overlaid(a, b, (n - 1) as nat).insert(b.keys[n - 1], b.values[n - 1])
    }
}

/// The facts `f` once the locks of the first `n` resources have been
/// written: `(locked r)` is `true` for each resource `r` of which part is
/// held, and nothing is written for the others.
pub open spec fn with_locks(f: FactsModel, resources: Seq<ResourceModel>, n: nat) -> FactsModel
    decreases n,
{
    if n == 0 || n > resources.len() {
        f
    } else {
        let before = with_locks(f, resources, (n - 1) as nat);
        if resources[n - 1].locked() {
            before.insert(locked_variable(resources[n - 1].label), Sexp::True)
        } else {
            before
        }
    }
}

/// The facts of the three fact partitions of a world in one: the static
/// facts, over them the dynamic ones, over them those of the inner world.
pub open spec fn state_of(w: WorldModel) -> FactsModel {
    overlaid(
        overlaid(w.statics, w.dynamic, w.dynamic.keys.len()),
        w.inner_world,
        w.inner_world.keys.len(),
    )
}

/// Writes the facts of `over` over `base`, one after the other.
pub fn overlay(base: &mut PartialState, over: &PartialState)
    requires
        old(base)@.wf(),
        over@.wf(),
    ensures
        final(base)@.wf(),
        final(base)@ == overlaid(old(base)@, over@, over@.keys.len()),
{
    let n = over.len();
    let mut i: usize = 0;
    while i < n
        invariant
            i <= n,
            n == over@.keys.len(),
            over@.wf(),
            base@.wf(),
            base@ == overlaid(old(base)@, over@, i as nat),
        decreases n - i,
    {
        let (sv, value) = over.fact_at(i);
        base.insert(sv, value);
        i += 1;
    }
}

/// The state variable that tells that the resource `label` is locked.
pub fn locked_fact(label: &String) -> (sv: LValue)
    ensures
        sv@ == locked_variable(label@),
{
    let mut items: Vec<LValue> = Vec::new();
    items.push(LValue::symbol(LOCKED));
    items.push(LValue::Symbol(crate::lvalue::clone_string(label)));
    proof {
        lemma_list_model(items);
        assert(models(items@) =~= seq![Sexp::Symbol(LOCKED@), Sexp::Symbol(label@)]);
    }
    LValue::List(items)
}

/// The facts that a body reads: the facts of the world, and `(locked r)`
/// with the value `true` for exactly the resources `r` of which part is
/// held. The world and the resources stay as they are.
pub fn get_facts(world: &WorldState, resources: &ResourceManager) -> (facts: PartialState)
    requires
        world@.wf(),
        resources@.wf(),
    ensures
        facts@.wf(),
        facts@ == with_locks(state_of(world@), resources@.resources, resources@.resources.len()),
{
    let mut facts = world.get_partition(StateType::Static);
    let dynamic = world.get_partition(StateType::Dynamic);
    let inner = world.get_partition(StateType::InnerWorld);
    overlay(&mut facts, &dynamic);
    overlay(&mut facts, &inner);
    let ghost state = facts@;
    let labels = resources.resources();
    let mut i: usize = 0;
    while i < labels.len()
        invariant
            i <= labels.len(),
            labels@.len() == resources@.resources.len(),
            forall|k: int| 0 <= k < labels@.len() ==> labels@[k]@ == resources@.resources[k].label,
            resources@.wf(),
            facts@.wf(),
            facts@ == with_locks(state, resources@.resources, i as nat),
        decreases labels.len() - i,
    {
        proof {
            crate::resource_manager::lemma_index_of(resources@, labels@[i as int]@, i as int);
        }
        let locked = match resources.is_locked(labels[i].as_str()) {
            Ok(b) => b,
            Err(_) => false,
        };
        if locked {
            facts.insert(locked_fact(&labels[i]), LValue::True);
        }
        i += 1;
    }
    facts
}

} // verus!
