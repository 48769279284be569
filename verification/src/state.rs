//! The world state: facts kept in partitions, and snapshots of them.
use crate::instance::{CollectionModel, InstanceCollection};
use crate::lvalue::{LValue, Sexp};
use vstd::prelude::*;

verus! {

/// The partition that a fact belongs to.
#[derive(Clone, Copy, Debug, PartialEq, Eq, Structural)]
pub enum StateType {
    Static,
    Dynamic,
    InnerWorld,
    Instance,
}

/// A fact: a state variable and its value, with the instant at which the
/// value was observed, where it is known.
pub struct Fact {
    pub sv: LValue,
    pub value: LValue,
    pub timepoint: Option<u64>,
}

/// The instants of a sequence of facts.
pub open spec fn fact_times(s: Seq<Fact>) -> Seq<Option<u64>> {
    Seq::new(s.len(), |i: int| s[i].timepoint)
}

/// The instants once the state variable `sv` has been written at `t`: the
/// instant of a state variable that had a value is replaced, that of a new
/// one goes to the end.
pub open spec fn written_at(times: Seq<Option<u64>>, facts: FactsModel, sv: Sexp, t: Option<u64>) -> Seq<
    Option<u64>,
> {
    if facts.has(sv) {
        times.update(facts.index_of(sv), t)
    } else {
        times.push(t)
    }
}

/// The facts of one partition, in the order in which their state variables
/// first came in. No state variable occurs twice.
pub struct PartialState {
    facts: Vec<Fact>,
}

/// The state variables of a sequence of facts.
pub open spec fn fact_keys(s: Seq<Fact>) -> Seq<Sexp> {
    Seq::new(s.len(), |i: int| s[i].sv@)
}

/// The values of a sequence of facts.
pub open spec fn fact_values(s: Seq<Fact>) -> Seq<Sexp> {
    Seq::new(s.len(), |i: int| s[i].value@)
}

/// Facts, as contracts see them: state variables and their values, place by
/// place.
pub struct FactsModel {
    pub keys: Seq<Sexp>,
    pub values: Seq<Sexp>,
}

impl FactsModel {
    /// No fact.
    pub open spec fn empty() -> FactsModel {
        FactsModel { keys: Seq::empty(), values: Seq::empty() }
    }

    /// There is one value for each state variable, and no state variable
    /// occurs twice.
    pub open spec fn wf(self) -> bool {
        &&& self.keys.len() == self.values.len()
        &&& forall|i: int, j: int| 0 <= i < j < self.keys.len() ==> self.keys[i] != self.keys[j]
    }

    /// Tells whether the state variable `sv` has a value.
    pub open spec fn has(self, sv: Sexp) -> bool {
        self.keys.contains(sv)
    }

    /// The place of the state variable `sv`, where it has a value.
    pub open spec fn index_of(self, sv: Sexp) -> int {
        choose|i: int| 0 <= i < self.keys.len() && self.keys[i] == sv
    }

    /// The value of the state variable `sv`; `nil` where it has none.
    pub open spec fn get(self, sv: Sexp) -> Sexp {
        if self.has(sv) {
            self.values[self.index_of(sv)]
        } else {
            Sexp::Nil
        }
    }

    /// The facts once `sv` has the value `v`: a state variable that had a
    /// value keeps its place, a new one goes to the end.
    pub open spec fn insert(self, sv: Sexp, v: Sexp) -> FactsModel {
        if self.has(sv) {
            FactsModel { values: self.values.update(self.index_of(sv), v), ..self }
        } else {
            FactsModel { keys: self.keys.push(sv), values: self.values.push(v) }
        }
    }

    /// The facts once `sv` has no value.
    pub open spec fn remove(self, sv: Sexp) -> FactsModel {
        if self.has(sv) {
            FactsModel {
                keys: self.keys.remove(self.index_of(sv)),
                values: self.values.remove(self.index_of(sv)),
            }
        } else {
            self
        }
    }

    /// The facts once the fact that `sv` is `v` has been retracted: nothing
    /// changes unless `sv` has that very value.
    pub open spec fn retract(self, sv: Sexp, v: Sexp) -> FactsModel {
        if self.has(sv) && self.get(sv) == v {
            self.remove(sv)
        } else {
            self
        }
    }
}

/// A state variable has one place at most.
pub proof fn lemma_fact_index(m: FactsModel, sv: Sexp, i: int)
    requires
        m.wf(),
        0 <= i < m.keys.len(),
        m.keys[i] == sv,
    ensures
        m.has(sv),
        m.index_of(sv) == i,
{
    let j = m.index_of(sv);
    if i < j {
        assert(m.keys[i] != m.keys[j]);
    } else if j < i {
        assert(m.keys[j] != m.keys[i]);
    }
}

/// Writing and removing facts keeps the facts well formed; a fact that was
/// written is read back, and the other state variables keep their values.
pub proof fn law_facts_read_back(m: FactsModel, sv: Sexp, v: Sexp, other: Sexp)
    requires
        m.wf(),
    ensures
        m.insert(sv, v).wf(),
        m.remove(sv).wf(),
        m.retract(sv, v).wf(),
        m.insert(sv, v).get(sv) == v,
        !m.remove(sv).has(sv),
        other != sv ==> m.insert(sv, v).get(other) == m.get(other),
        other != sv ==> m.remove(sv).get(other) == m.get(other),
{
    let a = m.insert(sv, v);
    if m.has(sv) {
        let i = m.index_of(sv);
        lemma_fact_index(a, sv, i);
        if other != sv && m.has(other) {
            let j = m.index_of(other);
            lemma_fact_index(a, other, j);
        }
        if other != sv && a.has(other) {
            let j = a.index_of(other);
            assert(m.keys[j] == other);
        }
    } else {
        assert forall|i: int, j: int| 0 <= i < j < a.keys.len() implies a.keys[i]
            != a.keys[j] by {
            if j == m.keys.len() {
                assert(m.keys[i] != sv);
            }
        }
        lemma_fact_index(a, sv, m.keys.len() as int);
        if other != sv && m.has(other) {
            let j = m.index_of(other);
            lemma_fact_index(a, other, j);
        }
        if other != sv && a.has(other) {
            let j = a.index_of(other);
            assert(j < m.keys.len());
            assert(m.keys[j] == other);
        }
    }
    let r = m.remove(sv);
    if m.has(sv) {
        let i = m.index_of(sv);
        assert forall|a0: int, b0: int| 0 <= a0 < b0 < r.keys.len() implies r.keys[a0]
            != r.keys[b0] by {
            let a1 = if a0 < i { a0 } else { a0 + 1 };
            let b1 = if b0 < i { b0 } else { b0 + 1 };
            assert(r.keys[a0] == m.keys[a1]);
            assert(r.keys[b0] == m.keys[b1]);
        }
        if r.has(sv) {
            let k = choose|k: int| 0 <= k < r.keys.len() && r.keys[k] == sv;
            let k1 = if k < i { k } else { k + 1 };
            assert(r.keys[k] == m.keys[k1]);
            lemma_fact_index(m, sv, k1);
        }
        if other != sv && m.has(other) {
            let j = m.index_of(other);
            let j0 = if j < i { j } else { j - 1 };
            assert(r.keys[j0] == other);
            lemma_fact_index(r, other, j0);
        }
        if other != sv && r.has(other) {
            let j0 = r.index_of(other);
            let j = if j0 < i { j0 } else { j0 + 1 };
            assert(m.keys[j] == other);
            lemma_fact_index(m, other, j);
        }
    }
}

impl View for PartialState {
    type V = FactsModel;

    closed spec fn view(&self) -> FactsModel {
        FactsModel { keys: fact_keys(self.facts@), values: fact_values(self.facts@) }
    }
}

impl Clone for PartialState {
    fn clone(&self) -> (r: Self)
        ensures
            r@ == self@,
            r.times() == self.times(),
    {
        let mut facts: Vec<Fact> = Vec::new();
        let mut i: usize = 0;
        while i < self.facts.len()
            invariant
                i <= self.facts.len(),
                facts@.len() == i,
                forall|j: int|
                    0 <= j < i ==> facts@[j].sv@ == self.facts@[j].sv@ && facts@[j].value@
                        == self.facts@[j].value@ && facts@[j].timepoint
                        == self.facts@[j].timepoint,
            decreases self.facts.len() - i,
        {
            facts.push(
                Fact {
                    sv: self.facts[i].sv.clone(),
                    value: self.facts[i].value.clone(),
                    timepoint: self.facts[i].timepoint,
                },
            );
            i += 1;
        }
        let r = PartialState { facts };
        assert(r@.keys =~= self@.keys);
        assert(r@.values =~= self@.values);
        assert(r.times() =~= self.times());
        r
    }
}

impl PartialState {
    /// The instants of the facts, place by place: when each value was
    /// observed, where that is known.
    pub closed spec fn times(self) -> Seq<Option<u64>> {
        fact_times(self.facts@)
    }

    /// No fact.
    pub fn new() -> (s: Self)
        ensures
            s@.wf(),
            s@.keys.len() == 0,
            s@ == FactsModel::empty(),
            s.times() == Seq::<Option<u64>>::empty(),
    {
        let s = PartialState { facts: Vec::new() };
        assert(s@.keys =~= Seq::<Sexp>::empty());
        assert(s@.values =~= Seq::<Sexp>::empty());
        assert(s.times() =~= Seq::<Option<u64>>::empty());
        s
    }

    /// States that there is one instant for each fact. It does nothing when
    /// run.
    pub fn times_fit(&self)
        ensures
            self.times().len() == self@.keys.len(),
    {
    }

    /// The instant at which the value of `sv` was observed, where `sv` has a
    /// value and the instant is known.
    pub fn time_of(&self, sv: &LValue) -> (t: Option<u64>)
        requires
            self@.wf(),
        ensures
            t == (if self@.has(sv@) {
                self.times()[self@.index_of(sv@)]
            } else {
                None
            }),
    {
        match self.position(sv) {
            Some(i) => self.facts[i].timepoint,
            None => None,
        }
    }

    /// Gives the state variable `sv` the value `value`, observed at the
    /// instant `at`.
    pub fn insert_at(&mut self, sv: LValue, value: LValue, at: u64)
        requires
            old(self)@.wf(),
        ensures
            final(self)@.wf(),
            final(self)@ == old(self)@.insert(sv@, value@),
            final(self).times() == written_at(old(self).times(), old(self)@, sv@, Some(at)),
    {
        self.write(sv, value, Some(at))
    }

    /// The number of facts.
    pub fn len(&self) -> (n: usize)
        ensures
            n == self@.keys.len(),
    {
        self.facts.len()
    }

    /// The place of the state variable `sv`, if it has a value.
    fn position(&self, sv: &LValue) -> (r: Option<usize>)
        requires
            self@.wf(),
        ensures
            r is Some <==> self@.has(sv@),
            r matches Some(i) ==> i == self@.index_of(sv@) && i < self@.keys.len(),
    {
        let mut i: usize = 0;
        while i < self.facts.len()
            invariant
                i <= self.facts.len(),
                self@.wf(),
                forall|j: int| 0 <= j < i ==> self@.keys[j] != sv@,
            decreases self.facts.len() - i,
        {
            if self.facts[i].sv.same(sv) {
                proof {
                    assert(self@.keys[i as int] == sv@);
                    lemma_fact_index(self@, sv@, i as int);
                }
                return Some(i);
            }
            assert(self@.keys[i as int] == self.facts@[i as int].sv@);
            i += 1;
        }
        None
    }

    /// The value of the state variable `sv`; `nil` where it has none.
    pub fn get(&self, sv: &LValue) -> (v: LValue)
        requires
            self@.wf(),
        ensures
            v@ == self@.get(sv@),
    {
        match self.position(sv) {
            Some(i) => self.facts[i].value.clone(),
            None => LValue::Nil,
        }
    }

    /// Gives the state variable `sv` the value `value`, observed at no known
    /// instant.
    pub fn insert(&mut self, sv: LValue, value: LValue)
        requires
            old(self)@.wf(),
        ensures
            final(self)@.wf(),
            final(self)@ == old(self)@.insert(sv@, value@),
            final(self).times() == written_at(old(self).times(), old(self)@, sv@, None),
    {
        self.write(sv, value, None)
    }

    /// Writes a fact with its instant.
    fn write(&mut self, sv: LValue, value: LValue, timepoint: Option<u64>)
        requires
            old(self)@.wf(),
        ensures
            final(self)@.wf(),
            final(self)@ == old(self)@.insert(sv@, value@),
            final(self).times() == written_at(old(self).times(), old(self)@, sv@, timepoint),
    {
        proof {
            law_facts_read_back(old(self)@, sv@, value@, sv@);
        }
        match self.position(&sv) {
            Some(i) => {
                self.facts.set(i, Fact { sv, value, timepoint });
                assert(self@.keys =~= old(self)@.keys);
                assert(self@.values =~= old(self)@.values.update(i as int, value@));
                assert(self.times() =~= old(self).times().update(i as int, timepoint));
            },
            None => {
                self.facts.push(Fact { sv, value, timepoint });
                assert(self@.keys =~= old(self)@.keys.push(sv@));
                assert(self@.values =~= old(self)@.values.push(value@));
                assert(self.times() =~= old(self).times().push(timepoint));
            },
        }
    }

    /// Takes away the fact that `sv` is `value`. Retracting a fact that does
    /// not hold changes nothing.
    pub fn retract(&mut self, sv: &LValue, value: &LValue)
        requires
            old(self)@.wf(),
        ensures
            final(self)@.wf(),
            final(self)@ == old(self)@.retract(sv@, value@),
            final(self).times() == (if old(self)@.has(sv@) && old(self)@.get(sv@) == value@ {
                old(self).times().remove(old(self)@.index_of(sv@))
            } else {
                old(self).times()
            }),
    {
        proof {
            law_facts_read_back(old(self)@, sv@, value@, sv@);
        }
        match self.position(sv) {
            Some(i) => {
                if self.facts[i].value.same(value) {
                    let _ = self.facts.remove(i);
                    assert(self@.keys =~= old(self)@.keys.remove(i as int));
                    assert(self@.values =~= old(self)@.values.remove(i as int));
                    assert(self.times() =~= old(self).times().remove(i as int));
                }
            },
            None => {},
        }
    }

    /// The state variable and the value at place `i`.
    pub fn fact_at(&self, i: usize) -> (f: (LValue, LValue))
        requires
            i < self@.keys.len(),
        ensures
            f.0@ == self@.keys[i as int],
            f.1@ == self@.values[i as int],
    {
        (self.facts[i].sv.clone(), self.facts[i].value.clone())
    }
}

/// The head of a state variable: the state function that it is a value of.
/// A symbol is its own head; a list has the symbol that it begins with.
pub open spec fn head_of(sv: Sexp) -> Option<Seq<char>> {
    match sv {
        Sexp::Symbol(s) => Some(s),
        Sexp::List(l) => if l.len() > 0 && l[0] is Symbol {
            Some(l[0]->Symbol_0)
        } else {
            None
        },
        _ => None,
    }
}

/// The state function that the state variable `sv` is a value of, if any.
pub fn state_function_of(sv: &LValue) -> (r: Option<String>)
    ensures
        r is Some <==> head_of(sv@) is Some,
        r matches Some(s) ==> Some(s@) == head_of(sv@),
{
    match sv {
        LValue::Symbol(s) => Some(s.clone()),
        LValue::List(l) => {
            proof {
                crate::lvalue::lemma_list_model(*l);
                if l@.len() > 0 {
                    assert(crate::lvalue::models(l@)[0] == l@[0]@);
                }
            }
            if l.len() > 0 {
                match &l[0] {
                    LValue::Symbol(s) => Some(s.clone()),
                    _ => None,
                }
            } else {
                None
            }
        },
        _ => None,
    }
}

/// A copy of the partitions, taken at one instant.
pub struct WorldStateSnapshot {
    pub statics: PartialState,
    pub dynamic: PartialState,
    pub inner_world: PartialState,
    pub instance: InstanceCollection,
}

/// The world state, as contracts see it.
pub struct WorldModel {
    pub statics: FactsModel,
    pub dynamic: FactsModel,
    pub inner_world: FactsModel,
    pub instance: CollectionModel,
}

impl WorldModel {
    /// The world in which an engine starts: no fact in any partition, and
    /// the root type without instances.
    pub open spec fn initial() -> WorldModel {
        WorldModel {
            statics: FactsModel::empty(),
            dynamic: FactsModel::empty(),
            inner_world: FactsModel::empty(),
            instance: CollectionModel::initial(),
        }
    }

    /// Every partition is well formed.
    pub open spec fn wf(self) -> bool {
        self.statics.wf() && self.dynamic.wf() && self.inner_world.wf() && self.instance.wf()
    }

    /// The facts of one of the three fact partitions.
    pub open spec fn facts(self, kind: StateType) -> FactsModel {
        match kind {
            StateType::Static => self.statics,
            StateType::Dynamic => self.dynamic,
            StateType::InnerWorld => self.inner_world,
            StateType::Instance => FactsModel { keys: Seq::empty(), values: Seq::empty() },
        }
    }

    /// The world once the facts of `kind` are `f`. The instance partition
    /// holds no such facts and is left as it is.
    pub open spec fn with_facts(self, kind: StateType, f: FactsModel) -> WorldModel {
        match kind {
            StateType::Static => WorldModel { statics: f, ..self },
            StateType::Dynamic => WorldModel { dynamic: f, ..self },
            StateType::InnerWorld => WorldModel { inner_world: f, ..self },
            StateType::Instance => self,
        }
    }
}

impl View for WorldStateSnapshot {
    type V = WorldModel;

    open spec fn view(&self) -> WorldModel {
        WorldModel {
            statics: self.statics@,
            dynamic: self.dynamic@,
            inner_world: self.inner_world@,
            instance: self.instance@,
        }
    }
}

/// The world state of an engine.
pub struct WorldState {
    statics: PartialState,
    dynamic: PartialState,
    inner_world: PartialState,
    instance: InstanceCollection,
}

impl View for WorldState {
    type V = WorldModel;

    closed spec fn view(&self) -> WorldModel {
        WorldModel {
            statics: self.statics@,
            dynamic: self.dynamic@,
            inner_world: self.inner_world@,
            instance: self.instance@,
        }
    }
}

impl WorldState {
    /// A world without facts, with the root type only, which has no
    /// instance.
    pub fn new() -> (w: Self)
        ensures
            w@.wf(),
            w@ == WorldModel::initial(),
            w@.statics.keys.len() == 0,
            w@.dynamic.keys.len() == 0,
            w@.inner_world.keys.len() == 0,
            w@.instance.types.len() == 1,
    {
        WorldState {
            statics: PartialState::new(),
            dynamic: PartialState::new(),
            inner_world: PartialState::new(),
            instance: InstanceCollection::new(),
        }
    }

    /// A copy of the facts of one partition. The instance partition holds no
    /// facts of this form: its copy is empty.
    pub fn get_partition(&self, kind: StateType) -> (p: PartialState)
        requires
            self@.wf(),
        ensures
            p@.wf(),
            p@ == self@.facts(kind),
    {
        match kind {
            StateType::Static => self.statics.clone(),
            StateType::Dynamic => self.dynamic.clone(),
            StateType::InnerWorld => self.inner_world.clone(),
            StateType::Instance => {
                let p = PartialState::new();
                assert(p@.keys =~= Seq::empty());
                assert(p@.values =~= Seq::empty());
                p
            },
        }
    }

    /// A copy of all partitions, taken at once.
    pub fn get_snapshot(&self) -> (s: WorldStateSnapshot)
        ensures
            s@ == self@,
    {
        WorldStateSnapshot {
            statics: self.statics.clone(),
            dynamic: self.dynamic.clone(),
            inner_world: self.inner_world.clone(),
            instance: self.instance.get_snapshot(),
        }
    }

    /// The instants of the facts of one partition, place by place.
    pub closed spec fn times(self, kind: StateType) -> Seq<Option<u64>> {
        match kind {
            StateType::Static => self.statics.times(),
            StateType::Dynamic => self.dynamic.times(),
            StateType::InnerWorld => self.inner_world.times(),
            StateType::Instance => Seq::empty(),
        }
    }

    /// Writes the fact that `sv` is `value`, observed at the instant `at`,
    /// into the partition `kind`. Nothing is written into the instance
    /// partition this way.
    pub fn add_fact_at(&mut self, kind: StateType, sv: LValue, value: LValue, at: u64)
        requires
            old(self)@.wf(),
        ensures
            final(self)@.wf(),
            final(self)@ == old(self)@.with_facts(
                kind,
                old(self)@.facts(kind).insert(sv@, value@),
            ),
            kind != StateType::Instance ==> final(self).times(kind) == written_at(
                old(self).times(kind),
                old(self)@.facts(kind),
                sv@,
                Some(at),
            ),
            forall|other: StateType|
                other != kind ==> #[trigger] final(self).times(other) == old(self).times(other),
    {
        match kind {
            StateType::Static => self.statics.insert_at(sv, value, at),
            StateType::Dynamic => self.dynamic.insert_at(sv, value, at),
            StateType::InnerWorld => self.inner_world.insert_at(sv, value, at),
            StateType::Instance => {},
        }
    }

    /// The instant at which the value of `sv` in the partition `kind` was
    /// observed, where `sv` has a value there and the instant is known.
    pub fn fact_time(&self, kind: StateType, sv: &LValue) -> (t: Option<u64>)
        requires
            self@.wf(),
        ensures
            t == (if kind != StateType::Instance && self@.facts(kind).has(sv@) {
                self.times(kind)[self@.facts(kind).index_of(sv@)]
            } else {
                None
            }),
    {
        match kind {
            StateType::Static => self.statics.time_of(sv),
            StateType::Dynamic => self.dynamic.time_of(sv),
            StateType::InnerWorld => self.inner_world.time_of(sv),
            StateType::Instance => None,
        }
    }

    /// Writes the fact that `sv` is `value` into the partition `kind`, at no
    /// known instant. A state variable that had a value gets the new one.
    /// Nothing is written into the instance partition this way.
    pub fn add_fact(&mut self, kind: StateType, sv: LValue, value: LValue)
        requires
            old(self)@.wf(),
        ensures
            final(self)@.wf(),
            final(self)@ == old(self)@.with_facts(
                kind,
                old(self)@.facts(kind).insert(sv@, value@),
            ),
            kind != StateType::Instance ==> final(self).times(kind) == written_at(
                old(self).times(kind),
                old(self)@.facts(kind),
                sv@,
                None,
            ),
    {
        match kind {
            StateType::Static => self.statics.insert(sv, value),
            StateType::Dynamic => self.dynamic.insert(sv, value),
            StateType::InnerWorld => self.inner_world.insert(sv, value),
            StateType::Instance => {},
        }
    }

    /// Takes the fact that `sv` is `value` out of the partition `kind`.
    /// Retracting a fact that does not hold changes nothing.
    pub fn retract_fact(&mut self, kind: StateType, sv: &LValue, value: &LValue)
        requires
            old(self)@.wf(),
        ensures
            final(self)@.wf(),
            final(self)@ == old(self)@.with_facts(
                kind,
                old(self)@.facts(kind).retract(sv@, value@),
            ),
    {
        match kind {
            StateType::Static => self.statics.retract(sv, value),
            StateType::Dynamic => self.dynamic.retract(sv, value),
            StateType::InnerWorld => self.inner_world.retract(sv, value),
            StateType::Instance => {},
        }
    }

    /// The value of the state variable `sv` in the partition `kind`; `nil`
    /// where it has none.
    pub fn get_fact(&self, kind: StateType, sv: &LValue) -> (v: LValue)
        requires
            self@.wf(),
        ensures
            v@ == self@.facts(kind).get(sv@),
    {
        match kind {
            StateType::Static => self.statics.get(sv),
            StateType::Dynamic => self.dynamic.get(sv),
            StateType::InnerWorld => self.inner_world.get(sv),
            StateType::Instance => LValue::Nil,
        }
    }

    /// Declares the type `t` under the type `parent`, or under the root type.
    pub fn add_type(&mut self, t: &str, parent: Option<&str>)
        requires
            old(self)@.wf(),
        ensures
            final(self)@.wf(),
            final(self)@ == (WorldModel {
                instance: old(self)@.instance.add_type(
                    t@,
                    match parent {
                        Some(p) => Some(p@),
                        None => None,
                    },
                ),
                ..old(self)@
            }),
    {
        self.instance.add_type(t, parent)
    }

    /// Tags the object `obj` with the type `t`; a type that is not known is
    /// first declared under the root type.
    pub fn add_instance(&mut self, obj: &str, t: &str)
        requires
            old(self)@.wf(),
        ensures
            final(self)@.wf(),
            final(self)@ == (WorldModel {
                instance: old(self)@.instance.add_instance(obj@, t@),
                ..old(self)@
            }),
    {
        self.instance.add_instance(obj, t)
    }

    /// Tells whether `obj` is tagged with the type `t` or with a type below
    /// it.
    pub fn instance_of(&self, obj: &str, t: &str) -> (b: bool)
        requires
            self@.wf(),
        ensures
            b == self@.instance.instance_of(obj@, t@),
    {
        self.instance.is_of_type(obj, t)
    }

    /// The objects tagged with the type `t` or with a type below it.
    pub fn instances(&self, t: &str) -> (v: Vec<String>)
        requires
            self@.wf(),
        ensures
            !self@.instance.known(t@) ==> v@.len() == 0,
            self@.instance.known(t@) ==> crate::lvalue::string_views(v@) == self@.instance.gather(
                self@.instance.index_of(t@),
                self@.instance.types.len(),
            ),
            crate::lvalue::string_views(v@).no_duplicates(),
    {
        self.instance.get_instances(t)
    }
}

} // verus!
