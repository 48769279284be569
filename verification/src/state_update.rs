//! Who is told of which writes: subscribers register interest in state
//! functions, and a write is announced to those whose rule it matches.
use crate::lvalue::{clone_strings, string_views};
use crate::monitor::{footprints_meet, intersects};
use vstd::prelude::*;

verus! {

/// The identity of a subscriber: its place among the subscribers.
pub type SubscriberId = usize;

/// What a subscriber wants to hear of: every write, or the writes to some
/// state functions.
#[derive(Debug)]
pub enum StateRule {
    All,
    Specific(Vec<String>),
}

/// A rule, as contracts see it.
pub enum RuleModel {
    All,
    Specific(Seq<Seq<char>>),
}

impl View for StateRule {
    type V = RuleModel;

    open spec fn view(&self) -> RuleModel {
        match self {
            StateRule::All => RuleModel::All,
            StateRule::Specific(l) => RuleModel::Specific(string_views(l@)),
        }
    }
}

impl RuleModel {
    /// Tells whether a write to the state functions `written` is one that
    /// the rule asks for.
    pub open spec fn matches(self, written: Seq<Seq<char>>) -> bool {
        match self {
            RuleModel::All => true,
            RuleModel::Specific(l) => intersects(l, written),
        }
    }
}

impl Clone for StateRule {
    fn clone(&self) -> (r: Self)
        ensures
            r@ == self@,
    {
        match self {
            StateRule::All => StateRule::All,
            StateRule::Specific(l) => StateRule::Specific(clone_strings(l)),
        }
    }
}

impl StateRule {
    /// Tells whether a write to the state functions `written` is one that
    /// the rule asks for.
    pub fn is_matched(&self, written: &Vec<String>) -> (b: bool)
        ensures
            b == self@.matches(string_views(written@)),
    {
        match self {
            StateRule::All => true,
            StateRule::Specific(l) => footprints_meet(l, written),
        }
    }
}

/// The rules of a sequence of subscribers.
pub open spec fn rule_models(s: Seq<StateRule>) -> Seq<RuleModel> {
    Seq::new(s.len(), |i: int| s[i]@)
}

/// The subscribers whose place is below `n` and whose rule a write to
/// `written` matches, in the order of their places.
pub open spec fn matched(rules: Seq<RuleModel>, written: Seq<Seq<char>>, n: nat) -> Seq<
    SubscriberId,
>
    decreases n,
{
    if n == 0 || n > rules.len() {
        Seq::empty()
    } else if rules[n - 1].matches(written) {
        matched(rules, written, (n - 1) as nat).push((n - 1) as usize)
    } else {
        matched(rules, written, (n - 1) as nat)
    }
}

/// A subscriber is among the matched ones exactly when its rule matches the
/// write.
pub proof fn law_told_when_matched(
    rules: Seq<RuleModel>,
    written: Seq<Seq<char>>,
    n: nat,
    id: SubscriberId,
)
    requires
        n <= rules.len(),
        rules.len() <= usize::MAX,
    ensures
        matched(rules, written, n).contains(id) <==> id < n && rules[id as int].matches(written),
    decreases n,
{
    if n > 0 {
        law_told_when_matched(rules, written, (n - 1) as nat, id);
        let before = matched(rules, written, (n - 1) as nat);
        if rules[n - 1].matches(written) {
            let after = before.push((n - 1) as usize);
            if before.contains(id) {
                let k = choose|k: int| 0 <= k < before.len() && before[k] == id;
                assert(after[k] == id);
            }
            assert(after[before.len() as int] == (n - 1) as usize);
            if after.contains(id) && id != n - 1 {
                let k = choose|k: int| 0 <= k < after.len() && after[k] == id;
                assert(before[k] == id);
            }
        }
    }
}

/// The subscribers of the world state, each with its rule. A subscriber
/// keeps its identity for as long as the manager lives.
pub struct StateUpdateManager {
    rules: Vec<StateRule>,
}

impl View for StateUpdateManager {
    type V = Seq<RuleModel>;

    closed spec fn view(&self) -> Seq<RuleModel> {
        rule_models(self.rules@)
    }
}

impl StateUpdateManager {
    /// No subscriber.
    pub fn new() -> (m: Self)
        ensures
            m@.len() == 0,
    {
        StateUpdateManager { rules: Vec::new() }
    }

    /// The number of subscribers.
    pub fn len(&self) -> (n: usize)
        ensures
            n == self@.len(),
    {
        self.rules.len()
    }

    /// Registers a subscriber with its rule. Its identity is the number of
    /// subscribers that came before.
    pub fn subscribe(&mut self, rule: StateRule) -> (id: SubscriberId)
        ensures
            id == old(self)@.len(),
            final(self)@ == old(self)@.push(rule@),
    {
        let id = self.rules.len();
        self.rules.push(rule);
        assert(self@ =~= old(self)@.push(rule@));
        id
    }

    /// Gives the subscriber `id` another rule. Returns whether there is
    /// such a subscriber; nothing changes when there is none.
    pub fn update_rule(&mut self, id: SubscriberId, rule: StateRule) -> (known: bool)
        ensures
            known == (id < old(self)@.len()),
            known ==> final(self)@ == old(self)@.update(id as int, rule@),
            !known ==> final(self)@ == old(self)@,
    {
        if id < self.rules.len() {
            self.rules.set(id, rule);
            assert(self@ =~= old(self)@.update(id as int, rule@));
            true
        } else {
            false
        }
    }

    /// The rule of the subscriber `id`, if there is such a subscriber.
    pub fn rule_of(&self, id: SubscriberId) -> (r: Option<StateRule>)
        ensures
            r is Some <==> id < self@.len(),
            r matches Some(rule) ==> rule@ == self@[id as int],
    {
        if id < self.rules.len() {
            Some(self.rules[id].clone())
        } else {
            None
        }
    }

    /// The subscribers that a write to the state functions `written` is
    /// announced to: those whose rule matches it, in the order in which they
    /// subscribed.
    pub fn notified(&self, written: &Vec<String>) -> (ids: Vec<SubscriberId>)
        ensures
            ids@ == matched(self@, string_views(written@), self@.len()),
    {
        let mut ids: Vec<SubscriberId> = Vec::new();
        let mut i: usize = 0;
        while i < self.rules.len()
            invariant
                i <= self.rules.len(),
                ids@ == matched(self@, string_views(written@), i as nat),
            decreases self.rules.len() - i,
        {
            if self.rules[i].is_matched(written) {
                ids.push(i);
            }
            i += 1;
        }
        ids
    }
}

} // verus!
