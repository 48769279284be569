//! The policies that order the candidate methods of a task.
use crate::functions::{gives, is_type_error};
use crate::lruntimeerror::{LResult, LRuntimeError};
use crate::lvalue::{lemma_list_model, models, KindLValue, LValue, Sexp};
use vstd::prelude::*;

verus! {

/// The context of the errors of `sort_greedy`.
pub const SELECT_FIRST: &'static str = "select_first_applicable_method";

/// The head of a method instance: its first item when it is a list with
/// items, `nil` otherwise.
pub open spec fn head_or_nil(s: Sexp) -> Sexp {
    if s is List && s->List_0.len() > 0 {
        s->List_0[0]
    } else {
        Sexp::Nil
    }
}

/// Keeps the order of the methods and returns the head of each of them;
/// `nil` when there is none.
pub fn sort_greedy(methods: LValue) -> (r: LResult)
    ensures
        methods@ is Nil ==> gives(r, Sexp::Nil),
        methods@ is List && methods@->List_0.len() == 0 ==> gives(r, Sexp::Nil),
        methods@ is List && methods@->List_0.len() > 0 ==> gives(
            r,
            Sexp::List(Seq::new(methods@->List_0.len(), |i: int| head_or_nil(methods@->List_0[i]))),
        ),
        !(methods@ is Nil) && !(methods@ is List) ==> is_type_error(
            r,
            methods@,
            SELECT_FIRST@,
            KindLValue::List,
        ),
{
    match &methods {
        LValue::List(l) => {
            proof {
                lemma_list_model(*l);
            }
            if l.len() == 0 {
                Ok(LValue::Nil)
            } else {
                let mut sorted: Vec<LValue> = Vec::new();
                let mut i: usize = 0;
                while i < l.len()
                    invariant
                        i <= l.len(),
                        sorted@.len() == i,
                        forall|j: int| 0 <= j < i ==> sorted@[j]@ == head_or_nil(l@[j]@),
                    decreases l.len() - i,
                {
                    let head = match &l[i] {
                        LValue::List(list) => {
                            proof {
                                lemma_list_model(*list);
                            }
                            if list.len() > 0 {
                                assert(models(list@)[0] == list@[0]@);
                                list[0].clone()
                            } else {
                                LValue::Nil
                            }
                        },
                        _ => LValue::Nil,
                    };
                    sorted.push(head);
                    i += 1;
                }
                assert(models(sorted@) =~= Seq::new(
                    methods@->List_0.len(),
                    |i: int| head_or_nil(methods@->List_0[i]),
                ));
                Ok(LValue::list(sorted))
            }
        },
        LValue::Nil => Ok(LValue::Nil),
        other => Err(LRuntimeError::wrong_type(SELECT_FIRST, other, KindLValue::List)),
    }
}

/// A candidate method of a task: the instance of the method, whether its
/// pre-conditions hold on the present state, the score and the cost that its
/// expressions gave. A cost that is not known is infinite.
pub struct Candidate {
    pub method: LValue,
    pub applicable: bool,
    pub score: i64,
    pub cost: Option<u64>,
}

/// A candidate, as contracts see it.
pub struct CandidateModel {
    pub method: Sexp,
    pub applicable: bool,
    pub score: int,
    pub cost: Option<nat>,
}

impl View for Candidate {
    type V = CandidateModel;

    open spec fn view(&self) -> CandidateModel {
        CandidateModel {
            method: self.method@,
            applicable: self.applicable,
            score: self.score as int,
            cost: match self.cost {
                Some(c) => Some(c as nat),
                None => None,
            },
        }
    }
}

/// The models of a sequence of candidates.
pub open spec fn candidate_models(s: Seq<Candidate>) -> Seq<CandidateModel> {
    Seq::new(s.len(), |i: int| s[i]@)
}

/// The applicable candidates among the first `n`, in the order of their
/// declaration.
pub open spec fn applicable_of(c: Seq<CandidateModel>, n: nat) -> Seq<CandidateModel>
    decreases n,
{
    if n == 0 || n > c.len() {
        Seq::empty()
    } else if c[n - 1].applicable {
        applicable_of(c, (n - 1) as nat).push(c[n - 1])
    } else {
        applicable_of(c, (n - 1) as nat)
    }
}

/// The methods of a sequence of candidates.
pub open spec fn methods_of(c: Seq<CandidateModel>) -> Seq<Sexp> {
    Seq::new(c.len(), |i: int| c[i].method)
}

/// Tells whether `pos` is where a candidate of the score `score` enters a
/// ranking: behind every candidate of the same or of a higher score, in front
/// of every candidate of a lower one.
pub open spec fn is_rank(r: Seq<CandidateModel>, score: int, pos: int) -> bool {
    &&& 0 <= pos <= r.len()
    &&& forall|j: int| 0 <= j < pos ==> r[j].score >= score
    &&& forall|j: int| pos <= j < r.len() ==> r[j].score < score
}

/// The place at which a candidate of the score `score` enters the ranking.
pub open spec fn rank_of(r: Seq<CandidateModel>, score: int) -> int {
    choose|pos: int| is_rank(r, score, pos)
}

/// Tells whether the scores of a ranking never rise.
pub open spec fn by_score(r: Seq<CandidateModel>) -> bool {
    forall|i: int, j: int| 0 <= i < j < r.len() ==> r[i].score >= r[j].score
}

/// The ranking of the applicable candidates among the first `n`: each enters
/// in turn at its rank, so that the scores never rise and candidates of the
/// same score keep the order of their declaration.
pub open spec fn ranked(c: Seq<CandidateModel>, n: nat) -> Seq<CandidateModel>
    decreases n,
{
    if n == 0 || n > c.len() {
        Seq::empty()
    } else if c[n - 1].applicable {
        let before = ranked(c, (n - 1) as nat);
        before.insert(rank_of(before, c[n - 1].score), c[n - 1])
    } else {
        ranked(c, (n - 1) as nat)
    }
}

/// A candidate enters a ranking at one place only.
pub proof fn lemma_rank_of(r: Seq<CandidateModel>, score: int, pos: int)
    requires
        is_rank(r, score, pos),
    ensures
        rank_of(r, score) == pos,
{
    let j = rank_of(r, score);
    if j < pos {
        assert(r[j].score >= score);
    } else if pos < j {
        assert(r[pos].score >= score);
    }
}

/// The greedy policy: the candidates whose pre-conditions hold, in the order
/// of their declaration.
pub fn greedy(candidates: &Vec<Candidate>) -> (r: Vec<LValue>)
    ensures
        models(r@) == methods_of(
            applicable_of(candidate_models(candidates@), candidates@.len()),
        ),
{
    let mut r: Vec<LValue> = Vec::new();
    let ghost c = candidate_models(candidates@);
    let mut i: usize = 0;
    while i < candidates.len()
        invariant
            i <= candidates.len(),
            c == candidate_models(candidates@),
            r@.len() == applicable_of(c, i as nat).len(),
            forall|j: int| 0 <= j < r@.len() ==> r@[j]@ == applicable_of(c, i as nat)[j].method,
        decreases candidates.len() - i,
    {
        assert(c[i as int] == candidates@[i as int]@);
        if candidates[i].applicable {
            r.push(candidates[i].method.clone());
        }
        i += 1;
    }
    assert(models(r@) =~= methods_of(applicable_of(c, candidates@.len())));
    r
}

/// The score-ranked policy: the candidates whose pre-conditions hold, by
/// falling score; candidates of the same score keep the order of their
/// declaration.
pub fn score_ranked(candidates: &Vec<Candidate>) -> (r: Vec<LValue>)
    ensures
        models(r@) == methods_of(ranked(candidate_models(candidates@), candidates@.len())),
        by_score(ranked(candidate_models(candidates@), candidates@.len())),
{
    let mut r: Vec<LValue> = Vec::new();
    let mut scores: Vec<i64> = Vec::new();
    let ghost c = candidate_models(candidates@);
    let mut i: usize = 0;
    while i < candidates.len()
        invariant
            i <= candidates.len(),
            c == candidate_models(candidates@),
            r@.len() == ranked(c, i as nat).len(),
            forall|j: int| 0 <= j < r@.len() ==> r@[j]@ == ranked(c, i as nat)[j].method,
            scores@.len() == ranked(c, i as nat).len(),
            forall|j: int| 0 <= j < scores@.len() ==> scores@[j] == ranked(c, i as nat)[j].score,
            by_score(ranked(c, i as nat)),
        decreases candidates.len() - i,
    {
        assert(c[i as int] == candidates@[i as int]@);
        if candidates[i].applicable {
            let score = candidates[i].score;
            let ghost before = ranked(c, i as nat);
            let mut pos: usize = 0;
            while pos < scores.len() && scores[pos] >= score
                invariant
                    pos <= scores.len(),
                    scores@.len() == before.len(),
                    by_score(before),
                    forall|j: int| 0 <= j < scores@.len() ==> scores@[j] == before[j].score,
                    forall|j: int| 0 <= j < pos ==> before[j].score >= score,
                decreases scores.len() - pos,
            {
                pos += 1;
            }
            proof {
                assert(is_rank(before, score as int, pos as int)) by {
                    assert forall|j: int| pos <= j < before.len() implies before[j].score
                        < score by {
                        assert(before[pos as int].score < score);
                        if j > pos {
                            assert(before[pos as int].score >= before[j].score);
                        }
                    }
                }
                lemma_rank_of(before, score as int, pos as int);
            }
            let ghost r0 = r@;
            r.insert(pos, candidates[i].method.clone());
            scores.insert(pos, score);
            proof {
                let after = ranked(c, i as nat + 1);
                assert(after == before.insert(pos as int, c[i as int]));
                assert forall|j: int| 0 <= j < r@.len() implies r@[j]@ == after[j].method by {
                    if j < pos {
                        assert(r@[j] == r0[j]);
                    } else if j > pos {
                        assert(r@[j] == r0[j - 1]);
                    }
                }
                assert forall|a: int, b: int| 0 <= a < b < after.len() implies after[a].score
                    >= after[b].score by {
                    if b < pos {
                    } else if a > pos {
                        assert(after[a] == before[a - 1]);
                        assert(after[b] == before[b - 1]);
                    } else if a == pos {
                        assert(after[b] == before[b - 1]);
                    } else if b == pos {
                    } else {
                        assert(after[a] == before[a]);
                        assert(after[b] == before[b - 1]);
                    }
                }
            }
        }
        i += 1;
    }
    assert(models(r@) =~= methods_of(ranked(c, candidates@.len())));
    r
}

/// The cost of two steps taken one after the other: the sum of their costs.
/// A cost that is not known, or a sum that cannot be held, is infinite. In
/// terms of efficiencies, which are the reciprocals of costs, this is the
/// reciprocal of the sum of the reciprocals.
pub open spec fn composed(a: Option<nat>, b: Option<nat>) -> Option<nat> {
    match (a, b) {
        (Some(x), Some(y)) => if x + y <= u64::MAX {
            Some(x + y)
        } else {
            None
        },
        _ => None,
    }
}

/// Composes the costs of two steps taken one after the other.
pub fn compose_cost(a: Option<u64>, b: Option<u64>) -> (r: Option<u64>)
    ensures
        (match r {
            Some(c) => Some(c as nat),
            None => None,
        }) == composed(
            match a {
                Some(c) => Some(c as nat),
                None => None,
            },
            match b {
                Some(c) => Some(c as nat),
                None => None,
            },
        ),
{
    match (a, b) {
        (Some(x), Some(y)) => x.checked_add(y),
        _ => None,
    }
}

/// Tells whether the cost `a` is lower than the cost `b`: a known cost is
/// lower than an infinite one.
pub open spec fn cheaper(a: Option<nat>, b: Option<nat>) -> bool {
    match (a, b) {
        (Some(x), Some(y)) => x < y,
        (Some(_), None) => true,
        _ => false,
    }
}

/// Tells whether `k` is the best candidate by cost: it is applicable, no
/// applicable candidate is cheaper, and none before it is as cheap.
pub open spec fn is_best(c: Seq<CandidateModel>, k: int) -> bool {
    &&& 0 <= k < c.len()
    &&& c[k].applicable
    &&& forall|j: int| 0 <= j < c.len() && c[j].applicable ==> !cheaper(c[j].cost, c[k].cost)
    &&& forall|j: int| 0 <= j < k && c[j].applicable ==> cheaper(c[k].cost, c[j].cost)
}

/// Tells whether the cost `a` is lower than the cost `b`.
fn is_cheaper(a: Option<u64>, b: Option<u64>) -> (r: bool)
    ensures
        r == cheaper(
            match a {
                Some(c) => Some(c as nat),
                None => None,
            },
            match b {
                Some(c) => Some(c as nat),
                None => None,
            },
        ),
{
    match (a, b) {
        (Some(x), Some(y)) => x < y,
        (Some(_), None) => true,
        _ => false,
    }
}

/// The cost policy: the applicable candidate of the lowest cost, the first
/// of them when several are as cheap; none when no candidate is applicable.
pub fn cheapest(candidates: &Vec<Candidate>) -> (r: Option<usize>)
    ensures
        r is Some <==> exists|j: int|
            0 <= j < candidates@.len() && (#[trigger] candidate_models(candidates@)[j]).applicable,
        r matches Some(k) ==> is_best(candidate_models(candidates@), k as int),
{
    let ghost c = candidate_models(candidates@);
    let mut best: Option<usize> = None;
    let mut i: usize = 0;
    while i < candidates.len()
        invariant
            i <= candidates.len(),
            c == candidate_models(candidates@),
            best is None ==> forall|j: int| 0 <= j < i ==> !(#[trigger] c[j]).applicable,
            best matches Some(k) ==> {
                &&& k < i
                &&& c[k as int].applicable
                &&& forall|j: int|
                    0 <= j < i && (#[trigger] c[j]).applicable ==> !cheaper(
                        c[j].cost,
                        c[k as int].cost,
                    )
                &&& forall|j: int|
                    0 <= j < k && (#[trigger] c[j]).applicable ==> cheaper(
                        c[k as int].cost,
                        c[j].cost,
                    )
            },
        decreases candidates.len() - i,
    {
        assert(c[i as int] == candidates@[i as int]@);
        if candidates[i].applicable {
            match best {
                None => {
                    best = Some(i);
                },
                Some(k) => {
                    assert(c[k as int] == candidates@[k as int]@);
                    if is_cheaper(candidates[i].cost, candidates[k].cost) {
                        best = Some(i);
                    }
                },
            }
        }
        i += 1;
    }
    best
}

/// What the planner gave to a select that asked it for a plan.
pub enum PlannerOutcome {
    /// A plan: the methods to try, in order.
    Plan(Vec<LValue>),
    /// No plan exists.
    Unsat,
    /// The planner ran out of time.
    Timeout,
    /// The planner was interrupted.
    Interrupt,
}

/// The planner-ranked policy: the methods of the plan; the greedy order when
/// the planner ran out of time; nothing when no plan exists or the planner
/// was interrupted.
pub fn planner_ranked(outcome: PlannerOutcome, candidates: &Vec<Candidate>) -> (r: Vec<LValue>)
    ensures
        models(r@) == (match outcome {
            PlannerOutcome::Plan(p) => models(p@),
            PlannerOutcome::Timeout => methods_of(
                applicable_of(candidate_models(candidates@), candidates@.len()),
            ),
            _ => Seq::<Sexp>::empty(),
        }),
{
    match outcome {
        PlannerOutcome::Plan(p) => p,
        PlannerOutcome::Timeout => greedy(candidates),
        _ => {
            let r: Vec<LValue> = Vec::new();
            assert(models(r@) =~= Seq::<Sexp>::empty());
            r
        },
    }
}

} // verus!
