//! The planning problem: how the facts of a snapshot enter the chronicle of
//! the root as effects at the origin, and how they are read back from it.
use crate::lvalue::{lemma_list_model, models, LValue, Sexp};
use crate::planning::atom::{Atom, AtomId, AtomModel, AtomType, SymModel};
use crate::planning::chronicle::{
    effect_models, Effect, EffectModel, Expression, ExpressionModel, Interval, PartialChronicle,
    PartialChronicleModel, Transition,
};
use crate::planning::conversion::{lit_of, lits_of, lvalue_to_lit, ConversionError, Converted};
use crate::planning::lit::{lemma_exp_model, Lit, LitModel};
use crate::planning::sym_table::{ranked_name, SymTable, SymTableModel};
use crate::state::{FactsModel, PartialState};
use vstd::prelude::*;

verus! {

/// Tells whether a value is made of symbols, numbers, booleans and lists of
/// such values: what the state variables and the values of facts are made of.
pub open spec fn plain(s: Sexp) -> bool
    decreases s,
{
    match s {
        Sexp::Symbol(_) | Sexp::Number(_) | Sexp::True | Sexp::Nil => true,
        Sexp::List(l) => forall|i: int| 0 <= i < l.len() ==> plain(#[trigger] l[i]),
        _ => false,
    }
}

/// The value that an atom stands for.
pub open spec fn atom_value(a: AtomModel) -> Sexp {
    match a {
        AtomModel::Bool(true) => Sexp::True,
        AtomModel::Bool(false) => Sexp::Nil,
        AtomModel::Number(n) => Sexp::Number(n),
        AtomModel::Sym(s) => Sexp::Symbol(s.name()),
    }
}

/// The value that a literal stands for in a symbol table: the value of an
/// atom, the list of the values of a sequence. A constraint, and an atom that
/// the table does not hold, stand for `nil`.
pub open spec fn back(l: LitModel, st: SymTableModel) -> Sexp
    decreases l,
{
    match l {
        LitModel::Atom(id) => if id < st.atoms.len() {
            atom_value(st.atoms[id as int])
        } else {
            Sexp::Nil
        },
        LitModel::Exp(v) => Sexp::List(
            Seq::new(
                v.len(),
                |i: int|
                    if 0 <= i < v.len() {
                        back(v[i], st)
                    } else {
                        Sexp::Nil
                    },
            ),
        ),
        LitModel::Constraint(_) => Sexp::Nil,
    }
}

/// Tells whether every atom of a literal is an atom of the table.
pub open spec fn within(l: LitModel, st: SymTableModel) -> bool
    decreases l,
{
    match l {
        LitModel::Atom(id) => id < st.atoms.len(),
        LitModel::Exp(v) => forall|i: int| 0 <= i < v.len() ==> within(#[trigger] v[i], st),
        LitModel::Constraint(_) => true,
    }
}

/// Tells whether the table `b` holds the atoms of `a`, each standing for what
/// it stood for.
pub open spec fn keeps(a: SymTableModel, b: SymTableModel) -> bool {
    &&& a.atoms.len() <= b.atoms.len()
    &&& forall|i: int|
        0 <= i < a.atoms.len() ==> atom_value(#[trigger] b.atoms[i]) == atom_value(a.atoms[i])
}

/// A literal stands for the same value in a table that keeps its atoms.
pub proof fn lemma_back_keeps(l: LitModel, a: SymTableModel, b: SymTableModel)
    requires
        keeps(a, b),
        within(l, a),
    ensures
        back(l, b) == back(l, a),
        within(l, b),
    decreases l,
{
    match l {
        LitModel::Atom(id) => {
            assert(atom_value(b.atoms[id as int]) == atom_value(a.atoms[id as int]));
        },
        LitModel::Exp(v) => {
            assert forall|i: int| 0 <= i < v.len() implies back(v[i], b) == back(v[i], a)
                && within(#[trigger] v[i], b) by {
                lemma_back_keeps(v[i], a, b);
            }
            assert(back(l, b)->List_0 =~= back(l, a)->List_0);
        },
        LitModel::Constraint(_) => {},
    }
}

/// Adding an atom keeps the atoms of a table and what its names stand for.
pub proof fn lemma_with_atom_keeps(st: SymTableModel, a: AtomModel, t: AtomType)
    requires
        st.names_hold(),
    ensures
        keeps(st, st.with_atom(a, t)),
        st.with_atom(a, t).names_hold(),
        st.with_atom(a, t).atoms.len() == st.atoms.len() + 1,
        st.with_atom(a, t).atoms[st.atoms.len() as int] == a,
{
    let n = st.with_atom(a, t);
    assert forall|k: int, v: int|
        0 <= k < n.names.labels.len() && 0 <= v < n.names.entries[k].len() implies ({
        let id = #[trigger] n.names.entries[k][v];
        id < n.atoms.len() && n.atoms[id as int] is Sym && n.atoms[id as int]->Sym_0.name()
            == n.names.labels[k]
    }) by {
        let id = st.names.entries[k][v];
        assert(id < st.atoms.len());
    }
}

/// Declaring a new symbol keeps the atoms of a table, and the new atom
/// stands for its name.
pub proof fn lemma_declared_keeps(st: SymTableModel, name: Seq<char>, t: AtomType)
    requires
        st.names_hold(),
        st.has_room(0),
    ensures
        keeps(st, st.declared(name, t)),
        st.declared(name, t).names_hold(),
        st.declared(name, t).atoms.len() == st.atoms.len() + 1,
        atom_value(st.declared(name, t).atoms[st.atoms.len() as int]) == Sexp::Symbol(name),
{
    let atom = AtomModel::Sym(SymModel::Unique(name));
    lemma_with_atom_keeps(st, atom, t);
    let mid = st.with_atom(atom, t);
    let n = st.declared(name, t);
    let id = st.atoms.len() as AtomId;
    crate::domain::lemma_with_get(mid.names, name, seq![id], name);
    assert forall|k: int, v: int|
        0 <= k < n.names.labels.len() && 0 <= v < n.names.entries[k].len() implies ({
        let a = #[trigger] n.names.entries[k][v];
        a < n.atoms.len() && n.atoms[a as int] is Sym && n.atoms[a as int]->Sym_0.name()
            == n.names.labels[k]
    }) by {
        assert(n.atoms[id as int] == atom);
        if mid.names.has(name) {
            let at = mid.names.labels.index_of(name);
            assert(mid.names.labels[at] == name);
            if k != at {
                assert(n.names.entries[k] == mid.names.entries[k]);
                let a = mid.names.entries[k][v];
                assert(a < mid.atoms.len());
            } else {
                assert(n.names.entries[k] == seq![id]);
            }
        } else {
            if k < mid.names.labels.len() {
                assert(n.names.entries[k] == mid.names.entries[k]);
                let a = mid.names.entries[k][v];
                assert(a < mid.atoms.len());
            } else {
                assert(n.names.entries[k] == seq![id]);
            }
        }
    }
}

/// Declaring a symbol without asking for a new version keeps the atoms of a
/// table, and the symbol then stands for its name.
pub proof fn lemma_with_symbol_keeps(st: SymTableModel, name: Seq<char>)
    requires
        st.names_hold(),
        st.has_room(0),
    ensures
        keeps(st, st.with_symbol(name)),
        st.with_symbol(name).names_hold(),
        st.symbol_id(name) < st.with_symbol(name).atoms.len(),
        atom_value(st.with_symbol(name).atoms[st.symbol_id(name) as int]) == Sexp::Symbol(name),
{
    match st.id_of(name) {
        Some(id) => {
            let k = st.names.labels.index_of(name);
            assert(st.names.labels.contains(name));
            assert(st.names.labels[k] == name);
            let v = st.current(name) as int;
            assert(st.names.entries[k][v] == id);
        },
        None => {
            lemma_declared_keeps(st, name, AtomType::Symbol);
        },
    }
}

/// Keeping atoms goes through: a table keeps the atoms of a table that keeps
/// them.
pub proof fn lemma_keeps_trans(a: SymTableModel, b: SymTableModel, c: SymTableModel)
    requires
        keeps(a, b),
        keeps(b, c),
    ensures
        keeps(a, c),
{
    assert forall|i: int| 0 <= i < a.atoms.len() implies atom_value(#[trigger] c.atoms[i])
        == atom_value(a.atoms[i]) by {
        assert(atom_value(b.atoms[i]) == atom_value(a.atoms[i]));
    }
}

/// The conversion of a value to a literal keeps the atoms of the table, and
/// the literal of a plain value stands for that value in the table that the
/// conversion leaves.
pub proof fn lemma_lit_round_trip(s: Sexp, st: SymTableModel)
    requires
        st.names_hold(),
    ensures
        keeps(st, lit_of(s, st).st),
        lit_of(s, st).st.names_hold(),
        lit_of(s, st).result matches Ok(l) ==> within(l, lit_of(s, st).st) && (plain(s) ==> back(
            l,
            lit_of(s, st).st,
        ) == s),
    decreases s, 0nat,
{
    match s {
        Sexp::List(l) => {
            lemma_lits_round_trip(l, l.len(), st);
            let c = lits_of(l, l.len(), st);
            if c.result is Ok && plain(s) {
                assert(back(c.result->Ok_0, c.st)->List_0 =~= l);
            }
        },
        Sexp::Number(n) => {
            if st.has_room(0) {
                lemma_with_atom_keeps(st, AtomModel::Number(n), AtomType::Number);
            }
        },
        Sexp::True => {
            if st.has_room(0) {
                lemma_with_atom_keeps(st, AtomModel::Bool(true), AtomType::Boolean);
            }
        },
        Sexp::Nil => {
            if st.has_room(0) {
                lemma_with_atom_keeps(st, AtomModel::Bool(false), AtomType::Boolean);
            }
        },
        _ => {
            if st.has_room(0) {
                lemma_with_symbol_keeps(st, s.text());
            }
        },
    }
}

/// The literals of the first items of a list stand for those of the items
/// that are plain.
pub proof fn lemma_lits_round_trip(l: Seq<Sexp>, n: nat, st: SymTableModel)
    requires
        st.names_hold(),
        n <= l.len(),
    ensures
        keeps(st, lits_of(l, n, st).st),
        lits_of(l, n, st).st.names_hold(),
        lits_of(l, n, st).result matches Ok(lit) ==> {
            &&& lit is Exp
            &&& lit->Exp_0.len() == n
            &&& within(lit, lits_of(l, n, st).st)
            &&& forall|i: int|
                0 <= i < n && plain(l[i]) ==> back(
                    #[trigger] lit->Exp_0[i],
                    lits_of(l, n, st).st,
                ) == l[i]
        },
    decreases l, n,
{
    if n > 0 {
        lemma_lits_round_trip(l, (n - 1) as nat, st);
        let before = lits_of(l, (n - 1) as nat, st);
        match before.result {
            Err(e) => {},
            Ok(done) => {
                lemma_lit_round_trip(l[n - 1], before.st);
                let item = lit_of(l[n - 1], before.st);
                lemma_keeps_trans(st, before.st, item.st);
                match item.result {
                    Err(e) => {},
                    Ok(lit) => {
                        let all = done->Exp_0.push(lit);
                        assert forall|i: int| 0 <= i < n implies within(#[trigger] all[i], item.st)
                            && (plain(l[i]) ==> back(all[i], item.st) == l[i]) by {
                            if i < n - 1 {
                                assert(all[i] == done->Exp_0[i]);
                                assert(within(done->Exp_0[i], before.st));
                                lemma_back_keeps(done->Exp_0[i], before.st, item.st);
                            }
                        }
                    },
                }
            },
        }
    }
}

/// The value that a literal stands for in a symbol table.
pub fn lit_to_lvalue(lit: &Lit, st: &SymTable) -> (r: LValue)
    ensures
        r@ == back(lit@, st@),
    decreases *lit,
{
    match lit {
        Lit::Atom(id) => match st.get_atom(id) {
            Some(Atom::Bool(true)) => LValue::True,
            Some(Atom::Bool(false)) => LValue::Nil,
            Some(Atom::Number(n)) => LValue::Number(*n),
            Some(Atom::Sym(s)) => LValue::Symbol(s.get_string().clone()),
            None => LValue::Nil,
        },
        Lit::Exp(v) => {
            proof {
                lemma_exp_model(*v);
            }
            let mut out: Vec<LValue> = Vec::new();
            let mut i: usize = 0;
            while i < v.len()
                invariant
                    i <= v.len(),
                    *lit is Exp,
                    lit->Exp_0 == *v,
                    out.len() == i,
                    forall|k: int| 0 <= k < i ==> (#[trigger] out[k])@ == back(v[k]@, st@),
                decreases v.len() - i,
            {
                assert(decreases_to!(*lit => lit->Exp_0));
                let item = lit_to_lvalue(&v[i], st);
                out.push(item);
                i += 1;
            }
            proof {
                lemma_list_model(out);
                assert(models(out@) =~= back(lit@, st@)->List_0);
            }
            LValue::List(out)
        },
        Lit::Constraint(_) => LValue::Nil,
    }
}

/// The effect that gives `variable` the value `value` at the instant
/// `origin`.
pub open spec fn initial_effect(origin: AtomId, variable: LitModel, value: LitModel) -> EffectModel {
    EffectModel { interval: Interval { start: origin, end: origin }, variable, value }
}

/// The effects that stand for the first `n` facts, one after the other, and
/// the symbol table afterwards.
pub open spec fn embedded(facts: FactsModel, n: nat, origin: AtomId, st: SymTableModel) -> Converted<
    Seq<EffectModel>,
>
    decreases n,
{
    if n == 0 || n > facts.keys.len() || n > facts.values.len() {
        Converted { st, result: Ok(Seq::empty()) }
    } else {
        let before = embedded(facts, (n - 1) as nat, origin, st);
        match before.result {
            Err(e) => before,
            Ok(done) => {
                let variable = lit_of(facts.keys[n - 1], before.st);
                match variable.result {
                    Err(e) => Converted { st: variable.st, result: Err(e) },
                    Ok(var) => {
                        let value = lit_of(facts.values[n - 1], variable.st);
                        match value.result {
                            Err(e) => Converted { st: value.st, result: Err(e) },
                            Ok(val) => Converted {
                                st: value.st,
                                result: Ok(done.push(initial_effect(origin, var, val))),
                            },
                        }
                    },
                }
            },
        }
    }
}

/// The facts that the first `n` effects state, read in a symbol table: each
/// effect gives the state variable that its variable stands for the value
/// that its value stands for.
pub open spec fn extracted(effects: Seq<EffectModel>, n: nat, st: SymTableModel) -> FactsModel
    decreases n,
{
    if n == 0 || n > effects.len() {
        FactsModel { keys: Seq::empty(), values: Seq::empty() }
    } else {
        extracted(effects, (n - 1) as nat, st).insert(
            back(effects[n - 1].variable, st),
            back(effects[n - 1].value, st),
        )
    }
}

/// Tells whether `r` holds the effects, or is the error, that `c` gives.
pub open spec fn is_effects(r: Result<Vec<Effect>, ConversionError>, c: Converted<Seq<EffectModel>>) -> bool {
    match c.result {
        Ok(l) => r matches Ok(x) && effect_models(x@) == l,
        Err(e) => r matches Err(x) && x == e,
    }
}

/// Once an error has come up, the facts that follow are not looked at.
proof fn lemma_embedding_stops(facts: FactsModel, n: nat, m: nat, origin: AtomId, st: SymTableModel)
    requires
        n <= m <= facts.keys.len(),
        facts.keys.len() == facts.values.len(),
        embedded(facts, n, origin, st).result is Err,
    ensures
        embedded(facts, m, origin, st) == embedded(facts, n, origin, st),
    decreases m,
{
    if n < m {
        lemma_embedding_stops(facts, n, (m - 1) as nat, origin, st);
    }
}

/// Embeds facts as effects at the instant `origin`: one effect for each
/// fact, in their order, which gives the literal of the state variable the
/// literal of the value. Stops at the first value that the symbol table has
/// no room for.
pub fn embed_facts(facts: &PartialState, origin: &AtomId, st: &mut SymTable) -> (r: Result<
    Vec<Effect>,
    ConversionError,
>)
    requires
        old(st).wf(),
        facts@.wf(),
    ensures
        final(st).wf(),
        final(st)@ == embedded(facts@, facts@.keys.len(), *origin, old(st)@).st,
        is_effects(r, embedded(facts@, facts@.keys.len(), *origin, old(st)@)),
{
    let ghost st0 = st@;
    let mut effects: Vec<Effect> = Vec::new();
    let n = facts.len();
    let mut i: usize = 0;
    proof {
        assert(effect_models(effects@) =~= Seq::<EffectModel>::empty());
    }
    while i < n
        invariant
            i <= n,
            n == facts@.keys.len(),
            facts@.wf(),
            st.wf(),
            st0 == old(st)@,
            st@ == embedded(facts@, i as nat, *origin, st0).st,
            embedded(facts@, i as nat, *origin, st0).result == Ok::<
                Seq<EffectModel>,
                ConversionError,
            >(effect_models(effects@)),
        decreases n - i,
    {
        let (sv, value) = facts.fact_at(i);
        let var = match lvalue_to_lit(&sv, st) {
            Ok(l) => l,
            Err(e) => {
                proof {
                    lemma_embedding_stops(facts@, (i + 1) as nat, n as nat, *origin, st0);
                }
                return Err(e);
            },
        };
        let val = match lvalue_to_lit(&value, st) {
            Ok(l) => l,
            Err(e) => {
                proof {
                    lemma_embedding_stops(facts@, (i + 1) as nat, n as nat, *origin, st0);
                }
                return Err(e);
            },
        };
        let ghost before = effect_models(effects@);
        let effect = Effect {
            interval: Interval::new(origin, origin),
            transition: Transition::new(var, val),
        };
        effects.push(effect);
        proof {
            assert(effect_models(effects@) =~= before.push(
                initial_effect(*origin, var@, val@),
            ));
        }
        i += 1;
    }
    Ok(effects)
}

/// Reads facts back from effects: each effect, in their order, gives the
/// state variable that its variable stands for the value that its value
/// stands for.
pub fn extract_facts(effects: &Vec<Effect>, st: &SymTable) -> (r: PartialState)
    ensures
        r@.wf(),
        r@ == extracted(effect_models(effects@), effects.len() as nat, st@),
{
    let mut facts = PartialState::new();
    let mut i: usize = 0;
    proof {
        assert(facts@.keys =~= Seq::<Sexp>::empty());
        assert(facts@.values =~= Seq::<Sexp>::empty());
    }
    while i < effects.len()
        invariant
            i <= effects.len(),
            facts@.wf(),
            facts@ == extracted(effect_models(effects@), i as nat, st@),
        decreases effects.len() - i,
    {
        let sv = lit_to_lvalue(effects[i].transition.get_variable(), st);
        let value = lit_to_lvalue(effects[i].transition.get_value(), st);
        facts.insert(sv, value);
        i += 1;
    }
    facts
}

/// Tells whether every state variable and every value of the facts is
/// plain.
pub open spec fn plain_facts(facts: FactsModel) -> bool {
    &&& forall|i: int| 0 <= i < facts.keys.len() ==> plain(#[trigger] facts.keys[i])
    &&& forall|i: int| 0 <= i < facts.values.len() ==> plain(#[trigger] facts.values[i])
}

/// The effects of the first facts stand for those facts in the table that
/// the embedding leaves.
pub proof fn lemma_embedded_stands(facts: FactsModel, n: nat, origin: AtomId, st: SymTableModel)
    requires
        facts.wf(),
        plain_facts(facts),
        st.names_hold(),
        n <= facts.keys.len(),
    ensures
        keeps(st, embedded(facts, n, origin, st).st),
        embedded(facts, n, origin, st).st.names_hold(),
        embedded(facts, n, origin, st).result matches Ok(effects) ==> {
            let after = embedded(facts, n, origin, st).st;
            &&& effects.len() == n
            &&& forall|i: int|
                0 <= i < n ==> {
                    let e = #[trigger] effects[i];
                    &&& within(e.variable, after)
                    &&& within(e.value, after)
                    &&& back(e.variable, after) == facts.keys[i]
                    &&& back(e.value, after) == facts.values[i]
                }
        },
    decreases n,
{
    if n > 0 {
        lemma_embedded_stands(facts, (n - 1) as nat, origin, st);
        let before = embedded(facts, (n - 1) as nat, origin, st);
        if let Ok(done) = before.result {
            assert(plain(facts.keys[n - 1]));
            assert(plain(facts.values[n - 1]));
            lemma_lit_round_trip(facts.keys[n - 1], before.st);
            let variable = lit_of(facts.keys[n - 1], before.st);
            lemma_keeps_trans(st, before.st, variable.st);
            if let Ok(var) = variable.result {
                lemma_lit_round_trip(facts.values[n - 1], variable.st);
                let value = lit_of(facts.values[n - 1], variable.st);
                lemma_keeps_trans(st, variable.st, value.st);
                lemma_keeps_trans(before.st, variable.st, value.st);
                if let Ok(val) = value.result {
                    let effects = done.push(initial_effect(origin, var, val));
                    lemma_back_keeps(var, variable.st, value.st);
                    assert forall|i: int| 0 <= i < n implies ({
                        let e = #[trigger] effects[i];
                        &&& within(e.variable, value.st)
                        &&& within(e.value, value.st)
                        &&& back(e.variable, value.st) == facts.keys[i]
                        &&& back(e.value, value.st) == facts.values[i]
                    }) by {
                        if i < n - 1 {
                            assert(effects[i] == done[i]);
                            lemma_back_keeps(done[i].variable, before.st, value.st);
                            lemma_back_keeps(done[i].value, before.st, value.st);
                        }
                    }
                }
            }
        }
    }
}

/// Effects that stand, place by place, for facts give those facts back.
pub proof fn lemma_extracted_facts(
    effects: Seq<EffectModel>,
    n: nat,
    st: SymTableModel,
    facts: FactsModel,
)
    requires
        facts.wf(),
        n <= effects.len(),
        n <= facts.keys.len(),
        forall|i: int|
            0 <= i < n ==> back((#[trigger] effects[i]).variable, st) == facts.keys[i] && back(
                effects[i].value,
                st,
            ) == facts.values[i],
    ensures
        extracted(effects, n, st).keys == facts.keys.take(n as int),
        extracted(effects, n, st).values == facts.values.take(n as int),
    decreases n,
{
    if n == 0 {
        assert(extracted(effects, n, st).keys =~= facts.keys.take(0));
        assert(extracted(effects, n, st).values =~= facts.values.take(0));
    } else {
        lemma_extracted_facts(effects, (n - 1) as nat, st, facts);
        let before = extracted(effects, (n - 1) as nat, st);
        let sv = facts.keys[n - 1];
        assert(back(effects[n - 1].variable, st) == sv);
        if before.has(sv) {
            let j = before.keys.index_of(sv);
            assert(before.keys[j] == sv);
            assert(facts.keys[j] == sv);
        }
        assert(extracted(effects, n, st).keys =~= facts.keys.take(n as int));
        assert(extracted(effects, n, st).values =~= facts.values.take(n as int));
    }
}

/// Facts that are embedded as effects and read back in the symbol table
/// that the embedding leaves are the facts that went in: the same state
/// variables with the same values, in the same order. This holds of facts
/// whose state variables and values are plain, where the symbol table has
/// room for them.
pub proof fn law_facts_round_trip(facts: FactsModel, origin: AtomId, st: SymTableModel)
    requires
        facts.wf(),
        plain_facts(facts),
        st.names_hold(),
    ensures
        embedded(facts, facts.keys.len(), origin, st).result matches Ok(effects) ==> extracted(
            effects,
            effects.len(),
            embedded(facts, facts.keys.len(), origin, st).st,
        ) == facts,
{
    let n = facts.keys.len();
    lemma_embedded_stands(facts, n, origin, st);
    let e = embedded(facts, n, origin, st);
    if let Ok(effects) = e.result {
        lemma_extracted_facts(effects, n, e.st, facts);
        assert(facts.keys.take(n as int) =~= facts.keys);
        assert(facts.values.take(n as int) =~= facts.values);
    }
}

/// Facts that were read back stay what they are while the symbol table
/// grows: a table that keeps the atoms of the table in which the effects
/// were made reads the same facts.
pub proof fn law_extraction_is_stable(
    effects: Seq<EffectModel>,
    n: nat,
    a: SymTableModel,
    b: SymTableModel,
)
    requires
        keeps(a, b),
        n <= effects.len(),
        forall|i: int|
            0 <= i < n ==> within((#[trigger] effects[i]).variable, a) && within(
                effects[i].value,
                a,
            ),
    ensures
        extracted(effects, n, b) == extracted(effects, n, a),
    decreases n,
{
    if n > 0 {
        law_extraction_is_stable(effects, (n - 1) as nat, a, b);
        lemma_back_keeps(effects[n - 1].variable, a, b);
        lemma_back_keeps(effects[n - 1].value, a, b);
    }
}

/// The subtasks that stand for the first `n` goal tasks, one after the
/// other, and the symbol table afterwards: each goal gets an interval of its
/// own and the literal of its expression.
pub open spec fn goal_tasks(goals: Seq<Sexp>, n: nat, st: SymTableModel) -> Converted<
    Seq<ExpressionModel>,
>
    decreases n,
{
    if n == 0 || n > goals.len() {
        Converted { st, result: Ok(Seq::empty()) }
    } else {
        let before = goal_tasks(goals, (n - 1) as nat, st);
        match before.result {
            Err(e) => before,
            Ok(done) => if !before.st.has_room(1) {
                Converted { st: before.st, result: Err(ConversionError::Full) }
            } else {
                let interval = Interval {
                    start: before.st.atoms.len() as AtomId,
                    end: (before.st.atoms.len() + 1) as AtomId,
                };
                let lit = lit_of(goals[n - 1], before.st.with_timepoint().with_timepoint());
                match lit.result {
                    Err(e) => Converted { st: lit.st, result: Err(e) },
                    Ok(l) => Converted {
                        st: lit.st,
                        result: Ok(done.push(ExpressionModel { interval, lit: l })),
                    },
                }
            },
        }
    }
}

/// The chronicle of the root of a problem, and the symbol table afterwards:
/// a new timepoint is the origin and the only variable, the facts are
/// effects at the origin, and the goal tasks are the subtasks.
pub open spec fn rooted(facts: FactsModel, goals: Seq<Sexp>, st: SymTableModel) -> Converted<
    PartialChronicleModel,
> {
    if !st.has_room(0) {
        Converted { st, result: Err(ConversionError::Full) }
    } else {
        let origin = st.atoms.len() as AtomId;
        let effects = embedded(facts, facts.keys.len(), origin, st.with_timepoint());
        match effects.result {
            Err(e) => Converted { st: effects.st, result: Err(e) },
            Ok(es) => {
                let subtasks = goal_tasks(goals, goals.len(), effects.st);
                match subtasks.result {
                    Err(e) => Converted { st: subtasks.st, result: Err(e) },
                    Ok(ts) => Converted {
                        st: subtasks.st,
                        result: Ok(
                            PartialChronicleModel {
                                variables: Set::empty().insert(origin),
                                constraints: Seq::empty(),
                                conditions: Seq::empty(),
                                effects: es,
                                subtasks: ts,
                            },
                        ),
                    },
                }
            },
        }
    }
}

/// Once an error has come up, the goals that follow are not looked at.
proof fn lemma_goals_stop(goals: Seq<Sexp>, n: nat, m: nat, st: SymTableModel)
    requires
        n <= m <= goals.len(),
        goal_tasks(goals, n, st).result is Err,
    ensures
        goal_tasks(goals, m, st) == goal_tasks(goals, n, st),
    decreases m,
{
    if n < m {
        lemma_goals_stop(goals, n, (m - 1) as nat, st);
    }
}

/// Tells whether `r` is the chronicle, or the error, that `c` gives.
pub open spec fn is_root(r: Result<PartialChronicle, ConversionError>, c: Converted<PartialChronicleModel>) -> bool {
    match c.result {
        Ok(m) => r matches Ok(x) && x@ == m,
        Err(e) => r matches Err(x) && x == e,
    }
}

/// Builds the chronicle of the root of a problem: declares the origin,
/// embeds the facts as effects at the origin and the goal tasks as subtasks.
/// Fails where the symbol table has no room.
pub fn root_chronicle(facts: &PartialState, goals: &Vec<LValue>, st: &mut SymTable) -> (r: Result<
    PartialChronicle,
    ConversionError,
>)
    requires
        old(st).wf(),
        facts@.wf(),
    ensures
        final(st).wf(),
        final(st)@ == rooted(facts@, models(goals@), old(st)@).st,
        is_root(r, rooted(facts@, models(goals@), old(st)@)),
{
    if st.n_atoms() >= usize::MAX - 1 {
        return Err(ConversionError::Full);
    }
    let origin = st.declare_new_timepoint();
    let effects = match embed_facts(facts, &origin, st) {
        Ok(e) => e,
        Err(e) => {
            return Err(e);
        },
    };
    let ghost st1 = st@;
    let ghost gs = models(goals@);
    let ghost es = effect_models(effects@);
    let mut root = PartialChronicle::default();
    root.add_var(&origin);
    let mut k: usize = 0;
    assert(es.take(0) =~= Seq::<EffectModel>::empty());
    while k < effects.len()
        invariant
            k <= effects.len(),
            root@ == (PartialChronicleModel {
                variables: Set::empty().insert(origin),
                effects: effect_models(effects@).take(k as int),
                ..PartialChronicleModel::empty()
            }),
        decreases effects.len() - k,
    {
        let e = Effect {
            interval: effects[k].interval,
            transition: effects[k].transition.clone(),
        };
        root.add_effect(e);
        assert(effect_models(effects@).take(k as int).push(e@) =~= effect_models(effects@).take(
            k + 1,
        ));
        k += 1;
    }
    assert(effect_models(effects@).take(k as int) =~= effect_models(effects@));
    let ghost with_effects = root@;
    let mut i: usize = 0;
    while i < goals.len()
        invariant
            i <= goals.len(),
            gs == models(goals@),
            st.wf(),
            old(st)@.has_room(0),
            origin == old(st)@.atoms.len(),
            embedded(facts@, facts@.keys.len(), origin, old(st)@.with_timepoint()) == (Converted {
                st: st1,
                result: Ok::<Seq<EffectModel>, ConversionError>(es),
            }),
            with_effects == (PartialChronicleModel {
                variables: Set::empty().insert(origin),
                effects: es,
                ..PartialChronicleModel::empty()
            }),
            st@ == goal_tasks(gs, i as nat, st1).st,
            goal_tasks(gs, i as nat, st1).result == Ok::<Seq<ExpressionModel>, ConversionError>(
                root@.subtasks,
            ),
            root@ == (PartialChronicleModel { subtasks: root@.subtasks, ..with_effects }),
        decreases goals.len() - i,
    {
        if st.n_atoms() >= usize::MAX - 2 {
            proof {
                lemma_goals_stop(gs, (i + 1) as nat, gs.len(), st1);
            }
            return Err(ConversionError::Full);
        }
        let interval = st.declare_new_interval();
        let lit = match lvalue_to_lit(&goals[i], st) {
            Ok(l) => l,
            Err(e) => {
                proof {
                    lemma_goals_stop(gs, (i + 1) as nat, gs.len(), st1);
                }
                return Err(e);
            },
        };
        root.add_subtask(Expression { interval, lit });
        i += 1;
    }
    assert(root@.subtasks =~= goal_tasks(gs, gs.len(), st1).result->Ok_0);
    Ok(root)
}

/// The conversion of goal tasks keeps the atoms of the table.
pub proof fn lemma_goals_keep(goals: Seq<Sexp>, n: nat, st: SymTableModel)
    requires
        st.names_hold(),
        n <= goals.len(),
    ensures
        keeps(st, goal_tasks(goals, n, st).st),
        goal_tasks(goals, n, st).st.names_hold(),
    decreases n,
{
    if n > 0 {
        lemma_goals_keep(goals, (n - 1) as nat, st);
        let before = goal_tasks(goals, (n - 1) as nat, st);
        if before.result is Ok && before.st.has_room(1) {
            let a = before.st;
            let b = a.with_timepoint();
            let c = b.with_timepoint();
            lemma_declared_keeps(a, ranked_name("t_"@, a.counts[AtomType::Timepoint]), AtomType::Timepoint);
            lemma_declared_keeps(b, ranked_name("t_"@, b.counts[AtomType::Timepoint]), AtomType::Timepoint);
            lemma_lit_round_trip(goals[n - 1], c);
            lemma_keeps_trans(a, b, c);
            lemma_keeps_trans(a, c, lit_of(goals[n - 1], c).st);
            lemma_keeps_trans(st, a, lit_of(goals[n - 1], c).st);
        }
    }
}

/// The facts of a snapshot that go into the chronicle of the root and are
/// read back from its effects, in the symbol table that building the root
/// leaves, are the facts of the snapshot: the same state variables with the
/// same values. This holds of facts whose state variables and values are
/// plain, whatever the goal tasks are.
pub proof fn law_snapshot_round_trip(facts: FactsModel, goals: Seq<Sexp>, st: SymTableModel)
    requires
        facts.wf(),
        plain_facts(facts),
        st.names_hold(),
    ensures
        rooted(facts, goals, st).result matches Ok(root) ==> extracted(
            root.effects,
            root.effects.len(),
            rooted(facts, goals, st).st,
        ) == facts,
{
    if st.has_room(0) {
        let origin = st.atoms.len() as AtomId;
        let s1 = st.with_timepoint();
        lemma_declared_keeps(
            st,
            ranked_name("t_"@, st.counts[AtomType::Timepoint]),
            AtomType::Timepoint,
        );
        let n = facts.keys.len();
        let e = embedded(facts, n, origin, s1);
        lemma_embedded_stands(facts, n, origin, s1);
        if let Ok(es) = e.result {
            law_facts_round_trip(facts, origin, s1);
            lemma_goals_keep(goals, goals.len(), e.st);
            let g = goal_tasks(goals, goals.len(), e.st);
            law_extraction_is_stable(es, n, e.st, g.st);
        }
    }
}

} // verus!
