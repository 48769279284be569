//! Literals and constraints of chronicles.
use crate::planning::atom::AtomId;
use vstd::prelude::*;

verus! {

/// A literal: an atom, a constraint, or a sequence of literals.
#[derive(Debug)]
pub enum Lit {
    Atom(AtomId),
    Constraint(Box<Constraint>),
    Exp(Vec<Lit>),
}

/// A constraint between literals.
#[derive(Debug)]
pub enum Constraint {
    LEq(Lit, Lit),
    Eq(Lit, Lit),
    Neg(Lit),
    LT(Lit, Lit),
    And(Lit, Lit),
    Or(Lit, Lit),
}

/// A literal, as contracts see it.
pub enum LitModel {
    Atom(AtomId),
    Constraint(Box<ConstraintModel>),
    Exp(Seq<LitModel>),
}

/// A constraint, as contracts see it.
pub enum ConstraintModel {
    LEq(LitModel, LitModel),
    Eq(LitModel, LitModel),
    Neg(LitModel),
    LT(LitModel, LitModel),
    And(LitModel, LitModel),
    Or(LitModel, LitModel),
}

impl Lit {
    /// The model of the literal.
    pub open spec fn model(self) -> LitModel
        decreases self,
    {
        match self {
            Lit::Atom(a) => LitModel::Atom(a),
            Lit::Constraint(c) => LitModel::Constraint(Box::new((*c).model())),
            Lit::Exp(l) => LitModel::Exp(
                Seq::new(
                    l@.len(),
                    |i: int|
                        if 0 <= i < l@.len() {
                            l@[i].model()
                        } else {
                            LitModel::Atom(0)
                        },
                ),
            ),
        }
    }
}

impl Constraint {
    /// The model of the constraint.
    pub open spec fn model(self) -> ConstraintModel
        decreases self,
    {
        match self {
            Constraint::LEq(a, b) => ConstraintModel::LEq(a.model(), b.model()),
            Constraint::Eq(a, b) => ConstraintModel::Eq(a.model(), b.model()),
            Constraint::Neg(a) => ConstraintModel::Neg(a.model()),
            Constraint::LT(a, b) => ConstraintModel::LT(a.model(), b.model()),
            Constraint::And(a, b) => ConstraintModel::And(a.model(), b.model()),
            Constraint::Or(a, b) => ConstraintModel::Or(a.model(), b.model()),
        }
    }
}

impl View for Lit {
    type V = LitModel;

    open spec fn view(&self) -> LitModel {
        self.model()
    }
}

impl View for Constraint {
    type V = ConstraintModel;

    open spec fn view(&self) -> ConstraintModel {
        self.model()
    }
}

/// The models of a sequence of literals.
pub open spec fn lit_models(s: Seq<Lit>) -> Seq<LitModel> {
    Seq::new(s.len(), |i: int| s[i]@)
}

/// The models of a sequence of constraints.
pub open spec fn constraint_models(s: Seq<Constraint>) -> Seq<ConstraintModel> {
    Seq::new(s.len(), |i: int| s[i]@)
}

/// The model of a sequence of literals is the sequence of their models.
pub proof fn lemma_exp_model(v: Vec<Lit>)
    ensures
        Lit::Exp(v)@ == LitModel::Exp(lit_models(v@)),
{
    assert(Lit::Exp(v).model()->Exp_0 =~= lit_models(v@));
}

impl Clone for Lit {
    fn clone(&self) -> (r: Self)
        ensures
            r@ == self@,
        decreases *self,
    {
        match self {
            Lit::Atom(a) => Lit::Atom(*a),
            Lit::Constraint(c) => {
                let inner: &Constraint = c;
                Lit::Constraint(Box::new(inner.clone()))
            },
            Lit::Exp(l) => {
                let mut v: Vec<Lit> = Vec::new();
                let mut i: usize = 0;
                while i < l.len()
                    invariant
                        i <= l.len(),
                        v.len() == i,
                        forall|j: int| 0 <= j < i ==> v[j]@ == l[j]@,
                        self is Exp,
                        self->Exp_0 == *l,
                    decreases l.len() - i,
                {
                    proof {
                        assert(decreases_to!(*self => self->Exp_0));
                    }
                    let c = l[i].clone();
                    v.push(c);
                    i += 1;
                }
                proof {
                    lemma_exp_model(v);
                    lemma_exp_model(*l);
                    assert(lit_models(v@) =~= lit_models(l@));
                }
                Lit::Exp(v)
            },
        }
    }
}

impl Clone for Constraint {
    fn clone(&self) -> (r: Self)
        ensures
            r@ == self@,
        decreases *self,
    {
        match self {
            Constraint::LEq(a, b) => Constraint::LEq(a.clone(), b.clone()),
            Constraint::Eq(a, b) => Constraint::Eq(a.clone(), b.clone()),
            Constraint::Neg(a) => Constraint::Neg(a.clone()),
            Constraint::LT(a, b) => Constraint::LT(a.clone(), b.clone()),
            Constraint::And(a, b) => Constraint::And(a.clone(), b.clone()),
            Constraint::Or(a, b) => Constraint::Or(a.clone(), b.clone()),
        }
    }
}

impl Default for Lit {
    fn default() -> (r: Self)
        ensures
            r@ == LitModel::Exp(Seq::empty()),
    {
        let v: Vec<Lit> = Vec::new();
        proof {
            lemma_exp_model(v);
            assert(lit_models(v@) =~= Seq::<LitModel>::empty());
        }
        Lit::Exp(v)
    }
}

impl Lit {
    /// The literal of an atom.
    pub fn from_atom(a: AtomId) -> (r: Self)
        ensures
            r@ == LitModel::Atom(a),
    {
        Lit::Atom(a)
    }

    /// The literal of a constraint.
    pub fn from_constraint(c: Constraint) -> (r: Self)
        ensures
            r@ == LitModel::Constraint(Box::new(c@)),
    {
        Lit::Constraint(Box::new(c))
    }

    /// The literal of a sequence of literals.
    pub fn from_vec(v: Vec<Lit>) -> (r: Self)
        ensures
            r@ == LitModel::Exp(lit_models(v@)),
    {
        proof {
            lemma_exp_model(v);
        }
        Lit::Exp(v)
    }

    /// The literal of a sequence of atoms.
    pub fn from_atoms(v: &Vec<AtomId>) -> (r: Self)
        ensures
            r@ == LitModel::Exp(Seq::new(v@.len(), |i: int| LitModel::Atom(v@[i]))),
    {
        let mut lits: Vec<Lit> = Vec::new();
        let mut i: usize = 0;
        while i < v.len()
            invariant
                i <= v.len(),
                lits@.len() == i,
                forall|j: int| 0 <= j < i ==> lits@[j]@ == LitModel::Atom(v@[j]),
            decreases v.len() - i,
        {
            lits.push(Lit::Atom(v[i]));
            i += 1;
        }
        proof {
            lemma_exp_model(lits);
            assert(lit_models(lits@) =~= Seq::new(v@.len(), |i: int| LitModel::Atom(v@[i])));
        }
        Lit::Exp(lits)
    }
}

} // verus!
