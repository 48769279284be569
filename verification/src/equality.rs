//! Equality of values: two values are equal when their models are.
use crate::lvalue::{string_views, LLambda, LValue, LambdaArgs};
use vstd::prelude::*;
use vstd::std_specs::cmp::PartialEqSpecImpl;

verus! {

/// Tells whether two vectors of strings hold the same texts in the same order.
pub fn same_strings(a: &Vec<String>, b: &Vec<String>) -> (r: bool)
    ensures
        r == (string_views(a@) == string_views(b@)),
{
    if a.len() != b.len() {
        assert(string_views(a@).len() != string_views(b@).len());
        return false;
    }
    let mut i: usize = 0;
    while i < a.len()
        invariant
            i <= a.len(),
            a.len() == b.len(),
            forall|j: int| 0 <= j < i ==> a[j]@ == b[j]@,
        decreases a.len() - i,
    {
        if a[i] != b[i] {
            assert(string_views(a@)[i as int] != string_views(b@)[i as int]);
            return false;
        }
        i += 1;
    }
    assert(string_views(a@) =~= string_views(b@));
    true
}

impl LambdaArgs {
    /// Tells whether two parameter lists are the same.
    pub fn same(&self, other: &LambdaArgs) -> (r: bool)
        ensures
            r == (self@ == other@),
    {
        match (self, other) {
            (LambdaArgs::Sym(a), LambdaArgs::Sym(b)) => *a == *b,
            (LambdaArgs::List(a), LambdaArgs::List(b)) => same_strings(a, b),
            (LambdaArgs::Nil, LambdaArgs::Nil) => true,
            _ => false,
        }
    }
}

impl LValue {
    /// Tells whether two values have the same model.
    pub fn same(&self, other: &LValue) -> (r: bool)
        ensures
            r == (self@ == other@),
        decreases *self,
    {
        match (self, other) {
            (LValue::Nil, LValue::Nil) => true,
            (LValue::True, LValue::True) => true,
            (LValue::Number(a), LValue::Number(b)) => *a == *b,
            (LValue::Symbol(a), LValue::Symbol(b)) => *a == *b,
            (LValue::String(a), LValue::String(b)) => *a == *b,
            (LValue::Character(a), LValue::Character(b)) => *a == *b,
            (LValue::List(a), LValue::List(b)) => {
                if a.len() != b.len() {
                    assert(self@->List_0.len() != other@->List_0.len());
                    return false;
                }
                let mut i: usize = 0;
                while i < a.len()
                    invariant
                        i <= a.len(),
                        a.len() == b.len(),
                        forall|j: int| 0 <= j < i ==> a[j]@ == b[j]@,
                        self is List,
                        self->List_0 == *a,
                        other is List,
                        other->List_0 == *b,
                    decreases a.len() - i,
                {
                    proof {
                        assert(decreases_to!(*self => self->List_0));
                    }
                    if !a[i].same(&b[i]) {
                        assert(self@->List_0[i as int] != other@->List_0[i as int]);
                        return false;
                    }
                    i += 1;
                }
                assert(self@->List_0 =~= other@->List_0);
                true
            },
            (LValue::Failure(a), LValue::Failure(b)) => {
                let x: &LValue = a;
                let y: &LValue = b;
                x.same(y)
            },
            (LValue::CoreOperator(a), LValue::CoreOperator(b)) => *a == *b,
            (LValue::Lambda(a), LValue::Lambda(b)) => {
                let x: &LValue = &a.body;
                let y: &LValue = &b.body;
                a.params.same(&b.params) && x.same(y)
            },
            (LValue::Fn(a), LValue::Fn(b)) => *a == *b,
            (LValue::Handle(a), LValue::Handle(b)) => *a == *b,
            _ => false,
        }
    }
}

impl PartialEq for LValue {
    fn eq(&self, other: &LValue) -> (r: bool) {
        self.same(other)
    }
}

impl PartialEqSpecImpl for LValue {
    open spec fn obeys_eq_spec() -> bool {
        true
    }

    open spec fn eq_spec(&self, other: &LValue) -> bool {
        self@ == other@
    }
}

impl PartialEq for LLambda {
    fn eq(&self, other: &LLambda) -> (r: bool) {
        let x: &LValue = &self.body;
        let y: &LValue = &other.body;
        self.params.same(&other.params) && x.same(y)
    }
}

impl PartialEqSpecImpl for LLambda {
    open spec fn obeys_eq_spec() -> bool {
        true
    }

    open spec fn eq_spec(&self, other: &LLambda) -> bool {
        self.params@ == other.params@ && self.body@ == other.body@
    }
}

} // verus!
