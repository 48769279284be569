//! Values of a static evaluation: a value and the word whether it was
//! obtained without any effect.
use crate::lvalue::{LValue, Sexp};
use vstd::prelude::*;

verus! {

/// A value together with its purity.
#[derive(Debug)]
pub struct PLValue {
    lvalue: LValue,
    pure: bool,
}

impl PLValue {
    /// The value.
    pub closed spec fn value(self) -> Sexp {
        self.lvalue@
    }

    /// Whether the value was obtained without any effect.
    pub closed spec fn pure(self) -> bool {
        self.pure
    }

    /// Tells whether the value was obtained without any effect.
    pub fn is_pure(&self) -> (b: bool)
        ensures
            b == self.pure(),
    {
        self.pure
    }

    /// The value.
    pub fn get_lvalue(&self) -> (lv: &LValue)
        ensures
            lv@ == self.value(),
    {
        &self.lvalue
    }

    /// A copy of `lv`, marked as pure.
    pub fn into_pure(lv: &LValue) -> (p: PLValue)
        ensures
            p.value() == lv@,
            p.pure(),
    {
        PLValue { lvalue: lv.clone(), pure: true }
    }

    /// A copy of `lv`, marked as not pure.
    pub fn into_unpure(lv: &LValue) -> (p: PLValue)
        ensures
            p.value() == lv@,
            !p.pure(),
    {
        PLValue { lvalue: lv.clone(), pure: false }
    }

    /// The value, without its purity.
    pub fn into_lvalue(self) -> (lv: LValue)
        ensures
            lv@ == self.value(),
    {
        self.lvalue
    }

    /// The printed form of the value.
    pub fn to_string(&self) -> (s: String)
        ensures
            s@ == self.value().text(),
    {
        self.lvalue.to_string()
    }
}

impl Default for PLValue {
    fn default() -> (p: Self)
        ensures
            p.value() == Sexp::Nil,
            p.pure(),
    {
        Self { lvalue: LValue::Nil, pure: true }
    }
}

impl Clone for PLValue {
    fn clone(&self) -> (p: Self)
        ensures
            p.value() == self.value(),
            p.pure() == self.pure(),
    {
        PLValue { lvalue: self.lvalue.clone(), pure: self.pure }
    }
}

} // verus!
