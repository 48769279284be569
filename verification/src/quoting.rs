//! The marks of quotation in front of a value: `'x` stands for `(quote x)`,
//! `` `x `` for `(quasiquote x)` and `,x` for `(unquote x)`.
use crate::lvalue::{lemma_list_model, models, LValue, Sexp};
use vstd::prelude::*;
use vstd::string::*;

verus! {

pub const QUOTE_CHAR: char = '\'';

pub const QUASI_QUOTE_CHAR: char = '`';

pub const UNQUOTE_CHAR: char = ',';

pub const QUOTE: &'static str = "quote";

pub const QUASI_QUOTE: &'static str = "quasiquote";

pub const UNQUOTE: &'static str = "unquote";

/// The name of the form that the mark `c` stands for, if `c` is a mark.
pub open spec fn mark_name(c: char) -> Option<Seq<char>> {
    if c == QUOTE_CHAR {
        Some(QUOTE@)
    } else if c == QUASI_QUOTE_CHAR {
        Some(QUASI_QUOTE@)
    } else if c == UNQUOTE_CHAR {
        Some(UNQUOTE@)
    } else {
        None
    }
}

/// The form called `name` around the value `x`.
pub open spec fn marked(name: Seq<char>, x: Sexp) -> Sexp {
    Sexp::List(seq![Sexp::Symbol(name), x])
}

/// The values from the place `i` on with their marks written out.
///
/// A symbol that is a mark alone takes the value behind it into its form; a
/// mark alone at the end stays as it is. A symbol that begins with a mark
/// becomes the form around the rest of the symbol. Any other value stays.
pub open spec fn expanded_from(v: Seq<Sexp>, i: nat) -> Seq<Sexp>
    decreases v.len() - i,
{
    if i >= v.len() {
        Seq::empty()
    } else {
        match v[i as int] {
            Sexp::Symbol(s) => if s.len() >= 1 && mark_name(s[0]) is Some {
                if s.len() == 1 {
                    if i + 1 < v.len() {
                        seq![marked(mark_name(s[0])->0, v[i as int + 1])] + expanded_from(v, i + 2)
                    } else {
                        seq![v[i as int]]
                    }
                } else {
                    seq![marked(mark_name(s[0])->0, Sexp::Symbol(s.skip(1)))] + expanded_from(
                        v,
                        i + 1,
                    )
                }
            } else {
                seq![v[i as int]] + expanded_from(v, i + 1)
            },
            _ => seq![v[i as int]] + expanded_from(v, i + 1),
        }
    }
}

/// The name of the form that the mark `c` stands for, if `c` is a mark.
pub fn name_of_mark(c: char) -> (r: Option<&'static str>)
    ensures
        r is Some <==> mark_name(c) is Some,
        r matches Some(n) ==> Some(n@) == mark_name(c),
{
    if c == QUOTE_CHAR {
        Some(QUOTE)
    } else if c == QUASI_QUOTE_CHAR {
        Some(QUASI_QUOTE)
    } else if c == UNQUOTE_CHAR {
        Some(UNQUOTE)
    } else {
        None
    }
}

/// The form called `name` around the value `x`.
fn mark(name: &'static str, x: LValue) -> (r: LValue)
    ensures
        r@ == marked(name@, x@),
{
    let mut items: Vec<LValue> = Vec::new();
    items.push(LValue::symbol(name));
    items.push(x);
    proof {
        lemma_list_model(items);
        assert(models(items@) =~= seq![Sexp::Symbol(name@), x@]);
    }
    LValue::List(items)
}

/// Writes out the marks of quotation among the values of a list, and
/// returns the list; `nil` when nothing is left.
pub fn _expand_quoting(vec: Vec<LValue>) -> (r: LValue)
    ensures
        r@ == Sexp::of_args(expanded_from(models(vec@), 0)),
{
    let ghost v = models(vec@);
    let mut out: Vec<LValue> = Vec::new();
    let mut i: usize = 0;
    assert(models(out@) + expanded_from(v, 0) =~= expanded_from(v, 0));
    while i < vec.len()
        invariant
            i <= vec.len(),
            v == models(vec@),
            models(out@) + expanded_from(v, i as nat) == expanded_from(v, 0),
        decreases vec.len() - i,
    {
        let ghost before = models(out@);
        assert(v[i as int] == vec@[i as int]@);
        let form: Option<&'static str> = match &vec[i] {
            LValue::Symbol(s) => if s.as_str().unicode_len() >= 1 {
                name_of_mark(s.as_str().get_char(0))
            } else {
                None
            },
            _ => None,
        };
        match (&vec[i], form) {
            (LValue::Symbol(s), Some(name)) => {
                let n = s.as_str().unicode_len();
                if n == 1 {
                    if i + 1 < vec.len() {
                        assert(v[i + 1] == vec@[i + 1]@);
                        let item = mark(name, vec[i + 1].clone());
                        out.push(item);
                        assert(models(out@) + expanded_from(v, (i + 2) as nat) =~= before
                            + expanded_from(v, i as nat));
                        i += 2;
                    } else {
                        out.push(vec[i].clone());
                        assert(models(out@) + expanded_from(v, (i + 1) as nat) =~= before
                            + expanded_from(v, i as nat));
                        i += 1;
                    }
                } else {
                    let rest = String::from_str(s.as_str().substring_char(1, n));
                    assert(rest@ =~= s@.skip(1));
                    let item = mark(name, LValue::Symbol(rest));
                    out.push(item);
                    assert(models(out@) + expanded_from(v, (i + 1) as nat) =~= before
                        + expanded_from(v, i as nat));
                    i += 1;
                }
            },
            _ => {
                out.push(vec[i].clone());
                assert(models(out@) + expanded_from(v, (i + 1) as nat) =~= before + expanded_from(
                    v,
                    i as nat,
                ));
                i += 1;
            },
        }
    }
    assert(models(out@) =~= expanded_from(v, 0));
    if out.len() == 0 {
        LValue::Nil
    } else {
        LValue::list(out)
    }
}

} // verus!
