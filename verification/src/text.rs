//! The printed form of numbers and values.
use crate::lvalue::{KindLValue, LCoreOperator, LNumber, LValue, LambdaArgs, ParamsModel, Sexp};
use vstd::prelude::*;

verus! {

/// Appends one character to a string.
///
/// Trusted: `String::push` of the standard library appends the given
/// character at the end of the string and changes nothing else.
#[verifier::external_body]
pub(crate) fn push_char(s: &mut String, c: char)
    ensures
        final(s)@ == old(s)@.push(c),
{
    s.push(c);
}

/// Tells whether two string slices hold the same text.
pub fn str_eq(a: &str, b: &str) -> (r: bool)
    ensures
        r == (a@ == b@),
{
    String::from_str(a) == String::from_str(b)
}

/// The decimal digit `d`, for `0 <= d < 10`.
pub open spec fn digit_text(d: int) -> Seq<char> {
    if d == 0 {
        seq!['0']
    } else if d == 1 {
        seq!['1']
    } else if d == 2 {
        seq!['2']
    } else if d == 3 {
        seq!['3']
    } else if d == 4 {
        seq!['4']
    } else if d == 5 {
        seq!['5']
    } else if d == 6 {
        seq!['6']
    } else if d == 7 {
        seq!['7']
    } else if d == 8 {
        seq!['8']
    } else {
        seq!['9']
    }
}

/// The decimal writing of a natural number, without leading zeros.
pub open spec fn nat_text(n: nat) -> Seq<char>
    decreases n,
{
    if n < 10 {
        digit_text(n as int)
    } else {
        nat_text(n / 10) + digit_text((n % 10) as int)
    }
}

/// The decimal writing of an integer, with a leading minus sign when negative.
pub open spec fn int_text(i: int) -> Seq<char> {
    if i < 0 {
        seq!['-'] + nat_text((-i) as nat)
    } else {
        nat_text(i as nat)
    }
}

/// The texts of a sequence, each followed by nothing, separated by `sep`.
pub open spec fn join_text(parts: Seq<Seq<char>>, sep: Seq<char>, n: nat) -> Seq<char>
    decreases n,
{
    if n == 0 || n > parts.len() {
        Seq::empty()
    } else if n == 1 {
        parts[0]
    } else {
        join_text(parts, sep, (n - 1) as nat) + sep + parts[n - 1]
    }
}

/// The name of a core operator.
pub open spec fn operator_text(co: LCoreOperator) -> Seq<char> {
    match co {
        LCoreOperator::Define => "define"@,
        LCoreOperator::DefLambda => "lambda"@,
        LCoreOperator::If => "if"@,
        LCoreOperator::Quote => "quote"@,
        LCoreOperator::QuasiQuote => "quasiquote"@,
        LCoreOperator::UnQuote => "unquote"@,
        LCoreOperator::DefMacro => "defmacro"@,
        LCoreOperator::Begin => "begin"@,
        LCoreOperator::Do => "do"@,
        LCoreOperator::Async => "async"@,
        LCoreOperator::Await => "await"@,
        LCoreOperator::Eval => "eval"@,
        LCoreOperator::Parse => "parse"@,
        LCoreOperator::Expand => "expand"@,
    }
}

/// The name of a kind of value.
pub open spec fn kind_text(k: KindLValue) -> Seq<char> {
    match k {
        KindLValue::Nil => "nil"@,
        KindLValue::Bool => "bool"@,
        KindLValue::Number => "number"@,
        KindLValue::Int => "int"@,
        KindLValue::Usize => "usize"@,
        KindLValue::Symbol => "symbol"@,
        KindLValue::String => "string"@,
        KindLValue::Character => "character"@,
        KindLValue::List => "list"@,
        KindLValue::Failure => "err"@,
        KindLValue::CoreOperator => "core-operator"@,
        KindLValue::Lambda => "lambda"@,
        KindLValue::Fn => "fn"@,
        KindLValue::Handle => "handle"@,
    }
}

/// The printed form of the formal parameters of a lambda.
pub open spec fn params_text(p: ParamsModel) -> Seq<char> {
    match p {
        ParamsModel::Sym(s) => s,
        ParamsModel::List(l) => seq!['('] + join_text(l, seq![' '], l.len()) + seq![')'],
        ParamsModel::Nil => "nil"@,
    }
}

impl Sexp {
    /// The printed form of a value: `nil`, `true`, numbers in decimal, symbols
    /// and strings as they are, lists between parentheses with one space
    /// between two items.
    pub open spec fn text(self) -> Seq<char>
        decreases self, 0nat,
    {
        match self {
            Sexp::Nil => "nil"@,
            Sexp::True => "true"@,
            Sexp::Number(n) => int_text(n.value()),
            Sexp::Symbol(s) => s,
            Sexp::Text(s) => s,
            Sexp::Character(c) => seq![c],
            Sexp::List(l) => seq!['('] + Self::items_text(l, l.len()) + seq![')'],
            Sexp::Failure(e) => "(err "@ + (*e).text() + seq![')'],
            Sexp::CoreOperator(co) => operator_text(co),
            Sexp::Lambda(p, b) => "(lambda "@ + params_text(p) + seq![' '] + (*b).text() + seq![
                ')',
            ],
            Sexp::Fn(s) => s,
            Sexp::Handle(h) => "handle-"@ + nat_text(h),
        }
    }

    /// The printed forms of the first `n` items of `l`, separated by spaces.
    pub open spec fn items_text(l: Seq<Sexp>, n: nat) -> Seq<char>
        decreases l, n,
    {
        if n == 0 || n > l.len() {
            Seq::empty()
        } else if n == 1 {
            l[0].text()
        } else {
            Self::items_text(l, (n - 1) as nat) + seq![' '] + l[n - 1].text()
        }
    }
}

/// Writes one decimal digit.
pub fn digit_to_str(d: u8) -> (r: &'static str)
    requires
        d < 10,
    ensures
        r@ == digit_text(d as int),
{
    proof {
        reveal_strlit("0");
        reveal_strlit("1");
        reveal_strlit("2");
        reveal_strlit("3");
        reveal_strlit("4");
        reveal_strlit("5");
        reveal_strlit("6");
        reveal_strlit("7");
        reveal_strlit("8");
        reveal_strlit("9");
    }
    let r = if d == 0 {
        "0"
    } else if d == 1 {
        "1"
    } else if d == 2 {
        "2"
    } else if d == 3 {
        "3"
    } else if d == 4 {
        "4"
    } else if d == 5 {
        "5"
    } else if d == 6 {
        "6"
    } else if d == 7 {
        "7"
    } else if d == 8 {
        "8"
    } else {
        "9"
    };
    assert(r@ =~= digit_text(d as int));
    r
}

/// Writes a natural number in decimal.
pub fn u64_to_string(n: u64) -> (r: String)
    ensures
        r@ == nat_text(n as nat),
    decreases n,
{
    if n < 10 {
        String::from_str(digit_to_str(n as u8))
    } else {
        let mut s = u64_to_string(n / 10);
        s.append(digit_to_str((n % 10) as u8));
        s
    }
}

/// Writes a length or an index in decimal.
pub fn usize_to_string(n: usize) -> (r: String)
    ensures
        r@ == nat_text(n as nat),
{
    u64_to_string(n as u64)
}

/// Writes a signed integer in decimal.
pub fn i64_to_string(i: i64) -> (r: String)
    ensures
        r@ == int_text(i as int),
{
    if i < 0 {
        let m: u64 = ((-(i + 1)) as u64) + 1;
        let mut s = String::from_str("-");
        proof {
            reveal_strlit("-");
        }
        let digits = u64_to_string(m);
        s.append(digits.as_str());
        assert(s@ =~= int_text(i as int));
        s
    } else {
        u64_to_string(i as u64)
    }
}

/// The name of a core operator.
pub fn operator_to_str(co: LCoreOperator) -> (r: &'static str)
    ensures
        r@ == operator_text(co),
{
    match co {
        LCoreOperator::Define => "define",
        LCoreOperator::DefLambda => "lambda",
        LCoreOperator::If => "if",
        LCoreOperator::Quote => "quote",
        LCoreOperator::QuasiQuote => "quasiquote",
        LCoreOperator::UnQuote => "unquote",
        LCoreOperator::DefMacro => "defmacro",
        LCoreOperator::Begin => "begin",
        LCoreOperator::Do => "do",
        LCoreOperator::Async => "async",
        LCoreOperator::Await => "await",
        LCoreOperator::Eval => "eval",
        LCoreOperator::Parse => "parse",
        LCoreOperator::Expand => "expand",
    }
}

/// The name of a kind of value.
pub fn kind_to_str(k: KindLValue) -> (r: &'static str)
    ensures
        r@ == kind_text(k),
{
    match k {
        KindLValue::Nil => "nil",
        KindLValue::Bool => "bool",
        KindLValue::Number => "number",
        KindLValue::Int => "int",
        KindLValue::Usize => "usize",
        KindLValue::Symbol => "symbol",
        KindLValue::String => "string",
        KindLValue::Character => "character",
        KindLValue::List => "list",
        KindLValue::Failure => "err",
        KindLValue::CoreOperator => "core-operator",
        KindLValue::Lambda => "lambda",
        KindLValue::Fn => "fn",
        KindLValue::Handle => "handle",
    }
}

impl LNumber {
    /// Writes the number in decimal.
    pub fn to_string(&self) -> (r: String)
        ensures
            r@ == int_text(self.value()),
    {
        match self {
            LNumber::Int(i) => i64_to_string(*i),
            LNumber::Usize(u) => {
                let r = usize_to_string(*u);
                r
            },
        }
    }
}

impl LambdaArgs {
    /// The printed form of the parameters.
    pub fn to_string(&self) -> (r: String)
        ensures
            r@ == params_text(self@),
    {
        match self {
            LambdaArgs::Sym(s) => s.clone(),
            LambdaArgs::List(l) => {
                let mut r = String::from_str("(");
                proof {
                    reveal_strlit("(");
                    reveal_strlit(" ");
                    reveal_strlit(")");
                }
                let ghost parts = self@->List_0;
                let mut i: usize = 0;
                while i < l.len()
                    invariant
                        i <= l.len(),
                        parts.len() == l.len(),
                        forall|j: int| 0 <= j < l.len() ==> parts[j] == l[j]@,
                        r@ == seq!['('] + join_text(parts, seq![' '], i as nat),
                        " "@ == seq![' '],
                    decreases l.len() - i,
                {
                    if i > 0 {
                        r.append(" ");
                    }
                    r.append(l[i].as_str());
                    i += 1;
                    assert(r@ =~= seq!['('] + join_text(parts, seq![' '], i as nat));
                }
                r.append(")");
                assert(r@ =~= params_text(self@));
                r
            },
            LambdaArgs::Nil => String::from_str("nil"),
        }
    }
}

impl LValue {
    /// The printed form of the value.
    pub fn to_string(&self) -> (r: String)
        ensures
            r@ == self@.text(),
        decreases *self,
    {
        match self {
            LValue::Nil => String::from_str("nil"),
            LValue::True => String::from_str("true"),
            LValue::Number(n) => n.to_string(),
            LValue::Symbol(s) => s.clone(),
            LValue::String(s) => s.clone(),
            LValue::Character(c) => {
                let mut r = String::new();
                push_char(&mut r, *c);
                assert(r@ =~= seq![*c]);
                r
            },
            LValue::List(l) => {
                let mut r = String::from_str("(");
                proof {
                    reveal_strlit("(");
                    reveal_strlit(" ");
                    reveal_strlit(")");
                }
                let ghost items = self@->List_0;
                let mut i: usize = 0;
                while i < l.len()
                    invariant
                        i <= l.len(),
                        items.len() == l.len(),
                        forall|j: int| 0 <= j < l.len() ==> items[j] == l[j]@,
                        r@ == seq!['('] + Sexp::items_text(items, i as nat),
                        " "@ == seq![' '],
                        self is List,
                        self->List_0 == *l,
                    decreases l.len() - i,
                {
                    proof {
                        assert(decreases_to!(*self => self->List_0));
                    }
                    if i > 0 {
                        r.append(" ");
                    }
                    let item = l[i].to_string();
                    r.append(item.as_str());
                    i += 1;
                    assert(r@ =~= seq!['('] + Sexp::items_text(items, i as nat));
                }
                r.append(")");
                assert(r@ =~= self@.text());
                r
            },
            LValue::Failure(e) => {
                let inner: &LValue = e;
                let mut r = String::from_str("(err ");
                proof {
                    reveal_strlit(")");
                }
                let t = inner.to_string();
                r.append(t.as_str());
                r.append(")");
                assert(r@ =~= self@.text());
                r
            },
            LValue::CoreOperator(co) => String::from_str(operator_to_str(*co)),
            LValue::Lambda(l) => {
                let body: &LValue = &l.body;
                let mut r = String::from_str("(lambda ");
                proof {
                    reveal_strlit(" ");
                    reveal_strlit(")");
                }
                let p = l.params.to_string();
                r.append(p.as_str());
                r.append(" ");
                let b = body.to_string();
                r.append(b.as_str());
                r.append(")");
                assert(r@ =~= self@.text());
                r
            },
            LValue::Fn(s) => s.clone(),
            LValue::Handle(h) => {
                let mut r = String::from_str("handle-");
                let n = usize_to_string(*h);
                r.append(n.as_str());
                r
            },
        }
    }
}

} // verus!
