//! The error of the expression language: a message and the trace of the
//! contexts it went through.
use crate::lvalue::{models, KindLValue, LValue, Sexp};
use crate::text::{kind_text, kind_to_str, nat_text, usize_to_string};
use std::collections::VecDeque;
use std::ops::Range;
use vstd::prelude::*;

verus! {

/// An error raised while a domain body is expanded or evaluated.
///
/// The first entry of the trace is the outermost context.
#[derive(Debug)]
pub struct LRuntimeError {
    backtrace: VecDeque<String>,
    message: String,
}

/// Result of an evaluation.
pub type LResult = Result<LValue, LRuntimeError>;

/// The views of a sequence of strings.
pub open spec fn texts(s: Seq<String>) -> Seq<Seq<char>> {
    Seq::new(s.len(), |i: int| s[i]@)
}

/// What the message of a wrongly typed value says.
pub open spec fn wrong_type_text(lv: Sexp, expected: KindLValue) -> Seq<char> {
    "Wrong type: "@ + lv.text() + " is a "@ + kind_text(lv.kind()) + ", expected "@ + kind_text(
        expected,
    ) + "."@
}

/// How an expected number of arguments is worded: an empty range stands for
/// exactly its start, an end at the largest index for no upper limit, a start
/// at zero for no lower limit.
pub open spec fn expected_text(start: nat, end: nat) -> Seq<char> {
    if start >= end {
        "expected "@ + nat_text(start)
    } else if end == usize::MAX {
        "expected at least "@ + nat_text(start)
    } else if start == 0 {
        "expected at most "@ + nat_text(end)
    } else {
        "expected between "@ + nat_text(start) + " and "@ + nat_text(end)
    }
}

/// What the message of a wrong number of arguments says.
pub open spec fn wrong_number_text(args: Seq<Sexp>, start: nat, end: nat) -> Seq<char> {
    "Wrong number of args: "@ + Sexp::of_args(args).text() + " is of length "@ + nat_text(
        args.len(),
    ) + ", "@ + expected_text(start, end) + "."@
}

/// The variant name of a kind.
pub open spec fn kind_name(k: KindLValue) -> Seq<char> {
    match k {
        KindLValue::Nil => "Nil"@,
        KindLValue::Bool => "Bool"@,
        KindLValue::Number => "Number"@,
        KindLValue::Int => "Int"@,
        KindLValue::Usize => "Usize"@,
        KindLValue::Symbol => "Symbol"@,
        KindLValue::String => "String"@,
        KindLValue::Character => "Character"@,
        KindLValue::List => "List"@,
        KindLValue::Failure => "Err"@,
        KindLValue::CoreOperator => "CoreOperator"@,
        KindLValue::Lambda => "Lambda"@,
        KindLValue::Fn => "Fn"@,
        KindLValue::Handle => "Handle"@,
    }
}

/// The first `n` kinds, one per line, indented and followed by a comma.
pub open spec fn kind_lines(kinds: Seq<KindLValue>, n: nat) -> Seq<char>
    decreases n,
{
    if n == 0 || n > kinds.len() {
        Seq::empty()
    } else {
        kind_lines(kinds, (n - 1) as nat) + "\n    "@ + kind_name(kinds[n - 1]) + ","@
    }
}

/// A list of kinds between square brackets, one kind per line.
pub open spec fn kinds_text(kinds: Seq<KindLValue>) -> Seq<char> {
    if kinds.len() == 0 {
        "[]"@
    } else {
        "["@ + kind_lines(kinds, kinds.len()) + "\n]"@
    }
}

/// What the message says when a value is of none of the expected kinds.
pub open spec fn not_expected_text(lv: Sexp, kinds: Seq<KindLValue>) -> Seq<char> {
    "Wrong type: "@ + lv.text() + " is a "@ + kind_text(lv.kind()) + ", expected either one of "@
        + kinds_text(kinds) + "."@
}

/// What the message of a failed conversion says.
pub open spec fn conversion_text(shown: Seq<char>, from: Seq<char>, into: Seq<char>) -> Seq<char> {
    "Cannot convert "@ + shown + " of type "@ + from + " into "@ + into
}

/// The first `n` contexts of a trace, each followed by a colon.
pub open spec fn trace_text(trace: Seq<Seq<char>>, n: nat) -> Seq<char>
    decreases n,
{
    if n == 0 || n > trace.len() {
        Seq::empty()
    } else {
        trace_text(trace, (n - 1) as nat) + trace[n - 1] + ":"@
    }
}

/// The variant name of a kind.
pub fn kind_to_name(k: KindLValue) -> (r: &'static str)
    ensures
        r@ == kind_name(k),
{
    match k {
        KindLValue::Nil => "Nil",
        KindLValue::Bool => "Bool",
        KindLValue::Number => "Number",
        KindLValue::Int => "Int",
        KindLValue::Usize => "Usize",
        KindLValue::Symbol => "Symbol",
        KindLValue::String => "String",
        KindLValue::Character => "Character",
        KindLValue::List => "List",
        KindLValue::Failure => "Err",
        KindLValue::CoreOperator => "CoreOperator",
        KindLValue::Lambda => "Lambda",
        KindLValue::Fn => "Fn",
        KindLValue::Handle => "Handle",
    }
}

/// Words an expected number of arguments.
pub fn expected_to_string(start: usize, end: usize) -> (r: String)
    ensures
        r@ == expected_text(start as nat, end as nat),
{
    if start >= end {
        let mut r = String::from_str("expected ");
        r.append(usize_to_string(start).as_str());
        r
    } else if end == usize::MAX {
        let mut r = String::from_str("expected at least ");
        r.append(usize_to_string(start).as_str());
        r
    } else if start == 0 {
        let mut r = String::from_str("expected at most ");
        r.append(usize_to_string(end).as_str());
        r
    } else {
        let mut r = String::from_str("expected between ");
        r.append(usize_to_string(start).as_str());
        r.append(" and ");
        r.append(usize_to_string(end).as_str());
        r
    }
}

/// Writes a list of kinds between square brackets, one kind per line.
pub fn kinds_to_string(kinds: &Vec<KindLValue>) -> (r: String)
    ensures
        r@ == kinds_text(kinds@),
{
    if kinds.len() == 0 {
        return String::from_str("[]");
    }
    let mut r = String::from_str("[");
    let mut i: usize = 0;
    while i < kinds.len()
        invariant
            i <= kinds.len(),
            r@ == "["@ + kind_lines(kinds@, i as nat),
        decreases kinds.len() - i,
    {
        r.append("\n    ");
        r.append(kind_to_name(kinds[i]));
        r.append(",");
        i += 1;
        assert(r@ =~= "["@ + kind_lines(kinds@, i as nat));
    }
    r.append("\n]");
    r
}

impl LRuntimeError {
    /// The contexts the error went through, outermost first.
    pub closed spec fn trace(self) -> Seq<Seq<char>> {
        texts(self.backtrace@)
    }

    /// The message of the error.
    pub closed spec fn message(self) -> Seq<char> {
        self.message@
    }

    /// What the error prints: the contexts of the trace, each followed by a
    /// colon, a space, the message and a line feed.
    pub open spec fn text(self) -> Seq<char> {
        trace_text(self.trace(), self.trace().len()) + " "@ + self.message() + "\n"@
    }

    fn raise(context: &str, message: String) -> (e: Self)
        ensures
            e.trace() == seq![context@],
            e.message() == message@,
    {
        let mut backtrace: VecDeque<String> = VecDeque::new();
        backtrace.push_back(String::from_str(context));
        let e = LRuntimeError { backtrace, message };
        assert(e.trace() =~= seq![context@]);
        e
    }

    /// Puts `context` in front of the trace.
    pub fn chain(self, context: &str) -> (e: Self)
        ensures
            e.trace() == seq![context@] + self.trace(),
            e.message() == self.message(),
    {
        let mut backtrace = self.backtrace;
        backtrace.push_front(String::from_str(context));
        let e = LRuntimeError { backtrace, message: self.message };
        assert(e.trace() =~= seq![context@] + self.trace());
        e
    }

    /// An error raised in `context` with the given message.
    pub fn new(context: &str, message: &str) -> (e: Self)
        ensures
            e.trace() == seq![context@],
            e.message() == message@,
    {
        Self::raise(context, String::from_str(message))
    }

    /// The error of a value that is not of the expected kind.
    pub fn wrong_type(context: &str, lv: &LValue, expected: KindLValue) -> (e: Self)
        ensures
            e.trace() == seq![context@],
            e.message() == wrong_type_text(lv@, expected),
    {
        let mut m = String::from_str("Wrong type: ");
        m.append(lv.to_string().as_str());
        m.append(" is a ");
        m.append(kind_to_str(lv.get_kind()));
        m.append(", expected ");
        m.append(kind_to_str(expected));
        m.append(".");
        Self::raise(context, m)
    }

    /// The error of a call with a number of arguments outside `expected`.
    pub fn wrong_number_of_args(context: &str, lv: &[LValue], expected: Range<usize>) -> (e: Self)
        ensures
            e.trace() == seq![context@],
            e.message() == wrong_number_text(
                models(lv@),
                expected.start as nat,
                expected.end as nat,
            ),
    {
        let mut m = String::from_str("Wrong number of args: ");
        m.append(LValue::from_args(lv).to_string().as_str());
        m.append(" is of length ");
        m.append(usize_to_string(lv.len()).as_str());
        m.append(", ");
        m.append(expected_to_string(expected.start, expected.end).as_str());
        m.append(".");
        assert(models(lv@).len() == lv@.len());
        Self::raise(context, m)
    }

    /// The error of a value that is of none of the kinds of `t`.
    pub fn not_in_list_of_expected_types(context: &str, lv: &LValue, t: Vec<KindLValue>) -> (e:
        Self)
        ensures
            e.trace() == seq![context@],
            e.message() == not_expected_text(lv@, t@),
    {
        let mut m = String::from_str("Wrong type: ");
        m.append(lv.to_string().as_str());
        m.append(" is a ");
        m.append(kind_to_str(lv.get_kind()));
        m.append(", expected either one of ");
        m.append(kinds_to_string(&t).as_str());
        m.append(".");
        Self::raise(context, m)
    }

    /// The error of a value that cannot be converted into `kind`.
    pub fn conversion_error(context: &str, lv: &LValue, kind: KindLValue) -> (e: Self)
        ensures
            e.trace() == seq![context@],
            e.message() == conversion_text(lv@.text(), kind_text(lv@.kind()), kind_text(kind)),
    {
        let mut m = String::from_str("Cannot convert ");
        m.append(lv.to_string().as_str());
        m.append(" of type ");
        m.append(kind_to_str(lv.get_kind()));
        m.append(" into ");
        m.append(kind_to_str(kind));
        Self::raise(context, m)
    }

    /// The error of a conversion between two types that are named by the
    /// caller; `lv` is the printed form of the value.
    pub fn extended_conversion_error(context: &str, lv: &str, from: &str, into: &str) -> (e: Self)
        ensures
            e.trace() == seq![context@],
            e.message() == conversion_text(lv@, from@, into@),
    {
        let mut m = String::from_str("Cannot convert ");
        m.append(lv);
        m.append(" of type ");
        m.append(from);
        m.append(" into ");
        m.append(into);
        Self::raise(context, m)
    }

    /// The message of the error.
    pub fn get_message(&self) -> (m: &String)
        ensures
            m@ == self.message(),
    {
        &self.message
    }

    /// The printed form of the error.
    pub fn to_string(&self) -> (r: String)
        ensures
            r@ == self.text(),
    {
        let mut r = String::new();
        let mut i: usize = 0;
        while i < self.backtrace.len()
            invariant
                i <= self.backtrace.len(),
                self.trace().len() == self.backtrace.len(),
                r@ == trace_text(self.trace(), i as nat),
            decreases self.backtrace.len() - i,
        {
            r.append(self.backtrace[i].as_str());
            r.append(":");
            i += 1;
            assert(r@ =~= trace_text(self.trace(), i as nat));
        }
        r.append(" ");
        r.append(self.message.as_str());
        r.append("\n");
        r
    }
}

} // verus!
