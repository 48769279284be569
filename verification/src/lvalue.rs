//! Values of the embedded expression language and their mathematical model.
use vstd::prelude::*;

verus! {

/// A number of the expression language. Only integers are represented.
#[derive(Clone, Copy, Debug, PartialEq, Eq, Structural)]
pub enum LNumber {
    Int(i64),
    Usize(usize),
}

impl LNumber {
    /// The integer that the number denotes.
    pub open spec fn value(self) -> int {
        match self {
            LNumber::Int(i) => i as int,
            LNumber::Usize(u) => u as int,
        }
    }
}

/// The operators that the evaluator handles itself.
#[derive(Clone, Copy, Debug, PartialEq, Eq, Structural)]
pub enum LCoreOperator {
    Define,
    DefLambda,
    If,
    Quote,
    QuasiQuote,
    UnQuote,
    DefMacro,
    Begin,
    Do,
    Async,
    Await,
    Eval,
    Parse,
    Expand,
}

/// The kind of a value, used by the type predicates and in error messages.
#[derive(Clone, Copy, Debug, PartialEq, Eq, Structural)]
pub enum KindLValue {
    Nil,
    Bool,
    Number,
    Int,
    Usize,
    Symbol,
    String,
    Character,
    List,
    Failure,
    CoreOperator,
    Lambda,
    Fn,
    Handle,
}

/// The formal parameters of a lambda.
#[derive(Debug)]
pub enum LambdaArgs {
    /// One symbol that receives the whole argument list.
    Sym(String),
    /// One symbol per argument.
    List(Vec<String>),
    /// No parameter.
    Nil,
}

/// A lambda: formal parameters and a body.
#[derive(Debug)]
pub struct LLambda {
    pub params: LambdaArgs,
    pub body: Box<LValue>,
}

/// A value of the expression language.
#[derive(Debug)]
pub enum LValue {
    Nil,
    True,
    Number(LNumber),
    Symbol(String),
    String(String),
    Character(char),
    List(Vec<LValue>),
    /// A value flagged as an error.
    Failure(Box<LValue>),
    CoreOperator(LCoreOperator),
    Lambda(LLambda),
    /// A native function, named by its label.
    Fn(String),
    /// The handle of an asynchronous evaluation.
    Handle(usize),
}

/// Model of the formal parameters of a lambda.
pub enum ParamsModel {
    Sym(Seq<char>),
    List(Seq<Seq<char>>),
    Nil,
}

/// Mathematical model of a value: strings become sequences of characters and
/// vectors become sequences.
pub enum Sexp {
    Nil,
    True,
    Number(LNumber),
    Symbol(Seq<char>),
    Text(Seq<char>),
    Character(char),
    List(Seq<Sexp>),
    Failure(Box<Sexp>),
    CoreOperator(LCoreOperator),
    Lambda(ParamsModel, Box<Sexp>),
    Fn(Seq<char>),
    Handle(nat),
}

/// The views of a sequence of strings.
pub open spec fn string_views(s: Seq<String>) -> Seq<Seq<char>> {
    Seq::new(s.len(), |i: int| s[i]@)
}

impl View for LambdaArgs {
    type V = ParamsModel;

    open spec fn view(&self) -> ParamsModel {
        match self {
            LambdaArgs::Sym(s) => ParamsModel::Sym(s@),
            LambdaArgs::List(l) => ParamsModel::List(string_views(l@)),
            LambdaArgs::Nil => ParamsModel::Nil,
        }
    }
}

impl LValue {
    /// The model of the value.
    pub open spec fn model(self) -> Sexp
        decreases self,
    {
        match self {
            LValue::Nil => Sexp::Nil,
            LValue::True => Sexp::True,
            LValue::Number(n) => Sexp::Number(n),
            LValue::Symbol(s) => Sexp::Symbol(s@),
            LValue::String(s) => Sexp::Text(s@),
            LValue::Character(c) => Sexp::Character(c),
            LValue::List(l) => Sexp::List(
                Seq::new(
                    l@.len(),
                    |i: int|
                        if 0 <= i < l@.len() {
                            l@[i].model()
                        } else {
                            Sexp::Nil
                        },
                ),
            ),
            LValue::Failure(e) => Sexp::Failure(Box::new((*e).model())),
            LValue::CoreOperator(co) => Sexp::CoreOperator(co),
            LValue::Lambda(l) => Sexp::Lambda(l.params@, Box::new((*l.body).model())),
            LValue::Fn(s) => Sexp::Fn(s@),
            LValue::Handle(h) => Sexp::Handle(h as nat),
        }
    }
}

impl View for LValue {
    type V = Sexp;

    open spec fn view(&self) -> Sexp {
        self.model()
    }
}

/// The models of a sequence of values.
pub open spec fn models(s: Seq<LValue>) -> Seq<Sexp> {
    Seq::new(s.len(), |i: int| s[i]@)
}

/// The model of a list value is the list of the models of its items.
pub proof fn lemma_list_model(v: Vec<LValue>)
    ensures
        LValue::List(v)@ == Sexp::List(models(v@)),
{
    assert(LValue::List(v).model()->List_0 =~= models(v@));
}

/// Copies a string.
pub fn clone_string(s: &String) -> (r: String)
    ensures
        r@ == s@,
{
    s.clone()
}

/// Copies a vector of strings.
pub fn clone_strings(v: &Vec<String>) -> (r: Vec<String>)
    ensures
        string_views(r@) == string_views(v@),
{
    let mut r: Vec<String> = Vec::new();
    let mut i: usize = 0;
    while i < v.len()
        invariant
            i <= v.len(),
            r.len() == i,
            forall|j: int| 0 <= j < i ==> r[j]@ == v[j]@,
        decreases v.len() - i,
    {
        r.push(v[i].clone());
        i += 1;
    }
    assert(string_views(r@) =~= string_views(v@));
    r
}

impl Clone for LambdaArgs {
    fn clone(&self) -> (r: Self)
        ensures
            r@ == self@,
    {
        match self {
            LambdaArgs::Sym(s) => LambdaArgs::Sym(s.clone()),
            LambdaArgs::List(l) => LambdaArgs::List(clone_strings(l)),
            LambdaArgs::Nil => LambdaArgs::Nil,
        }
    }
}

impl Clone for LValue {
    fn clone(&self) -> (r: Self)
        ensures
            r@ == self@,
        decreases *self,
    {
        match self {
            LValue::Nil => LValue::Nil,
            LValue::True => LValue::True,
            LValue::Number(n) => LValue::Number(*n),
            LValue::Symbol(s) => LValue::Symbol(s.clone()),
            LValue::String(s) => LValue::String(s.clone()),
            LValue::Character(c) => LValue::Character(*c),
            LValue::List(l) => {
                let mut v: Vec<LValue> = Vec::new();
                let mut i: usize = 0;
                while i < l.len()
                    invariant
                        i <= l.len(),
                        v.len() == i,
                        forall|j: int| 0 <= j < i ==> v[j]@ == l[j]@,
                        self is List,
                        self->List_0 == *l,
                    decreases l.len() - i,
                {
                    proof {
                        assert(decreases_to!(*self => self->List_0));
                    }
                    let c = l[i].clone();
                    v.push(c);
                    i += 1;
                }
                proof {
                    lemma_list_model(v);
                    lemma_list_model(*l);
                    assert(models(v@) =~= models(l@));
                }
                LValue::List(v)
            },
            LValue::Failure(e) => {
                let inner: &LValue = e;
                LValue::Failure(Box::new(inner.clone()))
            },
            LValue::CoreOperator(co) => LValue::CoreOperator(*co),
            LValue::Lambda(l) => {
                let body: &LValue = &l.body;
                LValue::Lambda(LLambda { params: l.params.clone(), body: Box::new(body.clone()) })
            },
            LValue::Fn(s) => LValue::Fn(s.clone()),
            LValue::Handle(h) => LValue::Handle(*h),
        }
    }
}

impl Clone for LLambda {
    fn clone(&self) -> (r: Self)
        ensures
            r.params@ == self.params@,
            r.body@ == self.body@,
    {
        let body: &LValue = &self.body;
        LLambda { params: self.params.clone(), body: Box::new(body.clone()) }
    }
}

impl Sexp {
    /// The kind of a value.
    pub open spec fn kind(self) -> KindLValue {
        match self {
            Sexp::Nil => KindLValue::Nil,
            Sexp::True => KindLValue::Bool,
            Sexp::Number(LNumber::Int(_)) => KindLValue::Int,
            Sexp::Number(LNumber::Usize(_)) => KindLValue::Usize,
            Sexp::Symbol(_) => KindLValue::Symbol,
            Sexp::Text(_) => KindLValue::String,
            Sexp::Character(_) => KindLValue::Character,
            Sexp::List(_) => KindLValue::List,
            Sexp::Failure(_) => KindLValue::Failure,
            Sexp::CoreOperator(_) => KindLValue::CoreOperator,
            Sexp::Lambda(_, _) => KindLValue::Lambda,
            Sexp::Fn(_) => KindLValue::Fn,
            Sexp::Handle(_) => KindLValue::Handle,
        }
    }

    /// The value that stands for a sequence of arguments: `nil` when there is
    /// none, the list of them otherwise.
    pub open spec fn of_args(args: Seq<Sexp>) -> Sexp {
        if args.len() == 0 {
            Sexp::Nil
        } else {
            Sexp::List(args)
        }
    }

    /// The boolean `b` as a value: `true` or `nil`.
    pub open spec fn of_bool(b: bool) -> Sexp {
        if b {
            Sexp::True
        } else {
            Sexp::Nil
        }
    }
}

impl LValue {
    /// The kind of the value.
    pub fn get_kind(&self) -> (k: KindLValue)
        ensures
            k == self@.kind(),
    {
        match self {
            LValue::Nil => KindLValue::Nil,
            LValue::True => KindLValue::Bool,
            LValue::Number(LNumber::Int(_)) => KindLValue::Int,
            LValue::Number(LNumber::Usize(_)) => KindLValue::Usize,
            LValue::Symbol(_) => KindLValue::Symbol,
            LValue::String(_) => KindLValue::String,
            LValue::Character(_) => KindLValue::Character,
            LValue::List(_) => KindLValue::List,
            LValue::Failure(_) => KindLValue::Failure,
            LValue::CoreOperator(_) => KindLValue::CoreOperator,
            LValue::Lambda(_) => KindLValue::Lambda,
            LValue::Fn(_) => KindLValue::Fn,
            LValue::Handle(_) => KindLValue::Handle,
        }
    }

    /// The boolean `b` as a value.
    pub fn from_bool(b: bool) -> (r: LValue)
        ensures
            r@ == Sexp::of_bool(b),
    {
        if b {
            LValue::True
        } else {
            LValue::Nil
        }
    }

    /// The integer `i` as a value.
    pub fn from_int(i: i64) -> (r: LValue)
        ensures
            r@ == Sexp::Number(LNumber::Int(i)),
    {
        LValue::Number(LNumber::Int(i))
    }

    /// The symbol written `s`.
    pub fn symbol(s: &str) -> (r: LValue)
        ensures
            r@ == Sexp::Symbol(s@),
    {
        LValue::Symbol(String::from_str(s))
    }

    /// The list of the given items.
    pub fn list(items: Vec<LValue>) -> (r: LValue)
        ensures
            r@ == Sexp::List(models(items@)),
    {
        proof {
            lemma_list_model(items);
        }
        LValue::List(items)
    }

    /// The value flagged as an error.
    pub fn failure(inner: LValue) -> (r: LValue)
        ensures
            r@ == Sexp::Failure(Box::new(inner@)),
    {
        LValue::Failure(Box::new(inner))
    }

    /// The value that stands for a slice of arguments: `nil` when it is
    /// empty, the list of the arguments otherwise.
    pub fn from_args(args: &[LValue]) -> (r: LValue)
        ensures
            r@ == Sexp::of_args(models(args@)),
    {
        if args.len() == 0 {
            LValue::Nil
        } else {
            let v = clone_values(args);
            LValue::list(v)
        }
    }
}

/// Copies a slice of values into a vector.
pub fn clone_values(args: &[LValue]) -> (r: Vec<LValue>)
    ensures
        models(r@) == models(args@),
{
    let mut v: Vec<LValue> = Vec::new();
    let mut i: usize = 0;
    while i < args.len()
        invariant
            i <= args.len(),
            v.len() == i,
            forall|j: int| 0 <= j < i ==> v[j]@ == args[j]@,
        decreases args.len() - i,
    {
        v.push(args[i].clone());
        i += 1;
    }
    assert(models(v@) =~= models(args@));
    v
}

} // verus!
