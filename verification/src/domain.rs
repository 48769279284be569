//! The domain registry: tasks, methods, commands, state functions and
//! lambdas, found by their labels.
use crate::lvalue::{
    clone_strings, lemma_list_model, models, string_views, LCoreOperator, LLambda, LValue, LambdaArgs,
    ParamsModel, Sexp,
};
use crate::strmap::StrMap;
use crate::text::str_eq;
use vstd::prelude::*;

verus! {

/// The parameters of a declaration: names and the types of their values, in
/// order.
pub struct Parameters {
    names: Vec<String>,
    types: Vec<String>,
}

/// Parameters, as contracts see them.
pub struct ParametersModel {
    pub names: Seq<Seq<char>>,
    pub types: Seq<Seq<char>>,
}

impl View for Parameters {
    type V = ParametersModel;

    closed spec fn view(&self) -> ParametersModel {
        ParametersModel { names: string_views(self.names@), types: string_views(self.types@) }
    }
}

impl Clone for Parameters {
    fn clone(&self) -> (r: Self)
        ensures
            r@ == self@,
    {
        proof {
            use_type_invariant(self);
        }
        let names = clone_strings(&self.names);
        let types = clone_strings(&self.types);
        assert(string_views(names@).len() == names@.len());
        assert(string_views(types@).len() == types@.len());
        assert(string_views(self.names@).len() == self.names@.len());
        assert(string_views(self.types@).len() == self.types@.len());
        Parameters { names, types }
    }
}

/// Why a declaration is refused.
#[derive(Clone, Copy, Debug, PartialEq, Eq, Structural)]
pub enum DomainError {
    /// The declaration is not of the expected form.
    Malformed,
    /// The method refers to a task that is not declared.
    UnknownTask,
    /// The first parameters of the method are not those of its task.
    ParametersMismatch,
    /// The label is already declared.
    AlreadyDeclared,
}

/// The name of the root type.
pub const OBJECT: &'static str = "object";

/// Tells whether `p` declares one parameter: a symbol, whose type is then
/// `object`, or a list of two symbols, the name and the type.
pub open spec fn is_parameter(p: Sexp) -> bool {
    p is Symbol || (p is List && p->List_0.len() == 2 && p->List_0[0] is Symbol
        && p->List_0[1] is Symbol)
}

/// The name that `p` declares.
pub open spec fn parameter_name(p: Sexp) -> Seq<char> {
    if p is Symbol {
        p->Symbol_0
    } else {
        p->List_0[0]->Symbol_0
    }
}

/// The type that `p` declares.
pub open spec fn parameter_type(p: Sexp) -> Seq<char> {
    if p is Symbol {
        OBJECT@
    } else {
        p->List_0[1]->Symbol_0
    }
}

/// Tells whether `s` declares parameters: `nil` for none, or a list whose
/// items each declare one.
pub open spec fn are_parameters(s: Sexp) -> bool {
    s is Nil || (s is List && forall|i: int|
        0 <= i < s->List_0.len() ==> is_parameter(#[trigger] s->List_0[i]))
}

/// The parameters that `s` declares.
pub open spec fn parameters_of(s: Sexp) -> ParametersModel {
    if s is List {
        ParametersModel {
            names: Seq::new(s->List_0.len(), |i: int| parameter_name(s->List_0[i])),
            types: Seq::new(s->List_0.len(), |i: int| parameter_type(s->List_0[i])),
        }
    } else {
        ParametersModel { names: Seq::empty(), types: Seq::empty() }
    }
}

impl ParametersModel {
    /// There is one type for each name.
    pub open spec fn wf(self) -> bool {
        self.names.len() == self.types.len()
    }

    /// Tells whether the first parameters are those of `task`, name by name
    /// and type by type.
    pub open spec fn extends(self, task: ParametersModel) -> bool {
        &&& task.names.len() <= self.names.len()
        &&& forall|i: int| 0 <= i < task.names.len() ==> self.names[i] == task.names[i]
        &&& forall|i: int| 0 <= i < task.names.len() ==> self.types[i] == task.types[i]
    }

    /// The parameters as formal parameters of a lambda.
    pub open spec fn as_args(self) -> ParamsModel {
        ParamsModel::List(self.names)
    }
}

impl Parameters {
    /// No parameter.
    pub fn new() -> (p: Self)
        ensures
            p@.names.len() == 0,
            p@.types.len() == 0,
    {
        Parameters { names: Vec::new(), types: Vec::new() }
    }

    #[verifier::type_invariant]
    spec fn inv(self) -> bool {
        self.names@.len() == self.types@.len()
    }

    /// States what holds of all parameters: there is one type for each name.
    /// It does nothing when run.
    pub fn is_wf(&self)
        ensures
            self@.wf(),
    {
        proof {
            use_type_invariant(self);
        }
    }

    /// Reads parameters from a value: `nil`, or a list whose items are
    /// symbols or pairs of a name and a type.
    pub fn from_lvalue(lv: &LValue) -> (r: Result<Parameters, DomainError>)
        ensures
            r is Ok <==> are_parameters(lv@),
            r matches Ok(p) ==> p@ == parameters_of(lv@),
            r matches Err(e) ==> e == DomainError::Malformed,
    {
        match lv {
            LValue::Nil => {
                let p = Parameters::new();
                assert(p@.names =~= parameters_of(lv@).names);
                assert(p@.types =~= parameters_of(lv@).types);
                Ok(p)
            },
            LValue::List(l) => {
                proof {
                    lemma_list_model(*l);
                }
                let mut names: Vec<String> = Vec::new();
                let mut types: Vec<String> = Vec::new();
                let mut i: usize = 0;
                while i < l.len()
                    invariant
                        i <= l.len(),
                        lv@ == Sexp::List(models(l@)),
                        names@.len() == i,
                        types@.len() == i,
                        forall|j: int| 0 <= j < i ==> is_parameter(#[trigger] models(l@)[j]),
                        forall|j: int| 0 <= j < i ==> names@[j]@ == parameter_name(models(l@)[j]),
                        forall|j: int| 0 <= j < i ==> types@[j]@ == parameter_type(models(l@)[j]),
                    decreases l.len() - i,
                {
                    assert(models(l@)[i as int] == l@[i as int]@);
                    match &l[i] {
                        LValue::Symbol(s) => {
                            names.push(s.clone());
                            types.push(String::from_str(OBJECT));
                        },
                        LValue::List(pair) => {
                            proof {
                                lemma_list_model(*pair);
                            }
                            if pair.len() != 2 {
                                assert(!is_parameter(lv@->List_0[i as int]));
                                return Err(DomainError::Malformed);
                            }
                            assert(models(pair@)[0] == pair@[0]@);
                            assert(models(pair@)[1] == pair@[1]@);
                            match (&pair[0], &pair[1]) {
                                (LValue::Symbol(n), LValue::Symbol(t)) => {
                                    names.push(n.clone());
                                    types.push(t.clone());
                                },
                                _ => {
                                    assert(!is_parameter(lv@->List_0[i as int]));
                                    return Err(DomainError::Malformed);
                                },
                            }
                        },
                        _ => {
                            assert(!is_parameter(lv@->List_0[i as int]));
                            return Err(DomainError::Malformed);
                        },
                    }
                    i += 1;
                }
                let p = Parameters { names, types };
                assert(p@.names =~= parameters_of(lv@).names);
                assert(p@.types =~= parameters_of(lv@).types);
                Ok(p)
            },
            _ => Err(DomainError::Malformed),
        }
    }

    /// The number of parameters.
    pub fn len(&self) -> (n: usize)
        ensures
            n == self@.names.len(),
    {
        self.names.len()
    }

    /// The names of the parameters.
    pub fn get_labels(&self) -> (v: Vec<String>)
        ensures
            string_views(v@) == self@.names,
    {
        clone_strings(&self.names)
    }

    /// The types of the parameters.
    pub fn get_types(&self) -> (v: Vec<String>)
        ensures
            string_views(v@) == self@.types,
    {
        clone_strings(&self.types)
    }

    /// The parameters as formal parameters of a lambda.
    pub fn get_params_as_args(&self) -> (a: LambdaArgs)
        ensures
            a@ == self@.as_args(),
    {
        LambdaArgs::List(clone_strings(&self.names))
    }

    /// Tells whether the first parameters are those of `task`.
    pub fn extends(&self, task: &Parameters) -> (b: bool)
        ensures
            b == self@.extends(task@),
    {
        proof {
            use_type_invariant(self);
            use_type_invariant(task);
        }
        if task.names.len() > self.names.len() {
            return false;
        }
        let mut i: usize = 0;
        while i < task.names.len()
            invariant
                i <= task.names.len(),
                task.names@.len() <= self.names@.len(),
                self.names@.len() == self.types@.len(),
                task.names@.len() == task.types@.len(),
                forall|j: int| 0 <= j < i ==> self@.names[j] == task@.names[j],
                forall|j: int| 0 <= j < i ==> self@.types[j] == task@.types[j],
            decreases task.names.len() - i,
        {
            assert(self@.names[i as int] == self.names@[i as int]@);
            assert(task@.names[i as int] == task.names@[i as int]@);
            assert(self@.types[i as int] == self.types@[i as int]@);
            assert(task@.types[i as int] == task.types@[i as int]@);
            if task.names[i] != self.names[i] || task.types[i] != self.types[i] {
                return false;
            }
            i += 1;
        }
        true
    }
}

/// The test of one parameter: a predicate on the kind of its value for the
/// types of the language, membership of the type otherwise.
pub open spec fn type_test(name: Seq<char>, t: Seq<char>) -> Sexp {
    if t == "list"@ {
        Sexp::List(seq![Sexp::Symbol("list?"@), Sexp::Symbol(name)])
    } else if t == "bool"@ {
        Sexp::List(seq![Sexp::Symbol("bool?"@), Sexp::Symbol(name)])
    } else if t == "int"@ {
        Sexp::List(seq![Sexp::Symbol("int?"@), Sexp::Symbol(name)])
    } else if t == "float"@ {
        Sexp::List(seq![Sexp::Symbol("float?"@), Sexp::Symbol(name)])
    } else if t == "number"@ {
        Sexp::List(seq![Sexp::Symbol("number?"@), Sexp::Symbol(name)])
    } else if t == "symbol"@ {
        Sexp::List(seq![Sexp::Symbol("symbol?"@), Sexp::Symbol(name)])
    } else {
        Sexp::List(seq![Sexp::Symbol("instance"@), Sexp::Symbol(name), Sexp::Symbol(t)])
    }
}

/// The check of an expression: it fails the body when the expression is not
/// true.
pub open spec fn checked(e: Sexp) -> Sexp {
    Sexp::List(seq![Sexp::Symbol("check"@), e])
}

/// The expression that tests the types of parameters: `true` when there is
/// none, the checks of their tests in sequence otherwise.
pub open spec fn test_type_expr(p: ParametersModel) -> Sexp {
    if p.names.len() == 0 {
        Sexp::True
    } else {
        Sexp::List(
            seq![Sexp::CoreOperator(LCoreOperator::Do)] + Seq::new(
                p.names.len(),
                |i: int| checked(type_test(p.names[i], p.types[i])),
            ),
        )
    }
}

/// The list of a head symbol and of one or two symbols behind it.
fn call_of(head: &'static str, a: &String, b: Option<&String>) -> (r: LValue)
    ensures
        r@ == (match b {
            None => Sexp::List(seq![Sexp::Symbol(head@), Sexp::Symbol(a@)]),
            Some(t) => Sexp::List(seq![Sexp::Symbol(head@), Sexp::Symbol(a@), Sexp::Symbol(t@)]),
        }),
{
    let mut v: Vec<LValue> = Vec::new();
    v.push(LValue::symbol(head));
    v.push(LValue::Symbol(a.clone()));
    match b {
        Some(t) => {
            v.push(LValue::Symbol(t.clone()));
            assert(models(v@) =~= seq![Sexp::Symbol(head@), Sexp::Symbol(a@), Sexp::Symbol(t@)]);
        },
        None => {
            assert(models(v@) =~= seq![Sexp::Symbol(head@), Sexp::Symbol(a@)]);
        },
    }
    LValue::list(v)
}

/// The check of an expression.
pub fn check_of(e: LValue) -> (r: LValue)
    ensures
        r@ == checked(e@),
{
    let mut v: Vec<LValue> = Vec::new();
    v.push(LValue::symbol("check"));
    v.push(e);
    assert(models(v@) =~= seq![Sexp::Symbol("check"@), e@]);
    LValue::list(v)
}

/// The expression that tests the types of the parameters `params`.
pub fn generate_test_type_expr(params: &Parameters) -> (r: LValue)
    ensures
        r@ == test_type_expr(params@),
{
    proof {
        use_type_invariant(params);
    }
    if params.names.len() == 0 {
        return LValue::True;
    }
    let mut v: Vec<LValue> = Vec::new();
    v.push(LValue::CoreOperator(LCoreOperator::Do));
    let mut i: usize = 0;
    while i < params.names.len()
        invariant
            i <= params.names.len(),
            params.names@.len() == params.types@.len(),
            v@.len() == i + 1,
            v@[0]@ == Sexp::CoreOperator(LCoreOperator::Do),
            forall|j: int|
                0 <= j < i ==> v@[j + 1]@ == checked(type_test(params@.names[j], params@.types[j])),
        decreases params.names.len() - i,
    {
        let name = &params.names[i];
        let t = &params.types[i];
        assert(params@.names[i as int] == name@);
        assert(params@.types[i as int] == t@);
        let test = if str_eq(t.as_str(), "list") {
            call_of("list?", name, None)
        } else if str_eq(t.as_str(), "bool") {
            call_of("bool?", name, None)
        } else if str_eq(t.as_str(), "int") {
            call_of("int?", name, None)
        } else if str_eq(t.as_str(), "float") {
            call_of("float?", name, None)
        } else if str_eq(t.as_str(), "number") {
            call_of("number?", name, None)
        } else if str_eq(t.as_str(), "symbol") {
            call_of("symbol?", name, None)
        } else {
            call_of("instance", name, Some(t))
        };
        v.push(check_of(test));
        i += 1;
    }
    proof {
        assert(models(v@) =~= seq![Sexp::CoreOperator(LCoreOperator::Do)] + Seq::new(
            params@.names.len(),
            |i: int| checked(type_test(params@.names[i], params@.types[i])),
        ));
    }
    LValue::list(v)
}

/// The symbols of `names`, in order.
pub open spec fn symbols_of(names: Seq<Seq<char>>) -> Seq<Sexp> {
    Seq::new(names.len(), |i: int| Sexp::Symbol(names[i]))
}

/// The quotation of a symbol.
pub open spec fn quoted(label: Seq<char>) -> Sexp {
    Sexp::List(seq![Sexp::CoreOperator(LCoreOperator::Quote), Sexp::Symbol(label)])
}

/// The call of `head` on the quoted label and on the parameters.
pub open spec fn call_on(head: Seq<char>, label: Seq<char>, names: Seq<Seq<char>>) -> Sexp {
    Sexp::List(seq![Sexp::Symbol(head), quoted(label)] + symbols_of(names))
}

/// The lambda of the given parameters and body.
pub open spec fn lambda_of(p: ParametersModel, body: Sexp) -> Sexp {
    Sexp::Lambda(p.as_args(), Box::new(body))
}

/// The sequence of expressions under `do`.
pub open spec fn do_of(items: Seq<Sexp>) -> Sexp {
    Sexp::List(seq![Sexp::CoreOperator(LCoreOperator::Do)] + items)
}

/// The body of a task: the call of the executor on the task and its
/// parameters.
pub open spec fn task_body(label: Seq<char>, p: ParametersModel) -> Sexp {
    lambda_of(p, call_on("exec-task"@, label, p.names))
}

/// The body of a command: the wait for the platform to run the command on
/// its parameters.
pub open spec fn command_body(label: Seq<char>, p: ParametersModel) -> Sexp {
    lambda_of(
        p,
        Sexp::List(
            seq![
                Sexp::CoreOperator(LCoreOperator::Await),
                call_on("exec-command"@, label, p.names),
            ],
        ),
    )
}

/// The body of a state function: the reading of the state variable made of
/// the label and the parameters.
pub open spec fn state_function_body(label: Seq<char>, p: ParametersModel) -> Sexp {
    lambda_of(p, call_on("read-state"@, label, p.names))
}

/// The lambda of a model, a cost or a score: the given expression, or the
/// default when none is given.
pub open spec fn optional_lambda(p: ParametersModel, given: Option<Sexp>, default: Sexp) -> Sexp {
    lambda_of(
        p,
        match given {
            Some(e) => e,
            None => default,
        },
    )
}

/// The pre-conditions of a method: the test of the types of its parameters,
/// followed by the checks of the conditions that were given.
pub open spec fn pre_conditions_lambda(p: ParametersModel, conds: Option<Seq<Sexp>>) -> Sexp {
    lambda_of(
        p,
        match conds {
            None => do_of(seq![test_type_expr(p)]),
            Some(c) => do_of(
                seq![test_type_expr(p), do_of(Seq::new(c.len(), |i: int| checked(c[i])))],
            ),
        },
    )
}

/// The body of a method: the pre-conditions applied to the parameters, then
/// the body that was given.
pub open spec fn method_body(p: ParametersModel, pre_conditions: Sexp, body: Sexp) -> Sexp {
    lambda_of(p, do_of(seq![Sexp::List(seq![pre_conditions] + symbols_of(p.names)), body]))
}

/// The symbols of `names`.
pub fn symbols(names: &Vec<String>) -> (v: Vec<LValue>)
    ensures
        models(v@) == symbols_of(string_views(names@)),
{
    let mut v: Vec<LValue> = Vec::new();
    let mut i: usize = 0;
    while i < names.len()
        invariant
            i <= names.len(),
            v@.len() == i,
            forall|j: int| 0 <= j < i ==> v@[j]@ == Sexp::Symbol(names@[j]@),
        decreases names.len() - i,
    {
        v.push(LValue::Symbol(names[i].clone()));
        i += 1;
    }
    assert(models(v@) =~= symbols_of(string_views(names@)));
    v
}

/// The list of `head` followed by the items of `rest`.
pub fn list_with_head(head: LValue, rest: Vec<LValue>) -> (r: LValue)
    ensures
        r@ == Sexp::List(seq![head@] + models(rest@)),
{
    let mut v: Vec<LValue> = Vec::new();
    v.push(head);
    let mut rest = rest;
    let ghost r0 = rest@;
    v.append(&mut rest);
    assert(models(v@) =~= seq![head@] + models(r0));
    LValue::list(v)
}

/// The list of two values.
pub fn pair_of(a: LValue, b: LValue) -> (r: LValue)
    ensures
        r@ == Sexp::List(seq![a@, b@]),
{
    let mut v: Vec<LValue> = Vec::new();
    v.push(a);
    v.push(b);
    assert(models(v@) =~= seq![a@, b@]);
    LValue::list(v)
}

/// The call of `head` on the quoted label and on the parameters.
pub fn make_call(head: &'static str, label: &str, params: &Parameters) -> (r: LValue)
    ensures
        r@ == call_on(head@, label@, params@.names),
{
    let q = pair_of(LValue::CoreOperator(LCoreOperator::Quote), LValue::symbol(label));
    let mut rest: Vec<LValue> = Vec::new();
    rest.push(q);
    let mut syms = symbols(&params.names);
    let ghost s0 = syms@;
    rest.append(&mut syms);
    assert(models(rest@) =~= seq![quoted(label@)] + models(s0));
    let r = list_with_head(LValue::symbol(head), rest);
    assert(r@->List_0 =~= seq![Sexp::Symbol(head@), quoted(label@)] + symbols_of(params@.names));
    r
}

/// The lambda of the given parameters and body.
pub fn make_lambda(params: &Parameters, body: LValue) -> (r: LValue)
    ensures
        r@ == lambda_of(params@, body@),
{
    LValue::Lambda(LLambda { params: params.get_params_as_args(), body: Box::new(body) })
}

/// The sequence of the given expressions under `do`.
pub fn make_do(items: Vec<LValue>) -> (r: LValue)
    ensures
        r@ == do_of(models(items@)),
{
    list_with_head(LValue::CoreOperator(LCoreOperator::Do), items)
}

/// A task: its parameters, the body that hands it to the executor, its model
/// and the methods that refine it, in the order of their declaration.
pub struct Task {
    pub label: String,
    pub parameters: Parameters,
    pub body: LValue,
    pub model: LValue,
    pub methods: Vec<String>,
}

/// A method of a task.
pub struct Method {
    pub label: String,
    pub task_label: String,
    pub parameters: Parameters,
    pub lambda_pre_conditions: LValue,
    pub lambda_score: LValue,
    pub lambda_body: LValue,
}

/// A command of the platform.
pub struct Command {
    pub label: String,
    pub parameters: Parameters,
    pub body: LValue,
    pub model: LValue,
    pub cost: LValue,
}

/// A state function.
pub struct StateFunction {
    pub label: String,
    pub parameters: Parameters,
    pub result: String,
    pub body: LValue,
}

/// A task, as contracts see it.
pub struct TaskModel {
    pub label: Seq<char>,
    pub parameters: ParametersModel,
    pub body: Sexp,
    pub model: Sexp,
    pub methods: Seq<Seq<char>>,
}

/// A method, as contracts see it.
pub struct MethodModel {
    pub label: Seq<char>,
    pub task_label: Seq<char>,
    pub parameters: ParametersModel,
    pub pre_conditions: Sexp,
    pub score: Sexp,
    pub body: Sexp,
}

/// A command, as contracts see it.
pub struct CommandModel {
    pub label: Seq<char>,
    pub parameters: ParametersModel,
    pub body: Sexp,
    pub model: Sexp,
    pub cost: Sexp,
}

/// A state function, as contracts see it.
pub struct StateFunctionModel {
    pub label: Seq<char>,
    pub parameters: ParametersModel,
    pub result: Seq<char>,
    pub body: Sexp,
}

impl View for Task {
    type V = TaskModel;

    open spec fn view(&self) -> TaskModel {
        TaskModel {
            label: self.label@,
            parameters: self.parameters@,
            body: self.body@,
            model: self.model@,
            methods: string_views(self.methods@),
        }
    }
}

impl View for Method {
    type V = MethodModel;

    open spec fn view(&self) -> MethodModel {
        MethodModel {
            label: self.label@,
            task_label: self.task_label@,
            parameters: self.parameters@,
            pre_conditions: self.lambda_pre_conditions@,
            score: self.lambda_score@,
            body: self.lambda_body@,
        }
    }
}

impl View for Command {
    type V = CommandModel;

    open spec fn view(&self) -> CommandModel {
        CommandModel {
            label: self.label@,
            parameters: self.parameters@,
            body: self.body@,
            model: self.model@,
            cost: self.cost@,
        }
    }
}

impl View for StateFunction {
    type V = StateFunctionModel;

    open spec fn view(&self) -> StateFunctionModel {
        StateFunctionModel {
            label: self.label@,
            parameters: self.parameters@,
            result: self.result@,
            body: self.body@,
        }
    }
}

impl Method {
    /// A method made of its parts.
    pub fn new(
        label: String,
        task_label: String,
        parameters: Parameters,
        conds: LValue,
        score: LValue,
        body: LValue,
    ) -> (m: Self)
        ensures
            m@ == (MethodModel {
                label: label@,
                task_label: task_label@,
                parameters: parameters@,
                pre_conditions: conds@,
                score: score@,
                body: body@,
            }),
    {
        Self {
            label,
            task_label,
            parameters,
            lambda_pre_conditions: conds,
            lambda_score: score,
            lambda_body: body,
        }
    }

    /// The label of the task that the method refines.
    pub fn get_task_label(&self) -> (l: &String)
        ensures
            l@ == self@.task_label,
    {
        &self.task_label
    }

    /// The parameters of the method.
    pub fn get_parameters(&self) -> (p: &Parameters)
        ensures
            p@ == self@.parameters,
    {
        &self.parameters
    }

    /// The pre-conditions of the method.
    pub fn get_pre_conditions(&self) -> (l: &LValue)
        ensures
            l@ == self@.pre_conditions,
    {
        &self.lambda_pre_conditions
    }

    /// The body of the method.
    pub fn get_body(&self) -> (l: &LValue)
        ensures
            l@ == self@.body,
    {
        &self.lambda_body
    }

    /// The score of the method.
    pub fn get_score(&self) -> (l: &LValue)
        ensures
            l@ == self@.score,
    {
        &self.lambda_score
    }

    /// The label of the method.
    pub fn get_label(&self) -> (l: &str)
        ensures
            l@ == self@.label,
    {
        self.label.as_str()
    }
}

/// Builds the pre-conditions of a method.
pub fn make_pre_conditions(params: &Parameters, conds: Option<Vec<LValue>>) -> (r: LValue)
    ensures
        r@ == pre_conditions_lambda(
            params@,
            match conds {
                Some(c) => Some(models(c@)),
                None => None,
            },
        ),
{
    let test = generate_test_type_expr(params);
    let mut items: Vec<LValue> = Vec::new();
    items.push(test);
    match conds {
        None => {
            assert(models(items@) =~= seq![test_type_expr(params@)]);
        },
        Some(c) => {
            let mut checks: Vec<LValue> = Vec::new();
            let mut c = c;
            let ghost c0 = models(c@);
            let mut i: usize = 0;
            let n = c.len();
            while i < n
                invariant
                    i <= n,
                    n == c@.len(),
                    c0.len() == n,
                    checks@.len() == i,
                    forall|j: int| 0 <= j < i ==> checks@[j]@ == checked(c0[j]),
                    forall|j: int| i <= j < n ==> c@[j]@ == c0[j],
                decreases n - i,
            {
                let mut taken = LValue::Nil;
                let ghost before = c@;
                std::mem::swap(&mut taken, &mut c[i]);
                assert(forall|j: int| i < j < n ==> c@[j] == before[j]);
                checks.push(check_of(taken));
                i += 1;
            }
            assert(models(checks@) =~= Seq::new(c0.len(), |i: int| checked(c0[i])));
            items.push(make_do(checks));
            assert(models(items@) =~= seq![
                test_type_expr(params@),
                do_of(Seq::new(c0.len(), |i: int| checked(c0[i]))),
            ]);
        },
    }
    make_lambda(params, make_do(items))
}

/// Builds the body of a method from its pre-conditions and the body that was
/// given.
pub fn make_method_body(params: &Parameters, pre_conditions: &LValue, body: LValue) -> (r: LValue)
    ensures
        r@ == method_body(params@, pre_conditions@, body@),
{
    let applied = list_with_head(pre_conditions.clone(), symbols(&params.names));
    let mut items: Vec<LValue> = Vec::new();
    items.push(applied);
    items.push(body);
    assert(models(items@) =~= seq![
        Sexp::List(seq![pre_conditions@] + symbols_of(params@.names)),
        body@,
    ]);
    make_lambda(params, make_do(items))
}

/// Builds the lambda of a model, a cost or a score.
pub fn make_optional_lambda(params: &Parameters, given: Option<LValue>, default: LValue) -> (r:
    LValue)
    ensures
        r@ == optional_lambda(
            params@,
            match given {
                Some(e) => Some(e@),
                None => None,
            },
            default@,
        ),
{
    match given {
        Some(e) => make_lambda(params, e),
        None => make_lambda(params, default),
    }
}

/// The models of a sequence of tasks.
pub open spec fn task_models(s: Seq<Task>) -> Seq<TaskModel> {
    Seq::new(s.len(), |i: int| s[i]@)
}

/// The models of a sequence of methods.
pub open spec fn method_models(s: Seq<Method>) -> Seq<MethodModel> {
    Seq::new(s.len(), |i: int| s[i]@)
}

/// The models of a sequence of commands.
pub open spec fn command_models(s: Seq<Command>) -> Seq<CommandModel> {
    Seq::new(s.len(), |i: int| s[i]@)
}

/// The models of a sequence of state functions.
pub open spec fn state_function_models(s: Seq<StateFunction>) -> Seq<StateFunctionModel> {
    Seq::new(s.len(), |i: int| s[i]@)
}

/// A table of descriptors: labels and, place by place, what they stand for.
pub struct Table<M> {
    pub labels: Seq<Seq<char>>,
    pub entries: Seq<M>,
}

impl<M> Table<M> {
    /// There is one entry for each label, and no label occurs twice.
    pub open spec fn wf(self) -> bool {
        self.labels.len() == self.entries.len() && self.labels.no_duplicates()
    }

    /// Tells whether `label` is declared.
    pub open spec fn has(self, label: Seq<char>) -> bool {
        self.labels.contains(label)
    }

    /// What `label` stands for, where it is declared.
    pub open spec fn get(self, label: Seq<char>) -> M {
        self.entries[self.labels.index_of(label)]
    }

    /// The table once `label` stands for `entry`: a known label keeps its
    /// place, a new one goes to the end.
    pub open spec fn with(self, label: Seq<char>, entry: M) -> Table<M> {
        if self.has(label) {
            Table { labels: self.labels, entries: self.entries.update(self.labels.index_of(label), entry) }
        } else {
            Table { labels: self.labels.push(label), entries: self.entries.push(entry) }
        }
    }
}

/// The registry, as contracts see it.
pub struct DomainModel {
    pub tasks: Table<TaskModel>,
    pub methods: Table<MethodModel>,
    pub commands: Table<CommandModel>,
    pub state_functions: Table<StateFunctionModel>,
    pub lambdas: Table<Sexp>,
    /// The types, each with the label of its parent.
    pub types: Table<Seq<char>>,
}

impl DomainModel {
    /// Every table is well formed, and every method refines a declared task
    /// whose parameters are the first of its own.
    pub open spec fn wf(self) -> bool {
        &&& self.tasks.wf()
        &&& self.methods.wf()
        &&& self.commands.wf()
        &&& self.state_functions.wf()
        &&& self.lambdas.wf()
        &&& self.types.wf()
        &&& forall|i: int|
            0 <= i < self.methods.entries.len() ==> {
                let m = #[trigger] self.methods.entries[i];
                self.tasks.has(m.task_label) && m.parameters.extends(
                    self.tasks.get(m.task_label).parameters,
                )
            }
    }

    /// Why the declaration of a method is refused, if it is.
    pub open spec fn method_error(self, task_label: Seq<char>, p: ParametersModel) -> Option<DomainError> {
        if !self.tasks.has(task_label) {
            Some(DomainError::UnknownTask)
        } else if !p.extends(self.tasks.get(task_label).parameters) {
            Some(DomainError::ParametersMismatch)
        } else {
            None
        }
    }

    /// The task `task_label` once the method `label` is listed among its
    /// methods: a method that is listed already stays once.
    pub open spec fn task_with_method(self, task_label: Seq<char>, label: Seq<char>) -> TaskModel {
        let t = self.tasks.get(task_label);
        if t.methods.contains(label) {
            t
        } else {
            TaskModel { methods: t.methods.push(label), ..t }
        }
    }
}

/// The registry of a domain.
pub struct OMPASDomain {
    tasks: StrMap<Task>,
    methods: StrMap<Method>,
    commands: StrMap<Command>,
    state_functions: StrMap<StateFunction>,
    lambdas: StrMap<LValue>,
    types: StrMap<String>,
}

impl View for OMPASDomain {
    type V = DomainModel;

    closed spec fn view(&self) -> DomainModel {
        DomainModel {
            tasks: Table { labels: self.tasks.keys(), entries: task_models(self.tasks.values()) },
            methods: Table {
                labels: self.methods.keys(),
                entries: method_models(self.methods.values()),
            },
            commands: Table {
                labels: self.commands.keys(),
                entries: command_models(self.commands.values()),
            },
            state_functions: Table {
                labels: self.state_functions.keys(),
                entries: state_function_models(self.state_functions.values()),
            },
            lambdas: Table { labels: self.lambdas.keys(), entries: models(self.lambdas.values()) },
            types: Table { labels: self.types.keys(), entries: string_views(self.types.values()) },
        }
    }
}

/// Tells whether `v` holds the text `x`.
pub fn holds_text(v: &Vec<String>, x: &str) -> (b: bool)
    ensures
        b == string_views(v@).contains(x@),
{
    let key = String::from_str(x);
    let mut i: usize = 0;
    while i < v.len()
        invariant
            i <= v.len(),
            key@ == x@,
            forall|j: int| 0 <= j < i ==> v@[j]@ != x@,
        decreases v.len() - i,
    {
        if v[i] == key {
            assert(string_views(v@)[i as int] == x@);
            return true;
        }
        i += 1;
    }
    assert forall|j: int| 0 <= j < string_views(v@).len() implies string_views(v@)[j] != x@ by {
        assert(string_views(v@)[j] == v@[j]@);
    }
    false
}

impl OMPASDomain {
    /// A registry without declarations.
    pub fn new() -> (d: Self)
        ensures
            d@.wf(),
            d@.tasks.labels.len() == 0,
            d@.methods.labels.len() == 0,
            d@.commands.labels.len() == 0,
            d@.state_functions.labels.len() == 0,
            d@.lambdas.labels.len() == 0,
            d@.types.labels.len() == 0,
    {
        OMPASDomain {
            tasks: StrMap::new(),
            methods: StrMap::new(),
            commands: StrMap::new(),
            state_functions: StrMap::new(),
            lambdas: StrMap::new(),
            types: StrMap::new(),
        }
    }

    /// Tells whether the parameters `p` are the first parameters of every
    /// method of the task `label`.
    pub open spec fn fits_methods(m: DomainModel, label: Seq<char>, p: ParametersModel) -> bool {
        forall|i: int|
            0 <= i < m.methods.entries.len() && (#[trigger] m.methods.entries[i]).task_label
                == label ==> m.methods.entries[i].parameters.extends(p)
    }

    /// Tells whether the parameters `p` are the first parameters of every
    /// method of the task `label`.
    fn methods_fit(&self, label: &str, p: &Parameters) -> (b: bool)
        ensures
            b == Self::fits_methods(self@, label@, p@),
    {
        self.methods.keys_are_distinct();
        let key = String::from_str(label);
        let mut i: usize = 0;
        while i < self.methods.len()
            invariant
                i <= self.methods.size(),
                key@ == label@,
                self.methods.values().len() == self.methods.keys().len(),
                forall|j: int|
                    0 <= j < i && (#[trigger] self@.methods.entries[j]).task_label == label@
                        ==> self@.methods.entries[j].parameters.extends(p@),
            decreases self.methods.size() - i,
        {
            let m = self.methods.value_at(i);
            assert(self@.methods.entries[i as int] == m@);
            if m.task_label == key && !m.parameters.extends(p) {
                return false;
            }
            i += 1;
        }
        true
    }

    /// Declares the task `label`. Its body hands the task to the executor;
    /// its model is the one given, or `nil`. A task that is declared again
    /// is replaced and keeps the methods that refine it; it is refused when
    /// its new parameters are not the first parameters of those methods.
    pub fn add_task(&mut self, label: &str, parameters: Parameters, model: Option<LValue>) -> (r:
        Result<(), DomainError>)
        requires
            old(self)@.wf(),
        ensures
            final(self)@.wf(),
            r is Err <==> !Self::fits_methods(old(self)@, label@, parameters@),
            r matches Err(e) ==> e == DomainError::ParametersMismatch && final(self)@ == old(self)@,
            r is Ok ==> final(self)@ == (DomainModel {
                tasks: old(self)@.tasks.with(
                    label@,
                    TaskModel {
                        label: label@,
                        parameters: parameters@,
                        body: task_body(label@, parameters@),
                        model: optional_lambda(
                            parameters@,
                            match model {
                                Some(m) => Some(m@),
                                None => None,
                            },
                            Sexp::Nil,
                        ),
                        methods: if old(self)@.tasks.has(label@) {
                            old(self)@.tasks.get(label@).methods
                        } else {
                            Seq::empty()
                        },
                    },
                ),
                ..old(self)@
            }),
    {
        if !self.methods_fit(label, &parameters) {
            return Err(DomainError::ParametersMismatch);
        }
        self.tasks.keys_are_distinct();
        let body = make_lambda(&parameters, make_call("exec-task", label, &parameters));
        let model = make_optional_lambda(&parameters, model, LValue::Nil);
        let methods = match self.tasks.get(label) {
            Some(t) => clone_strings(&t.methods),
            None => Vec::new(),
        };
        let ghost known = self.tasks.has(label@);
        let ghost at = self.tasks.index_of(label@);
        let task = Task { label: String::from_str(label), parameters, body, model, methods };
        let ghost tm = task@;
        self.tasks.insert(String::from_str(label), task);
        self.tasks.keys_are_distinct();
        proof {
            let o = old(self)@;
            let n = self@;
            if known {
                assert(n.tasks.entries =~= o.tasks.entries.update(at, tm));
                assert(tm.methods =~= o.tasks.get(label@).methods);
            } else {
                assert(n.tasks.entries =~= o.tasks.entries.push(tm));
                assert(tm.methods =~= Seq::<Seq<char>>::empty());
            }
            assert(n.tasks == o.tasks.with(label@, tm));
            assert forall|i: int| 0 <= i < n.methods.entries.len() implies ({
                let m = #[trigger] n.methods.entries[i];
                n.tasks.has(m.task_label) && m.parameters.extends(
                    n.tasks.get(m.task_label).parameters,
                )
            }) by {
                let m = o.methods.entries[i];
                assert(o.tasks.has(m.task_label));
                lemma_with_get(o.tasks, label@, tm, m.task_label);
            }
        }
        Ok(())
    }

    /// Declares the command `label`. Its body waits for the platform to run
    /// the command; its model is the one given, or `nil`; its cost is the one
    /// given, or 1.
    pub fn add_command(
        &mut self,
        label: &str,
        parameters: Parameters,
        model: Option<LValue>,
        cost: Option<LValue>,
    )
        requires
            old(self)@.wf(),
        ensures
            final(self)@.wf(),
            final(self)@ == (DomainModel {
                commands: old(self)@.commands.with(
                    label@,
                    CommandModel {
                        label: label@,
                        parameters: parameters@,
                        body: command_body(label@, parameters@),
                        model: optional_lambda(
                            parameters@,
                            match model {
                                Some(m) => Some(m@),
                                None => None,
                            },
                            Sexp::Nil,
                        ),
                        cost: optional_lambda(
                            parameters@,
                            match cost {
                                Some(m) => Some(m@),
                                None => None,
                            },
                            Sexp::Number(crate::lvalue::LNumber::Int(1)),
                        ),
                    },
                ),
                ..old(self)@
            }),
    {
        self.commands.keys_are_distinct();
        let body = make_lambda(
            &parameters,
            pair_of(
                LValue::CoreOperator(LCoreOperator::Await),
                make_call("exec-command", label, &parameters),
            ),
        );
        let model = make_optional_lambda(&parameters, model, LValue::Nil);
        let cost = make_optional_lambda(&parameters, cost, LValue::from_int(1));
        let ghost known = self.commands.has(label@);
        let ghost at = self.commands.index_of(label@);
        let command = Command { label: String::from_str(label), parameters, body, model, cost };
        let ghost cm = command@;
        self.commands.insert(String::from_str(label), command);
        self.commands.keys_are_distinct();
        proof {
            let o = old(self)@;
            let n = self@;
            if known {
                assert(n.commands.entries =~= o.commands.entries.update(at, cm));
            } else {
                assert(n.commands.entries =~= o.commands.entries.push(cm));
            }
            assert(n.commands == o.commands.with(label@, cm));
        }
    }

    /// Declares the state function `label`, whose values are of the type
    /// `result`. Its body reads the state variable made of the label and the
    /// parameters.
    pub fn add_state_function(&mut self, label: &str, parameters: Parameters, result: &str)
        requires
            old(self)@.wf(),
        ensures
            final(self)@.wf(),
            final(self)@ == (DomainModel {
                state_functions: old(self)@.state_functions.with(
                    label@,
                    StateFunctionModel {
                        label: label@,
                        parameters: parameters@,
                        result: result@,
                        body: state_function_body(label@, parameters@),
                    },
                ),
                ..old(self)@
            }),
    {
        self.state_functions.keys_are_distinct();
        let body = make_lambda(&parameters, make_call("read-state", label, &parameters));
        let ghost known = self.state_functions.has(label@);
        let ghost at = self.state_functions.index_of(label@);
        let sf = StateFunction {
            label: String::from_str(label),
            parameters,
            result: String::from_str(result),
            body,
        };
        let ghost sm = sf@;
        self.state_functions.insert(String::from_str(label), sf);
        self.state_functions.keys_are_distinct();
        proof {
            let o = old(self)@;
            let n = self@;
            if known {
                assert(n.state_functions.entries =~= o.state_functions.entries.update(at, sm));
            } else {
                assert(n.state_functions.entries =~= o.state_functions.entries.push(sm));
            }
            assert(n.state_functions == o.state_functions.with(label@, sm));
        }
    }

    /// Declares the lambda `label`. A value that is no lambda is refused.
    pub fn add_lambda(&mut self, label: &str, lambda: LValue) -> (r: Result<(), DomainError>)
        requires
            old(self)@.wf(),
        ensures
            final(self)@.wf(),
            r is Ok <==> lambda@ is Lambda,
            r matches Err(e) ==> e == DomainError::Malformed && final(self)@ == old(self)@,
            r is Ok ==> final(self)@ == (DomainModel {
                lambdas: old(self)@.lambdas.with(label@, lambda@),
                ..old(self)@
            }),
    {
        self.lambdas.keys_are_distinct();
        match &lambda {
            LValue::Lambda(_) => {},
            _ => { return Err(DomainError::Malformed); },
        }
        let ghost known = self.lambdas.has(label@);
        let ghost at = self.lambdas.index_of(label@);
        self.lambdas.insert(String::from_str(label), lambda);
        self.lambdas.keys_are_distinct();
        proof {
            let o = old(self)@;
            let n = self@;
            if known {
                assert(n.lambdas.entries =~= o.lambdas.entries.update(at, lambda@));
            } else {
                assert(n.lambdas.entries =~= o.lambdas.entries.push(lambda@));
            }
            assert(n.lambdas == o.lambdas.with(label@, lambda@));
        }
        Ok(())
    }

    /// Declares the type `label` under the type `parent`, or under the root
    /// type `object` where no parent is given. A type that is declared
    /// already gets the new parent.
    pub fn add_type(&mut self, label: &str, parent: Option<&str>)
        requires
            old(self)@.wf(),
        ensures
            final(self)@.wf(),
            final(self)@ == (DomainModel {
                types: old(self)@.types.with(
                    label@,
                    match parent {
                        Some(p) => p@,
                        None => OBJECT@,
                    },
                ),
                ..old(self)@
            }),
    {
        self.types.keys_are_distinct();
        let above = match parent {
            Some(p) => String::from_str(p),
            None => String::from_str(OBJECT),
        };
        let ghost known = self.types.has(label@);
        let ghost at = self.types.index_of(label@);
        let ghost a = above@;
        self.types.insert(String::from_str(label), above);
        self.types.keys_are_distinct();
        proof {
            let o = old(self)@;
            let n = self@;
            if known {
                assert(n.types.entries =~= o.types.entries.update(at, a));
            } else {
                assert(n.types.entries =~= o.types.entries.push(a));
            }
            assert(n.types == o.types.with(label@, a));
            lemma_with_get(o.types, label@, a, label@);
        }
    }

    /// The parent of the type `label`, if the type is declared.
    pub fn get_type(&self, label: &str) -> (r: Option<String>)
        ensures
            r is Some <==> self@.types.has(label@),
            r matches Some(p) ==> p@ == self@.types.get(label@),
    {
        self.types.keys_are_distinct();
        match self.types.get(label) {
            Some(p) => Some(p.clone()),
            None => None,
        }
    }

    /// The labels of the types, in the order of their declaration.
    pub fn get_types(&self) -> (v: Vec<String>)
        ensures
            string_views(v@) == self@.types.labels,
    {
        let mut v: Vec<String> = Vec::new();
        let mut i: usize = 0;
        self.types.keys_are_distinct();
        while i < self.types.len()
            invariant
                i <= self.types.size(),
                v.len() == i,
                forall|j: int| 0 <= j < i ==> (#[trigger] v[j])@ == self.types.keys()[j],
            decreases self.types.size() - i,
        {
            v.push(self.types.key_at(i).clone());
            i += 1;
        }
        assert(string_views(v@) =~= self@.types.labels);
        v
    }

    /// The task `label`, if it is declared.
    pub fn get_task(&self, label: &str) -> (r: Option<&Task>)
        ensures
            r is Some <==> self@.tasks.has(label@),
            r matches Some(t) ==> t@ == self@.tasks.get(label@),
    {
        self.tasks.keys_are_distinct();
        self.tasks.get(label)
    }

    /// The method `label`, if it is declared.
    pub fn get_method(&self, label: &str) -> (r: Option<&Method>)
        ensures
            r is Some <==> self@.methods.has(label@),
            r matches Some(t) ==> t@ == self@.methods.get(label@),
    {
        self.methods.keys_are_distinct();
        self.methods.get(label)
    }

    /// The command `label`, if it is declared.
    pub fn get_command(&self, label: &str) -> (r: Option<&Command>)
        ensures
            r is Some <==> self@.commands.has(label@),
            r matches Some(t) ==> t@ == self@.commands.get(label@),
    {
        self.commands.keys_are_distinct();
        self.commands.get(label)
    }

    /// The state function `label`, if it is declared.
    pub fn get_state_function(&self, label: &str) -> (r: Option<&StateFunction>)
        ensures
            r is Some <==> self@.state_functions.has(label@),
            r matches Some(t) ==> t@ == self@.state_functions.get(label@),
    {
        self.state_functions.keys_are_distinct();
        self.state_functions.get(label)
    }

    /// The lambda `label`, if it is declared.
    pub fn get_lambda(&self, label: &str) -> (r: Option<&LValue>)
        ensures
            r is Some <==> self@.lambdas.has(label@),
            r matches Some(t) ==> t@ == self@.lambdas.get(label@),
    {
        self.lambdas.keys_are_distinct();
        self.lambdas.get(label)
    }

    /// The number of tasks.
    pub fn n_tasks(&self) -> (n: usize)
        ensures
            n == self@.tasks.entries.len(),
            n == self@.tasks.labels.len(),
    {
        self.tasks.keys_are_distinct();
        self.tasks.len()
    }

    /// The task at place `i`, in the order of declaration.
    pub fn task_at(&self, i: usize) -> (t: &Task)
        requires
            i < self@.tasks.entries.len(),
        ensures
            t@ == self@.tasks.entries[i as int],
    {
        self.tasks.keys_are_distinct();
        self.tasks.value_at(i)
    }

    /// The number of methods.
    pub fn n_methods(&self) -> (n: usize)
        ensures
            n == self@.methods.entries.len(),
            n == self@.methods.labels.len(),
    {
        self.methods.keys_are_distinct();
        self.methods.len()
    }

    /// The method at place `i`, in the order of declaration.
    pub fn method_at(&self, i: usize) -> (m: &Method)
        requires
            i < self@.methods.entries.len(),
        ensures
            m@ == self@.methods.entries[i as int],
    {
        self.methods.keys_are_distinct();
        self.methods.value_at(i)
    }

    /// The number of state functions.
    pub fn n_state_functions(&self) -> (n: usize)
        ensures
            n == self@.state_functions.entries.len(),
            n == self@.state_functions.labels.len(),
    {
        self.state_functions.keys_are_distinct();
        self.state_functions.len()
    }

    /// The state function at place `i`, in the order of declaration.
    pub fn state_function_at(&self, i: usize) -> (f: &StateFunction)
        requires
            i < self@.state_functions.entries.len(),
        ensures
            f@ == self@.state_functions.entries[i as int],
    {
        self.state_functions.keys_are_distinct();
        self.state_functions.value_at(i)
    }

    /// The number of commands.
    pub fn n_commands(&self) -> (n: usize)
        ensures
            n == self@.commands.entries.len(),
            n == self@.commands.labels.len(),
    {
        self.commands.keys_are_distinct();
        self.commands.len()
    }

    /// The command at place `i`, in the order of declaration.
    pub fn command_at(&self, i: usize) -> (c: &Command)
        requires
            i < self@.commands.entries.len(),
        ensures
            c@ == self@.commands.entries[i as int],
    {
        self.commands.keys_are_distinct();
        self.commands.value_at(i)
    }

    /// The labels of the methods of the task `label`, in the order of their
    /// declaration; none where the task is not declared.
    pub fn get_methods_of(&self, label: &str) -> (v: Vec<String>)
        ensures
            self@.tasks.has(label@) ==> string_views(v@) == self@.tasks.get(label@).methods,
            !self@.tasks.has(label@) ==> v@.len() == 0,
    {
        self.tasks.keys_are_distinct();
        match self.tasks.get(label) {
            Some(t) => clone_strings(&t.methods),
            None => Vec::new(),
        }
    }

    /// Declares the method `label` of the task `task_label`. The task has to
    /// be declared, and its parameters have to be the first parameters of
    /// the method. The method is listed among the methods of its task.
    pub fn add_method(
        &mut self,
        label: &str,
        task_label: &str,
        parameters: Parameters,
        pre_conditions: Option<Vec<LValue>>,
        score: Option<LValue>,
        body: LValue,
    ) -> (r: Result<(), DomainError>)
        requires
            old(self)@.wf(),
        ensures
            final(self)@.wf(),
            r is Err <==> old(self)@.method_error(task_label@, parameters@) is Some,
            r matches Err(e) ==> Some(e) == old(self)@.method_error(task_label@, parameters@)
                && final(self)@ == old(self)@,
            r is Ok ==> {
                let conds = pre_conditions_lambda(
                    parameters@,
                    match pre_conditions {
                        Some(c) => Some(models(c@)),
                        None => None,
                    },
                );
                final(self)@ == (DomainModel {
                    tasks: old(self)@.tasks.with(
                        task_label@,
                        old(self)@.task_with_method(task_label@, label@),
                    ),
                    methods: old(self)@.methods.with(
                        label@,
                        MethodModel {
                            label: label@,
                            task_label: task_label@,
                            parameters: parameters@,
                            pre_conditions: conds,
                            score: optional_lambda(
                                parameters@,
                                match score {
                                    Some(m) => Some(m@),
                                    None => None,
                                },
                                Sexp::Number(crate::lvalue::LNumber::Int(0)),
                            ),
                            body: method_body(parameters@, conds, body@),
                        },
                    ),
                    ..old(self)@
                })
            },
    {
        self.tasks.keys_are_distinct();
        self.methods.keys_are_distinct();
        let ti = match self.tasks.position(task_label) {
            Some(ti) => ti,
            None => { return Err(DomainError::UnknownTask); },
        };
        let task = self.tasks.value_at(ti);
        proof {
            assert(old(self)@.tasks.entries[ti as int] == task@);
        }
        if !parameters.extends(&task.parameters) {
            return Err(DomainError::ParametersMismatch);
        }
        let conds = make_pre_conditions(&parameters, pre_conditions);
        let score = make_optional_lambda(&parameters, score, LValue::from_int(0));
        let lambda_body = make_method_body(&parameters, &conds, body);
        let listed = holds_text(&task.methods, label);
        let mut methods = clone_strings(&task.methods);
        if !listed {
            methods.push(String::from_str(label));
            assert(string_views(methods@) =~= string_views(task.methods@).push(label@));
        }
        let fresh = Task {
            label: task.label.clone(),
            parameters: task.parameters.clone(),
            body: task.body.clone(),
            model: task.model.clone(),
            methods,
        };
        let ghost fm = fresh@;
        assert(fm == old(self)@.task_with_method(task_label@, label@));
        let _ = self.tasks.replace_at(ti, fresh);
        let ghost known = self.methods.has(label@);
        let ghost at = self.methods.index_of(label@);
        let method = Method::new(
            String::from_str(label),
            String::from_str(task_label),
            parameters,
            conds,
            score,
            lambda_body,
        );
        let ghost mm = method@;
        self.methods.insert(String::from_str(label), method);
        self.methods.keys_are_distinct();
        proof {
            let o = old(self)@;
            let n = self@;
            assert(n.tasks.entries =~= o.tasks.entries.update(ti as int, fm));
            assert(n.tasks == o.tasks.with(task_label@, fm));
            if known {
                assert(n.methods.entries =~= o.methods.entries.update(at, mm));
            } else {
                assert(n.methods.entries =~= o.methods.entries.push(mm));
            }
            assert(n.methods == o.methods.with(label@, mm));
            assert forall|i: int| 0 <= i < n.methods.entries.len() implies ({
                let m = #[trigger] n.methods.entries[i];
                n.tasks.has(m.task_label) && m.parameters.extends(
                    n.tasks.get(m.task_label).parameters,
                )
            }) by {
                let m = n.methods.entries[i];
                if m == mm {
                    lemma_with_get(o.tasks, task_label@, fm, task_label@);
                } else {
                    assert(m == o.methods.entries[i]);
                    assert(o.tasks.has(m.task_label));
                    lemma_with_get(o.tasks, task_label@, fm, m.task_label);
                }
            }
        }
        Ok(())
    }
}

/// What a table gives for a label once another label has been bound.
pub proof fn lemma_with_get<M>(t: Table<M>, label: Seq<char>, entry: M, other: Seq<char>)
    requires
        t.wf(),
    ensures
        t.with(label, entry).wf(),
        t.with(label, entry).has(label),
        t.with(label, entry).get(label) == entry,
        other != label ==> t.with(label, entry).has(other) == t.has(other),
        other != label && t.has(other) ==> t.with(label, entry).get(other) == t.get(other),
{
    let n = t.with(label, entry);
    if t.has(label) {
        let i = t.labels.index_of(label);
        assert(n.labels[i] == label);
        if t.has(other) {
            let j = t.labels.index_of(other);
            assert(n.labels[j] == other);
        }
    } else {
        assert(n.labels[t.labels.len() as int] == label);
        assert forall|a: int, b: int| 0 <= a < n.labels.len() && 0 <= b < n.labels.len() && a
            != b implies n.labels[a] != n.labels[b] by {
            if a < t.labels.len() && b < t.labels.len() {
                assert(t.labels[a] != t.labels[b]);
            } else if a < t.labels.len() {
                assert(t.labels.contains(t.labels[a]));
            } else if b < t.labels.len() {
                assert(t.labels.contains(t.labels[b]));
            }
        }
        let k = n.labels.index_of(label);
        assert(n.labels[k] == label);
        if k < t.labels.len() {
            assert(t.labels.contains(t.labels[k]));
        }
        if other != label && t.has(other) {
            let j = t.labels.index_of(other);
            assert(n.labels[j] == other);
            let j2 = n.labels.index_of(other);
            assert(n.labels.contains(other));
            assert(n.labels[j2] == other);
        }
        if other != label && n.has(other) {
            let j2 = n.labels.index_of(other);
            assert(n.labels[j2] == other);
            assert(j2 < t.labels.len());
            assert(t.labels[j2] == other);
        }
    }
}

} // verus!
