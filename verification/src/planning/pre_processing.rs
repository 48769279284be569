//! What is done to an expression before it is converted: the application of
//! a lambda to arguments is written out as a sequence that binds each
//! parameter to its argument and then holds the body.
use crate::lvalue::{
    clone_string, lemma_list_model, models, string_views, LCoreOperator, LValue, LambdaArgs,
    ParamsModel, Sexp,
};
use crate::planning::conversion::ConversionError;
use vstd::prelude::*;

verus! {

/// Tells whether parameters can be bound to `n` arguments: a single symbol
/// takes them all, a list takes one argument each, and no parameter takes
/// none.
pub open spec fn binds(p: ParamsModel, n: nat) -> bool {
    match p {
        ParamsModel::Sym(_) => true,
        ParamsModel::List(names) => names.len() == n,
        ParamsModel::Nil => n == 0,
    }
}

/// The definition that binds `name` to the value `arg`, which is quoted.
pub open spec fn definition(name: Seq<char>, arg: Sexp) -> Sexp {
    Sexp::List(
        seq![
            Sexp::CoreOperator(LCoreOperator::Define),
            Sexp::Symbol(name),
            Sexp::List(seq![Sexp::CoreOperator(LCoreOperator::Quote), arg]),
        ],
    )
}

/// What a single symbol is bound to: the list of the arguments. One argument
/// that is `nil` gives `nil`.
pub open spec fn gathered(args: Seq<Sexp>) -> Sexp {
    if args.len() == 1 && args[0] is Nil {
        Sexp::Nil
    } else {
        Sexp::List(args)
    }
}

/// The definitions that bind the parameters to the arguments.
pub open spec fn definitions(p: ParamsModel, args: Seq<Sexp>) -> Seq<Sexp> {
    match p {
        ParamsModel::Sym(name) => seq![definition(name, gathered(args))],
        ParamsModel::List(names) => Seq::new(
            names.len(),
            |i: int| definition(names[i], args[i]),
        ),
        ParamsModel::Nil => Seq::empty(),
    }
}

/// The sequence that stands for the application of a lambda: the
/// definitions of its parameters, then its body.
pub open spec fn begin_form(p: ParamsModel, args: Seq<Sexp>, body: Sexp) -> Sexp {
    Sexp::List(seq![Sexp::CoreOperator(LCoreOperator::Begin)] + definitions(p, args).push(body))
}

/// Tells whether `s` applies a lambda to arguments that its parameters can
/// be bound to.
pub open spec fn applies_lambda(s: Sexp) -> bool {
    s matches Sexp::List(l) && l.len() > 0 && l[0] is Lambda && binds(
        l[0]->Lambda_0,
        (l.len() - 1) as nat,
    )
}

/// Why the application `s` is not written out, if it is not.
pub open spec fn transform_error(s: Sexp) -> Option<ConversionError> {
    match s {
        Sexp::List(l) => if l.len() == 0 {
            Some(ConversionError::EmptyExpression)
        } else if !(l[0] is Lambda) {
            Some(ConversionError::NotALambda)
        } else if !binds(l[0]->Lambda_0, (l.len() - 1) as nat) {
            Some(ConversionError::WrongNumberOfArguments)
        } else {
            None
        },
        _ => Some(ConversionError::NotALambda),
    }
}

/// The application `s` written out.
pub open spec fn transformed(s: Sexp) -> Sexp {
    begin_form(s->List_0[0]->Lambda_0, s->List_0.skip(1), *s->List_0[0]->Lambda_1)
}

/// An expression in which every application of a lambda is written out, in
/// the arguments and in the body of the lambda too. A lambda that is not
/// applied, or that is applied to arguments that its parameters cannot be
/// bound to, stays as it is.
pub open spec fn pre_processed(s: Sexp) -> Sexp
    decreases s, 0nat,
{
    match s {
        Sexp::List(l) => if applies_lambda(s) {
            begin_form(
                l[0]->Lambda_0,
                pre_processed_items(l, l.len()).skip(1),
                pre_processed(*l[0]->Lambda_1),
            )
        } else {
            Sexp::List(pre_processed_items(l, l.len()))
        },
        _ => s,
    }
}

/// The first `n` items of a list, in each of which every application of a
/// lambda is written out.
pub open spec fn pre_processed_items(l: Seq<Sexp>, n: nat) -> Seq<Sexp>
    decreases l, n,
{
    if n == 0 || n > l.len() {
        Seq::empty()
    } else {
        pre_processed_items(l, (n - 1) as nat).push(pre_processed(l[n - 1]))
    }
}

/// Tells whether parameters can be bound to `n` arguments.
pub fn can_bind(p: &LambdaArgs, n: usize) -> (b: bool)
    ensures
        b == binds(p@, n as nat),
{
    match p {
        LambdaArgs::Sym(_) => true,
        LambdaArgs::List(names) => {
            assert(string_views(names@).len() == names@.len());
            names.len() == n
        },
        LambdaArgs::Nil => n == 0,
    }
}

/// The definition that binds `name` to the value `arg`, which is quoted.
pub fn make_definition(name: &String, arg: LValue) -> (r: LValue)
    ensures
        r@ == definition(name@, arg@),
{
    let mut quoted: Vec<LValue> = Vec::new();
    quoted.push(LValue::CoreOperator(LCoreOperator::Quote));
    quoted.push(arg);
    proof {
        lemma_list_model(quoted);
        assert(models(quoted@) =~= seq![Sexp::CoreOperator(LCoreOperator::Quote), arg@]);
    }
    let mut v: Vec<LValue> = Vec::new();
    v.push(LValue::CoreOperator(LCoreOperator::Define));
    v.push(LValue::Symbol(clone_string(name)));
    v.push(LValue::List(quoted));
    proof {
        lemma_list_model(v);
        assert(models(v@) =~= seq![
            Sexp::CoreOperator(LCoreOperator::Define),
            Sexp::Symbol(name@),
            Sexp::List(seq![Sexp::CoreOperator(LCoreOperator::Quote), arg@]),
        ]);
    }
    LValue::List(v)
}

/// The sequence that stands for the application of a lambda of the given
/// parameters and body to the given arguments.
pub fn make_begin(p: &LambdaArgs, args: Vec<LValue>, body: LValue) -> (r: LValue)
    requires
        binds(p@, args@.len()),
    ensures
        r@ == begin_form(p@, models(args@), body@),
{
    let ghost a = models(args@);
    let mut v: Vec<LValue> = Vec::new();
    v.push(LValue::CoreOperator(LCoreOperator::Begin));
    match p {
        LambdaArgs::Sym(name) => {
            let one_nil = args.len() == 1 && match &args[0] {
                LValue::Nil => true,
                _ => false,
            };
            let arg = if one_nil {
                LValue::Nil
            } else {
                proof {
                    lemma_list_model(args);
                }
                LValue::List(args)
            };
            v.push(make_definition(name, arg));
            assert(models(v@) =~= seq![Sexp::CoreOperator(LCoreOperator::Begin)] + definitions(
                p@,
                a,
            ));
        },
        LambdaArgs::List(names) => {
            let mut args = args;
            let mut i: usize = 0;
            assert(string_views(names@).len() == names@.len());
            assert(models(v@) =~= seq![Sexp::CoreOperator(LCoreOperator::Begin)]);
            while i < names.len()
                invariant
                    i <= names.len(),
                    names@.len() == args@.len(),
                    v@.len() == i + 1,
                    v@[0]@ == Sexp::CoreOperator(LCoreOperator::Begin),
                    forall|k: int|
                        1 <= k <= i ==> (#[trigger] v@[k])@ == definition(names@[k - 1]@, a[k - 1]),
                    forall|j: int| i <= j < args@.len() ==> (#[trigger] args@[j])@ == a[j],
                    a.len() == args@.len(),
                decreases names.len() - i,
            {
                let mut taken = LValue::Nil;
                std::mem::swap(&mut taken, &mut args[i]);
                v.push(make_definition(&names[i], taken));
                i += 1;
            }
            assert(models(v@) =~= seq![Sexp::CoreOperator(LCoreOperator::Begin)] + definitions(
                p@,
                a,
            ));
        },
        LambdaArgs::Nil => {
            assert(models(v@) =~= seq![Sexp::CoreOperator(LCoreOperator::Begin)] + definitions(
                p@,
                a,
            ));
        },
    }
    let ghost before = models(v@);
    v.push(body);
    proof {
        lemma_list_model(v);
        assert(models(v@) =~= before.push(body@));
        assert(before.push(body@) =~= seq![Sexp::CoreOperator(LCoreOperator::Begin)] + definitions(
            p@,
            a,
        ).push(body@));
    }
    LValue::List(v)
}

/// Writes out the application of a lambda to arguments: a sequence that
/// binds each parameter to its quoted argument and then holds the body of
/// the lambda. What is no such application is refused.
pub fn transform_lambda_expression(lv: &LValue) -> (r: Result<LValue, ConversionError>)
    ensures
        r is Ok <==> transform_error(lv@) is None,
        r matches Err(e) ==> Some(e) == transform_error(lv@),
        r matches Ok(v) ==> v@ == transformed(lv@),
{
    match lv {
        LValue::List(list) => {
            proof {
                lemma_list_model(*list);
            }
            if list.len() == 0 {
                return Err(ConversionError::EmptyExpression);
            }
            assert(models(list@)[0] == list@[0]@);
            match &list[0] {
                LValue::Lambda(l) => {
                    if !can_bind(&l.params, list.len() - 1) {
                        return Err(ConversionError::WrongNumberOfArguments);
                    }
                    let mut args: Vec<LValue> = Vec::new();
                    let mut i: usize = 1;
                    while i < list.len()
                        invariant
                            1 <= i <= list.len(),
                            args@.len() == i - 1,
                            forall|j: int| 0 <= j < i - 1 ==> (#[trigger] args@[j])@ == list@[j + 1]@,
                        decreases list.len() - i,
                    {
                        args.push(list[i].clone());
                        i += 1;
                    }
                    assert(models(args@) =~= models(list@).skip(1));
                    Ok(make_begin(&l.params, args, (*l.body).clone()))
                },
                _ => Err(ConversionError::NotALambda),
            }
        },
        _ => Err(ConversionError::NotALambda),
    }
}

/// Writes out every application of a lambda in an expression, in the
/// arguments and in the body of the lambda too.
pub fn pre_processing(lv: &LValue) -> (r: LValue)
    ensures
        r@ == pre_processed(lv@),
    decreases *lv,
{
    match lv {
        LValue::List(list) => {
            proof {
                lemma_list_model(*list);
            }
            let ghost l = models(list@);
            let mut items: Vec<LValue> = Vec::new();
            let mut i: usize = 0;
            assert(models(items@) =~= pre_processed_items(l, 0));
            while i < list.len()
                invariant
                    i <= list.len(),
                    *lv is List,
                    lv->List_0 == *list,
                    l == models(list@),
                    items@.len() == i,
                    models(items@) == pre_processed_items(l, i as nat),
                decreases list.len() - i,
            {
                assert(decreases_to!(*lv => lv->List_0));
                assert(l[i as int] == list@[i as int]@);
                let ghost before = models(items@);
                let item = pre_processing(&list[i]);
                items.push(item);
                assert(models(items@) =~= before.push(item@));
                i += 1;
            }
            if list.len() > 0 {
                assert(l[0] == list@[0]@);
                if let LValue::Lambda(lambda) = &list[0] {
                    if can_bind(&lambda.params, list.len() - 1) {
                        assert(decreases_to!(*lv => lv->List_0));
                        let body = pre_processing(&*lambda.body);
                        let ghost all = models(items@);
                        let _ = items.remove(0);
                        assert(models(items@) =~= all.skip(1));
                        return make_begin(&lambda.params, items, body);
                    }
                }
            }
            proof {
                lemma_list_model(items);
            }
            LValue::List(items)
        },
        _ => lv.clone(),
    }
}

} // verus!
