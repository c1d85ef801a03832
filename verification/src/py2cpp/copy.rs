//! Deep copies of values, with the same content.
use crate::py2cpp::types::{Param, params_view, Argument, Operator, Value, arguments_view, values_view, lemma_arguments_view_push, lemma_values_view_push};
use vstd::prelude::*;

verus! {

pub fn copy_value(v: &Value) -> (r: Value)
    ensures
        r@ == v@,
    decreases v,
{
    match v {
        Value::ConstValue(s) => Value::ConstValue(s.clone()),
        Value::UseVar(s) => Value::UseVar(s.clone()),
        Value::CallFun { name, arguments } => Value::CallFun {
            name: name.clone(),
            arguments: copy_arguments(arguments),
        },
        Value::Expression { operators, values } => {
            let ops = copy_operators(operators);
            Value::Expression { operators: ops, values: copy_values(values) }
        },
        Value::Empty => Value::Empty,
    }
}

fn copy_operators(ops: &Vec<Operator>) -> (r: Vec<Operator>)
    ensures
        r@ == ops@,
{
    let mut r: Vec<Operator> = Vec::new();
    let mut i: usize = 0;
    while i < ops.len()
        invariant
            i <= ops@.len(),
            r@ =~= ops@.take(i as int),
        decreases ops@.len() - i,
    {
        r.push(ops[i]);
        proof {
            assert(ops@.take(i + 1) =~= ops@.take(i as int).push(ops@[i as int]));
        }
        i = i + 1;
    }
    proof {
        assert(ops@.take(ops@.len() as int) =~= ops@);
    }
    r
}

pub fn copy_argument(a: &Argument) -> (r: Argument)
    ensures
        r@ == a@,
    decreases a,
{
    Argument { type_: a.type_.copy(), value: copy_value(&a.value) }
}

pub fn copy_arguments(args: &Vec<Argument>) -> (r: Vec<Argument>)
    ensures
        arguments_view(r@) == arguments_view(args@),
    decreases args,
{
    let mut r: Vec<Argument> = Vec::new();
    let mut i: usize = 0;
    while i < args.len()
        invariant
            i <= args@.len(),
            arguments_view(r@) == arguments_view(args@.take(i as int)),
        decreases args@.len() - i,
    {
        proof {
            assert(decreases_to!(args => args@[i as int]));
        }
        let a = copy_argument(&args[i]);
        proof {
            lemma_arguments_view_push(r@, a);
            assert(args@.take(i + 1).drop_last() =~= args@.take(i as int));
        }
        r.push(a);
        i = i + 1;
    }
    proof {
        assert(args@.take(args@.len() as int) =~= args@);
    }
    r
}

pub fn copy_values(vs: &Vec<Value>) -> (r: Vec<Value>)
    ensures
        values_view(r@) == values_view(vs@),
    decreases vs,
{
    let mut r: Vec<Value> = Vec::new();
    let mut i: usize = 0;
    while i < vs.len()
        invariant
            i <= vs@.len(),
            values_view(r@) == values_view(vs@.take(i as int)),
        decreases vs@.len() - i,
    {
        proof {
            assert(decreases_to!(vs => vs@[i as int]));
        }
        let v = copy_value(&vs[i]);
        proof {
            lemma_values_view_push(r@, v);
            assert(vs@.take(i + 1).drop_last() =~= vs@.take(i as int));
        }
        r.push(v);
        i = i + 1;
    }
    proof {
        assert(vs@.take(vs@.len() as int) =~= vs@);
    }
    r
}

pub fn copy_param(p: &Param) -> (r: Param)
    ensures
        r@ == p@,
{
    Param { type_: p.type_.copy(), name: p.name.clone() }
}

pub fn copy_params(ps: &Vec<Param>) -> (r: Vec<Param>)
    ensures
        r@.len() == ps@.len(),
        params_view(r@) == params_view(ps@),
{
    let mut r: Vec<Param> = Vec::new();
    let mut i: usize = 0;
    while i < ps.len()
        invariant
            i <= ps@.len(),
            r@.len() == i,
            params_view(r@) =~= params_view(ps@).take(i as int),
        decreases ps@.len() - i,
    {
        let p = copy_param(&ps[i]);
        proof {
            assert(params_view(r@.push(p)) =~= params_view(r@).push(p@));
            assert(params_view(ps@).take(i + 1) =~= params_view(ps@).take(i as int).push(ps@[i as int]@));
        }
        r.push(p);
        i = i + 1;
    }
    proof {
        assert(params_view(ps@).take(ps@.len() as int) =~= params_view(ps@));
    }
    r
}

} // verus!
