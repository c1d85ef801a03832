//! Type inference over a parsed program.
use crate::py2cpp::constants::{is_native, native};
use crate::py2cpp::context::{Context, functions_context, type_in};
use crate::py2cpp::copy::copy_param;
use crate::py2cpp::text::str_eq;
use crate::py2cpp::types::{
    Argument, Code, Instruction, Param, SpecArgument, SpecCode, SpecFunction,
    SpecInstruction, SpecParam, SpecValue, Type, Value, arguments_view, instructions_view, lemma_arguments_view, lemma_instructions_view, lemma_values_view,
    params_view, values_view,
};
use crate::py2cpp::wf::{instruction_wf, instructions_wf, value_wf};
use vstd::prelude::*;
use vstd::string::*;

verus! {

/// The type of the first `return` of a body; `Void` where there is none.
pub open spec fn first_return_type(is: Seq<SpecInstruction>) -> Type
    decreases is.len(),
{
    if is.len() == 0 {
        Type::Void
    } else {
        match is[0] {
            SpecInstruction::Return { type_, .. } => type_,
            _ => first_return_type(is.drop_first()),
        }
    }
}

/// The type of the last declaration of `name` in a body; `Undefined` where
/// there is none.
pub open spec fn declared_type(name: Seq<char>, is: Seq<SpecInstruction>) -> Type
    decreases is.len(),
{
    if is.len() == 0 {
        Type::Undefined
    } else {
        match is.last() {
            SpecInstruction::CreateVar { type_, name: n, .. } => if n == name {
                type_
            } else {
                declared_type(name, is.drop_last())
            },
            _ => declared_type(name, is.drop_last()),
        }
    }
}

pub fn get_return_type(body: &mut Vec<Instruction>) -> (r: Type)
    ensures
        *final(body) == *old(body),
        r == first_return_type(instructions_view(old(body)@)),
{
    let ghost is = instructions_view(body@);
    proof {
        lemma_instructions_view(body@);
        assert(is.skip(0) =~= is);
    }
    let mut i: usize = 0;
    while i < body.len()
        invariant
            is == instructions_view(body@),
            is.len() == body@.len(),
            forall|k: int| 0 <= k < is.len() ==> #[trigger] is[k] == body@[k]@,
            i <= is.len(),
            first_return_type(is) == first_return_type(is.skip(i as int)),
        decreases is.len() - i,
    {
        proof {
            assert(is.skip(i as int)[0] == is[i as int]);
            assert(is.skip(i as int).drop_first() =~= is.skip(i + 1));
            assert(is[i as int] == body@[i as int]@);
        }
        match &body[i] {
            Instruction::Return { type_, .. } => {
                return type_.copy();
            },
            _ => {},
        }
        i = i + 1;
    }
    Type::Void
}

pub fn get_var_type(var_name: &str, body: &Vec<Instruction>) -> (r: Type)
    ensures
        r == declared_type(var_name@, instructions_view(body@)),
{
    let ghost is = instructions_view(body@);
    proof {
        lemma_instructions_view(body@);
        assert(is.take(0) =~= Seq::<SpecInstruction>::empty());
    }
    let mut result = Type::Undefined;
    let mut i: usize = 0;
    while i < body.len()
        invariant
            is == instructions_view(body@),
            is.len() == body@.len(),
            forall|k: int| 0 <= k < is.len() ==> #[trigger] is[k] == body@[k]@,
            i <= is.len(),
            result == declared_type(var_name@, is.take(i as int)),
        decreases is.len() - i,
    {
        proof {
            assert(is.take(i + 1).drop_last() =~= is.take(i as int));
            assert(is.take(i + 1).last() == body@[i as int]@);
        }
        match &body[i] {
            Instruction::CreateVar { type_, name, .. } => {
                if str_eq(var_name, name.as_str()) {
                    result = type_.copy();
                }
            },
            _ => {},
        }
        i = i + 1;
    }
    proof {
        assert(is.take(is.len() as int) =~= is);
    }
    result
}

// ---------------------------------------------------------------------------
// Parameter types from the calls
// ---------------------------------------------------------------------------

/// A call of a function of the program: its name and the types of its arguments.
pub type CallRecord = (Seq<char>, Seq<Type>);

pub open spec fn arg_types(args: Seq<SpecArgument>) -> Seq<Type> {
    args.map_values(|a: SpecArgument| a.type_)
}

/// The calls of functions of the program in a call and its arguments, the
/// inner calls first.
pub open spec fn call_records(name: Seq<char>, args: Seq<SpecArgument>) -> Seq<CallRecord>
    decreases args, args.len() + 1,
{
    if is_native(name) {
        Seq::empty()
    } else {
        nested_records(args, args.len()) + seq![(name, arg_types(args))]
    }
}

pub open spec fn nested_records(args: Seq<SpecArgument>, n: nat) -> Seq<CallRecord>
    decreases args, n,
{
    if n == 0 || n > args.len() {
        Seq::empty()
    } else {
        nested_records(args, (n - 1) as nat) + match args[n - 1].value {
            SpecValue::CallFun { name, arguments } => call_records(name, arguments),
            _ => Seq::empty(),
        }
    }
}

/// The calls that one instruction of a body makes, directly or as the value it assigns.
pub open spec fn instruction_records(i: SpecInstruction) -> Seq<CallRecord> {
    match i {
        SpecInstruction::CallFun { name, arguments } => call_records(name, arguments),
        SpecInstruction::CreateVar { value, .. } => match value {
            SpecValue::CallFun { name, arguments } => call_records(name, arguments),
            _ => Seq::empty(),
        },
        SpecInstruction::ReassignVar { value, .. } => match value {
            SpecValue::CallFun { name, arguments } => call_records(name, arguments),
            _ => Seq::empty(),
        },
        _ => Seq::empty(),
    }
}

pub open spec fn body_records(is: Seq<SpecInstruction>, n: nat) -> Seq<CallRecord>
    decreases n,
{
    if n == 0 || n > is.len() {
        Seq::empty()
    } else {
        body_records(is, (n - 1) as nat) + instruction_records(is[n - 1])
    }
}

/// All the calls in the top level of the bodies of the first `n` functions.
pub open spec fn records(fs: Seq<SpecFunction>, n: nat) -> Seq<CallRecord>
    decreases n,
{
    if n == 0 || n > fs.len() {
        Seq::empty()
    } else {
        records(fs, (n - 1) as nat) + body_records(fs[n - 1].body, fs[n - 1].body.len())
    }
}

/// A parameter that had no type takes the argument's; one whose type differs
/// from the argument's becomes generic.
pub open spec fn updated_type(p: Type, a: Type) -> Type {
    if p == Type::Undefined {
        a
    } else if p != a {
        Type::Generic
    } else {
        p
    }
}

pub open spec fn apply_call(ps: Seq<SpecParam>, types: Seq<Type>) -> Seq<SpecParam> {
    Seq::new(ps.len(), |k: int| SpecParam { type_: updated_type(ps[k].type_, types[k]), name: ps[k].name })
}

/// The parameters after the first `n` calls, those of `name` applied in turn.
pub open spec fn apply_calls(ps: Seq<SpecParam>, name: Seq<char>, rs: Seq<CallRecord>, n: nat) -> Seq<
    SpecParam,
>
    decreases n,
{
    if n == 0 || n > rs.len() {
        ps
    } else if rs[n - 1].0 == name {
        apply_call(apply_calls(ps, name, rs, (n - 1) as nat), rs[n - 1].1)
    } else {
        apply_calls(ps, name, rs, (n - 1) as nat)
    }
}

pub open spec fn is_called(name: Seq<char>, rs: Seq<CallRecord>) -> bool {
    exists|j: int| 0 <= j < rs.len() && (#[trigger] rs[j]).0 == name
}

/// The context with the first `n` parameters put in scope, each for itself.
pub open spec fn with_params(ctx: Map<Seq<char>, Seq<SpecParam>>, ps: Seq<SpecParam>, n: nat) -> Map<
    Seq<char>,
    Seq<SpecParam>,
>
    decreases n,
{
    if n == 0 || n > ps.len() {
        ctx
    } else {
        with_params(ctx, ps, (n - 1) as nat).insert(ps[n - 1].name, seq![ps[n - 1]])
    }
}

pub open spec fn bound_message() -> Seq<char> {
    "Se debe usar números para definir los limites del for"@
}

pub open spec fn at_message() -> Seq<char> {
    "Error no se puede asignar un String a un int"@
}

/// A bound of a loop that is a variable known to hold something other than a number.
pub open spec fn bad_bound(ctx: Map<Seq<char>, Seq<SpecParam>>, v: SpecValue) -> bool {
    match v {
        SpecValue::UseVar(x) => match type_in(ctx, x) {
            Ok(t) => t != Type::Int,
            Err(_) => false,
        },
        _ => false,
    }
}

/// An `at` on a variable known to hold something other than a vector of numbers.
pub open spec fn bad_at(ctx: Map<Seq<char>, Seq<SpecParam>>, v: SpecValue) -> bool {
    match v {
        SpecValue::CallFun { name, arguments } => name == "at"@ && match arguments[0].value {
            SpecValue::UseVar(d) => match type_in(ctx, d) {
                Ok(t) => t != Type::Vector(Box::new(Type::Int)),
                Err(_) => false,
            },
            _ => false,
        },
        _ => false,
    }
}

pub open spec fn any_bad_at(ctx: Map<Seq<char>, Seq<SpecParam>>, values: Seq<SpecValue>) -> bool {
    exists|j: int| 0 <= j < values.len() && bad_at(ctx, #[trigger] values[j])
}

pub open spec fn any_bad_assignment(ctx: Map<Seq<char>, Seq<SpecParam>>, content: Seq<SpecInstruction>) -> bool {
    exists|k: int| 0 <= k < content.len() && bad_assignment(ctx, #[trigger] content[k])
}

/// An assignment of an expression that uses such an `at`.
pub open spec fn bad_assignment(ctx: Map<Seq<char>, Seq<SpecParam>>, i: SpecInstruction) -> bool {
    match i {
        SpecInstruction::ReassignVar { value, .. } => match value {
            SpecValue::Expression { values, .. } => any_bad_at(ctx, values),
            _ => false,
        },
        _ => false,
    }
}

/// What a loop of the top level of a body is refused for, if anything.
pub open spec fn loop_error(ctx: Map<Seq<char>, Seq<SpecParam>>, i: SpecInstruction) -> Option<Seq<char>> {
    match i {
        SpecInstruction::Loop { start, end, content, .. } => if bad_bound(ctx, start) || bad_bound(
            ctx,
            end,
        ) {
            Some(bound_message())
        } else if any_bad_assignment(ctx, content) {
            Some(at_message())
        } else {
            None
        },
        _ => None,
    }
}

/// The first refusal among the first `n` instructions of a body.
pub open spec fn body_error(ctx: Map<Seq<char>, Seq<SpecParam>>, is: Seq<SpecInstruction>, n: nat) -> Option<
    Seq<char>,
>
    decreases n,
{
    if n == 0 || n > is.len() {
        None
    } else {
        match body_error(ctx, is, (n - 1) as nat) {
            Some(e) => Some(e),
            None => loop_error(ctx, is[n - 1]),
        }
    }
}

/// The refusal of a call that passes fewer arguments than its function
/// has parameters.
pub open spec fn arguments_message() -> Seq<char> {
    "Faltan argumentos en la llamada a una función"@
}

/// Every call of `name` passes at least `n` arguments.
pub open spec fn covers(name: Seq<char>, n: nat, rs: Seq<CallRecord>) -> bool {
    forall|j: int| 0 <= j < rs.len() && (#[trigger] rs[j]).0 == name ==> rs[j].1.len() >= n
}

/// The functions, context and refusal after the first `n` functions have had
/// their parameter types inferred and their loops checked; nothing changes
/// after a refusal. A called function some call of which passes too few
/// arguments is refused when its turn comes.
pub open spec fn infer_fold(
    fs: Seq<SpecFunction>,
    rs: Seq<CallRecord>,
    ctx: Map<Seq<char>, Seq<SpecParam>>,
    n: nat,
) -> (Seq<SpecFunction>, Map<Seq<char>, Seq<SpecParam>>, Option<Seq<char>>)
    decreases n,
{
    if n == 0 || n > fs.len() {
        (fs, ctx, None)
    } else {
        let (fs1, ctx1, e1) = infer_fold(fs, rs, ctx, (n - 1) as nat);
        if e1 is Some {
            (fs1, ctx1, e1)
        } else {
            let f = fs1[n - 1];
            if !is_called(f.name, rs) {
                (fs1, ctx1, None)
            } else if !covers(f.name, f.params.len(), rs) {
                (fs1, ctx1, Some(arguments_message()))
            } else {
                let ps = apply_calls(f.params, f.name, rs, rs.len());
                let ctx2 = with_params(ctx1, ps, ps.len());
                let f2 = SpecFunction { params: ps, ..f };
                (fs1.update(n - 1, f2), ctx2, body_error(ctx2, f.body, f.body.len()))
            }
        }
    }
}

/// Each call of a function of the program gives an argument for each of its
/// parameters.
pub open spec fn params_covered(c: SpecCode) -> bool {
    let rs = records(c.functions, c.functions.len());
    forall|k: int, j: int|
        0 <= k < c.functions.len() && 0 <= j < rs.len() && (#[trigger] rs[j]).0 == (
        #[trigger] c.functions[k]).name ==> rs[j].1.len() >= c.functions[k].params.len()
}

/// The records of two parallel vectors of names and argument types.
pub open spec fn records_of(called: Seq<String>, types: Seq<Vec<Type>>) -> Seq<CallRecord> {
    Seq::new(called.len(), |k: int| (called[k]@, types[k]@))
}

fn store_arg_types(
    name: &String,
    called_funs: &mut Vec<String>,
    fun_types: &mut Vec<Vec<Type>>,
    arguments: &Vec<Argument>,
)
    requires
        old(called_funs)@.len() == old(fun_types)@.len(),
    ensures
        final(called_funs)@.len() == final(fun_types)@.len(),
        records_of(final(called_funs)@, final(fun_types)@) == records_of(old(called_funs)@, old(fun_types)@)
            + call_records(name@, arguments_view(arguments@)),
    decreases arguments,
{
    let ghost args = arguments_view(arguments@);
    proof {
        lemma_arguments_view(arguments@);
    }
    if native(name.as_str()) {
        proof {
            assert(records_of(called_funs@, fun_types@) + call_records(name@, args) =~= records_of(
                called_funs@,
                fun_types@,
            ));
        }
        return ;
    }
    let ghost before = records_of(called_funs@, fun_types@);
    let mut types: Vec<Type> = Vec::new();
    let mut i: usize = 0;
    while i < arguments.len()
        invariant
            args == arguments_view(arguments@),
            args.len() == arguments@.len(),
            forall|k: int| 0 <= k < args.len() ==> #[trigger] args[k] == arguments@[k]@,
            i <= args.len(),
            called_funs@.len() == fun_types@.len(),
            records_of(called_funs@, fun_types@) == before + nested_records(args, i as nat),
            types@ == arg_types(args.take(i as int)),
        decreases args.len() - i,
    {
        let argument = &arguments[i];
        proof {
            assert(args[i as int] == argument@);
            assert(args.take(i + 1) =~= args.take(i as int).push(args[i as int]));
            assert(arg_types(args.take(i + 1)) =~= arg_types(args.take(i as int)).push(args[i as int].type_));
        }
        types.push(argument.type_.copy());
        match &argument.value {
            Value::CallFun { name: inner, arguments: inner_args } => {
                proof {
                    assert(decreases_to!(arguments => arguments@[i as int]));
                    assert(decreases_to!(arguments@[i as int] => argument.value));
                }
                store_arg_types(inner, called_funs, fun_types, inner_args);
                proof {
                    assert(before + nested_records(args, (i + 1) as nat) =~= before + nested_records(args, i as nat)
                        + call_records(inner@, arguments_view(inner_args@)));
                }
            },
            _ => {
                proof {
                    assert(before + nested_records(args, (i + 1) as nat) =~= before + nested_records(args, i as nat));
                }
            },
        }
        i = i + 1;
    }
    let ghost mid = records_of(called_funs@, fun_types@);
    proof {
        assert(args.take(args.len() as int) =~= args);
    }
    called_funs.push(name.clone());
    fun_types.push(types);
    proof {
        assert(records_of(called_funs@, fun_types@) =~= mid.push((name@, arg_types(args))));
        assert(before + call_records(name@, args) =~= before + nested_records(args, args.len()) + seq![(name@, arg_types(args))]);
    }
}

proof fn lemma_body_error_stays(
    ctx: Map<Seq<char>, Seq<SpecParam>>,
    is: Seq<SpecInstruction>,
    n: nat,
    m: nat,
)
    requires
        n <= m <= is.len(),
        body_error(ctx, is, n) is Some,
    ensures
        body_error(ctx, is, m) == body_error(ctx, is, n),
    decreases m - n,
{
    if m > n {
        lemma_body_error_stays(ctx, is, n, (m - 1) as nat);
    }
}

fn bad_bound_check(context: &mut Context, v: &Value) -> (r: bool)
    ensures
        *final(context) == *old(context),
        r == bad_bound(old(context)@, v@),
{
    match v {
        Value::UseVar(variable) => match context.get_type(variable.as_str()) {
            Ok(t) => !t.same(&Type::Int),
            Err(_) => false,
        },
        _ => false,
    }
}

fn bad_at_check(context: &mut Context, v: &Value) -> (r: bool)
    requires
        value_wf(v@),
    ensures
        *final(context) == *old(context),
        r == bad_at(old(context)@, v@),
{
    match v {
        Value::CallFun { name, arguments } => {
            if !str_eq(name.as_str(), "at") {
                return false;
            }
            proof {
                lemma_arguments_view(arguments@);
            }
            match &arguments[0].value {
                Value::UseVar(data) => match context.get_type(data.as_str()) {
                    Ok(t) => !t.same(&Type::Vector(Box::new(Type::Int))),
                    Err(_) => false,
                },
                _ => false,
            }
        },
        _ => false,
    }
}

fn bad_assignment_check(context: &mut Context, i: &Instruction) -> (r: bool)
    requires
        instruction_wf(i@),
    ensures
        *final(context) == *old(context),
        r == bad_assignment(old(context)@, i@),
{
    match i {
        Instruction::ReassignVar { value, .. } => match value {
            Value::Expression { operators, values } => {
                let ghost vs = values_view(values@);
                proof {
                    lemma_values_view(values@);
                }
                assert(i@ == SpecInstruction::ReassignVar {
                    type_: i@->ReassignVar_type_,
                    name: i@->ReassignVar_name,
                    value: SpecValue::Expression { operators: operators@, values: vs },
                });
                let mut j: usize = 0;
                while j < values.len()
                    invariant
                        *context == *old(context),
                        i@ == (SpecInstruction::ReassignVar {
                            type_: i@->ReassignVar_type_,
                            name: i@->ReassignVar_name,
                            value: SpecValue::Expression { operators: operators@, values: vs },
                        }),
                        vs == values_view(values@),
                        vs.len() == values@.len(),
                        forall|k: int| 0 <= k < vs.len() ==> #[trigger] vs[k] == values@[k]@,
                        forall|k: int| 0 <= k < vs.len() ==> value_wf(#[trigger] vs[k]),
                        j <= vs.len(),
                        forall|k: int| 0 <= k < j ==> !bad_at(old(context)@, #[trigger] vs[k]),
                    decreases vs.len() - j,
                {
                    proof {
                        assert(vs[j as int] == values@[j as int]@);
                    }
                    if bad_at_check(context, &values[j]) {
                        proof {
                            assert(bad_at(old(context)@, vs[j as int]));
                            assert(any_bad_at(old(context)@, vs));
                        }
                        return true;
                    }
                    j = j + 1;
                }
                false
            },
            _ => false,
        },
        _ => false,
    }
}

fn loop_error_check(context: &mut Context, i: &Instruction) -> (r: Option<String>)
    requires
        instruction_wf(i@),
    ensures
        *final(context) == *old(context),
        match r {
            Some(e) => loop_error(old(context)@, i@) == Some(e@),
            None => loop_error(old(context)@, i@) is None,
        },
{
    match i {
        Instruction::Loop { counter, start, end, content } => {
            if bad_bound_check(context, start) || bad_bound_check(context, end) {
                return Some(String::from_str("Se debe usar números para definir los limites del for"));
            }
            let ghost is = instructions_view(content@);
            proof {
                lemma_instructions_view(content@);
            }
            assert(i@ == SpecInstruction::Loop { counter: counter@, start: start@, end: end@, content: is });
            let mut k: usize = 0;
            while k < content.len()
                invariant
                    *context == *old(context),
                    i@ == (SpecInstruction::Loop { counter: counter@, start: start@, end: end@, content: is }),
                    !bad_bound(old(context)@, start@),
                    !bad_bound(old(context)@, end@),
                    is == instructions_view(content@),
                    is.len() == content@.len(),
                    forall|j: int| 0 <= j < is.len() ==> #[trigger] is[j] == content@[j]@,
                    forall|j: int| 0 <= j < is.len() ==> instruction_wf(#[trigger] is[j]),
                    k <= is.len(),
                    forall|j: int| 0 <= j < k ==> !bad_assignment(old(context)@, #[trigger] is[j]),
                decreases is.len() - k,
            {
                proof {
                    assert(is[k as int] == content@[k as int]@);
                }
                if bad_assignment_check(context, &content[k]) {
                    proof {
                        assert(bad_assignment(old(context)@, is[k as int]));
                        assert(any_bad_assignment(old(context)@, is));
                    }
                    return Some(String::from_str("Error no se puede asignar un String a un int"));
                }
                k = k + 1;
            }
            None
        },
        _ => None,
    }
}

fn body_error_check(context: &mut Context, body: &Vec<Instruction>) -> (r: Option<String>)
    requires
        instructions_wf(instructions_view(body@)),
    ensures
        *final(context) == *old(context),
        match r {
            Some(e) => body_error(old(context)@, instructions_view(body@), body@.len()) == Some(e@),
            None => body_error(old(context)@, instructions_view(body@), body@.len()) is None,
        },
{
    let ghost is = instructions_view(body@);
    proof {
        lemma_instructions_view(body@);
    }
    let mut k: usize = 0;
    while k < body.len()
        invariant
            *context == *old(context),
            is == instructions_view(body@),
            is.len() == body@.len(),
            forall|j: int| 0 <= j < is.len() ==> #[trigger] is[j] == body@[j]@,
            instructions_wf(is),
            k <= is.len(),
            body_error(old(context)@, is, k as nat) is None,
        decreases is.len() - k,
    {
        proof {
            assert(is[k as int] == body@[k as int]@);
            assert(instruction_wf(is[k as int]));
        }
        match loop_error_check(context, &body[k]) {
            Some(e) => {
                proof {
                    lemma_body_error_stays(old(context)@, is, (k + 1) as nat, is.len());
                }
                return Some(e);
            },
            None => {},
        }
        k = k + 1;
    }
    None
}

fn apply_call_exec(params: &Vec<Param>, types: &Vec<Type>) -> (r: Vec<Param>)
    requires
        types@.len() >= params@.len(),
    ensures
        params_view(r@) == apply_call(params_view(params@), types@),
{
    let ghost ps = params_view(params@);
    let mut r: Vec<Param> = Vec::new();
    let mut k: usize = 0;
    while k < params.len()
        invariant
            ps == params_view(params@),
            types@.len() >= params@.len(),
            k <= params@.len(),
            params_view(r@) =~= apply_call(ps, types@).take(k as int),
        decreases params@.len() - k,
    {
        let param = &params[k];
        let t = &types[k];
        let type_ = if param.type_.same(&Type::Undefined) {
            t.copy()
        } else if !param.type_.same(t) {
            Type::Generic
        } else {
            param.type_.copy()
        };
        let p = Param { type_, name: param.name.clone() };
        proof {
            assert(params_view(r@.push(p)) =~= params_view(r@).push(p@));
            assert(apply_call(ps, types@).take(k + 1) =~= apply_call(ps, types@).take(k as int).push(p@));
        }
        r.push(p);
        k = k + 1;
    }
    proof {
        assert(apply_call(ps, types@).take(params@.len() as int) =~= apply_call(ps, types@));
    }
    r
}

fn called(name: &String, called_funs: &Vec<String>) -> (r: bool)
    ensures
        r == exists|j: int| 0 <= j < called_funs@.len() && (#[trigger] called_funs@[j])@ == name@,
{
    let mut j: usize = 0;
    while j < called_funs.len()
        invariant
            j <= called_funs@.len(),
            forall|k: int| 0 <= k < j ==> (#[trigger] called_funs@[k])@ != name@,
        decreases called_funs@.len() - j,
    {
        if str_eq(called_funs[j].as_str(), name.as_str()) {
            return true;
        }
        j = j + 1;
    }
    false
}

proof fn lemma_apply_calls_len(ps: Seq<SpecParam>, name: Seq<char>, rs: Seq<CallRecord>, n: nat)
    ensures
        apply_calls(ps, name, rs, n).len() == ps.len(),
    decreases n,
{
    if n > 0 && n <= rs.len() {
        lemma_apply_calls_len(ps, name, rs, (n - 1) as nat);
    }
}

proof fn lemma_infer_fold_frame(
    fs: Seq<SpecFunction>,
    rs: Seq<CallRecord>,
    ctx: Map<Seq<char>, Seq<SpecParam>>,
    n: nat,
)
    requires
        n <= fs.len(),
    ensures
        infer_fold(fs, rs, ctx, n).0.len() == fs.len(),
        forall|k: int|
            0 <= k < fs.len() ==> {
                &&& (#[trigger] infer_fold(fs, rs, ctx, n).0[k]).name == fs[k].name
                &&& infer_fold(fs, rs, ctx, n).0[k].body == fs[k].body
                &&& infer_fold(fs, rs, ctx, n).0[k].type_ == fs[k].type_
                &&& infer_fold(fs, rs, ctx, n).0[k].params.len() == fs[k].params.len()
            },
        forall|k: int| n <= k < fs.len() ==> #[trigger] infer_fold(fs, rs, ctx, n).0[k] == fs[k],
    decreases n,
{
    if n > 0 {
        lemma_infer_fold_frame(fs, rs, ctx, (n - 1) as nat);
        let f = infer_fold(fs, rs, ctx, (n - 1) as nat).0[n - 1];
        lemma_apply_calls_len(f.params, f.name, rs, rs.len());
    }
}

proof fn lemma_infer_fold_stays(
    fs: Seq<SpecFunction>,
    rs: Seq<CallRecord>,
    ctx: Map<Seq<char>, Seq<SpecParam>>,
    n: nat,
    m: nat,
)
    requires
        n <= m <= fs.len(),
        infer_fold(fs, rs, ctx, n).2 is Some,
    ensures
        infer_fold(fs, rs, ctx, m) == infer_fold(fs, rs, ctx, n),
    decreases m - n,
{
    if m > n {
        lemma_infer_fold_stays(fs, rs, ctx, n, (m - 1) as nat);
    }
}

/// The calls of functions of the program in the bodies, in order: each
/// callee's name and the types of its arguments.
fn collect_calls(code: &Code) -> (r: (Vec<String>, Vec<Vec<Type>>))
    ensures
        r.0@.len() == r.1@.len(),
        records_of(r.0@, r.1@) == records(code@.functions, code@.functions.len()),
{
    let ghost fs = code@.functions;
    let mut called_funs: Vec<String> = Vec::new();
    let mut fun_types: Vec<Vec<Type>> = Vec::new();
    let n = code.functions.len();
    let mut i: usize = 0;
    proof {
        assert(records_of(called_funs@, fun_types@) =~= records(fs, 0));
    }
    while i < n
        invariant
            n == code.functions@.len(),
            fs == code@.functions,
            i <= n,
            called_funs@.len() == fun_types@.len(),
            records_of(called_funs@, fun_types@) == records(fs, i as nat),
        decreases n - i,
    {
        let body = &code.functions[i].body;
        let ghost is = instructions_view(body@);
        proof {
            lemma_instructions_view(body@);
            assert(is == fs[i as int].body);
            assert(records(fs, i as nat) =~= records(fs, i as nat) + body_records(is, 0));
        }
        let mut j: usize = 0;
        while j < body.len()
            invariant
                is == instructions_view(body@),
                is.len() == body@.len(),
                forall|k: int| 0 <= k < is.len() ==> #[trigger] is[k] == body@[k]@,
                j <= is.len(),
                called_funs@.len() == fun_types@.len(),
                records_of(called_funs@, fun_types@) == records(fs, i as nat) + body_records(is, j as nat),
            decreases is.len() - j,
        {
            proof {
                assert(is[j as int] == body@[j as int]@);
            }
            let ghost before = records_of(called_funs@, fun_types@);
            match &body[j] {
                Instruction::CallFun { name, arguments } => {
                    store_arg_types(name, &mut called_funs, &mut fun_types, arguments);
                },
                Instruction::CreateVar { value, .. } | Instruction::ReassignVar { value, .. } => {
                    match value {
                        Value::CallFun { name, arguments } => {
                            store_arg_types(name, &mut called_funs, &mut fun_types, arguments);
                        },
                        _ => {},
                    }
                },
                _ => {},
            }
            proof {
                assert(records(fs, i as nat) + body_records(is, (j + 1) as nat) =~= before
                    + instruction_records(is[j as int]));
                if records_of(called_funs@, fun_types@) == before {
                    assert(before + instruction_records(is[j as int]) =~= before);
                }
            }
            j = j + 1;
        }
        i = i + 1;
    }
    (called_funs, fun_types)
}

/// Whether every call of `name` recorded passes at least `n` arguments.
fn covered(name: &String, n: usize, called_funs: &Vec<String>, fun_types: &Vec<Vec<Type>>) -> (r: bool)
    requires
        called_funs@.len() == fun_types@.len(),
    ensures
        r == covers(name@, n as nat, records_of(called_funs@, fun_types@)),
{
    let ghost rs = records_of(called_funs@, fun_types@);
    let mut j: usize = 0;
    while j < called_funs.len()
        invariant
            rs == records_of(called_funs@, fun_types@),
            called_funs@.len() == fun_types@.len(),
            j <= called_funs@.len(),
            forall|j2: int| 0 <= j2 < j && (#[trigger] rs[j2]).0 == name@ ==> rs[j2].1.len() >= n,
        decreases called_funs@.len() - j,
    {
        proof {
            assert(rs[j as int] == (called_funs@[j as int]@, fun_types@[j as int]@));
        }
        if str_eq(called_funs[j].as_str(), name.as_str()) && fun_types[j].len() < n {
            proof {
                assert(rs[j as int].0 == name@);
            }
            return false;
        }
        j = j + 1;
    }
    true
}

/// Gives each parameter of each called function the type of the arguments
/// passed to it (generic where calls disagree), and refuses a loop bounded by
/// a variable that is not a number, or an expression in a loop that reads
/// with `at` from a variable that is not a vector of numbers.
pub fn param_types(code: &mut Code) -> (r: Result<(), String>)
    requires
        forall|k: int|
            0 <= k < old(code)@.functions.len() ==> instructions_wf(
                (#[trigger] old(code)@.functions[k]).body,
            ),
        params_covered(old(code)@),
    ensures
        ({
            let fs = old(code)@.functions;
            let (fs2, _, e) = infer_fold(fs, records(fs, fs.len()), functions_context(fs), fs.len());
            &&& final(code)@.functions == fs2
            &&& final(code)@.libraries == old(code)@.libraries
            &&& match r {
                Ok(_) => e is None,
                Err(m) => e == Some(m@),
            }
        }),
{
    infer_params(code)
}

/// What `param_types` does, refusing where a called function is passed
/// fewer arguments than it has parameters, when its turn comes.
pub fn infer_params(code: &mut Code) -> (r: Result<(), String>)
    requires
        forall|k: int|
            0 <= k < old(code)@.functions.len() ==> instructions_wf(
                (#[trigger] old(code)@.functions[k]).body,
            ),
    ensures
        ({
            let fs = old(code)@.functions;
            let (fs2, _, e) = infer_fold(fs, records(fs, fs.len()), functions_context(fs), fs.len());
            &&& final(code)@.functions == fs2
            &&& final(code)@.libraries == old(code)@.libraries
            &&& match r {
                Ok(_) => e is None,
                Err(m) => e == Some(m@),
            }
        }),
{
    let ghost fs = code@.functions;
    let n = code.functions.len();
    let (called_funs, fun_types) = collect_calls(code);
    let ghost rs = records(fs, fs.len());
    let mut context = Context::get_fun_types(code);
    let ghost ctx0 = context@;
    let mut i: usize = 0;
    proof {
        lemma_infer_fold_frame(fs, rs, ctx0, 0);
    }
    while i < n
        invariant
            n == code.functions@.len(),
            n == fs.len(),
            i <= n,
            rs == records(fs, fs.len()),
            rs == records_of(called_funs@, fun_types@),
            called_funs@.len() == fun_types@.len(),
            ctx0 == functions_context(fs),
            forall|k: int| 0 <= k < fs.len() ==> instructions_wf((#[trigger] fs[k]).body),
            code@.libraries == old(code)@.libraries,
            fs == old(code)@.functions,
            code@.functions == infer_fold(fs, rs, ctx0, i as nat).0,
            context@ == infer_fold(fs, rs, ctx0, i as nat).1,
            infer_fold(fs, rs, ctx0, i as nat).2 is None,
        decreases n - i,
    {
        proof {
            lemma_infer_fold_frame(fs, rs, ctx0, i as nat);
            lemma_infer_fold_frame(fs, rs, ctx0, (i + 1) as nat);
            assert(code@.functions[i as int] == fs[i as int]);
        }
        let name = code.functions[i].name.clone();
        if !called(&name, &called_funs) {
            proof {
                assert forall|j: int| 0 <= j < rs.len() implies (#[trigger] rs[j]).0 != name@ by {
                    assert(rs[j].0 == called_funs@[j]@);
                }
            }
            i = i + 1;
            continue;
        }
        proof {
            let j = choose|j: int| 0 <= j < called_funs@.len() && (#[trigger] called_funs@[j])@ == name@;
            assert(rs[j].0 == name@);
            assert(is_called(name@, rs));
        }
        let ghost f = fs[i as int];
        if !covered(&name, code.functions[i].params.len(), &called_funs, &fun_types) {
            proof {
                assert(infer_fold(fs, rs, ctx0, (i + 1) as nat).2 == Some(arguments_message()));
                lemma_infer_fold_stays(fs, rs, ctx0, (i + 1) as nat, fs.len());
            }
            return Err(String::from_str("Faltan argumentos en la llamada a una función"));
        }
        let mut params: Vec<Param> = Vec::new();
        let mut k: usize = 0;
        while k < code.functions[i].params.len()
            invariant
                n == code.functions@.len(),
                i < n,
                k <= code.functions@[i as int].params@.len(),
                params_view(params@) =~= params_view(code.functions@[i as int].params@).take(k as int),
            decreases code.functions@[i as int].params@.len() - k,
        {
            let p = copy_param(&code.functions[i].params[k]);
            proof {
                assert(params_view(params@.push(p)) =~= params_view(params@).push(p@));
                assert(params_view(code.functions@[i as int].params@).take(k + 1) =~= params_view(code.functions@[i as int].params@).take(k as int).push(p@));
            }
            params.push(p);
            k = k + 1;
        }
        proof {
            assert(params_view(code.functions@[i as int].params@).take(code.functions@[i as int].params@.len() as int) =~= params_view(code.functions@[i as int].params@));
            assert(params_view(params@) == f.params);
        }
        let mut c: usize = 0;
        while c < called_funs.len()
            invariant
                rs == records_of(called_funs@, fun_types@),
                called_funs@.len() == fun_types@.len(),
                c <= called_funs@.len(),
                name@ == f.name,
                fs[i as int] == f,
                i < fs.len(),
                rs == records(fs, fs.len()),
                covers(f.name, f.params.len(), rs),
                params_view(params@) == apply_calls(f.params, f.name, rs, c as nat),
            decreases called_funs@.len() - c,
        {
            proof {
                lemma_apply_calls_len(f.params, f.name, rs, c as nat);
            }
            if str_eq(called_funs[c].as_str(), name.as_str()) {
                proof {
                    assert(rs[c as int].0 == fs[i as int].name);
                    assert(rs[c as int].1.len() >= fs[i as int].params.len());
                    assert(rs[c as int].1 == fun_types@[c as int]@);
                }
                params = apply_call_exec(&params, &fun_types[c]);
            }
            c = c + 1;
        }
        let ghost ps = params_view(params@);
        proof {
            assert(ps == apply_calls(f.params, f.name, rs, rs.len()));
            assert(context@ == with_params(infer_fold(fs, rs, ctx0, i as nat).1, ps, 0));
        }
        let mut k: usize = 0;
        while k < params.len()
            invariant
                ps == params_view(params@),
                k <= params@.len(),
                context@ == with_params(infer_fold(fs, rs, ctx0, i as nat).1, ps, k as nat),
            decreases params@.len() - k,
        {
            let p = copy_param(&params[k]);
            let single = vec![p];
            proof {
                assert(params_view(single@) =~= seq![ps[k as int]]);
            }
            context.insert(params[k].name.clone(), single);
            k = k + 1;
        }
        code.functions[i].params = params;
        proof {
            assert(code@.functions =~= infer_fold(fs, rs, ctx0, (i + 1) as nat).0);
            assert(context@ == infer_fold(fs, rs, ctx0, (i + 1) as nat).1);
            assert(instructions_view(code.functions@[i as int].body@) == f.body);
            assert(infer_fold(fs, rs, ctx0, (i + 1) as nat).2 == body_error(context@, f.body, f.body.len()));
        }
        let ghost ctx_before = context@;
        proof {
            lemma_instructions_view(code.functions@[i as int].body@);
        }
        let ghost e_spec = infer_fold(fs, rs, ctx0, (i + 1) as nat).2;
        assert(e_spec == body_error(ctx_before, instructions_view(code.functions@[i as int].body@), code.functions@[i as int].body@.len()));
        match body_error_check(&mut context, &code.functions[i].body) {
            Some(e) => {
                proof {
                    assert(e_spec is Some);
                    lemma_infer_fold_stays(fs, rs, ctx0, (i + 1) as nat, fs.len());
                }
                return Err(e);
            },
            None => {},
        }
        i = i + 1;
    }
    Ok(())
}


/// Inference changes only the functions that some call reaches: a function
/// that no call of the program reaches keeps its parameters and their types.
pub proof fn lemma_uncalled_keeps_params(
    fs: Seq<SpecFunction>,
    rs: Seq<CallRecord>,
    ctx: Map<Seq<char>, Seq<SpecParam>>,
    n: nat,
    k: int,
)
    requires
        n <= fs.len(),
        0 <= k < fs.len(),
        !is_called(fs[k].name, rs),
    ensures
        infer_fold(fs, rs, ctx, n).0[k] == fs[k],
    decreases n,
{
    lemma_infer_fold_frame(fs, rs, ctx, n);
    if n > 0 {
        lemma_uncalled_keeps_params(fs, rs, ctx, (n - 1) as nat, k);
        lemma_infer_fold_frame(fs, rs, ctx, (n - 1) as nat);
    }
}


/// Whether one of the first `n` calls is a call of `name`.
pub open spec fn called_before(name: Seq<char>, rs: Seq<CallRecord>, n: nat) -> bool {
    exists|j: int| 0 <= j < n && j < rs.len() && (#[trigger] rs[j]).0 == name
}

/// A parameter without a type that every call of its function passes an
/// argument of type `t` takes the type `t`; it keeps no type while no call
/// is made.
pub proof fn lemma_calls_agree(ps: Seq<SpecParam>, name: Seq<char>, rs: Seq<CallRecord>, n: nat, k: int, t: Type)
    requires
        0 <= k < ps.len(),
        ps[k].type_ == Type::Undefined,
        forall|j: int| 0 <= j < rs.len() && (#[trigger] rs[j]).0 == name ==> k < rs[j].1.len() && rs[j].1[k] == t,
        n <= rs.len(),
    ensures
        apply_calls(ps, name, rs, n).len() == ps.len(),
        apply_calls(ps, name, rs, n)[k].type_ == (if called_before(name, rs, n) {
            t
        } else {
            Type::Undefined
        }),
    decreases n,
{
    lemma_apply_calls_len(ps, name, rs, n);
    if n > 0 {
        lemma_calls_agree(ps, name, rs, (n - 1) as nat, k, t);
        lemma_apply_calls_len(ps, name, rs, (n - 1) as nat);
        if rs[n - 1].0 == name {
            assert(called_before(name, rs, n));
        } else {
            if called_before(name, rs, n) {
                let j = choose|j: int| 0 <= j < n && j < rs.len() && (#[trigger] rs[j]).0 == name;
                assert(j != n - 1);
                assert(called_before(name, rs, (n - 1) as nat));
            }
            if called_before(name, rs, (n - 1) as nat) {
                let j = choose|j: int| 0 <= j < n - 1 && j < rs.len() && (#[trigger] rs[j]).0 == name;
                assert(called_before(name, rs, n));
            }
        }
    }
}

/// A parameter of a function that one call passes an argument of a type `a`
/// (not undefined), and a later call an argument of another type, becomes
/// generic.
pub proof fn lemma_calls_disagree(
    ps: Seq<SpecParam>,
    name: Seq<char>,
    rs: Seq<CallRecord>,
    n: nat,
    k: int,
    j1: int,
    j2: int,
)
    requires
        0 <= k < ps.len(),
        0 <= j1 < j2 < rs.len(),
        rs[j1].0 == name,
        rs[j2].0 == name,
        forall|j: int| 0 <= j < rs.len() && (#[trigger] rs[j]).0 == name ==> k < rs[j].1.len(),
        rs[j1].1[k] != Type::Undefined,
        rs[j1].1[k] != rs[j2].1[k],
        n <= rs.len(),
    ensures
        n > j1 ==> (apply_calls(ps, name, rs, n)[k].type_ == rs[j1].1[k] || apply_calls(ps, name, rs, n)[k].type_
            == Type::Generic),
        n > j2 ==> apply_calls(ps, name, rs, n)[k].type_ == Type::Generic,
    decreases n,
{
    lemma_apply_calls_len(ps, name, rs, n);
    if n > 0 {
        lemma_calls_disagree(ps, name, rs, (n - 1) as nat, k, j1, j2);
        lemma_apply_calls_len(ps, name, rs, (n - 1) as nat);
    }
}

/// Whether `r` is one of the records `rs`.
pub open spec fn has_record(rs: Seq<CallRecord>, r: CallRecord) -> bool {
    exists|i: int| 0 <= i < rs.len() && rs[i] == r
}

proof fn lemma_has_record_add(a: Seq<CallRecord>, b: Seq<CallRecord>, r: CallRecord)
    ensures
        has_record(a, r) ==> has_record(a + b, r),
        has_record(b, r) ==> has_record(a + b, r),
{
    if has_record(a, r) {
        let i = choose|i: int| 0 <= i < a.len() && a[i] == r;
        assert((a + b)[i] == r);
    }
    if has_record(b, r) {
        let i = choose|i: int| 0 <= i < b.len() && b[i] == r;
        assert((a + b)[a.len() + i] == r);
    }
}

proof fn lemma_body_records_has(is: Seq<SpecInstruction>, n: nat, j: int, r: CallRecord)
    requires
        0 <= j < n <= is.len(),
        has_record(instruction_records(is[j]), r),
    ensures
        has_record(body_records(is, n), r),
    decreases n,
{
    if j == n - 1 {
        lemma_has_record_add(body_records(is, (n - 1) as nat), instruction_records(is[j]), r);
    } else {
        lemma_body_records_has(is, (n - 1) as nat, j, r);
        lemma_has_record_add(body_records(is, (n - 1) as nat), instruction_records(is[n - 1]), r);
    }
}

proof fn lemma_records_has(fs: Seq<SpecFunction>, n: nat, k: int, r: CallRecord)
    requires
        0 <= k < n <= fs.len(),
        has_record(body_records(fs[k].body, fs[k].body.len()), r),
    ensures
        has_record(records(fs, n), r),
    decreases n,
{
    let last = body_records(fs[n - 1].body, fs[n - 1].body.len());
    if k == n - 1 {
        lemma_has_record_add(records(fs, (n - 1) as nat), last, r);
    } else {
        lemma_records_has(fs, (n - 1) as nat, k, r);
        lemma_has_record_add(records(fs, (n - 1) as nat), last, r);
    }
}

/// The call that a top-level instruction makes of a function of the
/// program: as a statement, as the value of a new variable, or as the value
/// of a reassignment.
pub open spec fn top_level_call(i: SpecInstruction, name: Seq<char>, arguments: Seq<SpecArgument>) -> bool {
    let c = SpecValue::CallFun { name, arguments };
    ||| i == SpecInstruction::CallFun { name, arguments }
    ||| (i is CreateVar && i->CreateVar_value == c)
    ||| (i is ReassignVar && i->ReassignVar_value == c)
}

/// Every call of a function of the program at the top level of a body,
/// whether a statement, the value of a new variable or the value of a
/// reassignment, counts: the callee and the types of its arguments are among
/// the calls that inference reads.
pub proof fn lemma_top_level_call_counts(
    fs: Seq<SpecFunction>,
    k: int,
    j: int,
    name: Seq<char>,
    arguments: Seq<SpecArgument>,
)
    requires
        0 <= k < fs.len(),
        0 <= j < fs[k].body.len(),
        !is_native(name),
        top_level_call(fs[k].body[j], name, arguments),
    ensures
        has_record(records(fs, fs.len()), (name, arg_types(arguments))),
        is_called(name, records(fs, fs.len())),
{
    let r = (name, arg_types(arguments));
    let cr = call_records(name, arguments);
    assert(cr == nested_records(arguments, arguments.len()) + seq![r]);
    assert(cr[cr.len() - 1] == r);
    assert(instruction_records(fs[k].body[j]) == cr);
    lemma_body_records_has(fs[k].body, fs[k].body.len(), j, r);
    lemma_records_has(fs, fs.len(), k, r);
    let rs = records(fs, fs.len());
    let i = choose|i: int| 0 <= i < rs.len() && rs[i] == r;
    assert(rs[i].0 == name);
}

/// A parameter without a type, that every call of its function passes an
/// argument of type `t`, takes the type `t` once the function is called at
/// the top level of some body, be it by `f(..)`, `x = f(..)` for a new `x`,
/// or `x = f(..)` for an `x` already in scope.
pub proof fn lemma_top_level_call_types_param(
    fs: Seq<SpecFunction>,
    k: int,
    j: int,
    name: Seq<char>,
    arguments: Seq<SpecArgument>,
    ps: Seq<SpecParam>,
    p: int,
    t: Type,
)
    requires
        0 <= k < fs.len(),
        0 <= j < fs[k].body.len(),
        !is_native(name),
        top_level_call(fs[k].body[j], name, arguments),
        0 <= p < ps.len(),
        ps[p].type_ == Type::Undefined,
        forall|i: int|
            0 <= i < records(fs, fs.len()).len() && (#[trigger] records(fs, fs.len())[i]).0 == name
                ==> p < records(fs, fs.len())[i].1.len() && records(fs, fs.len())[i].1[p] == t,
    ensures
        ({
            let rs = records(fs, fs.len());
            apply_calls(ps, name, rs, rs.len())[p].type_ == t
        }),
{
    let rs = records(fs, fs.len());
    lemma_top_level_call_counts(fs, k, j, name, arguments);
    lemma_calls_agree(ps, name, rs, rs.len(), p, t);
    let i = choose|i: int| 0 <= i < rs.len() && (#[trigger] rs[i]).0 == name;
    assert(called_before(name, rs, rs.len()));
}

} // verus!
