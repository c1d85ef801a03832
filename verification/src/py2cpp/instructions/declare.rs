use crate::py2cpp::chance::{Step, drawn, lemma_draws_assoc, lemma_drawn_add, lemma_no_draws, random_suffix};
use crate::py2cpp::constants::{AT, DECLARE, EXPRESSION, FUNCTION, INTEGER, STRING, VARIABLE, VECTOR};
use crate::py2cpp::context::{Context, SpecContext, type_in};
use crate::py2cpp::copy::{copy_params, copy_value};
use crate::py2cpp::instruction::instruction_value;
use crate::py2cpp::instructions::{at, custom_fun, input, int_fun, len};
use crate::py2cpp::instructions::at::at_parse;
use crate::py2cpp::instructions::custom_fun::custom_spec;
use crate::py2cpp::instructions::input::input_parse;
use crate::py2cpp::instructions::int_fun::int_spec;
use crate::py2cpp::instructions::len::len_parse;
use crate::py2cpp::pattern::{captures, group, group_of, is_match, regex_captures, regex_is_match};
use crate::py2cpp::text::{decimal, push_decimal, str_eq};
use crate::py2cpp::ty::type_cpp;
use crate::py2cpp::types::{
    Instruction, Library, Param, Parsed, SpecInstruction, SpecParam, SpecValue, Type, Value,
    instructions_view, lemma_instructions_view, lemma_instructions_view_add,
    lemma_params_view_add, libraries_view, no_instructions, no_libraries,
    outcome_view, params_view, single_instruction, };
use crate::py2cpp::value::{call_cpp, call2cpp, exp_cpp, exp_value, term_cpp};
use crate::py2cpp::wf::value_wf;
use vstd::prelude::*;
use vstd::string::*;

verus! {

/// `T x = v;` for a new variable, `x = v;` for a reassignment, and without
/// ` = v` where there is no value.
pub open spec fn declare_cpp(type_: Type, name: Seq<char>, value: SpecValue, reuse_var: bool) -> Seq<char> {
    let target = if reuse_var {
        type_cpp(type_) + " "@ + name
    } else {
        name
    };
    match value {
        SpecValue::ConstValue(v) => target + " = "@ + v + ";"@,
        SpecValue::UseVar(v) => target + " = "@ + v + ";"@,
        SpecValue::CallFun { name: f, arguments } => target + " = "@ + call_cpp(f, arguments) + ";"@,
        SpecValue::Expression { operators, values } => target + " = "@ + exp_cpp(
            operators,
            values,
            values.len(),
        ) + ";"@,
        SpecValue::Empty => target + ";"@,
    }
}

pub fn code2cpp(type_: &Type, name: &String, value: &Value, reuse_var: bool) -> (r: String)
    requires
        value_wf(value@),
    ensures
        r@ == declare_cpp(*type_, name@, value@, reuse_var),
{
    let mut result = if reuse_var {
        let mut t = type_.type2cpp();
        t.append(" ");
        t.append(name.as_str());
        t
    } else {
        name.clone()
    };
    match value {
        Value::ConstValue(v) | Value::UseVar(v) => {
            result.append(" = ");
            result.append(v.as_str());
            result.append(";");
        },
        Value::CallFun { name: f, arguments } => {
            let text = call2cpp(f, arguments);
            result.append(" = ");
            result.append(text.as_str());
            result.append(";");
        },
        Value::Expression { operators, values } => {
            proof {
                crate::py2cpp::types::lemma_values_view(values@);
            }
            let text = Value::exp2cpp(operators, values);
            result.append(" = ");
            result.append(text.as_str());
            result.append(";");
        },
        Value::Empty => {
            result.append(";");
        },
    }
    result
}


// ---------------------------------------------------------------------------
// Reading an assignment
// ---------------------------------------------------------------------------

/// The right side of an assignment, read: the type and value that the
/// variable takes, the instructions that come with it, the libraries that it
/// needs, and whether the assignment comes before those instructions (as it
/// does for `input`, which reads into the variable after declaring it).
pub ghost struct Rhs {
    pub type_: Type,
    pub value: SpecValue,
    pub extra: Seq<SpecInstruction>,
    pub libraries: Seq<Seq<char>>,
    pub first: bool,
}

pub type RhsStep = (Result<Rhs, Seq<char>>, SpecContext, Seq<nat>);

/// A right side with nothing coming with it.
pub open spec fn plain(type_: Type, value: SpecValue) -> Result<Rhs, Seq<char>> {
    Ok(Rhs { type_, value, extra: Seq::empty(), libraries: Seq::empty(), first: false })
}

/// The right side `text` of the assignment to `name` in the line `content`,
/// tried in this order: an arithmetic expression, a number, a string literal,
/// a variable in scope, an empty list, an element of a vector, a call of
/// `input`, `int`, `len` or a function of the program, and last any other
/// text, kept as it is; an empty right side is refused.
pub open spec fn declare_rhs(ctx: SpecContext, content: Seq<char>, name: Seq<char>, text: Seq<char>, ds: Seq<nat>) -> RhsStep
    decreases 2 * content.len(), 1nat, 0nat,
{
    if regex_is_match(EXPRESSION@, text) {
        (plain(Type::Int, exp_value(ctx, text)), ctx, ds)
    } else if regex_is_match(INTEGER@, text) {
        (plain(Type::Int, SpecValue::ConstValue(text)), ctx, ds)
    } else if regex_is_match(STRING@, text) {
        (plain(Type::String, SpecValue::ConstValue(text)), ctx, ds)
    } else if regex_is_match(VARIABLE@, text) {
        (
            match type_in(ctx, text) {
                Ok(t) => plain(t, SpecValue::UseVar(text)),
                Err(e) => Err(e),
            },
            ctx,
            ds,
        )
    } else if regex_is_match(VECTOR@, text) {
        (
            Ok(
                Rhs {
                    type_: Type::Vector(Box::new(Type::Undefined)),
                    value: SpecValue::Empty,
                    extra: Seq::empty(),
                    libraries: seq!["vector"@],
                    first: false,
                },
            ),
            ctx,
            ds,
        )
    } else if regex_is_match(AT@, text) {
        (
            match at_parse(ctx, text) {
                Ok(Some((is, _))) => plain(Type::Int, instruction_value(is[0])),
                Ok(None) => Err(Seq::empty()),
                Err(e) => Err(e),
            },
            ctx,
            ds,
        )
    } else {
        match regex_captures(FUNCTION@, text) {
            None => (
                if text.len() > 0 {
                    plain(Type::Undefined, SpecValue::ConstValue(text))
                } else {
                    Err("Falta asignar el valor"@)
                },
                ctx,
                ds,
            ),
            Some(fc) => call_rhs(ctx, content, name, text, fc, ds),
        }
    }
}

/// A right side `text` that calls a function, with the groups `fc` of its
/// match: `input` reads into `name`, `int` and `len` give a number, and a
/// function of the program gives its return type. A call of `int` or of a
/// function of the program is read only where `text` is at least two
/// characters shorter than the line, as a right side always is; otherwise
/// it is refused.
pub open spec fn call_rhs(
    ctx: SpecContext,
    content: Seq<char>,
    name: Seq<char>,
    text: Seq<char>,
    fc: Seq<Option<Seq<char>>>,
    ds: Seq<nat>,
) -> RhsStep
    decreases 2 * content.len(), 0nat, 0nat,
{
    let f = group_of(fc, 1);
    let fits = text.len() + 2 <= content.len();
    if f == "input"@ {
        (
            match input_parse(ctx, name, text, false) {
                Ok(Some((is, ls))) => Ok(
                    Rhs { type_: Type::String, value: SpecValue::Empty, extra: is, libraries: ls, first: true },
                ),
                Ok(None) => Err(Seq::empty()),
                Err(e) => Err(e),
            },
            ctx,
            ds,
        )
    } else if f == "int"@ {
        let (res, c1, r1) = if fits {
            int_spec(ctx, text, ds)
        } else {
            (Ok(None), ctx, ds)
        };
        (
            match res {
                Ok(Some((is, ls))) => Ok(
                    Rhs {
                        type_: Type::Int,
                        value: instruction_value(is.last()),
                        extra: is.drop_last(),
                        libraries: ls,
                        first: false,
                    },
                ),
                Ok(None) => Err(Seq::empty()),
                Err(e) => Err(e),
            },
            c1,
            r1,
        )
    } else if f == "len"@ {
        (
            match len_parse(ctx, text) {
                Ok(Some((is, ls))) => Ok(
                    Rhs {
                        type_: Type::Int,
                        value: instruction_value(is[0]),
                        extra: Seq::empty(),
                        libraries: ls,
                        first: false,
                    },
                ),
                Ok(None) => Err(Seq::empty()),
                Err(e) => Err(e),
            },
            ctx,
            ds,
        )
    } else {
        let (res, c1, r1) = if fits {
            custom_spec(ctx, text, ds)
        } else {
            (Ok(None), ctx, ds)
        };
        (
            match res {
                Ok(Some((is, ls))) => match type_in(c1, f) {
                    Ok(t) => Ok(
                        Rhs {
                            type_: t,
                            value: instruction_value(is[0]),
                            extra: Seq::empty(),
                            libraries: ls,
                            first: false,
                        },
                    ),
                    Err(e) => Err(e),
                },
                Ok(None) => Err(Seq::empty()),
                Err(e) => Err(e),
            },
            c1,
            r1,
        )
    }
}

/// The assignment to `name` after the first `n` of the entries `ps` that
/// `name` stood for: each entry of that name decides anew. An entry of the
/// same type makes it a reassignment; one of another type makes it the
/// declaration of a new variable, `name` followed by the next number drawn,
/// and that variable is recorded.
pub open spec fn redeclare_fold(
    ps: Seq<SpecParam>,
    name: Seq<char>,
    type_: Type,
    value: SpecValue,
    n: nat,
    ds: Seq<nat>,
) -> (SpecInstruction, Seq<SpecParam>, Seq<nat>)
    decreases n,
{
    if n == 0 || n > ps.len() {
        (SpecInstruction::CreateVar { type_, name, value }, Seq::empty(), ds)
    } else {
        let (decl, extras, rest) = redeclare_fold(ps, name, type_, value, (n - 1) as nat, ds);
        if ps[n - 1].name != name {
            (decl, extras, rest)
        } else if ps[n - 1].type_ == type_ {
            (SpecInstruction::ReassignVar { type_, name, value }, extras, rest)
        } else {
            let renamed = name + decimal(rest[0]);
            (
                SpecInstruction::CreateVar { type_, name: renamed, value },
                extras.push(SpecParam { type_, name: renamed }),
                rest.drop_first(),
            )
        }
    }
}

/// The instruction that assigns `value` of type `type_` to `name`, and the
/// context after it. A name in scope is decided by its entries, which are
/// then recorded twice, followed by the new variables; a new name is
/// declared and put in scope.
pub open spec fn redeclare(ctx: SpecContext, name: Seq<char>, type_: Type, value: SpecValue, ds: Seq<nat>) -> (
    SpecInstruction,
    SpecContext,
    Seq<nat>,
) {
    if ctx.contains_key(name) {
        let ps = ctx[name];
        let (decl, extras, rest) = redeclare_fold(ps, name, type_, value, ps.len(), ds);
        (decl, ctx.insert(name, ps + ps + extras), rest)
    } else {
        (
            SpecInstruction::CreateVar { type_, name, value },
            ctx.insert(name, seq![SpecParam { type_, name }]),
            ds,
        )
    }
}

/// A line `name = value`: the instructions that come with the value and the
/// assignment, in their order, with the libraries that they need.
pub open spec fn declare_spec(ctx: SpecContext, content: Seq<char>, ds: Seq<nat>) -> Step
    decreases 2 * content.len(), 2nat, 0nat,
{
    match regex_captures(DECLARE@, content) {
        None => (Ok(None), ctx, ds),
        Some(c) => {
            let name = group_of(c, 1);
            let (res, c1, r1) = declare_rhs(ctx, content, name, group_of(c, 2), ds);
            match res {
                Err(e) => (Err(e), c1, r1),
                Ok(rhs) => {
                    let (decl, c2, r2) = redeclare(c1, name, rhs.type_, rhs.value, r1);
                    (
                        Ok(
                            Some(
                                (
                                    if rhs.first {
                                        seq![decl] + rhs.extra
                                    } else {
                                        rhs.extra.push(decl)
                                    },
                                    rhs.libraries,
                                ),
                            ),
                        ),
                        c2,
                        r2,
                    )
                },
            }
        },
    }
}

/// What `py2code` gives on `content` in `ctx`, for some numbers drawn.
pub open spec fn declare_reached(
    ctx: SpecContext,
    content: Seq<char>,
    out: Result<Parsed, Seq<char>>,
    ctx2: SpecContext,
) -> bool {
    exists|d: Seq<nat>| drawn(d) && forall|x: Seq<nat>| #[trigger] declare_spec(ctx, content, d + x) == (out, ctx2, x)
}

pub open spec fn rhs_view(r: Result<(Type, Value, Vec<Instruction>, Vec<Library>, bool), String>) -> Result<Rhs, Seq<char>> {
    match r {
        Ok((t, v, is, ls, first)) => Ok(
            Rhs { type_: t, value: v@, extra: instructions_view(is@), libraries: libraries_view(ls@), first },
        ),
        Err(e) => Err(e@),
    }
}

/// Reads the right side `text` of the assignment to `name` in `content`.
fn read_rhs(context: &mut Context, content: &str, name: &str, text: &str) -> (r: Result<
    (Type, Value, Vec<Instruction>, Vec<Library>, bool),
    String,
>)
    ensures
        exists|d: Seq<nat>|
            drawn(d) && forall|x: Seq<nat>|
                #[trigger] declare_rhs(old(context)@, content@, name@, text@, d + x) == (rhs_view(r), final(context)@, x),
    decreases 2 * content@.len(), 1nat,
{
    let ghost ctx0 = context@;
    proof {
        lemma_no_draws();
    }
    if is_match(EXPRESSION, text) {
        let value = Value::exp2value(context, text);
        return Ok((Type::Int, value, no_instructions(), no_libraries(), false));
    }
    if is_match(INTEGER, text) {
        return Ok((Type::Int, Value::ConstValue(String::from_str(text)), no_instructions(), no_libraries(), false));
    }
    if is_match(STRING, text) {
        return Ok((Type::String, Value::ConstValue(String::from_str(text)), no_instructions(), no_libraries(), false));
    }
    if is_match(VARIABLE, text) {
        return match context.get_type(text) {
            Ok(t) => Ok((t, Value::UseVar(String::from_str(text)), no_instructions(), no_libraries(), false)),
            Err(e) => Err(e),
        };
    }
    if is_match(VECTOR, text) {
        let libraries = Library::get_libraries(&["vector"]);
        proof {
            assert(libraries_view(libraries@) =~= seq!["vector"@]);
        }
        return Ok((Type::Vector(Box::new(Type::Undefined)), Value::Empty, no_instructions(), libraries, false));
    }
    if is_match(AT, text) {
        return match at::py2code(context, text) {
            Ok(Some((is, _))) => {
                proof {
                    lemma_instructions_view(is@);
                }
                Ok((Type::Int, Instruction::instruc2value(&is[0]), no_instructions(), no_libraries(), false))
            },
            Ok(None) => Err(String::new()),
            Err(e) => Err(e),
        };
    }
    match captures(FUNCTION, text) {
        None => {
            if text.unicode_len() > 0 {
                Ok((Type::Undefined, Value::ConstValue(String::from_str(text)), no_instructions(), no_libraries(), false))
            } else {
                Err(String::from_str("Falta asignar el valor"))
            }
        },
        Some(fc) => {
            let r = read_call_rhs(context, content, name, text, &fc);
            let ghost o = rhs_view(r);
            let ghost c1 = context@;
            let ghost d1 = choose|d: Seq<nat>|
                drawn(d) && forall|x: Seq<nat>|
                    #[trigger] call_rhs(ctx0, content@, name@, text@, fc.deep_view(), d + x) == (o, c1, x);
            proof {
                assert forall|x: Seq<nat>| #[trigger] declare_rhs(ctx0, content@, name@, text@, d1 + x) == (o, c1, x) by {
                    assert(call_rhs(ctx0, content@, name@, text@, fc.deep_view(), d1 + x) == (o, c1, x));
                }
            }
            r
        },
    }
}

/// Reads a right side `text` that calls a function, with the groups `fc`
/// of its match.
fn read_call_rhs(context: &mut Context, content: &str, name: &str, text: &str, fc: &Vec<Option<String>>) -> (r: Result<
    (Type, Value, Vec<Instruction>, Vec<Library>, bool),
    String,
>)
    ensures
        exists|d: Seq<nat>|
            drawn(d) && forall|x: Seq<nat>|
                #[trigger] call_rhs(old(context)@, content@, name@, text@, fc.deep_view(), d + x) == (
                    rhs_view(r),
                    final(context)@,
                    x,
                ),
    decreases 2 * content@.len(), 0nat,
{
    let ghost ctx0 = context@;
    proof {
        lemma_no_draws();
    }
    let fun_name = group(&fc, 1);
    let tl = text.unicode_len();
    let cl = content.unicode_len();
    let fits = tl <= cl && cl - tl >= 2;
    if str_eq(fun_name.as_str(), "input") {
        match input::py2code(context, name, text, false) {
            Ok(Some((is, ls))) => Ok((Type::String, Value::Empty, is, ls, true)),
            Ok(None) => Err(String::new()),
            Err(e) => Err(e),
        }
    } else if str_eq(fun_name.as_str(), "int") {
        if !fits {
            return Err(String::new());
        }
        let sub = int_fun::py2code(context, text);
        let ghost o = outcome_view(sub);
        let ghost c1 = context@;
        let ghost d1 = choose|d: Seq<nat>|
            drawn(d) && forall|x: Seq<nat>| #[trigger] int_spec(ctx0, text@, d + x) == (o, c1, x);
        let r = match sub {
            Ok(Some((mut is, ls))) => {
                let ghost before = is@;
                let call = is.pop().unwrap();
                proof {
                    assert(before =~= is@.push(call));
                    crate::py2cpp::types::lemma_instructions_view_push(is@, call);
                    assert(instructions_view(before).drop_last() =~= instructions_view(is@));
                    assert(instructions_view(before).last() == call@);
                }
                let value = Instruction::instruc2value(&call);
                Ok((Type::Int, value, is, ls, false))
            },
            Ok(None) => Err(String::new()),
            Err(e) => Err(e),
        };
        proof {
            assert forall|x: Seq<nat>| #[trigger] call_rhs(ctx0, content@, name@, text@, fc.deep_view(), d1 + x) == (rhs_view(r), c1, x) by {
                assert(int_spec(ctx0, text@, d1 + x) == (o, c1, x));
            }
        }
        r
    } else if str_eq(fun_name.as_str(), "len") {
        match len::py2code(context, text) {
            Ok(Some((is, ls))) => {
                proof {
                    lemma_instructions_view(is@);
                }
                Ok((Type::Int, Instruction::instruc2value(&is[0]), no_instructions(), ls, false))
            },
            Ok(None) => Err(String::new()),
            Err(e) => Err(e),
        }
    } else {
        if !fits {
            return Err(String::new());
        }
        let sub = custom_fun::py2code(context, text);
        let ghost o = outcome_view(sub);
        let ghost c1 = context@;
        let ghost d1 = choose|d: Seq<nat>|
            drawn(d) && forall|x: Seq<nat>| #[trigger] custom_spec(ctx0, text@, d + x) == (o, c1, x);
        let r = match sub {
            Ok(Some((is, ls))) => {
                proof {
                    lemma_instructions_view(is@);
                }
                match context.get_type(fun_name.as_str()) {
                    Ok(t) => Ok((t, Instruction::instruc2value(&is[0]), no_instructions(), ls, false)),
                    Err(e) => Err(e),
                }
            },
            Ok(None) => Err(String::new()),
            Err(e) => Err(e),
        };
        proof {
            assert forall|x: Seq<nat>| #[trigger] call_rhs(ctx0, content@, name@, text@, fc.deep_view(), d1 + x) == (rhs_view(r), c1, x) by {
                assert(custom_spec(ctx0, text@, d1 + x) == (o, c1, x));
            }
        }
        r
    }
}

/// Assigns `value` of type `type_` to `name`, deciding between a new
/// variable, a reassignment and a renamed variable, and records it in
/// `context`.
fn assign(context: &mut Context, name: &String, type_: Type, value: Value) -> (r: Instruction)
    ensures
        exists|d: Seq<nat>|
            drawn(d) && forall|x: Seq<nat>|
                #[trigger] redeclare(old(context)@, name@, type_, value@, d + x) == (r@, final(context)@, x),
{
    let ghost ctx0 = context@;
    proof {
        lemma_no_draws();
    }
    let known = match context.get(name.as_str()) {
        Some(ps) => Some(copy_params(ps)),
        None => None,
    };
    match known {
        None => {
            let mut params: Vec<Param> = Vec::new();
            let param = Param { type_: type_.copy(), name: name.clone() };
            params.push(param);
            proof {
                assert(params_view(params@) =~= seq![param@]);
            }
            context.insert(name.clone(), params);
            Instruction::CreateVar { type_, name: name.clone(), value }
        },
        Some(entries) => {
            let ghost ps = params_view(entries@);
            let mut extras: Vec<Param> = Vec::new();
            let mut declare = Instruction::CreateVar { type_: type_.copy(), name: name.clone(), value: copy_value(&value) };
            let ghost mut d: Seq<nat> = Seq::empty();
            proof {
                assert(params_view(extras@) =~= Seq::<SpecParam>::empty());
            }
            let mut i: usize = 0;
            while i < entries.len()
                invariant
                    i <= entries@.len(),
                    ps == params_view(entries@),
                    drawn(d),
                    forall|x: Seq<nat>|
                        #[trigger] redeclare_fold(ps, name@, type_, value@, i as nat, d + x) == (
                            declare@,
                            params_view(extras@),
                            x,
                        ),
                decreases entries@.len() - i,
            {
                let ghost decl_i = declare@;
                let ghost extras_i = params_view(extras@);
                proof {
                    assert(ps[i as int] == entries@[i as int]@);
                }
                if !str_eq(entries[i].name.as_str(), name.as_str()) {
                    proof {
                        assert forall|x: Seq<nat>|
                            #[trigger] redeclare_fold(ps, name@, type_, value@, (i + 1) as nat, d + x) == (
                                declare@,
                                params_view(extras@),
                                x,
                            ) by {
                            assert(redeclare_fold(ps, name@, type_, value@, i as nat, d + x) == (decl_i, extras_i, x));
                        }
                    }
                } else {
                    if type_.same(&entries[i].type_) {
                        declare = Instruction::ReassignVar { type_: type_.copy(), name: name.clone(), value: copy_value(&value) };
                        proof {
                            assert forall|x: Seq<nat>|
                                #[trigger] redeclare_fold(ps, name@, type_, value@, (i + 1) as nat, d + x) == (
                                    declare@,
                                    params_view(extras@),
                                    x,
                                ) by {
                                assert(redeclare_fold(ps, name@, type_, value@, i as nat, d + x) == (decl_i, extras_i, x));
                            }
                        }
                    } else {
                        let n = random_suffix();
                        let mut renamed = name.clone();
                        push_decimal(&mut renamed, n);
                        let param = Param { type_: type_.copy(), name: renamed.clone() };
                        proof {
                            assert(params_view(extras@.push(param)) =~= params_view(extras@).push(param@));
                        }
                        extras.push(param);
                        declare = Instruction::CreateVar { type_: type_.copy(), name: renamed, value: copy_value(&value) };
                        proof {
                            let dn = seq![n as nat];
                            assert forall|x: Seq<nat>|
                                #[trigger] redeclare_fold(ps, name@, type_, value@, (i + 1) as nat, d.push(n as nat) + x) == (
                                    declare@,
                                    params_view(extras@),
                                    x,
                                ) by {
                                assert(d.push(n as nat) + x =~= d + (dn + x));
                                assert(redeclare_fold(ps, name@, type_, value@, i as nat, d + (dn + x)) == (
                                    decl_i,
                                    extras_i,
                                    dn + x,
                                ));
                                assert((dn + x)[0] == n as nat);
                                assert((dn + x).drop_first() =~= x);
                            }
                            assert(drawn(d.push(n as nat)));
                            d = d.push(n as nat);
                        }
                    }
                }
                i = i + 1;
            }
            let mut all = copy_params(&entries);
            let mut again = copy_params(&entries);
            let ghost ex = params_view(extras@);
            proof {
                lemma_params_view_add(all@, again@);
                lemma_params_view_add(all@ + again@, extras@);
            }
            all.append(&mut again);
            all.append(&mut extras);
            context.insert(name.clone(), all);
            proof {
                assert forall|x: Seq<nat>| #[trigger] redeclare(ctx0, name@, type_, value@, d + x) == (declare@, context@, x) by {
                    assert(redeclare_fold(ps, name@, type_, value@, ps.len(), d + x) == (declare@, ex, x));
                }
            }
            declare
        },
    }
}

/// Reads a line `name = value`.
pub fn py2code(context: &mut Context, content: &str) -> (r: Result<Option<(Vec<Instruction>, Vec<Library>)>, String>)
    ensures
        declare_reached(old(context)@, content@, outcome_view(r), final(context)@),
        r matches Ok(Some((is, _))) ==> is@.len() > 0,
    decreases 2 * content@.len(), 2nat,
{
    let ghost ctx0 = context@;
    proof {
        lemma_no_draws();
    }
    match captures(DECLARE, content) {
        None => Ok(None),
        Some(data) => {
            let name = group(&data, 1);
            let text = group(&data, 2);
            let read = read_rhs(context, content, name.as_str(), text.as_str());
            let ghost o1 = rhs_view(read);
            let ghost c1 = context@;
            let ghost d1 = choose|d: Seq<nat>|
                drawn(d) && forall|x: Seq<nat>| #[trigger] declare_rhs(ctx0, content@, name@, text@, d + x) == (o1, c1, x);
            match read {
                Err(e) => {
                    let r: Result<Option<(Vec<Instruction>, Vec<Library>)>, String> = Err(e);
                    proof {
                        assert forall|x: Seq<nat>| #[trigger] declare_spec(ctx0, content@, d1 + x) == (outcome_view(r), c1, x) by {
                            assert(declare_rhs(ctx0, content@, name@, text@, d1 + x) == (o1, c1, x));
                        }
                    }
                    r
                },
                Ok((type_, value, mut extra, libraries, first)) => {
                    let ghost tv = type_;
                    let ghost vv = value@;
                    let ghost ev = instructions_view(extra@);
                    let declare = assign(context, &name, type_, value);
                    let ghost c2 = context@;
                    let ghost dv = declare@;
                    let ghost d2 = choose|d: Seq<nat>|
                        drawn(d) && forall|x: Seq<nat>| #[trigger] redeclare(c1, name@, tv, vv, d + x) == (dv, c2, x);
                    let instructions = if first {
                        let mut v = single_instruction(declare);
                        proof {
                            lemma_instructions_view_add(v@, extra@);
                        }
                        v.append(&mut extra);
                        v
                    } else {
                        proof {
                            crate::py2cpp::types::lemma_instructions_view_push(extra@, declare);
                        }
                        extra.push(declare);
                        extra
                    };
                    let r: Result<Option<(Vec<Instruction>, Vec<Library>)>, String> = Ok(Some((instructions, libraries)));
                    proof {
                        lemma_drawn_add(d1, d2);
                        assert forall|x: Seq<nat>| #[trigger] declare_spec(ctx0, content@, (d1 + d2) + x) == (outcome_view(r), c2, x) by {
                            lemma_draws_assoc(d1, d2, x);
                            assert(declare_rhs(ctx0, content@, name@, text@, d1 + (d2 + x)) == (o1, c1, d2 + x));
                            assert(redeclare(c1, name@, tv, vv, d2 + x) == (dv, c2, x));
                        }
                    }
                    r
                },
            }
        },
    }
}


/// Assigning again a name that an assignment put in scope: with a value of
/// the same type it is a reassignment of that name; with a value of another
/// type it declares a new variable, the name followed by a number below 100.
pub proof fn lemma_assign_twice(
    ctx: SpecContext,
    name: Seq<char>,
    t1: Type,
    v1: SpecValue,
    ds1: Seq<nat>,
    t2: Type,
    v2: SpecValue,
    ds2: Seq<nat>,
)
    requires
        !ctx.contains_key(name),
        drawn(ds2),
        ds2.len() > 0,
    ensures
        t2 == t1 ==> (redeclare(redeclare(ctx, name, t1, v1, ds1).1, name, t2, v2, ds2).0
            == (SpecInstruction::ReassignVar { type_: t2, name, value: v2 })),
        t2 != t1 ==> (exists|k: nat|
            k < 100 && redeclare(redeclare(ctx, name, t1, v1, ds1).1, name, t2, v2, ds2).0
                == (SpecInstruction::CreateVar { type_: t2, name: name + decimal(k), value: v2 })),
{
    let c1 = redeclare(ctx, name, t1, v1, ds1).1;
    let ps = seq![SpecParam { type_: t1, name }];
    assert(c1[name] == ps);
    assert(redeclare_fold(ps, name, t2, v2, 0, ds2) == (
        SpecInstruction::CreateVar { type_: t2, name, value: v2 },
        Seq::<SpecParam>::empty(),
        ds2,
    ));
    if t2 != t1 {
        assert(ds2[0] < 100);
        assert(redeclare(c1, name, t2, v2, ds2).0 == SpecInstruction::CreateVar {
            type_: t2,
            name: name + decimal(ds2[0]),
            value: v2,
        });
    }
}

/// A declaration is the reassignment of the same name and value with the
/// C++ type and a space before it.
pub proof fn lemma_declaration_is_typed_reassignment(type_: Type, name: Seq<char>, value: SpecValue)
    ensures
        declare_cpp(type_, name, value, true) == type_cpp(type_) + " "@ + declare_cpp(type_, name, value, false),
{
    let t = type_cpp(type_) + " "@ + name;
    match value {
        SpecValue::ConstValue(v) => assert(t + " = "@ + v + ";"@ =~= type_cpp(type_) + " "@ + (name + " = "@ + v + ";"@)),
        SpecValue::UseVar(v) => assert(t + " = "@ + v + ";"@ =~= type_cpp(type_) + " "@ + (name + " = "@ + v + ";"@)),
        SpecValue::CallFun { name: f, arguments } => assert(t + " = "@ + call_cpp(f, arguments) + ";"@
            =~= type_cpp(type_) + " "@ + (name + " = "@ + call_cpp(f, arguments) + ";"@)),
        SpecValue::Expression { operators, values } => {
            let e = exp_cpp(operators, values, values.len());
            assert(t + " = "@ + e + ";"@ =~= type_cpp(type_) + " "@ + (name + " = "@ + e + ";"@));
        },
        SpecValue::Empty => assert(t + ";"@ =~= type_cpp(type_) + " "@ + (name + ";"@)),
    }
}

/// Assigning a variable `y` (or a constant `y`) to `x` is written `x = y;`.
pub proof fn lemma_assign_variable(type_: Type, name: Seq<char>, y: Seq<char>)
    ensures
        declare_cpp(type_, name, SpecValue::UseVar(y), false) == name + " = "@ + y + ";"@,
        declare_cpp(type_, name, SpecValue::ConstValue(y), false) == name + " = "@ + y + ";"@,
{
}

/// A value assigned alone (a number, a variable or a call) is written as the
/// expression made of that one term: every assignment of a value is the
/// target, ` = `, the text of the value and `;`.
pub proof fn lemma_assign_as_expression(type_: Type, name: Seq<char>, value: SpecValue, reuse_var: bool)
    requires
        value is ConstValue || value is UseVar || value is CallFun,
    ensures
        declare_cpp(type_, name, value, reuse_var) == declare_cpp(
            type_,
            name,
            SpecValue::Expression { operators: Seq::empty(), values: seq![value] },
            reuse_var,
        ),
{
    assert(exp_cpp(Seq::empty(), seq![value], 1) == term_cpp(value));
}

/// Only an assignment without a value lacks ` = `: with any other value the
/// line starts with the target and ` = `, and ends with `;`.
pub proof fn lemma_assign_has_value(type_: Type, name: Seq<char>, value: SpecValue)
    requires
        !(value is Empty),
    ensures
        (name + " = "@).is_prefix_of(declare_cpp(type_, name, value, false)),
        declare_cpp(type_, name, value, false).last() == ';',
{
    reveal_strlit(";");
    let d = declare_cpp(type_, name, value, false);
    let text = match value {
        SpecValue::ConstValue(v) => v,
        SpecValue::UseVar(v) => v,
        SpecValue::CallFun { name: f, arguments } => call_cpp(f, arguments),
        SpecValue::Expression { operators, values } => exp_cpp(operators, values, values.len()),
        SpecValue::Empty => Seq::empty(),
    };
    assert(d =~= (name + " = "@) + (text + ";"@));
    assert((name + " = "@) =~= d.subrange(0, (name + " = "@).len() as int));
}

} // verus!
