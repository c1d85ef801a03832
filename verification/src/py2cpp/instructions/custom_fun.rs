use crate::py2cpp::chance::{Step, drawn, lemma_draws_assoc, lemma_drawn_add, lemma_no_draws};
use crate::py2cpp::constants::{ARGUMENTS, FUNCTION, INTEGER, STRING, VARIABLE, is_native, native};
use crate::py2cpp::context::{Context, SpecContext, type_in};
use crate::py2cpp::instruction::instruction_value;
use crate::py2cpp::instructions::{int_fun, len};
use crate::py2cpp::instructions::int_fun::{int_cpp, int_spec};
use crate::py2cpp::instructions::len::{len_cpp, len_parse};
use crate::py2cpp::pattern::{captures, captures_all, group, group_of, is_match, regex_captures, regex_captures_all, regex_is_match};
use crate::py2cpp::text::str_eq;
use crate::py2cpp::types::{
    Argument, Instruction, Library, Parsed, SpecArgument, SpecInstruction, SpecValue, Type, Value,
    argument_view, arguments_view, lemma_arguments_view, lemma_arguments_view_push,
    lemma_instructions_view, lemma_libraries_view_add, libraries_view, no_libraries, outcome_view,
    single_instruction,
};
use crate::py2cpp::wf::{value_wf, arguments_wf};
use vstd::prelude::*;
use vstd::string::*;

verus! {

/// `f(a, b, ...)`, with `;` at its end as a statement, for a call of a
/// function of the program; empty for the functions that the transpiler
/// handles itself.
pub open spec fn custom_cpp(name: Seq<char>, args: Seq<SpecArgument>, semicolon: bool) -> Seq<char>
    decreases args, args.len() + 1,
{
    if is_native(name) {
        Seq::empty()
    } else {
        name + "("@ + custom_args(args, args.len()) + if semicolon {
            ");"@
        } else {
            ")"@
        }
    }
}

/// The first `n` arguments, each followed by `, ` unless it is the last.
pub open spec fn custom_args(args: Seq<SpecArgument>, n: nat) -> Seq<char>
    decreases args, n,
{
    if n == 0 || n > args.len() {
        Seq::empty()
    } else {
        custom_args(args, (n - 1) as nat) + match args[n - 1].value {
            SpecValue::ConstValue(v) => v,
            SpecValue::UseVar(v) => v,
            SpecValue::CallFun { name: f, arguments: fa } => if f == "int"@ {
                int_cpp(fa[0])
            } else if f == "len"@ {
                len_cpp(fa[0])
            } else {
                custom_cpp(f, fa, false)
            },
            _ => Seq::empty(),
        } + if n < args.len() {
            ", "@
        } else {
            Seq::empty()
        }
    }
}

pub fn code2cpp(name: &String, arguments: &Vec<Argument>, semicolon: bool) -> (r: String)
    requires
        arguments_wf(arguments_view(arguments@)),
    ensures
        r@ == custom_cpp(name@, arguments_view(arguments@), semicolon),
    decreases arguments,
{
    if native(name.as_str()) {
        return String::new();
    }
    let ghost args = arguments_view(arguments@);
    proof {
        lemma_arguments_view(arguments@);
    }
    let mut result = name.clone();
    result.append("(");
    let ghost prefix = result@;
    let n = arguments.len();
    let mut index: usize = 0;
    while index < n
        invariant
            n == arguments@.len(),
            args == arguments_view(arguments@),
            args.len() == n,
            forall|i: int| 0 <= i < n ==> #[trigger] args[i] == argument_view(arguments@[i]),
            arguments_wf(args),
            index <= n,
            result@ == prefix + custom_args(args, index as nat),
        decreases n - index,
    {
        let argument = &arguments[index];
        proof {
            assert(args[index as int] == argument@);
            assert(value_wf(args[index as int].value));
        }
        match &argument.value {
            Value::ConstValue(value) | Value::UseVar(value) => {
                result.append(value.as_str());
            },
            Value::CallFun { name: fun_name, arguments: fun_args } => {
                proof {
                    lemma_arguments_view(fun_args@);
                }
                if str_eq(fun_name.as_str(), "int") {
                    let text = int_fun::code2cpp(&fun_args[0]);
                    result.append(text.as_str());
                } else if str_eq(fun_name.as_str(), "len") {
                    let text = len::code2cpp(&fun_args[0]);
                    result.append(text.as_str());
                } else {
                    proof {
                        assert(decreases_to!(arguments => arguments@[index as int]));
                        assert(decreases_to!(arguments@[index as int] => argument.value));
                        assert(arguments_wf(arguments_view(fun_args@)));
                    }
                    let text = code2cpp(fun_name, fun_args, false);
                    result.append(text.as_str());
                }
            },
            _ => {},
        }
        if index < n - 1 {
            result.append(", ");
        }
        index = index + 1;
    }
    if semicolon {
        result.append(");");
    } else {
        result.append(")");
    }
    result
}


// ---------------------------------------------------------------------------
// Reading a call of a function of the program
// ---------------------------------------------------------------------------

/// One argument read, with the libraries that it needs.
pub type ArgStep = (Result<(SpecArgument, Seq<Seq<char>>), Seq<char>>, SpecContext, Seq<nat>);

/// The arguments read so far, with the libraries that they need.
pub type ArgsStep = (Result<(Seq<SpecArgument>, Seq<Seq<char>>), Seq<char>>, SpecContext, Seq<nat>);

/// The argument that a nested call gives: the value of the call's first
/// instruction, of type `t`; refused (with an empty message) where the call
/// was not read.
pub open spec fn call_arg_out(t: Type, o: Result<Parsed, Seq<char>>) -> Result<(SpecArgument, Seq<Seq<char>>), Seq<char>> {
    match o {
        Err(e) => Err(e),
        Ok(None) => Err(Seq::empty()),
        Ok(Some((is, ls))) => Ok((SpecArgument { type_: t, value: instruction_value(is[0]) }, ls)),
    }
}

pub open spec fn call_argument(t: Type, s: Step) -> ArgStep {
    (call_arg_out(t, s.0), s.1, s.2)
}

/// One argument of a call in `content`: a number, a string literal, a
/// variable (by the name it stands for now), a nested call of `int`, `len` or
/// a function of the program, or nothing that the transpiler reads. A nested
/// call is read only where its text is at least two characters shorter than
/// the line, as an argument always is; otherwise it is refused.
pub open spec fn custom_arg(ctx: SpecContext, content: Seq<char>, text: Seq<char>, ds: Seq<nat>) -> ArgStep
    decreases 2 * content.len() + 1, 0nat, 0nat,
{
    if regex_is_match(INTEGER@, text) {
        (Ok((SpecArgument { type_: Type::Int, value: SpecValue::ConstValue(text) }, Seq::empty())), ctx, ds)
    } else if regex_is_match(STRING@, text) {
        (Ok((SpecArgument { type_: Type::String, value: SpecValue::ConstValue(text) }, Seq::empty())), ctx, ds)
    } else if regex_is_match(VARIABLE@, text) {
        match type_in(ctx, text) {
            Ok(t) => (
                Ok((SpecArgument { type_: t, value: SpecValue::UseVar(ctx[text].last().name) }, Seq::empty())),
                ctx,
                ds,
            ),
            Err(e) => (Err(e), ctx, ds),
        }
    } else {
        match regex_captures(FUNCTION@, text) {
            None => (Ok((SpecArgument { type_: Type::Undefined, value: SpecValue::Empty }, Seq::empty())), ctx, ds),
            Some(fc) => {
                let f = group_of(fc, 1);
                let fits = text.len() + 2 <= content.len();
                if f == "int"@ {
                    call_argument(Type::Int, if fits { int_spec(ctx, text, ds) } else { (Ok(None), ctx, ds) })
                } else if f == "len"@ {
                    call_argument(Type::Int, (len_parse(ctx, group_of(fc, 0)), ctx, ds))
                } else {
                    match type_in(ctx, f) {
                        Err(e) => (Err(e), ctx, ds),
                        Ok(t) => call_argument(t, if fits { custom_spec(ctx, text, ds) } else { (Ok(None), ctx, ds) }),
                    }
                }
            },
        }
    }
}

/// The first `n` arguments of a call in `content`, read one after the
/// other; the first refusal ends the reading.
pub open spec fn custom_fold(
    ctx: SpecContext,
    content: Seq<char>,
    caps: Seq<Seq<Option<Seq<char>>>>,
    n: nat,
    ds: Seq<nat>,
) -> ArgsStep
    decreases 2 * content.len() + 1, 1nat, n,
{
    if n == 0 || n > caps.len() {
        (Ok((Seq::empty(), Seq::empty())), ctx, ds)
    } else {
        let (prev, c1, r1) = custom_fold(ctx, content, caps, (n - 1) as nat, ds);
        match prev {
            Err(e) => (Err(e), c1, r1),
            Ok((args, ls)) => {
                let (a, c2, r2) = custom_arg(c1, content, group_of(caps[n - 1], 1), r1);
                match a {
                    Err(e) => (Err(e), c2, r2),
                    Ok((arg, ls2)) => (Ok((args.push(arg), ls + ls2)), c2, r2),
                }
            },
        }
    }
}

/// A line `f(a, b, ...)` that calls a function of the program: a call of `f`
/// with its arguments read in order. Not a call of this kind for the
/// functions that the transpiler handles itself.
pub open spec fn custom_spec(ctx: SpecContext, content: Seq<char>, ds: Seq<nat>) -> Step
    decreases 2 * content.len() + 1, 2nat, 0nat,
{
    match regex_captures(FUNCTION@, content) {
        None => (Ok(None), ctx, ds),
        Some(c) => {
            let f = group_of(c, 1);
            if is_native(f) {
                (Ok(None), ctx, ds)
            } else {
                let caps = regex_captures_all(ARGUMENTS@, group_of(c, 2));
                let (res, c1, r1) = custom_fold(ctx, content, caps, caps.len(), ds);
                match res {
                    Err(e) => (Err(e), c1, r1),
                    Ok((args, ls)) => (
                        Ok(Some((seq![SpecInstruction::CallFun { name: f, arguments: args }], ls))),
                        c1,
                        r1,
                    ),
                }
            }
        }
    }
}

/// What `py2code` gives on `content` in `ctx`, for some numbers drawn.
pub open spec fn custom_reached(
    ctx: SpecContext,
    content: Seq<char>,
    out: Result<Parsed, Seq<char>>,
    ctx2: SpecContext,
) -> bool {
    exists|d: Seq<nat>| drawn(d) && forall|x: Seq<nat>| #[trigger] custom_spec(ctx, content, d + x) == (out, ctx2, x)
}

proof fn lemma_custom_fold_stays(
    ctx: SpecContext,
    content: Seq<char>,
    caps: Seq<Seq<Option<Seq<char>>>>,
    n: nat,
    m: nat,
    ds: Seq<nat>,
)
    requires
        n <= m <= caps.len(),
        custom_fold(ctx, content, caps, n, ds).0 is Err,
    ensures
        custom_fold(ctx, content, caps, m, ds) == custom_fold(ctx, content, caps, n, ds),
    decreases m - n,
{
    if m > n {
        lemma_custom_fold_stays(ctx, content, caps, n, (m - 1) as nat, ds);
    }
}

pub open spec fn arg_view(r: Result<(Argument, Vec<Library>), String>) -> Result<(SpecArgument, Seq<Seq<char>>), Seq<char>> {
    match r {
        Ok((a, ls)) => Ok((a@, libraries_view(ls@))),
        Err(e) => Err(e@),
    }
}

/// The argument that the first instruction of a nested call gives.
fn argument_of(t: Type, sub: Result<Option<(Vec<Instruction>, Vec<Library>)>, String>) -> (r: Result<(Argument, Vec<Library>), String>)
    requires
        sub matches Ok(Some((is, _))) ==> is@.len() > 0,
    ensures
        arg_view(r) == call_arg_out(t, outcome_view(sub)),
{
    match sub {
        Err(e) => Err(e),
        Ok(None) => Err(String::new()),
        Ok(Some((is, ls))) => {
            proof {
                lemma_instructions_view(is@);
            }
            let value = Instruction::instruc2value(&is[0]);
            Ok((Argument { type_: t, value }, ls))
        },
    }
}

/// Reads one argument of a call in `content`.
fn read_argument(context: &mut Context, content: &str, text: String) -> (r: Result<(Argument, Vec<Library>), String>)
    ensures
        exists|d: Seq<nat>|
            drawn(d) && forall|x: Seq<nat>|
                #[trigger] custom_arg(old(context)@, content@, text@, d + x) == (arg_view(r), final(context)@, x),
    decreases 2 * content@.len() + 1, 0nat,
{
    let ghost ctx0 = context@;
    let ghost t = text@;
    proof {
        lemma_no_draws();
    }
    if is_match(INTEGER, text.as_str()) {
        return Ok((Argument { type_: Type::Int, value: Value::ConstValue(text) }, no_libraries()));
    }
    if is_match(STRING, text.as_str()) {
        return Ok((Argument { type_: Type::String, value: Value::ConstValue(text) }, no_libraries()));
    }
    if is_match(VARIABLE, text.as_str()) {
        match context.get_type(text.as_str()) {
            Err(e) => {
                return Err(e);
            },
            Ok(type_) => {
                let name = match context.get(text.as_str()) {
                    Some(ps) => ps[ps.len() - 1].name.clone(),
                    None => String::new(),
                };
                return Ok((Argument { type_, value: Value::UseVar(name) }, no_libraries()));
            },
        }
    }
    match captures(FUNCTION, text.as_str()) {
        None => Ok((Argument { type_: Type::Undefined, value: Value::Empty }, no_libraries())),
        Some(fc) => {
            let fun = group(&fc, 0);
            let fun_name = group(&fc, 1);
            let tl = text.as_str().unicode_len();
            let cl = content.unicode_len();
            let fits = tl <= cl && cl - tl >= 2;
            if str_eq(fun_name.as_str(), "int") {
                if !fits {
                    return Err(String::new());
                }
                let sub = int_fun::py2code(context, text.as_str());
                let ghost o = outcome_view(sub);
                let ghost c1 = context@;
                let ghost d1 = choose|d: Seq<nat>|
                    drawn(d) && forall|x: Seq<nat>| #[trigger] int_spec(ctx0, t, d + x) == (o, c1, x);
                let r = argument_of(Type::Int, sub);
                proof {
                    assert forall|x: Seq<nat>| #[trigger] custom_arg(ctx0, content@, t, d1 + x) == (arg_view(r), c1, x) by {
                        assert(int_spec(ctx0, t, d1 + x) == (o, c1, x));
                    }
                }
                r
            } else if str_eq(fun_name.as_str(), "len") {
                let sub = len::py2code(context, fun.as_str());
                proof {
                    match &sub {
                        Ok(Some((is, _))) => {
                            lemma_instructions_view(is@);
                        },
                        _ => {},
                    }
                }
                argument_of(Type::Int, sub)
            } else {
                match context.get_type(fun_name.as_str()) {
                    Err(e) => Err(e),
                    Ok(type_) => {
                        if !fits {
                            return Err(String::new());
                        }
                        let ghost ty = type_;
                        let sub = py2code(context, text.as_str());
                        let ghost o = outcome_view(sub);
                        let ghost c1 = context@;
                        let ghost d1 = choose|d: Seq<nat>|
                            drawn(d) && forall|x: Seq<nat>| #[trigger] custom_spec(ctx0, t, d + x) == (o, c1, x);
                        let r = argument_of(type_, sub);
                        proof {
                            assert forall|x: Seq<nat>| #[trigger] custom_arg(ctx0, content@, t, d1 + x) == (arg_view(r), c1, x) by {
                                assert(custom_spec(ctx0, t, d1 + x) == (o, c1, x));
                            }
                        }
                        r
                    },
                }
            }
        },
    }
}

pub open spec fn args_view(r: Result<(Vec<Argument>, Vec<Library>), String>) -> Result<
    (Seq<SpecArgument>, Seq<Seq<char>>),
    Seq<char>,
> {
    match r {
        Ok((args, ls)) => Ok((arguments_view(args@), libraries_view(ls@))),
        Err(e) => Err(e@),
    }
}

/// Reads, one after the other, the arguments matched in `caps` of a call in
/// `content`.
#[verifier::loop_isolation(false)]
fn read_arguments(context: &mut Context, content: &str, caps: &Vec<Vec<Option<String>>>) -> (r: Result<
    (Vec<Argument>, Vec<Library>),
    String,
>)
    ensures
        exists|d: Seq<nat>|
            drawn(d) && forall|x: Seq<nat>|
                #[trigger] custom_fold(old(context)@, content@, caps.deep_view(), caps@.len() as nat, d + x) == (
                    args_view(r),
                    final(context)@,
                    x,
                ),
    decreases 2 * content@.len() + 1, 1nat,
{
    let ghost ctx0 = context@;
    let ghost cs = caps.deep_view();
    proof {
        lemma_no_draws();
    }
    let ghost mut d: Seq<nat> = Seq::empty();
    let mut arguments: Vec<Argument> = Vec::new();
    let mut libraries: Vec<Library> = no_libraries();
    proof {
        assert(arguments_view(arguments@) =~= Seq::<SpecArgument>::empty());
    }
    let mut k: usize = 0;
    while k < caps.len()
        invariant
            cs == caps.deep_view(),
            cs.len() == caps@.len(),
            k <= cs.len(),
            drawn(d),
            forall|x: Seq<nat>|
                #[trigger] custom_fold(ctx0, content@, cs, k as nat, d + x) == (
                    Ok::<(Seq<SpecArgument>, Seq<Seq<char>>), Seq<char>>(
                        (arguments_view(arguments@), libraries_view(libraries@)),
                    ),
                    context@,
                    x,
                ),
        decreases cs.len() - k,
    {
        let text = group(&caps[k], 1);
        proof {
            assert(cs[k as int] == caps@[k as int].deep_view());
        }
        let ghost ctx_k = context@;
        let ghost args_k = arguments_view(arguments@);
        let ghost libs_k = libraries_view(libraries@);
        let ghost t = text@;
        let step = read_argument(context, content, text);
        let ghost o = arg_view(step);
        let ghost c1 = context@;
        let ghost d1 = choose|d1: Seq<nat>|
            drawn(d1) && forall|x: Seq<nat>| #[trigger] custom_arg(ctx_k, content@, t, d1 + x) == (o, c1, x);
        proof {
            lemma_drawn_add(d, d1);
            assert forall|x: Seq<nat>|
                #[trigger] custom_fold(ctx0, content@, cs, (k + 1) as nat, (d + d1) + x) == (
                    match o {
                        Err(e) => Err(e),
                        Ok((a, ls)) => Ok((args_k.push(a), libs_k + ls)),
                    },
                    c1,
                    x,
                ) by {
                lemma_draws_assoc(d, d1, x);
                assert(custom_fold(ctx0, content@, cs, k as nat, d + (d1 + x)) == (
                    Ok::<(Seq<SpecArgument>, Seq<Seq<char>>), Seq<char>>((args_k, libs_k)),
                    ctx_k,
                    d1 + x,
                ));
                assert(custom_arg(ctx_k, content@, t, d1 + x) == (o, c1, x));
            }
        }
        match step {
            Err(e) => {
                let r: Result<(Vec<Argument>, Vec<Library>), String> = Err(e);
                proof {
                    assert forall|x: Seq<nat>|
                        #[trigger] custom_fold(ctx0, content@, caps.deep_view(), caps@.len() as nat, (d + d1) + x) == (
                            args_view(r),
                            c1,
                            x,
                        ) by {
                        lemma_custom_fold_stays(ctx0, content@, cs, (k + 1) as nat, cs.len(), (d + d1) + x);
                    }
                    assert(drawn(d + d1));
                }
                return r;
            },
            Ok((argument, mut libs)) => {
                proof {
                    lemma_arguments_view_push(arguments@, argument);
                    lemma_libraries_view_add(libraries@, libs@);
                }
                arguments.push(argument);
                libraries.append(&mut libs);
                proof {
                    d = d + d1;
                }
            },
        }
        k = k + 1;
    }
    Ok((arguments, libraries))
}

/// Reads a line that calls a function of the program.
pub fn py2code(context: &mut Context, content: &str) -> (r: Result<Option<(Vec<Instruction>, Vec<Library>)>, String>)
    ensures
        custom_reached(old(context)@, content@, outcome_view(r), final(context)@),
        r matches Ok(Some((is, _))) ==> is@.len() > 0,
    decreases 2 * content@.len() + 1, 2nat,
{
    let ghost ctx0 = context@;
    proof {
        lemma_no_draws();
    }
    match captures(FUNCTION, content) {
        None => Ok(None),
        Some(data) => {
            let fun = group(&data, 1);
            if native(fun.as_str()) {
                return Ok(None);
            }
            let args_text = group(&data, 2);
            let caps = captures_all(ARGUMENTS, args_text.as_str());
            let ghost cs = regex_captures_all(ARGUMENTS@, args_text@);
            let read = read_arguments(context, content, &caps);
            let ghost o = args_view(read);
            let ghost c1 = context@;
            let ghost d = choose|d: Seq<nat>|
                drawn(d) && forall|x: Seq<nat>| #[trigger] custom_fold(ctx0, content@, cs, cs.len(), d + x) == (o, c1, x);
            let r: Result<Option<(Vec<Instruction>, Vec<Library>)>, String> = match read {
                Err(e) => Err(e),
                Ok((arguments, libraries)) => {
                    let instruction = Instruction::CallFun { name: fun, arguments };
                    let instructions = single_instruction(instruction);
                    Ok(Some((instructions, libraries)))
                },
            };
            proof {
                assert forall|x: Seq<nat>| #[trigger] custom_spec(ctx0, content@, d + x) == (outcome_view(r), c1, x) by {
                    assert(custom_fold(ctx0, content@, cs, cs.len(), d + x) == (o, c1, x));
                }
            }
            r
        },
    }
}

/// A text without `;`.
pub open spec fn no_semi(s: Seq<char>) -> bool {
    forall|i: int| 0 <= i < s.len() ==> s[i] != ';'
}

/// No name or word among the first `n` arguments, nested calls included,
/// holds a `;`; `int` and `len` are given an argument.
pub open spec fn plain_args(args: Seq<SpecArgument>, n: nat) -> bool
    decreases args, n,
{
    if n == 0 || n > args.len() {
        true
    } else {
        plain_args(args, (n - 1) as nat) && match args[n - 1].value {
            SpecValue::ConstValue(v) => no_semi(v),
            SpecValue::UseVar(v) => no_semi(v),
            SpecValue::CallFun { name: f, arguments: fa } => no_semi(f) && ((f == "int"@ || f == "len"@)
                ==> fa.len() >= 1) && plain_args(fa, fa.len()),
            _ => true,
        }
    }
}

proof fn lemma_no_semi_add(a: Seq<char>, b: Seq<char>)
    requires
        no_semi(a),
        no_semi(b),
    ensures
        no_semi(a + b),
{
    assert forall|i: int| 0 <= i < (a + b).len() implies (a + b)[i] != ';' by {
        if i < a.len() {
            assert((a + b)[i] == a[i]);
        } else {
            assert((a + b)[i] == b[i - a.len()]);
        }
    }
}

proof fn lemma_plain_args_prefix(args: Seq<SpecArgument>, m: nat, n: nat)
    requires
        m <= n <= args.len(),
        plain_args(args, n),
    ensures
        plain_args(args, m),
    decreases n,
{
    if m < n {
        lemma_plain_args_prefix(args, m, (n - 1) as nat);
    }
}

proof fn lemma_args_no_semi(args: Seq<SpecArgument>, n: nat)
    requires
        plain_args(args, n),
    ensures
        no_semi(custom_args(args, n)),
    decreases args, n,
{
    if n == 0 || n > args.len() {
    } else {
        reveal_strlit(", ");
        reveal_strlit("stoi(");
        reveal_strlit(")");
        reveal_strlit(".size()");
        lemma_args_no_semi(args, (n - 1) as nat);
        let item = match args[n - 1].value {
            SpecValue::ConstValue(v) => v,
            SpecValue::UseVar(v) => v,
            SpecValue::CallFun { name: f, arguments: fa } => if f == "int"@ {
                int_cpp(fa[0])
            } else if f == "len"@ {
                len_cpp(fa[0])
            } else {
                custom_cpp(f, fa, false)
            },
            _ => Seq::empty(),
        };
        match args[n - 1].value {
            SpecValue::CallFun { name: f, arguments: fa } => {
                assert(plain_args(fa, fa.len()));
                if f == "int"@ || f == "len"@ {
                    lemma_plain_args_prefix(fa, 1, fa.len());
                    match fa[0].value {
                        SpecValue::ConstValue(v) => {
                            lemma_no_semi_add("stoi("@, v);
                            lemma_no_semi_add("stoi("@ + v, ")"@);
                            lemma_no_semi_add(v, ".size()"@);
                        },
                        SpecValue::UseVar(v) => {
                            lemma_no_semi_add("stoi("@, v);
                            lemma_no_semi_add("stoi("@ + v, ")"@);
                            lemma_no_semi_add(v, ".size()"@);
                        },
                        _ => {},
                    }
                } else {
                    assert(decreases_to!(args => args[n - 1]));
                    lemma_call_no_semi(f, fa);
                }
            },
            _ => {},
        }
        assert(no_semi(item));
        let sep = if n < args.len() {
            ", "@
        } else {
            Seq::<char>::empty()
        };
        lemma_no_semi_add(custom_args(args, (n - 1) as nat), item);
        lemma_no_semi_add(custom_args(args, (n - 1) as nat) + item, sep);
    }
}

proof fn lemma_call_no_semi(name: Seq<char>, args: Seq<SpecArgument>)
    requires
        no_semi(name),
        plain_args(args, args.len()),
    ensures
        no_semi(custom_cpp(name, args, false)),
    decreases args, args.len() + 1,
{
    if !is_native(name) {
        reveal_strlit("(");
        reveal_strlit(")");
        lemma_args_no_semi(args, args.len());
        lemma_no_semi_add(name, "("@);
        lemma_no_semi_add(name + "("@, custom_args(args, args.len()));
        lemma_no_semi_add(name + "("@ + custom_args(args, args.len()), ")"@);
    }
}

/// A call of a function of the program written as a statement is the call
/// written as an expression and one `;`; and where no name or word in it
/// holds a `;`, the expression holds none: a `;` only ends the whole
/// statement, never a call passed as an argument.
pub proof fn lemma_call_semicolon_only_at_end(name: Seq<char>, args: Seq<SpecArgument>)
    requires
        !is_native(name),
        no_semi(name),
        plain_args(args, args.len()),
    ensures
        custom_cpp(name, args, true) == custom_cpp(name, args, false) + ";"@,
        no_semi(custom_cpp(name, args, false)),
        custom_cpp(name, args, true).last() == ';',
{
    reveal_strlit(")");
    reveal_strlit(");");
    reveal_strlit(";");
    lemma_call_no_semi(name, args);
    let pre = name + "("@ + custom_args(args, args.len());
    assert(")"@ + ";"@ =~= ");"@);
    assert(custom_cpp(name, args, true) =~= pre + (")"@ + ";"@));
    assert(custom_cpp(name, args, true) =~= custom_cpp(name, args, false) + ";"@);
}

/// A call of a function of the program passed as the argument of another is
/// written inside it as an expression: `f(g(..))`, the inner call without `;`.
pub proof fn lemma_nested_call_as_expression(
    f: Seq<char>,
    g: Seq<char>,
    ga: Seq<SpecArgument>,
    t: Type,
    semicolon: bool,
)
    requires
        !is_native(f),
        !is_native(g),
    ensures
        custom_cpp(f, seq![SpecArgument { type_: t, value: SpecValue::CallFun { name: g, arguments: ga } }], semicolon)
            == f + "("@ + custom_cpp(g, ga, false) + (if semicolon {
            ");"@
        } else {
            ")"@
        }),
{
    let args = seq![SpecArgument { type_: t, value: SpecValue::CallFun { name: g, arguments: ga } }];
    assert(g != "int"@ && g != "len"@);
    assert(custom_args(args, 0) == Seq::<char>::empty());
    assert(custom_args(args, 1) =~= custom_cpp(g, ga, false));
}

} // verus!
