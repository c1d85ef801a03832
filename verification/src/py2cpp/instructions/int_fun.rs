use crate::py2cpp::chance::{Step, drawn, lemma_no_draws};
use crate::py2cpp::constants::{FUNCTION, INT_FUN, STRING, VARIABLE};
use crate::py2cpp::context::{Context, SpecContext};
use crate::py2cpp::instructions::{custom_fun, declare};
use crate::py2cpp::instructions::custom_fun::custom_spec;
use crate::py2cpp::instructions::declare::declare_spec;
use crate::py2cpp::pattern::{captures, group, group_of, is_match, regex_captures, regex_is_match};
use crate::py2cpp::text::str_eq;
use crate::py2cpp::types::{
    Argument, Instruction, Library, Parsed, SpecArgument, SpecInstruction, SpecValue, Type, Value,
    instructions_view, lemma_arguments_view_single, lemma_instructions_view_push, lemma_libraries_view_add, libraries_view, no_instructions, no_libraries,
    outcome_view,
};
use vstd::prelude::*;
use vstd::string::*;

verus! {

/// `stoi(v)` for a constant or a variable `v`; empty otherwise.
pub open spec fn int_cpp(a: SpecArgument) -> Seq<char> {
    match a.value {
        SpecValue::ConstValue(v) => "stoi("@ + v + ")"@,
        SpecValue::UseVar(v) => "stoi("@ + v + ")"@,
        _ => Seq::empty(),
    }
}

pub fn code2cpp(argument: &Argument) -> (r: String)
    ensures
        r@ == int_cpp(argument@),
{
    match &argument.value {
        Value::ConstValue(value) | Value::UseVar(value) => {
            let mut r = String::from_str("stoi(");
            r.append(value.as_str());
            r.append(")");
            r
        },
        _ => String::new(),
    }
}


// ---------------------------------------------------------------------------
// Reading `int(...)`
// ---------------------------------------------------------------------------

/// The value handed to `int`, with the instructions that come before the
/// call and the libraries that they need.
pub type IntStep = (Result<(SpecValue, Seq<SpecInstruction>, Seq<Seq<char>>), Seq<char>>, SpecContext, Seq<nat>);

/// The start of the line `aux = ...` that reads a nested `input`.
pub open spec fn aux_prefix() -> Seq<char> {
    seq!['a', 'u', 'x', ' ', '=', ' ']
}

/// What `int` converts: a string literal, a variable, or `aux`, the variable
/// that a nested `input` (read as the line `aux = input(...)`) or a nested
/// call of a function of the program comes with; nothing otherwise. The
/// nested call is read only where its text is at least five characters
/// shorter than the line, as the text inside `int(...)` always is.
pub open spec fn int_value(ctx: SpecContext, content: Seq<char>, text: Seq<char>, ds: Seq<nat>) -> IntStep
    decreases 2 * content.len() + 3, 1nat, 0nat,
{
    if regex_is_match(STRING@, text) {
        (Ok((SpecValue::ConstValue(text), Seq::empty(), Seq::empty())), ctx, ds)
    } else if regex_is_match(VARIABLE@, text) {
        (Ok((SpecValue::UseVar(text), Seq::empty(), Seq::empty())), ctx, ds)
    } else {
        match regex_captures(FUNCTION@, text) {
            None => (Ok((SpecValue::Empty, Seq::empty(), Seq::empty())), ctx, ds),
            Some(fc) => {
                let (res, c1, r1) = if text.len() + 5 > content.len() {
                    (Ok(None), ctx, ds)
                } else if group_of(fc, 1) == "input"@ {
                    declare_spec(ctx, aux_prefix() + text, ds)
                } else {
                    custom_spec(ctx, text, ds)
                };
                match res {
                    Err(e) => (Err(e), c1, r1),
                    Ok(None) => (Ok((SpecValue::Empty, Seq::empty(), Seq::empty())), c1, r1),
                    Ok(Some((is, ls))) => (Ok((SpecValue::UseVar("aux"@), is, ls)), c1, r1),
                }
            },
        }
    }
}

/// A line `int(...)`: the instructions of what it converts, then a call of
/// `int` on it; it needs `string`.
pub open spec fn int_spec(ctx: SpecContext, content: Seq<char>, ds: Seq<nat>) -> Step
    decreases 2 * content.len() + 3, 2nat, 0nat,
{
    match regex_captures(INT_FUN@, content) {
        None => (Ok(None), ctx, ds),
        Some(c) => {
            let (res, c1, r1) = int_value(ctx, content, group_of(c, 1), ds);
            match res {
                Err(e) => (Err(e), c1, r1),
                Ok((v, is, ls)) => (
                    Ok(
                        Some(
                            (
                                is.push(
                                    SpecInstruction::CallFun {
                                        name: "int"@,
                                        arguments: seq![SpecArgument { type_: Type::String, value: v }],
                                    },
                                ),
                                seq!["string"@] + ls,
                            ),
                        ),
                    ),
                    c1,
                    r1,
                ),
            }
        },
    }
}

/// What `py2code` gives on `content` in `ctx`, for some numbers drawn.
pub open spec fn int_reached(
    ctx: SpecContext,
    content: Seq<char>,
    out: Result<Parsed, Seq<char>>,
    ctx2: SpecContext,
) -> bool {
    exists|d: Seq<nat>| drawn(d) && forall|x: Seq<nat>| #[trigger] int_spec(ctx, content, d + x) == (out, ctx2, x)
}

pub open spec fn int_value_view(r: Result<(Value, Vec<Instruction>, Vec<Library>), String>) -> Result<
    (SpecValue, Seq<SpecInstruction>, Seq<Seq<char>>),
    Seq<char>,
> {
    match r {
        Ok((v, is, ls)) => Ok((v@, instructions_view(is@), libraries_view(ls@))),
        Err(e) => Err(e@),
    }
}

/// Reads what a line `int(...)` in `content` converts.
fn read_int_value(context: &mut Context, content: &str, text: String) -> (r: Result<
    (Value, Vec<Instruction>, Vec<Library>),
    String,
>)
    ensures
        exists|d: Seq<nat>|
            drawn(d) && forall|x: Seq<nat>|
                #[trigger] int_value(old(context)@, content@, text@, d + x) == (int_value_view(r), final(context)@, x),
    decreases 2 * content@.len() + 3, 0nat,
{
    let ghost ctx0 = context@;
    let ghost t = text@;
    proof {
        lemma_no_draws();
    }
    if is_match(STRING, text.as_str()) {
        return Ok((Value::ConstValue(text), no_instructions(), no_libraries()));
    }
    if is_match(VARIABLE, text.as_str()) {
        return Ok((Value::UseVar(text), no_instructions(), no_libraries()));
    }
    match captures(FUNCTION, text.as_str()) {
        None => Ok((Value::Empty, no_instructions(), no_libraries())),
        Some(fc) => {
            let fun_name = group(&fc, 1);
            let tl = text.as_str().unicode_len();
            let cl = content.unicode_len();
            if !(tl <= cl && cl - tl >= 5) {
                return Ok((Value::Empty, no_instructions(), no_libraries()));
            }
            let is_input = str_eq(fun_name.as_str(), "input");
            let sub = if is_input {
                let mut line = String::from_str("aux = ");
                line.append(text.as_str());
                proof {
                    reveal_strlit("aux = ");
                    assert("aux = "@ =~= aux_prefix());
                }
                declare::py2code(context, line.as_str())
            } else {
                custom_fun::py2code(context, text.as_str())
            };
            let ghost o = outcome_view(sub);
            let ghost c1 = context@;
            let ghost d1 = if is_input {
                choose|d: Seq<nat>|
                    drawn(d) && forall|x: Seq<nat>| #[trigger] declare_spec(ctx0, aux_prefix() + t, d + x) == (o, c1, x)
            } else {
                choose|d: Seq<nat>|
                    drawn(d) && forall|x: Seq<nat>| #[trigger] custom_spec(ctx0, t, d + x) == (o, c1, x)
            };
            let r = match sub {
                Err(e) => Err(e),
                Ok(None) => Ok((Value::Empty, no_instructions(), no_libraries())),
                Ok(Some((is, ls))) => Ok((Value::UseVar(String::from_str("aux")), is, ls)),
            };
            proof {
                reveal_strlit("aux");
                assert forall|x: Seq<nat>| #[trigger] int_value(ctx0, content@, t, d1 + x) == (int_value_view(r), c1, x) by {
                    if is_input {
                        assert(declare_spec(ctx0, aux_prefix() + t, d1 + x) == (o, c1, x));
                    } else {
                        assert(custom_spec(ctx0, t, d1 + x) == (o, c1, x));
                    }
                }
            }
            r
        },
    }
}

/// Reads a line `int(...)`.
pub fn py2code(context: &mut Context, content: &str) -> (r: Result<Option<(Vec<Instruction>, Vec<Library>)>, String>)
    ensures
        int_reached(old(context)@, content@, outcome_view(r), final(context)@),
        r matches Ok(Some((is, _))) ==> is@.len() > 0,
    decreases 2 * content@.len() + 3, 1nat,
{
    let ghost ctx0 = context@;
    proof {
        lemma_no_draws();
    }
    match captures(INT_FUN, content) {
        None => Ok(None),
        Some(data) => {
            let text = group(&data, 1);
            let ghost t = text@;
            let step = read_int_value(context, content, text);
            let ghost o = int_value_view(step);
            let ghost c1 = context@;
            let ghost d = choose|d: Seq<nat>|
                drawn(d) && forall|x: Seq<nat>| #[trigger] int_value(ctx0, content@, t, d + x) == (o, c1, x);
            match step {
                Err(e) => {
                    let r: Result<Option<(Vec<Instruction>, Vec<Library>)>, String> = Err(e);
                    proof {
                        assert forall|x: Seq<nat>| #[trigger] int_spec(ctx0, content@, d + x) == (outcome_view(r), c1, x) by {
                            assert(int_value(ctx0, content@, t, d + x) == (o, c1, x));
                        }
                    }
                    r
                },
                Ok((value, mut instructions, mut libs)) => {
                    let ghost v = value@;
                    let mut libraries = Library::get_libraries(&["string"]);
                    proof {
                        assert(libraries_view(libraries@) =~= seq!["string"@]);
                        lemma_libraries_view_add(libraries@, libs@);
                    }
                    libraries.append(&mut libs);
                    let argument = Argument { type_: Type::String, value };
                    let mut arguments: Vec<Argument> = Vec::new();
                    arguments.push(argument);
                    proof {
                        assert(arguments@ =~= seq![argument]);
                        lemma_arguments_view_single(argument);
                    }
                    let instruction = Instruction::CallFun { name: String::from_str("int"), arguments };
                    proof {
                        lemma_instructions_view_push(instructions@, instruction);
                    }
                    instructions.push(instruction);
                    let r: Result<Option<(Vec<Instruction>, Vec<Library>)>, String> = Ok(Some((instructions, libraries)));
                    proof {
                        assert forall|x: Seq<nat>| #[trigger] int_spec(ctx0, content@, d + x) == (outcome_view(r), c1, x) by {
                            assert(int_value(ctx0, content@, t, d + x) == (o, c1, x));
                        }
                    }
                    r
                },
            }
        },
    }
}

} // verus!
