use crate::py2cpp::chance::{drawn, lemma_draws_assoc, lemma_drawn_add, lemma_no_draws};
use crate::py2cpp::code::{Scan, block_view, gi_spec, shift_left};
use crate::py2cpp::constants::{FUNCTION, INTEGER, LOOP, VARIABLE};
use crate::py2cpp::context::{Context, SpecContext};
use crate::py2cpp::instruction::{indent, instruction_value, insts_cpp, push_indent};
use crate::py2cpp::instructions::custom_fun::{custom_cpp, custom_spec};
use crate::py2cpp::instructions::len::{len_cpp, len_parse};
use crate::py2cpp::instructions::{custom_fun, len};
use crate::py2cpp::pattern::{captures, group, group_of, is_match, regex_captures, regex_is_match};
use crate::py2cpp::text::str_eq;
use crate::py2cpp::value::term_cpp;
use crate::py2cpp::types::{
    Code, Instruction, Library, Parsed, SpecArgument, SpecInstruction, SpecValue, Value, instructions_view,
    lemma_arguments_view, lemma_instructions_view, no_libraries, outcome_view, single_instruction,
};
use crate::py2cpp::wf::{instructions_wf, loop_depth, value_wf};
use vstd::prelude::*;
use vstd::string::*;

verus! {

/// The C++ form of a bound of a loop.
pub open spec fn bound_cpp(v: SpecValue) -> Seq<char> {
    match v {
        SpecValue::ConstValue(d) => d,
        SpecValue::UseVar(d) => d,
        SpecValue::CallFun { name, arguments } => if name == "len"@ {
            len_cpp(arguments[0])
        } else {
            custom_cpp(name, arguments, false)
        },
        _ => Seq::empty(),
    }
}

/// `for (int i = s; i < e; i++) {` with the body one level deeper and the
/// closing brace at the level of the loop.
pub open spec fn loop_cpp(
    counter: Seq<char>,
    start: SpecValue,
    end: SpecValue,
    content: Seq<SpecInstruction>,
    tabs: nat,
) -> Seq<char>
    decreases content, 1nat,
{
    "for (int "@ + counter + " = "@ + bound_cpp(start) + "; "@ + counter + " < "@ + bound_cpp(end)
        + "; "@ + counter + "++)"@ + " {\n"@ + insts_cpp(content, tabs) + indent(
        if tabs == 0 {
            0
        } else {
            (tabs - 1) as nat
        },
    ) + "}"@
}

fn bound2cpp(v: &Value) -> (r: String)
    requires
        value_wf(v@),
    ensures
        r@ == bound_cpp(v@),
{
    match v {
        Value::ConstValue(d) | Value::UseVar(d) => d.clone(),
        Value::CallFun { name, arguments } => {
            proof {
                lemma_arguments_view(arguments@);
            }
            if str_eq(name.as_str(), "len") {
                len::code2cpp(&arguments[0])
            } else {
                custom_fun::code2cpp(name, arguments, false)
            }
        },
        _ => String::new(),
    }
}

pub fn code2cpp(counter: &String, start: &Value, end: &Value, content: &Vec<Instruction>, tabs: u32) -> (r: String)
    requires
        value_wf(start@),
        value_wf(end@),
        instructions_wf(instructions_view(content@)),
        tabs + loop_depth(instructions_view(content@)) <= u32::MAX,
    ensures
        r@ == loop_cpp(counter@, start@, end@, instructions_view(content@), tabs as nat),
    decreases content, 1nat,
{
    let s = bound2cpp(start);
    let e = bound2cpp(end);
    let mut result = String::from_str("for (int ");
    result.append(counter.as_str());
    result.append(" = ");
    result.append(s.as_str());
    result.append("; ");
    result.append(counter.as_str());
    result.append(" < ");
    result.append(e.as_str());
    result.append("; ");
    result.append(counter.as_str());
    result.append("++)");
    result.append(" {\n");
    let body = Instruction::insts2cpp(content, tabs);
    result.append(body.as_str());
    if tabs > 0 {
        push_indent(&mut result, tabs - 1);
    } else {
        push_indent(&mut result, 0);
    }
    result.append("}");
    result
}


// ---------------------------------------------------------------------------
// Reading `for i in range(a, b):`
// ---------------------------------------------------------------------------

/// The value of a bound read as a call: the call's first instruction, or
/// nothing where the call was not read.
pub open spec fn bound_value(o: Result<Parsed, Seq<char>>) -> Result<SpecValue, Seq<char>> {
    match o {
        Err(e) => Err(e),
        Ok(None) => Ok(SpecValue::Empty),
        Ok(Some((is, _))) => Ok(instruction_value(is[0])),
    }
}

/// A bound of a loop: a number, a variable, `len(...)`, a call of a function
/// of the program, or nothing that the transpiler reads.
pub open spec fn bound_spec(ctx: SpecContext, param: Seq<char>, ds: Seq<nat>) -> (
    Result<SpecValue, Seq<char>>,
    SpecContext,
    Seq<nat>,
) {
    if regex_is_match(INTEGER@, param) {
        (Ok(SpecValue::ConstValue(param)), ctx, ds)
    } else if regex_is_match(VARIABLE@, param) {
        (Ok(SpecValue::UseVar(param)), ctx, ds)
    } else {
        match regex_captures(FUNCTION@, param) {
            None => (Ok(SpecValue::Empty), ctx, ds),
            Some(fc) => if group_of(fc, 1) == "len"@ {
                (bound_value(len_parse(ctx, group_of(fc, 0))), ctx, ds)
            } else {
                let (o, c1, r1) = custom_spec(ctx, param, ds);
                (bound_value(o), c1, r1)
            },
        }
    }
}

/// A block `for i in range(a, b):` with its indented body: its bounds read
/// in order, then its body read one level less indented, into the body
/// `out` that encloses it (so that an `append` in the loop retypes the
/// vectors declared there). The body is read only where it is shorter than
/// the block, as a body less indented always is; otherwise the block is not
/// read as a loop.
pub open spec fn loop_spec(
    libs: Seq<Seq<char>>,
    out: Seq<SpecInstruction>,
    ctx: SpecContext,
    ds: Seq<nat>,
    content: Seq<char>,
) -> (Result<Parsed, Seq<char>>, Scan)
    decreases content.len(), 0nat, 0nat,
{
    match regex_captures(LOOP@, content) {
        None => (Ok(None), Scan { libraries: libs, body: out, ctx, draws: ds }),
        Some(c) => {
            let (v1, c1, r1) = bound_spec(ctx, group_of(c, 2), ds);
            match v1 {
                Err(e) => (Err(e), Scan { libraries: libs, body: out, ctx: c1, draws: r1 }),
                Ok(start) => {
                    let (v2, c2, r2) = bound_spec(c1, group_of(c, 3), r1);
                    match v2 {
                        Err(e) => (Err(e), Scan { libraries: libs, body: out, ctx: c2, draws: r2 }),
                        Ok(end) => {
                            let block = shift_left(group_of(c, 4));
                            if block.len() < content.len() {
                                let (res, s) = gi_spec(libs, out, c2, r2, block);
                                (
                                    match res {
                                        Ok(body) => Ok(
                                            Some(
                                                (
                                                    seq![
                                                        SpecInstruction::Loop {
                                                            counter: group_of(c, 1),
                                                            start,
                                                            end,
                                                            content: body,
                                                        },
                                                    ],
                                                    Seq::empty(),
                                                ),
                                            ),
                                        ),
                                        Err(e) => Err(e),
                                    },
                                    s,
                                )
                            } else {
                                (Ok(None), Scan { libraries: libs, body: out, ctx: c2, draws: r2 })
                            }
                        },
                    }
                },
            }
        },
    }
}

pub open spec fn bound_view(r: Result<Value, String>) -> Result<SpecValue, Seq<char>> {
    match r {
        Ok(v) => Ok(v@),
        Err(e) => Err(e@),
    }
}

/// The value read from a call that gives a bound.
fn bound_of(sub: Result<Option<(Vec<Instruction>, Vec<Library>)>, String>) -> (r: Result<Value, String>)
    requires
        sub matches Ok(Some((is, _))) ==> is@.len() > 0,
    ensures
        bound_view(r) == bound_value(outcome_view(sub)),
{
    match sub {
        Err(e) => Err(e),
        Ok(None) => Ok(Value::Empty),
        Ok(Some((is, _))) => {
            proof {
                lemma_instructions_view(is@);
            }
            Ok(Instruction::instruc2value(&is[0]))
        },
    }
}

/// Reads a bound of a loop.
fn read_bound(context: &mut Context, param: &str) -> (r: Result<Value, String>)
    ensures
        exists|d: Seq<nat>|
            drawn(d) && forall|x: Seq<nat>|
                #[trigger] bound_spec(old(context)@, param@, d + x) == (bound_view(r), final(context)@, x),
{
    let ghost ctx0 = context@;
    proof {
        lemma_no_draws();
    }
    if is_match(INTEGER, param) {
        return Ok(Value::ConstValue(String::from_str(param)));
    }
    if is_match(VARIABLE, param) {
        return Ok(Value::UseVar(String::from_str(param)));
    }
    match captures(FUNCTION, param) {
        None => Ok(Value::Empty),
        Some(fc) => {
            let fun = group(&fc, 0);
            let fun_name = group(&fc, 1);
            if str_eq(fun_name.as_str(), "len") {
                let sub = len::py2code(context, fun.as_str());
                proof {
                    match &sub {
                        Ok(Some((is, _))) => {
                            lemma_instructions_view(is@);
                        },
                        _ => {},
                    }
                }
                bound_of(sub)
            } else {
                let sub = custom_fun::py2code(context, param);
                let ghost o = outcome_view(sub);
                let ghost c1 = context@;
                let ghost d1 = choose|d: Seq<nat>|
                    drawn(d) && forall|x: Seq<nat>| #[trigger] custom_spec(ctx0, param@, d + x) == (o, c1, x);
                let r = bound_of(sub);
                proof {
                    assert forall|x: Seq<nat>| #[trigger] bound_spec(ctx0, param@, d1 + x) == (bound_view(r), c1, x) by {
                        assert(custom_spec(ctx0, param@, d1 + x) == (o, c1, x));
                    }
                }
                r
            }
        },
    }
}

/// Reads a block `for i in range(a, b):`, its body into `body`'s
/// enclosing instructions and its libraries into `code`.
pub fn py2code(code: &mut Code, body: &mut Vec<Instruction>, context: &mut Context, content: &str) -> (r: Result<
    Option<(Vec<Instruction>, Vec<Library>)>,
    String,
>)
    ensures
        final(code)@.functions == old(code)@.functions,
        exists|d: Seq<nat>|
            drawn(d) && forall|x: Seq<nat>|
                #[trigger] loop_spec(
                    old(code)@.libraries,
                    instructions_view(old(body)@),
                    old(context)@,
                    d + x,
                    content@,
                ) == (
                    outcome_view(r),
                    Scan {
                        libraries: final(code)@.libraries,
                        body: instructions_view(final(body)@),
                        ctx: final(context)@,
                        draws: x,
                    },
                ),
    decreases content@.len(), 0nat,
{
    let ghost libs0 = code@.libraries;
    let ghost out0 = instructions_view(body@);
    let ghost ctx0 = context@;
    proof {
        lemma_no_draws();
    }
    match captures(LOOP, content) {
        None => Ok(None),
        Some(data) => {
            let counter = group(&data, 1);
            let first = group(&data, 2);
            let last = group(&data, 3);
            let read_start = read_bound(context, first.as_str());
            let ghost o1 = bound_view(read_start);
            let ghost c1 = context@;
            let ghost d1 = choose|d: Seq<nat>|
                drawn(d) && forall|x: Seq<nat>| #[trigger] bound_spec(ctx0, first@, d + x) == (o1, c1, x);
            let start = match read_start {
                Err(e) => {
                    let r: Result<Option<(Vec<Instruction>, Vec<Library>)>, String> = Err(e);
                    proof {
                        assert forall|x: Seq<nat>|
                            #[trigger] loop_spec(libs0, out0, ctx0, d1 + x, content@) == (
                                outcome_view(r),
                                Scan { libraries: libs0, body: out0, ctx: c1, draws: x },
                            ) by {
                            assert(bound_spec(ctx0, first@, d1 + x) == (o1, c1, x));
                        }
                    }
                    return r;
                },
                Ok(v) => v,
            };
            let read_end = read_bound(context, last.as_str());
            let ghost o2 = bound_view(read_end);
            let ghost c2 = context@;
            let ghost d2 = choose|d: Seq<nat>|
                drawn(d) && forall|x: Seq<nat>| #[trigger] bound_spec(c1, last@, d + x) == (o2, c2, x);
            proof {
                lemma_drawn_add(d1, d2);
            }
            let end = match read_end {
                Err(e) => {
                    let r: Result<Option<(Vec<Instruction>, Vec<Library>)>, String> = Err(e);
                    proof {
                        assert forall|x: Seq<nat>|
                            #[trigger] loop_spec(libs0, out0, ctx0, (d1 + d2) + x, content@) == (
                                outcome_view(r),
                                Scan { libraries: libs0, body: out0, ctx: c2, draws: x },
                            ) by {
                            lemma_draws_assoc(d1, d2, x);
                            assert(bound_spec(ctx0, first@, d1 + (d2 + x)) == (o1, c1, d2 + x));
                            assert(bound_spec(c1, last@, d2 + x) == (o2, c2, x));
                        }
                    }
                    return r;
                },
                Ok(v) => v,
            };
            let text = group(&data, 4);
            let block = Code::shift_code_left(text.as_str());
            let bl = block.as_str().unicode_len();
            let cl = content.unicode_len();
            if !(bl < cl) {
                let r: Result<Option<(Vec<Instruction>, Vec<Library>)>, String> = Ok(None);
                proof {
                    assert forall|x: Seq<nat>|
                        #[trigger] loop_spec(libs0, out0, ctx0, (d1 + d2) + x, content@) == (
                            outcome_view(r),
                            Scan { libraries: libs0, body: out0, ctx: c2, draws: x },
                        ) by {
                        lemma_draws_assoc(d1, d2, x);
                        assert(bound_spec(ctx0, first@, d1 + (d2 + x)) == (o1, c1, d2 + x));
                        assert(bound_spec(c1, last@, d2 + x) == (o2, c2, x));
                    }
                }
                return r;
            }
            let ghost sv = start@;
            let ghost ev = end@;
            let ghost bv = block@;
            let read_body = code.get_instructions(body, context, block);
            let ghost o3 = block_view(read_body);
            let ghost s3 = Scan {
                libraries: code@.libraries,
                body: instructions_view(body@),
                ctx: context@,
                draws: Seq::<nat>::empty(),
            };
            let ghost d3 = choose|d: Seq<nat>|
                drawn(d) && forall|x: Seq<nat>|
                    #[trigger] gi_spec(libs0, out0, c2, d + x, bv) == (o3, Scan { draws: x, ..s3 });
            let r: Result<Option<(Vec<Instruction>, Vec<Library>)>, String> = match read_body {
                Ok(instructions) => {
                    let instruction = Instruction::Loop { counter, start, end, content: instructions };
                    Ok(Some((single_instruction(instruction), no_libraries())))
                },
                Err(e) => Err(e),
            };
            proof {
                lemma_drawn_add(d1 + d2, d3);
                assert forall|x: Seq<nat>|
                    #[trigger] loop_spec(libs0, out0, ctx0, ((d1 + d2) + d3) + x, content@) == (
                        outcome_view(r),
                        Scan { draws: x, ..s3 },
                    ) by {
                    lemma_draws_assoc(d1 + d2, d3, x);
                    lemma_draws_assoc(d1, d2, d3 + x);
                    assert(bound_spec(ctx0, first@, d1 + (d2 + (d3 + x))) == (o1, c1, d2 + (d3 + x)));
                    assert(bound_spec(c1, last@, d2 + (d3 + x)) == (o2, c2, d3 + x));
                    assert(gi_spec(libs0, out0, c2, d3 + x, bv) == (o3, Scan { draws: x, ..s3 }));
                }
            }
            r
        },
    }
}

/// The first line of a loop whose end bound is `len(v)` for a variable or
/// constant `v` reads `for (int i = s; i < v.size(); i++) {`: the bound
/// is the size of `v`, never empty.
pub proof fn lemma_loop_len_bound(
    counter: Seq<char>,
    start: SpecValue,
    a: SpecArgument,
    v: Seq<char>,
    content: Seq<SpecInstruction>,
    tabs: nat,
)
    requires
        a.value == SpecValue::UseVar(v) || a.value == SpecValue::ConstValue(v),
    ensures
        ({
            let end = SpecValue::CallFun { name: "len"@, arguments: seq![a] };
            let head = "for (int "@ + counter + " = "@ + bound_cpp(start) + "; "@ + counter + " < "@ + v
                + ".size()"@ + "; "@ + counter + "++) {\n"@;
            &&& head.is_prefix_of(loop_cpp(counter, start, end, content, tabs))
            &&& bound_cpp(end).len() > v.len()
        }),
{
    reveal_strlit(".size()");
    let end = SpecValue::CallFun { name: "len"@, arguments: seq![a] };
    let head = "for (int "@ + counter + " = "@ + bound_cpp(start) + "; "@ + counter + " < "@ + v
        + ".size()"@ + "; "@ + counter + "++) {\n"@;
    assert(bound_cpp(end) == v + ".size()"@);
    let whole = loop_cpp(counter, start, end, content, tabs);
    let rest = insts_cpp(content, tabs) + indent(
        if tabs == 0 {
            0
        } else {
            (tabs - 1) as nat
        },
    ) + "}"@;
    let pre = "for (int "@ + counter + " = "@ + bound_cpp(start) + "; "@ + counter + " < "@ + bound_cpp(end)
        + "; "@ + counter;
    assert(whole == pre + "++)"@ + " {\n"@ + rest);
    assert(head =~= pre + ("++)"@ + " {\n"@)) by {
        reveal_strlit("++)");
        reveal_strlit(" {\n");
        reveal_strlit("++) {\n");
        assert("++)"@ + " {\n"@ =~= "++) {\n"@);
    }
    assert(whole =~= head + rest);
    assert(head =~= whole.subrange(0, head.len() as int));
}

/// A bound of a loop (a number, a variable, `len(v)` or a call of a function
/// of the program) is written as the same value is written as a term of an
/// expression.
pub proof fn lemma_bound_as_term(v: SpecValue)
    requires
        v is ConstValue || v is UseVar || (v is CallFun && v->CallFun_name != "int"@ && v->CallFun_name
            != "at"@),
    ensures
        bound_cpp(v) == term_cpp(v),
{
}

} // verus!
