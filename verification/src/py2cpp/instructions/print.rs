use crate::py2cpp::constants::{INTEGER, MESSAGES, PRINT, STRING, VARIABLE, is_native};
use crate::py2cpp::instruction::inst_cpp;
use crate::py2cpp::instructions::append::append_cpp;
use crate::py2cpp::instructions::custom_fun::custom_cpp;
use crate::py2cpp::instructions::input::input_cpp;
use crate::py2cpp::context::{Context, SpecContext, type_in};
use crate::py2cpp::pattern::{
    captures, captures_all, group, group_of, is_match, regex_captures, regex_captures_all,
    regex_is_match,
};
use crate::py2cpp::text::str_eq;
use crate::py2cpp::types::{
    Argument, Instruction, Library, Parsed, SpecArgument, SpecInstruction, SpecValue, Type, Value,
    arguments_view, lemma_arguments_view, lemma_arguments_view_push,
    single_instruction, libraries_view, outcome_view,
};
use vstd::prelude::*;
use vstd::string::*;

verus! {

/// The output of argument `k`: a space before every argument but the first,
/// then the argument if it is a constant or a variable.
pub open spec fn print_item(args: Seq<SpecArgument>, k: int) -> Seq<char> {
    (if k > 0 {
        " << \" \""@
    } else {
        Seq::empty()
    }) + match args[k].value {
        SpecValue::ConstValue(v) => " << "@ + v,
        SpecValue::UseVar(v) => " << "@ + v,
        _ => Seq::empty(),
    }
}

pub open spec fn print_items(args: Seq<SpecArgument>, n: nat) -> Seq<char>
    decreases n,
{
    if n == 0 {
        Seq::empty()
    } else {
        print_items(args, (n - 1) as nat) + print_item(args, n - 1)
    }
}

/// `cout << a << " " << b ... << endl;` for a call of `print`. Its last
/// argument says whether a line ends: the constant `true` does.
pub open spec fn print_cpp(name: Seq<char>, args: Seq<SpecArgument>) -> Seq<char> {
    if name == "print"@ {
        "cout"@ + print_items(args, (args.len() - 1) as nat) + (match args.last().value {
            SpecValue::ConstValue(v) => if v == "true"@ {
                " << endl"@
            } else {
                Seq::empty()
            },
            _ => Seq::empty(),
        }) + ";"@
    } else {
        Seq::empty()
    }
}

pub fn code2cpp(name: &String, arguments: &Vec<Argument>) -> (r: String)
    requires
        name@ == "print"@ ==> arguments@.len() >= 1,
    ensures
        r@ == print_cpp(name@, arguments_view(arguments@)),
{
    let ghost args = arguments_view(arguments@);
    proof {
        lemma_arguments_view(arguments@);
    }
    if str_eq(name.as_str(), "print") {
        let mut result = String::from_str("cout");
        let n = arguments.len() - 1;
        let mut index: usize = 0;
        while index < n
            invariant
                n + 1 == arguments@.len(),
                args == arguments_view(arguments@),
                forall|i: int| 0 <= i < arguments@.len() ==> #[trigger] args[i] == arguments@[i]@,
                index <= n,
                result@ == "cout"@ + print_items(args, index as nat),
            decreases n - index,
        {
            if index > 0 {
                result.append(" << \" \"");
            }
            match &arguments[index].value {
                Value::ConstValue(value) | Value::UseVar(value) => {
                    result.append(" << ");
                    result.append(value.as_str());
                },
                _ => {},
            }
            proof {
                assert(args[index as int] == arguments@[index as int]@);
            }
            index = index + 1;
        }
        match &arguments[n].value {
            Value::ConstValue(value) => {
                if str_eq(value.as_str(), "true") {
                    result.append(" << endl");
                }
            },
            _ => {},
        }
        proof {
            assert(args.last() == arguments@[n as int]@);
        }
        result.append(";");
        result
    } else {
        String::new()
    }
}

/// One word of a `print`: a variable (of its type in scope), a number, a
/// string literal, or nothing that the transpiler reads.
pub open spec fn print_arg(ctx: SpecContext, text: Seq<char>) -> Result<SpecArgument, Seq<char>> {
    if regex_is_match(VARIABLE@, text) {
        match type_in(ctx, text) {
            Ok(t) => Ok(SpecArgument { type_: t, value: SpecValue::UseVar(text) }),
            Err(e) => Err(e),
        }
    } else if regex_is_match(INTEGER@, text) {
        Ok(SpecArgument { type_: Type::Int, value: SpecValue::ConstValue(text) })
    } else if regex_is_match(STRING@, text) {
        Ok(SpecArgument { type_: Type::String, value: SpecValue::ConstValue(text) })
    } else {
        Ok(SpecArgument { type_: Type::Undefined, value: SpecValue::Empty })
    }
}

/// The arguments of the first `n` words, or the refusal of the first word refused.
pub open spec fn print_args(ctx: SpecContext, msgs: Seq<Seq<Option<Seq<char>>>>, n: nat) -> Result<
    Seq<SpecArgument>,
    Seq<char>,
>
    decreases n,
{
    if n == 0 || n > msgs.len() {
        Ok(Seq::empty())
    } else {
        match print_args(ctx, msgs, (n - 1) as nat) {
            Err(e) => Err(e),
            Ok(args) => match print_arg(ctx, group_of(msgs[n - 1], 1)) {
                Err(e) => Err(e),
                Ok(a) => Ok(args.push(a)),
            },
        }
    }
}

proof fn lemma_print_args_stays(ctx: SpecContext, msgs: Seq<Seq<Option<Seq<char>>>>, n: nat, m: nat)
    requires
        n <= m <= msgs.len(),
        print_args(ctx, msgs, n) is Err,
    ensures
        print_args(ctx, msgs, m) == print_args(ctx, msgs, n),
    decreases m - n,
{
    if m > n {
        lemma_print_args_stays(ctx, msgs, n, (m - 1) as nat);
    }
}

pub open spec fn bool_text(b: bool) -> Seq<char> {
    if b {
        "true"@
    } else {
        "false"@
    }
}

/// A line `print(...)`: a call of `print` with the words and, last, whether
/// a line ends; it needs `iostream`.
pub open spec fn print_parse(ctx: SpecContext, content: Seq<char>, newline: bool) -> Result<Parsed, Seq<char>> {
    match regex_captures(PRINT@, content) {
        None => Ok(None),
        Some(c) => {
            let msgs = regex_captures_all(MESSAGES@, group_of(c, 1));
            match print_args(ctx, msgs, msgs.len()) {
                Err(e) => Err(e),
                Ok(args) => Ok(
                    Some(
                        (
                            seq![
                                SpecInstruction::CallFun {
                                    name: "print"@,
                                    arguments: args.push(
                                        SpecArgument {
                                            type_: Type::Undefined,
                                            value: SpecValue::ConstValue(bool_text(newline)),
                                        },
                                    ),
                                },
                            ],
                            seq!["iostream"@],
                        ),
                    ),
                ),
            }
        },
    }
}

#[verifier::loop_isolation(false)]
pub fn py2code(context: &mut Context, content: &str, newline: bool) -> (r: Result<
    Option<(Vec<Instruction>, Vec<Library>)>,
    String,
>)
    ensures
        *final(context) == *old(context),
        outcome_view(r) == print_parse(old(context)@, content@, newline),
{
    match captures(PRINT, content) {
        None => Ok(None),
        Some(data) => {
            let print = group(&data, 1);
            let caps_msgs = captures_all(MESSAGES, print.as_str());
            let ghost msgs = regex_captures_all(MESSAGES@, print@);
            assert(print@ == group_of(regex_captures(PRINT@, content@)->0, 1));
            let mut arguments: Vec<Argument> = Vec::new();
            let mut k: usize = 0;
            while k < caps_msgs.len()
                invariant
                    *context == *old(context),
                    caps_msgs.deep_view() == msgs,
                    k <= msgs.len(),
                    print_args(old(context)@, msgs, k as nat) == Ok::<Seq<SpecArgument>, Seq<char>>(
                        arguments_view(arguments@),
                    ),
                decreases msgs.len() - k,
            {
                let text = group(&caps_msgs[k], 1);
                proof {
                    assert(caps_msgs.deep_view()[k as int] == caps_msgs@[k as int].deep_view());
                }
                let argument = if is_match(VARIABLE, text.as_str()) {
                    match context.get_type(text.as_str()) {
                        Ok(type_) => Argument { type_, value: Value::UseVar(text) },
                        Err(error) => {
                            proof {
                                assert(group_of(msgs[k as int], 1) == text@);
                                lemma_print_args_stays(old(context)@, msgs, (k + 1) as nat, msgs.len());
                            }
                            return Err(error);
                        },
                    }
                } else if is_match(INTEGER, text.as_str()) {
                    Argument { type_: Type::Int, value: Value::ConstValue(text) }
                } else if is_match(STRING, text.as_str()) {
                    Argument { type_: Type::String, value: Value::ConstValue(text) }
                } else {
                    Argument { type_: Type::Undefined, value: Value::Empty }
                };
                proof {
                    lemma_arguments_view_push(arguments@, argument);
                }
                arguments.push(argument);
                k = k + 1;
            }
            let value = Value::ConstValue(
                if newline {
                    String::from_str("true")
                } else {
                    String::from_str("false")
                },
            );
            let last = Argument { type_: Type::Undefined, value };
            let ghost before = arguments_view(arguments@);
            assert(print_args(old(context)@, msgs, msgs.len()) == Ok::<Seq<SpecArgument>, Seq<char>>(before));
            proof {
                lemma_arguments_view_push(arguments@, last);
            }
            arguments.push(last);
            let instruction = Instruction::CallFun { name: String::from_str("print"), arguments };
            let ghost iv = instruction@;
            let instructions = single_instruction(instruction);
            let libraries = Library::get_libraries(&["iostream"]);
            proof {
                assert(libraries_view(libraries@) =~= seq!["iostream"@]);
                let a = SpecArgument { type_: Type::Undefined, value: SpecValue::ConstValue(bool_text(newline)) };
                assert(last@ == a);
                assert(iv == SpecInstruction::CallFun { name: "print"@, arguments: before.push(a) });
            }
            Ok(Some((instructions, libraries)))
        },
    }
}


/// A line `print(...)` read with a line break wanted is written `cout`, its
/// words, ` << endl` and `;`; read without, the same without ` << endl`.
pub proof fn lemma_print_line_break(ctx: SpecContext, content: Seq<char>, newline: bool)
    requires
        print_parse(ctx, content, newline) is Ok,
        print_parse(ctx, content, newline)->Ok_0 is Some,
    ensures
        ({
            let i = print_parse(ctx, content, newline)->Ok_0->Some_0.0[0];
            let args = i->CallFun_arguments;
            inst_cpp(i, 0) == "cout"@ + print_items(args, (args.len() - 1) as nat) + (if newline {
                " << endl"@
            } else {
                Seq::<char>::empty()
            }) + ";"@
        }),
{
    reveal_strlit("print");
    reveal_strlit("input");
    reveal_strlit("append");
    reveal_strlit("int");
    reveal_strlit("len");
    reveal_strlit("at");
    reveal_strlit("true");
    reveal_strlit("false");
    let i = print_parse(ctx, content, newline)->Ok_0->Some_0.0[0];
    let args = i->CallFun_arguments;
    assert("print"@[0] != "input"@[0]);
    assert("print"@[0] != "append"@[0]);
    assert("false"@[0] != "true"@[0]);
    assert(is_native("print"@));
    assert(custom_cpp("print"@, args, true) == Seq::<char>::empty());
    assert(input_cpp("print"@, args) == Seq::<char>::empty());
    assert(append_cpp("print"@, args) == Seq::<char>::empty());
}

/// The first word of a `print` is written ` << w`, with no space before it.
pub proof fn lemma_print_first_word(args: Seq<SpecArgument>, w: Seq<char>)
    requires
        args.len() >= 1,
        args[0].value == SpecValue::UseVar(w) || args[0].value == SpecValue::ConstValue(w),
    ensures
        print_items(args, 1) == " << "@ + w,
{
    assert(print_items(args, 1) == print_items(args, 0) + print_item(args, 0));
    assert(print_items(args, 1) =~= " << "@ + w);
}

/// Each word after the first adds one space separator ` << " "` and then
/// ` << w`, after what the words before it wrote: `n` words hold `n - 1`
/// separators, one between each two consecutive words.
pub proof fn lemma_print_next_word(args: Seq<SpecArgument>, n: nat, w: Seq<char>)
    requires
        1 <= n < args.len(),
        args[n as int].value == SpecValue::UseVar(w) || args[n as int].value == SpecValue::ConstValue(w),
    ensures
        print_items(args, n + 1) == print_items(args, n) + " << \" \""@ + " << "@ + w,
        (print_items(args, n) + " << \" \""@).is_prefix_of(print_items(args, n + 1)),
{
    let before = print_items(args, n);
    assert(print_items(args, n + 1) == before + print_item(args, n as int));
    assert(print_items(args, n + 1) =~= before + " << \" \""@ + " << "@ + w);
    let p = before + " << \" \""@;
    assert(p =~= print_items(args, n + 1).subrange(0, p.len() as int));
}

} // verus!
