use crate::py2cpp::constants::{INPUT, is_native};
use crate::py2cpp::instruction::inst_cpp;
use crate::py2cpp::instructions::custom_fun::custom_cpp;
use crate::py2cpp::context::{Context, SpecContext};
use crate::py2cpp::instructions::print;
use crate::py2cpp::instructions::print::print_parse;
use crate::py2cpp::pattern::{captures, group, group_of, regex_captures};
use crate::py2cpp::text::str_eq;
use crate::py2cpp::types::{
    Argument, Instruction, Library, Parsed, SpecArgument, SpecInstruction, SpecValue, Type, Value,
    arguments_view, instructions_view, lemma_arguments_view, lemma_arguments_view_single,
    lemma_instructions_view_push, libraries_view, outcome_view,
};
use vstd::prelude::*;
use vstd::string::*;

verus! {

/// `cin >> v;` for a call of `input` that stores into the variable `v`.
pub open spec fn input_cpp(name: Seq<char>, args: Seq<SpecArgument>) -> Seq<char> {
    if name == "input"@ {
        match args[0].value {
            SpecValue::UseVar(v) => "cin >> "@ + v + ";"@,
            _ => Seq::empty(),
        }
    } else {
        Seq::empty()
    }
}

pub fn code2cpp(name: &String, arguments: &Vec<Argument>) -> (r: String)
    requires
        name@ == "input"@ ==> arguments@.len() >= 1,
    ensures
        r@ == input_cpp(name@, arguments_view(arguments@)),
{
    proof {
        lemma_arguments_view(arguments@);
    }
    if str_eq(name.as_str(), "input") {
        match &arguments[0].value {
            Value::UseVar(value) => {
                let mut r = String::from_str("cin >> ");
                r.append(value.as_str());
                r.append(";");
                r
            },
            _ => String::new(),
        }
    } else {
        String::new()
    }
}

/// A line `input(...)`: a `print` of the prompt without a line break,
/// then a call of `input` into `var_name`; it also needs `string`.
pub open spec fn input_parse(ctx: SpecContext, var_name: Seq<char>, content: Seq<char>, newline: bool) -> Result<
    Parsed,
    Seq<char>,
> {
    match regex_captures(INPUT@, content) {
        None => Ok(None),
        Some(c) => match print_parse(ctx, "print("@ + group_of(c, 1) + ")"@, newline) {
            Err(e) => Err(e),
            Ok(p) => {
                let (is, ls) = match p {
                    Some(x) => x,
                    None => (Seq::empty(), Seq::empty()),
                };
                Ok(
                    Some(
                        (
                            is.push(
                                SpecInstruction::CallFun {
                                    name: "input"@,
                                    arguments: seq![
                                        SpecArgument {
                                            type_: Type::Undefined,
                                            value: SpecValue::UseVar(var_name),
                                        },
                                    ],
                                },
                            ),
                            ls.push("string"@),
                        ),
                    ),
                )
            },
        },
    }
}

pub fn py2code(context: &mut Context, var_name: &str, content: &str, newline: bool) -> (r: Result<
    Option<(Vec<Instruction>, Vec<Library>)>,
    String,
>)
    ensures
        *final(context) == *old(context),
        outcome_view(r) == input_parse(old(context)@, var_name@, content@, newline),
{
    match captures(INPUT, content) {
        None => Ok(None),
        Some(data) => {
            let inner = group(&data, 1);
            let mut text = String::from_str("print(");
            text.append(inner.as_str());
            text.append(")");
            let printed = print::py2code(context, text.as_str(), newline);
            let ghost p = outcome_view(printed);
            let (mut instructions, mut libraries) = match printed {
                Ok(Some((instrs, libs))) => (instrs, libs),
                Ok(None) => {
                    let instrs: Vec<Instruction> = Vec::new();
                    let libs: Vec<Library> = Vec::new();
                    proof {
                        assert(instructions_view(instrs@) =~= Seq::<SpecInstruction>::empty());
                        assert(libraries_view(libs@) =~= Seq::<Seq<char>>::empty());
                    }
                    (instrs, libs)
                },
                Err(error) => return Err(error),
            };
            proof {
                assert(text@ == "print("@ + group_of(regex_captures(INPUT@, content@)->0, 1) + ")"@);
                assert(p is Ok);
                assert(match p->Ok_0 {
                    Some(x) => x,
                    None => (Seq::<SpecInstruction>::empty(), Seq::<Seq<char>>::empty()),
                } == (instructions_view(instructions@), libraries_view(libraries@)));
            }
            let argument = Argument { type_: Type::Undefined, value: Value::UseVar(String::from_str(var_name)) };
            let mut arguments: Vec<Argument> = Vec::new();
            arguments.push(argument);
            proof {
                assert(arguments@ =~= seq![argument]);
                lemma_arguments_view_single(argument);
            }
            let instruction = Instruction::CallFun { name: String::from_str("input"), arguments };
            proof {
                lemma_instructions_view_push(instructions@, instruction);
            }
            instructions.push(instruction);
            let name = String::from_str("string");
            proof {
                assert(libraries_view(libraries@.push(Library { name })) =~= libraries_view(libraries@).push(name@));
            }
            libraries.push(Library { name });
            Ok(Some((instructions, libraries)))
        },
    }
}


/// A line `input(...)` read into `var_name` ends with the instruction that
/// C++ writes `cin >> var_name;`.
pub proof fn lemma_input_reads_into(ctx: SpecContext, var_name: Seq<char>, content: Seq<char>, newline: bool)
    requires
        input_parse(ctx, var_name, content, newline) is Ok,
        input_parse(ctx, var_name, content, newline)->Ok_0 is Some,
    ensures
        ({
            let is = input_parse(ctx, var_name, content, newline)->Ok_0->Some_0.0;
            is.len() > 0 && inst_cpp(is.last(), 0) == "cin >> "@ + var_name + ";"@
        }),
{
    reveal_strlit("input");
    reveal_strlit("print");
    reveal_strlit("append");
    reveal_strlit("int");
    reveal_strlit("len");
    reveal_strlit("at");
    let is = input_parse(ctx, var_name, content, newline)->Ok_0->Some_0.0;
    let args = seq![SpecArgument { type_: Type::Undefined, value: SpecValue::UseVar(var_name) }];
    assert(is.last() == SpecInstruction::CallFun { name: "input"@, arguments: args });
    assert("input"@[0] != "print"@[0]);
    assert("input"@ != "print"@);
    assert("input"@[0] != "append"@[0]);
    assert("input"@ != "append"@);
    assert(is_native("input"@));
    assert(custom_cpp("input"@, args, true) == Seq::<char>::empty());
    assert(inst_cpp(is.last(), 0) =~= "cin >> "@ + var_name + ";"@);
}

} // verus!
