use crate::py2cpp::constants::{APPEND, INTEGER, STRING, VARIABLE};
use crate::py2cpp::context::{Context, SpecContext, type_in};
use crate::py2cpp::copy::copy_value;
use crate::py2cpp::pattern::{captures, group, group_of, is_match, regex_captures, regex_is_match};
use crate::py2cpp::text::str_eq;
use crate::py2cpp::types::{
    Argument, Instruction, Library, Parsed, SpecArgument, SpecInstruction, SpecValue, Type, Value,
    arguments_view, instructions_view, lemma_arguments_view, lemma_arguments_view_push,
    lemma_instructions_view, libraries_view, parsed_view, single_instruction,
};
use vstd::prelude::*;
use vstd::string::*;

verus! {

/// `v.push_back(e);` for a call of `append` on a vector `v` and an element `e`.
pub open spec fn append_cpp(name: Seq<char>, args: Seq<SpecArgument>) -> Seq<char> {
    if name == "append"@ {
        let vector = match args[0].value {
            SpecValue::UseVar(v) => v,
            _ => Seq::empty(),
        };
        let element = match args[1].value {
            SpecValue::UseVar(e) => e,
            _ => Seq::empty(),
        };
        vector + ".push_back("@ + element + ");"@
    } else {
        Seq::empty()
    }
}

pub fn code2cpp(name: &String, arguments: &Vec<Argument>) -> (r: String)
    requires
        name@ == "append"@ ==> arguments@.len() >= 2,
    ensures
        r@ == append_cpp(name@, arguments_view(arguments@)),
{
    proof {
        lemma_arguments_view(arguments@);
    }
    if str_eq(name.as_str(), "append") {
        let mut r = match &arguments[0].value {
            Value::UseVar(vector) => vector.clone(),
            _ => String::new(),
        };
        r.append(".push_back(");
        match &arguments[1].value {
            Value::UseVar(element) => r.append(element.as_str()),
            _ => {},
        }
        r.append(");");
        r
    } else {
        String::new()
    }
}

/// The type of an element appended to a vector.
pub open spec fn element_type(ctx: SpecContext, element: Seq<char>) -> Type {
    if regex_is_match(INTEGER@, element) {
        Type::Int
    } else if regex_is_match(STRING@, element) {
        Type::String
    } else if regex_is_match(VARIABLE@, element) {
        match type_in(ctx, element) {
            Ok(t) => t,
            Err(_) => Type::Undefined,
        }
    } else {
        Type::Undefined
    }
}

/// A declaration of the vector `vector` takes `t` as its element type.
pub open spec fn retyped(i: SpecInstruction, vector: Seq<char>, t: Type) -> SpecInstruction {
    match i {
        SpecInstruction::CreateVar { type_, name, value } => if name == vector && type_ is Vector {
            SpecInstruction::CreateVar { type_: Type::Vector(Box::new(t)), name, value }
        } else {
            i
        },
        _ => i,
    }
}

/// The body after `v.append(e)`: the declarations of `v` in it become vectors
/// of the type of `e`.
pub open spec fn append_body(ctx: SpecContext, body: Seq<SpecInstruction>, content: Seq<char>) -> Seq<SpecInstruction> {
    match regex_captures(APPEND@, content) {
        None => body,
        Some(c) => Seq::new(
            body.len(),
            |k: int| retyped(body[k], group_of(c, 1), element_type(ctx, group_of(c, 2))),
        ),
    }
}

/// `v.append(e)`: a call of `append` on `v` and `e`.
pub open spec fn append_parse(content: Seq<char>) -> Parsed {
    match regex_captures(APPEND@, content) {
        None => None,
        Some(c) => Some(
            (
                seq![
                    SpecInstruction::CallFun {
                        name: "append"@,
                        arguments: seq![
                            SpecArgument { type_: Type::Undefined, value: SpecValue::UseVar(group_of(c, 1)) },
                            SpecArgument { type_: Type::Undefined, value: SpecValue::UseVar(group_of(c, 2)) },
                        ],
                    },
                ],
                Seq::empty(),
            ),
        ),
    }
}

#[verifier::loop_isolation(false)]
pub fn py2code(context: &mut Context, fun_body: &mut Vec<Instruction>, content: &str) -> (r: Option<
    (Vec<Instruction>, Vec<Library>),
>)
    ensures
        *final(context) == *old(context),
        instructions_view(final(fun_body)@) == append_body(old(context)@, instructions_view(old(fun_body)@), content@),
        parsed_view(r) == append_parse(content@),
{
    match captures(APPEND, content) {
        None => None,
        Some(data) => {
            let vector = group(&data, 1);
            let element = group(&data, 2);
            let vec_type = if is_match(INTEGER, element.as_str()) {
                Type::Int
            } else if is_match(STRING, element.as_str()) {
                Type::String
            } else if is_match(VARIABLE, element.as_str()) {
                match context.get_type(element.as_str()) {
                    Ok(t) => t,
                    Err(_) => Type::Undefined,
                }
            } else {
                Type::Undefined
            };
            let ghost before = instructions_view(fun_body@);
            proof {
                lemma_instructions_view(fun_body@);
            }
            let n = fun_body.len();
            let mut k: usize = 0;
            while k < n
                invariant
                    n == fun_body@.len(),
                    k <= n,
                    before.len() == n,
                    instructions_view(fun_body@).len() == n,
                    forall|j: int| 0 <= j < n ==> #[trigger] instructions_view(fun_body@)[j] == fun_body@[j]@,
                    forall|j: int| 0 <= j < k ==> #[trigger] fun_body@[j]@ == retyped(before[j], vector@, vec_type),
                    forall|j: int| k <= j < n ==> #[trigger] fun_body@[j]@ == before[j],
                decreases n - k,
            {
                let replacement = match &fun_body[k] {
                    Instruction::CreateVar { type_: Type::Vector(_), name, value } => {
                        if str_eq(name.as_str(), vector.as_str()) {
                            Some(
                                Instruction::CreateVar {
                                    type_: Type::Vector(Box::new(vec_type.copy())),
                                    name: name.clone(),
                                    value: copy_value(value),
                                },
                            )
                        } else {
                            None
                        }
                    },
                    _ => None,
                };
                let ghost target = retyped(before[k as int], vector@, vec_type);
                match replacement {
                    Some(instruction) => {
                        assert(instruction@ == target);
                        fun_body.set(k, instruction);
                    },
                    None => {
                        assert(fun_body@[k as int]@ == target);
                    },
                }
                proof {
                    lemma_instructions_view(fun_body@);
                    assert(fun_body@[k as int]@ == target);
                }
                k = k + 1;
            }
            proof {
                assert(instructions_view(fun_body@) =~= append_body(old(context)@, before, content@));
            }
            let first = Argument { type_: Type::Undefined, value: Value::UseVar(vector) };
            let second = Argument { type_: Type::Undefined, value: Value::UseVar(element) };
            let ghost a = first@;
            let ghost b = second@;
            let mut arguments: Vec<Argument> = Vec::new();
            proof {
                assert(arguments_view(arguments@) =~= Seq::<SpecArgument>::empty());
                lemma_arguments_view_push(arguments@, first);
            }
            arguments.push(first);
            proof {
                lemma_arguments_view_push(arguments@, second);
            }
            arguments.push(second);
            let instruction = Instruction::CallFun { name: String::from_str("append"), arguments };
            let instructions = single_instruction(instruction);
            let libraries: Vec<Library> = Vec::new();
            proof {
                assert(arguments_view(arguments@) =~= seq![a, b]);
                assert(libraries_view(libraries@) =~= Seq::<Seq<char>>::empty());
            }
            Some((instructions, libraries))
        },
    }
}

} // verus!
