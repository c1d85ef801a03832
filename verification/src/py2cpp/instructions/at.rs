use crate::py2cpp::constants::AT;
use crate::py2cpp::context::{Context, SpecContext, type_in};
use crate::py2cpp::pattern::{captures, group, group_of, regex_captures};
use crate::py2cpp::text::str_eq;
use crate::py2cpp::types::{
    Argument, Instruction, Library, Parsed, SpecArgument, SpecInstruction, SpecValue, Type, Value,
    arguments_view, lemma_arguments_view, lemma_arguments_view_push, libraries_view, outcome_view, single_instruction,
};
use vstd::prelude::*;
use vstd::string::*;

verus! {

/// `v.at(i)` for a call of `at` on a vector variable `v` and an index `i`.
pub open spec fn at_cpp(name: Seq<char>, args: Seq<SpecArgument>) -> Seq<char> {
    if name == "at"@ {
        let vector = match args[0].value {
            SpecValue::UseVar(v) => v,
            _ => Seq::empty(),
        };
        let index = match args[1].value {
            SpecValue::ConstValue(i) => i,
            SpecValue::UseVar(i) => i,
            _ => Seq::empty(),
        };
        vector + ".at("@ + index + ")"@
    } else {
        Seq::empty()
    }
}

pub fn code2cpp(name: &String, arguments: &Vec<Argument>) -> (r: String)
    requires
        name@ == "at"@ ==> arguments@.len() >= 2,
    ensures
        r@ == at_cpp(name@, arguments_view(arguments@)),
{
    proof {
        lemma_arguments_view(arguments@);
    }
    if str_eq(name.as_str(), "at") {
        let mut r = match &arguments[0].value {
            Value::UseVar(vector) => vector.clone(),
            _ => String::new(),
        };
        r.append(".at(");
        match &arguments[1].value {
            Value::ConstValue(index) | Value::UseVar(index) => r.append(index.as_str()),
            _ => {},
        }
        r.append(")");
        r
    } else {
        String::new()
    }
}

/// `v[i]`: a call of `at` on the vector `v` and the index `i`, refused where
/// `v` is not in scope.
pub open spec fn at_parse(ctx: SpecContext, content: Seq<char>) -> Result<Parsed, Seq<char>> {
    match regex_captures(AT@, content) {
        None => Ok(None),
        Some(c) => {
            let vector = group_of(c, 1);
            let index = group_of(c, 2);
            match type_in(ctx, vector) {
                Err(e) => Err(e),
                Ok(_) => Ok(
                    Some(
                        (
                            seq![
                                SpecInstruction::CallFun {
                                    name: "at"@,
                                    arguments: seq![
                                        SpecArgument { type_: Type::Undefined, value: SpecValue::UseVar(vector) },
                                        SpecArgument { type_: Type::Undefined, value: SpecValue::UseVar(index) },
                                    ],
                                },
                            ],
                            Seq::empty(),
                        ),
                    ),
                ),
            }
        },
    }
}

pub fn py2code(context: &mut Context, content: &str) -> (r: Result<Option<(Vec<Instruction>, Vec<Library>)>, String>)
    ensures
        *final(context) == *old(context),
        outcome_view(r) == at_parse(old(context)@, content@),
{
    match captures(AT, content) {
        None => Ok(None),
        Some(data) => {
            let vector = group(&data, 1);
            let index = group(&data, 2);
            match context.get_type(vector.as_str()) {
                Ok(_) => {},
                Err(error) => return Err(error),
            }
            let first = Argument { type_: Type::Undefined, value: Value::UseVar(vector) };
            let second = Argument { type_: Type::Undefined, value: Value::UseVar(index) };
            let ghost a = first@;
            let ghost b = second@;
            let mut arguments: Vec<Argument> = Vec::new();
            proof {
                assert(arguments_view(arguments@) =~= Seq::<SpecArgument>::empty());
                lemma_arguments_view_push(arguments@, first);
            }
            arguments.push(first);
            proof {
                lemma_arguments_view_push(arguments@, second);
            }
            arguments.push(second);
            proof {
                assert(arguments_view(arguments@) =~= seq![a, b]);
            }
            let instruction = Instruction::CallFun { name: String::from_str("at"), arguments };
            let instructions = single_instruction(instruction);
            let libraries: Vec<Library> = Vec::new();
            proof {
                assert(libraries_view(libraries@) =~= Seq::<Seq<char>>::empty());
            }
            Ok(Some((instructions, libraries)))
        },
    }
}

} // verus!
