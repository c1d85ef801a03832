use crate::py2cpp::constants::LEN;
use crate::py2cpp::context::{Context, SpecContext, type_in};
use crate::py2cpp::pattern::{captures, group, group_of, regex_captures};
use crate::py2cpp::types::{
    Argument, Instruction, Library, Parsed, SpecArgument, SpecInstruction, SpecValue, Type, Value,
    lemma_arguments_view_single, outcome_view, single_instruction,
};
use vstd::prelude::*;
use vstd::string::*;

verus! {

/// `v.size()` for a constant or a variable `v`; empty otherwise.
pub open spec fn len_cpp(a: SpecArgument) -> Seq<char> {
    match a.value {
        SpecValue::ConstValue(v) => v + ".size()"@,
        SpecValue::UseVar(v) => v + ".size()"@,
        _ => Seq::empty(),
    }
}

pub fn code2cpp(argument: &Argument) -> (r: String)
    ensures
        r@ == len_cpp(argument@),
{
    match &argument.value {
        Value::ConstValue(value) | Value::UseVar(value) => {
            let mut r = value.clone();
            r.append(".size()");
            r
        },
        _ => String::new(),
    }
}

/// `len(v)`: a call of `len` on `v`, refused where `v` is not in scope.
pub open spec fn len_parse(ctx: SpecContext, content: Seq<char>) -> Result<Parsed, Seq<char>> {
    match regex_captures(LEN@, content) {
        None => Ok(None),
        Some(c) => {
            let t = group_of(c, 1);
            match type_in(ctx, t) {
                Err(e) => Err(e),
                Ok(_) => Ok(
                    Some(
                        (
                            seq![
                                SpecInstruction::CallFun {
                                    name: "len"@,
                                    arguments: seq![
                                        SpecArgument {
                                            type_: Type::Vector(Box::new(Type::Undefined)),
                                            value: SpecValue::ConstValue(t),
                                        },
                                    ],
                                },
                            ],
                            Seq::empty(),
                        ),
                    ),
                ),
            }
        },
    }
}

pub fn py2code(context: &mut Context, content: &str) -> (r: Result<Option<(Vec<Instruction>, Vec<Library>)>, String>)
    ensures
        *final(context) == *old(context),
        outcome_view(r) == len_parse(old(context)@, content@),
{
    match captures(LEN, content) {
        None => Ok(None),
        Some(data) => {
            let text = group(&data, 1);
            match context.get_type(text.as_str()) {
                Ok(_) => {},
                Err(error) => return Err(error),
            }
            let argument = Argument {
                type_: Type::Vector(Box::new(Type::Undefined)),
                value: Value::ConstValue(text),
            };
            let mut arguments: Vec<Argument> = Vec::new();
            arguments.push(argument);
            proof {
                assert(arguments@ =~= seq![argument]);
                lemma_arguments_view_single(argument);
            }
            let instruction = Instruction::CallFun { name: String::from_str("len"), arguments };
            let instructions = single_instruction(instruction);
            let libraries: Vec<Library> = Vec::new();
            proof {
                assert(crate::py2cpp::types::libraries_view(libraries@) =~= Seq::<Seq<char>>::empty());
            }
            Ok(Some((instructions, libraries)))
        },
    }
}

} // verus!
