use crate::py2cpp::constants::{INTEGER, RETURN, STRING, VARIABLE, VECTOR};
use crate::py2cpp::context::{Context, SpecContext, type_in};
use crate::py2cpp::infer::{declared_type, get_var_type};
use crate::py2cpp::pattern::{captures, group, group_of, is_match, regex_captures, regex_is_match};
use crate::py2cpp::types::{
    Instruction, Library, Parsed, SpecInstruction, instructions_view, libraries_view, outcome_view,
    single_instruction,
};
use vstd::prelude::*;
use vstd::string::*;

verus! {

pub open spec fn return_cpp(value: Seq<char>) -> Seq<char> {
    "return "@ + value + ";"@
}

pub fn code2cpp(value: &String) -> (r: String)
    ensures
        r@ == return_cpp(value@),
{
    let mut r = String::from_str("return ");
    r.append(value.as_str());
    r.append(";");
    r
}

/// `return v`: a `return` whose type is that of the last declaration of `v`
/// in the body so far; refused where `v` is a name not in scope.
pub open spec fn return_parse(body: Seq<SpecInstruction>, ctx: SpecContext, content: Seq<char>) -> Result<
    Parsed,
    Seq<char>,
> {
    match regex_captures(RETURN@, content) {
        None => Ok(None),
        Some(c) => {
            let v = group_of(c, 1);
            let refused = if regex_is_match(INTEGER@, v) || regex_is_match(STRING@, v) || regex_is_match(VECTOR@, v) {
                None
            } else if regex_is_match(VARIABLE@, v) {
                match type_in(ctx, v) {
                    Ok(_) => None,
                    Err(e) => Some(e),
                }
            } else {
                None
            };
            match refused {
                Some(e) => Err(e),
                None => Ok(
                    Some(
                        (
                            seq![SpecInstruction::Return { type_: declared_type(v, body), value: v }],
                            Seq::empty(),
                        ),
                    ),
                ),
            }
        },
    }
}

pub fn py2code(body: &Vec<Instruction>, context: &mut Context, content: &str) -> (r: Result<
    Option<(Vec<Instruction>, Vec<Library>)>,
    String,
>)
    ensures
        *final(context) == *old(context),
        outcome_view(r) == return_parse(instructions_view(body@), old(context)@, content@),
{
    match captures(RETURN, content) {
        None => Ok(None),
        Some(data) => {
            let value = group(&data, 1);
            if is_match(INTEGER, value.as_str()) || is_match(STRING, value.as_str()) || is_match(
                VECTOR,
                value.as_str(),
            ) {
            } else if is_match(VARIABLE, value.as_str()) {
                match context.get_type(value.as_str()) {
                    Ok(_) => {},
                    Err(error) => return Err(error),
                }
            }
            let type_ = get_var_type(value.as_str(), body);
            let instruction = Instruction::Return { type_, value };
            let instructions = single_instruction(instruction);
            let libraries: Vec<Library> = Vec::new();
            proof {
                assert(libraries_view(libraries@) =~= Seq::<Seq<char>>::empty());
            }
            Ok(Some((instructions, libraries)))
        },
    }
}

} // verus!
