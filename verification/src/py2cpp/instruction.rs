use crate::py2cpp::copy::copy_arguments;
use crate::py2cpp::instructions::append::append_cpp;
use crate::py2cpp::instructions::custom_fun::custom_cpp;
use crate::py2cpp::instructions::declare::declare_cpp;
use crate::py2cpp::instructions::for_loop::loop_cpp;
use crate::py2cpp::instructions::input::input_cpp;
use crate::py2cpp::instructions::print::print_cpp;
use crate::py2cpp::instructions::return_stmt::return_cpp;
use crate::py2cpp::instructions::{append, custom_fun, declare, for_loop, input, print, return_stmt};
use crate::py2cpp::types::{
    Instruction, SpecInstruction, SpecValue, Value, instructions_view, lemma_arguments_view,
    lemma_instructions_view,
};
use crate::py2cpp::wf::{instruction_wf, instructions_wf, lemma_loop_depth, loop_depth};
use vstd::prelude::*;
use vstd::string::*;

verus! {

/// The value that an instruction stands for: a call for a call, nothing otherwise.
pub open spec fn instruction_value(i: SpecInstruction) -> SpecValue {
    match i {
        SpecInstruction::CallFun { name, arguments } => SpecValue::CallFun { name, arguments },
        _ => SpecValue::Empty,
    }
}

/// Four spaces for each level.
pub open spec fn indent(tabs: nat) -> Seq<char>
    decreases tabs,
{
    if tabs == 0 {
        Seq::empty()
    } else {
        indent((tabs - 1) as nat) + "    "@
    }
}

/// The C++ form of one instruction, at nesting level `tabs`.
pub open spec fn inst_cpp(i: SpecInstruction, tabs: nat) -> Seq<char>
    decreases i, 0nat,
{
    match i {
        SpecInstruction::CreateVar { type_, name, value } => declare_cpp(type_, name, value, true),
        SpecInstruction::ReassignVar { type_, name, value } => declare_cpp(type_, name, value, false),
        SpecInstruction::CallFun { name, arguments } => print_cpp(name, arguments) + input_cpp(
            name,
            arguments,
        ) + custom_cpp(name, arguments, true) + append_cpp(name, arguments),
        SpecInstruction::Loop { counter, start, end, content } => loop_cpp(
            counter,
            start,
            end,
            content,
            tabs + 1,
        ),
        SpecInstruction::Return { value, .. } => return_cpp(value),
    }
}

/// Each instruction on a line of its own, indented by `tabs` levels.
pub open spec fn insts_cpp(is: Seq<SpecInstruction>, tabs: nat) -> Seq<char>
    decreases is, 0nat,
{
    if is.len() == 0 {
        Seq::empty()
    } else {
        insts_cpp(is.drop_last(), tabs) + indent(tabs) + inst_cpp(is.last(), tabs) + "\n"@
    }
}

/// Appends `tabs` levels of indentation.
pub fn push_indent(result: &mut String, tabs: u32)
    ensures
        final(result)@ == old(result)@ + indent(tabs as nat),
{
    let mut t: u32 = 0;
    while t < tabs
        invariant
            t <= tabs,
            result@ == old(result)@ + indent(t as nat),
        decreases tabs - t,
    {
        result.append("    ");
        t = t + 1;
    }
}

impl Instruction {
    /// The call that an instruction makes, as a value; `Empty` for any other
    /// instruction.
    pub fn instruc2value(instruction: &Instruction) -> (r: Value)
        ensures
            r@ == instruction_value(instruction@),
    {
        match instruction {
            Instruction::CallFun { name, arguments } => {
                let name = name.clone();
                let arguments = copy_arguments(arguments);
                Value::CallFun { name, arguments }
            },
            _ => Value::Empty,
        }
    }

    /// The C++ lines of a sequence of instructions, indented by `tabs` levels.
    pub fn insts2cpp(instructions: &Vec<Instruction>, tabs: u32) -> (r: String)
        requires
            instructions_wf(instructions_view(instructions@)),
            tabs + loop_depth(instructions_view(instructions@)) <= u32::MAX,
        ensures
            r@ == insts_cpp(instructions_view(instructions@), tabs as nat),
        decreases instructions, 0nat,
    {
        let ghost is = instructions_view(instructions@);
        proof {
            lemma_instructions_view(instructions@);
        }
        let mut result = String::new();
        proof {
            reveal_strlit("");
            assert(is.take(0) =~= Seq::<SpecInstruction>::empty());
        }
        let mut k: usize = 0;
        while k < instructions.len()
            invariant
                is == instructions_view(instructions@),
                is.len() == instructions@.len(),
                forall|i: int| 0 <= i < is.len() ==> #[trigger] is[i] == instructions@[i]@,
                instructions_wf(is),
                tabs + loop_depth(is) <= u32::MAX,
                k <= is.len(),
                result@ == insts_cpp(is.take(k as int), tabs as nat),
            decreases is.len() - k,
        {
            push_indent(&mut result, tabs);
            let instruction = &instructions[k];
            proof {
                assert(is[k as int] == instruction@);
                assert(instruction_wf(is[k as int]));
                lemma_loop_depth(is, k as int);
            }
            let line = match instruction {
                Instruction::CreateVar { type_, name, value } => declare::code2cpp(type_, name, value, true),
                Instruction::ReassignVar { type_, name, value } => declare::code2cpp(type_, name, value, false),
                Instruction::CallFun { name, arguments } => {
                    proof {
                        lemma_arguments_view(arguments@);
                    }
                    let mut line = print::code2cpp(name, arguments);
                    let text = input::code2cpp(name, arguments);
                    line.append(text.as_str());
                    let text = custom_fun::code2cpp(name, arguments, true);
                    line.append(text.as_str());
                    let text = append::code2cpp(name, arguments);
                    line.append(text.as_str());
                    line
                },
                Instruction::Loop { counter, start, end, content } => {
                    proof {
                        assert(decreases_to!(instructions => instructions@[k as int]));
                        lemma_instructions_view(content@);
                    }
                    for_loop::code2cpp(counter, start, end, content, tabs + 1)
                },
                Instruction::Return { value, .. } => return_stmt::code2cpp(value),
            };
            proof {
                assert(line@ == inst_cpp(is[k as int], tabs as nat));
            }
            result.append(line.as_str());
            result.append("\n");
            proof {
                assert(is.take(k + 1).drop_last() =~= is.take(k as int));
                assert(is.take(k + 1).last() == is[k as int]);
            }
            k = k + 1;
        }
        proof {
            assert(is.take(is.len() as int) =~= is);
        }
        result
    }
}

} // verus!
