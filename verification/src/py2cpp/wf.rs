//! The shape that the generator relies on: each call carries the arguments
//! that its C++ form reads. The parsers build only values of this shape.
use crate::py2cpp::text::str_eq;
use crate::py2cpp::types::{
    Instruction, SpecArgument, SpecInstruction, SpecValue, Value, arguments_view, instructions_view, lemma_arguments_view,
    lemma_instructions_view, lemma_values_view, values_view,
};
use vstd::prelude::*;

verus! {

pub open spec fn value_wf(v: SpecValue) -> bool
    decreases v,
{
    match v {
        SpecValue::CallFun { name, arguments } => {
            &&& (name == "int"@ || name == "len"@ ==> arguments.len() >= 1)
            &&& (name == "at"@ ==> arguments.len() >= 2)
            &&& forall|i: int| 0 <= i < arguments.len() ==> value_wf(#[trigger] arguments[i].value)
        },
        SpecValue::Expression { operators, values } => {
            &&& values.len() <= operators.len() + 1
            &&& forall|i: int| 0 <= i < values.len() ==> value_wf(#[trigger] values[i])
        },
        _ => true,
    }
}

pub open spec fn arguments_wf(args: Seq<SpecArgument>) -> bool {
    forall|i: int| 0 <= i < args.len() ==> value_wf(#[trigger] args[i].value)
}

pub open spec fn instruction_wf(i: SpecInstruction) -> bool
    decreases i,
{
    match i {
        SpecInstruction::CreateVar { value, .. } => value_wf(value),
        SpecInstruction::ReassignVar { value, .. } => value_wf(value),
        SpecInstruction::CallFun { name, arguments } => {
            &&& (name == "print"@ || name == "input"@ ==> arguments.len() >= 1)
            &&& (name == "append"@ ==> arguments.len() >= 2)
            &&& arguments_wf(arguments)
        },
        SpecInstruction::Loop { start, end, content, .. } => {
            &&& value_wf(start)
            &&& value_wf(end)
            &&& forall|k: int| 0 <= k < content.len() ==> instruction_wf(#[trigger] content[k])
        },
        SpecInstruction::Return { .. } => true,
    }
}

pub open spec fn instructions_wf(is: Seq<SpecInstruction>) -> bool {
    forall|k: int| 0 <= k < is.len() ==> instruction_wf(#[trigger] is[k])
}

/// How deeply loops nest in a sequence of instructions.
pub open spec fn loop_depth(is: Seq<SpecInstruction>) -> nat
    decreases is,
{
    if is.len() == 0 {
        0
    } else {
        let rest = loop_depth(is.drop_last());
        let last = match is.last() {
            SpecInstruction::Loop { content, .. } => 1 + loop_depth(content),
            _ => 0,
        };
        if rest >= last {
            rest
        } else {
            last
        }
    }
}

pub proof fn lemma_loop_depth(is: Seq<SpecInstruction>, k: int)
    requires
        0 <= k < is.len(),
    ensures
        is[k] matches SpecInstruction::Loop { content, .. } ==> 1 + loop_depth(content) <= loop_depth(
            is,
        ),
    decreases is.len(),
{
    if k < is.len() - 1 {
        lemma_loop_depth(is.drop_last(), k);
        assert(is.drop_last()[k] == is[k]);
    }
}


/// A loop nests its body less deep than `limit`; anything else fits.
pub open spec fn loop_fits(i: SpecInstruction, limit: nat) -> bool {
    match i {
        SpecInstruction::Loop { content, .. } => 1 + loop_depth(content) <= limit,
        _ => true,
    }
}

/// A sequence of instructions nests loops at most `limit` deep exactly
/// when each loop in it nests its body at most one level less deep.
pub proof fn lemma_loop_depth_within(is: Seq<SpecInstruction>, limit: nat)
    ensures
        loop_depth(is) <= limit <==> forall|k: int| 0 <= k < is.len() ==> loop_fits(#[trigger] is[k], limit),
    decreases is.len(),
{
    if is.len() > 0 {
        let rest = is.drop_last();
        lemma_loop_depth_within(rest, limit);
        if loop_depth(is) <= limit {
            assert forall|k: int| 0 <= k < is.len() implies loop_fits(#[trigger] is[k], limit) by {
                if k < rest.len() {
                    assert(rest[k] == is[k]);
                }
            }
        }
        if forall|k: int| 0 <= k < is.len() ==> loop_fits(#[trigger] is[k], limit) {
            assert forall|k: int| 0 <= k < rest.len() implies loop_fits(#[trigger] rest[k], limit) by {
                assert(rest[k] == is[k]);
            }
            assert(loop_fits(is[is.len() - 1], limit));
        }
    }
}

/// Whether a value has the shape that the generator reads.
#[verifier::loop_isolation(false)]
pub fn value_ok(v: &Value) -> (r: bool)
    ensures
        r == value_wf(v@),
    decreases v,
{
    match v {
        Value::CallFun { name, arguments } => {
            let ghost args = arguments_view(arguments@);
            proof {
                lemma_arguments_view(arguments@);
            }
            let n = arguments.len();
            if (str_eq(name.as_str(), "int") || str_eq(name.as_str(), "len")) && n < 1 {
                return false;
            }
            if str_eq(name.as_str(), "at") && n < 2 {
                return false;
            }
            let mut i: usize = 0;
            while i < n
                invariant
                    i <= n,
                    forall|j: int| 0 <= j < i ==> value_wf(#[trigger] args[j].value),
                decreases n - i,
            {
                proof {
                    assert(decreases_to!(v => arguments));
                    assert(decreases_to!(arguments => arguments@[i as int]));
                    assert(decreases_to!(arguments@[i as int] => arguments@[i as int].value));
                    assert(args[i as int] == arguments@[i as int]@);
                }
                if !value_ok(&arguments[i].value) {
                    proof {
                        assert(!value_wf(args[i as int].value));
                    }
                    return false;
                }
                i = i + 1;
            }
            true
        },
        Value::Expression { operators, values } => {
            let ghost vs = values_view(values@);
            proof {
                lemma_values_view(values@);
            }
            let n = values.len();
            if n > operators.len() && n - operators.len() > 1 {
                return false;
            }
            let mut i: usize = 0;
            while i < n
                invariant
                    i <= n,
                    forall|j: int| 0 <= j < i ==> value_wf(#[trigger] vs[j]),
                decreases n - i,
            {
                proof {
                    assert(decreases_to!(v => values));
                    assert(decreases_to!(values => values@[i as int]));
                    assert(vs[i as int] == values@[i as int]@);
                }
                if !value_ok(&values[i]) {
                    proof {
                        assert(!value_wf(vs[i as int]));
                    }
                    return false;
                }
                i = i + 1;
            }
            true
        },
        _ => true,
    }
}

/// A loop whose body holds an instruction of the wrong shape has the wrong shape.
proof fn lemma_loop_not_wf(counter: Seq<char>, start: SpecValue, end: SpecValue, cs: Seq<SpecInstruction>, k: int)
    requires
        0 <= k < cs.len(),
        !instruction_wf(cs[k]),
    ensures
        !instruction_wf(SpecInstruction::Loop { counter, start, end, content: cs }),
{
    let l = SpecInstruction::Loop { counter, start, end, content: cs };
    if instruction_wf(l) {
        assert(l->Loop_content == cs);
        assert(forall|j: int| 0 <= j < cs.len() ==> instruction_wf(#[trigger] cs[j]));
    }
}

/// Whether an instruction has the shape that the generator reads.
#[verifier::loop_isolation(false)]
pub fn instruction_ok(i: &Instruction) -> (r: bool)
    ensures
        r == instruction_wf(i@),
    decreases i,
{
    match i {
        Instruction::CreateVar { value, .. } | Instruction::ReassignVar { value, .. } => value_ok(value),
        Instruction::CallFun { name, arguments } => {
            let ghost args = arguments_view(arguments@);
            proof {
                lemma_arguments_view(arguments@);
            }
            let n = arguments.len();
            if (str_eq(name.as_str(), "print") || str_eq(name.as_str(), "input")) && n < 1 {
                return false;
            }
            if str_eq(name.as_str(), "append") && n < 2 {
                return false;
            }
            let mut k: usize = 0;
            while k < n
                invariant
                    k <= n,
                    forall|j: int| 0 <= j < k ==> value_wf(#[trigger] args[j].value),
                decreases n - k,
            {
                proof {
                    assert(args[k as int] == arguments@[k as int]@);
                }
                if !value_ok(&arguments[k].value) {
                    proof {
                        assert(!value_wf(args[k as int].value));
                    }
                    return false;
                }
                k = k + 1;
            }
            true
        },
        Instruction::Loop { counter, start, end, content } => {
            if !value_ok(start) || !value_ok(end) {
                return false;
            }
            let ghost cs = instructions_view(content@);
            assert(i@ == SpecInstruction::Loop { counter: counter@, start: start@, end: end@, content: cs });
            proof {
                lemma_instructions_view(content@);
            }
            let n = content.len();
            let mut k: usize = 0;
            while k < n
                invariant
                    k <= n,
                    forall|j: int| 0 <= j < k ==> instruction_wf(#[trigger] cs[j]),
                decreases n - k,
            {
                proof {
                    assert(decreases_to!(i => content));
                    assert(decreases_to!(content => content@[k as int]));
                    assert(cs[k as int] == content@[k as int]@);
                }
                if !instruction_ok(&content[k]) {
                    proof {
                        assert(!instruction_wf(cs[k as int]));
                        lemma_loop_not_wf(counter@, start@, end@, cs, k as int);
                    }
                    return false;
                }
                k = k + 1;
            }
            true
        },
        Instruction::Return { .. } => true,
    }
}

/// Whether every instruction of a body has the shape that the generator reads.
pub fn body_ok(body: &Vec<Instruction>) -> (r: bool)
    ensures
        r == instructions_wf(instructions_view(body@)),
{
    let ghost is = instructions_view(body@);
    proof {
        lemma_instructions_view(body@);
    }
    let mut k: usize = 0;
    while k < body.len()
        invariant
            is == instructions_view(body@),
            is.len() == body@.len(),
            k <= is.len(),
            forall|j: int| 0 <= j < is.len() ==> #[trigger] is[j] == body@[j]@,
            forall|j: int| 0 <= j < k ==> instruction_wf(#[trigger] is[j]),
        decreases is.len() - k,
    {
        if !instruction_ok(&body[k]) {
            proof {
                assert(is[k as int] == body@[k as int]@);
            }
            return false;
        }
        k = k + 1;
    }
    true
}

/// Whether a body nests loops at most `limit` deep.
#[verifier::loop_isolation(false)]
pub fn depth_within(body: &Vec<Instruction>, limit: u32) -> (r: bool)
    ensures
        r == (loop_depth(instructions_view(body@)) <= limit),
    decreases body,
{
    let ghost is = instructions_view(body@);
    proof {
        lemma_instructions_view(body@);
        lemma_loop_depth_within(is, limit as nat);
    }
    let mut k: usize = 0;
    while k < body.len()
        invariant
            is == instructions_view(body@),
            is.len() == body@.len(),
            k <= is.len(),
            forall|j: int| 0 <= j < is.len() ==> #[trigger] is[j] == body@[j]@,
            forall|j: int| 0 <= j < k ==> loop_fits(#[trigger] is[j], limit as nat),
        decreases is.len() - k,
    {
        proof {
            assert(is[k as int] == body@[k as int]@);
        }
        match &body[k] {
            Instruction::Loop { content, .. } => {
                proof {
                    assert(decreases_to!(body => body@[k as int]));
                }
                if limit == 0 || !depth_within(content, limit - 1) {
                    proof {
                        assert(!loop_fits(is[k as int], limit as nat));
                    }
                    return false;
                }
            },
            _ => {},
        }
        k = k + 1;
    }
    true
}

} // verus!
