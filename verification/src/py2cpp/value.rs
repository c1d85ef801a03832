use crate::py2cpp::constants::{AT, INTEGER, OPERATOR, VALUE, VARIABLE};
use crate::py2cpp::context::{Context, SpecContext};
use crate::py2cpp::instruction::instruction_value;
use crate::py2cpp::instructions::at::{at_cpp, at_parse};
use crate::py2cpp::operator::operator_of;
use crate::py2cpp::pattern::{captures_all, group, group_of, is_match, regex_captures_all, regex_is_match};
use crate::py2cpp::instructions::custom_fun::custom_cpp;
use crate::py2cpp::instructions::int_fun::int_cpp;
use crate::py2cpp::instructions::len::len_cpp;
use crate::py2cpp::instructions::{at, custom_fun, int_fun, len};
use crate::py2cpp::operator::operator_cpp;
use crate::py2cpp::text::str_eq;
use crate::py2cpp::types::{
    Argument, Instruction, Operator, SpecArgument, SpecValue, Value, arguments_view,
    lemma_arguments_view, lemma_instructions_view, lemma_values_view, lemma_values_view_push,
    values_view,
};
use crate::py2cpp::wf::{value_wf};
use vstd::prelude::*;
use vstd::string::*;

verus! {

/// One term of an expression: a number, a variable, or an element of a
/// vector; `None` where the element is read of a vector that is not in scope,
/// and such a term is left out.
pub open spec fn exp_term(ctx: SpecContext, text: Seq<char>) -> Option<SpecValue> {
    if regex_is_match(INTEGER@, text) {
        Some(SpecValue::ConstValue(text))
    } else if regex_is_match(VARIABLE@, text) {
        Some(SpecValue::UseVar(text))
    } else if regex_is_match(AT@, text) {
        match at_parse(ctx, text) {
            Ok(Some((is, _))) => Some(instruction_value(is[0])),
            _ => None,
        }
    } else {
        Some(SpecValue::Empty)
    }
}

/// The terms read from the first `n` matches of `VALUE`.
pub open spec fn exp_terms(ctx: SpecContext, caps: Seq<Seq<Option<Seq<char>>>>, n: nat) -> Seq<SpecValue>
    decreases n,
{
    if n == 0 || n > caps.len() {
        Seq::empty()
    } else {
        let before = exp_terms(ctx, caps, (n - 1) as nat);
        match exp_term(ctx, group_of(caps[n - 1], 1)) {
            Some(v) => before.push(v),
            None => before,
        }
    }
}

/// The operators of an expression, one for each match of `OPERATOR`, in order.
pub open spec fn exp_operators(caps: Seq<Seq<Option<Seq<char>>>>) -> Seq<Operator> {
    Seq::new(caps.len(), |k: int| operator_of(group_of(caps[k], 0)))
}

/// An arithmetic expression: its operators and its terms, each read apart.
pub open spec fn exp_value(ctx: SpecContext, content: Seq<char>) -> SpecValue {
    let values = regex_captures_all(VALUE@, content);
    SpecValue::Expression {
        operators: exp_operators(regex_captures_all(OPERATOR@, content)),
        values: exp_terms(ctx, values, values.len()),
    }
}

/// The C++ form of a call used as a value.
pub open spec fn call_cpp(name: Seq<char>, args: Seq<SpecArgument>) -> Seq<char> {
    if name == "int"@ {
        int_cpp(args[0])
    } else if name == "len"@ {
        len_cpp(args[0])
    } else if name == "at"@ {
        at_cpp(name, args)
    } else {
        custom_cpp(name, args, false)
    }
}

/// The C++ form of one term of an expression.
pub open spec fn term_cpp(v: SpecValue) -> Seq<char> {
    match v {
        SpecValue::ConstValue(d) => d,
        SpecValue::UseVar(d) => d,
        SpecValue::CallFun { name, arguments } => call_cpp(name, arguments),
        _ => Seq::empty(),
    }
}

/// The first `n` terms of an expression joined by their operators.
pub open spec fn exp_cpp(operators: Seq<Operator>, values: Seq<SpecValue>, n: nat) -> Seq<char>
    decreases n,
{
    if n == 0 {
        Seq::empty()
    } else if n == 1 {
        term_cpp(values[0])
    } else {
        exp_cpp(operators, values, (n - 1) as nat) + " "@ + operator_cpp(operators[n - 2]) + " "@
            + term_cpp(values[n - 1])
    }
}

/// Writes a call used as a value.
pub fn call2cpp(name: &String, arguments: &Vec<Argument>) -> (r: String)
    requires
        value_wf(SpecValue::CallFun { name: name@, arguments: arguments_view(arguments@) }),
    ensures
        r@ == call_cpp(name@, arguments_view(arguments@)),
{
    proof {
        lemma_arguments_view(arguments@);
    }
    if str_eq(name.as_str(), "int") {
        int_fun::code2cpp(&arguments[0])
    } else if str_eq(name.as_str(), "len") {
        len::code2cpp(&arguments[0])
    } else if str_eq(name.as_str(), "at") {
        at::code2cpp(name, arguments)
    } else {
        custom_fun::code2cpp(name, arguments, false)
    }
}

impl Value {
    /// Reads an arithmetic expression into its operators and its terms.
    #[verifier::loop_isolation(false)]
    pub fn exp2value(context: &mut Context, content: &str) -> (r: Value)
        ensures
            *final(context) == *old(context),
            r@ == exp_value(old(context)@, content@),
    {
        let caps_opr = captures_all(OPERATOR, content);
        let caps_val = captures_all(VALUE, content);
        let ghost ops = regex_captures_all(OPERATOR@, content@);
        let ghost vals = regex_captures_all(VALUE@, content@);
        let mut operators: Vec<Operator> = Vec::new();
        let mut i: usize = 0;
        while i < caps_opr.len()
            invariant
                caps_opr.deep_view() == ops,
                i <= ops.len(),
                operators@ =~= exp_operators(ops).take(i as int),
            decreases ops.len() - i,
        {
            let text = group(&caps_opr[i], 0);
            proof {
                assert(caps_opr.deep_view()[i as int] == caps_opr@[i as int].deep_view());
            }
            operators.push(Operator::str2opr(text.as_str()));
            i = i + 1;
        }
        proof {
            assert(exp_operators(ops).take(ops.len() as int) =~= exp_operators(ops));
        }
        let mut values: Vec<Value> = Vec::new();
        let mut j: usize = 0;
        while j < caps_val.len()
            invariant
                *context == *old(context),
                caps_val.deep_view() == vals,
                j <= vals.len(),
                values_view(values@) == exp_terms(old(context)@, vals, j as nat),
            decreases vals.len() - j,
        {
            let text = group(&caps_val[j], 1);
            proof {
                assert(caps_val.deep_view()[j as int] == caps_val@[j as int].deep_view());
                assert(text@ == group_of(vals[j as int], 1));
            }
            let term: Option<Value> = if is_match(INTEGER, text.as_str()) {
                Some(Value::ConstValue(text))
            } else if is_match(VARIABLE, text.as_str()) {
                Some(Value::UseVar(text))
            } else if is_match(AT, text.as_str()) {
                match at::py2code(context, text.as_str()) {
                    Ok(Some((instructions, _))) => {
                        proof {
                            lemma_instructions_view(instructions@);
                        }
                        Some(Instruction::instruc2value(&instructions[0]))
                    },
                    _ => None,
                }
            } else {
                Some(Value::Empty)
            };
            match term {
                Some(v) => {
                    proof {
                        lemma_values_view_push(values@, v);
                    }
                    values.push(v);
                },
                None => {},
            }
            j = j + 1;
        }
        Value::Expression { operators, values }
    }

    /// The C++ form of an expression: its terms with their operators between them.
    pub fn exp2cpp(operators: &Vec<Operator>, values: &Vec<Value>) -> (r: String)
        requires
            values@.len() <= operators@.len() + 1,
            forall|i: int| 0 <= i < values@.len() ==> value_wf(#[trigger] values_view(values@)[i]),
        ensures
            r@ == exp_cpp(operators@, values_view(values@), values@.len() as nat),
    {
        let ghost vs = values_view(values@);
        proof {
            lemma_values_view(values@);
        }
        let mut result = String::new();
        proof {
            reveal_strlit("");
            assert(result@ == exp_cpp(operators@, vs, 0));
        }
        let mut index: usize = 0;
        while index < values.len()
            invariant
                vs == values_view(values@),
                vs.len() == values@.len(),
                forall|i: int| 0 <= i < values@.len() ==> #[trigger] vs[i] == values@[i]@,
                forall|i: int| 0 <= i < values@.len() ==> value_wf(#[trigger] vs[i]),
                values@.len() <= operators@.len() + 1,
                index <= values@.len(),
                result@ == exp_cpp(operators@, vs, index as nat),
            decreases values@.len() - index,
        {
            proof {
                assert(vs[index as int] == values@[index as int]@);
                assert(value_wf(vs[index as int]));
            }
            let text = match &values[index] {
                Value::ConstValue(value) | Value::UseVar(value) => value.clone(),
                Value::CallFun { name, arguments } => call2cpp(name, arguments),
                _ => String::new(),
            };
            if index == 0 {
                result.append(text.as_str());
                proof {
                    assert(result@ =~= exp_cpp(operators@, vs, 1));
                }
            } else {
                result.append(" ");
                let op = Operator::opr2cpp(&operators[index - 1]);
                result.append(op.as_str());
                result.append(" ");
                result.append(text.as_str());
            }
            index = index + 1;
        }
        result
    }
}

} // verus!
