use crate::py2cpp::text::str_eq;
use crate::py2cpp::types::Operator;
use vstd::prelude::*;
use vstd::string::*;

verus! {

/// The operator that a symbol stands for.
pub open spec fn operator_of(s: Seq<char>) -> Operator {
    if s == "+"@ {
        Operator::Plus
    } else if s == "-"@ {
        Operator::Minus
    } else if s == "*"@ {
        Operator::Multiply
    } else if s == "/"@ {
        Operator::Divide
    } else {
        Operator::Unknown
    }
}

/// The C++ symbol of an operator; empty for `Unknown`.
pub open spec fn operator_cpp(o: Operator) -> Seq<char> {
    match o {
        Operator::Plus => "+"@,
        Operator::Minus => "-"@,
        Operator::Multiply => "*"@,
        Operator::Divide => "/"@,
        Operator::Unknown => ""@,
    }
}

impl Operator {
    pub fn str2opr(operator: &str) -> (r: Operator)
        ensures
            r == operator_of(operator@),
    {
        if str_eq(operator, "+") {
            Operator::Plus
        } else if str_eq(operator, "-") {
            Operator::Minus
        } else if str_eq(operator, "*") {
            Operator::Multiply
        } else if str_eq(operator, "/") {
            Operator::Divide
        } else {
            Operator::Unknown
        }
    }

    pub fn opr2cpp(operator: &Operator) -> (r: String)
        ensures
            r@ == operator_cpp(*operator),
    {
        match operator {
            Operator::Plus => String::from_str("+"),
            Operator::Minus => String::from_str("-"),
            Operator::Multiply => String::from_str("*"),
            Operator::Divide => String::from_str("/"),
            Operator::Unknown => {
                proof {
                    reveal_strlit("");
                }
                String::new()
            },
        }
    }
}

/// Reading back the C++ symbol of a known operator gives that operator.
pub proof fn lemma_operator_round_trip(o: Operator)
    requires
        o != Operator::Unknown,
    ensures
        operator_of(operator_cpp(o)) == o,
{
    reveal_strlit("+");
    reveal_strlit("-");
    reveal_strlit("*");
    reveal_strlit("/");
    assert("+"@[0] == '+' && "-"@[0] == '-' && "*"@[0] == '*' && "/"@[0] == '/');
}

/// Each of the four symbols `+ - * /` is written back unchanged.
pub proof fn lemma_symbol_round_trip(s: Seq<char>)
    requires
        s == "+"@ || s == "-"@ || s == "*"@ || s == "/"@,
    ensures
        operator_cpp(operator_of(s)) == s,
{
    reveal_strlit("+");
    reveal_strlit("-");
    reveal_strlit("*");
    reveal_strlit("/");
}

} // verus!
