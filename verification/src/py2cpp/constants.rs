//! The patterns that recognise the supported Python constructs.
use crate::py2cpp::text::str_eq;
use vstd::prelude::*;

verus! {

// filters
pub const COMMENTS: &'static str = r"(?m)\s*(#.*)?$";
pub const PARAMS_MULTILINE: &'static str = r"(?m)\([^)]*\n[^)]*\)";
pub const ARRAY_MULTILINE: &'static str = r"(?m)\[[^\]]*\n[^\]]*\]";
// functions
pub const HEAD_DEC_FUN: &'static str = r"(?m)def\s([a-zA-Z][a-zA-Z_-]*)\(((\s*([a-zA-Z][a-zA-Z0-9]*)\s*,?)*)\)\s*:";
pub const DEC_FUN: &'static str = r"(?m)def\s[a-zA-Z][a-zA-Z_-]*\(.*\)\s*:\n((\s{4,}.*\n)*)";
pub const PARAMS: &'static str = r"[a-zA-Z][a-zA-Z0-9]*";
pub const INSTRUCTIONS: &'static str = r"(?m)(for.*\n((\s{4,}.*\n?)*)|(.*))\n";
pub const SHIFT_LEFT: &'static str = r"(?m)\s{4}(.*)\n?";
pub const MAIN: &'static str = r"(?m)^(\S{1}|\S{2}|[^d\s][^e][^f]\S.*)$";
// data types
pub const INTEGER: &'static str = r"^[+-]?\s*(\d+)$";
pub const STRING: &'static str = r##"^"[a-zA-Z0-9: ]*"$"##;
pub const VECTOR: &'static str = r"^\[\s*\]$";
pub const VARIABLE: &'static str = r"^[a-zA-Z][a-zA-Z0-9]*$";
// instructions
pub const PRINT: &'static str = r##"^print\s*\((.*)\)[^"]*$"##;
pub const MESSAGES: &'static str = r##"("[ a-zA-Z0-9: ]+"|[a-zA-Z][a-zA-Z0-9]*),?"##;
pub const INPUT: &'static str = r##"input\s*\(\s*(.*)\s*\)"##;
pub const FUNCTION: &'static str = r##"^([a-zA-Z][a-zA-Z0-9]*)\s*\((.*)\)[^"]*$"##;
pub const ARGUMENTS: &'static str = r##"([+-]?\s*\d+|"[ a-zA-Z0-9: ]+"|[a-zA-Z][a-zA-Z0-9]*(\(.*\))?),?"##;
pub const DECLARE: &'static str = r##"(?m)^([a-zA-Z][a-zA-Z0-9]*)\s*=\s*(.*)$"##;
pub const EXPRESSION: &'static str = r##"^((\d+|[a-zA-Z][a-zA-Z0-9]*\s*(\[.*\])?)\s*[+\-/*])+\s*(\d+|[a-zA-Z][a-zA-Z0-9]*\s*(\[.*\])?)$"##;
pub const VALUE: &'static str = r##"\s*(\d+|[a-zA-Z][a-zA-Z0-9]*(\s*\[.*\])?)\s*"##;
pub const OPERATOR: &'static str = r##"[+\-/*]"##;
pub const INT_FUN: &'static str = r##"^int\s*\(\s*(.*)\s*\)$"##;
pub const LOOP: &'static str = r"(?m)for\s*([a-zA-Z][a-zA-Z0-9]*)\s*in\s*range\s*\(\s*(\S*)\s*,\s*(\S*|.*)\s*\)\s*:\n((.*\n?)*)";
pub const LEN: &'static str = r"^\s*len\s*\(\s*(\S*)\s*\)\s*";
pub const AT: &'static str = r"^([a-zA-Z][a-zA-Z0-9]*)\s*\[\s*(\d+|[a-zA-Z][a-zA-Z0-9]*)\s*\]$";
pub const APPEND: &'static str = r"^([a-zA-Z][a-zA-Z0-9]*)\.append\(\s*(\S*)\s*\)\s*$";
pub const RETURN: &'static str = r"^return\s*(\S*)$";

/// The functions that the transpiler handles itself rather than as calls of
/// functions of the program.
pub open spec fn is_native(name: Seq<char>) -> bool {
    name == "print"@ || name == "input"@ || name == "int"@ || name == "len"@ || name == "append"@
        || name == "at"@
}

pub fn native(name: &str) -> (r: bool)
    ensures
        r == is_native(name@),
{
    str_eq(name, "print") || str_eq(name, "input") || str_eq(name, "int") || str_eq(name, "len")
        || str_eq(name, "append") || str_eq(name, "at")
}

} // verus!
