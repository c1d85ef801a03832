use crate::py2cpp::types::Type;
use vstd::prelude::*;
use vstd::string::*;

verus! {

/// The C++ spelling of a type.
pub open spec fn type_cpp(t: Type) -> Seq<char>
    decreases t,
{
    match t {
        Type::Vector(inner) => "vector<"@ + type_cpp(*inner) + ">"@,
        Type::Int => "int"@,
        Type::String => "string"@,
        Type::Void => "void"@,
        Type::Undefined => "undefined"@,
        Type::Generic => "T"@,
    }
}

impl Type {
    /// The C++ spelling of this type, such as `vector<int>`.
    pub fn type2cpp(&self) -> (r: String)
        ensures
            r@ == type_cpp(*self),
        decreases self,
    {
        match self {
            Type::Vector(inner) => {
                let mut r = String::from_str("vector<");
                let inner_cpp = inner.type2cpp();
                r.append(inner_cpp.as_str());
                r.append(">");
                r
            },
            Type::Int => String::from_str("int"),
            Type::String => String::from_str("string"),
            Type::Void => String::from_str("void"),
            Type::Undefined => String::from_str("undefined"),
            Type::Generic => String::from_str("T"),
        }
    }

    /// An equal copy of this type.
    pub fn copy(&self) -> (r: Type)
        ensures
            r == *self,
        decreases self,
    {
        match self {
            Type::Vector(inner) => Type::Vector(Box::new(inner.copy())),
            Type::Int => Type::Int,
            Type::String => Type::String,
            Type::Void => Type::Void,
            Type::Undefined => Type::Undefined,
            Type::Generic => Type::Generic,
        }
    }

    /// Whether two types are the same.
    pub fn same(&self, other: &Type) -> (r: bool)
        ensures
            r == (*self == *other),
        decreases self,
    {
        match (self, other) {
            (Type::Vector(a), Type::Vector(b)) => a.same(b),
            (Type::Int, Type::Int) => true,
            (Type::String, Type::String) => true,
            (Type::Void, Type::Void) => true,
            (Type::Undefined, Type::Undefined) => true,
            (Type::Generic, Type::Generic) => true,
            _ => false,
        }
    }
}

} // verus!
