//! A transpiler from a small subset of Python to C++.
pub mod py2cpp;
