pub mod chance;
pub mod code;
pub mod constants;
pub mod context;
pub mod infer;
pub mod instruction;
pub mod copy;
pub mod instructions;
pub mod library;
pub mod operator;
pub mod pattern;
pub mod text;
pub mod ty;
pub mod types;
pub mod value;
pub mod wf;
