pub mod append;
pub mod at;
pub mod custom_fun;
pub mod declare;
pub mod for_loop;
pub mod input;
pub mod int_fun;
pub mod len;
pub mod print;
pub mod return_stmt;
