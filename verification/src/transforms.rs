//! IR transforms over the function model of `crate::ir`.

pub mod jump_threading;
pub mod licm;
pub mod tailcall;
