//! Stubbing of functions that fail to compile: the bookkeeping of function
//! spans per source file and the rewriting of source text that turns each
//! such function into a stub.

pub mod args;
pub mod driver;
pub mod fn_info;
pub mod fn_map;
pub mod path;
pub mod sample;
pub mod stub;
pub mod text;
