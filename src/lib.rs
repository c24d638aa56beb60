//! A table-driven shift/reduce/goto automaton for LALR(1)-style parse tables.

pub mod action;
pub mod tables;
pub mod parser;
