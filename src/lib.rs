//! Reading a text file as a sequence of lines: the splitting of text into
//! lines, and the decisions taken after the open and read steps. The file
//! system calls themselves are made by the caller, which hands the outcomes
//! in as plain values.

pub mod lines;
pub mod outcome;
