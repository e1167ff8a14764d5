//! Recursive search for files by extension: the matching rule and the
//! command dispatch, with the directory walk and argument reading left to the
//! program around the library.
pub mod command;
pub mod filter;
pub mod scan;
