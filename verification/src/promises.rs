//! What holds of the library as a whole, stated over what goes in and what
//! comes out.
//!
//! The contracts elsewhere say what each function returns. The laws here say
//! what that amounts to for someone who sees only the file, the command line
//! and the result.

pub mod commands;
pub mod findings;
pub mod names;
pub mod numbers;
pub mod recipes;
pub mod reports;
pub mod requests;
pub mod runs;
pub mod texts;
