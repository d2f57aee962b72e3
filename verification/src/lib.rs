//! A front end for a small ML dialect: a parser from source bytes to syntax
//! trees, and the conversion of those trees into K-normal form.

pub mod syntax;
pub mod id;
pub mod grammar;
pub mod parser;
pub mod k_normal;
