//! Tokens and the cursor that walks them.

pub mod tok_iter;
pub mod tokenize;
pub mod tokens;
