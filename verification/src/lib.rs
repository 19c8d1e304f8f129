//! Front half of a small ahead-of-time compiler: located diagnostics, a token
//! cursor, two-tier symbol tables and a single-pass engine that parses a token
//! stream and emits an in-memory module of straight-line functions.
//!
//! A text is read in these steps:
//!
//! - [`inclusion`] finds the files a text asks for and puts them in;
//! - [`source`] holds the text and says where in it a failure lies, with
//!   [`lines`] and [`excerpt`] to count lines and to show them;
//! - [`tokens`] splits the text into tokens and walks them;
//! - [`compiler`] reads declarations off the tokens, binds names in the
//!   tables of [`symbols`] and emits into a module of [`ir`].
//!
//! [`grammar`] says, as functions of the token sequence, what each construct
//! of the language is and what it emits; the engine is proved to compute
//! just that. [`theorems`] and [`scoping`] hold what follows for every unit.

pub mod compiler;
pub mod excerpt;
pub mod grammar;
pub mod inclusion;
pub mod ir;
pub mod lines;
pub mod scoping;
pub mod source;
pub mod symbols;
pub mod text;
pub mod theorems;
pub mod tokens;
