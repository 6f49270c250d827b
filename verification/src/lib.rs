//! A reader for grammars in Backus-Naur form.
//!
//! A document holds rule blocks with an empty line between them. A block
//! gives a name, the operator `::=` and alternatives with `|` between them.
//! An alternative is a quoted literal, a reference `<name>` to a rule that an
//! earlier block defines, or several such symbols with whitespace between
//! them. `grammar::BNF::parse` reads a document into its rules.

pub mod chars;
pub mod grammar;
pub mod laws;
pub mod parser;
pub mod pattern;
pub mod references;
pub mod results;
pub mod shape;
pub mod syntax;
pub mod text;
