//! A byte-oriented interpreter for an eight-instruction tape language,
//! with its execution rules stated as specifications and proved.
pub mod brackets;
pub mod error;
pub mod laws;
pub mod machine;
pub mod run;
pub mod sanitize;
