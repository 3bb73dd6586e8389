//! Named-wildcard templates: match a string against a template of `{name}` and
//! `{name,constraint}` placeholders, and render templates from the values found.
pub mod engine;
pub mod scanner;
pub mod wildcard;
pub mod workflow;
