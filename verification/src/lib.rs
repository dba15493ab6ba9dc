//! A small grammar-expansion engine: numbered rules (a literal character, a
//! sequence of rule references, or an alternation of sequences) are expanded
//! into a pattern in a regular-expression mini-language, and candidate
//! messages are tested for full-string membership in the language of rule 0.

pub mod errors;
pub mod expand;
pub mod laws;
pub mod matcher;
pub mod store;
pub mod subst;
pub mod text;
