//! Declaration and resolution of command-line options.
//!
//! A caller declares a set of named options (long name, optional short
//! alias, required/optional, single/multiple-valued, default value,
//! boolean-flag semantics, help text), then parses raw process arguments
//! against those declarations. Token-level scanning is delegated to the
//! `getopts` crate; this crate owns the declaration model, the resolution
//! rules (default substitution, multi-value collection, flag-to-boolean
//! coercion) and the synthesis of the brief usage line, all of them
//! verified against the specifications in [`resolve`].

pub mod decl;
pub mod laws;
pub mod options;
pub mod parser;
pub mod resolve;
pub mod scanner;

pub use decl::Arity;
pub use decl::Occurrence;
pub use decl::OptAction;
pub use decl::OptionDef;
pub use options::Options;
pub use parser::OptionParser;
pub use parser::ParseError;
pub use resolve::ResolveError;
