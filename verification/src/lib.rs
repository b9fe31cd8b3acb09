//! Command-line invocation surface of a character-to-font lookup tool.
//!
//! The crate models the tool's command line: the recognized boolean flags
//! (`--verbose`/`-v`, `--preview`/`-p`, `--tui`/`-t`), the help and version
//! switches, and the one required positional token, which must denote exactly
//! one Unicode scalar value.  Parsing a raw token list either yields a fully
//! validated [`args::Args`] value, a request for the help or version text, or
//! a descriptive error.  Reading the process arguments, printing text, and
//! choosing exit codes are left to the surrounding program.

pub mod args;
pub mod one_char;
