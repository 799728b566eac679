//! Template front end: tag syntaxes, project configuration and the parser
//! that turns template source into a tree of literal runs, expressions and
//! statement blocks.

pub mod text;
pub mod syntax;
pub mod config;
pub mod scan;
pub mod node;
pub mod parser;
pub mod diag;

pub use config::{CompileError, Config, General, RawConfig, RawEscaper, RawSyntax};
pub use diag::ParseError;
pub use node::{Block, BlockDef, CondBranch, Expr, Lit, Loop, Macro, Match, Node, When, Ws};
pub use parser::{parse, split_ws_parts, State};
pub use syntax::{Syntax, WhitespaceHandling};
pub use text::{chars_of, string_of, strip_trailing_newline};
