//! Verified core of an interactive command shell: the lexer that splits a
//! line into words under quoting rules, the parser that turns words into a
//! pipeline of command stages with redirections, the decision logic of the
//! built-in commands, the search-path resolution rules, and the plan by
//! which a pipeline's file descriptors are wired.
pub mod builtins;
pub mod complete;
pub mod plan;
pub mod lexer;
pub mod pipeline;
pub mod resolver;
pub mod strutil;

pub use lexer::arg_parse;
pub use lexer::lex;
pub use lexer::Word;
pub use resolver::is_executable;
