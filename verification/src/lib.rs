//! A macro-expansion and directive engine for alias bodies.
//!
//! An alias is a name with a body of text. When the name is invoked with
//! arguments, the body is expanded and run:
//!
//! 1. the positional tokens of the body are replaced by the arguments of the
//!    invocation ([`args`]);
//! 2. the body is cut into shell lines and fenced script blocks ([`segment`]);
//! 3. segment by segment, the nesting of the inline substitutions is
//!    validated ([`nesting`]), the substitutions are resolved from the inside
//!    out ([`inline`], [`repl`]), and the line is classified as a directive
//!    ([`directive`]);
//! 4. the directives take effect in the order of the source ([`exec`]).
//!
//! The library computes and decides; it neither starts a process nor touches
//! the environment, the working directory or a file. A run is a machine
//! ([`exec::Run`]) that answers each event with the next action for its
//! caller to carry out.
//!
//! Every function is verified against a contract over `Seq<char>`: an offset
//! into a text counts characters, never bytes.
pub mod alias;
pub mod args;
pub mod cmd;
pub mod directive;
pub mod encode;
pub mod exec;
pub mod failure;
pub mod inline;
pub mod nesting;
pub mod path;
pub mod regexp;
pub mod repl;
pub mod script;
pub mod segment;
pub mod text;
