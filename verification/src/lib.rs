//! The core of a tiny interactive shell in the spirit of bash, for serial
//! consoles.
//!
//! The core decides; it performs no input or output itself. A front end feeds it
//! what comes from the terminal, writes out what it prints, and runs the command
//! handlers:
//!
//! * [`Shell::start`] begins a session and prints the prompt.
//! * [`Shell::on_input`] takes the outcome of reading one byte. Bytes are decoded
//!   into keys ([`keys`]), keys edit the line ([`line`]), Tab completes it
//!   ([`complete`]), Up and Down walk the history ([`history`]).
//! * [`Shell::submit`] remembers an entered line, splits it into tokens
//!   ([`parse`]) and executes it: a built-in at once, a registered command by
//!   naming it.
//! * [`run_step`] decides what a byte typed during a command means, and
//!   [`Shell::finish`] reports how the command ended.
//!
//! All output goes to an [`Io`], as bytes. Each function states what it does as a
//! relation between models: a line is the text before and after the cursor, a
//! history a sequence of strings, output a sequence of bytes. [`laws`] holds what
//! follows for the shell as a whole.

#![allow(unused_imports)]

pub mod command;
pub mod complete;
pub mod error;
pub mod history;
pub mod io;
pub mod keys;
pub mod laws;
pub mod line;
pub mod parse;
pub mod render;
pub mod shell;
pub mod text;
pub mod util;

pub use command::Args;
pub use error::{Error, ErrorKind};
pub use io::Io;
pub use keys::{Encoding, Input, Key};
pub use shell::{run_step, Next, Outcome, Session, Shell, Step};
