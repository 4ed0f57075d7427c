//! What holds of the shell as a whole.

pub mod calls;
pub mod completion;
pub mod dispatch;
pub mod editing;
pub mod history;
pub mod keys;
pub mod output;
pub mod screen;
pub mod session;
pub mod tokens;
pub mod words;
