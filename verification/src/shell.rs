//! The shell: its commands and settings, and how it reacts to what is typed.

use std::collections::VecDeque;

use vstd::prelude::*;
use vstd::utf8::*;

use crate::command;
use crate::command::{Args, Command, CommandView, CompleterKind, CompleterView};
use crate::complete;
use crate::error::{Error, ErrorKind};
use crate::history;
use crate::io;
use crate::io::Io;
use crate::keys;
use crate::keys::{Decoded, Encoding, Input, Key, KeyDecoder};
use crate::line::{Line, LineView};
use crate::parse;
use crate::render;
use crate::text;

verus! {

// ---------------------------------------------------------------------------
// The model
// ---------------------------------------------------------------------------

/// The model of a [`Shell`].
#[verifier::ext_equal]
pub struct ShellView<H, C> {
    /// The registered commands, in order.
    pub commands: Seq<CommandView<H, C>>,
    /// The remembered lines, oldest first.
    pub history: Seq<Seq<char>>,
    /// The maximum number of remembered lines.
    pub max_history: nat,
    /// The maximum length of a remembered line, in bytes.
    pub max_history_len: nat,
    /// The maximum length of a typed line, in bytes.
    pub max_line_len: nat,
    /// The prompt.
    pub prompt: Seq<char>,
}

/// The model of a [`Session`].
#[verifier::ext_equal]
pub struct SessionView {
    /// The line being edited.
    pub line: LineView,
    /// The line that was being typed before the history was entered.
    pub draft: Seq<char>,
    /// The history entry that is shown, or the number of entries while none is.
    pub hist_idx: nat,
    /// The tokens of the line entered last.
    pub tokens: Seq<Seq<char>>,
    /// The bytes of the key press that is being read.
    pub keys: Seq<u8>,
    /// How bytes above ASCII are read.
    pub encoding: Encoding,
}

/// What is to be done next.
#[derive(Debug, Clone, Copy, PartialEq, Eq)]
pub enum Next {
    /// Read the next byte.
    Read,
    /// A line was entered: submit it, once the output has been written.
    Submit,
    /// Run the command with this index, with the arguments of the session.
    Run(usize),
    /// The shell has ended.
    Stop(Result<(), Error>),
}

/// What happened while a command was running.
#[derive(Debug, Clone, Copy, PartialEq, Eq)]
pub enum Step {
    /// The command finished.
    Done(Result<(), Error>),
    /// A byte was typed.
    Byte(u8),
    /// The input ended, or failed.
    Eof,
}

impl Step {
    /// What it means to a running command that the transport returned `read` when
    /// it was asked for the one byte `b`: a failure counts as the end.
    pub open spec fn spec_of_read(read: Result<usize, ErrorKind>, b: u8) -> Step {
        match read {
            Ok(n) => if n == 0 {
                Step::Eof
            } else {
                Step::Byte(b)
            },
            Err(_) => Step::Eof,
        }
    }

    /// What came of a read while a command was running: `read` is what the
    /// transport returned for a buffer of one byte, and `b` is what the buffer
    /// holds.
    pub fn of_read(read: Result<usize, ErrorKind>, b: u8) -> (step: Step)
        ensures
            step == Self::spec_of_read(read, b),
    {
        match read {
            Ok(0) => Step::Eof,
            Ok(_) => Step::Byte(b),
            Err(_) => Step::Eof,
        }
    }
}

/// How the run of a command ended.
#[derive(Debug, Clone, Copy, PartialEq, Eq)]
pub enum Outcome {
    /// The command finished.
    Done(Result<(), Error>),
    /// Ctrl-C was typed.
    Interrupted,
    /// The input ended, or failed.
    Eof,
}

/// A session that has just begun: nothing has been typed, and no history entry is
/// shown.
pub open spec fn started<H, C>(shell: ShellView<H, C>, encoding: Encoding) -> SessionView {
    SessionView {
        line: LineView::at_end(Seq::empty()),
        draft: Seq::empty(),
        hist_idx: shell.history.len(),
        tokens: Seq::empty(),
        keys: Seq::empty(),
        encoding,
    }
}

/// The effect of a key other than Tab on a session: the session after it, what
/// is printed, and what comes next.
pub open spec fn key_effect<H, C>(
    shell: ShellView<H, C>,
    s: SessionView,
    key: Key,
) -> (SessionView, Seq<u8>, Next) {
    let n = shell.history.len();
    let prompt = encode_utf8(shell.prompt);
    match key {
        Key::Char(c) => if s.line.byte_len() + encode_scalar(c as u32).len() > shell.max_line_len {
            (s, encode_utf8("\x07"@), Next::Read)
        } else {
            let line = s.line.insert(c);
            (
                SessionView { line, ..s },
                if s.line.after.len() == 0 {
                    encode_scalar(c as u32)
                } else {
                    render::redraw_bytes(shell.prompt, line)
                },
                Next::Read,
            )
        },
        Key::Enter => if text::is_blank(s.line.text()) {
            (
                SessionView {
                    line: LineView::at_end(Seq::empty()),
                    draft: Seq::empty(),
                    hist_idx: n,
                    ..s
                },
                encode_utf8("\r\n"@) + prompt,
                Next::Read,
            )
        } else {
            (s, encode_utf8("\r\n"@), Next::Submit)
        },
        Key::Backspace => drawn_if(shell, s, s.line.backspace(), s.line.before.len() > 0),
        Key::Delete => drawn_if(shell, s, s.line.delete(), s.line.after.len() > 0),
        Key::Left => (
            SessionView { line: s.line.left(), ..s },
            if s.line.before.len() > 0 {
                encode_utf8("\x1b[D"@)
            } else {
                Seq::empty()
            },
            Next::Read,
        ),
        Key::Right => (
            SessionView { line: s.line.right(), ..s },
            if s.line.after.len() > 0 {
                encode_utf8("\x1b[C"@)
            } else {
                Seq::empty()
            },
            Next::Read,
        ),
        Key::Home => (
            SessionView { line: s.line.home(), ..s },
            if s.line.before.len() > 0 {
                render::move_bytes(s.line.before.len(), 0x44)
            } else {
                Seq::empty()
            },
            Next::Read,
        ),
        Key::End => (
            SessionView { line: s.line.end(), ..s },
            if s.line.after.len() > 0 {
                render::move_bytes(s.line.after.len(), 0x43)
            } else {
                Seq::empty()
            },
            Next::Read,
        ),
        Key::Tab => (s, Seq::empty(), Next::Read),
        Key::Up => if n == 0 {
            (s, Seq::empty(), Next::Read)
        } else if s.hist_idx == 0 {
            (s, Seq::empty(), Next::Read)
        } else {
            let line = LineView::at_end(shell.history[s.hist_idx - 1]);
            (
                SessionView {
                    line,
                    draft: if s.hist_idx == n {
                        s.line.text()
                    } else {
                        s.draft
                    },
                    hist_idx: (s.hist_idx - 1) as nat,
                    ..s
                },
                render::redraw_bytes(shell.prompt, line),
                Next::Read,
            )
        },
        Key::Down => if s.hist_idx >= n {
            (s, Seq::empty(), Next::Read)
        } else {
            let line = LineView::at_end(
                if s.hist_idx + 1 == n {
                    s.draft
                } else {
                    shell.history[s.hist_idx as int + 1]
                },
            );
            (
                SessionView { line, hist_idx: s.hist_idx + 1, ..s },
                render::redraw_bytes(shell.prompt, line),
                Next::Read,
            )
        },
        Key::CtrlC => (
            SessionView { line: LineView::at_end(Seq::empty()), hist_idx: n, ..s },
            encode_utf8("^C\r\n"@) + prompt,
            Next::Read,
        ),
        Key::CtrlU => drawn_if(shell, s, LineView::at_end(Seq::empty()), true),
        Key::CtrlW => drawn_if(
            shell,
            s,
            s.line.delete_word(),
            s.line.word_start() < s.line.word_end(),
        ),
        Key::CtrlL => (
            s,
            encode_utf8("\x1b[2J\x1b[H"@) + render::redraw_bytes(shell.prompt, s.line),
            Next::Read,
        ),
    }
}

/// The effect of a key that edits the line and redraws it if it changed.
pub open spec fn drawn_if<H, C>(
    shell: ShellView<H, C>,
    s: SessionView,
    line: LineView,
    changed: bool,
) -> (SessionView, Seq<u8>, Next) {
    (
        SessionView { line, ..s },
        if changed {
            render::redraw_bytes(shell.prompt, line)
        } else {
            Seq::empty()
        },
        Next::Read,
    )
}

/// Whether Tab can turn the session `s` into `t`, and the output `out` into
/// `out2`.
pub open spec fn tab_effect<H, C: Fn(usize, &str) -> Vec<String>>(
    shell: ShellView<H, C>,
    s: SessionView,
    out: Seq<u8>,
    t: SessionView,
    out2: Seq<u8>,
) -> bool {
    if s.line.after.len() > 0 {
        t == s && out2 == out
    } else {
        exists|r: Seq<Seq<char>>|
            #![trigger complete::offers(shell.commands, s.line.text(), r)]
            complete::offers(shell.commands, s.line.text(), r) && t == (SessionView {
                line: complete::completed_line(s.line, r),
                ..s
            }) && out2 == out + complete::completed_bytes(shell.prompt, s.line, r)
    }
}

/// Whether `key` can turn the session `s` into `t` and the output `out` into
/// `out2`, with `next` to follow. Only a custom completer leaves a choice.
pub open spec fn reacts<H, C: Fn(usize, &str) -> Vec<String>>(
    shell: ShellView<H, C>,
    s: SessionView,
    out: Seq<u8>,
    key: Key,
    t: SessionView,
    out2: Seq<u8>,
    next: Next,
) -> bool {
    if key == Key::Tab {
        next == Next::Read && tab_effect(shell, s, out, t, out2)
    } else {
        let e = key_effect(shell, s, key);
        t == e.0 && out2 == out + e.1 && next == e.2
    }
}

/// Whether the outcome `input` of reading a byte can turn the session `s` into
/// `t` and the output `out` into `out2`, with `next` to follow.
pub open spec fn input_effect<H, C: Fn(usize, &str) -> Vec<String>>(
    shell: ShellView<H, C>,
    s: SessionView,
    out: Seq<u8>,
    input: Input,
    t: SessionView,
    out2: Seq<u8>,
    next: Next,
) -> bool {
    match input {
        Input::Eof => t == s && out2 == out && next == Next::Stop(Ok(())),
        Input::Failed(kind) => t == s && out2 == out && next == Next::Stop(Err(Error::Io(kind))),
        Input::Byte(b) => match keys::decode(s.keys.push(b), s.encoding) {
            Decoded::More => t == (SessionView { keys: s.keys.push(b), ..s }) && out2 == out
                && next == Next::Read,
            Decoded::Ignored => t == (SessionView { keys: Seq::empty(), ..s }) && out2 == out
                && next == Next::Read,
            Decoded::Key(key) => reacts(
                shell,
                SessionView { keys: Seq::empty(), ..s },
                out,
                key,
                t,
                out2,
                next,
            ),
        },
    }
}

/// How the run of a command ends when `step` happens, if it does.
pub open spec fn step_outcome(step: Step) -> Option<Outcome> {
    match step {
        Step::Byte(b) => if b == 3 {
            Some(Outcome::Interrupted)
        } else {
            None
        },
        Step::Done(r) => Some(Outcome::Done(r)),
        Step::Eof => Some(Outcome::Eof),
    }
}

/// The byte that is kept for the next line when `step` has happened.
pub open spec fn step_pending(step: Step, pending: Option<u8>) -> Option<u8> {
    match step {
        Step::Byte(b) => if b == 3 {
            pending
        } else {
            Some(b)
        },
        _ => pending,
    }
}

/// The output of a name that no registered command has: that of a built-in, or
/// a complaint.
pub open spec fn builtin_bytes<H, C>(shell: ShellView<H, C>, name: Seq<char>) -> Seq<u8> {
    if name == "help"@ {
        render::help_bytes(shell.commands)
    } else if name == "clear"@ {
        encode_utf8("\x1b[2J\x1b[H"@)
    } else if name == "history"@ {
        render::history_bytes(shell.history)
    } else {
        encode_utf8(name) + encode_utf8(": command not found"@) + io::crlf()
    }
}

/// The name of the command that tokens call for.
pub open spec fn command_name(tokens: Seq<Seq<char>>) -> Seq<char> {
    if tokens.len() > 0 {
        tokens[0]
    } else {
        Seq::empty()
    }
}

/// The shell after `line` has been entered.
pub open spec fn remembered<H, C>(shell: ShellView<H, C>, line: Seq<char>) -> ShellView<H, C> {
    ShellView {
        history: history::pushed(shell.history, line, shell.max_history, shell.max_history_len),
        ..shell
    }
}

/// The session after its line has been entered.
pub open spec fn submitted<H, C>(shell: ShellView<H, C>, s: SessionView) -> SessionView {
    SessionView {
        line: LineView::at_end(Seq::empty()),
        draft: Seq::empty(),
        hist_idx: remembered(shell, s.line.text()).history.len(),
        tokens: parse::tokens(s.line.text()),
        ..s
    }
}

/// What is printed when the run of the command `name` has ended.
pub open spec fn outcome_bytes(name: Seq<char>, outcome: Outcome) -> Seq<u8> {
    match outcome {
        Outcome::Done(Ok(_)) => Seq::empty(),
        Outcome::Done(Err(e)) => encode_utf8(name) + encode_utf8(": "@) + encode_utf8(
            e.spec_message(),
        ) + io::crlf(),
        Outcome::Interrupted => encode_utf8("^C\r\n"@),
        Outcome::Eof => Seq::empty(),
    }
}

// ---------------------------------------------------------------------------
// A session
// ---------------------------------------------------------------------------

/// The state of one run of the shell.
pub struct Session {
    line: Line,
    draft: String,
    hist_idx: usize,
    // Token slots are reused across lines: after the longest line ever entered,
    // tokenization stops allocating.
    tokens: Vec<String>,
    n_tokens: usize,
    decoder: KeyDecoder,
}

impl View for Session {
    type V = SessionView;

    closed spec fn view(&self) -> SessionView {
        SessionView {
            line: self.line@,
            draft: self.draft@,
            hist_idx: self.hist_idx as nat,
            tokens: parse::views(self.tokens@.take(self.n_tokens as int)),
            keys: self.decoder@,
            encoding: self.decoder.spec_encoding(),
        }
    }
}

impl Session {
    /// The parts of the session are well-formed.
    pub closed spec fn wf(&self) -> bool {
        &&& self.line.wf()
        &&& self.n_tokens <= self.tokens.len()
        &&& self.decoder.wf()
    }

    /// The arguments of the line entered last.
    pub fn args(&self) -> (args: Args<'_>)
        requires
            self.wf(),
            self@.tokens.len() > 0,
        ensures
            args@ == self@.tokens.drop_first(),
    {
        let parts = vstd::slice::slice_subrange(self.tokens.as_slice(), 1, self.n_tokens);
        assert(parse::views(parts@) =~= self@.tokens.drop_first());
        Args::new(parts)
    }

    /// The text of the line being edited.
    pub fn line(&self) -> (s: &str)
        requires
            self.wf(),
        ensures
            s@ == self@.line.text(),
    {
        self.line.as_str()
    }
}

// ---------------------------------------------------------------------------
// The shell
// ---------------------------------------------------------------------------

/// The shell.
///
/// `H` is the type of the command handlers, which the shell only carries, and
/// `C` that of the custom completers.
pub struct Shell<H, C> {
    commands: Vec<Command<H, C>>,
    history: VecDeque<String>,
    max_history: usize,
    max_history_len: usize,
    max_line_len: usize,
    prompt: &'static str,
}

impl<H, C> View for Shell<H, C> {
    type V = ShellView<H, C>;

    closed spec fn view(&self) -> ShellView<H, C> {
        ShellView {
            commands: command::command_views(self.commands@),
            history: parse::views(self.history@),
            max_history: self.max_history as nat,
            max_history_len: self.max_history_len as nat,
            max_line_len: self.max_line_len as nat,
            prompt: self.prompt@,
        }
    }
}

impl<H, C: Fn(usize, &str) -> Vec<String>> Default for Shell<H, C> {
    fn default() -> (shell: Self)
        ensures
            shell.wf(),
            shell@ == Self::spec_new(),
    {
        Self::new()
    }
}

impl<H, C: Fn(usize, &str) -> Vec<String>> Shell<H, C> {
    /// No two commands have the same name, and every custom completer takes
    /// every index and partial token.
    pub closed spec fn wf(&self) -> bool {
        &&& command::distinct_names(command::command_views(self.commands@))
        &&& forall|i: int|
            0 <= i < self.commands.len() ==> ((#[trigger] self.commands@[i]).completer matches Some(
                CompleterKind::Custom(c),
            ) ==> complete::total(c))
    }

    /// The names of the commands of a well-formed shell are distinct.
    pub proof fn lemma_distinct(&self)
        requires
            self.wf(),
        ensures
            command::distinct_names(self@.commands),
    {
    }

    /// An empty shell with default settings.
    pub open spec fn spec_new() -> ShellView<H, C> {
        ShellView {
            commands: Seq::empty(),
            history: Seq::empty(),
            max_history: 32,
            max_history_len: 64,
            max_line_len: 128,
            prompt: "embassy> "@,
        }
    }

    /// Create an empty shell with default settings.
    pub fn new() -> (shell: Self)
        ensures
            shell.wf(),
            shell@ == Self::spec_new(),
    {
        let shell = Shell {
            commands: Vec::new(),
            history: VecDeque::new(),
            max_history: 32,
            max_history_len: 64,
            max_line_len: 128,
            prompt: "embassy> ",
        };
        assert(shell@.commands =~= Seq::empty());
        assert(shell@.history =~= Seq::empty());
        shell
    }

    /// Set the prompt string.
    pub fn prompt(&mut self, prompt: &'static str) -> (r: &mut Self)
        ensures
            old(self).wf() ==> r.wf(),
            r@ == (ShellView { prompt: prompt@, ..old(self)@ }),
            *final(self) == *final(r),
    {
        self.prompt = prompt;
        self
    }

    /// Set the maximum number of remembered history entries.
    pub fn max_history(&mut self, n: usize) -> (r: &mut Self)
        ensures
            old(self).wf() ==> r.wf(),
            r@ == (ShellView { max_history: n as nat, ..old(self)@ }),
            *final(self) == *final(r),
    {
        self.max_history = n;
        self
    }

    /// Set the maximum length (in bytes) of a remembered history entry. Longer
    /// lines are truncated (at a character boundary) before being stored.
    /// Defaults to 64; `0` disables history storage of content beyond the empty
    /// string.
    pub fn max_history_len(&mut self, n: usize) -> (r: &mut Self)
        ensures
            old(self).wf() ==> r.wf(),
            r@ == (ShellView { max_history_len: n as nat, ..old(self)@ }),
            *final(self) == *final(r),
    {
        self.max_history_len = n;
        self
    }

    /// Set the maximum length (in bytes) of a line typed at the prompt. Once the
    /// buffer is full, further characters are rejected with a `BEL` (`\x07`).
    /// Defaults to 128.
    pub fn max_line_len(&mut self, n: usize) -> (r: &mut Self)
        ensures
            old(self).wf() ==> r.wf(),
            r@ == (ShellView { max_line_len: n as nat, ..old(self)@ }),
            *final(self) == *final(r),
    {
        self.max_line_len = n;
        self
    }

    /// Register a command.
    ///
    /// `name` is what the user types at the prompt, `help` is the one-line
    /// description shown by `help`, and `handler` is what runs the command. A
    /// command of the same name is replaced.
    pub fn add_command(&mut self, name: &str, help: &'static str, handler: H)
        requires
            old(self).wf(),
        ensures
            final(self).wf(),
            final(self)@ == (ShellView {
                commands: command::registered(
                    old(self)@.commands,
                    CommandView { name: name@, help: help@, handler, completer: None },
                ),
                ..old(self)@
            }),
    {
        self.push_command(Command { name: name.to_owned(), help, handler, completer: None });
    }

    /// Register a command whose first argument is completed from a fixed list of
    /// options (e.g. `led on|off|blink`).
    pub fn add_command_with_options(
        &mut self,
        name: &str,
        help: &'static str,
        options: &'static [&'static str],
        handler: H,
    )
        requires
            old(self).wf(),
        ensures
            final(self).wf(),
            final(self)@ == (ShellView {
                commands: command::registered(
                    old(self)@.commands,
                    CommandView {
                        name: name@,
                        help: help@,
                        handler,
                        completer: Some(CompleterView::Options(parse::str_views(options@))),
                    },
                ),
                ..old(self)@
            }),
    {
        self.push_command(
            Command {
                name: name.to_owned(),
                help,
                handler,
                completer: Some(CompleterKind::Options(options)),
            },
        );
    }

    /// Register a command with a custom completer. The completer is called with
    /// the index of the argument being completed (`>= 1`) and the partial token,
    /// and returns candidate replacements for that token.
    pub fn add_command_with_completer(
        &mut self,
        name: &str,
        help: &'static str,
        handler: H,
        completer: C,
    )
        requires
            old(self).wf(),
            complete::total(completer),
        ensures
            final(self).wf(),
            final(self)@ == (ShellView {
                commands: command::registered(
                    old(self)@.commands,
                    CommandView {
                        name: name@,
                        help: help@,
                        handler,
                        completer: Some(CompleterView::Custom(completer)),
                    },
                ),
                ..old(self)@
            }),
    {
        self.push_command(
            Command {
                name: name.to_owned(),
                help,
                handler,
                completer: Some(CompleterKind::Custom(completer)),
            },
        );
    }

    /// Names of all registered user commands.
    pub fn command_names(&self) -> (v: Vec<&str>)
        ensures
            parse::str_views(v@) == command::names(self@.commands),
    {
        let ghost all = command::names(self@.commands);
        let mut v: Vec<&str> = Vec::new();
        let mut i: usize = 0;
        while i < self.commands.len()
            invariant
                all == command::names(self@.commands),
                i <= self.commands.len(),
                parse::str_views(v@) == all.take(i as int),
            decreases self.commands.len() - i,
        {
            let name = self.commands[i].name.as_str();
            let ghost before = v@;
            v.push(name);
            assert(parse::str_views(v@) =~= parse::str_views(before).push(name@));
            assert(all.take(i + 1) =~= all.take(i as int).push(all[i as int]));
            i += 1;
        }
        assert(all.take(i as int) =~= all);
        v
    }

    /// The command with index `i`.
    pub fn command(&self, i: usize) -> (cmd: &Command<H, C>)
        requires
            i < self@.commands.len(),
        ensures
            cmd@ == self@.commands[i as int],
    {
        &self.commands[i]
    }

    fn push_command(&mut self, cmd: Command<H, C>)
        requires
            old(self).wf(),
            cmd.completer matches Some(CompleterKind::Custom(c)) ==> complete::total(c),
        ensures
            final(self).wf(),
            final(self)@ == (ShellView {
                commands: command::registered(old(self)@.commands, cmd@),
                ..old(self)@
            }),
    {
        let ghost v = self@.commands;
        let found = command::find(&self.commands, cmd.name.as_str());
        proof {
            command::lemma_lookup(v, cmd.name@);
        }
        match found {
            Some(i) => {
                self.commands.set(i, cmd);
                assert(self@.commands =~= v.update(i as int, cmd@));
                proof {
                    assert(v[i as int].name == cmd.name@);
                }
            },
            None => {
                self.commands.push(cmd);
                assert(self@.commands =~= v.push(cmd@));
            },
        }
    }

    /// Remember a line: its first `max_history_len` bytes, cut at a character
    /// boundary, unless they are the last entry already. The oldest entries beyond
    /// `max_history` are dropped.
    pub fn push_history(&mut self, line: &str)
        ensures
            old(self).wf() ==> final(self).wf(),
            final(self)@ == remembered(old(self)@, line@),
    {
        history::push(&mut self.history, line, self.max_history, self.max_history_len);
    }

    /// Rewrite the input line and place the cursor.
    fn redraw(&self, io: &mut Io, line: &Line)
        requires
            line.wf(),
        ensures
            final(io)@ == old(io)@ + render::redraw_bytes(self@.prompt, line@),
    {
        render::redraw(io, self.prompt, line);
    }

    /// Begin a session: print the prompt.
    pub fn start(&self, encoding: Encoding, io: &mut Io) -> (session: Session)
        ensures
            session.wf(),
            session@ == started(self@, encoding),
            final(io)@ == old(io)@ + encode_utf8(self@.prompt),
    {
        io.print(self.prompt);
        let session = Session {
            line: Line::new(),
            draft: String::new(),
            hist_idx: self.history.len(),
            tokens: Vec::new(),
            n_tokens: 0,
            decoder: KeyDecoder::new(encoding),
        };
        assert(session@.tokens =~= Seq::empty());
        assert(session@ =~= started(self@, encoding));
        session
    }

    /// React to a key.
    pub fn on_key(&self, session: &mut Session, key: Key, io: &mut Io) -> (next: Next)
        requires
            self.wf(),
            old(session).wf(),
            old(session)@.hist_idx <= self@.history.len(),
        ensures
            final(session).wf(),
            final(session)@.hist_idx <= self@.history.len(),
            reacts(
                self@,
                old(session)@,
                old(io)@,
                key,
                final(session)@,
                final(io)@,
                next,
            ),
    {
        let ghost s = session@;
        let ghost out = io@;
        let ghost e = key_effect(self@, s, key);
        assert(out + Seq::empty() =~= out);
        match key {
            Key::Char(c) => {
                let width = c.len_utf8();
                let len = session.line.len();
                if width > self.max_line_len || len > self.max_line_len - width {
                    // Line buffer is full: beep and drop the character.
                    io.print("\x07");
                } else {
                    let at_end = session.line.is_at_end();
                    session.line.insert(c);
                    if at_end {
                        proof {
                            let t = session.line@.text();
                            assert(t =~= s.line.text().push(c));
                            let k = s.line.text().len() as int;
                            text::lemma_boundary_of(t, k);
                            assert(t.take(k) =~= s.line.text());
                            assert(t.skip(k) =~= seq![c]);
                            text::lemma_encode_one(c);
                        }
                        io.print(text::split(session.line.as_str(), len).1);
                    } else {
                        self.redraw(io, &session.line);
                    }
                }
                assert(session@ =~= e.0);
            },
            Key::Enter => {
                io.print("\r\n");
                if !text::blank(session.line.as_str()) {
                    return Next::Submit;
                }
                session.line.clear();
                session.draft.clear();
                session.hist_idx = self.history.len();
                io.print(self.prompt);
                assert(session@ =~= e.0);
                assert(io@ =~= out + e.1);
            },
            Key::Backspace => {
                if session.line.backspace() {
                    self.redraw(io, &session.line);
                }
                assert(session@ =~= e.0);
            },
            Key::Delete => {
                if session.line.delete() {
                    self.redraw(io, &session.line);
                }
                assert(session@ =~= e.0);
            },
            Key::Left => {
                if session.line.left() {
                    io.print("\x1b[D");
                }
                assert(session@ =~= e.0);
            },
            Key::Right => {
                if session.line.right() {
                    io.print("\x1b[C");
                }
                assert(session@ =~= e.0);
            },
            Key::Home => {
                let n = session.line.home();
                if n > 0 {
                    render::print_move(io, n, 0x44);
                }
                assert(session@ =~= e.0);
            },
            Key::End => {
                let n = session.line.end();
                if n > 0 {
                    render::print_move(io, n, 0x43);
                }
                assert(session@ =~= e.0);
            },
            Key::Tab => {
                complete::complete(&self.commands, self.prompt, &mut session.line, io);
                proof {
                    if s.line.after.len() > 0 {
                        assert(session@ =~= s);
                    } else {
                        let r = choose|r: Seq<Seq<char>>|
                            #![trigger complete::offers(self@.commands, s.line.text(), r)]
                            complete::offers(self@.commands, s.line.text(), r) && session.line@
                                == complete::completed_line(s.line, r) && io@ == out
                                + complete::completed_bytes(self@.prompt, s.line, r);
                        assert(session@ =~= (SessionView {
                            line: complete::completed_line(s.line, r),
                            ..s
                        }));
                    }
                }
            },
            Key::Up => {
                let n = self.history.len();
                assert(self@.history.len() == n);
                if n > 0 && session.hist_idx > 0 {
                    if session.hist_idx == n {
                        session.draft = session.line.as_str().to_owned();
                    }
                    session.hist_idx = session.hist_idx - 1;
                    let entry = self.history[session.hist_idx].clone();
                    session.line.set(entry);
                    self.redraw(io, &session.line);
                }
                assert(session@ =~= e.0);
            },
            Key::Down => {
                let n = self.history.len();
                assert(self@.history.len() == n);
                if session.hist_idx < n {
                    session.hist_idx = session.hist_idx + 1;
                    let entry = if session.hist_idx == n {
                        session.draft.clone()
                    } else {
                        self.history[session.hist_idx].clone()
                    };
                    session.line.set(entry);
                    self.redraw(io, &session.line);
                }
                assert(session@ =~= e.0);
            },
            Key::CtrlC => {
                session.line.clear();
                session.hist_idx = self.history.len();
                io.print("^C\r\n");
                io.print(self.prompt);
                assert(session@ =~= e.0);
                assert(io@ =~= out + e.1);
            },
            Key::CtrlU => {
                session.line.clear();
                self.redraw(io, &session.line);
                assert(session@ =~= e.0);
            },
            Key::CtrlW => {
                if session.line.delete_word() {
                    self.redraw(io, &session.line);
                }
                assert(session@ =~= e.0);
            },
            Key::CtrlL => {
                io.print("\x1b[2J\x1b[H");
                self.redraw(io, &session.line);
                assert(io@ =~= out + e.1);
            },
        }
        Next::Read
    }

    /// React to what came of reading a byte. Only the end of the input, or a
    /// failure of it, ends the shell.
    pub fn on_input(&self, session: &mut Session, input: Input, io: &mut Io) -> (next: Next)
        requires
            self.wf(),
            old(session).wf(),
            old(session)@.hist_idx <= self@.history.len(),
        ensures
            final(session).wf(),
            final(session)@.hist_idx <= self@.history.len(),
            input_effect(
                self@,
                old(session)@,
                old(io)@,
                input,
                final(session)@,
                final(io)@,
                next,
            ),
    {
        let ghost s = session@;
        match input {
            Input::Eof => Next::Stop(Ok(())),
            Input::Failed(kind) => Next::Stop(Err(Error::Io(kind))),
            Input::Byte(b) => {
                let d = session.decoder.feed(b);
                assert(session@ =~= (SessionView {
                    keys: if d == Decoded::More {
                        s.keys.push(b)
                    } else {
                        Seq::empty()
                    },
                    ..s
                }));
                match d {
                    Decoded::Key(key) => self.on_key(session, key, io),
                    Decoded::More => Next::Read,
                    Decoded::Ignored => Next::Read,
                }
            },
        }
    }

    /// Execute the tokens of a line: name the command to run, or do what the
    /// built-ins do. User commands win over built-ins.
    pub fn exec(&self, tokens: &[String], io: &mut Io) -> (r: Option<usize>)
        ensures
            match command::lookup(self@.commands, command_name(parse::views(tokens@))) {
                Some(i) => r == Some(i as usize) && 0 <= i < self@.commands.len() && i
                    <= usize::MAX && final(io)@ == old(io)@,
                None => r is None && final(io)@ == old(io)@ + builtin_bytes(
                    self@,
                    command_name(parse::views(tokens@)),
                ),
            },
    {
        let ghost out = io@;
        let name: &str = if tokens.len() > 0 {
            tokens[0].as_str()
        } else {
            ""
        };
        proof {
            reveal_strlit("");
            assert(""@ =~= Seq::empty());
        }
        match command::find(&self.commands, name) {
            Some(i) => {
                return Some(i);
            },
            None => {},
        }
        if *name == *"help" {
            render::print_help(io, &self.commands);
        } else if *name == *"clear" {
            io.print("\x1b[2J\x1b[H");
        } else if *name == *"history" {
            render::print_history(io, &self.history);
        } else {
            io.print(name);
            io.println(": command not found");
            assert(io@ =~= out + builtin_bytes(self@, name@));
        }
        None
    }

    /// Submit the line of the session: remember it and execute it. Unless that
    /// takes a command to run, the prompt is printed again.
    pub fn submit(&mut self, session: &mut Session, io: &mut Io) -> (next: Next)
        requires
            old(self).wf(),
            old(session).wf(),
            !text::is_blank(old(session)@.line.text()),
        ensures
            final(self).wf(),
            final(session).wf(),
            final(self)@ == remembered(old(self)@, old(session)@.line.text()),
            final(session)@ == submitted(old(self)@, old(session)@),
            final(session)@.tokens.len() > 0,
            match command::lookup(old(self)@.commands, final(session)@.tokens[0]) {
                Some(i) => next == Next::Run(i as usize) && 0 <= i < old(self)@.commands.len() && i
                    <= usize::MAX && final(io)@ == old(io)@,
                None => next == Next::Read && final(io)@ == old(io)@ + builtin_bytes(
                    final(self)@,
                    final(session)@.tokens[0],
                ) + encode_utf8(old(self)@.prompt),
            },
    {
        let ghost s = session@;
        let ghost t = s.line.text();
        self.push_history(session.line.as_str());
        session.n_tokens = parse::tokenize_into(session.line.as_str(), &mut session.tokens);
        proof {
            parse::lemma_token_of_visible(t);
        }
        let r = self.exec(
            vstd::slice::slice_subrange(session.tokens.as_slice(), 0, session.n_tokens),
            io,
        );
        assert(session.tokens@.subrange(0, session.n_tokens as int) =~= session.tokens@.take(
            session.n_tokens as int,
        ));
        session.line.clear();
        session.draft.clear();
        session.hist_idx = self.history.len();
        assert(self@.history.len() == self.history.len());
        assert(session@ =~= submitted(old(self)@, s));
        match r {
            Some(i) => Next::Run(i),
            None => {
                io.print(self.prompt);
                Next::Read
            },
        }
    }

    /// The run of command number `i` has ended: report an error or an
    /// interruption, and print the prompt again.
    pub fn finish(&self, i: usize, outcome: Outcome, io: &mut Io) -> (next: Next)
        requires
            i < self@.commands.len(),
        ensures
            outcome == Outcome::Eof ==> next == Next::Stop(Ok(())) && final(io)@ == old(io)@,
            outcome != Outcome::Eof ==> next == Next::Read && final(io)@ == old(io)@
                + outcome_bytes(self@.commands[i as int].name, outcome) + encode_utf8(
                self@.prompt,
            ),
    {
        let ghost out = io@;
        match outcome {
            Outcome::Done(Ok(_)) => {
                assert(out + Seq::empty() =~= out);
            },
            Outcome::Done(Err(e)) => {
                io.print(self.commands[i].name.as_str());
                io.print(": ");
                io.println(e.message());
                assert(io@ =~= out + outcome_bytes(self@.commands[i as int].name, outcome));
            },
            Outcome::Interrupted => {
                io.print("^C\r\n");
            },
            Outcome::Eof => {
                return Next::Stop(Ok(()));
            },
        }
        io.print(self.prompt);
        Next::Read
    }
}

/// React to what happened while a command was running: Ctrl-C interrupts it, any
/// other byte is kept for the next line in place of the one kept before, and the
/// end of the command or of the input ends the run.
pub fn run_step(step: Step, pending: &mut Option<u8>) -> (r: Option<Outcome>)
    ensures
        r == step_outcome(step),
        *final(pending) == step_pending(step, *old(pending)),
{
    match step {
        Step::Byte(b) => {
            if b == 3 {
                Some(Outcome::Interrupted)
            } else {
                *pending = Some(b);
                None
            }
        },
        Step::Done(r) => Some(Outcome::Done(r)),
        Step::Eof => Some(Outcome::Eof),
    }
}

} // verus!
