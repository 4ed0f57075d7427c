//! Registering commands and running them.

use vstd::prelude::*;
use vstd::utf8::*;

use crate::command;
use crate::command::CommandView;
use crate::error::ErrorKind;
use crate::keys::{Input, Key};
use crate::laws;
use crate::line::LineView;
use crate::parse;
use crate::shell;
use crate::shell::{Next, Outcome, SessionView, Shell, ShellView, Step};
use crate::text;

verus! {

/// Registering a command keeps the names distinct.
pub proof fn law_registration_keeps_names_distinct<H, C>(
    v: Seq<CommandView<H, C>>,
    cmd: CommandView<H, C>,
)
    requires
        command::distinct_names(v),
    ensures
        command::distinct_names(command::registered(v, cmd)),
{
    command::lemma_lookup(v, cmd.name);
    let r = command::registered(v, cmd);
    assert forall|i: int, j: int| 0 <= i < j < r.len() implies #[trigger] r[i].name
        != #[trigger] r[j].name by {
        match command::lookup(v, cmd.name) {
            Some(k) => {
                assert(r[i].name == v[i].name);
                assert(r[j].name == v[j].name);
            },
            None => {
                assert(r[i] == v[i]);
                if j < v.len() {
                    assert(r[j] == v[j]);
                }
            },
        }
    }
}

/// A registered command is found under its name, whether or not its name is that
/// of a built-in.
pub proof fn law_registered_command_is_found<H, C>(
    v: Seq<CommandView<H, C>>,
    cmd: CommandView<H, C>,
)
    ensures
        ({
            let r = command::registered(v, cmd);
            &&& command::lookup(r, cmd.name) matches Some(i)
            &&& 0 <= i < r.len()
            &&& r[i] == cmd
        }),
{
    let r = command::registered(v, cmd);
    command::lemma_lookup(v, cmd.name);
    command::lemma_lookup(r, cmd.name);
    match command::lookup(v, cmd.name) {
        Some(k) => {
            assert(r[k] == cmd);
            let i = command::lookup(r, cmd.name)->0;
            assert(i >= k) by {
                if i < k {
                    assert(v[i].name != cmd.name);
                    assert(r[i] == v[i]);
                }
            }
            assert(i <= k) by {
                if i > k {
                    assert(r[k].name != cmd.name);
                }
            }
        },
        None => {
            assert(r[v.len() as int] == cmd);
            let i = command::lookup(r, cmd.name)->0;
            if i < v.len() {
                assert(r[i] == v[i]);
                assert(v[i].name != cmd.name);
            }
        },
    }
}

/// Registering a command does not touch the commands of other names.
pub proof fn law_registration_leaves_others<H, C>(
    v: Seq<CommandView<H, C>>,
    cmd: CommandView<H, C>,
    name: Seq<char>,
)
    requires
        name != cmd.name,
    ensures
        command::lookup(command::registered(v, cmd), name) == command::lookup(v, name),
        command::lookup(v, name) matches Some(i) ==> command::registered(v, cmd)[i] == v[i],
{
    let r = command::registered(v, cmd);
    command::lemma_lookup(v, cmd.name);
    command::lemma_lookup(v, name);
    command::lemma_lookup(r, name);
    assert forall|i: int| 0 <= i < v.len() && v[i].name == name implies r[i] == v[i] by {}
    assert forall|i: int| 0 <= i < r.len() && r[i].name == name implies i < v.len() && r[i]
        == v[i] by {}
    match command::lookup(v, name) {
        Some(i) => {
            assert(r[i] == v[i]);
            match command::lookup(r, name) {
                Some(j) => {
                    assert(r[j].name == name);
                    assert(v[j].name == name);
                },
                None => {
                    assert(r[i].name != name);
                },
            }
        },
        None => {
            match command::lookup(r, name) {
                Some(j) => {
                    assert(r[j].name == name);
                    assert(v[j].name == name);
                },
                None => {},
            }
        },
    }
}

/// A command that is registered again keeps its place; a new one comes last.
pub proof fn law_registration_keeps_order<H, C>(
    v: Seq<CommandView<H, C>>,
    cmd: CommandView<H, C>,
)
    ensures
        command::names(command::registered(v, cmd)) == if command::names(v).contains(cmd.name) {
            command::names(v)
        } else {
            command::names(v).push(cmd.name)
        },
{
    let r = command::registered(v, cmd);
    let names = command::names(v);
    command::lemma_lookup(v, cmd.name);
    match command::lookup(v, cmd.name) {
        Some(i) => {
            assert(names[i] == cmd.name);
            assert(command::names(r) =~= names);
        },
        None => {
            if names.contains(cmd.name) {
                let j = choose|j: int| 0 <= j < names.len() && names[j] == cmd.name;
                assert(v[j].name == cmd.name);
            }
            assert(command::names(r) =~= names.push(cmd.name));
        },
    }
}

/// What is typed into an empty line and entered is what is executed: Enter leaves
/// the line to be submitted, and its tokens are those of what was typed.
pub proof fn law_entered_line_is_executed<H, C>(
    shell: ShellView<H, C>,
    s: SessionView,
    chars: Seq<char>,
)
    requires
        s.line == LineView::at_end(Seq::empty()),
        encode_utf8(chars).len() <= shell.max_line_len,
        !text::is_blank(chars),
    ensures
        ({
            let t = laws::editing::typed(shell, s, chars).0;
            let e = shell::key_effect(shell, t, Key::Enter);
            &&& e == (t, encode_utf8("\r\n"@), Next::Submit)
            &&& shell::submitted(shell, t).tokens == parse::tokens(chars)
            &&& shell::remembered(shell, t.line.text()) == shell::remembered(shell, chars)
        }),
{
    assert(s.line.text() + chars =~= chars);
    laws::editing::law_typing_echoes(shell, s, chars);
    assert(LineView::at_end(chars).text() =~= chars);
}

/// A session only ends with its input: no key does.
pub proof fn law_only_input_ends_a_session<H, C: Fn(usize, &str) -> Vec<String>>(
    shell: ShellView<H, C>,
    s: SessionView,
    out: Seq<u8>,
    input: Input,
    t: SessionView,
    out2: Seq<u8>,
    next: Next,
)
    requires
        shell::input_effect(shell, s, out, input, t, out2, next),
    ensures
        next is Stop <==> !(input is Byte),
        next is Stop ==> t == s && out2 == out,
{
}

/// What a session prints is only ever added to.
pub proof fn law_output_is_appended<H, C: Fn(usize, &str) -> Vec<String>>(
    shell: ShellView<H, C>,
    s: SessionView,
    out: Seq<u8>,
    input: Input,
    t: SessionView,
    out2: Seq<u8>,
    next: Next,
)
    requires
        shell::input_effect(shell, s, out, input, t, out2, next),
    ensures
        out.is_prefix_of(out2),
{
    assert(out =~= out.subrange(0, out.len() as int));
    assert(out2.subrange(0, out.len() as int) =~= out);
}

/// The byte that is kept when these bytes have been typed while a command was
/// running.
pub open spec fn kept(bytes: Seq<u8>, pending: Option<u8>) -> Option<u8>
    decreases bytes.len(),
{
    if bytes.len() == 0 {
        pending
    } else {
        shell::step_pending(Step::Byte(bytes.last()), kept(bytes.drop_last(), pending))
    }
}

/// Of the bytes typed while a command runs, only the most recent one is kept, and
/// none of them ends the run unless it is Ctrl-C.
pub proof fn law_most_recent_byte_is_kept(bytes: Seq<u8>, pending: Option<u8>)
    requires
        forall|i: int| 0 <= i < bytes.len() ==> #[trigger] bytes[i] != 3,
    ensures
        kept(bytes, pending) == if bytes.len() == 0 {
            pending
        } else {
            Some(bytes.last())
        },
        forall|i: int|
            0 <= i < bytes.len() ==> shell::step_outcome(Step::Byte(#[trigger] bytes[i])) is None,
{
    if bytes.len() > 0 {
        assert(bytes[bytes.len() - 1] != 3);
    }
}

/// Ctrl-C interrupts a running command, and is not kept for the next line.
pub proof fn law_ctrl_c_interrupts(bytes: Seq<u8>, pending: Option<u8>)
    ensures
        shell::step_outcome(Step::Byte(3)) == Some(Outcome::Interrupted),
        kept(bytes.push(3), pending) == kept(bytes, pending),
{
    assert(bytes.push(3).drop_last() =~= bytes);
}

/// A name finds the first command that has it, and nothing if none has.
pub proof fn law_lookup<H, C>(v: Seq<CommandView<H, C>>, name: Seq<char>, i: int)
    ensures
        command::lookup(v, name) == Some(i) <==> 0 <= i < v.len() && v[i].name == name && (forall|
            j: int,
        |
            0 <= j < i ==> #[trigger] v[j].name != name),
        command::lookup(v, name) is None <==> forall|j: int|
            0 <= j < v.len() ==> #[trigger] v[j].name != name,
{
    command::lemma_lookup(v, name);
    match command::lookup(v, name) {
        Some(k) => {
            assert(v[k].name == name);
            if 0 <= i < v.len() && v[i].name == name && (forall|j: int|
                0 <= j < i ==> #[trigger] v[j].name != name) {
                assert(k >= i) by {
                    if k < i {
                        assert(v[k].name != name);
                    }
                }
                assert(k <= i) by {
                    if k > i {
                        assert(v[i].name != name);
                    }
                }
            }
        },
        None => {},
    }
}

/// The names of commands are theirs, in their order.
pub proof fn law_names<H, C>(v: Seq<CommandView<H, C>>)
    ensures
        command::names(v).len() == v.len(),
        forall|i: int| 0 <= i < v.len() ==> command::names(v)[i] == (#[trigger] v[i]).name,
{
}

/// The first token names the command; without a token the name is empty.
pub proof fn law_command_name(name: Seq<char>, args: Seq<Seq<char>>)
    ensures
        shell::command_name(seq![name] + args) == name,
        shell::command_name(Seq::<Seq<char>>::empty()).len() == 0,
{
}

/// A new shell has no commands and no history, takes lines of 128 bytes, and
/// remembers 32 lines of 64 bytes.
pub proof fn law_defaults<H, C: Fn(usize, &str) -> Vec<String>>()
    ensures
        ({
            let shell = Shell::<H, C>::spec_new();
            &&& shell.commands.len() == 0
            &&& shell.history.len() == 0
            &&& shell.max_line_len == 128
            &&& shell.max_history == 32
            &&& shell.max_history_len == 64
            &&& shell.prompt == "embassy> "@
        }),
{
}

/// While a command runs, any byte but Ctrl-C lets it run on, and the end of the
/// command or of the input ends the run with nothing kept in place of what was
/// kept before.
pub proof fn law_steps(step: Step, pending: Option<u8>)
    ensures
        step matches Step::Done(r) ==> shell::step_outcome(step) == Some(Outcome::Done(r))
            && shell::step_pending(step, pending) == pending,
        step == Step::Eof ==> shell::step_outcome(step) == Some(Outcome::Eof)
            && shell::step_pending(step, pending) == pending,
        step matches Step::Byte(b) ==> (b != 3 ==> shell::step_outcome(step) is None
            && shell::step_pending(step, pending) == Some(b)) && (b == 3 ==> shell::step_outcome(
            step,
        ) == Some(Outcome::Interrupted) && shell::step_pending(step, pending) == pending),
{
}

/// A read of one byte is that byte, both at the prompt and while a command runs; a
/// read of none is the end of the input; and a failure ends a session with its
/// error, and a run like the end of the input.
pub proof fn law_reads(b: u8, kind: ErrorKind)
    ensures
        Input::spec_of_read(Ok(1), b) == Input::Byte(b),
        Input::spec_of_read(Ok(0), b) == Input::Eof,
        Input::spec_of_read(Err(kind), b) == Input::Failed(kind),
        Step::spec_of_read(Ok(1), b) == Step::Byte(b),
        Step::spec_of_read(Ok(0), b) == Step::Eof,
        Step::spec_of_read(Err(kind), b) == Step::Eof,
{
}

} // verus!
