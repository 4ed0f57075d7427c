//! What calls of the shell's functions do, said of the calls themselves.

use std::collections::VecDeque;

use vstd::prelude::*;
use vstd::utf8::*;

use crate::command;
use crate::command::{Args, Command, CommandView, CompleterView};
use crate::complete;
use crate::error::{Error, ErrorKind};
use crate::history;
use crate::io::Io;
use crate::keys;
use crate::keys::{Decoded, Encoding, Input, Key, KeyDecoder};
use crate::laws;
use crate::line::Line;
use crate::parse;
use crate::render;
use crate::shell;
use crate::shell::{Next, Outcome, Session, Shell, ShellView, Step};

verus! {

// ---------------------------------------------------------------------------
// Tokenizing
// ---------------------------------------------------------------------------

/// A line of words with single blanks between them, each written in any way that
/// spells it, is split into these words, by both tokenizers.
pub proof fn law_tokenizers_read_words_back(
    line: &str,
    r: Vec<String>,
    slots: &mut Vec<String>,
    n: usize,
    forms: Seq<Seq<char>>,
    ws: Seq<Seq<char>>,
)
    requires
        call_ensures(parse::tokenize, (line,), r),
        call_ensures(parse::tokenize_into, (line, slots), n),
        line@ == command::joined(forms),
        forms.len() == ws.len(),
        forall|i: int| 0 <= i < ws.len() ==> laws::tokens::spells(#[trigger] forms[i], ws[i]),
    ensures
        r@.len() == ws.len(),
        n == ws.len(),
        n <= final(slots)@.len(),
        forall|i: int| 0 <= i < ws.len() ==> (#[trigger] r@[i])@ == ws[i],
        forall|i: int| 0 <= i < ws.len() ==> (#[trigger] final(slots)@[i])@ == ws[i],
{
    laws::tokens::law_spelled_words_are_read_back(forms, ws);
    let v = parse::views(r@);
    assert(v == ws);
    assert forall|i: int| 0 <= i < ws.len() implies (#[trigger] r@[i])@ == ws[i] by {
        assert(v[i] == r@[i]@);
    }
    let head = final(slots)@.take(n as int);
    let u = parse::views(head);
    assert(u == ws);
    assert(u.len() == head.len());
    assert forall|i: int| 0 <= i < ws.len() implies (#[trigger] final(slots)@[i])@ == ws[i] by {
        assert(u[i] == head[i]@);
    }
}

/// The tokens of a line are the same for both tokenizers, whatever stood in the
/// slots before.
pub proof fn law_tokenizers_agree(line: &str, r: Vec<String>, slots: &mut Vec<String>, n: usize)
    requires
        call_ensures(parse::tokenize, (line,), r),
        call_ensures(parse::tokenize_into, (line, slots), n),
    ensures
        n == r@.len(),
        forall|i: int| 0 <= i < n ==> (#[trigger] final(slots)@[i])@ == r@[i]@,
{
    let v = parse::views(r@);
    let head = final(slots)@.take(n as int);
    let u = parse::views(head);
    assert(u == v);
    assert(u.len() == head.len());
    assert forall|i: int| 0 <= i < n implies (#[trigger] final(slots)@[i])@ == r@[i]@ by {
        assert(u[i] == head[i]@);
        assert(v[i] == r@[i]@);
    }
}

/// The common prefix of strings is the longest prefix that they share, and empty
/// without strings.
pub proof fn law_common_prefix_call(items: &[&str], r: &str, c: Seq<char>)
    requires
        call_ensures(parse::common_prefix, (items,), r),
    ensures
        complete::is_longest_common(parse::str_views(items@), c) ==> r@ == c,
        items@.len() > 0 ==> complete::is_longest_common(parse::str_views(items@), r@),
        items@.len() == 0 ==> r@.len() == 0,
{
    let v = parse::str_views(items@);
    if complete::is_longest_common(v, c) {
        complete::lemma_longest_common(v, c);
    }
    if v.len() > 0 {
        laws::completion::law_longest_common_exists(v);
    }
}

/// The arguments of a command are the tokens behind its name, and joined they have
/// single blanks between them.
pub proof fn law_arguments(session: &Session, args: Args<'_>, rest: String)
    requires
        call_ensures(Session::args, (session,), args),
        call_ensures(Args::rest, (&args,), rest),
    ensures
        args@ == session@.tokens.skip(1),
        rest@ == command::joined(session@.tokens.skip(1)),
{
    assert(session@.tokens.drop_first() =~= session@.tokens.skip(1));
}

// ---------------------------------------------------------------------------
// Completion
// ---------------------------------------------------------------------------

/// Completion with two or more candidates that begin with the partial token puts
/// the longest prefix that they share in the place of the token, whatever the
/// length of the token, and lists them before the line is drawn again.
pub proof fn law_complete_with_several(
    prompt: &str,
    line: &mut Line,
    io: &mut Io,
    candidates: &[&str],
    head: Seq<char>,
    token: Seq<char>,
    c: Seq<char>,
)
    requires
        call_ensures(complete::complete_with, (prompt, line, io, candidates), ()),
        complete::ends_in(old(line)@.text(), head, token),
        candidates@.len() >= 2,
        forall|i: int|
            0 <= i < candidates@.len() ==> token.is_prefix_of(
                #[trigger] parse::str_views(candidates@)[i],
            ),
        complete::is_longest_common(parse::str_views(candidates@), c),
    ensures
        final(line)@.text() == head + c,
        old(line)@.after.len() == 0 ==> final(line)@.after.len() == 0,
        final(io)@ == old(io)@ + (seq![13u8, 10u8] + complete::listing(
            parse::str_views(candidates@),
        ) + seq![13u8, 10u8] + render::redraw_bytes(prompt@, final(line)@)),
{
    laws::session::lemma_literals();
    complete::lemma_inserts_common(old(line)@, parse::str_views(candidates@), head, token, c);
}

/// Completion with one candidate puts it in the place of the partial token, with a
/// blank behind it; without a candidate nothing happens.
pub proof fn law_complete_with_one_or_none(
    prompt: &str,
    line: &mut Line,
    io: &mut Io,
    candidates: &[&str],
    head: Seq<char>,
    token: Seq<char>,
)
    requires
        call_ensures(complete::complete_with, (prompt, line, io, candidates), ()),
        complete::ends_in(old(line)@.text(), head, token),
    ensures
        candidates@.len() == 1 ==> final(line)@.before == head + candidates@[0]@ + seq![' ']
            && final(line)@.after.len() == 0 && final(io)@ == old(io)@ + render::redraw_bytes(
            prompt@,
            final(line)@,
        ),
        candidates@.len() == 0 ==> final(line)@ == old(line)@ && final(io)@ == old(io)@,
{
    complete::lemma_ends_in(old(line)@.text(), head, token);
    assert(old(io)@ + Seq::<u8>::empty() =~= old(io)@);
}

// ---------------------------------------------------------------------------
// Keys on a session
// ---------------------------------------------------------------------------

/// A call of `on_key` does what the key does: whatever holds of the effect of a
/// key holds of the call.
pub proof fn law_on_key_call<H, C: Fn(usize, &str) -> Vec<String>>(
    sh: &Shell<H, C>,
    session: &mut Session,
    key: Key,
    io: &mut Io,
    next: Next,
)
    requires
        call_ensures(Shell::<H, C>::on_key, (sh, session, key, io), next),
    ensures
        shell::reacts(sh@, old(session)@, old(io)@, key, final(session)@, final(io)@, next),
{
}

/// A call with Backspace removes exactly the character before the cursor, and what
/// stands at the cursor and behind it stays there.
pub proof fn law_backspace_call<H, C: Fn(usize, &str) -> Vec<String>>(
    sh: &Shell<H, C>,
    session: &mut Session,
    io: &mut Io,
    next: Next,
)
    requires
        call_ensures(Shell::<H, C>::on_key, (sh, session, Key::Backspace, io), next),
        old(session)@.line.before.len() > 0,
    ensures
        final(session)@.line.before == old(session)@.line.before.take(
            old(session)@.line.before.len() - 1,
        ),
        final(session)@.line.after == old(session)@.line.after,
        laws::session::only_line_changes(old(session)@, final(session)@),
        next == Next::Read,
{
    laws::session::law_backspace_key(
        sh@,
        old(session)@,
        old(io)@,
        final(session)@,
        final(io)@,
        next,
    );
}

/// A call with Down from entry `i` shows entry `i + 1`, and the draft behind the
/// last one, with the cursor at the end.
pub proof fn law_down_call<H, C: Fn(usize, &str) -> Vec<String>>(
    sh: &Shell<H, C>,
    session: &mut Session,
    io: &mut Io,
    next: Next,
)
    requires
        call_ensures(Shell::<H, C>::on_key, (sh, session, Key::Down, io), next),
        old(session)@.hist_idx < sh@.history.len(),
    ensures
        old(session)@.hist_idx + 1 < sh@.history.len() ==> final(session)@.line.before
            == sh@.history[old(session)@.hist_idx as int + 1],
        old(session)@.hist_idx + 1 == sh@.history.len() ==> final(session)@.line.before == old(
            session,
        )@.draft,
        final(session)@.line.after.len() == 0,
        final(session)@.hist_idx == old(session)@.hist_idx + 1,
{
    laws::session::law_down_key(
        sh@,
        old(session)@,
        old(io)@,
        final(session)@,
        final(io)@,
        next,
    );
}

/// A call with Up from entry `i` shows entry `i - 1`, with the cursor at the end.
pub proof fn law_up_call<H, C: Fn(usize, &str) -> Vec<String>>(
    sh: &Shell<H, C>,
    session: &mut Session,
    io: &mut Io,
    next: Next,
)
    requires
        call_ensures(Shell::<H, C>::on_key, (sh, session, Key::Up, io), next),
        0 < old(session)@.hist_idx <= sh@.history.len(),
    ensures
        final(session)@.line.before == sh@.history[old(session)@.hist_idx - 1],
        final(session)@.line.after.len() == 0,
        final(session)@.hist_idx == old(session)@.hist_idx - 1,
{
    laws::session::law_up_key(
        sh@,
        old(session)@,
        old(io)@,
        final(session)@,
        final(io)@,
        next,
    );
}

/// A call of `on_input` does what the input does.
pub proof fn law_on_input_call<H, C: Fn(usize, &str) -> Vec<String>>(
    sh: &Shell<H, C>,
    session: &mut Session,
    input: Input,
    io: &mut Io,
    next: Next,
)
    requires
        call_ensures(Shell::<H, C>::on_input, (sh, session, input, io), next),
    ensures
        shell::input_effect(
            sh@,
            old(session)@,
            old(io)@,
            input,
            final(session)@,
            final(io)@,
            next,
        ),
{
}

/// A decoder reads a byte behind the bytes that it holds back, and holds it back
/// too as long as more are needed.
pub proof fn law_decoder_call(d: &mut KeyDecoder, b: u8, r: Decoded)
    requires
        call_ensures(KeyDecoder::feed, (d, b), r),
    ensures
        r == keys::decode(old(d)@ + seq![b], old(d).spec_encoding()),
        r == Decoded::More ==> final(d)@ == old(d)@ + seq![b],
        r != Decoded::More ==> final(d)@.len() == 0,
        final(d).spec_encoding() == old(d).spec_encoding(),
{
    assert(old(d)@.push(b) =~= old(d)@ + seq![b]);
}

// ---------------------------------------------------------------------------
// A session from its start to the end of a command
// ---------------------------------------------------------------------------

/// A session begins with an empty line behind the newest entry, and the prompt.
pub proof fn law_start_call<H, C: Fn(usize, &str) -> Vec<String>>(
    sh: &Shell<H, C>,
    encoding: Encoding,
    io: &mut Io,
    session: Session,
)
    requires
        call_ensures(Shell::<H, C>::start, (sh, encoding, io), session),
    ensures
        session@.line.before.len() == 0,
        session@.line.after.len() == 0,
        session@.draft.len() == 0,
        session@.keys.len() == 0,
        session@.hist_idx == sh@.history.len(),
        session@.encoding == encoding,
        final(io)@ == old(io)@ + encode_utf8(sh@.prompt),
{
}

/// A submitted line is remembered and split; a registered command that has the
/// first word as its name is named with nothing printed, and any other name does
/// what a built-in does, with a new prompt behind it.
pub proof fn law_submit_call<H, C: Fn(usize, &str) -> Vec<String>>(
    sh: &mut Shell<H, C>,
    session: &mut Session,
    io: &mut Io,
    next: Next,
)
    requires
        call_ensures(Shell::<H, C>::submit, (sh, session, io), next),
    ensures
        ({
            let line = old(session)@.line.before + old(session)@.line.after;
            let tokens = parse::tokens(line);
            let name = tokens[0];
            &&& final(sh)@ == shell::remembered(old(sh)@, line)
            &&& final(session)@ == shell::submitted(old(sh)@, old(session)@)
            &&& command::names(old(sh)@.commands).contains(name) ==> {
                &&& next matches Next::Run(i)
                &&& i < old(sh)@.commands.len()
                &&& old(sh)@.commands[i as int].name == name
                &&& final(io)@ == old(io)@
            }
            &&& !command::names(old(sh)@.commands).contains(name) ==> {
                &&& next == Next::Read
                &&& final(io)@ == old(io)@ + shell::builtin_bytes(final(sh)@, name)
                    + encode_utf8(old(sh)@.prompt)
            }
        }),
{
    let line = old(session)@.line.before + old(session)@.line.after;
    let name = parse::tokens(line)[0];
    laws::completion::lemma_registered(old(sh)@.commands, name);
    command::lemma_lookup(old(sh)@.commands, name);
}

/// Tokens whose first names a registered command call for it; any others do what
/// a built-in does.
pub proof fn law_exec_call<H, C: Fn(usize, &str) -> Vec<String>>(
    sh: &Shell<H, C>,
    tokens: &[String],
    io: &mut Io,
    r: Option<usize>,
)
    requires
        call_ensures(Shell::<H, C>::exec, (sh, tokens, io), r),
        tokens@.len() > 0,
    ensures
        command::names(sh@.commands).contains(tokens@[0]@) ==> {
            &&& r matches Some(i)
            &&& i < sh@.commands.len()
            &&& sh@.commands[i as int].name == tokens@[0]@
            &&& final(io)@ == old(io)@
        },
        !command::names(sh@.commands).contains(tokens@[0]@) ==> r is None && final(io)@ == old(io)@
            + shell::builtin_bytes(sh@, tokens@[0]@),
{
    assert(parse::views(tokens@)[0] == tokens@[0]@);
    laws::completion::lemma_registered(sh@.commands, tokens@[0]@);
    command::lemma_lookup(sh@.commands, tokens@[0]@);
}

/// The end of a command is reported under its name, with a new prompt behind; the
/// end of the input ends the session instead.
pub proof fn law_finish_call<H, C: Fn(usize, &str) -> Vec<String>>(
    sh: &Shell<H, C>,
    i: usize,
    outcome: Outcome,
    io: &mut Io,
    next: Next,
    e: Error,
)
    requires
        call_ensures(Shell::<H, C>::finish, (sh, i, outcome, io), next),
    ensures
        outcome == Outcome::Eof ==> next == Next::Stop(Ok(())) && final(io)@ == old(io)@,
        outcome == Outcome::Done(Ok(())) ==> next == Next::Read && final(io)@ == old(io)@
            + encode_utf8(sh@.prompt),
        outcome == Outcome::Interrupted ==> next == Next::Read && final(io)@ == old(io)@ + seq![
            0x5eu8,
            0x43u8,
            13u8,
            10u8,
        ] + encode_utf8(sh@.prompt),
        outcome == Outcome::Done(Err(e)) ==> next == Next::Read && final(io)@ == old(io)@ + (
        encode_utf8(sh@.commands[i as int].name + seq![':', ' '] + e.spec_message()) + seq![
            13u8,
            10u8,
        ]) + encode_utf8(sh@.prompt),
{
    laws::output::law_outcome_output(sh@.commands[i as int].name, e);
    assert(old(io)@ + Seq::<u8>::empty() =~= old(io)@);
    if outcome == Outcome::Done(Ok(())) {
        assert(shell::outcome_bytes(sh@.commands[i as int].name, outcome) =~= Seq::empty());
    }
}

/// While a command runs, Ctrl-C ends it, any other byte takes the place of the one
/// kept before, and the end of the command or of the input ends the run.
pub proof fn law_run_step_call(step: Step, pending: &mut Option<u8>, r: Option<Outcome>)
    requires
        call_ensures(shell::run_step, (step, pending), r),
    ensures
        step == Step::Byte(3) ==> r == Some(Outcome::Interrupted) && *final(pending) == *old(
            pending,
        ),
        step matches Step::Byte(b) ==> (b != 3 ==> r is None && *final(pending) == Some(b)),
        step == Step::Eof ==> r == Some(Outcome::Eof) && *final(pending) == *old(pending),
        step matches Step::Done(d) ==> r == Some(Outcome::Done(d)) && *final(pending) == *old(
            pending,
        ),
{
}

/// The byte that was kept is read once, before anything else.
pub proof fn law_pending_call(pending: &mut Option<u8>, r: Option<Input>)
    requires
        call_ensures(Input::take_pending, (pending,), r),
    ensures
        *final(pending) is None,
        *old(pending) matches Some(b) ==> r == Some(Input::Byte(b)),
        *old(pending) is None ==> r is None,
{
}

/// What a read comes to, at the prompt and while a command runs.
pub proof fn law_read_calls(read: Result<usize, ErrorKind>, b: u8, input: Input, step: Step)
    requires
        call_ensures(Input::of_read, (read, b), input),
        call_ensures(Step::of_read, (read, b), step),
    ensures
        read == Ok::<usize, ErrorKind>(1) ==> input == Input::Byte(b) && step == Step::Byte(b),
        read == Ok::<usize, ErrorKind>(0) ==> input == Input::Eof && step == Step::Eof,
        read matches Err(kind) ==> input == Input::Failed(kind) && step == Step::Eof,
{
}

// ---------------------------------------------------------------------------
// History and commands
// ---------------------------------------------------------------------------

/// A line is remembered as far as it fits in `max_len` bytes, and no entry is
/// dropped that `max` allows.
pub proof fn law_push_call(
    h: &mut VecDeque<String>,
    line: &str,
    max: usize,
    max_len: usize,
    entry: Seq<char>,
)
    requires
        call_ensures(history::push, (h, line, max, max_len), ()),
        entry.is_prefix_of(line@),
        encode_utf8(entry).len() <= max_len,
        entry.len() < line@.len() ==> encode_utf8(line@.take(entry.len() as int + 1)).len()
            > max_len,
    ensures
        ({
            let n = old(h)@.len();
            let m = if n > 0 && old(h)@[n - 1]@ == entry {
                n
            } else {
                n + 1
            };
            let r = final(h)@;
            &&& r.len() == if m < max {
                m
            } else {
                max as nat
            }
            &&& r.len() > 0 ==> r[r.len() - 1]@ == entry
            &&& forall|i: int, j: int|
                #![trigger r[i], old(h)@[j]]
                0 <= i < r.len() && 0 <= j < n && r.len() - i == m - j ==> r[i]@ == old(h)@[j]@
        }),
{
    let v = parse::views(old(h)@);
    let w = parse::views(final(h)@);
    assert(v.len() == old(h)@.len());
    assert(w.len() == final(h)@.len());
    assert(entry =~= line@.take(entry.len() as int));
    history::lemma_cut(line@, max_len as nat, entry.len() as int);
    let all = if v.len() > 0 && v.last() == entry {
        v
    } else {
        v.push(entry)
    };
    let k = all.len() - w.len();
    assert(w =~= all.skip(k));
    let r = final(h)@;
    if r.len() > 0 {
        assert(w[w.len() - 1] == all[all.len() - 1]);
        assert(w[w.len() - 1] == r[r.len() - 1]@);
    }
    assert forall|i: int, j: int|
        #![trigger r[i], old(h)@[j]]
        0 <= i < r.len() && 0 <= j < v.len() && r.len() - i == all.len() - j implies r[i]@ == old(
        h,
    )@[j]@ by {
        assert(w[i] == r[i]@);
        assert(w[i] == all[j]);
        assert(v[j] == old(h)@[j]@);
    }
}

/// The shell remembers lines within its own limits.
pub proof fn law_push_history_call<H, C: Fn(usize, &str) -> Vec<String>>(
    sh: &mut Shell<H, C>,
    line: &str,
)
    requires
        call_ensures(Shell::<H, C>::push_history, (sh, line), ()),
    ensures
        final(sh)@ == shell::remembered(old(sh)@, line@),
        final(sh)@.history.len() <= old(sh)@.max_history,
{
    laws::history::law_history_stays_within_limits(
        old(sh)@.history,
        line@,
        old(sh)@.max_history,
        old(sh)@.max_history_len,
    );
}

/// Each setting is set on its own, for everything that follows.
pub proof fn law_setter_calls<H, C: Fn(usize, &str) -> Vec<String>>(
    sh: &mut Shell<H, C>,
    prompt: &'static str,
    n: usize,
    r: &mut Shell<H, C>,
)
    ensures
        call_ensures(Shell::<H, C>::prompt, (sh, prompt), r) ==> old(r)@ == (ShellView {
            prompt: prompt@,
            ..old(sh)@
        }) && *final(sh) == *final(r),
        call_ensures(Shell::<H, C>::max_history, (sh, n), r) ==> old(r)@ == (ShellView {
            max_history: n as nat,
            ..old(sh)@
        }) && *final(sh) == *final(r),
        call_ensures(Shell::<H, C>::max_history_len, (sh, n), r) ==> old(r)@ == (ShellView {
            max_history_len: n as nat,
            ..old(sh)@
        }) && *final(sh) == *final(r),
        call_ensures(Shell::<H, C>::max_line_len, (sh, n), r) ==> old(r)@ == (ShellView {
            max_line_len: n as nat,
            ..old(sh)@
        }) && *final(sh) == *final(r),
{
}

/// The names that are listed are those of the commands, in their order, and a
/// command is what it was registered with.
pub proof fn law_command_calls<H, C: Fn(usize, &str) -> Vec<String>>(
    sh: &Shell<H, C>,
    names: Vec<&str>,
    i: usize,
    cmd: &Command<H, C>,
)
    requires
        call_ensures(Shell::<H, C>::command_names, (sh,), names),
        call_ensures(Shell::<H, C>::command, (sh, i), cmd),
        i < sh@.commands.len(),
    ensures
        names@.len() == sh@.commands.len(),
        names@[i as int]@ == sh@.commands[i as int].name,
        cmd.name@ == sh@.commands[i as int].name,
        cmd.help@ == sh@.commands[i as int].help,
        cmd.handler == sh@.commands[i as int].handler,
{
    let v = parse::str_views(names@);
    assert(v.len() == names@.len());
    assert(v[i as int] == names@[i as int]@);
    assert(command::names(sh@.commands)[i as int] == sh@.commands[i as int].name);
}

/// A registered command is found under its name, with what it was registered with,
/// and nothing else of the shell changes.
pub proof fn law_add_command_call<H, C: Fn(usize, &str) -> Vec<String>>(
    sh: &mut Shell<H, C>,
    name: &str,
    help: &'static str,
    handler: H,
)
    requires
        call_ensures(Shell::<H, C>::add_command, (sh, name, help, handler), ()),
    ensures
        found_as(
            final(sh)@.commands,
            CommandView { name: name@, help: help@, handler, completer: None },
        ),
        final(sh)@ == (ShellView { commands: final(sh)@.commands, ..old(sh)@ }),
{
    lemma_found(
        old(sh)@.commands,
        CommandView { name: name@, help: help@, handler, completer: None },
    );
}

/// The same of a command with options.
pub proof fn law_add_command_with_options_call<H, C: Fn(usize, &str) -> Vec<String>>(
    sh: &mut Shell<H, C>,
    name: &str,
    help: &'static str,
    options: &'static [&'static str],
    handler: H,
)
    requires
        call_ensures(
            Shell::<H, C>::add_command_with_options,
            (sh, name, help, options, handler),
            (),
        ),
    ensures
        found_as(
            final(sh)@.commands,
            CommandView {
                name: name@,
                help: help@,
                handler,
                completer: Some(CompleterView::Options(parse::str_views(options@))),
            },
        ),
        final(sh)@ == (ShellView { commands: final(sh)@.commands, ..old(sh)@ }),
{
    lemma_found(
        old(sh)@.commands,
        CommandView {
            name: name@,
            help: help@,
            handler,
            completer: Some(CompleterView::Options(parse::str_views(options@))),
        },
    );
}

/// The same of a command with a custom completer.
pub proof fn law_add_command_with_completer_call<H, C: Fn(usize, &str) -> Vec<String>>(
    sh: &mut Shell<H, C>,
    name: &str,
    help: &'static str,
    handler: H,
    completer: C,
)
    requires
        call_ensures(
            Shell::<H, C>::add_command_with_completer,
            (sh, name, help, handler, completer),
            (),
        ),
    ensures
        found_as(
            final(sh)@.commands,
            CommandView {
                name: name@,
                help: help@,
                handler,
                completer: Some(CompleterView::Custom(completer)),
            },
        ),
        final(sh)@ == (ShellView { commands: final(sh)@.commands, ..old(sh)@ }),
{
    lemma_found(
        old(sh)@.commands,
        CommandView {
            name: name@,
            help: help@,
            handler,
            completer: Some(CompleterView::Custom(completer)),
        },
    );
}

/// The command is in the list, and is the first of its name.
pub open spec fn found_as<H, C>(v: Seq<CommandView<H, C>>, cmd: CommandView<H, C>) -> bool {
    exists|i: int|
        0 <= i < v.len() && #[trigger] v[i] == cmd && forall|j: int|
            0 <= j < i ==> #[trigger] v[j].name != cmd.name
}

proof fn lemma_found<H, C>(v: Seq<CommandView<H, C>>, cmd: CommandView<H, C>)
    ensures
        found_as(command::registered(v, cmd), cmd),
{
    let r = command::registered(v, cmd);
    laws::dispatch::law_registered_command_is_found(v, cmd);
    command::lemma_lookup(r, cmd.name);
    let i = command::lookup(r, cmd.name)->0;
    assert(r[i] == cmd);
}

} // verus!
