//! What the shell prints: the input line, and the output of its built-ins.

use std::collections::VecDeque;

use vstd::prelude::*;
use vstd::utf8::*;

use crate::command;
use crate::command::{Command, CommandView};
use crate::io;
use crate::io::Io;
use crate::line::{Line, LineView};
use crate::parse;
use crate::text;
use crate::util;
use crate::util::StackWriter;

verus! {

/// `n` spaces.
pub open spec fn spaces(n: nat) -> Seq<char> {
    Seq::new(n, |i: int| ' ')
}

/// The difference of two numbers, or zero.
pub open spec fn monus(a: nat, b: nat) -> nat {
    if a >= b {
        (a - b) as nat
    } else {
        0
    }
}

/// The cursor-move sequence as the shell writes it: at most 16 bytes.
pub open spec fn move_bytes(n: nat, dir: u8) -> Seq<u8> {
    util::clip(util::cursor_move_seq(n, dir), 16)
}

/// The bytes that rewrite the input line and place the cursor: back to the first
/// column, prompt and line, an erasure of leftovers, and a move to the left over
/// what stands behind the cursor.
pub open spec fn redraw_bytes(prompt: Seq<char>, line: LineView) -> Seq<u8> {
    encode_utf8("\r"@) + encode_utf8(prompt) + encode_utf8(line.text()) + encode_utf8("\x1b[K"@) + (
    if line.after.len() > 0 {
        move_bytes(line.after.len(), 0x44)
    } else {
        Seq::empty()
    })
}

/// The commands handled by the shell itself, with their descriptions.
pub open spec fn builtins() -> Seq<(Seq<char>, Seq<char>)> {
    seq![
        ("help"@, "list available commands"@),
        ("history"@, "show command history"@),
        ("clear"@, "clear the screen"@),
    ]
}

/// Whether a command of that name is registered.
pub open spec fn is_registered<H, C>(commands: Seq<CommandView<H, C>>, name: Seq<char>) -> bool {
    command::lookup(commands, name) is Some
}

/// A line of `help`: the name, padded to twelve columns, and the description.
pub open spec fn help_line(name: Seq<char>, help: Seq<char>) -> Seq<u8> {
    encode_utf8("  "@) + encode_utf8(name) + encode_utf8(spaces(monus(12, name.len())))
        + encode_utf8(help) + io::crlf()
}

/// The lines of `help` for the registered commands.
pub open spec fn help_commands<H, C>(commands: Seq<CommandView<H, C>>) -> Seq<u8>
    decreases commands.len(),
{
    if commands.len() == 0 {
        Seq::empty()
    } else {
        help_commands(commands.drop_last()) + help_line(
            commands.last().name,
            commands.last().help,
        )
    }
}

/// The lines of `help` for the first `n` built-ins, but for those that a
/// registered command shadows.
pub open spec fn help_builtins<H, C>(commands: Seq<CommandView<H, C>>, n: nat) -> Seq<u8>
    decreases n,
{
    if n == 0 {
        Seq::empty()
    } else {
        let b = builtins()[n - 1];
        let init = help_builtins(commands, (n - 1) as nat);
        if is_registered(commands, b.0) {
            init
        } else {
            init + help_line(b.0, b.1)
        }
    }
}

/// The output of `help`.
pub open spec fn help_bytes<H, C>(commands: Seq<CommandView<H, C>>) -> Seq<u8> {
    help_commands(commands) + help_builtins(commands, 3)
}

/// A line of `history`: the number of the entry, right-aligned in four columns,
/// and the entry.
pub open spec fn history_line(number: nat, entry: Seq<char>) -> Seq<u8> {
    let num = util::clip(util::decimal(number), 8);
    encode_utf8(spaces(monus(4, num.len()))) + num + encode_utf8("  "@) + encode_utf8(entry)
        + io::crlf()
}

/// The output of `history`.
pub open spec fn history_bytes(history: Seq<Seq<char>>) -> Seq<u8>
    decreases history.len(),
{
    if history.len() == 0 {
        Seq::empty()
    } else {
        history_bytes(history.drop_last()) + history_line(history.len(), history.last())
    }
}

/// Print `n` spaces.
pub fn pad(io: &mut Io, n: usize)
    ensures
        final(io)@ == old(io)@ + encode_utf8(spaces(n as nat)),
{
    let mut i: usize = 0;
    proof {
        reveal_strlit(" ");
        assert(" "@ =~= seq![' ']);
        assert(spaces(0) =~= Seq::empty());
        assert(io@ + Seq::empty() =~= io@);
    }
    while i < n
        invariant
            i <= n,
            " "@ == seq![' '],
            io@ == old(io)@ + encode_utf8(spaces(i as nat)),
        decreases n - i,
    {
        io.print(" ");
        proof {
            assert(spaces((i + 1) as nat) =~= spaces(i as nat) + seq![' ']);
            text::lemma_encode_concat(spaces(i as nat), seq![' ']);
            assert(old(io)@ + encode_utf8(spaces(i as nat)) + encode_utf8(seq![' ']) =~= old(io)@
                + encode_utf8(spaces((i + 1) as nat)));
        }
        i += 1;
    }
}

/// Print a cursor-move sequence.
pub fn print_move(io: &mut Io, n: usize, dir: u8)
    ensures
        final(io)@ == old(io)@ + move_bytes(n as nat, dir),
{
    let w = util::cursor_move::<16>(n, dir);
    io.write_all(w.as_bytes());
}

/// Rewrite the input line and place the cursor.
pub fn redraw(io: &mut Io, prompt: &str, line: &Line)
    requires
        line.wf(),
    ensures
        final(io)@ == old(io)@ + redraw_bytes(prompt@, line@),
{
    io.print("\r");
    io.print(prompt);
    io.print(line.as_str());
    // Erase any leftovers from the previous render.
    io.print("\x1b[K");
    let tail = line.after().unicode_len();
    if tail > 0 {
        print_move(io, tail, 0x44);
    }
    assert(io@ =~= old(io)@ + redraw_bytes(prompt@, line@));
}

/// The name and the description of built-in number `i`.
pub fn builtin(i: usize) -> (r: (&'static str, &'static str))
    requires
        i < 3,
    ensures
        r.0@ == builtins()[i as int].0,
        r.1@ == builtins()[i as int].1,
{
    if i == 0 {
        ("help", "list available commands")
    } else if i == 1 {
        ("history", "show command history")
    } else {
        ("clear", "clear the screen")
    }
}

/// Print one line of `help`.
fn print_help_line(io: &mut Io, name: &str, help: &str)
    ensures
        final(io)@ == old(io)@ + help_line(name@, help@),
{
    io.print("  ");
    io.print(name);
    let n = name.unicode_len();
    pad(
        io,
        if n < 12 {
            12 - n
        } else {
            0
        },
    );
    io.println(help);
    assert(io@ =~= old(io)@ + help_line(name@, help@));
}

/// Print the output of `help`.
pub fn print_help<H, C>(io: &mut Io, commands: &Vec<Command<H, C>>)
    ensures
        final(io)@ == old(io)@ + help_bytes(command::command_views(commands@)),
{
    let ghost all = command::command_views(commands@);
    let mut i: usize = 0;
    assert(io@ + Seq::empty() =~= io@);
    assert(all.take(0) =~= Seq::empty());
    while i < commands.len()
        invariant
            all == command::command_views(commands@),
            i <= commands.len(),
            io@ == old(io)@ + help_commands(all.take(i as int)),
        decreases commands.len() - i,
    {
        print_help_line(io, commands[i].name.as_str(), commands[i].help);
        proof {
            assert(all.take(i + 1).drop_last() =~= all.take(i as int));
            assert(all.take(i + 1).last() == commands@[i as int]@);
            assert(io@ =~= old(io)@ + help_commands(all.take(i + 1)));
        }
        i += 1;
    }
    assert(all.take(i as int) =~= all);
    let mut k: usize = 0;
    let ghost mid = io@;
    assert(mid + Seq::empty() =~= mid);
    while k < 3
        invariant
            all == command::command_views(commands@),
            k <= 3,
            io@ == mid + help_builtins(all, k as nat),
        decreases 3 - k,
    {
        let b = builtin(k);
        let ghost before = io@;
        match command::find(commands, b.0) {
            Some(_) => {},
            None => {
                print_help_line(io, b.0, b.1);
            },
        }
        assert(io@ =~= mid + help_builtins(all, (k + 1) as nat));
        k += 1;
    }
    assert(io@ =~= old(io)@ + help_bytes(all));
}

/// Print the output of `history`.
pub fn print_history(io: &mut Io, history: &VecDeque<String>)
    ensures
        final(io)@ == old(io)@ + history_bytes(parse::views(history@)),
{
    let ghost all = parse::views(history@);
    let mut i: usize = 0;
    assert(io@ + Seq::empty() =~= io@);
    assert(all.take(0) =~= Seq::empty());
    while i < history.len()
        invariant
            all == parse::views(history@),
            i <= history.len(),
            io@ == old(io)@ + history_bytes(all.take(i as int)),
        decreases history.len() - i,
    {
        let ghost before = io@;
        let mut w = StackWriter::<8>::new();
        w.push_usize(i + 1);
        let num = w.as_bytes();
        let n = num.len();
        proof {
            assert(Seq::<u8>::empty() + util::decimal((i + 1) as nat) =~= util::decimal(
                (i + 1) as nat,
            ));
        }
        pad(
            io,
            if n < 4 {
                4 - n
            } else {
                0
            },
        );
        io.write_all(num);
        io.print("  ");
        io.println(history[i].as_str());
        proof {
            assert(all.take(i + 1).drop_last() =~= all.take(i as int));
            assert(all.take(i + 1).last() == history@[i as int]@);
            assert(io@ =~= before + history_line((i + 1) as nat, history@[i as int]@));
            assert(io@ =~= old(io)@ + history_bytes(all.take(i + 1)));
        }
        i += 1;
    }
    assert(all.take(i as int) =~= all);
}

} // verus!
