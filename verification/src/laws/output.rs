//! What is printed.

use vstd::prelude::*;
use vstd::utf8::*;

use crate::command::CommandView;
use crate::error::Error;
use crate::io;
use crate::laws;
use crate::line::LineView;
use crate::render;
use crate::shell;
use crate::shell::{Outcome, ShellView};
use crate::text;
use crate::util;

verus! {

/// The number that decimal digits stand for.
pub open spec fn value(digits: Seq<u8>) -> int
    decreases digits.len(),
{
    if digits.len() == 0 {
        0
    } else {
        10 * value(digits.drop_last()) + (digits.last() - 48)
    }
}

/// A number is printed in decimal digits, without leading zeros, and reads back
/// as itself.
pub proof fn law_decimal_reads_back(n: nat)
    ensures
        value(util::decimal(n)) == n,
        util::decimal(n).len() > 0,
        forall|i: int|
            0 <= i < util::decimal(n).len() ==> 48 <= #[trigger] util::decimal(n)[i] <= 57,
        n > 0 ==> util::decimal(n)[0] != 48,
        n == 0 ==> util::decimal(n) == seq![48u8],
    decreases n,
{
    let d = util::decimal(n);
    if n < 10 {
        assert(d.drop_last() =~= Seq::empty());
        reveal_with_fuel(value, 2);
    } else {
        law_decimal_reads_back(n / 10);
        assert(d.drop_last() =~= util::decimal(n / 10));
        assert(d[0] == util::decimal(n / 10)[0]);
    }
}

/// `d` stands somewhere in `s`.
pub open spec fn holds(s: Seq<u8>, d: Seq<u8>) -> bool {
    exists|a: Seq<u8>, b: Seq<u8>| s == #[trigger] (a + d + b)
}

proof fn lemma_holds_more(s: Seq<u8>, d: Seq<u8>, t: Seq<u8>)
    ensures
        holds(s, d) ==> holds(s + t, d),
        holds(t, d) ==> holds(s + t, d),
{
    if holds(s, d) {
        let (a, b) = choose|a: Seq<u8>, b: Seq<u8>| s == #[trigger] (a + d + b);
        assert(s + t =~= a + d + (b + t));
    }
    if holds(t, d) {
        let (a, b) = choose|a: Seq<u8>, b: Seq<u8>| t == #[trigger] (a + d + b);
        assert(s + t =~= (s + a) + d + b);
    }
}

proof fn lemma_holds_self(d: Seq<u8>)
    ensures
        holds(d, d),
{
    assert(d =~= Seq::empty() + d + Seq::empty());
}

/// `history` lists every entry, with its number.
pub proof fn law_history_lists_every_entry(h: Seq<Seq<char>>, i: int)
    requires
        0 <= i < h.len(),
    ensures
        holds(render::history_bytes(h), render::history_line((i + 1) as nat, h[i])),
    decreases h.len(),
{
    let line = render::history_line(h.len(), h.last());
    let init = render::history_bytes(h.drop_last());
    lemma_holds_more(init, render::history_line((i + 1) as nat, h[i]), line);
    if i == h.len() - 1 {
        lemma_holds_self(line);
    } else {
        law_history_lists_every_entry(h.drop_last(), i);
    }
}

/// `help` lists every registered command.
pub proof fn law_help_lists_every_command<H, C>(commands: Seq<CommandView<H, C>>, i: int)
    requires
        0 <= i < commands.len(),
    ensures
        holds(
            render::help_bytes(commands),
            render::help_line(commands[i].name, commands[i].help),
        ),
{
    lemma_help_commands(commands, i);
    lemma_holds_more(
        render::help_commands(commands),
        render::help_line(commands[i].name, commands[i].help),
        render::help_builtins(commands, 3),
    );
}

proof fn lemma_help_commands<H, C>(commands: Seq<CommandView<H, C>>, i: int)
    requires
        0 <= i < commands.len(),
    ensures
        holds(
            render::help_commands(commands),
            render::help_line(commands[i].name, commands[i].help),
        ),
    decreases commands.len(),
{
    let line = render::help_line(commands.last().name, commands.last().help);
    let init = render::help_commands(commands.drop_last());
    lemma_holds_more(init, render::help_line(commands[i].name, commands[i].help), line);
    if i == commands.len() - 1 {
        lemma_holds_self(line);
    } else {
        lemma_help_commands(commands.drop_last(), i);
    }
}

/// The built-ins and their descriptions, in the order in which they are listed and
/// offered.
pub proof fn law_builtins()
    ensures
        render::builtins().len() == 3,
        render::builtins()[0] == ("help"@, "list available commands"@),
        render::builtins()[1] == ("history"@, "show command history"@),
        render::builtins()[2] == ("clear"@, "clear the screen"@),
{
}

/// The line of `help` for built-in number `k`, unless it is shadowed.
pub open spec fn open_builtin_line<H, C>(commands: Seq<CommandView<H, C>>, k: int) -> Seq<u8> {
    if laws::completion::is_open_builtin(commands, render::builtins()[k].0) {
        render::help_line(render::builtins()[k].0, render::builtins()[k].1)
    } else {
        Seq::empty()
    }
}

/// Behind the registered commands `help` lists the built-ins that none of them
/// shadows.
pub proof fn law_help_lists_open_builtins<H, C>(commands: Seq<CommandView<H, C>>)
    ensures
        render::help_bytes(commands) == render::help_commands(commands) + open_builtin_line(
            commands,
            0,
        ) + open_builtin_line(commands, 1) + open_builtin_line(commands, 2),
{
    laws::completion::lemma_registered(commands, "help"@);
    laws::completion::lemma_registered(commands, "history"@);
    laws::completion::lemma_registered(commands, "clear"@);
    reveal_with_fuel(render::help_builtins, 4);
    assert(render::help_builtins(commands, 3) =~= open_builtin_line(commands, 0)
        + open_builtin_line(commands, 1) + open_builtin_line(commands, 2));
    assert(render::help_bytes(commands) =~= render::help_commands(commands) + open_builtin_line(
        commands,
        0,
    ) + open_builtin_line(commands, 1) + open_builtin_line(commands, 2));
}

/// The cursor moves of lines of less than ten million million characters are
/// written out in full.
pub proof fn law_cursor_moves_fit(n: nat, dir: u8)
    requires
        n < 10_000_000_000_000,
    ensures
        render::move_bytes(n, dir) == util::cursor_move_seq(n, dir),
{
    reveal_with_fuel(util::pow10, 14);
    util::lemma_decimal_len(n, 13);
}

/// What does not fit in a buffer is dropped from the end, and nothing else.
pub proof fn law_clip(s: Seq<u8>, n: nat)
    ensures
        util::clip(s, n).is_prefix_of(s),
        util::clip(s, n).len() == if s.len() < n {
            s.len()
        } else {
            n
        },
{
    let c = util::clip(s, n);
    assert(c =~= s.subrange(0, c.len() as int));
}

/// A cursor move is the escape `ESC [`, the number of columns in decimal and the
/// direction, as far as that fits in sixteen bytes.
pub proof fn law_move_bytes(n: nat, dir: u8, d: Seq<u8>)
    requires
        d == util::decimal(n),
    ensures
        render::move_bytes(n, dir).is_prefix_of(seq![0x1bu8, 0x5bu8] + d + seq![dir]),
        render::move_bytes(n, dir).len() == if d.len() + 3 < 16 {
            d.len() + 3
        } else {
            16
        },
        n < 10_000_000_000_000 ==> render::move_bytes(n, dir) == seq![0x1bu8, 0x5bu8] + d + seq![
            dir,
        ],
{
    law_clip(seq![0x1bu8, 0x5bu8] + d + seq![dir], 16);
    if n < 10_000_000_000_000 {
        law_cursor_moves_fit(n, dir);
    }
}

/// A line is redrawn from the first column: the prompt, the text before the cursor
/// and behind it, an erasure of what is left of an older line, and a move back over
/// what is behind the cursor.
pub proof fn law_redraw(prompt: Seq<char>, line: LineView)
    ensures
        render::redraw_bytes(prompt, line) == seq![13u8] + encode_utf8(prompt) + encode_utf8(
            line.before,
        ) + encode_utf8(line.after) + seq![0x1bu8, 0x5bu8, 0x4bu8] + if line.after.len() > 0 {
            render::move_bytes(line.after.len(), 0x44)
        } else {
            Seq::<u8>::empty()
        },
{
    laws::session::lemma_literals();
    text::lemma_encode_concat(line.before, line.after);
    assert(seq![13u8] + encode_utf8(prompt) + (encode_utf8(line.before) + encode_utf8(line.after))
        =~= seq![13u8] + encode_utf8(prompt) + encode_utf8(line.before) + encode_utf8(line.after));
}

/// `help` prints the commands one after the other, in their order.
pub proof fn law_help_in_order<H, C>(
    a: Seq<CommandView<H, C>>,
    b: Seq<CommandView<H, C>>,
    cmd: CommandView<H, C>,
)
    ensures
        render::help_commands(Seq::<CommandView<H, C>>::empty()).len() == 0,
        render::help_commands(seq![cmd]) == render::help_line(cmd.name, cmd.help),
        render::help_commands(a + b) == render::help_commands(a) + render::help_commands(b),
    decreases b.len(),
{
    reveal_with_fuel(render::help_commands, 2);
    assert(seq![cmd].drop_last() =~= Seq::empty());
    assert(render::help_commands(seq![cmd]) =~= render::help_line(cmd.name, cmd.help));
    if b.len() == 0 {
        assert(a + b =~= a);
    } else {
        law_help_in_order(a, b.drop_last(), cmd);
        assert((a + b).drop_last() =~= a + b.drop_last());
    }
    assert(render::help_commands(a + b) =~= render::help_commands(a) + render::help_commands(b));
}

/// A line of `help` is two blanks, the name, blanks up to column twelve behind it,
/// the description and a line end.
pub proof fn law_help_line(name: Seq<char>, help: Seq<char>, pad: Seq<char>)
    requires
        forall|i: int| 0 <= i < pad.len() ==> #[trigger] pad[i] == ' ',
        pad.len() == if name.len() < 12 {
            12 - name.len()
        } else {
            0
        },
    ensures
        render::help_line(name, help) == seq![32u8, 32u8] + encode_utf8(name + pad + help) + seq![
            13u8,
            10u8,
        ],
{
    laws::session::lemma_literals();
    assert(pad =~= render::spaces(render::monus(12, name.len())));
    text::lemma_encode_concat(name, pad);
    text::lemma_encode_concat(name + pad, help);
    assert(render::help_line(name, help) =~= seq![32u8, 32u8] + encode_utf8(name + pad + help)
        + seq![13u8, 10u8]);
}

/// `history` prints the entries one after the other, oldest first, numbered from
/// one.
pub proof fn law_history_in_order(h: Seq<Seq<char>>, entry: Seq<char>)
    ensures
        render::history_bytes(Seq::<Seq<char>>::empty()).len() == 0,
        render::history_bytes(h.push(entry)) == render::history_bytes(h) + render::history_line(
            h.len() + 1,
            entry,
        ),
{
    assert(h.push(entry).drop_last() =~= h);
}

/// A line of `history` is the number, with blanks before it up to four columns,
/// two blanks, the entry and a line end. Of a number of more than eight digits the
/// first eight are printed.
pub proof fn law_history_line(number: nat, entry: Seq<char>, pad: Seq<u8>, digits: Seq<u8>)
    requires
        digits.is_prefix_of(util::decimal(number)),
        digits.len() == if util::decimal(number).len() < 8 {
            util::decimal(number).len()
        } else {
            8
        },
        forall|i: int| 0 <= i < pad.len() ==> #[trigger] pad[i] == 32,
        pad.len() == if digits.len() < 4 {
            4 - digits.len()
        } else {
            0
        },
    ensures
        render::history_line(number, entry) == pad + digits + seq![32u8, 32u8] + encode_utf8(entry)
            + seq![13u8, 10u8],
{
    laws::session::lemma_literals();
    let num = util::clip(util::decimal(number), 8);
    law_clip(util::decimal(number), 8);
    assert(num =~= digits);
    let sp = render::spaces(render::monus(4, num.len()));
    is_ascii_chars_encode_utf8(sp);
    assert forall|i: int| 0 <= i < pad.len() implies encode_utf8(sp)[i] == pad[i] by {
        assert(sp[i] == ' ');
        assert(pad[i] == 32);
    }
    assert(encode_utf8(sp) =~= pad);
    assert(io::crlf() =~= seq![13u8, 10u8]);
}

/// What a line prints that names no registered command: `help`, `history` and
/// `clear` do their work, and any other name is reported as not found.
pub proof fn law_builtin_output<H, C>(shell: ShellView<H, C>, name: Seq<char>)
    ensures
        shell::builtin_bytes(shell, "help"@) == render::help_bytes(shell.commands),
        shell::builtin_bytes(shell, "history"@) == render::history_bytes(shell.history),
        shell::builtin_bytes(shell, "clear"@) == seq![
            0x1bu8,
            0x5bu8,
            0x32u8,
            0x4au8,
            0x1bu8,
            0x5bu8,
            0x48u8,
        ],
        name != "help"@ && name != "history"@ && name != "clear"@ ==> shell::builtin_bytes(
            shell,
            name,
        ) == encode_utf8(name + ": command not found"@) + seq![13u8, 10u8],
{
    laws::session::lemma_literals();
    reveal_strlit("help");
    reveal_strlit("history");
    reveal_strlit("clear");
    assert("help"@.len() == 4 && "history"@.len() == 7 && "clear"@.len() == 5);
    text::lemma_encode_concat(name, ": command not found"@);
}

/// A command that ends well prints nothing more. An error is reported with the
/// name of the command and the message, an interruption as `^C`.
pub proof fn law_outcome_output(name: Seq<char>, e: Error)
    ensures
        shell::outcome_bytes(name, Outcome::Done(Ok(()))).len() == 0,
        shell::outcome_bytes(name, Outcome::Done(Err(e))) == encode_utf8(
            name + seq![':', ' '] + e.spec_message(),
        ) + seq![13u8, 10u8],
        shell::outcome_bytes(name, Outcome::Interrupted) == seq![0x5eu8, 0x43u8, 13u8, 10u8],
        shell::outcome_bytes(name, Outcome::Eof).len() == 0,
{
    laws::session::lemma_literals();
    reveal_strlit(": ");
    assert(": "@ =~= seq![':', ' ']);
    text::lemma_encode_concat(name, seq![':', ' ']);
    text::lemma_encode_concat(name + seq![':', ' '], e.spec_message());
}

} // verus!
