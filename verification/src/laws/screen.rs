//! What the terminal shows.

use vstd::prelude::*;
use vstd::utf8::*;

use crate::complete;
use crate::keys::Key;
use crate::laws;
use crate::line::LineView;
use crate::render;
use crate::shell;
use crate::shell::{Next, SessionView, ShellView};
use crate::text;
use crate::util;

verus! {

/// What a terminal is told to do.
pub enum Op {
    /// Show characters from the cursor on, and move behind them.
    Show(Seq<char>),
    /// Go to the first column.
    Return,
    /// Go to the first column of a new row.
    NewRow,
    /// Erase from the cursor to the end of the row.
    Erase,
    /// Go to the left by the number that the digits stand for.
    Left(Seq<u8>),
    /// Go to the right by the number that the digits stand for.
    Right(Seq<u8>),
    /// Go to the left by one.
    LeftOne,
    /// Go to the right by one.
    RightOne,
    /// Erase everything and go to the first column.
    Clear,
    /// Ring.
    Bell,
}

/// The row of a terminal that the cursor is in.
#[verifier::ext_equal]
pub struct Screen {
    /// What the row shows.
    pub row: Seq<char>,
    /// The column of the cursor.
    pub col: int,
}

/// The bytes that tell a terminal to do this.
pub open spec fn told(op: Op) -> Seq<u8> {
    match op {
        Op::Show(s) => encode_utf8(s),
        Op::Return => seq![13u8],
        Op::NewRow => seq![13u8, 10u8],
        Op::Erase => seq![0x1bu8, 0x5bu8, 0x4bu8],
        Op::Left(d) => seq![0x1bu8, 0x5bu8] + d + seq![0x44u8],
        Op::Right(d) => seq![0x1bu8, 0x5bu8] + d + seq![0x43u8],
        Op::LeftOne => seq![0x1bu8, 0x5bu8, 0x44u8],
        Op::RightOne => seq![0x1bu8, 0x5bu8, 0x43u8],
        Op::Clear => seq![0x1bu8, 0x5bu8, 0x32u8, 0x4au8, 0x1bu8, 0x5bu8, 0x48u8],
        Op::Bell => seq![7u8],
    }
}

/// What the terminal does.
pub open spec fn done(op: Op, s: Screen) -> Screen {
    match op {
        Op::Show(t) => Screen {
            row: s.row.take(s.col) + t + if s.col + t.len() < s.row.len() {
                s.row.skip(s.col + t.len())
            } else {
                Seq::empty()
            },
            col: s.col + t.len(),
        },
        Op::Return => Screen { col: 0, ..s },
        Op::NewRow => Screen { row: Seq::empty(), col: 0 },
        Op::Erase => Screen { row: s.row.take(s.col), ..s },
        Op::Left(d) => Screen { col: s.col - laws::output::value(d), ..s },
        Op::Right(d) => Screen { col: s.col + laws::output::value(d), ..s },
        Op::LeftOne => Screen { col: s.col - 1, ..s },
        Op::RightOne => Screen { col: s.col + 1, ..s },
        Op::Clear => Screen { row: Seq::empty(), col: 0 },
        Op::Bell => s,
    }
}

/// The bytes of one instruction after the other.
pub open spec fn told_all(ops: Seq<Op>) -> Seq<u8>
    decreases ops.len(),
{
    if ops.len() == 0 {
        Seq::empty()
    } else {
        told_all(ops.drop_last()) + told(ops.last())
    }
}

/// The screen after one instruction after the other.
pub open spec fn done_all(ops: Seq<Op>, s: Screen) -> Screen
    decreases ops.len(),
{
    if ops.len() == 0 {
        s
    } else {
        done(ops.last(), done_all(ops.drop_last(), s))
    }
}

/// The row shows the prompt and the line, and the cursor stands where the line has
/// its own.
pub open spec fn shows(s: Screen, prompt: Seq<char>, line: LineView) -> bool {
    &&& s.row == prompt + line.before + line.after
    &&& s.col == prompt.len() + line.before.len()
}

/// These bytes turn a screen of one line into a screen of another.
pub open spec fn turns(
    printed: Seq<u8>,
    s: Screen,
    prompt: Seq<char>,
    line: LineView,
) -> bool {
    exists|ops: Seq<Op>|
        #![trigger told_all(ops)]
        printed == told_all(ops) && shows(done_all(ops, s), prompt, line)
}

proof fn lemma_push(ops: Seq<Op>, op: Op, s: Screen)
    ensures
        told_all(ops.push(op)) == told_all(ops) + told(op),
        done_all(ops.push(op), s) == done(op, done_all(ops, s)),
{
    assert(ops.push(op).drop_last() =~= ops);
}

/// Whatever the screen shows, and however it was told so far, drawing a line shows
/// it.
proof fn lemma_drawing(ops: Seq<Op>, s: Screen, prompt: Seq<char>, line: LineView)
    requires
        line.after.len() < 10_000_000_000_000,
        0 <= done_all(ops, s).col,
    ensures
        turns(told_all(ops) + render::redraw_bytes(prompt, line), s, prompt, line),
{
    let all = prompt + line.before + line.after;
    let a = ops.push(Op::Return);
    let b = a.push(Op::Show(all));
    let c = b.push(Op::Erase);
    lemma_push(ops, Op::Return, s);
    lemma_push(a, Op::Show(all), s);
    lemma_push(b, Op::Erase, s);
    laws::output::law_redraw(prompt, line);
    text::lemma_encode_concat(prompt, line.before);
    text::lemma_encode_concat(prompt + line.before, line.after);
    let bytes = told_all(ops) + render::redraw_bytes(prompt, line);
    let sb = done_all(b, s);
    assert(sb.col == all.len());
    assert(sb.row.take(sb.col) =~= all);
    assert(done_all(c, s).row =~= all);
    if line.after.len() > 0 {
        let n = line.after.len();
        let d = util::decimal(n);
        laws::output::law_decimal_reads_back(n);
        laws::output::law_move_bytes(n, 0x44, d);
        let e = c.push(Op::Left(d));
        lemma_push(c, Op::Left(d), s);
        assert(bytes =~= told_all(e));
        assert(shows(done_all(e, s), prompt, line));
    } else {
        assert(line.after =~= Seq::empty());
        assert(all =~= prompt + line.before);
        assert(bytes =~= told_all(c));
        assert(shows(done_all(c, s), prompt, line));
    }
}

proof fn lemma_redraw_shows(s: Screen, prompt: Seq<char>, line: LineView)
    requires
        line.after.len() < 10_000_000_000_000,
        0 <= s.col,
    ensures
        turns(render::redraw_bytes(prompt, line), s, prompt, line),
{
    lemma_drawing(Seq::empty(), s, prompt, line);
    assert(told_all(Seq::empty()) + render::redraw_bytes(prompt, line) =~= render::redraw_bytes(
        prompt,
        line,
    ));
}

/// One instruction is enough.
proof fn lemma_one(op: Op, s: Screen, prompt: Seq<char>, line: LineView)
    requires
        shows(done(op, s), prompt, line),
    ensures
        turns(told(op), s, prompt, line),
{
    let ops = Seq::<Op>::empty().push(op);
    lemma_push(Seq::empty(), op, s);
    assert(told_all(Seq::<Op>::empty()) + told(op) =~= told(op));
    assert(told_all(ops) == told(op));
}

/// Nothing to do.
proof fn lemma_none(s: Screen, prompt: Seq<char>, line: LineView)
    requires
        shows(s, prompt, line),
    ensures
        turns(Seq::empty(), s, prompt, line),
{
    assert(told_all(Seq::<Op>::empty()) == Seq::<u8>::empty());
}

/// The characters of a list with two blanks between them.
pub open spec fn spaced(candidates: Seq<Seq<char>>) -> Seq<char>
    decreases candidates.len(),
{
    if candidates.len() == 0 {
        Seq::empty()
    } else if candidates.len() == 1 {
        candidates[0]
    } else {
        spaced(candidates.drop_last()) + seq![' ', ' '] + candidates.last()
    }
}

proof fn lemma_spaced(candidates: Seq<Seq<char>>)
    ensures
        complete::listing(candidates) == encode_utf8(spaced(candidates)),
    decreases candidates.len(),
{
    if candidates.len() > 1 {
        lemma_spaced(candidates.drop_last());
        reveal_strlit("  ");
        assert("  "@ =~= seq![' ', ' ']);
        text::lemma_encode_concat(spaced(candidates.drop_last()), seq![' ', ' ']);
        text::lemma_encode_concat(
            spaced(candidates.drop_last()) + seq![' ', ' '],
            candidates.last(),
        );
    }
}

/// Whatever key is pressed, a terminal that showed the prompt and the line before
/// the key shows the prompt and the line after it, with the cursor at the place of
/// the line's cursor. An entered line is left to be submitted.
pub proof fn law_terminal_shows_line<H, C: Fn(usize, &str) -> Vec<String>>(
    shell: ShellView<H, C>,
    s: SessionView,
    out: Seq<u8>,
    key: Key,
    t: SessionView,
    out2: Seq<u8>,
    next: Next,
    screen: Screen,
)
    requires
        shell::reacts(shell, s, out, key, t, out2, next),
        next != Next::Submit,
        shows(screen, shell.prompt, s.line),
        s.line.text().len() < 9_999_999_999_999,
    ensures
        exists|printed: Seq<u8>| #[trigger]
            turns(printed, screen, shell.prompt, t.line) && out2 == out + printed,
{
    if key == Key::Tab {
        lemma_tab_shows(shell, s, out, t, out2, screen);
    } else {
        let e = shell::key_effect(shell, s, key);
        laws::session::law_keys_are_determined(shell, s, out, key);
        lemma_key_shows(shell, s, key, screen);
        assert(turns(e.1, screen, shell.prompt, t.line));
    }
}

#[verifier::rlimit(50)]
proof fn lemma_key_shows<H, C>(shell: ShellView<H, C>, s: SessionView, key: Key, screen: Screen)
    requires
        key != Key::Tab,
        shell::key_effect(shell, s, key).2 != Next::Submit,
        shows(screen, shell.prompt, s.line),
        s.line.text().len() < 9_999_999_999_999,
    ensures
        turns(
            shell::key_effect(shell, s, key).1,
            screen,
            shell.prompt,
            shell::key_effect(shell, s, key).0.line,
        ),
{
    let p = shell.prompt;
    let l = s.line;
    let e = shell::key_effect(shell, s, key);
    let r = e.0.line;
    laws::session::lemma_literals();
    match key {
        Key::Char(c) => {
            text::lemma_encode_one(c);
            if e.1 == encode_utf8("\x07"@) && r == l {
                lemma_one(Op::Bell, screen, p, r);
            } else if l.after.len() == 0 {
                let after = done(Op::Show(seq![c]), screen);
                assert(screen.row.take(screen.col) =~= p + l.before);
                assert(after.row =~= p + r.before + r.after);
                lemma_one(Op::Show(seq![c]), screen, p, r);
            } else {
                lemma_redraw_shows(screen, p, r);
            }
        },
        Key::Left => {
            if l.before.len() > 0 {
                assert(p + r.before + r.after =~= p + l.before + l.after);
                lemma_one(Op::LeftOne, screen, p, r);
            } else {
                lemma_none(screen, p, r);
            }
        },
        Key::Right => {
            if l.after.len() > 0 {
                assert(p + r.before + r.after =~= p + l.before + l.after);
                lemma_one(Op::RightOne, screen, p, r);
            } else {
                lemma_none(screen, p, r);
            }
        },
        Key::Home => {
            assert(p + r.before + r.after =~= p + l.before + l.after);
            if l.before.len() > 0 {
                let d = util::decimal(l.before.len());
                laws::output::law_decimal_reads_back(l.before.len());
                laws::output::law_move_bytes(l.before.len(), 0x44, d);
                lemma_one(Op::Left(d), screen, p, r);
            } else {
                lemma_none(screen, p, r);
            }
        },
        Key::End => {
            assert(p + r.before + r.after =~= p + l.before + l.after);
            if l.after.len() > 0 {
                let d = util::decimal(l.after.len());
                laws::output::law_decimal_reads_back(l.after.len());
                laws::output::law_move_bytes(l.after.len(), 0x43, d);
                lemma_one(Op::Right(d), screen, p, r);
            } else {
                lemma_none(screen, p, r);
            }
        },
        Key::Backspace => {
            if l.before.len() > 0 {
                lemma_redraw_shows(screen, p, r);
            } else {
                lemma_none(screen, p, r);
            }
        },
        Key::Delete => {
            if l.after.len() > 0 {
                lemma_redraw_shows(screen, p, r);
            } else {
                lemma_none(screen, p, r);
            }
        },
        Key::CtrlW => {
            laws::editing::law_delete_word(l);
            if l.word_start() < l.word_end() {
                lemma_redraw_shows(screen, p, r);
            } else {
                lemma_none(screen, p, r);
            }
        },
        Key::CtrlU => {
            lemma_redraw_shows(screen, p, r);
        },
        Key::Up => {
            if e.0 == s && e.1.len() == 0 {
                assert(e.1 =~= Seq::empty());
                lemma_none(screen, p, r);
            } else {
                lemma_redraw_shows(screen, p, r);
            }
        },
        Key::Down => {
            if e.0 == s && e.1.len() == 0 {
                assert(e.1 =~= Seq::empty());
                lemma_none(screen, p, r);
            } else {
                lemma_redraw_shows(screen, p, r);
            }
        },
        Key::CtrlL => {
            let ops = Seq::<Op>::empty().push(Op::Clear);
            lemma_push(Seq::empty(), Op::Clear, screen);
            lemma_drawing(ops, screen, p, r);
            assert(told_all(ops) =~= told(Op::Clear));
        },
        Key::Enter => {
            lemma_new_prompt(screen, p, r);
        },
        Key::CtrlC => {
            reveal_strlit("^C\r\n");
            let caret = seq!['^', 'C'];
            is_ascii_chars_encode_utf8(caret);
            assert(encode_utf8(caret) =~= seq![0x5eu8, 0x43u8]);
            let a = Seq::<Op>::empty().push(Op::Show(caret));
            let b = a.push(Op::NewRow);
            let c = b.push(Op::Show(p));
            lemma_push(Seq::empty(), Op::Show(caret), screen);
            lemma_push(a, Op::NewRow, screen);
            lemma_push(b, Op::Show(p), screen);
            assert(e.1 =~= told_all(c));
            assert(done_all(c, screen).row =~= p + r.before + r.after);
        },
        Key::Tab => {},
    }
}

/// A new row with the prompt shows an empty line.
proof fn lemma_new_prompt(s: Screen, prompt: Seq<char>, line: LineView)
    requires
        line.before.len() == 0,
        line.after.len() == 0,
    ensures
        turns(seq![13u8, 10u8] + encode_utf8(prompt), s, prompt, line),
{
    let a = Seq::<Op>::empty().push(Op::NewRow);
    let b = a.push(Op::Show(prompt));
    lemma_push(Seq::empty(), Op::NewRow, s);
    lemma_push(a, Op::Show(prompt), s);
    assert(told_all(b) =~= seq![13u8, 10u8] + encode_utf8(prompt));
    assert(done_all(b, s).row =~= prompt + line.before + line.after);
}

proof fn lemma_tab_shows<H, C: Fn(usize, &str) -> Vec<String>>(
    shell: ShellView<H, C>,
    s: SessionView,
    out: Seq<u8>,
    t: SessionView,
    out2: Seq<u8>,
    screen: Screen,
)
    requires
        shell::tab_effect(shell, s, out, t, out2),
        shows(screen, shell.prompt, s.line),
        s.line.text().len() < 9_999_999_999_999,
    ensures
        exists|printed: Seq<u8>| #[trigger]
            turns(printed, screen, shell.prompt, t.line) && out2 == out + printed,
{
    let p = shell.prompt;
    let text = s.line.text();
    if s.line.after.len() > 0 {
        lemma_none(screen, p, t.line);
        assert(out2 =~= out + Seq::<u8>::empty());
    } else {
        let r = choose|r: Seq<Seq<char>>|
            #![trigger complete::offers(shell.commands, text, r)]
            complete::offers(shell.commands, text, r) && t == (SessionView {
                line: complete::completed_line(s.line, r),
                ..s
            }) && out2 == out + complete::completed_bytes(shell.prompt, s.line, r);
        let printed = complete::completed_bytes(p, s.line, r);
        laws::session::lemma_literals();
        assert(t.line.after.len() == 0);
        if r.len() == 0 {
            lemma_none(screen, p, t.line);
        } else if r.len() == 1 {
            lemma_redraw_shows(screen, p, t.line);
        } else {
            lemma_spaced(r);
            let list = spaced(r);
            let a = Seq::<Op>::empty().push(Op::NewRow);
            let b = a.push(Op::Show(list));
            let c = b.push(Op::NewRow);
            lemma_push(Seq::empty(), Op::NewRow, screen);
            lemma_push(a, Op::Show(list), screen);
            lemma_push(b, Op::NewRow, screen);
            lemma_drawing(c, screen, p, t.line);
            assert(told_all(c) + render::redraw_bytes(p, t.line) =~= printed);
        }
        assert(turns(printed, screen, p, t.line));
    }
}

/// A session begins with the prompt on the screen.
pub proof fn law_prompt_is_shown(prompt: Seq<char>, line: LineView)
    requires
        line.before.len() == 0,
        line.after.len() == 0,
    ensures
        turns(encode_utf8(prompt), Screen { row: Seq::empty(), col: 0 }, prompt, line),
{
    let s = Screen { row: Seq::empty(), col: 0 };
    assert(done(Op::Show(prompt), s).row =~= prompt + line.before + line.after);
    lemma_one(Op::Show(prompt), s, prompt, line);
}

} // verus!
