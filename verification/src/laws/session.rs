//! What each key does to a session.

use vstd::prelude::*;
use vstd::utf8::*;

use crate::keys;
use crate::keys::{Decoded, Encoding, Input, Key};
use crate::render;
use crate::shell;
use crate::shell::{Next, SessionView, ShellView};
use crate::text;

verus! {

/// The session keeps everything but its line.
pub open spec fn only_line_changes(s: SessionView, t: SessionView) -> bool {
    &&& t.draft == s.draft
    &&& t.hist_idx == s.hist_idx
    &&& t.tokens == s.tokens
    &&& t.keys == s.keys
    &&& t.encoding == s.encoding
}

/// Whether the session goes on reading, with `printed` added to its output.
pub open spec fn goes_on(out: Seq<u8>, printed: Seq<u8>, out2: Seq<u8>, next: Next) -> bool {
    out2 == out + printed && next == Next::Read
}

/// Nothing happens.
pub open spec fn nothing_happens(
    s: SessionView,
    out: Seq<u8>,
    t: SessionView,
    out2: Seq<u8>,
    next: Next,
) -> bool {
    t == s && out2 == out && next == Next::Read
}

/// Backspace removes the character before the cursor, and leaves what stands at
/// the cursor and behind it there. At the start of the line nothing happens.
pub proof fn law_backspace_key<H, C: Fn(usize, &str) -> Vec<String>>(
    shell: ShellView<H, C>,
    s: SessionView,
    out: Seq<u8>,
    t: SessionView,
    out2: Seq<u8>,
    next: Next,
)
    requires
        shell::reacts(shell, s, out, Key::Backspace, t, out2, next),
    ensures
        s.line.before.len() > 0 ==> {
            &&& t.line.before == s.line.before.take(s.line.before.len() - 1)
            &&& t.line.after == s.line.after
            &&& only_line_changes(s, t)
            &&& goes_on(out, render::redraw_bytes(shell.prompt, t.line), out2, next)
        },
        s.line.before.len() == 0 ==> nothing_happens(s, out, t, out2, next),
{
    assert(out + Seq::<u8>::empty() =~= out);
}

/// Delete removes the character at the cursor, and leaves what stands before the
/// cursor there. At the end of the line nothing happens.
pub proof fn law_delete_key<H, C: Fn(usize, &str) -> Vec<String>>(
    shell: ShellView<H, C>,
    s: SessionView,
    out: Seq<u8>,
    t: SessionView,
    out2: Seq<u8>,
    next: Next,
)
    requires
        shell::reacts(shell, s, out, Key::Delete, t, out2, next),
    ensures
        s.line.after.len() > 0 ==> {
            &&& t.line.before == s.line.before
            &&& t.line.after == s.line.after.skip(1)
            &&& only_line_changes(s, t)
            &&& goes_on(out, render::redraw_bytes(shell.prompt, t.line), out2, next)
        },
        s.line.after.len() == 0 ==> nothing_happens(s, out, t, out2, next),
{
    assert(out + Seq::<u8>::empty() =~= out);
    if s.line.after.len() > 0 {
        assert(s.line.after.drop_first() =~= s.line.after.skip(1));
    }
}

/// Left takes the cursor over the character before it, without a change to the
/// text. At the start of the line nothing happens.
pub proof fn law_left_key<H, C: Fn(usize, &str) -> Vec<String>>(
    shell: ShellView<H, C>,
    s: SessionView,
    out: Seq<u8>,
    t: SessionView,
    out2: Seq<u8>,
    next: Next,
)
    requires
        shell::reacts(shell, s, out, Key::Left, t, out2, next),
    ensures
        s.line.before.len() > 0 ==> {
            &&& t.line.before + t.line.after == s.line.before + s.line.after
            &&& t.line.before.len() == s.line.before.len() - 1
            &&& only_line_changes(s, t)
            &&& goes_on(out, seq![0x1bu8, 0x5bu8, 0x44u8], out2, next)
        },
        s.line.before.len() == 0 ==> nothing_happens(s, out, t, out2, next),
{
    assert(out + Seq::<u8>::empty() =~= out);
    lemma_literals();
    if s.line.before.len() > 0 {
        assert(t.line.before + t.line.after =~= s.line.before + s.line.after);
    }
}

/// Right takes the cursor over the character at it, without a change to the text.
/// At the end of the line nothing happens.
pub proof fn law_right_key<H, C: Fn(usize, &str) -> Vec<String>>(
    shell: ShellView<H, C>,
    s: SessionView,
    out: Seq<u8>,
    t: SessionView,
    out2: Seq<u8>,
    next: Next,
)
    requires
        shell::reacts(shell, s, out, Key::Right, t, out2, next),
    ensures
        s.line.after.len() > 0 ==> {
            &&& t.line.before + t.line.after == s.line.before + s.line.after
            &&& t.line.before.len() == s.line.before.len() + 1
            &&& only_line_changes(s, t)
            &&& goes_on(out, seq![0x1bu8, 0x5bu8, 0x43u8], out2, next)
        },
        s.line.after.len() == 0 ==> nothing_happens(s, out, t, out2, next),
{
    assert(out + Seq::<u8>::empty() =~= out);
    lemma_literals();
    if s.line.after.len() > 0 {
        assert(t.line.before + t.line.after =~= s.line.before + s.line.after);
    }
}

/// Home takes the cursor to the start of the line, and End to its end, without a
/// change to the text, and the cursor of the terminal goes as many columns.
pub proof fn law_home_and_end_keys<H, C: Fn(usize, &str) -> Vec<String>>(
    shell: ShellView<H, C>,
    s: SessionView,
    out: Seq<u8>,
    key: Key,
    t: SessionView,
    out2: Seq<u8>,
    next: Next,
)
    requires
        key == Key::Home || key == Key::End,
        shell::reacts(shell, s, out, key, t, out2, next),
    ensures
        t.line.before + t.line.after == s.line.before + s.line.after,
        only_line_changes(s, t),
        key == Key::Home ==> t.line.before.len() == 0,
        key == Key::End ==> t.line.after.len() == 0,
        key == Key::Home && s.line.before.len() > 0 ==> goes_on(
            out,
            render::move_bytes(s.line.before.len(), 0x44),
            out2,
            next,
        ),
        key == Key::End && s.line.after.len() > 0 ==> goes_on(
            out,
            render::move_bytes(s.line.after.len(), 0x43),
            out2,
            next,
        ),
        key == Key::Home && s.line.before.len() == 0 || key == Key::End && s.line.after.len() == 0
            ==> goes_on(out, Seq::empty(), out2, next),
{
    assert(t.line.before + t.line.after =~= s.line.before + s.line.after);
}

/// A character that fits in the line is put at the cursor, and what stood there
/// stands behind it. At the end of the line it is echoed, elsewhere the line is
/// redrawn. A character that does not fit only rings the bell.
pub proof fn law_character_key<H, C: Fn(usize, &str) -> Vec<String>>(
    shell: ShellView<H, C>,
    s: SessionView,
    out: Seq<u8>,
    c: char,
    t: SessionView,
    out2: Seq<u8>,
    next: Next,
)
    requires
        shell::reacts(shell, s, out, Key::Char(c), t, out2, next),
    ensures
        encode_utf8(s.line.before + seq![c] + s.line.after).len() <= shell.max_line_len ==> {
            &&& t.line.before == s.line.before + seq![c]
            &&& t.line.after == s.line.after
            &&& only_line_changes(s, t)
            &&& goes_on(
                out,
                if s.line.after.len() == 0 {
                    encode_utf8(seq![c])
                } else {
                    render::redraw_bytes(shell.prompt, t.line)
                },
                out2,
                next,
            )
        },
        encode_utf8(s.line.before + seq![c] + s.line.after).len() > shell.max_line_len ==> t == s
            && goes_on(out, seq![7u8], out2, next),
{
    let l = s.line;
    text::lemma_encode_one(c);
    text::lemma_encode_concat(l.before, seq![c]);
    text::lemma_encode_concat(l.before + seq![c], l.after);
    text::lemma_encode_concat(l.before, l.after);
    assert(l.before.push(c) =~= l.before + seq![c]);
    lemma_literals();
}

/// Ctrl-W removes the word `w` that stands before the cursor, or before the
/// whitespace `gap` that stands before the cursor. What is before the word, the
/// whitespace and what is behind the cursor stay, and the cursor is where the word
/// was.
pub proof fn law_ctrl_w_key<H, C: Fn(usize, &str) -> Vec<String>>(
    shell: ShellView<H, C>,
    s: SessionView,
    out: Seq<u8>,
    head: Seq<char>,
    w: Seq<char>,
    gap: Seq<char>,
    t: SessionView,
    out2: Seq<u8>,
    next: Next,
)
    requires
        shell::reacts(shell, s, out, Key::CtrlW, t, out2, next),
        s.line.before == head + w + gap,
        w.len() > 0,
        forall|i: int| 0 <= i < w.len() ==> !text::white_space(#[trigger] w[i]),
        forall|i: int| 0 <= i < gap.len() ==> text::white_space(#[trigger] gap[i]),
        head.len() > 0 ==> text::white_space(head[head.len() - 1]),
    ensures
        t.line.before == head,
        t.line.after == gap + s.line.after,
        only_line_changes(s, t),
        goes_on(out, render::redraw_bytes(shell.prompt, t.line), out2, next),
{
    let b = s.line.before;
    assert forall|i: int| b.len() - gap.len() <= i < b.len() implies text::white_space(
        #[trigger] b[i],
    ) == true by {
        assert(b[i] == gap[i - head.len() - w.len()]);
    }
    assert(b[b.len() - gap.len() - 1] == w[w.len() - 1]);
    text::lemma_tail_len(b, true, gap.len() as int);
    let rest = b.take(s.line.word_end());
    assert(rest =~= head + w);
    assert forall|i: int| rest.len() - w.len() <= i < rest.len() implies text::white_space(
        #[trigger] rest[i],
    ) == false by {
        assert(rest[i] == w[i - head.len()]);
    }
    if head.len() > 0 {
        assert(rest[rest.len() - w.len() - 1] == head[head.len() - 1]);
    }
    text::lemma_tail_len(rest, false, w.len() as int);
    assert(b.take(s.line.word_start()) =~= head);
    assert(b.skip(s.line.word_end()) =~= gap);
}

/// Where nothing but whitespace stands before the cursor, Ctrl-W does nothing.
pub proof fn law_ctrl_w_without_word<H, C: Fn(usize, &str) -> Vec<String>>(
    shell: ShellView<H, C>,
    s: SessionView,
    out: Seq<u8>,
    t: SessionView,
    out2: Seq<u8>,
    next: Next,
)
    requires
        shell::reacts(shell, s, out, Key::CtrlW, t, out2, next),
        forall|i: int| 0 <= i < s.line.before.len() ==> text::white_space(#[trigger] s.line.before[i]),
    ensures
        nothing_happens(s, out, t, out2, next),
{
    let b = s.line.before;
    text::lemma_tail_len(b, true, b.len() as int);
    text::lemma_tail_len(b.take(0), false, 0);
    assert(out + Seq::<u8>::empty() =~= out);
}

/// Ctrl-U drops the whole line and keeps the place in the history.
pub proof fn law_ctrl_u_key<H, C: Fn(usize, &str) -> Vec<String>>(
    shell: ShellView<H, C>,
    s: SessionView,
    out: Seq<u8>,
    t: SessionView,
    out2: Seq<u8>,
    next: Next,
)
    requires
        shell::reacts(shell, s, out, Key::CtrlU, t, out2, next),
    ensures
        t.line.before.len() == 0,
        t.line.after.len() == 0,
        only_line_changes(s, t),
        goes_on(out, render::redraw_bytes(shell.prompt, t.line), out2, next),
{
}

/// Ctrl-C drops the line, leaves the history and prints a new prompt.
pub proof fn law_ctrl_c_key<H, C: Fn(usize, &str) -> Vec<String>>(
    shell: ShellView<H, C>,
    s: SessionView,
    out: Seq<u8>,
    t: SessionView,
    out2: Seq<u8>,
    next: Next,
)
    requires
        shell::reacts(shell, s, out, Key::CtrlC, t, out2, next),
    ensures
        t.line.before.len() == 0,
        t.line.after.len() == 0,
        t.hist_idx == shell.history.len(),
        t.draft == s.draft,
        t.tokens == s.tokens,
        t.keys == s.keys,
        t.encoding == s.encoding,
        goes_on(
            out,
            seq![0x5eu8, 0x43u8, 13u8, 10u8] + encode_utf8(shell.prompt),
            out2,
            next,
        ),
{
    lemma_literals();
}

/// Ctrl-L clears the screen and draws the line again, without a change to the
/// session.
pub proof fn law_ctrl_l_key<H, C: Fn(usize, &str) -> Vec<String>>(
    shell: ShellView<H, C>,
    s: SessionView,
    out: Seq<u8>,
    t: SessionView,
    out2: Seq<u8>,
    next: Next,
)
    requires
        shell::reacts(shell, s, out, Key::CtrlL, t, out2, next),
    ensures
        t == s,
        goes_on(
            out,
            seq![0x1bu8, 0x5bu8, 0x32u8, 0x4au8, 0x1bu8, 0x5bu8, 0x48u8] + render::redraw_bytes(
                shell.prompt,
                s.line,
            ),
            out2,
            next,
        ),
{
    lemma_literals();
}

/// Enter leaves a line with a visible character in it as it is, to be submitted.
/// A line of whitespace is dropped with the draft, and a new prompt is printed.
pub proof fn law_enter_key<H, C: Fn(usize, &str) -> Vec<String>>(
    shell: ShellView<H, C>,
    s: SessionView,
    out: Seq<u8>,
    t: SessionView,
    out2: Seq<u8>,
    next: Next,
)
    requires
        shell::reacts(shell, s, out, Key::Enter, t, out2, next),
    ensures
        (exists|i: int|
            0 <= i < s.line.text().len() && !text::white_space(#[trigger] s.line.text()[i])) ==> {
            &&& t == s
            &&& out2 == out + seq![13u8, 10u8]
            &&& next == Next::Submit
        },
        (forall|i: int|
            0 <= i < s.line.text().len() ==> text::white_space(#[trigger] s.line.text()[i])) ==> {
            &&& t.line.before.len() == 0
            &&& t.line.after.len() == 0
            &&& t.draft.len() == 0
            &&& t.hist_idx == shell.history.len()
            &&& t.tokens == s.tokens
            &&& t.keys == s.keys
            &&& t.encoding == s.encoding
            &&& goes_on(out, seq![13u8, 10u8] + encode_utf8(shell.prompt), out2, next)
        },
{
    lemma_literals();
}

/// Up shows the entry before the one shown, with the cursor at its end; what was
/// being typed becomes the draft when the history is entered. On the oldest entry,
/// and without a history, nothing happens.
pub proof fn law_up_key<H, C: Fn(usize, &str) -> Vec<String>>(
    shell: ShellView<H, C>,
    s: SessionView,
    out: Seq<u8>,
    t: SessionView,
    out2: Seq<u8>,
    next: Next,
)
    requires
        shell::reacts(shell, s, out, Key::Up, t, out2, next),
        s.hist_idx <= shell.history.len(),
    ensures
        s.hist_idx > 0 ==> {
            &&& t.line.before == shell.history[s.hist_idx - 1]
            &&& t.line.after.len() == 0
            &&& t.hist_idx == s.hist_idx - 1
            &&& s.hist_idx == shell.history.len() ==> t.draft == s.line.before + s.line.after
            &&& s.hist_idx < shell.history.len() ==> t.draft == s.draft
            &&& t.tokens == s.tokens
            &&& t.keys == s.keys
            &&& t.encoding == s.encoding
            &&& goes_on(out, render::redraw_bytes(shell.prompt, t.line), out2, next)
        },
        s.hist_idx == 0 ==> nothing_happens(s, out, t, out2, next),
{
    assert(out + Seq::<u8>::empty() =~= out);
}

/// Down shows the entry remembered next after the one shown, with the cursor at
/// its end, and the draft after the newest entry. While no entry is shown nothing
/// happens.
pub proof fn law_down_key<H, C: Fn(usize, &str) -> Vec<String>>(
    shell: ShellView<H, C>,
    s: SessionView,
    out: Seq<u8>,
    t: SessionView,
    out2: Seq<u8>,
    next: Next,
)
    requires
        shell::reacts(shell, s, out, Key::Down, t, out2, next),
    ensures
        s.hist_idx < shell.history.len() ==> {
            &&& s.hist_idx + 1 < shell.history.len() ==> t.line.before == shell.history[s.hist_idx
                as int + 1]
            &&& s.hist_idx + 1 == shell.history.len() ==> t.line.before == s.draft
            &&& t.line.after.len() == 0
            &&& t.hist_idx == s.hist_idx + 1
            &&& t.draft == s.draft
            &&& t.tokens == s.tokens
            &&& t.keys == s.keys
            &&& t.encoding == s.encoding
            &&& goes_on(out, render::redraw_bytes(shell.prompt, t.line), out2, next)
        },
        s.hist_idx >= shell.history.len() ==> nothing_happens(s, out, t, out2, next),
{
    assert(out + Seq::<u8>::empty() =~= out);
}

/// Every key but Tab has one effect only.
pub proof fn law_keys_are_determined<H, C: Fn(usize, &str) -> Vec<String>>(
    shell: ShellView<H, C>,
    s: SessionView,
    out: Seq<u8>,
    key: Key,
)
    requires
        key != Key::Tab,
    ensures
        ({
            let e = shell::key_effect(shell, s, key);
            &&& shell::reacts(shell, s, out, key, e.0, out + e.1, e.2)
            &&& forall|t: SessionView, out2: Seq<u8>, next: Next|
                #![trigger shell::reacts(shell, s, out, key, t, out2, next)]
                shell::reacts(shell, s, out, key, t, out2, next) ==> t == e.0 && out2 == out + e.1
                    && next == e.2
        }),
{
}

/// A byte that completes a key does what the key does, and one that does not only
/// counts toward the key: nothing is printed.
pub proof fn law_bytes_make_keys<H, C: Fn(usize, &str) -> Vec<String>>(
    shell: ShellView<H, C>,
    s: SessionView,
    out: Seq<u8>,
    b: u8,
    t: SessionView,
    out2: Seq<u8>,
    next: Next,
)
    requires
        shell::input_effect(shell, s, out, Input::Byte(b), t, out2, next),
    ensures
        ({
            let fresh = SessionView { keys: Seq::empty(), ..s };
            let d = keys::decode(s.keys + seq![b], s.encoding);
            &&& d matches Decoded::Key(key) ==> shell::reacts(
                shell,
                fresh,
                out,
                key,
                t,
                out2,
                next,
            )
            &&& d == Decoded::More ==> t == (SessionView { keys: s.keys + seq![b], ..s }) && out2
                == out && next == Next::Read
            &&& d == Decoded::Ignored ==> t == fresh && out2 == out && next == Next::Read
        }),
{
    assert(s.keys.push(b) =~= s.keys + seq![b]);
}

/// The end of the input ends the session without an error, a failure with that
/// error.
pub proof fn law_input_end<H, C: Fn(usize, &str) -> Vec<String>>(
    shell: ShellView<H, C>,
    s: SessionView,
    out: Seq<u8>,
    input: Input,
    t: SessionView,
    out2: Seq<u8>,
    next: Next,
)
    requires
        shell::input_effect(shell, s, out, input, t, out2, next),
    ensures
        input == Input::Eof ==> next == Next::Stop(Ok(())) && t == s && out2 == out,
        input matches Input::Failed(kind) ==> next == Next::Stop(
            Err(crate::error::Error::Io(kind)),
        ) && t == s && out2 == out,
{
}

/// A session begins with an empty line, behind the newest entry of the history.
pub proof fn law_session_begins_empty<H, C>(shell: ShellView<H, C>, encoding: Encoding)
    ensures
        ({
            let s = shell::started(shell, encoding);
            &&& s.line.before.len() == 0
            &&& s.line.after.len() == 0
            &&& s.draft.len() == 0
            &&& s.hist_idx == shell.history.len()
            &&& s.tokens.len() == 0
            &&& s.keys.len() == 0
            &&& s.encoding == encoding
        }),
{
}

/// A submitted line leaves an empty line behind the newest entry, and the words of
/// the line as tokens.
pub proof fn law_submitted_session<H, C>(shell: ShellView<H, C>, s: SessionView)
    ensures
        ({
            let line = s.line.before + s.line.after;
            let t = shell::submitted(shell, s);
            &&& t.line.before.len() == 0
            &&& t.line.after.len() == 0
            &&& t.draft.len() == 0
            &&& t.hist_idx == shell::remembered(shell, line).history.len()
            &&& t.tokens == crate::parse::tokens(line)
            &&& t.keys == s.keys
            &&& t.encoding == s.encoding
        }),
{
}

/// The bytes of the literals that keys print.
pub proof fn lemma_literals()
    ensures
        encode_utf8("\x07"@) == seq![7u8],
        encode_utf8("\r\n"@) == seq![13u8, 10u8],
        encode_utf8("\r"@) == seq![13u8],
        encode_utf8("\x1b[D"@) == seq![0x1bu8, 0x5bu8, 0x44u8],
        encode_utf8("\x1b[C"@) == seq![0x1bu8, 0x5bu8, 0x43u8],
        encode_utf8("\x1b[K"@) == seq![0x1bu8, 0x5bu8, 0x4bu8],
        encode_utf8("^C\r\n"@) == seq![0x5eu8, 0x43u8, 13u8, 10u8],
        encode_utf8("\x1b[2J\x1b[H"@) == seq![
            0x1bu8,
            0x5bu8,
            0x32u8,
            0x4au8,
            0x1bu8,
            0x5bu8,
            0x48u8,
        ],
        encode_utf8("  "@) == seq![32u8, 32u8],
        encode_utf8(": "@) == seq![58u8, 32u8],
{
    reveal_strlit("\x07");
    reveal_strlit("\r\n");
    reveal_strlit("\r");
    reveal_strlit("\x1b[D");
    reveal_strlit("\x1b[C");
    reveal_strlit("\x1b[K");
    reveal_strlit("^C\r\n");
    reveal_strlit("\x1b[2J\x1b[H");
    reveal_strlit("  ");
    reveal_strlit(": ");
    is_ascii_chars_encode_utf8("\x07"@);
    is_ascii_chars_encode_utf8("\r\n"@);
    is_ascii_chars_encode_utf8("\r"@);
    is_ascii_chars_encode_utf8("\x1b[D"@);
    is_ascii_chars_encode_utf8("\x1b[C"@);
    is_ascii_chars_encode_utf8("\x1b[K"@);
    is_ascii_chars_encode_utf8("^C\r\n"@);
    is_ascii_chars_encode_utf8("\x1b[2J\x1b[H"@);
    is_ascii_chars_encode_utf8("  "@);
    is_ascii_chars_encode_utf8(": "@);
    assert(encode_utf8("\x07"@) =~= seq![7u8]);
    assert(encode_utf8("\r\n"@) =~= seq![13u8, 10u8]);
    assert(encode_utf8("\r"@) =~= seq![13u8]);
    assert(encode_utf8("\x1b[D"@) =~= seq![0x1bu8, 0x5bu8, 0x44u8]);
    assert(encode_utf8("\x1b[C"@) =~= seq![0x1bu8, 0x5bu8, 0x43u8]);
    assert(encode_utf8("\x1b[K"@) =~= seq![0x1bu8, 0x5bu8, 0x4bu8]);
    assert(encode_utf8("^C\r\n"@) =~= seq![0x5eu8, 0x43u8, 13u8, 10u8]);
    assert(encode_utf8("\x1b[2J\x1b[H"@) =~= seq![
        0x1bu8,
        0x5bu8,
        0x32u8,
        0x4au8,
        0x1bu8,
        0x5bu8,
        0x48u8,
    ]);
    assert(encode_utf8("  "@) =~= seq![32u8, 32u8]);
    assert(encode_utf8(": "@) =~= seq![58u8, 32u8]);
}

} // verus!
