//! Line editing.

use vstd::prelude::*;
use vstd::utf8::*;

use crate::keys::Key;
use crate::line::LineView;
use crate::shell;
use crate::shell::{Next, SessionView, ShellView};
use crate::text;

verus! {

/// Backspace takes back the character typed last.
pub proof fn law_backspace_undoes_insert(l: LineView, c: char)
    ensures
        l.insert(c).backspace() == l,
{
    assert(l.before.push(c).drop_last() =~= l.before);
}

/// Delete takes back the character typed last, once the cursor stands on it.
pub proof fn law_delete_undoes_insert(l: LineView, c: char)
    ensures
        l.insert(c).left().delete() == l,
{
    assert(l.before.push(c).drop_last() =~= l.before);
    assert((seq![c] + l.after).drop_first() =~= l.after);
}

/// Left and Right take each other back, away from the ends of the line.
pub proof fn law_left_and_right(l: LineView)
    ensures
        l.before.len() > 0 ==> l.left().right() == l,
        l.after.len() > 0 ==> l.right().left() == l,
{
    if l.before.len() > 0 {
        assert(l.before.drop_last().push(l.before.last()) =~= l.before);
        assert((seq![l.before.last()] + l.after).drop_first() =~= l.after);
    }
    if l.after.len() > 0 {
        assert(l.before.push(l.after[0]).drop_last() =~= l.before);
        assert(seq![l.after[0]] + l.after.drop_first() =~= l.after);
    }
}

/// Moving the cursor does not change the text.
pub proof fn law_moves_keep_text(l: LineView)
    ensures
        l.left().text() == l.text(),
        l.right().text() == l.text(),
        l.home().text() == l.text(),
        l.end().text() == l.text(),
{
    assert(l.left().text() =~= l.text());
    assert(l.right().text() =~= l.text());
    assert(l.home().text() =~= l.text());
    assert(l.end().text() =~= l.text());
}

/// Home and End place the cursor whatever it was before.
pub proof fn law_home_and_end(l: LineView)
    ensures
        l.home().end() == l.end(),
        l.end().home() == l.home(),
        l.home().before.len() == 0,
        l.end().after.len() == 0,
{
    law_moves_keep_text(l);
}

/// Ctrl-W takes out the last word before the cursor and nothing else: what it
/// removes holds no whitespace, only whitespace stands between it and the cursor,
/// and what stands before it is at a whitespace or at the start of the line. Where
/// nothing but whitespace stands before the cursor, the line is left alone.
pub proof fn law_delete_word(l: LineView)
    ensures
        0 <= l.word_start() <= l.word_end() <= l.before.len(),
        forall|i: int|
            l.word_start() <= i < l.word_end() ==> !text::white_space(#[trigger] l.before[i]),
        forall|i: int|
            l.word_end() <= i < l.before.len() ==> text::white_space(#[trigger] l.before[i]),
        l.word_start() > 0 && l.word_start() < l.word_end() ==> text::white_space(
            l.before[l.word_start() - 1],
        ),
        l.word_start() == l.word_end() <==> text::is_blank(l.before),
        text::is_blank(l.before) ==> l.delete_word() == l,
        l.delete_word().text() == l.text().take(l.word_start()) + l.text().skip(l.word_end()),
        l.after.is_suffix_of(l.delete_word().after),
{
    let t = l.before;
    text::lemma_tail_len_holds(t, true);
    let head = t.take(l.word_end());
    text::lemma_tail_len_holds(head, false);
    assert forall|i: int| l.word_start() <= i < l.word_end() implies !text::white_space(
        #[trigger] t[i],
    ) by {
        assert(head[i] == t[i]);
    }
    if l.word_start() > 0 {
        assert(head[l.word_start() - 1] == t[l.word_start() - 1]);
    }
    if l.word_end() > 0 {
        assert(!text::white_space(t[l.word_end() - 1]));
        assert(head[l.word_end() - 1] == t[l.word_end() - 1]);
    }
    if text::is_blank(t) && l.word_end() > 0 {
        assert(text::white_space(t[l.word_end() - 1]));
    }
    let r = l.delete_word();
    assert(r.text() =~= l.text().take(l.word_start()) + l.text().skip(l.word_end()));
    assert(l.after =~= r.after.subrange(r.after.len() - l.after.len(), r.after.len() as int));
}

/// With the cursor at the start of the line there is no previous word: Ctrl-W
/// changes nothing and prints nothing.
pub proof fn law_no_word_before_start<H, C>(shell: ShellView<H, C>, s: SessionView)
    requires
        s.line.before.len() == 0,
    ensures
        shell::key_effect(shell, s, Key::CtrlW) == (s, Seq::<u8>::empty(), Next::Read),
{
    law_delete_word(s.line);
    assert(text::is_blank(s.line.before));
}

/// The part of `t` from `i` to `j` has no more bytes than `t` without it leaves.
proof fn lemma_drop_shorter(t: Seq<char>, i: int, j: int)
    requires
        0 <= i <= j <= t.len(),
    ensures
        encode_utf8(t.take(i) + t.skip(j)).len() <= encode_utf8(t).len(),
{
    text::lemma_boundary_of(t, i);
    let r = t.skip(i);
    text::lemma_boundary_of(r, j - i);
    assert(r.skip(j - i) =~= t.skip(j));
    text::lemma_encode_concat(t.take(i), t.skip(j));
}

/// A typed line does not outgrow its limit: a character that does not fit is
/// refused, and no other key but Tab (which inserts candidates) and the history
/// keys (which recall entries) makes the line longer.
pub proof fn law_line_is_capped<H, C>(shell: ShellView<H, C>, s: SessionView, key: Key)
    requires
        key != Key::Tab,
        key != Key::Up,
        key != Key::Down,
    ensures
        ({
            let t = shell::key_effect(shell, s, key).0;
            &&& key is Char ==> t.line.byte_len() <= shell.max_line_len || t.line == s.line
            &&& !(key is Char) ==> t.line.byte_len() <= s.line.byte_len()
        }),
{
    let l = s.line;
    law_moves_keep_text(l);
    match key {
        Key::Char(c) => {
            let t = l.text();
            let k = l.before.len() as int;
            text::lemma_encode_push(l.before, c);
            text::lemma_encode_concat(l.before.push(c), l.after);
            text::lemma_encode_concat(l.before, l.after);
        },
        Key::Backspace => {
            if l.before.len() > 0 {
                let k = l.before.len() as int;
                lemma_drop_shorter(l.text(), k - 1, k);
                assert(l.text().take(k - 1) + l.text().skip(k) =~= l.backspace().text());
            }
        },
        Key::Delete => {
            if l.after.len() > 0 {
                let k = l.before.len() as int;
                lemma_drop_shorter(l.text(), k, k + 1);
                assert(l.text().take(k) + l.text().skip(k + 1) =~= l.delete().text());
            }
        },
        Key::CtrlW => {
            law_delete_word(l);
            lemma_drop_shorter(l.text(), l.word_start(), l.word_end());
        },
        _ => {
            text::lemma_encode_len(LineView::at_end(Seq::empty()).text());
        },
    }
}

/// Once the line is full, every further character is answered with a `BEL` and
/// changes nothing.
pub proof fn law_full_line_rings<H, C>(shell: ShellView<H, C>, s: SessionView, c: char)
    requires
        s.line.byte_len() >= shell.max_line_len,
    ensures
        shell::key_effect(shell, s, Key::Char(c)) == (s, encode_utf8("\x07"@), Next::Read),
{
    text::lemma_encode_one(c);
}

/// The session after these characters have been typed.
pub open spec fn typed<H, C>(shell: ShellView<H, C>, s: SessionView, chars: Seq<char>) -> (
    SessionView,
    Seq<u8>,
)
    decreases chars.len(),
{
    if chars.len() == 0 {
        (s, Seq::empty())
    } else {
        let t = typed(shell, s, chars.drop_last());
        let e = shell::key_effect(shell, t.0, Key::Char(chars.last()));
        (e.0, t.1 + e.1)
    }
}

/// Characters typed at the end of a line with room for them are appended to it
/// and echoed as they are.
pub proof fn law_typing_echoes<H, C>(shell: ShellView<H, C>, s: SessionView, chars: Seq<char>)
    requires
        s.line.after.len() == 0,
        encode_utf8(s.line.text() + chars).len() <= shell.max_line_len,
    ensures
        typed(shell, s, chars).0 == (SessionView {
            line: LineView::at_end(s.line.text() + chars),
            ..s
        }),
        typed(shell, s, chars).1 == encode_utf8(chars),
    decreases chars.len(),
{
    assert(s.line.after =~= Seq::empty());
    assert(s.line.text() =~= s.line.before);
    if chars.len() == 0 {
        assert(s.line.text() + chars =~= s.line.before);
        assert(encode_utf8(chars) =~= Seq::empty());
        assert(typed(shell, s, chars).0 =~= (SessionView {
            line: LineView::at_end(s.line.text() + chars),
            ..s
        }));
    } else {
        let init = chars.drop_last();
        let c = chars.last();
        let a = s.line.text() + init;
        assert(s.line.text() + chars =~= a.push(c));
        text::lemma_encode_push(a, c);
        law_typing_echoes(shell, s, init);
        let t = typed(shell, s, init);
        assert(t.0.line.text() =~= a);
        assert(init.push(c) =~= chars);
        text::lemma_encode_push(init, c);
        assert(typed(shell, s, chars).0 =~= (SessionView {
            line: LineView::at_end(s.line.text() + chars),
            ..s
        }));
    }
}

/// Ctrl-C and Ctrl-U drop the line, whatever it was.
pub proof fn law_line_is_dropped<H, C>(shell: ShellView<H, C>, s: SessionView)
    ensures
        shell::key_effect(shell, s, Key::CtrlC).0.line.text().len() == 0,
        shell::key_effect(shell, s, Key::CtrlU).0.line.text().len() == 0,
{
}

} // verus!
