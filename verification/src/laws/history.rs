//! The history.

use vstd::prelude::*;
use vstd::utf8::*;

use crate::history;
use crate::keys::{Encoding, Key};
use crate::laws;
use crate::line::LineView;
use crate::shell;
use crate::shell::{Next, SessionView, ShellView};

verus! {

/// No entry is the same as the one before it.
pub open spec fn no_repeats(h: Seq<Seq<char>>) -> bool {
    forall|i: int| 0 < i < h.len() ==> #[trigger] h[i] != h[i - 1]
}

/// Every entry fits in `n` bytes.
pub open spec fn entries_fit(h: Seq<Seq<char>>, n: nat) -> bool {
    forall|i: int| 0 <= i < h.len() ==> encode_utf8(#[trigger] h[i]).len() <= n
}

/// Once a line has been entered, no more than `max` entries are remembered,
/// however many there were. Entries that fit and do not repeat the one before them
/// stay so.
pub proof fn law_history_stays_within_limits(
    h: Seq<Seq<char>>,
    line: Seq<char>,
    max: nat,
    max_len: nat,
)
    ensures
        history::pushed(h, line, max, max_len).len() <= max,
        entries_fit(h, max_len) ==> entries_fit(history::pushed(h, line, max, max_len), max_len),
        no_repeats(h) ==> no_repeats(history::pushed(h, line, max, max_len)),
{
    let entry = history::cut(line, max_len);
    history::lemma_cut_fits(line, max_len);
    let r = history::pushed(h, line, max, max_len);
    let all = if h.len() > 0 && h.last() == entry {
        h
    } else {
        h.push(entry)
    };
    let k = all.len() - r.len();
    assert(r =~= all.skip(k));
    if no_repeats(h) {
        assert forall|i: int| 0 < i < r.len() implies #[trigger] r[i] != r[i - 1] by {
            assert(r[i] == all[i + k]);
            assert(r[i - 1] == all[i + k - 1]);
            if i + k < h.len() {
                assert(h[i + k] != h[i + k - 1]);
            }
        }
    }
}

/// What is remembered of an entered line is the last entry.
pub proof fn law_entered_line_is_last(h: Seq<Seq<char>>, line: Seq<char>, max: nat, max_len: nat)
    requires
        max > 0,
    ensures
        history::pushed(h, line, max, max_len).len() > 0,
        history::pushed(h, line, max, max_len).last() == history::cut(line, max_len),
{
}

/// Entering the same line again does not change the history.
pub proof fn law_repeated_line_is_remembered_once(
    h: Seq<Seq<char>>,
    line: Seq<char>,
    max: nat,
    max_len: nat,
)
    ensures
        ({
            let once = history::pushed(h, line, max, max_len);
            history::pushed(once, line, max, max_len) == once
        }),
{
    let once = history::pushed(h, line, max, max_len);
    let twice = history::pushed(once, line, max, max_len);
    if max > 0 {
        law_entered_line_is_last(h, line, max, max_len);
    }
    assert(twice =~= once);
}

/// Only the oldest entries are ever dropped: what is left is the end of the
/// history, with the new entry behind it unless it was the last one already.
pub proof fn law_oldest_entries_go(h: Seq<Seq<char>>, line: Seq<char>, max: nat, max_len: nat)
    ensures
        history::pushed(h, line, max, max_len).is_suffix_of(
            if h.len() > 0 && h.last() == history::cut(line, max_len) {
                h
            } else {
                h.push(history::cut(line, max_len))
            },
        ),
{
    let entry = history::cut(line, max_len);
    let all = if h.len() > 0 && h.last() == entry {
        h
    } else {
        h.push(entry)
    };
    let r = history::pushed(h, line, max, max_len);
    assert(r =~= all.subrange(all.len() - r.len(), all.len() as int));
}

/// The shell after these lines have been entered.
pub open spec fn after_lines<H, C>(shell: ShellView<H, C>, lines: Seq<Seq<char>>) -> ShellView<
    H,
    C,
>
    decreases lines.len(),
{
    if lines.len() == 0 {
        shell
    } else {
        shell::remembered(after_lines(shell, lines.drop_last()), lines.last())
    }
}

/// However many lines are entered into a shell that remembers none, its history
/// stays within the limits, and nothing else of the shell changes.
pub proof fn law_history_is_always_within_limits<H, C>(
    shell: ShellView<H, C>,
    lines: Seq<Seq<char>>,
)
    requires
        shell.history.len() == 0,
    ensures
        ({
            let r = after_lines(shell, lines);
            &&& r.history.len() <= shell.max_history
            &&& entries_fit(r.history, shell.max_history_len)
            &&& no_repeats(r.history)
            &&& r == (ShellView { history: r.history, ..shell })
        }),
    decreases lines.len(),
{
    if lines.len() > 0 {
        law_history_is_always_within_limits(shell, lines.drop_last());
        law_history_stays_within_limits(
            after_lines(shell, lines.drop_last()).history,
            lines.last(),
            shell.max_history,
            shell.max_history_len,
        );
    }
}

/// A line that fits is remembered whole.
pub proof fn law_short_line_is_kept_whole(line: Seq<char>, max_len: nat)
    requires
        encode_utf8(line).len() <= max_len,
    ensures
        history::cut(line, max_len) == line,
{
}

/// What is remembered of a line is its longest prefix that fits.
pub proof fn law_cut_is_longest(line: Seq<char>, max_len: nat, p: Seq<char>)
    requires
        p.is_prefix_of(line),
        encode_utf8(p).len() <= max_len,
    ensures
        history::cut(line, max_len).is_prefix_of(line),
        encode_utf8(history::cut(line, max_len)).len() <= max_len,
        p.is_prefix_of(history::cut(line, max_len)),
    decreases line.len(),
{
    history::lemma_cut_fits(line, max_len);
    if !(encode_utf8(line).len() <= max_len || line.len() == 0) {
        if p.len() == line.len() {
            assert(p =~= line);
        }
        assert(p =~= line.drop_last().subrange(0, p.len() as int));
        law_cut_is_longest(line.drop_last(), max_len, p);
    }
}

/// Typing leaves the place in the history alone.
proof fn lemma_typed_keeps_place<H, C>(shell: ShellView<H, C>, s: SessionView, chars: Seq<char>)
    ensures
        laws::editing::typed(shell, s, chars).0.hist_idx == s.hist_idx,
    decreases chars.len(),
{
    if chars.len() > 0 {
        lemma_typed_keeps_place(shell, s, chars.drop_last());
    }
}

/// The first Up of a session shows the entry remembered last, also where it is
/// from an earlier session, and whatever has been typed before. Down leaves what
/// has been typed alone until then.
pub proof fn law_first_up_shows_last_entry<H, C>(
    shell: ShellView<H, C>,
    encoding: Encoding,
    chars: Seq<char>,
)
    requires
        shell.history.len() > 0,
    ensures
        ({
            let s = laws::editing::typed(shell, shell::started(shell, encoding), chars).0;
            let up = shell::key_effect(shell, s, Key::Up).0;
            &&& up.line == LineView::at_end(shell.history.last())
            &&& up.draft == s.line.text()
            &&& shell::key_effect(shell, s, Key::Down) == (s, Seq::<u8>::empty(), Next::Read)
        }),
{
    lemma_typed_keeps_place(shell, shell::started(shell, encoding), chars);
}

/// Up after an entered line brings it back, as far as it was remembered.
pub proof fn law_up_recalls_entered_line<H, C>(shell: ShellView<H, C>, s: SessionView)
    requires
        shell.max_history > 0,
    ensures
        ({
            let after = shell::remembered(shell, s.line.text());
            shell::key_effect(after, shell::submitted(shell, s), Key::Up).0.line
                == LineView::at_end(history::cut(s.line.text(), shell.max_history_len))
        }),
{
    law_entered_line_is_last(
        shell.history,
        s.line.text(),
        shell.max_history,
        shell.max_history_len,
    );
}

/// Up and then Down bring back the line that was being typed.
pub proof fn law_down_restores_draft<H, C>(shell: ShellView<H, C>, s: SessionView)
    requires
        s.hist_idx == shell.history.len(),
        shell.history.len() > 0,
    ensures
        ({
            let up = shell::key_effect(shell, s, Key::Up).0;
            let down = shell::key_effect(shell, up, Key::Down).0;
            &&& down.line == LineView::at_end(s.line.text())
            &&& down.hist_idx == s.hist_idx
        }),
{
}

/// Down and then Up bring back the entry that was shown, if it was not edited.
pub proof fn law_up_returns_to_entry<H, C>(shell: ShellView<H, C>, s: SessionView)
    requires
        s.hist_idx < shell.history.len(),
        s.line == LineView::at_end(shell.history[s.hist_idx as int]),
    ensures
        ({
            let down = shell::key_effect(shell, s, Key::Down).0;
            let up = shell::key_effect(shell, down, Key::Up).0;
            up.line == s.line && up.hist_idx == s.hist_idx && up.draft == s.draft
        }),
{
    assert(LineView::at_end(s.draft).text() =~= s.draft);
}

/// Walking the history never leaves it.
pub proof fn law_history_index_stays_valid<H, C>(shell: ShellView<H, C>, s: SessionView, key: Key)
    requires
        s.hist_idx <= shell.history.len(),
    ensures
        shell::key_effect(shell, s, key).0.hist_idx <= shell.history.len(),
{
}

/// Entering a line drops no entry that the limit allows: with `m` entries to keep,
/// the old ones and the new one unless it repeats the last, exactly the smaller of
/// `m` and the limit are remembered, and these are the newest ones. With room left
/// every earlier entry is still there.
pub proof fn law_no_entry_is_dropped_early<H, C>(
    shell: ShellView<H, C>,
    line: Seq<char>,
    entry: Seq<char>,
)
    requires
        entry.is_prefix_of(line),
        encode_utf8(entry).len() <= shell.max_history_len,
        entry.len() < line.len() ==> encode_utf8(line.take(entry.len() as int + 1)).len()
            > shell.max_history_len,
    ensures
        ({
            let h = shell.history;
            let r = shell::remembered(shell, line).history;
            let repeated = h.len() > 0 && h.last() == entry;
            let m = if repeated {
                h.len()
            } else {
                h.len() + 1
            };
            &&& r.len() == if m < shell.max_history {
                m
            } else {
                shell.max_history
            }
            &&& r.len() > 0 ==> r.last() == entry
            &&& forall|i: int, j: int|
                #![trigger r[i], h[j]]
                0 <= i < r.len() && 0 <= j < h.len() && r.len() - i == m - j ==> r[i] == h[j]
            &&& m <= shell.max_history ==> h.is_prefix_of(r)
        }),
{
    let h = shell.history;
    let r = shell::remembered(shell, line).history;
    assert(entry =~= line.take(entry.len() as int));
    history::lemma_cut(line, shell.max_history_len, entry.len() as int);
    let repeated = h.len() > 0 && h.last() == entry;
    let all = if repeated {
        h
    } else {
        h.push(entry)
    };
    let k = all.len() - r.len();
    assert(r =~= all.skip(k));
    if r.len() > 0 {
        assert(r.last() == all[all.len() - 1]);
    }
    if all.len() <= shell.max_history {
        assert(h =~= r.subrange(0, h.len() as int));
    }
}

/// Entering a line changes nothing of the shell but its history.
pub proof fn law_only_history_changes<H, C>(shell: ShellView<H, C>, line: Seq<char>)
    ensures
        ({
            let r = shell::remembered(shell, line);
            &&& r.commands == shell.commands
            &&& r.prompt == shell.prompt
            &&& r.max_history == shell.max_history
            &&& r.max_history_len == shell.max_history_len
            &&& r.max_line_len == shell.max_line_len
        }),
{
}

/// The session after `k` presses of a key.
pub open spec fn pressed<H, C>(shell: ShellView<H, C>, s: SessionView, key: Key, k: nat) -> SessionView
    decreases k,
{
    if k == 0 {
        s
    } else {
        shell::key_effect(shell, pressed(shell, s, key, (k - 1) as nat), key).0
    }
}

/// `k` presses of Up show the `k`th entry from the end, with the cursor at its
/// end, and keep what was being typed as the draft; further presses stay on the
/// oldest entry.
pub proof fn law_ups_walk_back<H, C>(shell: ShellView<H, C>, s: SessionView, k: nat)
    requires
        s.hist_idx == shell.history.len(),
        shell.history.len() > 0,
        k > 0,
    ensures
        ({
            let n = shell.history.len();
            let t = pressed(shell, s, Key::Up, k);
            let i = if k < n {
                n - k
            } else {
                0
            };
            &&& t.line.before == shell.history[i]
            &&& t.line.after.len() == 0
            &&& t.hist_idx == i
            &&& t.draft == s.line.before + s.line.after
        }),
    decreases k,
{
    reveal_with_fuel(pressed, 2);
    if k > 1 {
        law_ups_walk_back(shell, s, (k - 1) as nat);
    }
}

/// After `k` presses of Up, one press of Down shows what `k - 1` presses of Up
/// show.
pub proof fn law_down_takes_back_one_up<H, C>(shell: ShellView<H, C>, s: SessionView, k: nat)
    requires
        s.hist_idx == shell.history.len(),
        2 <= k <= shell.history.len(),
    ensures
        shell::key_effect(shell, pressed(shell, s, Key::Up, k), Key::Down).0 == pressed(
            shell,
            s,
            Key::Up,
            (k - 1) as nat,
        ),
{
    law_ups_walk_back(shell, s, k);
    law_ups_walk_back(shell, s, (k - 1) as nat);
    lemma_ups_keep_rest(shell, s, k);
    lemma_ups_keep_rest(shell, s, (k - 1) as nat);
    let a = shell::key_effect(shell, pressed(shell, s, Key::Up, k), Key::Down).0;
    let b = pressed(shell, s, Key::Up, (k - 1) as nat);
    assert(a.line =~= b.line);
    assert(a =~= b);
}

proof fn lemma_ups_keep_rest<H, C>(shell: ShellView<H, C>, s: SessionView, k: nat)
    ensures
        ({
            let t = pressed(shell, s, Key::Up, k);
            t.tokens == s.tokens && t.keys == s.keys && t.encoding == s.encoding
        }),
    decreases k,
{
    if k > 0 {
        lemma_ups_keep_rest(shell, s, (k - 1) as nat);
    }
}

/// As many presses of Down as of Up bring back what was being typed, with the
/// cursor at its end.
pub proof fn law_downs_return_to_draft<H, C>(shell: ShellView<H, C>, s: SessionView, k: nat)
    requires
        s.hist_idx == shell.history.len(),
        1 <= k <= shell.history.len(),
    ensures
        ({
            let t = pressed(shell, pressed(shell, s, Key::Up, k), Key::Down, k);
            &&& t.line.before == s.line.before + s.line.after
            &&& t.line.after.len() == 0
            &&& t.hist_idx == shell.history.len()
        }),
    decreases k,
{
    let up = pressed(shell, s, Key::Up, k);
    law_ups_walk_back(shell, s, k);
    lemma_downs_from(shell, up, k);
}

proof fn lemma_downs_from<H, C>(shell: ShellView<H, C>, s: SessionView, k: nat)
    requires
        s.hist_idx + k <= shell.history.len(),
    ensures
        pressed(shell, s, Key::Down, k).hist_idx == s.hist_idx + k,
        pressed(shell, s, Key::Down, k).draft == s.draft,
        k > 0 && s.hist_idx + k == shell.history.len() ==> pressed(shell, s, Key::Down, k).line
            == LineView::at_end(s.draft),
    decreases k,
{
    if k > 0 {
        lemma_downs_from(shell, s, (k - 1) as nat);
    }
}

} // verus!
