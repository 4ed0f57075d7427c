//! How completion splits a line.

use vstd::prelude::*;

use crate::complete;
use crate::text;

verus! {

/// Nothing but whitespace holds no word. Whitespace before a word counts for
/// nothing, a word goes up to the next whitespace, and what follows is split on its
/// own.
pub proof fn law_words(gap: Seq<char>, w: Seq<char>, rest: Seq<char>)
    requires
        forall|i: int| 0 <= i < gap.len() ==> text::white_space(#[trigger] gap[i]),
        w.len() > 0,
        forall|i: int| 0 <= i < w.len() ==> !text::white_space(#[trigger] w[i]),
        rest.len() > 0 ==> text::white_space(rest[0]),
    ensures
        text::words(gap).len() == 0,
        text::words(gap + w + rest) == seq![w] + text::words(rest),
{
    text::lemma_run_len(gap, true, gap.len() as int);
    let s = gap + w + rest;
    assert forall|i: int| 0 <= i < gap.len() implies text::white_space(#[trigger] s[i])
        == true by {
        assert(s[i] == gap[i]);
    }
    assert(s[gap.len() as int] == w[0]);
    text::lemma_run_len(s, true, gap.len() as int);
    let t = s.skip(gap.len() as int);
    assert(t =~= w + rest);
    assert forall|i: int| 0 <= i < w.len() implies text::white_space(#[trigger] t[i]) == false by {
        assert(t[i] == w[i]);
    }
    if rest.len() > 0 {
        assert(t[w.len() as int] == rest[0]);
    }
    text::lemma_run_len(t, false, w.len() as int);
    assert(t.take(w.len() as int) =~= w);
    assert(t.skip(w.len() as int) =~= rest);
}

/// What follows the last whitespace of a line is one more word, unless it is
/// empty.
pub proof fn law_words_of_line(s: Seq<char>, head: Seq<char>, token: Seq<char>)
    requires
        complete::ends_in(s, head, token),
    ensures
        text::words(s) == if token.len() == 0 {
            text::words(head)
        } else {
            text::words(head).push(token)
        },
    decreases head.len(),
{
    if token.len() == 0 {
        assert(s =~= head);
    } else {
        text::lemma_run_len_holds(head, true);
        let n = text::run_len(head, true) as int;
        let gap = head.take(n);
        assert forall|i: int| 0 <= i < gap.len() implies text::white_space(#[trigger] gap[i]) by {
            assert(gap[i] == head[i]);
        }
        let e = Seq::<char>::empty();
        if n == head.len() {
            assert(gap =~= head);
            assert(s =~= head + token + e);
            law_words(gap, token, e);
            law_words(e, token, e);
            assert(text::words(s) =~= text::words(head).push(token));
        } else {
            let t = head.skip(n);
            text::lemma_run_len_holds(t, false);
            let m = text::run_len(t, false) as int;
            let w = t.take(m);
            let rest = t.skip(m);
            assert(t[0] == head[n]);
            assert(m >= 1);
            assert(m < t.len()) by {
                if m == t.len() {
                    assert(t[t.len() - 1] == head[head.len() - 1]);
                    assert(text::white_space(t[t.len() - 1]) == false);
                }
            }
            assert forall|i: int| 0 <= i < w.len() implies !text::white_space(#[trigger] w[i]) by {
                assert(w[i] == t[i]);
            }
            assert(rest[0] == t[m]);
            assert(rest[rest.len() - 1] == head[head.len() - 1]);
            assert(head =~= gap + w + rest);
            assert(s =~= gap + w + (rest + token));
            law_words(gap, w, rest);
            law_words(gap, w, rest + token);
            law_words_of_line(rest + token, rest, token);
            assert(text::words(s) =~= text::words(head).push(token));
        }
    }
}

/// The partial token is what follows the last whitespace, and its index is the
/// number of words before it.
pub proof fn law_token_position(s: Seq<char>, head: Seq<char>, token: Seq<char>)
    requires
        complete::ends_in(s, head, token),
    ensures
        complete::stem(s) == head,
        complete::partial_token(s) == token,
        complete::token_index(s) == text::words(head).len(),
{
    complete::lemma_ends_in(s, head, token);
    law_words_of_line(s, head, token);
    text::lemma_tail_len_holds(s, false);
}

} // verus!
