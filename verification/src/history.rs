//! The command history.

use std::collections::VecDeque;

use vstd::prelude::*;
use vstd::utf8::*;

use crate::parse;
use crate::text;

verus! {

/// The longest prefix of `s` that fits in `n` bytes.
pub open spec fn cut(s: Seq<char>, n: nat) -> Seq<char>
    decreases s.len(),
{
    if encode_utf8(s).len() <= n || s.len() == 0 {
        s
    } else {
        cut(s.drop_last(), n)
    }
}

/// The history after `line` has been entered: its first `max_len` bytes are
/// added at the end, unless the last entry is the same, and then the oldest
/// entries are dropped until at most `max` remain.
pub open spec fn pushed(
    history: Seq<Seq<char>>,
    line: Seq<char>,
    max: nat,
    max_len: nat,
) -> Seq<Seq<char>> {
    let entry = cut(line, max_len);
    let h = if history.len() > 0 && history.last() == entry {
        history
    } else {
        history.push(entry)
    };
    if h.len() > max {
        h.skip(h.len() - max)
    } else {
        h
    }
}

/// A prefix that fits while the next longer one does not is the longest that
/// fits.
pub proof fn lemma_cut(s: Seq<char>, n: nat, k: int)
    requires
        0 <= k <= s.len(),
        encode_utf8(s.take(k)).len() <= n,
        k < s.len() ==> encode_utf8(s.take(k + 1)).len() > n,
    ensures
        cut(s, n) == s.take(k),
    decreases s.len() - k,
{
    if k == s.len() {
        assert(s.take(k) =~= s);
    } else {
        text::lemma_boundary_of(s, k + 1);
        let t = s.drop_last();
        assert(t.take(k) =~= s.take(k));
        if k < t.len() {
            assert(t.take(k + 1) =~= s.take(k + 1));
        }
        lemma_cut(t, n, k);
    }
}

/// The cut of a line is a prefix of it and fits.
pub proof fn lemma_cut_fits(s: Seq<char>, n: nat)
    ensures
        cut(s, n).is_prefix_of(s),
        encode_utf8(cut(s, n)).len() <= n,
    decreases s.len(),
{
    if encode_utf8(s).len() <= n || s.len() == 0 {
        assert(s =~= s.subrange(0, s.len() as int));
    } else {
        lemma_cut_fits(s.drop_last(), n);
        let c = cut(s, n);
        assert(c =~= s.subrange(0, c.len() as int));
    }
}

/// The longest prefix of `line` that fits in `max_len` bytes.
pub fn cut_line(line: &str, max_len: usize) -> (r: &str)
    ensures
        r@ == cut(line@, max_len as nat),
{
    let total = text::byte_len(line);
    let mut end: usize = if total < max_len {
        total
    } else {
        max_len
    };
    proof {
        encode_utf8_valid_utf8(line@);
        is_char_boundary_start_end_of_seq(encode_utf8(line@));
    }
    while end > 0 && !line.is_char_boundary(end)
        invariant
            end <= max_len,
            end <= total,
            total == encode_utf8(line@).len(),
            total <= max_len ==> end == total,
            is_char_boundary(encode_utf8(line@), total as int),
            forall|j: int|
                end < j <= max_len && j <= total ==> !is_char_boundary(encode_utf8(line@), j),
        decreases end,
    {
        end -= 1;
    }
    let r = text::split(line, end).0;
    proof {
        let k = text::char_index(line@, end as int);
        text::lemma_split(line@, end as int);
        if k < line@.len() {
            text::lemma_boundary_of(line@, k + 1);
            text::lemma_encode_push(line@.take(k), line@[k]);
            text::lemma_encode_one(line@[k]);
            assert(line@.take(k).push(line@[k]) =~= line@.take(k + 1));
        }
        lemma_cut(line@, max_len as nat, k);
    }
    r
}

/// Remember a line: its first `max_len` bytes, unless they are the last entry
/// already. The oldest entries beyond `max` are dropped.
pub fn push(history: &mut VecDeque<String>, line: &str, max: usize, max_len: usize)
    ensures
        parse::views(final(history)@) == pushed(
            parse::views(old(history)@),
            line@,
            max as nat,
            max_len as nat,
        ),
        final(history)@.len() == ({
            let h = parse::views(old(history)@);
            let kept = if h.len() > 0 && h.last() == cut(line@, max_len as nat) {
                h.len()
            } else {
                h.len() + 1
            };
            if kept < max {
                kept
            } else {
                max as nat
            }
        }),
{
    let ghost h0 = parse::views(history@);
    let entry = cut_line(line, max_len);
    let n = history.len();
    assert(n > 0 ==> h0.last() == history@[n - 1]@);
    if n == 0 || *history[n - 1].as_str() != *entry {
        history.push_back(entry.to_owned());
        assert(parse::views(history@) =~= h0.push(entry@));
    }
    let ghost h = parse::views(history@);
    let ghost mut dropped: int = 0;
    assert(h.skip(0) =~= h);
    while history.len() > max
        invariant
            0 <= dropped <= h.len(),
            dropped > 0 ==> h.len() - dropped >= max,
            parse::views(history@) == h.skip(dropped),
        decreases h.len() - dropped,
    {
        let ghost before = history@;
        assert(parse::views(before).len() == before.len());
        let _ = history.pop_front();
        proof {
            assert(parse::views(history@) =~= parse::views(before).drop_first());
            assert(h.skip(dropped).drop_first() =~= h.skip(dropped + 1));
            dropped = dropped + 1;
        }
    }
    assert(parse::views(history@).len() == history@.len());
}

} // verus!
