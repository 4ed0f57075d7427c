//! A fixed-size buffer for short byte sequences.

use vstd::prelude::*;

verus! {

/// The first `n` elements of `s`, or all of them if there are fewer.
pub open spec fn clip(s: Seq<u8>, n: nat) -> Seq<u8> {
    if s.len() <= n {
        s
    } else {
        s.take(n as int)
    }
}

/// The ASCII decimal digits of `n`, without leading zeros.
pub open spec fn decimal(n: nat) -> Seq<u8>
    decreases n,
{
    if n < 10 {
        seq![(48 + n) as u8]
    } else {
        decimal(n / 10).push((48 + n % 10) as u8)
    }
}

/// The ANSI sequence `ESC [ n dir` that moves the cursor by `n` columns.
pub open spec fn cursor_move_seq(n: nat, dir: u8) -> Seq<u8> {
    seq![0x1bu8, 0x5bu8] + decimal(n) + seq![dir]
}

/// The power of ten with exponent `n`.
pub open spec fn pow10(n: nat) -> nat
    decreases n,
{
    if n == 0 {
        1
    } else {
        10 * pow10((n - 1) as nat)
    }
}

/// A number below a power of ten has no more digits than the exponent.
pub proof fn lemma_decimal_len(n: nat, k: nat)
    requires
        0 < k,
        n < pow10(k),
    ensures
        decimal(n).len() <= k,
    decreases k,
{
    if n >= 10 {
        assert(k == 1 ==> pow10(0) == 1);
        lemma_decimal_len(n / 10, (k - 1) as nat);
    }
}

/// Clipping part of a sequence first does not change what is clipped in the end.
proof fn lemma_clip_concat(s: Seq<u8>, t: Seq<u8>, n: nat)
    ensures
        clip(clip(s, n) + t, n) == clip(s + t, n),
{
    assert(clip(clip(s, n) + t, n) =~= clip(s + t, n));
}

/// Fixed-size stack buffer used to assemble short byte sequences (ANSI escapes,
/// numbers) without heap allocation. Overflowing writes are silently dropped.
pub struct StackWriter<const N: usize> {
    buf: [u8; N],
    len: usize,
}

/// The bytes written so far.
impl<const N: usize> View for StackWriter<N> {
    type V = Seq<u8>;

    closed spec fn view(&self) -> Seq<u8> {
        self.buf@.take(self.len as int)
    }
}

impl<const N: usize> StackWriter<N> {
    /// The length stays within the buffer.
    pub closed spec fn wf(&self) -> bool {
        self.len <= N
    }

    /// A well-formed writer holds at most `N` bytes.
    pub proof fn lemma_bounded(&self)
        requires
            self.wf(),
        ensures
            self@.len() <= N,
    {
    }

    /// An empty buffer.
    pub fn new() -> (w: Self)
        ensures
            w.wf(),
            w@ == Seq::<u8>::empty(),
    {
        StackWriter { buf: [0; N], len: 0 }
    }

    /// The bytes written so far.
    pub fn as_bytes(&self) -> (r: &[u8])
        requires
            self.wf(),
        ensures
            r@ == self@,
    {
        vstd::slice::slice_subrange(self.buf.as_slice(), 0, self.len)
    }

    /// Append a byte, dropping it if the buffer is full.
    pub fn push(&mut self, b: u8)
        requires
            old(self).wf(),
        ensures
            final(self).wf(),
            final(self)@ == clip(old(self)@.push(b), N as nat),
    {
        let ghost before = self@;
        if self.len < N {
            self.buf[self.len] = b;
            self.len += 1;
            assert(self@ =~= before.push(b));
        } else {
            assert(before.push(b).take(N as int) =~= before);
        }
    }

    /// Append an ASCII decimal number.
    pub fn push_usize(&mut self, v: usize)
        requires
            old(self).wf(),
        ensures
            final(self).wf(),
            final(self)@ == clip(old(self)@ + decimal(v as nat), N as nat),
    {
        let mut tmp = [0u8; 20];
        let mut i: usize = 20;
        let mut rest: usize = v;
        proof {
            reveal_with_fuel(pow10, 21);
            assert(tmp@.subrange(20, 20) =~= Seq::empty());
            assert(decimal(v as nat) + Seq::empty() =~= decimal(v as nat));
        }
        loop
            invariant_except_break
                0 < i <= 20,
                rest < pow10(i as nat),
                decimal(v as nat) == decimal(rest as nat) + tmp@.subrange(i as int, 20),
            ensures
                0 <= i <= 20,
                decimal(v as nat) == tmp@.subrange(i as int, 20),
            decreases i,
        {
            let ghost tail = tmp@.subrange(i as int, 20);
            let ghost rest0 = rest as nat;
            i -= 1;
            let digit: u8 = (rest % 10) as u8;
            tmp[i] = 48 + digit;
            rest = rest / 10;
            assert(tmp@.subrange(i as int, 20) =~= seq![(48 + digit) as u8] + tail);
            if rest == 0 {
                assert(decimal(rest0) + tail =~= seq![(48 + digit) as u8] + tail);
                break;
            }
            assert(i == 0 ==> pow10(i as nat) == 1);
            assert(decimal(rest0) + tail =~= decimal(rest as nat) + (seq![(48 + digit) as u8]
                + tail));
        }
        let ghost start = self@;
        let ghost digits = tmp@.subrange(i as int, 20);
        let ghost first = i as int;
        proof {
            self.lemma_bounded();
            assert(tmp@.subrange(first, first) =~= Seq::empty());
            assert(start + Seq::empty() =~= start);
        }
        while i < 20
            invariant
                self.wf(),
                0 <= first <= i <= 20,
                tmp@.len() == 20,
                self@ == clip(start + tmp@.subrange(first, i as int), N as nat),
            decreases 20 - i,
        {
            self.push(tmp[i]);
            proof {
                let done = tmp@.subrange(first, i as int);
                let next = seq![tmp@[i as int]];
                assert(tmp@.subrange(first, i + 1) =~= done + next);
                assert(start + (done + next) =~= (start + done) + next);
                lemma_clip_concat(start + done, next, N as nat);
                assert(clip(start + done, N as nat).push(tmp@[i as int]) =~= clip(
                    start + done,
                    N as nat,
                ) + next);
            }
            i += 1;
        }
    }
}

/// Build an ANSI cursor-move sequence `ESC [ n dir`.
pub fn cursor_move<const N: usize>(n: usize, dir: u8) -> (w: StackWriter<N>)
    ensures
        w.wf(),
        w@ == clip(cursor_move_seq(n as nat, dir), N as nat),
{
    let mut w = StackWriter::<N>::new();
    w.push(0x1b);
    w.push(0x5b);
    w.push_usize(n);
    w.push(dir);
    proof {
        let e = Seq::<u8>::empty();
        let a = seq![0x1bu8];
        let b = seq![0x5bu8];
        let d = decimal(n as nat);
        let m = N as nat;
        assert(e.push(0x1bu8) =~= a);
        assert(clip(a, m).push(0x5bu8) =~= clip(a, m) + b);
        lemma_clip_concat(a, b, m);
        lemma_clip_concat(a + b, d, m);
        lemma_clip_concat(a + b + d, seq![dir], m);
        assert(clip(a + b + d, m).push(dir) =~= clip(a + b + d, m) + seq![dir]);
        assert(a + b + d + seq![dir] =~= cursor_move_seq(n as nat, dir));
    }
    w
}

} // verus!
