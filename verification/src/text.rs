//! Strings as sequences of characters and as UTF-8 bytes.
//!
//! A `str` is modelled by its characters; positions in it are byte offsets into
//! its UTF-8 encoding. This module relates the two, gives contracts to the
//! functions of the standard library that the shell calls on text, and holds
//! the whitespace scans that completion and line editing are built from.

use vstd::prelude::*;
use vstd::utf8::*;

verus! {

// ---------------------------------------------------------------------------
// Functions of the standard library
// ---------------------------------------------------------------------------

/// `String::push` appends one character.
pub assume_specification[ String::push ](s: &mut String, c: char)
    ensures
        final(s)@ == old(s)@.push(c),
;

/// `String::clear` removes every character.
pub assume_specification[ String::clear ](s: &mut String)
    ensures
        final(s)@ == Seq::<char>::empty(),
;

/// `String::insert` puts one character at a byte offset, which must be a
/// character boundary of the string: the bytes before the offset stay in front
/// of it, the others follow it.
pub assume_specification[ String::insert ](s: &mut String, idx: usize, c: char)
    requires
        is_char_boundary(encode_utf8(old(s)@), idx as int),
    ensures
        encode_utf8(final(s)@) == encode_utf8(old(s)@).take(idx as int) + encode_scalar(c as u32)
            + encode_utf8(old(s)@).skip(idx as int),
;

/// `String::truncate` keeps the bytes before an offset, which must be a
/// character boundary, and does nothing when the string is not longer than that.
pub assume_specification[ String::truncate ](s: &mut String, new_len: usize)
    requires
        new_len < encode_utf8(old(s)@).len() ==> is_char_boundary(
            encode_utf8(old(s)@),
            new_len as int,
        ),
    ensures
        new_len < encode_utf8(old(s)@).len() ==> encode_utf8(final(s)@) == encode_utf8(
            old(s)@,
        ).take(new_len as int),
        new_len >= encode_utf8(old(s)@).len() ==> final(s)@ == old(s)@,
;

/// `String::replace_range` with an empty replacement takes the bytes from
/// `start` to `end` out of the string; both ends must be character boundaries.
#[verifier::external_body]
pub(crate) fn remove_range(s: &mut String, start: usize, end: usize)
    requires
        start <= end,
        is_char_boundary(encode_utf8(old(s)@), start as int),
        is_char_boundary(encode_utf8(old(s)@), end as int),
    ensures
        encode_utf8(final(s)@) == encode_utf8(old(s)@).take(start as int) + encode_utf8(
            old(s)@,
        ).skip(end as int),
{
    s.replace_range(start..end, "");
}

/// `char::len_utf8` is the number of bytes of the character's UTF-8 encoding.
pub assume_specification[ char::len_utf8 ](c: char) -> (n: usize)
    ensures
        n == encode_scalar(c as u32).len(),
;

/// The characters with the Unicode property `White_Space`.
pub open spec fn white_space(c: char) -> bool {
    ||| '\u{9}' <= c <= '\u{d}'
    ||| c == ' '
    ||| c == '\u{85}'
    ||| c == '\u{a0}'
    ||| c == '\u{1680}'
    ||| '\u{2000}' <= c <= '\u{200a}'
    ||| c == '\u{2028}'
    ||| c == '\u{2029}'
    ||| c == '\u{202f}'
    ||| c == '\u{205f}'
    ||| c == '\u{3000}'
}

/// `char::is_whitespace` tells whether a character has the Unicode property
/// `White_Space`.
pub assume_specification[ char::is_whitespace ](c: char) -> (b: bool)
    ensures
        b == white_space(c),
;

/// `==` on `str` compares the characters.
pub assume_specification[ <str as PartialEq>::eq ](s: &str, other: &str) -> (res: bool)
    ensures
        res == (s@ == other@),
;

/// The error of `core::str::from_utf8`.
#[verifier::external_type_specification]
#[verifier::external_body]
pub struct ExUtf8Error(core::str::Utf8Error);

/// `core::str::from_utf8` gives the bytes back as a string when they are valid
/// UTF-8, and fails exactly when they are not.
pub assume_specification<'a>[ core::str::from_utf8 ](v: &'a [u8]) -> (r: Result<
    &'a str,
    core::str::Utf8Error,
>)
    ensures
        r is Ok <==> valid_utf8(v@),
        r matches Ok(s) ==> encode_utf8(s@) == v@,
;

// ---------------------------------------------------------------------------
// Characters and their bytes
// ---------------------------------------------------------------------------

/// Encoding a concatenation is concatenating the encodings.
pub proof fn lemma_encode_concat(a: Seq<char>, b: Seq<char>)
    ensures
        encode_utf8(a + b) == encode_utf8(a) + encode_utf8(b),
    decreases a.len(),
{
    if a.len() == 0 {
        assert(a + b =~= b);
        assert(encode_utf8(a) + encode_utf8(b) =~= encode_utf8(b));
    } else {
        lemma_encode_concat(a.drop_first(), b);
        assert((a + b).drop_first() =~= a.drop_first() + b);
        assert(encode_utf8(a + b) =~= encode_utf8(a) + encode_utf8(b));
    }
}

/// Two strings with the same bytes have the same characters.
pub proof fn lemma_encode_injective(a: Seq<char>, b: Seq<char>)
    requires
        encode_utf8(a) == encode_utf8(b),
    ensures
        a == b,
{
    encode_utf8_decode_utf8(a);
    encode_utf8_decode_utf8(b);
}

/// The encoding of a single character.
pub proof fn lemma_encode_one(c: char)
    ensures
        encode_utf8(seq![c]) == encode_scalar(c as u32),
        1 <= encode_scalar(c as u32).len() <= 4,
{
    reveal_with_fuel(encode_utf8, 2);
    assert(seq![c].drop_first() =~= Seq::<char>::empty());
    assert(encode_utf8(seq![c]) =~= encode_scalar(c as u32));
}

/// Appending a character appends its encoding.
pub proof fn lemma_encode_push(a: Seq<char>, c: char)
    ensures
        encode_utf8(a.push(c)) == encode_utf8(a) + encode_scalar(c as u32),
{
    lemma_encode_concat(a, seq![c]);
    lemma_encode_one(c);
    assert(a.push(c) =~= a + seq![c]);
}

/// A string has at least as many bytes as characters.
pub proof fn lemma_encode_len(a: Seq<char>)
    ensures
        a.len() <= encode_utf8(a).len(),
        a.len() == 0 <==> encode_utf8(a).len() == 0,
    decreases a.len(),
{
    if a.len() > 0 {
        lemma_encode_one(a[0]);
        lemma_encode_len(a.drop_first());
    }
}

/// The end of a prefix is a character boundary.
pub proof fn lemma_prefix_boundary(a: Seq<char>, b: Seq<char>)
    ensures
        is_char_boundary(encode_utf8(a + b), encode_utf8(a).len() as int),
    decreases a.len(),
{
    encode_utf8_valid_utf8(a + b);
    if a.len() > 0 {
        let s = a + b;
        encode_utf8_first_scalar(s);
        lemma_encode_one(a[0]);
        assert(s.drop_first() =~= a.drop_first() + b);
        assert(pop_first_scalar(encode_utf8(s)) =~= encode_utf8(s.drop_first()));
        lemma_encode_concat(a, b);
        lemma_prefix_boundary(a.drop_first(), b);
    }
}

/// The number of characters that end at or before byte offset `i`.
pub open spec fn char_index(s: Seq<char>, i: int) -> int {
    decode_utf8(encode_utf8(s).subrange(0, i)).len() as int
}

/// What a character boundary splits a string into.
pub proof fn lemma_split(s: Seq<char>, i: int)
    requires
        is_char_boundary(encode_utf8(s), i),
    ensures
        0 <= i <= encode_utf8(s).len(),
        0 <= char_index(s, i) <= s.len(),
        encode_utf8(s.take(char_index(s, i))) == encode_utf8(s).subrange(0, i),
        encode_utf8(s.skip(char_index(s, i))) == encode_utf8(s).subrange(
            i,
            encode_utf8(s).len() as int,
        ),
        encode_utf8(s.take(char_index(s, i))).len() == i,
{
    let b = encode_utf8(s);
    let k = char_index(s, i);
    encode_utf8_valid_utf8(s);
    lemma_boundary_in_range(b, i);
    valid_utf8_split(b, i);
    decode_utf8_split(b, i);
    encode_utf8_decode_utf8(s);
    let b1 = b.subrange(0, i);
    let b2 = b.subrange(i, b.len() as int);
    decode_utf8_encode_utf8(b1);
    decode_utf8_encode_utf8(b2);
    assert(s == decode_utf8(b1) + decode_utf8(b2));
    assert(s.take(k) =~= decode_utf8(b1));
    assert(s.skip(k) =~= decode_utf8(b2));
}

proof fn lemma_boundary_in_range(bytes: Seq<u8>, i: int)
    requires
        valid_utf8(bytes),
        is_char_boundary(bytes, i),
    ensures
        0 <= i <= bytes.len(),
{
}

/// The byte offset of character number `k` is a boundary, and the `k` characters
/// before it are those that end there.
pub proof fn lemma_boundary_of(s: Seq<char>, k: int)
    requires
        0 <= k <= s.len(),
    ensures
        is_char_boundary(encode_utf8(s), encode_utf8(s.take(k)).len() as int),
        char_index(s, encode_utf8(s.take(k)).len() as int) == k,
        encode_utf8(s) == encode_utf8(s.take(k)) + encode_utf8(s.skip(k)),
{
    let a = s.take(k);
    let b = s.skip(k);
    assert(s =~= a + b);
    lemma_encode_concat(a, b);
    lemma_prefix_boundary(a, b);
    assert(encode_utf8(s).subrange(0, encode_utf8(a).len() as int) =~= encode_utf8(a));
    encode_utf8_decode_utf8(a);
}

// ---------------------------------------------------------------------------
// Slicing
// ---------------------------------------------------------------------------

/// The length of a string in bytes.
pub fn byte_len(s: &str) -> (n: usize)
    ensures
        n == encode_utf8(s@).len(),
{
    s.as_bytes().len()
}

/// Split a string at a character boundary.
pub fn split(s: &str, mid: usize) -> (r: (&str, &str))
    requires
        is_char_boundary(encode_utf8(s@), mid as int),
    ensures
        r.0@ == s@.take(char_index(s@, mid as int)),
        r.1@ == s@.skip(char_index(s@, mid as int)),
{
    let r = s.split_at(mid);
    proof {
        lemma_split(s@, mid as int);
        lemma_encode_injective(r.0@, s@.take(char_index(s@, mid as int)));
        lemma_encode_injective(r.1@, s@.skip(char_index(s@, mid as int)));
    }
    r
}

/// Whether `s` begins with `prefix`.
pub fn starts_with(s: &str, prefix: &str) -> (b: bool)
    ensures
        b == prefix@.is_prefix_of(s@),
{
    let mut a = s.chars();
    let mut p = prefix.chars();
    let ghost mut k: int = 0;
    loop
        invariant
            0 <= k <= prefix@.len(),
            k <= s@.len(),
            s@.take(k) == prefix@.take(k),
            vstd::std_specs::iter::IteratorSpec::remaining(&a) == s@.skip(k),
            vstd::std_specs::iter::IteratorSpec::remaining(&p) == prefix@.skip(k),
        decreases prefix@.len() - k,
    {
        match p.next() {
            None => {
                assert(prefix@.take(k) =~= prefix@);
                return true;
            },
            Some(c) => {
                match a.next() {
                    None => {
                        return false;
                    },
                    Some(d) => {
                        if c != d {
                            assert(prefix@[k] != s@[k]);
                            return false;
                        }
                        assert(s@.take(k + 1) =~= s@.take(k).push(d));
                        assert(prefix@.take(k + 1) =~= prefix@.take(k).push(c));
                        assert(s@.skip(k).drop_first() =~= s@.skip(k + 1));
                        assert(prefix@.skip(k).drop_first() =~= prefix@.skip(k + 1));
                        proof {
                            k = k + 1;
                        }
                    },
                }
            },
        }
    }
}

// ---------------------------------------------------------------------------
// Whitespace
// ---------------------------------------------------------------------------

/// The number of characters of `s`, from its start, that are whitespace
/// (`ws`) or that are not (`!ws`), up to the first of the other kind.
pub open spec fn run_len(s: Seq<char>, ws: bool) -> nat
    decreases s.len(),
{
    if s.len() > 0 && white_space(s[0]) == ws {
        1 + run_len(s.drop_first(), ws)
    } else {
        0
    }
}

/// The same, counted from the end of `s` backwards.
pub open spec fn tail_len(s: Seq<char>, ws: bool) -> nat
    decreases s.len(),
{
    if s.len() > 0 && white_space(s.last()) == ws {
        1 + tail_len(s.drop_last(), ws)
    } else {
        0
    }
}

/// Whether `s` holds nothing but whitespace.
pub open spec fn is_blank(s: Seq<char>) -> bool {
    forall|i: int| 0 <= i < s.len() ==> white_space(#[trigger] s[i])
}

/// The words of `s`: its longest runs of characters other than whitespace, in
/// order.
pub open spec fn words(s: Seq<char>) -> Seq<Seq<char>>
    decreases s.len(),
{
    let t = s.skip(run_len(s, true) as int);
    if t.len() == 0 {
        Seq::empty()
    } else {
        proof {
            lemma_run_len_holds(s, true);
            lemma_run_len_holds(t, false);
            assert(t[0] == s[run_len(s, true) as int]);
        }
        seq![t.take(run_len(t, false) as int)] + words(t.skip(run_len(t, false) as int))
    }
}

/// `run_len(s, ws)` is the one length at which the run stops.
pub proof fn lemma_run_len(s: Seq<char>, ws: bool, n: int)
    requires
        0 <= n <= s.len(),
        forall|i: int| 0 <= i < n ==> white_space(#[trigger] s[i]) == ws,
        n < s.len() ==> white_space(s[n]) != ws,
    ensures
        run_len(s, ws) == n,
    decreases s.len(),
{
    if n > 0 {
        assert(white_space(s[0]) == ws);
        assert forall|i: int| 0 <= i < n - 1 implies white_space(
            #[trigger] s.drop_first()[i],
        ) == ws by {
            assert(s.drop_first()[i] == s[i + 1]);
        }
        lemma_run_len(s.drop_first(), ws, n - 1);
    }
}

/// What the run at the start of `s` holds, and what ends it.
pub proof fn lemma_run_len_holds(s: Seq<char>, ws: bool)
    ensures
        run_len(s, ws) <= s.len(),
        forall|i: int| 0 <= i < run_len(s, ws) ==> white_space(#[trigger] s[i]) == ws,
        run_len(s, ws) < s.len() ==> white_space(s[run_len(s, ws) as int]) != ws,
    decreases s.len(),
{
    if s.len() > 0 && white_space(s[0]) == ws {
        lemma_run_len_holds(s.drop_first(), ws);
        assert forall|i: int| 0 <= i < run_len(s, ws) implies white_space(#[trigger] s[i])
            == ws by {
            if i > 0 {
                assert(s[i] == s.drop_first()[i - 1]);
            }
        }
    }
}

/// `tail_len(s, ws)` is the one length at which the run stops.
pub proof fn lemma_tail_len(s: Seq<char>, ws: bool, n: int)
    requires
        0 <= n <= s.len(),
        forall|i: int| s.len() - n <= i < s.len() ==> white_space(#[trigger] s[i]) == ws,
        n < s.len() ==> white_space(s[s.len() - n - 1]) != ws,
    ensures
        tail_len(s, ws) == n,
    decreases s.len(),
{
    if n > 0 {
        assert(white_space(s[s.len() - 1]) == ws);
        assert forall|i: int| s.drop_last().len() - (n - 1) <= i < s.drop_last().len() implies
            white_space(#[trigger] s.drop_last()[i]) == ws by {
            assert(s.drop_last()[i] == s[i]);
        }
        lemma_tail_len(s.drop_last(), ws, n - 1);
    }
}

/// What the run at the end of `s` holds, and what stands before it.
pub proof fn lemma_tail_len_holds(s: Seq<char>, ws: bool)
    ensures
        tail_len(s, ws) <= s.len(),
        forall|i: int|
            s.len() - tail_len(s, ws) <= i < s.len() ==> white_space(#[trigger] s[i]) == ws,
        tail_len(s, ws) < s.len() ==> white_space(s[s.len() - tail_len(s, ws) - 1]) != ws,
    decreases s.len(),
{
    if s.len() > 0 && white_space(s.last()) == ws {
        lemma_tail_len_holds(s.drop_last(), ws);
        assert forall|i: int| s.len() - tail_len(s, ws) <= i < s.len() implies white_space(
            #[trigger] s[i],
        ) == ws by {
            if i < s.len() - 1 {
                assert(s[i] == s.drop_last()[i]);
            }
        }
    }
}

/// Where the run of whitespace (or of other characters) at the start of `s`
/// ends, in bytes.
pub fn leading(s: &str, ws: bool) -> (n: usize)
    ensures
        run_len(s@, ws) <= s@.len(),
        n == encode_utf8(s@.take(run_len(s@, ws) as int)).len(),
        is_char_boundary(encode_utf8(s@), n as int),
        char_index(s@, n as int) == run_len(s@, ws),
{
    let total: usize = byte_len(s);
    let mut chars = s.chars();
    let mut n: usize = 0;
    let ghost mut k: int = 0;
    assert(s@.take(0) =~= Seq::<char>::empty());
    loop
        invariant_except_break
            0 <= k <= s@.len(),
            total == encode_utf8(s@).len(),
            n == encode_utf8(s@.take(k)).len(),
            forall|i: int| 0 <= i < k ==> white_space(#[trigger] s@[i]) == ws,
            vstd::std_specs::iter::IteratorSpec::remaining(&chars) == s@.skip(k),
        ensures
            0 <= k <= s@.len(),
            n == encode_utf8(s@.take(k)).len(),
            forall|i: int| 0 <= i < k ==> white_space(#[trigger] s@[i]) == ws,
            k < s@.len() ==> white_space(s@[k]) != ws,
        decreases s@.len() - k,
    {
        match chars.next() {
            None => {
                break;
            },
            Some(c) => {
                assert(c == s@[k]);
                if c.is_whitespace() != ws {
                    break;
                }
                proof {
                    assert(s@.take(k + 1) =~= s@.take(k).push(c));
                    lemma_encode_push(s@.take(k), c);
                    lemma_boundary_of(s@, k + 1);
                    assert(s@.skip(k).drop_first() =~= s@.skip(k + 1));
                    k = k + 1;
                }
                n = n + c.len_utf8();
            },
        }
    }
    proof {
        lemma_run_len(s@, ws, k);
        lemma_boundary_of(s@, k);
    }
    n
}

/// Where the run of whitespace (or of other characters) at the end of `s`
/// starts, in bytes.
pub fn trailing(s: &str, ws: bool) -> (n: usize)
    ensures
        tail_len(s@, ws) <= s@.len(),
        n == encode_utf8(s@.take(s@.len() - tail_len(s@, ws))).len(),
        is_char_boundary(encode_utf8(s@), n as int),
        char_index(s@, n as int) == s@.len() - tail_len(s@, ws),
{
    let total: usize = byte_len(s);
    let mut chars = s.chars();
    let mut at: usize = 0;
    let mut start: usize = 0;
    let ghost mut k: int = 0;
    let ghost mut j: int = 0;
    assert(s@.take(0) =~= Seq::<char>::empty());
    loop
        invariant
            0 <= j <= k <= s@.len(),
            total == encode_utf8(s@).len(),
            at == encode_utf8(s@.take(k)).len(),
            start == encode_utf8(s@.take(j)).len(),
            forall|i: int| j <= i < k ==> white_space(#[trigger] s@[i]) == ws,
            j > 0 ==> white_space(s@[j - 1]) != ws,
            vstd::std_specs::iter::IteratorSpec::remaining(&chars) == s@.skip(k),
        ensures
            0 <= j <= s@.len(),
            start == encode_utf8(s@.take(j)).len(),
            forall|i: int| j <= i < s@.len() ==> white_space(#[trigger] s@[i]) == ws,
            j > 0 ==> white_space(s@[j - 1]) != ws,
        decreases s@.len() - k,
    {
        match chars.next() {
            None => {
                break;
            },
            Some(c) => {
                assert(c == s@[k]);
                proof {
                    assert(s@.take(k + 1) =~= s@.take(k).push(c));
                    lemma_encode_push(s@.take(k), c);
                    lemma_boundary_of(s@, k + 1);
                    assert(s@.skip(k).drop_first() =~= s@.skip(k + 1));
                    k = k + 1;
                }
                at = at + c.len_utf8();
                if c.is_whitespace() != ws {
                    start = at;
                    proof {
                        j = k;
                    }
                }
            },
        }
    }
    proof {
        lemma_tail_len(s@, ws, s@.len() - j);
        lemma_boundary_of(s@, j);
    }
    start
}

/// Whether a string holds nothing but whitespace.
pub fn blank(s: &str) -> (b: bool)
    ensures
        b == is_blank(s@),
{
    let n = leading(s, true);
    let total = byte_len(s);
    proof {
        lemma_run_len_holds(s@, true);
        lemma_boundary_of(s@, run_len(s@, true) as int);
        lemma_encode_len(s@.skip(run_len(s@, true) as int));
        if run_len(s@, true) == s@.len() {
            assert(s@.take(s@.len() as int) =~= s@);
        } else {
            assert(!white_space(s@[run_len(s@, true) as int]));
        }
    }
    n == total
}

/// The number of words in a string.
pub fn word_count(s: &str) -> (n: usize)
    ensures
        n == words(s@).len(),
{
    let total: usize = byte_len(s);
    let mut rest: &str = s;
    let mut n: usize = 0;
    proof {
        lemma_encode_len(s@);
    }
    loop
        invariant
            n + words(rest@).len() == words(s@).len(),
            n + rest@.len() <= s@.len() <= total,
        ensures
            n == words(s@).len(),
        decreases rest@.len(),
    {
        let a = leading(rest, true);
        let body = split(rest, a).1;
        proof {
            lemma_run_len_holds(rest@, true);
            lemma_run_len_holds(body@, false);
        }
        if body.is_empty() {
            break;
        }
        let b = leading(body, false);
        let next = split(body, b).1;
        assert(body@[0] == rest@[run_len(rest@, true) as int]);
        assert(run_len(body@, false) >= 1);
        rest = next;
        n = n + 1;
    }
    n
}

/// The first word of a string, or the empty string.
pub fn first_word(s: &str) -> (w: &str)
    ensures
        words(s@).len() > 0 ==> w@ == words(s@)[0],
        words(s@).len() == 0 ==> w@.len() == 0,
{
    let a = leading(s, true);
    let body = split(s, a).1;
    let b = leading(body, false);
    let w = split(body, b).0;
    proof {
        lemma_run_len_holds(s@, true);
        lemma_run_len_holds(body@, false);
        if body@.len() > 0 {
            assert(body@[0] == s@[run_len(s@, true) as int]);
        }
    }
    w
}

} // verus!
