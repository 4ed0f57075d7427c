//! Splitting a command line into tokens, and small string utilities.

use core::str::Chars;

use vstd::prelude::*;
use vstd::std_specs::iter::*;
use vstd::utf8::*;

use crate::text;

verus! {

// ---------------------------------------------------------------------------
// The grammar of a command line
// ---------------------------------------------------------------------------

/// Space and tab separate tokens.
pub open spec fn is_separator(c: char) -> bool {
    c == ' ' || c == '\t'
}

/// The text of a single-quoted section, given what follows the opening quote,
/// and what follows the section. Everything up to the closing quote is literal;
/// a missing closing quote ends with the line.
pub open spec fn single_quoted(s: Seq<char>) -> (Seq<char>, Seq<char>)
    decreases s.len(),
{
    if s.len() == 0 {
        (Seq::empty(), s)
    } else if s[0] == '\'' {
        (Seq::empty(), s.drop_first())
    } else {
        let (t, rest) = single_quoted(s.drop_first());
        (seq![s[0]] + t, rest)
    }
}

/// The characters that a backslash escapes between double quotes.
pub open spec fn is_escapable(c: char) -> bool {
    c == '"' || c == '\\' || c == '$' || c == '`'
}

/// The text of a double-quoted section, given what follows the opening quote,
/// and what follows the section. A backslash before an escapable character
/// stands for that character, before any other it stands for itself, and at the
/// end of the line it is dropped.
pub open spec fn double_quoted(s: Seq<char>) -> (Seq<char>, Seq<char>)
    decreases s.len(),
{
    if s.len() == 0 {
        (Seq::empty(), s)
    } else if s[0] == '"' {
        (Seq::empty(), s.drop_first())
    } else if s[0] == '\\' {
        if s.len() == 1 {
            (Seq::empty(), s.drop_first())
        } else {
            let (t, rest) = double_quoted(s.skip(2));
            (
                if is_escapable(s[1]) {
                    seq![s[1]] + t
                } else {
                    seq!['\\', s[1]] + t
                },
                rest,
            )
        }
    } else {
        let (t, rest) = double_quoted(s.drop_first());
        (seq![s[0]] + t, rest)
    }
}

/// The rest of a token, up to the next separator outside quotes or the end of
/// the line, and what follows it. A token is any sequence of quoted sections,
/// backslash-escaped characters and plain characters.
pub open spec fn word(s: Seq<char>) -> (Seq<char>, Seq<char>)
    decreases s.len(),
{
    if s.len() == 0 || is_separator(s[0]) {
        (Seq::empty(), s)
    } else if s[0] == '\'' {
        let q = single_quoted(s.drop_first());
        proof {
            lemma_single_quoted_len(s.drop_first());
        }
        let w = word(q.1);
        (q.0 + w.0, w.1)
    } else if s[0] == '"' {
        let q = double_quoted(s.drop_first());
        proof {
            lemma_double_quoted_len(s.drop_first());
        }
        let w = word(q.1);
        (q.0 + w.0, w.1)
    } else if s[0] == '\\' {
        if s.len() == 1 {
            (Seq::empty(), s.drop_first())
        } else {
            let w = word(s.skip(2));
            (seq![s[1]] + w.0, w.1)
        }
    } else {
        let w = word(s.drop_first());
        (seq![s[0]] + w.0, w.1)
    }
}

/// The tokens of a command line.
pub open spec fn tokens(s: Seq<char>) -> Seq<Seq<char>>
    decreases s.len(),
{
    if s.len() == 0 {
        Seq::empty()
    } else if is_separator(s[0]) {
        tokens(s.drop_first())
    } else {
        proof {
            lemma_word_len(s);
        }
        seq![word(s).0] + tokens(word(s).1)
    }
}

pub proof fn lemma_single_quoted_len(s: Seq<char>)
    ensures
        single_quoted(s).1.len() <= s.len(),
    decreases s.len(),
{
    if s.len() > 0 && s[0] != '\'' {
        lemma_single_quoted_len(s.drop_first());
    }
}

pub proof fn lemma_double_quoted_len(s: Seq<char>)
    ensures
        double_quoted(s).1.len() <= s.len(),
    decreases s.len(),
{
    if s.len() > 0 && s[0] != '"' {
        if s[0] == '\\' {
            if s.len() > 1 {
                lemma_double_quoted_len(s.skip(2));
            }
        } else {
            lemma_double_quoted_len(s.drop_first());
        }
    }
}

pub proof fn lemma_word_len(s: Seq<char>)
    ensures
        word(s).1.len() <= s.len(),
        s.len() > 0 && !is_separator(s[0]) ==> word(s).1.len() < s.len(),
    decreases s.len(),
{
    if s.len() == 0 || is_separator(s[0]) {
    } else if s[0] == '\'' {
        lemma_single_quoted_len(s.drop_first());
        lemma_word_len(single_quoted(s.drop_first()).1);
    } else if s[0] == '"' {
        lemma_double_quoted_len(s.drop_first());
        lemma_word_len(double_quoted(s.drop_first()).1);
    } else if s[0] == '\\' {
        if s.len() > 1 {
            lemma_word_len(s.skip(2));
        }
    } else {
        lemma_word_len(s.drop_first());
    }
}

/// A line with a character other than whitespace has a token.
pub proof fn lemma_token_of_visible(s: Seq<char>)
    requires
        !text::is_blank(s),
    ensures
        tokens(s).len() > 0,
    decreases s.len(),
{
    let i = choose|i: int| 0 <= i < s.len() && !text::white_space(#[trigger] s[i]);
    if is_separator(s[0]) {
        assert(s.drop_first()[i - 1] == s[i]);
        lemma_token_of_visible(s.drop_first());
    }
}

// ---------------------------------------------------------------------------
// The tokenizer
// ---------------------------------------------------------------------------

/// The contents of a list of strings.
pub open spec fn views(v: Seq<String>) -> Seq<Seq<char>> {
    Seq::new(v.len(), |i: int| v[i]@)
}

/// Make sure slot `i` exists in `tokens` and is empty: pushes a new `String` if
/// `i == tokens.len()`, otherwise clears the existing entry so its heap
/// allocation is reused.
pub fn reset_slot(tokens: &mut Vec<String>, i: usize)
    requires
        i <= old(tokens).len(),
    ensures
        final(tokens).len() == (if i == old(tokens).len() {
            old(tokens).len() + 1
        } else {
            old(tokens).len() as int
        }),
        final(tokens)@[i as int]@ == Seq::<char>::empty(),
        forall|j: int|
            0 <= j < old(tokens).len() && j != i ==> final(tokens)@[j] == old(tokens)@[j],
{
    if i == tokens.len() {
        tokens.push(String::new());
    } else {
        tokens[i].clear();
    }
}

/// Append a single-quoted section to a token.
fn push_single_quoted(chars: &mut Chars<'_>, token: &mut String, Ghost(bound): Ghost<nat>)
    requires
        IteratorSpec::remaining(&*old(chars)).len() <= bound,
    ensures
        final(token)@ == old(token)@ + single_quoted(IteratorSpec::remaining(&*old(chars))).0,
        IteratorSpec::remaining(&*final(chars)) == single_quoted(
            IteratorSpec::remaining(&*old(chars)),
        ).1,
{
    let ghost mut read: int = 0;
    loop
        invariant
            ({
                let now = single_quoted(IteratorSpec::remaining(&*chars));
                let all = single_quoted(IteratorSpec::remaining(&*old(chars)));
                &&& token@ + now.0 == old(token)@ + all.0
                &&& now.1 == all.1
            }),
            0 <= read,
            read + IteratorSpec::remaining(&*chars).len() <= bound,
        decreases bound - read,
    {
        let ghost before = IteratorSpec::remaining(&*chars);
        let ghost t0 = token@;
        proof {
            read = read + 1;
        }
        match chars.next() {
            None => {
                assert(t0 + Seq::<char>::empty() =~= t0);
                return;
            },
            Some(c) => {
                if c == '\'' {
                    assert(t0 + Seq::<char>::empty() =~= t0);
                    return;
                }
                token.push(c);
                assert(t0.push(c) + single_quoted(before.drop_first()).0 =~= t0 + (seq![c]
                    + single_quoted(before.drop_first()).0));
            },
        }
    }
}

/// Append a double-quoted section to a token.
fn push_double_quoted(chars: &mut Chars<'_>, token: &mut String, Ghost(bound): Ghost<nat>)
    requires
        IteratorSpec::remaining(&*old(chars)).len() <= bound,
    ensures
        final(token)@ == old(token)@ + double_quoted(IteratorSpec::remaining(&*old(chars))).0,
        IteratorSpec::remaining(&*final(chars)) == double_quoted(
            IteratorSpec::remaining(&*old(chars)),
        ).1,
{
    let ghost mut read: int = 0;
    loop
        invariant
            ({
                let now = double_quoted(IteratorSpec::remaining(&*chars));
                let all = double_quoted(IteratorSpec::remaining(&*old(chars)));
                &&& token@ + now.0 == old(token)@ + all.0
                &&& now.1 == all.1
            }),
            0 <= read,
            read + IteratorSpec::remaining(&*chars).len() <= bound,
        decreases bound - read,
    {
        let ghost before = IteratorSpec::remaining(&*chars);
        let ghost t0 = token@;
        proof {
            read = read + 1;
        }
        match chars.next() {
            None => {
                assert(t0 + Seq::<char>::empty() =~= t0);
                return;
            },
            Some(c) => {
                if c == '"' {
                    assert(t0 + Seq::<char>::empty() =~= t0);
                    return;
                }
                if c == '\\' {
                    assert(before.drop_first().drop_first() =~= before.skip(2)
                        || before.len() == 1);
                    match chars.next() {
                        None => {
                            assert(t0 + Seq::<char>::empty() =~= t0);
                            return;
                        },
                        Some(n) => {
                            let ghost t = double_quoted(before.skip(2)).0;
                            if n == '"' || n == '\\' || n == '$' || n == '`' {
                                token.push(n);
                                assert(t0.push(n) + t =~= t0 + (seq![n] + t));
                            } else {
                                token.push('\\');
                                token.push(n);
                                assert(t0.push('\\').push(n) + t =~= t0 + (seq!['\\', n] + t));
                            }
                        },
                    }
                } else {
                    token.push(c);
                    assert(t0.push(c) + double_quoted(before.drop_first()).0 =~= t0 + (seq![c]
                        + double_quoted(before.drop_first()).0));
                }
            },
        }
    }
}

/// The tokens of a line of which `done` are complete and `current` has been
/// begun, when `rest` remains to be read.
spec fn pending_tokens(
    done: Seq<Seq<char>>,
    current: Option<Seq<char>>,
    rest: Seq<char>,
) -> Seq<Seq<char>> {
    match current {
        None => done + tokens(rest),
        Some(w) => done + (seq![w + word(rest).0] + tokens(word(rest).1)),
    }
}

/// The slots of `now` behind the first `n` are those of `then`, none was
/// dropped, and none was added that is not among the first `n`.
spec fn slots_kept(then: Seq<String>, now: Seq<String>, n: int) -> bool {
    &&& now.len() == (if then.len() > n {
        then.len() as int
    } else {
        n
    })
    &&& forall|j: int| n <= j < then.len() ==> now[j] == then[j]
}

/// Split a command line into tokens, with bash-like support for single quotes
/// (`'...'`, literal), double quotes (`"..."`, with `\"` and `\\` escapes) and
/// backslash escapes outside quotes.
///
/// Tokens are written into a caller-owned `Vec<String>` whose existing slots are
/// reused across calls (each slot is cleared only when a new token starts); the
/// return value is the token count, so callers use `&tokens[..n]` and the vector
/// is never shrunk. Repeated calls on a long-lived vector therefore stop
/// allocating once the largest line seen so far has been processed.
pub fn tokenize_into(line: &str, tokens: &mut Vec<String>) -> (n: usize)
    ensures
        n == self::tokens(line@).len(),
        n <= final(tokens).len(),
        views(final(tokens)@.take(n as int)) == self::tokens(line@),
        final(tokens).len() == (if old(tokens).len() > n {
            old(tokens).len()
        } else {
            n
        }),
        forall|j: int| n <= j < old(tokens).len() ==> final(tokens)@[j] == old(tokens)@[j],
{
    let mut i: usize = 0;
    let mut started = false;
    let mut chars = line.chars();
    let ghost mut read: int = 0;
    proof {
        assert(views(tokens@.take(0)) =~= Seq::empty());
        assert(Seq::<Seq<char>>::empty() + self::tokens(line@) =~= self::tokens(line@));
    }
    loop
        invariant_except_break
            0 <= read,
            read + IteratorSpec::remaining(&chars).len() <= line@.len(),
            pending_tokens(
                views(tokens@.take(i as int)),
                if started {
                    Some(tokens@[i as int]@)
                } else {
                    None
                },
                IteratorSpec::remaining(&chars),
            ) == self::tokens(line@),
        invariant
            slots_kept(
                old(tokens)@,
                tokens@,
                if started {
                    i + 1
                } else {
                    i as int
                },
            ),
        ensures
            pending_tokens(
                views(tokens@.take(i as int)),
                if started {
                    Some(tokens@[i as int]@)
                } else {
                    None
                },
                Seq::empty(),
            ) == self::tokens(line@),
        decreases line@.len() - read,
    {
        let ghost rest = IteratorSpec::remaining(&chars);
        let ghost done = views(tokens@.take(i as int));
        proof {
            read = read + 1;
        }
        match chars.next() {
            None => {
                assert(rest =~= Seq::empty());
                break;
            },
            Some(c) => {
                if c == ' ' || c == '\t' {
                    if started {
                        assert(i < tokens.len());
                        assert(views(tokens@.take(i + 1)) =~= done.push(tokens@[i as int]@));
                        assert(tokens@[i as int]@ + Seq::<char>::empty() =~= tokens@[i as int]@);
                        assert(done + (seq![tokens@[i as int]@] + self::tokens(rest)) =~= done.push(
                            tokens@[i as int]@,
                        ) + self::tokens(rest));
                        i += 1;
                        started = false;
                    }
                } else {
                    if !started {
                        reset_slot(tokens, i);
                        assert(views(tokens@.take(i as int)) =~= done);
                        started = true;
                        assert(Seq::<char>::empty() + word(rest).0 =~= word(rest).0);
                    }
                    let ghost t0 = tokens@[i as int]@;
                    let ghost mid = tokens@;
                    assert(pending_tokens(done, Some(t0), rest) == self::tokens(line@));
                    if c == '\'' {
                        push_single_quoted(&mut chars, &mut tokens[i], Ghost(line@.len()));
                        proof {
                            lemma_single_quoted_len(rest.drop_first());
                        }
                        let ghost q = single_quoted(rest.drop_first());
                        assert(t0 + q.0 + word(q.1).0 =~= t0 + (q.0 + word(q.1).0));
                    } else if c == '"' {
                        push_double_quoted(&mut chars, &mut tokens[i], Ghost(line@.len()));
                        proof {
                            lemma_double_quoted_len(rest.drop_first());
                        }
                        let ghost q = double_quoted(rest.drop_first());
                        assert(t0 + q.0 + word(q.1).0 =~= t0 + (q.0 + word(q.1).0));
                    } else if c == '\\' {
                        match chars.next() {
                            Some(n) => {
                                tokens[i].push(n);
                                assert(rest.drop_first().drop_first() =~= rest.skip(2));
                                assert(t0.push(n) + word(rest.skip(2)).0 =~= t0 + (seq![n] + word(
                                    rest.skip(2),
                                ).0));
                            },
                            None => {
                                assert(rest.drop_first() =~= Seq::empty());
                                assert(t0 + Seq::<char>::empty() =~= t0);
                            },
                        }
                    } else {
                        tokens[i].push(c);
                        assert(t0.push(c) + word(rest.drop_first()).0 =~= t0 + (seq![c] + word(
                            rest.drop_first(),
                        ).0));
                    }
                    assert(views(tokens@.take(i as int)) =~= done);
                }
            },
        }
    }
    if started {
        proof {
            assert(i < tokens.len());
            let done = views(tokens@.take(i as int));
            assert(tokens@[i as int]@ + Seq::<char>::empty() =~= tokens@[i as int]@);
            assert(views(tokens@.take(i + 1)) =~= done.push(tokens@[i as int]@));
            assert(done + (seq![tokens@[i as int]@] + Seq::empty()) =~= done.push(
                tokens@[i as int]@,
            ));
        }
        i + 1
    } else {
        assert(views(tokens@.take(i as int)) + Seq::empty() =~= views(tokens@.take(i as int)));
        i
    }
}

/// Split a command line into a fresh list of tokens.
pub fn tokenize(line: &str) -> (v: Vec<String>)
    ensures
        views(v@) == tokens(line@),
{
    let mut v: Vec<String> = Vec::new();
    let n = tokenize_into(line, &mut v);
    assert(v@.take(n as int) =~= v@);
    v
}

// ---------------------------------------------------------------------------
// Common prefixes
// ---------------------------------------------------------------------------

/// The contents of a list of string slices.
pub open spec fn str_views(v: Seq<&str>) -> Seq<Seq<char>> {
    Seq::new(v.len(), |i: int| v[i]@)
}

/// The longest prefix that two strings share.
pub open spec fn common2(a: Seq<char>, b: Seq<char>) -> Seq<char>
    decreases a.len(),
{
    if a.len() > 0 && b.len() > 0 && a[0] == b[0] {
        seq![a[0]] + common2(a.drop_first(), b.drop_first())
    } else {
        Seq::empty()
    }
}

/// The longest prefix that all the strings of a list share; that of an empty
/// list is empty.
pub open spec fn common(items: Seq<Seq<char>>) -> Seq<char>
    decreases items.len(),
{
    if items.len() == 0 {
        Seq::empty()
    } else if items.len() == 1 {
        items[0]
    } else {
        common2(common(items.drop_last()), items.last())
    }
}

/// `common2(a, b)` is the one prefix at which the two strings part.
proof fn lemma_common2(a: Seq<char>, b: Seq<char>, k: int)
    requires
        0 <= k <= a.len(),
        k <= b.len(),
        a.take(k) == b.take(k),
        k < a.len() && k < b.len() ==> a[k] != b[k],
    ensures
        common2(a, b) == a.take(k),
    decreases k,
{
    if k > 0 {
        assert(a[0] == a.take(k)[0] && b[0] == b.take(k)[0]);
        let a1 = a.drop_first();
        let b1 = b.drop_first();
        assert(a1.take(k - 1) =~= a.take(k).drop_first());
        assert(b1.take(k - 1) =~= b.take(k).drop_first());
        lemma_common2(a1, b1, k - 1);
        assert(seq![a[0]] + a1.take(k - 1) =~= a.take(k));
    } else {
        assert(a.take(0) =~= Seq::empty());
    }
}

/// What two strings share is the longest of their shared prefixes.
pub proof fn lemma_common2_longest(a: Seq<char>, b: Seq<char>, p: Seq<char>)
    ensures
        common2(a, b).is_prefix_of(a),
        common2(a, b).is_prefix_of(b),
        p.is_prefix_of(a) && p.is_prefix_of(b) ==> p.is_prefix_of(common2(a, b)),
    decreases a.len(),
{
    if p.is_prefix_of(a) && p.is_prefix_of(b) && p.len() > 0 {
        assert(p[0] == a.subrange(0, p.len() as int)[0]);
        assert(p[0] == b.subrange(0, p.len() as int)[0]);
    } else if p.len() == 0 {
        assert(p =~= common2(a, b).subrange(0, 0));
    }
    if a.len() > 0 && b.len() > 0 && a[0] == b[0] {
        let a1 = a.drop_first();
        let b1 = b.drop_first();
        let c = common2(a1, b1);
        if p.is_prefix_of(a) && p.is_prefix_of(b) && p.len() > 0 {
            let p1 = p.drop_first();
            assert(p1 =~= a1.take(p1.len() as int));
            assert(p1 =~= b1.take(p1.len() as int));
            lemma_common2_longest(a1, b1, p1);
            assert(p[0] == a[0]);
            assert(p =~= (seq![a[0]] + c).take(p.len() as int));
        } else {
            lemma_common2_longest(a1, b1, p);
        }
        assert(seq![a[0]] + c =~= a.take(c.len() as int + 1));
        assert(seq![a[0]] + c =~= b.take(c.len() as int + 1));
    }
}

/// The common prefix of a list is a prefix of every string in it, and every
/// prefix that all of them have is a prefix of it.
pub proof fn lemma_common_longest(items: Seq<Seq<char>>, p: Seq<char>)
    requires
        items.len() > 0,
    ensures
        forall|i: int| 0 <= i < items.len() ==> common(items).is_prefix_of(#[trigger] items[i]),
        (forall|i: int| 0 <= i < items.len() ==> p.is_prefix_of(#[trigger] items[i]))
            ==> p.is_prefix_of(common(items)),
    decreases items.len(),
{
    if items.len() > 1 {
        let init = items.drop_last();
        lemma_common_longest(init, p);
        lemma_common2_longest(common(init), items.last(), p);
        assert forall|i: int| 0 <= i < items.len() implies common(items).is_prefix_of(
            #[trigger] items[i],
        ) by {
            if i < items.len() - 1 {
                assert(items[i] == init[i]);
                assert(common(init).is_prefix_of(init[i]));
            }
        }
        if forall|i: int| 0 <= i < items.len() ==> p.is_prefix_of(#[trigger] items[i]) {
            assert forall|i: int| 0 <= i < init.len() implies p.is_prefix_of(
                #[trigger] init[i],
            ) by {
                assert(init[i] == items[i]);
            }
            assert(p.is_prefix_of(items[items.len() - 1]));
        }
    }
}

/// The prefix of `a` that `b` shares.
fn common_with<'a>(a: &'a str, b: &str) -> (r: &'a str)
    ensures
        r@ == common2(a@, b@),
{
    let total: usize = text::byte_len(a);
    let mut x = a.chars();
    let mut y = b.chars();
    let mut n: usize = 0;
    let ghost mut k: int = 0;
    assert(a@.take(0) =~= Seq::<char>::empty());
    assert(b@.take(0) =~= Seq::<char>::empty());
    loop
        invariant_except_break
            IteratorSpec::remaining(&x) == a@.skip(k),
            IteratorSpec::remaining(&y) == b@.skip(k),
            total == encode_utf8(a@).len(),
        invariant
            0 <= k <= a@.len(),
            k <= b@.len(),
            a@.take(k) == b@.take(k),
            n == encode_utf8(a@.take(k)).len(),
        ensures
            k < a@.len() && k < b@.len() ==> a@[k] != b@[k],
        decreases a@.len() - k,
    {
        match x.next() {
            None => {
                break;
            },
            Some(c) => {
                match y.next() {
                    None => {
                        break;
                    },
                    Some(d) => {
                        if c != d {
                            break;
                        }
                        proof {
                            assert(a@.take(k + 1) =~= a@.take(k).push(c));
                            assert(b@.take(k + 1) =~= b@.take(k).push(d));
                            assert(a@.skip(k).drop_first() =~= a@.skip(k + 1));
                            assert(b@.skip(k).drop_first() =~= b@.skip(k + 1));
                            text::lemma_encode_push(a@.take(k), c);
                            text::lemma_boundary_of(a@, k + 1);
                            k = k + 1;
                        }
                        n = n + c.len_utf8();
                    },
                }
            },
        }
    }
    proof {
        text::lemma_boundary_of(a@, k);
        lemma_common2(a@, b@, k);
    }
    text::split(a, n).0
}

/// Longest common prefix of a list of strings.
pub fn common_prefix<'a>(items: &[&'a str]) -> (r: &'a str)
    ensures
        r@ == common(str_views(items@)),
{
    if items.len() == 0 {
        proof {
            reveal_strlit("");
        }
        assert(""@ =~= Seq::empty());
        return "";
    }
    let mut r: &'a str = items[0];
    let mut i: usize = 1;
    let ghost all = str_views(items@);
    assert(all.take(1)[0] == items@[0]@);
    while i < items.len()
        invariant
            all == str_views(items@),
            1 <= i <= items.len(),
            r@ == common(all.take(i as int)),
        decreases items.len() - i,
    {
        r = common_with(r, items[i]);
        assert(all.take(i + 1).drop_last() =~= all.take(i as int));
        assert(all.take(i + 1).last() == items@[i as int]@);
        i += 1;
    }
    assert(all.take(i as int) =~= all);
    r
}

// ---------------------------------------------------------------------------
// Character boundaries
// ---------------------------------------------------------------------------

/// Previous character boundary before `i` (`i` must be > 0).
pub fn prev_char_boundary(s: &str, i: usize) -> (r: usize)
    requires
        i > 0,
    ensures
        r < i,
        is_char_boundary(encode_utf8(s@), r as int),
        forall|j: int| r < j < i ==> !is_char_boundary(encode_utf8(s@), j),
{
    proof {
        encode_utf8_valid_utf8(s@);
    }
    let mut r: usize = i - 1;
    while r > 0 && !s.is_char_boundary(r)
        invariant
            r < i,
            forall|j: int| r < j < i ==> !is_char_boundary(encode_utf8(s@), j),
        decreases r,
    {
        r -= 1;
    }
    proof {
        is_char_boundary_start_end_of_seq(encode_utf8(s@));
    }
    r
}

/// Next character boundary at or after `i`.
pub fn next_char_boundary(s: &str, i: usize) -> (r: usize)
    ensures
        i <= r,
        i <= encode_utf8(s@).len() ==> is_char_boundary(encode_utf8(s@), r as int),
        i > encode_utf8(s@).len() ==> r == i,
        forall|j: int| i <= j < r ==> !is_char_boundary(encode_utf8(s@), j),
{
    let total: usize = text::byte_len(s);
    proof {
        encode_utf8_valid_utf8(s@);
        is_char_boundary_start_end_of_seq(encode_utf8(s@));
    }
    let mut r: usize = i;
    while r < total && !s.is_char_boundary(r)
        invariant
            i <= r,
            i <= total ==> r <= total,
            i > total ==> r == i,
            total == encode_utf8(s@).len(),
            forall|j: int| i <= j < r ==> !is_char_boundary(encode_utf8(s@), j),
        decreases total - r,
    {
        r += 1;
    }
    r
}

} // verus!
