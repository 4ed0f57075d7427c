//! The grammar of a command line.

use vstd::prelude::*;

use crate::command;
use crate::parse;
use crate::text;

verus! {

/// A blank or a tab: what separates words.
pub open spec fn is_gap(c: char) -> bool {
    c == ' ' || c == '\t'
}

/// `f` is a way to write the word `w` on a command line: it does not start with
/// a separator, and up to the next separator it reads as `w`.
pub open spec fn spells(f: Seq<char>, w: Seq<char>) -> bool {
    &&& f.len() > 0
    &&& !is_gap(f[0])
    &&& forall|r: Seq<char>|
        r.len() == 0 || is_gap(r[0]) ==> #[trigger] parse::word(f + r) == (w, r)
}

/// Words written on a command line with single spaces between them are read back
/// as they were.
pub proof fn law_spelled_words_are_read_back(forms: Seq<Seq<char>>, ws: Seq<Seq<char>>)
    requires
        forms.len() == ws.len(),
        forall|i: int| 0 <= i < ws.len() ==> spells(#[trigger] forms[i], ws[i]),
    ensures
        parse::tokens(command::joined(forms)) == ws,
    decreases ws.len(),
{
    if ws.len() == 0 {
        assert(parse::tokens(command::joined(forms)) =~= ws);
    } else {
        let f = forms[0];
        let tail = if ws.len() == 1 {
            Seq::empty()
        } else {
            seq![' '] + command::joined(forms.drop_first())
        };
        assert(command::joined(forms) == f + tail) by {
            if ws.len() == 1 {
                assert(f + tail =~= f);
            } else {
                lemma_joined_front(forms);
                assert(f.push(' ') + command::joined(forms.drop_first()) =~= f + tail);
            }
        }
        assert(spells(forms[0], ws[0]));
        assert(parse::word(f + tail) == (ws[0], tail));
        assert((f + tail)[0] == f[0]);
        if ws.len() > 1 {
            assert(tail.drop_first() =~= command::joined(forms.drop_first()));
            assert forall|i: int| 0 <= i < ws.len() - 1 implies spells(
                #[trigger] forms.drop_first()[i],
                ws.drop_first()[i],
            ) by {
                assert(spells(forms[i + 1], ws[i + 1]));
            }
            law_spelled_words_are_read_back(forms.drop_first(), ws.drop_first());
        }
        reveal_with_fuel(parse::tokens, 2);
        assert(parse::tokens(tail) =~= ws.drop_first());
        assert(seq![ws[0]] + ws.drop_first() =~= ws);
    }
}

/// `joined`, taken apart at the front.
proof fn lemma_joined_front(parts: Seq<Seq<char>>)
    requires
        parts.len() > 1,
    ensures
        command::joined(parts) == parts[0].push(' ') + command::joined(parts.drop_first()),
    decreases parts.len(),
{
    let rest = parts.drop_first();
    if parts.len() == 2 {
        reveal_with_fuel(command::joined, 2);
        assert(command::joined(parts) =~= parts[0].push(' ') + rest[0]);
    } else {
        lemma_joined_front(parts.drop_last());
        assert(parts.drop_last().drop_first() =~= rest.drop_last());
        let a = parts[0].push(' ');
        let b = command::joined(rest.drop_last());
        assert((a + b).push(' ') + parts.last() =~= a + (b.push(' ') + parts.last()));
    }
}

/// A character without a meaning of its own on a command line.
pub open spec fn is_plain(c: char) -> bool {
    !is_gap(c) && c != '\'' && c != '"' && c != '\\'
}

/// A word of plain characters reads as itself.
pub proof fn law_plain_word(w: Seq<char>)
    requires
        w.len() > 0,
        forall|i: int| 0 <= i < w.len() ==> is_plain(#[trigger] w[i]),
    ensures
        spells(w, w),
{
    assert(is_plain(w[0]));
    assert forall|r: Seq<char>|
        r.len() == 0 || is_gap(r[0]) implies #[trigger] parse::word(w + r) == (
        w,
        r,
    ) by {
        lemma_plain_word(w, r);
    }
}

proof fn lemma_plain_word(w: Seq<char>, r: Seq<char>)
    requires
        forall|i: int| 0 <= i < w.len() ==> is_plain(#[trigger] w[i]),
        r.len() == 0 || is_gap(r[0]),
    ensures
        parse::word(w + r) == (w, r),
    decreases w.len(),
{
    let s = w + r;
    if w.len() == 0 {
        assert(s =~= r);
        assert(w =~= Seq::empty());
    } else {
        assert(is_plain(w[0]));
        let w1 = w.drop_first();
        assert(s.drop_first() =~= w1 + r);
        assert forall|i: int| 0 <= i < w1.len() implies is_plain(#[trigger] w1[i]) by {
            assert(w1[i] == w[i + 1]);
        }
        lemma_plain_word(w1, r);
        assert(seq![w[0]] + w1 =~= w);
    }
}

/// A word between single quotes.
pub open spec fn single_quotes(w: Seq<char>) -> Seq<char> {
    seq!['\''] + w + seq!['\'']
}

/// Between single quotes everything but a single quote is literal.
pub proof fn law_single_quotes_are_literal(w: Seq<char>)
    requires
        !w.contains('\''),
    ensures
        spells(single_quotes(w), w),
{
    let f = single_quotes(w);
    assert forall|r: Seq<char>|
        r.len() == 0 || is_gap(r[0]) implies #[trigger] parse::word(f + r) == (
        w,
        r,
    ) by {
        let s = f + r;
        assert(s.drop_first() =~= w + seq!['\''] + r);
        lemma_single_quoted(w, r);
        reveal_with_fuel(parse::word, 2);
        assert(w + Seq::empty() =~= w);
    }
}

proof fn lemma_single_quoted(w: Seq<char>, r: Seq<char>)
    requires
        !w.contains('\''),
    ensures
        parse::single_quoted(w + seq!['\''] + r) == (w, r),
    decreases w.len(),
{
    let s = w + seq!['\''] + r;
    if w.len() == 0 {
        assert(s.drop_first() =~= r);
        assert(w =~= Seq::empty());
    } else {
        let w1 = w.drop_first();
        assert(w[0] != '\'');
        assert(!w1.contains('\'')) by {
            if w1.contains('\'') {
                let i = choose|i: int| 0 <= i < w1.len() && w1[i] == '\'';
                assert(w[i + 1] == '\'');
            }
        }
        assert(s.drop_first() =~= w1 + seq!['\''] + r);
        lemma_single_quoted(w1, r);
        assert(seq![w[0]] + w1 =~= w);
    }
}

/// A word with a backslash before each double quote and each backslash.
pub open spec fn escaped(w: Seq<char>) -> Seq<char>
    decreases w.len(),
{
    if w.len() == 0 {
        Seq::empty()
    } else if w[0] == '"' || w[0] == '\\' {
        seq!['\\', w[0]] + escaped(w.drop_first())
    } else {
        seq![w[0]] + escaped(w.drop_first())
    }
}

/// A word between double quotes.
pub open spec fn double_quotes(w: Seq<char>) -> Seq<char> {
    seq!['"'] + escaped(w) + seq!['"']
}

/// Between double quotes every word can be written, with a backslash before each
/// double quote and each backslash.
pub proof fn law_double_quotes_spell_every_word(w: Seq<char>)
    ensures
        spells(double_quotes(w), w),
{
    let f = double_quotes(w);
    assert forall|r: Seq<char>|
        r.len() == 0 || is_gap(r[0]) implies #[trigger] parse::word(f + r) == (
        w,
        r,
    ) by {
        let s = f + r;
        assert(s.drop_first() =~= escaped(w) + seq!['"'] + r);
        lemma_double_quoted(w, r);
        reveal_with_fuel(parse::word, 2);
        assert(w + Seq::empty() =~= w);
    }
}

proof fn lemma_double_quoted(w: Seq<char>, r: Seq<char>)
    ensures
        parse::double_quoted(escaped(w) + seq!['"'] + r) == (w, r),
    decreases w.len(),
{
    let s = escaped(w) + seq!['"'] + r;
    if w.len() == 0 {
        assert(s.drop_first() =~= r);
        assert(w =~= Seq::empty());
    } else {
        let w1 = w.drop_first();
        let s1 = escaped(w1) + seq!['"'] + r;
        lemma_double_quoted(w1, r);
        assert(seq![w[0]] + w1 =~= w);
        if w[0] == '"' || w[0] == '\\' {
            assert(s.skip(2) =~= s1);
        } else {
            assert(s.drop_first() =~= s1);
        }
    }
}

/// Any list of arguments at all can be written on a command line: between double
/// quotes, with single spaces between them, it is read back as it was.
pub proof fn law_any_arguments_can_be_quoted(ws: Seq<Seq<char>>)
    ensures
        parse::tokens(command::joined(Seq::new(ws.len(), |i: int| double_quotes(ws[i])))) == ws,
{
    let forms = Seq::new(ws.len(), |i: int| double_quotes(ws[i]));
    assert forall|i: int| 0 <= i < ws.len() implies spells(#[trigger] forms[i], ws[i]) by {
        law_double_quotes_spell_every_word(ws[i]);
    }
    law_spelled_words_are_read_back(forms, ws);
}

/// Plain arguments, joined back with single spaces, are split into the same
/// arguments again.
pub proof fn law_joined_arguments_split_again(ws: Seq<Seq<char>>)
    requires
        forall|i: int| 0 <= i < ws.len() ==> (#[trigger] ws[i]).len() > 0,
        forall|i: int, j: int|
            0 <= i < ws.len() && 0 <= j < ws[i].len() ==> is_plain(#[trigger] ws[i][j]),
    ensures
        parse::tokens(command::joined(ws)) == ws,
{
    assert forall|i: int| 0 <= i < ws.len() implies spells(#[trigger] ws[i], ws[i]) by {
        law_plain_word(ws[i]);
    }
    law_spelled_words_are_read_back(ws, ws);
}

/// Separators before a line do not matter.
pub proof fn law_leading_separators_do_not_matter(c: char, s: Seq<char>)
    requires
        is_gap(c),
    ensures
        parse::tokens(seq![c] + s) == parse::tokens(s),
{
    assert((seq![c] + s).drop_first() =~= s);
}

/// An entered line always names a command: a line that is not blank has a token.
pub proof fn law_entered_line_has_a_token(s: Seq<char>)
    requires
        !text::is_blank(s),
    ensures
        parse::tokens(s).len() > 0,
{
    parse::lemma_token_of_visible(s);
}

// ---------------------------------------------------------------------------
// How a word is written
// ---------------------------------------------------------------------------

/// `f` adds `w` to a word, whatever follows it.
pub open spec fn writes(f: Seq<char>, w: Seq<char>) -> bool {
    forall|r: Seq<char>|
        #![trigger parse::word(f + r)]
        parse::word(f + r) == (w + parse::word(r).0, parse::word(r).1)
}

/// Pieces of a word are written one behind the other, without anything between
/// them, however each is quoted.
pub proof fn law_pieces_join(f: Seq<char>, w: Seq<char>, g: Seq<char>, v: Seq<char>)
    requires
        writes(f, w),
        writes(g, v),
    ensures
        writes(f + g, w + v),
{
    assert forall|r: Seq<char>|
        #![trigger parse::word(f + g + r)]
        parse::word(f + g + r) == (w + v + parse::word(r).0, parse::word(r).1) by {
        assert(f + g + r =~= f + (g + r));
        assert(parse::word(f + (g + r)) == (w + parse::word(g + r).0, parse::word(g + r).1));
        assert(parse::word(g + r) == (v + parse::word(r).0, parse::word(r).1));
        assert(w + v + parse::word(r).0 =~= w + (v + parse::word(r).0));
    }
}

/// What is written out in full, and does not start with a gap, spells the word.
pub proof fn law_written_word_is_spelled(f: Seq<char>, w: Seq<char>)
    requires
        writes(f, w),
        f.len() > 0,
        !is_gap(f[0]),
    ensures
        spells(f, w),
{
    assert forall|r: Seq<char>| r.len() == 0 || is_gap(r[0]) implies #[trigger] parse::word(f + r)
        == (w, r) by {
        assert(parse::word(r) == (Seq::<char>::empty(), r));
        assert(w + Seq::<char>::empty() =~= w);
    }
}

/// A plain character stands for itself.
pub proof fn law_plain_character(c: char)
    requires
        is_plain(c),
    ensures
        writes(seq![c], seq![c]),
{
    let f = seq![c];
    assert forall|r: Seq<char>|
        #![trigger parse::word(f + r)]
        parse::word(f + r) == (f + parse::word(r).0, parse::word(r).1) by {
        assert((f + r).drop_first() =~= r);
    }
}

/// Outside quotes a backslash is dropped, and makes the next character literal,
/// whichever it is.
pub proof fn law_backslash_makes_literal(c: char)
    ensures
        writes(seq!['\\', c], seq![c]),
{
    let f = seq!['\\', c];
    assert forall|r: Seq<char>|
        #![trigger parse::word(f + r)]
        parse::word(f + r) == (seq![c] + parse::word(r).0, parse::word(r).1) by {
        assert((f + r).skip(2) =~= r);
    }
}

/// A word with a backslash before each of its characters.
pub open spec fn backslashed(w: Seq<char>) -> Seq<char>
    decreases w.len(),
{
    if w.len() == 0 {
        Seq::empty()
    } else {
        backslashed(w.drop_last()) + seq!['\\', w.last()]
    }
}

/// A word with a backslash before each of its characters that is not plain.
pub open spec fn backslashed_where_needed(w: Seq<char>) -> Seq<char>
    decreases w.len(),
{
    if w.len() == 0 {
        Seq::empty()
    } else {
        backslashed_where_needed(w.drop_last()) + if is_plain(w.last()) {
            seq![w.last()]
        } else {
            seq!['\\', w.last()]
        }
    }
}

proof fn lemma_writes_nothing()
    ensures
        writes(Seq::empty(), Seq::empty()),
{
    let e = Seq::<char>::empty();
    assert forall|r: Seq<char>|
        #![trigger parse::word(e + r)]
        parse::word(e + r) == (e + parse::word(r).0, parse::word(r).1) by {
        assert(e + r =~= r);
        assert(e + parse::word(r).0 =~= parse::word(r).0);
    }
}

/// Every word can be written without quotes, with a backslash before each of its
/// characters.
pub proof fn law_backslashes_spell_every_word(w: Seq<char>)
    ensures
        writes(backslashed(w), w),
        w.len() > 0 ==> spells(backslashed(w), w),
    decreases w.len(),
{
    if w.len() == 0 {
        lemma_writes_nothing();
        assert(w =~= Seq::empty());
    } else {
        law_backslashes_spell_every_word(w.drop_last());
        law_backslash_makes_literal(w.last());
        law_pieces_join(
            backslashed(w.drop_last()),
            w.drop_last(),
            seq!['\\', w.last()],
            seq![w.last()],
        );
        assert(w.drop_last() + seq![w.last()] =~= w);
        lemma_backslashed_start(w);
        law_written_word_is_spelled(backslashed(w), w);
    }
}

proof fn lemma_backslashed_start(w: Seq<char>)
    requires
        w.len() > 0,
    ensures
        backslashed(w).len() > 0,
        backslashed(w)[0] == '\\',
        backslashed_where_needed(w).len() > 0,
        !is_gap(backslashed_where_needed(w)[0]),
    decreases w.len(),
{
    if w.len() > 1 {
        lemma_backslashed_start(w.drop_last());
    } else {
        reveal_with_fuel(backslashed, 2);
        reveal_with_fuel(backslashed_where_needed, 2);
    }
}

/// It is enough to put a backslash before the characters that are not plain.
pub proof fn law_backslashes_where_needed(w: Seq<char>)
    ensures
        writes(backslashed_where_needed(w), w),
        w.len() > 0 ==> spells(backslashed_where_needed(w), w),
    decreases w.len(),
{
    if w.len() == 0 {
        lemma_writes_nothing();
        assert(w =~= Seq::empty());
    } else {
        let c = w.last();
        law_backslashes_where_needed(w.drop_last());
        if is_plain(c) {
            law_plain_character(c);
            law_pieces_join(
                backslashed_where_needed(w.drop_last()),
                w.drop_last(),
                seq![c],
                seq![c],
            );
        } else {
            law_backslash_makes_literal(c);
            law_pieces_join(
                backslashed_where_needed(w.drop_last()),
                w.drop_last(),
                seq!['\\', c],
                seq![c],
            );
        }
        assert(w.drop_last() + seq![c] =~= w);
        lemma_backslashed_start(w);
        law_written_word_is_spelled(backslashed_where_needed(w), w);
    }
}

/// A single-quoted section adds what stands between the quotes.
pub proof fn law_single_quoted_section(w: Seq<char>)
    requires
        !w.contains('\''),
    ensures
        writes(single_quotes(w), w),
{
    let f = single_quotes(w);
    assert forall|r: Seq<char>|
        #![trigger parse::word(f + r)]
        parse::word(f + r) == (w + parse::word(r).0, parse::word(r).1) by {
        assert((f + r).drop_first() =~= w + seq!['\''] + r);
        lemma_single_quoted(w, r);
    }
}

/// Between double quotes `f` adds `w`, whatever follows it.
pub open spec fn writes_inside(f: Seq<char>, w: Seq<char>) -> bool {
    forall|r: Seq<char>|
        #![trigger parse::double_quoted(f + r)]
        parse::double_quoted(f + r) == (
            w + parse::double_quoted(r).0,
            parse::double_quoted(r).1,
        )
}

/// Between double quotes pieces are written one behind the other too.
pub proof fn law_pieces_join_inside(f: Seq<char>, w: Seq<char>, g: Seq<char>, v: Seq<char>)
    requires
        writes_inside(f, w),
        writes_inside(g, v),
    ensures
        writes_inside(f + g, w + v),
{
    assert forall|r: Seq<char>|
        #![trigger parse::double_quoted(f + g + r)]
        parse::double_quoted(f + g + r) == (
            w + v + parse::double_quoted(r).0,
            parse::double_quoted(r).1,
        ) by {
        assert(f + g + r =~= f + (g + r));
        assert(parse::double_quoted(f + (g + r)) == (
            w + parse::double_quoted(g + r).0,
            parse::double_quoted(g + r).1,
        ));
        assert(parse::double_quoted(g + r) == (
            v + parse::double_quoted(r).0,
            parse::double_quoted(r).1,
        ));
        assert(w + v + parse::double_quoted(r).0 =~= w + (v + parse::double_quoted(r).0));
    }
}

/// Between double quotes every character but the quote and the backslash stands
/// for itself. A backslash is dropped before a quote, a backslash, a dollar sign
/// or a backtick, and stays before any other character.
pub proof fn law_characters_inside_double_quotes(c: char)
    ensures
        c != '"' && c != '\\' ==> writes_inside(seq![c], seq![c]),
        c == '"' || c == '\\' || c == '$' || c == '`' ==> writes_inside(
            seq!['\\', c],
            seq![c],
        ),
        c != '"' && c != '\\' && c != '$' && c != '`' ==> writes_inside(
            seq!['\\', c],
            seq!['\\', c],
        ),
{
    if c != '"' && c != '\\' {
        let f = seq![c];
        assert forall|r: Seq<char>|
            #![trigger parse::double_quoted(f + r)]
            parse::double_quoted(f + r) == (
                f + parse::double_quoted(r).0,
                parse::double_quoted(r).1,
            ) by {
            assert((f + r).drop_first() =~= r);
        }
    }
    let w = if c == '"' || c == '\\' || c == '$' || c == '`' {
        seq![c]
    } else {
        seq!['\\', c]
    };
    let g = seq!['\\', c];
    assert forall|r: Seq<char>|
        #![trigger parse::double_quoted(g + r)]
        parse::double_quoted(g + r) == (
            w + parse::double_quoted(r).0,
            parse::double_quoted(r).1,
        ) by {
        assert((g + r).skip(2) =~= r);
    }
}

/// A double-quoted section adds what is written between the quotes.
pub proof fn law_double_quoted_section(f: Seq<char>, w: Seq<char>)
    requires
        writes_inside(f, w),
    ensures
        writes(seq!['"'] + f + seq!['"'], w),
{
    let g = seq!['"'] + f + seq!['"'];
    assert forall|r: Seq<char>|
        #![trigger parse::word(g + r)]
        parse::word(g + r) == (w + parse::word(r).0, parse::word(r).1) by {
        let q = seq!['"'] + r;
        assert((g + r).drop_first() =~= f + q);
        assert(parse::double_quoted(f + q) == (
            w + parse::double_quoted(q).0,
            parse::double_quoted(q).1,
        ));
        assert(q.drop_first() =~= r);
        assert(w + Seq::<char>::empty() =~= w);
    }
}

/// A quote that is not closed ends with the line.
pub proof fn law_open_quotes_end_with_line(w: Seq<char>, f: Seq<char>, v: Seq<char>)
    requires
        !w.contains('\''),
        writes_inside(f, v),
    ensures
        parse::word(seq!['\''] + w) == (w, Seq::<char>::empty()),
        parse::word(seq!['"'] + f) == (v, Seq::<char>::empty()),
{
    reveal_with_fuel(parse::word, 2);
    let e = Seq::<char>::empty();
    assert((seq!['\''] + w).drop_first() =~= w);
    lemma_open_single(w);
    assert(w + e =~= w);
    assert((seq!['"'] + f).drop_first() =~= f + e);
    assert(parse::double_quoted(f + e) == (
        v + parse::double_quoted(e).0,
        parse::double_quoted(e).1,
    ));
    assert(v + e =~= v);
}

proof fn lemma_open_single(w: Seq<char>)
    requires
        !w.contains('\''),
    ensures
        parse::single_quoted(w) == (w, Seq::<char>::empty()),
    decreases w.len(),
{
    if w.len() == 0 {
        assert(w =~= Seq::empty());
    } else {
        let w1 = w.drop_first();
        assert(w[0] != '\'');
        assert(!w1.contains('\'')) by {
            if w1.contains('\'') {
                let i = choose|i: int| 0 <= i < w1.len() && w1[i] == '\'';
                assert(w[i + 1] == '\'');
            }
        }
        lemma_open_single(w1);
        assert(seq![w[0]] + w1 =~= w);
    }
}

/// A backslash at the end of the line is dropped, inside double quotes as well.
pub proof fn law_last_backslash_is_dropped(
    f: Seq<char>,
    w: Seq<char>,
    g: Seq<char>,
    v: Seq<char>,
)
    requires
        writes(f, w),
        writes_inside(g, v),
    ensures
        parse::word(f + seq!['\\']) == (w, Seq::<char>::empty()),
        parse::word(seq!['"'] + g + seq!['\\']) == (v, Seq::<char>::empty()),
{
    reveal_with_fuel(parse::word, 2);
    let e = Seq::<char>::empty();
    let b = seq!['\\'];
    assert(b.drop_first() =~= e);
    assert(parse::word(b) == (e, e));
    assert(w + e =~= w);
    assert((seq!['"'] + g + b).drop_first() =~= g + b);
    assert(parse::double_quoted(g + b) == (
        v + parse::double_quoted(b).0,
        parse::double_quoted(b).1,
    ));
    assert(v + e =~= v);
}

// ---------------------------------------------------------------------------
// How words are separated
// ---------------------------------------------------------------------------

/// Nothing but blanks and tabs.
pub open spec fn is_all_gap(s: Seq<char>) -> bool {
    forall|i: int| 0 <= i < s.len() ==> is_gap(#[trigger] s[i])
}

/// Any number of blanks and tabs before a word counts for nothing.
pub proof fn law_gaps_hold_no_words(gap: Seq<char>, s: Seq<char>)
    requires
        is_all_gap(gap),
    ensures
        parse::tokens(gap + s) == parse::tokens(s),
        parse::tokens(gap).len() == 0,
    decreases gap.len(),
{
    if gap.len() == 0 {
        assert(gap + s =~= s);
    } else {
        let g1 = gap.drop_first();
        assert(is_gap(gap[0]));
        assert forall|i: int| 0 <= i < g1.len() implies is_gap(#[trigger] g1[i]) by {
            assert(g1[i] == gap[i + 1]);
        }
        law_gaps_hold_no_words(g1, s);
        assert((gap + s).drop_first() =~= g1 + s);
    }
}

/// A word ends at the next blank or tab, and what follows is split on its own.
pub proof fn law_word_then_rest(
    gap: Seq<char>,
    f: Seq<char>,
    w: Seq<char>,
    sep: char,
    rest: Seq<char>,
)
    requires
        is_all_gap(gap),
        spells(f, w),
        is_gap(sep),
    ensures
        parse::tokens(gap + f + seq![sep] + rest) == seq![w] + parse::tokens(rest),
{
    let r = seq![sep] + rest;
    let line = f + r;
    assert(gap + f + seq![sep] + rest =~= gap + line);
    law_gaps_hold_no_words(gap, line);
    assert(parse::word(f + r) == (w, r));
    assert(line[0] == f[0]);
    law_leading_separators_do_not_matter(sep, rest);
}

/// The last word of a line ends with it, whether or not its quotes are closed.
pub proof fn law_last_word(gap: Seq<char>, f: Seq<char>, w: Seq<char>)
    requires
        is_all_gap(gap),
        f.len() > 0,
        !is_gap(f[0]),
        parse::word(f) == (w, Seq::<char>::empty()),
    ensures
        parse::tokens(gap + f) == seq![w],
{
    law_gaps_hold_no_words(gap, f);
    reveal_with_fuel(parse::tokens, 2);
    assert(parse::tokens(f) =~= seq![w]);
}

// ---------------------------------------------------------------------------
// Joining arguments
// ---------------------------------------------------------------------------

/// Joined lists have one blank between them, and nothing else is added.
pub proof fn law_joined(a: Seq<Seq<char>>, b: Seq<Seq<char>>, x: Seq<char>)
    ensures
        command::joined(Seq::empty()).len() == 0,
        command::joined(seq![x]) == x,
        a.len() > 0 && b.len() > 0 ==> command::joined(a + b) == command::joined(a) + seq![' ']
            + command::joined(b),
    decreases b.len(),
{
    if a.len() > 0 && b.len() > 0 {
        let init = b.drop_last();
        assert((a + b).drop_last() =~= a + init);
        assert((a + b).last() == b.last());
        if b.len() == 1 {
            assert(a + init =~= a);
            assert(command::joined(a + b) =~= command::joined(a) + seq![' '] + b[0]);
        } else {
            law_joined(a, init, x);
            assert(command::joined(a + b) =~= command::joined(a) + seq![' '] + command::joined(b));
        }
    }
}

} // verus!
