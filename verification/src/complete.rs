//! Tab completion.

use vstd::prelude::*;
use vstd::utf8::*;

use crate::command;
use crate::command::{Command, CommandView, CompleterKind, CompleterView};
use crate::io::Io;
use crate::line::{Line, LineView};
use crate::parse;
use crate::render;
use crate::text;

verus! {

/// The partial token at the end of a line: what stands behind its last
/// whitespace.
pub open spec fn partial_token(s: Seq<char>) -> Seq<char> {
    s.skip(s.len() - text::tail_len(s, false))
}

/// What stands before the partial token.
pub open spec fn stem(s: Seq<char>) -> Seq<char> {
    s.take(s.len() - text::tail_len(s, false))
}

/// The number of complete words before the partial token: zero while the command
/// name is being typed.
pub open spec fn token_index(s: Seq<char>) -> nat {
    if text::tail_len(s, false) == 0 {
        text::words(s).len()
    } else {
        (text::words(s).len() - 1) as nat
    }
}

/// Those of `items` that begin with `prefix`, in order.
pub open spec fn matching(items: Seq<Seq<char>>, prefix: Seq<char>) -> Seq<Seq<char>> {
    items.filter(|item: Seq<char>| prefix.is_prefix_of(item))
}

/// The first `n` built-ins that begin with `prefix` and that no registered
/// command shadows.
pub open spec fn matching_builtins<H, C>(
    commands: Seq<CommandView<H, C>>,
    prefix: Seq<char>,
    n: nat,
) -> Seq<Seq<char>>
    decreases n,
{
    if n == 0 {
        Seq::empty()
    } else {
        let name = render::builtins()[n - 1].0;
        let init = matching_builtins(commands, prefix, (n - 1) as nat);
        if prefix.is_prefix_of(name) && !render::is_registered(commands, name) {
            init.push(name)
        } else {
            init
        }
    }
}

/// The command names that begin with `prefix`: the registered commands, then the
/// built-ins that none of them shadows.
pub open spec fn matching_commands<H, C>(
    commands: Seq<CommandView<H, C>>,
    prefix: Seq<char>,
) -> Seq<Seq<char>> {
    matching(command::names(commands), prefix) + matching_builtins(commands, prefix, 3)
}

/// How the arguments of the line `s` are completed, if they are.
pub open spec fn completer_for<H, C>(
    commands: Seq<CommandView<H, C>>,
    s: Seq<char>,
) -> Option<CompleterView<C>> {
    if text::words(s).len() == 0 {
        None
    } else {
        match command::lookup(commands, text::words(s)[0]) {
            Some(i) => commands[i].completer,
            None => None,
        }
    }
}

/// A custom completer that takes every index and every partial token.
pub open spec fn total<C: Fn(usize, &str) -> Vec<String>>(completer: C) -> bool {
    forall|i: usize, p: &str| call_requires(completer, (i, p))
}

/// `r` is a possible answer of a custom completer, asked about the partial token
/// `prefix` with the index `index`.
pub open spec fn answers<C: Fn(usize, &str) -> Vec<String>>(
    completer: C,
    index: nat,
    prefix: Seq<char>,
    r: Seq<Seq<char>>,
) -> bool {
    exists|i: usize, p: &str, v: Vec<String>|
        #![trigger call_ensures(completer, (i, p), v)]
        i == index && p@ == prefix && call_ensures(completer, (i, p), v) && r == parse::views(v@)
}

/// Whether `r` are the candidates for the partial token of the line `s`: command
/// names while the command name is being typed, the options of a command for its
/// first argument, or what a custom completer answers. Only the latter leaves a
/// choice.
pub open spec fn offers<H, C: Fn(usize, &str) -> Vec<String>>(
    commands: Seq<CommandView<H, C>>,
    s: Seq<char>,
    r: Seq<Seq<char>>,
) -> bool {
    if token_index(s) == 0 {
        r == matching_commands(commands, partial_token(s))
    } else {
        match completer_for(commands, s) {
            Some(CompleterView::Options(options)) => r == if token_index(s) == 1 {
                matching(options, partial_token(s))
            } else {
                Seq::<Seq<char>>::empty()
            },
            Some(CompleterView::Custom(c)) => answers(c, token_index(s), partial_token(s), r),
            None => r == Seq::<Seq<char>>::empty(),
        }
    }
}

/// `s` is `head` with `token` behind it, where `token` holds no whitespace and
/// `head` is empty or ends in whitespace.
pub open spec fn ends_in(s: Seq<char>, head: Seq<char>, token: Seq<char>) -> bool {
    &&& s == head + token
    &&& forall|i: int| 0 <= i < token.len() ==> !text::white_space(#[trigger] token[i])
    &&& head.len() > 0 ==> text::white_space(head[head.len() - 1])
}

/// `c` is the longest prefix that all of `items` share: all begin with it, and
/// behind it one of them ends, or two of them go on differently.
pub open spec fn is_longest_common(items: Seq<Seq<char>>, c: Seq<char>) -> bool {
    &&& forall|i: int| 0 <= i < items.len() ==> c.is_prefix_of(#[trigger] items[i])
    &&& exists|i: int, j: int|
        0 <= i < items.len() && 0 <= j < items.len() && ((#[trigger] items[i]).len() == c.len() || (
        #[trigger] items[j]).len() == c.len() || items[i][c.len() as int] != items[j][c.len() as int])
}

/// The partial token and what stands before it are the one way to part the line.
pub proof fn lemma_ends_in(s: Seq<char>, head: Seq<char>, token: Seq<char>)
    requires
        ends_in(s, head, token),
    ensures
        stem(s) == head,
        partial_token(s) == token,
{
    assert forall|i: int| s.len() - token.len() <= i < s.len() implies text::white_space(
        #[trigger] s[i],
    ) == false by {
        assert(s[i] == token[i - head.len()]);
    }
    if head.len() > 0 {
        assert(s[s.len() - token.len() - 1] == head[head.len() - 1]);
    }
    text::lemma_tail_len(s, false, token.len() as int);
    assert(stem(s) =~= head);
    assert(partial_token(s) =~= token);
}

/// `common` is the longest prefix that all items share.
pub proof fn lemma_longest_common(items: Seq<Seq<char>>, c: Seq<char>)
    requires
        is_longest_common(items, c),
    ensures
        parse::common(items) == c,
{
    let (i, j) = choose|i: int, j: int|
        0 <= i < items.len() && 0 <= j < items.len() && ((#[trigger] items[i]).len() == c.len() || (
        #[trigger] items[j]).len() == c.len() || items[i][c.len() as int] != items[j][c.len()
            as int]);
    parse::lemma_common_longest(items, c);
    let d = parse::common(items);
    assert(c.is_prefix_of(d));
    assert(d.is_prefix_of(items[i]));
    assert(d.is_prefix_of(items[j]));
    let n = c.len() as int;
    if d.len() > n {
        assert(d[n] == items[i].subrange(0, d.len() as int)[n]);
        assert(d[n] == items[j].subrange(0, d.len() as int)[n]);
    }
    assert(c =~= d);
}

/// What completion with several candidates that begin with the partial token makes
/// of the line: the token is replaced by the longest prefix that they share.
pub proof fn lemma_inserts_common(
    line: LineView,
    candidates: Seq<Seq<char>>,
    head: Seq<char>,
    token: Seq<char>,
    c: Seq<char>,
)
    requires
        ends_in(line.text(), head, token),
        candidates.len() >= 2,
        forall|i: int| 0 <= i < candidates.len() ==> token.is_prefix_of(#[trigger] candidates[i]),
        is_longest_common(candidates, c),
    ensures
        completed_line(line, candidates).text() == head + c,
        line.after.len() == 0 ==> completed_line(line, candidates).after.len() == 0,
{
    lemma_ends_in(line.text(), head, token);
    lemma_longest_common(candidates, c);
    parse::lemma_common_longest(candidates, token);
    assert(token.is_prefix_of(c));
    text::lemma_boundary_of(c, token.len() as int);
    text::lemma_encode_len(c.skip(token.len() as int));
    assert(c.take(token.len() as int) =~= token);
    if c.len() == token.len() {
        assert(c =~= token);
    }
    assert(LineView::at_end(head + c).text() =~= head + c);
}

/// The candidates with two spaces between them.
pub open spec fn listing(candidates: Seq<Seq<char>>) -> Seq<u8>
    decreases candidates.len(),
{
    if candidates.len() == 0 {
        Seq::empty()
    } else if candidates.len() == 1 {
        encode_utf8(candidates[0])
    } else {
        listing(candidates.drop_last()) + encode_utf8("  "@) + encode_utf8(candidates.last())
    }
}

/// The line after completion with these candidates: a single one replaces the
/// partial token and gets a space behind it; of several the common prefix
/// replaces it, if it is longer.
pub open spec fn completed_line(line: LineView, candidates: Seq<Seq<char>>) -> LineView {
    let s = line.text();
    if candidates.len() == 0 {
        line
    } else if candidates.len() == 1 {
        LineView::at_end(stem(s) + candidates[0] + seq![' '])
    } else if encode_utf8(parse::common(candidates)).len() > encode_utf8(partial_token(s)).len() {
        LineView::at_end(stem(s) + parse::common(candidates))
    } else {
        line
    }
}

/// What completion with these candidates prints: nothing without candidates, the
/// new line for a single one, and the list of several before the new line.
pub open spec fn completed_bytes(
    prompt: Seq<char>,
    line: LineView,
    candidates: Seq<Seq<char>>,
) -> Seq<u8> {
    let drawn = render::redraw_bytes(prompt, completed_line(line, candidates));
    if candidates.len() == 0 {
        Seq::empty()
    } else if candidates.len() == 1 {
        drawn
    } else {
        encode_utf8("\r\n"@) + listing(candidates) + encode_utf8("\r\n"@) + drawn
    }
}

/// A line that does not end in whitespace has a word.
pub proof fn lemma_partial_is_word(s: Seq<char>)
    requires
        text::tail_len(s, false) > 0,
    ensures
        text::words(s).len() > 0,
{
    text::lemma_tail_len_holds(s, false);
    text::lemma_run_len_holds(s, true);
    assert(!text::white_space(s[s.len() - 1]));
}

/// The items of `items` that begin with `prefix`.
fn filter_prefix<'a>(items: &[&'a str], prefix: &str) -> (r: Vec<&'a str>)
    ensures
        parse::str_views(r@) == matching(parse::str_views(items@), prefix@),
{
    let ghost all = parse::str_views(items@);
    let ghost pred = |item: Seq<char>| prefix@.is_prefix_of(item);
    let mut r: Vec<&'a str> = Vec::new();
    let mut i: usize = 0;
    proof {
        reveal(Seq::filter);
        assert(parse::str_views(r@) =~= all.take(0).filter(pred));
    }
    while i < items.len()
        invariant
            all == parse::str_views(items@),
            pred == (|item: Seq<char>| prefix@.is_prefix_of(item)),
            i <= items.len(),
            parse::str_views(r@) == all.take(i as int).filter(pred),
        decreases items.len() - i,
    {
        let item: &'a str = items[i];
        let ghost before = r@;
        if text::starts_with(item, prefix) {
            r.push(item);
            assert(parse::str_views(r@) =~= parse::str_views(before).push(item@));
        }
        proof {
            reveal(Seq::filter);
            assert(all.take(i + 1).drop_last() =~= all.take(i as int));
            assert(all.take(i + 1).last() == item@);
        }
        i += 1;
    }
    assert(all.take(i as int) =~= all);
    r
}

/// The command names that begin with `prefix`.
fn command_candidates<'a, H, C>(commands: &'a Vec<Command<H, C>>, prefix: &str) -> (r: Vec<&'a str>)
    ensures
        parse::str_views(r@) == matching_commands(command::command_views(commands@), prefix@),
{
    let ghost all = command::command_views(commands@);
    let mut named: Vec<&'a str> = Vec::new();
    let mut i: usize = 0;
    while i < commands.len()
        invariant
            all == command::command_views(commands@),
            i <= commands.len(),
            parse::str_views(named@) == command::names(all).take(i as int),
        decreases commands.len() - i,
    {
        let name = commands[i].name.as_str();
        let ghost before = named@;
        named.push(name);
        assert(parse::str_views(named@) =~= parse::str_views(before).push(name@));
        assert(command::names(all).take(i + 1) =~= command::names(all).take(i as int).push(
            command::names(all)[i as int],
        ));
        i += 1;
    }
    assert(command::names(all).take(i as int) =~= command::names(all));
    let mut r = filter_prefix(named.as_slice(), prefix);
    let ghost first = parse::str_views(r@);
    let mut k: usize = 0;
    assert(first + Seq::empty() =~= first);
    while k < 3
        invariant
            all == command::command_views(commands@),
            k <= 3,
            parse::str_views(r@) == first + matching_builtins(all, prefix@, k as nat),
        decreases 3 - k,
    {
        let name = render::builtin(k).0;
        let ghost before = r@;
        if text::starts_with(name, prefix) {
            match command::find(commands, name) {
                Some(_) => {},
                None => {
                    r.push(name);
                    assert(parse::str_views(r@) =~= parse::str_views(before).push(name@));
                },
            }
        }
        assert(parse::str_views(r@) =~= first + matching_builtins(all, prefix@, (k + 1) as nat));
        k += 1;
    }
    r
}

/// Complete the partial token at the end of the line with these candidates.
pub fn complete_with(prompt: &str, line: &mut Line, io: &mut Io, candidates: &[&str])
    requires
        old(line).wf(),
    ensures
        final(line).wf(),
        final(line)@ == completed_line(old(line)@, parse::str_views(candidates@)),
        final(io)@ == old(io)@ + completed_bytes(
            prompt@,
            old(line)@,
            parse::str_views(candidates@),
        ),
        forall|head: Seq<char>, token: Seq<char>, c: Seq<char>|
            #![trigger ends_in(old(line)@.text(), head, token), is_longest_common(
                parse::str_views(candidates@),
                c,
            )]
            ends_in(old(line)@.text(), head, token) && candidates@.len() >= 2 && (forall|i: int|
                0 <= i < candidates@.len() ==> token.is_prefix_of(
                    #[trigger] parse::str_views(candidates@)[i],
                )) && is_longest_common(parse::str_views(candidates@), c) ==> final(line)@.text()
                == head + c,
{
    proof {
        let v = parse::str_views(candidates@);
        assert forall|head: Seq<char>, token: Seq<char>, c: Seq<char>|
            #![trigger ends_in(line@.text(), head, token), is_longest_common(v, c)]
            ends_in(line@.text(), head, token) && v.len() >= 2 && (forall|i: int|
                0 <= i < v.len() ==> token.is_prefix_of(#[trigger] v[i])) && is_longest_common(v, c)
                implies completed_line(line@, v).text() == head + c by {
            lemma_inserts_common(line@, v, head, token, c);
        }
    }
    let ghost c = parse::str_views(candidates@);
    let ghost s = line@.text();
    let ghost v = line@;
    let ghost out = io@;
    if candidates.len() == 0 {
        assert(io@ =~= out + Seq::empty());
        return;
    }
    let total = line.len();
    let start = text::trailing(line.as_str(), false);
    proof {
        text::lemma_boundary_of(s, s.len() - text::tail_len(s, false));
    }
    let prefix_len = total - start;
    if candidates.len() == 1 {
        // Bash appends a space after a unique completion.
        let mut replacement = candidates[0].to_owned();
        replacement.push(' ');
        line.replace_tail(prefix_len, replacement.as_str());
        assert(stem(s) + c[0].push(' ') =~= stem(s) + c[0] + seq![' ']);
        render::redraw(io, prompt, line);
        return;
    }
    // Several candidates: insert the common prefix, then list them all.
    let cp = parse::common_prefix(candidates);
    if text::byte_len(cp) > prefix_len {
        line.replace_tail(prefix_len, cp);
    }
    io.print("\r\n");
    let mut i: usize = 0;
    let ghost mid = io@;
    assert(mid + Seq::empty() =~= mid);
    assert(c.take(0) =~= Seq::empty());
    while i < candidates.len()
        invariant
            c == parse::str_views(candidates@),
            i <= candidates.len(),
            io@ == mid + listing(c.take(i as int)),
        decreases candidates.len() - i,
    {
        if i > 0 {
            io.print("  ");
        }
        io.print(candidates[i]);
        proof {
            assert(c.take(i + 1).drop_last() =~= c.take(i as int));
            assert(c.take(i + 1).last() == candidates@[i as int]@);
            assert(io@ =~= mid + listing(c.take(i + 1)));
        }
        i += 1;
    }
    assert(c.take(i as int) =~= c);
    io.print("\r\n");
    render::redraw(io, prompt, line);
    assert(io@ =~= out + completed_bytes(prompt@, v, c));
}

/// Tab completion for the token under the cursor, which must be at the end of
/// the line: elsewhere it does nothing.
pub fn complete<H, C: Fn(usize, &str) -> Vec<String>>(
    commands: &Vec<Command<H, C>>,
    prompt: &str,
    line: &mut Line,
    io: &mut Io,
)
    requires
        old(line).wf(),
        forall|i: int|
            0 <= i < commands.len() ==> ((#[trigger] commands@[i]).completer matches Some(
                CompleterKind::Custom(c),
            ) ==> total(c)),
    ensures
        final(line).wf(),
        old(line)@.after.len() > 0 ==> final(line)@ == old(line)@ && final(io)@ == old(io)@,
        old(line)@.after.len() == 0 ==> exists|r: Seq<Seq<char>>|
            #![trigger offers(command::command_views(commands@), old(line)@.text(), r)]
            offers(command::command_views(commands@), old(line)@.text(), r) && final(line)@
                == completed_line(old(line)@, r) && final(io)@ == old(io)@ + completed_bytes(
                prompt@,
                old(line)@,
                r,
            ),
{
    if !line.is_at_end() {
        return;
    }
    let ghost s = line@.text();
    let ghost all = command::command_views(commands@);
    let owned: Vec<String>;
    let candidates: Vec<&str> = {
        let start = text::trailing(line.as_str(), false);
        let prefix = text::split(line.as_str(), start).1;
        let n = text::word_count(line.as_str());
        proof {
            if text::tail_len(s, false) > 0 {
                lemma_partial_is_word(s);
            }
        }
        let index: usize = if prefix.is_empty() {
            n
        } else {
            n - 1
        };
        assert(prefix@ == partial_token(s));
        assert(index == token_index(s));
        if index == 0 {
            command_candidates(commands, prefix)
        } else {
            let first = text::first_word(line.as_str());
            assert(first@ == text::words(s)[0]);
            match command::find(commands, first) {
                None => {
                    let none: Vec<&str> = Vec::new();
                    assert(parse::str_views(none@) =~= Seq::empty());
                    assert(completer_for(all, s) is None);
                    none
                },
                Some(i) => match &commands[i].completer {
                    None => {
                        let none: Vec<&str> = Vec::new();
                        assert(parse::str_views(none@) =~= Seq::empty());
                        assert(all[i as int] == commands@[i as int]@);
                        assert(completer_for(all, s) is None);
                        none
                    },
                    Some(CompleterKind::Options(options)) => {
                        assert(all[i as int] == commands@[i as int]@);
                        if index == 1 {
                            filter_prefix(options, prefix)
                        } else {
                            let none: Vec<&str> = Vec::new();
                            assert(parse::str_views(none@) =~= Seq::empty());
                            none
                        }
                    },
                    Some(CompleterKind::Custom(completer)) => {
                        assert(all[i as int] == commands@[i as int]@);
                        assert(commands@[i as int].completer is Some);
                        owned = completer(index, prefix);
                        assert(answers(
                            *completer,
                            index as nat,
                            prefix@,
                            parse::views(owned@),
                        ));
                        let mut v: Vec<&str> = Vec::new();
                        let mut k: usize = 0;
                        while k < owned.len()
                            invariant
                                k <= owned.len(),
                                parse::str_views(v@) == parse::views(owned@).take(k as int),
                            decreases owned.len() - k,
                        {
                            let item = owned[k].as_str();
                            let ghost before = v@;
                            v.push(item);
                            assert(parse::str_views(v@) =~= parse::str_views(before).push(item@));
                            assert(parse::views(owned@).take(k + 1) =~= parse::views(owned@).take(
                                k as int,
                            ).push(parse::views(owned@)[k as int]));
                            k += 1;
                        }
                        assert(parse::views(owned@).take(k as int) =~= parse::views(owned@));
                        v
                    },
                },
            }
        }
    };
    proof {
        assert(offers(all, s, parse::str_views(candidates@)));
    }
    complete_with(prompt, line, io, candidates.as_slice());
}

} // verus!
