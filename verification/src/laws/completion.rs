//! Tab completion.

use vstd::prelude::*;
use vstd::utf8::*;

use crate::command;
use crate::command::{CommandView, CompleterView};
use crate::complete;
use crate::keys::Key;
use crate::laws;
use crate::line::LineView;
use crate::parse;
use crate::render;
use crate::shell;
use crate::shell::{Next, SessionView, ShellView};
use crate::text;

verus! {

/// What `matching` keeps: those of the items that begin with the prefix.
pub proof fn law_matching(items: Seq<Seq<char>>, prefix: Seq<char>, item: Seq<char>)
    ensures
        complete::matching(items, prefix).contains(item) <==> items.contains(item)
            && prefix.is_prefix_of(item),
{
    broadcast use Seq::lemma_filter_pred, Seq::lemma_filter_contains;

    let pred = |x: Seq<char>| prefix.is_prefix_of(x);
    let r = items.filter(pred);
    if r.contains(item) {
        items.lemma_filter_contains_rev(pred, item);
        let i = choose|i: int| 0 <= i < r.len() && r[i] == item;
        assert(pred(r[i]));
    }
    if items.contains(item) && prefix.is_prefix_of(item) {
        let i = choose|i: int| 0 <= i < items.len() && items[i] == item;
        assert(pred(items[i]));
        assert(r.contains(items[i]));
    }
}

/// A built-in of that name that no registered command shadows.
pub open spec fn is_open_builtin<H, C>(commands: Seq<CommandView<H, C>>, name: Seq<char>) -> bool {
    (name == "help"@ || name == "history"@ || name == "clear"@) && !command::names(
        commands,
    ).contains(name)
}

/// A name counts as registered when a command has it.
pub proof fn lemma_registered<H, C>(commands: Seq<CommandView<H, C>>, name: Seq<char>)
    ensures
        render::is_registered(commands, name) <==> command::names(commands).contains(name),
{
    let names = command::names(commands);
    command::lemma_lookup(commands, name);
    match command::lookup(commands, name) {
        Some(i) => {
            assert(names[i] == name);
        },
        None => {
            if names.contains(name) {
                let j = choose|j: int| 0 <= j < names.len() && names[j] == name;
                assert(commands[j].name == name);
            }
        },
    }
}

proof fn lemma_matching_builtins<H, C>(
    commands: Seq<CommandView<H, C>>,
    prefix: Seq<char>,
    n: nat,
    name: Seq<char>,
)
    requires
        n <= 3,
    ensures
        complete::matching_builtins(commands, prefix, n).contains(name) <==> (exists|k: int|
            0 <= k < n && (#[trigger] render::builtins()[k]).0 == name) && prefix.is_prefix_of(name)
            && !render::is_registered(commands, name),
    decreases n,
{
    if n > 0 {
        let m = (n - 1) as nat;
        lemma_matching_builtins(commands, prefix, m, name);
        let init = complete::matching_builtins(commands, prefix, m);
        let all = complete::matching_builtins(commands, prefix, n);
        let last = render::builtins()[n - 1].0;
        if all.len() > init.len() {
            assert(all =~= init.push(last));
            assert(all.contains(name) <==> init.contains(name) || name == last) by {
                if init.contains(name) {
                    let j = choose|j: int| 0 <= j < init.len() && init[j] == name;
                    assert(all[j] == name);
                }
                assert(all[init.len() as int] == last);
                if all.contains(name) && name != last {
                    let j = choose|j: int| 0 <= j < all.len() && all[j] == name;
                    assert(init[j] == name);
                }
            }
        }
    }
}

/// The candidates for a command name are the names of the registered commands and
/// of the built-ins that none of them shadows, so far as they begin with what was
/// typed: none is left out, and nothing else is offered.
pub proof fn law_command_candidates<H, C>(
    commands: Seq<CommandView<H, C>>,
    prefix: Seq<char>,
    name: Seq<char>,
)
    ensures
        complete::matching_commands(commands, prefix).contains(name) <==> prefix.is_prefix_of(name)
            && (command::names(commands).contains(name) || is_open_builtin(commands, name)),
{
    let a = complete::matching(command::names(commands), prefix);
    let b = complete::matching_builtins(commands, prefix, 3);
    law_matching(command::names(commands), prefix, name);
    lemma_matching_builtins(commands, prefix, 3, name);
    lemma_registered(commands, name);
    let built = render::builtins();
    assert(built[0].0 == "help"@);
    assert(built[1].0 == "history"@);
    assert(built[2].0 == "clear"@);
    assert((a + b).contains(name) <==> a.contains(name) || b.contains(name)) by {
        if a.contains(name) {
            let i = choose|i: int| 0 <= i < a.len() && a[i] == name;
            assert((a + b)[i] == name);
        }
        if b.contains(name) {
            let i = choose|i: int| 0 <= i < b.len() && b[i] == name;
            assert((a + b)[a.len() + i] == name);
        }
        if (a + b).contains(name) {
            let i = choose|i: int| 0 <= i < (a + b).len() && (a + b)[i] == name;
            if i < a.len() {
                assert(a[i] == name);
            } else {
                assert(b[i - a.len()] == name);
            }
        }
    }
}

proof fn lemma_matching_no_duplicates(items: Seq<Seq<char>>, prefix: Seq<char>)
    requires
        items.no_duplicates(),
    ensures
        complete::matching(items, prefix).no_duplicates(),
    decreases items.len(),
{
    reveal(Seq::filter);
    if items.len() > 0 {
        let init = items.drop_last();
        let r = complete::matching(init, prefix);
        lemma_matching_no_duplicates(init, prefix);
        law_matching(init, prefix, items.last());
        assert(!init.contains(items.last()));
        assert forall|i: int| 0 <= i < r.len() implies r[i] != items.last() by {
            assert(r.contains(r[i]));
        }
        assert(complete::matching(items, prefix) == if prefix.is_prefix_of(items.last()) {
            r.push(items.last())
        } else {
            r
        });
    }
}

/// No command name is offered twice.
pub proof fn law_command_candidates_are_distinct<H, C>(
    commands: Seq<CommandView<H, C>>,
    prefix: Seq<char>,
)
    requires
        command::distinct_names(commands),
    ensures
        complete::matching_commands(commands, prefix).no_duplicates(),
{
    let names = command::names(commands);
    let a = complete::matching(names, prefix);
    let b = complete::matching_builtins(commands, prefix, 3);
    assert forall|i: int, j: int|
        0 <= i < names.len() && 0 <= j < names.len() && i != j implies names[i] != names[j] by {
        assert(commands[i].name != commands[j].name || i == j) by {
            if i < j {
                assert(commands[i].name != commands[j].name);
            } else {
                assert(commands[j].name != commands[i].name);
            }
        }
    }
    lemma_matching_no_duplicates(names, prefix);
    reveal_strlit("help");
    reveal_strlit("history");
    reveal_strlit("clear");
    assert("help"@.len() == 4 && "history"@.len() == 7 && "clear"@.len() == 5);
    reveal_with_fuel(complete::matching_builtins, 4);
    assert(b.no_duplicates());
    assert forall|i: int, j: int| 0 <= i < a.len() && 0 <= j < b.len() implies a[i] != b[j] by {
        assert(a.contains(a[i]));
        assert(b.contains(b[j]));
        law_matching(names, prefix, a[i]);
        lemma_matching_builtins(commands, prefix, 3, b[j]);
        lemma_registered(commands, b[j]);
    }
}

/// The partial token is the end of the line, without whitespace, and behind
/// whitespace or at the start of the line.
pub proof fn law_partial_token(s: Seq<char>)
    ensures
        complete::stem(s) + complete::partial_token(s) == s,
        forall|i: int|
            0 <= i < complete::partial_token(s).len() ==> !text::white_space(
                #[trigger] complete::partial_token(s)[i],
            ),
        complete::stem(s).len() > 0 ==> text::white_space(complete::stem(s).last()),
{
    text::lemma_tail_len_holds(s, false);
    assert(complete::stem(s) + complete::partial_token(s) =~= s);
}

/// What the inserted common prefix is: the longest one that all candidates have.
pub proof fn law_common_prefix_is_longest(candidates: Seq<Seq<char>>, p: Seq<char>)
    requires
        candidates.len() > 0,
    ensures
        forall|i: int|
            0 <= i < candidates.len() ==> parse::common(candidates).is_prefix_of(
                #[trigger] candidates[i],
            ),
        (forall|i: int| 0 <= i < candidates.len() ==> p.is_prefix_of(#[trigger] candidates[i]))
            ==> p.is_prefix_of(parse::common(candidates)),
{
    parse::lemma_common_longest(candidates, p);
}

/// Completion with candidates that begin with the partial token only ever adds to
/// the end of the line, and leaves the cursor there.
pub proof fn law_completion_extends(line: LineView, candidates: Seq<Seq<char>>)
    requires
        line.after.len() == 0,
        forall|i: int|
            0 <= i < candidates.len() ==> complete::partial_token(line.text()).is_prefix_of(
                #[trigger] candidates[i],
            ),
    ensures
        line.text().is_prefix_of(complete::completed_line(line, candidates).text()),
        complete::completed_line(line, candidates).after.len() == 0,
{
    let s = line.text();
    let p = complete::partial_token(s);
    let stem = complete::stem(s);
    law_partial_token(s);
    let r = complete::completed_line(line, candidates);
    if candidates.len() == 0 {
        assert(s =~= s.subrange(0, s.len() as int));
    } else if candidates.len() == 1 {
        let c = candidates[0];
        assert(p.is_prefix_of(candidates[0]));
        assert(r.text() =~= stem + c + seq![' ']);
        assert(s =~= r.text().subrange(0, s.len() as int));
    } else {
        let c = parse::common(candidates);
        parse::lemma_common_longest(candidates, p);
        assert(p.is_prefix_of(c));
        if r != line {
            assert(r.text() =~= stem + c);
            assert(s =~= r.text().subrange(0, s.len() as int));
        } else {
            assert(s =~= s.subrange(0, s.len() as int));
        }
    }
}

/// Completing a command name, or an argument from a list of options, only ever
/// adds to the end of the line.
pub proof fn law_tab_extends<H, C: Fn(usize, &str) -> Vec<String>>(
    shell: ShellView<H, C>,
    s: SessionView,
    out: Seq<u8>,
    t: SessionView,
    out2: Seq<u8>,
)
    requires
        shell::tab_effect(shell, s, out, t, out2),
        complete::token_index(s.line.text()) > 0 ==> !(complete::completer_for(
            shell.commands,
            s.line.text(),
        ) matches Some(CompleterView::Custom(_))),
    ensures
        s.line.text().is_prefix_of(t.line.text()),
        t == (SessionView { line: t.line, ..s }),
{
    let text = s.line.text();
    let p = complete::partial_token(text);
    if s.line.after.len() > 0 {
        assert(text =~= text.subrange(0, text.len() as int));
    } else {
        let r = choose|r: Seq<Seq<char>>|
            #![trigger complete::offers(shell.commands, text, r)]
            complete::offers(shell.commands, text, r) && t == (SessionView {
                line: complete::completed_line(s.line, r),
                ..s
            }) && out2 == out + complete::completed_bytes(shell.prompt, s.line, r);
        assert forall|i: int| 0 <= i < r.len() implies p.is_prefix_of(#[trigger] r[i]) by {
            assert(r.contains(r[i]));
            if complete::token_index(text) == 0 {
                law_command_candidates(shell.commands, p, r[i]);
            } else {
                match complete::completer_for(shell.commands, text) {
                    Some(CompleterView::Options(options)) => {
                        law_matching(options, p, r[i]);
                    },
                    _ => {},
                }
            }
        }
        law_completion_extends(s.line, r);
    }
}

/// A single candidate is completed with a space behind it, so that the next
/// argument can be typed.
pub proof fn law_unique_candidate_is_finished(line: LineView, candidate: Seq<char>)
    ensures
        ({
            let r = complete::completed_line(line, seq![candidate]);
            &&& r == LineView::at_end(complete::stem(line.text()) + candidate + seq![' '])
            &&& complete::partial_token(r.text()).len() == 0
        }),
{
    let t = complete::stem(line.text()) + candidate + seq![' '];
    assert(LineView::at_end(t).text() =~= t);
    text::lemma_tail_len_holds(t, false);
    assert(t[t.len() - 1] == ' ');
    if text::tail_len(t, false) > 0 {
        assert(!text::white_space(t[t.len() - 1]));
    }
}

// ---------------------------------------------------------------------------
// What is offered
// ---------------------------------------------------------------------------

/// Candidates come in the order of the list that they are from.
pub proof fn law_matching_keeps_order(
    a: Seq<Seq<char>>,
    b: Seq<Seq<char>>,
    item: Seq<char>,
    prefix: Seq<char>,
)
    ensures
        complete::matching(a + b, prefix) == complete::matching(a, prefix) + complete::matching(
            b,
            prefix,
        ),
        complete::matching(seq![item], prefix) == if prefix.is_prefix_of(item) {
            seq![item]
        } else {
            Seq::<Seq<char>>::empty()
        },
    decreases b.len(),
{
    reveal(Seq::filter);
    reveal_with_fuel(Seq::filter, 2);
    assert(seq![item].drop_last() =~= Seq::empty());
    assert(complete::matching(seq![item].drop_last(), prefix) =~= Seq::empty());
    assert(complete::matching(seq![item], prefix) =~= if prefix.is_prefix_of(item) {
        seq![item]
    } else {
        Seq::<Seq<char>>::empty()
    });
    if b.len() == 0 {
        assert(a + b =~= a);
        assert(complete::matching(a + b, prefix) =~= complete::matching(a, prefix)
            + complete::matching(b, prefix));
    } else {
        law_matching_keeps_order(a, b.drop_last(), item, prefix);
        assert((a + b).drop_last() =~= a + b.drop_last());
        assert((a + b).last() == b.last());
        assert(complete::matching(a + b, prefix) =~= complete::matching(a, prefix)
            + complete::matching(b, prefix));
    }
}

/// The built-in `name` as a list, unless a registered command shadows it.
pub open spec fn unless_shadowed<H, C>(commands: Seq<CommandView<H, C>>, name: Seq<char>) -> Seq<
    Seq<char>,
> {
    if command::names(commands).contains(name) {
        Seq::empty()
    } else {
        seq![name]
    }
}

/// The names that can be typed: the registered commands in their order, then the
/// built-ins that none of them shadows.
pub open spec fn known_names<H, C>(commands: Seq<CommandView<H, C>>) -> Seq<Seq<char>> {
    command::names(commands) + unless_shadowed(commands, "help"@) + unless_shadowed(
        commands,
        "history"@,
    ) + unless_shadowed(commands, "clear"@)
}

/// Command names are offered in the order in which they are known.
pub proof fn law_command_candidates_in_order<H, C>(
    commands: Seq<CommandView<H, C>>,
    prefix: Seq<char>,
)
    ensures
        complete::matching_commands(commands, prefix) == complete::matching(
            known_names(commands),
            prefix,
        ),
{
    let names = command::names(commands);
    let e = Seq::<Seq<char>>::empty();
    let a = unless_shadowed(commands, "help"@);
    let b = unless_shadowed(commands, "history"@);
    let c = unless_shadowed(commands, "clear"@);
    lemma_registered(commands, "help"@);
    lemma_registered(commands, "history"@);
    lemma_registered(commands, "clear"@);
    law_matching_keeps_order(names, a, "help"@, prefix);
    law_matching_keeps_order(names + a, b, "history"@, prefix);
    law_matching_keeps_order(names + a + b, c, "clear"@, prefix);
    assert(complete::matching(e, prefix) =~= e) by {
        reveal(Seq::filter);
    }
    reveal_with_fuel(complete::matching_builtins, 4);
    assert(complete::matching_builtins(commands, prefix, 3) =~= complete::matching(a, prefix)
        + complete::matching(b, prefix) + complete::matching(c, prefix));
    assert(complete::matching_commands(commands, prefix) =~= complete::matching(
        known_names(commands),
        prefix,
    ));
}

/// While the first word is typed, the known names that begin with it are offered.
pub proof fn law_offers_commands<H, C: Fn(usize, &str) -> Vec<String>>(
    commands: Seq<CommandView<H, C>>,
    s: Seq<char>,
    head: Seq<char>,
    token: Seq<char>,
    r: Seq<Seq<char>>,
)
    requires
        complete::ends_in(s, head, token),
        text::words(head).len() == 0,
    ensures
        complete::offers(commands, s, r) <==> r == complete::matching(known_names(commands), token),
{
    laws::words::law_token_position(s, head, token);
    law_command_candidates_in_order(commands, token);
}

/// Behind the name of a command with options, those that begin with the partial
/// token are offered for the first argument, and none for the others.
pub proof fn law_offers_options<H, C: Fn(usize, &str) -> Vec<String>>(
    commands: Seq<CommandView<H, C>>,
    s: Seq<char>,
    head: Seq<char>,
    token: Seq<char>,
    i: int,
    options: Seq<Seq<char>>,
    r: Seq<Seq<char>>,
)
    requires
        complete::ends_in(s, head, token),
        text::words(head).len() > 0,
        command::lookup(commands, text::words(head)[0]) == Some(i),
        commands[i].completer == Some(CompleterView::<C>::Options(options)),
    ensures
        complete::offers(commands, s, r) <==> r == if text::words(head).len() == 1 {
            complete::matching(options, token)
        } else {
            Seq::<Seq<char>>::empty()
        },
{
    laws::words::law_token_position(s, head, token);
    laws::words::law_words_of_line(s, head, token);
    assert(text::words(s)[0] == text::words(head)[0]);
}

/// Behind the name of a command with a custom completer, that one is asked, with
/// the number of words before the partial token and with the token, and what it
/// answers is offered as it is.
pub proof fn law_offers_custom<H, C: Fn(usize, &str) -> Vec<String>>(
    commands: Seq<CommandView<H, C>>,
    s: Seq<char>,
    head: Seq<char>,
    token: Seq<char>,
    i: int,
    completer: C,
    r: Seq<Seq<char>>,
)
    requires
        complete::ends_in(s, head, token),
        text::words(head).len() > 0,
        command::lookup(commands, text::words(head)[0]) == Some(i),
        commands[i].completer == Some(CompleterView::Custom(completer)),
    ensures
        complete::offers(commands, s, r) <==> exists|k: usize, p: &str, v: Vec<String>|
            #![trigger call_ensures(completer, (k, p), v)]
            k == text::words(head).len() && p@ == token && call_ensures(completer, (k, p), v)
                && v@.len() == r.len() && forall|j: int|
                0 <= j < r.len() ==> v@[j]@ == #[trigger] r[j],
{
    laws::words::law_token_position(s, head, token);
    laws::words::law_words_of_line(s, head, token);
    assert(text::words(s)[0] == text::words(head)[0]);
    if complete::offers(commands, s, r) {
        let (k, p, v) = choose|k: usize, p: &str, v: Vec<String>|
            #![trigger call_ensures(completer, (k, p), v)]
            k == text::words(head).len() && p@ == token && call_ensures(completer, (k, p), v) && r
                == parse::views(v@);
        assert(call_ensures(completer, (k, p), v));
    }
    if exists|k: usize, p: &str, v: Vec<String>|
        #![trigger call_ensures(completer, (k, p), v)]
        k == text::words(head).len() && p@ == token && call_ensures(completer, (k, p), v)
            && v@.len() == r.len() && forall|j: int|
            0 <= j < r.len() ==> v@[j]@ == #[trigger] r[j] {
        let (k, p, v) = choose|k: usize, p: &str, v: Vec<String>|
            #![trigger call_ensures(completer, (k, p), v)]
            k == text::words(head).len() && p@ == token && call_ensures(completer, (k, p), v)
                && v@.len() == r.len() && forall|j: int|
                0 <= j < r.len() ==> v@[j]@ == #[trigger] r[j];
        assert(parse::views(v@) =~= r);
        assert(call_ensures(completer, (k, p), v));
    }
}

/// Behind a word that names no command, or a command without completion, nothing
/// is offered.
pub proof fn law_offers_nothing<H, C: Fn(usize, &str) -> Vec<String>>(
    commands: Seq<CommandView<H, C>>,
    s: Seq<char>,
    head: Seq<char>,
    token: Seq<char>,
    r: Seq<Seq<char>>,
)
    requires
        complete::ends_in(s, head, token),
        text::words(head).len() > 0,
        command::lookup(commands, text::words(head)[0]) matches Some(i)
            ==> commands[i].completer is None,
    ensures
        complete::offers(commands, s, r) <==> r.len() == 0,
{
    laws::words::law_token_position(s, head, token);
    laws::words::law_words_of_line(s, head, token);
    assert(text::words(s)[0] == text::words(head)[0]);
    assert(r.len() == 0 ==> r =~= Seq::empty());
}

// ---------------------------------------------------------------------------
// What becomes of the line
// ---------------------------------------------------------------------------

/// Two lists of candidates are printed with two blanks between them, and one
/// candidate as it is.
pub proof fn law_listing(a: Seq<Seq<char>>, b: Seq<Seq<char>>, x: Seq<char>)
    ensures
        complete::listing(seq![x]) == encode_utf8(x),
        a.len() > 0 && b.len() > 0 ==> complete::listing(a + b) == complete::listing(a) + seq![
            32u8,
            32u8,
        ] + complete::listing(b),
    decreases b.len(),
{
    laws::session::lemma_literals();
    if a.len() > 0 && b.len() > 0 {
        let init = b.drop_last();
        assert((a + b).drop_last() =~= a + init);
        assert((a + b).last() == b.last());
        if b.len() == 1 {
            assert(a + init =~= a);
        } else {
            law_listing(a, init, x);
        }
        assert(complete::listing(a + b) =~= complete::listing(a) + seq![32u8, 32u8]
            + complete::listing(b));
    }
}

/// What Tab makes of a line that ends in `token` behind `head`, and prints, when
/// these candidates are offered. Without a candidate nothing happens. One candidate
/// takes the place of the token, with a blank behind it. Of several the longest
/// common prefix takes its place if it is longer, and all are listed.
pub open spec fn completes(
    prompt: Seq<char>,
    line: LineView,
    head: Seq<char>,
    token: Seq<char>,
    candidates: Seq<Seq<char>>,
    line2: LineView,
    printed: Seq<u8>,
) -> bool {
    &&& candidates.len() == 0 ==> line2 == line && printed.len() == 0
    &&& candidates.len() == 1 ==> {
        &&& line2.before == head + candidates[0] + seq![' ']
        &&& line2.after.len() == 0
        &&& printed == render::redraw_bytes(prompt, line2)
    }
    &&& candidates.len() >= 2 ==> {
        &&& forall|c: Seq<char>| #[trigger]
            complete::is_longest_common(candidates, c) && encode_utf8(c).len() > encode_utf8(
                token,
            ).len() ==> line2.before == head + c && line2.after.len() == 0
        &&& forall|c: Seq<char>| #[trigger]
            complete::is_longest_common(candidates, c) && encode_utf8(c).len() <= encode_utf8(
                token,
            ).len() ==> line2 == line
        &&& printed == seq![13u8, 10u8] + complete::listing(candidates) + seq![13u8, 10u8]
            + render::redraw_bytes(prompt, line2)
    }
}

/// Tab does nothing inside the line. At its end it completes the last token, with
/// candidates that are offered, and leaves the rest of the session alone.
pub proof fn law_tab_key<H, C: Fn(usize, &str) -> Vec<String>>(
    shell: ShellView<H, C>,
    s: SessionView,
    out: Seq<u8>,
    head: Seq<char>,
    token: Seq<char>,
    t: SessionView,
    out2: Seq<u8>,
    next: Next,
)
    requires
        shell::reacts(shell, s, out, Key::Tab, t, out2, next),
        complete::ends_in(s.line.before + s.line.after, head, token),
    ensures
        s.line.after.len() > 0 ==> laws::session::nothing_happens(s, out, t, out2, next),
        s.line.after.len() == 0 ==> exists|r: Seq<Seq<char>>, printed: Seq<u8>|
            #![trigger completes(shell.prompt, s.line, head, token, r, t.line, printed)]
            complete::offers(shell.commands, s.line.before + s.line.after, r) && completes(
                shell.prompt,
                s.line,
                head,
                token,
                r,
                t.line,
                printed,
            ) && out2 == out + printed,
        laws::session::only_line_changes(s, t),
        next == Next::Read,
{
    let text = s.line.text();
    if s.line.after.len() == 0 {
        let r = choose|r: Seq<Seq<char>>|
            #![trigger complete::offers(shell.commands, text, r)]
            complete::offers(shell.commands, text, r) && t == (SessionView {
                line: complete::completed_line(s.line, r),
                ..s
            }) && out2 == out + complete::completed_bytes(shell.prompt, s.line, r);
        let printed = complete::completed_bytes(shell.prompt, s.line, r);
        lemma_completes(shell.prompt, s.line, head, token, r);
        assert(completes(shell.prompt, s.line, head, token, r, t.line, printed));
    }
}

proof fn lemma_completes(
    prompt: Seq<char>,
    line: LineView,
    head: Seq<char>,
    token: Seq<char>,
    r: Seq<Seq<char>>,
)
    requires
        complete::ends_in(line.text(), head, token),
    ensures
        completes(
            prompt,
            line,
            head,
            token,
            r,
            complete::completed_line(line, r),
            complete::completed_bytes(prompt, line, r),
        ),
{
    complete::lemma_ends_in(line.text(), head, token);
    laws::session::lemma_literals();
    assert forall|c: Seq<char>| #[trigger] complete::is_longest_common(r, c) implies parse::common(
        r,
    ) == c by {
        complete::lemma_longest_common(r, c);
    }
}

/// Every list of candidates has a longest common prefix.
pub proof fn law_longest_common_exists(candidates: Seq<Seq<char>>)
    requires
        candidates.len() > 0,
    ensures
        complete::is_longest_common(candidates, parse::common(candidates)),
{
    let c = parse::common(candidates);
    parse::lemma_common_longest(candidates, c);
    let n = c.len() as int;
    let first = candidates[0];
    assert(c.is_prefix_of(candidates[0]));
    if first.len() == c.len() {
        assert(candidates[0].len() == c.len() || candidates[0].len() == c.len());
    } else {
        let d = c.push(first[n]);
        assert(d =~= first.subrange(0, n + 1));
        if forall|i: int| 0 <= i < candidates.len() ==> d.is_prefix_of(#[trigger] candidates[i]) {
            parse::lemma_common_longest(candidates, d);
        }
        let j = choose|j: int| 0 <= j < candidates.len() && !d.is_prefix_of(#[trigger] candidates[j]);
        let other = candidates[j];
        assert(c.is_prefix_of(candidates[j]));
        if other.len() > n && other[n] == first[n] {
            assert forall|k: int| 0 <= k < n implies c[k] == other[k] by {
                assert(c[k] == other.subrange(0, n)[k]);
            }
            assert(d =~= other.subrange(0, n + 1));
        }
        assert(candidates[0].len() == c.len() || candidates[j].len() == c.len()
            || candidates[0][n] != candidates[j][n]);
    }
}

/// Where two or more candidates that begin with the partial token are all that is
/// offered, Tab puts the longest prefix that they share in the place of the token,
/// however short the token is, leaves the cursor behind it, and lists them.
pub proof fn law_tab_inserts_common_prefix<H, C: Fn(usize, &str) -> Vec<String>>(
    shell: ShellView<H, C>,
    s: SessionView,
    out: Seq<u8>,
    head: Seq<char>,
    token: Seq<char>,
    candidates: Seq<Seq<char>>,
    c: Seq<char>,
    t: SessionView,
    out2: Seq<u8>,
    next: Next,
)
    requires
        shell::reacts(shell, s, out, Key::Tab, t, out2, next),
        s.line.after.len() == 0,
        complete::ends_in(s.line.before, head, token),
        forall|r: Seq<Seq<char>>| #[trigger]
            complete::offers(shell.commands, s.line.before, r) ==> r == candidates,
        candidates.len() >= 2,
        forall|i: int| 0 <= i < candidates.len() ==> token.is_prefix_of(#[trigger] candidates[i]),
        complete::is_longest_common(candidates, c),
    ensures
        t.line.before == head + c,
        t.line.after.len() == 0,
        laws::session::only_line_changes(s, t),
        laws::session::goes_on(
            out,
            seq![13u8, 10u8] + complete::listing(candidates) + seq![13u8, 10u8]
                + render::redraw_bytes(shell.prompt, t.line),
            out2,
            next,
        ),
{
    assert(s.line.before + s.line.after =~= s.line.before);
    law_tab_key(shell, s, out, head, token, t, out2, next);
    complete::lemma_inserts_common(s.line, candidates, head, token, c);
    let (r, printed) = choose|r: Seq<Seq<char>>, printed: Seq<u8>|
        #![trigger completes(shell.prompt, s.line, head, token, r, t.line, printed)]
        complete::offers(shell.commands, s.line.before + s.line.after, r) && completes(
            shell.prompt,
            s.line,
            head,
            token,
            r,
            t.line,
            printed,
        ) && out2 == out + printed;
    assert(r == candidates);
    parse::lemma_common_longest(candidates, token);
    complete::lemma_longest_common(candidates, c);
    text::lemma_boundary_of(c, token.len() as int);
    text::lemma_encode_len(c.skip(token.len() as int));
    assert(token.is_prefix_of(c));
    assert(c.take(token.len() as int) =~= token);
    if c.len() == token.len() {
        assert(c =~= token);
        assert(head + c =~= s.line.before);
    }
}

} // verus!
