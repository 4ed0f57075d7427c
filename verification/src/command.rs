//! Commands and their arguments.

use vstd::prelude::*;

use crate::parse;

verus! {

/// The strings of a list with single spaces between them.
pub open spec fn joined(parts: Seq<Seq<char>>) -> Seq<char>
    decreases parts.len(),
{
    if parts.len() == 0 {
        Seq::empty()
    } else if parts.len() == 1 {
        parts[0]
    } else {
        joined(parts.drop_last()).push(' ') + parts.last()
    }
}

/// Arguments of a command invocation: the whitespace-split, quote-unescaped
/// tokens of the line, excluding the command name itself.
#[derive(Clone, Copy)]
pub struct Args<'a> {
    parts: &'a [String],
}

/// The arguments in order.
impl<'a> View for Args<'a> {
    type V = Seq<Seq<char>>;

    closed spec fn view(&self) -> Seq<Seq<char>> {
        parse::views(self.parts@)
    }
}

impl<'a> Args<'a> {
    /// The arguments in `parts`.
    pub fn new(parts: &'a [String]) -> (args: Self)
        ensures
            args@ == parse::views(parts@),
    {
        Args { parts }
    }

    /// Number of arguments.
    pub fn len(&self) -> (n: usize)
        ensures
            n == self@.len(),
    {
        self.parts.len()
    }

    /// Whether there are no arguments.
    pub fn is_empty(&self) -> (b: bool)
        ensures
            b == (self@.len() == 0),
    {
        self.parts.is_empty()
    }

    /// Argument at index `i`, if present.
    pub fn get(&self, i: usize) -> (r: Option<&str>)
        ensures
            i < self@.len() ==> r is Some && r->0@ == self@[i as int],
            i >= self@.len() ==> r is None,
    {
        if i < self.parts.len() {
            Some(self.parts[i].as_str())
        } else {
            None
        }
    }

    /// The arguments in order.
    pub fn iter(&self) -> (v: Vec<&str>)
        ensures
            parse::str_views(v@) == self@,
    {
        let mut v: Vec<&str> = Vec::new();
        let mut i: usize = 0;
        while i < self.parts.len()
            invariant
                i <= self.parts.len(),
                parse::str_views(v@) == self@.take(i as int),
            decreases self.parts.len() - i,
        {
            let s = self.parts[i].as_str();
            let ghost before = v@;
            v.push(s);
            assert(parse::str_views(v@) =~= parse::str_views(before).push(s@));
            assert(self@.take(i + 1) =~= self@.take(i as int).push(self@[i as int]));
            i += 1;
        }
        assert(self@.take(i as int) =~= self@);
        v
    }

    /// The arguments joined back with single spaces (useful for commands like
    /// `echo` that consume the rest of the line verbatim).
    pub fn rest(&self) -> (out: String)
        ensures
            out@ == joined(self@),
    {
        let mut out = String::new();
        let mut i: usize = 0;
        while i < self.parts.len()
            invariant
                i <= self.parts.len(),
                out@ == joined(self@.take(i as int)),
            decreases self.parts.len() - i,
        {
            if i > 0 {
                out.push(' ');
            }
            out.append(self.parts[i].as_str());
            assert(self@.take(i + 1).drop_last() =~= self@.take(i as int));
            assert(self@.take(i + 1).last() == self@[i as int]);
            assert(i == 0 ==> out@ =~= self@[0]);
            i += 1;
        }
        assert(self@.take(i as int) =~= self@);
        out
    }
}

/// How a command completes its arguments. Fixed option lists are stored
/// directly; a custom completer is called with the index of the argument being
/// completed (`>= 1`) and the current partial token, and returns a list of
/// candidate replacements for that token.
pub enum CompleterKind<C> {
    /// A fixed list of options.
    Options(&'static [&'static str]),
    /// A custom completer.
    Custom(C),
}

/// The model of a [`CompleterKind`].
pub enum CompleterView<C> {
    /// A fixed list of options.
    Options(Seq<Seq<char>>),
    /// A custom completer.
    Custom(C),
}

impl<C> View for CompleterKind<C> {
    type V = CompleterView<C>;

    open spec fn view(&self) -> CompleterView<C> {
        match *self {
            CompleterKind::Options(options) => CompleterView::Options(
                parse::str_views(options@),
            ),
            CompleterKind::Custom(c) => CompleterView::Custom(c),
        }
    }
}

/// A registered command. The shell only carries the handler.
pub struct Command<H, C> {
    /// What the user types at the prompt.
    pub name: String,
    /// The one-line description shown by `help`.
    pub help: &'static str,
    /// What runs the command.
    pub handler: H,
    /// How the arguments are completed, if they are.
    pub completer: Option<CompleterKind<C>>,
}

/// The model of a [`Command`].
pub struct CommandView<H, C> {
    /// What the user types at the prompt.
    pub name: Seq<char>,
    /// The one-line description shown by `help`.
    pub help: Seq<char>,
    /// What runs the command.
    pub handler: H,
    /// How the arguments are completed, if they are.
    pub completer: Option<CompleterView<C>>,
}

impl<H, C> View for Command<H, C> {
    type V = CommandView<H, C>;

    open spec fn view(&self) -> CommandView<H, C> {
        CommandView {
            name: self.name@,
            help: self.help@,
            handler: self.handler,
            completer: match self.completer {
                Some(c) => Some(c@),
                None => None,
            },
        }
    }
}

/// The models of a list of commands.
pub open spec fn command_views<H, C>(v: Seq<Command<H, C>>) -> Seq<CommandView<H, C>> {
    Seq::new(v.len(), |i: int| v[i]@)
}

/// The names of a list of commands, in order.
pub open spec fn names<H, C>(v: Seq<CommandView<H, C>>) -> Seq<Seq<char>> {
    Seq::new(v.len(), |i: int| v[i].name)
}

/// The index of the first command of that name.
pub open spec fn lookup<H, C>(v: Seq<CommandView<H, C>>, name: Seq<char>) -> Option<int>
    decreases v.len(),
{
    if v.len() == 0 {
        None
    } else if v[0].name == name {
        Some(0int)
    } else {
        match lookup(v.drop_first(), name) {
            Some(i) => Some(i + 1),
            None => None,
        }
    }
}

/// No two commands have the same name.
pub open spec fn distinct_names<H, C>(v: Seq<CommandView<H, C>>) -> bool {
    forall|i: int, j: int| 0 <= i < j < v.len() ==> #[trigger] v[i].name != #[trigger] v[j].name
}

/// The commands after one more registration: a command of the same name is
/// replaced in its place, any other is added at the end.
pub open spec fn registered<H, C>(
    v: Seq<CommandView<H, C>>,
    cmd: CommandView<H, C>,
) -> Seq<CommandView<H, C>> {
    match lookup(v, cmd.name) {
        Some(i) => v.update(i, cmd),
        None => v.push(cmd),
    }
}

/// `lookup` finds the first command of a name, and finds one if there is one.
pub proof fn lemma_lookup<H, C>(v: Seq<CommandView<H, C>>, name: Seq<char>)
    ensures
        match lookup(v, name) {
            Some(i) => 0 <= i < v.len() && v[i].name == name && forall|j: int|
                0 <= j < i ==> #[trigger] v[j].name != name,
            None => forall|j: int| 0 <= j < v.len() ==> #[trigger] v[j].name != name,
        },
    decreases v.len(),
{
    if v.len() > 0 && v[0].name != name {
        let t = v.drop_first();
        lemma_lookup(t, name);
        match lookup(t, name) {
            Some(i) => {
                assert(t[i] == v[i + 1]);
                assert forall|j: int| 0 <= j < i + 1 implies #[trigger] v[j].name != name by {
                    if j > 0 {
                        assert(v[j] == t[j - 1]);
                    }
                }
            },
            None => {
                assert forall|j: int| 0 <= j < v.len() implies #[trigger] v[j].name != name by {
                    if j > 0 {
                        assert(v[j] == t[j - 1]);
                    }
                }
            },
        }
    }
}

/// An index at which the name stands, and before which it does not, is the one
/// that `lookup` finds.
proof fn lemma_lookup_is<H, C>(v: Seq<CommandView<H, C>>, name: Seq<char>, i: int)
    requires
        0 <= i < v.len(),
        v[i].name == name,
        forall|j: int| 0 <= j < i ==> #[trigger] v[j].name != name,
    ensures
        lookup(v, name) == Some(i),
{
    lemma_lookup(v, name);
    match lookup(v, name) {
        Some(k) => {
            assert(v[k].name == name);
        },
        None => {},
    }
}

/// Find a command by its name.
pub fn find<H, C>(commands: &Vec<Command<H, C>>, name: &str) -> (r: Option<usize>)
    ensures
        match r {
            Some(i) => i < commands.len() && lookup(command_views(commands@), name@) == Some(
                i as int,
            ),
            None => lookup(command_views(commands@), name@) is None,
        },
{
    let ghost v = command_views(commands@);
    let mut i: usize = 0;
    while i < commands.len()
        invariant
            v == command_views(commands@),
            i <= commands.len(),
            forall|j: int| 0 <= j < i ==> #[trigger] v[j].name != name@,
        decreases commands.len() - i,
    {
        assert(v[i as int].name == commands@[i as int].name@);
        if *commands[i].name.as_str() == *name {
            proof {
                lemma_lookup_is(v, name@, i as int);
            }
            return Some(i);
        }
        i += 1;
    }
    proof {
        lemma_lookup(v, name@);
    }
    None
}

} // verus!
