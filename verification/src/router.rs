//! Routing of inbound messages: which path a message takes, which hooks run
//! for it and in what order, and what it does to the command counters.

use vstd::prelude::*;
use vstd::string::*;
use crate::counter::{count_in, CounterStore};
use crate::text::{is_space, same_text, space, texts};

verus! {

/// The path that a message takes.
#[derive(Clone, Debug, PartialEq, Eq)]
pub enum Route {
    /// The text names a registered command.
    Command { name: String, rest: String },
    /// The text starts with the prefix but names no registered command.
    Unknown { name: String },
    /// The text does not start with the prefix.
    Normal,
}

/// A [`Route`] with its texts as sequences of characters.
pub enum RouteView {
    Command { name: Seq<char>, rest: Seq<char> },
    Unknown { name: Seq<char> },
    Normal,
}

impl View for Route {
    type V = RouteView;

    open spec fn view(&self) -> RouteView {
        match self {
            Route::Command { name, rest } => RouteView::Command { name: name@, rest: rest@ },
            Route::Unknown { name } => RouteView::Unknown { name: name@ },
            Route::Normal => RouteView::Normal,
        }
    }
}

/// An extension point of the router.
#[derive(Clone, Copy, Debug, PartialEq, Eq, Structural)]
pub enum Hook {
    /// Asked before a command runs; its answer admits or blocks the command.
    Before,
    /// The command's own handler.
    Handler,
    /// Told the handler's result.
    After,
    /// Told the name that matched no command.
    UnknownCommand,
    /// Given a message that is no command; it scans the attachments.
    NormalMessage,
}

/// The first position at or after `from` that holds a separator, or the end.
pub open spec fn word_end(s: Seq<char>, from: int) -> int
    decreases s.len() - from,
{
    if from < 0 || from >= s.len() || is_space(s[from]) {
        from
    } else {
        word_end(s, from + 1)
    }
}

/// The first position at or after `from` that holds no separator, or the end.
pub open spec fn gap_end(s: Seq<char>, from: int) -> int
    decreases s.len() - from,
{
    if from < 0 || from >= s.len() || !is_space(s[from]) {
        from
    } else {
        gap_end(s, from + 1)
    }
}

/// The word that begins at `from` ends where [`word_end`] says: it holds no
/// separator, and a separator or the end of the text follows it.
pub proof fn lemma_word_end(s: Seq<char>, from: int)
    requires
        0 <= from <= s.len(),
    ensures
        from <= word_end(s, from) <= s.len(),
        forall|i: int| from <= i < word_end(s, from) ==> !is_space(s[i]),
        word_end(s, from) < s.len() ==> is_space(s[word_end(s, from)]),
    decreases s.len() - from,
{
    if from < s.len() && !is_space(s[from]) {
        lemma_word_end(s, from + 1);
    }
}

/// The separators that begin at `from` end where [`gap_end`] says: only
/// separators come before, and another character or the end of the text
/// follows.
pub proof fn lemma_gap_end(s: Seq<char>, from: int)
    requires
        0 <= from <= s.len(),
    ensures
        from <= gap_end(s, from) <= s.len(),
        forall|i: int| from <= i < gap_end(s, from) ==> is_space(s[i]),
        gap_end(s, from) < s.len() ==> !is_space(s[gap_end(s, from)]),
    decreases s.len() - from,
{
    if from < s.len() && is_space(s[from]) {
        lemma_gap_end(s, from + 1);
    }
}

/// The route of a message text. After the prefix character the command name
/// runs up to the first separator; the arguments are what follows the
/// separators after the name.
pub open spec fn route_of(content: Seq<char>, prefix: char, commands: Seq<Seq<char>>) -> RouteView {
    if content.len() == 0 || content[0] != prefix {
        RouteView::Normal
    } else {
        let stop = word_end(content, 1);
        let name = content.subrange(1, stop);
        let rest = content.subrange(gap_end(content, stop), content.len() as int);
        if commands.contains(name) {
            RouteView::Command { name, rest }
        } else {
            RouteView::Unknown { name }
        }
    }
}

/// The hooks that run for a message, in order. `gate` is the answer of the
/// before-hook and matters on the command path only.
pub open spec fn hooks_of(route: RouteView, gate: bool) -> Seq<Hook> {
    match route {
        RouteView::Command { .. } => if gate {
            seq![Hook::Before, Hook::Handler, Hook::After]
        } else {
            seq![Hook::Before]
        },
        RouteView::Unknown { .. } => seq![Hook::UnknownCommand],
        RouteView::Normal => seq![Hook::NormalMessage],
    }
}

/// Whether a message on this route runs its command: it names one and the
/// gate is open.
pub open spec fn admitted(route: RouteView, gate: bool) -> bool {
    route is Command && gate
}

/// The counters after a message on `route`: an admitted command counts once
/// more, anything else leaves every counter as it was.
pub open spec fn counts_after(counts: Map<Seq<char>, nat>, route: RouteView, gate: bool) -> Map<
    Seq<char>,
    nat,
> {
    if admitted(route, gate) {
        counts.insert(route->Command_name, count_in(counts, route->Command_name) + 1)
    } else {
        counts
    }
}

/// The counters after a series of messages, each with its route and gate.
pub open spec fn replay(counts: Map<Seq<char>, nat>, events: Seq<(RouteView, bool)>) -> Map<
    Seq<char>,
    nat,
>
    decreases events.len(),
{
    if events.len() == 0 {
        counts
    } else {
        counts_after(replay(counts, events.drop_last()), events.last().0, events.last().1)
    }
}

/// How many of `events` are admitted runs of the command `name`.
pub open spec fn runs_of(events: Seq<(RouteView, bool)>, name: Seq<char>) -> nat
    decreases events.len(),
{
    if events.len() == 0 {
        0
    } else {
        let e = events.last();
        let here: nat = if admitted(e.0, e.1) && e.0->Command_name == name {
            1
        } else {
            0
        };
        runs_of(events.drop_last(), name) + here
    }
}

/// Whether `name` is one of `commands`.
pub fn is_registered(commands: &Vec<String>, name: &str) -> (yes: bool)
    ensures
        yes == texts(commands@).contains(name@),
{
    let mut i: usize = 0;
    while i < commands.len()
        invariant
            i <= commands.len(),
            forall|k: int| 0 <= k < i ==> texts(commands@)[k] != name@,
        decreases commands.len() - i,
    {
        if same_text(commands[i].as_str(), name) {
            assert(texts(commands@)[i as int] == name@);
            return true;
        }
        i += 1;
    }
    false
}

/// Decides the path of a message from its text, the prefix character and the
/// names of the registered commands.
pub fn classify(content: &str, prefix: char, commands: &Vec<String>) -> (route: Route)
    ensures
        route@ == route_of(content@, prefix, texts(commands@)),
{
    let n: usize = content.unicode_len();
    if n == 0 || content.get_char(0) != prefix {
        return Route::Normal;
    }
    let mut stop: usize = 1;
    while stop < n && !space(content.get_char(stop))
        invariant
            n == content@.len(),
            1 <= stop <= n,
            word_end(content@, 1) == word_end(content@, stop as int),
        decreases n - stop,
    {
        stop += 1;
    }
    let mut begin: usize = stop;
    while begin < n && space(content.get_char(begin))
        invariant
            n == content@.len(),
            stop <= begin <= n,
            gap_end(content@, stop as int) == gap_end(content@, begin as int),
        decreases n - begin,
    {
        begin += 1;
    }
    let name = content.substring_char(1, stop);
    let rest = content.substring_char(begin, n);
    if is_registered(commands, name) {
        Route::Command { name: String::from_str(name), rest: String::from_str(rest) }
    } else {
        Route::Unknown { name: String::from_str(name) }
    }
}

/// The hooks to run for a message on `route`, in order, once the before-hook
/// has answered `gate` (its answer is not looked at on the other paths).
pub fn plan(route: &Route, gate: bool) -> (hooks: Vec<Hook>)
    ensures
        hooks@ == hooks_of(route@, gate),
{
    let mut hooks: Vec<Hook> = Vec::new();
    match route {
        Route::Command { .. } => {
            hooks.push(Hook::Before);
            if gate {
                hooks.push(Hook::Handler);
                hooks.push(Hook::After);
            }
        },
        Route::Unknown { .. } => {
            hooks.push(Hook::UnknownCommand);
        },
        Route::Normal => {
            hooks.push(Hook::NormalMessage);
        },
    }
    assert(hooks@ =~= hooks_of(route@, gate));
    hooks
}

/// Applies a message to the counters once the before-hook has answered, and says whether
/// the command's handler is to run. Only a command with an open gate is
/// counted; it is counted before its handler runs.
pub fn settle(store: &mut CounterStore, route: &Route, gate: bool) -> (run_handler: bool)
    requires
        old(store).wf(),
        admitted(route@, gate) ==> old(store).count_of(route@->Command_name) < u64::MAX,
    ensures
        final(store).wf(),
        final(store)@ == counts_after(old(store)@, route@, gate),
        run_handler == admitted(route@, gate),
{
    match route {
        Route::Command { name, .. } => {
            if gate {
                store.increment(name.as_str());
                true
            } else {
                false
            }
        },
        _ => false,
    }
}

/// One message changes the count of `name` by one if it is an admitted run of
/// `name`, and not at all otherwise: unknown commands, closed gates, ordinary
/// messages and runs of other commands leave it alone.
pub proof fn lemma_one_message(
    counts: Map<Seq<char>, nat>,
    route: RouteView,
    gate: bool,
    name: Seq<char>,
)
    ensures
        count_in(counts_after(counts, route, gate), name) == count_in(counts, name) + runs_of(
            seq![(route, gate)],
            name,
        ),
        !admitted(route, gate) ==> counts_after(counts, route, gate) == counts,
{
    let one = seq![(route, gate)];
    assert(one.drop_last() =~= Seq::<(RouteView, bool)>::empty());
    assert(one.last() == (route, gate));
    assert(runs_of(one.drop_last(), name) == 0);
}

/// After any series of messages, the count of each command has grown by the
/// number of its admitted runs; from an empty store it equals that number.
pub proof fn lemma_counts_follow_runs(
    counts: Map<Seq<char>, nat>,
    events: Seq<(RouteView, bool)>,
    name: Seq<char>,
)
    ensures
        count_in(replay(counts, events), name) == count_in(counts, name) + runs_of(events, name),
        count_in(replay(Map::empty(), events), name) == runs_of(events, name),
    decreases events.len(),
{
    if events.len() > 0 {
        lemma_counts_follow_runs(counts, events.drop_last(), name);
        lemma_counts_follow_runs(Map::empty(), events.drop_last(), name);
    }
}

/// The admitted runs in two series of messages, one after the other, are
/// those of the first and those of the second.
pub proof fn lemma_runs_of_joined(
    first: Seq<(RouteView, bool)>,
    second: Seq<(RouteView, bool)>,
    name: Seq<char>,
)
    ensures
        runs_of(first + second, name) == runs_of(first, name) + runs_of(second, name),
    decreases second.len(),
{
    if second.len() == 0 {
        assert(first + second =~= first);
    } else {
        assert((first + second).drop_last() =~= first + second.drop_last());
        assert((first + second).last() == second.last());
        lemma_runs_of_joined(first, second.drop_last(), name);
    }
}

/// The counts do not depend on the order in which messages arrive: two
/// series of messages leave every count the same whichever comes first.
pub proof fn lemma_order_is_immaterial(
    counts: Map<Seq<char>, nat>,
    first: Seq<(RouteView, bool)>,
    second: Seq<(RouteView, bool)>,
    name: Seq<char>,
)
    ensures
        count_in(replay(counts, first + second), name) == count_in(
            replay(counts, second + first),
            name,
        ),
{
    lemma_counts_follow_runs(counts, first + second, name);
    lemma_counts_follow_runs(counts, second + first, name);
    lemma_runs_of_joined(first, second, name);
    lemma_runs_of_joined(second, first, name);
}

/// The admitted runs of a command are the same in every order of the same
/// messages.
pub proof fn lemma_runs_of_any_order(
    one: Seq<(RouteView, bool)>,
    other: Seq<(RouteView, bool)>,
    name: Seq<char>,
)
    requires
        one.to_multiset() == other.to_multiset(),
    ensures
        runs_of(one, name) == runs_of(other, name),
    decreases one.len(),
{
    one.to_multiset_ensures();
    other.to_multiset_ensures();
    if one.len() > 0 {
        let e = one.last();
        let last = one.len() - 1;
        assert(one[last] == e);
        assert(one.contains(e));
        vstd::seq_lib::to_multiset_contains(one, e);
        vstd::seq_lib::to_multiset_contains(other, e);
        assert(other.contains(e));
        let i = choose|i: int| 0 <= i < other.len() && other[i] == e;
        let fewer = one.drop_last();
        let others = other.remove(i);
        assert(one.remove(last) =~= fewer);
        vstd::seq_lib::to_multiset_remove(one, last);
        vstd::seq_lib::to_multiset_remove(other, i);
        assert(fewer.to_multiset() =~= others.to_multiset());
        lemma_runs_of_any_order(fewer, others, name);
        let front = other.subrange(0, i);
        let back = other.subrange(i + 1, other.len() as int);
        assert(other =~= front + seq![e] + back);
        assert(others =~= front + back);
        assert(seq![e].drop_last() =~= Seq::<(RouteView, bool)>::empty());
        assert(front.push(e) =~= front + seq![e]);
        assert(front.push(e).drop_last() =~= front);
        lemma_runs_of_joined(front.push(e), back, name);
        lemma_runs_of_joined(front, back, name);
    }
}

/// The counts do not depend on the order in which messages arrive: the same
/// messages in any order leave every count the same.
pub proof fn lemma_counts_in_any_order(
    counts: Map<Seq<char>, nat>,
    one: Seq<(RouteView, bool)>,
    other: Seq<(RouteView, bool)>,
    name: Seq<char>,
)
    requires
        one.to_multiset() == other.to_multiset(),
    ensures
        count_in(replay(counts, one), name) == count_in(replay(counts, other), name),
{
    lemma_counts_follow_runs(counts, one, name);
    lemma_counts_follow_runs(counts, other, name);
    lemma_runs_of_any_order(one, other, name);
}

/// Counts never go down, whatever messages arrive.
pub proof fn lemma_counts_never_fall(
    counts: Map<Seq<char>, nat>,
    events: Seq<(RouteView, bool)>,
    name: Seq<char>,
)
    ensures
        count_in(replay(counts, events), name) >= count_in(counts, name),
{
    lemma_counts_follow_runs(counts, events, name);
}

} // verus!
