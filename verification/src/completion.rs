//! Prefix completion over the shell's fixed list of meta-commands.

use vstd::prelude::*;
use vstd::seq_lib::group_filter_ensures;
use crate::text::str_is_prefix;

verus! {

/// One completion candidate: the text shown in the menu and the text
/// inserted on selection. For meta-commands the two are always the same.
pub struct Pair {
    pub display: String,
    pub replacement: String,
}

/// The shell's meta-commands, in the order completion offers them.
pub open spec fn known_commands() -> Seq<Seq<char>> {
    seq![
        ".echo"@,
        ".headers"@,
        ".help"@,
        ".indexes"@,
        ".nullvalue"@,
        ".print"@,
        ".prompt"@,
        ".quit"@,
        ".show"@,
        ".tables"@,
    ]
}

/// The predicate a command must meet to be offered for `partial`.
pub open spec fn prefix_pred(partial: Seq<char>) -> spec_fn(Seq<char>) -> bool {
    |c: Seq<char>| partial.is_prefix_of(c)
}

/// The commands that `partial` is a prefix of, in declaration order.
pub open spec fn matching_commands(partial: Seq<char>) -> Seq<Seq<char>> {
    known_commands().filter(prefix_pred(partial))
}

/// The display texts of a candidate list.
pub open spec fn displays_of(ps: Seq<Pair>) -> Seq<Seq<char>> {
    ps.map_values(|p: Pair| p.display@)
}

/// Filtering a prefix of one more element keeps the old result and appends
/// the new element exactly when it satisfies the predicate.
proof fn lemma_filter_take_succ<A>(s: Seq<A>, p: spec_fn(A) -> bool, i: int)
    requires
        0 <= i < s.len(),
    ensures
        p(s[i]) ==> s.take(i + 1).filter(p) == s.take(i).filter(p).push(s[i]),
        !p(s[i]) ==> s.take(i + 1).filter(p) == s.take(i).filter(p),
{
    reveal(Seq::filter);
    let t = s.take(i + 1);
    assert(t.drop_last() =~= s.take(i));
    assert(t.last() == s[i]);
}

/// Every element of a filtered sequence is an element of the sequence.
proof fn lemma_filter_elements<A>(s: Seq<A>, p: spec_fn(A) -> bool)
    ensures
        forall|i: int|
            0 <= i < s.filter(p).len() ==> s.contains(#[trigger] s.filter(p)[i]),
    decreases s.len(),
{
    reveal(Seq::filter);
    if s.len() > 0 {
        lemma_filter_elements(s.drop_last(), p);
        let f = s.filter(p);
        let fd = s.drop_last().filter(p);
        assert forall|i: int| 0 <= i < f.len() implies s.contains(#[trigger] f[i]) by {
            if i < fd.len() {
                assert(s.drop_last().contains(fd[i]));
                let j = choose|j: int|
                    0 <= j < s.drop_last().len() && s.drop_last()[j] == fd[i];
                assert(s[j] == f[i]);
            } else {
                assert(f[i] == s.last());
                assert(s[s.len() - 1] == f[i]);
            }
        }
    }
}

/// Filtering never introduces a duplicate.
proof fn lemma_filter_no_duplicates<A>(s: Seq<A>, p: spec_fn(A) -> bool)
    requires
        s.no_duplicates(),
    ensures
        s.filter(p).no_duplicates(),
    decreases s.len(),
{
    reveal(Seq::filter);
    if s.len() > 0 {
        lemma_filter_no_duplicates(s.drop_last(), p);
        lemma_filter_elements(s.drop_last(), p);
        let f = s.filter(p);
        let fd = s.drop_last().filter(p);
        if p(s.last()) {
            assert forall|i: int| 0 <= i < fd.len() implies fd[i] != s.last() by {
                assert(s.drop_last().contains(fd[i]));
                let j = choose|j: int|
                    0 <= j < s.drop_last().len() && s.drop_last()[j] == fd[i];
                assert(s[j] == fd[i]);
                assert(s[j] != s[s.len() - 1]);
            }
        }
    }
}

/// The meta-command list never repeats a command.
pub proof fn lemma_known_commands_no_duplicates()
    ensures
        known_commands().no_duplicates(),
{
    reveal_strlit(".echo");
    reveal_strlit(".headers");
    reveal_strlit(".help");
    reveal_strlit(".indexes");
    reveal_strlit(".nullvalue");
    reveal_strlit(".print");
    reveal_strlit(".prompt");
    reveal_strlit(".quit");
    reveal_strlit(".show");
    reveal_strlit(".tables");
    assert forall|i: int, j: int|
        0 <= i < known_commands().len() && 0 <= j < known_commands().len() && i != j implies
        known_commands()[i] != known_commands()[j] by {
        let a = known_commands()[i];
        let b = known_commands()[j];
        assert(a.len() != b.len() || a[1] != b[1]);
    }
}

/// Completion law: `matching_commands(partial)` holds exactly the known
/// meta-commands that start with `partial`, in declaration order and
/// without duplicates.
pub proof fn lemma_matching_commands_exact(partial: Seq<char>)
    ensures
        forall|i: int|
            0 <= i < matching_commands(partial).len() ==> {
                &&& known_commands().contains(#[trigger] matching_commands(partial)[i])
                &&& partial.is_prefix_of(matching_commands(partial)[i])
            },
        forall|j: int|
            0 <= j < known_commands().len() && partial.is_prefix_of(
                #[trigger] known_commands()[j],
            ) ==> matching_commands(partial).contains(known_commands()[j]),
        matching_commands(partial).no_duplicates(),
{
    broadcast use group_filter_ensures;

    let p = prefix_pred(partial);
    lemma_filter_elements(known_commands(), p);
    lemma_known_commands_no_duplicates();
    lemma_filter_no_duplicates(known_commands(), p);
    assert forall|i: int| 0 <= i < matching_commands(partial).len() implies {
        &&& known_commands().contains(#[trigger] matching_commands(partial)[i])
        &&& partial.is_prefix_of(matching_commands(partial)[i])
    } by {
        assert(p(known_commands().filter(p)[i]));
    }
    assert forall|j: int|
        0 <= j < known_commands().len() && partial.is_prefix_of(#[trigger] known_commands()[j])
        implies matching_commands(partial).contains(known_commands()[j]) by {
        assert(p(known_commands()[j]));
        assert(known_commands().filter(p).contains(known_commands()[j]));
    }
}

/// Stateless provider of completion candidates for the meta-commands.
pub struct ShellCompleter {}

impl ShellCompleter {
    /// A fresh completer; it carries no state.
    pub fn new() -> (r: ShellCompleter) {
        ShellCompleter {  }
    }

    /// The candidates for the text typed so far: every known meta-command
    /// that starts with `line`, in declaration order, with the display and
    /// replacement texts both equal to the command.
    pub fn complete(&self, line: &str) -> (r: Vec<Pair>)
        ensures
            displays_of(r@) == matching_commands(line@),
            forall|i: int|
                0 <= i < r@.len() ==> (#[trigger] r@[i]).replacement@ == r@[i].display@,
    {
        let mut commands: Vec<&'static str> = Vec::new();
        commands.push(".echo");
        commands.push(".headers");
        commands.push(".help");
        commands.push(".indexes");
        commands.push(".nullvalue");
        commands.push(".print");
        commands.push(".prompt");
        commands.push(".quit");
        commands.push(".show");
        commands.push(".tables");
        proof {
            assert forall|i: int| 0 <= i < 10 implies (#[trigger] commands@[i])@
                == known_commands()[i] by {
            }
        }
        let ghost p = prefix_pred(line@);
        let mut pairs: Vec<Pair> = Vec::new();
        let mut idx: usize = 0;
        proof {
            assert(known_commands().take(0).filter(p) =~= Seq::<Seq<char>>::empty()) by {
                reveal(Seq::filter);
                assert(known_commands().take(0) =~= Seq::<Seq<char>>::empty());
            }
        }
        while idx < 10
        invariant
            idx <= 10,
            commands@.len() == 10,
            forall|i: int| 0 <= i < 10 ==> (#[trigger] commands@[i])@ == known_commands()[i],
            p == prefix_pred(line@),
            displays_of(pairs@) == known_commands().take(idx as int).filter(p),
            forall|i: int|
                0 <= i < pairs@.len() ==> (#[trigger] pairs@[i]).replacement@
                    == pairs@[i].display@,
        decreases 10 - idx,
        {
            let cmd = commands[idx];
            proof {
                lemma_filter_take_succ(known_commands(), p, idx as int);
            }
            if str_is_prefix(line, cmd) {
                let ghost before = pairs@;
                pairs.push(
                    Pair { display: String::from_str(cmd), replacement: String::from_str(cmd) },
                );
                proof {
                    assert(displays_of(pairs@) =~= displays_of(before).push(cmd@));
                }
            }
            idx = idx + 1;
        }
        proof {
            assert(known_commands().take(10) =~= known_commands());
        }
        pairs
    }
}

/// The line editor's helper: it forwards completion requests to the
/// completer it holds.
pub struct ShellHelper {
    completer: ShellCompleter,
}

impl ShellHelper {
    /// A helper around a fresh completer.
    pub fn new() -> (r: ShellHelper) {
        ShellHelper { completer: ShellCompleter::new() }
    }

    /// The candidates for the text typed so far, as the completer gives them.
    pub fn complete(&self, line: &str) -> (r: Vec<Pair>)
        ensures
            displays_of(r@) == matching_commands(line@),
            forall|i: int|
                0 <= i < r@.len() ==> (#[trigger] r@[i]).replacement@ == r@[i].display@,
    {
        self.completer.complete(line)
    }
}

} // verus!
