//! Which commands a parsed command line selected, and which of a command's
//! arguments were matched.

use vstd::prelude::*;
use crate::cli::{command_view, command_views, lemma_command_views, CommandSpec, CommandView};
use crate::text::views;

verus! {

/// The first position at or after `start` of a command named `name`.
pub open spec fn find_from(subs: Seq<CommandView>, start: int, name: Seq<char>) -> Option<int>
    decreases subs.len() - start,
{
    if start < 0 || start >= subs.len() {
        None
    } else if subs[start].name == name {
        Some(start)
    } else {
        find_from(subs, start + 1, name)
    }
}

/// The positions among `subs` of the commands named by `path`, each looked
/// for after the one before. `None` where a name is not found: the selection
/// then never completes.
pub open spec fn selection(subs: Seq<CommandView>, start: int, path: Seq<Seq<char>>) -> Option<
    Seq<int>,
>
    decreases path.len(),
{
    if path.len() == 0 {
        Some(Seq::empty())
    } else {
        match find_from(subs, start, path[0]) {
            Some(i) => match selection(subs, i + 1, path.drop_first()) {
                Some(rest) => Some(seq![i] + rest),
                None => None,
            },
            None => None,
        }
    }
}

/// A command found at or after `start` lies there and has the name looked for.
pub(crate) proof fn lemma_find_from(subs: Seq<CommandView>, start: int, name: Seq<char>)
    requires
        0 <= start,
    ensures
        find_from(subs, start, name) matches Some(i) ==> start <= i < subs.len() && subs[i].name
            == name,
    decreases subs.len() - start,
{
    if start < subs.len() && subs[start].name != name {
        lemma_find_from(subs, start + 1, name);
    }
}

fn find_command(subs: &Vec<CommandSpec>, start: usize, name: &String) -> (r: Option<usize>)
    ensures
        r matches Some(i) ==> start <= i < subs@.len() && find_from(
            command_views(subs@),
            start as int,
            name@,
        ) == Some(i as int),
        r is None ==> find_from(command_views(subs@), start as int, name@) is None,
{
    proof {
        lemma_command_views(subs@);
        lemma_find_from(command_views(subs@), start as int, name@);
    }
    let mut i = start;
    while i < subs.len()
        invariant
            start <= i,
            command_views(subs@).len() == subs@.len(),
            forall|k: int| 0 <= k < subs@.len() ==> #[trigger] command_views(subs@)[k] == command_view(subs@[k]),
            find_from(command_views(subs@), i as int, name@) == find_from(
                command_views(subs@),
                start as int,
                name@,
            ),
        decreases subs.len() - i,
    {
        if subs[i].name == *name {
            return Some(i);
        }
        i = i + 1;
    }
    None
}

/// The positions among `root`'s subcommands of the commands that the
/// subcommand names `path` select, or `None` where the selection never
/// completes.
pub fn select_commands(root: &CommandSpec, path: &Vec<String>) -> (r: Option<Vec<usize>>)
    ensures
        match selection(command_view(*root).subcommands, 0, views(path@)) {
            Some(s) => r matches Some(v) && v@.map_values(|i: usize| i as int) == s,
            None => r is None,
        },
{
    let ghost subs = command_view(*root).subcommands;
    let ghost names = views(path@);
    let mut selected: Vec<usize> = Vec::new();
    let mut start: usize = 0;
    let mut k: usize = 0;
    let nsubs = root.subcommands.len();
    proof {
        lemma_command_views(root.subcommands@);
        assert(names.skip(0) =~= names);
        assert(selected@.map_values(|i: usize| i as int) =~= Seq::<int>::empty());
        match selection(subs, 0, names) {
            Some(rest) => {
                assert(Seq::<int>::empty() + rest =~= rest);
            },
            None => {},
        }
    }
    while k < path.len()
        invariant
            k <= path@.len(),
            subs == command_views(root.subcommands@),
            names == views(path@),
            start <= root.subcommands@.len(),
            nsubs == root.subcommands@.len(),
            selection(subs, 0, names) == match selection(subs, start as int, names.skip(k as int)) {
                Some(rest) => Some(selected@.map_values(|i: usize| i as int) + rest),
                None => None::<Seq<int>>,
            },
        decreases path.len() - k,
    {
        assert(names.skip(k as int).drop_first() =~= names.skip(k + 1));
        assert(names.skip(k as int)[0] == path@[k as int]@);
        proof {
            lemma_find_from(subs, start as int, path@[k as int]@);
        }
        match find_command(&root.subcommands, start, &path[k]) {
            Some(i) => {
                let ghost before = selected@;
                selected.push(i);
                assert(selected@.map_values(|j: usize| j as int) =~= before.map_values(
                    |j: usize| j as int,
                ).push(i as int));
                proof {
                    match selection(subs, i + 1, names.skip(k + 1)) {
                        Some(rest) => {
                            assert(before.map_values(|j: usize| j as int) + (seq![i as int] + rest)
                                =~= before.map_values(|j: usize| j as int).push(i as int) + rest);
                        },
                        None => {},
                    }
                }
                start = i + 1;
                k = k + 1;
            },
            None => {
                return None;
            },
        }
    }
    assert(names.skip(k as int) =~= Seq::<Seq<char>>::empty());
    assert(selected@.map_values(|i: usize| i as int) + Seq::<int>::empty() =~= selected@.map_values(
        |i: usize| i as int,
    ));
    Some(selected)
}

/// The positions below `n` where the argument ids and the matched ids agree.
pub open spec fn aligned(arg_ids: Seq<Seq<char>>, match_ids: Seq<Seq<char>>, n: int) -> Seq<int>
    decreases n,
{
    if n <= 0 {
        Seq::empty()
    } else if arg_ids[n - 1] == match_ids[n - 1] {
        aligned(arg_ids, match_ids, n - 1).push(n - 1)
    } else {
        aligned(arg_ids, match_ids, n - 1)
    }
}

/// The arguments of a command that its matches hold values for: the
/// positions where the command's argument ids, paired in order with the
/// matched ids, agree.
pub fn matched_arguments(arg_ids: &Vec<String>, match_ids: &Vec<String>) -> (r: Vec<usize>)
    ensures
        r@.map_values(|i: usize| i as int) == aligned(
            views(arg_ids@),
            views(match_ids@),
            if arg_ids@.len() < match_ids@.len() {
                arg_ids@.len() as int
            } else {
                match_ids@.len() as int
            },
        ),
{
    let n = if arg_ids.len() < match_ids.len() { arg_ids.len() } else { match_ids.len() };
    let mut r: Vec<usize> = Vec::new();
    let mut i: usize = 0;
    while i < n
        invariant
            i <= n,
            n <= arg_ids@.len(),
            n <= match_ids@.len(),
            r@.map_values(|j: usize| j as int) == aligned(views(arg_ids@), views(match_ids@), i as int),
        decreases n - i,
    {
        let ghost before = r@;
        if arg_ids[i] == match_ids[i] {
            r.push(i);
            assert(r@.map_values(|j: usize| j as int) =~= before.map_values(|j: usize| j as int).push(
                i as int,
            ));
        }
        i = i + 1;
    }
    r
}

} // verus!
