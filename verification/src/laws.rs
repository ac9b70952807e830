//! Properties of the library that hold for all inputs.

use vstd::prelude::*;
use crate::argument::{
    after_char, config_len, configured, configured_all, ends_with_gt, flagged, initial_scan,
    is_config_char, is_separator, lemma_word_end, named_all, named_arg, named_values, no_flag_names,
    pair_step, parsed_argument, pushed_names, scan, split_config, split_flag, value_name_of,
    value_named, word_at, FlagNames, ScanState,
};
use crate::text::{index_of, split_on};
use crate::arg_type::{type_action, typed_arg, value_kind_named};
use crate::executor::invocation_for;
use crate::loader::ExecConfig;
use crate::cli::{new_arg_view, Action, ArgView, ValueKind};
use crate::cli::CommandView;
use crate::parser::{
    bracket_index, group_args, group_member, header_args, header_arguments, children, event_step, kept, parse_states, parsed_maskfile, renamed, retained, subtree, ParseState,
};
use crate::markdown::MdEventView;
use crate::types::MaskView;
use crate::executor::{flag_value_of, byte_views, joined};
use crate::selection::{aligned, find_from, lemma_find_from, selection};
use crate::text::{is_white_space, lemma_index_of, trim, trim_end, trim_start};

verus! {

proof fn lemma_config_len(s: Seq<char>)
    ensures
        config_len(s) <= s.len(),
        forall|j: int| 0 <= j < config_len(s) ==> is_config_char(#[trigger] s[j]),
        config_len(s) < s.len() ==> !is_config_char(s[config_len(s) as int]),
    decreases s.len(),
{
    if s.len() > 0 && is_config_char(s[0]) {
        lemma_config_len(s.drop_first());
        assert forall|j: int| 0 <= j < config_len(s) implies is_config_char(#[trigger] s[j]) by {
            if j > 0 {
                assert(s[j] == s.drop_first()[j - 1]);
            }
        }
    }
}

/// A configured name is its configuration characters followed by its name;
/// the configuration characters are all configuration characters, and the
/// name does not start with one.
pub proof fn law_split_config_restores(s: Seq<char>)
    ensures
        split_config(s).0 + split_config(s).1 == s,
        forall|j: int|
            0 <= j < split_config(s).0.len() ==> is_config_char(#[trigger] split_config(s).0[j]),
        split_config(s).1.len() > 0 ==> !is_config_char(split_config(s).1[0]),
{
    lemma_config_len(s);
    assert(split_config(s).0 + split_config(s).1 =~= s);
}

/// The configuration characters before the flag part, followed by the flag
/// part, are the configuration characters; the first part holds no `-`, and
/// the flag part is empty or starts with `-`.
pub proof fn law_split_flag_restores(config: Seq<char>)
    ensures
        split_flag(config).0 + split_flag(config).1 == config,
        forall|j: int| 0 <= j < split_flag(config).0.len() ==> #[trigger] split_flag(config).0[j]
            != '-',
        split_flag(config).1.len() > 0 ==> split_flag(config).1[0] == '-',
{
    lemma_index_of(config, '-');
    assert(split_flag(config).0 + split_flag(config).1 =~= config);
}

/// A word read up to the next whitespace holds no whitespace, so trimming
/// it changes nothing; reading moves forward and stays in the input.
pub proof fn law_word_is_trimmed(chars: Seq<char>, p: int)
    requires
        0 <= p <= chars.len(),
    ensures
        forall|j: int| 0 <= j < word_at(chars, p).0.len() ==> !is_white_space(#[trigger] word_at(chars, p).0[j]),
        trim(word_at(chars, p).0) == word_at(chars, p).0,
        p <= word_at(chars, p).1 <= chars.len(),
{
    lemma_word_end(chars, p);
    let w = word_at(chars, p).0;
    assert forall|j: int| 0 <= j < w.len() implies !is_white_space(#[trigger] w[j]) by {
        assert(w[j] == chars[p + j]);
    }
    if w.len() > 0 {
        assert(!is_white_space(w[0]));
    }
    assert(trim_start(w) == w);
    if w.len() > 0 {
        assert(!is_white_space(w.last()));
    }
    assert(trim_end(w) == w);
}

/// A completed selection picks, for each name of the path, a command of that
/// name, at strictly increasing positions after `start`.
pub proof fn law_selection_sound(subs: Seq<CommandView>, start: int, path: Seq<Seq<char>>)
    requires
        0 <= start,
    ensures
        selection(subs, start, path) matches Some(s) ==> {
            &&& s.len() == path.len()
            &&& forall|k: int| 0 <= k < s.len() ==> start <= #[trigger] s[k] < subs.len()
            &&& forall|k: int| 0 <= k < s.len() ==> subs[#[trigger] s[k]].name == path[k]
            &&& forall|k: int, l: int| 0 <= k < l < s.len() ==> #[trigger] s[k] < #[trigger] s[l]
        },
    decreases path.len(),
{
    if path.len() > 0 {
        lemma_find_from(subs, start, path[0]);
        match find_from(subs, start, path[0]) {
            Some(i) => {
                law_selection_sound(subs, i + 1, path.drop_first());
                match selection(subs, i + 1, path.drop_first()) {
                    Some(rest) => {
                        let s = seq![i] + rest;
                        assert forall|k: int| 0 <= k < s.len() implies subs[#[trigger] s[k]].name
                            == path[k] by {
                            if k > 0 {
                                assert(s[k] == rest[k - 1]);
                                assert(path[k] == path.drop_first()[k - 1]);
                            }
                        }
                        assert forall|k: int| 0 <= k < s.len() implies start <= #[trigger] s[k]
                            < subs.len() by {
                            if k > 0 {
                                assert(s[k] == rest[k - 1]);
                            }
                        }
                        assert forall|k: int, l: int| 0 <= k < l < s.len() implies #[trigger] s[k]
                            < #[trigger] s[l] by {
                            assert(s[l] == rest[l - 1]);
                            if k > 0 {
                                assert(s[k] == rest[k - 1]);
                            }
                        }
                    },
                    None => {},
                }
            },
            None => {},
        }
    }
}

/// The matched arguments are exactly the positions, below both lengths, where
/// the ids agree, in increasing order.
pub proof fn law_aligned_exact(arg_ids: Seq<Seq<char>>, match_ids: Seq<Seq<char>>, n: int)
    requires
        0 <= n <= arg_ids.len(),
        n <= match_ids.len(),
    ensures
        forall|k: int|
            0 <= k < aligned(arg_ids, match_ids, n).len() ==> 0 <= #[trigger] aligned(
                arg_ids,
                match_ids,
                n,
            )[k] < n && arg_ids[aligned(arg_ids, match_ids, n)[k]] == match_ids[aligned(
                arg_ids,
                match_ids,
                n,
            )[k]],
        forall|j: int|
            0 <= j < n && arg_ids[j] == match_ids[j] ==> #[trigger] aligned(
                arg_ids,
                match_ids,
                n,
            ).contains(j),
        forall|k: int, l: int|
            0 <= k < l < aligned(arg_ids, match_ids, n).len() ==> #[trigger] aligned(
                arg_ids,
                match_ids,
                n,
            )[k] < #[trigger] aligned(arg_ids, match_ids, n)[l],
    decreases n,
{
    if n > 0 {
        law_aligned_exact(arg_ids, match_ids, n - 1);
        let prev = aligned(arg_ids, match_ids, n - 1);
        if arg_ids[n - 1] == match_ids[n - 1] {
            assert(aligned(arg_ids, match_ids, n) == prev.push(n - 1));
            assert(prev.push(n - 1)[prev.len() as int] == n - 1);
            assert forall|j: int|
                0 <= j < n && arg_ids[j] == match_ids[j] implies #[trigger] prev.push(
                n - 1,
            ).contains(j) by {
                if j < n - 1 {
                    assert(prev.contains(j));
                    let k = choose|k: int| 0 <= k < prev.len() && prev[k] == j;
                    assert(prev.push(n - 1)[k] == j);
                } else {
                    assert(prev.push(n - 1)[prev.len() as int] == j);
                }
            }
        }
    }
}

/// A flag given once with a single value has that value as its variable,
/// whatever the terminator and the delimiter.
pub proof fn law_single_value(items: Seq<Vec<Vec<u8>>>, terminator: Seq<u8>, delimiter: Seq<u8>)
    requires
        items.len() == 1,
        items[0]@.len() == 1,
    ensures
        flag_value_of(items, terminator, delimiter) == items[0]@[0]@,
{
    assert(byte_views(items[0]@) =~= seq![items[0]@[0]@]);
    assert(items.map_values(|item: Vec<Vec<u8>>| joined(byte_views(item@), delimiter)) =~= seq![
        items[0]@[0]@,
    ]);
}

/// Whether `a` is what is left of `b` after some of its front.
pub open spec fn is_suffix(a: Seq<CommandView>, b: Seq<CommandView>) -> bool {
    a.len() <= b.len() && a == b.skip(b.len() - a.len())
}

proof fn lemma_suffix_trans(a: Seq<CommandView>, b: Seq<CommandView>, c: Seq<CommandView>)
    requires
        is_suffix(a, b),
        is_suffix(b, c),
    ensures
        is_suffix(a, c),
{
    assert(c.skip(c.len() - b.len()).skip(b.len() - a.len()) =~= c.skip(c.len() - a.len()));
}

/// What gathering the children of a command leaves of the commands after it
/// is a suffix of them.
pub proof fn law_children_leave_suffix(level: i32, name: Seq<char>, rest: Seq<CommandView>)
    ensures
        is_suffix(children(level, name, rest).1, rest),
    decreases rest.len(), 0int,
{
    assert(rest.skip(0) =~= rest);
    if rest.len() > 0 {
        let sub = rest[0];
        if sub.mask.level > level {
            let sub1 = renamed(sub, name);
            law_subtree_leaves_suffix(sub1, rest.drop_first());
            let rest2 = subtree(sub1, rest.drop_first()).1;
            assert(is_suffix(rest.drop_first(), rest)) by {
                assert(rest.skip(1) =~= rest.drop_first());
            }
            lemma_suffix_trans(rest2, rest.drop_first(), rest);
            if rest2.len() < rest.len() {
                law_children_leave_suffix(level, name, rest2);
                lemma_suffix_trans(children(level, name, rest2).1, rest2, rest);
            }
        }
    }
}

/// What building the subtree of a command leaves of the commands after it is
/// a suffix of them.
pub proof fn law_subtree_leaves_suffix(cmd: CommandView, rest: Seq<CommandView>)
    ensures
        is_suffix(subtree(cmd, rest).1, rest),
    decreases rest.len(), 1int,
{
    law_children_leave_suffix(cmd.mask.level, cmd.name, rest);
}

/// Every subcommand below `c` is at a deeper level than its parent and stays
/// in the tree (it has a script or subcommands, or is at level 1).
pub open spec fn tree_ok(c: CommandView) -> bool
    decreases c,
{
    all_ok(c.subcommands, c.mask.level)
}

/// Every command of `s` is deeper than `level`, stays in the tree, and is
/// well formed below.
pub open spec fn all_ok(s: Seq<CommandView>, level: i32) -> bool
    decreases s,
{
    if s.len() == 0 {
        true
    } else {
        all_ok(s.drop_last(), level) && s.last().mask.level > level && kept(s.last()) && tree_ok(
            s.last(),
        )
    }
}

proof fn lemma_all_ok(s: Seq<CommandView>, level: i32)
    ensures
        all_ok(s, level) <==> forall|i: int|
            0 <= i < s.len() ==> (#[trigger] s[i]).mask.level > level && kept(s[i]) && tree_ok(
                s[i],
            ),
    decreases s.len(),
{
    if s.len() > 0 {
        lemma_all_ok(s.drop_last(), level);
        if all_ok(s, level) {
            assert forall|i: int| 0 <= i < s.len() implies (#[trigger] s[i]).mask.level > level
                && kept(s[i]) && tree_ok(s[i]) by {
                if i < s.len() - 1 {
                    assert(s[i] == s.drop_last()[i]);
                }
            }
        }
        if forall|i: int|
            0 <= i < s.len() ==> (#[trigger] s[i]).mask.level > level && kept(s[i]) && tree_ok(
                s[i],
            ) {
            assert forall|i: int| 0 <= i < s.drop_last().len() implies (#[trigger] s.drop_last()[
                i
            ]).mask.level > level && kept(s.drop_last()[i]) && tree_ok(s.drop_last()[i]) by {
                assert(s.drop_last()[i] == s[i]);
            }
        }
    }
}

proof fn lemma_retained(s: Seq<CommandView>)
    ensures
        forall|i: int|
            0 <= i < retained(s).len() ==> kept(#[trigger] retained(s)[i]) && s.contains(
                retained(s)[i],
            ),
    decreases s.len(),
{
    if s.len() > 0 {
        lemma_retained(s.drop_first());
        let r = retained(s.drop_first());
        assert forall|i: int| 0 <= i < r.len() implies s.contains(#[trigger] r[i]) by {
            assert(s.drop_first().contains(r[i]));
            let k = choose|k: int| 0 <= k < s.drop_first().len() && s.drop_first()[k] == r[i];
            assert(s[k + 1] == r[i]);
        }
        if kept(s[0]) {
            let t = seq![s[0]] + r;
            assert forall|i: int| 0 <= i < t.len() implies kept(#[trigger] t[i]) && s.contains(
                t[i],
            ) by {
                if i == 0 {
                    assert(s[0] == t[0]);
                } else {
                    assert(t[i] == r[i - 1]);
                }
            }
        }
    }
}

/// The children gathered for a command of a level, from commands that are
/// each well formed below, are deeper than that level and well formed below.
pub proof fn law_children_ok(level: i32, name: Seq<char>, rest: Seq<CommandView>)
    requires
        forall|i: int| 0 <= i < rest.len() ==> tree_ok(#[trigger] rest[i]),
    ensures
        forall|i: int|
            0 <= i < children(level, name, rest).0.len() ==> (#[trigger] children(
                level,
                name,
                rest,
            ).0[i]).mask.level > level && tree_ok(children(level, name, rest).0[i]),
    decreases rest.len(), 0int,
{
    if rest.len() > 0 {
        let sub = rest[0];
        if sub.mask.level > level {
            let sub1 = renamed(sub, name);
            let rest1 = rest.drop_first();
            assert forall|i: int| 0 <= i < rest1.len() implies tree_ok(#[trigger] rest1[i]) by {
                assert(rest1[i] == rest[i + 1]);
            }
            law_subtree_ok(sub1, rest1);
            let (grand, rest2) = subtree(sub1, rest1);
            let sub2 = CommandView { subcommands: sub1.subcommands + grand, ..sub1 };
            assert(tree_ok(sub));
            assert(tree_ok(sub1));
            lemma_all_ok(sub1.subcommands, sub1.mask.level);
            lemma_all_ok(grand, sub1.mask.level);
            lemma_all_ok(sub2.subcommands, sub1.mask.level);
            assert forall|i: int| 0 <= i < sub2.subcommands.len() implies (
            #[trigger] sub2.subcommands[i]).mask.level > sub1.mask.level && kept(
                sub2.subcommands[i],
            ) && tree_ok(sub2.subcommands[i]) by {
                if i < sub1.subcommands.len() {
                    assert(sub2.subcommands[i] == sub1.subcommands[i]);
                } else {
                    assert(sub2.subcommands[i] == grand[i - sub1.subcommands.len()]);
                }
            }
            assert(tree_ok(sub2));
            if rest2.len() < rest.len() {
                law_subtree_leaves_suffix(sub1, rest1);
                assert forall|i: int| 0 <= i < rest2.len() implies tree_ok(#[trigger] rest2[i]) by {
                    assert(rest2[i] == rest1[rest1.len() - rest2.len() + i]);
                }
                law_children_ok(level, name, rest2);
                let more = children(level, name, rest2).0;
                let out = seq![sub2] + more;
                assert forall|i: int| 0 <= i < out.len() implies (#[trigger] out[i]).mask.level
                    > level && tree_ok(out[i]) by {
                    if i > 0 {
                        assert(out[i] == more[i - 1]);
                    }
                }
            } else {
                assert(seq![sub2][0] == sub2);
            }
        }
    }
}

/// The subcommands built for a command, from commands that are each well
/// formed below, are deeper than the command, stay in the tree, and are well
/// formed below.
pub proof fn law_subtree_ok(cmd: CommandView, rest: Seq<CommandView>)
    requires
        forall|i: int| 0 <= i < rest.len() ==> tree_ok(#[trigger] rest[i]),
    ensures
        all_ok(subtree(cmd, rest).0, cmd.mask.level),
    decreases rest.len(), 1int,
{
    law_children_ok(cmd.mask.level, cmd.name, rest);
    let kids = children(cmd.mask.level, cmd.name, rest).0;
    lemma_retained(kids);
    let r = retained(kids);
    assert forall|i: int| 0 <= i < r.len() implies (#[trigger] r[i]).mask.level > cmd.mask.level
        && kept(r[i]) && tree_ok(r[i]) by {
        assert(kids.contains(r[i]));
        let k = choose|k: int| 0 <= k < kids.len() && kids[k] == r[i];
        assert(kids[k] == r[i]);
    }
    lemma_all_ok(r, cmd.mask.level);
}

/// `kids` are commands of `from`, picked in order from before position `end`:
/// the `i`-th is the command at `idx[i]`, with its heading level and scripts
/// and with `parent`'s name stripped from its own, and the positions strictly
/// increase.
pub open spec fn picked_in_order(
    kids: Seq<CommandView>,
    parent: Seq<char>,
    from: Seq<CommandView>,
    end: int,
    idx: Seq<int>,
) -> bool {
    &&& idx.len() == kids.len()
    &&& forall|i: int, j: int| 0 <= i < j < idx.len() ==> idx[i] < idx[j]
    &&& forall|i: int|
        0 <= i < idx.len() ==> 0 <= #[trigger] idx[i] < end && end <= from.len() && kids[i].mask
            == from[idx[i]].mask && kids[i].name == renamed(from[idx[i]], parent).name
}

proof fn lemma_children_order(level: i32, name: Seq<char>, rest: Seq<CommandView>) -> (idx: Seq<
    int,
>)
    ensures
        picked_in_order(
            children(level, name, rest).0,
            name,
            rest,
            rest.len() - children(level, name, rest).1.len(),
            idx,
        ),
        children(level, name, rest).1.len() > 0 ==> children(level, name, rest).1[0].mask.level
            <= level,
    decreases rest.len(),
{
    law_children_leave_suffix(level, name, rest);
    if rest.len() == 0 {
        Seq::empty()
    } else {
        let sub = rest[0];
        if sub.mask.level <= level {
            Seq::empty()
        } else {
            let sub1 = renamed(sub, name);
            let rest1 = rest.drop_first();
            let (grand, rest2) = subtree(sub1, rest1);
            let sub2 = CommandView { subcommands: sub1.subcommands + grand, ..sub1 };
            law_subtree_leaves_suffix(sub1, rest1);
            assert(rest2.len() < rest.len());
            let off = rest.len() - rest2.len();
            assert(rest2 =~= rest.skip(off)) by {
                assert(rest1.skip(rest1.len() - rest2.len()) =~= rest.skip(off));
            }
            let inner = lemma_children_order(level, name, rest2);
            let more = children(level, name, rest2).0;
            let rest3 = children(level, name, rest2).1;
            law_children_leave_suffix(level, name, rest2);
            let shifted = inner.map_values(|k: int| k + off);
            let idx = seq![0int] + shifted;
            let kids = seq![sub2] + more;
            let end = rest.len() - rest3.len();
            assert forall|i: int, j: int| 0 <= i < j < idx.len() implies idx[i] < idx[j] by {
                if i > 0 {
                    assert(idx[i] == inner[i - 1] + off);
                }
                assert(idx[j] == inner[j - 1] + off);
                assert(0 <= inner[j - 1]);
            }
            assert forall|i: int| 0 <= i < idx.len() implies 0 <= #[trigger] idx[i] < end && end
                <= rest.len() && kids[i].mask == rest[idx[i]].mask && kids[i].name == renamed(
                rest[idx[i]],
                name,
            ).name by {
                if i == 0 {
                    assert(kids[0] == sub2);
                } else {
                    let k = inner[i - 1];
                    assert(idx[i] == k + off);
                    assert(kids[i] == more[i - 1]);
                    assert(rest2[k] == rest[k + off]);
                }
            }
            idx
        }
    }
}

proof fn lemma_retained_order(s: Seq<CommandView>) -> (idx: Seq<int>)
    ensures
        idx.len() == retained(s).len(),
        forall|i: int, j: int| 0 <= i < j < idx.len() ==> idx[i] < idx[j],
        forall|i: int| 0 <= i < idx.len() ==> 0 <= #[trigger] idx[i] < s.len() && retained(s)[i] == s[idx[i]],
    decreases s.len(),
{
    if s.len() == 0 {
        Seq::empty()
    } else {
        let t = s.drop_first();
        let inner = lemma_retained_order(t);
        let shifted = inner.map_values(|k: int| k + 1);
        if kept(s[0]) {
            let idx = seq![0int] + shifted;
            let r = seq![s[0]] + retained(t);
            assert forall|i: int, j: int| 0 <= i < j < idx.len() implies idx[i] < idx[j] by {
                if i > 0 {
                    assert(idx[i] == inner[i - 1] + 1);
                }
                assert(idx[j] == inner[j - 1] + 1);
            }
            assert forall|i: int| 0 <= i < idx.len() implies 0 <= #[trigger] idx[i] < s.len() && r[i]
                == s[idx[i]] by {
                if i > 0 {
                    assert(idx[i] == inner[i - 1] + 1);
                    assert(r[i] == retained(t)[i - 1]);
                    assert(t[inner[i - 1]] == s[inner[i - 1] + 1]);
                }
            }
            idx
        } else {
            assert forall|i: int, j: int| 0 <= i < j < shifted.len() implies shifted[i] < shifted[j] by {
                assert(shifted[i] == inner[i] + 1);
                assert(shifted[j] == inner[j] + 1);
            }
            assert forall|i: int| 0 <= i < shifted.len() implies 0 <= #[trigger] shifted[i] < s.len()
                && retained(s)[i] == s[shifted[i]] by {
                assert(shifted[i] == inner[i] + 1);
                assert(t[inner[i]] == s[inner[i] + 1]);
            }
            shifted
        }
    }
}

/// The children gathered for a command keep the order of the commands they
/// come from: each is a command after it, at strictly increasing positions
/// before what is left over, with its level and scripts and with the parent's
/// name stripped from its own. What is left over, if anything, starts with a
/// command of the same or a lower level.
pub proof fn law_children_in_order(level: i32, name: Seq<char>, rest: Seq<CommandView>)
    ensures
        exists|idx: Seq<int>|
            #[trigger] picked_in_order(
                children(level, name, rest).0,
                name,
                rest,
                rest.len() - children(level, name, rest).1.len(),
                idx,
            ),
        children(level, name, rest).1.len() > 0 ==> children(level, name, rest).1[0].mask.level
            <= level,
{
    let idx = lemma_children_order(level, name, rest);
    assert(picked_in_order(
        children(level, name, rest).0,
        name,
        rest,
        rest.len() - children(level, name, rest).1.len(),
        idx,
    ));
}

/// The subcommands built for a command keep the order of the commands they
/// come from: each is a command after it, at strictly increasing positions
/// before what is left over, with its level and scripts and with the
/// command's name stripped from its own. What is left over, if anything,
/// starts with a command of the same or a lower level than the command.
pub proof fn law_subtree_in_order(cmd: CommandView, rest: Seq<CommandView>)
    ensures
        exists|idx: Seq<int>|
            #[trigger] picked_in_order(
                subtree(cmd, rest).0,
                cmd.name,
                rest,
                rest.len() - subtree(cmd, rest).1.len(),
                idx,
            ),
        subtree(cmd, rest).1.len() > 0 ==> subtree(cmd, rest).1[0].mask.level <= cmd.mask.level,
{
    let kids = children(cmd.mask.level, cmd.name, rest).0;
    let end = rest.len() - subtree(cmd, rest).1.len();
    let a = lemma_children_order(cmd.mask.level, cmd.name, rest);
    let b = lemma_retained_order(kids);
    let r = retained(kids);
    let idx = b.map_values(|k: int| a[k]);
    assert forall|i: int, j: int| 0 <= i < j < idx.len() implies idx[i] < idx[j] by {
        assert(b[i] < b[j]);
        assert(0 <= b[j] < a.len());
    }
    assert forall|i: int| 0 <= i < idx.len() implies 0 <= #[trigger] idx[i] < end && end
        <= rest.len() && r[i].mask == rest[idx[i]].mask && r[i].name == renamed(
        rest[idx[i]],
        cmd.name,
    ).name by {
        let k = b[i];
        assert(0 <= k < kids.len());
        assert(r[i] == kids[k]);
        assert(idx[i] == a[k]);
    }
    assert(subtree(cmd, rest).0 == r);
    assert(picked_in_order(subtree(cmd, rest).0, cmd.name, rest, end, idx));
}

/// Whether no command of the state has subcommands yet.
pub open spec fn flat_state(st: ParseState) -> bool {
    &&& st.current.subcommands.len() == 0
    &&& forall|i: int| 0 <= i < st.commands.len() ==> (#[trigger] st.commands[i]).subcommands.len() == 0
}

proof fn lemma_step_flat(st: ParseState, ev: MdEventView)
    requires
        flat_state(st),
    ensures
        flat_state(event_step(st, ev)),
{
    let st2 = event_step(st, ev);
    match ev {
        MdEventView::StartHeading(level) => {
            assert forall|i: int| 0 <= i < st2.commands.len() implies (
            #[trigger] st2.commands[i]).subcommands.len() == 0 by {
                if i < st.commands.len() {
                    assert(st2.commands[i] == st.commands[i]);
                }
            }
        },
        _ => {},
    }
}

/// While reading the events, no command gets subcommands: the tree is built
/// once all events are read.
pub proof fn law_reading_is_flat(evs: Seq<MdEventView>)
    ensures
        flat_state(parse_states(evs)),
    decreases evs.len(),
{
    if evs.len() > 0 {
        law_reading_is_flat(evs.drop_last());
        lemma_step_flat(parse_states(evs.drop_last()), evs.last());
    }
}

/// In the command tree read from any sequence of markdown events, every
/// subcommand sits at a deeper heading level than its parent, and every
/// subcommand has a script or subcommands of its own (or is at level 1).
pub proof fn law_parsed_tree_ok(evs: Seq<MdEventView>)
    ensures
        tree_ok(parsed_maskfile(evs)),
{
    let st = parse_states(evs);
    law_reading_is_flat(evs);
    let commands = st.commands.push(st.current);
    let root = commands[0];
    let rest = commands.drop_first();
    assert forall|i: int| 0 <= i < rest.len() implies tree_ok(#[trigger] rest[i]) by {
        let c = rest[i];
        if i + 1 < st.commands.len() {
            assert(c == st.commands[i + 1]);
        } else {
            assert(c == st.current);
        }
        assert(c.subcommands.len() == 0);
    }
    assert(root.subcommands.len() == 0) by {
        if st.commands.len() > 0 {
            assert(root == st.commands[0]);
        }
    }
    law_subtree_ok(root, rest);
    assert(root.subcommands + subtree(root, rest).0 =~= subtree(root, rest).0);
}

/// Every subcommand below `c` is at a deeper level than its parent and has a
/// script or subcommands of its own.
pub open spec fn tree_strict(c: CommandView) -> bool
    decreases c,
{
    all_strict(c.subcommands, c.mask.level)
}

/// Every command of `s` is deeper than `level`, has a script or
/// subcommands, and is well formed in the same way below.
pub open spec fn all_strict(s: Seq<CommandView>, level: i32) -> bool
    decreases s,
{
    if s.len() == 0 {
        true
    } else {
        all_strict(s.drop_last(), level) && s.last().mask.level > level && (
        s.last().mask.scripts.len() > 0 || s.last().subcommands.len() > 0) && tree_strict(s.last())
    }
}

proof fn lemma_tree_strict(c: CommandView)
    requires
        tree_ok(c),
        c.mask.level >= 1,
    ensures
        tree_strict(c),
    decreases c,
{
    lemma_all_strict(c.subcommands, c.mask.level);
}

proof fn lemma_all_strict(s: Seq<CommandView>, level: i32)
    requires
        all_ok(s, level),
        level >= 1,
    ensures
        all_strict(s, level),
    decreases s,
{
    if s.len() > 0 {
        lemma_all_strict(s.drop_last(), level);
        lemma_tree_strict(s.last());
    }
}

/// Whether no heading of `evs` has a level below 1.
pub open spec fn headings_positive(evs: Seq<MdEventView>) -> bool {
    forall|i: int| 0 <= i < evs.len() ==> (#[trigger] evs[i] matches MdEventView::StartHeading(l) ==> l >= 1)
}

/// Before the first heading no command is stored; after it, every command
/// read so far has a level of at least 1.
pub open spec fn levels_positive(st: ParseState) -> bool {
    &&& st.first ==> st.commands.len() == 0
    &&& !st.first ==> st.current.mask.level >= 1 && forall|i: int|
        0 <= i < st.commands.len() ==> (#[trigger] st.commands[i]).mask.level >= 1
}

proof fn lemma_levels_positive(evs: Seq<MdEventView>)
    requires
        headings_positive(evs),
    ensures
        levels_positive(parse_states(evs)),
    decreases evs.len(),
{
    if evs.len() > 0 {
        let init = evs.drop_last();
        assert forall|i: int| 0 <= i < init.len() implies (#[trigger] init[i] matches MdEventView::StartHeading(l) ==> l >= 1) by {
            assert(init[i] == evs[i]);
        }
        lemma_levels_positive(init);
        let st = parse_states(init);
        let ev = evs.last();
        assert(evs[evs.len() - 1] == ev);
        let st2 = event_step(st, ev);
        assert(st2 == parse_states(evs));
        match ev {
            MdEventView::StartHeading(level) => {
                assert(level >= 1);
                assert forall|i: int| 0 <= i < st2.commands.len() implies (
                #[trigger] st2.commands[i]).mask.level >= 1 by {
                    if i < st.commands.len() {
                        assert(st2.commands[i] == st.commands[i]);
                    }
                }
            },
            _ => {},
        }
    }
}

/// In the command tree read from events whose headings all have a level of
/// at least 1 (as every markdown heading has), every subcommand sits at a
/// deeper level than its parent and has a script or subcommands of its own.
pub proof fn law_parsed_tree_strict(evs: Seq<MdEventView>)
    requires
        headings_positive(evs),
    ensures
        tree_strict(parsed_maskfile(evs)),
{
    law_parsed_tree_ok(evs);
    lemma_levels_positive(evs);
    let st = parse_states(evs);
    let root = parsed_maskfile(evs);
    if root.subcommands.len() == 0 {
        assert(tree_strict(root));
    } else {
        let commands = st.commands.push(st.current);
        let rest = commands.drop_first();
        if rest.len() == 0 {
            assert(subtree(commands[0], rest).0.len() == 0);
            law_reading_is_flat(evs);
            assert(false);
        }
        assert(st.commands.len() > 0);
        assert(commands[0] == st.commands[0]);
        lemma_tree_strict(root);
    }
}

/// Once a first long name is recorded it stays, and so does the long name of
/// the argument; the same for the first short name. A flag name never
/// changes the id or the index of the argument.
pub proof fn law_first_flag_names_stay(arg: ArgView, seen: FlagNames, flag: Seq<char>, name: Seq<char>)
    ensures
        flagged(arg, seen, flag, name).0.id == arg.id,
        flagged(arg, seen, flag, name).0.index == arg.index,
        seen.first_long is Some ==> flagged(arg, seen, flag, name).1.first_long == seen.first_long
            && flagged(arg, seen, flag, name).0.long == arg.long,
        seen.first_short is Some ==> flagged(arg, seen, flag, name).1.first_short
            == seen.first_short && flagged(arg, seen, flag, name).0.short == arg.short,
{
}

/// No type name makes an argument a flag that is cleared when given.
pub proof fn law_no_set_false(t: Seq<char>, is_list: bool)
    ensures
        type_action(t, is_list) != Action::SetFalse,
{
}

/// The Rust name of the type that a value parser reads.
pub open spec fn rust_type_name(k: ValueKind) -> Seq<char> {
    match k {
        ValueKind::Bool => "bool"@,
        ValueKind::String => "String"@,
        ValueKind::OsString => "OsString"@,
        ValueKind::PathBuf => "PathBuf"@,
        ValueKind::U8 => "u8"@,
        ValueKind::U16 => "u16"@,
        ValueKind::U32 => "u32"@,
        ValueKind::U64 => "u64"@,
        ValueKind::I8 => "i8"@,
        ValueKind::I16 => "i16"@,
        ValueKind::I32 => "i32"@,
        ValueKind::I64 => "i64"@,
        ValueKind::Usize => "usize"@,
        ValueKind::Isize => "isize"@,
        ValueKind::F32 => "f32"@,
        ValueKind::F64 => "f64"@,
    }
}

proof fn lemma_kind_names(k: ValueKind)
    ensures
        value_kind_named(rust_type_name(k)) == Some(k),
        type_action(rust_type_name(k), false) == (if k == ValueKind::Bool {
            Action::SetTrue
        } else {
            Action::SetValue
        }),
        k != ValueKind::Bool ==> type_action(rust_type_name(k), true) == Action::Append,
        rust_type_name(k).len() > 0 && rust_type_name(k)[0] != '[',
{
    reveal_strlit("");
    reveal_strlit("bool");
    reveal_strlit("!bool");
    reveal_strlit("String");
    reveal_strlit("OsString");
    reveal_strlit("PathBuf");
    reveal_strlit("u8");
    reveal_strlit("u16");
    reveal_strlit("u32");
    reveal_strlit("u64");
    reveal_strlit("i8");
    reveal_strlit("i16");
    reveal_strlit("i32");
    reveal_strlit("i64");
    reveal_strlit("usize");
    reveal_strlit("isize");
    reveal_strlit("Number");
    reveal_strlit("f32");
    reveal_strlit("f64");
    match k {
        ValueKind::Bool => {
            assert("bool"@.len() != ""@.len());
            assert("bool"@[0] != '[');
        },
        ValueKind::String => {
            assert("String"@.len() != ""@.len());
            assert("String"@.len() != "bool"@.len());
            assert("String"@.len() != "!bool"@.len());
            assert("String"@[0] != '[');
        },
        ValueKind::OsString => {
            assert("OsString"@.len() != ""@.len());
            assert("OsString"@.len() != "bool"@.len());
            assert("OsString"@.len() != "!bool"@.len());
            assert("OsString"@.len() != "String"@.len());
            assert("OsString"@[0] != '[');
        },
        ValueKind::PathBuf => {
            assert("PathBuf"@.len() != ""@.len());
            assert("PathBuf"@.len() != "OsString"@.len());
            assert("PathBuf"@.len() != "String"@.len());
            assert("PathBuf"@.len() != "bool"@.len());
            assert("PathBuf"@.len() != "!bool"@.len());
            assert("PathBuf"@[0] != '[');
        },
        ValueKind::U8 => {
            assert("u8"@.len() != ""@.len());
            assert("u8"@.len() != "OsString"@.len());
            assert("u8"@.len() != "String"@.len());
            assert("u8"@.len() != "PathBuf"@.len());
            assert("u8"@.len() != "bool"@.len());
            assert("u8"@.len() != "!bool"@.len());
            assert("u8"@[0] != '[');
        },
        ValueKind::U16 => {
            assert("u16"@.len() != ""@.len());
            assert("u16"@.len() != "OsString"@.len());
            assert("u16"@.len() != "String"@.len());
            assert("u16"@.len() != "u8"@.len());
            assert("u16"@.len() != "PathBuf"@.len());
            assert("u16"@.len() != "bool"@.len());
            assert("u16"@.len() != "!bool"@.len());
            assert("u16"@[0] != '[');
        },
        ValueKind::U32 => {
            assert("u32"@.len() != ""@.len());
            assert("u32"@.len() != "OsString"@.len());
            assert("u32"@[1] != "u16"@[1]);
            assert("u32"@.len() != "String"@.len());
            assert("u32"@.len() != "u8"@.len());
            assert("u32"@.len() != "PathBuf"@.len());
            assert("u32"@.len() != "bool"@.len());
            assert("u32"@.len() != "!bool"@.len());
            assert("u32"@[0] != '[');
        },
        ValueKind::U64 => {
            assert("u64"@.len() != ""@.len());
            assert("u64"@.len() != "OsString"@.len());
            assert("u64"@[1] != "u16"@[1]);
            assert("u64"@[1] != "u32"@[1]);
            assert("u64"@.len() != "String"@.len());
            assert("u64"@.len() != "u8"@.len());
            assert("u64"@.len() != "PathBuf"@.len());
            assert("u64"@.len() != "bool"@.len());
            assert("u64"@.len() != "!bool"@.len());
            assert("u64"@[0] != '[');
        },
        ValueKind::I8 => {
            assert("i8"@.len() != ""@.len());
            assert("i8"@.len() != "OsString"@.len());
            assert("i8"@.len() != "u16"@.len());
            assert("i8"@.len() != "u32"@.len());
            assert("i8"@.len() != "String"@.len());
            assert("i8"@[0] != "u8"@[0]);
            assert("i8"@.len() != "PathBuf"@.len());
            assert("i8"@.len() != "bool"@.len());
            assert("i8"@.len() != "u64"@.len());
            assert("i8"@.len() != "!bool"@.len());
            assert("i8"@[0] != '[');
        },
        ValueKind::I16 => {
            assert("i16"@.len() != ""@.len());
            assert("i16"@.len() != "OsString"@.len());
            assert("i16"@[0] != "u16"@[0]);
            assert("i16"@[0] != "u32"@[0]);
            assert("i16"@.len() != "String"@.len());
            assert("i16"@.len() != "u8"@.len());
            assert("i16"@.len() != "i8"@.len());
            assert("i16"@.len() != "PathBuf"@.len());
            assert("i16"@.len() != "bool"@.len());
            assert("i16"@[0] != "u64"@[0]);
            assert("i16"@.len() != "!bool"@.len());
            assert("i16"@[0] != '[');
        },
        ValueKind::I32 => {
            assert("i32"@.len() != ""@.len());
            assert("i32"@.len() != "OsString"@.len());
            assert("i32"@[0] != "u16"@[0]);
            assert("i32"@[1] != "i16"@[1]);
            assert("i32"@[0] != "u32"@[0]);
            assert("i32"@.len() != "String"@.len());
            assert("i32"@.len() != "u8"@.len());
            assert("i32"@.len() != "i8"@.len());
            assert("i32"@.len() != "PathBuf"@.len());
            assert("i32"@.len() != "bool"@.len());
            assert("i32"@[0] != "u64"@[0]);
            assert("i32"@.len() != "!bool"@.len());
            assert("i32"@[0] != '[');
        },
        ValueKind::I64 => {
            assert("i64"@.len() != ""@.len());
            assert("i64"@.len() != "OsString"@.len());
            assert("i64"@[0] != "u16"@[0]);
            assert("i64"@[1] != "i16"@[1]);
            assert("i64"@[0] != "u32"@[0]);
            assert("i64"@.len() != "String"@.len());
            assert("i64"@.len() != "u8"@.len());
            assert("i64"@.len() != "i8"@.len());
            assert("i64"@[1] != "i32"@[1]);
            assert("i64"@.len() != "PathBuf"@.len());
            assert("i64"@.len() != "bool"@.len());
            assert("i64"@[0] != "u64"@[0]);
            assert("i64"@.len() != "!bool"@.len());
            assert("i64"@[0] != '[');
        },
        ValueKind::Usize => {
            assert("usize"@.len() != ""@.len());
            assert("usize"@.len() != "OsString"@.len());
            assert("usize"@.len() != "u16"@.len());
            assert("usize"@.len() != "i64"@.len());
            assert("usize"@.len() != "i16"@.len());
            assert("usize"@.len() != "u32"@.len());
            assert("usize"@.len() != "String"@.len());
            assert("usize"@.len() != "u8"@.len());
            assert("usize"@.len() != "i8"@.len());
            assert("usize"@.len() != "i32"@.len());
            assert("usize"@.len() != "PathBuf"@.len());
            assert("usize"@.len() != "bool"@.len());
            assert("usize"@.len() != "u64"@.len());
            assert("usize"@[0] != "!bool"@[0]);
            assert("usize"@[0] != '[');
        },
        ValueKind::Isize => {
            assert("isize"@.len() != ""@.len());
            assert("isize"@.len() != "OsString"@.len());
            assert("isize"@.len() != "u16"@.len());
            assert("isize"@.len() != "i64"@.len());
            assert("isize"@.len() != "i16"@.len());
            assert("isize"@.len() != "u32"@.len());
            assert("isize"@[0] != "usize"@[0]);
            assert("isize"@.len() != "String"@.len());
            assert("isize"@.len() != "u8"@.len());
            assert("isize"@.len() != "i8"@.len());
            assert("isize"@.len() != "i32"@.len());
            assert("isize"@.len() != "PathBuf"@.len());
            assert("isize"@.len() != "bool"@.len());
            assert("isize"@.len() != "u64"@.len());
            assert("isize"@[0] != "!bool"@[0]);
            assert("isize"@[0] != '[');
        },
        ValueKind::F32 => {
            assert("f32"@.len() != ""@.len());
            assert("f32"@.len() != "OsString"@.len());
            assert("f32"@[0] != "u16"@[0]);
            assert("f32"@[0] != "i64"@[0]);
            assert("f32"@[0] != "i16"@[0]);
            assert("f32"@[0] != "u32"@[0]);
            assert("f32"@.len() != "usize"@.len());
            assert("f32"@.len() != "String"@.len());
            assert("f32"@.len() != "u8"@.len());
            assert("f32"@.len() != "i8"@.len());
            assert("f32"@.len() != "Number"@.len());
            assert("f32"@[0] != "i32"@[0]);
            assert("f32"@.len() != "PathBuf"@.len());
            assert("f32"@.len() != "bool"@.len());
            assert("f32"@[0] != "u64"@[0]);
            assert("f32"@.len() != "!bool"@.len());
            assert("f32"@.len() != "isize"@.len());
            assert("f32"@[0] != '[');
        },
        ValueKind::F64 => {
            assert("f64"@.len() != ""@.len());
            assert("f64"@.len() != "OsString"@.len());
            assert("f64"@[0] != "u16"@[0]);
            assert("f64"@[0] != "i64"@[0]);
            assert("f64"@[0] != "i16"@[0]);
            assert("f64"@[0] != "u32"@[0]);
            assert("f64"@.len() != "usize"@.len());
            assert("f64"@.len() != "String"@.len());
            assert("f64"@.len() != "u8"@.len());
            assert("f64"@.len() != "i8"@.len());
            assert("f64"@.len() != "Number"@.len());
            assert("f64"@[0] != "i32"@[0]);
            assert("f64"@.len() != "PathBuf"@.len());
            assert("f64"@.len() != "bool"@.len());
            assert("f64"@[0] != "u64"@[0]);
            assert("f64"@[1] != "f32"@[1]);
            assert("f64"@.len() != "!bool"@.len());
            assert("f64"@.len() != "isize"@.len());
            assert("f64"@[0] != '[');
        },
    }
}

/// A type declared by the Rust name of a type reads values of that very
/// type: a single value, or a list of them when written in brackets. The
/// name `bool` makes a flag.
pub proof fn law_type_names_select_their_type(arg: ArgView, k: ValueKind)
    ensures
        typed_arg(arg, rust_type_name(k)).value_parser == Some(k),
        typed_arg(arg, rust_type_name(k)).action == Some(
            if k == ValueKind::Bool { Action::SetTrue } else { Action::SetValue },
        ),
        k != ValueKind::Bool ==> typed_arg(arg, seq!['['] + rust_type_name(k) + seq![']']).value_parser
            == Some(k),
        k != ValueKind::Bool ==> typed_arg(arg, seq!['['] + rust_type_name(k) + seq![']']).action
            == Some(Action::Append),
{
    lemma_kind_names(k);
    let n = rust_type_name(k);
    let l = seq!['['] + n + seq![']'];
    assert(l.subrange(1, l.len() - 1) =~= n);
    assert(l[0] == '[' && l.last() == ']');
}

/// Every type name that selects a value parser is the Rust name of that
/// parser's type, or one of the names `""` and `"!bool"` for `bool` and
/// `"Number"` for `isize`.
pub proof fn law_selected_type_is_named(t: Seq<char>)
    ensures
        value_kind_named(t) matches Some(k) ==> t == rust_type_name(k) || (k == ValueKind::Bool
            && (t == ""@ || t == "!bool"@)) || (k == ValueKind::Isize && t == "Number"@),
{
}

/// Both codes of a language run its code block the same way: `js` and
/// `javascript` with the configured JavaScript program and `-e`, `py` and
/// `python` with the Python program and `-c`, `rb` and `ruby` with the Ruby
/// program and `-e`; `lua` and `swift` with their program and `-e`, `php`
/// with its program and `-r`. Any other code is a shell run with `-c`.
pub proof fn law_language_programs(lang: Seq<char>, content: Seq<char>, exec: ExecConfig)
    ensures
        invocation_for("js"@, content, exec) == (exec.Javascript@, seq!["-e"@, content]),
        invocation_for("javascript"@, content, exec) == (exec.Javascript@, seq!["-e"@, content]),
        invocation_for("py"@, content, exec) == (exec.Python@, seq!["-c"@, content]),
        invocation_for("python"@, content, exec) == (exec.Python@, seq!["-c"@, content]),
        invocation_for("rb"@, content, exec) == (exec.Ruby@, seq!["-e"@, content]),
        invocation_for("ruby"@, content, exec) == (exec.Ruby@, seq!["-e"@, content]),
        invocation_for("lua"@, content, exec) == (exec.Lua@, seq!["-e"@, content]),
        invocation_for("php"@, content, exec) == (exec.Php@, seq!["-r"@, content]),
        invocation_for("swift"@, content, exec) == (exec.Swift@, seq!["-e"@, content]),
        !(lang == "js"@ || lang == "javascript"@ || lang == "py"@ || lang == "python"@ || lang
            == "rb"@ || lang == "ruby"@ || lang == "lua"@ || lang == "php"@ || lang == "swift"@)
            ==> invocation_for(lang, content, exec) == (lang, seq!["-c"@, content]),
{
    reveal_strlit("js");
    reveal_strlit("javascript");
    reveal_strlit("py");
    reveal_strlit("python");
    reveal_strlit("lua");
    reveal_strlit("rb");
    reveal_strlit("ruby");
    reveal_strlit("php");
    reveal_strlit("swift");
    assert("javascript"@.len() != "js"@.len());
    assert("py"@[0] != "js"@[0]);
    assert("py"@.len() != "javascript"@.len());
    assert("python"@.len() != "js"@.len());
    assert("python"@.len() != "javascript"@.len());
    assert("python"@.len() != "py"@.len());
    assert("lua"@.len() != "js"@.len());
    assert("lua"@.len() != "javascript"@.len());
    assert("lua"@.len() != "py"@.len());
    assert("lua"@.len() != "python"@.len());
    assert("rb"@[0] != "js"@[0]);
    assert("rb"@.len() != "javascript"@.len());
    assert("rb"@[0] != "py"@[0]);
    assert("rb"@.len() != "python"@.len());
    assert("rb"@.len() != "lua"@.len());
    assert("ruby"@.len() != "js"@.len());
    assert("ruby"@.len() != "javascript"@.len());
    assert("ruby"@.len() != "py"@.len());
    assert("ruby"@.len() != "python"@.len());
    assert("ruby"@.len() != "lua"@.len());
    assert("ruby"@.len() != "rb"@.len());
    assert("php"@.len() != "js"@.len());
    assert("php"@.len() != "javascript"@.len());
    assert("php"@.len() != "py"@.len());
    assert("php"@.len() != "python"@.len());
    assert("php"@[0] != "lua"@[0]);
    assert("php"@.len() != "rb"@.len());
    assert("php"@.len() != "ruby"@.len());
    assert("swift"@.len() != "js"@.len());
    assert("swift"@.len() != "javascript"@.len());
    assert("swift"@.len() != "py"@.len());
    assert("swift"@.len() != "python"@.len());
    assert("swift"@.len() != "lua"@.len());
    assert("swift"@.len() != "rb"@.len());
    assert("swift"@.len() != "ruby"@.len());
    assert("swift"@.len() != "php"@.len());
}

/// Closing a list adds an option to the current command exactly when it
/// closes the list of an option's lines (from the second level of an
/// `OPTIONS` list back to the first): the option read from those lines is
/// added after the command's arguments, and the next option starts afresh.
/// Closing any other list adds nothing and keeps the option being read.
pub proof fn law_option_added_when_its_lines_end(st: ParseState)
    ensures
        ({
            let st2 = event_step(st, MdEventView::EndList);
            &&& st.list_level == 2 ==> st2.current.args == st.current.args.push(st.option)
                && st2.option == new_arg_view(Seq::empty()) && st2.list_level == 1
            &&& st.list_level != 2 ==> st2.current.args == st.current.args && st2.option
                == st.option
            &&& st2.commands == st.commands
        }),
{
}

/// Only closing a heading or the lines of an option adds arguments to the
/// current command: every other event keeps them (a new heading starts a
/// command of its own), so each option of an `OPTIONS` list adds exactly one
/// argument, when its lines end.
pub proof fn law_arguments_come_from_headings_and_options(st: ParseState, ev: MdEventView)
    ensures
        !(ev is StartHeading) && !(ev is EndHeading) && !(ev is EndList) ==> event_step(
            st,
            ev,
        ).current.args == st.current.args,
        ev is StartHeading ==> event_step(st, ev).current.args == Seq::<ArgView>::empty(),
{
}

/// Whether `s` holds neither `!` nor `?`, the characters that set whether an
/// argument is required.
pub open spec fn no_required_marks(s: Seq<char>) -> bool {
    forall|j: int| 0 <= j < s.len() ==> #[trigger] s[j] != '!' && s[j] != '?'
}

proof fn lemma_marks_subrange(s: Seq<char>, i: int, j: int)
    requires
        no_required_marks(s),
        0 <= i <= j <= s.len(),
    ensures
        no_required_marks(s.subrange(i, j)),
{
    assert forall|k: int| 0 <= k < j - i implies #[trigger] s.subrange(i, j)[k] != '!' && s.subrange(
        i,
        j,
    )[k] != '?' by {
        assert(s.subrange(i, j)[k] == s[i + k]);
    }
}

proof fn lemma_marks_trim(s: Seq<char>)
    requires
        no_required_marks(s),
    ensures
        no_required_marks(trim_start(s)),
        no_required_marks(trim(s)),
    decreases s.len(),
{
    lemma_marks_trim_start(s);
    lemma_marks_trim_end(trim_start(s));
}

proof fn lemma_marks_trim_start(s: Seq<char>)
    requires
        no_required_marks(s),
    ensures
        no_required_marks(trim_start(s)),
    decreases s.len(),
{
    if s.len() > 0 && is_white_space(s[0]) {
        lemma_marks_subrange(s, 1, s.len() as int);
        assert(s.subrange(1, s.len() as int) =~= s.drop_first());
        lemma_marks_trim_start(s.drop_first());
    }
}

proof fn lemma_marks_trim_end(s: Seq<char>)
    requires
        no_required_marks(s),
    ensures
        no_required_marks(trim_end(s)),
    decreases s.len(),
{
    if s.len() > 0 && is_white_space(s.last()) {
        lemma_marks_subrange(s, 0, s.len() - 1);
        assert(s.subrange(0, s.len() - 1) =~= s.drop_last());
        lemma_marks_trim_end(s.drop_last());
    }
}

/// Whether every name of a scan, and the name being read, is free of `!`
/// and `?`.
pub open spec fn scan_unmarked(st: ScanState) -> bool {
    &&& no_required_marks(st.current)
    &&& forall|i: int| 0 <= i < st.names.len() ==> no_required_marks(#[trigger] st.names[i])
}

proof fn lemma_pushed_unmarked(names: Seq<Seq<char>>, current: Seq<char>)
    requires
        no_required_marks(current),
        forall|i: int| 0 <= i < names.len() ==> no_required_marks(#[trigger] names[i]),
    ensures
        forall|i: int|
            0 <= i < pushed_names(names, current).len() ==> no_required_marks(
                #[trigger] pushed_names(names, current)[i],
            ),
{
    lemma_marks_trim(current);
}

proof fn lemma_scan_keeps_required(st: ScanState, chars: Seq<char>, pos: int)
    requires
        no_required_marks(chars),
        scan_unmarked(st),
    ensures
        scan(st, chars, pos).0.arg.required == st.arg.required,
        scan_unmarked(scan(st, chars, pos).0),
    decreases chars.len() - pos,
{
    if 0 <= pos < chars.len() {
        let (st1, q, stopped) = pair_step(st, chars, pos);
        assert(st1.arg.required == st.arg.required);
        assert(scan_unmarked(st1)) by {
            if st1.current != st.current {
                if st.prev == Some('=') && chars[pos] == '?' && pos + 1 < chars.len() && chars[pos + 1] != ' ' {
                    let d = chars[pos + 1];
                    assert(st1.current == st.current.push(d));
                    assert forall|k: int| 0 <= k < st1.current.len() implies #[trigger] st1.current[k] != '!'
                        && st1.current[k] != '?' by {
                        if k < st.current.len() {
                            assert(st1.current[k] == st.current[k]);
                        }
                    }
                } else {
                    lemma_marks_subrange(st.current, 0, st.current.len() - 1);
                    assert(st.current.subrange(0, st.current.len() - 1) =~= st.current.drop_last());
                }
            }
        }
        if !stopped && !is_separator(chars[pos]) && pos < q <= chars.len() {
            let c = chars[pos];
            let st2 = after_char(st1, c);
            assert(scan_unmarked(st2)) by {
                if (c == ' ' || c == '|') && st1.in_names {
                    lemma_pushed_unmarked(st1.names, st1.current);
                } else if st1.in_names {
                    assert forall|k: int| 0 <= k < st2.current.len() implies #[trigger] st2.current[k]
                        != '!' && st2.current[k] != '?' by {
                        if k < st1.current.len() {
                            assert(st2.current[k] == st1.current[k]);
                        }
                    }
                }
            }
            lemma_scan_keeps_required(st2, chars, q);
        }
    }
}

proof fn lemma_configured_keeps_required(arg: ArgView, config: Seq<char>, name: Seq<char>)
    requires
        no_required_marks(config),
    ensures
        configured_all(arg, config, name).required == arg.required,
    decreases config.len(),
{
    if config.len() > 0 {
        assert(config[0] != '!' && config[0] != '?');
        lemma_marks_subrange(config, 1, config.len() as int);
        assert(config.subrange(1, config.len() as int) =~= config.drop_first());
        lemma_configured_keeps_required(configured(arg, config[0], name), config.drop_first(), name);
    }
}

proof fn lemma_named_values_keep_required(arg: ArgView, pieces: Seq<Seq<char>>, i: int)
    ensures
        named_values(arg, pieces, i).required == arg.required,
    decreases pieces.len() - i,
{
    if 0 <= i < pieces.len() && ends_with_gt(trim(pieces[i])) {
        lemma_named_values_keep_required(
            ArgView { value_names: arg.value_names.push(value_name_of(pieces[i])), ..arg },
            pieces,
            i + 1,
        );
    }
}

proof fn lemma_named_all_keeps_required(
    arg: ArgView,
    seen: FlagNames,
    names: Seq<Seq<char>>,
    index: usize,
)
    requires
        forall|i: int| 0 <= i < names.len() ==> no_required_marks(#[trigger] names[i]),
    ensures
        named_all(arg, seen, names, index).0.required == arg.required,
    decreases names.len(),
{
    if names.len() > 0 {
        let n = names[0];
        assert(no_required_marks(n));
        let (config, rest) = split_config(n);
        lemma_config_len(n);
        lemma_marks_subrange(n, 0, config_len(n) as int);
        assert(n.subrange(0, config_len(n) as int) =~= config);
        let (config2, flag) = split_flag(config);
        assert(no_required_marks(config2)) by {
            lemma_index_of(config, '-');
            match index_of(config, '-') {
                Some(i) => {
                    lemma_marks_subrange(config, 0, i);
                    assert(config.subrange(0, i) =~= config2);
                },
                None => {},
            }
        }
        lemma_named_values_keep_required(arg, split_on(rest, '<'), 1);
        let (a1, name) = value_named(arg, rest);
        let (a2, seen2) = if flag.len() == 0 {
            (ArgView { id: name, index: Some(index), ..a1 }, seen)
        } else {
            flagged(a1, seen, flag, name)
        };
        lemma_configured_keeps_required(a2, config2, name);
        assert forall|i: int| 0 <= i < names.drop_first().len() implies no_required_marks(
            #[trigger] names.drop_first()[i],
        ) by {
            assert(names.drop_first()[i] == names[i + 1]);
        }
        let (a3, seen3) = named_arg(arg, seen, n, index);
        lemma_named_all_keeps_required(a3, seen3, names.drop_first(), index);
    }
}

/// A declaration without `!` or `?` keeps whether its argument is required.
proof fn lemma_parsed_keeps_required(arg: ArgView, chars: Seq<char>, pos: int, index: usize)
    requires
        no_required_marks(chars),
    ensures
        parsed_argument(arg, chars, pos, index).0.required == arg.required,
{
    let st0 = initial_scan(arg);
    lemma_scan_keeps_required(st0, chars, pos);
    let (st, q) = scan(st0, chars, pos);
    lemma_pushed_unmarked(st.names, st.current);
    lemma_named_all_keeps_required(st.arg, no_flag_names(), pushed_names(st.names, st.current), index);
}

/// Whether every group bracket of `chars` is `(` when `required`, `[` when not.
pub open spec fn brackets_of_kind(chars: Seq<char>, required: bool) -> bool {
    forall|k: int|
        0 <= k < chars.len() ==> (#[trigger] chars[k] == '(' ==> required) && (chars[k] == '['
            ==> !required)
}

proof fn lemma_header_args_required(
    chars: Seq<char>,
    pos: int,
    group_name: Seq<char>,
    acc: Seq<ArgView>,
    required: bool,
)
    requires
        no_required_marks(chars),
        brackets_of_kind(chars, required),
        forall|i: int| 0 <= i < acc.len() ==> (#[trigger] acc[i]).required == required,
    ensures
        forall|i: int|
            0 <= i < header_args(chars, pos, group_name, acc).len() ==> (#[trigger] header_args(
                chars,
                pos,
                group_name,
                acc,
            )[i]).required == required,
    decreases chars.len() - pos, 0int,
{
    if 0 <= pos < chars.len() {
        let c = chars[pos];
        if c == '(' || c == '[' {
            assert((c == '(') == required);
            lemma_group_args_required(chars, pos + 1, required, group_name, Seq::empty(), acc);
        } else if c == ' ' {
            lemma_header_args_required(chars, pos + 1, Seq::empty(), acc, required);
        } else {
            lemma_header_args_required(chars, pos + 1, group_name.push(c), acc, required);
        }
    }
}

proof fn lemma_group_args_required(
    chars: Seq<char>,
    pos: int,
    required: bool,
    group: Seq<char>,
    args: Seq<ArgView>,
    acc: Seq<ArgView>,
)
    requires
        no_required_marks(chars),
        brackets_of_kind(chars, required),
        forall|i: int| 0 <= i < acc.len() ==> (#[trigger] acc[i]).required == required,
        forall|i: int| 0 <= i < args.len() ==> (#[trigger] args[i]).required == required,
    ensures
        forall|i: int|
            0 <= i < group_args(chars, pos, required, group, args, acc).len() ==> (
            #[trigger] group_args(chars, pos, required, group, args, acc)[i]).required == required,
    decreases chars.len() - pos, 1int,
{
    if 0 <= pos <= chars.len() {
        let (a, prev, q) = parsed_argument(group_member(required, group), chars, pos, args.len() as usize);
        lemma_parsed_keeps_required(group_member(required, group), chars, pos, args.len() as usize);
        let args2 = args.push(a);
        assert forall|i: int| 0 <= i < args2.len() implies (#[trigger] args2[i]).required == required by {
            if i < args.len() {
                assert(args2[i] == args[i]);
            }
        }
        match prev {
            None => {},
            Some(p) => {
                if pos < q <= chars.len() {
                    if p == ')' || p == ']' {
                        let acc2 = acc + args2;
                        assert forall|i: int| 0 <= i < acc2.len() implies (#[trigger] acc2[i]).required
                            == required by {
                            if i < acc.len() {
                                assert(acc2[i] == acc[i]);
                            } else {
                                assert(acc2[i] == args2[i - acc.len()]);
                            }
                        }
                        lemma_header_args_required(chars, q, Seq::empty(), acc2, required);
                    } else {
                        lemma_group_args_required(chars, q, required, group, args2, acc);
                    }
                }
            }
        }
    }
}

/// In a heading whose argument groups are all required `(...)` groups, every
/// declared argument is required; in one whose groups are all optional
/// `[...]` groups, none is; unless a `!` or `?` says otherwise.
pub proof fn law_group_brackets_decide_required(text: Seq<char>, required: bool)
    requires
        no_required_marks(text),
        brackets_of_kind(text, required),
    ensures
        forall|i: int|
            0 <= i < header_arguments(text).len() ==> (#[trigger] header_arguments(text)[i]).required
                == required,
{
    match bracket_index(text) {
        Some(b) => lemma_header_args_required(text, b, Seq::empty(), Seq::empty(), required),
        None => {},
    }
}

/// The task data of `c`, if it has a script.
pub open spec fn own_script(c: CommandView) -> Seq<MaskView> {
    if c.mask.scripts.len() > 0 {
        seq![c.mask]
    } else {
        Seq::empty()
    }
}

/// The task data of the commands of `s` that have a script, in order.
pub open spec fn scripted(s: Seq<CommandView>) -> Seq<MaskView>
    decreases s.len(),
{
    if s.len() == 0 {
        Seq::empty()
    } else {
        own_script(s[0]) + scripted(s.drop_first())
    }
}

/// The task data of the commands with a script in the tree under `c`, `c`
/// included, parents before their subcommands.
pub open spec fn tree_scripted_one(c: CommandView) -> Seq<MaskView>
    decreases c,
{
    own_script(c) + tree_scripted(c.subcommands)
}

/// The task data of the commands with a script in the trees of `s`, in
/// order, parents before their subcommands.
pub open spec fn tree_scripted(s: Seq<CommandView>) -> Seq<MaskView>
    decreases s,
{
    if s.len() == 0 {
        Seq::empty()
    } else {
        tree_scripted_one(s[0]) + tree_scripted(s.drop_first())
    }
}

/// The number of commands at the front of `rest` that are deeper than
/// `level`: those that a command of that level gathers below it.
pub open spec fn span(rest: Seq<CommandView>, level: i32) -> nat
    decreases rest.len(),
{
    if rest.len() == 0 || rest[0].mask.level <= level {
        0
    } else {
        1 + span(rest.drop_first(), level)
    }
}

/// Whether no command of `s` has subcommands yet.
pub open spec fn no_subcommands(s: Seq<CommandView>) -> bool {
    forall|i: int| 0 <= i < s.len() ==> (#[trigger] s[i]).subcommands.len() == 0
}

proof fn lemma_span(rest: Seq<CommandView>, level: i32)
    ensures
        span(rest, level) <= rest.len(),
        forall|i: int| 0 <= i < span(rest, level) ==> (#[trigger] rest[i]).mask.level > level,
    decreases rest.len(),
{
    if rest.len() > 0 && rest[0].mask.level > level {
        lemma_span(rest.drop_first(), level);
        assert forall|i: int| 0 <= i < span(rest, level) implies (#[trigger] rest[i]).mask.level
            > level by {
            if i > 0 {
                assert(rest[i] == rest.drop_first()[i - 1]);
            }
        }
    }
}

proof fn lemma_span_split(r: Seq<CommandView>, m: int, level: i32)
    requires
        0 <= m <= r.len(),
        forall|i: int| 0 <= i < m ==> (#[trigger] r[i]).mask.level > level,
    ensures
        span(r, level) == m + span(r.skip(m), level),
    decreases m,
{
    if m > 0 {
        assert(r[0].mask.level > level);
        assert forall|i: int| 0 <= i < m - 1 implies (#[trigger] r.drop_first()[i]).mask.level
            > level by {
            assert(r.drop_first()[i] == r[i + 1]);
        }
        lemma_span_split(r.drop_first(), m - 1, level);
        assert(r.drop_first().skip(m - 1) =~= r.skip(m));
    } else {
        assert(r.skip(0) =~= r);
    }
}

proof fn lemma_scripted_concat(a: Seq<CommandView>, b: Seq<CommandView>)
    ensures
        scripted(a + b) == scripted(a) + scripted(b),
    decreases a.len(),
{
    if a.len() == 0 {
        assert(a + b =~= b);
        assert(Seq::<MaskView>::empty() + scripted(b) =~= scripted(b));
    } else {
        assert((a + b).drop_first() =~= a.drop_first() + b);
        assert((a + b)[0] == a[0]);
        lemma_scripted_concat(a.drop_first(), b);
        assert(own_script(a[0]) + (scripted(a.drop_first()) + scripted(b)) =~= (own_script(a[0])
            + scripted(a.drop_first())) + scripted(b));
    }
}

proof fn lemma_tree_scripted_retained(s: Seq<CommandView>)
    ensures
        tree_scripted(retained(s)) == tree_scripted(s),
    decreases s.len(),
{
    if s.len() > 0 {
        lemma_tree_scripted_retained(s.drop_first());
        if kept(s[0]) {
            let r = seq![s[0]] + retained(s.drop_first());
            assert(r[0] == s[0]);
            assert(r.drop_first() =~= retained(s.drop_first()));
        } else {
            assert(s[0].subcommands.len() == 0);
            assert(tree_scripted(s[0].subcommands) == Seq::<MaskView>::empty());
            assert(tree_scripted_one(s[0]) =~= Seq::<MaskView>::empty());
            assert(tree_scripted(s) =~= tree_scripted(s.drop_first()));
        }
    }
}

proof fn lemma_children_complete(level: i32, name: Seq<char>, rest: Seq<CommandView>)
    requires
        no_subcommands(rest),
    ensures
        tree_scripted(children(level, name, rest).0) == scripted(rest.take(span(rest, level) as int)),
        children(level, name, rest).1 == rest.skip(span(rest, level) as int),
    decreases rest.len(), 0int,
{
    if rest.len() == 0 || rest[0].mask.level <= level {
        assert(rest.take(0) =~= Seq::<CommandView>::empty());
        assert(rest.skip(0) =~= rest);
    } else {
        let sub = rest[0];
        let sub1 = renamed(sub, name);
        let rest1 = rest.drop_first();
        assert(no_subcommands(rest1)) by {
            assert forall|i: int| 0 <= i < rest1.len() implies (#[trigger] rest1[i]).subcommands.len()
                == 0 by {
                assert(rest1[i] == rest[i + 1]);
            }
        }
        lemma_subtree_complete(sub1, rest1);
        let (grand, rest2) = subtree(sub1, rest1);
        let s1 = span(rest1, sub.mask.level) as int;
        lemma_span(rest1, sub.mask.level);
        assert(sub1.mask == sub.mask);
        assert(sub1.subcommands.len() == 0);
        assert(rest2 == rest1.skip(s1));
        assert(no_subcommands(rest2)) by {
            assert forall|i: int| 0 <= i < rest2.len() implies (#[trigger] rest2[i]).subcommands.len()
                == 0 by {
                assert(rest2[i] == rest1[i + s1]);
            }
        }
        assert(rest2.len() < rest.len());
        lemma_children_complete(level, name, rest2);
        let (more, rest3) = children(level, name, rest2);
        let s2 = span(rest2, level) as int;
        lemma_span(rest2, level);
        assert forall|i: int| 0 <= i < s1 implies (#[trigger] rest1[i]).mask.level > level by {}
        lemma_span_split(rest1, s1, level);
        assert(span(rest, level) == 1 + s1 + s2);
        let sub2 = CommandView { subcommands: sub1.subcommands + grand, ..sub1 };
        let kids = seq![sub2] + more;
        assert(children(level, name, rest).0 == kids);
        assert(kids[0] == sub2);
        assert(kids.drop_first() =~= more);
        assert(sub2.subcommands =~= grand);
        assert(tree_scripted_one(sub2) == own_script(sub) + tree_scripted(grand));
        assert(rest.take(1 + s1 + s2) =~= seq![sub] + rest1.take(s1) + rest2.take(s2));
        lemma_scripted_concat(seq![sub] + rest1.take(s1), rest2.take(s2));
        lemma_scripted_concat(seq![sub], rest1.take(s1));
        assert(seq![sub].drop_first() =~= Seq::<CommandView>::empty());
        assert(seq![sub][0] == sub);
        assert(scripted(Seq::<CommandView>::empty()) == Seq::<MaskView>::empty());
        assert(scripted(seq![sub]) =~= own_script(sub) + Seq::<MaskView>::empty());
        assert(scripted(seq![sub]) =~= own_script(sub));
        assert(tree_scripted(kids) =~= own_script(sub) + tree_scripted(grand) + tree_scripted(more));
        assert(rest3 =~= rest.skip(1 + s1 + s2));
    }
}

proof fn lemma_subtree_complete(cmd: CommandView, rest: Seq<CommandView>)
    requires
        no_subcommands(rest),
    ensures
        tree_scripted(subtree(cmd, rest).0) == scripted(rest.take(span(rest, cmd.mask.level) as int)),
        subtree(cmd, rest).1 == rest.skip(span(rest, cmd.mask.level) as int),
    decreases rest.len(), 1int,
{
    lemma_children_complete(cmd.mask.level, cmd.name, rest);
    lemma_tree_scripted_retained(children(cmd.mask.level, cmd.name, rest).0);
}

/// Building the subtree of a command from commands without subcommands
/// loses no script and invents none: the commands with a script in the tree
/// are exactly those among the commands deeper than it, up to the first one
/// that is not, in order; and what is left starts at that one.
pub proof fn law_subtree_complete(cmd: CommandView, rest: Seq<CommandView>)
    requires
        no_subcommands(rest),
    ensures
        tree_scripted(subtree(cmd, rest).0) == scripted(rest.take(span(rest, cmd.mask.level) as int)),
        subtree(cmd, rest).1 == rest.skip(span(rest, cmd.mask.level) as int),
{
    lemma_subtree_complete(cmd, rest);
}

/// The commands of the headings after the root, in order.
pub open spec fn headings_after_root(st: ParseState) -> Seq<CommandView> {
    st.commands.push(st.current).drop_first()
}

/// The root command.
pub open spec fn root_heading(st: ParseState) -> CommandView {
    st.commands.push(st.current)[0]
}

/// No heading with a script is lost from a task file: the commands with a
/// script in the tree read from any events are exactly, in order, those of
/// the headings after the root that are deeper than the root, up to the first
/// heading that is not.
pub proof fn law_parsed_tree_complete(evs: Seq<MdEventView>)
    ensures
        ({
            let st = parse_states(evs);
            let rest = headings_after_root(st);
            tree_scripted(parsed_maskfile(evs).subcommands) == scripted(
                rest.take(span(rest, root_heading(st).mask.level) as int),
            )
        }),
{
    let st = parse_states(evs);
    law_reading_is_flat(evs);
    let commands = st.commands.push(st.current);
    let root = commands[0];
    let rest = commands.drop_first();
    assert(no_subcommands(rest)) by {
        assert forall|i: int| 0 <= i < rest.len() implies (#[trigger] rest[i]).subcommands.len() == 0 by {
            if i + 1 < st.commands.len() {
                assert(rest[i] == st.commands[i + 1]);
            } else {
                assert(rest[i] == st.current);
            }
        }
    }
    assert(root.subcommands.len() == 0) by {
        if st.commands.len() > 0 {
            assert(root == st.commands[0]);
        }
    }
    lemma_subtree_complete(root, rest);
    assert(root.subcommands + subtree(root, rest).0 =~= subtree(root, rest).0);
}

} // verus!
