//! The task file, read as markdown: headings become commands, their
//! parenthesised declarations arguments, block quotes descriptions, code
//! blocks scripts, and an `OPTIONS` list the named options of a command.

use vstd::prelude::*;
use crate::argument::parsed_argument;
use crate::arg_type::typed_arg;
use crate::markdown::{
    event_views, heading_levels_valid, markdown_events, markdown_events_of, MdEvent, MdEventView,
};
use crate::laws::{law_parsed_tree_strict, tree_strict};
use crate::types::{Mask, MaskView, Script, ScriptView};
use crate::cli::{
    arg_views, command_view, command_views, lemma_command_views, lemma_command_views_concat,
    new_arg_view, new_command_view, opt_command_views, ArgSpec, ArgView, CommandSpec, CommandView, GroupSpec,
};
use crate::text::{
    char_views, chars_eq, chars_of, index_of, str_eq, lemma_split_nonempty, split_chars, split_on, trim, trimmed_string, views,
};

verus! {

/// The position of the first `(` or `[` in `s`.
pub open spec fn bracket_index(s: Seq<char>) -> Option<int>
    decreases s.len(),
{
    if s.len() == 0 {
        None
    } else if s[0] == '(' || s[0] == '[' {
        Some(0)
    } else {
        match bracket_index(s.drop_first()) {
            Some(i) => Some(i + 1),
            None => None,
        }
    }
}

/// The arguments declared in `chars[pos..]`, after `acc`; `group_name` is the
/// word read since the last space.
pub open spec fn header_args(
    chars: Seq<char>,
    pos: int,
    group_name: Seq<char>,
    acc: Seq<ArgView>,
) -> Seq<ArgView>
    decreases chars.len() - pos, 0int,
{
    if pos < 0 || pos >= chars.len() {
        acc
    } else {
        let c = chars[pos];
        if c == '(' || c == '[' {
            group_args(chars, pos + 1, c == '(', group_name, Seq::empty(), acc)
        } else if c == ' ' {
            header_args(chars, pos + 1, Seq::empty(), acc)
        } else {
            header_args(chars, pos + 1, group_name.push(c), acc)
        }
    }
}

/// The argument that each declaration of a group starts from.
pub open spec fn group_member(required: bool, group: Seq<char>) -> ArgView {
    ArgView { required, groups: seq![group], ..new_arg_view(Seq::empty()) }
}

/// The arguments of a group that starts at `pos` (after its opening
/// bracket), with `args` read so far in it; a group that the input ends
/// inside adds nothing.
pub open spec fn group_args(
    chars: Seq<char>,
    pos: int,
    required: bool,
    group: Seq<char>,
    args: Seq<ArgView>,
    acc: Seq<ArgView>,
) -> Seq<ArgView>
    decreases chars.len() - pos, 1int,
{
    if pos < 0 || pos > chars.len() {
        acc
    } else {
        let (a, prev, q) = parsed_argument(
            group_member(required, group),
            chars,
            pos,
            args.len() as usize,
        );
        match prev {
            None => acc,
            Some(p) => if !(pos < q <= chars.len()) {
                acc
            } else if p == ')' || p == ']' {
                header_args(chars, q, Seq::empty(), acc + args.push(a))
            } else {
                group_args(chars, q, required, group, args.push(a), acc)
            },
        }
    }
}

/// The command name of a heading: the text before the first bracket, trimmed.
pub open spec fn header_name(text: Seq<char>) -> Seq<char> {
    match bracket_index(text) {
        Some(i) => trim(text.take(i)),
        None => trim(text),
    }
}

/// The arguments that a heading declares in its brackets.
pub open spec fn header_arguments(text: Seq<char>) -> Seq<ArgView> {
    match bracket_index(text) {
        Some(i) => header_args(text, i, Seq::empty(), Seq::empty()),
        None => Seq::empty(),
    }
}

proof fn lemma_bracket_index_at(s: Seq<char>, k: int)
    requires
        0 <= k <= s.len(),
        k < s.len() ==> (s[k] == '(' || s[k] == '['),
        forall|j: int| 0 <= j < k ==> s[j] != '(' && s[j] != '[',
    ensures
        bracket_index(s) == (if k < s.len() { Some(k) } else { None::<int> }),
    decreases k,
{
    if s.len() > 0 && k > 0 {
        assert forall|j: int| 0 <= j < k - 1 implies s.drop_first()[j] != '(' && s.drop_first()[j]
            != '[' by {
            assert(s.drop_first()[j] == s[j + 1]);
        }
        lemma_bracket_index_at(s.drop_first(), k - 1);
    }
}

fn find_bracket(cs: &Vec<char>) -> (r: Option<usize>)
    ensures
        match bracket_index(cs@) {
            Some(i) => r == Some(i as usize) && 0 <= i < cs@.len(),
            None => r is None,
        },
{
    let mut i: usize = 0;
    while i < cs.len()
        invariant
            i <= cs@.len(),
            forall|j: int| 0 <= j < i ==> cs@[j] != '(' && cs@[j] != '[',
        decreases cs.len() - i,
    {
        if cs[i] == '(' || cs[i] == '[' {
            proof {
                lemma_bracket_index_at(cs@, i as int);
            }
            return Some(i);
        }
        i = i + 1;
    }
    proof {
        lemma_bracket_index_at(cs@, cs@.len() as int);
    }
    None
}

fn take_chars(v: &mut Vec<char>) -> (r: Vec<char>)
    ensures
        r@ == old(v)@,
        final(v)@ == Seq::<char>::empty(),
{
    let mut r: Vec<char> = Vec::new();
    std::mem::swap(&mut r, v);
    r
}

/// Reads a heading: the command name before the first bracket, and the
/// arguments declared in `(required, ...)` and `[optional, ...]` groups. A
/// word written right before a bracket names the group of its arguments.
pub fn parse_command_name_required_and_optional_args(text: String) -> (r: (
    String,
    Vec<ArgSpec>,
    Vec<GroupSpec>,
))
    ensures
        r.0@ == header_name(text@),
        arg_views(r.1@) == header_arguments(text@),
        r.2@.len() == 0,
{
    let cs = chars_of(text.as_str());
    let split_idx = match find_bracket(&cs) {
        Some(idx) => idx,
        None => {
            assert(cs@.subrange(0, cs@.len() as int) =~= cs@);
            let name = trimmed_string(&cs, 0, cs.len());
            let none: Vec<ArgSpec> = Vec::new();
            assert(arg_views(none@) =~= Seq::<ArgView>::empty());
            return (name, none, Vec::new());
        },
    };
    assert(cs@.subrange(0, split_idx as int) =~= cs@.take(split_idx as int));
    let name = trimmed_string(&cs, 0, split_idx);
    let ghost target = header_args(cs@, split_idx as int, Seq::empty(), Seq::empty());
    let mut arguments: Vec<ArgSpec> = Vec::new();
    let groups: Vec<GroupSpec> = Vec::new();
    let mut group_name: Vec<char> = Vec::new();
    let mut p = split_idx;
    assert(arg_views(arguments@) =~= Seq::<ArgView>::empty());
    while p < cs.len()
        invariant
            split_idx <= p <= cs@.len(),
            header_args(cs@, p as int, group_name@, arg_views(arguments@)) == target,
            groups@.len() == 0,
        decreases cs.len() - p,
    {
        let c = cs[p];
        p = p + 1;
        if c == '(' || c == '[' {
            let required = c == '(';
            let gname = take_chars(&mut group_name);
            let gname_string = crate::text::string_of(&gname);
            let mut args: Vec<ArgSpec> = Vec::new();
            assert(arg_views(args@) =~= Seq::<ArgView>::empty());
            let mut done = false;
            let ghost p_group = p;
            while !done
                invariant
                    split_idx <= p_group <= p <= cs@.len(),
                    group_name@ == Seq::<char>::empty(),
                    gname_string@ == gname@,
                    groups@.len() == 0,
                    !done ==> group_args(
                        cs@,
                        p as int,
                        required,
                        gname@,
                        arg_views(args@),
                        arg_views(arguments@),
                    ) == target,
                    done ==> header_args(cs@, p as int, group_name@, arg_views(arguments@))
                        == target,
                decreases cs@.len() - p + (if done { 0int } else { 1int }),
            {
                let mut arg = ArgSpec::new(String::new());
                arg.required = required;
                arg.groups.push(gname_string.clone());
                proof {
                    reveal_strlit("");
                }
                assert(arg@ =~= group_member(required, gname@));
                let index = args.len();
                let ghost p_before = p;
                let (new_arg, prev_char, q) = crate::argument::parse(arg, &cs, p, index);
                let ghost before = arg_views(args@);
                args.push(new_arg);
                assert(arg_views(args@) =~= before.push(new_arg@));
                p = q;
                match prev_char {
                    None => {
                        proof {
                            crate::argument::lemma_scan_ends(
                                crate::argument::initial_scan(group_member(required, gname@)),
                                cs@,
                                p_before as int,
                            );
                        }
                        done = true;
                    },
                    Some(pc) => {
                        if pc == ')' || pc == ']' {
                            if group_name.len() != 0 {
                                assert(false);
                            }
                            let ghost acc = arg_views(arguments@);
                            let ghost added = arg_views(args@);
                            arguments.append(&mut args);
                            assert(arg_views(arguments@) =~= acc + added);
                            group_name.clear();
                            done = true;
                        }
                    },
                }
            }
        } else {
            if c == ' ' {
                group_name.clear();
                assert(group_name@ =~= Seq::<char>::empty());
            } else {
                group_name.push(c);
            }
        }
    }
    (name, arguments, groups)
}

/// The name before the first `|`, and the aliases after it, all trimmed.
pub open spec fn name_and_aliases(text: Seq<char>) -> (Seq<char>, Seq<Seq<char>>) {
    let pieces = split_on(text, '|');
    (trim(pieces[0]), pieces.skip(1).map_values(|p: Seq<char>| trim(p)))
}

/// Splits `name | alias | ...` into the name and its aliases.
pub fn parse_command_name_and_aliases(text: String) -> (r: (String, Vec<String>))
    ensures
        (r.0@, views(r.1@)) == name_and_aliases(text@),
{
    let cs = chars_of(text.as_str());
    assert(cs@.subrange(0, cs@.len() as int) =~= cs@);
    let pieces = split_chars(&cs, 0, cs.len(), '|');
    let ghost ps = split_on(text@, '|');
    proof {
        lemma_split_nonempty(text@, '|');
        assert(char_views(pieces@)[0] == pieces@[0]@);
        assert(pieces@[0]@.subrange(0, pieces@[0]@.len() as int) =~= pieces@[0]@);
    }
    let name = trimmed_string(&pieces[0], 0, pieces[0].len());
    let mut aliases: Vec<String> = Vec::new();
    let mut i: usize = 1;
    while i < pieces.len()
        invariant
            1 <= i <= pieces@.len(),
            ps == char_views(pieces@),
            views(aliases@) == ps.subrange(1, i as int).map_values(|p: Seq<char>| trim(p)),
        decreases pieces.len() - i,
    {
        let piece = &pieces[i];
        assert(ps[i as int] == piece@);
        assert(piece@.subrange(0, piece@.len() as int) =~= piece@);
        let alias = trimmed_string(piece, 0, piece.len());
        let ghost before = views(aliases@);
        aliases.push(alias);
        assert(views(aliases@) =~= before.push(alias@));
        assert(ps.subrange(1, i + 1).map_values(|p: Seq<char>| trim(p)) =~= ps.subrange(
            1,
            i as int,
        ).map_values(|p: Seq<char>| trim(p)).push(trim(ps[i as int])));
        i = i + 1;
    }
    assert(ps.subrange(1, ps.len() as int) =~= ps.skip(1));
    (name, aliases)
}

/// Whether `s` starts with `p`.
pub open spec fn has_prefix(s: Seq<char>, p: Seq<char>) -> bool {
    p.len() <= s.len() && s.take(p.len() as int) == p
}

/// A subcommand without its parent's name in front of its own.
pub open spec fn renamed(sub: CommandView, parent: Seq<char>) -> CommandView {
    if has_prefix(sub.name, parent) {
        CommandView { name: trim(sub.name.skip(parent.len() as int)), ..sub }
    } else {
        sub
    }
}

/// A command stays in the tree if it has a script, a subcommand, or is a
/// top-level task (level 1).
pub open spec fn kept(c: CommandView) -> bool {
    c.mask.scripts.len() > 0 || c.subcommands.len() > 0 || c.mask.level == 1
}

/// The commands of `s` that stay, in order.
pub open spec fn retained(s: Seq<CommandView>) -> Seq<CommandView>
    decreases s.len(),
{
    if s.len() == 0 {
        s
    } else if kept(s[0]) {
        seq![s[0]] + retained(s.drop_first())
    } else {
        retained(s.drop_first())
    }
}

/// The children of a command of the given level and name, taken from the
/// front of `rest`, each with its own children; and what is left of `rest`.
/// A command of the same or a lower level ends the children; under the root,
/// a second level-1 heading ends the tree, and what follows it is ignored.
pub open spec fn children(level: i32, name: Seq<char>, rest: Seq<CommandView>) -> (
    Seq<CommandView>,
    Seq<CommandView>,
)
    decreases rest.len(), 0int,
{
    if rest.len() == 0 {
        (Seq::empty(), rest)
    } else {
        let sub = rest[0];
        if sub.mask.level <= level {
            (Seq::empty(), rest)
        } else {
            let sub1 = renamed(sub, name);
            let (grand, rest2) = subtree(sub1, rest.drop_first());
            let sub2 = CommandView { subcommands: sub1.subcommands + grand, ..sub1 };
            if rest2.len() < rest.len() {
                let (more, rest3) = children(level, name, rest2);
                (seq![sub2] + more, rest3)
            } else {
                (seq![sub2], rest2)
            }
        }
    }
}

/// The subcommands that stay under `cmd`, built from the front of `rest`,
/// and what is left of `rest`.
pub open spec fn subtree(cmd: CommandView, rest: Seq<CommandView>) -> (
    Seq<CommandView>,
    Seq<CommandView>,
)
    decreases rest.len(), 1int,
{
    let (kids, rest2) = children(cmd.mask.level, cmd.name, rest);
    (retained(kids), rest2)
}

fn starts_with_chars(s: &Vec<char>, p: &Vec<char>) -> (b: bool)
    ensures
        b == has_prefix(s@, p@),
{
    if p.len() > s.len() {
        return false;
    }
    let mut i: usize = 0;
    while i < p.len()
        invariant
            p@.len() <= s@.len(),
            i <= p@.len(),
            forall|j: int| 0 <= j < i ==> s@[j] == p@[j],
        decreases p.len() - i,
    {
        if s[i] != p[i] {
            return false;
        }
        i = i + 1;
    }
    assert(s@.take(p@.len() as int) =~= p@);
    true
}

fn is_kept(c: &CommandSpec) -> (b: bool)
    ensures
        b == kept(command_view(*c)),
{
    c.mask.0.scripts.len() > 0 || c.subcommands.len() > 0 || c.mask.0.level == 1
}

/// Gathers the subcommands of `command` from the front of `left_cmds`: each
/// command of a higher level becomes a child, with its own children under it
/// and its parent's name stripped from its own; the first command of the same
/// or a lower level ends the children and is handed back. Commands without a
/// script and without children are dropped, except at level 1.
fn treeify_commands(command: &CommandSpec, left_cmds: &mut Vec<CommandSpec>) -> (r: (
    Vec<CommandSpec>,
    Option<CommandSpec>,
))
    ensures
        command_views(r.0@) == subtree(command_view(*command), command_views(old(left_cmds)@)).0,
        opt_command_views(r.1) + command_views(final(left_cmds)@) == subtree(
            command_view(*command),
            command_views(old(left_cmds)@),
        ).1,
        final(left_cmds)@.len() + (if r.1 is Some { 1int } else { 0int }) <= old(left_cmds)@.len(),
        r.1 is None ==> final(left_cmds)@.len() == 0,
        r.1 matches Some(x) ==> x.mask.0.level <= command.mask.0.level,
    decreases old(left_cmds)@.len(),
{
    let command_level = command.mask.0.level;
    let command_name = chars_of(command.name.as_str());
    let ghost level = command_view(*command).mask.level;
    let ghost name = command_view(*command).name;
    let ghost r0 = command_views(left_cmds@);
    let mut retenue: Option<CommandSpec> = None;
    let mut subcommands: Vec<CommandSpec> = Vec::new();
    let mut done = false;
    proof {
        lemma_command_views(subcommands@);
        lemma_command_views(left_cmds@);
        assert(opt_command_views(retenue) + command_views(left_cmds@) =~= r0);
    }
    while !done
        invariant
            level == command_level,
            name == command_name@,
            ({
                let rr = opt_command_views(retenue) + command_views(left_cmds@);
                &&& !done ==> command_views(subcommands@) + children(level, name, rr).0 == children(
                    level,
                    name,
                    r0,
                ).0
                &&& !done ==> children(level, name, rr).1 == children(level, name, r0).1
                &&& done ==> command_views(subcommands@) == children(level, name, r0).0
                &&& done ==> rr == children(level, name, r0).1
            }),
            left_cmds@.len() + (if retenue is Some { 1int } else { 0int }) <= r0.len(),
            r0.len() == old(left_cmds)@.len(),
            done ==> (retenue is None ==> left_cmds@.len() == 0),
            done ==> (retenue matches Some(x) ==> x.mask.0.level <= command_level),
        decreases left_cmds@.len() + (if retenue is Some { 1int } else { 0int }) + (if done {
            0int
        } else {
            1int
        }),
    {
        let ghost rr = opt_command_views(retenue) + command_views(left_cmds@);
        let ghost acc = command_views(subcommands@);
        proof {
            lemma_command_views(left_cmds@);
        }
        let next = match retenue.take() {
            Some(c) => Some(c),
            None => if left_cmds.len() > 0 {
                let c = left_cmds.remove(0);
                Some(c)
            } else {
                None
            },
        };
        proof {
            lemma_command_views(left_cmds@);
            if next is Some {
                assert(rr =~= seq![command_view(next->0)] + command_views(left_cmds@));
            } else {
                assert(rr =~= Seq::<CommandView>::empty());
            }
        }
        match next {
            None => {
                done = true;
                assert(acc + Seq::<CommandView>::empty() =~= acc);
            },
            Some(sub) => {
                let mut sub = sub;
                let sub_level = sub.mask.0.level;
                if sub_level <= command_level {
                    retenue = Some(sub);
                    done = true;
                    assert(acc + Seq::<CommandView>::empty() =~= acc);
                } else {
                    let ghost sub0 = command_view(sub);
                    let sub_name = chars_of(sub.name.as_str());
                    if starts_with_chars(&sub_name, &command_name) {
                        let stripped = trimmed_string(&sub_name, command_name.len(), sub_name.len());
                        sub.name = stripped;
                        assert(sub_name@.subrange(command_name@.len() as int, sub_name@.len() as int)
                            =~= sub_name@.skip(command_name@.len() as int));
                        assert(command_view(sub) =~= renamed(sub0, name));
                    } else {
                        assert(command_view(sub) =~= renamed(sub0, name));
                    }
                    let ghost sub1 = command_view(sub);
                    assert(command_views(left_cmds@) =~= rr.drop_first());
                    let (mut sub_subcommands, ret) = treeify_commands(&sub, left_cmds);
                    let ghost grand = command_views(sub_subcommands@);
                    let ghost subs_before = sub.subcommands@;
                    let ghost ss = sub_subcommands@;
                    sub.subcommands.append(&mut sub_subcommands);
                    proof {
                        lemma_command_views_concat(subs_before, ss);
                        assert(command_view(sub) =~= CommandView {
                            subcommands: sub1.subcommands + grand,
                            ..sub1
                        });
                        lemma_command_views(left_cmds@);
                    }
                    retenue = ret;
                    let ghost subs_acc = subcommands@;
                    let ghost sub2 = command_view(sub);
                    subcommands.push(sub);
                    proof {
                        assert(subcommands@.drop_last() =~= subs_acc);
                        let rest2 = opt_command_views(retenue) + command_views(left_cmds@);
                        assert(rest2.len() < rr.len());
                        assert(children(level, name, rr) == (
                            seq![sub2] + children(level, name, rest2).0,
                            children(level, name, rest2).1,
                        ));
                        assert(command_views(subcommands@) =~= acc.push(sub2));
                        assert(acc.push(sub2) + children(level, name, rest2).0 =~= acc + (seq![sub2]
                            + children(level, name, rest2).0));
                    }
                }
            },
        }
    }
    let ghost all = command_views(subcommands@);
    let mut kept_subs: Vec<CommandSpec> = Vec::new();
    proof {
        lemma_command_views(kept_subs@);
        assert(command_views(kept_subs@) + retained(all) =~= retained(all));
    }
    while subcommands.len() > 0
        invariant
            command_views(kept_subs@) + retained(command_views(subcommands@)) == retained(all),
        decreases subcommands@.len(),
    {
        let ghost before = subcommands@;
        let ghost kept_before = kept_subs@;
        let c = subcommands.remove(0);
        proof {
            lemma_command_views(before);
            lemma_command_views(subcommands@);
            assert(command_views(before) =~= seq![command_view(c)] + command_views(subcommands@));
            assert(command_views(before).drop_first() =~= command_views(subcommands@));
        }
        if is_kept(&c) {
            let ghost cv = command_view(c);
            kept_subs.push(c);
            proof {
                assert(kept_subs@.drop_last() =~= kept_before);
                assert(command_views(kept_subs@) + retained(command_views(subcommands@))
                    =~= command_views(kept_before) + (seq![cv] + retained(
                    command_views(subcommands@),
                )));
            }
        }
    }
    proof {
        lemma_command_views(subcommands@);
        assert(command_views(kept_subs@) + retained(command_views(subcommands@)) =~= command_views(
            kept_subs@,
        ));
    }
    (kept_subs, retenue)
}

/// The state of the reading of a task file.
#[verifier::ext_equal]
pub struct ParseState {
    /// The commands of the headings read so far, the current one aside.
    pub commands: Seq<CommandView>,
    /// The command of the current heading.
    pub current: CommandView,
    /// The option of an `OPTIONS` list being read.
    pub option: ArgView,
    /// The text read since the last reset.
    pub text: Seq<char>,
    /// The depth inside an `OPTIONS` list.
    pub list_level: nat,
    /// Whether no heading was read yet.
    pub first: bool,
}

/// Task data for a heading level, with no script.
pub open spec fn fresh_mask(level: i32) -> MaskView {
    MaskView { level, scripts: Seq::empty() }
}

/// The state before the first event.
pub open spec fn initial_parse_state() -> ParseState {
    ParseState {
        commands: Seq::empty(),
        current: new_command_view(Seq::empty(), fresh_mask(0)),
        option: new_arg_view(Seq::empty()),
        text: Seq::empty(),
        list_level: 0,
        first: true,
    }
}

/// A heading opens: the current command is kept (the first one, before any
/// heading, is dropped; the second becomes the root, its name moved to its
/// binary name) and a new command starts at the heading's level.
pub open spec fn heading_started(st: ParseState, level: i32) -> ParseState {
    let cmd = st.current;
    if st.first {
        ParseState { first: false, current: new_command_view(Seq::empty(), fresh_mask(level)), ..st }
    } else {
        let cmd = if st.commands.len() == 0 {
            CommandView { bin_name: Some(cmd.name), name: Seq::empty(), ..cmd }
        } else {
            cmd
        };
        ParseState {
            commands: st.commands.push(cmd),
            current: new_command_view(Seq::empty(), fresh_mask(level)),
            ..st
        }
    }
}

/// A list opens: after the text `OPTIONS`, or inside such a list, it goes one
/// level deeper.
pub open spec fn list_started(st: ParseState) -> ParseState {
    if st.text == "OPTIONS"@ || st.list_level > 0 {
        ParseState { list_level: st.list_level + 1, ..st }
    } else {
        st
    }
}

/// An opening resets the text, after what a heading or a list does.
pub open spec fn started(st: ParseState) -> ParseState {
    ParseState { text: Seq::empty(), ..st }
}

/// A heading closes: its text names the command, its aliases and its arguments.
pub open spec fn heading_ended(st: ParseState) -> ParseState {
    let (name, aliases) = name_and_aliases(header_name(st.text));
    ParseState {
        text: Seq::empty(),
        current: CommandView {
            name,
            args: st.current.args + header_arguments(st.text),
            aliases: st.current.aliases + aliases,
            ..st.current
        },
        ..st
    }
}

/// A list closes: one level up, and back at the first level the option read
/// is added to the current command.
pub open spec fn list_ended(st: ParseState) -> ParseState {
    let level: nat = if st.list_level > 0 { (st.list_level - 1) as nat } else { 0 };
    if level == 1 {
        ParseState {
            list_level: level,
            option: new_arg_view(Seq::empty()),
            current: CommandView { args: st.current.args.push(st.option), ..st.current },
            ..st
        }
    } else {
        ParseState { list_level: level, ..st }
    }
}

/// A block quote closes: its text describes the current command.
pub open spec fn block_quote_ended(st: ParseState) -> ParseState {
    ParseState { text: Seq::empty(), current: CommandView { about: Some(st.text), ..st.current }, ..st }
}

/// A code block closes: its text is a script of the current command.
pub open spec fn code_block_ended(st: ParseState, lang: Seq<char>) -> ParseState {
    ParseState {
        text: Seq::empty(),
        current: CommandView {
            mask: MaskView {
                scripts: st.current.mask.scripts.push(ScriptView { lang_code: lang, content: st.text }),
                ..st.current.mask
            },
            ..st.current
        },
        ..st
    }
}

/// The parameter before the first `:` of an option line, and the value
/// after it, both trimmed.
pub open spec fn option_param(content: Seq<char>) -> (Seq<char>, Seq<char>) {
    match index_of(content, ':') {
        Some(i) => (trim(content.take(i)), trim(content.skip(i + 1))),
        None => (trim(content), Seq::empty()),
    }
}

/// `s` with each space replaced by `|`, which separates names in a
/// declaration.
pub open spec fn bars_for_spaces(s: Seq<char>) -> Seq<char> {
    s.map_values(|c: char| if c == ' ' { '|' } else { c })
}

/// The option after a line `param: value` of its list: `desc` sets the help,
/// `type` the type, `flags` the flag names, `required` makes it required.
pub open spec fn optioned(option: ArgView, content: Seq<char>) -> ArgView {
    option_set(option, option_param(content).0, option_param(content).1)
}

/// The option after the parameter `param` with the value `val`.
pub open spec fn option_set(option: ArgView, param: Seq<char>, val: Seq<char>) -> ArgView {
    if param == "desc"@ {
        ArgView { help: Some(val), ..option }
    } else if param == "type"@ {
        typed_arg(option, val)
    } else if param == "flags"@ {
        parsed_argument(option, bars_for_spaces(val), 0, 0).0
    } else if param == "required"@ {
        ArgView { required: true, ..option }
    } else {
        option
    }
}

/// Text is read: in an `OPTIONS` list, at the first level it names the
/// option, at the second it configures it; elsewhere it is kept.
pub open spec fn text_read(st: ParseState, body: Seq<char>) -> ParseState {
    let text = st.text + body;
    if st.list_level == 1 {
        ParseState { option: ArgView { id: text, ..st.option }, text: Seq::empty(), ..st }
    } else if st.list_level == 2 {
        ParseState { option: optioned(st.option, text), text: Seq::empty(), ..st }
    } else {
        ParseState { text, ..st }
    }
}

/// One event.
pub open spec fn event_step(st: ParseState, ev: MdEventView) -> ParseState {
    match ev {
        MdEventView::StartHeading(level) => started(heading_started(st, level)),
        MdEventView::StartList => started(list_started(st)),
        MdEventView::StartOther => started(st),
        MdEventView::EndHeading(_) => heading_ended(st),
        MdEventView::EndBlockQuote => block_quote_ended(st),
        MdEventView::EndCodeBlock(lang) => code_block_ended(st, lang),
        MdEventView::EndList => list_ended(st),
        MdEventView::Text(body) => text_read(st, body),
        MdEventView::InlineHtml(html) => ParseState { text: st.text + html, ..st },
        MdEventView::Code(code) => ParseState { text: st.text + "`"@ + code + "`"@, ..st },
        MdEventView::Other => st,
    }
}

/// Whether an event is an option line `choices: ...`, for which no reading is
/// defined.
pub open spec fn requests_choices(st: ParseState, ev: MdEventView) -> bool {
    match ev {
        MdEventView::Text(body) => st.list_level == 2 && option_param(st.text + body).0
            == "choices"@,
        _ => false,
    }
}

/// The state after the events `evs`.
pub open spec fn parse_states(evs: Seq<MdEventView>) -> ParseState
    decreases evs.len(),
{
    if evs.len() == 0 {
        initial_parse_state()
    } else {
        event_step(parse_states(evs.drop_last()), evs.last())
    }
}

/// Whether no event of `evs` is an option line `choices: ...`.
pub open spec fn choices_free(evs: Seq<MdEventView>) -> bool {
    forall|i: int|
        0 <= i < evs.len() ==> !#[trigger] requests_choices(parse_states(evs.take(i)), evs[i])
}

/// The root command once all events are read: the commands after the first
/// become its subcommand tree.
pub open spec fn parsed_tree(st: ParseState) -> CommandView {
    let commands = st.commands.push(st.current);
    let root = commands[0];
    CommandView {
        subcommands: root.subcommands + subtree(root, commands.drop_first()).0,
        ..root
    }
}

/// The root command that a sequence of markdown events describes.
pub open spec fn parsed_maskfile(evs: Seq<MdEventView>) -> CommandView {
    parsed_tree(parse_states(evs))
}

struct Builder {
    commands: Vec<CommandSpec>,
    current: CommandSpec,
    option: ArgSpec,
    text: String,
    list_level: usize,
    first: bool,
}

impl View for Builder {
    type V = ParseState;

    closed spec fn view(&self) -> ParseState {
        ParseState {
            commands: command_views(self.commands@),
            current: command_view(self.current),
            option: self.option@,
            text: self.text@,
            list_level: self.list_level as nat,
            first: self.first,
        }
    }
}

fn take_string(s: &mut String) -> (r: String)
    ensures
        r@ == old(s)@,
        final(s)@ == Seq::<char>::empty(),
{
    let mut r = String::new();
    std::mem::swap(&mut r, s);
    r
}

fn take_arg(a: &mut ArgSpec) -> (r: ArgSpec)
    ensures
        r@ == old(a)@,
        final(a)@ == new_arg_view(Seq::empty()),
{
    let mut r = ArgSpec::new(String::new());
    std::mem::swap(&mut r, a);
    r
}

fn take_command(c: &mut CommandSpec) -> (r: CommandSpec)
    ensures
        command_view(r) == command_view(*old(c)),
{
    let mut r = CommandSpec::new(String::new(), Mask::new(0));
    std::mem::swap(&mut r, c);
    r
}

impl Builder {
    fn new() -> (b: Builder)
        ensures
            b@ == initial_parse_state(),
    {
        let b = Builder {
            commands: Vec::new(),
            current: CommandSpec::new(String::new(), Mask::new(0)),
            option: ArgSpec::new(String::new()),
            text: String::new(),
            list_level: 0,
            first: true,
        };
        proof {
            lemma_command_views(b.commands@);
        }
        assert(b@ =~= initial_parse_state());
        b
    }

    fn start_heading(&mut self, level: i32)
        ensures
            final(self)@ == heading_started(old(self)@, level),
    {
        let ghost st = self@;
        let mut command = take_command(&mut self.current);
        if !self.first {
            if self.commands.len() == 0 {
                let ghost c0 = command_view(command);
                let bin_name = command.name.clone();
                command.bin_name = Some(bin_name);
                command.name = String::new();
                assert(command_view(command) =~= CommandView {
                    bin_name: Some(c0.name),
                    name: Seq::empty(),
                    ..c0
                });
            }
            let ghost cmds = self.commands@;
            let ghost cv = command_view(command);
            self.commands.push(command);
            assert(self.commands@.drop_last() =~= cmds);
            assert(command_views(self.commands@) =~= command_views(cmds).push(cv));
        } else {
            self.first = false;
        }
        self.current = CommandSpec::new(String::new(), Mask::new(level));
        assert(self@ =~= heading_started(st, level));
    }

    fn start_list(&mut self)
        requires
            old(self).list_level < usize::MAX,
        ensures
            final(self)@ == list_started(old(self)@),
    {
        let ghost st = self@;
        if str_eq(self.text.as_str(), "OPTIONS") || self.list_level > 0 {
            self.list_level = self.list_level + 1;
        }
        assert(self@ =~= list_started(st));
    }

    fn reset_text(&mut self)
        ensures
            final(self)@ == started(old(self)@),
    {
        let ghost st = self@;
        self.text = String::new();
        assert(self@ =~= started(st));
    }

    fn end_heading(&mut self)
        ensures
            final(self)@ == heading_ended(old(self)@),
    {
        let ghost st = self@;
        let text = take_string(&mut self.text);
        let (names, mut args, mut groups) = parse_command_name_required_and_optional_args(text);
        let (name, mut aliases) = parse_command_name_and_aliases(names);
        let ghost c0 = command_view(self.current);
        let ghost a0 = self.current.args@;
        let ghost al0 = self.current.aliases@;
        let ghost g0 = self.current.groups@;
        let ghost new_args = args@;
        let ghost new_aliases = aliases@;
        self.current.name = name;
        self.current.args.append(&mut args);
        self.current.aliases.append(&mut aliases);
        self.current.groups.append(&mut groups);
        assert(self.current.groups@ =~= g0);
        assert(arg_views(self.current.args@) =~= arg_views(a0) + arg_views(new_args));
        assert(views(self.current.aliases@) =~= views(al0) + views(new_aliases));
        assert(command_view(self.current) =~= heading_ended(st).current);
        assert(self@ =~= heading_ended(st));
    }

    fn end_list(&mut self)
        ensures
            final(self)@ == list_ended(old(self)@),
    {
        let ghost st = self@;
        self.list_level = if self.list_level > 0 { self.list_level - 1 } else { 0 };
        if self.list_level == 1 {
            let arg = take_arg(&mut self.option);
            let ghost a0 = self.current.args@;
            let ghost av = arg@;
            self.current.args.push(arg);
            assert(arg_views(self.current.args@) =~= arg_views(a0).push(av));
        }
        assert(self@ =~= list_ended(st));
    }

    fn end_block_quote(&mut self)
        ensures
            final(self)@ == block_quote_ended(old(self)@),
    {
        let ghost st = self@;
        let about = take_string(&mut self.text);
        self.current.about = Some(about);
        assert(self@ =~= block_quote_ended(st));
    }

    fn end_code_block(&mut self, lang_code: &String)
        ensures
            final(self)@ == code_block_ended(old(self)@, lang_code@),
    {
        let ghost st = self@;
        let script = Script { lang_code: lang_code.clone(), content: take_string(&mut self.text) };
        self.current.mask.push_script(script);
        assert(self@ =~= code_block_ended(st, lang_code@));
    }
}

fn split_option_line(cs: &Vec<char>) -> (r: (Vec<char>, Vec<char>))
    ensures
        (r.0@, r.1@) == option_param(cs@),
{
    assert(cs@.subrange(0, cs@.len() as int) =~= cs@);
    proof {
        crate::text::lemma_index_of(cs@, ':');
    }
    match crate::text::find_char(cs, 0, cs.len(), ':') {
        Some(i) => {
            assert(cs@.subrange(0, i as int) =~= cs@.take(i as int));
            assert(cs@.subrange(i + 1, cs@.len() as int) =~= cs@.skip(i + 1));
            let param = crate::text::trimmed_chars(cs, 0, i);
            let val = crate::text::trimmed_chars(cs, i + 1, cs.len());
            (param, val)
        },
        None => {
            let param = crate::text::trimmed_chars(cs, 0, cs.len());
            let val: Vec<char> = Vec::new();
            proof {
                reveal_strlit("");
            }
            assert(val@ =~= Seq::<char>::empty());
            (param, val)
        },
    }
}

fn bars_for_spaces_exec(cs: &Vec<char>) -> (r: Vec<char>)
    ensures
        r@ == bars_for_spaces(cs@),
{
    let mut r: Vec<char> = Vec::new();
    let mut i: usize = 0;
    while i < cs.len()
        invariant
            i <= cs@.len(),
            r@ == bars_for_spaces(cs@.take(i as int)),
        decreases cs.len() - i,
    {
        let c = cs[i];
        r.push(if c == ' ' { '|' } else { c });
        i = i + 1;
        assert(r@ =~= bars_for_spaces(cs@.take(i as int)));
    }
    assert(cs@.take(cs@.len() as int) =~= cs@);
    r
}

fn configure_option(option: ArgSpec, param: &Vec<char>, val: Vec<char>) -> (r: ArgSpec)
    requires
        param@ != "choices"@,
    ensures
        r@ == option_set(option@, param@, val@),
{
    let mut option = option;
    if chars_eq(param, "desc") {
        let ghost a0 = option@;
        option.help = Some(crate::text::string_of(&val));
        assert(option@ =~= option_set(a0, param@, val@));
        option
    } else if chars_eq(param, "type") {
        crate::arg_type::parse(option, crate::text::string_of(&val))
    } else if chars_eq(param, "flags") {
        let bars = bars_for_spaces_exec(&val);
        let (new_arg, _, _) = crate::argument::parse(option, &bars, 0, 0);
        new_arg
    } else if chars_eq(param, "choices") {
        option
    } else if chars_eq(param, "required") {
        let ghost a0 = option@;
        option.required = true;
        assert(option@ =~= option_set(a0, param@, val@));
        option
    } else {
        option
    }
}

impl Builder {
    fn read_text(&mut self, body: &String) -> (applied: bool)
        ensures
            applied == !requests_choices(old(self)@, MdEventView::Text(body@)),
            applied ==> final(self)@ == text_read(old(self)@, body@),
            !applied ==> final(self)@ == old(self)@,
    {
        let ghost st = self@;
        if self.list_level == 1 {
            self.text.append(body.as_str());
            let id = take_string(&mut self.text);
            self.option.id = id;
            assert(self@ =~= text_read(st, body@));
            true
        } else if self.list_level == 2 {
            let mut content = self.text.clone();
            content.append(body.as_str());
            let cs = chars_of(content.as_str());
            let (param, val) = split_option_line(&cs);
            if chars_eq(&param, "choices") {
                return false;
            }
            self.text = String::new();
            let option = take_arg(&mut self.option);
            self.option = configure_option(option, &param, val);
            assert(self@ =~= text_read(st, body@));
            true
        } else {
            self.text.append(body.as_str());
            assert(self@ =~= text_read(st, body@));
            true
        }
    }

    fn step(&mut self, ev: &MdEvent) -> (applied: bool)
        requires
            old(self)@.list_level < usize::MAX,
        ensures
            applied == !requests_choices(old(self)@, ev@),
            applied ==> final(self)@ == event_step(old(self)@, ev@),
            !applied ==> final(self)@ == old(self)@,
            final(self)@.list_level <= old(self)@.list_level + 1,
    {
        let ghost st = self@;
        match ev {
            MdEvent::StartHeading(level) => {
                self.start_heading(*level);
                self.reset_text();
                true
            },
            MdEvent::StartList => {
                self.start_list();
                self.reset_text();
                true
            },
            MdEvent::StartOther => {
                self.reset_text();
                true
            },
            MdEvent::EndHeading(_) => {
                self.end_heading();
                true
            },
            MdEvent::EndBlockQuote => {
                self.end_block_quote();
                true
            },
            MdEvent::EndCodeBlock(lang_code) => {
                self.end_code_block(lang_code);
                true
            },
            MdEvent::EndList => {
                self.end_list();
                true
            },
            MdEvent::Text(body) => self.read_text(body),
            MdEvent::InlineHtml(html) => {
                self.text.append(html.as_str());
                assert(self@ =~= event_step(st, ev@));
                true
            },
            MdEvent::Code(code) => {
                self.text.append("`");
                self.text.append(code.as_str());
                self.text.append("`");
                assert(self@ =~= event_step(st, ev@));
                true
            },
            MdEvent::Other => true,
        }
    }
}

/// Builds the root command that a sequence of markdown events describes:
/// each heading a command, nested by level under the first heading's command,
/// which becomes the root.
pub fn parse_events(events: &Vec<MdEvent>) -> (root: CommandSpec)
    requires
        choices_free(event_views(events@)),
    ensures
        command_view(root) == parsed_maskfile(event_views(events@)),
{
    let ghost evs = event_views(events@);
    let mut b = Builder::new();
    let mut i: usize = 0;
    assert(evs.take(0) =~= Seq::<MdEventView>::empty());
    while i < events.len()
        invariant
            evs == event_views(events@),
            i <= events@.len(),
            choices_free(evs),
            b@ == parse_states(evs.take(i as int)),
            b@.list_level <= i,
        decreases events.len() - i,
    {
        assert(evs.take(i + 1).drop_last() =~= evs.take(i as int));
        assert(!requests_choices(parse_states(evs.take(i as int)), evs[i as int]));
        b.step(&events[i]);
        i = i + 1;
    }
    assert(evs.take(events@.len() as int) =~= evs);
    let Builder { mut commands, current, option: _, text: _, list_level: _, first: _ } = b;
    let ghost st = parse_states(evs);
    let ghost cv = command_view(current);
    let ghost cmds0 = commands@;
    commands.push(current);
    proof {
        assert(commands@.drop_last() =~= cmds0);
        lemma_command_views(commands@);
        assert(command_views(commands@) =~= st.commands.push(st.current));
    }
    let ghost all = command_views(commands@);
    let mut root = commands.remove(0);
    proof {
        lemma_command_views(commands@);
        assert(command_views(commands@) =~= all.drop_first());
    }
    let ghost r0 = command_view(root);
    let (mut subcommands, _) = treeify_commands(&root, &mut commands);
    let ghost subs0 = root.subcommands@;
    let ghost added = subcommands@;
    root.subcommands.append(&mut subcommands);
    proof {
        lemma_command_views_concat(subs0, added);
    }
    assert(command_view(root) =~= parsed_tree(st));
    root
}

/// Whether some event is an option line `choices: ...`.
pub fn events_request_choices(events: &Vec<MdEvent>) -> (b: bool)
    ensures
        b == !choices_free(event_views(events@)),
{
    let ghost evs = event_views(events@);
    let mut st = Builder::new();
    let mut i: usize = 0;
    assert(evs.take(0) =~= Seq::<MdEventView>::empty());
    while i < events.len()
        invariant
            evs == event_views(events@),
            i <= events@.len(),
            st@ == parse_states(evs.take(i as int)),
            st@.list_level <= i,
            forall|j: int|
                0 <= j < i ==> !#[trigger] requests_choices(parse_states(evs.take(j)), evs[j]),
        decreases events.len() - i,
    {
        assert(evs.take(i + 1).drop_last() =~= evs.take(i as int));
        if !st.step(&events[i]) {
            assert(requests_choices(parse_states(evs.take(i as int)), evs[i as int]));
            return true;
        }
        i = i + 1;
    }
    false
}

/// Reads a task file into its root command, whose subcommands are the tasks.
/// An option line `choices: ...` has no reading.
pub fn parse(maskfile_contents: String) -> (root: CommandSpec)
    requires
        choices_free(markdown_events(maskfile_contents@)),
    ensures
        command_view(root) == parsed_maskfile(markdown_events(maskfile_contents@)),
        tree_strict(command_view(root)),
{
    let events = markdown_events_of(maskfile_contents.as_str());
    proof {
        let evs = event_views(events@);
        assert forall|i: int| 0 <= i < evs.len() implies (#[trigger] evs[i] matches MdEventView::StartHeading(l) ==> l >= 1) by {
            assert(heading_levels_valid(evs));
        }
        law_parsed_tree_strict(evs);
    }
    parse_events(&events)
}

/// Reads a task file as `parse` does, or gives `None` where it holds an
/// option line `choices: ...`.
pub fn parse_checked(maskfile_contents: String) -> (root: Option<CommandSpec>)
    ensures
        match root {
            Some(r) => choices_free(markdown_events(maskfile_contents@)) && command_view(r)
                == parsed_maskfile(markdown_events(maskfile_contents@)) && tree_strict(
                command_view(r),
            ),
            None => !choices_free(markdown_events(maskfile_contents@)),
        },
{
    let events = markdown_events_of(maskfile_contents.as_str());
    if events_request_choices(&events) {
        None
    } else {
        Some(parse(maskfile_contents))
    }
}

} // verus!
