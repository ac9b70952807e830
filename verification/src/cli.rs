//! A command-line description in plain values: the arguments and commands
//! that the task file declares, in the terms of clap's builder.

use vstd::prelude::*;
use clap::ValueHint;
use crate::text::views;
use crate::types::{Mask, MaskView};

verus! {

/// clap's completion hint for an argument value.
#[verifier::external_type_specification]
#[verifier::external_body]
pub struct ExValueHint(ValueHint);

/// What clap's `ValueHint::from_str` gives for a name.
pub uninterp spec fn value_hint_named(name: Seq<char>) -> Option<ValueHint>;

/// ASCII lower-casing of one character.
pub open spec fn ascii_lower(c: char) -> char {
    if 'A' <= c && c <= 'Z' {
        ((c as int) + 32) as char
    } else {
        c
    }
}

/// The names that `ValueHint::from_str` accepts, compared after ASCII lower-casing.
pub open spec fn is_value_hint_name(name: Seq<char>) -> bool {
    let l = name.map_values(|c: char| ascii_lower(c));
    ||| l == "unknown"@
    ||| l == "other"@
    ||| l == "anypath"@
    ||| l == "filepath"@
    ||| l == "dirpath"@
    ||| l == "executablepath"@
    ||| l == "commandname"@
    ||| l == "commandstring"@
    ||| l == "commandwitharguments"@
    ||| l == "username"@
    ||| l == "hostname"@
    ||| l == "url"@
    ||| l == "emailaddress"@
}

/// Calls `<clap::ValueHint as FromStr>::from_str`. Its result is named
/// `value_hint_named`; it succeeds exactly on the names of `is_value_hint_name`.
#[verifier::external_body]
pub(crate) fn value_hint_from_str(name: &str) -> (r: Option<ValueHint>)
    ensures
        r == value_hint_named(name@),
        r is Some <==> is_value_hint_name(name@),
{
    <ValueHint as std::str::FromStr>::from_str(name).ok()
}

/// The value parsers that a type name selects.
#[derive(Debug, Clone, Copy, PartialEq, Eq, Structural)]
pub enum ValueKind {
    Bool,
    String,
    OsString,
    PathBuf,
    U8,
    U16,
    U32,
    U64,
    I8,
    I16,
    I32,
    I64,
    Usize,
    Isize,
    F32,
    F64,
}

/// What clap does with the values of an argument.
#[derive(Debug, Clone, Copy, PartialEq, Eq, Structural)]
pub enum Action {
    SetValue,
    Append,
    SetTrue,
    SetFalse,
}

/// When the help output is colored.
#[derive(Debug, Clone, Copy, PartialEq, Eq, Structural)]
pub enum Coloring {
    Auto,
    Always,
    Never,
}

/// One argument of a command, as clap's `Arg` builder would have it.
#[derive(Debug)]
pub struct ArgSpec {
    pub id: String,
    pub index: Option<usize>,
    pub required: bool,
    pub groups: Vec<String>,
    pub long: Option<String>,
    pub aliases: Vec<String>,
    pub visible_aliases: Vec<String>,
    pub short: Option<char>,
    pub short_aliases: Vec<char>,
    pub visible_short_aliases: Vec<char>,
    pub last: bool,
    pub trailing_var_arg: bool,
    pub exclusive: bool,
    pub global: bool,
    pub ignore_case: bool,
    pub allow_negative_numbers: bool,
    pub require_equals: bool,
    pub raw: bool,
    pub hidden: bool,
    pub env: Option<String>,
    pub value_names: Vec<String>,
    pub value_parser: Option<ValueKind>,
    pub action: Option<Action>,
    pub default_value: Option<String>,
    pub default_missing_value: Option<String>,
    pub value_hint: Option<ValueHint>,
    pub help: Option<String>,
}

/// The value of an optional string.
pub open spec fn opt_view(o: Option<String>) -> Option<Seq<char>> {
    match o {
        Some(s) => Some(s@),
        None => None,
    }
}

/// The value of an `ArgSpec`.
#[verifier::ext_equal]
pub struct ArgView {
    pub id: Seq<char>,
    pub index: Option<usize>,
    pub required: bool,
    pub groups: Seq<Seq<char>>,
    pub long: Option<Seq<char>>,
    pub aliases: Seq<Seq<char>>,
    pub visible_aliases: Seq<Seq<char>>,
    pub short: Option<char>,
    pub short_aliases: Seq<char>,
    pub visible_short_aliases: Seq<char>,
    pub last: bool,
    pub trailing_var_arg: bool,
    pub exclusive: bool,
    pub global: bool,
    pub ignore_case: bool,
    pub allow_negative_numbers: bool,
    pub require_equals: bool,
    pub raw: bool,
    pub hidden: bool,
    pub env: Option<Seq<char>>,
    pub value_names: Seq<Seq<char>>,
    pub value_parser: Option<ValueKind>,
    pub action: Option<Action>,
    pub default_value: Option<Seq<char>>,
    pub default_missing_value: Option<Seq<char>>,
    pub value_hint: Option<ValueHint>,
    pub help: Option<Seq<char>>,
}

impl View for ArgSpec {
    type V = ArgView;

    open spec fn view(&self) -> ArgView {
        ArgView {
            id: self.id@,
            index: self.index,
            required: self.required,
            groups: views(self.groups@),
            long: opt_view(self.long),
            aliases: views(self.aliases@),
            visible_aliases: views(self.visible_aliases@),
            short: self.short,
            short_aliases: self.short_aliases@,
            visible_short_aliases: self.visible_short_aliases@,
            last: self.last,
            trailing_var_arg: self.trailing_var_arg,
            exclusive: self.exclusive,
            global: self.global,
            ignore_case: self.ignore_case,
            allow_negative_numbers: self.allow_negative_numbers,
            require_equals: self.require_equals,
            raw: self.raw,
            hidden: self.hidden,
            env: opt_view(self.env),
            value_names: views(self.value_names@),
            value_parser: self.value_parser,
            action: self.action,
            default_value: opt_view(self.default_value),
            default_missing_value: opt_view(self.default_missing_value),
            value_hint: self.value_hint,
            help: opt_view(self.help),
        }
    }
}

/// The argument that `Arg::new(id)` builds.
pub open spec fn new_arg_view(id: Seq<char>) -> ArgView {
    ArgView {
        id,
        index: None,
        required: false,
        groups: Seq::empty(),
        long: None,
        aliases: Seq::empty(),
        visible_aliases: Seq::empty(),
        short: None,
        short_aliases: Seq::empty(),
        visible_short_aliases: Seq::empty(),
        last: false,
        trailing_var_arg: false,
        exclusive: false,
        global: false,
        ignore_case: false,
        allow_negative_numbers: false,
        require_equals: false,
        raw: false,
        hidden: false,
        env: None,
        value_names: Seq::empty(),
        value_parser: None,
        action: None,
        default_value: None,
        default_missing_value: None,
        value_hint: None,
        help: None,
    }
}

impl ArgSpec {
    /// An argument with the given id and nothing else set.
    pub fn new(id: String) -> (a: ArgSpec)
        ensures
            a@ == new_arg_view(id@),
    {
        let a = ArgSpec {
            id,
            index: None,
            required: false,
            groups: Vec::new(),
            long: None,
            aliases: Vec::new(),
            visible_aliases: Vec::new(),
            short: None,
            short_aliases: Vec::new(),
            visible_short_aliases: Vec::new(),
            last: false,
            trailing_var_arg: false,
            exclusive: false,
            global: false,
            ignore_case: false,
            allow_negative_numbers: false,
            require_equals: false,
            raw: false,
            hidden: false,
            env: None,
            value_names: Vec::new(),
            value_parser: None,
            action: None,
            default_value: None,
            default_missing_value: None,
            value_hint: None,
            help: None,
        };
        assert(a@ =~= new_arg_view(id@));
        a
    }
}

/// A group of arguments.
#[derive(Debug)]
pub struct GroupSpec {
    pub id: String,
    pub args: Vec<String>,
}

/// The value of a `GroupSpec`.
#[verifier::ext_equal]
pub struct GroupView {
    pub id: Seq<char>,
    pub args: Seq<Seq<char>>,
}

impl View for GroupSpec {
    type V = GroupView;

    open spec fn view(&self) -> GroupView {
        GroupView { id: self.id@, args: views(self.args@) }
    }
}

/// A command, with its task data and its subcommands.
#[derive(Debug)]
pub struct CommandSpec {
    pub name: String,
    pub bin_name: Option<String>,
    pub about: Option<String>,
    pub after_help: Option<String>,
    pub after_long_help: Option<String>,
    pub version: Option<String>,
    pub disable_version_flag: bool,
    pub color: Option<Coloring>,
    pub aliases: Vec<String>,
    pub args: Vec<ArgSpec>,
    pub groups: Vec<GroupSpec>,
    pub subcommands: Vec<CommandSpec>,
    pub mask: Mask,
}

/// The value of a `CommandSpec`.
#[verifier::ext_equal]
pub struct CommandView {
    pub name: Seq<char>,
    pub bin_name: Option<Seq<char>>,
    pub about: Option<Seq<char>>,
    pub after_help: Option<Seq<char>>,
    pub after_long_help: Option<Seq<char>>,
    pub version: Option<Seq<char>>,
    pub disable_version_flag: bool,
    pub color: Option<Coloring>,
    pub aliases: Seq<Seq<char>>,
    pub args: Seq<ArgView>,
    pub groups: Seq<GroupView>,
    pub subcommands: Seq<CommandView>,
    pub mask: MaskView,
}

/// The views of a sequence of arguments.
pub open spec fn arg_views(s: Seq<ArgSpec>) -> Seq<ArgView> {
    s.map_values(|x: ArgSpec| x@)
}

/// The views of a sequence of groups.
pub open spec fn group_views(s: Seq<GroupSpec>) -> Seq<GroupView> {
    s.map_values(|x: GroupSpec| x@)
}

/// The value of a command, subcommands included.
pub open spec fn command_view(c: CommandSpec) -> CommandView
    decreases c,
{
    CommandView {
        name: c.name@,
        bin_name: opt_view(c.bin_name),
        about: opt_view(c.about),
        after_help: opt_view(c.after_help),
        after_long_help: opt_view(c.after_long_help),
        version: opt_view(c.version),
        disable_version_flag: c.disable_version_flag,
        color: c.color,
        aliases: views(c.aliases@),
        args: arg_views(c.args@),
        groups: group_views(c.groups@),
        subcommands: command_views(c.subcommands@),
        mask: c.mask@,
    }
}

/// The values of a sequence of commands.
pub open spec fn command_views(s: Seq<CommandSpec>) -> Seq<CommandView>
    decreases s,
{
    if s.len() == 0 {
        Seq::empty()
    } else {
        command_views(s.drop_last()).push(command_view(s.last()))
    }
}

/// The command that `Command::new(name)` builds, with the task data `mask`.
pub open spec fn new_command_view(name: Seq<char>, mask: MaskView) -> CommandView {
    CommandView {
        name,
        bin_name: None,
        about: None,
        after_help: None,
        after_long_help: None,
        version: None,
        disable_version_flag: false,
        color: None,
        aliases: Seq::empty(),
        args: Seq::empty(),
        groups: Seq::empty(),
        subcommands: Seq::empty(),
        mask,
    }
}

impl CommandSpec {
    /// A command with the given name and task data, and nothing else set.
    pub fn new(name: String, mask: Mask) -> (c: CommandSpec)
        ensures
            command_view(c) == new_command_view(name@, mask@),
    {
        let c = CommandSpec {
            name,
            bin_name: None,
            about: None,
            after_help: None,
            after_long_help: None,
            version: None,
            disable_version_flag: false,
            color: None,
            aliases: Vec::new(),
            args: Vec::new(),
            groups: Vec::new(),
            subcommands: Vec::new(),
            mask,
        };
        proof {
            lemma_command_views(c.subcommands@);
        }
        assert(command_view(c) =~= new_command_view(name@, mask@));
        c
    }
}

/// `command_views` maps each command to its value.
pub proof fn lemma_command_views(s: Seq<CommandSpec>)
    ensures
        command_views(s).len() == s.len(),
        forall|i: int| 0 <= i < s.len() ==> #[trigger] command_views(s)[i] == command_view(s[i]),
    decreases s.len(),
{
    if s.len() > 0 {
        lemma_command_views(s.drop_last());
    }
}

/// The values of the commands of `a + b`.
pub proof fn lemma_command_views_concat(a: Seq<CommandSpec>, b: Seq<CommandSpec>)
    ensures
        command_views(a + b) == command_views(a) + command_views(b),
{
    lemma_command_views(a);
    lemma_command_views(b);
    lemma_command_views(a + b);
    assert(command_views(a + b) =~= command_views(a) + command_views(b));
}

/// The value of an optional command, as a sequence of zero or one value.
pub open spec fn opt_command_views(o: Option<CommandSpec>) -> Seq<CommandView> {
    match o {
        Some(c) => seq![command_view(c)],
        None => Seq::empty(),
    }
}

impl View for CommandSpec {
    type V = CommandView;

    open spec fn view(&self) -> CommandView {
        command_view(*self)
    }
}

} // verus!
