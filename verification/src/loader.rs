//! The command line of the task runner itself: where the task file is, which
//! help to show, and which program runs each language.

use vstd::prelude::*;
use crate::cli::{
    command_view, value_hint_from_str, value_hint_named, Action, ArgSpec, ArgView, Coloring,
    CommandSpec, CommandView, GroupSpec, GroupView, ValueKind,
};
use crate::text::views;

verus! {

/// The name of the runner's own help option.
pub const OPT_HELP: &'static str = "maskhelp";
/// The name of the option that gives the task file.
pub const OPT_PATH: &'static str = "maskpath";
/// The hidden alias of `OPT_PATH`.
pub const OPT_PATH_HIDDEN: &'static str = "maskfile";
/// The name of the option that gives the task file's name.
pub const OPT_NAME: &'static str = "maskname";
/// The task file's name that is looked for by default.
pub const DEFAULT_FILE_NAME: &'static str = "maskfile.md";
/// The environment variable that overrides `DEFAULT_FILE_NAME`.
pub const DEFAULT_FILE_NAME_ENV: &'static str = "MASK_DEFAULT_FILE_NAME";
/// The environment variable that gives the task file.
pub const MASK_PATH_ENV: &'static str = "MASK_PATH";
/// The environment variable that gives the task file when `--maskpath` has no value.
pub const MASK_PATH_MISSING_ENV: &'static str = "MASK_PATH_MISSING";
/// The name of the runner.
pub const MASK_NAME: &'static str = "mask";
/// The version of the runner.
pub const MASK_VERSION: &'static str = "0.1.0";

/// The program that runs each language's code blocks.
#[allow(non_snake_case)]
#[derive(Debug)]
pub struct ExecConfig {
    pub Javascript: String,
    pub Python: String,
    pub Lua: String,
    pub Ruby: String,
    pub Php: String,
    pub Swift: String,
}

/// Which help was asked for before the task file was read.
#[derive(Debug)]
pub struct Help {
    long: bool,
    short: bool,
}

/// The help that is shown instead of running a task.
#[derive(Debug, Clone, Copy, PartialEq, Eq, Structural)]
pub enum HelpKind {
    Long,
    Short,
}

impl Help {
    /// `--help` asks for the long help, `-h` for the short one.
    pub fn new(long: bool, short: bool) -> (h: Help)
        ensures
            h.is_long() == long,
            h.is_short() == short,
    {
        Help { long, short }
    }

    /// Whether `--help` was given.
    pub closed spec fn is_long(&self) -> bool {
        self.long
    }

    /// Whether `-h` was given.
    pub closed spec fn is_short(&self) -> bool {
        self.short
    }
}

/// Where the task file is, the programs for each language, and the help
/// asked for.
#[derive(Debug)]
pub struct Config {
    /// The task file, as text.
    pub path: String,
    pub exec_config: ExecConfig,
    pub help: Help,
}

impl Config {
    /// The root command with the task file's path as its description and
    /// after its help.
    pub fn improve_helper(&self, root: CommandSpec) -> (r: CommandSpec)
        ensures
            command_view(r) == (CommandView {
                after_help: Some(self.path@),
                after_long_help: Some(self.path@),
                about: Some(self.path@),
                ..command_view(root)
            }),
    {
        let ghost c0 = command_view(root);
        let mut root = root;
        root.after_help = Some(self.path.clone());
        root.after_long_help = Some(self.path.clone());
        root.about = Some(self.path.clone());
        assert(command_view(root) =~= CommandView {
            after_help: Some(self.path@),
            after_long_help: Some(self.path@),
            about: Some(self.path@),
            ..c0
        });
        root
    }

    /// The help to show instead of running a task: the long one for
    /// `--help`, else the short one for `-h`, else none.
    pub fn skipped_help(&self) -> (h: Option<HelpKind>)
        ensures
            h == (if self.help.is_long() {
                Some(HelpKind::Long)
            } else if self.help.is_short() {
                Some(HelpKind::Short)
            } else {
                None
            }),
    {
        if self.help.long {
            Some(HelpKind::Long)
        } else if self.help.short {
            Some(HelpKind::Short)
        } else {
            None
        }
    }
}

/// The runner's own help option.
pub open spec fn mask_help_arg() -> ArgView {
    ArgView {
        long: Some("maskhelp"@),
        action: Some(Action::SetTrue),
        help: Some("Show the global mask help."@),
        ..crate::cli::new_arg_view("maskhelp"@)
    }
}

/// The root command named after the runner, with its version, colored help,
/// no version flag, and the runner's help option.
pub fn root_setup(root: CommandSpec) -> (r: CommandSpec)
    ensures
        command_view(r) == (CommandView {
            name: "mask"@,
            disable_version_flag: true,
            color: Some(Coloring::Always),
            version: Some("0.1.0"@),
            args: command_view(root).args.push(mask_help_arg()),
            ..command_view(root)
        }),
{
    let ghost c0 = command_view(root);
    let mut root = root;
    root.name = String::from_str(MASK_NAME);
    root.disable_version_flag = true;
    root.color = Some(Coloring::Always);
    root.version = Some(String::from_str(MASK_VERSION));
    let mut help = ArgSpec::new(String::from_str(OPT_HELP));
    help.long = Some(String::from_str(OPT_HELP));
    help.action = Some(Action::SetTrue);
    help.help = Some(String::from_str("Show the global mask help."));
    let ghost a0 = root.args@;
    assert(help@ =~= mask_help_arg());
    root.args.push(help);
    assert(crate::cli::arg_views(root.args@) =~= crate::cli::arg_views(a0).push(mask_help_arg()));
    assert(command_view(root) =~= CommandView {
        name: "mask"@,
        disable_version_flag: true,
        color: Some(Coloring::Always),
        version: Some("0.1.0"@),
        args: c0.args.push(mask_help_arg()),
        ..c0
    });
    root
}

/// The option that gives the task file; `default_path` is the task file
/// found from the current directory up, `missing_path` the value of
/// `MASK_PATH_MISSING`.
pub fn arg_path(default_path: Option<String>, missing_path: Option<String>) -> (a: ArgSpec)
    ensures
        a@ == (ArgView {
            help: Some("The markdown file to build a CLI with."@),
            long: Some("maskpath"@),
            aliases: seq!["maskfile"@],
            value_parser: Some(ValueKind::PathBuf),
            default_value: crate::cli::opt_view(default_path),
            env: Some("MASK_PATH"@),
            default_missing_value: crate::cli::opt_view(missing_path),
            value_hint: value_hint_named("filepath"@),
            ..crate::cli::new_arg_view("maskpath"@)
        }),
{
    let mut a = ArgSpec::new(String::from_str(OPT_PATH));
    let ghost a0 = a@;
    a.help = Some(String::from_str("The markdown file to build a CLI with."));
    a.long = Some(String::from_str(OPT_PATH));
    a.aliases.push(String::from_str(OPT_PATH_HIDDEN));
    a.value_parser = Some(ValueKind::PathBuf);
    a.default_value = default_path;
    a.env = Some(String::from_str(MASK_PATH_ENV));
    a.default_missing_value = missing_path;
    a.value_hint = value_hint_from_str("filepath");
    assert(views(a.aliases@) =~= seq!["maskfile"@]);
    assert(a@ =~= ArgView {
        help: Some("The markdown file to build a CLI with."@),
        long: Some("maskpath"@),
        aliases: seq!["maskfile"@],
        value_parser: Some(ValueKind::PathBuf),
        default_value: crate::cli::opt_view(default_path),
        env: Some("MASK_PATH"@),
        default_missing_value: crate::cli::opt_view(missing_path),
        value_hint: value_hint_named("filepath"@),
        ..a0
    });
    a
}

/// The option that gives the name of the task file to look for.
pub fn arg_name() -> (a: ArgSpec)
    ensures
        a@ == (ArgView {
            help: Some("The name of the markdown file to look for."@),
            long: Some("maskname"@),
            value_parser: Some(ValueKind::String),
            default_value: Some("maskfile.md"@),
            env: Some("MASK_DEFAULT_FILE_NAME"@),
            ..crate::cli::new_arg_view("maskname"@)
        }),
{
    let mut a = ArgSpec::new(String::from_str(OPT_NAME));
    let ghost a0 = a@;
    a.help = Some(String::from_str("The name of the markdown file to look for."));
    a.long = Some(String::from_str(OPT_NAME));
    a.value_parser = Some(ValueKind::String);
    a.default_value = Some(String::from_str(DEFAULT_FILE_NAME));
    a.env = Some(String::from_str(DEFAULT_FILE_NAME_ENV));
    assert(a@ =~= ArgView {
        help: Some("The name of the markdown file to look for."@),
        long: Some("maskname"@),
        value_parser: Some(ValueKind::String),
        default_value: Some("maskfile.md"@),
        env: Some("MASK_DEFAULT_FILE_NAME"@),
        ..a0
    });
    a
}

/// Whether the task file given on the command line or in `MASK_PATH` is
/// taken: when one was given and it is not the default (otherwise the file is
/// looked for by name).
pub fn takes_given_path(path_is_default: bool, path_given: bool) -> (r: bool)
    ensures
        r == (!path_is_default && path_given),
{
    !path_is_default && path_given
}

/// The program that runs JavaScript code blocks by default.
pub const DEFAULT_EXEC_JAVASCRIPT: &'static str = "node";
/// The program that runs Python code blocks by default.
pub const DEFAULT_EXEC_PYTHON: &'static str = "python";
/// The program that runs Lua code blocks by default.
pub const DEFAULT_EXEC_LUA: &'static str = "lua";
/// The program that runs Ruby code blocks by default.
pub const DEFAULT_EXEC_RUBY: &'static str = "ruby";
/// The program that runs PHP code blocks by default.
pub const DEFAULT_EXEC_PHP: &'static str = "php";
/// The program that runs Swift code blocks by default.
pub const DEFAULT_EXEC_SWIFT: &'static str = "swift";
/// The variable that sets the program for JavaScript.
pub const MASK_EXEC_JAVASCRIPT: &'static str = "MASK_EXEC_JAVASCRIPT";
/// The variable that sets the program for Python.
pub const MASK_EXEC_PYTHON: &'static str = "MASK_EXEC_PYTHON";
/// The variable that sets the program for Lua.
pub const MASK_EXEC_LUA: &'static str = "MASK_EXEC_LUA";
/// The variable that sets the program for Ruby.
pub const MASK_EXEC_RUBY: &'static str = "MASK_EXEC_RUBY";
/// The variable that sets the program for PHP.
pub const MASK_EXEC_PHP: &'static str = "MASK_EXEC_PHP";
/// The variable that sets the program for Swift.
pub const MASK_EXEC_SWIFT: &'static str = "MASK_EXEC_SWIFT";

/// The option that sets the program of a language.
pub open spec fn executable_arg_view(language: Seq<char>, default: Seq<char>, env: Seq<char>) -> ArgView {
    ArgView {
        long: Some(language),
        help: Some("Set the executable to run $Lang's code block."@),
        value_names: seq!["Exec"@],
        value_parser: Some(ValueKind::String),
        value_hint: value_hint_named("commandname"@),
        default_value: Some(default),
        env: Some(env),
        ..crate::cli::new_arg_view(language)
    }
}

fn executable_arg(language: &str, default: &str, env: &str) -> (a: ArgSpec)
    ensures
        a@ == executable_arg_view(language@, default@, env@),
{
    let mut a = ArgSpec::new(String::from_str(language));
    let ghost a0 = a@;
    a.long = Some(String::from_str(language));
    a.help = Some(String::from_str("Set the executable to run $Lang's code block."));
    a.value_names.push(String::from_str("Exec"));
    a.value_parser = Some(ValueKind::String);
    a.value_hint = value_hint_from_str("commandname");
    a.default_value = Some(String::from_str(default));
    a.env = Some(String::from_str(env));
    assert(a@ =~= executable_arg_view(language@, default@, env@));
    a
}

/// The options that set the program of each language.
pub fn executables_args() -> (args: Vec<ArgSpec>)
    ensures
        crate::cli::arg_views(args@) == seq![
            executable_arg_view("maskjavascript"@, "node"@, "MASK_EXEC_JAVASCRIPT"@),
            executable_arg_view("maskpython"@, "python"@, "MASK_EXEC_PYTHON"@),
            executable_arg_view("masklua"@, "lua"@, "MASK_EXEC_LUA"@),
            executable_arg_view("maskruby"@, "ruby"@, "MASK_EXEC_RUBY"@),
            executable_arg_view("maskphp"@, "php"@, "MASK_EXEC_PHP"@),
            executable_arg_view("maskswift"@, "swift"@, "MASK_EXEC_SWIFT"@),
        ],
{
    let mut args: Vec<ArgSpec> = Vec::new();
    args.push(executable_arg("maskjavascript", DEFAULT_EXEC_JAVASCRIPT, MASK_EXEC_JAVASCRIPT));
    args.push(executable_arg("maskpython", DEFAULT_EXEC_PYTHON, MASK_EXEC_PYTHON));
    args.push(executable_arg("masklua", DEFAULT_EXEC_LUA, MASK_EXEC_LUA));
    args.push(executable_arg("maskruby", DEFAULT_EXEC_RUBY, MASK_EXEC_RUBY));
    args.push(executable_arg("maskphp", DEFAULT_EXEC_PHP, MASK_EXEC_PHP));
    args.push(executable_arg("maskswift", DEFAULT_EXEC_SWIFT, MASK_EXEC_SWIFT));
    assert(crate::cli::arg_views(args@) =~= seq![
        executable_arg_view("maskjavascript"@, "node"@, "MASK_EXEC_JAVASCRIPT"@),
        executable_arg_view("maskpython"@, "python"@, "MASK_EXEC_PYTHON"@),
        executable_arg_view("masklua"@, "lua"@, "MASK_EXEC_LUA"@),
        executable_arg_view("maskruby"@, "ruby"@, "MASK_EXEC_RUBY"@),
        executable_arg_view("maskphp"@, "php"@, "MASK_EXEC_PHP"@),
        executable_arg_view("maskswift"@, "swift"@, "MASK_EXEC_SWIFT"@),
    ]);
    args
}

/// The group of the options that set the programs of the languages.
pub fn executables_group() -> (g: GroupSpec)
    ensures
        g@ == (GroupView {
            id: "executables"@,
            args: seq![
                "maskjavascript"@,
                "maskpython"@,
                "masklua"@,
                "maskruby"@,
                "maskphp"@,
                "maskswift"@,
            ],
        }),
{
    let mut ids: Vec<String> = Vec::new();
    ids.push(String::from_str("maskjavascript"));
    ids.push(String::from_str("maskpython"));
    ids.push(String::from_str("masklua"));
    ids.push(String::from_str("maskruby"));
    ids.push(String::from_str("maskphp"));
    ids.push(String::from_str("maskswift"));
    let g = GroupSpec { id: String::from_str("executables"), args: ids };
    assert(views(g.args@) =~= seq![
        "maskjavascript"@,
        "maskpython"@,
        "masklua"@,
        "maskruby"@,
        "maskphp"@,
        "maskswift"@,
    ]);
    g
}

} // verus!
