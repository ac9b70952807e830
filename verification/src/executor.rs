//! How a selected task's scripts run: which program runs each code block,
//! and the environment variables that the scripts see.

use vstd::prelude::*;
use crate::loader::{Config, ExecConfig};
use crate::text::{str_eq, views};
use crate::types::{script_views, Script, ScriptView};
use crate::cli::{command_view, command_views, lemma_command_views, CommandSpec, CommandView};

verus! {

/// A program to run and its arguments.
#[derive(Debug)]
pub struct Invocation {
    pub program: String,
    pub args: Vec<String>,
}

/// The program and arguments that run a code block of the language `lang`:
/// the configured program for the known scripting languages, otherwise the
/// language itself as a shell, with `-c`.
pub open spec fn invocation_for(lang: Seq<char>, content: Seq<char>, exec: ExecConfig) -> (
    Seq<char>,
    Seq<Seq<char>>,
) {
    if lang == "js"@ || lang == "javascript"@ {
        (exec.Javascript@, seq!["-e"@, content])
    } else if lang == "py"@ || lang == "python"@ {
        (exec.Python@, seq!["-c"@, content])
    } else if lang == "lua"@ {
        (exec.Lua@, seq!["-e"@, content])
    } else if lang == "rb"@ || lang == "ruby"@ {
        (exec.Ruby@, seq!["-e"@, content])
    } else if lang == "php"@ {
        (exec.Php@, seq!["-r"@, content])
    } else if lang == "swift"@ {
        (exec.Swift@, seq!["-e"@, content])
    } else {
        (lang, seq!["-c"@, content])
    }
}

fn invocation(program: &String, flag: &str, content: &String) -> (inv: Invocation)
    ensures
        inv.program@ == program@,
        views(inv.args@) == seq![flag@, content@],
{
    let mut args: Vec<String> = Vec::new();
    args.push(String::from_str(flag));
    args.push(content.clone());
    assert(views(args@) =~= seq![flag@, content@]);
    Invocation { program: program.clone(), args }
}

/// The program and arguments that run `script`.
pub fn prepare_command(script: &Script, config: &Config) -> (inv: Invocation)
    ensures
        (inv.program@, views(inv.args@)) == invocation_for(
            script.lang_code@,
            script.content@,
            config.exec_config,
        ),
{
    let lang = script.lang_code.as_str();
    let exec = &config.exec_config;
    if str_eq(lang, "js") || str_eq(lang, "javascript") {
        invocation(&exec.Javascript, "-e", &script.content)
    } else if str_eq(lang, "py") || str_eq(lang, "python") {
        invocation(&exec.Python, "-c", &script.content)
    } else if str_eq(lang, "lua") {
        invocation(&exec.Lua, "-e", &script.content)
    } else if str_eq(lang, "rb") || str_eq(lang, "ruby") {
        invocation(&exec.Ruby, "-e", &script.content)
    } else if str_eq(lang, "php") {
        invocation(&exec.Php, "-r", &script.content)
    } else if str_eq(lang, "swift") {
        invocation(&exec.Swift, "-e", &script.content)
    } else {
        invocation(&script.lang_code, "-c", &script.content)
    }
}

/// A script that cannot run: its code or its language is empty.
#[derive(Debug, Clone, Copy, PartialEq, Eq, Structural)]
pub enum ScriptError {
    MissingScript,
}

impl ScriptError {
    /// The message of the error.
    pub fn message(&self) -> (m: String)
        ensures
            m@ == "Command is missing script or lang code which determines which lang_code to use."@,
    {
        String::from_str(
            "Command is missing script or lang code which determines which lang_code to use.",
        )
    }
}

/// The invocation that runs `script`, or an error where its code or its
/// language is empty.
pub fn plan_script(script: &Script, config: &Config) -> (r: Result<Invocation, ScriptError>)
    ensures
        r is Err <==> (script.content@.len() == 0 || script.lang_code@.len() == 0),
        r matches Ok(inv) ==> (inv.program@, views(inv.args@)) == invocation_for(
            script.lang_code@,
            script.content@,
            config.exec_config,
        ),
{
    if script.content.as_str().is_empty() || script.lang_code.as_str().is_empty() {
        Err(ScriptError::MissingScript)
    } else {
        Ok(prepare_command(script, config))
    }
}

/// The value of the `MASK` variable, with which a script calls another task
/// of the file in `dir`.
pub fn mask_command_line(dir: &str) -> (s: String)
    ensures
        s@ == "mask --maskfile "@ + dir@,
{
    let mut s = String::from_str(crate::loader::MASK_NAME);
    s.append(" --maskfile ");
    s.append(dir);
    proof {
        reveal_strlit("mask");
        reveal_strlit(" --maskfile ");
        reveal_strlit("mask --maskfile ");
    }
    assert(s@ =~= "mask --maskfile "@ + dir@);
    s
}

/// The parts joined with `sep` between each two, as `[T]::join` gives them.
pub open spec fn joined(parts: Seq<Seq<u8>>, sep: Seq<u8>) -> Seq<u8>
    decreases parts.len(),
{
    if parts.len() == 0 {
        Seq::empty()
    } else if parts.len() == 1 {
        parts[0]
    } else {
        joined(parts.drop_last(), sep) + sep + parts.last()
    }
}

/// The values of a sequence of byte vectors.
pub open spec fn byte_views(s: Seq<Vec<u8>>) -> Seq<Seq<u8>> {
    s.map_values(|v: Vec<u8>| v@)
}

/// The value of a flag's variable: the values of each occurrence joined with
/// the delimiter, the occurrences joined with the terminator.
pub open spec fn flag_value_of(items: Seq<Vec<Vec<u8>>>, terminator: Seq<u8>, delimiter: Seq<u8>) -> Seq<u8> {
    joined(items.map_values(|item: Vec<Vec<u8>>| joined(byte_views(item@), delimiter)), terminator)
}

/// The default terminator of occurrences, `;`.
pub open spec fn default_terminator() -> Seq<u8> {
    seq![59u8]
}

/// The default delimiter of values, `,`.
pub open spec fn default_delimiter() -> Seq<u8> {
    seq![44u8]
}

fn join_bytes(parts: &Vec<Vec<u8>>, sep: &Vec<u8>) -> (r: Vec<u8>)
    ensures
        r@ == joined(byte_views(parts@), sep@),
{
    let ghost ps = byte_views(parts@);
    let mut r: Vec<u8> = Vec::new();
    let mut i: usize = 0;
    assert(ps.take(0) =~= Seq::<Seq<u8>>::empty());
    while i < parts.len()
        invariant
            ps == byte_views(parts@),
            i <= parts@.len(),
            r@ == joined(ps.take(i as int), sep@),
        decreases parts.len() - i,
    {
        assert(ps.take(i + 1).drop_last() =~= ps.take(i as int));
        if i > 0 {
            r.extend_from_slice(sep.as_slice());
        }
        r.extend_from_slice(parts[i].as_slice());
        i = i + 1;
        assert(r@ =~= joined(ps.take(i as int), sep@));
    }
    assert(ps.take(parts@.len() as int) =~= ps);
    r
}

/// The value of a flag's environment variable from its occurrences, the
/// terminator and the delimiter of its values (`;` and `,` by default).
pub fn flag_value(
    items: &Vec<Vec<Vec<u8>>>,
    terminator: Option<Vec<u8>>,
    delimiter: Option<Vec<u8>>,
) -> (r: Vec<u8>)
    ensures
        r@ == flag_value_of(
            items@,
            match terminator {
                Some(t) => t@,
                None => default_terminator(),
            },
            match delimiter {
                Some(d) => d@,
                None => default_delimiter(),
            },
        ),
{
    let sep_item: Vec<u8> = match terminator {
        Some(t) => t,
        None => vec![59u8],
    };
    let sep: Vec<u8> = match delimiter {
        Some(d) => d,
        None => vec![44u8],
    };
    assert(sep_item@ == (match terminator {
        Some(t) => t@,
        None => default_terminator(),
    })) by {
        if terminator is None {
            assert(sep_item@ =~= default_terminator());
        }
    }
    assert(sep@ == (match delimiter {
        Some(d) => d@,
        None => default_delimiter(),
    })) by {
        if delimiter is None {
            assert(sep@ =~= default_delimiter());
        }
    }
    let ghost all = items@.map_values(|item: Vec<Vec<u8>>| joined(byte_views(item@), sep@));
    let mut values: Vec<Vec<u8>> = Vec::new();
    let mut i: usize = 0;
    while i < items.len()
        invariant
            i <= items@.len(),
            all == items@.map_values(|item: Vec<Vec<u8>>| joined(byte_views(item@), sep@)),
            byte_views(values@) == all.take(i as int),
        decreases items.len() - i,
    {
        let v = join_bytes(&items[i], &sep);
        let ghost before = values@;
        values.push(v);
        assert(byte_views(values@) =~= byte_views(before).push(v@));
        assert(all.take(i + 1) =~= all.take(i as int).push(all[i as int]));
        i = i + 1;
    }
    assert(all.take(items@.len() as int) =~= all);
    join_bytes(&values, &sep_item)
}

/// The script lists of the selected subcommands of `root`, in the order of
/// the selection.
pub open spec fn selected_scripts(root: CommandView, selected: Seq<usize>) -> Seq<Seq<ScriptView>> {
    selected.map_values(|i: usize| root.subcommands[i as int].mask.scripts)
}

/// The position of the first script at or after script `s` of list `k`,
/// going through the lists in order; `None` where no script is left.
pub open spec fn next_script(lists: Seq<Seq<ScriptView>>, k: int, s: int) -> Option<(int, int)>
    decreases lists.len() - k,
{
    if k < 0 || k >= lists.len() {
        None
    } else if 0 <= s < lists[k].len() {
        Some((k, s))
    } else {
        next_script(lists, k + 1, 0)
    }
}

/// What the run of the selected tasks does next.
#[derive(Debug)]
pub enum RunStep {
    /// Runs `invocation`, for script `script` of selected command `command`;
    /// the run goes on after that script once it has run.
    Run { invocation: Invocation, command: usize, script: usize },
    /// Stops the run with an error.
    Fail(ScriptError),
    /// Every script has run.
    Finish,
}

/// The next step of running the scripts of the selected commands, from
/// script `script` of selected command `command` on: the run goes through the
/// commands and their scripts in order, stops at the first script whose code
/// or language is empty, and finishes after the last script.
pub fn next_step(
    root: &CommandSpec,
    selected: &Vec<usize>,
    command: usize,
    script: usize,
    config: &Config,
) -> (r: RunStep)
    requires
        forall|j: int| 0 <= j < selected@.len() ==> selected@[j] < root.subcommands@.len(),
    ensures
        ({
            let lists = selected_scripts(command_view(*root), selected@);
            match next_script(lists, command as int, script as int) {
                None => r is Finish,
                Some(p) => {
                    let sc = lists[p.0][p.1];
                    if sc.content.len() == 0 || sc.lang_code.len() == 0 {
                        r == RunStep::Fail(ScriptError::MissingScript)
                    } else {
                        r matches RunStep::Run { invocation, command: c, script: s } && c == p.0
                            && s == p.1 && (invocation.program@, views(invocation.args@))
                            == invocation_for(sc.lang_code, sc.content, config.exec_config)
                    }
                },
            }
        }),
{
    let ghost lists = selected_scripts(command_view(*root), selected@);
    let ghost target = next_script(lists, command as int, script as int);
    proof {
        lemma_command_views(root.subcommands@);
    }
    let mut k = command;
    let mut s = script;
    while k < selected.len()
        invariant
            lists == selected_scripts(command_view(*root), selected@),
            command_views(root.subcommands@).len() == root.subcommands@.len(),
            forall|i: int|
                0 <= i < root.subcommands@.len() ==> #[trigger] command_views(root.subcommands@)[i]
                    == command_view(root.subcommands@[i]),
            forall|j: int| 0 <= j < selected@.len() ==> selected@[j] < root.subcommands@.len(),
            next_script(lists, k as int, s as int) == target,
            target == next_script(lists, command as int, script as int),
        decreases selected.len() - k,
    {
        let i = selected[k];
        let scripts = &root.subcommands[i].mask.0.scripts;
        let ghost list = lists[k as int];
        assert(list == script_views(scripts@)) by {
            assert(command_view(*root).subcommands[i as int] == command_view(
                root.subcommands@[i as int],
            ));
        }
        assert(lists.len() == selected@.len());
        assert(list.len() == scripts@.len());
        if s < scripts.len() {
            let sc = &scripts[s];
            assert(list[s as int] == sc@);
            assert(target == Some((k as int, s as int)));
            match plan_script(sc, config) {
                Ok(invocation) => {
                    return RunStep::Run { invocation, command: k, script: s };
                },
                Err(_) => {
                    return RunStep::Fail(ScriptError::MissingScript);
                },
            }
        }
        k = k + 1;
        s = 0;
    }
    RunStep::Finish
}

/// The message when the program that runs a script is not found; it shows
/// the program and the script's code.
pub fn program_not_found_message(program: &str, content: &str) -> (m: String)
    ensures
        m@ == "program '"@ + program@ + "' for lang_code '"@ + content@ + "' not in PATH"@,
{
    let mut m = String::from_str("program '");
    m.append(program);
    m.append("' for lang_code '");
    m.append(content);
    m.append("' not in PATH");
    m
}

} // verus!
