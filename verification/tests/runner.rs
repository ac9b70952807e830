use mask::cli::{CommandSpec, Coloring};
use mask::executor::{
    flag_value, mask_command_line, next_step, plan_script, prepare_command, program_not_found_message,
    RunStep, ScriptError,
};
use mask::loader::{
    arg_name, arg_path, executables_args, executables_group, root_setup, takes_given_path, Config,
    ExecConfig, Help, HelpKind,
};
use mask::selection::{matched_arguments, select_commands};
use mask::types::{Mask, Script};

fn config(long: bool, short: bool) -> Config {
    Config {
        path: "/tmp/maskfile.md".to_string(),
        exec_config: ExecConfig {
            Javascript: "node".to_string(),
            Python: "python3".to_string(),
            Lua: "lua".to_string(),
            Ruby: "ruby".to_string(),
            Php: "php".to_string(),
            Swift: "swift".to_string(),
        },
        help: Help::new(long, short),
    }
}

fn script(lang: &str, content: &str) -> Script {
    Script { lang_code: lang.to_string(), content: content.to_string() }
}

fn command(name: &str) -> CommandSpec {
    CommandSpec::new(name.to_string(), Mask::new(2))
}

#[test]
fn languages_pick_their_program() {
    let c = config(false, false);
    let inv = prepare_command(&script("js", "1"), &c);
    assert_eq!(inv.program, "node");
    assert_eq!(inv.args, vec!["-e".to_string(), "1".to_string()]);
    let inv = prepare_command(&script("python", "p"), &c);
    assert_eq!(inv.program, "python3");
    assert_eq!(inv.args[0], "-c");
    let inv = prepare_command(&script("php", "x"), &c);
    assert_eq!(inv.args[0], "-r");
    let inv = prepare_command(&script("rb", "x"), &c);
    assert_eq!(inv.program, "ruby");
    let inv = prepare_command(&script("zsh", "echo"), &c);
    assert_eq!(inv.program, "zsh");
    assert_eq!(inv.args, vec!["-c".to_string(), "echo".to_string()]);
}

#[test]
fn empty_script_cannot_run() {
    let c = config(false, false);
    assert_eq!(plan_script(&script("sh", ""), &c).err(), Some(ScriptError::MissingScript));
    assert_eq!(plan_script(&script("", "echo"), &c).err(), Some(ScriptError::MissingScript));
    assert!(plan_script(&script("sh", "echo"), &c).is_ok());
    assert_eq!(
        ScriptError::MissingScript.message(),
        "Command is missing script or lang code which determines which lang_code to use."
    );
}

#[test]
fn mask_variable_calls_the_same_file() {
    assert_eq!(mask_command_line("/tmp/dir"), "mask --maskfile /tmp/dir");
}

#[test]
fn flag_values_are_joined() {
    let items = vec![vec![b"a".to_vec(), b"b".to_vec()], vec![b"c".to_vec()]];
    assert_eq!(flag_value(&items, None, None), b"a,b;c".to_vec());
    assert_eq!(flag_value(&items, Some(b"|".to_vec()), Some(b":".to_vec())), b"a:b|c".to_vec());
    assert_eq!(flag_value(&vec![], None, None), Vec::<u8>::new());
    let one = vec![vec![b"only".to_vec()]];
    assert_eq!(flag_value(&one, Some(b"!".to_vec()), Some(b"?".to_vec())), b"only".to_vec());
}

#[test]
fn selection_follows_root_order() {
    let mut root = command("");
    root.subcommands = vec![command("serve"), command("node"), command("parent")];
    let path = |v: &[&str]| v.iter().map(|s| s.to_string()).collect::<Vec<_>>();
    assert_eq!(select_commands(&root, &path(&["node"])), Some(vec![1]));
    assert_eq!(select_commands(&root, &path(&["serve", "parent"])), Some(vec![0, 2]));
    assert_eq!(select_commands(&root, &path(&["node", "serve"])), None);
    assert_eq!(select_commands(&root, &path(&["parent", "subcommand"])), None);
    assert_eq!(select_commands(&root, &path(&[])), Some(vec![]));
}

#[test]
fn matched_arguments_pair_in_order() {
    let s = |v: &[&str]| v.iter().map(|s| s.to_string()).collect::<Vec<_>>();
    assert_eq!(matched_arguments(&s(&["a", "b", "c"]), &s(&["a", "x", "c", "d"])), vec![0, 2]);
    assert_eq!(matched_arguments(&s(&["a"]), &s(&[])), Vec::<usize>::new());
}

#[test]
fn root_is_named_after_the_runner() {
    let root = root_setup(command("x"));
    assert_eq!(root.name, "mask");
    assert_eq!(root.version.as_deref(), Some("0.1.0"));
    assert!(root.disable_version_flag);
    assert_eq!(root.color, Some(Coloring::Always));
    let help = root.args.last().unwrap();
    assert_eq!(help.id, "maskhelp");
    assert_eq!(help.long.as_deref(), Some("maskhelp"));
}

#[test]
fn helper_shows_the_path() {
    let c = config(false, false);
    let root = c.improve_helper(command("x"));
    assert_eq!(root.about.as_deref(), Some("/tmp/maskfile.md"));
    assert_eq!(root.after_help.as_deref(), Some("/tmp/maskfile.md"));
    assert_eq!(root.after_long_help.as_deref(), Some("/tmp/maskfile.md"));
}

#[test]
fn help_requests() {
    assert_eq!(config(true, true).skipped_help(), Some(HelpKind::Long));
    assert_eq!(config(false, true).skipped_help(), Some(HelpKind::Short));
    assert_eq!(config(false, false).skipped_help(), None);
}

#[test]
fn runner_options() {
    let p = arg_path(Some("/a/maskfile.md".to_string()), None);
    assert_eq!(p.id, "maskpath");
    assert_eq!(p.aliases, vec!["maskfile".to_string()]);
    assert_eq!(p.default_value.as_deref(), Some("/a/maskfile.md"));
    assert_eq!(p.env.as_deref(), Some("MASK_PATH"));
    assert_eq!(p.value_hint, Some(clap::ValueHint::FilePath));
    let n = arg_name();
    assert_eq!(n.default_value.as_deref(), Some("maskfile.md"));
    assert_eq!(n.env.as_deref(), Some("MASK_DEFAULT_FILE_NAME"));
    let e = executables_args();
    assert_eq!(e.len(), 6);
    assert_eq!(e[1].id, "maskpython");
    assert_eq!(e[1].default_value.as_deref(), Some("python"));
    assert_eq!(e[1].value_hint, Some(clap::ValueHint::CommandName));
    let g = executables_group();
    assert_eq!(g.id, "executables");
    assert_eq!(g.args.len(), 6);
    assert!(takes_given_path(false, true));
    assert!(!takes_given_path(true, true));
    assert!(!takes_given_path(false, false));
}

#[test]
fn mask_data_collects_scripts() {
    let mut m = Mask::new(3);
    assert_eq!(m.data().level, 3);
    assert!(m.data().scripts.is_empty());
    m.push_script(script("sh", "echo"));
    assert_eq!(m.data().scripts.len(), 1);
}

#[test]
fn run_goes_through_scripts_in_order_and_stops_at_a_broken_one() {
    let c = config(false, false);
    let mut root = command("");
    let mut a = command("a");
    a.mask.push_script(script("sh", "one"));
    a.mask.push_script(script("py", "two"));
    let b = command("b");
    let mut d = command("d");
    d.mask.push_script(script("", "three"));
    d.mask.push_script(script("sh", "four"));
    root.subcommands.push(a);
    root.subcommands.push(b);
    root.subcommands.push(d);
    let selected = vec![0usize, 1, 2];
    match next_step(&root, &selected, 0, 0, &c) {
        RunStep::Run { invocation, command, script } => {
            assert_eq!((command, script), (0, 0));
            assert_eq!(invocation.program, "sh");
            assert_eq!(invocation.args, vec!["-c".to_string(), "one".to_string()]);
        }
        other => panic!("unexpected step {:?}", other),
    }
    match next_step(&root, &selected, 0, 1, &c) {
        RunStep::Run { invocation, command, script } => {
            assert_eq!((command, script), (0, 1));
            assert_eq!(invocation.program, "python3");
        }
        other => panic!("unexpected step {:?}", other),
    }
    // The command without scripts is passed over; the script without a
    // language stops the run.
    assert!(matches!(next_step(&root, &selected, 0, 2, &c), RunStep::Fail(ScriptError::MissingScript)));
    match next_step(&root, &selected, 2, 1, &c) {
        RunStep::Run { command, script, .. } => assert_eq!((command, script), (2, 1)),
        other => panic!("unexpected step {:?}", other),
    }
    assert!(matches!(next_step(&root, &selected, 2, 2, &c), RunStep::Finish));
    assert!(matches!(next_step(&root, &vec![1usize], 0, 0, &c), RunStep::Finish));
}

#[test]
fn missing_program_message_names_program_and_code() {
    assert_eq!(
        program_not_found_message("zsh", "echo hi"),
        "program 'zsh' for lang_code 'echo hi' not in PATH"
    );
}
