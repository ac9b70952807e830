use mask::cli::CommandSpec;
use mask::markdown::{markdown_events_of, MdEvent};
use mask::parser::{
    events_request_choices, parse, parse_checked, parse_command_name_and_aliases,
    parse_command_name_required_and_optional_args, parse_events,
};

fn levels_increase_and_kept(c: &CommandSpec) -> bool {
    c.subcommands.iter().all(|s| {
        s.mask.0.level > c.mask.0.level
            && (!s.mask.0.scripts.is_empty() || !s.subcommands.is_empty() || s.mask.0.level == 1)
            && levels_increase_and_kept(s)
    })
}

#[test]
fn heading_names_and_aliases() {
    let (name, aliases) = parse_command_name_and_aliases("parent subcommand | alias | other ".to_string());
    assert_eq!(name, "parent subcommand");
    assert_eq!(aliases, vec!["alias".to_string(), "other".to_string()]);
    let (name, aliases) = parse_command_name_and_aliases(" solo ".to_string());
    assert_eq!(name, "solo");
    assert!(aliases.is_empty());
}

#[test]
fn heading_arguments_and_groups() {
    let (name, args, groups) =
        parse_command_name_required_and_optional_args("multi (required) [optional]".to_string());
    assert_eq!(name, "multi");
    assert_eq!(args.len(), 2);
    assert_eq!(args[0].id, "required");
    assert!(args[0].required);
    assert_eq!(args[1].id, "optional");
    assert!(!args[1].required);
    assert_eq!(args[1].index, Some(0));
    assert!(groups.is_empty());

    let (name, args, groups) =
        parse_command_name_required_and_optional_args("cmd (a, b) g[c]".to_string());
    assert_eq!(name, "cmd");
    assert_eq!(args.iter().map(|a| a.id.as_str()).collect::<Vec<_>>(), vec!["a", "b", "c"]);
    assert_eq!(args[1].index, Some(1));
    assert_eq!(args[0].groups, vec!["".to_string()]);
    assert_eq!(args[2].groups, vec!["g".to_string()]);
    assert!(groups.is_empty());

    let (name, args, _) = parse_command_name_required_and_optional_args("  plain  ".to_string());
    assert_eq!(name, "plain");
    assert!(args.is_empty());
}

#[test]
fn unclosed_group_declares_nothing() {
    let (name, args, _) = parse_command_name_required_and_optional_args("serve (port: u16)".to_string());
    assert_eq!(name, "serve");
    assert!(args.is_empty());
    let (_, args, _) = parse_command_name_required_and_optional_args("x (a".to_string());
    assert!(args.is_empty());
}

const OPTIONS_FILE: &str = "# Title\n\n## run (target)\n\n> Runs it\n\n**OPTIONS**\n* verbose\n    * flags: -v --verbose\n    * desc: Be loud\n    * type: bool\n    * required\n\n~~~sh\necho hi\n~~~\n";

#[test]
fn options_list_adds_an_argument() {
    let root = parse(OPTIONS_FILE.to_string());
    assert_eq!(root.bin_name.as_deref(), Some("Title"));
    assert_eq!(root.name, "");
    assert_eq!(root.subcommands.len(), 1);
    let run = &root.subcommands[0];
    assert_eq!(run.name, "run");
    assert_eq!(run.about.as_deref(), Some("Runs it"));
    assert_eq!(run.args.len(), 2);
    assert_eq!(run.args[0].id, "target");
    let opt = &run.args[1];
    assert_eq!(opt.id, "verbose");
    assert_eq!(opt.help.as_deref(), Some("Be loud"));
    assert_eq!(opt.value_parser, Some(mask::cli::ValueKind::Bool));
    assert!(opt.required);
    assert_eq!(opt.long.as_deref(), Some("verbose"));
    assert_eq!(opt.short, Some('v'));
    assert_eq!(run.mask.0.scripts.len(), 1);
    assert_eq!(run.mask.0.scripts[0].lang_code, "sh");
    assert_eq!(run.mask.0.scripts[0].content, "echo hi\n");
}

#[test]
fn choices_have_no_reading() {
    let file = "# T\n## a\n**OPTIONS**\n* x\n    * choices: one | two\n\n~~~sh\necho\n~~~\n";
    assert!(parse_checked(file.to_string()).is_none());
    let events = markdown_events_of(file);
    assert!(events_request_choices(&events));
    assert!(parse_checked(OPTIONS_FILE.to_string()).is_some());
}

#[test]
fn nested_commands_lose_their_parent_prefix() {
    let file = "# T\n## a\n### a b | bee\n~~~sh\necho b\n~~~\n## empty\n## c\n~~~sh\necho c\n~~~\n";
    let root = parse(file.to_string());
    let names: Vec<_> = root.subcommands.iter().map(|c| c.name.as_str()).collect();
    assert_eq!(names, vec!["a", "c"]);
    let a = &root.subcommands[0];
    assert_eq!(a.subcommands.len(), 1);
    assert_eq!(a.subcommands[0].name, "b");
    assert_eq!(a.subcommands[0].aliases, vec!["bee".to_string()]);
    assert!(levels_increase_and_kept(&root));
}

#[test]
fn second_top_heading_ends_the_tree() {
    let file = "# T\n## a\n~~~sh\necho a\n~~~\n# U\n## b\n~~~sh\necho b\n~~~\n";
    let root = parse(file.to_string());
    let names: Vec<_> = root.subcommands.iter().map(|c| c.name.as_str()).collect();
    assert_eq!(names, vec!["a"]);
}

#[test]
fn events_build_the_tree_directly() {
    let events = vec![
        MdEvent::StartHeading(1),
        MdEvent::Text("Top".to_string()),
        MdEvent::EndHeading(1),
        MdEvent::StartHeading(2),
        MdEvent::Text("go ".to_string()),
        MdEvent::Code("x".to_string()),
        MdEvent::InlineHtml("<b>".to_string()),
        MdEvent::EndHeading(2),
        MdEvent::StartOther,
        MdEvent::Text("echo".to_string()),
        MdEvent::EndCodeBlock("sh".to_string()),
        MdEvent::Other,
    ];
    let root = parse_events(&events);
    assert_eq!(root.bin_name.as_deref(), Some("Top"));
    assert_eq!(root.subcommands.len(), 1);
    assert_eq!(root.subcommands[0].name, "go `x`<b>");
    assert_eq!(root.subcommands[0].mask.0.scripts[0].content, "echo");
    assert!(levels_increase_and_kept(&root));
}

#[test]
fn single_heading_is_the_root() {
    let root = parse("# Only\n~~~sh\necho\n~~~\n".to_string());
    assert_eq!(root.name, "Only");
    assert_eq!(root.bin_name, None);
    assert_eq!(root.mask.0.level, 1);
    assert_eq!(root.mask.0.scripts.len(), 1);
}

#[test]
fn markdown_events_are_reduced() {
    let events = markdown_events_of("# H\n> q\n");
    assert!(matches!(events[0], MdEvent::StartHeading(1)));
    assert!(matches!(&events[1], MdEvent::Text(t) if t == "H"));
    assert!(matches!(events[2], MdEvent::EndHeading(1)));
    assert!(events.iter().any(|e| matches!(e, MdEvent::EndBlockQuote)));
}

#[test]
fn subcommands_keep_the_order_of_their_headings() {
    let text = "# Tasks\n\n## zeta\n\n```sh\necho z\n```\n\n## alpha\n\n```sh\necho a\n```\n\n### alpha inner\n\n```sh\necho i\n```\n\n## empty\n\n## mid\n\n```sh\necho m\n```\n";
    let root = parse(text.to_string());
    let names: Vec<&str> = root.subcommands.iter().map(|c| c.name.as_str()).collect();
    assert_eq!(names, vec!["zeta", "alpha", "mid"]);
    assert_eq!(root.subcommands[1].subcommands.len(), 1);
    assert_eq!(root.subcommands[1].subcommands[0].name, "inner");
    assert!(levels_increase_and_kept(&root));
}

#[test]
fn options_flags_set_short_and_long_names() {
    let file = "# T\n\n## c\n\n**OPTIONS**\n\n* verbose\n    * flags: -v --verbose\n    * desc: Be loud\n\n~~~sh\necho hi\n~~~\n";
    let root = parse(file.to_string());
    let c = root.subcommands.iter().find(|s| s.name == "c").unwrap();
    assert_eq!(c.args.len(), 1);
    let a = &c.args[0];
    assert_eq!(a.id, "verbose");
    assert_eq!(a.short, Some('v'));
    assert_eq!(a.long.as_deref(), Some("verbose"));
    assert_eq!(a.help.as_deref(), Some("Be loud"));
}
