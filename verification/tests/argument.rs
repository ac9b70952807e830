use mask::arg_type;
use mask::argument::{
    extract_config, extract_flag_config, parse, parse_default_missing_value, parse_default_value,
    parse_value_hint, parse_value_name, take_until_space, Parser,
};
use mask::cli::{Action, ArgSpec, ValueKind};

fn chars(s: &str) -> Vec<char> {
    s.chars().collect()
}

#[test]
fn config_characters_lead_the_name() {
    let (config, name) = extract_config("!?$name".to_string());
    assert_eq!(config, vec!['!', '?', '$']);
    assert_eq!(name, "name");
    let (config, name) = extract_config("plain".to_string());
    assert!(config.is_empty());
    assert_eq!(name, "plain");
    let (config, name) = extract_config("--?".to_string());
    assert_eq!(config, vec!['-', '-', '?']);
    assert_eq!(name, "");
}

#[test]
fn config_and_name_restore_the_configured_name() {
    for s in ["!?$name", "plain", "-?v", "", "@.x!y"] {
        let (config, name) = extract_config(s.to_string());
        let rebuilt: String = config.iter().collect::<String>() + &name;
        assert_eq!(rebuilt, s);
    }
}

#[test]
fn flag_part_starts_at_first_dash() {
    let (config, flag) = extract_flag_config(vec!['!', '-', '-', '?']);
    assert_eq!(config, vec!['!']);
    assert_eq!(flag, "--?");
    let (config, flag) = extract_flag_config(vec!['!', '$']);
    assert_eq!(config, vec!['!', '$']);
    assert_eq!(flag, "");
}

#[test]
fn value_names_follow_the_name() {
    let (arg, name) = parse_value_name(
        ArgSpec::new(String::new()),
        "manger <Légume> <Gibier> <Féculent>".to_string(),
    );
    assert_eq!(name, "manger");
    assert_eq!(
        arg.value_names,
        vec!["Légume".to_string(), "Gibier".to_string(), "Féculent".to_string()]
    );
    let (arg, name) = parse_value_name(ArgSpec::new(String::new()), "x <a> <b".to_string());
    assert_eq!(name, "x");
    assert_eq!(arg.value_names, vec!["a".to_string()]);
    let (arg, name) = parse_value_name(ArgSpec::new(String::new()), "z < in >".to_string());
    assert_eq!(name, "z");
    assert_eq!(arg.value_names, vec!["in".to_string()]);
    let (arg, name) = parse_value_name(ArgSpec::new(String::new()), "  y  ".to_string());
    assert_eq!(name, "y");
    assert!(arg.value_names.is_empty());
}

#[test]
fn word_is_read_up_to_whitespace() {
    let cs = chars("u16 rest");
    assert_eq!(take_until_space(&cs, 0), ("u16".to_string(), 4));
    let cs = chars("abc");
    assert_eq!(take_until_space(&cs, 0), ("abc".to_string(), 3));
    let cs = chars("a\u{3000}b");
    assert_eq!(take_until_space(&cs, 0), ("a".to_string(), 2));
}

#[test]
fn word_read_is_already_trimmed() {
    let cs = chars("  x\ty z");
    for p in 0..cs.len() {
        let (w, q) = take_until_space(&cs, p);
        assert_eq!(w.trim(), w);
        assert!(q >= p && q <= cs.len());
    }
}

#[test]
fn defaults_and_hints_are_set() {
    let a = parse_default_value(ArgSpec::new(String::new()), "8080".to_string());
    assert_eq!(a.default_value.as_deref(), Some("8080"));
    let a = parse_default_missing_value(ArgSpec::new(String::new()), "1".to_string());
    assert_eq!(a.default_missing_value.as_deref(), Some("1"));
    let a = parse_value_hint(ArgSpec::new(String::new()), "FilePath".to_string());
    assert_eq!(a.value_hint, Some(clap::ValueHint::FilePath));
    let a = parse_value_hint(ArgSpec::new(String::new()), "nothing".to_string());
    assert_eq!(a.value_hint, None);
}

#[test]
fn type_names_select_parser_and_action() {
    let t = |ty: &str| {
        let a = arg_type::parse(ArgSpec::new(String::new()), ty.to_string());
        (a.value_parser, a.action)
    };
    assert_eq!(t("[u8]"), (Some(ValueKind::U8), Some(Action::Append)));
    assert_eq!(t(""), (Some(ValueKind::Bool), Some(Action::SetTrue)));
    assert_eq!(t("bool"), (Some(ValueKind::Bool), Some(Action::SetTrue)));
    assert_eq!(t("!bool"), (Some(ValueKind::Bool), Some(Action::SetValue)));
    assert_eq!(t("Number"), (Some(ValueKind::Isize), Some(Action::SetValue)));
    assert_eq!(t("PathBuf"), (Some(ValueKind::PathBuf), Some(Action::SetValue)));
    assert_eq!(t("f64"), (Some(ValueKind::F64), Some(Action::SetValue)));
    assert_eq!(t("weird"), (None, Some(Action::SetValue)));
    assert_eq!(t("["), (None, Some(Action::SetValue)));
    assert_eq!(t("[]"), (Some(ValueKind::Bool), Some(Action::SetTrue)));
    assert_eq!(t("[String]"), (Some(ValueKind::String), Some(Action::Append)));
}

#[test]
fn no_type_clears_a_flag() {
    for ty in ["", "bool", "!bool", "[bool]", "x", "[]", "["] {
        let a = arg_type::parse(ArgSpec::new(String::new()), ty.to_string());
        assert_ne!(a.action, Some(Action::SetFalse));
    }
}

#[test]
fn names_configure_the_argument() {
    let mut p = Parser::new(3);
    let a = p.parse_name(ArgSpec::new(String::new()), "!$@name".to_string());
    assert_eq!(a.id, "name");
    assert_eq!(a.index, Some(3));
    assert!(a.required && a.last);
    assert_eq!(a.env.as_deref(), Some("name"));
    let a = p.parse_name(ArgSpec::new(String::new()), "!?#x".to_string());
    assert!(!a.required);
    assert!(a.raw && a.last);
    let a = p.parse_name(ArgSpec::new(String::new()), "*^%~_=.y".to_string());
    assert!(a.trailing_var_arg && a.exclusive && a.global && a.ignore_case);
    assert!(a.allow_negative_numbers && a.require_equals && a.hidden);
}

#[test]
fn flag_names_set_long_and_short_names() {
    let mut p = Parser::new(0);
    let a = p.parse_name(ArgSpec::new("keep".to_string()), "!--verbose".to_string());
    assert_eq!(a.id, "keep");
    assert_eq!(a.index, None);
    assert_eq!(a.long.as_deref(), Some("verbose"));
    assert!(a.required);
    // A later long name is an alias, visible with `--`, hidden with `--?`.
    let a = p.parse_flag(a, "--?".to_string(), "unvisible-alias".to_string());
    assert_eq!(a.long.as_deref(), Some("verbose"));
    assert_eq!(a.aliases, vec!["unvisible-alias".to_string()]);
    assert!(a.visible_aliases.is_empty());
    let a = p.parse_flag(a, "--".to_string(), "loud".to_string());
    assert_eq!(a.visible_aliases, vec!["loud".to_string()]);
    // The same for short names.
    let a = p.parse_flag(a, "-".to_string(), "v".to_string());
    assert_eq!(a.short, Some('v'));
    let a = p.parse_flag(a, "-?".to_string(), "u".to_string());
    let a = p.parse_flag(a, "-".to_string(), "a".to_string());
    assert_eq!(a.short, Some('v'));
    assert_eq!(a.short_aliases, vec!['u']);
    assert_eq!(a.visible_short_aliases, vec!['a']);
    // An empty name or another flag part changes nothing.
    let a = p.parse_flag(ArgSpec::new("k".to_string()), "-".to_string(), "".to_string());
    assert_eq!(a.id, "k");
    assert_eq!(a.short, None);
    let a = p.parse_flag(ArgSpec::new("k".to_string()), "-!".to_string(), "x".to_string());
    assert_eq!(a.short, None);
    assert_eq!(a.long, None);
}

#[test]
fn first_flag_names_of_a_fresh_parser() {
    let mut p = Parser::new(0);
    let a = p.parse_flag(ArgSpec::new("verbose".to_string()), "--".to_string(), "verbose".to_string());
    assert_eq!(a.long.as_deref(), Some("verbose"));
    assert_eq!(a.short, None);
    let mut p = Parser::new(0);
    let a = p.parse_flag(ArgSpec::new("v".to_string()), "-".to_string(), "v".to_string());
    assert_eq!(a.short, Some('v'));
    assert_eq!(a.long, None);
}

#[test]
fn declaration_with_type_and_default() {
    let cs = chars("port: u16 = 8080, next)");
    let (a, prev, q) = parse(ArgSpec::new(String::new()), &cs, 0, 2);
    assert_eq!(a.id, "port");
    assert_eq!(a.index, Some(2));
    assert_eq!(a.value_parser, Some(ValueKind::U16));
    assert_eq!(a.default_value.as_deref(), Some("8080,"));
    assert_eq!(prev, Some(')'));
    assert_eq!(q, cs.len());
    let cs = chars("port: u16)");
    let (a, prev, q) = parse(ArgSpec::new(String::new()), &cs, 0, 0);
    assert_eq!(a.value_parser, None);
    assert_eq!(prev, None);
    assert_eq!(q, cs.len());
    let cs = chars("port: u16 )");
    let (a, prev, _) = parse(ArgSpec::new(String::new()), &cs, 0, 0);
    assert_eq!(a.id, "port");
    assert_eq!(a.index, Some(0));
    assert_eq!(a.value_parser, Some(ValueKind::U16));
    assert_eq!(a.action, Some(mask::cli::Action::SetValue));
    assert_eq!(prev, Some(')'));
    let cs = chars("port : u16 )");
    let (a, _, _) = parse(ArgSpec::new(String::new()), &cs, 0, 0);
    assert_eq!(a.id, "port");
    assert_eq!(a.value_parser, Some(ValueKind::U16));
}

#[test]
fn declarations_end_at_separators() {
    let cs = chars("a b, c)");
    let (a, prev, q) = parse(ArgSpec::new(String::new()), &cs, 0, 0);
    assert_eq!(a.id, "b");
    assert_eq!(prev, Some(','));
    assert_eq!(q, 4);
    let (a, prev, q) = parse(ArgSpec::new(String::new()), &cs, q, 1);
    assert_eq!(a.id, "c");
    assert_eq!(a.index, Some(1));
    assert_eq!(prev, Some(')'));
    assert_eq!(q, cs.len());
}

#[test]
fn missing_value_and_hint_pairs() {
    let cs = chars("f =? yes =>dirpath )");
    let (a, prev, _) = parse(ArgSpec::new(String::new()), &cs, 0, 0);
    assert_eq!(a.id, "f");
    assert!(!a.require_equals);
    assert_eq!(a.default_missing_value.as_deref(), Some("yes"));
    assert_eq!(a.value_hint, Some(clap::ValueHint::DirPath));
    assert_eq!(prev, Some(')'));
}

#[test]
fn flag_only_declaration_is_named_by_its_first_flag() {
    let cs = chars("--verbose -v --loud)");
    let (a, prev, _) = parse(ArgSpec::new(String::new()), &cs, 0, 0);
    assert_eq!(a.id, "verbose");
    assert_eq!(a.long.as_deref(), Some("verbose"));
    assert_eq!(a.short, Some('v'));
    assert_eq!(a.visible_aliases, vec!["loud".to_string()]);
    assert_eq!(prev, Some(')'));
    let cs = chars("-v|--?quiet)");
    let (a, _, _) = parse(ArgSpec::new(String::new()), &cs, 0, 0);
    assert_eq!(a.id, "quiet");
    assert_eq!(a.short, Some('v'));
    let cs = chars("-q)");
    let (a, _, _) = parse(ArgSpec::new(String::new()), &cs, 0, 0);
    assert_eq!(a.id, "q");
    let cs = chars("--)");
    let (a, _, _) = parse(ArgSpec::new(String::new()), &cs, 0, 0);
    assert_eq!(a.id, "ErrorNoFlagNoPositional");
}
