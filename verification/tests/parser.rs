use mask::cli::{ArgSpec, CommandSpec};
use mask::parser::parse;

const TEST_MASKFILE: &str = r#"
# Document Title

This is an example maskfile for the tests below.

## serve (port)

> Serve the app on the `port`

~~~bash
echo "Serving on port $port"
~~~

## node (name)

> An example node script

Valid lang codes: js, javascript

```js
const { name } = process.env;
console.log(`Hello, ${name}!`);
```

## parent
### parent subcommand | alias
> This is a subcommand

~~~bash
echo hey
~~~

## no_script

This command has no source/script.

## multi (required) [optional]

> Example with optional args

~~~bash
if ! [ -z "$optional" ]; then
 echo "This is optional - $optional"
fi

echo "This is required - $required"
~~~

# This is an invalid H1, so it will be ignored

## invalid_cmd

Everything below an invalid H1 will also be ignored.

~~~bash
echo hey
~~~
"#;

#[derive(Debug, PartialEq)]
struct LegacyScript {
    executor: String,
    source: String,
}

#[derive(Debug, PartialEq)]
struct LegacyCommand {
    level: i32,
    name: String,
    description: String,
    script: Option<LegacyScript>,
    subcommands: Vec<LegacyCommand>,
    required_args: Vec<String>,
    optional_args: Vec<String>,
    named_flags: Vec<String>,
}

#[derive(Debug, PartialEq)]
struct LegacyMaskFile {
    title: Option<String>,
    description: String,
    commands: Vec<LegacyCommand>,
}

fn is_positional(a: &ArgSpec) -> bool {
    a.long.is_none() && a.short.is_none()
}

fn legacy_command(c: &CommandSpec) -> LegacyCommand {
    let mask = &c.mask.0;
    LegacyCommand {
        level: mask.level,
        name: c.name.clone(),
        description: c.about.clone().unwrap_or_default(),
        script: mask.scripts.first().map(|s| LegacyScript {
            executor: s.lang_code.clone(),
            source: s.content.clone(),
        }),
        subcommands: c.subcommands.iter().map(legacy_command).collect(),
        required_args: c
            .args
            .iter()
            .filter(|a| is_positional(a) && a.required)
            .map(|a| a.id.clone())
            .collect(),
        optional_args: c
            .args
            .iter()
            .filter(|a| is_positional(a) && !a.required)
            .map(|a| a.id.clone())
            .collect(),
        named_flags: c
            .args
            .iter()
            .filter(|a| !is_positional(a))
            .flat_map(|a| {
                let longs = a.long.iter().cloned().chain(a.visible_aliases.iter().cloned());
                let shorts = a
                    .short
                    .iter()
                    .chain(a.visible_short_aliases.iter())
                    .map(|c| c.to_string());
                longs.chain(shorts).collect::<Vec<_>>()
            })
            .collect(),
    }
}

fn legacy(root: &CommandSpec) -> LegacyMaskFile {
    LegacyMaskFile {
        title: root.bin_name.clone(),
        description: root.about.clone().unwrap_or_default(),
        commands: root.subcommands.iter().map(legacy_command).collect(),
    }
}

fn script(executor: &str, source: &str) -> Option<LegacyScript> {
    Some(LegacyScript { executor: executor.to_string(), source: source.to_string() })
}

fn names(v: &[&str]) -> Vec<String> {
    v.iter().map(|s| s.to_string()).collect()
}

#[test]
fn legacy_parses_the_maskfile_structure() {
    let root = parse(TEST_MASKFILE.to_string());
    let expected = LegacyMaskFile {
        title: Some("Document Title".to_string()),
        description: "".to_string(),
        commands: vec![
            LegacyCommand {
                level: 2,
                name: "serve".to_string(),
                description: "Serve the app on the `port`".to_string(),
                script: script("bash", "echo \"Serving on port $port\"\n"),
                subcommands: vec![],
                required_args: names(&["port"]),
                optional_args: vec![],
                named_flags: vec![],
            },
            LegacyCommand {
                level: 2,
                name: "node".to_string(),
                description: "An example node script".to_string(),
                script: script(
                    "js",
                    "const { name } = process.env;\nconsole.log(`Hello, ${name}!`);\n",
                ),
                subcommands: vec![],
                required_args: names(&["name"]),
                optional_args: vec![],
                named_flags: vec![],
            },
            LegacyCommand {
                level: 2,
                name: "parent".to_string(),
                description: "".to_string(),
                script: None,
                subcommands: vec![LegacyCommand {
                    level: 3,
                    name: "subcommand".to_string(),
                    description: "This is a subcommand".to_string(),
                    script: script("bash", "echo hey\n"),
                    subcommands: vec![],
                    required_args: vec![],
                    optional_args: vec![],
                    named_flags: vec![],
                }],
                required_args: vec![],
                optional_args: vec![],
                named_flags: vec![],
            },
            LegacyCommand {
                level: 2,
                name: "multi".to_string(),
                description: "Example with optional args".to_string(),
                script: script(
                    "bash",
                    "if ! [ -z \"$optional\" ]; then\n echo \"This is optional - $optional\"\nfi\n\necho \"This is required - $required\"\n",
                ),
                subcommands: vec![],
                required_args: names(&["required"]),
                optional_args: names(&["optional"]),
                named_flags: vec![],
            },
        ],
    };
    assert_eq!(expected, legacy(&root), "Not the expected JSon output.");
}
