use std::collections::HashSet;

use ferrowl::registry::dedupe_names;
use ferrowl::view::{parse_command, CommandDescriptor, CommandSpec};

#[derive(Debug, PartialEq)]
enum Cmd {
    Start,
    Save(Option<String>),
}

type Build = fn(Option<&str>) -> Cmd;

fn specs() -> [CommandSpec<Build>; 2] {
    [
        CommandSpec {
            aliases: &["start"],
            descriptor: CommandDescriptor {
                name: ":start",
                description: "start",
            },
            build: |_| Cmd::Start,
        },
        CommandSpec {
            aliases: &["wd", "write-device"],
            descriptor: CommandDescriptor {
                name: ":wd | :write-device [path]",
                description: "save",
            },
            build: |rest| Cmd::Save(rest.map(str::to_string)),
        },
    ]
}

#[test]
fn ut_parse_command_matches_every_alias() {
    let specs = specs();
    assert_eq!(parse_command(&specs, "wd"), Some(Cmd::Save(None)));
    assert_eq!(parse_command(&specs, "write-device"), Some(Cmd::Save(None)));
    assert_eq!(parse_command(&specs, "start"), Some(Cmd::Start));
}

#[test]
fn ut_parse_command_passes_trimmed_remainder() {
    let specs = specs();
    assert_eq!(
        parse_command(&specs, "  wd   a b.toml  "),
        Some(Cmd::Save(Some("a b.toml".into())))
    );
    assert_eq!(parse_command(&specs, " wd  "), Some(Cmd::Save(None)));
}

#[test]
fn ut_parse_command_exact_first_token_only() {
    let specs = specs();
    assert_eq!(parse_command(&specs, "startx"), None);
    assert_eq!(parse_command(&specs, "wdx path"), None);
    assert_eq!(parse_command(&specs, ""), None);
}

#[test]
fn ut_parse_command_splits_at_any_whitespace() {
    let specs = specs();
    assert_eq!(
        parse_command(&specs, "wd\tout.json"),
        Some(Cmd::Save(Some("out.json".into())))
    );
    assert_eq!(parse_command(&specs, "WD"), None);
}

#[test]
fn ut_dedupe_names_first_occurrence_unchanged() {
    assert_eq!(
        dedupe_names(&["a".to_string(), "b".to_string()]),
        vec!["a".to_string(), "b".to_string()]
    );
}

#[test]
fn ut_dedupe_names_suffixes_repeats_in_order() {
    let names = vec!["a".to_string(), "a".to_string(), "a".to_string()];
    assert_eq!(
        dedupe_names(&names),
        vec!["a".to_string(), "a (2)".to_string(), "a (3)".to_string()]
    );
}

#[test]
fn ut_dedupe_names_skips_candidate_colliding_with_earlier_name() {
    let names = vec!["a".to_string(), "a (2)".to_string(), "a".to_string()];
    assert_eq!(
        dedupe_names(&names),
        vec!["a".to_string(), "a (2)".to_string(), "a (3)".to_string()]
    );
}

#[test]
fn ut_tab_names_are_unique_after_dedupe() {
    let names = vec![
        "Modbus".to_string(),
        "Modbus".to_string(),
        "Modbus".to_string(),
    ];
    let out = dedupe_names(&names);
    let unique: HashSet<_> = out.iter().collect();
    assert_eq!(unique.len(), out.len(), "every tab name must be distinct");
    assert_eq!(out, vec!["Modbus", "Modbus (2)", "Modbus (3)"]);
}

#[test]
fn ut_dedupe_names_first_occurrence_keeps_name_taken_later_in_batch() {
    // "a (2)" is a name of the batch, so the second "a" skips it and the later "a (2)"
    // keeps its own name.
    let names = vec!["a".to_string(), "a".to_string(), "a (2)".to_string()];
    assert_eq!(dedupe_names(&names), vec!["a", "a (3)", "a (2)"]);
    let names = vec!["b".to_string(), "b".to_string(), "b".to_string(), "b (3)".to_string()];
    assert_eq!(dedupe_names(&names), vec!["b", "b (2)", "b (4)", "b (3)"]);
    assert!(dedupe_names(&[]).is_empty());
}
