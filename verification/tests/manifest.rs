use npm_launcher::command::NpmCommand;
use npm_launcher::manifest::{
    commands_from_declarations, commands_from_document, get_npm_scripts, read_members, Declaration,
};
use npm_launcher::path::RelPath;
use serde_json::{Number, Value};

fn path_of(parts: &[&str]) -> RelPath {
    RelPath { parts: parts.iter().map(|p| p.to_string()).collect() }
}

fn command(name: &str, path: &str, command: &str) -> NpmCommand {
    NpmCommand { name: name.to_string(), path: path.to_string(), command: command.to_string() }
}

fn declaration(name: &str, text: Option<&str>) -> Declaration {
    Declaration { name: name.to_string(), text: text.map(|t| t.to_string()) }
}

fn root_manifest() -> RelPath {
    path_of(&["package.json"])
}

#[test]
fn scripts_are_read_with_name_text_and_directory() {
    let out = get_npm_scripts(&root_manifest(), r#"{"scripts": {"build": "tsc -p ."}}"#).unwrap();
    assert_eq!(out, vec![command("build", ".", "tsc -p .")]);
}

#[test]
fn origin_is_the_directory_of_the_manifest() {
    let file = path_of(&["pkg", "package.json"]);
    let out = get_npm_scripts(&file, r#"{"scripts": {"test": "echo hi"}}"#).unwrap();
    assert_eq!(out, vec![command("test", "pkg", "echo hi")]);
    let file = path_of(&["a", "b", "package.json"]);
    let out = get_npm_scripts(&file, r#"{"scripts": {"test": "echo hi"}}"#).unwrap();
    assert_eq!(out, vec![command("test", "a/b", "echo hi")]);
}

#[test]
fn manifest_path_without_a_directory_belongs_to_the_current_one() {
    let out = get_npm_scripts(&RelPath::root(), r#"{"scripts": {"a": "b"}}"#).unwrap();
    assert_eq!(out, vec![command("a", ".", "b")]);
}

#[test]
fn absent_scripts_field_yields_nothing() {
    assert_eq!(get_npm_scripts(&root_manifest(), r#"{"name": "x"}"#).unwrap(), vec![]);
    assert_eq!(get_npm_scripts(&root_manifest(), "{}").unwrap(), vec![]);
}

#[test]
fn scripts_field_that_is_no_object_yields_nothing() {
    for text in [
        r#"{"scripts": "build"}"#,
        r#"{"scripts": ["a", "b"]}"#,
        r#"{"scripts": 3}"#,
        r#"{"scripts": true}"#,
        r#"{"scripts": null}"#,
    ] {
        assert_eq!(get_npm_scripts(&root_manifest(), text).unwrap(), vec![]);
    }
}

#[test]
fn document_that_is_no_object_yields_nothing() {
    for text in ["[]", "\"scripts\"", "1", "null", "true", r#"[{"scripts": {"a": "b"}}]"#] {
        assert_eq!(get_npm_scripts(&root_manifest(), text).unwrap(), vec![]);
    }
}

#[test]
fn nested_scripts_field_is_not_consulted() {
    let text = r#"{"config": {"scripts": {"a": "b"}}}"#;
    assert_eq!(get_npm_scripts(&root_manifest(), text).unwrap(), vec![]);
}

#[test]
fn empty_scripts_object_yields_nothing() {
    assert_eq!(get_npm_scripts(&root_manifest(), r#"{"scripts": {}}"#).unwrap(), vec![]);
}

#[test]
fn only_string_valued_scripts_are_kept() {
    let text = r#"{"scripts": {
        "a": "one",
        "b": 2,
        "c": {"nested": "x"},
        "d": ["y"],
        "e": null,
        "f": false,
        "g": "seven"
    }}"#;
    let out = get_npm_scripts(&root_manifest(), text).unwrap();
    assert_eq!(out, vec![command("a", ".", "one"), command("g", ".", "seven")]);
}

#[test]
fn other_fields_are_ignored() {
    let text = r#"{"name": "x", "version": "1.0.0", "scripts": {"go": "run"}, "main": "i.js"}"#;
    let out = get_npm_scripts(&root_manifest(), text).unwrap();
    assert_eq!(out, vec![command("go", ".", "run")]);
}

#[test]
fn empty_name_and_empty_text_declare_nothing() {
    let out = get_npm_scripts(&root_manifest(), r#"{"scripts": {"": "x", "y": ""}}"#).unwrap();
    assert_eq!(out, vec![]);
    let out = get_npm_scripts(&root_manifest(), r#"{"scripts": {"": ""}}"#).unwrap();
    assert_eq!(out, vec![]);
}

#[test]
fn empty_ones_are_dropped_and_the_others_kept() {
    let text = r#"{"scripts": {"": "x", "a": "one", "b": "", "c": " ", "d": 4}}"#;
    let out = get_npm_scripts(&root_manifest(), text).unwrap();
    assert_eq!(out, vec![command("a", ".", "one"), command("c", ".", " ")]);
    assert!(out.iter().all(|c| !c.name.is_empty() && !c.command.is_empty()));
}

#[test]
fn name_written_twice_gives_one_command() {
    let text = r#"{"scripts": {"a": "first", "b": "other", "a": "second"}}"#;
    let out = get_npm_scripts(&root_manifest(), text).unwrap();
    assert_eq!(out.len(), 2);
    assert!(out.contains(&command("a", ".", "second")));
    assert!(out.contains(&command("b", ".", "other")));
}

#[test]
fn names_of_one_manifest_are_distinct() {
    let text = r#"{"scripts": {"a": "1", "b": "2", "a": "3", "c": "4", "b": "5", "A": "6"}}"#;
    let out = get_npm_scripts(&root_manifest(), text).unwrap();
    assert_eq!(out.len(), 4);
    for i in 0..out.len() {
        for j in 0..i {
            assert_ne!(out[i].name, out[j].name);
        }
    }
}

#[test]
fn escapes_in_names_and_texts_are_resolved() {
    let text = r#"{"scripts": {"a\"b": "echo \"hi\"\n", "é": "ü"}}"#;
    let out = get_npm_scripts(&root_manifest(), text).unwrap();
    assert_eq!(out, vec![command("a\"b", ".", "echo \"hi\"\n"), command("é", ".", "ü")]);
}

#[test]
fn malformed_manifest_is_an_error() {
    for text in ["", "{", r#"{"scripts": }"#, r#"{"scripts": {"a": "b"}} x"#, "{'a': 1}", "nope"] {
        assert!(get_npm_scripts(&root_manifest(), text).is_err());
    }
}

#[test]
fn error_carries_the_parsers_report() {
    let err = get_npm_scripts(&root_manifest(), "{\n  \"scripts\": oops }").unwrap_err();
    assert_eq!(err.source.line(), 2);
    assert!(err.source.is_syntax());
    let err = get_npm_scripts(&root_manifest(), "{").unwrap_err();
    assert!(err.source.is_eof());
}

#[test]
fn same_text_gives_same_commands() {
    let text = r#"{"scripts": {"b": "2", "a": "1"}}"#;
    let one = get_npm_scripts(&root_manifest(), text).unwrap();
    let two = get_npm_scripts(&root_manifest(), text).unwrap();
    assert_eq!(one, two);
    assert_eq!(one.len(), 2);
    assert!(one.contains(&command("a", ".", "1")));
    assert!(one.contains(&command("b", ".", "2")));
}

#[test]
fn declarations_with_text_become_commands_in_order() {
    let declarations = vec![
        declaration("z", Some("last first")),
        declaration("skip", None),
        declaration("a", Some("then a")),
        declaration("a", Some("twice")),
        declaration("none", None),
    ];
    let out = commands_from_declarations(&declarations, "pkg");
    assert_eq!(
        out,
        vec![
            command("z", "pkg", "last first"),
            command("a", "pkg", "then a"),
            command("a", "pkg", "twice")
        ]
    );
}

#[test]
fn declarations_with_empty_name_or_text_give_nothing() {
    let declarations = vec![
        declaration("", Some("x")),
        declaration("keep", Some("y")),
        declaration("empty", Some("")),
        declaration("", Some("")),
        declaration("", None),
    ];
    assert_eq!(commands_from_declarations(&declarations, "."), vec![command("keep", ".", "y")]);
}

#[test]
fn declarations_without_text_give_nothing() {
    let declarations = vec![declaration("a", None), declaration("b", None)];
    assert_eq!(commands_from_declarations(&declarations, "."), vec![]);
    assert_eq!(commands_from_declarations(&vec![], "."), vec![]);
}

#[test]
fn members_are_read_one_for_one() {
    let name_a = "a".to_string();
    let name_b = "b".to_string();
    let name_c = "c".to_string();
    let text = Value::String("run".to_string());
    let number = Value::Number(Number::from(3));
    let object = Value::Object(serde_json::Map::new());
    let members = vec![(&name_a, &text), (&name_b, &number), (&name_c, &object)];
    assert_eq!(
        read_members(&members),
        vec![declaration("a", Some("run")), declaration("b", None), declaration("c", None)]
    );
}

#[test]
fn document_value_is_read_like_its_text() {
    let mut scripts = serde_json::Map::new();
    scripts.insert("build".to_string(), Value::String("make".to_string()));
    scripts.insert("count".to_string(), Value::Number(Number::from(1)));
    let mut doc = serde_json::Map::new();
    doc.insert("scripts".to_string(), Value::Object(scripts));
    let out = commands_from_document(&Value::Object(doc), "x/y");
    assert_eq!(out, vec![command("build", "x/y", "make")]);
    assert_eq!(commands_from_document(&Value::Null, "."), vec![]);
    assert_eq!(commands_from_document(&Value::String("scripts".to_string()), "."), vec![]);
}
