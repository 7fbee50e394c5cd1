use npm_launcher::command::NpmCommand;
use npm_launcher::registry::Registry;

fn command(name: &str, path: &str, command: &str) -> NpmCommand {
    NpmCommand { name: name.to_string(), path: path.to_string(), command: command.to_string() }
}

#[test]
fn new_registry_is_empty() {
    let registry = Registry::new();
    assert!(registry.is_empty());
    assert_eq!(registry.len(), 0);
    assert_eq!(registry.get(0), None);
    assert!(registry.labels().is_empty());
}

#[test]
fn extend_keeps_the_order_of_manifests_and_of_their_scripts() {
    let mut registry = Registry::new();
    registry.extend(vec![command("b", ".", "1"), command("a", ".", "2")]);
    registry.extend(vec![]);
    registry.extend(vec![command("c", "pkg", "3")]);
    assert_eq!(
        registry.commands,
        vec![command("b", ".", "1"), command("a", ".", "2"), command("c", "pkg", "3")]
    );
    assert_eq!(registry.len(), 3);
    assert!(!registry.is_empty());
}

#[test]
fn equal_names_are_kept_apart() {
    let mut registry = Registry::new();
    registry.extend(vec![command("build", ".", "tsc")]);
    registry.extend(vec![command("build", "pkg", "tsc")]);
    registry.extend(vec![command("build", ".", "tsc")]);
    assert_eq!(registry.len(), 3);
    assert_eq!(registry.get(1), Some(&command("build", "pkg", "tsc")));
    assert_eq!(registry.get(2), Some(&command("build", ".", "tsc")));
}

#[test]
fn get_beyond_the_end_is_none() {
    let mut registry = Registry::new();
    registry.extend(vec![command("a", ".", "1")]);
    assert_eq!(registry.get(0), Some(&command("a", ".", "1")));
    assert_eq!(registry.get(1), None);
    assert_eq!(registry.get(usize::MAX), None);
}

#[test]
fn labels_follow_the_commands() {
    console::set_colors_enabled(false);
    let mut registry = Registry::new();
    registry.extend(vec![command("build", ".", "tsc -p ."), command("test", "pkg", "echo hi")]);
    assert_eq!(
        registry.labels(),
        vec!["[root] build { tsc -p . }".to_string(), "[pkg] test { echo hi }".to_string()]
    );
}
