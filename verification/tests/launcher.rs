use npm_launcher::command::NpmCommand;
use npm_launcher::launcher::{after_choice, after_discovery, after_run, invocation, Next, Stream};
use npm_launcher::registry::Registry;

fn command(name: &str, path: &str, command: &str) -> NpmCommand {
    NpmCommand { name: name.to_string(), path: path.to_string(), command: command.to_string() }
}

fn sample_registry() -> Registry {
    let mut registry = Registry::new();
    registry.extend(vec![command("build", ".", "tsc -p .")]);
    registry.extend(vec![command("test", "pkg", "echo hi")]);
    registry
}

#[test]
fn empty_registry_says_so_and_never_asks() {
    match after_discovery(&Registry::new()) {
        Next::Leave(ending) => {
            assert_eq!(ending.exit_code, 0);
            let notice = ending.notice.unwrap();
            assert_eq!(notice.stream, Stream::Stdout);
            assert_eq!(notice.text, "No commands found.");
        },
        other => panic!("unexpected {:?}", other),
    }
}

#[test]
fn registry_with_commands_shows_the_menu() {
    console::set_colors_enabled(false);
    match after_discovery(&sample_registry()) {
        Next::Ask { prompt, labels } => {
            assert_eq!(prompt, "Choose a command to execute:");
            assert_eq!(
                labels,
                vec!["[root] build { tsc -p . }".to_string(), "[pkg] test { echo hi }".to_string()]
            );
        },
        other => panic!("unexpected {:?}", other),
    }
}

#[test]
fn cancelled_menu_ends_without_a_word() {
    match after_choice(&sample_registry(), None) {
        Next::Leave(ending) => {
            assert_eq!(ending.exit_code, 0);
            assert!(ending.notice.is_none());
        },
        other => panic!("unexpected {:?}", other),
    }
}

#[test]
fn chosen_entry_is_run_through_the_script_runner_in_its_directory() {
    match after_choice(&sample_registry(), Some(1)) {
        Next::Spawn(process) => {
            assert_eq!(process.program, "sh");
            assert_eq!(process.args, vec!["-c".to_string(), "npm run test".to_string()]);
            assert_eq!(process.dir, "pkg");
        },
        other => panic!("unexpected {:?}", other),
    }
    match after_choice(&sample_registry(), Some(0)) {
        Next::Spawn(process) => {
            assert_eq!(process.args, vec!["-c".to_string(), "npm run build".to_string()]);
            assert_eq!(process.dir, ".");
        },
        other => panic!("unexpected {:?}", other),
    }
}

#[test]
fn invocation_uses_the_name_and_not_the_shown_text() {
    let process = invocation(&command("lint", "tools", "eslint . && echo done"));
    assert_eq!(process.program, "sh");
    assert_eq!(process.args, vec!["-c".to_string(), "npm run lint".to_string()]);
    assert_eq!(process.dir, "tools");
    let other = invocation(&command("lint", "tools", "something else"));
    assert_eq!(other.args, process.args);
}

#[test]
fn success_is_told_on_standard_output() {
    match after_run(true) {
        Next::Leave(ending) => {
            assert_eq!(ending.exit_code, 0);
            let notice = ending.notice.unwrap();
            assert_eq!(notice.stream, Stream::Stdout);
            assert_eq!(notice.text, "Command executed successfully.");
        },
        other => panic!("unexpected {:?}", other),
    }
}

#[test]
fn failure_is_told_on_standard_error_and_the_launcher_still_succeeds() {
    match after_run(false) {
        Next::Leave(ending) => {
            assert_eq!(ending.exit_code, 0);
            let notice = ending.notice.unwrap();
            assert_eq!(notice.stream, Stream::Stderr);
            assert_eq!(notice.text, "Error executing command.");
        },
        other => panic!("unexpected {:?}", other),
    }
}
