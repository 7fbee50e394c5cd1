use npm_launcher::command::{compose_label, NpmCommand};

fn command(name: &str, path: &str, command: &str) -> NpmCommand {
    NpmCommand { name: name.to_string(), path: path.to_string(), command: command.to_string() }
}

#[test]
fn root_directory_is_shown_as_root() {
    assert_eq!(command("build", ".", "tsc").display_path(), "root");
    assert_eq!(command("build", ".", "tsc").tag(), "[root]");
}

#[test]
fn other_directories_are_shown_by_their_path() {
    assert_eq!(command("build", "pkg", "tsc").display_path(), "pkg");
    assert_eq!(command("build", "a/b", "tsc").tag(), "[a/b]");
}

#[test]
fn only_the_exact_marker_is_the_root() {
    for path in ["./", "./.", "..", "", " .", "root", "./pkg"] {
        assert_eq!(command("x", path, "y").display_path(), path);
    }
}

#[test]
fn body_is_the_text_in_braces() {
    assert_eq!(command("build", ".", "tsc -p .").body(), "{ tsc -p . }");
    assert_eq!(command("build", ".", "").body(), "{  }");
}

#[test]
fn plain_label_has_tag_name_and_body() {
    assert_eq!(command("build", ".", "tsc -p .").plain_label(), "[root] build { tsc -p . }");
    assert_eq!(command("test", "pkg", "echo hi").plain_label(), "[pkg] test { echo hi }");
}

#[test]
fn compose_label_joins_with_single_spaces() {
    assert_eq!(compose_label("a", "b", "c"), "a b c");
    assert_eq!(compose_label("", "", ""), "  ");
}

#[test]
fn label_is_dim_green_dim_with_colours_on_and_plain_with_colours_off() {
    // The one test of this file that touches the colour switch of the process.
    console::set_colors_enabled(true);
    assert_eq!(
        command("build", ".", "tsc -p .").to_string(),
        "\x1b[2m[root]\x1b[0m \x1b[32mbuild\x1b[0m \x1b[2m{ tsc -p . }\x1b[0m"
    );
    assert_eq!(
        command("test", "pkg", "echo hi").to_string(),
        "\x1b[2m[pkg]\x1b[0m \x1b[32mtest\x1b[0m \x1b[2m{ echo hi }\x1b[0m"
    );
    console::set_colors_enabled(false);
    let entry = command("build", ".", "tsc -p .");
    assert_eq!(entry.to_string(), "[root] build { tsc -p . }");
    assert_eq!(entry.to_string(), entry.plain_label());
}

#[test]
fn plain_label_does_not_change_the_command() {
    let entry = command("build", "pkg", "tsc");
    let _ = entry.plain_label();
    let _ = entry.display_path();
    assert_eq!(entry, command("build", "pkg", "tsc"));
}

#[test]
fn clone_is_equal() {
    let entry = command("build", "pkg", "tsc");
    assert_eq!(entry.clone(), entry);
}
