use npm_launcher::path::RelPath;

fn path_of(parts: &[&str]) -> RelPath {
    RelPath { parts: parts.iter().map(|p| p.to_string()).collect() }
}

#[test]
fn root_renders_as_marker() {
    assert_eq!(RelPath::root().render(), ".");
    assert_eq!(RelPath::root().depth(), 0);
}

#[test]
fn single_component_renders_as_itself() {
    assert_eq!(path_of(&["package.json"]).render(), "package.json");
}

#[test]
fn components_are_joined_by_slashes() {
    assert_eq!(path_of(&["a", "b", "package.json"]).render(), "a/b/package.json");
    assert_eq!(path_of(&["a", "b", "package.json"]).depth(), 3);
}

#[test]
fn child_appends_one_component() {
    let dir = RelPath::root().child("pkg");
    assert_eq!(dir, path_of(&["pkg"]));
    let file = dir.child("package.json");
    assert_eq!(file, path_of(&["pkg", "package.json"]));
    assert_eq!(dir, path_of(&["pkg"]));
}

#[test]
fn parent_drops_last_component() {
    assert_eq!(path_of(&["a", "b", "c"]).parent(), path_of(&["a", "b"]));
    assert_eq!(path_of(&["a"]).parent(), RelPath::root());
}

#[test]
fn root_is_its_own_parent() {
    assert_eq!(RelPath::root().parent(), RelPath::root());
}

#[test]
fn parent_of_child_is_the_directory() {
    let dir = path_of(&["x", "y"]);
    assert_eq!(dir.child("z").parent(), dir);
}

#[test]
fn file_name_is_last_component() {
    assert_eq!(path_of(&["a", "node_modules"]).file_name(), Some(&"node_modules".to_string()));
    assert_eq!(RelPath::root().file_name(), None);
}

#[test]
fn clone_keeps_components() {
    let path = path_of(&["a", "b"]);
    assert_eq!(path.clone(), path);
}
