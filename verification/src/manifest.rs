//! Reading the scripts out of one manifest.

use crate::command::{command_views, display_dir, distinct_names, CommandView, NpmCommand};
use crate::json::{json_of, json_parse, map_entries, parse_value, value_as_object, value_as_str,
    value_get, Json};
use crate::path::{parent_of, render_path, PathView, RelPath};
use vstd::prelude::*;
use vstd::string::StringExecFns;

verus! {

/// A manifest whose text is no JSON document. It carries the parser's own
/// report.
#[derive(Debug)]
pub struct ManifestError {
    pub source: serde_json::Error,
}

/// One member of a `scripts` object as the launcher reads it: its name, and
/// the text of its value where that is a string.
#[derive(Debug, PartialEq, Eq)]
pub struct Declaration {
    pub name: String,
    pub text: Option<String>,
}

/// A declaration as a name and, for a string, its text.
pub struct DeclarationView {
    pub name: Seq<char>,
    pub text: Option<Seq<char>>,
}

impl View for Declaration {
    type V = DeclarationView;

    open spec fn view(&self) -> DeclarationView {
        DeclarationView {
            name: self.name@,
            text: match self.text {
                Some(text) => Some(text@),
                None => None,
            },
        }
    }
}

/// The declarations of a list, each as its view.
pub open spec fn declaration_views(declarations: Seq<Declaration>) -> Seq<DeclarationView> {
    declarations.map_values(|d: Declaration| d@)
}

/// The members of the object under a document's top-level `scripts` field.
/// There are none where the document has no such field, and none where the
/// field holds anything but an object.
pub open spec fn script_members(doc: Json) -> Seq<(Seq<char>, Json)> {
    match doc.member("scripts"@) {
        Some(Json::Object(members)) => members,
        _ => Seq::empty(),
    }
}

/// The members of an object as declarations, one for one.
pub open spec fn declarations_among(members: Seq<(Seq<char>, Json)>) -> Seq<DeclarationView> {
    members.map_values(
        |member: (Seq<char>, Json)| DeclarationView { name: member.0, text: member.1.text() },
    )
}

impl DeclarationView {
    /// Whether this declares a command: its value is a string, and neither
    /// its name nor that string is empty.
    pub open spec fn declares(self) -> bool {
        &&& self.name.len() > 0
        &&& self.text matches Some(text)
        &&& text.len() > 0
    }
}

/// Whether no two declarations of the list bear the same name.
pub open spec fn distinct_declarations(declarations: Seq<DeclarationView>) -> bool {
    forall|i: int, j: int|
        #![trigger declarations[i], declarations[j]]
        0 <= i < j < declarations.len() ==> declarations[i].name != declarations[j].name
}

/// What one declaration contributes to the directory `dir`: a command of its
/// name and text where it declares one, nothing otherwise.
pub open spec fn command_of(dir: Seq<char>) -> spec_fn(DeclarationView) -> Option<CommandView> {
    |d: DeclarationView|
        if d.declares() {
            Some(CommandView { name: d.name, path: dir, command: d.text.unwrap() })
        } else {
            None
        }
}

/// The commands of a list of declarations: one for each that declares a
/// command, in the order of the list.
pub open spec fn commands_among(declarations: Seq<DeclarationView>, dir: Seq<char>) -> Seq<
    CommandView,
> {
    declarations.filter_map(command_of(dir))
}

/// The commands that a document declares for the directory `dir`.
pub open spec fn declared_commands(doc: Json, dir: Seq<char>) -> Seq<CommandView> {
    commands_among(declarations_among(script_members(doc)), dir)
}

/// The directory to which a manifest's scripts belong, as text: the one that
/// holds the manifest, and `.` where the path names no directory above it.
pub open spec fn origin_dir(file: PathView) -> Seq<char> {
    render_path(parent_of(file))
}

/// The members of a map as the model sees them: each key with what its value
/// holds.
pub open spec fn member_views(members: Seq<(&String, &serde_json::Value)>) -> Seq<
    (Seq<char>, Json),
> {
    members.map_values(|m: (&String, &serde_json::Value)| (m.0@, json_of(*m.1)))
}

/// Reads each member of an object: its name, and its text if it is a string.
pub fn read_members(members: &Vec<(&String, &serde_json::Value)>) -> (out: Vec<Declaration>)
    ensures
        declaration_views(out@) == declarations_among(member_views(members@)),
{
    let mut out: Vec<Declaration> = Vec::new();
    let mut i: usize = 0;
    while i < members.len()
        invariant
            i <= members.len(),
            out@.len() == i,
            forall|k: int|
                0 <= k < i ==> (#[trigger] out@[k])@ == declarations_among(
                    member_views(members@),
                )[k],
        decreases members.len() - i,
    {
        let (name, value) = members[i];
        let text = match value_as_str(value) {
            Some(text) => Some(String::from_str(text)),
            None => None,
        };
        out.push(Declaration { name: name.clone(), text });
        i += 1;
    }
    out
}

/// Turns declarations into the commands of the directory `dir`. A declaration
/// whose value is no string is passed over, and so is one with an empty name
/// or an empty string; every other one gives a command of its name and text,
/// and the order stays.
pub fn commands_from_declarations(declarations: &Vec<Declaration>, dir: &str) -> (out: Vec<
    NpmCommand,
>)
    ensures
        command_views(out@) == commands_among(declaration_views(declarations@), dir@),
        forall|i: int|
            0 <= i < out@.len() ==> (#[trigger] out@[i]).name@.len() > 0 && out@[i].command@.len()
                > 0,
        distinct_declarations(declaration_views(declarations@)) ==> forall|i: int, j: int|
            #![trigger out@[i], out@[j]]
            0 <= i < j < out@.len() ==> out@[i].name@ != out@[j].name@,
{
    let ghost all = declaration_views(declarations@);
    let ghost f = command_of(dir@);
    let mut out: Vec<NpmCommand> = Vec::new();
    let mut i: usize = 0;
    while i < declarations.len()
        invariant
            i <= declarations.len(),
            all == declaration_views(declarations@),
            f == command_of(dir@),
            command_views(out@) == all.take(i as int).filter_map(f),
        decreases declarations.len() - i,
    {
        proof {
            all.lemma_filter_map_take_succ(f, i as int);
        }
        let declaration = &declarations[i];
        match &declaration.text {
            Some(text) => {
                if !declaration.name.as_str().is_empty() && !text.as_str().is_empty() {
                    out.push(
                        NpmCommand {
                            name: declaration.name.clone(),
                            path: String::from_str(dir),
                            command: text.clone(),
                        },
                    );
                }
            },
            None => {},
        }
        i += 1;
    }
    proof {
        assert(all.take(i as int) =~= all);
        lemma_commands_come_from_declarations(all, dir@);
        assert forall|k: int| 0 <= k < out@.len() implies (#[trigger] out@[k]).name@.len() > 0
            && out@[k].command@.len() > 0 by {
            assert(commands_among(all, dir@)[k].complete());
            assert(out@[k]@ == command_views(out@)[k]);
        }
        if distinct_declarations(all) {
            assert forall|k: int, l: int| 0 <= k < l < out@.len() implies (#[trigger] out@[k]).name@
                != (#[trigger] out@[l]).name@ by {
                assert(commands_among(all, dir@)[k].name != commands_among(all, dir@)[l].name);
                assert(out@[k]@ == command_views(out@)[k]);
                assert(out@[l]@ == command_views(out@)[l]);
            }
        }
    }
    out
}

/// The commands that a parsed document declares for the directory `dir`.
/// Each has a name and a text, and no two have the same name.
pub fn commands_from_document(doc: &serde_json::Value, dir: &str) -> (out: Vec<NpmCommand>)
    ensures
        command_views(out@) == declared_commands(json_of(*doc), dir@),
        forall|i: int|
            0 <= i < out@.len() ==> (#[trigger] out@[i]).name@.len() > 0 && out@[i].command@.len()
                > 0,
        forall|i: int, j: int|
            #![trigger out@[i], out@[j]]
            0 <= i < j < out@.len() ==> out@[i].name@ != out@[j].name@,
{
    let declarations = match value_get(doc, "scripts") {
        Some(scripts) => match value_as_object(scripts) {
            Some(map) => {
                let members = map_entries(map);
                let declarations = read_members(&members);
                proof {
                    let views = declaration_views(declarations@);
                    assert forall|i: int, j: int|
                        #![trigger views[i], views[j]]
                        0 <= i < j < views.len() implies views[i].name != views[j].name by {
                        assert(views[i].name == members@[i].0@);
                        assert(views[j].name == members@[j].0@);
                    }
                }
                declarations
            },
            None => Vec::new(),
        },
        None => Vec::new(),
    };
    assert(declaration_views(declarations@) =~= declarations_among(script_members(json_of(*doc))));
    commands_from_declarations(&declarations, dir)
}

/// Reads the scripts out of the manifest at `file`, whose text is `content`.
///
/// A text that is no JSON document is an error. Every document gives a list:
/// one command for each member of its `scripts` object that has a string for
/// its value, where neither the name nor the string is empty. The commands
/// stand in the order in which the parser walks the object, each belongs to
/// the directory that holds the manifest, and no two have the same name.
pub fn get_npm_scripts(file: &RelPath, content: &str) -> (out: Result<
    Vec<NpmCommand>,
    ManifestError,
>)
    ensures
        match json_parse(content@) {
            Some(doc) => out matches Ok(commands) && command_views(commands@)
                == declared_commands(doc, origin_dir(file@)),
            None => out is Err,
        },
        out matches Ok(commands) ==> forall|i: int|
            0 <= i < commands@.len() ==> (#[trigger] commands@[i]).name@.len() > 0
                && commands@[i].command@.len() > 0,
        out matches Ok(commands) ==> forall|i: int, j: int|
            #![trigger commands@[i], commands@[j]]
            0 <= i < j < commands@.len() ==> commands@[i].name@ != commands@[j].name@,
{
    match parse_value(content) {
        Ok(doc) => {
            let dir = file.parent().render();
            Ok(commands_from_document(&doc, dir.as_str()))
        },
        Err(source) => Err(ManifestError { source }),
    }
}

/// A document without a `scripts` field, or with one that holds anything but
/// an object, declares no command. It is no error either: `get_npm_scripts`
/// owes a list for every document.
pub proof fn lemma_no_scripts_object_no_commands(doc: Json, dir: Seq<char>)
    requires
        doc.member("scripts"@) matches Some(scripts) ==> !(scripts is Object),
    ensures
        declared_commands(doc, dir) == Seq::<CommandView>::empty(),
{
}

/// Whether a declaration has a string for its value.
pub open spec fn has_text() -> spec_fn(DeclarationView) -> bool {
    |d: DeclarationView| d.text is Some
}

/// Whether a declaration declares a command.
pub open spec fn declaring() -> spec_fn(DeclarationView) -> bool {
    |d: DeclarationView| d.declares()
}

/// The command of a declaration that has a string for its value.
pub open spec fn to_command(dir: Seq<char>) -> spec_fn(DeclarationView) -> CommandView {
    |d: DeclarationView| CommandView { name: d.name, path: dir, command: d.text.unwrap() }
}

/// Among declarations of any kinds, the commands are those with a string for
/// their value, where neither the name nor the string is empty, and no
/// others: as many, in the same order, each with the name and the text of its
/// declaration.
pub proof fn lemma_commands_are_the_string_valued(
    declarations: Seq<DeclarationView>,
    dir: Seq<char>,
)
    ensures
        commands_among(declarations, dir) == declarations.filter(declaring()).map_values(
            to_command(dir),
        ),
    decreases declarations.len(),
{
    reveal(Seq::filter);
    if declarations.len() > 0 {
        lemma_commands_are_the_string_valued(declarations.drop_last(), dir);
    }
}

/// Where every name is given and no string is empty, a mix of values of all
/// kinds leaves exactly the string-valued declarations: the commands are as
/// many as these, in their order, each with the name and the text of its
/// declaration.
pub proof fn lemma_mixed_values_leave_the_strings(
    declarations: Seq<DeclarationView>,
    dir: Seq<char>,
)
    requires
        forall|i: int|
            0 <= i < declarations.len() ==> (#[trigger] declarations[i]).name.len() > 0 && (
            declarations[i].text matches Some(text) ==> text.len() > 0),
    ensures
        commands_among(declarations, dir) == declarations.filter(has_text()).map_values(
            to_command(dir),
        ),
        commands_among(declarations, dir).len() == declarations.filter(has_text()).len(),
    decreases declarations.len(),
{
    reveal(Seq::filter);
    if declarations.len() > 0 {
        let rest = declarations.drop_last();
        assert forall|i: int| 0 <= i < rest.len() implies (#[trigger] rest[i]).name.len() > 0 && (
        rest[i].text matches Some(text) ==> text.len() > 0) by {
            assert(rest[i] == declarations[i]);
        }
        lemma_mixed_values_leave_the_strings(rest, dir);
        assert(declarations.last() == declarations[declarations.len() - 1]);
    }
}

/// A document whose `scripts` field holds an object with values of all kinds,
/// where every member has a name and no string is empty, declares exactly the
/// string-valued members of that object: as many commands as these, in their
/// order, each with the name and the text of its member. The other members
/// add nothing.
pub proof fn lemma_scripts_object_gives_its_strings(
    doc: Json,
    members: Seq<(Seq<char>, Json)>,
    dir: Seq<char>,
)
    requires
        doc.member("scripts"@) == Some(Json::Object(members)),
        forall|i: int|
            0 <= i < members.len() ==> (#[trigger] members[i]).0.len() > 0 && (
            members[i].1 matches Json::Text(text) ==> text.len() > 0),
    ensures
        declared_commands(doc, dir) == declarations_among(members).filter(has_text()).map_values(
            to_command(dir),
        ),
        declared_commands(doc, dir).len() == declarations_among(members).filter(has_text()).len(),
{
    let declarations = declarations_among(members);
    assert forall|i: int| 0 <= i < declarations.len() implies (
    #[trigger] declarations[i]).name.len() > 0 && (declarations[i].text matches Some(text)
        ==> text.len() > 0) by {
        assert(declarations[i].name == members[i].0);
    }
    lemma_mixed_values_leave_the_strings(declarations, dir);
}

/// Every command of a list of declarations is complete, belongs to `dir` and
/// bears the name of a declaration of the list; and where no two declarations
/// bear the same name, no two commands do.
pub proof fn lemma_commands_come_from_declarations(
    declarations: Seq<DeclarationView>,
    dir: Seq<char>,
)
    ensures
        forall|k: int|
            0 <= k < commands_among(declarations, dir).len() ==> {
                let command = #[trigger] commands_among(declarations, dir)[k];
                &&& command.complete()
                &&& command.path == dir
                &&& exists|i: int|
                    0 <= i < declarations.len() && (#[trigger] declarations[i]).name
                        == command.name
            },
        distinct_declarations(declarations) ==> distinct_names(commands_among(declarations, dir)),
    decreases declarations.len(),
{
    if declarations.len() > 0 {
        let rest = declarations.drop_last();
        let last = declarations.last();
        let before = commands_among(rest, dir);
        let all = commands_among(declarations, dir);
        lemma_commands_come_from_declarations(rest, dir);
        assert forall|k: int| 0 <= k < all.len() implies ({
            let command = #[trigger] all[k];
            &&& command.complete()
            &&& command.path == dir
            &&& exists|i: int|
                0 <= i < declarations.len() && (#[trigger] declarations[i]).name == command.name
        }) by {
            if k < before.len() {
                assert(all[k] == before[k]);
                let i = choose|i: int|
                    0 <= i < rest.len() && (#[trigger] rest[i]).name == before[k].name;
                assert(declarations[i] == rest[i]);
            } else {
                assert(declarations[declarations.len() - 1].name == all[k].name);
            }
        }
        if distinct_declarations(declarations) {
            assert(distinct_declarations(rest)) by {
                assert forall|i: int, j: int|
                    #![trigger rest[i], rest[j]]
                    0 <= i < j < rest.len() implies rest[i].name != rest[j].name by {
                    assert(rest[i] == declarations[i]);
                    assert(rest[j] == declarations[j]);
                }
            }
            assert forall|k: int, l: int| 0 <= k < l < all.len() implies (#[trigger] all[k]).name
                != (#[trigger] all[l]).name by {
                assert(all[k] == before[k]);
                if l < before.len() {
                    assert(all[l] == before[l]);
                } else {
                    let i = choose|i: int|
                        0 <= i < rest.len() && (#[trigger] rest[i]).name == before[k].name;
                    assert(declarations[i] == rest[i]);
                    assert(declarations[declarations.len() - 1] == last);
                }
            }
        }
    }
}

/// The text of a path of two or more components is never the root's marker.
pub proof fn lemma_nested_path_is_not_the_marker(parts: PathView)
    requires
        parts.len() >= 2,
    ensures
        render_path(parts) != "."@,
{
    reveal_strlit(".");
    reveal_strlit("/");
    let head = render_path(parts.drop_last());
    let text = render_path(parts);
    assert(text == head + "/"@ + parts.last());
    assert(text[head.len() as int] == '/');
}

/// How the label of a command names the directory of its manifest: `root`
/// for a manifest that lies in the root, wherever that root may be, and the
/// path of its directory for every other one. The one directory left out is
/// a directory of the root that is itself called `.`.
pub proof fn lemma_display_of_origin(file: PathView)
    requires
        file.len() >= 1,
        !(file.len() == 2 && file[0] == "."@),
    ensures
        display_dir(origin_dir(file)) == if file.len() == 1 {
            "root"@
        } else {
            render_path(file.drop_last())
        },
{
    let dir = file.drop_last();
    if dir.len() >= 2 {
        lemma_nested_path_is_not_the_marker(dir);
    }
}

} // verus!
