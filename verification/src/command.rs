//! A command entry and the label under which the menu shows it.

use crate::style::{dim, dimmed, green, greened};
use vstd::prelude::*;
use vstd::string::StringExecFns;

verus! {

/// One script that a manifest declares. Those that are read out of a manifest
/// have a name and a shell text that are not empty.
#[derive(Debug, PartialEq, Eq)]
pub struct NpmCommand {
    /// The script's name in its manifest.
    pub name: String,
    /// The directory of the manifest, as text: where the script is shown to
    /// come from and where it is run.
    pub path: String,
    /// The shell text that the manifest gives for the name. It is shown, never
    /// run.
    pub command: String,
}

/// A command entry as three texts.
pub struct CommandView {
    pub name: Seq<char>,
    pub path: Seq<char>,
    pub command: Seq<char>,
}

impl View for NpmCommand {
    type V = CommandView;

    open spec fn view(&self) -> CommandView {
        CommandView { name: self.name@, path: self.path@, command: self.command@ }
    }
}

impl Clone for NpmCommand {
    fn clone(&self) -> (out: Self)
        ensures
            out@ == self@,
    {
        NpmCommand {
            name: self.name.clone(),
            path: self.path.clone(),
            command: self.command.clone(),
        }
    }
}

/// The commands of a list, each as its view.
pub open spec fn command_views(commands: Seq<NpmCommand>) -> Seq<CommandView> {
    commands.map_values(|c: NpmCommand| c@)
}

impl CommandView {
    /// Whether the command has a name and a shell text: neither is empty.
    pub open spec fn complete(self) -> bool {
        self.name.len() > 0 && self.command.len() > 0
    }
}

/// Whether no two commands of the list bear the same name.
pub open spec fn distinct_names(commands: Seq<CommandView>) -> bool {
    forall|i: int, j: int|
        #![trigger commands[i], commands[j]]
        0 <= i < j < commands.len() ==> commands[i].name != commands[j].name
}

/// How a label names a directory: the root of the traversal, whose path is
/// `.`, is called `root`; every other directory goes by its path.
pub open spec fn display_dir(path: Seq<char>) -> Seq<char> {
    if path == "."@ {
        "root"@
    } else {
        path
    }
}

/// The first part of a label: the directory in square brackets.
pub open spec fn origin_tag(path: Seq<char>) -> Seq<char> {
    "["@ + display_dir(path) + "]"@
}

/// The last part of a label: the shell text in braces.
pub open spec fn command_body(command: Seq<char>) -> Seq<char> {
    "{ "@ + command + " }"@
}

/// The label of a command: tag, name and body with one space between them. The
/// tag and the body are dim and the name is green, each where its switch is
/// on.
pub open spec fn label_text(c: CommandView, tag_on: bool, name_on: bool, body_on: bool) -> Seq<
    char,
> {
    dimmed(origin_tag(c.path), tag_on) + " "@ + greened(c.name, name_on) + " "@ + dimmed(
        command_body(c.command),
        body_on,
    )
}

/// Whether `text` is the label of `c`, whichever of its parts are styled.
pub open spec fn is_label(text: Seq<char>, c: CommandView) -> bool {
    exists|tag_on: bool, name_on: bool, body_on: bool|
        text == #[trigger] label_text(c, tag_on, name_on, body_on)
}

/// Puts the three parts of a label together, whatever styling each has got.
pub fn compose_label(tag: &str, name: &str, body: &str) -> (out: String)
    ensures
        out@ == tag@ + " "@ + name@ + " "@ + body@,
{
    let mut out = String::from_str(tag);
    out.append(" ");
    out.append(name);
    out.append(" ");
    out.append(body);
    out
}

impl NpmCommand {
    /// The directory as a label names it.
    pub fn display_path(&self) -> (out: String)
        ensures
            out@ == display_dir(self.path@),
    {
        if self.path == String::from_str(".") {
            String::from_str("root")
        } else {
            self.path.clone()
        }
    }

    /// The bracketed directory, without styling.
    pub fn tag(&self) -> (out: String)
        ensures
            out@ == origin_tag(self.path@),
    {
        let mut out = String::from_str("[");
        out.append(self.display_path().as_str());
        out.append("]");
        out
    }

    /// The braced shell text, without styling.
    pub fn body(&self) -> (out: String)
        ensures
            out@ == command_body(self.command@),
    {
        let mut out = String::from_str("{ ");
        out.append(self.command.as_str());
        out.append(" }");
        out
    }

    /// The label without any styling.
    pub fn plain_label(&self) -> (out: String)
        ensures
            out@ == label_text(self@, false, false, false),
    {
        compose_label(self.tag().as_str(), self.name.as_str(), self.body().as_str())
    }

    /// The label as the menu shows it. Whether a part carries its escape
    /// codes is for the terminal library to say, part by part; the text
    /// between them is fixed.
    pub fn to_string(&self) -> (out: String)
        ensures
            is_label(out@, self@),
    {
        let tag = dim(self.tag().as_str());
        let name = green(self.name.as_str());
        let body = dim(self.body().as_str());
        let out = compose_label(tag.as_str(), name.as_str(), body.as_str());
        proof {
            let tag_on = tag@ != origin_tag(self.path@);
            let name_on = name@ != self.name@;
            let body_on = body@ != command_body(self.command@);
            assert(out@ == label_text(self@, tag_on, name_on, body_on));
        }
        out
    }
}

} // verus!
