//! The registry: the commands of all manifests in one list.

use crate::command::{command_views, is_label, CommandView, NpmCommand};
use vstd::prelude::*;

verus! {

/// The commands that the menu offers, in the order in which their manifests
/// were located and, within a manifest, in the order in which they were read.
/// Two commands of one name are two entries.
#[derive(Debug)]
pub struct Registry {
    pub commands: Vec<NpmCommand>,
}

impl View for Registry {
    type V = Seq<CommandView>;

    open spec fn view(&self) -> Seq<CommandView> {
        command_views(self.commands@)
    }
}

/// Whether `labels` are the labels of `commands`, one for one. Each label is
/// its command's text; which of its parts carry escape codes is left open.
pub open spec fn labels_of(labels: Seq<String>, commands: Seq<CommandView>) -> bool {
    &&& labels.len() == commands.len()
    &&& forall|i: int| 0 <= i < labels.len() ==> #[trigger] is_label(labels[i]@, commands[i])
}

impl Registry {
    /// A registry without commands.
    pub fn new() -> (out: Registry)
        ensures
            out@ == Seq::<CommandView>::empty(),
    {
        Registry { commands: Vec::new() }
    }

    /// Adds the commands of one more manifest behind those already there.
    pub fn extend(&mut self, commands: Vec<NpmCommand>)
        ensures
            final(self)@ == old(self)@ + command_views(commands@),
    {
        let mut commands = commands;
        self.commands.append(&mut commands);
    }

    /// The number of commands.
    pub fn len(&self) -> (out: usize)
        ensures
            out == self@.len(),
    {
        self.commands.len()
    }

    /// Whether there is no command at all.
    pub fn is_empty(&self) -> (out: bool)
        ensures
            out == (self@.len() == 0),
    {
        self.commands.len() == 0
    }

    /// The command at `index`, counted from zero.
    pub fn get(&self, index: usize) -> (out: Option<&NpmCommand>)
        ensures
            match out {
                Some(command) => index < self@.len() && command@ == self@[index as int],
                None => index >= self@.len(),
            },
    {
        if index < self.commands.len() {
            Some(&self.commands[index])
        } else {
            None
        }
    }

    /// The menu's lines: the label of each command, in the registry's order.
    pub fn labels(&self) -> (out: Vec<String>)
        ensures
            labels_of(out@, self@),
    {
        let mut out: Vec<String> = Vec::new();
        let mut i: usize = 0;
        while i < self.commands.len()
            invariant
                i <= self.commands.len(),
                labels_of(out@, self@.take(i as int)),
            decreases self.commands.len() - i,
        {
            out.push(self.commands[i].to_string());
            assert forall|k: int| 0 <= k < out@.len() implies #[trigger] is_label(
                out@[k]@,
                self@.take(i + 1)[k],
            ) by {}
            i += 1;
        }
        assert(self@.take(i as int) =~= self@);
        out
    }
}

} // verus!
