//! An application as the launcher knows it: a name to show and a command to
//! run.

use vstd::prelude::*;

verus! {

/// What an entry holds, as sequences of characters.
pub struct EntryView {
    pub name: Seq<char>,
    pub command: Seq<char>,
}

/// One launchable application.
#[derive(Debug, PartialEq, Eq)]
pub struct ApplicationEntry {
    /// The label shown to the user.
    pub name: String,
    /// The command line handed to the shell.
    pub command: String,
}

impl View for ApplicationEntry {
    type V = EntryView;

    open spec fn view(&self) -> EntryView {
        EntryView { name: self.name@, command: self.command@ }
    }
}

impl Clone for ApplicationEntry {
    fn clone(&self) -> (r: Self)
        ensures
            r == *self,
    {
        ApplicationEntry { name: self.name.clone(), command: self.command.clone() }
    }
}

impl ApplicationEntry {
    /// An entry with the given name and command.
    pub fn new(name: &str, command: &str) -> (r: Self)
        ensures
            r.name@ == name@,
            r.command@ == command@,
    {
        ApplicationEntry { name: name.to_owned(), command: command.to_owned() }
    }
}

} // verus!
