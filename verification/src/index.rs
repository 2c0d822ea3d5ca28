//! The index of applications: the entries that the desktop entry files
//! describe, in the order in which the files were found.

use crate::descriptor::{parse_desktop_entry, parse_spec};
use crate::entry::{ApplicationEntry, EntryView};
use vstd::prelude::*;

verus! {

/// What each of `entries` holds.
pub open spec fn entry_views(entries: Seq<ApplicationEntry>) -> Seq<EntryView> {
    Seq::new(entries.len(), |i: int| entries[i]@)
}

/// The entries that the first `n` files describe, in the order of the files.
/// A file that could not be read, or that describes nothing, adds nothing.
pub open spec fn indexed(contents: Seq<Option<String>>, n: int) -> Seq<EntryView>
    decreases n,
{
    if n <= 0 {
        Seq::empty()
    } else {
        let before = indexed(contents, n - 1);
        match contents[n - 1] {
            Some(text) => match parse_spec(text@) {
                Some(entry) => before.push(entry),
                None => before,
            },
            None => before,
        }
    }
}

/// Builds the index from what was read of each file that was found: the text
/// of the file, or nothing where it could not be read as text. Each file
/// that describes an entry adds it; the others are passed over.
pub fn build_index(contents: &Vec<Option<String>>) -> (applications: Vec<ApplicationEntry>)
    ensures
        entry_views(applications@) == indexed(contents@, contents.len() as int),
{
    let mut applications: Vec<ApplicationEntry> = Vec::new();
    let mut i: usize = 0;
    assert(entry_views(applications@) == Seq::<EntryView>::empty());
    while i < contents.len()
        invariant
            i <= contents.len(),
            entry_views(applications@) == indexed(contents@, i as int),
        decreases contents.len() - i,
    {
        let ghost before = entry_views(applications@);
        match &contents[i] {
            Some(text) => match parse_desktop_entry(text.as_str()) {
                Some(entry) => {
                    applications.push(entry);
                    assert(entry_views(applications@) == before.push(entry@));
                },
                None => {},
            },
            None => {},
        }
        i += 1;
    }
    applications
}

} // verus!
