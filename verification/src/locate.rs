//! Where desktop entry files are looked for, and which files of a directory
//! are desktop entry files.

use crate::text::{chars_of, matches_at, texts};
use vstd::prelude::*;

verus! {

/// The base directories of `xdg`, as found from the environment.
#[verifier::external_type_specification]
#[verifier::external_body]
pub struct ExBaseDirectories(xdg::BaseDirectories);

/// The error with which `xdg` fails to find the base directories.
#[verifier::external_type_specification]
#[verifier::external_body]
pub struct ExBaseDirectoriesError(xdg::BaseDirectoriesError);

/// `xdg::BaseDirectories::new`: reads the environment and gives the base
/// directories, or an error where the home directory cannot be found.
/// Nothing is claimed of the outcome.
pub assume_specification[ xdg::BaseDirectories::new ]() -> (r: Result<
    xdg::BaseDirectories,
    xdg::BaseDirectoriesError,
>)
;

/// `xdg::BaseDirectories::get_data_home`: the data directory of the user.
/// Nothing is claimed of it. A path that is not valid Unicode comes with the
/// replacement character where it could not be read.
#[verifier::external_body]
fn data_home(base: &xdg::BaseDirectories) -> (dir: String) {
    base.get_data_home().to_string_lossy().into_owned()
}

/// `xdg::BaseDirectories::get_data_dirs`: the data directories of the
/// system, the preferred ones first. Nothing is claimed of them. A path that
/// is not valid Unicode comes with the replacement character where it could
/// not be read.
#[verifier::external_body]
fn data_dirs(base: &xdg::BaseDirectories) -> (dirs: Vec<String>) {
    let mut dirs: Vec<String> = Vec::new();
    for path in base.get_data_dirs() {
        dirs.push(path.to_string_lossy().into_owned());
    }
    dirs
}

/// The text of the error of `xdg`, as its `Display` writes it. Nothing is
/// claimed of it.
#[verifier::external_body]
fn error_text(error: &xdg::BaseDirectoriesError) -> (text: String) {
    format!("{}", error)
}

/// The base directories could not be found; the text says why.
#[derive(Debug, PartialEq, Eq)]
pub struct LocateError {
    pub reason: String,
}

/// The files found in one directory.
#[derive(Debug, PartialEq, Eq)]
pub struct DirectoryListing {
    /// The path of the directory.
    pub directory: String,
    /// The names of its files, without the directory.
    pub file_names: Vec<String>,
}

/// The name of the directory of desktop entry files within a data directory.
pub open spec fn applications_dir() -> Seq<char> {
    "applications"@
}

/// The end of the name of a desktop entry file.
pub open spec fn desktop_suffix() -> Seq<char> {
    seq!['.', 'd', 'e', 's', 'k', 't', 'o', 'p']
}

/// The path of the entry `name` of the directory `dir`: the two joined by a
/// slash, which is left out where `dir` is empty or ends with one.
pub open spec fn child_path(dir: Seq<char>, name: Seq<char>) -> Seq<char> {
    if dir.len() > 0 && dir.last() != '/' {
        dir + seq!['/'] + name
    } else {
        dir + name
    }
}

/// Whether a file of this name is a desktop entry file: its extension, the
/// part after the last dot, is `desktop`, and the name does not begin with
/// that dot.
pub open spec fn is_desktop_name(name: Seq<char>) -> bool {
    name.len() > desktop_suffix().len() && desktop_suffix().is_suffix_of(name)
}

/// The directories of desktop entry files: that of the user's data
/// directory, then those of the data directories of the system, in their
/// order.
pub open spec fn application_dirs_spec(home: Seq<char>, dirs: Seq<Seq<char>>) -> Seq<Seq<char>> {
    seq![child_path(home, applications_dir())] + Seq::new(
        dirs.len(),
        |i: int| child_path(dirs[i], applications_dir()),
    )
}

/// The paths of the desktop entry files among the first `n` names of a
/// directory, in the order of the names.
pub open spec fn desktop_files(dir: Seq<char>, names: Seq<Seq<char>>, n: int) -> Seq<Seq<char>>
    decreases n,
{
    if n <= 0 {
        Seq::empty()
    } else {
        let before = desktop_files(dir, names, n - 1);
        if is_desktop_name(names[n - 1]) {
            before.push(child_path(dir, names[n - 1]))
        } else {
            before
        }
    }
}

/// The paths of the desktop entry files of the first `n` listings: those of
/// the first directory, then those of the second, and so on.
pub open spec fn located(listings: Seq<DirectoryListing>, n: int) -> Seq<Seq<char>>
    decreases n,
{
    if n <= 0 {
        Seq::empty()
    } else {
        located(listings, n - 1) + desktop_files(
            listings[n - 1].directory@,
            texts(listings[n - 1].file_names@),
            listings[n - 1].file_names@.len() as int,
        )
    }
}

/// Computes `child_path`.
pub fn join_path(dir: &str, name: &str) -> (path: String)
    ensures
        path@ == child_path(dir@, name@),
{
    let chars = chars_of(dir);
    let mut path: String = dir.to_owned();
    if chars.len() > 0 && chars[chars.len() - 1] != '/' {
        path.push('/');
    }
    path.append(name);
    assert(dir@.push('/') == dir@ + seq!['/']);
    path
}

/// Decides `is_desktop_name`.
pub fn is_desktop_file(file_name: &str) -> (r: bool)
    ensures
        r == is_desktop_name(file_name@),
{
    let name = chars_of(file_name);
    let suffix: Vec<char> = vec!['.', 'd', 'e', 's', 'k', 't', 'o', 'p'];
    assert(suffix@ == desktop_suffix());
    if name.len() <= suffix.len() {
        return false;
    }
    matches_at(&name, &suffix, name.len() - suffix.len())
}

/// The directories of desktop entry files under the given data directories.
pub fn application_dirs_of(home: &str, dirs: &Vec<String>) -> (r: Vec<String>)
    ensures
        texts(r@) == application_dirs_spec(home@, texts(dirs@)),
{
    let mut r: Vec<String> = Vec::new();
    r.push(join_path(home, "applications"));
    let mut i: usize = 0;
    while i < dirs.len()
        invariant
            i <= dirs.len(),
            r.len() == i + 1,
            r@[0]@ == child_path(home@, applications_dir()),
            forall|j: int|
                0 <= j < i ==> (#[trigger] r@[j + 1])@ == child_path(dirs@[j]@, applications_dir()),
        decreases dirs.len() - i,
    {
        r.push(join_path(dirs[i].as_str(), "applications"));
        i += 1;
    }
    proof {
        let want = application_dirs_spec(home@, texts(dirs@));
        assert forall|k: int| 0 <= k < want.len() implies texts(r@)[k] == want[k] by {
            if k > 0 {
                assert(r@[(k - 1) + 1]@ == child_path(dirs@[k - 1]@, applications_dir()));
            }
        }
        assert(texts(r@) =~= want);
    }
    r
}

/// The directories in which desktop entry files are looked for: the
/// `applications` directory of the user's data directory and of each data
/// directory of the system, as the environment gives them. Fails where the
/// base directories cannot be found.
pub fn application_dirs() -> (r: Result<Vec<String>, LocateError>)
    ensures
        r matches Ok(found) ==> exists|home: Seq<char>, dirs: Seq<Seq<char>>|
            texts(found@) == #[trigger] application_dirs_spec(home, dirs),
{
    let found = match xdg::BaseDirectories::new() {
        Ok(base) => Ok(DataDirectories { home: data_home(&base), dirs: data_dirs(&base) }),
        Err(error) => Err(error_text(&error)),
    };
    application_dirs_from(found)
}

/// The data directories as the environment gives them.
#[derive(Debug, PartialEq, Eq)]
pub struct DataDirectories {
    /// The data directory of the user.
    pub home: String,
    /// The data directories of the system, the preferred ones first.
    pub dirs: Vec<String>,
}

/// The directories in which desktop entry files are looked for, given how
/// the search for the data directories went: where they were found, the
/// `applications` directory of the user's data directory and of each data
/// directory of the system; where they were not, the failure with the reason
/// given.
pub fn application_dirs_from(found: Result<DataDirectories, String>) -> (r: Result<
    Vec<String>,
    LocateError,
>)
    ensures
        match found {
            Ok(data) => r matches Ok(dirs) && texts(dirs@) == application_dirs_spec(
                data.home@,
                texts(data.dirs@),
            ),
            Err(reason) => r matches Err(error) && error.reason@ == reason@,
        },
{
    match found {
        Ok(data) => Ok(application_dirs_of(data.home.as_str(), &data.dirs)),
        Err(reason) => Err(LocateError { reason: reason }),
    }
}

/// The paths of the desktop entry files of one directory, in the order of
/// its listing.
pub fn desktop_files_in(listing: &DirectoryListing) -> (paths: Vec<String>)
    ensures
        texts(paths@) == desktop_files(
            listing.directory@,
            texts(listing.file_names@),
            listing.file_names@.len() as int,
        ),
{
    let ghost names = texts(listing.file_names@);
    let mut paths: Vec<String> = Vec::new();
    let mut i: usize = 0;
    while i < listing.file_names.len()
        invariant
            i <= listing.file_names.len(),
            names == texts(listing.file_names@),
            texts(paths@) == desktop_files(listing.directory@, names, i as int),
        decreases listing.file_names.len() - i,
    {
        let ghost before = texts(paths@);
        if is_desktop_file(listing.file_names[i].as_str()) {
            paths.push(join_path(listing.directory.as_str(), listing.file_names[i].as_str()));
            assert(texts(paths@) == before.push(child_path(listing.directory@, names[i as int])));
        }
        i += 1;
    }
    paths
}

/// The paths of all desktop entry files, given what each directory holds:
/// the files of a directory keep the order of its listing, and the
/// directories the order in which they are given.
pub fn get_desktop_entries(listings: &Vec<DirectoryListing>) -> (paths: Vec<String>)
    ensures
        texts(paths@) == located(listings@, listings.len() as int),
{
    let mut paths: Vec<String> = Vec::new();
    let mut i: usize = 0;
    assert(texts(paths@) == Seq::<Seq<char>>::empty());
    while i < listings.len()
        invariant
            i <= listings.len(),
            texts(paths@) == located(listings@, i as int),
        decreases listings.len() - i,
    {
        let ghost before = texts(paths@);
        let mut found = desktop_files_in(&listings[i]);
        let ghost added = texts(found@);
        paths.append(&mut found);
        assert(texts(paths@) == before + added);
        i += 1;
    }
    paths
}

} // verus!
