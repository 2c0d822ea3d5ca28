//! The first results of a session: the recently used applications that are
//! still in the index.

use crate::entry::ApplicationEntry;
use crate::search::capped;
use crate::text::texts;
use vstd::prelude::*;

verus! {

/// The first of `entries` whose name is `name`.
pub open spec fn find_by_name(entries: Seq<ApplicationEntry>, name: Seq<char>) -> Option<
    ApplicationEntry,
>
    decreases entries.len(),
{
    if entries.len() == 0 {
        None
    } else if entries[0].name@ == name {
        Some(entries[0])
    } else {
        find_by_name(entries.skip(1), name)
    }
}

/// The entries that the first `n` of `names` stand for, in the order of the
/// names. A name that no entry has stands for nothing.
pub open spec fn resolved(names: Seq<Seq<char>>, entries: Seq<ApplicationEntry>, n: int) -> Seq<
    ApplicationEntry,
>
    decreases n,
{
    if n <= 0 {
        Seq::empty()
    } else {
        let before = resolved(names, entries, n - 1);
        match find_by_name(entries, names[n - 1]) {
            Some(e) => before.push(e),
            None => before,
        }
    }
}

/// The results that a session starts with: the entries that `names` stand
/// for, no more than `max`.
pub open spec fn seed_spec(names: Seq<Seq<char>>, entries: Seq<ApplicationEntry>, max: nat) -> Seq<
    ApplicationEntry,
> {
    capped(resolved(names, entries, names.len() as int), max)
}

/// What fewer names stand for begins what more names stand for.
pub proof fn lemma_resolved_grows(
    names: Seq<Seq<char>>,
    entries: Seq<ApplicationEntry>,
    m: int,
    n: int,
)
    requires
        0 <= m <= n,
    ensures
        resolved(names, entries, m).is_prefix_of(resolved(names, entries, n)),
    decreases n - m,
{
    if m < n {
        lemma_resolved_grows(names, entries, m, n - 1);
    }
}

/// An entry found by name has that name and is one of the entries.
pub proof fn lemma_find_by_name(entries: Seq<ApplicationEntry>, name: Seq<char>)
    ensures
        match find_by_name(entries, name) {
            Some(e) => e.name@ == name && entries.contains(e),
            None => forall|i: int| 0 <= i < entries.len() ==> (#[trigger] entries[i]).name@ != name,
        },
    decreases entries.len(),
{
    if entries.len() > 0 && entries[0].name@ != name {
        let rest = entries.skip(1);
        lemma_find_by_name(rest, name);
        match find_by_name(rest, name) {
            Some(e) => {
                let i = choose|i: int| 0 <= i < rest.len() && rest[i] == e;
                assert(entries[i + 1] == e);
            },
            None => {
                assert forall|i: int| 0 <= i < entries.len() implies (
                #[trigger] entries[i]).name@ != name by {
                    if i > 0 {
                        assert(rest[i - 1] == entries[i]);
                    }
                }
            },
        }
    } else if entries.len() > 0 {
        assert(entries[0] == entries[0]);
    }
}

/// Looks for the first entry with the given name.
pub fn find_entry<'a>(entries: &'a Vec<ApplicationEntry>, name: &str) -> (r: Option<
    &'a ApplicationEntry,
>)
    ensures
        match r {
            Some(e) => find_by_name(entries@, name@) == Some(*e),
            None => find_by_name(entries@, name@) is None,
        },
{
    let wanted: String = name.to_owned();
    let mut i: usize = 0;
    assert(entries@.skip(0) == entries@);
    while i < entries.len()
        invariant
            i <= entries.len(),
            wanted@ == name@,
            find_by_name(entries@, name@) == find_by_name(entries@.skip(i as int), name@),
        decreases entries.len() - i,
    {
        assert(entries@.skip(i as int)[0] == entries@[i as int]);
        assert(entries@.skip(i as int).skip(1) == entries@.skip(i + 1));
        if entries[i].name == wanted {
            return Some(&entries[i]);
        }
        i += 1;
    }
    None
}

/// The results that a session starts with. Each of `recent_apps`, in the
/// order given, is looked up in `applications` by its exact name; the first
/// entry with that name is taken, and a name that no entry has is passed
/// over. At most `max_results` entries are returned.
pub fn seed_results(
    recent_apps: &Vec<String>,
    applications: &Vec<ApplicationEntry>,
    max_results: usize,
) -> (results: Vec<ApplicationEntry>)
    ensures
        results@ == seed_spec(texts(recent_apps@), applications@, max_results as nat),
        results.len() <= max_results,
        forall|k: int| 0 <= k < results.len() ==> applications@.contains(#[trigger] results@[k]),
{
    let ghost names = texts(recent_apps@);
    let mut results: Vec<ApplicationEntry> = Vec::new();
    let mut i: usize = 0;
    while i < recent_apps.len() && results.len() < max_results
        invariant
            i <= recent_apps.len(),
            names == texts(recent_apps@),
            results.len() <= max_results,
            results@ == resolved(names, applications@, i as int),
            forall|k: int| 0 <= k < results.len() ==> applications@.contains(#[trigger] results@[k]),
        decreases recent_apps.len() - i,
    {
        proof {
            lemma_find_by_name(applications@, names[i as int]);
        }
        match find_entry(applications, recent_apps[i].as_str()) {
            Some(e) => {
                results.push(e.clone());
            },
            None => {},
        }
        i += 1;
    }
    proof {
        let n = names.len() as int;
        let all = resolved(names, applications@, n);
        lemma_resolved_grows(names, applications@, i as int, n);
        if i < n {
            assert(all.take(max_results as int) == results@);
        }
    }
    results
}

/// The recent applications after a launch of `name`: `name` first, then the
/// first `n` of `names` without `name`, in their order.
pub open spec fn promoted(names: Seq<Seq<char>>, name: Seq<char>, n: int) -> Seq<Seq<char>>
    decreases n,
{
    if n <= 0 {
        seq![name]
    } else {
        let before = promoted(names, name, n - 1);
        if names[n - 1] == name {
            before
        } else {
            before.push(names[n - 1])
        }
    }
}

/// Records a launch of `app_name` in the list of recent applications, which
/// has the most recent first: the name moves to the front, or is put there
/// if the list did not hold it, and the other names keep their order.
pub fn record_launch(recent_apps: &Vec<String>, app_name: &str) -> (updated: Vec<String>)
    ensures
        texts(updated@) == promoted(texts(recent_apps@), app_name@, recent_apps.len() as int),
{
    let ghost names = texts(recent_apps@);
    let name: String = app_name.to_owned();
    let mut updated: Vec<String> = Vec::new();
    updated.push(name.clone());
    assert(texts(updated@) == seq![app_name@]);
    let mut i: usize = 0;
    while i < recent_apps.len()
        invariant
            i <= recent_apps.len(),
            name@ == app_name@,
            names == texts(recent_apps@),
            texts(updated@) == promoted(names, app_name@, i as int),
        decreases recent_apps.len() - i,
    {
        let ghost before = texts(updated@);
        if recent_apps[i] != name {
            updated.push(recent_apps[i].clone());
            assert(texts(updated@) == before.push(names[i as int]));
        }
        i += 1;
    }
    updated
}

} // verus!
