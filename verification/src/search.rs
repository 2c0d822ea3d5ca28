//! Search by name: which entries of the index answer a query, and in what
//! order.

use crate::entry::ApplicationEntry;
use crate::text::{chars_of, contains, contains_chars, occurs_at, texts};
use vstd::prelude::*;

verus! {

/// The lowercase form of a sequence of characters, as `str::to_lowercase`
/// of the standard library gives it.
pub uninterp spec fn lowercase(s: Seq<char>) -> Seq<char>;

/// `str::to_lowercase` of the standard library: the result is the lowercase
/// form of the argument, which is empty for the empty string.
pub assume_specification[ str::to_lowercase ](s: &str) -> (r: String)
    ensures
        r@ == lowercase(s@),
        s@.len() == 0 ==> r@.len() == 0,
;

/// The lowercase forms of the names of `entries`.
pub open spec fn lowered_names(entries: Seq<ApplicationEntry>) -> Seq<Seq<char>> {
    Seq::new(entries.len(), |i: int| lowercase(entries[i].name@))
}

/// Whether the key at position `i` holds `needle`. A position without a key
/// holds nothing.
pub open spec fn key_matches(needle: Seq<char>, keys: Seq<Seq<char>>, i: int) -> bool {
    0 <= i < keys.len() && contains(keys[i], needle)
}

/// Whether one of the first `n` entries has the name `name` and a key that
/// holds `needle`.
pub open spec fn name_matched(
    needle: Seq<char>,
    keys: Seq<Seq<char>>,
    entries: Seq<ApplicationEntry>,
    n: int,
    name: Seq<char>,
) -> bool {
    exists|j: int|
        0 <= j < n && j < entries.len() && key_matches(needle, keys, j) && (
        #[trigger] entries[j]).name@ == name
}

/// Whether `e` is one of the first `n` entries and has a key that holds
/// `needle`.
pub open spec fn entry_matched(
    needle: Seq<char>,
    keys: Seq<Seq<char>>,
    entries: Seq<ApplicationEntry>,
    n: int,
    e: ApplicationEntry,
) -> bool {
    exists|j: int|
        0 <= j < n && j < entries.len() && key_matches(needle, keys, j) && #[trigger] entries[j]
            == e
}

/// Whether the entry at position `i` is kept: its key holds `needle`, and no
/// entry before it with the same name has a key that does.
pub open spec fn is_first_match(
    needle: Seq<char>,
    keys: Seq<Seq<char>>,
    entries: Seq<ApplicationEntry>,
    i: int,
) -> bool {
    key_matches(needle, keys, i) && !name_matched(needle, keys, entries, i, entries[i].name@)
}

/// The entries kept among the first `n`, in the order of the index.
pub open spec fn matches_among(
    needle: Seq<char>,
    keys: Seq<Seq<char>>,
    entries: Seq<ApplicationEntry>,
    n: int,
) -> Seq<ApplicationEntry>
    decreases n,
{
    if n <= 0 {
        Seq::empty()
    } else {
        let before = matches_among(needle, keys, entries, n - 1);
        if is_first_match(needle, keys, entries, n - 1) {
            before.push(entries[n - 1])
        } else {
            before
        }
    }
}

/// The first `max` elements of `s`, or all of `s` where it has no more.
pub open spec fn capped<T>(s: Seq<T>, max: nat) -> Seq<T> {
    if s.len() <= max {
        s
    } else {
        s.take(max as int)
    }
}

/// The entries whose key holds `needle`, the first of each name only, in the
/// order of the index and no more than `max`.
pub open spec fn select(
    needle: Seq<char>,
    keys: Seq<Seq<char>>,
    entries: Seq<ApplicationEntry>,
    max: nat,
) -> Seq<ApplicationEntry> {
    capped(matches_among(needle, keys, entries, entries.len() as int), max)
}

/// The answer to `query`: the entries whose lowercase name holds the
/// lowercase query, the first of each name only, in the order of the index
/// and no more than `max`.
pub open spec fn search_spec(query: Seq<char>, entries: Seq<ApplicationEntry>, max: nat) -> Seq<
    ApplicationEntry,
> {
    select(lowercase(query), lowered_names(entries), entries, max)
}

/// Whether `name` is the name of an element of `s`.
pub open spec fn holds_name(s: Seq<ApplicationEntry>, name: Seq<char>) -> bool {
    exists|k: int| 0 <= k < s.len() && (#[trigger] s[k]).name@ == name
}

/// Whether the entry at position `i` is the first of its name.
pub open spec fn is_first_of_name(entries: Seq<ApplicationEntry>, i: int) -> bool {
    forall|j: int| 0 <= j < i ==> (#[trigger] entries[j]).name@ != entries[i].name@
}

/// The first entry of each name among the first `n`, in the order of the
/// index.
pub open spec fn first_of_each_name(entries: Seq<ApplicationEntry>, n: int) -> Seq<
    ApplicationEntry,
>
    decreases n,
{
    if n <= 0 {
        Seq::empty()
    } else {
        let before = first_of_each_name(entries, n - 1);
        if is_first_of_name(entries, n - 1) {
            before.push(entries[n - 1])
        } else {
            before
        }
    }
}

/// The kept entries carry exactly the names of the entries whose key holds
/// the needle.
pub proof fn lemma_names_of_matches(
    needle: Seq<char>,
    keys: Seq<Seq<char>>,
    entries: Seq<ApplicationEntry>,
    n: int,
    name: Seq<char>,
)
    requires
        0 <= n <= entries.len(),
    ensures
        holds_name(matches_among(needle, keys, entries, n), name) <==> name_matched(
            needle,
            keys,
            entries,
            n,
            name,
        ),
    decreases n,
{
    if n > 0 {
        let before = matches_among(needle, keys, entries, n - 1);
        let now = matches_among(needle, keys, entries, n);
        let e = entries[n - 1];
        lemma_names_of_matches(needle, keys, entries, n - 1, name);
        lemma_names_of_matches(needle, keys, entries, n - 1, e.name@);
        if holds_name(now, name) {
            let k = choose|k: int| 0 <= k < now.len() && (#[trigger] now[k]).name@ == name;
            if k < before.len() {
                assert(before[k] == now[k]);
                let j = choose|j: int|
                    0 <= j < n - 1 && j < entries.len() && key_matches(needle, keys, j) && (
                    #[trigger] entries[j]).name@ == name;
                assert(0 <= j < n && entries[j].name@ == name);
            } else {
                assert(now[k] == e);
                assert(key_matches(needle, keys, n - 1) && entries[n - 1].name@ == name);
            }
        }
        if name_matched(needle, keys, entries, n, name) {
            let j = choose|j: int|
                0 <= j < n && j < entries.len() && key_matches(needle, keys, j) && (
                #[trigger] entries[j]).name@ == name;
            if j < n - 1 {
                assert(entries[j].name@ == name);
                assert(name_matched(needle, keys, entries, n - 1, name));
                let k = choose|k: int|
                    0 <= k < before.len() && (#[trigger] before[k]).name@ == name;
                assert(now[k] == before[k]);
            } else if is_first_match(needle, keys, entries, n - 1) {
                assert(now[now.len() - 1] == e);
            } else {
                assert(name_matched(needle, keys, entries, n - 1, e.name@));
                let k = choose|k: int|
                    0 <= k < before.len() && (#[trigger] before[k]).name@ == name;
                assert(now[k] == before[k]);
            }
        }
    }
}

/// What is kept among fewer entries begins what is kept among more.
pub proof fn lemma_matches_grow(
    needle: Seq<char>,
    keys: Seq<Seq<char>>,
    entries: Seq<ApplicationEntry>,
    m: int,
    n: int,
)
    requires
        0 <= m <= n,
    ensures
        matches_among(needle, keys, entries, m).is_prefix_of(
            matches_among(needle, keys, entries, n),
        ),
    decreases n - m,
{
    if m < n {
        lemma_matches_grow(needle, keys, entries, m, n - 1);
    }
}

/// Every entry kept among the first `n` is one of them with a key that holds
/// the needle, and no two kept entries have the same name.
pub proof fn lemma_matches_sound(
    needle: Seq<char>,
    keys: Seq<Seq<char>>,
    entries: Seq<ApplicationEntry>,
    n: int,
)
    requires
        0 <= n <= entries.len(),
    ensures
        forall|k: int|
            0 <= k < matches_among(needle, keys, entries, n).len() ==> entry_matched(
                needle,
                keys,
                entries,
                n,
                #[trigger] matches_among(needle, keys, entries, n)[k],
            ),
        forall|k: int, l: int|
            0 <= k < l < matches_among(needle, keys, entries, n).len() ==> (
            #[trigger] matches_among(needle, keys, entries, n)[k]).name@ != (
            #[trigger] matches_among(needle, keys, entries, n)[l]).name@,
    decreases n,
{
    if n > 0 {
        let before = matches_among(needle, keys, entries, n - 1);
        let now = matches_among(needle, keys, entries, n);
        let e = entries[n - 1];
        lemma_matches_sound(needle, keys, entries, n - 1);
        lemma_names_of_matches(needle, keys, entries, n - 1, e.name@);
        assert forall|k: int| 0 <= k < now.len() implies entry_matched(
            needle,
            keys,
            entries,
            n,
            #[trigger] now[k],
        ) by {
            if k < before.len() {
                assert(now[k] == before[k]);
                assert(entry_matched(needle, keys, entries, n - 1, before[k]));
                let i = choose|i: int|
                    0 <= i < n - 1 && i < entries.len() && key_matches(needle, keys, i)
                        && #[trigger] entries[i] == before[k];
                assert(0 <= i < n && entries[i] == now[k]);
            } else {
                assert(now[k] == entries[n - 1]);
            }
        }
        assert forall|k: int, l: int| 0 <= k < l < now.len() implies (#[trigger] now[k]).name@ != (
        #[trigger] now[l]).name@ by {
            if l < before.len() {
                assert(now[k] == before[k] && now[l] == before[l]);
            } else {
                assert(now[l] == e);
                assert(now[k] == before[k]);
                assert(!holds_name(before, e.name@));
            }
        }
    }
}

/// Every entry that `select` gives is an entry of the index whose key holds
/// the needle, no two of them have the same name, and they are at most
/// `max`.
pub proof fn lemma_select_sound(
    needle: Seq<char>,
    keys: Seq<Seq<char>>,
    entries: Seq<ApplicationEntry>,
    max: nat,
)
    ensures
        select(needle, keys, entries, max).len() <= max,
        forall|k: int|
            0 <= k < select(needle, keys, entries, max).len() ==> entry_matched(
                needle,
                keys,
                entries,
                entries.len() as int,
                #[trigger] select(needle, keys, entries, max)[k],
            ),
        forall|k: int, l: int|
            0 <= k < l < select(needle, keys, entries, max).len() ==> (#[trigger] select(
                needle,
                keys,
                entries,
                max,
            )[k]).name@ != (#[trigger] select(needle, keys, entries, max)[l]).name@,
{
    let n = entries.len() as int;
    let all = matches_among(needle, keys, entries, n);
    let r = select(needle, keys, entries, max);
    lemma_matches_sound(needle, keys, entries, n);
    assert forall|k: int| 0 <= k < r.len() implies entry_matched(
        needle,
        keys,
        entries,
        n,
        #[trigger] r[k],
    ) by {
        assert(r[k] == all[k]);
    }
    assert forall|k: int, l: int| 0 <= k < l < r.len() implies (#[trigger] r[k]).name@ != (
    #[trigger] r[l]).name@ by {
        assert(r[k] == all[k] && r[l] == all[l]);
    }
}

/// With the empty needle and a key for every entry, the kept entries are the
/// first of each name.
pub proof fn lemma_empty_needle(
    needle: Seq<char>,
    keys: Seq<Seq<char>>,
    entries: Seq<ApplicationEntry>,
    n: int,
)
    requires
        needle.len() == 0,
        0 <= n <= entries.len() <= keys.len(),
    ensures
        matches_among(needle, keys, entries, n) == first_of_each_name(entries, n),
    decreases n,
{
    if n > 0 {
        lemma_empty_needle(needle, keys, entries, n - 1);
        assert forall|j: int| 0 <= j < n implies key_matches(needle, keys, j) by {
            assert(keys[j].subrange(0, 0) == needle);
            assert(occurs_at(keys[j], needle, 0));
        }
        let e = entries[n - 1];
        if name_matched(needle, keys, entries, n - 1, e.name@) {
            let j = choose|j: int|
                0 <= j < n - 1 && j < entries.len() && key_matches(needle, keys, j) && (
                #[trigger] entries[j]).name@ == e.name@;
            assert(!is_first_of_name(entries, n - 1));
        }
        if !is_first_of_name(entries, n - 1) {
            let j = choose|j: int| 0 <= j < n - 1 && (#[trigger] entries[j]).name@ == e.name@;
            assert(key_matches(needle, keys, j));
            assert(name_matched(needle, keys, entries, n - 1, e.name@));
        }
    }
}

/// Whether one of `entries` has the name `name`.
fn has_name(entries: &Vec<ApplicationEntry>, name: &String) -> (r: bool)
    ensures
        r == holds_name(entries@, name@),
{
    let mut k: usize = 0;
    while k < entries.len()
        invariant
            k <= entries.len(),
            forall|j: int| 0 <= j < k ==> (#[trigger] entries@[j]).name@ != name@,
        decreases entries.len() - k,
    {
        if entries[k].name == *name {
            return true;
        }
        k += 1;
    }
    false
}

/// Picks from `applications` the entries whose key holds `needle`. The key
/// of an entry is the string at its position in `keys`. Of several entries
/// with one name the first whose key holds the needle is kept. The order is
/// that of `applications`, and at most `max_results` entries are returned.
pub fn select_matches(
    needle: &str,
    keys: &Vec<String>,
    applications: &Vec<ApplicationEntry>,
    max_results: usize,
) -> (results: Vec<ApplicationEntry>)
    ensures
        results@ == select(needle@, texts(keys@), applications@, max_results as nat),
{
    let pattern = chars_of(needle);
    let ghost ks = texts(keys@);
    let mut results: Vec<ApplicationEntry> = Vec::new();
    let mut i: usize = 0;
    while i < applications.len() && results.len() < max_results
        invariant
            i <= applications.len(),
            pattern@ == needle@,
            ks == texts(keys@),
            results.len() <= max_results,
            results@ == matches_among(needle@, ks, applications@, i as int),
        decreases applications.len() - i,
    {
        proof {
            lemma_names_of_matches(needle@, ks, applications@, i as int, applications@[i as int].name@);
        }
        if i < keys.len() {
            let key = chars_of(keys[i].as_str());
            if contains_chars(&key, &pattern) && !has_name(&results, &applications[i].name) {
                results.push(applications[i].clone());
            }
        }
        i += 1;
    }
    proof {
        let n = applications@.len() as int;
        let all = matches_among(needle@, ks, applications@, n);
        lemma_matches_grow(needle@, ks, applications@, i as int, n);
        if i < n {
            assert(all.take(max_results as int) == results@);
        }
    }
    results
}

/// Searches the index for `query`, without regard to case: an entry answers
/// the query where its name in lowercase holds the query in lowercase, so
/// every entry answers the empty query. Of several entries with one name
/// only the first is returned. The results keep the order of the index and
/// are at most `max_results`.
pub fn search_applications(
    query: &str,
    applications: &Vec<ApplicationEntry>,
    max_results: usize,
) -> (results: Vec<ApplicationEntry>)
    ensures
        results@ == search_spec(query@, applications@, max_results as nat),
        results.len() <= max_results,
        forall|k: int|
            0 <= k < results.len() ==> contains(
                lowercase((#[trigger] results@[k]).name@),
                lowercase(query@),
            ),
        forall|k: int| 0 <= k < results.len() ==> applications@.contains(#[trigger] results@[k]),
        forall|k: int, l: int|
            0 <= k < l < results.len() ==> (#[trigger] results@[k]).name@ != (
            #[trigger] results@[l]).name@,
        query@.len() == 0 ==> results@ == capped(
            first_of_each_name(applications@, applications.len() as int),
            max_results as nat,
        ),
{
    let needle = query.to_lowercase();
    let mut keys: Vec<String> = Vec::new();
    let mut i: usize = 0;
    while i < applications.len()
        invariant
            i <= applications.len(),
            keys.len() == i,
            forall|j: int| 0 <= j < i ==> (#[trigger] keys@[j])@ == lowercase(applications@[j].name@),
        decreases applications.len() - i,
    {
        keys.push(applications[i].name.as_str().to_lowercase());
        i += 1;
    }
    let results = select_matches(needle.as_str(), &keys, applications, max_results);
    proof {
        let ks = lowered_names(applications@);
        assert(texts(keys@) == ks);
        let r = select(needle@, ks, applications@, max_results as nat);
        lemma_select_sound(needle@, ks, applications@, max_results as nat);
        assert forall|k: int| 0 <= k < results.len() implies contains(
            lowercase((#[trigger] results@[k]).name@),
            lowercase(query@),
        ) by {
            assert(entry_matched(needle@, ks, applications@, applications@.len() as int, r[k]));
            let i = choose|i: int|
                0 <= i < applications@.len() && key_matches(needle@, ks, i)
                    && #[trigger] applications@[i] == r[k];
            assert(ks[i] == lowercase(applications@[i].name@));
            assert(applications@.contains(results@[k]));
        }
        assert forall|k: int| 0 <= k < results.len() implies applications@.contains(
            #[trigger] results@[k],
        ) by {
            assert(entry_matched(needle@, ks, applications@, applications@.len() as int, r[k]));
        }
        if query@.len() == 0 {
            lemma_empty_needle(needle@, ks, applications@, applications@.len() as int);
        }
    }
    results
}

} // verus!
