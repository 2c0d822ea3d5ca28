use app_launcher::entry::ApplicationEntry;
use app_launcher::search::{search_applications, select_matches};

fn entry(name: &str, command: &str) -> ApplicationEntry {
    ApplicationEntry { name: name.to_string(), command: command.to_string() }
}

fn index() -> Vec<ApplicationEntry> {
    vec![entry("Files", "nautilus"), entry("Firefox", "firefox"), entry("File Manager", "pcmanfm")]
}

fn strings(v: &[&str]) -> Vec<String> {
    v.iter().map(|s| s.to_string()).collect()
}

#[test]
fn query_file_finds_files_and_file_manager() {
    assert_eq!(
        search_applications("file", &index(), 10),
        vec![entry("Files", "nautilus"), entry("File Manager", "pcmanfm")]
    );
}

#[test]
fn query_is_matched_without_regard_to_case() {
    let expected = vec![entry("Files", "nautilus"), entry("File Manager", "pcmanfm")];
    assert_eq!(search_applications("FILE", &index(), 10), expected);
    assert_eq!(search_applications("FiLe", &index(), 10), expected);
    assert_eq!(search_applications("FIREFOX", &index(), 10), vec![entry("Firefox", "firefox")]);
}

#[test]
fn case_is_folded_beyond_ascii() {
    let apps = vec![entry("\u{c9}diteur", "edit"), entry("\u{e9}cran", "screen")];
    assert_eq!(search_applications("\u{c9}", &apps, 10), apps);
    assert_eq!(search_applications("\u{e9}DIT", &apps, 10), vec![entry("\u{c9}diteur", "edit")]);
}

#[test]
fn query_matches_anywhere_in_the_name() {
    assert_eq!(search_applications("manager", &index(), 10), vec![entry("File Manager", "pcmanfm")]);
    assert_eq!(search_applications("e m", &index(), 10), vec![entry("File Manager", "pcmanfm")]);
    assert_eq!(search_applications("x", &index(), 10), vec![entry("Firefox", "firefox")]);
}

#[test]
fn query_is_not_matched_against_the_command() {
    assert_eq!(search_applications("nautilus", &index(), 10), Vec::<ApplicationEntry>::new());
    assert_eq!(search_applications("pcman", &index(), 10), Vec::<ApplicationEntry>::new());
}

#[test]
fn query_that_nothing_holds_finds_nothing() {
    assert_eq!(search_applications("zzz", &index(), 10), Vec::<ApplicationEntry>::new());
    assert_eq!(search_applications("files ", &index(), 10), Vec::<ApplicationEntry>::new());
}

#[test]
fn empty_query_gives_the_first_entries_in_index_order() {
    assert_eq!(search_applications("", &index(), 10), index());
    assert_eq!(
        search_applications("", &index(), 2),
        vec![entry("Files", "nautilus"), entry("Firefox", "firefox")]
    );
    assert_eq!(search_applications("", &index(), 0), Vec::<ApplicationEntry>::new());
}

#[test]
fn empty_query_gives_the_first_of_each_name() {
    let apps = vec![
        entry("Files", "nautilus"),
        entry("Files", "thunar"),
        entry("Firefox", "firefox"),
        entry("Files", "dolphin"),
        entry("Terminal", "xterm"),
    ];
    assert_eq!(
        search_applications("", &apps, 10),
        vec![entry("Files", "nautilus"), entry("Firefox", "firefox"), entry("Terminal", "xterm")]
    );
    assert_eq!(
        search_applications("", &apps, 2),
        vec![entry("Files", "nautilus"), entry("Firefox", "firefox")]
    );
}

#[test]
fn of_entries_with_one_name_the_first_is_kept() {
    let apps = vec![
        entry("Firefox", "firefox"),
        entry("Files", "nautilus"),
        entry("Files", "thunar"),
        entry("files", "lower"),
    ];
    assert_eq!(
        search_applications("fil", &apps, 10),
        vec![entry("Files", "nautilus"), entry("files", "lower")]
    );
}

#[test]
fn results_are_capped() {
    assert_eq!(search_applications("f", &index(), 1), vec![entry("Files", "nautilus")]);
    assert_eq!(
        search_applications("f", &index(), 2),
        vec![entry("Files", "nautilus"), entry("Firefox", "firefox")]
    );
    assert_eq!(search_applications("f", &index(), 3), index());
    assert_eq!(search_applications("f", &index(), usize::MAX), index());
    assert_eq!(search_applications("f", &index(), 0), Vec::<ApplicationEntry>::new());
}

#[test]
fn duplicates_do_not_count_towards_the_cap() {
    let apps = vec![
        entry("Files", "nautilus"),
        entry("Files", "thunar"),
        entry("File Manager", "pcmanfm"),
    ];
    assert_eq!(
        search_applications("file", &apps, 2),
        vec![entry("Files", "nautilus"), entry("File Manager", "pcmanfm")]
    );
}

#[test]
fn search_in_an_empty_index_finds_nothing() {
    assert_eq!(search_applications("a", &Vec::new(), 10), Vec::<ApplicationEntry>::new());
    assert_eq!(search_applications("", &Vec::new(), 10), Vec::<ApplicationEntry>::new());
}

#[test]
fn results_hold_the_query_have_distinct_names_and_respect_the_cap() {
    let apps = vec![
        entry("Alpha", "a"),
        entry("alpha", "b"),
        entry("Alpha", "c"),
        entry("Beta", "d"),
        entry("ALPHABET", "e"),
        entry("Gamma", "f"),
        entry("Beta", "g"),
    ];
    for query in ["", "a", "AL", "alpha", "bet", "m", "q", "Alphabet"] {
        for cap in 0..8 {
            let results = search_applications(query, &apps, cap);
            assert!(results.len() <= cap);
            for (k, r) in results.iter().enumerate() {
                assert!(r.name.to_lowercase().contains(&query.to_lowercase()));
                assert!(apps.contains(r));
                for other in &results[..k] {
                    assert_ne!(other.name, r.name);
                }
            }
        }
    }
}

#[test]
fn select_matches_goes_by_the_keys_given() {
    let apps = index();
    let keys = strings(&["files", "firefox", "file manager"]);
    assert_eq!(
        select_matches("file", &keys, &apps, 10),
        vec![entry("Files", "nautilus"), entry("File Manager", "pcmanfm")]
    );
    assert_eq!(select_matches("File", &keys, &apps, 10), Vec::<ApplicationEntry>::new());
    let other = strings(&["x", "y", "x"]);
    assert_eq!(
        select_matches("x", &other, &apps, 10),
        vec![entry("Files", "nautilus"), entry("File Manager", "pcmanfm")]
    );
    assert_eq!(select_matches("x", &other, &apps, 1), vec![entry("Files", "nautilus")]);
}

#[test]
fn select_matches_passes_over_an_entry_without_a_key() {
    let apps = index();
    assert_eq!(
        select_matches("", &strings(&["files", "firefox"]), &apps, 10),
        vec![entry("Files", "nautilus"), entry("Firefox", "firefox")]
    );
    assert_eq!(select_matches("", &Vec::new(), &apps, 10), Vec::<ApplicationEntry>::new());
}

#[test]
fn select_matches_keeps_the_first_entry_of_a_name_whose_key_matches() {
    let apps = vec![entry("Files", "nautilus"), entry("Files", "thunar"), entry("Files", "dolphin")];
    let keys = strings(&["no", "yes", "yes"]);
    assert_eq!(select_matches("yes", &keys, &apps, 10), vec![entry("Files", "thunar")]);
}
