use app_launcher::entry::ApplicationEntry;
use app_launcher::recent::{find_entry, record_launch, seed_results};

fn entry(name: &str, command: &str) -> ApplicationEntry {
    ApplicationEntry { name: name.to_string(), command: command.to_string() }
}

fn strings(v: &[&str]) -> Vec<String> {
    v.iter().map(|s| s.to_string()).collect()
}

fn index() -> Vec<ApplicationEntry> {
    vec![
        entry("Terminal", "/usr/bin/xterm"),
        entry("Files", "nautilus"),
        entry("Firefox", "firefox"),
        entry("Terminal", "alacritty"),
    ]
}

#[test]
fn seeding_skips_names_without_an_entry() {
    let recent = strings(&["Firefox", "Ghost", "Terminal"]);
    assert_eq!(
        seed_results(&recent, &index(), 10),
        vec![entry("Firefox", "firefox"), entry("Terminal", "/usr/bin/xterm")]
    );
}

#[test]
fn seeding_is_capped() {
    let recent = strings(&["Firefox", "Ghost", "Terminal", "Files"]);
    assert_eq!(
        seed_results(&recent, &index(), 2),
        vec![entry("Firefox", "firefox"), entry("Terminal", "/usr/bin/xterm")]
    );
    assert_eq!(seed_results(&recent, &index(), 1), vec![entry("Firefox", "firefox")]);
    assert_eq!(seed_results(&recent, &index(), 0), Vec::<ApplicationEntry>::new());
    assert_eq!(
        seed_results(&recent, &index(), 3),
        vec![
            entry("Firefox", "firefox"),
            entry("Terminal", "/usr/bin/xterm"),
            entry("Files", "nautilus")
        ]
    );
}

#[test]
fn seeding_matches_names_exactly() {
    let recent = strings(&["firefox", "Firefox ", "Fire", "FILES"]);
    assert_eq!(seed_results(&recent, &index(), 10), Vec::<ApplicationEntry>::new());
}

#[test]
fn seeding_keeps_the_order_of_the_names() {
    let recent = strings(&["Files", "Terminal", "Firefox"]);
    assert_eq!(
        seed_results(&recent, &index(), 10),
        vec![
            entry("Files", "nautilus"),
            entry("Terminal", "/usr/bin/xterm"),
            entry("Firefox", "firefox")
        ]
    );
}

#[test]
fn seeding_repeats_a_name_given_twice() {
    let recent = strings(&["Files", "Files"]);
    assert_eq!(
        seed_results(&recent, &index(), 10),
        vec![entry("Files", "nautilus"), entry("Files", "nautilus")]
    );
}

#[test]
fn seeding_from_nothing_gives_nothing() {
    assert_eq!(seed_results(&Vec::new(), &index(), 10), Vec::<ApplicationEntry>::new());
    assert_eq!(
        seed_results(&strings(&["Firefox"]), &Vec::new(), 10),
        Vec::<ApplicationEntry>::new()
    );
}

#[test]
fn find_entry_gives_the_first_of_the_name() {
    let apps = index();
    assert_eq!(find_entry(&apps, "Terminal"), Some(&entry("Terminal", "/usr/bin/xterm")));
    assert_eq!(find_entry(&apps, "Firefox"), Some(&entry("Firefox", "firefox")));
    assert_eq!(find_entry(&apps, "terminal"), None);
    assert_eq!(find_entry(&apps, ""), None);
    assert_eq!(find_entry(&Vec::new(), "Terminal"), None);
}

#[test]
fn a_launch_puts_the_name_first() {
    let recent = strings(&["Firefox", "Files"]);
    assert_eq!(record_launch(&recent, "Terminal"), strings(&["Terminal", "Firefox", "Files"]));
    assert_eq!(record_launch(&Vec::new(), "Terminal"), strings(&["Terminal"]));
}

#[test]
fn a_launch_moves_a_known_name_to_the_front() {
    let recent = strings(&["Firefox", "Terminal", "Files"]);
    assert_eq!(record_launch(&recent, "Terminal"), strings(&["Terminal", "Firefox", "Files"]));
    assert_eq!(record_launch(&recent, "Firefox"), strings(&["Firefox", "Terminal", "Files"]));
    assert_eq!(record_launch(&recent, "Files"), strings(&["Files", "Firefox", "Terminal"]));
    assert_eq!(record_launch(&recent, "terminal"), strings(&["terminal", "Firefox", "Terminal", "Files"]));
    let twice = strings(&["Files", "Firefox", "Files"]);
    assert_eq!(record_launch(&twice, "Files"), strings(&["Files", "Firefox"]));
}

#[test]
fn a_recorded_launch_is_seeded_first() {
    let recent = record_launch(&strings(&["Firefox", "Ghost"]), "Terminal");
    assert_eq!(
        seed_results(&recent, &index(), 2),
        vec![entry("Terminal", "/usr/bin/xterm"), entry("Firefox", "firefox")]
    );
}
