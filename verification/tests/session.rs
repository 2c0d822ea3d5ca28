use app_launcher::config::Config;
use app_launcher::entry::ApplicationEntry;
use app_launcher::launch::LaunchError;
use app_launcher::session::{AppLauncher, InputAction};

fn entry(name: &str, command: &str) -> ApplicationEntry {
    ApplicationEntry { name: name.to_string(), command: command.to_string() }
}

fn strings(v: &[&str]) -> Vec<String> {
    v.iter().map(|s| s.to_string()).collect()
}

fn index() -> Vec<ApplicationEntry> {
    vec![
        entry("Files", "nautilus"),
        entry("Firefox", "firefox"),
        entry("File Manager", "pcmanfm"),
        entry("Terminal", "/usr/bin/xterm"),
    ]
}

fn config(recent: bool, power: bool, max: usize) -> Config {
    Config { enable_recent_apps: recent, enable_power_options: power, max_search_results: max }
}

fn session(recent: bool, power: bool, max: usize) -> AppLauncher {
    AppLauncher::new(config(recent, power, max), index(), &strings(&["Firefox", "Ghost", "Terminal"]))
}

#[test]
fn session_starts_browsing_with_an_empty_query() {
    let s = session(false, false, 10);
    assert!(!s.should_quit());
    assert_eq!(s.update(), None);
    assert_eq!(s.get_query(), "");
    assert_eq!(s.get_search_results(), Vec::<String>::new());
    assert_eq!(*s.get_config(), config(false, false, 10));
}

#[test]
fn session_is_seeded_from_recent_apps_when_enabled() {
    let s = session(true, false, 10);
    assert_eq!(s.get_search_results(), strings(&["Firefox", "Terminal"]));
    assert_eq!(s.get_query(), "");
    let capped = session(true, false, 1);
    assert_eq!(capped.get_search_results(), strings(&["Firefox"]));
}

#[test]
fn escape_ends_the_session() {
    let mut s = session(true, false, 10);
    assert_eq!(s.handle_input("ESC"), InputAction::Idle);
    assert!(s.should_quit());
    assert_eq!(s.update(), Some(0));
    assert_eq!(s.get_query(), "");
    assert_eq!(s.get_search_results(), strings(&["Firefox", "Terminal"]));
}

#[test]
fn text_becomes_the_query_and_is_searched_for() {
    let mut s = session(false, false, 10);
    assert_eq!(s.handle_input("file"), InputAction::Idle);
    assert_eq!(s.get_query(), "file");
    assert_eq!(s.get_search_results(), strings(&["Files", "File Manager"]));
    assert!(!s.should_quit());
    assert_eq!(s.handle_input("FIRE"), InputAction::Idle);
    assert_eq!(s.get_query(), "FIRE");
    assert_eq!(s.get_search_results(), strings(&["Firefox"]));
    assert_eq!(s.handle_input(""), InputAction::Idle);
    assert_eq!(s.get_query(), "");
    assert_eq!(s.get_search_results(), strings(&["Files", "Firefox", "File Manager", "Terminal"]));
}

#[test]
fn results_of_a_query_are_capped() {
    let mut s = session(false, false, 2);
    s.handle_input("f");
    assert_eq!(s.get_search_results(), strings(&["Files", "Firefox"]));
}

#[test]
fn enter_launches_the_first_result() {
    let mut s = session(false, false, 10);
    s.handle_input("file");
    assert_eq!(s.handle_input("ENTER"), InputAction::Launch(entry("Files", "nautilus")));
    assert!(!s.should_quit());
    assert_eq!(s.get_query(), "file");
    assert_eq!(s.get_search_results(), strings(&["Files", "File Manager"]));
    s.launch_finished(&Ok(()));
    assert!(s.should_quit());
    assert_eq!(s.update(), Some(0));
}

#[test]
fn enter_without_results_does_nothing() {
    let mut s = session(false, false, 10);
    assert_eq!(s.handle_input("ENTER"), InputAction::Idle);
    assert!(!s.should_quit());
    assert_eq!(s.get_query(), "");
    assert_eq!(s.get_search_results(), Vec::<String>::new());
    s.handle_input("zzz");
    assert_eq!(s.handle_input("ENTER"), InputAction::Idle);
    assert!(!s.should_quit());
    assert_eq!(s.get_query(), "zzz");
    assert_eq!(s.get_search_results(), Vec::<String>::new());
    assert_eq!(s.launch_first_result(), None);
}

#[test]
fn failed_launch_leaves_the_session_as_it_was() {
    let mut s = session(false, false, 10);
    s.handle_input("term");
    assert_eq!(s.handle_input("ENTER"), InputAction::Launch(entry("Terminal", "/usr/bin/xterm")));
    s.launch_finished(&Err(LaunchError::Spawn("no shell".to_string())));
    assert!(!s.should_quit());
    assert_eq!(s.update(), None);
    assert_eq!(s.get_query(), "term");
    assert_eq!(s.get_search_results(), strings(&["Terminal"]));
    s.launch_finished(&Err(LaunchError::HomeNotFound));
    s.launch_finished(&Err(LaunchError::CacheUpdate("disk full".to_string())));
    assert!(!s.should_quit());
}

#[test]
fn power_inputs_are_obeyed_when_enabled() {
    let mut s = session(false, true, 10);
    s.handle_input("file");
    assert_eq!(s.handle_input("P"), InputAction::PowerOff);
    assert_eq!(s.handle_input("R"), InputAction::Restart);
    assert_eq!(s.handle_input("L"), InputAction::Logout);
    assert!(!s.should_quit());
    assert_eq!(s.get_query(), "file");
    assert_eq!(s.get_search_results(), strings(&["Files", "File Manager"]));
}

#[test]
fn power_inputs_are_queries_when_disabled() {
    let mut s = session(false, false, 10);
    assert_eq!(s.handle_input("P"), InputAction::Idle);
    assert_eq!(s.get_query(), "P");
    assert_eq!(s.get_search_results(), Vec::<String>::new());
    assert_eq!(s.handle_input("R"), InputAction::Idle);
    assert_eq!(s.get_query(), "R");
    assert_eq!(s.get_search_results(), strings(&["Firefox", "File Manager", "Terminal"]));
    assert_eq!(s.handle_input("L"), InputAction::Idle);
    assert_eq!(s.get_query(), "L");
    assert_eq!(s.get_search_results(), strings(&["Files", "File Manager", "Terminal"]));
}

#[test]
fn control_inputs_are_matched_exactly() {
    let mut s = session(false, true, 10);
    assert_eq!(s.handle_input("esc"), InputAction::Idle);
    assert!(!s.should_quit());
    assert_eq!(s.get_query(), "esc");
    assert_eq!(s.handle_input("enter"), InputAction::Idle);
    assert_eq!(s.get_query(), "enter");
    assert_eq!(s.handle_input("p"), InputAction::Idle);
    assert_eq!(s.get_query(), "p");
    assert_eq!(s.handle_input("ESC "), InputAction::Idle);
    assert_eq!(s.get_query(), "ESC ");
    assert!(!s.should_quit());
}

#[test]
fn choosing_a_result_by_name() {
    let mut s = session(false, false, 10);
    s.handle_input("file");
    assert_eq!(s.launch_app("File Manager"), Some(entry("File Manager", "pcmanfm")));
    assert_eq!(s.launch_app("Files"), Some(entry("Files", "nautilus")));
    assert_eq!(s.launch_app("Firefox"), None);
    assert_eq!(s.launch_app("files"), None);
    assert_eq!(s.launch_first_result(), Some(entry("Files", "nautilus")));
    assert!(!s.should_quit());
}

#[test]
fn enter_on_seeded_results_launches_the_most_recent() {
    let mut s = session(true, false, 10);
    assert_eq!(s.handle_input("ENTER"), InputAction::Launch(entry("Firefox", "firefox")));
}

#[test]
fn finished_session_stays_finished() {
    let mut s = session(false, false, 10);
    s.handle_input("ESC");
    s.launch_finished(&Err(LaunchError::HomeNotFound));
    assert!(s.should_quit());
    s.handle_input("file");
    assert!(s.should_quit());
    assert_eq!(s.get_search_results(), strings(&["Files", "File Manager"]));
}
