//! A session of the launcher: the index, the query, the results shown and
//! whether the session is over, and how each input changes them.

use crate::config::Config;
use crate::entry::ApplicationEntry;
use crate::launch::LaunchError;
use crate::recent::{find_by_name, find_entry, seed_results, seed_spec};
use crate::search::{search_applications, search_spec};
use crate::text::{same_text, texts};
use vstd::prelude::*;

verus! {

/// What the caller is to do after an input.
#[derive(Debug, PartialEq, Eq)]
pub enum InputAction {
    /// Nothing.
    Idle,
    /// Launch this application and report the outcome with
    /// `launch_finished`.
    Launch(ApplicationEntry),
    /// Power the machine off.
    PowerOff,
    /// Restart the machine.
    Restart,
    /// End the user's login session.
    Logout,
}

/// The state of a session.
pub struct AppLauncher {
    query: String,
    applications: Vec<ApplicationEntry>,
    search_results: Vec<ApplicationEntry>,
    is_quit: bool,
    config: Config,
}

/// The state of a session, as contracts speak of it.
pub struct LauncherView {
    /// The text last searched for.
    pub query: Seq<char>,
    /// The index, which never changes.
    pub applications: Seq<ApplicationEntry>,
    /// The results shown.
    pub search_results: Seq<ApplicationEntry>,
    /// Whether the session is over.
    pub is_quit: bool,
    /// The options of the session.
    pub config: Config,
}

impl View for AppLauncher {
    type V = LauncherView;

    closed spec fn view(&self) -> LauncherView {
        LauncherView {
            query: self.query@,
            applications: self.applications@,
            search_results: self.search_results@,
            is_quit: self.is_quit,
            config: self.config,
        }
    }
}

impl LauncherView {
    /// Whether the results are no more than the options allow and all come
    /// from the index.
    pub open spec fn wf(self) -> bool {
        &&& self.search_results.len() <= self.config.max_search_results
        &&& forall|k: int|
            0 <= k < self.search_results.len() ==> self.applications.contains(
                #[trigger] self.search_results[k],
            )
    }

    /// Whether `input` asks for a power action that the options allow.
    pub open spec fn is_power_input(self, input: Seq<char>) -> bool {
        self.config.enable_power_options && (input == "P"@ || input == "R"@ || input == "L"@)
    }

    /// The state after `input`. `ESC` ends the session. `ENTER` and the
    /// power inputs leave the state as it is. Any other input becomes the
    /// query, and the results become the answer to it.
    pub open spec fn after_input(self, input: Seq<char>) -> LauncherView {
        if input == "ESC"@ {
            LauncherView { is_quit: true, ..self }
        } else if input == "ENTER"@ || self.is_power_input(input) {
            self
        } else {
            LauncherView {
                query: input,
                search_results: search_spec(
                    input,
                    self.applications,
                    self.config.max_search_results as nat,
                ),
                ..self
            }
        }
    }

    /// What the caller is to do after `input`. `ENTER` launches the first
    /// result, if there is one. `P`, `R` and `L` ask for power off, restart
    /// and logout where the options allow them. Nothing else asks for
    /// anything.
    pub open spec fn action_for(self, input: Seq<char>) -> InputAction {
        if input == "ESC"@ {
            InputAction::Idle
        } else if input == "ENTER"@ {
            if self.search_results.len() > 0 {
                InputAction::Launch(self.search_results[0])
            } else {
                InputAction::Idle
            }
        } else if self.config.enable_power_options && input == "P"@ {
            InputAction::PowerOff
        } else if self.config.enable_power_options && input == "R"@ {
            InputAction::Restart
        } else if self.config.enable_power_options && input == "L"@ {
            InputAction::Logout
        } else {
            InputAction::Idle
        }
    }

    /// The names of the results, in order.
    pub open spec fn result_names(self) -> Seq<Seq<char>> {
        Seq::new(self.search_results.len(), |i: int| self.search_results[i].name@)
    }
}

impl AppLauncher {
    /// A session over the index `applications`. It starts with an empty
    /// query. Where recent applications are tracked, its first results are
    /// those of `recent_apps` that the index still holds; otherwise it has
    /// none.
    pub fn new(config: Config, applications: Vec<ApplicationEntry>, recent_apps: &Vec<String>) -> (r:
        Self)
        ensures
            r@ == (LauncherView {
                query: Seq::empty(),
                applications: applications@,
                search_results: if config.enable_recent_apps {
                    seed_spec(texts(recent_apps@), applications@, config.max_search_results as nat)
                } else {
                    Seq::empty()
                },
                is_quit: false,
                config: config,
            }),
            r@.wf(),
    {
        let search_results = if config.enable_recent_apps {
            seed_results(recent_apps, &applications, config.max_search_results)
        } else {
            Vec::new()
        };
        AppLauncher {
            query: String::new(),
            applications: applications,
            search_results: search_results,
            is_quit: false,
            config: config,
        }
    }

    /// The exit status with which the process is to end now, if the session
    /// is over.
    pub fn update(&self) -> (status: Option<i32>)
        ensures
            status == if self@.is_quit {
                Some(0i32)
            } else {
                None
            },
    {
        if self.is_quit {
            Some(0)
        } else {
            None
        }
    }

    /// Takes one input and says what the caller is to do.
    pub fn handle_input(&mut self, input: &str) -> (action: InputAction)
        ensures
            final(self)@ == old(self)@.after_input(input@),
            action == old(self)@.action_for(input@),
            old(self)@.wf() ==> final(self)@.wf(),
            input@ == "ENTER"@ && old(self)@.search_results.len() == 0 ==> action is Idle
                && final(self)@ == old(self)@,
    {
        proof {
            reveal_strlit("ESC");
            reveal_strlit("ENTER");
            assert("ESC"@.len() != "ENTER"@.len());
        }
        if same_text(input, "ESC") {
            self.is_quit = true;
            InputAction::Idle
        } else if same_text(input, "ENTER") {
            match self.launch_first_result() {
                Some(entry) => InputAction::Launch(entry),
                None => InputAction::Idle,
            }
        } else if self.config.enable_power_options && same_text(input, "P") {
            InputAction::PowerOff
        } else if self.config.enable_power_options && same_text(input, "R") {
            InputAction::Restart
        } else if self.config.enable_power_options && same_text(input, "L") {
            InputAction::Logout
        } else {
            self.query = input.to_owned();
            self.search_results =
            search_applications(input, &self.applications, self.config.max_search_results);
            InputAction::Idle
        }
    }

    /// Whether the session is over.
    pub fn should_quit(&self) -> (r: bool)
        ensures
            r == self@.is_quit,
    {
        self.is_quit
    }

    /// The text last searched for.
    pub fn get_query(&self) -> (r: String)
        ensures
            r@ == self@.query,
    {
        self.query.clone()
    }

    /// The names of the results, in order.
    pub fn get_search_results(&self) -> (names: Vec<String>)
        ensures
            texts(names@) == self@.result_names(),
    {
        let mut names: Vec<String> = Vec::new();
        let mut i: usize = 0;
        while i < self.search_results.len()
            invariant
                i <= self.search_results.len(),
                names.len() == i,
                forall|j: int| 0 <= j < i ==> (#[trigger] names@[j])@ == self.search_results@[j].name@,
            decreases self.search_results.len() - i,
        {
            names.push(self.search_results[i].name.clone());
            i += 1;
        }
        assert(texts(names@) =~= self@.result_names());
        names
    }

    /// The application to launch when the result of this name is chosen: the
    /// first result with exactly this name, if there is one.
    pub fn launch_app(&self, app_name: &str) -> (target: Option<ApplicationEntry>)
        ensures
            target == find_by_name(self@.search_results, app_name@),
    {
        match find_entry(&self.search_results, app_name) {
            Some(entry) => Some(entry.clone()),
            None => None,
        }
    }

    /// The application to launch when the first result is chosen, if there
    /// is a result.
    pub fn launch_first_result(&self) -> (target: Option<ApplicationEntry>)
        ensures
            target == if self@.search_results.len() > 0 {
                Some(self@.search_results[0])
            } else {
                None
            },
    {
        if self.search_results.len() > 0 {
            Some(self.search_results[0].clone())
        } else {
            None
        }
    }

    /// Takes the outcome of a launch: a launch that succeeded ends the
    /// session, and one that failed changes nothing.
    pub fn launch_finished(&mut self, outcome: &Result<(), LaunchError>)
        ensures
            final(self)@ == (LauncherView {
                is_quit: old(self)@.is_quit || outcome is Ok,
                ..old(self)@
            }),
    {
        match outcome {
            Ok(_) => {
                self.is_quit = true;
            },
            Err(_) => {},
        }
    }

    /// The options of the session.
    pub fn get_config(&self) -> (r: &Config)
        ensures
            *r == self@.config,
    {
        &self.config
    }
}

} // verus!
