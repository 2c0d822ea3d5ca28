//! The steps of a launch: recording the application as recently used,
//! finding the home directory, and starting the command through the shell.
//! The steps that touch the system are carried out by the caller, who reports
//! how each went and is told what to do next.

use crate::text::texts;
use vstd::prelude::*;

verus! {

/// Why a launch did not succeed.
#[derive(Debug, PartialEq, Eq)]
pub enum LaunchError {
    /// The application could not be recorded as recently used.
    CacheUpdate(String),
    /// The user has no home directory that could be found.
    HomeNotFound,
    /// The process could not be started.
    Spawn(String),
}

/// A process to start, which the caller neither waits for nor reads from.
#[derive(Debug, PartialEq, Eq)]
pub struct SpawnRequest {
    /// The program to run.
    pub program: String,
    /// Its arguments, in order.
    pub arguments: Vec<String>,
    /// The directory in which it starts.
    pub working_dir: String,
}

/// What the caller does next in a launch.
#[derive(Debug, PartialEq, Eq)]
pub enum LaunchStep {
    /// Record the application of this name as recently used and store the
    /// record, then report with `cache_updated`.
    RecordRecent(String),
    /// Start this process, then report with `spawned`.
    Spawn(SpawnRequest),
    /// Give up: the launch has failed.
    Fail(LaunchError),
}

impl SpawnRequest {
    /// Whether the request is to run `command` through the shell, as
    /// `sh -c command`, in the directory `home`.
    pub open spec fn runs(&self, command: Seq<char>, home: Seq<char>) -> bool {
        &&& self.program@ == "sh"@
        &&& texts(self.arguments@) == seq!["-c"@, command]
        &&& self.working_dir@ == home
    }
}

impl LaunchStep {
    /// Whether the step is what follows once the application is recorded, or
    /// need not be: to run `command` through the shell in some home
    /// directory, or to give up for want of one.
    pub open spec fn starts(&self, command: Seq<char>) -> bool {
        match *self {
            LaunchStep::Spawn(request) => request.runs(command, request.working_dir@),
            LaunchStep::Fail(error) => error is HomeNotFound,
            LaunchStep::RecordRecent(_) => false,
        }
    }
}

impl LaunchError {
    /// The text to report the error with.
    pub fn message(&self) -> (text: String)
        ensures
            match *self {
                LaunchError::CacheUpdate(m) => text@ == m@,
                LaunchError::HomeNotFound => text@ == "Failed to find home directory"@,
                LaunchError::Spawn(m) => text@ == m@,
            },
    {
        match self {
            LaunchError::CacheUpdate(m) => m.clone(),
            LaunchError::HomeNotFound => "Failed to find home directory".to_owned(),
            LaunchError::Spawn(m) => m.clone(),
        }
    }
}

/// `dirs::home_dir`: the home directory of the user who runs the process, as
/// the environment and the user database give it, or nothing where they give
/// none. Nothing is claimed of the outcome. A path that is not valid Unicode
/// comes with the replacement character where it could not be read.
#[verifier::external_body]
fn home_directory() -> (home: Option<String>) {
    match dirs::home_dir() {
        Some(path) => Some(path.to_string_lossy().into_owned()),
        None => None,
    }
}

/// The step that starts `exec_cmd`, given the home directory as it was
/// found: the command runs through the shell in that directory, and without
/// a home directory the launch fails.
pub fn spawn_in(home: Option<String>, exec_cmd: &str) -> (step: LaunchStep)
    ensures
        match home {
            Some(dir) => step matches LaunchStep::Spawn(request) && request.runs(exec_cmd@, dir@),
            None => step matches LaunchStep::Fail(error) && error is HomeNotFound,
        },
{
    match home {
        Some(dir) => {
            let mut arguments: Vec<String> = Vec::new();
            arguments.push("-c".to_owned());
            arguments.push(exec_cmd.to_owned());
            assert(texts(arguments@) == seq!["-c"@, exec_cmd@]);
            LaunchStep::Spawn(
                SpawnRequest { program: "sh".to_owned(), arguments: arguments, working_dir: dir },
            )
        },
        None => LaunchStep::Fail(LaunchError::HomeNotFound),
    }
}

/// The first step of the launch of the application `app_name` with the
/// command `exec_cmd`. Where recent applications are tracked, the
/// application is recorded first. Where they are not, the home directory is
/// looked up and the command started in it.
pub fn launch_app(app_name: &str, exec_cmd: &str, enable_recent_apps: bool) -> (step: LaunchStep)
    ensures
        enable_recent_apps ==> (step matches LaunchStep::RecordRecent(name) && name@
            == app_name@),
        !enable_recent_apps ==> step.starts(exec_cmd@),
{
    if enable_recent_apps {
        LaunchStep::RecordRecent(app_name.to_owned())
    } else {
        spawn_in(home_directory(), exec_cmd)
    }
}

/// The step after the attempt to record the application. Where the record
/// could not be written the launch fails with the reason given, and nothing
/// is started. Otherwise the home directory is looked up and the command
/// started in it.
pub fn cache_updated(outcome: Result<(), String>, exec_cmd: &str) -> (step: LaunchStep)
    ensures
        match outcome {
            Ok(_) => step.starts(exec_cmd@),
            Err(reason) => step matches LaunchStep::Fail(LaunchError::CacheUpdate(text)) && text@
                == reason@,
        },
{
    match outcome {
        Ok(_) => spawn_in(home_directory(), exec_cmd),
        Err(reason) => LaunchStep::Fail(LaunchError::CacheUpdate(reason)),
    }
}

/// How the launch ended, given how the attempt to start the process went.
pub fn spawned(outcome: Result<(), String>) -> (r: Result<(), LaunchError>)
    ensures
        match outcome {
            Ok(_) => r is Ok,
            Err(reason) => r matches Err(LaunchError::Spawn(text)) && text@ == reason@,
        },
{
    match outcome {
        Ok(_) => Ok(()),
        Err(reason) => Err(LaunchError::Spawn(reason)),
    }
}

} // verus!
