//! The core of an application launcher: parsing of desktop entry files,
//! case-insensitive search over the parsed entries, seeding of the result
//! list from recently used names, the order of steps of a launch, and the
//! session that ties them to user input.
//!
//! The functions are verified with Verus against contracts stated over
//! sequences of characters and over the views of the types defined here.
//! What is assumed of the standard library and of the crates `dirs` and
//! `xdg` is said where it is assumed.

pub mod text;
pub mod entry;
pub mod descriptor;
pub mod search;
pub mod recent;
pub mod config;
pub mod launch;
pub mod locate;
pub mod index;
pub mod session;

pub use config::Config;
pub use entry::ApplicationEntry;
pub use session::{AppLauncher, InputAction};
