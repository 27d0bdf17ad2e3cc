//! The decisions of the Haval installer: which releases can be installed, which commands the
//! car's shell is given, and what its answers mean. Everything here is plain data in and plain
//! data out; the program around it talks to the network and to the user.

pub mod connection;
pub mod error;
pub mod install;
pub mod json;
pub mod laws;
pub mod releases;
pub mod shell;
pub mod text;
pub mod watch;

pub use connection::ConnectionState;
pub use error::ApiError;
pub use releases::{parse_github_releases, ReleaseInfo};
pub use shell::build_run_command;
