//! The commands that every service understands.
use vstd::prelude::*;

verus! {

/// What a service is asked to do. It is read before anything else is set up, so that a health
/// check and the version need nothing else.
#[derive(Clone, Copy, Debug, PartialEq, Eq, Structural)]
pub enum Command {
    /// Probe the service's own health endpoint and exit. This is for images that hold nothing
    /// but the service.
    Healthcheck,
    /// Print the version of the service and exit.
    Version,
    /// Start the service, which then runs until it is stopped.
    Start,
}

/// The command line of a service.
#[derive(Clone, Copy, Debug, PartialEq, Eq, Structural)]
pub struct Cli {
    pub command: Command,
}

}
