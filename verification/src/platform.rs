//! What the daemon asks of the operating system about processes.

use vstd::prelude::*;
use vstd::string::*;

pub mod windows;

verus! {

/// Result of probing whether a process is alive.
#[derive(Debug, Clone, Copy, PartialEq, Eq, Structural)]
pub enum Liveness {
    /// The process responded to the liveness probe.
    Running,
    /// The process is definitely not alive.
    NotRunning,
    /// It cannot be told here.
    Unsupported,
}

/// Lifecycle signal that can be sent to a daemon process.
#[derive(Debug, Clone, Copy, PartialEq, Eq, Structural)]
pub enum Signal {
    Terminate,
    Reload,
}

/// What a platform cannot do.
#[derive(Debug, Clone, Copy, PartialEq, Eq, Structural)]
pub enum PlatformError {
    SignalsUnsupported,
    DaemonUnsupported,
}

impl PlatformError {
    /// The text of the error.
    pub open spec fn text(self) -> Seq<char> {
        match self {
            PlatformError::SignalsUnsupported =>
                "Process signals are not supported on Windows in W1"@,
            PlatformError::DaemonUnsupported =>
                "Daemon start is not supported on Windows in W1"@,
        }
    }

    /// Describes the error.
    pub fn to_string(&self) -> (s: String)
        ensures
            s@ == self.text(),
    {
        match self {
            PlatformError::SignalsUnsupported =>
                "Process signals are not supported on Windows in W1".to_owned(),
            PlatformError::DaemonUnsupported =>
                "Daemon start is not supported on Windows in W1".to_owned(),
        }
    }
}

/// What a probe by an empty signal tells of a process: it runs exactly where the signal
/// could be sent.
pub fn liveness_of_probe(sent: bool) -> (r: Liveness)
    ensures
        r == if sent {
            Liveness::Running
        } else {
            Liveness::NotRunning
        },
{
    if sent {
        Liveness::Running
    } else {
        Liveness::NotRunning
    }
}

/// Each thing that a platform cannot do has its own text.
pub proof fn law_errors_are_told_apart(a: PlatformError, b: PlatformError)
    ensures
        a.text() == b.text() <==> a == b,
{
    reveal_strlit("Process signals are not supported on Windows in W1");
    reveal_strlit("Daemon start is not supported on Windows in W1");
    assert(a.text()[0] == b.text()[0] ==> a == b);
}

} // verus!
