//! Processes on Windows: nothing is known of them and no signal reaches them, so every
//! request is answered by an explicit "unsupported".

use std::sync::atomic::AtomicBool;
use std::sync::Arc;

use vstd::prelude::*;

use crate::platform::{Liveness, PlatformError, Signal};

verus! {

/// Whether a process is alive: it cannot be told.
pub fn is_process_alive(_pid: u32) -> (r: Liveness)
    ensures
        r == Liveness::Unsupported,
{
    Liveness::Unsupported
}

/// Sends a lifecycle signal: there are none.
pub fn send_signal(_pid: u32, _signal: Signal) -> (r: Result<(), PlatformError>)
    ensures
        r == Err::<(), PlatformError>(PlatformError::SignalsUnsupported),
{
    Err(PlatformError::SignalsUnsupported)
}

/// Detaches and runs the daemon: it cannot be detached, and `run` is not called.
pub fn start_daemon<F: FnOnce() -> Result<(), PlatformError>>(
    _data_dir: &str,
    _run: F,
) -> (r: Result<(), PlatformError>)
    ensures
        r == Err::<(), PlatformError>(PlatformError::DaemonUnsupported),
{
    Err(PlatformError::DaemonUnsupported)
}

/// Registers a flag for reload requests: none arrives, but polling in the foreground works
/// all the same.
pub fn register_reload_flag(_flag: Arc<AtomicBool>) -> (r: Result<(), PlatformError>)
    ensures
        r == Ok::<(), PlatformError>(()),
{
    Ok(())
}

} // verus!
