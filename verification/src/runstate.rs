//! Shared run state: the flag pair coordinating the foreground input loop
//! and the background worker.
//!
//! `is_running` is true while a request is actively streaming;
//! `abort_requested` is set by the foreground when the user interrupts an
//! active request and cleared by the worker as soon as it is observed.  The
//! flags are read and written from both execution contexts through atomic
//! operations, so their momentary values depend on the other context and no
//! contract pins them; every decision taken on a loaded value is made by a
//! verified function that receives the value as an argument.

use vstd::prelude::*;
use core::sync::atomic::AtomicBool;
use core::sync::atomic::Ordering;

verus! {

/// The process-wide pair of flags, shared by handle between the foreground
/// loop and the worker.
pub struct RunState {
    running: AtomicBool,
    abort: AtomicBool,
}

impl RunState {
    /// Fresh state: nothing running, no abort requested.
    pub fn new() -> RunState {
        RunState { running: AtomicBool::new(false), abort: AtomicBool::new(false) }
    }

    /// Marks a request as actively streaming, or concluded.
    pub fn set_running(&self, value: bool) {
        self.running.store(value, Ordering::SeqCst);
    }

    /// Whether a request is actively streaming at this moment.
    pub fn is_running(&self) -> bool {
        self.running.load(Ordering::SeqCst)
    }

    /// The foreground's interrupt: requests an abort only if a request is
    /// observed running at this moment.
    pub fn interrupt(&self) {
        if self.running.load(Ordering::SeqCst) {
            self.abort.store(true, Ordering::SeqCst);
        }
    }

    /// Observes and consumes a pending abort request; the flag is cleared as
    /// soon as it is seen.
    pub fn take_abort(&self) -> bool {
        if self.abort.load(Ordering::SeqCst) {
            self.abort.store(false, Ordering::SeqCst);
            true
        } else {
            false
        }
    }
}

} // verus!
