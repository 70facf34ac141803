//! Listening for the signal to shut down.

use vstd::prelude::*;

verus! {

/// Whether the signal to shut down has been received. The caller waits for the signal;
/// once it has come, it stays.
#[derive(Debug)]
pub struct Shutdown {
    is_shutdown: bool,
}

impl Shutdown {
    /// Whether the signal has been received.
    pub closed spec fn received(&self) -> bool {
        self.is_shutdown
    }

    /// A listener that has received nothing yet.
    pub fn new() -> (s: Shutdown)
        ensures
            !s.received(),
    {
        Shutdown { is_shutdown: false }
    }

    /// Whether the signal has been received.
    pub fn is_shutdown(&self) -> (r: bool)
        ensures
            r == self.received(),
    {
        self.is_shutdown
    }

    /// Takes note that the signal has come.
    pub fn recv(&mut self)
        ensures
            final(self).received(),
    {
        self.is_shutdown = true;
    }
}

} // verus!
