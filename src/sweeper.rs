use vstd::prelude::*;

verus! {

/// Seconds between two sweeps when nothing else is configured.
pub const DEFAULT_INTERVAL_SECS: u64 = 300;

/// What happened since the driver last decided.
#[derive(Clone, Copy, Debug, PartialEq, Eq, Structural)]
pub enum SweeperEvent {
    /// The driver starts, or the wait between two sweeps is over.
    Tick,
    /// The sweep asked for has completed, its metadata persisted.
    SweepFinished,
    /// Shutdown was requested.
    Cancel,
}

/// What the driver asks its host to do next.
#[derive(Clone, Copy, Debug, PartialEq, Eq, Structural)]
pub enum SweeperAction {
    /// Run one whole sweep, then report `SweepFinished`.
    RunSweep,
    /// Wait this many seconds, or until shutdown is requested.
    Wait(u64),
    /// Stop: no sweep is in flight.
    Exit,
    /// Nothing to do until the next event.
    Idle,
}

/// The recurring sweep driver: one sweep at a time, and shutdown honoured
/// only between sweeps.
#[derive(Clone, Copy, Debug)]
pub struct Sweeper {
    pub interval_secs: u64,
    /// A sweep has been asked for and has not finished.
    pub sweeping: bool,
    /// Shutdown was requested while a sweep was in flight.
    pub cancel_requested: bool,
    /// The driver has exited.
    pub stopped: bool,
}

impl Sweeper {
    /// The driver's invariant: a pending shutdown waits on a sweep in flight,
    /// and once exited nothing is in flight.
    pub open spec fn wf(&self) -> bool {
        &&& self.cancel_requested ==> self.sweeping
        &&& self.stopped ==> !self.sweeping
    }

    /// A driver waiting `interval_secs` between sweeps.
    pub fn new(interval_secs: u64) -> (r: Sweeper)
        ensures
            r.wf(),
            r.interval_secs == interval_secs,
            !r.sweeping && !r.cancel_requested && !r.stopped,
    {
        Sweeper { interval_secs, sweeping: false, cancel_requested: false, stopped: false }
    }

    /// Decides what to do on `event`.
    pub fn on_event(&mut self, event: SweeperEvent) -> (r: SweeperAction)
        requires
            old(self).wf(),
        ensures
            final(self).wf(),
            final(self).interval_secs == old(self).interval_secs,
            // a new sweep starts only from rest, and never once shutdown was asked for
            r is RunSweep <==> (event is Tick && !old(self).sweeping && !old(self).stopped),
            r is RunSweep ==> final(self).sweeping && !final(self).cancel_requested,
            // a sweep in flight is never cut short
            old(self).sweeping && !(event is SweepFinished) ==> final(self).sweeping && r is Idle,
            // shutdown during a sweep is remembered and honoured when it ends
            old(self).sweeping && event is Cancel ==> final(self).cancel_requested,
            old(self).sweeping && event is SweepFinished ==> !final(self).sweeping && (if old(
                self,
            ).cancel_requested {
                r is Exit && final(self).stopped
            } else {
                r == SweeperAction::Wait(old(self).interval_secs) && !final(self).stopped
            }),
            // a stray report of a finished sweep changes nothing
            !old(self).sweeping && event is SweepFinished ==> r is Idle && *final(self) == *old(
                self,
            ),
            // shutdown at rest exits at once
            !old(self).sweeping && event is Cancel ==> r is Exit && final(self).stopped,
            r is Exit ==> final(self).stopped && !final(self).sweeping,
            old(self).stopped ==> final(self).stopped && (r is Idle || r is Exit),
    {
        if self.stopped {
            return if matches!(event, SweeperEvent::Cancel) {
                SweeperAction::Exit
            } else {
                SweeperAction::Idle
            };
        }
        match event {
            SweeperEvent::Tick => {
                if self.sweeping {
                    SweeperAction::Idle
                } else {
                    self.sweeping = true;
                    SweeperAction::RunSweep
                }
            },
            SweeperEvent::SweepFinished => {
                if !self.sweeping {
                    SweeperAction::Idle
                } else {
                    self.sweeping = false;
                    if self.cancel_requested {
                        self.cancel_requested = false;
                        self.stopped = true;
                        SweeperAction::Exit
                    } else {
                        SweeperAction::Wait(self.interval_secs)
                    }
                }
            },
            SweeperEvent::Cancel => {
                if self.sweeping {
                    self.cancel_requested = true;
                    SweeperAction::Idle
                } else {
                    self.stopped = true;
                    SweeperAction::Exit
                }
            },
        }
    }
}

} // verus!
