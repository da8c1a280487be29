use vstd::prelude::*;
use crate::text::text_owned;

verus! {

/// Why the proxy is asked to stop.
#[derive(Clone, Copy, Debug, PartialEq, Eq, Structural)]
pub enum ShutdownSignal {
    /// SIGINT (Ctrl+C).
    Interrupt,
    /// SIGTERM: stop gracefully.
    Terminate,
    /// SIGQUIT: stop at once.
    Quit,
    /// SIGHUP: reload requested, handled as a graceful stop.
    Hangup,
    /// Asked for from within the program.
    Internal,
}

/// The conventional name of a signal.
pub open spec fn signal_name(s: ShutdownSignal) -> Seq<char> {
    match s {
        ShutdownSignal::Interrupt => "SIGINT"@,
        ShutdownSignal::Terminate => "SIGTERM"@,
        ShutdownSignal::Quit => "SIGQUIT"@,
        ShutdownSignal::Hangup => "SIGHUP"@,
        ShutdownSignal::Internal => "INTERNAL"@,
    }
}

impl ShutdownSignal {
    /// The signal's name, as it is shown.
    pub fn name(&self) -> (r: String)
        ensures
            r@ == signal_name(*self),
    {
        match self {
            ShutdownSignal::Interrupt => text_owned("SIGINT"),
            ShutdownSignal::Terminate => text_owned("SIGTERM"),
            ShutdownSignal::Quit => text_owned("SIGQUIT"),
            ShutdownSignal::Hangup => text_owned("SIGHUP"),
            ShutdownSignal::Internal => text_owned("INTERNAL"),
        }
    }
}

/// Where the proxy is on its way down.
#[derive(Clone, Copy, Debug, PartialEq, Eq, Structural)]
pub enum ShutdownState {
    Running,
    ShuttingDown,
    Draining,
    ForceShutdown,
    Shutdown,
}

/// How a stop goes on once a signal arrived.
#[derive(Clone, Copy, Debug, PartialEq, Eq, Structural)]
pub enum ShutdownPlan {
    /// Stop at once.
    Force,
    /// Let the connections drain first.
    Graceful,
}

/// The plan for a signal: SIGQUIT stops at once, every other signal gracefully.
pub open spec fn plan_for(s: ShutdownSignal) -> ShutdownPlan {
    if s == ShutdownSignal::Quit {
        ShutdownPlan::Force
    } else {
        ShutdownPlan::Graceful
    }
}

/// Only SIGQUIT stops the proxy at once; every other signal (SIGINT, SIGTERM,
/// SIGHUP, or a stop asked for from within) lets the connections drain first.
pub proof fn lemma_only_quit_forces(s: ShutdownSignal)
    ensures
        (plan_for(s) == ShutdownPlan::Force) <==> (s == ShutdownSignal::Quit),
        (plan_for(s) == ShutdownPlan::Graceful) <==> (s != ShutdownSignal::Quit),
        plan_for(ShutdownSignal::Interrupt) == ShutdownPlan::Graceful,
        plan_for(ShutdownSignal::Terminate) == ShutdownPlan::Graceful,
        plan_for(ShutdownSignal::Hangup) == ShutdownPlan::Graceful,
        plan_for(ShutdownSignal::Internal) == ShutdownPlan::Graceful,
{
}

/// The connection count after one more connection (it stops at the largest `u64`).
pub open spec fn count_added(c: u64) -> u64 {
    if c == u64::MAX {
        c
    } else {
        (c + 1) as u64
    }
}

/// The connection count after a connection ended (it does not go below zero).
pub open spec fn count_removed(c: u64) -> u64 {
    if c > 0 {
        (c - 1) as u64
    } else {
        0
    }
}

/// A connection that opens and then closes leaves the count as it was.
pub proof fn lemma_add_then_remove(c: u64)
    requires
        c < u64::MAX,
    ensures
        count_removed(count_added(c)) == c,
{
}

/// Keeps track of the proxy's way down: its state, the connections still
/// open, and how long draining and stopping may take (milliseconds).
pub struct GracefulShutdown {
    state: ShutdownState,
    active_connections: u64,
    shutdown_timeout_ms: u64,
    drain_timeout_ms: u64,
    force_shutdown_enabled: bool,
}

impl GracefulShutdown {
    pub closed spec fn spec_state(self) -> ShutdownState {
        self.state
    }

    pub closed spec fn spec_connections(self) -> u64 {
        self.active_connections
    }

    pub closed spec fn spec_shutdown_timeout(self) -> u64 {
        self.shutdown_timeout_ms
    }

    pub closed spec fn spec_drain_timeout(self) -> u64 {
        self.drain_timeout_ms
    }

    pub closed spec fn spec_force_enabled(self) -> bool {
        self.force_shutdown_enabled
    }

    /// Running, with no connections, 30 s to stop, 10 s to drain, and forcing
    /// the stop when draining takes too long.
    pub fn new() -> (r: Self)
        ensures
            r.spec_state() == ShutdownState::Running,
            r.spec_connections() == 0,
            r.spec_shutdown_timeout() == 30_000,
            r.spec_drain_timeout() == 10_000,
            r.spec_force_enabled(),
    {
        GracefulShutdown {
            state: ShutdownState::Running,
            active_connections: 0,
            shutdown_timeout_ms: 30_000,
            drain_timeout_ms: 10_000,
            force_shutdown_enabled: true,
        }
    }

    /// The same, with another time to stop.
    pub fn with_shutdown_timeout(self, timeout_ms: u64) -> (r: Self)
        ensures
            r.spec_shutdown_timeout() == timeout_ms,
            r.spec_state() == self.spec_state(),
            r.spec_connections() == self.spec_connections(),
            r.spec_drain_timeout() == self.spec_drain_timeout(),
            r.spec_force_enabled() == self.spec_force_enabled(),
    {
        let mut r = self;
        r.shutdown_timeout_ms = timeout_ms;
        r
    }

    /// The same, with another time to drain.
    pub fn with_drain_timeout(self, timeout_ms: u64) -> (r: Self)
        ensures
            r.spec_drain_timeout() == timeout_ms,
            r.spec_state() == self.spec_state(),
            r.spec_connections() == self.spec_connections(),
            r.spec_shutdown_timeout() == self.spec_shutdown_timeout(),
            r.spec_force_enabled() == self.spec_force_enabled(),
    {
        let mut r = self;
        r.drain_timeout_ms = timeout_ms;
        r
    }

    /// The same, forcing the stop after a drain that took too long or not.
    pub fn with_force_shutdown(self, enabled: bool) -> (r: Self)
        ensures
            r.spec_force_enabled() == enabled,
            r.spec_state() == self.spec_state(),
            r.spec_connections() == self.spec_connections(),
            r.spec_shutdown_timeout() == self.spec_shutdown_timeout(),
            r.spec_drain_timeout() == self.spec_drain_timeout(),
    {
        let mut r = self;
        r.force_shutdown_enabled = enabled;
        r
    }

    pub fn shutdown_timeout(&self) -> (r: u64)
        ensures
            r == self.spec_shutdown_timeout(),
    {
        self.shutdown_timeout_ms
    }

    pub fn drain_timeout(&self) -> (r: u64)
        ensures
            r == self.spec_drain_timeout(),
    {
        self.drain_timeout_ms
    }

    pub fn get_state(&self) -> (r: ShutdownState)
        ensures
            r == self.spec_state(),
    {
        self.state
    }

    /// Whether the proxy is no longer simply running.
    pub fn is_shutting_down(&self) -> (r: bool)
        ensures
            r == (self.spec_state() != ShutdownState::Running),
    {
        match self.state {
            ShutdownState::Running => false,
            _ => true,
        }
    }

    /// Counts a connection that opened.
    pub fn add_connection(&mut self)
        ensures
            final(self).spec_connections() == count_added(old(self).spec_connections()),
            final(self).spec_state() == old(self).spec_state(),
            final(self).spec_shutdown_timeout() == old(self).spec_shutdown_timeout(),
            final(self).spec_drain_timeout() == old(self).spec_drain_timeout(),
            final(self).spec_force_enabled() == old(self).spec_force_enabled(),
    {
        if self.active_connections < u64::MAX {
            self.active_connections = self.active_connections + 1;
        }
    }

    /// Counts a connection that closed.
    pub fn remove_connection(&mut self)
        ensures
            final(self).spec_connections() == count_removed(old(self).spec_connections()),
            final(self).spec_state() == old(self).spec_state(),
            final(self).spec_shutdown_timeout() == old(self).spec_shutdown_timeout(),
            final(self).spec_drain_timeout() == old(self).spec_drain_timeout(),
            final(self).spec_force_enabled() == old(self).spec_force_enabled(),
    {
        if self.active_connections > 0 {
            self.active_connections = self.active_connections - 1;
        }
    }

    pub fn get_active_connections(&self) -> (r: u64)
        ensures
            r == self.spec_connections(),
    {
        self.active_connections
    }

    /// Asks for a stop because of `signal`.  Only a running proxy starts
    /// shutting down, and then the signal is to be passed on to those who
    /// wait for it (the answer says so); later signals change nothing.
    pub fn trigger_shutdown(&mut self, signal: ShutdownSignal) -> (r: bool)
        ensures
            r == (old(self).spec_state() == ShutdownState::Running),
            final(self).spec_state() == (if r {
                ShutdownState::ShuttingDown
            } else {
                old(self).spec_state()
            }),
            final(self).spec_connections() == old(self).spec_connections(),
            final(self).spec_shutdown_timeout() == old(self).spec_shutdown_timeout(),
            final(self).spec_drain_timeout() == old(self).spec_drain_timeout(),
            final(self).spec_force_enabled() == old(self).spec_force_enabled(),
    {
        match self.state {
            ShutdownState::Running => {
                self.state = ShutdownState::ShuttingDown;
                true
            },
            _ => false,
        }
    }

    /// How the stop goes on once `signal` arrived (see `plan_for`).
    pub fn plan(&self, signal: ShutdownSignal) -> (r: ShutdownPlan)
        ensures
            r == plan_for(signal),
    {
        match signal {
            ShutdownSignal::Quit => ShutdownPlan::Force,
            _ => ShutdownPlan::Graceful,
        }
    }

    /// The connections start draining.
    pub fn begin_drain(&mut self)
        ensures
            final(self).spec_state() == ShutdownState::Draining,
            final(self).spec_connections() == old(self).spec_connections(),
            final(self).spec_shutdown_timeout() == old(self).spec_shutdown_timeout(),
            final(self).spec_drain_timeout() == old(self).spec_drain_timeout(),
            final(self).spec_force_enabled() == old(self).spec_force_enabled(),
    {
        self.state = ShutdownState::Draining;
    }

    /// Draining ended, with every connection closed (`drained`) or when its
    /// time ran out.  The answer says whether the stop is to be forced: only
    /// when connections remain and forcing is enabled.  Otherwise the proxy is
    /// now shut down.
    pub fn drain_finished(&mut self, drained: bool) -> (r: bool)
        ensures
            r == (!drained && old(self).spec_force_enabled()),
            final(self).spec_state() == (if r {
                old(self).spec_state()
            } else {
                ShutdownState::Shutdown
            }),
            final(self).spec_connections() == old(self).spec_connections(),
            final(self).spec_shutdown_timeout() == old(self).spec_shutdown_timeout(),
            final(self).spec_drain_timeout() == old(self).spec_drain_timeout(),
            final(self).spec_force_enabled() == old(self).spec_force_enabled(),
    {
        if !drained && self.force_shutdown_enabled {
            return true;
        }
        self.state = ShutdownState::Shutdown;
        false
    }

    /// The stop is forced.
    pub fn begin_force(&mut self)
        ensures
            final(self).spec_state() == ShutdownState::ForceShutdown,
            final(self).spec_connections() == old(self).spec_connections(),
            final(self).spec_shutdown_timeout() == old(self).spec_shutdown_timeout(),
            final(self).spec_drain_timeout() == old(self).spec_drain_timeout(),
            final(self).spec_force_enabled() == old(self).spec_force_enabled(),
    {
        self.state = ShutdownState::ForceShutdown;
    }

    /// The proxy is shut down.
    pub fn complete(&mut self)
        ensures
            final(self).spec_state() == ShutdownState::Shutdown,
            final(self).spec_connections() == old(self).spec_connections(),
            final(self).spec_shutdown_timeout() == old(self).spec_shutdown_timeout(),
            final(self).spec_drain_timeout() == old(self).spec_drain_timeout(),
            final(self).spec_force_enabled() == old(self).spec_force_enabled(),
    {
        self.state = ShutdownState::Shutdown;
    }
}

impl Default for GracefulShutdown {
    fn default() -> (r: Self)
        ensures
            r.spec_state() == ShutdownState::Running,
            r.spec_connections() == 0,
            r.spec_shutdown_timeout() == 30_000,
            r.spec_drain_timeout() == 10_000,
            r.spec_force_enabled(),
    {
        Self::new()
    }
}

} // verus!
