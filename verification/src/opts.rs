//! Command line options.

use vstd::prelude::*;

verus! {

/// The options of a run.
#[derive(Debug, PartialEq, Eq)]
pub struct Opts {
    /// URL of the broker.
    pub url: String,
    /// Path and method to call, as `shv/path:method`.
    pub method: Option<String>,
    /// Parameter of the call in Cpon.
    pub param: Option<String>,
    /// How long to wait for the answer, in milliseconds; 0 means forever.
    pub timeout: u64,
    /// How messages are printed.
    pub output_format: String,
    /// Tunnel to open, as `[local_host:]local_port:host:port`.
    pub tunnel: Option<String>,
    /// Burst to make, as `N[,M]`.
    pub burst: Option<String>,
    /// What to log.
    pub verbose: Option<String>,
    /// Whether to print the version and do nothing else.
    pub version: bool,
}

/// What a run does.
#[derive(Debug, Clone, Copy, PartialEq, Eq, Structural)]
pub enum RunMode {
    Version,
    Burst,
    Tunnel,
    Call,
}

impl Opts {
    /// What the options ask for: the first of printing the version, a burst and a tunnel that is
    /// asked for, else a call.
    pub open spec fn mode(self) -> RunMode {
        if self.version {
            RunMode::Version
        } else if self.burst is Some {
            RunMode::Burst
        } else if self.tunnel is Some {
            RunMode::Tunnel
        } else {
            RunMode::Call
        }
    }

    /// Decides what the run does.
    pub fn run_mode(&self) -> (r: RunMode)
        ensures
            r == self.mode(),
    {
        if self.version {
            RunMode::Version
        } else if self.burst.is_some() {
            RunMode::Burst
        } else if self.tunnel.is_some() {
            RunMode::Tunnel
        } else {
            RunMode::Call
        }
    }
}

/// A run does one thing: a version that is asked for is printed and nothing else, a burst goes
/// before a tunnel, a tunnel before a call, and without any of them a call is made.
pub proof fn law_a_run_does_one_thing(opts: &Opts, r: RunMode)
    requires
        call_ensures(Opts::run_mode, (opts,), r),
    ensures
        r is Version <==> opts.version,
        r is Burst <==> !opts.version && opts.burst is Some,
        r is Tunnel <==> !opts.version && opts.burst is None && opts.tunnel is Some,
        r is Call <==> !opts.version && opts.burst is None && opts.tunnel is None,
{
}

} // verus!
