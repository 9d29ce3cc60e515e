//! The parameters of one run.
use vstd::prelude::*;

verus! {

/// What a reachability run is asked to do. The parameters are fixed for
/// the whole run.
#[derive(Clone, Debug)]
pub struct PingArgs {
    /// The target specification: addresses, ranges and CIDR blocks,
    /// separated by commas.
    pub target: String,
    /// The timeout of one attempt, in seconds.
    pub timeout: u64,
    /// The ceiling on probes that run at once.
    pub concurrency: usize,
    /// How many attempts an address gets at most; one success is enough.
    pub count: u32,
    /// Whether each success is echoed when the run is over.
    pub echo: bool,
    /// Whether the results are written to a report file.
    pub output: bool,
}

impl PingArgs {
    /// The parameters for `target` with everything else at its default: a
    /// timeout of 2 seconds, 100 probes at once, 3 attempts, no echo and no
    /// report file.
    pub fn new(target: String) -> (args: Self)
        ensures
            args.target == target,
            args.timeout == 2,
            args.concurrency == 100,
            args.count == 3,
            !args.echo,
            !args.output,
    {
        PingArgs { target, timeout: 2, concurrency: 100, count: 3, echo: false, output: false }
    }
}

} // verus!
