//! Dispatching probes under a ceiling on how many run at once.
//!
//! The scheduler hands out the addresses of a list by index, in order, and
//! never lets more probes run at a time than the ceiling allows. The probes
//! themselves run elsewhere: the scheduler is asked what to do next, and is
//! told when a probe has ended.
use crate::probe::PingResult;
use crate::report::{count_failures, count_successes, lemma_counts_add_up};
use vstd::prelude::*;

verus! {

/// What the scheduler asks for next.
#[derive(Clone, Copy, Debug, PartialEq, Eq, Structural)]
pub enum Dispatch {
    /// Start the probe of the address with this index.
    Start(usize),
    /// Every ticket is taken, or every address is handed out: wait for a
    /// running probe to end.
    Wait,
    /// Every address was handed out and every probe has ended.
    Finished,
}

/// The state of one run over a list of addresses.
#[derive(Debug)]
pub struct Scheduler {
    total: usize,
    limit: usize,
    started: usize,
    ended: usize,
    results: Vec<PingResult>,
}

impl Scheduler {
    /// How many addresses the list holds.
    pub closed spec fn total(&self) -> nat {
        self.total as nat
    }

    /// The ceiling on probes that run at once.
    pub closed spec fn limit(&self) -> nat {
        self.limit as nat
    }

    /// How many probes were started.
    pub closed spec fn started(&self) -> nat {
        self.started as nat
    }

    /// How many probes have ended, with a result or without one.
    pub closed spec fn ended(&self) -> nat {
        self.ended as nat
    }

    /// The results gathered so far, in the order in which the probes ended.
    pub closed spec fn results(&self) -> Seq<PingResult> {
        self.results@
    }

    /// How many probes run now.
    pub open spec fn in_flight(&self) -> int {
        self.started() - self.ended()
    }

    /// How many probes ended without a result.
    pub open spec fn lost(&self) -> int {
        self.ended() - self.results().len()
    }

    /// Whether every address was handed out and every probe has ended.
    pub open spec fn complete(&self) -> bool {
        self.started() == self.total() && self.ended() == self.total()
    }

    /// The ceiling is at least one and is never exceeded; no probe ends
    /// before it starts, none starts that the list does not hold, and no
    /// result is held that no ended probe gave.
    pub open spec fn well_formed(&self) -> bool {
        &&& self.limit() >= 1
        &&& self.ended() <= self.started() <= self.total()
        &&& self.in_flight() <= self.limit()
        &&& self.results().len() <= self.ended()
    }

    /// A run over `total` addresses with at most `limit` probes at once.
    pub fn new(total: usize, limit: usize) -> (s: Self)
        requires
            limit >= 1,
        ensures
            s.well_formed(),
            s.total() == total,
            s.limit() == limit,
            s.started() == 0,
            s.ended() == 0,
            s.results() == Seq::<PingResult>::empty(),
    {
        Scheduler { total, limit, started: 0, ended: 0, results: Vec::new() }
    }

    /// A run over `total` addresses with at most `limit` probes at once;
    /// nothing where the ceiling is zero, under which no probe could ever
    /// start.
    pub fn with_ceiling(total: usize, limit: usize) -> (r: Option<Self>)
        ensures
            r is Some <==> limit >= 1,
            r matches Some(s) ==> {
                &&& s.well_formed()
                &&& s.total() == total
                &&& s.limit() == limit
                &&& s.started() == 0
                &&& s.ended() == 0
                &&& s.results() == Seq::<PingResult>::empty()
            },
    {
        if limit >= 1 {
            Some(Scheduler::new(total, limit))
        } else {
            None
        }
    }

    /// How many probes run now.
    pub fn running(&self) -> (n: usize)
        requires
            self.well_formed(),
        ensures
            n == self.in_flight(),
            n <= self.limit(),
    {
        self.started - self.ended
    }

    /// Says what to do next. A probe is started only while a ticket is free,
    /// and the addresses are handed out in the order of the list.
    pub fn next(&mut self) -> (d: Dispatch)
        requires
            old(self).well_formed(),
        ensures
            final(self).well_formed(),
            final(self).total() == old(self).total(),
            final(self).limit() == old(self).limit(),
            final(self).ended() == old(self).ended(),
            final(self).results() == old(self).results(),
            final(self).in_flight() <= final(self).limit(),
            d == if old(self).started() < old(self).total() && old(self).in_flight() < old(
                self,
            ).limit() {
                Dispatch::Start(old(self).started() as usize)
            } else if old(self).in_flight() > 0 {
                Dispatch::Wait
            } else {
                Dispatch::Finished
            },
            final(self).started() == if d is Start {
                old(self).started() + 1
            } else {
                old(self).started()
            },
            d is Finished ==> final(self).complete(),
    {
        if self.started < self.total && self.started - self.ended < self.limit {
            let index: usize = self.started;
            self.started = self.started + 1;
            Dispatch::Start(index)
        } else if self.started - self.ended > 0 {
            Dispatch::Wait
        } else {
            Dispatch::Finished
        }
    }

    /// Takes the result of a probe that has ended, and gives its ticket
    /// back. The result is appended to those gathered so far.
    pub fn record(&mut self, result: PingResult)
        requires
            old(self).well_formed(),
            old(self).in_flight() > 0,
        ensures
            final(self).well_formed(),
            final(self).total() == old(self).total(),
            final(self).limit() == old(self).limit(),
            final(self).started() == old(self).started(),
            final(self).ended() == old(self).ended() + 1,
            final(self).results() == old(self).results().push(result),
            final(self).lost() == old(self).lost(),
    {
        self.results.push(result);
        self.ended = self.ended + 1;
    }

    /// Notes that a probe has ended without a result, and gives its ticket
    /// back. The run goes on.
    pub fn abandon(&mut self)
        requires
            old(self).well_formed(),
            old(self).in_flight() > 0,
        ensures
            final(self).well_formed(),
            final(self).total() == old(self).total(),
            final(self).limit() == old(self).limit(),
            final(self).started() == old(self).started(),
            final(self).ended() == old(self).ended() + 1,
            final(self).results() == old(self).results(),
            final(self).lost() == old(self).lost() + 1,
    {
        self.ended = self.ended + 1;
    }

    /// The results of the run, in the order in which the probes ended.
    /// Where the run is complete and no probe was lost, there is one result
    /// for each address of the list.
    pub fn into_results(self) -> (results: Vec<PingResult>)
        requires
            self.well_formed(),
        ensures
            results@ == self.results(),
            results@.len() <= self.total(),
            self.complete() && self.lost() == 0 ==> results@.len() == self.total(),
    {
        self.results
    }
}

/// While a run is well formed, no more probes run than the ceiling allows,
/// and a complete run that lost no probe holds one result for each address.
pub proof fn lemma_run_bounds(s: Scheduler)
    requires
        s.well_formed(),
    ensures
        0 <= s.in_flight() <= s.limit(),
        0 <= s.lost(),
        s.results().len() + s.lost() + s.in_flight() == s.started(),
        s.complete() ==> s.in_flight() == 0 && s.results().len() + s.lost() == s.total(),
{
}

/// When a run is complete and no probe was lost, the successes and the
/// failures among its results are together as many as the addresses of the
/// list.
pub proof fn lemma_complete_run_counts(s: Scheduler)
    requires
        s.well_formed(),
        s.complete(),
        s.lost() == 0,
    ensures
        count_successes(s.results()) + count_failures(s.results()) == s.total(),
{
    lemma_counts_add_up(s.results());
}

} // verus!
