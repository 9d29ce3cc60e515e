//! Probing one address: the arguments of the probing utility, the outcome
//! of a probe, and the rule by which attempts are repeated.
//!
//! The utility is run elsewhere. Here stands what is decided between two
//! runs: after each attempt the executor is told what the attempt showed and
//! says what comes next.
use crate::classify::{classify_output, output_text, readable, verdict_matches, Platform, Verdict};
use crate::latency::Latency;
use crate::text::{decimal_text, push_decimal};
use vstd::prelude::*;
use vstd::string::StringExecFns;

verus! {

/// Whether a host answered.
#[derive(Clone, Copy, Debug, PartialEq, Eq, Structural)]
pub enum Status {
    Success,
    Failure,
}

/// What probing one address ended in.
#[derive(Clone, Debug)]
pub enum ProbeOutcome {
    /// Some attempt was answered; the latency is the one that this attempt
    /// reported, if it reported one.
    Success { latency: Option<Latency> },
    /// No attempt was answered, or the utility could not be run.
    Failure,
}

/// The result of probing one address.
#[derive(Clone, Debug)]
pub struct PingResult {
    /// The address, as dotted-quad text.
    pub ip: String,
    /// Whether the host answered.
    pub status: Status,
    /// The latency in milliseconds, on a success that reported one.
    pub response_time: Option<Latency>,
}

impl PingResult {
    /// A failure carries no latency.
    pub open spec fn well_formed(&self) -> bool {
        self.status == Status::Failure ==> self.response_time is None
    }

    /// The result for a host that answered.
    pub fn success(ip: String, response_time: Option<Latency>) -> (r: Self)
        ensures
            r.ip == ip,
            r.status == Status::Success,
            r.response_time == response_time,
            r.well_formed(),
    {
        PingResult { ip, status: Status::Success, response_time }
    }

    /// The result for a host that did not answer.
    pub fn failure(ip: String) -> (r: Self)
        ensures
            r.ip == ip,
            r.status == Status::Failure,
            r.response_time is None,
            r.well_formed(),
    {
        PingResult { ip, status: Status::Failure, response_time: None }
    }

    /// The result for an address whose probe ended in `outcome`.
    pub fn conclude(ip: String, outcome: ProbeOutcome) -> (r: Self)
        ensures
            r.ip == ip,
            r.well_formed(),
            match outcome {
                ProbeOutcome::Success { latency } => r.status == Status::Success
                    && r.response_time == latency,
                ProbeOutcome::Failure => r.status == Status::Failure,
            },
    {
        match outcome {
            ProbeOutcome::Success { latency } => PingResult::success(ip, latency),
            ProbeOutcome::Failure => PingResult::failure(ip),
        }
    }

    /// Whether the host answered.
    pub fn is_success(&self) -> (b: bool)
        ensures
            b == (self.status == Status::Success),
    {
        match self.status {
            Status::Success => true,
            Status::Failure => false,
        }
    }
}

/// The arguments of the utility for one attempt, as sequences of
/// characters. The millisecond family sends one packet of 32 bytes over IPv4
/// and waits half the configured timeout, in milliseconds; the decimal
/// family sends one packet and waits the configured timeout, in seconds.
pub open spec fn probe_argument_texts(platform: Platform, timeout_secs: u64, ip: Seq<char>) -> Seq<
    Seq<char>,
> {
    match platform {
        Platform::MillisecondTimeout => seq![
            seq!['-', 'n'],
            seq!['1'],
            seq!['-', 'w'],
            decimal_text((timeout_secs * 500) as nat),
            seq!['-', '4'],
            seq!['-', 'l'],
            seq!['3', '2'],
            ip,
        ],
        Platform::DecimalTimeout => seq![
            seq!['-', 'c'],
            seq!['1'],
            seq!['-', 'W'],
            decimal_text(timeout_secs as nat),
            ip,
        ],
    }
}

/// The characters of each argument.
pub open spec fn argument_views(args: Seq<String>) -> Seq<Seq<char>> {
    Seq::new(args.len(), |i: int| args[i]@)
}

/// An owned copy of a string slice.
fn owned(s: &str) -> (r: String)
    ensures
        r@ == s@,
{
    String::from_str(s)
}

/// The shortest decimal numeral of `n`.
fn decimal_string(n: u128) -> (r: String)
    ensures
        r@ == decimal_text(n as nat),
{
    let mut r = String::new();
    push_decimal(&mut r, n);
    assert(Seq::<char>::empty() + decimal_text(n as nat) =~= decimal_text(n as nat));
    r
}

/// Builds the arguments of the utility for one attempt at `ip`.
pub fn probe_arguments(platform: Platform, timeout_secs: u64, ip: &str) -> (args: Vec<String>)
    ensures
        argument_views(args@) == probe_argument_texts(platform, timeout_secs, ip@),
{
    proof {
        reveal_strlit("-n");
        reveal_strlit("1");
        reveal_strlit("-w");
        reveal_strlit("-4");
        reveal_strlit("-l");
        reveal_strlit("32");
        reveal_strlit("-c");
        reveal_strlit("-W");
    }
    let mut args: Vec<String> = Vec::new();
    match platform {
        Platform::MillisecondTimeout => {
            args.push(owned("-n"));
            args.push(owned("1"));
            args.push(owned("-w"));
            args.push(decimal_string((timeout_secs as u128) * 500));
            args.push(owned("-4"));
            args.push(owned("-l"));
            args.push(owned("32"));
            args.push(owned(ip));
        },
        Platform::DecimalTimeout => {
            args.push(owned("-c"));
            args.push(owned("1"));
            args.push(owned("-W"));
            args.push(decimal_string(timeout_secs as u128));
            args.push(owned(ip));
        },
    }
    assert(argument_views(args@) =~= probe_argument_texts(platform, timeout_secs, ip@)) by {
        let want = probe_argument_texts(platform, timeout_secs, ip@);
        assert(args@.len() == want.len());
        assert forall|i: int| 0 <= i < args@.len() implies args@[i]@ =~= want[i] by {}
    }
    args
}

/// What one attempt showed.
#[derive(Clone, Debug)]
pub enum AttemptEvent {
    /// The utility ran, and its output was judged.
    Completed(Verdict),
    /// The utility could not be run at all.
    NotRun,
}

/// What the executor asks for next.
#[derive(Clone, Debug)]
pub enum NextStep {
    /// Wait `backoff_millis` milliseconds, then run the utility once more.
    Attempt { backoff_millis: u64 },
    /// The probe is over.
    Done(ProbeOutcome),
}

/// The pause between a failed attempt and the next one, in milliseconds.
pub open spec fn backoff_millis(platform: Platform) -> u64 {
    match platform {
        Platform::MillisecondTimeout => 200,
        Platform::DecimalTimeout => 100,
    }
}

/// The step that follows an attempt, when `attempts` attempts have been made
/// with this one: a success ends the probe with the latency of this attempt;
/// a utility that did not run ends it in failure at once; an unanswered
/// attempt is followed by a pause and another attempt while attempts are
/// left, and by failure, without a pause, when none is.
pub open spec fn step_after(
    platform: Platform,
    max_attempts: u32,
    attempts: nat,
    event: AttemptEvent,
) -> NextStep {
    match event {
        AttemptEvent::Completed(verdict) => if verdict.success {
            NextStep::Done(ProbeOutcome::Success { latency: verdict.latency })
        } else if attempts < max_attempts {
            NextStep::Attempt { backoff_millis: backoff_millis(platform) }
        } else {
            NextStep::Done(ProbeOutcome::Failure)
        },
        AttemptEvent::NotRun => NextStep::Done(ProbeOutcome::Failure),
    }
}

/// The utility ran and the host did not answer.
pub open spec fn is_unanswered(event: AttemptEvent) -> bool {
    match event {
        AttemptEvent::Completed(verdict) => !verdict.success,
        AttemptEvent::NotRun => false,
    }
}

/// The utility ran and the host answered.
pub open spec fn is_answered(event: AttemptEvent) -> bool {
    match event {
        AttemptEvent::Completed(verdict) => verdict.success,
        AttemptEvent::NotRun => false,
    }
}

/// The retry rule, whatever the attempts before showed: another attempt
/// follows exactly an unanswered attempt that was not the last one allowed,
/// and it follows after the pause of the family; the last attempt allowed is
/// followed by no pause; a success ends the probe with the latency it
/// reported, and a utility that did not run ends it in failure.
pub proof fn lemma_retry_rule(
    platform: Platform,
    max_attempts: u32,
    attempts: nat,
    event: AttemptEvent,
)
    requires
        1 <= attempts <= max_attempts,
    ensures
        step_after(platform, max_attempts, attempts, event) is Attempt <==> is_unanswered(event)
            && attempts < max_attempts,
        step_after(platform, max_attempts, attempts, event) is Attempt ==> step_after(
            platform,
            max_attempts,
            attempts,
            event,
        ) == (NextStep::Attempt { backoff_millis: backoff_millis(platform) }) && backoff_millis(
            platform,
        ) > 0,
        attempts == max_attempts ==> step_after(platform, max_attempts, attempts, event) is Done,
        is_answered(event) ==> step_after(platform, max_attempts, attempts, event)
            == NextStep::Done(ProbeOutcome::Success { latency: event->Completed_0.latency }),
        event is NotRun || (is_unanswered(event) && attempts == max_attempts) ==> step_after(
            platform,
            max_attempts,
            attempts,
            event,
        ) == NextStep::Done(ProbeOutcome::Failure),
{
}

/// The retry rule for one address: at most `max_attempts` attempts, ended by
/// the first success.
#[derive(Debug)]
pub struct ProbeExecutor {
    platform: Platform,
    max_attempts: u32,
    attempts: u32,
    finished: bool,
}

impl ProbeExecutor {
    /// The family of the utility that is run.
    pub closed spec fn platform(&self) -> Platform {
        self.platform
    }

    /// How many attempts are allowed.
    pub closed spec fn max_attempts(&self) -> u32 {
        self.max_attempts
    }

    /// How many attempts have been reported so far.
    pub closed spec fn attempts(&self) -> nat {
        self.attempts as nat
    }

    /// Whether the probe is over.
    pub closed spec fn finished(&self) -> bool {
        self.finished
    }

    /// Never more attempts than allowed, and an executor that awaits an
    /// attempt has one left.
    pub closed spec fn well_formed(&self) -> bool {
        &&& self.attempts <= self.max_attempts
        &&& !self.finished ==> self.attempts < self.max_attempts
    }

    /// Starts a probe. With no attempt allowed the probe is over at once, in
    /// failure; otherwise the first attempt follows without a pause.
    pub fn begin(platform: Platform, max_attempts: u32) -> (r: (Self, NextStep))
        ensures
            r.0.well_formed(),
            r.0.platform() == platform,
            r.0.max_attempts() == max_attempts,
            r.0.attempts() == 0,
            r.0.finished() == (max_attempts == 0),
            r.1 == if max_attempts == 0 {
                NextStep::Done(ProbeOutcome::Failure)
            } else {
                NextStep::Attempt { backoff_millis: 0 }
            },
    {
        let finished: bool = max_attempts == 0;
        let executor = ProbeExecutor { platform, max_attempts, attempts: 0, finished };
        let step = if finished {
            NextStep::Done(ProbeOutcome::Failure)
        } else {
            NextStep::Attempt { backoff_millis: 0 }
        };
        (executor, step)
    }

    /// Whether the probe is over.
    pub fn is_finished(&self) -> (b: bool)
        ensures
            b == self.finished(),
    {
        self.finished
    }

    /// How many attempts have been reported so far.
    pub fn attempts_made(&self) -> (n: u32)
        ensures
            n == self.attempts(),
    {
        self.attempts
    }

    /// Takes the bytes that the utility printed in the attempt just made and
    /// its exit status, judges them, and says what comes next.
    pub fn after_output(&mut self, output: &[u8], exit_ok: bool) -> (step: NextStep)
        requires
            old(self).well_formed(),
            !old(self).finished(),
            readable(old(self).platform(), output@),
        ensures
            final(self).well_formed(),
            final(self).platform() == old(self).platform(),
            final(self).max_attempts() == old(self).max_attempts(),
            final(self).attempts() == old(self).attempts() + 1,
            final(self).attempts() <= final(self).max_attempts(),
            final(self).finished() == (step is Done),
            exists|verdict: Verdict|
                #[trigger] verdict_matches(
                    verdict,
                    old(self).platform(),
                    output_text(old(self).platform(), output@),
                    exit_ok,
                ) && step == step_after(
                    old(self).platform(),
                    old(self).max_attempts(),
                    old(self).attempts() + 1,
                    AttemptEvent::Completed(verdict),
                ),
    {
        let verdict = classify_output(self.platform, output, exit_ok);
        let ghost judged = verdict;
        let step = self.after_attempt(AttemptEvent::Completed(verdict));
        assert(step == step_after(
            old(self).platform(),
            old(self).max_attempts(),
            old(self).attempts() + 1,
            AttemptEvent::Completed(judged),
        ));
        step
    }

    /// Takes what the attempt just made showed and says what comes next.
    pub fn after_attempt(&mut self, event: AttemptEvent) -> (step: NextStep)
        requires
            old(self).well_formed(),
            !old(self).finished(),
        ensures
            final(self).well_formed(),
            final(self).platform() == old(self).platform(),
            final(self).max_attempts() == old(self).max_attempts(),
            final(self).attempts() == old(self).attempts() + 1,
            final(self).attempts() <= final(self).max_attempts(),
            final(self).finished() == (step is Done),
            step == step_after(
                old(self).platform(),
                old(self).max_attempts(),
                old(self).attempts() + 1,
                event,
            ),
    {
        self.attempts = self.attempts + 1;
        let step = match event {
            AttemptEvent::Completed(verdict) => {
                if verdict.success {
                    NextStep::Done(ProbeOutcome::Success { latency: verdict.latency })
                } else if self.attempts < self.max_attempts {
                    let pause: u64 = match self.platform {
                        Platform::MillisecondTimeout => 200,
                        Platform::DecimalTimeout => 100,
                    };
                    NextStep::Attempt { backoff_millis: pause }
                } else {
                    NextStep::Done(ProbeOutcome::Failure)
                }
            },
            AttemptEvent::NotRun => NextStep::Done(ProbeOutcome::Failure),
        };
        self.finished = match step {
            NextStep::Done(_) => true,
            NextStep::Attempt { .. } => false,
        };
        step
    }
}

} // verus!
