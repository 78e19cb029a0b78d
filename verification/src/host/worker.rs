use vstd::prelude::*;
pub use crate::host::instance_link::{HandleRecord, InstanceLink};

verus! {

/// Upper bound of the restart delay, in milliseconds.
pub const MAX_BACKOFF_MS: u64 = 30000;

/// Delay before the `attempt`-th restart: 100 ms doubled per attempt
/// (at most ten doublings), capped at 30 s.
pub open spec fn backoff_spec(attempt: u32) -> u64 {
    let shift: nat = if attempt < 10 { attempt as nat } else { 10 };
    let ms = 100 * vstd::arithmetic::power2::pow2(shift);
    if ms < 30000 { ms as u64 } else { 30000 }
}

/// Restart delay in milliseconds for the given attempt number.
pub fn backoff(attempt: u32) -> (ms: u64)
    ensures
        ms == backoff_spec(attempt),
        ms <= MAX_BACKOFF_MS,
{
    let shift: u64 = if attempt < 10 { attempt as u64 } else { 10 };
    proof {
        vstd::arithmetic::power2::lemma2_to64();
        assert(vstd::arithmetic::power2::pow2(shift as nat) <= 1024) by {
            if shift < 10 {
                vstd::arithmetic::power2::lemma_pow2_strictly_increases(shift as nat, 10);
            }
        }
        vstd::bits::lemma_u64_shl_is_mul(1, shift);
    }
    let factor: u64 = 1u64 << shift;
    let ms: u64 = 100 * factor;
    if ms < MAX_BACKOFF_MS { ms } else { MAX_BACKOFF_MS }
}

} // verus!

use crate::host::manifest::RestartPolicy;

verus! {

/// Backoff never shrinks as the attempt number grows.
pub proof fn lemma_backoff_monotone(a: u32, b: u32)
    requires
        a <= b,
    ensures
        backoff_spec(a) <= backoff_spec(b),
{
    let sa: nat = if a < 10 { a as nat } else { 10 };
    let sb: nat = if b < 10 { b as nat } else { 10 };
    if sa < sb {
        vstd::arithmetic::power2::lemma_pow2_strictly_increases(sa, sb);
    }
}

/// What happened to the event the worker last took from its queue.
#[derive(Clone, Copy, Debug, PartialEq, Eq, Structural)]
pub enum Outcome {
    /// The event was `SYS_SHUTDOWN`.
    Shutdown,
    /// The plugin handled the event.
    Handled,
    /// The plugin's handler reported an error.
    Failed,
    /// A fresh instance could not be made after a failure.
    RestartFailed,
}

/// What the worker does next.
#[derive(Clone, Copy, Debug, PartialEq, Eq, Structural)]
pub enum Directive {
    /// Leave the loop.
    Stop,
    /// Take the next event.
    Continue,
    /// Send the event to the dead-letter queue, wait, then make a new instance.
    DeadLetterAndRestart { delay_ms: u64 },
    /// Send the event to the dead-letter queue and leave the loop.
    DeadLetterAndStop,
}

/// The restart bookkeeping of one plugin worker.
#[derive(Clone, Copy, Debug)]
pub struct Supervision {
    pub policy: RestartPolicy,
    pub max_retries: u32,
    pub retries: u32,
}

impl Supervision {
    pub open spec fn wf(self) -> bool {
        self.retries <= self.max_retries
    }

    /// The state after `outcome`, and the directive it yields.
    pub open spec fn step_spec(self, outcome: Outcome) -> (Supervision, Directive) {
        match outcome {
            Outcome::Shutdown => (self, Directive::Stop),
            Outcome::Handled => (Supervision { retries: 0, ..self }, Directive::Continue),
            Outcome::Failed => {
                if self.policy.allows_restart() && self.retries < self.max_retries {
                    let r = (self.retries + 1) as u32;
                    (
                        Supervision { retries: r, ..self },
                        Directive::DeadLetterAndRestart { delay_ms: backoff_spec(r) },
                    )
                } else {
                    (self, Directive::DeadLetterAndStop)
                }
            },
            Outcome::RestartFailed => (self, Directive::Stop),
        }
    }

    /// A fresh worker for a plugin with the given supervisor settings.
    pub fn new(policy: RestartPolicy, max_retries: u32) -> (s: Self)
        ensures
            s.wf(),
            s.policy == policy,
            s.max_retries == max_retries,
            s.retries == 0,
    {
        Supervision { policy, max_retries, retries: 0 }
    }

    /// Applies one outcome.
    pub fn step(&mut self, outcome: Outcome) -> (d: Directive)
        requires
            old(self).wf(),
        ensures
            (*final(self), d) == old(self).step_spec(outcome),
            final(self).wf(),
    {
        match outcome {
            Outcome::Shutdown => Directive::Stop,
            Outcome::Handled => {
                self.retries = 0;
                Directive::Continue
            },
            Outcome::Failed => {
                let restart = match self.policy {
                    RestartPolicy::Always => true,
                    RestartPolicy::OnFailure => true,
                    RestartPolicy::Never => false,
                };
                if restart && self.retries < self.max_retries {
                    self.retries = self.retries + 1;
                    let delay_ms = backoff(self.retries);
                    Directive::DeadLetterAndRestart { delay_ms }
                } else {
                    Directive::DeadLetterAndStop
                }
            },
            Outcome::RestartFailed => Directive::Stop,
        }
    }
}

/// Number of restarts a worker in state `s` performs over `outs`,
/// up to the first directive that ends its loop.
pub open spec fn restarts_over(s: Supervision, outs: Seq<Outcome>) -> nat
    decreases outs.len(),
{
    if outs.len() == 0 {
        0
    } else {
        let (s2, d) = s.step_spec(outs[0]);
        match d {
            Directive::DeadLetterAndRestart { .. } => 1 + restarts_over(s2, outs.drop_first()),
            Directive::Continue => restarts_over(s2, outs.drop_first()),
            _ => 0,
        }
    }
}

/// Without a successful event in between, a worker restarts its plugin at
/// most `max_retries - retries` more times.
pub proof fn lemma_restarts_bounded(s: Supervision, outs: Seq<Outcome>)
    requires
        s.wf(),
        forall|i: int| 0 <= i < outs.len() ==> outs[i] != Outcome::Handled,
    ensures
        restarts_over(s, outs) <= s.max_retries - s.retries,
    decreases outs.len(),
{
    if outs.len() > 0 {
        let (s2, d) = s.step_spec(outs[0]);
        assert(outs.drop_first().len() < outs.len());
        assert forall|i: int| 0 <= i < outs.drop_first().len() implies outs.drop_first()[i]
            != Outcome::Handled by {
            assert(outs.drop_first()[i] == outs[i + 1]);
        }
        lemma_restarts_bounded(s2, outs.drop_first());
    }
}

/// Under `Never` a failure always ends the worker.
pub proof fn lemma_never_restarts(s: Supervision)
    requires
        s.policy == RestartPolicy::Never,
    ensures
        s.step_spec(Outcome::Failed).1 == Directive::DeadLetterAndStop,
{
}

/// Every restart waits at most the backoff cap.
pub proof fn lemma_restart_delay_capped(s: Supervision, o: Outcome)
    ensures
        s.step_spec(o).1 matches Directive::DeadLetterAndRestart { delay_ms } ==> delay_ms
            <= MAX_BACKOFF_MS,
{
}

} // verus!

use crate::host::event::{Event, EventMeta, SYS_SHUTDOWN};
use crate::json::{json_text, str_member, to_json_string, u64_member, JsonValue};
use crate::text::{str_eq, utf8_bytes};

verus! {

/// A running instance of a plugin's module.
pub trait PluginInstance {
    /// Hands an event (its envelope as JSON, and its payload) to the plugin.
    fn handle_event(&mut self, meta_json: &[u8], payload: &[u8]) -> Result<(), String>;

    /// The fuel the instance has burnt so far.
    fn fuel_consumed(&self) -> u64;
}

/// `v` is the JSON of an envelope: `id`, `topic`, `version`, `timestamp`.
pub open spec fn is_meta_json(v: JsonValue, m: EventMeta) -> bool {
    &&& v matches JsonValue::Object(fs)
    &&& fs@.len() == 4
    &&& fs@[0].0@ == "id"@ && (fs@[0].1 matches JsonValue::Str(s) && s@ == m.id@)
    &&& fs@[1].0@ == "topic"@ && (fs@[1].1 matches JsonValue::Str(s) && s@ == m.topic@)
    &&& fs@[2].0@ == "version"@ && fs@[2].1 == JsonValue::UInt(m.version as u64)
    &&& fs@[3].0@ == "timestamp"@ && fs@[3].1 == JsonValue::UInt(m.timestamp)
}

/// The UTF-8 JSON of an envelope, as a plugin receives it.
pub fn meta_json(m: &EventMeta) -> (b: Vec<u8>)
    ensures
        exists|v: JsonValue| #[trigger] is_meta_json(v, *m) && b@ == vstd::utf8::encode_utf8(json_text(v)),
{
    let mut fs: Vec<(String, JsonValue)> = Vec::new();
    fs.push(str_member("id", m.id.as_str()));
    fs.push(str_member("topic", m.topic.as_str()));
    fs.push(u64_member("version", m.version as u64));
    fs.push(u64_member("timestamp", m.timestamp));
    let v = JsonValue::Object(fs);
    assert(is_meta_json(v, *m));
    let s = to_json_string(&v);
    utf8_bytes(s.as_str())
}

/// The outcome a handler's success or failure is to the bookkeeping.
pub open spec fn outcome_of(ok: bool) -> Outcome {
    if ok {
        Outcome::Handled
    } else {
        Outcome::Failed
    }
}

/// Hands one event from the worker's queue to the plugin and applies the
/// outcome: a `SYS_SHUTDOWN` event stops the worker without reaching the
/// plugin; otherwise the event's envelope JSON and payload are handed to
/// the plugin once, and its success or failure is a step of the restart
/// bookkeeping, whose directive is returned.
pub fn deliver<I: PluginInstance>(link: &mut InstanceLink<I>, sup: &mut Supervision, event: &Event) -> (d: Directive)
    requires
        old(sup).wf(),
    ensures
        final(sup).wf(),
        event.meta.topic@ == SYS_SHUTDOWN@ ==> d == Directive::Stop && *final(sup) == *old(sup) && final(link).calls()
            == old(link).calls(),
        event.meta.topic@ != SYS_SHUTDOWN@ ==> {
            &&& final(link).calls().len() == old(link).calls().len() + 1
            &&& final(link).calls().drop_last() == old(link).calls()
            &&& exists|v: JsonValue| #[trigger] is_meta_json(v, event.meta) && final(link).calls().last().0
                == vstd::utf8::encode_utf8(json_text(v))
            &&& final(link).calls().last().1 == event.payload@
            &&& (*final(sup), d) == old(sup).step_spec(outcome_of(final(link).calls().last().2))
        },
{
    if str_eq(event.meta.topic.as_str(), SYS_SHUTDOWN) {
        return sup.step(Outcome::Shutdown);
    }
    let meta = meta_json(&event.meta);
    let _fuel_before = link.fuel_consumed();
    let res = link.handle_event(meta.as_slice(), event.payload.as_slice());
    proof {
        assert(link.calls().drop_last() =~= old(link).calls());
    }
    match res {
        Ok(()) => sup.step(Outcome::Handled),
        Err(_) => sup.step(Outcome::Failed),
    }
}

} // verus!
