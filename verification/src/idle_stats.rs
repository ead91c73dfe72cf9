//! Idle-period bookkeeping: one collector turns periodic idle-time samples into
//! a list of idle periods, and a retention rule trims that list.
use vstd::prelude::*;
use crate::json::{Json, JsonNumber, JsonV, as_bool, as_u64, field, get_field, opt_view};

verus! {

/// Seconds in a day.
pub const DAY: u64 = 86_400;

/// A stretch of time, in seconds since the epoch, during which the user was idle.
#[derive(Clone, Copy, PartialEq, Eq, Structural, Debug)]
pub struct IdlePeriod {
    pub started_at: u64,
    pub ended_at: u64,
}

/// What the collector remembers between two samples.
#[derive(Clone, Copy, PartialEq, Eq, Structural, Debug)]
pub struct Collector {
    /// When the current unbroken run of observations began.
    pub observing_since: Option<u64>,
    /// Start of the idle period that is still open, if any.
    pub active_start: Option<u64>,
    /// The moment of the last input seen at the previous sample.
    pub last_input: Option<u64>,
}

pub open spec fn fresh_collector() -> Collector {
    Collector { observing_since: None, active_start: None, last_input: None }
}

impl Default for Collector {
    fn default() -> (c: Collector)
        ensures
            c == fresh_collector(),
    {
        Collector { observing_since: None, active_start: None, last_input: None }
    }
}

pub open spec fn sat_sub(a: u64, b: u64) -> u64 {
    if a >= b {
        (a - b) as u64
    } else {
        0
    }
}

pub open spec fn sat_add(a: u64, b: u64) -> u64 {
    if a + b <= u64::MAX {
        (a + b) as u64
    } else {
        u64::MAX
    }
}

pub open spec fn max_u64(a: u64, b: u64) -> u64 {
    if a >= b {
        a
    } else {
        b
    }
}

pub open spec fn min_u64(a: u64, b: u64) -> u64 {
    if a <= b {
        a
    } else {
        b
    }
}

/// The moment of the last input that a sample reports.
pub open spec fn input_at(now: u64, seconds: u64) -> u64 {
    sat_sub(now, seconds)
}

/// Whether input was seen since the previous sample, though the machine may be
/// idle again by now: the last input moved forward by more than two seconds.
pub open spec fn returned(c: Collector, input: u64) -> bool {
    match c.last_input {
        Some(previous) => input > sat_add(previous, 2),
        None => false,
    }
}

/// Replaces the end of the last period.
pub open spec fn with_last_end(ps: Seq<IdlePeriod>, end: u64) -> Seq<IdlePeriod>
    recommends
        ps.len() > 0,
{
    ps.update(ps.len() - 1, IdlePeriod { started_at: ps.last().started_at, ended_at: end })
}

/// One step of the collector: its next state and the periods after a sample
/// taken at `now` that reports `seconds` of idleness (`None`: detection is
/// disabled or unavailable).
pub open spec fn sample_step(
    c: Collector,
    ps: Seq<IdlePeriod>,
    now: u64,
    seconds: Option<u64>,
    threshold: u64,
) -> (Collector, Seq<IdlePeriod>) {
    match seconds {
        None => (fresh_collector(), ps),
        Some(secs) => {
            let since = match c.observing_since {
                Some(s) => s,
                None => now,
            };
            let input = input_at(now, secs);
            let closes = returned(c, input) && c.active_start is Some;
            let ps1 = if closes && ps.len() > 0 {
                with_last_end(ps, min_u64(max_u64(input, ps.last().ended_at), now))
            } else {
                ps
            };
            let active1 = if closes {
                None
            } else {
                c.active_start
            };
            let (active2, ps2) = if secs >= threshold || active1 is Some {
                if active1 is None || ps1.len() == 0 {
                    let start = max_u64(input, since);
                    (Some(start), ps1.push(IdlePeriod { started_at: start, ended_at: now }))
                } else {
                    (active1, with_last_end(ps1, max_u64(now, ps1.last().started_at)))
                }
            } else {
                (active1, ps1)
            };
            (Collector { observing_since: Some(since), active_start: active2, last_input: Some(input) }, ps2)
        },
    }
}

impl Collector {
    /// Feeds one sample to the collector.
    pub fn sample(
        &mut self,
        periods: &mut Vec<IdlePeriod>,
        now: u64,
        seconds: Option<u64>,
        threshold: u64,
    )
        ensures
            (*final(self), final(periods)@) == sample_step(
                *old(self),
                old(periods)@,
                now,
                seconds,
                threshold,
            ),
    {
        let secs = match seconds {
            None => {
                *self = Collector::default();
                return;
            },
            Some(s) => s,
        };
        let since = match self.observing_since {
            Some(s) => s,
            None => {
                self.observing_since = Some(now);
                now
            },
        };
        let input = now.saturating_sub(secs);
        let returned = match self.last_input {
            Some(previous) => input > previous.saturating_add(2),
            None => false,
        };
        if returned && self.active_start.is_some() {
            self.active_start = None;
            let n = periods.len();
            if n > 0 {
                let mut last = periods[n - 1];
                let upper = if input >= last.ended_at {
                    input
                } else {
                    last.ended_at
                };
                last.ended_at = if upper <= now {
                    upper
                } else {
                    now
                };
                periods.set(n - 1, last);
            }
        }
        if secs >= threshold || self.active_start.is_some() {
            if self.active_start.is_none() || periods.len() == 0 {
                let start = if input >= since {
                    input
                } else {
                    since
                };
                self.active_start = Some(start);
                periods.push(IdlePeriod { started_at: start, ended_at: now });
            } else {
                let n = periods.len();
                let mut last = periods[n - 1];
                last.ended_at = if now >= last.started_at {
                    now
                } else {
                    last.started_at
                };
                periods.set(n - 1, last);
            }
        }
        self.last_input = Some(input);
        proof {
            let ghost step = sample_step(*old(self), old(periods)@, now, seconds, threshold);
            assert(periods@ =~= step.1);
        }
    }
}

/// Start of the retention window: `days` (between 1 and 365) days before `now`.
pub open spec fn retention_cutoff(now: u64, days: u64) -> u64 {
    let d = if days < 1 {
        1
    } else if days > 365 {
        365
    } else {
        days
    };
    sat_sub(now, (d * DAY) as u64)
}

/// The periods that end inside the window, each clipped to start no earlier than it.
pub open spec fn pruned(ps: Seq<IdlePeriod>, cutoff: u64) -> Seq<IdlePeriod>
    decreases ps.len(),
{
    if ps.len() == 0 {
        ps
    } else {
        let rest = pruned(ps.drop_last(), cutoff);
        let p = ps.last();
        if p.ended_at > cutoff {
            rest.push(IdlePeriod { started_at: max_u64(p.started_at, cutoff), ended_at: p.ended_at })
        } else {
            rest
        }
    }
}

/// Drops the periods that ended before the retention window and clips those
/// that reach into it.
pub fn prune(periods: &mut Vec<IdlePeriod>, now: u64, days: u64)
    ensures
        final(periods)@ == pruned(old(periods)@, retention_cutoff(now, days)),
{
    let d = if days < 1 {
        1
    } else if days > 365 {
        365
    } else {
        days
    };
    let cutoff = now.saturating_sub(d * DAY);
    let ghost original = periods@;
    let mut kept: Vec<IdlePeriod> = Vec::new();
    let mut i: usize = 0;
    assert(original.take(0) =~= Seq::<IdlePeriod>::empty());
    while i < periods.len()
        invariant
            periods@ == original,
            i <= original.len(),
            kept@ == pruned(original.take(i as int), cutoff),
        decreases original.len() - i,
    {
        let p = periods[i];
        assert(original.take(i + 1).drop_last() =~= original.take(i as int));
        if p.ended_at > cutoff {
            let start = if p.started_at >= cutoff {
                p.started_at
            } else {
                cutoff
            };
            kept.push(IdlePeriod { started_at: start, ended_at: p.ended_at });
        }
        i += 1;
    }
    assert(original.take(original.len() as int) =~= original);
    *periods = kept;
}


pub open spec fn clamp(v: u64, lo: u64, hi: u64) -> u64 {
    if v < lo {
        lo
    } else if v > hi {
        hi
    } else {
        v
    }
}

/// The idle-detection preferences held in the settings document: whether
/// detection is on (default off), the idle threshold in seconds (1 to 60
/// minutes, default 5) and how many days statistics are kept (1 to 365,
/// default 30).
pub open spec fn idle_preferences_of(settings: JsonV) -> (bool, u64, u64) {
    let enabled = match as_bool(field(settings, "enableIdleDetection"@)) {
        Some(b) => b,
        None => false,
    };
    let minutes = match as_u64(field(settings, "idleThresholdMinutes"@)) {
        Some(m) => m,
        None => 5,
    };
    let days = match as_u64(field(settings, "idleStatsRetentionDays"@)) {
        Some(d) => d,
        None => 30,
    };
    (enabled, (clamp(minutes, 1, 60) * 60) as u64, clamp(days, 1, 365))
}

fn bool_of(j: Option<&Json>) -> (r: Option<bool>)
    ensures
        r == as_bool(opt_view(j)),
{
    match j {
        Some(Json::Bool(b)) => Some(*b),
        _ => None,
    }
}

fn u64_of(j: Option<&Json>) -> (r: Option<u64>)
    ensures
        r == as_u64(opt_view(j)),
{
    match j {
        Some(Json::Number(JsonNumber::PosInt(n))) => Some(*n),
        _ => None,
    }
}

/// Reads the idle-detection preferences from the settings document.
pub fn preferences(settings: &Json) -> (r: (bool, u64, u64))
    ensures
        r == idle_preferences_of(settings@),
{
    let enabled = match bool_of(get_field(settings, "enableIdleDetection")) {
        Some(b) => b,
        None => false,
    };
    let minutes = match u64_of(get_field(settings, "idleThresholdMinutes")) {
        Some(m) => m,
        None => 5,
    };
    let days = match u64_of(get_field(settings, "idleStatsRetentionDays")) {
        Some(d) => d,
        None => 30,
    };
    let minutes = if minutes < 1 {
        1
    } else if minutes > 60 {
        60
    } else {
        minutes
    };
    let days = if days < 1 {
        1
    } else if days > 365 {
        365
    } else {
        days
    };
    (enabled, minutes * 60, days)
}

/// Idle statistics are served to the settings window only.
pub fn idle_stats_access(window_label: &str) -> (r: Result<(), String>)
    ensures
        r is Ok <==> window_label@ == "settings"@,
        r matches Err(e) ==> e@ == "Idle statistics are only available in settings"@,
{
    if crate::text::str_eq(window_label, "settings") {
        Ok(())
    } else {
        Err(String::from_str("Idle statistics are only available in settings"))
    }
}

/// Every period starts no later than it ends, and ends no later than `now`.
pub open spec fn periods_well_formed(ps: Seq<IdlePeriod>, now: u64) -> bool {
    forall|i: int|
        0 <= i < ps.len() ==> (#[trigger] ps[i]).started_at <= ps[i].ended_at <= now
}

/// Law: a sample that reports nothing (detection off or unavailable) forgets
/// the observation run and leaves the periods alone, so an unobserved gap is
/// never bridged.
pub proof fn lemma_unobserved_gap_is_never_bridged(
    c: Collector,
    ps: Seq<IdlePeriod>,
    now: u64,
    threshold: u64,
)
    ensures
        sample_step(c, ps, now, None, threshold) == (fresh_collector(), ps),
{
}

/// Law: while a period is open and no input was seen, any threshold (also a
/// changed one) only extends that period; it never opens a second one.
pub proof fn lemma_open_period_is_never_split(
    c: Collector,
    ps: Seq<IdlePeriod>,
    now: u64,
    seconds: u64,
    threshold: u64,
)
    requires
        c.active_start is Some,
        ps.len() > 0,
        !returned(c, input_at(now, seconds)),
    ensures
        ({
            let (c2, ps2) = sample_step(c, ps, now, Some(seconds), threshold);
            &&& ps2.len() == ps.len()
            &&& ps2.last().started_at == ps.last().started_at
            &&& ps2.last().ended_at == max_u64(now, ps.last().started_at)
            &&& c2.active_start == c.active_start
        }),
{
}

/// Law: a sample changes at most the last recorded period and adds at most one.
pub proof fn lemma_sample_keeps_history(
    c: Collector,
    ps: Seq<IdlePeriod>,
    now: u64,
    seconds: Option<u64>,
    threshold: u64,
)
    ensures
        ({
            let ps2 = sample_step(c, ps, now, seconds, threshold).1;
            &&& ps2.len() == ps.len() || ps2.len() == ps.len() + 1
            &&& forall|i: int| 0 <= i < ps.len() - 1 ==> ps2[i] == ps[i]
        }),
{
}

/// Law: with a clock that does not run backwards, samples keep every period
/// well formed: it starts before it ends, and it ends no later than the sample.
pub proof fn lemma_sample_keeps_periods_well_formed(
    c: Collector,
    ps: Seq<IdlePeriod>,
    before: u64,
    now: u64,
    seconds: Option<u64>,
    threshold: u64,
)
    requires
        before <= now,
        periods_well_formed(ps, before),
        c.observing_since matches Some(s) ==> s <= now,
    ensures
        periods_well_formed(sample_step(c, ps, now, seconds, threshold).1, now),
        sample_step(c, ps, now, seconds, threshold).0.observing_since matches Some(s) ==> s <= now,
{
    let ps2 = sample_step(c, ps, now, seconds, threshold).1;
    assert forall|i: int| 0 <= i < ps2.len() implies (#[trigger] ps2[i]).started_at
        <= ps2[i].ended_at <= now by {
        if i < ps.len() {
            assert(ps[i].started_at <= ps[i].ended_at <= before);
        }
    }
}

/// Law: every pruned period lies inside the retention window.
pub proof fn lemma_pruned_periods_are_inside_window(ps: Seq<IdlePeriod>, cutoff: u64)
    ensures
        forall|i: int|
            0 <= i < pruned(ps, cutoff).len() ==> (#[trigger] pruned(ps, cutoff)[i]).ended_at
                > cutoff && pruned(ps, cutoff)[i].started_at >= cutoff,
        pruned(ps, cutoff).len() <= ps.len(),
    decreases ps.len(),
{
    if ps.len() > 0 {
        lemma_pruned_periods_are_inside_window(ps.drop_last(), cutoff);
    }
}

/// Law: pruning twice with the same window is pruning once.
pub proof fn lemma_prune_is_idempotent(ps: Seq<IdlePeriod>, cutoff: u64)
    ensures
        pruned(pruned(ps, cutoff), cutoff) == pruned(ps, cutoff),
    decreases ps.len(),
{
    if ps.len() > 0 {
        let rest = pruned(ps.drop_last(), cutoff);
        lemma_prune_is_idempotent(ps.drop_last(), cutoff);
        let p = ps.last();
        if p.ended_at > cutoff {
            let q = IdlePeriod { started_at: max_u64(p.started_at, cutoff), ended_at: p.ended_at };
            assert(rest.push(q).drop_last() =~= rest);
            assert(pruned(rest.push(q), cutoff) =~= pruned(rest, cutoff).push(q));
        }
    }
}

/// Law: pruning keeps well-formed periods well formed.
pub proof fn lemma_prune_keeps_periods_well_formed(ps: Seq<IdlePeriod>, cutoff: u64, now: u64)
    requires
        periods_well_formed(ps, now),
    ensures
        periods_well_formed(pruned(ps, cutoff), now),
    decreases ps.len(),
{
    if ps.len() > 0 {
        assert(periods_well_formed(ps.drop_last(), now)) by {
            assert forall|i: int| 0 <= i < ps.drop_last().len() implies (
            #[trigger] ps.drop_last()[i]).started_at <= ps.drop_last()[i].ended_at <= now by {
                assert(ps.drop_last()[i] == ps[i]);
            }
        }
        lemma_prune_keeps_periods_well_formed(ps.drop_last(), cutoff, now);
        assert(ps.last() == ps[ps.len() - 1]);
    }
}

} // verus!
