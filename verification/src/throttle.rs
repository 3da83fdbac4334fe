//! A rate limiter for writes that Home Assistant accepted but the device did not apply.

use std::time::Instant;

use vstd::prelude::*;

use crate::table::Table;

verus! {

/// The nanoseconds of a second.
pub const NANOS_PER_SEC: u128 = 1_000_000_000;

/// A reading of the monotonic clock of `std`.
#[verifier::external_type_specification]
#[verifier::external_body]
pub struct ExInstant(Instant);

/// Calls `std::time::Instant::now`. Nothing is claimed of the moment that it gives.
#[verifier::external_body]
fn start_clock() -> (start: Instant) {
    Instant::now()
}

/// Calls `std::time::Instant::elapsed` and counts the time in nanoseconds. Nothing is claimed
/// of how much has passed.
#[verifier::external_body]
pub(crate) fn nanos_since(start: &Instant) -> (nanos: u128) {
    start.elapsed().as_nanos()
}

/// The clock was asked how much time has passed since `origin`, and gave `nanos`. Only a call of
/// `Instant::elapsed` brings this about.
pub closed spec fn read_since(origin: Instant, nanos: u128) -> bool {
    call_ensures(nanos_since, (&origin,), nanos)
}

/// The attempts that a throttle remembers, by the key of what was written, and the time that
/// has to pass before a write is attempted again. Moments are counted in nanoseconds from the
/// making of the throttle.
pub struct Attempts {
    pub last: Map<Seq<char>, u128>,
    pub min_interval: u128,
}

impl Attempts {
    /// The time from the last attempt to `now`.
    pub open spec fn elapsed(self, key: Seq<char>, now: u128) -> int {
        if now >= self.last[key] {
            now - self.last[key]
        } else {
            0
        }
    }

    /// A write may be attempted: none is remembered, or the interval has passed.
    pub open spec fn open(self, key: Seq<char>, now: u128) -> bool {
        self.last.contains_key(key) ==> self.elapsed(key, now) >= self.min_interval
    }

    /// The time that is left until a write may be attempted again.
    pub open spec fn wait(self, key: Seq<char>, now: u128) -> Option<u128> {
        if self.last.contains_key(key) && self.elapsed(key, now) <= self.min_interval {
            Some((self.min_interval - self.elapsed(key, now)) as u128)
        } else {
            None
        }
    }

    /// An attempt is remembered.
    pub open spec fn marked(self, key: Seq<char>, now: u128) -> Attempts {
        Attempts { last: self.last.insert(key, now), ..self }
    }

    /// What happens to the attempts when a write is asked for.
    pub open spec fn asked(self, key: Seq<char>, now: u128) -> Attempts {
        if self.open(key, now) {
            self.marked(key, now)
        } else {
            self
        }
    }

    /// The attempt is forgotten.
    pub open spec fn cleared(self, key: Seq<char>) -> Attempts {
        Attempts { last: self.last.remove(key), ..self }
    }
}

/// Limits how often a write is repeated that the device does not apply.
#[derive(Debug)]
pub struct WriteThrottle {
    last_attempt: Table<u128>,
    min_interval: u128,
    start: Instant,
    latest: u128,
}

impl View for WriteThrottle {
    type V = Attempts;

    closed spec fn view(&self) -> Attempts {
        Attempts { last: self.last_attempt@, min_interval: self.min_interval }
    }
}

impl WriteThrottle {
    /// The clock reading from which moments are counted.
    pub closed spec fn origin(self) -> Instant {
        self.start
    }

    /// The latest moment that was read from the clock and acted on.
    pub closed spec fn latest(self) -> u128 {
        self.latest
    }

    /// The clock, asked now how much time has passed since the origin, gives the moment `now`.
    /// A reading that lay before the latest moment would count as that moment.
    pub open spec fn clock_gives(self, now: u128) -> bool {
        exists|nanos: u128|
            #[trigger] read_since(self.origin(), nanos) && now == if nanos >= self.latest() {
                nanos
            } else {
                self.latest()
            }
    }

    /// A throttle that remembers no attempt.
    pub fn new(min_interval_secs: u64) -> (throttle: Self)
        ensures
            throttle@.last == Map::<Seq<char>, u128>::empty(),
            throttle@.min_interval == min_interval_secs * NANOS_PER_SEC,
            throttle.latest() == 0,
    {
        WriteThrottle {
            last_attempt: Table::new(),
            min_interval: min_interval_secs as u128 * NANOS_PER_SEC,
            start: start_clock(),
            latest: 0,
        }
    }

    /// Reads the clock, in nanoseconds from the making of the throttle.
    pub(crate) fn now(&self) -> (now: u128)
        ensures
            self.clock_gives(now),
    {
        let clock = nanos_since;
        let nanos = clock(&self.start);
        assert(read_since(self.origin(), nanos));
        if nanos >= self.latest {
            nanos
        } else {
            self.latest
        }
    }

    /// Reads the clock and keeps the moment as the latest one, so that no later moment lies
    /// before it.
    pub(crate) fn tick(&mut self) -> (now: u128)
        ensures
            old(self).clock_gives(now),
            final(self).latest() == now,
            final(self).origin() == old(self).origin(),
            final(self)@ == old(self)@,
    {
        let now = self.now();
        self.latest = now;
        now
    }

    /// Returns true if a write keyed by `key` may be attempted at the moment `now`, and
    /// remembers it as attempted then.
    pub fn allow_at(&mut self, key: &str, now: u128) -> (allowed: bool)
        ensures
            allowed == old(self)@.open(key@, now),
            final(self)@ == old(self)@.asked(key@, now),
            final(self).origin() == old(self).origin(),
            final(self).latest() == old(self).latest(),
    {
        let allowed = match self.last_attempt.get(key) {
            Some(last) => now.saturating_sub(*last) >= self.min_interval,
            None => true,
        };
        if allowed {
            self.last_attempt.insert(key.to_string(), now);
        }
        allowed
    }

    /// Returns true if a write keyed by `key` may be attempted now, by the clock, and remembers it
    /// as attempted.
    pub fn allow(&mut self, key: &str) -> (allowed: bool)
        ensures
            exists|now: u128|
                allowed == #[trigger] old(self)@.open(key@, now) && final(self)@ == old(self)@.asked(
                    key@,
                    now,
                ) && old(self).clock_gives(now) && final(self).latest() == now,
            !old(self)@.last.contains_key(key@) ==> allowed,
            final(self).origin() == old(self).origin(),
    {
        let now = self.tick();
        self.allow_at(key, now)
    }

    /// Forgets the attempts of a key.
    pub fn clear(&mut self, key: &str)
        ensures
            final(self)@ == old(self)@.cleared(key@),
            final(self).origin() == old(self).origin(),
            final(self).latest() == old(self).latest(),
    {
        self.last_attempt.remove(key);
    }

    /// The nanoseconds that are left, at the moment `now`, until `key` may be attempted again.
    pub fn retry_in_at(&self, key: &str, now: u128) -> (left: Option<u128>)
        ensures
            left == self@.wait(key@, now),
    {
        match self.last_attempt.get(key) {
            Some(last) => self.min_interval.checked_sub(now.saturating_sub(*last)),
            None => None,
        }
    }

    /// The nanoseconds that are left until `key` may be attempted again.
    pub fn retry_in(&self, key: &str) -> (left: Option<u128>)
        ensures
            exists|now: u128| left == #[trigger] self@.wait(key@, now) && self.clock_gives(now),
    {
        let now = self.now();
        self.retry_in_at(key, now)
    }

    /// Whether an attempt of a key is remembered.
    pub fn attempted(&self, key: &str) -> (yes: bool)
        ensures
            yes == self@.last.contains_key(key@),
    {
        self.last_attempt.contains_key(key)
    }
}

impl Default for WriteThrottle {
    /// A throttle that never holds a write back.
    fn default() -> (throttle: Self)
        ensures
            throttle@.last == Map::<Seq<char>, u128>::empty(),
            throttle@.min_interval == 0,
    {
        WriteThrottle::new(0)
    }
}

/// A key that was never attempted, or was cleared, is open.
pub proof fn law_forgotten_is_open(attempts: Attempts, key: Seq<char>, now: u128)
    ensures
        attempts.cleared(key).open(key, now),
        !attempts.last.contains_key(key) ==> attempts.open(key, now),
{
}

/// Once a write was allowed, the next one under the same key is allowed exactly when the
/// interval has passed, and until then the throttle says how much of it is left.
pub proof fn law_interval_between_attempts(
    attempts: Attempts,
    key: Seq<char>,
    first: u128,
    second: u128,
)
    requires
        attempts.open(key, first),
        first <= second,
    ensures
        attempts.asked(key, first).open(key, second) == (second - first >= attempts.min_interval),
        !attempts.asked(key, first).open(key, second) ==> attempts.asked(key, first).wait(key, second)
            == Some((attempts.min_interval - (second - first)) as u128),
{
}

/// Being refused changes nothing, and asking under one key has no effect on another.
pub proof fn law_keys_are_independent(
    attempts: Attempts,
    key: Seq<char>,
    other: Seq<char>,
    now: u128,
    later: u128,
)
    requires
        key != other,
    ensures
        !attempts.open(key, now) ==> attempts.asked(key, now) == attempts,
        attempts.asked(key, now).open(other, later) == attempts.open(other, later),
        attempts.cleared(key).open(other, later) == attempts.open(other, later),
        attempts.asked(key, now).wait(other, later) == attempts.wait(other, later),
        attempts.cleared(key).wait(other, later) == attempts.wait(other, later),
{
}

/// What counts as a reading was given by the clock, when it was asked for the time since that
/// very origin.
pub(crate) proof fn law_readings_come_from_the_clock(origin: Instant, nanos: u128)
    requires
        read_since(origin, nanos),
    ensures
        call_ensures(nanos_since, (&origin,), nanos),
{
}

/// The clock never goes back: the moment that it gives is a reading taken then, or the latest
/// moment where that would lie behind the reading.
pub proof fn law_moments_never_go_back(throttle: WriteThrottle, now: u128)
    requires
        throttle.clock_gives(now),
    ensures
        now >= throttle.latest(),
        exists|nanos: u128| #[trigger]
            read_since(throttle.origin(), nanos) && now >= nanos && (now == nanos || now
                == throttle.latest()),
{
}

/// Once the interval has passed by the clock since a write was allowed, the next one is allowed,
/// whatever the clock reads then.
pub proof fn law_interval_passes_by_the_clock(
    throttle: WriteThrottle,
    key: Seq<char>,
    first: u128,
    second: u128,
)
    requires
        throttle@.last.contains_key(key),
        throttle@.last[key] == first,
        throttle.latest() >= first + throttle@.min_interval,
        throttle.clock_gives(second),
    ensures
        throttle@.open(key, second),
{
}

/// What asking and forgetting do to the attempts, key by key: an attempt that is allowed is
/// remembered at its moment, a key that is cleared is forgotten, and nothing else changes.
pub proof fn law_attempts_change_at_the_key_only(
    attempts: Attempts,
    key: Seq<char>,
    other: Seq<char>,
    now: u128,
)
    ensures
        !attempts.last.contains_key(key) ==> attempts.asked(key, now).last.contains_key(key)
            && attempts.asked(key, now).last[key] == now,
        attempts.last.contains_key(key) && now >= attempts.last[key] + attempts.min_interval
            ==> attempts.asked(key, now).last.contains_key(key) && attempts.asked(
            key,
            now,
        ).last[key] == now,
        attempts.last.contains_key(key) && now < attempts.last[key] + attempts.min_interval
            && attempts.min_interval > 0 ==> attempts.asked(key, now) == attempts,
        !attempts.cleared(key).last.contains_key(key),
        attempts.asked(key, now).min_interval == attempts.min_interval,
        attempts.cleared(key).min_interval == attempts.min_interval,
        other != key ==> attempts.asked(key, now).last.contains_key(other)
            == attempts.last.contains_key(other) && attempts.cleared(key).last.contains_key(other)
            == attempts.last.contains_key(other),
        other != key && attempts.last.contains_key(other) ==> attempts.asked(
            key,
            now,
        ).last[other] == attempts.last[other] && attempts.cleared(key).last[other]
            == attempts.last[other],
{
}

/// The time that is left, by the moment of the last attempt: nothing where none is remembered
/// or more than the interval has passed, and all of it where the clock lies behind the attempt.
pub proof fn law_time_left(attempts: Attempts, key: Seq<char>, now: u128)
    ensures
        !attempts.last.contains_key(key) ==> attempts.wait(key, now) is None,
        attempts.last.contains_key(key) && now > attempts.last[key] + attempts.min_interval
            ==> attempts.wait(key, now) is None,
        attempts.last.contains_key(key) && attempts.last[key] <= now <= attempts.last[key]
            + attempts.min_interval ==> attempts.wait(key, now) == Some(
            (attempts.last[key] + attempts.min_interval - now) as u128,
        ),
        attempts.last.contains_key(key) && now < attempts.last[key] ==> attempts.wait(key, now)
            == Some(attempts.min_interval),
{
}

/// A throttle without an interval lets every write through.
pub proof fn law_no_interval_no_limit(attempts: Attempts, key: Seq<char>, now: u128)
    requires
        attempts.min_interval == 0,
    ensures
        attempts.open(key, now),
{
}

} // verus!
