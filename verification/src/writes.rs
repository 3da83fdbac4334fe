//! Whether a command is sent: never when the device is as wanted, and not too often otherwise.

use vstd::prelude::*;

use crate::throttle::{Attempts, WriteThrottle};

verus! {

/// What is done about a command.
#[derive(Debug, Clone, Copy, PartialEq, Eq, Structural)]
pub enum Gate {
    /// The device is as wanted, so nothing is sent.
    Settled,
    /// The device does not know what is wanted, so nothing is sent.
    Unsupported,
    /// The command was sent too short a time ago, and this many nanoseconds are to pass.
    Wait { nanos: u128 },
    /// The command is sent. It is a retry when the device did not apply an earlier one.
    Send { retry: bool },
}

/// What is done about a command, and what the throttle remembers then.
pub open spec fn gated(
    attempts: Attempts,
    key: Seq<char>,
    settled: bool,
    now: u128,
) -> (Gate, Attempts) {
    if settled {
        (Gate::Settled, attempts.cleared(key))
    } else if attempts.open(key, now) {
        (Gate::Send { retry: attempts.last.contains_key(key) }, attempts.marked(key, now))
    } else {
        (Gate::Wait { nanos: attempts.wait(key, now)->0 }, attempts)
    }
}

/// Decides about the command of a key at the moment `now`, given whether the device is as the
/// command wants it.
pub fn gate(throttle: &mut WriteThrottle, key: &str, settled: bool, now: u128) -> (gate: Gate)
    ensures
        (gate, final(throttle)@) == gated(old(throttle)@, key@, settled, now),
        final(throttle).origin() == old(throttle).origin(),
        final(throttle).latest() == old(throttle).latest(),
{
    if settled {
        throttle.clear(key);
        return Gate::Settled;
    }
    let retry = throttle.attempted(key);
    if throttle.allow_at(key, now) {
        return Gate::Send { retry };
    }
    match throttle.retry_in_at(key, now) {
        Some(nanos) => Gate::Wait { nanos },
        None => Gate::Wait { nanos: 0 },
    }
}

/// A command is sent only where the device is not as wanted, and where it is, the throttle
/// forgets the command.
pub proof fn law_settled_sends_nothing(
    attempts: Attempts,
    key: Seq<char>,
    settled: bool,
    now: u128,
    later: u128,
)
    ensures
        gated(attempts, key, settled, now).0 is Send ==> !settled,
        settled ==> gated(gated(attempts, key, true, now).1, key, false, later).0 == (Gate::Send {
            retry: false,
        }),
{
}

/// A command that was sent and not applied is sent again, as a retry, exactly when the interval
/// has passed. Until then it waits for the rest of the interval.
pub proof fn law_dropped_command_is_retried(
    attempts: Attempts,
    key: Seq<char>,
    first: u128,
    second: u128,
)
    requires
        gated(attempts, key, false, first).0 is Send,
        first <= second,
    ensures
        gated(gated(attempts, key, false, first).1, key, false, second).0 == if second - first
            >= attempts.min_interval {
            Gate::Send { retry: true }
        } else {
            Gate::Wait { nanos: (attempts.min_interval - (second - first)) as u128 }
        },
{
}

/// A command that was never sent, or was applied since, is sent at once.
pub proof fn law_first_command_is_sent(attempts: Attempts, key: Seq<char>, now: u128)
    requires
        !attempts.last.contains_key(key),
    ensures
        gated(attempts, key, false, now).0 == (Gate::Send { retry: false }),
{
}

/// What is done about a command goes by whether the device is as wanted and by the last attempt
/// alone. Nothing is sent where it is. Otherwise the command is sent at once where no attempt is
/// remembered, again where the interval has passed since the last one, and not before.
pub proof fn law_gate_goes_by_the_last_attempt(
    attempts: Attempts,
    key: Seq<char>,
    settled: bool,
    now: u128,
)
    ensures
        gated(attempts, key, settled, now).0 == Gate::Settled <==> settled,
        gated(attempts, key, settled, now).0 != Gate::Unsupported,
        !settled && !attempts.last.contains_key(key) ==> gated(attempts, key, settled, now).0 == (
        Gate::Send { retry: false }),
        !settled && attempts.last.contains_key(key) && now >= attempts.last[key]
            + attempts.min_interval ==> gated(attempts, key, settled, now).0 == (Gate::Send {
            retry: true,
        }),
        !settled && attempts.last.contains_key(key) && attempts.last[key] <= now
            < attempts.last[key] + attempts.min_interval ==> gated(attempts, key, settled, now).0
            == (Gate::Wait { nanos: (attempts.last[key] + attempts.min_interval - now) as u128 }),
{
}

/// What the throttle remembers after a command was decided about: a command that is sent counts
/// as attempted then, one that is settled is forgotten, one that waits leaves everything as it
/// was, and no other command is touched.
pub proof fn law_gate_remembers_what_it_sends(
    attempts: Attempts,
    key: Seq<char>,
    other: Seq<char>,
    settled: bool,
    now: u128,
)
    ensures
        gated(attempts, key, settled, now).1.min_interval == attempts.min_interval,
        gated(attempts, key, settled, now).0 is Send ==> gated(
            attempts,
            key,
            settled,
            now,
        ).1.last.contains_key(key) && gated(attempts, key, settled, now).1.last[key] == now,
        settled ==> !gated(attempts, key, settled, now).1.last.contains_key(key),
        gated(attempts, key, settled, now).0 is Wait ==> gated(attempts, key, settled, now).1
            == attempts,
        other != key ==> gated(attempts, key, settled, now).1.last.contains_key(other)
            == attempts.last.contains_key(other),
        other != key && attempts.last.contains_key(other) ==> gated(
            attempts,
            key,
            settled,
            now,
        ).1.last[other] == attempts.last[other],
{
}

} // verus!
