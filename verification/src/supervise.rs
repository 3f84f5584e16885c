//! Supervision decisions: the restart budget of a supervised child
//! ("let it crash", one-for-one). The thread that runs the child and
//! catches its panics lives with the caller; it reports each crash here
//! and escalates when the budget is spent.

use vstd::prelude::*;

use crate::paths::{owned, push_str};
use crate::plugin::{sanitize_plugin_segment, sanitized};

verus! {

/// Restart budget: at most `max_restarts` restarts inside a sliding
/// window of `window_ms` milliseconds; past that the supervisor
/// escalates instead of restarting.
#[derive(Copy, Clone, Debug)]
pub struct RestartPolicy {
    pub max_restarts: u32,
    pub window_ms: u64,
}

impl Default for RestartPolicy {
    /// 3 restarts within 30 s.
    fn default() -> (p: Self)
        ensures
            p.max_restarts == 3,
            p.window_ms == 30_000,
    {
        RestartPolicy { max_restarts: 3, window_ms: 30_000 }
    }
}

/// How long before `now` the instant `t` was (0 for an instant after
/// `now`).
pub open spec fn elapsed(now: u64, t: u64) -> int {
    if now >= t {
        now - t
    } else {
        0
    }
}

/// The crash instants still inside the window at `now`, in order.
pub open spec fn in_window(crashes: Seq<u64>, now: u64, window: u64) -> Seq<u64> {
    crashes.filter(|t: u64| elapsed(now, t) <= window)
}

/// Record a crash at `now` (milliseconds on a monotonic clock): add it
/// to the crash log, drop entries older than the window, and say whether
/// the budget is exhausted (more crashes in the window than allowed
/// restarts), in which case the supervisor escalates.
pub fn record_crash(crashes: &mut Vec<u64>, now: u64, policy: &RestartPolicy) -> (escalate: bool)
    ensures
        final(crashes)@ == in_window(old(crashes)@.push(now), now, policy.window_ms),
        escalate == (final(crashes)@.len() > policy.max_restarts),
{
    let ghost log = crashes@.push(now);
    crashes.push(now);
    let mut kept: Vec<u64> = Vec::new();
    let mut i: usize = 0;
    proof {
        reveal(Seq::filter);
        assert(log.take(0) =~= Seq::<u64>::empty());
        assert(log.take(0).filter(|t: u64| elapsed(now, t) <= policy.window_ms) =~= Seq::<u64>::empty());
    }
    while i < crashes.len()
        invariant
            crashes@ == log,
            i <= log.len(),
            kept@ == log.take(i as int).filter(|t: u64| elapsed(now, t) <= policy.window_ms),
        decreases log.len() - i,
    {
        let t = crashes[i];
        let age: u64 = if now >= t {
            now - t
        } else {
            0
        };
        proof {
            reveal(Seq::filter);
            assert(log.take(i + 1).drop_last() =~= log.take(i as int));
            assert(log.take(i + 1).last() == t);
        }
        if age <= policy.window_ms {
            kept.push(t);
        }
        i = i + 1;
    }
    proof {
        assert(log.take(i as int) =~= log);
    }
    *crashes = kept;
    crashes.len() as u64 > policy.max_restarts as u64
}

/// Replace reserved path-segment characters in a supervisor name with
/// `_`, so escalation messages always carry a valid plugin path.
pub fn sanitize_segment(s: &str) -> (r: String)
    ensures
        r@ == sanitized(s@),
{
    sanitize_plugin_segment(s)
}

/// The plugin path an escalation names: `/plugin/<sanitized name>`, or
/// `/plugin/supervisor` when the name is empty (and so no segment).
pub fn escalation_plugin_path(name: &str) -> (r: String)
    ensures
        r@ == (if name@.len() == 0 {
            "/plugin/supervisor"@
        } else {
            "/plugin/"@ + sanitized(name@)
        }),
{
    if name.unicode_len() == 0 {
        return owned("/plugin/supervisor");
    }
    let mut p = owned("/plugin/");
    let seg = sanitize_segment(name);
    push_str(&mut p, seg.as_str());
    p
}

} // verus!
