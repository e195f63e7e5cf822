//! Engine-wide laws, stated and proved once over the specification model
//! that the engines' contracts are written in.
use vstd::prelude::*;

use crate::block::realized_order;
use crate::runner::{log_sorted, pt, scan_keys, times_sorted, KeyEvent, Runner, Waited};
use crate::trial::Trial;
use crate::Key;

verus! {

/// Race idempotence, key side: when some key of the set is processed
/// strictly before the deadline, the race resolves to a key choice — never
/// to the deadline, so no late resolution can also be recorded for the same
/// wait.
pub proof fn lemma_race_key_wins(
    evs: Seq<KeyEvent>,
    i: int,
    now0: u64,
    keys: Seq<Key>,
    d: u64,
    j: int,
)
    requires
        times_sorted(evs),
        0 <= i <= j < evs.len(),
        keys.contains(evs[j].key),
        pt(now0, evs[j].time) < d,
    ensures
        scan_keys(evs, i, now0, keys, Some(d)).0 matches Waited::Matched(k, t) && keys.contains(k)
            && t < d,
    decreases j - i,
{
    let t = pt(now0, evs[i].time);
    assert(evs[i].time <= evs[j].time);
    assert(t < d);
    if keys.contains(evs[i].key) {
    } else {
        assert(i < j);
        lemma_race_key_wins(evs, i + 1, now0, keys, d, j);
    }
}

/// Race idempotence, deadline side: when no key of the set is processed
/// strictly before the deadline, the race resolves exactly to the deadline,
/// and every matching key event stays at or after the final cursor — a late
/// key is attributed to the next wait step, not lost and not attributed to
/// this one.
pub proof fn lemma_race_deadline(evs: Seq<KeyEvent>, i: int, now0: u64, keys: Seq<Key>, d: u64)
    requires
        times_sorted(evs),
        0 <= i,
        forall|j: int|
            i <= j < evs.len() && keys.contains((#[trigger] evs[j]).key) ==> pt(now0, evs[j].time)
                >= d,
    ensures
        scan_keys(evs, i, now0, keys, Some(d)).0 is DeadlineHit,
        forall|j: int|
            i <= j < evs.len() && keys.contains((#[trigger] evs[j]).key) ==> scan_keys(
                evs,
                i,
                now0,
                keys,
                Some(d),
            ).1 <= j,
    decreases evs.len() - i,
{
    if i < evs.len() {
        let t = pt(now0, evs[i].time);
        if t >= d {
        } else {
            assert(!keys.contains(evs[i].key));
            lemma_race_deadline(evs, i + 1, now0, keys, d);
        }
    }
}

/// Timestamp monotonicity: on any well-formed timeline — and every engine
/// entry point both requires and re-establishes well-formedness — the
/// emitted event stream's timestamps are non-decreasing.
pub proof fn lemma_timeline_monotone(r: Runner)
    requires
        r.wf(),
    ensures
        log_sorted(r.log@),
{
}

/// Randomization determinism: the same trials with the same randomize flag
/// and the same stored seed realize the same presentation order, run after
/// run.
pub proof fn lemma_randomization_determinism(
    t1: Seq<Trial>,
    r1: bool,
    t2: Seq<Trial>,
    r2: bool,
    seed: u64,
)
    requires
        t1 == t2,
        r1 == r2,
    ensures
        realized_order(t1, r1, seed) == realized_order(t2, r2, seed),
{
}

} // verus!
