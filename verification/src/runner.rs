//! The virtual timeline: a time-sorted script of key events, a logical
//! clock, and the emitted, timestamped event log.
//!
//! Waits never lose input: events that arrive during a non-input phase stay
//! buffered at the cursor, and an event that narrowly loses a race against a
//! deadline is left for the next wait step.
use vstd::prelude::*;

use crate::Key;
use crate::output::YldEvent;

verus! {

/// A keypress with its arrival timestamp (microseconds).
#[derive(Clone, Copy, PartialEq, Eq, Structural, Debug)]
pub struct KeyEvent {
    pub key: Key,
    pub time: u64,
}

/// One emitted record: an event and the logical time it was emitted.
#[derive(Clone, PartialEq, Debug)]
pub struct Emitted {
    pub time: u64,
    pub event: YldEvent,
}

/// `a + b`, saturating at the top of `u64`.
pub open spec fn sat_add(a: u64, b: u64) -> u64 {
    if a + b > u64::MAX {
        u64::MAX
    } else {
        (a + b) as u64
    }
}

/// Executable form of `sat_add`.
pub fn sat_add_exec(a: u64, b: u64) -> (r: u64)
    ensures
        r == sat_add(a, b),
{
    if b > u64::MAX - a {
        u64::MAX
    } else {
        a + b
    }
}

/// The logical time at which an event with arrival timestamp `t` is
/// processed by a wait live at time `now`: a buffered (earlier) event is
/// handled when the wait begins, a future one when it arrives.
pub open spec fn pt(now: u64, t: u64) -> u64 {
    if t > now {
        t
    } else {
        now
    }
}

/// Arrival timestamps never decrease along the script.
pub open spec fn times_sorted(evs: Seq<KeyEvent>) -> bool {
    forall|i: int, j: int| 0 <= i <= j < evs.len() ==> evs[i].time <= evs[j].time
}

/// Emission timestamps never decrease along the log.
pub open spec fn log_sorted(log: Seq<Emitted>) -> bool {
    forall|i: int, j: int| 0 <= i <= j < log.len() ==> log[i].time <= log[j].time
}

/// Outcome of a key wait.
#[derive(Clone, Copy, PartialEq, Eq, Structural, Debug)]
pub enum Waited {
    /// A key of the set won, at the given processing time.
    Matched(Key, u64),
    /// The deadline won.
    DeadlineHit,
    /// The input script ended while waiting without a deadline.
    Closed,
}

/// What a key wait resolves to, and the script position it leaves behind.
/// The wait starts at position `i` at time `now0`, accepts the keys of
/// `keys`, and optionally races the absolute deadline `dl`.  Events are
/// consumed in order: a non-matching event is consumed (and logged by the
/// runner), a matching one wins if it is processed strictly before the
/// deadline, and the deadline wins as soon as an event would be processed at
/// or after it, leaving that event and all later ones for the next wait.
/// Assumes a time-sorted script.
pub open spec fn scan_keys(
    evs: Seq<KeyEvent>,
    i: int,
    now0: u64,
    keys: Seq<Key>,
    dl: Option<u64>,
) -> (Waited, int)
    decreases evs.len() - i,
{
    if i < 0 || i >= evs.len() {
        match dl {
            Some(_) => (Waited::DeadlineHit, i),
            None => (Waited::Closed, i),
        }
    } else {
        let t = pt(now0, evs[i].time);
        if dl matches Some(d) && t >= d {
            (Waited::DeadlineHit, i)
        } else if keys.contains(evs[i].key) {
            (Waited::Matched(evs[i].key, t), i + 1)
        } else {
            scan_keys(evs, i + 1, now0, keys, dl)
        }
    }
}

/// The key-press records appended while consuming script positions `i..j`
/// of a wait that began at time `now0`.
pub open spec fn kplog(evs: Seq<KeyEvent>, i: int, j: int, now0: u64) -> Seq<Emitted> {
    Seq::new(
        if j >= i {
            (j - i) as nat
        } else {
            0
        },
        |k: int| Emitted { time: pt(now0, evs[i + k].time), event: YldEvent::KeyPress(evs[i + k].key) },
    )
}

/// Relies on std::time::SystemTime::now: microseconds since the UNIX epoch,
/// used only as an identity stamp; nothing is promised of the value.
#[verifier::external_body]
pub(crate) fn now_us() -> u64 {
    match std::time::SystemTime::now().duration_since(std::time::UNIX_EPOCH) {
        Ok(d) => d.as_micros() as u64,
        Err(_) => 0,
    }
}

/// `k` occurs in `keys`.
pub fn key_in(keys: &Vec<Key>, k: Key) -> (b: bool)
    ensures
        b == keys@.contains(k),
{
    let mut i: usize = 0;
    while i < keys.len()
        invariant
            i <= keys@.len(),
            forall|j: int| 0 <= j < i ==> keys@[j] != k,
        decreases keys@.len() - i,
    {
        if keys[i] == k {
            return true;
        }
        i = i + 1;
    }
    false
}

/// Checks that a script is time-sorted, so an unverified caller can
/// establish `times_sorted` before building a runner.
pub fn times_are_sorted(input: &Vec<KeyEvent>) -> (b: bool)
    ensures
        b == times_sorted(input@),
{
    let mut i: usize = 1;
    while i < input.len()
        invariant
            1 <= i,
            i <= input@.len() || input@.len() == 0,
            forall|p: int, q: int| 0 <= p <= q < i && q < input@.len() ==> input@[p].time
                <= input@[q].time,
        decreases input@.len() - i,
    {
        if input[i - 1].time > input[i].time {
            return false;
        }
        assert forall|p: int, q: int|
            0 <= p <= q < i + 1 && q < input@.len() implies input@[p].time <= input@[q].time by {
            if q == i && p < i {
                assert(input@[p].time <= input@[i - 1].time);
            }
        }
        i = i + 1;
    }
    true
}

/// Appending to a log keeps the original as a prefix.
pub broadcast proof fn lemma_prefix_add(a: Seq<Emitted>, b: Seq<Emitted>)
    ensures
        a.is_prefix_of(#[trigger] (a + b)),
{
    assert(a =~= (a + b).subrange(0, a.len() as int));
}

/// Pushing onto a log keeps the original as a prefix.
pub broadcast proof fn lemma_prefix_push(a: Seq<Emitted>, x: Emitted)
    ensures
        a.is_prefix_of(#[trigger] a.push(x)),
{
    assert(a =~= a.push(x).subrange(0, a.len() as int));
}


/// An asset-failure record: the error event a trial emits when its stimulus
/// cannot be resolved.
pub open spec fn is_asset_error(e: Emitted) -> bool {
    e.event matches YldEvent::Error(crate::output::YexError::FileNotFound(_))
}

/// The predicate that keeps an asset-failure record.
pub open spec fn asset_error_pred() -> spec_fn(Emitted) -> bool {
    |e: Emitted| is_asset_error(e)
}

/// How many asset-failure records a log holds.
pub open spec fn asset_errors(log: Seq<Emitted>) -> int {
    log.filter(asset_error_pred()).len() as int
}

/// Appending one record raises the asset-failure count exactly when the
/// record is one.
pub proof fn lemma_asset_errors_push(log: Seq<Emitted>, e: Emitted)
    ensures
        asset_errors(log.push(e)) == asset_errors(log) + (if is_asset_error(e) {
            1int
        } else {
            0int
        }),
{
    reveal(Seq::filter);
    assert(log.push(e).drop_last() == log) by {
        assert(log.push(e).drop_last() =~= log);
    }
    assert(log.push(e).last() == e);
}

/// Appending records that are no asset failures keeps the count.
pub proof fn lemma_asset_errors_add_clean(a: Seq<Emitted>, b: Seq<Emitted>)
    requires
        forall|k: int| 0 <= k < b.len() ==> !is_asset_error(#[trigger] b[k]),
    ensures
        asset_errors(a + b) == asset_errors(a),
{
    Seq::filter_distributes_over_add(a, b, asset_error_pred());
    assert(b.all(|x: Emitted| !(asset_error_pred())(x)));
    b.lemma_all_neg_filter_empty(asset_error_pred());
}

/// Prefixes chain: a log that extends an extension extends the original.
pub proof fn lemma_prefix_trans(a: Seq<Emitted>, b: Seq<Emitted>, c: Seq<Emitted>)
    requires
        a.is_prefix_of(b),
        b.is_prefix_of(c),
    ensures
        a.is_prefix_of(c),
{
    assert(a =~= c.subrange(0, a.len() as int));
}

/// The virtual timeline a run unfolds on.
pub struct Runner {
    /// The input channel's events, time-sorted.
    pub input: Vec<KeyEvent>,
    /// First script position not yet consumed; earlier events were claimed
    /// by past waits, later ones stay buffered.
    pub cursor: usize,
    /// The logical clock, microseconds.
    pub now: u64,
    /// Everything emitted so far, in emission order.
    pub log: Vec<Emitted>,
}

impl Runner {
    /// Well-formed timeline: the cursor is inside the script, the script is
    /// time-sorted, and the log is emitted in non-decreasing time, never
    /// ahead of the clock.
    pub open spec fn wf(self) -> bool {
        &&& self.cursor <= self.input@.len()
        &&& times_sorted(self.input@)
        &&& log_sorted(self.log@)
        &&& forall|k: int| 0 <= k < self.log@.len() ==> #[trigger] self.log@[k].time <= self.now
    }

    /// A fresh timeline over a time-sorted script, starting at `start`.
    pub fn new(input: Vec<KeyEvent>, start: u64) -> (r: Runner)
        requires
            times_sorted(input@),
        ensures
            r.wf(),
            r.input == input,
            r.cursor == 0,
            r.now == start,
            r.log@.len() == 0,
    {
        Runner { input, cursor: 0, now: start, log: Vec::new() }
    }

    /// Emit one event at the current logical time.
    pub fn emit(&mut self, e: YldEvent)
        requires
            old(self).wf(),
        ensures
            final(self).wf(),
            final(self).input == old(self).input,
            final(self).cursor == old(self).cursor,
            final(self).now == old(self).now,
            final(self).log@ == old(self).log@.push(
                Emitted { time: old(self).now, event: e },
            ),
    {
        let t = self.now;
        self.log.push(Emitted { time: t, event: e });
    }

    /// Suspend for `d` microseconds: the clock advances, no input is
    /// consumed (events arriving meanwhile stay buffered).
    pub fn sleep(&mut self, d: u64)
        requires
            old(self).wf(),
        ensures
            final(self).wf(),
            final(self).input == old(self).input,
            final(self).cursor == old(self).cursor,
            final(self).log@ == old(self).log@,
            final(self).now == sat_add(old(self).now, d),
    {
        self.now = sat_add_exec(self.now, d);
    }

    /// Wait for any key of `keys`.  With `Some(d)` the wait races the script
    /// against the absolute deadline `d`; the loser is discarded without a
    /// trace (a deadline that lost cannot fire later, a key that lost stays
    /// buffered for the next wait).  Without a deadline the wait consumes
    /// the script until a key matches or the script (the input channel)
    /// ends.  Every consumed event is logged as a key press at its
    /// processing time.
    #[verifier::loop_isolation(false)]
    pub fn wait_keys(&mut self, keys: &Vec<Key>, deadline: Option<u64>) -> (r: Waited)
        requires
            old(self).wf(),
            deadline matches Some(d) ==> d >= old(self).now,
        ensures
            final(self).wf(),
            final(self).input == old(self).input,
            final(self).now >= old(self).now,
            old(self).cursor <= final(self).cursor,
            (r, final(self).cursor as int) == scan_keys(
                old(self).input@,
                old(self).cursor as int,
                old(self).now,
                keys@,
                deadline,
            ),
            final(self).log@ == old(self).log@ + kplog(
                old(self).input@,
                old(self).cursor as int,
                final(self).cursor as int,
                old(self).now,
            ),
            r matches Waited::Matched(k, t) ==> keys@.contains(k) && final(self).now == t && (
            deadline matches Some(d) ==> t < d),
            r is DeadlineHit ==> (deadline matches Some(d) && final(self).now == d),
            r is Closed ==> deadline is None && final(self).cursor == old(self).input@.len(),
    {
        let ghost evs = self.input@;
        let ghost i0 = self.cursor as int;
        let ghost now0 = self.now;
        loop
            invariant
                self.input == old(self).input,
                self.input@ == evs,
                i0 <= self.cursor as int <= evs.len(),
                self.cursor as int == i0 ==> self.now == now0,
                self.cursor as int > i0 ==> self.now == pt(now0, evs[self.cursor as int - 1].time),
                self.now >= now0,
                deadline matches Some(d) ==> self.now <= d,
                self.log@ == old(self).log@ + kplog(evs, i0, self.cursor as int, now0),
                log_sorted(self.log@),
                forall|k: int| 0 <= k < self.log@.len() ==> #[trigger] self.log@[k].time
                    <= self.now,
                scan_keys(evs, i0, now0, keys@, deadline) == scan_keys(
                    evs,
                    self.cursor as int,
                    now0,
                    keys@,
                    deadline,
                ),
            decreases evs.len() - self.cursor,
        {
            if self.cursor == self.input.len() {
                match deadline {
                    Some(d) => {
                        self.now = d;
                        return Waited::DeadlineHit;
                    }
                    None => {
                        return Waited::Closed;
                    }
                }
            }
            let ev = self.input[self.cursor];
            let t = if ev.time > self.now {
                ev.time
            } else {
                self.now
            };
            proof {
                assert(t == pt(now0, ev.time));
            }
            match deadline {
                Some(d) => {
                    if t >= d {
                        self.now = d;
                        return Waited::DeadlineHit;
                    }
                }
                None => {}
            }
            let matched = key_in(keys, ev.key);
            self.cursor = self.cursor + 1;
            self.now = t;
            self.log.push(Emitted { time: t, event: YldEvent::KeyPress(ev.key) });
            proof {
                assert(kplog(evs, i0, self.cursor as int, now0) =~= kplog(
                    evs,
                    i0,
                    self.cursor as int - 1,
                    now0,
                ).push(Emitted { time: t, event: YldEvent::KeyPress(ev.key) }));
                assert(self.log@ =~= old(self).log@ + kplog(evs, i0, self.cursor as int, now0));
            }
            if matched {
                return Waited::Matched(ev.key, t);
            }
        }
    }
}

} // verus!
