//! Block level: a grouped phase of trials with a prelude and a relax frame.
use vstd::prelude::*;

use crate::{Key, Text};
use crate::output::{YexError, YldEvent};
use crate::runner::{asset_errors, is_asset_error, kplog, lemma_asset_errors_add_clean, lemma_asset_errors_push, lemma_prefix_trans, sat_add, sat_add_exec, scan_keys, KeyEvent, Runner, Waited};
use crate::shuffle::{lemma_shuffle_elems, lemma_shuffle_like, shuffle, spec_shuffle};
use crate::trial::{
    advance_family_matches, as_run_rel, copy_keys, copy_trial, lemma_as_run_like,
    lemma_spec_trial_like, spec_default_trial, spec_trial, trial_like, trial_loads, Observation,
    Response, RunError, Trial,
};

verus! {

/// Block execution states; transitions are one-directional.
#[derive(Clone, PartialEq, Eq, Debug)]
pub enum State {
    Init,
    Prelude,
    /// Running the trial with this execution index.
    Present(usize),
    Relax,
}

/// Pre-block wait policy.  Durations are in microseconds.
#[derive(Clone, PartialEq, Eq, Debug)]
pub enum Prelude {
    Now,
    Blank(u64),
    /// Instruction text shown for a fixed duration.
    Instruct(u64, Text),
    /// Instruction text shown until a key of the set is pressed.
    InstructKeys(Vec<Key>, Text),
}

/// Post-block wait policy.  Durations are in microseconds.
#[derive(Clone, PartialEq, Eq, Debug)]
pub enum Relax {
    Now,
    Wait(u64),
    Keys(Vec<Key>),
    KeysMaxWait(Vec<Key>, u64),
}

/// A sequence of trials with a prelude and relax frame.
#[derive(Clone, PartialEq, Eq, Debug)]
pub struct Block {
    /// Identity stamp (microseconds since the epoch at creation).
    pub id: u64,
    pub trials: Vec<Trial>,
    /// Shuffle the trial order with a per-run seed.
    pub random: bool,
    pub prelude: Prelude,
    pub relax: Relax,
    pub state: State,
}

/// A block as `Block::default` builds it, up to its identity stamp.
pub open spec fn is_default_block(b: Block) -> bool {
    &&& b.random == false
    &&& b.prelude == Prelude::Blank(1000000u64)
    &&& b.relax == Relax::Wait(2000000u64)
    &&& b.state is Init
    &&& b.trials@.len() == 3
    &&& forall|k: int| 0 <= k < b.trials@.len() ==> #[trigger] b.trials@[k] == spec_default_trial()
}

impl Default for Block {
    fn default() -> (r: Self)
        ensures
            is_default_block(r),
    {
        let t0 = Trial::default();
        let t1 = Trial::default();
        let t2 = Trial::default();
        let mut trials: Vec<Trial> = Vec::new();
        trials.push(t0);
        trials.push(t1);
        trials.push(t2);
        Block {
            id: crate::runner::now_us(),
            trials,
            random: false,
            prelude: Prelude::Blank(1000000),
            relax: Relax::Wait(2000000),
            state: State::Init,
        }
    }
}

/// The order in which a block's trials are actually presented: the defined
/// order, or, with the randomize flag, the order the recorded seed realizes.
pub open spec fn realized_order(trials: Seq<Trial>, random: bool, seed: u64) -> Seq<Trial> {
    if random {
        spec_shuffle(trials, seed)
    } else {
        trials
    }
}

/// The predicate that keeps a trial: its assets resolve.
pub open spec fn loads_pred() -> spec_fn(Trial) -> bool {
    |t: Trial| trial_loads(t)
}

/// The trials of the realized order whose assets resolve: exactly these
/// yield observations, in this order.
pub open spec fn loading(ord: Seq<Trial>) -> Seq<Trial> {
    ord.filter(loads_pred())
}

/// Appending a trial extends the loading subsequence exactly when the
/// trial's assets resolve.
proof fn lemma_loading_push(s: Seq<Trial>, t: Trial)
    ensures
        trial_loads(t) ==> loading(s.push(t)) == loading(s).push(t),
        !trial_loads(t) ==> loading(s.push(t)) == loading(s),
{
    reveal(Seq::filter);
    assert(s.push(t).drop_last() == s) by {
        assert(s.push(t).drop_last() =~= s);
    }
    assert(s.push(t).last() == t);
}

/// The observations correspond, index by index and in order, to a prefix of
/// the loading trials of the realized order: each records its trial as
/// executed, with a response of the family its advance policy allows.
pub open spec fn obs_match(lg: Seq<Trial>, obs: Seq<Observation>) -> bool {
    &&& obs.len() <= lg.len()
    &&& forall|k: int|
        0 <= k < obs.len() ==> as_run_rel(lg[k], (#[trigger] obs[k]).trial)
            && advance_family_matches(lg[k].advance, obs[k].response)
}


/// What a run leaves behind: the responses of the trials that completed, in
/// presentation order, the script position and logical time reached, and the
/// error that ended the run early, if one did.  Position and time are
/// meaningful when `err` is `None`.
pub struct RunModel {
    pub responses: Seq<Response>,
    pub cursor: int,
    pub now: u64,
    pub err: Option<RunError>,
}

/// A gate that waits for a key of `keys` with no deadline: resolves on the
/// first matching key, interrupts when the script ends, and is a policy
/// violation when the set is empty.  Returns position, time and error.
pub open spec fn spec_gate(keys: Seq<crate::Key>, evs: Seq<KeyEvent>, c: int, now: u64) -> (
    int,
    u64,
    Option<RunError>,
) {
    if keys.len() == 0 {
        (c, now, Some(RunError::PolicyViolation))
    } else {
        let (w, c2) = scan_keys(evs, c, now, keys, None);
        match w {
            Waited::Matched(_k, t) => (c2, t, None),
            _ => (c2, now, Some(RunError::Interrupted)),
        }
    }
}

/// How the block prelude resolves: position, time and error after it.
pub open spec fn spec_prelude(p: Prelude, evs: Seq<KeyEvent>, c: int, now: u64) -> (
    int,
    u64,
    Option<RunError>,
) {
    match p {
        Prelude::Now => (c, now, None),
        Prelude::Blank(d) => (c, sat_add(now, d), None),
        Prelude::Instruct(d, _) => (c, sat_add(now, d), None),
        Prelude::InstructKeys(ks, _) => spec_gate(ks@, evs, c, now),
    }
}

/// How the relax phase resolves: position, time and error after it.  The
/// raced variant follows the same discipline as a trial race: the deadline
/// (here relative to the relax start) wins exactly when no key of the set is
/// processed strictly before it, and a late key stays buffered.
pub open spec fn spec_relax(rx: Relax, evs: Seq<KeyEvent>, c: int, now: u64) -> (
    int,
    u64,
    Option<RunError>,
) {
    match rx {
        Relax::Now => (c, now, None),
        Relax::Wait(d) => (c, sat_add(now, d), None),
        Relax::Keys(ks) => spec_gate(ks@, evs, c, now),
        Relax::KeysMaxWait(ks, d) => {
            let dl = sat_add(now, d);
            let (w, c2) = scan_keys(evs, c, now, ks@, Some(dl));
            match w {
                Waited::Matched(_k, t) => (c2, t, None),
                _ => (c2, dl, None),
            }
        }
    }
}

/// Fold the trial engine over a trial sequence: a trial that completes adds
/// its response; one whose asset fails to load is a gap and the fold goes
/// on; an interruption or policy violation stops the fold, keeping the
/// responses collected so far.
pub open spec fn run_trials(ts: Seq<Trial>, evs: Seq<KeyEvent>, c: int, now: u64) -> RunModel
    decreases ts.len(),
{
    if ts.len() == 0 {
        RunModel { responses: Seq::empty(), cursor: c, now, err: None }
    } else {
        let o = spec_trial(ts[0], evs, c, now);
        match o.err {
            Some(e) => {
                if e is AssetUnavailable {
                    run_trials(ts.skip(1), evs, o.cursor, o.now)
                } else {
                    RunModel { responses: Seq::empty(), cursor: o.cursor, now: o.now, err: Some(e) }
                }
            }
            None => {
                let rest = run_trials(ts.skip(1), evs, o.cursor, o.now);
                let resp = match o.response {
                    Some(rp) => rp,
                    None => Response::TooLate,
                };
                RunModel {
                    responses: seq![resp] + rest.responses,
                    cursor: rest.cursor,
                    now: rest.now,
                    err: rest.err,
                }
            }
        }
    }
}

/// The complete block model: the prelude, then the trials of the realized
/// order, then the relax phase, each picking up the script position and time
/// the previous step left.
pub open spec fn spec_block_run(b: Block, seed: u64, evs: Seq<KeyEvent>, c: int, now: u64) -> RunModel {
    let (c1, n1, e1) = spec_prelude(b.prelude, evs, c, now);
    if e1 is Some {
        RunModel { responses: Seq::empty(), cursor: c1, now: n1, err: e1 }
    } else {
        let m = run_trials(realized_order(b.trials@, b.random, seed), evs, c1, n1);
        if m.err is Some {
            m
        } else {
            let (c2, n2, e2) = spec_relax(b.relax, evs, m.cursor, m.now);
            RunModel { responses: m.responses, cursor: c2, now: n2, err: e2 }
        }
    }
}

/// The responses a sequence of observations carries, in order.
pub open spec fn responses_of(obs: Seq<Observation>) -> Seq<Response> {
    obs.map_values(|o: Observation| o.response)
}


/// Equal block preludes, byte for byte.
pub open spec fn bprelude_like(a: Prelude, b: Prelude) -> bool {
    match a {
        Prelude::Now => b is Now,
        Prelude::Blank(d) => b == Prelude::Blank(d),
        Prelude::Instruct(d, t) => b matches Prelude::Instruct(d2, t2) && d2 == d && t2@ == t@,
        Prelude::InstructKeys(ks, t) => b matches Prelude::InstructKeys(k2, t2) && k2@ == ks@
            && t2@ == t@,
    }
}

/// Equal relax policies, byte for byte.
pub open spec fn relax_like(a: Relax, b: Relax) -> bool {
    match a {
        Relax::Now => b is Now,
        Relax::Wait(d) => b == Relax::Wait(d),
        Relax::Keys(ks) => b matches Relax::Keys(k2) && k2@ == ks@,
        Relax::KeysMaxWait(ks, d) => b matches Relax::KeysMaxWait(k2, d2) && k2@ == ks@ && d2
            == d,
    }
}

/// Equal blocks, byte for byte: what a clone into execution preserves, and
/// everything a block run's outcome depends on.
pub open spec fn block_like(a: Block, b: Block) -> bool {
    &&& b.id == a.id
    &&& b.random == a.random
    &&& b.state == a.state
    &&& bprelude_like(a.prelude, b.prelude)
    &&& relax_like(a.relax, b.relax)
    &&& a.trials@.len() == b.trials@.len()
    &&& forall|k: int|
        0 <= k < a.trials@.len() ==> trial_like(a.trials@[k], #[trigger] b.trials@[k])
}

fn copy_text(t: &Text) -> (r: Text)
    ensures
        r@ == t@,
{
    t.as_str().to_owned()
}

fn copy_bprelude(p: &Prelude) -> (r: Prelude)
    ensures
        bprelude_like(*p, r),
{
    match p {
        Prelude::Now => Prelude::Now,
        Prelude::Blank(d) => Prelude::Blank(*d),
        Prelude::Instruct(d, t) => Prelude::Instruct(*d, copy_text(t)),
        Prelude::InstructKeys(ks, t) => Prelude::InstructKeys(copy_keys(ks), copy_text(t)),
    }
}

fn copy_relax(rx: &Relax) -> (r: Relax)
    ensures
        relax_like(*rx, r),
{
    match rx {
        Relax::Now => Relax::Now,
        Relax::Wait(d) => Relax::Wait(*d),
        Relax::Keys(ks) => Relax::Keys(copy_keys(ks)),
        Relax::KeysMaxWait(ks, d) => Relax::KeysMaxWait(copy_keys(ks), *d),
    }
}

/// Clone a block into execution: the definition stays where it is, the copy
/// is run, and everything the outcome depends on is preserved.
pub fn copy_block(b: &Block) -> (r: Block)
    ensures
        block_like(*b, r),
{
    let mut trials: Vec<Trial> = Vec::new();
    let mut i: usize = 0;
    while i < b.trials.len()
        invariant
            i <= b.trials@.len(),
            trials@.len() == i,
            forall|k: int|
                0 <= k < i ==> trial_like(b.trials@[k], #[trigger] trials@[k]),
        decreases b.trials@.len() - i,
    {
        let tr = copy_trial(&b.trials[i]);
        trials.push(tr);
        i = i + 1;
    }
    Block {
        id: b.id,
        trials,
        random: b.random,
        prelude: copy_bprelude(&b.prelude),
        relax: copy_relax(&b.relax),
        state: match &b.state {
            State::Init => State::Init,
            State::Prelude => State::Prelude,
            State::Present(k) => State::Present(*k),
            State::Relax => State::Relax,
        },
    }
}

/// Like trials run alike, fold-wide: element-wise like trial sequences give
/// the same run model at any script position and time.
pub proof fn lemma_run_trials_like(a: Seq<Trial>, b: Seq<Trial>, evs: Seq<KeyEvent>, c: int, now: u64)
    requires
        a.len() == b.len(),
        forall|k: int| 0 <= k < a.len() ==> trial_like(a[k], #[trigger] b[k]),
    ensures
        run_trials(a, evs, c, now) == run_trials(b, evs, c, now),
    decreases a.len(),
{
    if a.len() > 0 {
        lemma_spec_trial_like(a[0], b[0], evs, c, now);
        assert forall|k: int| 0 <= k < a.skip(1).len() implies trial_like(
            a.skip(1)[k],
            #[trigger] b.skip(1)[k],
        ) by {
            assert(a.skip(1)[k] == a[k + 1]);
            assert(b.skip(1)[k] == b[k + 1]);
        }
        let o = spec_trial(a[0], evs, c, now);
        lemma_run_trials_like(a.skip(1), b.skip(1), evs, o.cursor, o.now);
    }
}

/// Like trial sequences have like loading subsequences, of equal length.
pub proof fn lemma_loading_like(a: Seq<Trial>, b: Seq<Trial>)
    requires
        a.len() == b.len(),
        forall|k: int| 0 <= k < a.len() ==> trial_like(a[k], #[trigger] b[k]),
    ensures
        loading(a).len() == loading(b).len(),
        forall|k: int|
            0 <= k < loading(a).len() ==> trial_like(loading(a)[k], #[trigger] loading(b)[k]),
    decreases a.len(),
{
    reveal(Seq::filter);
    if a.len() > 0 {
        assert forall|k: int| 0 <= k < a.drop_last().len() implies trial_like(
            a.drop_last()[k],
            #[trigger] b.drop_last()[k],
        ) by {
            assert(a.drop_last()[k] == a[k]);
            assert(b.drop_last()[k] == b[k]);
        }
        lemma_loading_like(a.drop_last(), b.drop_last());
        lemma_spec_trial_like(a.last(), b.last(), Seq::<KeyEvent>::empty(), 0, 0);
        assert(trial_loads(a.last()) == trial_loads(b.last()));
    }
}

/// Like blocks run alike: the same seed, script position and time give the
/// same block model.
pub proof fn lemma_spec_block_like(
    a: Block,
    b: Block,
    seed: u64,
    evs: Seq<KeyEvent>,
    c: int,
    now: u64,
)
    requires
        block_like(a, b),
    ensures
        spec_block_run(a, seed, evs, c, now) == spec_block_run(b, seed, evs, c, now),
{
    assert(spec_prelude(a.prelude, evs, c, now) == spec_prelude(b.prelude, evs, c, now));
    let (c1, n1, e1) = spec_prelude(a.prelude, evs, c, now);
    if e1 is None {
        let ra = realized_order(a.trials@, a.random, seed);
        let rb = realized_order(b.trials@, b.random, seed);
        if a.random {
            crate::shuffle::lemma_shuffle_len(a.trials@, seed);
            crate::shuffle::lemma_shuffle_len(b.trials@, seed);
            crate::shuffle::lemma_shuffle_like(
                a.trials@,
                b.trials@,
                |x: Trial, y: Trial| trial_like(x, y),
                seed,
            );
        }
        assert(ra.len() == rb.len());
        assert(forall|k: int| 0 <= k < ra.len() ==> trial_like(ra[k], #[trigger] rb[k]));
        lemma_run_trials_like(ra, rb, evs, c1, n1);
        let m = run_trials(ra, evs, c1, n1);
        if m.err is None {
            assert(spec_relax(a.relax, evs, m.cursor, m.now) == spec_relax(
                b.relax,
                evs,
                m.cursor,
                m.now,
            ));
        }
    }
}


/// What a run records of a clone it records of the definitions the clone
/// was made from.
pub proof fn lemma_obs_match_like(a: Seq<Trial>, b: Seq<Trial>, obs: Seq<Observation>)
    requires
        a.len() == b.len(),
        forall|k: int| 0 <= k < a.len() ==> trial_like(a[k], #[trigger] b[k]),
        obs_match(b, obs),
    ensures
        obs_match(a, obs),
{
    assert forall|k: int|
        0 <= k < obs.len() implies as_run_rel(a[k], (#[trigger] obs[k]).trial)
        && advance_family_matches(a[k].advance, obs[k].response) by {
        lemma_as_run_like(a[k], b[k], obs[k].trial);
    }
}

/// Observations recorded against a block clone's realized order correspond
/// to the defining block's realized order under the same seed.
pub proof fn lemma_block_obs_like(def: Block, cpy: Block, seed: u64, obs: Seq<Observation>)
    requires
        block_like(def, cpy),
        obs_match(loading(realized_order(cpy.trials@, cpy.random, seed)), obs),
    ensures
        obs_match(loading(realized_order(def.trials@, def.random, seed)), obs),
        loading(realized_order(def.trials@, def.random, seed)).len() == loading(
            realized_order(cpy.trials@, cpy.random, seed),
        ).len(),
{
    let ra = realized_order(def.trials@, def.random, seed);
    let rb = realized_order(cpy.trials@, cpy.random, seed);
    if def.random {
        crate::shuffle::lemma_shuffle_len(def.trials@, seed);
        crate::shuffle::lemma_shuffle_len(cpy.trials@, seed);
        crate::shuffle::lemma_shuffle_like(
            def.trials@,
            cpy.trials@,
            |x: Trial, y: Trial| trial_like(x, y),
            seed,
        );
    }
    assert(ra.len() == rb.len());
    assert(forall|k: int| 0 <= k < ra.len() ==> trial_like(ra[k], #[trigger] rb[k]));
    lemma_loading_like(ra, rb);
    lemma_obs_match_like(loading(ra), loading(rb), obs);
}

/// A block (with its trials) that has not been run yet.
pub open spec fn block_ready(b: Block) -> bool {
    &&& b.state is Init
    &&& forall|k: int| 0 <= k < b.trials@.len() ==> (#[trigger] b.trials@[k].state) is Init
}

impl Block {
    /// Run one block on the timeline: emit the block-start event (and the
    /// seed, when the order is randomized), apply the prelude, clone each
    /// trial of the realized order into execution and hand the clone to the
    /// trial engine, then apply the relax policy and emit the block-end
    /// marker.
    ///
    /// The outcome is pinned by `spec_block_run` over the block's own trial
    /// definitions: when and only when its fold completes, no error is
    /// returned, and the responses, the script position and the logical
    /// clock are exactly the fold's.  The observations correspond, in
    /// presentation order, to the trials of `realized_order(.., seed)`
    /// whose assets resolve; a trial that fails to load leaves a gap, adds
    /// exactly one asset-error record to the stream, and the block
    /// continues.  An ended input script or an unresolvable wait policy
    /// ends the block early, returning everything collected so far beside
    /// the error — nothing already collected is discarded.
    ///
    /// The definitions are never touched: the trials are cloned into
    /// execution, and of the block itself only the state field advances.
    #[verifier::loop_isolation(false)]
    #[verifier::rlimit(100)]
    pub fn run(&mut self, rt: &mut Runner, index: usize, seed: u64) -> (r: (
        Vec<Observation>,
        Option<RunError>,
    ))
        requires
            old(rt).wf(),
            block_ready(*old(self)),
        ensures
            final(rt).wf(),
            final(rt).input == old(rt).input,
            final(rt).now >= old(rt).now,
            old(rt).cursor <= final(rt).cursor,
            old(rt).log@.is_prefix_of(final(rt).log@),
            final(self).trials == old(self).trials,
            final(self).id == old(self).id,
            final(self).random == old(self).random,
            final(self).prelude == old(self).prelude,
            final(self).relax == old(self).relax,
            final(rt).log@.len() > old(rt).log@.len(),
            final(rt).log@[old(rt).log@.len() as int].event == YldEvent::Block(index),
            old(self).random ==> final(rt).log@.len() >= old(rt).log@.len() + 2
                && final(rt).log@[old(rt).log@.len() as int + 1].event == YldEvent::Seed(seed),
            ({
                let lg = loading(realized_order(old(self).trials@, old(self).random, seed));
                &&& obs_match(lg, r.0@)
                &&& (r.1 is None ==> r.0@.len() == lg.len())
            }),
            ({
                let m = spec_block_run(
                    *old(self),
                    seed,
                    old(rt).input@,
                    old(rt).cursor as int,
                    old(rt).now,
                );
                &&& r.1 == m.err
                &&& responses_of(r.0@) == m.responses
                &&& (m.err is None ==> final(rt).cursor as int == m.cursor && final(rt).now
                    == m.now)
            }),
            r.1 is None ==> asset_errors(final(rt).log@) == asset_errors(old(rt).log@) + (
            realized_order(old(self).trials@, old(self).random, seed).len() - loading(
                realized_order(old(self).trials@, old(self).random, seed),
            ).len()),
            r.1 is None ==> final(self).state is Relax && final(rt).log@.last().event == (
            YldEvent::BlockEnd(index)),
            r.1 matches Some(e) ==> !(e is AssetUnavailable),
    {
        broadcast use crate::runner::lemma_prefix_add;
        broadcast use crate::runner::lemma_prefix_push;

        let ghost log0 = rt.log@;
        let ghost evs = rt.input@;
        let ghost c0 = rt.cursor as int;
        let ghost now0 = rt.now;
        let ghost trials0 = self.trials@;
        let rnd = self.random;
        self.state = State::Prelude;
        let ghost lpa = rt.log@;
        rt.emit(YldEvent::Block(index));
        proof {
            lemma_asset_errors_push(lpa, rt.log@.last());
        }
        if rnd {
            let ghost lpb = rt.log@;
            rt.emit(YldEvent::Seed(seed));
            proof {
                lemma_asset_errors_push(lpb, rt.log@.last());
            }
        }
        let ghost log1 = rt.log@;
        match &self.prelude {
            Prelude::Now => {}
            Prelude::Blank(d) => {
                let dd: u64 = *d;
                rt.sleep(dd);
            }
            Prelude::Instruct(d, _text) => {
                let dd: u64 = *d;
                rt.sleep(dd);
            }
            Prelude::InstructKeys(ks, _text) => {
                if ks.len() == 0 {
                    rt.emit(YldEvent::Error(YexError::PolicyViolation));
                    let empty_out: Vec<Observation> = Vec::new();
                    proof {
                        assert(responses_of(empty_out@) =~= Seq::<Response>::empty());
                    }
                    return (empty_out, Some(RunError::PolicyViolation));
                }
                let ghost lw = rt.log@;
                let ghost cw = rt.cursor as int;
                let ghost nw = rt.now;
                let w = rt.wait_keys(ks, None);
                proof {
                    let seg = kplog(rt.input@, cw, rt.cursor as int, nw);
                    assert(forall|k: int| 0 <= k < seg.len() ==> !is_asset_error(
                        #[trigger] seg[k],
                    ));
                    lemma_asset_errors_add_clean(lw, seg);
                }
                match w {
                    Waited::Matched(_k, _t) => {}
                    Waited::Closed => {
                        let empty_out: Vec<Observation> = Vec::new();
                        proof {
                            assert(responses_of(empty_out@) =~= Seq::<Response>::empty());
                        }
                        return (empty_out, Some(RunError::Interrupted));
                    }
                    Waited::DeadlineHit => {
                        proof {
                            assert(false);
                        }
                    }
                }
            }
        }
        let ghost c1 = rt.cursor as int;
        let ghost n1 = rt.now;
        proof {
            assert(spec_prelude(old(self).prelude, evs, c0, now0) == (
                c1,
                n1,
                Option::<RunError>::None,
            ));
        }
        let mut pool: Vec<Trial> = Vec::new();
        let mut ci: usize = 0;
        while ci < self.trials.len()
            invariant
                ci <= self.trials@.len(),
                pool@.len() == ci,
                forall|k: int|
                    0 <= k < ci ==> trial_like(self.trials@[k], #[trigger] pool@[k]),
            decreases self.trials@.len() - ci,
        {
            let tr = copy_trial(&self.trials[ci]);
            pool.push(tr);
            ci = ci + 1;
        }
        let ghost poolg = pool@;
        let ord: Vec<Trial> = if rnd {
            let o = shuffle(pool, seed);
            proof {
                crate::shuffle::lemma_shuffle_len(trials0, seed);
                crate::shuffle::lemma_shuffle_len(poolg, seed);
                lemma_shuffle_like(trials0, poolg, |x: Trial, y: Trial| trial_like(x, y), seed);
            }
            o
        } else {
            pool
        };
        let ghost ordg = realized_order(trials0, rnd, seed);
        let ghost ordc = ord@;
        proof {
            assert(ordg.len() == ordc.len());
            assert(forall|k: int|
                0 <= k < ordg.len() ==> trial_like(ordg[k], #[trigger] ordc[k]));
            crate::shuffle::lemma_shuffle_elems(trials0, seed);
            assert forall|k: int| 0 <= k < ordg.len() implies (#[trigger] ordg[k].state)
                is Init by {
                assert(ordg.contains(ordg[k]));
                assert(trials0.contains(ordg[k]));
                let i = choose|i: int| 0 <= i < trials0.len() && trials0[i] == ordg[k];
                assert(trials0[i].state is Init);
            }
        }
        let mut rest = ord;
        let total: usize = rest.len();
        let mut out: Vec<Observation> = Vec::new();
        let mut i: usize = 0;
        proof {
            reveal(Seq::filter);
            assert(ordg.take(0) =~= Seq::<Trial>::empty());
            assert(loading(ordg.take(0)) =~= Seq::<Trial>::empty());
            assert(loading(ordg.take(0)).is_prefix_of(loading(ordg)));
            assert(rest@ == ordc.subrange(0, ordc.len() as int));
            assert(responses_of(out@) =~= Seq::<Response>::empty());
            assert(ordg.skip(0) =~= ordg);
            assert(responses_of(out@) + run_trials(ordg, evs, c1, n1).responses =~= run_trials(
                ordg,
                evs,
                c1,
                n1,
            ).responses);
        }
        while rest.len() > 0
            invariant
                rt.wf(),
                rt.input == old(rt).input,
                rt.now >= old(rt).now,
                old(rt).cursor <= rt.cursor,
                log0.is_prefix_of(rt.log@),
                rt.log@.len() >= log1.len(),
                log1.is_prefix_of(rt.log@),
                log1.len() > log0.len(),
                log1[log0.len() as int].event == YldEvent::Block(index),
                rnd ==> log1.len() >= log0.len() + 2 && log1[log0.len() as int + 1].event == (
                YldEvent::Seed(seed)),
                self.trials == old(self).trials,
                self.id == old(self).id,
                self.random == old(self).random,
                self.prelude == old(self).prelude,
                self.relax == old(self).relax,
                i + rest@.len() == ordg.len(),
                i <= ordg.len(),
                ordg.len() == total,
                rest@ == ordc.subrange(i as int, ordc.len() as int),
                out@.len() == loading(ordg.take(i as int)).len(),
                obs_match(loading(ordg.take(i as int)), out@),
                loading(ordg.take(i as int)).is_prefix_of(loading(ordg)),
                asset_errors(rt.log@) == asset_errors(old(rt).log@) + (i - loading(
                    ordg.take(i as int),
                ).len()),
                ({
                    let mfull = run_trials(ordg, evs, c1, n1);
                    let mrest = run_trials(ordg.skip(i as int), evs, rt.cursor as int, rt.now);
                    &&& mfull.err == mrest.err
                    &&& mfull.cursor == mrest.cursor
                    &&& mfull.now == mrest.now
                    &&& mfull.responses == responses_of(out@) + mrest.responses
                }),
            decreases rest@.len(),
        {
            self.state = State::Present(i);
            let t = rest.remove(0);
            let ghost tg = t;
            let ghost cpre = rt.cursor as int;
            let ghost nowpre = rt.now;
            proof {
                assert(tg == ordc[i as int]);
                assert(trial_like(ordg[i as int], tg));
                assert(rest@ =~= ordc.subrange(i as int + 1, ordc.len() as int));
                assert(ordg.skip(i as int)[0] == ordg[i as int]);
                assert(ordg.skip(i as int).skip(1) =~= ordg.skip(i as int + 1));
                lemma_spec_trial_like(ordg[i as int], tg, evs, cpre, nowpre);
            }
            let ghost logpre = rt.log@;
            let rr = t.run(rt);
            proof {
                lemma_prefix_trans(log0, logpre, rt.log@);
                lemma_prefix_trans(log1, logpre, rt.log@);
                assert(ordg.take(i as int + 1) =~= ordg.take(i as int).push(ordg[i as int]));
                reveal(Seq::filter);
                ordg.take(i as int + 1).lemma_filter_monotone(ordg, loads_pred());
            }
            match rr {
                Ok(obs) => {
                    proof {
                        lemma_loading_push(ordg.take(i as int), ordg[i as int]);
                        lemma_as_run_like(ordg[i as int], tg, obs.trial);
                    }
                    out.push(obs);
                    proof {
                        let o = spec_trial(ordg[i as int], evs, cpre, nowpre);
                        assert(run_trials(ordg.skip(i as int), evs, cpre, nowpre)
                            == (RunModel {
                            responses: seq![obs.response] + run_trials(
                                ordg.skip(i as int + 1),
                                evs,
                                o.cursor,
                                o.now,
                            ).responses,
                            cursor: run_trials(
                                ordg.skip(i as int + 1),
                                evs,
                                o.cursor,
                                o.now,
                            ).cursor,
                            now: run_trials(ordg.skip(i as int + 1), evs, o.cursor, o.now).now,
                            err: run_trials(ordg.skip(i as int + 1), evs, o.cursor, o.now).err,
                        }));
                        assert(responses_of(out@) =~= responses_of(out@.drop_last()).push(
                            obs.response,
                        ));
                        assert(responses_of(out@) + run_trials(
                            ordg.skip(i as int + 1),
                            evs,
                            rt.cursor as int,
                            rt.now,
                        ).responses =~= run_trials(ordg, evs, c1, n1).responses);
                    }
                }
                Err(e) => {
                    if matches!(e, RunError::AssetUnavailable) {
                        proof {
                            lemma_loading_push(ordg.take(i as int), ordg[i as int]);
                            assert(run_trials(ordg.skip(i as int), evs, cpre, nowpre)
                                == run_trials(
                                ordg.skip(i as int + 1),
                                evs,
                                rt.cursor as int,
                                rt.now,
                            ));
                        }
                    } else {
                        proof {
                            assert(run_trials(ordg.skip(i as int), evs, cpre, nowpre).err
                                == Some(e));
                            assert(run_trials(ordg, evs, c1, n1).responses == responses_of(
                                out@,
                            )) by {
                                assert(responses_of(out@) + Seq::<Response>::empty()
                                    =~= responses_of(out@));
                            }
                        }
                        let interrupted = matches!(e, RunError::Interrupted);
                        return (
                            out,
                            Some(
                                if interrupted {
                                    RunError::Interrupted
                                } else {
                                    RunError::PolicyViolation
                                },
                            ),
                        );
                    }
                }
            }
            i = i + 1;
        }
        proof {
            assert(ordg.take(i as int) =~= ordg);
            assert(ordg.skip(i as int) =~= Seq::<Trial>::empty());
            assert(run_trials(ordg, evs, c1, n1).responses == responses_of(out@)) by {
                assert(responses_of(out@) + Seq::<Response>::empty() =~= responses_of(out@));
            }
        }
        self.state = State::Relax;
        let ghost c2 = rt.cursor as int;
        let ghost n2 = rt.now;
        match &self.relax {
            Relax::Now => {}
            Relax::Wait(d) => {
                let dd: u64 = *d;
                let ghost lr = rt.log@;
                rt.emit(YldEvent::Relax(dd));
                proof {
                    lemma_asset_errors_push(lr, rt.log@.last());
                }
                rt.sleep(dd);
            }
            Relax::Keys(ks) => {
                if ks.len() == 0 {
                    rt.emit(YldEvent::Error(YexError::PolicyViolation));
                    return (out, Some(RunError::PolicyViolation));
                }
                let ghost lw = rt.log@;
                let ghost cw = rt.cursor as int;
                let ghost nw = rt.now;
                let w = rt.wait_keys(ks, None);
                proof {
                    let seg = kplog(rt.input@, cw, rt.cursor as int, nw);
                    assert(forall|k: int| 0 <= k < seg.len() ==> !is_asset_error(
                        #[trigger] seg[k],
                    ));
                    lemma_asset_errors_add_clean(lw, seg);
                }
                match w {
                    Waited::Matched(_k, _t) => {}
                    Waited::Closed => {
                        return (out, Some(RunError::Interrupted));
                    }
                    Waited::DeadlineHit => {
                        proof {
                            assert(false);
                        }
                    }
                }
            }
            Relax::KeysMaxWait(ks, d) => {
                let now = rt.now;
                let dl = sat_add_exec(now, *d);
                let ghost lw = rt.log@;
                let ghost cw = rt.cursor as int;
                let ghost nw = rt.now;
                let w = rt.wait_keys(ks, Some(dl));
                proof {
                    let seg = kplog(rt.input@, cw, rt.cursor as int, nw);
                    assert(forall|k: int| 0 <= k < seg.len() ==> !is_asset_error(
                        #[trigger] seg[k],
                    ));
                    lemma_asset_errors_add_clean(lw, seg);
                }
                match w {
                    Waited::Matched(_k, _t) => {}
                    Waited::DeadlineHit => {}
                    Waited::Closed => {
                        proof {
                            assert(false);
                        }
                    }
                }
            }
        }
        proof {
            assert(spec_relax(old(self).relax, evs, c2, n2) == (
                rt.cursor as int,
                rt.now,
                Option::<RunError>::None,
            ));
        }
        let ghost le = rt.log@;
        rt.emit(YldEvent::BlockEnd(index));
        proof {
            lemma_asset_errors_push(le, rt.log@.last());
        }
        (out, None)
    }
}

} // verus!
