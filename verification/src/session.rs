//! Session level: one participant's full encounter with an experiment.
use vstd::prelude::*;

use crate::Text;
use crate::block::{
    block_like, block_ready, copy_block, lemma_block_obs_like, lemma_spec_block_like, loading,
    obs_match, realized_order, responses_of, spec_block_run, Block,
};
use crate::output::{YexError, YldEvent};
use crate::runner::{KeyEvent, Runner};
use crate::shuffle::{lehmer, spec_shuffle};
use crate::trial::{Observation, Response, RunError};

verus! {

#[verifier::external_type_specification]
#[verifier::external_body]
pub struct ExLanguage(isolang::Language);

/// Relies on isolang's derived Clone (Language is a fieldless-variant Copy
/// enum): the clone equals the original.
pub assume_specification[ <isolang::Language as Clone>::clone ](
    l: &isolang::Language,
) -> (r: isolang::Language)
    ensures
        r == *l,
;

/// Relies on isolang's Default impl; it returns the fixed "undetermined"
/// language, of which nothing further is needed here.
pub assume_specification[ <isolang::Language as Default>::default ]() -> isolang::Language;

#[derive(Clone, Copy, PartialEq, Eq, Structural, Debug)]
pub enum Sex {
    Male,
    Female,
}

#[derive(Clone, Copy, PartialEq, Eq, Structural, Debug)]
pub enum Gender {
    Straight(Sex),
    Gay(Sex),
    Bi(Sex),
    Asexual(Sex),
}

/// Demographic record; created once at session start, immutable thereafter.
#[derive(Clone, PartialEq, Debug)]
pub struct Participant {
    pub id: usize,
    pub age: i8,
    pub gender: Gender,
    pub language: isolang::Language,
}

impl Default for Participant {
    fn default() -> (r: Self)
        ensures
            r.id == 0,
            r.age == 42,
            r.gender == Gender::Straight(Sex::Male),
    {
        Participant {
            id: 0,
            age: 42,
            gender: Gender::Straight(Sex::Male),
            language: isolang::Language::default(),
        }
    }
}

/// Static experiment definition: an ordered set of blocks plus instructions.
/// Never mutated by a run; blocks are cloned into execution.
#[derive(Clone, PartialEq, Debug)]
pub struct Experiment {
    pub id: String,
    pub blocks: Vec<Block>,
    pub instructions: Text,
    pub random: bool,
}

impl Default for Experiment {
    fn default() -> (r: Self)
        ensures
            r.id@ == "Stroop"@,
            r.instructions@ == "Say the color of the word!"@,
            r.random == false,
            r.blocks@.len() == 2,
            forall|k: int|
                0 <= k < r.blocks@.len() ==> crate::block::is_default_block(#[trigger] r.blocks@[k]),
    {
        let b0 = Block::default();
        let b1 = Block::default();
        let mut blocks: Vec<Block> = Vec::new();
        blocks.push(b0);
        blocks.push(b1);
        Experiment {
            id: "Stroop".to_owned(),
            blocks,
            instructions: "Say the color of the word!".to_owned(),
            random: false,
        }
    }
}

/// Session lifecycle states; the run moves through them one way only.
#[derive(PartialEq, Debug)]
pub enum State {
    Init,
    Welcome,
    Consent,
    Demographics,
    /// A block is being executed.
    Blocks(Block),
    Goodbye,
}

/// One participant's full encounter: who, what, and where the run stands.
#[derive(PartialEq, Debug)]
pub struct Session {
    /// Identity stamp (microseconds since the epoch at creation).
    pub id: u64,
    pub part: Participant,
    pub exp: Experiment,
    pub state: State,
}


/// The order in which the experiment's blocks are actually run: the defined
/// order, or, with the randomize flag, the order the session seed realizes.
pub open spec fn realized_blocks(bs: Seq<Block>, random: bool, seed: u64) -> Seq<Block> {
    if random {
        spec_shuffle(bs, seed)
    } else {
        bs
    }
}

/// The pseudo-random stream after `k` steps from `s`: block `k` (counting
/// from zero) runs with the seed `lehmer_iter(seed, k + 1)`.
pub open spec fn lehmer_iter(s: u64, k: int) -> u64
    decreases k,
{
    if k <= 0 {
        s
    } else {
        lehmer(lehmer_iter(s, k - 1))
    }
}

/// What a session's block phase leaves behind: one response sequence per
/// executed block, in execution order, the script position and logical time
/// reached, and the error that ended the run early, if one did.
pub struct SessModel {
    pub records: Seq<Seq<Response>>,
    pub cursor: int,
    pub now: u64,
    pub err: Option<RunError>,
}

/// Fold the block engine over the realized block order, drawing one seed per
/// block from the stream: a failing block still contributes its partial
/// record (nothing collected is discarded), then the fold stops.
pub open spec fn spec_session_blocks(
    bs: Seq<Block>,
    evs: Seq<KeyEvent>,
    c: int,
    now: u64,
    st: u64,
) -> SessModel
    decreases bs.len(),
{
    if bs.len() == 0 {
        SessModel { records: Seq::empty(), cursor: c, now, err: None }
    } else {
        let st1 = lehmer(st);
        let m = spec_block_run(bs[0], st1, evs, c, now);
        match m.err {
            Some(e) => SessModel {
                records: seq![m.responses],
                cursor: m.cursor,
                now: m.now,
                err: Some(e),
            },
            None => {
                let rest = spec_session_blocks(bs.skip(1), evs, m.cursor, m.now, st1);
                SessModel {
                    records: seq![m.responses] + rest.records,
                    cursor: rest.cursor,
                    now: rest.now,
                    err: rest.err,
                }
            }
        }
    }
}

impl Session {
    pub fn new(exp: Experiment, part: Participant) -> (r: Self)
        ensures
            r.part == part,
            r.exp == exp,
            r.state is Init,
    {
        Session { id: crate::runner::now_us(), part, exp, state: State::Init }
    }

    /// Every block of the experiment (and every trial in them) is still
    /// unrun.
    pub open spec fn ready(self) -> bool {
        &&& self.state is Init
        &&& forall|k: int|
            0 <= k < self.exp.blocks@.len() ==> block_ready(#[trigger] self.exp.blocks@[k])
    }

    /// Drive the session from start to `Goodbye`: emit the lifecycle events
    /// (welcome, consent, demographics, and the session seed when the block
    /// order is randomized), clone each block of the realized order into
    /// execution and run the clone with a per-block seed drawn from the
    /// session seed, then emit the goodbye.  Returns one observation
    /// sequence per executed block, in execution order, and whether the
    /// session ran to completion.
    ///
    /// The outcome is pinned by `spec_session_blocks` over the experiment's
    /// own block definitions: the run completes exactly when that fold
    /// does, each entry of the record carries the responses the fold
    /// assigns to its block, and each entry's observations correspond to
    /// the loading trials of that block's realized order.  An interruption
    /// (the input script ending inside a wait) or a policy violation ends
    /// the run early, but the partial record — the failing block's partial
    /// observations included — is still returned, and the session still
    /// reaches `Goodbye`: never an undefined state.
    ///
    /// The participant and the experiment are never mutated: blocks are
    /// cloned into execution, and only the session state advances.
    #[verifier::loop_isolation(false)]
    #[verifier::rlimit(100)]
    pub fn run(&mut self, rt: &mut Runner, seed: u64) -> (r: (Vec<Vec<Observation>>, bool))
        requires
            old(rt).wf(),
            old(self).ready(),
        ensures
            final(rt).wf(),
            final(rt).input == old(rt).input,
            final(rt).now >= old(rt).now,
            old(rt).cursor <= final(rt).cursor,
            old(rt).log@.is_prefix_of(final(rt).log@),
            final(self).state is Goodbye,
            final(self).part == old(self).part,
            final(self).exp == old(self).exp,
            final(rt).log@.len() > old(rt).log@.len(),
            final(rt).log@[old(rt).log@.len() as int].event == YldEvent::Welcome,
            old(self).exp.random ==> final(rt).log@.len() > old(rt).log@.len() + 3 && final(rt).log@[old(rt).log@.len() as int + 3].event == YldEvent::Seed(seed),
            final(rt).log@.last().event == YldEvent::Goodbye,
            r.0@.len() <= old(self).exp.blocks@.len(),
            r.1 ==> r.0@.len() == old(self).exp.blocks@.len(),
            ({
                let bs = realized_blocks(old(self).exp.blocks@, old(self).exp.random, seed);
                let sm = spec_session_blocks(
                    bs,
                    old(rt).input@,
                    old(rt).cursor as int,
                    old(rt).now,
                    seed,
                );
                &&& r.1 == (sm.err is None)
                &&& r.0@.len() == sm.records.len()
                &&& forall|k: int|
                    0 <= k < r.0@.len() ==> responses_of((#[trigger] r.0@[k])@) == sm.records[k]
                &&& (sm.err is None ==> final(rt).cursor as int == sm.cursor && final(rt).now
                    == sm.now)
                &&& forall|k: int|
                    0 <= k < r.0@.len() ==> obs_match(
                        loading(
                            realized_order(
                                bs[k].trials@,
                                bs[k].random,
                                lehmer_iter(seed, k + 1),
                            ),
                        ),
                        (#[trigger] r.0@[k])@,
                    )
            }),
    {
        broadcast use crate::runner::lemma_prefix_add;
        broadcast use crate::runner::lemma_prefix_push;

        let ghost log0 = rt.log@;
        let ghost evs = rt.input@;
        let ghost c0 = rt.cursor as int;
        let ghost now0 = rt.now;
        let random = self.exp.random;
        self.state = State::Welcome;
        rt.emit(YldEvent::Welcome);
        self.state = State::Consent;
        rt.emit(YldEvent::Consent);
        self.state = State::Demographics;
        rt.emit(YldEvent::Demographics);
        if random {
            rt.emit(YldEvent::Seed(seed));
        }
        let ghost blocks0 = self.exp.blocks@;
        let mut pool: Vec<Block> = Vec::new();
        let mut ci: usize = 0;
        while ci < self.exp.blocks.len()
            invariant
                ci <= self.exp.blocks@.len(),
                pool@.len() == ci,
                forall|k: int|
                    0 <= k < ci ==> block_like(self.exp.blocks@[k], #[trigger] pool@[k]),
            decreases self.exp.blocks@.len() - ci,
        {
            let b = copy_block(&self.exp.blocks[ci]);
            pool.push(b);
            ci = ci + 1;
        }
        let ghost poolg = pool@;
        let ord: Vec<Block> = if random {
            let o = crate::shuffle::shuffle(pool, seed);
            proof {
                crate::shuffle::lemma_shuffle_len(blocks0, seed);
                crate::shuffle::lemma_shuffle_len(poolg, seed);
                crate::shuffle::lemma_shuffle_like(
                    blocks0,
                    poolg,
                    |x: Block, y: Block| block_like(x, y),
                    seed,
                );
            }
            o
        } else {
            pool
        };
        let ghost bsg = realized_blocks(blocks0, random, seed);
        let ghost ordc = ord@;
        proof {
            assert(bsg.len() == ordc.len());
            assert(forall|k: int|
                0 <= k < bsg.len() ==> block_like(bsg[k], #[trigger] ordc[k]));
            crate::shuffle::lemma_shuffle_elems(blocks0, seed);
            assert forall|k: int| 0 <= k < bsg.len() implies block_ready(
                #[trigger] bsg[k],
            ) by {
                assert(bsg.contains(bsg[k]));
                assert(blocks0.contains(bsg[k]));
                let i = choose|i: int| 0 <= i < blocks0.len() && blocks0[i] == bsg[k];
                assert(block_ready(blocks0[i]));
            }
            assert forall|k: int| 0 <= k < ordc.len() implies block_ready(
                #[trigger] ordc[k],
            ) by {
                assert(block_like(bsg[k], ordc[k]));
            }
        }
        let total: usize = ord.len();
        let ghost log1 = rt.log@;
        let mut rest = ord;
        let mut out: Vec<Vec<Observation>> = Vec::new();
        let mut idx: usize = 0;
        let mut st: u64 = seed;
        proof {
            assert(bsg.skip(0) =~= bsg);
            assert(rest@ == ordc.subrange(0, ordc.len() as int));
            assert(out@.map_values(|v: Vec<Observation>| responses_of(v@)) =~= Seq::<
                Seq<Response>,
            >::empty());
            assert(out@.map_values(|v: Vec<Observation>| responses_of(v@))
                + spec_session_blocks(bsg, evs, c0, now0, seed).records =~= spec_session_blocks(
                bsg,
                evs,
                c0,
                now0,
                seed,
            ).records);
        }
        while rest.len() > 0
            invariant
                rt.wf(),
                rt.input == old(rt).input,
                rt.now >= old(rt).now,
                old(rt).cursor <= rt.cursor,
                log0.is_prefix_of(rt.log@),
                log1.is_prefix_of(rt.log@),
                log1.len() > log0.len(),
                log1[log0.len() as int].event == YldEvent::Welcome,
                random ==> log1.len() > log0.len() + 3 && log1[log0.len() as int + 3].event == (
                YldEvent::Seed(seed)),
                self.part == old(self).part,
                self.exp == old(self).exp,
                idx + rest@.len() == bsg.len(),
                bsg.len() == total,
                bsg.len() == blocks0.len(),
                rest@ == ordc.subrange(idx as int, ordc.len() as int),
                out@.len() == idx,
                st == lehmer_iter(seed, idx as int),
                ({
                    let smfull = spec_session_blocks(bsg, evs, c0, now0, seed);
                    let smrest = spec_session_blocks(
                        bsg.skip(idx as int),
                        evs,
                        rt.cursor as int,
                        rt.now,
                        st,
                    );
                    &&& smfull.err == smrest.err
                    &&& smfull.cursor == smrest.cursor
                    &&& smfull.now == smrest.now
                    &&& smfull.records == out@.map_values(
                        |v: Vec<Observation>| responses_of(v@),
                    ) + smrest.records
                }),
                forall|k: int|
                    0 <= k < out@.len() ==> responses_of((#[trigger] out@[k])@)
                        == spec_session_blocks(bsg, evs, c0, now0, seed).records[k],
                forall|k: int|
                    0 <= k < out@.len() ==> obs_match(
                        loading(
                            realized_order(
                                bsg[k].trials@,
                                bsg[k].random,
                                lehmer_iter(seed, k + 1),
                            ),
                        ),
                        (#[trigger] out@[k])@,
                    ),
            decreases rest@.len(),
        {
            let ghost logpre = rt.log@;
            let ghost cpre = rt.cursor as int;
            let ghost nowpre = rt.now;
            let mut b = rest.remove(0);
            let ghost bg = b;
            st = crate::shuffle::lehmer_exec(st);
            proof {
                assert(bg == ordc[idx as int]);
                assert(block_like(bsg[idx as int], bg));
                assert(rest@ =~= ordc.subrange(idx as int + 1, ordc.len() as int));
                assert(bsg.skip(idx as int)[0] == bsg[idx as int]);
                assert(bsg.skip(idx as int).skip(1) =~= bsg.skip(idx as int + 1));
                assert(st == lehmer_iter(seed, idx as int + 1));
                lemma_spec_block_like(bsg[idx as int], bg, st, evs, cpre, nowpre);
            }
            let (obs, err) = b.run(rt, idx, st);
            self.state = State::Blocks(b);
            out.push(obs);
            proof {
                crate::runner::lemma_prefix_trans(log0, logpre, rt.log@);
                crate::runner::lemma_prefix_trans(log1, logpre, rt.log@);
                let m = spec_block_run(bsg[idx as int], st, evs, cpre, nowpre);
                assert(responses_of(obs@) == m.responses);
                lemma_block_obs_like(bsg[idx as int], bg, st, obs@);
                assert(out@.map_values(|v: Vec<Observation>| responses_of(v@))
                    =~= out@.drop_last().map_values(|v: Vec<Observation>| responses_of(v@)).push(
                    responses_of(obs@),
                ));
            }
            match err {
                None => {}
                Some(_e) => {
                    proof {
                        let smfull = spec_session_blocks(bsg, evs, c0, now0, seed);
                        assert(smfull.records =~= out@.map_values(
                            |v: Vec<Observation>| responses_of(v@),
                        ));
                    }
                    if matches!(err, Some(RunError::Interrupted)) {
                        let part = self.part.clone();
                        rt.emit(YldEvent::Error(YexError::PartInterrupt(part)));
                    }
                    self.state = State::Goodbye;
                    rt.emit(YldEvent::Goodbye);
                    return (out, false);
                }
            }
            idx = idx + 1;
        }
        proof {
            let smfull = spec_session_blocks(bsg, evs, c0, now0, seed);
            assert(bsg.skip(idx as int) =~= Seq::<Block>::empty());
            assert(smfull.records =~= out@.map_values(|v: Vec<Observation>| responses_of(v@)));
        }
        self.state = State::Goodbye;
        rt.emit(YldEvent::Goodbye);
        (out, true)
    }
}

} // verus!
