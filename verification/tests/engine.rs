//! End-to-end scenarios for the trial, block and session engines on the
//! virtual timeline.
use yex::block::{Block, Prelude as BlockPrelude, Relax, State as BlockState};
use yex::output::{YexError, YldEvent};
use yex::runner::{KeyEvent, Runner};
use yex::session::{Experiment, Participant, Session};
use yex::trial::{Advance, ImageAsset, Prelude, Response, RunError, State, Stimulus, Trial};

fn key(key: char, time: u64) -> KeyEvent {
    KeyEvent { key, time }
}

fn quick_trial(advance: Advance) -> Trial {
    Trial { prelude: Prelude::Now, stimulus: Stimulus::Blank(100), advance, state: State::Init }
}

fn bare_block(trials: Vec<Trial>) -> Block {
    Block {
        id: 0,
        trials,
        random: false,
        prelude: BlockPrelude::Now,
        relax: Relax::Now,
        state: BlockState::Init,
    }
}

#[test]
fn fixed_wait_trial_resolves_with_rt() {
    let mut rt = Runner::new(Vec::new(), 0);
    let t = Trial::default();
    let obs = t.run(&mut rt).unwrap();
    assert_eq!(obs.response, Response::RT(500000));
    assert_eq!(obs.trial.state, State::Feedback);
    // prelude 500 us + advance 500000 us
    assert_eq!(rt.now, 500500);
}

#[test]
fn block_of_fixed_waits_times_and_counts() {
    // Prelude Blank(1000 ms), three default trials with Advance Wait(500 ms),
    // Relax Wait(2000 ms): exactly 3 timing-only observations of 500 ms, and
    // the block's elapsed wall time follows from the configured durations.
    let mut rt = Runner::new(Vec::new(), 0);
    let mut b = Block::default();
    let (obs, err) = b.run(&mut rt, 0, 7);
    assert!(err.is_none());
    assert_eq!(obs.len(), 3);
    for o in &obs {
        assert_eq!(o.response, Response::RT(500000));
    }
    assert_eq!(rt.now, 1000000 + 3 * (500 + 500000) + 2000000);
    assert!(matches!(rt.log[0].event, YldEvent::Block(0)));
    assert!(matches!(rt.log.last().unwrap().event, YldEvent::BlockEnd(0)));
    assert_eq!(b.state, BlockState::Relax);
    let responses: Vec<&YldEvent> = rt
        .log
        .iter()
        .map(|e| &e.event)
        .filter(|e| matches!(e, YldEvent::Response(_)))
        .collect();
    assert_eq!(responses.len(), 3);
}

#[test]
fn race_key_before_deadline_wins_and_cancels_timeout() {
    // KeysMaxWait(['y'], 500 ms) with 'y' arriving at +200 ms: choice('y')
    // at 200 ms, the deadline never fires, no TooLate, one resolution.
    let mut rt = Runner::new(vec![key('y', 200000)], 0);
    let t = quick_trial(Advance::KeysMaxWait(vec!['y'], 500000));
    let obs = t.run(&mut rt).unwrap();
    assert_eq!(obs.response, Response::Choice('y'));
    assert_eq!(rt.now, 200000);
    let toolate = rt
        .log
        .iter()
        .filter(|e| matches!(e.event, YldEvent::Response(Response::TooLate)))
        .count();
    assert_eq!(toolate, 0);
    assert!(rt.log.iter().any(|e| matches!(e.event, YldEvent::KeyPress('y'))));
}

#[test]
fn race_deadline_wins_and_late_key_feeds_next_wait() {
    // The key arrives after the deadline: this trial resolves exactly
    // TooLate, and the key is attributed to the next wait, not lost.
    let mut rt = Runner::new(vec![key('y', 200000)], 0);
    let first = quick_trial(Advance::KeysMaxWait(vec!['y'], 100000));
    let obs1 = first.run(&mut rt).unwrap();
    assert_eq!(obs1.response, Response::TooLate);
    assert_eq!(rt.now, 100000);
    assert_eq!(rt.cursor, 0);
    let second = quick_trial(Advance::Keys(vec!['y']));
    let obs2 = second.run(&mut rt).unwrap();
    assert_eq!(obs2.response, Response::Choice('y'));
    assert_eq!(rt.now, 200000);
    assert_eq!(rt.cursor, 1);
}

#[test]
fn key_exactly_at_deadline_is_too_late() {
    let mut rt = Runner::new(vec![key('y', 100000)], 0);
    let t = quick_trial(Advance::KeysMaxWait(vec!['y'], 100000));
    let obs = t.run(&mut rt).unwrap();
    assert_eq!(obs.response, Response::TooLate);
    // the event stays buffered for the next wait step
    assert_eq!(rt.cursor, 0);
}

#[test]
fn buffered_premature_key_is_not_lost() {
    // A key pressed during the prelude (before onset) stays buffered and is
    // claimed by the key wait, processed at the moment the wait begins.
    let mut rt = Runner::new(vec![key('a', 0)], 0);
    let t = Trial {
        prelude: Prelude::Blank(1000),
        stimulus: Stimulus::Blank(100),
        advance: Advance::Keys(vec!['a']),
        state: State::Init,
    };
    let obs = t.run(&mut rt).unwrap();
    assert_eq!(obs.response, Response::Choice('a'));
    assert_eq!(rt.now, 1000);
}

#[test]
fn non_matching_keys_are_consumed_and_logged() {
    let mut rt = Runner::new(vec![key('x', 10), key('y', 20)], 0);
    let t = quick_trial(Advance::Keys(vec!['y']));
    let obs = t.run(&mut rt).unwrap();
    assert_eq!(obs.response, Response::Choice('y'));
    assert_eq!(rt.cursor, 2);
    assert!(rt.log.iter().any(|e| matches!(e.event, YldEvent::KeyPress('x'))));
}

#[test]
fn empty_key_set_is_a_policy_violation() {
    let mut rt = Runner::new(Vec::new(), 0);
    let t = quick_trial(Advance::Keys(Vec::new()));
    let err = t.run(&mut rt).unwrap_err();
    assert!(matches!(err, RunError::PolicyViolation));
    assert!(matches!(
        rt.log.last().unwrap().event,
        YldEvent::Error(YexError::PolicyViolation)
    ));
}

#[test]
fn closed_input_interrupts_key_wait() {
    let mut rt = Runner::new(Vec::new(), 0);
    let t = quick_trial(Advance::Keys(vec!['z']));
    let err = t.run(&mut rt).unwrap_err();
    assert!(matches!(err, RunError::Interrupted));
}

#[test]
fn failing_asset_leaves_gap_and_error_event() {
    // Three trials, the middle one an image whose bytes do not decode:
    // exactly one fewer observation than trials, an error event recorded,
    // and the block runs on.
    let bad = Trial {
        prelude: Prelude::Now,
        stimulus: Stimulus::Image(
            100,
            ImageAsset { bytes: vec![1, 2, 3], pixels: None },
            [0, 0, 4, 4],
        ),
        advance: Advance::Wait(100),
        state: State::Init,
    };
    let trials = vec![
        quick_trial(Advance::Wait(100)),
        bad,
        quick_trial(Advance::Wait(100)),
    ];
    let mut rt = Runner::new(Vec::new(), 0);
    let mut b = bare_block(trials);
    let (obs, err) = b.run(&mut rt, 0, 1);
    assert!(err.is_none());
    assert_eq!(obs.len(), 2);
    let asset_errors = rt
        .log
        .iter()
        .filter(|e| matches!(e.event, YldEvent::Error(YexError::FileNotFound(_))))
        .count();
    assert_eq!(asset_errors, 1);
}

#[test]
fn every_failing_asset_is_recorded_once() {
    let bad = |d: u64| Trial {
        prelude: Prelude::Now,
        stimulus: Stimulus::Image(
            d,
            ImageAsset { bytes: vec![7, 7, 7], pixels: None },
            [0, 0, 1, 1],
        ),
        advance: Advance::Wait(d),
        state: State::Init,
    };
    let trials = vec![bad(10), quick_trial(Advance::Wait(100)), bad(20)];
    let mut rt = Runner::new(Vec::new(), 0);
    let mut b = bare_block(trials);
    let (obs, err) = b.run(&mut rt, 0, 5);
    assert!(err.is_none());
    assert_eq!(obs.len(), 1);
    let asset_errors = rt
        .log
        .iter()
        .filter(|e| matches!(e.event, YldEvent::Error(YexError::FileNotFound(_))))
        .count();
    assert_eq!(asset_errors, 2);
}

#[test]
fn definitions_survive_a_block_run() {
    // The trials are cloned into execution: after a completed run the
    // block's definition is unchanged but for its state.
    let mut rt = Runner::new(Vec::new(), 0);
    let mut b = Block::default();
    let before = b.trials.clone();
    let (obs, err) = b.run(&mut rt, 0, 3);
    assert!(err.is_none());
    assert_eq!(obs.len(), 3);
    assert_eq!(b.trials, before);
    assert_eq!(b.state, BlockState::Relax);
    for t in &b.trials {
        assert_eq!(t.state, State::Init);
    }
}

#[test]
fn definitions_survive_a_session_run() {
    // The experiment and participant are never mutated by the run.
    let exp = Experiment::default();
    let exp_before = exp.clone();
    let part = Participant::default();
    let part_before = part.clone();
    let mut s = Session::new(exp, part);
    let mut rt = Runner::new(Vec::new(), 0);
    let (record, completed) = s.run(&mut rt, 11);
    assert!(completed);
    assert_eq!(record.len(), 2);
    assert_eq!(s.exp, exp_before);
    assert_eq!(s.part, part_before);
}

#[test]
fn random_session_records_its_seed() {
    // The seed that realizes the block order is recorded on the stream
    // before the first block, so the realized order can be reconstructed.
    let mut exp = Experiment::default();
    exp.random = true;
    let mut s = Session::new(exp, Participant::default());
    let mut rt = Runner::new(Vec::new(), 0);
    let (record, completed) = s.run(&mut rt, 77);
    assert!(completed);
    assert_eq!(record.len(), 2);
    assert!(matches!(rt.log[3].event, YldEvent::Seed(77)));
    let block_starts = rt
        .log
        .iter()
        .position(|e| matches!(e.event, YldEvent::Block(_)))
        .unwrap();
    assert!(block_starts > 3);
}

#[test]
fn same_seed_realizes_same_order() {
    // Running the same randomized block twice with the same stored seed
    // yields the same realized trial order both times.
    let mk = || {
        let mut b = bare_block(vec![
            quick_trial(Advance::Wait(1)),
            quick_trial(Advance::Wait(2)),
            quick_trial(Advance::Wait(3)),
            quick_trial(Advance::Wait(4)),
        ]);
        b.random = true;
        b
    };
    let order = |seed: u64| {
        let mut rt = Runner::new(Vec::new(), 0);
        let (obs, err) = mk().run(&mut rt, 0, seed);
        assert!(err.is_none());
        assert!(rt.log.iter().any(|e| matches!(e.event, YldEvent::Seed(s) if s == seed)));
        obs.iter()
            .map(|o| match o.trial.advance {
                Advance::Wait(d) => d,
                _ => 0,
            })
            .collect::<Vec<u64>>()
    };
    let a = order(42);
    let b = order(42);
    assert_eq!(a, b);
    assert_eq!(a.len(), 4);
    let mut sorted = a.clone();
    sorted.sort();
    assert_eq!(sorted, vec![1, 2, 3, 4]);
    // another seed is allowed to (and here does) realize another order
    let c = order(7);
    let mut csorted = c.clone();
    csorted.sort();
    assert_eq!(csorted, vec![1, 2, 3, 4]);
}

#[test]
fn instruct_keys_gates_the_block() {
    let mut b = bare_block(vec![quick_trial(Advance::Wait(100))]);
    b.prelude = BlockPrelude::InstructKeys(vec!['g'], "press g to start".to_owned());
    let mut rt = Runner::new(vec![key('g', 50)], 0);
    let (obs, err) = b.run(&mut rt, 3, 0);
    assert!(err.is_none());
    assert_eq!(obs.len(), 1);
    assert!(rt.log.iter().any(|e| matches!(e.event, YldEvent::KeyPress('g'))));
}

#[test]
fn relax_race_resolves_by_deadline_without_input() {
    let mut b = bare_block(vec![quick_trial(Advance::Wait(100))]);
    b.relax = Relax::KeysMaxWait(vec!['k'], 1000);
    let mut rt = Runner::new(Vec::new(), 0);
    let (obs, err) = b.run(&mut rt, 0, 0);
    assert!(err.is_none());
    assert_eq!(obs.len(), 1);
    assert_eq!(rt.now, 100 + 1000);
}

#[test]
fn session_runs_to_goodbye_with_monotone_timestamps() {
    // A full default session: every event timestamp on the emitted stream is
    // non-decreasing, the stream starts with Welcome and ends with Goodbye.
    let exp = Experiment::default();
    let mut s = Session::new(exp, Participant::default());
    let mut rt = Runner::new(Vec::new(), 0);
    let (record, completed) = s.run(&mut rt, 99);
    assert!(completed);
    assert_eq!(record.len(), 2);
    for obs in &record {
        assert_eq!(obs.len(), 3);
    }
    assert!(matches!(rt.log.first().unwrap().event, YldEvent::Welcome));
    assert!(matches!(rt.log.last().unwrap().event, YldEvent::Goodbye));
    for w in rt.log.windows(2) {
        assert!(w[0].time <= w[1].time);
    }
}

#[test]
fn interrupted_session_flushes_partials_and_reaches_goodbye() {
    let blocking = bare_block(vec![quick_trial(Advance::Keys(vec!['x']))]);
    let second = bare_block(vec![quick_trial(Advance::Wait(100))]);
    let exp = Experiment {
        id: "interrupt".to_owned(),
        blocks: vec![blocking, second],
        instructions: "".to_owned(),
        random: false,
    };
    let mut s = Session::new(exp, Participant::default());
    let mut rt = Runner::new(Vec::new(), 0);
    let (record, completed) = s.run(&mut rt, 1);
    assert!(!completed);
    assert_eq!(record.len(), 1);
    assert_eq!(record[0].len(), 0);
    assert!(rt
        .log
        .iter()
        .any(|e| matches!(e.event, YldEvent::Error(YexError::PartInterrupt(_)))));
    assert!(matches!(rt.log.last().unwrap().event, YldEvent::Goodbye));
}

#[test]
fn primed_prelude_presents_the_primed_stimulus() {
    let t = Trial {
        prelude: Prelude::Prime(300, Stimulus::Blank(300)),
        stimulus: Stimulus::Blank(100),
        advance: Advance::Wait(100),
        state: State::Init,
    };
    let mut rt = Runner::new(Vec::new(), 0);
    let obs = t.run(&mut rt).unwrap();
    assert_eq!(obs.response, Response::RT(100));
    assert_eq!(rt.now, 400);
    let presented = rt
        .log
        .iter()
        .filter(|e| matches!(e.event, YldEvent::StimPresented(_)))
        .count();
    assert_eq!(presented, 2);
}

#[test]
fn fix_cross_prelude_emits_event() {
    let t = Trial {
        prelude: Prelude::Fix(250),
        stimulus: Stimulus::Blank(100),
        advance: Advance::Wait(100),
        state: State::Init,
    };
    let mut rt = Runner::new(Vec::new(), 0);
    let _obs = t.run(&mut rt).unwrap();
    assert!(rt.log.iter().any(|e| matches!(e.event, YldEvent::FixCross(250))));
}
