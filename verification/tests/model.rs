//! Data-model defaults, asset loading, input checking and the seeded
//! shuffle.
use std::io::Cursor;

use yex::block::{Block, Prelude as BlockPrelude, Relax, State as BlockState};
use yex::runner::{times_are_sorted, KeyEvent, Runner};
use yex::session::{Experiment, Gender, Participant, Sex};
use yex::shuffle::{lehmer_exec, shuffle};
use yex::trial::{
    Advance, ImageAsset, ImageBuf, Prelude, RunError, State, Stimulus, Trial,
};

#[test]
fn default_trial_shape() {
    let t = Trial::default();
    assert_eq!(t.state, State::Init);
    assert_eq!(t.prelude, Prelude::Blank(500));
    assert_eq!(t.stimulus, Stimulus::Blank(500));
    assert_eq!(t.advance, Advance::Wait(500000));
}

#[test]
fn default_block_shape() {
    let b = Block::default();
    assert_eq!(b.trials.len(), 3);
    assert!(!b.random);
    assert_eq!(b.prelude, BlockPrelude::Blank(1000000));
    assert_eq!(b.relax, Relax::Wait(2000000));
    assert_eq!(b.state, BlockState::Init);
    for t in &b.trials {
        assert_eq!(*t, Trial::default());
    }
}

#[test]
fn default_experiment_shape() {
    let e = Experiment::default();
    assert_eq!(e.id, "Stroop");
    assert_eq!(e.instructions, "Say the color of the word!");
    assert_eq!(e.blocks.len(), 2);
    assert!(!e.random);
}

#[test]
fn default_participant_shape() {
    let p = Participant::default();
    assert_eq!(p.id, 0);
    assert_eq!(p.age, 42);
    assert_eq!(p.gender, Gender::Straight(Sex::Male));
    assert_eq!(p.language, isolang::Language::default());
}

#[test]
fn image_stimulus_loads_real_pixels() {
    // A 2x1 RGBA PNG round-trips through the loader: the decoded pixels are
    // the encoded ones, not the raw bytes handed in.
    let img = image::RgbaImage::from_pixel(2, 1, image::Rgba([9, 8, 7, 255]));
    let mut bytes: Vec<u8> = Vec::new();
    img.write_to(&mut Cursor::new(&mut bytes), image::ImageFormat::Png).unwrap();
    let mut s = Stimulus::Image(100, ImageAsset { bytes, pixels: None }, [0, 0, 2, 1]);
    assert!(s.load().is_ok());
    match &s {
        Stimulus::Image(_, asset, _) => {
            let pix: &ImageBuf = asset.pixels.as_ref().unwrap();
            assert_eq!(pix.width, 2);
            assert_eq!(pix.height, 1);
            assert_eq!(pix.data, vec![9, 8, 7, 255, 9, 8, 7, 255]);
        }
        _ => panic!("stimulus changed variant"),
    }
    // loading again is a no-op and still succeeds
    assert!(s.load().is_ok());
}

#[test]
fn undecodable_image_fails_to_load() {
    let mut s = Stimulus::Image(
        100,
        ImageAsset { bytes: vec![0, 1, 2, 3], pixels: None },
        [0, 0, 4, 4],
    );
    let err = s.load().unwrap_err();
    assert!(matches!(err, RunError::AssetUnavailable));
    match &s {
        Stimulus::Image(_, asset, _) => assert!(asset.pixels.is_none()),
        _ => panic!("stimulus changed variant"),
    }
}

#[test]
fn blank_and_text_stimuli_always_load() {
    let mut b = Stimulus::Blank(10);
    assert!(b.load().is_ok());
    let mut t = Stimulus::Text(10, 12, [1, 2, 3]);
    assert!(t.load().is_ok());
}

#[test]
fn sortedness_checker_matches_reality() {
    let sorted = vec![
        KeyEvent { key: 'a', time: 1 },
        KeyEvent { key: 'b', time: 1 },
        KeyEvent { key: 'c', time: 5 },
    ];
    assert!(times_are_sorted(&sorted));
    let unsorted = vec![
        KeyEvent { key: 'a', time: 5 },
        KeyEvent { key: 'b', time: 1 },
    ];
    assert!(!times_are_sorted(&unsorted));
    assert!(times_are_sorted(&Vec::new()));
}

#[test]
fn shuffle_is_deterministic_and_permutes() {
    let v: Vec<u64> = vec![10, 20, 30, 40, 50];
    let a = shuffle(v.clone(), 123);
    let b = shuffle(v.clone(), 123);
    assert_eq!(a, b);
    let mut sorted = a.clone();
    sorted.sort();
    assert_eq!(sorted, v);
    let c = shuffle(v.clone(), 124);
    let mut csorted = c.clone();
    csorted.sort();
    assert_eq!(csorted, v);
}

#[test]
fn lehmer_stream_is_reproducible_and_bounded() {
    let mut s: u64 = 42;
    let mut t: u64 = 42;
    for _ in 0..10 {
        s = lehmer_exec(s);
        t = lehmer_exec(t);
        assert_eq!(s, t);
        assert!(s < 0x7fffffff);
    }
}

#[test]
fn run_error_names() {
    assert_eq!(RunError::AssetUnavailable.describe(), "asset unavailable");
    assert_eq!(RunError::Interrupted.describe(), "interrupted");
    assert_eq!(RunError::PolicyViolation.describe(), "policy violation");
}

#[test]
fn runner_sleep_buffers_input() {
    let mut rt = Runner::new(vec![KeyEvent { key: 'q', time: 3 }], 0);
    rt.sleep(100);
    assert_eq!(rt.now, 100);
    assert_eq!(rt.cursor, 0);
    assert!(rt.log.is_empty());
}
