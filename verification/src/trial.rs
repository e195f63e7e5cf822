//! Trial level: one stimulus-presentation-and-response unit.
use vstd::prelude::*;

use crate::Key;
use crate::output::{YexError, YldEvent};
use crate::runner::{asset_errors, kplog, lemma_asset_errors_add_clean, lemma_asset_errors_push, sat_add, sat_add_exec, scan_keys, Emitted, KeyEvent, Runner, Waited};

verus! {

/// Why a run step could not complete.
#[derive(Clone, Copy, PartialEq, Eq, Debug)]
pub enum RunError {
    /// A stimulus failed to load; the trial is aborted, the block continues.
    AssetUnavailable,
    /// The input channel ended while a wait expected a key; partial results
    /// are flushed and the run ends gracefully.
    Interrupted,
    /// A wait policy has no resolution path (a key wait with an empty key
    /// set); fatal to the enclosing run, surfaced with partial output.
    PolicyViolation,
}

impl RunError {
    /// Readable name of the error.
    pub fn describe(&self) -> (r: &'static str)
        ensures
            *self is AssetUnavailable ==> r@ == "asset unavailable"@,
            *self is Interrupted ==> r@ == "interrupted"@,
            *self is PolicyViolation ==> r@ == "policy violation"@,
    {
        match self {
            RunError::AssetUnavailable => "asset unavailable",
            RunError::Interrupted => "interrupted",
            RunError::PolicyViolation => "policy violation",
        }
    }
}

/// Decoded RGBA8 pixel data.
#[derive(Clone, PartialEq, Eq, Debug)]
pub struct ImageBuf {
    pub width: u32,
    pub height: u32,
    /// Row-major RGBA bytes, 4 per pixel.
    pub data: Vec<u8>,
}

/// An image asset: the encoded bytes it was defined with, and, once loaded,
/// the decoded pixels.
#[derive(Clone, PartialEq, Eq, Debug)]
pub struct ImageAsset {
    pub bytes: Vec<u8>,
    pub pixels: Option<ImageBuf>,
}

/// What is shown during a trial.  Every variant carries its presentation
/// duration in microseconds.
#[derive(Clone, PartialEq, Eq, Debug)]
pub enum Stimulus {
    Blank(u64),
    /// Duration, font size, RGB color.
    Text(u64, i8, [i8; 3]),
    /// Duration, image asset, placement box (x, y, width, height).
    Image(u64, ImageAsset, [usize; 4]),
}

/// Pre-stimulus wait policy of a trial.
#[derive(Clone, PartialEq, Eq, Debug)]
pub enum Prelude {
    Now,
    Blank(u64),
    Fix(u64),
    /// A delay during which a secondary (primed) stimulus is shown; the
    /// primed stimulus is itself loadable and presentable.
    Prime(u64, Stimulus),
}

/// Response-collection policy of a trial.
#[derive(Clone, PartialEq, Eq, Debug)]
pub enum Advance {
    /// No input is solicited; resolve after the duration.
    Wait(u64),
    /// Wait for any key of the set; no timeout, by design.
    Keys(Vec<Key>),
    /// Race the key set against a deadline measured from stimulus onset.
    KeysMaxWait(Vec<Key>, u64),
}

/// The participant's reply, created exactly once per trial.
#[derive(Clone, Copy, PartialEq, Eq, Debug)]
pub enum Response {
    /// Reaction time in microseconds.
    RT(u64),
    RTCorrect(u64, bool),
    Choice(Key),
    /// Graded score in thousandths.
    Graded(u32),
    TooLate,
}

/// Feedback shown after a trial.
#[derive(Clone, Copy, PartialEq, Eq, Debug)]
pub enum Feedback {
    Correct,
    Incorrect,
    ThankYou,
}

/// Trial execution states; transitions are one-directional.
#[derive(Clone, Copy, PartialEq, Eq, Debug)]
pub enum State {
    Init,
    Prelude,
    Present,
    Feedback,
}

/// One stimulus-response unit.
#[derive(Clone, PartialEq, Eq, Debug)]
pub struct Trial {
    pub prelude: Prelude,
    pub stimulus: Stimulus,
    pub advance: Advance,
    pub state: State,
}

/// The immutable record of a completed trial: the trial as executed plus the
/// response given.
#[derive(Clone, PartialEq, Eq, Debug)]
pub struct Observation {
    pub trial: Trial,
    pub response: Response,
}

/// The trial `Trial::default` builds: a 500 microsecond blank prelude and
/// stimulus, resolved by a fixed 500 millisecond wait.
pub open spec fn spec_default_trial() -> Trial {
    Trial {
        state: State::Init,
        prelude: Prelude::Blank(500u64),
        stimulus: Stimulus::Blank(500u64),
        advance: Advance::Wait(500000u64),
    }
}

impl Default for Trial {
    fn default() -> (r: Self)
        ensures
            r == spec_default_trial(),
    {
        Trial {
            state: State::Init,
            prelude: Prelude::Blank(500),
            stimulus: Stimulus::Blank(500),
            advance: Advance::Wait(500000),
        }
    }
}

impl Observation {
    pub fn new(trial: Trial, response: Response) -> (r: Self)
        ensures
            r.trial == trial,
            r.response == response,
    {
        Observation { trial, response }
    }
}


/// Equal pixel buffers, byte for byte.
pub open spec fn buf_like(a: ImageBuf, b: ImageBuf) -> bool {
    b.width == a.width && b.height == a.height && b.data@ == a.data@
}

/// Equal optional pixel buffers, byte for byte.
pub open spec fn pixels_like(a: Option<ImageBuf>, b: Option<ImageBuf>) -> bool {
    match a {
        Some(x) => b matches Some(y) && buf_like(x, y),
        None => b is None,
    }
}

/// Equal image assets, byte for byte.
pub open spec fn asset_like(a: ImageAsset, b: ImageAsset) -> bool {
    a.bytes@ == b.bytes@ && pixels_like(a.pixels, b.pixels)
}

/// Equal stimuli, byte for byte: same variant, same durations and
/// parameters, equal asset contents.
pub open spec fn stim_like(a: Stimulus, b: Stimulus) -> bool {
    match a {
        Stimulus::Blank(d) => b == Stimulus::Blank(d),
        Stimulus::Text(d, sz, col) => b == Stimulus::Text(d, sz, col),
        Stimulus::Image(d, aa, bx) => b matches Stimulus::Image(d2, ab, bx2) && d2 == d && bx2
            == bx && asset_like(aa, ab),
    }
}

/// Equal trial preludes, byte for byte.
pub open spec fn tprelude_like(a: Prelude, b: Prelude) -> bool {
    match a {
        Prelude::Now => b is Now,
        Prelude::Blank(d) => b == Prelude::Blank(d),
        Prelude::Fix(d) => b == Prelude::Fix(d),
        Prelude::Prime(d, s) => b matches Prelude::Prime(d2, s2) && d2 == d && stim_like(s, s2),
    }
}

/// Equal advance policies, byte for byte: same variant, equal durations and
/// key sets.
pub open spec fn advance_like(a: Advance, b: Advance) -> bool {
    match a {
        Advance::Wait(d) => b == Advance::Wait(d),
        Advance::Keys(ks) => b matches Advance::Keys(k2) && k2@ == ks@,
        Advance::KeysMaxWait(ks, d) => b matches Advance::KeysMaxWait(k2, d2) && k2@ == ks@ && d2
            == d,
    }
}

/// Equal trials, byte for byte: what a clone into execution preserves, and
/// everything the engine's outcome depends on.
pub open spec fn trial_like(a: Trial, b: Trial) -> bool {
    &&& b.state == a.state
    &&& tprelude_like(a.prelude, b.prelude)
    &&& stim_like(a.stimulus, b.stimulus)
    &&& advance_like(a.advance, b.advance)
}

/// Copy a byte vector.
pub(crate) fn copy_bytes(v: &Vec<u8>) -> (r: Vec<u8>)
    ensures
        r@ == v@,
{
    let mut r: Vec<u8> = Vec::new();
    let mut i: usize = 0;
    while i < v.len()
        invariant
            i <= v@.len(),
            r@ == v@.take(i as int),
        decreases v@.len() - i,
    {
        r.push(v[i]);
        proof {
            assert(r@ =~= v@.take(i as int + 1));
        }
        i = i + 1;
    }
    proof {
        assert(v@.take(v@.len() as int) =~= v@);
    }
    r
}

/// Copy a key vector.
pub(crate) fn copy_keys(v: &Vec<Key>) -> (r: Vec<Key>)
    ensures
        r@ == v@,
{
    let mut r: Vec<Key> = Vec::new();
    let mut i: usize = 0;
    while i < v.len()
        invariant
            i <= v@.len(),
            r@ == v@.take(i as int),
        decreases v@.len() - i,
    {
        r.push(v[i]);
        proof {
            assert(r@ =~= v@.take(i as int + 1));
        }
        i = i + 1;
    }
    proof {
        assert(v@.take(v@.len() as int) =~= v@);
    }
    r
}

fn copy_buf(b: &ImageBuf) -> (r: ImageBuf)
    ensures
        buf_like(*b, r),
{
    ImageBuf { width: b.width, height: b.height, data: copy_bytes(&b.data) }
}

fn copy_asset(a: &ImageAsset) -> (r: ImageAsset)
    ensures
        asset_like(*a, r),
{
    let pixels = match &a.pixels {
        Some(x) => Some(copy_buf(x)),
        None => None,
    };
    ImageAsset { bytes: copy_bytes(&a.bytes), pixels }
}

fn copy_stim(s: &Stimulus) -> (r: Stimulus)
    ensures
        stim_like(*s, r),
{
    match s {
        Stimulus::Blank(d) => Stimulus::Blank(*d),
        Stimulus::Text(d, sz, col) => Stimulus::Text(*d, *sz, *col),
        Stimulus::Image(d, a, bx) => Stimulus::Image(*d, copy_asset(a), *bx),
    }
}

fn copy_tprelude(p: &Prelude) -> (r: Prelude)
    ensures
        tprelude_like(*p, r),
{
    match p {
        Prelude::Now => Prelude::Now,
        Prelude::Blank(d) => Prelude::Blank(*d),
        Prelude::Fix(d) => Prelude::Fix(*d),
        Prelude::Prime(d, s) => Prelude::Prime(*d, copy_stim(s)),
    }
}

fn copy_advance(a: &Advance) -> (r: Advance)
    ensures
        advance_like(*a, r),
{
    match a {
        Advance::Wait(d) => Advance::Wait(*d),
        Advance::Keys(ks) => Advance::Keys(copy_keys(ks)),
        Advance::KeysMaxWait(ks, d) => Advance::KeysMaxWait(copy_keys(ks), *d),
    }
}

/// Clone a trial into execution: the definition stays where it is, the copy
/// is run, and everything the outcome depends on is preserved.
pub fn copy_trial(t: &Trial) -> (r: Trial)
    ensures
        trial_like(*t, r),
{
    Trial {
        prelude: copy_tprelude(&t.prelude),
        stimulus: copy_stim(&t.stimulus),
        advance: copy_advance(&t.advance),
        state: t.state,
    }
}

/// Like stimuli resolve alike.
pub proof fn lemma_stim_like_loads(a: Stimulus, b: Stimulus)
    requires
        stim_like(a, b),
    ensures
        stim_loads(a) == stim_loads(b),
        stim_loaded(a) == stim_loaded(b),
{
}

/// Like trials run alike: the same script position and time give the same
/// outcome, to the response and the clock.
pub proof fn lemma_spec_trial_like(a: Trial, b: Trial, evs: Seq<KeyEvent>, c: int, now: u64)
    requires
        trial_like(a, b),
    ensures
        trial_loads(a) == trial_loads(b),
        spec_trial(a, evs, c, now) == spec_trial(b, evs, c, now),
{
    lemma_stim_like_loads(a.stimulus, b.stimulus);
    match a.prelude {
        Prelude::Prime(_d, s) => {
            match b.prelude {
                Prelude::Prime(_d2, s2) => {
                    lemma_stim_like_loads(s, s2);
                }
                _ => {}
            }
        }
        _ => {}
    }
}

/// What decoding an in-memory encoded image yields: width, height and RGBA8
/// bytes, or nothing when the bytes are not a decodable image.  The result
/// depends on the bytes alone.
pub uninterp spec fn rgba_decode_of(bytes: Seq<u8>) -> Option<(u32, u32, Seq<u8>)>;

/// Relies on image::load_from_memory and DynamicImage::to_rgba8: decodes an
/// in-memory encoded image into RGBA8 pixels; the outcome is a function of
/// the bytes alone.
#[verifier::external_body]
fn decode_rgba(bytes: &Vec<u8>) -> (r: Option<ImageBuf>)
    ensures
        r matches Some(ib) ==> rgba_decode_of(bytes@) == Some((ib.width, ib.height, ib.data@)),
        r is None <==> rgba_decode_of(bytes@) is None,
{
    match image::load_from_memory(bytes.as_slice()) {
        Ok(img) => {
            let buf = img.to_rgba8();
            let width = buf.width();
            let height = buf.height();
            Some(ImageBuf { width, height, data: buf.into_raw() })
        }
        Err(_) => None,
    }
}

/// A stimulus can be resolved: either it needs no asset, or its pixels are
/// already present, or its bytes decode.
pub open spec fn stim_loads(s: Stimulus) -> bool {
    match s {
        Stimulus::Image(_, a, _) => a.pixels is Some || rgba_decode_of(a.bytes@) is Some,
        _ => true,
    }
}

/// A stimulus has been resolved: no asset needed, or pixels present.
pub open spec fn stim_loaded(s: Stimulus) -> bool {
    match s {
        Stimulus::Image(_, a, _) => a.pixels is Some,
        _ => true,
    }
}

/// The asset gained exactly the pixels its bytes decode to.
pub open spec fn pixels_gained(a1: ImageAsset, a2: ImageAsset) -> bool {
    &&& a1.pixels is None
    &&& a2.pixels matches Some(ib) && (rgba_decode_of(a1.bytes@) matches Some(p) && ib.width
        == p.0 && ib.height == p.1 && ib.data@ == p.2)
}

/// `run` is `orig` after resolving its asset: identical except that an image
/// stimulus may have gained its decoded pixels.
pub open spec fn stim_as_loaded(orig: Stimulus, run: Stimulus) -> bool {
    match orig {
        Stimulus::Image(d1, a1, b1) => match run {
            Stimulus::Image(d2, a2, b2) => d1 == d2 && b1 == b2 && a1.bytes == a2.bytes && (
            a2.pixels == a1.pixels || pixels_gained(a1, a2)),
            _ => false,
        },
        _ => run == orig,
    }
}

impl Stimulus {
    /// Resolve the asset behind this stimulus.  Fails exactly when an image
    /// stimulus holds bytes that do not decode.
    pub fn load(&mut self) -> (r: Result<(), RunError>)
        ensures
            r is Ok <==> stim_loads(*old(self)),
            stim_as_loaded(*old(self), *final(self)),
            r is Ok ==> stim_loaded(*final(self)),
            r is Err ==> *final(self) == *old(self) && r == Err::<(), RunError>(
                RunError::AssetUnavailable,
            ),
    {
        match self {
            Stimulus::Image(_, asset, _) => {
                if asset.pixels.is_some() {
                    return Ok(());
                }
                match decode_rgba(&asset.bytes) {
                    Some(buf) => {
                        asset.pixels = Some(buf);
                        Ok(())
                    }
                    None => Err(RunError::AssetUnavailable),
                }
            }
            _ => Ok(()),
        }
    }
}

/// Wait before the stimulus, in microseconds, under a trial prelude policy.
pub open spec fn prelude_dur(p: Prelude) -> u64 {
    match p {
        Prelude::Now => 0,
        Prelude::Blank(d) => d,
        Prelude::Fix(d) => d,
        Prelude::Prime(d, _) => d,
    }
}

/// Every asset the trial presents (main stimulus and a primed one, if any)
/// can be resolved.
pub open spec fn trial_loads(t: Trial) -> bool {
    stim_loads(t.stimulus) && (t.prelude matches Prelude::Prime(_, s) ==> stim_loads(s))
}

/// The advance policy leaves the wait a way to resolve.
pub open spec fn policy_ok(a: Advance) -> bool {
    match a {
        Advance::Keys(ks) => ks@.len() > 0,
        _ => true,
    }
}

/// The response variant belongs to the family the advance policy can
/// produce: a fixed wait yields a timing-only response, a key wait yields a
/// choice, a race yields a choice or `TooLate`.
pub open spec fn advance_family_matches(a: Advance, r: Response) -> bool {
    match a {
        Advance::Wait(_) => r is RT,
        Advance::Keys(_) => r is Choice,
        Advance::KeysMaxWait(_, _) => r is Choice || r is TooLate,
    }
}

/// `run` carries `orig`'s content after resolving its asset: equal byte for
/// byte except that an image stimulus may have gained its decoded pixels.
pub open spec fn stim_as_loaded_like(orig: Stimulus, run: Stimulus) -> bool {
    match orig {
        Stimulus::Image(d1, a1, b1) => run matches Stimulus::Image(d2, a2, b2) && d1 == d2 && b1
            == b2 && a1.bytes@ == a2.bytes@ && (pixels_like(a1.pixels, a2.pixels)
            || pixels_gained(a1, a2)),
        _ => stim_like(orig, run),
    }
}

/// `run` is `orig` as executed: terminal state, the same policies byte for
/// byte, assets resolved.
pub open spec fn as_run_rel(orig: Trial, run: Trial) -> bool {
    &&& run.state == State::Feedback
    &&& advance_like(orig.advance, run.advance)
    &&& stim_as_loaded_like(orig.stimulus, run.stimulus)
    &&& match orig.prelude {
        Prelude::Prime(d1, s1) => run.prelude matches Prelude::Prime(d2, s2) && d1 == d2
            && stim_as_loaded_like(s1, s2),
        _ => tprelude_like(orig.prelude, run.prelude),
    }
}

/// Running a clone executes the definition: what a run records of the copy
/// it records of the trial the copy was made from, and a response fits the
/// definition's policy family exactly when it fits the copy's.
pub proof fn lemma_as_run_like(def: Trial, copy: Trial, run: Trial)
    requires
        trial_like(def, copy),
        as_run_rel(copy, run),
    ensures
        as_run_rel(def, run),
        forall|rsp: Response| advance_family_matches(def.advance, rsp)
            == advance_family_matches(copy.advance, rsp),
{
}

impl Trial {
    /// Resolve every asset this trial will present.  Fails exactly when one
    /// of them does not load; policies and state are never touched.
    pub fn prepare(&mut self) -> (r: Result<(), RunError>)
        ensures
            r is Ok <==> trial_loads(*old(self)),
            final(self).advance == old(self).advance,
            final(self).state == old(self).state,
            stim_as_loaded(old(self).stimulus, final(self).stimulus),
            r is Ok ==> trial_loaded(*final(self)),
            match old(self).prelude {
                Prelude::Prime(d1, s1) => final(self).prelude matches Prelude::Prime(d2, s2)
                    && d1 == d2 && stim_as_loaded(s1, s2),
                _ => final(self).prelude == old(self).prelude,
            },
            r is Err ==> r == Err::<(), RunError>(RunError::AssetUnavailable),
    {
        let r1 = self.stimulus.load();
        if r1.is_err() {
            return Err(RunError::AssetUnavailable);
        }
        match &mut self.prelude {
            Prelude::Prime(_, s) => {
                let r2 = s.load();
                if r2.is_err() {
                    return Err(RunError::AssetUnavailable);
                }
            }
            _ => {}
        }
        Ok(())
    }
}

/// Every asset the trial presents has been resolved.
pub open spec fn trial_loaded(t: Trial) -> bool {
    stim_loaded(t.stimulus) && (t.prelude matches Prelude::Prime(_, s) ==> stim_loaded(s))
}


/// What one trial resolves to on a given script: the response (when it
/// completes), the script position and logical time it leaves behind, and
/// the error when it does not.  On an error other than an ended script the
/// position and time are left where the trial found them; after an ended
/// script (`Interrupted`) only the position is meaningful.
pub struct TrialOutcome {
    pub response: Option<Response>,
    pub cursor: int,
    pub now: u64,
    pub err: Option<RunError>,
}

/// The outcome of running trial `t` at script position `c` and time `now`:
/// a failed load aborts in place; an empty key set is a policy violation; a
/// fixed wait resolves after its duration; a key wait resolves with the
/// choice the script's scan yields, or interrupts when the script ends; a
/// raced wait resolves with the earlier of key and deadline, `TooLate`
/// exactly when the deadline wins.
pub open spec fn spec_trial(t: Trial, evs: Seq<KeyEvent>, c: int, now: u64) -> TrialOutcome {
    if !trial_loads(t) {
        TrialOutcome { response: None, cursor: c, now, err: Some(RunError::AssetUnavailable) }
    } else if !policy_ok(t.advance) {
        TrialOutcome { response: None, cursor: c, now, err: Some(RunError::PolicyViolation) }
    } else {
        let onset = sat_add(now, prelude_dur(t.prelude));
        match t.advance {
            Advance::Wait(d) => TrialOutcome {
                response: Some(Response::RT(d)),
                cursor: c,
                now: sat_add(onset, d),
                err: None,
            },
            Advance::Keys(ks) => {
                let (w, c2) = scan_keys(evs, c, onset, ks@, None);
                match w {
                    Waited::Matched(k, tm) => TrialOutcome {
                        response: Some(Response::Choice(k)),
                        cursor: c2,
                        now: tm,
                        err: None,
                    },
                    _ => TrialOutcome {
                        response: None,
                        cursor: c2,
                        now: onset,
                        err: Some(RunError::Interrupted),
                    },
                }
            }
            Advance::KeysMaxWait(ks, d) => {
                let dl = sat_add(onset, d);
                let (w, c2) = scan_keys(evs, c, onset, ks@, Some(dl));
                match w {
                    Waited::Matched(k, tm) => TrialOutcome {
                        response: Some(Response::Choice(k)),
                        cursor: c2,
                        now: tm,
                        err: None,
                    },
                    _ => TrialOutcome {
                        response: Some(Response::TooLate),
                        cursor: c2,
                        now: dl,
                        err: None,
                    },
                }
            }
        }
    }
}

/// How many records the prelude emits before the stimulus is presented.
pub open spec fn prelude_log_len(p: Prelude) -> int {
    match p {
        Prelude::Now => 0,
        Prelude::Blank(_) => 0,
        Prelude::Fix(_) => 1,
        Prelude::Prime(_, _) => 1,
    }
}

/// The prelude's record, where it has one: a fixation cross carries its
/// duration, a primed stimulus is presented; both at the moment the prelude
/// begins.
pub open spec fn prelude_log_ok(p: Prelude, log: Seq<Emitted>, at: int, now: u64) -> bool {
    match p {
        Prelude::Now => true,
        Prelude::Blank(_) => true,
        Prelude::Fix(d) => 0 <= at < log.len() && log[at] == (Emitted {
            time: now,
            event: YldEvent::FixCross(d),
        }),
        Prelude::Prime(_, _) => 0 <= at < log.len() && log[at].time == now && (
        log[at].event matches YldEvent::StimPresented(_)),
    }
}

impl Trial {
    /// Run one trial to completion on the timeline, consuming it: load the
    /// assets, apply the prelude, present the stimulus, collect the response
    /// under the advance policy, and package exactly one observation.
    ///
    /// The response is pinned exactly: a fixed wait yields `RT(d)` after `d`
    /// microseconds; a key wait yields the choice the script's race resolves
    /// to (`scan_keys` anchored at stimulus onset); a raced wait yields
    /// `TooLate` exactly when no key of the set is processed strictly before
    /// the deadline, which is then the resolution time.  A failed asset load
    /// aborts the trial with an error event and consumes no input; an ended
    /// input script interrupts it; a key wait with an empty key set is a
    /// policy violation.
    pub fn run(self, rt: &mut Runner) -> (r: Result<Observation, RunError>)
        requires
            old(rt).wf(),
            self.state is Init,
        ensures
            final(rt).wf(),
            final(rt).input == old(rt).input,
            final(rt).now >= old(rt).now,
            old(rt).cursor <= final(rt).cursor,
            old(rt).log@.is_prefix_of(final(rt).log@),
            asset_errors(final(rt).log@) == asset_errors(old(rt).log@) + (
            if r == Err::<Observation, RunError>(RunError::AssetUnavailable) {
                1int
            } else {
                0int
            }),
            ({
                let o = spec_trial(self, old(rt).input@, old(rt).cursor as int, old(rt).now);
                &&& (match r {
                    Ok(obs) => o.err is None && o.response == Some(obs.response),
                    Err(e) => o.err == Some(e),
                })
                &&& final(rt).cursor as int == o.cursor
                &&& (o.err != Some(RunError::Interrupted) ==> final(rt).now == o.now)
            }),
            r == Err::<Observation, RunError>(RunError::AssetUnavailable) <==> !trial_loads(self),
            !trial_loads(self) ==> final(rt).cursor == old(rt).cursor && final(rt).now == old(rt).now && final(rt).log@.len() == old(rt).log@.len() + 1 && (final(rt).log@.last().event matches YldEvent::Error(YexError::FileNotFound(_))),
            trial_loads(self) && !policy_ok(self.advance) ==> r == Err::<Observation, RunError>(
                RunError::PolicyViolation,
            ) && final(rt).cursor == old(rt).cursor && final(rt).now == old(rt).now && final(rt).log@.len() == old(rt).log@.len() + 1 && final(rt).log@.last().event == (
            YldEvent::Error(YexError::PolicyViolation)),
            r matches Ok(obs) ==> as_run_rel(self, obs.trial) && advance_family_matches(
                self.advance,
                obs.response,
            ) && trial_loaded(obs.trial),
            r is Ok ==> ({
                let o = spec_trial(self, old(rt).input@, old(rt).cursor as int, old(rt).now);
                let n0 = old(rt).log@.len() as int;
                let pe = prelude_log_len(self.prelude);
                let onset = sat_add(old(rt).now, prelude_dur(self.prelude));
                &&& final(rt).log@.len() == n0 + pe + 2 + (o.cursor - old(rt).cursor as int)
                &&& prelude_log_ok(self.prelude, final(rt).log@, n0, old(rt).now)
                &&& final(rt).log@[n0 + pe].time == onset
                &&& (final(rt).log@[n0 + pe].event matches YldEvent::StimPresented(_))
                &&& final(rt).log@.subrange(n0 + pe + 1, final(rt).log@.len() - 1) == kplog(
                    old(rt).input@,
                    old(rt).cursor as int,
                    o.cursor,
                    onset,
                )
                &&& (r matches Ok(obs) ==> final(rt).log@.last() == (Emitted {
                    time: final(rt).now,
                    event: YldEvent::Response(obs.response),
                }))
                &&& (r matches Ok(obs) ==> (final(rt).log@[n0 + pe].event matches
                    YldEvent::StimPresented(sp) && stim_like(obs.trial.stimulus, sp)))
                &&& (r matches Ok(obs) ==> (obs.trial.prelude matches Prelude::Prime(_dp, s2)
                    ==> (final(rt).log@[n0].event matches YldEvent::StimPresented(sp2)
                    && stim_like(s2, sp2))))
            }),
    {
        let mut me = self;
        let pr = me.prepare();
        if pr.is_err() {
            let ghost lp = rt.log@;
            rt.emit(YldEvent::Error(YexError::FileNotFound(copy_stim(&me.stimulus))));
            proof {
                lemma_asset_errors_push(lp, rt.log@.last());
            }
            return Err(RunError::AssetUnavailable);
        }
        let policy_bad = match &me.advance {
            Advance::Keys(ks) => ks.len() == 0,
            _ => false,
        };
        if policy_bad {
            let ghost lp = rt.log@;
            rt.emit(YldEvent::Error(YexError::PolicyViolation));
            proof {
                lemma_asset_errors_push(lp, rt.log@.last());
            }
            return Err(RunError::PolicyViolation);
        }
        me.state = State::Prelude;
        match &me.prelude {
            Prelude::Now => {}
            Prelude::Blank(d) => {
                let dd: u64 = *d;
                rt.sleep(dd);
            }
            Prelude::Fix(d) => {
                let dd: u64 = *d;
                let ghost lp = rt.log@;
                rt.emit(YldEvent::FixCross(dd));
                proof {
                    lemma_asset_errors_push(lp, rt.log@.last());
                }
                rt.sleep(dd);
            }
            Prelude::Prime(d, s) => {
                let dd: u64 = *d;
                let sc = copy_stim(s);
                let ghost lp = rt.log@;
                rt.emit(YldEvent::StimPresented(sc));
                proof {
                    lemma_asset_errors_push(lp, rt.log@.last());
                }
                rt.sleep(dd);
            }
        }
        me.state = State::Present;
        let onset: u64 = rt.now;
        let ghost lp = rt.log@;
        rt.emit(YldEvent::StimPresented(copy_stim(&me.stimulus)));
        proof {
            lemma_asset_errors_push(lp, rt.log@.last());
        }
        let resp: Response = match &me.advance {
            Advance::Wait(d) => {
                let dd: u64 = *d;
                rt.sleep(dd);
                Response::RT(dd)
            }
            Advance::Keys(ks) => {
                let ghost lw = rt.log@;
                let ghost cw = rt.cursor as int;
                let ghost nw = rt.now;
                let w = rt.wait_keys(ks, None);
                proof {
                    let seg = kplog(rt.input@, cw, rt.cursor as int, nw);
                    assert(forall|k: int| 0 <= k < seg.len() ==> !crate::runner::is_asset_error(
                        #[trigger] seg[k],
                    ));
                    lemma_asset_errors_add_clean(lw, seg);
                }
                match w {
                    Waited::Matched(k, _t) => Response::Choice(k),
                    Waited::Closed => {
                        return Err(RunError::Interrupted);
                    }
                    Waited::DeadlineHit => {
                        proof {
                            assert(false);
                        }
                        Response::TooLate
                    }
                }
            }
            Advance::KeysMaxWait(ks, d) => {
                let dl = sat_add_exec(onset, *d);
                let ghost lw = rt.log@;
                let ghost cw = rt.cursor as int;
                let ghost nw = rt.now;
                let w = rt.wait_keys(ks, Some(dl));
                proof {
                    let seg = kplog(rt.input@, cw, rt.cursor as int, nw);
                    assert(forall|k: int| 0 <= k < seg.len() ==> !crate::runner::is_asset_error(
                        #[trigger] seg[k],
                    ));
                    lemma_asset_errors_add_clean(lw, seg);
                }
                match w {
                    Waited::Matched(k, _t) => Response::Choice(k),
                    Waited::DeadlineHit => Response::TooLate,
                    Waited::Closed => {
                        proof {
                            assert(false);
                        }
                        Response::TooLate
                    }
                }
            }
        };
        me.state = State::Feedback;
        let ghost lr = rt.log@;
        rt.emit(YldEvent::Response(resp));
        proof {
            lemma_asset_errors_push(lr, rt.log@.last());
        }
        Ok(Observation::new(me, resp))
    }
}

} // verus!
