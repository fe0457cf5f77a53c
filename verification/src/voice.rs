use vstd::prelude::*;

use std::sync::Arc;
use std::sync::atomic::AtomicBool;
use std::sync::atomic::Ordering;

verus! {

/// Output sample rate of every voice, in samples per second.
pub const SAMPLE_RATE: u32 = 44_100;

/// Length of the release fade of a held note, in samples (0.15 s at 44.1 kHz).
pub const RELEASE_FADE_SAMPLES: u64 = 6615;

/// What a voice contributes at one sample: the sample's index since the note
/// began, and how many samples of the release fade have already elapsed
/// (0 while the key is still held). The level of the sample is
/// `1 - fade_elapsed / RELEASE_FADE_SAMPLES` of full scale.
#[derive(Clone, Copy, PartialEq, Eq, Debug)]
pub struct VoiceFrame {
    pub t: u64,
    pub fade_elapsed: u64,
}

/// The abstract state of a held-note voice.
pub struct VoiceModel {
    pub midi: u8,
    pub t: u64,
    pub released_at: Option<u64>,
    /// The flag whose setting asks the voice to fade out.
    pub release_flag: Arc<AtomicBool>,
}

/// A note that sounds while its key is held and fades out linearly over
/// `RELEASE_FADE_SAMPLES` samples once its release flag has been seen.
pub struct SustainSource {
    midi: u8,
    t: u64,
    release_flag: Arc<AtomicBool>,
    released_at: Option<u64>,
}

/// Samples of the fade that have elapsed at sample `t` for a release seen at `r0`.
pub open spec fn fade_elapsed(t: u64, r0: u64) -> int {
    if t >= r0 {
        t - r0
    } else {
        0
    }
}

/// Whether a voice in state `m` has finished its release fade.
pub open spec fn fade_done(m: VoiceModel) -> bool {
    m.released_at matches Some(r0) && fade_elapsed(m.t, r0) >= RELEASE_FADE_SAMPLES
}

/// One sample of a voice: `release_requested` is the state of the release flag,
/// consulted only while no release has been seen yet. Returns the next state and
/// the frame produced, `None` once the fade is over (the state then stays put).
pub open spec fn step_model(m: VoiceModel, release_requested: bool) -> (VoiceModel, Option<VoiceFrame>) {
    match m.released_at {
        Some(r0) => {
            if fade_elapsed(m.t, r0) >= RELEASE_FADE_SAMPLES {
                (m, None)
            } else {
                (
                    VoiceModel { t: (m.t + 1) as u64, ..m },
                    Some(VoiceFrame { t: m.t, fade_elapsed: fade_elapsed(m.t, r0) as u64 }),
                )
            }
        },
        None => (
            VoiceModel {
                t: (m.t + 1) as u64,
                released_at: if release_requested { Some(m.t) } else { None },
                ..m
            },
            Some(VoiceFrame { t: m.t, fade_elapsed: 0 }),
        ),
    }
}

impl SustainSource {
    /// The voice's abstract state.
    pub closed spec fn model(&self) -> VoiceModel {
        VoiceModel {
            midi: self.midi,
            t: self.t,
            released_at: self.released_at,
            release_flag: self.release_flag,
        }
    }

    /// A voice for note `midi` at its first sample, not yet released, that
    /// starts its fade once `release_flag` is set.
    pub fn new(midi: u8, release_flag: Arc<AtomicBool>) -> (s: Self)
        ensures
            s.model() == (VoiceModel { midi, t: 0, released_at: None, release_flag }),
    {
        SustainSource { midi, t: 0, release_flag, released_at: None }
    }

    /// The note this voice plays.
    pub fn midi(&self) -> (m: u8)
        ensures
            m == self.model().midi,
    {
        self.midi
    }

    /// Whether the voice can take another sample: its sample counter has room
    /// to advance, or its fade is over (then it stays put).
    pub fn can_step(&self) -> (ok: bool)
        ensures
            ok == (self.model().t < u64::MAX || fade_done(self.model())),
    {
        if self.t < u64::MAX {
            return true;
        }
        match self.released_at {
            Some(r0) => self.t.saturating_sub(r0) >= RELEASE_FADE_SAMPLES,
            None => false,
        }
    }

    /// Advances the voice by one sample, given the current state of the release
    /// flag. Returns `None` once the release fade has run its course.
    pub fn step(&mut self, release_requested: bool) -> (frame: Option<VoiceFrame>)
        requires
            old(self).model().t < u64::MAX || fade_done(old(self).model()),
        ensures
            (final(self).model(), frame) == step_model(old(self).model(), release_requested),
    {
        match self.released_at {
            Some(r0) => {
                let elapsed = self.t.saturating_sub(r0);
                if elapsed >= RELEASE_FADE_SAMPLES {
                    return None;
                }
                let t = self.t;
                self.t = t + 1;
                Some(VoiceFrame { t, fade_elapsed: elapsed })
            },
            None => {
                let t = self.t;
                if release_requested {
                    self.released_at = Some(t);
                }
                self.t = t + 1;
                Some(VoiceFrame { t, fade_elapsed: 0 })
            },
        }
    }

    /// Advances the voice by one sample, reading its release flag while no
    /// release has been seen yet. Whatever the flag held, the result is one
    /// step of `step_model`; once released, the flag is no longer read.
    pub fn next_frame(&mut self) -> (frame: Option<VoiceFrame>)
        requires
            old(self).model().t < u64::MAX || fade_done(old(self).model()),
        ensures
            exists|requested: bool|
                (final(self).model(), frame) == step_model(old(self).model(), requested),
            old(self).model().released_at is Some ==> (final(self).model(), frame) == step_model(
                old(self).model(),
                false,
            ),
    {
        let requested = match self.released_at {
            Some(_) => false,
            None => self.release_flag.load(Ordering::SeqCst),
        };
        self.step(requested)
    }
}

/// The state after `n` further samples once the release flag no longer matters.
pub open spec fn advance(m: VoiceModel, n: nat) -> VoiceModel
    decreases n,
{
    if n == 0 {
        m
    } else {
        advance(step_model(m, false).0, (n - 1) as nat)
    }
}

/// A voice that has finished stays finished: its state no longer changes
/// and it yields nothing more, whatever the release flag says.
pub proof fn law_finished_voice_stays_silent(m: VoiceModel, a: bool, b: bool)
    requires
        step_model(m, a).1 is None,
    ensures
        step_model(m, a).0 == m,
        step_model(m, b).1 is None,
        step_model(step_model(m, a).0, b).1 is None,
{
}

/// Once a release has been seen, the release flag is never consulted again.
pub proof fn law_release_is_latched(m: VoiceModel, a: bool, b: bool)
    requires
        m.released_at is Some,
    ensures
        step_model(m, a) == step_model(m, b),
{
}

proof fn lemma_advance_during_fade(m: VoiceModel, r0: u64, k: nat)
    requires
        m.released_at == Some(r0),
        r0 <= m.t,
        m.t - r0 + k <= RELEASE_FADE_SAMPLES,
        m.t + k <= u64::MAX,
    ensures
        advance(m, k) == (VoiceModel { t: (m.t + k) as u64, ..m }),
    decreases k,
{
    if k > 0 {
        let m1 = step_model(m, false).0;
        assert(m1 == (VoiceModel { t: (m.t + 1) as u64, ..m }));
        lemma_advance_during_fade(m1, r0, (k - 1) as nat);
    }
}

/// A voice whose release has not been seen always yields a sample.
pub proof fn law_unreleased_voice_sounds(m: VoiceModel, b: bool)
    requires
        m.released_at is None,
    ensures
        step_model(m, b).1 is Some,
{
}

/// The fade law: a voice that sees its release flag at sample `t` plays that
/// sample at full level and then exactly `RELEASE_FADE_SAMPLES - 1` more
/// samples, the `k`-th of them `k` samples into the fade, whatever the flag
/// reads meanwhile; then it ends, and stays ended without moving.
pub proof fn law_release_fades_over_release_samples(m: VoiceModel, k: nat, b: bool)
    requires
        m.released_at is None,
        m.t + RELEASE_FADE_SAMPLES <= u64::MAX,
    ensures
        step_model(m, true).1 == Some(VoiceFrame { t: m.t, fade_elapsed: 0 }),
        1 <= k < RELEASE_FADE_SAMPLES ==> step_model(advance(step_model(m, true).0, (k - 1) as nat), b).1
            == Some(VoiceFrame { t: (m.t + k) as u64, fade_elapsed: k as u64 }),
        ({
            let done = advance(step_model(m, true).0, (RELEASE_FADE_SAMPLES - 1) as nat);
            &&& done.t == m.t + RELEASE_FADE_SAMPLES
            &&& fade_done(done)
            &&& step_model(done, b) == (done, None::<VoiceFrame>)
        }),
{
    let m1 = step_model(m, true).0;
    assert(m1 == (VoiceModel { t: (m.t + 1) as u64, released_at: Some(m.t), ..m }));
    if 1 <= k < RELEASE_FADE_SAMPLES {
        lemma_advance_during_fade(m1, m.t, (k - 1) as nat);
    }
    lemma_advance_during_fade(m1, m.t, (RELEASE_FADE_SAMPLES - 1) as nat);
}

/// A voice whose release flag is not set keeps sounding at full level: it
/// yields the current sample unfaded, moves on by one sample, and stays
/// unreleased, however long it has sounded.
pub proof fn law_held_voice_sustains(m: VoiceModel)
    requires
        m.released_at is None,
        m.t < u64::MAX,
    ensures
        step_model(m, false) == (VoiceModel { t: (m.t + 1) as u64, ..m }, Some(VoiceFrame { t: m.t, fade_elapsed: 0 })),
        advance(m, 1) == (VoiceModel { t: (m.t + 1) as u64, ..m }),
{
    assert(advance(m, 1) == advance(step_model(m, false).0, 0));
}

} // verus!
