//! Voice-activity dictation: utterances are cut out of the audio at the pauses.

use crate::audio;
use crate::audio::pcm_to_samples;
use crate::output;
use crate::output::paste_toast;
use crate::overlay::DoneKind;
use crate::text;
use crate::text::{ends_with, trim};
use std::collections::VecDeque;
use vstd::prelude::*;

verus! {

/// The rate at which voice is detected.
pub const VAD_RATE: u32 = 16000;

/// The detector takes exactly so many samples: 16 ms.
pub const VAD_FRAME_SAMPLES: usize = 256;

pub const VAD_FRAME_MS: u32 = 16;

/// So many frames without voice end an utterance: about 816 ms.
pub const SILENCE_THRESHOLD: usize = 51;

/// So many frames before the voice belong to the utterance: about 160 ms.
pub const PRE_SPEECH_FRAMES: usize = 10;

/// So many frames with voice begin an utterance: about 64 ms.
pub const DEBOUNCE_FRAMES: usize = 4;

/// The number of samples of a frame at `rate`.
pub open spec fn frame_len(rate: int) -> int {
    rate * VAD_FRAME_MS / 1000
}

/// The number of samples that an utterance needs at `rate`: 300 ms.
pub open spec fn min_speech(rate: int) -> int {
    rate * 300 / 1000
}

/// Whether frames of a whole number of samples, at least one, can be cut at `rate`.
pub open spec fn supported(rate: int) -> bool {
    1 <= frame_len(rate) && rate * VAD_FRAME_MS <= u32::MAX
}

/// What becomes of an utterance at its end.
pub enum Utterance {
    /// It is transcribed.
    Transcribe { seq: u64, samples: Vec<i16> },
    /// It is too short.
    Dismiss { seq: u64 },
}

/// What becomes of an utterance at its end.
pub ghost enum UtteranceView {
    Transcribe { seq: u64, samples: Seq<i16> },
    Dismiss { seq: u64 },
}

impl View for Utterance {
    type V = UtteranceView;

    open spec fn view(&self) -> UtteranceView {
        match self {
            Utterance::Transcribe { seq, samples } => UtteranceView::Transcribe {
                seq: *seq,
                samples: samples@,
            },
            Utterance::Dismiss { seq } => UtteranceView::Dismiss { seq: *seq },
        }
    }
}

/// What becomes of an utterance, if there is one.
pub open spec fn utterance_view(u: Option<Utterance>) -> Option<UtteranceView> {
    match u {
        Some(u) => Some(u@),
        None => None,
    }
}

/// What a frame leads to.
pub enum VadEvent {
    Nothing,
    /// An utterance begins: it is to be given a number.
    Begin,
    /// An utterance is over, and the detector starts afresh.
    End(Option<Utterance>),
}

/// What a frame leads to.
pub ghost enum VadEventView {
    Nothing,
    Begin,
    End(Option<UtteranceView>),
}

impl View for VadEvent {
    type V = VadEventView;

    open spec fn view(&self) -> VadEventView {
        match self {
            VadEvent::Nothing => VadEventView::Nothing,
            VadEvent::Begin => VadEventView::Begin,
            VadEvent::End(u) => VadEventView::End(utterance_view(*u)),
        }
    }
}

/// The state of the detection.
#[verifier::ext_equal]
pub ghost struct VadView {
    pub rate: int,
    /// Samples that do not make a frame yet.
    pub buffer: Seq<i16>,
    /// Whether an utterance is going on.
    pub active: bool,
    /// The frames without voice at its end.
    pub silence: int,
    /// The frames with voice just before it.
    pub voice: int,
    /// Its samples.
    pub speech: Seq<i16>,
    /// The last frames before it.
    pub before: Seq<Seq<i16>>,
    /// Its number.
    pub seq: Option<u64>,
}

impl VadView {
    /// The counters are below their thresholds.
    pub open spec fn wf(self) -> bool {
        &&& supported(self.rate)
        &&& 0 <= self.silence < SILENCE_THRESHOLD
        &&& 0 <= self.voice <= DEBOUNCE_FRAMES
        &&& !self.active ==> self.voice < DEBOUNCE_FRAMES
        &&& self.before.len() <= PRE_SPEECH_FRAMES
    }

    /// What becomes of the utterance if it ends now.
    pub open spec fn ended(self) -> Option<UtteranceView> {
        match self.seq {
            Some(seq) => Some(
                if self.speech.len() >= min_speech(self.rate) {
                    UtteranceView::Transcribe { seq, samples: self.speech }
                } else {
                    UtteranceView::Dismiss { seq }
                },
            ),
            None => None,
        }
    }

    /// The frames before an utterance with one more: the last ones are kept.
    pub open spec fn recall(self, frame: Seq<i16>) -> Seq<Seq<i16>> {
        let more = self.before.push(frame);
        if more.len() > PRE_SPEECH_FRAMES {
            more.skip(1)
        } else {
            more
        }
    }

    /// What a frame leads to, given whether there is voice in it.
    pub open spec fn frame(self, frame: Seq<i16>, is_voice: bool) -> (VadView, VadEventView) {
        if !self.active {
            if is_voice && self.voice + 1 >= DEBOUNCE_FRAMES {
                (
                    VadView {
                        active: true,
                        silence: 0,
                        voice: self.voice + 1,
                        speech: self.speech + self.before.flatten() + frame,
                        before: Seq::empty(),
                        ..self
                    },
                    VadEventView::Begin,
                )
            } else {
                (
                    VadView {
                        voice: if is_voice { self.voice + 1 } else { 0 },
                        before: self.recall(frame),
                        ..self
                    },
                    VadEventView::Nothing,
                )
            }
        } else {
            let s = VadView { speech: self.speech + frame, ..self };
            if is_voice {
                (VadView { silence: 0, ..s }, VadEventView::Nothing)
            } else if self.silence + 1 >= SILENCE_THRESHOLD {
                (
                    VadView {
                        active: false,
                        silence: 0,
                        voice: 0,
                        speech: Seq::empty(),
                        before: Seq::empty(),
                        seq: None,
                        ..s
                    },
                    VadEventView::End(s.ended()),
                )
            } else {
                (VadView { silence: self.silence + 1, ..s }, VadEventView::Nothing)
            }
        }
    }
}

/// The detection of utterances.
pub struct Vad {
    sample_rate: u32,
    buffer: Vec<i16>,
    active: bool,
    silence: usize,
    voice: usize,
    speech: Vec<i16>,
    before: VecDeque<Vec<i16>>,
    seq: Option<u64>,
}

impl View for Vad {
    type V = VadView;

    closed spec fn view(&self) -> VadView {
        VadView {
            rate: self.sample_rate as int,
            buffer: self.buffer@,
            active: self.active,
            silence: self.silence as int,
            voice: self.voice as int,
            speech: self.speech@,
            before: frames(self.before@),
            seq: self.seq,
        }
    }
}

/// The samples of frames.
pub open spec fn frames(v: Seq<Vec<i16>>) -> Seq<Seq<i16>> {
    Seq::new(v.len(), |i: int| v[i]@)
}

impl Vad {
    /// Detection before the first sample.
    pub fn new(sample_rate: u32) -> (r: Vad)
        requires
            supported(sample_rate as int),
        ensures
            r@.wf(),
            r@ == (VadView {
                rate: sample_rate as int,
                buffer: Seq::empty(),
                active: false,
                silence: 0,
                voice: 0,
                speech: Seq::empty(),
                before: Seq::empty(),
                seq: None,
            }),
    {
        let r: Vad = Vad {
            sample_rate,
            buffer: Vec::new(),
            active: false,
            silence: 0,
            voice: 0,
            speech: Vec::new(),
            before: VecDeque::new(),
            seq: None,
        };
        assert(r@.before =~= Seq::empty());
        r
    }

    /// Takes in the bytes of samples.
    pub fn push(&mut self, bytes: &[u8])
        ensures
            final(self)@ == (VadView {
                buffer: old(self)@.buffer + audio::samples_in(bytes@),
                ..old(self)@
            }),
    {
        let mut samples: Vec<i16> = pcm_to_samples(bytes);
        self.buffer.append(&mut samples);
    }

    /// The next whole frame.
    pub fn next_frame(&mut self) -> (r: Option<Vec<i16>>)
        requires
            old(self)@.wf(),
        ensures
            ({
                let n = frame_len(old(self)@.rate);
                match r {
                    Some(f) => {
                        &&& old(self)@.buffer.len() >= n
                        &&& f@ == old(self)@.buffer.take(n)
                        &&& final(self)@ == (VadView {
                            buffer: old(self)@.buffer.skip(n),
                            ..old(self)@
                        })
                    },
                    None => old(self)@.buffer.len() < n && final(self)@ == old(self)@,
                }
            }),
    {
        let n: usize = (self.sample_rate * VAD_FRAME_MS / 1000) as usize;
        if self.buffer.len() < n {
            return None;
        }
        let ghost all = self.buffer@;
        let mut rest: Vec<i16> = self.buffer.split_off(n);
        std::mem::swap(&mut rest, &mut self.buffer);
        assert(self.buffer@ =~= all.skip(n as int));
        assert(rest@ =~= all.take(n as int));
        Some(rest)
    }

    fn take_utterance(&mut self) -> (r: Option<Utterance>)
        requires
            old(self)@.wf(),
        ensures
            utterance_view(r) == old(self)@.ended(),
            final(self)@.seq is None,
            final(self)@ == (VadView {
                seq: None,
                speech: final(self)@.speech,
                ..old(self)@
            }),
    {
        let needed: u64 = self.sample_rate as u64 * 300 / 1000;
        match self.seq {
            Some(seq) => {
                self.seq = None;
                if self.speech.len() as u64 >= needed {
                    let mut samples: Vec<i16> = Vec::new();
                    std::mem::swap(&mut samples, &mut self.speech);
                    Some(Utterance::Transcribe { seq, samples })
                } else {
                    Some(Utterance::Dismiss { seq })
                }
            },
            None => None,
        }
    }

    fn remember(&mut self, frame: Vec<i16>)
        requires
            old(self)@.wf(),
        ensures
            final(self)@ == (VadView { before: old(self)@.recall(frame@), ..old(self)@ }),
    {
        let ghost more = self@.before.push(frame@);
        self.before.push_back(frame);
        assert(frames(self.before@) =~= more);
        if self.before.len() > PRE_SPEECH_FRAMES {
            let _gone: Option<Vec<i16>> = self.before.pop_front();
            assert(frames(self.before@) =~= more.skip(1));
        }
    }

    fn collect_before(&mut self)
        ensures
            final(self)@ == (VadView {
                speech: old(self)@.speech + old(self)@.before.flatten(),
                before: Seq::empty(),
                ..old(self)@
            }),
    {
        let ghost all = frames(self.before@);
        let ghost start = self.speech@;
        proof {
            assert(all.skip(0) =~= all);
            assert(start + all.flatten() =~= start + all.flatten());
        }
        loop
            invariant
                self@ == (VadView {
                    speech: self@.speech,
                    before: self@.before,
                    ..old(self)@
                }),
                self@.speech + self@.before.flatten() == start + all.flatten(),
            ensures
                self@.before.len() == 0,
                self@.speech == start + all.flatten(),
            decreases self.before.len(),
        {
            let ghost left = frames(self.before@);
            match self.before.pop_front() {
                Some(frame) => {
                    let ghost had = self.speech@;
                    let mut frame: Vec<i16> = frame;
                    let ghost f = frame@;
                    self.speech.append(&mut frame);
                    proof {
                        assert(frames(self.before@) =~= left.drop_first());
                        assert(left.flatten() == f + left.drop_first().flatten());
                        assert(self@.speech + self@.before.flatten() =~= had + left.flatten());
                    }
                },
                None => {
                    proof {
                        assert(left =~= Seq::<Seq<i16>>::empty());
                        assert(left.flatten() =~= Seq::<i16>::empty());
                        assert(self@.speech =~= start + all.flatten());
                    }
                    break;
                },
            }
        }
        assert(self@.before =~= Seq::empty());
    }

    /// Takes in a frame, given whether there is voice in it.
    pub fn frame(&mut self, frame: Vec<i16>, is_voice: bool) -> (r: VadEvent)
        requires
            old(self)@.wf(),
        ensures
            (final(self)@, r@) == old(self)@.frame(frame@, is_voice),
            final(self)@.wf(),
    {
        if !self.active {
            if is_voice {
                self.voice = self.voice + 1;
                if self.voice >= DEBOUNCE_FRAMES {
                    self.active = true;
                    self.silence = 0;
                    self.collect_before();
                    let mut frame: Vec<i16> = frame;
                    self.speech.append(&mut frame);
                    return VadEvent::Begin;
                }
            } else {
                self.voice = 0;
            }
            self.remember(frame);
            return VadEvent::Nothing;
        }
        let mut frame: Vec<i16> = frame;
        self.speech.append(&mut frame);
        if is_voice {
            self.silence = 0;
            return VadEvent::Nothing;
        }
        if self.silence + 1 < SILENCE_THRESHOLD {
            self.silence = self.silence + 1;
            return VadEvent::Nothing;
        }
        let utterance: Option<Utterance> = self.take_utterance();
        self.speech = Vec::new();
        self.active = false;
        self.silence = 0;
        self.voice = 0;
        self.before = VecDeque::new();
        assert(self@.before =~= Seq::empty());
        VadEvent::End(utterance)
    }

    /// Numbers the utterance that began.
    pub fn number(&mut self, seq: u64)
        ensures
            final(self)@ == (VadView { seq: Some(seq), ..old(self)@ }),
    {
        self.seq = Some(seq);
    }

    /// Ends the detection: what becomes of an utterance that is going on.
    pub fn finish(self) -> (r: Option<Utterance>)
        requires
            self@.wf(),
        ensures
            utterance_view(r) == self@.ended(),
    {
        let mut last: Vad = self;
        last.take_utterance()
    }
}

// ---------------------------------------------------------------------------------------------
// Laws

/// A frame and whether there is voice in it.
pub ghost struct Heard {
    pub samples: Seq<i16>,
    pub is_voice: bool,
}

/// The state after the frames were taken in.
pub open spec fn after(start: VadView, heard: Seq<Heard>) -> VadView
    decreases heard.len(),
{
    if heard.len() == 0 {
        start
    } else {
        let last = heard.last();
        after(start, heard.drop_last()).frame(last.samples, last.is_voice).0
    }
}

/// The samples of the frames.
pub open spec fn samples_of(heard: Seq<Heard>) -> Seq<Seq<i16>> {
    Seq::new(heard.len(), |i: int| heard[i].samples)
}

/// Whether `v` holds exactly the frames from `k` on: as the frames before an utterance, or as its
/// samples.
pub open spec fn holds_from(v: VadView, heard: Seq<Heard>, k: int) -> bool {
    &&& 0 <= k <= heard.len()
    &&& if v.active {
        v.speech == samples_of(heard).skip(k).flatten()
    } else {
        v.before == samples_of(heard).skip(k) && v.speech.len() == 0
    }
}

/// Whether detection is at its start.
pub open spec fn fresh(v: VadView) -> bool {
    &&& v.wf()
    &&& !v.active
    &&& v.silence == 0
    &&& v.voice == 0
    &&& v.speech.len() == 0
    &&& v.before.len() == 0
}

/// The counters count what their names say.
pub open spec fn counts(v: VadView, heard: Seq<Heard>) -> bool {
    &&& v.wf()
    &&& v.active ==> v.silence <= heard.len() && forall|j: int|
        heard.len() - v.silence <= j < heard.len() ==> !(#[trigger] heard[j]).is_voice
    &&& !v.active ==> v.voice <= heard.len() && forall|j: int|
        heard.len() - v.voice <= j < heard.len() ==> (#[trigger] heard[j]).is_voice
}

proof fn lemma_after(start: VadView, heard: Seq<Heard>)
    requires
        fresh(start),
    ensures
        counts(after(start, heard), heard),
        exists|k: int| holds_from(after(start, heard), heard, k),
    decreases heard.len(),
{
    let v = after(start, heard);
    let all = samples_of(heard);
    if heard.len() == 0 {
        assert(all.skip(0) =~= start.before);
        assert(holds_from(v, heard, 0));
    } else {
        let init = heard.drop_last();
        let last = heard.last();
        let u = after(start, init);
        lemma_after(start, init);
        let k = choose|k: int| holds_from(u, init, k);
        let had = samples_of(init);
        let n = heard.len() as int;
        assert(all.drop_last() =~= had);
        assert forall|j: int| 0 <= j < n - 1 implies #[trigger] heard[j] == init[j] by {}
        assert(all.skip(k) =~= had.skip(k).push(last.samples));
        lemma_flatten_push(had.skip(k), last.samples);
        if !u.active {
            if v.active {
                assert(v.speech =~= all.skip(k).flatten());
                assert(holds_from(v, heard, k));
            } else if had.skip(k).len() + 1 > PRE_SPEECH_FRAMES {
                assert(v.before =~= all.skip(k + 1));
                assert(holds_from(v, heard, k + 1));
            } else {
                assert(v.before =~= all.skip(k));
                assert(holds_from(v, heard, k));
            }
        } else if v.active {
            assert(v.speech =~= all.skip(k).flatten());
            assert(holds_from(v, heard, k));
        } else {
            assert(all.skip(n) =~= v.before);
            assert(holds_from(v, heard, n));
        }
    }
}

proof fn lemma_flatten_push(parts: Seq<Seq<i16>>, last: Seq<i16>)
    ensures
        parts.push(last).flatten() == parts.flatten() + last,
{
    let more = parts.push(last);
    more.lemma_flatten_and_flatten_alt_are_equivalent();
    parts.lemma_flatten_and_flatten_alt_are_equivalent();
    assert(more.drop_last() =~= parts);
}

/// An utterance is one unbroken stretch of the audio: what is held of it at any time, and what is
/// held of the time before it, are all the samples from some frame on to the last one.
pub proof fn law_utterance_is_unbroken(start: VadView, heard: Seq<Heard>)
    requires
        fresh(start),
    ensures
        exists|k: int| holds_from(after(start, heard), heard, k),
{
    lemma_after(start, heard);
}

/// An utterance begins only where the last frames all had voice in them, and ends only where so
/// many frames in a row had none.
pub proof fn law_utterance_is_bounded_by_silence(start: VadView, heard: Seq<Heard>, next: Heard)
    requires
        fresh(start),
    ensures
        ({
            let all = heard.push(next);
            let n = all.len();
            match after(start, heard).frame(next.samples, next.is_voice).1 {
                VadEventView::Begin => n >= DEBOUNCE_FRAMES && forall|j: int|
                    n - DEBOUNCE_FRAMES <= j < n ==> (#[trigger] all[j]).is_voice,
                VadEventView::End(_) => n >= SILENCE_THRESHOLD && forall|j: int|
                    n - SILENCE_THRESHOLD <= j < n ==> !(#[trigger] all[j]).is_voice,
                VadEventView::Nothing => true,
            }
        }),
{
    lemma_after(start, heard);
    let all = heard.push(next);
    assert forall|j: int| 0 <= j < heard.len() implies #[trigger] all[j] == heard[j] by {}
}

/// A pause that is too short never cuts an utterance: while one goes on, fewer frames without voice
/// than it takes leave it going on.
pub proof fn law_short_pauses_do_not_cut(v: VadView, frame: Seq<i16>, is_voice: bool)
    requires
        v.wf(),
        v.active,
        is_voice || v.silence + 1 < SILENCE_THRESHOLD,
    ensures
        v.frame(frame, is_voice).0.active,
        v.frame(frame, is_voice).0.speech == v.speech + frame,
{
}

/// What has happened in a session: the state of the detection, the numbers of the utterances that
/// began, and what became of those that ended.
#[verifier::ext_equal]
pub ghost struct Session {
    pub vad: VadView,
    pub begun: Seq<u64>,
    pub ended: Seq<UtteranceView>,
}

/// The session after the frames, where an utterance that begins with frame `i` is given the number
/// `ids[i]`.
pub open spec fn session(start: VadView, heard: Seq<Heard>, ids: Seq<u64>) -> Session
    decreases heard.len(),
{
    if heard.len() == 0 {
        Session { vad: start, begun: Seq::empty(), ended: Seq::empty() }
    } else {
        let s = session(start, heard.drop_last(), ids);
        let last = heard.last();
        let (vad, event) = s.vad.frame(last.samples, last.is_voice);
        match event {
            VadEventView::Nothing => Session { vad, ..s },
            VadEventView::Begin => {
                let id = ids[heard.len() - 1];
                Session {
                    vad: VadView { seq: Some(id), ..vad },
                    begun: s.begun.push(id),
                    ..s
                }
            },
            VadEventView::End(u) => Session { vad, ended: with_end(s.ended, u), ..s },
        }
    }
}

/// What became of the utterances, with one more that ended.
pub open spec fn with_end(ended: Seq<UtteranceView>, u: Option<UtteranceView>) -> Seq<
    UtteranceView,
> {
    match u {
        Some(u) => ended.push(u),
        None => ended,
    }
}

/// What became of the utterances of a session, the one that its end cuts off included.
pub open spec fn resolved(s: Session) -> Seq<UtteranceView> {
    with_end(s.ended, s.vad.ended())
}

impl UtteranceView {
    /// The number of an utterance.
    pub open spec fn id(self) -> u64 {
        match self {
            UtteranceView::Transcribe { seq, .. } => seq,
            UtteranceView::Dismiss { seq } => seq,
        }
    }
}

/// The numbers of utterances.
pub open spec fn numbers(us: Seq<UtteranceView>) -> Seq<u64> {
    Seq::new(us.len(), |i: int| us[i].id())
}

/// Every utterance that begins ends, once and under its own number, in the order in which they
/// began; and one that is transcribed is never too short.
pub proof fn law_each_utterance_ends_once(start: VadView, heard: Seq<Heard>, ids: Seq<u64>)
    requires
        fresh(start),
        start.seq is None,
        ids.len() == heard.len(),
    ensures
        numbers(resolved(session(start, heard, ids))) == session(start, heard, ids).begun,
        forall|i: int|
            0 <= i < resolved(session(start, heard, ids)).len() ==> (
            #[trigger] resolved(session(start, heard, ids))[i] matches UtteranceView::Transcribe {
                samples,
                ..
            } ==> samples.len() >= min_speech(start.rate)),
{
    lemma_session(start, heard, ids);
    let s = session(start, heard, ids);
    assert(numbers(resolved(s)) =~= s.begun);
}

/// The utterances that have ended, and then the one that goes on, are those that have begun.
spec fn in_step(s: Session, rate: int) -> bool {
    &&& s.vad.rate == rate
    &&& s.vad.active == s.vad.seq is Some
    &&& s.begun == (if s.vad.active {
        numbers(s.ended).push(s.vad.seq->0)
    } else {
        numbers(s.ended)
    })
    &&& forall|i: int|
        0 <= i < s.ended.len() ==> (#[trigger] s.ended[i] matches UtteranceView::Transcribe {
            samples,
            ..
        } ==> samples.len() >= min_speech(rate))
}

proof fn lemma_session(start: VadView, heard: Seq<Heard>, ids: Seq<u64>)
    requires
        fresh(start),
        start.seq is None,
    ensures
        in_step(session(start, heard, ids), start.rate),
    decreases heard.len(),
{
    let s = session(start, heard, ids);
    if heard.len() == 0 {
        assert(s.begun =~= numbers(s.ended));
    } else {
        lemma_session(start, heard.drop_last(), ids);
        let b = session(start, heard.drop_last(), ids);
        let last = heard.last();
        match b.vad.frame(last.samples, last.is_voice).1 {
            VadEventView::Nothing => {},
            VadEventView::Begin => {},
            VadEventView::End(u) => {
                assert(s.ended == b.ended.push(u->0));
                assert(numbers(s.ended) =~= numbers(b.ended).push(u->0.id()));
            },
        }
    }
}

/// Whether utterance `i` of a session began with frame `b`.
pub open spec fn begins_at(start: VadView, heard: Seq<Heard>, ids: Seq<u64>, i: int, b: int) -> bool {
    &&& 0 <= b < heard.len()
    &&& session(start, heard.take(b), ids).begun.len() == i
    &&& session(start, heard.take(b + 1), ids).begun.len() == i + 1
}

/// Whether utterance `i` of a session was over when `n` frames were heard, and not before.
pub open spec fn ends_at(start: VadView, heard: Seq<Heard>, ids: Seq<u64>, i: int, n: int) -> bool {
    &&& 0 < n <= heard.len()
    &&& session(start, heard.take(n - 1), ids).ended.len() == i
    &&& session(start, heard.take(n), ids).ended.len() == i + 1
}

/// Whether the frames from `k` on are those of utterance `i`, which began with frame `b`: the ten
/// frames before that one belong to it, or as many as there are since the utterance before.
pub open spec fn reaches_back(
    start: VadView,
    heard: Seq<Heard>,
    ids: Seq<u64>,
    i: int,
    k: int,
    b: int,
) -> bool {
    &&& 0 <= k <= b
    &&& begins_at(start, heard, ids, i, b)
    &&& b - k <= 10
    &&& b - k == 10 || (i == 0 && k == 0) || ends_at(start, heard, ids, i - 1, k)
}

/// Whether `u` is what becomes of utterance `i` where it consists of the frames from `k` up to `n`:
/// with less than 300 ms of audio it is dismissed, else all of its samples are transcribed, under
/// the number that it was given.
pub open spec fn comes_of(
    start: VadView,
    heard: Seq<Heard>,
    ids: Seq<u64>,
    i: int,
    k: int,
    n: int,
    u: UtteranceView,
) -> bool {
    let audio = samples_of(heard).subrange(k, n).flatten();
    let seq = session(start, heard, ids).begun[i];
    u == if 1000 * audio.len() + 1000 > 300 * start.rate {
        UtteranceView::Transcribe { seq, samples: audio }
    } else {
        UtteranceView::Dismiss { seq }
    }
}

/// Every utterance is handed over whole: its samples are all that was heard from ten frames before
/// it was noticed, or from the end of the utterance before, up to the frame with which it ended, or
/// with which the session did. Only one of less than 300 ms is dismissed.
pub proof fn law_utterance_is_handed_over_whole(
    start: VadView,
    heard: Seq<Heard>,
    ids: Seq<u64>,
    i: int,
)
    requires
        fresh(start),
        start.seq is None,
        ids.len() == heard.len(),
        0 <= i < resolved(session(start, heard, ids)).len(),
    ensures
        exists|k: int, b: int, n: int|
            {
                &&& #[trigger] reaches_back(start, heard, ids, i, k, b)
                &&& b < n <= heard.len()
                &&& #[trigger] comes_of(
                    start,
                    heard,
                    ids,
                    i,
                    k,
                    n,
                    resolved(session(start, heard, ids))[i],
                )
                &&& if i < session(start, heard, ids).ended.len() {
                    ends_at(start, heard, ids, i, n)
                } else {
                    n == heard.len()
                }
            },
{
    lemma_session(start, heard, ids);
    let s = session(start, heard, ids);
    assert(numbers(s.ended).len() == s.ended.len());
    if i < s.ended.len() {
        lemma_handed_over(start, heard, ids, i);
        let (k, b, n) = choose|k: int, b: int, n: int|
            whole_utterance(start, heard, ids, i, k, b, n, s.ended[i]);
        assert(reaches_back(start, heard, ids, i, k, b));
        assert(resolved(s)[i] == s.ended[i]);
        assert(comes_of(start, heard, ids, i, k, n, resolved(s)[i]));
    } else {
        lemma_going_on(start, heard, ids);
        let (k, b) = choose|k: int, b: int| going_on(start, heard, ids, k, b);
        let n = heard.len() as int;
        assert(samples_of(heard).subrange(k, n) =~= samples_of(heard).skip(k));
        assert(reaches_back(start, heard, ids, i, k, b));
        assert(comes_of(start, heard, ids, i, k, n, resolved(s)[i]));
    }
}

/// Utterance `i`, which has ended, in frames.
spec fn whole_utterance(
    start: VadView,
    heard: Seq<Heard>,
    ids: Seq<u64>,
    i: int,
    k: int,
    b: int,
    n: int,
    u: UtteranceView,
) -> bool {
    &&& reaches_back(start, heard, ids, i, k, b)
    &&& b < n
    &&& ends_at(start, heard, ids, i, n)
    &&& comes_of(start, heard, ids, i, k, n, u)
}

/// The utterance that goes on, in frames.
spec fn going_on(start: VadView, heard: Seq<Heard>, ids: Seq<u64>, k: int, b: int) -> bool {
    let s = session(start, heard, ids);
    &&& reaches_back(start, heard, ids, s.ended.len() as int, k, b)
    &&& s.vad.speech == samples_of(heard).skip(k).flatten()
}

/// The frames that are remembered while none goes on.
spec fn remembered(start: VadView, heard: Seq<Heard>, ids: Seq<u64>, k: int) -> bool {
    let s = session(start, heard, ids);
    let n = heard.len();
    &&& 0 <= k <= n
    &&& n - k <= 10
    &&& s.vad.before == samples_of(heard).skip(k)
    &&& s.vad.speech.len() == 0
    &&& n - k == 10 || (s.ended.len() == 0 && k == 0) || ends_at(
        start,
        heard,
        ids,
        s.ended.len() - 1,
        k,
    )
}

proof fn lemma_prefix(start: VadView, heard: Seq<Heard>, ids: Seq<u64>, i: int, j: int)
    requires
        heard.len() > 0,
    ensures
        begins_at(start, heard.drop_last(), ids, i, j) ==> begins_at(start, heard, ids, i, j),
        ends_at(start, heard.drop_last(), ids, i, j) ==> ends_at(start, heard, ids, i, j),
{
    let init = heard.drop_last();
    if 0 <= j < init.len() {
        assert(init.take(j) =~= heard.take(j));
        assert(init.take(j + 1) =~= heard.take(j + 1));
    }
    if 0 < j <= init.len() {
        assert(init.take(j) =~= heard.take(j));
        assert(init.take(j - 1) =~= heard.take(j - 1));
    }
}

proof fn lemma_going_on(start: VadView, heard: Seq<Heard>, ids: Seq<u64>)
    requires
        fresh(start),
        start.seq is None,
    ensures
        session(start, heard, ids).vad.wf(),
        session(start, heard, ids).vad.active ==> exists|k: int, b: int|
            going_on(start, heard, ids, k, b),
        !session(start, heard, ids).vad.active ==> exists|k: int|
            remembered(start, heard, ids, k),
    decreases heard.len(),
{
    let s = session(start, heard, ids);
    let all = samples_of(heard);
    if heard.len() == 0 {
        assert(all.skip(0) =~= start.before);
        assert(remembered(start, heard, ids, 0));
    } else {
        let init = heard.drop_last();
        let last = heard.last();
        let u = session(start, init, ids);
        let had = samples_of(init);
        let n = heard.len() as int;
        lemma_going_on(start, init, ids);
        lemma_session(start, init, ids);
        lemma_session(start, heard, ids);
        assert(numbers(u.ended).len() == u.ended.len());
        assert(numbers(s.ended).len() == s.ended.len());
        assert(heard.take(n) =~= heard);
        assert(heard.take(n - 1) =~= init);
        assert(all.drop_last() =~= had);
        if u.vad.active {
            let (k, b) = choose|k: int, b: int| going_on(start, init, ids, k, b);
            lemma_prefix(start, heard, ids, u.ended.len() as int, b);
            lemma_prefix(start, heard, ids, u.ended.len() - 1, k);
            assert(all.skip(k) =~= had.skip(k).push(last.samples));
            lemma_flatten_push(had.skip(k), last.samples);
            if s.vad.active {
                assert(s.vad.speech =~= all.skip(k).flatten());
                assert(going_on(start, heard, ids, k, b));
            } else {
                assert(ends_at(start, heard, ids, s.ended.len() - 1, n));
                assert(all.skip(n) =~= s.vad.before);
                assert(remembered(start, heard, ids, n));
            }
        } else {
            let k = choose|k: int| remembered(start, init, ids, k);
            lemma_prefix(start, heard, ids, u.ended.len() - 1, k);
            assert(all.skip(k) =~= had.skip(k).push(last.samples));
            lemma_flatten_push(had.skip(k), last.samples);
            if s.vad.active {
                assert(begins_at(start, heard, ids, s.ended.len() as int, n - 1));
                assert(s.vad.speech =~= all.skip(k).flatten());
                assert(going_on(start, heard, ids, k, n - 1));
            } else if n - 1 - k + 1 > PRE_SPEECH_FRAMES {
                assert(s.vad.before =~= all.skip(k + 1));
                assert(remembered(start, heard, ids, k + 1));
            } else {
                assert(s.vad.before =~= all.skip(k));
                assert(remembered(start, heard, ids, k));
            }
        }
    }
}

proof fn lemma_handed_over(start: VadView, heard: Seq<Heard>, ids: Seq<u64>, i: int)
    requires
        fresh(start),
        start.seq is None,
        0 <= i < session(start, heard, ids).ended.len(),
    ensures
        exists|k: int, b: int, n: int|
            whole_utterance(
                start,
                heard,
                ids,
                i,
                k,
                b,
                n,
                session(start, heard, ids).ended[i],
            ),
    decreases heard.len(),
{
    let s = session(start, heard, ids);
    assert(heard.len() > 0);
    let init = heard.drop_last();
    let last = heard.last();
    let u = session(start, init, ids);
    let all = samples_of(heard);
    let had = samples_of(init);
    let len = heard.len() as int;
    lemma_session(start, init, ids);
    lemma_session(start, heard, ids);
    assert(numbers(u.ended).len() == u.ended.len());
    assert(numbers(s.ended).len() == s.ended.len());
    assert(all.drop_last() =~= had);
    if i < u.ended.len() {
        lemma_handed_over(start, init, ids, i);
        let (k, b, n) = choose|k: int, b: int, n: int|
            whole_utterance(start, init, ids, i, k, b, n, u.ended[i]);
        lemma_prefix(start, heard, ids, i, b);
        lemma_prefix(start, heard, ids, i, n);
        lemma_prefix(start, heard, ids, i - 1, k);
        assert(had.subrange(k, n) =~= all.subrange(k, n));
        assert(s.ended[i] == u.ended[i]);
        assert(s.begun[i] == u.begun[i]);
        assert(whole_utterance(start, heard, ids, i, k, b, n, s.ended[i]));
    } else {
        lemma_going_on(start, init, ids);
        assert(u.vad.active);
        let (k, b) = choose|k: int, b: int| going_on(start, init, ids, k, b);
        lemma_prefix(start, heard, ids, i, b);
        lemma_prefix(start, heard, ids, i - 1, k);
        assert(heard.take(len) =~= heard);
        assert(heard.take(len - 1) =~= init);
        assert(ends_at(start, heard, ids, i, len));
        assert(all.skip(k) =~= had.skip(k).push(last.samples));
        lemma_flatten_push(had.skip(k), last.samples);
        assert(all.subrange(k, len) =~= all.skip(k));
        assert(s.begun[i] == u.vad.seq->0);
        assert(whole_utterance(start, heard, ids, i, k, b, len, s.ended[i]));
    }
}

/// Four frames with voice in a row are noticed, whatever went before: an utterance goes on then.
pub proof fn law_voice_is_noticed(v: VadView, heard: Seq<Heard>)
    requires
        v.wf(),
        heard.len() >= 4,
        forall|j: int| 0 <= j < heard.len() ==> (#[trigger] heard[j]).is_voice,
    ensures
        after(v, heard).active,
{
    lemma_voice(v, heard);
}

proof fn lemma_voice(v: VadView, heard: Seq<Heard>)
    requires
        v.wf(),
        forall|j: int| 0 <= j < heard.len() ==> (#[trigger] heard[j]).is_voice,
    ensures
        after(v, heard).wf(),
        after(v, heard).active || after(v, heard).voice >= heard.len(),
    decreases heard.len(),
{
    if heard.len() > 0 {
        let init = heard.drop_last();
        assert forall|j: int| 0 <= j < init.len() implies (#[trigger] init[j]).is_voice by {
            assert(init[j] == heard[j]);
        }
        lemma_voice(v, init);
        assert(heard[heard.len() - 1].is_voice);
    }
}

/// A pause of 51 frames, 816 ms, is noticed, whatever went before: no utterance goes on then.
pub proof fn law_pause_is_noticed(v: VadView, heard: Seq<Heard>)
    requires
        v.wf(),
        heard.len() >= 51,
        forall|j: int| 0 <= j < heard.len() ==> !(#[trigger] heard[j]).is_voice,
    ensures
        !after(v, heard).active,
{
    lemma_pause(v, heard);
}

proof fn lemma_pause(v: VadView, heard: Seq<Heard>)
    requires
        v.wf(),
        forall|j: int| 0 <= j < heard.len() ==> !(#[trigger] heard[j]).is_voice,
    ensures
        after(v, heard).wf(),
        after(v, heard).active ==> after(v, heard).silence >= heard.len(),
    decreases heard.len(),
{
    if heard.len() > 0 {
        let init = heard.drop_last();
        assert forall|j: int| 0 <= j < init.len() implies !(#[trigger] init[j]).is_voice by {
            assert(init[j] == heard[j]);
        }
        lemma_pause(v, init);
        assert(!heard[heard.len() - 1].is_voice);
    }
}

/// A shorter pause never cuts: where fewer than 51 frames in a row are without voice, an utterance
/// that goes on does so still. Nor do fewer than four frames with voice begin one.
pub proof fn law_nothing_changes_at_once(v: VadView, heard: Seq<Heard>)
    requires
        v.wf(),
        v.silence == 0 || !v.active,
        v.voice == 0 || v.active,
    ensures
        v.active && heard.len() < 51 ==> after(v, heard).active,
        !v.active && heard.len() < 4 ==> !after(v, heard).active,
{
    lemma_slow(v, heard);
}

proof fn lemma_slow(v: VadView, heard: Seq<Heard>)
    requires
        v.wf(),
        v.silence == 0 || !v.active,
        v.voice == 0 || v.active,
    ensures
        after(v, heard).wf(),
        v.active && heard.len() < 51 ==> after(v, heard).active && after(v, heard).silence
            <= heard.len(),
        !v.active && heard.len() < 4 ==> !after(v, heard).active && after(v, heard).voice
            <= heard.len(),
    decreases heard.len(),
{
    if heard.len() > 0 {
        lemma_slow(v, heard.drop_last());
    }
}

/// A frame lasts 16 ms, to within a sample, and taking one in touches neither the rate nor the
/// samples that do not make a frame yet.
pub proof fn law_frames_last_16_ms(v: VadView, frame: Seq<i16>, is_voice: bool)
    requires
        v.wf(),
    ensures
        1000 * frame_len(v.rate) <= 16 * v.rate < 1000 * (frame_len(v.rate) + 1),
        frame_len(16000) == 256,
        v.frame(frame, is_voice).0.rate == v.rate,
        v.frame(frame, is_voice).0.buffer == v.buffer,
{
}

// ---------------------------------------------------------------------------------------------
// Delivery, utterance by utterance

/// What becomes of the transcript of an utterance.
pub enum ChunkStep {
    /// There was no speech in it.
    Dismiss,
    /// Insert this text, and write the whole transcript.
    Deliver { insert: String },
    /// It could not be transcribed, for this reason.
    Fail(String),
}

/// The whole transcript with one more utterance, after a space.
pub open spec fn with_utterance(full: Seq<char>, text: Seq<char>) -> Seq<char> {
    if full.len() > 0 && !text::ends_in(full, ' ') {
        full.push(' ') + text
    } else {
        full + text
    }
}

/// The whole transcript with that of one more utterance, where it could be transcribed and there
/// was speech in it.
pub open spec fn with_chunk(full: Seq<char>, transcript: Option<Seq<char>>) -> Seq<char> {
    match transcript {
        Some(t) => if text::trimmed(t).len() == 0 {
            full
        } else {
            with_utterance(full, text::trimmed(t))
        },
        None => full,
    }
}

/// Adds the transcript of an utterance to the whole. A space goes behind what is inserted, so that
/// utterances do not run together.
pub fn add_chunk(full: &mut String, transcript: &str) -> (r: ChunkStep)
    ensures
        final(full)@ == with_chunk(old(full)@, Some(transcript@)),
        ({
            let t = text::trimmed(transcript@);
            if t.len() == 0 {
                r is Dismiss
            } else {
                r is Deliver && r->insert@ == t + " "@
            }
        }),
{
    let t: String = trim(transcript);
    if t.as_str().is_empty() {
        return ChunkStep::Dismiss;
    }
    if !full.as_str().is_empty() && !ends_with(full.as_str(), ' ') {
        full.push(' ');
    }
    full.append(t.as_str());
    ChunkStep::Deliver { insert: t.as_str().to_owned().concat(" ") }
}

/// Takes in what came of transcribing an utterance: its transcript, or why there is none.
pub fn settle_chunk(full: &mut String, result: Result<String, String>) -> (r: ChunkStep)
    ensures
        match result {
            Ok(transcript) => {
                let t = text::trimmed(transcript@);
                &&& final(full)@ == with_chunk(old(full)@, Some(transcript@))
                &&& t.len() == 0 ==> r is Dismiss
                &&& t.len() > 0 ==> r is Deliver && r->insert@ == t + " "@
            },
            Err(e) => r == ChunkStep::Fail(e) && final(full)@ == with_chunk(old(full)@, None),
        },
{
    match result {
        Ok(transcript) => add_chunk(full, transcript.as_str()),
        Err(e) => ChunkStep::Fail(e),
    }
}

/// The whole transcript after the utterances, in order.
pub open spec fn whole(transcripts: Seq<Option<Seq<char>>>) -> Seq<char>
    decreases transcripts.len(),
{
    if transcripts.len() == 0 {
        Seq::empty()
    } else {
        with_chunk(whole(transcripts.drop_last()), transcripts.last())
    }
}

/// The transcripts in which there is speech, without the white space around them, in order.
pub open spec fn spoken(transcripts: Seq<Option<Seq<char>>>) -> Seq<Seq<char>>
    decreases transcripts.len(),
{
    if transcripts.len() == 0 {
        Seq::empty()
    } else {
        let before = spoken(transcripts.drop_last());
        match transcripts.last() {
            Some(t) => if text::trimmed(t).len() > 0 {
                before.push(text::trimmed(t))
            } else {
                before
            },
            None => before,
        }
    }
}

/// The whole transcript is made of the transcripts of the utterances in their order, those that
/// failed or are blank left out, each without the white space around it and with one space between
/// two of them.
pub proof fn law_transcripts_are_joined_in_order(transcripts: Seq<Option<Seq<char>>>)
    ensures
        whole(transcripts) == text::join(spoken(transcripts), " "@),
{
    lemma_whole(transcripts);
}

proof fn lemma_whole(transcripts: Seq<Option<Seq<char>>>)
    ensures
        whole(transcripts) == text::join(spoken(transcripts), " "@),
        spoken(transcripts).len() > 0 ==> whole(transcripts).len() > 0 && !text::is_white(
            whole(transcripts).last(),
        ),
    decreases transcripts.len(),
{
    reveal_strlit(" ");
    if transcripts.len() > 0 {
        let front = transcripts.drop_last();
        lemma_whole(front);
        let all = spoken(transcripts);
        if let Some(t) = transcripts.last() {
            let w = text::trimmed(t);
            text::lemma_trimmed_ends(t);
            if w.len() > 0 {
                assert(all.drop_last() =~= spoken(front));
                assert(whole(transcripts).last() == w.last());
                assert(whole(transcripts) =~= text::join(all, " "@));
            }
        }
    }
}

/// How an utterance ended, given whether the input method took its text, and whether the paste
/// chord is pressed.
pub fn chunk_done(is_clipboard: bool, typed: bool, auto_paste: bool) -> (r: (DoneKind, bool))
    ensures
        r.1 == (!is_clipboard && !typed && auto_paste),
        r.0 == (if !is_clipboard && (typed || auto_paste) {
            DoneKind::Delivered
        } else {
            DoneKind::Copied
        }),
{
    if is_clipboard {
        (DoneKind::Copied, false)
    } else if typed {
        (DoneKind::Delivered, false)
    } else if auto_paste {
        (DoneKind::Delivered, true)
    } else {
        (DoneKind::Copied, false)
    }
}

/// What the user is told of an utterance, where `keyboard` says whether there is one to paste with:
/// wherever the input method was given its text and did not take it, that it was pasted or that it
/// is only on the clipboard.
pub fn chunk_toast(is_clipboard: bool, typed: bool, auto_paste: bool, keyboard: bool) -> (r: Option<
    &'static str,
>)
    ensures
        match r {
            Some(m) => !is_clipboard && !typed && m@ == output::toast_of(auto_paste && keyboard),
            None => is_clipboard || typed,
        },
{
    if is_clipboard || typed {
        None
    } else {
        Some(paste_toast(auto_paste && keyboard))
    }
}

/// A rate will do where a frame of 16 ms has a sample and the frame is computed in 32 bits.
pub proof fn law_usual_rates_will_do(rate: int)
    requires
        rate >= 0,
    ensures
        supported(rate) <==> 63 <= rate <= 268435455,
{
}

} // verus!
