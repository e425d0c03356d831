//! The end of a recording: correction, delivery, what is kept of it; transcription with retries.

use crate::audio;
use crate::audio::is_silent;
use crate::config;
use crate::config::parse_provider_model;
use crate::fillers;
use crate::fillers::strip_fillers;
use crate::output;
use crate::output::paste_toast;
use crate::overlay::DoneKind;
use crate::state::State;
use crate::text;
use crate::text::{same, split_whitespace};
use vstd::prelude::*;

verus! {

// ---------------------------------------------------------------------------------------------
// Delivery

/// What the settings of a session say of the end of a recording.
pub struct Finish {
    pub do_correct: bool,
    pub correct_hold_ms: u64,
    pub enter_after: bool,
    /// The transcript only goes to the clipboard.
    pub is_clipboard: bool,
    /// The text was delivered while it was spoken.
    pub already_typed: bool,
    pub auto_paste: bool,
}

/// How a transcript reaches the focused application.
#[derive(Clone, Copy, PartialEq, Eq, Structural)]
pub enum Route {
    /// There is none.
    Nothing,
    /// It stays on the clipboard.
    Clipboard,
    /// It is there already.
    Typed,
    /// The input method is given it, and where that does not take it the paste chord is pressed.
    TypeOrPaste,
}

/// What is done at the end of a recording.
#[derive(Clone, Copy, PartialEq, Eq, Structural)]
pub struct Ending {
    /// Press the paste chord.
    pub paste: bool,
    /// Press Enter.
    pub press_enter: bool,
    /// How long the corrected text stays visible.
    pub hold_ms: u64,
    /// What the utterance's circle shows.
    pub done: DoneKind,
}

impl Finish {
    /// What the settings say.
    pub fn new(s: &State, already_typed: bool) -> (r: Finish)
        ensures
            r.do_correct == s.correct,
            r.correct_hold_ms == s.correct_hold_ms,
            r.enter_after == s.enter,
            r.is_clipboard == (s.output@ == "clipboard"@),
            r.already_typed == already_typed,
            r.auto_paste == s.auto_paste,
    {
        Finish {
            do_correct: s.correct,
            correct_hold_ms: s.correct_hold_ms,
            enter_after: s.enter,
            is_clipboard: same(s.output.as_str(), "clipboard"),
            already_typed,
            auto_paste: s.auto_paste,
        }
    }

    /// What the settings say of the end of a recording by utterances, given whether any of them was
    /// delivered when it ended: then nothing is inserted again.
    pub fn of_utterances(s: &State, delivered: bool) -> (r: Finish)
        ensures
            r.do_correct == s.correct,
            r.correct_hold_ms == s.correct_hold_ms,
            r.enter_after == s.enter,
            r.is_clipboard == (s.output@ == "clipboard"@),
            r.already_typed == (!r.is_clipboard && delivered),
            r.auto_paste == s.auto_paste,
    {
        Finish::new(s, !same(s.output.as_str(), "clipboard") && delivered)
    }

    /// Whether a transcript is corrected.
    pub fn corrects(&self, transcript: &str) -> (r: bool)
        ensures
            r == (self.do_correct && transcript@.len() > 0),
    {
        self.do_correct && !transcript.is_empty()
    }

    /// How a text reaches the focused application.
    pub open spec fn route_of(&self, text: Seq<char>) -> Route {
        if text.len() == 0 {
            Route::Nothing
        } else if !self.is_clipboard && !self.already_typed {
            Route::TypeOrPaste
        } else if self.already_typed {
            Route::Typed
        } else {
            Route::Clipboard
        }
    }

    /// How a text reaches the focused application.
    pub fn route(&self, text: &str) -> (r: Route)
        ensures
            r == self.route_of(text@),
    {
        if text.is_empty() {
            Route::Nothing
        } else if !self.is_clipboard && !self.already_typed {
            Route::TypeOrPaste
        } else if self.already_typed {
            Route::Typed
        } else {
            Route::Clipboard
        }
    }

    /// Whether a text reached the focused application, where `typed` says whether the input method
    /// took it.
    pub open spec fn delivered(&self, text: Seq<char>, typed: bool) -> bool {
        match self.route_of(text) {
            Route::Typed => true,
            Route::TypeOrPaste => typed || self.auto_paste,
            _ => false,
        }
    }

    /// How long a corrected text stays visible: longer for more words, within the limit.
    pub open spec fn hold(&self, text: Seq<char>) -> int {
        if self.do_correct && text.len() > 0 {
            let long = 800 + 100 * text::words(text).len();
            if long < self.correct_hold_ms {
                long as int
            } else {
                self.correct_hold_ms as int
            }
        } else {
            0
        }
    }

    /// What is done at the end of a recording.
    pub open spec fn ending_of(&self, text: Seq<char>, typed: bool) -> Ending {
        Ending {
            paste: self.route_of(text) == Route::TypeOrPaste && !typed && self.auto_paste,
            press_enter: self.enter_after && !self.is_clipboard && text.len() > 0,
            hold_ms: self.hold(text) as u64,
            done: if text.len() == 0 {
                DoneKind::Dismissed
            } else if self.delivered(text, typed) {
                DoneKind::Delivered
            } else {
                DoneKind::Copied
            },
        }
    }

    /// What is done at the end of a recording, given the text and whether the input method took
    /// it.
    pub fn ending(&self, text: &str, typed: bool) -> (r: Ending)
        ensures
            r == self.ending_of(text@, typed),
    {
        let route: Route = self.route(text);
        let delivered: bool = match route {
            Route::Typed => true,
            Route::TypeOrPaste => typed || self.auto_paste,
            _ => false,
        };
        let paste: bool = match route {
            Route::TypeOrPaste => !typed && self.auto_paste,
            _ => false,
        };
        let hold_ms: u64 = if self.do_correct && !text.is_empty() {
            let words: Vec<String> = split_whitespace(text);
            assert(text::views(words@).len() == words@.len());
            let long: u128 = 800 + 100 * words.len() as u128;
            if long < self.correct_hold_ms as u128 {
                long as u64
            } else {
                self.correct_hold_ms
            }
        } else {
            0
        };
        let done: DoneKind = if text.is_empty() {
            DoneKind::Dismissed
        } else if delivered {
            DoneKind::Delivered
        } else {
            DoneKind::Copied
        };
        Ending {
            paste,
            press_enter: self.enter_after && !self.is_clipboard && !text.is_empty(),
            hold_ms,
            done,
        }
    }
}

impl Finish {
    /// Whether the input method was given a text and did not take it, so that it is pasted or stays
    /// on the clipboard.
    pub open spec fn falls_back(&self, text: Seq<char>, typed: bool) -> bool {
        self.route_of(text) == Route::TypeOrPaste && !typed
    }

    /// What the user is told, given the text, whether the input method took it and whether there is
    /// a keyboard to paste with: wherever the input method did not take it, that the text was pasted
    /// or that it is only on the clipboard.
    pub fn toast(&self, text: &str, typed: bool, keyboard: bool) -> (r: Option<&'static str>)
        ensures
            match r {
                Some(m) => self.falls_back(text@, typed) && m@ == output::toast_of(
                    self.auto_paste && keyboard,
                ),
                None => !self.falls_back(text@, typed),
            },
    {
        match self.route(text) {
            Route::TypeOrPaste => if typed {
                None
            } else {
                Some(paste_toast(self.auto_paste && keyboard))
            },
            _ => None,
        }
    }
}

/// The text of a transcript: the corrected one, or the transcript itself where it was not corrected
/// or that failed.
pub fn final_text(transcript: &str, corrected: Option<String>) -> (r: String)
    ensures
        r@ == match corrected {
            Some(c) => c@,
            None => transcript@,
        },
{
    match corrected {
        Some(c) => c,
        None => transcript.to_owned(),
    }
}

/// What is inserted for a text: a space goes behind it, so that dictations do not run together. A
/// space before it would break indentation at the start of a line.
pub fn insertion(text: &str) -> (r: String)
    ensures
        r@ == text@ + " "@,
{
    text.to_owned().concat(" ")
}

/// In clipboard mode nothing is ever pressed, and nothing counts as delivered but what the input
/// method had already taken.
pub proof fn law_clipboard_mode_presses_nothing(f: Finish, text: Seq<char>, typed: bool)
    requires
        f.is_clipboard,
    ensures
        !f.ending_of(text, typed).paste,
        !f.ending_of(text, typed).press_enter,
        !f.already_typed ==> f.ending_of(text, typed).done != DoneKind::Delivered,
{
}

/// An empty transcript leaves no trace: nothing is pressed, nothing is waited for, and the circle
/// goes without a sign.
pub proof fn law_silence_leaves_no_trace(f: Finish, typed: bool)
    ensures
        f.ending_of(Seq::empty(), typed) == (Ending {
            paste: false,
            press_enter: false,
            hold_ms: 0,
            done: DoneKind::Dismissed,
        }),
{
}

/// The chord is pressed only where the input method did not take the text, so that no text is
/// inserted twice; and what is shown as delivered was typed or pasted.
pub proof fn law_text_is_inserted_once(f: Finish, text: Seq<char>, typed: bool)
    ensures
        f.ending_of(text, typed).paste ==> !typed && !f.already_typed,
        f.ending_of(text, typed).done == DoneKind::Delivered ==> f.already_typed || typed
            || f.ending_of(text, typed).paste,
{
}

/// The user is told of the fallback whether or not the chord is pressed, and what the user is told
/// is what is done with the keyboard there is.
pub proof fn law_fallback_tells_the_user(f: Finish, text: Seq<char>, typed: bool, keyboard: bool)
    requires
        text.len() > 0,
        !f.is_clipboard,
        !f.already_typed,
        !typed,
    ensures
        f.falls_back(text, typed),
        output::toast_of(f.auto_paste && keyboard) == output::toast_of(
            f.ending_of(text, typed).paste && keyboard,
        ),
        output::toast_of(true) != output::toast_of(false),
{
    reveal_strlit("pasted");
    reveal_strlit("copied to clipboard");
    assert("pasted"@.len() != "copied to clipboard"@.len());
}

/// The corrected text is never held longer than the limit, and a limit of 0 means not at all.
pub proof fn law_hold_is_limited(f: Finish, text: Seq<char>, typed: bool)
    ensures
        f.ending_of(text, typed).hold_ms <= f.correct_hold_ms,
{
}

// ---------------------------------------------------------------------------------------------
// Captures

/// What becomes of a capture.
#[derive(Clone, Copy, PartialEq, Eq, Structural)]
pub enum Capture {
    /// It is silence: nothing is uploaded.
    Silent,
    /// It is transcribed; so long it is.
    Spoken { duration_ms: u64 },
}

/// What becomes of a capture. A provider would reject silence, so that it is dropped here.
pub fn judge_capture(samples: &[i16], sample_rate: u32) -> (r: Capture)
    requires
        samples@.len() * 1000 <= u64::MAX,
    ensures
        r == (if audio::silent(samples@) {
            Capture::Silent
        } else if sample_rate == 0 {
            Capture::Spoken { duration_ms: 0 }
        } else {
            Capture::Spoken {
                duration_ms: (samples@.len() * 1000 / sample_rate as nat) as u64,
            }
        }),
{
    if is_silent(samples) {
        Capture::Silent
    } else if sample_rate == 0 {
        Capture::Spoken { duration_ms: 0 }
    } else {
        Capture::Spoken { duration_ms: samples.len() as u64 * 1000 / sample_rate as u64 }
    }
}

// ---------------------------------------------------------------------------------------------
// Transcription with retries

/// A transcription service.
#[derive(Clone, Copy, PartialEq, Eq, Structural)]
pub enum Backend {
    AssemblyAi,
    Deepgram,
    Groq,
    Fireworks,
}

/// The service that transcribes files for a provider.
pub open spec fn file_backend_of(provider: Seq<char>) -> Backend {
    if provider == "assemblyai"@ {
        Backend::AssemblyAi
    } else if provider == "groq"@ {
        Backend::Groq
    } else if provider == "fireworks"@ {
        Backend::Fireworks
    } else {
        Backend::Deepgram
    }
}

/// The service that transcribes files for a provider.
pub fn file_backend(provider: &str) -> (r: Backend)
    ensures
        r == file_backend_of(provider@),
{
    if same(provider, "assemblyai") {
        Backend::AssemblyAi
    } else if same(provider, "groq") {
        Backend::Groq
    } else if same(provider, "fireworks") {
        Backend::Fireworks
    } else {
        Backend::Deepgram
    }
}

/// The service that transcribes streams for a provider. Groq does not.
pub fn live_backend(provider: &str) -> (r: Backend)
    ensures
        r == (if provider@ == "assemblyai"@ {
            Backend::AssemblyAi
        } else if provider@ == "fireworks"@ {
            Backend::Fireworks
        } else {
            Backend::Deepgram
        }),
{
    if same(provider, "assemblyai") {
        Backend::AssemblyAi
    } else if same(provider, "fireworks") {
        Backend::Fireworks
    } else {
        Backend::Deepgram
    }
}

/// How often a transcription is tried.
pub const MAX_ATTEMPTS: u32 = 3;

/// The pause before an attempt, in milliseconds, doubling from the second one on: the attempts are
/// counted from 0.
pub open spec fn backoff_ms(attempt: int) -> int {
    if attempt == 1 {
        1000
    } else if attempt == 2 {
        2000
    } else {
        0
    }
}

/// What follows an attempt.
pub enum RetryStep {
    Done(String),
    /// Wait for so many milliseconds, then make this attempt.
    Again { attempt: u32, delay_ms: u64 },
    /// Give up with the last error.
    GiveUp(String),
}

/// What follows attempt number `attempt`, by its result: a transcript is taken at once, and the
/// last error is final.
pub fn after_attempt(attempt: u32, result: Result<String, String>) -> (r: RetryStep)
    requires
        attempt < MAX_ATTEMPTS,
    ensures
        match result {
            Ok(t) => r == RetryStep::Done(t),
            Err(e) => if attempt + 1 < MAX_ATTEMPTS {
                r == (RetryStep::Again {
                    attempt: (attempt + 1) as u32,
                    delay_ms: backoff_ms(attempt + 1) as u64,
                })
            } else {
                r == RetryStep::GiveUp(e)
            },
        },
{
    match result {
        Ok(t) => RetryStep::Done(t),
        Err(e) => if attempt + 1 < MAX_ATTEMPTS {
            let delay_ms: u64 = if attempt == 0 {
                1000
            } else {
                2000
            };
            RetryStep::Again { attempt: attempt + 1, delay_ms }
        } else {
            RetryStep::GiveUp(e)
        },
    }
}

/// A transcript as it is used: without filler words where they are to be removed.
pub fn polished(transcript: String, remove_fillers: bool) -> (r: String)
    ensures
        r@ == (if remove_fillers { fillers::stripped(transcript@) } else { transcript@ }),
{
    if remove_fillers {
        strip_fillers(transcript.as_str())
    } else {
        transcript
    }
}

// ---------------------------------------------------------------------------------------------
// Estimates

/// What an estimate reads of an earlier recording.
pub struct HistRow {
    pub mode: String,
    pub model: String,
    pub duration_ms: u64,
    pub latency_ms: u64,
}

/// An estimate looks at so many recordings.
pub const MAX_SAMPLES: usize = 20;

/// Whether a recording tells how long `provider` takes for a file.
pub open spec fn telling(row: HistRow, provider: Seq<char>) -> bool {
    &&& row.mode@ == "batch"@
    &&& row.latency_ms != 0
    &&& config::provider_of(row.model@) == provider
}

/// The lengths and latencies of the last `limit` recordings that tell, the latest first.
pub open spec fn last_telling(rows: Seq<HistRow>, provider: Seq<char>, limit: int) -> Seq<
    (u64, u64),
>
    decreases rows.len(),
{
    if rows.len() == 0 || limit <= 0 {
        Seq::empty()
    } else if telling(rows.last(), provider) {
        seq![(rows.last().duration_ms, rows.last().latency_ms)] + last_telling(
            rows.drop_last(),
            provider,
            limit - 1,
        )
    } else {
        last_telling(rows.drop_last(), provider, limit)
    }
}

/// What an estimate for `provider` rests on: the lengths and latencies of the last recordings that
/// tell. `None` where there are fewer than two.
pub fn eta_samples(rows: &[HistRow], provider: &str) -> (r: Option<Vec<(u64, u64)>>)
    ensures
        ({
            let all = last_telling(rows@, provider@, MAX_SAMPLES as int);
            match r {
                Some(v) => v@ == all && all.len() >= 2,
                None => all.len() < 2,
            }
        }),
{
    let mut v: Vec<(u64, u64)> = Vec::new();
    let mut i: usize = rows.len();
    assert(rows@.take(i as int) =~= rows@);
    assert(v@ + last_telling(rows@, provider@, MAX_SAMPLES as int) =~= last_telling(
        rows@,
        provider@,
        MAX_SAMPLES as int,
    ));
    while i > 0 && v.len() < MAX_SAMPLES
        invariant
            i <= rows@.len(),
            v@.len() <= MAX_SAMPLES,
            v@ + last_telling(rows@.take(i as int), provider@, MAX_SAMPLES - v@.len())
                == last_telling(rows@, provider@, MAX_SAMPLES as int),
        decreases i,
    {
        let ghost before = v@;
        let row: &HistRow = &rows[i - 1];
        proof {
            assert(rows@.take(i as int).drop_last() =~= rows@.take(i - 1));
            assert(rows@.take(i as int).last() == rows@[i - 1]);
        }
        if same(row.mode.as_str(), "batch") && row.latency_ms != 0 && same(
            parse_provider_model(row.model.as_str()).0,
            provider,
        ) {
            v.push((row.duration_ms, row.latency_ms));
            proof {
                let rest = last_telling(
                    rows@.take(i - 1),
                    provider@,
                    MAX_SAMPLES - before.len() - 1,
                );
                assert(v@ + rest =~= before + (seq![(row.duration_ms, row.latency_ms)] + rest));
            }
        }
        i -= 1;
    }
    assert(v@ =~= last_telling(rows@, provider@, MAX_SAMPLES as int));
    if v.len() < 2 {
        None
    } else {
        Some(v)
    }
}

/// Text goes where the settings send it. On the clipboard it stays there. Otherwise it is typed, and
/// what nothing typed is pasted where that is allowed. Enter follows it where that is wanted, and
/// never on the clipboard.
pub proof fn law_text_goes_where_it_is_wanted(f: Finish, text: Seq<char>, typed: bool)
    requires
        text.len() > 0,
    ensures
        f.is_clipboard && !f.already_typed ==> f.route_of(text) == Route::Clipboard,
        f.already_typed ==> f.route_of(text) == Route::Typed,
        !f.is_clipboard && !f.already_typed ==> f.route_of(text) == Route::TypeOrPaste,
        f.ending_of(text, typed).paste == (!f.is_clipboard && !f.already_typed && !typed
            && f.auto_paste),
        f.ending_of(text, typed).press_enter == (f.enter_after && !f.is_clipboard),
        f.ending_of(text, typed).done == DoneKind::Delivered <==> f.already_typed || (
        !f.is_clipboard && (typed || f.auto_paste)),
        f.ending_of(text, typed).done != DoneKind::Delivered ==> f.ending_of(text, typed).done
            == DoneKind::Copied,
        f.falls_back(text, typed) == (!f.is_clipboard && !f.already_typed && !typed),
{
}

/// Corrected text stays visible for as long as reading it takes, up to the limit: for the time of
/// an empty text, 800 ms, and 100 ms for each word. What was not corrected is not held.
pub proof fn law_longer_text_stays_longer(f: Finish, text: Seq<char>, typed: bool)
    requires
        text.len() > 0,
    ensures
        ({
            let wanted = 800 + 100 * text::words(text).len();
            let held = f.ending_of(text, typed).hold_ms;
            &&& f.do_correct && wanted <= f.correct_hold_ms ==> held == wanted
            &&& f.do_correct && wanted > f.correct_hold_ms ==> held == f.correct_hold_ms
            &&& !f.do_correct ==> held == 0
        }),
{
}

/// Each wait before another attempt is twice the wait before it, and the first is a second. There
/// are three attempts in all, so there are two waits.
pub proof fn law_waits_double(attempt: int)
    ensures
        MAX_ATTEMPTS == 3,
        backoff_ms(1) == 1000,
        1 <= attempt && attempt + 1 < MAX_ATTEMPTS ==> backoff_ms(attempt + 1) == 2 * backoff_ms(
            attempt,
        ),
        1 <= attempt < MAX_ATTEMPTS <==> backoff_ms(attempt) > 0,
{
}

/// A recording goes to the provider whose name is given, and to no other. What has no name of its
/// own here goes to Deepgram.
pub proof fn law_backend_is_the_one_named(provider: Seq<char>)
    ensures
        file_backend_of(provider) == Backend::AssemblyAi <==> provider == "assemblyai"@,
        file_backend_of(provider) == Backend::Groq <==> provider == "groq"@,
        file_backend_of(provider) == Backend::Fireworks <==> provider == "fireworks"@,
        provider == "deepgram"@ ==> file_backend_of(provider) == Backend::Deepgram,
{
    reveal_strlit("assemblyai");
    reveal_strlit("groq");
    reveal_strlit("fireworks");
    reveal_strlit("deepgram");
    assert("assemblyai"@.len() == 10 && "groq"@.len() == 4 && "fireworks"@.len() == 9
        && "deepgram"@.len() == 8);
}

/// The rows that an estimate is made from are the latest ones, the latest first, among those of a
/// recording that was transcribed as a whole by this provider and took some time. No such row is
/// passed over for an older one, and there are as many of them as there can be.
pub proof fn law_estimates_come_from_the_latest(rows: Seq<HistRow>, provider: Seq<char>, limit: int)
    requires
        limit >= 0,
    ensures
        ({
            let all = rows.filter(
                |r: HistRow|
                    r.mode@ == "batch"@ && r.latency_ms > 0 && config::provider_of(r.model@)
                        == provider,
            );
            let some = last_telling(rows, provider, limit);
            &&& some.len() == (if all.len() < limit { all.len() as int } else { limit })
            &&& forall|k: int|
                0 <= k < some.len() ==> #[trigger] some[k] == (
                    all[all.len() - 1 - k].duration_ms,
                    all[all.len() - 1 - k].latency_ms,
                )
        }),
        MAX_SAMPLES == 20,
    decreases rows.len(),
{
    reveal(Seq::filter);
    if rows.len() > 0 && limit > 0 {
        if telling(rows.last(), provider) {
            law_estimates_come_from_the_latest(rows.drop_last(), provider, limit - 1);
        } else {
            law_estimates_come_from_the_latest(rows.drop_last(), provider, limit);
        }
    }
}

} // verus!
