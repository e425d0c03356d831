//! Transcription by AssemblyAI.

use crate::asr;
use crate::asr::{get_string, refusal, ReplyError};
use crate::config::AUTO_LANG;
use crate::json;
use crate::state;
use crate::text;
use crate::text::{is_whitespace, same};
use crate::transcript;
use crate::transcript::TranscriptEvent;
use vstd::prelude::*;

verus! {

/// Universal-Streaming wants mono samples at this rate.
pub const STREAM_RATE: u32 = 16000;

/// The model that streams the European languages.
pub const STREAM_MODEL: &'static str = "u3-rt-pro";

/// Audio is sent from about 100 ms on.
pub const MIN_SEND_BYTES: usize = 3200;

/// A tail under 50 ms is never sent.
pub const FLUSH_MIN_BYTES: usize = 1600;

/// The message that asks to finish the turn and close the session.
pub const CLOSING: &'static str = "{\"type\":\"Terminate\"}";

/// The host of the streaming service.
pub const STREAM_HOST: &'static str = "streaming.assemblyai.com";

/// The address that files are uploaded to.
pub const UPLOAD_URL: &'static str = "https://api.assemblyai.com/v2/upload";

/// The address that jobs are submitted to.
pub const SUBMIT_URL: &'static str = "https://api.assemblyai.com/v2/transcript";

/// The model that streams for a picked one: whisper-rt streams about 99 languages, the default
/// fewer with higher accuracy.
pub open spec fn stream_model(model: Seq<char>) -> Seq<char> {
    if model == "whisper-rt"@ {
        "whisper-rt"@
    } else {
        STREAM_MODEL@
    }
}

/// The address of a stream.
pub fn stream_url(model: &str) -> (r: String)
    ensures
        r@ == "wss://streaming.assemblyai.com/v3/ws?sample_rate=16000&encoding=pcm_s16le&speech_model="@
            + stream_model(model@) + "&format_turns=true"@,
{
    let speech_model: &str = if same(model, "whisper-rt") {
        "whisper-rt"
    } else {
        STREAM_MODEL
    };
    "wss://streaming.assemblyai.com/v3/ws?sample_rate=16000&encoding=pcm_s16le&speech_model=".to_owned().concat(
    speech_model).concat("&format_turns=true")
}

// ---------------------------------------------------------------------------------------------
// Sending

/// Audio on its way to the service. Each message must carry 50 to 1000 ms, so that what the
/// microphone delivers is gathered first.
pub struct AudioBuffer {
    pub bytes: Vec<u8>,
}

/// The message that is sent when `data` comes to the audio that is held, once there is enough, and
/// what is held then.
pub open spec fn taken_in(held: Seq<u8>, data: Seq<u8>) -> (Option<Seq<u8>>, Seq<u8>) {
    let all = held + data;
    if all.len() >= MIN_SEND_BYTES {
        (Some(all), Seq::empty())
    } else {
        (None, all)
    }
}

impl AudioBuffer {
    /// An empty buffer.
    pub fn new() -> (r: AudioBuffer)
        ensures
            r.bytes@ == Seq::<u8>::empty(),
    {
        AudioBuffer { bytes: Vec::new() }
    }

    /// Takes in audio. Returns a message once enough is gathered.
    pub fn push(&mut self, data: Vec<u8>) -> (r: Option<Vec<u8>>)
        ensures
            ({
                let (message, held) = taken_in(old(self).bytes@, data@);
                &&& r is Some == message is Some
                &&& r is Some ==> r->0@ == message->0
                &&& final(self).bytes@ == held
            }),
    {
        let mut data: Vec<u8> = data;
        self.bytes.append(&mut data);
        if self.bytes.len() >= MIN_SEND_BYTES {
            let mut message: Vec<u8> = Vec::new();
            std::mem::swap(&mut message, &mut self.bytes);
            Some(message)
        } else {
            None
        }
    }

    /// The last message, unless too little is left.
    pub fn finish(self) -> (r: Option<Vec<u8>>)
        ensures
            match r {
                Some(m) => m@ == self.bytes@ && self.bytes@.len() >= FLUSH_MIN_BYTES,
                None => self.bytes@.len() < FLUSH_MIN_BYTES,
            },
    {
        if self.bytes.len() >= FLUSH_MIN_BYTES {
            Some(self.bytes)
        } else {
            None
        }
    }
}

/// The messages that the buffer makes of the pieces, and what it still holds.
pub open spec fn gathered(pieces: Seq<Seq<u8>>) -> (Seq<Seq<u8>>, Seq<u8>)
    decreases pieces.len(),
{
    if pieces.len() == 0 {
        (Seq::empty(), Seq::empty())
    } else {
        let (sent, held) = gathered(pieces.drop_last());
        let (message, rest) = taken_in(held, pieces.last());
        match message {
            Some(m) => (sent.push(m), rest),
            None => (sent, rest),
        }
    }
}

/// No audio is lost or reordered on its way: what was sent and what is still held are together what
/// was taken in. Every message is long enough, and what is held is too short to be one.
pub proof fn law_audio_is_kept_in_order(pieces: Seq<Seq<u8>>)
    ensures
        gathered(pieces).0.flatten() + gathered(pieces).1 == pieces.flatten(),
        forall|i: int|
            0 <= i < gathered(pieces).0.len() ==> (#[trigger] gathered(pieces).0[i]).len()
                >= MIN_SEND_BYTES,
        gathered(pieces).1.len() < MIN_SEND_BYTES,
    decreases pieces.len(),
{
    if pieces.len() == 0 {
        assert(pieces =~= Seq::<Seq<u8>>::empty());
        assert(pieces.flatten() =~= Seq::<u8>::empty());
        assert(gathered(pieces).0.flatten() =~= Seq::<u8>::empty());
    } else {
        let init = pieces.drop_last();
        let (sent, held) = gathered(init);
        let all = held + pieces.last();
        law_audio_is_kept_in_order(init);
        pieces.lemma_flatten_and_flatten_alt_are_equivalent();
        init.lemma_flatten_and_flatten_alt_are_equivalent();
        assert(pieces.flatten() == init.flatten() + pieces.last());
        if all.len() >= MIN_SEND_BYTES {
            let more = sent.push(all);
            more.lemma_flatten_and_flatten_alt_are_equivalent();
            sent.lemma_flatten_and_flatten_alt_are_equivalent();
            assert(more.drop_last() =~= sent);
            assert(more.flatten() =~= sent.flatten() + all);
            assert(more.flatten() + Seq::<u8>::empty() =~= pieces.flatten());
        } else {
            assert(sent.flatten() + all =~= pieces.flatten());
        }
    }
}

// ---------------------------------------------------------------------------------------------
// Receiving

/// A message of the stream.
pub struct TurnMessage {
    pub msg_type: String,
    pub transcript: String,
    pub end_of_turn: bool,
    pub turn_is_formatted: bool,
    pub error: Option<String>,
}

/// What a message leads to.
pub ghost struct Received {
    /// The final text after it.
    pub finalized: Seq<char>,
    pub event: Option<transcript::EventView>,
    /// Whether the stream is over.
    pub over: bool,
}

/// The part that a finished turn adds to the text: with a space before it where there is text and
/// the turn does not begin with one.
pub open spec fn turn_delta(finalized: Seq<char>, turn: Seq<char>) -> Seq<char> {
    if finalized.len() > 0 && !(turn.len() > 0 && text::is_white(turn[0])) {
        " "@ + turn
    } else {
        turn
    }
}

/// What a message leads to, where `finalized` is the final text so far. Each turn arrives first
/// unformatted and again formatted when it ends: only the formatted one is final, so that no turn
/// is typed twice. An error ends the stream.
pub open spec fn received(finalized: Seq<char>, m: TurnMessage) -> Received {
    if m.error is Some {
        Received { finalized, event: None, over: true }
    } else if m.msg_type@ == "Turn"@ {
        if m.transcript@.len() == 0 {
            Received { finalized, event: None, over: false }
        } else if m.end_of_turn && m.turn_is_formatted {
            let delta = turn_delta(finalized, m.transcript@);
            Received {
                finalized: finalized + delta,
                event: Some(
                    transcript::EventView::Final { delta, accumulated: finalized + delta },
                ),
                over: false,
            }
        } else {
            Received {
                finalized,
                event: Some(transcript::EventView::Interim(m.transcript@)),
                over: false,
            }
        }
    } else {
        Received { finalized, event: None, over: m.msg_type@ == "Termination"@ }
    }
}

/// The receiving end of a stream.
pub struct Stream {
    /// The final text so far.
    pub finalized: String,
}

fn starts_white(s: &str) -> (r: bool)
    ensures
        r == (s@.len() > 0 && text::is_white(s@[0])),
{
    !s.is_empty() && is_whitespace(s.get_char(0))
}

impl Stream {
    /// A stream before its first message.
    pub fn new() -> (r: Stream)
        ensures
            r.finalized@ == Seq::<char>::empty(),
    {
        let r: Stream = Stream { finalized: String::new() };
        assert(r.finalized@ =~= Seq::<char>::empty());
        r
    }

    /// Takes in a message. Returns the event it gives rise to and whether the stream is over.
    pub fn message(&mut self, m: TurnMessage) -> (out: (Option<TranscriptEvent>, bool))
        ensures
            ({
                let expected = received(old(self).finalized@, m);
                &&& final(self).finalized@ == expected.finalized
                &&& transcript::event_view(out.0) == expected.event
                &&& out.1 == expected.over
            }),
    {
        if m.error.is_some() {
            return (None, true);
        }
        if same(m.msg_type.as_str(), "Turn") {
            if m.transcript.as_str().is_empty() {
                return (None, false);
            }
            if !(m.end_of_turn && m.turn_is_formatted) {
                return (Some(TranscriptEvent::Interim(m.transcript)), false);
            }
            let delta: String = if !self.finalized.as_str().is_empty() && !starts_white(
                m.transcript.as_str(),
            ) {
                " ".to_owned().concat(m.transcript.as_str())
            } else {
                m.transcript
            };
            self.finalized.append(delta.as_str());
            return (
                Some(TranscriptEvent::Final { delta, accumulated: self.finalized.clone() }),
                false,
            );
        }
        (None, same(m.msg_type.as_str(), "Termination"))
    }
}

/// What is shown as accumulated after a turn is what was there before with the turn's part behind
/// it, and turns are never run together: there is white space between two of them.
pub proof fn law_turns_are_separated(finalized: Seq<char>, m: TurnMessage)
    requires
        m.error is None,
        m.msg_type@ == "Turn"@,
        m.transcript@.len() > 0,
        m.end_of_turn,
        m.turn_is_formatted,
    ensures
        finalized.is_prefix_of(received(finalized, m).finalized),
        m.transcript@.is_suffix_of(received(finalized, m).finalized),
        finalized.len() > 0 ==> text::is_white(
            received(finalized, m).finalized[finalized.len() as int],
        ),
{
    reveal_strlit(" ");
    let all = received(finalized, m).finalized;
    let t = m.transcript@;
    assert(finalized =~= all.subrange(0, finalized.len() as int));
    assert(t =~= all.subrange(all.len() - t.len(), all.len() as int));
}

// ---------------------------------------------------------------------------------------------
// Files: upload, submit a job, poll

/// The address of an uploaded file, or what is missing.
pub open spec fn uploaded_to(upload_url: Option<Seq<char>>) -> Result<Seq<char>, Seq<char>> {
    match upload_url {
        Some(u) => Ok(u),
        None => Err("AssemblyAI: no upload_url in response"@),
    }
}

/// The address of an uploaded file, given what the reply holds under "upload_url".
pub fn settle_upload(upload_url: Option<String>) -> (r: Result<String, String>)
    ensures
        asr::settled(r) == uploaded_to(state::opt_view(upload_url)),
{
    match upload_url {
        Some(u) => Ok(u),
        None => Err("AssemblyAI: no upload_url in response".to_owned()),
    }
}

/// Reads the reply to an upload.
pub fn read_upload(reply: &str) -> (r: Result<String, ReplyError>)
    ensures
        asr::came_of(r) == match json::parsed(reply@) {
            Some(j) => Some(uploaded_to(asr::string_field(j, "upload_url"@))),
            None => None,
        },
{
    match json::parse(reply) {
        Ok(v) => refusal(settle_upload(get_string(&v, "upload_url"))),
        Err(e) => Err(ReplyError::Malformed(e)),
    }
}

/// How the language of a job is found: it is given, or detected, among the preferred ones where
/// there are any.
pub open spec fn with_language(
    job: Map<Seq<char>, json::Json>,
    lang: Seq<char>,
    expected: Seq<Seq<char>>,
) -> Map<Seq<char>, json::Json> {
    if lang != AUTO_LANG@ {
        job.insert("language_code"@, json::Json::Str(lang))
    } else {
        let detecting = job.insert("language_detection"@, json::Json::Bool(true));
        if expected.len() == 0 {
            detecting
        } else {
            detecting.insert(
                "language_detection_options"@,
                json::Json::Object(detection_options(expected)),
            )
        }
    }
}

/// A list of strings.
pub open spec fn string_list(list: Seq<Seq<char>>) -> json::Json {
    json::Json::Array(Seq::new(list.len(), |i: int| json::Json::Str(list[i])))
}

/// The body of a job: the file, its language, the vocabulary that recognition is biased toward,
/// and that filler words are left out.
pub open spec fn job(
    audio_url: Seq<char>,
    lang: Seq<char>,
    expected: Seq<Seq<char>>,
    vocabulary: Seq<Seq<char>>,
    remove_fillers: bool,
) -> Map<Seq<char>, json::Json> {
    let file = Map::<Seq<char>, json::Json>::empty().insert(
        "audio_url"@,
        json::Json::Str(audio_url),
    );
    let spoken = with_language(file, lang, expected);
    let biased = if vocabulary.len() > 0 {
        spoken.insert("keyterms_prompt"@, string_list(vocabulary))
    } else {
        spoken
    };
    if remove_fillers {
        biased.insert("disfluencies"@, json::Json::Bool(false))
    } else {
        biased
    }
}

/// How detection is restricted to the preferred languages: where it is uncertain, the most
/// confident among them is taken.
pub open spec fn detection_options(expected: Seq<Seq<char>>) -> Map<Seq<char>, json::Json> {
    Map::<Seq<char>, json::Json>::empty().insert(
        "expected_languages"@,
        string_list(expected),
    ).insert("fallback_language"@, json::Json::Str("auto"@))
}

proof fn lemma_string_list(list: Seq<String>)
    ensures
        json::Json::Array(Seq::new(list.len(), |i: int| json::Json::Str(text::views(list)[i])))
            == string_list(text::views(list)),
{
    assert(Seq::new(list.len(), |i: int| json::Json::Str(text::views(list)[i])) =~= Seq::new(
        text::views(list).len(),
        |i: int| json::Json::Str(text::views(list)[i]),
    ));
}

fn put_language(body: &mut serde_json::Value, lang: &str, expected: &[String])
    requires
        json::json_of(*old(body)) is Object,
    ensures
        json::json_of(*final(body)) == json::Json::Object(
            with_language(json::json_of(*old(body))->Object_0, lang@, text::views(expected@)),
        ),
{
    if !same(lang, AUTO_LANG) {
        json::put(body, "language_code", json::string(lang));
        return;
    }
    json::put(body, "language_detection", json::boolean(true));
    if !expected.is_empty() {
        let mut options: serde_json::Value = json::object();
        proof {
            assert(json::json_of(options)->Object_0 =~= Map::<Seq<char>, json::Json>::empty());
            lemma_string_list(expected@);
        }
        json::put(&mut options, "expected_languages", json::strings(expected));
        json::put(&mut options, "fallback_language", json::string("auto"));
        json::put(body, "language_detection_options", options);
    }
}

/// The body of a job.
pub fn job_body(
    audio_url: &str,
    lang: &str,
    expected: &[String],
    vocabulary: &[String],
    remove_fillers: bool,
) -> (r: serde_json::Value)
    ensures
        json::json_of(r) == json::Json::Object(
            job(
                audio_url@,
                lang@,
                text::views(expected@),
                text::views(vocabulary@),
                remove_fillers,
            ),
        ),
{
    let mut body: serde_json::Value = json::object();
    proof {
        assert(json::json_of(body)->Object_0 =~= Map::<Seq<char>, json::Json>::empty());
    }
    json::put(&mut body, "audio_url", json::string(audio_url));
    put_language(&mut body, lang, expected);
    if !vocabulary.is_empty() {
        proof {
            lemma_string_list(vocabulary@);
        }
        json::put(&mut body, "keyterms_prompt", json::strings(vocabulary));
    }
    if remove_fillers {
        json::put(&mut body, "disfluencies", json::boolean(false));
    }
    body
}

/// What comes of submitting a job: where it is polled, or why it was refused.
pub open spec fn submitted(error: Option<Seq<char>>, id: Option<Seq<char>>) -> Result<
    Seq<char>,
    Seq<char>,
> {
    match error {
        Some(e) => Err("AssemblyAI: "@ + e),
        None => match id {
            Some(i) => Ok("https://api.assemblyai.com/v2/transcript/"@ + i),
            None => Err("AssemblyAI: no transcript id in response"@),
        },
    }
}

/// Where a submitted job is polled, given what the reply holds under "error" and "id".
pub fn settle_submit(error: Option<String>, id: Option<String>) -> (r: Result<String, String>)
    ensures
        asr::settled(r) == submitted(state::opt_view(error), state::opt_view(id)),
{
    match error {
        Some(e) => Err("AssemblyAI: ".to_owned().concat(e.as_str())),
        None => match id {
            Some(i) => Ok(
                "https://api.assemblyai.com/v2/transcript/".to_owned().concat(i.as_str()),
            ),
            None => Err("AssemblyAI: no transcript id in response".to_owned()),
        },
    }
}

/// Reads the reply to a submitted job.
pub fn read_submit(reply: &str) -> (r: Result<String, ReplyError>)
    ensures
        asr::came_of(r) == match json::parsed(reply@) {
            Some(j) => Some(
                submitted(asr::string_field(j, "error"@), asr::string_field(j, "id"@)),
            ),
            None => None,
        },
{
    match json::parse(reply) {
        Ok(v) => refusal(settle_submit(get_string(&v, "error"), get_string(&v, "id"))),
        Err(e) => Err(ReplyError::Malformed(e)),
    }
}

/// How often a job is polled.
pub const MAX_POLLS: u32 = 120;

/// The pause before each poll.
pub const POLL_MS: u64 = 500;

/// What comes of a poll.
pub enum Poll {
    /// The transcript.
    Done(String),
    /// Why there will be none.
    Failed(String),
    /// The job is not done.
    Pending,
}

/// What comes of a poll.
pub ghost enum PollView {
    Done(Seq<char>),
    Failed(Seq<char>),
    Pending,
}

impl View for Poll {
    type V = PollView;

    open spec fn view(&self) -> PollView {
        match self {
            Poll::Done(t) => PollView::Done(t@),
            Poll::Failed(m) => PollView::Failed(m@),
            Poll::Pending => PollView::Pending,
        }
    }
}

/// What comes of a poll, by the reply's status.
pub open spec fn polled(
    status: Option<Seq<char>>,
    text: Option<Seq<char>>,
    error: Option<Seq<char>>,
) -> PollView {
    if status == Some("completed"@) {
        PollView::Done(
            match text {
                Some(t) => t,
                None => ""@,
            },
        )
    } else if status == Some("error"@) {
        PollView::Failed(
            "AssemblyAI: "@ + match error {
                Some(e) => e,
                None => "unknown"@,
            },
        )
    } else {
        PollView::Pending
    }
}

/// What comes of a poll, given what the reply holds under "status", "text" and "error".
pub fn settle_poll(
    status: Option<String>,
    text: Option<String>,
    error: Option<String>,
) -> (r: Poll)
    ensures
        r@ == polled(state::opt_view(status), state::opt_view(text), state::opt_view(error)),
{
    let (completed, failed): (bool, bool) = match status {
        Some(s) => (same(s.as_str(), "completed"), same(s.as_str(), "error")),
        None => (false, false),
    };
    if completed {
        Poll::Done(
            match text {
                Some(t) => t,
                None => "".to_owned(),
            },
        )
    } else if failed {
        let message: String = match error {
            Some(e) => e,
            None => "unknown".to_owned(),
        };
        Poll::Failed("AssemblyAI: ".to_owned().concat(message.as_str()))
    } else {
        Poll::Pending
    }
}

/// Reads the reply to a poll.
pub fn read_poll(reply: &str) -> (r: Result<Poll, ReplyError>)
    ensures
        match json::parsed(reply@) {
            Some(j) => r is Ok && r->Ok_0@ == polled(
                asr::string_field(j, "status"@),
                asr::string_field(j, "text"@),
                asr::string_field(j, "error"@),
            ),
            None => r is Err && r->Err_0 is Malformed,
        },
{
    match json::parse(reply) {
        Ok(v) => Ok(
            settle_poll(
                get_string(&v, "status"),
                get_string(&v, "text"),
                get_string(&v, "error"),
            ),
        ),
        Err(e) => Err(ReplyError::Malformed(e)),
    }
}

/// What follows a poll.
pub enum PollStep {
    /// The job is over.
    Finish(Result<String, String>),
    /// Wait and poll again: the polls so far.
    Again(u32),
}

/// What follows the poll after `polls` others: the job ends with its transcript or its error, and
/// is given up after the last poll.
pub fn after_poll(polls: u32, poll: Poll) -> (r: PollStep)
    requires
        polls < MAX_POLLS,
    ensures
        match poll@ {
            PollView::Done(t) => r is Finish && asr::settled(r->Finish_0) == Ok::<
                Seq<char>,
                Seq<char>,
            >(t),
            PollView::Failed(m) => r is Finish && asr::settled(r->Finish_0) == Err::<
                Seq<char>,
                Seq<char>,
            >(m),
            PollView::Pending => if polls + 1 < MAX_POLLS {
                r == PollStep::Again((polls + 1) as u32)
            } else {
                r is Finish && asr::settled(r->Finish_0) == Err::<Seq<char>, Seq<char>>(
                    "AssemblyAI: transcription timed out"@,
                )
            },
        },
{
    match poll {
        Poll::Done(t) => PollStep::Finish(Ok(t)),
        Poll::Failed(m) => PollStep::Finish(Err(m)),
        Poll::Pending => if polls + 1 < MAX_POLLS {
            PollStep::Again(polls + 1)
        } else {
            PollStep::Finish(Err("AssemblyAI: transcription timed out".to_owned()))
        },
    }
}

/// Only a turn that is over and formatted is kept: it goes behind the text, after a space unless it
/// begins with white space or is the first. Any other turn is shown and not kept; other messages do
/// nothing; and the stream is over with an error or when the service says so.
pub proof fn law_only_finished_turns_are_kept(finalized: Seq<char>, m: TurnMessage)
    ensures
        ({
            let r = received(finalized, m);
            let t = m.transcript@;
            let speaks = m.error is None && m.msg_type@ == "Turn"@ && t.len() > 0;
            let ends = speaks && m.end_of_turn && m.turn_is_formatted;
            &&& r.finalized == (if !ends {
                finalized
            } else if finalized.len() == 0 || text::is_white(t[0]) {
                finalized + t
            } else {
                finalized + " "@ + t
            })
            &&& ends ==> r.event == Some(
                transcript::EventView::Final {
                    delta: r.finalized.skip(finalized.len() as int),
                    accumulated: r.finalized,
                },
            )
            &&& speaks && !ends ==> r.event == Some(transcript::EventView::Interim(t))
            &&& !speaks ==> r.event is None
            &&& r.over <==> m.error is Some || m.msg_type@ == "Termination"@
        }),
{
    reveal_strlit("Turn");
    reveal_strlit("Termination");
    assert("Turn"@.len() == 4 && "Termination"@.len() == 11);
    let t = m.transcript@;
    let d = turn_delta(finalized, t);
    assert((finalized + d).skip(finalized.len() as int) =~= d);
    assert(finalized + (" "@ + t) =~= finalized + " "@ + t);
}

/// The text after messages.
pub open spec fn finalized_after(ms: Seq<TurnMessage>) -> Seq<char>
    decreases ms.len(),
{
    if ms.len() == 0 {
        Seq::empty()
    } else {
        received(finalized_after(ms.drop_last()), ms.last()).finalized
    }
}

/// The turns among messages that are over and formatted, in order.
pub open spec fn finished_turns(ms: Seq<TurnMessage>) -> Seq<Seq<char>>
    decreases ms.len(),
{
    if ms.len() == 0 {
        Seq::empty()
    } else {
        let m = ms.last();
        let before = finished_turns(ms.drop_last());
        if m.error is None && m.msg_type@ == "Turn"@ && m.transcript@.len() > 0 && m.end_of_turn
            && m.turn_is_formatted {
            before.push(m.transcript@)
        } else {
            before
        }
    }
}

/// Over a whole stream the text is made of exactly the finished turns, in order, with one space
/// between two of them where none begins with white space.
pub proof fn law_text_is_the_finished_turns(ms: Seq<TurnMessage>)
    requires
        forall|i: int|
            0 <= i < ms.len() && ms[i].transcript@.len() > 0 ==> !text::is_white(
                (#[trigger] ms[i]).transcript@[0],
            ),
    ensures
        finalized_after(ms) == text::join(finished_turns(ms), " "@),
        finalized_after(ms).len() > 0 <==> finished_turns(ms).len() > 0,
    decreases ms.len(),
{
    if ms.len() > 0 {
        let front = ms.drop_last();
        assert forall|i: int| 0 <= i < front.len() && front[i].transcript@.len() > 0 implies
            !text::is_white((#[trigger] front[i]).transcript@[0]) by {
            assert(front[i] == ms[i]);
        }
        law_text_is_the_finished_turns(front);
        let m = ms[ms.len() - 1];
        law_only_finished_turns_are_kept(finalized_after(front), m);
        let before = finished_turns(front);
        let all = finished_turns(ms);
        if all.len() > before.len() {
            assert(all.drop_last() =~= before);
            assert(finalized_after(ms) =~= text::join(all, " "@));
        }
    }
}

/// Audio is sent once there are 3200 bytes of it, 100 ms, and held until then.
pub proof fn law_audio_is_sent_from_100_ms_on(held: Seq<u8>, data: Seq<u8>)
    ensures
        taken_in(held, data).0 is Some <==> held.len() + data.len() >= 3200,
        taken_in(held, data).0 is Some ==> taken_in(held, data).0->0 == held + data && taken_in(
            held,
            data,
        ).1.len() == 0,
        taken_in(held, data).0 is None ==> taken_in(held, data).1 == held + data,
        2 * FLUSH_MIN_BYTES == 3200,
{
}

/// The one model that streams more languages is asked for by its name, and by no other.
pub proof fn law_streaming_model(model: Seq<char>)
    ensures
        stream_model(model) == "whisper-rt"@ <==> model == "whisper-rt"@,
        model != "whisper-rt"@ ==> stream_model(model) == "u3-rt-pro"@,
{
    reveal_strlit("whisper-rt");
    reveal_strlit("u3-rt-pro");
    assert("whisper-rt"@.len() == 10 && "u3-rt-pro"@.len() == 9);
}

/// A job names the file and how its language is found: by the one that is given, or by detection
/// among the preferred ones. It says which terms to expect and that fillers are left out exactly
/// where there are any and that is wanted, and it says nothing else.
pub proof fn law_job_says_what_is_wanted(
    audio_url: Seq<char>,
    lang: Seq<char>,
    expected: Seq<Seq<char>>,
    vocabulary: Seq<Seq<char>>,
    remove_fillers: bool,
    key: Seq<char>,
)
    ensures
        ({
            let j = job(audio_url, lang, expected, vocabulary, remove_fillers);
            let options = j["language_detection_options"@];
            &&& j.dom().contains("audio_url"@) && j["audio_url"@] == json::Json::Str(audio_url)
            &&& j.dom().contains("language_code"@) <==> lang != "auto"@
            &&& lang != "auto"@ ==> j["language_code"@] == json::Json::Str(lang)
            &&& j.dom().contains("language_detection"@) <==> lang == "auto"@
            &&& lang == "auto"@ ==> j["language_detection"@] == json::Json::Bool(true)
            &&& j.dom().contains("language_detection_options"@) <==> lang == "auto"@
                && expected.len() > 0
            &&& j.dom().contains("language_detection_options"@) ==> {
                &&& options.field("fallback_language"@) == Some(json::Json::Str("auto"@))
                &&& lists(options.field("expected_languages"@), expected)
            }
            &&& j.dom().contains("keyterms_prompt"@) <==> vocabulary.len() > 0
            &&& vocabulary.len() > 0 ==> lists(Some(j["keyterms_prompt"@]), vocabulary)
            &&& j.dom().contains("disfluencies"@) <==> remove_fillers
            &&& remove_fillers ==> j["disfluencies"@] == json::Json::Bool(false)
            &&& j.dom().contains(key) ==> key == "audio_url"@ || key == "language_code"@ || key
                == "language_detection"@ || key == "language_detection_options"@ || key
                == "keyterms_prompt"@ || key == "disfluencies"@
        }),
{
    reveal_strlit("audio_url");
    reveal_strlit("language_code");
    reveal_strlit("language_detection");
    reveal_strlit("language_detection_options");
    reveal_strlit("keyterms_prompt");
    reveal_strlit("disfluencies");
    reveal_strlit("fallback_language");
    reveal_strlit("expected_languages");
    assert("audio_url"@.len() == 9 && "language_code"@.len() == 13 && "language_detection"@.len()
        == 18 && "language_detection_options"@.len() == 26 && "keyterms_prompt"@.len() == 15
        && "disfluencies"@.len() == 12);
    assert("fallback_language"@.len() == 17 && "expected_languages"@.len() == 18);
}

/// Whether a value is the list of these strings, in order.
pub open spec fn lists(j: Option<json::Json>, list: Seq<Seq<char>>) -> bool {
    &&& j is Some
    &&& j->0 is Array
    &&& j->0->Array_0.len() == list.len()
    &&& forall|i: int| 0 <= i < list.len() ==> #[trigger] j->0->Array_0[i] == json::Json::Str(list[i])
}

/// A job is polled under its id exactly where it was not refused and has one.
pub proof fn law_submitted_jobs_are_polled(error: Option<Seq<char>>, id: Option<Seq<char>>)
    ensures
        submitted(error, id) is Ok <==> error is None && id is Some,
        submitted(error, id) is Ok ==> submitted(error, id)->Ok_0
            == "https://api.assemblyai.com/v2/transcript/"@ + id->0,
        error is Some ==> submitted(error, id)->Err_0 == "AssemblyAI: "@ + error->0,
        error is None && id is None ==> submitted(error, id)->Err_0
            == "AssemblyAI: no transcript id in response"@,
        id is None ==> uploaded_to(id)->Err_0 == "AssemblyAI: no upload_url in response"@,
        uploaded_to(id) is Ok <==> id is Some,
        id is Some ==> uploaded_to(id)->Ok_0 == id->0,
{
}

/// A poll ends a job exactly where its status says that it is completed, with its text as it is, or
/// that it failed, with the service's reason; any other status is waited out.
pub proof fn law_polls_end_with_the_job(
    status: Option<Seq<char>>,
    text: Option<Seq<char>>,
    error: Option<Seq<char>>,
)
    ensures
        polled(status, text, error) is Done <==> status == Some("completed"@),
        polled(status, text, error) is Failed <==> status == Some("error"@),
        status == Some("completed"@) && text is Some ==> polled(status, text, error)
            == PollView::Done(text->0),
        status == Some("completed"@) && text is None ==> polled(status, text, error)
            == PollView::Done(""@),
        status == Some("error"@) && error is Some ==> polled(status, text, error)
            == PollView::Failed("AssemblyAI: "@ + error->0),
        MAX_POLLS * POLL_MS == 60000,
{
    reveal_strlit("completed");
    reveal_strlit("error");
    assert("completed"@.len() == 9 && "error"@.len() == 5);
}

} // verus!
