//! Transcription by Fireworks.

use crate::asr;
use crate::asr::{read_reply, sends_lang, ReplyError};
use crate::text;
use crate::text::{byte_len, find_cut, from_chars, join_list, same, show, to_chars, trim};
use crate::transcript;
use crate::transcript::TranscriptEvent;
use vstd::prelude::*;

verus! {

/// Where files are sent.
pub const UPLOAD_URL: &'static str =
    "https://audio-prod.api.fireworks.ai/v1/audio/transcriptions";

/// The host of the streaming service.
pub const STREAM_HOST: &'static str = "audio-streaming.api.fireworks.ai";

/// The message that asks for what is left at the end of a recording.
pub const CLOSING: &'static str = "{\"checkpoint_id\":\"final\"}";

/// The transcript in a reply.
pub fn transcript(reply: &str) -> (r: Result<String, ReplyError>)
    ensures
        asr::came_of(r) == asr::replied("Fireworks"@, reply@),
{
    read_reply("Fireworks", reply)
}

/// The parameters of a stream.
pub open spec fn stream_params(model: Seq<char>, lang: Seq<char>, sample_rate: nat) -> Seq<
    Seq<char>,
> {
    let common = seq![
        "model="@ + model,
        "sample_rate="@ + text::decimal(sample_rate),
        "encoding=pcm_s16le"@,
    ];
    if asr::names_lang(lang) {
        common.push("language="@ + lang)
    } else {
        common
    }
}

/// The address of a stream.
pub fn stream_url(model: &str, lang: &str, sample_rate: u32) -> (r: String)
    ensures
        r@ == "wss://audio-streaming.api.fireworks.ai/v1/audio/transcriptions/streaming?"@
            + text::join(stream_params(model@, lang@, sample_rate as nat), "&"@),
{
    let mut params: Vec<String> = Vec::new();
    params.push("model=".to_owned().concat(model));
    params.push("sample_rate=".to_owned().concat(show(sample_rate as u64).as_str()));
    params.push("encoding=pcm_s16le".to_owned());
    if sends_lang(lang) {
        params.push("language=".to_owned().concat(lang));
    }
    assert(text::views(params@) =~= stream_params(model@, lang@, sample_rate as nat));
    "wss://audio-streaming.api.fireworks.ai/v1/audio/transcriptions/streaming?".to_owned().concat(
        join_list(&params, "&").as_str(),
    )
}

/// A word of the transcript so far.
pub struct Word {
    pub word: String,
    pub is_final: bool,
}

/// A message of the stream.
pub struct StreamResponse {
    pub words: Option<Vec<Word>>,
    pub checkpoint_id: Option<String>,
    pub error: Option<String>,
}

/// `text` and one more word, with a space between them where there is text.
pub open spec fn with_word(text: Seq<char>, word: Seq<char>) -> Seq<char> {
    if text.len() == 0 {
        word
    } else {
        text.push(' ') + word
    }
}

/// The words that are final, or those that are not, as one text.
pub open spec fn spoken(words: Seq<Word>, is_final: bool) -> Seq<char>
    decreases words.len(),
{
    if words.len() == 0 {
        Seq::empty()
    } else {
        let before = spoken(words.drop_last(), is_final);
        if words.last().is_final == is_final {
            with_word(before, words.last().word@)
        } else {
            before
        }
    }
}

/// The state of a stream.
#[verifier::ext_equal]
pub ghost struct StreamView {
    /// The final words so far.
    pub settled: Seq<char>,
    /// The words of the last message that were not final.
    pub pending: Seq<char>,
}

/// What a message leads to.
#[verifier::ext_equal]
pub ghost struct Received {
    pub stream: StreamView,
    pub events: Seq<transcript::EventView>,
    /// Whether the stream is over.
    pub over: bool,
}

/// Whether a message is the last one.
pub open spec fn is_last(r: StreamResponse) -> bool {
    r.checkpoint_id is Some && r.checkpoint_id->0@ == "final"@
}

/// The final words of a message: with the last one, all words are.
pub open spec fn settled_words(words: Seq<Word>, last: bool) -> Seq<char> {
    let done = spoken(words, true);
    let open = spoken(words, false);
    if last && open.len() > 0 {
        with_word(done, open)
    } else {
        done
    }
}

/// The words of a message that are not final.
pub open spec fn open_words(words: Seq<Word>, last: bool) -> Seq<char> {
    if last {
        Seq::empty()
    } else {
        spoken(words, false)
    }
}

impl StreamView {
    /// Whether the final words of a message are longer than those before, in bytes.
    pub open spec fn grows(self, done: Seq<char>) -> bool {
        text::utf8_len(done) > text::utf8_len(self.settled)
    }

    /// The new final words: what stands behind as many bytes as there were.
    pub open spec fn news(self, done: Seq<char>) -> Seq<char> {
        text::trimmed(done.skip(text::cut_at(done, text::utf8_len(self.settled) as int)->0 as int))
    }

    /// Whether the new final words of a message can be told from those before: the bytes that were
    /// there end with a whole character.
    pub open spec fn accepts(self, r: StreamResponse) -> bool {
        r.error is None && r.words is Some ==> {
            let done = settled_words(r.words->0@, is_last(r));
            self.grows(done) ==> text::cut_at(done, text::utf8_len(self.settled) as int) is Some
        }
    }

    /// What a message leads to. An error ends the stream; so does the last message.
    pub open spec fn response(self, r: StreamResponse) -> Received {
        if r.error is Some {
            Received { stream: self, events: Seq::empty(), over: true }
        } else if r.words is None {
            Received { stream: self, events: Seq::empty(), over: is_last(r) }
        } else {
            let words = r.words->0@;
            let done = settled_words(words, is_last(r));
            let open = open_words(words, is_last(r));
            let news = self.news(done);
            let first = if self.grows(done) && news.len() > 0 {
                seq![transcript::EventView::Final { delta: news, accumulated: done }]
            } else {
                Seq::empty()
            };
            let second = if open.len() > 0 {
                seq![transcript::EventView::Interim(open)]
            } else {
                Seq::empty()
            };
            Received {
                stream: StreamView {
                    settled: if self.grows(done) { done } else { self.settled },
                    pending: open,
                },
                events: first + second,
                over: is_last(r),
            }
        }
    }

    /// The event at the end of the stream: words that never became final are taken as they are.
    pub open spec fn finish(self) -> Option<transcript::EventView> {
        if self.pending.len() > 0 {
            Some(
                transcript::EventView::Final {
                    delta: self.pending,
                    accumulated: with_word(self.settled, self.pending),
                },
            )
        } else {
            None
        }
    }
}

/// The receiving end of a stream.
pub struct Stream {
    pub settled: String,
    pub pending: String,
}

impl View for Stream {
    type V = StreamView;

    open spec fn view(&self) -> StreamView {
        StreamView { settled: self.settled@, pending: self.pending@ }
    }
}

/// Adds a word, with a space before it where there is text.
fn add_word(text: &mut String, word: &str)
    ensures
        final(text)@ == with_word(old(text)@, word@),
{
    if !text.as_str().is_empty() {
        text.push(' ');
        text.append(word);
    } else {
        text.append(word);
        assert(text@ =~= word@);
    }
}

/// The words that are final, or those that are not, as one text.
fn speak(words: &[Word], is_final: bool) -> (r: String)
    ensures
        r@ == spoken(words@, is_final),
{
    let mut r: String = String::new();
    let mut i: usize = 0;
    assert(words@.take(0) =~= Seq::<Word>::empty());
    assert(r@ =~= Seq::<char>::empty());
    while i < words.len()
        invariant
            i <= words@.len(),
            r@ == spoken(words@.take(i as int), is_final),
        decreases words.len() - i,
    {
        assert(words@.take(i + 1).drop_last() =~= words@.take(i as int));
        if words[i].is_final == is_final {
            add_word(&mut r, words[i].word.as_str());
        }
        i += 1;
    }
    assert(words@.take(i as int) =~= words@);
    r
}

fn check_last(r: &StreamResponse) -> (b: bool)
    ensures
        b == is_last(*r),
{
    match &r.checkpoint_id {
        Some(id) => same(id.as_str(), "final"),
        None => false,
    }
}

fn settle_words(words: &[Word], last: bool) -> (r: String)
    ensures
        r@ == settled_words(words@, last),
{
    let mut done: String = speak(words, true);
    let open: String = speak(words, false);
    if last && !open.as_str().is_empty() {
        add_word(&mut done, open.as_str());
    }
    done
}

impl Stream {
    /// A stream before its first message.
    pub fn new() -> (r: Stream)
        ensures
            r@ == (StreamView { settled: Seq::empty(), pending: Seq::empty() }),
    {
        let r: Stream = Stream { settled: String::new(), pending: String::new() };
        assert(r@ =~= StreamView { settled: Seq::empty(), pending: Seq::empty() });
        r
    }

    /// Whether the new final words of a message can be told from those before.
    pub fn accepts(&self, r: &StreamResponse) -> (b: bool)
        ensures
            b == self@.accepts(*r),
    {
        match (&r.error, &r.words) {
            (None, Some(words)) => {
                let done: String = settle_words(words, check_last(r));
                let before: u128 = byte_len(self.settled.as_str());
                byte_len(done.as_str()) <= before || find_cut(done.as_str(), before).is_some()
            },
            _ => true,
        }
    }

    /// Takes in a message. Returns the events it gives rise to and whether the stream is over.
    pub fn response(&mut self, r: StreamResponse) -> (out: (Vec<TranscriptEvent>, bool))
        requires
            old(self)@.accepts(r),
        ensures
            ({
                let expected = old(self)@.response(r);
                &&& final(self)@ == expected.stream
                &&& transcript::event_views(out.0@) == expected.events
                &&& out.1 == expected.over
            }),
    {
        let mut events: Vec<TranscriptEvent> = Vec::new();
        let last: bool = check_last(&r);
        if r.error.is_some() {
            assert(transcript::event_views(events@) =~= Seq::empty());
            return (events, true);
        }
        let words: Vec<Word> = match r.words {
            Some(words) => words,
            None => {
                assert(transcript::event_views(events@) =~= Seq::empty());
                return (events, last);
            },
        };
        let done: String = settle_words(&words, last);
        let open: String = if last {
            String::new()
        } else {
            speak(&words, false)
        };
        assert(open@ =~= open_words(words@, last));
        let before: u128 = byte_len(self.settled.as_str());
        if byte_len(done.as_str()) > before {
            let at: usize = find_cut(done.as_str(), before).unwrap();
            let chars: Vec<char> = to_chars(done.as_str());
            let tail: String = from_chars(&chars, at, chars.len());
            assert(tail@ =~= done@.skip(at as int));
            let news: String = trim(tail.as_str());
            if !news.as_str().is_empty() {
                events.push(TranscriptEvent::Final { delta: news, accumulated: done.clone() });
            }
            self.settled = done;
        }
        if !open.as_str().is_empty() {
            events.push(TranscriptEvent::Interim(open.clone()));
        }
        self.pending = open;
        assert(transcript::event_views(events@) =~= old(self)@.response(r).events);
        (events, last)
    }

    /// Ends the stream.
    pub fn finish(self) -> (r: Option<TranscriptEvent>)
        ensures
            transcript::event_view(r) == self@.finish(),
    {
        let Stream { settled, pending } = self;
        if pending.as_str().is_empty() {
            return None;
        }
        let mut accumulated: String = settled;
        add_word(&mut accumulated, pending.as_str());
        Some(TranscriptEvent::Final { delta: pending, accumulated })
    }
}

/// Where the final words of a message continue those before, every message is accepted and what is
/// new is exactly what was added, without the white space around it.
pub proof fn law_only_new_words_are_typed(s: StreamView, added: Seq<char>)
    ensures
        text::cut_at(s.settled + added, text::utf8_len(s.settled) as int) is Some,
        s.news(s.settled + added) == text::trimmed(added),
        s.grows(s.settled + added) == (added.len() > 0),
{
    let done = s.settled + added;
    let k = s.settled.len() as int;
    assert(done.take(k) =~= s.settled);
    text::lemma_cut(done, k);
    assert(done.skip(k) =~= added);
    if added.len() > 0 {
        text::lemma_prefix_shorter(done, k);
    } else {
        assert(done =~= s.settled);
    }
}

/// After the last message nothing is pending, so that the end of the stream adds nothing.
pub proof fn law_last_message_settles_everything(s: StreamView, r: StreamResponse)
    requires
        r.error is None,
        r.words is Some,
        is_last(r),
    ensures
        s.response(r).over,
        s.response(r).stream.finish() is None,
{
}

/// The words that are final, or those that are not, in order.
pub open spec fn picked(words: Seq<Word>, is_final: bool) -> Seq<Seq<char>>
    decreases words.len(),
{
    if words.len() == 0 {
        Seq::empty()
    } else if words.last().is_final == is_final {
        picked(words.drop_last(), is_final).push(words.last().word@)
    } else {
        picked(words.drop_last(), is_final)
    }
}

/// The text of a message is made of its words in order, with one space between two of them: the
/// final ones make the final text, the others what is shown.
pub proof fn law_text_is_made_of_the_words(words: Seq<Word>, is_final: bool)
    requires
        forall|i: int| 0 <= i < words.len() ==> (#[trigger] words[i]).word@.len() > 0,
    ensures
        spoken(words, is_final) == text::join(picked(words, is_final), " "@),
        spoken(words, is_final).len() > 0 <==> picked(words, is_final).len() > 0,
    decreases words.len(),
{
    reveal_strlit(" ");
    if words.len() > 0 {
        let front = words.drop_last();
        assert forall|i: int| 0 <= i < front.len() implies (#[trigger] front[i]).word@.len() > 0 by {
            assert(front[i] == words[i]);
        }
        law_text_is_made_of_the_words(front, is_final);
        assert(words[words.len() - 1].word@.len() > 0);
        let before = picked(front, is_final);
        let all = picked(words, is_final);
        if words.last().is_final == is_final {
            assert(all.drop_last() =~= before);
            assert(spoken(words, is_final) =~= text::join(all, " "@));
        }
    }
}

/// Words that are not final are shown and never kept, but for those of the last message; an error or
/// the last message ends the stream; and what is reported as final is the whole final text.
pub proof fn law_only_final_words_are_kept(s: StreamView, r: StreamResponse)
    ensures
        ({
            let out = s.response(r);
            let last = r.checkpoint_id is Some && r.checkpoint_id->0@ == "final"@;
            let done = spoken(r.words->0@, true);
            let open = spoken(r.words->0@, false);
            &&& out.over <==> r.error is Some || last
            &&& r.error is Some || r.words is None ==> out.stream == s && out.events.len() == 0
            &&& r.error is None && r.words is Some && !last ==> {
                &&& out.stream.pending == open
                &&& out.stream.settled == done || out.stream.settled == s.settled
                &&& open.len() > 0 ==> out.events.len() > 0 && out.events.last()
                    == transcript::EventView::Interim(open)
            }
            &&& r.error is None && r.words is Some && last ==> {
                &&& out.stream.pending.len() == 0
                &&& out.stream.settled == s.settled || out.stream.settled == (if open.len() == 0 {
                    done
                } else if done.len() == 0 {
                    open
                } else {
                    done + " "@ + open
                })
            }
            &&& forall|i: int|
                0 <= i < out.events.len() ==> (
                #[trigger] out.events[i] matches transcript::EventView::Final { accumulated, .. }
                    ==> accumulated == out.stream.settled)
        }),
{
    reveal_strlit(" ");
    let done = spoken(r.words->0@, true);
    let open = spoken(r.words->0@, false);
    assert(done.push(' ') + open =~= done + " "@ + open);
}

/// Where the final words of a message continue those before, they become the final text, and what
/// was added is reported once, unless it is blank.
pub proof fn law_final_text_grows_by_what_is_new(s: StreamView, r: StreamResponse, added: Seq<char>)
    requires
        r.error is None,
        r.words is Some,
        !is_last(r),
        spoken(r.words->0@, true) == s.settled + added,
    ensures
        s.response(r).stream.settled == s.settled + added,
        text::trimmed(added).len() > 0 ==> s.response(r).events.len() > 0 && s.response(r).events[0]
            == (transcript::EventView::Final {
            delta: text::trimmed(added),
            accumulated: s.settled + added,
        }),
        text::trimmed(added).len() == 0 ==> forall|i: int|
            0 <= i < s.response(r).events.len() ==> !(#[trigger] s.response(r).events[i] is Final),
{
    law_only_new_words_are_typed(s, added);
    if added.len() == 0 {
        assert(s.settled + added =~= s.settled);
        text::lemma_trimmed_already(added);
    }
}

/// What was never settled is delivered at the end of the stream, behind the final text and a space.
pub proof fn law_end_delivers_what_is_pending(s: StreamView)
    ensures
        s.pending.len() == 0 <==> s.finish() is None,
        s.pending.len() > 0 ==> s.finish() == Some(
            transcript::EventView::Final {
                delta: s.pending,
                accumulated: if s.settled.len() == 0 {
                    s.pending
                } else {
                    s.settled + " "@ + s.pending
                },
            },
        ),
{
    reveal_strlit(" ");
    assert(s.settled.push(' ') + s.pending =~= s.settled + " "@ + s.pending);
}

/// A stream is asked for with its model and rate, and with its language exactly where one is chosen.
pub proof fn law_stream_params_say_what_is_wanted(model: Seq<char>, lang: Seq<char>, rate: nat)
    ensures
        ({
            let p = stream_params(model, lang, rate);
            &&& p[0] == "model="@ + model
            &&& p[1] == "sample_rate="@ + text::decimal(rate)
            &&& p[2] == "encoding=pcm_s16le"@
            &&& if lang.len() > 0 && lang != "auto"@ {
                p.len() == 4 && p[3] == "language="@ + lang
            } else {
                p.len() == 3
            }
        }),
{
}

/// Every message can be taken but one whose settled words grow past what was settled before inside
/// of a character: errors can, and messages without words.
pub proof fn law_messages_can_be_taken(s: StreamView, r: StreamResponse)
    ensures
        r.error is Some || r.words is None ==> s.accepts(r),
        r.words is Some && !s.grows(settled_words(r.words->0@, is_last(r))) ==> s.accepts(r),
        r.words is Some && text::cut_at(
            settled_words(r.words->0@, is_last(r)),
            text::utf8_len(s.settled) as int,
        ) is Some ==> s.accepts(r),
        s.accepts(r) && r.error is None && r.words is Some && s.grows(
            settled_words(r.words->0@, is_last(r)),
        ) ==> text::cut_at(
            settled_words(r.words->0@, is_last(r)),
            text::utf8_len(s.settled) as int,
        ) is Some,
{
}

} // verus!
