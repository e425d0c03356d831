//! Transcription by Deepgram.

use crate::asr;
use crate::asr::{Field, ReplyError};
use crate::config::AUTO_LANG;
use crate::json;
use crate::state;
use crate::text;
use crate::text::{same, show, starts_with};
use crate::transcript;
use crate::transcript::TranscriptEvent;
use vstd::prelude::*;

verus! {

/// The host of the service.
pub const HOST: &'static str = "api.deepgram.com";

/// The language that is asked for: "multi" is the service's name of detection.
pub open spec fn asked_lang(lang: Seq<char>) -> Seq<char> {
    if lang == AUTO_LANG@ {
        "multi"@
    } else {
        lang
    }
}

fn ask_lang(lang: &str) -> (r: &str)
    ensures
        r@ == asked_lang(lang@),
{
    if same(lang, AUTO_LANG) {
        "multi"
    } else {
        lang
    }
}

/// The address of a stream.
pub fn stream_url(model: &str, lang: &str, sample_rate: u32) -> (r: String)
    ensures
        r@ == "wss://api.deepgram.com/v1/listen?model="@ + model@ + "&language="@ + asked_lang(
            lang@,
        ) + "&encoding=linear16&sample_rate="@ + text::decimal(sample_rate as nat)
            + "&channels=1&smart_format=true&interim_results=true&endpointing=300"@,
{
    "wss://api.deepgram.com/v1/listen?model=".to_owned().concat(model).concat(
        "&language=",
    ).concat(ask_lang(lang)).concat("&encoding=linear16&sample_rate=").concat(
        show(sample_rate as u64).as_str(),
    ).concat("&channels=1&smart_format=true&interim_results=true&endpointing=300")
}

/// The address that a file is sent to.
pub fn file_url(model: &str, lang: &str) -> (r: String)
    ensures
        r@ == "https://api.deepgram.com/v1/listen?model="@ + model@ + "&language="@ + asked_lang(
            lang@,
        ) + "&detect_language=true&smart_format=true"@,
{
    "https://api.deepgram.com/v1/listen?model=".to_owned().concat(model).concat(
        "&language=",
    ).concat(ask_lang(lang)).concat("&detect_language=true&smart_format=true")
}

/// The parameter that carries a term of the vocabulary: older models know another one.
pub open spec fn term_param(model: Seq<char>) -> Seq<char> {
    if "nova-3"@.is_prefix_of(model) {
        "keyterm"@
    } else {
        "keywords"@
    }
}

/// The further parameters of a file: the terms of the vocabulary, and that filler words are left
/// out.
pub open spec fn file_params_spec(
    model: Seq<char>,
    vocabulary: Seq<Seq<char>>,
    remove_fillers: bool,
) -> Seq<(Seq<char>, Seq<char>)> {
    let terms = Seq::new(vocabulary.len(), |i: int| (term_param(model), vocabulary[i]));
    if remove_fillers {
        terms.push(("filler_words"@, "false"@))
    } else {
        terms
    }
}

/// The further parameters of a file.
pub fn file_params(model: &str, vocabulary: &[String], remove_fillers: bool) -> (r: Vec<Field>)
    ensures
        asr::fields_view(r@) == file_params_spec(
            model@,
            text::views(vocabulary@),
            remove_fillers,
        ),
{
    let name: &'static str = if starts_with(model, "nova-3") {
        "keyterm"
    } else {
        "keywords"
    };
    let mut r: Vec<Field> = Vec::new();
    let mut i: usize = 0;
    while i < vocabulary.len()
        invariant
            i <= vocabulary@.len(),
            r@.len() == i,
            name@ == term_param(model@),
            forall|j: int|
                0 <= j < i ==> (#[trigger] r@[j]).name@ == name@ && r@[j].value@
                    == vocabulary@[j]@,
        decreases vocabulary.len() - i,
    {
        r.push(Field { name, value: vocabulary[i].clone() });
        i += 1;
    }
    if remove_fillers {
        r.push(Field { name: "filler_words", value: "false".to_owned() });
    }
    assert(asr::fields_view(r@) =~= file_params_spec(
        model@,
        text::views(vocabulary@),
        remove_fillers,
    ));
    r
}

/// What authorizes a request.
pub fn authorization(api_key: &str) -> (r: String)
    ensures
        r@ == "Token "@ + api_key@,
{
    "Token ".to_owned().concat(api_key)
}

/// A message of the stream.
pub struct LiveResponse {
    pub message_type: Option<String>,
    /// The transcripts that the service considers, where there is a channel: the best one first.
    pub alternatives: Option<Vec<String>>,
    pub is_final: Option<bool>,
}

/// The transcript in a message: the first alternative of a result, unless it is empty.
pub open spec fn heard(r: LiveResponse) -> Option<Seq<char>> {
    if r.message_type is Some && r.message_type->0@ == "Results"@ && r.alternatives is Some
        && r.alternatives->0@.len() > 0 && r.alternatives->0@[0]@.len() > 0 {
        Some(r.alternatives->0@[0]@)
    } else {
        None
    }
}

/// The event that a message gives rise to, where `full` is the final text so far.
pub open spec fn news(full: Seq<char>, r: LiveResponse) -> Option<transcript::EventView> {
    match heard(r) {
        Some(t) => if r.is_final == Some(true) {
            Some(
                transcript::EventView::Final { delta: t, accumulated: (full + t).push(' ') },
            )
        } else {
            Some(transcript::EventView::Interim(t))
        },
        None => None,
    }
}

/// The final text after a message: each final transcript with a space behind it.
pub open spec fn full_after(full: Seq<char>, r: LiveResponse) -> Seq<char> {
    match news(full, r) {
        Some(transcript::EventView::Final { accumulated, .. }) => accumulated,
        _ => full,
    }
}

/// The receiving end of a stream.
pub struct Stream {
    /// The final text so far.
    pub full: String,
}

impl Stream {
    /// A stream before its first message.
    pub fn new() -> (r: Stream)
        ensures
            r.full@ == Seq::<char>::empty(),
    {
        let r: Stream = Stream { full: String::new() };
        assert(r.full@ =~= Seq::<char>::empty());
        r
    }

    /// Takes in a message. Returns the event it gives rise to.
    pub fn message(&mut self, r: LiveResponse) -> (ev: Option<TranscriptEvent>)
        ensures
            transcript::event_view(ev) == news(old(self).full@, r),
            final(self).full@ == full_after(old(self).full@, r),
    {
        let results: bool = match &r.message_type {
            Some(t) => same(t.as_str(), "Results"),
            None => false,
        };
        if !results {
            return None;
        }
        let alternatives: Vec<String> = match r.alternatives {
            Some(a) => a,
            None => return None,
        };
        if alternatives.is_empty() || alternatives[0].as_str().is_empty() {
            return None;
        }
        let last: bool = match r.is_final {
            Some(b) => b,
            None => false,
        };
        let heard: String = alternatives[0].clone();
        if last {
            self.full.append(heard.as_str());
            self.full.push(' ');
            Some(TranscriptEvent::Final { delta: heard, accumulated: self.full.clone() })
        } else {
            Some(TranscriptEvent::Interim(heard))
        }
    }
}

/// The transcript in a reply: that of the first alternative of the first channel.
pub open spec fn file_transcript(j: json::Json) -> Seq<char> {
    match first_alternative(j) {
        Some(a) => match asr::string_field(a, "transcript"@) {
            Some(t) => t,
            None => ""@,
        },
        None => ""@,
    }
}

/// The first alternative of the first channel of a reply.
pub open spec fn first_alternative(j: json::Json) -> Option<json::Json> {
    match j.field("results"@) {
        Some(results) => match results.field("channels"@) {
            Some(channels) => match channels.item(0) {
                Some(channel) => match channel.field("alternatives"@) {
                    Some(alternatives) => alternatives.item(0),
                    None => None,
                },
                None => None,
            },
            None => None,
        },
        None => None,
    }
}

fn get_alternative(v: &serde_json::Value) -> (r: Option<&serde_json::Value>)
    ensures
        json::opt_json(r) == first_alternative(json::json_of(*v)),
{
    match json::get(v, "results") {
        Some(results) => match json::get(results, "channels") {
            Some(channels) => match json::get_item(channels, 0) {
                Some(channel) => match json::get(channel, "alternatives") {
                    Some(alternatives) => json::get_item(alternatives, 0),
                    None => None,
                },
                None => None,
            },
            None => None,
        },
        None => None,
    }
}

/// The transcript of a file, given what the reply holds: empty where it holds none.
pub fn settle(transcript: Option<String>) -> (r: String)
    ensures
        r@ == match state::opt_view(transcript) {
            Some(t) => t,
            None => ""@,
        },
{
    match transcript {
        Some(t) => t,
        None => "".to_owned(),
    }
}

/// Reads the reply to a file.
pub fn transcript(reply: &str) -> (r: Result<String, ReplyError>)
    ensures
        asr::came_of(r) == match json::parsed(reply@) {
            Some(j) => Some(Ok::<Seq<char>, Seq<char>>(file_transcript(j))),
            None => None,
        },
{
    match json::parse(reply) {
        Ok(v) => {
            let t: Option<String> = match get_alternative(&v) {
                Some(a) => asr::get_string(a, "transcript"),
                None => None,
            };
            Ok(settle(t))
        },
        Err(e) => Err(ReplyError::Malformed(e)),
    }
}

/// Only a message that says it is final changes the final text: its best transcript and a space go
/// behind it. Any other result is shown and not kept, and what is no result, or says nothing, does
/// nothing.
pub proof fn law_only_final_results_are_kept(full: Seq<char>, r: LiveResponse)
    ensures
        ({
            let best = r.alternatives->0@[0]@;
            let speaks = r.message_type is Some && r.message_type->0@ == "Results"@
                && r.alternatives is Some && r.alternatives->0@.len() > 0 && best.len() > 0;
            if !speaks {
                news(full, r) is None && full_after(full, r) == full
            } else if r.is_final is Some && r.is_final->0 {
                &&& full_after(full, r) == full + best + " "@
                &&& news(full, r) == Some(
                    transcript::EventView::Final { delta: best, accumulated: full + best + " "@ },
                )
            } else {
                &&& full_after(full, r) == full
                &&& news(full, r) == Some(transcript::EventView::Interim(best))
            }
        }),
{
    reveal_strlit(" ");
    let best = r.alternatives->0@[0]@;
    assert((full + best).push(' ') =~= full + best + " "@);
}

/// The final text after messages.
pub open spec fn full_after_all(full: Seq<char>, rs: Seq<LiveResponse>) -> Seq<char>
    decreases rs.len(),
{
    if rs.len() == 0 {
        full
    } else {
        full_after(full_after_all(full, rs.drop_last()), rs.last())
    }
}

/// The best transcripts of the results among messages that say they are final, in order, each with
/// a space behind it.
pub open spec fn final_results(rs: Seq<LiveResponse>) -> Seq<Seq<char>>
    decreases rs.len(),
{
    if rs.len() == 0 {
        Seq::empty()
    } else {
        let r = rs.last();
        let before = final_results(rs.drop_last());
        if r.is_final == Some(true) && r.message_type is Some && r.message_type->0@ == "Results"@
            && r.alternatives is Some && r.alternatives->0@.len() > 0 && r.alternatives->0@[0]@.len()
            > 0 {
            before.push(r.alternatives->0@[0]@ + " "@)
        } else {
            before
        }
    }
}

/// Over a whole stream the final text is made of exactly the final results, in order, each with a
/// space behind it: no guess gets into it, and no result is lost or repeated.
pub proof fn law_final_text_is_the_final_results(rs: Seq<LiveResponse>)
    ensures
        full_after_all(Seq::empty(), rs) == final_results(rs).flatten(),
    decreases rs.len(),
{
    if rs.len() == 0 {
        assert(final_results(rs).flatten() =~= Seq::empty());
    } else {
        let front = rs.drop_last();
        law_final_text_is_the_final_results(front);
        law_only_final_results_are_kept(full_after_all(Seq::empty(), front), rs.last());
        let before = final_results(front);
        let all = final_results(rs);
        before.lemma_flatten_and_flatten_alt_are_equivalent();
        all.lemma_flatten_and_flatten_alt_are_equivalent();
        if all.len() > before.len() {
            assert(all.drop_last() =~= before);
            assert(full_after_all(Seq::empty(), rs) =~= all.flatten());
        }
    }
}

/// A language that is chosen is asked for by its code, and detection by the service's own name.
pub proof fn law_language_is_asked_for(lang: Seq<char>)
    ensures
        lang != "auto"@ ==> asked_lang(lang) == lang,
        lang == "auto"@ ==> asked_lang(lang) == "multi"@,
{
}

/// The parameters of a file are the terms, each as it is and in order, under the name that the model
/// knows, and last that fillers are left out, exactly where that is wanted.
pub proof fn law_file_params_say_what_is_wanted(
    model: Seq<char>,
    vocabulary: Seq<Seq<char>>,
    remove_fillers: bool,
    i: int,
)
    requires
        0 <= i < vocabulary.len(),
    ensures
        ({
            let all = file_params_spec(model, vocabulary, remove_fillers);
            &&& all.len() == vocabulary.len() + (if remove_fillers { 1int } else { 0 })
            &&& all[i].1 == vocabulary[i]
            &&& all[i].0 == (if "nova-3"@.is_prefix_of(model) { "keyterm"@ } else { "keywords"@ })
            &&& remove_fillers ==> all.last() == ("filler_words"@, "false"@)
        }),
{
}

/// The transcript of a reply is that of the first alternative of the first channel.
pub proof fn law_first_alternative_counts(
    reply: Map<Seq<char>, json::Json>,
    results: Map<Seq<char>, json::Json>,
    channels: Seq<json::Json>,
    channel: Map<Seq<char>, json::Json>,
    alternatives: Seq<json::Json>,
    best: Map<Seq<char>, json::Json>,
    t: Seq<char>,
)
    requires
        reply.dom().contains("results"@),
        reply["results"@] == json::Json::Object(results),
        results.dom().contains("channels"@),
        results["channels"@] == json::Json::Array(channels),
        channels.len() > 0,
        channels[0] == json::Json::Object(channel),
        channel.dom().contains("alternatives"@),
        channel["alternatives"@] == json::Json::Array(alternatives),
        alternatives.len() > 0,
        alternatives[0] == json::Json::Object(best),
        best.dom().contains("transcript"@),
        best["transcript"@] == json::Json::Str(t),
    ensures
        file_transcript(json::Json::Object(reply)) == t,
{
}

} // verus!
