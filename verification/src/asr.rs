//! What the transcription services have in common: the fields of an upload and the reading of a
//! reply.

use crate::config::AUTO_LANG;
use crate::json;
use crate::state;
use crate::text;
use crate::text::{join_list, same};
use vstd::prelude::*;

verus! {

/// Why a reply holds no text.
pub enum ReplyError {
    /// The reply is not JSON.
    Malformed(serde_json::Error),
    /// The service's own message, or what is missing in its reply.
    Refused(String),
}

/// What came of a reply: a text, or the message of a refusal; `None` where it was not JSON.
pub open spec fn came_of(r: Result<String, ReplyError>) -> Option<Result<Seq<char>, Seq<char>>> {
    match r {
        Ok(t) => Some(Ok(t@)),
        Err(ReplyError::Refused(m)) => Some(Err(m@)),
        Err(ReplyError::Malformed(_)) => None,
    }
}

/// A text or the message of a refusal.
pub open spec fn settled(r: Result<String, String>) -> Result<Seq<char>, Seq<char>> {
    match r {
        Ok(t) => Ok(t@),
        Err(m) => Err(m@),
    }
}

/// Turns a refusal into an error.
pub fn refusal(r: Result<String, String>) -> (e: Result<String, ReplyError>)
    ensures
        came_of(e) == Some(settled(r)),
{
    match r {
        Ok(t) => Ok(t),
        Err(m) => Err(ReplyError::Refused(m)),
    }
}

/// What is read of a reply that holds either an error or a transcript.
pub struct AsrReply {
    /// The error, as JSON text.
    pub error: Option<String>,
    /// The transcript, where it is a string.
    pub text: Option<String>,
}

/// The string under `key`.
pub open spec fn string_field(j: json::Json, key: Seq<char>) -> Option<Seq<char>> {
    match j.field(key) {
        Some(v) => v.string(),
        None => None,
    }
}

/// The string under `key`.
pub(crate) fn get_string(v: &serde_json::Value, key: &str) -> (r: Option<String>)
    ensures
        state::opt_view(r) == string_field(json::json_of(*v), key@),
{
    match json::get(v, key) {
        Some(item) => match json::as_str(item) {
            Some(s) => Some(s.to_owned()),
            None => None,
        },
        None => None,
    }
}

/// The value under `key`, as JSON text.
pub(crate) fn get_printed(v: &serde_json::Value, key: &str) -> (r: Option<String>)
    ensures
        state::opt_view(r) == match json::json_of(*v).field(key@) {
            Some(e) => Some(json::printed(e)),
            None => None,
        },
{
    match json::get(v, key) {
        Some(item) => Some(json::print(item)),
        None => None,
    }
}

/// What comes of a reply: a refusal that names the service where there is an error, else the
/// transcript, which is empty where none is given.
pub open spec fn settle_spec(service: Seq<char>, error: Option<Seq<char>>, text: Option<Seq<char>>) -> Result<
    Seq<char>,
    Seq<char>,
> {
    match error {
        Some(e) => Err(service + ": "@ + e),
        None => match text {
            Some(t) => Ok(t),
            None => Ok(""@),
        },
    }
}

/// What comes of a reply.
pub fn settle(service: &str, reply: AsrReply) -> (r: Result<String, String>)
    ensures
        settled(r) == settle_spec(
            service@,
            state::opt_view(reply.error),
            state::opt_view(reply.text),
        ),
{
    match reply.error {
        Some(e) => Err(service.to_owned().concat(": ").concat(e.as_str())),
        None => match reply.text {
            Some(t) => Ok(t),
            None => Ok("".to_owned()),
        },
    }
}

/// What a service's reply to an upload holds.
pub open spec fn replied(service: Seq<char>, reply: Seq<char>) -> Option<
    Result<Seq<char>, Seq<char>>,
> {
    match json::parsed(reply) {
        Some(j) => Some(
            settle_spec(
                service,
                match j.field("error"@) {
                    Some(e) => Some(json::printed(e)),
                    None => None,
                },
                string_field(j, "text"@),
            ),
        ),
        None => None,
    }
}

/// Reads a service's reply to an upload.
pub fn read_reply(service: &str, reply: &str) -> (r: Result<String, ReplyError>)
    ensures
        came_of(r) == replied(service@, reply@),
{
    match json::parse(reply) {
        Ok(v) => {
            let asr: AsrReply = AsrReply {
                error: get_printed(&v, "error"),
                text: get_string(&v, "text"),
            };
            refusal(settle(service, asr))
        },
        Err(e) => Err(ReplyError::Malformed(e)),
    }
}

/// A text field of a form.
pub struct Field {
    pub name: &'static str,
    pub value: String,
}

/// What the text fields of a form hold.
pub open spec fn fields_view(fields: Seq<Field>) -> Seq<(Seq<char>, Seq<char>)> {
    Seq::new(fields.len(), |i: int| (fields[i].name@, fields[i].value@))
}

/// Whether a language is sent along: one that is named.
pub open spec fn names_lang(lang: Seq<char>) -> bool {
    lang.len() > 0 && lang != AUTO_LANG@
}

/// Whether a language is sent along: one that is named.
pub fn sends_lang(lang: &str) -> (r: bool)
    ensures
        r == names_lang(lang@),
{
    !lang.is_empty() && !same(lang, AUTO_LANG)
}

/// The text fields that go with an uploaded file.
pub open spec fn upload_fields_spec(
    lang: Seq<char>,
    model: Seq<char>,
    vocabulary: Seq<Seq<char>>,
) -> Seq<(Seq<char>, Seq<char>)> {
    let common = seq![("model"@, model), ("response_format"@, "json"@)];
    let language = if names_lang(lang) {
        seq![("language"@, lang)]
    } else {
        Seq::empty()
    };
    let hint = if vocabulary.len() > 0 {
        seq![("prompt"@, text::join(vocabulary, ", "@))]
    } else {
        Seq::empty()
    };
    common + language + hint
}

/// The text fields that go with an uploaded file: the model, the format of the reply, the language
/// unless it is detected, and the vocabulary as a hint.
pub fn upload_fields(lang: &str, model: &str, vocabulary: &[String]) -> (r: Vec<Field>)
    ensures
        fields_view(r@) == upload_fields_spec(lang@, model@, text::views(vocabulary@)),
{
    let mut r: Vec<Field> = Vec::new();
    r.push(Field { name: "model", value: model.to_owned() });
    r.push(Field { name: "response_format", value: "json".to_owned() });
    if sends_lang(lang) {
        r.push(Field { name: "language", value: lang.to_owned() });
    }
    if !vocabulary.is_empty() {
        r.push(Field { name: "prompt", value: join_list(vocabulary, ", ") });
    }
    assert(fields_view(r@) =~= upload_fields_spec(lang@, model@, text::views(vocabulary@)));
    r
}

/// A reply is a refusal exactly where it holds an error, and then says which service refused and
/// what the error is; else its text is taken as it is.
pub proof fn law_errors_are_refusals(service: Seq<char>, error: Option<Seq<char>>, text: Option<Seq<char>>)
    ensures
        settle_spec(service, error, text) is Err <==> error is Some,
        error is Some ==> settle_spec(service, error, text)->Err_0 == service + ": "@ + error->0,
        error is None && text is Some ==> settle_spec(service, error, text)->Ok_0 == text->0,
        error is None && text is None ==> settle_spec(service, error, text)->Ok_0 == ""@,
{
}

/// What a reply says is what its JSON holds: an object with an error is a refusal, one without is
/// its text, and what is no JSON is neither.
pub proof fn law_replies_are_read(service: Seq<char>, reply: Seq<char>)
    ensures
        replied(service, reply) is None <==> json::parsed(reply) is None,
        ({
            let j = json::parsed(reply)->0;
            json::parsed(reply) is Some && j is Object ==> {
                let m = j->Object_0;
                &&& m.dom().contains("error"@) ==> replied(service, reply)->0 == Err::<
                    Seq<char>,
                    Seq<char>,
                >(service + ": "@ + json::printed(m["error"@]))
                &&& !m.dom().contains("error"@) && m.dom().contains("text"@) && m["text"@] is Str
                    ==> replied(service, reply)->0 == Ok::<Seq<char>, Seq<char>>(m["text"@]->Str_0)
                &&& !m.dom().contains("error"@) && !(m.dom().contains("text"@) && m["text"@] is Str)
                    ==> replied(service, reply)->0 == Ok::<Seq<char>, Seq<char>>(""@)
            }
        }),
{
}

/// An upload says which model is asked and that the reply be JSON. It names the language exactly
/// where one is chosen, and the terms exactly where there are any, and it says nothing else.
pub proof fn law_upload_says_what_is_wanted(
    lang: Seq<char>,
    model: Seq<char>,
    vocabulary: Seq<Seq<char>>,
    field: (Seq<char>, Seq<char>),
)
    ensures
        upload_fields_spec(lang, model, vocabulary).contains(field) <==> {
            ||| field == ("model"@, model)
            ||| field == ("response_format"@, "json"@)
            ||| field == ("language"@, lang) && lang.len() > 0 && lang != "auto"@
            ||| field == ("prompt"@, text::join(vocabulary, ", "@)) && vocabulary.len() > 0
        },
        upload_fields_spec(lang, model, vocabulary).len() == 2 + (if lang.len() > 0 && lang
            != "auto"@ { 1int } else { 0 }) + (if vocabulary.len() > 0 { 1int } else { 0 }),
{
    let all = upload_fields_spec(lang, model, vocabulary);
    let n = all.len() as int;
    assert(all[0] == ("model"@, model));
    assert(all[1] == ("response_format"@, "json"@));
    if names_lang(lang) {
        assert(all[2] == ("language"@, lang));
    }
    if vocabulary.len() > 0 {
        assert(all[n - 1] == ("prompt"@, text::join(vocabulary, ", "@)));
    }
}

} // verus!
