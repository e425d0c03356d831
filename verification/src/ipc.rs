//! The messages that the command-line client and the daemon exchange.

use crate::text;
use crate::text::join_list;
use vstd::prelude::*;

verus! {

/// What a client asks of the daemon.
pub struct Request {
    pub command: String,
    pub arg: Option<String>,
}

/// What the daemon answers.
pub struct Response {
    pub ok: bool,
    pub message: Option<String>,
}

impl Response {
    /// Whether this is the answer `message`, given as a success or not.
    pub open spec fn says(&self, ok: bool, message: Seq<char>) -> bool {
        &&& self.ok == ok
        &&& self.message is Some
        &&& self.message->0@ == message
    }

    /// A success.
    pub fn ok(message: String) -> (r: Response)
        ensures
            r.says(true, message@),
    {
        Response { ok: true, message: Some(message) }
    }

    /// A refusal.
    pub fn err(message: String) -> (r: Response)
        ensures
            r.says(false, message@),
    {
        Response { ok: false, message: Some(message) }
    }
}

/// What a client can do with the vocabulary.
pub enum VocabAction {
    Add(Vec<String>),
    Remove(Vec<String>),
    List,
    Clear,
}

/// The argument of the command "vocab" for an action: the action and its terms on lines of their
/// own, so that terms of several words survive.
pub open spec fn vocab_arg_of(action: Option<VocabAction>) -> Seq<char> {
    match action {
        Some(VocabAction::Add(terms)) => "add\n"@ + text::join(text::views(terms@), "\n"@),
        Some(VocabAction::Remove(terms)) => "remove\n"@ + text::join(text::views(terms@), "\n"@),
        Some(VocabAction::Clear) => "clear"@,
        _ => "list"@,
    }
}

/// The argument of the command "vocab" for an action.
pub fn vocab_arg(action: Option<VocabAction>) -> (r: String)
    ensures
        r@ == vocab_arg_of(action),
{
    match action {
        Some(VocabAction::Add(terms)) => "add\n".to_owned().concat(
            join_list(&terms, "\n").as_str(),
        ),
        Some(VocabAction::Remove(terms)) => "remove\n".to_owned().concat(
            join_list(&terms, "\n").as_str(),
        ),
        Some(VocabAction::Clear) => "clear".to_owned(),
        _ => "list".to_owned(),
    }
}

/// The argument of the command "languages" for a list of codes: none to show the languages.
pub fn languages_arg(langs: &[String]) -> (r: Option<String>)
    ensures
        match r {
            Some(s) => langs@.len() > 0 && s@ == text::join(text::views(langs@), ","@),
            None => langs@.len() == 0,
        },
{
    if langs.is_empty() {
        None
    } else {
        Some(join_list(langs, ","))
    }
}

/// An answer says one thing: whether it is a success, and its message.
pub proof fn law_answers_are_told_apart(r: Response, ok: bool, message: Seq<char>)
    requires
        r.says(ok, message),
    ensures
        r.ok == ok,
        r.message is Some && r.message->0@ == message,
        !r.says(!ok, message),
{
}

} // verus!
