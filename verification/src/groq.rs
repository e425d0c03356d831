//! Transcription by Groq.

use crate::asr;
use crate::asr::{read_reply, ReplyError};
use vstd::prelude::*;

verus! {

/// Where files are sent.
pub const UPLOAD_URL: &'static str = "https://api.groq.com/openai/v1/audio/transcriptions";

/// The transcript in a reply.
pub fn transcript(reply: &str) -> (r: Result<String, ReplyError>)
    ensures
        asr::came_of(r) == asr::replied("Groq"@, reply@),
{
    read_reply("Groq", reply)
}

} // verus!
