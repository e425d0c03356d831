//! What is kept of past recordings.

use crate::asr;
use crate::asr::get_string;
use crate::json;
use crate::state;
use crate::text;
use crate::text::{from_chars, same, split_on, to_chars};
use vstd::prelude::*;

verus! {

/// One structured history row. `audio` is the FLAC filename within the audio dir (linked by
/// a shared timestamp), so each transcript points at exactly the recording it came from.
pub struct HistoryRecord<'a> {
    pub ts: &'a str,
    pub audio: Option<&'a str>,
    pub mode: &'a str,
    pub model: &'a str,
    pub lang: &'a str,
    pub raw: &'a str,
    pub text: &'a str,
    pub corrected: bool,
    pub duration_ms: u64,
    pub latency_ms: u64,
}

/// The row of a recording: none where there is neither text nor audio. It counts as corrected
/// where the text is not the one that was recognised.
pub fn record<'a>(
    ts: &'a str,
    audio: Option<&'a str>,
    mode: &'a str,
    model: &'a str,
    lang: &'a str,
    raw: &'a str,
    text: &'a str,
    duration_ms: u64,
    latency_ms: u64,
) -> (r: Option<HistoryRecord<'a>>)
    ensures
        match r {
            Some(h) => {
                &&& text@.len() > 0 || audio is Some
                &&& h.ts@ == ts@
                &&& json::opt_str(h.audio) == json::opt_str(audio)
                &&& h.mode@ == mode@
                &&& h.model@ == model@
                &&& h.lang@ == lang@
                &&& h.raw@ == raw@
                &&& h.text@ == text@
                &&& h.corrected == (text@ != raw@)
                &&& h.duration_ms == duration_ms
                &&& h.latency_ms == latency_ms
            },
            None => text@.len() == 0 && audio is None,
        },
{
    if text.is_empty() && audio.is_none() {
        return None;
    }
    let corrected: bool = !same(text, raw);
    Some(
        HistoryRecord {
            ts,
            audio,
            mode,
            model,
            lang,
            raw,
            text,
            corrected,
            duration_ms,
            latency_ms,
        },
    )
}

/// The line of the plain log for a text at time `ts`: none where there is no text.
pub fn log_line(ts: &str, text: &str) -> (r: Option<String>)
    ensures
        match r {
            Some(line) => text@.len() > 0 && line@ == "["@ + ts@ + "] "@ + text@,
            None => text@.len() == 0,
        },
{
    if text.is_empty() {
        None
    } else {
        Some("[".to_owned().concat(ts).concat("] ").concat(text))
    }
}

/// The name of the archived audio for a time stamp.
pub fn audio_name(stamp: &str) -> (r: String)
    ensures
        r@ == stamp@ + ".flac"@,
{
    stamp.to_owned().concat(".flac")
}

/// How many rows are shown where no number is given.
pub const DEFAULT_COUNT: usize = 20;

/// The first of the rows that are shown: the last `count` ones are.
pub fn first_shown(rows: usize, count: Option<usize>) -> (r: usize)
    ensures
        ({
            let n = match count {
                Some(c) => c,
                None => DEFAULT_COUNT,
            };
            r == (if n < rows { rows - n } else { 0 })
        }),
{
    let n: usize = match count {
        Some(c) => c,
        None => DEFAULT_COUNT,
    };
    if n < rows {
        rows - n
    } else {
        0
    }
}

/// A time as it is shown: without the fraction, and with a space before the hour.
pub open spec fn shown_time(ts: Seq<char>) -> Seq<char> {
    let whole = text::split(ts, '.')[0];
    Seq::new(whole.len(), |i: int| if whole[i] == 'T' { ' ' } else { whole[i] })
}

fn show_time(ts: &str) -> (r: String)
    ensures
        r@ == shown_time(ts@),
{
    let pieces: Vec<String> = split_on(ts, '.');
    let chars: Vec<char> = to_chars(pieces[0].as_str());
    assert(chars@ == text::views(pieces@)[0]);
    let mut r: Vec<char> = Vec::new();
    let mut i: usize = 0;
    while i < chars.len()
        invariant
            i <= chars@.len(),
            r@.len() == i,
            chars@ == text::split(ts@, '.')[0],
            forall|j: int| 0 <= j < i ==> #[trigger] r@[j] == shown_time(ts@)[j],
        decreases chars.len() - i,
    {
        let c: char = chars[i];
        r.push(
            if c == 'T' {
                ' '
            } else {
                c
            },
        );
        i += 1;
    }
    let s: String = from_chars(&r, 0, r.len());
    assert(s@ =~= shown_time(ts@));
    s
}

/// What a row without a field shows for it.
pub open spec fn or_blank(s: Option<Seq<char>>) -> Seq<char> {
    match s {
        Some(t) => t,
        None => ""@,
    }
}

/// How a row is shown, given what it holds under "ts" and "text".
pub fn show_entry(ts: Option<String>, text: Option<String>) -> (r: String)
    ensures
        r@ == shown_time(or_blank(state::opt_view(ts))) + "  "@ + or_blank(state::opt_view(text)),
{
    let ts: String = match ts {
        Some(t) => t,
        None => "".to_owned(),
    };
    let text: String = match text {
        Some(t) => t,
        None => "".to_owned(),
    };
    show_time(ts.as_str()).as_str().to_owned().concat("  ").concat(text.as_str())
}

/// How a row is shown: not at all where it is not JSON.
pub fn show_row(row: &str) -> (r: Option<String>)
    ensures
        state::opt_view(r) == match json::parsed(row@) {
            Some(j) => Some(
                shown_time(or_blank(asr::string_field(j, "ts"@))) + "  "@ + or_blank(
                    asr::string_field(j, "text"@),
                ),
            ),
            None => None,
        },
{
    match json::parse(row) {
        Ok(v) => Some(show_entry(get_string(&v, "ts"), get_string(&v, "text"))),
        Err(_) => None,
    }
}

/// A time is shown as its date and its hour with a space between them, without what comes after the
/// point.
pub proof fn law_time_is_shown_to_the_second(
    date: Seq<char>,
    hour: Seq<char>,
    fraction: Seq<char>,
)
    requires
        text::lacks(date, 'T') && text::lacks(date, '.'),
        text::lacks(hour, 'T') && text::lacks(hour, '.'),
    ensures
        shown_time(date + seq!['T'] + hour + seq!['.'] + fraction) == date + seq![' '] + hour,
        shown_time(date + seq!['T'] + hour) == date + seq![' '] + hour,
{
    let whole = date + seq!['T'] + hour;
    assert forall|i: int| 0 <= i < whole.len() implies #[trigger] whole[i] != '.' by {
        if i < date.len() {
            assert(whole[i] == date[i]);
        } else if i > date.len() {
            assert(whole[i] == hour[i - date.len() - 1]);
        }
    }
    text::lemma_split_first(whole, '.', fraction);
    text::lemma_split_none(whole, '.');
    let shown = date + seq![' '] + hour;
    assert forall|i: int| 0 <= i < whole.len() implies #[trigger] shown[i] == (if whole[i] == 'T' {
        ' '
    } else {
        whole[i]
    }) by {
        if i < date.len() {
            assert(whole[i] == date[i]);
        } else if i > date.len() {
            assert(whole[i] == hour[i - date.len() - 1]);
        }
    }
    assert(shown_time(whole) =~= shown);
    assert(shown_time(whole + seq!['.'] + fraction) =~= shown);
}

/// What a row has is shown, and what it has not leaves a blank.
pub proof fn law_missing_fields_are_blank(s: Seq<char>)
    ensures
        or_blank(Some(s)) == s,
        or_blank(None).len() == 0,
{
    reveal_strlit("");
}

} // verus!
