//! Transcripts that grow while they are spoken.

use crate::text;
use crate::text::ends_with;
use vstd::prelude::*;

verus! {

/// News of a live transcript.
pub enum TranscriptEvent {
    /// New text that will not change, and all such text so far.
    Final { delta: String, accumulated: String },
    /// Text that may still change.
    Interim(String),
}

/// News of a live transcript.
pub ghost enum EventView {
    Final { delta: Seq<char>, accumulated: Seq<char> },
    Interim(Seq<char>),
}

impl View for TranscriptEvent {
    type V = EventView;

    open spec fn view(&self) -> EventView {
        match self {
            TranscriptEvent::Final { delta, accumulated } => EventView::Final {
                delta: delta@,
                accumulated: accumulated@,
            },
            TranscriptEvent::Interim(text) => EventView::Interim(text@),
        }
    }
}

/// The news in a list of events.
pub open spec fn event_views(v: Seq<TranscriptEvent>) -> Seq<EventView> {
    Seq::new(v.len(), |i: int| v[i]@)
}

/// The news in an optional event.
pub open spec fn event_view(e: Option<TranscriptEvent>) -> Option<EventView> {
    match e {
        Some(e) => Some(e@),
        None => None,
    }
}

/// What is done about an event.
pub enum LiveAction {
    /// Show the text so far and insert the new part, unless it only goes to the clipboard.
    ShowFinal { text: String, insert: Option<String> },
    /// Show text that may still change.
    ShowPending(String),
}

/// The record of a live transcript.
pub struct LiveLog {
    /// The text that will not change.
    pub accumulated: String,
    /// The text that may still change.
    pub pending: String,
    /// Whether the input method took text.
    pub ime_used: bool,
}

/// The record of a live transcript.
#[verifier::ext_equal]
pub ghost struct LogView {
    pub accumulated: Seq<char>,
    pub pending: Seq<char>,
    pub ime_used: bool,
}

impl View for LiveLog {
    type V = LogView;

    open spec fn view(&self) -> LogView {
        LogView {
            accumulated: self.accumulated@,
            pending: self.pending@,
            ime_used: self.ime_used,
        }
    }
}

impl LogView {
    /// The record after an event.
    pub open spec fn after(self, ev: EventView) -> LogView {
        match ev {
            EventView::Final { accumulated, .. } => LogView {
                accumulated,
                pending: Seq::empty(),
                ..self
            },
            EventView::Interim(text) => LogView { pending: text, ..self },
        }
    }

    /// The whole text: what may still have changed comes last, after a space.
    pub open spec fn flushed(self) -> Seq<char> {
        if self.pending.len() == 0 {
            self.accumulated
        } else if self.accumulated.len() == 0 || text::ends_in(self.accumulated, ' ') {
            self.accumulated + self.pending
        } else {
            self.accumulated.push(' ') + self.pending
        }
    }
}

impl LiveAction {
    /// Whether this is what is done about an event, where the text only goes to the clipboard or
    /// not.
    pub open spec fn answers(&self, ev: EventView, is_clipboard: bool) -> bool {
        match ev {
            EventView::Final { delta, accumulated } => {
                &&& self is ShowFinal
                &&& self->text@ == accumulated
                &&& self->insert is None == is_clipboard
                &&& !is_clipboard ==> self->insert->0@ == delta
            },
            EventView::Interim(text) => self is ShowPending && self->ShowPending_0@ == text,
        }
    }
}

impl LiveLog {
    /// An empty record.
    pub fn new() -> (r: LiveLog)
        ensures
            r@ == (LogView {
                accumulated: Seq::empty(),
                pending: Seq::empty(),
                ime_used: false,
            }),
    {
        let r: LiveLog = LiveLog {
            accumulated: String::new(),
            pending: String::new(),
            ime_used: false,
        };
        assert(r@ =~= LogView {
            accumulated: Seq::empty(),
            pending: Seq::empty(),
            ime_used: false,
        });
        r
    }

    /// Records an event.
    pub fn event(&mut self, ev: TranscriptEvent, is_clipboard: bool) -> (r: LiveAction)
        ensures
            final(self)@ == old(self)@.after(ev@),
            r.answers(ev@, is_clipboard),
    {
        match ev {
            TranscriptEvent::Final { delta, accumulated } => {
                self.accumulated = accumulated.clone();
                self.pending = String::new();
                assert(self.pending@ =~= Seq::<char>::empty());
                let insert: Option<String> = if is_clipboard {
                    None
                } else {
                    Some(delta)
                };
                LiveAction::ShowFinal { text: accumulated, insert }
            },
            TranscriptEvent::Interim(text) => {
                self.pending = text.clone();
                LiveAction::ShowPending(text)
            },
        }
    }

    /// Records whether the input method took the text it was given.
    pub fn typed(&mut self, taken: bool)
        ensures
            final(self)@ == (LogView { ime_used: old(self).ime_used || taken, ..old(self)@ }),
    {
        self.ime_used = self.ime_used || taken;
    }

    /// Takes text that never became final as it is, at the end of the recording. Returns what is
    /// to be inserted, unless the text only goes to the clipboard.
    pub fn flush(&mut self, is_clipboard: bool) -> (r: Option<String>)
        ensures
            final(self)@ == (LogView { accumulated: old(self)@.flushed(), ..old(self)@ }),
            r is Some == (old(self).pending@.len() > 0 && !is_clipboard),
            r is Some ==> r->0@ == old(self).pending@,
    {
        if self.pending.as_str().is_empty() {
            return None;
        }
        if !self.accumulated.as_str().is_empty() && !ends_with(self.accumulated.as_str(), ' ') {
            self.accumulated.push(' ');
        }
        self.accumulated.append(self.pending.as_str());
        if is_clipboard {
            None
        } else {
            Some(self.pending.clone())
        }
    }
}

/// Nothing that was recognised is lost: the text at the end of a recording begins with all that
/// was final and ends with all that was not yet.
pub proof fn law_flush_keeps_everything(log: LogView)
    ensures
        log.accumulated.is_prefix_of(log.flushed()),
        log.pending.is_suffix_of(log.flushed()),
        log.accumulated.len() + log.pending.len() <= log.flushed().len(),
        log.flushed().len() <= log.accumulated.len() + log.pending.len() + 1,
{
    let f = log.flushed();
    assert(log.accumulated =~= f.subrange(0, log.accumulated.len() as int));
    assert(log.pending =~= f.subrange(f.len() - log.pending.len(), f.len() as int));
}

/// Final text is all that counts from then on, and takes the place of what was not final yet. Text
/// that may still change takes the place of other such text, and leaves what is final alone.
pub proof fn law_final_text_replaces_pending(
    log: LogView,
    delta: Seq<char>,
    accumulated: Seq<char>,
    text: Seq<char>,
)
    ensures
        ({
            let l = log.after(EventView::Final { delta, accumulated });
            &&& l.accumulated == accumulated
            &&& l.pending.len() == 0
            &&& l.ime_used == log.ime_used
            &&& l.flushed() == accumulated
        }),
        ({
            let l = log.after(EventView::Interim(text));
            &&& l.accumulated == log.accumulated
            &&& l.pending == text
            &&& l.ime_used == log.ime_used
        }),
{
}

/// One space stands between what was final and what was not yet, and only where it is needed.
pub proof fn law_one_space_stands_between(log: LogView)
    requires
        log.pending.len() > 0,
    ensures
        log.accumulated.len() == 0 ==> log.flushed() == log.pending,
        log.accumulated.len() > 0 && log.accumulated.last() == ' ' ==> log.flushed()
            == log.accumulated + log.pending,
        log.accumulated.len() > 0 && log.accumulated.last() != ' ' ==> log.flushed()
            == log.accumulated + seq![' '] + log.pending,
{
    assert(log.accumulated.push(' ') =~= log.accumulated + seq![' ']);
    assert(Seq::<char>::empty() + log.pending =~= log.pending);
    if log.accumulated.len() == 0 {
        assert(log.accumulated =~= Seq::<char>::empty());
    }
}

/// What is inserted is the new part of the text and no more, and what is shown is the whole. On
/// the clipboard nothing is inserted. Text that may still change is shown and never inserted.
pub proof fn law_only_new_final_text_is_inserted(
    action: LiveAction,
    delta: Seq<char>,
    accumulated: Seq<char>,
    text: Seq<char>,
    is_clipboard: bool,
)
    ensures
        action.answers(EventView::Final { delta, accumulated }, is_clipboard) ==> {
            &&& action is ShowFinal
            &&& action->text@ == accumulated
            &&& is_clipboard ==> action->insert is None
            &&& !is_clipboard ==> action->insert is Some && action->insert->0@ == delta
        },
        action.answers(EventView::Interim(text), is_clipboard) ==> {
            &&& action is ShowPending
            &&& action->ShowPending_0@ == text
        },
{
}

} // verus!
