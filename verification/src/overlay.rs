//! The overlay's decisions: what a command changes in the panel of text and the row of status
//! circles, how the text is cut into lines and coloured pieces. How far an animation has come is
//! held by the caller, in the type parameter of a circle.

use crate::text;
use crate::text::{
    byte_len, ends_with, find_cut, floor_cut, from_chars, same, show, to_chars,
};
use vstd::prelude::*;

verus! {

/// The height of a circle and of the smallest panel.
pub const PILL_SIZE: u32 = 56;

/// The space for the shadow above the panel.
pub const SHADOW_PAD: u32 = 26;

/// The space for the shadow below the panel.
pub const SHADOW_PAD_BOT: u32 = 8;

/// The space above the text, and below it.
pub const PADDING_Y: u32 = 6;

/// How an utterance ended.
#[derive(Clone, Copy, PartialEq, Eq, Structural)]
pub enum DoneKind {
    Delivered,
    Copied,
    Dismissed,
    Failed,
}

/// What a circle stands for.
#[derive(Clone, Copy, PartialEq, Eq, Structural)]
pub enum IndicatorKind {
    Recording,
    Processing,
    Done(DoneKind),
}

/// The status circle of one utterance, with its animation.
pub struct Indicator<A> {
    pub id: u64,
    pub kind: IndicatorKind,
    /// Whether it is known how long processing will take.
    pub eta_set: bool,
    pub anim: A,
}

/// What the overlay is told.
pub enum Command {
    /// Begin a circle for an utterance.
    Start(u64),
    /// An utterance awaits its transcript; `timed` where it is known for how long.
    Processing { id: u64, timed: bool },
    /// An utterance is over: its circle shows how, then fades.
    Done(u64, DoneKind),
    SetText(String),
    SetPending(String),
    /// Show a line for a moment, in every mode.
    Toast(String),
    Correcting,
    SetInfo(String, String),
    /// Show the circles but never the text panel.
    SetStatusOnly(bool),
}

/// What the overlay is told.
pub ghost enum CommandView {
    Start(u64),
    Processing { id: u64, timed: bool },
    Done(u64, DoneKind),
    SetText(Seq<char>),
    SetPending(Seq<char>),
    Toast(Seq<char>),
    Correcting,
    SetInfo(Seq<char>, Seq<char>),
    SetStatusOnly(bool),
}

impl View for Command {
    type V = CommandView;

    open spec fn view(&self) -> CommandView {
        match self {
            Command::Start(id) => CommandView::Start(*id),
            Command::Processing { id, timed } => CommandView::Processing { id: *id, timed: *timed },
            Command::Done(id, kind) => CommandView::Done(*id, *kind),
            Command::SetText(t) => CommandView::SetText(t@),
            Command::SetPending(t) => CommandView::SetPending(t@),
            Command::Toast(t) => CommandView::Toast(t@),
            Command::Correcting => CommandView::Correcting,
            Command::SetInfo(m, l) => CommandView::SetInfo(m@, l@),
            Command::SetStatusOnly(b) => CommandView::SetStatusOnly(*b),
        }
    }
}

/// Where a fade is set to.
#[derive(Clone, Copy, PartialEq, Eq, Structural)]
pub enum Level {
    Zero,
    Full,
}

/// What becomes of the time that the text is still shown.
#[derive(Clone, Copy, PartialEq, Eq, Structural)]
pub enum ToastChange {
    Keep,
    Clear,
    /// As long as a message is shown.
    Message,
    /// As long as a finished transcript of so many bytes is shown.
    Transcript(u128),
}

/// How the panel's morphing into a circle is set.
#[derive(Clone, Copy, PartialEq, Eq, Structural)]
pub enum Morph {
    Keep,
    /// It is to grow back.
    Back,
    /// It is back at once.
    Reset,
}

/// What a command does to the animations.
#[derive(Clone, Copy, PartialEq, Eq, Structural)]
pub struct Effects {
    /// Fade the overlay in.
    pub fade_in: bool,
    pub morph: Morph,
    pub correct_fade: Option<Level>,
    pub chunk_fade: Option<Level>,
    pub finalize_fade: Option<Level>,
    pub toast: ToastChange,
    /// Begin to count time from now.
    pub restart_clock: bool,
    /// The circle that the command is about.
    pub touched: Option<usize>,
    /// Fit the size to the content and draw.
    pub redraw: bool,
}

/// No effect.
pub open spec fn no_effects() -> Effects {
    Effects {
        fade_in: false,
        morph: Morph::Keep,
        correct_fade: None,
        chunk_fade: None,
        finalize_fade: None,
        toast: ToastChange::Keep,
        restart_clock: false,
        touched: None,
        redraw: false,
    }
}

fn quiet() -> (r: Effects)
    ensures
        r == no_effects(),
{
    Effects {
        fade_in: false,
        morph: Morph::Keep,
        correct_fade: None,
        chunk_fade: None,
        finalize_fade: None,
        toast: ToastChange::Keep,
        restart_clock: false,
        touched: None,
        redraw: false,
    }
}

/// How far the animations are.
#[derive(Clone, Copy, PartialEq, Eq, Structural)]
pub struct Progress {
    /// New text is fully visible.
    pub chunk_done: bool,
    /// Text that became final has its colour.
    pub finalize_done: bool,
    /// Text is still to be shown for some time.
    pub toast: bool,
}

/// What the overlay shows.
pub struct Panel<A> {
    pub visible: bool,
    pub correcting: bool,
    pub status_only: bool,
    pub text: String,
    pub pending: String,
    pub mode: String,
    pub lang: String,
    /// Whether the text must be cut into lines again.
    pub wrapped_dirty: bool,
    /// How many bytes of the shown text are fully visible.
    pub reveal_len: u128,
    /// How many bytes of it have the colour of final text.
    pub color_split: u128,
    pub indicators: Vec<Indicator<A>>,
}

/// What the overlay shows.
#[verifier::ext_equal]
pub ghost struct PanelView<A> {
    pub visible: bool,
    pub correcting: bool,
    pub status_only: bool,
    pub text: Seq<char>,
    pub pending: Seq<char>,
    pub mode: Seq<char>,
    pub lang: Seq<char>,
    pub wrapped_dirty: bool,
    pub reveal_len: int,
    pub color_split: int,
    pub indicators: Seq<Indicator<A>>,
}

impl<A> View for Panel<A> {
    type V = PanelView<A>;

    open spec fn view(&self) -> PanelView<A> {
        PanelView {
            visible: self.visible,
            correcting: self.correcting,
            status_only: self.status_only,
            text: self.text@,
            pending: self.pending@,
            mode: self.mode@,
            lang: self.lang@,
            wrapped_dirty: self.wrapped_dirty,
            reveal_len: self.reveal_len as int,
            color_split: self.color_split as int,
            indicators: self.indicators@,
        }
    }
}

/// The space between text and pending text.
pub open spec fn separator(text: Seq<char>, pending: Seq<char>) -> Seq<char> {
    if text.len() > 0 && pending.len() > 0 && !text::ends_in(text, ' ') {
        seq![' ']
    } else {
        Seq::empty()
    }
}

/// The shown text: what is final, then what may still change.
pub open spec fn shown(text: Seq<char>, pending: Seq<char>) -> Seq<char> {
    text + separator(text, pending) + pending
}

/// Whether the circle of utterance `id` is at position `i`.
pub open spec fn slot<A>(inds: Seq<Indicator<A>>, id: u64, i: int) -> bool {
    &&& 0 <= i < inds.len()
    &&& inds[i].id == id
    &&& forall|j: int| 0 <= j < i ==> (#[trigger] inds[j]).id != id
}

/// The position of the circle of utterance `id`.
pub open spec fn slot_of<A>(inds: Seq<Indicator<A>>, id: u64) -> Option<int> {
    if exists|i: int| slot(inds, id, i) {
        Some(choose|i: int| slot(inds, id, i))
    } else {
        None
    }
}

/// The circles after utterance `id` came to stand for `kind`: its circle, else a new one with the
/// animation `fresh`.
pub open spec fn with_kind<A>(
    inds: Seq<Indicator<A>>,
    id: u64,
    kind: IndicatorKind,
    eta_set: bool,
    fresh: A,
) -> Seq<Indicator<A>> {
    match slot_of(inds, id) {
        Some(i) => inds.update(i, Indicator { kind, eta_set, ..inds[i] }),
        None => inds.push(Indicator { id, kind, eta_set, anim: fresh }),
    }
}

/// The position of the circle of utterance `id`, a new one being the last.
pub open spec fn touched_slot<A>(inds: Seq<Indicator<A>>, id: u64) -> int {
    match slot_of(inds, id) {
        Some(i) => i,
        None => inds.len() as int,
    }
}

impl<A> PanelView<A> {
    /// The shown text.
    pub open spec fn display(self) -> Seq<char> {
        shown(self.text, self.pending)
    }

    /// How much of the text is visible after it changed, and where the fade of new text is set to.
    /// While correcting all of it is visible at once.
    pub open spec fn revealed(self, p: Progress) -> (int, Option<Level>) {
        let n = text::utf8_len(self.display()) as int;
        if self.correcting {
            (n, Some(Level::Full))
        } else if n < self.reveal_len {
            (n, None)
        } else {
            (self.reveal_len, if n > self.reveal_len && p.chunk_done { Some(Level::Zero) } else { None })
        }
    }

    /// How much of the text has the colour of final text after the final text changed, and where
    /// the fade of its colour is set to.
    pub open spec fn finalized(self, p: Progress) -> (int, Option<Level>) {
        let n = text::utf8_len(self.text) as int;
        if self.correcting {
            (n, Some(Level::Full))
        } else if n < self.color_split {
            (n, None)
        } else {
            (
                self.color_split,
                if n > self.color_split && p.finalize_done { Some(Level::Zero) } else { None },
            )
        }
    }

    /// The panel and the effects after the final text was set to `t`.
    pub open spec fn with_text(self, t: Seq<char>, p: Progress) -> (PanelView<A>, Effects) {
        let s = PanelView { text: t, pending: Seq::empty(), wrapped_dirty: true, ..self };
        let (reveal_len, chunk_fade) = s.revealed(p);
        let (color_split, finalize_fade) = s.finalized(p);
        (
            PanelView { reveal_len, color_split, ..s },
            Effects { morph: Morph::Back, chunk_fade, finalize_fade, ..no_effects() },
        )
    }

    /// What a command does.
    pub open spec fn command(self, cmd: CommandView, fresh: A, p: Progress) -> (
        PanelView<A>,
        Effects,
    ) {
        match cmd {
            CommandView::Start(id) => (
                PanelView {
                    visible: true,
                    correcting: false,
                    text: Seq::empty(),
                    pending: Seq::empty(),
                    wrapped_dirty: true,
                    reveal_len: 0,
                    color_split: 0,
                    indicators: with_kind(
                        self.indicators,
                        id,
                        IndicatorKind::Recording,
                        false,
                        fresh,
                    ),
                    ..self
                },
                Effects {
                    fade_in: true,
                    morph: Morph::Reset,
                    chunk_fade: Some(Level::Full),
                    finalize_fade: Some(Level::Full),
                    toast: ToastChange::Clear,
                    restart_clock: true,
                    touched: Some(touched_slot(self.indicators, id) as usize),
                    redraw: true,
                    ..no_effects()
                },
            ),
            CommandView::Processing { id, timed } => (
                PanelView {
                    visible: true,
                    indicators: with_kind(
                        self.indicators,
                        id,
                        IndicatorKind::Processing,
                        timed,
                        fresh,
                    ),
                    ..self
                },
                Effects {
                    fade_in: true,
                    touched: Some(touched_slot(self.indicators, id) as usize),
                    redraw: true,
                    ..no_effects()
                },
            ),
            CommandView::Done(id, kind) => (
                match slot_of(self.indicators, id) {
                    Some(i) => PanelView {
                        indicators: self.indicators.update(
                            i,
                            Indicator {
                                kind: IndicatorKind::Done(kind),
                                ..self.indicators[i]
                            },
                        ),
                        ..self
                    },
                    None => self,
                },
                Effects {
                    touched: match slot_of(self.indicators, id) {
                        Some(i) => Some(i as usize),
                        None => None,
                    },
                    toast: if !self.status_only && self.text.len() > 0 && !p.toast {
                        ToastChange::Transcript(text::utf8_len(self.text) as u128)
                    } else {
                        ToastChange::Keep
                    },
                    redraw: true,
                    ..no_effects()
                },
            ),
            // Status-only shows only the circles: transcripts are ignored.
            CommandView::SetText(t) => if self.status_only {
                (self, no_effects())
            } else {
                let (s, e) = self.with_text(t, p);
                (
                    s,
                    Effects {
                        correct_fade: if self.correcting && self.text != t {
                            Some(Level::Zero)
                        } else {
                            None
                        },
                        redraw: self.visible,
                        ..e
                    },
                )
            },
            CommandView::SetPending(t) => if self.status_only {
                (self, no_effects())
            } else {
                let s = PanelView { pending: t, wrapped_dirty: true, ..self };
                let (reveal_len, chunk_fade) = s.revealed(p);
                (
                    PanelView { reveal_len, ..s },
                    Effects {
                        morph: Morph::Back,
                        chunk_fade,
                        redraw: self.visible,
                        ..no_effects()
                    },
                )
            },
            CommandView::Toast(t) => {
                let (s, e) = (PanelView { visible: true, correcting: false, ..self }).with_text(
                    t,
                    p,
                );
                (
                    s,
                    Effects { fade_in: true, toast: ToastChange::Message, redraw: true, ..e },
                )
            },
            CommandView::Correcting => (
                PanelView { correcting: true, ..self },
                Effects { correct_fade: Some(Level::Full), redraw: true, ..no_effects() },
            ),
            CommandView::SetInfo(mode, lang) => (PanelView { mode, lang, ..self }, no_effects()),
            CommandView::SetStatusOnly(status_only) => (
                PanelView { status_only, ..self },
                no_effects(),
            ),
        }
    }

    /// Whether the text panel is shown: a toast, a transcript or a correction. Otherwise the
    /// circles are.
    pub open spec fn text_active(self, toast: bool) -> bool {
        toast || (!self.status_only && (self.text.len() > 0 || self.pending.len() > 0
            || self.correcting))
    }

    /// Whether nothing is in flight and there is nothing to show.
    pub open spec fn idle(self, toast: bool) -> bool {
        self.indicators.len() == 0 && !toast && self.text.len() == 0 && self.pending.len() == 0
            && !self.correcting
    }
}

/// The shown text.
pub fn show_text(text: &str, pending: &str) -> (r: String)
    ensures
        r@ == shown(text@, pending@),
{
    let mut r: String = text.to_owned();
    if !pending.is_empty() {
        if !text.is_empty() && !ends_with(text, ' ') {
            r.push(' ');
        }
        r.append(pending);
    }
    assert(r@ =~= shown(text@, pending@));
    r
}

impl<A> Panel<A> {
    /// A hidden panel without content.
    pub fn new() -> (r: Panel<A>)
        ensures
            r@ == (PanelView::<A> {
                visible: false,
                correcting: false,
                status_only: false,
                text: Seq::empty(),
                pending: Seq::empty(),
                mode: Seq::empty(),
                lang: Seq::empty(),
                wrapped_dirty: true,
                reveal_len: 0,
                color_split: 0,
                indicators: Seq::empty(),
            }),
    {
        let r: Panel<A> = Panel {
            visible: false,
            correcting: false,
            status_only: false,
            text: String::new(),
            pending: String::new(),
            mode: String::new(),
            lang: String::new(),
            wrapped_dirty: true,
            reveal_len: 0,
            color_split: 0,
            indicators: Vec::new(),
        };
        assert(r.text@ =~= Seq::<char>::empty());
        assert(r.pending@ =~= Seq::<char>::empty());
        assert(r.mode@ =~= Seq::<char>::empty());
        assert(r.lang@ =~= Seq::<char>::empty());
        r
    }

    /// The shown text.
    pub fn display_text(&self) -> (r: String)
        ensures
            r@ == self@.display(),
    {
        show_text(self.text.as_str(), self.pending.as_str())
    }

    fn find_slot(&self, id: u64) -> (r: Option<usize>)
        ensures
            match r {
                Some(i) => slot(self.indicators@, id, i as int) && slot_of(self.indicators@, id)
                    == Some(i as int),
                None => slot_of(self.indicators@, id) is None,
            },
    {
        let mut i: usize = 0;
        while i < self.indicators.len()
            invariant
                i <= self.indicators@.len(),
                forall|j: int| 0 <= j < i ==> (#[trigger] self.indicators@[j]).id != id,
            decreases self.indicators.len() - i,
        {
            if self.indicators[i].id == id {
                proof {
                    let inds = self.indicators@;
                    assert(slot(inds, id, i as int));
                    let k = choose|k: int| slot(inds, id, k);
                    assert(slot(inds, id, k));
                    assert(k == i);
                }
                return Some(i);
            }
            i += 1;
        }
        proof {
            assert forall|k: int| !slot(self.indicators@, id, k) by {
                if 0 <= k < self.indicators@.len() {
                    assert(self.indicators@[k].id != id);
                }
            }
        }
        None
    }

    fn set_kind(&mut self, id: u64, kind: IndicatorKind, eta_set: bool, fresh: A) -> (at: usize)
        ensures
            final(self)@ == (PanelView {
                indicators: with_kind(old(self).indicators@, id, kind, eta_set, fresh),
                ..old(self)@
            }),
            at == touched_slot(old(self).indicators@, id),
    {
        match self.find_slot(id) {
            Some(i) => {
                let ghost before = self.indicators@;
                self.indicators[i].kind = kind;
                self.indicators[i].eta_set = eta_set;
                assert(self.indicators@ =~= before.update(
                    i as int,
                    Indicator { kind, eta_set, ..before[i as int] },
                ));
                i
            },
            None => {
                let at: usize = self.indicators.len();
                self.indicators.push(Indicator { id, kind, eta_set, anim: fresh });
                at
            },
        }
    }

    /// Brings the visible part of the text up to date. Returns where the fade of new text is set.
    fn update_reveal(&mut self, p: Progress) -> (r: Option<Level>)
        ensures
            final(self)@ == (PanelView { reveal_len: old(self)@.revealed(p).0, ..old(self)@ }),
            r == old(self)@.revealed(p).1,
    {
        let n: u128 = byte_len(self.display_text().as_str());
        if self.correcting {
            self.reveal_len = n;
            return Some(Level::Full);
        }
        if n < self.reveal_len {
            self.reveal_len = n;
        }
        if n > self.reveal_len && p.chunk_done {
            Some(Level::Zero)
        } else {
            None
        }
    }

    /// Brings the coloured part of the text up to date. Returns where the fade of its colour is
    /// set.
    fn update_finalize(&mut self, p: Progress) -> (r: Option<Level>)
        ensures
            final(self)@ == (PanelView { color_split: old(self)@.finalized(p).0, ..old(self)@ }),
            r == old(self)@.finalized(p).1,
    {
        let n: u128 = byte_len(self.text.as_str());
        if self.correcting {
            self.color_split = n;
            return Some(Level::Full);
        }
        let fade: Option<Level> = if n > self.color_split && p.finalize_done {
            Some(Level::Zero)
        } else {
            None
        };
        if n < self.color_split {
            self.color_split = n;
        }
        fade
    }

    fn set_text(&mut self, t: String, p: Progress) -> (r: Effects)
        ensures
            (final(self)@, r) == old(self)@.with_text(t@, p),
    {
        self.text = t;
        self.pending = String::new();
        assert(self.pending@ =~= Seq::<char>::empty());
        self.wrapped_dirty = true;
        let chunk_fade: Option<Level> = self.update_reveal(p);
        let finalize_fade: Option<Level> = self.update_finalize(p);
        let mut e: Effects = quiet();
        e.morph = Morph::Back;
        e.chunk_fade = chunk_fade;
        e.finalize_fade = finalize_fade;
        e
    }

    /// Carries out a command; a new circle gets the animation `fresh`.
    pub fn command(&mut self, cmd: Command, fresh: A, p: Progress) -> (r: Effects)
        ensures
            (final(self)@, r) == old(self)@.command(cmd@, fresh, p),
    {
        let mut e: Effects = quiet();
        match cmd {
            Command::Start(id) => {
                let at: usize = self.set_kind(id, IndicatorKind::Recording, false, fresh);
                self.visible = true;
                self.correcting = false;
                self.text = String::new();
                self.pending = String::new();
                assert(self.text@ =~= Seq::<char>::empty());
                assert(self.pending@ =~= Seq::<char>::empty());
                self.wrapped_dirty = true;
                self.reveal_len = 0;
                self.color_split = 0;
                e.fade_in = true;
                e.morph = Morph::Reset;
                e.chunk_fade = Some(Level::Full);
                e.finalize_fade = Some(Level::Full);
                e.toast = ToastChange::Clear;
                e.restart_clock = true;
                e.touched = Some(at);
                e.redraw = true;
                e
            },
            Command::Processing { id, timed } => {
                let at: usize = self.set_kind(id, IndicatorKind::Processing, timed, fresh);
                self.visible = true;
                e.fade_in = true;
                e.touched = Some(at);
                e.redraw = true;
                e
            },
            Command::Done(id, kind) => {
                if let Some(i) = self.find_slot(id) {
                    let ghost before = self.indicators@;
                    self.indicators[i].kind = IndicatorKind::Done(kind);
                    assert(self.indicators@ =~= before.update(
                        i as int,
                        Indicator { kind: IndicatorKind::Done(kind), ..before[i as int] },
                    ));
                    e.touched = Some(i);
                }
                if !self.status_only && !self.text.as_str().is_empty() && !p.toast {
                    e.toast = ToastChange::Transcript(byte_len(self.text.as_str()));
                }
                e.redraw = true;
                e
            },
            Command::SetText(t) => {
                if self.status_only {
                    return e;
                }
                let changed: bool = self.correcting && !same(self.text.as_str(), t.as_str());
                let mut e: Effects = self.set_text(t, p);
                if changed {
                    e.correct_fade = Some(Level::Zero);
                }
                e.redraw = self.visible;
                e
            },
            Command::SetPending(t) => {
                if self.status_only {
                    return e;
                }
                self.pending = t;
                self.wrapped_dirty = true;
                e.chunk_fade = self.update_reveal(p);
                e.morph = Morph::Back;
                e.redraw = self.visible;
                e
            },
            Command::Toast(t) => {
                self.visible = true;
                self.correcting = false;
                let mut e: Effects = self.set_text(t, p);
                e.fade_in = true;
                e.toast = ToastChange::Message;
                e.redraw = true;
                e
            },
            Command::Correcting => {
                self.correcting = true;
                e.correct_fade = Some(Level::Full);
                e.redraw = true;
                e
            },
            Command::SetInfo(mode, lang) => {
                self.mode = mode;
                self.lang = lang;
                e
            },
            Command::SetStatusOnly(v) => {
                self.status_only = v;
                e
            },
        }
    }
}

// ---------------------------------------------------------------------------------------------
// The passing of time

/// The circles that stay: all but the finished ones that have faded.
pub open spec fn lasting<A>(inds: Seq<Indicator<A>>, faded: Seq<bool>) -> Seq<Indicator<A>>
    decreases inds.len(),
{
    if inds.len() == 0 {
        Seq::empty()
    } else {
        let before = lasting(inds.drop_last(), faded);
        if inds.last().kind is Done && faded[inds.len() - 1] {
            before
        } else {
            before.push(inds.last())
        }
    }
}

impl<A> Panel<A> {
    /// Drops the circles that are finished and have faded.
    pub fn sweep(&mut self, faded: &[bool])
        requires
            faded@.len() == old(self).indicators@.len(),
        ensures
            final(self)@ == (PanelView {
                indicators: lasting(old(self).indicators@, faded@),
                ..old(self)@
            }),
    {
        let ghost all = self.indicators@;
        let mut k: usize = 0;
        let mut at: usize = 0;
        assert(all.take(0) =~= Seq::<Indicator<A>>::empty());
        assert(all.skip(0) =~= all);
        assert(lasting(all.take(0), faded@) + all =~= all);
        while k < faded.len()
            invariant
                k <= faded@.len() == all.len(),
                at <= k,
                at == lasting(all.take(k as int), faded@).len(),
                self@ == (PanelView {
                    indicators: lasting(all.take(k as int), faded@) + all.skip(k as int),
                    ..old(self)@
                }),
            decreases faded.len() - k,
        {
            let ghost kept = lasting(all.take(k as int), faded@);
            proof {
                assert(all.take(k + 1).drop_last() =~= all.take(k as int));
                assert(all.take(k + 1).last() == all[k as int]);
                assert(self.indicators@[at as int] == all[k as int]);
            }
            let done: bool = match self.indicators[at].kind {
                IndicatorKind::Done(_) => true,
                _ => false,
            };
            if done && faded[k] {
                let _gone: Indicator<A> = self.indicators.remove(at);
                assert(self.indicators@ =~= kept + all.skip(k + 1));
            } else {
                assert(self.indicators@ =~= kept.push(all[k as int]) + all.skip(k + 1));
                at += 1;
            }
            k += 1;
        }
        assert(all.take(k as int) =~= all);
        assert(self.indicators@ =~= lasting(all, faded@));
    }
}

impl<A> Panel<A> {
    /// The text was shown long enough: it goes away.
    pub fn toast_over(&mut self)
        ensures
            final(self)@ == (PanelView {
                text: Seq::empty(),
                pending: Seq::empty(),
                wrapped_dirty: true,
                ..old(self)@
            }),
    {
        self.text = String::new();
        self.pending = String::new();
        assert(self.text@ =~= Seq::<char>::empty());
        assert(self.pending@ =~= Seq::<char>::empty());
        self.wrapped_dirty = true;
    }

    /// New text has become fully visible.
    pub fn chunk_over(&mut self)
        ensures
            final(self)@ == (PanelView {
                reveal_len: text::utf8_len(old(self)@.display()) as int,
                ..old(self)@
            }),
    {
        self.reveal_len = byte_len(self.display_text().as_str());
    }

    /// Where the final text ends in the shown text.
    pub fn split_at(&self) -> (r: u128)
        ensures
            r == text::utf8_len(self.text@ + separator(self.text@, self.pending@)),
    {
        let mut t: String = self.text.clone();
        if !self.text.as_str().is_empty() && !self.pending.as_str().is_empty() && !ends_with(
            self.text.as_str(),
            ' ',
        ) {
            t.push(' ');
        }
        assert(t@ =~= self.text@ + separator(self.text@, self.pending@));
        byte_len(t.as_str())
    }

    /// Text that became final has got its colour.
    pub fn finalize_over(&mut self)
        ensures
            final(self)@ == (PanelView {
                color_split: text::utf8_len(
                    old(self).text@ + separator(old(self).text@, old(self).pending@),
                ) as int,
                ..old(self)@
            }),
    {
        self.color_split = self.split_at();
    }

    /// Whether the text panel is shown.
    pub fn text_active(&self, toast: bool) -> (r: bool)
        ensures
            r == self@.text_active(toast),
    {
        toast || (!self.status_only && (!self.text.as_str().is_empty()
            || !self.pending.as_str().is_empty() || self.correcting))
    }

    /// Whether nothing is in flight and there is nothing to show, so that the overlay fades out.
    pub fn idle(&self, toast: bool) -> (r: bool)
        ensures
            r == self@.idle(toast),
    {
        self.indicators.is_empty() && !toast && self.text.as_str().is_empty()
            && self.pending.as_str().is_empty() && !self.correcting
    }
}

/// Status-only mode never shows a transcript: without a toast, whatever text arrives, the circles
/// stay the display.
pub proof fn law_status_only_shows_no_transcript<A>(
    panel: PanelView<A>,
    t: Seq<char>,
    fresh: A,
    p: Progress,
)
    requires
        panel.status_only,
    ensures
        panel.command(CommandView::SetText(t), fresh, p).0 == panel,
        panel.command(CommandView::SetPending(t), fresh, p).0 == panel,
        !panel.text_active(false),
{
}

/// An utterance that is started has a circle, it keeps it while it is processed, and only when it
/// is done may that circle go.
pub proof fn law_circle_lasts_until_done<A>(inds: Seq<Indicator<A>>, faded: Seq<bool>, i: int)
    requires
        0 <= i < inds.len(),
        faded.len() == inds.len(),
        !(inds[i].kind is Done),
    ensures
        exists|j: int| 0 <= j < lasting(inds, faded).len() && #[trigger] lasting(inds, faded)[j] == inds[i],
{
    lemma_lasting(inds, faded, i);
}

proof fn lemma_lasting<A>(inds: Seq<Indicator<A>>, faded: Seq<bool>, i: int)
    requires
        0 <= i < inds.len(),
        !(inds[i].kind is Done),
    ensures
        exists|j: int| 0 <= j < lasting(inds, faded).len() && #[trigger] lasting(inds, faded)[j] == inds[i],
    decreases inds.len(),
{
    let kept = lasting(inds, faded);
    let before = lasting(inds.drop_last(), faded);
    if i == inds.len() - 1 {
        assert(kept[before.len() as int] == inds[i]);
    } else {
        lemma_lasting(inds.drop_last(), faded, i);
        let j = choose|j: int| 0 <= j < before.len() && #[trigger] before[j] == inds.drop_last()[i];
        assert(kept[j] == inds[i]);
    }
}

/// Where the circles that stay stand among all.
pub open spec fn staying<A>(inds: Seq<Indicator<A>>, faded: Seq<bool>) -> Seq<int>
    decreases inds.len(),
{
    if inds.len() == 0 {
        Seq::empty()
    } else {
        let before = staying(inds.drop_last(), faded);
        if inds.last().kind is Done && faded[inds.len() - 1] {
            before
        } else {
            before.push(inds.len() - 1)
        }
    }
}

/// With time, exactly the finished circles that have faded go: all others stay as they are, in
/// their order.
pub proof fn law_only_faded_circles_go<A>(inds: Seq<Indicator<A>>, faded: Seq<bool>)
    requires
        faded.len() == inds.len(),
    ensures
        lasting(inds, faded).len() == staying(inds, faded).len(),
        forall|j: int|
            0 <= j < staying(inds, faded).len() ==> 0 <= #[trigger] staying(inds, faded)[j]
                < inds.len() && lasting(inds, faded)[j] == inds[staying(inds, faded)[j]],
        forall|i: int, j: int|
            0 <= i < j < staying(inds, faded).len() ==> staying(inds, faded)[i]
                < staying(inds, faded)[j],
        forall|k: int|
            0 <= k < inds.len() ==> (#[trigger] staying(inds, faded).contains(k) <==> !(
            inds[k].kind is Done && faded[k])),
{
    lemma_staying(inds, faded);
}

proof fn lemma_staying<A>(inds: Seq<Indicator<A>>, faded: Seq<bool>)
    ensures
        lasting(inds, faded).len() == staying(inds, faded).len(),
        forall|j: int|
            0 <= j < staying(inds, faded).len() ==> 0 <= #[trigger] staying(inds, faded)[j]
                < inds.len() && lasting(inds, faded)[j] == inds[staying(inds, faded)[j]],
        forall|i: int, j: int|
            0 <= i < j < staying(inds, faded).len() ==> staying(inds, faded)[i]
                < staying(inds, faded)[j],
        forall|k: int|
            0 <= k < inds.len() ==> (#[trigger] staying(inds, faded).contains(k) <==> !(
            inds[k].kind is Done && faded[k])),
    decreases inds.len(),
{
    if inds.len() > 0 {
        let front = inds.drop_last();
        lemma_staying(front, faded);
        let before = staying(front, faded);
        let at = staying(inds, faded);
        assert forall|j: int| 0 <= j < at.len() implies 0 <= #[trigger] at[j] < inds.len()
            && lasting(inds, faded)[j] == inds[at[j]] by {
            if j < before.len() {
                assert(at[j] == before[j]);
                assert(front[before[j]] == inds[before[j]]);
            }
        }
        assert forall|i: int, j: int| 0 <= i < j < at.len() implies at[i] < at[j] by {
            assert(at[i] == before[i]);
            if j < before.len() {
                assert(at[j] == before[j]);
            }
        }
        assert forall|k: int| 0 <= k < inds.len() implies (#[trigger] at.contains(k) <==> !(
        inds[k].kind is Done && faded[k])) by {
            if k < front.len() {
                assert(front[k] == inds[k]);
                assert(before.contains(k) <==> !(inds[k].kind is Done && faded[k]));
                if before.contains(k) {
                    let j = choose|j: int| 0 <= j < before.len() && before[j] == k;
                    assert(at[j] == k);
                }
                if at.contains(k) {
                    let j = choose|j: int| 0 <= j < at.len() && at[j] == k;
                    assert(before[j] == k);
                }
            } else {
                if !(inds[k].kind is Done && faded[k]) {
                    assert(at.last() == k);
                    assert(at[at.len() - 1] == k);
                } else if at.contains(k) {
                    let j = choose|j: int| 0 <= j < at.len() && at[j] == k;
                    assert(before[j] == k);
                }
            }
        }
    }
}

/// Starting or processing an utterance leaves exactly one more circle, or the same ones, and there
/// is a circle for it.
pub proof fn law_started_utterance_has_a_circle<A>(
    inds: Seq<Indicator<A>>,
    id: u64,
    kind: IndicatorKind,
    eta_set: bool,
    fresh: A,
)
    ensures
        ({
            let more = with_kind(inds, id, kind, eta_set, fresh);
            let at = touched_slot(inds, id);
            &&& 0 <= at < more.len()
            &&& more[at].id == id
            &&& more[at].kind == kind
            &&& more.len() == inds.len() || more.len() == inds.len() + 1
            &&& forall|j: int| 0 <= j < inds.len() && j != at ==> more[j] == inds[j]
        }),
{
    match slot_of(inds, id) {
        Some(i) => {
            assert(slot(inds, id, i));
        },
        None => {},
    }
}

// ---------------------------------------------------------------------------------------------
// Lines

/// A text on its way into lines.
pub struct LineWrap {
    pub lines: Vec<String>,
    pub current: String,
}

/// `current` and one more word.
pub open spec fn extended(current: Seq<char>, word: Seq<char>) -> Seq<char> {
    if current.len() == 0 {
        word
    } else {
        current + " "@ + word
    }
}

/// The lines and the current one after a word is placed: on a new line where the current one would
/// become too wide and is not empty.
pub open spec fn placed(
    lines: Seq<Seq<char>>,
    current: Seq<char>,
    word: Seq<char>,
    too_wide: bool,
) -> (Seq<Seq<char>>, Seq<char>) {
    if too_wide && current.len() > 0 {
        (lines.push(current), word)
    } else {
        (lines, extended(current, word))
    }
}

impl LineWrap {
    /// A text before its first word.
    pub fn new() -> (r: LineWrap)
        ensures
            r.lines@.len() == 0,
            r.current@ == Seq::<char>::empty(),
    {
        let r: LineWrap = LineWrap { lines: Vec::new(), current: String::new() };
        assert(r.current@ =~= Seq::<char>::empty());
        r
    }

    /// The line that results if the next word goes on the current one, for its width to be
    /// measured.
    pub fn offer(&self, word: &str) -> (r: String)
        ensures
            r@ == extended(self.current@, word@),
    {
        if self.current.as_str().is_empty() {
            word.to_owned()
        } else {
            self.current.as_str().to_owned().concat(" ").concat(word)
        }
    }

    /// Places the next word: on a new line where the current one would become too wide and is not
    /// empty.
    pub fn place(&mut self, word: &str, too_wide: bool)
        ensures
            (text::views(final(self).lines@), final(self).current@) == placed(
                text::views(old(self).lines@),
                old(self).current@,
                word@,
                too_wide,
            ),
    {
        let longer: String = self.offer(word);
        if too_wide && !self.current.as_str().is_empty() {
            let ghost before = self.lines@;
            let mut full: String = word.to_owned();
            std::mem::swap(&mut full, &mut self.current);
            self.lines.push(full);
            assert(text::views(self.lines@) =~= text::views(before).push(full@));
        } else {
            self.current = longer;
        }
    }

    /// The lines.
    pub fn finish(self) -> (r: Vec<String>)
        ensures
            text::views(r@) == finished(text::views(self.lines@), self.current@),
    {
        let LineWrap { lines, current } = self;
        let mut lines: Vec<String> = lines;
        if !current.as_str().is_empty() {
            let ghost before = lines@;
            lines.push(current);
            assert(text::views(lines@) =~= text::views(before).push(current@));
        }
        lines
    }
}

/// The lines with what is left as the last one.
pub open spec fn finished(lines: Seq<Seq<char>>, current: Seq<char>) -> Seq<Seq<char>> {
    if current.len() > 0 {
        lines.push(current)
    } else {
        lines
    }
}

/// The lines and the current one after all words were placed, where `wide[i]` says whether word
/// `i` made the line too wide.
pub open spec fn wrapped(words: Seq<Seq<char>>, wide: Seq<bool>) -> (Seq<Seq<char>>, Seq<char>)
    decreases words.len(),
{
    if words.len() == 0 {
        (Seq::empty(), Seq::empty())
    } else {
        let (lines, current) = wrapped(words.drop_last(), wide);
        placed(lines, current, words.last(), wide[words.len() - 1])
    }
}

/// Wrapping only turns spaces into line breaks: with spaces between them again, the lines are the
/// words with spaces between them, whatever the widths are.
pub proof fn law_wrapping_keeps_the_words(words: Seq<Seq<char>>, wide: Seq<bool>)
    requires
        wide.len() == words.len(),
        forall|i: int| 0 <= i < words.len() ==> (#[trigger] words[i]).len() > 0,
    ensures
        ({
            let (lines, current) = wrapped(words, wide);
            text::join(finished(lines, current), " "@) == text::join(words, " "@)
        }),
{
    lemma_wrapped(words, wide);
}

proof fn lemma_wrapped(words: Seq<Seq<char>>, wide: Seq<bool>)
    requires
        forall|i: int| 0 <= i < words.len() ==> (#[trigger] words[i]).len() > 0,
    ensures
        ({
            let (lines, current) = wrapped(words, wide);
            &&& text::join(finished(lines, current), " "@) == text::join(words, " "@)
            &&& (words.len() > 0) == (current.len() > 0)
            &&& words.len() == 0 ==> lines.len() == 0
        }),
    decreases words.len(),
{
    if words.len() > 0 {
        let init = words.drop_last();
        let word = words.last();
        assert(word == words[words.len() - 1]);
        assert forall|i: int| 0 <= i < init.len() implies (#[trigger] init[i]).len() > 0 by {
            assert(init[i] == words[i]);
        }
        lemma_wrapped(init, wide);
        let (lines, current) = wrapped(init, wide);
        let before = finished(lines, current);
        if init.len() == 0 {
            assert(lines =~= Seq::empty());
            assert(finished(wrapped(words, wide).0, wrapped(words, wide).1) =~= seq![word]);
            assert(words =~= seq![word]);
        } else {
            assert(text::join(words, " "@) == text::join(init, " "@) + " "@ + word);
            if wide[words.len() - 1] {
                let after = before.push(word);
                assert(after.drop_last() =~= before);
                assert(finished(lines.push(current), word) =~= after);
            } else {
                let longer = current + " "@ + word;
                let after = lines.push(longer);
                assert(after.drop_last() =~= lines);
                assert(before.drop_last() =~= lines);
                if lines.len() == 0 {
                    assert(text::join(after, " "@) =~= longer);
                    assert(text::join(before, " "@) =~= current);
                } else {
                    assert(text::join(after, " "@) =~= text::join(lines, " "@) + " "@ + longer);
                    assert(text::join(before, " "@) =~= text::join(lines, " "@) + " "@ + current);
                }
                assert(text::join(after, " "@) =~= text::join(before, " "@) + " "@ + word);
            }
        }
    }
}

// ---------------------------------------------------------------------------------------------
// Coloured pieces

/// The positions in the shown text, in bytes, at which its look changes.
#[derive(Clone, Copy)]
pub struct Marks {
    /// Up to here it has the colour of final text.
    pub color: u128,
    /// Up to here it is final.
    pub split: u128,
    /// Up to here it is fully visible.
    pub reveal: u128,
}

/// A piece of a line and the paint for it: 0 for final text, 1 for text that becomes final, 2 for
/// text that may change; 3 more where it is not fully visible yet.
pub struct Segment {
    pub text: String,
    pub paint: usize,
}

/// The pieces, each with its paint.
pub open spec fn segment_views(v: Seq<Segment>) -> Seq<(Seq<char>, int)> {
    Seq::new(v.len(), |i: int| (v[i].text@, v[i].paint as int))
}

/// The paint for text that begins at byte `b` of the shown text.
pub open spec fn paint_at(b: int, m: Marks) -> int {
    (if b < m.color {
        0int
    } else if b < m.split {
        1
    } else {
        2
    }) + (if b < m.reveal {
        0int
    } else {
        3
    })
}

/// Where a mark cuts a line that starts at byte `start`: in front of the character that it falls
/// into.
pub open spec fn cut_in(line: Seq<char>, start: int, mark: int) -> int {
    text::floor_at(line, if mark > start { mark - start } else { 0 }) as int
}

/// `c` if that comes after `at` and before `end`, else `end`.
pub open spec fn nearer(at: int, end: int, c: int) -> int {
    if at < c < end {
        c
    } else {
        end
    }
}

/// The first place after `at` where the line is cut, or its end.
pub open spec fn next_cut(line: Seq<char>, start: int, m: Marks, at: int) -> int {
    nearer(
        at,
        nearer(
            at,
            nearer(at, line.len() as int, cut_in(line, start, m.color as int)),
            cut_in(line, start, m.split as int),
        ),
        cut_in(line, start, m.reveal as int),
    )
}

/// The pieces of a line from character `at` on.
pub open spec fn pieces(line: Seq<char>, start: int, m: Marks, at: int) -> Seq<(Seq<char>, int)>
    decreases line.len() - at,
{
    if 0 <= at < line.len() {
        let end = next_cut(line, start, m, at);
        seq![(line.subrange(at, end), paint_at(start + text::utf8_len(line.take(at)), m))] + pieces(
            line,
            start,
            m,
            end,
        )
    } else {
        Seq::empty()
    }
}

fn find_cut_in(line: &[char], start: u128, mark: u128) -> (r: usize)
    ensures
        r == cut_in(line@, start as int, mark as int),
        r <= line@.len(),
{
    let b: u128 = if mark > start {
        mark - start
    } else {
        0
    };
    floor_cut(line, b)
}

fn nearer_of(at: usize, end: usize, c: usize) -> (r: usize)
    requires
        at < end,
    ensures
        r == nearer(at as int, end as int, c as int),
        at < r <= end,
{
    if at < c && c < end {
        c
    } else {
        end
    }
}

/// Cuts a line that starts at byte `start` of the shown text into pieces of one look each.
pub fn segments(line: &str, start: u128, m: Marks) -> (r: Vec<Segment>)
    requires
        start + 4 * line@.len() <= u128::MAX,
    ensures
        segment_views(r@) == pieces(line@, start as int, m, 0),
{
    let chars: Vec<char> = to_chars(line);
    let color: usize = find_cut_in(&chars, start, m.color);
    let split: usize = find_cut_in(&chars, start, m.split);
    let reveal: usize = find_cut_in(&chars, start, m.reveal);
    let mut r: Vec<Segment> = Vec::new();
    let mut at: usize = 0;
    assert(segment_views(r@) + pieces(line@, start as int, m, 0) =~= pieces(
        line@,
        start as int,
        m,
        0,
    ));
    while at < chars.len()
        invariant
            chars@ == line@,
            at <= chars@.len(),
            start + 4 * line@.len() <= u128::MAX,
            color == cut_in(line@, start as int, m.color as int),
            split == cut_in(line@, start as int, m.split as int),
            reveal == cut_in(line@, start as int, m.reveal as int),
            segment_views(r@) + pieces(line@, start as int, m, at as int) == pieces(
                line@,
                start as int,
                m,
                0,
            ),
        decreases chars.len() - at,
    {
        let end: usize = nearer_of(
            at,
            nearer_of(at, nearer_of(at, chars.len(), color), split),
            reveal,
        );
        let head: String = from_chars(&chars, 0, at);
        assert(head@ =~= line@.take(at as int));
        proof {
            text::lemma_utf8_bounds(line@.take(at as int));
        }
        let b: u128 = start + byte_len(head.as_str());
        let kind: usize = if b < m.color {
            0
        } else if b < m.split {
            1
        } else {
            2
        };
        let paint: usize = if b < m.reveal {
            kind
        } else {
            kind + 3
        };
        let ghost before = r@;
        r.push(Segment { text: from_chars(&chars, at, end), paint });
        proof {
            let piece = (
                line@.subrange(at as int, end as int),
                paint_at(start + text::utf8_len(line@.take(at as int)), m),
            );
            assert(segment_views(r@) =~= segment_views(before).push(piece));
            assert(segment_views(r@) + pieces(line@, start as int, m, end as int)
                =~= segment_views(before) + pieces(line@, start as int, m, at as int));
        }
        at = end;
    }
    assert(segment_views(r@) =~= pieces(line@, start as int, m, 0));
    r
}

/// The text of pieces one after the other.
pub open spec fn pieces_text(v: Seq<(Seq<char>, int)>) -> Seq<char>
    decreases v.len(),
{
    if v.len() == 0 {
        Seq::empty()
    } else {
        v[0].0 + pieces_text(v.skip(1))
    }
}

/// The pieces of a line are the line: no character is left out or drawn twice.
pub proof fn law_pieces_are_the_line(line: Seq<char>, start: int, m: Marks)
    ensures
        pieces_text(pieces(line, start, m, 0)) == line,
{
    lemma_pieces(line, start, m, 0);
    assert(line.skip(0) =~= line);
}

proof fn lemma_pieces(line: Seq<char>, start: int, m: Marks, at: int)
    requires
        0 <= at <= line.len(),
    ensures
        pieces_text(pieces(line, start, m, at)) == line.skip(at),
    decreases line.len() - at,
{
    if at < line.len() {
        let end = next_cut(line, start, m, at);
        lemma_pieces(line, start, m, end);
        let all = pieces(line, start, m, at);
        assert(all.skip(1) =~= pieces(line, start, m, end));
        assert(line.subrange(at, end) + line.skip(end) =~= line.skip(at));
    } else {
        assert(line.skip(at) =~= Seq::<char>::empty());
    }
}

/// The first place at or after character `from` where `needle` stands in `s`.
pub open spec fn found_from(s: Seq<char>, needle: Seq<char>, from: int) -> Option<int>
    decreases s.len() - from + 1,
{
    if from < 0 || from + needle.len() > s.len() {
        None
    } else if s.subrange(from, from + needle.len()) == needle {
        Some(from)
    } else {
        found_from(s, needle, from + 1)
    }
}

/// The byte of the shown text at which a line starts, where the line before it ends at byte `pos`:
/// where it is found next, else right there. `None` where `pos` is not between two characters of
/// the text.
pub open spec fn line_start(display: Seq<char>, pos: int, line: Seq<char>) -> Option<int> {
    match text::cut_at(display, pos) {
        Some(k) => Some(
            match found_from(display, line, k as int) {
                Some(i) => text::utf8_len(display.take(i)) as int,
                None => pos,
            },
        ),
        None => None,
    }
}

fn find_from(s: &[char], needle: &[char], from: usize) -> (r: Option<usize>)
    ensures
        match r {
            Some(i) => found_from(s@, needle@, from as int) == Some(i as int) && i <= s@.len(),
            None => found_from(s@, needle@, from as int) is None,
        },
{
    let mut i: usize = from;
    while i <= s.len() && needle.len() <= s.len() - i
        invariant
            found_from(s@, needle@, from as int) == found_from(s@, needle@, i as int),
        decreases s.len() - i,
    {
        let mut k: usize = 0;
        while k < needle.len() && s[i + k] == needle[k]
            invariant
                i + needle@.len() <= s.len(),
                k <= needle@.len(),
                forall|j: int| 0 <= j < k ==> s@[i + j] == #[trigger] needle@[j],
            decreases needle.len() - k,
        {
            k += 1;
        }
        if k == needle.len() {
            assert(s@.subrange(i as int, i + needle@.len()) =~= needle@);
            return Some(i);
        }
        assert(s@.subrange(i as int, i + needle@.len())[k as int] != needle@[k as int]);
        i += 1;
    }
    None
}

/// The byte of the shown text at which a line starts.
pub fn place_line(display: &str, pos: u128, line: &str) -> (r: Option<u128>)
    ensures
        match r {
            Some(b) => line_start(display@, pos as int, line@) == Some(b as int),
            None => line_start(display@, pos as int, line@) is None,
        },
{
    match find_cut(display, pos) {
        Some(k) => {
            let chars: Vec<char> = to_chars(display);
            let needle: Vec<char> = to_chars(line);
            match find_from(&chars, &needle, k) {
                Some(i) => {
                    let head: String = from_chars(&chars, 0, i);
                    assert(head@ =~= display@.take(i as int));
                    Some(byte_len(head.as_str()))
                },
                None => Some(pos),
            }
        },
        None => None,
    }
}

// ---------------------------------------------------------------------------------------------
// Sizes

/// The height of the content: that of a circle, or of so many lines of text within the limit.
pub open spec fn content_height(
    text_active: bool,
    lines: int,
    line_height: int,
    shrinking: bool,
    max_height: int,
) -> int {
    if !text_active {
        PILL_SIZE as int
    } else {
        let n = if lines < 1 { 1 } else { lines };
        let h = 2 * PADDING_Y + n * line_height;
        let h = if shrinking && h < PILL_SIZE { PILL_SIZE as int } else { h };
        if h < max_height {
            h
        } else {
            max_height
        }
    }
}

/// The height of the content.
pub fn compute_height(
    text_active: bool,
    lines: usize,
    line_height: u32,
    shrinking: bool,
    max_height: u32,
) -> (r: u32)
    ensures
        r == content_height(
            text_active,
            lines as int,
            line_height as int,
            shrinking,
            max_height as int,
        ),
{
    if !text_active {
        return PILL_SIZE;
    }
    let n: u128 = if lines < 1 {
        1
    } else {
        lines as u128
    };
    proof {
        assert(0 <= n * line_height <= 0x1_0000_0000_0000_0000 * 0x1_0000_0000) by (nonlinear_arith)
            requires
                0 <= n <= 0x1_0000_0000_0000_0000,
                0 <= line_height <= 0x1_0000_0000,
        ;
    }
    let h: u128 = 2 * PADDING_Y as u128 + n * line_height as u128;
    let h: u128 = if shrinking && h < PILL_SIZE as u128 {
        PILL_SIZE as u128
    } else {
        h
    };
    if h < max_height as u128 {
        h as u32
    } else {
        max_height
    }
}

/// How long a frame takes at a refresh rate in thousandths of a hertz: at least a millisecond.
/// `None` where the rate is not known.
pub fn frame_ms(refresh_rate: i32) -> (r: Option<u64>)
    requires
        refresh_rate <= 0 || refresh_rate >= 1000,
    ensures
        match r {
            Some(ms) => refresh_rate >= 1000 && ms == (if 1000int / (refresh_rate as int / 1000)
                >= 1 {
                1000int / (refresh_rate as int / 1000)
            } else {
                1
            }),
            None => refresh_rate <= 0,
        },
{
    if refresh_rate <= 0 {
        return None;
    }
    let hz: u64 = (refresh_rate / 1000) as u64;
    let ms: u64 = 1000 / hz;
    if ms < 1 {
        Some(1)
    } else {
        Some(ms)
    }
}

/// The width of the overlay on a screen of width `w`: 0.618 of it.
pub open spec fn overlay_width(w: int) -> int {
    w * 618 / 1000
}

/// What a new size means for the overlay.
#[derive(Clone, Copy, PartialEq, Eq, Structural)]
pub enum Layout {
    /// The size is that of the screen: take so much of it, with margins at both sides.
    Screen { screen_width: u32, width: u32, margin: u32 },
    /// The size is that of the overlay.
    Own { width: u32 },
}

/// What a new size means, where the overlay has the width `width` now: it is that of the screen
/// where none is known yet or where it is much larger.
pub fn configure(new_width: u32, screen_width: u32, width: u32) -> (r: Layout)
    ensures
        ({
            let w = if new_width < 1 { 1u32 } else { new_width };
            if screen_width == 0 || w > width + 100 {
                r == Layout::Screen {
                    screen_width: w,
                    width: overlay_width(w as int) as u32,
                    margin: ((w - overlay_width(w as int)) / 2) as u32,
                }
            } else {
                r == Layout::Own { width: w }
            }
        }),
{
    let w: u32 = if new_width < 1 {
        1
    } else {
        new_width
    };
    if screen_width == 0 || w as u64 > width as u64 + 100 {
        let overlay: u32 = (w as u64 * 618 / 1000) as u32;
        Layout::Screen { screen_width: w, width: overlay, margin: (w - overlay) / 2 }
    } else {
        Layout::Own { width: w }
    }
}

// ---------------------------------------------------------------------------------------------
// What is drawn

/// What there is to draw.
#[derive(Clone, Copy, PartialEq, Eq, Structural)]
pub enum Scene {
    /// Nothing yet: the size is not known.
    NotReady,
    /// Nothing anymore: the overlay has faded out and becomes invisible.
    Gone,
    /// The row of circles.
    Circles,
    /// The panel of text.
    Text,
}

impl<A> Panel<A> {
    /// What there is to draw, where `faded` says whether the overlay has faded out and is to stay
    /// so.
    pub fn scene(&mut self, configured: bool, width: u32, faded: bool, toast: bool) -> (r: Scene)
        ensures
            r == (if width == 0 || !configured {
                Scene::NotReady
            } else if faded {
                Scene::Gone
            } else if old(self)@.text_active(toast) {
                Scene::Text
            } else {
                Scene::Circles
            }),
            final(self)@ == (PanelView {
                visible: if r == Scene::Gone { false } else { old(self).visible },
                ..old(self)@
            }),
    {
        if width == 0 || !configured {
            Scene::NotReady
        } else if faded {
            self.visible = false;
            Scene::Gone
        } else if self.text_active(toast) {
            Scene::Text
        } else {
            Scene::Circles
        }
    }
}

/// What a circle shows.
pub enum Icon {
    /// Bars that follow the voice.
    Bars,
    /// A spinner, in another colour once it takes longer than expected, with the seconds that are
    /// left or a sign that it takes longer.
    Spinner { overrun: bool, label: Option<String> },
    Check,
    Clipboard,
    Cross,
    /// Nothing: there was no speech.
    Blank,
}

/// What a circle shows, where `left` is how many seconds are still expected, rounded up: none once
/// they are over or where that is not known.
pub fn icon(kind: IndicatorKind, eta_set: bool, left: Option<u32>) -> (r: Icon)
    ensures
        match kind {
            IndicatorKind::Recording => r is Bars,
            IndicatorKind::Processing => {
                &&& r is Spinner
                &&& r->overrun == (eta_set && left is None)
                &&& match left {
                    Some(n) => r->label is Some && r->label->0@ == text::decimal(n as nat),
                    None => if eta_set {
                        r->label is Some && r->label->0@ == "…"@
                    } else {
                        r->label is None
                    },
                }
            },
            IndicatorKind::Done(DoneKind::Delivered) => r is Check,
            IndicatorKind::Done(DoneKind::Copied) => r is Clipboard,
            IndicatorKind::Done(DoneKind::Failed) => r is Cross,
            IndicatorKind::Done(DoneKind::Dismissed) => r is Blank,
        },
{
    match kind {
        IndicatorKind::Recording => Icon::Bars,
        IndicatorKind::Processing => {
            let label: Option<String> = match left {
                Some(n) => Some(show(n as u64)),
                None => if eta_set {
                    Some("…".to_owned())
                } else {
                    None
                },
            };
            Icon::Spinner { overrun: eta_set && left.is_none(), label }
        },
        IndicatorKind::Done(DoneKind::Delivered) => Icon::Check,
        IndicatorKind::Done(DoneKind::Copied) => Icon::Clipboard,
        IndicatorKind::Done(DoneKind::Failed) => Icon::Cross,
        IndicatorKind::Done(DoneKind::Dismissed) => Icon::Blank,
    }
}

/// Which way a circle fades.
#[derive(Clone, Copy, PartialEq, Eq, Structural)]
pub enum FadeWay {
    In,
    Hold,
    Out,
}

/// How a circle changes with time, where `running` says whether its time is not over: a finished
/// one is held for its time, then fades out; the others fade in. The second says whether its time
/// is counted down.
pub fn motion(kind: IndicatorKind, running: bool) -> (r: (FadeWay, bool))
    ensures
        r == match kind {
            IndicatorKind::Done(_) => if running {
                (FadeWay::Hold, true)
            } else {
                (FadeWay::Out, false)
            },
            IndicatorKind::Processing => (FadeWay::In, running),
            IndicatorKind::Recording => (FadeWay::In, false),
        },
{
    match kind {
        IndicatorKind::Done(_) => if running {
            (FadeWay::Hold, true)
        } else {
            (FadeWay::Out, false)
        },
        IndicatorKind::Processing => (FadeWay::In, running),
        IndicatorKind::Recording => (FadeWay::In, false),
    }
}

/// What is shown is the final text and the rest behind it, with one space between them where both
/// are there and the first does not end with one.
pub proof fn law_shown_text_is_the_whole_text(text: Seq<char>, pending: Seq<char>)
    ensures
        text.len() == 0 ==> shown(text, pending) == pending,
        pending.len() == 0 ==> shown(text, pending) == text,
        text.len() > 0 && text.last() == ' ' ==> shown(text, pending) == text + pending,
        text.len() > 0 && text.last() != ' ' && pending.len() > 0 ==> shown(text, pending) == text
            + seq![' '] + pending,
{
    assert(text.len() == 0 ==> shown(text, pending) =~= pending);
    assert(pending.len() == 0 ==> shown(text, pending) =~= text);
    assert(text.len() > 0 && text.last() == ' ' ==> shown(text, pending) =~= text + pending);
}

/// The circle of an utterance is the first with its number, and there is none where no circle has
/// that number.
pub proof fn law_circle_is_found_by_its_number<A>(inds: Seq<Indicator<A>>, id: u64)
    ensures
        slot_of(inds, id) is None <==> forall|i: int|
            0 <= i < inds.len() ==> (#[trigger] inds[i]).id != id,
        slot_of(inds, id) is Some ==> {
            let i = slot_of(inds, id)->0;
            &&& 0 <= i < inds.len()
            &&& inds[i].id == id
            &&& forall|j: int| 0 <= j < i ==> (#[trigger] inds[j]).id != id
        },
{
    if exists|i: int| 0 <= i < inds.len() && (#[trigger] inds[i]).id == id {
        let i = choose|i: int| 0 <= i < inds.len() && (#[trigger] inds[i]).id == id;
        lemma_first_slot(inds, id, i);
    }
}

proof fn lemma_first_slot<A>(inds: Seq<Indicator<A>>, id: u64, i: int)
    requires
        0 <= i < inds.len(),
        inds[i].id == id,
    ensures
        exists|k: int| slot(inds, id, k),
    decreases i,
{
    if exists|k: int| 0 <= k < i && (#[trigger] inds[k]).id == id {
        let k = choose|k: int| 0 <= k < i && (#[trigger] inds[k]).id == id;
        lemma_first_slot(inds, id, k);
    } else {
        assert(slot(inds, id, i));
    }
}

/// A new utterance begins with nothing to read: what was shown before is gone, and its circle shows
/// that it is recorded. What the other circles show stays.
pub proof fn law_utterance_begins_afresh<A>(panel: PanelView<A>, id: u64, fresh: A, p: Progress)
    requires
        panel.indicators.len() < usize::MAX,
    ensures
        ({
            let (s, e) = panel.command(CommandView::Start(id), fresh, p);
            let at = touched_slot(panel.indicators, id);
            &&& s.visible && !s.correcting
            &&& s.text.len() == 0 && s.pending.len() == 0
            &&& s.reveal_len == 0 && s.color_split == 0
            &&& s.status_only == panel.status_only && s.mode == panel.mode && s.lang == panel.lang
            &&& 0 <= at < s.indicators.len()
            &&& s.indicators[at].id == id && s.indicators[at].kind == IndicatorKind::Recording
            &&& !s.indicators[at].eta_set
            &&& forall|j: int|
                0 <= j < panel.indicators.len() && j != at ==> s.indicators[j]
                    == panel.indicators[j]
            &&& s.wrapped_dirty
            &&& e.fade_in && e.restart_clock && e.redraw
            &&& e.chunk_fade == Some(Level::Full) && e.finalize_fade == Some(Level::Full)
            &&& e.correct_fade is None
            &&& e.touched == Some(at as usize)
            &&& e.toast == ToastChange::Clear && e.morph == Morph::Reset
        }),
{
    law_started_utterance_has_a_circle(
        panel.indicators,
        id,
        IndicatorKind::Recording,
        false,
        fresh,
    );
    law_circle_is_found_by_its_number(panel.indicators, id);
}

/// While a transcript is awaited only the circle of its utterance changes, and the panel is visible.
pub proof fn law_waiting_shows_in_the_circle<A>(
    panel: PanelView<A>,
    id: u64,
    timed: bool,
    fresh: A,
    p: Progress,
)
    requires
        panel.indicators.len() < usize::MAX,
    ensures
        ({
            let (s, e) = panel.command(CommandView::Processing { id, timed }, fresh, p);
            let at = touched_slot(panel.indicators, id);
            &&& s.visible
            &&& (PanelView {
                visible: panel.visible,
                indicators: panel.indicators,
                ..s
            }) == panel
            &&& 0 <= at < s.indicators.len()
            &&& s.indicators[at].id == id && s.indicators[at].kind == IndicatorKind::Processing
            &&& s.indicators[at].eta_set == timed
            &&& forall|j: int|
                0 <= j < panel.indicators.len() && j != at ==> s.indicators[j]
                    == panel.indicators[j]
            &&& e.fade_in && e.redraw && !e.restart_clock
            &&& e.touched == Some(at as usize)
            &&& e.toast == ToastChange::Keep && e.morph == Morph::Keep
            &&& e.chunk_fade is None && e.finalize_fade is None && e.correct_fade is None
        }),
{
    law_started_utterance_has_a_circle(
        panel.indicators,
        id,
        IndicatorKind::Processing,
        timed,
        fresh,
    );
    law_circle_is_found_by_its_number(panel.indicators, id);
}

/// The end of an utterance shows in its circle and nowhere else, and where it has none nothing
/// changes. Its text, where it is shown and no other message is, stays for a while.
pub proof fn law_end_shows_in_the_circle<A>(
    panel: PanelView<A>,
    id: u64,
    kind: DoneKind,
    fresh: A,
    p: Progress,
)
    ensures
        ({
            let (s, e) = panel.command(CommandView::Done(id, kind), fresh, p);
            &&& (PanelView { indicators: panel.indicators, ..s }) == panel
            &&& s.indicators.len() == panel.indicators.len()
            &&& forall|j: int|
                0 <= j < s.indicators.len() ==> {
                    &&& (#[trigger] s.indicators[j]).id == panel.indicators[j].id
                    &&& s.indicators[j].anim == panel.indicators[j].anim
                    &&& s.indicators[j].eta_set == panel.indicators[j].eta_set
                    &&& s.indicators[j].kind == panel.indicators[j].kind || (s.indicators[j].id == id
                        && s.indicators[j].kind == IndicatorKind::Done(kind))
                }
            &&& slot_of(panel.indicators, id) is Some ==> s.indicators[slot_of(
                panel.indicators,
                id,
            )->0].kind == IndicatorKind::Done(kind)
            &&& e.toast is Transcript <==> !panel.status_only && panel.text.len() > 0 && !p.toast
            &&& e.toast is Transcript ==> e.toast->0 == text::utf8_len(panel.text) as u128
            &&& !(e.toast is Transcript) ==> e.toast == ToastChange::Keep
            &&& slot_of(panel.indicators, id) is Some ==> e.touched == Some(
                slot_of(panel.indicators, id)->0 as usize,
            )
            &&& slot_of(panel.indicators, id) is None ==> e.touched is None
            &&& e.redraw && !e.fade_in && !e.restart_clock && e.morph == Morph::Keep
            &&& e.chunk_fade is None && e.finalize_fade is None && e.correct_fade is None
        }),
{
    law_circle_is_found_by_its_number(panel.indicators, id);
}

/// Text is shown as it comes: final text alone, and text that may still change behind the final text
/// that is there. A message is shown whatever the mode. None of these touches a circle.
pub proof fn law_text_is_shown_as_it_comes<A>(
    panel: PanelView<A>,
    t: Seq<char>,
    fresh: A,
    p: Progress,
)
    ensures
        !panel.status_only ==> {
            let (s, e) = panel.command(CommandView::SetText(t), fresh, p);
            &&& s.display() == t
            &&& s.text == t && s.pending.len() == 0
            &&& s.visible == panel.visible && s.correcting == panel.correcting
            &&& s.indicators == panel.indicators
            &&& s.wrapped_dirty
            &&& s.mode == panel.mode && s.lang == panel.lang && !s.status_only
            &&& e.correct_fade is Some <==> panel.correcting && panel.text != t
            &&& e.correct_fade is Some ==> e.correct_fade == Some(Level::Zero)
            &&& e.redraw == panel.visible && e.morph == Morph::Back
            &&& !e.fade_in && !e.restart_clock && e.touched is None && e.toast == ToastChange::Keep
        },
        !panel.status_only ==> {
            let (s, e) = panel.command(CommandView::SetPending(t), fresh, p);
            &&& s.text == panel.text && s.pending == t
            &&& s.visible == panel.visible && s.correcting == panel.correcting
            &&& s.indicators == panel.indicators
            &&& s.color_split == panel.color_split
            &&& s.wrapped_dirty
            &&& s.mode == panel.mode && s.lang == panel.lang && !s.status_only
            &&& e.redraw == panel.visible && e.morph == Morph::Back
            &&& !e.fade_in && !e.restart_clock && e.touched is None && e.toast == ToastChange::Keep
            &&& e.correct_fade is None && e.finalize_fade is None
        },
        ({
            let (s, e) = panel.command(CommandView::Toast(t), fresh, p);
            &&& s.display() == t
            &&& s.text == t && s.pending.len() == 0
            &&& s.visible && !s.correcting
            &&& s.indicators == panel.indicators
            &&& s.text_active(true)
            &&& s.wrapped_dirty
            &&& s.mode == panel.mode && s.lang == panel.lang && s.status_only == panel.status_only
            &&& e.toast == ToastChange::Message && e.fade_in && e.redraw && e.morph == Morph::Back
            &&& !e.restart_clock && e.touched is None && e.correct_fade is None
        }),
{
    assert(shown(t, Seq::empty()) =~= t);
}

/// What is visible stays visible as far as there is text, and the rest fades in. A correction is
/// visible at once.
pub proof fn law_new_text_fades_in<A>(panel: PanelView<A>, p: Progress)
    ensures
        ({
            let n = text::utf8_len(panel.display()) as int;
            let (visible, fade) = panel.revealed(p);
            &&& 0 <= panel.reveal_len ==> visible <= n
            &&& panel.correcting ==> visible == n && fade == Some(Level::Full)
            &&& !panel.correcting ==> visible <= panel.reveal_len && (visible == panel.reveal_len
                || visible == n)
            &&& !panel.correcting ==> (fade == Some(Level::Zero) <==> n > visible && p.chunk_done)
            &&& !panel.correcting && fade != Some(Level::Zero) ==> fade is None
        }),
        ({
            let n = text::utf8_len(panel.text) as int;
            let (final_part, fade) = panel.finalized(p);
            &&& final_part <= n
            &&& panel.correcting ==> final_part == n && fade == Some(Level::Full)
            &&& !panel.correcting ==> final_part <= panel.color_split && (final_part
                == panel.color_split || final_part == n)
            &&& !panel.correcting ==> (fade == Some(Level::Zero) <==> n > final_part
                && p.finalize_done)
            &&& !panel.correcting && fade != Some(Level::Zero) ==> fade is None
        }),
{
}

/// The other commands change what they name and nothing else.
pub proof fn law_settings_of_the_panel<A>(
    panel: PanelView<A>,
    mode: Seq<char>,
    lang: Seq<char>,
    on: bool,
    fresh: A,
    p: Progress,
)
    ensures
        panel.command(CommandView::SetInfo(mode, lang), fresh, p).0 == (PanelView {
            mode,
            lang,
            ..panel
        }),
        panel.command(CommandView::SetStatusOnly(on), fresh, p).0 == (PanelView {
            status_only: on,
            ..panel
        }),
        panel.command(CommandView::SetInfo(mode, lang), fresh, p).1 == no_effects(),
        panel.command(CommandView::SetStatusOnly(on), fresh, p).1 == no_effects(),
        ({
            let (s, e) = panel.command(CommandView::Correcting, fresh, p);
            s == (PanelView { correcting: true, ..panel }) && e.redraw && e.correct_fade == Some(
                Level::Full,
            ) && !e.fade_in && e.morph == Morph::Keep && e.toast == ToastChange::Keep
        }),
        ({
            let e = no_effects();
            &&& !e.fade_in && !e.restart_clock && !e.redraw
            &&& e.correct_fade is None && e.chunk_fade is None && e.finalize_fade is None
            &&& e.morph == Morph::Keep && e.toast == ToastChange::Keep && e.touched is None
        }),
{
}

/// The text panel is there for a message, and, unless only the status is shown, for text and for a
/// correction. There is nothing to show where there is neither text nor circle.
pub proof fn law_panel_is_there_for_text<A>(panel: PanelView<A>, toast: bool)
    ensures
        panel.text_active(true),
        !panel.status_only ==> (panel.text_active(false) <==> panel.text.len() > 0
            || panel.pending.len() > 0 || panel.correcting),
        panel.idle(toast) ==> !panel.text_active(toast) && panel.indicators.len() == 0,
        !panel.status_only && !panel.text_active(toast) && panel.indicators.len() == 0
            ==> panel.idle(toast),
{
}

/// A line ends before a word that is too wide for it, and nowhere else; the first word of a line is
/// never too wide.
pub proof fn law_lines_end_where_they_are_full(words: Seq<Seq<char>>, wide: Seq<bool>)
    requires
        wide.len() == words.len(),
        words.len() > 0,
        forall|i: int| 0 <= i < words.len() ==> (#[trigger] words[i]).len() > 0,
    ensures
        wrapped(words, wide).0.len() == wide.skip(1).filter(|w: bool| w).len(),
        wrapped(words, wide).1.len() > 0,
        finished(wrapped(words, wide).0, wrapped(words, wide).1).len() == 1 + wide.skip(1).filter(
            |w: bool| w,
        ).len(),
    decreases words.len(),
{
    reveal(Seq::filter);
    reveal_strlit(" ");
    lemma_wrapped_depends(words, wide);
    if words.len() > 1 {
        law_lines_end_where_they_are_full(words.drop_last(), wide.drop_last());
        assert(wide.skip(1).drop_last() =~= wide.drop_last().skip(1));
        assert(wide.skip(1).last() == wide[words.len() - 1]);
    } else {
        assert(wide.skip(1) =~= Seq::<bool>::empty());
        reveal_with_fuel(wrapped, 2);
    }
}

proof fn lemma_wrapped_depends(words: Seq<Seq<char>>, wide: Seq<bool>)
    requires
        wide.len() == words.len(),
        words.len() > 0,
    ensures
        wrapped(words.drop_last(), wide) == wrapped(words.drop_last(), wide.drop_last()),
{
    lemma_wrapped_same(words.drop_last(), wide, wide.drop_last());
}

proof fn lemma_wrapped_same(words: Seq<Seq<char>>, a: Seq<bool>, b: Seq<bool>)
    requires
        forall|i: int| 0 <= i < words.len() ==> a[i] == b[i],
    ensures
        wrapped(words, a) == wrapped(words, b),
    decreases words.len(),
{
    if words.len() > 0 {
        lemma_wrapped_same(words.drop_last(), a, b);
        assert(a[words.len() - 1] == b[words.len() - 1]);
    }
}

/// A place of the text is painted in its final colour before the first mark, as final before the
/// second and as pending behind it, and faintly behind the third.
pub proof fn law_paint_changes_at_the_marks(b: int, m: Marks)
    ensures
        0 <= paint_at(b, m) < 6,
        paint_at(b, m) < 3 <==> b < m.reveal,
        paint_at(b, m) % 3 == 0 <==> b < m.color,
        paint_at(b, m) % 3 == 1 <==> m.color <= b < m.split,
        paint_at(b, m) % 3 == 2 <==> m.color <= b && m.split <= b,
{
}

/// The paint of each character of the pieces.
pub open spec fn paints(v: Seq<(Seq<char>, int)>) -> Seq<int>
    decreases v.len(),
{
    if v.len() == 0 {
        Seq::empty()
    } else {
        Seq::new(v[0].0.len(), |i: int| v[0].1) + paints(v.skip(1))
    }
}

/// Whether a mark does not stand inside a character of the line that begins at byte `start`.
pub open spec fn between_chars(line: Seq<char>, start: int, mark: int) -> bool {
    ||| mark <= start
    ||| mark >= start + text::utf8_len(line)
    ||| exists|c: int| 0 <= c <= line.len() && start + #[trigger] text::utf8_len(line.take(c)) == mark
}

/// Each character of a line has the paint of the place at which it stands.
pub proof fn law_every_character_has_its_paint(line: Seq<char>, start: int, m: Marks, k: int)
    requires
        start >= 0,
        between_chars(line, start, m.color as int),
        between_chars(line, start, m.split as int),
        between_chars(line, start, m.reveal as int),
        0 <= k < line.len(),
    ensures
        paints(pieces(line, start, m, 0)).len() == line.len(),
        paints(pieces(line, start, m, 0))[k] == paint_at(
            start + text::utf8_len(line.take(k)),
            m,
        ),
{
    lemma_paints(line, start, m, 0);
    let v = paints(pieces(line, start, m, 0));
    assert(v[k - 0] == paint_at(start + text::utf8_len(line.take(k)), m));
}

proof fn lemma_same_side(line: Seq<char>, start: int, mark: int, at: int, k: int)
    requires
        start >= 0,
        between_chars(line, start, mark),
        0 <= at < k < line.len(),
        !(at < cut_in(line, start, mark) <= k),
    ensures
        start + text::utf8_len(line.take(at)) < mark <==> start + text::utf8_len(line.take(k))
            < mark,
{
    lemma_take_shorter(line, at, k);
    lemma_take_shorter(line, k, line.len() as int);
    assert(line.take(line.len() as int) =~= line);
    if start + text::utf8_len(line.take(at)) < mark && start + text::utf8_len(line.take(k)) >= mark {
        assert(mark > start);
        assert(mark < start + text::utf8_len(line));
        let c = choose|c: int|
            0 <= c <= line.len() && start + #[trigger] text::utf8_len(line.take(c)) == mark;
        text::law_cuts_are_between_characters(line, mark - start);
        let f = text::floor_at(line, mark - start) as int;
        if f < c {
            lemma_take_shorter_eq(line, f + 1, c);
        } else if c < f {
            lemma_take_shorter(line, c, f);
        }
        assert(f == c);
        if c <= at {
            lemma_take_shorter_eq(line, c, at);
        }
        if c > k {
            lemma_take_shorter(line, k, c);
        }
    }
}

proof fn lemma_take_shorter(s: Seq<char>, a: int, b: int)
    requires
        0 <= a < b <= s.len(),
    ensures
        text::utf8_len(s.take(a)) < text::utf8_len(s.take(b)),
{
    text::lemma_prefix_shorter(s.take(b), a);
    assert(s.take(b).take(a) =~= s.take(a));
}

proof fn lemma_take_shorter_eq(s: Seq<char>, a: int, b: int)
    requires
        0 <= a <= b <= s.len(),
    ensures
        text::utf8_len(s.take(a)) <= text::utf8_len(s.take(b)),
{
    if a < b {
        lemma_take_shorter(s, a, b);
    }
}

proof fn lemma_paints(line: Seq<char>, start: int, m: Marks, at: int)
    requires
        start >= 0,
        between_chars(line, start, m.color as int),
        between_chars(line, start, m.split as int),
        between_chars(line, start, m.reveal as int),
        0 <= at <= line.len(),
    ensures
        paints(pieces(line, start, m, at)).len() == line.len() - at,
        forall|k: int|
            at <= k < line.len() ==> #[trigger] paints(pieces(line, start, m, at))[k - at]
                == paint_at(start + text::utf8_len(line.take(k)), m),
    decreases line.len() - at,
{
    if at < line.len() {
        let end = next_cut(line, start, m, at);
        let v = pieces(line, start, m, at);
        lemma_paints(line, start, m, end);
        assert(v.skip(1) =~= pieces(line, start, m, end));
        let rest = paints(pieces(line, start, m, end));
        assert(v[0].0.len() == end - at);
        assert forall|k: int| at <= k < line.len() implies #[trigger] paints(v)[k - at] == paint_at(
            start + text::utf8_len(line.take(k)),
            m,
        ) by {
            if k >= end {
                assert(paints(v)[k - at] == rest[k - end]);
            } else if k > at {
                lemma_same_side(line, start, m.color as int, at, k);
                lemma_same_side(line, start, m.split as int, at, k);
                lemma_same_side(line, start, m.reveal as int, at, k);
                assert(paints(v)[k - at] == v[0].1);
            } else {
                assert(paints(v)[0] == v[0].1);
            }
        }
    }
}

/// A text is found where it stands first from a place on, and not found where it stands nowhere
/// there.
pub proof fn law_first_occurrence_is_found(s: Seq<char>, needle: Seq<char>, from: int)
    requires
        0 <= from,
    ensures
        found_from(s, needle, from) is Some ==> {
            let i = found_from(s, needle, from)->0;
            &&& from <= i
            &&& text::occurs_at(s, needle, i)
            &&& forall|j: int| from <= j < i ==> !#[trigger] text::occurs_at(s, needle, j)
        },
        found_from(s, needle, from) is None ==> forall|j: int|
            from <= j ==> !#[trigger] text::occurs_at(s, needle, j),
    decreases s.len() - from + 1,
{
    if from + needle.len() <= s.len() && s.subrange(from, from + needle.len()) != needle {
        law_first_occurrence_is_found(s, needle, from + 1);
    }
}

/// A line begins where it is found in the text behind the line before it, counted in bytes. Where
/// it is not found it begins where that line ends.
pub proof fn law_lines_are_found_in_the_text(display: Seq<char>, line: Seq<char>, k: int)
    requires
        0 <= k <= display.len(),
    ensures
        ({
            let pos = text::utf8_len(display.take(k)) as int;
            match found_from(display, line, k) {
                Some(i) => line_start(display, pos, line) == Some(
                    text::utf8_len(display.take(i)) as int,
                ),
                None => line_start(display, pos, line) == Some(pos),
            }
        }),
{
    text::lemma_cut(display, k);
}

/// The panel is as high as its lines and its padding, up to the height that there is; without text
/// it is as high as a circle, and while it shrinks it is no less.
pub proof fn law_panel_fits_its_lines(
    lines: int,
    line_height: int,
    shrinking: bool,
    max_height: int,
)
    requires
        lines >= 1,
        line_height >= 0,
    ensures
        content_height(false, lines, line_height, shrinking, max_height) == 56,
        content_height(true, lines, line_height, shrinking, max_height) <= max_height,
        12 + lines * line_height <= max_height && (!shrinking || 12 + lines * line_height >= 56)
            ==> content_height(true, lines, line_height, shrinking, max_height) == 12 + lines
            * line_height,
        shrinking && max_height >= 56 ==> content_height(
            true,
            lines,
            line_height,
            shrinking,
            max_height,
        ) >= 56,
        content_height(true, 0, line_height, shrinking, max_height) == content_height(
            true,
            1,
            line_height,
            shrinking,
            max_height,
        ),
        12 + lines * line_height >= max_height && max_height >= 56 ==> content_height(
            true,
            lines,
            line_height,
            shrinking,
            max_height,
        ) == max_height,
{
}

/// The panel takes 618 parts of 1000 of the width of the screen, rounded down.
pub proof fn law_panel_has_its_share_of_the_width(w: int)
    requires
        w >= 0,
    ensures
        1000 * overlay_width(w) <= 618 * w < 1000 * overlay_width(w) + 1000,
        0 <= overlay_width(w) <= w,
{
}

/// A mark cuts a line before the character at which or inside which it stands. One before the line
/// cuts nothing off, and one behind it cuts nothing off either.
pub proof fn law_marks_cut_where_they_stand(line: Seq<char>, start: int, k: int, mark: int)
    requires
        0 <= k < line.len(),
    ensures
        mark <= start ==> cut_in(line, start, mark) == 0,
        mark >= start + text::utf8_len(line) ==> cut_in(line, start, mark) == line.len(),
        start + text::utf8_len(line.take(k)) <= mark < start + text::utf8_len(line.take(k + 1))
            ==> cut_in(line, start, mark) == k,
{
    text::law_cuts_are_between_characters(line, 0);
    assert(line.take(0) =~= Seq::<char>::empty());
    text::lemma_utf8_bounds(line.take(1));
    let f = text::floor_at(line, 0) as int;
    if f > 0 {
        lemma_take_shorter(line, 0, f);
    }
    assert(f == 0);
    if start + text::utf8_len(line.take(k)) <= mark < start + text::utf8_len(line.take(k + 1)) {
        let b = mark - start;
        text::law_cuts_are_between_characters(line, b);
        let c = text::floor_at(line, b) as int;
        if c > k {
            lemma_take_shorter_eq(line, k + 1, c);
        }
        if c < k {
            lemma_take_shorter_eq(line, c + 1, k);
        }
        if mark <= start {
            assert(b == 0);
        }
    }
}

} // verus!
