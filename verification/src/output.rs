//! How text leaves the daemon: through the input method where a text field listens, else by the
//! paste chord.

use crate::inputmethod::InputMethod;
use crate::keyinject;
use crate::keyinject::{KeyInject, KeyStroke};
use crate::text;
use crate::text::ends_with;
use vstd::prelude::*;

verus! {

/// The two ways out, where there are any.
pub struct Output {
    pub input_method: Option<InputMethod>,
    pub keyboard: Option<KeyInject>,
}

/// The ways out at the start, given which of them could be set up: before the first dictation, so
/// that a focused field is known by then and the keyboard is ready.
pub fn init(input_method: bool, keyboard: bool) -> (r: Output)
    ensures
        r.input_method is Some == input_method,
        r.keyboard is Some == keyboard,
        r.input_method is Some ==> r.input_method->0 == (InputMethod {
            active: false,
            available: true,
            serial: 0,
            pending_active: false,
            exit: false,
        }),
        r.keyboard is Some ==> r.keyboard->0.time == 0,
{
    Output {
        input_method: if input_method {
            Some(InputMethod::new())
        } else {
            None
        },
        keyboard: if keyboard {
            Some(KeyInject::new())
        } else {
            None
        },
    }
}

/// What is committed for a text: it ends with a space.
pub open spec fn committed(text: Seq<char>) -> Seq<char> {
    if text::ends_in(text, ' ') {
        text
    } else {
        text + " "@
    }
}

/// What comes of giving a text to the input method.
pub enum Typed {
    /// There was nothing to give.
    Nothing,
    /// Commit this text, with this serial.
    Commit(String, u32),
    /// Nothing listens.
    Refused,
}

impl Typed {
    /// Whether the text counts as typed.
    pub fn taken(&self) -> (r: bool)
        ensures
            r == !(self is Refused),
    {
        match self {
            Typed::Refused => false,
            _ => true,
        }
    }
}

impl Output {
    /// Whether a text field listens.
    pub open spec fn listens(&self) -> bool {
        self.input_method is Some && self.input_method->0.listening()
    }
}

/// Gives a text to the input method: as one string, so that no character can be dropped and no key
/// binding be tripped. Refused where no text field listens; then it is pasted.
pub fn type_text(out: &Output, text: &str) -> (r: Typed)
    ensures
        if text@.len() == 0 {
            r is Nothing
        } else if out.listens() {
            &&& r is Commit
            &&& r->Commit_0@ == committed(text@)
            &&& r->Commit_1 == out.input_method->0.serial
        } else {
            r is Refused
        },
{
    if text.is_empty() {
        return Typed::Nothing;
    }
    if let Some(im) = &out.input_method {
        if im.is_active() {
            let whole: String = if ends_with(text, ' ') {
                text.to_owned()
            } else {
                text.to_owned().concat(" ")
            };
            return Typed::Commit(whole, im.serial);
        }
    }
    Typed::Refused
}

/// What the user is told where nothing listens: that the text was pasted, or that it is only on the
/// clipboard.
pub open spec fn toast_of(pasted: bool) -> Seq<char> {
    if pasted {
        "pasted"@
    } else {
        "copied to clipboard"@
    }
}

/// What the user is told where nothing listens.
pub fn paste_toast(pasted: bool) -> (r: &'static str)
    ensures
        r@ == toast_of(pasted),
{
    if pasted {
        "pasted"
    } else {
        "copied to clipboard"
    }
}

/// What is done where nothing listens.
pub struct Pasting {
    pub strokes: Vec<KeyStroke>,
    /// What the user is told.
    pub toast: &'static str,
}

/// The way out where nothing listens; the text is on the clipboard already. The strokes paste it:
/// there are none where pasting is switched off or there is no keyboard. In either case the user is
/// told.
pub fn paste(out: &mut Output, auto_paste: bool) -> (r: Pasting)
    ensures
        final(out).input_method == old(out).input_method,
        if auto_paste && old(out).keyboard is Some {
            &&& r.strokes@ == keyinject::strokes(old(out).keyboard->0.time, keyinject::chord())
            &&& final(out).keyboard is Some
            &&& final(out).keyboard->0.time == keyinject::later(old(out).keyboard->0.time, 6)
        } else {
            r.strokes@.len() == 0 && final(out).keyboard == old(out).keyboard
        },
        r.toast@ == toast_of(auto_paste && old(out).keyboard is Some),
{
    let toast: &'static str = paste_toast(auto_paste && out.keyboard.is_some());
    if !auto_paste {
        return Pasting { strokes: Vec::new(), toast };
    }
    let mut keyboard: Option<KeyInject> = out.keyboard.take();
    let strokes: Vec<KeyStroke> = match &mut keyboard {
        Some(k) => k.paste(),
        None => Vec::new(),
    };
    out.keyboard = keyboard;
    Pasting { strokes, toast }
}

/// The strokes of Enter: none where there is no keyboard. A committed line break would not submit.
pub fn type_enter(out: &mut Output) -> (r: Vec<KeyStroke>)
    ensures
        final(out).input_method == old(out).input_method,
        match old(out).keyboard {
            Some(k) => {
                &&& r@ == keyinject::strokes(k.time, keyinject::enter_keys())
                &&& final(out).keyboard is Some
                &&& final(out).keyboard->0.time == keyinject::later(k.time, 2)
            },
            None => r@.len() == 0 && final(out).keyboard is None,
        },
{
    let mut keyboard: Option<KeyInject> = out.keyboard.take();
    let r: Vec<KeyStroke> = match &mut keyboard {
        Some(k) => k.enter(),
        None => Vec::new(),
    };
    out.keyboard = keyboard;
    r
}

/// What is inserted always ends with exactly the space it has, or with one: dictations never run
/// together.
pub proof fn law_committed_text_ends_with_space(text: Seq<char>)
    ensures
        text::ends_in(committed(text), ' '),
        committed(committed(text)) == committed(text),
        text.is_prefix_of(committed(text)),
{
    reveal_strlit(" ");
    assert(text =~= committed(text).subrange(0, text.len() as int));
}

/// Text is committed as it is, with one space after it where it does not end with one.
pub proof fn law_one_space_is_added(text: Seq<char>)
    ensures
        text.len() > 0 && text.last() == ' ' ==> committed(text) == text,
        text.len() == 0 || text.last() != ' ' ==> committed(text) == text.push(' '),
{
    reveal_strlit(" ");
    assert(text + " "@ =~= text.push(' '));
}

/// The input method listens where there is one, the seat is its own and a text field has the focus.
pub proof fn law_listening_takes_a_focused_field(o: Output)
    ensures
        o.input_method is None ==> !o.listens(),
        o.input_method is Some ==> o.listens() == (o.input_method->0.available
            && o.input_method->0.active),
{
}

/// The user is told that text was pasted where it was, and else that it was copied.
pub proof fn law_toast_says_what_happened(pasted: bool)
    ensures
        pasted ==> toast_of(pasted) == "pasted"@,
        !pasted ==> toast_of(pasted) == "copied to clipboard"@,
{
}

} // verus!
