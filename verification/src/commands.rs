//! The commands that read and change the settings. Each is stated as a function from the settings
//! and an argument to an [`Effect`]: the new settings, the answer, and whether they are saved.

use crate::config;
use crate::config::{
    all_models, is_english_only, lang_name, model_caps, parse_provider_model, provider_models,
    resolve_model, AUTO_LANG, LANGUAGES, PROVIDERS,
};
use crate::ipc;
use crate::ipc::Response;
use crate::state;
use crate::state::{parse_langs, trimmed_entries, OverlayMode, State};
use crate::text;
use crate::text::{
    borrow_list, contains, contains_str, copy_list, find_char, is_listed, join_list, join_strs,
    parse_u64, same, show, split_on, trim,
};
use vstd::prelude::*;

verus! {

/// What a command does: the settings after it, its answer, and whether the settings are saved.
#[verifier::ext_equal]
pub ghost struct Effect {
    pub state: state::StateView,
    pub ok: bool,
    pub message: Seq<char>,
    pub saved: bool,
}

/// The settings changed to `s`, were saved, and `message` says so.
pub open spec fn accept(s: state::StateView, message: Seq<char>) -> Effect {
    Effect { state: s, ok: true, message, saved: true }
}

/// `message` shows something of the settings `s`, which stay.
pub open spec fn answer(s: state::StateView, message: Seq<char>) -> Effect {
    Effect { state: s, ok: true, message, saved: false }
}

/// The argument was refused with `message`, and the settings `s` stay.
pub open spec fn refuse(s: state::StateView, message: Seq<char>) -> Effect {
    Effect { state: s, ok: false, message, saved: false }
}

/// The answer to a command, and whether the settings are to be saved.
pub struct Outcome {
    pub response: Response,
    pub save: bool,
}

impl Outcome {
    /// Whether this outcome and the settings `after` are the effect `e`.
    pub open spec fn shows(&self, after: &State, e: Effect) -> bool {
        &&& self.response.says(e.ok, e.message)
        &&& self.save == e.saved
        &&& after@ == e.state
    }
}

fn accepted(message: String) -> (r: Outcome)
    ensures
        r.response.says(true, message@),
        r.save,
{
    Outcome { response: Response::ok(message), save: true }
}

fn answered(message: String) -> (r: Outcome)
    ensures
        r.response.says(true, message@),
        !r.save,
{
    Outcome { response: Response::ok(message), save: false }
}

fn refused(message: String) -> (r: Outcome)
    ensures
        r.response.says(false, message@),
        !r.save,
{
    Outcome { response: Response::err(message), save: false }
}

// ---------------------------------------------------------------------------------------------
// Model resolution

impl state::StateView {
    /// The languages that a session must handle: the preferred ones when the language is
    /// detected, else the one chosen.
    pub open spec fn required_langs(self) -> Seq<Seq<char>> {
        if self.lang == AUTO_LANG@ {
            self.languages
        } else {
            seq![self.lang]
        }
    }

    /// The model used in place of the picked one, where that one falls short.
    pub open spec fn resolved(self) -> Option<Seq<char>> {
        config::fallback(self.model, self.mode, self.required_langs())
    }
}

impl State {
    /// The languages that a session must handle: the preferred ones when the language is
    /// detected, else the one chosen.
    pub fn required_langs(&self) -> (r: Vec<String>)
        ensures
            text::views(r@) == self@.required_langs(),
    {
        if same(self.lang.as_str(), AUTO_LANG) {
            copy_list(&self.languages)
        } else {
            let mut r: Vec<String> = Vec::new();
            r.push(self.lang.clone());
            assert(text::views(r@) =~= seq![self.lang@]);
            r
        }
    }

    /// A model that handles the mode and the languages, if the picked one falls short.
    pub fn resolve(&self) -> (r: Option<String>)
        ensures
            state::opt_view(r) == self@.resolved(),
    {
        let required: Vec<String> = self.required_langs();
        let required: Vec<&str> = borrow_list(&required);
        resolve_model(self.model.as_str(), self.mode.as_str(), &required)
    }
}

// ---------------------------------------------------------------------------------------------
// mode

/// The modes of transcription.
pub const MODES: [&'static str; 3] = ["live", "vad", "batch"];

/// The remark that another model stands in: `what` it is that the picked one cannot do.
pub open spec fn stand_in(s: state::StateView, what: Seq<char>) -> Seq<char> {
    match s.resolved() {
        Some(eff) => " ("@ + s.model + what + eff + ")"@,
        None => Seq::empty(),
    }
}

/// Shows or sets the mode. Setting it drops the overlay override.
pub open spec fn mode_command(s: state::StateView, arg: Option<Seq<char>>) -> Effect {
    match arg {
        Some(m) => if text::listed(MODES@, m) {
            let t = state::StateView { mode: m, overlay: None, ..s };
            accept(t, "mode: "@ + m + stand_in(t, " can't do this mode/langs — will use "@))
        } else {
            refuse(s, "invalid mode '"@ + m + "'. use: live, vad, batch"@)
        },
        None => answer(s, "mode: "@ + s.mode + " (available: live, vad, batch)"@),
    }
}

impl State {
    fn stand_in(&self, what: &str) -> (r: String)
        ensures
            r@ == stand_in(self@, what@),
    {
        match self.resolve() {
            Some(eff) => " (".to_owned().concat(self.model.as_str()).concat(what).concat(
                eff.as_str(),
            ).concat(")"),
            None => {
                let r: String = String::new();
                assert(r@ =~= Seq::<char>::empty());
                r
            },
        }
    }

    /// Shows or sets the mode.
    pub fn mode_command(&mut self, arg: Option<String>) -> (r: Outcome)
        ensures
            r.shows(final(self), mode_command(old(self)@, state::opt_view(arg))),
    {
        match arg {
            Some(m) => if is_listed(&MODES, m.as_str()) {
                self.mode = m.clone();
                self.overlay = None;
                let note: String = self.stand_in(" can't do this mode/langs — will use ");
                accepted("mode: ".to_owned().concat(m.as_str()).concat(note.as_str()))
            } else {
                refused(
                    "invalid mode '".to_owned().concat(m.as_str()).concat(
                        "'. use: live, vad, batch",
                    ),
                )
            },
            None => answered(
                "mode: ".to_owned().concat(self.mode.as_str()).concat(
                    " (available: live, vad, batch)",
                ),
            ),
        }
    }
}

// ---------------------------------------------------------------------------------------------
// lang and languages

/// What a language is called: its name, else its code.
pub open spec fn lang_label(code: Seq<char>) -> Seq<char> {
    match config::name_of_lang(code) {
        Some(name) => name,
        None => code,
    }
}

/// The line of the list of languages for entry `i`, marked if it is the chosen one.
pub open spec fn lang_line(i: int, chosen: Seq<char>) -> Seq<char> {
    let (code, name) = LANGUAGES@[i];
    "  "@ + name@ + " ("@ + code@ + ")"@ + marker(code@ == chosen)
}

/// The mark of the current choice in a list.
pub open spec fn marker(current: bool) -> Seq<char> {
    if current {
        " *"@
    } else {
        ""@
    }
}

fn show_marker(current: bool) -> (r: &'static str)
    ensures
        r@ == marker(current),
{
    if current {
        " *"
    } else {
        ""
    }
}

/// Shows or sets the language. "multi" is another name of detection.
pub open spec fn lang_command(s: state::StateView, arg: Option<Seq<char>>) -> Effect {
    match arg {
        Some(l) => {
            let lang = if l == "multi"@ { AUTO_LANG@ } else { l };
            let t = state::StateView { lang, ..s };
            accept(
                t,
                "language: "@ + lang_label(lang) + " ("@ + lang + ")"@ + stand_in(
                    t,
                    " can't do this — will use "@,
                ),
            )
        },
        None => {
            let current = match config::name_of_lang(s.lang) {
                Some(name) => name + " ("@ + s.lang + ")"@,
                None => s.lang,
            };
            let lines = Seq::new(LANGUAGES@.len(), |i: int| lang_line(i, s.lang));
            answer(s, "language: "@ + current + "\navailable:\n"@ + text::join(lines, "\n"@))
        },
    }
}

/// Whether a code cannot be preferred: detection itself, or no known language.
pub open spec fn unknown_lang(code: Seq<char>) -> bool {
    code == AUTO_LANG@ || config::name_of_lang(code) is None
}

/// The codes that cannot be preferred.
pub open spec fn unknown_langs(codes: Seq<Seq<char>>) -> Seq<Seq<char>> {
    codes.filter(|c: Seq<char>| unknown_lang(c))
}

/// Shows or sets the preferred languages.
pub open spec fn languages_command(s: state::StateView, arg: Option<Seq<char>>) -> Effect {
    match arg {
        Some(list) => {
            let langs = state::listed_langs(list);
            if langs.len() == 0 {
                refuse(s, "provide at least one language code"@)
            } else if unknown_langs(langs).len() > 0 {
                refuse(
                    s,
                    "invalid language code(s): "@ + text::join(unknown_langs(langs), ", "@),
                )
            } else {
                accept(
                    state::StateView { languages: langs, ..s },
                    "preferred languages: "@ + text::join(langs, ", "@),
                )
            }
        },
        None => answer(
            s,
            "preferred languages: "@ + text::join(s.languages, ", "@)
                + "\n(candidate set for auto-detect where supported — currently AssemblyAI batch)"@,
        ),
    }
}

fn find_unknown(codes: &[String]) -> (r: Vec<String>)
    ensures
        text::views(r@) == unknown_langs(text::views(codes@)),
{
    let ghost all = text::views(codes@);
    let ghost p = |c: Seq<char>| unknown_lang(c);
    let mut r: Vec<String> = Vec::new();
    let mut i: usize = 0;
    proof {
        reveal(Seq::filter);
        assert(all.take(0) =~= Seq::<Seq<char>>::empty());
        assert(text::views(r@) =~= all.take(0).filter(p));
    }
    while i < codes.len()
        invariant
            i <= codes@.len(),
            all == text::views(codes@),
            p == |c: Seq<char>| unknown_lang(c),
            text::views(r@) == all.take(i as int).filter(p),
        decreases codes.len() - i,
    {
        let code: &str = codes[i].as_str();
        let bad: bool = same(code, AUTO_LANG) || lang_name(code).is_none();
        let ghost before = r@;
        proof {
            reveal(Seq::filter);
            assert(all.take(i + 1).drop_last() =~= all.take(i as int));
            assert(all.take(i + 1).last() == code@);
        }
        if bad {
            r.push(codes[i].clone());
            assert(text::views(r@) =~= text::views(before).push(code@));
        }
        i += 1;
    }
    assert(all.take(i as int) =~= all);
    r
}

impl State {
    fn lang_lines(&self) -> (r: Vec<String>)
        ensures
            text::views(r@) == Seq::new(LANGUAGES@.len(), |i: int| lang_line(i, self.lang@)),
    {
        let mut r: Vec<String> = Vec::new();
        let mut i: usize = 0;
        while i < LANGUAGES.len()
            invariant
                i <= LANGUAGES@.len(),
                r@.len() == i,
                forall|j: int| 0 <= j < i ==> (#[trigger] r@[j])@ == lang_line(j, self.lang@),
            decreases LANGUAGES.len() - i,
        {
            let code: &'static str = LANGUAGES[i].0;
            let name: &'static str = LANGUAGES[i].1;
            let mark: &'static str = show_marker(same(code, self.lang.as_str()));
            r.push(
                "  ".to_owned().concat(name).concat(" (").concat(code).concat(")").concat(mark),
            );
            i += 1;
        }
        assert(text::views(r@) =~= Seq::new(
            LANGUAGES@.len(),
            |i: int| lang_line(i, self.lang@),
        ));
        r
    }

    /// Shows or sets the language.
    pub fn lang_command(&mut self, arg: Option<String>) -> (r: Outcome)
        ensures
            r.shows(final(self), lang_command(old(self)@, state::opt_view(arg))),
    {
        match arg {
            Some(l) => {
                let lang: String = if same(l.as_str(), "multi") {
                    AUTO_LANG.to_owned()
                } else {
                    l
                };
                self.lang = lang.clone();
                let label: &str = match lang_name(lang.as_str()) {
                    Some(name) => name,
                    None => lang.as_str(),
                };
                let note: String = self.stand_in(" can't do this — will use ");
                accepted(
                    "language: ".to_owned().concat(label).concat(" (").concat(
                        lang.as_str(),
                    ).concat(")").concat(note.as_str()),
                )
            },
            None => {
                let current: String = match lang_name(self.lang.as_str()) {
                    Some(name) => name.to_owned().concat(" (").concat(
                        self.lang.as_str(),
                    ).concat(")"),
                    None => self.lang.clone(),
                };
                let lines: Vec<String> = self.lang_lines();
                let list: String = join_list(&lines, "\n");
                answered(
                    "language: ".to_owned().concat(current.as_str()).concat(
                        "\navailable:\n",
                    ).concat(list.as_str()),
                )
            },
        }
    }

    /// Shows or sets the preferred languages.
    pub fn languages_command(&mut self, arg: Option<String>) -> (r: Outcome)
        ensures
            r.shows(final(self), languages_command(old(self)@, state::opt_view(arg))),
    {
        match arg {
            Some(list) => {
                let langs: Vec<String> = parse_langs(list.as_str());
                let unknown: Vec<String> = find_unknown(&langs);
                assert(text::views(langs@).len() == langs@.len());
                assert(text::views(unknown@).len() == unknown@.len());
                if langs.is_empty() {
                    refused("provide at least one language code".to_owned())
                } else if !unknown.is_empty() {
                    refused(
                        "invalid language code(s): ".to_owned().concat(
                            join_list(&unknown, ", ").as_str(),
                        ),
                    )
                } else {
                    let message: String = "preferred languages: ".to_owned().concat(
                        join_list(&langs, ", ").as_str(),
                    );
                    self.languages = langs;
                    accepted(message)
                }
            },
            None => answered(
                "preferred languages: ".to_owned().concat(
                    join_list(&self.languages, ", ").as_str(),
                ).concat(
                    "\n(candidate set for auto-detect where supported — currently AssemblyAI batch)",
                ),
            ),
        }
    }
}

// ---------------------------------------------------------------------------------------------
// font

/// The answer to setting the font, given the family that the font system substitutes for it, or
/// `None` where that could not be found out. A font is known if its name occurs in the family
/// that stands in for it, in any case.
pub open spec fn font_effect(s: state::StateView, font: Seq<char>, family: Option<Seq<char>>) -> Effect {
    let t = state::StateView { font, ..s };
    match family {
        Some(out) => {
            let matched = text::trimmed(out);
            if text::occurs(text::lowercase(matched), text::lowercase(font)) {
                accept(t, "font: "@ + font)
            } else {
                refuse(
                    s,
                    "font '"@ + font + "' not found (fc-match resolved to '"@ + matched + "')"@,
                )
            }
        },
        None => accept(t, "font: "@ + font + " (could not verify)"@),
    }
}

impl State {
    /// Sets the font, given the family that the font system substitutes for it.
    pub fn font_matched(&mut self, font: String, family: Option<String>) -> (r: Outcome)
        ensures
            r.shows(final(self), font_effect(old(self)@, font@, state::opt_view(family))),
    {
        match family {
            Some(out) => {
                let matched: String = trim(out.as_str());
                if !contains_str(
                    matched.as_str().to_lowercase().as_str(),
                    font.as_str().to_lowercase().as_str(),
                ) {
                    return refused(
                        "font '".to_owned().concat(font.as_str()).concat(
                            "' not found (fc-match resolved to '",
                        ).concat(matched.as_str()).concat("')"),
                    );
                }
                self.font = font.clone();
                accepted("font: ".to_owned().concat(font.as_str()))
            },
            None => {
                self.font = font.clone();
                accepted(
                    "font: ".to_owned().concat(font.as_str()).concat(" (could not verify)"),
                )
            },
        }
    }
}

// ---------------------------------------------------------------------------------------------
// Switches

/// The word for a switch.
pub open spec fn on_off(on: bool) -> Seq<char> {
    if on {
        "on"@
    } else {
        "off"@
    }
}

fn show_on_off(on: bool) -> (r: &'static str)
    ensures
        r@ == on_off(on),
{
    if on {
        "on"
    } else {
        "off"
    }
}

/// The position of a switch that an argument asks for, where `words` also takes "true" and
/// "false".
pub open spec fn switch_arg(arg: Seq<char>, words: bool) -> Option<bool> {
    if arg == "on"@ || (words && arg == "true"@) {
        Some(true)
    } else if arg == "off"@ || (words && arg == "false"@) {
        Some(false)
    } else {
        None
    }
}

/// Where a switch ends up: what the argument asks for, or the other position without one.
pub open spec fn switched(now: bool, arg: Option<Seq<char>>, words: bool) -> Option<bool> {
    match arg {
        Some(a) => switch_arg(a, words),
        None => Some(!now),
    }
}

fn read_switch(now: bool, arg: &Option<String>, words: bool) -> (r: Option<bool>)
    ensures
        r == switched(now, state::opt_view(*arg), words),
{
    match arg {
        Some(a) => {
            let a: &str = a.as_str();
            if same(a, "on") || (words && same(a, "true")) {
                Some(true)
            } else if same(a, "off") || (words && same(a, "false")) {
                Some(false)
            } else {
                None
            }
        },
        None => Some(!now),
    }
}

/// Sets or flips Enter after typing.
pub open spec fn enter_command(s: state::StateView, arg: Option<Seq<char>>) -> Effect {
    match switched(s.enter, arg, true) {
        Some(on) => accept(state::StateView { enter: on, ..s }, "enter: "@ + on_off(on)),
        None => refuse(s, "invalid value. use: on, off"@),
    }
}

/// Sets or flips correction.
pub open spec fn correct_command(s: state::StateView, arg: Option<Seq<char>>) -> Effect {
    match switched(s.correct, arg, true) {
        Some(on) => accept(state::StateView { correct: on, ..s }, "correct: "@ + on_off(on)),
        None => refuse(s, "invalid value. use: on, off"@),
    }
}

/// Sets or flips the removal of filler words.
pub open spec fn fillers_command(s: state::StateView, arg: Option<Seq<char>>) -> Effect {
    match switched(s.remove_fillers, arg, false) {
        Some(on) => accept(
            state::StateView { remove_fillers: on, ..s },
            "filler removal: "@ + on_off(on),
        ),
        None => refuse(s, "use: on, off"@),
    }
}

/// Sets or flips the paste fallback.
pub open spec fn paste_command(s: state::StateView, arg: Option<Seq<char>>) -> Effect {
    match switched(s.auto_paste, arg, false) {
        Some(on) => accept(s.with_auto_paste(on), "auto-paste: "@ + on_off(on)),
        None => refuse(s, "use: on, off"@),
    }
}

/// Shows or sets how long corrected text stays visible at most.
pub open spec fn hold_command(s: state::StateView, arg: Option<Seq<char>>) -> Effect {
    match arg {
        Some(v) => match text::spelled(v) {
            Some(ms) if ms <= u64::MAX => accept(
                state::StateView { correct_hold_ms: ms as u64, ..s },
                "correct-hold: "@ + text::decimal(ms) + "ms"@,
            ),
            _ => refuse(s, "invalid value, expected milliseconds"@),
        },
        None => answer(
            s,
            "correct-hold: "@ + text::decimal(s.correct_hold_ms as nat) + "ms"@,
        ),
    }
}

impl State {
    /// Sets or flips Enter after typing.
    pub fn enter_command(&mut self, arg: Option<String>) -> (r: Outcome)
        ensures
            r.shows(final(self), enter_command(old(self)@, state::opt_view(arg))),
    {
        match read_switch(self.enter, &arg, true) {
            Some(on) => {
                self.enter = on;
                accepted("enter: ".to_owned().concat(show_on_off(on)))
            },
            None => refused("invalid value. use: on, off".to_owned()),
        }
    }

    /// Sets or flips correction.
    pub fn correct_command(&mut self, arg: Option<String>) -> (r: Outcome)
        ensures
            r.shows(final(self), correct_command(old(self)@, state::opt_view(arg))),
    {
        match read_switch(self.correct, &arg, true) {
            Some(on) => {
                self.correct = on;
                accepted("correct: ".to_owned().concat(show_on_off(on)))
            },
            None => refused("invalid value. use: on, off".to_owned()),
        }
    }

    /// Sets or flips the removal of filler words.
    pub fn fillers_command(&mut self, arg: Option<String>) -> (r: Outcome)
        ensures
            r.shows(final(self), fillers_command(old(self)@, state::opt_view(arg))),
    {
        match read_switch(self.remove_fillers, &arg, false) {
            Some(on) => {
                self.remove_fillers = on;
                accepted("filler removal: ".to_owned().concat(show_on_off(on)))
            },
            None => refused("use: on, off".to_owned()),
        }
    }

    /// Sets or flips the paste fallback.
    pub fn paste_command(&mut self, arg: Option<String>) -> (r: Outcome)
        ensures
            r.shows(final(self), paste_command(old(self)@, state::opt_view(arg))),
    {
        match read_switch(self.auto_paste, &arg, false) {
            Some(on) => {
                self.set_auto_paste(on);
                accepted("auto-paste: ".to_owned().concat(show_on_off(on)))
            },
            None => refused("use: on, off".to_owned()),
        }
    }

    /// Shows or sets how long corrected text stays visible at most.
    pub fn hold_command(&mut self, arg: Option<String>) -> (r: Outcome)
        ensures
            r.shows(final(self), hold_command(old(self)@, state::opt_view(arg))),
    {
        match arg {
            Some(v) => match parse_u64(v.as_str()) {
                Some(ms) => {
                    self.correct_hold_ms = ms;
                    accepted(
                        "correct-hold: ".to_owned().concat(show(ms).as_str()).concat("ms"),
                    )
                },
                None => refused("invalid value, expected milliseconds".to_owned()),
            },
            None => answered(
                "correct-hold: ".to_owned().concat(show(self.correct_hold_ms).as_str()).concat(
                    "ms",
                ),
            ),
        }
    }
}

// ---------------------------------------------------------------------------------------------
// output, delivery and overlay

/// The values of the command "output".
pub const OUTPUTS: [&'static str; 2] = ["type", "clipboard"];

/// The values of the command "delivery".
pub const DELIVERIES: [&'static str; 3] = ["auto", "type", "clipboard"];

/// Shows or sets the output. Setting it drops the overlay override, so that the overlay follows.
pub open spec fn output_command(s: state::StateView, arg: Option<Seq<char>>) -> Effect {
    match arg {
        Some(o) => if text::listed(OUTPUTS@, o) {
            let t = state::StateView { overlay: None, ..s.with_output(o) };
            accept(
                t,
                "output: "@ + o + " (overlay: "@ + state::overlay_name(t.overlay_mode()) + ")"@,
            )
        } else {
            refuse(s, "invalid output '"@ + o + "'. use: type, clipboard"@)
        },
        None => answer(s, "output: "@ + s.output + " (available: type, clipboard)"@),
    }
}

/// Shows or sets the delivery. Setting it drops the overlay override, so that the overlay follows.
pub open spec fn delivery_command(s: state::StateView, arg: Option<Seq<char>>) -> Effect {
    match arg {
        Some(d) => if text::listed(DELIVERIES@, d) {
            let t = state::StateView { overlay: None, ..s.with_delivery(d) };
            accept(
                t,
                "delivery: "@ + d + " (overlay: "@ + state::overlay_name(t.overlay_mode()) + ")"@,
            )
        } else {
            refuse(s, "invalid delivery '"@ + d + "'. use: auto, type, clipboard"@)
        },
        None => answer(s, "delivery: "@ + s.delivery + " (available: auto, type, clipboard)"@),
    }
}

/// Shows or sets the overlay.
pub open spec fn overlay_command(s: state::StateView, arg: Option<Seq<char>>) -> Effect {
    match arg {
        Some(name) => match state::overlay_named(name) {
            Some(m) => accept(
                state::StateView { overlay: Some(m), ..s },
                "overlay: "@ + state::overlay_name(m),
            ),
            None => refuse(s, "invalid value. use: off, status, full"@),
        },
        None => answer(
            s,
            "overlay: "@ + state::overlay_name(s.overlay_mode()) + " (off | status | full)"@,
        ),
    }
}

impl State {
    /// Shows or sets the output.
    pub fn output_command(&mut self, arg: Option<String>) -> (r: Outcome)
        ensures
            r.shows(final(self), output_command(old(self)@, state::opt_view(arg))),
    {
        match arg {
            Some(o) => if is_listed(&OUTPUTS, o.as_str()) {
                self.set_output(o.clone());
                self.overlay = None;
                accepted(
                    "output: ".to_owned().concat(o.as_str()).concat(" (overlay: ").concat(
                        self.overlay_mode().name(),
                    ).concat(")"),
                )
            } else {
                refused(
                    "invalid output '".to_owned().concat(o.as_str()).concat(
                        "'. use: type, clipboard",
                    ),
                )
            },
            None => answered(
                "output: ".to_owned().concat(self.output.as_str()).concat(
                    " (available: type, clipboard)",
                ),
            ),
        }
    }

    /// Shows or sets the delivery.
    pub fn delivery_command(&mut self, arg: Option<String>) -> (r: Outcome)
        ensures
            r.shows(final(self), delivery_command(old(self)@, state::opt_view(arg))),
    {
        match arg {
            Some(d) => if is_listed(&DELIVERIES, d.as_str()) {
                self.set_delivery(d.clone());
                self.overlay = None;
                accepted(
                    "delivery: ".to_owned().concat(d.as_str()).concat(" (overlay: ").concat(
                        self.overlay_mode().name(),
                    ).concat(")"),
                )
            } else {
                refused(
                    "invalid delivery '".to_owned().concat(d.as_str()).concat(
                        "'. use: auto, type, clipboard",
                    ),
                )
            },
            None => answered(
                "delivery: ".to_owned().concat(self.delivery.as_str()).concat(
                    " (available: auto, type, clipboard)",
                ),
            ),
        }
    }

    /// Shows or sets the overlay.
    pub fn overlay_command(&mut self, arg: Option<String>) -> (r: Outcome)
        ensures
            r.shows(final(self), overlay_command(old(self)@, state::opt_view(arg))),
    {
        match arg {
            Some(name) => match OverlayMode::from_name(name.as_str()) {
                Some(m) => {
                    self.overlay = Some(m);
                    accepted("overlay: ".to_owned().concat(m.name()))
                },
                None => refused("invalid value. use: off, status, full".to_owned()),
            },
            None => answered(
                "overlay: ".to_owned().concat(self.overlay_mode().name()).concat(
                    " (off | status | full)",
                ),
            ),
        }
    }
}

// ---------------------------------------------------------------------------------------------
// input

/// The default input device instead of a named one.
pub open spec fn input_default(s: state::StateView) -> Effect {
    accept(state::StateView { input: Seq::empty(), ..s }, "input: default"@)
}

/// The answer to choosing an input device, given those there are.
pub open spec fn input_effect(
    s: state::StateView,
    name: Seq<char>,
    devices: Seq<Seq<char>>,
) -> Effect {
    if text::holds(devices, name) {
        accept(state::StateView { input: name, ..s }, "input: "@ + name)
    } else {
        refuse(s, "device '"@ + name + "' not found"@)
    }
}

/// The line of the list of input devices for `device`, marked if it is in use.
pub open spec fn input_line(input: Seq<char>, default_name: Seq<char>, device: Seq<char>) -> Seq<
    char,
> {
    let current = if input.len() == 0 { default_name } else { input };
    "  "@ + device + marker(device == current)
}

/// The answer to asking for the input device, given those there are and the system's default.
pub open spec fn inputs_shown(
    s: state::StateView,
    devices: Seq<Seq<char>>,
    default_name: Seq<char>,
) -> Effect {
    let current = if s.input.len() == 0 { "default ("@ + default_name + ")"@ } else { s.input };
    let lines = Seq::new(
        devices.len(),
        |i: int| input_line(s.input, default_name, devices[i]),
    );
    answer(s, "input: "@ + current + "\navailable:\n"@ + text::join(lines, "\n"@))
}

impl State {
    /// Goes back to the default input device.
    pub fn input_default(&mut self) -> (r: Outcome)
        ensures
            r.shows(final(self), input_default(old(self)@)),
    {
        self.input = String::new();
        assert(self@.input =~= Seq::<char>::empty());
        accepted("input: default".to_owned())
    }

    /// Chooses an input device, given those there are.
    pub fn input_checked(&mut self, name: String, devices: &[String]) -> (r: Outcome)
        ensures
            r.shows(final(self), input_effect(old(self)@, name@, text::views(devices@))),
    {
        if contains(devices, name.as_str()) {
            self.input = name.clone();
            accepted("input: ".to_owned().concat(name.as_str()))
        } else {
            refused("device '".to_owned().concat(name.as_str()).concat("' not found"))
        }
    }

    fn input_lines(&self, devices: &[String], default_name: &str) -> (r: Vec<String>)
        ensures
            text::views(r@) == Seq::new(
                devices@.len(),
                |i: int| input_line(self.input@, default_name@, text::views(devices@)[i]),
            ),
    {
        let current: &str = if self.input.as_str().is_empty() {
            default_name
        } else {
            self.input.as_str()
        };
        let mut r: Vec<String> = Vec::new();
        let mut i: usize = 0;
        while i < devices.len()
            invariant
                i <= devices@.len(),
                r@.len() == i,
                current@ == if self.input@.len() == 0 { default_name@ } else { self.input@ },
                forall|j: int|
                    0 <= j < i ==> (#[trigger] r@[j])@ == input_line(
                        self.input@,
                        default_name@,
                        devices@[j]@,
                    ),
            decreases devices.len() - i,
        {
            let mark: &'static str = show_marker(same(devices[i].as_str(), current));
            r.push("  ".to_owned().concat(devices[i].as_str()).concat(mark));
            i += 1;
        }
        assert(text::views(r@) =~= Seq::new(
            devices@.len(),
            |i: int| input_line(self.input@, default_name@, text::views(devices@)[i]),
        ));
        r
    }

    /// Shows the input device among those there are.
    pub fn inputs_listed(&self, devices: &[String], default_name: &str) -> (r: Outcome)
        ensures
            r.shows(self, inputs_shown(self@, text::views(devices@), default_name@)),
    {
        let current: String = if self.input.as_str().is_empty() {
            "default (".to_owned().concat(default_name).concat(")")
        } else {
            self.input.clone()
        };
        let lines: Vec<String> = self.input_lines(devices, default_name);
        let list: String = join_list(&lines, "\n");
        proof {
            let n = text::views(devices@);
            assert(Seq::new(
                devices@.len(),
                |i: int| input_line(self.input@, default_name@, n[i]),
            ) =~= Seq::new(n.len(), |i: int| input_line(self@.input, default_name@, n[i])));
        }
        answered(
            "input: ".to_owned().concat(current.as_str()).concat("\navailable:\n").concat(
                list.as_str(),
            ),
        )
    }
}

// ---------------------------------------------------------------------------------------------
// model

/// What a picked model cannot do in the current mode and language.
pub open spec fn model_warnings(s: state::StateView, caps: config::CapsView) -> Seq<Seq<char>> {
    let live = if s.mode == "live"@ && caps.live is None {
        seq!["no live support, will fall back on record"@]
    } else {
        Seq::empty()
    };
    let lang = if caps.english_only() && s.lang != "en"@ && s.lang != AUTO_LANG@ {
        seq!["english only"@]
    } else {
        Seq::empty()
    };
    live + lang
}

/// What the list of models says of one.
pub open spec fn model_tags(caps: config::CapsView) -> Seq<Seq<char>> {
    let live = if caps.live is Some { seq!["live"@] } else { Seq::empty() };
    let batch = if caps.batch is Some { seq!["batch"@] } else { Seq::empty() };
    let english = if caps.english_only() { seq!["en-only"@] } else { Seq::empty() };
    live + batch + english
}

/// The line of the list of models for `id`, marked if it is the picked one.
pub open spec fn model_line(id: Seq<char>, picked: Seq<char>) -> Seq<char> {
    let caps = config::caps_of(config::provider_of(id), config::model_of(id));
    "  "@ + id + " ["@ + text::join(model_tags(caps), "+"@) + "]"@ + marker(id == picked)
}

/// Shows or picks the model.
pub open spec fn model_command(s: state::StateView, arg: Option<Seq<char>>) -> Effect {
    let providers = text::join(text::strs(PROVIDERS@), ", "@);
    match arg {
        Some(m) => {
            let provider = config::provider_of(m);
            let model = config::model_of(m);
            let models = config::models_of(provider);
            let warnings = model_warnings(s, config::caps_of(provider, model));
            if text::span(m, text::other_than('/')) == m.len() {
                refuse(s, "format: provider/model (providers: "@ + providers + ")"@)
            } else if !text::listed(PROVIDERS@, provider) {
                refuse(s, "unknown provider '"@ + provider + "'. use: "@ + providers)
            } else if model.len() == 0 {
                refuse(s, "model name required after provider/"@)
            } else if !text::listed(models, model) {
                refuse(
                    s,
                    "unknown model '"@ + model + "' for "@ + provider + ". available: "@
                        + text::join(text::strs(models), ", "@),
                )
            } else if warnings.len() == 0 {
                accept(state::StateView { model: m, ..s }, "model: "@ + m)
            } else {
                accept(
                    state::StateView { model: m, ..s },
                    "model: "@ + m + " ("@ + text::join(warnings, ", "@) + ")"@,
                )
            }
        },
        None => {
            let ids = text::strs(config::ALL_MODELS@);
            let lines = Seq::new(ids.len(), |i: int| model_line(ids[i], s.model));
            answer(s, "model: "@ + s.model + "\navailable:\n"@ + text::join(lines, "\n"@))
        },
    }
}

fn tag_list(caps: &config::ModelCaps) -> (r: String)
    ensures
        r@ == text::join(model_tags(caps@), "+"@),
{
    let mut tags: Vec<&str> = Vec::new();
    if caps.live.is_some() {
        tags.push("live");
    }
    if caps.batch.is_some() {
        tags.push("batch");
    }
    if is_english_only(caps) {
        tags.push("en-only");
    }
    assert(text::strs(tags@) =~= model_tags(caps@));
    join_strs(&tags, "+")
}

impl State {
    fn warnings(&self, caps: &config::ModelCaps) -> (r: Vec<&'static str>)
        ensures
            text::strs(r@) == model_warnings(self@, caps@),
    {
        let mut r: Vec<&'static str> = Vec::new();
        if same(self.mode.as_str(), "live") && caps.live.is_none() {
            r.push("no live support, will fall back on record");
        }
        if is_english_only(caps) && !same(self.lang.as_str(), "en") && !same(
            self.lang.as_str(),
            AUTO_LANG,
        ) {
            r.push("english only");
        }
        assert(text::strs(r@) =~= model_warnings(self@, caps@));
        r
    }

    fn model_lines(&self) -> (r: Vec<String>)
        ensures
            text::views(r@) == Seq::new(
                config::ALL_MODELS@.len(),
                |i: int| model_line(text::strs(config::ALL_MODELS@)[i], self.model@),
            ),
    {
        let ids: Vec<String> = all_models();
        assert(text::views(ids@).len() == ids@.len());
        let mut r: Vec<String> = Vec::new();
        let mut i: usize = 0;
        while i < ids.len()
            invariant
                i <= ids@.len(),
                r@.len() == i,
                forall|j: int|
                    0 <= j < i ==> (#[trigger] r@[j])@ == model_line(ids@[j]@, self.model@),
            decreases ids.len() - i,
        {
            let id: &str = ids[i].as_str();
            let (p, n) = parse_provider_model(id);
            let tags: String = tag_list(&model_caps(p, n));
            let mark: &'static str = show_marker(same(id, self.model.as_str()));
            r.push(
                "  ".to_owned().concat(id).concat(" [").concat(tags.as_str()).concat("]").concat(
                    mark,
                ),
            );
            i += 1;
        }
        assert forall|j: int| 0 <= j < ids@.len() implies (#[trigger] r@[j])@ == model_line(
            text::strs(config::ALL_MODELS@)[j],
            self.model@,
        ) by {
            assert(text::views(ids@)[j] == ids@[j]@);
        }
        assert(text::views(r@) =~= Seq::new(
            config::ALL_MODELS@.len(),
            |i: int| model_line(text::strs(config::ALL_MODELS@)[i], self.model@),
        ));
        r
    }

    fn pick_model(&mut self, m: String) -> (r: Outcome)
        ensures
            r.shows(final(self), model_command(old(self)@, Some(m@))),
    {
        if find_char(m.as_str(), '/').is_none() {
            return refused(
                "format: provider/model (providers: ".to_owned().concat(
                    join_strs(&PROVIDERS, ", ").as_str(),
                ).concat(")"),
            );
        }
        let (provider, model) = parse_provider_model(m.as_str());
        if !is_listed(&PROVIDERS, provider) {
            return refused(
                "unknown provider '".to_owned().concat(provider).concat("'. use: ").concat(
                    join_strs(&PROVIDERS, ", ").as_str(),
                ),
            );
        }
        if model.is_empty() {
            return refused("model name required after provider/".to_owned());
        }
        let models: &'static [&'static str] = provider_models(provider);
        if !is_listed(models, model) {
            return refused(
                "unknown model '".to_owned().concat(model).concat("' for ").concat(
                    provider,
                ).concat(". available: ").concat(join_strs(models, ", ").as_str()),
            );
        }
        let warnings: Vec<&'static str> = self.warnings(&model_caps(provider, model));
        assert(text::strs(warnings@).len() == warnings@.len());
        self.model = m.clone();
        let message: String = "model: ".to_owned().concat(m.as_str());
        if warnings.is_empty() {
            accepted(message)
        } else {
            accepted(
                message.as_str().to_owned().concat(" (").concat(
                    join_strs(&warnings, ", ").as_str(),
                ).concat(")"),
            )
        }
    }

    /// Shows or picks the model.
    pub fn model_command(&mut self, arg: Option<String>) -> (r: Outcome)
        ensures
            r.shows(final(self), model_command(old(self)@, state::opt_view(arg))),
    {
        match arg {
            Some(m) => self.pick_model(m),
            None => {
                let lines: Vec<String> = self.model_lines();
                let list: String = join_list(&lines, "\n");
                proof {
                    let ids = text::strs(config::ALL_MODELS@);
                    assert(Seq::new(
                        config::ALL_MODELS@.len(),
                        |i: int| model_line(text::strs(config::ALL_MODELS@)[i], self.model@),
                    ) =~= Seq::new(ids.len(), |i: int| model_line(ids[i], self@.model)));
                }
                answered(
                    "model: ".to_owned().concat(self.model.as_str()).concat(
                        "\navailable:\n",
                    ).concat(list.as_str()),
                )
            },
        }
    }
}

// ---------------------------------------------------------------------------------------------
// vocab

/// The vocabulary with `terms` added in order, each unless it is there already.
pub open spec fn with_terms(vocabulary: Seq<Seq<char>>, terms: Seq<Seq<char>>) -> Seq<Seq<char>>
    decreases terms.len(),
{
    if terms.len() == 0 {
        vocabulary
    } else {
        let v = with_terms(vocabulary, terms.drop_last());
        if text::holds(v, terms.last()) {
            v
        } else {
            v.push(terms.last())
        }
    }
}

/// The vocabulary without `terms`.
pub open spec fn without_terms(vocabulary: Seq<Seq<char>>, terms: Seq<Seq<char>>) -> Seq<
    Seq<char>,
> {
    vocabulary.filter(|t: Seq<char>| !text::holds(terms, t))
}

/// How the vocabulary's size is reported.
pub open spec fn vocab_size(vocabulary: Seq<Seq<char>>) -> Seq<char> {
    "vocabulary: "@ + text::decimal(vocabulary.len()) + " term(s)"@
}

/// The action in the argument of the command: its first line.
pub open spec fn vocab_action(arg: Seq<char>) -> Seq<char> {
    text::split(arg, '\n')[0]
}

/// The terms in the argument of the command: the other lines, trimmed, without blank ones.
pub open spec fn vocab_terms(arg: Seq<char>) -> Seq<Seq<char>> {
    state::entries(text::split(arg, '\n').skip(1))
}

/// Shows or changes the vocabulary.
pub open spec fn vocab_command(s: state::StateView, arg: Option<Seq<char>>) -> Effect {
    let line = match arg {
        Some(a) => a,
        None => "list"@,
    };
    let action = vocab_action(line);
    let terms = vocab_terms(line);
    if action == "add"@ {
        let vocabulary = with_terms(s.vocabulary, terms);
        accept(state::StateView { vocabulary, ..s }, vocab_size(vocabulary))
    } else if action == "remove"@ {
        let vocabulary = without_terms(s.vocabulary, terms);
        accept(state::StateView { vocabulary, ..s }, vocab_size(vocabulary))
    } else if action == "clear"@ {
        accept(state::StateView { vocabulary: Seq::empty(), ..s }, "vocabulary cleared"@)
    } else if s.vocabulary.len() == 0 {
        answer(s, "vocabulary: (empty)"@)
    } else {
        answer(
            s,
            "vocabulary ("@ + text::decimal(s.vocabulary.len()) + "):\n  "@ + text::join(
                s.vocabulary,
                "\n  "@,
            ),
        )
    }
}

fn add_terms(vocabulary: &mut Vec<String>, terms: Vec<String>)
    ensures
        text::views(final(vocabulary)@) == with_terms(
            text::views(old(vocabulary)@),
            text::views(terms@),
        ),
{
    let ghost start = text::views(vocabulary@);
    let ghost all = text::views(terms@);
    let mut i: usize = 0;
    assert(all.take(0) =~= Seq::<Seq<char>>::empty());
    while i < terms.len()
        invariant
            i <= terms@.len(),
            all == text::views(terms@),
            text::views(vocabulary@) == with_terms(start, all.take(i as int)),
        decreases terms.len() - i,
    {
        proof {
            assert(all.take(i + 1).drop_last() =~= all.take(i as int));
            assert(all.take(i + 1).last() == terms@[i as int]@);
        }
        if !contains(vocabulary, terms[i].as_str()) {
            let ghost before = vocabulary@;
            vocabulary.push(terms[i].clone());
            assert(text::views(vocabulary@) =~= text::views(before).push(terms@[i as int]@));
        }
        i += 1;
    }
    assert(all.take(i as int) =~= all);
}

fn drop_terms(vocabulary: &[String], terms: &[String]) -> (r: Vec<String>)
    ensures
        text::views(r@) == without_terms(text::views(vocabulary@), text::views(terms@)),
{
    let ghost all = text::views(vocabulary@);
    let ghost p = |t: Seq<char>| !text::holds(text::views(terms@), t);
    let mut r: Vec<String> = Vec::new();
    let mut i: usize = 0;
    proof {
        reveal(Seq::filter);
        assert(all.take(0) =~= Seq::<Seq<char>>::empty());
        assert(text::views(r@) =~= all.take(0).filter(p));
    }
    while i < vocabulary.len()
        invariant
            i <= vocabulary@.len(),
            all == text::views(vocabulary@),
            p == |t: Seq<char>| !text::holds(text::views(terms@), t),
            text::views(r@) == all.take(i as int).filter(p),
        decreases vocabulary.len() - i,
    {
        proof {
            reveal(Seq::filter);
            assert(all.take(i + 1).drop_last() =~= all.take(i as int));
            assert(all.take(i + 1).last() == vocabulary@[i as int]@);
        }
        if !contains(terms, vocabulary[i].as_str()) {
            let ghost before = r@;
            r.push(vocabulary[i].clone());
            assert(text::views(r@) =~= text::views(before).push(vocabulary@[i as int]@));
        }
        i += 1;
    }
    assert(all.take(i as int) =~= all);
    r
}

fn show_vocab_size(vocabulary: &[String]) -> (r: String)
    ensures
        r@ == vocab_size(text::views(vocabulary@)),
{
    "vocabulary: ".to_owned().concat(show(vocabulary.len() as u64).as_str()).concat(" term(s)")
}

impl State {
    /// Shows or changes the vocabulary.
    pub fn vocab_command(&mut self, arg: Option<String>) -> (r: Outcome)
        ensures
            r.shows(final(self), vocab_command(old(self)@, state::opt_view(arg))),
    {
        let line: String = match arg {
            Some(a) => a,
            None => "list".to_owned(),
        };
        let pieces: Vec<String> = split_on(line.as_str(), '\n');
        let action: &str = pieces[0].as_str();
        assert(action@ == text::views(pieces@)[0]);
        let terms: Vec<String> = trimmed_entries(&pieces, 1);
        if same(action, "add") {
            add_terms(&mut self.vocabulary, terms);
            accepted(show_vocab_size(&self.vocabulary))
        } else if same(action, "remove") {
            self.vocabulary = drop_terms(&self.vocabulary, &terms);
            accepted(show_vocab_size(&self.vocabulary))
        } else if same(action, "clear") {
            self.vocabulary = Vec::new();
            assert(text::views(self.vocabulary@) =~= Seq::<Seq<char>>::empty());
            accepted("vocabulary cleared".to_owned())
        } else if self.vocabulary.is_empty() {
            answered("vocabulary: (empty)".to_owned())
        } else {
            answered(
                "vocabulary (".to_owned().concat(
                    show(self.vocabulary.len() as u64).as_str(),
                ).concat("):\n  ").concat(join_list(&self.vocabulary, "\n  ").as_str()),
            )
        }
    }
}

// ---------------------------------------------------------------------------------------------
// status

/// The line that the command "status" answers.
pub open spec fn status_line(s: state::StateView, recording: bool) -> Seq<char> {
    (if recording { "recording"@ } else { "idle"@ }) + " (mode: "@ + s.mode + ", output: "@
        + s.output + ", overlay: "@ + state::overlay_name(s.overlay_mode()) + ", lang: "@ + s.lang
        + ", model: "@ + s.model + ", preferred: ["@ + text::join(s.languages, ", "@) + "])"@
}

impl State {
    /// Shows the main settings and whether a recording runs.
    pub fn status_command(&self, recording: bool) -> (r: Outcome)
        ensures
            r.shows(self, answer(self@, status_line(self@, recording))),
    {
        let status: &'static str = if recording {
            "recording"
        } else {
            "idle"
        };
        answered(
            status.to_owned().concat(" (mode: ").concat(self.mode.as_str()).concat(
                ", output: ",
            ).concat(self.output.as_str()).concat(", overlay: ").concat(
                self.overlay_mode().name(),
            ).concat(", lang: ").concat(self.lang.as_str()).concat(", model: ").concat(
                self.model.as_str(),
            ).concat(", preferred: [").concat(join_list(&self.languages, ", ").as_str()).concat(
                "])",
            ),
        )
    }
}

// ---------------------------------------------------------------------------------------------
// Laws

/// Whether a text is its own entry in a list whose entries `sep` separates: not blank, trimmed
/// and without the separator.
pub open spec fn clean(s: Seq<char>, sep: char) -> bool {
    &&& s.len() > 0
    &&& text::trimmed(s) == s
    &&& text::lacks(s, sep)
}

proof fn lemma_entries_of_clean(list: Seq<Seq<char>>, sep: char)
    requires
        forall|i: int| 0 <= i < list.len() ==> clean(#[trigger] list[i], sep),
    ensures
        state::entries(list) == list,
    decreases list.len(),
{
    if list.len() > 0 {
        assert forall|i: int| 0 <= i < list.drop_last().len() implies clean(
            #[trigger] list.drop_last()[i],
            sep,
        ) by {
            assert(list.drop_last()[i] == list[i]);
        }
        lemma_entries_of_clean(list.drop_last(), sep);
        assert(list =~= list.drop_last().push(list.last()));
    } else {
        assert(list =~= Seq::empty());
    }
}

proof fn lemma_terms_survive(action: Seq<char>, terms: Seq<Seq<char>>)
    requires
        text::lacks(action, '\n'),
        forall|i: int| 0 <= i < terms.len() ==> clean(#[trigger] terms[i], '\n'),
    ensures
        ({
            let arg = action + seq!['\n'] + text::join(terms, "\n"@);
            vocab_action(arg) == action && vocab_terms(arg) == terms
        }),
{
    reveal_strlit("\n");
    assert("\n"@ =~= seq!['\n']);
    let list = text::join(terms, "\n"@);
    let arg = action + seq!['\n'] + list;
    text::lemma_split_first(action, '\n', list);
    let pieces = text::split(list, '\n');
    assert(text::split(arg, '\n').skip(1) =~= pieces);
    if terms.len() > 0 {
        assert forall|i: int| 0 <= i < terms.len() implies text::lacks(
            #[trigger] terms[i],
            '\n',
        ) by {
            assert(clean(terms[i], '\n'));
        }
        text::law_split_undoes_join(terms, '\n');
        lemma_entries_of_clean(terms, '\n');
    } else {
        text::lemma_split_none(list, '\n');
        assert(pieces =~= seq![Seq::<char>::empty()]);
        assert(pieces.last() =~= Seq::<char>::empty());
        assert(text::trimmed(pieces.last()) =~= Seq::<char>::empty()) by {
            reveal_with_fuel(text::span, 2);
            reveal_with_fuel(text::rspan, 2);
        }
        assert(pieces.drop_last() =~= Seq::<Seq<char>>::empty());
        assert(state::entries(pieces.drop_last()) =~= Seq::<Seq<char>>::empty());
        assert(state::entries(pieces) =~= terms);
    }
}

/// The terms that a client sends are the terms that the daemon reads, words and all: each that is
/// not blank, has no white space around it and is on one line.
pub proof fn law_vocabulary_terms_survive(terms: Vec<String>)
    requires
        forall|i: int| 0 <= i < terms@.len() ==> clean(#[trigger] text::views(terms@)[i], '\n'),
    ensures
        vocab_action(ipc::vocab_arg_of(Some(ipc::VocabAction::Add(terms)))) == "add"@,
        vocab_terms(ipc::vocab_arg_of(Some(ipc::VocabAction::Add(terms)))) == text::views(terms@),
        vocab_action(ipc::vocab_arg_of(Some(ipc::VocabAction::Remove(terms)))) == "remove"@,
        vocab_terms(ipc::vocab_arg_of(Some(ipc::VocabAction::Remove(terms)))) == text::views(
            terms@,
        ),
        vocab_action(ipc::vocab_arg_of(Some(ipc::VocabAction::Clear))) == "clear"@,
        vocab_action(ipc::vocab_arg_of(Some(ipc::VocabAction::List))) == "list"@,
{
    reveal_strlit("add");
    reveal_strlit("add\n");
    reveal_strlit("remove");
    reveal_strlit("remove\n");
    reveal_strlit("clear");
    reveal_strlit("list");
    assert("add\n"@ =~= "add"@ + seq!['\n']);
    assert("remove\n"@ =~= "remove"@ + seq!['\n']);
    lemma_terms_survive("add"@, text::views(terms@));
    lemma_terms_survive("remove"@, text::views(terms@));
    text::lemma_split_none("clear"@, '\n');
    text::lemma_split_none("list"@, '\n');
}

/// The codes that a client sends are the codes that the daemon reads.
pub proof fn law_language_list_survives(codes: Seq<Seq<char>>)
    requires
        codes.len() > 0,
        forall|i: int| 0 <= i < codes.len() ==> clean(#[trigger] codes[i], ','),
    ensures
        state::listed_langs(text::join(codes, ","@)) == codes,
{
    reveal_strlit(",");
    assert(","@ =~= seq![',']);
    assert forall|i: int| 0 <= i < codes.len() implies text::lacks(#[trigger] codes[i], ',') by {
        assert(clean(codes[i], ','));
    }
    text::law_split_undoes_join(codes, ',');
    lemma_entries_of_clean(codes, ',');
}

/// Adding terms keeps those that are there, in their places, and adds each new one once.
pub proof fn law_adding_terms(vocabulary: Seq<Seq<char>>, terms: Seq<Seq<char>>)
    ensures
        vocabulary.is_prefix_of(with_terms(vocabulary, terms)),
        forall|t: Seq<char>|
            #[trigger] text::holds(with_terms(vocabulary, terms), t) == (text::holds(
                vocabulary,
                t,
            ) || text::holds(terms, t)),
        vocabulary.no_duplicates() ==> with_terms(vocabulary, terms).no_duplicates(),
    decreases terms.len(),
{
    if terms.len() > 0 {
        law_adding_terms(vocabulary, terms.drop_last());
        let v = with_terms(vocabulary, terms.drop_last());
        let w = with_terms(vocabulary, terms);
        let last = terms.last();
        assert forall|t: Seq<char>| #[trigger] text::holds(w, t) == (text::holds(vocabulary, t)
            || text::holds(terms, t)) by {
            assert(text::holds(v, t) == (text::holds(vocabulary, t) || text::holds(
                terms.drop_last(),
                t,
            )));
            assert(text::holds(terms, t) == (text::holds(terms.drop_last(), t) || t == last)) by {
                lemma_holds_last(terms, t);
            }
            if !text::holds(v, last) {
                assert(w.drop_last() =~= v);
                lemma_holds_last(w, t);
            }
        }
        if vocabulary.no_duplicates() && !text::holds(v, last) {
            assert forall|i: int, j: int| 0 <= i < w.len() && 0 <= j < w.len() && i != j implies w[i]
                != w[j] by {
                if i == v.len() {
                    assert(v[j] != last);
                } else if j == v.len() {
                    assert(v[i] != last);
                }
            }
        }
    }
}

proof fn lemma_holds_last(list: Seq<Seq<char>>, t: Seq<char>)
    requires
        list.len() > 0,
    ensures
        text::holds(list, t) == (text::holds(list.drop_last(), t) || t == list.last()),
{
    if text::holds(list, t) {
        let i = choose|i: int| 0 <= i < list.len() && #[trigger] list[i] == t;
        if i < list.len() - 1 {
            assert(list.drop_last()[i] == t);
        }
    }
    if text::holds(list.drop_last(), t) {
        let i = choose|i: int| 0 <= i < list.drop_last().len() && #[trigger] list.drop_last()[i]
            == t;
        assert(list[i] == t);
    }
    if t == list.last() {
        assert(list[list.len() - 1] == t);
    }
}

/// Adding the same terms again changes nothing.
pub proof fn law_adding_again_changes_nothing(vocabulary: Seq<Seq<char>>, terms: Seq<Seq<char>>)
    ensures
        with_terms(with_terms(vocabulary, terms), terms) == with_terms(vocabulary, terms),
{
    law_adding_terms(vocabulary, terms);
    lemma_nothing_new(with_terms(vocabulary, terms), terms);
}

proof fn lemma_nothing_new(vocabulary: Seq<Seq<char>>, terms: Seq<Seq<char>>)
    requires
        forall|t: Seq<char>| text::holds(terms, t) ==> #[trigger] text::holds(vocabulary, t),
    ensures
        with_terms(vocabulary, terms) == vocabulary,
    decreases terms.len(),
{
    if terms.len() > 0 {
        assert forall|t: Seq<char>| text::holds(terms.drop_last(), t) implies #[trigger] text::holds(
            vocabulary,
            t,
        ) by {
            lemma_holds_last(terms, t);
        }
        lemma_nothing_new(vocabulary, terms.drop_last());
        lemma_holds_last(terms, terms.last());
        assert(text::holds(vocabulary, terms.last()));
    }
}

/// Removing terms removes every one of them and nothing else.
pub proof fn law_removing_terms(vocabulary: Seq<Seq<char>>, terms: Seq<Seq<char>>, t: Seq<char>)
    ensures
        text::holds(without_terms(vocabulary, terms), t) == (text::holds(vocabulary, t)
            && !text::holds(terms, t)),
    decreases vocabulary.len(),
{
    reveal(Seq::filter);
    if vocabulary.len() > 0 {
        let init = vocabulary.drop_last();
        law_removing_terms(init, terms, t);
        lemma_holds_last(vocabulary, t);
        let w = without_terms(vocabulary, terms);
        if !text::holds(terms, vocabulary.last()) {
            assert(w.drop_last() =~= without_terms(init, terms));
            lemma_holds_last(w, t);
        }
    }
}

/// A command changes its own setting and no other. "mode", "output" and "delivery" also take back
/// the choice of an overlay, and the settings for the delivery move together.
pub proof fn law_commands_change_their_own_setting(s: state::StateView, arg: Option<Seq<char>>)
    ensures
        (state::StateView {
            mode: s.mode,
            overlay: s.overlay,
            ..mode_command(s, arg).state
        }) == s,
        (state::StateView { lang: s.lang, ..lang_command(s, arg).state }) == s,
        (state::StateView { languages: s.languages, ..languages_command(s, arg).state }) == s,
        (state::StateView { enter: s.enter, ..enter_command(s, arg).state }) == s,
        (state::StateView { correct: s.correct, ..correct_command(s, arg).state }) == s,
        (state::StateView {
            remove_fillers: s.remove_fillers,
            ..fillers_command(s, arg).state
        }) == s,
        (state::StateView {
            correct_hold_ms: s.correct_hold_ms,
            ..hold_command(s, arg).state
        }) == s,
        (state::StateView {
            auto_paste: s.auto_paste,
            delivery: s.delivery,
            ..paste_command(s, arg).state
        }) == s,
        (state::StateView {
            output: s.output,
            delivery: s.delivery,
            overlay: s.overlay,
            ..output_command(s, arg).state
        }) == s,
        (state::StateView {
            output: s.output,
            auto_paste: s.auto_paste,
            delivery: s.delivery,
            overlay: s.overlay,
            ..delivery_command(s, arg).state
        }) == s,
        (state::StateView { overlay: s.overlay, ..overlay_command(s, arg).state }) == s,
        (state::StateView { input: s.input, ..input_default(s).state }) == s,
        (state::StateView { model: s.model, ..model_command(s, arg).state }) == s,
        (state::StateView { vocabulary: s.vocabulary, ..vocab_command(s, arg).state }) == s,
{
}

/// Asking for a setting changes nothing and is never refused. A switch without an argument is not
/// a question: it is turned over.
pub proof fn law_asking_changes_nothing(s: state::StateView)
    ensures
        ({
            let told = |e: Effect| e.ok && !e.saved && e.state == s;
            &&& told(mode_command(s, None))
            &&& told(lang_command(s, None))
            &&& told(languages_command(s, None))
            &&& told(hold_command(s, None))
            &&& told(output_command(s, None))
            &&& told(delivery_command(s, None))
            &&& told(overlay_command(s, None))
            &&& told(model_command(s, None))
            &&& told(vocab_command(s, None))
        }),
        enter_command(s, None).saved && enter_command(s, None).state.enter == !s.enter,
        correct_command(s, None).saved && correct_command(s, None).state.correct == !s.correct,
        fillers_command(s, None).saved && fillers_command(s, None).state.remove_fillers
            == !s.remove_fillers,
        paste_command(s, None).saved && paste_command(s, None).state.auto_paste == !s.auto_paste,
{
    reveal_strlit("add");
    reveal_strlit("remove");
    reveal_strlit("clear");
    reveal_strlit("list");
    assert("add"@.len() == 3 && "remove"@.len() == 6 && "clear"@.len() == 5 && "list"@.len() == 4);
    text::lemma_split_none("list"@, '\n');
}

/// What is asked for is what is set, and the answer to it begins with the name of the setting and
/// what it is now.
pub proof fn law_what_is_asked_for_is_set(s: state::StateView, a: Seq<char>)
    ensures
        ({
            let e = mode_command(s, Some(a));
            &&& e.ok <==> a == "live"@ || a == "vad"@ || a == "batch"@
            &&& e.ok ==> e.saved && e.state.mode == a && e.state.overlay is None
            &&& e.ok ==> ("mode: "@ + a).is_prefix_of(e.message)
            &&& !e.ok ==> e.message == "invalid mode '"@ + a + "'. use: live, vad, batch"@
        }),
        ({
            let e = lang_command(s, Some(a));
            &&& e.ok && e.saved
            &&& a == "multi"@ ==> e.state.lang == "auto"@
            &&& a != "multi"@ ==> e.state.lang == a
        }),
        ({
            let e = output_command(s, Some(a));
            &&& e.ok <==> a == "type"@ || a == "clipboard"@
            &&& e.ok ==> e.saved && e.state.output == a && e.state.overlay is None
            &&& e.ok ==> ("output: "@ + a).is_prefix_of(e.message)
            &&& !e.ok ==> e.message == "invalid output '"@ + a + "'. use: type, clipboard"@
        }),
        ({
            let e = delivery_command(s, Some(a));
            &&& e.ok <==> a == "auto"@ || a == "type"@ || a == "clipboard"@
            &&& e.ok ==> e.saved && e.state.delivery == a && e.state.overlay is None
            &&& e.ok ==> ("delivery: "@ + a).is_prefix_of(e.message)
            &&& !e.ok ==> e.message == "invalid delivery '"@ + a
                + "'. use: auto, type, clipboard"@
        }),
        ({
            let e = overlay_command(s, Some(a));
            &&& e.ok <==> a == "off"@ || a == "status"@ || a == "full"@
            &&& e.ok ==> e.saved && e.state.overlay == state::overlay_named(a)
            &&& e.ok ==> e.message == "overlay: "@ + a
            &&& !e.ok ==> e.message == "invalid value. use: off, status, full"@
        }),
        ({
            let e = hold_command(s, Some(a));
            &&& e.ok <==> text::spelled(a) is Some && text::spelled(a)->0 <= u64::MAX
            &&& e.ok ==> e.saved && e.state.correct_hold_ms == text::spelled(a)->0
            &&& e.ok ==> e.message == "correct-hold: "@ + text::decimal(text::spelled(a)->0) + "ms"@
            &&& !e.ok ==> e.message == "invalid value, expected milliseconds"@
        }),
        input_default(s).ok && input_default(s).saved && input_default(s).state.input.len() == 0,
{
    assert(MODES@[0]@ == "live"@ && MODES@[1]@ == "vad"@ && MODES@[2]@ == "batch"@);
    assert(OUTPUTS@[0]@ == "type"@ && OUTPUTS@[1]@ == "clipboard"@);
    assert(DELIVERIES@[0]@ == "auto"@ && DELIVERIES@[1]@ == "type"@ && DELIVERIES@[2]@
        == "clipboard"@);
    state::law_three_words_name_an_overlay(a);
    lemma_prefix("mode: "@ + a, mode_command(s, Some(a)).message);
    lemma_prefix("output: "@ + a, output_command(s, Some(a)).message);
    lemma_prefix("delivery: "@ + a, delivery_command(s, Some(a)).message);
}

proof fn lemma_prefix(a: Seq<char>, message: Seq<char>)
    ensures
        message.len() >= a.len() && message.take(a.len() as int) =~= a ==> a.is_prefix_of(message),
{
}

/// "on" turns a switch on and "off" turns it off. For "enter" and "correct", "true" and "false" do as
/// well. Anything else is refused.
pub proof fn law_switches_go_where_they_are_put(s: state::StateView, a: Seq<char>)
    ensures
        ({
            let e = enter_command(s, Some(a));
            &&& a == "on"@ || a == "true"@ <==> e.ok && e.state.enter
            &&& a == "off"@ || a == "false"@ <==> e.ok && !e.state.enter
            &&& e.saved == e.ok
            &&& e.ok ==> e.message == "enter: "@ + on_off(e.state.enter)
            &&& !e.ok ==> e.message == "invalid value. use: on, off"@
        }),
        ({
            let e = correct_command(s, Some(a));
            &&& a == "on"@ || a == "true"@ <==> e.ok && e.state.correct
            &&& a == "off"@ || a == "false"@ <==> e.ok && !e.state.correct
            &&& e.saved == e.ok
            &&& e.ok ==> e.message == "correct: "@ + on_off(e.state.correct)
            &&& !e.ok ==> e.message == "invalid value. use: on, off"@
        }),
        ({
            let e = fillers_command(s, Some(a));
            &&& a == "on"@ <==> e.ok && e.state.remove_fillers
            &&& a == "off"@ <==> e.ok && !e.state.remove_fillers
            &&& e.saved == e.ok
            &&& e.ok ==> e.message == "filler removal: "@ + on_off(e.state.remove_fillers)
            &&& !e.ok ==> e.message == "use: on, off"@
        }),
        ({
            let e = paste_command(s, Some(a));
            &&& a == "on"@ <==> e.ok && e.state.auto_paste
            &&& a == "off"@ <==> e.ok && !e.state.auto_paste
            &&& e.saved == e.ok
            &&& e.ok ==> e.message == "auto-paste: "@ + on_off(e.state.auto_paste)
            &&& !e.ok ==> e.message == "use: on, off"@
        }),
        on_off(true) == "on"@ && on_off(false) == "off"@,
{
    reveal_strlit("on");
    reveal_strlit("off");
    reveal_strlit("true");
    reveal_strlit("false");
    assert("on"@.len() == 2 && "off"@.len() == 3 && "true"@.len() == 4 && "false"@.len() == 5);
}

/// Languages are taken where there is one and each of them has a name, and then they are the ones
/// that were given. Detection is not a language.
pub proof fn law_only_known_languages_are_taken(s: state::StateView, list: Seq<char>)
    ensures
        ({
            let langs = state::listed_langs(list);
            let e = languages_command(s, Some(list));
            &&& e.ok <==> langs.len() > 0 && forall|i: int|
                0 <= i < langs.len() ==> (#[trigger] langs[i]) != "auto"@ && config::name_of_lang(
                    langs[i],
                ) is Some
            &&& e.ok ==> e.saved && e.state.languages == langs
            &&& e.ok ==> e.message == "preferred languages: "@ + text::join(langs, ", "@)
        }),
{
    let langs = state::listed_langs(list);
    lemma_filter_empty(langs);
}

proof fn lemma_filter_empty(codes: Seq<Seq<char>>)
    ensures
        unknown_langs(codes).len() == 0 <==> forall|i: int|
            0 <= i < codes.len() ==> (#[trigger] codes[i]) != "auto"@ && config::name_of_lang(
                codes[i],
            ) is Some,
    decreases codes.len(),
{
    reveal(Seq::filter);
    if codes.len() > 0 {
        let init = codes.drop_last();
        lemma_filter_empty(init);
        assert(forall|i: int| 0 <= i < init.len() ==> init[i] == #[trigger] codes[i]);
        assert(codes[codes.len() - 1] == codes.last());
    }
}

/// A refusal of languages names each code that is not one, and no other.
pub proof fn law_refusal_names_the_unknown(codes: Seq<Seq<char>>, code: Seq<char>)
    ensures
        unknown_langs(codes).contains(code) <==> codes.contains(code) && (code == "auto"@
            || config::name_of_lang(code) is None),
    decreases codes.len(),
{
    reveal(Seq::filter);
    if codes.len() > 0 {
        let init = codes.drop_last();
        law_refusal_names_the_unknown(init, code);
        let all = unknown_langs(codes);
        let some = unknown_langs(init);
        if codes.contains(code) {
            let i = choose|i: int| 0 <= i < codes.len() && codes[i] == code;
            if i < init.len() {
                assert(init[i] == code);
            }
        }
        if init.contains(code) {
            let i = choose|i: int| 0 <= i < init.len() && init[i] == code;
            assert(codes[i] == code);
        }
        assert(codes[codes.len() - 1] == codes.last());
        if unknown_lang(codes.last()) {
            assert(all == some.push(codes.last()));
            assert(all[some.len() as int] == codes.last());
            if all.contains(code) {
                let i = choose|i: int| 0 <= i < all.len() && all[i] == code;
                if i < some.len() {
                    assert(some[i] == code);
                }
            }
            if some.contains(code) {
                let i = choose|i: int| 0 <= i < some.len() && some[i] == code;
                assert(all[i] == code);
            }
        }
    }
}

/// A font is taken where the font system has it under that name, whatever the case, or cannot say.
pub proof fn law_only_fonts_there_are_are_taken(
    s: state::StateView,
    font: Seq<char>,
    family: Option<Seq<char>>,
)
    ensures
        ({
            let e = font_effect(s, font, family);
            &&& e.ok <==> family is None || text::occurs(
                text::lowercase(text::trimmed(family->0)),
                text::lowercase(font),
            )
            &&& e.ok ==> e.saved && e.state == (state::StateView { font, ..s })
            &&& !e.ok ==> e.state == s
        }),
{
}

/// A device is taken where there is one of that name.
pub proof fn law_only_devices_there_are_are_taken(
    s: state::StateView,
    name: Seq<char>,
    devices: Seq<Seq<char>>,
)
    ensures
        ({
            let e = input_effect(s, name, devices);
            &&& e.ok <==> devices.contains(name)
            &&& e.ok ==> e.saved && e.state == (state::StateView { input: name, ..s })
            &&& !e.ok ==> e.state == s
        }),
{
    if devices.contains(name) {
        let i = choose|i: int| 0 <= i < devices.len() && devices[i] == name;
        assert(devices[i] == name);
    }
}

/// A model is taken where it is one of those that are on offer, and then it is the one that is
/// picked, whether or not it can do what the other settings ask for.
pub proof fn law_only_models_on_offer_are_taken(s: state::StateView, m: Seq<char>)
    ensures
        ({
            let e = model_command(s, Some(m));
            let provider = config::provider_of(m);
            let model = config::model_of(m);
            &&& e.ok <==> m.contains('/') && text::listed(config::PROVIDERS@, provider)
                && model.len() > 0 && text::listed(config::models_of(provider), model)
            &&& e.ok ==> e.saved && e.state.model == m && ("model: "@ + m).is_prefix_of(e.message)
            &&& e.ok && config::caps_of(provider, model).coverage(s.mode) is Some
                && !config::caps_of(provider, model).english_only() ==> e.message == "model: "@ + m
            &&& e.ok && s.mode == "live"@ && config::caps_of(provider, model).live is None
                ==> e.message != "model: "@ + m
        }),
{
    let p = text::other_than('/');
    let n = text::span(m, p) as int;
    text::lemma_span(m, p);
    if n < m.len() {
        assert(!p(m[n]));
        assert(m.contains('/'));
    } else {
        assert forall|i: int| 0 <= i < m.len() implies m[i] != '/' by {
            assert(p(m[i]));
        }
    }
    let e = model_command(s, Some(m));
    lemma_prefix("model: "@ + m, e.message);
    reveal_strlit(" (");
    assert(" ("@.len() == 2);
}

/// The model that is used for a session is the one that is picked where it can do what is asked, with
/// detection standing for all of the preferred languages.
pub proof fn law_detection_asks_for_all_languages(s: state::StateView)
    ensures
        s.lang == "auto"@ ==> s.required_langs() == s.languages,
        s.lang != "auto"@ ==> s.required_langs() == seq![s.lang],
        s.resolved() is None <==> config::compatible(s.model, s.mode, s.required_langs()),
        s.resolved() is Some ==> s.resolved() == config::fallback(
            s.model,
            s.mode,
            s.required_langs(),
        ),
{
}

/// What is on a list of options is marked where it is the one in use, and only there.
pub proof fn law_the_one_in_use_is_marked(
    i: int,
    chosen: Seq<char>,
    input: Seq<char>,
    default_name: Seq<char>,
    device: Seq<char>,
    id: Seq<char>,
    picked: Seq<char>,
)
    requires
        0 <= i < LANGUAGES@.len(),
    ensures
        marker(true) == " *"@ && marker(false).len() == 0,
        lang_line(i, chosen) == "  "@ + LANGUAGES@[i].1@ + " ("@ + LANGUAGES@[i].0@ + ")"@ + marker(
            LANGUAGES@[i].0@ == chosen,
        ),
        input.len() > 0 ==> input_line(input, default_name, device) == "  "@ + device + marker(
            device == input,
        ),
        input.len() == 0 ==> input_line(input, default_name, device) == "  "@ + device + marker(
            device == default_name,
        ),
        id != picked ==> model_line(id, picked).len() + 2 == model_line(id, id).len(),
        ("  "@ + id + " ["@).is_prefix_of(model_line(id, picked)),
{
    reveal_strlit(" *");
    reveal_strlit("");
    assert(" *"@.len() == 2 && ""@.len() == 0);
    lemma_prefix("  "@ + id + " ["@, model_line(id, picked));
}

/// The status tells each of the settings under its name, and whether a recording runs.
pub proof fn law_status_tells_the_settings(s: state::StateView, recording: bool)
    ensures
        status_line(s, recording) == (if recording {
            "recording"@
        } else {
            "idle"@
        }) + " (mode: "@ + s.mode + ", output: "@ + s.output + ", overlay: "@
            + state::overlay_name(s.overlay_mode()) + ", lang: "@ + s.lang + ", model: "@ + s.model
            + ", preferred: ["@ + text::join(s.languages, ", "@) + "])"@,
{
}

/// The first line of a request about the vocabulary says what is to be done, and the other lines
/// hold the terms. To clear it leaves none. What is none of the known actions is a question.
pub proof fn law_vocabulary_is_what_is_asked_for(s: state::StateView, line: Seq<char>)
    ensures
        ({
            let e = vocab_command(s, Some(line));
            let action = text::split(line, '\n')[0];
            let terms = state::entries(text::split(line, '\n').skip(1));
            &&& e.ok
            &&& action == "add"@ ==> e.saved && e.state.vocabulary == with_terms(s.vocabulary, terms)
            &&& action == "remove"@ ==> e.saved && e.state.vocabulary == without_terms(
                s.vocabulary,
                terms,
            )
            &&& action == "clear"@ ==> e.saved && e.state.vocabulary.len() == 0
            &&& action != "add"@ && action != "remove"@ && action != "clear"@ ==> !e.saved
                && e.state == s
            &&& e.saved && action != "clear"@ ==> e.message == "vocabulary: "@ + text::decimal(
                e.state.vocabulary.len(),
            ) + " term(s)"@
            &&& !e.saved && s.vocabulary.len() > 0 ==> e.message == "vocabulary ("@ + text::decimal(
                s.vocabulary.len(),
            ) + "):\n  "@ + text::join(s.vocabulary, "\n  "@)
        }),
{
    reveal_strlit("add");
    reveal_strlit("remove");
    reveal_strlit("clear");
    assert("add"@.len() == 3 && "remove"@.len() == 6 && "clear"@.len() == 5);
}

/// A client is answered what was decided, and the settings are saved where it was decided so.
pub proof fn law_outcome_is_what_was_decided(o: Outcome, after: State, e: Effect)
    requires
        o.shows(&after, e),
    ensures
        o.response.ok == e.ok,
        o.response.message is Some && o.response.message->0@ == e.message,
        o.save == e.saved,
        after@ == e.state,
{
}

/// Where another model stands in for the one that is picked, the answer names both.
pub proof fn law_stand_in_is_named(s: state::StateView, what: Seq<char>)
    ensures
        s.resolved() is None ==> stand_in(s, what).len() == 0,
        s.resolved() is Some ==> stand_in(s, what) == " ("@ + s.model + what + s.resolved()->0
            + ")"@,
{
}

/// A new mode or language is confirmed, with the model that will be used for it where it is not the
/// one that is picked. A language is called by its name, and by its code where it has none.
pub proof fn law_changes_are_confirmed(s: state::StateView, a: Seq<char>)
    ensures
        mode_command(s, Some(a)).ok ==> mode_command(s, Some(a)).message == "mode: "@ + a + stand_in(
            state::StateView { mode: a, overlay: None, ..s },
            " can't do this mode/langs — will use "@,
        ),
        ({
            let e = lang_command(s, Some(a));
            e.message == "language: "@ + lang_label(e.state.lang) + " ("@ + e.state.lang + ")"@
                + stand_in(e.state, " can't do this — will use "@)
        }),
        config::name_of_lang(a) is Some ==> lang_label(a) == config::name_of_lang(a)->0,
        config::name_of_lang(a) is None ==> lang_label(a) == a,
        output_command(s, Some(a)).ok ==> output_command(s, Some(a)).message == "output: "@ + a
            + " (overlay: "@ + (if a == "clipboard"@ {
            "full"@
        } else {
            "status"@
        }) + ")"@,
        delivery_command(s, Some(a)).ok ==> delivery_command(s, Some(a)).message == "delivery: "@ + a
            + " (overlay: "@ + (if a == "clipboard"@ {
            "full"@
        } else {
            "status"@
        }) + ")"@,
{
    reveal_strlit("auto");
    reveal_strlit("type");
    reveal_strlit("clipboard");
    assert("clipboard"@.len() == 9 && "auto"@.len() == 4 && "type"@.len() == 4);
}

/// A question is answered with the setting as it is, and with what it could be.
pub proof fn law_questions_are_answered(s: state::StateView)
    ensures
        mode_command(s, None).message == "mode: "@ + s.mode + " (available: live, vad, batch)"@,
        output_command(s, None).message == "output: "@ + s.output + " (available: type, clipboard)"@,
        delivery_command(s, None).message == "delivery: "@ + s.delivery
            + " (available: auto, type, clipboard)"@,
        overlay_command(s, None).message == "overlay: "@ + state::overlay_name(s.overlay_mode())
            + " (off | status | full)"@,
        hold_command(s, None).message == "correct-hold: "@ + text::decimal(
            s.correct_hold_ms as nat,
        ) + "ms"@,
        languages_command(s, None).message == "preferred languages: "@ + text::join(
            s.languages,
            ", "@,
        ) + "\n(candidate set for auto-detect where supported — currently AssemblyAI batch)"@,
        s.vocabulary.len() == 0 ==> vocab_command(s, None).message == "vocabulary: (empty)"@,
        ({
            let lines = Seq::new(
                config::ALL_MODELS@.len(),
                |i: int| model_line(config::ALL_MODELS@[i]@, s.model),
            );
            model_command(s, None).message == "model: "@ + s.model + "\navailable:\n"@ + text::join(
                lines,
                "\n"@,
            )
        }),
        ({
            let lines = Seq::new(LANGUAGES@.len(), |i: int| lang_line(i, s.lang));
            let current = match config::name_of_lang(s.lang) {
                Some(name) => name + " ("@ + s.lang + ")"@,
                None => s.lang,
            };
            lang_command(s, None).message == "language: "@ + current + "\navailable:\n"@
                + text::join(lines, "\n"@)
        }),
{
    reveal_strlit("add");
    reveal_strlit("remove");
    reveal_strlit("clear");
    reveal_strlit("list");
    assert("add"@.len() == 3 && "remove"@.len() == 6 && "clear"@.len() == 5 && "list"@.len() == 4);
    text::lemma_split_none("list"@, '\n');
    let ids = text::strs(config::ALL_MODELS@);
    assert(Seq::new(ids.len(), |i: int| model_line(ids[i], s.model)) =~= Seq::new(
        config::ALL_MODELS@.len(),
        |i: int| model_line(config::ALL_MODELS@[i]@, s.model),
    ));
}

/// The devices that there are are listed with the one in use marked, and the system's own is named
/// where none was chosen.
pub proof fn law_devices_are_listed(
    s: state::StateView,
    devices: Seq<Seq<char>>,
    default_name: Seq<char>,
)
    ensures
        ({
            let e = inputs_shown(s, devices, default_name);
            let lines = Seq::new(
                devices.len(),
                |i: int| input_line(s.input, default_name, devices[i]),
            );
            let current = if s.input.len() == 0 {
                "default ("@ + default_name + ")"@
            } else {
                s.input
            };
            &&& e.ok && !e.saved && e.state == s
            &&& e.message == "input: "@ + current + "\navailable:\n"@ + text::join(lines, "\n"@)
        }),
{
}

/// A refusal says what was wrong with what was asked for, and what could be asked for instead.
pub proof fn law_refusals_say_why(
    s: state::StateView,
    a: Seq<char>,
    family: Seq<char>,
    devices: Seq<Seq<char>>,
)
    ensures
        state::listed_langs(a).len() == 0 ==> languages_command(s, Some(a)).message
            == "provide at least one language code"@,
        state::listed_langs(a).len() > 0 && !languages_command(s, Some(a)).ok ==> languages_command(
            s,
            Some(a),
        ).message == "invalid language code(s): "@ + text::join(
            unknown_langs(state::listed_langs(a)),
            ", "@,
        ),
        font_effect(s, a, Some(family)).ok ==> font_effect(s, a, Some(family)).message == "font: "@
            + a,
        font_effect(s, a, None).message == "font: "@ + a + " (could not verify)"@,
        !font_effect(s, a, Some(family)).ok ==> font_effect(s, a, Some(family)).message == "font '"@
            + a + "' not found (fc-match resolved to '"@ + text::trimmed(family) + "')"@,
        input_effect(s, a, devices).ok ==> input_effect(s, a, devices).message == "input: "@ + a,
        !input_effect(s, a, devices).ok ==> input_effect(s, a, devices).message == "device '"@ + a
            + "' not found"@,
        input_default(s).message == "input: default"@,
        !a.contains('/') ==> model_command(s, Some(a)).message == "format: provider/model (providers: "@
            + text::join(text::strs(PROVIDERS@), ", "@) + ")"@,
        a.contains('/') && !text::listed(PROVIDERS@, config::provider_of(a)) ==> model_command(
            s,
            Some(a),
        ).message == "unknown provider '"@ + config::provider_of(a) + "'. use: "@ + text::join(
            text::strs(PROVIDERS@),
            ", "@,
        ),
        a.contains('/') && text::listed(PROVIDERS@, config::provider_of(a)) && config::model_of(
            a,
        ).len() == 0 ==> model_command(s, Some(a)).message == "model name required after provider/"@,
        a.contains('/') && text::listed(PROVIDERS@, config::provider_of(a)) && config::model_of(
            a,
        ).len() > 0 && !text::listed(config::models_of(config::provider_of(a)), config::model_of(a))
            ==> model_command(s, Some(a)).message == "unknown model '"@ + config::model_of(a)
            + "' for "@ + config::provider_of(a) + ". available: "@ + text::join(
            text::strs(config::models_of(config::provider_of(a))),
            ", "@,
        ),
{
    let p = text::other_than('/');
    let n = text::span(a, p) as int;
    text::lemma_span(a, p);
    if n < a.len() {
        assert(!p(a[n]));
        assert(a.contains('/'));
    } else {
        assert forall|i: int| 0 <= i < a.len() implies a[i] != '/' by {
            assert(p(a[i]));
        }
    }
}

/// A model that is picked comes with a warning for each thing that it cannot do: that it does not
/// stream where streaming is the mode, and that it knows English only where another language is
/// chosen.
pub proof fn law_warnings_say_what_cannot_be_done(s: state::StateView, caps: config::CapsView)
    ensures
        model_warnings(s, caps).contains("no live support, will fall back on record"@) <==> s.mode
            == "live"@ && caps.live is None,
        model_warnings(s, caps).contains("english only"@) <==> caps.english_only() && s.lang
            != "en"@ && s.lang != "auto"@,
        model_warnings(s, caps).len() <= 2,
        model_tags(caps).contains("live"@) <==> caps.live is Some,
        model_tags(caps).contains("batch"@) <==> caps.batch is Some,
        model_tags(caps).contains("en-only"@) <==> caps.english_only(),
        model_tags(caps).len() <= 3,
{
    reveal_strlit("no live support, will fall back on record");
    reveal_strlit("english only");
    reveal_strlit("live");
    reveal_strlit("batch");
    reveal_strlit("en-only");
    assert("no live support, will fall back on record"@[0] == 'n' && "english only"@[0] == 'e');
    assert("live"@[0] == 'l' && "batch"@[0] == 'b' && "en-only"@[0] == 'e');
    let w = model_warnings(s, caps);
    if s.mode == "live"@ && caps.live is None {
        assert(w[0] == "no live support, will fall back on record"@);
    }
    if caps.english_only() && s.lang != "en"@ && s.lang != "auto"@ {
        assert(w[w.len() - 1] == "english only"@);
    }
    let t = model_tags(caps);
    if caps.live is Some {
        assert(t[0] == "live"@);
        if caps.batch is Some {
            assert(t[1] == "batch"@);
        }
    } else if caps.batch is Some {
        assert(t[0] == "batch"@);
    }
    if caps.english_only() {
        assert(t[t.len() - 1] == "en-only"@);
    }
}

/// The line of a model tells what it can do, and the answer to picking one tells what it cannot.
pub proof fn law_models_are_listed_with_what_they_can_do(
    s: state::StateView,
    id: Seq<char>,
    picked: Seq<char>,
)
    ensures
        ({
            let caps = config::caps_of(config::provider_of(id), config::model_of(id));
            let warnings = model_warnings(s, caps);
            let e = model_command(s, Some(id));
            &&& model_line(id, picked) == "  "@ + id + " ["@ + text::join(model_tags(caps), "+"@)
                + "]"@ + marker(id == picked)
            &&& e.ok && warnings.len() == 0 ==> e.message == "model: "@ + id
            &&& e.ok && warnings.len() > 0 ==> e.message == "model: "@ + id + " ("@ + text::join(
                warnings,
                ", "@,
            ) + ")"@
        }),
{
}

} // verus!
