//! The model behind the tray icon: what its menu shows and what a choice in it asks of the daemon.

use crate::config::{ALL_MODELS, LANGUAGES};
use crate::state;
use crate::state::State;
use crate::text;
use crate::text::{borrow_list, copy_list, same, str_le};
use vstd::prelude::*;

verus! {

/// What the tray asks of the daemon.
pub enum TrayCommand {
    Toggle,
    SetMode(String),
    SetOutput(String),
    SetLang(String),
    /// Puts a language into the preferred set or takes it out.
    ToggleLang(String),
    SetModel(String),
    SetInput(String),
    ToggleEnter,
    ToggleCorrect,
    ToggleFillers,
    ToggleAutoPaste,
    SetOverlay(String),
    /// Copies a text from the history.
    CopyHistory(String),
}

/// What the tray asks of the daemon.
pub ghost enum TrayCommandView {
    Toggle,
    SetMode(Seq<char>),
    SetOutput(Seq<char>),
    SetLang(Seq<char>),
    ToggleLang(Seq<char>),
    SetModel(Seq<char>),
    SetInput(Seq<char>),
    ToggleEnter,
    ToggleCorrect,
    ToggleFillers,
    ToggleAutoPaste,
    SetOverlay(Seq<char>),
    CopyHistory(Seq<char>),
}

impl View for TrayCommand {
    type V = TrayCommandView;

    open spec fn view(&self) -> TrayCommandView {
        match self {
            TrayCommand::Toggle => TrayCommandView::Toggle,
            TrayCommand::SetMode(s) => TrayCommandView::SetMode(s@),
            TrayCommand::SetOutput(s) => TrayCommandView::SetOutput(s@),
            TrayCommand::SetLang(s) => TrayCommandView::SetLang(s@),
            TrayCommand::ToggleLang(s) => TrayCommandView::ToggleLang(s@),
            TrayCommand::SetModel(s) => TrayCommandView::SetModel(s@),
            TrayCommand::SetInput(s) => TrayCommandView::SetInput(s@),
            TrayCommand::ToggleEnter => TrayCommandView::ToggleEnter,
            TrayCommand::ToggleCorrect => TrayCommandView::ToggleCorrect,
            TrayCommand::ToggleFillers => TrayCommandView::ToggleFillers,
            TrayCommand::ToggleAutoPaste => TrayCommandView::ToggleAutoPaste,
            TrayCommand::SetOverlay(s) => TrayCommandView::SetOverlay(s@),
            TrayCommand::CopyHistory(s) => TrayCommandView::CopyHistory(s@),
        }
    }
}

/// The modes in the order of the menu.
pub const MODES: [&'static str; 3] = ["live", "batch", "vad"];

pub const MODE_LABELS: [&'static str; 3] = ["Live", "Batch", "VAD"];

/// The outputs in the order of the menu.
pub const OUTPUTS: [&'static str; 2] = ["type", "clipboard"];

pub const OUTPUT_LABELS: [&'static str; 2] = ["Type", "Clipboard"];

// ---------------------------------------------------------------------------------------------
// Places in lists

/// Whether `s` stands in `list` first at position `i`.
pub open spec fn first_at(list: Seq<Seq<char>>, s: Seq<char>, i: int) -> bool {
    &&& 0 <= i < list.len()
    &&& list[i] == s
    &&& forall|j: int| 0 <= j < i ==> #[trigger] list[j] != s
}

/// The position at which `s` stands first in `list`, or 0 where it does not.
pub open spec fn place(list: Seq<Seq<char>>, s: Seq<char>) -> int {
    if text::holds(list, s) {
        choose|i: int| first_at(list, s, i)
    } else {
        0
    }
}

/// The position at which `s` stands first in `list`, or 0 where it does not.
pub fn find_place(list: &[&str], s: &str) -> (r: usize)
    ensures
        r == place(text::strs(list@), s@),
        text::holds(text::strs(list@), s@) ==> first_at(text::strs(list@), s@, r as int),
{
    let ghost all = text::strs(list@);
    let mut i: usize = 0;
    while i < list.len()
        invariant
            i <= list@.len(),
            all == text::strs(list@),
            forall|j: int| 0 <= j < i ==> #[trigger] all[j] != s@,
        decreases list.len() - i,
    {
        if same(list[i], s) {
            proof {
                assert(all[i as int] == s@);
                assert(first_at(all, s@, i as int));
                let k = choose|k: int| first_at(all, s@, k);
                assert(first_at(all, s@, k));
                assert(k == i);
            }
            return i;
        }
        i += 1;
    }
    0
}

// ---------------------------------------------------------------------------------------------
// Languages in the order of the menu

/// Whether `langs` is ordered by name from position `from` on.
pub open spec fn ordered(langs: Seq<(&'static str, &'static str)>, from: int) -> bool {
    forall|i: int, j: int|
        from <= i <= j < langs.len() ==> text::lex_le(
            (#[trigger] langs[i]).1@,
            (#[trigger] langs[j]).1@,
        )
}

/// The languages in the order of the menu: detection first, the others by name.
pub open spec fn menu_languages(langs: Seq<(&'static str, &'static str)>) -> bool {
    &&& langs.to_multiset() == LANGUAGES@.to_multiset()
    &&& langs.len() == LANGUAGES@.len()
    &&& langs[0] == LANGUAGES@[0]
    &&& ordered(langs, 1)
}

/// The languages in the order of the menu: detection first, the others by name.
pub fn sorted_languages() -> (r: Vec<(&'static str, &'static str)>)
    ensures
        menu_languages(r@),
{
    let mut r: Vec<(&'static str, &'static str)> = Vec::new();
    r.push(LANGUAGES[0]);
    let mut i: usize = 1;
    proof {
        broadcast use vstd::seq_lib::group_to_multiset_ensures;

        assert(LANGUAGES@.take(1) =~= Seq::<(&'static str, &'static str)>::empty().push(
            LANGUAGES@[0],
        ));
        assert(r@ =~= LANGUAGES@.take(1));
    }
    while i < LANGUAGES.len()
        invariant
            1 <= i <= LANGUAGES@.len(),
            r@.len() == i,
            r@[0] == LANGUAGES@[0],
            r@.to_multiset() == LANGUAGES@.take(i as int).to_multiset(),
            ordered(r@, 1),
        decreases LANGUAGES.len() - i,
    {
        let entry: (&'static str, &'static str) = LANGUAGES[i];
        let mut k: usize = r.len();
        while k > 1 && !str_le(r[k - 1].1, entry.1)
            invariant
                1 <= k <= r@.len(),
                forall|j: int|
                    k <= j < r@.len() ==> !text::lex_le((#[trigger] r@[j]).1@, entry.1@),
            decreases k,
        {
            k -= 1;
        }
        let ghost before = r@;
        r.insert(k, entry);
        proof {
            broadcast use vstd::seq_lib::group_to_multiset_ensures;

            assert(LANGUAGES@.take(i + 1) =~= LANGUAGES@.take(i as int).push(entry));
            assert(r@.to_multiset() =~= before.to_multiset().insert(entry));
            assert forall|a: int, b: int| 1 <= a <= b < r@.len() implies text::lex_le(
                (#[trigger] r@[a]).1@,
                (#[trigger] r@[b]).1@,
            ) by {
                lemma_inserted(before, entry, k as int, r@, a, b);
            }
        }
        i += 1;
    }
    assert(LANGUAGES@.take(i as int) =~= LANGUAGES@);
    r
}

proof fn lemma_inserted(
    before: Seq<(&'static str, &'static str)>,
    entry: (&'static str, &'static str),
    k: int,
    after: Seq<(&'static str, &'static str)>,
    a: int,
    b: int,
)
    requires
        1 <= k <= before.len(),
        after == before.insert(k, entry),
        ordered(before, 1),
        k > 1 ==> text::lex_le(before[k - 1].1@, entry.1@),
        forall|j: int| k <= j < before.len() ==> !text::lex_le((#[trigger] before[j]).1@, entry.1@),
        1 <= a <= b < after.len(),
    ensures
        text::lex_le(after[a].1@, after[b].1@),
{
    let x = if a < k { before[a] } else if a == k { entry } else { before[a - 1] };
    let y = if b < k { before[b] } else if b == k { entry } else { before[b - 1] };
    assert(after[a] == x && after[b] == y);
    if a == b {
        text::lemma_lex_total(x.1@, x.1@);
    } else if b == k {
        text::lemma_lex_transitive(x.1@, before[k - 1].1@, entry.1@);
    } else if a == k {
        text::lemma_lex_total(entry.1@, y.1@);
    }
}

// ---------------------------------------------------------------------------------------------
// The tray

/// What the tray shows.
pub struct DictateTray {
    pub recording: bool,
    pub mode: usize,
    pub output: usize,
    pub lang: usize,
    pub model: usize,
    pub input: usize,
    pub input_devices: Vec<String>,
    pub enter: bool,
    pub correct: bool,
    pub langs: Vec<(&'static str, &'static str)>,
}

/// The codes of the languages in the order of the menu.
pub open spec fn codes(langs: Seq<(&'static str, &'static str)>) -> Seq<Seq<char>> {
    Seq::new(langs.len(), |i: int| langs[i].0@)
}

/// The names of the languages in the order of the menu.
pub open spec fn names(langs: Seq<(&'static str, &'static str)>) -> Seq<Seq<char>> {
    Seq::new(langs.len(), |i: int| langs[i].1@)
}

/// The device in use: the chosen one, else the system's default.
pub open spec fn used_input(input: Seq<char>, default_name: Seq<char>) -> Seq<char> {
    if input.len() == 0 {
        default_name
    } else {
        input
    }
}

impl DictateTray {
    /// Whether the menu shows the settings `s`, given the input devices and the default one.
    pub open spec fn shows(
        &self,
        s: state::StateView,
        devices: Seq<Seq<char>>,
        default_name: Seq<char>,
    ) -> bool {
        &&& menu_languages(self.langs@)
        &&& text::views(self.input_devices@) == devices
        &&& self.mode == place(text::strs(MODES@), s.mode)
        &&& self.output == place(text::strs(OUTPUTS@), s.output)
        &&& self.lang == place(codes(self.langs@), s.lang)
        &&& self.model == place(text::strs(ALL_MODELS@), s.model)
        &&& self.input == place(devices, used_input(s.input, default_name))
        &&& self.enter == s.enter
        &&& self.correct == s.correct
    }

    /// The tray at the start, given the input devices there are and the system's default.
    pub fn new(state: &State, devices: &[String], default_name: &str) -> (r: DictateTray)
        ensures
            r.shows(state@, text::views(devices@), default_name@),
            !r.recording,
    {
        let mut r: DictateTray = DictateTray {
            recording: false,
            mode: 0,
            output: 0,
            lang: 0,
            model: 0,
            input: 0,
            input_devices: Vec::new(),
            enter: false,
            correct: false,
            langs: sorted_languages(),
        };
        r.set_state(state, devices, default_name);
        r
    }

    /// Shows whether a recording runs.
    pub fn set_recording(&mut self, recording: bool)
        ensures
            *final(self) == (DictateTray { recording, ..*old(self) }),
    {
        self.recording = recording;
    }

    /// Shows the settings, given the input devices there are and the system's default.
    pub fn set_state(&mut self, state: &State, devices: &[String], default_name: &str)
        requires
            menu_languages(old(self).langs@),
        ensures
            final(self).shows(state@, text::views(devices@), default_name@),
            final(self).recording == old(self).recording,
            final(self).langs == old(self).langs,
    {
        let mut langs: Vec<&str> = Vec::new();
        let mut i: usize = 0;
        while i < self.langs.len()
            invariant
                i <= self.langs@.len(),
                langs@.len() == i,
                forall|j: int| 0 <= j < i ==> (#[trigger] langs@[j])@ == self.langs@[j].0@,
            decreases self.langs.len() - i,
        {
            langs.push(self.langs[i].0);
            i += 1;
        }
        assert(text::strs(langs@) =~= codes(self.langs@));
        let lang: usize = find_place(&langs, state.lang.as_str());
        let used: &str = if state.input.as_str().is_empty() {
            default_name
        } else {
            state.input.as_str()
        };
        self.mode = find_place(&MODES, state.mode.as_str());
        self.output = find_place(&OUTPUTS, state.output.as_str());
        self.lang = lang;
        self.model = find_place(&ALL_MODELS, state.model.as_str());
        self.input_devices = copy_list(devices);
        self.input = find_place(&borrow_list(devices), used);
        self.enter = state.enter;
        self.correct = state.correct;
    }

    /// The title of the icon.
    pub fn title(&self) -> (r: &'static str)
        ensures
            r@ == (if self.recording { "Dictate (recording)"@ } else { "Dictate"@ }),
    {
        if self.recording {
            "Dictate (recording)"
        } else {
            "Dictate"
        }
    }
}

/// The choices in the menu.
#[derive(Clone, Copy, PartialEq, Eq, Structural)]
pub enum Choice {
    Mode,
    Output,
    Lang,
    Model,
    Input,
}

/// The switches in the menu.
#[derive(Clone, Copy, PartialEq, Eq, Structural)]
pub enum Switch {
    Enter,
    Correct,
}

/// A line of the menu.
pub enum MenuEntry {
    Radio { choice: Choice, label: &'static str, selected: usize, options: Vec<String> },
    Separator,
    Check { switch: Switch, label: &'static str, checked: bool },
}

impl Choice {
    /// What a choice is called.
    pub open spec fn label(self) -> Seq<char> {
        match self {
            Choice::Mode => "Mode"@,
            Choice::Output => "Output"@,
            Choice::Lang => "Language"@,
            Choice::Model => "Model"@,
            Choice::Input => "Input"@,
        }
    }
}

impl Switch {
    /// What a switch is called.
    pub open spec fn label(self) -> Seq<char> {
        match self {
            Switch::Enter => "Press Enter"@,
            Switch::Correct => "LLM Correct"@,
        }
    }
}

impl DictateTray {
    /// The options of a choice.
    pub open spec fn options(&self, choice: Choice) -> Seq<Seq<char>> {
        match choice {
            Choice::Mode => text::strs(MODE_LABELS@),
            Choice::Output => text::strs(OUTPUT_LABELS@),
            Choice::Lang => names(self.langs@),
            Choice::Model => text::strs(ALL_MODELS@),
            Choice::Input => text::views(self.input_devices@),
        }
    }

    /// The option that is selected.
    pub open spec fn selected(&self, choice: Choice) -> usize {
        match choice {
            Choice::Mode => self.mode,
            Choice::Output => self.output,
            Choice::Lang => self.lang,
            Choice::Model => self.model,
            Choice::Input => self.input,
        }
    }

    /// The position of a switch.
    pub open spec fn checked(&self, switch: Switch) -> bool {
        match switch {
            Switch::Enter => self.enter,
            Switch::Correct => self.correct,
        }
    }

    /// Whether `entry` is the line of the menu for `choice`.
    pub open spec fn radio(&self, entry: MenuEntry, choice: Choice) -> bool {
        &&& entry is Radio
        &&& entry->choice == choice
        &&& entry->Radio_label@ == choice.label()
        &&& entry->selected == self.selected(choice)
        &&& text::views(entry->options@) == self.options(choice)
    }

    /// Whether `entry` is the line of the menu for `switch`.
    pub open spec fn check(&self, entry: MenuEntry, switch: Switch) -> bool {
        &&& entry is Check
        &&& entry->switch == switch
        &&& entry->Check_label@ == switch.label()
        &&& entry->checked == self.checked(switch)
    }

    /// The menu.
    pub fn menu(&self) -> (r: Vec<MenuEntry>)
        ensures
            r@.len() == 8,
            self.radio(r@[0], Choice::Mode),
            self.radio(r@[1], Choice::Output),
            self.radio(r@[2], Choice::Lang),
            self.radio(r@[3], Choice::Model),
            self.radio(r@[4], Choice::Input),
            r@[5] is Separator,
            self.check(r@[6], Switch::Enter),
            self.check(r@[7], Switch::Correct),
    {
        let mut names: Vec<String> = Vec::new();
        let mut i: usize = 0;
        while i < self.langs.len()
            invariant
                i <= self.langs@.len(),
                names@.len() == i,
                forall|j: int| 0 <= j < i ==> (#[trigger] names@[j])@ == self.langs@[j].1@,
            decreases self.langs.len() - i,
        {
            names.push(self.langs[i].1.to_owned());
            i += 1;
        }
        assert(text::views(names@) =~= self::names(self.langs@));
        let mut r: Vec<MenuEntry> = Vec::new();
        r.push(
            MenuEntry::Radio {
                choice: Choice::Mode,
                label: "Mode",
                selected: self.mode,
                options: own_list(&MODE_LABELS),
            },
        );
        r.push(
            MenuEntry::Radio {
                choice: Choice::Output,
                label: "Output",
                selected: self.output,
                options: own_list(&OUTPUT_LABELS),
            },
        );
        r.push(
            MenuEntry::Radio {
                choice: Choice::Lang,
                label: "Language",
                selected: self.lang,
                options: names,
            },
        );
        r.push(
            MenuEntry::Radio {
                choice: Choice::Model,
                label: "Model",
                selected: self.model,
                options: own_list(&ALL_MODELS),
            },
        );
        r.push(
            MenuEntry::Radio {
                choice: Choice::Input,
                label: "Input",
                selected: self.input,
                options: copy_list(&self.input_devices),
            },
        );
        r.push(MenuEntry::Separator);
        r.push(
            MenuEntry::Check { switch: Switch::Enter, label: "Press Enter", checked: self.enter },
        );
        r.push(
            MenuEntry::Check {
                switch: Switch::Correct,
                label: "LLM Correct",
                checked: self.correct,
            },
        );
        r
    }

    /// This tray with another option selected.
    pub open spec fn with_selected(self, choice: Choice, index: usize) -> DictateTray {
        match choice {
            Choice::Mode => DictateTray { mode: index, ..self },
            Choice::Output => DictateTray { output: index, ..self },
            Choice::Lang => DictateTray { lang: index, ..self },
            Choice::Model => DictateTray { model: index, ..self },
            Choice::Input => DictateTray { input: index, ..self },
        }
    }

    /// What selecting an option asks of the daemon, where the menu listed the devices `listed`.
    pub open spec fn asks(
        self,
        choice: Choice,
        index: int,
        listed: Seq<Seq<char>>,
    ) -> Option<TrayCommandView> {
        match choice {
            Choice::Mode => if index < MODES@.len() {
                Some(TrayCommandView::SetMode(MODES@[index]@))
            } else {
                None
            },
            Choice::Output => if index < OUTPUTS@.len() {
                Some(TrayCommandView::SetOutput(OUTPUTS@[index]@))
            } else {
                None
            },
            Choice::Lang => if index < self.langs@.len() {
                Some(TrayCommandView::SetLang(self.langs@[index].0@))
            } else {
                None
            },
            Choice::Model => if index < ALL_MODELS@.len() {
                Some(TrayCommandView::SetModel(ALL_MODELS@[index]@))
            } else {
                None
            },
            Choice::Input => if index < listed.len() {
                Some(TrayCommandView::SetInput(listed[index]))
            } else {
                None
            },
        }
    }

    /// Selects an option of a menu that listed the devices `listed`.
    pub fn select(&mut self, choice: Choice, index: usize, listed: &[String]) -> (r: Option<
        TrayCommand,
    >)
        ensures
            *final(self) == old(self).with_selected(choice, index),
            command_view(r) == old(self).asks(choice, index as int, text::views(listed@)),
    {
        match choice {
            Choice::Mode => {
                self.mode = index;
                if index < MODES.len() {
                    Some(TrayCommand::SetMode(MODES[index].to_owned()))
                } else {
                    None
                }
            },
            Choice::Output => {
                self.output = index;
                if index < OUTPUTS.len() {
                    Some(TrayCommand::SetOutput(OUTPUTS[index].to_owned()))
                } else {
                    None
                }
            },
            Choice::Lang => {
                self.lang = index;
                if index < self.langs.len() {
                    Some(TrayCommand::SetLang(self.langs[index].0.to_owned()))
                } else {
                    None
                }
            },
            Choice::Model => {
                self.model = index;
                if index < ALL_MODELS.len() {
                    Some(TrayCommand::SetModel(ALL_MODELS[index].to_owned()))
                } else {
                    None
                }
            },
            Choice::Input => {
                self.input = index;
                if index < listed.len() {
                    Some(TrayCommand::SetInput(listed[index].clone()))
                } else {
                    None
                }
            },
        }
    }

    /// Flips a switch.
    pub fn flip(&mut self, switch: Switch) -> (r: TrayCommand)
        ensures
            match switch {
                Switch::Enter => {
                    &&& *final(self) == (DictateTray { enter: !old(self).enter, ..*old(self) })
                    &&& r@ == TrayCommandView::ToggleEnter
                },
                Switch::Correct => {
                    &&& *final(self) == (DictateTray { correct: !old(self).correct, ..*old(self) })
                    &&& r@ == TrayCommandView::ToggleCorrect
                },
            },
    {
        match switch {
            Switch::Enter => {
                self.enter = !self.enter;
                TrayCommand::ToggleEnter
            },
            Switch::Correct => {
                self.correct = !self.correct;
                TrayCommand::ToggleCorrect
            },
        }
    }
}

/// What a command asks, if there is one.
pub open spec fn command_view(c: Option<TrayCommand>) -> Option<TrayCommandView> {
    match c {
        Some(c) => Some(c@),
        None => None,
    }
}

fn own_list(table: &[&'static str]) -> (r: Vec<String>)
    ensures
        text::views(r@) == text::strs(table@),
{
    let mut r: Vec<String> = Vec::new();
    let mut i: usize = 0;
    while i < table.len()
        invariant
            i <= table@.len(),
            r@.len() == i,
            forall|j: int| 0 <= j < i ==> (#[trigger] r@[j])@ == table@[j]@,
        decreases table.len() - i,
    {
        r.push(table[i].to_owned());
        i += 1;
    }
    assert(text::views(r@) =~= text::strs(table@));
    r
}

/// A string that stands in a list stands first where `place` says.
pub proof fn lemma_place(list: Seq<Seq<char>>, s: Seq<char>)
    requires
        text::holds(list, s),
    ensures
        first_at(list, s, place(list, s)),
{
    let i = choose|i: int| 0 <= i < list.len() && #[trigger] list[i] == s;
    lemma_first(list, s, i);
}

proof fn lemma_first(list: Seq<Seq<char>>, s: Seq<char>, i: int)
    requires
        0 <= i < list.len(),
        list[i] == s,
    ensures
        exists|k: int| first_at(list, s, k),
    decreases i,
{
    if forall|j: int| 0 <= j < i ==> #[trigger] list[j] != s {
        assert(first_at(list, s, i));
    } else {
        let j = choose|j: int| 0 <= j < i && #[trigger] list[j] == s;
        lemma_first(list, s, j);
    }
}

/// The option that the menu shows as selected stands for the current setting, wherever the menu
/// lists that setting: selecting it again asks for what is already set.
pub proof fn law_selected_option_is_current(
    tray: DictateTray,
    s: state::StateView,
    devices: Seq<Seq<char>>,
    default_name: Seq<char>,
)
    requires
        tray.shows(s, devices, default_name),
    ensures
        text::holds(text::strs(MODES@), s.mode) ==> tray.asks(
            Choice::Mode,
            tray.mode as int,
            devices,
        ) == Some(TrayCommandView::SetMode(s.mode)),
        text::holds(text::strs(OUTPUTS@), s.output) ==> tray.asks(
            Choice::Output,
            tray.output as int,
            devices,
        ) == Some(TrayCommandView::SetOutput(s.output)),
        text::holds(codes(tray.langs@), s.lang) ==> tray.asks(
            Choice::Lang,
            tray.lang as int,
            devices,
        ) == Some(TrayCommandView::SetLang(s.lang)),
        text::holds(text::strs(ALL_MODELS@), s.model) ==> tray.asks(
            Choice::Model,
            tray.model as int,
            devices,
        ) == Some(TrayCommandView::SetModel(s.model)),
        text::holds(devices, used_input(s.input, default_name)) ==> tray.asks(
            Choice::Input,
            tray.input as int,
            devices,
        ) == Some(TrayCommandView::SetInput(used_input(s.input, default_name))),
{
    if text::holds(text::strs(MODES@), s.mode) {
        lemma_place(text::strs(MODES@), s.mode);
    }
    if text::holds(text::strs(OUTPUTS@), s.output) {
        lemma_place(text::strs(OUTPUTS@), s.output);
    }
    if text::holds(codes(tray.langs@), s.lang) {
        lemma_place(codes(tray.langs@), s.lang);
    }
    if text::holds(text::strs(ALL_MODELS@), s.model) {
        lemma_place(text::strs(ALL_MODELS@), s.model);
    }
    if text::holds(devices, used_input(s.input, default_name)) {
        lemma_place(devices, used_input(s.input, default_name));
    }
}

/// The options of every choice are as many as the values that they stand for, so that each option
/// asks something of the daemon.
pub proof fn law_every_option_asks(tray: DictateTray, choice: Choice, index: int)
    requires
        0 <= index < tray.options(choice).len(),
    ensures
        tray.asks(choice, index, text::views(tray.input_devices@)) is Some,
{
}

/// Selecting an option selects it, and leaves everything else in the menu as it is.
pub proof fn law_selecting_changes_one_choice(
    tray: DictateTray,
    choice: Choice,
    other: Choice,
    index: usize,
)
    ensures
        tray.with_selected(choice, index).selected(choice) == index,
        other != choice ==> tray.with_selected(choice, index).selected(other) == tray.selected(
            other,
        ),
        tray.with_selected(choice, index).enter == tray.enter,
        tray.with_selected(choice, index).correct == tray.correct,
        tray.with_selected(choice, index).recording == tray.recording,
        tray.with_selected(choice, index).langs == tray.langs,
        tray.with_selected(choice, index).input_devices == tray.input_devices,
        tray.with_selected(choice, tray.selected(choice)) == tray,
{
}

/// The label of an option says what it asks for.
pub proof fn law_labels_say_what_is_asked_for(
    tray: DictateTray,
    i: int,
    listed: Seq<Seq<char>>,
)
    ensures
        tray.options(Choice::Mode) == seq!["Live"@, "Batch"@, "VAD"@],
        tray.asks(Choice::Mode, 0, listed) == Some(TrayCommandView::SetMode("live"@)),
        tray.asks(Choice::Mode, 1, listed) == Some(TrayCommandView::SetMode("batch"@)),
        tray.asks(Choice::Mode, 2, listed) == Some(TrayCommandView::SetMode("vad"@)),
        tray.options(Choice::Output) == seq!["Type"@, "Clipboard"@],
        tray.asks(Choice::Output, 0, listed) == Some(TrayCommandView::SetOutput("type"@)),
        tray.asks(Choice::Output, 1, listed) == Some(TrayCommandView::SetOutput("clipboard"@)),
        0 <= i < tray.langs@.len() ==> tray.options(Choice::Lang)[i] == tray.langs@[i].1@
            && tray.asks(Choice::Lang, i, listed) == Some(
            TrayCommandView::SetLang(tray.langs@[i].0@),
        ),
        0 <= i < tray.options(Choice::Model).len() ==> tray.asks(Choice::Model, i, listed) == Some(
            TrayCommandView::SetModel(tray.options(Choice::Model)[i]),
        ),
        0 <= i < listed.len() ==> tray.asks(Choice::Input, i, listed) == Some(
            TrayCommandView::SetInput(listed[i]),
        ),
        i >= listed.len() ==> tray.asks(Choice::Input, i, listed) is None,
        i >= 3 ==> tray.asks(Choice::Mode, i, listed) is None,
        i >= 2 ==> tray.asks(Choice::Output, i, listed) is None,
        i >= tray.langs@.len() ==> tray.asks(Choice::Lang, i, listed) is None,
        i >= tray.options(Choice::Model).len() ==> tray.asks(Choice::Model, i, listed) is None,
{
    assert(tray.options(Choice::Mode) =~= seq!["Live"@, "Batch"@, "VAD"@]);
    assert(tray.options(Choice::Output) =~= seq!["Type"@, "Clipboard"@]);
}

/// The lines of the menu show the settings under their names.
pub proof fn law_lines_show_the_settings(tray: DictateTray, entry: MenuEntry)
    ensures
        Choice::Mode.label() == "Mode"@,
        Choice::Output.label() == "Output"@,
        Choice::Lang.label() == "Language"@,
        Choice::Model.label() == "Model"@,
        Choice::Input.label() == "Input"@,
        Switch::Enter.label() == "Press Enter"@,
        Switch::Correct.label() == "LLM Correct"@,
        tray.check(entry, Switch::Enter) ==> entry is Check && entry->checked == tray.enter
            && entry->switch == Switch::Enter && entry->Check_label@ == "Press Enter"@,
        tray.check(entry, Switch::Correct) ==> entry is Check && entry->checked == tray.correct
            && entry->switch == Switch::Correct && entry->Check_label@ == "LLM Correct"@,
        forall|choice: Choice| #[trigger]
            tray.radio(entry, choice) ==> entry is Radio && entry->choice == choice
                && entry->Radio_label@ == choice.label() && text::views(entry->options@)
                == tray.options(choice),
        tray.radio(entry, Choice::Mode) ==> entry is Radio && entry->selected == tray.mode,
        tray.radio(entry, Choice::Output) ==> entry is Radio && entry->selected == tray.output,
        tray.radio(entry, Choice::Lang) ==> entry is Radio && entry->selected == tray.lang,
        tray.radio(entry, Choice::Model) ==> entry is Radio && entry->selected == tray.model,
        tray.radio(entry, Choice::Input) ==> entry is Radio && entry->selected == tray.input,
{
}

/// What is in a list is found at its first place, and what is not is shown as the first option.
pub proof fn law_place_is_the_first(list: Seq<Seq<char>>, s: Seq<char>)
    ensures
        list.contains(s) ==> 0 <= place(list, s) < list.len() && list[place(list, s)] == s
            && forall|j: int| 0 <= j < place(list, s) ==> #[trigger] list[j] != s,
        !list.contains(s) ==> place(list, s) == 0,
{
    if list.contains(s) {
        let i = choose|i: int| 0 <= i < list.len() && list[i] == s;
        assert(text::holds(list, s)) by {
            assert(list[i] == s);
        }
        lemma_place(list, s);
    }
}

/// The menu has every language once, with detection first and the others by their names.
pub proof fn law_menu_has_every_language(langs: Seq<(&'static str, &'static str)>, i: int, j: int)
    requires
        menu_languages(langs),
    ensures
        langs.len() == LANGUAGES@.len(),
        langs.to_multiset() == LANGUAGES@.to_multiset(),
        langs[0].0@ == "auto"@,
        1 <= i <= j < langs.len() ==> text::lex_le(langs[i].1@, langs[j].1@),
{
}

/// The device in use is the chosen one, and the system's own where none was chosen.
pub proof fn law_chosen_device_is_used(input: Seq<char>, default_name: Seq<char>)
    ensures
        input.len() > 0 ==> used_input(input, default_name) == input,
        input.len() == 0 ==> used_input(input, default_name) == default_name,
{
}

} // verus!
