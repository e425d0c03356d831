//! The daemon's decisions: what a request, a choice in the tray or the push-to-talk key makes it
//! do. What touches the machine is described by the returned [`Step`], for the caller to perform.

use crate::commands;
use crate::commands::Outcome;
use crate::config;
use crate::config::{parse_provider_model, AUTO_LANG};
use crate::fnkey::KeyEvent;
use crate::ipc::{Request, Response};
use crate::state;
use crate::state::{OverlayMode, State};
use crate::text;
use crate::text::{borrow_list, contains, same};
use crate::tray;
use crate::tray::{find_place, TrayCommand};
use vstd::prelude::*;

verus! {

/// How a recording is transcribed.
#[derive(Clone, Copy, PartialEq, Eq, Structural)]
pub enum SessionKind {
    /// Streamed while it is spoken.
    Live,
    /// As a whole, when it ends.
    Batch,
    /// Utterance by utterance.
    Vad,
}

/// How a recording in `mode` is transcribed.
pub open spec fn kind_of(mode: Seq<char>) -> SessionKind {
    if mode == "batch"@ {
        SessionKind::Batch
    } else if mode == "vad"@ {
        SessionKind::Vad
    } else {
        SessionKind::Live
    }
}

/// Everything that a new recording needs to know.
pub struct StartPlan {
    /// The answer to the client.
    pub message: String,
    /// What the overlay shows.
    pub overlay: OverlayMode,
    /// The settings of this session, with the model that it uses.
    pub session: State,
    pub provider: String,
    pub kind: SessionKind,
}

impl state::StateView {
    /// The settings of a session: where the picked model falls short, with one that does not.
    pub open spec fn session(self) -> state::StateView {
        match self.resolved() {
            Some(eff) => state::StateView { model: eff, ..self },
            None => self,
        }
    }
}

impl StartPlan {
    /// Whether this is the plan of a recording under the settings `s`.
    pub open spec fn fits(&self, s: state::StateView) -> bool {
        let provider = config::provider_of(s.session().model);
        &&& self.session@ == s.session()
        &&& self.provider@ == provider
        &&& self.kind == kind_of(s.mode)
        &&& self.overlay == s.overlay_mode()
        &&& self.message@ == "recording ("@ + s.mode + ", "@ + provider + ")"@
    }
}

/// What is to be done next.
pub enum Step {
    /// Answer; the outcome says whether the settings are to be saved first.
    Reply(Outcome),
    /// Start recording, then answer with the plan's message.
    Begin(StartPlan),
    /// Stop recording, then answer.
    Halt(Response),
    /// Find out which family the font system substitutes for this font.
    MatchFont(String),
    /// Find out which input devices there are, and choose this one.
    CheckInput(String),
    /// Find out which input devices there are, and show them.
    ListInputs,
}

/// What is to be done next.
pub ghost enum StepView {
    Reply(commands::Effect),
    Begin,
    Halt(Seq<char>),
    MatchFont(Seq<char>),
    CheckInput(Seq<char>),
    ListInputs,
}

/// The daemon: its settings and whether it records.
pub struct DaemonState {
    pub state: State,
    pub recording: bool,
}

/// The daemon: its settings and whether it records.
#[verifier::ext_equal]
pub ghost struct DaemonView {
    pub state: state::StateView,
    pub recording: bool,
}

impl View for DaemonState {
    type V = DaemonView;

    open spec fn view(&self) -> DaemonView {
        DaemonView { state: self.state@, recording: self.recording }
    }
}

impl DaemonView {
    /// The daemon after a step.
    pub open spec fn after(self, step: StepView) -> DaemonView {
        match step {
            StepView::Reply(e) => DaemonView { state: e.state, ..self },
            StepView::Begin => DaemonView { recording: true, ..self },
            StepView::Halt(_) => DaemonView { recording: false, ..self },
            _ => self,
        }
    }

    /// Starting to record: nothing where a recording runs.
    pub open spec fn start(self) -> StepView {
        if self.recording {
            StepView::Reply(commands::answer(self.state, "already recording"@))
        } else {
            StepView::Begin
        }
    }

    /// Stopping: nothing where no recording runs.
    pub open spec fn stop(self) -> StepView {
        if self.recording {
            StepView::Halt("stopped"@)
        } else {
            StepView::Reply(commands::answer(self.state, "not recording"@))
        }
    }

    pub open spec fn toggle(self) -> StepView {
        if self.recording {
            self.stop()
        } else {
            self.start()
        }
    }

    /// What a request leads to.
    pub open spec fn command(self, command: Seq<char>, arg: Option<Seq<char>>) -> StepView {
        let s = self.state;
        if command == "toggle"@ {
            self.toggle()
        } else if command == "start"@ {
            self.start()
        } else if command == "stop"@ {
            self.stop()
        } else if command == "status"@ {
            StepView::Reply(commands::answer(s, commands::status_line(s, self.recording)))
        } else if command == "mode"@ {
            StepView::Reply(commands::mode_command(s, arg))
        } else if command == "lang"@ {
            StepView::Reply(commands::lang_command(s, arg))
        } else if command == "languages"@ {
            StepView::Reply(commands::languages_command(s, arg))
        } else if command == "font"@ {
            match arg {
                Some(f) => StepView::MatchFont(f),
                None => StepView::Reply(commands::answer(s, "font: "@ + s.font)),
            }
        } else if command == "enter"@ {
            StepView::Reply(commands::enter_command(s, arg))
        } else if command == "correct"@ {
            StepView::Reply(commands::correct_command(s, arg))
        } else if command == "correct-hold"@ {
            StepView::Reply(commands::hold_command(s, arg))
        } else if command == "output"@ {
            StepView::Reply(commands::output_command(s, arg))
        } else if command == "delivery"@ {
            StepView::Reply(commands::delivery_command(s, arg))
        } else if command == "overlay"@ {
            StepView::Reply(commands::overlay_command(s, arg))
        } else if command == "input"@ {
            match arg {
                Some(name) => if name == "default"@ {
                    StepView::Reply(commands::input_default(s))
                } else {
                    StepView::CheckInput(name)
                },
                None => StepView::ListInputs,
            }
        } else if command == "model"@ {
            StepView::Reply(commands::model_command(s, arg))
        } else if command == "vocab"@ {
            StepView::Reply(commands::vocab_command(s, arg))
        } else if command == "fillers"@ {
            StepView::Reply(commands::fillers_command(s, arg))
        } else if command == "paste"@ {
            StepView::Reply(commands::paste_command(s, arg))
        } else {
            StepView::Reply(commands::refuse(s, "unknown command: "@ + command))
        }
    }
}

impl Step {
    /// Whether this is the step `v` of a daemon in the state `before`.
    pub open spec fn performs(&self, before: DaemonView, v: StepView) -> bool {
        match v {
            StepView::Reply(e) => {
                &&& self is Reply
                &&& self->Reply_0.response.says(e.ok, e.message)
                &&& self->Reply_0.save == e.saved
            },
            StepView::Begin => self is Begin && self->Begin_0.fits(before.state),
            StepView::Halt(m) => self is Halt && self->Halt_0.says(true, m),
            StepView::MatchFont(f) => self is MatchFont && self->MatchFont_0@ == f,
            StepView::CheckInput(n) => self is CheckInput && self->CheckInput_0@ == n,
            StepView::ListInputs => self is ListInputs,
        }
    }
}

impl DaemonState {
    /// A daemon that does not record.
    pub fn new(state: State) -> (r: DaemonState)
        ensures
            r@ == (DaemonView { state: state@, recording: false }),
    {
        DaemonState { state, recording: false }
    }

    fn plan(&self) -> (r: StartPlan)
        ensures
            r.fits(self.state@),
    {
        let mut session: State = self.state.duplicate();
        if let Some(eff) = self.state.resolve() {
            session.model = eff;
        }
        let (p, _) = parse_provider_model(session.model.as_str());
        let provider: String = p.to_owned();
        let kind: SessionKind = if same(self.state.mode.as_str(), "batch") {
            SessionKind::Batch
        } else if same(self.state.mode.as_str(), "vad") {
            SessionKind::Vad
        } else {
            SessionKind::Live
        };
        let message: String = "recording (".to_owned().concat(self.state.mode.as_str()).concat(
            ", ",
        ).concat(provider.as_str()).concat(")");
        StartPlan { message, overlay: self.state.overlay_mode(), session, provider, kind }
    }

    fn reply(message: &str) -> (r: Step)
        ensures
            r is Reply,
            r->Reply_0.response.says(true, message@),
            !r->Reply_0.save,
    {
        Step::Reply(Outcome { response: Response::ok(message.to_owned()), save: false })
    }

    /// Starts to record. The fallback for a model that falls short is for this session only: the
    /// picked model stays in the settings.
    pub fn start_recording(&mut self) -> (r: Step)
        ensures
            r.performs(old(self)@, old(self)@.start()),
            final(self)@ == old(self)@.after(old(self)@.start()),
    {
        if self.recording {
            return Self::reply("already recording");
        }
        let plan: StartPlan = self.plan();
        self.recording = true;
        Step::Begin(plan)
    }

    /// Stops.
    pub fn stop_recording(&mut self) -> (r: Step)
        ensures
            r.performs(old(self)@, old(self)@.stop()),
            final(self)@ == old(self)@.after(old(self)@.stop()),
    {
        if !self.recording {
            return Self::reply("not recording");
        }
        self.recording = false;
        Step::Halt(Response::ok("stopped".to_owned()))
    }

    /// Stops where a recording runs, starts one where none does.
    pub fn toggle_recording(&mut self) -> (r: Step)
        ensures
            r.performs(old(self)@, old(self)@.toggle()),
            final(self)@ == old(self)@.after(old(self)@.toggle()),
    {
        if self.recording {
            self.stop_recording()
        } else {
            self.start_recording()
        }
    }

    /// Handles a request.
    pub fn handle_command(&mut self, req: Request) -> (r: Step)
        ensures
            r.performs(old(self)@, old(self)@.command(req.command@, state::opt_view(req.arg))),
            final(self)@ == old(self)@.after(
                old(self)@.command(req.command@, state::opt_view(req.arg)),
            ),
    {
        let Request { command, arg } = req;
        let c: &str = command.as_str();
        if same(c, "toggle") {
            self.toggle_recording()
        } else if same(c, "start") {
            self.start_recording()
        } else if same(c, "stop") {
            self.stop_recording()
        } else if same(c, "status") {
            Step::Reply(self.state.status_command(self.recording))
        } else if same(c, "mode") {
            Step::Reply(self.state.mode_command(arg))
        } else if same(c, "lang") {
            Step::Reply(self.state.lang_command(arg))
        } else if same(c, "languages") {
            Step::Reply(self.state.languages_command(arg))
        } else if same(c, "font") {
            match arg {
                Some(f) => Step::MatchFont(f),
                None => Self::reply("font: ".to_owned().concat(self.state.font.as_str()).as_str()),
            }
        } else if same(c, "enter") {
            Step::Reply(self.state.enter_command(arg))
        } else if same(c, "correct") {
            Step::Reply(self.state.correct_command(arg))
        } else if same(c, "correct-hold") {
            Step::Reply(self.state.hold_command(arg))
        } else if same(c, "output") {
            Step::Reply(self.state.output_command(arg))
        } else if same(c, "delivery") {
            Step::Reply(self.state.delivery_command(arg))
        } else if same(c, "overlay") {
            Step::Reply(self.state.overlay_command(arg))
        } else if same(c, "input") {
            match arg {
                Some(name) => if same(name.as_str(), "default") {
                    Step::Reply(self.state.input_default())
                } else {
                    Step::CheckInput(name)
                },
                None => Step::ListInputs,
            }
        } else if same(c, "model") {
            Step::Reply(self.state.model_command(arg))
        } else if same(c, "vocab") {
            Step::Reply(self.state.vocab_command(arg))
        } else if same(c, "fillers") {
            Step::Reply(self.state.fillers_command(arg))
        } else if same(c, "paste") {
            Step::Reply(self.state.paste_command(arg))
        } else {
            Step::Reply(
                Outcome {
                    response: Response::err("unknown command: ".to_owned().concat(c)),
                    save: false,
                },
            )
        }
    }
}

// ---------------------------------------------------------------------------------------------
// The tray and the push-to-talk key

/// What a choice in the tray leads to.
pub enum TrayStep {
    /// The same as a request would; its answer is dropped.
    Do(Step),
    /// The settings changed: save them.
    Save,
    /// Copy this text and say so in the overlay.
    Copy { text: String, toast: &'static str },
}

/// The preferred languages after a language was put in or taken out. The last one stays.
pub open spec fn toggled_langs(langs: Seq<Seq<char>>, code: Seq<char>) -> Seq<Seq<char>> {
    if !text::holds(langs, code) {
        langs.push(code)
    } else if langs.len() > 1 {
        langs.remove(tray::place(langs, code))
    } else {
        langs
    }
}

/// What a choice in the tray leads to.
pub ghost enum TrayStepView {
    Do(StepView),
    Save(state::StateView),
    Copy { text: Seq<char>, toast: Seq<char> },
}

impl DaemonView {
    /// What a choice in the tray leads to.
    pub open spec fn tray(self, cmd: tray::TrayCommandView) -> TrayStepView {
        match cmd {
            tray::TrayCommandView::Toggle => TrayStepView::Do(self.toggle()),
            tray::TrayCommandView::SetMode(m) => TrayStepView::Do(
                self.command("mode"@, Some(m)),
            ),
            tray::TrayCommandView::SetOutput(o) => TrayStepView::Do(
                self.command("output"@, Some(o)),
            ),
            tray::TrayCommandView::SetLang(l) => TrayStepView::Do(
                self.command("lang"@, Some(l)),
            ),
            // Curating the set implies detecting among it.
            tray::TrayCommandView::ToggleLang(code) => TrayStepView::Save(
                state::StateView {
                    languages: toggled_langs(self.state.languages, code),
                    lang: AUTO_LANG@,
                    ..self.state
                },
            ),
            tray::TrayCommandView::SetModel(m) => TrayStepView::Do(
                self.command("model"@, Some(m)),
            ),
            tray::TrayCommandView::SetInput(d) => TrayStepView::Do(
                self.command("input"@, Some(d)),
            ),
            tray::TrayCommandView::ToggleEnter => TrayStepView::Do(self.command("enter"@, None)),
            tray::TrayCommandView::ToggleCorrect => TrayStepView::Do(
                self.command("correct"@, None),
            ),
            tray::TrayCommandView::ToggleFillers => TrayStepView::Do(
                self.command("fillers"@, None),
            ),
            tray::TrayCommandView::ToggleAutoPaste => TrayStepView::Do(
                self.command("paste"@, None),
            ),
            tray::TrayCommandView::SetOverlay(m) => TrayStepView::Do(
                self.command("overlay"@, Some(m)),
            ),
            tray::TrayCommandView::CopyHistory(text) => TrayStepView::Copy {
                text,
                toast: "copied from history"@,
            },
        }
    }

    /// The daemon after a choice in the tray.
    pub open spec fn after_tray(self, step: TrayStepView) -> DaemonView {
        match step {
            TrayStepView::Do(v) => self.after(v),
            TrayStepView::Save(s) => DaemonView { state: s, ..self },
            TrayStepView::Copy { .. } => self,
        }
    }

    /// What the push-to-talk key leads to: a release means nothing where no recording runs.
    pub open spec fn key(self, ev: KeyEvent) -> Option<StepView> {
        match ev {
            KeyEvent::Start => Some(self.start()),
            KeyEvent::Release => if self.recording {
                Some(self.stop())
            } else {
                None
            },
        }
    }
}

impl TrayStep {
    /// Whether this is the step `v` of a daemon in the state `before`.
    pub open spec fn performs(&self, before: DaemonView, v: TrayStepView) -> bool {
        match v {
            TrayStepView::Do(step) => self is Do && self->Do_0.performs(before, step),
            TrayStepView::Save(_) => self is Save,
            TrayStepView::Copy { text, toast } => {
                &&& self is Copy
                &&& self->text@ == text
                &&& self->toast@ == toast
            },
        }
    }
}

impl DaemonState {
    fn ask(&mut self, command: &str, arg: Option<String>) -> (r: TrayStep)
        ensures
            r is Do,
            r->Do_0.performs(old(self)@, old(self)@.command(command@, state::opt_view(arg))),
            final(self)@ == old(self)@.after(
                old(self)@.command(command@, state::opt_view(arg)),
            ),
    {
        TrayStep::Do(self.handle_command(Request { command: command.to_owned(), arg }))
    }

    fn toggle_lang(&mut self, code: String)
        ensures
            final(self)@ == old(self)@.after_tray(
                old(self)@.tray(tray::TrayCommandView::ToggleLang(code@)),
            ),
    {
        let ghost langs = text::views(self.state.languages@);
        if contains(&self.state.languages, code.as_str()) {
            if self.state.languages.len() > 1 {
                let at: usize = find_place(&borrow_list(&self.state.languages), code.as_str());
                let _gone: String = self.state.languages.remove(at);
                assert(text::views(self.state.languages@) =~= langs.remove(at as int));
            }
        } else {
            self.state.languages.push(code);
            assert(text::views(self.state.languages@) =~= langs.push(code@));
        }
        self.state.lang = AUTO_LANG.to_owned();
    }

    /// Handles a choice in the tray.
    pub fn tray_command(&mut self, cmd: TrayCommand) -> (r: TrayStep)
        ensures
            r.performs(old(self)@, old(self)@.tray(cmd@)),
            final(self)@ == old(self)@.after_tray(old(self)@.tray(cmd@)),
    {
        match cmd {
            TrayCommand::Toggle => TrayStep::Do(self.toggle_recording()),
            TrayCommand::SetMode(m) => self.ask("mode", Some(m)),
            TrayCommand::SetOutput(o) => self.ask("output", Some(o)),
            TrayCommand::SetLang(l) => self.ask("lang", Some(l)),
            TrayCommand::ToggleLang(code) => {
                self.toggle_lang(code);
                TrayStep::Save
            },
            TrayCommand::SetModel(m) => self.ask("model", Some(m)),
            TrayCommand::SetInput(d) => self.ask("input", Some(d)),
            TrayCommand::ToggleEnter => self.ask("enter", None),
            TrayCommand::ToggleCorrect => self.ask("correct", None),
            TrayCommand::ToggleFillers => self.ask("fillers", None),
            TrayCommand::ToggleAutoPaste => self.ask("paste", None),
            TrayCommand::SetOverlay(m) => self.ask("overlay", Some(m)),
            TrayCommand::CopyHistory(text) => TrayStep::Copy {
                text,
                toast: "copied from history",
            },
        }
    }

    /// Handles the push-to-talk key.
    pub fn key_event(&mut self, ev: KeyEvent) -> (r: Option<Step>)
        ensures
            match old(self)@.key(ev) {
                Some(v) => {
                    &&& r is Some
                    &&& r->0.performs(old(self)@, v)
                    &&& final(self)@ == old(self)@.after(v)
                },
                None => r is None && final(self)@ == old(self)@,
            },
    {
        match ev {
            KeyEvent::Start => Some(self.start_recording()),
            KeyEvent::Release => if self.recording {
                Some(self.stop_recording())
            } else {
                None
            },
        }
    }
}

// ---------------------------------------------------------------------------------------------
// Laws

/// A command that is refused leaves the settings as they are, and settings that are not saved did
/// not change.
pub proof fn law_unsaved_means_unchanged(
    d: DaemonView,
    command: Seq<char>,
    arg: Option<Seq<char>>,
)
    ensures
        match d.command(command, arg) {
            StepView::Reply(e) => (!e.ok ==> !e.saved) && (!e.saved ==> e.state == d.state),
            _ => d.after(d.command(command, arg)).state == d.state,
        },
{
}

/// The same holds where the machine had a say: for a font, given what stands in for it, and for
/// an input device, given those there are.
pub proof fn law_unsaved_means_unchanged_outside(
    s: state::StateView,
    name: Seq<char>,
    family: Option<Seq<char>>,
    devices: Seq<Seq<char>>,
)
    ensures
        ({
            let e = commands::font_effect(s, name, family);
            (!e.ok ==> !e.saved) && (!e.saved ==> e.state == s)
        }),
        ({
            let e = commands::input_effect(s, name, devices);
            (!e.ok ==> !e.saved) && (!e.saved ==> e.state == s)
        }),
{
}

/// No request but "model" touches the picked model: falling back is for one session.
pub proof fn law_pick_is_preserved(d: DaemonView, command: Seq<char>, arg: Option<Seq<char>>)
    requires
        command != "model"@,
    ensures
        d.after(d.command(command, arg)).state.model == d.state.model,
{
}

#[verifier::opaque]
spec fn consistent(s: state::StateView) -> bool {
    s.wf()
}

proof fn lemma_delivery_commands(s: state::StateView, arg: Option<Seq<char>>)
    requires
        s.wf(),
    ensures
        consistent(commands::output_command(s, arg).state),
        consistent(commands::delivery_command(s, arg).state),
        consistent(commands::paste_command(s, arg).state),
{
    reveal(consistent);
    match arg {
        Some(a) => {
            if text::listed(commands::OUTPUTS@, a) {
                state::law_delivery_stays_consistent(s, a, true, "auto"@);
            }
            if text::listed(commands::DELIVERIES@, a) {
                state::law_delivery_stays_consistent(s, "type"@, true, a);
            }
        },
        None => {},
    }
    state::law_delivery_stays_consistent(s, "type"@, true, "auto"@);
    state::law_delivery_stays_consistent(s, "type"@, false, "auto"@);
}

proof fn lemma_auto_is_not_multi()
    ensures
        AUTO_LANG@ != "multi"@,
{
    reveal_strlit("auto");
    reveal_strlit("multi");
    assert("auto"@[0] == 'a' && "multi"@[0] == 'm');
}

proof fn lemma_other_commands(s: state::StateView, arg: Option<Seq<char>>)
    requires
        s.wf(),
    ensures
        consistent(s),
        consistent(commands::mode_command(s, arg).state),
        consistent(commands::lang_command(s, arg).state),
        consistent(commands::languages_command(s, arg).state),
        consistent(commands::enter_command(s, arg).state),
        consistent(commands::correct_command(s, arg).state),
        consistent(commands::hold_command(s, arg).state),
        consistent(commands::overlay_command(s, arg).state),
        consistent(commands::input_default(s).state),
        consistent(commands::model_command(s, arg).state),
        consistent(commands::vocab_command(s, arg).state),
        consistent(commands::fillers_command(s, arg).state),
{
    reveal(consistent);
    lemma_auto_is_not_multi();
}

/// Every request leaves the settings consistent.
pub proof fn law_commands_keep_settings_consistent(
    d: DaemonView,
    command: Seq<char>,
    arg: Option<Seq<char>>,
)
    requires
        d.state.wf(),
    ensures
        d.after(d.command(command, arg)).state.wf(),
{
    lemma_delivery_commands(d.state, arg);
    lemma_other_commands(d.state, arg);
    assert(consistent(d.after(d.command(command, arg)).state));
    reveal(consistent);
}

/// Every choice in the tray leaves the settings consistent.
pub proof fn law_tray_keeps_settings_consistent(d: DaemonView, cmd: tray::TrayCommandView)
    requires
        d.state.wf(),
    ensures
        d.after_tray(d.tray(cmd)).state.wf(),
{
    lemma_auto_is_not_multi();
    match cmd {
        tray::TrayCommandView::SetMode(m) => law_commands_keep_settings_consistent(
            d,
            "mode"@,
            Some(m),
        ),
        tray::TrayCommandView::SetOutput(o) => law_commands_keep_settings_consistent(
            d,
            "output"@,
            Some(o),
        ),
        tray::TrayCommandView::SetLang(l) => law_commands_keep_settings_consistent(
            d,
            "lang"@,
            Some(l),
        ),
        tray::TrayCommandView::SetModel(m) => law_commands_keep_settings_consistent(
            d,
            "model"@,
            Some(m),
        ),
        tray::TrayCommandView::SetInput(i) => law_commands_keep_settings_consistent(
            d,
            "input"@,
            Some(i),
        ),
        tray::TrayCommandView::ToggleEnter => law_commands_keep_settings_consistent(
            d,
            "enter"@,
            None,
        ),
        tray::TrayCommandView::ToggleCorrect => law_commands_keep_settings_consistent(
            d,
            "correct"@,
            None,
        ),
        tray::TrayCommandView::ToggleFillers => law_commands_keep_settings_consistent(
            d,
            "fillers"@,
            None,
        ),
        tray::TrayCommandView::ToggleAutoPaste => law_commands_keep_settings_consistent(
            d,
            "paste"@,
            None,
        ),
        tray::TrayCommandView::SetOverlay(m) => law_commands_keep_settings_consistent(
            d,
            "overlay"@,
            Some(m),
        ),
        _ => {},
    }
}

/// There is always a preferred language: no request takes the last one away.
pub proof fn law_a_language_remains(d: DaemonView, command: Seq<char>, arg: Option<Seq<char>>)
    requires
        d.state.languages.len() > 0,
    ensures
        d.after(d.command(command, arg)).state.languages.len() > 0,
{
}

/// Nor does the tray: toggling never takes the last language out, and toggling one that is not
/// preferred twice leaves the preferred languages as they were.
pub proof fn law_toggling_languages(langs: Seq<Seq<char>>, code: Seq<char>)
    requires
        langs.len() > 0,
    ensures
        toggled_langs(langs, code).len() > 0,
        !text::holds(langs, code) ==> text::holds(toggled_langs(langs, code), code),
        !text::holds(langs, code) ==> toggled_langs(toggled_langs(langs, code), code) == langs,
{
    if text::holds(langs, code) {
        tray::lemma_place(langs, code);
    } else {
        let more = langs.push(code);
        assert(more[langs.len() as int] == code);
        tray::lemma_place(more, code);
        let at = tray::place(more, code);
        if at < langs.len() {
            assert(langs[at] == code);
        }
        assert(more.remove(at) =~= langs);
    }
}

/// Toggling twice ends where it began: it records as before, with the same settings.
pub proof fn law_toggle_twice(d: DaemonView)
    ensures
        ({
            let once = d.after(d.toggle());
            once.recording != d.recording && once.after(once.toggle()) == d
        }),
{
}

/// Pressing the push-to-talk key and letting go ends with no recording and with the settings as
/// they were.
pub proof fn law_press_and_release(d: DaemonView)
    ensures
        ({
            let pressed = d.after(d.key(KeyEvent::Start)->0);
            &&& d.key(KeyEvent::Start) is Some
            &&& pressed.recording
            &&& pressed.key(KeyEvent::Release) is Some
            &&& pressed.after(pressed.key(KeyEvent::Release)->0) == (DaemonView {
                recording: false,
                ..d
            })
        }),
{
}

/// Every session uses a model that handles its mode and its languages: the picked one wherever
/// that does.
pub proof fn law_session_model_is_compatible(s: state::StateView)
    ensures
        config::compatible(s.session().model, s.mode, s.required_langs()),
        config::compatible(s.model, s.mode, s.required_langs()) ==> s.session() == s,
        (state::StateView { model: s.model, ..s.session() }) == s,
{
    if !config::compatible(s.model, s.mode, s.required_langs()) {
        config::law_fallback_is_compatible(s.model, s.mode, s.required_langs());
    }
}

/// A request starts or stops a recording where that changes something. Otherwise it is answered that
/// it is so already.
pub proof fn law_recording_starts_and_stops(d: DaemonView, arg: Option<Seq<char>>)
    ensures
        ({
            let started = d.command("start"@, arg);
            &&& d.after(started) == (DaemonView { recording: true, ..d })
            &&& !d.recording ==> started is Begin
            &&& d.recording ==> started == StepView::Reply(
                commands::answer(d.state, "already recording"@),
            )
        }),
        ({
            let stopped = d.command("stop"@, arg);
            &&& d.after(stopped) == (DaemonView { recording: false, ..d })
            &&& d.recording ==> stopped == StepView::Halt("stopped"@)
            &&& !d.recording ==> stopped == StepView::Reply(
                commands::answer(d.state, "not recording"@),
            )
        }),
        d.recording ==> d.command("toggle"@, arg) == d.command("stop"@, arg),
        !d.recording ==> d.command("toggle"@, arg) == d.command("start"@, arg),
{
    lemma_names_differ();
}

/// The names of the requests differ: no two of one length begin alike.
proof fn lemma_names_differ()
    ensures
        "stop"@.len() == 4 && "stop"@[0] == 's',
        "mode"@.len() == 4 && "mode"@[0] == 'm',
        "lang"@.len() == 4 && "lang"@[0] == 'l',
        "font"@.len() == 4 && "font"@[0] == 'f',
        "start"@.len() == 5 && "start"@[0] == 's',
        "enter"@.len() == 5 && "enter"@[0] == 'e',
        "input"@.len() == 5 && "input"@[0] == 'i',
        "model"@.len() == 5 && "model"@[0] == 'm',
        "vocab"@.len() == 5 && "vocab"@[0] == 'v',
        "paste"@.len() == 5 && "paste"@[0] == 'p',
        "toggle"@.len() == 6 && "toggle"@[0] == 't',
        "status"@.len() == 6 && "status"@[0] == 's',
        "output"@.len() == 6 && "output"@[0] == 'o',
        "correct"@.len() == 7 && "correct"@[0] == 'c',
        "overlay"@.len() == 7 && "overlay"@[0] == 'o',
        "fillers"@.len() == 7 && "fillers"@[0] == 'f',
        "delivery"@.len() == 8,
        "languages"@.len() == 9,
        "correct-hold"@.len() == 12,
{
    reveal_strlit("stop");
    reveal_strlit("mode");
    reveal_strlit("lang");
    reveal_strlit("font");
    reveal_strlit("start");
    reveal_strlit("enter");
    reveal_strlit("input");
    reveal_strlit("model");
    reveal_strlit("vocab");
    reveal_strlit("paste");
    reveal_strlit("toggle");
    reveal_strlit("status");
    reveal_strlit("output");
    reveal_strlit("correct");
    reveal_strlit("overlay");
    reveal_strlit("fillers");
    reveal_strlit("delivery");
    reveal_strlit("languages");
    reveal_strlit("correct-hold");
}

/// Only "start", "stop" and "toggle" touch the recording: a change of the settings never does.
pub proof fn law_settings_leave_the_recording_alone(
    d: DaemonView,
    command: Seq<char>,
    arg: Option<Seq<char>>,
)
    requires
        command != "start"@,
        command != "stop"@,
        command != "toggle"@,
    ensures
        d.after(d.command(command, arg)).recording == d.recording,
        !(d.command(command, arg) is Begin) && !(d.command(command, arg) is Halt),
{
}

/// A recording is streamed in mode "live", transcribed as a whole in mode "batch" and utterance by
/// utterance in mode "vad".
pub proof fn law_mode_decides_the_kind(mode: Seq<char>)
    ensures
        kind_of(mode) == SessionKind::Batch <==> mode == "batch"@,
        kind_of(mode) == SessionKind::Vad <==> mode == "vad"@,
        mode == "live"@ ==> kind_of(mode) == SessionKind::Live,
{
    reveal_strlit("batch");
    reveal_strlit("vad");
    reveal_strlit("live");
    assert("batch"@.len() == 5 && "vad"@.len() == 3 && "live"@.len() == 4);
}

/// A session goes by the settings but for the model, which is the one that can do what they ask for.
pub proof fn law_session_goes_by_the_settings(plan: StartPlan, s: state::StateView)
    requires
        plan.fits(s),
    ensures
        (state::StateView { model: s.model, ..plan.session@ }) == s,
        config::compatible(s.model, s.mode, s.required_langs()) ==> plan.session@.model == s.model,
        !config::compatible(s.model, s.mode, s.required_langs()) ==> Some(plan.session@.model)
            == config::fallback(s.model, s.mode, s.required_langs()),
        plan.provider@ == config::provider_of(plan.session@.model),
        plan.kind == kind_of(s.mode),
        plan.overlay == s.overlay_mode(),
        plan.message@ == "recording ("@ + s.mode + ", "@ + plan.provider@ + ")"@,
{
}

/// Choosing a language in the tray adds it at the end where it was not chosen, and takes it away
/// where it was. The others stay, in their order. The last one stays too.
pub proof fn law_other_languages_stay(langs: Seq<Seq<char>>, code: Seq<char>, i: int)
    requires
        langs.no_duplicates(),
        0 <= i < langs.len(),
    ensures
        langs[i] != code ==> text::holds(toggled_langs(langs, code), langs[i]),
        langs[i] == code && langs.len() > 1 ==> toggled_langs(langs, code) == langs.take(i)
            + langs.skip(i + 1),
        langs[i] == code && langs.len() == 1 ==> toggled_langs(langs, code) == langs,
        !langs.contains(code) ==> toggled_langs(langs, code) == langs.push(code),
{
    if langs[i] == code {
        assert(text::holds(langs, code));
        assert forall|j: int| 0 <= j < i implies #[trigger] langs[j] != code by {
        }
        assert(tray::first_at(langs, code, i));
        let k = tray::place(langs, code);
        assert(tray::first_at(langs, code, k));
        assert(k == i);
        assert(langs.remove(i) =~= langs.take(i) + langs.skip(i + 1));
    } else if !text::holds(langs, code) {
        assert(langs.push(code)[i] == langs[i]);
    } else {
        let j = choose|j: int| 0 <= j < langs.len() && #[trigger] langs[j] == code;
        assert(tray::first_at(langs, code, j)) by {
            assert forall|m: int| 0 <= m < j implies #[trigger] langs[m] != code by {
            }
        }
        let k = tray::place(langs, code);
        assert(tray::first_at(langs, code, k));
        let rest = langs.remove(k);
        if i < k {
            assert(rest[i] == langs[i]);
        } else {
            assert(rest[i - 1] == langs[i]);
        }
    }
}

/// A choice in the tray does what the request of that name does. Choosing a language also turns
/// detection on, and changes nothing else.
pub proof fn law_tray_asks_as_a_client_does(
    d: DaemonView,
    value: Seq<char>,
    devices: Seq<Seq<char>>,
)
    ensures
        d.tray(tray::TrayCommandView::Toggle) == TrayStepView::Do(d.command("toggle"@, None)),
        d.tray(tray::TrayCommandView::SetMode(value)) == TrayStepView::Do(
            d.command("mode"@, Some(value)),
        ),
        d.tray(tray::TrayCommandView::SetOutput(value)) == TrayStepView::Do(
            d.command("output"@, Some(value)),
        ),
        d.tray(tray::TrayCommandView::SetLang(value)) == TrayStepView::Do(
            d.command("lang"@, Some(value)),
        ),
        d.tray(tray::TrayCommandView::SetModel(value)) == TrayStepView::Do(
            d.command("model"@, Some(value)),
        ),
        d.tray(tray::TrayCommandView::SetInput(value)) == TrayStepView::Do(
            d.command("input"@, Some(value)),
        ),
        d.tray(tray::TrayCommandView::SetOverlay(value)) == TrayStepView::Do(
            d.command("overlay"@, Some(value)),
        ),
        d.tray(tray::TrayCommandView::ToggleEnter) == TrayStepView::Do(d.command("enter"@, None)),
        d.tray(tray::TrayCommandView::ToggleCorrect) == TrayStepView::Do(
            d.command("correct"@, None),
        ),
        d.tray(tray::TrayCommandView::ToggleFillers) == TrayStepView::Do(
            d.command("fillers"@, None),
        ),
        d.tray(tray::TrayCommandView::ToggleAutoPaste) == TrayStepView::Do(
            d.command("paste"@, None),
        ),
        ({
            let t = d.after_tray(d.tray(tray::TrayCommandView::ToggleLang(value)));
            &&& t.state.lang == "auto"@
            &&& t.state.languages == toggled_langs(d.state.languages, value)
            &&& t.recording == d.recording
            &&& (state::StateView {
                lang: d.state.lang,
                languages: d.state.languages,
                ..t.state
            }) == d.state
        }),
        ({
            let step = d.tray(tray::TrayCommandView::CopyHistory(value));
            &&& step == TrayStepView::Copy { text: value, toast: "copied from history"@ }
            &&& d.after_tray(step) == d
        }),
{
}

/// Holding the key is recording: a press starts one and a release stops it. Where none runs, a
/// release does nothing.
pub proof fn law_key_holds_the_recording(d: DaemonView)
    ensures
        d.key(KeyEvent::Start) == Some(d.start()),
        d.key(KeyEvent::Release) is Some <==> d.recording,
        d.recording ==> d.key(KeyEvent::Release) == Some(StepView::Halt("stopped"@)),
{
}

/// Each request is answered by the command of its name.
pub proof fn law_requests_reach_their_command(d: DaemonView, arg: Option<Seq<char>>)
    ensures
        d.command("mode"@, arg) == StepView::Reply(commands::mode_command(d.state, arg)),
        d.command("lang"@, arg) == StepView::Reply(commands::lang_command(d.state, arg)),
        d.command("languages"@, arg) == StepView::Reply(commands::languages_command(d.state, arg)),
        d.command("enter"@, arg) == StepView::Reply(commands::enter_command(d.state, arg)),
        d.command("correct"@, arg) == StepView::Reply(commands::correct_command(d.state, arg)),
        d.command("correct-hold"@, arg) == StepView::Reply(commands::hold_command(d.state, arg)),
        d.command("output"@, arg) == StepView::Reply(commands::output_command(d.state, arg)),
        d.command("delivery"@, arg) == StepView::Reply(commands::delivery_command(d.state, arg)),
        d.command("overlay"@, arg) == StepView::Reply(commands::overlay_command(d.state, arg)),
        d.command("model"@, arg) == StepView::Reply(commands::model_command(d.state, arg)),
        d.command("vocab"@, arg) == StepView::Reply(commands::vocab_command(d.state, arg)),
        d.command("fillers"@, arg) == StepView::Reply(commands::fillers_command(d.state, arg)),
        d.command("paste"@, arg) == StepView::Reply(commands::paste_command(d.state, arg)),
        d.command("status"@, arg) == StepView::Reply(
            commands::answer(d.state, commands::status_line(d.state, d.recording)),
        ),
        arg is Some ==> d.command("font"@, arg) == StepView::MatchFont(arg->0),
        arg is None ==> d.command("font"@, arg) == StepView::Reply(
            commands::answer(d.state, "font: "@ + d.state.font),
        ),
        arg is None ==> d.command("input"@, arg) == StepView::ListInputs,
        arg is Some && arg->0 != "default"@ ==> d.command("input"@, arg) == StepView::CheckInput(
            arg->0,
        ),
        arg is Some && arg->0 == "default"@ ==> d.command("input"@, arg) == StepView::Reply(
            commands::input_default(d.state),
        ),
{
    lemma_names_differ();
}

/// A request is refused where its name is not known.
pub proof fn law_unknown_requests_are_refused(d: DaemonView, name: Seq<char>, arg: Option<Seq<char>>)
    requires
        name != "toggle"@ && name != "start"@ && name != "stop"@ && name != "status"@,
        name != "mode"@ && name != "lang"@ && name != "languages"@ && name != "font"@,
        name != "enter"@ && name != "correct"@ && name != "correct-hold"@ && name != "output"@,
        name != "delivery"@ && name != "overlay"@ && name != "input"@ && name != "model"@,
        name != "vocab"@ && name != "fillers"@ && name != "paste"@,
    ensures
        d.command(name, arg) is Reply,
        ({
            let e = d.command(name, arg)->Reply_0;
            &&& !e.ok && !e.saved
            &&& e.state == d.state
            &&& e.message == "unknown command: "@ + name
        }),
{
}

/// A step is carried out as it was decided: an answer is given with its message, and the settings
/// are saved where they changed.
pub proof fn law_steps_are_carried_out(step: Step, before: DaemonView, v: StepView)
    requires
        step.performs(before, v),
    ensures
        v is Reply ==> step is Reply && step->Reply_0.save == v->Reply_0.saved
            && step->Reply_0.response.ok == v->Reply_0.ok && step->Reply_0.response.message is Some
            && step->Reply_0.response.message->0@ == v->Reply_0.message,
        v is Begin ==> step is Begin && step->Begin_0.fits(before.state),
        v is Halt ==> step is Halt && step->Halt_0.ok && step->Halt_0.message is Some
            && step->Halt_0.message->0@ == v->Halt_0,
        v is MatchFont ==> step is MatchFont && step->MatchFont_0@ == v->MatchFont_0,
        v is CheckInput ==> step is CheckInput && step->CheckInput_0@ == v->CheckInput_0,
        v is ListInputs ==> step is ListInputs,
{
}

/// A choice in the tray is carried out as it was decided, and a text is copied as it is.
pub proof fn law_tray_steps_are_carried_out(step: TrayStep, before: DaemonView, v: TrayStepView)
    requires
        step.performs(before, v),
    ensures
        v is Do ==> step is Do && step->Do_0.performs(before, v->Do_0),
        v is Save ==> step is Save,
        v is Copy ==> step is Copy && step->text@ == v->text && step->toast@ == v->toast,
{
}

} // verus!
