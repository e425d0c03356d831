use dictate_desktop::commands::Outcome;
use dictate_desktop::daemon::{DaemonState, SessionKind, Step, TrayStep};
use dictate_desktop::fnkey::KeyEvent;
use dictate_desktop::ipc::{languages_arg, vocab_arg, Request, VocabAction};
use dictate_desktop::state::{OverlayMode, State, StateFile};
use dictate_desktop::tray::TrayCommand;

fn daemon() -> DaemonState {
    let file = StateFile {
        lang: "auto".to_string(),
        model: "assemblyai/universal".to_string(),
        mode: "live".to_string(),
        delivery: "auto".to_string(),
        enter: false,
        correct: false,
        correct_hold_ms: 2500,
        font: "Inter".to_string(),
        input: String::new(),
        languages: vec!["en".to_string(), "fr".to_string()],
        overlay: None,
        vocabulary: Vec::new(),
        remove_fillers: true,
        output: None,
        auto_paste: None,
    };
    DaemonState::new(State::load(file, true))
}

fn ask(d: &mut DaemonState, command: &str, arg: Option<&str>) -> Step {
    d.handle_command(Request { command: command.to_string(), arg: arg.map(|a| a.to_string()) })
}

fn outcome(step: Step) -> (bool, String, bool) {
    match step {
        Step::Reply(Outcome { response, save }) => (response.ok, response.message.unwrap(), save),
        _ => panic!("no reply"),
    }
}

fn said(d: &mut DaemonState, command: &str, arg: Option<&str>) -> (bool, String, bool) {
    let step = ask(d, command, arg);
    outcome(step)
}

fn ok(message: &str, save: bool) -> (bool, String, bool) {
    (true, message.to_string(), save)
}

fn err(message: &str) -> (bool, String, bool) {
    (false, message.to_string(), false)
}

#[test]
fn status_shows_the_settings() {
    let mut d = daemon();
    assert_eq!(
        said(&mut d, "status", None),
        ok("idle (mode: live, output: type, overlay: status, lang: auto, model: assemblyai/universal, preferred: [en, fr])", false)
    );
    d.recording = true;
    assert!(said(&mut d, "status", None).1.starts_with("recording (mode: live"));
}

#[test]
fn unknown_commands_are_refused() {
    let mut d = daemon();
    assert_eq!(said(&mut d, "dance", Some("now")), err("unknown command: dance"));
}

#[test]
fn mode_is_set_and_drops_the_overlay() {
    let mut d = daemon();
    d.state.overlay = Some(OverlayMode::Off);
    assert_eq!(said(&mut d, "mode", None), ok("mode: live (available: live, vad, batch)", false));
    assert_eq!(said(&mut d, "mode", Some("fast")), err("invalid mode 'fast'. use: live, vad, batch"));
    assert!(d.state.overlay == Some(OverlayMode::Off));
    assert_eq!(said(&mut d, "mode", Some("batch")), ok("mode: batch", true));
    assert!(d.state.overlay.is_none());
    d.state.model = "groq/whisper-large-v3".to_string();
    let (good, message, save) = said(&mut d, "mode", Some("live"));
    assert!(good && save);
    assert!(message.starts_with("mode: live (groq/whisper-large-v3 can't do this mode/langs — will use "));
    assert_eq!(d.state.model, "groq/whisper-large-v3");
}

#[test]
fn lang_is_set_and_listed() {
    let mut d = daemon();
    assert_eq!(said(&mut d, "lang", Some("fr")), ok("language: French (fr)", true));
    assert_eq!(said(&mut d, "lang", Some("xx")).1.split(" (").next(), Some("language: xx"));
    said(&mut d, "lang", Some("multi"));
    assert_eq!(d.state.lang, "auto");
    d.state.lang = "ro".to_string();
    let (_, list, save) = said(&mut d, "lang", None);
    assert!(!save);
    assert!(list.starts_with("language: Romanian (ro)\navailable:\n  "));
    assert!(list.contains("\n  Romanian (ro) *\n"));
    assert!(list.ends_with("\n  Vietnamese (vi)"));
    assert_eq!(list.lines().count(), 30);
    d.state.lang = "xx".to_string();
    assert!(said(&mut d, "lang", None).1.starts_with("language: xx\navailable:\n"));
}

#[test]
fn languages_are_checked() {
    let mut d = daemon();
    assert_eq!(said(&mut d, "languages", Some(" , ")), err("provide at least one language code"));
    assert_eq!(said(&mut d, "languages", Some("en,xx,auto,fr")), err("invalid language code(s): xx, auto"));
    assert_eq!(d.state.languages, ["en", "fr"]);
    assert_eq!(said(&mut d, "languages", Some("de, it")), ok("preferred languages: de, it", true));
    assert_eq!(d.state.languages, ["de", "it"]);
    assert_eq!(
        said(&mut d, "languages", None),
        ok("preferred languages: de, it\n(candidate set for auto-detect where supported — currently AssemblyAI batch)", false)
    );
}

#[test]
fn a_font_is_matched_first() {
    let mut d = daemon();
    assert_eq!(said(&mut d, "font", None), ok("font: Inter", false));
    match ask(&mut d, "font", Some("jetbrains mono")) {
        Step::MatchFont(f) => assert_eq!(f, "jetbrains mono"),
        _ => panic!("no match"),
    }
    let refused = d.state.font_matched("Comic".to_string(), Some("DejaVu Sans\n".to_string()));
    assert_eq!(outcome(Step::Reply(refused)), err("font 'Comic' not found (fc-match resolved to 'DejaVu Sans')"));
    assert_eq!(d.state.font, "Inter");
    let found = d.state.font_matched("jetbrains mono".to_string(), Some("JetBrains Mono,JetBrains Mono Light".to_string()));
    assert_eq!(outcome(Step::Reply(found)), ok("font: jetbrains mono", true));
    assert_eq!(d.state.font, "jetbrains mono");
    let unknown = d.state.font_matched("X".to_string(), None);
    assert_eq!(outcome(Step::Reply(unknown)), ok("font: X (could not verify)", true));
}

#[test]
fn switches_are_set_and_flipped() {
    let mut d = daemon();
    assert_eq!(said(&mut d, "enter", None), ok("enter: on", true));
    assert_eq!(said(&mut d, "enter", Some("false")), ok("enter: off", true));
    assert_eq!(said(&mut d, "enter", Some("yes")), err("invalid value. use: on, off"));
    assert_eq!(said(&mut d, "correct", Some("true")), ok("correct: on", true));
    assert!(d.state.correct);
    assert_eq!(said(&mut d, "fillers", None), ok("filler removal: off", true));
    assert_eq!(said(&mut d, "fillers", Some("true")), err("use: on, off"));
    assert_eq!(said(&mut d, "paste", Some("off")), ok("auto-paste: off", true));
    assert_eq!(d.state.delivery, "type");
    assert_eq!(said(&mut d, "paste", Some("maybe")), err("use: on, off"));
}

#[test]
fn the_hold_is_a_number_of_milliseconds() {
    let mut d = daemon();
    assert_eq!(said(&mut d, "correct-hold", None), ok("correct-hold: 2500ms", false));
    assert_eq!(said(&mut d, "correct-hold", Some("900")), ok("correct-hold: 900ms", true));
    assert_eq!(said(&mut d, "correct-hold", Some("1s")), err("invalid value, expected milliseconds"));
    assert_eq!(d.state.correct_hold_ms, 900);
}

#[test]
fn output_and_delivery_are_two_names() {
    let mut d = daemon();
    assert_eq!(said(&mut d, "output", Some("clipboard")), ok("output: clipboard (overlay: full)", true));
    assert_eq!(d.state.delivery, "clipboard");
    assert_eq!(said(&mut d, "output", None), ok("output: clipboard (available: type, clipboard)", false));
    assert_eq!(said(&mut d, "output", Some("auto")), err("invalid output 'auto'. use: type, clipboard"));
    assert_eq!(said(&mut d, "delivery", Some("auto")), ok("delivery: auto (overlay: status)", true));
    assert_eq!(d.state.output, "type");
    assert_eq!(said(&mut d, "delivery", None), ok("delivery: auto (available: auto, type, clipboard)", false));
    assert_eq!(said(&mut d, "delivery", Some("fax")), err("invalid delivery 'fax'. use: auto, type, clipboard"));
}

#[test]
fn the_overlay_is_set() {
    let mut d = daemon();
    assert_eq!(said(&mut d, "overlay", None), ok("overlay: status (off | status | full)", false));
    assert_eq!(said(&mut d, "overlay", Some("off")), ok("overlay: off", true));
    assert_eq!(said(&mut d, "overlay", Some("on")), err("invalid value. use: off, status, full"));
}

#[test]
fn inputs_are_checked_and_listed() {
    let mut d = daemon();
    let devices = vec!["Built-in".to_string(), "USB".to_string()];
    match ask(&mut d, "input", Some("USB")) {
        Step::CheckInput(name) => assert_eq!(name, "USB"),
        _ => panic!("no check"),
    }
    assert!(matches!(ask(&mut d, "input", None), Step::ListInputs));
    let listed = d.state.inputs_listed(&devices, "Built-in");
    assert_eq!(outcome(Step::Reply(listed)), ok("input: default (Built-in)\navailable:\n  Built-in *\n  USB", false));
    let chosen = d.state.input_checked("USB".to_string(), &devices);
    assert_eq!(outcome(Step::Reply(chosen)), ok("input: USB", true));
    let listed = d.state.inputs_listed(&devices, "Built-in");
    assert_eq!(outcome(Step::Reply(listed)), ok("input: USB\navailable:\n  Built-in\n  USB *", false));
    let missing = d.state.input_checked("Line".to_string(), &devices);
    assert_eq!(outcome(Step::Reply(missing)), err("device 'Line' not found"));
    assert_eq!(said(&mut d, "input", Some("default")), ok("input: default", true));
    assert_eq!(d.state.input, "");
}

#[test]
fn a_model_is_picked_with_warnings() {
    let mut d = daemon();
    assert_eq!(
        said(&mut d, "model", Some("nova-3")),
        err("format: provider/model (providers: assemblyai, deepgram, groq, fireworks)")
    );
    assert_eq!(
        said(&mut d, "model", Some("acme/x")),
        err("unknown provider 'acme'. use: assemblyai, deepgram, groq, fireworks")
    );
    assert_eq!(said(&mut d, "model", Some("groq/")), err("model name required after provider/"));
    assert_eq!(
        said(&mut d, "model", Some("groq/tiny")),
        err("unknown model 'tiny' for groq. available: whisper-large-v3-turbo, whisper-large-v3")
    );
    assert_eq!(d.state.model, "assemblyai/universal");
    assert_eq!(
        said(&mut d, "model", Some("groq/whisper-large-v3")),
        ok("model: groq/whisper-large-v3 (no live support, will fall back on record)", true)
    );
    said(&mut d, "mode", Some("batch"));
    assert_eq!(said(&mut d, "model", Some("deepgram/nova-3")), ok("model: deepgram/nova-3", true));
    let (_, list, _) = said(&mut d, "model", None);
    assert!(list.starts_with("model: deepgram/nova-3\navailable:\n  assemblyai/universal [live+batch]\n  deepgram/nova-3 [live+batch"));
    assert!(list.contains("\n  groq/whisper-large-v3 [batch]\n"));
    assert_eq!(list.matches(" *").count(), 1);
}

#[test]
fn the_vocabulary_grows_and_shrinks() {
    let mut d = daemon();
    assert_eq!(said(&mut d, "vocab", None), ok("vocabulary: (empty)", false));
    let add = vocab_arg(Some(VocabAction::Add(vec!["Grace Hopper".to_string(), "Z3".to_string()])));
    assert_eq!(said(&mut d, "vocab", Some(&add)), ok("vocabulary: 2 term(s)", true));
    assert_eq!(said(&mut d, "vocab", Some(&add)), ok("vocabulary: 2 term(s)", true));
    assert_eq!(d.state.vocabulary, ["Grace Hopper", "Z3"]);
    let list = vocab_arg(None);
    assert_eq!(said(&mut d, "vocab", Some(&list)), ok("vocabulary (2):\n  Grace Hopper\n  Z3", false));
    let remove = vocab_arg(Some(VocabAction::Remove(vec!["Z3".to_string(), "none".to_string()])));
    assert_eq!(said(&mut d, "vocab", Some(&remove)), ok("vocabulary: 1 term(s)", true));
    assert_eq!(d.state.vocabulary, ["Grace Hopper"]);
    let clear = vocab_arg(Some(VocabAction::Clear));
    assert_eq!(said(&mut d, "vocab", Some(&clear)), ok("vocabulary cleared", true));
    assert_eq!(said(&mut d, "vocab", Some("add\n \n  spaced  \n")), ok("vocabulary: 1 term(s)", true));
    assert_eq!(d.state.vocabulary, ["spaced"]);
}

#[test]
fn arguments_of_the_client() {
    assert_eq!(vocab_arg(Some(VocabAction::Add(vec!["a b".to_string(), "c".to_string()]))), "add\na b\nc");
    assert_eq!(vocab_arg(Some(VocabAction::List)), "list");
    assert_eq!(languages_arg(&[]), None);
    assert_eq!(languages_arg(&["en".to_string(), "fr".to_string()]), Some("en,fr".to_string()));
}

#[test]
fn recording_starts_and_stops() {
    let mut d = daemon();
    assert_eq!(said(&mut d, "stop", None), ok("not recording", false));
    match ask(&mut d, "start", None) {
        Step::Begin(plan) => {
            assert_eq!(plan.message, "recording (live, assemblyai)");
            assert_eq!(plan.provider, "assemblyai");
            assert!(plan.kind == SessionKind::Live);
            assert!(plan.overlay == OverlayMode::Status);
            assert_eq!(plan.session.model, "assemblyai/universal");
        }
        _ => panic!("no start"),
    }
    assert_eq!(said(&mut d, "start", None), ok("already recording", false));
    match ask(&mut d, "toggle", None) {
        Step::Halt(r) => assert_eq!((r.ok, r.message.as_deref()), (true, Some("stopped"))),
        _ => panic!("no stop"),
    }
    assert!(!d.recording);
}

#[test]
fn a_session_falls_back_and_the_pick_stays() {
    let mut d = daemon();
    d.state.model = "groq/whisper-large-v3".to_string();
    match ask(&mut d, "toggle", None) {
        Step::Begin(plan) => {
            assert_ne!(plan.session.model, "groq/whisper-large-v3");
            assert_eq!(plan.message, format!("recording (live, {})", plan.provider));
        }
        _ => panic!("no start"),
    }
    assert_eq!(d.state.model, "groq/whisper-large-v3");
    d.recording = false;
    d.state.mode = "vad".to_string();
    match ask(&mut d, "start", None) {
        Step::Begin(plan) => {
            assert!(plan.kind == SessionKind::Vad);
            assert_eq!(plan.provider, "groq");
        }
        _ => panic!("no start"),
    }
}

#[test]
fn the_session_languages_follow_the_choice() {
    let mut d = daemon();
    assert_eq!(d.state.required_langs(), ["en", "fr"]);
    d.state.lang = "ro".to_string();
    assert_eq!(d.state.required_langs(), ["ro"]);
    assert!(d.state.resolve().is_some());
    d.state.mode = "batch".to_string();
    assert_eq!(d.state.resolve(), None);
}

#[test]
fn the_key_talks_while_it_is_held() {
    let mut d = daemon();
    assert!(d.key_event(KeyEvent::Release).is_none());
    assert!(matches!(d.key_event(KeyEvent::Start), Some(Step::Begin(_))));
    assert!(d.recording);
    assert!(matches!(d.key_event(KeyEvent::Release), Some(Step::Halt(_))));
    assert!(!d.recording);
}

#[test]
fn the_tray_asks_what_a_client_would() {
    let mut d = daemon();
    assert!(matches!(d.tray_command(TrayCommand::SetMode("batch".to_string())), TrayStep::Do(Step::Reply(_))));
    assert_eq!(d.state.mode, "batch");
    d.tray_command(TrayCommand::SetOutput("clipboard".to_string()));
    d.tray_command(TrayCommand::SetLang("fr".to_string()));
    d.tray_command(TrayCommand::SetModel("deepgram/nova-2".to_string()));
    d.tray_command(TrayCommand::ToggleEnter);
    d.tray_command(TrayCommand::ToggleCorrect);
    d.tray_command(TrayCommand::ToggleFillers);
    d.tray_command(TrayCommand::SetOverlay("full".to_string()));
    assert_eq!(d.state.output, "clipboard");
    assert_eq!((d.state.lang.as_str(), d.state.model.as_str()), ("fr", "deepgram/nova-2"));
    assert!(d.state.enter && d.state.correct && !d.state.remove_fillers);
    assert!(d.state.overlay == Some(OverlayMode::Full));
    let before = d.state.auto_paste;
    d.tray_command(TrayCommand::ToggleAutoPaste);
    assert_eq!(d.state.auto_paste, !before);
    assert!(matches!(d.tray_command(TrayCommand::SetInput("USB".to_string())), TrayStep::Do(Step::CheckInput(_))));
    assert!(matches!(d.tray_command(TrayCommand::Toggle), TrayStep::Do(Step::Begin(_))));
    match d.tray_command(TrayCommand::CopyHistory("old".to_string())) {
        TrayStep::Copy { text, toast } => assert_eq!((text.as_str(), toast), ("old", "copied from history")),
        _ => panic!("no copy"),
    }
}

#[test]
fn toggling_languages_keeps_one() {
    let mut d = daemon();
    d.state.lang = "en".to_string();
    assert!(matches!(d.tray_command(TrayCommand::ToggleLang("ro".to_string())), TrayStep::Save));
    assert_eq!(d.state.languages, ["en", "fr", "ro"]);
    assert_eq!(d.state.lang, "auto");
    d.tray_command(TrayCommand::ToggleLang("ro".to_string()));
    assert_eq!(d.state.languages, ["en", "fr"]);
    d.tray_command(TrayCommand::ToggleLang("en".to_string()));
    d.tray_command(TrayCommand::ToggleLang("fr".to_string()));
    assert_eq!(d.state.languages, ["fr"]);
}
