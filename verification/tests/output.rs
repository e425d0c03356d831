use dictate_desktop::fnkey::{find_device, key_event, trigger_key, KeyEvent};
use dictate_desktop::inputmethod::{ImeEvent, InputMethod};
use dictate_desktop::keyinject::{KeyInject, KeyStroke};
use dictate_desktop::output::{init, paste, type_enter, type_text, Typed};
use dictate_desktop::sound::{play_start, play_stop};
use dictate_desktop::state::{State, StateFile};
use dictate_desktop::tray::{
    sorted_languages, Choice, DictateTray, MenuEntry, Switch, TrayCommand,
};

#[test]
fn fields_listen_after_done() {
    let mut im = InputMethod::new();
    im.event(ImeEvent::Activate);
    assert!(!im.is_active());
    im.event(ImeEvent::Done);
    assert!(im.is_active());
    assert_eq!(im.commit("x"), Some(1));
    assert_eq!(im.commit(""), None);
    im.event(ImeEvent::Deactivate);
    im.event(ImeEvent::Other);
    assert!(im.is_active());
    im.event(ImeEvent::Done);
    assert_eq!((im.is_active(), im.serial, im.commit("x")), (false, 2, None));
}

#[test]
fn an_unavailable_input_method_stays_so() {
    let mut im = InputMethod::new();
    im.event(ImeEvent::Activate);
    im.event(ImeEvent::Done);
    im.event(ImeEvent::Unavailable);
    assert!(im.exit && !im.available());
    im.event(ImeEvent::Activate);
    im.event(ImeEvent::Done);
    assert!(!im.is_active());
    let mut gone = InputMethod::new();
    gone.close();
    assert!(!gone.available() && !gone.is_active());
    let mut late = InputMethod::new();
    late.serial = u32::MAX;
    late.event(ImeEvent::Done);
    assert_eq!(late.serial, 0);
}

#[test]
fn text_is_committed_with_a_space() {
    let mut out = init(true, false);
    assert!(matches!(type_text(&out, "hi"), Typed::Refused));
    assert!(!type_text(&out, "hi").taken());
    assert!(type_text(&out, "").taken());
    let mut im = InputMethod::new();
    im.event(ImeEvent::Activate);
    im.event(ImeEvent::Done);
    out.input_method = Some(im);
    assert!(matches!(type_text(&out, "hi"), Typed::Commit(t, 1) if t == "hi "));
    assert!(matches!(type_text(&out, "hi "), Typed::Commit(t, 1) if t == "hi "));
    assert!(matches!(type_text(&out, ""), Typed::Nothing));
    let silent = paste(&mut out, true);
    assert!(silent.strokes.is_empty() && silent.toast == "copied to clipboard");
    assert!(type_enter(&mut out).is_empty());
}

#[test]
fn the_paste_chord_holds_its_modifiers() {
    let mut out = init(false, true);
    let off = paste(&mut out, false);
    assert!(off.strokes.is_empty() && off.toast == "copied to clipboard");
    let on = paste(&mut out, true);
    assert_eq!(on.toast, "pasted");
    let strokes = on.strokes;
    let codes: Vec<(u32, bool)> = strokes.iter().map(|s| (s.code, s.pressed)).collect();
    assert_eq!(codes, [(29, true), (42, true), (47, true), (47, false), (42, false), (29, false)]);
    let times: Vec<u32> = strokes.iter().map(|s| s.time).collect();
    assert_eq!(times, [1, 2, 3, 4, 5, 6]);
    let enter = type_enter(&mut out);
    assert!(enter[0] == KeyStroke { time: 7, code: 28, pressed: true });
    assert!(enter[1] == KeyStroke { time: 8, code: 28, pressed: false });
    let mut k = KeyInject { time: u32::MAX };
    assert_eq!(k.enter()[0].time, 0);
}

#[test]
fn trigger_keys_are_those_of_the_input_layer() {
    let code = |name: &str| trigger_key(Some(name.to_string()));
    assert_eq!(code("f24"), evdev::Key::KEY_F24.code());
    assert_eq!(code("rightalt"), evdev::Key::KEY_RIGHTALT.code());
    assert_eq!(code("rightctrl"), evdev::Key::KEY_RIGHTCTRL.code());
    assert_eq!(code("rightmeta"), evdev::Key::KEY_RIGHTMETA.code());
    assert_eq!(code("compose"), evdev::Key::KEY_COMPOSE.code());
    assert_eq!(code("menu"), evdev::Key::KEY_COMPOSE.code());
    assert_eq!(code("other"), evdev::Key::KEY_FN.code());
    assert_eq!(trigger_key(None), evdev::Key::KEY_FN.code());
}

#[test]
fn presses_and_releases_are_told_from_repeats() {
    assert!(key_event(true, 464, 1, 464) == Some(KeyEvent::Start));
    assert!(key_event(true, 464, 0, 464) == Some(KeyEvent::Release));
    assert!(key_event(true, 464, 2, 464).is_none());
    assert!(key_event(true, 30, 1, 464).is_none());
    assert!(key_event(false, 464, 1, 464).is_none());
}

#[test]
fn virtual_keyboards_come_first() {
    let name = |s: &str| Some(s.to_string());
    assert_eq!(find_device(&[]), None);
    assert_eq!(find_device(&[name("Apple"), None]), Some(0));
    assert_eq!(find_device(&[name("Apple"), None, name("KEYD virtual keyboard"), name("keyd")]), Some(2));
}

#[test]
fn sounds_are_files_of_the_theme() {
    assert_eq!(play_start(), "/run/current-system/sw/share/sounds/freedesktop/stereo/message-new-instant.oga");
    assert_eq!(play_stop(), "/run/current-system/sw/share/sounds/freedesktop/stereo/complete.oga");
}

fn state() -> State {
    let file = StateFile {
        lang: "ro".to_string(),
        model: "deepgram/nova-2".to_string(),
        mode: "vad".to_string(),
        delivery: "clipboard".to_string(),
        enter: true,
        correct: false,
        correct_hold_ms: 0,
        font: String::new(),
        input: String::new(),
        languages: vec!["en".to_string()],
        overlay: None,
        vocabulary: Vec::new(),
        remove_fillers: true,
        output: None,
        auto_paste: None,
    };
    State::load(file, true)
}

#[test]
fn languages_are_listed_by_name() {
    let langs = sorted_languages();
    assert_eq!(langs.len(), 28);
    assert_eq!(langs[0].0, "auto");
    for pair in langs[1..].windows(2) {
        assert!(pair[0].1 <= pair[1].1);
    }
    assert!(langs.contains(&("ro", "Romanian")));
}

#[test]
fn the_tray_shows_the_settings() {
    let devices = vec!["A".to_string(), "B".to_string()];
    let mut tray = DictateTray::new(&state(), &devices, "B");
    assert_eq!((tray.mode, tray.output, tray.model, tray.input), (2, 1, 2, 1));
    assert_eq!(tray.langs[tray.lang].0, "ro");
    assert!(tray.enter && !tray.correct && !tray.recording);
    assert_eq!(tray.title(), "Dictate");
    tray.set_recording(true);
    assert_eq!(tray.title(), "Dictate (recording)");
    let mut s = state();
    s.mode = "odd".to_string();
    s.input = "A".to_string();
    tray.set_state(&s, &devices, "B");
    assert_eq!((tray.mode, tray.input, tray.recording), (0, 0, true));
}

#[test]
fn the_menu_has_five_choices_and_two_switches() {
    let devices = vec!["A".to_string()];
    let tray = DictateTray::new(&state(), &devices, "A");
    let menu = tray.menu();
    assert_eq!(menu.len(), 8);
    match &menu[0] {
        MenuEntry::Radio { label, selected, options, .. } => {
            assert_eq!((*label, *selected), ("Mode", 2));
            assert_eq!(*options, ["Live", "Batch", "VAD"]);
        }
        _ => panic!("no choice"),
    }
    match &menu[2] {
        MenuEntry::Radio { label, options, .. } => assert_eq!((*label, options.len()), ("Language", 28)),
        _ => panic!("no choice"),
    }
    assert!(matches!(menu[5], MenuEntry::Separator));
    assert!(matches!(menu[6], MenuEntry::Check { label: "Press Enter", checked: true, .. }));
    assert!(matches!(menu[7], MenuEntry::Check { label: "LLM Correct", checked: false, .. }));
}

#[test]
fn choices_ask_the_daemon() {
    let devices = vec!["A".to_string()];
    let mut tray = DictateTray::new(&state(), &devices, "A");
    assert!(matches!(tray.select(Choice::Mode, 1, &devices), Some(TrayCommand::SetMode(m)) if m == "batch"));
    assert_eq!(tray.mode, 1);
    assert!(matches!(tray.select(Choice::Output, 0, &devices), Some(TrayCommand::SetOutput(o)) if o == "type"));
    assert!(matches!(tray.select(Choice::Lang, 0, &devices), Some(TrayCommand::SetLang(l)) if l == "auto"));
    assert!(matches!(tray.select(Choice::Model, 0, &devices), Some(TrayCommand::SetModel(m)) if m == "assemblyai/universal"));
    assert!(matches!(tray.select(Choice::Input, 0, &devices), Some(TrayCommand::SetInput(d)) if d == "A"));
    assert!(tray.select(Choice::Input, 1, &devices).is_none());
    assert!(tray.select(Choice::Mode, 9, &devices).is_none());
    assert!(matches!(tray.flip(Switch::Enter), TrayCommand::ToggleEnter));
    assert!(matches!(tray.flip(Switch::Correct), TrayCommand::ToggleCorrect));
    assert!(!tray.enter && tray.correct);
}
