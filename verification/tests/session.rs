use dictate_desktop::history::{audio_name, first_shown, log_line, record, show_entry, show_row};
use dictate_desktop::overlay::DoneKind;
use dictate_desktop::session::{
    after_attempt, eta_samples, file_backend, final_text, insertion, live_backend, polished,
    Backend, Ending, Finish, HistRow, RetryStep, Route,
};
use dictate_desktop::state::{State, StateFile};

fn finish() -> Finish {
    Finish {
        do_correct: true,
        correct_hold_ms: 2500,
        enter_after: true,
        is_clipboard: false,
        already_typed: false,
        auto_paste: true,
    }
}

#[test]
fn endings_follow_the_route() {
    let f = finish();
    assert!(f.route("hi") == Route::TypeOrPaste);
    assert!(f.ending("hi there", true) == Ending { paste: false, press_enter: true, hold_ms: 1000, done: DoneKind::Delivered });
    assert!(f.ending("hi", false) == Ending { paste: true, press_enter: true, hold_ms: 900, done: DoneKind::Delivered });
    let no_paste = Finish { auto_paste: false, do_correct: false, ..finish() };
    assert!(no_paste.ending("hi", false) == Ending { paste: false, press_enter: true, hold_ms: 0, done: DoneKind::Copied });
    let clipboard = Finish { is_clipboard: true, ..finish() };
    assert!(clipboard.route("hi") == Route::Clipboard);
    assert!(clipboard.ending("hi", false) == Ending { paste: false, press_enter: false, hold_ms: 900, done: DoneKind::Copied });
    let typed = Finish { already_typed: true, ..finish() };
    assert!(typed.route("hi") == Route::Typed);
    assert!(typed.ending("hi", false) == Ending { paste: false, press_enter: true, hold_ms: 900, done: DoneKind::Delivered });
    assert!(f.ending("", true) == Ending { paste: false, press_enter: false, hold_ms: 0, done: DoneKind::Dismissed });
    assert!(f.route("") == Route::Nothing);
}

#[test]
fn the_hold_grows_with_the_words_up_to_the_limit() {
    let f = finish();
    assert_eq!(f.ending(&"w ".repeat(16), true).hold_ms, 2400);
    assert_eq!(f.ending(&"w ".repeat(17), true).hold_ms, 2500);
    assert_eq!(f.ending(&"w ".repeat(90), true).hold_ms, 2500);
    let none = Finish { correct_hold_ms: 0, ..finish() };
    assert_eq!(none.ending("a b c", true).hold_ms, 0);
}

#[test]
fn corrections_need_text() {
    let f = finish();
    assert!(f.corrects("x"));
    assert!(!f.corrects(""));
    assert!(!Finish { do_correct: false, ..finish() }.corrects("x"));
    assert_eq!(final_text("raw", Some("better".to_string())), "better");
    assert_eq!(final_text("raw", None), "raw");
    assert_eq!(insertion("text"), "text ");
}

#[test]
fn the_end_follows_the_settings() {
    let file = StateFile {
        lang: "auto".to_string(),
        model: "groq/whisper-large-v3".to_string(),
        mode: "batch".to_string(),
        delivery: "clipboard".to_string(),
        enter: true,
        correct: false,
        correct_hold_ms: 10,
        font: String::new(),
        input: String::new(),
        languages: vec!["en".to_string()],
        overlay: None,
        vocabulary: Vec::new(),
        remove_fillers: true,
        output: None,
        auto_paste: None,
    };
    let f = Finish::new(&State::load(file, true), false);
    assert!(f.is_clipboard && f.enter_after && !f.do_correct && f.auto_paste && !f.already_typed);
    assert_eq!(f.correct_hold_ms, 10);
}

#[test]
fn the_user_is_told_of_the_fallback() {
    assert_eq!(finish().toast("hi", false, true), Some("pasted"));
    assert_eq!(finish().toast("hi", false, false), Some("copied to clipboard"));
    let no_paste = Finish { auto_paste: false, ..finish() };
    assert_eq!(no_paste.toast("hi", false, true), Some("copied to clipboard"));
    assert_eq!(no_paste.toast("hi", true, true), None);
    assert_eq!(no_paste.toast("", false, true), None);
    assert_eq!(Finish { is_clipboard: true, ..finish() }.toast("hi", false, true), None);
    assert_eq!(Finish { already_typed: true, ..finish() }.toast("hi", false, true), None);
}

#[test]
fn delivered_utterances_are_not_inserted_again() {
    let settings = |delivery: &str| {
        State::load(
            StateFile {
                lang: "auto".to_string(),
                model: "groq/whisper-large-v3".to_string(),
                mode: "vad".to_string(),
                delivery: delivery.to_string(),
                enter: false,
                correct: false,
                correct_hold_ms: 0,
                font: String::new(),
                input: String::new(),
                languages: vec!["en".to_string()],
                overlay: None,
                vocabulary: Vec::new(),
                remove_fillers: true,
                output: None,
                auto_paste: None,
            },
            true,
        )
    };
    let typed = Finish::of_utterances(&settings("auto"), true);
    assert!(typed.route("all of it") == Route::Typed);
    assert!(typed.ending("all of it", false).done == DoneKind::Delivered);
    let nowhere = Finish::of_utterances(&settings("type"), false);
    assert!(nowhere.route("all of it") == Route::TypeOrPaste);
    assert!(nowhere.ending("all of it", false).done == DoneKind::Copied);
    let copied = Finish::of_utterances(&settings("clipboard"), false);
    assert!(copied.route("all of it") == Route::Clipboard);
    assert!(copied.ending("all of it", false).done == DoneKind::Copied);
}

#[test]
fn providers_have_backends() {
    assert!(file_backend("assemblyai") == Backend::AssemblyAi);
    assert!(file_backend("groq") == Backend::Groq);
    assert!(file_backend("fireworks") == Backend::Fireworks);
    assert!(file_backend("other") == Backend::Deepgram);
    assert!(live_backend("assemblyai") == Backend::AssemblyAi);
    assert!(live_backend("fireworks") == Backend::Fireworks);
    assert!(live_backend("groq") == Backend::Deepgram);
}

#[test]
fn transcription_is_tried_three_times() {
    let fail = || Err("e".to_string());
    assert!(matches!(after_attempt(0, Ok("t".to_string())), RetryStep::Done(t) if t == "t"));
    assert!(matches!(after_attempt(0, fail()), RetryStep::Again { attempt: 1, delay_ms: 1000 }));
    assert!(matches!(after_attempt(1, fail()), RetryStep::Again { attempt: 2, delay_ms: 2000 }));
    assert!(matches!(after_attempt(2, fail()), RetryStep::GiveUp(e) if e == "e"));
    assert_eq!(polished("Um, yes.".to_string(), true), "Yes.");
    assert_eq!(polished("Um, yes.".to_string(), false), "Um, yes.");
}

fn row(mode: &str, model: &str, duration_ms: u64, latency_ms: u64) -> HistRow {
    HistRow { mode: mode.to_string(), model: model.to_string(), duration_ms, latency_ms }
}

#[test]
fn estimates_rest_on_the_last_recordings() {
    let mut rows = vec![
        row("batch", "groq/a", 1, 10),
        row("live", "groq/a", 2, 20),
        row("batch", "nova-3", 3, 30),
        row("batch", "groq/b", 4, 0),
        row("batch", "groq/b", 5, 50),
    ];
    assert_eq!(eta_samples(&rows, "groq"), Some(vec![(5, 50), (1, 10)]));
    assert_eq!(eta_samples(&rows, "deepgram"), None);
    for i in 0..30 {
        rows.push(row("batch", "groq/a", 100 + i, 1));
    }
    let v = eta_samples(&rows, "groq").unwrap();
    assert_eq!((v.len(), v[0], v[19]), (20, (129, 1), (110, 1)));
    assert_eq!(eta_samples(&[], "groq"), None);
}

#[test]
fn rows_are_kept_for_text_or_audio() {
    let r = record("t", Some("a.flac"), "batch", "m", "en", "raw", "text", 5, 6).unwrap();
    assert!(r.corrected);
    assert_eq!((r.ts, r.audio, r.mode, r.model, r.lang), ("t", Some("a.flac"), "batch", "m", "en"));
    assert_eq!((r.raw, r.text, r.duration_ms, r.latency_ms), ("raw", "text", 5, 6));
    assert!(!record("t", None, "m", "m", "l", "x", "x", 0, 0).unwrap().corrected);
    assert!(record("t", Some("a"), "m", "m", "l", "", "", 0, 0).is_some());
    assert!(record("t", None, "m", "m", "l", "", "", 0, 0).is_none());
    assert_eq!(log_line("2025-01-02T03:04:05", "hi"), Some("[2025-01-02T03:04:05] hi".to_string()));
    assert_eq!(log_line("t", ""), None);
    assert_eq!(audio_name("20250102-030405.678"), "20250102-030405.678.flac");
}

#[test]
fn the_history_shows_the_last_rows() {
    assert_eq!(first_shown(50, None), 30);
    assert_eq!(first_shown(5, None), 0);
    assert_eq!(first_shown(5, Some(2)), 3);
    assert_eq!(first_shown(5, Some(9)), 0);
    assert_eq!(first_shown(5, Some(0)), 5);
    assert_eq!(
        show_row("{\"ts\":\"2025-01-02T03:04:05.678+01:00\",\"text\":\"hi\"}"),
        Some("2025-01-02 03:04:05  hi".to_string())
    );
    assert_eq!(show_row("{}"), Some("  ".to_string()));
    assert_eq!(show_row("nothing"), None);
    assert_eq!(show_entry(Some("aTbT.c".to_string()), None), "a b   ");
}
