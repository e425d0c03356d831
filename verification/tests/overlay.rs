use dictate_desktop::overlay::{
    compute_height, configure, frame_ms, icon, motion, place_line, segments, Command, DoneKind,
    FadeWay, Icon, IndicatorKind, Layout, Level, LineWrap, Marks, Morph, Panel, Progress, Scene,
    ToastChange,
};

const SETTLED: Progress = Progress { chunk_done: true, finalize_done: true, toast: false };

fn panel() -> Panel<u8> {
    Panel::new()
}

#[test]
fn starting_clears_the_panel() {
    let mut p = panel();
    p.command(Command::SetText("old".to_string()), 0, SETTLED);
    let e = p.command(Command::Start(4), 9, SETTLED);
    assert!(p.visible && p.text.is_empty() && p.reveal_len == 0 && p.color_split == 0);
    assert_eq!((p.indicators.len(), p.indicators[0].id, p.indicators[0].anim), (1, 4, 9));
    assert!(p.indicators[0].kind == IndicatorKind::Recording);
    assert!(e.fade_in && e.restart_clock && e.redraw && e.morph == Morph::Reset);
    assert!(e.toast == ToastChange::Clear && e.touched == Some(0));
    assert!(e.chunk_fade == Some(Level::Full) && e.finalize_fade == Some(Level::Full));
}

#[test]
fn an_utterance_keeps_its_circle() {
    let mut p = panel();
    p.command(Command::Start(1), 10, SETTLED);
    p.command(Command::Start(2), 20, SETTLED);
    let e = p.command(Command::Processing { id: 1, timed: true }, 30, SETTLED);
    assert!(e.touched == Some(0) && e.fade_in && e.redraw && !e.restart_clock);
    assert!(p.indicators[0].kind == IndicatorKind::Processing && p.indicators[0].eta_set);
    assert_eq!(p.indicators[0].anim, 10);
    let e = p.command(Command::Done(1, DoneKind::Delivered), 40, SETTLED);
    assert!(e.touched == Some(0));
    assert!(p.indicators[0].kind == IndicatorKind::Done(DoneKind::Delivered));
    assert!(p.command(Command::Done(9, DoneKind::Failed), 50, SETTLED).touched.is_none());
    assert!(p.command(Command::Processing { id: 9, timed: false }, 60, SETTLED).touched == Some(2));
    assert_eq!(p.indicators[2].anim, 60);
}

#[test]
fn finished_circles_go_once_they_have_faded() {
    let mut p = panel();
    for id in 0..4 {
        p.command(Command::Start(id), 0, SETTLED);
    }
    p.command(Command::Done(0, DoneKind::Copied), 0, SETTLED);
    p.command(Command::Done(2, DoneKind::Copied), 0, SETTLED);
    p.command(Command::Done(3, DoneKind::Copied), 0, SETTLED);
    p.sweep(&[true, true, true, false]);
    let left: Vec<u64> = p.indicators.iter().map(|i| i.id).collect();
    assert_eq!(left, [1, 3]);
    assert!(!p.idle(false));
    p.command(Command::Done(1, DoneKind::Dismissed), 0, SETTLED);
    p.sweep(&[true, true]);
    assert!(p.idle(false));
    assert!(!p.idle(true));
}

#[test]
fn new_text_fades_in() {
    let mut p = panel();
    p.visible = true;
    let e = p.command(Command::SetPending("hél".to_string()), 0, SETTLED);
    assert!(e.chunk_fade == Some(Level::Zero) && e.finalize_fade.is_none() && e.redraw);
    let busy = Progress { chunk_done: false, ..SETTLED };
    assert!(p.command(Command::SetPending("hélas".to_string()), 0, busy).chunk_fade.is_none());
    p.chunk_over();
    assert_eq!(p.reveal_len, 6);
    let e = p.command(Command::SetText("hé".to_string()), 0, SETTLED);
    assert!(p.reveal_len == 3 && p.pending.is_empty());
    assert!(e.chunk_fade.is_none() && e.finalize_fade == Some(Level::Zero) && e.morph == Morph::Back);
    p.finalize_over();
    assert_eq!(p.color_split, 3);
    p.command(Command::SetText("h".to_string()), 0, SETTLED);
    assert_eq!(p.color_split, 1);
}

#[test]
fn a_correction_replaces_the_text_at_once() {
    let mut p = panel();
    p.command(Command::SetText("raw".to_string()), 0, SETTLED);
    let e = p.command(Command::Correcting, 0, SETTLED);
    assert!(e.correct_fade == Some(Level::Full) && e.redraw);
    let e = p.command(Command::SetText("raw".to_string()), 0, SETTLED);
    assert!(e.correct_fade.is_none());
    let e = p.command(Command::SetText("better".to_string()), 0, SETTLED);
    assert!(e.correct_fade == Some(Level::Zero));
    assert!(e.chunk_fade == Some(Level::Full) && e.finalize_fade == Some(Level::Full));
    assert!(p.reveal_len == 6 && p.color_split == 6);
}

#[test]
fn status_only_ignores_transcripts() {
    let mut p = panel();
    p.command(Command::SetStatusOnly(true), 0, SETTLED);
    let e = p.command(Command::SetText("secret".to_string()), 0, SETTLED);
    assert!(p.text.is_empty() && !e.redraw);
    p.command(Command::SetPending("secret".to_string()), 0, SETTLED);
    assert!(p.pending.is_empty() && !p.text_active(false));
    let e = p.command(Command::Toast("copied".to_string()), 0, SETTLED);
    assert!(e.toast == ToastChange::Message && e.fade_in && p.text == "copied");
    assert!(p.text_active(true));
    p.toast_over();
    assert!(p.text.is_empty());
}

#[test]
fn a_finished_transcript_is_held() {
    let mut p = panel();
    p.command(Command::Start(1), 0, SETTLED);
    p.command(Command::SetText("größe".to_string()), 0, SETTLED);
    assert!(p.command(Command::Done(1, DoneKind::Copied), 0, SETTLED).toast == ToastChange::Transcript(7));
    let toasting = Progress { toast: true, ..SETTLED };
    assert!(p.command(Command::Done(1, DoneKind::Copied), 0, toasting).toast == ToastChange::Keep);
    p.command(Command::SetInfo("live".to_string(), "fr".to_string()), 0, SETTLED);
    assert_eq!((p.mode.as_str(), p.lang.as_str()), ("live", "fr"));
}

#[test]
fn pending_text_follows_a_space() {
    let mut p = panel();
    p.command(Command::SetText("one".to_string()), 0, SETTLED);
    p.command(Command::SetPending("two".to_string()), 0, SETTLED);
    assert_eq!(p.display_text(), "one two");
    assert_eq!(p.split_at(), 4);
    p.command(Command::SetText("one ".to_string()), 0, SETTLED);
    p.command(Command::SetPending("two".to_string()), 0, SETTLED);
    assert_eq!(p.display_text(), "one two");
    assert_eq!(p.split_at(), 4);
}

#[test]
fn lines_break_between_words() {
    let mut w = LineWrap::new();
    for word in "the quick brown fox".split_whitespace() {
        let line = w.offer(word);
        w.place(word, line.len() > 9);
    }
    assert_eq!(w.finish(), ["the quick", "brown fox"]);
    let mut w = LineWrap::new();
    w.place("unbreakable", true);
    assert_eq!(w.finish(), ["unbreakable"]);
    assert!(LineWrap::new().finish().is_empty());
}

#[test]
fn lines_are_found_in_the_text() {
    let display = "one twö one";
    assert_eq!(place_line(display, 0, "one"), Some(0));
    assert_eq!(place_line(display, 3, "twö"), Some(4));
    assert_eq!(place_line(display, 8, "one"), Some(9));
    assert_eq!(place_line(display, 12, "gone"), Some(12));
    assert_eq!(place_line(display, 7, "one"), None);
    assert_eq!(place_line(display, 13, "one"), None);
}

fn painted(line: &str, start: u128, m: Marks) -> Vec<(String, usize)> {
    segments(line, start, m).into_iter().map(|s| (s.text, s.paint)).collect()
}

#[test]
fn lines_are_cut_where_the_look_changes() {
    let m = Marks { color: 3, split: 6, reveal: 8 };
    assert_eq!(
        painted("abcdefghij", 0, m),
        [("abc".to_string(), 0), ("def".to_string(), 1), ("gh".to_string(), 2), ("ij".to_string(), 5)]
    );
    assert_eq!(painted("abcd", 5, m), [("a".to_string(), 1), ("bc".to_string(), 2), ("d".to_string(), 5)]);
    assert_eq!(painted("", 0, m), []);
    let all = Marks { color: 100, split: 100, reveal: 100 };
    assert_eq!(painted("héé", 0, all), [("héé".to_string(), 0)]);
    let inside = Marks { color: 2, split: 100, reveal: 100 };
    assert_eq!(painted("héé", 0, inside), [("h".to_string(), 0), ("éé".to_string(), 0)]);
}

#[test]
fn heights_are_limited() {
    assert_eq!(compute_height(false, 5, 20, false, 400), 56);
    assert_eq!(compute_height(true, 0, 20, false, 400), 32);
    assert_eq!(compute_height(true, 1, 20, true, 400), 56);
    assert_eq!(compute_height(true, 3, 20, true, 400), 72);
    assert_eq!(compute_height(true, 100, 24, false, 400), 400);
}

#[test]
fn frames_follow_the_refresh_rate() {
    assert_eq!(frame_ms(60000), Some(16));
    assert_eq!(frame_ms(144000), Some(6));
    assert_eq!(frame_ms(2_000_000), Some(1));
    assert_eq!(frame_ms(1000), Some(1000));
    assert_eq!(frame_ms(0), None);
}

#[test]
fn the_overlay_takes_a_part_of_the_screen() {
    assert!(configure(1920, 0, 0) == Layout::Screen { screen_width: 1920, width: 1186, margin: 367 });
    assert!(configure(1186, 1920, 1186) == Layout::Own { width: 1186 });
    assert!(configure(2560, 1920, 1186) == Layout::Screen { screen_width: 2560, width: 1582, margin: 489 });
    assert!(configure(0, 0, 0) == Layout::Screen { screen_width: 1, width: 0, margin: 0 });
    for w in [1u32, 7, 500, 1000, 1366, 1920, 2560, 3840, 4096, 7680, 65535, u32::MAX] {
        match configure(w, 0, 0) {
            Layout::Screen { width, .. } => assert_eq!(width, (w as f64 * 0.618) as u32),
            Layout::Own { .. } => panic!("own size"),
        }
    }
}

#[test]
fn scenes_and_icons() {
    let mut p = panel();
    p.visible = true;
    assert!(p.scene(false, 100, false, false) == Scene::NotReady);
    assert!(p.scene(true, 0, false, false) == Scene::NotReady);
    assert!(p.scene(true, 100, false, false) == Scene::Circles);
    assert!(p.scene(true, 100, false, true) == Scene::Text);
    assert!(p.visible);
    assert!(p.scene(true, 100, true, true) == Scene::Gone);
    assert!(!p.visible);
    assert!(matches!(icon(IndicatorKind::Recording, false, None), Icon::Bars));
    assert!(matches!(icon(IndicatorKind::Processing, true, Some(3)), Icon::Spinner { overrun: false, label: Some(l) } if l == "3"));
    assert!(matches!(icon(IndicatorKind::Processing, true, None), Icon::Spinner { overrun: true, label: Some(l) } if l == "…"));
    assert!(matches!(icon(IndicatorKind::Processing, false, None), Icon::Spinner { overrun: false, label: None }));
    assert!(matches!(icon(IndicatorKind::Done(DoneKind::Delivered), false, None), Icon::Check));
    assert!(matches!(icon(IndicatorKind::Done(DoneKind::Copied), false, None), Icon::Clipboard));
    assert!(matches!(icon(IndicatorKind::Done(DoneKind::Failed), false, None), Icon::Cross));
    assert!(matches!(icon(IndicatorKind::Done(DoneKind::Dismissed), false, None), Icon::Blank));
    assert!(motion(IndicatorKind::Done(DoneKind::Copied), true) == (FadeWay::Hold, true));
    assert!(motion(IndicatorKind::Done(DoneKind::Copied), false) == (FadeWay::Out, false));
    assert!(motion(IndicatorKind::Processing, true) == (FadeWay::In, true));
    assert!(motion(IndicatorKind::Recording, true) == (FadeWay::In, false));
}
