use dictate_desktop::audio::samples_to_pcm;
use dictate_desktop::overlay::DoneKind;
use dictate_desktop::vad::{
    add_chunk, chunk_done, chunk_toast, settle_chunk, ChunkStep, Utterance, Vad, VadEvent, DEBOUNCE_FRAMES,
    PRE_SPEECH_FRAMES, SILENCE_THRESHOLD,
};

const RATE: u32 = 16000;
const FRAME: usize = 256;

fn frame(value: i16) -> Vec<i16> {
    vec![value; FRAME]
}

fn speak(vad: &mut Vad, frames: usize) -> bool {
    let mut began = false;
    for _ in 0..frames {
        began |= matches!(vad.frame(frame(100), true), VadEvent::Begin);
    }
    began
}

#[test]
fn frames_are_cut_from_the_bytes() {
    let mut vad = Vad::new(RATE);
    let samples: Vec<i16> = (0..600).map(|i| i as i16).collect();
    vad.push(&samples_to_pcm(&samples));
    assert_eq!(vad.next_frame().unwrap(), samples[..256]);
    assert_eq!(vad.next_frame().unwrap(), samples[256..512]);
    assert!(vad.next_frame().is_none());
    vad.push(&samples_to_pcm(&samples));
    assert_eq!(vad.next_frame().unwrap()[..88], samples[512..]);
}

#[test]
fn a_few_frames_of_voice_begin_an_utterance() {
    let mut vad = Vad::new(RATE);
    assert!(!speak(&mut vad, DEBOUNCE_FRAMES - 1));
    assert!(matches!(vad.frame(frame(0), false), VadEvent::Nothing));
    assert!(!speak(&mut vad, DEBOUNCE_FRAMES - 1));
    assert!(matches!(vad.frame(frame(100), true), VadEvent::Begin));
}

#[test]
fn an_utterance_ends_with_a_pause() {
    let mut vad = Vad::new(RATE);
    for i in 0..20 {
        vad.frame(frame(i), false);
    }
    assert!(speak(&mut vad, DEBOUNCE_FRAMES));
    vad.number(7);
    speak(&mut vad, 20);
    for _ in 0..SILENCE_THRESHOLD - 1 {
        assert!(matches!(vad.frame(frame(0), false), VadEvent::Nothing));
    }
    assert!(matches!(vad.frame(frame(100), true), VadEvent::Nothing));
    for _ in 0..SILENCE_THRESHOLD - 1 {
        assert!(matches!(vad.frame(frame(0), false), VadEvent::Nothing));
    }
    match vad.frame(frame(0), false) {
        VadEvent::End(Some(Utterance::Transcribe { seq, samples })) => {
            assert_eq!(seq, 7);
            let frames = PRE_SPEECH_FRAMES + 1 + 20 + SILENCE_THRESHOLD - 1 + 1 + SILENCE_THRESHOLD;
            assert_eq!(samples.len(), frames * FRAME);
            assert_eq!(samples[0], 13);
        }
        _ => panic!("no end"),
    }
    assert!(vad.finish().is_none());
}

#[test]
fn an_utterance_that_is_too_short_is_dismissed() {
    let mut vad = Vad::new(RATE);
    assert!(speak(&mut vad, DEBOUNCE_FRAMES));
    vad.number(1);
    assert!(matches!(vad.finish(), Some(Utterance::Dismiss { seq: 1 })));
    let mut vad = Vad::new(RATE);
    speak(&mut vad, DEBOUNCE_FRAMES);
    vad.number(2);
    speak(&mut vad, 19);
    assert!(matches!(vad.finish(), Some(Utterance::Transcribe { seq: 2, samples }) if samples.len() == 23 * FRAME));
}

#[test]
fn an_utterance_without_a_number_is_dropped() {
    let mut vad = Vad::new(RATE);
    speak(&mut vad, DEBOUNCE_FRAMES);
    for _ in 0..SILENCE_THRESHOLD - 1 {
        vad.frame(frame(0), false);
    }
    assert!(matches!(vad.frame(frame(0), false), VadEvent::End(None)));
}

#[test]
fn utterances_are_joined_with_a_space() {
    let mut full = String::new();
    match add_chunk(&mut full, "  Hello. \n") {
        ChunkStep::Deliver { insert } => assert_eq!(insert, "Hello. "),
        _ => panic!("not delivered"),
    }
    add_chunk(&mut full, "World.");
    assert_eq!(full, "Hello. World.");
    assert!(matches!(add_chunk(&mut full, " \t"), ChunkStep::Dismiss));
    assert_eq!(full, "Hello. World.");
    let mut spaced = "a ".to_string();
    add_chunk(&mut spaced, "b");
    assert_eq!(spaced, "a b");
}

#[test]
fn utterances_are_typed_pasted_or_copied() {
    assert!(chunk_done(true, false, true) == (DoneKind::Copied, false));
    assert!(chunk_done(false, true, true) == (DoneKind::Delivered, false));
    assert!(chunk_done(false, false, true) == (DoneKind::Delivered, true));
    assert!(chunk_done(false, false, false) == (DoneKind::Copied, false));
}

#[test]
fn the_user_is_told_where_nothing_listens() {
    assert_eq!(chunk_toast(false, false, true, true), Some("pasted"));
    assert_eq!(chunk_toast(false, false, true, false), Some("copied to clipboard"));
    assert_eq!(chunk_toast(false, false, false, true), Some("copied to clipboard"));
    assert_eq!(chunk_toast(false, true, true, true), None);
    assert_eq!(chunk_toast(true, false, true, true), None);
}

#[test]
fn the_whole_transcript_leaves_out_what_failed_or_is_blank() {
    let mut full = String::new();
    let results = [Ok(" One. "), Err("timeout"), Ok("  "), Ok("Two\n"), Ok("three")];
    let mut delivered = 0;
    for r in results {
        match settle_chunk(&mut full, r.map(str::to_string).map_err(str::to_string)) {
            ChunkStep::Deliver { .. } => delivered += 1,
            ChunkStep::Fail(e) => assert_eq!(e, "timeout"),
            ChunkStep::Dismiss => {}
        }
    }
    assert_eq!((full.as_str(), delivered), ("One. Two three", 3));
}

#[test]
fn each_utterance_ends_once_under_its_number() {
    let mut vad = Vad::new(RATE);
    let mut begun = Vec::new();
    let mut ended = Vec::new();
    for id in 10..13 {
        for _ in 0..20 {
            if let VadEvent::Begin = vad.frame(frame(100), true) {
                vad.number(id);
                begun.push(id);
            }
        }
        for _ in 0..SILENCE_THRESHOLD + 5 {
            if let VadEvent::End(Some(Utterance::Transcribe { seq, .. })) = vad.frame(frame(0), false) {
                ended.push(seq);
            }
        }
    }
    speak(&mut vad, DEBOUNCE_FRAMES);
    vad.number(13);
    begun.push(13);
    if let Some(Utterance::Dismiss { seq }) = vad.finish() {
        ended.push(seq);
    }
    assert_eq!(begun, [10, 11, 12, 13]);
    assert_eq!(ended, begun);
}
