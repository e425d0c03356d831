use dictate_desktop::audio::{
    audio_mime, choose_device, choose_format, duration_ms, encode_wav, is_silent, pcm_to_samples,
    samples_to_pcm, CaptureRange, DeviceChoice,
};
use dictate_desktop::session::{judge_capture, Capture};

#[test]
fn samples_survive_as_bytes() {
    let samples = vec![0, 1, -1, 255, 256, -256, i16::MAX, i16::MIN];
    let bytes = samples_to_pcm(&samples);
    let expected: Vec<u8> = samples.iter().flat_map(|s: &i16| s.to_le_bytes()).collect();
    assert_eq!(bytes, expected);
    assert_eq!(pcm_to_samples(&bytes), samples);
    assert_eq!(pcm_to_samples(&[1, 2, 3]), [0x0201]);
    assert!(pcm_to_samples(&[9]).is_empty());
}

#[test]
fn wav_files_have_a_header_of_44_bytes() {
    let samples = vec![1, -2, 300];
    let wav = encode_wav(&samples, 48000);
    assert_eq!(wav.len(), 44 + 6);
    assert_eq!(&wav[0..4], b"RIFF");
    assert_eq!(wav[4..8], 42u32.to_le_bytes());
    assert_eq!(&wav[8..16], b"WAVEfmt ");
    assert_eq!(wav[16..20], 16u32.to_le_bytes());
    assert_eq!(wav[20..22], 1u16.to_le_bytes());
    assert_eq!(wav[22..24], 1u16.to_le_bytes());
    assert_eq!(wav[24..28], 48000u32.to_le_bytes());
    assert_eq!(wav[28..32], 96000u32.to_le_bytes());
    assert_eq!(wav[32..34], 2u16.to_le_bytes());
    assert_eq!(wav[34..36], 16u16.to_le_bytes());
    assert_eq!(&wav[36..40], b"data");
    assert_eq!(wav[40..44], 6u32.to_le_bytes());
    assert_eq!(pcm_to_samples(&wav[44..]), samples);
    assert_eq!(encode_wav(&[], 16000).len(), 44);
}

#[test]
fn wav_files_are_read_by_other_programs() {
    let samples: Vec<i16> = (0..1000).map(|i| (i * 31 % 4000 - 2000) as i16).collect();
    let wav = encode_wav(&samples, 16000);
    let reader = hound::WavReader::new(std::io::Cursor::new(wav)).unwrap();
    assert_eq!(reader.spec().sample_rate, 16000);
    assert_eq!(reader.spec().channels, 1);
    let read: Vec<i16> = reader.into_samples::<i16>().map(|s| s.unwrap()).collect();
    assert_eq!(read, samples);
}

#[test]
fn mime_types_follow_the_extension() {
    assert_eq!(audio_mime(Some("flac")), "audio/flac");
    assert_eq!(audio_mime(Some("ogg")), "audio/ogg");
    assert_eq!(audio_mime(Some("oga")), "audio/ogg");
    assert_eq!(audio_mime(Some("mp3")), "audio/mpeg");
    assert_eq!(audio_mime(Some("wav")), "audio/wav");
    assert_eq!(audio_mime(Some("FLAC")), "audio/wav");
    assert_eq!(audio_mime(None), "audio/wav");
}

#[test]
fn durations_are_in_milliseconds() {
    assert_eq!(duration_ms(48000, 48000), 1000);
    assert_eq!(duration_ms(100, 16000), 6);
    assert_eq!(duration_ms(3, 0), 3000);
}

#[test]
fn silence_is_judged_by_the_mean_energy() {
    assert!(is_silent(&[]));
    assert!(is_silent(&[0; 100]));
    assert!(is_silent(&[11; 100]));
    assert!(!is_silent(&[12; 100]));
    assert!(!is_silent(&[-12, 12]));
    assert!(!is_silent(&[i16::MIN]));
    let mut click = vec![0i16; 10000];
    click[0] = 1000;
    assert!(is_silent(&click));
    click[1] = 700;
    assert!(!is_silent(&click));
}

#[test]
fn captures_are_dropped_or_timed() {
    assert!(judge_capture(&[3; 500], 16000) == Capture::Silent);
    assert!(judge_capture(&[900; 16000], 16000) == Capture::Spoken { duration_ms: 1000 });
    assert!(judge_capture(&[900; 10], 0) == Capture::Spoken { duration_ms: 0 });
}

fn range(channels: u16, is_float: bool, min_rate: u32, max_rate: u32) -> CaptureRange {
    CaptureRange { channels, is_float, min_rate, max_rate }
}

#[test]
fn the_preferred_rate_is_chosen() {
    let ranges = [range(1, true, 8000, 16000), range(1, true, 44100, 96000), range(2, true, 48000, 48000)];
    assert_eq!(choose_format(&ranges), Some((1, 48000)));
    let two = [range(1, true, 44100, 96000), range(1, true, 48000, 48000)];
    assert_eq!(choose_format(&two), Some((1, 48000)));
}

#[test]
fn else_the_nearest_rate_is_chosen() {
    assert_eq!(choose_format(&[range(1, true, 8000, 16000), range(1, true, 8000, 44100)]), Some((1, 44100)));
    assert_eq!(choose_format(&[range(1, true, 96000, 192000)]), Some((0, 96000)));
    assert_eq!(choose_format(&[range(2, true, 8000, 48000), range(1, false, 8000, 48000)]), None);
    assert_eq!(choose_format(&[]), None);
}

#[test]
fn devices_are_found_by_name() {
    let devices = [None, Some("Mic".to_string()), Some("USB".to_string()), Some("USB".to_string())];
    assert!(matches!(choose_device("", &devices), DeviceChoice::Default));
    assert!(matches!(choose_device("USB", &devices), DeviceChoice::At(2)));
    match choose_device("Line", &devices) {
        DeviceChoice::Missing(m) => assert_eq!(m, "input device 'Line' not found"),
        _ => panic!("found"),
    }
}
