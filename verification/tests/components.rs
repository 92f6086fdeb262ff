use parakeet_stt::app_state::{AppError, AppState};
use parakeet_stt::audio::{append_chunk, is_native, StubAudioCapture, MAX_SAMPLES, TARGET_SAMPLE_RATE};
use parakeet_stt::commands::{
    injection_status, start_recording_status, stop_capture_status, transcription_status,
    AppStateSnapshot, AppStatus,
};
use parakeet_stt::greet;
use parakeet_stt::hotkey::{HotkeyManager, StubHotkeyManager};
use parakeet_stt::http::{encode_multipart, split_response};
use parakeet_stt::text_injector::{paste_modifier, PasteModifier, TextInjector};
use parakeet_stt::wav::{encode_wav, encode_wav_header, WAV_HEADER_LEN};
use std::sync::atomic::{AtomicUsize, Ordering};
use std::sync::Arc;

#[test]
fn greet_formats_name() {
    assert_eq!(greet("Ada"), "Hello, Ada! You've been greeted from Rust!");
}

#[test]
fn stub_audio_capture_hands_back_one_second_of_silence() {
    let mut a = StubAudioCapture::new();
    assert!(!a.is_recording());
    assert!(a.start_recording().is_ok());
    assert!(a.is_recording());
    let samples = a.stop_recording(0.0f32).unwrap();
    assert!(!a.is_recording());
    assert_eq!(samples.len(), 16000);
    assert!(samples.iter().all(|&s| s == 0.0));
}

#[test]
fn native_devices() {
    assert!(is_native(16000, 1));
    assert!(!is_native(16000, 2));
    assert!(!is_native(48000, 1));
    assert_eq!(TARGET_SAMPLE_RATE, 16000);
    assert_eq!(MAX_SAMPLES, 960000);
}

#[test]
fn native_chunk_is_appended_whole() {
    let mut rec: Vec<f32> = vec![9.0];
    let mut phase = 0u32;
    append_chunk(&mut rec, &mut phase, &[1.0, 2.0, 3.0], true, 1, 16000);
    assert_eq!(rec, vec![9.0, 1.0, 2.0, 3.0]);
    assert_eq!(phase, 0);
}

#[test]
fn stereo_chunk_keeps_first_channel_decimated() {
    let mut rec: Vec<u32> = Vec::new();
    let mut phase = 0u32;
    // Interleaved stereo, frames (0,100) (1,101) ... (5,105) at 48 kHz:
    // every third frame of the first channel.
    let data: Vec<u32> = (0..6).flat_map(|i| vec![i, 100 + i]).collect();
    append_chunk(&mut rec, &mut phase, &data, false, 2, 48000);
    assert_eq!(rec, vec![0, 3]);
}

#[test]
fn whole_multiple_rate_restarts_with_each_chunk() {
    let mut rec: Vec<u32> = Vec::new();
    let mut phase = 0u32;
    append_chunk(&mut rec, &mut phase, &[0, 1, 2, 3, 4], false, 1, 48000);
    append_chunk(&mut rec, &mut phase, &[5, 6, 7, 8, 9], false, 1, 48000);
    assert_eq!(rec, vec![0, 3, 5, 8]);
    let mut rec32: Vec<u32> = Vec::new();
    append_chunk(&mut rec32, &mut phase, &[0, 1, 2, 3, 4], false, 1, 32000);
    assert_eq!(rec32, vec![0, 2, 4]);
}

#[test]
fn one_second_at_44100_becomes_16000_samples() {
    let mut rec: Vec<u32> = Vec::new();
    let mut phase = 0u32;
    let frames: Vec<u32> = (0..44100).collect();
    // Uneven buffers, as a device may deliver them.
    for chunk in frames.chunks(441 * 7 + 3) {
        append_chunk(&mut rec, &mut phase, chunk, false, 1, 44100);
    }
    assert_eq!(rec.len(), 16000);
    assert_eq!(phase, 0);
    assert!(rec.windows(2).all(|w| w[0] < w[1]));
}

#[test]
fn slower_device_frames_are_repeated() {
    let mut rec: Vec<u8> = Vec::new();
    let mut phase = 0u32;
    append_chunk(&mut rec, &mut phase, &[1, 2, 3], false, 1, 8000);
    assert_eq!(rec, vec![1, 1, 2, 2, 3, 3]);
}

#[test]
fn chunk_is_cut_at_the_cap() {
    let mut rec: Vec<u8> = vec![0; MAX_SAMPLES - 2];
    let mut phase = 0u32;
    append_chunk(&mut rec, &mut phase, &[1, 2, 3, 4], true, 1, 16000);
    assert_eq!(rec.len(), MAX_SAMPLES);
    assert_eq!(&rec[MAX_SAMPLES - 2..], &[1, 2]);
    append_chunk(&mut rec, &mut phase, &[5, 6], false, 1, 48000);
    assert_eq!(rec.len(), MAX_SAMPLES);
}

#[test]
fn snapshot_shows_state() {
    let mut s: AppState<f32> = AppState::new("http://127.0.0.1:8973", "auto");
    let snap = AppStateSnapshot::from_state(&s);
    assert_eq!(snap.state, "Idle");
    assert!(!snap.health_ok);
    assert_eq!(snap.last_transcription, None);
    assert_eq!(snap.last_error, None);
    s.set_server_health(false);
    s.transition_to_recording().unwrap();
    s.transition_to_recording().unwrap_err();
    s.transition_to_processing(vec![0.0]).unwrap();
    s.transition_to_text_injection("salut".into()).unwrap();
    let snap = AppStateSnapshot::from_state(&s);
    assert_eq!(snap.state, "TextInjection");
    assert_eq!(snap.last_transcription, Some("salut".to_string()));
    assert_eq!(snap.last_error, None);
    s.set_server_health(false);
    let snap = AppStateSnapshot::from_state(&s);
    assert_eq!(snap.last_error, Some("Server unreachable".to_string()));
    assert_eq!(AppError::ServerUnreachable.message(), "Server unreachable");
}

#[test]
fn status_default_is_idle() {
    assert!(matches!(AppStatus::default(), AppStatus::Idle));
}

#[test]
fn stop_with_empty_recording_is_discarded() {
    let mut status = AppStatus::default();
    start_recording_status(&mut status);
    assert!(matches!(status, AppStatus::Recording));
    assert!(!stop_capture_status(&mut status, 0));
    assert!(matches!(status, AppStatus::Idle));
}

#[test]
fn stop_with_short_recording_is_discarded() {
    let mut status = AppStatus::Recording;
    assert!(!stop_capture_status(&mut status, 1599));
    assert!(matches!(status, AppStatus::Idle));
    let mut status = AppStatus::Recording;
    assert!(stop_capture_status(&mut status, 1600));
    assert!(matches!(status, AppStatus::Processing));
}

#[test]
fn stop_with_failed_transcription_shows_error() {
    let mut status = AppStatus::Recording;
    assert!(stop_capture_status(&mut status, 16000));
    assert!(matches!(status, AppStatus::Processing));
    let r = transcription_status(&mut status, Err("server down".into()));
    assert_eq!(r, Err("server down".to_string()));
    assert!(matches!(status, AppStatus::Error(ref e) if e == "server down"));
}

#[test]
fn stop_with_successful_injection_returns_to_idle() {
    let mut status = AppStatus::Processing;
    let r = transcription_status(&mut status, Ok("hi".into()));
    assert_eq!(r, Ok(Some("hi".to_string())));
    assert!(matches!(status, AppStatus::Processing));
    assert_eq!(injection_status(&mut status, Ok(())), Ok(()));
    assert!(matches!(status, AppStatus::Idle));
}

#[test]
fn stop_with_empty_transcription_is_discarded() {
    let mut status = AppStatus::Processing;
    let r = transcription_status(&mut status, Ok(String::new()));
    assert_eq!(r, Ok(None));
    assert!(matches!(status, AppStatus::Idle));
}

#[test]
fn stop_with_failed_injection_stays_processing() {
    let mut status = AppStatus::Processing;
    assert_eq!(
        injection_status(&mut status, Err("no clipboard".into())),
        Err("no clipboard".to_string())
    );
    assert!(matches!(status, AppStatus::Processing));
}

#[test]
fn stub_hotkey_manager_fires_callbacks() {
    let presses = Arc::new(AtomicUsize::new(0));
    let releases = Arc::new(AtomicUsize::new(0));
    let mut m: StubHotkeyManager<Box<dyn Fn() + Send>> = StubHotkeyManager::new();
    m.simulate_press();
    assert_eq!(presses.load(Ordering::SeqCst), 0);
    let p = presses.clone();
    m.set_on_press(Box::new(move || {
        p.fetch_add(1, Ordering::SeqCst);
    }));
    let r = releases.clone();
    m.set_on_release(Box::new(move || {
        r.fetch_add(10, Ordering::SeqCst);
    }));
    m.simulate_press();
    m.simulate_press();
    m.simulate_release();
    assert_eq!(presses.load(Ordering::SeqCst), 2);
    assert_eq!(releases.load(Ordering::SeqCst), 10);
}

#[test]
fn stub_hotkey_manager_starts_once() {
    let mut m: StubHotkeyManager<fn()> = StubHotkeyManager::new();
    assert_eq!(m.start(), Ok(()));
    assert_eq!(m.start(), Err("Hotkey manager already started".to_string()));
    m.stop();
    assert_eq!(m.start(), Ok(()));
}

#[test]
fn paste_modifier_by_platform() {
    assert_eq!(paste_modifier(true), PasteModifier::Meta);
    assert_eq!(paste_modifier(false), PasteModifier::Control);
    let _injector = TextInjector::new();
}

#[test]
fn wav_header_bytes() {
    let h = encode_wav_header(2);
    assert_eq!(h.len(), WAV_HEADER_LEN);
    assert_eq!(&h[0..4], b"RIFF");
    assert_eq!(&h[4..8], &44u32.to_le_bytes());
    assert_eq!(&h[8..16], b"WAVEfmt ");
    assert_eq!(&h[16..20], &16u32.to_le_bytes());
    assert_eq!(&h[20..22], &3u16.to_le_bytes());
    assert_eq!(&h[22..24], &1u16.to_le_bytes());
    assert_eq!(&h[24..28], &16000u32.to_le_bytes());
    assert_eq!(&h[28..32], &64000u32.to_le_bytes());
    assert_eq!(&h[32..34], &4u16.to_le_bytes());
    assert_eq!(&h[34..36], &32u16.to_le_bytes());
    assert_eq!(&h[36..40], b"data");
    assert_eq!(&h[40..44], &8u32.to_le_bytes());
}

#[test]
fn wav_file_carries_float_samples() {
    let samples = [0.5f32, -1.0];
    let bits: Vec<u32> = samples.iter().map(|s| s.to_bits()).collect();
    let f = encode_wav(&bits);
    assert_eq!(f.len(), 44 + 8);
    assert_eq!(&f[44..48], &0.5f32.to_le_bytes());
    assert_eq!(&f[48..52], &(-1.0f32).to_le_bytes());
    assert_eq!(encode_wav(&[]).len(), 44);
}

#[test]
fn multipart_body_layout() {
    let body = encode_multipart("B", "fr", &[1, 2, 3]);
    let mut expected = Vec::new();
    expected.extend_from_slice(
        b"--B\r\nContent-Disposition: form-data; name=\"language\"\r\n\r\nfr\r\n--B\r\n\
Content-Disposition: form-data; name=\"audio\"; filename=\"audio.wav\"\r\n\
Content-Type: audio/wav\r\n\r\n",
    );
    expected.extend_from_slice(&[1, 2, 3]);
    expected.extend_from_slice(b"\r\n--B--\r\n");
    assert_eq!(body, expected);
}

#[test]
fn response_status_and_body() {
    let r = b"HTTP/1.1 200 OK\r\nContent-Type: application/json\r\n\r\n{\"text\":\"hi\"}";
    let (code, start) = split_response(r).unwrap();
    assert_eq!(code, 200);
    assert_eq!(&r[start..], b"{\"text\":\"hi\"}");
    assert_eq!(split_response(b"HTTP/1.1 503\r\n\r\n"), Some((503, 16)));
    assert_eq!(split_response(b"HTTP/1.1 200 OK\r\n"), None);
    assert_eq!(split_response(b"garbage\r\n\r\n"), None);
    assert_eq!(split_response(b"HTTP/1.1 2x0 OK\r\n\r\n"), None);
}
