use parakeet_stt::app_state::{AppError, AppState, State};
use parakeet_stt::audio::StubAudioCapture;

fn make_state() -> AppState<f32> {
    AppState::new("http://127.0.0.1:8973", "auto")
}

/// Drives a hotkey press the way the controller does.
fn press(state: &mut AppState<f32>, audio: &mut StubAudioCapture) {
    if state.accept_press() {
        let started = audio.start_recording();
        state.accept_start(started);
    }
}

/// Drives a hotkey release the way the controller does, with `answer` as the
/// server's reply and `injected` as the injector's outcome.
fn release(
    state: &mut AppState<f32>,
    audio: &mut StubAudioCapture,
    answer: Result<String, String>,
    injected: &mut Vec<String>,
) {
    let stopped = audio.stop_recording(0.0f32);
    if state.accept_recording(stopped).is_none() {
        return;
    }
    if let Some(text) = state.accept_transcription(answer) {
        injected.push(text);
        state.transition_to_idle();
    }
}

#[test]
fn test_initial_state_is_idle() {
    let s = make_state();
    assert_eq!(s.state(), State::Idle);
    assert!(!s.is_health_ok());
    assert!(s.last_transcription().is_none());
    assert!(s.last_error().is_none());
}

#[test]
fn test_idle_to_recording() {
    let mut s = make_state();
    assert!(s.transition_to_recording().is_ok());
    assert_eq!(s.state(), State::Recording);
}

#[test]
fn test_recording_to_processing() {
    let mut s = make_state();
    s.transition_to_recording().unwrap();
    s.transition_to_processing(vec![0.0; 16000]).unwrap();
    assert_eq!(s.state(), State::Processing);
}

#[test]
fn test_processing_to_text_injection() {
    let mut s = make_state();
    s.transition_to_recording().unwrap();
    s.transition_to_processing(vec![0.0; 16000]).unwrap();
    s.transition_to_text_injection("hello world".into()).unwrap();
    assert_eq!(s.state(), State::TextInjection);
    assert_eq!(s.last_transcription(), Some("hello world"));
}

#[test]
fn test_full_cycle() {
    let mut s = make_state();
    s.transition_to_recording().unwrap();
    s.transition_to_processing(vec![0.0; 16000]).unwrap();
    s.transition_to_text_injection("test".into()).unwrap();
    s.transition_to_idle();
    assert_eq!(s.state(), State::Idle);
    assert_eq!(s.last_transcription(), Some("test"));
}

#[test]
fn test_empty_text_discarded() {
    let mut s = make_state();
    s.transition_to_recording().unwrap();
    s.transition_to_processing(vec![0.0; 16000]).unwrap();
    let result = s.transition_to_text_injection(String::new());
    assert!(result.is_err());
    assert_eq!(result.unwrap_err(), AppError::EmptyResult);
    assert_eq!(s.state(), State::Idle);
    assert!(s.last_transcription().is_none());
}

#[test]
fn test_invalid_transition_from_idle_to_processing() {
    let mut s = make_state();
    let result = s.transition_to_processing(vec![0.0; 16000]);
    assert!(result.is_err());
}

#[test]
fn test_server_health() {
    let mut s = make_state();
    assert!(!s.is_health_ok());
    s.set_server_health(true);
    assert!(s.is_health_ok());
    s.set_server_health(false);
    assert!(!s.is_health_ok());
    assert_eq!(s.last_error(), Some(&AppError::ServerUnreachable));
}

#[test]
fn test_double_recording_is_rejected() {
    let mut s = make_state();
    s.transition_to_recording().unwrap();
    let result = s.transition_to_recording();
    assert!(result.is_err());
}

#[test]
fn test_controller_hotkey_press_release_with_stubs() {
    let mut state = make_state();
    let mut audio = StubAudioCapture::new();
    let mut injected = Vec::new();

    press(&mut state, &mut audio);
    assert_eq!(state.state(), State::Recording);

    // No transcription server runs during the tests: the request fails.
    release(&mut state, &mut audio, Err("connection refused".into()), &mut injected);
    assert_eq!(state.state(), State::Idle);
}

#[test]
fn test_press_in_wrong_state_is_ignored() {
    let mut state = make_state();
    let mut audio = StubAudioCapture::new();
    let mut injected = Vec::new();

    press(&mut state, &mut audio);
    press(&mut state, &mut audio);
    assert_eq!(state.state(), State::Recording);

    release(&mut state, &mut audio, Err("connection refused".into()), &mut injected);
    assert_eq!(state.state(), State::Idle);
}

// ---------------------------------------------------------------------------
// Further cases
// ---------------------------------------------------------------------------

#[test]
fn refused_transitions_name_the_phase() {
    let mut s = make_state();
    s.transition_to_recording().unwrap();
    assert_eq!(
        s.transition_to_recording(),
        Err(AppError::TranscriptionError("Cannot start recording in state Recording".to_string()))
    );
    assert_eq!(
        s.transition_to_text_injection("x".into()),
        Err(AppError::TranscriptionError("Cannot inject in state Recording".to_string()))
    );
    assert_eq!(s.state(), State::Recording);
    let mut t = make_state();
    assert_eq!(
        t.transition_to_processing(vec![1.0]),
        Err(AppError::TranscriptionError("Cannot process in state Idle".to_string()))
    );
    assert_eq!(t.state(), State::Idle);
}

#[test]
fn error_messages() {
    assert_eq!(AppError::ServerUnreachable.message(), "Server unreachable");
    assert_eq!(
        AppError::TranscriptionError("boom".into()).message(),
        "Transcription error: boom"
    );
    assert_eq!(AppError::EmptyResult.message(), "Empty transcription result");
}

#[test]
fn state_names() {
    assert_eq!(State::Idle.name(), "Idle");
    assert_eq!(State::Recording.name(), "Recording");
    assert_eq!(State::Processing.name(), "Processing");
    assert_eq!(State::TextInjection.name(), "TextInjection");
}

#[test]
fn accessors_return_configuration() {
    let s = make_state();
    assert_eq!(s.server_url(), "http://127.0.0.1:8973");
    assert_eq!(s.language(), "auto");
    assert!(s.samples().is_empty());
}

#[test]
fn recording_clears_buffer_and_error() {
    let mut s = make_state();
    s.set_server_health(false);
    s.transition_to_recording().unwrap();
    s.transition_to_processing(vec![0.5, 0.25]).unwrap();
    assert_eq!(s.samples(), &vec![0.5, 0.25]);
    s.transition_to_text_injection(String::new()).unwrap_err();
    assert_eq!(s.last_error(), Some(&AppError::EmptyResult));
    // The empty discard keeps the buffer until the next recording.
    assert_eq!(s.samples().len(), 2);
    s.transition_to_recording().unwrap();
    assert!(s.samples().is_empty());
    assert!(s.last_error().is_none());
}

#[test]
fn release_with_text_injects_and_keeps_it() {
    let mut state = make_state();
    let mut audio = StubAudioCapture::new();
    let mut injected = Vec::new();
    press(&mut state, &mut audio);
    release(&mut state, &mut audio, Ok("bonjour".into()), &mut injected);
    assert_eq!(injected, vec!["bonjour".to_string()]);
    assert_eq!(state.state(), State::Idle);
    assert_eq!(state.last_transcription(), Some("bonjour"));
    assert!(state.samples().is_empty());
}

#[test]
fn release_with_empty_text_injects_nothing() {
    let mut state = make_state();
    let mut audio = StubAudioCapture::new();
    let mut injected = Vec::new();
    press(&mut state, &mut audio);
    release(&mut state, &mut audio, Ok(String::new()), &mut injected);
    assert!(injected.is_empty());
    assert_eq!(state.state(), State::Idle);
    assert_eq!(state.last_error(), Some(&AppError::EmptyResult));
}

#[test]
fn release_request_carries_server_and_language() {
    let mut state: AppState<f32> = AppState::new("http://host:1", "fr");
    assert!(state.accept_press());
    let req = state.accept_recording(Ok(vec![0.1; 1600]));
    assert_eq!(req, Some(("http://host:1".to_string(), "fr".to_string())));
    assert_eq!(state.state(), State::Processing);
    assert_eq!(state.samples().len(), 1600);
}

#[test]
fn release_after_failed_capture_returns_to_idle() {
    let mut state = make_state();
    assert!(state.accept_press());
    assert_eq!(state.accept_recording(Err("device lost".into())), None);
    assert_eq!(state.state(), State::Idle);
}

#[test]
fn release_outside_recording_is_ignored() {
    let mut state = make_state();
    assert_eq!(state.accept_recording(Ok(vec![0.0])), None);
    assert_eq!(state.state(), State::Idle);
    assert!(state.samples().is_empty());
}

#[test]
fn transcription_outside_processing_is_ignored() {
    let mut state = make_state();
    assert!(state.accept_press());
    assert_eq!(state.accept_transcription(Ok("late".into())), None);
    assert_eq!(state.state(), State::Recording);
}

#[test]
fn press_while_processing_is_ignored() {
    let mut state = make_state();
    assert!(state.accept_press());
    state.accept_recording(Ok(vec![0.0; 1600])).unwrap();
    assert!(!state.accept_press());
    assert_eq!(state.state(), State::Processing);
}

#[test]
fn health_check_outcomes() {
    let mut state = make_state();
    assert!(state.record_health(Ok(true)));
    assert!(state.is_health_ok());
    assert!(state.last_error().is_none());
    assert!(!state.record_health(Ok(false)));
    assert!(!state.is_health_ok());
    assert_eq!(state.last_error(), Some(&AppError::ServerUnreachable));
    assert!(state.record_health(Ok(true)));
    assert!(!state.record_health(Err("timeout".into())));
    assert!(!state.is_health_ok());
    assert_eq!(state.last_error(), Some(&AppError::ServerUnreachable));
}

#[test]
fn failed_transcription_is_recorded() {
    let mut state = make_state();
    let mut audio = StubAudioCapture::new();
    let mut injected = Vec::new();
    press(&mut state, &mut audio);
    release(&mut state, &mut audio, Err("server down".into()), &mut injected);
    assert!(injected.is_empty());
    assert_eq!(state.state(), State::Idle);
    assert_eq!(
        state.last_error(),
        Some(&AppError::TranscriptionError("server down".to_string()))
    );
    assert!(state.last_transcription().is_none());
}

#[test]
fn short_recording_is_discarded_silently() {
    let mut state = make_state();
    assert!(state.accept_press());
    assert_eq!(state.accept_recording(Ok(vec![0.0; 1599])), None);
    assert_eq!(state.state(), State::Idle);
    assert!(state.last_error().is_none());
    assert!(state.samples().is_empty());
}

#[test]
fn failed_start_returns_to_idle() {
    let mut state = make_state();
    assert!(state.accept_press());
    state.accept_start(Err("no microphone".into()));
    assert_eq!(state.state(), State::Idle);
    assert!(state.last_error().is_none());
    assert!(state.accept_press());
    state.accept_start(Ok(()));
    assert_eq!(state.state(), State::Recording);
}
