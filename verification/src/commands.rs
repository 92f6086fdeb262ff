//! What the user interface is shown and the status it follows while a
//! recording started from the interface is stopped, transcribed and injected.
use vstd::prelude::*;
use crate::audio::MIN_SAMPLES;
use crate::app_state::{AppModel, AppState, AppErrorView, error_message, opt_string_view, state_name};

verus! {

/// What the interface is shown of the application state.
pub struct AppStateSnapshot {
    pub state: String,
    pub health_ok: bool,
    pub last_transcription: Option<String>,
    pub last_error: Option<String>,
}

pub open spec fn opt_message(e: Option<AppErrorView>) -> Option<Seq<char>> {
    match e {
        Some(e) => Some(error_message(e)),
        None => None,
    }
}

impl AppStateSnapshot {
    /// Whether this snapshot shows the model `m`: the phase by name, the
    /// health flag, the last transcription and the last error's text.
    pub open spec fn shows<S>(self, m: AppModel<S>) -> bool {
        &&& self.state@ == state_name(m.state)
        &&& self.health_ok == m.health_ok
        &&& opt_string_view(self.last_transcription) == m.last_transcription
        &&& opt_string_view(self.last_error) == opt_message(m.last_error)
    }

    /// The snapshot of an application state.
    pub fn from_state<S>(s: &AppState<S>) -> (r: AppStateSnapshot)
        ensures
            r.shows(s@),
    {
        let state = String::from_str(s.state().name());
        let last_transcription = match s.last_transcription() {
            Some(t) => Some(String::from_str(t)),
            None => None,
        };
        let last_error = match s.last_error() {
            Some(e) => Some(e.message()),
            None => None,
        };
        AppStateSnapshot { state, health_ok: s.is_health_ok(), last_transcription, last_error }
    }
}

/// The status the interface shows.
#[derive(Debug, Clone)]
pub enum AppStatus {
    Idle,
    Recording,
    Processing,
    Error(String),
}

impl Default for AppStatus {
    fn default() -> (r: Self)
        ensures
            r == AppStatus::Idle,
    {
        AppStatus::Idle
    }
}

/// Once the capture has stopped: a recording shorter than `MIN_SAMPLES` (a
/// tenth of a second, an empty one included) is discarded silently (`Idle`);
/// otherwise the recording goes to the server (`Processing`).
pub open spec fn status_after_capture(status: AppStatus, n_samples: nat) -> (AppStatus, bool) {
    if n_samples < MIN_SAMPLES {
        (AppStatus::Idle, false)
    } else {
        (AppStatus::Processing, true)
    }
}

/// Once the server has answered: a failure is shown as the error and
/// returned; an empty text is discarded silently (`Idle`, nothing to inject);
/// any other text is handed on to the injector.
pub open spec fn status_after_transcription(status: AppStatus, answer: Result<String, String>) -> (
    AppStatus,
    Result<Option<String>, String>,
) {
    match answer {
        Ok(text) => if text@.len() == 0 {
            (AppStatus::Idle, Ok(None))
        } else {
            (status, Ok(Some(text)))
        },
        Err(e) => (AppStatus::Error(e), Err(e)),
    }
}

/// Once the injector has run: success returns to `Idle`; a failure is
/// returned and leaves the status as it was.
pub open spec fn status_after_injection(status: AppStatus, injected: Result<(), String>) -> (
    AppStatus,
    Result<(), String>,
) {
    match injected {
        Ok(()) => (AppStatus::Idle, Ok(())),
        Err(e) => (status, Err(e)),
    }
}

/// The status when a recording starts.
pub fn start_recording_status(status: &mut AppStatus)
    ensures
        *final(status) == AppStatus::Recording,
{
    *status = AppStatus::Recording;
}

/// Updates the status once the capture has stopped with `n_samples`
/// samples; `true` asks the caller to request the transcription.
pub fn stop_capture_status(status: &mut AppStatus, n_samples: usize) -> (r: bool)
    ensures
        (*final(status), r) == status_after_capture(*old(status), n_samples as nat),
{
    if n_samples < MIN_SAMPLES {
        *status = AppStatus::Idle;
        false
    } else {
        *status = AppStatus::Processing;
        true
    }
}

/// Updates the status with the server's answer; `Ok(Some(text))` is the
/// text to inject, `Ok(None)` an empty answer that was discarded.
pub fn transcription_status(status: &mut AppStatus, answer: Result<String, String>) -> (r: Result<
    Option<String>,
    String,
>)
    ensures
        (*final(status), r) == status_after_transcription(*old(status), answer),
{
    match answer {
        Ok(text) => {
            if text.as_str().is_empty() {
                *status = AppStatus::Idle;
                Ok(None)
            } else {
                Ok(Some(text))
            }
        },
        Err(e) => {
            *status = AppStatus::Error(e.clone());
            Err(e)
        },
    }
}

/// Updates the status with the injector's outcome and hands it back.
pub fn injection_status(status: &mut AppStatus, injected: Result<(), String>) -> (r: Result<(), String>)
    ensures
        (*final(status), r) == status_after_injection(*old(status), injected),
{
    match injected {
        Ok(()) => {
            *status = AppStatus::Idle;
            Ok(())
        },
        Err(e) => Err(e),
    }
}

/// Stopping a recording never leaves the interface showing `Recording`: a
/// recording shorter than a tenth of a second ends `Idle` without a
/// transcription, a failed
/// transcription ends showing its error, an empty transcription ends `Idle`
/// without an injection, a successful injection ends `Idle`, and only a
/// failed injection stays `Processing`.
pub proof fn lemma_stop_settles(
    status: AppStatus,
    n_samples: nat,
    answer: Result<String, String>,
    injected: Result<(), String>,
)
    ensures
        ({
            let (s1, go) = status_after_capture(status, n_samples);
            let (s2, a) = status_after_transcription(s1, answer);
            let (s3, done) = status_after_injection(s2, injected);
            let inject = a matches Ok(Some(_));
            let last = if !go { s1 } else if !inject { s2 } else { s3 };
            &&& !(last is Recording)
            &&& n_samples < MIN_SAMPLES ==> !go && last is Idle
            &&& n_samples >= MIN_SAMPLES ==> go && match answer {
                Err(e) => last == AppStatus::Error(e) && !inject,
                Ok(t) => if t@.len() == 0 {
                    last is Idle && !inject && a == Ok::<Option<String>, String>(None)
                } else {
                    &&& a == Ok::<Option<String>, String>(Some(t))
                    &&& if injected is Ok { last is Idle } else { last is Processing }
                },
            }
        }),
{
}

} // verus!
