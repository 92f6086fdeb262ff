//! The application's recording state machine.
//!
//! `AppState` walks `Idle -> Recording -> Processing -> TextInjection -> Idle`.
//! Every transition is specified by a spec function over `AppModel`, the
//! mathematical view of the state; the decisions that the hotkey controller
//! takes between its awaits (press, release, health check) are steps over the
//! same model, so that the laws below speak of whole runs.
use vstd::prelude::*;
use crate::audio::MIN_SAMPLES;

verus! {

/// The phase the application is in.
#[derive(Debug, Clone, Copy, PartialEq, Eq, Structural)]
pub enum State {
    Idle,
    Recording,
    Processing,
    TextInjection,
}

/// The name a phase is shown under (its `Debug` name).
pub open spec fn state_name(s: State) -> Seq<char> {
    match s {
        State::Idle => "Idle"@,
        State::Recording => "Recording"@,
        State::Processing => "Processing"@,
        State::TextInjection => "TextInjection"@,
    }
}

impl State {
    /// The name of the phase, as `{:?}` prints it.
    pub fn name(&self) -> (r: &'static str)
        ensures
            r@ == state_name(*self),
    {
        match self {
            State::Idle => "Idle",
            State::Recording => "Recording",
            State::Processing => "Processing",
            State::TextInjection => "TextInjection",
        }
    }
}

/// Errors of the recording cycle.
#[derive(Debug, Clone, PartialEq, Eq)]
pub enum AppError {
    ServerUnreachable,
    TranscriptionError(String),
    EmptyResult,
}

/// The mathematical view of an `AppError`.
pub enum AppErrorView {
    ServerUnreachable,
    TranscriptionError(Seq<char>),
    EmptyResult,
}

impl View for AppError {
    type V = AppErrorView;

    open spec fn view(&self) -> AppErrorView {
        match self {
            AppError::ServerUnreachable => AppErrorView::ServerUnreachable,
            AppError::TranscriptionError(msg) => AppErrorView::TranscriptionError(msg@),
            AppError::EmptyResult => AppErrorView::EmptyResult,
        }
    }
}

/// The text an error is displayed with.
pub open spec fn error_message(e: AppErrorView) -> Seq<char> {
    match e {
        AppErrorView::ServerUnreachable => "Server unreachable"@,
        AppErrorView::TranscriptionError(msg) => "Transcription error: "@ + msg,
        AppErrorView::EmptyResult => "Empty transcription result"@,
    }
}

impl AppError {
    /// The text the error is displayed with.
    pub fn message(&self) -> (r: String)
        ensures
            r@ == error_message(self@),
    {
        match self {
            AppError::ServerUnreachable => String::from_str("Server unreachable"),
            AppError::TranscriptionError(msg) => {
                String::from_str("Transcription error: ").concat(msg.as_str())
            },
            AppError::EmptyResult => String::from_str("Empty transcription result"),
        }
    }
}

/// The error a transition refused in phase `st` answers with.
pub open spec fn refusal(prefix: Seq<char>, st: State) -> AppErrorView {
    AppErrorView::TranscriptionError(prefix + state_name(st))
}

fn refusal_error(prefix: &str, st: State) -> (r: AppError)
    ensures
        r@ == refusal(prefix@, st),
{
    AppError::TranscriptionError(String::from_str(prefix).concat(st.name()))
}

pub open spec fn opt_string_view(o: Option<String>) -> Option<Seq<char>> {
    match o {
        Some(s) => Some(s@),
        None => None,
    }
}

pub open spec fn opt_error_view(o: Option<AppError>) -> Option<AppErrorView> {
    match o {
        Some(e) => Some(e@),
        None => None,
    }
}

pub open spec fn unit_result_view(r: Result<(), AppError>) -> Result<(), AppErrorView> {
    match r {
        Ok(()) => Ok(()),
        Err(e) => Err(e@),
    }
}

pub open spec fn string_result_view(r: Result<String, String>) -> Result<Seq<char>, Seq<char>> {
    match r {
        Ok(t) => Ok(t@),
        Err(e) => Err(e@),
    }
}

pub open spec fn unit_string_result_view(r: Result<(), String>) -> Result<(), Seq<char>> {
    match r {
        Ok(()) => Ok(()),
        Err(e) => Err(e@),
    }
}

pub open spec fn bool_result_view(r: Result<bool, String>) -> Result<bool, Seq<char>> {
    match r {
        Ok(b) => Ok(b),
        Err(e) => Err(e@),
    }
}

pub open spec fn samples_result_view<S>(r: Result<Vec<S>, String>) -> Result<Seq<S>, Seq<char>> {
    match r {
        Ok(v) => Ok(v@),
        Err(e) => Err(e@),
    }
}

pub open spec fn opt_pair_view(o: Option<(String, String)>) -> Option<(Seq<char>, Seq<char>)> {
    match o {
        Some((a, b)) => Some((a@, b@)),
        None => None,
    }
}

/// The mathematical model of `AppState`.
pub struct AppModel<S> {
    pub state: State,
    pub server_url: Seq<char>,
    pub language: Seq<char>,
    pub samples: Seq<S>,
    pub last_transcription: Option<Seq<char>>,
    pub last_error: Option<AppErrorView>,
    pub health_ok: bool,
}

impl<S> AppModel<S> {
    /// A fresh state for the given server and language.
    pub open spec fn initial(server_url: Seq<char>, language: Seq<char>) -> Self {
        AppModel {
            state: State::Idle,
            server_url,
            language,
            samples: Seq::empty(),
            last_transcription: None,
            last_error: None,
            health_ok: false,
        }
    }

    /// Recording the outcome of a health check.
    pub open spec fn with_server_health(self, ok: bool) -> Self {
        AppModel {
            health_ok: ok,
            last_error: if ok { self.last_error } else { Some(AppErrorView::ServerUnreachable) },
            ..self
        }
    }

    /// `Idle -> Recording`: the buffer and the last error are cleared.
    pub open spec fn start_recording(self) -> (Self, Result<(), AppErrorView>) {
        if self.state != State::Idle {
            (self, Err(refusal("Cannot start recording in state "@, self.state)))
        } else {
            (
                AppModel {
                    state: State::Recording,
                    samples: Seq::empty(),
                    last_error: None,
                    ..self
                },
                Ok(()),
            )
        }
    }

    /// `Recording -> Processing`: the captured samples are kept.
    pub open spec fn begin_processing(self, samples: Seq<S>) -> (Self, Result<(), AppErrorView>) {
        if self.state != State::Recording {
            (self, Err(refusal("Cannot process in state "@, self.state)))
        } else {
            (AppModel { state: State::Processing, samples, ..self }, Ok(()))
        }
    }

    /// `Processing -> TextInjection` for a non-empty text; an empty text is
    /// discarded and the state falls back to `Idle`.
    pub open spec fn begin_injection(self, text: Seq<char>) -> (Self, Result<(), AppErrorView>) {
        if self.state != State::Processing {
            (self, Err(refusal("Cannot inject in state "@, self.state)))
        } else if text.len() == 0 {
            (
                AppModel {
                    state: State::Idle,
                    last_error: Some(AppErrorView::EmptyResult),
                    ..self
                },
                Err(AppErrorView::EmptyResult),
            )
        } else {
            (
                AppModel { state: State::TextInjection, last_transcription: Some(text), ..self },
                Ok(()),
            )
        }
    }

    /// `* -> Idle`: the buffer is cleared.
    pub open spec fn return_to_idle(self) -> Self {
        AppModel { state: State::Idle, samples: Seq::empty(), ..self }
    }

    /// A hotkey press: honoured only in `Idle`, where it starts a recording.
    pub open spec fn press(self) -> (Self, bool) {
        if self.state != State::Idle {
            (self, false)
        } else {
            (self.start_recording().0, true)
        }
    }

    /// The outcome of starting the audio capture after a press: a failed
    /// start returns to `Idle`; a started capture leaves the state as it is.
    pub open spec fn accept_start(self, started: Result<(), Seq<char>>) -> Self {
        match started {
            Ok(()) => self,
            Err(_) => self.return_to_idle(),
        }
    }

    /// A hotkey release, once the audio capture has stopped: a failed capture
    /// returns to `Idle`; a capture taken while `Recording` that is shorter
    /// than `MIN_SAMPLES` (a tenth of a second) is discarded silently,
    /// returning to `Idle`; a longer one moves to `Processing` and asks for a
    /// transcription at the server and language of the state; in any other
    /// phase the release is ignored.
    pub open spec fn accept_recording(self, stopped: Result<Seq<S>, Seq<char>>) -> (
        Self,
        Option<(Seq<char>, Seq<char>)>,
    ) {
        match stopped {
            Err(_) => (self.return_to_idle(), None),
            Ok(samples) => {
                if self.state != State::Recording {
                    (self, None)
                } else if samples.len() < MIN_SAMPLES {
                    (self.return_to_idle(), None)
                } else {
                    (self.begin_processing(samples).0, Some((self.server_url, self.language)))
                }
            },
        }
    }

    /// The server's answer to a transcription request: a failure returns to
    /// `Idle` with the failure recorded as the last error; a text received while `Processing` is handed to the injector
    /// unless it is empty, in which case it is discarded; in any other phase
    /// the answer is ignored.
    pub open spec fn accept_transcription(self, answer: Result<Seq<char>, Seq<char>>) -> (
        Self,
        Option<Seq<char>>,
    ) {
        match answer {
            Err(e) => (
                AppModel {
                    last_error: Some(AppErrorView::TranscriptionError(e)),
                    ..self.return_to_idle()
                },
                None,
            ),
            Ok(text) => {
                if self.state != State::Processing {
                    (self, None)
                } else {
                    let (next, r) = self.begin_injection(text);
                    (next, if r is Ok { Some(text) } else { None })
                }
            },
        }
    }

    /// A health check's outcome: a failed check counts as an unhealthy server.
    pub open spec fn record_health(self, outcome: Result<bool, Seq<char>>) -> (Self, bool) {
        match outcome {
            Ok(ok) => (self.with_server_health(ok), ok),
            Err(_) => (self.with_server_health(false), false),
        }
    }

    /// What every reachable state satisfies.
    pub open spec fn well_formed(self) -> bool {
        &&& self.state == State::Recording ==> self.samples.len() == 0
        &&& self.state == State::TextInjection ==> self.last_transcription is Some
        &&& self.last_transcription matches Some(t) ==> t.len() > 0
    }
}

/// The state of the recording cycle; `S` is the type of an audio sample.
pub struct AppState<S> {
    state: State,
    server_url: String,
    language: String,
    samples: Vec<S>,
    last_transcription: Option<String>,
    last_error: Option<AppError>,
    health_ok: bool,
}

impl<S> View for AppState<S> {
    type V = AppModel<S>;

    closed spec fn view(&self) -> AppModel<S> {
        AppModel {
            state: self.state,
            server_url: self.server_url@,
            language: self.language@,
            samples: self.samples@,
            last_transcription: opt_string_view(self.last_transcription),
            last_error: opt_error_view(self.last_error),
            health_ok: self.health_ok,
        }
    }
}

impl<S> AppState<S> {
    pub fn new(server_url: &str, language: &str) -> (r: Self)
        ensures
            r@ == AppModel::<S>::initial(server_url@, language@),
    {
        AppState {
            state: State::Idle,
            server_url: String::from_str(server_url),
            language: String::from_str(language),
            samples: Vec::new(),
            last_transcription: None,
            last_error: None,
            health_ok: false,
        }
    }

    pub fn state(&self) -> (r: State)
        ensures
            r == self@.state,
    {
        self.state
    }

    pub fn is_health_ok(&self) -> (r: bool)
        ensures
            r == self@.health_ok,
    {
        self.health_ok
    }

    pub fn last_transcription(&self) -> (r: Option<&str>)
        ensures
            match r {
                Some(t) => self@.last_transcription == Some(t@),
                None => self@.last_transcription is None,
            },
    {
        match &self.last_transcription {
            Some(t) => Some(t.as_str()),
            None => None,
        }
    }

    pub fn last_error(&self) -> (r: Option<&AppError>)
        ensures
            match r {
                Some(e) => self@.last_error == Some(e@),
                None => self@.last_error is None,
            },
    {
        self.last_error.as_ref()
    }

    pub fn server_url(&self) -> (r: &str)
        ensures
            r@ == self@.server_url,
    {
        self.server_url.as_str()
    }

    pub fn language(&self) -> (r: &str)
        ensures
            r@ == self@.language,
    {
        self.language.as_str()
    }

    /// The samples of the current recording.
    pub fn samples(&self) -> (r: &Vec<S>)
        ensures
            r@ == self@.samples,
    {
        &self.samples
    }

    pub fn set_server_health(&mut self, ok: bool)
        ensures
            final(self)@ == old(self)@.with_server_health(ok),
    {
        self.health_ok = ok;
        if !ok {
            self.last_error = Some(AppError::ServerUnreachable);
        }
    }

    pub fn transition_to_recording(&mut self) -> (r: Result<(), AppError>)
        ensures
            (final(self)@, unit_result_view(r)) == old(self)@.start_recording(),
    {
        if self.state != State::Idle {
            return Err(refusal_error("Cannot start recording in state ", self.state));
        }
        self.state = State::Recording;
        self.samples.clear();
        self.last_error = None;
        Ok(())
    }

    pub fn transition_to_processing(&mut self, samples: Vec<S>) -> (r: Result<(), AppError>)
        ensures
            (final(self)@, unit_result_view(r)) == old(self)@.begin_processing(samples@),
    {
        if self.state != State::Recording {
            return Err(refusal_error("Cannot process in state ", self.state));
        }
        self.samples = samples;
        self.state = State::Processing;
        Ok(())
    }

    pub fn transition_to_text_injection(&mut self, text: String) -> (r: Result<(), AppError>)
        ensures
            (final(self)@, unit_result_view(r)) == old(self)@.begin_injection(text@),
    {
        if self.state != State::Processing {
            return Err(refusal_error("Cannot inject in state ", self.state));
        }
        if text.as_str().is_empty() {
            self.state = State::Idle;
            self.last_error = Some(AppError::EmptyResult);
            return Err(AppError::EmptyResult);
        }
        self.last_transcription = Some(text);
        self.state = State::TextInjection;
        Ok(())
    }

    pub fn transition_to_idle(&mut self)
        ensures
            final(self)@ == old(self)@.return_to_idle(),
    {
        self.state = State::Idle;
        self.samples.clear();
    }

    /// The decision on a hotkey press; `true` asks the caller to start the
    /// audio capture.
    pub fn accept_press(&mut self) -> (r: bool)
        ensures
            (final(self)@, r) == old(self)@.press(),
    {
        if self.state != State::Idle {
            return false;
        }
        match self.transition_to_recording() {
            Ok(()) => true,
            Err(_) => false,
        }
    }

    /// The decision once the audio capture has been asked to start after an
    /// accepted press.
    pub fn accept_start(&mut self, started: Result<(), String>)
        ensures
            final(self)@ == old(self)@.accept_start(unit_string_result_view(started)),
    {
        if started.is_err() {
            self.transition_to_idle();
        }
    }

    /// The decision once the audio capture of a release has stopped; `Some`
    /// carries the server address and the language of the transcription the
    /// caller is to request.
    pub fn accept_recording(&mut self, stopped: Result<Vec<S>, String>) -> (r: Option<(String, String)>)
        ensures
            (final(self)@, opt_pair_view(r)) == old(self)@.accept_recording(samples_result_view(stopped)),
    {
        match stopped {
            Err(_) => {
                self.transition_to_idle();
                None
            },
            Ok(samples) => {
                if self.state != State::Recording {
                    return None;
                }
                if samples.len() < MIN_SAMPLES {
                    self.transition_to_idle();
                    return None;
                }
                match self.transition_to_processing(samples) {
                    Ok(()) => Some((self.server_url.clone(), self.language.clone())),
                    Err(_) => {
                        self.transition_to_idle();
                        None
                    },
                }
            },
        }
    }

    /// The decision on the server's answer; `Some` carries the text the
    /// caller is to inject, after which it calls `transition_to_idle`.
    pub fn accept_transcription(&mut self, answer: Result<String, String>) -> (r: Option<String>)
        ensures
            (final(self)@, opt_string_view(r)) == old(self)@.accept_transcription(string_result_view(answer)),
    {
        match answer {
            Err(e) => {
                self.transition_to_idle();
                self.last_error = Some(AppError::TranscriptionError(e));
                None
            },
            Ok(text) => {
                if self.state != State::Processing {
                    return None;
                }
                match self.transition_to_text_injection(text.clone()) {
                    Ok(()) => Some(text),
                    Err(AppError::EmptyResult) => None,
                    Err(_) => {
                        self.transition_to_idle();
                        None
                    },
                }
            },
        }
    }

    /// Records the outcome of a health check and returns whether the server
    /// is healthy.
    pub fn record_health(&mut self, outcome: Result<bool, String>) -> (r: bool)
        ensures
            (final(self)@, r) == old(self)@.record_health(bool_result_view(outcome)),
    {
        match outcome {
            Ok(ok) => {
                self.set_server_health(ok);
                ok
            },
            Err(_) => {
                self.set_server_health(false);
                false
            },
        }
    }
}

/// A fresh state is well formed.
pub proof fn lemma_initial_well_formed<S>(server_url: Seq<char>, language: Seq<char>)
    ensures
        AppModel::<S>::initial(server_url, language).well_formed(),
{
}

/// Every transition, and every controller decision, keeps a state well
/// formed: a recording starts with an empty buffer, a state that is injecting
/// text has a transcription, and a kept transcription is never empty.
pub proof fn lemma_steps_preserve_well_formed<S>(
    m: AppModel<S>,
    samples: Seq<S>,
    text: Seq<char>,
    ok: bool,
    started: Result<(), Seq<char>>,
    stopped: Result<Seq<S>, Seq<char>>,
    answer: Result<Seq<char>, Seq<char>>,
    outcome: Result<bool, Seq<char>>,
)
    requires
        m.well_formed(),
    ensures
        m.with_server_health(ok).well_formed(),
        m.start_recording().0.well_formed(),
        m.begin_processing(samples).0.well_formed(),
        m.begin_injection(text).0.well_formed(),
        m.return_to_idle().well_formed(),
        m.press().0.well_formed(),
        m.accept_start(started).well_formed(),
        m.accept_recording(stopped).0.well_formed(),
        m.accept_transcription(answer).0.well_formed(),
        m.record_health(outcome).0.well_formed(),
{
}

/// A refused transition leaves the state as it was; the one exception is an
/// empty transcription, which is discarded by falling back to `Idle`.
pub proof fn lemma_refused_transition_changes_nothing<S>(
    m: AppModel<S>,
    samples: Seq<S>,
    text: Seq<char>,
)
    ensures
        m.start_recording().1 is Err ==> m.start_recording().0 == m,
        m.begin_processing(samples).1 is Err ==> m.begin_processing(samples).0 == m,
        m.begin_injection(text).1 is Err ==> {
            ||| m.begin_injection(text).0 == m
            ||| {
                &&& m.state == State::Processing
                &&& text.len() == 0
                &&& m.begin_injection(text).1 == Err::<(), AppErrorView>(AppErrorView::EmptyResult)
                &&& m.begin_injection(text).0 == AppModel {
                    state: State::Idle,
                    last_error: Some(AppErrorView::EmptyResult),
                    ..m
                }
            }
        },
{
}

/// The phases can only be entered in order: recording from `Idle`,
/// processing from `Recording`, injection from `Processing`.
pub proof fn lemma_transitions_follow_the_cycle<S>(m: AppModel<S>, samples: Seq<S>, text: Seq<char>)
    ensures
        m.start_recording().1 is Ok <==> m.state == State::Idle,
        m.begin_processing(samples).1 is Ok <==> m.state == State::Recording,
        m.begin_injection(text).1 is Ok <==> (m.state == State::Processing && text.len() > 0),
{
}

/// A full cycle from `Idle` with a non-empty transcription succeeds at every
/// step, ends in `Idle` with an empty buffer, and keeps the transcription.
pub proof fn lemma_full_cycle<S>(m: AppModel<S>, samples: Seq<S>, text: Seq<char>)
    requires
        m.state == State::Idle,
        text.len() > 0,
    ensures
        ({
            let (m1, r1) = m.start_recording();
            let (m2, r2) = m1.begin_processing(samples);
            let (m3, r3) = m2.begin_injection(text);
            let m4 = m3.return_to_idle();
            &&& r1 is Ok && r2 is Ok && r3 is Ok
            &&& m1.state == State::Recording
            &&& m2.state == State::Processing && m2.samples == samples
            &&& m3.state == State::TextInjection
            &&& m4.state == State::Idle
            &&& m4.samples.len() == 0
            &&& m4.last_transcription == Some(text)
            &&& m4.last_error is None
            &&& m4.server_url == m.server_url && m4.language == m.language
            &&& m4.health_ok == m.health_ok
        }),
{
}

/// A press is honoured only in `Idle`: a second press while recording is
/// ignored, so one press never starts two recordings.
pub proof fn lemma_press_only_from_idle<S>(m: AppModel<S>)
    ensures
        m.state != State::Idle ==> m.press() == (m, false),
        m.state == State::Idle ==> ({
            let (m1, b1) = m.press();
            let (m2, b2) = m1.press();
            &&& b1 && m1.state == State::Recording
            &&& !b2 && m2 == m1
        }),
{
}

/// Whether a stopped capture holds a recording long enough to transcribe.
pub open spec fn long_enough<S>(stopped: Result<Seq<S>, Seq<char>>) -> bool {
    stopped matches Ok(v) && v.len() >= MIN_SAMPLES
}

/// Handling a release from `Recording` always brings the application back to
/// `Idle`, whatever the audio capture, the server and the injector report. A
/// recording shorter than a tenth of a second is discarded silently, with no
/// request and no error; with a longer recording and a non-empty
/// transcription, that text is the one injected and kept; a failed
/// transcription is recorded as the last error and nothing is injected.
pub proof fn lemma_release_ends_idle<S>(
    m: AppModel<S>,
    stopped: Result<Seq<S>, Seq<char>>,
    answer: Result<Seq<char>, Seq<char>>,
)
    requires
        m.state == State::Recording,
    ensures
        ({
            let (m1, request) = m.accept_recording(stopped);
            let (m2, inject) = m1.accept_transcription(answer);
            let done = if request is Some {
                if inject is Some { m2.return_to_idle() } else { m2 }
            } else {
                m1
            };
            &&& done.state == State::Idle
            &&& (request is Some <==> long_enough(stopped))
            &&& (long_enough(stopped) ==> request == Some((m.server_url, m.language)))
            &&& (stopped is Ok && !long_enough(stopped)) ==> {
                &&& done.last_error == m.last_error
                &&& done.last_transcription == m.last_transcription
            }
            &&& long_enough(stopped) ==> match answer {
                Ok(t) => {
                    &&& t.len() > 0 ==> inject == Some(t) && done.last_transcription == Some(t)
                    &&& t.len() == 0 ==> {
                        &&& inject is None
                        &&& done.last_error == Some(AppErrorView::EmptyResult)
                        &&& done.last_transcription == m.last_transcription
                    }
                },
                Err(e) => {
                    &&& inject is None
                    &&& done.last_error == Some(AppErrorView::TranscriptionError(e))
                    &&& done.last_transcription == m.last_transcription
                },
            }
        }),
{
}

/// A release that arrives outside `Recording` with a captured recording
/// changes nothing and requests nothing: in particular a second release
/// while a transcription is pending leaves the state `Processing`, so that
/// the pending answer is still handed to the injector.
pub proof fn lemma_release_outside_recording_ignored<S>(
    m: AppModel<S>,
    samples: Seq<S>,
    answer: Seq<char>,
)
    requires
        m.state != State::Recording,
    ensures
        m.accept_recording(Ok(samples)) == (m, None::<(Seq<char>, Seq<char>)>),
        m.state == State::Processing && answer.len() > 0 ==> m.accept_recording(
            Ok(samples),
        ).0.accept_transcription(Ok(answer)).1 == Some(answer),
{
}

/// A press from `Idle` followed by the start of the audio capture: a started
/// capture leaves the application `Recording`, a failed start returns it to
/// `Idle`; either way with no error recorded and the transcription, health
/// flag, server and language unchanged.
pub proof fn lemma_press_then_start<S>(m: AppModel<S>, started: Result<(), Seq<char>>)
    requires
        m.state == State::Idle,
    ensures
        ({
            let (m1, go) = m.press();
            let m2 = m1.accept_start(started);
            &&& go
            &&& (started is Ok ==> m2.state == State::Recording)
            &&& (started is Err ==> m2.state == State::Idle)
            &&& m2.last_error is None
            &&& m2.samples.len() == 0
            &&& m2.last_transcription == m.last_transcription
            &&& m2.health_ok == m.health_ok
            &&& m2.server_url == m.server_url
            &&& m2.language == m.language
        }),
{
}

/// A health check's outcome is what `is_health_ok` reads back, and an
/// unhealthy server is reported as the last error.
pub proof fn lemma_health_read_back<S>(m: AppModel<S>, outcome: Result<bool, Seq<char>>)
    ensures
        ({
            let (m1, healthy) = m.record_health(outcome);
            &&& healthy == (outcome == Ok::<bool, Seq<char>>(true))
            &&& m1.health_ok == healthy
            &&& !healthy ==> m1.last_error == Some(AppErrorView::ServerUnreachable)
            &&& healthy ==> m1.last_error == m.last_error
            &&& m1.state == m.state && m1.samples == m.samples
        }),
{
}

} // verus!
