# parakeet-stt

The core of a push-to-talk speech-to-text desktop client, verified with Verus.

- `src/app_state.rs`: the recording state machine (`Idle -> Recording ->
  Processing -> TextInjection -> Idle`), its model `AppModel`, the decisions
  the hotkey controller takes between its awaits, and the laws over whole runs.
- `src/audio.rs`: how a device chunk is reduced to mono, resampled to 16 kHz
  and appended to the recording within the sixty-second cap, with laws over
  whole recordings; the stub capture device.
- `src/wav.rs`: the WAV file (16 kHz mono float32) a recording is sent as,
  and how it reads back.
- `src/http.rs`: the multipart upload body and the status line and body of a
  server response.
- `src/commands.rs`: the snapshot the interface is shown and the status steps
  of a recording stopped from the interface.
- `src/hotkey.rs`, `src/text_injector.rs`: the hotkey interface and its stub,
  the text injector and its paste shortcut.
- `app/`: the Tauri application, the asynchronous controller, the audio,
  clipboard and sound devices, and the HTTP client of the transcription server.
