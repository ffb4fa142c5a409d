# ChameleonVoice

A local server that captures speech, recognizes it, translates it line by line, and speaks the
translation with the voice of the speaker.

`src/` is the verified library. It decides everything that can be decided on plain values; it does
no I/O and never panics where its preconditions hold.

| module | what it holds |
| --- | --- |
| `text` | trimming, searching, ASCII case, decimal numbers |
| `config` | the settings, from the environment |
| `session` | whether a capture runs, and the voice of the speaker |
| `capture` | the capture program, the chunks it delivers, the layout of the worker pool |
| `speaker`, `wav` | the latest samples, WAV files and how they are joined |
| `asr`, `asr_laws` | reports of the workers, and the collector that puts them in order |
| `flat`, `lines`, `lines_laws` | the JSON lines and the frames of the event stream |
| `json`, `query` | JSON values and URL queries, with what is trusted of serde_json, urlencoding and url |
| `translate` | translation of the lines |
| `speech`, `speech_laws` | cutting a text into chunks to speak |
| `tts`, `tts_job`, `tts_laws` | the requests to the voice service, in turn |
| `playout` | the choice of an output device, frames, and the buffer between sender and device |

What other crates do is stated at the functions marked `#[verifier::external_body]`, at the
`assume_specification` items, and with the names declared `uninterp`.

`app/` is the program around it: HTTP handlers, the capture process, the recognizer, audio
streams and the popup window, and what computes in floating point.

Variables: `PORT`, `FFMPEG`, `FFMPEG_FORMAT`, `FFMPEG_DEVICE`, `SAMPLE_RATE`, `CHUNK_MS`,
`WHISPER_MODEL`, `WHISPER_THREADS`, `TRANSLATE_BASE`, `COQUI_BASE`, `COQUI_VOICE`,
`COQUI_SPEAKER_WAV`, `ENABLE_MULTI`, `VIRTUAL_AUDIO_DEVICE`. `COQUI_VOICE` is the default of the
voice that a request may name; the requests to the voice service carry the reference of the voice
and not its name.
