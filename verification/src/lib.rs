//! Live capture, recognition and translation of speech, spoken again with the voice of the
//! speaker: everything that is decided on plain values.
pub mod text;
pub mod text_laws;
pub mod config;
pub mod session;
pub mod capture;
pub mod capture_laws;
pub mod speaker;
pub mod wav;
pub mod wav_laws;
pub mod asr;
pub mod asr_laws;
pub mod flat;
pub mod lines;
pub mod lines_laws;
pub mod json;
pub mod query;
pub mod translate;
pub mod translate_laws;
pub mod speech;
pub mod speech_laws;
pub mod chunk_laws;
pub mod tts;
pub mod tts_job;
pub mod tts_laws;
pub mod request_laws;
pub mod playout;
pub mod playout_laws;
