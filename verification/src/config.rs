//! The settings of the application.
use crate::text::{parse_unsigned, unsigned_value};
use vstd::prelude::*;
use vstd::string::*;

verus! {

/// The kind of operating system that the program runs on.
pub enum Platform {
    Windows,
    MacOs,
    Other,
}

/// What the environment says of each setting: `None` where it says nothing.
pub struct EnvVars {
    /// `PORT`
    pub port: Option<String>,
    /// `FFMPEG`
    pub ffmpeg: Option<String>,
    /// `FFMPEG_FORMAT`
    pub ffmpeg_format: Option<String>,
    /// `FFMPEG_DEVICE`
    pub ffmpeg_device: Option<String>,
    /// `SAMPLE_RATE`
    pub sample_rate: Option<String>,
    /// `CHUNK_MS`
    pub chunk_ms: Option<String>,
    /// `WHISPER_MODEL`
    pub whisper_model: Option<String>,
    /// `WHISPER_THREADS`
    pub whisper_threads: Option<String>,
    /// `TRANSLATE_BASE`
    pub translate_base: Option<String>,
    /// `COQUI_BASE`
    pub coqui_base: Option<String>,
    /// `COQUI_VOICE`
    pub coqui_voice: Option<String>,
    /// `COQUI_SPEAKER_WAV`
    pub coqui_speaker_wav: Option<String>,
    pub platform: Platform,
}

/// Centralized application settings
#[derive(Clone)]
pub struct Config {
    pub port: u16,
    pub ffmpeg: String,
    pub ffmpeg_format: String,
    pub ffmpeg_device: String,
    pub sample_rate: u32,
    pub chunk_ms: u32,
    pub whisper_model: String,
    pub whisper_threads: usize,
    pub translate_base: String,
    pub coqui_base: String,
    pub coqui_voice: String,
    pub coqui_speaker_wav: String,
}

/// The text that is set, or the default.
pub open spec fn text_or(o: Option<String>, default: Seq<char>) -> Seq<char> {
    match o {
        Some(s) => s@,
        None => default,
    }
}

/// The number that is set, or the default. What is no number of at most `max` counts as not set.
pub open spec fn number_or(o: Option<String>, max: nat, default: nat) -> nat {
    match o {
        Some(s) => match unsigned_value(s@, max) {
            Some(n) => n,
            None => default,
        },
        None => default,
    }
}

/// The capture format of a platform.
pub open spec fn platform_format(p: Platform) -> Seq<char> {
    match p {
        Platform::Windows => "dshow"@,
        Platform::MacOs => "avfoundation"@,
        Platform::Other => "pulse"@,
    }
}

/// `num_cpus::get`: the number of CPUs that the process may use. It depends on the machine, so
/// nothing is said of it.
#[verifier::external_body]
fn logical_cpus() -> (r: usize) {
    num_cpus::get()
}

fn set_or(o: &Option<String>, default: &str) -> (r: String)
    ensures
        r@ == text_or(*o, default@),
{
    match o {
        Some(s) => s.clone(),
        None => default.to_owned(),
    }
}

fn set_number_or(o: &Option<String>, max: u64, default: u64) -> (r: u64)
    requires
        default <= max,
    ensures
        r == number_or(*o, max as nat, default as nat),
        r <= max,
{
    match o {
        Some(s) => match parse_unsigned(s.as_str(), max) {
            Some(n) => n,
            None => default,
        },
        None => default,
    }
}

impl Config {
    /// These are the settings that the environment gives on a machine with `cpus` CPUs.
    pub open spec fn follows(self, env: EnvVars, cpus: nat) -> bool {
        &&& self.port == number_or(env.port, u16::MAX as nat, 8080)
        &&& self.ffmpeg@ == text_or(env.ffmpeg, "ffmpeg"@)
        &&& self.ffmpeg_format@ == text_or(env.ffmpeg_format, platform_format(env.platform))
        &&& self.ffmpeg_device@ == text_or(env.ffmpeg_device, "default"@)
        &&& self.sample_rate == number_or(env.sample_rate, u32::MAX as nat, 16_000)
        &&& self.chunk_ms == number_or(env.chunk_ms, u32::MAX as nat, 300)
        &&& self.whisper_model@ == text_or(env.whisper_model, "./models/ggml-base.en.bin"@)
        &&& self.whisper_threads == number_or(
            env.whisper_threads,
            usize::MAX as nat,
            if cpus < 1 {
                1
            } else {
                cpus
            },
        )
        &&& self.translate_base@ == text_or(env.translate_base, "http://127.0.0.1:5000"@)
        &&& self.coqui_base@ == text_or(env.coqui_base, "http://127.0.0.1:8020"@)
        &&& self.coqui_voice@ == text_or(env.coqui_voice, "English"@)
        &&& self.coqui_speaker_wav@ == text_or(env.coqui_speaker_wav, "./test.wav"@)
    }

    /// The settings that the environment gives on a machine with `cpus` CPUs.
    pub fn resolve(env: &EnvVars, cpus: usize) -> (r: Self)
        ensures
            r.follows(*env, cpus as nat),
    {
        let format = match env.platform {
            Platform::Windows => "dshow",
            Platform::MacOs => "avfoundation",
            Platform::Other => "pulse",
        };
        let threads: usize = if cpus < 1 {
            1
        } else {
            cpus
        };
        Config {
            port: set_number_or(&env.port, u16::MAX as u64, 8080) as u16,
            ffmpeg: set_or(&env.ffmpeg, "ffmpeg"),
            ffmpeg_format: set_or(&env.ffmpeg_format, format),
            ffmpeg_device: set_or(&env.ffmpeg_device, "default"),
            sample_rate: set_number_or(&env.sample_rate, u32::MAX as u64, 16_000) as u32,
            chunk_ms: set_number_or(&env.chunk_ms, u32::MAX as u64, 300) as u32,
            whisper_model: set_or(&env.whisper_model, "./models/ggml-base.en.bin"),
            whisper_threads: set_number_or(
                &env.whisper_threads,
                usize::MAX as u64,
                threads as u64,
            ) as usize,
            translate_base: set_or(&env.translate_base, "http://127.0.0.1:5000"),
            coqui_base: set_or(&env.coqui_base, "http://127.0.0.1:8020"),
            coqui_voice: set_or(&env.coqui_voice, "English"),
            coqui_speaker_wav: set_or(&env.coqui_speaker_wav, "./test.wav"),
        }
    }

    /// Load configuration from environment variables (with defaults)
    ///
    /// The number of recognition threads that is not set follows the machine.
    pub fn from_env(env: &EnvVars) -> (r: Self)
        ensures
            exists|cpus: nat| r.follows(*env, cpus),
            env.whisper_threads is Some && unsigned_value(
                env.whisper_threads.unwrap()@,
                usize::MAX as nat,
            ) is Some ==> forall|cpus: nat| #[trigger] r.follows(*env, cpus),
    {
        let cpus = logical_cpus();
        let r = Config::resolve(env, cpus);
        assert(r.follows(*env, cpus as nat));
        r
    }
}

}
