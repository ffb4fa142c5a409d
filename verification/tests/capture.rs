use chameleon_voice::asr::Decoded;
use chameleon_voice::capture::{
    capture_failure_line, device_arg, ffmpeg_args, forced_language, machine_layout, no_output_line,
    wants_multi, worker_layout, workers_started, Capture, CaptureFailure, DecodeParams, Dispatch,
    Measured, Round,
};
use chameleon_voice::config::{Config, EnvVars, Platform};
use chameleon_voice::session::{dashboard_url, AppState};
use chameleon_voice::speaker::SpeakerBuffer;

fn opt(s: &str) -> Option<String> {
    Some(s.to_string())
}

#[test]
fn devices_are_named_as_their_format_wants() {
    assert_eq!(device_arg("dshow", "Mic"), "audio=Mic");
    assert_eq!(device_arg("dshow", "audio=Mic"), "audio=Mic");
    assert_eq!(device_arg("avfoundation", "0"), ":0");
    assert_eq!(device_arg("avfoundation", ":0"), ":0");
    assert_eq!(device_arg("pulse", "default"), "default");
    assert_eq!(device_arg("dshow", ""), "audio=");
    for f in ["dshow", "avfoundation", "pulse"] {
        let once = device_arg(f, "x");
        assert_eq!(device_arg(f, &once), once);
    }
}

#[test]
fn the_capture_program_gets_its_arguments() {
    assert_eq!(ffmpeg_args("dshow", "Mic", 16_000), [
        "-hide_banner", "-loglevel", "error", "-nostdin", "-fflags", "nobuffer", "-flags",
        "low_delay", "-analyzeduration", "0", "-probesize", "32", "-f", "dshow", "-rtbufsize",
        "100M", "-thread_queue_size", "1024", "-i", "audio=Mic", "-ac", "1", "-ar", "16000", "-f",
        "s16le", "pipe:1",
    ]);
}

#[test]
fn the_mode_is_asked_for_or_set() {
    assert!(wants_multi(&opt("multi"), &None));
    assert!(!wants_multi(&opt("single"), &opt("1")));
    assert!(wants_multi(&opt("other"), &opt("1")));
    assert!(wants_multi(&None, &opt("1")));
    assert!(!wants_multi(&None, &opt("true")));
    assert!(!wants_multi(&opt("Multi"), &None));
    assert!(!wants_multi(&None, &None));
}

#[test]
fn the_language_is_asked_for_or_free() {
    assert_eq!(forced_language(&opt(" ja ")), opt("ja"));
    assert_eq!(forced_language(&opt("AUTO ")), None);
    assert_eq!(forced_language(&opt("  ")), None);
    assert_eq!(forced_language(&None), None);
    assert_eq!(forced_language(&opt("Auto1")), opt("Auto1"));
}

#[test]
fn workers_share_the_cores() {
    let l = |n: usize| {
        let l = worker_layout(n);
        (l.workers, l.threads)
    };
    assert_eq!(l(0), (2, 1));
    assert_eq!(l(1), (2, 1));
    assert_eq!(l(2), (2, 1));
    assert_eq!(l(3), (2, 1));
    assert_eq!(l(4), (2, 2));
    assert_eq!(l(5), (2, 2));
    assert_eq!(l(6), (3, 2));
    assert_eq!(l(7), (3, 2));
    assert_eq!(l(16), (8, 2));
    for n in 2..200 {
        let (w, t) = l(n);
        assert!(w * t as usize <= n);
    }
    let here = machine_layout();
    assert!(here.workers >= 2 && here.threads >= 1);
    assert_eq!(here.workers, worker_layout(num_cpus::get_physical()).workers);
    assert_eq!(workers_started(0), 1);
    assert_eq!(workers_started(5), 5);
}

#[test]
fn the_recognizer_is_set_up() {
    let p = DecodeParams::inline(4, &opt("fr"));
    assert_eq!((p.threads, p.language.as_str(), p.max_len), (4, "fr", 120));
    assert!(!p.translate && p.no_timestamps && p.no_context && p.single_segment);
    assert!(!p.print_special && !p.print_progress && !p.print_realtime);
    assert_eq!(DecodeParams::inline(1, &None).language, "auto");
    let w = DecodeParams::worker(2, &opt("fr"));
    assert_eq!((w.threads, w.language.as_str(), w.max_len), (2, "fr", 120));
    assert!(!w.translate && w.no_timestamps && w.no_context && w.single_segment);
    assert_eq!(DecodeParams::worker(1, &None).language, "auto");
}

#[test]
fn failures_of_the_capture_are_reported() {
    assert_eq!(
        capture_failure_line(CaptureFailure::Spawn, "x"),
        "{\"error\":\"spawn ffmpeg\",\"msg\":\"x\"}"
    );
    assert_eq!(
        capture_failure_line(CaptureFailure::Load, "x"),
        "{\"error\":\"load whisper\",\"msg\":\"x\"}"
    );
    assert_eq!(
        capture_failure_line(CaptureFailure::State, "x"),
        "{\"error\":\"whisper state\",\"msg\":\"x\"}"
    );
    assert_eq!(
        capture_failure_line(CaptureFailure::Load, "no \"C:\\m\"\n"),
        "{\"error\":\"load whisper\",\"msg\":\"no \\\"C:\\\\m\\\"\\u000A\"}"
    );
    assert_eq!(no_output_line(), "{\"error\":\"no ffmpeg stdout\"}");
}

fn measured(voice: bool) -> Measured {
    Measured {
        voice,
        t0: "0.30".to_string(),
        t1: "0.60".to_string(),
        db: "-41.2".to_string(),
    }
}

fn read(c: &mut Capture, voice: &mut SpeakerBuffer, bytes: &Vec<u8>) -> Vec<i16> {
    match c.round(false) {
        Round::Read(n) => assert_eq!(n, 4),
        Round::End => panic!("nobody asked to stop"),
    }
    c.take_chunk(bytes, voice)
}

const LEVEL: &str = "{\"t0\":0.30,\"db\":-41.2,\"voice\":true,\"sr\":2000,\"chunk_ms\":1}";
const SILENT: &str = "{\"t0\":0.30,\"db\":-41.2,\"voice\":false,\"sr\":2000,\"chunk_ms\":1}";

#[test]
fn chunks_go_to_the_pool_with_their_numbers() {
    let mut voice = SpeakerBuffer::new();
    let mut c = Capture::new(2_000, 1, true);
    assert_eq!(
        c.mode_line(&worker_layout(8)),
        "{\"info\":\"mode\",\"value\":\"multi\",\"workers\":4,\"threads_per_state\":2}"
    );
    for n in 0..3u64 {
        let pcm = read(&mut c, &mut voice, &vec![1, 0, 2, 0]);
        assert_eq!(pcm, [1, 2]);
        match c.dispatch(measured(true), pcm) {
            Dispatch::Submit(job) => {
                assert_eq!(job.seq, n);
                assert_eq!((job.t0.as_str(), job.t1.as_str()), ("0.30", "0.60"));
                assert_eq!(job.pcm, [1, 2]);
            }
            _ => panic!("the pool takes the chunk"),
        }
        if n == 1 {
            assert_eq!(c.submitted(false), ["{\"warn\":\"asr_queue_full\"}", LEVEL]);
        } else {
            assert_eq!(c.submitted(true), [LEVEL]);
        }
        let pcm = read(&mut c, &mut voice, &vec![3, 0, 4, 0]);
        match c.dispatch(measured(false), pcm) {
            Dispatch::Send(lines) => assert_eq!(lines, [SILENT]),
            _ => panic!("nobody speaks"),
        }
    }
    assert_eq!(voice.samples(), [1, 2, 3, 4, 1, 2, 3, 4, 1, 2, 3, 4]);
    assert!(matches!(c.round(true), Round::End));
}

#[test]
fn chunks_are_recognized_in_line() {
    let mut voice = SpeakerBuffer::new();
    let mut c = Capture::new(2_000, 1, false);
    assert_eq!(c.mode_line(&worker_layout(8)), "{\"info\":\"mode\",\"value\":\"single\"}");
    let pcm = read(&mut c, &mut voice, &vec![255, 255, 0, 128]);
    match c.dispatch(measured(true), pcm) {
        Dispatch::Decode(samples) => assert_eq!(samples, [-1, i16::MIN]),
        _ => panic!("there is no pool"),
    }
    assert_eq!(c.decoded(&Decoded::Segments(vec![Some(" hi".to_string())])), [
        "{\"t0\":0.30,\"t1\":0.60,\"text\":\"hi\",\"lang\":\"und\"}",
        LEVEL,
    ]);
    let pcm = read(&mut c, &mut voice, &vec![0, 0, 0, 0]);
    assert!(matches!(c.dispatch(measured(true), pcm), Dispatch::Decode(_)));
    assert_eq!(c.decoded(&Decoded::Segments(vec![])), [LEVEL]);
    let pcm = read(&mut c, &mut voice, &vec![0, 0, 0, 0]);
    assert!(matches!(c.dispatch(measured(true), pcm), Dispatch::Decode(_)));
    assert_eq!(c.decoded(&Decoded::Failed("bad".to_string())), [
        "{\"error\":\"whisper full\",\"msg\":\"bad\"}",
        LEVEL,
    ]);
}

#[test]
fn a_capture_that_breaks_off_says_so() {
    let mut c = Capture::new(16_000, 300, false);
    assert_eq!(c.samples_per_chunk(), 4_800);
    assert!(matches!(c.round(false), Round::Read(9_600)));
    assert_eq!(c.read_failed("early eof"), "{\"error\":\"ffmpeg read\",\"msg\":\"early eof\"}");
    assert_eq!(Capture::new(u32::MAX, u32::MAX, true).samples_per_chunk(), 18_446_744_065_119_617);
    assert_eq!(Capture::new(999, 1, true).samples_per_chunk(), 0);
}

fn unset() -> EnvVars {
    EnvVars {
        port: None,
        ffmpeg: None,
        ffmpeg_format: None,
        ffmpeg_device: None,
        sample_rate: None,
        chunk_ms: None,
        whisper_model: None,
        whisper_threads: None,
        translate_base: None,
        coqui_base: None,
        coqui_voice: None,
        coqui_speaker_wav: None,
        platform: Platform::Other,
    }
}

#[test]
fn settings_have_defaults() {
    let c = Config::resolve(&unset(), 6);
    assert_eq!(c.port, 8080);
    assert_eq!(c.ffmpeg, "ffmpeg");
    assert_eq!(c.ffmpeg_format, "pulse");
    assert_eq!(c.ffmpeg_device, "default");
    assert_eq!(c.sample_rate, 16_000);
    assert_eq!(c.chunk_ms, 300);
    assert_eq!(c.whisper_model, "./models/ggml-base.en.bin");
    assert_eq!(c.whisper_threads, 6);
    assert_eq!(c.translate_base, "http://127.0.0.1:5000");
    assert_eq!(c.coqui_base, "http://127.0.0.1:8020");
    assert_eq!(c.coqui_voice, "English");
    assert_eq!(c.coqui_speaker_wav, "./test.wav");
    assert_eq!(Config::resolve(&unset(), 0).whisper_threads, 1);
    assert_eq!(Config::from_env(&unset()).whisper_threads, num_cpus::get());
}

#[test]
fn settings_follow_the_environment() {
    let env = EnvVars {
        port: opt("9000"),
        ffmpeg: opt("/bin/f"),
        ffmpeg_device: opt("mic"),
        sample_rate: opt("48000"),
        chunk_ms: opt("1200"),
        whisper_model: opt("m"),
        whisper_threads: opt("4"),
        translate_base: opt("http://t"),
        coqui_base: opt("http://c"),
        coqui_voice: opt("Ana"),
        coqui_speaker_wav: opt(""),
        platform: Platform::Windows,
        ..unset()
    };
    let c = Config::from_env(&env);
    assert_eq!((c.port, c.sample_rate, c.chunk_ms, c.whisper_threads), (9000, 48_000, 1200, 4));
    assert_eq!((c.ffmpeg.as_str(), c.ffmpeg_format.as_str()), ("/bin/f", "dshow"));
    assert_eq!((c.ffmpeg_device.as_str(), c.whisper_model.as_str()), ("mic", "m"));
    assert_eq!((c.translate_base.as_str(), c.coqui_base.as_str()), ("http://t", "http://c"));
    assert_eq!((c.coqui_voice.as_str(), c.coqui_speaker_wav.as_str()), ("Ana", ""));
    let mac = EnvVars { platform: Platform::MacOs, ..unset() };
    assert_eq!(Config::resolve(&mac, 1).ffmpeg_format, "avfoundation");
    let set = EnvVars { platform: Platform::MacOs, ffmpeg_format: opt("alsa"), ..unset() };
    assert_eq!(Config::resolve(&set, 1).ffmpeg_format, "alsa");
}

#[test]
fn settings_that_are_no_numbers_count_as_not_set() {
    let env = EnvVars {
        port: opt("70000"),
        sample_rate: opt("-1"),
        chunk_ms: opt("fast"),
        whisper_threads: opt(""),
        ..unset()
    };
    let c = Config::resolve(&env, 3);
    assert_eq!((c.port, c.sample_rate, c.chunk_ms, c.whisper_threads), (8080, 16_000, 300, 3));
}

#[test]
fn a_worker_is_started_once_and_again_after_a_stop() {
    let mut s = AppState::new();
    assert!(!s.running && !s.stopping && s.speaker_buf.samples().is_empty());
    assert_eq!(s.start(), (true, "started".to_string()));
    assert_eq!(s.start(), (false, "already running".to_string()));
    assert_eq!(s.stop(), (true, "stopped".to_string()));
    assert!(s.stopping);
    assert_eq!(s.stop(), (false, "stopped".to_string()));
    assert_eq!(s.start(), (true, "started".to_string()));
    assert!(s.running && !s.stopping);
}

#[test]
fn the_dashboard_has_a_url() {
    assert_eq!(dashboard_url(8080), "http://127.0.0.1:8080/dashboard");
}
