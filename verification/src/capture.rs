//! Capturing speech: the program that captures, the chunks it delivers, and what is done with
//! each of them.
use crate::asr::{inline_lines, inline_report, AsrJob, Decoded};
use crate::lines::{
    failure, failure_line, level, level_line, multi_mode, multi_mode_line, no_capture_output,
    queue_full, single_mode,
};
use crate::speaker::{latest, window_samples, SpeakerBuffer, WINDOW_SEC};
use crate::text::{
    ascii_lower, decimal, decimal_text, lemma_texts_push, opt_text, same_text, starts_with, texts,
    to_ascii_lower, trim, trimmed,
};
use crate::wav::{decode_pcm, pcm_samples};
use vstd::prelude::*;
use vstd::string::*;

verus! {

/// The name of a capture device as the capture program wants it for a format.
pub open spec fn device_name(format: Seq<char>, device: Seq<char>) -> Seq<char> {
    if format == "dshow"@ && !"audio="@.is_prefix_of(device) {
        "audio="@ + device
    } else if format == "avfoundation"@ && !":"@.is_prefix_of(device) {
        ":"@ + device
    } else {
        device
    }
}

/// The name of a capture device as the capture program wants it for a format.
pub fn device_arg(format: &str, device: &str) -> (r: String)
    ensures
        r@ == device_name(format@, device@),
{
    if same_text(format, "dshow") && !starts_with(device, "audio=") {
        let mut s = "audio=".to_owned();
        s.append(device);
        s
    } else if same_text(format, "avfoundation") && !starts_with(device, ":") {
        let mut s = ":".to_owned();
        s.append(device);
        s
    } else {
        device.to_owned()
    }
}

/// A device that already has the name that its format wants keeps it.
pub proof fn law_device_name_settles(format: Seq<char>, device: Seq<char>)
    ensures
        device_name(format, device_name(format, device)) == device_name(format, device),
{
    reveal_strlit("dshow");
    reveal_strlit("avfoundation");
    reveal_strlit("audio=");
    reveal_strlit(":");
    assert("audio="@.is_prefix_of("audio="@ + device));
    assert(":"@.is_prefix_of(":"@ + device));
    assert("dshow"@[0] != "avfoundation"@[0]);
}

/// The arguments of the capture program: from the device, one channel, `sr` samples a second,
/// sixteen bits each, to its standard output.
pub open spec fn capture_args(format: Seq<char>, device: Seq<char>, sr: nat) -> Seq<Seq<char>> {
    seq![
        "-hide_banner"@,
        "-loglevel"@,
        "error"@,
        "-nostdin"@,
        "-fflags"@,
        "nobuffer"@,
        "-flags"@,
        "low_delay"@,
        "-analyzeduration"@,
        "0"@,
        "-probesize"@,
        "32"@,
        "-f"@,
        format,
        "-rtbufsize"@,
        "100M"@,
        "-thread_queue_size"@,
        "1024"@,
        "-i"@,
        device_name(format, device),
        "-ac"@,
        "1"@,
        "-ar"@,
        decimal(sr),
        "-f"@,
        "s16le"@,
        "pipe:1"@,
    ]
}

fn put(v: &mut Vec<String>, s: &str)
    ensures
        texts(final(v)@) == texts(old(v)@).push(s@),
{
    let owned = s.to_owned();
    proof {
        lemma_texts_push(v@, owned);
    }
    v.push(owned);
}

/// The arguments of the capture program.
pub fn ffmpeg_args(format: &str, device: &str, sr: u32) -> (r: Vec<String>)
    ensures
        texts(r@) == capture_args(format@, device@, sr as nat),
{
    let dev = device_arg(format, device);
    let rate = decimal_text(sr as u128);
    let mut v: Vec<String> = Vec::new();
    proof {
        assert(texts(v@) =~= Seq::empty());
    }
    put(&mut v, "-hide_banner");
    put(&mut v, "-loglevel");
    put(&mut v, "error");
    put(&mut v, "-nostdin");
    put(&mut v, "-fflags");
    put(&mut v, "nobuffer");
    put(&mut v, "-flags");
    put(&mut v, "low_delay");
    put(&mut v, "-analyzeduration");
    put(&mut v, "0");
    put(&mut v, "-probesize");
    put(&mut v, "32");
    put(&mut v, "-f");
    put(&mut v, format);
    put(&mut v, "-rtbufsize");
    put(&mut v, "100M");
    put(&mut v, "-thread_queue_size");
    put(&mut v, "1024");
    put(&mut v, "-i");
    put(&mut v, dev.as_str());
    put(&mut v, "-ac");
    put(&mut v, "1");
    put(&mut v, "-ar");
    put(&mut v, rate.as_str());
    put(&mut v, "-f");
    put(&mut v, "s16le");
    put(&mut v, "pipe:1");
    v
}

/// The mode that is asked for, or else what the environment says: a pool of workers, or not.
pub open spec fn is_multi(mode: Option<Seq<char>>, env: Option<Seq<char>>) -> bool {
    if mode == Some("multi"@) {
        true
    } else if mode == Some("single"@) {
        false
    } else {
        env == Some("1"@)
    }
}

/// Tells whether the chunks are handed to a pool of workers.
pub fn wants_multi(mode: &Option<String>, env: &Option<String>) -> (r: bool)
    ensures
        r == is_multi(opt_text(*mode), opt_text(*env)),
{
    proof {
        reveal_strlit("multi");
        reveal_strlit("single");
        assert("multi"@.len() != "single"@.len());
    }
    if let Some(m) = mode {
        if same_text(m.as_str(), "multi") {
            return true;
        }
        if same_text(m.as_str(), "single") {
            return false;
        }
    }
    match env {
        Some(e) => same_text(e.as_str(), "1"),
        None => false,
    }
}

/// The spoken language that is asked for. A blank one, or `auto` in any case, asks for none.
pub open spec fn language_asked(lang: Option<Seq<char>>) -> Option<Seq<char>> {
    match lang {
        None => None,
        Some(l) => {
            let t = trimmed(l);
            if t.len() == 0 || ascii_lower(t) == "auto"@ {
                None
            } else {
                Some(t)
            }
        },
    }
}

/// The spoken language that is asked for: see [`language_asked`].
pub fn forced_language(lang: &Option<String>) -> (r: Option<String>)
    ensures
        opt_text(r) == language_asked(opt_text(*lang)),
{
    match lang {
        None => None,
        Some(l) => {
            let t = trim(l.as_str());
            let low = to_ascii_lower(t.as_str());
            if t.as_str().is_empty() || same_text(low.as_str(), "auto") {
                None
            } else {
                Some(t)
            }
        },
    }
}

/// How the pool of workers is laid out: how many there are, and the threads of each.
pub struct Layout {
    pub workers: usize,
    pub threads: i32,
}

/// The layout for a number of cores: a worker for every two of them, two at the least, and the
/// cores shared out among them.
pub open spec fn layout_for(cores: nat) -> (nat, nat) {
    let total = if cores < 1 {
        1
    } else {
        cores
    };
    let workers = if total / 2 < 2 {
        2
    } else {
        total / 2
    };
    let threads = if total / workers < 1 {
        1
    } else {
        total / workers
    };
    (workers, threads)
}

proof fn lemma_layout_threads(cores: nat)
    ensures
        1 <= layout_for(cores).1 <= 2,
{
    let total = if cores < 1 {
        1
    } else {
        cores
    };
    let workers = layout_for(cores).0;
    assert(total / workers <= 2) by (nonlinear_arith)
        requires
            workers >= 2,
            total <= 2 * workers + 1,
    ;
}

/// The layout for a number of cores.
pub fn worker_layout(cores: usize) -> (r: Layout)
    ensures
        (r.workers as nat, r.threads as nat) == layout_for(cores as nat),
        1 <= r.threads <= 2,
{
    let total: usize = if cores < 1 {
        1
    } else {
        cores
    };
    let half: usize = total / 2;
    let workers: usize = if half < 2 {
        2
    } else {
        half
    };
    let share: usize = total / workers;
    let threads: usize = if share < 1 {
        1
    } else {
        share
    };
    proof {
        lemma_layout_threads(cores as nat);
    }
    Layout { workers, threads: threads as i32 }
}

/// The pool has two workers at the least, and takes no more threads than there are cores, two
/// cores or more.
pub proof fn law_layout_fits(cores: nat)
    ensures
        layout_for(cores).0 >= 2,
        layout_for(cores).1 >= 1,
        cores >= 2 ==> layout_for(cores).0 * layout_for(cores).1 <= cores,
{
    if cores >= 2 {
        let w = layout_for(cores).0;
        lemma_layout_threads(cores);
        if cores / w >= 1 {
            vstd::arithmetic::div_mod::lemma_fundamental_div_mod(cores as int, w as int);
            vstd::arithmetic::div_mod::lemma_mod_pos_bound(cores as int, w as int);
        } else {
            assert(cores / w >= 1) by (nonlinear_arith)
                requires
                    cores >= w,
                    w >= 2,
            ;
        }
    }
}

/// `num_cpus::get_physical`: the number of cores of the machine. It depends on the machine, so
/// nothing is said of it.
#[verifier::external_body]
fn physical_cores() -> (r: usize) {
    num_cpus::get_physical()
}

/// The layout for this machine.
pub fn machine_layout() -> (r: Layout)
    ensures
        r.workers >= 2,
        1 <= r.threads <= 2,
        exists|cores: nat|
            (r.workers as nat, r.threads as nat) == #[trigger] layout_for(cores),
{
    let cores = physical_cores();
    worker_layout(cores)
}

/// The workers that are started: one at the least.
pub fn workers_started(workers: usize) -> (r: usize)
    ensures
        r == (if workers < 1 {
            1
        } else {
            workers as int
        }),
{
    if workers < 1 {
        1
    } else {
        workers
    }
}

fn language_or_auto(language: &Option<String>) -> (r: String)
    ensures
        r@ == (match *language {
            Some(l) => l@,
            None => "auto"@,
        }),
{
    match language {
        Some(l) => l.clone(),
        None => "auto".to_owned(),
    }
}

/// How the recognizer is set up for a chunk.
pub struct DecodeParams {
    pub threads: i32,
    pub language: String,
    pub translate: bool,
    pub no_timestamps: bool,
    pub print_special: bool,
    pub print_progress: bool,
    pub print_realtime: bool,
    pub no_context: bool,
    pub single_segment: bool,
    pub max_len: i32,
}

impl DecodeParams {
    /// The recognizer writes down what it hears as one segment, and prints nothing by itself.
    pub open spec fn plain(self) -> bool {
        &&& !self.translate
        &&& self.no_timestamps
        &&& !self.print_special
        &&& !self.print_progress
        &&& !self.print_realtime
        &&& self.no_context
        &&& self.single_segment
        &&& self.max_len == 120
    }

    fn with(threads: i32, language: String) -> (r: Self)
        ensures
            r.plain(),
            r.threads == threads,
            r.language@ == language@,
    {
        DecodeParams {
            threads,
            language,
            translate: false,
            no_timestamps: true,
            print_special: false,
            print_progress: false,
            print_realtime: false,
            no_context: true,
            single_segment: true,
            max_len: 120,
        }
    }

    /// How the recognizer is set up in line: for the language that is asked for, or else for
    /// any.
    pub fn inline(threads: usize, language: &Option<String>) -> (r: Self)
        ensures
            r.plain(),
            r.threads == threads as i32,
            r.language@ == (match *language {
                Some(l) => l@,
                None => "auto"@,
            }),
    {
        DecodeParams::with(threads as i32, language_or_auto(language))
    }

    /// How the recognizer is set up in a worker: for the language that is asked for, or else for
    /// any.
    pub fn worker(threads: i32, language: &Option<String>) -> (r: Self)
        ensures
            r.plain(),
            r.threads == threads,
            r.language@ == (match *language {
                Some(l) => l@,
                None => "auto"@,
            }),
    {
        DecodeParams::with(threads, language_or_auto(language))
    }
}

/// What went wrong in setting up the capture.
pub enum CaptureFailure {
    /// The capture program could not be started.
    Spawn,
    /// The recognizer could not load its model.
    Load,
    /// The recognizer could not be set up.
    State,
}

/// The step that a failure names.
pub open spec fn failed_step(f: CaptureFailure) -> Seq<char> {
    match f {
        CaptureFailure::Spawn => "spawn ffmpeg"@,
        CaptureFailure::Load => "load whisper"@,
        CaptureFailure::State => "whisper state"@,
    }
}

/// The line of a failure.
pub fn capture_failure_line(f: CaptureFailure, msg: &str) -> (r: String)
    ensures
        r@ == failure(failed_step(f), msg@),
{
    let step = match f {
        CaptureFailure::Spawn => "spawn ffmpeg",
        CaptureFailure::Load => "load whisper",
        CaptureFailure::State => "whisper state",
    };
    failure_line(step, msg)
}

/// The line of a capture program without an output to read.
pub fn no_output_line() -> (r: String)
    ensures
        r@ == no_capture_output(),
{
    "{\"error\":\"no ffmpeg stdout\"}".to_owned()
}

/// What has been measured of a chunk. The times and the level come as they are written into the
/// lines.
pub struct Measured {
    pub voice: bool,
    pub t0: String,
    pub t1: String,
    pub db: String,
}

/// What a capture waits for.
enum Stage {
    Idle,
    Reading,
    Measuring,
    Submitting { t0: String, db: String },
    Decoding { t0: String, t1: String, db: String },
    Ended,
}

/// What a capture waits for.
pub enum Waiting {
    /// For the next round, which ends the capture if it is asked to stop.
    Round,
    /// For the bytes of a chunk.
    Bytes,
    /// For what is measured of a chunk.
    Measure,
    /// For the pool to take a chunk.
    Pool { t0: Seq<char>, db: Seq<char> },
    /// For the recognizer.
    Recognizer { t0: Seq<char>, t1: Seq<char>, db: Seq<char> },
    /// For nothing: it has ended.
    Nothing,
}

/// What is done at the beginning of a round.
pub enum Round {
    /// So many bytes are read.
    Read(u64),
    /// The capture has ended: the capture program is to be ended too.
    End,
}

/// What is done with a chunk once it is measured.
pub enum Dispatch {
    /// These lines are broadcast: nobody speaks.
    Send(Vec<String>),
    /// It is handed to the pool of workers.
    Submit(AsrJob),
    /// It is recognized in line.
    Decode(Vec<i16>),
}

/// A running capture.
pub struct Capture {
    sr: u32,
    chunk_ms: u32,
    multi: bool,
    seq: u64,
    stage: Stage,
}

/// A running capture: samples a second, milliseconds of a chunk, whether the chunks are handed
/// to a pool of workers, the number of the next chunk that is, and what the capture waits for.
#[verifier::ext_equal]
pub struct CaptureModel {
    pub rate: u32,
    pub chunk: u32,
    pub pooled: bool,
    pub next: u64,
    pub waits: Waiting,
}

impl CaptureModel {
    /// The line of the level of a chunk.
    pub open spec fn level(self, t0: Seq<char>, db: Seq<char>, voice: bool) -> Seq<char> {
        level(t0, db, voice, self.rate as nat, self.chunk as nat)
    }

    /// The same capture, waiting for something else.
    pub open spec fn waiting(self, waits: Waiting) -> CaptureModel {
        CaptureModel { waits, ..self }
    }
}

impl View for Capture {
    type V = CaptureModel;

    closed spec fn view(&self) -> CaptureModel {
        CaptureModel {
            rate: self.sr,
            chunk: self.chunk_ms,
            pooled: self.multi,
            next: self.seq,
            waits: match self.stage {
                Stage::Idle => Waiting::Round,
                Stage::Reading => Waiting::Bytes,
                Stage::Measuring => Waiting::Measure,
                Stage::Submitting { t0, db } => Waiting::Pool { t0: t0@, db: db@ },
                Stage::Decoding { t0, t1, db } => Waiting::Recognizer {
                    t0: t0@,
                    t1: t1@,
                    db: db@,
                },
                Stage::Ended => Waiting::Nothing,
            },
        }
    }
}

impl Capture {
    /// A capture of which no chunk has come yet.
    pub fn new(sr: u32, chunk_ms: u32, multi: bool) -> (r: Self)
        ensures
            r@ == (CaptureModel {
                rate: sr,
                chunk: chunk_ms,
                pooled: multi,
                next: 0,
                waits: Waiting::Round,
            }),
    {
        Capture { sr, chunk_ms, multi, seq: 0, stage: Stage::Idle }
    }

    /// The samples of a chunk.
    pub fn samples_per_chunk(&self) -> (r: u64)
        ensures
            r == self@.rate * self@.chunk / 1000,
            r <= u64::MAX / 1000,
    {
        proof {
            assert(self.sr * self.chunk_ms <= 0xffff_ffff * 0xffff_ffff) by (nonlinear_arith)
                requires
                    self.sr <= 0xffff_ffff,
                    self.chunk_ms <= 0xffff_ffff,
            ;
        }
        self.sr as u64 * self.chunk_ms as u64 / 1000
    }

    /// The line of the mode of a run: `layout` is that of the pool, if there is one.
    pub fn mode_line(&self, layout: &Layout) -> (r: String)
        requires
            layout.threads >= 0,
        ensures
            r@ == (if self@.pooled {
                multi_mode(layout.workers as nat, layout.threads as nat)
            } else {
                single_mode()
            }),
    {
        if self.multi {
            multi_mode_line(layout.workers, layout.threads as usize)
        } else {
            "{\"info\":\"mode\",\"value\":\"single\"}".to_owned()
        }
    }

    /// Begins a round: the next chunk is read, two bytes for each sample, unless the capture is
    /// asked to stop.
    pub fn round(&mut self, stop: bool) -> (r: Round)
        requires
            old(self)@.waits is Round,
        ensures
            match r {
                Round::End => stop && final(self)@ == old(self)@.waiting(Waiting::Nothing),
                Round::Read(n) => !stop && n == 2 * (old(self)@.rate * old(self)@.chunk / 1000)
                    && final(self)@ == old(self)@.waiting(Waiting::Bytes),
            },
    {
        if stop {
            self.stage = Stage::Ended;
            Round::End
        } else {
            self.stage = Stage::Reading;
            let n = self.samples_per_chunk();
            Round::Read(n * 2)
        }
    }

    /// The chunk could not be read: the line that says so, and the capture has ended.
    pub fn read_failed(&mut self, msg: &str) -> (r: String)
        requires
            old(self)@.waits is Bytes,
        ensures
            r@ == failure("ffmpeg read"@, msg@),
            final(self)@ == old(self)@.waiting(Waiting::Nothing),
    {
        self.stage = Stage::Ended;
        failure_line("ffmpeg read", msg)
    }

    /// Takes the bytes of a chunk: they become samples, which are to be measured, and the voice
    /// of the speaker keeps the latest of them.
    pub fn take_chunk(&mut self, bytes: &Vec<u8>, voice: &mut SpeakerBuffer) -> (r: Vec<i16>)
        requires
            old(self)@.waits is Bytes,
            bytes@.len() % 2 == 0,
        ensures
            r@ == pcm_samples(bytes@),
            final(self)@ == old(self)@.waiting(Waiting::Measure),
            final(voice)@ == latest(
                old(voice)@ + pcm_samples(bytes@),
                (old(self)@.rate * WINDOW_SEC) as nat,
            ),
    {
        let pcm = decode_pcm(bytes);
        voice.append(&pcm, window_samples(self.sr));
        self.stage = Stage::Measuring;
        pcm
    }

    /// What is done with a chunk: where nobody speaks, its level is broadcast and that is all.
    /// A chunk that is handed to the pool takes the next number, whether or not the pool will
    /// have room for it.
    pub fn dispatch(&mut self, m: Measured, pcm: Vec<i16>) -> (r: Dispatch)
        requires
            old(self)@.waits is Measure,
        ensures
            match r {
                Dispatch::Send(lines) => !m.voice && texts(lines@) == seq![
                    old(self)@.level(m.t0@, m.db@, false),
                ] && final(self)@ == old(self)@.waiting(Waiting::Round),
                Dispatch::Submit(job) => m.voice && old(self)@.pooled && job.seq == old(self)@.next
                    && job.t0@ == m.t0@ && job.t1@ == m.t1@ && job.pcm@ == pcm@ && final(self)@ == (
                CaptureModel {
                    next: next_number(old(self)@.next, true),
                    waits: Waiting::Pool { t0: m.t0@, db: m.db@ },
                    ..old(self)@
                }),
                Dispatch::Decode(samples) => m.voice && !old(self)@.pooled && samples@ == pcm@
                    && final(self)@ == old(self)@.waiting(
                    Waiting::Recognizer { t0: m.t0@, t1: m.t1@, db: m.db@ },
                ),
            },
    {
        if !m.voice {
            self.stage = Stage::Idle;
            let mut lines: Vec<String> = Vec::new();
            let line = level_line(m.t0.as_str(), m.db.as_str(), false, self.sr, self.chunk_ms);
            proof {
                lemma_texts_push(lines@, line);
                assert(texts(lines@) =~= Seq::empty());
            }
            lines.push(line);
            Dispatch::Send(lines)
        } else if self.multi {
            let seq: u64 = self.seq;
            self.seq = self.seq.wrapping_add(1);
            self.stage = Stage::Submitting { t0: m.t0.clone(), db: m.db };
            Dispatch::Submit(AsrJob { seq, t0: m.t0, t1: m.t1, pcm })
        } else {
            self.stage = Stage::Decoding { t0: m.t0, t1: m.t1, db: m.db };
            Dispatch::Decode(pcm)
        }
    }

    /// The pool has taken a chunk, or had no room for it: the lines to broadcast are a warning
    /// if it had none, and the level.
    pub fn submitted(&mut self, taken: bool) -> (r: Vec<String>)
        requires
            old(self)@.waits is Pool,
        ensures
            texts(r@) == (if taken {
                Seq::empty()
            } else {
                seq![queue_full()]
            }).push(
                old(self)@.level(old(self)@.waits->Pool_t0, old(self)@.waits->Pool_db, true),
            ),
            final(self)@ == old(self)@.waiting(Waiting::Round),
    {
        let mut lines: Vec<String> = Vec::new();
        proof {
            assert(texts(lines@) =~= Seq::empty());
        }
        if !taken {
            put(&mut lines, "{\"warn\":\"asr_queue_full\"}");
        }
        if let Stage::Submitting { t0, db } = &self.stage {
            let line = level_line(t0.as_str(), db.as_str(), true, self.sr, self.chunk_ms);
            put(&mut lines, line.as_str());
        }
        self.stage = Stage::Idle;
        lines
    }

    /// The recognizer is done with a chunk: the lines to broadcast are what it gave, and the
    /// level.
    pub fn decoded(&mut self, d: &Decoded) -> (r: Vec<String>)
        requires
            old(self)@.waits is Recognizer,
        ensures
            texts(r@) == inline_lines(
                old(self)@.waits->Recognizer_t0,
                old(self)@.waits->t1,
                *d,
            ).push(
                old(self)@.level(
                    old(self)@.waits->Recognizer_t0,
                    old(self)@.waits->Recognizer_db,
                    true,
                ),
            ),
            final(self)@ == old(self)@.waiting(Waiting::Round),
    {
        let mut lines: Vec<String> = Vec::new();
        proof {
            assert(texts(lines@) =~= Seq::empty());
        }
        if let Stage::Decoding { t0, t1, db } = &self.stage {
            match inline_report(t0.as_str(), t1.as_str(), d) {
                Some(line) => {
                    put(&mut lines, line.as_str());
                },
                None => {},
            }
            proof {
                assert(texts(lines@) =~= inline_lines(t0@, t1@, *d));
            }
            let line = level_line(t0.as_str(), db.as_str(), true, self.sr, self.chunk_ms);
            put(&mut lines, line.as_str());
        }
        self.stage = Stage::Idle;
        lines
    }
}

/// The number that follows `n`, if one was taken; after the last number the first comes again.
pub open spec fn next_number(n: u64, taken: bool) -> u64 {
    if !taken {
        n
    } else if n == u64::MAX {
        0
    } else {
        (n + 1) as u64
    }
}

/// The number of the next chunk, after chunks of which `voices` tells whether somebody spoke.
pub open spec fn number_after(voices: Seq<bool>) -> u64
    decreases voices.len(),
{
    if voices.len() == 0 {
        0
    } else {
        next_number(number_after(voices.drop_last()), voices.last())
    }
}

/// How many of the chunks somebody spoke in.
pub open spec fn spoken_count(voices: Seq<bool>) -> nat
    decreases voices.len(),
{
    if voices.len() == 0 {
        0
    } else {
        spoken_count(voices.drop_last()) + (if voices.last() {
            1nat
        } else {
            0
        })
    }
}

/// The chunks that somebody spoke in are numbered from zero on without a gap, as long as the
/// numbers last.
pub proof fn law_chunks_are_numbered(voices: Seq<bool>)
    requires
        spoken_count(voices) <= u64::MAX,
    ensures
        number_after(voices) == spoken_count(voices),
    decreases voices.len(),
{
    if voices.len() > 0 {
        law_chunks_are_numbered(voices.drop_last());
    }
}

}
