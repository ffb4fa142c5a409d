//! The requests that are posted to the voice service for one text, in turn.
use crate::json::{empty_object, json_parsed, json_text, json_to_text, set_string, JsonModel};
use crate::speech::{chunks, cleaned, has_sound, nfc, normalize_and_chunk};
use crate::speech_laws::all_short;
use crate::text::{
    ascii_lower, blank, decimal, decimal_text, is_blank, lowercase_text, opt_text, texts, trim_end_slashes,
    without_end_slashes,
};
use crate::tts::{
    after_fetch, fetch_answer, is_url, language_tries, languages, opt_texts, save_failure,
    voice_reference, FetchOutcome, Fetched, Reference, Reply, ReplyModel, TtsQuery, MAX_CHUNK,
};
use crate::wav::{join_wav, wav_joined};
use vstd::prelude::*;
use vstd::string::*;
use vstd::utf8::*;

verus! {

/// The body of a request to speak a chunk.
pub open spec fn speech_body(
    text: Seq<char>,
    lang: Option<Seq<char>>,
    speaker_wav: Option<Seq<char>>,
) -> JsonModel {
    let base = Map::empty().insert("text"@, JsonModel::Text(text)).insert(
        "audio_format"@,
        JsonModel::Text("wav"@),
    );
    let with_lang = match lang {
        Some(l) => base.insert("language"@, JsonModel::Text(l)),
        None => base,
    };
    JsonModel::Object(
        match speaker_wav {
            Some(w) => with_lang.insert("speaker_wav"@, JsonModel::Text(w)),
            None => with_lang,
        },
    )
}

fn build_speech_body(text: &str, lang: &Option<String>, speaker_wav: &Option<String>) -> (r: String)
    ensures
        r@ == json_text(speech_body(text@, opt_text(*lang), opt_text(*speaker_wav))),
        json_parsed(r@) == Some(speech_body(text@, opt_text(*lang), opt_text(*speaker_wav))),
{
    let mut v = empty_object();
    set_string(&mut v, "text", text);
    set_string(&mut v, "audio_format", "wav");
    if let Some(l) = lang {
        set_string(&mut v, "language", l.as_str());
    }
    if let Some(w) = speaker_wav {
        set_string(&mut v, "speaker_wav", w.as_str());
    }
    json_to_text(&v)
}

/// What came of posting a request.
pub enum PostOutcome {
    /// The service could not be reached.
    Unreachable(String),
    /// The service refused: the code and the body.
    Refused { code: u16, body: String },
    /// The body broke off.
    Broken(String),
    /// The speech of the chunk, as a WAV file.
    Bytes(Vec<u8>),
}

/// The code and the message of a failure.
pub open spec fn post_error(o: PostOutcome) -> Option<(nat, Seq<char>)> {
    match o {
        PostOutcome::Unreachable(e) => Some((502, "connect error: "@ + e@)),
        PostOutcome::Refused { code, body } => Some((code as nat, body@)),
        PostOutcome::Broken(e) => Some((502, "bytes error: "@ + e@)),
        PostOutcome::Bytes(_) => None,
    }
}

/// What is answered where every try failed: the last failure.
pub open spec fn gave_up(code: nat, msg: Seq<char>) -> ReplyModel {
    ReplyModel::BadGateway("coqui error "@ + decimal(code) + ": "@ + msg)
}

/// What is to be done next for a text.
pub enum Todo {
    /// This body is to be posted to this URL.
    Post { url: String, body: String },
    /// The request is answered with this.
    Answer(Reply),
}

/// What is to be done next. Where `remove_file` is set, the file of the reference that was
/// fetched is to be removed before.
pub struct Step {
    pub remove_file: bool,
    pub todo: Todo,
}

/// What is to be done next, as texts.
pub enum TodoModel {
    Post { url: Seq<char>, body: Seq<char> },
    Answer(ReplyModel),
}

/// What is to be done next, as texts.
pub struct StepModel {
    pub remove_file: bool,
    pub todo: TodoModel,
}

impl View for Step {
    type V = StepModel;

    open spec fn view(&self) -> StepModel {
        StepModel {
            remove_file: self.remove_file,
            todo: match self.todo {
                Todo::Post { url, body } => TodoModel::Post { url: url@, body: body@ },
                Todo::Answer(reply) => TodoModel::Answer(reply@),
            },
        }
    }
}

/// The state of the work on a text.
#[verifier::ext_equal]
pub struct JobModel {
    /// Where the requests go.
    pub url: Seq<char>,
    /// The languages to try, each of them twice.
    pub langs: Seq<Option<Seq<char>>>,
    /// The chunks of the text.
    pub chunks: Seq<Seq<char>>,
    /// The reference of the voice.
    pub speaker_wav: Option<Seq<char>>,
    /// There is a file of the reference that is still to be removed.
    pub file: bool,
    /// The number of tries that failed.
    pub turn: nat,
    /// The speech of the chunks that this try has so far.
    pub parts: Seq<Seq<u8>>,
}

impl JobModel {
    /// There is a try left, and a chunk left in it.
    pub open spec fn open(self) -> bool {
        &&& self.turn < 2 * self.langs.len()
        &&& self.parts.len() < self.chunks.len()
    }

    /// What the request for the next chunk of this try says.
    pub open spec fn body(self) -> JsonModel {
        speech_body(
            self.chunks[self.parts.len() as int],
            self.langs[self.turn as int / 2],
            self.speaker_wav,
        )
    }

    /// The request for the next chunk of this try.
    pub open spec fn request(self) -> TodoModel {
        TodoModel::Post { url: self.url, body: json_text(self.body()) }
    }

    /// The state after the speech of a chunk came.
    pub open spec fn with_part(self, part: Seq<u8>) -> JobModel {
        let parts = self.parts.push(part);
        JobModel { parts, file: self.file && parts.len() < self.chunks.len(), ..self }
    }

    /// The state after a try failed. The file of the reference goes with the second try of the
    /// first language.
    pub open spec fn with_failure(self) -> JobModel {
        JobModel {
            turn: self.turn + 1,
            parts: Seq::empty(),
            file: self.file && self.turn % 2 == 0,
            ..self
        }
    }

    /// A text of ASCII is cut as it is, and a language of ASCII is known by its letters in lower
    /// case. Of a text in which something is heard there is a chunk, and every chunk is short.
    pub open spec fn plainly(self, text: Seq<char>, lang: Seq<char>) -> bool {
        &&& is_ascii_chars(text) ==> self.chunks == chunks(cleaned(text), MAX_CHUNK as nat)
        &&& is_ascii_chars(lang) ==> self.langs == languages(ascii_lower(lang), lang)
        &&& has_sound(text) ==> self.chunks.len() > 0 && all_short(self.chunks, MAX_CHUNK as nat)
    }

    /// The state after a request was posted.
    pub open spec fn after(self, o: PostOutcome) -> JobModel {
        match o {
            PostOutcome::Bytes(b) => self.with_part(b@),
            _ => self.with_failure(),
        }
    }

    /// What is to be done after a request was posted: the next chunk; the answer, once the
    /// speech of all chunks is there; after a failure the next try from its first chunk; and
    /// the failure itself where no try is left.
    pub open spec fn step(self, o: PostOutcome) -> StepModel {
        let next = self.after(o);
        StepModel {
            remove_file: self.file && !next.file,
            todo: match post_error(o) {
                None => if next.parts.len() == next.chunks.len() {
                    TodoModel::Answer(ReplyModel::Wav(wav_joined(next.parts)))
                } else {
                    next.request()
                },
                Some((code, msg)) => if next.turn == 2 * next.langs.len() {
                    TodoModel::Answer(gave_up(code, msg))
                } else {
                    next.request()
                },
            },
        }
    }
}

/// The work on a text.
pub struct TtsJob {
    url: String,
    langs: Vec<Option<String>>,
    chunks: Vec<String>,
    speaker_wav: Option<String>,
    file: bool,
    turn: usize,
    parts: usize,
    wav: Vec<u8>,
    received: Ghost<Seq<Seq<u8>>>,
}

impl View for TtsJob {
    type V = JobModel;

    closed spec fn view(&self) -> JobModel {
        JobModel {
            url: self.url@,
            langs: opt_texts(self.langs@),
            chunks: texts(self.chunks@),
            speaker_wav: opt_text(self.speaker_wav),
            file: self.file,
            turn: self.turn as nat,
            parts: self.received@,
        }
    }
}

impl TtsJob {
    /// What has come is joined so far.
    pub closed spec fn wf(&self) -> bool {
        &&& self.parts == self.received@.len()
        &&& self.wav@ == wav_joined(self.received@)
        &&& self.langs@.len() <= 5
    }

    fn request(&self) -> (r: Todo)
        requires
            self.wf(),
            self@.open(),
        ensures
            (match r {
                Todo::Post { url, body } => TodoModel::Post { url: url@, body: body@ },
                Todo::Answer(reply) => TodoModel::Answer(reply@),
            }) == self@.request(),
            r is Post && json_parsed(r->body@) == Some(self@.body()),
    {
        proof {
            assert(texts(self.chunks@).len() == self.chunks@.len());
            assert(opt_texts(self.langs@).len() == self.langs@.len());
        }
        let body = build_speech_body(
            self.chunks[self.parts].as_str(),
            &self.langs[self.turn / 2],
            &self.speaker_wav,
        );
        Todo::Post { url: self.url.clone(), body }
    }

    /// Takes what came of the request posted last, and tells what is to be done next. The
    /// service can read what is asked of it from the body of a request.
    pub fn advance(&mut self, outcome: PostOutcome) -> (r: Step)
        requires
            old(self).wf(),
            old(self)@.open(),
        ensures
            final(self).wf(),
            final(self)@ == old(self)@.after(outcome),
            r@ == old(self)@.step(outcome),
            r@.todo is Post ==> final(self)@.open() && json_parsed(r@.todo->body) == Some(
                final(self)@.body(),
            ),
    {
        proof {
            assert(texts(self.chunks@).len() == self.chunks@.len());
            assert(opt_texts(self.langs@).len() == self.langs@.len());
        }
        let had_file = self.file;
        let total: usize = self.chunks.len();
        let (code, msg) = match outcome {
            PostOutcome::Bytes(bytes) => {
                let ghost before = self.received@;
                join_wav(&mut self.wav, &bytes, self.parts == 0);
                self.parts = self.parts + 1;
                self.received = Ghost(before.push(bytes@));
                proof {
                    assert(before.push(bytes@).drop_last() =~= before);
                    if before.len() == 0 {
                        assert(self.wav@ =~= bytes@);
                    }
                }
                if self.parts == total {
                    self.file = false;
                    let wav = self.wav.clone();
                    proof {
                        assert(wav@ =~= self.wav@);
                        assert(self@ =~= old(self)@.after(outcome));
                    }
                    return Step { remove_file: had_file, todo: Todo::Answer(Reply::Wav(wav)) };
                }
                proof {
                    assert(self@ =~= old(self)@.after(outcome));
                }
                return Step { remove_file: false, todo: self.request() };
            },
            PostOutcome::Unreachable(e) => {
                let mut s = "connect error: ".to_owned();
                s.append(e.as_str());
                (502u16, s)
            },
            PostOutcome::Refused { code, body } => (code, body),
            PostOutcome::Broken(e) => {
                let mut s = "bytes error: ".to_owned();
                s.append(e.as_str());
                (502u16, s)
            },
        };
        if self.turn % 2 == 1 {
            self.file = false;
        }
        self.turn = self.turn + 1;
        self.parts = 0;
        self.wav = Vec::new();
        self.received = Ghost(Seq::empty());
        proof {
            assert(self.wav@ =~= wav_joined(Seq::empty()));
            assert(self@ =~= old(self)@.after(outcome));
        }
        let remove_file = had_file && !self.file;
        if self.turn == 2 * self.langs.len() {
            let mut s = "coqui error ".to_owned();
            s.append(decimal_text(code as u128).as_str());
            s.append(": ");
            s.append(msg.as_str());
            Step { remove_file, todo: Todo::Answer(Reply::BadGateway(s)) }
        } else {
            Step { remove_file, todo: self.request() }
        }
    }
}

/// The work on what a request asks for, before anything is posted.
pub open spec fn fresh_job(
    base: Seq<char>,
    text: Seq<char>,
    lang: Seq<char>,
    speaker_wav: Option<Seq<char>>,
    file: bool,
) -> JobModel {
    let all = chunks(cleaned(nfc(text)), MAX_CHUNK as nat);
    JobModel {
        url: without_end_slashes(base) + "/tts"@,
        langs: languages(lowercase_text(lang), lang),
        chunks: all,
        speaker_wav,
        file: file && all.len() > 0,
        turn: 0,
        parts: Seq::empty(),
    }
}

/// What is to be done first: a blank text is refused, and of a text of which cleaning leaves
/// nothing the speech is empty at once.
pub open spec fn first_step(job: JobModel, text: Seq<char>, file: bool) -> StepModel {
    if is_blank(text) {
        StepModel {
            remove_file: false,
            todo: TodoModel::Answer(ReplyModel::BadRequest("missing text"@)),
        }
    } else if job.chunks.len() == 0 {
        StepModel {
            remove_file: file,
            todo: TodoModel::Answer(ReplyModel::Wav(Seq::empty())),
        }
    } else {
        StepModel { remove_file: false, todo: job.request() }
    }
}

/// Starts the work on what a request asks for, by the voice service at `base`. `speaker_wav` is
/// the file of the reference, and `file` tells that it was fetched and is to be removed.
pub fn begin(base: &str, q: &TtsQuery, speaker_wav: Option<String>, file: bool) -> (r: (
    TtsJob,
    Step,
))
    ensures
        r.0.wf(),
        r.0@ == fresh_job(base@, q.text@, q.lang@, opt_text(speaker_wav), file),
        r.1@ == first_step(r.0@, q.text@, file),
        r.0@.plainly(q.text@, q.lang@),
        r.1@.todo is Post ==> r.0@.open() && json_parsed(r.1@.todo->body) == Some(r.0@.body()),
{
    let mut url = trim_end_slashes(base);
    url.append("/tts");
    let all = normalize_and_chunk(q.text.as_str(), MAX_CHUNK);
    let langs = language_tries(q.lang.as_str());
    let some = all.len() > 0;
    proof {
        assert(texts(all@).len() == all@.len());
        assert(opt_texts(langs@).len() == langs@.len());
    }
    let job = TtsJob {
        url,
        langs,
        chunks: all,
        speaker_wav,
        file: file && some,
        turn: 0,
        parts: 0,
        wav: Vec::new(),
        received: Ghost(Seq::empty()),
    };
    proof {
        assert(job.wav@ =~= wav_joined(Seq::empty()));
        assert(job@ =~= fresh_job(base@, q.text@, q.lang@, opt_text(speaker_wav), file));
    }
    if blank(q.text.as_str()) {
        (job, Step { remove_file: false, todo: Todo::Answer(Reply::BadRequest("missing text".to_owned())) })
    } else if !some {
        let none: Vec<u8> = Vec::new();
        proof {
            assert(none@ =~= Seq::empty());
        }
        (job, Step { remove_file: file, todo: Todo::Answer(Reply::Wav(none)) })
    } else {
        let todo = job.request();
        (job, Step { remove_file: false, todo })
    }
}

/// What is to be done before the work on a text can start.
pub enum Opening {
    /// The reference of the voice is to be fetched from this URL.
    Fetch(String),
    /// The reference of the voice is to be saved in a file.
    Save(Vec<u8>),
    /// Nothing: this is the work, and what is to be done first.
    Ready(TtsJob, Step),
    /// The request is answered with this.
    Answer(Reply),
}

impl Opening {
    /// The work starts with this reference of the voice; `file` tells that it was fetched.
    pub open spec fn is_ready(
        self,
        base: Seq<char>,
        q: TtsQuery,
        speaker_wav: Option<Seq<char>>,
        file: bool,
    ) -> bool {
        match self {
            Opening::Ready(job, step) => {
                &&& job.wf()
                &&& job@ == fresh_job(base, q.text@, q.lang@, speaker_wav, file)
                &&& step@ == first_step(job@, q.text@, file)
                &&& job@.plainly(q.text@, q.lang@)
                &&& step@.todo is Post ==> job@.open() && json_parsed(step@.todo->body) == Some(
                    job@.body(),
                )
            },
            _ => false,
        }
    }
}

/// What is to be done first for a request: a reference behind a URL is fetched.
pub fn open_request(base: &str, q: &TtsQuery) -> (r: Opening)
    ensures
        match opt_text(q.speaker_wav) {
            Some(s) => if is_url(s) {
                r is Fetch && r->Fetch_0@ == s
            } else {
                r.is_ready(base@, *q, Some(s), false)
            },
            None => r.is_ready(base@, *q, None, false),
        },
{
    match voice_reference(q) {
        Reference::Absent => {
            let (job, step) = begin(base, q, None, false);
            Opening::Ready(job, step)
        },
        Reference::Local(path) => {
            let (job, step) = begin(base, q, Some(path), false);
            Opening::Ready(job, step)
        },
        Reference::Remote(url) => Opening::Fetch(url),
    }
}

/// What is to be done once the reference was fetched: it is saved; where there is none yet, the
/// text is spoken without it; any other failure is the answer.
pub fn reference_fetched(base: &str, q: &TtsQuery, outcome: FetchOutcome) -> (r: Opening)
    ensures
        match outcome {
            FetchOutcome::Bytes(bytes) => r == Opening::Save(bytes),
            _ => match fetch_answer(outcome) {
                Some(msg) => r is Answer && r->Answer_0@ == ReplyModel::BadGateway(msg),
                None => r.is_ready(base@, *q, None, false),
            },
        },
{
    match after_fetch(outcome) {
        Fetched::Save(bytes) => Opening::Save(bytes),
        Fetched::Answer(reply) => Opening::Answer(reply),
        Fetched::Without => {
            let (job, step) = begin(base, q, None, false);
            Opening::Ready(job, step)
        },
    }
}

/// What is to be done once the reference was saved, in the file of this name or with this
/// failure.
pub fn reference_saved(base: &str, q: &TtsQuery, saved: Result<String, String>) -> (r: Opening)
    ensures
        match saved {
            Ok(path) => r.is_ready(base@, *q, Some(path@), true),
            Err(e) => r is Answer && r->Answer_0@ == ReplyModel::ServerError(
                "temp write error: "@ + e@,
            ),
        },
{
    match saved {
        Ok(path) => {
            let (job, step) = begin(base, q, Some(path), true);
            Opening::Ready(job, step)
        },
        Err(e) => Opening::Answer(save_failure(e.as_str())),
    }
}

}
