//! Speech synthesis by way of the voice service: what a request asks for, which requests are
//! posted in turn, and what is answered in the end.
use crate::query::{
    carries_all, lookup, pair_texts, parse_query, query_pairs, query_text, value_of,
};
use crate::text::{
    ascii_lower, decimal, decimal_text, lemma_texts_push, lowercase, lowercase_text, opt_text,
    same_text, starts_with, texts, to_ascii_lower, trim, trimmed,
};
use vstd::prelude::*;
use vstd::string::*;
use vstd::utf8::*;

verus! {

/// The most bytes of a chunk that is posted, unless its last character needs more.
pub const MAX_CHUNK: usize = 220;

/// What a request asks for.
pub struct TtsQuery {
    pub text: String,
    pub lang: String,
    pub voice: Option<String>,
    pub speaker_wav: Option<String>,
}

/// What a request asks for, as texts.
#[verifier::ext_equal]
pub struct TtsFields {
    pub text: Seq<char>,
    pub lang: Seq<char>,
    pub voice: Option<Seq<char>>,
    pub speaker_wav: Option<Seq<char>>,
}

impl TtsQuery {
    pub open spec fn fields(&self) -> TtsFields {
        TtsFields {
            text: self.text@,
            lang: self.lang@,
            voice: opt_text(self.voice),
            speaker_wav: opt_text(self.speaker_wav),
        }
    }
}

/// The value of `key`, or `default` if it is not given.
pub open spec fn given(
    ps: Seq<(Seq<char>, Seq<char>)>,
    key: Seq<char>,
    default: Seq<char>,
) -> Seq<char> {
    match value_of(ps, key) {
        Some(v) => v,
        None => default,
    }
}

/// The voice that is asked for: none if it is blank, `default` or `none`, in any case of ASCII.
pub open spec fn voice_choice(raw: Seq<char>) -> Option<Seq<char>> {
    let low = ascii_lower(trimmed(raw));
    if low.len() == 0 || low == "default"@ || low == "none"@ {
        None
    } else {
        Some(trimmed(raw))
    }
}

/// The reference of the voice that is asked for: none if it is blank.
pub open spec fn wav_choice(raw: Seq<char>) -> Option<Seq<char>> {
    if trimmed(raw).len() == 0 {
        None
    } else {
        Some(trimmed(raw))
    }
}

/// What the pairs of a query ask for, with the voice and its reference of the configuration
/// where the query gives none.
pub open spec fn tts_fields(
    ps: Seq<(Seq<char>, Seq<char>)>,
    voice: Seq<char>,
    wav: Seq<char>,
) -> TtsFields {
    TtsFields {
        text: given(ps, "text"@, Seq::empty()),
        lang: given(ps, "lang"@, "en"@),
        voice: voice_choice(given(ps, "voice"@, voice)),
        speaker_wav: wav_choice(given(ps, "speaker_wav"@, wav)),
    }
}

fn lookup_or(pairs: &Vec<(String, String)>, key: &str, default: &str) -> (r: String)
    ensures
        r@ == given(pair_texts(pairs@), key@, default@),
{
    match lookup(pairs, key) {
        Some(v) => v,
        None => default.to_owned(),
    }
}

/// What the pairs of a query ask for: see [`tts_fields`].
pub fn tts_query(pairs: &Vec<(String, String)>, voice: &str, wav: &str) -> (r: TtsQuery)
    ensures
        r.fields() == tts_fields(pair_texts(pairs@), voice@, wav@),
{
    let empty = String::new();
    let text = lookup_or(pairs, "text", empty.as_str());
    let lang = lookup_or(pairs, "lang", "en");
    let raw_voice = trim(lookup_or(pairs, "voice", voice).as_str());
    let low = to_ascii_lower(raw_voice.as_str());
    let voice_opt = if low.as_str().is_empty() || same_text(low.as_str(), "default") || same_text(
        low.as_str(),
        "none",
    ) {
        None
    } else {
        Some(raw_voice)
    };
    let raw_wav = trim(lookup_or(pairs, "speaker_wav", wav).as_str());
    let wav_opt = if raw_wav.as_str().is_empty() {
        None
    } else {
        Some(raw_wav)
    };
    let r = TtsQuery { text, lang, voice: voice_opt, speaker_wav: wav_opt };
    assert(r.fields().text =~= given(pair_texts(pairs@), "text"@, Seq::empty()));
    r
}

/// What a query asks for. Of a query that carries pairs it is what they ask for.
pub fn read_tts_query(query: &str, voice: &str, wav: &str) -> (r: TtsQuery)
    ensures
        r.fields() == tts_fields(query_pairs(query@), voice@, wav@),
        forall|raws: Seq<(Seq<char>, Seq<char>)>, ps: Seq<(Seq<char>, Seq<char>)>|
            query@ == query_text(raws) && #[trigger] carries_all(raws, ps) ==> r.fields()
                == tts_fields(ps, voice@, wav@),
{
    let pairs = parse_query(query);
    tts_query(&pairs, voice, wav)
}

/// Where the reference of the voice is to be had.
pub enum Reference {
    /// There is none.
    Absent,
    /// In this file.
    Local(String),
    /// At this URL, from which it has to be fetched first.
    Remote(String),
}

/// The reference of the voice stands behind a URL.
pub open spec fn is_url(s: Seq<char>) -> bool {
    "http://"@.is_prefix_of(s) || "https://"@.is_prefix_of(s)
}

/// Where the reference of the voice is to be had.
pub fn voice_reference(q: &TtsQuery) -> (r: Reference)
    ensures
        match r {
            Reference::Absent => q.speaker_wav is None,
            Reference::Local(path) => opt_text(q.speaker_wav) == Some(path@) && !is_url(path@),
            Reference::Remote(url) => opt_text(q.speaker_wav) == Some(url@) && is_url(url@),
        },
{
    match &q.speaker_wav {
        None => Reference::Absent,
        Some(s) => if starts_with(s.as_str(), "http://") || starts_with(s.as_str(), "https://") {
            Reference::Remote(s.clone())
        } else {
            Reference::Local(s.clone())
        },
    }
}

/// What came of fetching the reference of the voice.
pub enum FetchOutcome {
    /// The server could not be reached.
    Unreachable(String),
    /// The server refused: the code, the code with its meaning, and the body.
    Refused { code: u16, status: String, body: String },
    /// The body broke off.
    Broken(String),
    /// The file.
    Bytes(Vec<u8>),
}

/// What is answered to a request.
pub enum Reply {
    /// The speech, as a WAV file.
    Wav(Vec<u8>),
    BadRequest(String),
    BadGateway(String),
    ServerError(String),
}

/// What is answered to a request, as bytes and texts.
pub enum ReplyModel {
    Wav(Seq<u8>),
    BadRequest(Seq<char>),
    BadGateway(Seq<char>),
    ServerError(Seq<char>),
}

impl View for Reply {
    type V = ReplyModel;

    open spec fn view(&self) -> ReplyModel {
        match self {
            Reply::Wav(b) => ReplyModel::Wav(b@),
            Reply::BadRequest(s) => ReplyModel::BadRequest(s@),
            Reply::BadGateway(s) => ReplyModel::BadGateway(s@),
            Reply::ServerError(s) => ReplyModel::ServerError(s@),
        }
    }
}

/// What follows from fetching the reference of the voice.
pub enum Fetched {
    /// It is to be saved in a file.
    Save(Vec<u8>),
    /// There is none yet: the text is spoken without it.
    Without,
    /// The request is answered with this.
    Answer(Reply),
}

/// What follows from fetching the reference of the voice.
pub open spec fn fetch_answer(o: FetchOutcome) -> Option<Seq<char>> {
    match o {
        FetchOutcome::Unreachable(e) => Some("snapshot fetch error: "@ + e@),
        FetchOutcome::Refused { code, status, body } => if code == 400 {
            None
        } else {
            Some("snapshot fetch failed with status "@ + status@ + ": "@ + body@)
        },
        FetchOutcome::Broken(e) => Some("snapshot read error: "@ + e@),
        FetchOutcome::Bytes(_) => None,
    }
}

/// What follows from fetching the reference of the voice. A bad request means that there is no
/// voice yet, and is no failure.
pub fn after_fetch(outcome: FetchOutcome) -> (r: Fetched)
    ensures
        match r {
            Fetched::Save(bytes) => outcome == FetchOutcome::Bytes(bytes),
            Fetched::Without => outcome is Refused && outcome->code == 400,
            Fetched::Answer(reply) => fetch_answer(outcome) is Some && reply@
                == ReplyModel::BadGateway(fetch_answer(outcome).unwrap()),
        },
{
    match outcome {
        FetchOutcome::Bytes(b) => Fetched::Save(b),
        FetchOutcome::Unreachable(e) => {
            let mut s = "snapshot fetch error: ".to_owned();
            s.append(e.as_str());
            Fetched::Answer(Reply::BadGateway(s))
        },
        FetchOutcome::Broken(e) => {
            let mut s = "snapshot read error: ".to_owned();
            s.append(e.as_str());
            Fetched::Answer(Reply::BadGateway(s))
        },
        FetchOutcome::Refused { code, status, body } => {
            if code == 400 {
                Fetched::Without
            } else {
                let mut s = "snapshot fetch failed with status ".to_owned();
                s.append(status.as_str());
                s.append(": ");
                s.append(body.as_str());
                Fetched::Answer(Reply::BadGateway(s))
            }
        },
    }
}

/// The name of the file for a reference that was fetched, by the milliseconds of the clock.
pub fn reference_file_name(millis: u128) -> (r: String)
    ensures
        r@ == "coqui_ref_"@ + decimal(millis as nat) + ".wav"@,
{
    let mut s = "coqui_ref_".to_owned();
    s.append(decimal_text(millis).as_str());
    s.append(".wav");
    s
}

/// What is answered where the reference could not be saved.
pub fn save_failure(msg: &str) -> (r: Reply)
    ensures
        r@ == ReplyModel::ServerError("temp write error: "@ + msg@),
{
    let mut s = "temp write error: ".to_owned();
    s.append(msg);
    Reply::ServerError(s)
}

/// The names by which the voice service may know a language, and the language as it was given
/// where it is none of those. `lower` is the language in lower case.
pub open spec fn language_names(lower: Seq<char>, lang: Seq<char>) -> Seq<Seq<char>> {
    if lower == "ko"@ || lower == "kr"@ || lower == "ko-kr"@ {
        seq!["ko"@, "ko-KR"@, "Korean"@]
    } else if lower == "ja"@ || lower == "jp"@ || lower == "ja-jp"@ {
        seq!["ja"@, "ja-JP"@, "Japanese"@]
    } else if lower == "zh"@ || lower == "zh-cn"@ || lower == "zh-hans"@ {
        seq!["zh"@, "zh-CN"@, "cmn-Hans-CN"@, "Chinese"@]
    } else if lower == "zh-tw"@ || lower == "zh-hant"@ {
        seq!["zh-TW"@, "cmn-Hant-TW"@, "Chinese"@]
    } else if lower == "fr"@ || lower == "fr-fr"@ {
        seq!["fr"@, "fr-FR"@, "French"@]
    } else {
        seq![lang]
    }
}

/// A name that leaves the choice of the language to the voice service.
pub open spec fn language_choice(name: Seq<char>) -> Option<Seq<char>> {
    if name == "__AUTO__"@ {
        None
    } else {
        Some(name)
    }
}

/// The languages that are tried, in order. The last one is left to the voice service.
pub open spec fn languages(lower: Seq<char>, lang: Seq<char>) -> Seq<Option<Seq<char>>> {
    let names = language_names(lower, lang);
    Seq::new(
        names.len() + 1,
        |i: int|
            if i < names.len() {
                language_choice(names[i])
            } else {
                None
            },
    )
}

/// The texts of a list of optional strings.
pub open spec fn opt_texts(v: Seq<Option<String>>) -> Seq<Option<Seq<char>>> {
    Seq::new(v.len(), |i: int| opt_text(v[i]))
}

proof fn lemma_opt_texts_push(v: Seq<Option<String>>, o: Option<String>)
    ensures
        opt_texts(v.push(o)) == opt_texts(v).push(opt_text(o)),
{
    assert(opt_texts(v.push(o)) =~= opt_texts(v).push(opt_text(o)));
}

fn names3(a: &str, b: &str, c: &str) -> (r: Vec<String>)
    ensures
        texts(r@) == seq![a@, b@, c@],
{
    let mut v: Vec<String> = Vec::new();
    v.push(a.to_owned());
    v.push(b.to_owned());
    v.push(c.to_owned());
    assert(texts(v@) =~= seq![a@, b@, c@]);
    v
}

fn names_of(low: &str, lang: &str) -> (r: Vec<String>)
    ensures
        texts(r@) == language_names(low@, lang@),
{
    if same_text(low, "ko") || same_text(low, "kr") || same_text(low, "ko-kr") {
        names3("ko", "ko-KR", "Korean")
    } else if same_text(low, "ja") || same_text(low, "jp") || same_text(low, "ja-jp") {
        names3("ja", "ja-JP", "Japanese")
    } else if same_text(low, "zh") || same_text(low, "zh-cn") || same_text(low, "zh-hans") {
        let mut v = names3("zh", "zh-CN", "cmn-Hans-CN");
        let last = "Chinese".to_owned();
        proof {
            lemma_texts_push(v@, last);
        }
        v.push(last);
        assert(texts(v@) =~= seq!["zh"@, "zh-CN"@, "cmn-Hans-CN"@, "Chinese"@]);
        v
    } else if same_text(low, "zh-tw") || same_text(low, "zh-hant") {
        names3("zh-TW", "cmn-Hant-TW", "Chinese")
    } else if same_text(low, "fr") || same_text(low, "fr-fr") {
        names3("fr", "fr-FR", "French")
    } else {
        let mut v: Vec<String> = Vec::new();
        v.push(lang.to_owned());
        assert(texts(v@) =~= seq![lang@]);
        v
    }
}

/// The languages that are tried for `lang`, given its lower case.
pub fn languages_for(lower: &str, lang: &str) -> (r: Vec<Option<String>>)
    ensures
        opt_texts(r@) == languages(lower@, lang@),
        2 <= r@.len() <= 5,
{
    let names = names_of(lower, lang);
    let ghost all = languages(lower@, lang@);
    proof {
        assert(texts(names@).len() == names@.len());
    }
    let mut out: Vec<Option<String>> = Vec::new();
    let mut i: usize = 0;
    while i < names.len()
        invariant
            i <= names@.len(),
            texts(names@) == language_names(lower@, lang@),
            all == languages(lower@, lang@),
            opt_texts(out@) == all.take(i as int),
        decreases names@.len() - i,
    {
        proof {
            assert(texts(names@)[i as int] == names@[i as int]@);
        }
        let c = if same_text(names[i].as_str(), "__AUTO__") {
            None
        } else {
            Some(names[i].clone())
        };
        proof {
            lemma_opt_texts_push(out@, c);
            assert(opt_text(c) == all[i as int]);
            assert(all.take(i + 1) =~= all.take(i as int).push(all[i as int]));
        }
        out.push(c);
        i = i + 1;
    }
    proof {
        lemma_opt_texts_push(out@, None);
        assert(all =~= all.take(i as int).push(None));
    }
    out.push(None);
    proof {
        assert(opt_texts(out@).len() == out@.len());
    }
    out
}

/// The languages that are tried for `lang`.
pub fn language_tries(lang: &str) -> (r: Vec<Option<String>>)
    ensures
        opt_texts(r@) == languages(lowercase_text(lang@), lang@),
        is_ascii_chars(lang@) ==> opt_texts(r@) == languages(ascii_lower(lang@), lang@),
        2 <= r@.len() <= 5,
{
    let low = lowercase(lang);
    languages_for(low.as_str(), lang)
}

}
