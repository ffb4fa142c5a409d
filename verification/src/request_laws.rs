//! What the voice service is asked, request by request, and what a request to speak is answered.
use crate::json::{json_text, JsonModel};
use crate::query::value_of;
use crate::speech::{chunks, cleaned, nfc};
use crate::text::{
    ascii_lower, decimal, is_blank, law_decimal_round_trip, lemma_trimmed_empty, lowercase_text,
    trimmed, unsigned_value, without_end_slashes,
};
use crate::tts::{
    fetch_answer, is_url, language_names, languages, tts_fields, voice_choice, wav_choice,
    FetchOutcome, Reply, ReplyModel, TtsQuery,
};
use crate::tts_job::{
    first_step, fresh_job, gave_up, speech_body, JobModel, Opening, PostOutcome, Step, Todo,
    TodoModel,
};
use crate::tts_laws::{failures, law_tries_in_order, played};
use vstd::prelude::*;
use vstd::string::*;

verus! {

/// A body that asks for the speech of `text` as a WAV file, in the language and with the
/// reference of the voice that there is, and for nothing else.
pub open spec fn asks_for(
    ms: Map<Seq<char>, JsonModel>,
    text: Seq<char>,
    lang: Option<Seq<char>>,
    wav: Option<Seq<char>>,
) -> bool {
    &&& ms.contains_key("text"@) && ms["text"@] == JsonModel::Text(text)
    &&& ms.contains_key("audio_format"@) && ms["audio_format"@] == JsonModel::Text("wav"@)
    &&& ms.contains_key("language"@) == lang is Some
    &&& lang matches Some(l) ==> ms["language"@] == JsonModel::Text(l)
    &&& ms.contains_key("speaker_wav"@) == wav is Some
    &&& wav matches Some(w) ==> ms["speaker_wav"@] == JsonModel::Text(w)
    &&& forall|key: Seq<char>| #[trigger]
        ms.contains_key(key) ==> key == "text"@ || key == "audio_format"@ || key == "language"@
            || key == "speaker_wav"@
}

/// A request to `url` that asks for the speech of `text`.
pub open spec fn posts(
    todo: TodoModel,
    url: Seq<char>,
    text: Seq<char>,
    lang: Option<Seq<char>>,
    wav: Option<Seq<char>>,
) -> bool {
    match todo {
        TodoModel::Post { url: u, body } => u == url && exists|ms: Map<Seq<char>, JsonModel>|
            body == json_text(JsonModel::Object(ms)) && #[trigger] asks_for(ms, text, lang, wav),
        TodoModel::Answer(_) => false,
    }
}

proof fn lemma_keys()
    ensures
        "text"@ != "audio_format"@,
        "text"@ != "language"@,
        "text"@ != "speaker_wav"@,
        "audio_format"@ != "language"@,
        "audio_format"@ != "speaker_wav"@,
        "language"@ != "speaker_wav"@,
{
    reveal_strlit("text");
    reveal_strlit("audio_format");
    reveal_strlit("language");
    reveal_strlit("speaker_wav");
    assert("text"@.len() == 4 && "audio_format"@.len() == 12 && "language"@.len() == 8
        && "speaker_wav"@.len() == 11);
}

proof fn lemma_asks_for(text: Seq<char>, lang: Option<Seq<char>>, wav: Option<Seq<char>>)
    ensures
        speech_body(text, lang, wav) is Object,
        asks_for(speech_body(text, lang, wav)->Object_0, text, lang, wav),
{
    lemma_keys();
}

/// The request of a try asks for the chunk that comes next in it, in the language of the try.
pub proof fn law_request_asks_for_the_next_chunk(m: JobModel)
    ensures
        posts(
            m.request(),
            m.url,
            m.chunks[m.parts.len() as int],
            m.langs[m.turn as int / 2],
            m.speaker_wav,
        ),
{
    let text = m.chunks[m.parts.len() as int];
    let lang = m.langs[m.turn as int / 2];
    lemma_asks_for(text, lang, m.speaker_wav);
    let ms = speech_body(text, lang, m.speaker_wav)->Object_0;
    assert(asks_for(ms, text, lang, m.speaker_wav));
}

/// The number of requests that succeeded since the last one that did not.
pub open spec fn streak(os: Seq<PostOutcome>) -> nat
    decreases os.len(),
{
    if os.len() == 0 || !(os.last() is Bytes) {
        0
    } else {
        streak(os.drop_last()) + 1
    }
}

proof fn lemma_streak(m: JobModel, os: Seq<PostOutcome>)
    requires
        m.parts.len() == 0,
    ensures
        played(m, os).parts.len() == streak(os),
    decreases os.len(),
{
    if os.len() > 0 {
        lemma_streak(m, os.drop_last());
    }
}

/// After any number of replies, as long as there is something left to do, the request that is
/// posted asks for the chunk whose number is how many requests in a row have succeeded, and for
/// the language whose number is half of how many have failed.
pub proof fn law_requests_in_turn(m: JobModel, os: Seq<PostOutcome>)
    requires
        m.parts.len() == 0,
        os.len() > 0,
        played(m, os).open(),
    ensures
        posts(
            played(m, os.drop_last()).step(os.last()).todo,
            m.url,
            m.chunks[streak(os) as int],
            m.langs[(m.turn + failures(os)) as int / 2],
            m.speaker_wav,
        ),
{
    lemma_streak(m, os);
    law_tries_in_order(m, os);
    law_request_asks_for_the_next_chunk(played(m, os));
}

proof fn lemma_streak_all(os: Seq<PostOutcome>)
    requires
        forall|i: int| 0 <= i < os.len() ==> #[trigger] os[i] is Bytes,
    ensures
        streak(os) == os.len(),
        failures(os) == 0,
    decreases os.len(),
{
    if os.len() > 0 {
        let d = os.drop_last();
        assert forall|i: int| 0 <= i < d.len() implies #[trigger] d[i] is Bytes by {
            assert(os[i] is Bytes);
        }
        lemma_streak_all(d);
        assert(os[os.len() - 1] is Bytes);
    }
}

/// In a try whose requests all succeed every chunk of the text is asked for, once and in order:
/// after `k` replies the request asks for chunk number `k`.
pub proof fn law_try_speaks_every_chunk(m: JobModel, os: Seq<PostOutcome>)
    requires
        m.open(),
        m.parts.len() == 0,
        0 < os.len() < m.chunks.len(),
        forall|i: int| 0 <= i < os.len() ==> #[trigger] os[i] is Bytes,
    ensures
        posts(
            played(m, os.drop_last()).step(os.last()).todo,
            m.url,
            m.chunks[os.len() as int],
            m.langs[m.turn as int / 2],
            m.speaker_wav,
        ),
{
    lemma_streak_all(os);
    lemma_streak(m, os);
    law_tries_in_order(m, os);
    law_requests_in_turn(m, os);
}

/// The first request for a text that is not blank asks for its first chunk, in the first of the
/// languages that are tried, at the service that was given, with the reference that was given.
pub proof fn law_first_request(
    base: Seq<char>,
    text: Seq<char>,
    lang: Seq<char>,
    wav: Option<Seq<char>>,
    file: bool,
)
    requires
        !is_blank(text),
        chunks(cleaned(nfc(text)), 220).len() > 0,
    ensures
        ({
            let job = fresh_job(base, text, lang, wav, file);
            let step = first_step(job, text, file);
            &&& job.chunks == chunks(cleaned(nfc(text)), 220)
            &&& job.langs == languages(lowercase_text(lang), lang)
            &&& job.turn == 0 && job.parts.len() == 0 && job.file == file
            &&& !step.remove_file
            &&& posts(
                step.todo,
                without_end_slashes(base) + "/tts"@,
                chunks(cleaned(nfc(text)), 220)[0],
                languages(lowercase_text(lang), lang)[0],
                wav,
            )
        }),
{
    law_request_asks_for_the_next_chunk(fresh_job(base, text, lang, wav, file));
}

/// A text that has nothing to be spoken is answered at once, and nothing is posted: a blank one
/// is refused, and any other has empty speech.
pub proof fn law_nothing_to_speak(job: JobModel, text: Seq<char>, file: bool)
    ensures
        is_blank(text) ==> first_step(job, text, file).todo == TodoModel::Answer(
            ReplyModel::BadRequest("missing text"@),
        ) && !first_step(job, text, file).remove_file,
        !is_blank(text) && job.chunks.len() == 0 ==> first_step(job, text, file).todo
            == TodoModel::Answer(ReplyModel::Wav(Seq::empty())) && first_step(
            job,
            text,
            file,
        ).remove_file == file,
{
}

/// After a failure nothing of its try is left, and the next try begins, if there is one.
pub proof fn law_failure_starts_over(m: JobModel, o: PostOutcome)
    requires
        m.open(),
        !(o is Bytes),
    ensures
        m.after(o).parts.len() == 0,
        m.turn + 1 < 2 * m.langs.len() ==> m.step(o).todo is Post,
        m.turn + 1 == 2 * m.langs.len() ==> m.step(o).todo is Answer,
{
}

/// A message names a failure: the code, and what went wrong.
pub open spec fn names_failure(reply: ReplyModel, code: nat, msg: Seq<char>) -> bool {
    match reply {
        ReplyModel::BadGateway(s) => {
            &&& s.len() >= msg.len() + 14
            &&& "coqui error "@.is_prefix_of(s)
            &&& unsigned_value(s.subrange(12, s.len() - msg.len() - 2), code) == Some(code)
            &&& (": "@ + msg).is_suffix_of(s)
        },
        _ => false,
    }
}

proof fn lemma_gave_up(code: nat, msg: Seq<char>)
    ensures
        names_failure(gave_up(code, msg), code, msg),
{
    reveal_strlit("coqui error ");
    reveal_strlit(": ");
    let s = "coqui error "@ + decimal(code) + ": "@ + msg;
    assert("coqui error "@.is_prefix_of(s));
    assert(s.subrange(12, s.len() - msg.len() - 2) =~= decimal(code));
    assert((": "@ + msg).is_suffix_of(s));
    law_decimal_round_trip(code, code);
}

/// Where every try has failed, the answer names the last failure: what the service answered, or
/// that it could not be reached, or that its answer broke off.
pub proof fn law_last_failure_is_the_answer(m: JobModel, o: PostOutcome)
    requires
        m.open(),
        m.turn + 1 == 2 * m.langs.len(),
        !(o is Bytes),
    ensures
        m.step(o).todo matches TodoModel::Answer(reply) && (match o {
            PostOutcome::Refused { code, body } => names_failure(reply, code as nat, body@),
            PostOutcome::Unreachable(e) => names_failure(reply, 502, "connect error: "@ + e@),
            PostOutcome::Broken(e) => names_failure(reply, 502, "bytes error: "@ + e@),
            PostOutcome::Bytes(_) => true,
        }),
{
    match o {
        PostOutcome::Refused { code, body } => {
            lemma_gave_up(code as nat, body@);
        },
        PostOutcome::Unreachable(e) => {
            lemma_gave_up(502, "connect error: "@ + e@);
        },
        PostOutcome::Broken(e) => {
            lemma_gave_up(502, "bytes error: "@ + e@);
        },
        PostOutcome::Bytes(_) => {},
    }
}

/// What a query gives is taken, whatever it is, and what it does not give has its default.
pub proof fn law_query_is_taken(
    ps: Seq<(Seq<char>, Seq<char>)>,
    voice: Seq<char>,
    wav: Seq<char>,
    v: Seq<char>,
)
    ensures
        value_of(ps, "text"@) == Some(v) ==> tts_fields(ps, voice, wav).text == v,
        value_of(ps, "text"@) is None ==> tts_fields(ps, voice, wav).text.len() == 0,
        value_of(ps, "lang"@) == Some(v) ==> tts_fields(ps, voice, wav).lang == v,
        value_of(ps, "lang"@) is None ==> tts_fields(ps, voice, wav).lang == "en"@,
        value_of(ps, "voice"@) == Some(v) ==> tts_fields(ps, voice, wav).voice == voice_choice(v),
        value_of(ps, "voice"@) is None ==> tts_fields(ps, voice, wav).voice == voice_choice(voice),
        value_of(ps, "speaker_wav"@) == Some(v) ==> tts_fields(ps, voice, wav).speaker_wav
            == wav_choice(v),
        value_of(ps, "speaker_wav"@) is None ==> tts_fields(ps, voice, wav).speaker_wav
            == wav_choice(wav),
{
}

/// A reference of the voice is taken without the white space round it, unless it is blank.
pub proof fn law_reference_is_taken(raw: Seq<char>)
    ensures
        is_blank(raw) ==> wav_choice(raw) is None,
        !is_blank(raw) ==> wav_choice(raw) == Some(trimmed(raw)),
{
    lemma_trimmed_empty(raw);
}

/// A voice is taken without the white space round it, unless it is blank, `default` or `none`, in
/// any case of ASCII.
pub proof fn law_voice_is_taken(raw: Seq<char>, other: Seq<char>)
    ensures
        is_blank(raw) ==> voice_choice(raw) is None,
        voice_choice(raw) matches Some(v) ==> v == trimmed(raw),
        !is_blank(raw) && trimmed(raw).len() != 4 && trimmed(raw).len() != 7 ==> voice_choice(
            raw,
        ) is Some,
        !is_blank(raw) && ascii_lower(trimmed(raw)) != "none"@ && ascii_lower(trimmed(raw))
            != "default"@ ==> voice_choice(raw) is Some,
        ascii_lower(trimmed(raw)) == "none"@ || ascii_lower(trimmed(raw)) == "default"@
            ==> voice_choice(raw) is None,
        ascii_lower(trimmed(raw)) == ascii_lower(trimmed(other)) ==> (voice_choice(raw) is Some)
            == (voice_choice(other) is Some),
{
    lemma_trimmed_empty(raw);
    reveal_strlit("none");
    reveal_strlit("default");
    assert(ascii_lower(trimmed(raw)).len() == trimmed(raw).len());
}

/// A reference is fetched exactly if it begins as the URL of a web page does.
pub proof fn law_what_is_fetched(s: Seq<char>)
    ensures
        is_url("http://"@ + s),
        is_url("https://"@ + s),
        is_url(s) ==> s.len() >= 7 && "http"@.is_prefix_of(s),
        is_url(s) && s[4] != 's' ==> "http://"@.is_prefix_of(s),
        is_url(s) && s[4] == 's' ==> "https://"@.is_prefix_of(s),
{
    reveal_strlit("http");
    reveal_strlit("http://");
    reveal_strlit("https://");
    assert("http://"@.is_prefix_of("http://"@ + s));
    assert("https://"@.is_prefix_of("https://"@ + s));
    if is_url(s) {
        if "http://"@.is_prefix_of(s) {
            assert(forall|i: int| 0 <= i < 7 ==> s[i] == "http://"@[i]);
        } else {
            assert(forall|i: int| 0 <= i < 8 ==> s[i] == "https://"@[i]);
        }
        assert("http"@.is_prefix_of(s));
    }
}

/// A reference that cannot be had is the answer, with what went wrong; only where there is none
/// yet, which the server tells by its code, the text is spoken without it.
pub proof fn law_fetch_failure_is_the_answer(o: FetchOutcome)
    ensures
        o matches FetchOutcome::Unreachable(e) ==> fetch_answer(o) matches Some(s)
            && e@.is_suffix_of(s) && "snapshot fetch error: "@.is_prefix_of(s) && s.len()
            == e@.len() + 22,
        o matches FetchOutcome::Broken(e) ==> fetch_answer(o) matches Some(s) && e@.is_suffix_of(s)
            && "snapshot read error: "@.is_prefix_of(s) && s.len() == e@.len() + 21,
        o matches FetchOutcome::Refused { code, status, body } ==> (if code == 400 {
            fetch_answer(o) is None
        } else {
            fetch_answer(o) matches Some(s) && (status@ + ": "@ + body@).is_suffix_of(s)
                && "snapshot fetch failed with status "@.is_prefix_of(s) && s.len() == status@.len()
                + body@.len() + 36
        }),
        o is Bytes ==> fetch_answer(o) is None,
{
    reveal_strlit("snapshot fetch error: ");
    reveal_strlit("snapshot read error: ");
    reveal_strlit("snapshot fetch failed with status ");
    reveal_strlit(": ");
    match o {
        FetchOutcome::Unreachable(e) => {
            assert("snapshot fetch error: "@.is_prefix_of("snapshot fetch error: "@ + e@));
            assert(e@.is_suffix_of("snapshot fetch error: "@ + e@));
        },
        FetchOutcome::Broken(e) => {
            assert("snapshot read error: "@.is_prefix_of("snapshot read error: "@ + e@));
            assert(e@.is_suffix_of("snapshot read error: "@ + e@));
        },
        FetchOutcome::Refused { code, status, body } => {
            let tail = status@ + ": "@ + body@;
            let s = "snapshot fetch failed with status "@ + status@ + ": "@ + body@;
            assert(s =~= "snapshot fetch failed with status "@ + tail);
            assert(tail.is_suffix_of(s));
            assert("snapshot fetch failed with status "@.is_prefix_of(s));
        },
        FetchOutcome::Bytes(_) => {},
    }
}

/// The languages that the voice service knows by names of its own, in lower case.
pub open spec fn is_known(lower: Seq<char>) -> bool {
    ||| lower == "ko"@ || lower == "kr"@ || lower == "ko-kr"@
    ||| lower == "ja"@ || lower == "jp"@ || lower == "ja-jp"@
    ||| lower == "zh"@ || lower == "zh-cn"@ || lower == "zh-hans"@
    ||| lower == "zh-tw"@ || lower == "zh-hant"@
    ||| lower == "fr"@ || lower == "fr-fr"@
}

/// Any other language is tried as it was given, and then left to the voice service.
pub proof fn law_other_languages_as_given(lower: Seq<char>, lang: Seq<char>)
    requires
        !is_known(lower),
        lang != "__AUTO__"@,
    ensures
        languages(lower, lang) == seq![Some(lang), None],
{
    assert(languages(lower, lang) =~= seq![Some(lang), None]);
}

proof fn lemma_codes_differ()
    ensures
        "ko"@[0] == 'k' && "kr"@[0] == 'k' && "ko-kr"@[0] == 'k',
        "ja"@[0] == 'j' && "jp"@[0] == 'j' && "ja-jp"@[0] == 'j',
        "zh"@[0] == 'z' && "zh-cn"@[0] == 'z' && "zh-hans"@[0] == 'z',
        "zh-tw"@[0] == 'z' && "zh-hant"@[0] == 'z',
        "fr"@[0] == 'f' && "fr-fr"@[0] == 'f',
        "zh-tw"@ != "zh"@ && "zh-tw"@ != "zh-cn"@ && "zh-tw"@ != "zh-hans"@,
        "zh-hant"@ != "zh"@ && "zh-hant"@ != "zh-cn"@ && "zh-hant"@ != "zh-hans"@,
{
    reveal_strlit("ko");
    reveal_strlit("kr");
    reveal_strlit("ko-kr");
    reveal_strlit("ja");
    reveal_strlit("jp");
    reveal_strlit("ja-jp");
    reveal_strlit("zh");
    reveal_strlit("zh-cn");
    reveal_strlit("zh-hans");
    reveal_strlit("zh-tw");
    reveal_strlit("zh-hant");
    reveal_strlit("fr");
    reveal_strlit("fr-fr");
    assert("zh-tw"@[3] == 't' && "zh-cn"@[3] == 'c');
    assert("zh-hant"@[6] == 't' && "zh-hans"@[6] == 's');
    assert("zh-tw"@.len() == 5 && "zh"@.len() == 2 && "zh-hans"@.len() == 7);
}

/// The names that are tried for a known language do not depend on how it was written.
pub proof fn law_known_languages_by_their_code(lower: Seq<char>, a: Seq<char>, b: Seq<char>)
    requires
        is_known(lower),
    ensures
        languages(lower, a) == languages(lower, b),
        languages(lower, a).len() >= 4,
        languages("kr"@, a) == languages("ko"@, b) && languages("ko-kr"@, a) == languages("ko"@, b),
        languages("jp"@, a) == languages("ja"@, b) && languages("ja-jp"@, a) == languages("ja"@, b),
        languages("zh-cn"@, a) == languages("zh"@, b) && languages("zh-hans"@, a) == languages(
            "zh"@,
            b,
        ),
        languages("zh-hant"@, a) == languages("zh-tw"@, b),
        languages("fr-fr"@, a) == languages("fr"@, b),
{
    lemma_codes_differ();
    assert(language_names(lower, a) == language_names(lower, b));
    assert(languages(lower, a) =~= languages(lower, b));
    assert(languages("kr"@, a) =~= languages("ko"@, b));
    assert(languages("ko-kr"@, a) =~= languages("ko"@, b));
    assert(languages("jp"@, a) =~= languages("ja"@, b));
    assert(languages("ja-jp"@, a) =~= languages("ja"@, b));
    assert(languages("zh-cn"@, a) =~= languages("zh"@, b));
    assert(languages("zh-hans"@, a) =~= languages("zh"@, b));
    assert(languages("zh-hant"@, a) =~= languages("zh-tw"@, b));
    assert(languages("fr-fr"@, a) =~= languages("fr"@, b));
}

/// A known language is tried by its own code first, and by its English name last before it is
/// left to the voice service.
pub proof fn law_known_languages_by_their_names(lang: Seq<char>)
    ensures
        languages("ko"@, lang) == seq![Some("ko"@), Some("ko-KR"@), Some("Korean"@), None],
        languages("ja"@, lang) == seq![Some("ja"@), Some("ja-JP"@), Some("Japanese"@), None],
        languages("zh"@, lang) == seq![
            Some("zh"@),
            Some("zh-CN"@),
            Some("cmn-Hans-CN"@),
            Some("Chinese"@),
            None,
        ],
        languages("zh-tw"@, lang) == seq![
            Some("zh-TW"@),
            Some("cmn-Hant-TW"@),
            Some("Chinese"@),
            None,
        ],
        languages("fr"@, lang) == seq![Some("fr"@), Some("fr-FR"@), Some("French"@), None],
{
    lemma_codes_differ();
    reveal_strlit("__AUTO__");
    reveal_strlit("ko");
    reveal_strlit("ko-KR");
    reveal_strlit("Korean");
    reveal_strlit("ja");
    reveal_strlit("ja-JP");
    reveal_strlit("Japanese");
    reveal_strlit("zh");
    reveal_strlit("zh-CN");
    reveal_strlit("cmn-Hans-CN");
    reveal_strlit("Chinese");
    reveal_strlit("zh-TW");
    reveal_strlit("cmn-Hant-TW");
    reveal_strlit("fr");
    reveal_strlit("fr-FR");
    reveal_strlit("French");
    assert("__AUTO__"@[0] == '_' && "Japanese"@[0] == 'J');
    assert(languages("ko"@, lang) =~= seq![Some("ko"@), Some("ko-KR"@), Some("Korean"@), None]);
    assert(languages("ja"@, lang) =~= seq![Some("ja"@), Some("ja-JP"@), Some("Japanese"@), None]);
    assert(languages("zh"@, lang) =~= seq![
        Some("zh"@),
        Some("zh-CN"@),
        Some("cmn-Hans-CN"@),
        Some("Chinese"@),
        None,
    ]);
    assert(languages("zh-tw"@, lang) =~= seq![
        Some("zh-TW"@),
        Some("cmn-Hant-TW"@),
        Some("Chinese"@),
        None,
    ]);
    assert(languages("fr"@, lang) =~= seq![Some("fr"@), Some("fr-FR"@), Some("French"@), None]);
}

/// Work that is ready goes to the service that was given, with the chunks of the text, the
/// languages of the request, and the reference that was given; it has begun with nothing, and a
/// file is to be removed exactly if there was one and there is work left to do.
pub proof fn law_ready_work(
    o: Opening,
    base: Seq<char>,
    q: TtsQuery,
    wav: Option<Seq<char>>,
    file: bool,
)
    requires
        o.is_ready(base, q, wav, file),
    ensures
        o matches Opening::Ready(job, step) && {
            let all = chunks(cleaned(nfc(q.text@)), 220);
            &&& job@.url == without_end_slashes(base) + "/tts"@
            &&& job@.chunks == all
            &&& job@.langs == languages(lowercase_text(q.lang@), q.lang@)
            &&& job@.speaker_wav == wav
            &&& job@.turn == 0 && job@.parts.len() == 0
            &&& job@.file == (file && all.len() > 0)
            &&& is_blank(q.text@) ==> step@.todo == TodoModel::Answer(
                ReplyModel::BadRequest("missing text"@),
            )
            &&& !is_blank(q.text@) && all.len() > 0 ==> posts(
                step@.todo,
                without_end_slashes(base) + "/tts"@,
                all[0],
                languages(lowercase_text(q.lang@), q.lang@)[0],
                wav,
            )
            &&& step@.todo is Post ==> job.wf() && job@.open()
        },
{
    if !is_blank(q.text@) && chunks(cleaned(nfc(q.text@)), 220).len() > 0 {
        law_first_request(base, q.text@, q.lang@, wav, file);
    }
}

/// What a request asks for, what is to be done and what is answered are told one for one by
/// texts and bytes.
pub proof fn law_told_one_for_one(q: TtsQuery, r: Reply, s: Step)
    ensures
        q.fields().text == q.text@ && q.fields().lang == q.lang@,
        (q.voice matches Some(v) ==> q.fields().voice == Some(v@)) && (q.voice is None
            ==> q.fields().voice is None),
        (q.speaker_wav matches Some(w) ==> q.fields().speaker_wav == Some(w@)) && (
        q.speaker_wav is None ==> q.fields().speaker_wav is None),
        r matches Reply::Wav(b) ==> r@ == ReplyModel::Wav(b@),
        r matches Reply::BadRequest(t) ==> r@ == ReplyModel::BadRequest(t@),
        r matches Reply::BadGateway(t) ==> r@ == ReplyModel::BadGateway(t@),
        r matches Reply::ServerError(t) ==> r@ == ReplyModel::ServerError(t@),
        s@.remove_file == s.remove_file,
        s.todo matches Todo::Post { url, body } ==> s@.todo == (TodoModel::Post {
            url: url@,
            body: body@,
        }),
        s.todo matches Todo::Answer(a) ==> s@.todo == TodoModel::Answer(a@),
{
}

}
