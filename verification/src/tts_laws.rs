//! What holds of every run of the work on a text.
use crate::query::{carries_all, is_verbatim, query_text, value_of};
use crate::text::{is_blank, is_white, trimmed};
use crate::translate::{audio_pairs, audio_url, law_audio_url_carries, snapshot_url};
use crate::tts::{languages, tts_fields, ReplyModel};
use crate::tts_job::{first_step, fresh_job, JobModel, PostOutcome, TodoModel};
use crate::wav::wav_joined;
use vstd::prelude::*;

verus! {

/// The work after the requests that were posted came to `os`.
pub open spec fn played(m: JobModel, os: Seq<PostOutcome>) -> JobModel
    decreases os.len(),
{
    if os.len() == 0 {
        m
    } else {
        played(m, os.drop_last()).after(os.last())
    }
}

/// How often the file of the reference was to be removed in the course of `os`.
pub open spec fn removals(m: JobModel, os: Seq<PostOutcome>) -> nat
    decreases os.len(),
{
    if os.len() == 0 {
        0
    } else {
        removals(m, os.drop_last()) + (if played(m, os.drop_last()).step(os.last()).remove_file {
            1nat
        } else {
            0
        })
    }
}

/// The number of failures in `os`.
pub open spec fn failures(os: Seq<PostOutcome>) -> nat
    decreases os.len(),
{
    if os.len() == 0 {
        0
    } else {
        failures(os.drop_last()) + (if os.last() is Bytes {
            0nat
        } else {
            1
        })
    }
}

/// The most requests that may still be posted.
pub open spec fn requests_left(m: JobModel) -> int {
    (2 * m.langs.len() - m.turn) * m.chunks.len() - m.parts.len()
}

/// Every work comes to an end: a request either brings the answer or leaves fewer requests.
pub proof fn law_work_ends(m: JobModel, o: PostOutcome)
    requires
        m.open(),
    ensures
        requests_left(m) > 0,
        m.step(o).todo is Post ==> m.after(o).open() && requests_left(m.after(o))
            < requests_left(m),
{
    let a = 2 * m.langs.len() - m.turn;
    let c = m.chunks.len() as int;
    assert(a * c >= c) by (nonlinear_arith)
        requires
            a >= 1,
            c >= 1,
    ;
    if o is Bytes {
    } else {
        assert((a - 1) * c == a * c - c) by (nonlinear_arith);
    }
}

/// The file of a reference that was fetched is removed once, and never twice: as often as it was
/// there at first and is not there now.
pub proof fn law_file_removed_once(m: JobModel, os: Seq<PostOutcome>)
    ensures
        removals(m, os) + (if played(m, os).file {
            1nat
        } else {
            0
        }) == (if m.file {
            1nat
        } else {
            0
        }),
    decreases os.len(),
{
    if os.len() > 0 {
        law_file_removed_once(m, os.drop_last());
    }
}

/// Once the answer is there, the file of the reference is gone.
pub proof fn law_no_file_left(m: JobModel, o: PostOutcome)
    requires
        m.open(),
        m.step(o).todo is Answer,
    ensures
        !m.after(o).file,
{
}

/// The file of a reference stays until both tries of the first language are over or the speech is
/// whole: neither a first failure nor the speech of a chunk that is not the last one removes it.
pub proof fn law_file_stays_while_needed(m: JobModel, o: PostOutcome)
    requires
        m.open(),
        o is Bytes ==> m.parts.len() + 1 < m.chunks.len(),
        !(o is Bytes) ==> m.turn == 0,
    ensures
        m.after(o).file == m.file,
        !m.step(o).remove_file,
{
}

/// A reference that was fetched leaves no file behind: by the time a request is answered, its
/// file was to be removed exactly once. A blank text is left out: it is refused at once, and the
/// file stays.
pub proof fn law_fetched_file_is_removed(
    base: Seq<char>,
    text: Seq<char>,
    lang: Seq<char>,
    speaker_wav: Option<Seq<char>>,
    os: Seq<PostOutcome>,
)
    requires
        !is_blank(text),
        ({
            let job = fresh_job(base, text, lang, speaker_wav, true);
            let last = played(job, os.drop_last());
            job.chunks.len() > 0 ==> os.len() > 0 && last.open() && last.step(
                os.last(),
            ).todo is Answer
        }),
    ensures
        ({
            let job = fresh_job(base, text, lang, speaker_wav, true);
            if job.chunks.len() == 0 {
                first_step(job, text, true).remove_file
            } else {
                !first_step(job, text, true).remove_file && removals(job, os) == 1
            }
        }),
{
    let job = fresh_job(base, text, lang, speaker_wav, true);
    if job.chunks.len() > 0 {
        law_file_removed_once(job, os);
        law_no_file_left(played(job, os.drop_last()), os.last());
    }
}

/// Each failure moves on by one try, so each language is tried twice before the next one.
pub proof fn law_tries_in_order(m: JobModel, os: Seq<PostOutcome>)
    ensures
        played(m, os).turn == m.turn + failures(os),
        played(m, os).langs == m.langs,
        played(m, os).chunks == m.chunks,
        played(m, os).url == m.url,
        played(m, os).speaker_wav == m.speaker_wav,
    decreases os.len(),
{
    if os.len() > 0 {
        law_tries_in_order(m, os.drop_last());
    }
}

/// What a request says is the chunk, the form of the speech, and the language and the reference
/// of the voice where there is one. It says nothing of a voice by its name.
pub proof fn law_request_members(m: JobModel, key: Seq<char>)
    requires
        m.body()->Object_0.contains_key(key),
    ensures
        m.body() is Object,
        key == "text"@ || key == "audio_format"@ || (key == "language"@ && m.langs[m.turn as int
            / 2] is Some) || (key == "speaker_wav"@ && m.speaker_wav is Some),
{
}

/// The second try of a language posts what the first one did.
pub proof fn law_second_try_is_the_same(m: JobModel, o: PostOutcome)
    requires
        m.turn % 2 == 0,
        m.parts.len() == 0,
        !(o is Bytes),
    ensures
        m.after(o).request() == m.request(),
{
    assert((m.turn + 1) / 2 == m.turn / 2);
}

/// The bytes that came.
pub open spec fn bytes_of(os: Seq<PostOutcome>) -> Seq<Seq<u8>> {
    Seq::new(os.len(), |i: int| os[i]->Bytes_0@)
}

proof fn lemma_parts(m: JobModel, os: Seq<PostOutcome>)
    requires
        m.parts.len() == 0,
        forall|i: int| 0 <= i < os.len() ==> #[trigger] os[i] is Bytes,
    ensures
        played(m, os).parts == bytes_of(os),
        played(m, os).turn == m.turn,
        played(m, os).chunks == m.chunks,
    decreases os.len(),
{
    if os.len() == 0 {
        assert(m.parts =~= bytes_of(os));
    } else {
        let front = os.drop_last();
        assert forall|i: int| 0 <= i < front.len() implies #[trigger] front[i] is Bytes by {
            assert(os[i] is Bytes);
        }
        lemma_parts(m, front);
        assert(os[os.len() - 1] is Bytes);
        assert(bytes_of(os) =~= bytes_of(front).push(os.last()->Bytes_0@));
    }
}

/// A try of which every request succeeds is answered with the speech of all chunks, in order.
pub proof fn law_speech_is_whole(m: JobModel, os: Seq<PostOutcome>)
    requires
        m.open(),
        m.parts.len() == 0,
        os.len() == m.chunks.len(),
        forall|i: int| 0 <= i < os.len() ==> #[trigger] os[i] is Bytes,
    ensures
        played(m, os.drop_last()).step(os.last()).todo == TodoModel::Answer(
            ReplyModel::Wav(wav_joined(bytes_of(os))),
        ),
{
    let front = os.drop_last();
    assert forall|i: int| 0 <= i < front.len() implies #[trigger] front[i] is Bytes by {
        assert(os[i] is Bytes);
    }
    lemma_parts(m, front);
    assert(os[os.len() - 1] is Bytes);
    assert(bytes_of(os) =~= bytes_of(front).push(os.last()->Bytes_0@));
}

/// Whatever the language, the last one tried is left to the voice service.
pub proof fn law_last_language_is_free(lower: Seq<char>, lang: Seq<char>)
    ensures
        languages(lower, lang).len() >= 2,
        languages(lower, lang).last() is None,
{
}

proof fn lemma_trimmed_same(s: Seq<char>)
    requires
        s.len() > 0,
        !is_white(s[0]),
        !is_white(s.last()),
    ensures
        trimmed(s) == s,
{
}

/// What is heard behind the URL of a translated line is that translation, in that language, with
/// the voice of the speaker. A language that reading a query would not leave as it is, is left
/// out.
pub proof fn law_translation_is_heard(
    target: Seq<char>,
    port: nat,
    text: Seq<char>,
    voice: Seq<char>,
    wav: Seq<char>,
)
    requires
        is_verbatim(target),
    ensures
        ({
            let ps = seq![("lang"@, target), ("speaker_wav"@, snapshot_url(port)), ("text"@, text)];
            &&& audio_url(target, port, text) == "/tts_proxy?"@ + query_text(
                audio_pairs(target, port, text),
            )
            &&& carries_all(audio_pairs(target, port, text), ps)
            &&& tts_fields(ps, voice, wav).text == text
            &&& tts_fields(ps, voice, wav).lang == target
            &&& tts_fields(ps, voice, wav).speaker_wav == Some(snapshot_url(port))
        }),
{
    law_audio_url_carries(target, port, text);
    let a = ("lang"@, target);
    let b = ("speaker_wav"@, snapshot_url(port));
    let c = ("text"@, text);
    let ps = seq![a, b, c];
    reveal_strlit("lang");
    reveal_strlit("speaker_wav");
    reveal_strlit("text");
    reveal_strlit("http://127.0.0.1:");
    reveal_strlit("/speaker_snapshot");
    assert("lang"@[0] == 'l' && "text"@[0] == 't' && "speaker_wav"@[0] == 's');
    assert(ps.drop_last() =~= seq![a, b]);
    assert(seq![a, b].drop_last() =~= seq![a]);
    assert(value_of(ps, "text"@) == Some(text));
    assert(value_of(seq![a, b], "speaker_wav"@) == Some(snapshot_url(port)));
    assert(value_of(ps, "speaker_wav"@) == Some(snapshot_url(port)));
    assert(value_of(seq![a], "lang"@) == Some(target));
    assert(value_of(seq![a, b], "lang"@) == Some(target));
    assert(value_of(ps, "lang"@) == Some(target));
    assert(snapshot_url(port)[0] == 'h');
    assert(snapshot_url(port).last() == 't');
    lemma_trimmed_same(snapshot_url(port));
}

}
