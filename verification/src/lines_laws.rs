//! What holds of every line that is broadcast, and of the frame that carries it.
use crate::flat::{
    escaped, flat_string, flat_text, is_bare, is_flat, is_number, is_one_line, law_bare_is_kept,
    law_decimal_is_number, lemma_members_push, member_text, members_text, Member,
};
use crate::lines::{
    event_frame, failure, level, multi_mode, no_capture_output, queue_full, single_mode, transcript,
};
use crate::text::decimal;
use vstd::prelude::*;
use vstd::string::*;

verus! {

/// An object that is not closed yet, as text.
spec fn opened(ms: Seq<(Seq<char>, Member)>) -> Seq<char> {
    seq!['{'] + members_text(ms)
}

/// The first member of an object, where `lit` is what is written up to its value.
proof fn lemma_first(lit: Seq<char>, key: Seq<char>, m: Member)
    requires
        forall|i: int| 0 <= i < key.len() ==> is_bare(#[trigger] key[i]),
        lit =~= seq!['{', '"'] + key + seq!['"', ':'],
    ensures
        opened(seq![(key, m)]) == lit + member_text(m),
{
    law_bare_is_kept(key);
    let none = Seq::<(Seq<char>, Member)>::empty();
    lemma_members_push(none, key, m);
    assert(none.push((key, m)) =~= seq![(key, m)]);
    assert(opened(seq![(key, m)]) =~= lit + member_text(m));
}

/// One more member of an object, where `lit` is what is written up to its value.
proof fn lemma_more(ms: Seq<(Seq<char>, Member)>, lit: Seq<char>, key: Seq<char>, m: Member)
    requires
        ms.len() > 0,
        forall|i: int| 0 <= i < key.len() ==> is_bare(#[trigger] key[i]),
        lit =~= seq![',', '"'] + key + seq!['"', ':'],
    ensures
        opened(ms.push((key, m))) == opened(ms) + lit + member_text(m),
{
    law_bare_is_kept(key);
    lemma_members_push(ms, key, m);
    assert(opened(ms.push((key, m))) =~= opened(ms) + lit + member_text(m));
}

/// Taking the quotes round a text to what stands before and behind it makes no difference.
proof fn lemma_quotes_move(
    o: Seq<char>,
    before: Seq<char>,
    inside: Seq<char>,
    behind: Seq<char>,
)
    ensures
        o + before + (seq!['"'] + inside + seq!['"']) + behind == o + (before + seq!['"']) + inside
            + (seq!['"'] + behind),
{
    assert(o + before + (seq!['"'] + inside + seq!['"']) + behind =~= o + (before + seq!['"'])
        + inside + (seq!['"'] + behind));
}

/// The members of the line of a recognized text.
pub open spec fn transcript_members(t0: Seq<char>, t1: Seq<char>, text: Seq<char>) -> Seq<
    (Seq<char>, Member),
> {
    seq![
        ("t0"@, Member::Number(t0)),
        ("t1"@, Member::Number(t1)),
        ("text"@, Member::Text(text)),
        ("lang"@, Member::Text("und"@)),
    ]
}

/// The line of a recognized text is a JSON object, whatever the text holds, and the text stands
/// in it.
pub proof fn law_transcript_is_json(t0: Seq<char>, t1: Seq<char>, text: Seq<char>)
    requires
        is_number(t0),
        is_number(t1),
    ensures
        transcript(t0, t1, text) == flat_text(transcript_members(t0, t1, text)),
        is_flat(transcript_members(t0, t1, text)),
        flat_string(transcript_members(t0, t1, text), "text"@) == Some(text),
{
    let ms = transcript_members(t0, t1, text);
    let m1 = seq![ms[0]];
    let m2 = m1.push(ms[1]);
    let m3 = m2.push(ms[2]);
    assert(is_flat(ms)) by {
        reveal_strlit("t0");
        reveal_strlit("t1");
        reveal_strlit("text");
        reveal_strlit("lang");
        assert("t0"@[1] == '0' && "t1"@[1] == '1' && "lang"@[0] == 'l');
    }
    assert(flat_string(ms, "text"@) == Some(text)) by {
        reveal_strlit("text");
        reveal_strlit("lang");
        assert("text"@[0] == 't' && "lang"@[0] == 'l');
        assert(ms.drop_last() =~= m3);
        assert(flat_string(m3, "text"@) == Some(text));
    }
    let lang = seq![',', '"'] + "lang"@ + seq!['"', ':'];
    let und = member_text(ms[3].1);
    let key = seq![',', '"'] + "text"@ + seq!['"', ':'];
    assert(opened(m1) == "{\"t0\":"@ + t0) by {
        reveal_strlit("t0");
        reveal_strlit("{\"t0\":");
        lemma_first("{\"t0\":"@, ms[0].0, ms[0].1);
    }
    assert(opened(m2) == opened(m1) + ",\"t1\":"@ + t1) by {
        reveal_strlit("t1");
        reveal_strlit(",\"t1\":");
        lemma_more(m1, ",\"t1\":"@, ms[1].0, ms[1].1);
    }
    assert(opened(m3) == opened(m2) + key + member_text(ms[2].1)) by {
        reveal_strlit("text");
        lemma_more(m2, key, ms[2].0, ms[2].1);
    }
    assert(opened(ms) == opened(m3) + lang + und) by {
        reveal_strlit("lang");
        lemma_more(m3, lang, ms[3].0, ms[3].1);
        assert(m3.push(ms[3]) =~= ms);
    }
    assert(",\"text\":\""@ == key + seq!['"']) by {
        reveal_strlit("text");
        reveal_strlit(",\"text\":\"");
    }
    assert("\",\"lang\":\"und\"}"@ == seq!['"'] + (lang + und + seq!['}'])) by {
        reveal_strlit("lang");
        reveal_strlit("und");
        reveal_strlit("\",\"lang\":\"und\"}");
        law_bare_is_kept("und"@);
    }
    lemma_quotes_move(opened(m2), key, escaped(text), lang + und + seq!['}']);
    assert(flat_text(ms) == opened(m3) + (lang + und + seq!['}']));
}

/// The members of the line of a failed step.
pub open spec fn failure_members(step: Seq<char>, msg: Seq<char>) -> Seq<(Seq<char>, Member)> {
    seq![("error"@, Member::Text(step)), ("msg"@, Member::Text(msg))]
}

/// The line of a failed step is a JSON object, whatever the message holds, and the message
/// stands in it.
pub proof fn law_failure_is_json(step: Seq<char>, msg: Seq<char>)
    ensures
        failure(step, msg) == flat_text(failure_members(step, msg)),
        is_flat(failure_members(step, msg)),
        flat_string(failure_members(step, msg), "error"@) == Some(step),
        flat_string(failure_members(step, msg), "msg"@) == Some(msg),
{
    let ms = failure_members(step, msg);
    reveal_strlit("error");
    reveal_strlit("msg");
    reveal_strlit("{\"error\":\"");
    reveal_strlit("\",\"msg\":\"");
    reveal_strlit("\"}");
    let m1 = seq![ms[0]];
    let msg_key = seq![',', '"'] + "msg"@ + seq!['"', ':'];
    let error_key = seq!['{', '"'] + "error"@ + seq!['"', ':'];
    lemma_first(error_key, ms[0].0, ms[0].1);
    lemma_more(m1, msg_key, ms[1].0, ms[1].1);
    assert(m1.push(ms[1]) =~= ms);
    assert(ms.drop_last() =~= m1);
    assert("error"@.len() != "msg"@.len());
    assert(flat_string(m1, "error"@) == Some(step));
    assert(failure(step, msg) =~= flat_text(ms));
}

/// The members of the line of the level of a chunk.
pub open spec fn level_members(
    t0: Seq<char>,
    db: Seq<char>,
    voice: bool,
    sr: nat,
    chunk_ms: nat,
) -> Seq<(Seq<char>, Member)> {
    seq![
        ("t0"@, Member::Number(t0)),
        ("db"@, Member::Number(db)),
        ("voice"@, Member::Flag(voice)),
        ("sr"@, Member::Number(decimal(sr))),
        ("chunk_ms"@, Member::Number(decimal(chunk_ms))),
    ]
}

/// The line of the level of a chunk is a JSON object.
pub proof fn law_level_is_json(t0: Seq<char>, db: Seq<char>, voice: bool, sr: nat, chunk_ms: nat)
    requires
        is_number(t0),
        is_number(db),
        sr <= u32::MAX,
        chunk_ms <= u32::MAX,
    ensures
        level(t0, db, voice, sr, chunk_ms) == flat_text(level_members(t0, db, voice, sr, chunk_ms)),
        is_flat(level_members(t0, db, voice, sr, chunk_ms)),
{
    let ms = level_members(t0, db, voice, sr, chunk_ms);
    let m1 = seq![ms[0]];
    let m2 = m1.push(ms[1]);
    let m3 = m2.push(ms[2]);
    let m4 = m3.push(ms[3]);
    let m5 = m4.push(ms[4]);
    assert(is_flat(ms)) by {
        law_decimal_is_number(sr);
        law_decimal_is_number(chunk_ms);
        reveal_strlit("t0");
        reveal_strlit("db");
        reveal_strlit("voice");
        reveal_strlit("sr");
        reveal_strlit("chunk_ms");
        assert("t0"@[0] == 't' && "db"@[0] == 'd' && "voice"@[0] == 'v' && "sr"@[0] == 's'
            && "chunk_ms"@[0] == 'c');
    }
    assert(opened(m1) == "{\"t0\":"@ + t0) by {
        reveal_strlit("t0");
        reveal_strlit("{\"t0\":");
        lemma_first("{\"t0\":"@, ms[0].0, ms[0].1);
    }
    assert(opened(m2) == opened(m1) + ",\"db\":"@ + db) by {
        reveal_strlit("db");
        reveal_strlit(",\"db\":");
        lemma_more(m1, ",\"db\":"@, ms[1].0, ms[1].1);
    }
    assert(opened(m3) == opened(m2) + ",\"voice\":"@ + member_text(ms[2].1)) by {
        reveal_strlit("voice");
        reveal_strlit(",\"voice\":");
        lemma_more(m2, ",\"voice\":"@, ms[2].0, ms[2].1);
    }
    assert(opened(m4) == opened(m3) + ",\"sr\":"@ + decimal(sr)) by {
        reveal_strlit("sr");
        reveal_strlit(",\"sr\":");
        lemma_more(m3, ",\"sr\":"@, ms[3].0, ms[3].1);
    }
    assert(opened(m5) == opened(m4) + ",\"chunk_ms\":"@ + decimal(chunk_ms)) by {
        reveal_strlit("chunk_ms");
        reveal_strlit(",\"chunk_ms\":");
        lemma_more(m4, ",\"chunk_ms\":"@, ms[4].0, ms[4].1);
    }
    assert(m5 =~= ms);
    assert("}"@ == seq!['}']) by {
        reveal_strlit("}");
    }
}

/// The members of the line of the mode of a run with a pool of workers.
pub open spec fn multi_members(workers: nat, threads: nat) -> Seq<(Seq<char>, Member)> {
    seq![
        ("info"@, Member::Text("mode"@)),
        ("value"@, Member::Text("multi"@)),
        ("workers"@, Member::Number(decimal(workers))),
        ("threads_per_state"@, Member::Number(decimal(threads))),
    ]
}

/// The line of the mode of a run with a pool of workers is a JSON object.
pub proof fn law_multi_mode_is_json(workers: nat, threads: nat)
    requires
        workers <= u64::MAX,
        threads <= u64::MAX,
    ensures
        multi_mode(workers, threads) == flat_text(multi_members(workers, threads)),
        is_flat(multi_members(workers, threads)),
{
    let ms = multi_members(workers, threads);
    let m1 = seq![ms[0]];
    let m2 = m1.push(ms[1]);
    let m3 = m2.push(ms[2]);
    let m4 = m3.push(ms[3]);
    let head = "{\"info\":\"mode\",\"value\":\"multi\",\"workers\":";
    assert(is_flat(ms)) by {
        law_decimal_is_number(workers);
        law_decimal_is_number(threads);
        reveal_strlit("info");
        reveal_strlit("value");
        reveal_strlit("workers");
        reveal_strlit("threads_per_state");
        assert("info"@[0] == 'i' && "value"@[0] == 'v' && "workers"@[0] == 'w'
            && "threads_per_state"@[0] == 't');
    }
    assert(opened(m3) == head@ + decimal(workers)) by {
        reveal_strlit("info");
        reveal_strlit("mode");
        reveal_strlit("value");
        reveal_strlit("multi");
        reveal_strlit("workers");
        reveal_strlit("{\"info\":\"mode\",\"value\":\"multi\",\"workers\":");
        law_bare_is_kept("mode"@);
        law_bare_is_kept("multi"@);
        lemma_first(seq!['{', '"'] + "info"@ + seq!['"', ':'], ms[0].0, ms[0].1);
        lemma_more(m1, seq![',', '"'] + "value"@ + seq!['"', ':'], ms[1].0, ms[1].1);
        lemma_more(m2, seq![',', '"'] + "workers"@ + seq!['"', ':'], ms[2].0, ms[2].1);
        assert(opened(m3) =~= head@ + decimal(workers));
    }
    assert(opened(m4) == opened(m3) + ",\"threads_per_state\":"@ + decimal(threads)) by {
        reveal_strlit("threads_per_state");
        reveal_strlit(",\"threads_per_state\":");
        lemma_more(m3, ",\"threads_per_state\":"@, ms[3].0, ms[3].1);
    }
    assert(m4 =~= ms);
    assert("}"@ == seq!['}']) by {
        reveal_strlit("}");
    }
}

/// The fixed lines are JSON objects: the mode of a run without a pool, a chunk that was dropped,
/// and a capture program without output.
pub proof fn law_fixed_lines_are_json()
    ensures
        single_mode() == flat_text(
            seq![("info"@, Member::Text("mode"@)), ("value"@, Member::Text("single"@))],
        ),
        queue_full() == flat_text(seq![("warn"@, Member::Text("asr_queue_full"@))]),
        no_capture_output() == flat_text(seq![("error"@, Member::Text("no ffmpeg stdout"@))]),
        is_flat(seq![("info"@, Member::Text("mode"@)), ("value"@, Member::Text("single"@))]),
        is_flat(seq![("warn"@, Member::Text("asr_queue_full"@))]),
        is_flat(seq![("error"@, Member::Text("no ffmpeg stdout"@))]),
{
    reveal_strlit("info");
    reveal_strlit("mode");
    reveal_strlit("value");
    reveal_strlit("single");
    reveal_strlit("warn");
    reveal_strlit("asr_queue_full");
    reveal_strlit("error");
    reveal_strlit("no ffmpeg stdout");
    reveal_strlit("{\"info\":\"mode\",\"value\":\"single\"}");
    reveal_strlit("{\"warn\":\"asr_queue_full\"}");
    reveal_strlit("{\"error\":\"no ffmpeg stdout\"}");
    assert("info"@.len() != "value"@.len());
    law_bare_is_kept("mode"@);
    law_bare_is_kept("single"@);
    law_bare_is_kept("asr_queue_full"@);
    law_bare_is_kept("no ffmpeg stdout"@);
    let a = Member::Text("mode"@);
    let b = Member::Text("single"@);
    let c = Member::Text("asr_queue_full"@);
    let d = Member::Text("no ffmpeg stdout"@);
    lemma_first(seq!['{', '"'] + "info"@ + seq!['"', ':'], "info"@, a);
    lemma_more(seq![("info"@, a)], seq![',', '"'] + "value"@ + seq!['"', ':'], "value"@, b);
    lemma_first(seq!['{', '"'] + "warn"@ + seq!['"', ':'], "warn"@, c);
    lemma_first(seq!['{', '"'] + "error"@ + seq!['"', ':'], "error"@, d);
    assert(seq![("info"@, a)].push(("value"@, b)) =~= seq![("info"@, a), ("value"@, b)]);
    assert(single_mode() =~= flat_text(seq![("info"@, a), ("value"@, b)]));
    assert(queue_full() =~= flat_text(seq![("warn"@, c)]));
    assert(no_capture_output() =~= flat_text(seq![("error"@, d)]));
}

/// A frame ends where its line ends: the two newlines at its end are the only ones in it.
pub proof fn law_frame_ends_once(line: Seq<char>)
    requires
        is_one_line(line),
    ensures
        forall|i: int|
            0 <= i < event_frame(line).len() ==> (#[trigger] event_frame(line)[i] == '\n' <==> i
                >= event_frame(line).len() - 2),
{
    reveal_strlit("data: ");
    reveal_strlit("\n\n");
    let f = event_frame(line);
    assert forall|i: int| 0 <= i < f.len() implies (#[trigger] f[i] == '\n' <==> i >= f.len()
        - 2) by {
        if 6 <= i < 6 + line.len() {
            assert(f[i] == line[i - 6]);
        }
    }
}

/// What stands under `key`, if anything does.
pub open spec fn under(ms: Seq<(Seq<char>, Member)>, key: Seq<char>, m: Member) -> bool {
    exists|i: int| 0 <= i < ms.len() && #[trigger] ms[i] == (key, m)
}

/// The line of a recognized text holds both times and the text as they were given, and nothing
/// else but the language, which is not known.
pub proof fn law_transcript_holds_what_is_given(t0: Seq<char>, t1: Seq<char>, text: Seq<char>)
    requires
        is_number(t0),
        is_number(t1),
    ensures
        exists|ms: Seq<(Seq<char>, Member)>|
            transcript(t0, t1, text) == #[trigger] flat_text(ms) && is_flat(ms) && ms.len() == 4
                && under(ms, "t0"@, Member::Number(t0)) && under(ms, "t1"@, Member::Number(t1))
                && under(ms, "text"@, Member::Text(text)) && under(
                ms,
                "lang"@,
                Member::Text("und"@),
            ),
{
    let ms = transcript_members(t0, t1, text);
    law_transcript_is_json(t0, t1, text);
    assert(ms[0] == ("t0"@, Member::Number(t0)));
    assert(ms[1] == ("t1"@, Member::Number(t1)));
    assert(ms[2] == ("text"@, Member::Text(text)));
    assert(ms[3] == ("lang"@, Member::Text("und"@)));
    assert(transcript(t0, t1, text) == flat_text(ms));
}

/// The line of a failed step holds the step and the message as they were given, and nothing else.
pub proof fn law_failure_holds_what_is_given(step: Seq<char>, msg: Seq<char>)
    ensures
        exists|ms: Seq<(Seq<char>, Member)>|
            failure(step, msg) == #[trigger] flat_text(ms) && is_flat(ms) && ms.len() == 2 && under(
                ms,
                "error"@,
                Member::Text(step),
            ) && under(ms, "msg"@, Member::Text(msg)),
{
    let ms = failure_members(step, msg);
    law_failure_is_json(step, msg);
    assert(ms[0] == ("error"@, Member::Text(step)));
    assert(ms[1] == ("msg"@, Member::Text(msg)));
    assert(failure(step, msg) == flat_text(ms));
}

/// The line of the level of a chunk holds the time, the level, whether somebody speaks, the rate
/// and the length of the chunk as they were given, and nothing else.
pub proof fn law_level_holds_what_is_given(
    t0: Seq<char>,
    db: Seq<char>,
    voice: bool,
    sr: nat,
    chunk_ms: nat,
)
    requires
        is_number(t0),
        is_number(db),
        sr <= u32::MAX,
        chunk_ms <= u32::MAX,
    ensures
        exists|ms: Seq<(Seq<char>, Member)>|
            level(t0, db, voice, sr, chunk_ms) == #[trigger] flat_text(ms) && is_flat(ms)
                && ms.len() == 5 && under(ms, "t0"@, Member::Number(t0)) && under(
                ms,
                "db"@,
                Member::Number(db),
            ) && under(ms, "voice"@, Member::Flag(voice)) && under(
                ms,
                "sr"@,
                Member::Number(decimal(sr)),
            ) && under(ms, "chunk_ms"@, Member::Number(decimal(chunk_ms))),
{
    let ms = level_members(t0, db, voice, sr, chunk_ms);
    law_level_is_json(t0, db, voice, sr, chunk_ms);
    assert(ms[0] == ("t0"@, Member::Number(t0)));
    assert(ms[1] == ("db"@, Member::Number(db)));
    assert(ms[2] == ("voice"@, Member::Flag(voice)));
    assert(ms[3] == ("sr"@, Member::Number(decimal(sr))));
    assert(ms[4] == ("chunk_ms"@, Member::Number(decimal(chunk_ms))));
    assert(level(t0, db, voice, sr, chunk_ms) == flat_text(ms));
}

/// The line of the mode of a run with a pool holds the mode, the workers and the threads of each,
/// and nothing else.
pub proof fn law_multi_mode_holds_what_is_given(workers: nat, threads: nat)
    requires
        workers <= u64::MAX,
        threads <= u64::MAX,
    ensures
        exists|ms: Seq<(Seq<char>, Member)>|
            multi_mode(workers, threads) == #[trigger] flat_text(ms) && is_flat(ms) && ms.len() == 4
                && under(ms, "info"@, Member::Text("mode"@)) && under(
                ms,
                "value"@,
                Member::Text("multi"@),
            ) && under(ms, "workers"@, Member::Number(decimal(workers))) && under(
                ms,
                "threads_per_state"@,
                Member::Number(decimal(threads)),
            ),
{
    let ms = multi_members(workers, threads);
    law_multi_mode_is_json(workers, threads);
    assert(ms[0] == ("info"@, Member::Text("mode"@)));
    assert(ms[1] == ("value"@, Member::Text("multi"@)));
    assert(ms[2] == ("workers"@, Member::Number(decimal(workers))));
    assert(ms[3] == ("threads_per_state"@, Member::Number(decimal(threads))));
    assert(multi_mode(workers, threads) == flat_text(ms));
}

/// The line can be read out of its frame: it stands behind the word that a reader looks for, and
/// before the blank line that ends the frame.
pub proof fn law_frame_carries_its_line(line: Seq<char>)
    ensures
        event_frame(line).len() == line.len() + 8,
        event_frame(line).take(6) == seq!['d', 'a', 't', 'a', ':', ' '],
        event_frame(line).subrange(6, 6 + line.len() as int) == line,
        event_frame(line).skip(6 + line.len() as int) == seq!['\n', '\n'],
{
    reveal_strlit("data: ");
    reveal_strlit("\n\n");
    assert(event_frame(line).take(6) =~= seq!['d', 'a', 't', 'a', ':', ' ']);
    assert(event_frame(line).subrange(6, 6 + line.len() as int) =~= line);
    assert(event_frame(line).skip(6 + line.len() as int) =~= seq!['\n', '\n']);
}

}
