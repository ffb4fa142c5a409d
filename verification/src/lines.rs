//! The JSON lines that are broadcast, and the frames of the event stream that carry them.
use crate::flat::{escape_json, escaped};
use crate::text::{decimal, decimal_text};
use vstd::prelude::*;
use vstd::string::*;

verus! {

/// A recognized text with its times.
pub open spec fn transcript(t0: Seq<char>, t1: Seq<char>, text: Seq<char>) -> Seq<char> {
    "{\"t0\":"@ + t0 + ",\"t1\":"@ + t1 + ",\"text\":\""@ + escaped(text)
        + "\",\"lang\":\"und\"}"@
}

/// The line of a recognized text.
pub fn transcript_line(t0: &str, t1: &str, text: &str) -> (r: String)
    ensures
        r@ == transcript(t0@, t1@, text@),
{
    let inside = escape_json(text);
    let mut s = "{\"t0\":".to_owned();
    s.append(t0);
    s.append(",\"t1\":");
    s.append(t1);
    s.append(",\"text\":\"");
    s.append(inside.as_str());
    s.append("\",\"lang\":\"und\"}");
    s
}

/// A failed step with its message.
pub open spec fn failure(step: Seq<char>, msg: Seq<char>) -> Seq<char> {
    "{\"error\":\""@ + escaped(step) + "\",\"msg\":\""@ + escaped(msg) + "\"}"@
}

/// The line of a failed step.
pub fn failure_line(step: &str, msg: &str) -> (r: String)
    ensures
        r@ == failure(step@, msg@),
{
    let mut s = "{\"error\":\"".to_owned();
    s.append(escape_json(step).as_str());
    s.append("\",\"msg\":\"");
    s.append(escape_json(msg).as_str());
    s.append("\"}");
    s
}

/// The level of a captured chunk: `t0` and `db` come as they are written.
pub open spec fn level(t0: Seq<char>, db: Seq<char>, voice: bool, sr: nat, chunk_ms: nat) -> Seq<
    char,
> {
    "{\"t0\":"@ + t0 + ",\"db\":"@ + db + ",\"voice\":"@ + (if voice {
        "true"@
    } else {
        "false"@
    }) + ",\"sr\":"@ + decimal(sr) + ",\"chunk_ms\":"@ + decimal(chunk_ms) + "}"@
}

/// The line of the level of a captured chunk.
pub fn level_line(t0: &str, db: &str, voice: bool, sr: u32, chunk_ms: u32) -> (r: String)
    ensures
        r@ == level(t0@, db@, voice, sr as nat, chunk_ms as nat),
{
    let mut s = "{\"t0\":".to_owned();
    s.append(t0);
    s.append(",\"db\":");
    s.append(db);
    s.append(",\"voice\":");
    s.append(
        if voice {
            "true"
        } else {
            "false"
        },
    );
    s.append(",\"sr\":");
    s.append(decimal_text(sr as u128).as_str());
    s.append(",\"chunk_ms\":");
    s.append(decimal_text(chunk_ms as u128).as_str());
    s.append("}");
    s
}

/// The mode of a run that hands its chunks to a pool of workers.
pub open spec fn multi_mode(workers: nat, threads: nat) -> Seq<char> {
    "{\"info\":\"mode\",\"value\":\"multi\",\"workers\":"@ + decimal(workers)
        + ",\"threads_per_state\":"@ + decimal(threads) + "}"@
}

/// The line of the mode of a run that hands its chunks to a pool of workers.
pub fn multi_mode_line(workers: usize, threads: usize) -> (r: String)
    ensures
        r@ == multi_mode(workers as nat, threads as nat),
{
    let mut s = "{\"info\":\"mode\",\"value\":\"multi\",\"workers\":".to_owned();
    s.append(decimal_text(workers as u128).as_str());
    s.append(",\"threads_per_state\":");
    s.append(decimal_text(threads as u128).as_str());
    s.append("}");
    s
}

/// The mode of a run that recognizes each chunk in line.
pub open spec fn single_mode() -> Seq<char> {
    "{\"info\":\"mode\",\"value\":\"single\"}"@
}

/// A chunk that was dropped because the pool of workers was behind.
pub open spec fn queue_full() -> Seq<char> {
    "{\"warn\":\"asr_queue_full\"}"@
}

/// A capture program without an output to read.
pub open spec fn no_capture_output() -> Seq<char> {
    "{\"error\":\"no ffmpeg stdout\"}"@
}

/// The frame of the event stream that carries a line.
pub open spec fn event_frame(line: Seq<char>) -> Seq<char> {
    "data: "@ + line + "\n\n"@
}

/// The frame of the event stream that carries a line.
pub fn sse_frame(line: &str) -> (r: String)
    ensures
        r@ == event_frame(line@),
{
    let mut s = "data: ".to_owned();
    s.append(line);
    s.append("\n\n");
    s
}

/// The frame that keeps an idle event stream open.
pub fn keepalive_frame() -> (r: String)
    ensures
        r@ == ": keepalive\n\n"@,
{
    ": keepalive\n\n".to_owned()
}

/// A frame with a running number.
pub fn tick_frame(i: u64) -> (r: String)
    ensures
        r@ == event_frame("{\"tick\":"@ + decimal(i as nat) + "}"@),
{
    let mut s = "{\"tick\":".to_owned();
    s.append(decimal_text(i as u128).as_str());
    s.append("}");
    sse_frame(s.as_str())
}

}
