//! Recognized texts: what a worker reports, and the collector that puts the reports in order.
use crate::lines::{failure, failure_line, transcript, transcript_line};
use crate::text::{opt_text, texts, trim, trimmed};
use std::collections::BTreeMap;
use vstd::prelude::*;
use vstd::string::*;

verus! {

/// A chunk of speech to be recognized. The times come as they are written into the line.
#[derive(Debug)]
pub struct AsrJob {
    pub seq: u64,
    pub t0: String,
    pub t1: String,
    pub pcm: Vec<i16>,
}

/// A worker's report on one chunk.
#[derive(Debug)]
pub struct AsrRes {
    pub seq: u64,
    pub t0: String,
    pub t1: String,
    pub text: String,
}

/// What the recognizer gave for a chunk.
pub enum Decoded {
    /// It failed, with this message.
    Failed(String),
    /// Its segments; one that could not be read is `None`.
    Segments(Vec<Option<String>>),
}

/// The segments that could be read, one after the other.
pub open spec fn segments_joined(segs: Seq<Option<String>>) -> Seq<char>
    decreases segs.len(),
{
    if segs.len() == 0 {
        Seq::empty()
    } else {
        segments_joined(segs.drop_last()) + (match segs.last() {
            Some(s) => s@,
            None => Seq::empty(),
        })
    }
}

/// The text of a chunk: its segments put together, without white space at either end.
pub fn segments_text(segs: &Vec<Option<String>>) -> (r: String)
    ensures
        r@ == trimmed(segments_joined(segs@)),
{
    let mut out = String::new();
    let mut i: usize = 0;
    while i < segs.len()
        invariant
            i <= segs@.len(),
            out@ == segments_joined(segs@.take(i as int)),
        decreases segs@.len() - i,
    {
        proof {
            assert(segs@.take(i + 1).drop_last() =~= segs@.take(i as int));
            assert(segs@.take(i + 1).last() == segs@[i as int]);
        }
        match &segs[i] {
            Some(s) => {
                out.append(s.as_str());
            },
            None => {
                assert(out@ + Seq::<char>::empty() =~= out@);
            },
        }
        i = i + 1;
    }
    assert(segs@.take(segs@.len() as int) =~= segs@);
    trim(out.as_str())
}

/// The text that a worker reports.
pub open spec fn reported(d: Decoded) -> Seq<char> {
    match d {
        Decoded::Failed(e) => "whisper error: "@ + e@,
        Decoded::Segments(segs) => trimmed(segments_joined(segs@)),
    }
}

/// A worker's report on a chunk.
pub fn worker_report(seq: u64, t0: String, t1: String, decoded: &Decoded) -> (r: AsrRes)
    ensures
        r.seq == seq,
        r.t0@ == t0@,
        r.t1@ == t1@,
        r.text@ == reported(*decoded),
{
    let text = match decoded {
        Decoded::Failed(e) => {
            let mut s = "whisper error: ".to_owned();
            s.append(e.as_str());
            s
        },
        Decoded::Segments(segs) => segments_text(segs),
    };
    AsrRes { seq, t0, t1, text }
}

/// The report of a worker that could not be set up. It stands behind all numbered chunks.
pub fn setup_failure(msg: &str) -> (r: AsrRes)
    ensures
        r.seq == u64::MAX,
        r.t0@ == "0.00"@,
        r.t1@ == "0.00"@,
        r.text@ == "[Whisper state error: "@ + msg@ + "]"@,
{
    let mut text = "[Whisper state error: ".to_owned();
    text.append(msg);
    text.append("]");
    AsrRes { seq: u64::MAX, t0: "0.00".to_owned(), t1: "0.00".to_owned(), text }
}

/// What is broadcast of a chunk that was recognized in line.
pub open spec fn inline_lines(t0: Seq<char>, t1: Seq<char>, d: Decoded) -> Seq<Seq<char>> {
    match d {
        Decoded::Failed(e) => seq![failure("whisper full"@, e@)],
        Decoded::Segments(segs) => {
            let text = trimmed(segments_joined(segs@));
            if text.len() == 0 {
                Seq::empty()
            } else {
                seq![transcript(t0, t1, text)]
            }
        },
    }
}

/// What is broadcast of a chunk that was recognized in line: the failure, the text, or nothing.
pub fn inline_report(t0: &str, t1: &str, decoded: &Decoded) -> (r: Option<String>)
    ensures
        inline_lines(t0@, t1@, *decoded) == (match opt_text(r) {
            Some(line) => seq![line],
            None => Seq::empty(),
        }),
{
    match decoded {
        Decoded::Failed(e) => Some(failure_line("whisper full", e.as_str())),
        Decoded::Segments(segs) => {
            let text = segments_text(segs);
            if text.as_str().is_empty() {
                None
            } else {
                Some(transcript_line(t0, t1, text.as_str()))
            }
        },
    }
}

/// The line of a report: none if its text is empty.
pub open spec fn report_lines(r: AsrRes) -> Seq<Seq<char>> {
    if r.text@.len() == 0 {
        Seq::empty()
    } else {
        seq![transcript(r.t0@, r.t1@, r.text@)]
    }
}

/// What is left of a collector, and what it sends, once it has sent all it can.
pub struct Drained {
    pub next: u64,
    pub held: Map<u64, AsrRes>,
    pub lines: Seq<Seq<char>>,
}

/// Takes the reports out of `held` from number `next` on, for as long as there is one.
pub open spec fn drained(next: u64, held: Map<u64, AsrRes>) -> Drained
    decreases
            u64::MAX - next,
            (if held.contains_key(next) {
                1int
            } else {
                0
            }),
{
    if held.contains_key(next) {
        let after = if next < u64::MAX {
            (next + 1) as u64
        } else {
            next
        };
        let rest = drained(after, held.remove(next));
        Drained { next: rest.next, held: rest.held, lines: report_lines(held[next]) + rest.lines }
    } else {
        Drained { next, held, lines: Seq::empty() }
    }
}

/// Puts reports in the order of their numbers: one is sent once all before it have been.
pub struct Collector {
    next_seq: u64,
    buffer: BTreeMap<u64, AsrRes>,
}

impl Collector {
    /// The number of the report that is to be sent next.
    pub closed spec fn next(&self) -> u64 {
        self.next_seq
    }

    /// The reports that wait for one before them.
    pub closed spec fn held(&self) -> Map<u64, AsrRes> {
        self.buffer@
    }

    /// Nothing has come yet.
    pub fn new() -> (r: Self)
        ensures
            r.next() == 0,
            r.held() == Map::<u64, AsrRes>::empty(),
    {
        Collector { next_seq: 0, buffer: BTreeMap::new() }
    }

    /// Takes a report, and gives the lines that can be sent now.
    pub fn accept(&mut self, res: AsrRes) -> (r: Vec<String>)
        ensures
            ({
                let d = drained(old(self).next(), old(self).held().insert(res.seq, res));
                &&& final(self).next() == d.next
                &&& final(self).held() == d.held
                &&& texts(r@) == d.lines
            }),
    {
        broadcast use vstd::std_specs::btree::group_btree_axioms;

        let mut out: Vec<String> = Vec::new();
        let seq: u64 = res.seq;
        let _ = self.buffer.insert(seq, res);
        let ghost goal = drained(self.next_seq, self.buffer@);
        proof {
            assert(texts(out@) + goal.lines =~= goal.lines);
        }
        loop
            invariant
                goal.next == drained(self.next_seq, self.buffer@).next,
                goal.held == drained(self.next_seq, self.buffer@).held,
                goal.lines == texts(out@) + drained(self.next_seq, self.buffer@).lines,
            ensures
                goal.next == self.next_seq,
                goal.held == self.buffer@,
                goal.lines == texts(out@),
            decreases
                    u64::MAX - self.next_seq,
                    (if self.buffer@.contains_key(self.next_seq) {
                        1int
                    } else {
                        0
                    }),
        {
            let ghost held = self.buffer@;
            let ghost next = self.next_seq;
            let ghost was = texts(out@);
            let key: u64 = self.next_seq;
            match self.buffer.remove(&key) {
                None => {
                    assert(was + Seq::<Seq<char>>::empty() =~= was);
                    break ;
                },
                Some(r2) => {
                    assert(r2 == held[next]);
                    if !r2.text.as_str().is_empty() {
                        out.push(
                            transcript_line(r2.t0.as_str(), r2.t1.as_str(), r2.text.as_str()),
                        );
                    }
                    proof {
                        assert(texts(out@) =~= was + report_lines(held[next]));
                    }
                    if self.next_seq < u64::MAX {
                        self.next_seq = self.next_seq + 1;
                    }
                    proof {
                        let rest = drained(self.next_seq, self.buffer@);
                        assert(was + (report_lines(held[next]) + rest.lines) =~= texts(out@)
                            + rest.lines);
                    }
                },
            }
        }
        out
    }
}

}
