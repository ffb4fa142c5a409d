//! What holds of a collector, whatever the order in which the reports come.
use crate::asr::{drained, report_lines, reported, segments_joined, AsrRes, Decoded};
use crate::lines::transcript;
use crate::text::{is_blank, lemma_trimmed_end_shape, lemma_trimmed_start_shape, trimmed_start};
use vstd::prelude::*;

verus! {

/// A collector, with all the lines that it has sent.
pub struct Run {
    pub next: u64,
    pub held: Map<u64, AsrRes>,
    pub lines: Seq<Seq<char>>,
}

/// A fresh collector that takes the reports one after the other.
pub open spec fn run(rs: Seq<AsrRes>) -> Run
    decreases rs.len(),
{
    if rs.len() == 0 {
        Run { next: 0, held: Map::empty(), lines: Seq::empty() }
    } else {
        let before = run(rs.drop_last());
        let d = drained(before.next, before.held.insert(rs.last().seq, rs.last()));
        Run { next: d.next, held: d.held, lines: before.lines + d.lines }
    }
}

/// The report at position `i` has number `seq`.
pub open spec fn arrived_at(rs: Seq<AsrRes>, seq: u64, i: int) -> bool {
    0 <= i < rs.len() && rs[i].seq == seq
}

/// A report with number `seq` has come.
pub open spec fn arrived(rs: Seq<AsrRes>, seq: u64) -> bool {
    exists|i: int| arrived_at(rs, seq, i)
}

/// The report with number `seq`.
pub open spec fn report(rs: Seq<AsrRes>, seq: u64) -> AsrRes {
    rs[choose|i: int| arrived_at(rs, seq, i)]
}

/// No two reports have the same number. The number of a worker that could not be set up is
/// no such number.
pub open spec fn numbered(rs: Seq<AsrRes>) -> bool {
    forall|i: int, j: int|
        0 <= i < j < rs.len() && rs[i].seq < u64::MAX ==> #[trigger] rs[i].seq != #[trigger] rs[j].seq
}

/// The lines of the reports with the numbers below `n`, in the order of the numbers.
pub open spec fn lines_below(rs: Seq<AsrRes>, n: nat) -> Seq<Seq<char>>
    decreases n,
{
    if n == 0 {
        Seq::empty()
    } else {
        lines_below(rs, (n - 1) as nat) + report_lines(report(rs, (n - 1) as u64))
    }
}

proof fn lemma_report_is(rs: Seq<AsrRes>, i: int)
    requires
        numbered(rs),
        0 <= i < rs.len(),
        rs[i].seq < u64::MAX,
    ensures
        arrived(rs, rs[i].seq),
        report(rs, rs[i].seq) == rs[i],
{
    let seq = rs[i].seq;
    assert(arrived_at(rs, seq, i));
    let k = choose|k: int| arrived_at(rs, seq, k);
    assert(arrived_at(rs, seq, k));
    if k < i {
        assert(rs[k].seq != rs[i].seq);
    } else if i < k {
        assert(rs[i].seq != rs[k].seq);
    }
}

/// The collector holds the reports that came, from number `next` on.
spec fn holds(rs: Seq<AsrRes>, next: u64, held: Map<u64, AsrRes>) -> bool {
    &&& forall|s: u64| #[trigger] held.contains_key(s) <==> s >= next && arrived(rs, s)
    &&& forall|s: u64|
        #[trigger] held.contains_key(s) && s < u64::MAX ==> held[s] == report(rs, s)
}

proof fn lemma_drain(rs: Seq<AsrRes>, next: u64, held: Map<u64, AsrRes>, gap: u64)
    requires
        holds(rs, next, held),
        next <= gap < u64::MAX,
        !arrived(rs, gap),
        forall|s: u64| s < next ==> arrived(rs, s),
    ensures
        ({
            let d = drained(next, held);
            &&& next <= d.next <= gap
            &&& !arrived(rs, d.next)
            &&& forall|s: u64| s < d.next ==> arrived(rs, s)
            &&& holds(rs, d.next, d.held)
            &&& lines_below(rs, next as nat) + d.lines == lines_below(rs, d.next as nat)
        }),
    decreases gap - next,
{
    let d = drained(next, held);
    if held.contains_key(next) {
        assert(next < gap);
        let after = (next + 1) as u64;
        let rest = drained(after, held.remove(next));
        assert forall|s: u64| s < after implies arrived(rs, s) by {
            if s == next {
            } else {
                assert(s < next);
            }
        }
        assert(holds(rs, after, held.remove(next)));
        lemma_drain(rs, after, held.remove(next), gap);
        assert(lines_below(rs, after as nat) == lines_below(rs, next as nat) + report_lines(
            held[next],
        ));
        assert(lines_below(rs, next as nat) + (report_lines(held[next]) + rest.lines)
            =~= lines_below(rs, after as nat) + rest.lines);
    } else {
        assert(!arrived(rs, next));
        assert(lines_below(rs, next as nat) + d.lines =~= lines_below(rs, next as nat));
    }
}

proof fn lemma_lines_extend(front: Seq<AsrRes>, rs: Seq<AsrRes>, n: nat)
    requires
        numbered(rs),
        rs.len() > 0,
        front == rs.drop_last(),
        n < u64::MAX,
        forall|s: u64| s < n ==> arrived(front, s),
    ensures
        lines_below(front, n) == lines_below(rs, n),
    decreases n,
{
    if n > 0 {
        let s = (n - 1) as u64;
        lemma_lines_extend(front, rs, (n - 1) as nat);
        assert(arrived(front, s));
        let i = choose|i: int| arrived_at(front, s, i);
        assert(arrived_at(front, s, i));
        assert(front[i] == rs[i]);
        lemma_report_is(rs, i);
    }
}

proof fn lemma_numbered_front(rs: Seq<AsrRes>)
    requires
        numbered(rs),
        rs.len() > 0,
    ensures
        numbered(rs.drop_last()),
{
    let front = rs.drop_last();
    assert forall|i: int, j: int|
        0 <= i < j < front.len() && front[i].seq < u64::MAX implies #[trigger] front[i].seq
        != #[trigger] front[j].seq by {
        assert(rs[i].seq != rs[j].seq);
    }
}

proof fn lemma_run(rs: Seq<AsrRes>, gap: u64)
    requires
        numbered(rs),
        gap < u64::MAX,
        !arrived(rs, gap),
    ensures
        run(rs).next <= gap,
        !arrived(rs, run(rs).next),
        forall|s: u64| s < run(rs).next ==> arrived(rs, s),
        holds(rs, run(rs).next, run(rs).held),
        run(rs).lines == lines_below(rs, run(rs).next as nat),
    decreases rs.len(),
{
    if rs.len() > 0 {
        let front = rs.drop_last();
        let r = rs.last();
        let n = rs.len() - 1;
        lemma_numbered_front(rs);
        assert forall|s: u64| arrived(front, s) implies arrived(rs, s) by {
            let i = choose|i: int| arrived_at(front, s, i);
            assert(arrived_at(rs, s, i));
        }
        assert forall|s: u64| arrived(rs, s) && s != r.seq implies arrived(front, s) by {
            let i = choose|i: int| arrived_at(rs, s, i);
            assert(arrived_at(front, s, i));
        }
        assert(arrived_at(rs, r.seq, n));
        lemma_run(front, gap);
        let before = run(front);
        let held = before.held.insert(r.seq, r);
        if r.seq < before.next {
            assert(arrived(front, r.seq));
            let i = choose|i: int| arrived_at(front, r.seq, i);
            assert(arrived_at(front, r.seq, i));
            assert(rs[i].seq != rs[n].seq);
        }
        assert forall|s: u64| #[trigger] held.contains_key(s) <==> s >= before.next && arrived(
            rs,
            s,
        ) by {
            if s != r.seq {
                assert(before.held.contains_key(s) == held.contains_key(s));
            }
        }
        assert forall|s: u64| #[trigger] held.contains_key(s) && s < u64::MAX implies held[s]
            == report(rs, s) by {
            if s == r.seq {
                lemma_report_is(rs, n);
            } else {
                assert(before.held.contains_key(s));
                assert(arrived(front, s));
                let i = choose|i: int| arrived_at(front, s, i);
                assert(arrived_at(front, s, i));
                lemma_report_is(front, i);
                lemma_report_is(rs, i);
            }
        }
        lemma_drain(rs, before.next, held, gap);
        lemma_lines_extend(front, rs, before.next as nat);
    }
}

/// The lines come in the order of the numbers, each once, whatever the order in which the
/// reports came: all that was sent are the lines of the numbers below the first one that is
/// still missing. `gap` is any number that has not come.
pub proof fn law_in_order(rs: Seq<AsrRes>, gap: u64)
    requires
        numbered(rs),
        gap < u64::MAX,
        !arrived(rs, gap),
    ensures
        !arrived(rs, run(rs).next),
        forall|s: u64| s < run(rs).next ==> arrived(rs, s),
        run(rs).lines == lines_below(rs, run(rs).next as nat),
{
    lemma_run(rs, gap);
}

/// A number that never comes holds back all that follow it.
pub proof fn law_gap_holds_back(rs: Seq<AsrRes>, gap: u64)
    requires
        numbered(rs),
        gap < u64::MAX,
        !arrived(rs, gap),
    ensures
        run(rs).next <= gap,
{
    lemma_run(rs, gap);
}

proof fn lemma_same_lines(a: Seq<AsrRes>, b: Seq<AsrRes>, n: nat)
    requires
        numbered(a),
        numbered(b),
        n < u64::MAX,
        forall|s: u64| s < n ==> arrived(a, s),
        forall|r: AsrRes| a.contains(r) <==> b.contains(r),
    ensures
        lines_below(a, n) == lines_below(b, n),
    decreases n,
{
    if n > 0 {
        let s = (n - 1) as u64;
        lemma_same_lines(a, b, (n - 1) as nat);
        assert(arrived(a, s));
        let i = choose|i: int| arrived_at(a, s, i);
        assert(arrived_at(a, s, i));
        assert(a.contains(a[i]));
        let j = choose|j: int| 0 <= j < b.len() && b[j] == a[i];
        lemma_report_is(a, i);
        lemma_report_is(b, j);
    }
}

/// The order in which the reports come makes no difference to the lines sent in the end.
pub proof fn law_arrival_order_is_free(a: Seq<AsrRes>, b: Seq<AsrRes>, gap: u64)
    requires
        numbered(a),
        numbered(b),
        forall|r: AsrRes| a.contains(r) <==> b.contains(r),
        gap < u64::MAX,
        !arrived(a, gap),
    ensures
        run(a).lines == run(b).lines,
        run(a).next == run(b).next,
{
    assert forall|s: u64| arrived(a, s) == arrived(b, s) by {
        if arrived(a, s) {
            let i = choose|i: int| arrived_at(a, s, i);
            assert(arrived_at(a, s, i));
            assert(a.contains(a[i]));
            let j = choose|j: int| 0 <= j < b.len() && b[j] == a[i];
            assert(arrived_at(b, s, j));
        }
        if arrived(b, s) {
            let i = choose|i: int| arrived_at(b, s, i);
            assert(arrived_at(b, s, i));
            assert(b.contains(b[i]));
            let j = choose|j: int| 0 <= j < a.len() && a[j] == b[i];
            assert(arrived_at(a, s, j));
        }
    }
    lemma_run(a, gap);
    lemma_run(b, gap);
    if run(a).next < run(b).next {
        assert(arrived(b, run(a).next));
    } else if run(b).next < run(a).next {
        assert(arrived(a, run(b).next));
    }
    lemma_same_lines(a, b, run(a).next as nat);
}

/// What a worker reports is either nothing or not blank, so that every line that is sent has a
/// text to translate.
pub proof fn law_report_is_not_blank(d: Decoded)
    ensures
        reported(d).len() > 0 ==> !is_blank(reported(d)),
{
    match d {
        Decoded::Failed(e) => {
            reveal_strlit("whisper error: ");
            assert(reported(d)[0] == 'w');
        },
        Decoded::Segments(segs) => {
            let s = segments_joined(segs@);
            lemma_trimmed_start_shape(s);
            lemma_trimmed_end_shape(trimmed_start(s));
            if reported(d).len() > 0 {
                assert(reported(d)[0] == trimmed_start(s)[0]);
            }
        },
    }
}

/// Every report with a text has one line, with its own times and its own text; a report without
/// one has none.
pub proof fn law_every_text_has_its_line(r: AsrRes)
    ensures
        r.text@.len() == 0 ==> report_lines(r).len() == 0,
        r.text@.len() > 0 ==> report_lines(r) == seq![transcript(r.t0@, r.t1@, r.text@)],
{
}

}
