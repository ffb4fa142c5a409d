use chameleon_voice::asr::{
    inline_report, segments_text, setup_failure, worker_report, AsrRes, Collector, Decoded,
};
use chameleon_voice::lines::{
    failure_line, keepalive_frame, level_line, multi_mode_line, sse_frame, tick_frame,
    transcript_line,
};

fn res(seq: u64, text: &str) -> AsrRes {
    AsrRes { seq, t0: format!("{}.00", seq), t1: format!("{}.30", seq), text: text.to_string() }
}

fn line(seq: u64, text: &str) -> String {
    format!("{{\"t0\":{}.00,\"t1\":{}.30,\"text\":\"{}\",\"lang\":\"und\"}}", seq, seq, text)
}

#[test]
fn reports_are_sent_in_order() {
    let mut c = Collector::new();
    assert!(c.accept(res(2, "c")).is_empty());
    assert!(c.accept(res(1, "b")).is_empty());
    assert_eq!(c.accept(res(0, "a")), [line(0, "a"), line(1, "b"), line(2, "c")]);
    assert_eq!(c.accept(res(3, "d")), [line(3, "d")]);
}

#[test]
fn every_order_of_arrival_sends_the_same_lines() {
    let orders = [[0u64, 1, 2, 3], [3, 2, 1, 0], [1, 3, 0, 2], [2, 0, 3, 1]];
    for order in orders {
        let mut c = Collector::new();
        let mut sent: Vec<String> = Vec::new();
        for n in order {
            sent.extend(c.accept(res(n, if n == 1 { "" } else { "x" })));
        }
        assert_eq!(sent, [line(0, "x"), line(2, "x"), line(3, "x")]);
    }
}

#[test]
fn a_missing_report_holds_back_all_that_follow() {
    let mut c = Collector::new();
    assert_eq!(c.accept(res(0, "a")).len(), 1);
    for n in 2..50 {
        assert!(c.accept(res(n, "x")).is_empty());
    }
    assert!(c.accept(setup_failure("no memory")).is_empty());
    assert_eq!(c.accept(res(1, "b")).len(), 49);
}

#[test]
fn a_failed_worker_is_reported_behind_all_chunks() {
    let r = setup_failure("no memory");
    assert_eq!(r.seq, u64::MAX);
    assert_eq!(r.t0, "0.00");
    assert_eq!(r.t1, "0.00");
    assert_eq!(r.text, "[Whisper state error: no memory]");
}

#[test]
fn segments_are_put_together_and_trimmed() {
    let segs = vec![Some(" Hello".to_string()), None, Some(" there. ".to_string())];
    assert_eq!(segments_text(&segs), "Hello there.");
    assert_eq!(segments_text(&vec![]), "");
}

#[test]
fn a_worker_reports_text_or_failure() {
    let ok = Decoded::Segments(vec![Some(" hi ".to_string())]);
    let r = worker_report(7, "1.00".to_string(), "1.30".to_string(), &ok);
    assert_eq!((r.seq, r.t0.as_str(), r.t1.as_str(), r.text.as_str()), (7, "1.00", "1.30", "hi"));
    let bad = Decoded::Failed("oops ".to_string());
    let r = worker_report(8, "2.00".to_string(), "2.30".to_string(), &bad);
    assert_eq!(r.text, "whisper error: oops ");
}

#[test]
fn what_is_recognized_in_line_is_reported() {
    let ok = Decoded::Segments(vec![Some("say \"hi\"".to_string())]);
    assert_eq!(
        inline_report("0.00", "0.30", &ok).unwrap(),
        "{\"t0\":0.00,\"t1\":0.30,\"text\":\"say \\\"hi\\\"\",\"lang\":\"und\"}"
    );
    assert!(inline_report("0.00", "0.30", &Decoded::Segments(vec![Some("  ".to_string())])).is_none());
    assert_eq!(
        inline_report("0.00", "0.30", &Decoded::Failed("bad".to_string())).unwrap(),
        "{\"error\":\"whisper full\",\"msg\":\"bad\"}"
    );
}

#[test]
fn lines_have_their_form() {
    assert_eq!(
        transcript_line("0.30", "0.60", "Hi"),
        "{\"t0\":0.30,\"t1\":0.60,\"text\":\"Hi\",\"lang\":\"und\"}"
    );
    assert_eq!(failure_line("load whisper", "x"), "{\"error\":\"load whisper\",\"msg\":\"x\"}");
    assert_eq!(
        level_line("0.30", "-41.2", true, 16_000, 300),
        "{\"t0\":0.30,\"db\":-41.2,\"voice\":true,\"sr\":16000,\"chunk_ms\":300}"
    );
    assert_eq!(
        level_line("0.00", "-90.0", false, 8_000, 1200),
        "{\"t0\":0.00,\"db\":-90.0,\"voice\":false,\"sr\":8000,\"chunk_ms\":1200}"
    );
    assert_eq!(
        multi_mode_line(4, 2),
        "{\"info\":\"mode\",\"value\":\"multi\",\"workers\":4,\"threads_per_state\":2}"
    );
}

#[test]
fn frames_of_the_event_stream_have_their_form() {
    assert_eq!(sse_frame("{}"), "data: {}\n\n");
    assert_eq!(keepalive_frame(), ": keepalive\n\n");
    assert_eq!(tick_frame(12), "data: {\"tick\":12}\n\n");
}
