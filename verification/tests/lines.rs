use chameleon_voice::asr::{inline_report, worker_report, Collector, Decoded};
use chameleon_voice::capture::{worker_layout, Capture};
use chameleon_voice::flat::escape_json;
use chameleon_voice::lines::{failure_line, level_line, sse_frame, transcript_line};
use chameleon_voice::translate::{finish_line, plan_line, LinePlan};

fn read(line: &str) -> serde_json::Value {
    serde_json::from_str(line).unwrap()
}

fn all_codes() -> String {
    (0..=0x10ffffu32).filter_map(char::from_u32).filter(|c| *c < '\u{300}' || *c > '\u{fff0}').collect()
}

#[test]
fn what_json_does_not_allow_is_escaped() {
    assert_eq!(escape_json("say \"hi\""), "say \\\"hi\\\"");
    assert_eq!(escape_json("C:\\"), "C:\\\\");
    assert_eq!(escape_json("a\n\u{0}\u{1f}b"), "a\\u000A\\u0000\\u001Fb");
    assert_eq!(escape_json("\u{7f}\u{e9}\u{1f600}/ "), "\u{7f}\u{e9}\u{1f600}/ ");
    assert_eq!(escape_json(""), "");
}

#[test]
fn an_escaped_text_is_read_back() {
    let text = all_codes();
    let inside = escape_json(&text);
    assert!(inside.chars().all(|c| c >= ' '));
    assert_eq!(read(&format!("\"{}\"", inside)), text.as_str());
}

#[test]
fn the_line_of_any_text_is_json() {
    let every = all_codes();
    for text in ["C:\\", "\\", "\"", "a\nb", "\\\"", "\u{1}\t\r", "hi", every.as_str()] {
        let line = transcript_line("0.00", "0.30", text);
        let v = read(&line);
        assert_eq!(v["text"], text);
        assert_eq!(v["t0"], 0.0);
        assert_eq!(v["t1"], 0.3);
        assert_eq!(v["lang"], "und");
        assert_eq!(v.as_object().unwrap().len(), 4);
        assert_eq!(sse_frame(&line).matches('\n').count(), 2);
        let f = read(&failure_line("whisper full", text));
        assert_eq!(f["error"], "whisper full");
        assert_eq!(f["msg"], text);
    }
    assert_eq!(
        transcript_line("0.00", "0.30", "C:\\"),
        "{\"t0\":0.00,\"t1\":0.30,\"text\":\"C:\\\\\",\"lang\":\"und\"}"
    );
}

#[test]
fn the_other_lines_are_json() {
    let v = read(&level_line("0.30", "-41.2", true, 16_000, 300));
    assert_eq!(v["db"], -41.2);
    assert_eq!(v["voice"], true);
    assert_eq!(v["chunk_ms"], 300);
    assert_eq!(read(&Capture::new(1, 1, true).mode_line(&worker_layout(4)))["workers"], 2);
    assert_eq!(read(&Capture::new(1, 1, false).mode_line(&worker_layout(4)))["value"], "single");
}

#[test]
fn the_text_that_was_recognized_is_the_text_that_is_translated() {
    let long = "9".repeat(39) + ".99";
    for time in ["0.00", "12.30", "340282346638528859811704183484516925440.00", long.as_str()] {
        for text in ["hi", "C:\\", "a \"b\"\n\\u0041", "\u{4f60}\u{597d}\u{7f}"] {
            match plan_line(&transcript_line(time, time, text)) {
                LinePlan::Translate(p) => {
                    assert_eq!(p.text(), text);
                    let out = finish_line(p, text, "fr", 80);
                    assert_eq!(read(&out)["text"], text);
                    assert_eq!(sse_frame(&out).matches('\n').count(), 2);
                }
                LinePlan::Forward(_) => panic!("there is something to translate"),
            }
        }
    }
}

#[test]
fn reports_of_any_text_can_be_read() {
    let decoded = Decoded::Segments(vec![Some(" C:\\ ".to_string())]);
    let mut c = Collector::new();
    let lines = c.accept(worker_report(0, "0.00".to_string(), "0.30".to_string(), &decoded));
    assert_eq!(read(&lines[0])["text"], "C:\\");
    assert_eq!(read(&inline_report("0.00", "0.30", &decoded).unwrap())["text"], "C:\\");
    let failed = Decoded::Failed("bad \"path\\\"".to_string());
    assert_eq!(read(&inline_report("0.00", "0.30", &failed).unwrap())["msg"], "bad \"path\\\"");
    let blank = Decoded::Segments(vec![Some(" \n".to_string())]);
    assert!(c.accept(worker_report(1, "0.30".to_string(), "0.60".to_string(), &blank)).is_empty());
}
