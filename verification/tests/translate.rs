use chameleon_voice::translate::{
    finish_line, plan_line, plan_translation, read_translation, target_language, LinePlan,
    Translation,
};
use chameleon_voice::tts::read_tts_query;

#[test]
fn a_text_is_posted_to_the_translation_service() {
    match plan_translation("http://h:5000//", "Hi \"you\"", "fr") {
        Translation::Post { url, body } => {
            assert_eq!(url, "http://h:5000/translate");
            assert_eq!(body, "{\"q\":\"Hi \\\"you\\\"\",\"source\":\"auto\",\"target\":\"fr\"}");
        }
        Translation::Done(_) => panic!("there is something to translate"),
    }
}

#[test]
fn a_blank_text_needs_no_translation() {
    match plan_translation("http://h", " \n", "fr") {
        Translation::Done(t) => assert_eq!(t, ""),
        Translation::Post { .. } => panic!("there is nothing to translate"),
    }
}

#[test]
fn the_translation_is_read_from_the_reply() {
    assert_eq!(read_translation("Hi", Some("{\"translatedText\":\"Sal\\u0075t\"}")), "Salut");
}

#[test]
fn whatever_goes_wrong_the_text_itself_stands_in() {
    assert_eq!(read_translation("Hi", None), "Hi");
    for reply in ["", "no", "{", "[]", "\"x\"", "{}", "{\"translatedText\":1}", "{\"text\":\"x\"}"] {
        assert_eq!(read_translation("Hi", Some(reply)), "Hi");
    }
}

#[test]
fn english_is_the_language_unless_another_is_asked_for() {
    assert_eq!(target_language(None), "en");
    assert_eq!(target_language(Some("fr".to_string())), "fr");
    assert_eq!(target_language(Some("".to_string())), "");
}

fn forwarded(line: &str) -> String {
    match plan_line(line) {
        LinePlan::Forward(out) => out,
        LinePlan::Translate(_) => panic!("there is nothing to translate"),
    }
}

#[test]
fn lines_without_a_text_are_written_anew() {
    assert_eq!(
        forwarded("{\"t0\":0.30, \"db\":-41.2,\"voice\":true}"),
        "{\"db\":-41.2,\"t0\":0.3,\"voice\":true}"
    );
    assert_eq!(forwarded("{\"text\": 5}"), "{\"text\":5}");
}

#[test]
fn lines_that_are_no_objects_are_passed_on_as_they_came() {
    for line in ["", "hello", "[1, 2]", "\"text\"", "{\"text\":\"unclosed", "null"] {
        assert_eq!(forwarded(line), line);
    }
    assert_eq!(forwarded("{\"text\":\"  \", \"t0\":1}"), "{\"text\":\"  \", \"t0\":1}");
}

#[test]
fn the_text_of_a_line_is_translated_and_can_be_heard() {
    let line = "{\"t0\":0.30,\"t1\":0.60,\"text\":\"Hi\",\"lang\":\"und\"}";
    match plan_line(line) {
        LinePlan::Translate(p) => {
            assert_eq!(p.text(), "Hi");
            assert_eq!(
                finish_line(p, "\u{c7}a va?", "fr", 8080),
                "{\"audio_url\":\"/tts_proxy?lang=fr&speaker_wav=http%3A%2F%2F127.0.0.1%3A8080%2Fspeaker_snapshot&text=%C3%87a%20va%3F\",\"lang\":\"und\",\"t0\":0.3,\"t1\":0.6,\"text\":\"\u{c7}a va?\"}"
            );
        }
        LinePlan::Forward(_) => panic!("there is something to translate"),
    }
}

#[test]
fn what_is_heard_is_the_translation() {
    for text in ["Hi", "a&b=c+d %41 #?", "\u{4f60}\u{597d}\u{3002}\n\"x\"", "~._-"] {
        let p = match plan_line("{\"text\":\"x\"}") {
            LinePlan::Translate(p) => p,
            LinePlan::Forward(_) => panic!("there is something to translate"),
        };
        let out = finish_line(p, text, "zh-CN", 80);
        let v: serde_json::Value = serde_json::from_str(&out).unwrap();
        let url = v["audio_url"].as_str().unwrap();
        let query = url.strip_prefix("/tts_proxy?").unwrap();
        let q = read_tts_query(query, "English", "./test.wav");
        assert_eq!(q.text, text);
        assert_eq!(q.lang, "zh-CN");
        assert_eq!(q.speaker_wav.unwrap(), "http://127.0.0.1:80/speaker_snapshot");
    }
}

#[test]
fn a_language_is_written_as_it_is() {
    for lang in ["fr", "zh_CN", "de at", "a=b", "100%", "%zz", "\u{65e5}\u{672c}", ""] {
        let p = match plan_line("{\"text\":\"x\"}") {
            LinePlan::Translate(p) => p,
            LinePlan::Forward(_) => panic!("there is something to translate"),
        };
        let v: serde_json::Value = serde_json::from_str(&finish_line(p, "t", lang, 80)).unwrap();
        let query = v["audio_url"].as_str().unwrap().strip_prefix("/tts_proxy?").unwrap();
        assert_eq!(read_tts_query(query, "", "").lang, lang);
        assert_eq!(read_tts_query(query, "", "").text, "t");
    }
}

#[test]
fn the_service_can_read_the_request() {
    for text in ["x", "\"\\\u{1}\n\t\u{7f}\u{2028}\u{1f600}", "a/b"] {
        match plan_translation("http://h", text, text) {
            Translation::Post { body, .. } => {
                let v: serde_json::Value = serde_json::from_str(&body).unwrap();
                assert_eq!(v["q"], text);
                assert_eq!(v["source"], "auto");
                assert_eq!(v["target"], text);
                assert_eq!(v.as_object().unwrap().len(), 3);
            }
            Translation::Done(_) => panic!("there is something to translate"),
        }
    }
}
