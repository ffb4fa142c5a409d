use chameleon_voice::query::lookup;
use chameleon_voice::tts::{
    after_fetch, language_tries, languages_for, read_tts_query, reference_file_name, save_failure,
    tts_query, voice_reference, FetchOutcome, Fetched, Reference, Reply,
};
use chameleon_voice::tts_job::{
    begin, open_request, reference_fetched, reference_saved, Opening, PostOutcome, Step, Todo,
};

fn pairs(ps: &[(&str, &str)]) -> Vec<(String, String)> {
    ps.iter().map(|(k, v)| (k.to_string(), v.to_string())).collect()
}

#[test]
fn the_last_pair_of_a_key_counts() {
    let ps = pairs(&[("a", "1"), ("b", "2"), ("a", "3")]);
    assert_eq!(lookup(&ps, "a").unwrap(), "3");
    assert_eq!(lookup(&ps, "b").unwrap(), "2");
    assert!(lookup(&ps, "c").is_none());
}

#[test]
fn a_query_has_defaults() {
    let q = tts_query(&pairs(&[]), "English", "./test.wav");
    assert_eq!(q.text, "");
    assert_eq!(q.lang, "en");
    assert_eq!(q.voice.unwrap(), "English");
    assert_eq!(q.speaker_wav.unwrap(), "./test.wav");
}

#[test]
fn no_voice_is_asked_for_by_name_or_blank() {
    for v in ["", "  ", "default", " DEFAULT ", "None", "none"] {
        assert!(tts_query(&pairs(&[("voice", v)]), "English", "").voice.is_none());
    }
    assert_eq!(tts_query(&pairs(&[("voice", " Ana ")]), "English", "").voice.unwrap(), "Ana");
    assert!(tts_query(&pairs(&[("speaker_wav", "  ")]), "", "./test.wav").speaker_wav.is_none());
    assert_eq!(tts_query(&pairs(&[("speaker_wav", " a b ")]), "", "").speaker_wav.unwrap(), "a b");
}

#[test]
fn a_query_is_decoded() {
    let q = read_tts_query("text=a+b%20c%26d&lang=fr&x&=y&&voice=none", "English", "");
    assert_eq!(q.text, "a b c&d");
    assert_eq!(q.lang, "fr");
    assert!(q.voice.is_none());
    assert!(q.speaker_wav.is_none());
    assert_eq!(read_tts_query("text=%ff", "", "").text, "\u{fffd}");
}

fn tries(lang: &str) -> Vec<Option<String>> {
    language_tries(lang)
}

fn some(names: &[&str]) -> Vec<Option<String>> {
    let mut v: Vec<Option<String>> = names.iter().map(|s| Some(s.to_string())).collect();
    v.push(None);
    v
}

#[test]
fn languages_are_tried_by_their_names() {
    for l in ["ko", "KR", "Ko-kr", "\u{212a}O"] {
        assert_eq!(tries(l), some(&["ko", "ko-KR", "Korean"]));
    }
    for l in ["ja", "JP", "ja-JP"] {
        assert_eq!(tries(l), some(&["ja", "ja-JP", "Japanese"]));
    }
    for l in ["zh", "zh-CN", "ZH-Hans"] {
        assert_eq!(tries(l), some(&["zh", "zh-CN", "cmn-Hans-CN", "Chinese"]));
    }
    for l in ["zh-TW", "zh-hant"] {
        assert_eq!(tries(l), some(&["zh-TW", "cmn-Hant-TW", "Chinese"]));
    }
    for l in ["fr", "FR-fr"] {
        assert_eq!(tries(l), some(&["fr", "fr-FR", "French"]));
    }
    assert_eq!(tries("De-AT"), some(&["De-AT"]));
    assert_eq!(tries(""), some(&[""]));
    assert_eq!(tries("__AUTO__"), [None, None]);
    assert_eq!(languages_for("fr", "xx"), some(&["fr", "fr-FR", "French"]));
}

#[test]
fn a_reference_is_local_or_remote() {
    let of = |s: &str| voice_reference(&tts_query(&pairs(&[("speaker_wav", s)]), "", ""));
    assert!(matches!(of(""), Reference::Absent));
    assert!(matches!(of("./a.wav"), Reference::Local(p) if p == "./a.wav"));
    assert!(matches!(of("http://h/a"), Reference::Remote(u) if u == "http://h/a"));
    assert!(matches!(of("https://h/a"), Reference::Remote(u) if u == "https://h/a"));
    assert!(matches!(of("HTTP://h/a"), Reference::Local(_)));
}

#[test]
fn fetching_a_reference_can_fail() {
    assert!(matches!(after_fetch(FetchOutcome::Bytes(vec![1])), Fetched::Save(b) if b == [1]));
    let refused = |code: u16| FetchOutcome::Refused {
        code,
        status: format!("{} Oops", code),
        body: "why".to_string(),
    };
    assert!(matches!(after_fetch(refused(400)), Fetched::Without));
    assert!(matches!(
        after_fetch(refused(404)),
        Fetched::Answer(Reply::BadGateway(s)) if s == "snapshot fetch failed with status 404 Oops: why"
    ));
    assert!(matches!(
        after_fetch(FetchOutcome::Unreachable("x".to_string())),
        Fetched::Answer(Reply::BadGateway(s)) if s == "snapshot fetch error: x"
    ));
    assert!(matches!(
        after_fetch(FetchOutcome::Broken("x".to_string())),
        Fetched::Answer(Reply::BadGateway(s)) if s == "snapshot read error: x"
    ));
    assert!(matches!(save_failure("full"), Reply::ServerError(s) if s == "temp write error: full"));
    assert_eq!(reference_file_name(1_700_000_000_123), "coqui_ref_1700000000123.wav");
}

fn posted(step: &Step) -> (String, String) {
    match &step.todo {
        Todo::Post { url, body } => (url.clone(), body.clone()),
        Todo::Answer(_) => panic!("a request is to be posted"),
    }
}

#[test]
fn chunks_are_posted_one_by_one_and_joined() {
    let q = tts_query(&pairs(&[("text", "One. Two!"), ("lang", "de")]), "", "");
    let (mut job, step) = begin("http://h:8020/", &q, Some("ref.wav".to_string()), true);
    assert!(!step.remove_file);
    assert_eq!(posted(&step), (
        "http://h:8020/tts".to_string(),
        "{\"audio_format\":\"wav\",\"language\":\"de\",\"speaker_wav\":\"ref.wav\",\"text\":\"One\"}".to_string()
    ));
    let step = job.advance(PostOutcome::Bytes(vec![7; 50]));
    assert!(!step.remove_file);
    assert_eq!(
        posted(&step).1,
        "{\"audio_format\":\"wav\",\"language\":\"de\",\"speaker_wav\":\"ref.wav\",\"text\":\"Two\"}"
    );
    let step = job.advance(PostOutcome::Bytes(vec![8; 46]));
    assert!(step.remove_file);
    match step.todo {
        Todo::Answer(Reply::Wav(w)) => {
            let mut want = vec![7u8; 50];
            want.extend_from_slice(&[8, 8]);
            assert_eq!(w, want);
        }
        _ => panic!("the speech is there"),
    }
}

#[test]
fn each_language_is_tried_twice_and_the_last_failure_is_the_answer() {
    let q = tts_query(&pairs(&[("text", "One. Two."), ("lang", "fr")]), "", "");
    let (mut job, mut step) = begin("http://h", &q, None, true);
    let mut langs: Vec<String> = Vec::new();
    let mut removed: Vec<usize> = Vec::new();
    let mut n: usize = 0;
    loop {
        if step.remove_file {
            removed.push(n);
        }
        match &step.todo {
            Todo::Answer(Reply::BadGateway(s)) => {
                assert_eq!(s, "coqui error 503: busy 7");
                break;
            }
            Todo::Answer(_) => panic!("every try fails"),
            Todo::Post { body, .. } => {
                let v: serde_json::Value = serde_json::from_str(body).unwrap();
                assert_eq!(v["text"], "One");
                assert!(v.get("speaker_wav").is_none());
                langs.push(v.get("language").map_or("-".to_string(), |l| l.as_str().unwrap().to_string()));
            }
        }
        step = job.advance(PostOutcome::Refused { code: 503, body: format!("busy {}", n) });
        n += 1;
    }
    assert_eq!(langs, ["fr", "fr", "fr-FR", "fr-FR", "French", "French", "-", "-"]);
    assert_eq!(removed, [2]);
}

#[test]
fn a_failed_try_starts_over_with_the_first_chunk() {
    let q = tts_query(&pairs(&[("text", "One. Two."), ("lang", "de")]), "", "");
    let (mut job, _) = begin("http://h", &q, None, false);
    let step = job.advance(PostOutcome::Bytes(vec![1; 60]));
    assert!(posted(&step).1.contains("Two"));
    let step = job.advance(PostOutcome::Broken("cut".to_string()));
    assert!(posted(&step).1.contains("One"));
    job.advance(PostOutcome::Bytes(vec![2; 45]));
    let step = job.advance(PostOutcome::Bytes(vec![3; 44]));
    match step.todo {
        Todo::Answer(Reply::Wav(w)) => {
            let mut want = vec![2u8; 45];
            want.extend_from_slice(&[3; 44]);
            assert_eq!(w, want);
        }
        _ => panic!("the speech is there"),
    }
}

#[test]
fn failures_have_their_messages() {
    let q = tts_query(&pairs(&[("text", "x"), ("lang", "de")]), "", "");
    let last = |o: fn() -> PostOutcome| -> String {
        let (mut job, _) = begin("http://h", &q, None, false);
        let mut step = job.advance(o());
        while let Todo::Post { .. } = step.todo {
            step = job.advance(o());
        }
        match step.todo {
            Todo::Answer(Reply::BadGateway(s)) => s,
            _ => panic!("every try fails"),
        }
    };
    assert_eq!(last(|| PostOutcome::Unreachable("no".to_string())), "coqui error 502: connect error: no");
    assert_eq!(last(|| PostOutcome::Broken("no".to_string())), "coqui error 502: bytes error: no");
}

#[test]
fn a_blank_text_is_refused() {
    let q = tts_query(&pairs(&[("text", " \n ")]), "", "");
    let (_, step) = begin("http://h", &q, None, false);
    assert!(matches!(step.todo, Todo::Answer(Reply::BadRequest(s)) if s == "missing text"));
    assert!(!step.remove_file);
}

#[test]
fn a_text_of_control_codes_has_empty_speech() {
    let q = tts_query(&pairs(&[("text", "\u{7}")]), "", "");
    let (_, step) = begin("http://h", &q, None, true);
    assert!(matches!(step.todo, Todo::Answer(Reply::Wav(w)) if w.is_empty()));
    assert!(step.remove_file);
}

#[test]
fn a_request_opens_with_its_reference() {
    let local = tts_query(&pairs(&[("text", "x")]), "", "./test.wav");
    match open_request("http://h", &local) {
        Opening::Ready(_, step) => assert!(posted(&step).1.contains("\"speaker_wav\":\"./test.wav\"")),
        _ => panic!("the reference is at hand"),
    }
    let remote = tts_query(&pairs(&[("text", "x"), ("speaker_wav", "http://s/w")]), "", "");
    assert!(matches!(open_request("http://h", &remote), Opening::Fetch(u) if u == "http://s/w"));
    assert!(matches!(
        reference_fetched("http://h", &remote, FetchOutcome::Bytes(vec![4])),
        Opening::Save(b) if b == [4]
    ));
    let none_yet = FetchOutcome::Refused { code: 400, status: "400".to_string(), body: "".to_string() };
    match reference_fetched("http://h", &remote, none_yet) {
        Opening::Ready(_, step) => assert!(!posted(&step).1.contains("speaker_wav")),
        _ => panic!("the text is spoken without it"),
    }
    assert!(matches!(
        reference_fetched("http://h", &remote, FetchOutcome::Broken("b".to_string())),
        Opening::Answer(Reply::BadGateway(_))
    ));
    match reference_saved("http://h", &remote, Ok("/tmp/r.wav".to_string())) {
        Opening::Ready(mut job, step) => {
            assert!(posted(&step).1.contains("\"speaker_wav\":\"/tmp/r.wav\""));
            assert!(job.advance(PostOutcome::Bytes(vec![1])).remove_file);
        }
        _ => panic!("the reference is at hand"),
    }
    assert!(matches!(
        reference_saved("http://h", &remote, Err("full".to_string())),
        Opening::Answer(Reply::ServerError(_))
    ));
}

#[test]
fn a_voice_that_is_named_is_not_sent() {
    let q = tts_query(&pairs(&[("text", "x"), ("voice", "Ana")]), "English", "");
    assert_eq!(q.voice.as_deref(), Some("Ana"));
    let (mut job, step) = begin("http://h", &q, None, false);
    let first = posted(&step);
    assert_eq!(first.1, "{\"audio_format\":\"wav\",\"language\":\"en\",\"text\":\"x\"}");
    let second = posted(&job.advance(PostOutcome::Broken("cut".to_string())));
    assert_eq!(first, second);
}
