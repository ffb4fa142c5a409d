//! Translation of the lines of the event stream.
use crate::json::{
    empty_object, json_model, json_parsed, json_text, json_to_text, parse_json, set_string, string_at,
    string_member, JsonModel,
};
use crate::flat::{flat_string, flat_text, is_flat, is_number, is_one_line};
use crate::lines::transcript;
use crate::lines_laws::{law_transcript_is_json, transcript_members};
use crate::query::{
    carries_all, is_verbatim, law_plain_is_kept, percent_encoded, query_text, url_encode,
};
use crate::text::{blank, decimal, decimal_text, is_blank, trim_end_slashes, without_end_slashes};
use vstd::prelude::*;
use vstd::string::*;

verus! {

/// What is to be done to translate a text.
pub enum Translation {
    /// Nothing: this is the translation.
    Done(String),
    /// This body is to be posted to this URL.
    Post { url: String, body: String },
}

/// The body of a request to translate.
pub open spec fn translate_body(text: Seq<char>, to: Seq<char>) -> JsonModel {
    JsonModel::Object(
        Map::empty().insert("q"@, JsonModel::Text(text)).insert("source"@, JsonModel::Text("auto"@)).insert(
            "target"@,
            JsonModel::Text(to),
        ),
    )
}

/// What is to be done to translate `text` into the language `to`, by the service at `base`. A
/// blank text has the empty translation. The service can read the text from the body.
pub fn plan_translation(base: &str, text: &str, to: &str) -> (r: Translation)
    ensures
        match r {
            Translation::Done(t) => is_blank(text@) && t@.len() == 0,
            Translation::Post { url, body } => !is_blank(text@) && url@ == without_end_slashes(
                base@,
            ) + "/translate"@ && body@ == json_text(translate_body(text@, to@)) && json_parsed(
                body@,
            ) == Some(translate_body(text@, to@)),
        },
{
    if blank(text) {
        return Translation::Done(String::new());
    }
    let mut url = trim_end_slashes(base);
    url.append("/translate");
    let mut v = empty_object();
    set_string(&mut v, "q", text);
    set_string(&mut v, "source", "auto");
    set_string(&mut v, "target", to);
    Translation::Post { url, body: json_to_text(&v) }
}

/// The translation of `text`, given the body of a successful reply, or `None` where the service
/// could not be reached, refused, or broke off. Whatever goes wrong, the text itself stands in.
pub open spec fn translation(text: Seq<char>, reply: Option<Seq<char>>) -> Seq<char> {
    match reply {
        None => text,
        Some(body) => match json_parsed(body) {
            None => text,
            Some(m) => match string_member(m, "translatedText"@) {
                Some(t) => t,
                None => text,
            },
        },
    }
}

/// The translation that a reply gives: see [`translation`].
pub fn read_translation(text: &str, reply: Option<&str>) -> (r: String)
    ensures
        r@ == translation(
            text@,
            match reply {
                Some(b) => Some(b@),
                None => None,
            },
        ),
{
    match reply {
        None => text.to_owned(),
        Some(body) => match parse_json(body) {
            None => text.to_owned(),
            Some(v) => match string_at(&v, "translatedText") {
                Some(t) => t,
                None => text.to_owned(),
            },
        },
    }
}

/// The language to translate into: English unless another is asked for.
pub fn target_language(to: Option<String>) -> (r: String)
    ensures
        r@ == (match to {
            Some(t) => t@,
            None => "en"@,
        }),
{
    match to {
        Some(t) => t,
        None => "en".to_owned(),
    }
}

/// Where the voice of the speaker can be had from the server at `port`.
pub open spec fn snapshot_url(port: nat) -> Seq<char> {
    "http://127.0.0.1:"@ + decimal(port) + "/speaker_snapshot"@
}

/// Where a translated text can be heard.
pub open spec fn audio_url(target: Seq<char>, port: nat, text: Seq<char>) -> Seq<char> {
    "/tts_proxy?lang="@ + target + "&speaker_wav="@ + percent_encoded(snapshot_url(port))
        + "&text="@ + percent_encoded(text)
}

fn build_audio_url(target: &str, port: u16, text: &str) -> (r: String)
    ensures
        r@ == audio_url(target@, port as nat, text@),
{
    let mut snapshot = "http://127.0.0.1:".to_owned();
    snapshot.append(decimal_text(port as u128).as_str());
    snapshot.append("/speaker_snapshot");
    let mut s = "/tts_proxy?lang=".to_owned();
    s.append(target);
    s.append("&speaker_wav=");
    s.append(url_encode(snapshot.as_str()).as_str());
    s.append("&text=");
    s.append(url_encode(text).as_str());
    s
}

/// A line of which the text is to be translated.
pub struct Pending {
    node: serde_json::Value,
    text: String,
}

impl Pending {
    /// What the line holds.
    pub closed spec fn model(&self) -> JsonModel {
        json_model(self.node)
    }

    /// The text to be translated.
    pub closed spec fn source(&self) -> Seq<char> {
        self.text@
    }

    /// The text to be translated.
    pub fn text(&self) -> (r: String)
        ensures
            r@ == self.source(),
    {
        self.text.clone()
    }
}

/// What is to be done with a line before it is passed on.
pub enum LinePlan {
    /// Nothing more: this is passed on.
    Forward(String),
    /// Its text is to be translated.
    Translate(Pending),
}

/// What is to be done with a line.
pub enum LineModel {
    Forward(Seq<char>),
    Translate { members: Map<Seq<char>, JsonModel>, text: Seq<char> },
}

/// What is to be done with a line: the text of an object is translated, unless it is blank. An
/// object without a text is written anew; any other line is passed on as it came.
pub open spec fn line_plan(line: Seq<char>) -> LineModel {
    match json_parsed(line) {
        Some(JsonModel::Object(members)) => match string_member(
            JsonModel::Object(members),
            "text"@,
        ) {
            Some(text) => if is_blank(text) {
                LineModel::Forward(line)
            } else {
                LineModel::Translate { members, text }
            },
            None => LineModel::Forward(json_text(JsonModel::Object(members))),
        },
        _ => LineModel::Forward(line),
    }
}

/// What is to be done with a line: see [`line_plan`]. Of the line of a recognized text, unless
/// that is blank, this very text is to be translated. What is passed on takes one line if the
/// line did.
pub fn plan_line(line: &str) -> (r: LinePlan)
    ensures
        match r {
            LinePlan::Forward(out) => line_plan(line@) == LineModel::Forward(out@),
            LinePlan::Translate(p) => p.model() is Object && line_plan(line@)
                == (LineModel::Translate { members: p.model()->Object_0, text: p.source() }),
        },
        forall|t0: Seq<char>, t1: Seq<char>, s: Seq<char>|
            line@ == #[trigger] transcript(t0, t1, s) && is_number(t0) && is_number(t1)
                && !is_blank(s) ==> r is Translate && r->Translate_0.source() == s,
        r is Forward && is_one_line(line@) ==> is_one_line(r->Forward_0@),
{
    proof {
        assert forall|t0: Seq<char>, t1: Seq<char>, s: Seq<char>|
            line@ == #[trigger] transcript(t0, t1, s) && is_number(t0) && is_number(
                t1,
            ) implies line@ == flat_text(transcript_members(t0, t1, s)) && is_flat(
            transcript_members(t0, t1, s),
        ) && flat_string(transcript_members(t0, t1, s), "text"@) == Some(s) by {
            law_transcript_is_json(t0, t1, s);
        }
    }
    match parse_json(line) {
        None => LinePlan::Forward(line.to_owned()),
        Some(node) => {
            if !node.is_object() {
                return LinePlan::Forward(line.to_owned());
            }
            match string_at(&node, "text") {
                None => LinePlan::Forward(json_to_text(&node)),
                Some(text) => if blank(text.as_str()) {
                    LinePlan::Forward(line.to_owned())
                } else {
                    LinePlan::Translate(Pending { node, text })
                },
            }
        },
    }
}

/// The line with its text translated, and with the URL where it can be heard added. All other
/// members stay.
pub open spec fn translated_line(
    members: Map<Seq<char>, JsonModel>,
    text: Seq<char>,
    target: Seq<char>,
    port: nat,
) -> Seq<char> {
    json_text(
        JsonModel::Object(
            members.insert("text"@, JsonModel::Text(text)).insert(
                "audio_url"@,
                JsonModel::Text(audio_url(target, port, text)),
            ),
        ),
    )
}

/// The line to be passed on, once its text has been translated. It takes one line. Whoever can read the line finds
/// the translation in it, the URL where it can be heard, and the other texts of the line as they
/// were.
pub fn finish_line(pending: Pending, translated: &str, target: &str, port: u16) -> (r: String)
    requires
        pending.model() is Object,
    ensures
        r@ == translated_line(pending.model()->Object_0, translated@, target@, port as nat),
        is_one_line(r@),
        json_parsed(r@) matches Some(m) ==> string_member(m, "text"@) == Some(translated@)
            && string_member(m, "audio_url"@) == Some(
            audio_url(target@, port as nat, translated@),
        ) && forall|key: Seq<char>|
            key != "text"@ && key != "audio_url"@ ==> #[trigger] string_member(m, key)
                == string_member(pending.model(), key),
{
    let mut node = pending.node;
    let url = build_audio_url(target, port, translated);
    set_string(&mut node, "text", translated);
    set_string(&mut node, "audio_url", url.as_str());
    proof {
        reveal_strlit("text");
        reveal_strlit("audio_url");
        assert("text"@.len() != "audio_url"@.len());
        assert(string_member(json_model(node), "text"@) == Some(translated@));
        assert(string_member(json_model(node), "audio_url"@) == Some(url@));
        assert forall|key: Seq<char>| key != "text"@ && key != "audio_url"@ implies string_member(
            json_model(node),
            key,
        ) == #[trigger] string_member(pending.model(), key) by {}
    }
    json_to_text(&node)
}

/// The pairs of the query of the URL where a text can be heard, as they are written.
pub open spec fn audio_pairs(target: Seq<char>, port: nat, text: Seq<char>) -> Seq<
    (Seq<char>, Seq<char>),
> {
    seq![
        ("lang"@, target),
        ("speaker_wav"@, percent_encoded(snapshot_url(port))),
        ("text"@, percent_encoded(text)),
    ]
}

/// The URL where a text can be heard carries the language, the voice and the text as a query, so
/// that reading the query gives all three back. The language is written as it is: one that
/// reading would not leave as it is, is left out.
pub proof fn law_audio_url_carries(target: Seq<char>, port: nat, text: Seq<char>)
    requires
        is_verbatim(target),
    ensures
        audio_url(target, port, text) == "/tts_proxy?"@ + query_text(
            audio_pairs(target, port, text),
        ),
        carries_all(
            audio_pairs(target, port, text),
            seq![("lang"@, target), ("speaker_wav"@, snapshot_url(port)), ("text"@, text)],
        ),
{
    let ps = audio_pairs(target, port, text);
    reveal_strlit("lang");
    reveal_strlit("speaker_wav");
    reveal_strlit("text");
    reveal_strlit("/tts_proxy?");
    reveal_strlit("/tts_proxy?lang=");
    reveal_strlit("&speaker_wav=");
    reveal_strlit("&text=");
    law_plain_is_kept("lang"@);
    law_plain_is_kept("speaker_wav"@);
    law_plain_is_kept("text"@);
    assert(ps.drop_last() =~= seq![ps[0], ps[1]]);
    assert(seq![ps[0], ps[1]].drop_last() =~= seq![ps[0]]);
    let q1 = query_text(seq![ps[0]]);
    let q2 = query_text(seq![ps[0], ps[1]]);
    assert(q1 == "lang"@ + seq!['='] + target);
    assert(q2 == q1 + seq!['&'] + ("speaker_wav"@ + seq!['='] + ps[1].1));
    assert(audio_url(target, port, text) =~= "/tts_proxy?"@ + query_text(ps));
}

}
