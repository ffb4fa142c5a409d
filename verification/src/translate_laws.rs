//! What holds of every translation: what the service is asked, what is taken of its reply, and
//! what becomes of each line.
use crate::json::{json_parsed, json_text, string_member, JsonModel};
use crate::query::{percent_encoded, value_of};
use crate::speaker::no_audio_body;
use crate::text::{decimal, is_blank, law_decimal_round_trip, unsigned_value};
use crate::translate::{
    audio_url, line_plan, snapshot_url, translate_body, translated_line, translation, LineModel,
};
use vstd::prelude::*;
use vstd::string::*;

verus! {

/// A string member is found under its key, whatever it holds; under a key that there is not, or
/// that holds something else, there is none.
pub proof fn law_string_member(members: Map<Seq<char>, JsonModel>, key: Seq<char>, t: Seq<char>)
    ensures
        members.contains_key(key) && members[key] == JsonModel::Text(t) ==> string_member(
            JsonModel::Object(members),
            key,
        ) == Some(t),
        !members.contains_key(key) ==> string_member(JsonModel::Object(members), key) is None,
        members.contains_key(key) && !(members[key] is Text) ==> string_member(
            JsonModel::Object(members),
            key,
        ) is None,
{
}

/// Whenever the reply is an object with a string under `translatedText`, that string is the
/// translation, whatever the text was and whatever the string is.
pub proof fn law_translation_is_taken(
    text: Seq<char>,
    body: Seq<char>,
    members: Map<Seq<char>, JsonModel>,
    t: Seq<char>,
)
    requires
        json_parsed(body) == Some(JsonModel::Object(members)),
        members.contains_key("translatedText"@),
        members["translatedText"@] == JsonModel::Text(t),
    ensures
        translation(text, Some(body)) == t,
{
}

/// Without a reply, or with one that holds no such string, the text itself stands in.
pub proof fn law_text_stands_in(text: Seq<char>, body: Seq<char>)
    ensures
        translation(text, None) == text,
        (match json_parsed(body) {
            Some(JsonModel::Object(members)) => !(members.contains_key("translatedText"@)
                && members["translatedText"@] is Text),
            _ => true,
        }) ==> translation(text, Some(body)) == text,
{
}

/// The service is asked for the text that was given, from any language into the one that was
/// asked for, and for nothing else.
pub proof fn law_translation_request(text: Seq<char>, to: Seq<char>, key: Seq<char>)
    ensures
        string_member(translate_body(text, to), "q"@) == Some(text),
        string_member(translate_body(text, to), "source"@) == Some("auto"@),
        string_member(translate_body(text, to), "target"@) == Some(to),
        key != "q"@ && key != "source"@ && key != "target"@ ==> !translate_body(
            text,
            to,
        )->Object_0.contains_key(key),
{
    reveal_strlit("q");
    reveal_strlit("source");
    reveal_strlit("target");
    assert("q"@.len() == 1 && "source"@[0] == 's' && "target"@[0] == 't');
}

/// What becomes of a line: the text of an object is translated, all else stays as it is; an
/// object with a blank text, and what is no object, is passed on as it came, and an object
/// without a text as serde_json writes it.
pub proof fn law_line_plan(line: Seq<char>, members: Map<Seq<char>, JsonModel>, text: Seq<char>)
    ensures
        json_parsed(line) is None ==> line_plan(line) == LineModel::Forward(line),
        json_parsed(line) is Some && !(json_parsed(line).unwrap() is Object) ==> line_plan(line)
            == LineModel::Forward(line),
        json_parsed(line) == Some(JsonModel::Object(members)) && members.contains_key("text"@)
            && members["text"@] == JsonModel::Text(text) ==> line_plan(line) == (if is_blank(text) {
            LineModel::Forward(line)
        } else {
            LineModel::Translate { members, text }
        }),
        json_parsed(line) == Some(JsonModel::Object(members)) && !(members.contains_key("text"@)
            && members["text"@] is Text) ==> line_plan(line) == LineModel::Forward(
            json_text(JsonModel::Object(members)),
        ),
{
}

/// A line with its text translated, written anew.
pub open spec fn is_translation_of(
    out: Map<Seq<char>, JsonModel>,
    members: Map<Seq<char>, JsonModel>,
    text: Seq<char>,
    url: Seq<char>,
) -> bool {
    &&& out.contains_key("text"@) && out["text"@] == JsonModel::Text(text)
    &&& out.contains_key("audio_url"@) && out["audio_url"@] == JsonModel::Text(url)
    &&& forall|key: Seq<char>|
        key != "text"@ && key != "audio_url"@ ==> #[trigger] out.contains_key(key)
            == members.contains_key(key)
    &&& forall|key: Seq<char>|
        key != "text"@ && key != "audio_url"@ && members.contains_key(key) ==> #[trigger] out[key]
            == members[key]
}

/// A translated line holds the translation, where it can be heard, and all other members as they
/// were.
pub proof fn law_translated_line_keeps_the_rest(
    members: Map<Seq<char>, JsonModel>,
    text: Seq<char>,
    target: Seq<char>,
    port: nat,
)
    ensures
        exists|out: Map<Seq<char>, JsonModel>|
            translated_line(members, text, target, port) == json_text(JsonModel::Object(out))
                && #[trigger] is_translation_of(out, members, text, audio_url(target, port, text)),
{
    reveal_strlit("text");
    reveal_strlit("audio_url");
    assert("text"@.len() != "audio_url"@.len());
    let out = members.insert("text"@, JsonModel::Text(text)).insert(
        "audio_url"@,
        JsonModel::Text(audio_url(target, port, text)),
    );
    assert(is_translation_of(out, members, text, audio_url(target, port, text)));
    assert(translated_line(members, text, target, port) == json_text(JsonModel::Object(out)));
}

/// Where a text can be heard is told by the language as it was given, by where the voice is to be
/// had, and by the text, and nothing else stands between them.
pub proof fn law_audio_url_parts(target: Seq<char>, port: nat, text: Seq<char>)
    ensures
        ("/tts_proxy?lang="@ + target + "&speaker_wav="@).is_prefix_of(
            audio_url(target, port, text),
        ),
        ("&text="@ + percent_encoded(text)).is_suffix_of(audio_url(target, port, text)),
        audio_url(target, port, text).len() == 35 + target.len() + percent_encoded(
            snapshot_url(port),
        ).len() + percent_encoded(text).len(),
{
    reveal_strlit("/tts_proxy?lang=");
    reveal_strlit("&speaker_wav=");
    reveal_strlit("&text=");
    let url = audio_url(target, port, text);
    let head = "/tts_proxy?lang="@ + target + "&speaker_wav="@;
    let tail = "&text="@ + percent_encoded(text);
    assert(url =~= head + percent_encoded(snapshot_url(port)) + tail);
    assert(head.is_prefix_of(url));
    assert(tail.is_suffix_of(url));
}

/// The voice is to be had from this machine, at the port that was given.
pub proof fn law_snapshot_url_names_the_port(port: nat)
    ensures
        "http://127.0.0.1:"@.is_prefix_of(snapshot_url(port)),
        "/speaker_snapshot"@.is_suffix_of(snapshot_url(port)),
        snapshot_url(port).len() >= 34,
        unsigned_value(snapshot_url(port).subrange(17, snapshot_url(port).len() - 17), port)
            == Some(port),
{
    reveal_strlit("http://127.0.0.1:");
    reveal_strlit("/speaker_snapshot");
    let url = snapshot_url(port);
    assert("http://127.0.0.1:"@.is_prefix_of(url));
    assert("/speaker_snapshot"@.is_suffix_of(url));
    assert(url.subrange(17, url.len() - 17) =~= decimal(port));
    law_decimal_round_trip(port, port);
}

/// The last value that a query gives for a key counts, and values of other keys make no
/// difference.
pub proof fn law_last_value_counts(
    ps: Seq<(Seq<char>, Seq<char>)>,
    key: Seq<char>,
    other: Seq<char>,
    v: Seq<char>,
)
    ensures
        value_of(Seq::empty(), key) is None,
        value_of(ps.push((key, v)), key) == Some(v),
        other != key ==> value_of(ps.push((other, v)), key) == value_of(ps, key),
{
    assert(ps.push((key, v)).drop_last() =~= ps);
    assert(ps.push((other, v)).drop_last() =~= ps);
}

/// A request for the voice before anybody spoke is told so.
pub proof fn law_no_audio_says_so()
    ensures
        string_member(no_audio_body(), "error"@) == Some("no_speaker_audio"@),
        string_member(no_audio_body(), "message"@) == Some(
            "No speaker audio captured yet. Please start recording and speak first."@,
        ),
{
    reveal_strlit("error");
    reveal_strlit("message");
    assert("error"@.len() != "message"@.len());
}

}
