//! The query part of a URL: encoding values into one, and reading them back.
use crate::text::same_text;
use vstd::prelude::*;
use vstd::string::*;
use vstd::utf8::*;

verus! {

/// The bytes that stand for themselves in an encoded value: letters and digits of ASCII, and the
/// marks `-`, `.`, `_`, `~`.
pub open spec fn is_unreserved(b: u8) -> bool {
    ||| 0x30 <= b <= 0x39
    ||| 0x41 <= b <= 0x5a
    ||| 0x61 <= b <= 0x7a
    ||| b == 0x2d
    ||| b == 0x2e
    ||| b == 0x5f
    ||| b == 0x7e
}

/// The character of a hexadecimal digit.
pub open spec fn hex_char(d: u8) -> char {
    if d < 10 {
        (48 + d) as char
    } else {
        (55 + d) as char
    }
}

/// Bytes in percent encoding.
pub open spec fn percent_bytes(bytes: Seq<u8>) -> Seq<char>
    decreases bytes.len(),
{
    if bytes.len() == 0 {
        Seq::empty()
    } else {
        let b = bytes.last();
        percent_bytes(bytes.drop_last()) + (if is_unreserved(b) {
            seq![b as char]
        } else {
            seq!['%', hex_char(b / 16), hex_char(b % 16)]
        })
    }
}

/// A text in percent encoding: its UTF-8 bytes, one by one.
pub open spec fn percent_encoded(s: Seq<char>) -> Seq<char> {
    percent_bytes(encode_utf8(s))
}

/// `urlencoding::encode`: every byte of the UTF-8 encoding that is no ASCII letter or digit and
/// none of `-`, `.`, `_`, `~` becomes a percent sign and two hexadecimal digits in upper case.
#[verifier::external_body]
pub(crate) fn url_encode(s: &str) -> (r: String)
    ensures
        r@ == percent_encoded(s@),
{
    urlencoding::encode(s).into_owned()
}

/// The texts of a list of pairs.
pub open spec fn pair_texts(v: Seq<(String, String)>) -> Seq<(Seq<char>, Seq<char>)> {
    Seq::new(v.len(), |i: int| (v[i].0@, v[i].1@))
}

/// A hexadecimal digit, in upper or lower case.
pub open spec fn is_hex(c: char) -> bool {
    ('0' <= c && c <= '9') || ('A' <= c && c <= 'F') || ('a' <= c && c <= 'f')
}

/// A percent sign and two hexadecimal digits stand in `s` at position `i`.
pub open spec fn escape_at(s: Seq<char>, i: int) -> bool {
    i + 2 < s.len() && s[i] == '%' && is_hex(s[i + 1]) && is_hex(s[i + 2])
}

/// A value that reading a query leaves as it is: there is no `&`, no `+`, and no percent sign
/// with two hexadecimal digits behind it.
pub open spec fn is_verbatim(s: Seq<char>) -> bool {
    forall|i: int|
        0 <= i < s.len() ==> #[trigger] s[i] != '&' && s[i] != '+' && !escape_at(s, i)
}

/// Reading `raw` as a value of a query gives `value`: it is the value in percent encoding, or
/// the value itself, if that is left as it is.
pub open spec fn carries(raw: Seq<char>, value: Seq<char>) -> bool {
    raw == percent_encoded(value) || (raw == value && is_verbatim(value))
}

/// Reading the values of `raws` gives those of `ps`; the keys are the same.
pub open spec fn carries_all(
    raws: Seq<(Seq<char>, Seq<char>)>,
    ps: Seq<(Seq<char>, Seq<char>)>,
) -> bool {
    &&& raws.len() == ps.len()
    &&& forall|i: int|
        0 <= i < ps.len() ==> (#[trigger] raws[i]).0 == ps[i].0 && carries(raws[i].1, ps[i].1)
}

/// The query of a list of pairs: the keys in percent encoding, the values as they are.
pub open spec fn query_text(raws: Seq<(Seq<char>, Seq<char>)>) -> Seq<char>
    decreases raws.len(),
{
    if raws.len() == 0 {
        Seq::empty()
    } else {
        let (k, v) = raws.last();
        let pair = percent_encoded(k) + seq!['='] + v;
        if raws.len() == 1 {
            pair
        } else {
            query_text(raws.drop_last()) + seq!['&'] + pair
        }
    }
}

/// The pairs that a query carries, by the rules of `application/x-www-form-urlencoded`.
pub uninterp spec fn query_pairs(query: Seq<char>) -> Seq<(Seq<char>, Seq<char>)>;

/// `url::form_urlencoded::parse` of the bytes of a query, with the pairs as owned strings. What
/// it makes of an ill-formed query is not spelled out: the pairs are named `query_pairs` of the
/// query. Of a query whose keys are in percent encoding, and whose values are too or need no
/// encoding, it gives the pairs back: it cuts the query at each `&` and a pair at its first `=`,
/// takes `+` for a space, and decodes each percent sign with two hexadecimal digits.
#[verifier::external_body]
pub(crate) fn parse_query(query: &str) -> (r: Vec<(String, String)>)
    ensures
        pair_texts(r@) == query_pairs(query@),
        forall|raws: Seq<(Seq<char>, Seq<char>)>, ps: Seq<(Seq<char>, Seq<char>)>|
            query@ == query_text(raws) && #[trigger] carries_all(raws, ps) ==> pair_texts(r@) == ps,
{
    url::form_urlencoded::parse(query.as_bytes()).into_owned().collect()
}

/// The value of `key`: of the last pair with that key.
pub open spec fn value_of(ps: Seq<(Seq<char>, Seq<char>)>, key: Seq<char>) -> Option<Seq<char>>
    decreases ps.len(),
{
    if ps.len() == 0 {
        None
    } else if ps.last().0 == key {
        Some(ps.last().1)
    } else {
        value_of(ps.drop_last(), key)
    }
}

/// The value of `key`, if any pair has that key.
pub fn lookup(pairs: &Vec<(String, String)>, key: &str) -> (r: Option<String>)
    ensures
        match r {
            Some(v) => value_of(pair_texts(pairs@), key@) == Some(v@),
            None => value_of(pair_texts(pairs@), key@) is None,
        },
{
    let ghost ps = pair_texts(pairs@);
    let mut i: usize = pairs.len();
    proof {
        assert(ps.take(i as int) =~= ps);
    }
    while 0 < i
        invariant
            i <= pairs@.len(),
            ps == pair_texts(pairs@),
            value_of(ps, key@) == value_of(ps.take(i as int), key@),
        decreases i,
    {
        proof {
            assert(ps.take(i as int).drop_last() =~= ps.take(i - 1));
            assert(ps.take(i as int).last() == ps[i - 1]);
        }
        i = i - 1;
        if same_text(pairs[i].0.as_str(), key) {
            return Some(pairs[i].1.clone());
        }
    }
    None
}

/// A character that stands for itself in an encoded value.
pub open spec fn is_plain_char(c: char) -> bool {
    c <= '\u{7f}' && is_unreserved(c as u8)
}

/// Nothing but characters that stand for themselves in an encoded value.
pub open spec fn is_plain(s: Seq<char>) -> bool {
    forall|i: int| 0 <= i < s.len() ==> is_plain_char(#[trigger] s[i])
}

/// A plain text is its own percent encoding.
pub proof fn law_plain_is_kept(s: Seq<char>)
    requires
        is_plain(s),
    ensures
        percent_encoded(s) == s,
{
    assert forall|i: int| 0 <= i < s.len() implies '\0' <= #[trigger] s[i] <= '\u{7f}' by {
        assert(is_plain_char(s[i]));
        lemma_char_range(s[i]);
    }
    is_ascii_chars_encode_utf8(s);
    lemma_plain_bytes(s, encode_utf8(s));
}

proof fn lemma_char_range(c: char)
    ensures
        '\0' <= c <= '\u{10ffff}',
{
}

proof fn lemma_plain_bytes(s: Seq<char>, bytes: Seq<u8>)
    requires
        is_plain(s),
        bytes.len() == s.len(),
        forall|i: int| 0 <= i < s.len() ==> #[trigger] bytes[i] == s[i] as u8,
    ensures
        percent_bytes(bytes) == s,
    decreases s.len(),
{
    if s.len() > 0 {
        let t = s.drop_last();
        let b = bytes.drop_last();
        assert forall|i: int| 0 <= i < t.len() implies is_plain_char(#[trigger] t[i]) by {
            assert(t[i] == s[i]);
        }
        assert forall|i: int| 0 <= i < t.len() implies #[trigger] b[i] == t[i] as u8 by {
            assert(bytes[i] == s[i] as u8);
        }
        lemma_plain_bytes(t, b);
        assert(is_plain_char(s[s.len() - 1]));
        assert(bytes.last() == s.last() as u8);
        let c: char = s.last();
        assert(is_plain_char(c));
        lemma_char_range(c);
        assert(c as u8 == c as u32);
        assert((c as u8) as char == c);
        assert(t + seq![s.last()] =~= s);
    }
}

}
