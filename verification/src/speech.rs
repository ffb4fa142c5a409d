//! Cutting a text into the pieces that are spoken one after the other.
use crate::speech_laws::{
    all_short, law_break_splits, law_chunk_shape, law_chunks_exist, law_sound_is_said,
    lemma_said_is_some,
};
use crate::text::{
    chars_of, control_code, is_control_code, is_white, text_between, texts, trim, trimmed,
};
use vstd::prelude::*;
use vstd::string::*;
use vstd::utf8::*;

verus! {

/// Two texts with a character between them.
pub open spec fn joined_at(a: Seq<char>, c: char, b: Seq<char>) -> Seq<char> {
    a + seq![c] + b
}

/// Unicode normalization form C of a text.
pub uninterp spec fn nfc(s: Seq<char>) -> Seq<char>;

/// `UnicodeNormalization::nfc` of the unicode-normalization crate, collected into a string. The
/// composition tables are not spelled out: the result is named `nfc` of the argument. A text of
/// ASCII is left as it is. A character that ends a sentence stays, and what stands before and
/// behind it is normalized by itself: such a character has no decomposition, is no combining
/// mark, and composes with no other. A text with a character that is heard keeps one, and so does
/// each of those parts: none decomposes into, and none is composed to, what is not heard.
#[verifier::external_body]
fn nfc_text(s: &str) -> (r: String)
    ensures
        r@ == nfc(s@),
        is_ascii_chars(s@) ==> r@ == s@,
        has_sound(s@) ==> has_sound(r@),
        forall|a: Seq<char>, c: char, b: Seq<char>|
            s@ == #[trigger] joined_at(a, c, b) && is_break(c) ==> r@ == joined_at(
                nfc(a),
                c,
                nfc(b),
            ) && (has_sound(a) ==> has_sound(r@.take(nfc(a).len() as int))) && (has_sound(b)
                ==> has_sound(r@.skip(nfc(a).len() as int + 1))),
{
    unicode_normalization::UnicodeNormalization::nfc(s).collect::<String>()
}

/// The characters that cleaning keeps: newlines, and all that are no control codes.
pub open spec fn is_kept(c: char) -> bool {
    !is_control_code(c) || c == '\n'
}

/// `s` without control codes other than newlines, and without white space at either end.
pub open spec fn cleaned(s: Seq<char>) -> Seq<char> {
    trimmed(s.filter(|c: char| is_kept(c)))
}

/// The characters that end a sentence.
pub open spec fn is_break(c: char) -> bool {
    ||| c == '\u{3002}'
    ||| c == '\u{ff0e}'
    ||| c == '.'
    ||| c == '?'
    ||| c == '!'
    ||| c == '\u{ff1f}'
    ||| c == '\u{ff01}'
    ||| c == '\n'
}

/// A character that is heard stands in `s` at position `i`: it is kept, and neither white space
/// nor the end of a sentence.
pub open spec fn sound_at(s: Seq<char>, i: int) -> bool {
    0 <= i < s.len() && is_kept(s[i]) && !is_white(s[i]) && !is_break(s[i])
}

/// Something in `s` is heard.
pub open spec fn has_sound(s: Seq<char>) -> bool {
    exists|i: int| sound_at(s, i)
}

/// The stretches of `s` between the characters that end a sentence.
pub open spec fn sentences(s: Seq<char>) -> Seq<Seq<char>>
    decreases s.len(),
{
    if s.len() == 0 {
        seq![s]
    } else {
        let before = sentences(s.drop_last());
        if is_break(s.last()) {
            before.push(Seq::empty())
        } else {
            before.drop_last().push(before.last().push(s.last()))
        }
    }
}

/// The stretches, trimmed, without those that are blank.
pub open spec fn spoken(ss: Seq<Seq<char>>) -> Seq<Seq<char>>
    decreases ss.len(),
{
    if ss.len() == 0 {
        ss
    } else if trimmed(ss.last()).len() == 0 {
        spoken(ss.drop_last())
    } else {
        spoken(ss.drop_last()).push(trimmed(ss.last()))
    }
}

/// The number of bytes that a character takes in UTF-8.
pub open spec fn utf8_width(c: char) -> nat {
    encode_scalar(c as u32).len()
}

/// The number of bytes that a text takes in UTF-8.
pub open spec fn byte_len(s: Seq<char>) -> nat {
    encode_utf8(s).len()
}

/// The fewest leading characters of `s` that take at least `max` bytes; all of them if none do.
pub open spec fn first_cut(s: Seq<char>, max: nat) -> nat
    decreases s.len(),
{
    if s.len() == 0 || max == 0 {
        0
    } else {
        let w = utf8_width(s[0]);
        1 + first_cut(s.drop_first(), if w < max { (max - w) as nat } else { 0 })
    }
}

/// `s` cut into slices of `max` bytes, each lengthened to the end of its last character.
pub open spec fn slices(s: Seq<char>, max: nat) -> Seq<Seq<char>>
    decreases s.len(),
{
    if s.len() == 0 || max == 0 {
        Seq::empty()
    } else {
        let k = first_cut(s, max) as int;
        if k > s.len() {
            Seq::empty()
        } else {
            seq![s.take(k)] + slices(s.skip(k), max)
        }
    }
}

/// The slices of all texts in `ss`, in order.
pub open spec fn all_slices(ss: Seq<Seq<char>>, max: nat) -> Seq<Seq<char>>
    decreases ss.len(),
{
    if ss.len() == 0 {
        Seq::empty()
    } else {
        all_slices(ss.drop_last(), max) + slices(ss.last(), max)
    }
}

/// The chunks of a cleaned text: the slices of its sentences. A text of which no sentence is
/// left is one chunk, and the empty text has none.
pub open spec fn chunks(clean: Seq<char>, max: nat) -> Seq<Seq<char>> {
    let out = all_slices(spoken(sentences(clean)), max);
    if out.len() == 0 && clean.len() > 0 {
        seq![clean]
    } else {
        out
    }
}

fn width(c: char) -> (r: usize)
    ensures
        r == utf8_width(c),
        1 <= r <= 4,
{
    let n: u32 = c as u32;
    if n <= 0x7f {
        1
    } else if n <= 0x7ff {
        2
    } else if n <= 0xffff {
        3
    } else {
        4
    }
}

fn breaks(c: char) -> (r: bool)
    ensures
        r == is_break(c),
{
    c == '\u{3002}' || c == '\u{ff0e}' || c == '.' || c == '?' || c == '!' || c == '\u{ff1f}' || c
        == '\u{ff01}' || c == '\n'
}

proof fn lemma_first_cut_bound(s: Seq<char>, max: nat)
    ensures
        first_cut(s, max) <= s.len(),
        s.len() > 0 && max > 0 ==> first_cut(s, max) > 0,
    decreases s.len(),
{
    if s.len() > 0 && max > 0 {
        let w = utf8_width(s[0]);
        lemma_first_cut_bound(s.drop_first(), if w < max { (max - w) as nat } else { 0 });
    }
}

/// Drops the control codes of `s`, newlines excepted, then the white space at either end.
pub fn clean_text(s: &str) -> (r: String)
    ensures
        r@ == cleaned(s@),
{
    let v = chars_of(s);
    let ghost keep = |c: char| is_kept(c);
    let mut out = String::new();
    let mut i: usize = 0;
    proof {
        reveal(Seq::filter);
    }
    while i < v.len()
        invariant
            i <= v@.len(),
            v@ == s@,
            keep == (|c: char| is_kept(c)),
            out@ == v@.take(i as int).filter(keep),
        decreases v@.len() - i,
    {
        proof {
            reveal(Seq::filter);
            assert(v@.take(i + 1).drop_last() =~= v@.take(i as int));
            assert(v@.take(i + 1).last() == v@[i as int]);
        }
        let c: char = v[i];
        if !control_code(c) || c == '\n' {
            out.push(c);
        }
        i = i + 1;
    }
    assert(v@.take(v@.len() as int) =~= v@);
    trim(out.as_str())
}

/// Adds the slices of `p` to `out`.
fn push_slices(out: &mut Vec<String>, p: &str, max_len: usize)
    requires
        max_len > 0 || p@.len() == 0,
    ensures
        texts(final(out)@) == texts(old(out)@) + slices(p@, max_len as nat),
{
    let v = chars_of(p);
    let mut start: usize = 0;
    proof {
        assert(v@.skip(0) =~= v@);
    }
    while start < v.len()
        invariant
            start <= v@.len(),
            v@ == p@,
            max_len > 0 || p@.len() == 0,
            texts(old(out)@) + slices(p@, max_len as nat) == texts(out@) + slices(
                v@.skip(start as int),
                max_len as nat,
            ),
        decreases v@.len() - start,
    {
        let ghost rest = v@.skip(start as int);
        let ghost was = texts(out@);
        let mut end: usize = start;
        let mut need: usize = max_len;
        proof {
            assert(v@.skip(start as int) =~= rest);
        }
        while end < v.len() && need > 0
            invariant
                start <= end <= v@.len(),
                rest == v@.skip(start as int),
                need <= max_len,
                first_cut(rest, max_len as nat) == (end - start) + first_cut(
                    v@.skip(end as int),
                    need as nat,
                ),
            decreases v@.len() - end,
        {
            proof {
                assert(v@.skip(end as int).drop_first() =~= v@.skip(end + 1));
            }
            let w: usize = width(v[end]);
            if w < need {
                need = need - w;
            } else {
                need = 0;
            }
            end = end + 1;
        }
        proof {
            lemma_first_cut_bound(rest, max_len as nat);
            assert(first_cut(rest, max_len as nat) == end - start);
            assert(rest.take(end - start) =~= v@.subrange(start as int, end as int));
            assert(rest.skip(end - start) =~= v@.skip(end as int));
        }
        out.push(text_between(&v, start, end));
        proof {
            assert(texts(out@) =~= was.push(rest.take(end - start)));
            assert(was + slices(rest, max_len as nat) =~= texts(out@) + slices(
                v@.skip(end as int),
                max_len as nat,
            ));
        }
        start = end;
    }
    proof {
        assert(texts(out@) + slices(v@.skip(start as int), max_len as nat) =~= texts(out@));
    }
}

/// Cuts a cleaned text into its chunks.
///
/// A `max_len` of zero leaves room for no slice; it is of use only where there is none to cut.
pub fn chunk_text(clean: &str, max_len: usize) -> (r: Vec<String>)
    requires
        max_len > 0 || spoken(sentences(clean@)).len() == 0,
    ensures
        texts(r@) == chunks(clean@, max_len as nat),
{
    let v = chars_of(clean);
    let n: usize = v.len();
    let ghost m = max_len as nat;
    let mut out: Vec<String> = Vec::new();
    let mut start: usize = 0;
    let mut i: usize = 0;
    let ghost mut done: Seq<Seq<char>> = Seq::empty();
    proof {
        assert(v@.take(0) =~= Seq::empty());
        assert(v@.subrange(0, 0) =~= Seq::empty());
        assert(sentences(v@.take(0)) =~= done.push(v@.subrange(0, 0)));
        assert(texts(out@) =~= all_slices(spoken(done), m));
    }
    while i < n
        invariant
            start <= i <= n == v@.len(),
            v@ == clean@,
            m == max_len,
            max_len > 0 || spoken(sentences(clean@)).len() == 0,
            sentences(v@.take(i as int)) == done.push(v@.subrange(start as int, i as int)),
            texts(out@) == all_slices(spoken(done), m),
        decreases n - i,
    {
        let ghost open = v@.subrange(start as int, i as int);
        proof {
            assert(v@.take(i + 1).drop_last() =~= v@.take(i as int));
            assert(v@.take(i + 1).last() == v@[i as int]);
            assert(done.push(open).drop_last() =~= done);
        }
        if breaks(v[i]) {
            let p = trim(text_between(&v, start, i).as_str());
            proof {
                lemma_spoken_step(v@, i + 1, done, open);
            }
            if !p.as_str().is_empty() {
                push_slices(&mut out, p.as_str(), max_len);
            }
            proof {
                assert(done.push(open).drop_last() =~= done);
                let now = spoken(done.push(open));
                if trimmed(open).len() > 0 {
                    assert(now.drop_last() =~= spoken(done));
                }
                done = done.push(open);
                assert(v@.subrange(i + 1, i + 1) =~= Seq::empty());
            }
            start = i + 1;
        } else {
            proof {
                assert(v@.subrange(start as int, i + 1) =~= open.push(v@[i as int]));
                assert(done.push(open).drop_last().push(open.push(v@[i as int])) =~= done.push(
                    v@.subrange(start as int, i + 1),
                ));
            }
        }
        i = i + 1;
    }
    let ghost open = v@.subrange(start as int, n as int);
    let p = trim(text_between(&v, start, n).as_str());
    proof {
        assert(v@.take(n as int) =~= v@);
        assert(done.push(open).drop_last() =~= done);
        lemma_spoken_step(v@, n as int, done, open);
    }
    if !p.as_str().is_empty() {
        push_slices(&mut out, p.as_str(), max_len);
    }
    proof {
        let now = spoken(done.push(open));
        if trimmed(open).len() > 0 {
            assert(now.drop_last() =~= spoken(done));
        }
        assert(texts(out@) == all_slices(spoken(sentences(clean@)), m));
        assert(texts(out@).len() == out@.len());
    }
    if out.len() == 0 && !clean.is_empty() {
        out.push(clean.to_owned());
        proof {
            assert(texts(out@) =~= seq![clean@]);
        }
    }
    out
}

/// A sentence that a later character has closed stays as it is while the text goes on.
proof fn lemma_closed_stays(s: Seq<char>, i: int, j: int)
    requires
        0 <= i <= j <= s.len(),
    ensures
        sentences(s.take(i)).len() > 0,
        sentences(s.take(j)).len() >= sentences(s.take(i)).len(),
        forall|k: int|
            0 <= k < sentences(s.take(i)).len() - 1 ==> #[trigger] sentences(s.take(i))[k]
                == sentences(s.take(j))[k],
    decreases j,
{
    if i < j {
        lemma_closed_stays(s, i, j - 1);
        assert(s.take(j).drop_last() =~= s.take(j - 1));
    } else if 0 < i {
        lemma_closed_stays(s, i - 1, i - 1);
        assert(s.take(i).drop_last() =~= s.take(i - 1));
    }
}

/// Where nothing is spoken, every stretch is blank.
proof fn lemma_spoken_none(ss: Seq<Seq<char>>, k: int)
    requires
        0 <= k < ss.len(),
        spoken(ss).len() == 0,
    ensures
        trimmed(ss[k]).len() == 0,
    decreases ss.len(),
{
    if k < ss.len() - 1 {
        lemma_spoken_none(ss.drop_last(), k);
    }
}

/// Where nothing is spoken, a sentence that is closed, or that ends the text, is blank.
proof fn lemma_spoken_step(s: Seq<char>, i: int, done: Seq<Seq<char>>, open: Seq<char>)
    requires
        0 <= i <= s.len(),
        done.push(open).is_prefix_of(sentences(s.take(i))),
        i == s.len() || done.push(open).len() < sentences(s.take(i)).len(),
    ensures
        spoken(sentences(s)).len() == 0 ==> trimmed(open).len() == 0,
{
    let k = done.len() as int;
    lemma_closed_stays(s, i, s.len() as int);
    assert(s.take(s.len() as int) =~= s);
    assert(done.push(open)[k] == open);
    assert(sentences(s.take(i))[k] == open);
    if spoken(sentences(s)).len() == 0 {
        lemma_spoken_none(sentences(s), k);
    }
}

/// The pieces of `text` that are spoken one after the other: the text is normalized and cleaned,
/// then cut at the ends of sentences, and a sentence of more than `max_len` bytes is cut further.
/// A text of ASCII needs no normalization. A text that is cut at the end of a sentence has the
/// pieces of its two parts, one after the other, if something is heard in each of them. Of a text
/// in which something is heard there is a piece, and every piece is short.
pub fn normalize_and_chunk(text: &str, max_len: usize) -> (r: Vec<String>)
    requires
        max_len > 0 || spoken(sentences(cleaned(nfc(text@)))).len() == 0,
    ensures
        texts(r@) == chunks(cleaned(nfc(text@)), max_len as nat),
        is_ascii_chars(text@) ==> texts(r@) == chunks(cleaned(text@), max_len as nat),
        max_len > 0 && has_sound(text@) ==> r@.len() > 0 && all_short(texts(r@), max_len as nat),
        forall|a: Seq<char>, c: char, b: Seq<char>|
            text@ == #[trigger] joined_at(a, c, b) && is_break(c) && max_len > 0 && has_sound(
                a,
            ) && has_sound(b) ==> texts(r@) == chunks(cleaned(nfc(a)), max_len as nat)
                + chunks(cleaned(nfc(b)), max_len as nat),
{
    let normalized = nfc_text(text);
    proof {
        if max_len > 0 && has_sound(text@) {
            law_sound_is_said(normalized@);
            law_chunk_shape(cleaned(normalized@), max_len as nat);
            law_chunks_exist(cleaned(normalized@), max_len as nat);
            lemma_said_is_some(normalized@);
        }
        assert forall|a: Seq<char>, c: char, b: Seq<char>|
            text@ == #[trigger] joined_at(a, c, b) && is_break(c) && max_len > 0 && has_sound(
                a,
            ) && has_sound(b) implies chunks(cleaned(normalized@), max_len as nat)
            == chunks(cleaned(nfc(a)), max_len as nat) + chunks(cleaned(nfc(b)), max_len as nat) by {
            assert(normalized@.take(nfc(a).len() as int) =~= nfc(a));
            assert(normalized@.skip(nfc(a).len() as int + 1) =~= nfc(b));
            law_sound_is_said(nfc(a));
            law_sound_is_said(nfc(b));
            law_break_splits(nfc(a), c, nfc(b), max_len as nat);
        }
    }
    let clean = clean_text(normalized.as_str());
    let r = chunk_text(clean.as_str(), max_len);
    assert(texts(r@).len() == r@.len());
    r
}

}
