//! What holds of the chunks of every text.
use crate::speech::{
    all_slices, byte_len, chunks, cleaned, first_cut, has_sound, is_break, is_kept, joined_at, sentences,
    slices, sound_at, spoken, utf8_width,
};
use crate::text::{
    is_white, lemma_trimmed_end_shape, lemma_trimmed_start_shape, trimmed, trimmed_end,
    trimmed_start,
};
use vstd::prelude::*;
use vstd::seq_lib::*;
use vstd::utf8::*;

verus! {

/// The characters of `s` that are heard: all but white space and the ends of sentences.
pub open spec fn heard(s: Seq<char>) -> Seq<char> {
    s.filter(|c: char| !is_white(c) && !is_break(c))
}

/// No text holds the end of a sentence.
pub open spec fn unbroken(s: Seq<char>) -> bool {
    forall|i: int| 0 <= i < s.len() ==> !is_break(#[trigger] s[i])
}

/// What is heard of two texts is heard of each.
pub(crate) proof fn lemma_heard_add(a: Seq<char>, b: Seq<char>)
    ensures
        heard(a + b) == heard(a) + heard(b),
{
    Seq::filter_distributes_over_add(a, b, |c: char| !is_white(c) && !is_break(c));
}

/// Of white space and the ends of sentences nothing is heard.
pub(crate) proof fn lemma_heard_none(a: Seq<char>)
    requires
        forall|i: int| 0 <= i < a.len() ==> is_white(#[trigger] a[i]) || is_break(a[i]),
    ensures
        heard(a) == Seq::<char>::empty(),
    decreases a.len(),
{
    reveal(Seq::filter);
    if a.len() > 0 {
        lemma_heard_none(a.drop_last());
    }
}

/// Trimming takes off nothing that is heard.
pub(crate) proof fn lemma_heard_trimmed(s: Seq<char>)
    ensures
        heard(trimmed(s)) == heard(s),
{
    let a = trimmed_start(s);
    let b = trimmed(s);
    lemma_trimmed_start_shape(s);
    lemma_trimmed_end_shape(a);
    let front = s.take(s.len() - a.len());
    let back = a.skip(b.len() as int);
    assert(s =~= front + a);
    assert(a =~= b + back);
    assert forall|i: int| 0 <= i < back.len() implies is_white(#[trigger] back[i]) by {
        assert(back[i] == a[b.len() + i]);
    }
    lemma_heard_add(front, a);
    lemma_heard_add(b, back);
    lemma_heard_none(front);
    lemma_heard_none(back);
    assert(heard(s) =~= heard(b));
}

/// Leaving out blank stretches takes off nothing that is heard.
pub(crate) proof fn lemma_heard_spoken(ss: Seq<Seq<char>>)
    ensures
        heard(spoken(ss).flatten()) == heard(ss.flatten()),
    decreases ss.len(),
{
    if ss.len() > 0 {
        let front = ss.drop_last();
        let t = trimmed(ss.last());
        lemma_heard_spoken(front);
        lemma_heard_trimmed(ss.last());
        assert(ss =~= front.push(ss.last()));
        front.lemma_flatten_push(ss.last());
        lemma_heard_add(front.flatten(), ss.last());
        if t.len() == 0 {
            lemma_heard_none(t);
            assert(heard(ss.flatten()) =~= heard(front.flatten()));
        } else {
            spoken(front).lemma_flatten_push(t);
            lemma_heard_add(spoken(front).flatten(), t);
        }
    }
}

/// Cutting at the ends of sentences takes off nothing that is heard.
pub(crate) proof fn lemma_heard_sentences(s: Seq<char>)
    ensures
        sentences(s).len() > 0,
        heard(sentences(s).flatten()) == heard(s),
    decreases s.len(),
{
    if s.len() == 0 {
        seq![s].lemma_flatten_singleton();
    } else {
        let d = s.drop_last();
        let c = s.last();
        let before = sentences(d);
        lemma_heard_sentences(d);
        assert(s =~= d + seq![c]);
        lemma_heard_add(d, seq![c]);
        if is_break(c) {
            lemma_heard_none(seq![c]);
            before.lemma_flatten_push(Seq::empty());
            assert(before.flatten() + Seq::<char>::empty() =~= before.flatten());
            assert(heard(s) =~= heard(d));
        } else {
            let front = before.drop_last();
            assert(before =~= front.push(before.last()));
            front.lemma_flatten_push(before.last());
            front.lemma_flatten_push(before.last().push(c));
            assert(front.flatten() + before.last().push(c) =~= before.flatten() + seq![c]);
            lemma_heard_add(before.flatten(), seq![c]);
        }
    }
}

proof fn lemma_byte_len_step(s: Seq<char>)
    requires
        s.len() > 0,
    ensures
        byte_len(s) == utf8_width(s[0]) + byte_len(s.drop_first()),
        1 <= utf8_width(s[0]) <= 4,
{
}

/// A slice reaches `max` bytes unless it takes the whole text, and would not reach them without
/// its last character.
proof fn lemma_first_cut(s: Seq<char>, max: nat)
    requires
        s.len() > 0,
        max > 0,
    ensures
        0 < first_cut(s, max) <= s.len(),
        byte_len(s.take(first_cut(s, max) as int)) < max + 4,
        byte_len(s.take(first_cut(s, max) as int - 1)) < max,
        first_cut(s, max) < s.len() ==> byte_len(s.take(first_cut(s, max) as int)) >= max,
    decreases s.len(),
{
    let w = utf8_width(s[0]);
    let d = s.drop_first();
    let k = first_cut(s, max) as int;
    lemma_byte_len_step(s);
    reveal_with_fuel(first_cut, 2);
    if d.len() == 0 || w >= max {
        assert(k == 1);
        assert(s.take(1).drop_first() =~= Seq::empty());
        lemma_byte_len_step(s.take(1));
        assert(s.take(0) =~= Seq::empty());
    } else {
        let m = (max - w) as nat;
        lemma_first_cut(d, m);
        assert(k == 1 + first_cut(d, m));
        lemma_byte_len_step(s.take(k));
        assert(s.take(k).drop_first() =~= d.take(k - 1));
        lemma_byte_len_step(s.take(k - 1));
        assert(s.take(k - 1).drop_first() =~= d.take(k - 2));
    }
}

proof fn lemma_cut_all(s: Seq<char>, max: nat)
    requires
        s.len() > 0,
        byte_len(s) <= max,
    ensures
        first_cut(s, max) == s.len(),
    decreases s.len(),
{
    let d = s.drop_first();
    lemma_byte_len_step(s);
    reveal_with_fuel(first_cut, 2);
    if d.len() > 0 {
        lemma_byte_len_step(d);
        lemma_cut_all(d, (max - utf8_width(s[0])) as nat);
    }
}

/// A sentence that fits into `max` bytes is one chunk, whole.
pub proof fn law_short_sentence_whole(s: Seq<char>, max: nat)
    requires
        s.len() > 0,
        byte_len(s) <= max,
    ensures
        slices(s, max) == seq![s],
{
    lemma_byte_len_step(s);
    lemma_cut_all(s, max);
    assert(s.take(s.len() as int) =~= s);
    assert(slices(s.skip(s.len() as int), max) =~= Seq::empty());
    assert(slices(s, max) =~= seq![s]);
}

/// A text is not empty, takes at most three bytes more than `max`, and would take fewer than
/// `max` without its last character.
pub open spec fn is_short(s: Seq<char>, max: nat) -> bool {
    s.len() > 0 && byte_len(s) <= max + 3 && byte_len(s.drop_last()) < max
}

/// The slices of a sentence, put together, are the sentence; none is empty or longer than `max`
/// bytes by more than three, and without its last character it takes fewer than `max`; all but
/// the last take at least `max` bytes.
pub proof fn law_slices(s: Seq<char>, max: nat)
    requires
        max > 0,
    ensures
        slices(s, max).flatten() == s,
        forall|i: int|
            0 <= i < slices(s, max).len() ==> is_short(#[trigger] slices(s, max)[i], max),
        forall|i: int|
            0 <= i < slices(s, max).len() - 1 ==> byte_len(#[trigger] slices(s, max)[i]) >= max,
    decreases s.len(),
{
    if s.len() == 0 {
        assert(slices(s, max).flatten() =~= s);
    } else {
        lemma_first_cut(s, max);
        let k = first_cut(s, max) as int;
        let rest = slices(s.skip(k), max);
        law_slices(s.skip(k), max);
        lemma_flatten_concat(seq![s.take(k)], rest);
        seq![s.take(k)].lemma_flatten_singleton();
        assert(s.take(k) + s.skip(k) =~= s);
        let all = slices(s, max);
        assert(all =~= seq![s.take(k)] + rest);
        assert(s.take(k).drop_last() =~= s.take(k - 1));
        assert forall|i: int| 0 <= i < all.len() implies is_short(#[trigger] all[i], max) by {
            if i > 0 {
                assert(all[i] == rest[i - 1]);
            }
        }
        assert forall|i: int| 0 <= i < all.len() - 1 implies byte_len(#[trigger] all[i])
            >= max by {
            if i > 0 {
                assert(all[i] == rest[i - 1]);
            } else {
                assert(rest.len() > 0);
                assert(s.skip(k).len() > 0);
            }
        }
    }
}

/// The slices of texts that are not empty, put together, are the texts, and each is short.
pub(crate) proof fn lemma_all_slices(ss: Seq<Seq<char>>, max: nat)
    requires
        max > 0,
        forall|i: int| 0 <= i < ss.len() ==> (#[trigger] ss[i]).len() > 0 && unbroken(ss[i]),
    ensures
        all_slices(ss, max).flatten() == ss.flatten(),
        ss.len() > 0 ==> all_slices(ss, max).len() > 0,
        forall|i: int|
            0 <= i < all_slices(ss, max).len() ==> is_short(
                #[trigger] all_slices(ss, max)[i],
                max,
            ) && unbroken(all_slices(ss, max)[i]),
    decreases ss.len(),
{
    if ss.len() > 0 {
        let front = ss.drop_last();
        let s = ss.last();
        let a = all_slices(front, max);
        let b = slices(s, max);
        lemma_all_slices(front, max);
        law_slices(s, max);
        lemma_slices_part(s, max);
        assert(ss =~= front.push(s));
        front.lemma_flatten_push(s);
        lemma_flatten_concat(a, b);
        if b.len() == 0 {
            assert(b =~= Seq::empty());
            assert(b.flatten() =~= Seq::<char>::empty());
        }
        let all = all_slices(ss, max);
        assert forall|i: int| 0 <= i < all.len() implies is_short(#[trigger] all[i], max)
            && unbroken(all[i]) by {
            if i < a.len() {
                assert(all[i] == a[i]);
            } else {
                assert(all[i] == b[i - a.len()]);
            }
        }
    }
}

proof fn lemma_slices_part(s: Seq<char>, max: nat)
    requires
        max > 0,
        unbroken(s),
    ensures
        forall|i: int| 0 <= i < slices(s, max).len() ==> unbroken(#[trigger] slices(s, max)[i]),
    decreases s.len(),
{
    if s.len() > 0 {
        lemma_first_cut(s, max);
        let k = first_cut(s, max) as int;
        let rest = slices(s.skip(k), max);
        lemma_slices_part(s.skip(k), max);
        let all = slices(s, max);
        assert forall|i: int| 0 <= i < all.len() implies unbroken(#[trigger] all[i]) by {
            if i > 0 {
                assert(all[i] == rest[i - 1]);
            } else {
                assert(all[i] == s.take(k));
            }
        }
    }
}

/// No stretch holds the end of a sentence.
pub(crate) proof fn lemma_sentences_unbroken(s: Seq<char>)
    ensures
        sentences(s).len() > 0,
        forall|i: int| 0 <= i < sentences(s).len() ==> unbroken(#[trigger] sentences(s)[i]),
    decreases s.len(),
{
    if s.len() > 0 {
        let before = sentences(s.drop_last());
        lemma_sentences_unbroken(s.drop_last());
        assert(unbroken(before.last()));
    }
}

/// What is spoken is not empty and holds no end of a sentence.
pub(crate) proof fn lemma_spoken_unbroken(ss: Seq<Seq<char>>)
    requires
        forall|i: int| 0 <= i < ss.len() ==> unbroken(#[trigger] ss[i]),
    ensures
        forall|i: int|
            0 <= i < spoken(ss).len() ==> (#[trigger] spoken(ss)[i]).len() > 0 && unbroken(
                spoken(ss)[i],
            ),
    decreases ss.len(),
{
    if ss.len() > 0 {
        let front = ss.drop_last();
        let s = ss.last();
        lemma_spoken_unbroken(front);
        assert(unbroken(ss[ss.len() - 1]));
        lemma_trimmed_start_shape(s);
        lemma_trimmed_end_shape(trimmed_start(s));
        assert forall|i: int| 0 <= i < trimmed(s).len() implies !is_break(
            #[trigger] trimmed(s)[i],
        ) by {
            assert(trimmed(s)[i] == s[s.len() - trimmed_start(s).len() + i]);
        }
        let now = spoken(ss);
        assert forall|i: int| 0 <= i < now.len() implies (#[trigger] now[i]).len() > 0 && unbroken(
            now[i],
        ) by {
            if i < spoken(front).len() {
                assert(now[i] == spoken(front)[i]);
            }
        }
    }
}

/// Chunking loses nothing that is heard: the chunks, one after the other, hold the same
/// characters as the text, in the same order, but for white space and the ends of sentences.
pub proof fn law_chunks_keep_text(clean: Seq<char>, max: nat)
    requires
        max > 0,
    ensures
        heard(chunks(clean, max).flatten()) == heard(clean),
{
    lemma_heard_sentences(clean);
    lemma_heard_spoken(sentences(clean));
    lemma_sentences_unbroken(clean);
    lemma_spoken_unbroken(sentences(clean));
    lemma_all_slices(spoken(sentences(clean)), max);
    if chunks(clean, max) != all_slices(spoken(sentences(clean)), max) {
        seq![clean].lemma_flatten_singleton();
    }
}

/// Every text is short, and none holds the end of a sentence.
pub open spec fn all_short(ss: Seq<Seq<char>>, max: nat) -> bool {
    forall|i: int| 0 <= i < ss.len() ==> is_short(#[trigger] ss[i], max) && unbroken(ss[i])
}

/// A chunk is never empty. Where some sentence is spoken, every chunk takes at most three bytes
/// more than `max`, would take fewer than `max` without its last character, and holds no end of a
/// sentence.
pub proof fn law_chunk_shape(clean: Seq<char>, max: nat)
    requires
        max > 0,
    ensures
        forall|i: int|
            0 <= i < chunks(clean, max).len() ==> (#[trigger] chunks(clean, max)[i]).len() > 0,
        spoken(sentences(clean)).len() > 0 ==> all_short(chunks(clean, max), max),
{
    lemma_sentences_unbroken(clean);
    lemma_spoken_unbroken(sentences(clean));
    lemma_all_slices(spoken(sentences(clean)), max);
}

/// There is something to say of every text that is not empty once it is cleaned, and nothing of
/// the empty text.
pub proof fn law_chunks_exist(clean: Seq<char>, max: nat)
    requires
        max > 0,
    ensures
        chunks(clean, max).len() > 0 <==> clean.len() > 0,
{
    if clean.len() == 0 {
        let none = Seq::<char>::empty();
        assert(clean =~= none);
        assert(sentences(clean) =~= seq![none]);
        assert(trimmed(none) =~= none);
        assert(sentences(clean).last() == none);
        reveal_with_fuel(spoken, 2);
        assert(spoken(sentences(clean)) =~= Seq::empty());
        assert(all_slices(spoken(sentences(clean)), max) =~= Seq::empty());
    }
}

proof fn lemma_sentences_split(a: Seq<char>, c: char, b: Seq<char>)
    requires
        is_break(c),
    ensures
        sentences(a + seq![c] + b) == sentences(a) + sentences(b),
        sentences(b).len() > 0,
    decreases b.len(),
{
    let s = a + seq![c] + b;
    if b.len() == 0 {
        assert(s.drop_last() =~= a);
        assert(b =~= Seq::empty());
        assert(sentences(s) =~= sentences(a) + sentences(b));
    } else {
        let d = b.drop_last();
        lemma_sentences_split(a, c, d);
        assert(s.drop_last() =~= a + seq![c] + d);
        let before = sentences(a) + sentences(d);
        assert(before.drop_last() =~= sentences(a) + sentences(d).drop_last());
        assert(before.last() == sentences(d).last());
        assert(sentences(s) =~= sentences(a) + sentences(b));
    }
}

proof fn lemma_spoken_add(x: Seq<Seq<char>>, y: Seq<Seq<char>>)
    ensures
        spoken(x + y) == spoken(x) + spoken(y),
    decreases y.len(),
{
    if y.len() == 0 {
        assert(x + y =~= x);
        assert(spoken(x) + spoken(y) =~= spoken(x));
    } else {
        lemma_spoken_add(x, y.drop_last());
        assert((x + y).drop_last() =~= x + y.drop_last());
        assert(spoken(x + y) =~= spoken(x) + spoken(y));
    }
}

proof fn lemma_all_slices_add(x: Seq<Seq<char>>, y: Seq<Seq<char>>, max: nat)
    ensures
        all_slices(x + y, max) == all_slices(x, max) + all_slices(y, max),
    decreases y.len(),
{
    if y.len() == 0 {
        assert(x + y =~= x);
        assert(all_slices(x, max) + all_slices(y, max) =~= all_slices(x, max));
    } else {
        lemma_all_slices_add(x, y.drop_last(), max);
        assert((x + y).drop_last() =~= x + y.drop_last());
        assert(all_slices(x + y, max) =~= all_slices(x, max) + all_slices(y, max));
    }
}

proof fn lemma_trimmed_push(s: Seq<char>, w: char)
    requires
        is_white(w),
    ensures
        trimmed(s.push(w)) == trimmed(s),
    decreases s.len(),
{
    if s.len() == 0 {
        assert(s.push(w).drop_first() =~= s);
    } else if is_white(s[0]) {
        lemma_trimmed_push(s.drop_first(), w);
        assert(s.push(w).drop_first() =~= s.drop_first().push(w));
    } else {
        assert(s.push(w).drop_last() =~= s);
    }
}

proof fn lemma_spoken_white_end(s: Seq<char>, w: char)
    requires
        is_white(w),
    ensures
        spoken(sentences(s.push(w))) == spoken(sentences(s)),
{
    let before = sentences(s);
    lemma_sentences_unbroken(s);
    assert(s.push(w).drop_last() =~= s);
    if is_break(w) {
        assert(before.push(Seq::empty()).drop_last() =~= before);
        assert(trimmed(Seq::<char>::empty()).len() == 0);
    } else {
        lemma_trimmed_push(before.last(), w);
        assert(before.drop_last().push(before.last().push(w)).drop_last() =~= before.drop_last());
    }
}

proof fn lemma_sentences_first(s: Seq<char>, w: char)
    requires
        !is_break(w),
    ensures
        sentences(s).len() > 0,
        sentences(seq![w] + s) == sentences(s).update(0, seq![w] + sentences(s)[0]),
    decreases s.len(),
{
    let t = seq![w] + s;
    if s.len() == 0 {
        assert(t.drop_last() =~= s);
        assert(s.push(w) =~= seq![w] + s);
        assert(sentences(t) =~= sentences(s).update(0, seq![w] + sentences(s)[0]));
    } else {
        let d = s.drop_last();
        lemma_sentences_first(d, w);
        assert(t.drop_last() =~= seq![w] + d);
        let x = sentences(d);
        if !is_break(s.last()) && x.len() == 1 {
            assert((seq![w] + x[0]).push(s.last()) =~= seq![w] + x[0].push(s.last()));
        }
        assert(sentences(t) =~= sentences(s).update(0, seq![w] + sentences(s)[0]));
    }
}

proof fn lemma_spoken_white_start(s: Seq<char>, w: char)
    requires
        is_white(w),
    ensures
        spoken(sentences(seq![w] + s)) == spoken(sentences(s)),
{
    let none = Seq::<char>::empty();
    if is_break(w) {
        lemma_sentences_split(none, w, s);
        assert(none + seq![w] + s =~= seq![w] + s);
        assert(sentences(none) =~= seq![none]);
        lemma_spoken_add(seq![none], sentences(s));
        assert(spoken(seq![none]) =~= Seq::empty()) by {
            reveal_with_fuel(spoken, 2);
            assert(trimmed(none).len() == 0);
            assert(seq![none].last() == none);
            assert(seq![none].drop_last() =~= Seq::empty());
        }
        assert(spoken(seq![none]) + spoken(sentences(s)) =~= spoken(sentences(s)));
    } else {
        lemma_sentences_first(s, w);
        let x = sentences(s);
        let first = x[0];
        let rest = x.drop_first();
        lemma_spoken_add(seq![first], rest);
        lemma_spoken_add(seq![seq![w] + first], rest);
        assert(seq![first] + rest =~= x);
        assert(seq![seq![w] + first] + rest =~= sentences(seq![w] + s));
        assert((seq![w] + first).drop_first() =~= first);
        assert(trimmed(seq![w] + first) == trimmed(first));
        assert(seq![first].drop_last() =~= Seq::empty());
        assert(seq![seq![w] + first].drop_last() =~= Seq::empty());
        assert(spoken(seq![first]) =~= spoken(seq![seq![w] + first]));
    }
}

proof fn lemma_spoken_trimmed_start(s: Seq<char>)
    ensures
        spoken(sentences(trimmed_start(s))) == spoken(sentences(s)),
    decreases s.len(),
{
    if s.len() > 0 && is_white(s[0]) {
        lemma_spoken_trimmed_start(s.drop_first());
        lemma_spoken_white_start(s.drop_first(), s[0]);
        assert(seq![s[0]] + s.drop_first() =~= s);
    }
}

proof fn lemma_spoken_trimmed_end(s: Seq<char>)
    ensures
        spoken(sentences(trimmed_end(s))) == spoken(sentences(s)),
    decreases s.len(),
{
    if s.len() > 0 && is_white(s.last()) {
        lemma_spoken_trimmed_end(s.drop_last());
        lemma_spoken_white_end(s.drop_last(), s.last());
        assert(s.drop_last().push(s.last()) =~= s);
    }
}

/// There is something to say: some sentence of the cleaned text is not blank.
pub open spec fn says_something(s: Seq<char>) -> bool {
    spoken(sentences(cleaned(s))).len() > 0
}

/// A text with a character that is heard says something.
pub proof fn law_sound_is_said(s: Seq<char>)
    requires
        has_sound(s),
    ensures
        says_something(s),
{
    broadcast use vstd::seq_lib::group_filter_ensures;

    let i = choose|i: int| sound_at(s, i);
    let keep = |c: char| is_kept(c);
    let kept = s.filter(keep);
    let said = spoken(sentences(kept));
    lemma_spoken_trimmed_start(kept);
    lemma_spoken_trimmed_end(trimmed_start(kept));
    assert(keep(s[i]));
    assert(kept.contains(s[i]));
    let j = kept.index_of(s[i]);
    let p = |c: char| !is_white(c) && !is_break(c);
    assert(p(kept[j]));
    assert(heard(kept).contains(kept[j]));
    lemma_heard_sentences(kept);
    lemma_heard_spoken(sentences(kept));
    if said.len() == 0 {
        assert(said =~= Seq::empty());
        assert(said.flatten() =~= Seq::<char>::empty());
        lemma_heard_none(said.flatten());
    }
}

/// A text that says something is not empty once it is cleaned.
pub(crate) proof fn lemma_said_is_some(s: Seq<char>)
    requires
        says_something(s),
    ensures
        cleaned(s).len() > 0,
{
    if cleaned(s).len() == 0 {
        law_chunks_exist(cleaned(s), 1);
        lemma_sentences_unbroken(cleaned(s));
        lemma_spoken_unbroken(sentences(cleaned(s)));
        lemma_all_slices(spoken(sentences(cleaned(s))), 1);
    }
}

/// The slices of two texts with the end of a sentence between them are those of both.
pub(crate) proof fn lemma_joined_slices(a: Seq<char>, c: char, b: Seq<char>, max: nat)
    requires
        is_break(c),
    ensures
        all_slices(spoken(sentences(cleaned(joined_at(a, c, b)))), max) == all_slices(
            spoken(sentences(cleaned(a))),
            max,
        ) + all_slices(spoken(sentences(cleaned(b))), max),
{
    let keep = |x: char| is_kept(x);
    let s = joined_at(a, c, b);
    let fa = a.filter(keep);
    let fb = b.filter(keep);
    Seq::filter_distributes_over_add(a + seq![c], b, keep);
    Seq::filter_distributes_over_add(a, seq![c], keep);
    assert(seq![c].filter(keep) =~= seq![c]) by {
        reveal(Seq::filter);
        assert(seq![c].drop_last() =~= Seq::empty());
        assert(keep(c));
    }
    let fs = s.filter(keep);
    assert(fs == fa + seq![c] + fb);
    lemma_sentences_split(fa, c, fb);
    lemma_spoken_add(sentences(fa), sentences(fb));
    lemma_spoken_trimmed_start(fa);
    lemma_spoken_trimmed_end(trimmed_start(fa));
    lemma_spoken_trimmed_start(fb);
    lemma_spoken_trimmed_end(trimmed_start(fb));
    lemma_spoken_trimmed_start(fs);
    lemma_spoken_trimmed_end(trimmed_start(fs));
    lemma_all_slices_add(spoken(sentences(fa)), spoken(sentences(fb)), max);
}

/// A text that is cut at the end of a sentence has the chunks of its two parts, one after the
/// other, if there is something to say in each of them.
pub proof fn law_break_splits(a: Seq<char>, c: char, b: Seq<char>, max: nat)
    requires
        max > 0,
        is_break(c),
        says_something(a),
        says_something(b),
    ensures
        chunks(cleaned(joined_at(a, c, b)), max) == chunks(cleaned(a), max) + chunks(cleaned(b), max),
{
    lemma_joined_slices(a, c, b, max);
    let (ca, cb) = (cleaned(a), cleaned(b));
    lemma_sentences_unbroken(ca);
    lemma_spoken_unbroken(sentences(ca));
    lemma_all_slices(spoken(sentences(ca)), max);
    lemma_sentences_unbroken(cb);
    lemma_spoken_unbroken(sentences(cb));
    lemma_all_slices(spoken(sentences(cb)), max);
}

}
