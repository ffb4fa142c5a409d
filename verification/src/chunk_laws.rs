//! What the chunks of a text have to satisfy, whatever the text: stated by the codes of its
//! characters.
use crate::speech::{
    all_slices, byte_len, chunks, cleaned, is_break, is_kept, joined_at, sentences,
    slices, sound_at, spoken,
};
use crate::speech_laws::{
    heard, law_break_splits, law_chunk_shape, law_chunks_keep_text, law_short_sentence_whole, law_slices,
    law_sound_is_said,
    lemma_heard_add, lemma_heard_none, lemma_heard_sentences, lemma_heard_spoken,
    lemma_heard_trimmed, lemma_all_slices, lemma_joined_slices, lemma_sentences_unbroken,
    lemma_spoken_unbroken, says_something, unbroken,
};
use crate::text::{is_white, lemma_trimmed_end_shape, lemma_trimmed_start_shape, trimmed, trimmed_start};
use crate::text_laws::law_trim_of_padded;
use vstd::prelude::*;

verus! {

/// The eight codes that end a sentence: the full stops, question marks and exclamation marks of
/// ASCII and of full width, the ideographic full stop, and the newline.
pub open spec fn ends_by_code(c: char) -> bool {
    let n = c as u32;
    ||| n == 0x0a
    ||| n == 0x21
    ||| n == 0x2e
    ||| n == 0x3f
    ||| n == 0x3002
    ||| n == 0xff01
    ||| n == 0xff0e
    ||| n == 0xff1f
}

/// The codes of control.
pub open spec fn controls_by_code(c: char) -> bool {
    let n = c as u32;
    n < 0x20 || 0x7f <= n < 0xa0
}

/// A character that has to be spoken: no white space, no control code, no end of a sentence.
pub open spec fn speaks_by_code(c: char) -> bool {
    let n = c as u32;
    &&& !ends_by_code(c)
    &&& !controls_by_code(c)
    &&& n != 0x20 && n != 0xa0 && n != 0x1680 && n != 0x2028 && n != 0x2029
    &&& n != 0x202f && n != 0x205f && n != 0x3000
    &&& !(0x2000 <= n <= 0x200a)
}

proof fn lemma_codes(c: char)
    ensures
        is_break(c) == ends_by_code(c),
        is_kept(c) == (!controls_by_code(c) || c == '\n'),
        speaks_by_code(c) == (is_kept(c) && !is_white(c) && !is_break(c)),
{
}

/// What is left of a text of its characters that have to be spoken.
pub open spec fn letters(s: Seq<char>) -> Seq<char> {
    s.filter(|c: char| speaks_by_code(c))
}

proof fn lemma_filter_twice(s: Seq<char>, p: spec_fn(char) -> bool, q: spec_fn(char) -> bool)
    requires
        forall|c: char| #[trigger] p(c) ==> q(c),
    ensures
        s.filter(q).filter(p) == s.filter(p),
    decreases s.len(),
{
    reveal(Seq::filter);
    if s.len() > 0 {
        let d = s.drop_last();
        lemma_filter_twice(d, p, q);
        if q(s.last()) {
            assert(d.filter(q).push(s.last()).drop_last() =~= d.filter(q));
        }
    }
}

proof fn lemma_letters_heard(s: Seq<char>)
    ensures
        letters(heard(s)) == letters(s),
{
    let p = |c: char| speaks_by_code(c);
    let q = |c: char| !is_white(c) && !is_break(c);
    assert forall|c: char| #[trigger] p(c) implies q(c) by {}
    lemma_filter_twice(s, p, q);
}

/// Nothing that has to be spoken is lost, doubled or moved: the chunks, one after the other, hold
/// all characters of the text but white space, control codes and the ends of sentences.
pub proof fn law_every_letter_is_spoken(s: Seq<char>, max: nat)
    requires
        max > 0,
    ensures
        letters(chunks(cleaned(s), max).flatten()) == letters(s),
{
    let keep = |c: char| is_kept(c);
    let p = |c: char| speaks_by_code(c);
    let kept = s.filter(keep);
    law_chunks_keep_text(cleaned(s), max);
    lemma_letters_heard(chunks(cleaned(s), max).flatten());
    lemma_letters_heard(cleaned(s));
    lemma_letters_heard(kept);
    lemma_heard_trimmed(kept);
    assert forall|c: char| #[trigger] p(c) implies keep(c) by {}
    lemma_filter_twice(s, p, keep);
}

/// A control code, a newline excepted, makes no difference wherever it stands.
pub proof fn law_control_code_is_dropped(a: Seq<char>, c: char, b: Seq<char>)
    requires
        controls_by_code(c),
        c != '\n',
    ensures
        cleaned(a + seq![c] + b) == cleaned(a + b),
{
    let keep = |x: char| is_kept(x);
    Seq::filter_distributes_over_add(a + seq![c], b, keep);
    Seq::filter_distributes_over_add(a, seq![c], keep);
    Seq::filter_distributes_over_add(a, b, keep);
    assert(seq![c].filter(keep) =~= Seq::empty()) by {
        reveal(Seq::filter);
        let none = Seq::<char>::empty();
        assert(seq![c].drop_last() =~= none);
        assert(seq![c].last() == c);
        assert(none.filter(keep) =~= none);
        assert(!keep(c));
    }
    assert(a.filter(keep) + Seq::<char>::empty() =~= a.filter(keep));
}

/// One sentence: no end of a sentence and no control code stands in it.
pub open spec fn is_one_sentence(s: Seq<char>) -> bool {
    forall|i: int|
        0 <= i < s.len() ==> !ends_by_code(#[trigger] s[i]) && !controls_by_code(s[i])
}

proof fn lemma_all_kept(s: Seq<char>)
    requires
        is_one_sentence(s),
    ensures
        s.filter(|c: char| is_kept(c)) == s,
    decreases s.len(),
{
    reveal(Seq::filter);
    if s.len() > 0 {
        let d = s.drop_last();
        assert forall|i: int| 0 <= i < d.len() implies !ends_by_code(#[trigger] d[i])
            && !controls_by_code(d[i]) by {
            assert(d[i] == s[i]);
        }
        lemma_all_kept(d);
        assert(!controls_by_code(s[s.len() - 1]));
        assert(d.push(s.last()) =~= s);
    }
}

proof fn lemma_one_sentence(s: Seq<char>)
    requires
        unbroken(s),
    ensures
        sentences(s) == seq![s],
    decreases s.len(),
{
    if s.len() > 0 {
        let d = s.drop_last();
        assert forall|i: int| 0 <= i < d.len() implies !is_break(#[trigger] d[i]) by {
            assert(d[i] == s[i]);
        }
        lemma_one_sentence(d);
        assert(!is_break(s[s.len() - 1]));
        assert(seq![d].last() == d);
        assert(d.push(s.last()) =~= s);
        assert(seq![d].drop_last().push(s) =~= seq![s]);
    }
}

proof fn lemma_sentence_slices(s: Seq<char>, max: nat)
    requires
        is_one_sentence(s),
        trimmed(s).len() > 0,
    ensures
        all_slices(spoken(sentences(cleaned(s))), max) == slices(trimmed(s), max),
        unbroken(trimmed(s)),
{
    let t = trimmed(s);
    lemma_all_kept(s);
    lemma_trimmed_start_shape(s);
    lemma_trimmed_end_shape(trimmed_start(s));
    let k = s.len() - trimmed_start(s).len();
    assert forall|i: int| 0 <= i < t.len() implies !is_break(#[trigger] t[i]) by {
        assert(t[i] == trimmed_start(s)[i]);
        assert(t[i] == s[k + i]);
        assert(!ends_by_code(s[k + i]));
    }
    lemma_one_sentence(t);
    assert(t[0] == trimmed_start(s)[0]);
    let none = Seq::<char>::empty();
    law_trim_of_padded(none, t, none);
    assert(none + t + none =~= t);
    assert(seq![t].last() == t);
    assert(seq![t].drop_last() =~= Seq::empty());
    assert(spoken(seq![t]) =~= seq![t]) by {
        reveal_with_fuel(spoken, 2);
    }
    assert(all_slices(seq![t], max) =~= slices(t, max)) by {
        reveal_with_fuel(all_slices, 2);
    }
}

/// A sentence that fits into `max` bytes once it is trimmed is one chunk: the trimmed sentence
/// itself, with all that stands in it.
pub proof fn law_short_sentence_is_one_chunk(s: Seq<char>, max: nat)
    requires
        is_one_sentence(s),
        trimmed(s).len() > 0,
        byte_len(trimmed(s)) <= max,
    ensures
        chunks(cleaned(s), max) == seq![trimmed(s)],
{
    lemma_sentence_slices(s, max);
    law_short_sentence_whole(trimmed(s), max);
}

/// The chunks of a sentence, put together, are the trimmed sentence, with all that stands in it.
pub proof fn law_sentence_is_kept_whole(s: Seq<char>, max: nat)
    requires
        max > 0,
        is_one_sentence(s),
        trimmed(s).len() > 0,
    ensures
        chunks(cleaned(s), max).flatten() == trimmed(s),
{
    lemma_sentence_slices(s, max);
    law_slices(trimmed(s), max);
    if slices(trimmed(s), max).len() == 0 {
        assert(slices(trimmed(s), max) =~= Seq::empty());
        assert(slices(trimmed(s), max).flatten() =~= Seq::<char>::empty());
    }
}

/// No end of a sentence is spoken where there is something else to say.
pub proof fn law_ends_are_not_spoken(s: Seq<char>, max: nat, i: int, j: int)
    requires
        max > 0,
        says_something(s),
        0 <= i < chunks(cleaned(s), max).len(),
        0 <= j < chunks(cleaned(s), max)[i].len(),
    ensures
        !ends_by_code(chunks(cleaned(s), max)[i][j]),
{
    law_chunk_shape(cleaned(s), max);
    let c = chunks(cleaned(s), max)[i];
    assert(unbroken(c));
    lemma_codes(c[j]);
    assert(!is_break(c[j]));
}

proof fn lemma_spoken_heard(ss: Seq<Seq<char>>)
    requires
        forall|i: int| 0 <= i < ss.len() ==> unbroken(#[trigger] ss[i]),
    ensures
        spoken(ss).len() > 0 ==> heard(spoken(ss).flatten()).len() > 0,
    decreases ss.len(),
{
    if ss.len() > 0 {
        let front = ss.drop_last();
        let s = ss.last();
        let t = trimmed(s);
        assert forall|i: int| 0 <= i < front.len() implies unbroken(#[trigger] front[i]) by {
            assert(front[i] == ss[i]);
        }
        lemma_spoken_heard(front);
        if t.len() > 0 {
            lemma_trimmed_start_shape(s);
            lemma_trimmed_end_shape(trimmed_start(s));
            let k = s.len() - trimmed_start(s).len();
            assert(unbroken(ss[ss.len() - 1]));
            assert(t[0] == trimmed_start(s)[0]);
            assert(t[0] == s[k]);
            let rest = t.drop_first();
            assert(t =~= seq![t[0]] + rest);
            lemma_heard_add(seq![t[0]], rest);
            assert(heard(seq![t[0]]) =~= seq![t[0]]) by {
                reveal(Seq::filter);
                assert(seq![t[0]].drop_last() =~= Seq::empty());
                assert(!is_break(s[k]));
            }
            spoken(front).lemma_flatten_push(t);
            lemma_heard_add(spoken(front).flatten(), t);
        }
    }
}

proof fn lemma_kept_marks(s: Seq<char>)
    requires
        forall|i: int| 0 <= i < s.len() ==> !speaks_by_code(#[trigger] s[i]),
    ensures
        ({
            let kept = s.filter(|c: char| is_kept(c));
            forall|i: int|
                0 <= i < kept.len() ==> is_white(#[trigger] kept[i]) || is_break(kept[i])
        }),
    decreases s.len(),
{
    reveal(Seq::filter);
    if s.len() > 0 {
        let d = s.drop_last();
        assert forall|i: int| 0 <= i < d.len() implies !speaks_by_code(#[trigger] d[i]) by {
            assert(d[i] == s[i]);
        }
        lemma_kept_marks(d);
        assert(!speaks_by_code(s[s.len() - 1]));
        lemma_codes(s.last());
        let keep = |c: char| is_kept(c);
        let (kept, before) = (s.filter(keep), d.filter(keep));
        assert(kept == (if is_kept(s.last()) {
            before.push(s.last())
        } else {
            before
        }));
        assert forall|i: int| 0 <= i < kept.len() implies is_white(#[trigger] kept[i]) || is_break(
            kept[i],
        ) by {
            if i < before.len() {
                assert(kept[i] == before[i]);
            }
        }
    }
}

/// A text of marks and white space alone is one chunk as a whole, once it is cleaned, or none if
/// nothing is left of it.
pub proof fn law_marks_are_one_chunk(s: Seq<char>, max: nat)
    requires
        forall|i: int| 0 <= i < s.len() ==> !speaks_by_code(#[trigger] s[i]),
    ensures
        cleaned(s).len() > 0 ==> chunks(cleaned(s), max) == seq![cleaned(s)],
        cleaned(s).len() == 0 ==> chunks(cleaned(s), max).len() == 0,
{
    lemma_marks_say_nothing(s);
    assert(all_slices(spoken(sentences(cleaned(s))), max) =~= Seq::empty());
}

proof fn lemma_marks_say_nothing(s: Seq<char>)
    requires
        forall|i: int| 0 <= i < s.len() ==> !speaks_by_code(#[trigger] s[i]),
    ensures
        !says_something(s),
{
    let keep = |c: char| is_kept(c);
    let kept = s.filter(keep);
    let t = cleaned(s);
    lemma_heard_trimmed(kept);
    lemma_kept_marks(s);
    lemma_heard_none(kept);
    lemma_heard_sentences(t);
    lemma_heard_spoken(sentences(t));
    lemma_sentences_unbroken(t);
    lemma_spoken_heard(sentences(t));
    assert(spoken(sentences(t)).len() == 0);
}

proof fn lemma_letter_is_said(s: Seq<char>, i: int)
    requires
        0 <= i < s.len(),
        speaks_by_code(s[i]),
    ensures
        says_something(s),
{
    lemma_codes(s[i]);
    assert(sound_at(s, i));
    law_sound_is_said(s);
}

/// A text is cut at the end of a sentence: it has the chunks of what stands before, followed by
/// the chunks of what stands behind, where each has something that has to be spoken.
pub proof fn law_text_is_cut_at_its_marks(
    a: Seq<char>,
    c: char,
    b: Seq<char>,
    max: nat,
    i: int,
    j: int,
)
    requires
        max > 0,
        ends_by_code(c),
        0 <= i < a.len(),
        speaks_by_code(a[i]),
        0 <= j < b.len(),
        speaks_by_code(b[j]),
    ensures
        chunks(cleaned(a + seq![c] + b), max) == chunks(cleaned(a), max) + chunks(cleaned(b), max),
{
    lemma_letter_is_said(a, i);
    lemma_letter_is_said(b, j);
    lemma_codes(c);
    law_break_splits(a, c, b, max);
    assert(joined_at(a, c, b) == a + seq![c] + b);
}

/// What stands before or behind the end of a sentence and has nothing that has to be spoken makes
/// no difference.
pub proof fn law_marks_round_a_text_are_dropped(
    a: Seq<char>,
    c: char,
    b: Seq<char>,
    max: nat,
    i: int,
)
    requires
        max > 0,
        ends_by_code(c),
        0 <= i < a.len(),
        speaks_by_code(a[i]),
        forall|k: int| 0 <= k < b.len() ==> !speaks_by_code(#[trigger] b[k]),
    ensures
        chunks(cleaned(a + seq![c] + b), max) == chunks(cleaned(a), max),
        chunks(cleaned(b + seq![c] + a), max) == chunks(cleaned(a), max),
{
    lemma_letter_is_said(a, i);
    lemma_marks_say_nothing(b);
    lemma_codes(c);
    lemma_joined_slices(a, c, b, max);
    lemma_joined_slices(b, c, a, max);
    let none = all_slices(spoken(sentences(cleaned(b))), max);
    let some = all_slices(spoken(sentences(cleaned(a))), max);
    assert(none =~= Seq::empty());
    assert(some + none =~= some);
    assert(none + some =~= some);
    lemma_some_slices(a, max);
}

proof fn lemma_some_slices(s: Seq<char>, max: nat)
    requires
        max > 0,
        says_something(s),
    ensures
        all_slices(spoken(sentences(cleaned(s))), max).len() > 0,
{
    lemma_sentences_unbroken(cleaned(s));
    lemma_spoken_unbroken(sentences(cleaned(s)));
    lemma_all_slices(spoken(sentences(cleaned(s))), max);
}

}
