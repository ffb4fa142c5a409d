//! What holds of every text: what trimming, searching, lower case and numbers have to satisfy.
use crate::query::pair_texts;
use crate::text::{
    all_digits, ascii_lower, digits_value, is_blank, is_digit, is_white, lemma_trimmed_end_shape,
    lemma_trimmed_start_shape, occurs_at, occurs_in, opt_text, texts, trimmed, trimmed_start,
    unsigned_digits, unsigned_value, without_end_slashes,
};
use crate::tts::opt_texts;
use vstd::prelude::*;

verus! {

/// `core` stands in `s` at position `k`, and what stands before and behind it is white space.
pub open spec fn is_core_at(s: Seq<char>, core: Seq<char>, k: int) -> bool {
    &&& 0 <= k <= k + core.len() <= s.len()
    &&& s.subrange(k, k + core.len()) == core
    &&& forall|i: int| 0 <= i < k ==> is_white(#[trigger] s[i])
    &&& forall|i: int| k + core.len() <= i < s.len() ==> is_white(#[trigger] s[i])
}

/// Trimming takes white space off the ends and nothing else: what is left stands in the text
/// with nothing but white space round it, and neither begins nor ends with any.
pub proof fn law_trim_leaves_the_core(s: Seq<char>)
    ensures
        exists|k: int| is_core_at(s, trimmed(s), k),
        trimmed(s).len() > 0 ==> !is_white(trimmed(s)[0]) && !is_white(trimmed(s).last()),
{
    let a = trimmed_start(s);
    let t = trimmed(s);
    lemma_trimmed_start_shape(s);
    lemma_trimmed_end_shape(a);
    let k = s.len() - a.len();
    assert(s.subrange(k, k + t.len()) =~= t);
    assert forall|i: int| k + t.len() <= i < s.len() implies is_white(#[trigger] s[i]) by {
        assert(a[i - k] == s[i]);
    }
    assert(is_core_at(s, t, k));
    if t.len() > 0 {
        assert(t[0] == a[0]);
    }
}

/// A text that neither begins nor ends with white space is left as it is, whatever white space
/// stands round it.
pub proof fn law_trim_of_padded(a: Seq<char>, core: Seq<char>, b: Seq<char>)
    requires
        is_blank(a),
        is_blank(b),
        core.len() > 0,
        !is_white(core[0]),
        !is_white(core.last()),
    ensures
        trimmed(a + core + b) == core,
{
    let s = a + core + b;
    let t = trimmed(s);
    law_trim_leaves_the_core(s);
    let k = choose|k: int| is_core_at(s, t, k);
    assert(s[a.len() as int] == core[0]);
    assert(s[a.len() + core.len() - 1] == core.last());
    assert(k <= a.len());
    assert(k + t.len() >= a.len() + core.len());
    if k < a.len() {
        assert(t[0] == s.subrange(k, k + t.len())[0]);
        assert(s[k] == a[k]);
        assert(is_white(a[k]));
    }
    if k + t.len() > a.len() + core.len() {
        let last = k + t.len() - 1;
        assert(t.last() == s.subrange(k, k + t.len())[t.len() - 1]);
        assert(s[last] == b[last - a.len() - core.len()]);
        assert(is_white(b[last - a.len() - core.len()]));
    }
    assert(core =~= s.subrange(k, k + t.len()));
}

/// Taking the slashes off the end takes all of them, and nothing else.
pub proof fn law_end_slashes(s: Seq<char>)
    ensures
        without_end_slashes(s).is_prefix_of(s),
        without_end_slashes(s).len() > 0 ==> without_end_slashes(s).last() != '/',
        forall|i: int| without_end_slashes(s).len() <= i < s.len() ==> #[trigger] s[i] == '/',
    decreases s.len(),
{
    if s.len() > 0 && s.last() == '/' {
        let d = s.drop_last();
        law_end_slashes(d);
        assert forall|i: int| without_end_slashes(s).len() <= i < s.len() implies #[trigger] s[i]
            == '/' by {
            if i < s.len() - 1 {
                assert(d[i] == s[i]);
            }
        }
    }
}

/// In lower case every capital letter of ASCII has become the small one, and every other
/// character has stayed.
pub proof fn law_ascii_lower(s: Seq<char>, i: int)
    requires
        0 <= i < s.len(),
    ensures
        ascii_lower(s).len() == s.len(),
        0x41 <= s[i] as u32 <= 0x5a ==> ascii_lower(s)[i] as u32 == s[i] as u32 + 0x20,
        !(0x41 <= s[i] as u32 <= 0x5a) ==> ascii_lower(s)[i] == s[i],
{
}

/// Lower case keeps what is in lower case, and texts that differ in case alone become the same.
pub proof fn law_ascii_lower_settles(s: Seq<char>)
    ensures
        ascii_lower(ascii_lower(s)) == ascii_lower(s),
{
    assert forall|i: int| 0 <= i < s.len() implies ascii_lower(ascii_lower(s))[i] == ascii_lower(
        s,
    )[i] by {
        law_ascii_lower(s, i);
        law_ascii_lower(ascii_lower(s), i);
    }
    assert(ascii_lower(ascii_lower(s)) =~= ascii_lower(s));
}

/// A text stands in every text that it was put into, at any place.
pub proof fn law_occurs_where_put(a: Seq<char>, needle: Seq<char>, b: Seq<char>)
    ensures
        occurs_in(a + needle + b, needle),
{
    let s = a + needle + b;
    let i = a.len() as int;
    assert(s.subrange(i, i + needle.len()) =~= needle);
    assert(occurs_at(s, needle, i));
}

/// A text with a letter that another does not have does not stand in it.
pub proof fn law_occurs_needs_its_letters(s: Seq<char>, needle: Seq<char>, k: int)
    requires
        0 <= k < needle.len(),
        forall|i: int| 0 <= i < s.len() ==> #[trigger] s[i] != needle[k],
    ensures
        !occurs_in(s, needle),
{
    if occurs_in(s, needle) {
        let i = choose|i: int| occurs_at(s, needle, i);
        assert(s.subrange(i, i + needle.len())[k] == s[i + k]);
    }
}

proof fn lemma_zero_before(d: Seq<char>)
    ensures
        digits_value(seq!['0'] + d) == digits_value(d),
    decreases d.len(),
{
    let z = seq!['0'] + d;
    if d.len() == 0 {
        assert(z.drop_last() =~= Seq::empty());
        assert(digits_value(Seq::<char>::empty()) == 0);
        assert(d =~= Seq::empty());
    } else {
        lemma_zero_before(d.drop_last());
        assert(z.drop_last() =~= seq!['0'] + d.drop_last());
    }
}

/// Zeros before a number, or a plus sign before it, make no difference to it.
pub proof fn law_number_prefixes(d: Seq<char>, max: nat)
    requires
        d.len() > 0,
        all_digits(d),
    ensures
        unsigned_value(seq!['0'] + d, max) == unsigned_value(d, max),
        unsigned_value(seq!['+'] + d, max) == unsigned_value(d, max),
{
    let z = seq!['0'] + d;
    lemma_zero_before(d);
    assert(is_digit(d[0]));
    assert forall|i: int| 0 <= i < z.len() implies is_digit(#[trigger] z[i]) by {
        if i > 0 {
            assert(z[i] == d[i - 1]);
        }
    }
    assert((seq!['+'] + d).drop_first() =~= d);
}

/// One more digit makes ten times the number and the digit of it.
pub proof fn law_number_grows(d: Seq<char>, c: char, n: nat, max: nat)
    requires
        unsigned_value(d, max) == Some(n),
        0x30 <= c as u32 <= 0x39,
    ensures
        10 * n + (c as u32 - 0x30) <= max ==> unsigned_value(d.push(c), max) == Some(
            (10 * n + (c as u32 - 0x30)) as nat,
        ),
        10 * n + (c as u32 - 0x30) > max ==> unsigned_value(d.push(c), max) is None,
{
    let u = unsigned_digits(d);
    let v = unsigned_digits(d.push(c));
    assert(v =~= u.push(c));
    assert(v.drop_last() =~= u);
    assert forall|i: int| 0 <= i < v.len() implies is_digit(#[trigger] v[i]) by {
        if i < u.len() {
            assert(v[i] == u[i]);
        }
    }
}

/// A single digit is a number, and a text with anything but digits behind its first character is
/// none.
pub proof fn law_number_digits(s: Seq<char>, i: int, max: nat)
    requires
        0 <= i < s.len(),
        max >= 9,
    ensures
        s.len() == 1 && '0' <= s[0] <= '9' ==> unsigned_value(s, max) == Some(
            (s[0] as u32 - 0x30) as nat,
        ),
        i > 0 && !('0' <= s[i] <= '9') ==> unsigned_value(s, max) is None,
        unsigned_value(Seq::empty(), max) is None,
{
    if s.len() == 1 && '0' <= s[0] <= '9' {
        assert(s.drop_last() =~= Seq::empty());
        assert(digits_value(Seq::<char>::empty()) == 0);
        assert(all_digits(s));
    }
    if i > 0 && !('0' <= s[i] <= '9') {
        let d = unsigned_digits(s);
        let j = i - (s.len() - d.len());
        assert(d[j] == s[i]);
        assert(!is_digit(d[j]));
    }
}

/// The texts of a list of strings are those of the strings, one for one.
pub proof fn law_texts_one_for_one(
    v: Seq<String>,
    o: Seq<Option<String>>,
    ps: Seq<(String, String)>,
    i: int,
)
    ensures
        texts(v).len() == v.len(),
        0 <= i < v.len() ==> texts(v)[i] == v[i]@,
        opt_texts(o).len() == o.len(),
        0 <= i < o.len() ==> (match o[i] {
            Some(s) => opt_texts(o)[i] == Some(s@) && opt_text(o[i]) == Some(s@),
            None => opt_texts(o)[i] is None && opt_text(o[i]) is None,
        }),
        pair_texts(ps).len() == ps.len(),
        0 <= i < ps.len() ==> pair_texts(ps)[i] == (ps[i].0@, ps[i].1@),
{
}

}
