//! JSON objects without nesting, as text: strings, numbers and truth values under keys.
use crate::query::{hex_char, is_hex};
use crate::text::{all_digits, chars_of, decimal, is_digit, lemma_decimal_digits};
use vstd::prelude::*;
use vstd::string::*;

verus! {

/// A character inside a JSON string: a double quote and a backslash have a backslash before
/// them, and a code below 0x20 is written by its number.
pub open spec fn escaped_char(c: char) -> Seq<char> {
    if c == '"' {
        seq!['\\', '"']
    } else if c == '\\' {
        seq!['\\', '\\']
    } else if (c as u32) < 0x20 {
        seq!['\\', 'u', '0', '0', hex_char((c as u32 / 16) as u8), hex_char((c as u32 % 16) as u8)]
    } else {
        seq![c]
    }
}

/// A text inside a JSON string.
pub open spec fn escaped(s: Seq<char>) -> Seq<char>
    decreases s.len(),
{
    if s.len() == 0 {
        s
    } else {
        escaped(s.drop_last()) + escaped_char(s.last())
    }
}

fn hex_digit(d: u8) -> (r: char)
    requires
        d < 16,
    ensures
        r == hex_char(d),
{
    if d < 10 {
        (48 + d) as char
    } else {
        (55 + d) as char
    }
}

fn put_escaped(out: &mut String, c: char)
    ensures
        final(out)@ == old(out)@ + escaped_char(c),
{
    let n: u32 = c as u32;
    if c == '"' {
        out.push('\\');
        out.push('"');
    } else if c == '\\' {
        out.push('\\');
        out.push('\\');
    } else if n < 0x20 {
        out.push('\\');
        out.push('u');
        out.push('0');
        out.push('0');
        out.push(hex_digit((n / 16) as u8));
        out.push(hex_digit((n % 16) as u8));
    } else {
        out.push(c);
    }
    assert(out@ =~= old(out)@ + escaped_char(c));
}

/// A text as it stands inside a JSON string.
pub fn escape_json(s: &str) -> (r: String)
    ensures
        r@ == escaped(s@),
{
    let v = chars_of(s);
    let mut out = String::new();
    let mut i: usize = 0;
    while i < v.len()
        invariant
            i <= v@.len(),
            v@ == s@,
            out@ == escaped(v@.take(i as int)),
        decreases v@.len() - i,
    {
        proof {
            assert(v@.take(i + 1).drop_last() =~= v@.take(i as int));
            assert(v@.take(i + 1).last() == v@[i as int]);
        }
        put_escaped(&mut out, v[i]);
        i = i + 1;
    }
    assert(v@.take(v@.len() as int) =~= v@);
    out
}

/// The number that a hexadecimal digit stands for.
pub open spec fn hex_value(c: char) -> nat {
    if c <= '9' {
        (c as u32 - 48) as nat
    } else if c <= 'F' {
        (c as u32 - 55) as nat
    } else {
        (c as u32 - 87) as nat
    }
}

/// `c` before what was read of the rest, if that could be read.
pub open spec fn read_before(c: char, rest: Option<Seq<char>>) -> Option<Seq<char>> {
    match rest {
        Some(t) => Some(seq![c] + t),
        None => None,
    }
}

/// The text that the inside of a JSON string stands for, of the escapes that [`escaped`] writes.
/// `None` if there is another escape, a bare double quote, or a bare code below 0x20.
pub open spec fn unescaped(s: Seq<char>) -> Option<Seq<char>>
    decreases s.len(),
{
    if s.len() == 0 {
        Some(s)
    } else if s[0] == '\\' {
        if s.len() >= 2 && (s[1] == '"' || s[1] == '\\') {
            read_before(s[1], unescaped(s.skip(2)))
        } else if s.len() >= 6 && s[1] == 'u' && s[2] == '0' && s[3] == '0' && is_hex(s[4])
            && is_hex(s[5]) {
            read_before(
                (16 * hex_value(s[4]) + hex_value(s[5])) as char,
                unescaped(s.skip(6)),
            )
        } else {
            None
        }
    } else if s[0] == '"' || (s[0] as u32) < 0x20 {
        None
    } else {
        read_before(s[0], unescaped(s.skip(1)))
    }
}

proof fn lemma_escaped_first(s: Seq<char>)
    requires
        s.len() > 0,
    ensures
        escaped(s) == escaped_char(s[0]) + escaped(s.drop_first()),
    decreases s.len(),
{
    let d = s.drop_first();
    if s.len() == 1 {
        assert(s.drop_last() =~= Seq::empty());
        assert(d =~= Seq::empty());
        assert(escaped(s) =~= escaped_char(s[0]) + escaped(d));
    } else {
        lemma_escaped_first(s.drop_last());
        assert(s.drop_last().drop_first() =~= d.drop_last());
        assert(escaped(s) =~= escaped_char(s[0]) + escaped(d));
    }
}

proof fn lemma_unescaped_char(c: char, rest: Seq<char>)
    ensures
        unescaped(escaped_char(c) + rest) == read_before(c, unescaped(rest)),
{
    let e = escaped_char(c);
    let s = e + rest;
    assert(s.skip(e.len() as int) =~= rest);
    if c != '"' && c != '\\' && (c as u32) < 0x20 {
        let n = c as u32;
        assert(s[4] == hex_char((n / 16) as u8));
        assert(s[5] == hex_char((n % 16) as u8));
        assert(16 * hex_value(s[4]) + hex_value(s[5]) == n);
        assert(n as char == c);
    }
}

/// Reading an escaped text gives the text back.
pub proof fn law_escape_round_trip(s: Seq<char>)
    ensures
        unescaped(escaped(s)) == Some(s),
    decreases s.len(),
{
    if s.len() > 0 {
        let d = s.drop_first();
        law_escape_round_trip(d);
        lemma_escaped_first(s);
        lemma_unescaped_char(s[0], escaped(d));
        assert(seq![s[0]] + d =~= s);
    }
}

/// No code below 0x20, and so no end of a line.
pub open spec fn is_one_line(s: Seq<char>) -> bool {
    forall|i: int| 0 <= i < s.len() ==> (#[trigger] s[i]) as u32 >= 0x20
}

proof fn lemma_one_line_add(a: Seq<char>, b: Seq<char>)
    requires
        is_one_line(a),
        is_one_line(b),
    ensures
        is_one_line(a + b),
{
    assert forall|i: int| 0 <= i < (a + b).len() implies (#[trigger] (a + b)[i]) as u32 >= 0x20 by {
        if i < a.len() {
            assert((a + b)[i] == a[i]);
        } else {
            assert((a + b)[i] == b[i - a.len()]);
        }
    }
}

proof fn lemma_escaped_one_line(s: Seq<char>)
    ensures
        is_one_line(escaped(s)),
    decreases s.len(),
{
    if s.len() > 0 {
        lemma_escaped_one_line(s.drop_last());
        lemma_one_line_add(escaped(s.drop_last()), escaped_char(s.last()));
    }
}

/// A character that stands for itself inside a JSON string.
pub open spec fn is_bare(c: char) -> bool {
    c != '"' && c != '\\' && c as u32 >= 0x20
}

/// A text without characters that need an escape stands for itself.
pub proof fn law_bare_is_kept(s: Seq<char>)
    requires
        forall|i: int| 0 <= i < s.len() ==> is_bare(#[trigger] s[i]),
    ensures
        escaped(s) == s,
    decreases s.len(),
{
    if s.len() > 0 {
        let d = s.drop_last();
        assert forall|i: int| 0 <= i < d.len() implies is_bare(#[trigger] d[i]) by {
            assert(d[i] == s[i]);
        }
        law_bare_is_kept(d);
        assert(is_bare(s[s.len() - 1]));
        assert(d + seq![s.last()] =~= s);
    }
}

/// The most characters of a number.
pub const NUMBER_LEN: usize = 64;

/// A number without sign and fraction: digits, with no zero before others.
pub open spec fn is_whole(s: Seq<char>) -> bool {
    s.len() > 0 && all_digits(s) && (s[0] == '0' ==> s.len() == 1)
}

/// A number with a fraction, of which the point stands at position `k`.
pub open spec fn has_point_at(s: Seq<char>, k: int) -> bool {
    0 < k < s.len() - 1 && s[k] == '.' && is_whole(s.take(k)) && all_digits(s.skip(k + 1))
}

/// A number without sign.
pub open spec fn is_unsigned_number(s: Seq<char>) -> bool {
    is_whole(s) || exists|k: int| has_point_at(s, k)
}

/// A number of JSON without an exponent, of at most [`NUMBER_LEN`] characters.
pub open spec fn is_number(s: Seq<char>) -> bool {
    &&& s.len() <= NUMBER_LEN
    &&& is_unsigned_number(
        if s.len() > 0 && s[0] == '-' {
            s.drop_first()
        } else {
            s
        },
    )
}

proof fn lemma_digits_one_line(s: Seq<char>)
    requires
        all_digits(s),
    ensures
        is_one_line(s),
{
    assert forall|i: int| 0 <= i < s.len() implies (#[trigger] s[i]) as u32 >= 0x20 by {
        assert(is_digit(s[i]));
    }
}

proof fn lemma_unsigned_one_line(s: Seq<char>)
    requires
        is_unsigned_number(s),
    ensures
        is_one_line(s),
{
    if is_whole(s) {
        lemma_digits_one_line(s);
    } else {
        let k = choose|k: int| has_point_at(s, k);
        lemma_digits_one_line(s.take(k));
        lemma_digits_one_line(s.skip(k + 1));
        lemma_one_line_add(s.take(k), seq!['.']);
        lemma_one_line_add(s.take(k) + seq!['.'], s.skip(k + 1));
        assert(s.take(k) + seq!['.'] + s.skip(k + 1) =~= s);
    }
}

proof fn lemma_number_one_line(s: Seq<char>)
    requires
        is_number(s),
    ensures
        is_one_line(s),
{
    if s.len() > 0 && s[0] == '-' {
        lemma_unsigned_one_line(s.drop_first());
        lemma_one_line_add(seq!['-'], s.drop_first());
        assert(seq!['-'] + s.drop_first() =~= s);
    } else {
        lemma_unsigned_one_line(s);
    }
}

/// Ten to the power of `k`.
spec fn ten_to(k: nat) -> nat
    decreases k,
{
    if k == 0 {
        1
    } else {
        10 * ten_to((k - 1) as nat)
    }
}

proof fn lemma_decimal_len(n: nat, k: nat)
    requires
        k > 0,
        n < ten_to(k),
    ensures
        decimal(n).len() <= k,
        decimal(n)[0] == '0' ==> n == 0,
    decreases k,
{
    if n >= 10 {
        assert(k > 1) by {
            reveal_with_fuel(ten_to, 2);
        }
        lemma_decimal_len(n / 10, (k - 1) as nat);
        lemma_decimal_digits(n / 10);
        assert(decimal(n)[0] == decimal(n / 10)[0]);
    }
}

/// The decimal notation of a number is a number of JSON.
pub proof fn law_decimal_is_number(n: nat)
    requires
        n <= u64::MAX,
    ensures
        is_number(decimal(n)),
{
    assert(n < ten_to(20)) by {
        reveal_with_fuel(ten_to, 21);
    }
    lemma_decimal_len(n, 20);
    lemma_decimal_digits(n);
    assert(is_digit(decimal(n)[0]));
}

/// What stands under a key.
pub enum Member {
    Text(Seq<char>),
    /// A number, as it is written.
    Number(Seq<char>),
    Flag(bool),
}

/// What stands under a key, as text.
pub open spec fn member_text(m: Member) -> Seq<char> {
    match m {
        Member::Text(t) => seq!['"'] + escaped(t) + seq!['"'],
        Member::Number(n) => n,
        Member::Flag(b) => if b {
            "true"@
        } else {
            "false"@
        },
    }
}

/// A key with what stands under it, as text.
pub open spec fn pair_text(key: Seq<char>, m: Member) -> Seq<char> {
    seq!['"'] + escaped(key) + seq!['"', ':'] + member_text(m)
}

/// The members of an object, as text.
pub open spec fn members_text(ms: Seq<(Seq<char>, Member)>) -> Seq<char>
    decreases ms.len(),
{
    if ms.len() == 0 {
        Seq::empty()
    } else {
        let pair = pair_text(ms.last().0, ms.last().1);
        if ms.len() == 1 {
            pair
        } else {
            members_text(ms.drop_last()) + seq![','] + pair
        }
    }
}

/// An object, as text.
pub open spec fn flat_text(ms: Seq<(Seq<char>, Member)>) -> Seq<char> {
    seq!['{'] + members_text(ms) + seq!['}']
}

/// No key occurs twice, and every number is one.
pub open spec fn is_flat(ms: Seq<(Seq<char>, Member)>) -> bool {
    &&& forall|i: int, j: int| 0 <= i < j < ms.len() ==> (#[trigger] ms[i]).0 != (#[trigger] ms[j]).0
    &&& forall|i: int|
        0 <= i < ms.len() ==> ((#[trigger] ms[i]).1 matches Member::Number(n) ==> is_number(n))
}

/// The string under `key`, if there is one.
pub open spec fn flat_string(ms: Seq<(Seq<char>, Member)>, key: Seq<char>) -> Option<Seq<char>>
    decreases ms.len(),
{
    if ms.len() == 0 {
        None
    } else if ms.last().0 == key {
        match ms.last().1 {
            Member::Text(t) => Some(t),
            _ => None,
        }
    } else {
        flat_string(ms.drop_last(), key)
    }
}

proof fn lemma_members_one_line(ms: Seq<(Seq<char>, Member)>)
    requires
        is_flat(ms),
    ensures
        is_one_line(members_text(ms)),
    decreases ms.len(),
{
    if ms.len() > 0 {
        let front = ms.drop_last();
        let (key, m) = ms.last();
        assert(ms[ms.len() - 1] == (key, m));
        assert forall|i: int, j: int| 0 <= i < j < front.len() implies (#[trigger] front[i]).0 != (
        #[trigger] front[j]).0 by {
            assert(ms[i].0 != ms[j].0);
        }
        assert forall|i: int| 0 <= i < front.len() implies ((
        #[trigger] front[i]).1 matches Member::Number(n) ==> is_number(n)) by {
            assert(front[i] == ms[i]);
        }
        lemma_members_one_line(front);
        lemma_escaped_one_line(key);
        lemma_one_line_add(seq!['"'], escaped(key));
        lemma_one_line_add(seq!['"'] + escaped(key), seq!['"', ':']);
        match m {
            Member::Text(t) => {
                lemma_escaped_one_line(t);
                lemma_one_line_add(seq!['"'], escaped(t));
                lemma_one_line_add(seq!['"'] + escaped(t), seq!['"']);
            },
            Member::Number(n) => {
                lemma_number_one_line(n);
            },
            Member::Flag(b) => {
                reveal_strlit("true");
                reveal_strlit("false");
            },
        }
        lemma_one_line_add(seq!['"'] + escaped(key) + seq!['"', ':'], member_text(m));
        lemma_one_line_add(members_text(front), seq![',']);
        lemma_one_line_add(members_text(front) + seq![','], pair_text(key, m));
    }
}

/// An object takes one line, whatever its texts hold.
pub proof fn law_flat_is_one_line(ms: Seq<(Seq<char>, Member)>)
    requires
        is_flat(ms),
    ensures
        is_one_line(flat_text(ms)),
{
    lemma_members_one_line(ms);
    lemma_one_line_add(seq!['{'], members_text(ms));
    lemma_one_line_add(seq!['{'] + members_text(ms), seq!['}']);
}

/// Adding a member to an object adds its text.
pub(crate) proof fn lemma_members_push(ms: Seq<(Seq<char>, Member)>, key: Seq<char>, m: Member)
    ensures
        members_text(ms.push((key, m))) == (if ms.len() == 0 {
            pair_text(key, m)
        } else {
            members_text(ms) + seq![','] + pair_text(key, m)
        }),
{
    assert(ms.push((key, m)).drop_last() =~= ms);
}

}
