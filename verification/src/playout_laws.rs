//! What holds of every choice of a device, of every frame, and of all that is played.
use crate::playout::{
    ascii_lower_texts, device_values, frame_samples, greeting, is_asked_for, is_pick, is_preferred,
    lower_texts, moments, read_step, with_added, without_first, Why,
};
use crate::text::{ascii_lower, lowercase_text, occurs_in};
use crate::text_laws::law_occurs_where_put;
use crate::wav_laws::number4_at;
use vstd::prelude::*;
use vstd::string::*;
use vstd::utf8::*;

verus! {

/// A device is a virtual one exactly if its name holds one of the seven words.
pub proof fn law_virtual_devices(name: Seq<char>, a: Seq<char>, b: Seq<char>)
    ensures
        is_preferred(a + "cable input"@ + b),
        is_preferred(a + "vb-audio"@ + b),
        is_preferred(a + "blackhole"@ + b),
        is_preferred(a + "loopback"@ + b),
        is_preferred(a + "snd-aloop"@ + b),
        is_preferred(a + "monitor"@ + b),
        is_preferred(a + "null"@ + b),
        !occurs_in(name, "cable input"@) && !occurs_in(name, "vb-audio"@) && !occurs_in(
            name,
            "blackhole"@,
        ) && !occurs_in(name, "loopback"@) && !occurs_in(name, "snd-aloop"@) && !occurs_in(
            name,
            "monitor"@,
        ) && !occurs_in(name, "null"@) ==> !is_preferred(name),
{
    law_occurs_where_put(a, "cable input"@, b);
    law_occurs_where_put(a, "vb-audio"@, b);
    law_occurs_where_put(a, "blackhole"@, b);
    law_occurs_where_put(a, "loopback"@, b);
    law_occurs_where_put(a, "snd-aloop"@, b);
    law_occurs_where_put(a, "monitor"@, b);
    law_occurs_where_put(a, "null"@, b);
}

/// A device is the one that was asked for exactly if its name holds that name, and no device is
/// where none was asked for.
pub proof fn law_device_that_is_asked_for(a: Seq<char>, asked: Seq<char>, b: Seq<char>, name: Seq<char>)
    ensures
        asked.len() > 0 ==> is_asked_for(a + asked + b, asked),
        !is_asked_for(name, Seq::empty()),
        !occurs_in(name, asked) ==> !is_asked_for(name, asked),
{
    law_occurs_where_put(a, asked, b);
}

/// There is one device to pick, and one reason, wherever there is a device at all: the first one
/// that fits, or the first of all where none fits.
pub proof fn law_one_pick(names: Seq<Seq<char>>, asked: Seq<char>, i: int, wi: Why, j: int, wj: Why)
    requires
        is_pick(names, asked, i, wi),
        is_pick(names, asked, j, wj),
    ensures
        i == j,
        wi == wj,
        wi is First ==> i == 0,
        is_asked_for(names[i], asked) ==> wi is Asked,
        !(wi is First) ==> is_asked_for(names[i], asked) || is_preferred(names[i]),
        forall|k: int|
            0 <= k < i ==> !is_asked_for(#[trigger] names[k], asked) && !is_preferred(names[k]),
        wi is First ==> forall|k: int|
            0 <= k < names.len() ==> !is_asked_for(#[trigger] names[k], asked) && !is_preferred(
                names[k],
            ),
{
    if i < j {
        assert(!is_asked_for(names[i], asked) && !is_preferred(names[i]));
    } else if j < i {
        assert(!is_asked_for(names[j], asked) && !is_preferred(names[j]));
    }
}

/// A sender introduces itself by these bytes.
pub proof fn law_greeting_bytes()
    ensures
        greeting() == seq![
            0x50u8,
            0x43,
            0x4d,
            0x34,
            0x38,
            0x4b,
            0x5f,
            0x46,
            0x33,
            0x32,
            0x4c,
            0x45,
            0x5f,
            0x4d,
            0x4f,
            0x4e,
            0x4f,
            0x0a,
        ],
{
    reveal_strlit("PCM48K_F32LE_MONO\n");
    assert(is_ascii_chars("PCM48K_F32LE_MONO\n"@));
    is_ascii_chars_encode_utf8("PCM48K_F32LE_MONO\n"@);
    let s = "PCM48K_F32LE_MONO\n"@;
    let g = greeting();
    assert(g.len() == 18);
    assert(s[0] as u8 == g[0] && s[1] as u8 == g[1] && s[2] as u8 == g[2] && s[3] as u8 == g[3]);
    assert(s[4] as u8 == g[4] && s[5] as u8 == g[5] && s[6] as u8 == g[6] && s[7] as u8 == g[7]);
    assert(s[8] as u8 == g[8] && s[9] as u8 == g[9] && s[10] as u8 == g[10]);
    assert(s[11] as u8 == g[11] && s[12] as u8 == g[12] && s[13] as u8 == g[13]);
    assert(s[14] as u8 == g[14] && s[15] as u8 == g[15] && s[16] as u8 == g[16]);
    assert(s[17] as u8 == g[17]);
}

/// Every sample of a frame is the number in its four bytes, the lowest first.
pub proof fn law_frame_holds_each_sample(bytes: Seq<u8>, k: int)
    requires
        0 <= 4 * k,
        4 * k + 3 < bytes.len(),
    ensures
        frame_samples(bytes).len() == bytes.len() / 4,
        frame_samples(bytes)[k] == number4_at(bytes, 4 * k),
{
}

/// Samples are added behind those that are there, in order, as long as there is room; those that
/// are lost are the last ones.
pub proof fn law_added_in_order(held: Seq<u32>, cap: nat, samples: Seq<u32>)
    requires
        held.len() <= cap,
    ensures
        held.is_prefix_of(with_added(held, cap, samples)),
        with_added(held, cap, samples).is_prefix_of(held + samples),
        held.len() + samples.len() <= cap ==> with_added(held, cap, samples) == held + samples,
        held.len() + samples.len() > cap ==> with_added(held, cap, samples).len() == cap,
{
    assert(held.is_prefix_of(held + samples));
}

/// At each moment every channel of a device has the sample that comes next, or silence where
/// none is left, and what has been played is gone.
pub proof fn law_each_moment(held: Seq<u32>, len: nat, channels: nat, moment: nat, c: nat)
    requires
        c < channels,
        moment * channels + c < len,
    ensures
        device_values(held, len, channels).len() == len,
        device_values(held, len, channels)[(moment * channels + c) as int] == (if moment
            < held.len() {
            held[moment as int]
        } else {
            0
        }),
{
    vstd::arithmetic::div_mod::lemma_fundamental_div_mod_converse(
        (moment * channels + c) as int,
        channels as int,
        moment as int,
        c as int,
    );
}

/// A device takes one sample for each moment that it plays, begun or whole.
pub proof fn law_moments(len: nat, channels: nat)
    requires
        channels > 0,
    ensures
        moments(len, channels) * channels >= len,
        len > 0 ==> (moments(len, channels) - 1) * channels < len,
        len == 0 ==> moments(len, channels) == 0,
{
    if len > 0 {
        let q = (len - 1) / (channels as int);
        vstd::arithmetic::div_mod::lemma_fundamental_div_mod(len - 1, channels as int);
        vstd::arithmetic::div_mod::lemma_mod_pos_bound(len - 1, channels as int);
        vstd::arithmetic::div_mod::lemma_div_pos_is_pos(len - 1, channels as int);
        assert((q + 1) * channels == channels * q + channels) by (nonlinear_arith);
        assert(q * channels == channels * q) by (nonlinear_arith);
    } else {
        assert(moments(len, channels) * channels == 0) by (nonlinear_arith)
            requires
                moments(len, channels) == 0,
        ;
    }
}

/// What is left once samples were taken are the others, in order.
pub proof fn law_taken_from_the_front(held: Seq<u32>, n: nat)
    ensures
        n <= held.len() ==> without_first(held, n) == held.skip(n as int),
        n >= held.len() ==> without_first(held, n).len() == 0,
{
    assert(held.skip(held.len() as int) =~= Seq::empty());
}

/// The names of devices are compared in lower case, each by itself.
pub proof fn law_names_in_lower_case(v: Seq<String>, i: int)
    ensures
        lower_texts(v).len() == v.len() && ascii_lower_texts(v).len() == v.len(),
        0 <= i < v.len() ==> lower_texts(v)[i] == lowercase_text(v[i]@),
        0 <= i < v.len() ==> ascii_lower_texts(v)[i] == ascii_lower(v[i]@),
{
}

/// A sender is gone exactly if nothing was read, and a frame is whole exactly if none of its
/// bytes is missing.
pub proof fn law_what_reading_means(at: nat, n: nat)
    requires
        at + n <= 3840,
    ensures
        read_step(at, n) is Closed <==> n == 0,
        read_step(at, n) is Whole <==> n > 0 && at + n == 3840,
{
}

}
