//! What the bytes of a WAV file say, read back from the file.
use crate::speaker::latest;
use crate::wav::{
    le_u16, le_u32, law_header_len, pcm_bytes, pcm_samples, sample_bits, wav_file, wav_header,
    wav_joined,
};
use vstd::prelude::*;

verus! {

/// The number in the two bytes at `at`, the low one first.
pub open spec fn number2_at(bytes: Seq<u8>, at: int) -> int {
    bytes[at] + 0x100 * bytes[at + 1]
}

/// The number in the four bytes at `at`, the lowest first.
pub open spec fn number4_at(bytes: Seq<u8>, at: int) -> int {
    number2_at(bytes, at) + 0x1_0000 * number2_at(bytes, at + 2)
}

proof fn lemma_le_u16(n: nat)
    requires
        n < 0x1_0000,
    ensures
        le_u16(n).len() == 2,
        number2_at(le_u16(n), 0) == n,
{
}

proof fn lemma_le_u32(n: nat)
    requires
        n < 0x1_0000_0000,
    ensures
        le_u32(n).len() == 4,
        number4_at(le_u32(n), 0) == n,
{
    let hi = n / 0x1_0000;
    assert(n / 0x100_0000 == hi / 0x100);
    assert(n / 0x100 % 0x100 == n % 0x1_0000 / 0x100);
}

#[verifier::spinoff_prover]
#[verifier::rlimit(60)]
proof fn lemma_lengths(sr: nat, len: nat)
    ensures
        ({
            let h = wav_header(sr, len);
            &&& h.len() == 44
            &&& h.subrange(4, 8) == le_u32((36 + len) % 0x1_0000_0000)
            &&& h.subrange(40, 44) == le_u32(len % 0x1_0000_0000)
        }),
{
    let h = wav_header(sr, len);
    law_header_len(sr, len);
    assert(h.subrange(4, 8) =~= le_u32((36 + len) % 0x1_0000_0000));
    assert(h.subrange(40, 44) =~= le_u32(len % 0x1_0000_0000));
}

#[verifier::spinoff_prover]
#[verifier::rlimit(60)]
proof fn lemma_form(sr: nat, len: nat)
    ensures
        ({
            let h = wav_header(sr, len);
            &&& h.len() == 44
            &&& h.subrange(16, 20) == le_u32(16)
            &&& h.subrange(20, 22) == le_u16(1)
            &&& h.subrange(22, 24) == le_u16(1)
        }),
{
    let h = wav_header(sr, len);
    law_header_len(sr, len);
    assert(h.subrange(16, 20) =~= le_u32(16));
    assert(h.subrange(20, 22) =~= le_u16(1));
    assert(h.subrange(22, 24) =~= le_u16(1));
}

#[verifier::spinoff_prover]
#[verifier::rlimit(60)]
proof fn lemma_rates(sr: nat, len: nat)
    ensures
        ({
            let h = wav_header(sr, len);
            &&& h.len() == 44
            &&& h.subrange(24, 28) == le_u32(sr)
            &&& h.subrange(28, 32) == le_u32(sr * 2)
        }),
{
    let h = wav_header(sr, len);
    law_header_len(sr, len);
    assert(h.subrange(24, 28) =~= le_u32(sr));
    assert(h.subrange(28, 32) =~= le_u32(sr * 2));
}

#[verifier::spinoff_prover]
#[verifier::rlimit(60)]
proof fn lemma_widths(sr: nat, len: nat)
    ensures
        ({
            let h = wav_header(sr, len);
            &&& h.len() == 44
            &&& h.subrange(32, 34) == le_u16(2)
            &&& h.subrange(34, 36) == le_u16(16)
        }),
{
    let h = wav_header(sr, len);
    law_header_len(sr, len);
    assert(h.subrange(32, 34) =~= le_u16(2));
    assert(h.subrange(34, 36) =~= le_u16(16));
}

proof fn lemma_number4(f: Seq<u8>, at: int, n: nat)
    requires
        0 <= at,
        at + 4 <= f.len(),
        n < 0x1_0000_0000,
        f.subrange(at, at + 4) == le_u32(n),
    ensures
        number4_at(f, at) == n,
{
    let w = f.subrange(at, at + 4);
    lemma_le_u32(n);
    assert(w[0] == f[at] && w[1] == f[at + 1] && w[2] == f[at + 2] && w[3] == f[at + 3]);
}

proof fn lemma_number2(f: Seq<u8>, at: int, n: nat)
    requires
        0 <= at,
        at + 2 <= f.len(),
        n < 0x1_0000,
        f.subrange(at, at + 2) == le_u16(n),
    ensures
        number2_at(f, at) == n,
{
    let w = f.subrange(at, at + 2);
    lemma_le_u16(n);
    assert(w[0] == f[at] && w[1] == f[at + 1]);
}

proof fn lemma_length_fields(h: Seq<u8>, d: Seq<u8>)
    requires
        h.len() == 44,
        h.subrange(4, 8) == le_u32((36 + d.len()) % 0x1_0000_0000),
        h.subrange(40, 44) == le_u32(d.len() % 0x1_0000_0000),
    ensures
        number4_at(h + d, 4) == ((h + d).len() - 8) % 0x1_0000_0000,
        number4_at(h + d, 40) == ((h + d).len() - 44) % 0x1_0000_0000,
{
    let f = h + d;
    assert(f.subrange(4, 8) =~= h.subrange(4, 8));
    assert(f.subrange(40, 44) =~= h.subrange(40, 44));
    lemma_number4(f, 4, (36 + d.len()) % 0x1_0000_0000);
    lemma_number4(f, 40, d.len() % 0x1_0000_0000);
}

/// A file announces its own length: the number at its fifth byte is the length of what follows
/// it, and the number at its forty-first byte is the length of the samples, which take the rest
/// of the file. Of a length that does not fit into four bytes the low four stand there.
#[verifier::spinoff_prover]
#[verifier::rlimit(60)]
pub proof fn law_wav_announces_its_length(sr: nat, samples: Seq<i16>)
    ensures
        wav_file(sr, samples).len() == 44 + 2 * samples.len(),
        number4_at(wav_file(sr, samples), 4) == (wav_file(sr, samples).len() - 8) % 0x1_0000_0000,
        number4_at(wav_file(sr, samples), 40) == (wav_file(sr, samples).len() - 44) % 0x1_0000_0000,
        44 + 2 * samples.len() < 0x1_0000_0000 ==> number4_at(wav_file(sr, samples), 4)
            == wav_file(sr, samples).len() - 8 && number4_at(wav_file(sr, samples), 40) == wav_file(
            sr,
            samples,
        ).len() - 44,
{
    lemma_lengths(sr, 2 * samples.len());
    lemma_length_fields(wav_header(sr, 2 * samples.len()), pcm_bytes(samples));
}

proof fn lemma_form_fields(h: Seq<u8>, d: Seq<u8>, sr: nat)
    requires
        h.len() == 44,
        sr * 2 < 0x1_0000_0000,
        h.subrange(16, 20) == le_u32(16),
        h.subrange(20, 22) == le_u16(1),
        h.subrange(22, 24) == le_u16(1),
        h.subrange(24, 28) == le_u32(sr),
        h.subrange(28, 32) == le_u32(sr * 2),
        h.subrange(32, 34) == le_u16(2),
        h.subrange(34, 36) == le_u16(16),
    ensures
        number4_at(h + d, 16) == 16,
        number2_at(h + d, 20) == 1,
        number2_at(h + d, 22) == 1,
        number4_at(h + d, 24) == sr,
        number4_at(h + d, 28) == sr * 2,
        number2_at(h + d, 32) == 2,
        number2_at(h + d, 34) == 16,
{
    let f = h + d;
    assert(f.subrange(16, 20) =~= h.subrange(16, 20));
    assert(f.subrange(20, 22) =~= h.subrange(20, 22));
    assert(f.subrange(22, 24) =~= h.subrange(22, 24));
    assert(f.subrange(24, 28) =~= h.subrange(24, 28));
    assert(f.subrange(28, 32) =~= h.subrange(28, 32));
    assert(f.subrange(32, 34) =~= h.subrange(32, 34));
    assert(f.subrange(34, 36) =~= h.subrange(34, 36));
    lemma_number4(f, 16, 16);
    lemma_number2(f, 20, 1);
    lemma_number2(f, 22, 1);
    lemma_number4(f, 24, sr);
    lemma_number4(f, 28, sr * 2);
    lemma_number2(f, 32, 2);
    lemma_number2(f, 34, 16);
}

/// A file announces how it is to be played: plain samples, one channel, the rate that was given,
/// sixteen bits a sample, and from these the bytes of a moment and of a second.
#[verifier::spinoff_prover]
#[verifier::rlimit(60)]
pub proof fn law_wav_announces_its_form(sr: nat, samples: Seq<i16>)
    requires
        sr * 2 < 0x1_0000_0000,
    ensures
        ({
            let f = wav_file(sr, samples);
            let channels = number2_at(f, 22);
            let bits = number2_at(f, 34);
            let moment = number2_at(f, 32);
            &&& number4_at(f, 16) == 16
            &&& number2_at(f, 20) == 1
            &&& channels == 1
            &&& number4_at(f, 24) == sr
            &&& bits == 16
            &&& moment == channels * bits / 8
            &&& number4_at(f, 28) == sr * moment
        }),
{
    lemma_form(sr, 2 * samples.len());
    lemma_rates(sr, 2 * samples.len());
    lemma_widths(sr, 2 * samples.len());
    lemma_form_fields(wav_header(sr, 2 * samples.len()), pcm_bytes(samples), sr);
}

/// The four marks of a file stand where a reader looks for them.
#[verifier::spinoff_prover]
#[verifier::rlimit(60)]
pub proof fn law_wav_marks(sr: nat, samples: Seq<i16>)
    ensures
        wav_file(sr, samples).subrange(0, 4) == seq![0x52u8, 0x49, 0x46, 0x46],
        wav_file(sr, samples).subrange(8, 12) == seq![0x57u8, 0x41, 0x56, 0x45],
        wav_file(sr, samples).subrange(12, 16) == seq![0x66u8, 0x6d, 0x74, 0x20],
        wav_file(sr, samples).subrange(36, 40) == seq![0x64u8, 0x61, 0x74, 0x61],
{
    let f = wav_file(sr, samples);
    law_header_len(sr, 2 * samples.len());
    assert(f.subrange(0, 4) =~= seq![0x52u8, 0x49, 0x46, 0x46]);
    assert(f.subrange(8, 12) =~= seq![0x57u8, 0x41, 0x56, 0x45]);
    assert(f.subrange(12, 16) =~= seq![0x66u8, 0x6d, 0x74, 0x20]);
    assert(f.subrange(36, 40) =~= seq![0x64u8, 0x61, 0x74, 0x61]);
}

/// Every sample stands in the file in its place, as two bytes, the low one first; a negative one
/// by what it lacks of two to the power of sixteen.
#[verifier::spinoff_prover]
#[verifier::rlimit(60)]
pub proof fn law_wav_holds_each_sample(sr: nat, samples: Seq<i16>, k: int)
    requires
        0 <= k < samples.len(),
    ensures
        number2_at(wav_file(sr, samples), 44 + 2 * k) == (if samples[k] < 0 {
            samples[k] + 0x1_0000
        } else {
            samples[k] as int
        }),
{
    let f = wav_file(sr, samples);
    let d = pcm_bytes(samples);
    law_header_len(sr, 2 * samples.len());
    assert(2 * k / 2 == k && 2 * k % 2 == 0 && (2 * k + 1) / 2 == k && (2 * k + 1) % 2 == 1);
    assert(f[44 + 2 * k] == d[2 * k]);
    assert(f[44 + 2 * k + 1] == d[2 * k + 1]);
    lemma_le_u16(sample_bits(samples[k]));
}

/// A sample that is captured is the number that its two bytes denote, by the two's complement.
pub proof fn law_captured_sample(bytes: Seq<u8>, k: int)
    requires
        0 <= 2 * k,
        2 * k + 1 < bytes.len(),
    ensures
        pcm_samples(bytes).len() == bytes.len() / 2,
        pcm_samples(bytes)[k] == number2_at(bytes, 2 * k) - (if bytes[2 * k + 1] >= 0x80 {
            0x1_0000int
        } else {
            0
        }),
{
}

/// A file that is joined to others adds what stands behind its first forty-four bytes, or all of
/// it if there is no more; the first one is taken whole.
pub proof fn law_joining_one_more(files: Seq<Seq<u8>>, f: Seq<u8>)
    ensures
        wav_joined(seq![f]) == f,
        files.len() > 0 && f.len() > 44 ==> wav_joined(files.push(f)) == wav_joined(files) + f.skip(
            44,
        ),
        files.len() > 0 && f.len() <= 44 ==> wav_joined(files.push(f)) == wav_joined(files) + f,
{
    assert(files.push(f).drop_last() =~= files);
}

/// What is kept of the samples are the last of them, as many as there is room for, and all if
/// there is room for all.
pub proof fn law_latest_is_the_end(s: Seq<i16>, cap: nat)
    ensures
        s.len() <= cap ==> latest(s, cap) == s,
        s.len() > cap ==> latest(s, cap).len() == cap,
        latest(s, cap).is_suffix_of(s),
{
}

}
