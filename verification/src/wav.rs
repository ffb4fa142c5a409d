//! Sixteen bit mono PCM: samples as bytes, WAV files, and the joining of WAV files.
use vstd::prelude::*;
use vstd::seq_lib::*;

verus! {

/// The two bytes of `n`, the low one first.
pub open spec fn le_u16(n: nat) -> Seq<u8> {
    seq![(n % 0x100) as u8, (n / 0x100 % 0x100) as u8]
}

/// The four bytes of `n`, the lowest first.
pub open spec fn le_u32(n: nat) -> Seq<u8> {
    seq![
        (n % 0x100) as u8,
        (n / 0x100 % 0x100) as u8,
        (n / 0x1_0000 % 0x100) as u8,
        (n / 0x100_0000 % 0x100) as u8,
    ]
}

/// The two's complement of a sample, as a number without sign.
pub open spec fn sample_bits(s: i16) -> nat {
    if s >= 0 {
        s as nat
    } else {
        (s + 0x1_0000) as nat
    }
}

/// The sample that two bytes denote, the low one first.
pub open spec fn sample_of(low: u8, high: u8) -> i16 {
    let n = low + 0x100 * high;
    if n < 0x8000 {
        n as i16
    } else {
        (n - 0x1_0000) as i16
    }
}

/// The samples as bytes: two for each sample, the low one first.
pub open spec fn pcm_bytes(samples: Seq<i16>) -> Seq<u8> {
    Seq::new(2 * samples.len(), |k: int| le_u16(sample_bits(samples[k / 2]))[k % 2])
}

/// The samples that a sequence of bytes holds.
pub open spec fn pcm_samples(bytes: Seq<u8>) -> Seq<i16> {
    Seq::new(bytes.len() / 2, |k: int| sample_of(bytes[2 * k], bytes[2 * k + 1]))
}

/// `write_u16::<LittleEndian>` of byteorder's `WriteBytesExt`, on a vector: it appends the two
/// bytes of `n`, the low one first, and cannot fail.
#[verifier::external_body]
fn put_u16(out: &mut Vec<u8>, n: u16)
    ensures
        final(out)@ == old(out)@ + le_u16(n as nat),
{
    byteorder::WriteBytesExt::write_u16::<byteorder::LittleEndian>(out, n).unwrap()
}

/// `write_u32::<LittleEndian>` of byteorder's `WriteBytesExt`, on a vector: it appends the four
/// bytes of `n`, the lowest first, and cannot fail.
#[verifier::external_body]
fn put_u32(out: &mut Vec<u8>, n: u32)
    ensures
        final(out)@ == old(out)@ + le_u32(n as nat),
{
    byteorder::WriteBytesExt::write_u32::<byteorder::LittleEndian>(out, n).unwrap()
}

/// `write_i16::<LittleEndian>` of byteorder's `WriteBytesExt`, on a vector: it appends the two
/// bytes of the two's complement of `n`, the low one first, and cannot fail.
#[verifier::external_body]
fn put_i16(out: &mut Vec<u8>, n: i16)
    ensures
        final(out)@ == old(out)@ + le_u16(sample_bits(n)),
{
    byteorder::WriteBytesExt::write_i16::<byteorder::LittleEndian>(out, n).unwrap()
}

/// The samples of a chunk of captured bytes.
pub fn decode_pcm(bytes: &Vec<u8>) -> (r: Vec<i16>)
    requires
        bytes@.len() % 2 == 0,
    ensures
        r@ == pcm_samples(bytes@),
{
    let total: usize = bytes.len();
    let n: usize = total / 2;
    let mut out: Vec<i16> = Vec::new();
    let mut k: usize = 0;
    while k < n
        invariant
            k <= n,
            2 * n == total == bytes@.len(),
            out@ == pcm_samples(bytes@).take(k as int),
        decreases n - k,
    {
        let u: u32 = bytes[2 * k] as u32 + 0x100 * (bytes[2 * k + 1] as u32);
        let s: i16 = if u < 0x8000 {
            u as i16
        } else {
            (u as i32 - 0x1_0000) as i16
        };
        out.push(s);
        k = k + 1;
        proof {
            assert(out@ =~= pcm_samples(bytes@).take(k as int));
        }
    }
    assert(pcm_samples(bytes@).take(n as int) =~= pcm_samples(bytes@));
    out
}

/// The samples as bytes.
pub fn encode_pcm(samples: &Vec<i16>) -> (r: Vec<u8>)
    ensures
        r@ == pcm_bytes(samples@),
{
    let mut out: Vec<u8> = Vec::new();
    let mut i: usize = 0;
    while i < samples.len()
        invariant
            i <= samples@.len(),
            out@ == pcm_bytes(samples@.take(i as int)),
        decreases samples@.len() - i,
    {
        put_i16(&mut out, samples[i]);
        proof {
            let before = samples@.take(i as int);
            let after = samples@.take(i + 1);
            assert(pcm_bytes(after) =~= pcm_bytes(before) + le_u16(sample_bits(samples@[i as int])));
        }
        i = i + 1;
    }
    assert(samples@.take(samples@.len() as int) =~= samples@);
    out
}

/// The bytes `RIFF`.
pub open spec fn tag_riff() -> Seq<u8> {
    seq![0x52, 0x49, 0x46, 0x46]
}

/// The bytes `WAVE`.
pub open spec fn tag_wave() -> Seq<u8> {
    seq![0x57, 0x41, 0x56, 0x45]
}

/// The bytes `fmt` and a space.
pub open spec fn tag_fmt() -> Seq<u8> {
    seq![0x66, 0x6d, 0x74, 0x20]
}

/// The bytes `data`.
pub open spec fn tag_data() -> Seq<u8> {
    seq![0x64, 0x61, 0x74, 0x61]
}

/// The header of a sixteen bit mono PCM file at `sr` samples a second, with `len` bytes of
/// samples behind it. A length is written modulo two to the power of thirty-two.
pub open spec fn wav_header(sr: nat, len: nat) -> Seq<u8> {
    tag_riff() + le_u32((36 + len) % 0x1_0000_0000) + tag_wave() + tag_fmt() + le_u32(16) + le_u16(
        1,
    ) + le_u16(1) + le_u32(sr) + le_u32(sr * 2) + le_u16(2) + le_u16(16) + tag_data() + le_u32(
        len % 0x1_0000_0000,
    )
}

/// A WAV file of the samples.
pub open spec fn wav_file(sr: nat, samples: Seq<i16>) -> Seq<u8> {
    wav_header(sr, 2 * samples.len()) + pcm_bytes(samples)
}

fn put_tag(out: &mut Vec<u8>, a: u8, b: u8, c: u8, d: u8)
    ensures
        final(out)@ == old(out)@ + seq![a, b, c, d],
{
    out.push(a);
    out.push(b);
    out.push(c);
    out.push(d);
    assert(out@ =~= old(out)@ + seq![a, b, c, d]);
}

/// A WAV file of the samples, in memory. The rate of bytes has to fit into its field.
pub fn build_wav(sr: u32, samples: &Vec<i16>) -> (r: Vec<u8>)
    requires
        sr * 16 <= u32::MAX,
    ensures
        r@ == wav_file(sr as nat, samples@),
{
    let mut data = encode_pcm(samples);
    let n: u64 = data.len() as u64;
    let len: u32 = n as u32;
    let riff_len: u32 = len.wrapping_add(36);
    proof {
        assert(n as u32 == n % 0x1_0000_0000) by (bit_vector);
        assert(riff_len == (36 + n) % 0x1_0000_0000);
    }
    let byte_rate: u32 = sr * 16 / 8;
    let mut wav: Vec<u8> = Vec::new();
    put_tag(&mut wav, 0x52, 0x49, 0x46, 0x46);
    put_u32(&mut wav, riff_len);
    put_tag(&mut wav, 0x57, 0x41, 0x56, 0x45);
    put_tag(&mut wav, 0x66, 0x6d, 0x74, 0x20);
    put_u32(&mut wav, 16);
    put_u16(&mut wav, 1);
    put_u16(&mut wav, 1);
    put_u32(&mut wav, sr);
    put_u32(&mut wav, byte_rate);
    put_u16(&mut wav, 2);
    put_u16(&mut wav, 16);
    put_tag(&mut wav, 0x64, 0x61, 0x74, 0x61);
    put_u32(&mut wav, len);
    assert(wav@ =~= wav_header(sr as nat, n as nat));
    wav.append(&mut data);
    wav
}

/// The length of a header, which is what joining takes off the files that follow the first.
pub const HEADER_LEN: usize = 44;

/// The bytes that a file adds to those before it: what follows its header, or the whole of a
/// file that has nothing behind a header.
pub open spec fn joined_part(file: Seq<u8>) -> Seq<u8> {
    if file.len() > HEADER_LEN {
        file.skip(HEADER_LEN as int)
    } else {
        file
    }
}

/// The files joined into one: the first whole, of each other what it adds.
pub open spec fn wav_joined(files: Seq<Seq<u8>>) -> Seq<u8>
    decreases files.len(),
{
    if files.len() == 0 {
        Seq::empty()
    } else if files.len() == 1 {
        files[0]
    } else {
        wav_joined(files.drop_last()) + joined_part(files.last())
    }
}

/// Adds a file to those joined so far. `first` tells that there are none before it.
pub fn join_wav(acc: &mut Vec<u8>, file: &Vec<u8>, first: bool)
    ensures
        final(acc)@ == old(acc)@ + (if first {
            file@
        } else {
            joined_part(file@)
        }),
{
    let from: usize = if !first && file.len() > HEADER_LEN {
        HEADER_LEN
    } else {
        0
    };
    let mut i: usize = from;
    while i < file.len()
        invariant
            from <= i <= file@.len(),
            acc@ == old(acc)@ + file@.subrange(from as int, i as int),
        decreases file@.len() - i,
    {
        acc.push(file[i]);
        proof {
            assert(acc@ =~= old(acc)@ + file@.subrange(from as int, i + 1));
        }
        i = i + 1;
    }
    proof {
        assert(file@.subrange(0, file@.len() as int) =~= file@);
        assert(file@.subrange(from as int, file@.len() as int) =~= file@.skip(from as int));
    }
}

/// The header takes as many bytes as joining takes off.
pub proof fn law_header_len(sr: nat, len: nat)
    ensures
        wav_header(sr, len).len() == HEADER_LEN,
{
}

proof fn lemma_pcm_add(a: Seq<i16>, b: Seq<i16>)
    ensures
        pcm_bytes(a + b) == pcm_bytes(a) + pcm_bytes(b),
{
    assert(pcm_bytes(a + b) =~= pcm_bytes(a) + pcm_bytes(b));
}

proof fn lemma_part_after(head: Seq<u8>, body: Seq<u8>)
    requires
        head.len() == HEADER_LEN,
        body.len() > 0,
    ensures
        joined_part(head + body) == body,
{
    assert(joined_part(head + body) =~= body);
}

/// WAV files of the parts.
pub open spec fn wav_files(sr: nat, parts: Seq<Seq<i16>>) -> Seq<Seq<u8>> {
    Seq::new(parts.len(), |i: int| wav_file(sr, parts[i]))
}

/// Joined files play on without a break: the header of the first, then the samples of all. A
/// file without samples may only stand first: all of it, its header too, would be added.
pub proof fn law_join_plays_on(sr: nat, parts: Seq<Seq<i16>>)
    requires
        parts.len() > 0,
        forall|i: int| 1 <= i < parts.len() ==> (#[trigger] parts[i]).len() > 0,
    ensures
        wav_joined(wav_files(sr, parts)) == wav_header(sr, 2 * parts[0].len()) + pcm_bytes(
            parts.flatten(),
        ),
    decreases parts.len(),
{
    let files = wav_files(sr, parts);
    let head = wav_header(sr, 2 * parts[0].len());
    if parts.len() == 1 {
        assert(parts =~= seq![parts[0]]);
        parts.lemma_flatten_singleton();
    } else {
        let front = parts.drop_last();
        let last = parts.last();
        law_join_plays_on(sr, front);
        assert(files.drop_last() =~= wav_files(sr, front));
        assert(files.last() == wav_header(sr, 2 * last.len()) + pcm_bytes(last));
        assert(parts[parts.len() - 1].len() > 0);
        law_header_len(sr, 2 * last.len());
        lemma_part_after(wav_header(sr, 2 * last.len()), pcm_bytes(last));
        assert(parts =~= front.push(last));
        front.lemma_flatten_push(last);
        lemma_pcm_add(front.flatten(), last);
        assert(head + pcm_bytes(front.flatten()) + pcm_bytes(last) =~= head + (pcm_bytes(
            front.flatten(),
        ) + pcm_bytes(last)));
    }
}

proof fn lemma_sample_round_trip(s: i16)
    ensures
        sample_of(le_u16(sample_bits(s))[0], le_u16(sample_bits(s))[1]) == s,
{
}

/// The samples of a file can be read back from the bytes behind its header.
pub proof fn law_pcm_round_trip(samples: Seq<i16>)
    ensures
        pcm_samples(pcm_bytes(samples)) == samples,
{
    let bytes = pcm_bytes(samples);
    assert forall|k: int| 0 <= k < samples.len() implies pcm_samples(bytes)[k] == samples[k] by {
        assert(2 * k / 2 == k && 2 * k % 2 == 0 && (2 * k + 1) / 2 == k && (2 * k + 1) % 2 == 1);
        lemma_sample_round_trip(samples[k]);
    }
    assert(pcm_samples(bytes) =~= samples);
}

/// Decoding captured bytes and encoding the samples gives the bytes back.
pub proof fn law_bytes_round_trip(bytes: Seq<u8>)
    requires
        bytes.len() % 2 == 0,
    ensures
        pcm_bytes(pcm_samples(bytes)) == bytes,
{
    let samples = pcm_samples(bytes);
    assert forall|k: int| 0 <= k < bytes.len() implies pcm_bytes(samples)[k] == bytes[k] by {
        let s = samples[k / 2];
        assert(s == sample_of(bytes[2 * (k / 2)], bytes[2 * (k / 2) + 1]));
    }
    assert(pcm_bytes(samples) =~= bytes);
}

}
