//! Playing speech on an audio device: the choice of the device, the frames that senders deliver,
//! and the buffer between the two.
//!
//! A sample is the bit pattern of a floating point number; silence is the pattern zero.
use crate::text::{ascii_lower, contains, lemma_texts_push, lowercase, lowercase_text, occurs_in, texts};
use vstd::prelude::*;
use vstd::string::*;
use vstd::utf8::*;

verus! {

/// Samples a second.
pub const SR: u32 = 48_000;

/// Channels of the samples that are delivered.
pub const CHANNELS: u16 = 1;

/// The samples of a frame of twenty milliseconds.
pub const FRAME_SAMPLES: usize = 960;

/// The bytes of a frame, four for each sample.
pub const BYTES_PER_FRAME: usize = 3840;

/// The samples that the buffer holds: two tenths of a second.
pub const RING_SAMPLES: usize = 9600;

/// The name of the device holds one of the words by which virtual devices are known. The name
/// is in lower case.
pub open spec fn is_preferred(name: Seq<char>) -> bool {
    ||| occurs_in(name, "cable input"@)
    ||| occurs_in(name, "vb-audio"@)
    ||| occurs_in(name, "blackhole"@)
    ||| occurs_in(name, "loopback"@)
    ||| occurs_in(name, "snd-aloop"@)
    ||| occurs_in(name, "monitor"@)
    ||| occurs_in(name, "null"@)
}

fn preferred(name: &str) -> (r: bool)
    ensures
        r == is_preferred(name@),
{
    contains(name, "cable input") || contains(name, "vb-audio") || contains(name, "blackhole")
        || contains(name, "loopback") || contains(name, "snd-aloop") || contains(name, "monitor")
        || contains(name, "null")
}

/// The name of the device holds the name that was asked for, if one was. Both are in lower case.
pub open spec fn is_asked_for(name: Seq<char>, asked: Seq<char>) -> bool {
    asked.len() > 0 && occurs_in(name, asked)
}

/// Why a device was picked.
#[derive(PartialEq, Eq, Structural)]
pub enum Why {
    /// It was asked for.
    Asked,
    /// It is a virtual device.
    Preferred,
    /// It is the first of all.
    First,
}

/// The device that was picked, by its place in the list.
pub struct Pick {
    pub index: usize,
    pub why: Why,
}

/// The first device that was asked for or is a virtual device is picked, and the first of all
/// where there is none. All names are in lower case.
pub open spec fn is_pick(names: Seq<Seq<char>>, asked: Seq<char>, index: int, why: Why) -> bool {
    &&& 0 <= index < names.len()
    &&& match why {
        Why::Asked => is_asked_for(names[index], asked),
        Why::Preferred => !is_asked_for(names[index], asked) && is_preferred(names[index]),
        Why::First => index == 0 && forall|i: int|
            0 <= i < names.len() ==> !is_asked_for(#[trigger] names[i], asked) && !is_preferred(
                names[i],
            ),
    }
    &&& forall|i: int|
        0 <= i < index ==> !is_asked_for(#[trigger] names[i], asked) && !is_preferred(names[i])
}

/// Picks a device by the names of all, in lower case; `None` if there is none.
pub fn pick_by_lower_names(names: &Vec<String>, asked: &str) -> (r: Option<Pick>)
    ensures
        match r {
            Some(p) => is_pick(texts(names@), asked@, p.index as int, p.why),
            None => names@.len() == 0,
        },
{
    let mut i: usize = 0;
    while i < names.len()
        invariant
            i <= names@.len(),
            forall|j: int|
                0 <= j < i ==> !is_asked_for(#[trigger] texts(names@)[j], asked@) && !is_preferred(
                    texts(names@)[j],
                ),
        decreases names@.len() - i,
    {
        proof {
            assert(texts(names@)[i as int] == names@[i as int]@);
        }
        if !asked.is_empty() && contains(names[i].as_str(), asked) {
            return Some(Pick { index: i, why: Why::Asked });
        }
        if preferred(names[i].as_str()) {
            return Some(Pick { index: i, why: Why::Preferred });
        }
        i = i + 1;
    }
    if names.len() == 0 {
        None
    } else {
        Some(Pick { index: 0, why: Why::First })
    }
}

/// The texts in lower case.
pub open spec fn lower_texts(v: Seq<String>) -> Seq<Seq<char>> {
    Seq::new(v.len(), |i: int| lowercase_text(v[i]@))
}

/// The texts with their ASCII letters in lower case.
pub open spec fn ascii_lower_texts(v: Seq<String>) -> Seq<Seq<char>> {
    Seq::new(v.len(), |i: int| ascii_lower(v[i]@))
}

/// Nothing but texts of ASCII.
pub open spec fn all_ascii(v: Seq<String>) -> bool {
    forall|i: int| 0 <= i < v.len() ==> is_ascii_chars(#[trigger] v[i]@)
}

/// Picks a device by the names of all, without regard to case; `None` if there is none.
pub fn pick_output_device(names: &Vec<String>, asked: &str) -> (r: Option<Pick>)
    ensures
        match r {
            Some(p) => is_pick(
                lower_texts(names@),
                lowercase_text(asked@),
                p.index as int,
                p.why,
            ) && (all_ascii(names@) && is_ascii_chars(asked@) ==> is_pick(
                ascii_lower_texts(names@),
                ascii_lower(asked@),
                p.index as int,
                p.why,
            )),
            None => names@.len() == 0,
        },
{
    let low_asked = lowercase(asked);
    let mut low: Vec<String> = Vec::new();
    let mut i: usize = 0;
    while i < names.len()
        invariant
            i <= names@.len(),
            texts(low@) == lower_texts(names@).take(i as int),
            all_ascii(names@) ==> texts(low@) == ascii_lower_texts(names@).take(i as int),
        decreases names@.len() - i,
    {
        let s = lowercase(names[i].as_str());
        proof {
            lemma_texts_push(low@, s);
            assert(lower_texts(names@).take(i + 1) =~= lower_texts(names@).take(i as int).push(s@));
            if all_ascii(names@) {
                assert(is_ascii_chars(names@[i as int]@));
                assert(ascii_lower_texts(names@).take(i + 1) =~= ascii_lower_texts(names@).take(
                    i as int,
                ).push(s@));
            }
        }
        low.push(s);
        i = i + 1;
    }
    proof {
        assert(lower_texts(names@).take(i as int) =~= lower_texts(names@));
        assert(ascii_lower_texts(names@).take(i as int) =~= ascii_lower_texts(names@));
        assert(texts(low@).len() == low@.len());
    }
    pick_by_lower_names(&low, low_asked.as_str())
}

/// How a device wants its values.
#[derive(PartialEq, Eq, Structural)]
pub enum DeviceFormat {
    F32,
    I16,
    U16,
    /// In a way that is not supported.
    Other,
}

/// How values are handed to a device.
#[derive(PartialEq, Eq, Structural)]
pub enum ValueFormat {
    F32,
    I16,
    U16,
}

/// The stream that is opened on a device.
pub struct StreamPlan {
    pub channels: u16,
    pub rate: u32,
    pub format: ValueFormat,
    /// The device plays at another rate than the samples have: a warning is due.
    pub rate_differs: bool,
    /// The format of the device is not supported.
    pub fallback: bool,
}

/// The stream that is opened on a device, by its own format, channels and rate: its own settings
/// where the format is supported, and else the samples as they come.
pub fn stream_plan(format: DeviceFormat, channels: u16, rate: u32) -> (r: StreamPlan)
    ensures
        r.rate_differs == (rate != SR),
        r.fallback == (format == DeviceFormat::Other),
        r.channels == (if format == DeviceFormat::Other {
            CHANNELS
        } else {
            channels
        }),
        r.rate == (if format == DeviceFormat::Other {
            SR
        } else {
            rate
        }),
        r.format == (match format {
            DeviceFormat::F32 => ValueFormat::F32,
            DeviceFormat::I16 => ValueFormat::I16,
            DeviceFormat::U16 => ValueFormat::U16,
            DeviceFormat::Other => ValueFormat::F32,
        }),
{
    let rate_differs = rate != SR;
    match format {
        DeviceFormat::F32 => StreamPlan {
            channels,
            rate,
            format: ValueFormat::F32,
            rate_differs,
            fallback: false,
        },
        DeviceFormat::I16 => StreamPlan {
            channels,
            rate,
            format: ValueFormat::I16,
            rate_differs,
            fallback: false,
        },
        DeviceFormat::U16 => StreamPlan {
            channels,
            rate,
            format: ValueFormat::U16,
            rate_differs,
            fallback: false,
        },
        DeviceFormat::Other => StreamPlan {
            channels: CHANNELS,
            rate: SR,
            format: ValueFormat::F32,
            rate_differs,
            fallback: true,
        },
    }
}

/// The bytes by which a sender introduces itself.
pub open spec fn greeting() -> Seq<u8> {
    encode_utf8("PCM48K_F32LE_MONO\n"@)
}

/// The length of the greeting.
pub const GREETING_LEN: usize = 18;

/// Tells whether the bytes are the greeting of a sender.
pub fn is_greeting(header: &Vec<u8>) -> (r: bool)
    ensures
        r == (header@ == greeting()),
{
    let want = "PCM48K_F32LE_MONO\n".as_bytes();
    if header.len() != want.len() {
        return false;
    }
    let mut i: usize = 0;
    while i < header.len()
        invariant
            i <= header@.len() == want@.len(),
            want@ == greeting(),
            forall|j: int| 0 <= j < i ==> header@[j] == want@[j],
        decreases header@.len() - i,
    {
        if header[i] != want[i] {
            return false;
        }
        i = i + 1;
    }
    assert(header@ =~= want@);
    true
}

/// The greeting has its length.
pub proof fn law_greeting_len()
    ensures
        greeting().len() == GREETING_LEN,
{
    reveal_strlit("PCM48K_F32LE_MONO\n");
    assert(is_ascii_chars("PCM48K_F32LE_MONO\n"@));
    is_ascii_chars_encode_utf8("PCM48K_F32LE_MONO\n"@);
}

/// What follows from reading some bytes of a frame.
#[derive(PartialEq, Eq, Structural)]
pub enum ReadStep {
    /// The sender is gone. What it has sent of a frame is lost.
    Closed,
    /// More bytes of the frame are to be read.
    More,
    /// The frame is whole.
    Whole,
}

/// What follows from reading `n` bytes of a frame of which `at` were there.
pub open spec fn read_step(at: nat, n: nat) -> ReadStep {
    if n == 0 {
        ReadStep::Closed
    } else if at + n < BYTES_PER_FRAME {
        ReadStep::More
    } else {
        ReadStep::Whole
    }
}

/// The bytes of a frame that are there after `n` more were read: none after a whole frame.
pub open spec fn read_on(at: nat, n: nat) -> nat {
    if read_step(at, n) == ReadStep::Whole {
        0
    } else {
        at + n
    }
}

/// How much of a frame has been read.
pub struct FrameReader {
    filled: usize,
}

impl FrameReader {
    /// The bytes of the frame that have been read.
    pub closed spec fn at(&self) -> nat {
        self.filled as nat
    }

    /// The frame is not whole.
    pub open spec fn wf(&self) -> bool {
        self.at() < BYTES_PER_FRAME
    }

    /// Nothing has been read.
    pub fn new() -> (r: Self)
        ensures
            r.at() == 0,
            r.wf(),
    {
        FrameReader { filled: 0 }
    }

    /// The place where the next bytes of the frame go.
    pub fn position(&self) -> (r: usize)
        ensures
            r == self.at(),
    {
        self.filled
    }

    /// Takes the number of bytes that were read, and tells what follows. After a whole frame
    /// the next one begins.
    pub fn accept(&mut self, n: usize) -> (r: ReadStep)
        requires
            old(self).wf(),
            old(self).at() + n <= BYTES_PER_FRAME,
        ensures
            final(self).wf(),
            r == read_step(old(self).at(), n as nat),
            final(self).at() == read_on(old(self).at(), n as nat),
    {
        if n == 0 {
            return ReadStep::Closed;
        }
        self.filled = self.filled + n;
        if self.filled < BYTES_PER_FRAME {
            ReadStep::More
        } else {
            self.filled = 0;
            ReadStep::Whole
        }
    }
}

/// The bytes of a frame that are there after pieces of these lengths were read.
pub open spec fn position_after(pieces: Seq<nat>) -> nat
    decreases pieces.len(),
{
    if pieces.len() == 0 {
        0
    } else {
        read_on(position_after(pieces.drop_last()), pieces.last())
    }
}

/// The frames that became whole while pieces of these lengths were read.
pub open spec fn frames_after(pieces: Seq<nat>) -> nat
    decreases pieces.len(),
{
    if pieces.len() == 0 {
        0
    } else {
        frames_after(pieces.drop_last()) + (if read_step(
            position_after(pieces.drop_last()),
            pieces.last(),
        ) == ReadStep::Whole {
            1nat
        } else {
            0
        })
    }
}

/// The bytes of all pieces.
pub open spec fn total(pieces: Seq<nat>) -> nat
    decreases pieces.len(),
{
    if pieces.len() == 0 {
        0
    } else {
        total(pieces.drop_last()) + pieces.last()
    }
}

/// No piece is read beyond the end of its frame.
pub open spec fn stays_in_frames(pieces: Seq<nat>) -> bool
    decreases pieces.len(),
{
    pieces.len() == 0 || (stays_in_frames(pieces.drop_last()) && position_after(pieces.drop_last())
        + pieces.last() <= BYTES_PER_FRAME)
}

/// However the bytes are split into pieces, as many frames become whole as their number has
/// room for, and the bytes that are left over are those of the next frame.
pub proof fn law_pieces_make_frames(pieces: Seq<nat>)
    requires
        stays_in_frames(pieces),
    ensures
        frames_after(pieces) == total(pieces) / BYTES_PER_FRAME as nat,
        position_after(pieces) == total(pieces) % BYTES_PER_FRAME as nat,
    decreases pieces.len(),
{
    if pieces.len() > 0 {
        law_pieces_make_frames(pieces.drop_last());
    }
}

/// The pattern that four bytes denote, the lowest first.
pub open spec fn pattern_of(b0: u8, b1: u8, b2: u8, b3: u8) -> u32 {
    (b0 + 0x100 * b1 + 0x1_0000 * b2 + 0x100_0000 * b3) as u32
}

/// The samples of a frame.
pub open spec fn frame_samples(bytes: Seq<u8>) -> Seq<u32> {
    Seq::new(
        bytes.len() / 4,
        |k: int| pattern_of(bytes[4 * k], bytes[4 * k + 1], bytes[4 * k + 2], bytes[4 * k + 3]),
    )
}

/// The samples of a frame.
pub fn decode_frame(bytes: &Vec<u8>) -> (r: Vec<u32>)
    requires
        bytes@.len() == BYTES_PER_FRAME,
    ensures
        r@ == frame_samples(bytes@),
        r@.len() == FRAME_SAMPLES,
{
    let mut out: Vec<u32> = Vec::new();
    let mut k: usize = 0;
    while k < FRAME_SAMPLES
        invariant
            k <= FRAME_SAMPLES,
            bytes@.len() == BYTES_PER_FRAME,
            out@ == frame_samples(bytes@).take(k as int),
        decreases FRAME_SAMPLES - k,
    {
        let x: u32 = bytes[4 * k] as u32 + 0x100 * (bytes[4 * k + 1] as u32) + 0x1_0000 * (bytes[4
            * k + 2] as u32) + 0x100_0000 * (bytes[4 * k + 3] as u32);
        out.push(x);
        proof {
            assert(out@ =~= frame_samples(bytes@).take(k + 1));
        }
        k = k + 1;
    }
    assert(frame_samples(bytes@).take(k as int) =~= frame_samples(bytes@));
    out
}

/// A ring buffer of the ringbuf crate. Its contents are named [`ring_items`], and the number of
/// samples that it was made for [`ring_capacity`].
#[verifier::external_body]
pub struct SampleRing {
    rb: ringbuf::HeapRb<u32>,
}

/// The samples that a ring buffer holds, the oldest first.
pub uninterp spec fn ring_items(r: SampleRing) -> Seq<u32>;

/// The number of samples that a ring buffer has room for.
pub uninterp spec fn ring_capacity(r: SampleRing) -> nat;

/// `HeapRb::new`: an empty buffer with room for `capacity` samples. It panics on zero, and
/// where the memory cannot be had.
#[verifier::external_body]
fn ring_new(capacity: usize) -> (r: SampleRing)
    requires
        0 < capacity <= RING_SAMPLES,
    ensures
        ring_items(r) == Seq::<u32>::empty(),
        ring_capacity(r) == capacity,
{
    SampleRing { rb: ringbuf::HeapRb::new(capacity) }
}

/// `Rb::push`: the sample goes behind the others if there is room; else it is given back, and
/// the buffer stays as it is. The result tells whether there was room.
#[verifier::external_body]
fn ring_push(ring: &mut SampleRing, sample: u32) -> (r: bool)
    ensures
        ring_capacity(*final(ring)) == ring_capacity(*old(ring)),
        r == (ring_items(*old(ring)).len() < ring_capacity(*old(ring))),
        ring_items(*final(ring)) == (if r {
            ring_items(*old(ring)).push(sample)
        } else {
            ring_items(*old(ring))
        }),
{
    ringbuf::Rb::push(&mut ring.rb, sample).is_ok()
}

/// `Rb::pop`: takes out the oldest sample, if there is one.
#[verifier::external_body]
fn ring_pop(ring: &mut SampleRing) -> (r: Option<u32>)
    ensures
        ring_capacity(*final(ring)) == ring_capacity(*old(ring)),
        match r {
            Some(x) => ring_items(*old(ring)).len() > 0 && x == ring_items(*old(ring))[0]
                && ring_items(*final(ring)) == ring_items(*old(ring)).drop_first(),
            None => ring_items(*old(ring)).len() == 0 && ring_items(*final(ring)) == ring_items(
                *old(ring),
            ),
        },
{
    ringbuf::Rb::pop(&mut ring.rb)
}

/// The contents of a buffer with room for `cap` samples, after samples were added: those that
/// there is no room for are lost.
pub open spec fn with_added(held: Seq<u32>, cap: nat, samples: Seq<u32>) -> Seq<u32> {
    if held.len() + samples.len() <= cap {
        held + samples
    } else if held.len() <= cap {
        held + samples.take(cap - held.len())
    } else {
        held
    }
}

/// The number of moments that `len` values take on a device with `channels` channels.
pub open spec fn moments(len: nat, channels: nat) -> nat {
    if len == 0 {
        0
    } else {
        ((len - 1) / (channels as int) + 1) as nat
    }
}

/// The values for a device: at each moment every channel has the same sample, and silence where
/// no sample is left.
pub open spec fn device_values(held: Seq<u32>, len: nat, channels: nat) -> Seq<u32> {
    Seq::new(
        len,
        |k: int|
            if k / (channels as int) < held.len() {
                held[k / (channels as int)]
            } else {
                0
            },
    )
}

/// The contents of a buffer after a number of samples was asked for.
pub open spec fn without_first(held: Seq<u32>, n: nat) -> Seq<u32> {
    if n < held.len() {
        held.skip(n as int)
    } else {
        Seq::empty()
    }
}

/// The buffer between the senders and the device.
pub struct Playout {
    ring: SampleRing,
}

impl View for Playout {
    type V = Seq<u32>;

    closed spec fn view(&self) -> Seq<u32> {
        ring_items(self.ring)
    }
}

impl Playout {
    /// There is no more in the buffer than there is room for.
    pub closed spec fn wf(&self) -> bool {
        &&& ring_capacity(self.ring) == RING_SAMPLES
        &&& ring_items(self.ring).len() <= RING_SAMPLES
    }

    /// An empty buffer.
    pub fn new() -> (r: Self)
        ensures
            r.wf(),
            r@ == Seq::<u32>::empty(),
    {
        Playout { ring: ring_new(RING_SAMPLES) }
    }

    /// Adds the samples of a frame. Those that there is no room for are lost.
    pub fn push_frame(&mut self, samples: &Vec<u32>)
        requires
            old(self).wf(),
        ensures
            final(self).wf(),
            final(self)@ == with_added(old(self)@, RING_SAMPLES as nat, samples@),
    {
        let ghost held = self@;
        let ghost cap = RING_SAMPLES as nat;
        let mut i: usize = 0;
        proof {
            assert(with_added(held, cap, samples@.take(0)) =~= held);
        }
        while i < samples.len()
            invariant
                i <= samples@.len(),
                self.wf(),
                cap == RING_SAMPLES,
                held.len() <= cap,
                self@ == with_added(held, cap, samples@.take(i as int)),
            decreases samples@.len() - i,
        {
            let _ = ring_push(&mut self.ring, samples[i]);
            proof {
                assert(self@ =~= with_added(held, cap, samples@.take(i + 1)));
            }
            i = i + 1;
        }
        assert(samples@.take(samples@.len() as int) =~= samples@);
    }

    /// Takes out what a device with `channels` channels plays next, as `len` values.
    pub fn render(&mut self, len: usize, channels: usize) -> (r: Vec<u32>)
        requires
            old(self).wf(),
            channels > 0,
        ensures
            final(self).wf(),
            r@ == device_values(old(self)@, len as nat, channels as nat),
            final(self)@ == without_first(old(self)@, moments(len as nat, channels as nat)),
    {
        let ghost held = self@;
        let mut out: Vec<u32> = Vec::new();
        let mut k: usize = 0;
        let mut place: usize = 0;
        let mut current: u32 = 0;
        let ghost mut taken: nat = 0;
        proof {
            assert(without_first(held, 0) =~= held);
            assert(out@ =~= device_values(held, 0, channels as nat));
        }
        while k < len
            invariant
                k <= len,
                channels > 0,
                self.wf(),
                place <= channels,
                taken == 0 ==> k == 0 && place == 0,
                taken > 0 ==> 0 < place && k == (taken - 1) * channels + place,
                taken > 0 ==> current == (if taken - 1 < held.len() {
                    held[taken - 1]
                } else {
                    0
                }),
                taken == moments(k as nat, channels as nat),
                self@ == without_first(held, taken),
                out@ == device_values(held, k as nat, channels as nat),
            decreases len - k,
        {
            if k == 0 || place == channels {
                let next = ring_pop(&mut self.ring);
                current = match next {
                    Some(x) => x,
                    None => 0,
                };
                place = 0;
                proof {
                    if taken > 0 {
                        assert(taken * channels == (taken - 1) * channels + channels)
                            by (nonlinear_arith);
                    } else {
                        assert(taken * channels == 0) by (nonlinear_arith)
                            requires
                                taken == 0,
                        ;
                    }
                    assert(self@ =~= without_first(held, taken + 1));
                    taken = taken + 1;
                }
            }
            assert(k == (taken - 1) * channels + place);
            proof {
                vstd::arithmetic::div_mod::lemma_fundamental_div_mod_converse(
                    k as int,
                    channels as int,
                    taken - 1,
                    place as int,
                );
            }
            out.push(current);
            proof {
                assert(out@ =~= device_values(held, (k + 1) as nat, channels as nat));
            }
            place = place + 1;
            k = k + 1;
        }
        out
    }
}

/// The buffer never holds more than there is room for.
pub proof fn law_buffer_is_bounded(held: Seq<u32>, cap: nat, samples: Seq<u32>, n: nat)
    requires
        held.len() <= cap,
    ensures
        with_added(held, cap, samples).len() <= cap,
        without_first(held, n).len() <= cap,
{
}

/// What is sent while there is room is played in the order in which it was sent, behind what
/// was there before, and then there is silence.
pub proof fn law_played_in_order(held: Seq<u32>, cap: nat, samples: Seq<u32>, len: nat)
    requires
        held.len() + samples.len() <= cap,
    ensures
        device_values(with_added(held, cap, samples), len, 1) == Seq::new(
            len,
            |k: int|
                if k < held.len() + samples.len() {
                    (held + samples)[k]
                } else {
                    0
                },
        ),
{
    assert(device_values(with_added(held, cap, samples), len, 1) =~= Seq::new(
        len,
        |k: int|
            if k < held.len() + samples.len() {
                (held + samples)[k]
            } else {
                0
            },
    ));
}

/// It makes no difference in how many steps a device asks for its values, as long as it asks
/// for whole moments.
pub proof fn law_steps_play_on(held: Seq<u32>, first: nat, more: nat, channels: nat)
    requires
        channels > 0,
    ensures
        ({
            let a = first * channels;
            device_values(held, a + more, channels) == device_values(held, a, channels)
                + device_values(
                without_first(held, moments(a, channels)),
                more,
                channels,
            )
        }),
{
    let a = first * channels;
    let c = channels as int;
    let rest = without_first(held, moments(a, channels));
    if first > 0 {
        assert(a - 1 == (first - 1) * c + (c - 1) && a >= c) by (nonlinear_arith)
            requires
                a == first * c,
                first > 0,
                c > 0,
        ;
        vstd::arithmetic::div_mod::lemma_fundamental_div_mod_converse(
            a - 1,
            c,
            first - 1,
            c - 1,
        );
    } else {
        assert(a == 0) by (nonlinear_arith)
            requires
                a == first * c,
                first == 0,
        ;
    }
    assert(moments(a, channels) == first);
    let whole = device_values(held, a + more, channels);
    let parts = device_values(held, a, channels) + device_values(rest, more, channels);
    assert forall|k: int| 0 <= k < a + more implies #[trigger] whole[k] == parts[k] by {
        if k >= a {
            let j = k - a;
            vstd::arithmetic::div_mod::lemma_fundamental_div_mod(j, c);
            vstd::arithmetic::div_mod::lemma_mod_pos_bound(j, c);
            assert(k == (first + j / c) * c + j % c) by (nonlinear_arith)
                requires
                    k == first * c + j,
                    j == c * (j / c) + j % c,
            ;
            vstd::arithmetic::div_mod::lemma_fundamental_div_mod_converse(
                k,
                c,
                first + j / c,
                j % c,
            );
            vstd::arithmetic::div_mod::lemma_div_pos_is_pos(j, c);
        }
    }
    assert(whole =~= parts);
}

/// All channels of a device have the same sample at the same moment.
pub proof fn law_channels_agree(held: Seq<u32>, len: nat, channels: nat, moment: nat, a: nat, b: nat)
    requires
        a < channels,
        b < channels,
        moment * channels + a < len,
        moment * channels + b < len,
    ensures
        device_values(held, len, channels)[(moment * channels + a) as int] == device_values(
            held,
            len,
            channels,
        )[(moment * channels + b) as int],
{
    let c = channels as int;
    vstd::arithmetic::div_mod::lemma_fundamental_div_mod_converse(
        moment * c + a,
        c,
        moment as int,
        a as int,
    );
    vstd::arithmetic::div_mod::lemma_fundamental_div_mod_converse(
        moment * c + b,
        c,
        moment as int,
        b as int,
    );
}

}
