//! The most recent samples of the speaker, kept as the reference of their voice.
use crate::json::{empty_object, json_parsed, json_text, json_to_text, set_string, JsonModel};
use crate::wav::{build_wav, wav_file};
use std::collections::VecDeque;
use vstd::prelude::*;

verus! {

/// The last `cap` samples of `s`, or all of them if there are no more.
pub open spec fn latest(s: Seq<i16>, cap: nat) -> Seq<i16> {
    if s.len() <= cap {
        s
    } else {
        s.skip(s.len() - cap)
    }
}

/// The seconds of speech that are kept.
pub const WINDOW_SEC: u32 = 6;

/// The number of samples that are kept at `sr` samples a second.
pub fn window_samples(sr: u32) -> (r: u64)
    ensures
        r == sr * WINDOW_SEC,
{
    sr as u64 * 6
}

/// The most recent samples, the oldest first.
pub struct SpeakerBuffer {
    buf: VecDeque<i16>,
}

impl View for SpeakerBuffer {
    type V = Seq<i16>;

    closed spec fn view(&self) -> Seq<i16> {
        self.buf@
    }
}

impl SpeakerBuffer {
    /// No samples.
    pub fn new() -> (r: Self)
        ensures
            r@ == Seq::<i16>::empty(),
    {
        SpeakerBuffer { buf: VecDeque::new() }
    }

    /// Adds samples, then drops the oldest ones until at most `cap` are left.
    pub fn append(&mut self, pcm: &Vec<i16>, cap: u64)
        ensures
            final(self)@ == latest(old(self)@ + pcm@, cap as nat),
    {
        let mut i: usize = 0;
        while i < pcm.len()
            invariant
                i <= pcm@.len(),
                self.buf@ == old(self).buf@ + pcm@.take(i as int),
            decreases pcm@.len() - i,
        {
            self.buf.push_back(pcm[i]);
            proof {
                assert(self.buf@ =~= old(self).buf@ + pcm@.take(i + 1));
            }
            i = i + 1;
        }
        let ghost all = old(self)@ + pcm@;
        proof {
            assert(pcm@.take(pcm@.len() as int) =~= pcm@);
            assert(self.buf@ =~= all.skip(0));
        }
        while self.buf.len() as u64 > cap
            invariant
                self.buf@.len() <= all.len(),
                self.buf@ == all.skip(all.len() - self.buf@.len()),
                self.buf@.len() < all.len() ==> self.buf@.len() >= cap,
            decreases self.buf@.len(),
        {
            let _ = self.buf.pop_front();
            proof {
                assert(self.buf@ =~= all.skip(all.len() - self.buf@.len()));
            }
        }
        proof {
            assert(self.buf@ =~= latest(all, cap as nat));
        }
    }

    /// The samples held, the oldest first.
    pub fn samples(&self) -> (r: Vec<i16>)
        ensures
            r@ == self@,
    {
        let mut out: Vec<i16> = Vec::new();
        let mut i: usize = 0;
        while i < self.buf.len()
            invariant
                i <= self.buf@.len(),
                out@ == self.buf@.take(i as int),
            decreases self.buf@.len() - i,
        {
            out.push(self.buf[i]);
            proof {
                assert(out@ =~= self.buf@.take(i + 1));
            }
            i = i + 1;
        }
        assert(self.buf@.take(self.buf@.len() as int) =~= self.buf@);
        out
    }
}

/// What is answered to a request for the samples held.
pub enum Snapshot {
    /// There are none yet: a bad request, with a JSON body that says so.
    NoAudio(String),
    /// A WAV file of them.
    Wav(Vec<u8>),
}

/// The body of the refusal where no samples are held.
pub open spec fn no_audio_body() -> JsonModel {
    JsonModel::Object(
        Map::empty().insert("error"@, JsonModel::Text("no_speaker_audio"@)).insert(
            "message"@,
            JsonModel::Text(
                "No speaker audio captured yet. Please start recording and speak first."@,
            ),
        ),
    )
}

/// A WAV file of the samples held, or the refusal if there are none.
pub fn speaker_snapshot(held: &SpeakerBuffer, sr: u32) -> (r: Snapshot)
    requires
        held@.len() == 0 || sr * 16 <= u32::MAX,
    ensures
        match r {
            Snapshot::NoAudio(body) => held@.len() == 0 && body@ == json_text(no_audio_body())
                && json_parsed(body@) == Some(no_audio_body()),
            Snapshot::Wav(file) => held@.len() > 0 && file@ == wav_file(sr as nat, held@),
        },
{
    let pcm = held.samples();
    if pcm.len() == 0 {
        let mut v = empty_object();
        set_string(&mut v, "error", "no_speaker_audio");
        set_string(
            &mut v,
            "message",
            "No speaker audio captured yet. Please start recording and speak first.",
        );
        Snapshot::NoAudio(json_to_text(&v))
    } else {
        Snapshot::Wav(build_wav(sr, &pcm))
    }
}

/// Adding samples in two steps leaves what adding them at once would leave: the buffer always
/// holds the last samples of all that were ever added.
pub proof fn law_latest_of_all(held: Seq<i16>, a: Seq<i16>, b: Seq<i16>, cap: nat)
    ensures
        latest(latest(held + a, cap) + b, cap) == latest(held + (a + b), cap),
        latest(held + a, cap).len() <= cap,
{
    assert(latest(latest(held + a, cap) + b, cap) =~= latest(held + (a + b), cap));
}

}
