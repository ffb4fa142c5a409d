use chameleon_voice::speaker::{speaker_snapshot, window_samples, Snapshot, SpeakerBuffer};
use chameleon_voice::wav::{build_wav, decode_pcm, encode_pcm, join_wav};

#[test]
fn samples_are_two_bytes_the_low_one_first() {
    assert_eq!(encode_pcm(&vec![1, -1, 256, i16::MIN, i16::MAX]), [
        1, 0, 255, 255, 0, 1, 0, 128, 255, 127
    ]);
    assert_eq!(decode_pcm(&vec![1, 0, 255, 255, 0, 1, 0, 128, 255, 127]), [
        1, -1, 256, i16::MIN, i16::MAX
    ]);
}

#[test]
fn samples_are_read_back() {
    let all: Vec<i16> = (i16::MIN..=i16::MAX).collect();
    assert_eq!(decode_pcm(&encode_pcm(&all)), all);
    let bytes: Vec<u8> = (0..=255u8).collect();
    assert_eq!(encode_pcm(&decode_pcm(&bytes)), bytes);
}

#[test]
fn a_wav_file_has_its_header() {
    let wav = build_wav(16_000, &vec![1, -2]);
    let mut want: Vec<u8> = Vec::new();
    want.extend_from_slice(b"RIFF");
    want.extend_from_slice(&40u32.to_le_bytes());
    want.extend_from_slice(b"WAVEfmt ");
    want.extend_from_slice(&16u32.to_le_bytes());
    want.extend_from_slice(&1u16.to_le_bytes());
    want.extend_from_slice(&1u16.to_le_bytes());
    want.extend_from_slice(&16_000u32.to_le_bytes());
    want.extend_from_slice(&32_000u32.to_le_bytes());
    want.extend_from_slice(&2u16.to_le_bytes());
    want.extend_from_slice(&16u16.to_le_bytes());
    want.extend_from_slice(b"data");
    want.extend_from_slice(&4u32.to_le_bytes());
    want.extend_from_slice(&[1, 0, 254, 255]);
    assert_eq!(wav, want);
    assert_eq!(build_wav(48_000, &vec![]).len(), 44);
}

#[test]
fn joined_files_play_on() {
    let a = build_wav(16_000, &vec![1, 2]);
    let b = build_wav(16_000, &vec![3]);
    let c = build_wav(16_000, &vec![4, 5]);
    let mut acc: Vec<u8> = Vec::new();
    join_wav(&mut acc, &a, true);
    join_wav(&mut acc, &b, false);
    join_wav(&mut acc, &c, false);
    assert_eq!(acc[..44], a[..44]);
    assert_eq!(decode_pcm(&acc[44..].to_vec()), [1, 2, 3, 4, 5]);
}

#[test]
fn short_files_are_joined_whole() {
    let mut acc: Vec<u8> = vec![9];
    join_wav(&mut acc, &vec![1, 2], false);
    assert_eq!(acc, [9, 1, 2]);
    let header = build_wav(16_000, &vec![]);
    join_wav(&mut acc, &header, false);
    assert_eq!(acc.len(), 3 + 44);
}

#[test]
fn the_latest_samples_are_kept() {
    let mut b = SpeakerBuffer::new();
    assert!(b.samples().is_empty());
    b.append(&vec![1, 2, 3], 5);
    b.append(&vec![4, 5, 6, 7], 5);
    assert_eq!(b.samples(), [3, 4, 5, 6, 7]);
    let mut once = SpeakerBuffer::new();
    once.append(&vec![1, 2, 3, 4, 5, 6, 7], 5);
    assert_eq!(once.samples(), b.samples());
    b.append(&vec![], 2);
    assert_eq!(b.samples(), [6, 7]);
    b.append(&vec![8], 0);
    assert!(b.samples().is_empty());
}

#[test]
fn six_seconds_of_the_speaker_are_kept() {
    assert_eq!(window_samples(16_000), 96_000);
    assert_eq!(window_samples(u32::MAX), 25_769_803_770);
}

#[test]
fn a_snapshot_is_refused_until_somebody_spoke() {
    let b = SpeakerBuffer::new();
    match speaker_snapshot(&b, 16_000) {
        Snapshot::NoAudio(body) => assert_eq!(
            body,
            "{\"error\":\"no_speaker_audio\",\"message\":\"No speaker audio captured yet. Please start recording and speak first.\"}"
        ),
        Snapshot::Wav(_) => panic!("there are no samples"),
    }
}

#[test]
fn a_snapshot_is_a_wav_file_of_the_samples() {
    let mut b = SpeakerBuffer::new();
    b.append(&vec![5, -5, 6], 2);
    match speaker_snapshot(&b, 8_000) {
        Snapshot::Wav(file) => assert_eq!(file, build_wav(8_000, &vec![-5, 6])),
        Snapshot::NoAudio(_) => panic!("there are samples"),
    }
}
