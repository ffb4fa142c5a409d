use chameleon_voice::playout::{
    decode_frame, is_greeting, pick_by_lower_names, pick_output_device, stream_plan, DeviceFormat,
    FrameReader, Playout, ReadStep, ValueFormat, Why, BYTES_PER_FRAME, CHANNELS, FRAME_SAMPLES, GREETING_LEN, RING_SAMPLES, SR,
};

fn names(v: &[&str]) -> Vec<String> {
    v.iter().map(|s| s.to_string()).collect()
}

fn pick(v: &[&str], asked: &str) -> Option<(usize, Why)> {
    pick_output_device(&names(v), asked).map(|p| (p.index, p.why))
}

#[test]
fn virtual_devices_are_preferred() {
    assert!(pick(&["Speakers", "CABLE Input (VB)"], "") == Some((1, Why::Preferred)));
    for n in ["VB-Audio", "BlackHole 2ch", "Loopback", "snd-aloop", "Monitor of x", "Null"] {
        assert!(pick(&["a", n, "null"], "") == Some((1, Why::Preferred)), "{}", n);
    }
}

#[test]
fn a_device_that_is_asked_for_is_picked() {
    assert!(pick(&["Speakers", "My HEADSET"], "Headset") == Some((1, Why::Asked)));
    assert!(pick(&["Loopback"], "loop") == Some((0, Why::Asked)));
    assert!(pick(&["\u{c9}couteurs"], "\u{c9}COUT") == Some((0, Why::Asked)));
}

#[test]
fn the_first_fitting_device_is_picked() {
    assert!(pick(&["Loopback", "Headset"], "headset") == Some((0, Why::Preferred)));
    assert!(pick(&["a", "b"], "c") == Some((0, Why::First)));
    assert!(pick(&[], "c").is_none());
    let low = pick_by_lower_names(&names(&["LOOPBACK"]), "").unwrap();
    assert!(low.why == Why::First);
}

#[test]
fn sizes_follow_the_rate() {
    assert_eq!(FRAME_SAMPLES, SR as usize * 20 / 1000);
    assert_eq!(BYTES_PER_FRAME, FRAME_SAMPLES * 4);
    assert_eq!(RING_SAMPLES, SR as usize / 5 * CHANNELS as usize);
}

#[test]
fn senders_introduce_themselves() {
    assert_eq!(GREETING_LEN, b"PCM48K_F32LE_MONO\n".len());
    assert!(is_greeting(&b"PCM48K_F32LE_MONO\n".to_vec()));
    assert!(!is_greeting(&b"PCM48K_F32LE_MONO\0".to_vec()));
    assert!(!is_greeting(&b"PCM48K_F32LE_MONO".to_vec()));
    assert!(!is_greeting(&Vec::new()));
}

#[test]
fn frames_are_read_in_pieces() {
    let mut r = FrameReader::new();
    assert_eq!(r.position(), 0);
    assert!(r.accept(1000) == ReadStep::More);
    assert_eq!(r.position(), 1000);
    assert!(r.accept(2839) == ReadStep::More);
    assert!(r.accept(1) == ReadStep::Whole);
    assert_eq!(r.position(), 0);
    assert!(r.accept(3840) == ReadStep::Whole);
    assert!(r.accept(5) == ReadStep::More);
    assert!(r.accept(0) == ReadStep::Closed);
}

#[test]
fn samples_are_the_patterns_of_floats() {
    let mut bytes: Vec<u8> = Vec::new();
    for i in 0..FRAME_SAMPLES {
        bytes.extend_from_slice(&(i as f32 / 960.0 - 0.5).to_le_bytes());
    }
    let samples = decode_frame(&bytes);
    assert_eq!(samples.len(), FRAME_SAMPLES);
    for i in 0..FRAME_SAMPLES {
        assert_eq!(f32::from_bits(samples[i]), i as f32 / 960.0 - 0.5);
    }
}

#[test]
fn samples_are_played_in_order_then_silence() {
    let mut p = Playout::new();
    p.push_frame(&vec![1, 2, 3]);
    p.push_frame(&vec![4]);
    assert_eq!(p.render(2, 1), [1, 2]);
    assert_eq!(p.render(4, 1), [3, 4, 0, 0]);
    assert!(p.render(0, 1).is_empty());
}

#[test]
fn all_channels_play_the_same() {
    let mut p = Playout::new();
    p.push_frame(&vec![1, 2, 3, 4]);
    assert_eq!(p.render(4, 2), [1, 1, 2, 2]);
    assert_eq!(p.render(5, 3), [3, 3, 3, 4, 4]);
    assert_eq!(p.render(2, 2), [0, 0]);
}

#[test]
fn samples_without_room_are_lost() {
    let mut p = Playout::new();
    let many: Vec<u32> = (0..RING_SAMPLES as u32 + 5).collect();
    p.push_frame(&many);
    p.push_frame(&vec![7]);
    let out = p.render(RING_SAMPLES + 1, 1);
    assert_eq!(out[..RING_SAMPLES], many[..RING_SAMPLES]);
    assert_eq!(out[RING_SAMPLES], 0);
    p.push_frame(&vec![7]);
    assert_eq!(p.render(1, 1), [7]);
}

#[test]
fn the_steps_of_a_device_make_no_difference() {
    for first in 0..4 {
        let mut once = Playout::new();
        let mut twice = Playout::new();
        once.push_frame(&vec![1, 2, 3]);
        twice.push_frame(&vec![1, 2, 3]);
        let whole = once.render(9, 2);
        let mut parts = twice.render(first * 2, 2);
        parts.extend(twice.render(9 - first * 2, 2));
        assert_eq!(whole, parts);
    }
}

#[test]
fn the_pieces_of_the_frames_make_no_difference() {
    for step in [1usize, 7, 100, 959, 3839, 3840] {
        let mut r = FrameReader::new();
        let mut frames = 0;
        let mut total = 0;
        for _ in 0..9000 {
            let n = step.min(BYTES_PER_FRAME - r.position());
            total += n;
            if r.accept(n) == ReadStep::Whole {
                frames += 1;
            }
            assert_eq!(frames, total / BYTES_PER_FRAME);
            assert_eq!(r.position(), total % BYTES_PER_FRAME);
        }
    }
}

#[test]
fn a_stream_takes_the_settings_of_the_device() {
    let p = stream_plan(DeviceFormat::I16, 2, 44_100);
    assert_eq!((p.channels, p.rate, p.rate_differs, p.fallback), (2, 44_100, true, false));
    assert!(p.format == ValueFormat::I16);
    let p = stream_plan(DeviceFormat::U16, 6, 48_000);
    assert_eq!((p.channels, p.rate, p.rate_differs, p.fallback), (6, 48_000, false, false));
    assert!(p.format == ValueFormat::U16);
    assert!(stream_plan(DeviceFormat::F32, 2, 48_000).format == ValueFormat::F32);
}

#[test]
fn a_device_of_another_format_gets_the_samples_as_they_come() {
    let p = stream_plan(DeviceFormat::Other, 6, 96_000);
    assert_eq!((p.channels, p.rate, p.rate_differs, p.fallback), (1, 48_000, true, true));
    assert!(p.format == ValueFormat::F32);
}
