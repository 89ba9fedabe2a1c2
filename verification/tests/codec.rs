use half::f16;
use replay_codec::{compress_replay_frames, decompress_replay_frames, ReplayFrame};

fn frame_from_floats(delta: u32, x: f32, y: f32, button_state: i8) -> ReplayFrame {
    ReplayFrame {
        delta,
        x_bits: f16::from_f32(x).to_bits(),
        y_bits: f16::from_f32(y).to_bits(),
        button_state,
    }
}

#[test]
fn replay_compression() {
    let frames = vec![
        frame_from_floats(21, 985.52001, 570.52001, 1),
        frame_from_floats(256, 557.98850, 654.45578, 4),
        frame_from_floats(1024, 558.99999, 104.99996, 16),
    ];

    let compressed = compress_replay_frames(frames);
    let decompressed = decompress_replay_frames(compressed);

    println!("{:?}", decompressed);
}

#[test]
fn round_trip_exact_fields() {
    let frames = vec![
        frame_from_floats(0, 0.0, 0.0, 0),
        frame_from_floats(21, 985.52001, 570.52001, 1),
        frame_from_floats(2047, -1.5, 65504.0, 31),
        frame_from_floats(256, 557.98850, 654.45578, 4),
        frame_from_floats(1024, 558.99999, 104.99996, 16),
    ];

    let decoded = decompress_replay_frames(compress_replay_frames(frames.clone()));
    assert_eq!(decoded.len(), frames.len());
    for (original, back) in frames.iter().zip(decoded.iter()) {
        assert_eq!(back.delta, original.delta);
        assert_eq!(back.button_state, original.button_state);
        assert_eq!(back.x_bits, original.x_bits);
        assert_eq!(back.y_bits, original.y_bits);
        // The coordinate that comes back is the half-precision rounding of
        // the coordinate that went in.
        let x_in = f16::from_bits(original.x_bits).to_f32();
        let x_out = f16::from_bits(back.x_bits).to_f32();
        assert_eq!(x_out, x_in);
    }
}

#[test]
fn size_law() {
    for n in 0..10usize {
        let frames = vec![frame_from_floats(7, 1.0, 2.0, 3); n];
        assert_eq!(compress_replay_frames(frames).len(), 6 * n);
    }
    for len in 0..30usize {
        let buffer = vec![0xabu8; len];
        assert_eq!(decompress_replay_frames(buffer).len(), len / 6);
    }
}

#[test]
fn empty_input() {
    assert_eq!(compress_replay_frames(Vec::new()), Vec::<u8>::new());
    assert_eq!(decompress_replay_frames(Vec::new()), Vec::<ReplayFrame>::new());
}

#[test]
fn truncation_boundary() {
    // A delta of 2048 needs 12 bits; only the low 11 reach the wire, so it
    // stores as 0 and the neighbouring button field is untouched.
    let frame = frame_from_floats(2048, 3.25, -7.5, 5);
    let bytes = compress_replay_frames(vec![frame]);
    assert_eq!(bytes.len(), 6);
    let word = u16::from_le_bytes([bytes[0], bytes[1]]);
    assert_eq!(word & 0x7ff, 0);
    assert_eq!(word >> 11, 5);

    let decoded = decompress_replay_frames(bytes);
    assert_eq!(decoded[0].delta, 0);
    assert_eq!(decoded[0].button_state, 5);
    assert_eq!(decoded[0].x_bits, frame.x_bits);
    assert_eq!(decoded[0].y_bits, frame.y_bits);
}

#[test]
fn trailing_byte_tolerance() {
    let frames = vec![
        frame_from_floats(10, 1.0, 2.0, 1),
        frame_from_floats(20, 3.0, 4.0, 2),
    ];
    let exact = compress_replay_frames(frames.clone());
    let expected = decompress_replay_frames(exact.clone());
    for k in 1..=5usize {
        let mut padded = exact.clone();
        for extra in 0..k {
            padded.push(0x80 + extra as u8);
        }
        let decoded = decompress_replay_frames(padded);
        assert_eq!(decoded.len(), frames.len());
        assert_eq!(decoded, expected);
    }
}

#[test]
fn concrete_scenario() {
    let frame = frame_from_floats(21, 985.52, 570.52, 1);
    let bytes = compress_replay_frames(vec![frame]);
    assert_eq!(bytes.len(), 6);
    assert_eq!(u16::from_le_bytes([bytes[0], bytes[1]]), 21 | (1 << 11));
    assert_eq!(u16::from_le_bytes([bytes[0], bytes[1]]), 2069);

    let decoded = decompress_replay_frames(bytes);
    let sample = decoded[0];
    assert_eq!(sample.delta, 21);
    assert_eq!(sample.button_state, 1);
    let x = f16::from_bits(sample.x_bits).to_f32();
    let y = f16::from_bits(sample.y_bits).to_f32();
    assert!((x - 985.52).abs() / 985.52 < 0.005);
    assert!((y - 570.52).abs() / 570.52 < 0.005);
}

#[test]
fn negative_button_and_wide_delta_truncate() {
    // A negative button state keeps only its low 5 bits on the wire and
    // comes back as the unsigned value of those bits, not sign-extended.
    let frame = frame_from_floats(0xffff_ffff, 0.0, 0.0, -1);
    let decoded = decompress_replay_frames(compress_replay_frames(vec![frame]));
    assert_eq!(decoded[0].delta, 0x7ff);
    assert_eq!(decoded[0].button_state, 31);
}

#[test]
fn empty_frame_is_zero() {
    let frame = ReplayFrame::empty();
    assert_eq!(frame.delta, 0);
    assert_eq!(frame.x_bits, 0);
    assert_eq!(frame.y_bits, 0);
    assert_eq!(frame.button_state, 0);
    assert_eq!(compress_replay_frames(vec![frame]), vec![0u8; 6]);
}
