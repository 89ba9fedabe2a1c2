//! A fixed-size binary codec for input-replay samples.
//!
//! Each sample carries a time delta, two cursor coordinates stored as
//! half-precision (binary16) bit patterns, and a button-state flag set.
//! A sample packs into exactly 6 bytes: a little-endian 16-bit word
//! holding the 11-bit time delta and the 5-bit button field, followed by
//! the two 16-bit coordinate bit patterns, each little-endian.

use vstd::prelude::*;

verus! {

/// One replay sample. The coordinates are kept as raw binary16 bit
/// patterns; converting them to and from wider floating-point values is
/// the caller's business.
#[derive(Clone, Copy, Debug, PartialEq, Eq, Structural)]
pub struct ReplayFrame {
    /// Milliseconds (or ticks) since the previous sample; only the low
    /// 11 bits survive encoding.
    pub delta: u32,
    /// binary16 bit pattern of the x coordinate.
    pub x_bits: u16,
    /// binary16 bit pattern of the y coordinate.
    pub y_bits: u16,
    /// Bitmask of pressed buttons; only the low 5 bits survive encoding.
    pub button_state: i8,
}

impl ReplayFrame {
    /// The all-zero sample.
    pub fn empty() -> (f: ReplayFrame)
        ensures
            f.delta == 0,
            f.x_bits == 0,
            f.y_bits == 0,
            f.button_state == 0,
    {
        ReplayFrame { delta: 0, x_bits: 0, y_bits: 0, button_state: 0 }
    }
}

/// Low byte of a 16-bit word.
pub open spec fn lo_byte(w: u16) -> u8 {
    (w & 0xff) as u8
}

/// High byte of a 16-bit word.
pub open spec fn hi_byte(w: u16) -> u8 {
    (w >> 8) as u8
}

/// The 16-bit word stored little-endian as `lo`, `hi`.
pub open spec fn word_from_bytes(lo: u8, hi: u8) -> u16 {
    (lo as u16) | ((hi as u16) << 8)
}

/// The button state reduced to the 5 bits that the wire format keeps.
pub open spec fn button_field(b: i8) -> u16 {
    (b as u16) & 0x1f
}

/// The first word of a record: low 11 bits hold the time delta, high 5
/// bits hold the button field.
pub open spec fn packed_word(f: ReplayFrame) -> u16 {
    ((f.delta & 0x7ff) as u16) | (button_field(f.button_state) << 11)
}

/// The 6 wire bytes of one sample: the packed delta/button word, then
/// the x bits, then the y bits, each little-endian.
pub open spec fn record_bytes(f: ReplayFrame) -> Seq<u8> {
    seq![
        lo_byte(packed_word(f)),
        hi_byte(packed_word(f)),
        lo_byte(f.x_bits),
        hi_byte(f.x_bits),
        lo_byte(f.y_bits),
        hi_byte(f.y_bits),
    ]
}

/// The wire form of a sample sequence: its records, concatenated in order.
pub open spec fn encode_spec(s: Seq<ReplayFrame>) -> Seq<u8>
    decreases s.len(),
{
    if s.len() == 0 {
        Seq::empty()
    } else {
        encode_spec(s.drop_last()) + record_bytes(s.last())
    }
}

/// The sample read back from the 6 bytes of one record.
pub open spec fn decode_one(b0: u8, b1: u8, b2: u8, b3: u8, b4: u8, b5: u8) -> ReplayFrame {
    let w = word_from_bytes(b0, b1);
    ReplayFrame {
        delta: (w & 0x7ff) as u32,
        x_bits: word_from_bytes(b2, b3),
        y_bits: word_from_bytes(b4, b5),
        button_state: (w >> 11) as i8,
    }
}

/// The samples read back from a byte buffer: one per full 6-byte record,
/// trailing bytes ignored.
pub open spec fn decode_spec(b: Seq<u8>) -> Seq<ReplayFrame> {
    Seq::new(
        b.len() / 6,
        |i: int| decode_one(b[6 * i], b[6 * i + 1], b[6 * i + 2], b[6 * i + 3], b[6 * i + 4], b[6 * i + 5]),
    )
}

/// The wire format holds 6 bytes per sample.
pub proof fn lemma_encode_len(s: Seq<ReplayFrame>)
    ensures
        encode_spec(s).len() == 6 * s.len(),
    decreases s.len(),
{
    if s.len() > 0 {
        lemma_encode_len(s.drop_last());
    }
}

/// Packs a sequence of samples into a flat buffer of 6-byte records,
/// concatenated in input order. Never fails: a delta wider than 11 bits
/// and a button state wider than 5 bits are silently truncated on the wire.
pub fn compress_replay_frames(frames: Vec<ReplayFrame>) -> (data: Vec<u8>)
    ensures
        data@ == encode_spec(frames@),
        data@.len() == 6 * frames@.len(),
{
    let mut data: Vec<u8> = Vec::new();
    let mut index: usize = 0;
    proof {
        assert(frames@.take(0) =~= Seq::<ReplayFrame>::empty());
    }
    while index < frames.len()
        invariant
            index <= frames@.len(),
            data@ == encode_spec(frames@.take(index as int)),
            data@.len() == 6 * index,
        decreases frames@.len() - index,
    {
        let frame = frames[index];
        let bf: u16 = #[verifier::truncate] (frame.button_state as u16);
        let delta_button: u16 = ((frame.delta & 0x7ff) as u16) | ((bf & 0x1f) << 11);
        assert(delta_button == packed_word(frame));

        data.push(#[verifier::truncate] ((delta_button & 0xff) as u8));
        data.push(#[verifier::truncate] ((delta_button >> 8) as u8));
        data.push(#[verifier::truncate] ((frame.x_bits & 0xff) as u8));
        data.push(#[verifier::truncate] ((frame.x_bits >> 8) as u8));
        data.push(#[verifier::truncate] ((frame.y_bits & 0xff) as u8));
        data.push(#[verifier::truncate] ((frame.y_bits >> 8) as u8));

        proof {
            let s = frames@;
            let i = index as int;
            assert(s.take(i + 1).drop_last() =~= s.take(i));
            assert(s.take(i + 1).last() == s[i]);
            assert(data@ =~= encode_spec(s.take(i)) + record_bytes(s[i]));
            assert(data@ == encode_spec(s.take(i + 1)));
        }
        index += 1;
    }
    proof {
        assert(frames@.take(frames@.len() as int) =~= frames@);
    }
    data
}

/// Unpacks a flat buffer of 6-byte records into samples. Never fails:
/// one sample per full record, any trailing 1 to 5 bytes ignored.
pub fn decompress_replay_frames(data: Vec<u8>) -> (frames: Vec<ReplayFrame>)
    ensures
        frames@ == decode_spec(data@),
        frames@.len() == data@.len() / 6,
{
    let length: usize = data.len() / 6;
    proof {
        vstd::arithmetic::div_mod::lemma_fundamental_div_mod(data@.len() as int, 6);
    }
    let mut frames: Vec<ReplayFrame> = Vec::new();
    let mut i: usize = 0;
    while i < length
        invariant
            length == data@.len() / 6,
            6 * length <= data@.len(),
            data@.len() == data.len(),
            i <= length,
            frames@.len() == i,
            forall|j: int| 0 <= j < i ==> frames@[j] == decode_spec(data@)[j],
        decreases length - i,
    {
        let offset: usize = i * 6;
        let b0 = data[offset];
        let b1 = data[offset + 1];
        let b2 = data[offset + 2];
        let b3 = data[offset + 3];
        let b4 = data[offset + 4];
        let b5 = data[offset + 5];
        let w: u16 = (b0 as u16) | ((b1 as u16) << 8);
        proof {
            assert(w >> 11 < 32) by (bit_vector);
        }
        let frame = ReplayFrame {
            delta: (w & 0x7ff) as u32,
            x_bits: (b2 as u16) | ((b3 as u16) << 8),
            y_bits: (b4 as u16) | ((b5 as u16) << 8),
            button_state: (w >> 11) as i8,
        };
        frames.push(frame);
        proof {
            assert(frame == decode_one(b0, b1, b2, b3, b4, b5));
        }
        i += 1;
    }
    proof {
        assert(frames@ =~= decode_spec(data@));
    }
    frames
}

/// A sample with its delta and button state reduced to the bits that the
/// wire format keeps. Encoding then decoding yields exactly this sample.
pub open spec fn normalize(f: ReplayFrame) -> ReplayFrame {
    ReplayFrame {
        delta: f.delta & 0x7ff,
        x_bits: f.x_bits,
        y_bits: f.y_bits,
        button_state: button_field(f.button_state) as i8,
    }
}

/// Splitting a word into little-endian bytes and rejoining them is the identity.
proof fn lemma_word_bytes(w: u16)
    ensures
        word_from_bytes(lo_byte(w), hi_byte(w)) == w,
{
    assert((((w & 0xff) as u8) as u16) | (((((w >> 8) as u8)) as u16) << 8) == w) by (bit_vector);
}

/// The two fields read back from a packed word are the masked delta and
/// the 5-bit button field: packing one field never disturbs the other.
proof fn lemma_pack_fields(d: u32, b: i8)
    ensures
        ((((d & 0x7ff) as u16) | (((b as u16) & 0x1f) << 11)) & 0x7ff) as u32 == d & 0x7ff,
        ((((d & 0x7ff) as u16) | (((b as u16) & 0x1f) << 11)) >> 11) as i8 == ((b as u16) & 0x1f) as i8,
{
    assert(((((d & 0x7ff) as u16) | (((b as u16) & 0x1f) << 11)) & 0x7ff) as u32 == d & 0x7ff)
        by (bit_vector);
    assert(((((d & 0x7ff) as u16) | (((b as u16) & 0x1f) << 11)) >> 11) as i8 == ((b as u16)
        & 0x1f) as i8) by (bit_vector);
}

/// Decoding the 6 wire bytes of any sample yields that sample with its
/// delta and button state masked; the coordinate bits come back exactly.
pub proof fn lemma_record_round_trip(f: ReplayFrame)
    ensures
        ({
            let b = record_bytes(f);
            decode_one(b[0], b[1], b[2], b[3], b[4], b[5]) == normalize(f)
        }),
{
    lemma_word_bytes(packed_word(f));
    lemma_word_bytes(f.x_bits);
    lemma_word_bytes(f.y_bits);
    lemma_pack_fields(f.delta, f.button_state);
}

/// Byte `6*i + k` of the wire form is byte `k` of sample `i`'s record.
proof fn lemma_encode_index(s: Seq<ReplayFrame>, i: int, k: int)
    requires
        0 <= i < s.len(),
        0 <= k < 6,
    ensures
        encode_spec(s)[6 * i + k] == record_bytes(s[i])[k],
    decreases s.len(),
{
    lemma_encode_len(s.drop_last());
    if i == s.len() - 1 {
    } else {
        lemma_encode_index(s.drop_last(), i, k);
    }
}

/// Decoding an encoded sequence yields the sequence itself, sample by
/// sample, with each delta and button state reduced to its wire bits:
/// only the low 11 bits of a delta and the low 5 bits of a button state
/// reach the wire, and no field ever bleeds into a neighbouring one.
pub proof fn lemma_round_trip_normalized(s: Seq<ReplayFrame>)
    ensures
        decode_spec(encode_spec(s)) == s.map_values(|f: ReplayFrame| normalize(f)),
{
    lemma_encode_len(s);
    let e = encode_spec(s);
    assert(e.len() / 6 == s.len()) by {
        vstd::arithmetic::div_mod::lemma_div_multiples_vanish(s.len() as int, 6);
    }
    assert forall|i: int| 0 <= i < s.len() implies decode_spec(e)[i] == normalize(s[i]) by {
        lemma_encode_index(s, i, 0);
        lemma_encode_index(s, i, 1);
        lemma_encode_index(s, i, 2);
        lemma_encode_index(s, i, 3);
        lemma_encode_index(s, i, 4);
        lemma_encode_index(s, i, 5);
        lemma_record_round_trip(s[i]);
    }
    assert(decode_spec(e) =~= s.map_values(|f: ReplayFrame| normalize(f)));
}

/// A sample whose delta fits in 11 bits and whose button state fits in
/// 5 bits is already in wire form.
proof fn lemma_normalize_in_range(f: ReplayFrame)
    requires
        f.delta < 2048,
        0 <= f.button_state < 32,
    ensures
        normalize(f) == f,
{
    let d = f.delta;
    let b = f.button_state;
    assert(d & 0x7ff == d) by (bit_vector)
        requires
            d < 2048,
    ;
    assert(((b as u16) & 0x1f) as i8 == b) by (bit_vector)
        requires
            0 <= b < 32,
    ;
}

/// Round trip: a sequence of samples whose deltas fit in 11 bits and
/// whose button states fit in 5 bits decodes back from its wire form
/// exactly, coordinate bit patterns included.
pub proof fn lemma_round_trip(s: Seq<ReplayFrame>)
    requires
        forall|i: int| 0 <= i < s.len() ==> (#[trigger] s[i]).delta < 2048
            && 0 <= s[i].button_state < 32,
    ensures
        decode_spec(encode_spec(s)) == s,
{
    lemma_round_trip_normalized(s);
    assert forall|i: int| 0 <= i < s.len() implies s.map_values(|f: ReplayFrame| normalize(f))[i]
        == s[i] by {
        lemma_normalize_in_range(s[i]);
    }
    assert(s.map_values(|f: ReplayFrame| normalize(f)) =~= s);
}

} // verus!
