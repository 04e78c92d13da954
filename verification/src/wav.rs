//! The PCM WAV container: serializing a mono sequence of signed 16-bit
//! samples, and re-parsing such a container back into its samples.
//!
//! The byte layout is the 44-byte header this engine writes
//! (RIFF / WAVE / "fmt " / data chunks, one channel, sixteen bits per
//! sample, little-endian) followed by the raw little-endian sample
//! bytes, with one zero pad byte appended when the sample count is odd
//! so the payload has an even byte count; the data chunk size excludes
//! that pad byte.  Serialization is a pure, total function of the
//! samples and the sample rate, and parsing inverts it exactly.

use vstd::prelude::*;


verus! {

/// The two little-endian bytes of a sixteen-bit value.
pub open spec fn u16_le(v: nat) -> Seq<u8> {
    seq![(v % 256) as u8, ((v / 256) % 256) as u8]
}

/// The four little-endian bytes of a thirty-two-bit value.
pub open spec fn u32_le(v: nat) -> Seq<u8> {
    seq![
        (v % 256) as u8,
        ((v / 256) % 256) as u8,
        ((v / 65536) % 256) as u8,
        ((v / 16777216) % 256) as u8,
    ]
}

/// The two little-endian bytes of a signed sixteen-bit sample, in two's
/// complement.
pub open spec fn i16_le(v: int) -> Seq<u8> {
    u16_le((if v >= 0 { v } else { v + 65536 }) as nat)
}

/// The 44-byte header for a mono, 16-bit PCM stream: the RIFF tag and
/// header size, the WAVE form, the format chunk (PCM, one channel, the
/// sample rate and byte rate, unit block size, sixteen bits per sample),
/// and the data chunk tag with the true sample byte count.
pub open spec fn spec_wav_header(sample_rate: nat, sample_count: nat) -> Seq<u8> {
    seq![82u8, 73u8, 70u8, 70u8] + u32_le(44) + seq![87u8, 65u8, 86u8, 69u8] + seq![
        102u8, 109u8, 116u8, 32u8,
    ] + u32_le(16) + u16_le(1) + u16_le(1) + u32_le(sample_rate) + u32_le(sample_rate * 2)
        + u16_le(1) + u16_le(16) + seq![100u8, 97u8, 116u8, 97u8] + u32_le(sample_count * 2)
}

/// The little-endian bytes of a sample sequence.
pub open spec fn sample_bytes(s: Seq<i16>) -> Seq<u8>
    decreases s.len(),
{
    if s.len() == 0 {
        Seq::<u8>::empty()
    } else {
        sample_bytes(s.drop_last()) + i16_le(s.last() as int)
    }
}

/// The complete container: header, sample bytes, and a zero pad byte
/// when the sample count is odd.
pub open spec fn spec_wav_bytes(s: Seq<i16>, sample_rate: nat) -> Seq<u8> {
    let b = spec_wav_header(sample_rate, s.len()) + sample_bytes(s);
    if s.len() % 2 == 1 {
        b.push(0)
    } else {
        b
    }
}

/// Appends the two little-endian bytes of a sixteen-bit value.
fn push_u16_le(o: &mut Vec<u8>, v: u16)
    ensures
        final(o)@ == old(o)@ + u16_le(v as nat),
{
    o.push((v % 256) as u8);
    o.push((v / 256) as u8);
    proof {
        assert(o@ =~= old(o)@ + u16_le(v as nat));
    }
}

/// Appends the four little-endian bytes of a thirty-two-bit value.
fn push_u32_le(o: &mut Vec<u8>, v: u32)
    ensures
        final(o)@ == old(o)@ + u32_le(v as nat),
{
    o.push((v % 256) as u8);
    o.push(((v / 256) % 256) as u8);
    o.push(((v / 65536) % 256) as u8);
    o.push(((v / 16777216) % 256) as u8);
    proof {
        assert(o@ =~= old(o)@ + u32_le(v as nat));
    }
}

/// Appends a four-byte chunk tag.
fn push_tag(o: &mut Vec<u8>, a: u8, b: u8, c: u8, d: u8)
    ensures
        final(o)@ == old(o)@ + seq![a, b, c, d],
{
    o.push(a);
    o.push(b);
    o.push(c);
    o.push(d);
    proof {
        assert(o@ =~= old(o)@ + seq![a, b, c, d]);
    }
}

/// Appends the 44-byte PCM header for a mono, sixteen-bit stream with
/// the given sample rate and sample count.
pub fn make_wav_header(o: &mut Vec<u8>, sample_rate: usize, sample_count: usize)
    requires
        sample_rate * 2 <= u32::MAX,
        sample_count * 2 <= u32::MAX,
    ensures
        final(o)@ == old(o)@ + spec_wav_header(sample_rate as nat, sample_count as nat),
{
    push_tag(o, 82, 73, 70, 70);
    push_u32_le(o, 44);
    push_tag(o, 87, 65, 86, 69);
    push_tag(o, 102, 109, 116, 32);
    push_u32_le(o, 16);
    push_u16_le(o, 1);
    push_u16_le(o, 1);
    push_u32_le(o, sample_rate as u32);
    push_u32_le(o, (sample_rate * 2) as u32);
    push_u16_le(o, 1);
    push_u16_le(o, 16);
    push_tag(o, 100, 97, 116, 97);
    push_u32_le(o, (sample_count * 2) as u32);
    proof {
        assert(o@ =~= old(o)@ + spec_wav_header(sample_rate as nat, sample_count as nat));
    }
}

/// Serializes samples and a sample rate into a complete WAV container:
/// exactly the header, the little-endian sample bytes, and the pad byte
/// an odd sample count requires.
pub fn raw_audio_to_wav(samples: Vec<i16>, sample_rate: u32) -> (o: Vec<u8>)
    requires
        samples@.len() * 2 <= u32::MAX,
        sample_rate * 2 <= u32::MAX,
    ensures
        o@ == spec_wav_bytes(samples@, sample_rate as nat),
{
    let parity = samples.len() % 2;
    let mut o: Vec<u8> = Vec::new();
    make_wav_header(&mut o, sample_rate as usize, samples.len());
    let ghost header = spec_wav_header(sample_rate as nat, samples@.len());
    let mut i: usize = 0;
    while i < samples.len()
        invariant
            0 <= i <= samples@.len(),
            o@ == header + sample_bytes(samples@.take(i as int)),
        decreases samples@.len() - i,
    {
        let s = samples[i];
        let u: u32 = if s >= 0 {
            s as u32
        } else {
            ((s as i32) + 65536) as u32
        };
        o.push((u % 256) as u8);
        o.push((u / 256) as u8);
        proof {
            assert(samples@.take(i as int + 1).drop_last() =~= samples@.take(i as int));
            assert(samples@.take(i as int + 1).last() == samples@[i as int]);
            assert(u < 65536);
            assert((u / 256) % 256 == u / 256);
            assert(o@ =~= header + sample_bytes(samples@.take(i as int + 1)));
        }
        i = i + 1;
    }
    proof {
        assert(samples@.take(samples@.len() as int) =~= samples@);
    }
    if parity == 1 {
        o.push(0);
    }
    o
}

/// The value of a sixteen-bit little-endian field.
pub open spec fn u16_from_le(b0: u8, b1: u8) -> nat {
    (b0 + 256 * b1) as nat
}

/// The value of a thirty-two-bit little-endian field.
pub open spec fn u32_from_le(b0: u8, b1: u8, b2: u8, b3: u8) -> nat {
    (b0 + 256 * b1 + 65536 * b2 + 16777216 * b3) as nat
}

/// The signed sample a two's-complement little-endian pair stands for.
pub open spec fn i16_from_le(b0: u8, b1: u8) -> int {
    let v = b0 + 256 * b1;
    if v >= 32768 {
        v - 65536
    } else {
        v as int
    }
}

/// The first `count` samples read from a container's data area.
pub open spec fn decoded_samples(b: Seq<u8>, count: nat) -> Seq<i16>
    decreases count,
{
    if count == 0 {
        Seq::<i16>::empty()
    } else {
        decoded_samples(b, (count - 1) as nat).push(
            i16_from_le(b[44 + 2 * (count - 1)], b[45 + 2 * (count - 1)]) as i16,
        )
    }
}

/// Whether a byte sequence begins with the header this engine writes:
/// the four chunk tags and every fixed field, with the byte rate twice
/// the sample rate.
pub open spec fn wav_header_ok(b: Seq<u8>) -> bool {
    &&& b.len() >= 44
    &&& b[0] == 82u8 && b[1] == 73u8 && b[2] == 70u8 && b[3] == 70u8
    &&& u32_from_le(b[4], b[5], b[6], b[7]) == 44
    &&& b[8] == 87u8 && b[9] == 65u8 && b[10] == 86u8 && b[11] == 69u8
    &&& b[12] == 102u8 && b[13] == 109u8 && b[14] == 116u8 && b[15] == 32u8
    &&& u32_from_le(b[16], b[17], b[18], b[19]) == 16
    &&& u16_from_le(b[20], b[21]) == 1
    &&& u16_from_le(b[22], b[23]) == 1
    &&& u32_from_le(b[28], b[29], b[30], b[31]) == 2 * u32_from_le(b[24], b[25], b[26], b[27])
    &&& u16_from_le(b[32], b[33]) == 1
    &&& u16_from_le(b[34], b[35]) == 16
    &&& b[36] == 100u8 && b[37] == 97u8 && b[38] == 116u8 && b[39] == 97u8
}

/// What parsing a container yields: the samples and the sample rate,
/// or nothing when the bytes are not a container this engine writes.
pub open spec fn spec_parse_wav(b: Seq<u8>) -> Option<(Seq<i16>, nat)> {
    if b.len() < 44 {
        None
    } else {
        let rate = u32_from_le(b[24], b[25], b[26], b[27]);
        let dlen = u32_from_le(b[40], b[41], b[42], b[43]);
        let count = dlen / 2;
        if wav_header_ok(b) && dlen % 2 == 0 && b.len() == 44 + dlen + (if count % 2 == 1 {
            1nat
        } else {
            0nat
        }) && (count % 2 == 1 ==> b[b.len() - 1] == 0) {
            Some((decoded_samples(b, count), rate))
        } else {
            None
        }
    }
}

/// Reads a thirty-two-bit little-endian field at an offset.
fn read_u32_le(bytes: &Vec<u8>, at: usize) -> (v: u32)
    requires
        at + 4 <= bytes@.len(),
        bytes@.len() <= usize::MAX,
    ensures
        v == u32_from_le(bytes@[at as int], bytes@[at + 1], bytes@[at + 2], bytes@[at + 3]),
{
    (bytes[at] as u32) + 256 * (bytes[at + 1] as u32) + 65536 * (bytes[at + 2] as u32)
        + 16777216 * (bytes[at + 3] as u32)
}

/// Reads a sixteen-bit little-endian field at an offset.
fn read_u16_le(bytes: &Vec<u8>, at: usize) -> (v: u16)
    requires
        at + 2 <= bytes@.len(),
        bytes@.len() <= usize::MAX,
    ensures
        v == u16_from_le(bytes@[at as int], bytes@[at + 1]),
{
    (bytes[at] as u16) + 256 * (bytes[at + 1] as u16)
}

/// Parses a WAV container produced by this engine back into its samples
/// and sample rate.  Exactly the containers this engine writes are
/// accepted, and what is returned is exactly what was encoded.
pub fn parse_wav(bytes: &Vec<u8>) -> (r: Option<(Vec<i16>, u32)>)
    ensures
        r is Some <==> spec_parse_wav(bytes@) is Some,
        r is Some ==> spec_parse_wav(bytes@) == Some(
            (r->Some_0.0@, r->Some_0.1 as nat),
        ),
{
    let n = bytes.len();
    if n < 44 {
        return None;
    }
    proof {
        assert(bytes@.len() <= usize::MAX);
    }
    let tags_ok = bytes[0] == 82 && bytes[1] == 73 && bytes[2] == 70 && bytes[3] == 70
        && bytes[8] == 87 && bytes[9] == 65 && bytes[10] == 86 && bytes[11] == 69 && bytes[12]
        == 102 && bytes[13] == 109 && bytes[14] == 116 && bytes[15] == 32 && bytes[36] == 100
        && bytes[37] == 97 && bytes[38] == 116 && bytes[39] == 97;
    if !tags_ok {
        return None;
    }
    let riff_size = read_u32_le(bytes, 4);
    let fmt_size = read_u32_le(bytes, 16);
    let fmt_tag = read_u16_le(bytes, 20);
    let channels = read_u16_le(bytes, 22);
    let rate = read_u32_le(bytes, 24);
    let byte_rate = read_u32_le(bytes, 28);
    let block = read_u16_le(bytes, 32);
    let bps = read_u16_le(bytes, 34);
    let dlen = read_u32_le(bytes, 40);
    if riff_size != 44 || fmt_size != 16 || fmt_tag != 1 || channels != 1 || block != 1 || bps
        != 16 {
        return None;
    }
    if (byte_rate as u64) != 2 * (rate as u64) {
        return None;
    }
    if dlen % 2 != 0 {
        return None;
    }
    let count = dlen / 2;
    let pad: u64 = if count % 2 == 1 {
        1
    } else {
        0
    };
    if (bytes.len() as u64) != 44 + (dlen as u64) + pad {
        return None;
    }
    if count % 2 == 1 && bytes[bytes.len() - 1] != 0 {
        return None;
    }
    let mut out: Vec<i16> = Vec::new();
    let mut i: usize = 0;
    while i < count as usize
        invariant
            0 <= i <= count,
            bytes@.len() >= 44 + 2 * count,
            bytes@.len() <= usize::MAX,
            out@ == decoded_samples(bytes@, i as nat),
        decreases count - i,
    {
        let lo = bytes[44 + 2 * i];
        let hi = bytes[45 + 2 * i];
        let v: u32 = (lo as u32) + 256 * (hi as u32);
        let s: i16 = if v >= 32768 {
            ((v as i32) - 65536) as i16
        } else {
            v as i16
        };
        out.push(s);
        proof {
            assert(out@ =~= decoded_samples(bytes@, (i + 1) as nat));
        }
        i = i + 1;
    }
    Some((out, rate))
}

/// Recomposing the four little-endian bytes of a thirty-two-bit value
/// gives the value back.
proof fn lemma_u32_le_round(v: nat)
    requires
        v <= u32::MAX,
    ensures
        u32_from_le(u32_le(v)[0], u32_le(v)[1], u32_le(v)[2], u32_le(v)[3]) == v,
{
    let x = v as u32;
    assert(x % 256 + 256 * ((x / 256) % 256) + 65536 * ((x / 65536) % 256) + 16777216 * ((x
        / 16777216) % 256) == x) by (bit_vector);
}

/// Recomposing the two little-endian bytes of a signed sample gives the
/// sample back.
proof fn lemma_i16_le_round(v: int)
    requires
        -32768 <= v <= 32767,
    ensures
        i16_from_le(i16_le(v)[0], i16_le(v)[1]) == v,
{
    let u = (if v >= 0 {
        v
    } else {
        v + 65536
    }) as nat;
    let x = u as u16;
    assert(x % 256 + 256 * ((x / 256) % 256) == x) by (bit_vector);
}

/// The sample byte area is twice as long as the samples, and each
/// sample's two bytes sit at their own offset.
proof fn lemma_sample_bytes_index(s: Seq<i16>, j: int)
    requires
        0 <= j < s.len(),
    ensures
        sample_bytes(s).len() == 2 * s.len(),
        sample_bytes(s)[2 * j] == i16_le(s[j] as int)[0],
        sample_bytes(s)[2 * j + 1] == i16_le(s[j] as int)[1],
    decreases s.len(),
{
    lemma_sample_bytes_len(s);
    if j == s.len() - 1 {
        lemma_sample_bytes_len(s.drop_last());
    } else {
        lemma_sample_bytes_index(s.drop_last(), j);
    }
}

/// The sample byte area is exactly twice as long as the samples.
proof fn lemma_sample_bytes_len(s: Seq<i16>)
    ensures
        sample_bytes(s).len() == 2 * s.len(),
    decreases s.len(),
{
    if s.len() > 0 {
        lemma_sample_bytes_len(s.drop_last());
    }
}

/// Reading back the data area of an encoded container yields the first
/// `count` of the encoded samples.
proof fn lemma_decoded_prefix(b: Seq<u8>, s: Seq<i16>, count: int)
    requires
        0 <= count <= s.len(),
        forall|j: int|
            0 <= j < s.len() ==> b[44 + 2 * j] == i16_le(s[j] as int)[0] && b[45 + 2 * j]
                == i16_le(s[j] as int)[1],
    ensures
        decoded_samples(b, count as nat) == s.take(count),
    decreases count,
{
    if count == 0 {
        assert(decoded_samples(b, 0) =~= s.take(0));
    } else {
        lemma_decoded_prefix(b, s, count - 1);
        lemma_i16_le_round(s[count - 1] as int);
        assert(decoded_samples(b, count as nat) =~= s.take(count));
    }
}

/// Round trip: parsing an encoded container returns exactly the samples
/// and the sample rate that were encoded.
pub proof fn lemma_wav_round_trip(s: Seq<i16>, sample_rate: nat)
    requires
        s.len() * 2 <= u32::MAX,
        sample_rate * 2 <= u32::MAX,
    ensures
        spec_parse_wav(spec_wav_bytes(s, sample_rate)) == Some((s, sample_rate)),
{
    let h = spec_wav_header(sample_rate, s.len());
    let b = spec_wav_bytes(s, sample_rate);
    lemma_sample_bytes_len(s);
    assert(h.len() == 44);
    assert(b.len() == 44 + 2 * s.len() + (if s.len() % 2 == 1 {
        1int
    } else {
        0int
    }));
    // Every header byte of the container is the corresponding header byte.
    assert(forall|k: int| 0 <= k < 44 ==> b[k] == h[k]);
    lemma_u32_le_round(sample_rate);
    lemma_u32_le_round(sample_rate * 2);
    lemma_u32_le_round(2 * s.len());
    assert(u32_from_le(b[24], b[25], b[26], b[27]) == sample_rate);
    assert(u32_from_le(b[28], b[29], b[30], b[31]) == sample_rate * 2);
    assert(u32_from_le(b[40], b[41], b[42], b[43]) == 2 * s.len());
    assert(wav_header_ok(b));
    let dlen = u32_from_le(b[40], b[41], b[42], b[43]);
    vstd::arithmetic::div_mod::lemma_mod_multiples_basic(s.len() as int, 2);
    vstd::arithmetic::div_mod::lemma_div_multiples_vanish(s.len() as int, 2);
    assert(dlen % 2 == 0);
    assert(dlen / 2 == s.len());
    assert forall|j: int| 0 <= j < s.len() implies b[44 + 2 * j] == i16_le(s[j] as int)[0]
        && b[45 + 2 * j] == i16_le(s[j] as int)[1] by {
        lemma_sample_bytes_index(s, j);
    }
    lemma_decoded_prefix(b, s, s.len() as int);
    assert(s.take(s.len() as int) =~= s);
}

} // verus!
