//! The byte layout of a mono, 16-bit PCM WAV file.
use vstd::prelude::*;

verus! {

/// The two bytes of `x`, low byte first.
pub open spec fn le16(x: nat) -> Seq<u8> {
    seq![(x % 256) as u8, ((x / 256) % 256) as u8]
}

/// The four bytes of `x`, low byte first.
pub open spec fn le32(x: nat) -> Seq<u8> {
    seq![
        (x % 256) as u8,
        ((x / 256) % 256) as u8,
        ((x / 65536) % 256) as u8,
        ((x / 16777216) % 256) as u8,
    ]
}

/// The two's complement bytes of a sample, low byte first.
pub open spec fn sample_bytes(s: i16) -> Seq<u8> {
    le16((if s < 0 { s + 65536 } else { s as int }) as nat)
}

/// The bytes of all samples, in order.
pub open spec fn samples_bytes(s: Seq<i16>) -> Seq<u8>
    decreases s.len(),
{
    if s.len() == 0 {
        seq![]
    } else {
        samples_bytes(s.drop_last()) + sample_bytes(s.last())
    }
}

/// The size field of the data chunk for `n` samples: two bytes per
/// sample, kept to 32 bits.
pub open spec fn data_size(n: nat) -> nat {
    (2 * n) % 0x1_0000_0000
}

/// The 44-byte header of a mono, 16-bit PCM WAV file at `rate` samples per
/// second whose data chunk holds `size` bytes.
pub open spec fn wav_header(rate: nat, size: nat) -> Seq<u8> {
    seq![0x52u8, 0x49, 0x46, 0x46] + le32(36 + size) + seq![0x57u8, 0x41, 0x56, 0x45] + seq![
        0x66u8,
        0x6d,
        0x74,
        0x20,
    ] + le32(16) + le16(1) + le16(1) + le32(rate) + le32(2 * rate) + le16(2) + le16(16) + seq![
        0x64u8,
        0x61,
        0x74,
        0x61,
    ] + le32(size)
}

/// Appends the four bytes of `x`, low byte first.
fn push_u32_le(v: &mut Vec<u8>, x: u32)
    ensures
        final(v)@ == old(v)@ + le32(x as nat),
{
    v.push((x % 256) as u8);
    v.push(((x / 256) % 256) as u8);
    v.push(((x / 65536) % 256) as u8);
    v.push(((x / 16777216) % 256) as u8);
    assert(final(v)@ =~= old(v)@ + le32(x as nat));
}

/// Appends the two bytes of `x`, low byte first.
fn push_u16_le(v: &mut Vec<u8>, x: u32)
    requires
        x < 65536,
    ensures
        final(v)@ == old(v)@ + le16(x as nat),
{
    v.push((x % 256) as u8);
    v.push(((x / 256) % 256) as u8);
    assert(final(v)@ =~= old(v)@ + le16(x as nat));
}

/// Appends four bytes.
fn push_tag(v: &mut Vec<u8>, a: u8, b: u8, c: u8, d: u8)
    ensures
        final(v)@ == old(v)@ + seq![a, b, c, d],
{
    v.push(a);
    v.push(b);
    v.push(c);
    v.push(d);
    assert(final(v)@ =~= old(v)@ + seq![a, b, c, d]);
}

/// A mono, 16-bit PCM WAV file at `sample_rate` samples per second holding
/// `samples`: the 44-byte header, then each sample in two bytes, low byte
/// first.
pub fn make_pcm_wav(sample_rate: u32, samples: &[i16]) -> (r: Vec<u8>)
    requires
        2 * sample_rate <= u32::MAX,
        2 * samples@.len() <= usize::MAX,
        36 + data_size(samples@.len()) <= u32::MAX,
    ensures
        r@ == wav_header(sample_rate as nat, data_size(samples@.len())) + samples_bytes(samples@),
        r@.len() == 44 + 2 * samples@.len(),
{
    let byte_rate = sample_rate * 2;
    let data_size = ((samples.len() * 2) as u64 % 0x1_0000_0000u64) as u32;
    let riff_size = 36 + data_size;
    let mut bytes: Vec<u8> = Vec::new();
    push_tag(&mut bytes, 0x52, 0x49, 0x46, 0x46);
    push_u32_le(&mut bytes, riff_size);
    push_tag(&mut bytes, 0x57, 0x41, 0x56, 0x45);
    push_tag(&mut bytes, 0x66, 0x6d, 0x74, 0x20);
    push_u32_le(&mut bytes, 16);
    push_u16_le(&mut bytes, 1);
    push_u16_le(&mut bytes, 1);
    push_u32_le(&mut bytes, sample_rate);
    push_u32_le(&mut bytes, byte_rate);
    push_u16_le(&mut bytes, 2);
    push_u16_le(&mut bytes, 16);
    push_tag(&mut bytes, 0x64, 0x61, 0x74, 0x61);
    push_u32_le(&mut bytes, data_size);
    let ghost header = bytes@;
    assert(header =~= wav_header(sample_rate as nat, data_size as nat));
    let mut i: usize = 0;
    while i < samples.len()
        invariant
            i <= samples@.len(),
            bytes@ == header + samples_bytes(samples@.take(i as int)),
            bytes@.len() == 44 + 2 * i,
            header.len() == 44,
        decreases samples@.len() - i,
    {
        assert(samples@.take(i + 1).drop_last() =~= samples@.take(i as int));
        let s = samples[i];
        let u: u32 = if s < 0 {
            (s as i32 + 65536) as u32
        } else {
            s as u32
        };
        push_u16_le(&mut bytes, u);
        assert(bytes@ =~= header + samples_bytes(samples@.take(i + 1)));
        i = i + 1;
    }
    assert(samples@.take(i as int) =~= samples@);
    bytes
}


/// Law: the four bytes of `le32(x)` are the base-256 digits of `x`, low
/// digit first, so they read back as `x`.
pub proof fn law_le32_reads_back(x: nat)
    requires
        x < 0x1_0000_0000,
    ensures
        le32(x).len() == 4,
        le32(x)[0] + 256 * le32(x)[1] + 65536 * le32(x)[2] + 16777216 * le32(x)[3] == x,
{
    let b0 = x % 256;
    let b1 = (x / 256) % 256;
    let b2 = (x / 65536) % 256;
    let b3 = (x / 16777216) % 256;
    assert(b0 + 256 * b1 + 65536 * b2 + 16777216 * b3 == x) by (nonlinear_arith)
        requires
            x < 0x1_0000_0000,
            b0 == x % 256,
            b1 == (x / 256) % 256,
            b2 == (x / 65536) % 256,
            b3 == (x / 16777216) % 256,
    {
        assert(x == 256 * (x / 256) + x % 256);
        assert(x / 256 == 256 * (x / 65536) + (x / 256) % 256);
        assert(x / 65536 == 256 * (x / 16777216) + (x / 65536) % 256);
        assert(x / 16777216 < 256);
    }
    assert(le32(x)[0] == b0 as u8);
    assert(le32(x)[1] == b1 as u8);
    assert(le32(x)[2] == b2 as u8);
    assert(le32(x)[3] == b3 as u8);
}

/// Law: the two bytes of `le16(x)` are the base-256 digits of `x`, low
/// digit first, so they read back as `x`.
pub proof fn law_le16_reads_back(x: nat)
    requires
        x < 0x1_0000,
    ensures
        le16(x).len() == 2,
        le16(x)[0] + 256 * le16(x)[1] == x,
{
    let b0 = x % 256;
    let b1 = (x / 256) % 256;
    assert(b0 + 256 * b1 == x) by (nonlinear_arith)
        requires
            x < 0x1_0000,
            b0 == x % 256,
            b1 == (x / 256) % 256,
    {
        assert(x == 256 * (x / 256) + x % 256);
        assert(x / 256 < 256);
    }
    assert(le16(x)[0] == b0 as u8);
    assert(le16(x)[1] == b1 as u8);
}

/// Law: a sample's two bytes read back, as a 16-bit two's complement
/// number, as the sample.
pub proof fn law_sample_reads_back(s: i16)
    ensures
        sample_bytes(s).len() == 2,
        ({
            let u = sample_bytes(s)[0] + 256 * sample_bytes(s)[1];
            (if u >= 32768 { u - 65536 } else { u }) == s
        }),
{
    let u: nat = (if s < 0 { s + 65536 } else { s as int }) as nat;
    law_le16_reads_back(u);
}

} // verus!
