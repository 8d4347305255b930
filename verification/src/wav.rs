//! Writing a recording as a 16-bit PCM WAV file.

use vstd::prelude::*;

verus! {

/// The two bytes of `x` (taken modulo 2^16), lowest first.
pub open spec fn le16(x: int) -> Seq<u8> {
    seq![(x % 256) as u8, ((x / 256) % 256) as u8]
}

/// The four bytes of `x` (taken modulo 2^32), lowest first.
pub open spec fn le32(x: int) -> Seq<u8> {
    seq![
        (x % 256) as u8,
        ((x / 0x100) % 256) as u8,
        ((x / 0x1_0000) % 256) as u8,
        ((x / 0x100_0000) % 256) as u8,
    ]
}

/// The number that two little-endian bytes hold.
pub open spec fn read_le16(b: Seq<u8>) -> int {
    b[0] + 0x100 * b[1]
}

/// The number that four little-endian bytes hold.
pub open spec fn read_le32(b: Seq<u8>) -> int {
    b[0] + 0x100 * b[1] + 0x1_0000 * b[2] + 0x100_0000 * b[3]
}

/// A signed 16-bit sample as two's complement bytes, lowest first.
pub open spec fn sample_bytes(s: i16) -> Seq<u8> {
    if s < 0 { le16(s + 0x1_0000) } else { le16(s as int) }
}

/// The signed sample that two little-endian bytes hold.
pub open spec fn read_sample(b: Seq<u8>) -> int {
    let u = read_le16(b);
    if u >= 0x8000 { u - 0x1_0000 } else { u }
}

pub open spec fn ascii4(a: u8, b: u8, c: u8, d: u8) -> Seq<u8> {
    seq![a, b, c, d]
}

/// Byte `i` (0 for the lowest) of the number `x`.
pub open spec fn byte_of(x: int, i: int) -> u8 {
    if i == 0 {
        (x % 256) as u8
    } else if i == 1 {
        ((x / 0x100) % 256) as u8
    } else if i == 2 {
        ((x / 0x1_0000) % 256) as u8
    } else {
        ((x / 0x100_0000) % 256) as u8
    }
}

/// The 44-byte header of a 16-bit PCM file holding `sample_count` samples:
/// "RIFF", the size of what follows, "WAVE", the 16-byte "fmt " chunk (PCM,
/// channels, sample rate, byte rate, block size, bits per sample), then
/// "data" and the size of the samples. Numbers are little-endian.
pub open spec fn wav_header(sample_count: nat, sample_rate: u32, channels: u16) -> Seq<u8> {
    let size = 36 + 2 * (sample_count as int);
    let data = 2 * (sample_count as int);
    let ch = channels as int;
    let rate = sample_rate as int;
    let byte_rate = rate * ch * 2;
    let align = ch * 2;
    seq![
        82u8, 73u8, 70u8, 70u8,
        byte_of(size, 0), byte_of(size, 1), byte_of(size, 2), byte_of(size, 3),
        87u8, 65u8, 86u8, 69u8,
        102u8, 109u8, 116u8, 32u8,
        16u8, 0u8, 0u8, 0u8,
        1u8, 0u8,
        byte_of(ch, 0), byte_of(ch, 1),
        byte_of(rate, 0), byte_of(rate, 1), byte_of(rate, 2), byte_of(rate, 3),
        byte_of(byte_rate, 0), byte_of(byte_rate, 1), byte_of(byte_rate, 2), byte_of(byte_rate, 3),
        byte_of(align, 0), byte_of(align, 1),
        16u8, 0u8,
        100u8, 97u8, 116u8, 97u8,
        byte_of(data, 0), byte_of(data, 1), byte_of(data, 2), byte_of(data, 3),
    ]
}

/// The samples one after another, two bytes each.
pub open spec fn sample_data(samples: Seq<i16>) -> Seq<u8>
    decreases samples.len(),
{
    if samples.len() == 0 {
        Seq::empty()
    } else {
        sample_data(samples.drop_last()) + sample_bytes(samples.last())
    }
}

/// A whole WAV file: the header, then the samples.
pub open spec fn wav_file(samples: Seq<i16>, sample_rate: u32, channels: u16) -> Seq<u8> {
    wav_header(samples.len(), sample_rate, channels) + sample_data(samples)
}

/// What the header needs so that none of its fields overflows.
pub open spec fn wav_fits(sample_count: nat, sample_rate: u32, channels: u16) -> bool {
    &&& 36 + 2 * sample_count <= u32::MAX
    &&& sample_rate * channels * 2 <= u32::MAX
    &&& channels * 2 <= u16::MAX
}

fn push_le16(out: &mut Vec<u8>, x: u16)
    ensures
        final(out)@ == old(out)@ + le16(x as int),
{
    out.push((x % 256) as u8);
    out.push(((x / 256) % 256) as u8);
}

fn push_le32(out: &mut Vec<u8>, x: u32)
    ensures
        final(out)@ == old(out)@ + le32(x as int),
{
    out.push((x % 256) as u8);
    out.push(((x / 0x100) % 256) as u8);
    out.push(((x / 0x1_0000) % 256) as u8);
    out.push(((x / 0x100_0000) % 256) as u8);
}

fn push_ascii4(out: &mut Vec<u8>, a: u8, b: u8, c: u8, d: u8)
    ensures
        final(out)@ == old(out)@ + ascii4(a, b, c, d),
{
    out.push(a);
    out.push(b);
    out.push(c);
    out.push(d);
}

/// Encodes 16-bit samples as a PCM WAV file: the 44-byte header, then every
/// sample as two little-endian bytes.
pub fn to_wav_bytes(samples: &[i16], sample_rate: u32, channels: u16) -> (wav: Vec<u8>)
    requires
        wav_fits(samples@.len(), sample_rate, channels),
    ensures
        wav@ == wav_file(samples@, sample_rate, channels),
{
    let mut wav_data: Vec<u8> = Vec::new();
    let data_size: u32 = (samples.len() * 2) as u32;
    let byte_rate: u32 = sample_rate * channels as u32 * 2;
    let block_align: u16 = channels * 2;

    push_ascii4(&mut wav_data, 82, 73, 70, 70);
    push_le32(&mut wav_data, 36 + data_size);
    push_ascii4(&mut wav_data, 87, 65, 86, 69);
    push_ascii4(&mut wav_data, 102, 109, 116, 32);
    push_le32(&mut wav_data, 16);
    push_le16(&mut wav_data, 1);
    push_le16(&mut wav_data, channels);
    push_le32(&mut wav_data, sample_rate);
    push_le32(&mut wav_data, byte_rate);
    push_le16(&mut wav_data, block_align);
    push_le16(&mut wav_data, 16);
    push_ascii4(&mut wav_data, 100, 97, 116, 97);
    push_le32(&mut wav_data, data_size);
    assert(wav_data@ =~= wav_header(samples@.len(), sample_rate, channels)) by {
        let h = wav_header(samples@.len(), sample_rate, channels);
        assert(h.len() == 44);
    }

    let ghost header = wav_data@;
    let mut i: usize = 0;
    while i < samples.len()
        invariant
            i <= samples@.len(),
            wav_data@ =~= header + sample_data(samples@.take(i as int)),
        decreases samples@.len() - i,
    {
        let s = samples[i];
        let u: u16 = if s < 0 { (s as i32 + 0x1_0000) as u16 } else { s as u16 };
        push_le16(&mut wav_data, u);
        assert(samples@.take(i + 1).drop_last() =~= samples@.take(i as int));
        i = i + 1;
    }
    assert(samples@.take(samples@.len() as int) =~= samples@);
    wav_data
}


proof fn lemma_le16_reads_back(x: int)
    requires
        0 <= x < 0x1_0000,
    ensures
        le16(x).len() == 2,
        read_le16(le16(x)) == x,
{
}

proof fn lemma_le32_reads_back(x: int)
    requires
        0 <= x <= u32::MAX,
    ensures
        le32(x).len() == 4,
        read_le32(le32(x)) == x,
{
}

/// Every sample comes back from its two bytes unchanged.
pub proof fn sample_reads_back(s: i16)
    ensures
        sample_bytes(s).len() == 2,
        read_sample(sample_bytes(s)) == s,
{
    if s < 0 {
        lemma_le16_reads_back(s + 0x1_0000);
    } else {
        lemma_le16_reads_back(s as int);
    }
}

/// The sample data is two bytes per sample, and bytes `2k` and `2k + 1` of it
/// are sample `k`.
pub proof fn sample_data_layout(samples: Seq<i16>, k: int)
    requires
        0 <= k < samples.len(),
    ensures
        sample_data(samples).len() == 2 * samples.len(),
        sample_data(samples).subrange(2 * k, 2 * k + 2) == sample_bytes(samples[k]),
    decreases samples.len(),
{
    lemma_sample_data_len(samples);
    let init = samples.drop_last();
    lemma_sample_data_len(init);
    if k < samples.len() - 1 {
        sample_data_layout(init, k);
        assert(sample_data(samples).subrange(2 * k, 2 * k + 2)
            =~= sample_data(init).subrange(2 * k, 2 * k + 2));
    } else {
        assert(sample_data(samples).subrange(2 * k, 2 * k + 2) =~= sample_bytes(samples.last()));
    }
}

proof fn lemma_sample_data_len(samples: Seq<i16>)
    ensures
        sample_data(samples).len() == 2 * samples.len(),
    decreases samples.len(),
{
    if samples.len() > 0 {
        lemma_sample_data_len(samples.drop_last());
    }
}

/// Reading the header written for `sample_count` samples gives back the
/// numbers it was written from: the file size, the format, the channels, the
/// sample rate, the byte rate, the block size, the bits per sample and the
/// data size, each at the offset the WAV format puts it.
pub proof fn wav_header_reads_back(sample_count: nat, sample_rate: u32, channels: u16)
    requires
        wav_fits(sample_count, sample_rate, channels),
    ensures
        ({
            let h = wav_header(sample_count, sample_rate, channels);
            &&& h.len() == 44
            &&& h.subrange(0, 4) == ascii4(82, 73, 70, 70)
            &&& read_le32(h.subrange(4, 8)) == 36 + 2 * sample_count
            &&& h.subrange(8, 12) == ascii4(87, 65, 86, 69)
            &&& h.subrange(12, 16) == ascii4(102, 109, 116, 32)
            &&& read_le32(h.subrange(16, 20)) == 16
            &&& read_le16(h.subrange(20, 22)) == 1
            &&& read_le16(h.subrange(22, 24)) == channels
            &&& read_le32(h.subrange(24, 28)) == sample_rate
            &&& read_le32(h.subrange(28, 32)) == sample_rate * channels * 2
            &&& read_le16(h.subrange(32, 34)) == channels * 2
            &&& read_le16(h.subrange(34, 36)) == 16
            &&& h.subrange(36, 40) == ascii4(100, 97, 116, 97)
            &&& read_le32(h.subrange(40, 44)) == 2 * sample_count
        }),
{
    let n = sample_count as int;
    lemma_le32_reads_back(36 + 2 * n);
    lemma_le32_reads_back(16);
    lemma_le16_reads_back(1);
    lemma_le16_reads_back(channels as int);
    lemma_le32_reads_back(sample_rate as int);
    lemma_le32_reads_back(sample_rate * channels * 2);
    lemma_le16_reads_back(channels * 2);
    lemma_le16_reads_back(16);
    lemma_le32_reads_back(2 * n);
    let h = wav_header(sample_count, sample_rate, channels);
    assert(h.subrange(4, 8) =~= le32(36 + 2 * n));
    assert(h.subrange(16, 20) =~= le32(16));
    assert(h.subrange(20, 22) =~= le16(1));
    assert(h.subrange(22, 24) =~= le16(channels as int));
    assert(h.subrange(24, 28) =~= le32(sample_rate as int));
    assert(h.subrange(28, 32) =~= le32(sample_rate * channels * 2));
    assert(h.subrange(32, 34) =~= le16(channels * 2));
    assert(h.subrange(34, 36) =~= le16(16));
    assert(h.subrange(40, 44) =~= le32(2 * n));
    assert(h.subrange(0, 4) =~= ascii4(82, 73, 70, 70));
    assert(h.subrange(8, 12) =~= ascii4(87, 65, 86, 69));
    assert(h.subrange(12, 16) =~= ascii4(102, 109, 116, 32));
    assert(h.subrange(36, 40) =~= ascii4(100, 97, 116, 97));
}

/// A written file is the 44-byte header followed by two bytes per sample, and
/// every sample reads back from its place in the file unchanged.
pub proof fn wav_samples_read_back(samples: Seq<i16>, sample_rate: u32, channels: u16, k: int)
    requires
        0 <= k < samples.len(),
    ensures
        wav_file(samples, sample_rate, channels).len() == 44 + 2 * samples.len(),
        read_sample(wav_file(samples, sample_rate, channels).subrange(44 + 2 * k, 46 + 2 * k))
            == samples[k],
{
    sample_data_layout(samples, k);
    sample_reads_back(samples[k]);
    let f = wav_file(samples, sample_rate, channels);
    let h = wav_header(samples.len(), sample_rate, channels);
    assert(h.len() == 44);
    assert(f.subrange(44 + 2 * k, 46 + 2 * k) =~= sample_data(samples).subrange(2 * k, 2 * k + 2));
}

} // verus!
