//! Byte layout of a mono 32-bit IEEE-float WAV file (format tag 3): the
//! 44-byte RIFF header followed by the samples' 32-bit patterns, little-endian.

use vstd::prelude::*;

verus! {

/// Little-endian bytes of a 16-bit word.
pub open spec fn le16(x: u16) -> Seq<u8> {
    seq![(x & 0xff) as u8, ((x >> 8u16) & 0xff) as u8]
}

/// Little-endian bytes of a 32-bit word.
pub open spec fn le32(x: u32) -> Seq<u8> {
    seq![
        (x & 0xff) as u8,
        ((x >> 8u32) & 0xff) as u8,
        ((x >> 16u32) & 0xff) as u8,
        ((x >> 24u32) & 0xff) as u8,
    ]
}

/// The data-chunk length field for `n` samples: `4 * n` bytes, truncated to
/// 32 bits.
pub open spec fn data_len_field(n: nat) -> u32 {
    (4 * n) as u32
}

/// The 44-byte header of a mono 32-bit float WAV file holding `n` samples at
/// `sample_rate` Hz.
pub open spec fn wav_header(n: nat, sample_rate: u32) -> Seq<u8> {
    let data_len = data_len_field(n);
    seq![0x52u8, 0x49u8, 0x46u8, 0x46u8]  // "RIFF"
     + le32((36 + data_len) as u32) + seq![0x57u8, 0x41u8, 0x56u8, 0x45u8]  // "WAVE"
     + seq![0x66u8, 0x6du8, 0x74u8, 0x20u8]  // "fmt "
     + le32(16) + le16(3)  // IEEE float
     + le16(1)  // one channel
     + le32(sample_rate) + le32((sample_rate * 4) as u32)  // byte rate
     + le16(4)  // block align
     + le16(32)  // bits per sample
     + seq![0x64u8, 0x61u8, 0x74u8, 0x61u8]  // "data"
     + le32(data_len)
}

/// The samples' 32-bit patterns, each little-endian, in order.
pub open spec fn sample_bytes(s: Seq<u32>) -> Seq<u8>
    decreases s.len(),
{
    if s.len() == 0 {
        Seq::empty()
    } else {
        sample_bytes(s.drop_last()) + le32(s.last())
    }
}

fn push_le16(buf: &mut Vec<u8>, x: u16)
    ensures
        final(buf)@ == old(buf)@ + le16(x),
{
    buf.push((x & 0xff) as u8);
    buf.push(((x >> 8) & 0xff) as u8);
    assert(final(buf)@ =~= old(buf)@ + le16(x));
}

fn push_le32(buf: &mut Vec<u8>, x: u32)
    ensures
        final(buf)@ == old(buf)@ + le32(x),
{
    buf.push((x & 0xff) as u8);
    buf.push(((x >> 8) & 0xff) as u8);
    buf.push(((x >> 16) & 0xff) as u8);
    buf.push(((x >> 24) & 0xff) as u8);
    assert(final(buf)@ =~= old(buf)@ + le32(x));
}

fn push_tag(buf: &mut Vec<u8>, a: u8, b: u8, c: u8, d: u8)
    ensures
        final(buf)@ == old(buf)@ + seq![a, b, c, d],
{
    buf.push(a);
    buf.push(b);
    buf.push(c);
    buf.push(d);
    assert(final(buf)@ =~= old(buf)@ + seq![a, b, c, d]);
}

/// The complete WAV file for samples given by their 32-bit patterns.
pub fn wav_f32_bytes(sample_bits: &Vec<u32>, sample_rate: u32) -> (r: Vec<u8>)
    requires
        sample_bits@.len() * 4 <= usize::MAX,
        36 + data_len_field(sample_bits@.len()) <= u32::MAX,
        sample_rate * 4 <= u32::MAX,
    ensures
        r@ == wav_header(sample_bits@.len(), sample_rate) + sample_bytes(sample_bits@),
{
    let n = sample_bits.len();
    let channels: u16 = 1;
    let bits: u16 = 32;
    let byte_rate: u32 = sample_rate * 4;
    let block_align: u16 = 4;
    let data_len: u32 = (n * 4) as u32;
    let riff_len: u32 = 36 + data_len;

    let mut buf: Vec<u8> = Vec::new();
    push_tag(&mut buf, 0x52, 0x49, 0x46, 0x46);
    push_le32(&mut buf, riff_len);
    push_tag(&mut buf, 0x57, 0x41, 0x56, 0x45);
    push_tag(&mut buf, 0x66, 0x6d, 0x74, 0x20);
    push_le32(&mut buf, 16);
    push_le16(&mut buf, 3);
    push_le16(&mut buf, channels);
    push_le32(&mut buf, sample_rate);
    push_le32(&mut buf, byte_rate);
    push_le16(&mut buf, block_align);
    push_le16(&mut buf, bits);
    push_tag(&mut buf, 0x64, 0x61, 0x74, 0x61);
    push_le32(&mut buf, data_len);
    let ghost header = buf@;
    assert(header =~= wav_header(n as nat, sample_rate));
    for i in 0..n
        invariant
            n == sample_bits@.len(),
            buf@ == header + sample_bytes(sample_bits@.take(i as int)),
    {
        assert(sample_bits@.take(i + 1).drop_last() =~= sample_bits@.take(i as int));
        push_le32(&mut buf, sample_bits[i]);
        assert(buf@ =~= header + sample_bytes(sample_bits@.take(i + 1)));
    }
    assert(sample_bits@.take(n as int) =~= sample_bits@);
    buf
}

proof fn lemma_sample_bytes_layout(s: Seq<u32>)
    ensures
        sample_bytes(s).len() == 4 * s.len(),
        forall|k: int|
            0 <= k < s.len() ==> sample_bytes(s).subrange(4 * k, 4 * k + 4) == le32(
                #[trigger] s[k],
            ),
    decreases s.len(),
{
    if s.len() > 0 {
        let p = s.drop_last();
        lemma_sample_bytes_layout(p);
        assert forall|k: int| 0 <= k < s.len() implies sample_bytes(s).subrange(
            4 * k,
            4 * k + 4,
        ) == le32(#[trigger] s[k]) by {
            if k < s.len() - 1 {
                assert(p[k] == s[k]);
                assert(sample_bytes(s).subrange(4 * k, 4 * k + 4) =~= sample_bytes(p).subrange(
                    4 * k,
                    4 * k + 4,
                ));
            } else {
                assert(sample_bytes(s).subrange(4 * k, 4 * k + 4) =~= le32(s.last()));
            }
        }
    }
}

/// The file is the 44-byte header followed by exactly four bytes per sample:
/// sample `k` occupies bytes `44 + 4k .. 48 + 4k`, holding its 32-bit pattern
/// little-endian.
pub proof fn lemma_wav_layout(sample_bits: Seq<u32>, sample_rate: u32)
    ensures
        wav_header(sample_bits.len(), sample_rate).len() == 44,
        (wav_header(sample_bits.len(), sample_rate) + sample_bytes(sample_bits)).len() == 44 + 4
            * sample_bits.len(),
        forall|k: int|
            0 <= k < sample_bits.len() ==> (wav_header(sample_bits.len(), sample_rate)
                + sample_bytes(sample_bits)).subrange(44 + 4 * k, 48 + 4 * k) == le32(
                #[trigger] sample_bits[k],
            ),
{
    lemma_sample_bytes_layout(sample_bits);
    let h = wav_header(sample_bits.len(), sample_rate);
    let b = sample_bytes(sample_bits);
    assert forall|k: int| 0 <= k < sample_bits.len() implies (h + b).subrange(
        44 + 4 * k,
        48 + 4 * k,
    ) == le32(#[trigger] sample_bits[k]) by {
        assert((h + b).subrange(44 + 4 * k, 48 + 4 * k) =~= b.subrange(4 * k, 4 * k + 4));
    }
}

/// The value of four bytes read as a little-endian unsigned integer.
pub open spec fn read_le32(b: Seq<u8>) -> int {
    b[0] + 256 * b[1] + 65536 * b[2] + 16777216 * b[3]
}

/// The value of two bytes read as a little-endian unsigned integer.
pub open spec fn read_le16(b: Seq<u8>) -> int {
    b[0] + 256 * b[1]
}

/// Little-endian encoding reads back to the word it encodes.
pub proof fn lemma_le_roundtrip(x: u32, y: u16)
    ensures
        le32(x).len() == 4,
        read_le32(le32(x)) == x,
        le16(y).len() == 2,
        read_le16(le16(y)) == y,
{
    let b0 = (x & 0xff) as u8;
    let b1 = ((x >> 8u32) & 0xff) as u8;
    let b2 = ((x >> 16u32) & 0xff) as u8;
    let b3 = ((x >> 24u32) & 0xff) as u8;
    assert(b0 + 256 * b1 + 65536 * b2 + 16777216 * b3 == x) by (bit_vector)
        requires
            b0 == (x & 0xff) as u8,
            b1 == ((x >> 8u32) & 0xff) as u8,
            b2 == ((x >> 16u32) & 0xff) as u8,
            b3 == ((x >> 24u32) & 0xff) as u8,
    ;
    let c0 = (y & 0xff) as u8;
    let c1 = ((y >> 8u16) & 0xff) as u8;
    assert(c0 + 256 * c1 == y) by (bit_vector)
        requires
            c0 == (y & 0xff) as u8,
            c1 == ((y >> 8u16) & 0xff) as u8,
    ;
}

/// Every header field reads back as what a reader of the file expects: the
/// RIFF size is 36 + the data size, the format is IEEE float (3), one channel,
/// the full 32-bit sample rate, a byte rate of four bytes per sample, a block
/// of 4 bytes, 32 bits per sample, and a data size of 4 bytes per sample (its
/// 32-bit truncation for files of 4 GiB or more); each sample reads back as its own 32-bit pattern.
pub proof fn lemma_wav_fields_read_back(sample_bits: Seq<u32>, sample_rate: u32)
    requires
        sample_rate * 4 <= u32::MAX,
        36 + data_len_field(sample_bits.len()) <= u32::MAX,
    ensures
        ({
            let f = wav_header(sample_bits.len(), sample_rate) + sample_bytes(sample_bits);
            let data = data_len_field(sample_bits.len());
            &&& read_le32(f.subrange(4, 8)) == 36 + data
            &&& read_le32(f.subrange(16, 20)) == 16
            &&& read_le16(f.subrange(20, 22)) == 3
            &&& read_le16(f.subrange(22, 24)) == 1
            &&& read_le32(f.subrange(24, 28)) == sample_rate
            &&& read_le32(f.subrange(28, 32)) == 4 * sample_rate
            &&& read_le16(f.subrange(32, 34)) == 4
            &&& read_le16(f.subrange(34, 36)) == 32
            &&& read_le32(f.subrange(40, 44)) == data
            &&& 4 * sample_bits.len() <= u32::MAX ==> data == 4 * sample_bits.len()
            &&& forall|k: int|
                0 <= k < sample_bits.len() ==> read_le32(f.subrange(44 + 4 * k, 48 + 4 * k))
                    == #[trigger] sample_bits[k]
        }),
{
    let n = sample_bits.len();
    let h = wav_header(n, sample_rate);
    let f = h + sample_bytes(sample_bits);
    lemma_wav_layout(sample_bits, sample_rate);
    let dl = data_len_field(n);
    lemma_le_roundtrip((36 + dl) as u32, 3);
    lemma_le_roundtrip(16, 1);
    lemma_le_roundtrip(sample_rate, 4);
    lemma_le_roundtrip((sample_rate * 4) as u32, 32);
    lemma_le_roundtrip(dl, 0);
    assert(f.subrange(4, 8) =~= le32((36 + dl) as u32));
    assert(f.subrange(16, 20) =~= le32(16));
    assert(f.subrange(20, 22) =~= le16(3));
    assert(f.subrange(22, 24) =~= le16(1));
    assert(f.subrange(24, 28) =~= le32(sample_rate));
    assert(f.subrange(28, 32) =~= le32((sample_rate * 4) as u32));
    assert(f.subrange(32, 34) =~= le16(4));
    assert(f.subrange(34, 36) =~= le16(32));
    assert(f.subrange(40, 44) =~= le32(dl));
    assert forall|k: int| 0 <= k < sample_bits.len() implies read_le32(
        f.subrange(44 + 4 * k, 48 + 4 * k),
    ) == #[trigger] sample_bits[k] by {
        lemma_le_roundtrip(sample_bits[k], 0);
    }
}

} // verus!
