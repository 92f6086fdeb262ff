//! The WAV file a recording is sent as: a RIFF header for 16 kHz mono 32-bit
//! IEEE float PCM, then the samples in little-endian order. A sample is given
//! by the bits of its `f32`.
use vstd::prelude::*;

verus! {

/// The sample rate written into the header.
pub const WAV_SAMPLE_RATE: u32 = 16000;

/// The length of the header in bytes.
pub const WAV_HEADER_LEN: usize = 44;

/// The little-endian bytes of a 32-bit value.
pub open spec fn le_u32(x: u32) -> Seq<u8> {
    seq![(x % 256) as u8, ((x / 256) % 256) as u8, ((x / 65536) % 256) as u8, (x / 16777216) as u8]
}

/// The little-endian bytes of a 16-bit value.
pub open spec fn le_u16(x: u16) -> Seq<u8> {
    seq![(x % 256) as u8, (x / 256) as u8]
}

/// The header of a file of `n` samples: `RIFF`, the file size less eight,
/// `WAVE`, a 16-byte `fmt ` chunk (format 3 = IEEE float, one channel,
/// 16000 Hz, 64000 bytes a second, blocks of 4 bytes, 32 bits a sample),
/// then `data` and the data size.
pub open spec fn wav_header(n: nat) -> Seq<u8> {
    seq![0x52u8, 0x49, 0x46, 0x46] + le_u32((36 + 4 * n) as u32) + seq![0x57u8, 0x41, 0x56, 0x45]
        + seq![0x66u8, 0x6d, 0x74, 0x20] + le_u32(16) + le_u16(3) + le_u16(1) + le_u32(
        WAV_SAMPLE_RATE,
    ) + le_u32(64000) + le_u16(4) + le_u16(32) + seq![0x64u8, 0x61, 0x74, 0x61] + le_u32(
        (4 * n) as u32,
    )
}

/// The samples, each as its four little-endian bytes.
pub open spec fn wav_data(bits: Seq<u32>) -> Seq<u8>
    decreases bits.len(),
{
    if bits.len() == 0 {
        Seq::empty()
    } else {
        wav_data(bits.drop_last()) + le_u32(bits.last())
    }
}

/// The whole file.
pub open spec fn wav_file(bits: Seq<u32>) -> Seq<u8> {
    wav_header(bits.len()) + wav_data(bits)
}

/// Whether a file of `n` samples can state its size in the header.
pub open spec fn fits_header(n: nat) -> bool {
    36 + 4 * n <= u32::MAX
}

fn push_u32(out: &mut Vec<u8>, x: u32)
    ensures
        final(out)@ == old(out)@ + le_u32(x),
{
    out.push((x % 256) as u8);
    out.push(((x / 256) % 256) as u8);
    out.push(((x / 65536) % 256) as u8);
    out.push((x / 16777216) as u8);
    assert(out@ =~= old(out)@ + le_u32(x));
}

fn push_u16(out: &mut Vec<u8>, x: u16)
    ensures
        final(out)@ == old(out)@ + le_u16(x),
{
    out.push((x % 256) as u8);
    out.push((x / 256) as u8);
    assert(out@ =~= old(out)@ + le_u16(x));
}

fn push_tag(out: &mut Vec<u8>, a: u8, b: u8, c: u8, d: u8)
    ensures
        final(out)@ == old(out)@ + seq![a, b, c, d],
{
    out.push(a);
    out.push(b);
    out.push(c);
    out.push(d);
    assert(out@ =~= old(out)@ + seq![a, b, c, d]);
}

/// The header of a file of `n` samples.
pub fn encode_wav_header(n: usize) -> (r: Vec<u8>)
    requires
        fits_header(n as nat),
    ensures
        r@ == wav_header(n as nat),
        r@.len() == WAV_HEADER_LEN,
{
    let data_size: u32 = (n as u32) * 4;
    let file_size: u32 = 36 + data_size;
    let mut out: Vec<u8> = Vec::new();
    push_tag(&mut out, 0x52, 0x49, 0x46, 0x46);
    push_u32(&mut out, file_size);
    push_tag(&mut out, 0x57, 0x41, 0x56, 0x45);
    push_tag(&mut out, 0x66, 0x6d, 0x74, 0x20);
    push_u32(&mut out, 16);
    push_u16(&mut out, 3);
    push_u16(&mut out, 1);
    push_u32(&mut out, WAV_SAMPLE_RATE);
    push_u32(&mut out, 64000);
    push_u16(&mut out, 4);
    push_u16(&mut out, 32);
    push_tag(&mut out, 0x64, 0x61, 0x74, 0x61);
    push_u32(&mut out, data_size);
    assert(out@ =~= wav_header(n as nat));
    out
}

/// The file of a recording whose samples have the bits `sample_bits`.
pub fn encode_wav(sample_bits: &[u32]) -> (r: Vec<u8>)
    requires
        fits_header(sample_bits@.len()),
    ensures
        r@ == wav_file(sample_bits@),
        r@.len() == WAV_HEADER_LEN + 4 * sample_bits@.len(),
{
    let mut out = encode_wav_header(sample_bits.len());
    let mut i: usize = 0;
    while i < sample_bits.len()
        invariant
            i <= sample_bits@.len(),
            out@ == wav_header(sample_bits@.len()) + wav_data(sample_bits@.take(i as int)),
            out@.len() == WAV_HEADER_LEN + 4 * i,
        decreases sample_bits@.len() - i,
    {
        let ghost before = out@;
        push_u32(&mut out, sample_bits[i]);
        proof {
            let t = sample_bits@.take(i + 1);
            assert(t.drop_last() =~= sample_bits@.take(i as int));
            assert(t.last() == sample_bits@[i as int]);
        }
        i = i + 1;
        assert(out@ =~= wav_header(sample_bits@.len()) + wav_data(sample_bits@.take(i as int)));
    }
    assert(sample_bits@.take(sample_bits@.len() as int) =~= sample_bits@);
    out
}

/// The value of four little-endian bytes.
pub open spec fn le_value(b: Seq<u8>) -> nat {
    b[0] as nat + 256 * b[1] as nat + 65536 * b[2] as nat + 16777216 * b[3] as nat
}

/// Four little-endian bytes read back as the value they were written from.
pub proof fn lemma_le_u32_read_back(x: u32)
    ensures
        le_u32(x).len() == 4,
        le_value(le_u32(x)) == x,
{
    assert((x % 256) as u8 as u32 + 256 * ((x / 256) % 256) as u8 as u32 + 65536 * ((x / 65536)
        % 256) as u8 as u32 + 16777216 * (x / 16777216) as u8 as u32 == x) by (bit_vector);
}

proof fn lemma_wav_data_layout(bits: Seq<u32>)
    ensures
        wav_data(bits).len() == 4 * bits.len(),
        forall|i: int|
            0 <= i < bits.len() ==> #[trigger] wav_data(bits).subrange(4 * i, 4 * i + 4) == le_u32(
                bits[i],
            ),
    decreases bits.len(),
{
    if bits.len() > 0 {
        let init = bits.drop_last();
        lemma_wav_data_layout(init);
        let d = wav_data(bits);
        assert(d == wav_data(init) + le_u32(bits.last()));
        assert forall|i: int| 0 <= i < bits.len() implies #[trigger] d.subrange(4 * i, 4 * i + 4)
            == le_u32(bits[i]) by {
            if i < init.len() {
                assert(d.subrange(4 * i, 4 * i + 4) =~= wav_data(init).subrange(4 * i, 4 * i + 4));
                assert(init[i] == bits[i]);
            } else {
                assert(d.subrange(4 * i, 4 * i + 4) =~= le_u32(bits.last()));
            }
        }
    }
}

/// The value of two little-endian bytes.
pub open spec fn le16_value(b: Seq<u8>) -> nat {
    b[0] as nat + 256 * b[1] as nat
}

/// Two little-endian bytes read back as the value they were written from.
pub proof fn lemma_le_u16_read_back(x: u16)
    ensures
        le_u16(x).len() == 2,
        le16_value(le_u16(x)) == x,
{
    assert((x % 256) as u8 as u16 + 256 * (x / 256) as u8 as u16 == x) by (bit_vector);
}

/// The header of a file of `n` samples reads back: 44 bytes; `RIFF`, the
/// size `36 + 4n`, `WAVE`, `fmt `, a format chunk of 16 bytes declaring
/// format 3 (IEEE float), one channel (mono), 16000 samples a second,
/// 64000 bytes a second, blocks of 4 bytes and 32 bits a sample; then
/// `data` and the data size `4n`.
pub proof fn lemma_wav_header_read_back(n: nat)
    requires
        fits_header(n),
    ensures
        ({
            let h = wav_header(n);
            &&& h.len() == WAV_HEADER_LEN
            &&& h.subrange(0, 4) == seq![0x52u8, 0x49, 0x46, 0x46]
            &&& le_value(h.subrange(4, 8)) == 36 + 4 * n
            &&& h.subrange(8, 16) == seq![0x57u8, 0x41, 0x56, 0x45, 0x66, 0x6d, 0x74, 0x20]
            &&& le_value(h.subrange(16, 20)) == 16
            &&& le16_value(h.subrange(20, 22)) == 3
            &&& le16_value(h.subrange(22, 24)) == 1
            &&& le_value(h.subrange(24, 28)) == 16000
            &&& le_value(h.subrange(28, 32)) == 64000
            &&& le16_value(h.subrange(32, 34)) == 4
            &&& le16_value(h.subrange(34, 36)) == 32
            &&& h.subrange(36, 40) == seq![0x64u8, 0x61, 0x74, 0x61]
            &&& le_value(h.subrange(40, 44)) == 4 * n
        }),
{
    let h = wav_header(n);
    lemma_le_u32_read_back((36 + 4 * n) as u32);
    lemma_le_u32_read_back((4 * n) as u32);
    lemma_le_u32_read_back(16);
    lemma_le_u32_read_back(WAV_SAMPLE_RATE);
    lemma_le_u32_read_back(64000);
    lemma_le_u16_read_back(3);
    lemma_le_u16_read_back(1);
    lemma_le_u16_read_back(4);
    lemma_le_u16_read_back(32);
    assert(h.len() == 44);
    assert(h.subrange(0, 4) =~= seq![0x52u8, 0x49, 0x46, 0x46]);
    assert(h.subrange(4, 8) =~= le_u32((36 + 4 * n) as u32));
    assert(h.subrange(8, 16) =~= seq![0x57u8, 0x41, 0x56, 0x45, 0x66, 0x6d, 0x74, 0x20]);
    assert(h.subrange(16, 20) =~= le_u32(16));
    assert(h.subrange(20, 22) =~= le_u16(3));
    assert(h.subrange(22, 24) =~= le_u16(1));
    assert(h.subrange(24, 28) =~= le_u32(WAV_SAMPLE_RATE));
    assert(h.subrange(28, 32) =~= le_u32(64000));
    assert(h.subrange(32, 34) =~= le_u16(4));
    assert(h.subrange(34, 36) =~= le_u16(32));
    assert(h.subrange(36, 40) =~= seq![0x64u8, 0x61, 0x74, 0x61]);
    assert(h.subrange(40, 44) =~= le_u32((4 * n) as u32));
}

/// A written file reads back: it starts with the header of its `n` samples
/// (whose fields `lemma_wav_header_read_back` reads), it is 44 + 4n bytes
/// long, its size fields read `36 + 4n` and `4n`, it declares one channel
/// at 16000 samples a second, and the four bytes at `44 + 4i` read back the
/// bits of sample `i`.
pub proof fn lemma_wav_read_back(bits: Seq<u32>)
    requires
        fits_header(bits.len()),
    ensures
        ({
            let f = wav_file(bits);
            let n = bits.len();
            &&& f.len() == WAV_HEADER_LEN + 4 * n
            &&& f.subrange(0, 44) == wav_header(n)
            &&& f.subrange(0, 4) == seq![0x52u8, 0x49, 0x46, 0x46]
            &&& le_value(f.subrange(4, 8)) == 36 + 4 * n
            &&& f.subrange(8, 16) == seq![0x57u8, 0x41, 0x56, 0x45, 0x66, 0x6d, 0x74, 0x20]
            &&& le16_value(f.subrange(20, 22)) == 3
            &&& le16_value(f.subrange(22, 24)) == 1
            &&& le_value(f.subrange(24, 28)) == WAV_SAMPLE_RATE
            &&& le_value(f.subrange(28, 32)) == 64000
            &&& le16_value(f.subrange(32, 34)) == 4
            &&& le16_value(f.subrange(34, 36)) == 32
            &&& f.subrange(36, 40) == seq![0x64u8, 0x61, 0x74, 0x61]
            &&& le_value(f.subrange(40, 44)) == 4 * n
            &&& forall|i: int|
                0 <= i < n ==> le_value(#[trigger] f.subrange(44 + 4 * i, 48 + 4 * i)) == bits[i]
        }),
{
    let n = bits.len();
    let f = wav_file(bits);
    let h = wav_header(n);
    lemma_wav_data_layout(bits);
    lemma_wav_header_read_back(n);
    assert(f.subrange(0, 44) =~= h);
    assert forall|a: int, b: int| 0 <= a <= b <= 44 implies #[trigger] f.subrange(a, b) == h.subrange(a, b) by {
        assert(f.subrange(a, b) =~= h.subrange(a, b));
    }
    assert(f.subrange(0, 4) == h.subrange(0, 4));
    assert(f.subrange(4, 8) == h.subrange(4, 8));
    assert(f.subrange(8, 16) == h.subrange(8, 16));
    assert(f.subrange(20, 22) == h.subrange(20, 22));
    assert(f.subrange(22, 24) == h.subrange(22, 24));
    assert(f.subrange(24, 28) == h.subrange(24, 28));
    assert(f.subrange(28, 32) == h.subrange(28, 32));
    assert(f.subrange(32, 34) == h.subrange(32, 34));
    assert(f.subrange(34, 36) == h.subrange(34, 36));
    assert(f.subrange(36, 40) == h.subrange(36, 40));
    assert(f.subrange(40, 44) == h.subrange(40, 44));
    assert forall|i: int| 0 <= i < n implies le_value(#[trigger] f.subrange(44 + 4 * i, 48 + 4 * i))
        == bits[i] by {
        assert(f.subrange(44 + 4 * i, 48 + 4 * i) =~= wav_data(bits).subrange(4 * i, 4 * i + 4));
        lemma_le_u32_read_back(bits[i]);
    }
}

} // verus!
