//! Sixteen-bit stereo PCM in a WAV file.

use vstd::prelude::*;

verus! {

/// The low byte first, in two bytes.
pub open spec fn le16(x: int) -> Seq<u8> {
    seq![(x % 0x100) as u8, (x / 0x100 % 0x100) as u8]
}

/// The low byte first, in four bytes.
pub open spec fn le32(x: int) -> Seq<u8> {
    le16(x) + le16(x / 0x1_0000)
}

/// The forty-four bytes ahead of the samples.
pub open spec fn spec_header(frames: int, rate: int) -> Seq<u8> {
    let data = frames * 4;
    let riff = seq![0x52u8, 0x49, 0x46, 0x46];
    let wave = seq![0x57u8, 0x41, 0x56, 0x45];
    let format = seq![0x66u8, 0x6D, 0x74, 0x20];
    let samples = seq![0x64u8, 0x61, 0x74, 0x61];
    riff + le32(36 + data) + wave + format + le32(16) + le16(1) + le16(2) + le32(rate) + le32(
        rate * 4,
    ) + le16(4) + le16(16) + samples + le32(data)
}

fn push16(out: &mut Vec<u8>, x: u16)
    ensures
        final(out)@ == old(out)@ + le16(x as int),
{
    out.push((x % 0x100) as u8);
    out.push((x / 0x100) as u8);
    assert(out@ =~= old(out)@ + le16(x as int));
}

fn push32(out: &mut Vec<u8>, x: u32)
    ensures
        final(out)@ == old(out)@ + le32(x as int),
{
    push16(out, (x % 0x1_0000) as u16);
    push16(out, (x / 0x1_0000) as u16);
    assert(le16((x % 0x1_0000) as int) =~= le16(x as int));
    assert(out@ =~= old(out)@ + le32(x as int));
}

fn push_tag(out: &mut Vec<u8>, a: u8, b: u8, c: u8, d: u8)
    ensures
        final(out)@ == old(out)@ + seq![a, b, c, d],
{
    out.push(a);
    out.push(b);
    out.push(c);
    out.push(d);
    assert(out@ =~= old(out)@ + seq![a, b, c, d]);
}

/// The header for so many stereo frames at a rate.
pub fn header(frames: u32, rate: u32) -> (bytes: Vec<u8>)
    requires
        36 + frames * 4 <= u32::MAX,
        rate * 4 <= u32::MAX,
    ensures
        bytes@ == spec_header(frames as int, rate as int),
        bytes@.len() == 44,
{
    let data: u32 = frames * 4;
    let mut out: Vec<u8> = Vec::with_capacity(44);
    push_tag(&mut out, 0x52, 0x49, 0x46, 0x46);
    push32(&mut out, 36 + data);
    push_tag(&mut out, 0x57, 0x41, 0x56, 0x45);
    push_tag(&mut out, 0x66, 0x6D, 0x74, 0x20);
    push32(&mut out, 16);
    push16(&mut out, 1);
    push16(&mut out, 2);
    push32(&mut out, rate);
    push32(&mut out, rate * 4);
    push16(&mut out, 4);
    push16(&mut out, 16);
    push_tag(&mut out, 0x64, 0x61, 0x74, 0x61);
    push32(&mut out, data);
    assert(out@ =~= spec_header(frames as int, rate as int));
    out
}

/// A signed sample as the sixteen bits that are written.
pub open spec fn sample_bits(sample: i16) -> int {
    sample as int % 0x1_0000
}

/// The first `n` frames: the left sample, then the right one.
pub open spec fn spec_frames(left: Seq<i16>, right: Seq<i16>, n: int) -> Seq<u8>
    decreases n,
{
    if n <= 0 {
        seq![]
    } else {
        spec_frames(left, right, n - 1) + le16(sample_bits(left[n - 1])) + le16(
            sample_bits(right[n - 1]),
        )
    }
}

/// Interleaves two channels, as many frames as both have.
pub fn interleave(left: &[i16], right: &[i16]) -> (bytes: Vec<u8>)
    ensures
        bytes@ == spec_frames(
            left@,
            right@,
            if left@.len() <= right@.len() {
                left@.len() as int
            } else {
                right@.len() as int
            },
        ),
{
    let frames: usize = if left.len() <= right.len() {
        left.len()
    } else {
        right.len()
    };
    let mut out: Vec<u8> = Vec::new();
    let mut k: usize = 0;
    while k < frames
        invariant
            k <= frames,
            frames <= left@.len(),
            frames <= right@.len(),
            out@ == spec_frames(left@, right@, k as int),
        decreases frames - k,
    {
        let ghost before = out@;
        push16(&mut out, bits_of(left[k]));
        push16(&mut out, bits_of(right[k]));
        k += 1;
        assert(out@ =~= spec_frames(left@, right@, k as int));
    }
    out
}

fn bits_of(sample: i16) -> (bits: u16)
    ensures
        bits == sample_bits(sample),
{
    ((sample as i32 + 0x1_0000) % 0x1_0000) as u16
}

/// The number that four bytes hold, low byte first.
pub open spec fn held32(bytes: Seq<u8>, at: int) -> int {
    bytes[at] + bytes[at + 1] * 0x100 + bytes[at + 2] * 0x1_0000 + bytes[at + 3] * 0x100_0000
}

/// The number that two bytes hold, low byte first.
pub open spec fn held16(bytes: Seq<u8>, at: int) -> int {
    bytes[at] + bytes[at + 1] * 0x100
}

/// The signed number that two bytes hold, low byte first.
pub open spec fn held_signed(bytes: Seq<u8>, at: int) -> int {
    if held16(bytes, at) < 0x8000 {
        held16(bytes, at)
    } else {
        held16(bytes, at) - 0x1_0000
    }
}

/// A header describes the file it stands in front of: plain PCM, two channels of sixteen bits,
/// at the rate asked for. The sizes that it gives are those of the samples, and of everything
/// after the first eight bytes.
#[verifier::spinoff_prover]
#[verifier::rlimit(30)]
pub proof fn headers_describe_the_file(frames: int, rate: int)
    requires
        0 <= frames,
        36 + frames * 4 <= u32::MAX,
        0 <= rate,
        rate * 4 <= u32::MAX,
    ensures
        ({
            let h = spec_header(frames, rate);
            let channels = held16(h, 22);
            let bits = held16(h, 34);
            &&& h.len() == 44
            &&& h.subrange(0, 4) == seq![0x52u8, 0x49, 0x46, 0x46]
            &&& h.subrange(8, 16) == seq![0x57u8, 0x41, 0x56, 0x45, 0x66, 0x6D, 0x74, 0x20]
            &&& h.subrange(36, 40) == seq![0x64u8, 0x61, 0x74, 0x61]
            &&& channels == 2 && bits == 16
            &&& held32(h, 16) == 16
            &&& held16(h, 20) == 1
            &&& held32(h, 24) == rate
            &&& held16(h, 32) == channels * bits / 8
            &&& held32(h, 28) == rate * held16(h, 32)
            &&& held32(h, 40) == frames * held16(h, 32)
            &&& held32(h, 4) + 8 == h.len() + held32(h, 40)
        }),
{
    let h = spec_header(frames, rate);
    numbers_read_back(36 + frames * 4);
    numbers_read_back(16);
    numbers_read_back(rate);
    numbers_read_back(rate * 4);
    numbers_read_back(frames * 4);
    assert(h.subrange(0, 4) =~= seq![0x52u8, 0x49, 0x46, 0x46]);
    assert(h.subrange(8, 16) =~= seq![0x57u8, 0x41, 0x56, 0x45, 0x66, 0x6D, 0x74, 0x20]);
    assert(h.subrange(36, 40) =~= seq![0x64u8, 0x61, 0x74, 0x61]);
    assert(held32(h, 4) == held32(le32(36 + frames * 4), 0));
    assert(held32(h, 16) == held32(le32(16), 0));
    assert(held32(h, 24) == held32(le32(rate), 0));
    assert(held32(h, 28) == held32(le32(rate * 4), 0));
    assert(held32(h, 40) == held32(le32(frames * 4), 0));
}

proof fn numbers_read_back(x: int)
    requires
        0 <= x <= u32::MAX,
    ensures
        held32(le32(x), 0) == x,
{
    let high = x / 0x1_0000;
    assert(x == high * 0x1_0000 + x % 0x1_0000);
    assert(x % 0x1_0000 == x % 0x100 + x / 0x100 % 0x100 * 0x100);
}

/// Frames come out interleaved: four bytes each, the left sample and then the right one, each
/// a signed number that reads back as it was.
pub proof fn frames_read_back(left: Seq<i16>, right: Seq<i16>, n: int, k: int)
    requires
        0 <= k < n,
        n <= left.len(),
        n <= right.len(),
    ensures
        spec_frames(left, right, n).len() == 4 * n,
        held_signed(spec_frames(left, right, n), 4 * k) == left[k],
        held_signed(spec_frames(left, right, n), 4 * k + 2) == right[k],
    decreases n,
{
    let earlier = spec_frames(left, right, n - 1);
    let all = spec_frames(left, right, n);
    if n > 1 {
        frames_read_back(
            left,
            right,
            n - 1,
            if k < n - 1 {
                k
            } else {
                0
            },
        );
    } else {
        assert(spec_frames(left, right, 0).len() == 0);
    }
    assert(earlier.len() == 4 * (n - 1));
    if k < n - 1 {
        assert(all[4 * k] == earlier[4 * k] && all[4 * k + 1] == earlier[4 * k + 1]);
        assert(all[4 * k + 2] == earlier[4 * k + 2] && all[4 * k + 3] == earlier[4 * k + 3]);
    } else {
        let (l, r) = (sample_bits(left[k]), sample_bits(right[k]));
        assert(all[4 * k] == le16(l)[0] && all[4 * k + 1] == le16(l)[1]);
        assert(all[4 * k + 2] == le16(r)[0] && all[4 * k + 3] == le16(r)[1]);
    }
}

} // verus!
