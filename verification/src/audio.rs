//! Sound framing: the WAV container the synthesized clips are packed in,
//! the pseudo-random generator the synthesizer draws noise from, and the
//! bookkeeping of which music track is playing.

use vstd::prelude::*;

verus! {

/// Sample rate of every clip, in samples per second.
pub const RATE: u32 = 22050;

/// `x` as two little-endian bytes.
pub open spec fn le16(x: int) -> Seq<u8> {
    seq![(x % 256) as u8, ((x / 256) % 256) as u8]
}

/// `x` as four little-endian bytes.
pub open spec fn le32(x: int) -> Seq<u8> {
    seq![
        (x % 256) as u8,
        ((x / 256) % 256) as u8,
        ((x / 65536) % 256) as u8,
        ((x / 16777216) % 256) as u8,
    ]
}

/// The 16-bit two's complement word of a sample.
pub open spec fn sample_word(s: i16) -> int {
    if s < 0 {
        s + 65536
    } else {
        s as int
    }
}

/// The 44-byte header of a mono 16-bit PCM WAV file at `RATE` holding
/// `n` samples.
pub open spec fn wav_header(n: nat) -> Seq<u8> {
    seq![82u8, 73u8, 70u8, 70u8] + le32(36 + 2 * n as int) + seq![87u8, 65u8, 86u8, 69u8] + seq![
        102u8,
        109u8,
        116u8,
        32u8,
    ] + le32(16) + le16(1) + le16(1) + le32(RATE as int) + le32(2 * RATE) + le16(2) + le16(16)
        + seq![100u8, 97u8, 116u8, 97u8] + le32(2 * n as int)
}

/// The sample data of a WAV file: each sample as a little-endian word.
pub open spec fn wav_data(samples: Seq<i16>) -> Seq<u8>
    decreases samples.len(),
{
    if samples.len() == 0 {
        Seq::empty()
    } else {
        wav_data(samples.drop_last()) + le16(sample_word(samples.last()))
    }
}

/// Appends `x` as four little-endian bytes.
fn push_le32(out: &mut Vec<u8>, x: u32)
    ensures
        final(out)@ == old(out)@ + le32(x as int),
{
    out.push((x % 256) as u8);
    out.push(((x / 256) % 256) as u8);
    out.push(((x / 65536) % 256) as u8);
    out.push(((x / 16777216) % 256) as u8);
    assert(final(out)@ =~= old(out)@ + le32(x as int));
}

/// Appends `x` as two little-endian bytes.
fn push_le16(out: &mut Vec<u8>, x: u32)
    requires
        x < 65536,
    ensures
        final(out)@ == old(out)@ + le16(x as int),
{
    out.push((x % 256) as u8);
    out.push(((x / 256) % 256) as u8);
    assert(final(out)@ =~= old(out)@ + le16(x as int));
}

/// Appends the four bytes `b`.
fn push_tag(out: &mut Vec<u8>, b: [u8; 4])
    ensures
        final(out)@ == old(out)@ + seq![b[0], b[1], b[2], b[3]],
{
    out.push(b[0]);
    out.push(b[1]);
    out.push(b[2]);
    out.push(b[3]);
    assert(final(out)@ =~= old(out)@ + seq![b[0], b[1], b[2], b[3]]);
}

/// Packs 16-bit samples into a mono PCM WAV file at `RATE`: the RIFF
/// header followed by each sample as a little-endian word.
pub fn wav_bytes(samples: &[i16]) -> (out: Vec<u8>)
    requires
        36 + 2 * samples@.len() <= u32::MAX,
    ensures
        out@ == wav_header(samples@.len()) + wav_data(samples@),
        out@.len() == 44 + 2 * samples@.len(),
{
    let n = samples.len() as u32;
    let data_len = n * 2;
    let mut out: Vec<u8> = Vec::new();
    push_tag(&mut out, [82u8, 73u8, 70u8, 70u8]);
    push_le32(&mut out, 36 + data_len);
    push_tag(&mut out, [87u8, 65u8, 86u8, 69u8]);
    push_tag(&mut out, [102u8, 109u8, 116u8, 32u8]);
    push_le32(&mut out, 16);
    push_le16(&mut out, 1);
    push_le16(&mut out, 1);
    push_le32(&mut out, RATE);
    push_le32(&mut out, RATE * 2);
    push_le16(&mut out, 2);
    push_le16(&mut out, 16);
    push_tag(&mut out, [100u8, 97u8, 116u8, 97u8]);
    push_le32(&mut out, data_len);
    let ghost header = out@;
    assert(header =~= wav_header(samples@.len()));
    let mut i: usize = 0;
    while i < samples.len()
        invariant
            i <= samples@.len(),
            header == wav_header(samples@.len()),
            header.len() == 44,
            out@ == header + wav_data(samples@.subrange(0, i as int)),
            wav_data(samples@.subrange(0, i as int)).len() == 2 * i,
        decreases samples@.len() - i,
    {
        let s = samples[i];
        let word: u32 = if s < 0 {
            (s as i32 + 65536) as u32
        } else {
            s as u32
        };
        let ghost before = out@;
        push_le16(&mut out, word);
        proof {
            let next = samples@.subrange(0, i as int + 1);
            assert(next.drop_last() == samples@.subrange(0, i as int));
            assert(next.last() == s);
            assert(out@ =~= header + wav_data(next));
        }
        i = i + 1;
    }
    assert(samples@.subrange(0, i as int) == samples@);
    out
}

/// One step of the synthesizer's linear congruential generator.
pub open spec fn lcg(s: u32) -> u32 {
    ((s * 1664525 + 1013904223) % 0x1_0000_0000) as u32
}

/// The wrapping multiply-add the generator runs is the modular step.
proof fn lemma_lcg_wrapping(s0: u32)
    ensures
        s0.wrapping_mul(1664525u32).wrapping_add(1013904223u32) == lcg(s0),
{
    let m = 0x1_0000_0000int;
    let p = s0 as nat * 1664525nat;
    let q = p % (m as nat);
    assert(0 <= q < m);
    vstd::arithmetic::div_mod::lemma_add_mod_noop(p as int, 1013904223, m);
    vstd::arithmetic::div_mod::lemma_small_mod(1013904223nat, m as nat);
    vstd::arithmetic::div_mod::lemma_mod_twice(p as int, m);
    if q + 1013904223 < m {
        vstd::arithmetic::div_mod::lemma_small_mod((q + 1013904223) as nat, m as nat);
    } else {
        vstd::arithmetic::div_mod::lemma_small_mod((q + 1013904223 - m) as nat, m as nat);
        vstd::arithmetic::div_mod::lemma_mod_add_multiples_vanish(q + 1013904223 - m, m);
    }
}

/// Advances the noise generator and returns the top 24 bits of its new
/// state (the synthesizer scales them to `[-1, 1)`).
pub fn rng_step(state: &mut u32) -> (r: u32)
    ensures
        *final(state) == lcg(*old(state)),
        r == *final(state) / 256,
        r < 0x100_0000,
{
    let s0 = *state;
    let s1 = s0.wrapping_mul(1664525u32).wrapping_add(1013904223u32);
    proof {
        lemma_lcg_wrapping(s0);
    }
    *state = s1;
    let r = s1 >> 8u32;
    assert(r == s1 / 256 && r < 0x100_0000) by (bit_vector)
        requires
            r == s1 >> 8u32,
    ;
    r
}

/// The tracks to stop and to start when track `level` is requested
/// while `playing` plays.
pub open spec fn play_cue(playing: Option<usize>, level: usize) -> (Option<usize>, Option<usize>) {
    if playing == Some(level) {
        (None, None)
    } else {
        (playing, Some(level))
    }
}

/// Requesting the track that the previous request started stops and
/// starts nothing.
pub proof fn lemma_music_idempotent(level: usize)
    ensures
        play_cue(Some(level), level) == (None::<usize>, None::<usize>),
{
}

/// Which music track is playing, if any.
pub struct MusicPlayer {
    pub playing: Option<usize>,
}

impl MusicPlayer {
    /// Nothing playing yet.
    pub fn new() -> (m: MusicPlayer)
        ensures
            m.playing is None,
    {
        MusicPlayer { playing: None }
    }

    /// Starts looping track `level`: returns the track to stop and the
    /// track to start. Asking for the track already playing changes
    /// nothing.
    pub fn play_music(&mut self, level: usize) -> (cue: (Option<usize>, Option<usize>))
        ensures
            final(self).playing == Some(level),
            cue == play_cue(old(self).playing, level),
    {
        if self.playing == Some(level) {
            return (None, None);
        }
        let stop = self.stop_music();
        self.playing = Some(level);
        (stop, Some(level))
    }

    /// Stops the music: returns the track to stop, if one was playing.
    pub fn stop_music(&mut self) -> (stop: Option<usize>)
        ensures
            final(self).playing is None,
            stop == old(self).playing,
    {
        self.playing.take()
    }
}

/// The value four bytes of `s` starting at `i` encode, little-endian.
pub open spec fn read_le32(s: Seq<u8>, i: int) -> int {
    s[i] + 256 * s[i + 1] + 65536 * s[i + 2] + 16777216 * s[i + 3]
}

/// The value two bytes of `s` starting at `i` encode, little-endian.
pub open spec fn read_le16(s: Seq<u8>, i: int) -> int {
    s[i] + 256 * s[i + 1]
}

/// Four little-endian bytes decode back to the 32-bit value they encode.
pub proof fn lemma_le32_roundtrip(x: int)
    requires
        0 <= x < 0x1_0000_0000,
    ensures
        le32(x).len() == 4,
        read_le32(le32(x), 0) == x,
{
    let b = le32(x);
    assert(b[0] == x % 256);
    assert(b[1] == (x / 256) % 256);
    assert(b[2] == (x / 65536) % 256);
    assert(b[3] == (x / 16777216) % 256);
    assert((x % 256) + 256 * ((x / 256) % 256) + 65536 * ((x / 65536) % 256) + 16777216 * ((x
        / 16777216) % 256) == x) by (nonlinear_arith)
        requires
            0 <= x < 0x1_0000_0000,
    ;
}

/// Two little-endian bytes decode back to the 16-bit value they encode.
pub proof fn lemma_le16_roundtrip(x: int)
    requires
        0 <= x < 0x1_0000,
    ensures
        le16(x).len() == 2,
        read_le16(le16(x), 0) == x,
{
    let b = le16(x);
    assert(b[0] == x % 256);
    assert(b[1] == (x / 256) % 256);
    assert((x % 256) + 256 * ((x / 256) % 256) == x) by (nonlinear_arith)
        requires
            0 <= x < 0x1_0000,
    ;
}

/// The size fields of a WAV header read back as what they describe: the
/// RIFF size (bytes 4..8) is `36 + 2n`, the data size (bytes 40..44) is
/// `2n`, the sample rate (bytes 24..28) is `RATE`, and the channel count
/// and sample width are 1 and 16.
pub proof fn lemma_wav_header_fields(n: nat)
    requires
        36 + 2 * n <= u32::MAX,
    ensures
        wav_header(n).len() == 44,
        read_le32(wav_header(n), 4) == 36 + 2 * n,
        read_le32(wav_header(n), 40) == 2 * n,
        read_le32(wav_header(n), 24) == RATE,
        read_le16(wav_header(n), 22) == 1,
        read_le16(wav_header(n), 34) == 16,
{
    let h = wav_header(n);
    lemma_le32_roundtrip(36 + 2 * n as int);
    lemma_le32_roundtrip(2 * n as int);
    lemma_le32_roundtrip(RATE as int);
    lemma_le16_roundtrip(1);
    lemma_le16_roundtrip(16);
    lemma_le32_roundtrip(16);
    lemma_le32_roundtrip(2 * RATE as int);
    lemma_le16_roundtrip(2);
    let a = le32(36 + 2 * n as int);
    let d = le32(2 * n as int);
    let r = le32(RATE as int);
    assert(h[4] == a[0] && h[5] == a[1] && h[6] == a[2] && h[7] == a[3]);
    assert(h[40] == d[0] && h[41] == d[1] && h[42] == d[2] && h[43] == d[3]);
    assert(h[24] == r[0] && h[25] == r[1] && h[26] == r[2] && h[27] == r[3]);
    assert(h[22] == le16(1)[0] && h[23] == le16(1)[1]);
    assert(h[34] == le16(16)[0] && h[35] == le16(16)[1]);
}

/// Requesting a track other than the one playing stops the one playing
/// (if any) and starts the requested one.
pub proof fn lemma_music_switch(playing: Option<usize>, level: usize)
    requires
        playing != Some(level),
    ensures
        play_cue(playing, level).0 == playing,
        play_cue(playing, level).1 == Some(level),
{
}

/// A sample's word is its two's complement bit pattern: a value in
/// `0..65536` congruent to the sample modulo 65536.
pub proof fn lemma_sample_word(x: i16)
    ensures
        0 <= sample_word(x) < 65536,
        sample_word(x) == x || sample_word(x) == x + 65536,
        x >= 0 ==> sample_word(x) == x,
{
}

/// Sample `i` of a clip reads back from bytes `2i` and `2i + 1` of its
/// WAV data as the sample's 16-bit word.
pub proof fn lemma_wav_data_samples(samples: Seq<i16>, i: int)
    requires
        0 <= i < samples.len(),
    ensures
        wav_data(samples).len() == 2 * samples.len(),
        read_le16(wav_data(samples), 2 * i) == sample_word(samples[i]),
    decreases samples.len(),
{
    let init = samples.drop_last();
    let d = wav_data(init);
    let last = le16(sample_word(samples.last()));
    if samples.len() > 1 {
        lemma_wav_data_samples(init, if i < init.len() { i } else { 0 });
    } else {
        assert(init.len() == 0);
    }
    assert(d.len() == 2 * init.len());
    if i < init.len() {
        assert(wav_data(samples)[2 * i] == d[2 * i]);
        assert(wav_data(samples)[2 * i + 1] == d[2 * i + 1]);
    } else {
        lemma_sample_word(samples.last());
        lemma_le16_roundtrip(sample_word(samples.last()));
        assert(wav_data(samples)[2 * i] == last[0]);
        assert(wav_data(samples)[2 * i + 1] == last[1]);
    }
}

} // verus!
