use arcana::audio::{rng_step, wav_bytes, MusicPlayer, RATE};

#[test]
fn wav_header_fields() {
    let out = wav_bytes(&[0, 1, -1]);
    assert_eq!(out.len(), 44 + 6);
    assert_eq!(&out[0..4], b"RIFF");
    assert_eq!(&out[4..8], &(36u32 + 6).to_le_bytes());
    assert_eq!(&out[8..16], b"WAVEfmt ");
    assert_eq!(&out[16..20], &16u32.to_le_bytes());
    assert_eq!(&out[20..22], &1u16.to_le_bytes());
    assert_eq!(&out[22..24], &1u16.to_le_bytes());
    assert_eq!(&out[24..28], &RATE.to_le_bytes());
    assert_eq!(&out[28..32], &(RATE * 2).to_le_bytes());
    assert_eq!(&out[32..34], &2u16.to_le_bytes());
    assert_eq!(&out[34..36], &16u16.to_le_bytes());
    assert_eq!(&out[36..40], b"data");
    assert_eq!(&out[40..44], &6u32.to_le_bytes());
    assert_eq!(&out[44..], &[0, 0, 1, 0, 0xff, 0xff]);
}

#[test]
fn wav_samples_little_endian() {
    let out = wav_bytes(&[32000, -32000, i16::MIN]);
    assert_eq!(&out[44..46], &32000i16.to_le_bytes());
    assert_eq!(&out[46..48], &(-32000i16).to_le_bytes());
    assert_eq!(&out[48..50], &i16::MIN.to_le_bytes());
}

#[test]
fn wav_empty_clip() {
    let out = wav_bytes(&[]);
    assert_eq!(out.len(), 44);
    assert_eq!(&out[40..44], &[0, 0, 0, 0]);
}

#[test]
fn rng_steps() {
    let mut s = 0u32;
    assert_eq!(rng_step(&mut s), 3960563);
    assert_eq!(s, 1013904223);
    let mut s = 12345u32;
    assert_eq!(rng_step(&mut s), 342300);
    assert_eq!(s, 87628868);
}

#[test]
fn music_switching() {
    let mut m = MusicPlayer::new();
    assert_eq!(m.play_music(0), (None, Some(0)));
    assert_eq!(m.play_music(0), (None, None));
    assert_eq!(m.play_music(2), (Some(0), Some(2)));
    assert_eq!(m.stop_music(), Some(2));
    assert_eq!(m.stop_music(), None);
    assert_eq!(m.playing, None);
}
