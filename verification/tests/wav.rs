use omegawhisper::wav::to_wav_bytes;

#[test]
fn wav_files_have_a_correct_header() {
    let wav = to_wav_bytes(&[0i16; 10], 16_000, 1);
    assert_eq!(wav.len(), 44 + 20, "44-byte header plus 2 bytes per sample");
    assert_eq!(&wav[0..4], b"RIFF");
    assert_eq!(&wav[8..12], b"WAVE");
    assert_eq!(&wav[12..16], b"fmt ");
    assert_eq!(&wav[36..40], b"data");
    assert_eq!(u32::from_le_bytes(wav[4..8].try_into().unwrap()), 36 + 20);
    assert_eq!(
        u16::from_le_bytes(wav[22..24].try_into().unwrap()),
        1,
        "channels"
    );
    assert_eq!(
        u32::from_le_bytes(wav[24..28].try_into().unwrap()),
        16_000,
        "sample rate"
    );
    assert_eq!(
        u16::from_le_bytes(wav[34..36].try_into().unwrap()),
        16,
        "bits per sample"
    );
    assert_eq!(
        u32::from_le_bytes(wav[40..44].try_into().unwrap()),
        20,
        "data size"
    );

    // An empty recording still produces a valid, empty file.
    assert_eq!(to_wav_bytes(&[], 16_000, 1).len(), 44);
}

#[test]
fn the_header_matches_the_format_for_any_rate_and_channel_count() {
    let wav = to_wav_bytes(&[1, 2, 3, 4], 48_000, 2);
    assert_eq!(u16::from_le_bytes(wav[20..22].try_into().unwrap()), 1, "PCM");
    assert_eq!(u16::from_le_bytes(wav[22..24].try_into().unwrap()), 2, "channels");
    assert_eq!(u32::from_le_bytes(wav[24..28].try_into().unwrap()), 48_000);
    assert_eq!(
        u32::from_le_bytes(wav[28..32].try_into().unwrap()),
        48_000 * 2 * 2,
        "byte rate"
    );
    assert_eq!(u16::from_le_bytes(wav[32..34].try_into().unwrap()), 4, "block size");
    assert_eq!(u32::from_le_bytes(wav[16..20].try_into().unwrap()), 16, "fmt size");
}

#[test]
fn every_sample_is_written_as_two_little_endian_bytes() {
    let samples: &[i16] = &[0, 1, -1, i16::MAX, -i16::MAX, i16::MIN, 0x1234];
    let wav = to_wav_bytes(samples, 16_000, 1);
    assert_eq!(wav.len(), 44 + 2 * samples.len());
    for (k, &s) in samples.iter().enumerate() {
        let got = i16::from_le_bytes(wav[44 + 2 * k..46 + 2 * k].try_into().unwrap());
        assert_eq!(got, s, "sample {k}");
    }
    assert_eq!(&wav[44 + 12..44 + 14], &[0x34, 0x12]);
    assert_eq!(&wav[46..48], &[1, 0]);
    assert_eq!(&wav[48..50], &[0xff, 0xff]);
}
