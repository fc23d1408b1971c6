use mcommand::wav::make_pcm_wav;

#[test]
fn header_and_samples() {
    let bytes = make_pcm_wav(22_050, &[0, -1, 32767, -32768, 258]);
    assert_eq!(bytes.len(), 44 + 10);
    assert_eq!(&bytes[0..4], b"RIFF");
    assert_eq!(&bytes[4..8], &(36u32 + 10).to_le_bytes());
    assert_eq!(&bytes[8..12], b"WAVE");
    assert_eq!(&bytes[12..16], b"fmt ");
    assert_eq!(&bytes[16..20], &16u32.to_le_bytes());
    assert_eq!(&bytes[20..22], &1u16.to_le_bytes());
    assert_eq!(&bytes[22..24], &1u16.to_le_bytes());
    assert_eq!(&bytes[24..28], &22_050u32.to_le_bytes());
    assert_eq!(&bytes[28..32], &44_100u32.to_le_bytes());
    assert_eq!(&bytes[32..34], &2u16.to_le_bytes());
    assert_eq!(&bytes[34..36], &16u16.to_le_bytes());
    assert_eq!(&bytes[36..40], b"data");
    assert_eq!(&bytes[40..44], &10u32.to_le_bytes());
    assert_eq!(&bytes[44..], &[0, 0, 0xff, 0xff, 0xff, 0x7f, 0x00, 0x80, 0x02, 0x01]);
}

#[test]
fn empty_sound() {
    let bytes = make_pcm_wav(8_000, &[]);
    assert_eq!(bytes.len(), 44);
    assert_eq!(&bytes[4..8], &36u32.to_le_bytes());
    assert_eq!(&bytes[40..44], &0u32.to_le_bytes());
}
