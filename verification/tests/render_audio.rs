use enginesim::render_audio::{fill_sources, nearest_populated, wav_mono_i16_bytes};

#[test]
fn wav_header_describes_mono_16_bit_pcm() {
    let bytes = wav_mono_i16_bytes(44_100, &[0, 1, -1, i16::MAX, i16::MIN]);
    assert_eq!(bytes.len(), 44 + 10);
    assert_eq!(&bytes[0..4], b"RIFF");
    assert_eq!(u32::from_le_bytes([bytes[4], bytes[5], bytes[6], bytes[7]]), 46);
    assert_eq!(&bytes[8..12], b"WAVE");
    assert_eq!(&bytes[12..16], b"fmt ");
    assert_eq!(u32::from_le_bytes([bytes[16], bytes[17], bytes[18], bytes[19]]), 16);
    assert_eq!(u16::from_le_bytes([bytes[20], bytes[21]]), 1);
    assert_eq!(u16::from_le_bytes([bytes[22], bytes[23]]), 1);
    assert_eq!(
        u32::from_le_bytes([bytes[24], bytes[25], bytes[26], bytes[27]]),
        44_100
    );
    assert_eq!(
        u32::from_le_bytes([bytes[28], bytes[29], bytes[30], bytes[31]]),
        88_200
    );
    assert_eq!(u16::from_le_bytes([bytes[32], bytes[33]]), 2);
    assert_eq!(u16::from_le_bytes([bytes[34], bytes[35]]), 16);
    assert_eq!(&bytes[36..40], b"data");
    assert_eq!(u32::from_le_bytes([bytes[40], bytes[41], bytes[42], bytes[43]]), 10);
    assert_eq!(&bytes[44..], &[0, 0, 1, 0, 0xff, 0xff, 0xff, 0x7f, 0x00, 0x80]);
}

#[test]
fn empty_wav_has_only_a_header() {
    let bytes = wav_mono_i16_bytes(8_000, &[]);
    assert_eq!(bytes.len(), 44);
    assert_eq!(u32::from_le_bytes([bytes[4], bytes[5], bytes[6], bytes[7]]), 36);
}

#[test]
fn nearest_populated_searches_forward_then_backward() {
    // bins:        0  1  2  3  4  5  6  7
    let count = [0u64, 0, 0, 5, 0, 2, 0, 0];
    assert_eq!(nearest_populated(&count, 4), Some(5));
    assert_eq!(nearest_populated(&count, 6), Some(5));
    assert_eq!(nearest_populated(&count, 0), Some(3));
    assert_eq!(nearest_populated(&count, 1), Some(3));
    assert_eq!(nearest_populated(&count, 2), Some(3));
}

#[test]
fn nearest_populated_wraps_round_the_cycle() {
    let count = [0u64, 0, 0, 0, 0, 0, 0, 1];
    assert_eq!(nearest_populated(&count, 0), Some(7));
    assert_eq!(nearest_populated(&count, 3), Some(7));
    assert_eq!(nearest_populated(&[0u64, 0, 0], 1), None);
    assert_eq!(nearest_populated(&[4u64], 0), Some(0));
}

#[test]
fn fill_sources_use_own_bin_or_nearest_populated() {
    let count = [0u64, 3, 0, 0, 0, 0, 1, 0];
    assert_eq!(
        fill_sources(&count),
        vec![Some(1), Some(1), Some(1), Some(1), Some(6), Some(6), Some(6), Some(6)]
    );
    assert_eq!(fill_sources(&[0u64, 0]), vec![None, None]);
    assert_eq!(fill_sources(&[]), Vec::<Option<usize>>::new());
}
