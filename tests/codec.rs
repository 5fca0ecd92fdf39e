use encdec::utf16::{decode_from_utf16, decode_symbol, encode_code_point, encode_in_utf16, CodecError};

#[test]
fn encode_supplementary_code_point() {
    assert_eq!(encode_in_utf16(&[0x10001]), Ok(vec![0xD800, 0xDC01]));
}

#[test]
fn decode_surrogate_pair() {
    assert_eq!(decode_from_utf16(&[0xD800, 0xDC01]), Ok(vec![0x10001]));
}

#[test]
fn encode_last_bmp_code_point_as_one_unit() {
    assert_eq!(encode_in_utf16(&[0xFFFF]), Ok(vec![0xFFFF]));
}

#[test]
fn decode_ascii_passes_through() {
    assert_eq!(decode_from_utf16(&[0x0041]), Ok(vec![0x41]));
}

#[test]
fn decode_trailing_high_surrogate_fails() {
    assert_eq!(
        decode_from_utf16(&[0xD800]),
        Err(CodecError::UnpairedHighSurrogate { index: 0 })
    );
}

#[test]
fn decode_high_surrogate_without_low_fails() {
    assert_eq!(
        decode_from_utf16(&[0xD800, 0x0041]),
        Err(CodecError::InvalidSurrogatePair { index: 0 })
    );
}

#[test]
fn decode_reports_position_of_bad_pair() {
    assert_eq!(
        decode_from_utf16(&[0x41, 0xD800, 0xDC00, 0x42, 0xDBFF, 0xDBFF]),
        Err(CodecError::InvalidSurrogatePair { index: 4 })
    );
}

#[test]
fn decode_lone_low_surrogate_passes_through() {
    assert_eq!(decode_from_utf16(&[0xDC00, 0x41]), Ok(vec![0xDC00, 0x41]));
}

#[test]
fn decode_empty() {
    assert_eq!(decode_from_utf16(&[]), Ok(vec![]));
}

#[test]
fn encode_empty() {
    assert_eq!(encode_in_utf16(&[]), Ok(vec![]));
}

#[test]
fn encode_mixed_sequence_in_order() {
    assert_eq!(
        encode_in_utf16(&[0x48, 0xE1, 0x9122, 0x1869F, 0x10FFFF]),
        Ok(vec![0x48, 0xE1, 0x9122, 0xD821, 0xDE9F, 0xDBFF, 0xDFFF])
    );
}

#[test]
fn encode_surrogate_code_point_fails() {
    assert_eq!(
        encode_in_utf16(&[0x41, 0xD800, 0x110000]),
        Err(CodecError::InvalidCodePoint { index: 1, value: 0xD800 })
    );
}

#[test]
fn encode_code_point_above_range_fails() {
    assert_eq!(
        encode_in_utf16(&[0x10FFFF, 0x110000]),
        Err(CodecError::InvalidCodePoint { index: 1, value: 0x110000 })
    );
}

#[test]
fn encode_single_code_points() {
    assert_eq!(encode_code_point(0), Some(vec![0]));
    assert_eq!(encode_code_point(0xD7FF), Some(vec![0xD7FF]));
    assert_eq!(encode_code_point(0xE000), Some(vec![0xE000]));
    assert_eq!(encode_code_point(0x10000), Some(vec![0xD800, 0xDC00]));
    assert_eq!(encode_code_point(0x10FFFF), Some(vec![0xDBFF, 0xDFFF]));
    assert_eq!(encode_code_point(0xDFFF), None);
    assert_eq!(encode_code_point(0x110000), None);
    assert_eq!(encode_code_point(u32::MAX), None);
}

#[test]
fn decode_symbol_steps() {
    let units = [0x41, 0xD800, 0xDC01];
    assert_eq!(decode_symbol(&units, 0), Ok(Some((0x41, 1))));
    assert_eq!(decode_symbol(&units, 1), Ok(Some((0x10001, 2))));
    assert_eq!(decode_symbol(&units, 3), Ok(None));
    assert_eq!(decode_symbol(&units, 4), Err(CodecError::IndexOutOfBounds { index: 4 }));
}

#[test]
fn unit_count_law() {
    for cp in (0u32..0x110000).step_by(97) {
        if (0xD800..=0xDFFF).contains(&cp) {
            continue;
        }
        let units = encode_code_point(cp).unwrap();
        if cp < 0x10000 {
            assert_eq!(units, vec![cp as u16]);
        } else {
            assert_eq!(units.len(), 2);
            assert!((0xD800..=0xDBFF).contains(&units[0]));
            assert!((0xDC00..=0xDFFF).contains(&units[1]));
        }
    }
}

#[test]
fn round_trip_whole_bmp() {
    for cp in 0u32..0x10000 {
        if (0xD800..=0xDFFF).contains(&cp) {
            continue;
        }
        let units = encode_in_utf16(&[cp]).unwrap();
        assert_eq!(decode_from_utf16(&units), Ok(vec![cp]));
    }
}

#[test]
fn round_trip_each_supplementary_slice() {
    for slice in 0u32..0x400 {
        for offset in [0u32, 0x155, 0x3FF] {
            let cp = 0x10000 + (slice << 10) + offset;
            let units = encode_in_utf16(&[cp]).unwrap();
            assert_eq!(decode_from_utf16(&units), Ok(vec![cp]));
        }
    }
}

#[test]
fn round_trip_sequence() {
    let cps = vec![0x48, 0x65, 0x20, 0xE1, 0x9122, 0x1869F, 0x0, 0xFFFF, 0x10000];
    let units = encode_in_utf16(&cps).unwrap();
    assert_eq!(units.len(), 11);
    assert_eq!(decode_from_utf16(&units), Ok(cps));
}
