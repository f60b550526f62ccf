use ezcli::utf16::{decode_utf16, encode_utf16};

#[test]
fn encode_matches_std() {
    for s in ["", "A", "€", "😀", "A€😀z", "黑风雷", "\u{FFFF}\u{10000}\u{10FFFF}"] {
        let expected: Vec<u16> = s.encode_utf16().collect();
        assert_eq!(encode_utf16(s), expected);
    }
    assert_eq!(encode_utf16("A€😀"), vec![0x41, 0x20AC, 0xD83D, 0xDE00]);
}

#[test]
fn decode_matches_std() {
    let cases: Vec<Vec<u16>> = vec![
        vec![],
        vec![0x41, 0x20AC, 0xD83D, 0xDE00],
        vec![0xD83D],
        vec![0xDE00, 0x41],
        vec![0xD83D, 0x41],
        vec![0x41, 0xDBFF, 0xDFFF],
    ];
    for units in cases {
        assert_eq!(decode_utf16(&units), String::from_utf16(&units).ok());
    }
}

#[test]
fn decode_rejects_lone_surrogates() {
    assert_eq!(decode_utf16(&vec![0xD800]), None);
    assert_eq!(decode_utf16(&vec![0xDC00]), None);
}

#[test]
fn round_trip() {
    for s in ["", "plain", "C:\\Users\\张三\\ezcli.exe", "😀😀", "\u{D7FF}\u{E000}"] {
        assert_eq!(decode_utf16(&encode_utf16(s)).as_deref(), Some(s));
    }
}
