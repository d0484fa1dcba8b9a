use tcp_teardown::frame::{decode_frame, encode_frame};
use tcp_teardown::mode::TeardownMode;

#[test]
fn encode_is_big_endian() {
    assert_eq!(encode_frame(23), [0, 0, 0, 23]);
    assert_eq!(encode_frame(0x0102_0304), [1, 2, 3, 4]);
    assert_eq!(encode_frame(u32::MAX), [255, 255, 255, 255]);
    assert_eq!(encode_frame(0), [0, 0, 0, 0]);
}

#[test]
fn decode_is_big_endian() {
    assert_eq!(decode_frame(&[0, 0, 0, 23]), 23);
    assert_eq!(decode_frame(&[1, 2, 3, 4]), 0x0102_0304);
    assert_eq!(decode_frame(&[0x80, 0, 0, 1]), 0x8000_0001);
}

#[test]
fn decode_undoes_encode() {
    for n in [0u32, 1, 22, 23, 255, 256, 65535, 65536, 16_777_216, 4_194_304, u32::MAX] {
        assert_eq!(decode_frame(&encode_frame(n)), n);
    }
}

#[test]
fn mode_names_are_kebab_case() {
    let names: Vec<&str> = TeardownMode::all().iter().map(|m| m.name()).collect();
    assert_eq!(
        names,
        vec![
            "close-immediately",
            "drain-then-close",
            "shutdown-write-then-drain",
            "shutdown-write-then-close",
            "sleep-then-close",
            "shutdown-both-then-close",
        ]
    );
}

#[test]
fn mode_names_parse_back() {
    for m in TeardownMode::all() {
        assert_eq!(TeardownMode::from_name(m.name()), Some(m));
    }
    assert_eq!(
        TeardownMode::from_name("shutdown-write-then-close"),
        Some(TeardownMode::ShutdownWriteThenClose)
    );
}

#[test]
fn unknown_mode_names_are_rejected() {
    assert_eq!(TeardownMode::from_name(""), None);
    assert_eq!(TeardownMode::from_name("close"), None);
    assert_eq!(TeardownMode::from_name("CloseImmediately"), None);
    assert_eq!(TeardownMode::from_name("close-immediately "), None);
}
