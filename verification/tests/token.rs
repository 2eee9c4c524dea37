use horde::errors::StorageError;
use horde::token::{format_token, parse_token};

#[test]
fn zero_formats_to_the_nil_text() {
    assert_eq!(format_token(0), "00000000-0000-0000-0000-000000000000");
}

#[test]
fn known_value_formats_exactly() {
    let t: u128 = 0x67e55044_10b1_426f_9247_bb680e5fe0c8;
    assert_eq!(format_token(t), "67e55044-10b1-426f-9247-bb680e5fe0c8");
}

#[test]
fn format_then_parse_round_trips() {
    let samples: [u128; 5] = [
        0,
        1,
        u128::MAX,
        0x67e55044_10b1_426f_9247_bb680e5fe0c8,
        0x00000000_ffff_0000_abcd_ef0123456789,
    ];
    for t in samples {
        assert_eq!(parse_token(&format_token(t)).unwrap(), t);
    }
}

#[test]
fn parse_reads_a_known_text() {
    let t = parse_token("00000000-0000-0000-0000-000000000001").unwrap();
    assert_eq!(t, 1);
    let u = parse_token("ffffffff-ffff-ffff-ffff-ffffffffffff").unwrap();
    assert_eq!(u, u128::MAX);
}

#[test]
fn malformed_token_text_is_data_corruption() {
    for bad in [
        "",
        "not a token",
        "67e55044-10b1-426f-9247-bb680e5fe0c",   // too short
        "67e55044-10b1-426f-9247-bb680e5fe0c88", // too long
        "67e55044x10b1-426f-9247-bb680e5fe0c8",  // hyphen replaced
        "67E55044-10b1-426f-9247-bb680e5fe0c8",  // uppercase digit
        "67g55044-10b1-426f-9247-bb680e5fe0c8",  // not a hex digit
    ] {
        assert_eq!(parse_token(bad).err().unwrap(), StorageError::DataCorruption);
    }
}
