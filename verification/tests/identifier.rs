use peerchat::uuid::{Uuid, UuidV4, ErrorKind};

#[test]
fn generated_identifier_round_trips() {
    for _ in 0..32 {
        let u = Uuid::new();
        let text = u.format();
        let parsed = Uuid::parse(&text).expect("canonical text must parse");
        assert_eq!(parsed, u);
    }
}

#[test]
fn format_yields_five_hyphen_groups() {
    for _ in 0..8 {
        let u = Uuid::new();
        let text = u.format();
        assert_eq!(text.len(), 36);
        let groups: Vec<&[u8]> = text.split(|&b| b == b'-').collect();
        assert_eq!(groups.len(), 5);
        let lens: Vec<usize> = groups.iter().map(|g| g.len()).collect();
        assert_eq!(lens, vec![8, 4, 4, 4, 12]);
    }
}

#[test]
fn generated_identifier_has_version_and_variant_bits() {
    for _ in 0..8 {
        let u = Uuid::new();
        let text = u.format();
        // the version nibble is the high nibble of byte 6, printed at
        // offset 16; the variant bits sit in the high nibble of byte 8,
        // printed at offset 21
        assert_eq!(text[16], b'4');
        assert!(matches!(text[21], b'8' | b'9' | b'a' | b'b'));
    }
}

#[test]
fn known_vector_parses_and_formats_back() {
    let text = b"00010203-0405-0607-0809-0a0b0c0d0e0f";
    let u = Uuid::parse(text).expect("well-formed text");
    assert_eq!(u.format(), text.to_vec());
    let v4 = UuidV4::from_bytes([
        0x03, 0x02, 0x01, 0x00, 0x05, 0x04, 0x07, 0x06, 0x09, 0x08, 0x0f, 0x0e, 0x0d, 0x0c,
        0x0b, 0x0a,
    ]);
    assert_eq!(u, Uuid::from_v4(v4));
}

#[test]
fn uppercase_hex_is_read() {
    let u = Uuid::parse(b"00010203-0405-0607-0809-0A0B0C0D0E0F").expect("uppercase digits");
    assert_eq!(u.format(), b"00010203-0405-0607-0809-0a0b0c0d0e0f".to_vec());
}

#[test]
fn malformed_identifiers_are_rejected() {
    // four groups
    assert!(Uuid::parse(b"00010203-0405-0607-0809").is_err());
    // six groups
    assert!(Uuid::parse(b"00010203-0405-0607-0809-0a0b0c0d0e0f-00").is_err());
    // non-hex content
    let e = Uuid::parse(b"0001020g-0405-0607-0809-0a0b0c0d0e0f").unwrap_err();
    assert_eq!(e.kind, ErrorKind::ParseError);
    // wrong group widths
    assert!(Uuid::parse(b"0010203-04051-0607-0809-0a0b0c0d0e0f").is_err());
    // empty
    assert!(Uuid::parse(b"").is_err());
}

#[test]
fn default_identifier_is_all_zero() {
    let u = Uuid::default();
    assert_eq!(u.format(), b"00000000-0000-0000-0000-000000000000".to_vec());
}

#[test]
fn to_text_matches_format() {
    let u = Uuid::parse(b"00010203-0405-0607-0809-0a0b0c0d0e0f").unwrap();
    assert_eq!(u.to_text(), "00010203-0405-0607-0809-0a0b0c0d0e0f".to_string());
}

#[test]
fn same_compares_bytes() {
    let a = Uuid::parse(b"00010203-0405-0607-0809-0a0b0c0d0e0f").unwrap();
    let b = Uuid::parse(b"00010203-0405-0607-0809-0a0b0c0d0e0f").unwrap();
    let c = Uuid::parse(b"10010203-0405-0607-0809-0a0b0c0d0e0f").unwrap();
    assert!(a.same(&b));
    assert!(!a.same(&c));
}
