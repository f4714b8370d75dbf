use html_and_tar::entry::{EntryAttributes, HtmlAttributeSafeName, ParseSizeCause, TarError};
use html_and_tar::header::TarHeader;
use html_and_tar::octal::{format_radix, parse_radix};

#[test]
fn test_tar_header() {
    let attributes = EntryAttributes {
        mtime: Some(1234),
        uname: Some(HtmlAttributeSafeName::new("alice").unwrap()),
        gname: Some(HtmlAttributeSafeName::new("bob").unwrap()),
        devmajor: 42,
        devminor: 24,
    };

    let mut header = TarHeader::empty();
    header.assign_attributes(&attributes);
    header.assign_checksum();

    let after = EntryAttributes::from_header(&header);
    assert_eq!(after.mtime, attributes.mtime);
    assert_eq!(after.uname, attributes.uname);
    assert_eq!(after.gname, attributes.gname);
    assert_eq!(after.devmajor, attributes.devmajor);
    assert_eq!(after.devminor, attributes.devminor);
}

#[test]
fn octal_format_is_zero_padded() {
    let digits = format_radix(420, 11, 8);
    assert_eq!(digits, b"00000000644".to_vec());
    let digits = format_radix(0, 11, 8);
    assert_eq!(digits, b"00000000000".to_vec());
}

#[test]
fn octal_parse_inverts_format() {
    for value in [0u64, 1, 7, 8, 511, 512, 65535, 8589934591] {
        let digits = format_radix(value, 11, 8);
        assert_eq!(parse_radix(&digits, 8), Some(value));
    }
    assert_eq!(parse_radix(&b"".to_vec(), 8), None);
    assert_eq!(parse_radix(&b"9".to_vec(), 8), None);
}

#[test]
fn size_field_round_trips() {
    let mut header = TarHeader::empty();
    header.assign_size(1234);
    assert_eq!(header.parse_size(), Ok(1234));

    let zero = TarHeader::empty();
    assert_eq!(zero.parse_size(), Ok(0));
}

#[test]
fn size_field_reports_bad_digits() {
    let mut header = TarHeader::empty();
    let mut block = vec![0u8; 512];
    block[124..136].copy_from_slice(b"0000000x00\0\0");
    header.assign_from_bytes(&block);
    assert_eq!(
        header.parse_size(),
        Err(TarError::ParseSize(ParseSizeCause::BadDigit))
    );

    let mut no_nul = vec![0u8; 512];
    no_nul[124..136].copy_from_slice(b"777777777777");
    header.assign_from_bytes(&no_nul);
    assert_eq!(
        header.parse_size(),
        Err(TarError::ParseSize(ParseSizeCause::Empty))
    );
}

#[test]
fn checksum_matches_recomputation() {
    let mut header = TarHeader::empty();
    header.assign_permission_encoding_meta();
    header.assign_checksum();

    let bytes = header.as_bytes().to_vec();
    let mut sum: u32 = 0;
    for (i, b) in bytes.iter().enumerate() {
        if (148..156).contains(&i) {
            sum += 32;
        } else {
            sum += *b as u32;
        }
    }
    let field = &bytes[148..156];
    let digits = field[..6].to_vec();
    let parsed = parse_radix(&digits, 8).unwrap();
    assert_eq!(parsed as u32, sum);
    assert_eq!(field[6], 0);
    assert_eq!(field[7], b' ');
}

#[test]
fn names_must_be_attribute_safe() {
    assert!(HtmlAttributeSafeName::new("plain-name_7").is_ok());
    assert_eq!(
        HtmlAttributeSafeName::new("caf\u{e9}").unwrap_err(),
        TarError::NameNotAscii
    );
    assert_eq!(
        HtmlAttributeSafeName::new("a\"b").unwrap_err(),
        TarError::NameHasHtmlEscapes
    );
}
