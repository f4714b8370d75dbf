use html_and_tar::decompiler::{ParsedEscape, ParsedFileData, TarDecompiler};
use html_and_tar::engine::TarEngine;
use html_and_tar::entry::{Entry, EntryAttributes, External, HtmlAttributeSafeName};

fn name(s: &str) -> HtmlAttributeSafeName {
    HtmlAttributeSafeName::new(s).unwrap()
}

#[test]
fn double_header_classifies_as_entry() {
    let mut engine = TarEngine::new();
    let emitted = engine.escaped_base64(Entry {
        name: name("a.txt"),
        data: b"hi".to_vec(),
        attributes: EntryAttributes::default(),
    });

    assert_eq!(emitted.padding.len(), 0);
    assert_eq!(emitted.data, b"aGk=".to_vec());
    let header_bytes = emitted.header.as_bytes();
    assert!(header_bytes.starts_with(b"\0<noscript type=none class=\"wah_polyglot_data\" data-a=\""));
    assert_eq!(header_bytes[156], b'x');
    let file_bytes = emitted.file.as_bytes();
    assert!(file_bytes.starts_with(b"a.txt\0"));
    assert_eq!(&file_bytes[90..100], b"\" data-b=\"");
    assert_eq!(&file_bytes[498..500], b"\">");

    let mut stream = Vec::new();
    stream.extend_from_slice(header_bytes);
    stream.extend_from_slice(file_bytes);
    stream.extend_from_slice(&emitted.data);

    let mut decompiler = TarDecompiler::new();
    match decompiler.next_escape(&stream).unwrap() {
        ParsedEscape::Entry(file, range) => {
            assert_eq!(range, 1024..1028);
            match TarDecompiler::try_file_data(&file, &stream[range]).unwrap() {
                ParsedFileData::Data(content) => assert_eq!(content, b"hi".to_vec()),
                ParsedFileData::Nothing => panic!("entry carried no data"),
            }
        }
        _ => panic!("expected an entry"),
    }
}

#[test]
fn zero_records_classify_as_eof() {
    let stream = vec![0u8; 1024];
    let mut decompiler = TarDecompiler::new();
    match decompiler.next_escape(&stream).unwrap() {
        ParsedEscape::Eof { end } => assert_eq!(end, 1024),
        _ => panic!("expected the archive end"),
    }

    let mut closed = vec![0u8; 1024];
    closed.extend_from_slice(b"</noscript>");
    let mut decompiler = TarDecompiler::new();
    match decompiler.continue_escape(&closed).unwrap() {
        ParsedEscape::Eof { end } => assert_eq!(end, 1035),
        _ => panic!("expected the archive end"),
    }
}

#[test]
fn external_entry_is_sparse_and_carries_no_data() {
    let mut engine = TarEngine::new();
    let emitted = engine.escaped_external(External {
        name: name("big"),
        realsize: 1 << 20,
        reference: name("blob/0001"),
        attributes: EntryAttributes::default(),
    });

    let file_bytes = emitted.file.as_bytes();
    assert_eq!(file_bytes[156], b'S');
    assert_eq!(&file_bytes[158..167], b"blob/0001");
    assert_eq!(&file_bytes[452..463], b"00004000000");
    assert!(emitted.data.is_empty());

    match TarDecompiler::file_data(&emitted.file, b"") {
        ParsedFileData::Nothing => {}
        ParsedFileData::Data(_) => panic!("a sparse entry must carry nothing"),
    }
}

#[test]
fn end_of_escape_header_reopens_html() {
    let mut engine = TarEngine::new();
    let _ = engine.escaped_base64(Entry {
        name: name("x"),
        data: vec![],
        attributes: EntryAttributes::default(),
    });
    let sentinel = engine.escaped_end(17);
    let bytes = sentinel.header.as_bytes();
    assert!(bytes.starts_with(b"\0</noscript><noscript type=none>"));
    assert_eq!(&bytes[488..500], b"\0</noscript>");
    assert_eq!(sentinel.header.parse_size(), Ok(17));
}

#[test]
fn eof_inside_escape_closes_the_element() {
    let mut engine = TarEngine::new();
    let _ = engine.escaped_base64(Entry {
        name: name("x"),
        data: b"abc".to_vec(),
        attributes: EntryAttributes::default(),
    });
    let eof = engine.escaped_eof();
    assert_eq!(eof.data, b"</noscript>".to_vec());
    assert!(eof.header.as_bytes().iter().all(|b| *b == 0));
    assert!(eof.file.as_bytes().iter().all(|b| *b == 0));

    let mut fresh = TarEngine::new();
    let eof = fresh.escaped_eof();
    assert!(eof.data.is_empty());
}

#[test]
fn truncated_streams_are_refused() {
    let short = vec![0u8; 100];
    let mut decompiler = TarDecompiler::new();
    assert!(matches!(
        decompiler.next_escape(&short),
        Err(html_and_tar::entry::TarError::NotEnoughData)
    ));
}

#[test]
fn a_wrong_extension_header_is_refused() {
    let mut engine = TarEngine::new();
    let emitted = engine.escaped_base64(Entry {
        name: name("a"),
        data: b"x".to_vec(),
        attributes: EntryAttributes::default(),
    });
    // Swap the two headers: the first record then carries a plain typeflag.
    let mut stream = Vec::new();
    stream.extend_from_slice(emitted.file.as_bytes());
    stream.extend_from_slice(emitted.header.as_bytes());
    stream.extend_from_slice(&emitted.data);
    let mut decompiler = TarDecompiler::new();
    assert!(matches!(
        decompiler.next_escape(&stream),
        Err(html_and_tar::entry::TarError::NotAnExpectedEscape)
    ));
}

#[test]
fn an_unterminated_name_is_not_a_start() {
    let mut block = vec![0u8; 2048];
    for b in block[0..100].iter_mut() {
        *b = b'a';
    }
    block[156] = b'x';
    let mut decompiler = TarDecompiler::new();
    assert!(matches!(
        decompiler.start_of_file(&block),
        Err(html_and_tar::entry::TarError::NotAStart)
    ));
}

#[test]
fn initial_header_range_covers_the_stored_head() {
    let mut engine = TarEngine::new();
    let head = b"<!DOCTYPE html><html>";
    let init = engine.start_of_file(head, 40);

    let mut data = Vec::new();
    data.extend_from_slice(init.header.as_bytes());
    data.extend_from_slice(&init.extra);
    data.extend_from_slice(&vec![b'x'; 19]);

    let mut decompiler = TarDecompiler::new();
    let ranges = decompiler.start_of_file(&data).unwrap();
    assert_eq!(ranges.header, 1..21);
    assert_eq!(&data[ranges.header.clone()], b"<!DOCTYPE html><html");
    assert_eq!(ranges.continues.end, 512 + 21 + 19);
}

#[test]
fn a_short_payload_classifies_and_fails_only_at_the_data() {
    let mut engine = TarEngine::new();
    let emitted = engine.escaped_base64(Entry {
        name: name("cut"),
        data: b"hi".to_vec(),
        attributes: EntryAttributes::default(),
    });

    // The headers advertise four payload bytes, but none follow.
    let mut stream = Vec::new();
    stream.extend_from_slice(emitted.header.as_bytes());
    stream.extend_from_slice(emitted.file.as_bytes());

    let mut decompiler = TarDecompiler::new();
    match decompiler.next_escape(&stream).unwrap() {
        ParsedEscape::Entry(file, range) => {
            assert_eq!(range.clone(), 1024..1028);
            assert!(matches!(
                decompiler.escaped_data(&stream, &ParsedEscape::Entry(file, range)),
                Err(html_and_tar::entry::TarError::NotEnoughData)
            ));
        }
        _ => panic!("expected an entry"),
    }
}
