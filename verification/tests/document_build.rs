use html_and_tar::builder::{build, TarItem};
use html_and_tar::document::SourceDocument;
use html_and_tar::entry::{Entry, EntryAttributes, HtmlAttributeSafeName};

const PAGE: &str = "<!DOCTYPE html><html><head><title>t</title></head><body><script id=WAH_POLYGLOT_HTML_PLUS_TAR_STAGE0>/*s*/</script></body></html>";

fn entry(name: &str, data: &[u8]) -> TarItem {
    TarItem::Entry(Entry {
        name: HtmlAttributeSafeName::new(name).unwrap(),
        data: data.to_vec(),
        attributes: EntryAttributes::default(),
    })
}

fn find(haystack: &[u8], needle: &[u8]) -> Option<usize> {
    if needle.is_empty() || haystack.len() < needle.len() {
        return None;
    }
    (0..=haystack.len() - needle.len()).find(|&i| &haystack[i..i + needle.len()] == needle)
}

#[test]
fn one_entry_lays_out_as_html_and_tar() {
    let mut source = SourceDocument::new(PAGE);
    let artifact = build(&mut source, vec![entry("a.txt", b"hi")], None).unwrap();

    assert!(artifact.starts_with(b"\0<!DOCTYPE html><html"));
    assert!(find(&artifact[..512], b" data-a=\"").is_some());

    let extra = &artifact[512..533];
    assert!(extra[..10].iter().all(|b| b.is_ascii_digit()));
    assert_eq!(extra[10..].to_vec(), b" comment=\">".to_vec());

    let opener = find(
        &artifact,
        b"\0<noscript type=none class=\"wah_polyglot_data\"".as_slice(),
    )
    .expect("no escape header");
    assert_eq!(opener % 512, 0);

    let file_at = find(&artifact, b"a.txt\0").expect("no file header");
    assert_eq!(file_at % 512, 0);
    assert!(find(&artifact, b"aGk=").is_some());

    let term = find(&artifact, b"</noscript>").expect("no element closer");
    assert!(term >= 1024);
    assert!(artifact[term - 1024..term].iter().all(|b| *b == 0));

    let end = artifact.len();
    let trimmed = &artifact[..end - artifact.iter().rev().take_while(|b| b.is_ascii_whitespace()).count()];
    assert!(trimmed.ends_with(b"</html>"));
    assert!(find(&artifact, b"WAH_POLYGLOT_HTML_PLUS_TAR_STAGE0").is_some());
}

#[test]
fn zero_entries_emit_no_escapes_and_no_eof() {
    let mut source = SourceDocument::new(PAGE);
    let artifact = build(&mut source, vec![], None).unwrap();

    assert!(find(&artifact, b"wah_polyglot_data").is_none());
    assert!(find(&artifact, &vec![0u8; 1024]).is_none());
    assert!(find(&artifact, b"WAH_POLYGLOT_HTML_PLUS_TAR_STAGE0").is_some());
}

#[test]
fn missing_anchors_are_injected_on_the_second_pass() {
    let page = "<!DOCTYPE html><html><head><title>t</title></head><body><p>x</p></body></html>";
    let mut source = SourceDocument::new(page);
    let artifact = build(&mut source, vec![entry("f", b"data")], Some(&b"/*boot*/".to_vec()))
        .unwrap();

    // The rewritten document carries both injected anchors; the artifact
    // replaces the insertion anchor's span with the embedded entries and
    // keeps the bootstrap script.
    let rewritten = source.text_vec();
    assert!(find(&rewritten, b"WAH_POLYGLOT_HTML_PLUS_TAR_CONTENT").is_some());
    assert!(find(&rewritten, b"template").is_some());
    assert!(find(&artifact, b"WAH_POLYGLOT_HTML_PLUS_TAR_STAGE0").is_some());
    assert!(find(&artifact, b"/*boot*/").is_some());
    assert!(find(&artifact, b"wah_polyglot_data").is_some());
}

fn three_entry_artifact() -> Vec<u8> {
    let page = "<!DOCTYPE html><html><head><title>t</title><template id=WAH_POLYGLOT_HTML_PLUS_TAR_CONTENT></template></head><body><script id=WAH_POLYGLOT_HTML_PLUS_TAR_STAGE0>/*s*/</script></body></html>";
    let mut source = SourceDocument::new(page);
    let big: Vec<u8> = (0..1023u32).map(|i| (i % 251) as u8).collect();
    build(
        &mut source,
        vec![entry("empty", b""), entry("one", b"z"), entry("big", &big)],
        None,
    )
    .unwrap()
}

fn check_three_files(artifact: Vec<u8>) {
    let mut saved = SourceDocument::from_bytes(artifact);
    let files = saved.split_tar_contents().unwrap();
    assert_eq!(files.len(), 3);

    let names: Vec<&str> = ["empty", "one", "big"].to_vec();
    let big: Vec<u8> = (0..1023u32).map(|i| (i % 251) as u8).collect();
    let contents: Vec<Vec<u8>> = vec![b"".to_vec(), b"z".to_vec(), big];
    for (i, file) in files.iter().enumerate() {
        let header = file.header.as_bytes();
        let name = names[i].as_bytes();
        assert_eq!(&header[..name.len()], name);
        assert_eq!(header[name.len()], 0);
        assert_eq!(file.content, contents[i]);
    }
}

#[test]
fn three_entries_split_back_in_order() {
    check_three_files(three_entry_artifact());
}

#[test]
fn splitting_survives_replacement_characters() {
    let artifact = three_entry_artifact();
    let mut mangled = Vec::new();
    for b in artifact {
        if b == 0 {
            mangled.extend_from_slice("\u{fffd}".as_bytes());
        } else {
            mangled.push(b);
        }
    }
    check_three_files(mangled);
}

#[test]
fn splitting_survives_entity_rewrites() {
    let artifact = three_entry_artifact();
    let mut mangled = Vec::new();
    for b in artifact {
        if b == 0 {
            mangled.extend_from_slice(b"&#65533;");
        } else {
            mangled.push(b);
        }
    }
    check_three_files(mangled);
}

#[test]
fn rebuilding_a_split_document_yields_the_same_files() {
    let artifact = three_entry_artifact();
    let mut saved = SourceDocument::from_bytes(artifact);
    let files = saved.split_tar_contents().unwrap();

    let items: Vec<TarItem> = files
        .iter()
        .map(|f| {
            let header = f.header.as_bytes();
            let len = header.iter().position(|b| *b == 0).unwrap();
            let name = std::str::from_utf8(&header[..len]).unwrap();
            entry(name, &f.content)
        })
        .collect();

    let rebuilt = build(&mut saved, items, None).unwrap();
    check_three_files(rebuilt);
}

#[test]
fn text_without_data_elements_yields_no_files() {
    let mut source = SourceDocument::from_bytes(b"<p>plain</p>".to_vec());
    let files = source.split_tar_contents().unwrap();
    assert!(files.is_empty());
}
