use data_fortress::search::extractor::{
    extract, extract_docx, extract_office_xml, extract_pptx, format_of, is_slide_name,
    join_slides, make_snippet, parse_xml_text, snippet_at, text_of_entry, text_of_events, FileContents,
    TextFormat, XmlEvent,
};
use std::io::{Cursor, Write};

fn with_bytes(bytes: &[u8]) -> FileContents {
    FileContents { bytes: Some(bytes.to_vec()), ..FileContents::default() }
}

fn archive(entries: &[(&str, &[u8])]) -> FileContents {
    let mut writer = zip::ZipWriter::new(Cursor::new(Vec::new()));
    for (name, bytes) in entries {
        writer.start_file(*name, zip::write::SimpleFileOptions::default()).unwrap();
        writer.write_all(bytes).unwrap();
    }
    with_bytes(&writer.finish().unwrap().into_inner())
}

#[test]
fn test_extract_plain_text_file() {
    let text = extract("/tmp/a.txt", &with_bytes(b"Hello, Data Fortress!")).unwrap();
    assert_eq!(text, "Hello, Data Fortress!");
}

#[test]
fn test_extract_rust_source_file() {
    let text = extract("/tmp/a.rs", &with_bytes(b"fn main() { println!(\"hello\"); }")).unwrap();
    assert!(text.contains("fn main"));
}

#[test]
fn test_extract_empty_file_returns_none() {
    assert!(extract("/tmp/a.txt", &with_bytes(b"")).is_none());
}

#[test]
fn test_extract_binary_file_returns_none() {
    assert!(extract("/tmp/a.jpg", &with_bytes(b"")).is_none());
    assert!(extract("/tmp/a.jpg", &with_bytes(b"text")).is_none());
}

#[test]
fn test_make_snippet_centered_on_query() {
    let text = "The quick brown fox jumps over the lazy dog";
    let snippet = make_snippet(text, "fox", 20);
    assert!(snippet.to_lowercase().contains("fox"));
    assert_eq!(snippet, "…ick brown fox jumps…");
}

#[test]
fn test_make_snippet_falls_back_to_start() {
    let text = "Hello world this is a test";
    let snippet = make_snippet(text, "notfound", 10);
    assert!(!snippet.is_empty());
    assert_eq!(snippet, "Hello worl…");
}

#[test]
fn test_make_snippet_adds_ellipsis() {
    let text = "a".repeat(200);
    let snippet = make_snippet(&text, "a", 20);
    assert!(snippet.contains('…'));
    assert_eq!(snippet, format!("{}…", "a".repeat(20)));
}

#[test]
fn snippets_ignore_case_and_take_whole_characters() {
    assert_eq!(make_snippet("one TWO three", "two", 6), "…ne TWO…");
    assert_eq!(make_snippet("ééééé", "zzz", 4), "éééé…");
    assert_eq!(snippet_at("éàéàé", 4, 2), "…àé");
    assert_eq!(snippet_at("éàéàé", 3, 2), "…éà…");
    assert_eq!(snippet_at("éàéàé", 2, 1), "…é…");
}

#[test]
fn snippets_at_the_edges() {
    assert_eq!(make_snippet("", "x", 10), "");
    assert_eq!(make_snippet("  padded  ", "zzz", 100), "padded");
    assert_eq!(snippet_at("short", 99, 4), "…");
    assert_eq!(snippet_at("short", 0, usize::MAX), "short");
    assert_eq!(snippet_at("short", 2, 0), "……");
}

#[test]
fn snippets_are_centred_in_the_text_itself() {
    let text = format!("{}needle{}", "İ".repeat(50), "x".repeat(50));
    assert_eq!(make_snippet(&text, "NEEDLE", 12), "…İİİİİİneedle…");
    assert_eq!(make_snippet("ΟΔΟΣ και ΤΕΛΟΣ", "τελος", 6), "…αι ΤΕΛ…");
}

#[test]
fn formats_by_extension() {
    assert_eq!(format_of("/x/report.PDF"), TextFormat::Pdf);
    assert_eq!(format_of("/x/report.docx"), TextFormat::Docx);
    assert_eq!(format_of("/x/slides.pptx"), TextFormat::Pptx);
    assert_eq!(format_of("/x/sheet.xls"), TextFormat::Spreadsheet);
    assert_eq!(format_of("/x/sheet.xlsx"), TextFormat::Spreadsheet);
    for ext in [
        "txt", "md", "markdown", "rst", "csv", "log", "rs", "py", "js", "ts", "go", "c", "cpp", "h",
        "hpp", "java", "rb", "php", "sh", "bash", "zsh", "fish", "toml", "yaml", "yml", "json", "xml",
        "html", "css",
    ] {
        assert_eq!(format_of(&format!("/x/file.{}", ext)), TextFormat::Plain, "{}", ext);
    }
    assert_eq!(format_of("/x/photo.png"), TextFormat::Unknown);
    assert_eq!(format_of("/x/.txt"), TextFormat::Unknown);
}

#[test]
fn text_that_is_not_utf8_is_replaced() {
    let text = extract("/x/a.txt", &with_bytes(b" caf\xE9 ")).unwrap();
    assert_eq!(text, "caf\u{FFFD}");
    assert_eq!(extract("/x/a.txt", &with_bytes("\u{3000}é\n".as_bytes())), Some("é".to_string()));
    assert_eq!(extract("/x/a.txt", &FileContents::default()), None);
}

#[test]
fn pdf_text_is_trimmed() {
    let contents =
        FileContents { pdf_text: Some("\n  Quarterly report \n".to_string()), ..FileContents::default() };
    assert_eq!(extract("/x/a.pdf", &contents), Some("Quarterly report".to_string()));
    let blank = FileContents { pdf_text: Some(" \n ".to_string()), ..FileContents::default() };
    assert_eq!(extract("/x/a.pdf", &blank), None);
    assert_eq!(extract("/x/a.pdf", &FileContents::default()), None);
}

#[test]
fn xml_text_of_t_elements() {
    let xml = "<w:document><w:t>Hello</w:t><w:x>hidden</w:x><w:t> wide world </w:t></w:document>";
    assert_eq!(parse_xml_text(xml), Some("Hello wide world".to_string()));
    assert_eq!(parse_xml_text("<a:t>1 &amp; 2</a:t>"), Some("1 & 2".to_string()));
    assert_eq!(parse_xml_text("<a:t>   </a:t><a:t>x</a:t>"), Some("x".to_string()));
    assert_eq!(parse_xml_text("<a:t>one<b/>two</a:t>"), Some("one two".to_string()));
    assert_eq!(parse_xml_text("<a:t>one<!-- x -->two</a:t>"), Some("one two".to_string()));
    assert_eq!(parse_xml_text("<a:t>one<b>no</b>two</a:t>no"), Some("one two".to_string()));
    assert_eq!(parse_xml_text("<w:p><w:t/>junk</w:p>"), None);
    assert_eq!(parse_xml_text("<a:t><!-- note -->one</a:t>"), Some("one".to_string()));
    assert_eq!(parse_xml_text("<p>nothing</p>"), None);
    assert_eq!(parse_xml_text(""), None);
}

#[test]
fn xml_that_breaks_off_gives_what_was_read() {
    assert_eq!(parse_xml_text("<a:t>kept</a:t><a:t"), Some("kept".to_string()));
    assert_eq!(parse_xml_text("<a:t>kept</a:t></wrong><a:t>lost</a:t>"), Some("kept".to_string()));
    assert_eq!(parse_xml_text("<a:t>&nosuch;</a:t><a:t>x</a:t>"), Some("x".to_string()));
}

#[test]
fn events_one_by_one() {
    let t = || XmlEvent::Open(b"t".to_vec());
    let text = |s: &str| XmlEvent::Text(Some(s.to_string()));
    let events = vec![t(), text("a"), XmlEvent::Close, text("no"), t(), XmlEvent::Other, text(" b ")];
    assert_eq!(text_of_events(&events), Some("a b".to_string()));
    let events = vec![t(), XmlEvent::Text(None), XmlEvent::Close, text("d"), XmlEvent::Stop];
    assert_eq!(text_of_events(&events), None);
    assert_eq!(text_of_events(&vec![XmlEvent::Empty, text("x")]), None);
    assert_eq!(text_of_events(&vec![XmlEvent::Close, t(), XmlEvent::Empty, text("x")]), Some("x".to_string()));
    assert_eq!(text_of_events(&vec![XmlEvent::Open(b"tt".to_vec()), text("x")]), None);
}

#[test]
fn word_documents() {
    let contents = archive(&[("docProps/app.xml", b"<t>no</t>"), ("word/document.xml", b"<w:t>yes</w:t>")]);
    assert_eq!(extract("/x/a.docx", &contents), Some("yes".to_string()));
    assert_eq!(extract_docx(&contents.bytes), Some("yes".to_string()));
    assert_eq!(extract_office_xml(&contents.bytes, "docProps/app.xml"), Some("no".to_string()));
    assert_eq!(extract_office_xml(&contents.bytes, "missing.xml"), None);
    assert_eq!(extract("/x/a.docx", &FileContents::default()), None);
    assert_eq!(extract("/x/a.docx", &with_bytes(b"no archive")), None);
    assert_eq!(extract("/x/a.docx", &archive(&[("word/document.xml", b"\xFF\xFE")])), None);
}

#[test]
fn presentations() {
    assert!(is_slide_name("ppt/slides/slide12.xml"));
    assert!(!is_slide_name("ppt/slides/_rels/slide1.xml.rels"));
    assert!(!is_slide_name("ppt/slides/slide1.txt"));
    let contents = archive(&[
        ("ppt/slides/slide3.xml", b"<a:t>Third</a:t>"),
        ("ppt/notes/notes1.xml", b"<a:t>notes</a:t>"),
        ("ppt/slides/slide2.xml", b"<a:p></a:p>"),
        ("ppt/slides/slide4.xml", b"\xFF"),
        ("ppt/slides/slide1.xml", b"<a:t>First</a:t>"),
    ]);
    assert_eq!(extract("/x/a.pptx", &contents), Some("Third\nFirst".to_string()));
    assert_eq!(extract_pptx(&contents.bytes), Some("Third\nFirst".to_string()));
    assert_eq!(extract("/x/a.pptx", &archive(&[])), None);
    assert_eq!(extract("/x/a.pptx", &with_bytes(b"no archive")), None);
    assert_eq!(extract("/x/a.pptx", &FileContents::default()), None);
}

#[test]
fn slides_are_joined() {
    let slides = vec![Some("<t>a</t>".to_string()), None, Some("<p/>".to_string()), Some("<t>b</t>".to_string())];
    assert_eq!(join_slides(&slides), Some("a\nb".to_string()));
    assert_eq!(join_slides(&Vec::new()), None);
    assert_eq!(text_of_entry(&None), None);
}

#[test]
fn spreadsheets() {
    let contents = FileContents {
        cells: vec!["Total".to_string(), " ".to_string(), " 42 ".to_string(), "".to_string()],
        ..FileContents::default()
    };
    assert_eq!(extract("/x/a.xlsx", &contents), Some("Total 42".to_string()));
    assert_eq!(extract("/x/a.xls", &FileContents::default()), None);
}
