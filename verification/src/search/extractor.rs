//! Plain text out of documents, and snippets of it.

use vstd::prelude::*;
use vstd::string::*;
use vstd::utf8::*;

use crate::folding::{ascii_position, find_match, match_position};
use crate::models::optional_text;
use crate::paths::{extension_lower, lower_extension};
use crate::text::{
    chars_of, ends_with, is_ascii_text, join, join_texts, same_text, starts_with, text_between, texts,
    trim, trimmed,
};

verus! {

broadcast use {vstd::utf8::group_utf8_lib, vstd::string::group_string_axioms};

// ---------------------------------------------------------------------------
// Snippets
// ---------------------------------------------------------------------------

/// The smaller of two numbers.
pub open spec fn smaller(a: int, b: int) -> int {
    if a <= b {
        a
    } else {
        b
    }
}

/// Where the window of a snippet begins.
pub open spec fn window_start(text: Seq<char>, center: int, window: int) -> int {
    if center >= window / 2 {
        smaller(center - window / 2, text.len() as int)
    } else {
        0
    }
}

/// Where the window of a snippet ends.
pub open spec fn window_end(text: Seq<char>, center: int, window: int) -> int {
    smaller(window_start(text, center, window) + window, text.len() as int)
}

/// An ellipsis where there is more text.
pub open spec fn ellipsis(more: bool) -> Seq<char> {
    if more {
        seq!['\u{2026}']
    } else {
        Seq::empty()
    }
}

/// The part of `text` in a window of `window` characters around the position
/// `center`, without white space at its ends, and with an ellipsis on each side on
/// which text is left out.
pub open spec fn snippet_around(text: Seq<char>, center: int, window: int) -> Seq<char> {
    let start = window_start(text, center, window);
    let end = window_end(text, center, window);
    ellipsis(start > 0) + trimmed(text.subrange(start, end)) + ellipsis(end < text.len())
}

/// The part of a text in a window of `window` characters around the position
/// `center`.
pub fn snippet_at(text: &str, center: usize, window: usize) -> (r: String)
    ensures
        r@ == snippet_around(text@, center as int, window as int),
{
    let v: Vec<char> = chars_of(text);
    let len: usize = v.len();
    let wanted: usize = center.saturating_sub(window / 2);
    let start: usize = if wanted < len {
        wanted
    } else {
        len
    };
    let end: usize = if window < len - start {
        start + window
    } else {
        len
    };
    assert(start == window_start(text@, center as int, window as int));
    assert(end == window_end(text@, center as int, window as int));
    let mut out: String = String::new();
    if start > 0 {
        out.push('\u{2026}');
    }
    out.append(trim(text_between(v.as_slice(), start, end).as_str()).as_str());
    if end < len {
        out.push('\u{2026}');
    }
    out
}

/// A part of `text` of `window` characters around the first place where `query`
/// stands in it, in either case; from the start of the text where it does not
/// stand in it.
pub fn make_snippet(text: &str, query: &str, window: usize) -> (r: String)
    ensures
        r@ == snippet_around(text@, match_position(text@, query@), window as int),
        is_ascii_text(text@) && is_ascii_text(query@) ==> r@ == snippet_around(
            text@,
            ascii_position(text@, query@),
            window as int,
        ),
{
    let center: usize = find_match(chars_of(text).as_slice(), query);
    snippet_at(text, center, window)
}

/// The window of a snippet takes in the position that it is made around, is no
/// longer than was asked for, and is as long as that unless the text ends before.
pub proof fn window_shows_the_center(text: Seq<char>, center: int, window: int)
    requires
        0 <= center < text.len(),
        window >= 1,
    ensures
        0 <= window_start(text, center, window) <= center < window_end(text, center, window)
            <= text.len(),
        window_end(text, center, window) - window_start(text, center, window) <= window,
        window_end(text, center, window) < text.len() ==> window_end(text, center, window)
            - window_start(text, center, window) == window,
{
}

/// A snippet of a text that is no longer than the window around its start is
/// the trimmed text, with no ellipsis.
pub proof fn short_text_is_its_snippet(text: Seq<char>, window: int)
    requires
        text.len() <= window,
    ensures
        snippet_around(text, 0, window) == trimmed(text),
{
    assert(window_start(text, 0, window) == 0);
    assert(text.subrange(0, text.len() as int) == text);
    assert(ellipsis(false) + trimmed(text) + ellipsis(false) == trimmed(text));
}

// ---------------------------------------------------------------------------
// Office XML
// ---------------------------------------------------------------------------

/// What a reader of XML meets.
pub enum XmlEvent {
    /// An opening tag with its local name.
    Open(Vec<u8>),
    /// A tag that closes itself.
    Empty,
    /// A closing tag.
    Close,
    /// Text between tags with its entities resolved, if they could be.
    Text(Option<String>),
    /// Anything else.
    Other,
    /// The end of the document, or an error in it.
    Stop,
}

/// What a reader of XML meets, as texts.
pub enum XmlEventView {
    Open(Seq<u8>),
    Empty,
    Close,
    Text(Option<Seq<char>>),
    Other,
    Stop,
}

impl View for XmlEvent {
    type V = XmlEventView;

    open spec fn view(&self) -> XmlEventView {
        match *self {
            XmlEvent::Open(name) => XmlEventView::Open(name@),
            XmlEvent::Empty => XmlEventView::Empty,
            XmlEvent::Close => XmlEventView::Close,
            XmlEvent::Text(text) => XmlEventView::Text(optional_text(text)),
            XmlEvent::Other => XmlEventView::Other,
            XmlEvent::Stop => XmlEventView::Stop,
        }
    }
}

/// What some events are, as texts.
pub open spec fn event_views(events: Seq<XmlEvent>) -> Seq<XmlEventView> {
    events.map_values(|e: XmlEvent| e@)
}

/// quick-xml's reader of a document.
#[verifier::external_type_specification]
#[verifier::external_body]
#[verifier::reject_recursive_types(R)]
pub struct ExReader<R>(quick_xml::Reader<R>);

/// What a reader has yet to meet, up to the first end or error and with it.
pub uninterp spec fn events_left(reader: quick_xml::Reader<&[u8]>) -> Seq<XmlEventView>;

/// What a reader of the document `xml` meets from its start, up to the first end
/// or error and with it.
pub uninterp spec fn xml_events(xml: Seq<char>) -> Seq<XmlEventView>;

/// Whether a row of events ends where reading stops, and not before.
pub open spec fn stops_at_end(events: Seq<XmlEventView>) -> bool {
    &&& events.len() > 0
    &&& events.last() is Stop
    &&& forall|i: int| 0 <= i < events.len() - 1 ==> !(#[trigger] events[i] is Stop)
}

/// `Reader::from_str` of quick-xml: a reader at the start of the document, which
/// keeps white space in texts. What it will meet depends on the document alone;
/// each event but the last takes some of the document, so the events come to an
/// end.
#[verifier::external_body]
fn open_xml<'a>(xml: &'a str) -> (r: quick_xml::Reader<&'a [u8]>)
    ensures
        events_left(r) == xml_events(xml@),
        stops_at_end(events_left(r)),
{
    let mut reader = quick_xml::Reader::from_str(xml);
    reader.config_mut().trim_text(false);
    reader
}

/// `Reader::read_event` of quick-xml: the next event, with the local name of an
/// opening tag as `BytesStart::local_name` gives it and a text as
/// `BytesText::unescape` gives it. It is then behind that event, unless it met the
/// end or an error: nothing is said of where it is then.
#[verifier::external_body]
fn next_event<'a>(reader: &mut quick_xml::Reader<&'a [u8]>) -> (r: XmlEvent)
    requires
        events_left(*old(reader)).len() > 0,
    ensures
        r@ == events_left(*old(reader))[0],
        !(r@ is Stop) ==> events_left(*final(reader)) == events_left(*old(reader)).drop_first(),
{
    match reader.read_event() {
        Ok(quick_xml::events::Event::Start(e)) => XmlEvent::Open(e.local_name().as_ref().to_vec()),
        Ok(quick_xml::events::Event::Empty(_)) => XmlEvent::Empty,
        Ok(quick_xml::events::Event::End(_)) => XmlEvent::Close,
        Ok(quick_xml::events::Event::Text(e)) => XmlEvent::Text(
            e.unescape().ok().map(|t| t.into_owned()),
        ),
        Ok(quick_xml::events::Event::Eof) => XmlEvent::Stop,
        Ok(_) => XmlEvent::Other,
        Err(_) => XmlEvent::Stop,
    }
}

/// The elements that are open behind the first `n` events, the innermost last:
/// of each, whether it is named `t`.
pub open spec fn open_elements(events: Seq<XmlEventView>, n: int) -> Seq<bool>
    decreases n,
{
    if n <= 0 {
        Seq::empty()
    } else {
        let before = open_elements(events, n - 1);
        match events[n - 1] {
            XmlEventView::Open(name) => before.push(name == seq![116u8]),
            XmlEventView::Close => if before.len() > 0 {
                before.drop_last()
            } else {
                before
            },
            _ => before,
        }
    }
}

/// Whether the event at `i` stands in an element named `t`, and in no other
/// element inside it.
pub open spec fn in_text_element(events: Seq<XmlEventView>, i: int) -> bool {
    open_elements(events, i).len() > 0 && open_elements(events, i).last()
}

/// The text that the event at `i` shows, without white space at its ends:
/// nothing unless it is a text in an element named `t`.
pub open spec fn text_shown(events: Seq<XmlEventView>, i: int) -> Seq<char> {
    match events[i] {
        XmlEventView::Text(Some(t)) => if in_text_element(events, i) {
            trimmed(t)
        } else {
            Seq::empty()
        },
        _ => Seq::empty(),
    }
}

/// The texts that the first `n` events show, without those that are empty.
pub open spec fn texts_shown(events: Seq<XmlEventView>, n: int) -> Seq<Seq<char>>
    decreases n,
{
    if n <= 0 {
        Seq::empty()
    } else {
        let before = texts_shown(events, n - 1);
        let t = text_shown(events, n - 1);
        if t.len() > 0 {
            before.push(t)
        } else {
            before
        }
    }
}

/// A text, or nothing where it is empty.
pub open spec fn unless_empty(s: Seq<char>) -> Option<Seq<char>> {
    if s.len() > 0 {
        Some(s)
    } else {
        None
    }
}

/// A string, or nothing where it is empty.
fn non_empty(s: String) -> (r: Option<String>)
    ensures
        optional_text(r) == unless_empty(s@),
{
    if s.as_str().is_empty() {
        None
    } else {
        Some(s)
    }
}

/// The visible text of a document that is met as `events`: the texts in its
/// elements named `t`, each without white space at its ends, with one space
/// between them.
pub open spec fn visible_text(events: Seq<XmlEventView>) -> Option<Seq<char>> {
    unless_empty(join(texts_shown(events, events.len() as int), seq![' ']))
}

/// The visible text of a document that is met as `events`.
pub fn text_of_events(events: &Vec<XmlEvent>) -> (r: Option<String>)
    ensures
        optional_text(r) == visible_text(event_views(events@)),
{
    let mut output: String = String::new();
    let mut open: Vec<bool> = Vec::new();
    let ghost space = seq![' '];
    let ghost views = event_views(events@);
    for i in 0..events.len()
        invariant
            space == seq![' '],
            views == event_views(events@),
            output@ == join(texts_shown(views, i as int), space),
            output@.len() == 0 <==> texts_shown(views, i as int).len() == 0,
            open@ == open_elements(views, i as int),
    {
        let ghost before = texts_shown(views, i as int);
        assert(views[i as int] == events@[i as int]@);
        match &events[i] {
            XmlEvent::Open(name) => {
                let is_text: bool = name.len() == 1 && name[0] == 116;
                assert(is_text ==> name@ == seq![116u8]);
                open.push(is_text);
            },
            XmlEvent::Close => {
                if open.len() > 0 {
                    open.pop();
                }
            },
            XmlEvent::Text(text) => {
                if open.len() > 0 && open[open.len() - 1] {
                    match text {
                        Some(t) => {
                            let shown: String = trim(t.as_str());
                            if !shown.as_str().is_empty() {
                                if !output.as_str().is_empty() {
                                    output.push(' ');
                                }
                                output.append(shown.as_str());
                                assert(before.push(shown@).drop_last() == before);
                            }
                        },
                        None => {},
                    }
                }
            },
            XmlEvent::Empty => {},
            XmlEvent::Other => {},
            XmlEvent::Stop => {},
        }
    }
    non_empty(output)
}

/// The visible text of a part of an Office document, as far as the part can be
/// read.
pub fn parse_xml_text(xml: &str) -> (r: Option<String>)
    ensures
        optional_text(r) == visible_text(xml_events(xml@)),
{
    let mut reader: quick_xml::Reader<&[u8]> = open_xml(xml);
    let mut events: Vec<XmlEvent> = Vec::new();
    let ghost all = xml_events(xml@);
    assert(event_views(events@) == all.take(0));
    loop
        invariant_except_break
            events@.len() < all.len(),
            events_left(reader) == all.skip(events@.len() as int),
        invariant
            all == xml_events(xml@),
            stops_at_end(all),
            event_views(events@) == all.take(events@.len() as int),
        ensures
            event_views(events@) == all,
        decreases all.len() - events@.len(),
    {
        let event: XmlEvent = next_event(&mut reader);
        let done: bool = matches!(event, XmlEvent::Stop);
        let ghost n = events@.len() as int;
        assert(event@ == all[n]);
        assert(all.skip(n).drop_first() == all.skip(n + 1));
        assert(event_views(events@.push(event)) == event_views(events@).push(event@));
        assert(all.take(n).push(event@) == all.take(n + 1));
        events.push(event);
        if done {
            assert(events@.len() == all.len());
            break;
        }
    }
    text_of_events(&events)
}

// ---------------------------------------------------------------------------
// Formats
// ---------------------------------------------------------------------------

/// How the text of a file is stored.
#[derive(Clone, Copy, Debug, PartialEq, Eq, Structural)]
pub enum TextFormat {
    /// A PDF.
    Pdf,
    /// A word processor document: XML in a ZIP archive.
    Docx,
    /// A presentation: XML in a ZIP archive, one part for each slide.
    Pptx,
    /// A spreadsheet.
    Spreadsheet,
    /// Plain text, source code included.
    Plain,
    /// No text that can be read.
    Unknown,
}

/// The extensions of plain text and source code.
pub open spec fn is_plain_extension(s: Seq<char>) -> bool {
    ||| s == "txt"@
    ||| s == "md"@
    ||| s == "markdown"@
    ||| s == "rst"@
    ||| s == "csv"@
    ||| s == "log"@
    ||| s == "rs"@
    ||| s == "py"@
    ||| s == "js"@
    ||| s == "ts"@
    ||| s == "go"@
    ||| s == "c"@
    ||| s == "cpp"@
    ||| s == "h"@
    ||| s == "hpp"@
    ||| s == "java"@
    ||| s == "rb"@
    ||| s == "php"@
    ||| s == "sh"@
    ||| s == "bash"@
    ||| s == "zsh"@
    ||| s == "fish"@
    ||| s == "toml"@
    ||| s == "yaml"@
    ||| s == "yml"@
    ||| s == "json"@
    ||| s == "xml"@
    ||| s == "html"@
    ||| s == "css"@
}

/// How the text of a file with the extension `ext`, in lowercase, is stored.
pub open spec fn format_of_extension(ext: Seq<char>) -> TextFormat {
    if ext == "pdf"@ {
        TextFormat::Pdf
    } else if ext == "docx"@ {
        TextFormat::Docx
    } else if ext == "pptx"@ {
        TextFormat::Pptx
    } else if ext == "xlsx"@ || ext == "xls"@ {
        TextFormat::Spreadsheet
    } else if is_plain_extension(ext) {
        TextFormat::Plain
    } else {
        TextFormat::Unknown
    }
}

/// How the text of a file with the extension `ext`, in lowercase, is stored.
pub fn format_for_extension(ext: &str) -> (r: TextFormat)
    ensures
        r == format_of_extension(ext@),
{
    let s: &str = ext;
    if same_text(s, "pdf") {
        TextFormat::Pdf
    } else if same_text(s, "docx") {
        TextFormat::Docx
    } else if same_text(s, "pptx") {
        TextFormat::Pptx
    } else if same_text(s, "xlsx") || same_text(s, "xls") {
        TextFormat::Spreadsheet
    } else if same_text(s, "txt") || same_text(s, "md") || same_text(s, "markdown") || same_text(
        s,
        "rst",
    ) || same_text(s, "csv") || same_text(s, "log") || same_text(s, "rs") || same_text(s, "py")
        || same_text(s, "js") || same_text(s, "ts") || same_text(s, "go") || same_text(s, "c")
        || same_text(s, "cpp") || same_text(s, "h") || same_text(s, "hpp") || same_text(s, "java")
        || same_text(s, "rb") || same_text(s, "php") || same_text(s, "sh") || same_text(s, "bash")
        || same_text(s, "zsh") || same_text(s, "fish") || same_text(s, "toml") || same_text(
        s,
        "yaml",
    ) || same_text(s, "yml") || same_text(s, "json") || same_text(s, "xml") || same_text(s, "html")
        || same_text(s, "css") {
        TextFormat::Plain
    } else {
        TextFormat::Unknown
    }
}

/// How the text of the file at `path` is stored, going by its extension.
pub fn format_of(path: &str) -> (r: TextFormat)
    ensures
        r == format_of_extension(lower_extension(path@)),
{
    format_for_extension(extension_lower(path).as_str())
}

/// What `String::from_utf8_lossy` makes of some bytes.
pub uninterp spec fn utf8_lossy(bytes: Seq<u8>) -> Seq<char>;

/// `String::from_utf8_lossy`: the text of the bytes, where what is not UTF-8 is
/// replaced. Bytes that are UTF-8 give their text.
#[verifier::external_body]
fn decode_lossy(bytes: &[u8]) -> (r: String)
    ensures
        r@ == utf8_lossy(bytes@),
        valid_utf8(bytes@) ==> r@ == decode_utf8(bytes@),
{
    String::from_utf8_lossy(bytes).into_owned()
}

/// What could be read of a file. Only what the format of the file needs has to
/// be filled in.
#[derive(Debug)]
pub struct FileContents {
    /// The bytes of the file.
    pub bytes: Option<Vec<u8>>,
    /// The text that a PDF reader found in the file.
    pub pdf_text: Option<String>,
    /// The cells of the file as a spreadsheet, sheet by sheet and row by row.
    pub cells: Vec<String>,
}

impl Default for FileContents {
    fn default() -> (r: Self)
        ensures
            r.bytes is None,
            r.pdf_text is None,
            r.cells@.len() == 0,
    {
        FileContents { bytes: None, pdf_text: None, cells: Vec::new() }
    }
}

/// A text without white space at its ends, or nothing where none is left.
pub open spec fn trimmed_text(s: Seq<char>) -> Option<Seq<char>> {
    unless_empty(trimmed(s))
}

/// The text of a PDF.
pub fn extract_pdf(pdf_text: &Option<String>) -> (r: Option<String>)
    ensures
        optional_text(r) == match *pdf_text {
            Some(t) => trimmed_text(t@),
            None => None,
        },
{
    match pdf_text {
        Some(t) => non_empty(trim(t.as_str())),
        None => None,
    }
}

/// The text of a file of plain text.
pub open spec fn plain_text(bytes: Option<Vec<u8>>) -> Option<Seq<char>> {
    match bytes {
        Some(b) => trimmed_text(utf8_lossy(b@)),
        None => None,
    }
}

/// The text of a file of plain text. Bytes that are UTF-8 give their text
/// without white space at its ends.
pub fn extract_text(bytes: &Option<Vec<u8>>) -> (r: Option<String>)
    ensures
        optional_text(r) == plain_text(*bytes),
        bytes matches Some(b) ==> valid_utf8(b@) ==> optional_text(r) == trimmed_text(decode_utf8(b@)),
{
    match bytes {
        Some(b) => non_empty(trim(decode_lossy(b.as_slice()).as_str())),
        None => None,
    }
}

// ---------------------------------------------------------------------------
// ZIP archives
// ---------------------------------------------------------------------------

/// std's reader of bytes in memory.
#[verifier::external_type_specification]
#[verifier::external_body]
#[verifier::reject_recursive_types(T)]
pub struct ExCursor<T>(std::io::Cursor<T>);

/// zip's reader of an archive.
#[verifier::external_type_specification]
#[verifier::external_body]
#[verifier::reject_recursive_types(R)]
pub struct ExZipArchive<R>(zip::ZipArchive<R>);

/// The bytes that an archive is read from.
pub uninterp spec fn archive_bytes(archive: zip::ZipArchive<std::io::Cursor<Vec<u8>>>) -> Seq<u8>;

/// The names of the entries of a ZIP archive in order, with nothing for one that
/// cannot be opened. Nothing where the bytes are no ZIP archive.
pub uninterp spec fn zip_names(bytes: Seq<u8>) -> Option<Seq<Option<Seq<char>>>>;

/// What the entry with the given name says, where there is one that can be opened
/// and read as text.
pub uninterp spec fn zip_text(bytes: Seq<u8>, name: Seq<char>) -> Option<Seq<char>>;

/// `ZipArchive::new` of zip, over the given bytes: an archive, or nothing where
/// they are none. Which of the two it is depends on the bytes alone.
#[verifier::external_body]
fn open_zip(bytes: &[u8]) -> (r: Option<zip::ZipArchive<std::io::Cursor<Vec<u8>>>>)
    ensures
        r is Some <==> zip_names(bytes@) is Some,
        r matches Some(archive) ==> archive_bytes(archive) == bytes@,
{
    zip::ZipArchive::new(std::io::Cursor::new(bytes.to_vec())).ok()
}

/// `ZipArchive::len` of zip: the number of entries.
#[verifier::external_body]
fn entry_count(archive: &zip::ZipArchive<std::io::Cursor<Vec<u8>>>) -> (r: usize)
    ensures
        zip_names(archive_bytes(*archive)) matches Some(names) ==> r == names.len(),
{
    archive.len()
}

/// `ZipArchive::by_index` and `ZipFile::name` of zip: the name of an entry, or
/// nothing where it cannot be opened. The archive is still read from the same
/// bytes.
#[verifier::external_body]
fn entry_name(archive: &mut zip::ZipArchive<std::io::Cursor<Vec<u8>>>, i: usize) -> (r: Option<String>)
    ensures
        zip_names(archive_bytes(*old(archive))) matches Some(names) ==> i < names.len()
            ==> optional_text(r) == names[i as int],
        archive_bytes(*final(archive)) == archive_bytes(*old(archive)),
{
    archive.by_index(i).ok().map(|entry| entry.name().to_string())
}

/// `ZipArchive::by_name` of zip and `Read::read_to_string`: what the entry with
/// the given name says, or nothing where there is none, it cannot be opened or it
/// is no text. The archive is still read from the same bytes.
#[verifier::external_body]
fn entry_text(archive: &mut zip::ZipArchive<std::io::Cursor<Vec<u8>>>, name: &str) -> (r: Option<String>)
    ensures
        optional_text(r) == zip_text(archive_bytes(*old(archive)), name@),
        archive_bytes(*final(archive)) == archive_bytes(*old(archive)),
{
    let mut text = String::new();
    let mut entry = archive.by_name(name).ok()?;
    std::io::Read::read_to_string(&mut entry, &mut text).ok()?;
    Some(text)
}

/// What an entry of a file says, where the file is a ZIP archive and the entry
/// can be read.
pub open spec fn text_in_zip(bytes: Option<Vec<u8>>, name: Seq<char>) -> Option<Seq<char>> {
    match bytes {
        Some(b) => if zip_names(b@) is Some {
            zip_text(b@, name)
        } else {
            None
        },
        None => None,
    }
}

/// The visible text of an entry, where it has any.
pub open spec fn entry_visible_text(xml: Option<Seq<char>>) -> Option<Seq<char>> {
    match xml {
        Some(x) => visible_text(xml_events(x)),
        None => None,
    }
}

/// The visible text of an entry, where it has any.
pub fn text_of_entry(xml: &Option<String>) -> (r: Option<String>)
    ensures
        optional_text(r) == entry_visible_text(optional_text(*xml)),
{
    match xml {
        Some(x) => parse_xml_text(x.as_str()),
        None => None,
    }
}

/// The visible text of the entry with the given name in a file that is a ZIP
/// archive.
pub fn extract_office_xml(bytes: &Option<Vec<u8>>, name: &str) -> (r: Option<String>)
    ensures
        optional_text(r) == entry_visible_text(text_in_zip(*bytes, name@)),
{
    match bytes {
        Some(b) => match open_zip(b.as_slice()) {
            Some(archive) => {
                let mut archive = archive;
                text_of_entry(&entry_text(&mut archive, name))
            },
            None => None,
        },
        None => None,
    }
}

/// The text of a word processor document.
pub fn extract_docx(bytes: &Option<Vec<u8>>) -> (r: Option<String>)
    ensures
        optional_text(r) == entry_visible_text(text_in_zip(*bytes, "word/document.xml"@)),
{
    extract_office_xml(bytes, "word/document.xml")
}

/// Whether an entry of a presentation is a slide.
pub open spec fn is_slide(name: Seq<char>) -> bool {
    "ppt/slides/slide"@.is_prefix_of(name) && ".xml"@.is_suffix_of(name)
}

/// Whether an entry of a presentation is a slide.
pub fn is_slide_name(name: &str) -> (r: bool)
    ensures
        r == is_slide(name@),
{
    starts_with(name, "ppt/slides/slide") && ends_with(name, ".xml")
}

/// The slides among the first `n` of some entries.
pub open spec fn slide_names(names: Seq<Option<Seq<char>>>, n: int) -> Seq<Seq<char>>
    decreases n,
{
    if n <= 0 {
        Seq::empty()
    } else {
        let before = slide_names(names, n - 1);
        match names[n - 1] {
            Some(name) => if is_slide(name) {
                before.push(name)
            } else {
                before
            },
            None => before,
        }
    }
}

/// The visible texts of the first `n` of some slides.
pub open spec fn slide_texts(slides: Seq<Option<Seq<char>>>, n: int) -> Seq<Seq<char>>
    decreases n,
{
    if n <= 0 {
        Seq::empty()
    } else {
        let before = slide_texts(slides, n - 1);
        match entry_visible_text(slides[n - 1]) {
            Some(t) => before.push(t),
            None => before,
        }
    }
}

/// What some optional strings say.
pub open spec fn optional_texts(list: Seq<Option<String>>) -> Seq<Option<Seq<char>>> {
    list.map_values(|t: Option<String>| optional_text(t))
}

/// The visible texts of some slides, one under the other.
pub open spec fn text_of_slides(slides: Seq<Option<Seq<char>>>) -> Option<Seq<char>> {
    unless_empty(join(slide_texts(slides, slides.len() as int), seq!['\n']))
}

/// The visible texts of some slides, one under the other.
pub fn join_slides(slides: &Vec<Option<String>>) -> (r: Option<String>)
    ensures
        optional_text(r) == text_of_slides(optional_texts(slides@)),
{
    let mut shown: Vec<String> = Vec::new();
    let ghost all = optional_texts(slides@);
    for i in 0..slides.len()
        invariant
            all == optional_texts(slides@),
            texts(shown@) == slide_texts(all, i as int),
    {
        assert(all[i as int] == optional_text(slides@[i as int]));
        match text_of_entry(&slides[i]) {
            Some(t) => {
                assert(texts(shown@.push(t)) == texts(shown@).push(t@));
                shown.push(t);
            },
            None => {},
        }
    }
    proof {
        reveal_strlit("\n");
        assert("\n"@ == seq!['\n']);
    }
    non_empty(join_texts(&shown, "\n"))
}

/// What the slides of a file say, in order, where the file is a ZIP archive.
pub open spec fn slides_in_zip(bytes: Option<Vec<u8>>) -> Seq<Option<Seq<char>>> {
    match bytes {
        Some(b) => match zip_names(b@) {
            Some(names) => slide_names(names, names.len() as int).map_values(
                |name: Seq<char>| zip_text(b@, name),
            ),
            None => Seq::empty(),
        },
        None => Seq::empty(),
    }
}

/// The names of the slides of an archive, in order.
fn list_slides(archive: &mut zip::ZipArchive<std::io::Cursor<Vec<u8>>>) -> (r: Vec<String>)
    ensures
        zip_names(archive_bytes(*old(archive))) matches Some(names) ==> texts(r@) == slide_names(
            names,
            names.len() as int,
        ),
        archive_bytes(*final(archive)) == archive_bytes(*old(archive)),
{
    let mut slides: Vec<String> = Vec::new();
    let n: usize = entry_count(archive);
    let ghost names = zip_names(archive_bytes(*archive));
    for i in 0..n
        invariant
            archive_bytes(*archive) == archive_bytes(*old(archive)),
            names == zip_names(archive_bytes(*archive)),
            names matches Some(list) ==> n == list.len() && texts(slides@) == slide_names(
                list,
                i as int,
            ),
    {
        match entry_name(archive, i) {
            Some(name) => {
                if is_slide_name(name.as_str()) {
                    assert(texts(slides@.push(name)) == texts(slides@).push(name@));
                    slides.push(name);
                }
            },
            None => {},
        }
    }
    slides
}

/// What the slides of a file say, in order, where the file is a ZIP archive.
fn read_slides(bytes: &Option<Vec<u8>>) -> (r: Vec<Option<String>>)
    ensures
        optional_texts(r@) == slides_in_zip(*bytes),
{
    let mut slides: Vec<Option<String>> = Vec::new();
    assert(optional_texts(slides@) == Seq::<Option<Seq<char>>>::empty());
    match bytes {
        Some(b) => match open_zip(b.as_slice()) {
            Some(archive) => {
                let mut archive = archive;
                let names: Vec<String> = list_slides(&mut archive);
                let ghost all = slides_in_zip(*bytes);
                assert(all.len() == names@.len());
                for i in 0..names.len()
                    invariant
                        archive_bytes(archive) == b@,
                        all.len() == names@.len(),
                        forall|j: int|
                            0 <= j < names@.len() ==> all[j] == zip_text(b@, #[trigger] names@[j]@),
                        optional_texts(slides@) == all.take(i as int),
                {
                    let text: Option<String> = entry_text(&mut archive, names[i].as_str());
                    assert(optional_text(text) == all[i as int]);
                    assert(all.take(i as int).push(all[i as int]) == all.take(i + 1));
                    assert(optional_texts(slides@.push(text)) == optional_texts(slides@).push(
                        optional_text(text),
                    ));
                    slides.push(text);
                }
                assert(all.take(all.len() as int) == all);
            },
            None => {},
        },
        None => {},
    }
    slides
}

/// The text of a presentation: that of its slides, one under the other.
pub fn extract_pptx(bytes: &Option<Vec<u8>>) -> (r: Option<String>)
    ensures
        optional_text(r) == text_of_slides(slides_in_zip(*bytes)),
{
    join_slides(&read_slides(bytes))
}

/// The cells among the first `n` that are not empty, without white space at
/// their ends.
pub open spec fn cell_texts(cells: Seq<String>, n: int) -> Seq<Seq<char>>
    decreases n,
{
    if n <= 0 {
        Seq::empty()
    } else {
        let before = cell_texts(cells, n - 1);
        let t = trimmed(cells[n - 1]@);
        if t.len() > 0 {
            before.push(t)
        } else {
            before
        }
    }
}

/// The text of a spreadsheet: its cells with one space between them.
pub fn extract_xlsx(cells: &Vec<String>) -> (r: Option<String>)
    ensures
        optional_text(r) == unless_empty(
            join(cell_texts(cells@, cells@.len() as int), seq![' ']),
        ),
{
    let mut parts: Vec<String> = Vec::new();
    for i in 0..cells.len()
        invariant
            texts(parts@) == cell_texts(cells@, i as int),
    {
        let cell: String = trim(cells[i].as_str());
        if !cell.as_str().is_empty() {
            assert(texts(parts@.push(cell)) == texts(parts@).push(cell@));
            parts.push(cell);
        }
    }
    proof {
        reveal_strlit(" ");
        assert(" "@ == seq![' ']);
    }
    non_empty(join_texts(&parts, " "))
}

/// The text of a file whose text is stored as `format`.
pub open spec fn extracted(format: TextFormat, contents: FileContents) -> Option<Seq<char>> {
    match format {
        TextFormat::Pdf => match contents.pdf_text {
            Some(t) => trimmed_text(t@),
            None => None,
        },
        TextFormat::Docx => entry_visible_text(
            text_in_zip(contents.bytes, "word/document.xml"@),
        ),
        TextFormat::Pptx => text_of_slides(slides_in_zip(contents.bytes)),
        TextFormat::Spreadsheet => unless_empty(
            join(cell_texts(contents.cells@, contents.cells@.len() as int), seq![' ']),
        ),
        TextFormat::Plain => plain_text(contents.bytes),
        TextFormat::Unknown => None,
    }
}

/// The text of a file, or nothing where there is none or it cannot be read.
/// The extension of the path says how the text is stored.
pub fn extract(path: &str, contents: &FileContents) -> (r: Option<String>)
    ensures
        optional_text(r) == extracted(format_of_extension(lower_extension(path@)), *contents),
{
    match format_of(path) {
        TextFormat::Pdf => extract_pdf(&contents.pdf_text),
        TextFormat::Docx => extract_docx(&contents.bytes),
        TextFormat::Pptx => extract_pptx(&contents.bytes),
        TextFormat::Spreadsheet => extract_xlsx(&contents.cells),
        TextFormat::Plain => extract_text(&contents.bytes),
        TextFormat::Unknown => None,
    }
}

/// What is extracted from a file is never empty.
pub proof fn extracted_text_is_not_empty(format: TextFormat, contents: FileContents)
    ensures
        extracted(format, contents) matches Some(t) ==> t.len() > 0,
{
}

} // verus!
