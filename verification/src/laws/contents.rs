//! Contents: what is read of files for searching, and what is shown of it.

use vstd::prelude::*;

use crate::folding::{
    first_match_at, fold_char, folded, highlighted, longest_match, match_len, match_position, matches_at,
};
use crate::laws::texts::{only_the_ends_are_stripped, part_of_part};
use crate::search::exif::is_exif_extension;
use crate::search::extractor::{
    cell_texts, entry_visible_text, extracted, format_of_extension, is_plain_extension, is_slide,
    open_elements, slide_names, slide_texts, slides_in_zip, snippet_around, text_shown, texts_shown,
    visible_text, window_end, window_start, xml_events, zip_names, zip_text, FileContents, TextFormat,
    XmlEventView,
};
use crate::text::{has_text, join, occurs_at, trimmed, Strip};

verus! {

// ---------------------------------------------------------------------------
// Formats
// ---------------------------------------------------------------------------

/// The extensions of files that are read as plain text.
pub open spec fn plain_extensions() -> Seq<Seq<char>> {
    seq![
        "txt"@,
        "md"@,
        "markdown"@,
        "rst"@,
        "csv"@,
        "log"@,
        "rs"@,
        "py"@,
        "js"@,
        "ts"@,
        "go"@,
        "c"@,
        "cpp"@,
        "h"@,
        "hpp"@,
        "java"@,
        "rb"@,
        "php"@,
        "sh"@,
        "bash"@,
        "zsh"@,
        "fish"@,
        "toml"@,
        "yaml"@,
        "yml"@,
        "json"@,
        "xml"@,
        "html"@,
        "css"@,
    ]
}

proof fn plain_extensions_are_listed(s: Seq<char>)
    ensures
        is_plain_extension(s) <==> plain_extensions().contains(s),
{
    let list = plain_extensions();
    assert(list[0] == "txt"@);
    assert(list[1] == "md"@);
    assert(list[2] == "markdown"@);
    assert(list[3] == "rst"@);
    assert(list[4] == "csv"@);
    assert(list[5] == "log"@);
    assert(list[6] == "rs"@);
    assert(list[7] == "py"@);
    assert(list[8] == "js"@);
    assert(list[9] == "ts"@);
    assert(list[10] == "go"@);
    assert(list[11] == "c"@);
    assert(list[12] == "cpp"@);
    assert(list[13] == "h"@);
    assert(list[14] == "hpp"@);
    assert(list[15] == "java"@);
    assert(list[16] == "rb"@);
    assert(list[17] == "php"@);
    assert(list[18] == "sh"@);
    assert(list[19] == "bash"@);
    assert(list[20] == "zsh"@);
    assert(list[21] == "fish"@);
    assert(list[22] == "toml"@);
    assert(list[23] == "yaml"@);
    assert(list[24] == "yml"@);
    assert(list[25] == "json"@);
    assert(list[26] == "xml"@);
    assert(list[27] == "html"@);
    assert(list[28] == "css"@);
}

/// The extensions of files whose metadata is read.
pub open spec fn photo_extensions() -> Seq<Seq<char>> {
    seq![
        "jpg"@,
        "jpeg"@,
        "tiff"@,
        "tif"@,
        "heif"@,
        "heic"@,
        "png"@,
        "webp"@,
    ]
}

proof fn photo_extensions_are_listed(s: Seq<char>)
    ensures
        is_exif_extension(s) <==> photo_extensions().contains(s),
{
    let list = photo_extensions();
    assert(list[0] == "jpg"@);
    assert(list[1] == "jpeg"@);
    assert(list[2] == "tiff"@);
    assert(list[3] == "tif"@);
    assert(list[4] == "heif"@);
    assert(list[5] == "heic"@);
    assert(list[6] == "png"@);
    assert(list[7] == "webp"@);
}

/// The extension of a file tells how its text is read; metadata is read of photos.
pub proof fn extension_tells_the_format(ext: Seq<char>)
    ensures
        format_of_extension("pdf"@) is Pdf,
        format_of_extension("docx"@) is Docx,
        format_of_extension("pptx"@) is Pptx,
        format_of_extension("xlsx"@) is Spreadsheet,
        format_of_extension("xls"@) is Spreadsheet,
        ext != "pdf"@ && ext != "docx"@ && ext != "pptx"@ && ext != "xlsx"@ && ext != "xls"@ ==> (
        format_of_extension(ext) is Plain <==> plain_extensions().contains(ext)),
        ext != "pdf"@ && ext != "docx"@ && ext != "pptx"@ && ext != "xlsx"@ && ext != "xls"@
            && !plain_extensions().contains(ext) ==> format_of_extension(ext) is Unknown,
        is_exif_extension(ext) <==> photo_extensions().contains(ext),
{
    plain_extensions_are_listed(ext);
    photo_extensions_are_listed(ext);
    reveal_strlit("pdf");
    reveal_strlit("docx");
    reveal_strlit("pptx");
    reveal_strlit("xlsx");
    reveal_strlit("xls");
    assert("docx"@[0] == 'd' && "pptx"@[0] == 'p' && "xlsx"@[0] == 'x');
    assert("pdf"@.len() == 3 && "pptx"@.len() == 4 && "xls"@.len() == 3 && "xlsx"@.len() == 4);
    assert("docx"@.len() == 4 && "xls"@[0] == 'x' && "pdf"@[0] == 'p');
}

/// What is read of plain text and of a PDF is all of it, but for white space at
/// its ends; there is nothing to read where that is all.
pub proof fn plain_text_is_read_whole(contents: FileContents)
    ensures
        contents.bytes matches Some(b) ==> ({
            let t = trimmed(crate::search::extractor::utf8_lossy(b@));
            extracted(TextFormat::Plain, contents) == if t.len() > 0 {
                Some(t)
            } else {
                None
            }
        }),
        contents.pdf_text matches Some(p) ==> extracted(TextFormat::Pdf, contents) == if trimmed(p@).len()
            > 0 {
            Some(trimmed(p@))
        } else {
            None
        },
        contents.bytes is None ==> extracted(TextFormat::Plain, contents) is None,
        contents.pdf_text is None ==> extracted(TextFormat::Pdf, contents) is None,
        extracted(TextFormat::Unknown, contents) is None,
{
}

// ---------------------------------------------------------------------------
// Office documents
// ---------------------------------------------------------------------------

/// Text that comes directly inside of a `t` element is part of the text of a
/// document.
pub proof fn text_of_text_elements_is_read(events: Seq<XmlEventView>, i: int)
    requires
        0 <= i < events.len() - 1,
        events[i] == XmlEventView::Open(seq![116u8]),
        events[i + 1] is Text,
        events[i + 1]->Text_0 is Some,
        trimmed(events[i + 1]->Text_0->0).len() > 0,
    ensures
        visible_text(events) is Some,
        has_text(visible_text(events)->0, trimmed(events[i + 1]->Text_0->0)),
{
    let t = trimmed(events[i + 1]->Text_0->0);
    assert(open_elements(events, i + 1) == open_elements(events, i).push(true));
    assert(text_shown(events, i + 1) == t);
    shown_text_is_listed(events, events.len() as int, i + 1);
    let list = texts_shown(events, events.len() as int);
    let k = choose|k: int| 0 <= k < list.len() && list[k] == t;
    crate::text::joined_text_has_parts(list, seq![' '], k);
    let all = join(list, seq![' ']);
    let at = choose|at: int| #[trigger] occurs_at(all, t, at);
    assert(all.len() > 0);
}

/// Text inside of another element is not, nor is text behind an element that has
/// nothing in it or has ended.
pub proof fn other_text_is_not_read(events: Seq<XmlEventView>, i: int, name: Seq<u8>)
    requires
        0 <= i < events.len() - 1,
    ensures
        events[i] == XmlEventView::Open(name) && name != seq![116u8] ==> text_shown(events, i + 1).len() == 0,
        events[i] is Empty ==> open_elements(events, i + 1) == open_elements(events, i),
        i > 0 && events[i - 1] is Open && events[i] is Close ==> open_elements(events, i + 1)
            == open_elements(events, i - 1),
        i > 1 && events[i - 2] is Open && events[i - 1] is Text && events[i] is Close ==> open_elements(
            events,
            i + 1,
        ) == open_elements(events, i - 2),
        open_elements(events, i + 1).len() == 0 ==> text_shown(events, i + 1).len() == 0,
        open_elements(events, 0).len() == 0,
        !(events[i + 1] is Text) ==> text_shown(events, i + 1).len() == 0,
{
    let before = open_elements(events, i);
    if events[i] == XmlEventView::Open(name) {
        assert(open_elements(events, i + 1) == before.push(name == seq![116u8]));
    }
    if i > 0 && events[i - 1] is Open && events[i] is Close {
        let two = open_elements(events, i - 1);
        assert(open_elements(events, i).drop_last() == two);
    }
    if i > 1 && events[i - 2] is Open && events[i - 1] is Text && events[i] is Close {
        let three = open_elements(events, i - 2);
        assert(open_elements(events, i - 1).drop_last() == three);
        assert(open_elements(events, i) == open_elements(events, i - 1));
    }
}

/// A document has a text if and only if some text of it is read.
pub proof fn text_is_made_of_what_is_read(events: Seq<XmlEventView>)
    ensures
        visible_text(events) is Some <==> exists|i: int|
            0 <= i < events.len() && #[trigger] text_shown(events, i).len() > 0,
{
    let n = events.len() as int;
    let list = texts_shown(events, n);
    if exists|i: int| 0 <= i < n && #[trigger] text_shown(events, i).len() > 0 {
        let i = choose|i: int| 0 <= i < n && #[trigger] text_shown(events, i).len() > 0;
        let t = text_shown(events, i);
        shown_text_is_listed(events, n, i);
        let k = choose|k: int| 0 <= k < list.len() && list[k] == t;
        crate::text::joined_text_has_parts(list, seq![' '], k);
        let at = choose|at: int| #[trigger] occurs_at(join(list, seq![' ']), t, at);
    } else {
        nothing_shown_nothing_listed(events, n);
    }
}

proof fn nothing_shown_nothing_listed(events: Seq<XmlEventView>, n: int)
    requires
        n <= events.len(),
        forall|i: int| 0 <= i < events.len() ==> #[trigger] text_shown(events, i).len() == 0,
    ensures
        texts_shown(events, n).len() == 0,
    decreases n,
{
    if n > 0 {
        nothing_shown_nothing_listed(events, n - 1);
        assert(text_shown(events, n - 1).len() == 0);
    }
}

proof fn shown_text_is_listed(events: Seq<XmlEventView>, n: int, i: int)
    requires
        0 <= i < n <= events.len(),
        text_shown(events, i).len() > 0,
    ensures
        texts_shown(events, n).contains(text_shown(events, i)),
    decreases n,
{
    let before = texts_shown(events, n - 1);
    let after = texts_shown(events, n);
    let t = text_shown(events, i);
    if i < n - 1 {
        shown_text_is_listed(events, n - 1, i);
        let k = choose|k: int| 0 <= k < before.len() && before[k] == t;
        assert(after[k] == t);
    } else {
        assert(after[before.len() as int] == t);
    }
}

/// The text of a word processor document is that of its main part.
pub proof fn main_part_of_a_document_is_read(contents: FileContents)
    ensures
        extracted(TextFormat::Docx, contents) == match contents.bytes {
            Some(b) => match zip_names(b@) {
                Some(names) => match zip_text(b@, "word/document.xml"@) {
                    Some(xml) => visible_text(xml_events(xml)),
                    None => None,
                },
                None => None,
            },
            None => None,
        },
{
}

/// Every slide of a presentation that has a text is part of its text.
#[verifier::rlimit(40)]
pub proof fn every_slide_is_read(contents: FileContents, names: Seq<Option<Seq<char>>>, i: int)
    requires
        contents.bytes is Some,
        zip_names(contents.bytes->0@) == Some(names),
        0 <= i < names.len(),
        names[i] is Some,
        "ppt/slides/slide"@.is_prefix_of(names[i]->0),
        ".xml"@.is_suffix_of(names[i]->0),
        zip_text(contents.bytes->0@, names[i]->0) is Some,
        visible_text(xml_events(zip_text(contents.bytes->0@, names[i]->0)->0)) is Some,
    ensures
        extracted(TextFormat::Pptx, contents) is Some,
        has_text(
            extracted(TextFormat::Pptx, contents)->0,
            visible_text(xml_events(zip_text(contents.bytes->0@, names[i]->0)->0))->0,
        ),
{
    let bytes = contents.bytes->0@;
    let name = names[i]->0;
    let t = visible_text(xml_events(zip_text(bytes, name)->0))->0;
    let listed = slide_names(names, names.len() as int);
    slide_is_listed(names, names.len() as int, i);
    let k = choose|k: int| 0 <= k < listed.len() && listed[k] == name;
    let slides = slides_in_zip(contents.bytes);
    assert(slides[k] == zip_text(bytes, name));
    slide_text_is_listed(slides, slides.len() as int, k);
    let list = slide_texts(slides, slides.len() as int);
    let l = choose|l: int| 0 <= l < list.len() && list[l] == t;
    crate::text::joined_text_has_parts(list, seq!['\n'], l);
    let at = choose|at: int| #[trigger] occurs_at(join(list, seq!['\n']), t, at);
    assert(t.len() > 0);
}

proof fn slide_is_listed(names: Seq<Option<Seq<char>>>, n: int, i: int)
    requires
        0 <= i < n <= names.len(),
        names[i] is Some,
        is_slide(names[i]->0),
    ensures
        slide_names(names, n).contains(names[i]->0),
    decreases n,
{
    let before = slide_names(names, n - 1);
    let after = slide_names(names, n);
    if i < n - 1 {
        slide_is_listed(names, n - 1, i);
        let k = choose|k: int| 0 <= k < before.len() && before[k] == names[i]->0;
        assert(after[k] == names[i]->0);
    } else {
        assert(after[before.len() as int] == names[i]->0);
    }
}

proof fn slide_text_is_listed(slides: Seq<Option<Seq<char>>>, n: int, i: int)
    requires
        0 <= i < n <= slides.len(),
        entry_visible_text(slides[i]) is Some,
    ensures
        slide_texts(slides, n).contains(entry_visible_text(slides[i])->0),
    decreases n,
{
    let before = slide_texts(slides, n - 1);
    let after = slide_texts(slides, n);
    let t = entry_visible_text(slides[i])->0;
    if i < n - 1 {
        slide_text_is_listed(slides, n - 1, i);
        let k = choose|k: int| 0 <= k < before.len() && before[k] == t;
        assert(after[k] == t);
    } else {
        assert(after[before.len() as int] == t);
    }
}

/// Every cell of a spreadsheet that has a text is part of its text.
pub proof fn every_cell_is_read(contents: FileContents, i: int)
    requires
        0 <= i < contents.cells@.len(),
        trimmed(contents.cells@[i]@).len() > 0,
    ensures
        extracted(TextFormat::Spreadsheet, contents) is Some,
        has_text(extracted(TextFormat::Spreadsheet, contents)->0, trimmed(contents.cells@[i]@)),
{
    let cells = contents.cells@;
    let t = trimmed(cells[i]@);
    let list = cell_texts(cells, cells.len() as int);
    cell_is_listed(cells, cells.len() as int, i);
    let k = choose|k: int| 0 <= k < list.len() && list[k] == t;
    crate::text::joined_text_has_parts(list, seq![' '], k);
    let at = choose|at: int| #[trigger] occurs_at(join(list, seq![' ']), t, at);
}

proof fn cell_is_listed(cells: Seq<String>, n: int, i: int)
    requires
        0 <= i < n <= cells.len(),
        trimmed(cells[i]@).len() > 0,
    ensures
        cell_texts(cells, n).contains(trimmed(cells[i]@)),
    decreases n,
{
    let before = cell_texts(cells, n - 1);
    let after = cell_texts(cells, n);
    let t = trimmed(cells[i]@);
    if i < n - 1 {
        cell_is_listed(cells, n - 1, i);
        let k = choose|k: int| 0 <= k < before.len() && before[k] == t;
        assert(after[k] == t);
    } else {
        assert(after[before.len() as int] == t);
    }
}

// ---------------------------------------------------------------------------
// Snippets
// ---------------------------------------------------------------------------

/// A snippet shows what is at the place that it is made around, as far as half of
/// the window goes.
#[verifier::rlimit(40)]
pub proof fn snippet_shows_the_place(text: Seq<char>, center: int, window: int, word: Seq<char>)
    requires
        occurs_at(text, word, center),
        0 < word.len() <= window - window / 2,
        window >= 0,
        !Strip::White.takes(word.first()),
        !Strip::White.takes(word.last()),
    ensures
        has_text(snippet_around(text, center, window), word),
{
    let (start, end) = (window_start(text, center, window), window_end(text, center, window));
    let part = text.subrange(start, end);
    let at = center - start;
    assert(part.subrange(at, at + word.len()) == word);
    let shown = trimmed(part);
    only_the_ends_are_stripped(part, Strip::White);
    let (before, after) = choose|before: Seq<char>, after: Seq<char>|
        {
            &&& part == #[trigger] (before + shown + after)
            &&& forall|i: int| 0 <= i < before.len() ==> Strip::White.takes(#[trigger] before[i])
            &&& forall|i: int| 0 <= i < after.len() ==> Strip::White.takes(#[trigger] after[i])
        };
    assert(at >= before.len()) by {
        if at < before.len() {
            assert(part[at] == word[0]);
            assert(before[at] == part[at]);
        }
    }
    let last = at + word.len() - 1;
    assert(part[last] == word.last());
    assert(last < before.len() + shown.len()) by {
        if last >= before.len() + shown.len() {
            assert(after[last - before.len() - shown.len()] == part[last]);
        }
    }
    let k = at - before.len();
    assert(shown.subrange(k, k + word.len()) == word) by {
        assert forall|i: int| 0 <= i < word.len() implies #[trigger] shown[k + i] == word[i] by {
            assert(part[at + i] == shown[k + i]);
            assert(part.subrange(at, at + word.len())[i] == part[at + i]);
        }
        assert(shown.subrange(k, k + word.len()) =~= word);
    }
    assert(occurs_at(shown, word, k));
    let (left, right) = (
        crate::search::extractor::ellipsis(start > 0),
        crate::search::extractor::ellipsis(end < text.len()),
    );
    part_of_part(left, shown, right, word);
}

/// A snippet is part of the text, but for an ellipsis on either side, and no longer
/// than is asked for.
pub proof fn snippet_is_part_of_the_text(text: Seq<char>, center: int, window: int)
    requires
        center >= 0,
        window >= 0,
    ensures
        exists|shown: Seq<char>, more: bool, rest: bool|
            {
                &&& snippet_around(text, center, window) == (if more {
                    seq!['\u{2026}']
                } else {
                    Seq::empty()
                }) + shown + (if rest {
                    seq!['\u{2026}']
                } else {
                    Seq::empty()
                })
                &&& #[trigger] shortened(text, shown, more, rest)
                &&& shown.len() <= window
            },
{
    let (start, end) = (window_start(text, center, window), window_end(text, center, window));
    let part = text.subrange(start, end);
    let shown = trimmed(part);
    crate::text::trimmed_has_clean_ends(part, Strip::White);
    assert(text == text.take(start) + part + text.skip(end));
    part_of_part(text.take(start), part, text.skip(end), shown);
    let at = choose|at: int| #[trigger] occurs_at(part, shown, at);
    assert(shortened(text, shown, start > 0, end < text.len()));
}

/// Whether `shown` is part of a text, and all of it but for white space at its ends
/// where neither side is cut off.
pub open spec fn shortened(text: Seq<char>, shown: Seq<char>, more: bool, rest: bool) -> bool {
    has_text(text, shown) && (!more && !rest ==> shown == trimmed(text))
}

/// A word that begins a text is put between asterisks, and a text without any of
/// the words is left as it is.
pub proof fn words_are_put_between_asterisks(s: Seq<char>, words: Seq<Seq<char>>, w: int)
    ensures
        (forall|i: int, v: int|
            0 <= i < s.len() && 0 <= v < words.len() ==> #[trigger] match_len(
                s.skip(i),
                folded(#[trigger] words[v]),
            ) is None) ==> highlighted(s, words) == s,
        s.len() > 0 && 0 <= w < words.len() && (match_len(s, folded(words[w])) matches Some(n) && n > 0)
            ==> highlighted(s, words).len() >= 4 && highlighted(s, words)[0] == '*' && highlighted(s, words)[1]
            == '*',
    decreases s.len(),
{
    if forall|i: int, v: int|
        0 <= i < s.len() && 0 <= v < words.len() ==> #[trigger] match_len(
            s.skip(i),
            folded(#[trigger] words[v]),
        ) is None {
        if s.len() > 0 {
            assert(s.skip(0) == s);
            assert forall|v: int| 0 <= v < words.len() implies match_len(s, folded(#[trigger] words[v]))
                is None by {
                assert(match_len(s.skip(0), folded(words[v])) is None);
            }
            nothing_matches(s, words);
            let rest = s.drop_first();
            assert forall|i: int, v: int| 0 <= i < rest.len() && 0 <= v < words.len() implies #[trigger]
                match_len(rest.skip(i), folded(#[trigger] words[v])) is None by {
                assert(rest.skip(i) == s.skip(i + 1));
                assert(match_len(s.skip(i + 1), folded(words[v])) is None);
            }
            words_are_put_between_asterisks(rest, words, w);
            assert(seq![s[0]] + rest == s);
        } else {
            assert(s == Seq::<char>::empty());
        }
    }
    if s.len() > 0 && 0 <= w < words.len() && (match_len(s, folded(words[w])) matches Some(n) && n > 0) {
        match_counts(s, words, w);
        longest_match_fits(s, words);
    }
}

proof fn nothing_matches(s: Seq<char>, words: Seq<Seq<char>>)
    requires
        forall|v: int| 0 <= v < words.len() ==> match_len(s, folded(#[trigger] words[v])) is None,
    ensures
        longest_match(s, words) == 0,
    decreases words.len(),
{
    if words.len() > 0 {
        assert(match_len(s, folded(words[words.len() - 1])) is None);
        assert forall|v: int| 0 <= v < words.drop_last().len() implies match_len(
            s,
            folded(#[trigger] words.drop_last()[v]),
        ) is None by {
            assert(words.drop_last()[v] == words[v]);
        }
        nothing_matches(s, words.drop_last());
    }
}

proof fn match_counts(s: Seq<char>, words: Seq<Seq<char>>, w: int)
    requires
        0 <= w < words.len(),
        match_len(s, folded(words[w])) is Some,
    ensures
        longest_match(s, words) >= match_len(s, folded(words[w]))->0,
    decreases words.len(),
{
    if w < words.len() - 1 {
        assert(words.drop_last()[w] == words[w]);
        match_counts(s, words.drop_last(), w);
    }
}

proof fn longest_match_fits(s: Seq<char>, words: Seq<Seq<char>>)
    ensures
        longest_match(s, words) <= s.len(),
    decreases words.len(),
{
    if words.len() > 0 {
        longest_match_fits(s, words.drop_last());
        crate::folding::match_folds_alike(s, folded(words.last()));
    }
}

/// The place of a word in a text is the first at which characters are compared as
/// the word is; it is the start where there is none.
pub proof fn first_place_of_a_word(text: Seq<char>, word: Seq<char>, i: int, n: int)
    requires
        0 <= i,
        0 <= n,
        i + n <= text.len(),
    ensures
        0 <= match_position(text, word) <= text.len(),
        folded(text.subrange(i, i + n)) == folded(word) ==> match_position(text, word) <= i && exists|m: int|
            0 <= m <= text.len() - match_position(text, word) && folded(
                #[trigger] text.subrange(match_position(text, word), match_position(text, word) + m),
            ) == folded(word),
{
    let f = folded(word);
    let p = match_position(text, word);
    if folded(text.subrange(i, i + n)) == f {
        assert(text.skip(i).take(n) == text.subrange(i, i + n));
        alike_is_matched(text.skip(i), f, n);
        assert(matches_at(text, word, i));
        first_match_is_there(text, word, i);
        let q = choose|q: int| first_match_at(text, word, q);
        assert(first_match_at(text, word, p));
        crate::folding::match_folds_alike(text.skip(p), f);
        let m = match_len(text.skip(p), f)->0 as int;
        assert(text.skip(p).take(m) == text.subrange(p, p + m));
        if i < p {
            assert(!matches_at(text, word, i));
        }
    } else if exists|q: int| first_match_at(text, word, q) {
        let q = choose|q: int| first_match_at(text, word, q);
        assert(matches_at(text, word, p));
    }
}

proof fn first_match_is_there(text: Seq<char>, word: Seq<char>, i: int)
    requires
        matches_at(text, word, i),
    ensures
        exists|q: int| first_match_at(text, word, q),
    decreases i,
{
    if exists|j: int| 0 <= j < i && #[trigger] matches_at(text, word, j) {
        let j = choose|j: int| 0 <= j < i && #[trigger] matches_at(text, word, j);
        first_match_is_there(text, word, j);
    } else {
        assert(first_match_at(text, word, i));
    }
}

proof fn alike_is_matched(s: Seq<char>, f: Seq<char>, n: int)
    requires
        0 <= n <= s.len(),
        folded(s.take(n)) == f,
    ensures
        match_len(s, f) is Some,
    decreases s.len(),
{
    if f.len() > 0 {
        if n == 0 {
            assert(s.take(0) == Seq::<char>::empty());
        } else {
            let c = fold_char(s[0]);
            let rest = s.drop_first();
            assert(s.take(n) == seq![s[0]] + rest.take(n - 1));
            crate::folding::folding_distributes(seq![s[0]], rest.take(n - 1));
            reveal_with_fuel(folded, 2);
            assert(seq![s[0]].drop_last() == Seq::<char>::empty());
            assert(Seq::<char>::empty() + c == c);
            assert(f == c + folded(rest.take(n - 1)));
            assert(f.skip(c.len() as int) == folded(rest.take(n - 1)));
            assert(c.is_prefix_of(f));
            alike_is_matched(rest, f.skip(c.len() as int), n - 1);
        }
    }
}

/// A text is highlighted from the left: what is behind the first word, or behind
/// the first character where no word begins, is highlighted as a text of its own.
pub proof fn rest_is_highlighted_too(s: Seq<char>, words: Seq<Seq<char>>)
    requires
        s.len() > 0,
    ensures
        ({
            let n = longest_match(s, words) as int;
            let (head, rest) = if n > 0 {
                (seq!['*', '*'] + s.take(n) + seq!['*', '*'], s.skip(n))
            } else {
                (seq![s[0]], s.skip(1))
            };
            n <= s.len() && highlighted(s, words) == head + highlighted(rest, words)
        }),
        forall|w: int|
            0 <= w < words.len() && match_len(s, folded(#[trigger] words[w])) is Some ==> longest_match(s, words)
                >= match_len(s, folded(words[w]))->0,
{
    longest_match_fits(s, words);
    assert(s.skip(1) == s.drop_first());
    assert forall|w: int| 0 <= w < words.len() && match_len(s, folded(#[trigger] words[w])) is Some implies
        longest_match(s, words) >= match_len(s, folded(words[w]))->0 by {
        match_counts(s, words, w);
    }
}

/// The number of texts among the first `n` events that are read.
pub open spec fn read_before(events: Seq<XmlEventView>, n: int) -> nat
    decreases n,
{
    if n <= 0 {
        0
    } else {
        read_before(events, n - 1) + if text_shown(events, n - 1).len() > 0 {
            1nat
        } else {
            0
        }
    }
}

/// The texts of a document are read in their order.
pub proof fn texts_are_read_in_order(events: Seq<XmlEventView>, n: int)
    requires
        0 <= n <= events.len(),
    ensures
        texts_shown(events, n).len() == read_before(events, n),
        forall|i: int|
            0 <= i < n && #[trigger] text_shown(events, i).len() > 0 ==> read_before(events, i)
                < texts_shown(events, n).len() && texts_shown(events, n)[read_before(events, i) as int]
                == text_shown(events, i),
    decreases n,
{
    if n > 0 {
        texts_are_read_in_order(events, n - 1);
        let (a, b) = (texts_shown(events, n - 1), texts_shown(events, n));
        assert forall|i: int| 0 <= i < n && #[trigger] text_shown(events, i).len() > 0 implies read_before(
            events,
            i,
        ) < b.len() && b[read_before(events, i) as int] == text_shown(events, i) by {
            if i < n - 1 {
                assert(b[read_before(events, i) as int] == a[read_before(events, i) as int]);
            }
        }
    }
}

/// A text that is read is that of its event, but for white space at its ends.
pub proof fn text_is_read_as_it_is(events: Seq<XmlEventView>, i: int)
    ensures
        text_shown(events, i).len() > 0 ==> events[i] is Text && events[i]->Text_0 is Some && text_shown(
            events,
            i,
        ) == trimmed(events[i]->Text_0->0) && open_elements(events, i).len() > 0 && open_elements(
            events,
            i,
        ).last(),
        visible_text(events) matches Some(t) ==> t == join(texts_shown(events, events.len() as int), seq![' ']),
{
}

/// Half of the window of a snippet is in front of the place that it is made around,
/// or all of the text there where that is less, and the window goes on from there
/// as far as it may.
pub proof fn half_the_window_is_in_front(text: Seq<char>, center: int, window: int)
    requires
        0 <= center <= text.len(),
        window >= 0,
    ensures
        ({
            let half = if center < window / 2 {
                center
            } else {
                window / 2
            };
            let rest = text.len() - (center - half);
            &&& window_start(text, center, window) == center - half
            &&& window_end(text, center, window) == center - half + if rest < window {
                rest
            } else {
                window
            }
        }),
{
}

/// Nothing is read of a presentation but its slides.
pub proof fn only_slides_are_read(names: Seq<Option<Seq<char>>>, n: int, k: int)
    requires
        0 <= n <= names.len(),
        0 <= k < slide_names(names, n).len(),
    ensures
        exists|i: int| 0 <= i < n && #[trigger] names[i] == Some(slide_names(names, n)[k]),
        "ppt/slides/slide"@.is_prefix_of(slide_names(names, n)[k]),
        ".xml"@.is_suffix_of(slide_names(names, n)[k]),
    decreases n,
{
    if n > 0 {
        let before = slide_names(names, n - 1);
        let name = slide_names(names, n)[k];
        if k < before.len() {
            assert(name == before[k]);
            only_slides_are_read(names, n - 1, k);
            let i = choose|i: int| 0 <= i < n - 1 && #[trigger] names[i] == Some(before[k]);
            assert(names[i] == Some(name));
        } else {
            assert(names[n - 1] == Some(name));
        }
    }
}

/// Nothing is read of a spreadsheet but its cells, in their order.
pub proof fn only_cells_are_read(cells: Seq<String>, n: int, k: int)
    requires
        0 <= n <= cells.len(),
        0 <= k < cell_texts(cells, n).len(),
    ensures
        exists|i: int| 0 <= i < n && cell_texts(cells, n)[k] == trimmed(#[trigger] cells[i]@),
        cell_texts(cells, n)[k].len() > 0,
        n < cells.len() ==> cell_texts(cells, n).is_prefix_of(cell_texts(cells, n + 1)),
    decreases n,
{
    if n > 0 {
        let before = cell_texts(cells, n - 1);
        let t = cell_texts(cells, n)[k];
        if k < before.len() {
            assert(t == before[k]);
            only_cells_are_read(cells, n - 1, k);
            let i = choose|i: int| 0 <= i < n - 1 && before[k] == trimmed(#[trigger] cells[i]@);
            assert(t == trimmed(cells[i]@));
        } else {
            assert(t == trimmed(cells[n - 1]@));
        }
    }
    if n < cells.len() {
        let after = cell_texts(cells, n + 1);
        assert(after.take(cell_texts(cells, n).len() as int) =~= cell_texts(cells, n));
    }
}

} // verus!
