//! The MIME type and the category of a file.

use vstd::prelude::*;

use crate::models::{optional_text, FileCategory};
use crate::paths::{extension_of, is_last_dot, joined_name_is_last, path_join};
use crate::text::{joined, marks, pieces_of_parts, same_text, split_char, split_on, texts};

verus! {

/// How a file was classified.
#[derive(Debug)]
pub struct Classification {
    /// The MIME type, such as `image/jpeg`.
    pub mime_type: String,
    /// The category that the MIME type belongs to.
    pub category: FileCategory,
}

impl Clone for Classification {
    fn clone(&self) -> (r: Self)
        ensures
            r == *self,
    {
        Classification { mime_type: self.mime_type.clone(), category: self.category }
    }
}

/// The number of bytes at the start of a file that are looked at.
pub const MAGIC_LEN: usize = 16;

/// The MIME type that `infer` recognises in the first bytes of a file, if any.
pub uninterp spec fn magic_mime(head: Seq<u8>) -> Option<Seq<char>>;

/// The MIME type that `mime_guess` lists first for an extension, if any.
pub uninterp spec fn guessed_mime(ext: Seq<char>) -> Option<Seq<char>>;

/// `infer::get`: looks for the signature of a known file type in `head`, and
/// gives the MIME type of the first one that fits. What it gives depends on
/// the bytes alone.
#[verifier::external_body]
fn infer_mime(head: &[u8]) -> (r: Option<String>)
    requires
        head@.len() <= MAGIC_LEN,
    ensures
        optional_text(r) == magic_mime(head@),
{
    match infer::get(head) {
        Some(kind) => Some(kind.mime_type().to_string()),
        None => None,
    }
}

/// The MIME type that a path suggests: that of its extension.
pub open spec fn path_guess(path: Seq<char>) -> Option<Seq<char>> {
    match extension_of(path) {
        Some(ext) => guessed_mime(ext),
        None => None,
    }
}

/// `mime_guess::from_path` and `MimeGuess::first`: looks the extension of the
/// path up in a table, whatever its case, so that what it gives depends on the
/// extension alone. There is no guess for a path without an extension.
#[verifier::external_body]
fn guess_mime(path: &str) -> (r: Option<String>)
    ensures
        optional_text(r) == match extension_of(path@) {
            Some(ext) => guessed_mime(ext),
            None => None,
        },
{
    match mime_guess::from_path(path).first() {
        Some(mime) => Some(mime.to_string()),
        None => None,
    }
}

/// The part of `head` that is looked at.
pub open spec fn magic_part(head: Seq<u8>) -> Seq<u8> {
    if head.len() <= MAGIC_LEN {
        head
    } else {
        head.take(MAGIC_LEN as int)
    }
}

/// The MIME type of a file from its first bytes. There is none for a file
/// without any.
pub open spec fn mime_of_head(head: Seq<u8>) -> Option<Seq<char>> {
    if head.len() == 0 {
        None
    } else {
        magic_mime(magic_part(head))
    }
}

/// The MIME type of a file from its first bytes, of which at most
/// [`MAGIC_LEN`] are looked at.
pub fn detect_from_magic(head: &[u8]) -> (r: Option<String>)
    ensures
        optional_text(r) == mime_of_head(head@),
{
    if head.len() == 0 {
        return None;
    }
    if head.len() <= MAGIC_LEN {
        return infer_mime(head);
    }
    let (front, _rest) = head.split_at(MAGIC_LEN);
    assert(front@ == head@.take(MAGIC_LEN as int));
    infer_mime(front)
}

/// The MIME type of a file from its extension.
pub fn detect_from_extension(path: &str) -> (r: Option<String>)
    ensures
        optional_text(r) == path_guess(path@),
{
    guess_mime(path)
}

/// The MIME type that is settled on: the one from the first bytes, else the
/// one from the extension, else that of unknown bytes.
pub open spec fn settled_mime(magic: Option<Seq<char>>, guess: Option<Seq<char>>) -> Seq<char> {
    match magic {
        Some(m) => m,
        None => match guess {
            Some(g) => g,
            None => "application/octet-stream"@,
        },
    }
}

/// The classification of a file whose first bytes suggest `magic` and whose
/// extension suggests `guess`.
pub fn classification_of(magic: Option<String>, guess: Option<String>) -> (r: Classification)
    ensures
        r.mime_type@ == settled_mime(optional_text(magic), optional_text(guess)),
        r.category == category_of_mime(r.mime_type@),
{
    let mime_type: String = match magic {
        Some(m) => m,
        None => match guess {
            Some(g) => g,
            None => "application/octet-stream".to_owned(),
        },
    };
    let category: FileCategory = category_from_mime(mime_type.as_str());
    Classification { mime_type, category }
}

/// Classifies a file from its path and its first bytes, which are empty for a
/// file that cannot be read. It never fails.
pub fn classify(path: &str, head: &[u8]) -> (r: Classification)
    ensures
        r.mime_type@ == settled_mime(mime_of_head(head@), path_guess(path@)),
        r.category == category_of_mime(r.mime_type@),
{
    let magic: Option<String> = detect_from_magic(head);
    match magic {
        Some(_) => classification_of(magic, None),
        None => classification_of(None, detect_from_extension(path)),
    }
}

/// The part of a MIME type before its first `/`.
pub open spec fn type_part(mime: Seq<char>) -> Seq<char> {
    split_on(mime, '/')[0]
}

/// The part of a MIME type between its first and second `/`, or nothing.
pub open spec fn subtype_part(mime: Seq<char>) -> Seq<char> {
    let parts = split_on(mime, '/');
    if parts.len() > 1 {
        parts[1]
    } else {
        Seq::empty()
    }
}

/// The category of a MIME type.
pub open spec fn category_of_mime(mime: Seq<char>) -> FileCategory {
    let kind = type_part(mime);
    if kind == "image"@ {
        FileCategory::Image
    } else if kind == "video"@ {
        FileCategory::Video
    } else if kind == "audio"@ {
        FileCategory::Audio
    } else if kind == "text"@ {
        if is_text_code(subtype_part(mime)) {
            FileCategory::Code
        } else {
            FileCategory::Document
        }
    } else if kind == "application"@ {
        category_of_application(subtype_part(mime))
    } else {
        FileCategory::Other
    }
}

/// The category of a MIME type.
pub fn category_from_mime(mime: &str) -> (r: FileCategory)
    ensures
        r == category_of_mime(mime@),
{
    let parts: Vec<String> = split_char(mime, '/');
    assert(forall|i: int| 0 <= i < parts@.len() ==> #[trigger] texts(parts@)[i] == parts@[i]@);
    let kind: &str = parts[0].as_str();
    let subtype: &str = if parts.len() > 1 {
        parts[1].as_str()
    } else {
        ""
    };
    proof {
        reveal_strlit("");
        assert(""@ == Seq::<char>::empty());
    }
    if same_text(kind, "image") {
        FileCategory::Image
    } else if same_text(kind, "video") {
        FileCategory::Video
    } else if same_text(kind, "audio") {
        FileCategory::Audio
    } else if same_text(kind, "text") {
        classify_text_subtype(subtype)
    } else if same_text(kind, "application") {
        classify_application_subtype(subtype)
    } else {
        FileCategory::Other
    }
}

/// The subtypes of `text` that are code.
pub open spec fn is_text_code(s: Seq<char>) -> bool {
    ||| s == "x-rust"@
    ||| s == "x-python"@
    ||| s == "x-c"@
    ||| s == "x-c++"@
    ||| s == "x-java"@
    ||| s == "x-javascript"@
    ||| s == "javascript"@
    ||| s == "typescript"@
    ||| s == "x-typescript"@
    ||| s == "x-sh"@
    ||| s == "x-shellscript"@
    ||| s == "x-ruby"@
    ||| s == "x-go"@
    ||| s == "x-swift"@
    ||| s == "x-kotlin"@
    ||| s == "css"@
    ||| s == "html"@
    ||| s == "xml"@
    ||| s == "x-yaml"@
    ||| s == "yaml"@
    ||| s == "x-toml"@
    ||| s == "x-makefile"@
    ||| s == "x-asm"@
}

/// The category of a subtype of `text`: code or a document.
pub fn classify_text_subtype(subtype: &str) -> (r: FileCategory)
    ensures
        r == if is_text_code(subtype@) {
            FileCategory::Code
        } else {
            FileCategory::Document
        },
{
    let s: &str = subtype;
    if same_text(s, "x-rust") || same_text(s, "x-python") || same_text(s, "x-c") || same_text(
        s,
        "x-c++",
    ) || same_text(s, "x-java") || same_text(s, "x-javascript") || same_text(s, "javascript")
        || same_text(s, "typescript") || same_text(s, "x-typescript") || same_text(s, "x-sh")
        || same_text(s, "x-shellscript") || same_text(s, "x-ruby") || same_text(s, "x-go")
        || same_text(s, "x-swift") || same_text(s, "x-kotlin") || same_text(s, "css") || same_text(
        s,
        "html",
    ) || same_text(s, "xml") || same_text(s, "x-yaml") || same_text(s, "yaml") || same_text(
        s,
        "x-toml",
    ) || same_text(s, "x-makefile") || same_text(s, "x-asm") {
        FileCategory::Code
    } else {
        FileCategory::Document
    }
}

/// The subtypes of `application` that are documents.
pub open spec fn is_application_document(s: Seq<char>) -> bool {
    ||| s == "pdf"@
    ||| s == "msword"@
    ||| s == "vnd.openxmlformats-officedocument.wordprocessingml.document"@
    ||| s == "vnd.oasis.opendocument.text"@
    ||| s == "vnd.ms-excel"@
    ||| s == "vnd.openxmlformats-officedocument.spreadsheetml.sheet"@
    ||| s == "vnd.oasis.opendocument.spreadsheet"@
    ||| s == "vnd.ms-powerpoint"@
    ||| s == "vnd.openxmlformats-officedocument.presentationml.presentation"@
    ||| s == "rtf"@
    ||| s == "epub+zip"@
    ||| s == "vnd.amazon.ebook"@
}

/// The subtypes of `application` that are archives.
pub open spec fn is_application_archive(s: Seq<char>) -> bool {
    ||| s == "zip"@
    ||| s == "x-tar"@
    ||| s == "gzip"@
    ||| s == "x-gzip"@
    ||| s == "x-bzip2"@
    ||| s == "x-7z-compressed"@
    ||| s == "x-rar-compressed"@
    ||| s == "vnd.rar"@
    ||| s == "x-xz"@
    ||| s == "x-lzma"@
    ||| s == "zstd"@
    ||| s == "x-zstd"@
    ||| s == "x-iso9660-image"@
}

/// The subtypes of `application` that are code.
pub open spec fn is_application_code(s: Seq<char>) -> bool {
    ||| s == "json"@
    ||| s == "xml"@
    ||| s == "x-yaml"@
    ||| s == "javascript"@
    ||| s == "ecmascript"@
    ||| s == "x-httpd-php"@
    ||| s == "x-ruby"@
    ||| s == "x-perl"@
    ||| s == "x-python"@
    ||| s == "wasm"@
    ||| s == "graphql"@
    ||| s == "ld+json"@
    ||| s == "schema+json"@
}

/// The category of a subtype of `application`.
pub open spec fn category_of_application(s: Seq<char>) -> FileCategory {
    if is_application_document(s) {
        FileCategory::Document
    } else if is_application_archive(s) {
        FileCategory::Archive
    } else if is_application_code(s) {
        FileCategory::Code
    } else {
        FileCategory::Other
    }
}

/// The category of a subtype of `application`.
pub fn classify_application_subtype(subtype: &str) -> (r: FileCategory)
    ensures
        r == category_of_application(subtype@),
{
    let s: &str = subtype;
    if same_text(s, "pdf") || same_text(s, "msword") || same_text(
        s,
        "vnd.openxmlformats-officedocument.wordprocessingml.document",
    ) || same_text(s, "vnd.oasis.opendocument.text") || same_text(s, "vnd.ms-excel") || same_text(
        s,
        "vnd.openxmlformats-officedocument.spreadsheetml.sheet",
    ) || same_text(s, "vnd.oasis.opendocument.spreadsheet") || same_text(s, "vnd.ms-powerpoint")
        || same_text(s, "vnd.openxmlformats-officedocument.presentationml.presentation")
        || same_text(s, "rtf") || same_text(s, "epub+zip") || same_text(s, "vnd.amazon.ebook") {
        FileCategory::Document
    } else if same_text(s, "zip") || same_text(s, "x-tar") || same_text(s, "gzip") || same_text(
        s,
        "x-gzip",
    ) || same_text(s, "x-bzip2") || same_text(s, "x-7z-compressed") || same_text(
        s,
        "x-rar-compressed",
    ) || same_text(s, "vnd.rar") || same_text(s, "x-xz") || same_text(s, "x-lzma") || same_text(
        s,
        "zstd",
    ) || same_text(s, "x-zstd") || same_text(s, "x-iso9660-image") {
        FileCategory::Archive
    } else if same_text(s, "json") || same_text(s, "xml") || same_text(s, "x-yaml") || same_text(
        s,
        "javascript",
    ) || same_text(s, "ecmascript") || same_text(s, "x-httpd-php") || same_text(s, "x-ruby")
        || same_text(s, "x-perl") || same_text(s, "x-python") || same_text(s, "wasm") || same_text(
        s,
        "graphql",
    ) || same_text(s, "ld+json") || same_text(s, "schema+json") {
        FileCategory::Code
    } else {
        FileCategory::Other
    }
}

/// The category of the MIME type that an extension suggests.
pub open spec fn category_of_guess(guess: Option<Seq<char>>) -> FileCategory {
    match guess {
        Some(mime) => category_of_mime(mime),
        None => FileCategory::Other,
    }
}

/// The category of an extension, without a look at any file.
pub fn category_from_extension(ext: &str) -> (r: FileCategory)
    ensures
        r == category_of_guess(path_guess("file."@ + ext@)),
{
    let path: String = joined("file.", ext);
    match detect_from_extension(path.as_str()) {
        Some(mime) => category_from_mime(mime.as_str()),
        None => FileCategory::Other,
    }
}

/// The extension of a file named `file` is what stands behind the dot.
proof fn extension_behind_dot(ext: Seq<char>)
    requires
        !ext.contains('.'),
        !ext.contains('/'),
    ensures
        extension_of("file."@ + ext) == Some(ext),
{
    reveal_strlit("file.");
    let name = "file."@ + ext;
    assert("file."@ == seq!['f', 'i', 'l', 'e', '.']);
    assert forall|i: int| 0 <= i < name.len() implies name[i] != '/' by {
        if i >= 5 {
            assert(ext.contains(ext[i - 5]));
        }
    }
    assert(name[0] == 'f');
    assert(path_join(Seq::empty(), name) == name);
    joined_name_is_last(Seq::empty(), name);
    assert(is_last_dot(name, 4)) by {
        assert forall|j: int| 4 < j < name.len() implies name[j] != '.' by {
            assert(ext.contains(ext[j - 5]));
        }
    }
    assert(forall|k: int| is_last_dot(name, k) ==> k == 4);
    assert(name.skip(5) == ext);
}

/// An extension has the category of a file with that extension whose first bytes
/// tell nothing; it is [`FileCategory::Other`] where no MIME type is known for the
/// extension. What the file holds makes no difference.
pub proof fn extension_decides_without_signature(ext: Seq<char>, path: Seq<char>)
    requires
        !ext.contains('.'),
        !ext.contains('/'),
        extension_of(path) == Some(ext),
    ensures
        category_of_guess(path_guess("file."@ + ext)) == category_of_mime(
            settled_mime(None, path_guess(path)),
        ),
        guessed_mime(ext) is None ==> category_of_guess(path_guess("file."@ + ext))
            == FileCategory::Other,
{
    extension_behind_dot(ext);
    unknown_bytes_are_other();
}

/// Two paths with the same extension suggest the same MIME type.
pub proof fn guess_depends_on_extension(a: Seq<char>, b: Seq<char>)
    requires
        extension_of(a) == extension_of(b),
    ensures
        path_guess(a) == path_guess(b),
{
}

pub(crate) proof fn unknown_bytes_are_other()
    ensures
        category_of_mime("application/octet-stream"@) == FileCategory::Other,
{
    let mime = "application/octet-stream"@;
    let kind = "application"@;
    let rest = "octet-stream"@;
    reveal_strlit("application/octet-stream");
    reveal_strlit("application");
    reveal_strlit("octet-stream");
    reveal_strlit("image");
    reveal_strlit("video");
    reveal_strlit("audio");
    reveal_strlit("text");
    assert(mime == kind.push('/') + rest);
    assert(kind == seq!['a', 'p', 'p', 'l', 'i', 'c', 'a', 't', 'i', 'o', 'n']);
    assert(rest == seq!['o', 'c', 't', 'e', 't', '-', 's', 't', 'r', 'e', 'a', 'm']);
    split_at_first(kind, rest);
    one_piece(rest);
    assert(subtype_part(mime) == rest);
    octet_stream_is_unknown();
}

proof fn octet_stream_is_unknown()
    ensures
        category_of_application("octet-stream"@) == FileCategory::Other,
{
    reveal_strlit("octet-stream");
    assert("octet-stream"@[0] == 'o');
    reveal_strlit("pdf");
    reveal_strlit("msword");
    reveal_strlit("vnd.openxmlformats-officedocument.wordprocessingml.document");
    reveal_strlit("vnd.oasis.opendocument.text");
    reveal_strlit("vnd.ms-excel");
    reveal_strlit("vnd.openxmlformats-officedocument.spreadsheetml.sheet");
    reveal_strlit("vnd.oasis.opendocument.spreadsheet");
    reveal_strlit("vnd.ms-powerpoint");
    reveal_strlit("vnd.openxmlformats-officedocument.presentationml.presentation");
    reveal_strlit("rtf");
    reveal_strlit("epub+zip");
    reveal_strlit("vnd.amazon.ebook");
    reveal_strlit("zip");
    reveal_strlit("x-tar");
    reveal_strlit("gzip");
    reveal_strlit("x-gzip");
    reveal_strlit("x-bzip2");
    reveal_strlit("x-7z-compressed");
    reveal_strlit("x-rar-compressed");
    reveal_strlit("vnd.rar");
    reveal_strlit("x-xz");
    reveal_strlit("x-lzma");
    reveal_strlit("zstd");
    reveal_strlit("x-zstd");
    reveal_strlit("x-iso9660-image");
    reveal_strlit("json");
    reveal_strlit("xml");
    reveal_strlit("x-yaml");
    reveal_strlit("javascript");
    reveal_strlit("ecmascript");
    reveal_strlit("x-httpd-php");
    reveal_strlit("x-ruby");
    reveal_strlit("x-perl");
    reveal_strlit("x-python");
    reveal_strlit("wasm");
    reveal_strlit("graphql");
    reveal_strlit("ld+json");
    reveal_strlit("schema+json");
    assert("pdf"@[0] != 'o');
    assert("msword"@[0] != 'o');
    assert("vnd.openxmlformats-officedocument.wordprocessingml.document"@[0] != 'o');
    assert("vnd.oasis.opendocument.text"@[0] != 'o');
    assert("vnd.ms-excel"@[0] != 'o');
    assert("vnd.openxmlformats-officedocument.spreadsheetml.sheet"@[0] != 'o');
    assert("vnd.oasis.opendocument.spreadsheet"@[0] != 'o');
    assert("vnd.ms-powerpoint"@[0] != 'o');
    assert("vnd.openxmlformats-officedocument.presentationml.presentation"@[0] != 'o');
    assert("rtf"@[0] != 'o');
    assert("epub+zip"@[0] != 'o');
    assert("vnd.amazon.ebook"@[0] != 'o');
    assert("zip"@[0] != 'o');
    assert("x-tar"@[0] != 'o');
    assert("gzip"@[0] != 'o');
    assert("x-gzip"@[0] != 'o');
    assert("x-bzip2"@[0] != 'o');
    assert("x-7z-compressed"@[0] != 'o');
    assert("x-rar-compressed"@[0] != 'o');
    assert("vnd.rar"@[0] != 'o');
    assert("x-xz"@[0] != 'o');
    assert("x-lzma"@[0] != 'o');
    assert("zstd"@[0] != 'o');
    assert("x-zstd"@[0] != 'o');
    assert("x-iso9660-image"@[0] != 'o');
    assert("json"@[0] != 'o');
    assert("xml"@[0] != 'o');
    assert("x-yaml"@[0] != 'o');
    assert("javascript"@[0] != 'o');
    assert("ecmascript"@[0] != 'o');
    assert("x-httpd-php"@[0] != 'o');
    assert("x-ruby"@[0] != 'o');
    assert("x-perl"@[0] != 'o');
    assert("x-python"@[0] != 'o');
    assert("wasm"@[0] != 'o');
    assert("graphql"@[0] != 'o');
    assert("ld+json"@[0] != 'o');
    assert("schema+json"@[0] != 'o');
}

/// Every subtype of `image`, `video` and `audio` has the category of its type.
pub proof fn media_types_need_no_subtype(rest: Seq<char>)
    ensures
        category_of_mime("image/"@ + rest) == FileCategory::Image,
        category_of_mime("video/"@ + rest) == FileCategory::Video,
        category_of_mime("audio/"@ + rest) == FileCategory::Audio,
{
    reveal_strlit("image/");
    reveal_strlit("video/");
    reveal_strlit("audio/");
    reveal_strlit("image");
    reveal_strlit("video");
    reveal_strlit("audio");
    assert("image/"@ == "image"@.push('/'));
    assert("video/"@ == "video"@.push('/'));
    assert("audio/"@ == "audio"@.push('/'));
    split_at_first("image"@, rest);
    split_at_first("video"@, rest);
    split_at_first("audio"@, rest);
    assert("image"@[0] == 'i' && "video"@[0] == 'v' && "audio"@[0] == 'a');
}

pub(crate) proof fn split_at_first(kind: Seq<char>, rest: Seq<char>)
    requires
        !kind.contains('/'),
    ensures
        split_on(kind.push('/') + rest, '/') == seq![kind] + split_on(rest, '/'),
        split_on(rest, '/').len() > 0,
{
    pieces_of_parts(kind, marks(kind, '/'), '/', rest, marks(rest, '/'));
    assert(marks(kind.push('/') + rest, '/') == marks(kind, '/').push(true) + marks(rest, '/'));
    one_piece(kind);
}

pub(crate) proof fn one_piece(kind: Seq<char>)
    requires
        !kind.contains('/'),
    ensures
        split_on(kind, '/') == seq![kind],
    decreases kind.len(),
{
    if kind.len() > 0 {
        let shorter = kind.drop_last();
        assert(!shorter.contains('/')) by {
            if shorter.contains('/') {
                let i = choose|i: int| 0 <= i < shorter.len() && shorter[i] == '/';
                assert(kind[i] == '/');
            }
        }
        assert(kind.last() != '/') by {
            assert(kind.contains(kind.last()));
        }
        one_piece(shorter);
        assert(marks(kind, '/').drop_last() == marks(shorter, '/'));
        assert(shorter.push(kind.last()) == kind);
    } else {
        assert(kind == Seq::<char>::empty());
    }
}

} // verus!
