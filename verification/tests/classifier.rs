use data_fortress::models::FileCategory;
use data_fortress::scanner::classifier::{
    category_from_extension, category_from_mime, classification_of, classify,
    classify_application_subtype, classify_text_subtype, detect_from_extension, detect_from_magic,
};

const PNG: [u8; 12] = [0x89, 0x50, 0x4E, 0x47, 0x0D, 0x0A, 0x1A, 0x0A, 0x00, 0x00, 0x00, 0x0D];

#[test]
fn test_image_mime_maps_to_image_category() {
    assert_eq!(category_from_mime("image/jpeg"), FileCategory::Image);
    assert_eq!(category_from_mime("image/png"), FileCategory::Image);
    assert_eq!(category_from_mime("image/webp"), FileCategory::Image);
}

#[test]
fn test_video_mime_maps_to_video_category() {
    assert_eq!(category_from_mime("video/mp4"), FileCategory::Video);
    assert_eq!(category_from_mime("video/x-matroska"), FileCategory::Video);
}

#[test]
fn test_document_subtypes() {
    assert_eq!(category_from_mime("application/pdf"), FileCategory::Document);
    assert_eq!(category_from_mime("application/msword"), FileCategory::Document);
}

#[test]
fn test_archive_subtypes() {
    assert_eq!(category_from_mime("application/zip"), FileCategory::Archive);
    assert_eq!(category_from_mime("application/x-tar"), FileCategory::Archive);
    assert_eq!(category_from_mime("application/x-7z-compressed"), FileCategory::Archive);
}

#[test]
fn test_code_subtypes() {
    assert_eq!(category_from_mime("application/json"), FileCategory::Code);
    assert_eq!(category_from_mime("text/x-rust"), FileCategory::Code);
    assert_eq!(category_from_mime("text/x-python"), FileCategory::Code);
}

#[test]
fn test_unknown_falls_back_to_other() {
    assert_eq!(category_from_mime("application/octet-stream"), FileCategory::Other);
    assert_eq!(category_from_mime("model/gltf+json"), FileCategory::Other);
}

#[test]
fn test_category_from_extension() {
    assert_eq!(category_from_extension("jpg"), FileCategory::Image);
    assert_eq!(category_from_extension("mp4"), FileCategory::Video);
    assert_eq!(category_from_extension("pdf"), FileCategory::Document);
    assert_eq!(category_from_extension("zip"), FileCategory::Archive);
    assert_eq!(category_from_extension("rs"), FileCategory::Code);
}

#[test]
fn audio_and_text_types() {
    assert_eq!(category_from_mime("audio/mpeg"), FileCategory::Audio);
    assert_eq!(category_from_mime("text/plain"), FileCategory::Document);
    assert_eq!(category_from_mime("text"), FileCategory::Document);
    assert_eq!(category_from_mime("text/css/extra"), FileCategory::Code);
    assert_eq!(category_from_mime(""), FileCategory::Other);
}

#[test]
fn every_listed_subtype_has_its_category() {
    let text = [
        "x-rust", "x-python", "x-c", "x-c++", "x-java", "x-javascript", "javascript", "typescript",
        "x-typescript", "x-sh", "x-shellscript", "x-ruby", "x-go", "x-swift", "x-kotlin", "css", "html",
        "xml", "x-yaml", "yaml", "x-toml", "x-makefile", "x-asm",
    ];
    for s in text {
        assert_eq!(classify_text_subtype(s), FileCategory::Code, "{}", s);
    }
    assert_eq!(classify_text_subtype("markdown"), FileCategory::Document);
    let documents = [
        "pdf", "msword", "vnd.openxmlformats-officedocument.wordprocessingml.document",
        "vnd.oasis.opendocument.text", "vnd.ms-excel",
        "vnd.openxmlformats-officedocument.spreadsheetml.sheet", "vnd.oasis.opendocument.spreadsheet",
        "vnd.ms-powerpoint", "vnd.openxmlformats-officedocument.presentationml.presentation", "rtf",
        "epub+zip", "vnd.amazon.ebook",
    ];
    for s in documents {
        assert_eq!(classify_application_subtype(s), FileCategory::Document, "{}", s);
    }
    let archives = [
        "zip", "x-tar", "gzip", "x-gzip", "x-bzip2", "x-7z-compressed", "x-rar-compressed", "vnd.rar",
        "x-xz", "x-lzma", "zstd", "x-zstd", "x-iso9660-image",
    ];
    for s in archives {
        assert_eq!(classify_application_subtype(s), FileCategory::Archive, "{}", s);
    }
    let code = [
        "json", "xml", "x-yaml", "javascript", "ecmascript", "x-httpd-php", "x-ruby", "x-perl",
        "x-python", "wasm", "graphql", "ld+json", "schema+json",
    ];
    for s in code {
        assert_eq!(classify_application_subtype(s), FileCategory::Code, "{}", s);
    }
    assert_eq!(classify_application_subtype("x-msdownload"), FileCategory::Other);
}

#[test]
fn magic_bytes_come_before_the_extension() {
    let c = classify("/scan/photo.txt", &PNG);
    assert_eq!(c.mime_type, "image/png");
    assert_eq!(c.category, FileCategory::Image);
}

#[test]
fn the_extension_decides_without_magic_bytes() {
    let c = classify("/scan/note.txt", b"sample text");
    assert_eq!(c.mime_type, "text/plain");
    assert_eq!(c.category, FileCategory::Document);
    assert_eq!(classify("/scan/MAIN.RS", b"").category, FileCategory::Code);
}

#[test]
fn unknown_files_are_octet_streams() {
    let c = classify("/scan/noextension", b"");
    assert_eq!(c.mime_type, "application/octet-stream");
    assert_eq!(c.category, FileCategory::Other);
    assert_eq!(detect_from_extension("/scan/noextension"), None);
    assert_eq!(detect_from_magic(b""), None);
}

#[test]
fn only_the_first_bytes_count() {
    let mut long = b"0123456789abcdef".to_vec();
    long.extend_from_slice(b"%PDF-1.7");
    assert_eq!(detect_from_magic(&long), None);
    assert_eq!(detect_from_magic(b"%PDF-1.7 and much more text behind it"), Some("application/pdf".to_string()));
}

#[test]
fn classification_of_given_guesses() {
    let c = classification_of(None, Some("video/mp4".to_string()));
    assert_eq!(c.category, FileCategory::Video);
    let c = classification_of(Some("image/gif".to_string()), Some("video/mp4".to_string()));
    assert_eq!(c.mime_type, "image/gif");
    let c = classification_of(None, None);
    assert_eq!(c.mime_type, "application/octet-stream");
}

#[test]
fn the_extension_decides_for_every_name() {
    for ext in ["pdf", "PNG", "rs", "zip", "unheard-of"] {
        let category = category_from_extension(ext);
        for path in [format!("/x/a.{}", ext), format!("b.c.{}", ext)] {
            assert_eq!(classify(&path, &[]).category, category, "{}", path);
        }
    }
    assert_eq!(category_from_extension("unheard-of"), FileCategory::Other);
}
