use docsniff::{detect_file_type, FileType};
use std::io::{Cursor, Write};
use zip::write::SimpleFileOptions;
use zip::{CompressionMethod, ZipWriter};

fn archive(names: &[&str]) -> Vec<u8> {
    let mut w = ZipWriter::new(Cursor::new(Vec::new()));
    let options = SimpleFileOptions::default().compression_method(CompressionMethod::Stored);
    for name in names {
        w.start_file(*name, options).unwrap();
        w.write_all(b"<x/>").unwrap();
    }
    w.finish().unwrap().into_inner()
}

#[test]
fn pdf_prefix_wins_over_trailing_content() {
    assert_eq!(detect_file_type(b"%PDF"), FileType::Pdf);
    let mut data = b"%PDF-1.7\n".to_vec();
    data.extend_from_slice(&[0xff, 0xd8, 0xff, 0x00, 0x89, 0x50]);
    assert_eq!(detect_file_type(&data), FileType::Pdf);
}

#[test]
fn image_magic_prefixes() {
    assert_eq!(detect_file_type(&[0xff, 0xd8, 0xff, 0xe0, 0x00]), FileType::Jpg);
    let png = [0x89, b'P', b'N', b'G', b'\r', b'\n', 0x1a, b'\n', 0, 0];
    assert_eq!(detect_file_type(&png), FileType::Png);
    assert_eq!(detect_file_type(&png[..7]), FileType::Unknown);
}

#[test]
fn empty_and_short_buffers_are_unknown() {
    assert_eq!(detect_file_type(b""), FileType::Unknown);
    assert_eq!(detect_file_type(b"%PD"), FileType::Unknown);
    assert_eq!(detect_file_type(b"hello world"), FileType::Unknown);
}

#[test]
fn office_package_is_docx() {
    let data = archive(&["[Content_Types].xml", "word/document.xml"]);
    assert_eq!(detect_file_type(&data), FileType::Docx);
}

#[test]
fn package_marker_case_is_ignored() {
    let data = archive(&["_rels/.rels", "[content_types].XML"]);
    assert_eq!(detect_file_type(&data), FileType::Docx);
}

#[test]
fn marker_as_tenth_entry_is_docx() {
    let mut names: Vec<String> = (0..9).map(|i| format!("part{}.xml", i)).collect();
    names.push("[Content_Types].xml".to_string());
    let refs: Vec<&str> = names.iter().map(|s| s.as_str()).collect();
    assert_eq!(detect_file_type(&archive(&refs)), FileType::Docx);
}

#[test]
fn marker_as_eleventh_entry_is_unknown() {
    let mut names: Vec<String> = (0..10).map(|i| format!("part{}.xml", i)).collect();
    names.push("[Content_Types].xml".to_string());
    let refs: Vec<&str> = names.iter().map(|s| s.as_str()).collect();
    assert_eq!(detect_file_type(&archive(&refs)), FileType::Unknown);
}

#[test]
fn plain_archive_is_unknown() {
    let data = archive(&["readme.txt", "src/main.c"]);
    assert_eq!(detect_file_type(&data), FileType::Unknown);
}

#[test]
fn corrupt_archive_is_unknown() {
    let mut data = vec![0x50, 0x4b, 0x03, 0x04];
    data.extend_from_slice(b"this is not really an archive");
    assert_eq!(detect_file_type(&data), FileType::Unknown);
    let mut truncated = archive(&["[Content_Types].xml"]);
    truncated.truncate(truncated.len() - 10);
    assert_eq!(detect_file_type(&truncated), FileType::Unknown);
}

#[test]
fn detection_is_repeatable() {
    let data = archive(&["[Content_Types].xml"]);
    assert_eq!(detect_file_type(&data), detect_file_type(&data));
}
