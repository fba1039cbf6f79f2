//! Content-based format detection.
use vstd::prelude::*;
use vstd::string::StringSliceAdditionalSpecFns;
use vstd::utf8::encode_utf8;
use crate::text::lower_byte;

verus! {

/// The formats that the sniffer tells apart.
#[derive(Debug, Clone, Copy, PartialEq, Eq, Structural)]
pub enum FileType {
    Pdf,
    Jpg,
    Png,
    Docx,
    Unknown,
}

#[verifier::external_type_specification]
#[verifier::external_body]
#[verifier::reject_recursive_types(R)]
pub struct ExZipArchive<R>(zip::ZipArchive<R>);

#[verifier::external_type_specification]
#[verifier::external_body]
#[verifier::reject_recursive_types(T)]
pub struct ExCursor<T>(std::io::Cursor<T>);

/// An archive read from an in-memory buffer.
pub type Archive<'a> = zip::ZipArchive<std::io::Cursor<&'a [u8]>>;

/// The entry names of a ZIP archive that `zip::ZipArchive::new` reads from a
/// buffer, in the order of its central directory; `None` where it cannot read one.
pub uninterp spec fn zip_directory(data: Seq<u8>) -> Option<Seq<Seq<char>>>;

/// The entry names that an opened archive holds, by index.
pub uninterp spec fn archive_names(a: zip::ZipArchive<std::io::Cursor<&[u8]>>) -> Seq<Seq<char>>;

/// Relies on `zip::ZipArchive::new`: it reads the central directory of the
/// buffer, and fails where the buffer holds no readable archive.
#[verifier::external_body]
fn open_archive<'a>(data: &'a [u8]) -> (r: Option<Archive<'a>>)
    ensures
        match r {
            Some(a) => zip_directory(data@) == Some(archive_names(a)),
            None => zip_directory(data@) is None,
        },
{
    zip::ZipArchive::new(std::io::Cursor::new(data)).ok()
}

/// Relies on `zip::ZipArchive::len`: the number of entries.
#[verifier::external_body]
fn archive_len(a: &Archive) -> (r: usize)
    ensures
        r == archive_names(*a).len(),
{
    a.len()
}

/// Relies on `zip::ZipArchive::name_for_index`: the name of an entry, `None`
/// past the last one.
#[verifier::external_body]
fn archive_entry_name(a: &Archive, i: usize) -> (r: Option<String>)
    ensures
        match r {
            Some(s) => i < archive_names(*a).len() && s@ == archive_names(*a)[i as int],
            None => i >= archive_names(*a).len(),
        },
{
    a.name_for_index(i).map(String::from)
}

pub open spec fn has_pdf_magic(d: Seq<u8>) -> bool {
    d.len() >= 4 && d[0] == 0x25 && d[1] == 0x50 && d[2] == 0x44 && d[3] == 0x46
}

pub open spec fn has_jpg_magic(d: Seq<u8>) -> bool {
    d.len() >= 3 && d[0] == 0xff && d[1] == 0xd8 && d[2] == 0xff
}

pub open spec fn has_png_magic(d: Seq<u8>) -> bool {
    d.len() >= 8 && d[0] == 0x89 && d[1] == 0x50 && d[2] == 0x4e && d[3] == 0x47 && d[4]
        == 0x0d && d[5] == 0x0a && d[6] == 0x1a && d[7] == 0x0a
}

pub open spec fn has_zip_magic(d: Seq<u8>) -> bool {
    d.len() >= 4 && d[0] == 0x50 && d[1] == 0x4b && d[2] == 0x03 && d[3] == 0x04
}

/// Equal up to ASCII case.
pub open spec fn eq_ignore_ascii_case(a: Seq<u8>, b: Seq<u8>) -> bool {
    a.len() == b.len() && forall|i: int| 0 <= i < a.len() ==> lower_byte(a[i]) == lower_byte(b[i])
}

/// The entry name that marks an Office Open XML package.
pub open spec fn content_types_name() -> Seq<u8> {
    "[Content_Types].xml".spec_bytes()
}

/// An entry name is the package marker, whatever its case.
pub open spec fn is_content_types(name: Seq<char>) -> bool {
    eq_ignore_ascii_case(encode_utf8(name), content_types_name())
}

/// How many directory entries the sniffer looks at.
pub const ENTRY_SCAN_LIMIT: usize = 10;

/// One of the first `ENTRY_SCAN_LIMIT` names is the package marker.
pub open spec fn marker_in_first_entries(names: Seq<Seq<char>>) -> bool {
    exists|i: int| 0 <= i < names.len() && i < ENTRY_SCAN_LIMIT && is_content_types(names[i])
}

/// The format of a buffer: the first magic prefix that matches, and for a ZIP
/// archive whether its first entries hold the package marker.
pub open spec fn file_type_of(d: Seq<u8>) -> FileType {
    if has_pdf_magic(d) {
        FileType::Pdf
    } else if has_jpg_magic(d) {
        FileType::Jpg
    } else if has_png_magic(d) {
        FileType::Png
    } else if has_zip_magic(d) && match zip_directory(d) {
        Some(names) => marker_in_first_entries(names),
        None => false,
    } {
        FileType::Docx
    } else {
        FileType::Unknown
    }
}

/// Compares two byte strings up to ASCII case.
fn bytes_eq_ignore_case(a: &[u8], b: &[u8]) -> (r: bool)
    ensures
        r == eq_ignore_ascii_case(a@, b@),
{
    if a.len() != b.len() {
        return false;
    }
    let mut i: usize = 0;
    while i < a.len()
        invariant
            a.len() == b.len(),
            i <= a.len(),
            forall|k: int| 0 <= k < i ==> lower_byte(a@[k]) == lower_byte(b@[k]),
        decreases a.len() - i,
    {
        let x = if 0x41 <= a[i] && a[i] <= 0x5a { a[i] + 0x20 } else { a[i] };
        let y = if 0x41 <= b[i] && b[i] <= 0x5a { b[i] + 0x20 } else { b[i] };
        if x != y {
            return false;
        }
        i = i + 1;
    }
    true
}

/// Tells whether one of the first entries of a ZIP buffer is the package marker.
fn zip_has_marker(data: &[u8]) -> (r: bool)
    ensures
        r == match zip_directory(data@) {
            Some(names) => marker_in_first_entries(names),
            None => false,
        },
{
    let opened = open_archive(data);
    let archive = match opened {
        Some(a) => a,
        None => return false,
    };
    let ghost names = archive_names(archive);
    assert(zip_directory(data@) == Some(names));
    let n = archive_len(&archive);
    let limit = if n < ENTRY_SCAN_LIMIT { n } else { ENTRY_SCAN_LIMIT };
    let marker = "[Content_Types].xml".as_bytes();
    let mut i: usize = 0;
    while i < limit
        invariant
            names == archive_names(archive),
            zip_directory(data@) == Some(names),
            n == names.len(),
            limit <= n && limit <= ENTRY_SCAN_LIMIT,
            limit == n || limit == ENTRY_SCAN_LIMIT,
            i <= limit,
            marker@ == content_types_name(),
            forall|k: int| 0 <= k < i ==> !is_content_types(names[k]),
        decreases limit - i,
    {
        match archive_entry_name(&archive, i) {
            Some(name) => {
                let bytes = name.as_str().as_bytes();
                if bytes_eq_ignore_case(bytes, marker) {
                    assert(bytes@ == encode_utf8(names[i as int]));
                    assert(is_content_types(names[i as int]));
                    assert(marker_in_first_entries(names));
                    return true;
                }
            },
            None => {},
        }
        i = i + 1;
    }
    false
}

/// Classifies a buffer by its content.
pub fn detect_file_type(data: &[u8]) -> (r: FileType)
    ensures
        r == file_type_of(data@),
{
    let n = data.len();
    if n >= 4 && data[0] == 0x25 && data[1] == 0x50 && data[2] == 0x44 && data[3] == 0x46 {
        return FileType::Pdf;
    }
    if n >= 3 && data[0] == 0xff && data[1] == 0xd8 && data[2] == 0xff {
        return FileType::Jpg;
    }
    if n >= 8 && data[0] == 0x89 && data[1] == 0x50 && data[2] == 0x4e && data[3] == 0x47
        && data[4] == 0x0d && data[5] == 0x0a && data[6] == 0x1a && data[7] == 0x0a {
        return FileType::Png;
    }
    if n >= 4 && data[0] == 0x50 && data[1] == 0x4b && data[2] == 0x03 && data[3] == 0x04 {
        if zip_has_marker(data) {
            return FileType::Docx;
        }
    }
    FileType::Unknown
}

/// Whatever follows it, a buffer that begins with `%PDF` is a PDF.
pub proof fn law_pdf_prefix_wins(d: Seq<u8>)
    requires
        has_pdf_magic(d),
    ensures
        file_type_of(d) == FileType::Pdf,
{
}

/// A ZIP buffer whose package marker stands only past the first ten entries
/// of its directory is not taken for an Office package.
pub proof fn law_marker_past_scan_limit(d: Seq<u8>, names: Seq<Seq<char>>)
    requires
        has_zip_magic(d),
        zip_directory(d) == Some(names),
        forall|i: int| 0 <= i < names.len() && i < ENTRY_SCAN_LIMIT ==> !is_content_types(names[i]),
    ensures
        file_type_of(d) == FileType::Unknown,
{
}

/// Two buffers with the same bytes get the same format.
pub proof fn law_detection_deterministic(d1: Seq<u8>, d2: Seq<u8>)
    requires
        d1 == d2,
    ensures
        file_type_of(d1) == file_type_of(d2),
{
}

} // verus!
