//! Content-based document type detection and static risk scoring of PDFs.
pub mod text;
pub mod patterns;
pub mod filetype;
pub mod pdf_analysis;

pub use filetype::{detect_file_type, FileType};
pub use pdf_analysis::{
    analyze_data, analyze_pdf, byte_histogram, suspicious_uri, AnalysisResult, PdfThreatLevel,
};
