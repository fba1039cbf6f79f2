use docsniff::{
    analyze_data, analyze_pdf, byte_histogram, suspicious_uri, AnalysisResult, FileType,
    PdfThreatLevel,
};

const EICAR: &str = "X5O!P%@AP[4\\PZX54(P^)7CC)7}$EICAR-STANDARD-ANTIVIRUS-TEST-FILE!$H+H*";

fn findings(data: &[u8], entropy: Option<&str>) -> Option<Vec<String>> {
    match analyze_data(data, entropy.map(|s| s.to_string())) {
        (FileType::Pdf, AnalysisResult::Suspicious(f)) => Some(f),
        (FileType::Pdf, AnalysisResult::Clean) => None,
        (other, _) => panic!("not detected as a PDF: {:?}", other),
    }
}

#[test]
fn script_and_executable_launch_add_up() {
    let f = findings(b"%PDF-1.4 /JavaScript /JS /Launch /F (payload.exe)", None).unwrap();
    assert_eq!(
        f,
        vec![
            "Embedded JavaScript action detected",
            "Launch action to 'payload.exe'",
            "Risk score = 18 (threshold = 10)",
        ]
    );
}

#[test]
fn script_alone_is_clean_without_findings() {
    assert_eq!(findings(b"%PDF-1.4 /JavaScript /JS", None), None);
    assert!(matches!(
        analyze_pdf(b"%PDF-1.4 /JavaScript /JS", None),
        PdfThreatLevel::Clean
    ));
}

#[test]
fn eicar_alone_reaches_threshold() {
    let mut data = b"%PDF-1.4\n1 0 obj << /Type /Catalog >> endobj\n".to_vec();
    data.extend_from_slice(EICAR.as_bytes());
    data.extend_from_slice(b"\n%%EOF\n");
    assert_eq!(
        findings(&data, None).unwrap(),
        vec!["EICAR test signature detected", "Risk score = 10 (threshold = 10)"]
    );
}

#[test]
fn eicar_is_matched_on_raw_bytes() {
    let mut data = b"%PDF-1.4\n".to_vec();
    data.extend_from_slice(EICAR.to_lowercase().as_bytes());
    assert_eq!(findings(&data, None), None);
}

#[test]
fn other_formats_are_always_clean() {
    let mut jpeg = vec![0xff, 0xd8, 0xff, 0xe0];
    jpeg.extend_from_slice(b"/JavaScript /JS /Launch /F (cmd.exe) ");
    jpeg.extend_from_slice(EICAR.as_bytes());
    let (kind, result) = analyze_data(&jpeg, Some("7.99".to_string()));
    assert_eq!(kind, FileType::Jpg);
    assert!(matches!(result, AnalysisResult::Clean));
    let (kind, result) = analyze_data(b"", None);
    assert_eq!(kind, FileType::Unknown);
    assert!(matches!(result, AnalysisResult::Clean));
}

#[test]
fn loopback_uri_is_suspicious() {
    assert!(suspicious_uri(b"http://127.0.0.1/x"));
    assert!(!suspicious_uri(b"http://example.com/report.pdf"));
    assert!(suspicious_uri(b"file:///etc/passwd"));
    assert!(suspicious_uri(b"http://localhost:8080/"));
    assert!(suspicious_uri(b"https://cdn.example.com/setup.exe"));
    assert!(suspicious_uri(b"https://example.com/migrate"));
}

#[test]
fn uri_findings_follow_the_loopback_rule() {
    let data = b"%PDF-1.4 /URI (http://127.0.0.1/x) /URI (http://example.com/report.pdf) /Launch /F (notes.txt)";
    assert_eq!(
        findings(data, None).unwrap(),
        vec![
            "Launch action to 'notes.txt'",
            "Suspicious URI action: http://127.0.0.1/x",
            "Risk score = 11 (threshold = 10)",
        ]
    );
    let benign = b"%PDF-1.4 /URI (http://example.com/report.pdf) /Launch /F (notes.txt)";
    assert_eq!(findings(benign, None), None);
}

#[test]
fn repeated_launches_each_count() {
    let data = b"%PDF-1.4 /Launch /F (a.txt) /Launch/F(b.txt)";
    assert_eq!(
        findings(data, None).unwrap(),
        vec![
            "Launch action to 'a.txt'",
            "Launch action to 'b.txt'",
            "Risk score = 10 (threshold = 10)",
        ]
    );
}

#[test]
fn keywords_match_across_case_and_binary_noise() {
    let data = b"%PDF-1.4 /JAVASCRIPT\x00\r\n/Js /LAUNCH /F (C:\\Windows\\CMD.EXE)";
    assert_eq!(
        findings(data, None).unwrap(),
        vec![
            "Embedded JavaScript action detected",
            "Launch action to 'c:\\windows\\cmd.exe'",
            "Risk score = 18 (threshold = 10)",
        ]
    );
}

#[test]
fn open_action_with_script() {
    let data = b"%PDF-1.4 /OpenAction << /S /JavaScript /JS (app.alert(1)) >>";
    assert_eq!(
        findings(data, None).unwrap(),
        vec![
            "Embedded JavaScript action detected",
            "Executable OpenAction (JS or Launch) detected",
            "Risk score = 15 (threshold = 10)",
        ]
    );
}

#[test]
fn open_action_without_closing_is_ignored() {
    let data = b"%PDF-1.4 /OpenAction << /S /Launch > /Launch /F (x.bin)";
    assert_eq!(findings(data, None), None);
}

#[test]
fn embedded_file_and_external_xfa() {
    let data = b"%PDF-1.4 /EmbeddedFile /XFA <template href=\"http://evil.example/x.xsl\"/>";
    assert_eq!(
        findings(data, None).unwrap(),
        vec![
            "Embedded file object found",
            "XFA form structure detected",
            "External reference in XFA (possible XSLT injection)",
            "Risk score = 13 (threshold = 10)",
        ]
    );
}

#[test]
fn high_object_count() {
    let mut data = b"%PDF-1.4\n".to_vec();
    for _ in 0..3001 {
        data.extend_from_slice(b"1 0 obj\n");
    }
    data.extend_from_slice(b"/Launch /F (run.exe)");
    assert_eq!(
        findings(&data, None).unwrap(),
        vec![
            "Launch action to 'run.exe'",
            "High object count: 3001",
            "Risk score = 13 (threshold = 10)",
        ]
    );
    let mut exactly = b"%PDF-1.4\n".to_vec();
    for _ in 0..3000 {
        exactly.extend_from_slice(b"1 0 obj\n");
    }
    exactly.extend_from_slice(b"/Launch /F (run.exe)");
    assert_eq!(findings(&exactly, None).unwrap().len(), 2);
}

#[test]
fn unc_path_reference() {
    let data = b"%PDF-1.4 /F (\\\\fileserver\\share\\doc) /Launch /F (x.txt) /URI (file://host/a)";
    assert_eq!(
        findings(data, None).unwrap(),
        vec![
            "Launch action to 'x.txt'",
            "UNC path reference detected (network callback possible)",
            "Suspicious URI action: file://host/a",
            "Risk score = 15 (threshold = 10)",
        ]
    );
    let short_host = b"%PDF-1.4 \\\\ab\\share /Launch /F (x.exe)";
    assert_eq!(
        findings(short_host, None).unwrap(),
        vec!["Launch action to 'x.exe'", "Risk score = 10 (threshold = 10)"]
    );
}

#[test]
fn entropy_reading_is_reported() {
    let data = b"%PDF-1.4 /Launch /F (x.txt) \\\\server01\\c$";
    assert_eq!(
        findings(data, Some("7.95")).unwrap(),
        vec![
            "Launch action to 'x.txt'",
            "High entropy detected: 7.95",
            "UNC path reference detected (network callback possible)",
            "Risk score = 13 (threshold = 10)",
        ]
    );
    assert_eq!(findings(data, None), None);
}

fn entropy_of(hist: &[usize], len: usize) -> f64 {
    hist.iter()
        .filter(|&&c| c > 0)
        .map(|&c| {
            let p = c as f64 / len as f64;
            -p * p.log2()
        })
        .sum()
}

#[test]
fn repeated_byte_fills_one_entry() {
    let data = vec![0x41u8; 10_000];
    let hist = byte_histogram(&data);
    assert_eq!(hist.len(), 256);
    assert_eq!(hist[0x41], 10_000);
    assert_eq!(hist.iter().sum::<usize>(), 10_000);
    assert_eq!(entropy_of(&hist, data.len()), 0.0);
}

#[test]
fn balanced_bytes_fill_every_entry() {
    let mut data = Vec::new();
    for _ in 0..40 {
        for b in 0..=255u8 {
            data.push(b);
        }
    }
    let hist = byte_histogram(&data);
    assert!(hist.iter().all(|&c| c == 40));
    assert!((entropy_of(&hist, data.len()) - 8.0).abs() < 1e-9);
}

#[test]
fn empty_buffer_histogram() {
    let hist = byte_histogram(b"");
    assert_eq!(hist, vec![0usize; 256]);
}
