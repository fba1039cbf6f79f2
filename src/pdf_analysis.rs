//! The PDF heuristics, their weights, and the verdict.
use vstd::prelude::*;
use vstd::string::StringExecFns;
use vstd::string::StringSliceAdditionalSpecFns;
use crate::text::{
    text_view, text_byte, occurs_at, has_sub, occurrences_from, ascii_chars, all_ascii, decimal,
    normalize, matches_at, find_in, count_occurrences, ascii_string, decimal_string,
};
use crate::patterns::{
    ArgAction, action_args, args_from, arg_at, arg_start, first_from, has_js_action, has_open_action, has_unc_path,
    find_js_action, find_open_action, find_unc_path, find_action_args,
};
use crate::filetype::{FileType, file_type_of, detect_file_type};

verus! {

/// One triggered check: what it found, and the risk points it adds.
pub struct Finding {
    pub text: String,
    pub weight: u8,
}

/// The verdict on a PDF.
#[derive(Debug)]
pub enum PdfThreatLevel {
    Clean,
    Suspicious(Vec<String>),
}

/// The verdict on any buffer.
#[derive(Debug)]
pub enum AnalysisResult {
    Clean,
    Suspicious(Vec<String>),
}

/// The score at or above which a document is suspicious.
pub const RISK_THRESHOLD: u128 = 10;

/// An object count above this is unusual.
pub const OBJECT_COUNT_LIMIT: usize = 3000;

/// Findings as descriptions and weights.
pub open spec fn views(v: Seq<Finding>) -> Seq<(Seq<char>, u8)> {
    v.map_values(|f: Finding| (f.text@, f.weight))
}

/// The sum of the weights.
pub open spec fn score_of(fs: Seq<(Seq<char>, u8)>) -> nat
    decreases fs.len(),
{
    if fs.len() == 0 {
        0
    } else {
        score_of(fs.drop_last()) + fs.last().1 as nat
    }
}

pub open spec fn one(text: Seq<char>, weight: u8) -> Seq<(Seq<char>, u8)> {
    seq![(text, weight)]
}

pub open spec fn js_part(t: Seq<u8>) -> Seq<(Seq<char>, u8)> {
    if has_js_action(t) {
        one("Embedded JavaScript action detected"@, 8)
    } else {
        seq![]
    }
}

/// A launch target that names an executable.
pub open spec fn is_executable_target(a: Seq<u8>) -> bool {
    has_sub(a, ".exe".spec_bytes()) || has_sub(a, "cmd.exe".spec_bytes())
}

pub open spec fn launch_finding(a: Seq<u8>) -> (Seq<char>, u8) {
    (
        "Launch action to '"@ + ascii_chars(a) + "'"@,
        if is_executable_target(a) {
            10
        } else {
            5
        },
    )
}

/// One finding per launch target, in order.
pub open spec fn launch_findings(args: Seq<Seq<u8>>) -> Seq<(Seq<char>, u8)>
    decreases args.len(),
{
    if args.len() == 0 {
        seq![]
    } else {
        launch_findings(args.drop_last()).push(launch_finding(args.last()))
    }
}

pub open spec fn open_action_part(t: Seq<u8>) -> Seq<(Seq<char>, u8)> {
    if has_open_action(t) {
        one("Executable OpenAction (JS or Launch) detected"@, 7)
    } else {
        seq![]
    }
}

pub open spec fn embedded_part(t: Seq<u8>) -> Seq<(Seq<char>, u8)> {
    if has_sub(t, "/embeddedfile".spec_bytes()) || has_sub(t, "/filespec".spec_bytes()) {
        one("Embedded file object found"@, 5)
    } else {
        seq![]
    }
}

/// The number of ` obj` tokens.
pub open spec fn object_count(t: Seq<u8>) -> nat {
    occurrences_from(t, " obj".spec_bytes(), 0)
}

pub open spec fn object_count_part(t: Seq<u8>) -> Seq<(Seq<char>, u8)> {
    if object_count(t) > OBJECT_COUNT_LIMIT {
        one("High object count: "@ + ascii_chars(decimal(object_count(t))), 3)
    } else {
        seq![]
    }
}

/// A reference out of the document: `http://`, `file://` or two backslashes.
pub open spec fn has_external_ref(t: Seq<u8>) -> bool {
    has_sub(t, "http://".spec_bytes()) || has_sub(t, "file://".spec_bytes()) || has_sub(
        t,
        "\\\\".spec_bytes(),
    )
}

pub open spec fn xfa_part(t: Seq<u8>) -> Seq<(Seq<char>, u8)> {
    if has_sub(t, "/xfa".spec_bytes()) {
        one("XFA form structure detected"@, 2) + if has_external_ref(t) {
            one("External reference in XFA (possible XSLT injection)"@, 6)
        } else {
            seq![]
        }
    } else {
        seq![]
    }
}

/// The EICAR antivirus test string.
pub open spec fn eicar_signature() -> Seq<u8> {
    "X5O!P%@AP[4\\PZX54(P^)7CC)7}$EICAR-STANDARD-ANTIVIRUS-TEST-FILE!$H+H*".spec_bytes()
}

pub open spec fn eicar_part(d: Seq<u8>) -> Seq<(Seq<char>, u8)> {
    if has_sub(d, eicar_signature()) {
        one("EICAR test signature detected"@, 10)
    } else {
        seq![]
    }
}

/// `high_entropy` is the entropy shown to two decimals where it reached the
/// suspicious level, and `None` otherwise.
pub open spec fn entropy_part(high_entropy: Option<Seq<char>>) -> Seq<(Seq<char>, u8)> {
    match high_entropy {
        Some(v) => one("High entropy detected: "@ + v, 4),
        None => seq![],
    }
}

pub open spec fn unc_part(t: Seq<u8>) -> Seq<(Seq<char>, u8)> {
    if has_unc_path(t) {
        one("UNC path reference detected (network callback possible)"@, 4)
    } else {
        seq![]
    }
}

/// A URI that points at the local machine or names a tool, script or executable.
pub open spec fn is_suspicious_uri(u: Seq<u8>) -> bool {
    ||| occurs_at(u, 0, "file://".spec_bytes())
    ||| occurs_at(u, 0, "http://localhost".spec_bytes())
    ||| occurs_at(u, 0, "http://127.".spec_bytes())
    ||| has_sub(u, "mimikatz".spec_bytes())
    ||| has_sub(u, "cobaltstrike".spec_bytes())
    ||| has_sub(u, "powershell".spec_bytes())
    ||| has_sub(u, "dropper".spec_bytes())
    ||| has_sub(u, "cmd.exe".spec_bytes())
    ||| has_sub(u, "payload".spec_bytes())
    ||| has_sub(u, "rat".spec_bytes())
    ||| has_sub(u, ".ps1".spec_bytes())
    ||| has_sub(u, ".vbs".spec_bytes())
    ||| has_sub(u, ".bat".spec_bytes())
    ||| has_sub(u, ".scr".spec_bytes())
    ||| has_sub(u, ".exe".spec_bytes())
}

pub open spec fn uri_finding(u: Seq<u8>) -> (Seq<char>, u8) {
    ("Suspicious URI action: "@ + ascii_chars(u), 6)
}

/// One finding per suspicious URI, in order.
pub open spec fn uri_findings(args: Seq<Seq<u8>>) -> Seq<(Seq<char>, u8)>
    decreases args.len(),
{
    if args.len() == 0 {
        seq![]
    } else if is_suspicious_uri(args.last()) {
        uri_findings(args.drop_last()).push(uri_finding(args.last()))
    } else {
        uri_findings(args.drop_last())
    }
}

/// Every finding on a PDF, in the order in which the checks run.
pub open spec fn pdf_findings(d: Seq<u8>, high_entropy: Option<Seq<char>>) -> Seq<
    (Seq<char>, u8),
> {
    let t = text_view(d);
    js_part(t) + launch_findings(action_args(t, ArgAction::Launch)) + open_action_part(t)
        + embedded_part(t) + object_count_part(t) + xfa_part(t) + eicar_part(d) + entropy_part(
        high_entropy,
    ) + unc_part(t) + uri_findings(action_args(t, ArgAction::Uri))
}

/// The closing line of a suspicious verdict.
pub open spec fn summary_line(score: nat) -> Seq<char> {
    "Risk score = "@ + ascii_chars(decimal(score)) + " (threshold = "@ + ascii_chars(
        decimal(RISK_THRESHOLD as nat),
    ) + ")"@
}

/// The findings shown for a PDF: `None` when it is clean, else every
/// description followed by the summary line.
pub open spec fn pdf_verdict(d: Seq<u8>, high_entropy: Option<Seq<char>>) -> Option<
    Seq<Seq<char>>,
> {
    let fs = pdf_findings(d, high_entropy);
    let s = score_of(fs);
    if s >= RISK_THRESHOLD {
        Some(fs.map_values(|f: (Seq<char>, u8)| f.0).push(summary_line(s)))
    } else {
        None
    }
}

/// The text of an optional string.
pub open spec fn opt_view(o: Option<String>) -> Option<Seq<char>> {
    match o {
        Some(v) => Some(v@),
        None => None,
    }
}

pub open spec fn strings_view(v: Seq<String>) -> Seq<Seq<char>> {
    v.map_values(|s: String| s@)
}

impl PdfThreatLevel {
    pub open spec fn findings_view(self) -> Option<Seq<Seq<char>>> {
        match self {
            PdfThreatLevel::Clean => None,
            PdfThreatLevel::Suspicious(v) => Some(strings_view(v@)),
        }
    }
}

impl AnalysisResult {
    pub open spec fn findings_view(self) -> Option<Seq<Seq<char>>> {
        match self {
            AnalysisResult::Clean => None,
            AnalysisResult::Suspicious(v) => Some(strings_view(v@)),
        }
    }
}

fn push_finding(out: &mut Vec<Finding>, text: String, weight: u8)
    ensures
        views(final(out)@) == views(old(out)@).push((text@, weight)),
{
    let ghost t = text@;
    out.push(Finding { text, weight });
    assert(views(final(out)@) =~= views(old(out)@).push((t, weight)));
}

/// Adds the finding of a check whose trigger is `hit`.
fn push_if(out: &mut Vec<Finding>, hit: bool, text: &str, weight: u8)
    ensures
        views(final(out)@) == views(old(out)@) + if hit {
            one(text@, weight)
        } else {
            seq![]
        },
{
    if hit {
        push_finding(out, String::from_str(text), weight);
        assert(views(final(out)@) =~= views(old(out)@) + one(text@, weight));
    } else {
        assert(views(final(out)@) =~= views(old(out)@) + seq![]);
    }
}

/// Every byte of the text view is ASCII.
pub proof fn lemma_text_ascii(d: Seq<u8>)
    ensures
        all_ascii(text_view(d)),
{
    assert forall|i: int| 0 <= i < text_view(d).len() implies text_view(d)[i] < 128 by {
        assert(text_view(d)[i] == text_byte(d[i]));
    }
}

/// The arguments found in ASCII text are ASCII.
pub proof fn lemma_args_ascii(t: Seq<u8>, i: int, a: ArgAction)
    requires
        all_ascii(t),
    ensures
        forall|k: int| 0 <= k < args_from(t, i, a).len() ==> all_ascii(#[trigger] args_from(t, i, a)[k]),
    decreases t.len() - i,
{
    if 0 <= i < t.len() {
        match arg_at(t, i, a) {
            Some((e, arg)) => {
                if i < e {
                    lemma_args_ascii(t, e, a);
                    let st = arg_start(t, i, a)->0;
                    assert(arg == t.subrange(st, first_from(t, st, 0x29)));
                    assert forall|j: int| 0 <= j < arg.len() implies arg[j] < 128 by {
                        assert(arg[j] == t[st + j]);
                    }
                    let all = seq![arg].add(args_from(t, e, a));
                    assert(args_from(t, i, a) == all);
                    assert forall|k: int| 0 <= k < all.len() implies all_ascii(#[trigger] all[k]) by {
                        if k > 0 {
                            assert(all[k] == args_from(t, e, a)[k - 1]);
                        } else {
                            assert(all[k] == arg);
                        }
                    }
                }
            },
            None => {
                lemma_args_ascii(t, i + 1, a);
                assert(args_from(t, i, a) == args_from(t, i + 1, a));
            },
        }
    }
}

fn check_launch(t: &[u8], out: &mut Vec<Finding>)
    requires
        all_ascii(t@),
    ensures
        views(final(out)@) == views(old(out)@) + launch_findings(action_args(t@, ArgAction::Launch)),
{
    let args = find_action_args(t, ArgAction::Launch);
    let ghost av = args@.map_values(|v: Vec<u8>| v@);
    proof {
        lemma_args_ascii(t@, 0, ArgAction::Launch);
    }
    let mut i: usize = 0;
    while i < args.len()
        invariant
            i <= args.len(),
            av == args@.map_values(|v: Vec<u8>| v@),
            av == action_args(t@, ArgAction::Launch),
            forall|k: int| 0 <= k < av.len() ==> all_ascii(#[trigger] av[k]),
            views(out@) == views(old(out)@) + launch_findings(av.subrange(0, i as int)),
        decreases args.len() - i,
    {
        let a = args[i].as_slice();
        assert(a@ == av[i as int]);
        let exe = find_in(a, ".exe".as_bytes()) || find_in(a, "cmd.exe".as_bytes());
        let mut text = String::from_str("Launch action to '");
        let target = ascii_string(crate::patterns::slice_copy(a, 0, a.len()));
        assert(a@.subrange(0, a.len() as int) =~= a@);
        text.append(target.as_str());
        text.append("'");
        let w: u8 = if exe { 10 } else { 5 };
        push_finding(out, text, w);
        proof {
            let s = av.subrange(0, i + 1);
            assert(s.drop_last() =~= av.subrange(0, i as int));
            assert(s.last() == av[i as int]);
            assert(launch_finding(av[i as int]) == (text@, w));
            assert(views(out@) =~= views(old(out)@) + launch_findings(s));
        }
        i = i + 1;
    }
    assert(av.subrange(0, i as int) =~= av);
}

/// Tells whether a URI is suspicious.
pub fn suspicious_uri(u: &[u8]) -> (r: bool)
    ensures
        r == is_suspicious_uri(u@),
{
    matches_at(u, 0, "file://".as_bytes()) || matches_at(u, 0, "http://localhost".as_bytes())
        || matches_at(u, 0, "http://127.".as_bytes()) || find_in(u, "mimikatz".as_bytes())
        || find_in(u, "cobaltstrike".as_bytes()) || find_in(u, "powershell".as_bytes())
        || find_in(u, "dropper".as_bytes()) || find_in(u, "cmd.exe".as_bytes()) || find_in(
        u,
        "payload".as_bytes(),
    ) || find_in(u, "rat".as_bytes()) || find_in(u, ".ps1".as_bytes()) || find_in(
        u,
        ".vbs".as_bytes(),
    ) || find_in(u, ".bat".as_bytes()) || find_in(u, ".scr".as_bytes()) || find_in(
        u,
        ".exe".as_bytes(),
    )
}

fn check_uris(t: &[u8], out: &mut Vec<Finding>)
    requires
        all_ascii(t@),
    ensures
        views(final(out)@) == views(old(out)@) + uri_findings(action_args(t@, ArgAction::Uri)),
{
    let args = find_action_args(t, ArgAction::Uri);
    let ghost av = args@.map_values(|v: Vec<u8>| v@);
    proof {
        lemma_args_ascii(t@, 0, ArgAction::Uri);
    }
    let mut i: usize = 0;
    while i < args.len()
        invariant
            i <= args.len(),
            av == args@.map_values(|v: Vec<u8>| v@),
            av == action_args(t@, ArgAction::Uri),
            forall|k: int| 0 <= k < av.len() ==> all_ascii(#[trigger] av[k]),
            views(out@) == views(old(out)@) + uri_findings(av.subrange(0, i as int)),
        decreases args.len() - i,
    {
        let a = args[i].as_slice();
        assert(a@ == av[i as int]);
        let ghost s = av.subrange(0, i + 1);
        assert(s.drop_last() =~= av.subrange(0, i as int));
        assert(s.last() == av[i as int]);
        if suspicious_uri(a) {
            let mut text = String::from_str("Suspicious URI action: ");
            let uri = ascii_string(crate::patterns::slice_copy(a, 0, a.len()));
            assert(a@.subrange(0, a.len() as int) =~= a@);
            text.append(uri.as_str());
            push_finding(out, text, 6);
            assert(uri_finding(av[i as int]) == (text@, 6u8));
            assert(views(out@) =~= views(old(out)@) + uri_findings(s));
        }
        i = i + 1;
    }
    assert(av.subrange(0, i as int) =~= av);
}

/// The length of the object token.
proof fn lemma_obj_token_len()
    ensures
        " obj".spec_bytes().len() == 4,
{
    broadcast use vstd::string::is_ascii_spec_bytes;

    reveal_strlit(" obj");
    assert(vstd::string::is_ascii(" obj"));
}

fn check_object_count(t: &[u8], out: &mut Vec<Finding>)
    ensures
        views(final(out)@) == views(old(out)@) + object_count_part(t@),
{
    proof {
        lemma_obj_token_len();
    }
    let c = count_occurrences(t, " obj".as_bytes());
    if c > OBJECT_COUNT_LIMIT {
        let mut text = String::from_str("High object count: ");
        let n = decimal_string(c as u128);
        text.append(n.as_str());
        push_finding(out, text, 3);
        assert(views(final(out)@) =~= views(old(out)@) + object_count_part(t@));
    } else {
        assert(views(final(out)@) =~= views(old(out)@) + object_count_part(t@));
    }
}

fn check_xfa(t: &[u8], out: &mut Vec<Finding>)
    ensures
        views(final(out)@) == views(old(out)@) + xfa_part(t@),
{
    if find_in(t, "/xfa".as_bytes()) {
        push_if(out, true, "XFA form structure detected", 2);
        let ext = find_in(t, "http://".as_bytes()) || find_in(t, "file://".as_bytes()) || find_in(
            t,
            "\\\\".as_bytes(),
        );
        push_if(out, ext, "External reference in XFA (possible XSLT injection)", 6);
        assert(views(final(out)@) =~= views(old(out)@) + xfa_part(t@));
    } else {
        assert(views(final(out)@) =~= views(old(out)@) + xfa_part(t@));
    }
}

fn check_entropy(high_entropy: &Option<String>, out: &mut Vec<Finding>)
    ensures
        views(final(out)@) == views(old(out)@) + entropy_part(opt_view(*high_entropy)),
{
    match high_entropy {
        Some(v) => {
            let mut text = String::from_str("High entropy detected: ");
            text.append(v.as_str());
            push_finding(out, text, 4);
            assert(views(final(out)@) =~= views(old(out)@) + one("High entropy detected: "@ + v@, 4));
        },
        None => {
            assert(views(final(out)@) =~= views(old(out)@) + seq![]);
        },
    }
}

/// Adds up the weights.
fn total_score(fs: &Vec<Finding>) -> (r: u128)
    ensures
        r == score_of(views(fs@)),
{
    let ghost v = views(fs@);
    let mut sum: u128 = 0;
    let mut i: usize = 0;
    while i < fs.len()
        invariant
            i <= fs.len(),
            v == views(fs@),
            sum == score_of(v.subrange(0, i as int)),
            sum <= 255 * i,
        decreases fs.len() - i,
    {
        let ghost s = v.subrange(0, i + 1);
        assert(s.drop_last() =~= v.subrange(0, i as int));
        sum = sum + fs[i].weight as u128;
        i = i + 1;
    }
    assert(v.subrange(0, i as int) =~= v);
    sum
}

/// Renders the summary line.
fn summary(score: u128) -> (r: String)
    ensures
        r@ == summary_line(score as nat),
{
    let mut text = String::from_str("Risk score = ");
    let s = decimal_string(score);
    text.append(s.as_str());
    text.append(" (threshold = ");
    let k = decimal_string(RISK_THRESHOLD);
    text.append(k.as_str());
    text.append(")");
    text
}

/// The descriptions of the findings.
fn descriptions(fs: &Vec<Finding>) -> (r: Vec<String>)
    ensures
        strings_view(r@) == views(fs@).map_values(|f: (Seq<char>, u8)| f.0),
{
    let mut r: Vec<String> = Vec::new();
    let mut i: usize = 0;
    while i < fs.len()
        invariant
            i <= fs.len(),
            strings_view(r@) == views(fs@).subrange(0, i as int).map_values(
                |f: (Seq<char>, u8)| f.0,
            ),
        decreases fs.len() - i,
    {
        let s = fs[i].text.clone();
        let ghost prev = r@;
        r.push(s);
        assert(strings_view(r@) =~= strings_view(prev).push(fs@[i as int].text@));
        assert(views(fs@).subrange(0, i + 1).map_values(|f: (Seq<char>, u8)| f.0) =~= views(
            fs@,
        ).subrange(0, i as int).map_values(|f: (Seq<char>, u8)| f.0).push(fs@[i as int].text@));
        i = i + 1;
    }
    assert(views(fs@).subrange(0, i as int) =~= views(fs@));
    r
}

/// Runs every check on a PDF and weighs what they found. `high_entropy` is
/// the entropy of the buffer shown to two decimals where it reached the
/// suspicious level, and `None` otherwise.
pub fn analyze_pdf(data: &[u8], high_entropy: Option<String>) -> (r: PdfThreatLevel)
    ensures
        r.findings_view() == pdf_verdict(
            data@,
            opt_view(high_entropy),
        ),
{
    let ghost e = opt_view(high_entropy);
    let text = normalize(data);
    let t = text.as_slice();
    proof {
        lemma_text_ascii(data@);
    }
    let mut out: Vec<Finding> = Vec::new();
    push_if(&mut out, find_js_action(t), "Embedded JavaScript action detected", 8);
    check_launch(t, &mut out);
    push_if(&mut out, find_open_action(t), "Executable OpenAction (JS or Launch) detected", 7);
    let embedded = find_in(t, "/embeddedfile".as_bytes()) || find_in(t, "/filespec".as_bytes());
    push_if(&mut out, embedded, "Embedded file object found", 5);
    check_object_count(t, &mut out);
    check_xfa(t, &mut out);
    let eicar = find_in(
        data,
        "X5O!P%@AP[4\\PZX54(P^)7CC)7}$EICAR-STANDARD-ANTIVIRUS-TEST-FILE!$H+H*".as_bytes(),
    );
    push_if(&mut out, eicar, "EICAR test signature detected", 10);
    check_entropy(&high_entropy, &mut out);
    push_if(&mut out, find_unc_path(t), "UNC path reference detected (network callback possible)", 4);
    check_uris(t, &mut out);
    assert(views(out@) =~= pdf_findings(data@, e));
    let score = total_score(&out);
    if score >= RISK_THRESHOLD {
        let mut lines = descriptions(&out);
        let last = summary(score);
        let ghost before = lines@;
        lines.push(last);
        assert(strings_view(lines@) =~= strings_view(before).push(last@));
        PdfThreatLevel::Suspicious(lines)
    } else {
        PdfThreatLevel::Clean
    }
}

/// Classifies a buffer and, for a PDF, runs the checks; every other format is
/// clean. `high_entropy` is read as `analyze_pdf` reads it.
pub fn analyze_data(data: &[u8], high_entropy: Option<String>) -> (r: (FileType, AnalysisResult))
    ensures
        r.0 == file_type_of(data@),
        r.0 == FileType::Pdf ==> r.1.findings_view() == pdf_verdict(
            data@,
            opt_view(high_entropy),
        ),
        r.0 != FileType::Pdf ==> r.1 is Clean,
{
    let file_type = detect_file_type(data);
    let result = match file_type {
        FileType::Pdf => match analyze_pdf(data, high_entropy) {
            PdfThreatLevel::Clean => AnalysisResult::Clean,
            PdfThreatLevel::Suspicious(findings) => AnalysisResult::Suspicious(findings),
        },
        _ => AnalysisResult::Clean,
    };
    (file_type, result)
}

/// How many bytes of `d` equal `v`.
pub open spec fn count_byte(d: Seq<u8>, v: u8) -> nat
    decreases d.len(),
{
    if d.len() == 0 {
        0
    } else {
        count_byte(d.drop_last(), v) + if d.last() == v {
            1nat
        } else {
            0nat
        }
    }
}

/// The byte-value histogram of a buffer, from which its entropy is computed:
/// entry `v` counts the bytes equal to `v`.
pub fn byte_histogram(data: &[u8]) -> (r: Vec<usize>)
    ensures
        r.len() == 256,
        forall|v: u8| #[trigger] r@[v as int] == count_byte(data@, v),
{
    let mut hist: Vec<usize> = Vec::new();
    let mut k: usize = 0;
    while k < 256
        invariant
            k <= 256,
            hist.len() == k,
            forall|j: int| 0 <= j < k ==> hist@[j] == 0,
        decreases 256 - k,
    {
        hist.push(0);
        k = k + 1;
    }
    let mut i: usize = 0;
    while i < data.len()
        invariant
            i <= data.len(),
            hist.len() == 256,
            forall|v: u8| #[trigger] hist@[v as int] == count_byte(data@.subrange(0, i as int), v),
            forall|j: int| 0 <= j < 256 ==> hist@[j] <= i,
        decreases data.len() - i,
    {
        let b = data[i];
        let ghost pre = data@.subrange(0, i as int);
        let ghost post = data@.subrange(0, i + 1);
        assert(post.drop_last() =~= pre);
        assert(hist@[b as int] == count_byte(pre, b));
        let c = hist[b as usize];
        hist.set(b as usize, c + 1);
        i = i + 1;
        assert forall|v: u8| #[trigger] hist@[v as int] == count_byte(post, v) by {
            assert(post.last() == b);
        }
    }
    assert(data@.subrange(0, i as int) =~= data@);
    hist
}

/// A buffer of one repeated byte value fills a single histogram entry, so its
/// entropy is zero.
pub proof fn law_repeated_byte_one_entry(d: Seq<u8>, b: u8)
    requires
        forall|i: int| 0 <= i < d.len() ==> d[i] == b,
    ensures
        count_byte(d, b) == d.len(),
        forall|v: u8| v != b ==> #[trigger] count_byte(d, v) == 0,
    decreases d.len(),
{
    if d.len() > 0 {
        let p = d.drop_last();
        assert forall|i: int| 0 <= i < p.len() implies p[i] == b by {
            assert(p[i] == d[i]);
        }
        law_repeated_byte_one_entry(p, b);
        assert(d.last() == b);
        assert forall|v: u8| v != b implies #[trigger] count_byte(d, v) == 0 by {
            assert(count_byte(d, v) == count_byte(p, v));
        }
    }
}

/// The score of two lists of findings together is the sum of their scores.
pub proof fn law_score_additive(a: Seq<(Seq<char>, u8)>, b: Seq<(Seq<char>, u8)>)
    ensures
        score_of(a + b) == score_of(a) + score_of(b),
    decreases b.len(),
{
    if b.len() == 0 {
        assert(a + b =~= a);
    } else {
        law_score_additive(a, b.drop_last());
        assert((a + b).drop_last() =~= a + b.drop_last());
    }
}

/// A verdict is suspicious exactly when the score of the findings reaches the
/// threshold, and then it ends with the summary line of that score.
pub proof fn law_verdict_follows_threshold(d: Seq<u8>, e: Option<Seq<char>>)
    ensures
        pdf_verdict(d, e) is Some <==> score_of(pdf_findings(d, e)) >= RISK_THRESHOLD,
        pdf_verdict(d, e) is Some ==> pdf_verdict(d, e)->0.last() == summary_line(
            score_of(pdf_findings(d, e)),
        ),
{
}

/// A PDF that holds the EICAR test string is suspicious on that alone, and its
/// findings name the signature.
pub proof fn law_eicar_alone_suspicious(d: Seq<u8>, e: Option<Seq<char>>)
    requires
        has_sub(d, eicar_signature()),
    ensures
        pdf_verdict(d, e) is Some,
        pdf_verdict(d, e)->0.contains("EICAR test signature detected"@),
{
    let t = text_view(d);
    let x = js_part(t) + launch_findings(action_args(t, ArgAction::Launch)) + open_action_part(t)
        + embedded_part(t) + object_count_part(t) + xfa_part(t);
    let ev = eicar_part(d);
    let rest1 = entropy_part(e);
    let rest2 = unc_part(t);
    let rest3 = uri_findings(action_args(t, ArgAction::Uri));
    let fs = pdf_findings(d, e);
    assert(fs == x + ev + rest1 + rest2 + rest3);
    law_score_additive(x, ev);
    law_score_additive(x + ev, rest1);
    law_score_additive(x + ev + rest1, rest2);
    law_score_additive(x + ev + rest1 + rest2, rest3);
    assert(ev == one("EICAR test signature detected"@, 10));
    assert(score_of(ev) == 10) by {
        let empty: Seq<(Seq<char>, u8)> = seq![];
        assert(ev.drop_last() =~= empty);
        assert(score_of(empty) == 0);
        assert(ev.last().1 == 10);
        assert(score_of(ev) == score_of(ev.drop_last()) + ev.last().1 as nat);
    }
    assert(score_of(fs) >= 10);
    let lines = fs.map_values(|f: (Seq<char>, u8)| f.0).push(summary_line(score_of(fs)));
    assert(fs[x.len() as int] == ev[0]);
    assert(lines[x.len() as int] == "EICAR test signature detected"@);
}

} // verus!
