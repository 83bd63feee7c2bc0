//! VirusTotal integration: the SHA-256 fingerprint of a process executable
//! and the verdict of a VirusTotal v3 file lookup.
//!
//! Reading the executable and talking to the API are the caller's part; this
//! module hashes the bytes, builds the request addresses and messages, and
//! decides what each answer of the API means.

use vstd::prelude::*;
use sha2::Digest;
use crate::text::{
    chars_of, decimal, hex_bytes, hex_string, is_blank, push_decimal, range_is_blank,
    string_of_range, trim, trim_range,
};

verus! {

// ---------------------------------------------------------------------------
// Hashing
// ---------------------------------------------------------------------------

/// The SHA-256 digest of `data`.
pub uninterp spec fn sha256_of(data: Seq<u8>) -> Seq<u8>;

/// Calls `sha2::Sha256::digest`. Trusted to return the digest of `data`,
/// which depends on `data` alone, and to be 32 bytes long (the output size
/// of `Sha256`).
#[verifier::external_body]
fn sha256_digest(data: &[u8]) -> (r: Vec<u8>)
    ensures
        r@ == sha256_of(data@),
        r@.len() == 32,
{
    sha2::Sha256::digest(data).to_vec()
}

/// Whether `c` is a lowercase hexadecimal digit.
pub open spec fn is_lower_hex(c: char) -> bool {
    ('0' <= c && c <= '9') || ('a' <= c && c <= 'f')
}

proof fn lemma_hex_bytes(bytes: Seq<u8>)
    ensures
        hex_bytes(bytes).len() == 2 * bytes.len(),
        forall|i: int| 0 <= i < hex_bytes(bytes).len() ==> is_lower_hex(#[trigger] hex_bytes(bytes)[i]),
    decreases bytes.len(),
{
    if bytes.len() > 0 {
        lemma_hex_bytes(bytes.drop_last());
        let b = bytes.last();
        assert(b / 16 < 16 && b % 16 < 16);
        let rest = hex_bytes(bytes.drop_last());
        let whole = hex_bytes(bytes);
        assert forall|i: int| 0 <= i < whole.len() implies is_lower_hex(#[trigger] whole[i]) by {
            if i < rest.len() {
                assert(whole[i] == rest[i]);
            }
        }
    }
}

/// The SHA-256 digest of `data` as 64 lowercase hexadecimal digits, as
/// `{:x}` formats it.
pub fn sha256_hex(data: &[u8]) -> (s: String)
    ensures
        s@ == hex_bytes(sha256_of(data@)),
        s@.len() == 64,
        forall|i: int| 0 <= i < s@.len() ==> is_lower_hex(#[trigger] s@[i]),
{
    let digest = sha256_digest(data);
    proof {
        lemma_hex_bytes(digest@);
    }
    hex_string(digest.as_slice())
}

/// The message for an executable that could not be opened: the user may
/// only scan processes they own.
pub open spec fn open_error_text(pid: u32, permission_denied: bool, detail: Seq<char>) -> Seq<
    char,
> {
    if permission_denied {
        "Permission denied reading process "@ + decimal(pid as nat)
            + " executable. You can only scan processes you own."@
    } else {
        "Cannot read process executable (PID "@ + decimal(pid as nat) + "): "@ + detail
    }
}

/// The message for an executable that could not be opened; `detail` is the
/// system's description of the error.
pub fn open_error_message(pid: u32, permission_denied: bool, detail: &str) -> (r: String)
    ensures
        r@ == open_error_text(pid, permission_denied, detail@),
{
    if permission_denied {
        let mut s = String::from_str("Permission denied reading process ");
        push_decimal(&mut s, pid as u64);
        s.append(" executable. You can only scan processes you own.");
        s
    } else {
        let mut s = String::from_str("Cannot read process executable (PID ");
        push_decimal(&mut s, pid as u64);
        s.append("): ");
        s.append(detail);
        s
    }
}

/// The message for an executable that failed while being read.
pub fn read_error_message(pid: u32, detail: &str) -> (r: String)
    ensures
        r@ == "Read error while hashing PID "@ + decimal(pid as nat) + ": "@ + detail@,
{
    let mut s = String::from_str("Read error while hashing PID ");
    push_decimal(&mut s, pid as u64);
    s.append(": ");
    s.append(detail);
    s
}

// ---------------------------------------------------------------------------
// The report
// ---------------------------------------------------------------------------

/// VirusTotal scan report.
pub struct VTReport {
    /// SHA-256 hash of the executable (lowercase hex)
    pub hash: String,
    /// Overall verdict
    pub verdict: String,
    /// Number of engines that flagged as malicious
    pub malicious: u64,
    /// Number of engines that flagged as suspicious
    pub suspicious: u64,
    /// Number of engines that returned undetected
    pub undetected: u64,
    /// Total number of engines that scanned the file
    pub total: u64,
    /// Direct link to the VirusTotal report page
    pub permalink: String,
}

/// The engine counts of a file's last analysis, as far as the answer held
/// them as unsigned numbers.
pub struct AnalysisStats {
    pub malicious: Option<u64>,
    pub suspicious: Option<u64>,
    pub undetected: Option<u64>,
    pub harmless: Option<u64>,
}

/// A count, zero where the answer did not hold one.
pub open spec fn count(c: Option<u64>) -> nat {
    match c {
        Some(n) => n as nat,
        None => 0,
    }
}

/// The number of engines that scanned the file.
pub open spec fn engines_total(stats: AnalysisStats) -> nat {
    count(stats.malicious) + count(stats.suspicious) + count(stats.undetected) + count(
        stats.harmless,
    )
}

impl AnalysisStats {
    /// The number of engines that scanned the file, `None` where it does
    /// not fit in a `u64`.
    pub fn checked_total(&self) -> (r: Option<u64>)
        ensures
            match r {
                Some(t) => t == engines_total(*self),
                None => engines_total(*self) > u64::MAX,
            },
    {
        let m = self.malicious.unwrap_or(0);
        let s = self.suspicious.unwrap_or(0);
        let u = self.undetected.unwrap_or(0);
        let h = self.harmless.unwrap_or(0);
        if s > u64::MAX - m {
            return None;
        }
        if u > u64::MAX - (m + s) {
            return None;
        }
        if h > u64::MAX - (m + s + u) {
            return None;
        }
        Some(m + s + u + h)
    }
}

/// The verdict on a file: "malicious" when any engine counted it as
/// malicious, else "suspicious" when any counted it as suspicious, else
/// "clean" when at least one engine scanned it, "unknown" otherwise.
pub open spec fn verdict_text(malicious: u64, suspicious: u64, total: u64) -> Seq<char> {
    if malicious > 0 {
        "malicious"@
    } else if suspicious > 0 {
        "suspicious"@
    } else if total > 0 {
        "clean"@
    } else {
        "unknown"@
    }
}

/// The overall verdict for the engine counts.
pub fn verdict(malicious: u64, suspicious: u64, total: u64) -> (r: String)
    ensures
        r@ == verdict_text(malicious, suspicious, total),
{
    if malicious > 0 {
        String::from_str("malicious")
    } else if suspicious > 0 {
        String::from_str("suspicious")
    } else if total > 0 {
        String::from_str("clean")
    } else {
        String::from_str("unknown")
    }
}

/// The address of the API's report on the file with this hash.
pub open spec fn lookup_url_text(hash: Seq<char>) -> Seq<char> {
    "https://www.virustotal.com/api/v3/files/"@ + hash
}

/// The address of the report page for people.
pub open spec fn permalink_text(hash: Seq<char>) -> Seq<char> {
    "https://www.virustotal.com/gui/file/"@ + hash
}

/// The address of the API's report on the file with this hash.
pub fn lookup_url(hash: &str) -> (r: String)
    ensures
        r@ == lookup_url_text(hash@),
{
    let mut s = String::from_str("https://www.virustotal.com/api/v3/files/");
    s.append(hash);
    s
}

/// The address of the report page for people.
pub fn permalink(hash: &str) -> (r: String)
    ensures
        r@ == permalink_text(hash@),
{
    let mut s = String::from_str("https://www.virustotal.com/gui/file/");
    s.append(hash);
    s
}

/// Whether `report` is the report on file `hash` for these counts.
pub open spec fn is_report(
    report: VTReport,
    hash: Seq<char>,
    malicious: u64,
    suspicious: u64,
    undetected: u64,
    total: u64,
) -> bool {
    &&& report.hash@ == hash
    &&& report.verdict@ == verdict_text(malicious, suspicious, total)
    &&& report.malicious == malicious
    &&& report.suspicious == suspicious
    &&& report.undetected == undetected
    &&& report.total == total
    &&& report.permalink@ == permalink_text(hash)
}

fn make_report(hash: &str, malicious: u64, suspicious: u64, undetected: u64, total: u64) -> (r:
    VTReport)
    ensures
        is_report(r, hash@, malicious, suspicious, undetected, total),
{
    VTReport {
        hash: String::from_str(hash),
        verdict: verdict(malicious, suspicious, total),
        malicious,
        suspicious,
        undetected,
        total,
        permalink: permalink(hash),
    }
}

// ---------------------------------------------------------------------------
// The lookup
// ---------------------------------------------------------------------------

/// The message for a missing API key.
pub open spec fn missing_key_text() -> Seq<char> {
    "Please enter your VirusTotal API key."@
}

/// The API key as it is sent: an error where it is empty or nothing but
/// whitespace, the key trimmed of whitespace otherwise. This check comes
/// before any network call.
pub fn api_key_for_request(api_key: &str) -> (r: Result<String, String>)
    ensures
        is_blank(api_key@) ==> (r matches Err(e) && e@ == missing_key_text()),
        !is_blank(api_key@) ==> (r matches Ok(k) && k@ == trim(api_key@)),
{
    let v = chars_of(api_key);
    let n = v.len();
    assert(v@.subrange(0, n as int) =~= v@);
    if range_is_blank(&v, 0, n) {
        return Err(String::from_str("Please enter your VirusTotal API key."));
    }
    let (a, b) = trim_range(&v, 0, n);
    Ok(string_of_range(api_key, &v, a, b))
}

/// The message for an HTTP client that could not be built.
pub fn client_error_message(detail: &str) -> (r: String)
    ensures
        r@ == "Failed to create HTTP client: "@ + detail@,
{
    let mut s = String::from_str("Failed to create HTTP client: ");
    s.append(detail);
    s
}

/// The message for a request that did not reach VirusTotal.
pub fn network_error_message(detail: &str) -> (r: String)
    ensures
        r@ == "Network error: "@ + detail@ + ". Check your internet connection."@,
{
    let mut s = String::from_str("Network error: ");
    s.append(detail);
    s.append(". Check your internet connection.");
    s
}

/// The message for a rejected API key.
pub open spec fn invalid_key_text() -> Seq<char> {
    "Invalid API key. Please check your VirusTotal API key and try again."@
}

/// The message for an exhausted request quota.
pub open spec fn rate_limit_text() -> Seq<char> {
    "Rate limit exceeded. VirusTotal free tier allows 4 requests/minute. Please wait a moment and try again."@
}

/// The message for any other HTTP status.
pub open spec fn unexpected_status_text(status: u16) -> Seq<char> {
    "VirusTotal API returned unexpected status: HTTP "@ + decimal(status as nat)
}

/// What an HTTP status of the lookup means, before its body is read:
/// `None` for 200, whose body holds the analysis; an invalid key for 401; a
/// file VirusTotal has never seen for 404, reported as unknown with no
/// engine counts; the rate limit for 429; an unexpected status otherwise.
pub fn response_outcome(hash: &str, status: u16) -> (r: Option<Result<VTReport, String>>)
    ensures
        status == 200 ==> r is None,
        status == 401 ==> (r matches Some(Err(e)) && e@ == invalid_key_text()),
        status == 404 ==> (r matches Some(Ok(report)) && is_report(report, hash@, 0, 0, 0, 0)),
        status == 429 ==> (r matches Some(Err(e)) && e@ == rate_limit_text()),
        status != 200 && status != 401 && status != 404 && status != 429 ==> (r matches Some(
            Err(e),
        ) && e@ == unexpected_status_text(status)),
{
    match status {
        200 => None,
        401 => Some(
            Err(
                String::from_str(
                    "Invalid API key. Please check your VirusTotal API key and try again.",
                ),
            ),
        ),
        404 => Some(Ok(make_report(hash, 0, 0, 0, 0))),
        429 => Some(
            Err(
                String::from_str(
                    "Rate limit exceeded. VirusTotal free tier allows 4 requests/minute. Please wait a moment and try again.",
                ),
            ),
        ),
        _ => {
            let mut s = String::from_str("VirusTotal API returned unexpected status: HTTP ");
            push_decimal(&mut s, status as u64);
            Some(Err(s))
        },
    }
}

/// The report made from the body of a 200 answer: the engine counts of the
/// file's last analysis, a count the answer lacks taken as zero; or, where
/// the body could not be parsed, an error carrying the parser's message.
pub fn report_from_stats(hash: &str, stats: Result<AnalysisStats, String>) -> (r: Result<
    VTReport,
    String,
>)
    requires
        stats matches Ok(s) ==> engines_total(s) <= u64::MAX,
    ensures
        stats matches Err(e) ==> (r matches Err(m) && m@
            == "Failed to parse VirusTotal response: "@ + e@),
        stats matches Ok(s) ==> (r matches Ok(report) && is_report(
            report,
            hash@,
            count(s.malicious) as u64,
            count(s.suspicious) as u64,
            count(s.undetected) as u64,
            engines_total(s) as u64,
        )),
{
    match stats {
        Err(e) => {
            let mut m = String::from_str("Failed to parse VirusTotal response: ");
            m.append(e.as_str());
            Err(m)
        },
        Ok(s) => {
            let malicious = s.malicious.unwrap_or(0);
            let suspicious = s.suspicious.unwrap_or(0);
            let undetected = s.undetected.unwrap_or(0);
            let harmless = s.harmless.unwrap_or(0);
            let total = malicious + suspicious + undetected + harmless;
            Ok(make_report(hash, malicious, suspicious, undetected, total))
        },
    }
}

} // verus!

verus! {

/// The fingerprint depends on the bytes alone: hashing the same bytes twice
/// gives the same hexadecimal digits.
pub proof fn law_fingerprint_is_deterministic(a: Seq<u8>, b: Seq<u8>)
    ensures
        a == b ==> hex_bytes(sha256_of(a)) == hex_bytes(sha256_of(b)),
{
}

} // verus!

verus! {

/// The verdict follows the counts: any engine calling the file malicious
/// makes it "malicious"; otherwise any single engine calling it suspicious
/// makes it "suspicious"; "clean" is given only when no engine flagged it
/// and at least one scanned it; "unknown" only when none scanned it.
pub proof fn law_verdict_follows_counts(malicious: u64, suspicious: u64, total: u64)
    ensures
        malicious >= 1 ==> verdict_text(malicious, suspicious, total) == "malicious"@,
        malicious == 0 && suspicious >= 1 ==> verdict_text(malicious, suspicious, total)
            == "suspicious"@,
        verdict_text(malicious, suspicious, total) == "clean"@ <==> (malicious == 0 && suspicious
            == 0 && total > 0),
        verdict_text(malicious, suspicious, total) == "unknown"@ <==> (malicious == 0 && suspicious
            == 0 && total == 0),
{
    reveal_strlit("malicious");
    reveal_strlit("suspicious");
    reveal_strlit("clean");
    reveal_strlit("unknown");
    let v = verdict_text(malicious, suspicious, total);
    if v == "clean"@ {
        if malicious > 0 {
            assert(v[0] != "clean"@[0]);
        } else if suspicious > 0 {
            assert(v[0] != "clean"@[0]);
        } else if total == 0 {
            assert(v[0] != "clean"@[0]);
        }
    }
    if v == "unknown"@ {
        if malicious > 0 {
            assert(v[0] != "unknown"@[0]);
        } else if suspicious > 0 {
            assert(v[0] != "unknown"@[0]);
        } else if total > 0 {
            assert(v[0] != "unknown"@[0]);
        }
    }
}

/// A report built from the counts of an analysis carries the verdict those
/// counts call for: "suspicious" as soon as one engine flagged the file as
/// suspicious and none as malicious.
pub proof fn law_report_verdict_from_counts(stats: AnalysisStats)
    ensures
        count(stats.malicious) == 0 && count(stats.suspicious) >= 1 ==> verdict_text(
            count(stats.malicious) as u64,
            count(stats.suspicious) as u64,
            engines_total(stats) as u64,
        ) == "suspicious"@,
{
    law_verdict_follows_counts(
        count(stats.malicious) as u64,
        count(stats.suspicious) as u64,
        engines_total(stats) as u64,
    );
}

} // verus!
