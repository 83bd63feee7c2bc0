use neohtop::virustotal::{
    api_key_for_request, client_error_message, lookup_url, network_error_message,
    open_error_message, permalink, read_error_message, report_from_stats, response_outcome,
    sha256_hex, verdict, AnalysisStats, VTReport,
};

/// All four verdict strings must round-trip through the VTReport struct.
#[test]
fn test_vt_report_all_verdicts() {
    for verdict in &["clean", "malicious", "suspicious", "unknown"] {
        let report = VTReport {
            hash: "b".repeat(64),
            verdict: verdict.to_string(),
            malicious: 0,
            suspicious: 0,
            undetected: 0,
            total: 0,
            permalink: String::new(),
        };
        assert_eq!(&report.verdict, verdict);
    }
}

/// An empty API key must be rejected immediately, before any network call
/// is attempted.
#[test]
fn test_check_virustotal_empty_api_key_rejected() {
    let result = api_key_for_request("");
    assert!(result.is_err(), "Empty API key should be rejected");
    let err = result.unwrap_err();
    assert!(
        err.to_lowercase().contains("api key") || err.to_lowercase().contains("enter"),
        "Error should mention the API key, got: {}",
        err
    );
}

/// A whitespace-only API key must also be rejected before any network call.
#[test]
fn test_check_virustotal_whitespace_api_key_rejected() {
    let result = api_key_for_request("   ");
    assert!(result.is_err(), "Whitespace-only API key should be rejected");
}

#[test]
fn api_key_is_sent_trimmed() {
    assert!(api_key_for_request("\t\n").is_err());
    assert!(api_key_for_request("\u{a0}\u{3000}").is_err());
    assert_eq!(api_key_for_request("  abc123 \n").unwrap(), "abc123");
}

#[test]
fn verdict_precedence() {
    assert_eq!(verdict(1, 5, 70), "malicious");
    assert_eq!(verdict(0, 5, 70), "suspicious");
    assert_eq!(verdict(0, 0, 70), "clean");
    assert_eq!(verdict(0, 0, 0), "unknown");
}

#[test]
fn addresses_are_built_from_the_hash() {
    let hash = "a".repeat(64);
    assert_eq!(lookup_url(&hash), format!("https://www.virustotal.com/api/v3/files/{}", hash));
    assert_eq!(permalink(&hash), format!("https://www.virustotal.com/gui/file/{}", hash));
}

#[test]
fn status_codes_are_interpreted() {
    let hash = "c".repeat(64);
    assert!(response_outcome(&hash, 200).is_none());
    assert_eq!(
        response_outcome(&hash, 401).unwrap().err().unwrap(),
        "Invalid API key. Please check your VirusTotal API key and try again."
    );
    let unknown = response_outcome(&hash, 404).unwrap().unwrap();
    assert_eq!(unknown.verdict, "unknown");
    assert_eq!(unknown.total, 0);
    assert_eq!(unknown.hash, hash);
    assert_eq!(unknown.permalink, format!("https://www.virustotal.com/gui/file/{}", hash));
    assert!(response_outcome(&hash, 429).unwrap().err().unwrap().starts_with("Rate limit exceeded."));
    assert_eq!(
        response_outcome(&hash, 503).unwrap().err().unwrap(),
        "VirusTotal API returned unexpected status: HTTP 503"
    );
}

#[test]
fn reports_are_built_from_the_analysis() {
    let hash = "d".repeat(64);
    let stats = AnalysisStats { malicious: Some(2), suspicious: None, undetected: Some(60), harmless: Some(8) };
    assert_eq!(stats.checked_total(), Some(70));
    let report = report_from_stats(&hash, Ok(stats)).unwrap();
    assert_eq!(report.verdict, "malicious");
    assert_eq!(report.malicious, 2);
    assert_eq!(report.suspicious, 0);
    assert_eq!(report.undetected, 60);
    assert_eq!(report.total, 70);

    let clean = AnalysisStats { malicious: Some(0), suspicious: Some(0), undetected: Some(0), harmless: Some(72) };
    assert_eq!(report_from_stats(&hash, Ok(clean)).unwrap().verdict, "clean");

    assert_eq!(
        report_from_stats(&hash, Err("EOF while parsing".to_string())).err().unwrap(),
        "Failed to parse VirusTotal response: EOF while parsing"
    );

    let huge = AnalysisStats { malicious: Some(u64::MAX), suspicious: Some(1), undetected: None, harmless: None };
    assert_eq!(huge.checked_total(), None);
}

#[test]
fn digest_is_lowercase_hex_sha256() {
    assert_eq!(
        sha256_hex(b""),
        "e3b0c44298fc1c149afbf4c8996fb92427ae41e4649b934ca495991b7852b855"
    );
    assert_eq!(
        sha256_hex(b"abc"),
        "ba7816bf8f01cfea414140de5dae2223b00361a396177a9cb410ff61f20015ad"
    );
    let hash = sha256_hex(b"neohtop");
    assert_eq!(hash.len(), 64);
    assert!(hash.chars().all(|c| c.is_ascii_hexdigit() && !c.is_ascii_uppercase()));
    assert_eq!(hash, sha256_hex(b"neohtop"));
}

#[test]
fn error_messages_name_the_process() {
    assert_eq!(
        open_error_message(1234, true, "ignored"),
        "Permission denied reading process 1234 executable. You can only scan processes you own."
    );
    assert_eq!(
        open_error_message(0, false, "No such file or directory (os error 2)"),
        "Cannot read process executable (PID 0): No such file or directory (os error 2)"
    );
    assert_eq!(
        open_error_message(u32::MAX, false, "x"),
        "Cannot read process executable (PID 4294967295): x"
    );
    assert_eq!(read_error_message(77, "boom"), "Read error while hashing PID 77: boom");
    assert_eq!(client_error_message("tls"), "Failed to create HTTP client: tls");
    assert_eq!(
        network_error_message("timeout"),
        "Network error: timeout. Check your internet connection."
    );
}
