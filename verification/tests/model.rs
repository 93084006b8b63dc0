use secrets_manager::format::{parse_record_line, record_to_line, LineFault};
use secrets_manager::timestamp::Timestamp;
use secrets_manager::Secrets;

fn ts(secs: i64) -> Timestamp {
    Timestamp::from_unix(secs, 0).unwrap()
}

fn lines(v: &[&str]) -> Vec<String> {
    v.iter().map(|s| s.to_string()).collect()
}

#[test]
fn plain_line_format() {
    let line = record_to_line("db_password", "s3cr3t", &ts(1771928130));
    assert_eq!(line, "db_password:s3cr3t:2026-02-24T10:15:30Z");
}

#[test]
fn base64_line_format_when_a_colon_occurs() {
    let line = record_to_line("injected:key", "value:withtest", &ts(1771928400));
    assert_eq!(line, "b64:aW5qZWN0ZWQ6a2V5:dmFsdWU6d2l0aHRlc3Q=:2026-02-24T10:20:00Z");
    let line = record_to_line("plain", "has:colon", &ts(0));
    assert_eq!(line, "b64:cGxhaW4=:aGFzOmNvbG9u:1970-01-01T00:00:00Z");
}

#[test]
fn reading_the_documented_lines() {
    let s = Secrets::from_lines(lines(&[
        "db_password:s3cr3t:2026-02-24T10:15:30Z",
        "api_key:abc123:2026-02-24T10:20:00Z",
        "b64:aW5qZWN0ZWQ6a2V5:dmFsdWU6d2l0aHRlc3Q=:2026-02-24T10:20:00Z",
    ]))
    .unwrap();
    assert_eq!(s.len(), 3);
    let e = s.get("db_password").unwrap();
    assert_eq!(e.value, "s3cr3t");
    assert_eq!(e.timestamp.timestamp(), 1771928130);
    assert_eq!(s.get("injected:key").unwrap().value, "value:withtest");
    assert_eq!(s.get("api_key").unwrap().timestamp.timestamp(), 1771928400);
}

#[test]
fn lines_come_out_in_key_order() {
    let mut s = Secrets::new();
    s.insert("b".to_string(), "2".to_string(), ts(0));
    s.insert("a".to_string(), "1".to_string(), ts(60));
    s.insert("c".to_string(), "3".to_string(), ts(3600));
    assert_eq!(
        s.to_lines(),
        vec!["a:1:1970-01-01T00:01:00Z", "b:2:1970-01-01T00:00:00Z", "c:3:1970-01-01T01:00:00Z"]
    );
    assert_eq!(
        s.to_plaintext(),
        "a:1:1970-01-01T00:01:00Z\nb:2:1970-01-01T00:00:00Z\nc:3:1970-01-01T01:00:00Z"
    );
}

#[test]
fn blank_lines_are_skipped_and_later_lines_win() {
    let s = Secrets::from_lines(lines(&["", "   ", "k:old:1970-01-01T00:00:00Z", "  k:new:1970-01-01T00:00:10Z  "])).unwrap();
    assert_eq!(s.len(), 1);
    assert_eq!(s.get("k").unwrap().value, "new");
    assert_eq!(s.get("k").unwrap().timestamp.timestamp(), 10);
}

#[test]
fn faults_in_lines() {
    let fault = |l: &str| Secrets::from_lines(lines(&[l])).err().unwrap();
    let e = fault("lonely");
    assert_eq!(e.fault, LineFault::MissingValue);
    assert_eq!(e.line, "lonely");
    assert_eq!(fault("k:v").fault, LineFault::MissingTimestamp);
    assert_eq!(fault(" k:v:yesterday ").fault, LineFault::InvalidTimestamp);
    assert_eq!(fault(" k:v:yesterday ").line, "k:v:yesterday");
    assert_eq!(fault("b64:a2V5").fault, LineFault::MissingValue);
    assert_eq!(fault("b64:a2V5:dg==").fault, LineFault::MissingTimestamp);
    assert_eq!(fault("b64:!!:dg==:1970-01-01T00:00:00Z").fault, LineFault::InvalidBase64Key);
    assert_eq!(fault("b64:a2V5:!!:1970-01-01T00:00:00Z").fault, LineFault::InvalidBase64Value);
    assert_eq!(fault("b64:/w==:dg==:1970-01-01T00:00:00Z").fault, LineFault::KeyNotUtf8);
    assert_eq!(fault("b64:a2V5:/w==:1970-01-01T00:00:00Z").fault, LineFault::ValueNotUtf8);
    assert_eq!(fault("b64:a2V5:dg==:never").fault, LineFault::InvalidTimestamp);
}

#[test]
fn the_first_bad_line_stops_reading() {
    let e = Secrets::from_lines(lines(&["a:1:1970-01-01T00:00:00Z", "bad", "also bad"])).err().unwrap();
    assert_eq!(e.line, "bad");
}

#[test]
fn plaintext_round_trip() {
    let mut s = Secrets::new();
    s.insert("db_password".to_string(), "s3cr3t".to_string(), Timestamp::from_unix(1771928130, 999).unwrap());
    s.insert("with:colon".to_string(), "  spaced value ".to_string(), ts(1));
    s.insert("unicode é".to_string(), "ключ".to_string(), ts(2));
    let text = s.to_plaintext();
    let back = Secrets::from_plaintext(&text).unwrap();
    assert_eq!(back.len(), 3);
    assert_eq!(back.get("db_password").unwrap().value, "s3cr3t");
    assert_eq!(back.get("db_password").unwrap().timestamp.timestamp(), 1771928130);
    assert_eq!(back.get("db_password").unwrap().timestamp.timestamp_subsec_nanos(), 0);
    assert_eq!(back.get("with:colon").unwrap().value, "  spaced value ");
    assert_eq!(back.get("unicode é").unwrap().value, "ключ");
    assert_eq!(back.to_plaintext(), text);
}

#[test]
fn crlf_text_is_read() {
    let s = Secrets::from_plaintext("a:1:1970-01-01T00:00:00Z\r\nb:2:1970-01-01T00:00:00Z\r\n").unwrap();
    assert_eq!(s.len(), 2);
    assert_eq!(s.get("b").unwrap().value, "2");
}

#[test]
fn key_b64_written_plain_does_not_read_back() {
    let mut s = Secrets::new();
    s.insert("b64".to_string(), "v".to_string(), ts(0));
    let text = s.to_plaintext();
    assert_eq!(text, "b64:v:1970-01-01T00:00:00Z");
    assert_eq!(Secrets::from_plaintext(&text).err().unwrap().fault, LineFault::InvalidBase64Key);
}

#[test]
fn upsert_sets_a_fresh_timestamp() {
    let mut s = Secrets::default();
    s.upsert("k".to_string(), "v".to_string()).unwrap();
    let e = s.get("k").unwrap();
    assert_eq!(e.value, "v");
    assert!(e.timestamp.timestamp() > 1_600_000_000);
    assert!(e.timestamp.timestamp_subsec_nanos() < 1_000_000_000);
}

#[test]
fn matching_is_case_insensitive() {
    let mut s = Secrets::new();
    s.insert("API_Key".to_string(), "1".to_string(), ts(5));
    s.insert("db".to_string(), "2".to_string(), ts(6));
    let m = s.matching(Some("api"));
    assert_eq!(m.len(), 1);
    assert_eq!(m[0].0, "API_Key");
    assert_eq!(m[0].1.timestamp(), 5);
    assert_eq!(s.matching(None).len(), 2);
    assert_eq!(s.matching(Some("")).len(), 2);
}

#[test]
fn clone_keeps_everything() {
    let mut s = Secrets::new();
    s.insert("a".to_string(), "1".to_string(), ts(0));
    let c = s.clone();
    assert_eq!(c.to_plaintext(), s.to_plaintext());
}

#[test]
fn parse_record_line_reads_fields() {
    let chars: Vec<char> = "k:v:with:1970-01-01T00:00:00Z".chars().collect();
    // the third field is everything after the second colon
    assert_eq!(parse_record_line(&chars).err(), Some(LineFault::InvalidTimestamp));
    let chars: Vec<char> = "k:v:1970-01-01T00:00:00Z".chars().collect();
    let (k, v, t) = parse_record_line(&chars).unwrap();
    assert_eq!((k.as_str(), v.as_str(), t.timestamp()), ("k", "v", 0));
}

#[test]
fn timestamps() {
    assert!(Timestamp::from_unix(0, 2_000_000_000).is_none());
    assert_eq!(ts(1771928130).to_rfc3339(), "2026-02-24T10:15:30Z");
    let t = Timestamp::parse_rfc3339("2026-02-24T12:15:30+02:00").unwrap();
    assert_eq!(t.timestamp(), 1771928130);
    assert!(Timestamp::parse_rfc3339("not a time").is_none());
    let now = Timestamp::now().unwrap();
    assert!(now.timestamp() > 1_600_000_000);
}

#[test]
fn lines_of_the_documented_secrets_in_key_order() {
    let s = Secrets::from_lines(lines(&[
        "db_password:s3cr3t:2026-02-24T10:15:30Z",
        "api_key:abc123:2026-02-24T10:20:00Z",
        "b64:aW5qZWN0ZWQ6a2V5:dmFsdWU6d2l0aHRlc3Q=:2026-02-24T10:20:00Z",
    ]))
    .unwrap();
    assert_eq!(
        s.to_lines(),
        vec![
            "api_key:abc123:2026-02-24T10:20:00Z",
            "db_password:s3cr3t:2026-02-24T10:15:30Z",
            "b64:aW5qZWN0ZWQ6a2V5:dmFsdWU6d2l0aHRlc3Q=:2026-02-24T10:20:00Z",
        ]
    );
}

#[test]
fn timestamps_are_written_in_utc_whole_seconds() {
    let s = Secrets::from_lines(lines(&["k:v:2026-02-24T12:15:30.75+02:00"])).unwrap();
    assert_eq!(s.to_lines(), vec!["k:v:2026-02-24T10:15:30Z"]);
}

#[test]
fn blank_lines_and_surrounding_space_read_the_same() {
    let a = Secrets::from_lines(lines(&["a:1:1970-01-01T00:00:00Z", "b:2:1970-01-01T00:00:00Z"])).unwrap();
    let b = Secrets::from_lines(lines(&["", "  a:1:1970-01-01T00:00:00Z\t", " ", "b:2:1970-01-01T00:00:00Z  ", ""])).unwrap();
    assert_eq!(a, b);
}

#[test]
fn the_range_of_instants() {
    assert!(Timestamp::from_unix(8_210_266_876_799, 0).is_some());
    assert!(Timestamp::from_unix(8_210_266_876_800, 0).is_none());
    assert!(Timestamp::from_unix(-8_334_601_228_800, 0).is_some());
    assert!(Timestamp::from_unix(-8_334_601_228_801, 0).is_none());
    assert!(Timestamp::from_unix(59, 1_500_000_000).is_some());
    assert!(Timestamp::from_unix(58, 1_500_000_000).is_none());
    assert!(Timestamp::from_unix(59, 2_000_000_000).is_none());
    assert!(Timestamp::from_unix(0, 999_999_999).is_some());
}

#[test]
fn clock_readings_become_instants() {
    assert!(Timestamp::from_clock(None).is_err());
    let t = Timestamp::from_clock(Some((1771928130, 5))).unwrap();
    assert_eq!(t, Timestamp::from_unix(1771928130, 5).unwrap());
    assert_eq!(t.to_rfc3339(), "2026-02-24T10:15:30Z");
    assert!(Timestamp::from_clock(Some((u64::MAX, 0))).is_err());
    assert!(Timestamp::from_clock(Some((9_223_372_036_854_775_807, 0))).is_err());
    assert!(Timestamp::from_clock(Some((8_210_266_876_800, 0))).is_err());
    assert!(Timestamp::from_clock(Some((8_210_266_876_799, 0))).is_ok());
    assert!(Timestamp::from_clock(Some((0, 1_500_000_000))).is_err());
    assert!(Timestamp::from_clock(Some((59, 1_500_000_000))).is_ok());
}
