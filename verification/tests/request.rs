use flate2::read::GzDecoder;
use smellytype::config::DoubaoConfig;
use smellytype::request::{init_payload, push_json_escaped, vocabulary};
use smellytype::session::DoubaoSession;
use std::io::Read;

fn hotwords_of(payload: &str) -> Option<Vec<String>> {
    let value: serde_json::Value = serde_json::from_str(payload).unwrap();
    let context = value["request"]["corpus"]["context"].as_str()?;
    let inner: serde_json::Value = serde_json::from_str(context).unwrap();
    Some(
        inner["hotwords"]
            .as_array()
            .unwrap()
            .iter()
            .map(|h| h["word"].as_str().unwrap().to_string())
            .collect(),
    )
}

#[test]
fn vocabulary_lines_are_trimmed_and_blank_lines_skipped() {
    assert_eq!(
        vocabulary("  北京 \n\n\tSmellyType\r\n   \nOmarchy"),
        vec!["北京", "SmellyType", "Omarchy"]
    );
    assert!(vocabulary("").is_empty());
    assert!(vocabulary("\n \n").is_empty());
}

#[test]
fn vocabulary_keeps_the_limits() {
    let many: Vec<String> = (0..60).map(|i| format!("w{i}")).collect();
    let kept = vocabulary(&many.join("\n"));
    assert_eq!(kept.len(), 50);
    assert_eq!(kept[49], "w49");
    let long = "x".repeat(65);
    assert_eq!(vocabulary(&format!("a\n{long}\nb")), vec!["a", "b"]);
    assert_eq!(vocabulary(&"y".repeat(64)), vec!["y".repeat(64)]);
    // Names of 64 two-byte characters take 128 bytes: 32 of them reach
    // 4096 bytes, and the list stops at the next name, whatever follows.
    let mut lines: Vec<String> = (0..34).map(|_| "é".repeat(64)).collect();
    lines.push("z".to_string());
    let kept = vocabulary(&lines.join("\n"));
    assert_eq!(kept.len(), 32);
    assert_eq!(kept.iter().map(|w| w.len()).sum::<usize>(), 4096);
}

#[test]
fn request_carries_vocabulary_and_smoothing() {
    let plain = init_payload(&DoubaoConfig::default());
    let value: serde_json::Value = serde_json::from_str(&plain).unwrap();
    assert!(value["request"].get("corpus").is_none());
    assert!(value["request"].get("enable_ddc").is_none());
    assert_eq!(value["audio"]["rate"], 16000);
    assert_eq!(value["request"]["result_type"], "full");
    let config = DoubaoConfig {
        hotwords: "火山引擎\nSay \"hi\"\\ok\n\u{1}tab\there".into(),
        enable_ddc: true,
        ..Default::default()
    };
    let payload = init_payload(&config);
    let value: serde_json::Value = serde_json::from_str(&payload).unwrap();
    assert_eq!(value["request"]["enable_ddc"], true);
    assert_eq!(
        hotwords_of(&payload).unwrap(),
        vec!["火山引擎", "Say \"hi\"\\ok", "\u{1}tab\there"]
    );
    assert!(!payload.contains('\n'));
    let only_smoothing = init_payload(&DoubaoConfig {
        enable_ddc: true,
        ..Default::default()
    });
    assert!(hotwords_of(&only_smoothing).is_none());
}

#[test]
fn session_opens_with_the_configured_request() {
    let config = DoubaoConfig {
        hotwords: "北京".into(),
        ..Default::default()
    };
    let (_, frame) = DoubaoSession::start(&config).unwrap();
    let mut json = Vec::new();
    GzDecoder::new(&frame[12..]).read_to_end(&mut json).unwrap();
    assert_eq!(json, init_payload(&config).into_bytes());
    assert_eq!(hotwords_of(&String::from_utf8(json).unwrap()).unwrap(), vec!["北京"]);
}

#[test]
fn json_escaping_matches_serde_json() {
    for s in ["plain", "q\"b\\", "\u{0}\u{8}\u{c}\n\r\t\u{1f}", "中文 é"] {
        let mut out = String::from("\"");
        push_json_escaped(&mut out, s);
        out.push('"');
        assert_eq!(out, serde_json::to_string(s).unwrap());
    }
}
