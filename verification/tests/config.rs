use smellytype::config::DoubaoConfig;
use smellytype::resample::check_rates;
use smellytype::transcriber::{handshake_headers, DoubaoTranscriber, StreamingEvent, TranscriptCollector};
use smellytype::error::TranscribeError;
use smellytype::usage::Usage;

fn backend() -> DoubaoTranscriber {
    match DoubaoTranscriber::new(
        DoubaoConfig {
            api_key: Some("test-secret".into()),
            ..Default::default()
        },
        None,
    ) {
        Ok(t) => t,
        Err(e) => panic!("{:?}", e),
    }
}

fn init_message(config: DoubaoConfig, env: Option<String>) -> String {
    match DoubaoTranscriber::new(config, env) {
        Ok(_) => "accepted".to_string(),
        Err(TranscribeError::InitFailed(m)) => m,
        Err(e) => panic!("{:?}", e),
    }
}

#[test]
fn config_preserves_ptt_and_redacts_secret() {
    assert!(!backend().debug_string().contains("test-secret"));
    assert!(DoubaoTranscriber::new(
        DoubaoConfig {
            api_key: Some("\n".into()),
            ..Default::default()
        },
        None
    )
    .is_err());
}

#[test]
fn default_config_and_debug_rendering() {
    let c = DoubaoConfig::default();
    assert_eq!(c.api_key, None);
    assert_eq!(c.resource_id, "volc.seedasr.sauc.duration");
    assert_eq!(c.final_timeout_secs, 60);
    assert!(c.hotwords.is_empty());
    assert!(!c.enable_ddc);
    let mut secret = DoubaoConfig::default();
    secret.api_key = Some("sk-123".into());
    secret.hotwords = "私密\nwords".into();
    let shown = secret.debug_string();
    assert_eq!(
        shown,
        "DoubaoConfig { api_key: Some(\"[REDACTED]\"), resource_id: \"volc.seedasr.sauc.duration\", final_timeout_secs: 60, enable_ddc: false, hotwords: \"[REDACTED]\" }"
    );
    assert!(!shown.contains("sk-123") && !shown.contains("私密"));
    assert!(c.debug_string().starts_with("DoubaoConfig { api_key: None, "));
    assert_eq!(
        backend().debug_string(),
        format!("DoubaoTranscriber {{ config: {} }}", {
            let mut k = DoubaoConfig::default();
            k.api_key = Some("x".into());
            k.debug_string()
        })
    );
}

#[test]
fn validation_reports_each_problem_in_order() {
    let with_key = |key: &str| DoubaoConfig {
        api_key: Some(key.into()),
        ..Default::default()
    };
    assert_eq!(
        init_message(DoubaoConfig::default(), None),
        "Doubao requires DOUBAO_API_KEY or [doubao] api_key"
    );
    assert_eq!(
        init_message(with_key(" \t\u{3000}"), None),
        "Doubao requires DOUBAO_API_KEY or [doubao] api_key"
    );
    assert_eq!(init_message(DoubaoConfig::default(), Some("env-key".into())), "accepted");
    assert_eq!(init_message(with_key("k\u{1}y"), None), "Invalid Doubao API key header");
    assert_eq!(init_message(with_key("k\u{7f}y"), None), "Invalid Doubao API key header");
    assert_eq!(init_message(with_key("ключ\tkey"), None), "accepted");
    let mut bad_resource = with_key("k");
    bad_resource.resource_id = "volc.bigasr.sauc.duration".into();
    assert_eq!(
        init_message(bad_resource, None),
        "Doubao resource_id must be volc.seedasr.sauc.duration or volc.seedasr.sauc.concurrent (ASR 2.0)"
    );
    let mut concurrent = with_key("k");
    concurrent.resource_id = "volc.seedasr.sauc.concurrent".into();
    assert_eq!(init_message(concurrent, None), "accepted");
    for (secs, ok) in [(0u64, false), (1, true), (300, true), (301, false)] {
        let mut c = with_key("k");
        c.final_timeout_secs = secs;
        let m = init_message(c, None);
        if ok {
            assert_eq!(m, "accepted");
        } else {
            assert_eq!(m, "Doubao final_timeout_secs must be between 1 and 300");
        }
    }
    let configured = match DoubaoTranscriber::new(with_key("mine"), Some("env".into())) {
        Ok(t) => t,
        Err(e) => panic!("{:?}", e),
    };
    assert_eq!(configured.config().api_key.as_deref(), Some("mine"));
    let from_env = match DoubaoTranscriber::new(DoubaoConfig::default(), Some("env".into())) {
        Ok(t) => t,
        Err(e) => panic!("{:?}", e),
    };
    assert_eq!(from_env.config().api_key.as_deref(), Some("env"));
}

#[test]
fn transcription_settles_on_the_last_decision() {
    let mut c = TranscriptCollector::new();
    c.absorb(StreamingEvent::Preview { text: "a".into() });
    c.absorb(StreamingEvent::Final { text: "first".into(), segment_id: 0 });
    c.absorb(StreamingEvent::Ended);
    assert_eq!(c.finish().unwrap(), "first");
    let mut c = TranscriptCollector::new();
    c.absorb(StreamingEvent::Final { text: "first".into(), segment_id: 0 });
    c.absorb(StreamingEvent::Error(TranscribeError::InferenceFailed("Doubao: x".into())));
    assert_eq!(c.finish().unwrap_err().message(), "Doubao: x");
    let mut c = TranscriptCollector::new();
    c.absorb(StreamingEvent::Preview { text: "a".into() });
    assert_eq!(
        c.finish().unwrap_err().message(),
        "Doubao: stream ended without a final result"
    );
}

#[test]
fn adds_sessions_and_keeps_the_start_date() {
    let mut usage = Usage::default();
    usage.record_session(1200, "2026-09-07T10:00:00+00:00".into());
    let first_since = usage.since.clone();
    usage.record_session(2300, "2026-09-08T10:00:00+00:00".into());
    assert_eq!((usage.sessions, usage.total_ms), (2, 3500));
    assert_eq!(usage.since, first_since);
    assert_eq!(usage.version, 1);
    let mut full = Usage {
        version: 0,
        total_ms: u64::MAX - 1,
        sessions: u64::MAX,
        since: String::new(),
    };
    full.record_session(u128::MAX, "now".into());
    assert_eq!(full.total_ms, u64::MAX);
    assert_eq!(full.sessions, u64::MAX);
    assert_eq!(full.since, "now");
}

#[test]
fn rate_pairs_are_checked() {
    assert_eq!(check_rates(0, 16_000), Err("invalid sample rates: 0 -> 16000".to_string()));
    assert_eq!(check_rates(48_000, 0), Err("invalid sample rates: 48000 -> 0".to_string()));
    assert_eq!(check_rates(16_000, 16_000), Ok(true));
    assert_eq!(check_rates(48_000, 16_000), Ok(false));
}

#[test]
fn handshake_carries_key_resource_and_request_id() {
    let config = DoubaoConfig {
        api_key: Some("test-secret".into()),
        ..Default::default()
    };
    let headers = handshake_headers(&config, "req-1").unwrap();
    let seen: Vec<(&str, &str, bool)> = headers
        .iter()
        .map(|h| (h.name.as_str(), h.value.as_str(), h.sensitive))
        .collect();
    assert_eq!(
        seen,
        vec![
            ("X-Api-Key", "test-secret", true),
            ("X-Api-Resource-Id", "volc.seedasr.sauc.duration", false),
            ("X-Api-Request-Id", "req-1", false),
        ]
    );
}

#[test]
fn handshake_refuses_values_that_cannot_be_headers() {
    let bad_key = DoubaoConfig {
        api_key: Some("a\nb".into()),
        ..Default::default()
    };
    match handshake_headers(&bad_key, "req-1") {
        Err(e) => assert_eq!(e.message(), "Doubao: invalid API key header"),
        Ok(_) => panic!("a key with a newline was accepted"),
    }
    let bad_resource = DoubaoConfig {
        api_key: Some("k".into()),
        resource_id: "x\u{7f}".into(),
        ..Default::default()
    };
    match handshake_headers(&bad_resource, "req-1") {
        Err(e) => assert_eq!(e.message(), "Doubao: invalid resource header"),
        Ok(_) => panic!("a resource with DEL was accepted"),
    }
    let good = DoubaoConfig {
        api_key: Some("k".into()),
        ..Default::default()
    };
    match handshake_headers(&good, "r\r") {
        Err(e) => assert_eq!(e.message(), "Doubao: invalid request id header"),
        Ok(_) => panic!("a request id with CR was accepted"),
    }
}
