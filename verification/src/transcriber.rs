//! The Doubao recognizer: validated configuration, the events it reports
//! and how a one-shot transcription settles on its result.
use vstd::prelude::*;
use tokio_tungstenite::tungstenite::http::HeaderValue;
use crate::config::{concurrent_resource, duration_resource, DoubaoConfig};
use crate::error::TranscribeError;
use crate::protocol::failure;
use crate::text::{is_blank, str_is_blank};

verus! {

/// A byte that an HTTP header value may hold: visible ASCII, any byte from
/// 128 up, or a tab.
pub open spec fn header_byte_ok(b: u8) -> bool {
    (b >= 32 && b != 127) || b == 9
}

/// Every byte of the UTF-8 encoding of `s` may stand in a header value.
pub open spec fn header_value_ok(s: Seq<char>) -> bool {
    forall|i: int|
        0 <= i < vstd::utf8::encode_utf8(s).len() ==> header_byte_ok(
            #[trigger] vstd::utf8::encode_utf8(s)[i],
        )
}

/// Whether `http::HeaderValue::from_str(s)` accepts `s`; after the `http`
/// source (`try_from_generic`, `is_valid`), it accepts exactly the strings
/// whose every byte is at least 32 and not 127, or a tab.
#[verifier::external_body]
fn header_value_accepts(s: &str) -> (r: bool)
    ensures
        r == header_value_ok(s@),
{
    HeaderValue::from_str(s).is_ok()
}

/// A header of the WebSocket handshake.
pub struct HandshakeHeader {
    /// The header's name.
    pub name: String,
    /// The header's value.
    pub value: String,
    /// Whether the value is a secret to be kept out of logs.
    pub sensitive: bool,
}

/// Why the handshake headers cannot be built from the API key, the
/// resource identifier and the request identifier, checked in order;
/// `None` when every value may stand in a header.
pub open spec fn handshake_refusal(
    api_key: Seq<char>,
    resource_id: Seq<char>,
    request_id: Seq<char>,
) -> Option<Seq<char>> {
    if !header_value_ok(api_key) {
        Some("invalid API key header"@)
    } else if !header_value_ok(resource_id) {
        Some("invalid resource header"@)
    } else if !header_value_ok(request_id) {
        Some("invalid request id header"@)
    } else {
        None
    }
}

/// `h` is the header `name` with `value`, secret exactly when `sensitive`.
pub open spec fn is_header(h: HandshakeHeader, name: Seq<char>, value: Seq<char>, sensitive: bool) -> bool {
    h.name@ == name && h.value@ == value && h.sensitive == sensitive
}

/// The headers of the WebSocket handshake of a session with the request
/// identifier `request_id`: the API key, marked secret, the resource
/// identifier and the request identifier.
pub fn handshake_headers(config: &DoubaoConfig, request_id: &str) -> (r: Result<
    Vec<HandshakeHeader>,
    TranscribeError,
>)
    ensures
        match handshake_refusal(key_text(config.api_key), config.resource_id@, request_id@) {
            Some(m) => r matches Err(e) && e.is_failure(m),
            None => r matches Ok(h) && h@.len() == 3 && is_header(
                h@[0],
                "X-Api-Key"@,
                key_text(config.api_key),
                true,
            ) && is_header(h@[1], "X-Api-Resource-Id"@, config.resource_id@, false) && is_header(
                h@[2],
                "X-Api-Request-Id"@,
                request_id@,
                false,
            ),
        },
{
    let key: &str = match &config.api_key {
        Some(k) => k.as_str(),
        None => {
            proof {
                reveal_strlit("");
            }
            ""
        },
    };
    if !header_value_accepts(key) {
        return Err(failure("invalid API key header"));
    }
    if !header_value_accepts(config.resource_id.as_str()) {
        return Err(failure("invalid resource header"));
    }
    if !header_value_accepts(request_id) {
        return Err(failure("invalid request id header"));
    }
    let mut headers: Vec<HandshakeHeader> = Vec::new();
    headers.push(
        HandshakeHeader {
            name: String::from_str("X-Api-Key"),
            value: String::from_str(key),
            sensitive: true,
        },
    );
    headers.push(
        HandshakeHeader {
            name: String::from_str("X-Api-Resource-Id"),
            value: String::from_str(config.resource_id.as_str()),
            sensitive: false,
        },
    );
    headers.push(
        HandshakeHeader {
            name: String::from_str("X-Api-Request-Id"),
            value: String::from_str(request_id),
            sensitive: false,
        },
    );
    assert(key@ == key_text(config.api_key));
    Ok(headers)
}

/// The API key in effect: the configured one, else the one from the
/// environment.
pub open spec fn effective_key(config: DoubaoConfig, env_api_key: Option<String>) -> Option<String> {
    if config.api_key is Some {
        config.api_key
    } else {
        env_api_key
    }
}

/// The text of an optional key, empty when there is none.
pub open spec fn key_text(key: Option<String>) -> Seq<char> {
    match key {
        Some(k) => k@,
        None => Seq::<char>::empty(),
    }
}

/// Why a configuration is refused, checked in order; `None` when it is
/// accepted.
pub open spec fn config_refusal(config: DoubaoConfig, env_api_key: Option<String>) -> Option<
    Seq<char>,
> {
    let key = key_text(effective_key(config, env_api_key));
    if is_blank(key) {
        Some("Doubao requires DOUBAO_API_KEY or [doubao] api_key"@)
    } else if !header_value_ok(key) {
        Some("Invalid Doubao API key header"@)
    } else if config.resource_id@ != duration_resource() && config.resource_id@
        != concurrent_resource() {
        Some(
            "Doubao resource_id must be volc.seedasr.sauc.duration or volc.seedasr.sauc.concurrent (ASR 2.0)"@,
        )
    } else if !(1 <= config.final_timeout_secs && config.final_timeout_secs <= 300) {
        Some("Doubao final_timeout_secs must be between 1 and 300"@)
    } else {
        None
    }
}

/// What a recognizer reports while it runs.
#[derive(Debug)]
pub enum StreamingEvent {
    /// A changed cumulative hypothesis, for preview only.
    Preview { text: String },
    /// The final transcript.
    Final { text: String, segment_id: u64 },
    /// Recognition failed.
    Error(TranscribeError),
    /// The stream is over.
    Ended,
}

/// The Doubao streaming recognizer, with a validated configuration.
pub struct DoubaoTranscriber {
    config: DoubaoConfig,
}

impl DoubaoTranscriber {
    /// The configuration in use.
    pub closed spec fn spec_config(&self) -> DoubaoConfig {
        self.config
    }

    /// Validates `config` and builds the recognizer; a missing API key is
    /// taken from `env_api_key`, the value of `DOUBAO_API_KEY`.
    pub fn new(config: DoubaoConfig, env_api_key: Option<String>) -> (r: Result<Self, TranscribeError>)
        ensures
            match config_refusal(config, env_api_key) {
                Some(m) => r matches Err(e) && e.is_init_failure(m),
                None => r matches Ok(t) && t.spec_config() == (DoubaoConfig {
                    api_key: effective_key(config, env_api_key),
                    ..config
                }),
            },
    {
        let mut config = config;
        if config.api_key.is_none() {
            config.api_key = env_api_key;
        }
        let blank;
        let header_ok;
        match &config.api_key {
            Some(k) => {
                blank = str_is_blank(k.as_str());
                header_ok = header_value_accepts(k.as_str());
            },
            None => {
                proof {
                    reveal_strlit("");
                }
                blank = str_is_blank("");
                header_ok = header_value_accepts("");
            },
        }
        if blank {
            return Err(
                TranscribeError::InitFailed(
                    String::from_str("Doubao requires DOUBAO_API_KEY or [doubao] api_key"),
                ),
            );
        }
        if !header_ok {
            return Err(TranscribeError::InitFailed(String::from_str("Invalid Doubao API key header")));
        }
        if !(config.resource_id == String::from_str("volc.seedasr.sauc.duration")
            || config.resource_id == String::from_str("volc.seedasr.sauc.concurrent")) {
            return Err(
                TranscribeError::InitFailed(
                    String::from_str(
                        "Doubao resource_id must be volc.seedasr.sauc.duration or volc.seedasr.sauc.concurrent (ASR 2.0)",
                    ),
                ),
            );
        }
        if !(1 <= config.final_timeout_secs && config.final_timeout_secs <= 300) {
            return Err(
                TranscribeError::InitFailed(
                    String::from_str("Doubao final_timeout_secs must be between 1 and 300"),
                ),
            );
        }
        Ok(Self { config })
    }

    /// The configuration in use.
    pub fn config(&self) -> (c: &DoubaoConfig)
        ensures
            *c == self.spec_config(),
    {
        &self.config
    }

    /// The debug rendering, with the configuration's secrets redacted.
    pub fn debug_string(&self) -> (s: String)
        ensures
            s@ == "DoubaoTranscriber { config: "@ + self.spec_config().spec_debug() + " }"@,
    {
        let mut s = String::from_str("DoubaoTranscriber { config: ");
        let inner = self.config.debug_string();
        s.append(inner.as_str());
        s.append(" }");
        s
    }
}

/// Law: the default resource identifier and final timeout are accepted;
/// with them, a configuration is accepted exactly when its API key (the
/// configured one, else the environment's) is not blank and may stand in a
/// header.
pub proof fn lemma_default_settings_accepted(config: DoubaoConfig, env_api_key: Option<String>)
    requires
        config.resource_id@ == duration_resource(),
        config.final_timeout_secs == 60,
    ensures
        config_refusal(config, env_api_key) is None <==> (!is_blank(
            key_text(effective_key(config, env_api_key)),
        ) && header_value_ok(key_text(effective_key(config, env_api_key)))),
{
}

/// Law: a configuration is accepted exactly when its API key (the
/// configured one, else the environment's) is not blank and may stand in
/// a header, its resource is hourly or concurrent streaming 2.0
/// (`volc.seedasr.sauc.duration` or `volc.seedasr.sauc.concurrent`), and
/// it waits between 1 and 300 seconds for the final result.
pub proof fn lemma_config_accepted(config: DoubaoConfig, env_api_key: Option<String>)
    ensures
        config_refusal(config, env_api_key) is None <==> {
            let key = key_text(effective_key(config, env_api_key));
            &&& !is_blank(key)
            &&& header_value_ok(key)
            &&& (config.resource_id@ == "volc.seedasr.sauc.duration"@ || config.resource_id@
                == "volc.seedasr.sauc.concurrent"@)
            &&& 1 <= config.final_timeout_secs <= 300
        },
{
}

/// How a one-shot transcription settles: the last final transcript or error
/// reported decides.
pub struct TranscriptCollector {
    result: Option<Result<String, TranscribeError>>,
}

impl TranscriptCollector {
    /// The result decided so far.
    pub closed spec fn spec_result(&self) -> Option<Result<String, TranscribeError>> {
        self.result
    }

    /// Nothing decided yet.
    pub fn new() -> (c: Self)
        ensures
            c.spec_result() is None,
    {
        Self { result: None }
    }

    /// Takes one reported event: a final transcript or an error replaces
    /// what was decided; previews and the end change nothing.
    pub fn absorb(&mut self, event: StreamingEvent)
        ensures
            match event {
                StreamingEvent::Final { text, .. } => final(self).spec_result() == Some(
                    Ok::<String, TranscribeError>(text),
                ),
                StreamingEvent::Error(e) => final(self).spec_result() == Some(
                    Err::<String, TranscribeError>(e),
                ),
                _ => final(self).spec_result() == old(self).spec_result(),
            },
    {
        match event {
            StreamingEvent::Final { text, .. } => {
                self.result = Some(Ok(text));
            },
            StreamingEvent::Error(e) => {
                self.result = Some(Err(e));
            },
            _ => {},
        }
    }

    /// The result: what was decided, or an error when the stream ended
    /// without a final result.
    pub fn finish(self) -> (r: Result<String, TranscribeError>)
        ensures
            match self.spec_result() {
                Some(d) => r == d,
                None => r matches Err(e) && e.is_failure("stream ended without a final result"@),
            },
    {
        match self.result {
            Some(d) => d,
            None => Err(failure("stream ended without a final result")),
        }
    }
}

} // verus!
