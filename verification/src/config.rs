//! Doubao / Volcengine streaming ASR 2.0 configuration.
use vstd::prelude::*;

verus! {

/// Settings of the Doubao recognizer.
pub struct DoubaoConfig {
    /// Prefer DOUBAO_API_KEY over storing credentials in TOML.
    pub api_key: Option<String>,
    /// Streaming 2.0 hourly or concurrent resource identifier.
    pub resource_id: String,
    /// Maximum wait after audio ends, including second-pass recognition.
    pub final_timeout_secs: u64,
    /// One vocabulary hint per line; sent to Doubao with each recording.
    pub hotwords: String,
    /// Remove spoken disfluencies using the provider's semantic smoothing.
    pub enable_ddc: bool,
}

/// The resource identifier of hourly (duration-billed) streaming 2.0.
pub open spec fn duration_resource() -> Seq<char> {
    "volc.seedasr.sauc.duration"@
}

/// The resource identifier of concurrent streaming 2.0.
pub open spec fn concurrent_resource() -> Seq<char> {
    "volc.seedasr.sauc.concurrent"@
}

/// The `Debug` rendering of a string by the standard library: quoted, with
/// escapes.
pub uninterp spec fn debug_quoted(s: Seq<char>) -> Seq<char>;

/// Renders `s` with `format!("{:?}", s)`, the standard library's `Debug`
/// for `str`. The contract names the result.
#[verifier::external_body]
fn debug_quote(s: &str) -> (r: String)
    ensures
        r@ == debug_quoted(s@),
{
    format!("{:?}", s)
}

impl Default for DoubaoConfig {
    fn default() -> (c: Self)
        ensures
            c.api_key is None,
            c.resource_id@ == duration_resource(),
            c.final_timeout_secs == 60,
            c.hotwords@.len() == 0,
            !c.enable_ddc,
    {
        Self {
            api_key: None,
            resource_id: String::from_str("volc.seedasr.sauc.duration"),
            final_timeout_secs: 60,
            hotwords: String::new(),
            enable_ddc: false,
        }
    }
}

impl DoubaoConfig {
    /// The debug rendering: secrets (the API key and the hotwords) are
    /// replaced by `[REDACTED]`.
    pub open spec fn spec_debug(&self) -> Seq<char> {
        "DoubaoConfig { api_key: "@ + (if self.api_key is Some {
            "Some(\"[REDACTED]\")"@
        } else {
            "None"@
        }) + ", resource_id: "@ + debug_quoted(self.resource_id@) + ", final_timeout_secs: "@
            + crate::text::decimal(self.final_timeout_secs as nat) + ", enable_ddc: "@ + (
        if self.enable_ddc {
            "true"@
        } else {
            "false"@
        }) + ", hotwords: \"[REDACTED]\" }"@
    }

    /// The debug rendering, with the API key and the hotwords redacted.
    pub fn debug_string(&self) -> (s: String)
        ensures
            s@ == self.spec_debug(),
    {
        let mut s = String::from_str("DoubaoConfig { api_key: ");
        if self.api_key.is_some() {
            s.append("Some(\"[REDACTED]\")");
        } else {
            s.append("None");
        }
        s.append(", resource_id: ");
        let quoted = debug_quote(self.resource_id.as_str());
        s.append(quoted.as_str());
        s.append(", final_timeout_secs: ");
        crate::text::push_decimal(&mut s, self.final_timeout_secs);
        s.append(", enable_ddc: ");
        if self.enable_ddc {
            s.append("true");
        } else {
            s.append("false");
        }
        s.append(", hotwords: \"[REDACTED]\" }");
        s
    }
}

/// Law: the debug rendering depends neither on the API key's value nor on
/// the hotwords, so printing a configuration never reveals them.
pub proof fn lemma_debug_redacts_secrets(a: DoubaoConfig, b: DoubaoConfig)
    requires
        a.api_key is Some == b.api_key is Some,
        a.resource_id@ == b.resource_id@,
        a.final_timeout_secs == b.final_timeout_secs,
        a.enable_ddc == b.enable_ddc,
    ensures
        a.spec_debug() == b.spec_debug(),
{
}

} // verus!
