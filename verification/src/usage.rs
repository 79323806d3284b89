//! Local microphone time for Doubao dictation, including cancelled
//! sessions. This is not provider billing and never stores speech or
//! transcripts.
use vstd::prelude::*;

verus! {

/// Accumulated local dictation usage.
pub struct Usage {
    /// Version of the record's layout.
    pub version: u32,
    /// Total recording time, in milliseconds.
    pub total_ms: u64,
    /// Number of recording sessions.
    pub sessions: u64,
    /// When counting started (RFC 3339), empty until the first session.
    pub since: String,
}

/// `a + b`, or `u64::MAX` when that does not fit.
pub open spec fn saturating_add(a: int, b: int) -> int {
    if a + b > u64::MAX {
        u64::MAX as int
    } else {
        a + b
    }
}

impl Default for Usage {
    fn default() -> (u: Self)
        ensures
            u.version == 0,
            u.total_ms == 0,
            u.sessions == 0,
            u.since@.len() == 0,
    {
        Usage { version: 0, total_ms: 0, sessions: 0, since: String::new() }
    }
}

impl Usage {
    /// Records one session of `elapsed_ms` milliseconds, `now` being the
    /// current time (RFC 3339): the counters saturate, and the start date,
    /// once set, is kept.
    pub fn record_session(&mut self, elapsed_ms: u128, now: String)
        ensures
            final(self).version == 1,
            final(self).total_ms == saturating_add(
                old(self).total_ms as int,
                if elapsed_ms > u64::MAX {
                    u64::MAX as int
                } else {
                    elapsed_ms as int
                },
            ),
            final(self).sessions == saturating_add(old(self).sessions as int, 1),
            old(self).since@.len() == 0 ==> final(self).since == now,
            old(self).since@.len() != 0 ==> final(self).since == old(self).since,
    {
        self.version = 1;
        if self.since.as_str().is_empty() {
            self.since = now;
        }
        let ms: u64 = if elapsed_ms > u64::MAX as u128 {
            u64::MAX
        } else {
            elapsed_ms as u64
        };
        self.total_ms = self.total_ms.saturating_add(ms);
        self.sessions = self.sessions.saturating_add(1);
    }
}

/// Law: recording never loses counted time or sessions: neither counter
/// ever decreases, and both grow while they can.
pub proof fn lemma_usage_monotone(before: Usage, after: Usage, elapsed_ms: u128)
    requires
        after.total_ms == saturating_add(
            before.total_ms as int,
            if elapsed_ms > u64::MAX {
                u64::MAX as int
            } else {
                elapsed_ms as int
            },
        ),
        after.sessions == saturating_add(before.sessions as int, 1),
    ensures
        after.total_ms >= before.total_ms,
        after.sessions >= before.sessions,
        before.sessions < u64::MAX ==> after.sessions == before.sessions + 1,
        before.total_ms + elapsed_ms <= u64::MAX ==> after.total_ms == before.total_ms
            + elapsed_ms,
{
}

} // verus!
