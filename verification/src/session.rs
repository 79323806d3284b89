//! The decisions of one streaming recognition session.
//!
//! The caller owns the WebSocket, the microphone channel and the clock; it
//! hands each event to [`DoubaoSession::step`] and performs the returned
//! [`SessionStep`]: send the frames, answer a ping, publish a preview, move
//! the deadline, and finish with the outcome. Audio is cut into frames of
//! [`CHUNK_SAMPLES`] samples; the last, possibly shorter, piece is kept for
//! the end-of-audio frame, whose sequence number is negated. Cumulative
//! hypotheses are previewed when they change; the final transcript is
//! committed once, and only after end-of-audio.
use vstd::prelude::*;
use crate::config::DoubaoConfig;
use crate::error::TranscribeError;
use crate::request::{init_payload, spec_init_payload};
use vstd::utf8::encode_utf8;
use crate::protocol::{
    decode, encode, failure, gzip_fast, pcm_bytes, spec_decode, spec_frame,
    spec_pcm, CHUNK_SAMPLES,
};
use crate::text::{decimal, push_decimal};

verus! {

/// Something that happened to a running session.
pub enum SessionEvent {
    /// Samples arrived from the microphone.
    Audio(Vec<i16>),
    /// The microphone channel closed: the recording is over.
    AudioEnded,
    /// A binary message arrived from the server.
    Binary(Vec<u8>),
    /// A ping arrived from the server, with its payload.
    Ping(Vec<u8>),
    /// A pong arrived from the server.
    Pong,
    /// The server sent a close message.
    Close,
    /// Any other kind of WebSocket message arrived.
    Unexpected,
    /// The WebSocket stream ended.
    ConnectionEnded,
    /// Receiving from the WebSocket failed.
    ReceiveFailed,
    /// The deadline for the final result passed.
    DeadlineReached,
}

/// How the caller moves the session deadline.
#[derive(Debug, PartialEq, Eq, Clone, Copy)]
pub enum Deadline {
    /// Leave it as it is.
    Keep,
    /// Set it to [`IDLE_WINDOW_SECS`] from now.
    Idle,
    /// Set it to the configured final timeout from now.
    Final,
}

/// How a session ends.
#[derive(Debug)]
pub enum SessionOutcome {
    /// The final transcript, to be committed.
    Final(String),
    /// The session failed.
    Failed(TranscribeError),
}

/// What the caller does after one event.
pub struct SessionStep {
    /// Binary frames to send, in order.
    pub frames: Vec<Vec<u8>>,
    /// A pong to send, with this payload.
    pub pong: Option<Vec<u8>>,
    /// A changed cumulative transcript to preview.
    pub preview: Option<String>,
    /// How to move the deadline.
    pub deadline: Deadline,
    /// The end of the session, once reached.
    pub outcome: Option<SessionOutcome>,
}

/// Seconds of the deadline set when the session starts and while audio is
/// still flowing.
pub const IDLE_WINDOW_SECS: u64 = 30;

/// The number of full frames cut from `n` samples: all but the last,
/// possibly partial, piece.
pub open spec fn audio_frame_count(n: nat) -> nat {
    if n == 0 {
        0
    } else {
        ((n - 1) / (CHUNK_SAMPLES as int)) as nat
    }
}

/// The `i`-th frame-sized piece of `all`.
pub open spec fn chunk_of(all: Seq<i16>, i: int) -> Seq<i16> {
    all.subrange(i * CHUNK_SAMPLES, (i + 1) * CHUNK_SAMPLES)
}

/// Frame `i` cut from `all` compresses, and `frame` is its request frame
/// with sequence number `sequence`.
pub open spec fn is_audio_frame(all: Seq<i16>, i: int, sequence: int, frame: Seq<u8>) -> bool {
    gzip_fast(spec_pcm(chunk_of(all, i))) matches Ok(p) && frame == spec_frame(
        2,
        sequence as i32,
        p,
    )
}

/// The error that ends a session, `msg` being its description.
pub open spec fn fails_with(step: SessionStep, msg: Seq<char>) -> bool {
    step.outcome matches Some(SessionOutcome::Failed(e)) && e.is_failure(msg)
}

/// A step that only ends the session with the error described by `msg`.
pub open spec fn only_fails_with(step: SessionStep, msg: Seq<char>) -> bool {
    &&& step.frames@.len() == 0
    &&& step.pong is None
    &&& step.preview is None
    &&& step.deadline == Deadline::Keep
    &&& fails_with(step, msg)
}

/// A step that does nothing.
pub open spec fn is_quiet(step: SessionStep) -> bool {
    &&& step.frames@.len() == 0
    &&& step.pong is None
    &&& step.preview is None
    &&& step.deadline == Deadline::Keep
    &&& step.outcome is None
}

/// The message of the timeout for the final result.
pub open spec fn timeout_message(secs: u64) -> Seq<char> {
    "timed out waiting for final result after "@ + decimal(secs as nat)
        + "s; increase doubao.final_timeout_secs if second-pass recognition is slow"@
}

/// A transport operation of a session.
#[derive(Debug, PartialEq, Eq, Clone, Copy)]
pub enum Transport {
    /// Opening the WebSocket.
    Connect,
    /// Sending the full-client request.
    InitialRequest,
    /// Sending an audio frame.
    AudioUpload,
    /// Sending the end-of-audio frame.
    EndOfAudio,
    /// Answering a ping.
    Ping,
}

/// The description of a failed or timed-out transport operation.
pub open spec fn transport_message(op: Transport, timed_out: bool) -> Seq<char> {
    match op {
        Transport::Connect => if timed_out {
            "connection timeout"@
        } else {
            "WebSocket connection failed; check network access"@
        },
        Transport::InitialRequest => if timed_out {
            "initial request timeout"@
        } else {
            "initial request failed"@
        },
        Transport::AudioUpload => if timed_out {
            "audio upload timeout"@
        } else {
            "audio upload failed"@
        },
        Transport::EndOfAudio => if timed_out {
            "end-of-audio timeout"@
        } else {
            "end-of-audio failed"@
        },
        Transport::Ping => if timed_out {
            "ping timeout"@
        } else {
            "ping failed"@
        },
    }
}

/// The error of a transport operation that failed or timed out.
pub fn transport_failure(op: Transport, timed_out: bool) -> (e: TranscribeError)
    ensures
        e.is_failure(transport_message(op, timed_out)),
{
    let m = match op {
        Transport::Connect => if timed_out {
            "connection timeout"
        } else {
            "WebSocket connection failed; check network access"
        },
        Transport::InitialRequest => if timed_out {
            "initial request timeout"
        } else {
            "initial request failed"
        },
        Transport::AudioUpload => if timed_out {
            "audio upload timeout"
        } else {
            "audio upload failed"
        },
        Transport::EndOfAudio => if timed_out {
            "end-of-audio timeout"
        } else {
            "end-of-audio failed"
        },
        Transport::Ping => if timed_out {
            "ping timeout"
        } else {
            "ping failed"
        },
    };
    failure(m)
}

/// The error of a handshake that the server answered with the HTTP
/// `status`.
pub fn http_rejection(status: &str) -> (e: TranscribeError)
    ensures
        e.is_failure("HTTP "@ + status@ + "; check API key, ASR 2.0 activation and quota"@),
{
    let mut m = String::from_str("HTTP ");
    m.append(status);
    m.append("; check API key, ASR 2.0 activation and quota");
    failure(m.as_str())
}

/// The error of an event that could not be delivered because its receiver
/// is gone.
pub fn receiver_closed() -> (e: TranscribeError)
    ensures
        e.is_failure("event receiver closed"@),
{
    failure("event receiver closed")
}

/// The state of one recognition session.
pub struct DoubaoSession {
    sequence: i32,
    pending: Vec<i16>,
    eof: bool,
    transcript: String,
    final_timeout_secs: u64,
    finished: bool,
    received: Ghost<Seq<i16>>,
    sent: Ghost<Seq<i16>>,
    full_frames: Ghost<nat>,
}

impl DoubaoSession {
    /// The sequence number of the last frame sent.
    pub closed spec fn spec_sequence(&self) -> int {
        self.sequence as int
    }

    /// Samples received but not yet sent.
    pub closed spec fn spec_pending(&self) -> Seq<i16> {
        self.pending@
    }

    /// Whether end-of-audio has been sent.
    pub closed spec fn spec_eof(&self) -> bool {
        self.eof
    }

    /// The last cumulative transcript received.
    pub closed spec fn spec_transcript(&self) -> Seq<char> {
        self.transcript@
    }

    /// The configured wait for the final result, in seconds.
    pub closed spec fn spec_final_timeout_secs(&self) -> u64 {
        self.final_timeout_secs
    }

    /// Whether the session has reached its outcome.
    pub closed spec fn spec_finished(&self) -> bool {
        self.finished
    }

    /// All samples received from the microphone.
    pub closed spec fn spec_received(&self) -> Seq<i16> {
        self.received@
    }

    /// The samples sent in full audio frames.
    pub closed spec fn spec_sent(&self) -> Seq<i16> {
        self.sent@
    }

    /// The number of full audio frames sent.
    pub closed spec fn spec_full_frames(&self) -> nat {
        self.full_frames@
    }

    /// The session's internal consistency.
    pub closed spec fn wf(&self) -> bool {
        &&& self.sent@ + self.pending@ == self.received@
        &&& self.pending@.len() <= CHUNK_SAMPLES
        &&& self.received@.len() > 0 ==> self.pending@.len() > 0
        &&& self.sent@.len() == self.full_frames@ * CHUNK_SAMPLES
        &&& self.sequence as int == 1 + self.full_frames@ + if self.eof {
            1int
        } else {
            0int
        }
        &&& !self.eof ==> self.sequence < i32::MAX
    }

    /// Law: every sample received is sent exactly once and in order: the
    /// full frames carry a prefix of the recording, the rest is kept for the
    /// end-of-audio frame, it is at most one frame long, and it is not empty
    /// once any audio has arrived.
    pub proof fn lemma_audio_accounting(&self)
        requires
            self.wf(),
        ensures
            self.spec_sent() + self.spec_pending() == self.spec_received(),
            self.spec_pending().len() <= CHUNK_SAMPLES,
            self.spec_received().len() > 0 ==> self.spec_pending().len() > 0,
            self.spec_sent().len() == (self.spec_sequence() - 1 - if self.spec_eof() {
                1int
            } else {
                0int
            }) * CHUNK_SAMPLES,
            self.spec_sent().len() == self.spec_full_frames() * CHUNK_SAMPLES,
            self.spec_full_frames() == audio_frame_count(self.spec_received().len()),
            self.spec_pending() == self.spec_received().subrange(
                self.spec_full_frames() * CHUNK_SAMPLES,
                self.spec_received().len() as int,
            ),
    {
        let n = self.full_frames@;
        let total = self.received@.len();
        assert(total == n * CHUNK_SAMPLES + self.pending@.len());
        if total > 0 {
            assert(n * CHUNK_SAMPLES <= total - 1 < (n + 1) * CHUNK_SAMPLES);
        }
        assert(self.pending@ =~= self.received@.subrange(n * CHUNK_SAMPLES, total as int));
    }

    /// Law: the frame cut at position `i` of what follows the samples
    /// already sent in `n` full frames is frame `n + i` of the whole
    /// recording, however the recording arrived in pieces.
    pub proof fn lemma_chunk_in_recording(sent: Seq<i16>, all: Seq<i16>, n: nat, i: int)
        requires
            sent.len() == n * CHUNK_SAMPLES,
            0 <= i,
            (i + 1) * CHUNK_SAMPLES <= all.len(),
        ensures
            chunk_of(all, i) == chunk_of(sent + all, n + i),
    {
        assert(chunk_of(all, i) =~= chunk_of(sent + all, n + i));
    }

    /// Whether `n` more samples can be taken without the sequence number
    /// overflowing before end-of-audio.
    pub open spec fn spec_has_headroom(&self, n: nat) -> bool {
        &&& self.spec_pending().len() + n <= usize::MAX
        &&& self.spec_sequence() + audio_frame_count(self.spec_pending().len() + n) + 1
            <= i32::MAX
    }

    /// Whether `n` more samples can be taken without the sequence number
    /// overflowing before end-of-audio.
    pub fn has_headroom(&self, n: usize) -> (r: bool)
        requires
            self.wf(),
        ensures
            r == self.spec_has_headroom(n as nat),
    {
        let p = self.pending.len();
        if n > usize::MAX - p {
            return false;
        }
        let total = p + n;
        let frames: usize = if total == 0 {
            0
        } else {
            (total - 1) / CHUNK_SAMPLES
        };
        (self.sequence as i64) + (frames as i64) + 1 <= i32::MAX as i64
    }

    /// Whether the session has reached its outcome.
    pub fn is_finished(&self) -> (r: bool)
        ensures
            r == self.spec_finished(),
    {
        self.finished
    }

    /// Whether end-of-audio has been sent, so that the deadline runs.
    pub fn deadline_armed(&self) -> (r: bool)
        ensures
            r == self.spec_eof(),
    {
        self.eof
    }

    /// Starts a session for `config`: the full-client request frame
    /// (kind 1, sequence 1) carrying the JSON request built from the
    /// configuration, and the fresh state.
    pub fn start(config: &DoubaoConfig) -> (r: Result<(DoubaoSession, Vec<u8>), TranscribeError>)
        ensures
            match gzip_fast(encode_utf8(spec_init_payload(*config))) {
                Ok(p) => r matches Ok((s, frame)) && frame@ == spec_frame(1, 1, p) && s.wf()
                    && s.spec_sequence() == 1 && !s.spec_eof() && !s.spec_finished()
                    && s.spec_pending().len() == 0 && s.spec_received().len() == 0
                    && s.spec_transcript().len() == 0 && s.spec_final_timeout_secs()
                    == config.final_timeout_secs,
                Err(m) => r matches Err(e) && e.is_failure(m),
            },
    {
        let payload = init_payload(config);
        let frame = encode(1, 1, payload.as_str().as_bytes())?;
        let s = DoubaoSession {
            sequence: 1,
            pending: Vec::new(),
            eof: false,
            transcript: String::new(),
            final_timeout_secs: config.final_timeout_secs,
            finished: false,
            received: Ghost(Seq::empty()),
            sent: Ghost(Seq::empty()),
            full_frames: Ghost(0),
        };
        Ok((s, frame))
    }
}

impl DoubaoSession {
    /// Takes samples while audio flows: cuts every full frame but the last
    /// piece, which stays pending; stops at the first frame that cannot be
    /// encoded.
    fn take_audio(&mut self, samples: &Vec<i16>) -> (step: SessionStep)
        requires
            old(self).wf(),
            !old(self).finished,
            !old(self).eof,
            old(self).spec_has_headroom(samples@.len()),
        ensures
            ({
                let all = old(self).spec_pending() + samples@;
                let k = audio_frame_count(all.len());
                let seq0 = old(self).spec_sequence();
                &&& step.frames@.len() <= k
                &&& forall|i: int|
                    0 <= i < step.frames@.len() ==> is_audio_frame(
                        all,
                        i,
                        seq0 + 1 + i,
                        #[trigger] step.frames@[i]@,
                    )
                &&& step.pong is None
                &&& step.preview is None
                &&& step.deadline == Deadline::Keep
                &&& step.outcome is None ==> {
                    &&& step.frames@.len() == k
                    &&& !final(self).spec_finished()
                    &&& final(self).wf()
                    &&& final(self).spec_pending() == all.subrange(k * CHUNK_SAMPLES, all.len() as int)
                    &&& final(self).spec_sequence() == seq0 + k
                    &&& final(self).spec_full_frames() == old(self).spec_full_frames() + k
                    &&& final(self).spec_received() == old(self).spec_received() + samples@
                    &&& final(self).spec_eof() == old(self).spec_eof()
                    &&& final(self).spec_transcript() == old(self).spec_transcript()
                }
                &&& step.outcome is Some ==> {
                    &&& step.frames@.len() < k
                    &&& gzip_fast(spec_pcm(chunk_of(all, step.frames@.len() as int))) matches Err(m)
                        && fails_with(step, m)
                    &&& final(self).spec_finished()
                }
            }),
            final(self).spec_final_timeout_secs() == old(self).spec_final_timeout_secs(),
    {
        let ghost seq0 = self.sequence as int;
        let mut all: Vec<i16> = Vec::new();
        let mut i: usize = 0;
        while i < self.pending.len()
            invariant
                i <= self.pending@.len(),
                all@ == self.pending@.take(i as int),
            decreases self.pending@.len() - i,
        {
            all.push(self.pending[i]);
            i = i + 1;
            assert(all@ =~= self.pending@.take(i as int));
        }
        let mut j: usize = 0;
        assert(self.pending@.take(i as int) =~= self.pending@);
        while j < samples.len()
            invariant
                j <= samples@.len(),
                all@ == self.pending@ + samples@.take(j as int),
                all@.len() == self.pending@.len() + j,
            decreases samples@.len() - j,
        {
            all.push(samples[j]);
            j = j + 1;
            assert(all@ =~= self.pending@ + samples@.take(j as int));
        }
        assert(samples@.take(j as int) =~= samples@);
        let ghost all_s = all@;
        let ghost k = audio_frame_count(all_s.len());
        let mut frames: Vec<Vec<u8>> = Vec::new();
        let mut start: usize = 0;
        while all.len() - start > CHUNK_SAMPLES
            invariant
                all@ == all_s,
                all_s == old(self).pending@ + samples@,
                seq0 == old(self).sequence as int,
                start == frames@.len() * CHUNK_SAMPLES,
                start <= all@.len(),
                frames@.len() > 0 ==> all@.len() > start,
                frames@.len() <= k,
                k == audio_frame_count(all_s.len()),
                seq0 + k + 1 <= i32::MAX,
                self.sequence as int == seq0 + frames@.len(),
                self.pending@ == old(self).pending@,
                self.eof == old(self).eof,
                self.transcript == old(self).transcript,
                self.final_timeout_secs == old(self).final_timeout_secs,
                self.finished == old(self).finished,
                self.received == old(self).received,
                self.sent == old(self).sent,
                self.full_frames == old(self).full_frames,
                forall|i: int|
                    0 <= i < frames@.len() ==> is_audio_frame(
                        all_s,
                        i,
                        seq0 + 1 + i,
                        #[trigger] frames@[i]@,
                    ),
            decreases all@.len() - start,
        {
            let ghost n = frames@.len();
            assert((n + 1) * CHUNK_SAMPLES <= all_s.len() - 1);
            assert(n + 1 <= (all_s.len() - 1) / (CHUNK_SAMPLES as int));
            let chunk = vstd::slice::slice_subrange(all.as_slice(), start, start + CHUNK_SAMPLES);
            assert(chunk@ == chunk_of(all_s, n as int));
            self.sequence = self.sequence + 1;
            let pcm = pcm_bytes(chunk);
            match encode(2, self.sequence, pcm.as_slice()) {
                Ok(f) => {
                    frames.push(f);
                },
                Err(e) => {
                    self.finished = true;
                    return SessionStep {
                        frames,
                        pong: None,
                        preview: None,
                        deadline: Deadline::Keep,
                        outcome: Some(SessionOutcome::Failed(e)),
                    };
                },
            }
            start = start + CHUNK_SAMPLES;
        }
        let ghost n = frames@.len();
        assert(all_s.len() <= (n + 1) * CHUNK_SAMPLES);
        assert(n == k) by {
            if all_s.len() > 0 {
                assert(n * CHUNK_SAMPLES <= all_s.len() - 1);
                assert(all_s.len() - 1 < (n + 1) * CHUNK_SAMPLES);
            }
        }
        let mut rest: Vec<i16> = Vec::new();
        let mut m: usize = start;
        while m < all.len()
            invariant
                start <= m <= all@.len(),
                all@ == all_s,
                rest@ == all_s.subrange(start as int, m as int),
            decreases all@.len() - m,
        {
            rest.push(all[m]);
            m = m + 1;
            assert(rest@ =~= all_s.subrange(start as int, m as int));
        }
        self.pending = rest;
        proof {
            self.sent@ = old(self).sent@ + all_s.take(start as int);
            self.received@ = old(self).received@ + samples@;
            self.full_frames@ = old(self).full_frames@ + n;
            assert(all_s.take(start as int) + all_s.subrange(start as int, all_s.len() as int)
                =~= all_s);
            assert(self.sent@ + self.pending@ =~= old(self).sent@ + all_s);
            assert(old(self).sent@ + all_s =~= old(self).sent@ + old(self).pending@ + samples@);
        }
        SessionStep {
            frames,
            pong: None,
            preview: None,
            deadline: Deadline::Keep,
            outcome: None,
        }
    }

    /// Sends end-of-audio: the pending samples in a frame whose sequence
    /// number is negated, then waits for the final result.
    fn end_audio(&mut self) -> (step: SessionStep)
        requires
            old(self).wf(),
            !old(self).finished,
            !old(self).eof,
        ensures
            match gzip_fast(spec_pcm(old(self).spec_pending())) {
                Ok(p) => {
                    &&& step.frames@.len() == 1
                    &&& step.frames@[0]@ == spec_frame(
                        2,
                        (-(old(self).spec_sequence() + 1)) as i32,
                        p,
                    )
                    &&& step.pong is None
                    &&& step.preview is None
                    &&& step.deadline == Deadline::Final
                    &&& step.outcome is None
                    &&& final(self).wf()
                    &&& !final(self).spec_finished()
                    &&& final(self).spec_eof()
                    &&& final(self).spec_sequence() == old(self).spec_sequence() + 1
                    &&& final(self).spec_pending() == old(self).spec_pending()
                    &&& final(self).spec_received() == old(self).spec_received()
                    &&& final(self).spec_sent() == old(self).spec_sent()
                    &&& final(self).spec_transcript() == old(self).spec_transcript()
                },
                Err(m) => only_fails_with(step, m) && final(self).spec_finished(),
            },
            final(self).spec_final_timeout_secs() == old(self).spec_final_timeout_secs(),
    {
        let pcm = pcm_bytes(self.pending.as_slice());
        let next = self.sequence + 1;
        match encode(2, -next, pcm.as_slice()) {
            Ok(frame) => {
                self.eof = true;
                self.sequence = next;
                let mut frames: Vec<Vec<u8>> = Vec::new();
                frames.push(frame);
                SessionStep {
                    frames,
                    pong: None,
                    preview: None,
                    deadline: Deadline::Final,
                    outcome: None,
                }
            },
            Err(e) => {
                self.finished = true;
                SessionStep {
                    frames: Vec::new(),
                    pong: None,
                    preview: None,
                    deadline: Deadline::Keep,
                    outcome: Some(SessionOutcome::Failed(e)),
                }
            },
        }
    }

    /// Ends the session with `e`.
    fn fail(&mut self, e: TranscribeError) -> (step: SessionStep)
        ensures
            step.frames@.len() == 0,
            step.pong is None,
            step.preview is None,
            step.deadline == Deadline::Keep,
            step.outcome == Some(SessionOutcome::Failed(e)),
            final(self).spec_finished(),
            final(self).spec_final_timeout_secs() == old(self).spec_final_timeout_secs(),
    {
        self.finished = true;
        SessionStep {
            frames: Vec::new(),
            pong: None,
            preview: None,
            deadline: Deadline::Keep,
            outcome: Some(SessionOutcome::Failed(e)),
        }
    }

    /// A step that does nothing.
    fn quiet() -> (step: SessionStep)
        ensures
            is_quiet(step),
    {
        SessionStep {
            frames: Vec::new(),
            pong: None,
            preview: None,
            deadline: Deadline::Keep,
            outcome: None,
        }
    }

    /// Takes a binary server message: previews a changed cumulative
    /// transcript and, on the final response, commits the transcript, which
    /// is only allowed after end-of-audio.
    fn take_response(&mut self, bytes: &Vec<u8>) -> (step: SessionStep)
        requires
            old(self).wf(),
            !old(self).finished,
        ensures
            final(self).spec_final_timeout_secs() == old(self).spec_final_timeout_secs(),
            match spec_decode(bytes@) {
                Err(m) => only_fails_with(step, m) && final(self).spec_finished(),
                Ok((text, last)) => {
                    let changed = text matches Some(t) && t != old(self).spec_transcript();
                    let transcript = if changed {
                        text.unwrap()
                    } else {
                        old(self).spec_transcript()
                    };
                    &&& step.frames@.len() == 0
                    &&& step.pong is None
                    &&& step.deadline == if old(self).spec_eof() {
                        Deadline::Keep
                    } else {
                        Deadline::Idle
                    }
                    &&& changed ==> (step.preview matches Some(p) && p@ == transcript)
                    &&& !changed ==> step.preview is None
                    &&& final(self).spec_transcript() == transcript
                    &&& final(self).spec_eof() == old(self).spec_eof()
                    &&& final(self).spec_sequence() == old(self).spec_sequence()
                    &&& final(self).spec_pending() == old(self).spec_pending()
                    &&& final(self).spec_received() == old(self).spec_received()
                    &&& final(self).spec_sent() == old(self).spec_sent()
                    &&& last && !old(self).spec_eof() ==> fails_with(
                        step,
                        "server finalized before end-of-audio"@,
                    ) && final(self).spec_finished()
                    &&& last && old(self).spec_eof() ==> (step.outcome matches Some(
                        SessionOutcome::Final(f),
                    ) && f@ == transcript) && final(self).spec_finished()
                    &&& !last ==> step.outcome is None && !final(self).spec_finished()
                        && final(self).wf()
                },
            },
    {
        let response = match decode(bytes.as_slice()) {
            Ok(r) => r,
            Err(e) => return self.fail(e),
        };
        let deadline = if self.eof {
            Deadline::Keep
        } else {
            Deadline::Idle
        };
        let mut preview: Option<String> = None;
        match response.text {
            Some(text) => {
                if self.transcript != text {
                    self.transcript = text;
                    preview = Some(self.transcript.clone());
                }
            },
            None => {},
        }
        if response.last {
            if !self.eof {
                self.finished = true;
                return SessionStep {
                    frames: Vec::new(),
                    pong: None,
                    preview,
                    deadline,
                    outcome: Some(SessionOutcome::Failed(failure("server finalized before end-of-audio"))),
                };
            }
            self.finished = true;
            return SessionStep {
                frames: Vec::new(),
                pong: None,
                preview,
                deadline,
                outcome: Some(SessionOutcome::Final(self.transcript.clone())),
            };
        }
        SessionStep { frames: Vec::new(), pong: None, preview, deadline, outcome: None }
    }

    /// Decides what to do about `event`.
    ///
    /// Audio is only taken, and the deadline only runs, before and after
    /// end-of-audio respectively; such events at other times change nothing.
    pub fn step(&mut self, event: SessionEvent) -> (step: SessionStep)
        requires
            old(self).wf(),
            !old(self).spec_finished(),
            event matches SessionEvent::Audio(samples) ==> (old(self).spec_eof()
                || old(self).spec_has_headroom(samples@.len())),
        ensures
            final(self).spec_final_timeout_secs() == old(self).spec_final_timeout_secs(),
            !final(self).spec_finished() ==> final(self).wf(),
            step.outcome is Some <==> final(self).spec_finished(),
            step.outcome matches Some(SessionOutcome::Final(f)) ==> old(self).spec_eof()
                && f@ == final(self).spec_transcript(),
            match event {
                SessionEvent::Audio(samples) => if old(self).spec_eof() {
                    is_quiet(step) && *final(self) == *old(self)
                } else {
                    let all = old(self).spec_pending() + samples@;
                    let k = audio_frame_count(all.len());
                    let seq0 = old(self).spec_sequence();
                    &&& step.frames@.len() <= k
                    &&& forall|i: int|
                        0 <= i < step.frames@.len() ==> is_audio_frame(
                            all,
                            i,
                            seq0 + 1 + i,
                            #[trigger] step.frames@[i]@,
                        )
                    &&& forall|i: int|
                        0 <= i < step.frames@.len() ==> is_audio_frame(
                            old(self).spec_received() + samples@,
                            old(self).spec_full_frames() + i,
                            2 + old(self).spec_full_frames() + i,
                            #[trigger] step.frames@[i]@,
                        )
                    &&& step.pong is None
                    &&& step.preview is None
                    &&& step.deadline == Deadline::Keep
                    &&& step.outcome is None ==> {
                        &&& step.frames@.len() == k
                        &&& final(self).spec_full_frames() == old(self).spec_full_frames() + k
                        &&& final(self).spec_pending() == all.subrange(
                            k * CHUNK_SAMPLES,
                            all.len() as int,
                        )
                        &&& final(self).spec_sequence() == seq0 + k
                        &&& final(self).spec_received() == old(self).spec_received() + samples@
                        &&& !final(self).spec_eof()
                        &&& final(self).spec_transcript() == old(self).spec_transcript()
                    }
                    &&& step.outcome is Some ==> step.frames@.len() < k && (gzip_fast(
                        spec_pcm(chunk_of(all, step.frames@.len() as int)),
                    ) matches Err(m) && fails_with(step, m))
                    &&& step.outcome is None ==> audio_taken(*old(self), samples@, step, *final(self))
                },
                SessionEvent::AudioEnded => if old(self).spec_eof() {
                    is_quiet(step) && *final(self) == *old(self)
                } else {
                    match gzip_fast(spec_pcm(old(self).spec_pending())) {
                        Ok(p) => {
                            &&& step.frames@.len() == 1
                            &&& step.frames@[0]@ == spec_frame(
                                2,
                                (-(old(self).spec_sequence() + 1)) as i32,
                                p,
                            )
                            &&& step.pong is None
                            &&& step.preview is None
                            &&& step.deadline == Deadline::Final
                            &&& step.outcome is None
                            &&& step.frames@[0]@ == spec_frame(
                                2,
                                (-(old(self).spec_full_frames() + 2)) as i32,
                                p,
                            )
                            &&& old(self).spec_pending() == old(self).spec_received().subrange(
                                old(self).spec_full_frames() * CHUNK_SAMPLES,
                                old(self).spec_received().len() as int,
                            )
                            &&& final(self).spec_eof()
                            &&& final(self).spec_sequence() == old(self).spec_sequence() + 1
                            &&& final(self).spec_pending() == old(self).spec_pending()
                            &&& final(self).spec_received() == old(self).spec_received()
                            &&& final(self).spec_transcript() == old(self).spec_transcript()
                            &&& audio_closed(*old(self), step, *final(self))
                        },
                        Err(m) => only_fails_with(step, m),
                    }
                },
                SessionEvent::Binary(bytes) => match spec_decode(bytes@) {
                    Err(m) => only_fails_with(step, m),
                    Ok((text, last)) => {
                        let changed = text matches Some(t) && t != old(self).spec_transcript();
                        let transcript = if changed {
                            text.unwrap()
                        } else {
                            old(self).spec_transcript()
                        };
                        &&& step.frames@.len() == 0
                        &&& step.pong is None
                        &&& step.deadline == if old(self).spec_eof() {
                            Deadline::Keep
                        } else {
                            Deadline::Idle
                        }
                        &&& changed ==> (step.preview matches Some(p) && p@ == transcript)
                        &&& !changed ==> step.preview is None
                        &&& final(self).spec_transcript() == transcript
                        &&& final(self).spec_eof() == old(self).spec_eof()
                        &&& final(self).spec_sequence() == old(self).spec_sequence()
                        &&& final(self).spec_pending() == old(self).spec_pending()
                        &&& final(self).spec_received() == old(self).spec_received()
                        &&& last && !old(self).spec_eof() ==> fails_with(
                            step,
                            "server finalized before end-of-audio"@,
                        )
                        &&& last && old(self).spec_eof() ==> (step.outcome matches Some(
                            SessionOutcome::Final(f),
                        ) && f@ == transcript)
                        &&& !last ==> step.outcome is None
                    },
                },
                SessionEvent::Ping(data) => {
                    &&& step.frames@.len() == 0
                    &&& step.pong == Some(data)
                    &&& step.preview is None
                    &&& step.deadline == Deadline::Keep
                    &&& step.outcome is None
                    &&& *final(self) == *old(self)
                },
                SessionEvent::Pong => is_quiet(step) && *final(self) == *old(self),
                SessionEvent::Close => only_fails_with(
                    step,
                    "connection closed before final result"@,
                ),
                SessionEvent::ConnectionEnded => only_fails_with(
                    step,
                    "connection closed before final result"@,
                ),
                SessionEvent::ReceiveFailed => only_fails_with(step, "WebSocket receive failed"@),
                SessionEvent::Unexpected => only_fails_with(step, "unexpected WebSocket message"@),
                SessionEvent::DeadlineReached => if old(self).spec_eof() {
                    only_fails_with(step, timeout_message(old(self).spec_final_timeout_secs()))
                } else {
                    is_quiet(step) && *final(self) == *old(self)
                },
            },
    {
        match event {
            SessionEvent::Audio(samples) => {
                if self.eof {
                    Self::quiet()
                } else {
                    proof {
                        self.lemma_audio_accounting();
                    }
                    let ghost before = *self;
                    let step = self.take_audio(&samples);
                    proof {
                        let all = before.spec_pending() + samples@;
                        assert(before.spec_received() + samples@ =~= before.spec_sent() + all);
                        assert forall|i: int| 0 <= i < step.frames@.len() implies is_audio_frame(
                            before.spec_received() + samples@,
                            before.spec_full_frames() + i,
                            2 + before.spec_full_frames() + i,
                            #[trigger] step.frames@[i]@,
                        ) by {
                            assert(is_audio_frame(all, i, before.spec_sequence() + 1 + i, step.frames@[i]@));
                            assert((i + 1) * CHUNK_SAMPLES <= all.len()) by {
                                assert(i < audio_frame_count(all.len()));
                            }
                            Self::lemma_chunk_in_recording(
                                before.spec_sent(),
                                all,
                                before.spec_full_frames(),
                                i,
                            );
                        }
                    }
                    step
                }
            },
            SessionEvent::AudioEnded => {
                if self.eof {
                    Self::quiet()
                } else {
                    proof {
                        self.lemma_audio_accounting();
                    }
                    self.end_audio()
                }
            },
            SessionEvent::Binary(bytes) => self.take_response(&bytes),
            SessionEvent::Ping(data) => SessionStep {
                frames: Vec::new(),
                pong: Some(data),
                preview: None,
                deadline: Deadline::Keep,
                outcome: None,
            },
            SessionEvent::Pong => Self::quiet(),
            SessionEvent::Close => self.fail(failure("connection closed before final result")),
            SessionEvent::ConnectionEnded => self.fail(
                failure("connection closed before final result"),
            ),
            SessionEvent::ReceiveFailed => self.fail(failure("WebSocket receive failed")),
            SessionEvent::Unexpected => self.fail(failure("unexpected WebSocket message")),
            SessionEvent::DeadlineReached => {
                if self.eof {
                    let mut m = String::from_str("timed out waiting for final result after ");
                    push_decimal(&mut m, self.final_timeout_secs);
                    m.append(
                        "s; increase doubao.final_timeout_secs if second-pass recognition is slow",
                    );
                    self.fail(failure(m.as_str()))
                } else {
                    Self::quiet()
                }
            },
        }
    }
}


/// The samples of `pieces`, one after the other.
pub open spec fn joined_samples(pieces: Seq<Seq<i16>>) -> Seq<i16>
    decreases pieces.len(),
{
    if pieces.len() == 0 {
        Seq::empty()
    } else {
        joined_samples(pieces.drop_last()) + pieces.last()
    }
}

/// The frames of `steps`, in the order they were sent.
pub open spec fn sent_frames(steps: Seq<SessionStep>) -> Seq<Seq<u8>>
    decreases steps.len(),
{
    if steps.len() == 0 {
        Seq::empty()
    } else {
        sent_frames(steps.drop_last()) + steps.last().frames@.map_values(|f: Vec<u8>| f@)
    }
}

/// `after` is `before` after the audio step `step` took `samples` without
/// failing: each frame sent is the next frame-sized piece of the recording,
/// numbered after the frames already sent.
pub open spec fn audio_taken(
    before: DoubaoSession,
    samples: Seq<i16>,
    step: SessionStep,
    after: DoubaoSession,
) -> bool {
    &&& before.wf()
    &&& !before.spec_eof()
    &&& after.wf()
    &&& !after.spec_eof()
    &&& step.outcome is None
    &&& after.spec_received() == before.spec_received() + samples
    &&& after.spec_full_frames() == before.spec_full_frames() + step.frames@.len()
    &&& forall|i: int|
        0 <= i < step.frames@.len() ==> is_audio_frame(
            after.spec_received(),
            before.spec_full_frames() + i,
            2 + before.spec_full_frames() + i,
            #[trigger] step.frames@[i]@,
        )
}

/// `after` is `before` after the end-of-audio step `step`: its one frame
/// carries the pending samples under the negated next sequence number.
pub open spec fn audio_closed(before: DoubaoSession, step: SessionStep, after: DoubaoSession) -> bool {
    &&& before.wf()
    &&& !before.spec_eof()
    &&& step.outcome is None
    &&& step.frames@.len() == 1
    &&& gzip_fast(spec_pcm(before.spec_pending())) matches Ok(p) && step.frames@[0]@
        == spec_frame(2, (-(before.spec_full_frames() + 2)) as i32, p)
    &&& after.spec_eof()
    &&& after.spec_received() == before.spec_received()
}

/// What a whole recording `all` is sent as: its full frames in order,
/// numbered from 2, then the rest, never empty unless the recording is,
/// in the end-of-audio frame numbered with the negated next number.
pub open spec fn recording_sent(all: Seq<i16>, frames: Seq<Seq<u8>>) -> bool {
    let k = audio_frame_count(all.len());
    &&& frames.len() == k + 1
    &&& forall|j: int| 0 <= j < k ==> is_audio_frame(all, j, 2 + j, #[trigger] frames[j])
    &&& gzip_fast(spec_pcm(all.subrange(k * CHUNK_SAMPLES, all.len() as int))) matches Ok(p)
        && frames[k as int] == spec_frame(2, (-(k + 2)) as i32, p)
    &&& k * CHUNK_SAMPLES <= all.len()
    &&& all.len() > 0 ==> all.len() - k * CHUNK_SAMPLES <= CHUNK_SAMPLES
    &&& all.len() > 0 ==> k * CHUNK_SAMPLES < all.len()
}

/// A frame cut from a prefix of the recording is the same frame of the
/// whole recording.
proof fn lemma_audio_frame_extends(p: Seq<i16>, q: Seq<i16>, j: int, sequence: int, f: Seq<u8>)
    requires
        0 <= j,
        (j + 1) * CHUNK_SAMPLES <= p.len(),
        is_audio_frame(p, j, sequence, f),
    ensures
        is_audio_frame(p + q, j, sequence, f),
{
    assert(chunk_of(p, j) =~= chunk_of(p + q, j));
}

/// After the audio steps of a series, the session has received the pieces
/// one after the other, and the frames sent so far are its full frames.
proof fn lemma_audio_series(states: Seq<DoubaoSession>, pieces: Seq<Seq<i16>>, steps: Seq<SessionStep>)
    requires
        states.len() == pieces.len() + 1,
        steps.len() == pieces.len(),
        states[0].wf(),
        states[0].spec_received().len() == 0,
        forall|i: int|
            0 <= i < pieces.len() ==> audio_taken(
                #[trigger] states[i],
                pieces[i],
                steps[i],
                states[i + 1],
            ),
    ensures
        states.last().spec_received() == joined_samples(pieces),
        sent_frames(steps).len() == states.last().spec_full_frames(),
        forall|j: int|
            0 <= j < sent_frames(steps).len() ==> is_audio_frame(
                joined_samples(pieces),
                j,
                2 + j,
                #[trigger] sent_frames(steps)[j],
            ),
    decreases pieces.len(),
{
    if pieces.len() == 0 {
        states[0].lemma_audio_accounting();
        assert(joined_samples(pieces) =~= states[0].spec_received());
    } else {
        let n = pieces.len() - 1;
        let st = states.drop_last();
        let ps = pieces.drop_last();
        let ss = steps.drop_last();
        assert forall|i: int| 0 <= i < ps.len() implies audio_taken(
            #[trigger] st[i],
            ps[i],
            ss[i],
            st[i + 1],
        ) by {
            assert(audio_taken(states[i], pieces[i], steps[i], states[i + 1]));
        }
        lemma_audio_series(st, ps, ss);
        let before = states[n];
        let after = states[n + 1];
        assert(audio_taken(states[n], pieces[n], steps[n], states[n + 1]));
        assert(st.last() == before);
        before.lemma_audio_accounting();
        let prev = joined_samples(ps);
        let old_frames = sent_frames(ss);
        let batch = steps.last().frames@.map_values(|f: Vec<u8>| f@);
        assert(sent_frames(steps) == old_frames + batch);
        assert(joined_samples(pieces) == prev + pieces.last());
        assert forall|j: int| 0 <= j < sent_frames(steps).len() implies is_audio_frame(
            joined_samples(pieces),
            j,
            2 + j,
            #[trigger] sent_frames(steps)[j],
        ) by {
            if j < old_frames.len() {
                assert(is_audio_frame(prev, j, 2 + j, old_frames[j]));
                assert((j + 1) * CHUNK_SAMPLES <= before.spec_full_frames() * CHUNK_SAMPLES);
                lemma_audio_frame_extends(prev, pieces.last(), j, 2 + j, old_frames[j]);
            } else {
                let m = j - old_frames.len();
                assert(is_audio_frame(
                    after.spec_received(),
                    before.spec_full_frames() + m,
                    2 + before.spec_full_frames() + m,
                    steps[n].frames@[m]@,
                ));
            }
        }
    }
}

/// Law: a recording is sent once and in order, however it arrived. For a
/// session that starts with nothing received, takes the pieces of audio
/// one after the other without failing, and then ends the audio, the frames
/// sent are exactly the frame-sized pieces of the whole recording, numbered
/// from 2, followed by the end-of-audio frame, which carries the rest (one
/// to a frame's worth of samples when anything was recorded) under the
/// negated next number.
pub proof fn lemma_recording_sent_once(
    states: Seq<DoubaoSession>,
    pieces: Seq<Seq<i16>>,
    steps: Seq<SessionStep>,
    end: SessionStep,
    ended: DoubaoSession,
)
    requires
        states.len() == pieces.len() + 1,
        steps.len() == pieces.len(),
        states[0].wf(),
        states[0].spec_received().len() == 0,
        forall|i: int|
            0 <= i < pieces.len() ==> audio_taken(
                #[trigger] states[i],
                pieces[i],
                steps[i],
                states[i + 1],
            ),
        audio_closed(states.last(), end, ended),
    ensures
        ended.spec_received() == joined_samples(pieces),
        recording_sent(
            joined_samples(pieces),
            sent_frames(steps.push(end)),
        ),
{
    lemma_audio_series(states, pieces, steps);
    let last = states.last();
    last.lemma_audio_accounting();
    let all = joined_samples(pieces);
    let k = audio_frame_count(all.len());
    assert(steps.push(end).drop_last() =~= steps);
    let frames = sent_frames(steps.push(end));
    assert(frames == sent_frames(steps) + end.frames@.map_values(|f: Vec<u8>| f@));
    assert(frames[k as int] == end.frames@[0]@);
    if all.len() > 0 {
        assert(k * CHUNK_SAMPLES <= all.len() - 1 < (k + 1) * CHUNK_SAMPLES);
    }
    assert forall|j: int| 0 <= j < k implies is_audio_frame(all, j, 2 + j, #[trigger] frames[j]) by {
        assert(frames[j] == sent_frames(steps)[j]);
    }
}

} // verus!
