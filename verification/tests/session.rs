use flate2::read::GzDecoder;
use smellytype::config::DoubaoConfig;
use smellytype::protocol::CHUNK_SAMPLES;
use smellytype::session::{
    http_rejection, receiver_closed, transport_failure, Deadline, DoubaoSession, SessionEvent,
    SessionOutcome, Transport,
};
use std::io::Read;

fn response(text: Option<&str>, last: bool) -> Vec<u8> {
    let json = match text {
        Some(t) => format!("{{\"result\":{{\"text\":\"{}\"}}}}", t),
        None => "{}".to_string(),
    };
    let payload = json.into_bytes();
    let mut frame = vec![0x11, if last { 0x93 } else { 0x91 }, 0x10, 0];
    frame.extend((if last { -2i32 } else { 2i32 }).to_be_bytes());
    frame.extend((payload.len() as u32).to_be_bytes());
    frame.extend(payload);
    frame
}

fn started(timeout: u64) -> DoubaoSession {
    let config = DoubaoConfig {
        final_timeout_secs: timeout,
        ..Default::default()
    };
    let (session, frame) = DoubaoSession::start(&config).unwrap();
    assert_eq!(&frame[..4], &[0x11, 0x11, 0x11, 0]);
    assert_eq!(&frame[4..8], &1i32.to_be_bytes());
    session
}

fn audio_of(frame: &[u8]) -> Vec<u8> {
    let mut pcm = Vec::new();
    GzDecoder::new(&frame[12..]).read_to_end(&mut pcm).unwrap();
    pcm
}

#[test]
fn revisions_preview_and_commit_once_after_eof() {
    let mut s = started(60);
    let step = s.step(SessionEvent::Audio(vec![1; 100]));
    assert!(step.frames.is_empty());
    let step = s.step(SessionEvent::Binary(response(Some("我想去北京"), false)));
    assert_eq!(step.preview.as_deref(), Some("我想去北京"));
    assert_eq!(step.deadline, Deadline::Idle);
    assert!(step.outcome.is_none());
    let step = s.step(SessionEvent::Binary(response(Some("我想去北京"), false)));
    assert!(step.preview.is_none());
    let step = s.step(SessionEvent::Binary(response(Some("我想去背景"), false)));
    assert_eq!(step.preview.as_deref(), Some("我想去背景"));
    let step = s.step(SessionEvent::AudioEnded);
    assert_eq!(step.frames.len(), 1);
    assert_eq!(step.frames[0][1], 0x23);
    assert_eq!(&step.frames[0][4..8], &(-2i32).to_be_bytes());
    assert_eq!(audio_of(&step.frames[0]).len(), 200);
    assert_eq!(step.deadline, Deadline::Final);
    assert!(s.deadline_armed());
    let step = s.step(SessionEvent::Binary(response(None, false)));
    assert!(step.preview.is_none());
    assert_eq!(step.deadline, Deadline::Keep);
    let step = s.step(SessionEvent::Binary(response(Some("我想去北京。"), true)));
    assert_eq!(step.preview.as_deref(), Some("我想去北京。"));
    match step.outcome {
        Some(SessionOutcome::Final(t)) => assert_eq!(t, "我想去北京。"),
        other => panic!("unexpected {:?}", other),
    }
    assert!(s.is_finished());
}

#[test]
fn early_close_reports_error_without_committing() {
    let mut s = started(60);
    s.step(SessionEvent::Audio(vec![0; 10]));
    let step = s.step(SessionEvent::Binary(response(Some("未完成"), false)));
    assert_eq!(step.preview.as_deref(), Some("未完成"));
    let step = s.step(SessionEvent::Close);
    match step.outcome {
        Some(SessionOutcome::Failed(e)) => {
            assert_eq!(e.message(), "Doubao: connection closed before final result")
        }
        other => panic!("unexpected {:?}", other),
    }
    assert!(s.is_finished());
}

#[test]
fn final_before_end_of_audio_is_refused() {
    let mut s = started(60);
    let step = s.step(SessionEvent::Binary(response(Some("太早"), true)));
    match step.outcome {
        Some(SessionOutcome::Failed(e)) => {
            assert_eq!(e.message(), "Doubao: server finalized before end-of-audio")
        }
        other => panic!("unexpected {:?}", other),
    }
}

#[test]
fn audio_is_neither_lost_nor_duplicated() {
    let mut s = started(60);
    let mut frames = Vec::new();
    let mut samples_in = Vec::new();
    for (i, size) in [1000usize, CHUNK_SAMPLES, 5000, 1].iter().enumerate() {
        let block: Vec<i16> = (0..*size).map(|k| (k as i16).wrapping_mul(3) ^ i as i16).collect();
        samples_in.extend(block.iter().copied());
        assert!(s.has_headroom(block.len()));
        let step = s.step(SessionEvent::Audio(block));
        assert!(step.outcome.is_none());
        frames.extend(step.frames);
    }
    let total = samples_in.len();
    assert_eq!(frames.len(), (total - 1) / CHUNK_SAMPLES);
    let step = s.step(SessionEvent::AudioEnded);
    let eos = &step.frames[0];
    let tail = audio_of(eos);
    assert!(!tail.is_empty(), "EOS must carry the final audio chunk");
    assert!(tail.len() <= 2 * CHUNK_SAMPLES);
    let mut pcm = Vec::new();
    for (i, f) in frames.iter().enumerate() {
        assert_eq!(f[1], 0x21);
        assert_eq!(&f[4..8], &(i as i32 + 2).to_be_bytes());
        let chunk = audio_of(f);
        assert_eq!(chunk.len(), 2 * CHUNK_SAMPLES);
        pcm.extend(chunk);
    }
    assert_eq!(&eos[4..8], &(-(frames.len() as i32 + 2)).to_be_bytes());
    pcm.extend(tail);
    let expected: Vec<u8> = samples_in.iter().flat_map(|x| x.to_le_bytes()).collect();
    assert_eq!(pcm, expected);
}

#[test]
fn exact_multiple_keeps_a_full_chunk_for_end_of_audio() {
    let mut s = started(60);
    let step = s.step(SessionEvent::Audio(vec![3; CHUNK_SAMPLES * 2]));
    assert_eq!(step.frames.len(), 1);
    let step = s.step(SessionEvent::AudioEnded);
    assert_eq!(audio_of(&step.frames[0]).len(), 2 * CHUNK_SAMPLES);
}

#[test]
fn deadline_only_runs_after_end_of_audio() {
    let mut s = started(1);
    assert!(!s.deadline_armed());
    let step = s.step(SessionEvent::DeadlineReached);
    assert!(step.outcome.is_none());
    assert!(!s.is_finished());
    s.step(SessionEvent::AudioEnded);
    let step = s.step(SessionEvent::Audio(vec![1; 10]));
    assert!(step.frames.is_empty());
    let step = s.step(SessionEvent::DeadlineReached);
    match step.outcome {
        Some(SessionOutcome::Failed(e)) => {
            assert!(e.message().contains("after 1s"));
            assert_eq!(
                e.message(),
                "Doubao: timed out waiting for final result after 1s; increase doubao.final_timeout_secs if second-pass recognition is slow"
            );
        }
        other => panic!("unexpected {:?}", other),
    }
}

#[test]
fn pings_are_answered_and_other_messages_end_the_session() {
    let mut s = started(60);
    let step = s.step(SessionEvent::Ping(vec![9, 8]));
    assert_eq!(step.pong, Some(vec![9, 8]));
    assert!(step.outcome.is_none());
    let step = s.step(SessionEvent::Pong);
    assert!(step.outcome.is_none() && step.pong.is_none());
    for (event, msg) in [
        (SessionEvent::Unexpected, "Doubao: unexpected WebSocket message"),
        (SessionEvent::ReceiveFailed, "Doubao: WebSocket receive failed"),
        (SessionEvent::ConnectionEnded, "Doubao: connection closed before final result"),
        (SessionEvent::Binary(vec![0, 1]), "Doubao: invalid protocol header"),
    ] {
        let mut s = started(60);
        match s.step(event).outcome {
            Some(SessionOutcome::Failed(e)) => assert_eq!(e.message(), msg),
            other => panic!("unexpected {:?}", other),
        }
        assert!(s.is_finished());
    }
}

#[test]
fn transport_failures_are_described() {
    assert_eq!(
        transport_failure(Transport::Connect, true).message(),
        "Doubao: connection timeout"
    );
    assert_eq!(
        transport_failure(Transport::Connect, false).message(),
        "Doubao: WebSocket connection failed; check network access"
    );
    assert_eq!(
        transport_failure(Transport::AudioUpload, false).message(),
        "Doubao: audio upload failed"
    );
    assert_eq!(
        transport_failure(Transport::EndOfAudio, true).message(),
        "Doubao: end-of-audio timeout"
    );
    assert_eq!(
        transport_failure(Transport::InitialRequest, true).message(),
        "Doubao: initial request timeout"
    );
    assert_eq!(transport_failure(Transport::Ping, false).message(), "Doubao: ping failed");
    assert_eq!(
        http_rejection("401 Unauthorized").message(),
        "Doubao: HTTP 401 Unauthorized; check API key, ASR 2.0 activation and quota"
    );
    assert_eq!(receiver_closed().message(), "Doubao: event receiver closed");
}

fn frames_for(recording: &[i16], sizes: &[usize]) -> Vec<Vec<u8>> {
    let mut s = started(60);
    let mut frames = Vec::new();
    let mut at = 0;
    for size in sizes {
        let step = s.step(SessionEvent::Audio(recording[at..at + size].to_vec()));
        assert!(step.outcome.is_none());
        frames.extend(step.frames);
        at += size;
    }
    assert_eq!(at, recording.len());
    let step = s.step(SessionEvent::AudioEnded);
    assert!(step.outcome.is_none());
    frames.extend(step.frames);
    frames
}

#[test]
fn recording_frames_do_not_depend_on_how_audio_arrived() {
    let recording: Vec<i16> = (0..(3 * CHUNK_SAMPLES + 17)).map(|k| (k as i16).wrapping_mul(7)).collect();
    let whole = frames_for(&recording, &[recording.len()]);
    let pieces = frames_for(&recording, &[1, CHUNK_SAMPLES - 1, 2 * CHUNK_SAMPLES + 10, 0, 7]);
    assert_eq!(whole.len(), 4);
    assert_eq!(whole, pieces);
    assert_eq!(audio_of(&whole[3]).len(), 2 * 17);
    assert_eq!(&whole[3][4..8], &(-5i32).to_be_bytes());
}
