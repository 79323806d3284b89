use flate2::read::GzDecoder;
use smellytype::protocol::{
    decode, encode, failure, pcm_bytes, read_u32, Response, CHUNK_SAMPLES, MAX_PAYLOAD,
};
use smellytype::config::DoubaoConfig;
use smellytype::request::init_payload;
use smellytype::error::TranscribeError;
use std::io::Read;

fn response(text: Option<&str>, last: bool) -> Vec<u8> {
    let json = match text {
        Some(t) => format!("{{\"result\":{{\"text\":\"{}\"}}}}", t),
        None => "{}".to_string(),
    };
    let payload = json.into_bytes();
    let mut frame = vec![0x11, if last { 0x93 } else { 0x91 }, 0x10, 0];
    frame.extend((if last { -2i32 } else { 2i32 }).to_be_bytes());
    frame.extend((payload.len() as u32).to_be_bytes());
    frame.extend(payload);
    frame
}

#[test]
fn request_wire_format_and_pcm() {
    // The samples -1.0, 0.0, 1.0 and NaN, quantized to 16 bits.
    let encoded = encode(2, -3, &pcm_bytes(&[-32768, 0, 32767, 0])).unwrap();
    assert_eq!(&encoded[..4], &[0x11, 0x23, 0x01, 0]);
    assert_eq!(&encoded[4..8], &(-3i32).to_be_bytes());
    let mut pcm = Vec::new();
    GzDecoder::new(&encoded[12..]).read_to_end(&mut pcm).unwrap();
    assert_eq!(pcm, [0, 128, 0, 0, 255, 127, 0, 0]);
    let payload = init_payload(&DoubaoConfig::default());
    let init = encode(1, 1, payload.as_bytes()).unwrap();
    assert_eq!(&init[..4], &[0x11, 0x11, 0x11, 0]);
    let value: serde_json::Value = serde_json::from_str(&payload).unwrap();
    assert_eq!(value["request"]["enable_nonstream"], true);
}

#[test]
fn decode_cumulative_final_and_missing_text() {
    assert_eq!(
        decode(&response(Some("你好，世界。"), true)).unwrap(),
        Response {
            text: Some("你好，世界。".into()),
            last: true
        }
    );
    assert_eq!(decode(&response(None, true)).unwrap().text, None);
    let mut zipped = encode(1, -2, br#"{"result":{"text":"hello"}}"#).unwrap();
    zipped[1] = 0x93;
    assert_eq!(decode(&zipped).unwrap().text.as_deref(), Some("hello"));
}

#[test]
fn truncated_frames_and_compression_bomb_are_rejected() {
    let frame = response(Some("中文"), true);
    for len in 0..frame.len() {
        assert!(decode(&frame[..len]).is_err(), "length {len}");
    }
    let mut bomb = encode(1, 2, &vec![b' '; MAX_PAYLOAD + 1]).unwrap();
    bomb[1] = 0x91;
    assert!(decode(&bomb).is_err());
    assert!(decode(&[0x11, 0xf0, 0x10, 0, 0, 0, 1, 147])
        .unwrap_err()
        .message()
        .contains("403"));
}

fn message_of(r: Result<Response, TranscribeError>) -> String {
    r.unwrap_err().message()
}

#[test]
fn decode_error_messages() {
    assert_eq!(message_of(decode(&[0x11, 0x91])), "Doubao: invalid protocol header");
    assert_eq!(message_of(decode(&[0x21, 0x91, 0x10, 0])), "Doubao: invalid protocol header");
    assert_eq!(message_of(decode(&[0x10, 0x91, 0x10, 0])), "Doubao: invalid protocol header");
    assert_eq!(
        message_of(decode(&[0x11, 0x10, 0x10, 0, 0, 0, 0, 0])),
        "Doubao: unexpected server message type"
    );
    assert_eq!(
        message_of(decode(&[0x11, 0xf0, 0x10, 0, 0, 0, 1, 147])),
        "Doubao: server error 403; check ASR 2.0 activation, quota and API key"
    );
    assert_eq!(
        message_of(decode(&[0x11, 0x91, 0x10, 0, 0, 0])),
        "Doubao: truncated frame"
    );
    let mut wrong_len = response(Some("a"), false);
    wrong_len.push(b' ');
    assert_eq!(message_of(decode(&wrong_len)), "Doubao: invalid payload length");
    let mut not_json = response(Some("a"), false);
    not_json[2] = 0x00;
    assert_eq!(message_of(decode(&not_json)), "Doubao: expected JSON response");
    let mut lz = response(Some("a"), false);
    lz[2] = 0x12;
    assert_eq!(message_of(decode(&lz)), "Doubao: unsupported compression");
    let mut garbage = vec![0x11, 0x90, 0x10, 0, 0, 0, 0, 3];
    garbage.extend(b"{x}");
    assert_eq!(message_of(decode(&garbage)), "Doubao: invalid response JSON");
    let mut coded = vec![0x11, 0x90, 0x10, 0];
    let body = br#"{"code":45000001,"result":{"text":"a"}}"#;
    coded.extend((body.len() as u32).to_be_bytes());
    coded.extend(body);
    assert_eq!(message_of(decode(&coded)), "Doubao: server error 45000001");
    let mut ok_code = vec![0x11, 0x90, 0x10, 0];
    let body = br#"{"code":20000000,"result":{"text":"a"}}"#;
    ok_code.extend((body.len() as u32).to_be_bytes());
    ok_code.extend(body);
    let r = decode(&ok_code).unwrap();
    assert_eq!(r.text.as_deref(), Some("a"));
    assert!(!r.last);
    let mut negative = vec![0x11, 0x90, 0x10, 0];
    let body = br#"{"code":-7}"#;
    negative.extend((body.len() as u32).to_be_bytes());
    negative.extend(body);
    assert_eq!(message_of(decode(&negative)), "Doubao: server error -7");
}

#[test]
fn negative_sequence_marks_the_final_response() {
    let mut frame = response(Some("x"), false);
    frame[1] = 0x91;
    frame[4..8].copy_from_slice(&(-5i32).to_be_bytes());
    assert!(decode(&frame).unwrap().last);
    frame[4..8].copy_from_slice(&(5i32).to_be_bytes());
    assert!(!decode(&frame).unwrap().last);
}

#[test]
fn read_u32_reads_big_endian_and_moves() {
    let bytes = [1, 2, 3, 4, 5];
    let mut offset = 0;
    assert_eq!(read_u32(&bytes, &mut offset).unwrap(), 0x01020304);
    assert_eq!(offset, 4);
    assert_eq!(
        read_u32(&bytes, &mut offset).unwrap_err().message(),
        "Doubao: truncated frame"
    );
    assert_eq!(offset, 4);
}

#[test]
fn pcm_is_little_endian_sixteen_bit() {
    assert_eq!(pcm_bytes(&[1, -2, 0x1234]), vec![1, 0, 0xfe, 0xff, 0x34, 0x12]);
    assert!(pcm_bytes(&[]).is_empty());
}

#[test]
fn encode_frames_carry_the_compressed_length() {
    let data = vec![7u8; CHUNK_SAMPLES];
    let frame = encode(2, 9, &data).unwrap();
    assert_eq!(&frame[..4], &[0x11, 0x21, 0x01, 0]);
    assert_eq!(&frame[4..8], &9i32.to_be_bytes());
    let len = u32::from_be_bytes(frame[8..12].try_into().unwrap()) as usize;
    assert_eq!(len, frame.len() - 12);
    assert_ne!(&frame[12..], &data[..]);
    let mut plain = Vec::new();
    GzDecoder::new(&frame[12..]).read_to_end(&mut plain).unwrap();
    assert_eq!(plain, data);
}

#[test]
fn failure_prefixes_the_provider() {
    assert_eq!(failure("boom").message(), "Doubao: boom");
    assert!(matches!(failure("boom"), TranscribeError::InferenceFailed(_)));
}

#[test]
fn pcm_of_pieces_is_pcm_of_the_whole() {
    let a = [5i16, -1, 300];
    let b = [i16::MIN, i16::MAX];
    let whole: Vec<i16> = a.iter().chain(b.iter()).copied().collect();
    let mut joined = pcm_bytes(&a);
    joined.extend(pcm_bytes(&b));
    assert_eq!(pcm_bytes(&whole), joined);
    assert_eq!(joined.len(), 2 * whole.len());
}
