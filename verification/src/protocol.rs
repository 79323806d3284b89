//! The binary wire format of Doubao streaming speech recognition (ASR 2.0).
//!
//! A frame is a 4-byte header (version and header size, message kind and
//! flags, serialization and compression, reserved), an optional big-endian
//! sequence number, a big-endian payload length and the payload. Requests
//! carry gzip-compressed payloads; responses carry JSON, possibly gzip
//! compressed, whose `result.text` is the cumulative transcript.
use vstd::prelude::*;
use std::io::{Read, Write};
use flate2::{read::GzDecoder, write::GzEncoder, Compression};
use crate::error::TranscribeError;
use crate::text::{decimal, decimal_signed, push_decimal, push_decimal_signed};

verus! {

/// Audio samples per request frame: 200 ms at 16 kHz, mono.
pub const CHUNK_SAMPLES: usize = 3200;

/// Largest response payload accepted, compressed or not.
pub const MAX_PAYLOAD: usize = 1024 * 1024;

/// A decoded server response.
#[derive(Debug, PartialEq)]
pub struct Response {
    /// The cumulative transcript, when the response carries one.
    pub text: Option<String>,
    /// Whether this is the final response of the session.
    pub last: bool,
}

/// The result of the gzip compression (fast level, default header) of
/// `data`, as produced by `flate2`.
pub uninterp spec fn gzip_fast(data: Seq<u8>) -> Result<Seq<u8>, Seq<char>>;

/// The result of gzip decompression of `data` stopped after `limit` output
/// bytes, as produced by `flate2`.
pub uninterp spec fn gunzip_prefix(data: Seq<u8>, limit: u64) -> Result<Seq<u8>, Seq<char>>;

/// `data` parsed as JSON by `serde_json`: `None` when it is not JSON, else
/// the integer `code` member and the string at `/result/text`, when present.
pub uninterp spec fn json_response_fields(data: Seq<u8>) -> Option<(Option<i64>, Option<Seq<char>>)>;

/// The view of a byte buffer or an error description.
pub open spec fn bytes_result_view(r: Result<Vec<u8>, String>) -> Result<Seq<u8>, Seq<char>> {
    match r {
        Ok(v) => Ok(v@),
        Err(m) => Err(m@),
    }
}

/// The view of the parsed response fields.
pub open spec fn fields_view(r: Option<(Option<i64>, Option<String>)>) -> Option<
    (Option<i64>, Option<Seq<char>>),
> {
    match r {
        None => None,
        Some((code, Some(t))) => Some((code, Some(t@))),
        Some((code, None)) => Some((code, None)),
    }
}

/// What decompression stopped after `limit` bytes gives back of `data`.
pub open spec fn inflated_prefix(data: Seq<u8>, limit: u64) -> Seq<u8> {
    if data.len() <= limit {
        data
    } else {
        data.take(limit as int)
    }
}

/// Decompressing `compressed` gives back `data`, for every output limit.
pub open spec fn inflates_to(compressed: Seq<u8>, data: Seq<u8>) -> bool {
    forall|limit: u64|
        #[trigger] gunzip_prefix(compressed, limit) == Ok::<Seq<u8>, Seq<char>>(
            inflated_prefix(data, limit),
        )
}

/// Compresses `data` with gzip at the fast level through
/// `flate2::write::GzEncoder` (`new`, `write_all`, `finish`). The contract
/// names the result (the compressed bytes or the I/O error's text) and
/// states that gzip is lossless: `flate2::read::GzDecoder` gives the data
/// back from the compressed bytes. Whether compression succeeds is not
/// stated: the source reports errors of the compressor and does not show
/// that none can occur.
#[verifier::external_body]
fn gzip_compress(data: &[u8]) -> (r: Result<Vec<u8>, String>)
    ensures
        bytes_result_view(r) == gzip_fast(data@),
        r matches Ok(p) ==> inflates_to(p@, data@),
{
    let mut gzip = GzEncoder::new(Vec::new(), Compression::fast());
    gzip.write_all(data).map_err(|e| e.to_string())?;
    gzip.finish().map_err(|e| e.to_string())
}

/// Decompresses the gzip stream `data` through `flate2::read::GzDecoder`,
/// reading at most `limit` bytes of output (`Read::take`, `read_to_end`).
/// The contract names the result and states, after `Read::take`'s
/// documentation, that no more than `limit` bytes come out.
#[verifier::external_body]
fn gunzip_bounded(data: &[u8], limit: u64) -> (r: Result<Vec<u8>, String>)
    ensures
        bytes_result_view(r) == gunzip_prefix(data@, limit),
        r matches Ok(v) ==> v@.len() <= limit,
{
    let mut out = Vec::new();
    GzDecoder::new(data).take(limit).read_to_end(&mut out).map_err(|e| e.to_string())?;
    Ok(out)
}

/// Parses `data` as a `serde_json::Value` (`serde_json::from_slice`) and
/// picks its `code` member as an `i64` (`Value::get`, `Value::as_i64`) and
/// the string at `/result/text` (`Value::pointer`, `Value::as_str`). The
/// contract names the result.
#[verifier::external_body]
fn parse_response_json(data: &[u8]) -> (r: Option<(Option<i64>, Option<String>)>)
    ensures
        fields_view(r) == json_response_fields(data@),
{
    let value: serde_json::Value = serde_json::from_slice(data).ok()?;
    let code = value.get("code").and_then(serde_json::Value::as_i64);
    let text = value.pointer("/result/text").and_then(serde_json::Value::as_str);
    Some((code, text.map(str::to_owned)))
}

/// Big-endian bytes of `x`.
pub open spec fn be32(x: u32) -> Seq<u8> {
    seq![(x >> 24) as u8, (x >> 16) as u8, (x >> 8) as u8, x as u8]
}

/// The big-endian 32-bit number at `b[i..i + 4]`.
pub open spec fn be_u32_at(b: Seq<u8>, i: int) -> int {
    b[i] * 16777216 + b[i + 1] * 65536 + b[i + 2] * 256 + b[i + 3]
}

/// The header, sequence number and length of a request frame.
pub open spec fn frame_header(kind: u8, sequence: i32, payload_len: nat) -> Seq<u8> {
    let flags: u8 = if sequence < 0 {
        3
    } else {
        1
    };
    let serialization: u8 = if kind == 1 {
        1
    } else {
        0
    };
    seq![0x11u8, (kind << 4u8) | flags, (serialization << 4u8) | 1u8, 0u8] + be32(
        sequence as u32,
    ) + be32(payload_len as u32)
}

/// The request frame of `kind` and `sequence` around the compressed
/// `payload`.
pub open spec fn spec_frame(kind: u8, sequence: i32, payload: Seq<u8>) -> Seq<u8> {
    frame_header(kind, sequence, payload.len()) + payload
}

/// Little-endian bytes of a 16-bit sample.
pub open spec fn le16(x: i16) -> Seq<u8> {
    seq![(x as u16) as u8, ((x as u16) >> 8u16) as u8]
}

/// Raw 16-bit little-endian PCM of `samples`.
pub open spec fn spec_pcm(samples: Seq<i16>) -> Seq<u8>
    decreases samples.len(),
{
    if samples.len() == 0 {
        Seq::<u8>::empty()
    } else {
        spec_pcm(samples.drop_last()) + le16(samples.last())
    }
}

/// Reading a big-endian number back gives what was written.
pub proof fn lemma_be32_read_back(x: u32)
    ensures
        be_u32_at(be32(x), 0) == x,
{
    assert(((x >> 24u32) as u8) as u32 * 16777216 + ((x >> 16u32) as u8) as u32 * 65536 + ((x
        >> 8u32) as u8) as u32 * 256 + (x as u8) as u32 == x) by (bit_vector);
}

/// Law: a request frame reads back as written: the version and header
/// size, the message kind with its flags (3, a negative sequence number,
/// marks the last frame), the serialization, the sequence number and the
/// payload length, then the payload itself.
pub proof fn lemma_frame_read_back(kind: u8, sequence: i32, payload: Seq<u8>)
    requires
        kind < 16,
        payload.len() <= u32::MAX,
    ensures
        ({
            let f = spec_frame(kind, sequence, payload);
            &&& f.len() == 12 + payload.len()
            &&& f[0] == 0x11
            &&& f[1] >> 4u8 == kind
            &&& f[1] & 15u8 == (if sequence < 0 {
                3u8
            } else {
                1u8
            })
            &&& f[2] >> 4u8 == (if kind == 1 {
                1u8
            } else {
                0u8
            })
            &&& f[2] & 15u8 == 1
            &&& be_u32_at(f, 4) == sequence as u32
            &&& be_u32_at(f, 8) == payload.len()
            &&& f.subrange(12, f.len() as int) == payload
        }),
{
    let f = spec_frame(kind, sequence, payload);
    lemma_be32_read_back(sequence as u32);
    lemma_be32_read_back(payload.len() as u32);
    let seqb = be32(sequence as u32);
    let lenb = be32(payload.len() as u32);
    assert(f[4] == seqb[0] && f[5] == seqb[1] && f[6] == seqb[2] && f[7] == seqb[3]);
    assert(f[8] == lenb[0] && f[9] == lenb[1] && f[10] == lenb[2] && f[11] == lenb[3]);
    assert(f.subrange(12, f.len() as int) =~= payload);
    let flags: u8 = if sequence < 0 {
        3
    } else {
        1
    };
    let ser: u8 = if kind == 1 {
        1
    } else {
        0
    };
    assert(((kind << 4u8) | flags) >> 4u8 == kind) by (bit_vector)
        requires
            kind < 16,
            flags < 16,
    ;
    assert(((kind << 4u8) | flags) & 15u8 == flags) by (bit_vector)
        requires
            kind < 16,
            flags < 16,
    ;
    assert(((ser << 4u8) | 1u8) >> 4u8 == ser) by (bit_vector)
        requires
            ser < 16,
    ;
    assert(((ser << 4u8) | 1u8) & 15u8 == 1u8) by (bit_vector);
}

/// PCM has two bytes per sample.
pub proof fn lemma_pcm_len(samples: Seq<i16>)
    ensures
        spec_pcm(samples).len() == 2 * samples.len(),
    decreases samples.len(),
{
    if samples.len() > 0 {
        lemma_pcm_len(samples.drop_last());
    }
}

/// Law: PCM encoding is sample by sample, so the PCM of consecutive pieces
/// of a recording, put together, is the PCM of the recording.
pub proof fn lemma_pcm_concat(a: Seq<i16>, b: Seq<i16>)
    ensures
        spec_pcm(a + b) == spec_pcm(a) + spec_pcm(b),
    decreases b.len(),
{
    if b.len() == 0 {
        assert(a + b =~= a);
        assert(spec_pcm(a) + spec_pcm(b) =~= spec_pcm(a));
    } else {
        lemma_pcm_concat(a, b.drop_last());
        assert((a + b).drop_last() =~= a + b.drop_last());
        assert((a + b).last() == b.last());
        assert(spec_pcm(a) + spec_pcm(b) =~= spec_pcm(a) + spec_pcm(b.drop_last()) + le16(
            b.last(),
        ));
    }
}

/// A failure of the Doubao recognizer, described as `Doubao: ` and
/// `message`.
pub fn failure(message: &str) -> (e: TranscribeError)
    ensures
        e.is_failure(message@),
{
    let mut m = String::from_str("Doubao: ");
    m.append(message);
    TranscribeError::InferenceFailed(m)
}

/// Pushes the big-endian bytes of `x`.
fn push_be32(out: &mut Vec<u8>, x: u32)
    ensures
        final(out)@ == old(out)@ + be32(x),
{
    out.push((x >> 24) as u8);
    out.push((x >> 16) as u8);
    out.push((x >> 8) as u8);
    out.push(x as u8);
    assert(out@ =~= old(out)@ + be32(x));
}

/// The request frame of `kind` and `sequence` carrying `data`, compressed.
pub fn encode(kind: u8, sequence: i32, data: &[u8]) -> (r: Result<Vec<u8>, TranscribeError>)
    ensures
        match gzip_fast(data@) {
            Ok(p) => r matches Ok(v) && v@ == spec_frame(kind, sequence, p),
            Err(m) => r matches Err(e) && e.is_failure(m),
        },
        r matches Ok(v) ==> inflates_to(v@.subrange(12, v@.len() as int), data@),
{
    let payload = match gzip_compress(data) {
        Ok(p) => p,
        Err(m) => return Err(failure(m.as_str())),
    };
    let flags: u8 = if sequence < 0 {
        3
    } else {
        1
    };
    let serialization: u8 = if kind == 1 {
        1
    } else {
        0
    };
    let mut out: Vec<u8> = Vec::new();
    out.push(0x11);
    out.push((kind << 4u8) | flags);
    out.push((serialization << 4u8) | 1);
    out.push(0);
    push_be32(&mut out, sequence as u32);
    push_be32(&mut out, payload.len() as u32);
    let mut i: usize = 0;
    let ghost head = out@;
    while i < payload.len()
        invariant
            i <= payload@.len(),
            out@ == head + payload@.take(i as int),
        decreases payload@.len() - i,
    {
        out.push(payload[i]);
        i = i + 1;
        assert(out@ =~= head + payload@.take(i as int));
    }
    assert(payload@.take(payload@.len() as int) =~= payload@);
    assert(out@ =~= spec_frame(kind, sequence, payload@));
    assert(out@.subrange(12, out@.len() as int) =~= payload@);
    Ok(out)
}

/// Raw 16-bit little-endian PCM of `samples`.
pub fn pcm_bytes(samples: &[i16]) -> (v: Vec<u8>)
    ensures
        v@ == spec_pcm(samples@),
{
    let mut out: Vec<u8> = Vec::new();
    let mut i: usize = 0;
    while i < samples.len()
        invariant
            i <= samples@.len(),
            out@ == spec_pcm(samples@.take(i as int)),
        decreases samples@.len() - i,
    {
        let x = samples[i] as u16;
        out.push(x as u8);
        out.push((x >> 8u16) as u8);
        proof {
            let t = samples@.take(i + 1);
            assert(t.drop_last() =~= samples@.take(i as int));
            assert(t.last() == samples@[i as int]);
        }
        i = i + 1;
        assert(out@ =~= spec_pcm(samples@.take(i as int)));
    }
    assert(samples@.take(samples@.len() as int) =~= samples@);
    out
}

/// Reads the big-endian 32-bit number at `*offset` and moves past it, or
/// reports a truncated frame and leaves `*offset` alone.
pub fn read_u32(bytes: &[u8], offset: &mut usize) -> (r: Result<u32, TranscribeError>)
    requires
        *old(offset) + 4 <= usize::MAX,
    ensures
        *old(offset) + 4 <= bytes@.len() ==> (r matches Ok(v) && v == be_u32_at(
            bytes@,
            *old(offset) as int,
        ) && *final(offset) == *old(offset) + 4),
        *old(offset) + 4 > bytes@.len() ==> (r matches Err(e) && e.is_failure("truncated frame"@)
            && *final(offset) == *old(offset)),
{
    if *offset + 4 > bytes.len() {
        return Err(failure("truncated frame"));
    }
    let i = *offset;
    let v: u32 = (bytes[i] as u32) * 16777216 + (bytes[i + 1] as u32) * 65536 + (bytes[i + 2]
        as u32) * 256 + (bytes[i + 3] as u32);
    *offset = i + 4;
    Ok(v)
}

/// What a response payload says once decompressed: the transcript and the
/// final flag, or why the response is refused.
pub open spec fn spec_decode_json(
    b: Seq<u8>,
    payload: Seq<u8>,
    last: bool,
) -> Result<(Option<Seq<char>>, bool), Seq<char>> {
    if b[2] >> 4u8 != 1 {
        Err("expected JSON response"@)
    } else {
        match json_response_fields(payload) {
            None => Err("invalid response JSON"@),
            Some((code, text)) => match code {
                Some(c) => if c != 0 && c != 20000000 {
                    Err("server error "@ + decimal_signed(c as int))
                } else {
                    Ok((text, last))
                },
                None => Ok((text, last)),
            },
        }
    }
}

/// What the rest of a response says, its length field standing at `off`.
pub open spec fn spec_decode_body(b: Seq<u8>, off: int, last: bool) -> Result<
    (Option<Seq<char>>, bool),
    Seq<char>,
> {
    if off + 4 > b.len() {
        Err("truncated frame"@)
    } else {
        let len = be_u32_at(b, off);
        let start = off + 4;
        if len > MAX_PAYLOAD || b.len() - start != len {
            Err("invalid payload length"@)
        } else {
            let payload = b.subrange(start, b.len() as int);
            let compression = b[2] & 15u8;
            if compression == 0 {
                spec_decode_json(b, payload, last)
            } else if compression == 1 {
                match gunzip_prefix(payload, (MAX_PAYLOAD + 1) as u64) {
                    Err(m) => Err(m),
                    Ok(d) => if d.len() > MAX_PAYLOAD {
                        Err("response too large"@)
                    } else {
                        spec_decode_json(b, d, last)
                    },
                }
            } else {
                Err("unsupported compression"@)
            }
        }
    }
}

/// What a server message of kind 9 (full response) says, its optional
/// fields starting at `off`.
pub open spec fn spec_decode_full(b: Seq<u8>, off: int, flags: u8, last: bool) -> Result<
    (Option<Seq<char>>, bool),
    Seq<char>,
> {
    if flags & 1u8 != 0 && off + 4 > b.len() {
        Err("truncated frame"@)
    } else {
        let off1 = if flags & 1u8 != 0 {
            off + 4
        } else {
            off
        };
        let last1 = if flags & 1u8 != 0 {
            last || be_u32_at(b, off) >= 0x8000_0000
        } else {
            last
        };
        if flags & 4u8 != 0 && off1 + 4 > b.len() {
            Err("truncated frame"@)
        } else {
            let off2 = if flags & 4u8 != 0 {
                off1 + 4
            } else {
                off1
            };
            spec_decode_body(b, off2, last1)
        }
    }
}

/// What the server message `b` says: the cumulative transcript, if any,
/// and whether it is the final response; or why it is refused.
pub open spec fn spec_decode(b: Seq<u8>) -> Result<(Option<Seq<char>>, bool), Seq<char>> {
    if b.len() < 4 || b[0] >> 4u8 != 1 || b[0] & 15u8 == 0 {
        Err("invalid protocol header"@)
    } else {
        let kind = b[1] >> 4u8;
        let flags = b[1] & 15u8;
        let off = (b[0] & 15u8) * 4;
        let last = flags & 2u8 != 0;
        if kind == 9 {
            spec_decode_full(b, off, flags, last)
        } else if kind == 15 {
            if off + 4 > b.len() {
                Err("truncated frame"@)
            } else {
                Err(
                    "server error "@ + decimal(be_u32_at(b, off) as nat)
                        + "; check ASR 2.0 activation, quota and API key"@,
                )
            }
        } else {
            Err("unexpected server message type"@)
        }
    }
}

/// The decoded payload of a response whose length has been checked.
fn decode_json(bytes: &[u8], payload: &[u8], last: bool) -> (r: Result<Response, TranscribeError>)
    requires
        bytes@.len() >= 4,
    ensures
        match spec_decode_json(bytes@, payload@, last) {
            Ok((t, l)) => r matches Ok(resp) && opt_string_view(resp.text) == t && resp.last == l,
            Err(m) => r matches Err(e) && e.is_failure(m),
        },
{
    if bytes[2] >> 4u8 != 1 {
        return Err(failure("expected JSON response"));
    }
    let (code, text) = match parse_response_json(payload) {
        Some(fields) => fields,
        None => return Err(failure("invalid response JSON")),
    };
    match code {
        Some(c) => {
            if c != 0 && c != 20000000 {
                let mut m = String::from_str("server error ");
                push_decimal_signed(&mut m, c);
                return Err(failure(m.as_str()));
            }
        },
        None => {},
    }
    Ok(Response { text, last })
}

/// The view of an optional string.
pub open spec fn opt_string_view(o: Option<String>) -> Option<Seq<char>> {
    match o {
        Some(s) => Some(s@),
        None => None,
    }
}

/// Law: a server message cut short is never accepted, whatever it held:
/// every strict prefix of an accepted message is refused.
pub proof fn lemma_decode_rejects_prefix(b: Seq<u8>, n: int)
    requires
        spec_decode(b) is Ok,
        0 <= n < b.len(),
    ensures
        spec_decode(b.take(n)) is Err,
{
    let p = b.take(n);
    if n >= 4 {
        assert(p[0] == b[0] && p[1] == b[1] && p[2] == b[2]);
        let flags = b[1] & 15u8;
        let off = (b[0] & 15u8) * 4;
        let last = flags & 2u8 != 0;
        if flags & 1u8 != 0 && off + 4 <= p.len() {
            assert(be_u32_at(p, off) == be_u32_at(b, off));
        }
        let off1 = if flags & 1u8 != 0 {
            off + 4
        } else {
            off
        };
        let off2 = if flags & 4u8 != 0 {
            off1 + 4
        } else {
            off1
        };
        if off2 + 4 <= p.len() {
            assert(be_u32_at(p, off2) == be_u32_at(b, off2));
        }
    }
}

/// Law: a full-client request frame relabelled as a full server response
/// (kind 9, flags kept) is decoded as the JSON it was made from: the
/// compressed payload inflates back to `data`, and the response is final
/// exactly when the sequence number is negative.
pub proof fn lemma_relabelled_request_decodes(sequence: i32, data: Seq<u8>, payload: Seq<u8>)
    requires
        inflates_to(payload, data),
        data.len() <= MAX_PAYLOAD,
        payload.len() <= MAX_PAYLOAD,
    ensures
        ({
            let f = spec_frame(1, sequence, payload);
            let b = f.update(1, 0x90u8 | (f[1] & 15u8));
            spec_decode(b) == spec_decode_json(b, data, sequence < 0)
        }),
{
    let f = spec_frame(1, sequence, payload);
    let b = f.update(1, 0x90u8 | (f[1] & 15u8));
    lemma_frame_read_back(1, sequence, payload);
    let flags: u8 = if sequence < 0 {
        3
    } else {
        1
    };
    assert(f[1] & 15u8 == flags);
    assert((0x90u8 | flags) >> 4u8 == 9 && (0x90u8 | flags) & 15u8 == flags) by (bit_vector)
        requires
            flags == 1 || flags == 3,
    ;
    assert(flags & 1u8 == 1 && flags & 4u8 == 0 && (flags & 2u8 != 0) == (flags == 3))
        by (bit_vector)
        requires
            flags == 1 || flags == 3,
    ;
    assert(b[0] == f[0] && b[2] == f[2]);
    assert(0x11u8 >> 4u8 == 1 && 0x11u8 & 15u8 == 1) by (bit_vector);
    assert(be_u32_at(b, 4) == be_u32_at(f, 4));
    assert(be_u32_at(b, 8) == be_u32_at(f, 8));
    assert((sequence as u32 >= 0x8000_0000u32) == (sequence < 0)) by (bit_vector);
    assert(b[2] & 15u8 == 1);
    assert(b.subrange(12, b.len() as int) =~= payload);
    assert(gunzip_prefix(payload, (MAX_PAYLOAD + 1) as u64) == Ok::<Seq<u8>, Seq<char>>(
        inflated_prefix(data, (MAX_PAYLOAD + 1) as u64),
    ));
}

/// Decodes the server message `bytes`.
pub fn decode(bytes: &[u8]) -> (r: Result<Response, TranscribeError>)
    ensures
        match spec_decode(bytes@) {
            Ok((t, l)) => r matches Ok(resp) && opt_string_view(resp.text) == t && resp.last == l,
            Err(m) => r matches Err(e) && e.is_failure(m),
        },
{
    if bytes.len() < 4 || bytes[0] >> 4u8 != 1 || bytes[0] & 15u8 == 0 {
        return Err(failure("invalid protocol header"));
    }
    let kind = bytes[1] >> 4u8;
    let flags = bytes[1] & 15u8;
    let mut offset: usize = ((bytes[0] & 15u8) as usize) * 4;
    let mut last = flags & 2u8 != 0;
    if kind == 9 {
        if flags & 1u8 != 0 {
            let sequence = read_u32(bytes, &mut offset)?;
            last = last || sequence >= 0x8000_0000;
        }
        if flags & 4u8 != 0 {
            read_u32(bytes, &mut offset)?;
        }
    } else if kind == 15 {
        let code = read_u32(bytes, &mut offset)?;
        let mut m = String::from_str("server error ");
        push_decimal(&mut m, code as u64);
        m.append("; check ASR 2.0 activation, quota and API key");
        return Err(failure(m.as_str()));
    } else {
        return Err(failure("unexpected server message type"));
    }
    let len = read_u32(bytes, &mut offset)? as usize;
    if len > MAX_PAYLOAD || bytes.len() < offset || bytes.len() - offset != len {
        return Err(failure("invalid payload length"));
    }
    let payload = vstd::slice::slice_subrange(bytes, offset, bytes.len());
    let compression = bytes[2] & 15u8;
    if compression == 0 {
        decode_json(bytes, payload, last)
    } else if compression == 1 {
        let decompressed = match gunzip_bounded(payload, (MAX_PAYLOAD + 1) as u64) {
            Ok(d) => d,
            Err(m) => return Err(failure(m.as_str())),
        };
        if decompressed.len() > MAX_PAYLOAD {
            return Err(failure("response too large"));
        }
        decode_json(bytes, decompressed.as_slice(), last)
    } else {
        Err(failure("unsupported compression"))
    }
}


/// Law: the result code of a JSON response decides whether it is
/// accepted, and nothing else does: a response without a code, or with the
/// success code 0 or 20000000, gives its transcript and the frame's final
/// flag; any other code is refused as a server error naming the code.
pub proof fn lemma_response_code(b: Seq<u8>, payload: Seq<u8>, last: bool)
    requires
        b.len() >= 4,
        b[2] >> 4u8 == 1,
        json_response_fields(payload) is Some,
    ensures
        ({
            let (code, text) = json_response_fields(payload)->0;
            &&& (code is None || code == Some(0i64) || code == Some(20000000i64)) ==> spec_decode_json(
                b,
                payload,
                last,
            ) == Ok::<(Option<Seq<char>>, bool), Seq<char>>((text, last))
            &&& (code matches Some(c) && c != 0 && c != 20000000) ==> spec_decode_json(
                b,
                payload,
                last,
            ) == Err::<(Option<Seq<char>>, bool), Seq<char>>(
                "server error "@ + decimal_signed(code->0 as int),
            )
        }),
{
}

/// Law: an uncompressed full server response with a sequence number (kind
/// 9, flags 1 or 3, JSON) decodes by its result code alone: with no code,
/// or code 0 or 20000000, to its transcript, final when the flags say so or
/// the sequence number is negative; with any other code, to a server error.
pub proof fn lemma_plain_response_decodes(b: Seq<u8>)
    requires
        b.len() >= 12,
        b[0] == 0x11u8,
        b[1] == 0x91u8 || b[1] == 0x93u8,
        b[2] == 0x10u8,
        be_u32_at(b, 8) == b.len() - 12,
        b.len() - 12 <= MAX_PAYLOAD,
        json_response_fields(b.subrange(12, b.len() as int)) is Some,
    ensures
        ({
            let (code, text) = json_response_fields(b.subrange(12, b.len() as int))->0;
            let last = b[1] == 0x93u8 || be_u32_at(b, 4) >= 0x8000_0000;
            &&& (code is None || code == Some(0i64) || code == Some(20000000i64)) ==> spec_decode(b)
                == Ok::<(Option<Seq<char>>, bool), Seq<char>>((text, last))
            &&& (code matches Some(c) && c != 0 && c != 20000000) ==> spec_decode(b) == Err::<
                (Option<Seq<char>>, bool),
                Seq<char>,
            >("server error "@ + decimal_signed(code->0 as int))
        }),
{
    let x = b[1];
    assert(0x11u8 >> 4u8 == 1 && 0x11u8 & 15u8 == 1) by (bit_vector);
    assert(0x10u8 >> 4u8 == 1 && 0x10u8 & 15u8 == 0) by (bit_vector);
    assert(x >> 4u8 == 9 && (x & 15u8) & 1u8 != 0 && (x & 15u8) & 4u8 == 0 && (((x & 15u8)
        & 2u8 != 0) == (x == 0x93u8))) by (bit_vector)
        requires
            x == 0x91u8 || x == 0x93u8,
    ;
    let payload = b.subrange(12, b.len() as int);
    let last = b[1] == 0x93u8 || be_u32_at(b, 4) >= 0x8000_0000;
    assert(spec_decode(b) == spec_decode_json(b, payload, last));
    lemma_response_code(b, payload, last);
}


/// Law: PCM is 16-bit little-endian, two bytes per sample in order: the
/// low byte of sample `i` stands at `2i`, its high byte at `2i + 1`.
pub proof fn lemma_pcm_little_endian(samples: Seq<i16>)
    ensures
        spec_pcm(samples).len() == 2 * samples.len(),
        forall|i: int|
            0 <= i < samples.len() ==> spec_pcm(samples)[2 * i] as int + 256 * spec_pcm(
                samples,
            )[2 * i + 1] as int == (#[trigger] samples[i] as u16) as int,
    decreases samples.len(),
{
    lemma_pcm_len(samples);
    if samples.len() > 0 {
        let prev = samples.drop_last();
        lemma_pcm_little_endian(prev);
        let x = samples.last();
        let a = spec_pcm(prev);
        let p = spec_pcm(samples);
        assert(p == a + le16(x));
        assert((x as u16) as u8 as int + 256 * (((x as u16) >> 8u16) as u8) as int == (x as u16) as int)
            by (bit_vector);
        assert forall|i: int| 0 <= i < samples.len() implies p[2 * i] as int + 256 * p[2 * i
            + 1] as int == (#[trigger] samples[i] as u16) as int by {
            if i < prev.len() {
                assert(prev[i] == samples[i]);
                assert(p[2 * i] == a[2 * i] && p[2 * i + 1] == a[2 * i + 1]);
            } else {
                assert(p[2 * i] == le16(x)[0] && p[2 * i + 1] == le16(x)[1]);
            }
        }
    }
}

} // verus!
