//! The JSON request that opens a recognition session, built from the
//! configuration: the audio format and recognition options, the personal
//! vocabulary as hotwords, and semantic smoothing when it is switched on.
//!
//! The vocabulary holds one name per line. Lines are trimmed and blank
//! lines ignored; a name longer than [`MAX_HOTWORD_CHARS`] characters is
//! left out; names are kept in order until [`MAX_HOTWORDS`] names or
//! [`MAX_HOTWORD_BYTES`] UTF-8 bytes are reached, so that the first names
//! matter most.
use vstd::prelude::*;
use crate::config::DoubaoConfig;
use crate::dotool::{split_lines, split_lines_from};
use crate::text::{
    char_utf8_len, digit_char, string_of, trim, trim_bounds, utf8_len, utf8_len_of,
};

verus! {

/// The most names of the vocabulary sent.
pub const MAX_HOTWORDS: usize = 50;

/// The most characters of one name.
pub const MAX_HOTWORD_CHARS: usize = 64;

/// The most UTF-8 bytes of all names together.
pub const MAX_HOTWORD_BYTES: usize = 4096;

/// The UTF-8 bytes of all `words` together.
pub open spec fn words_bytes(words: Seq<Seq<char>>) -> nat
    decreases words.len(),
{
    if words.len() == 0 {
        0
    } else {
        words_bytes(words.drop_last()) + utf8_len(words.last())
    }
}

/// Considers one more vocabulary line: the names kept so far and whether
/// a limit has been reached, before and after.
pub open spec fn select_step(state: (Seq<Seq<char>>, bool), line: Seq<char>) -> (
    Seq<Seq<char>>,
    bool,
) {
    let (kept, stopped) = state;
    let w = trim(line);
    if stopped || w.len() == 0 || w.len() > MAX_HOTWORD_CHARS {
        state
    } else if kept.len() >= MAX_HOTWORDS || words_bytes(kept) + utf8_len(w) > MAX_HOTWORD_BYTES {
        (kept, true)
    } else {
        (kept.push(w), false)
    }
}

/// The names kept from `lines`, in order, and whether a limit was reached.
pub open spec fn select_words(lines: Seq<Seq<char>>) -> (Seq<Seq<char>>, bool)
    decreases lines.len(),
{
    if lines.len() == 0 {
        (Seq::<Seq<char>>::empty(), false)
    } else {
        select_step(select_words(lines.drop_last()), lines.last())
    }
}

/// The names of the vocabulary `hotwords` that are sent.
pub open spec fn vocabulary_of(hotwords: Seq<char>) -> Seq<Seq<char>> {
    select_words(split_lines(hotwords)).0
}

/// A lowercase hexadecimal digit.
pub open spec fn hex_digit(d: nat) -> char {
    if d < 10 {
        digit_char(d)
    } else {
        (d + 87) as char
    }
}

/// One character as it stands inside a JSON string.
pub open spec fn json_escape_char(c: char) -> Seq<char> {
    let u = c as u32;
    if c == '"' {
        seq!['\\', '"']
    } else if c == '\\' {
        seq!['\\', '\\']
    } else if u == 0x08 {
        seq!['\\', 'b']
    } else if u == 0x0c {
        seq!['\\', 'f']
    } else if c == '\n' {
        seq!['\\', 'n']
    } else if c == '\r' {
        seq!['\\', 'r']
    } else if c == '\t' {
        seq!['\\', 't']
    } else if u < 0x20 {
        seq!['\\', 'u', '0', '0', hex_digit((u / 16) as nat), hex_digit((u % 16) as nat)]
    } else {
        seq![c]
    }
}

/// Text as it stands inside a JSON string.
pub open spec fn json_escape(s: Seq<char>) -> Seq<char>
    decreases s.len(),
{
    if s.len() == 0 {
        Seq::<char>::empty()
    } else {
        json_escape(s.drop_last()) + json_escape_char(s.last())
    }
}

/// Law: escaped text holds no control character, so the request stays one
/// line of valid JSON string content whatever the names hold.
pub proof fn lemma_json_escape_printable(s: Seq<char>)
    ensures
        forall|i: int|
            0 <= i < json_escape(s).len() ==> (#[trigger] json_escape(s)[i] as u32) >= 0x20,
    decreases s.len(),
{
    if s.len() > 0 {
        lemma_json_escape_printable(s.drop_last());
        let a = json_escape(s.drop_last());
        let b = json_escape_char(s.last());
        let u = s.last() as u32;
        if u < 0x20 {
            assert(hex_digit((u / 16) as nat) as u32 >= 0x20);
            assert(hex_digit((u % 16) as nat) as u32 >= 0x20);
        }
        assert forall|i: int| 0 <= i < b.len() implies (#[trigger] b[i] as u32) >= 0x20 by {}
        assert forall|i: int| 0 <= i < (a + b).len() implies (#[trigger] (a + b)[i] as u32)
            >= 0x20 by {
            if i >= a.len() {
                assert((a + b)[i] == b[i - a.len()]);
            } else {
                assert((a + b)[i] == a[i]);
            }
        }
    }
}

/// One hotword entry of the request context.
pub open spec fn word_item(w: Seq<char>) -> Seq<char> {
    "{\"word\":\""@ + json_escape(w) + "\"}"@
}

/// The hotword entries, separated by commas.
pub open spec fn word_items(words: Seq<Seq<char>>) -> Seq<char>
    decreases words.len(),
{
    if words.len() == 0 {
        Seq::<char>::empty()
    } else if words.len() == 1 {
        word_item(words[0])
    } else {
        word_items(words.drop_last()) + seq![','] + word_item(words.last())
    }
}

/// The request context that carries the hotwords, itself JSON.
pub open spec fn hotwords_context(words: Seq<Seq<char>>) -> Seq<char> {
    "{\"hotwords\":["@ + word_items(words) + "]}"@
}

/// The JSON of the full-client request: 16 kHz mono 16-bit raw PCM; the
/// big model with inverse text normalisation, punctuation, utterances, full
/// (cumulative) results and a second, non-streaming pass; the hotwords as
/// the corpus context when there are any; semantic smoothing (`enable_ddc`)
/// exactly when `smoothing` is set.
pub open spec fn request_json(words: Seq<Seq<char>>, smoothing: bool) -> Seq<char> {
    "{\"audio\":{\"bits\":16,\"channel\":1,\"codec\":\"raw\",\"format\":\"pcm\",\"rate\":16000},\"request\":{"@ + (if words.len() > 0 {
        "\"corpus\":{\"context\":\""@ + json_escape(hotwords_context(words)) + "\"},"@
    } else {
        Seq::<char>::empty()
    }) + (if smoothing {
        "\"enable_ddc\":true,"@
    } else {
        Seq::<char>::empty()
    }) + "\"enable_itn\":true,\"enable_nonstream\":true,\"enable_punc\":true,\"model_name\":\"bigmodel\",\"result_type\":\"full\",\"show_utterances\":true},\"user\":{\"uid\":\"smellytype\"}}"@
}

/// The JSON of the full-client request for `config`.
pub open spec fn spec_init_payload(config: DoubaoConfig) -> Seq<char> {
    request_json(vocabulary_of(config.hotwords@), config.enable_ddc)
}

/// A lowercase hexadecimal digit.
fn hex_char(d: u32) -> (c: char)
    requires
        d < 16,
    ensures
        c == hex_digit(d as nat),
{
    if d < 10 {
        ((d + 48) as u8) as char
    } else {
        ((d + 87) as u8) as char
    }
}

/// Appends `c` as it stands inside a JSON string.
fn push_escaped_char(out: &mut String, c: char)
    ensures
        final(out)@ == old(out)@ + json_escape_char(c),
{
    let u = c as u32;
    if c == '"' {
        out.push('\\');
        out.push('"');
    } else if c == '\\' {
        out.push('\\');
        out.push('\\');
    } else if u == 0x08 {
        out.push('\\');
        out.push('b');
    } else if u == 0x0c {
        out.push('\\');
        out.push('f');
    } else if c == '\n' {
        out.push('\\');
        out.push('n');
    } else if c == '\r' {
        out.push('\\');
        out.push('r');
    } else if c == '\t' {
        out.push('\\');
        out.push('t');
    } else if u < 0x20 {
        out.push('\\');
        out.push('u');
        out.push('0');
        out.push('0');
        out.push(hex_char(u / 16));
        out.push(hex_char(u % 16));
    } else {
        out.push(c);
    }
    assert(out@ =~= old(out)@ + json_escape_char(c));
}

/// Appends `s` as it stands inside a JSON string.
pub fn push_json_escaped(out: &mut String, s: &str)
    ensures
        final(out)@ == old(out)@ + json_escape(s@),
{
    let ghost start = out@;
    assert(s@.take(0) =~= Seq::<char>::empty());
    for c in iter: s.chars()
        invariant
            iter.seq() == s@,
            out@ == start + json_escape(s@.take(iter.index() as int)),
    {
        let ghost k = iter.index() as int;
        push_escaped_char(out, c);
        proof {
            let t = s@.take(k + 1);
            assert(t.drop_last() =~= s@.take(k));
            assert(t.last() == c);
        }
    }
    assert(s@.take(s@.len() as int) =~= s@);
}

/// The JSON of the full-client request that opens a session for `config`.
pub fn init_payload(config: &DoubaoConfig) -> (s: String)
    ensures
        s@ == spec_init_payload(*config),
{
    let words = vocabulary(config.hotwords.as_str());
    let ghost ws = views(words@);
    let mut context = String::from_str("{\"hotwords\":[");
    let mut j: usize = 0;
    while j < words.len()
        invariant
            j <= words@.len(),
            ws == views(words@),
            context@ == "{\"hotwords\":["@ + word_items(ws.take(j as int)),
        decreases words@.len() - j,
    {
        let ghost before = context@;
        if j > 0 {
            context.push(',');
        }
        context.append("{\"word\":\"");
        push_json_escaped(&mut context, words[j].as_str());
        context.append("\"}");
        proof {
            let t = ws.take(j + 1);
            assert(t.drop_last() =~= ws.take(j as int));
            assert(t.last() == words@[j as int]@);
            if j == 0 {
                assert(t.len() == 1);
                assert(ws.take(0).len() == 0);
                assert(word_items(ws.take(0)) =~= Seq::<char>::empty());
            }
            assert(context@ =~= "{\"hotwords\":["@ + word_items(t));
        }
        j = j + 1;
    }
    context.append("]}");
    assert(ws.take(words@.len() as int) =~= ws);
    let mut s = String::from_str("{\"audio\":{\"bits\":16,\"channel\":1,\"codec\":\"raw\",\"format\":\"pcm\",\"rate\":16000},\"request\":{");
    if words.len() > 0 {
        s.append("\"corpus\":{\"context\":\"");
        push_json_escaped(&mut s, context.as_str());
        s.append("\"},");
    }
    if config.enable_ddc {
        s.append("\"enable_ddc\":true,");
    }
    s.append("\"enable_itn\":true,\"enable_nonstream\":true,\"enable_punc\":true,\"model_name\":\"bigmodel\",\"result_type\":\"full\",\"show_utterances\":true},\"user\":{\"uid\":\"smellytype\"}}");
    proof {
        assert(context@ =~= hotwords_context(ws));
    }
    assert(s@ =~= spec_init_payload(*config));
    s
}

/// The views of strings.
pub open spec fn views(v: Seq<String>) -> Seq<Seq<char>> {
    Seq::new(v.len(), |i: int| v[i]@)
}

/// Law: the names sent keep the limits: at most [`MAX_HOTWORDS`] of them,
/// each trimmed, not empty and at most [`MAX_HOTWORD_CHARS`] characters
/// long, with at most [`MAX_HOTWORD_BYTES`] UTF-8 bytes in all.
pub proof fn lemma_vocabulary_limits(hotwords: Seq<char>)
    ensures
        vocabulary_of(hotwords).len() <= MAX_HOTWORDS,
        words_bytes(vocabulary_of(hotwords)) <= MAX_HOTWORD_BYTES,
        forall|i: int|
            0 <= i < vocabulary_of(hotwords).len() ==> {
                let w = #[trigger] vocabulary_of(hotwords)[i];
                &&& 0 < w.len() <= MAX_HOTWORD_CHARS
                &&& trim(w) == w
            },
{
    lemma_select_limits(split_lines(hotwords));
}

/// Trimming a trimmed text changes nothing.
proof fn lemma_trim_idempotent(s: Seq<char>)
    ensures
        trim(trim(s)) == trim(s),
{
    lemma_trim_start_of_trimmed(s);
    lemma_trim_start_end(crate::text::trim_start(s));
}

/// Trimming the end of a text that starts without white space keeps that.
proof fn lemma_trim_start_end(s: Seq<char>)
    requires
        s.len() == 0 || !crate::text::is_whitespace(s[0]),
    ensures
        crate::text::trim_end(s).len() == 0 || !crate::text::is_whitespace(
            crate::text::trim_end(s)[0],
        ),
        crate::text::trim_end(s).len() == 0 || !crate::text::is_whitespace(
            crate::text::trim_end(s).last(),
        ),
    decreases s.len(),
{
    if s.len() > 0 && crate::text::is_whitespace(s.last()) {
        if s.len() > 1 {
            assert(s.drop_last()[0] == s[0]);
        }
        lemma_trim_start_end(s.drop_last());
    }
}

/// A text starts without white space once its start is trimmed.
proof fn lemma_trim_start_of_trimmed(s: Seq<char>)
    ensures
        crate::text::trim_start(s).len() == 0 || !crate::text::is_whitespace(
            crate::text::trim_start(s)[0],
        ),
    decreases s.len(),
{
    if s.len() > 0 && crate::text::is_whitespace(s[0]) {
        lemma_trim_start_of_trimmed(s.drop_first());
    }
}

/// The selection keeps the limits.
proof fn lemma_select_limits(lines: Seq<Seq<char>>)
    ensures
        select_words(lines).0.len() <= MAX_HOTWORDS,
        words_bytes(select_words(lines).0) <= MAX_HOTWORD_BYTES,
        forall|i: int|
            0 <= i < select_words(lines).0.len() ==> {
                let w = #[trigger] select_words(lines).0[i];
                &&& 0 < w.len() <= MAX_HOTWORD_CHARS
                &&& trim(w) == w
            },
    decreases lines.len(),
{
    if lines.len() > 0 {
        lemma_select_limits(lines.drop_last());
        let prev = select_words(lines.drop_last());
        let w = trim(lines.last());
        lemma_trim_idempotent(lines.last());
        if !(prev.1 || w.len() == 0 || w.len() > MAX_HOTWORD_CHARS) && !(prev.0.len()
            >= MAX_HOTWORDS || words_bytes(prev.0) + utf8_len(w) > MAX_HOTWORD_BYTES) {
            let next = prev.0.push(w);
            assert(next.drop_last() =~= prev.0);
            assert forall|i: int| 0 <= i < next.len() implies {
                let x = #[trigger] next[i];
                &&& 0 < x.len() <= MAX_HOTWORD_CHARS
                &&& trim(x) == x
            } by {
                if i < prev.0.len() {
                    assert(next[i] == prev.0[i]);
                }
            }
        }
    }
}

/// Considers one more vocabulary line.
fn consider_line(
    kept: &mut Vec<String>,
    kept_bytes: &mut usize,
    stopped: &mut bool,
    line: &Vec<char>,
)
    requires
        *old(kept_bytes) == words_bytes(views(old(kept)@)),
        *old(kept_bytes) <= MAX_HOTWORD_BYTES,
    ensures
        (views(final(kept)@), *final(stopped)) == select_step(
            (views(old(kept)@), *old(stopped)),
            line@,
        ),
        *final(kept_bytes) == words_bytes(views(final(kept)@)),
        *final(kept_bytes) <= MAX_HOTWORD_BYTES,
{
    if *stopped {
        return;
    }
    let (start, end) = trim_bounds(line);
    let n = end - start;
    if n == 0 || n > MAX_HOTWORD_CHARS {
        return;
    }
    if kept.len() >= MAX_HOTWORDS {
        *stopped = true;
        return;
    }
    let b = utf8_len_of(line, start, end);
    if *kept_bytes + b > MAX_HOTWORD_BYTES {
        *stopped = true;
        return;
    }
    let word = string_of(line, start, end);
    let ghost before = views(kept@);
    kept.push(word);
    *kept_bytes = *kept_bytes + b;
    proof {
        assert(views(kept@) =~= before.push(trim(line@)));
        assert(views(kept@).drop_last() =~= before);
    }
}

/// The names of the vocabulary `hotwords` that are sent, in order.
pub fn vocabulary(hotwords: &str) -> (words: Vec<String>)
    ensures
        views(words@) == vocabulary_of(hotwords@),
{
    let chars = crate::text::chars_of(hotwords);
    let mut kept: Vec<String> = Vec::new();
    let mut kept_bytes: usize = 0;
    let mut stopped = false;
    let mut cur: Vec<char> = Vec::new();
    let ghost mut done: Seq<Seq<char>> = Seq::empty();
    let mut i: usize = 0;
    assert(hotwords@.skip(0) =~= hotwords@);
    assert(views(kept@) =~= Seq::<Seq<char>>::empty());
    while i < chars.len()
        invariant
            chars@ == hotwords@,
            i <= chars@.len(),
            split_lines(hotwords@) == done + split_lines_from(hotwords@.skip(i as int), cur@),
            (views(kept@), stopped) == select_words(done),
            kept_bytes == words_bytes(views(kept@)),
            kept_bytes <= MAX_HOTWORD_BYTES,
        decreases chars@.len() - i,
    {
        let c = chars[i];
        let ghost rest = hotwords@.skip(i as int);
        assert(rest[0] == c);
        assert(rest.drop_first() =~= hotwords@.skip(i + 1));
        if c == '\n' {
            consider_line(&mut kept, &mut kept_bytes, &mut stopped, &cur);
            proof {
                let d2 = done.push(cur@);
                assert(d2.drop_last() =~= done);
                assert(done + seq![cur@] + split_lines_from(hotwords@.skip(i + 1), Seq::empty())
                    =~= d2 + split_lines_from(hotwords@.skip(i + 1), Seq::empty()));
                done = d2;
            }
            cur = Vec::new();
            assert(cur@ =~= Seq::<char>::empty());
        } else {
            cur.push(c);
        }
        i = i + 1;
    }
    assert(hotwords@.skip(i as int).len() == 0);
    if cur.len() > 0 {
        consider_line(&mut kept, &mut kept_bytes, &mut stopped, &cur);
        proof {
            let d2 = done.push(cur@);
            assert(d2.drop_last() =~= done);
            assert(done + seq![cur@] =~= d2);
            done = d2;
        }
    } else {
        assert(done + Seq::<Seq<char>>::empty() =~= done);
    }
    kept
}


/// The value of a hexadecimal digit of either case.
pub open spec fn hex_value(c: char) -> Option<nat> {
    let u = c as u32;
    if 48 <= u <= 57 {
        Some((u - 48) as nat)
    } else if 97 <= u <= 102 {
        Some((u - 87) as nat)
    } else if 65 <= u <= 70 {
        Some((u - 55) as nat)
    } else {
        None
    }
}

/// The value of the four hexadecimal digits at the start of `s`.
pub open spec fn hex4_value(s: Seq<char>) -> Option<nat> {
    if s.len() < 4 {
        None
    } else {
        match (hex_value(s[0]), hex_value(s[1]), hex_value(s[2]), hex_value(s[3])) {
            (Some(a), Some(b), Some(c), Some(d)) => Some(a * 4096 + b * 256 + c * 16 + d),
            _ => None,
        }
    }
}

/// `c` in front of the text read, if it was read.
pub open spec fn prepend_read(c: char, r: Option<Seq<char>>) -> Option<Seq<char>> {
    match r {
        Some(t) => Some(seq![c] + t),
        None => None,
    }
}

/// The character that the one-letter escape `\e` stands for in a JSON
/// string, if `e` is such a letter.
pub open spec fn json_short_escape(e: char) -> Option<char> {
    if e == '"' {
        Some('"')
    } else if e == '\\' {
        Some('\\')
    } else if e == '/' {
        Some('/')
    } else if e == 'b' {
        Some('\u{8}')
    } else if e == 'f' {
        Some('\u{c}')
    } else if e == 'n' {
        Some('\n')
    } else if e == 'r' {
        Some('\r')
    } else if e == 't' {
        Some('\t')
    } else {
        None
    }
}

/// The text that `s` stands for when read as the content of a JSON string
/// (RFC 8259, section 7), or `None` when `s` is not valid content: an
/// unescaped quote, backslash or control character, or an unknown escape.
/// Escapes of UTF-16 surrogates are refused, so this reader accepts less
/// than a full JSON reader and agrees with it on what it accepts.
pub open spec fn json_unescape(s: Seq<char>) -> Option<Seq<char>>
    decreases s.len(),
{
    if s.len() == 0 {
        Some(Seq::<char>::empty())
    } else if s[0] == '\\' {
        if s.len() < 2 {
            None
        } else if s[1] == 'u' {
            match hex4_value(s.subrange(2, s.len() as int)) {
                Some(v) => if v < 0xD800 || 0xE000 <= v {
                    prepend_read(v as char, json_unescape(s.subrange(6, s.len() as int)))
                } else {
                    None
                },
                None => None,
            }
        } else {
            match json_short_escape(s[1]) {
                Some(c) => prepend_read(c, json_unescape(s.subrange(2, s.len() as int))),
                None => None,
            }
        }
    } else if s[0] == '"' || (s[0] as u32) < 0x20 {
        None
    } else {
        prepend_read(s[0], json_unescape(s.drop_first()))
    }
}

/// Escaping text piece by piece is escaping it whole.
proof fn lemma_json_escape_concat(a: Seq<char>, b: Seq<char>)
    ensures
        json_escape(a + b) == json_escape(a) + json_escape(b),
    decreases b.len(),
{
    if b.len() == 0 {
        assert(a + b =~= a);
        assert(json_escape(a) + json_escape(b) =~= json_escape(a));
    } else {
        lemma_json_escape_concat(a, b.drop_last());
        assert((a + b).drop_last() =~= a + b.drop_last());
        assert((a + b).last() == b.last());
        assert(json_escape(a) + json_escape(b.drop_last()) + json_escape_char(b.last())
            =~= json_escape(a) + (json_escape(b.drop_last()) + json_escape_char(b.last())));
    }
}

/// A lowercase hexadecimal digit reads back as its value.
proof fn lemma_hex_digit_value(d: nat)
    requires
        d < 16,
    ensures
        hex_value(hex_digit(d)) == Some(d),
{
}

/// Reading an escaped character, then more content, gives the character
/// in front of what the rest reads as.
proof fn lemma_unescape_char(c: char, t: Seq<char>)
    ensures
        json_unescape(json_escape_char(c) + t) == prepend_read(c, json_unescape(t)),
{
    let e = json_escape_char(c);
    let s = e + t;
    let u = c as u32;
    if c == '"' || c == '\\' || u == 0x08 || u == 0x0c || c == '\n' || c == '\r' || c == '\t' {
        assert(s[0] == '\\');
        assert(s[1] == e[1]);
        assert(s.subrange(2, s.len() as int) =~= t);
        if u == 0x08 {
            assert(c == '\u{8}');
        }
        if u == 0x0c {
            assert(c == '\u{c}');
        }
    } else if u < 0x20 {
        let hi = (u / 16) as nat;
        let lo = (u % 16) as nat;
        lemma_hex_digit_value(hi);
        lemma_hex_digit_value(lo);
        assert(s[0] == '\\' && s[1] == 'u');
        let r = s.subrange(2, s.len() as int);
        assert(r[0] == '0' && r[1] == '0' && r[2] == hex_digit(hi) && r[3] == hex_digit(lo));
        assert(hex_value('0') == Some(0nat));
        assert(hex4_value(r) == Some(hi * 16 + lo));
        assert(hi * 16 + lo == u);
        assert((u as nat) as char == c);
        assert(s.subrange(6, s.len() as int) =~= t);
    } else {
        assert(s[0] == c);
        assert(s.drop_first() =~= t);
    }
}

/// Law: escaped text is valid JSON string content that reads back as
/// exactly the text, so every name reaches the recognizer unchanged; and
/// every character other than a quote, a backslash or a control character
/// stands for itself.
pub proof fn lemma_json_escape_reads_back(s: Seq<char>)
    ensures
        json_unescape(json_escape(s)) == Some(s),
        forall|c: char|
            c != '"' && c != '\\' && (c as u32) >= 0x20 ==> #[trigger] json_escape_char(c)
                == seq![c],
    decreases s.len(),
{
    if s.len() > 0 {
        let rest = s.drop_first();
        lemma_json_escape_reads_back(rest);
        assert(s =~= seq![s[0]] + rest);
        lemma_json_escape_concat(seq![s[0]], rest);
        let one = seq![s[0]];
        assert(one.drop_last() =~= Seq::<char>::empty());
        assert(one.last() == s[0]);
        assert(json_escape(one.drop_last()).len() == 0);
        assert(json_escape(one) == json_escape(one.drop_last()) + json_escape_char(s[0]));
        assert(json_escape(one) =~= json_escape_char(s[0]));
        lemma_unescape_char(s[0], json_escape(rest));
        assert(seq![s[0]] + rest =~= s);
    }
}


/// Law: the opening request always describes the audio as 16 kHz mono
/// 16-bit raw PCM, and always asks the big model for inverse text
/// normalisation, a second non-streaming pass, punctuation, full results
/// and utterances: whatever the configuration, the JSON starts with the
/// audio object and ends with those options set to `true`. Semantic
/// smoothing is asked for, right before them, exactly when it is switched
/// on.
pub proof fn lemma_request_options(config: DoubaoConfig)
    ensures
        ({
            let p = spec_init_payload(config);
            let head = "{\"audio\":{\"bits\":16,\"channel\":1,\"codec\":\"raw\",\"format\":\"pcm\",\"rate\":16000},\"request\":{"@;
            let tail = "\"enable_itn\":true,\"enable_nonstream\":true,\"enable_punc\":true,\"model_name\":\"bigmodel\",\"result_type\":\"full\",\"show_utterances\":true},\"user\":{\"uid\":\"smellytype\"}}"@;
            let ddc = "\"enable_ddc\":true,"@;
            &&& p.len() >= head.len() + tail.len()
            &&& p.subrange(0, head.len() as int) == head
            &&& p.subrange(p.len() - tail.len(), p.len() as int) == tail
            &&& (p.subrange(p.len() - tail.len() - ddc.len(), p.len() - tail.len()) == ddc
                <==> config.enable_ddc)
        }),
{
    let words = vocabulary_of(config.hotwords@);
    let p = spec_init_payload(config);
    let head = "{\"audio\":{\"bits\":16,\"channel\":1,\"codec\":\"raw\",\"format\":\"pcm\",\"rate\":16000},\"request\":{"@;
    let tail = "\"enable_itn\":true,\"enable_nonstream\":true,\"enable_punc\":true,\"model_name\":\"bigmodel\",\"result_type\":\"full\",\"show_utterances\":true},\"user\":{\"uid\":\"smellytype\"}}"@;
    let ddc = "\"enable_ddc\":true,"@;
    reveal_strlit("{\"audio\":{\"bits\":16,\"channel\":1,\"codec\":\"raw\",\"format\":\"pcm\",\"rate\":16000},\"request\":{");
    reveal_strlit("\"enable_itn\":true,\"enable_nonstream\":true,\"enable_punc\":true,\"model_name\":\"bigmodel\",\"result_type\":\"full\",\"show_utterances\":true},\"user\":{\"uid\":\"smellytype\"}}");
    reveal_strlit("\"enable_ddc\":true,");
    reveal_strlit("\"corpus\":{\"context\":\"");
    reveal_strlit("\"},");
    let corpus = if words.len() > 0 {
        "\"corpus\":{\"context\":\""@ + json_escape(hotwords_context(words)) + "\"},"@
    } else {
        Seq::<char>::empty()
    };
    let smooth = if config.enable_ddc {
        ddc
    } else {
        Seq::<char>::empty()
    };
    assert(p == head + corpus + smooth + tail);
    let before = head + corpus;
    assert(p =~= before + smooth + tail);
    assert(p.subrange(0, head.len() as int) =~= head);
    assert(p.subrange(p.len() - tail.len(), p.len() as int) =~= tail);
    if config.enable_ddc {
        assert(p.subrange(p.len() - tail.len() - ddc.len(), p.len() - tail.len()) =~= ddc);
    } else {
        let w = p.subrange(p.len() - tail.len() - ddc.len(), p.len() - tail.len());
        assert(p.len() - tail.len() == before.len());
        if words.len() > 0 {
            assert(before[before.len() - 2] == '}');
            assert(w[ddc.len() - 2] == before[before.len() - 2]);
        } else {
            assert(before =~= head);
            assert(w[ddc.len() - 1] == head[head.len() - 1]);
        }
        assert(w != ddc);
    }
    assert(head.len() == 86 && ddc.len() == 18);
    assert(p.len() == head.len() + corpus.len() + smooth.len() + tail.len());
    assert(p.subrange(0, head.len() as int) == head);
    assert(p.subrange(p.len() - tail.len(), p.len() as int) == tail);
}


/// The vocabulary lines that are names fit to send: each line trimmed,
/// keeping those that are not empty and at most [`MAX_HOTWORD_CHARS`]
/// characters long, in order.
pub open spec fn candidate_names(lines: Seq<Seq<char>>) -> Seq<Seq<char>>
    decreases lines.len(),
{
    if lines.len() == 0 {
        Seq::<Seq<char>>::empty()
    } else {
        let earlier = candidate_names(lines.drop_last());
        let w = trim(lines.last());
        if 0 < w.len() <= MAX_HOTWORD_CHARS {
            earlier.push(w)
        } else {
            earlier
        }
    }
}

/// The selection so far keeps a prefix of the candidates, all of them
/// unless a limit stopped it.
proof fn lemma_select_prefix(lines: Seq<Seq<char>>)
    ensures
        ({
            let (kept, stopped) = select_words(lines);
            let c = candidate_names(lines);
            &&& kept.len() <= c.len()
            &&& kept == c.take(kept.len() as int)
            &&& !stopped ==> kept == c
            &&& stopped ==> kept.len() < c.len() && (kept.len() == MAX_HOTWORDS
                || words_bytes(kept) + utf8_len(c[kept.len() as int]) > MAX_HOTWORD_BYTES)
        }),
    decreases lines.len(),
{
    if lines.len() == 0 {
        assert(select_words(lines).0.take(0) =~= Seq::<Seq<char>>::empty());
    } else {
        let prev = lines.drop_last();
        lemma_select_prefix(prev);
        lemma_select_limits(prev);
        let c0 = candidate_names(prev);
        let c = candidate_names(lines);
        let w = trim(lines.last());
        let fit = 0 < w.len() <= MAX_HOTWORD_CHARS;
        let (kept, stopped) = select_words(prev);
        let k = kept.len() as int;
        assert(select_words(lines) == select_step((kept, stopped), lines.last()));
        assert(lines.last() == lines[lines.len() - 1]);
        if fit {
            assert(c == c0.push(w));
            assert(c.take(k) =~= c0.take(k));
            if stopped {
                assert(select_words(lines) == (kept, stopped));
                assert(c[k] == c0[k]);
            } else if kept.len() >= MAX_HOTWORDS || words_bytes(kept) + utf8_len(w)
                > MAX_HOTWORD_BYTES {
                assert(select_words(lines) == (kept, true));
                assert(kept == c0);
                assert(c[k] == w);
            } else {
                assert(select_words(lines) == (kept.push(w), false));
                assert(kept.push(w) =~= c);
                assert(c.take(c.len() as int) =~= c);
            }
        } else {
            assert(c == c0);
            assert(select_words(lines) == (kept, stopped));
        }
    }
}

/// Law: the names sent are the first fit names of the vocabulary, in
/// order, none skipped and none added; the list is cut short only by a
/// limit: it already holds [`MAX_HOTWORDS`] names, or the next fit name
/// would take the names past [`MAX_HOTWORD_BYTES`] UTF-8 bytes.
pub proof fn lemma_vocabulary_keeps_order(hotwords: Seq<char>)
    ensures
        ({
            let v = vocabulary_of(hotwords);
            let c = candidate_names(split_lines(hotwords));
            &&& v.len() <= c.len()
            &&& v == c.take(v.len() as int)
            &&& v.len() < c.len() ==> (v.len() == MAX_HOTWORDS || words_bytes(v) + utf8_len(
                c[v.len() as int],
            ) > MAX_HOTWORD_BYTES)
        }),
{
    lemma_select_prefix(split_lines(hotwords));
}


/// Where the entry of the `i`-th name starts in the hotword entries of
/// `ws`: each entry `{"word":"..."}` is 11 characters around the escaped
/// name, and entries are separated by one comma.
pub open spec fn item_offset(ws: Seq<Seq<char>>, i: int) -> int
    decreases i,
{
    if i <= 0 {
        0
    } else {
        item_offset(ws, i - 1) + json_escape(ws[i - 1]).len() + 12
    }
}

/// Offsets depend only on the names before them.
proof fn lemma_item_offset_prefix(ws: Seq<Seq<char>>, vs: Seq<Seq<char>>, i: int)
    requires
        0 <= i <= vs.len(),
        i <= ws.len(),
        forall|j: int| 0 <= j < i ==> ws[j] == vs[j],
    ensures
        item_offset(ws, i) == item_offset(vs, i),
    decreases i,
{
    if i > 0 {
        lemma_item_offset_prefix(ws, vs, i - 1);
    }
}

/// Law: the hotword entries list every name, in order, each exactly once:
/// the `i`-th entry, at [`item_offset`], is `{"word":"`, the escaped name
/// and `"}`; entries are separated by single commas, and nothing else is
/// there.
/// The entry of the `i`-th name, as the hotword entries spell it.
pub open spec fn listed_entry(ws: Seq<Seq<char>>, i: int) -> Seq<char> {
    "{\"word\":\""@ + json_escape(ws[i]) + "\"}"@
}

/// Whether the entry of the `i`-th name stands at its offset in `items`,
/// after a comma unless it is the first.
pub open spec fn entry_listed(items: Seq<char>, ws: Seq<Seq<char>>, i: int) -> bool {
    &&& item_offset(ws, i) + json_escape(ws[i]).len() + 11 <= items.len()
    &&& items.subrange(item_offset(ws, i), item_offset(ws, i) + json_escape(ws[i]).len() + 11)
        == listed_entry(ws, i)
    &&& i > 0 ==> items[item_offset(ws, i) - 1] == ','
}

/// A piece of the front of a text is a piece of the text.
proof fn lemma_subrange_front(a: Seq<char>, b: Seq<char>, lo: int, hi: int)
    requires
        0 <= lo <= hi <= a.len(),
    ensures
        (a + b).subrange(lo, hi) == a.subrange(lo, hi),
        lo < hi ==> (a + b)[lo] == a[lo],
{
    assert((a + b).subrange(lo, hi) =~= a.subrange(lo, hi));
}

/// An entry listed among the earlier names stays listed once one more
/// name is added.
proof fn lemma_entry_kept(ws: Seq<Seq<char>>, i: int)
    requires
        ws.len() > 1,
        0 <= i < ws.len() - 1,
        entry_listed(word_items(ws.drop_last()), ws.drop_last(), i),
        word_items(ws.drop_last()).len() == item_offset(ws.drop_last(), ws.len() - 1) - 1,
    ensures
        entry_listed(word_items(ws), ws, i),
{
    let prev = ws.drop_last();
    let a = word_items(prev);
    let it = word_items(ws);
    assert(it == a + (seq![','] + word_item(ws.last())));
    assert(prev[i] == ws[i]);
    lemma_item_offset_prefix(ws, prev, i);
    lemma_item_offset_prefix(ws, prev, i + 1);
    lemma_item_offset_monotone(prev, i + 1, ws.len() - 1);
    let lo = item_offset(ws, i);
    let hi = lo + json_escape(ws[i]).len() + 11;
    assert(item_offset(prev, i + 1) == item_offset(prev, i) + json_escape(prev[i]).len() + 12);
    lemma_item_offset_monotone(ws, 0, i);
    if i > 0 {
        lemma_item_offset_monotone(ws, 0, i - 1);
        assert(lo == item_offset(ws, i - 1) + json_escape(ws[i - 1]).len() + 12);
    }
    lemma_subrange_front(a, seq![','] + word_item(ws.last()), lo, hi);
    if i > 0 {
        lemma_subrange_front(a, seq![','] + word_item(ws.last()), lo - 1, hi);
    }
}

/// Law: the hotword entries list every name, in order, each exactly once:
/// the `i`-th entry, at [`item_offset`], is `{"word":"`, the escaped name
/// and `"}`; entries are separated by single commas, and nothing else is
/// there.
pub proof fn lemma_word_items_list(ws: Seq<Seq<char>>)
    ensures
        ws.len() == 0 ==> word_items(ws).len() == 0,
        ws.len() > 0 ==> word_items(ws).len() == item_offset(ws, ws.len() as int) - 1,
        forall|i: int| 0 <= i < ws.len() ==> #[trigger] entry_listed(word_items(ws), ws, i),
    decreases ws.len(),
{
    reveal_strlit("{\"word\":\"");
    reveal_strlit("\"}");
    let n = ws.len() as int;
    if n == 1 {
        let it = word_items(ws);
        assert(it == word_item(ws[0]));
        assert(item_offset(ws, 0) == 0);
        assert(item_offset(ws, 1) == json_escape(ws[0]).len() + 12);
        assert(it.subrange(0, json_escape(ws[0]).len() + 11int) =~= it);
        assert(entry_listed(it, ws, 0));
    } else if n > 1 {
        let prev = ws.drop_last();
        lemma_word_items_list(prev);
        let a = word_items(prev);
        let last = ws[n - 1];
        let it = word_items(ws);
        assert(ws.last() == last);
        assert(it == a + seq![','] + word_item(last));
        lemma_item_offset_prefix(ws, prev, n - 1);
        let o = item_offset(ws, n - 1);
        assert(o == a.len() + 1);
        assert(item_offset(ws, n) == o + json_escape(last).len() + 12);
        assert forall|i: int| 0 <= i < n implies #[trigger] entry_listed(it, ws, i) by {
            if i < n - 1 {
                assert(entry_listed(a, prev, i));
                lemma_entry_kept(ws, i);
            } else {
                assert(it.subrange(o, o + json_escape(last).len() + 11) =~= word_item(last));
                assert(it[o - 1] == ',');
            }
        }
    }
}

/// Offsets grow with the index.
proof fn lemma_item_offset_monotone(ws: Seq<Seq<char>>, i: int, j: int)
    requires
        0 <= i <= j,
    ensures
        item_offset(ws, i) <= item_offset(ws, j),
    decreases j - i,
{
    if i < j {
        lemma_item_offset_monotone(ws, i, j - 1);
    }
}


/// Law: the vocabulary reaches the request as its corpus context, and only
/// when there are names to send: right after the audio object, the request
/// holds `"corpus":{"context":"`, then the escaped context, which reads
/// back as the JSON `{"hotwords":[` + the hotword entries + `]}`, then
/// `"},`; with no names, the request holds only the options (and the
/// smoothing switch) after the audio object.
pub proof fn lemma_request_hotwords(config: DoubaoConfig)
    ensures
        ({
            let p = spec_init_payload(config);
            let words = vocabulary_of(config.hotwords@);
            let ctx = "{\"hotwords\":["@ + word_items(words) + "]}"@;
            let e = json_escape(ctx);
            let d: int = if config.enable_ddc { 18 } else { 0 };
            &&& words.len() == 0 ==> p.len() == 86 + d + 158
            &&& words.len() > 0 ==> {
                &&& p.len() == 86 + 21 + e.len() + 3 + d + 158
                &&& p.subrange(86, 107) == "\"corpus\":{\"context\":\""@
                &&& p.subrange(107, 107int + e.len()) == e
                &&& p.subrange(107int + e.len(), 110int + e.len()) == "\"},"@
                &&& json_unescape(e) == Some(ctx)
            }
        }),
{
    let words = vocabulary_of(config.hotwords@);
    let p = spec_init_payload(config);
    let head = "{\"audio\":{\"bits\":16,\"channel\":1,\"codec\":\"raw\",\"format\":\"pcm\",\"rate\":16000},\"request\":{"@;
    let tail = "\"enable_itn\":true,\"enable_nonstream\":true,\"enable_punc\":true,\"model_name\":\"bigmodel\",\"result_type\":\"full\",\"show_utterances\":true},\"user\":{\"uid\":\"smellytype\"}}"@;
    let ddc = "\"enable_ddc\":true,"@;
    let open = "\"corpus\":{\"context\":\""@;
    let close = "\"},"@;
    reveal_strlit("{\"audio\":{\"bits\":16,\"channel\":1,\"codec\":\"raw\",\"format\":\"pcm\",\"rate\":16000},\"request\":{");
    reveal_strlit("\"enable_itn\":true,\"enable_nonstream\":true,\"enable_punc\":true,\"model_name\":\"bigmodel\",\"result_type\":\"full\",\"show_utterances\":true},\"user\":{\"uid\":\"smellytype\"}}");
    reveal_strlit("\"enable_ddc\":true,");
    reveal_strlit("\"corpus\":{\"context\":\"");
    reveal_strlit("\"},");
    let ctx = "{\"hotwords\":["@ + word_items(words) + "]}"@;
    let e = json_escape(ctx);
    assert(hotwords_context(words) == ctx);
    let smooth = if config.enable_ddc {
        ddc
    } else {
        Seq::<char>::empty()
    };
    assert(head.len() == 86 && tail.len() == 158 && ddc.len() == 18 && open.len() == 21
        && close.len() == 3);
    if words.len() > 0 {
        assert(p == head + (open + e + close) + smooth + tail);
        assert(p =~= head + open + e + close + (smooth + tail));
        assert(p.subrange(86, 107) =~= open);
        assert(p.subrange(107, 107int + e.len()) =~= e);
        assert(p.subrange(107int + e.len(), 110int + e.len()) =~= close);
        lemma_json_escape_reads_back(ctx);
    } else {
        assert(p == head + Seq::<char>::empty() + smooth + tail);
    }
}

} // verus!
