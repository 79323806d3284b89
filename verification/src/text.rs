//! Text building blocks: decimal rendering of integers, Unicode character
//! classes, substring search and string assembly, all with exact contracts.
use vstd::prelude::*;

verus! {

/// The ASCII digit for `d` (for `d < 10`).
pub open spec fn digit_char(d: nat) -> char {
    (d + 48) as char
}

/// Decimal rendering of a natural number, without sign or leading zeros.
pub open spec fn decimal(n: nat) -> Seq<char>
    decreases n,
{
    if n < 10 {
        seq![digit_char(n)]
    } else {
        decimal(n / 10).push(digit_char(n % 10))
    }
}

/// Decimal rendering of an integer, with a leading `-` when negative.
pub open spec fn decimal_signed(n: int) -> Seq<char> {
    if n < 0 {
        seq!['-'] + decimal((-n) as nat)
    } else {
        decimal(n as nat)
    }
}

/// A string made of one digit.
fn digit_str(d: u64) -> (s: &'static str)
    requires
        d < 10,
    ensures
        s@ == seq![digit_char(d as nat)],
{
    match d {
        0 => {
            proof { reveal_strlit("0"); }
            "0"
        },
        1 => {
            proof { reveal_strlit("1"); }
            "1"
        },
        2 => {
            proof { reveal_strlit("2"); }
            "2"
        },
        3 => {
            proof { reveal_strlit("3"); }
            "3"
        },
        4 => {
            proof { reveal_strlit("4"); }
            "4"
        },
        5 => {
            proof { reveal_strlit("5"); }
            "5"
        },
        6 => {
            proof { reveal_strlit("6"); }
            "6"
        },
        7 => {
            proof { reveal_strlit("7"); }
            "7"
        },
        8 => {
            proof { reveal_strlit("8"); }
            "8"
        },
        _ => {
            proof { reveal_strlit("9"); }
            "9"
        },
    }
}

/// Every character of a decimal rendering is an ASCII digit.
pub proof fn lemma_decimal_digits(n: nat)
    ensures
        forall|i: int| 0 <= i < decimal(n).len() ==> 48 <= #[trigger] (decimal(n)[i] as u32) <= 57,
        decimal(n).len() >= 1,
    decreases n,
{
    if n >= 10 {
        lemma_decimal_digits(n / 10);
    }
}

/// The number that a string of ASCII digits stands for, read from the
/// most significant digit.
pub open spec fn digits_value(s: Seq<char>) -> int
    decreases s.len(),
{
    if s.len() == 0 {
        0
    } else {
        digits_value(s.drop_last()) * 10 + ((s.last() as u32) - 48)
    }
}

/// Law: a decimal rendering reads back as the number it renders, and has
/// no leading zero.
pub proof fn lemma_decimal_reads_back(n: nat)
    ensures
        digits_value(decimal(n)) == n,
        decimal(n).len() > 1 ==> decimal(n)[0] != '0',
    decreases n,
{
    if n < 10 {
        let d = decimal(n);
        assert(d.drop_last().len() == 0);
        assert(d.last() == digit_char(n));
        assert((digit_char(n) as u32) == n + 48);
        assert(digits_value(d.drop_last()) == 0);
    } else {
        lemma_decimal_reads_back(n / 10);
        let d = decimal(n);
        assert(d.drop_last() =~= decimal(n / 10));
        assert(d.last() == digit_char(n % 10));
        assert((digit_char(n % 10) as u32) == n % 10 + 48);
        assert(d[0] == decimal(n / 10)[0]);
        if n / 10 < 10 {
            assert(decimal(n / 10)[0] == digit_char(n / 10));
            assert((digit_char(n / 10) as u32) == n / 10 + 48);
            assert(('0' as u32) == 48);
        } else {
            lemma_decimal_digits(n / 10 / 10);
            assert(decimal(n / 10).len() == decimal(n / 10 / 10).len() + 1);
        }
    }
}

/// Appends the decimal rendering of `n` to `s`.
pub fn push_decimal(s: &mut String, n: u64)
    ensures
        final(s)@ == old(s)@ + decimal(n as nat),
    decreases n,
{
    if n >= 10 {
        push_decimal(s, n / 10);
        let ghost mid = s@;
        s.append(digit_str(n % 10));
        assert(decimal(n as nat) == decimal((n / 10) as nat).push(digit_char((n % 10) as nat)));
        assert(s@ =~= old(s)@ + decimal(n as nat));
    } else {
        s.append(digit_str(n));
        assert(s@ =~= old(s)@ + decimal(n as nat));
    }
}

/// Appends the decimal rendering of the signed `n` to `s`.
pub fn push_decimal_signed(s: &mut String, n: i64)
    ensures
        final(s)@ == old(s)@ + decimal_signed(n as int),
{
    if n < 0 {
        proof { reveal_strlit("-"); }
        s.append("-");
        let magnitude: u64 = if n == i64::MIN {
            9223372036854775808u64
        } else {
            (-n) as u64
        };
        push_decimal(s, magnitude);
        assert(s@ =~= old(s)@ + decimal_signed(n as int));
    } else {
        push_decimal(s, n as u64);
    }
}

/// Unicode general category Cc: U+0000..=U+001F and U+007F..=U+009F.
pub open spec fn is_control(c: char) -> bool {
    (c as u32) <= 0x1f || (0x7f <= (c as u32) && (c as u32) <= 0x9f)
}

/// Whether any character of `s` is a control character.
pub open spec fn has_control(s: Seq<char>) -> bool {
    exists|i: int| 0 <= i < s.len() && is_control(#[trigger] s[i])
}

/// The Unicode `White_Space` property.
pub open spec fn is_whitespace(c: char) -> bool {
    let u = c as u32;
    ||| (0x09 <= u && u <= 0x0d)
    ||| u == 0x20
    ||| u == 0x85
    ||| u == 0xa0
    ||| u == 0x1680
    ||| (0x2000 <= u && u <= 0x200a)
    ||| u == 0x2028
    ||| u == 0x2029
    ||| u == 0x202f
    ||| u == 0x205f
    ||| u == 0x3000
}

/// Whether `s` is empty once surrounding white space is trimmed, that is,
/// whether every character is white space.
pub open spec fn is_blank(s: Seq<char>) -> bool {
    forall|i: int| 0 <= i < s.len() ==> is_whitespace(#[trigger] s[i])
}

/// `String::push` appends one character to the string, as its
/// documentation says.
pub assume_specification[ String::push ](s: &mut String, ch: char)
    ensures
        final(s)@ == old(s)@.push(ch),
;

/// `s` without its leading white space.
pub open spec fn trim_start(s: Seq<char>) -> Seq<char>
    decreases s.len(),
{
    if s.len() > 0 && is_whitespace(s[0]) {
        trim_start(s.drop_first())
    } else {
        s
    }
}

/// `s` without its trailing white space.
pub open spec fn trim_end(s: Seq<char>) -> Seq<char>
    decreases s.len(),
{
    if s.len() > 0 && is_whitespace(s.last()) {
        trim_end(s.drop_last())
    } else {
        s
    }
}

/// `s` without surrounding white space.
pub open spec fn trim(s: Seq<char>) -> Seq<char> {
    trim_end(trim_start(s))
}

/// The number of bytes of `c` in UTF-8.
pub open spec fn char_utf8_len(c: char) -> nat {
    if (c as u32) < 0x80 {
        1
    } else if (c as u32) < 0x800 {
        2
    } else if (c as u32) < 0x10000 {
        3
    } else {
        4
    }
}

/// The number of bytes of `s` in UTF-8.
pub open spec fn utf8_len(s: Seq<char>) -> nat
    decreases s.len(),
{
    if s.len() == 0 {
        0
    } else {
        utf8_len(s.drop_last()) + char_utf8_len(s.last())
    }
}

/// The bounds of `s[from..to]` once trimmed of surrounding white space.
pub fn trim_bounds(s: &Vec<char>) -> (r: (usize, usize))
    ensures
        r.0 <= r.1 <= s@.len(),
        s@.subrange(r.0 as int, r.1 as int) == trim(s@),
{
    let len = s.len();
    let mut start: usize = 0;
    assert(s@.subrange(0, len as int) =~= s@);
    while start < len && char_is_whitespace(s[start])
        invariant
            len == s@.len(),
            start <= len,
            trim_start(s@) == trim_start(s@.subrange(start as int, len as int)),
        decreases len - start,
    {
        let ghost sub = s@.subrange(start as int, len as int);
        assert(sub[0] == s@[start as int]);
        assert(sub.drop_first() =~= s@.subrange(start + 1, len as int));
        start = start + 1;
    }
    assert(trim_start(s@) == s@.subrange(start as int, len as int)) by {
        let sub = s@.subrange(start as int, len as int);
        if start < len {
            assert(sub[0] == s@[start as int]);
        } else {
            assert(sub.len() == 0);
        }
    }
    let mut end: usize = len;
    while end > start && char_is_whitespace(s[end - 1])
        invariant
            len == s@.len(),
            start <= end <= len,
            trim(s@) == trim_end(s@.subrange(start as int, end as int)),
        decreases end - start,
    {
        let ghost sub = s@.subrange(start as int, end as int);
        assert(sub.last() == s@[end - 1]);
        assert(sub.drop_last() =~= s@.subrange(start as int, end - 1));
        end = end - 1;
    }
    assert(trim(s@) == s@.subrange(start as int, end as int)) by {
        let sub = s@.subrange(start as int, end as int);
        if end > start {
            assert(sub.last() == s@[end - 1]);
        } else {
            assert(sub.len() == 0);
        }
    }
    (start, end)
}

/// The number of bytes in UTF-8 of one character.
pub fn char_len_utf8(c: char) -> (n: usize)
    ensures
        n == char_utf8_len(c),
{
    let u = c as u32;
    if u < 0x80 {
        1
    } else if u < 0x800 {
        2
    } else if u < 0x10000 {
        3
    } else {
        4
    }
}

/// The number of bytes in UTF-8 of `s[from..to]`.
pub fn utf8_len_of(s: &Vec<char>, from: usize, to: usize) -> (n: usize)
    requires
        from <= to <= s@.len(),
        to - from <= 1024,
    ensures
        n == utf8_len(s@.subrange(from as int, to as int)),
        n <= 4 * (to - from),
{
    let mut n: usize = 0;
    let mut j: usize = from;
    assert(s@.subrange(from as int, from as int).len() == 0);
    while j < to
        invariant
            from <= j <= to <= s@.len(),
            to - from <= 1024,
            n == utf8_len(s@.subrange(from as int, j as int)),
            n <= 4 * (j - from),
        decreases to - j,
    {
        let ghost sub = s@.subrange(from as int, j + 1);
        assert(sub.drop_last() =~= s@.subrange(from as int, j as int));
        assert(sub.last() == s@[j as int]);
        n = n + char_len_utf8(s[j]);
        j = j + 1;
    }
    n
}

/// The string of the characters `s[from..to]`.
pub fn string_of(s: &Vec<char>, from: usize, to: usize) -> (r: String)
    requires
        from <= to <= s@.len(),
    ensures
        r@ == s@.subrange(from as int, to as int),
{
    let mut r = String::new();
    let mut j: usize = from;
    while j < to
        invariant
            from <= j <= to <= s@.len(),
            r@ == s@.subrange(from as int, j as int),
        decreases to - j,
    {
        r.push(s[j]);
        j = j + 1;
        assert(r@ =~= s@.subrange(from as int, j as int));
    }
    r
}

/// `c` is a control character.
pub fn char_is_control(c: char) -> (r: bool)
    ensures
        r == is_control(c),
{
    let u = c as u32;
    u <= 0x1f || (0x7f <= u && u <= 0x9f)
}

/// `c` is white space.
pub fn char_is_whitespace(c: char) -> (r: bool)
    ensures
        r == is_whitespace(c),
{
    let u = c as u32;
    (0x09 <= u && u <= 0x0d) || u == 0x20 || u == 0x85 || u == 0xa0 || u == 0x1680 || (0x2000
        <= u && u <= 0x200a) || u == 0x2028 || u == 0x2029 || u == 0x202f || u == 0x205f || u
        == 0x3000
}

/// Whether some character of `s` is a control character.
pub fn str_has_control(s: &str) -> (r: bool)
    ensures
        r == has_control(s@),
{
    let mut found = false;
    for c in iter: s.chars()
        invariant
            iter.seq() == s@,
            found <==> exists|i: int| 0 <= i < iter.index() && is_control(#[trigger] s@[i]),
    {
        if char_is_control(c) {
            found = true;
        }
    }
    found
}

/// Whether `s` is empty once trimmed of white space.
pub fn str_is_blank(s: &str) -> (r: bool)
    ensures
        r == is_blank(s@),
{
    let mut blank = true;
    for c in iter: s.chars()
        invariant
            iter.seq() == s@,
            blank <==> forall|i: int| 0 <= i < iter.index() ==> is_whitespace(#[trigger] s@[i]),
    {
        if !char_is_whitespace(c) {
            blank = false;
        }
    }
    blank
}

/// The characters of `s`, in order.
pub fn chars_of(s: &str) -> (v: Vec<char>)
    ensures
        v@ == s@,
{
    let mut v: Vec<char> = Vec::new();
    for c in iter: s.chars()
        invariant
            iter.seq() == s@,
            v@ == s@.take(iter.index() as int),
    {
        v.push(c);
        assert(v@ =~= s@.take(iter.index() + 1));
    }
    assert(v@ =~= s@);
    v
}

/// `needle` occurs in `hay` at position `i`.
pub open spec fn occurs_at(hay: Seq<char>, needle: Seq<char>, i: int) -> bool {
    0 <= i && i + needle.len() <= hay.len() && hay.subrange(i, i + needle.len()) == needle
}

/// `needle` occurs somewhere in `hay`.
pub open spec fn seq_contains(hay: Seq<char>, needle: Seq<char>) -> bool {
    exists|i: int| occurs_at(hay, needle, i)
}

/// Whether `needle` occurs as a substring of `hay`.
pub fn str_contains(hay: &str, needle: &str) -> (r: bool)
    ensures
        r == seq_contains(hay@, needle@),
{
    let h = chars_of(hay);
    let n = chars_of(needle);
    if n.len() == 0 {
        assert(hay@.subrange(0, 0) =~= needle@);
        assert(occurs_at(hay@, needle@, 0));
        return true;
    }
    if n.len() > h.len() {
        assert forall|i: int| !occurs_at(hay@, needle@, i) by {}
        return false;
    }
    let last = h.len() - n.len();
    let mut i: usize = 0;
    while i <= last
        invariant
            h@ == hay@,
            n@ == needle@,
            last == h@.len() - n@.len(),
            0 < n@.len() <= h@.len(),
            h@.len() <= usize::MAX,
            i <= last + 1,
            forall|k: int| 0 <= k < i ==> !occurs_at(hay@, needle@, k),
        decreases last + 1 - i,
    {
        let mut j: usize = 0;
        let mut same = true;
        while j < n.len()
            invariant
                h@ == hay@,
                n@ == needle@,
                i <= last,
                last == h@.len() - n@.len(),
                h@.len() <= usize::MAX,
                j <= n@.len(),
                same <==> forall|m: int| 0 <= m < j ==> h@[i + m] == n@[m],
            decreases n@.len() - j,
        {
            if h[i + j] != n[j] {
                same = false;
            }
            j = j + 1;
        }
        if same {
            assert(hay@.subrange(i as int, i + needle@.len()) =~= needle@);
            assert(occurs_at(hay@, needle@, i as int));
            return true;
        }
        assert(!occurs_at(hay@, needle@, i as int)) by {
            if occurs_at(hay@, needle@, i as int) {
                let m = choose|m: int| 0 <= m < n@.len() && h@[i + m] != n@[m];
                assert(hay@.subrange(i as int, i + needle@.len())[m] == h@[i + m]);
            }
        }
        i = i + 1;
    }
    assert forall|k: int| !occurs_at(hay@, needle@, k) by {
        if 0 <= k && k < i {
        }
    }
    false
}

} // verus!
