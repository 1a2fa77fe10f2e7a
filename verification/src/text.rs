//! Text handling on UTF-8 bytes: whitespace trimming, decimal numbers,
//! ASCII case folding, and strings made from validated bytes.

use vstd::prelude::*;
use vstd::utf8::*;
use crate::bytes::{copy_bytes, lemma_bytes_text, lemma_text_bytes, string_from_utf8, text_bytes};

verus! {

/// How many bytes the UTF-8 encoding of a whitespace character (Unicode
/// `White_Space`) takes at the start of `b`; 0 when `b` does not start with
/// one.
pub open spec fn ws_len_at_start(b: Seq<u8>) -> int {
    if b.len() >= 1 && (b[0] == 0x20 || (0x09 <= b[0] <= 0x0d)) {
        1
    } else if b.len() >= 2 && b[0] == 0xc2 && (b[1] == 0x85 || b[1] == 0xa0) {
        2
    } else if b.len() >= 3 && ((b[0] == 0xe1 && b[1] == 0x9a && b[2] == 0x80) || (b[0] == 0xe2
        && b[1] == 0x80 && ((0x80 <= b[2] <= 0x8a) || b[2] == 0xa8 || b[2] == 0xa9 || b[2]
        == 0xaf)) || (b[0] == 0xe2 && b[1] == 0x81 && b[2] == 0x9f) || (b[0] == 0xe3 && b[1]
        == 0x80 && b[2] == 0x80)) {
        3
    } else {
        0
    }
}

/// How many bytes the UTF-8 encoding of a whitespace character takes at
/// the end of `b`; 0 when `b` does not end with one.
pub open spec fn ws_len_at_end(b: Seq<u8>) -> int {
    let n = b.len() as int;
    if n >= 1 && ws_len_at_start(b.subrange(n - 1, n)) == 1 {
        1
    } else if n >= 2 && ws_len_at_start(b.subrange(n - 2, n)) == 2 {
        2
    } else if n >= 3 && ws_len_at_start(b.subrange(n - 3, n)) == 3 {
        3
    } else {
        0
    }
}

/// `b` without its leading whitespace.
pub open spec fn trim_start(b: Seq<u8>) -> Seq<u8>
    decreases b.len(),
{
    if ws_len_at_start(b) > 0 {
        trim_start(b.subrange(ws_len_at_start(b), b.len() as int))
    } else {
        b
    }
}

/// `b` without its trailing whitespace.
pub open spec fn trim_end(b: Seq<u8>) -> Seq<u8>
    decreases b.len(),
{
    if ws_len_at_end(b) > 0 {
        trim_end(b.subrange(0, b.len() - ws_len_at_end(b)))
    } else {
        b
    }
}

/// The bytes of `str::trim` applied to the text with bytes `b`: leading and
/// trailing whitespace removed.
pub open spec fn trim(b: Seq<u8>) -> Seq<u8> {
    trim_end(trim_start(b))
}

proof fn lemma_ws_start_range(b: Seq<u8>)
    ensures
        0 <= ws_len_at_start(b) <= b.len(),
{
}

/// Removing a leading whitespace character keeps UTF-8 valid.
proof fn lemma_pop_ws_start(b: Seq<u8>)
    requires
        valid_utf8(b),
        ws_len_at_start(b) > 0,
    ensures
        valid_utf8(b.subrange(ws_len_at_start(b), b.len() as int)),
{
    assert(length_of_first_scalar(b) == ws_len_at_start(b));
}

/// Removing a trailing whitespace character keeps UTF-8 valid.
proof fn lemma_pop_ws_end(b: Seq<u8>)
    requires
        valid_utf8(b),
        ws_len_at_end(b) > 0,
    ensures
        valid_utf8(b.subrange(0, b.len() - ws_len_at_end(b))),
{
    let k = b.len() - ws_len_at_end(b);
    assert(b[k] == b.subrange(k, b.len() as int)[0]);
    is_char_boundary_iff_not_is_continuation_byte(b, k);
    valid_utf8_split(b, k);
}

proof fn lemma_trim_start_valid(b: Seq<u8>)
    requires
        valid_utf8(b),
    ensures
        valid_utf8(trim_start(b)),
    decreases b.len(),
{
    if ws_len_at_start(b) > 0 {
        lemma_pop_ws_start(b);
        lemma_trim_start_valid(b.subrange(ws_len_at_start(b), b.len() as int));
    }
}

proof fn lemma_trim_end_valid(b: Seq<u8>)
    requires
        valid_utf8(b),
    ensures
        valid_utf8(trim_end(b)),
    decreases b.len(),
{
    if ws_len_at_end(b) > 0 {
        lemma_pop_ws_end(b);
        lemma_trim_end_valid(b.subrange(0, b.len() - ws_len_at_end(b)));
    }
}

/// Trimming valid UTF-8 leaves valid UTF-8.
pub proof fn lemma_trim_valid(b: Seq<u8>)
    requires
        valid_utf8(b),
    ensures
        valid_utf8(trim(b)),
{
    lemma_trim_start_valid(b);
    lemma_trim_end_valid(trim_start(b));
}

/// The length of the whitespace character that starts at `i`.
fn ws_at(b: &[u8], i: usize, to: usize) -> (r: usize)
    requires
        i <= to <= b@.len(),
    ensures
        r == ws_len_at_start(b@.subrange(i as int, to as int)),
{
    let ghost s = b@.subrange(i as int, to as int);
    let n = to - i;
    if n >= 1 {
        assert(s[0] == b@[i as int]);
        let c = b[i];
        if c == 0x20 || (0x09 <= c && c <= 0x0d) {
            return 1;
        }
    }
    if n >= 2 {
        assert(s[0] == b@[i as int] && s[1] == b@[i + 1]);
        if b[i] == 0xc2 && (b[i + 1] == 0x85 || b[i + 1] == 0xa0) {
            return 2;
        }
    }
    if n >= 3 {
        assert(s[0] == b@[i as int] && s[1] == b@[i + 1] && s[2] == b@[i + 2]);
        let (c0, c1, c2) = (b[i], b[i + 1], b[i + 2]);
        if (c0 == 0xe1 && c1 == 0x9a && c2 == 0x80) || (c0 == 0xe2 && c1 == 0x80 && ((0x80 <= c2
            && c2 <= 0x8a) || c2 == 0xa8 || c2 == 0xa9 || c2 == 0xaf)) || (c0 == 0xe2 && c1
            == 0x81 && c2 == 0x9f) || (c0 == 0xe3 && c1 == 0x80 && c2 == 0x80) {
            return 3;
        }
    }
    0
}

/// The length of the whitespace character that ends at `j`.
fn ws_before(b: &[u8], start: usize, j: usize) -> (r: usize)
    requires
        start <= j <= b@.len(),
    ensures
        r == ws_len_at_end(b@.subrange(start as int, j as int)),
{
    let ghost s = b@.subrange(start as int, j as int);
    let n = j - start;
    if n >= 1 {
        assert(s.subrange(s.len() - 1, s.len() as int) =~= b@.subrange(j - 1, j as int));
        if ws_at(b, j - 1, j) == 1 {
            return 1;
        }
    }
    if n >= 2 {
        assert(s.subrange(s.len() - 2, s.len() as int) =~= b@.subrange(j - 2, j as int));
        let c0 = b[j - 2];
        let c1 = b[j - 1];
        if c0 == 0xc2 && (c1 == 0x85 || c1 == 0xa0) {
            return 2;
        }
    }
    if n >= 3 {
        assert(s.subrange(s.len() - 3, s.len() as int) =~= b@.subrange(j - 3, j as int));
        let (c0, c1, c2) = (b[j - 3], b[j - 2], b[j - 1]);
        if (c0 == 0xe1 && c1 == 0x9a && c2 == 0x80) || (c0 == 0xe2 && c1 == 0x80 && ((0x80 <= c2
            && c2 <= 0x8a) || c2 == 0xa8 || c2 == 0xa9 || c2 == 0xaf)) || (c0 == 0xe2 && c1
            == 0x81 && c2 == 0x9f) || (c0 == 0xe3 && c1 == 0x80 && c2 == 0x80) {
            return 3;
        }
    }
    0
}

/// The byte range `start..end` of `b[from..to]` that `trim` keeps.
pub fn trim_range(b: &[u8], from: usize, to: usize) -> (r: (usize, usize))
    requires
        from <= to <= b@.len(),
    ensures
        from <= r.0 <= r.1 <= to,
        b@.subrange(r.0 as int, r.1 as int) == trim(b@.subrange(from as int, to as int)),
{
    let mut start = from;
    while start < to
        invariant
            from <= start <= to,
            to <= b@.len(),
            trim_start(b@.subrange(from as int, to as int)) == trim_start(
                b@.subrange(start as int, to as int),
            ),
        ensures
            from <= start <= to,
            trim_start(b@.subrange(from as int, to as int)) == b@.subrange(start as int, to as int),
        decreases to - start,
    {
        let ghost s = b@.subrange(start as int, to as int);
        let w = ws_at(b, start, to);
        if w == 0 {
            break;
        }
        proof {
            lemma_ws_start_range(s);
        }
        assert(s.subrange(w as int, s.len() as int) =~= b@.subrange(start + w, to as int));
        start = start + w;
    }
    let mut end = to;
    while end > start
        invariant
            from <= start <= end <= to,
            to <= b@.len(),
            trim_end(b@.subrange(start as int, to as int)) == trim_end(
                b@.subrange(start as int, end as int),
            ),
        ensures
            from <= start <= end <= to,
            trim_end(b@.subrange(start as int, to as int)) == b@.subrange(start as int, end as int),
        decreases end - start,
    {
        let w = ws_before(b, start, end);
        if w == 0 {
            break;
        }
        let ghost s = b@.subrange(start as int, end as int);
        assert(s.subrange(0, s.len() - w) =~= b@.subrange(start as int, end - w));
        end = end - w;
    }
    (start, end)
}

/// Where `trim_start` of `b[from..to]` starts.
pub fn trim_start_range(b: &[u8], from: usize, to: usize) -> (r: usize)
    requires
        from <= to <= b@.len(),
    ensures
        from <= r <= to,
        b@.subrange(r as int, to as int) == trim_start(b@.subrange(from as int, to as int)),
{
    let mut start = from;
    while start < to
        invariant
            from <= start <= to,
            to <= b@.len(),
            trim_start(b@.subrange(from as int, to as int)) == trim_start(
                b@.subrange(start as int, to as int),
            ),
        ensures
            from <= start <= to,
            trim_start(b@.subrange(from as int, to as int)) == b@.subrange(start as int, to as int),
        decreases to - start,
    {
        let ghost s = b@.subrange(start as int, to as int);
        let w = ws_at(b, start, to);
        if w == 0 {
            break;
        }
        proof {
            lemma_ws_start_range(s);
        }
        assert(s.subrange(w as int, s.len() as int) =~= b@.subrange(start + w, to as int));
        start = start + w;
    }
    start
}

/// An ASCII decimal digit.
pub open spec fn is_digit(b: u8) -> bool {
    48 <= b <= 57
}

/// The value of a run of decimal digits.
pub open spec fn digits_value(b: Seq<u8>) -> nat
    decreases b.len(),
{
    if b.len() == 0 {
        0
    } else {
        digits_value(b.drop_last()) * 10 + (b.last() - 48) as nat
    }
}

/// What `u64::from_str` accepts: an optional `+`, then one or more ASCII
/// digits whose value fits in a `u64`.
pub open spec fn parse_u64(b: Seq<u8>) -> Option<u64> {
    parse_digits(strip_plus(b))
}

/// `b` without a leading `+`.
pub open spec fn strip_plus(b: Seq<u8>) -> Seq<u8> {
    if b.len() > 0 && b[0] == 43 {
        b.drop_first()
    } else {
        b
    }
}

/// One or more ASCII digits whose value fits in a `u64`.
pub open spec fn parse_digits(d: Seq<u8>) -> Option<u64> {
    if d.len() > 0 && (forall|i: int| 0 <= i < d.len() ==> #[trigger] is_digit(d[i]))
        && digits_value(d) <= u64::MAX {
        Some(digits_value(d) as u64)
    } else {
        None
    }
}

proof fn lemma_digits_value_mono(b: Seq<u8>, k: int)
    requires
        0 <= k <= b.len(),
        forall|i: int| 0 <= i < b.len() ==> #[trigger] is_digit(b[i]),
    ensures
        digits_value(b.subrange(0, k)) <= digits_value(b),
    decreases b.len() - k,
{
    if k < b.len() {
        lemma_digits_value_mono(b, k + 1);
        let p = b.subrange(0, k + 1);
        assert(p.drop_last() =~= b.subrange(0, k));
        assert(p.last() == b[k]);
        assert(is_digit(b[k]));
        assert(digits_value(p) >= digits_value(b.subrange(0, k))) by (nonlinear_arith)
            requires
                digits_value(p) == digits_value(b.subrange(0, k)) * 10 + (b[k] - 48) as nat,
                48 <= b[k],
        ;
    } else {
        assert(b.subrange(0, k) =~= b);
    }
}

/// Parses `b[from..to]` as `u64::from_str` does.
pub fn parse_u64_range(b: &[u8], from: usize, to: usize) -> (r: Option<u64>)
    requires
        from <= to <= b@.len(),
    ensures
        r == parse_u64(b@.subrange(from as int, to as int)),
{
    let ghost s = b@.subrange(from as int, to as int);
    let mut i = from;
    if i < to && b[i] == 43 {
        i = i + 1;
    }
    let ghost d = b@.subrange(i as int, to as int);
    assert(d =~= strip_plus(s));
    if i == to {
        return None;
    }
    let start = i;
    let mut value: u64 = 0;
    while i < to
        invariant
            start <= i <= to,
            to <= b@.len(),
            d == b@.subrange(start as int, to as int),
            d == strip_plus(s),
            s == b@.subrange(from as int, to as int),
            forall|k: int| start <= k < i ==> #[trigger] is_digit(b@[k]),
            value as nat == digits_value(b@.subrange(start as int, i as int)),
        decreases to - i,
    {
        let c = b[i];
        assert(d[i - start] == c);
        if c < 48 || c > 57 {
            assert(!is_digit(d[i - start]));
            return None;
        }
        let ghost p = b@.subrange(start as int, i + 1);
        assert(p.drop_last() =~= b@.subrange(start as int, i as int));
        assert(p.last() == c);
        let digit = (c - 48) as u64;
        let next = match value.checked_mul(10) {
            None => None,
            Some(v10) => v10.checked_add(digit),
        };
        match next {
            None => {
                proof {
                    assert(digits_value(p) == value * 10 + digit);
                    assert(digits_value(p) > u64::MAX);
                    if forall|k: int| 0 <= k < d.len() ==> #[trigger] is_digit(d[k]) {
                        lemma_digits_value_mono(d, i + 1 - start);
                        assert(d.subrange(0, i + 1 - start) =~= p);
                    }
                }
                return None;
            },
            Some(v) => {
                value = v;
            },
        }
        i = i + 1;
    }
    assert(b@.subrange(start as int, i as int) =~= d);
    Some(value)
}

/// ASCII lower case of one byte.
pub open spec fn lower_byte(c: u8) -> u8 {
    if 65 <= c <= 90 {
        (c + 32) as u8
    } else {
        c
    }
}

/// ASCII lower case of a byte string.
pub open spec fn lower(b: Seq<u8>) -> Seq<u8> {
    b.map_values(|c: u8| lower_byte(c))
}

/// Whether `b`, in ASCII lower case, is `word`.
pub fn lower_eq(b: &[u8], word: &[u8]) -> (r: bool)
    ensures
        r == (lower(b@) == word@),
{
    if b.len() != word.len() {
        return false;
    }
    let mut i: usize = 0;
    while i < b.len()
        invariant
            b@.len() == word@.len(),
            0 <= i <= b@.len(),
            forall|k: int| 0 <= k < i ==> lower_byte(#[trigger] b@[k]) == word@[k],
        decreases b@.len() - i,
    {
        let c = b[i];
        let l = if 65 <= c && c <= 90 {
            c + 32
        } else {
            c
        };
        if l != word[i] {
            assert(lower(b@)[i as int] != word@[i as int]);
            return false;
        }
        i = i + 1;
    }
    assert(lower(b@) =~= word@);
    true
}

/// Every byte is ASCII.
pub open spec fn all_ascii(b: Seq<u8>) -> bool {
    forall|i: int| 0 <= i < b.len() ==> #[trigger] b[i] <= 0x7f
}

/// ASCII bytes are valid UTF-8.
pub proof fn lemma_ascii_valid(b: Seq<u8>)
    requires
        all_ascii(b),
    ensures
        valid_utf8(b),
{
    assert(b.subrange(0, 0) =~= Seq::<u8>::empty());
    assert(partial_valid_utf8(b, 0));
    partial_valid_utf8_extend_ascii_block(b, 0, b.len() as int);
    assert(b.subrange(0, b.len() as int) =~= b);
}

/// The string whose UTF-8 bytes are `b[from..to]`.
pub fn utf8_string(b: &[u8], from: usize, to: usize) -> (s: String)
    requires
        from <= to <= b@.len(),
        valid_utf8(b@.subrange(from as int, to as int)),
    ensures
        text_bytes(s@) == b@.subrange(from as int, to as int),
{
    let part = copy_bytes(slice_range(b, from, to));
    match string_from_utf8(part) {
        Some(s) => {
            proof {
                lemma_bytes_text(b@.subrange(from as int, to as int));
            }
            s
        },
        None => {
            assert(false);
            String::new()
        },
    }
}

/// `b[from..to]`.
pub fn slice_range(b: &[u8], from: usize, to: usize) -> (r: &[u8])
    requires
        from <= to <= b@.len(),
    ensures
        r@ == b@.subrange(from as int, to as int),
{
    &b[from..to]
}

/// The decimal digits of `n`.
pub open spec fn decimal(n: nat) -> Seq<char>
    decreases n,
{
    if n < 10 {
        seq![digit_char(n)]
    } else {
        decimal(n / 10).push(digit_char(n % 10))
    }
}

pub open spec fn digit_char(d: nat) -> char {
    if d == 0 {
        '0'
    } else if d == 1 {
        '1'
    } else if d == 2 {
        '2'
    } else if d == 3 {
        '3'
    } else if d == 4 {
        '4'
    } else if d == 5 {
        '5'
    } else if d == 6 {
        '6'
    } else if d == 7 {
        '7'
    } else if d == 8 {
        '8'
    } else {
        '9'
    }
}

/// The one-character string of a decimal digit.
pub fn digit_str(d: u64) -> (s: &'static str)
    requires
        d < 10,
    ensures
        s@ == seq![digit_char(d as nat)],
{
    proof {
        reveal_strlit("0");
        reveal_strlit("1");
        reveal_strlit("2");
        reveal_strlit("3");
        reveal_strlit("4");
        reveal_strlit("5");
        reveal_strlit("6");
        reveal_strlit("7");
        reveal_strlit("8");
        reveal_strlit("9");
    }
    if d == 0 {
        "0"
    } else if d == 1 {
        "1"
    } else if d == 2 {
        "2"
    } else if d == 3 {
        "3"
    } else if d == 4 {
        "4"
    } else if d == 5 {
        "5"
    } else if d == 6 {
        "6"
    } else if d == 7 {
        "7"
    } else if d == 8 {
        "8"
    } else {
        "9"
    }
}

/// Appends the decimal digits of `n`.
pub fn append_decimal(out: &mut String, n: u64)
    ensures
        final(out)@ == old(out)@ + decimal(n as nat),
    decreases n,
{
    if n >= 10 {
        append_decimal(out, n / 10);
    }
    out.append(digit_str(n % 10));
    assert(out@ =~= old(out)@ + decimal(n as nat)) by {
        if n >= 10 {
            assert(decimal(n as nat) == decimal((n / 10) as nat).push(digit_char((n % 10) as nat)));
        }
    }
}

} // verus!
