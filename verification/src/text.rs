//! Byte-level text utilities for the assembler: whitespace trimming,
//! token splitting, case folding and number parsing, each specified over
//! `Seq<u8>` views of the source line.

use vstd::prelude::*;

verus! {


/// ASCII code points the tokenizer refers to by name.
pub const SP: u8 = 32;
pub const TAB: u8 = 9;
pub const LF: u8 = 10;
pub const VT: u8 = 11;
pub const FF: u8 = 12;
pub const CR: u8 = 13;
pub const HASH: u8 = 35;
pub const DOLLAR: u8 = 36;
pub const LPAREN: u8 = 40;
pub const RPAREN: u8 = 41;
pub const PLUS: u8 = 43;
pub const COMMA: u8 = 44;
pub const MINUS: u8 = 45;
pub const DOT: u8 = 46;
pub const COLON: u8 = 58;
pub const SEMICOLON: u8 = 59;
pub const DIGIT_0: u8 = 48;
pub const DIGIT_9: u8 = 57;
pub const UP_A: u8 = 65;
pub const UP_F: u8 = 70;
pub const UP_X: u8 = 88;
pub const LOW_A: u8 = 97;
pub const LOW_F: u8 = 102;
pub const LOW_X: u8 = 120;
pub const LOW_Z: u8 = 122;

/// ASCII whitespace, as the source-line scanner understands it.
pub open spec fn is_space(b: u8) -> bool {
    b == SP || b == TAB || b == LF || b == VT || b == FF || b == CR
}

/// ASCII upper-casing of a single byte; other bytes are unchanged.
pub open spec fn upper(b: u8) -> u8 {
    if LOW_A <= b <= LOW_Z {
        (b - 32) as u8
    } else {
        b
    }
}

/// ASCII upper-casing of a whole byte sequence.
pub open spec fn upper_seq(s: Seq<u8>) -> Seq<u8> {
    s.map_values(|b: u8| upper(b))
}

/// `s` with leading ASCII whitespace removed.
pub open spec fn trim_front(s: Seq<u8>) -> Seq<u8>
    decreases s.len(),
{
    if s.len() > 0 && is_space(s[0]) {
        trim_front(s.drop_first())
    } else {
        s
    }
}

/// `s` with trailing ASCII whitespace removed.
pub open spec fn trim_back(s: Seq<u8>) -> Seq<u8>
    decreases s.len(),
{
    if s.len() > 0 && is_space(s.last()) {
        trim_back(s.drop_last())
    } else {
        s
    }
}

/// `s` with both leading and trailing ASCII whitespace removed.
pub open spec fn trim(s: Seq<u8>) -> Seq<u8> {
    trim_back(trim_front(s))
}

/// Index of the first occurrence of `b` in `s`, or `s.len()` if absent.
pub open spec fn find_idx(s: Seq<u8>, b: u8) -> int
    decreases s.len(),
{
    if s.len() == 0 {
        0
    } else if s[0] == b {
        0
    } else {
        1 + find_idx(s.drop_first(), b)
    }
}

/// `b` occurs somewhere in `s`.
pub open spec fn contains_byte(s: Seq<u8>, b: u8) -> bool {
    find_idx(s, b) < s.len()
}

/// `p` occurs in `s` starting at offset `i`.
pub open spec fn matches_at(s: Seq<u8>, p: Seq<u8>, i: int) -> bool {
    0 <= i && i + p.len() <= s.len() && s.subrange(i, i + p.len()) == p
}

/// `p` occurs somewhere in `s` as a contiguous run.
pub open spec fn contains_seq(s: Seq<u8>, p: Seq<u8>) -> bool {
    exists|i: int| matches_at(s, p, i)
}

/// `s` begins with `p`.
pub open spec fn has_prefix(s: Seq<u8>, p: Seq<u8>) -> bool {
    p.len() <= s.len() && s.subrange(0, p.len() as int) == p
}

/// `find_idx` points at the first occurrence of `b`, if any.
pub proof fn lemma_find_idx(s: Seq<u8>, b: u8)
    ensures
        0 <= find_idx(s, b) <= s.len(),
        find_idx(s, b) < s.len() ==> s[find_idx(s, b)] == b,
        forall|k: int| 0 <= k < find_idx(s, b) ==> s[k] != b,
    decreases s.len(),
{
    if s.len() > 0 && s[0] != b {
        let t = s.drop_first();
        lemma_find_idx(t, b);
        assert(forall|k: int| 0 <= k < find_idx(s, b) ==> s[k] != b) by {
            assert forall|k: int| 0 <= k < find_idx(s, b) implies s[k] != b by {
                if k > 0 {
                    assert(s[k] == t[k - 1]);
                }
            }
        }
    }
}

fn space_byte(b: u8) -> (r: bool)
    ensures
        r == is_space(b),
{
    b == SP || b == TAB || b == LF || b == VT || b == FF || b == CR
}

proof fn lemma_trim_front_at(s: Seq<u8>, i: int)
    requires
        0 <= i <= s.len(),
        forall|k: int| 0 <= k < i ==> is_space(s[k]),
        i == s.len() || !is_space(s[i]),
    ensures
        trim_front(s) == s.subrange(i, s.len() as int),
    decreases i,
{
    if i == 0 {
        assert(s.subrange(0, s.len() as int) =~= s);
    } else {
        let t = s.drop_first();
        lemma_trim_front_at(t, i - 1);
        assert(t.subrange(i - 1, t.len() as int) =~= s.subrange(i, s.len() as int));
    }
}

proof fn lemma_trim_back_at(s: Seq<u8>, j: int)
    requires
        0 <= j <= s.len(),
        forall|k: int| j <= k < s.len() ==> is_space(s[k]),
        j == 0 || !is_space(s[j - 1]),
    ensures
        trim_back(s) == s.subrange(0, j),
    decreases s.len() - j,
{
    if j == s.len() {
        assert(s.subrange(0, s.len() as int) =~= s);
    } else {
        let t = s.drop_last();
        lemma_trim_back_at(t, j);
        assert(t.subrange(0, j) =~= s.subrange(0, j));
    }
}

/// `s` with surrounding ASCII whitespace removed, as a fresh copy.
pub fn trim_bytes(s: &[u8]) -> (r: Vec<u8>)
    ensures
        r@ == trim(s@),
{
    let mut start: usize = 0;
    while start < s.len() && space_byte(s[start])
        invariant
            start <= s@.len(),
            forall|k: int| 0 <= k < start ==> is_space(s@[k]),
        decreases s@.len() - start,
    {
        start = start + 1;
    }
    proof {
        lemma_trim_front_at(s@, start as int);
    }
    let mut end: usize = s.len();
    while end > start && space_byte(s[end - 1])
        invariant
            start <= end <= s@.len(),
            forall|k: int| end <= k < s@.len() ==> is_space(s@[k]),
        decreases end,
    {
        end = end - 1;
    }
    proof {
        let t = s@.subrange(start as int, s@.len() as int);
        lemma_trim_back_at(t, end - start);
        assert(t.subrange(0, end - start) =~= s@.subrange(start as int, end as int));
    }
    sub_bytes(s, start, end)
}

/// Position of the first occurrence of `b` in `s`, if any.
pub fn find_byte(s: &[u8], b: u8) -> (r: Option<usize>)
    ensures
        match r {
            Some(i) => i == find_idx(s@, b) && i < s@.len(),
            None => find_idx(s@, b) == s@.len(),
        },
{
    proof {
        lemma_find_idx(s@, b);
    }
    let mut i: usize = 0;
    while i < s.len()
        invariant
            i <= s@.len(),
            forall|k: int| 0 <= k < i ==> s@[k] != b,
            0 <= find_idx(s@, b) <= s@.len(),
            find_idx(s@, b) < s@.len() ==> s@[find_idx(s@, b)] == b,
            forall|k: int| 0 <= k < find_idx(s@, b) ==> s@[k] != b,
        decreases s@.len() - i,
    {
        if s[i] == b {
            return Some(i);
        }
        i = i + 1;
    }
    None
}

/// Whether `p` occurs in `s` as a contiguous run.
pub fn contains_bytes(s: &[u8], p: &[u8]) -> (r: bool)
    ensures
        r == contains_seq(s@, p@),
{
    if p.len() > s.len() {
        proof {
            assert(forall|i: int| !matches_at(s@, p@, i));
        }
        return false;
    }
    if p.len() == 0 {
        proof {
            assert(s@.subrange(0, 0) =~= p@);
            assert(matches_at(s@, p@, 0));
        }
        return true;
    }
    let n = s.len() - p.len();
    let mut i: usize = 0;
    while i <= n
        invariant
            0 < p@.len() <= s@.len(),
            n == s@.len() - p@.len(),
            i <= n + 1,
            forall|k: int| 0 <= k < i ==> !matches_at(s@, p@, k),
        decreases n + 1 - i,
    {
        let m = s.len();
        assert(i + p@.len() <= m);
        let piece = sub_bytes(s, i, i + p.len());
        if bytes_eq(piece.as_slice(), p) {
            proof {
                assert(matches_at(s@, p@, i as int));
            }
            return true;
        }
        i = i + 1;
    }
    proof {
        assert(forall|k: int| matches_at(s@, p@, k) ==> 0 <= k <= s@.len() - p@.len());
    }
    false
}

/// Whether `s` begins with `p`.
pub fn starts_with_bytes(s: &[u8], p: &[u8]) -> (r: bool)
    ensures
        r == has_prefix(s@, p@),
{
    if p.len() > s.len() {
        return false;
    }
    let piece = sub_bytes(s, 0, p.len());
    bytes_eq(piece.as_slice(), p)
}

/// ASCII decimal digit.
pub open spec fn is_dec_digit(b: u8) -> bool {
    DIGIT_0 <= b <= DIGIT_9
}

/// ASCII hexadecimal digit, either case.
pub open spec fn is_hex_digit(b: u8) -> bool {
    is_dec_digit(b) || (UP_A <= b <= UP_F) || (LOW_A <= b <= LOW_F)
}

/// Digit validity for the chosen radix.
pub open spec fn digit_ok(b: u8, hex: bool) -> bool {
    if hex {
        is_hex_digit(b)
    } else {
        is_dec_digit(b)
    }
}

/// Numeric value of a digit byte.
pub open spec fn digit_val(b: u8) -> int {
    if is_dec_digit(b) {
        b - DIGIT_0
    } else if UP_A <= b <= UP_F {
        b - UP_A + 10
    } else {
        b - LOW_A + 10
    }
}

/// Every byte of `s` is a digit of the chosen radix.
pub open spec fn all_digits(s: Seq<u8>, hex: bool) -> bool {
    forall|k: int| 0 <= k < s.len() ==> digit_ok(s[k], hex)
}

/// The radix as a number.
pub open spec fn base_of(hex: bool) -> int {
    if hex {
        16
    } else {
        10
    }
}

/// The number denoted by a digit string, most significant digit first.
pub open spec fn digits_value(s: Seq<u8>, hex: bool) -> int
    decreases s.len(),
{
    if s.len() == 0 {
        0
    } else {
        digits_value(s.drop_last(), hex) * base_of(hex) + digit_val(s.last())
    }
}

/// The unsigned integer denoted by `s`: an optional leading `+` and at
/// least one digit, rejected when malformed or above `max`.
pub open spec fn parse_uint(s: Seq<u8>, hex: bool, max: int) -> Option<int> {
    let t = if s.len() > 0 && s[0] == PLUS {
        s.drop_first()
    } else {
        s
    };
    if t.len() > 0 && all_digits(t, hex) && digits_value(t, hex) <= max {
        Some(digits_value(t, hex))
    } else {
        None
    }
}

/// The signed integer denoted by `s`: an optional leading sign and at
/// least one digit, rejected when malformed or outside `[lo, hi]`.
pub open spec fn parse_int(s: Seq<u8>, hex: bool, lo: int, hi: int) -> Option<int> {
    let neg = s.len() > 0 && s[0] == MINUS;
    let t = if s.len() > 0 && (s[0] == PLUS || s[0] == MINUS) {
        s.drop_first()
    } else {
        s
    };
    if t.len() > 0 && all_digits(t, hex) {
        let v = if neg {
            -digits_value(t, hex)
        } else {
            digits_value(t, hex)
        };
        if lo <= v <= hi {
            Some(v)
        } else {
            None
        }
    } else {
        None
    }
}

/// A digit string denotes a value no smaller than any of its prefixes.
pub proof fn lemma_digits_value_bounds(s: Seq<u8>, hex: bool, j: int)
    requires
        all_digits(s, hex),
        0 <= j <= s.len(),
    ensures
        0 <= digits_value(s.subrange(0, j), hex) <= digits_value(s, hex),
    decreases s.len(),
{
    if s.len() == 0 {
        assert(s.subrange(0, j) =~= s);
    } else {
        let t = s.drop_last();
        assert(all_digits(t, hex)) by {
            assert(forall|k: int| 0 <= k < t.len() ==> t[k] == s[k]);
        }
        if j == s.len() {
            assert(s.subrange(0, j) =~= s);
            lemma_digits_value_bounds(t, hex, t.len() as int);
            assert(t.subrange(0, t.len() as int) =~= t);
        } else {
            assert(s.subrange(0, j) =~= t.subrange(0, j));
            lemma_digits_value_bounds(t, hex, j);
        }
    }
}

/// A successfully parsed unsigned number lies between 0 and `max`.
pub proof fn lemma_parse_uint_range(s: Seq<u8>, hex: bool, max: int)
    ensures
        parse_uint(s, hex, max) is Some ==> 0 <= parse_uint(s, hex, max)->Some_0 <= max,
{
    let t = if s.len() > 0 && s[0] == PLUS {
        s.drop_first()
    } else {
        s
    };
    if t.len() > 0 && all_digits(t, hex) {
        lemma_digits_value_bounds(t, hex, t.len() as int);
    }
}

fn digit_value_of(b: u8, hex: bool) -> (r: Option<u8>)
    ensures
        match r {
            Some(v) => digit_ok(b, hex) && v == digit_val(b),
            None => !digit_ok(b, hex),
        },
{
    if DIGIT_0 <= b && b <= DIGIT_9 {
        Some(b - DIGIT_0)
    } else if hex && UP_A <= b && b <= UP_F {
        Some(b - UP_A + 10)
    } else if hex && LOW_A <= b && b <= LOW_F {
        Some(b - LOW_A + 10)
    } else {
        None
    }
}

fn parse_digits_u32(s: &[u8], hex: bool) -> (r: Option<u32>)
    ensures
        match r {
            Some(v) => s@.len() > 0 && all_digits(s@, hex) && digits_value(s@, hex) == v,
            None => !(s@.len() > 0 && all_digits(s@, hex) && digits_value(s@, hex)
                <= u32::MAX as int),
        },
{
    if s.len() == 0 {
        return None;
    }
    let base: u64 = if hex {
        16
    } else {
        10
    };
    let mut acc: u64 = 0;
    let mut i: usize = 0;
    while i < s.len()
        invariant
            base == base_of(hex),
            i <= s@.len(),
            all_digits(s@.subrange(0, i as int), hex),
            acc == digits_value(s@.subrange(0, i as int), hex),
            acc <= u32::MAX,
        decreases s@.len() - i,
    {
        let d = match digit_value_of(s[i], hex) {
            Some(d) => d,
            None => {
                return None;
            },
        };
        let next = acc * base + (d as u64);
        proof {
            assert(s@.subrange(0, i + 1).drop_last() =~= s@.subrange(0, i as int));
            assert(s@.subrange(0, i + 1).last() == s@[i as int]);
        }
        if next > u32::MAX as u64 {
            proof {
                if all_digits(s@, hex) {
                    lemma_digits_value_bounds(s@, hex, i + 1);
                }
            }
            return None;
        }
        acc = next;
        i = i + 1;
    }
    proof {
        assert(s@.subrange(0, s@.len() as int) =~= s@);
    }
    Some(acc as u32)
}

/// Parse an unsigned decimal or hexadecimal number with an optional
/// leading `+`, rejecting values above `max`.
pub fn parse_unsigned(s: &[u8], hex: bool, max: u32) -> (r: Option<u32>)
    ensures
        match parse_uint(s@, hex, max as int) {
            Some(v) => r == Some(v as u32),
            None => r is None,
        },
{
    let digits: Vec<u8> = if s.len() > 0 && s[0] == PLUS {
        sub_bytes(s, 1, s.len())
    } else {
        sub_bytes(s, 0, s.len())
    };
    proof {
        if s@.len() > 0 && s@[0] == PLUS {
            assert(digits@ =~= s@.drop_first());
        } else {
            assert(digits@ =~= s@);
        }
    }
    match parse_digits_u32(digits.as_slice(), hex) {
        Some(v) => {
            if v <= max {
                Some(v)
            } else {
                None
            }
        },
        None => None,
    }
}

/// Parse a signed decimal or hexadecimal number with an optional leading
/// sign into the 8-bit signed range.
pub fn parse_signed8(s: &[u8], hex: bool) -> (r: Option<i8>)
    ensures
        match parse_int(s@, hex, -128, 127) {
            Some(v) => r == Some(v as i8),
            None => r is None,
        },
{
    let neg = s.len() > 0 && s[0] == MINUS;
    let digits: Vec<u8> = if s.len() > 0 && (s[0] == PLUS || s[0] == MINUS) {
        sub_bytes(s, 1, s.len())
    } else {
        sub_bytes(s, 0, s.len())
    };
    proof {
        if s@.len() > 0 && (s@[0] == PLUS || s@[0] == MINUS) {
            assert(digits@ =~= s@.drop_first());
        } else {
            assert(digits@ =~= s@);
        }
    }
    match parse_digits_u32(digits.as_slice(), hex) {
        Some(v) => {
            if neg {
                if v <= 128 {
                    Some((-(v as i64)) as i8)
                } else {
                    None
                }
            } else {
                if v <= 127 {
                    Some(v as i8)
                } else {
                    None
                }
            }
        },
        None => None,
    }
}

fn upper_byte(b: u8) -> (r: u8)
    ensures
        r == upper(b),
{
    if LOW_A <= b && b <= LOW_Z {
        b - 32
    } else {
        b
    }
}

/// ASCII upper-casing of a byte string.
pub fn to_upper(s: &[u8]) -> (r: Vec<u8>)
    ensures
        r@ == upper_seq(s@),
{
    let mut r: Vec<u8> = Vec::new();
    let mut i: usize = 0;
    while i < s.len()
        invariant
            i <= s@.len(),
            r@ == upper_seq(s@.subrange(0, i as int)),
        decreases s@.len() - i,
    {
        r.push(upper_byte(s[i]));
        proof {
            assert(s@.subrange(0, i + 1 as int).drop_last() =~= s@.subrange(0, i as int));
            assert(upper_seq(s@.subrange(0, i + 1)) =~= upper_seq(s@.subrange(0, i as int)).push(
                upper(s@[i as int]),
            ));
        }
        i = i + 1;
    }
    proof {
        assert(s@.subrange(0, s@.len() as int) =~= s@);
    }
    r
}

/// Length of the leading run of non-whitespace bytes of `s`.
pub open spec fn token_end(s: Seq<u8>) -> int
    decreases s.len(),
{
    if s.len() == 0 {
        0
    } else if is_space(s[0]) {
        0
    } else {
        1 + token_end(s.drop_first())
    }
}

/// `token_end` stays within `s` and marks the first whitespace byte.
pub proof fn lemma_token_end(s: Seq<u8>)
    ensures
        0 <= token_end(s) <= s.len(),
        forall|k: int| 0 <= k < token_end(s) ==> !is_space(s[k]),
        token_end(s) < s.len() ==> is_space(s[token_end(s)]),
    decreases s.len(),
{
    if s.len() > 0 && !is_space(s[0]) {
        let t = s.drop_first();
        lemma_token_end(t);
        assert(forall|k: int| 0 <= k < token_end(s) ==> !is_space(s[k])) by {
            assert forall|k: int| 0 <= k < token_end(s) implies !is_space(s[k]) by {
                if k > 0 {
                    assert(s[k] == t[k - 1]);
                }
            }
        }
    }
}

/// `token_end` of `t` equals `j` exactly when the bytes before `j` are
/// non-whitespace and `j` is the end or a whitespace byte.
pub proof fn lemma_token_end_at(t: Seq<u8>, j: int)
    requires
        0 <= j <= t.len(),
        forall|k: int| 0 <= k < j ==> !is_space(t[k]),
        j == t.len() || is_space(t[j]),
    ensures
        token_end(t) == j,
    decreases j,
{
    if j > 0 {
        let u = t.drop_first();
        lemma_token_end_at(u, j - 1);
    }
}

/// `find_idx` of `t` equals `j` exactly when the bytes before `j` differ
/// from `b` and `j` is the end or an occurrence of `b`.
pub proof fn lemma_find_idx_at(t: Seq<u8>, b: u8, j: int)
    requires
        0 <= j <= t.len(),
        forall|k: int| 0 <= k < j ==> t[k] != b,
        j == t.len() || t[j] == b,
    ensures
        find_idx(t, b) == j,
    decreases j,
{
    if j > 0 {
        let u = t.drop_first();
        lemma_find_idx_at(u, b, j - 1);
    }
}

/// The whitespace-separated tokens of `s`, in order, without empties.
pub open spec fn split_ws(s: Seq<u8>) -> Seq<Seq<u8>>
    decreases s.len(),
    via split_ws_decreases
{
    if s.len() == 0 {
        Seq::empty()
    } else if is_space(s[0]) {
        split_ws(s.drop_first())
    } else {
        seq![s.subrange(0, token_end(s))] + split_ws(s.subrange(token_end(s), s.len() as int))
    }
}

#[via_fn]
proof fn split_ws_decreases(s: Seq<u8>) {
    lemma_token_end(s);
}

/// The segments of `s` between occurrences of the delimiter `d`, in order,
/// empties kept; a string without `d` is one segment.
pub open spec fn split_on(s: Seq<u8>, d: u8) -> Seq<Seq<u8>>
    decreases s.len(),
    via split_on_decreases
{
    let e = find_idx(s, d);
    if e == s.len() {
        seq![s]
    } else {
        seq![s.subrange(0, e)] + split_on(s.subrange(e + 1, s.len() as int), d)
    }
}

#[via_fn]
proof fn split_on_decreases(s: Seq<u8>, d: u8) {
    lemma_find_idx(s, d);
}

/// The whitespace-separated tokens of `s`, each as a fresh copy.
pub fn split_ws_bytes(s: &[u8]) -> (r: Vec<Vec<u8>>)
    ensures
        r.deep_view() == split_ws(s@),
{
    let len = s.len();
    let mut r: Vec<Vec<u8>> = Vec::new();
    proof {
        assert(s@.subrange(0, len as int) =~= s@);
        assert(r.deep_view() =~~= Seq::<Seq<u8>>::empty());
    }
    let mut i: usize = 0;
    while i < len
        invariant
            i <= len == s@.len(),
            split_ws(s@) == r.deep_view() + split_ws(s@.subrange(i as int, len as int)),
        decreases len - i,
    {
        if space_byte(s[i]) {
            proof {
                let t = s@.subrange(i as int, len as int);
                assert(t.drop_first() =~= s@.subrange(i + 1, len as int));
            }
            i = i + 1;
        } else {
            let start = i;
            let mut j = i;
            while j < len && !space_byte(s[j])
                invariant
                    start <= j <= len == s@.len(),
                    forall|k: int| start <= k < j ==> !is_space(s@[k]),
                decreases len - j,
            {
                j = j + 1;
            }
            let tok = sub_bytes(s, start, j);
            proof {
                let t = s@.subrange(start as int, len as int);
                lemma_token_end_at(t, j - start);
                assert(t.subrange(0, j - start) =~= s@.subrange(start as int, j as int));
                assert(t.subrange(j - start, t.len() as int) =~= s@.subrange(
                    j as int,
                    len as int,
                ));
            }
            let ghost old_r = r.deep_view();
            let ghost tok_view = tok@;
            r.push(tok);
            proof {
                assert(r.deep_view() =~~= old_r + seq![tok_view]);
                assert(old_r + (seq![tok_view] + split_ws(s@.subrange(j as int, len as int))) =~= (
                old_r + seq![tok_view]) + split_ws(s@.subrange(j as int, len as int)));
            }
            i = j;
        }
    }
    proof {
        assert(s@.subrange(len as int, len as int) =~= Seq::<u8>::empty());
        assert(r.deep_view() =~= r.deep_view() + split_ws(s@.subrange(len as int, len as int)));
    }
    r
}

/// The segments of `s` around the delimiter `d`, each as a fresh copy.
pub fn split_on_byte(s: &[u8], d: u8) -> (r: Vec<Vec<u8>>)
    ensures
        r.deep_view() == split_on(s@, d),
{
    let len = s.len();
    let mut r: Vec<Vec<u8>> = Vec::new();
    proof {
        assert(s@.subrange(0, len as int) =~= s@);
        assert(r.deep_view() =~~= Seq::<Seq<u8>>::empty());
    }
    let mut start: usize = 0;
    loop
        invariant
            start <= len == s@.len(),
            split_on(s@, d) == r.deep_view() + split_on(s@.subrange(start as int, len as int), d),
        ensures
            r.deep_view() == split_on(s@, d),
        decreases len - start,
    {
        let mut j = start;
        while j < len && s[j] != d
            invariant
                start <= j <= len == s@.len(),
                forall|k: int| start <= k < j ==> s@[k] != d,
            decreases len - j,
        {
            j = j + 1;
        }
        let seg = sub_bytes(s, start, j);
        proof {
            let t = s@.subrange(start as int, len as int);
            lemma_find_idx_at(t, d, j - start);
            assert(t.subrange(0, j - start) =~= s@.subrange(start as int, j as int));
            if j < len {
                assert(t.subrange(j - start + 1, t.len() as int) =~= s@.subrange(
                    j + 1,
                    len as int,
                ));
            } else {
                assert(t =~= s@.subrange(start as int, j as int));
            }
        }
        let ghost old_r = r.deep_view();
        r.push(seg);
        proof {
            assert(r.deep_view() =~~= old_r + seq![s@.subrange(start as int, j as int)]);
        }
        if j == len {
            return r;
        }
        start = j + 1;
    }
}

/// Append every byte of `src` to `dst`, in order.
pub fn push_all(dst: &mut Vec<u8>, src: &[u8])
    ensures
        final(dst)@ == old(dst)@ + src@,
{
    let mut i: usize = 0;
    while i < src.len()
        invariant
            i <= src@.len(),
            dst@ == old(dst)@ + src@.subrange(0, i as int),
        decreases src@.len() - i,
    {
        dst.push(src[i]);
        proof {
            assert(old(dst)@ + src@.subrange(0, i + 1) =~= (old(dst)@ + src@.subrange(
                0,
                i as int,
            )).push(src@[i as int]));
        }
        i = i + 1;
    }
    proof {
        assert(src@.subrange(0, src@.len() as int) =~= src@);
    }
}

/// Whether every byte of `s` is a decimal digit.
pub fn all_dec_digits(s: &[u8]) -> (r: bool)
    ensures
        r == all_digits(s@, false),
{
    let mut i: usize = 0;
    while i < s.len()
        invariant
            i <= s@.len(),
            forall|k: int| 0 <= k < i ==> digit_ok(s@[k], false),
        decreases s@.len() - i,
    {
        if !(DIGIT_0 <= s[i] && s[i] <= DIGIT_9) {
            return false;
        }
        i = i + 1;
    }
    true
}

/// Exact equality of two byte strings.
pub fn bytes_eq(a: &[u8], b: &[u8]) -> (r: bool)
    ensures
        r == (a@ == b@),
{
    if a.len() != b.len() {
        return false;
    }
    let mut i: usize = 0;
    while i < a.len()
        invariant
            a@.len() == b@.len(),
            i <= a@.len(),
            forall|k: int| 0 <= k < i ==> a@[k] == b@[k],
        decreases a@.len() - i,
    {
        if a[i] != b[i] {
            return false;
        }
        i = i + 1;
    }
    proof {
        assert(a@ =~= b@);
    }
    true
}

/// A fresh copy of `s[from..to]`.
pub fn sub_bytes(s: &[u8], from: usize, to: usize) -> (r: Vec<u8>)
    requires
        from <= to <= s@.len(),
    ensures
        r@ == s@.subrange(from as int, to as int),
{
    let mut r: Vec<u8> = Vec::new();
    let mut i: usize = from;
    while i < to
        invariant
            from <= i <= to <= s@.len(),
            r@ == s@.subrange(from as int, i as int),
        decreases to - i,
    {
        r.push(s[i]);
        proof {
            assert(s@.subrange(from as int, i + 1) =~= s@.subrange(from as int, i as int).push(
                s@[i as int],
            ));
        }
        i = i + 1;
    }
    r
}

} // verus!
