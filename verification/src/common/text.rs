//! Character-level text utilities shared by the protocol modules.

use vstd::prelude::*;
use vstd::string::*;

verus! {

/// The characters of a string slice, as a vector.
pub fn chars_of(s: &str) -> (v: Vec<char>)
    ensures
        v@ == s@,
{
    let n = s.unicode_len();
    let mut v: Vec<char> = Vec::new();
    let mut i: usize = 0;
    while i < n
        invariant
            n == s@.len(),
            i <= n,
            v@ == s@.subrange(0, i as int),
        decreases n - i,
    {
        let c = s.get_char(i);
        v.push(c);
        i = i + 1;
    }
    v
}

/// Builds a string out of a sequence of characters (collects the characters
/// into a `String` with std's `FromIterator`).
#[verifier::external_body]
pub(crate) fn string_from_chars(v: &[char]) -> (s: String)
    ensures
        s@ == v@,
{
    v.iter().collect()
}

/// The text that `bytes` decode to as UTF-8, each invalid sequence replaced
/// by U+FFFD, as std's `String::from_utf8_lossy` does it.
pub uninterp spec fn utf8_lossy(bytes: Seq<u8>) -> Seq<char>;

/// Decodes bytes with std's `String::from_utf8_lossy`. Claimed: the result
/// is `utf8_lossy` of the bytes, and for valid UTF-8 it is the decoded text.
#[verifier::external_body]
pub(crate) fn decode_utf8_lossy(bytes: &[u8]) -> (s: String)
    ensures
        s@ == utf8_lossy(bytes@),
        vstd::utf8::valid_utf8(bytes@) ==> s@ == vstd::utf8::decode_utf8(bytes@),
{
    String::from_utf8_lossy(bytes).into_owned()
}

/// Character-wise equality of two character vectors.
pub fn chars_eq(a: &[char], b: &[char]) -> (r: bool)
    ensures
        r == (a@ == b@),
{
    if a.len() != b.len() {
        return false;
    }
    let mut i: usize = 0;
    while i < a.len()
        invariant
            a.len() == b.len(),
            i <= a.len(),
            forall|j: int| 0 <= j < i ==> a@[j] == b@[j],
        decreases a.len() - i,
    {
        if a[i] != b[i] {
            return false;
        }
        i = i + 1;
    }
    assert(a@ =~= b@);
    true
}

/// The character of a decimal digit.
pub open spec fn digit_char(d: nat) -> char
    recommends
        d < 10,
{
    (('0' as u32) + d) as char
}

/// Decimal notation of a natural number, without leading zeros.
pub open spec fn decimal(n: nat) -> Seq<char>
    decreases n,
{
    if n < 10 {
        seq![digit_char(n)]
    } else {
        decimal(n / 10).push(digit_char(n % 10))
    }
}

/// Decimal notation of an integer: a `-` before negative numbers.
pub open spec fn signed_decimal(n: int) -> Seq<char> {
    if n < 0 {
        seq!['-'] + decimal((-n) as nat)
    } else {
        decimal(n as nat)
    }
}

fn digit_of(d: u64) -> (c: char)
    requires
        d < 10,
    ensures
        c == digit_char(d as nat),
{
    let r: char = match d {
        0 => '0',
        1 => '1',
        2 => '2',
        3 => '3',
        4 => '4',
        5 => '5',
        6 => '6',
        7 => '7',
        8 => '8',
        _ => '9',
    };
    proof {
        assert(('0' as u32) == 48);
    }
    r
}

/// Appends the decimal notation of `n` to `out`.
pub fn push_decimal(out: &mut Vec<char>, n: u64)
    ensures
        final(out)@ == old(out)@ + decimal(n as nat),
    decreases n,
{
    if n < 10 {
        out.push(digit_of(n));
        proof {
            assert(decimal(n as nat) == seq![digit_char(n as nat)]);
            assert(old(out)@.push(digit_char(n as nat)) =~= old(out)@ + seq![digit_char(n as nat)]);
        }
    } else {
        push_decimal(out, n / 10);
        let ghost mid = out@;
        out.push(digit_of(n % 10));
        proof {
            assert(decimal(n as nat) == decimal((n / 10) as nat).push(digit_char((n % 10) as nat)));
            assert(mid.push(digit_char((n % 10) as nat)) =~= old(out)@ + decimal(n as nat));
        }
    }
}

/// Appends the decimal notation of a signed integer to `out`.
pub fn push_signed_decimal(out: &mut Vec<char>, n: i64)
    ensures
        final(out)@ == old(out)@ + signed_decimal(n as int),
{
    if n < 0 {
        out.push('-');
        let m: u64 = if n == i64::MIN { 9223372036854775808u64 } else { (-n) as u64 };
        let ghost mid = out@;
        push_decimal(out, m);
        proof {
            assert(mid + decimal(m as nat) =~= old(out)@ + (seq!['-'] + decimal((-n) as nat)));
        }
    } else {
        push_decimal(out, n as u64);
    }
}

/// Appends all of `src` to `out`.
pub fn push_all(out: &mut Vec<char>, src: &[char])
    ensures
        final(out)@ == old(out)@ + src@,
{
    let mut i: usize = 0;
    while i < src.len()
        invariant
            i <= src.len(),
            out@ == old(out)@ + src@.subrange(0, i as int),
        decreases src.len() - i,
    {
        out.push(src[i]);
        i = i + 1;
        proof {
            assert(out@ =~= old(out)@ + src@.subrange(0, i as int));
        }
    }
    proof {
        assert(src@.subrange(0, src@.len() as int) =~= src@);
    }
}

/// Appends the characters of a string to `out`.
pub fn push_str(out: &mut Vec<char>, s: &str)
    ensures
        final(out)@ == old(out)@ + s@,
{
    let v = chars_of(s);
    push_all(out, v.as_slice());
}

/// A decimal digit.
pub open spec fn is_digit(c: char) -> bool {
    '0' <= c && c <= '9'
}

/// The value of a string of decimal digits.
pub open spec fn digits_value(s: Seq<char>) -> int
    decreases s.len(),
{
    if s.len() == 0 {
        0
    } else {
        digits_value(s.drop_last()) * 10 + (s.last() as int - '0' as int)
    }
}

/// The text starts with a sign (`-` only when allowed).
pub open spec fn has_sign(s: Seq<char>, allow_neg: bool) -> bool {
    s.len() > 0 && (s[0] == '+' || (s[0] == '-' && allow_neg))
}

/// All characters are decimal digits.
pub open spec fn all_digits(b: Seq<char>) -> bool {
    forall|i: int| 0 <= i < b.len() ==> is_digit(#[trigger] b[i])
}

/// Integer text as std's `FromStr` for integers reads it: an optional sign
/// (`-` only where negative values are allowed), then at least one decimal
/// digit and nothing else; the value must lie in `[min, max]`.
pub open spec fn spec_parse_int(s: Seq<char>, min: int, max: int) -> Option<int> {
    let neg = s.len() > 0 && s[0] == '-' && min < 0;
    let body = if has_sign(s, min < 0) { s.drop_first() } else { s };
    if body.len() == 0 || !all_digits(body) {
        None
    } else {
        let v = if neg { -digits_value(body) } else { digits_value(body) };
        if min <= v && v <= max { Some(v) } else { None }
    }
}

proof fn lemma_digits_grow(s: Seq<char>, n: int)
    requires
        0 <= n <= s.len(),
        forall|i: int| 0 <= i < s.len() ==> is_digit(#[trigger] s[i]),
    ensures
        digits_value(s.take(n)) <= digits_value(s),
        digits_value(s.take(n)) >= 0,
    decreases s.len() - n,
{
    if n < s.len() {
        lemma_digits_grow(s, n + 1);
        assert(s.take(n + 1).drop_last() =~= s.take(n));
        assert(is_digit(s[n]));
    } else {
        assert(s.take(n) =~= s);
        lemma_digits_nonneg(s);
    }
}

proof fn lemma_digits_nonneg(s: Seq<char>)
    requires
        forall|i: int| 0 <= i < s.len() ==> is_digit(#[trigger] s[i]),
    ensures
        digits_value(s) >= 0,
    decreases s.len(),
{
    if s.len() > 0 {
        let p = s.drop_last();
        assert forall|i: int| 0 <= i < p.len() implies is_digit(#[trigger] p[i]) by {
            assert(p[i] == s[i]);
        }
        lemma_digits_nonneg(p);
        assert(is_digit(s[s.len() - 1]));
    }
}

/// Reads the digits of `body` (a magnitude), when all are digits and the
/// value does not exceed 2^64.
fn read_magnitude(body: &[char]) -> (r: Option<u128>)
    ensures
        match r {
            Some(v) => body@.len() > 0 && all_digits(body@) && v == digits_value(body@),
            None => body@.len() == 0 || !all_digits(body@) || digits_value(body@) > 0x1_0000_0000_0000_0000,
        },
{
    if body.len() == 0 {
        return None;
    }
    let mut acc: u128 = 0;
    let mut i: usize = 0;
    while i < body.len()
        invariant
            i <= body@.len(),
            forall|j: int| 0 <= j < i ==> is_digit(#[trigger] body@[j]),
            acc == digits_value(body@.take(i as int)),
            acc <= 0x1_0000_0000_0000_0000,
        decreases body.len() - i,
    {
        let c = body[i];
        if !('0' <= c && c <= '9') {
            return None;
        }
        proof {
            assert(body@.take(i + 1).drop_last() =~= body@.take(i as int));
            assert(body@.take(i + 1).last() == c);
        }
        let d = (c as u32 - '0' as u32) as u128;
        acc = acc * 10 + d;
        i = i + 1;
        if acc > 0x1_0000_0000_0000_0000 {
            proof {
                let all_digits = forall|j: int| 0 <= j < body@.len() ==> is_digit(#[trigger] body@[j]);
                if all_digits {
                    lemma_digits_grow(body@, i as int);
                }
            }
            return None;
        }
    }
    proof {
        assert(body@.take(i as int) =~= body@);
    }
    Some(acc)
}

/// Reads integer text as std's `FromStr` for `i64` does (see `spec_parse_int`).
pub fn parse_i64(s: &str) -> (r: Option<i64>)
    ensures
        match spec_parse_int(s@, i64::MIN as int, i64::MAX as int) {
            Some(v) => r == Some(v as i64),
            None => r is None,
        },
{
    let cs = chars_of(s);
    let neg = cs.len() > 0 && cs[0] == '-';
    let signed = cs.len() > 0 && (cs[0] == '+' || cs[0] == '-');
    let body: &[char] = if signed {
        let (_, rest) = cs.as_slice().split_at(1);
        rest
    } else {
        cs.as_slice()
    };
    proof {
        assert(cs@ == s@);
        if signed {
            assert(body@ =~= s@.drop_first());
        } else {
            assert(body@ =~= s@);
        }
    }
    let ghost sbody = if has_sign(s@, true) { s@.drop_first() } else { s@ };
    assert(body@ == sbody);
    match read_magnitude(body) {
        None => {
            proof {
                if spec_parse_int(s@, i64::MIN as int, i64::MAX as int) is Some {
                    assert(all_digits(body@));
                    lemma_digits_nonneg(body@);
                }
            }
            None
        },
        Some(m) => {
            if neg {
                if m <= 0x8000_0000_0000_0000 {
                    Some((0 - (m as i128)) as i64)
                } else {
                    None
                }
            } else if m <= 0x7fff_ffff_ffff_ffff {
                Some(m as i64)
            } else {
                None
            }
        },
    }
}

/// Reads integer text as std's `FromStr` for `u64` does (see `spec_parse_int`).
pub fn parse_u64(s: &str) -> (r: Option<u64>)
    ensures
        match spec_parse_int(s@, 0, u64::MAX as int) {
            Some(v) => r == Some(v as u64),
            None => r is None,
        },
{
    let cs = chars_of(s);
    let signed = cs.len() > 0 && cs[0] == '+';
    let body: &[char] = if signed {
        let (_, rest) = cs.as_slice().split_at(1);
        rest
    } else {
        cs.as_slice()
    };
    proof {
        assert(cs@ == s@);
        if signed {
            assert(body@ =~= s@.drop_first());
        } else {
            assert(body@ =~= s@);
        }
    }
    let ghost sbody = if has_sign(s@, false) { s@.drop_first() } else { s@ };
    assert(body@ == sbody);
    match read_magnitude(body) {
        None => {
            proof {
                if spec_parse_int(s@, 0, u64::MAX as int) is Some {
                    assert(all_digits(body@));
                    lemma_digits_nonneg(body@);
                }
            }
            None
        },
        Some(m) => if m <= 0xffff_ffff_ffff_ffff {
            Some(m as u64)
        } else {
            None
        },
    }
}

/// ASCII lower case of a character.
pub open spec fn ascii_lower(c: char) -> char {
    if 'A' <= c && c <= 'Z' { ((c as u32) + 32) as char } else { c }
}

/// ASCII lower case of a text.
pub open spec fn lower_text(s: Seq<char>) -> Seq<char> {
    s.map_values(|c: char| ascii_lower(c))
}

/// Digits, a point, digits, with at least one digit in all.
pub open spec fn is_mantissa(m: Seq<char>) -> bool {
    ||| (m.len() > 0 && all_digits(m))
    ||| exists|p: int| 0 <= p < m.len() && #[trigger] m[p] == '.' && m.len() > 1 && all_digits(m.take(p)) && all_digits(m.skip(p + 1))
}

/// `e` or `E`, an optional sign, then at least one digit.
pub open spec fn is_exponent(e: Seq<char>) -> bool {
    &&& e.len() > 0
    &&& (e[0] == 'e' || e[0] == 'E')
    &&& {
        let r = e.drop_first();
        let d = if r.len() > 0 && (r[0] == '+' || r[0] == '-') { r.drop_first() } else { r };
        d.len() > 0 && all_digits(d)
    }
}

/// Position of the first `e` or `E` (the length when there is none).
pub open spec fn exp_start(b: Seq<char>) -> int
    decreases b.len(),
{
    if b.len() == 0 {
        0
    } else if b[0] == 'e' || b[0] == 'E' {
        0
    } else {
        1 + exp_start(b.drop_first())
    }
}

/// Text that std's `FromStr` for `f64` accepts: an optional sign, then
/// `inf`, `infinity` or `nan` in any case, or a mantissa with an optional
/// exponent.
pub open spec fn is_float_text(s: Seq<char>) -> bool {
    let b = if s.len() > 0 && (s[0] == '+' || s[0] == '-') { s.drop_first() } else { s };
    let k = exp_start(b);
    ||| lower_text(b) == "inf"@
    ||| lower_text(b) == "infinity"@
    ||| lower_text(b) == "nan"@
    ||| (is_mantissa(b.take(k)) && (k == b.len() || is_exponent(b.skip(k))))
}

proof fn lemma_exp_start(b: Seq<char>)
    ensures
        0 <= exp_start(b) <= b.len(),
        forall|i: int| 0 <= i < exp_start(b) ==> #[trigger] b[i] != 'e' && b[i] != 'E',
        exp_start(b) < b.len() ==> (b[exp_start(b)] == 'e' || b[exp_start(b)] == 'E'),
    decreases b.len(),
{
    if b.len() > 0 && !(b[0] == 'e' || b[0] == 'E') {
        lemma_exp_start(b.drop_first());
        assert forall|i: int| 0 <= i < exp_start(b) implies #[trigger] b[i] != 'e' && b[i] != 'E' by {
            if i > 0 {
                assert(b[i] == b.drop_first()[i - 1]);
            }
        }
    }
}

/// The ASCII lower case of characters.
pub fn lower_chars(b: &[char]) -> (r: Vec<char>)
    ensures
        r@ == lower_text(b@),
{
    let mut r: Vec<char> = Vec::new();
    let mut i: usize = 0;
    while i < b.len()
        invariant
            i <= b@.len(),
            r@ == lower_text(b@.take(i as int)),
        decreases b.len() - i,
    {
        let c = b[i];
        let l = if 'A' <= c && c <= 'Z' { ((c as u32) + 32) as u8 as char } else { c };
        proof {
            assert(l == ascii_lower(c)) by {
                if 'A' <= c && c <= 'Z' {
                    assert((c as u32) + 32 < 128);
                }
            }
        }
        r.push(l);
        proof {
            assert(b@.take(i + 1) =~= b@.take(i as int).push(c));
            assert(lower_text(b@.take(i + 1)) =~= lower_text(b@.take(i as int)).push(ascii_lower(c)));
        }
        i = i + 1;
    }
    proof {
        assert(b@.take(i as int) =~= b@);
    }
    r
}

fn digits_only(b: &[char], from: usize, to: usize) -> (r: bool)
    requires
        from <= to <= b@.len(),
    ensures
        r == all_digits(b@.subrange(from as int, to as int)),
{
    let mut i = from;
    while i < to
        invariant
            from <= i <= to <= b@.len(),
            forall|j: int| from <= j < i ==> is_digit(#[trigger] b@[j]),
        decreases to - i,
    {
        if !('0' <= b[i] && b[i] <= '9') {
            proof {
                assert(b@.subrange(from as int, to as int)[i - from] == b@[i as int]);
            }
            return false;
        }
        i = i + 1;
    }
    proof {
        assert forall|j: int| 0 <= j < b@.subrange(from as int, to as int).len() implies is_digit(#[trigger] b@.subrange(from as int, to as int)[j]) by {
            assert(b@.subrange(from as int, to as int)[j] == b@[from + j]);
        }
    }
    true
}

/// Whether `s` is text that std's `FromStr` for `f64` accepts (see
/// `is_float_text`).
pub fn float_text(s: &str) -> (r: bool)
    ensures
        r == is_float_text(s@),
{
    let cs = chars_of(s);
    let signed = cs.len() > 0 && (cs[0] == '+' || cs[0] == '-');
    let b: &[char] = if signed {
        let (_, rest) = cs.as_slice().split_at(1);
        rest
    } else {
        cs.as_slice()
    };
    let ghost sb = if s@.len() > 0 && (s@[0] == '+' || s@[0] == '-') { s@.drop_first() } else { s@ };
    proof {
        if signed {
            assert(b@ =~= s@.drop_first());
        } else {
            assert(b@ =~= s@);
        }
        assert(b@ == sb);
    }
    let lower = lower_chars(b);
    let inf = chars_of("inf");
    let infinity = chars_of("infinity");
    let nan = chars_of("nan");
    if chars_eq(lower.as_slice(), inf.as_slice()) || chars_eq(lower.as_slice(), infinity.as_slice()) || chars_eq(lower.as_slice(), nan.as_slice()) {
        return true;
    }
    /* The mantissa ends at the first `e` or `E`. */
    let mut k: usize = 0;
    while k < b.len() && b[k] != 'e' && b[k] != 'E'
        invariant
            k <= b@.len(),
            forall|i: int| 0 <= i < k ==> #[trigger] b@[i] != 'e' && b@[i] != 'E',
        decreases b.len() - k,
    {
        k = k + 1;
    }
    proof {
        lemma_exp_start(b@);
        if exp_start(b@) < k {
            assert(b@[exp_start(b@)] != 'e' && b@[exp_start(b@)] != 'E');
        }
        if k < exp_start(b@) {
            assert(b@[k as int] != 'e' && b@[k as int] != 'E');
        }
        assert(k == exp_start(b@));
    }
    /* The mantissa: digits, at most one point, at least one digit. */
    let mut p: usize = 0;
    while p < k && b[p] != '.'
        invariant
            p <= k <= b@.len(),
            forall|i: int| 0 <= i < p ==> #[trigger] b@[i] != '.',
        decreases k - p,
    {
        p = p + 1;
    }
    let mantissa_ok = if p == k {
        k > 0 && digits_only(b, 0, k)
    } else {
        k > 1 && digits_only(b, 0, p) && digits_only(b, p + 1, k)
    };
    proof {
        let m = b@.take(k as int);
        if p == k {
            assert(forall|i: int| 0 <= i < m.len() ==> m[i] != '.');
            assert(b@.subrange(0, k as int) =~= m);
            if is_mantissa(m) && !(m.len() > 0 && all_digits(m)) {
                let q = choose|q: int| 0 <= q < m.len() && #[trigger] m[q] == '.' && m.len() > 1 && all_digits(m.take(q)) && all_digits(m.skip(q + 1));
                assert(m[q] != '.');
            }
        } else {
            assert(m[p as int] == '.');
            assert(b@.subrange(0, p as int) =~= m.take(p as int));
            assert(b@.subrange(p + 1, k as int) =~= m.skip(p + 1));
            if is_mantissa(m) {
                if m.len() > 0 && all_digits(m) {
                    assert(is_digit(m[p as int]));
                } else {
                    let q = choose|q: int| 0 <= q < m.len() && #[trigger] m[q] == '.' && m.len() > 1 && all_digits(m.take(q)) && all_digits(m.skip(q + 1));
                    if q < p {
                        assert(b@[q] != '.');
                    } else if q > p {
                        assert(m.skip(q + 1) == m.skip(q + 1));
                        assert(m.take(q)[p as int] == '.');
                        assert(is_digit(m.take(q)[p as int]));
                    }
                }
            }
            if mantissa_ok {
                assert(m[p as int] == '.');
            }
        }
    }
    if !mantissa_ok {
        return false;
    }
    if k == b.len() {
        return true;
    }
    /* The exponent. */
    let mut d = k + 1;
    if d < b.len() && (b[d] == '+' || b[d] == '-') {
        d = d + 1;
    }
    let exp_ok = d < b.len() && digits_only(b, d, b.len());
    proof {
        let e = b@.skip(k as int);
        let r = e.drop_first();
        assert(r =~= b@.skip(k + 1));
        let dd = if r.len() > 0 && (r[0] == '+' || r[0] == '-') { r.drop_first() } else { r };
        assert(dd =~= b@.subrange(d as int, b@.len() as int));
    }
    exp_ok
}

/// Lexicographic order of texts by character (the order of `String`).
pub open spec fn text_lt(a: Seq<char>, b: Seq<char>) -> bool
    decreases a.len(),
{
    if a.len() == 0 {
        b.len() > 0
    } else if b.len() == 0 {
        false
    } else if a[0] != b[0] {
        a[0] < b[0]
    } else {
        text_lt(a.drop_first(), b.drop_first())
    }
}

/// Text order is irreflexive.
pub proof fn lemma_text_lt_irreflexive(a: Seq<char>)
    ensures
        !text_lt(a, a),
    decreases a.len(),
{
    if a.len() > 0 {
        lemma_text_lt_irreflexive(a.drop_first());
    }
}

/// Text order is transitive.
pub proof fn lemma_text_lt_transitive(a: Seq<char>, b: Seq<char>, c: Seq<char>)
    requires
        text_lt(a, b),
        text_lt(b, c),
    ensures
        text_lt(a, c),
    decreases a.len(),
{
    if a.len() > 0 && b.len() > 0 && c.len() > 0 && a[0] == b[0] && b[0] == c[0] {
        lemma_text_lt_transitive(a.drop_first(), b.drop_first(), c.drop_first());
    }
}

/// Two distinct texts are ordered one way or the other.
pub proof fn lemma_text_lt_total(a: Seq<char>, b: Seq<char>)
    requires
        a != b,
    ensures
        text_lt(a, b) || text_lt(b, a),
    decreases a.len(),
{
    if a.len() > 0 && b.len() > 0 && a[0] == b[0] {
        if a.drop_first() == b.drop_first() {
            assert(a =~= seq![a[0]] + a.drop_first());
            assert(b =~= seq![b[0]] + b.drop_first());
        }
        lemma_text_lt_total(a.drop_first(), b.drop_first());
    } else if a.len() == 0 && b.len() == 0 {
        assert(a =~= b);
    }
}

/// Text order.
pub fn str_lt(a: &str, b: &str) -> (r: bool)
    ensures
        r == text_lt(a@, b@),
{
    let x = chars_of(a);
    let y = chars_of(b);
    let mut i: usize = 0;
    proof {
        assert(x@.skip(0) =~= x@);
        assert(y@.skip(0) =~= y@);
    }
    while i < x.len() && i < y.len() && x[i] == y[i]
        invariant
            x@ == a@,
            y@ == b@,
            i <= x@.len(),
            i <= y@.len(),
            text_lt(x@, y@) == text_lt(x@.skip(i as int), y@.skip(i as int)),
        decreases x.len() - i,
    {
        proof {
            assert(x@.skip(i as int).drop_first() =~= x@.skip(i + 1));
            assert(y@.skip(i as int).drop_first() =~= y@.skip(i + 1));
        }
        i = i + 1;
    }
    if i == x.len() {
        i < y.len()
    } else if i == y.len() {
        false
    } else {
        x[i] < y[i]
    }
}

/// Position of the first character that is no decimal digit (the length
/// when there is none).
pub open spec fn digit_run(b: Seq<char>) -> int
    decreases b.len(),
{
    if b.len() == 0 {
        0
    } else if !is_digit(b[0]) {
        0
    } else {
        1 + digit_run(b.drop_first())
    }
}

/// Why std's `FromStr` for an integer type with range `[min, max]` rejects
/// a text, as its error displays it: empty text; a sign alone or a
/// character that is no digit; or a value out of range (detected before a
/// later character that is no digit).
pub open spec fn int_error_text(s: Seq<char>, min: int, max: int) -> Seq<char> {
    if s.len() == 0 {
        "cannot parse integer from empty string"@
    } else {
        let neg = s[0] == '-' && min < 0;
        let body = if has_sign(s, min < 0) { s.drop_first() } else { s };
        let v = digits_value(body.take(digit_run(body)));
        if body.len() == 0 {
            "invalid digit found in string"@
        } else if !neg && v > max {
            "number too large to fit in target type"@
        } else if neg && -v < min {
            "number too small to fit in target type"@
        } else {
            "invalid digit found in string"@
        }
    }
}

proof fn lemma_digit_run(b: Seq<char>)
    ensures
        0 <= digit_run(b) <= b.len(),
        forall|i: int| 0 <= i < digit_run(b) ==> is_digit(#[trigger] b[i]),
        digit_run(b) < b.len() ==> !is_digit(b[digit_run(b)]),
    decreases b.len(),
{
    if b.len() > 0 && is_digit(b[0]) {
        lemma_digit_run(b.drop_first());
        assert forall|i: int| 0 <= i < digit_run(b) implies is_digit(#[trigger] b[i]) by {
            if i > 0 {
                assert(b[i] == b.drop_first()[i - 1]);
            }
        }
    }
}

/// Why std's `FromStr` for `i64` rejects a text (see `int_error_text`).
pub fn i64_error_text(s: &str) -> (r: String)
    ensures
        r@ == int_error_text(s@, i64::MIN as int, i64::MAX as int),
{
    let cs = chars_of(s);
    if cs.len() == 0 {
        return String::from_str("cannot parse integer from empty string");
    }
    let neg = cs[0] == '-';
    let signed = cs[0] == '+' || cs[0] == '-';
    let b: &[char] = if signed {
        let (_, rest) = cs.as_slice().split_at(1);
        rest
    } else {
        cs.as_slice()
    };
    proof {
        if signed {
            assert(b@ =~= s@.drop_first());
        } else {
            assert(b@ =~= s@);
        }
    }
    if b.len() == 0 {
        return String::from_str("invalid digit found in string");
    }
    let mut k: usize = 0;
    while k < b.len() && '0' <= b[k] && b[k] <= '9'
        invariant
            k <= b@.len(),
            forall|i: int| 0 <= i < k ==> is_digit(#[trigger] b@[i]),
        decreases b.len() - k,
    {
        k = k + 1;
    }
    proof {
        lemma_digit_run(b@);
        if digit_run(b@) < k {
            assert(is_digit(b@[digit_run(b@)]));
        }
        if k < digit_run(b@) {
            assert(is_digit(b@[k as int]));
        }
        assert(k == digit_run(b@));
    }
    let (digits, _) = b.split_at(k);
    let m = read_magnitude(digits);
    let mag: u128 = match m {
        Some(v) => v,
        None => {
            proof {
                assert(digits@ =~= b@.take(k as int));
                assert(crate::common::text::all_digits(digits@)) by {
                    assert forall|i: int| 0 <= i < digits@.len() implies is_digit(#[trigger] digits@[i]) by {
                        assert(digits@[i] == b@[i]);
                    }
                }
            }
            0x1_0000_0000_0000_0001
        },
    };
    proof {
        assert(digits@ =~= b@.take(k as int));
        if k == 0 {
            assert(digits@ =~= Seq::<char>::empty());
        }
    }
    if k > 0 && !neg && mag > 0x7fff_ffff_ffff_ffff {
        String::from_str("number too large to fit in target type")
    } else if k > 0 && neg && mag > 0x8000_0000_0000_0000 {
        String::from_str("number too small to fit in target type")
    } else {
        String::from_str("invalid digit found in string")
    }
}

/// Why std's `FromStr` for `u64` rejects a text (see `int_error_text`).
pub fn u64_error_text(s: &str) -> (r: String)
    ensures
        r@ == int_error_text(s@, 0, u64::MAX as int),
{
    let cs = chars_of(s);
    if cs.len() == 0 {
        return String::from_str("cannot parse integer from empty string");
    }
    let signed = cs[0] == '+';
    let b: &[char] = if signed {
        let (_, rest) = cs.as_slice().split_at(1);
        rest
    } else {
        cs.as_slice()
    };
    proof {
        if signed {
            assert(b@ =~= s@.drop_first());
        } else {
            assert(b@ =~= s@);
        }
    }
    if b.len() == 0 {
        return String::from_str("invalid digit found in string");
    }
    let mut k: usize = 0;
    while k < b.len() && '0' <= b[k] && b[k] <= '9'
        invariant
            k <= b@.len(),
            forall|i: int| 0 <= i < k ==> is_digit(#[trigger] b@[i]),
        decreases b.len() - k,
    {
        k = k + 1;
    }
    proof {
        lemma_digit_run(b@);
        if digit_run(b@) < k {
            assert(is_digit(b@[digit_run(b@)]));
        }
        if k < digit_run(b@) {
            assert(is_digit(b@[k as int]));
        }
        assert(k == digit_run(b@));
    }
    let (digits, _) = b.split_at(k);
    let m = read_magnitude(digits);
    let mag: u128 = match m {
        Some(v) => v,
        None => {
            proof {
                assert(digits@ =~= b@.take(k as int));
                assert(crate::common::text::all_digits(digits@)) by {
                    assert forall|i: int| 0 <= i < digits@.len() implies is_digit(#[trigger] digits@[i]) by {
                        assert(digits@[i] == b@[i]);
                    }
                }
            }
            0x1_0000_0000_0000_0001
        },
    };
    proof {
        assert(digits@ =~= b@.take(k as int));
        if k == 0 {
            assert(digits@ =~= Seq::<char>::empty());
        }
    }
    if k > 0 && mag > 0xffff_ffff_ffff_ffff {
        String::from_str("number too large to fit in target type")
    } else {
        String::from_str("invalid digit found in string")
    }
}

/// White space as `char::is_whitespace` takes it (the Unicode
/// `White_Space` property).
pub open spec fn is_unicode_ws(c: char) -> bool {
    ||| ('\t' <= c && c <= '\r')
    ||| c == ' '
    ||| c == '\u{85}'
    ||| c == '\u{a0}'
    ||| c == '\u{1680}'
    ||| ('\u{2000}' <= c && c <= '\u{200a}')
    ||| c == '\u{2028}'
    ||| c == '\u{2029}'
    ||| c == '\u{202f}'
    ||| c == '\u{205f}'
    ||| c == '\u{3000}'
}

/// Number of white space characters at the start.
pub open spec fn leading_ws(s: Seq<char>) -> int
    decreases s.len(),
{
    if s.len() == 0 || !is_unicode_ws(s[0]) { 0 } else { 1 + leading_ws(s.drop_first()) }
}

/// Number of white space characters at the end.
pub open spec fn trailing_ws(s: Seq<char>) -> int
    decreases s.len(),
{
    if s.len() == 0 || !is_unicode_ws(s.last()) { 0 } else { 1 + trailing_ws(s.drop_last()) }
}

/// The text without leading and trailing white space (`str::trim`).
pub open spec fn trimmed(s: Seq<char>) -> Seq<char> {
    let a = leading_ws(s);
    if a == s.len() { Seq::empty() } else { s.subrange(a, s.len() - trailing_ws(s)) }
}

fn unicode_ws(c: char) -> (r: bool)
    ensures
        r == is_unicode_ws(c),
{
    ('\t' <= c && c <= '\r') || c == ' ' || c == '\u{85}' || c == '\u{a0}' || c == '\u{1680}'
        || ('\u{2000}' <= c && c <= '\u{200a}') || c == '\u{2028}' || c == '\u{2029}'
        || c == '\u{202f}' || c == '\u{205f}' || c == '\u{3000}'
}

proof fn lemma_leading(s: Seq<char>)
    ensures
        0 <= leading_ws(s) <= s.len(),
        forall|i: int| 0 <= i < leading_ws(s) ==> is_unicode_ws(#[trigger] s[i]),
        leading_ws(s) < s.len() ==> !is_unicode_ws(s[leading_ws(s)]),
    decreases s.len(),
{
    if s.len() > 0 && is_unicode_ws(s[0]) {
        lemma_leading(s.drop_first());
        assert forall|i: int| 0 <= i < leading_ws(s) implies is_unicode_ws(#[trigger] s[i]) by {
            if i > 0 {
                assert(s[i] == s.drop_first()[i - 1]);
            }
        }
    }
}

proof fn lemma_trailing(s: Seq<char>)
    ensures
        0 <= trailing_ws(s) <= s.len(),
        forall|i: int| s.len() - trailing_ws(s) <= i < s.len() ==> is_unicode_ws(#[trigger] s[i]),
        trailing_ws(s) < s.len() ==> !is_unicode_ws(s[s.len() - 1 - trailing_ws(s)]),
    decreases s.len(),
{
    if s.len() > 0 && is_unicode_ws(s.last()) {
        lemma_trailing(s.drop_last());
        assert forall|i: int| s.len() - trailing_ws(s) <= i < s.len() implies is_unicode_ws(#[trigger] s[i]) by {
            if i < s.len() - 1 {
                assert(s[i] == s.drop_last()[i]);
            }
        }
        if trailing_ws(s) < s.len() {
            assert(s[s.len() - 1 - trailing_ws(s)] == s.drop_last()[s.drop_last().len() - 1 - trailing_ws(s.drop_last())]);
        }
    }
}

/// The text without leading and trailing white space (see `trimmed`).
pub fn trim_text(s: &str) -> (r: String)
    ensures
        r@ == trimmed(s@),
{
    let cs = chars_of(s);
    let mut a: usize = 0;
    while a < cs.len() && unicode_ws(cs[a])
        invariant
            cs@ == s@,
            a <= cs@.len(),
            forall|i: int| 0 <= i < a ==> is_unicode_ws(#[trigger] cs@[i]),
        decreases cs.len() - a,
    {
        a = a + 1;
    }
    proof {
        lemma_leading(s@);
        if leading_ws(s@) < a {
            assert(is_unicode_ws(s@[leading_ws(s@)]));
        }
        if a < leading_ws(s@) {
            assert(is_unicode_ws(s@[a as int]));
        }
        assert(a == leading_ws(s@));
    }
    if a == cs.len() {
        return string_from_chars(&[]);
    }
    let mut b: usize = cs.len();
    while b > a && unicode_ws(cs[b - 1])
        invariant
            cs@ == s@,
            a < cs@.len(),
            a <= b <= cs@.len(),
            !is_unicode_ws(cs@[a as int]),
            forall|i: int| b <= i < cs@.len() ==> is_unicode_ws(#[trigger] cs@[i]),
        decreases b,
    {
        b = b - 1;
    }
    proof {
        lemma_trailing(s@);
        let t = trailing_ws(s@);
        if s@.len() - t < b {
            assert(is_unicode_ws(s@[s@.len() - 1 - t]));
        }
        if b < s@.len() - t {
            assert(is_unicode_ws(s@[b as int]));
            assert(b > a);
            assert(is_unicode_ws(cs@[b - 1]) == false || b == a);
        }
        assert(b == s@.len() - t);
    }
    let (left, _) = cs.as_slice().split_at(b);
    let (_, mid) = left.split_at(a);
    proof {
        assert(mid@ =~= s@.subrange(a as int, b as int));
    }
    string_from_chars(mid)
}

/// The text without trailing white space (`str::trim_end`).
pub open spec fn trimmed_end(s: Seq<char>) -> Seq<char> {
    s.subrange(0, s.len() - trailing_ws(s))
}

/// The text without trailing white space (see `trimmed_end`).
pub fn trim_end_text(s: &str) -> (r: String)
    ensures
        r@ == trimmed_end(s@),
{
    let cs = chars_of(s);
    let mut b: usize = cs.len();
    while b > 0 && unicode_ws(cs[b - 1])
        invariant
            cs@ == s@,
            b <= cs@.len(),
            forall|i: int| b <= i < cs@.len() ==> is_unicode_ws(#[trigger] cs@[i]),
        decreases b,
    {
        b = b - 1;
    }
    proof {
        lemma_trailing(s@);
        let t = trailing_ws(s@);
        if s@.len() - t < b {
            assert(is_unicode_ws(s@[s@.len() - 1 - t]));
        }
        if b < s@.len() - t {
            assert(is_unicode_ws(s@[b as int]));
        }
        assert(b == s@.len() - t);
    }
    let (left, _) = cs.as_slice().split_at(b);
    proof {
        assert(left@ =~= s@.subrange(0, b as int));
    }
    string_from_chars(left)
}

} // verus!
