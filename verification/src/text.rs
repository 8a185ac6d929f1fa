//! Verified text utilities: decimal formatting of gauge values, decimal and
//! hexadecimal parsing of fetched balances, whitespace trimming, and the
//! syntactic classes used by the store (metric names, float literals).
use vstd::prelude::*;

verus! {

// ---------------------------------------------------------------------------
// Character classes
// ---------------------------------------------------------------------------

pub open spec fn is_digit(c: char) -> bool {
    '0' <= c && c <= '9'
}

pub open spec fn digit_val(c: char) -> int {
    c as int - '0' as int
}

pub open spec fn all_digits(s: Seq<char>) -> bool {
    forall|i: int| 0 <= i < s.len() ==> is_digit(#[trigger] s[i])
}

/// The numeric value of a digit string, most significant digit first.
pub open spec fn digits_val(s: Seq<char>) -> int
    decreases s.len(),
{
    if s.len() == 0 {
        0
    } else {
        digits_val(s.drop_last()) * 10 + digit_val(s.last())
    }
}

pub open spec fn digit_char(d: int) -> char {
    if d == 0 { '0' }
    else if d == 1 { '1' }
    else if d == 2 { '2' }
    else if d == 3 { '3' }
    else if d == 4 { '4' }
    else if d == 5 { '5' }
    else if d == 6 { '6' }
    else if d == 7 { '7' }
    else if d == 8 { '8' }
    else { '9' }
}

// ---------------------------------------------------------------------------
// Decimal formatting
// ---------------------------------------------------------------------------

/// The canonical decimal digits of `n`, no sign, no leading zero except for 0.
pub open spec fn dec_digits(n: nat) -> Seq<char>
    decreases n,
{
    if n < 10 {
        seq![digit_char(n as int)]
    } else {
        dec_digits(n / 10).push(digit_char((n % 10) as int))
    }
}

/// The canonical decimal text of a signed 64-bit value.
pub open spec fn i64_text(v: i64) -> Seq<char> {
    if v >= 0 {
        dec_digits(v as nat)
    } else {
        seq!['-'].add(dec_digits((-(v as int)) as nat))
    }
}

fn digit_str(d: u64) -> (r: &'static str)
    requires
        d < 10,
    ensures
        r@ =~= seq![digit_char(d as int)],
{
    let r = match d {
        0 => "0",
        1 => "1",
        2 => "2",
        3 => "3",
        4 => "4",
        5 => "5",
        6 => "6",
        7 => "7",
        8 => "8",
        _ => "9",
    };
    proof {
        reveal_strlit("0");
        reveal_strlit("1");
        reveal_strlit("2");
        reveal_strlit("3");
        reveal_strlit("4");
        reveal_strlit("5");
        reveal_strlit("6");
        reveal_strlit("7");
        reveal_strlit("8");
        reveal_strlit("9");
    }
    r
}

/// Decimal rendering of an unsigned value.
pub fn u64_to_string(n: u64) -> (r: String)
    ensures
        r@ == dec_digits(n as nat),
    decreases n,
{
    if n < 10 {
        let r = digit_str(n).to_owned();
        proof {
            assert(r@ =~= dec_digits(n as nat));
        }
        r
    } else {
        let mut r = u64_to_string(n / 10);
        r.append(digit_str(n % 10));
        proof {
            assert(r@ =~= dec_digits(n as nat));
        }
        r
    }
}

/// Decimal rendering of a signed value, with a leading minus for negatives.
pub fn i64_to_string(v: i64) -> (r: String)
    ensures
        r@ == i64_text(v),
{
    if v >= 0 {
        u64_to_string(v as u64)
    } else {
        let m: u64 = (-(v as i128)) as u64;
        let mut r = "-".to_owned();
        proof {
            reveal_strlit("-");
        }
        let tail = u64_to_string(m);
        r.append(tail.as_str());
        proof {
            assert(r@ =~= i64_text(v));
        }
        r
    }
}

// ---------------------------------------------------------------------------
// Digit-string lemmas
// ---------------------------------------------------------------------------

pub proof fn lemma_digits_val_nonneg(s: Seq<char>)
    requires
        all_digits(s),
    ensures
        digits_val(s) >= 0,
    decreases s.len(),
{
    if s.len() > 0 {
        lemma_digits_val_nonneg(s.drop_last());
    }
}

/// A digit string is worth at least any of its prefixes.
pub proof fn lemma_digits_val_prefix_le(s: Seq<char>, k: int)
    requires
        all_digits(s),
        0 <= k <= s.len(),
    ensures
        digits_val(s.take(k)) <= digits_val(s),
    decreases s.len() - k,
{
    if k == s.len() {
        assert(s.take(k) =~= s);
    } else {
        lemma_digits_val_prefix_le(s, k + 1);
        assert(s.take(k + 1).drop_last() =~= s.take(k));
        assert(s.take(k + 1).last() == s[k]);
        lemma_digits_val_nonneg(s.take(k));
        assert(digits_val(s.take(k)) <= digits_val(s.take(k)) * 10 + digit_val(s[k]));
    }
}

// ---------------------------------------------------------------------------
// Decimal parsing, as Rust's integer `FromStr` accepts it:
// an optional sign, then one or more digits, and the value in range.
// ---------------------------------------------------------------------------

pub open spec fn parse_u64_spec(s: Seq<char>) -> Option<u64> {
    let d = if s.len() > 0 && s[0] == '+' {
        s.drop_first()
    } else {
        s
    };
    if d.len() > 0 && all_digits(d) && digits_val(d) <= u64::MAX {
        Some(digits_val(d) as u64)
    } else {
        None
    }
}

pub open spec fn parse_i64_spec(s: Seq<char>) -> Option<i64> {
    if s.len() > 0 && s[0] == '-' {
        let d = s.drop_first();
        if d.len() > 0 && all_digits(d) && -digits_val(d) >= i64::MIN {
            Some((-digits_val(d)) as i64)
        } else {
            None
        }
    } else {
        let d = if s.len() > 0 && s[0] == '+' {
            s.drop_first()
        } else {
            s
        };
        if d.len() > 0 && all_digits(d) && digits_val(d) <= i64::MAX {
            Some(digits_val(d) as i64)
        } else {
            None
        }
    }
}

/// Reads the digits of `s` from position `start` on; `None` when that range is
/// empty, holds a non-digit, or is worth more than `u64::MAX`.
fn parse_digits(s: &str, start: usize) -> (r: Option<u64>)
    requires
        start <= s@.len(),
    ensures
        match r {
            Some(v) => {
                let d = s@.subrange(start as int, s@.len() as int);
                d.len() > 0 && all_digits(d) && digits_val(d) == v as int
            },
            None => {
                let d = s@.subrange(start as int, s@.len() as int);
                d.len() == 0 || !all_digits(d) || digits_val(d) > u64::MAX
            },
        },
{
    let ghost d = s@.subrange(start as int, s@.len() as int);
    let n = s.unicode_len();
    if start == n {
        return None;
    }
    let mut acc: u64 = 0;
    let mut i = start;
    while i < n
        invariant
            start <= i <= n,
            n == s@.len(),
            d == s@.subrange(start as int, n as int),
            all_digits(d.take(i - start)),
            acc as int == digits_val(d.take(i - start)),
        decreases n - i,
    {
        let c = s.get_char(i);
        let u = c as u32;
        if u < 48 || u > 57 {
            proof {
                assert(d[i - start] == s@[i as int]);
                assert(!is_digit(d[i - start]));
            }
            return None;
        }
        let dv: u64 = (u - 48) as u64;
        proof {
            assert(is_digit(s@[i as int]));
            assert(dv as int == digit_val(s@[i as int]));
        }
        let acc10 = match acc.checked_mul(10) {
            Some(x) => x,
            None => {
                proof {
                    lemma_step_take(d, i - start);
                    lemma_digits_overflow(d, i - start + 1);
                }
                return None;
            },
        };
        let acc2 = match acc10.checked_add(dv) {
            Some(x) => x,
            None => {
                proof {
                    lemma_step_take(d, i - start);
                    lemma_digits_overflow(d, i - start + 1);
                }
                return None;
            },
        };
        acc = acc2;
        i = i + 1;
        proof {
            lemma_step_take(d, i - 1 - start);
        }
    }
    proof {
        assert(d.take(n - start) =~= d);
    }
    Some(acc)
}

/// One unfolding step: the value of `take(k + 1)` from the value of `take(k)`.
proof fn lemma_step_take(d: Seq<char>, k: int)
    requires
        0 <= k < d.len(),
    ensures
        digits_val(d.take(k + 1)) == digits_val(d.take(k)) * 10 + digit_val(d[k]),
        all_digits(d.take(k)) && is_digit(d[k]) ==> all_digits(d.take(k + 1)),
{
    assert(d.take(k + 1).drop_last() =~= d.take(k));
    assert(d.take(k + 1).last() == d[k]);
    assert forall|j: int| 0 <= j < k + 1 && all_digits(d.take(k)) && is_digit(d[k])
        implies is_digit(#[trigger] d.take(k + 1)[j]) by {
        if j < k {
            assert(d.take(k)[j] == d.take(k + 1)[j]);
            assert(is_digit(d.take(k)[j]));
        }
    }
}

/// Once a prefix is worth more than `u64::MAX`, so is the whole string, or it
/// is not a digit string at all.
proof fn lemma_digits_overflow(d: Seq<char>, k: int)
    requires
        0 <= k <= d.len(),
        all_digits(d.take(k)),
        digits_val(d.take(k)) > u64::MAX,
    ensures
        !all_digits(d) || digits_val(d) > u64::MAX,
{
    if all_digits(d) {
        lemma_digits_val_prefix_le(d, k);
    }
}

/// Decimal parse of an unsigned 64-bit value, as `str::parse::<u64>` reads it.
pub fn parse_u64(s: &str) -> (r: Option<u64>)
    ensures
        r == parse_u64_spec(s@),
{
    let n = s.unicode_len();
    if n == 0 {
        return None;
    }
    let c = s.get_char(0);
    let start: usize = if c == '+' {
        1
    } else {
        0
    };
    proof {
        if start == 0 {
            assert(s@.subrange(0, n as int) =~= s@);
        } else {
            assert(s@.subrange(1, n as int) =~= s@.drop_first());
        }
    }
    parse_digits(s, start)
}

/// Decimal parse of a signed 64-bit value, as `str::parse::<i64>` reads it.
pub fn parse_i64(s: &str) -> (r: Option<i64>)
    ensures
        r == parse_i64_spec(s@),
{
    let n = s.unicode_len();
    if n == 0 {
        return None;
    }
    let c = s.get_char(0);
    if c == '-' {
        proof {
            assert(s@.subrange(1, n as int) =~= s@.drop_first());
        }
        match parse_digits(s, 1) {
            Some(mag) => {
                if mag <= 9223372036854775808u64 {
                    let v: i64 = (-(mag as i128)) as i64;
                    Some(v)
                } else {
                    None
                }
            },
            None => {
                proof {
                    if s@.drop_first().len() > 0 && all_digits(s@.drop_first()) {
                        lemma_digits_val_nonneg(s@.drop_first());
                    }
                }
                None
            },
        }
    } else {
        let start: usize = if c == '+' {
            1
        } else {
            0
        };
        proof {
            if start == 0 {
                assert(s@.subrange(0, n as int) =~= s@);
            } else {
                assert(s@.subrange(1, n as int) =~= s@.drop_first());
            }
        }
        match parse_digits(s, start) {
            Some(mag) => {
                if mag <= i64::MAX as u64 {
                    Some(mag as i64)
                } else {
                    None
                }
            },
            None => None,
        }
    }
}

// ---------------------------------------------------------------------------
// Whitespace trimming, as balance endpoints pad their plaintext answers
// ---------------------------------------------------------------------------

/// The Unicode white-space characters, the set `str::trim` strips.
pub open spec fn is_space(c: char) -> bool {
    c == ' ' || ('\u{9}' <= c && c <= '\u{d}') || c == '\u{85}' || c == '\u{a0}' || c
        == '\u{1680}' || ('\u{2000}' <= c && c <= '\u{200a}') || c == '\u{2028}' || c
        == '\u{2029}' || c == '\u{202f}' || c == '\u{205f}' || c == '\u{3000}'
}

pub open spec fn trim_front(s: Seq<char>) -> Seq<char>
    decreases s.len(),
{
    if s.len() > 0 && is_space(s[0]) {
        trim_front(s.drop_first())
    } else {
        s
    }
}

pub open spec fn trim_back(s: Seq<char>) -> Seq<char>
    decreases s.len(),
{
    if s.len() > 0 && is_space(s.last()) {
        trim_back(s.drop_last())
    } else {
        s
    }
}

pub open spec fn trim_spec(s: Seq<char>) -> Seq<char> {
    trim_back(trim_front(s))
}

proof fn lemma_trim_front_subrange(s: Seq<char>, k: int)
    requires
        0 <= k <= s.len(),
        forall|m: int| 0 <= m < k ==> is_space(#[trigger] s[m]),
        k == s.len() || !is_space(s[k]),
    ensures
        trim_front(s) =~= s.subrange(k, s.len() as int),
    decreases k,
{
    if k == 0 {
        assert(s.subrange(0, s.len() as int) =~= s);
    } else {
        assert(is_space(s[0]));
        lemma_trim_front_subrange(s.drop_first(), k - 1);
        assert(s.drop_first().subrange(k - 1, s.drop_first().len() as int) =~= s.subrange(
            k,
            s.len() as int,
        ));
    }
}

proof fn lemma_trim_back_subrange(s: Seq<char>, k: int)
    requires
        0 <= k <= s.len(),
        forall|m: int| k <= m < s.len() ==> is_space(#[trigger] s[m]),
        k == 0 || !is_space(s[k - 1]),
    ensures
        trim_back(s) =~= s.subrange(0, k),
    decreases s.len() - k,
{
    if k == s.len() {
        if s.len() > 0 {
            assert(!is_space(s.last()));
        }
        assert(s.subrange(0, s.len() as int) =~= s);
    } else {
        assert(is_space(s.last()));
        lemma_trim_back_subrange(s.drop_last(), k);
        assert(s.drop_last().subrange(0, k) =~= s.subrange(0, k));
    }
}

/// Strips leading and trailing whitespace, as `str::trim` does.
pub fn trim(s: &str) -> (r: &str)
    ensures
        r@ == trim_spec(s@),
{
    let n = s.unicode_len();
    let mut a: usize = 0;
    while a < n && is_space_char(s.get_char(a))
        invariant
            0 <= a <= n,
            n == s@.len(),
            forall|m: int| 0 <= m < a ==> is_space(#[trigger] s@[m]),
        decreases n - a,
    {
        a = a + 1;
    }
    let mut b: usize = n;
    while b > a && is_space_char(s.get_char(b - 1))
        invariant
            a <= b <= n,
            n == s@.len(),
            forall|m: int| 0 <= m < a ==> is_space(#[trigger] s@[m]),
            forall|m: int| b <= m < n ==> is_space(#[trigger] s@[m]),
        decreases b,
    {
        b = b - 1;
    }
    let r = s.substring_char(a, b);
    proof {
        lemma_trim_front_subrange(s@, a as int);
        let t = s@.subrange(a as int, n as int);
        lemma_trim_back_subrange(t, b - a);
        assert(t.subrange(0, b - a) =~= s@.subrange(a as int, b as int));
    }
    r
}

/// Executable test for `is_space`.
fn is_space_char(c: char) -> (b: bool)
    ensures
        b == is_space(c),
{
    let u = c as u32;
    u == 0x20 || (0x9 <= u && u <= 0xd) || u == 0x85 || u == 0xa0 || u == 0x1680 || (0x2000 <= u
        && u <= 0x200a) || u == 0x2028 || u == 0x2029 || u == 0x202f || u == 0x205f || u == 0x3000
}

// ---------------------------------------------------------------------------
// Metric-name syntax: `[a-zA-Z_:][a-zA-Z0-9_:]*`, the exposition format's
// grammar for a gauge name.
// ---------------------------------------------------------------------------

pub open spec fn is_name_start(c: char) -> bool {
    ('a' <= c && c <= 'z') || ('A' <= c && c <= 'Z') || c == '_' || c == ':'
}

pub open spec fn is_name_char(c: char) -> bool {
    is_name_start(c) || is_digit(c)
}

pub open spec fn is_metric_name(s: Seq<char>) -> bool {
    s.len() > 0 && is_name_start(s[0]) && forall|i: int|
        1 <= i < s.len() ==> is_name_char(#[trigger] s[i])
}

fn is_name_start_char(c: char) -> (b: bool)
    ensures
        b == is_name_start(c),
{
    let u = c as u32;
    (97 <= u && u <= 122) || (65 <= u && u <= 90) || c == '_' || c == ':'
}

/// Executable check of the gauge-name grammar.
pub fn check_metric_name(s: &str) -> (b: bool)
    ensures
        b == is_metric_name(s@),
{
    let n = s.unicode_len();
    if n == 0 {
        return false;
    }
    if !is_name_start_char(s.get_char(0)) {
        return false;
    }
    let mut i: usize = 1;
    while i < n
        invariant
            1 <= i <= n,
            n == s@.len(),
            is_name_start(s@[0]),
            forall|m: int| 1 <= m < i ==> is_name_char(#[trigger] s@[m]),
        decreases n - i,
    {
        let c = s.get_char(i);
        let u = c as u32;
        let ok = is_name_start_char(c) || (48 <= u && u <= 57);
        if !ok {
            return false;
        }
        i = i + 1;
    }
    true
}

// ---------------------------------------------------------------------------
// Hexadecimal quantities, as Ethereum's JSON-RPC returns them: `0x` followed
// by one or more hex digits.
// ---------------------------------------------------------------------------

pub open spec fn is_hex_digit(c: char) -> bool {
    is_digit(c) || ('a' <= c && c <= 'f') || ('A' <= c && c <= 'F')
}

pub open spec fn hex_val(c: char) -> int {
    if is_digit(c) {
        c as int - '0' as int
    } else if 'a' <= c && c <= 'f' {
        c as int - 'a' as int + 10
    } else {
        c as int - 'A' as int + 10
    }
}

pub open spec fn all_hex(s: Seq<char>) -> bool {
    forall|i: int| 0 <= i < s.len() ==> is_hex_digit(#[trigger] s[i])
}

pub open spec fn hex_digits_val(s: Seq<char>) -> int
    decreases s.len(),
{
    if s.len() == 0 {
        0
    } else {
        hex_digits_val(s.drop_last()) * 16 + hex_val(s.last())
    }
}

pub open spec fn parse_hex_u128_spec(s: Seq<char>) -> Option<u128> {
    if s.len() >= 3 && s[0] == '0' && (s[1] == 'x' || s[1] == 'X') {
        let d = s.subrange(2, s.len() as int);
        if all_hex(d) && hex_digits_val(d) <= u128::MAX {
            Some(hex_digits_val(d) as u128)
        } else {
            None
        }
    } else {
        None
    }
}

proof fn lemma_hex_val_nonneg(s: Seq<char>)
    requires
        all_hex(s),
    ensures
        hex_digits_val(s) >= 0,
    decreases s.len(),
{
    if s.len() > 0 {
        lemma_hex_val_nonneg(s.drop_last());
    }
}

proof fn lemma_hex_prefix_le(s: Seq<char>, k: int)
    requires
        all_hex(s),
        0 <= k <= s.len(),
    ensures
        hex_digits_val(s.take(k)) <= hex_digits_val(s),
    decreases s.len() - k,
{
    if k == s.len() {
        assert(s.take(k) =~= s);
    } else {
        lemma_hex_prefix_le(s, k + 1);
        assert(s.take(k + 1).drop_last() =~= s.take(k));
        lemma_hex_val_nonneg(s.take(k));
        assert(hex_digits_val(s.take(k)) <= hex_digits_val(s.take(k)) * 16 + hex_val(s[k]));
    }
}

proof fn lemma_hex_step_take(d: Seq<char>, k: int)
    requires
        0 <= k < d.len(),
    ensures
        hex_digits_val(d.take(k + 1)) == hex_digits_val(d.take(k)) * 16 + hex_val(d[k]),
        all_hex(d.take(k)) && is_hex_digit(d[k]) ==> all_hex(d.take(k + 1)),
{
    assert(d.take(k + 1).drop_last() =~= d.take(k));
    assert(d.take(k + 1).last() == d[k]);
    assert forall|j: int| 0 <= j < k + 1 && all_hex(d.take(k)) && is_hex_digit(d[k])
        implies is_hex_digit(#[trigger] d.take(k + 1)[j]) by {
        if j < k {
            assert(d.take(k)[j] == d.take(k + 1)[j]);
            assert(is_hex_digit(d.take(k)[j]));
        }
    }
}

/// Reads a `0x`-prefixed hexadecimal quantity, the form Ethereum JSON-RPC
/// results take.
pub fn parse_hex_u128(s: &str) -> (r: Option<u128>)
    ensures
        r == parse_hex_u128_spec(s@),
{
    let n = s.unicode_len();
    if n < 3 {
        return None;
    }
    if s.get_char(0) != '0' {
        return None;
    }
    let x = s.get_char(1);
    if !(x == 'x' || x == 'X') {
        return None;
    }
    let ghost d = s@.subrange(2, n as int);
    let mut acc: u128 = 0;
    let mut i: usize = 2;
    while i < n
        invariant
            2 <= i <= n,
            n == s@.len(),
            d == s@.subrange(2, n as int),
            all_hex(d.take(i - 2)),
            acc as int == hex_digits_val(d.take(i - 2)),
        decreases n - i,
    {
        let c = s.get_char(i);
        let u = c as u32;
        let hv: u128 = if 48 <= u && u <= 57 {
            (u - 48) as u128
        } else if 97 <= u && u <= 102 {
            (u - 87) as u128
        } else if 65 <= u && u <= 70 {
            (u - 55) as u128
        } else {
            proof {
                assert(d[i - 2] == s@[i as int]);
                assert(!is_hex_digit(d[i - 2]));
            }
            return None;
        };
        proof {
            assert(is_hex_digit(s@[i as int]));
            assert(hv as int == hex_val(s@[i as int]));
        }
        let acc16 = match acc.checked_mul(16) {
            Some(v) => v,
            None => {
                proof {
                    lemma_hex_step_take(d, i - 2);
                    lemma_hex_overflow(d, i - 2 + 1);
                }
                return None;
            },
        };
        let acc2 = match acc16.checked_add(hv) {
            Some(v) => v,
            None => {
                proof {
                    lemma_hex_step_take(d, i - 2);
                    lemma_hex_overflow(d, i - 2 + 1);
                }
                return None;
            },
        };
        acc = acc2;
        i = i + 1;
        proof {
            lemma_hex_step_take(d, i - 3);
        }
    }
    proof {
        assert(d.take(n - 2) =~= d);
    }
    Some(acc)
}

proof fn lemma_hex_overflow(d: Seq<char>, k: int)
    requires
        0 <= k <= d.len(),
        all_hex(d.take(k)),
        hex_digits_val(d.take(k)) > u128::MAX,
    ensures
        !all_hex(d) || hex_digits_val(d) > u128::MAX,
{
    if all_hex(d) {
        lemma_hex_prefix_le(d, k);
    }
}

// ---------------------------------------------------------------------------
// Powers of ten and the decimal scaling of raw balances
// ---------------------------------------------------------------------------

pub open spec fn pow10(e: nat) -> nat
    decreases e,
{
    if e == 0 {
        1
    } else {
        10 * pow10((e - 1) as nat)
    }
}

proof fn lemma_pow10_pos(e: nat)
    ensures
        pow10(e) >= 1,
    decreases e,
{
    if e > 0 {
        lemma_pow10_pos((e - 1) as nat);
    }
}

proof fn lemma_pow10_increases(a: nat, b: nat)
    requires
        a <= b,
    ensures
        pow10(a) <= pow10(b),
    decreases b,
{
    if a < b {
        lemma_pow10_increases(a, (b - 1) as nat);
        lemma_pow10_pos((b - 1) as nat);
    }
}

/// Unfolds `pow10` up to the largest power that still fits a `u128`.
proof fn lemma_pow10_39()
    ensures
        pow10(38) == 100000000000000000000000000000000000000,
        pow10(39) == 1000000000000000000000000000000000000000,
{
    assert(pow10(0) == 1);
    assert(pow10(1) == 10);
    assert(pow10(2) == 100);
    assert(pow10(3) == 1000);
    assert(pow10(4) == 10000);
    assert(pow10(5) == 100000);
    assert(pow10(6) == 1000000);
    assert(pow10(7) == 10000000);
    assert(pow10(8) == 100000000);
    assert(pow10(9) == 1000000000);
    assert(pow10(10) == 10000000000);
    assert(pow10(11) == 100000000000);
    assert(pow10(12) == 1000000000000);
    assert(pow10(13) == 10000000000000);
    assert(pow10(14) == 100000000000000);
    assert(pow10(15) == 1000000000000000);
    assert(pow10(16) == 10000000000000000);
    assert(pow10(17) == 100000000000000000);
    assert(pow10(18) == 1000000000000000000);
    assert(pow10(19) == 10000000000000000000);
    assert(pow10(20) == 100000000000000000000);
    assert(pow10(21) == 1000000000000000000000);
    assert(pow10(22) == 10000000000000000000000);
    assert(pow10(23) == 100000000000000000000000);
    assert(pow10(24) == 1000000000000000000000000);
    assert(pow10(25) == 10000000000000000000000000);
    assert(pow10(26) == 100000000000000000000000000);
    assert(pow10(27) == 1000000000000000000000000000);
    assert(pow10(28) == 10000000000000000000000000000);
    assert(pow10(29) == 100000000000000000000000000000);
    assert(pow10(30) == 1000000000000000000000000000000);
    assert(pow10(31) == 10000000000000000000000000000000);
    assert(pow10(32) == 100000000000000000000000000000000);
    assert(pow10(33) == 1000000000000000000000000000000000);
    assert(pow10(34) == 10000000000000000000000000000000000);
    assert(pow10(35) == 100000000000000000000000000000000000);
    assert(pow10(36) == 1000000000000000000000000000000000000);
    assert(pow10(37) == 10000000000000000000000000000000000000);
    assert(pow10(38) == 100000000000000000000000000000000000000);
    assert(pow10(39) == 1000000000000000000000000000000000000000);
}

/// `v / 10^e`, rounded toward zero; the scaling every RPC-balance source
/// applies to a raw balance before it is exposed.
pub fn div_pow10_u128(v: u128, e: u8) -> (r: u128)
    ensures
        r as int == v as int / pow10(e as nat) as int,
{
    if e > 38 {
        proof {
            lemma_pow10_39();
            lemma_pow10_increases(39, e as nat);
            vstd::arithmetic::div_mod::lemma_basic_div(
                v as int,
                pow10(e as nat) as int,
            );
        }
        0
    } else {
        let mut p: u128 = 1;
        let mut i: u8 = 0;
        proof {
            lemma_pow10_39();
        }
        while i < e
            invariant
                0 <= i <= e <= 38,
                p as int == pow10(i as nat) as int,
                pow10(38) == 100000000000000000000000000000000000000,
            decreases e - i,
        {
            proof {
                lemma_pow10_increases(i as nat + 1, 38);
            }
            p = p * 10;
            i = i + 1;
        }
        proof {
            lemma_pow10_pos(e as nat);
        }
        v / p
    }
}

// ---------------------------------------------------------------------------
// Float literals. A floating-point gauge stores the decimal text of its
// value, so the store's invariant needs a grammar for that text:
//   [+-]? ( digits | digits "." digits? | "." digits ) ( [eE] [+-]? digits )?
// the form a JSON number or a plain decimal float takes.
// ---------------------------------------------------------------------------

pub open spec fn strip_sign(s: Seq<char>) -> Seq<char> {
    if s.len() > 0 && (s[0] == '+' || s[0] == '-') {
        s.drop_first()
    } else {
        s
    }
}

/// Digits with at most one decimal point, and at least one digit.
pub open spec fn is_mantissa(s: Seq<char>) -> bool {
    (s.len() > 0 && all_digits(s)) || (s.len() > 1 && exists|i: int|
        0 <= i < s.len() && #[trigger] s[i] == '.' && all_digits(s.subrange(0, i)) && all_digits(
            s.subrange(i + 1, s.len() as int),
        ))
}

/// An exponent: an optional sign, then one or more digits.
pub open spec fn is_exp_part(s: Seq<char>) -> bool {
    strip_sign(s).len() > 0 && all_digits(strip_sign(s))
}

/// A float literal with its sign already stripped.
pub open spec fn is_float_body(t: Seq<char>) -> bool {
    is_mantissa(t) || (exists|i: int|
        0 <= i < t.len() && (#[trigger] t[i] == 'e' || t[i] == 'E') && is_mantissa(
            t.subrange(0, i),
        ) && is_exp_part(t.subrange(i + 1, t.len() as int)))
}

/// The text of a floating-point gauge value.
pub open spec fn is_float_text(s: Seq<char>) -> bool {
    is_float_body(strip_sign(s))
}

/// What a single scan establishes about a mantissa: every character a digit
/// or a point, no second point, and at least one digit.
pub open spec fn mantissa_scan_ok(t: Seq<char>) -> bool {
    (exists|i: int| 0 <= i < t.len() && is_digit(#[trigger] t[i])) && (forall|i: int|
        0 <= i < t.len() ==> is_digit(#[trigger] t[i]) || t[i] == '.') && (forall|i: int, j: int|
        0 <= i < t.len() && 0 <= j < t.len() && #[trigger] t[i] == '.' && #[trigger] t[j] == '.'
            ==> i == j)
}

proof fn lemma_mantissa_iff(t: Seq<char>)
    ensures
        is_mantissa(t) == mantissa_scan_ok(t),
{
    if mantissa_scan_ok(t) {
        if forall|i: int| 0 <= i < t.len() ==> #[trigger] t[i] != '.' {
            assert forall|i: int| 0 <= i < t.len() implies is_digit(#[trigger] t[i]) by {}
            assert(is_mantissa(t));
        } else {
            let d = choose|i: int| 0 <= i < t.len() && #[trigger] t[i] == '.';
            let g = choose|i: int| 0 <= i < t.len() && is_digit(#[trigger] t[i]);
            assert(t[d] == '.');
            assert(g != d);
            assert(t.len() > 1);
            assert forall|j: int| 0 <= j < t.subrange(0, d).len() implies is_digit(
                #[trigger] t.subrange(0, d)[j],
            ) by {
                assert(t.subrange(0, d)[j] == t[j]);
                assert(t[j] != '.');
            }
            assert forall|j: int| 0 <= j < t.subrange(d + 1, t.len() as int).len()
                implies is_digit(#[trigger] t.subrange(d + 1, t.len() as int)[j]) by {
                assert(t.subrange(d + 1, t.len() as int)[j] == t[d + 1 + j]);
                assert(t[d + 1 + j] != '.');
            }
            assert(is_mantissa(t));
        }
    }
    if is_mantissa(t) {
        if t.len() > 0 && all_digits(t) {
            assert(is_digit(t[0]));
            assert forall|i: int| 0 <= i < t.len() implies is_digit(#[trigger] t[i]) || t[i] == '.' by {}
            assert forall|i: int, j: int|
                0 <= i < t.len() && 0 <= j < t.len() && #[trigger] t[i] == '.' && #[trigger] t[j]
                    == '.' implies i == j by {
                assert(is_digit(t[i]));
                assert(false);
            }
            assert(mantissa_scan_ok(t));
        } else {
            let d = choose|i: int|
                0 <= i < t.len() && #[trigger] t[i] == '.' && all_digits(t.subrange(0, i))
                    && all_digits(t.subrange(i + 1, t.len() as int));
            assert forall|i: int| 0 <= i < t.len() implies is_digit(#[trigger] t[i]) || t[i]
                == '.' by {
                if i < d {
                    assert(t.subrange(0, d)[i] == t[i]);
                    assert(is_digit(t.subrange(0, d)[i]));
                } else if i > d {
                    assert(t.subrange(d + 1, t.len() as int)[i - d - 1] == t[i]);
                    assert(is_digit(t.subrange(d + 1, t.len() as int)[i - d - 1]));
                }
            }
            assert forall|i: int, j: int|
                0 <= i < t.len() && 0 <= j < t.len() && #[trigger] t[i] == '.' && #[trigger] t[j]
                    == '.' implies i == j by {
                if i < d {
                    assert(is_digit(t.subrange(0, d)[i]));
                    assert(false);
                } else if i > d {
                    assert(is_digit(t.subrange(d + 1, t.len() as int)[i - d - 1]));
                    assert(false);
                }
                if j < d {
                    assert(is_digit(t.subrange(0, d)[j]));
                    assert(false);
                } else if j > d {
                    assert(is_digit(t.subrange(d + 1, t.len() as int)[j - d - 1]));
                    assert(false);
                }
            }
            if t.len() > 1 {
                if d == 0 {
                    assert(t.subrange(1, t.len() as int)[0] == t[1]);
                    assert(is_digit(t[1]));
                } else {
                    assert(t.subrange(0, d)[0] == t[0]);
                    assert(is_digit(t[0]));
                }
            }
            assert(mantissa_scan_ok(t));
        }
    }
}

/// Every character of a mantissa is a digit or the decimal point.
pub proof fn lemma_mantissa_scan(t: Seq<char>)
    requires
        is_mantissa(t),
    ensures
        forall|i: int| 0 <= i < t.len() ==> is_digit(#[trigger] t[i]) || t[i] == '.',
{
    lemma_mantissa_iff(t);
}

/// A mantissa holds no exponent marker.
proof fn lemma_mantissa_no_e(t: Seq<char>, k: int)
    requires
        0 <= k < t.len(),
        t[k] == 'e' || t[k] == 'E',
    ensures
        !is_mantissa(t),
{
    lemma_mantissa_iff(t);
    if mantissa_scan_ok(t) {
        assert(is_digit(t[k]) || t[k] == '.');
        assert(false);
    }
}

/// With the first exponent marker at `e`, the grammar splits there and
/// nowhere else.
proof fn lemma_float_body_with_e(t: Seq<char>, e: int)
    requires
        0 <= e < t.len(),
        t[e] == 'e' || t[e] == 'E',
        forall|m: int| 0 <= m < e ==> !(#[trigger] t[m] == 'e' || t[m] == 'E'),
    ensures
        is_float_body(t) == (is_mantissa(t.subrange(0, e)) && is_exp_part(
            t.subrange(e + 1, t.len() as int),
        )),
{
    lemma_mantissa_no_e(t, e);
    if is_float_body(t) {
        let i = choose|i: int|
            0 <= i < t.len() && (#[trigger] t[i] == 'e' || t[i] == 'E') && is_mantissa(
                t.subrange(0, i),
            ) && is_exp_part(t.subrange(i + 1, t.len() as int));
        if i != e {
            if e < i {
                assert(t.subrange(0, i)[e] == t[e]);
                lemma_mantissa_no_e(t.subrange(0, i), e);
                assert(false);
            } else {
                // `e` would sit inside the exponent, whose characters are a
                // sign or digits only.
                let x = t.subrange(i + 1, t.len() as int);
                let p = e - i - 1;
                assert(x[p] == t[e]);
                let y = strip_sign(x);
                if x.len() > 0 && (x[0] == '+' || x[0] == '-') {
                    assert(p != 0);
                    assert(y[p - 1] == x[p]);
                    assert(is_digit(y[p - 1]));
                    assert(false);
                } else {
                    assert(y[p] == x[p]);
                    assert(is_digit(y[p]));
                    assert(false);
                }
            }
        }
    }
    if is_mantissa(t.subrange(0, e)) && is_exp_part(t.subrange(e + 1, t.len() as int)) {
        assert(is_float_body(t));
    }
}

proof fn lemma_float_body_no_e(t: Seq<char>)
    requires
        forall|m: int| 0 <= m < t.len() ==> !(#[trigger] t[m] == 'e' || t[m] == 'E'),
    ensures
        is_float_body(t) == is_mantissa(t),
{
}

/// Scans a mantissa range `[from, to)` of `s`.
fn scan_mantissa(s: &str, from: usize, to: usize) -> (b: bool)
    requires
        from <= to <= s@.len(),
    ensures
        b == is_mantissa(s@.subrange(from as int, to as int)),
{
    let ghost t = s@.subrange(from as int, to as int);
    let mut got_digit = false;
    let mut dot: usize = to;  // `to` stands for "no point seen yet"
    let mut k = from;
    while k < to
        invariant
            from <= k <= to <= s@.len(),
            t == s@.subrange(from as int, to as int),
            got_digit == exists|i: int| 0 <= i < k - from && is_digit(#[trigger] t[i]),
            forall|i: int| 0 <= i < k - from ==> is_digit(#[trigger] t[i]) || t[i] == '.',
            dot == to || (from <= dot < k && t[dot - from] == '.'),
            forall|i: int| 0 <= i < k - from && #[trigger] t[i] == '.' ==> i == dot - from,
        decreases to - k,
    {
        let c = s.get_char(k);
        let u = c as u32;
        proof {
            assert(t[k - from] == s@[k as int]);
        }
        if 48 <= u && u <= 57 {
            got_digit = true;
        } else if c == '.' {
            if dot < to {
                // a second decimal point
                proof {
                    lemma_mantissa_iff(t);
                    assert(t[dot - from] == '.');
                    assert(t[k - from] == '.');
                    assert(!mantissa_scan_ok(t));
                }
                return false;
            }
            dot = k;
        } else {
            proof {
                lemma_mantissa_iff(t);
                assert(!is_digit(t[k - from]) && t[k - from] != '.');
                assert(!mantissa_scan_ok(t));
            }
            return false;
        }
        k = k + 1;
    }
    if !got_digit {
        proof {
            lemma_mantissa_iff(t);
            assert(!mantissa_scan_ok(t));
        }
        return false;
    }
    proof {
        lemma_mantissa_iff(t);
        assert(mantissa_scan_ok(t));
    }
    true
}

/// Scans an exponent range `[from, to)` of `s`: optional sign, then digits.
fn scan_exponent(s: &str, from: usize, to: usize) -> (b: bool)
    requires
        from <= to <= s@.len(),
    ensures
        b == is_exp_part(s@.subrange(from as int, to as int)),
{
    let ghost x = s@.subrange(from as int, to as int);
    if from == to {
        return false;
    }
    let c0 = s.get_char(from);
    let q: usize = if c0 == '+' || c0 == '-' {
        from + 1
    } else {
        from
    };
    let ghost y = strip_sign(x);
    proof {
        assert(x[0] == s@[from as int]);
        if q > from {
            assert(y =~= s@.subrange(q as int, to as int));
        } else {
            assert(y =~= s@.subrange(q as int, to as int));
        }
    }
    if q == to {
        return false;
    }
    let mut k = q;
    while k < to
        invariant
            from <= q <= k <= to <= s@.len(),
            x == s@.subrange(from as int, to as int),
            y == strip_sign(x),
            y == s@.subrange(q as int, to as int),
            forall|i: int| 0 <= i < k - q ==> is_digit(#[trigger] y[i]),
        decreases to - k,
    {
        let c = s.get_char(k);
        let u = c as u32;
        if !(48 <= u && u <= 57) {
            proof {
                assert(y[k - q] == s@[k as int]);
                assert(!is_digit(y[k - q]));
            }
            return false;
        }
        proof {
            assert(y[k - q] == s@[k as int]);
        }
        k = k + 1;
    }
    proof {
        assert(forall|i: int| 0 <= i < y.len() ==> is_digit(#[trigger] y[i]));
    }
    true
}

/// Executable check of the float-literal grammar.
pub fn is_float_literal(s: &str) -> (b: bool)
    ensures
        b == is_float_text(s@),
{
    let n = s.unicode_len();
    if n == 0 {
        return false;
    }
    let c0 = s.get_char(0);
    let p: usize = if c0 == '+' || c0 == '-' {
        1
    } else {
        0
    };
    let ghost t = strip_sign(s@);
    proof {
        assert(t =~= s@.subrange(p as int, n as int));
    }
    // find the first exponent marker, if any
    let mut e_idx: usize = n;
    let mut j = p;
    while j < n && e_idx == n
        invariant
            p <= j <= n,
            n == s@.len(),
            t == s@.subrange(p as int, n as int),
            e_idx == n || (p <= e_idx < n && j == e_idx && (s@[e_idx as int] == 'e'
                || s@[e_idx as int] == 'E')),
            forall|m: int|
                p <= m < j && m != e_idx ==> !(#[trigger] s@[m] == 'e' || s@[m] == 'E'),
        decreases n - j + (if e_idx == n { 1int } else { 0int }),
    {
        let c = s.get_char(j);
        if c == 'e' || c == 'E' {
            e_idx = j;
        } else {
            j = j + 1;
        }
    }
    proof {
        assert forall|m: int| 0 <= m < t.len() && m + p < j && m != e_idx - p
            implies !(#[trigger] t[m] == 'e' || t[m] == 'E') by {
            assert(t[m] == s@[p + m]);
        }
        if e_idx < n {
            assert(t[e_idx - p] == s@[e_idx as int]);
        }
    }
    if e_idx == n {
        proof {
            lemma_float_body_no_e(t);
        }
        let r = scan_mantissa(s, p, n);
        proof {
            assert(s@.subrange(p as int, n as int) == t);
        }
        r
    } else {
        proof {
            lemma_float_body_with_e(t, e_idx - p);
            assert(t.subrange(0, e_idx - p) =~= s@.subrange(p as int, e_idx as int));
            assert(t.subrange(e_idx - p + 1, t.len() as int) =~= s@.subrange(
                e_idx + 1,
                n as int,
            ));
        }
        let m_ok = scan_mantissa(s, p, e_idx);
        if !m_ok {
            return false;
        }
        scan_exponent(s, e_idx + 1, n)
    }
}

} // verus!
