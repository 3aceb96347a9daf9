use vstd::prelude::*;

verus! {

broadcast use vstd::string::is_ascii_spec_bytes, vstd::utf8::is_ascii_chars_encode_utf8;

/// A decimal digit.
pub open spec fn is_digit(c: char) -> bool {
    '0' <= c && c <= '9'
}

/// A hexadecimal digit, either case.
pub open spec fn is_hex_digit(c: char) -> bool {
    is_digit(c) || ('a' <= c && c <= 'f') || ('A' <= c && c <= 'F')
}

/// What a decimal or hexadecimal digit stands for.
pub open spec fn digit_value(c: char) -> int {
    if is_digit(c) {
        c as int - '0' as int
    } else if 'a' <= c && c <= 'f' {
        c as int - 'a' as int + 10
    } else {
        c as int - 'A' as int + 10
    }
}

/// The number that the digits `s` write in base `radix`.
pub open spec fn value_of(s: Seq<char>, radix: int) -> int
    decreases s.len(),
{
    if s.len() == 0 {
        0
    } else {
        value_of(s.drop_last(), radix) * radix + digit_value(s.last())
    }
}

/// The byte that a field of the form `0x` and hexadecimal digits writes,
/// if it is one and fits in a byte.
pub open spec fn byte_of(s: Seq<char>) -> Option<u8> {
    if s.len() >= 3 && s[0] == '0' && s[1] == 'x' && (forall|i: int|
        2 <= i < s.len() ==> is_hex_digit(#[trigger] s[i])) && value_of(
        s.subrange(2, s.len() as int),
        16,
    ) < 256 {
        Some(value_of(s.subrange(2, s.len() as int), 16) as u8)
    } else {
        None
    }
}

/// A prefix of hexadecimal digits is worth no more than the whole.
proof fn lemma_value_prefix(s: Seq<char>, radix: int, j: int)
    requires
        radix >= 10,
        0 <= j <= s.len(),
        forall|i: int| 0 <= i < s.len() ==> is_hex_digit(#[trigger] s[i]),
    ensures
        0 <= value_of(s.take(j), radix) <= value_of(s, radix),
    decreases s.len(),
{
    if j < s.len() {
        let t = s.drop_last();
        assert(t.take(j) =~= s.take(j));
        lemma_value_prefix(t, radix, j);
        lemma_value_prefix(t, radix, t.len() as int);
        assert(t.take(t.len() as int) =~= t);
        assert(value_of(t, radix) * radix >= value_of(t, radix)) by (nonlinear_arith)
            requires
                value_of(t, radix) >= 0,
                radix >= 10,
        ;
    } else {
        assert(s.take(j) =~= s);
        if s.len() > 0 {
            lemma_value_prefix(s.drop_last(), radix, s.len() - 1);
            assert(s.drop_last().take(s.len() - 1) =~= s.drop_last());
            assert(value_of(s.drop_last(), radix) * radix >= 0) by (nonlinear_arith)
                requires
                    value_of(s.drop_last(), radix) >= 0,
                    radix >= 10,
            ;
        }
    }
}

/// An ASCII character and its byte stand for the same number.
proof fn lemma_ascii_byte(c: char, b: u8)
    requires
        c <= '\u{7f}',
        b == c as u8,
    ensures
        b as int == c as int,
{
}

/// Reads a byte written as `0x` and hexadecimal digits.
pub fn parse_byte(s: &str) -> (r: Option<u8>)
    ensures
        r == byte_of(s@),
{
    if !s.is_ascii() {
        return None;
    }
    let b = s.as_bytes();
    let n = b.len();
    proof {
        assert(b@.len() == s@.len());
    }
    if n < 3 || b[0] != 48u8 || b[1] != 120u8 {
        return None;
    }
    let ghost digits = s@.subrange(2, n as int);
    let mut acc: u32 = 0;
    let mut i: usize = 2;
    while i < n
        invariant
            2 <= i <= n,
            n == s@.len(),
            b@.len() == n,
            digits == s@.subrange(2, n as int),
            forall|k: int| 0 <= k < n ==> b@[k] == #[trigger] s@[k] as u8,
            forall|k: int| 0 <= k < n ==> #[trigger] s@[k] <= '\u{7f}',
            s@[0] == '0' && s@[1] == 'x',
            forall|k: int| 2 <= k < i ==> is_hex_digit(#[trigger] s@[k]),
            acc == value_of(digits.take(i - 2), 16),
            acc < 256,
        decreases n - i,
    {
        let c = b[i];
        proof {
            lemma_ascii_byte(s@[i as int], c);
        }
        let d: u32 = if 48u8 <= c && c <= 57u8 {
            (c - 48u8) as u32
        } else if 97u8 <= c && c <= 102u8 {
            (c - 97u8) as u32 + 10
        } else if 65u8 <= c && c <= 70u8 {
            (c - 65u8) as u32 + 10
        } else {
            return None;
        };
        proof {
            assert(digits.take(i - 1).drop_last() =~= digits.take(i - 2));
            assert(digits.take(i - 1).last() == s@[i as int]);
        }
        acc = acc * 16 + d;
        if acc >= 256 {
            proof {
                if forall|k: int| 0 <= k < digits.len() ==> is_hex_digit(#[trigger] digits[k]) {
                    lemma_value_prefix(digits, 16, i - 1);
                }
            }
            return None;
        }
        i += 1;
    }
    proof {
        assert(digits.take(n - 2) =~= digits);
    }
    Some(acc as u8)
}

/// Digits after the decimal point that a time keeps: picoseconds.
pub const FRACTION_DIGITS: usize = 12;

/// A time without its minus sign, if it has one.
pub open spec fn time_body(s: Seq<char>) -> Seq<char> {
    if s.len() > 0 && s[0] == '-' {
        s.skip(1)
    } else {
        s
    }
}

/// Digits with at most one decimal point, and at least one digit.
pub open spec fn is_decimal(b: Seq<char>) -> bool {
    &&& forall|i: int| 0 <= i < b.len() ==> is_digit(#[trigger] b[i]) || b[i] == '.'
    &&& forall|i: int, j: int|
        0 <= i < b.len() && 0 <= j < b.len() && #[trigger] b[i] == '.' && #[trigger] b[j] == '.'
            ==> i == j
    &&& exists|i: int| 0 <= i < b.len() && is_digit(#[trigger] b[i])
}

/// Where the decimal point stands; the length if there is none.
pub open spec fn point_index(b: Seq<char>) -> int {
    if exists|i: int| 0 <= i < b.len() && #[trigger] b[i] == '.' {
        choose|i: int| 0 <= i < b.len() && #[trigger] b[i] == '.'
    } else {
        b.len() as int
    }
}

/// The whole digits followed by exactly twelve fraction digits: those
/// written, cut or filled up with zeros.
pub open spec fn picos_digits(b: Seq<char>) -> Seq<char> {
    let d = point_index(b);
    b.take(d) + Seq::new(
        FRACTION_DIGITS as nat,
        |k: int|
            if d + 1 + k < b.len() {
                b[d + 1 + k]
            } else {
                '0'
            },
    )
}

/// The time in picoseconds that a decimal number of seconds writes,
/// fraction digits past the twelfth dropped, if it is one and fits.
pub open spec fn time_of(s: Seq<char>) -> Option<i64> {
    let b = time_body(s);
    let m = value_of(picos_digits(b), 10);
    if is_decimal(b) && m <= i64::MAX {
        Some(
            if b.len() < s.len() {
                -m
            } else {
                m
            } as i64,
        )
    } else {
        None
    }
}

/// Reads a time written as a decimal number of seconds.
#[verifier::rlimit(60)]
pub fn parse_time(s: &str) -> (r: Option<i64>)
    ensures
        r == time_of(s@),
{
    if !s.is_ascii() {
        proof {
            let bd = time_body(s@);
            if is_decimal(bd) {
                assert forall|i: int| 0 <= i < s@.len() implies '\0' <= #[trigger] s@[i] <= '\u{7f}' by {
                    if s@.len() > 0 && s@[0] == '-' {
                        if i > 0 {
                            assert(s@[i] == bd[i - 1]);
                        }
                    } else {
                        assert(s@[i] == bd[i]);
                    }
                }
            }
        }
        return None;
    }
    let b = s.as_bytes();
    let n = b.len();
    proof {
        assert(b@.len() == s@.len());
    }
    let negative = n > 0 && b[0] == 45u8;
    proof {
        if n > 0 {
            lemma_ascii_byte(s@[0], b@[0]);
        }
    }
    let off: usize = if negative { 1 } else { 0 };
    let ghost body = time_body(s@);
    assert(body =~= s@.skip(off as int));
    let mut point: Option<usize> = None;
    let mut saw_digit = false;
    let mut i: usize = off;
    while i < n
        invariant
            off <= i <= n,
            n == s@.len(),
            b@.len() == n,
            body == s@.skip(off as int),
            body == time_body(s@),
            forall|k: int| 0 <= k < n ==> b@[k] == #[trigger] s@[k] as u8,
            forall|k: int| 0 <= k < n ==> #[trigger] s@[k] <= '\u{7f}',
            forall|k: int| off <= k < i ==> is_digit(#[trigger] s@[k]) || s@[k] == '.',
            match point {
                Some(p) => off <= p < i && s@[p as int] == '.' && forall|k: int|
                    off <= k < i && k != p ==> #[trigger] s@[k] != '.',
                None => forall|k: int| off <= k < i ==> #[trigger] s@[k] != '.',
            },
            saw_digit <==> exists|k: int| off <= k < i && is_digit(#[trigger] s@[k]),
        decreases n - i,
    {
        let c = b[i];
        proof {
            lemma_ascii_byte(s@[i as int], c);
        }
        if 48u8 <= c && c <= 57u8 {
            saw_digit = true;
        } else if c == 46u8 {
            match point {
                Some(p) => {
                    proof {
                        assert(body[p - off] == s@[p as int]);
                        assert(body[i - off] == s@[i as int]);
                        assert(body[p - off] == '.' && body[i - off] == '.');
                        assert(!is_decimal(body));
                    }
                    return None;
                },
                None => {
                    point = Some(i);
                },
            }
        } else {
            proof {
                assert(body[i - off] == s@[i as int]);
                assert(!(is_digit(body[i - off]) || body[i - off] == '.'));
                assert(!is_decimal(body));
            }
            return None;
        }
        i += 1;
    }
    if !saw_digit {
        proof {
            assert forall|k: int| 0 <= k < body.len() implies !is_digit(#[trigger] body[k]) by {
                assert(body[k] == s@[k + off]);
            }
        }
        return None;
    }
    let dot: usize = match point {
        Some(p) => p - off,
        None => n - off,
    };
    proof {
        assert forall|k: int| 0 <= k < body.len() implies is_digit(#[trigger] body[k]) || body[k] == '.' by {
            assert(body[k] == s@[k + off]);
        }
        let kw = choose|k: int| off <= k < n && is_digit(#[trigger] s@[k]);
        assert(is_digit(body[kw - off]));
        match point {
            Some(p) => {
                assert(body[p - off] == '.');
                assert forall|x: int, y: int|
                    0 <= x < body.len() && 0 <= y < body.len() && #[trigger] body[x] == '.'
                        && #[trigger] body[y] == '.' implies x == y by {
                    assert(body[x] == s@[x + off]);
                    assert(body[y] == s@[y + off]);
                }
                assert(point_index(body) == dot);
            },
            None => {
                assert forall|x: int| 0 <= x < body.len() implies #[trigger] body[x] != '.' by {
                    assert(body[x] == s@[x + off]);
                }
                assert(point_index(body) == dot);
            },
        }
        assert(is_decimal(body));
    }
    let ghost digits = picos_digits(body);
    let total: u128 = dot as u128 + FRACTION_DIGITS as u128;
    let mut acc: u128 = 0;
    let mut k: u128 = 0;
    while k < total
        invariant
            0 <= k <= total,
            total == dot + FRACTION_DIGITS,
            dot as int + off as int <= n,
            dot <= body.len(),
            off + body.len() == n,
            n == s@.len(),
            b@.len() == n,
            body == s@.skip(off as int),
            body == time_body(s@),
            negative <==> body.len() < s@.len(),
            forall|j: int| 0 <= j < n ==> b@[j] == #[trigger] s@[j] as u8,
            forall|j: int| 0 <= j < n ==> #[trigger] s@[j] <= '\u{7f}',
            digits == picos_digits(body),
            point_index(body) == dot,
            digits.len() == total,
            is_decimal(body),
            acc == value_of(digits.take(k as int), 10),
            acc <= i64::MAX,
        decreases total - k,
    {
        let idx: u128 = if k < dot as u128 {
            off as u128 + k
        } else {
            off as u128 + dot as u128 + 1 + (k - dot as u128)
        };
        let c: u8 = if idx < n as u128 {
            b[idx as usize]
        } else {
            48u8
        };
        proof {
            if k < dot {
                assert(digits[k as int] == body[k as int]);
                assert(body[k as int] == s@[idx as int]);
            } else if idx < n {
                assert(digits[k as int] == body[dot + 1 + (k - dot)]);
                assert(body[dot + 1 + (k - dot)] == s@[idx as int]);
            }
            if idx < n {
                lemma_ascii_byte(s@[idx as int], c);
            }
            assert(digits.take(k + 1).drop_last() =~= digits.take(k as int));
            assert(is_digit(digits[k as int])) by {
                if k < dot {
                    assert(body[k as int] != '.');
                } else if idx < n {
                    assert(body[idx - off] != '.');
                }
            }
        }
        let d = (c - 48u8) as u128;
        acc = acc * 10 + d;
        if acc > i64::MAX as u128 {
            proof {
                assert forall|j: int| 0 <= j < digits.len() implies is_hex_digit(#[trigger] digits[j]) by {
                    if j < dot {
                        assert(body[j] != '.');
                    } else if dot + 1 + (j - dot) < body.len() {
                        assert(body[dot + 1 + (j - dot)] != '.');
                    }
                }
                lemma_value_prefix(digits, 10, k + 1);
            }
            return None;
        }
        k += 1;
    }
    proof {
        assert(digits.take(total as int) =~= digits);
    }
    let magnitude = acc as i64;
    if negative {
        Some(-magnitude)
    } else {
        Some(magnitude)
    }
}

} // verus!
