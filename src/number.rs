use vstd::prelude::*;

verus! {

/// The value of digit `c` in base 16 (when `hex`) or base 10.
pub open spec fn digit_of(c: char, hex: bool) -> Option<nat> {
    if '0' <= c && c <= '9' {
        Some((c as nat - '0' as nat) as nat)
    } else if hex && 'a' <= c && c <= 'f' {
        Some((c as nat - 'a' as nat + 10) as nat)
    } else if hex && 'A' <= c && c <= 'F' {
        Some((c as nat - 'A' as nat + 10) as nat)
    } else {
        None
    }
}

pub open spec fn base(hex: bool) -> nat {
    if hex {
        16
    } else {
        10
    }
}

pub open spec fn all_digits(s: Seq<char>, hex: bool) -> bool {
    forall|i: int| 0 <= i < s.len() ==> (#[trigger] digit_of(s[i], hex)) is Some
}

/// The value of a string of digits, most significant first.
pub open spec fn digits_value(s: Seq<char>, hex: bool) -> nat
    decreases s.len(),
{
    if s.len() == 0 {
        0
    } else {
        digits_value(s.drop_last(), hex) * base(hex) + match digit_of(s.last(), hex) {
            Some(d) => d,
            None => 0,
        }
    }
}

/// A non-empty run of digits and its value.
pub open spec fn magnitude(s: Seq<char>, hex: bool) -> Option<nat> {
    if s.len() > 0 && all_digits(s, hex) {
        Some(digits_value(s, hex))
    } else {
        None
    }
}

/// An unsigned number: an optional `+` followed by a non-empty run of digits.
pub open spec fn unsigned_value(s: Seq<char>, hex: bool) -> Option<nat> {
    if s.len() > 0 && s[0] == '+' {
        magnitude(s.drop_first(), hex)
    } else {
        magnitude(s, hex)
    }
}

/// A decimal `u8`, as `str::parse::<u8>` reads it.
pub open spec fn u8_of(s: Seq<char>) -> Option<u8> {
    match unsigned_value(s, false) {
        Some(v) => if v <= u8::MAX {
            Some(v as u8)
        } else {
            None
        },
        None => None,
    }
}

/// A decimal `i16`, as `str::parse::<i16>` reads it: an optional sign, then digits.
pub open spec fn i16_of(s: Seq<char>) -> Option<i16> {
    if s.len() > 0 && s[0] == '-' {
        match magnitude(s.drop_first(), false) {
            Some(v) => if v <= 32768 {
                Some((0 - v) as i16)
            } else {
                None
            },
            None => None,
        }
    } else {
        match unsigned_value(s, false) {
            Some(v) => if v <= i16::MAX {
                Some(v as i16)
            } else {
                None
            },
            None => None,
        }
    }
}

/// A hexadecimal `u16`, with or without a leading `0x`.
pub open spec fn hex_u16_of(s: Seq<char>) -> Option<u16> {
    let digits = if s.len() >= 2 && s[0] == '0' && s[1] == 'x' {
        s.skip(2)
    } else {
        s
    };
    match unsigned_value(digits, true) {
        Some(v) => if v <= u16::MAX {
            Some(v as u16)
        } else {
            None
        },
        None => None,
    }
}

fn digit_at(c: char, hex: bool) -> (r: Option<u32>)
    ensures
        match digit_of(c, hex) {
            Some(d) => r == Some(d as u32),
            None => r is None,
        },
{
    if '0' <= c && c <= '9' {
        Some((c as u32) - ('0' as u32))
    } else if hex && 'a' <= c && c <= 'f' {
        Some((c as u32) - ('a' as u32) + 10)
    } else if hex && 'A' <= c && c <= 'F' {
        Some((c as u32) - ('A' as u32) + 10)
    } else {
        None
    }
}

proof fn lemma_saturating_step(v: nat, cap: nat, b: nat, d: nat)
    requires
        b >= 1,
    ensures
        (if v < cap { v } else { cap }) * b + d >= cap <==> v * b + d >= cap,
        v < cap ==> (if v < cap { v } else { cap }) * b + d == v * b + d,
{
    if v >= cap {
        assert(v * b >= cap * b) by (nonlinear_arith)
            requires
                v >= cap,
                b >= 1,
        ;
        assert(cap * b >= cap) by (nonlinear_arith)
            requires
                b >= 1,
        ;
    }
}

/// Reads the digits of `s` from `start` on; `None` when there are none, when one
/// is not a digit, or when the value exceeds `max`.
fn parse_magnitude(s: &Vec<char>, start: usize, hex: bool, max: u32) -> (r: Option<u32>)
    requires
        start <= s.len(),
        max <= u16::MAX,
    ensures
        match magnitude(s@.skip(start as int), hex) {
            Some(v) => if v <= max {
                r == Some(v as u32)
            } else {
                r is None
            },
            None => r is None,
        },
{
    if start == s.len() {
        return None;
    }
    let b: u32 = if hex {
        16
    } else {
        10
    };
    let cap: u32 = max + 1;
    let mut acc: u32 = 0;
    let mut i: usize = start;
    while i < s.len()
        invariant
            start <= i <= s.len(),
            b == base(hex),
            cap == max + 1,
            max <= u16::MAX,
            all_digits(s@.subrange(start as int, i as int), hex),
            acc == (if digits_value(s@.subrange(start as int, i as int), hex) < cap {
                digits_value(s@.subrange(start as int, i as int), hex)
            } else {
                cap as nat
            }),
        decreases s.len() - i,
    {
        let ghost prev = s@.subrange(start as int, i as int);
        let ghost next = s@.subrange(start as int, i + 1);
        assert(next.drop_last() =~= prev);
        assert(next.last() == s@[i as int]);
        match digit_at(s[i], hex) {
            None => {
                assert(!all_digits(s@.skip(start as int), hex)) by {
                    assert(s@.skip(start as int)[i - start] == s@[i as int]);
                }
                return None;
            },
            Some(d) => {
                proof {
                    lemma_saturating_step(digits_value(prev, hex), cap as nat, b as nat, d as nat);
                    assert forall|j: int| 0 <= j < next.len() implies (#[trigger] digit_of(
                        next[j],
                        hex,
                    )) is Some by {
                        if j < prev.len() {
                            assert(next[j] == prev[j]);
                        }
                    }
                }
                assert(acc * b + d <= 65536 * 16 + 15) by (nonlinear_arith)
                    requires
                        acc <= 65536,
                        b <= 16,
                        d <= 15,
                ;
                let step: u32 = acc * b + d;
                acc = if step < cap {
                    step
                } else {
                    cap
                };
            },
        }
        i = i + 1;
    }
    assert(s@.subrange(start as int, i as int) =~= s@.skip(start as int));
    if acc < cap {
        Some(acc)
    } else {
        None
    }
}

/// Reads an unsigned number (an optional `+`, then digits) from `start` on.
fn parse_unsigned(s: &Vec<char>, start: usize, hex: bool, max: u32) -> (r: Option<u32>)
    requires
        start <= s.len(),
        max <= u16::MAX,
    ensures
        match unsigned_value(s@.skip(start as int), hex) {
            Some(v) => if v <= max {
                r == Some(v as u32)
            } else {
                r is None
            },
            None => r is None,
        },
{
    if start < s.len() && s[start] == '+' {
        assert(s@.skip(start as int).drop_first() =~= s@.skip(start + 1));
        parse_magnitude(s, start + 1, hex, max)
    } else {
        parse_magnitude(s, start, hex, max)
    }
}

/// Parses a decimal `u8`.
pub fn parse_u8(s: &Vec<char>) -> (r: Option<u8>)
    ensures
        r == u8_of(s@),
{
    assert(s@.skip(0) =~= s@);
    match parse_unsigned(s, 0, false, 255) {
        Some(v) => Some(v as u8),
        None => None,
    }
}

/// Parses a decimal `i16`.
pub fn parse_i16(s: &Vec<char>) -> (r: Option<i16>)
    ensures
        r == i16_of(s@),
{
    if s.len() > 0 && s[0] == '-' {
        assert(s@.drop_first() =~= s@.skip(1));
        match parse_magnitude(s, 1, false, 32768) {
            Some(v) => Some((0 - (v as i32)) as i16),
            None => None,
        }
    } else {
        assert(s@.skip(0) =~= s@);
        match parse_unsigned(s, 0, false, 32767) {
            Some(v) => Some(v as i16),
            None => None,
        }
    }
}

/// Parses a hexadecimal `u16`, with or without a leading `0x`.
pub fn parse_hex_u16(s: &Vec<char>) -> (r: Option<u16>)
    ensures
        r == hex_u16_of(s@),
{
    let start: usize = if s.len() >= 2 && s[0] == '0' && s[1] == 'x' {
        2
    } else {
        0
    };
    assert(s@.skip(0) =~= s@);
    match parse_unsigned(s, start, true, 65535) {
        Some(v) => Some(v as u16),
        None => None,
    }
}

/// The character that writes digit `d` (upper case beyond nine).
pub open spec fn digit_char(d: nat) -> char {
    if d == 0 {
        '0'
    } else if d == 1 {
        '1'
    } else if d == 2 {
        '2'
    } else if d == 3 {
        '3'
    } else if d == 4 {
        '4'
    } else if d == 5 {
        '5'
    } else if d == 6 {
        '6'
    } else if d == 7 {
        '7'
    } else if d == 8 {
        '8'
    } else if d == 9 {
        '9'
    } else if d == 10 {
        'A'
    } else if d == 11 {
        'B'
    } else if d == 12 {
        'C'
    } else if d == 13 {
        'D'
    } else if d == 14 {
        'E'
    } else {
        'F'
    }
}

/// `n` written in base 16 (when `hex`) or base 10, without leading zeros.
pub open spec fn numeral(n: nat, hex: bool) -> Seq<char>
    decreases n,
{
    if n < base(hex) {
        seq![digit_char(n)]
    } else {
        numeral(n / base(hex), hex).push(digit_char(n % base(hex)))
    }
}

fn decimal_digit(d: u8) -> (c: char)
    requires
        d < 10,
    ensures
        c == digit_char(d as nat),
{
    if d == 0 {
        '0'
    } else if d == 1 {
        '1'
    } else if d == 2 {
        '2'
    } else if d == 3 {
        '3'
    } else if d == 4 {
        '4'
    } else if d == 5 {
        '5'
    } else if d == 6 {
        '6'
    } else if d == 7 {
        '7'
    } else if d == 8 {
        '8'
    } else {
        '9'
    }
}

/// Relies on `String::push`: appends one character.
#[verifier::external_body]
pub(crate) fn push_char(s: &mut String, c: char)
    ensures
        final(s)@ == old(s)@.push(c),
{
    s.push(c)
}

/// Appends the decimal numeral of `n` to `s`.
pub fn append_decimal(s: &mut String, n: u8)
    ensures
        final(s)@ == old(s)@ + numeral(n as nat, false),
{
    reveal_with_fuel(numeral, 3);
    let ghost start = s@;
    if n >= 100 {
        push_char(s, decimal_digit(n / 100));
    }
    if n >= 10 {
        push_char(s, decimal_digit((n / 10) % 10));
    }
    push_char(s, decimal_digit(n % 10));
    proof {
        let v = n as nat;
        if v >= 100 {
            assert(numeral(v / 10 / 10, false) == seq![digit_char(v / 100)]);
            assert((v / 10) % 10 == (n / 10) % 10);
            assert(s@ =~= start + numeral(v, false));
        } else if v >= 10 {
            assert(s@ =~= start + numeral(v, false));
        } else {
            assert(s@ =~= start + numeral(v, false));
        }
    }
}

/// A hexadecimal value reads the same with or without its `0x` prefix, and a
/// run of hex digits whose value fits sixteen bits is accepted.
pub proof fn lemma_hex_prefix_optional(digits: Seq<char>)
    requires
        all_digits(digits, true),
    ensures
        hex_u16_of(seq!['0', 'x'] + digits) == hex_u16_of(digits),
        digits.len() > 0 && digits_value(digits, true) <= u16::MAX ==> hex_u16_of(digits) == Some(
            digits_value(digits, true) as u16,
        ),
{
    let prefixed = seq!['0', 'x'] + digits;
    assert(prefixed.skip(2) =~= digits);
    assert(prefixed[0] == '0' && prefixed[1] == 'x');
    if digits.len() > 0 {
        assert(digit_of(digits[0], true) is Some);
    }
    if digits.len() >= 2 {
        assert(digit_of(digits[1], true) is Some);
    }
}

/// `v` written in decimal, with a leading `-` when negative.
pub open spec fn signed_numeral(v: int) -> Seq<char> {
    if v < 0 {
        seq!['-'] + numeral((0 - v) as nat, false)
    } else {
        numeral(v as nat, false)
    }
}

proof fn lemma_digit_char(d: nat, hex: bool)
    requires
        d < base(hex),
    ensures
        digit_of(digit_char(d), hex) == Some(d),
{
}

/// A numeral is a non-empty run of digits whose value is the number written.
pub proof fn lemma_numeral(n: nat, hex: bool)
    ensures
        numeral(n, hex).len() > 0,
        all_digits(numeral(n, hex), hex),
        digits_value(numeral(n, hex), hex) == n,
    decreases n,
{
    let b = base(hex);
    let s = numeral(n, hex);
    if n < b {
        lemma_digit_char(n, hex);
        assert(s.drop_last() =~= Seq::<char>::empty());
        assert(digits_value(s.drop_last(), hex) == 0);
        assert(s.last() == digit_char(n));
        assert(digits_value(s, hex) == 0 * b + n);
    } else {
        lemma_numeral(n / b, hex);
        lemma_digit_char(n % b, hex);
        let p = numeral(n / b, hex);
        assert(s.drop_last() =~= p);
        assert forall|i: int| 0 <= i < s.len() implies (#[trigger] digit_of(s[i], hex)) is Some by {
            if i < p.len() {
                assert(s[i] == p[i]);
            }
        }
        assert(s.last() == digit_char(n % b));
        assert(digits_value(s, hex) == digits_value(p, hex) * b + n % b);
        assert((n / b) * b + n % b == n) by (nonlinear_arith)
            requires
                b > 0,
        ;
    }
}

/// Each character of a run of digits is a digit, so not a separator or a sign.
pub proof fn lemma_digits_plain(s: Seq<char>, hex: bool, i: int)
    requires
        all_digits(s, hex),
        0 <= i < s.len(),
    ensures
        s[i] != '|' && s[i] != ',' && s[i] != '+' && s[i] != '-' && s[i] != 'x',
{
    assert(digit_of(s[i], hex) is Some);
}

/// A decimal `u8` reads back as itself.
pub proof fn lemma_u8_numeral(v: u8)
    ensures
        u8_of(numeral(v as nat, false)) == Some(v),
{
    lemma_numeral(v as nat, false);
    lemma_digits_plain(numeral(v as nat, false), false, 0);
}

/// A signed decimal `i16` reads back as itself.
pub proof fn lemma_i16_numeral(v: i16)
    ensures
        i16_of(signed_numeral(v as int)) == Some(v),
{
    let s = signed_numeral(v as int);
    if v < 0 {
        let m = numeral((0 - v) as nat, false);
        lemma_numeral((0 - v) as nat, false);
        assert(s.drop_first() =~= m);
        assert(s[0] == '-');
    } else {
        lemma_numeral(v as nat, false);
        lemma_digits_plain(s, false, 0);
    }
}

/// A hexadecimal `u16` behind `0x` reads back as itself.
pub proof fn lemma_hex_numeral(v: u16)
    ensures
        hex_u16_of(seq!['0', 'x'] + numeral(v as nat, true)) == Some(v),
{
    let m = numeral(v as nat, true);
    lemma_numeral(v as nat, true);
    lemma_hex_prefix_optional(m);
}

} // verus!
