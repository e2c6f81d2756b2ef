//! Numbers written and read as text: decimal and hexadecimal.

use crate::text::chars_of;
use vstd::prelude::*;

verus! {

// ---------- writing ----------

/// The character of a decimal digit.
pub open spec fn digit_char(d: nat) -> char {
    (48 + d) as char
}

/// The decimal digits of `n`, without leading zeros.
pub open spec fn dec(n: nat) -> Seq<char>
    decreases n,
{
    if n < 10 {
        seq![digit_char(n)]
    } else {
        dec(n / 10).push(digit_char(n % 10))
    }
}

/// The decimal form of `n`, with a minus sign where it is negative.
pub open spec fn dec_int(n: int) -> Seq<char> {
    if n < 0 {
        seq!['-'] + dec((-n) as nat)
    } else {
        dec(n as nat)
    }
}

/// The decimal form of `n`.
pub fn decimal(n: u64) -> (r: String)
    ensures
        r@ == dec(n as nat),
    decreases n,
{
    if n < 10 {
        let mut s = String::new();
        let d: u8 = n as u8;
        s.push((48u8 + d) as char);
        assert(s@ =~= dec(n as nat));
        s
    } else {
        let mut s = decimal(n / 10);
        let d: u8 = (n % 10) as u8;
        s.push((48u8 + d) as char);
        s
    }
}

/// The decimal form of a signed number.
pub fn decimal_i64(n: i64) -> (r: String)
    ensures
        r@ == dec_int(n as int),
{
    if n < 0 {
        let m: u64 = (-(n + 1)) as u64 + 1;
        let d = decimal(m);
        let mut s = String::new();
        s.push('-');
        s.append(d.as_str());
        assert(s@ =~= seq!['-'] + dec(m as nat));
        s
    } else {
        decimal(n as u64)
    }
}

/// The character of a hexadecimal digit, in small letters.
pub open spec fn hex_char(d: nat) -> char {
    if d < 10 {
        (48 + d) as char
    } else {
        (87 + d) as char
    }
}

/// The character of a hexadecimal digit, in capital letters.
pub open spec fn hex_char_upper(d: nat) -> char {
    if d < 10 {
        (48 + d) as char
    } else {
        (55 + d) as char
    }
}

/// The last `width` hexadecimal digits of `n`, with leading zeros.
pub open spec fn hex(n: nat, width: nat) -> Seq<char>
    decreases width,
{
    if width == 0 {
        seq![]
    } else {
        hex(n / 16, (width - 1) as nat).push(hex_char(n % 16))
    }
}

/// `hex` writes exactly `width` digits.
pub proof fn lemma_hex_len(n: nat, width: nat)
    ensures
        hex(n, width).len() == width,
    decreases width,
{
    if width > 0 {
        lemma_hex_len(n / 16, (width - 1) as nat);
    }
}

/// The last `width` hexadecimal digits of `n`.
pub fn hexadecimal(n: u64, width: usize) -> (r: String)
    ensures
        r@ == hex(n as nat, width as nat),
    decreases width,
{
    if width == 0 {
        let s = String::new();
        assert(s@ =~= hex(n as nat, 0));
        s
    } else {
        let mut s = hexadecimal(n / 16, width - 1);
        let d: u8 = (n % 16) as u8;
        if d < 10 {
            s.push((48u8 + d) as char);
        } else {
            s.push((87u8 + d) as char);
        }
        s
    }
}

// ---------- reading ----------

/// The value of a digit, whatever the radix up to 16.
pub open spec fn digit_value(c: char) -> Option<nat> {
    if '0' <= c && c <= '9' {
        Some((c as int - 48) as nat)
    } else if 'a' <= c && c <= 'f' {
        Some((c as int - 87) as nat)
    } else if 'A' <= c && c <= 'F' {
        Some((c as int - 55) as nat)
    } else {
        None
    }
}

/// The value of a row of digits; `None` where something else stands in it.
pub open spec fn digits_value(s: Seq<char>, radix: nat) -> Option<nat>
    decreases s.len(),
{
    if s.len() == 0 {
        Some(0)
    } else {
        match (digits_value(s.drop_last(), radix), digit_value(s.last())) {
            (Some(v), Some(d)) => if d < radix {
                Some(v * radix + d)
            } else {
                None
            },
            _ => None,
        }
    }
}

/// What `parse` makes of a text for an unsigned type with the largest value
/// `max`: one or more digits, after a plus sign at most.
pub open spec fn parse_unsigned(s: Seq<char>, radix: nat, max: nat) -> Option<nat> {
    let t = if s.len() > 0 && s[0] == '+' {
        s.skip(1)
    } else {
        s
    };
    match digits_value(t, radix) {
        Some(v) => if t.len() > 0 && v <= max {
            Some(v)
        } else {
            None
        },
        None => None,
    }
}

/// What `parse` makes of a text for a signed 64-bit number: one or more
/// digits, after one sign at most.
pub open spec fn parse_signed(s: Seq<char>) -> Option<int> {
    if s.len() > 0 && s[0] == '-' {
        match digits_value(s.skip(1), 10) {
            Some(v) => if s.len() > 1 && v <= 0x8000_0000_0000_0000 {
                Some(-(v as int))
            } else {
                None
            },
            None => None,
        }
    } else {
        match parse_unsigned(s, 10, i64::MAX as nat) {
            Some(v) => Some(v as int),
            None => None,
        }
    }
}

/// A row of digits is worth no less than its beginning.
proof fn lemma_digits_grow(s: Seq<char>, n: int, radix: nat)
    requires
        0 <= n <= s.len(),
        radix >= 1,
    ensures
        digits_value(s.take(n), radix) is None ==> digits_value(s, radix) is None,
        digits_value(s, radix) is Some ==> digits_value(s.take(n), radix)->0 <= digits_value(
            s,
            radix,
        )->0,
    decreases s.len() - n,
{
    if n == s.len() {
        assert(s.take(n) =~= s);
    } else {
        lemma_digits_grow(s, n + 1, radix);
        assert(s.take(n + 1).drop_last() =~= s.take(n));
        if let Some(v) = digits_value(s.take(n), radix) {
            assert(v * radix >= v) by (nonlinear_arith)
                requires
                    radix >= 1,
                    v >= 0,
            ;
        }
    }
}

/// The value of the digits `v[from..]`, where it is at most `max`.
fn read_digits(v: &Vec<char>, from: usize, radix: u64, max: u64) -> (r: Option<u64>)
    requires
        from <= v@.len(),
        1 <= radix <= 16,
    ensures
        match digits_value(v@.skip(from as int), radix as nat) {
            Some(x) => if x <= max {
                r == Some(x as u64)
            } else {
                r is None
            },
            None => r is None,
        },
{
    let ghost s = v@.skip(from as int);
    let mut acc: u128 = 0;
    let mut i: usize = from;
    assert(s.take(0) =~= Seq::<char>::empty());
    while i < v.len()
        invariant
            from <= i <= v@.len(),
            s == v@.skip(from as int),
            1 <= radix <= 16,
            acc <= max,
            digits_value(s.take(i - from), radix as nat) == Some(acc as nat),
        decreases v@.len() - i,
    {
        let c = v[i];
        let ghost n = i - from;
        proof {
            assert(s.take(n + 1).drop_last() =~= s.take(n));
            assert(s.take(n + 1).last() == c);
            lemma_digits_grow(s, n + 1, radix as nat);
        }
        let d: u64 = if '0' <= c && c <= '9' {
            c as u64 - 48
        } else if 'a' <= c && c <= 'f' {
            c as u64 - 87
        } else if 'A' <= c && c <= 'F' {
            c as u64 - 55
        } else {
            return None;
        };
        if d >= radix {
            return None;
        }
        assert(acc * radix <= 0xffff_ffff_ffff_ffffu64 * 16) by (nonlinear_arith)
            requires
                acc <= 0xffff_ffff_ffff_ffff,
                0 <= radix <= 16,
        ;
        acc = acc * (radix as u128) + d as u128;
        assert(digits_value(s.take(n + 1), radix as nat) == Some(acc as nat));
        if acc > max as u128 {
            return None;
        }
        i = i + 1;
    }
    assert(s.take(i - from) =~= s);
    Some(acc as u64)
}

/// Reads an unsigned number of at most `max`.
pub fn read_unsigned(v: &Vec<char>, radix: u64, max: u64) -> (r: Option<u64>)
    requires
        1 <= radix <= 16,
    ensures
        match parse_unsigned(v@, radix as nat, max as nat) {
            Some(x) => r == Some(x as u64) && x <= max,
            None => r is None,
        },
{
    let from: usize = if v.len() > 0 && v[0] == '+' {
        1
    } else {
        0
    };
    assert(v@.skip(0) =~= v@);
    if from >= v.len() {
        return None;
    }
    read_digits(v, from, radix, max)
}

/// Reads a decimal number of at most `max`.
pub fn read_decimal(s: &str, max: u64) -> (r: Option<u64>)
    ensures
        match parse_unsigned(s@, 10, max as nat) {
            Some(x) => r == Some(x as u64) && x <= max,
            None => r is None,
        },
{
    read_unsigned(&chars_of(s), 10, max)
}

/// Reads a decimal number of 16 bits.
pub fn read_u16(s: &str) -> (r: Option<u16>)
    ensures
        match parse_unsigned(s@, 10, u16::MAX as nat) {
            Some(x) => r == Some(x as u16) && x <= u16::MAX,
            None => r is None,
        },
{
    match read_decimal(s, 65535) {
        Some(x) => Some(x as u16),
        None => None,
    }
}

/// Reads a signed decimal number.
pub fn read_i64(s: &str) -> (r: Option<i64>)
    ensures
        match parse_signed(s@) {
            Some(x) => r == Some(x as i64) && i64::MIN <= x <= i64::MAX,
            None => r is None,
        },
{
    let v = chars_of(s);
    if v.len() > 0 && v[0] == '-' {
        if v.len() == 1 {
            return None;
        }
        match read_digits(&v, 1, 10, 0x8000_0000_0000_0000) {
            Some(x) => if x == 0x8000_0000_0000_0000 {
                Some(i64::MIN)
            } else {
                Some(-(x as i64))
            },
            None => None,
        }
    } else {
        match read_unsigned(&v, 10, 0x7fff_ffff_ffff_ffff) {
            Some(x) => Some(x as i64),
            None => None,
        }
    }
}

// ---------- reading what was written ----------

/// Decimal digits read back as the number that they were written for.
pub proof fn lemma_dec_value(n: nat)
    ensures
        digits_value(dec(n), 10) == Some(n),
        dec(n).len() > 0,
        forall|i: int| 0 <= i < dec(n).len() ==> '0' <= #[trigger] dec(n)[i] <= '9',
    decreases n,
{
    if n < 10 {
        assert(dec(n).drop_last() =~= Seq::<char>::empty());
        assert(digits_value(dec(n).drop_last(), 10) == Some(0nat));
    } else {
        lemma_dec_value(n / 10);
        assert(dec(n).drop_last() =~= dec(n / 10));
    }
}

/// A number that is written in decimal is read back as it was, wherever it
/// fits the type that it is read as.
pub proof fn decimal_reads_back(n: nat, max: nat)
    requires
        n <= max,
    ensures
        parse_unsigned(dec(n), 10, max) == Some(n),
{
    lemma_dec_value(n);
    assert('0' <= dec(n)[0] <= '9');
}

/// A signed number that is written in decimal is read back as it was.
pub proof fn signed_decimal_reads_back(n: int)
    requires
        i64::MIN <= n <= i64::MAX,
    ensures
        parse_signed(dec_int(n)) == Some(n),
{
    if n < 0 {
        lemma_dec_value((-n) as nat);
        assert(dec_int(n).skip(1) =~= dec((-n) as nat));
    } else {
        lemma_dec_value(n as nat);
        assert('0' <= dec(n as nat)[0] <= '9');
        decimal_reads_back(n as nat, i64::MAX as nat);
    }
}

/// Hexadecimal digits are read back as the number that they were written for,
/// where they hold all of it.
pub proof fn hexadecimal_reads_back(n: nat, width: nat)
    requires
        n < vstd::arithmetic::power::pow(16, width),
    ensures
        digits_value(hex(n, width), 16) == Some(n),
    decreases width,
{
    vstd::arithmetic::power::lemma_pow_positive(16, width);
    if width == 0 {
        vstd::arithmetic::power::lemma_pow0(16);
    } else {
        vstd::arithmetic::power::lemma_pow_adds(16, 1, (width - 1) as nat);
        vstd::arithmetic::power::lemma_pow1(16);
        let p = vstd::arithmetic::power::pow(16, (width - 1) as nat);
        assert(n / 16 < p) by (nonlinear_arith)
            requires
                n < 16 * p,
        ;
        hexadecimal_reads_back(n / 16, (width - 1) as nat);
        assert(hex(n, width).drop_last() =~= hex(n / 16, (width - 1) as nat));
        assert(digit_value(hex_char(n % 16)) == Some(n % 16));
    }
}

// ---------- laws of numbers ----------

/// A number grows by a digit as numbers do: by the radix times what was there and the
/// digit. The digits are `0` to `9` and then the letters from `a`, small or capital;
/// a character that is no digit of the radix makes it no number.
pub proof fn digits_count_by_place(s: Seq<char>, c: char, v: nat)
    requires
        digits_value(s, 10) == Some(v),
    ensures
        '0' <= c && c <= '9' ==> digits_value(s.push(c), 10) == Some(
            (v * 10 + (c as int - '0' as int)) as nat,
        ),
        !('0' <= c && c <= '9') ==> digits_value(s.push(c), 10) is None,
{
    assert(s.push(c).drop_last() =~= s);
}

/// The same holds of the hexadecimal digits.
pub proof fn hex_digits_count_by_place(s: Seq<char>, c: char, v: nat)
    requires
        digits_value(s, 16) == Some(v),
    ensures
        '0' <= c && c <= '9' ==> digits_value(s.push(c), 16) == Some(
            (v * 16 + (c as int - '0' as int)) as nat,
        ),
        'a' <= c && c <= 'f' ==> digits_value(s.push(c), 16) == Some(
            (v * 16 + 10 + (c as int - 'a' as int)) as nat,
        ),
        'A' <= c && c <= 'F' ==> digits_value(s.push(c), 16) == Some(
            (v * 16 + 10 + (c as int - 'A' as int)) as nat,
        ),
        !('0' <= c && c <= '9') && !('a' <= c && c <= 'f') && !('A' <= c && c <= 'F')
            ==> digits_value(s.push(c), 16) is None,
{
    assert(s.push(c).drop_last() =~= s);
}

/// A character that is no digit makes a text no number, wherever it stands.
pub proof fn other_characters_are_no_number(a: Seq<char>, c: char, b: Seq<char>)
    requires
        !('0' <= c && c <= '9'),
    ensures
        digits_value(a + seq![c] + b, 10) is None,
    decreases b.len(),
{
    let s = a + seq![c] + b;
    if b.len() == 0 {
        assert(s.last() == c);
    } else {
        other_characters_are_no_number(a, c, b.drop_last());
        assert(s.drop_last() =~= a + seq![c] + b.drop_last());
    }
}

/// A number without a sign, or with a plus before it, is read where it has a digit and
/// is not larger than it may be; nothing else is.
pub proof fn numbers_are_read(s: Seq<char>, max: nat)
    requires
        s.len() > 0 ==> s[0] != '+',
    ensures
        s.len() > 0 && digits_value(s, 10) is Some && digits_value(s, 10)->0 <= max
            ==> parse_unsigned(s, 10, max) == digits_value(s, 10) && parse_unsigned(
            seq!['+'] + s,
            10,
            max,
        ) == digits_value(s, 10),
        s.len() == 0 || digits_value(s, 10) is None || digits_value(s, 10)->0 > max
            ==> parse_unsigned(s, 10, max) is None && parse_unsigned(seq!['+'] + s, 10, max) is None,
{
    let p = seq!['+'] + s;
    assert(p[0] == '+');
    assert(p.skip(1) =~= s);
}

/// A signed number is read with a minus before it as its negative.
pub proof fn signed_numbers_are_read(s: Seq<char>)
    requires
        s.len() > 0,
        s[0] != '+',
        s[0] != '-',
        digits_value(s, 10) is Some,
    ensures
        digits_value(s, 10)->0 <= 0x7FFF_FFFF_FFFF_FFFF ==> parse_signed(s) == Some(
            digits_value(s, 10)->0 as int,
        ),
        digits_value(s, 10)->0 > 0x7FFF_FFFF_FFFF_FFFF ==> parse_signed(s) is None,
        digits_value(s, 10)->0 <= 0x8000_0000_0000_0000 ==> parse_signed(seq!['-'] + s) == Some(
            -(digits_value(s, 10)->0 as int),
        ),
        digits_value(s, 10)->0 > 0x8000_0000_0000_0000 ==> parse_signed(seq!['-'] + s) is None,
        parse_signed(Seq::empty()) is None,
        parse_signed(seq!['-']) is None,
{
    let m = seq!['-'] + s;
    assert(m[0] == '-');
    assert(m.skip(1) =~= s);
}

/// A number is written in the digits from `0` to `9`, without a zero before it; each
/// further digit makes it ten times as large and adds to it.
pub proof fn numbers_are_written_by_place(n: nat, d: nat)
    requires
        d < 10,
    ensures
        dec(n).len() > 0,
        n > 0 ==> dec(n)[0] != '0',
        dec(0) == seq!['0'],
        n > 0 ==> dec(n * 10 + d) == dec(n).push((48 + d) as char),
        n < 10 ==> dec(n).len() == 1 && dec(n)[0] as u32 == 48 + n,
    decreases n,
{
    lemma_dec_value(n);
    if n >= 10 {
        numbers_are_written_by_place(n / 10, 0);
        assert(dec(n)[0] == dec(n / 10)[0]);
    }
    assert((n * 10 + d) / 10 == n);
    assert((n * 10 + d) % 10 == d);
}

/// A negative number is written with a minus before it, and no other is.
pub proof fn negative_numbers_have_a_minus(n: nat)
    ensures
        dec_int(n as int) == dec(n),
        n > 0 ==> dec_int(-(n as int)) == seq!['-'] + dec(n),
{
}

/// A hexadecimal number has just as many digits as are asked for, small letters where
/// they are not digits.
pub proof fn hex_numbers_have_their_width(n: nat, width: nat, i: int)
    requires
        0 <= i < width,
    ensures
        hex(n, width).len() == width,
        ('0' <= hex(n, width)[i] && hex(n, width)[i] <= '9') || ('a' <= hex(n, width)[i] && hex(
            n,
            width,
        )[i] <= 'f'),
    decreases width,
{
    lemma_hex_len(n, width);
    lemma_hex_len(n / 16, (width - 1) as nat);
    if i < width - 1 {
        hex_numbers_have_their_width(n / 16, (width - 1) as nat, i);
        assert(hex(n, width)[i] == hex(n / 16, (width - 1) as nat)[i]);
    } else {
        assert(n % 16 < 16);
    }
}

} // verus!
