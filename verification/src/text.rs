use crate::math::fixed::{saturate, saturate_i128, Fixed, SCALE};
use vstd::prelude::*;
use vstd::slice::slice_subrange;

verus! {

pub open spec fn is_digit(c: char) -> bool {
    '0' <= c && c <= '9'
}

pub open spec fn digit_value(c: char) -> int {
    c as int - '0' as int
}

pub open spec fn all_digits(s: Seq<char>) -> bool {
    forall|i: int| 0 <= i < s.len() ==> is_digit(#[trigger] s[i])
}

/// The number that a string of decimal digits writes; 0 for the empty string.
pub open spec fn decimal_value(s: Seq<char>) -> int
    decreases s.len(),
{
    if s.len() == 0 {
        0
    } else {
        decimal_value(s.drop_last()) * 10 + digit_value(s.last())
    }
}

pub open spec fn pow10(n: nat) -> int
    decreases n,
{
    if n == 0 {
        1
    } else {
        10 * pow10((n - 1) as nat)
    }
}

pub open spec fn min_int(a: int, b: int) -> int {
    if a <= b {
        a
    } else {
        b
    }
}

/// The position of the first `c` in `s` at or after `from`, or the length of
/// `s` where there is none.
pub open spec fn find_from(s: Seq<char>, c: char, from: int) -> int
    decreases s.len() - from,
{
    if from < 0 || from >= s.len() {
        s.len() as int
    } else if s[from] == c {
        from
    } else {
        find_from(s, c, from + 1)
    }
}

pub open spec fn has_sign(s: Seq<char>) -> bool {
    s.len() > 0 && (s[0] == '-' || s[0] == '+')
}

pub open spec fn is_negative(s: Seq<char>) -> bool {
    s.len() > 0 && s[0] == '-'
}

/// The string without its leading sign, if it has one.
pub open spec fn unsigned_part(s: Seq<char>) -> Seq<char> {
    if has_sign(s) {
        s.subrange(1, s.len() as int)
    } else {
        s
    }
}

/// The 32-bit integer that `s` writes in decimal: an optional sign, then one
/// digit or more and nothing else; `None` for any other string and for a
/// number that does not fit.
pub open spec fn parse_i32_spec(s: Seq<char>) -> Option<i32> {
    let digits = unsigned_part(s);
    let value = if is_negative(s) {
        -decimal_value(digits)
    } else {
        decimal_value(digits)
    };
    if digits.len() > 0 && all_digits(digits) && i32::MIN <= value <= i32::MAX {
        Some(value as i32)
    } else {
        None
    }
}

/// The first nine digits after the point, as a count of billionths.
pub open spec fn fraction_value(s: Seq<char>) -> int {
    let n = min_int(9, s.len() as int);
    decimal_value(s.take(n)) * pow10((9 - n) as nat)
}

/// The fixed-point number that `s` writes in decimal: an optional sign,
/// digits, and optionally a point with more digits, at least one digit in
/// all. Digits after the ninth fractional one are dropped, and a number
/// outside the range becomes the nearest end of it. `None` for any other
/// string.
pub open spec fn parse_fixed_spec(s: Seq<char>) -> Option<Fixed> {
    let body = unsigned_part(s);
    let point = find_from(body, '.', 0);
    let whole = body.take(point);
    let fraction = if point < body.len() {
        body.skip(point + 1)
    } else {
        Seq::<char>::empty()
    };
    let magnitude = decimal_value(whole) * SCALE + fraction_value(fraction);
    if all_digits(whole) && all_digits(fraction) && whole.len() + fraction.len() > 0 {
        Some(
            Fixed {
                raw: saturate(
                    if is_negative(s) {
                        -magnitude
                    } else {
                        magnitude
                    },
                ),
            },
        )
    } else {
        None
    }
}

/// The integers that `s` lists from position `from` on, separated by commas;
/// `None` where one of the items is no 32-bit integer. A string that ends in
/// a comma ends in an empty item, which is none.
pub open spec fn parse_list_from(s: Seq<char>, from: int) -> Option<Seq<i32>>
    decreases s.len() - from,
{
    let end = find_from(s, ',', from);
    if from < 0 || from > s.len() {
        None
    } else {
        match parse_i32_spec(s.subrange(from, end)) {
            None => None,
            Some(first) => if end >= s.len() {
                Some(seq![first])
            } else {
                proof {
                    lemma_find_from(s, ',', from);
                }
                match parse_list_from(s, end + 1) {
                    None => None,
                    Some(rest) => Some(seq![first] + rest),
                }
            },
        }
    }
}

/// The integers that `s` lists, separated by commas.
pub open spec fn parse_list_spec(s: Seq<char>) -> Option<Seq<i32>> {
    parse_list_from(s, 0)
}

pub proof fn lemma_pow10_positive(n: nat)
    ensures
        pow10(n) >= 1,
    decreases n,
{
    if n > 0 {
        lemma_pow10_positive((n - 1) as nat);
    }
}

pub proof fn lemma_pow10_adds(a: nat, b: nat)
    ensures
        pow10(a) * pow10(b) == pow10(a + b),
    decreases a,
{
    if a > 0 {
        lemma_pow10_adds((a - 1) as nat, b);
        assert((10 * pow10((a - 1) as nat)) * pow10(b) == 10 * (pow10((a - 1) as nat) * pow10(b)))
            by (nonlinear_arith);
    }
}

/// The position found lies between the start and the end of the string, and
/// nothing before it is the character looked for.
pub proof fn lemma_find_from(s: Seq<char>, c: char, from: int)
    requires
        0 <= from <= s.len(),
    ensures
        from <= find_from(s, c, from) <= s.len(),
        find_from(s, c, from) < s.len() ==> s[find_from(s, c, from)] == c,
        forall|i: int| from <= i < find_from(s, c, from) ==> s[i] != c,
    decreases s.len() - from,
{
    if from < s.len() && s[from] != c {
        lemma_find_from(s, c, from + 1);
    }
}

/// A string of `n` digits writes a number below the `n`-th power of ten.
pub proof fn lemma_decimal_bound(s: Seq<char>)
    requires
        all_digits(s),
    ensures
        0 <= decimal_value(s) < pow10(s.len()),
    decreases s.len(),
{
    if s.len() > 0 {
        let front = s.drop_last();
        assert forall|i: int| 0 <= i < front.len() implies is_digit(#[trigger] front[i]) by {
            assert(front[i] == s[i]);
        }
        lemma_decimal_bound(front);
        assert(is_digit(s[s.len() - 1]));
    }
}

/// A string is made of digits where a front part and the rest of it are.
pub proof fn lemma_all_digits_split(s: Seq<char>, n: int)
    requires
        0 <= n <= s.len(),
    ensures
        all_digits(s) <==> all_digits(s.take(n)) && all_digits(s.skip(n)),
{
    if all_digits(s) {
        assert forall|i: int| 0 <= i < s.take(n).len() implies is_digit(#[trigger] s.take(n)[i]) by {
            assert(s.take(n)[i] == s[i]);
        }
        assert forall|i: int| 0 <= i < s.skip(n).len() implies is_digit(#[trigger] s.skip(n)[i]) by {
            assert(s.skip(n)[i] == s[i + n]);
        }
    }
    if all_digits(s.take(n)) && all_digits(s.skip(n)) {
        assert forall|i: int| 0 <= i < s.len() implies is_digit(#[trigger] s[i]) by {
            if i < n {
                assert(s.take(n)[i] == s[i]);
            } else {
                assert(s.skip(n)[i - n] == s[i]);
            }
        }
    }
}

/// The characters of a string.
pub fn chars_of(s: &str) -> (v: Vec<char>)
    ensures
        v@ == s@,
{
    let mut v: Vec<char> = Vec::new();
    for c in it: s.chars()
        invariant
            v@ == it.seq().take(it.index() as int),
            it.seq() == s@,
    {
        v.push(c);
    }
    v
}

/// Whether two strings hold the same characters.
pub fn same_text(a: &[char], b: &[char]) -> (r: bool)
    ensures
        r == (a@ == b@),
{
    if a.len() != b.len() {
        return false;
    }
    let mut i: usize = 0;
    while i < a.len()
        invariant
            i <= a.len(),
            a.len() == b.len(),
            forall|k: int| 0 <= k < i ==> a@[k] == b@[k],
        decreases a.len() - i,
    {
        if a[i] != b[i] {
            return false;
        }
        i = i + 1;
    }
    assert(a@ =~= b@);
    true
}

/// The position of the first `c` at or after `from`.
pub fn find(s: &[char], c: char, from: usize) -> (at: usize)
    requires
        from <= s.len(),
    ensures
        at == find_from(s@, c, from as int),
        from <= at <= s.len(),
{
    let mut i: usize = from;
    while i < s.len() && s[i] != c
        invariant
            from <= i <= s.len(),
            find_from(s@, c, i as int) == find_from(s@, c, from as int),
        decreases s.len() - i,
    {
        i = i + 1;
    }
    i
}

/// The value of a string of digits, or `limit` where the value is larger;
/// `None` where a character is no digit.
pub fn scan_digits(s: &[char], limit: u64) -> (r: Option<u64>)
    requires
        limit <= 1_000_000_000_000_000_000,
    ensures
        match r {
            Some(value) => all_digits(s@) && value == min_int(decimal_value(s@), limit as int),
            None => !all_digits(s@),
        },
{
    let mut acc: u64 = 0;
    let mut i: usize = 0;
    while i < s.len()
        invariant
            i <= s.len(),
            limit <= 1_000_000_000_000_000_000,
            all_digits(s@.take(i as int)),
            acc == min_int(decimal_value(s@.take(i as int)), limit as int),
            decimal_value(s@.take(i as int)) >= 0,
        decreases s.len() - i,
    {
        let c = s[i];
        if c < '0' || c > '9' {
            assert(!is_digit(s@[i as int]));
            return None;
        }
        let digit: u64 = (c as u32 - '0' as u32) as u64;
        proof {
            let next = s@.take(i + 1);
            assert(next.drop_last() =~= s@.take(i as int));
            assert(next.last() == c);
            assert(all_digits(next)) by {
                assert forall|k: int| 0 <= k < next.len() implies is_digit(#[trigger] next[k]) by {
                    if k < i {
                        assert(s@.take(i as int)[k] == next[k]);
                    }
                }
            }
        }
        let grown: u64 = acc * 10 + digit;
        acc = if grown > limit {
            limit
        } else {
            grown
        };
        i = i + 1;
    }
    assert(s@.take(i as int) =~= s@);
    Some(acc)
}

/// The digits after the point as a count of billionths; `None` where a
/// character is no digit.
pub fn scan_fraction(s: &[char]) -> (r: Option<u64>)
    ensures
        match r {
            Some(value) => all_digits(s@) && value == fraction_value(s@) && value
                < 1_000_000_000,
            None => !all_digits(s@),
        },
{
    let n: usize = if s.len() < 9 {
        s.len()
    } else {
        9
    };
    let head = slice_subrange(s, 0, n);
    let tail = slice_subrange(s, n, s.len());
    proof {
        lemma_all_digits_split(s@, n as int);
        assert(head@ =~= s@.take(n as int));
        assert(tail@ =~= s@.skip(n as int));
    }
    let value = match scan_digits(head, 1_000_000_000_000_000_000) {
        None => {
            return None;
        },
        Some(value) => value,
    };
    if scan_digits(tail, 0).is_none() {
        return None;
    }
    proof {
        lemma_decimal_bound(head@);
        reveal_with_fuel(pow10, 10);
        assert(pow10(9) == 1_000_000_000);
        assert(pow10(n as nat) * pow10((9 - n) as nat) == pow10(9)) by {
            lemma_pow10_adds(n as nat, (9 - n) as nat);
        }
        assert(pow10(n as nat) <= pow10(9)) by {
            lemma_pow10_positive((9 - n) as nat);
            assert(pow10(n as nat) <= pow10(n as nat) * pow10((9 - n) as nat)) by (nonlinear_arith)
                requires
                    pow10((9 - n) as nat) >= 1,
                    pow10(n as nat) >= 0,
            ;
        }
    }
    proof {
        let (v, big, small) = (value as int, pow10(n as nat), pow10((9 - n) as nat));
        lemma_pow10_positive((9 - n) as nat);
        assert(0 <= v * small < big * small) by (nonlinear_arith)
            requires
                0 <= v < big,
                small >= 1,
        ;
    }
    let mut acc: u64 = value;
    let mut k: usize = n;
    while k < 9
        invariant
            n <= k <= 9,
            acc == value * pow10((k - n) as nat),
            acc * pow10((9 - k) as nat) == value * pow10((9 - n) as nat),
            value * pow10((9 - n) as nat) < 1_000_000_000,
            value * pow10((9 - n) as nat) >= 0,
        decreases 9 - k,
    {
        proof {
            lemma_pow10_positive((9 - k - 1) as nat);
            assert(pow10((9 - k) as nat) == 10 * pow10((9 - k - 1) as nat));
            assert(acc * (10 * pow10((9 - k - 1) as nat)) == (acc * 10) * pow10(
                (9 - k - 1) as nat,
            )) by (nonlinear_arith);
            assert(acc * 10 <= (acc * 10) * pow10((9 - k - 1) as nat)) by (nonlinear_arith)
                requires
                    pow10((9 - k - 1) as nat) >= 1,
                    acc >= 0,
            ;
            assert(pow10((k + 1 - n) as nat) == 10 * pow10((k - n) as nat));
            assert(value * (10 * pow10((k - n) as nat)) == (value * pow10((k - n) as nat)) * 10)
                by (nonlinear_arith);
        }
        acc = acc * 10;
        k = k + 1;
    }
    assert(pow10(0) == 1);
    Some(acc)
}

/// Parses a fixed-point number written in decimal.
pub fn parse_fixed(s: &[char]) -> (r: Option<Fixed>)
    ensures
        r == parse_fixed_spec(s@),
{
    let signed = s.len() > 0 && (s[0] == '-' || s[0] == '+');
    let negative = s.len() > 0 && s[0] == '-';
    let body = if signed {
        slice_subrange(s, 1, s.len())
    } else {
        s
    };
    let point = find(body, '.', 0);
    let whole = slice_subrange(body, 0, point);
    let fraction = if point < body.len() {
        slice_subrange(body, point + 1, body.len())
    } else {
        slice_subrange(body, 0, 0)
    };
    proof {
        assert(whole@ =~= body@.take(point as int));
        if point < body.len() {
            assert(fraction@ =~= body@.skip(point + 1));
        } else {
            assert(fraction@ =~= Seq::<char>::empty());
        }
    }
    if whole.len() == 0 && fraction.len() == 0 {
        return None;
    }
    let units = match scan_digits(whole, 10_000_000_000) {
        None => {
            return None;
        },
        Some(units) => units,
    };
    let billionths = match scan_fraction(fraction) {
        None => {
            return None;
        },
        Some(billionths) => billionths,
    };
    assert(units * SCALE <= 10_000_000_000 * 1_000_000_000) by (nonlinear_arith)
        requires
            0 <= units <= 10_000_000_000,
            SCALE == 1_000_000_000,
    ;
    let magnitude: i128 = units as i128 * SCALE as i128 + billionths as i128;
    proof {
        let exact = decimal_value(whole@) * SCALE + fraction_value(fraction@);
        if decimal_value(whole@) >= 10_000_000_000 {
            assert(decimal_value(whole@) * SCALE >= 10_000_000_000 * 1_000_000_000)
                by (nonlinear_arith)
                requires
                    decimal_value(whole@) >= 10_000_000_000,
                    SCALE == 1_000_000_000,
            ;
        }
    }
    Some(
        Fixed {
            raw: saturate_i128(
                if negative {
                    -magnitude
                } else {
                    magnitude
                },
            ),
        },
    )
}

/// Parses a 32-bit integer.
pub fn parse_i32(s: &[char]) -> (r: Option<i32>)
    ensures
        r == parse_i32_spec(s@),
{
    let signed = s.len() > 0 && (s[0] == '-' || s[0] == '+');
    let negative = s.len() > 0 && s[0] == '-';
    let digits = if signed {
        slice_subrange(s, 1, s.len())
    } else {
        s
    };
    if digits.len() == 0 {
        return None;
    }
    match scan_digits(digits, 0x8000_0001) {
        None => None,
        Some(magnitude) => {
            if negative {
                if magnitude > 0x8000_0000 {
                    None
                } else {
                    Some((-(magnitude as i64)) as i32)
                }
            } else {
                if magnitude > 0x7fff_ffff {
                    None
                } else {
                    Some(magnitude as i32)
                }
            }
        },
    }
}

/// Parses a list of 32-bit integers separated by commas.
pub fn parse_i32_list(s: &[char]) -> (r: Option<Vec<i32>>)
    ensures
        match r {
            Some(v) => parse_list_spec(s@) == Some(v@),
            None => parse_list_spec(s@) is None,
        },
{
    let mut items: Vec<i32> = Vec::new();
    let mut from: usize = 0;
    loop
        invariant
            from <= s.len(),
            parse_list_spec(s@) == match parse_list_from(s@, from as int) {
                None => None::<Seq<i32>>,
                Some(rest) => Some(items@ + rest),
            },
        decreases s.len() - from,
    {
        let end = find(s, ',', from);
        match parse_i32(slice_subrange(s, from, end)) {
            None => {
                return None;
            },
            Some(item) => {
                if end >= s.len() {
                    items.push(item);
                    return Some(items);
                }
                proof {
                    let rest = parse_list_from(s@, end + 1);
                    if rest is Some {
                        assert(items@ + (seq![item] + rest->0) =~= items@.push(item) + rest->0);
                    }
                }
                items.push(item);
                from = end + 1;
            },
        }
    }
}

/// The character that writes a digit.
pub open spec fn digit_char(d: int) -> char {
    (d + '0' as int) as char
}

/// A number in decimal, without leading zeros.
pub open spec fn digits_spec(n: nat) -> Seq<char>
    decreases n,
{
    if n < 10 {
        seq![digit_char(n as int)]
    } else {
        digits_spec(n / 10).push(digit_char((n % 10) as int))
    }
}

/// The last `width` digits of a number in decimal, with leading zeros.
pub open spec fn padded_digits_spec(n: nat, width: nat) -> Seq<char>
    decreases width,
{
    if width == 0 {
        Seq::<char>::empty()
    } else {
        padded_digits_spec(n / 10, (width - 1) as nat).push(digit_char((n % 10) as int))
    }
}

/// A fixed-point number in decimal: a minus sign where it is negative, its
/// whole part, a point and nine fractional digits.
pub open spec fn format_fixed_spec(x: Fixed) -> Seq<char> {
    let magnitude = if x.raw < 0 {
        -(x.raw as int)
    } else {
        x.raw as int
    };
    let sign = if x.raw < 0 {
        seq!['-']
    } else {
        Seq::<char>::empty()
    };
    sign + digits_spec((magnitude / SCALE as int) as nat) + seq!['.'] + padded_digits_spec(
        (magnitude % SCALE as int) as nat,
        9,
    )
}

/// The character of a digit is a digit and has the digit's value.
pub proof fn lemma_digit_char(d: int)
    requires
        0 <= d < 10,
    ensures
        is_digit(digit_char(d)),
        digit_value(digit_char(d)) == d,
{
}

/// The digits of a number write that number.
pub proof fn lemma_digits_value(n: nat)
    ensures
        all_digits(digits_spec(n)),
        digits_spec(n).len() > 0,
        decimal_value(digits_spec(n)) == n,
    decreases n,
{
    lemma_digit_char((n % 10) as int);
    let all = digits_spec(n);
    if n >= 10 {
        lemma_digits_value(n / 10);
        let front = digits_spec(n / 10);
        assert(all.drop_last() =~= front);
        assert(all.last() == digit_char((n % 10) as int));
        assert forall|i: int| 0 <= i < all.len() implies is_digit(#[trigger] all[i]) by {
            if i < front.len() {
                assert(all[i] == front[i]);
            }
        }
    } else {
        assert(all.drop_last() =~= Seq::<char>::empty());
        assert(decimal_value(all.drop_last()) == 0);
        assert(all.last() == digit_char(n as int));
    }
}

/// As many padded digits as the width asks for write the number, where it
/// has no more digits than that.
pub proof fn lemma_padded_digits_value(n: nat, width: nat)
    requires
        n < pow10(width),
    ensures
        all_digits(padded_digits_spec(n, width)),
        padded_digits_spec(n, width).len() == width,
        decimal_value(padded_digits_spec(n, width)) == n,
    decreases width,
{
    if width > 0 {
        lemma_digit_char((n % 10) as int);
        lemma_padded_digits_value(n / 10, (width - 1) as nat);
        let front = padded_digits_spec(n / 10, (width - 1) as nat);
        let all = padded_digits_spec(n, width);
        assert(all.drop_last() =~= front);
        assert(all.last() == digit_char((n % 10) as int));
        assert forall|i: int| 0 <= i < all.len() implies is_digit(#[trigger] all[i]) by {
            if i < front.len() {
                assert(all[i] == front[i]);
            }
        }
    }
}

/// In a string of digits followed by a point, the point is the first one.
pub proof fn lemma_find_point(digits: Seq<char>, rest: Seq<char>, from: int)
    requires
        all_digits(digits),
        0 <= from <= digits.len(),
    ensures
        find_from(digits + seq!['.'] + rest, '.', from) == digits.len(),
    decreases digits.len() - from,
{
    let s = digits + seq!['.'] + rest;
    if from < digits.len() {
        assert(s[from] == digits[from]);
        assert(is_digit(digits[from]));
        lemma_find_point(digits, rest, from + 1);
    } else {
        assert(s[from] == '.');
    }
}

/// What is written of a number reads back as that number.
pub proof fn lemma_format_then_parse(x: Fixed)
    ensures
        parse_fixed_spec(format_fixed_spec(x)) == Some(x),
{
    let magnitude = if x.raw < 0 {
        -(x.raw as int)
    } else {
        x.raw as int
    };
    let whole = digits_spec((magnitude / SCALE as int) as nat);
    let fraction = padded_digits_spec((magnitude % SCALE as int) as nat, 9);
    let text = format_fixed_spec(x);
    let body = whole + seq!['.'] + fraction;
    reveal_with_fuel(pow10, 10);
    lemma_digits_value((magnitude / SCALE as int) as nat);
    lemma_padded_digits_value((magnitude % SCALE as int) as nat, 9);
    assert(is_digit(whole[0]));
    if x.raw < 0 {
        assert(text[0] == '-');
        assert(unsigned_part(text) =~= body);
    } else {
        assert(text[0] == whole[0]);
        assert(unsigned_part(text) =~= body);
    }
    lemma_find_point(whole, fraction, 0);
    assert(body.take(whole.len() as int) =~= whole);
    assert(body.skip(whole.len() as int + 1) =~= fraction);
    assert(fraction.take(9) =~= fraction);
    assert(pow10(0) == 1);
    vstd::arithmetic::div_mod::lemma_fundamental_div_mod(magnitude, SCALE as int);
}

/// Appends the decimal digits of a number.
pub fn write_digits(out: &mut Vec<char>, n: u64)
    ensures
        final(out)@ == old(out)@ + digits_spec(n as nat),
    decreases n,
{
    if n >= 10 {
        write_digits(out, n / 10);
    }
    let digit: u8 = (n % 10) as u8;
    out.push((48u8 + digit) as char);
    proof {
        if n >= 10 {
            assert(final(out)@ =~= old(out)@ + digits_spec(n as nat));
        } else {
            assert(final(out)@ =~= old(out)@ + digits_spec(n as nat));
        }
    }
}

/// Appends the last `width` decimal digits of a number.
pub fn write_padded_digits(out: &mut Vec<char>, n: u64, width: u32)
    ensures
        final(out)@ == old(out)@ + padded_digits_spec(n as nat, width as nat),
    decreases width,
{
    if width > 0 {
        write_padded_digits(out, n / 10, width - 1);
        let digit: u8 = (n % 10) as u8;
        out.push((48u8 + digit) as char);
    }
    proof {
        assert(final(out)@ =~= old(out)@ + padded_digits_spec(n as nat, width as nat));
    }
}

/// A fixed-point number in decimal, with all nine fractional digits.
pub fn format_fixed(x: Fixed) -> (text: Vec<char>)
    ensures
        text@ == format_fixed_spec(x),
        parse_fixed_spec(text@) == Some(x),
{
    proof {
        lemma_format_then_parse(x);
    }
    let mut text: Vec<char> = Vec::new();
    if x.raw < 0 {
        text.push('-');
    }
    let magnitude: u64 = if x.raw < 0 {
        (-(x.raw as i128)) as u64
    } else {
        x.raw as u64
    };
    write_digits(&mut text, magnitude / (SCALE as u64));
    text.push('.');
    write_padded_digits(&mut text, magnitude % (SCALE as u64), 9);
    assert(text@ =~= format_fixed_spec(x));
    text
}

impl Fixed {
    /// The number that a string writes in decimal, if it writes one.
    pub fn parse(text: &str) -> (r: Option<Fixed>)
        ensures
            r == parse_fixed_spec(text@),
    {
        let chars = chars_of(text);
        parse_fixed(chars.as_slice())
    }

    /// The number in decimal, such as `-0.250000000`; it reads back as the
    /// same number.
    pub fn to_text(&self) -> (text: String)
        ensures
            text@ == format_fixed_spec(*self),
            parse_fixed_spec(text@) == Some(*self),
    {
        let chars = format_fixed(*self);
        string_from_chars(&chars)
    }
}

/// `String::from_iter` over the characters: the string that holds them.
#[verifier::external_body]
pub(crate) fn string_from_chars(chars: &Vec<char>) -> (text: String)
    ensures
        text@ == chars@,
{
    String::from_iter(chars.iter())
}

} // verus!
