//! Decimal integers in text: reading them as `str::parse` does for the integer
//! types, and writing them as `to_string` does.
use vstd::prelude::*;
use crate::text::chars_of;
use crate::text::string_of;

verus! {

/// Whether `c` is an ASCII decimal digit.
pub open spec fn is_digit(c: char) -> bool {
    '0' <= c && c <= '9'
}

/// The value of a decimal digit character.
pub open spec fn digit_value(c: char) -> int {
    c as int - '0' as int
}

/// The digit character of a value below ten.
pub open spec fn digit_char(d: int) -> char {
    (d + '0' as int) as char
}

/// Whether every character of `s` is a decimal digit.
pub open spec fn all_digits(s: Seq<char>) -> bool {
    forall|i: int| 0 <= i < s.len() ==> is_digit(#[trigger] s[i])
}

/// The value of a string of decimal digits (most significant first).
pub open spec fn digits_value(s: Seq<char>) -> int
    decreases s.len(),
{
    if s.len() == 0 {
        0
    } else {
        digits_value(s.drop_last()) * 10 + digit_value(s.last())
    }
}

/// The integer that `s` spells, as the standard library's `from_str` for the
/// integer types reads it before its range check: an optional `+` sign (or
/// `-`, for the types that have negative values) followed by at least one
/// decimal digit, and nothing else.
pub open spec fn spec_parse_int(s: Seq<char>, signed: bool) -> Option<int> {
    if s.len() == 0 {
        None
    } else if s.len() == 1 && (s[0] == '+' || s[0] == '-') {
        None
    } else if s[0] == '+' {
        if all_digits(s.drop_first()) {
            Some(digits_value(s.drop_first()))
        } else {
            None
        }
    } else if s[0] == '-' && signed {
        if all_digits(s.drop_first()) {
            Some(-digits_value(s.drop_first()))
        } else {
            None
        }
    } else if all_digits(s) {
        Some(digits_value(s))
    } else {
        None
    }
}

/// `spec_parse_int` restricted to the range `[lo, hi]` of an integer type.
pub open spec fn spec_parse_in(s: Seq<char>, signed: bool, lo: int, hi: int) -> Option<int> {
    match spec_parse_int(s, signed) {
        Some(v) => if lo <= v && v <= hi {
            Some(v)
        } else {
            None
        },
        None => None,
    }
}

/// The decimal digits of `n`, most significant first, without leading zeros.
pub open spec fn decimal(n: nat) -> Seq<char>
    decreases n,
{
    if n < 10 {
        seq![digit_char(n as int)]
    } else {
        decimal(n / 10) + seq![digit_char((n % 10) as int)]
    }
}

/// The decimal text of an integer, with a `-` in front of negative ones.
pub open spec fn signed_decimal(i: int) -> Seq<char> {
    if i < 0 {
        seq!['-'] + decimal((-i) as nat)
    } else {
        decimal(i as nat)
    }
}

proof fn lemma_digits_value_nonneg(s: Seq<char>)
    requires
        all_digits(s),
    ensures
        digits_value(s) >= 0,
    decreases s.len(),
{
    if s.len() > 0 {
        lemma_digits_value_nonneg(s.drop_last());
    }
}

/// A longer string of digits is worth at least as much as its prefix.
proof fn lemma_digits_value_prefix(s: Seq<char>, k: int)
    requires
        all_digits(s),
        0 <= k <= s.len(),
    ensures
        digits_value(s.take(k)) <= digits_value(s),
    decreases s.len() - k,
{
    if k < s.len() {
        let t = s.take(k + 1);
        assert(t.drop_last() =~= s.take(k));
        assert(is_digit(t.last()) && t.last() == s[k]);
        lemma_digits_value_nonneg(s.take(k));
        lemma_digits_value_prefix(s, k + 1);
    } else {
        assert(s.take(k) =~= s);
    }
}

/// Reads the decimal digits of `cs[from..]`: `None` where a character is not a
/// digit or the value does not fit in a `u128`.
fn parse_digits(cs: &Vec<char>, from: usize) -> (r: Option<u128>)
    requires
        from <= cs.len(),
    ensures
        r matches Some(m) ==> all_digits(cs@.skip(from as int)) && m == digits_value(
            cs@.skip(from as int),
        ),
        r is None ==> (all_digits(cs@.skip(from as int)) ==> digits_value(cs@.skip(from as int))
            > u128::MAX),
{
    let ghost d = cs@.skip(from as int);
    let mut acc: u128 = 0;
    let mut i = from;
    while i < cs.len()
        invariant
            from <= i <= cs.len(),
            d == cs@.skip(from as int),
            all_digits(d.take(i - from)),
            acc == digits_value(d.take(i - from)),
        decreases cs.len() - i,
    {
        let c = cs[i];
        if c < '0' || c > '9' {
            assert(d[i - from] == c);
            return None;
        }
        let dv = (c as u32 - '0' as u32) as u128;
        proof {
            let t = d.take(i - from + 1);
            assert(t.drop_last() =~= d.take(i - from));
            assert(t.last() == c);
        }
        if acc > (u128::MAX - dv) / 10 {
            proof {
                let t = d.take(i - from + 1);
                assert(digits_value(t) == acc * 10 + dv);
                assert(acc * 10 + dv > u128::MAX) by (nonlinear_arith)
                    requires
                        acc > (u128::MAX - dv) / 10,
                        dv <= 9,
                ;
                if all_digits(d) {
                    lemma_digits_value_prefix(d, i - from + 1);
                }
            }
            return None;
        }
        proof {
            assert(acc * 10 + dv <= u128::MAX) by (nonlinear_arith)
                requires
                    acc <= (u128::MAX - dv) / 10,
                    dv <= 9,
            ;
        }
        acc = acc * 10 + dv;
        i = i + 1;
        proof {
            let t = d.take(i - from);
            assert forall|j: int| 0 <= j < t.len() implies is_digit(#[trigger] t[j]) by {
                if j < t.len() - 1 {
                    assert(t[j] == d.take(i - from - 1)[j]);
                }
            }
        }
    }
    assert(d.take(i - from) =~= d);
    Some(acc)
}

/// Reads an integer of any of the integer types: the sign and the magnitude.
/// `None` where `spec_parse_int` gives nothing or the magnitude exceeds
/// `u128::MAX`.
fn parse_sign_magnitude(s: &str, signed: bool) -> (r: Option<(bool, u128)>)
    ensures
        r matches Some((neg, m)) ==> spec_parse_int(s@, signed) == Some(
            if neg {
                -(m as int)
            } else {
                m as int
            },
        ),
        r is None ==> match spec_parse_int(s@, signed) {
            Some(v) => v > u128::MAX || v < -u128::MAX,
            None => true,
        },
        spec_parse_int(s@, signed) matches Some(v) ==> (v < 0 ==> signed),
        r matches Some((neg, m)) ==> (neg ==> signed),
{
    proof {
        if s@.len() > 0 {
            if all_digits(s@.drop_first()) {
                lemma_digits_value_nonneg(s@.drop_first());
            }
            if all_digits(s@) {
                lemma_digits_value_nonneg(s@);
            }
        }
    }
    let cs = chars_of(s);
    if cs.len() == 0 {
        return None;
    }
    if cs.len() == 1 && (cs[0] == '+' || cs[0] == '-') {
        return None;
    }
    let (neg, from) = if cs[0] == '+' {
        (false, 1)
    } else if cs[0] == '-' && signed {
        (true, 1)
    } else {
        (false, 0)
    };
    proof {
        assert(cs@.skip(1) =~= s@.drop_first());
        assert(cs@.skip(0) =~= s@);
    }
    match parse_digits(&cs, from) {
        Some(m) => Some((neg, m)),
        None => None,
    }
}

/// Reads a `u32` as `str::parse::<u32>` does.
pub fn parse_u32(s: &str) -> (r: Option<u32>)
    ensures
        r matches Some(v) ==> spec_parse_in(s@, false, 0, u32::MAX as int) == Some(v as int),
        r is None ==> spec_parse_in(s@, false, 0, u32::MAX as int) is None,
{
    match parse_sign_magnitude(s, false) {
        Some((neg, m)) => {
            if !neg && m <= u32::MAX as u128 {
                Some(m as u32)
            } else {
                None
            }
        },
        None => None,
    }
}

/// Reads an `i32` as `str::parse::<i32>` does.
pub fn parse_i32(s: &str) -> (r: Option<i32>)
    ensures
        r matches Some(v) ==> spec_parse_in(s@, true, i32::MIN as int, i32::MAX as int) == Some(
            v as int,
        ),
        r is None ==> spec_parse_in(s@, true, i32::MIN as int, i32::MAX as int) is None,
{
    match parse_sign_magnitude(s, true) {
        Some((neg, m)) => {
            if !neg && m <= i32::MAX as u128 {
                Some(m as i32)
            } else if neg && m <= 2147483648u128 {
                Some((0i64 - m as i64) as i32)
            } else {
                None
            }
        },
        None => None,
    }
}

/// Reads a `u128` as `str::parse::<u128>` does.
pub fn parse_u128(s: &str) -> (r: Option<u128>)
    ensures
        r matches Some(v) ==> spec_parse_in(s@, false, 0, u128::MAX as int) == Some(v as int),
        r is None ==> spec_parse_in(s@, false, 0, u128::MAX as int) is None,
{
    match parse_sign_magnitude(s, false) {
        Some((neg, m)) => {
            if !neg {
                Some(m)
            } else {
                None
            }
        },
        None => None,
    }
}

/// Reads an `i128` as `str::parse::<i128>` does.
pub fn parse_i128(s: &str) -> (r: Option<i128>)
    ensures
        r matches Some(v) ==> spec_parse_in(s@, true, i128::MIN as int, i128::MAX as int) == Some(
            v as int,
        ),
        r is None ==> spec_parse_in(s@, true, i128::MIN as int, i128::MAX as int) is None,
{
    match parse_sign_magnitude(s, true) {
        Some((neg, m)) => {
            if !neg && m <= i128::MAX as u128 {
                Some(m as i128)
            } else if neg && m <= i128::MAX as u128 {
                Some(0i128 - m as i128)
            } else if neg && m == i128::MAX as u128 + 1 {
                Some(i128::MIN)
            } else {
                None
            }
        },
        None => None,
    }
}

proof fn lemma_digit_char(d: int)
    requires
        0 <= d < 10,
    ensures
        is_digit(digit_char(d)),
        digit_value(digit_char(d)) == d,
{
    assert(digit_char(d) as int == d + 48);
}

proof fn lemma_decimal_digits(n: nat)
    ensures
        all_digits(decimal(n)),
        digits_value(decimal(n)) == n,
        decimal(n).len() >= 1,
    decreases n,
{
    lemma_digit_char((n % 10) as int);
    if n < 10 {
        assert(decimal(n).drop_last() =~= Seq::<char>::empty());
        assert(digits_value(decimal(n)) == digits_value(decimal(n).drop_last()) * 10 + digit_value(decimal(n).last()));
    }
    if n >= 10 {
        lemma_decimal_digits(n / 10);
        let s = decimal(n);
        assert(s.drop_last() =~= decimal(n / 10));
        assert(s.last() == digit_char((n % 10) as int));
        assert(n == (n / 10) * 10 + n % 10);
        assert(digits_value(s) == digits_value(decimal(n / 10)) * 10 + digit_value(s.last()));
        assert forall|i: int| 0 <= i < s.len() implies is_digit(#[trigger] s[i]) by {
            if i < s.len() - 1 {
                assert(s[i] == decimal(n / 10)[i]);
            }
        }
    }
}

/// The decimal text of `n`, as `to_string` writes a `u128`.
pub fn format_u128(n: u128) -> (r: String)
    ensures
        r@ == decimal(n as nat),
{
    let mut acc: Vec<char> = Vec::new();
    let mut m = n;
    while m >= 10
        invariant
            decimal(n as nat) == decimal(m as nat) + acc@,
        decreases m,
    {
        let d = (m % 10) as u32;
        let c = char_of_digit(d);
        acc.insert(0, c);
        proof {
            assert(decimal(m as nat) == decimal((m / 10) as nat) + seq![digit_char(
                (m % 10) as int,
            )]);
        }
        m = m / 10;
        proof {
            assert(decimal(n as nat) =~= decimal(m as nat) + acc@);
        }
    }
    let c = char_of_digit(m as u32);
    acc.insert(0, c);
    proof {
        assert(decimal(n as nat) =~= acc@);
    }
    string_of(&acc)
}

/// The digit character of `d`.
fn char_of_digit(d: u32) -> (c: char)
    requires
        d < 10,
    ensures
        c == digit_char(d as int),
{
    if d == 0 {
        '0'
    } else if d == 1 {
        '1'
    } else if d == 2 {
        '2'
    } else if d == 3 {
        '3'
    } else if d == 4 {
        '4'
    } else if d == 5 {
        '5'
    } else if d == 6 {
        '6'
    } else if d == 7 {
        '7'
    } else if d == 8 {
        '8'
    } else {
        '9'
    }
}

/// The decimal text of `n`, as `to_string` writes an `i128`.
pub fn format_i128(n: i128) -> (r: String)
    ensures
        r@ == signed_decimal(n as int),
{
    if n < 0 {
        let mag: u128 = ((0i128 - (n + 1)) as u128) + 1;
        let digits = format_u128(mag);
        let mut r = String::from_str("-");
        r.append(digits.as_str());
        proof {
            reveal_strlit("-");
            assert(r@ =~= signed_decimal(n as int));
        }
        r
    } else {
        format_u128(n as u128)
    }
}

/// Decimal notation is positional in base ten: the digits of a number below
/// ten are that one digit, and appending a digit `d` to the digits of `n`
/// (for `n` at least one) writes `10 * n + d`.
pub proof fn lemma_decimal_positional(n: nat, d: nat)
    requires
        d < 10,
    ensures
        decimal(d) == seq![digit_char(d as int)],
        n >= 1 ==> decimal(10 * n + d) == decimal(n) + seq![digit_char(d as int)],
{
    if n >= 1 {
        assert((10 * n + d) / 10 == n && (10 * n + d) % 10 == d) by (nonlinear_arith)
            requires
                d < 10,
        ;
    }
}

/// Reading digits is positional in base ten: a further digit multiplies what
/// came before by ten and adds its value.
pub proof fn lemma_read_positional(s: Seq<char>, c: char)
    requires
        s.len() >= 1,
        all_digits(s),
        is_digit(c),
    ensures
        spec_parse_int(s + seq![c], false) == Some(10 * spec_parse_int(s, false)->0 + digit_value(c)),
        spec_parse_int(s, false) == Some(digits_value(s)),
{
    let t = s + seq![c];
    assert(t.drop_last() =~= s);
    assert(all_digits(t));
    assert(is_digit(s[0]));
}

/// Reading back what `format_u128` writes gives the number.
pub proof fn lemma_parse_format_u128(n: u128)
    ensures
        spec_parse_in(decimal(n as nat), false, 0, u128::MAX as int) == Some(n as int),
{
    lemma_decimal_digits(n as nat);
    let s = decimal(n as nat);
    assert(is_digit(s[0]));
}

/// Reading back what `format_i128` writes gives the number.
pub proof fn lemma_parse_format_i128(n: i128)
    ensures
        spec_parse_in(signed_decimal(n as int), true, i128::MIN as int, i128::MAX as int) == Some(
            n as int,
        ),
{
    if n < 0 {
        let m = (-n) as nat;
        lemma_decimal_digits(m);
        let s = signed_decimal(n as int);
        assert(s.drop_first() =~= decimal(m));
        assert(is_digit(decimal(m)[0]));
    } else {
        lemma_decimal_digits(n as nat);
        assert(is_digit(decimal(n as nat)[0]));
    }
}

} // verus!
