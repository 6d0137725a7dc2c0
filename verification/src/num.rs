use vstd::prelude::*;

use crate::text::{chars_of, string_of};

verus! {

/// The character of a decimal digit.
pub open spec fn digit_char(d: int) -> char {
    if d == 0 { '0' }
    else if d == 1 { '1' }
    else if d == 2 { '2' }
    else if d == 3 { '3' }
    else if d == 4 { '4' }
    else if d == 5 { '5' }
    else if d == 6 { '6' }
    else if d == 7 { '7' }
    else if d == 8 { '8' }
    else { '9' }
}

/// The value of a decimal digit character, if it is one.
pub open spec fn digit_value(c: char) -> Option<int> {
    if c == '0' { Some(0) }
    else if c == '1' { Some(1) }
    else if c == '2' { Some(2) }
    else if c == '3' { Some(3) }
    else if c == '4' { Some(4) }
    else if c == '5' { Some(5) }
    else if c == '6' { Some(6) }
    else if c == '7' { Some(7) }
    else if c == '8' { Some(8) }
    else if c == '9' { Some(9) }
    else { None }
}

/// The decimal representation of `n` without leading zeros.
pub open spec fn decimal(n: nat) -> Seq<char>
    decreases n,
{
    if n < 10 {
        seq![digit_char(n as int)]
    } else {
        decimal(n / 10).push(digit_char((n % 10) as int))
    }
}

/// The decimal representation of an integer, with `-` before a negative one.
pub open spec fn signed_decimal(i: int) -> Seq<char> {
    if i < 0 {
        seq!['-'] + decimal((-i) as nat)
    } else {
        decimal(i as nat)
    }
}

fn digit_char_exec(d: u64) -> (c: char)
    requires
        d < 10,
    ensures
        c == digit_char(d as int),
{
    if d == 0 { '0' }
    else if d == 1 { '1' }
    else if d == 2 { '2' }
    else if d == 3 { '3' }
    else if d == 4 { '4' }
    else if d == 5 { '5' }
    else if d == 6 { '6' }
    else if d == 7 { '7' }
    else if d == 8 { '8' }
    else { '9' }
}

/// The decimal digits of `n`.
pub fn u64_digits(n: u64) -> (v: Vec<char>)
    ensures
        v@ == decimal(n as nat),
    decreases n,
{
    if n < 10 {
        let mut v: Vec<char> = Vec::new();
        v.push(digit_char_exec(n));
        assert(v@ =~= decimal(n as nat));
        v
    } else {
        let mut v = u64_digits(n / 10);
        v.push(digit_char_exec(n % 10));
        v
    }
}

/// `n` written in decimal, as `format!("{}", n)` writes it.
pub fn u64_to_string(n: u64) -> (s: String)
    ensures
        s@ == decimal(n as nat),
{
    string_of(&u64_digits(n))
}

/// `n` written in decimal.
pub fn usize_to_string(n: usize) -> (s: String)
    ensures
        s@ == decimal(n as nat),
{
    u64_to_string(n as u64)
}

/// `i` written in decimal, with a leading `-` when negative.
pub fn i64_to_string(i: i64) -> (s: String)
    ensures
        s@ == signed_decimal(i as int),
{
    if i < 0 {
        let m: u64 = if i == i64::MIN { 9223372036854775808u64 } else { (-i) as u64 };
        let mut v: Vec<char> = Vec::new();
        v.push('-');
        let mut d = u64_digits(m);
        v.append(&mut d);
        assert(v@ =~= signed_decimal(i as int));
        string_of(&v)
    } else {
        u64_to_string(i as u64)
    }
}

/// Why a text is not an integer of the wanted type, as `std::num::IntErrorKind` names it.
#[derive(Debug, Clone, Copy, PartialEq, Eq)]
pub enum IntErrorKind {
    Empty,
    InvalidDigit,
    PosOverflow,
    NegOverflow,
}

/// Folds the digits of `t` from the left, as `str::parse` does: the first bad
/// character or the first step out of `[min, max]` decides the error.
pub open spec fn fold_digits(t: Seq<char>, negative: bool, min: int, max: int) -> Result<int, IntErrorKind>
    decreases t.len(),
{
    if t.len() == 0 {
        Ok(0)
    } else {
        match fold_digits(t.drop_last(), negative, min, max) {
            Err(e) => Err(e),
            Ok(v) => match digit_value(t.last()) {
                None => Err(IntErrorKind::InvalidDigit),
                Some(d) => if negative {
                    if v * 10 - d < min { Err(IntErrorKind::NegOverflow) } else { Ok(v * 10 - d) }
                } else {
                    if v * 10 + d > max { Err(IntErrorKind::PosOverflow) } else { Ok(v * 10 + d) }
                },
            },
        }
    }
}

/// `str::parse` for an integer type with range `[min, max]` (signed when `min < 0`):
/// an optional `+` (or `-` for a signed type) and then at least one decimal digit.
pub open spec fn parse_int_spec(t: Seq<char>, min: int, max: int) -> Result<int, IntErrorKind> {
    if t.len() == 0 {
        Err(IntErrorKind::Empty)
    } else if (t[0] == '+' || t[0] == '-') && t.len() == 1 {
        Err(IntErrorKind::InvalidDigit)
    } else if t[0] == '+' {
        fold_digits(t.skip(1), false, min, max)
    } else if t[0] == '-' && min < 0 {
        fold_digits(t.skip(1), true, min, max)
    } else {
        fold_digits(t, false, min, max)
    }
}

fn digit_value_exec(c: char) -> (r: Option<i128>)
    ensures
        match digit_value(c) {
            Some(d) => r == Some(d as i128),
            None => r is None,
        },
{
    if c == '0' { Some(0) }
    else if c == '1' { Some(1) }
    else if c == '2' { Some(2) }
    else if c == '3' { Some(3) }
    else if c == '4' { Some(4) }
    else if c == '5' { Some(5) }
    else if c == '6' { Some(6) }
    else if c == '7' { Some(7) }
    else if c == '8' { Some(8) }
    else if c == '9' { Some(9) }
    else { None }
}

pub proof fn lemma_fold_digits_range(t: Seq<char>, negative: bool, min: int, max: int)
    requires
        min <= 0 <= max,
    ensures
        fold_digits(t, negative, min, max) matches Ok(v) ==> min <= v <= max && (negative ==> v <= 0)
            && (!negative ==> v >= 0),
    decreases t.len(),
{
    if t.len() > 0 {
        lemma_fold_digits_range(t.drop_last(), negative, min, max);
    }
}

fn fold_digits_exec(v: &Vec<char>, start: usize, negative: bool, min: i128, max: i128) -> (r: Result<i128, IntErrorKind>)
    requires
        start <= v@.len(),
        -18446744073709551616 <= min <= 0 <= max <= 18446744073709551616,
    ensures
        match r {
            Ok(y) => fold_digits(v@.skip(start as int), negative, min as int, max as int) == Ok::<int, IntErrorKind>(y as int),
            Err(e) => fold_digits(v@.skip(start as int), negative, min as int, max as int) == Err::<int, IntErrorKind>(e),
        },
{
    let mut acc: i128 = 0;
    let mut i = start;
    while i < v.len()
        invariant
            start <= i <= v@.len(),
            -18446744073709551616 <= min <= 0 <= max <= 18446744073709551616,
            fold_digits(v@.subrange(start as int, i as int), negative, min as int, max as int) == Ok::<int, IntErrorKind>(acc as int),
            min <= acc <= max,
            negative ==> acc <= 0,
            !negative ==> acc >= 0,
        decreases v@.len() - i,
    {
        let ghost t = v@.subrange(start as int, i as int + 1);
        assert(t.drop_last() =~= v@.subrange(start as int, i as int));
        assert(t.last() == v@[i as int]);
        match digit_value_exec(v[i]) {
            None => {
                proof { lemma_fold_error_extends(t, v@.skip(i + 1), negative, min as int, max as int); }
                assert(t + v@.skip(i + 1) =~= v@.skip(start as int));
                return Err(IntErrorKind::InvalidDigit);
            },
            Some(d) => {
                if negative {
                    let w = acc * 10 - d;
                    if w < min {
                        proof { lemma_fold_error_extends(t, v@.skip(i + 1), negative, min as int, max as int); }
                        assert(t + v@.skip(i + 1) =~= v@.skip(start as int));
                        return Err(IntErrorKind::NegOverflow);
                    }
                    acc = w;
                } else {
                    let w = acc * 10 + d;
                    if w > max {
                        proof { lemma_fold_error_extends(t, v@.skip(i + 1), negative, min as int, max as int); }
                        assert(t + v@.skip(i + 1) =~= v@.skip(start as int));
                        return Err(IntErrorKind::PosOverflow);
                    }
                    acc = w;
                }
            },
        }
        i = i + 1;
    }
    assert(v@.subrange(start as int, v@.len() as int) =~= v@.skip(start as int));
    Ok(acc)
}

/// Once folding has failed, more characters keep the same error.
pub proof fn lemma_fold_error_extends(t: Seq<char>, u: Seq<char>, negative: bool, min: int, max: int)
    requires
        fold_digits(t, negative, min, max) is Err,
    ensures
        fold_digits(t + u, negative, min, max) == fold_digits(t, negative, min, max),
    decreases u.len(),
{
    if u.len() > 0 {
        lemma_fold_error_extends(t, u.drop_last(), negative, min, max);
        assert((t + u).drop_last() =~= t + u.drop_last());
    } else {
        assert(t + u =~= t);
    }
}

/// Parses `s` as an integer in `[min, max]`, as `str::parse` does for the
/// integer type of that range.
pub fn parse_int(s: &str, min: i128, max: i128) -> (r: Result<i128, IntErrorKind>)
    requires
        -18446744073709551616 <= min <= 0 <= max <= 18446744073709551616,
    ensures
        match r {
            Ok(y) => parse_int_spec(s@, min as int, max as int) == Ok::<int, IntErrorKind>(y as int),
            Err(e) => parse_int_spec(s@, min as int, max as int) == Err::<int, IntErrorKind>(e),
        },
        r matches Ok(x) ==> min <= x <= max,
{
    let v = chars_of(s);
    proof {
        lemma_fold_digits_range(v@.skip(0), false, min as int, max as int);
        lemma_fold_digits_range(v@.skip(1), false, min as int, max as int);
        lemma_fold_digits_range(v@.skip(1), true, min as int, max as int);
        assert(v@.skip(0) =~= v@);
    }
    if v.len() == 0 {
        return Err(IntErrorKind::Empty);
    }
    if (v[0] == '+' || v[0] == '-') && v.len() == 1 {
        return Err(IntErrorKind::InvalidDigit);
    }
    if v[0] == '+' {
        fold_digits_exec(&v, 1, false, min, max)
    } else if v[0] == '-' && min < 0 {
        fold_digits_exec(&v, 1, true, min, max)
    } else {
        fold_digits_exec(&v, 0, false, min, max)
    }
}

/// `s.parse::<i32>()`.
pub fn parse_i32(s: &str) -> (r: Result<i32, IntErrorKind>)
    ensures
        match r {
            Ok(y) => parse_int_spec(s@, i32::MIN as int, i32::MAX as int) == Ok::<int, IntErrorKind>(y as int),
            Err(e) => parse_int_spec(s@, i32::MIN as int, i32::MAX as int) == Err::<int, IntErrorKind>(e),
        },
{
    match parse_int(s, i32::MIN as i128, i32::MAX as i128) {
        Ok(x) => Ok(x as i32),
        Err(e) => Err(e),
    }
}

/// `s.parse::<usize>()`.
pub fn parse_usize(s: &str) -> (r: Result<usize, IntErrorKind>)
    ensures
        match r {
            Ok(y) => parse_int_spec(s@, 0, usize::MAX as int) == Ok::<int, IntErrorKind>(y as int),
            Err(e) => parse_int_spec(s@, 0, usize::MAX as int) == Err::<int, IntErrorKind>(e),
        },
{
    match parse_int(s, 0, usize::MAX as i128) {
        Ok(x) => Ok(x as usize),
        Err(e) => Err(e),
    }
}

/// `s.parse::<u64>()`.
pub fn parse_u64(s: &str) -> (r: Result<u64, IntErrorKind>)
    ensures
        match r {
            Ok(y) => parse_int_spec(s@, 0, u64::MAX as int) == Ok::<int, IntErrorKind>(y as int),
            Err(e) => parse_int_spec(s@, 0, u64::MAX as int) == Err::<int, IntErrorKind>(e),
        },
{
    match parse_int(s, 0, u64::MAX as i128) {
        Ok(x) => Ok(x as u64),
        Err(e) => Err(e),
    }
}

/// The text that `ParseIntError` displays for each kind.
pub open spec fn int_error_text(e: IntErrorKind) -> Seq<char> {
    match e {
        IntErrorKind::Empty => "cannot parse integer from empty string"@,
        IntErrorKind::InvalidDigit => "invalid digit found in string"@,
        IntErrorKind::PosOverflow => "number too large to fit in target type"@,
        IntErrorKind::NegOverflow => "number too small to fit in target type"@,
    }
}

pub fn int_error_message(e: IntErrorKind) -> (s: String)
    ensures
        s@ == int_error_text(e),
{
    match e {
        IntErrorKind::Empty => String::from_str("cannot parse integer from empty string"),
        IntErrorKind::InvalidDigit => String::from_str("invalid digit found in string"),
        IntErrorKind::PosOverflow => String::from_str("number too large to fit in target type"),
        IntErrorKind::NegOverflow => String::from_str("number too small to fit in target type"),
    }
}

} // verus!

verus! {

pub proof fn lemma_digit_roundtrip(d: int)
    requires
        0 <= d < 10,
    ensures
        digit_value(digit_char(d)) == Some(d),
{
}

pub proof fn lemma_decimal_first_digit(n: nat)
    ensures
        decimal(n).len() > 0,
        digit_value(decimal(n)[0]) is Some,
    decreases n,
{
    if n >= 10 {
        lemma_decimal_first_digit(n / 10);
        assert(decimal(n)[0] == decimal(n / 10)[0]);
    } else {
        lemma_digit_roundtrip(n as int);
    }
}

/// Reading back the decimal digits of `n` gives `n` (or `-n` when read as
/// the digits of a negative number).
pub proof fn lemma_fold_decimal(n: nat, min: int, max: int)
    requires
        min <= 0 <= max,
    ensures
        n <= max ==> fold_digits(decimal(n), false, min, max) == Ok::<int, IntErrorKind>(n as int),
        -n >= min ==> fold_digits(decimal(n), true, min, max) == Ok::<int, IntErrorKind>(-n),
    decreases n,
{
    let t = decimal(n);
    if n < 10 {
        lemma_digit_roundtrip(n as int);
        assert(t.drop_last() =~= Seq::<char>::empty());
    } else {
        lemma_fold_decimal(n / 10, min, max);
        lemma_digit_roundtrip((n % 10) as int);
        assert(t.drop_last() =~= decimal(n / 10));
        assert(n / 10 <= n);
        assert((n / 10) * 10 + n % 10 == n);
        assert(-((n / 10) as int) * 10 - (n % 10) == -n);
    }
}

/// The text of an integer parses back to that integer.
pub proof fn lemma_parse_signed_decimal(i: int, min: int, max: int)
    requires
        min < 0 <= max,
        min <= i <= max,
    ensures
        parse_int_spec(signed_decimal(i), min, max) == Ok::<int, IntErrorKind>(i),
{
    if i < 0 {
        let n = (-i) as nat;
        lemma_fold_decimal(n, min, max);
        lemma_decimal_first_digit(n);
        let t = signed_decimal(i);
        assert(t.skip(1) =~= decimal(n));
    } else {
        let n = i as nat;
        lemma_fold_decimal(n, min, max);
        lemma_decimal_first_digit(n);
    }
}

} // verus!
