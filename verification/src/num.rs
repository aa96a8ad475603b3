use vstd::prelude::*;

verus! {

/// An ASCII decimal digit.
pub open spec fn is_digit(c: char) -> bool {
    '0' <= c && c <= '9'
}

/// The value of an ASCII decimal digit.
pub open spec fn digit_of(c: char) -> int {
    c as int - '0' as int
}

/// Whether every character of `s` is an ASCII digit.
pub open spec fn all_digits(s: Seq<char>) -> bool {
    forall|i: int| 0 <= i < s.len() ==> is_digit(#[trigger] s[i])
}

/// The number that a string of decimal digits spells.
pub open spec fn digits_value(s: Seq<char>) -> int
    decreases s.len(),
{
    if s.len() == 0 {
        0
    } else {
        digits_value(s.drop_last()) * 10 + digit_of(s.last())
    }
}

/// What Rust's `str::parse` gives for an integer type whose range is
/// `lo..=hi`: an optional `+` (or, for signed types, `-`) followed by at least
/// one ASCII digit, and a value in range; `None` for anything else.
pub open spec fn parse_int_spec(s: Seq<char>, signed: bool, lo: int, hi: int) -> Option<int> {
    if s.len() == 0 {
        None
    } else {
        let neg = signed && s[0] == '-';
        let digits = if s[0] == '+' || neg {
            s.drop_first()
        } else {
            s
        };
        if digits.len() == 0 || !all_digits(digits) {
            None
        } else {
            let v = if neg {
                -digits_value(digits)
            } else {
                digits_value(digits)
            };
            if lo <= v && v <= hi {
                Some(v)
            } else {
                None
            }
        }
    }
}

pub proof fn lemma_digits_value_nonneg(s: Seq<char>)
    requires
        all_digits(s),
    ensures
        digits_value(s) >= 0,
    decreases s.len(),
{
    if s.len() > 0 {
        assert(all_digits(s.drop_last()));
        lemma_digits_value_nonneg(s.drop_last());
        assert(is_digit(s[s.len() - 1]));
    }
}

/// A prefix of a digit string never spells more than the whole string.
pub proof fn lemma_digits_prefix_le(s: Seq<char>, k: int)
    requires
        all_digits(s),
        0 <= k <= s.len(),
    ensures
        digits_value(s.subrange(0, k)) <= digits_value(s),
    decreases s.len() - k,
{
    if k < s.len() {
        lemma_digits_prefix_le(s, k + 1);
        let p = s.subrange(0, k + 1);
        assert(p.drop_last() =~= s.subrange(0, k));
        assert(all_digits(s.subrange(0, k)));
        lemma_digits_value_nonneg(s.subrange(0, k));
        assert(is_digit(p.last()));
    } else {
        assert(s.subrange(0, k) =~= s);
    }
}

/// Parses an integer the way `str::parse` does for a type whose range is
/// `lo..=hi`.
pub fn parse_integer(s: &Vec<char>, signed: bool, lo: i128, hi: i128) -> (r: Option<i128>)
    requires
        lo <= 0 <= hi,
        hi < 0x1_0000_0000_0000_0000_0000,
        -lo < 0x1_0000_0000_0000_0000_0000,
    ensures
        r matches Some(v) ==> parse_int_spec(s@, signed, lo as int, hi as int) == Some(v as int),
        r is None ==> parse_int_spec(s@, signed, lo as int, hi as int) is None,
{
    if s.len() == 0 {
        return None;
    }
    let neg = signed && s[0] == '-';
    let start: usize = if s[0] == '+' || neg {
        1
    } else {
        0
    };
    let ghost digits = s@.subrange(start as int, s@.len() as int);
    assert(digits =~= if s@[0] == '+' || neg {
        s@.drop_first()
    } else {
        s@
    });
    if start == s.len() {
        return None;
    }
    let bound: i128 = if neg {
        -lo
    } else {
        hi
    };
    let mut acc: i128 = 0;
    let mut i = start;
    while i < s.len()
        invariant
            start <= i <= s@.len(),
            digits == s@.subrange(start as int, s@.len() as int),
            all_digits(s@.subrange(start as int, i as int)),
            acc == digits_value(s@.subrange(start as int, i as int)),
            0 <= acc <= bound,
            bound < 0x1_0000_0000_0000_0000_0000,
            s@.len() > 0,
            neg == (signed && s@[0] == '-'),
            start == (if s@[0] == '+' || neg { 1usize } else { 0usize }),
            bound == (if neg { -lo } else { hi as int }),
            lo <= 0 <= hi,
            digits == (if s@[0] == '+' || neg { s@.drop_first() } else { s@ }),
        decreases s.len() - i,
    {
        let c = s[i];
        let ghost pre = s@.subrange(start as int, i as int);
        let ghost cur = s@.subrange(start as int, i + 1);
        assert(cur.drop_last() =~= pre);
        if !('0' <= c && c <= '9') {
            assert(digits[i - start] == c);
            return None;
        }
        let d = (c as u32 - '0' as u32) as i128;
        if acc * 10 + d > bound {
            proof {
                assert(all_digits(cur));
                assert(digits_value(cur) == acc * 10 + d);
                if all_digits(digits) {
                    assert(cur =~= digits.subrange(0, i + 1 - start));
                    lemma_digits_prefix_le(digits, i + 1 - start);
                    lemma_digits_value_nonneg(digits);
                }
            }
            return None;
        }
        acc = acc * 10 + d;
        i = i + 1;
        assert(all_digits(cur));
    }
    assert(s@.subrange(start as int, i as int) =~= digits);
    if neg {
        Some(-acc)
    } else {
        Some(acc)
    }
}

/// `str::parse::<u64>`.
pub fn parse_u64(s: &Vec<char>) -> (r: Option<u64>)
    ensures
        r matches Some(v) ==> parse_int_spec(s@, false, 0, u64::MAX as int) == Some(v as int),
        r is None ==> parse_int_spec(s@, false, 0, u64::MAX as int) is None,
{
    match parse_integer(s, false, 0, u64::MAX as i128) {
        Some(v) => Some(v as u64),
        None => None,
    }
}

/// `str::parse::<i32>`.
pub fn parse_i32(s: &Vec<char>) -> (r: Option<i32>)
    ensures
        r matches Some(v) ==> parse_int_spec(s@, true, i32::MIN as int, i32::MAX as int) == Some(
            v as int,
        ),
        r is None ==> parse_int_spec(s@, true, i32::MIN as int, i32::MAX as int) is None,
{
    match parse_integer(s, true, i32::MIN as i128, i32::MAX as i128) {
        Some(v) => Some(v as i32),
        None => None,
    }
}

/// `str::parse::<i16>`.
pub fn parse_i16(s: &Vec<char>) -> (r: Option<i16>)
    ensures
        r matches Some(v) ==> parse_int_spec(s@, true, i16::MIN as int, i16::MAX as int) == Some(
            v as int,
        ),
        r is None ==> parse_int_spec(s@, true, i16::MIN as int, i16::MAX as int) is None,
{
    match parse_integer(s, true, i16::MIN as i128, i16::MAX as i128) {
        Some(v) => Some(v as i16),
        None => None,
    }
}

/// `str::parse::<u32>`.
pub fn parse_u32(s: &Vec<char>) -> (r: Option<u32>)
    ensures
        r matches Some(v) ==> parse_int_spec(s@, false, 0, u32::MAX as int) == Some(v as int),
        r is None ==> parse_int_spec(s@, false, 0, u32::MAX as int) is None,
{
    match parse_integer(s, false, 0, u32::MAX as i128) {
        Some(v) => Some(v as u32),
        None => None,
    }
}

/// The ASCII digit of a value below ten.
pub open spec fn digit_char(d: int) -> char {
    (d + '0' as int) as char
}

/// The decimal digits of a natural number, without leading zeros.
pub open spec fn nat_digits(n: nat) -> Seq<char>
    decreases n,
{
    if n < 10 {
        seq![digit_char(n as int)]
    } else {
        nat_digits(n / 10).push(digit_char((n % 10) as int))
    }
}

/// The decimal text of an integer, as `to_string` writes it.
pub open spec fn decimal(n: int) -> Seq<char> {
    if n < 0 {
        seq!['-'] + nat_digits((-n) as nat)
    } else {
        nat_digits(n as nat)
    }
}

fn push_digits(n: u64, out: &mut Vec<char>)
    ensures
        final(out)@ == old(out)@ + nat_digits(n as nat),
    decreases n,
{
    if n >= 10 {
        push_digits(n / 10, out);
    }
    let d = (n % 10) as u32;
    let c = char_of_digit(d);
    out.push(c);
    proof {
        if n >= 10 {
            assert(nat_digits(n as nat) == nat_digits((n / 10) as nat).push(digit_char((n % 10) as int)));
        }
    }
    assert(out@ =~= old(out)@ + nat_digits(n as nat));
}

fn char_of_digit(d: u32) -> (c: char)
    requires
        d < 10,
    ensures
        c == digit_char(d as int),
{
    if d == 0 { '0' }
    else if d == 1 { '1' }
    else if d == 2 { '2' }
    else if d == 3 { '3' }
    else if d == 4 { '4' }
    else if d == 5 { '5' }
    else if d == 6 { '6' }
    else if d == 7 { '7' }
    else if d == 8 { '8' }
    else { '9' }
}

/// The decimal text of `n` (`n.to_string()`).
pub fn decimal_chars(n: i64) -> (r: Vec<char>)
    ensures
        r@ == decimal(n as int),
{
    let mut out: Vec<char> = Vec::new();
    if n < 0 {
        out.push('-');
        let m: u64 = if n == i64::MIN {
            0x8000_0000_0000_0000u64
        } else {
            (-n) as u64
        };
        push_digits(m, &mut out);
        assert(out@ =~= seq!['-'] + nat_digits((-n) as nat));
    } else {
        push_digits(n as u64, &mut out);
        assert(out@ =~= nat_digits(n as nat));
    }
    out
}

/// The decimal text of `n` as a `String` (`n.to_string()`).
pub fn decimal_string(n: i64) -> (r: String)
    ensures
        r@ == decimal(n as int),
{
    let v = decimal_chars(n);
    crate::text::string_from_chars(v.as_slice())
}

/// The digits of a natural number are ASCII digits spelling that number.
pub proof fn lemma_nat_digits(n: nat)
    ensures
        nat_digits(n).len() >= 1,
        all_digits(nat_digits(n)),
        digits_value(nat_digits(n)) == n,
        is_digit(nat_digits(n)[0]),
    decreases n,
{
    if n >= 10 {
        lemma_nat_digits(n / 10);
        let s = nat_digits(n);
        assert(s.drop_last() =~= nat_digits(n / 10));
        assert forall|i: int| 0 <= i < s.len() implies is_digit(#[trigger] s[i]) by {
            if i < s.len() - 1 {
                assert(s[i] == nat_digits(n / 10)[i]);
            }
        }
        assert(s[0] == nat_digits(n / 10)[0]);
        assert(s.last() == digit_char((n % 10) as int));
        assert(digit_of(s.last()) == n % 10);
        assert(digits_value(s) == digits_value(s.drop_last()) * 10 + digit_of(s.last()));
        assert((n / 10) * 10 + n % 10 == n);
    } else {
        assert(digit_of(digit_char(n as int)) == n);
        assert(nat_digits(n).drop_last() =~= Seq::<char>::empty());
        assert(digits_value(Seq::<char>::empty()) == 0);
        assert(digits_value(nat_digits(n)) == digits_value(nat_digits(n).drop_last()) * 10
            + digit_of(nat_digits(n).last()));
    }
}

/// Parsing the decimal text of an integer in range gives the integer back.
pub proof fn lemma_parse_decimal(n: int, lo: int, hi: int)
    requires
        lo <= n <= hi,
    ensures
        parse_int_spec(decimal(n), true, lo, hi) == Some(n),
        n >= 0 ==> parse_int_spec(decimal(n), false, lo, hi) == Some(n),
{
    if n < 0 {
        let m = (-n) as nat;
        lemma_nat_digits(m);
        assert(decimal(n).drop_first() =~= nat_digits(m));
    } else {
        lemma_nat_digits(n as nat);
    }
}

} // verus!
