//! Verified conversion between decimal text and integers: a parser with the
//! exact acceptance rules of an optional sign followed by at least one digit,
//! and a renderer producing the usual decimal form.

use vstd::prelude::*;
use vstd::string::*;

verus! {

/// A decimal digit.
pub open spec fn is_digit(c: char) -> bool {
    48 <= c as u32 && c as u32 <= 57
}

/// The value of a decimal digit.
pub open spec fn digit_val(c: char) -> int {
    c as u32 - 48
}

/// Every character of `s` is a decimal digit.
pub open spec fn all_digits(s: Seq<char>) -> bool {
    forall|i: int| 0 <= i < s.len() ==> is_digit(s[i])
}

/// The value of a digit string, most significant digit first.
pub open spec fn digits_val(s: Seq<char>) -> int
    decreases s.len(),
{
    if s.len() == 0 {
        0
    } else {
        digits_val(s.drop_last()) * 10 + digit_val(s.last())
    }
}

/// The mathematical integer a piece of text denotes, if it is a decimal
/// integer: an optional `+` or `-` sign, then at least one digit.
pub open spec fn int_of_text(s: Seq<char>) -> Option<int> {
    if s.len() == 0 {
        None
    } else {
        let sign: int = if s[0] == '-' {
            -1
        } else {
            1
        };
        let ds = if s[0] == '-' || s[0] == '+' {
            s.drop_first()
        } else {
            s
        };
        if ds.len() > 0 && all_digits(ds) {
            Some(sign * digits_val(ds))
        } else {
            None
        }
    }
}

/// `int_of_text`, narrowed to values an `i64` can hold.
pub open spec fn i64_of_text(s: Seq<char>) -> Option<int> {
    match int_of_text(s) {
        Some(v) => if i64::MIN <= v <= i64::MAX {
            Some(v)
        } else {
            None
        },
        None => None,
    }
}

/// `int_of_text`, narrowed to values an `i32` can hold.
pub open spec fn i32_of_text(s: Seq<char>) -> Option<int> {
    match int_of_text(s) {
        Some(v) => if i32::MIN <= v <= i32::MAX {
            Some(v)
        } else {
            None
        },
        None => None,
    }
}

/// Ten to the `n`.
pub open spec fn pow10(n: nat) -> int
    decreases n,
{
    if n == 0 {
        1
    } else {
        10 * pow10((n - 1) as nat)
    }
}

proof fn lemma_pow10_pos(n: nat)
    ensures
        pow10(n) >= 1,
    decreases n,
{
    if n > 0 {
        lemma_pow10_pos((n - 1) as nat);
    }
}

proof fn lemma_pow10_mono(a: nat, b: nat)
    requires
        a <= b,
    ensures
        pow10(a) <= pow10(b),
    decreases b,
{
    if a < b {
        lemma_pow10_mono(a, (b - 1) as nat);
        lemma_pow10_pos((b - 1) as nat);
    }
}

/// A digit string of length `n` is below ten to the `n`.
proof fn lemma_digits_upper(s: Seq<char>)
    requires
        all_digits(s),
    ensures
        0 <= digits_val(s) < pow10(s.len()),
    decreases s.len(),
{
    if s.len() > 0 {
        assert(all_digits(s.drop_last())) by {
            assert(forall|i: int|
                0 <= i < s.len() - 1 ==> s.drop_last()[i] == s[i] && is_digit(s[i]));
        }
        lemma_digits_upper(s.drop_last());
    }
}

/// A digit string without a leading zero reaches ten to its length less one.
proof fn lemma_digits_lower(s: Seq<char>)
    requires
        all_digits(s),
        s.len() > 0,
        digit_val(s[0]) >= 1,
    ensures
        digits_val(s) >= pow10((s.len() - 1) as nat),
    decreases s.len(),
{
    if s.len() == 1 {
        assert(s.last() == s[0]);
    } else {
        assert(all_digits(s.drop_last())) by {
            assert(forall|i: int|
                0 <= i < s.len() - 1 ==> s.drop_last()[i] == s[i] && is_digit(s[i]));
        }
        assert(s.drop_last()[0] == s[0]);
        lemma_digits_lower(s.drop_last());
        assert(digits_val(s.drop_last()) >= pow10((s.len() - 2) as nat));
        assert(pow10((s.len() - 1) as nat) == 10 * pow10((s.len() - 2) as nat));
        assert(digit_val(s.last()) >= 0);
    }
}

/// Digits of value zero at the front do not change the value of a digit
/// string.
proof fn lemma_zeros_prefix(s: Seq<char>, z: int)
    requires
        0 <= z <= s.len(),
        forall|j: int| 0 <= j < z ==> digit_val(#[trigger] s[j]) == 0,
    ensures
        digits_val(s) == digits_val(s.skip(z)),
    decreases s.len(),
{
    if s.len() == 0 || z == 0 {
        assert(s.skip(0) =~= s);
    } else if z == s.len() {
        lemma_zeros_prefix(s.drop_last(), z - 1);
        assert(s.drop_last().skip(z - 1) =~= Seq::<char>::empty());
        assert(digit_val(s.last()) == 0);
        assert(s.skip(z) =~= Seq::<char>::empty());
    } else {
        lemma_zeros_prefix(s.drop_last(), z);
        assert(s.skip(z).drop_last() =~= s.drop_last().skip(z));
        assert(s.skip(z).last() == s.last());
    }
}

/// Parses `s` as an `i64`, accepting exactly the decimal integers that fit.
pub fn parse_i64(s: &str) -> (r: Option<i64>)
    ensures
        match r {
            Some(v) => i64_of_text(s@) == Some(v as int),
            None => i64_of_text(s@) is None,
        },
{
    let len = s.unicode_len();
    if len == 0 {
        return None;
    }
    let c0 = s.get_char(0);
    let neg = c0 == '-';
    let start: usize = if c0 == '-' || c0 == '+' {
        1
    } else {
        0
    };
    if start >= len {
        return None;
    }
    let ghost ds = if s@[0] == '-' || s@[0] == '+' {
        s@.drop_first()
    } else {
        s@
    };
    let mut j = start;
    while j < len
        invariant
            start <= j <= len,
            len == s@.len(),
            len >= 1,
            start == (if s@[0] == '-' || s@[0] == '+' {
                1int
            } else {
                0int
            }),
            ds == (if s@[0] == '-' || s@[0] == '+' {
                s@.drop_first()
            } else {
                s@
            }),
            forall|m: int| start <= m < j ==> is_digit(s@[m]),
        decreases len - j,
    {
        let u = s.get_char(j) as u32;
        if u < 48 || u > 57 {
            proof {
                assert(ds[j - start] == s@[j as int]);
                assert(!all_digits(ds));
            }
            return None;
        }
        j += 1;
    }
    proof {
        assert(all_digits(ds)) by {
            assert(forall|m: int|
                0 <= m < ds.len() ==> ds[m] == s@[m + start] && is_digit(s@[m + start]));
        }
    }
    let mut z = start;
    while z < len && s.get_char(z) as u32 == 48
        invariant
            start <= z <= len,
            len == s@.len(),
            forall|m: int| start <= m < z ==> digit_val(#[trigger] s@[m]) == 0,
        decreases len - z,
    {
        z += 1;
    }
    proof {
        assert(forall|m: int| 0 <= m < z - start ==> #[trigger] ds[m] == s@[m + start]);
        lemma_zeros_prefix(ds, z - start as int);
        assert(ds.skip(z - start as int) =~= s@.skip(z as int));
        assert(digits_val(ds) == digits_val(s@.skip(z as int)));
    }
    let ghost sig = s@.skip(z as int);
    let m = len - z;
    if m == 0 {
        proof {
            assert(digits_val(sig) == 0);
            if s@[0] == '-' {
                assert(int_of_text(s@) == Some(-1int * digits_val(ds)));
                assert(-1int * digits_val(ds) == 0);
            } else {
                assert(int_of_text(s@) == Some(1int * digits_val(ds)));
                assert(1int * digits_val(ds) == 0);
            }
            assert(i64_of_text(s@) == Some(0int));
        }
        return Some(0i64);
    }
    proof {
        assert(all_digits(sig)) by {
            assert(forall|i: int|
                0 <= i < sig.len() ==> #[trigger] sig[i] == s@[i + z] && is_digit(s@[i + z]));
        }
        assert(sig[0] == s@[z as int]);
        assert(digit_val(sig[0]) >= 1);
    }
    if m > 19 {
        proof {
            lemma_digits_lower(sig);
            lemma_pow10_mono(19, (sig.len() - 1) as nat);
            assert(pow10(19) == 10_000_000_000_000_000_000) by {
                reveal_with_fuel(pow10, 21);
            }
            assert(digits_val(ds) >= 10_000_000_000_000_000_000);
            if s@[0] == '-' {
                assert(int_of_text(s@) == Some(-1int * digits_val(ds)));
                assert(-1int * digits_val(ds) == -digits_val(ds));
            } else {
                assert(int_of_text(s@) == Some(1int * digits_val(ds)));
                assert(1int * digits_val(ds) == digits_val(ds));
            }
            assert(i64_of_text(s@) is None);
        }
        return None;
    }
    let mut acc: u64 = 0;
    let mut i = z;
    proof {
        assert(s@.subrange(z as int, z as int) =~= Seq::<char>::empty());
        assert(pow10(19) == 10_000_000_000_000_000_000 && pow10(18)
            == 1_000_000_000_000_000_000) by {
            reveal_with_fuel(pow10, 21);
        }
    }
    while i < len
        invariant
            z <= i <= len,
            len == s@.len(),
            len - z <= 19,
            forall|m2: int| start <= m2 < len ==> is_digit(s@[m2]),
            start <= z,
            acc == digits_val(s@.subrange(z as int, i as int)),
            acc < pow10((i - z) as nat),
            pow10(19) == 10_000_000_000_000_000_000,
            pow10(18) == 1_000_000_000_000_000_000,
        decreases len - i,
    {
        let u = s.get_char(i) as u32;
        let d = (u - 48) as u64;
        proof {
            assert(is_digit(s@[i as int]));
            lemma_pow10_mono((i - z) as nat, 18);
        }
        acc = acc * 10 + d;
        i += 1;
        proof {
            let sub = s@.subrange(z as int, i as int);
            assert(sub.drop_last() =~= s@.subrange(z as int, i - 1));
            assert(sub.last() == s@[i - 1]);
            assert(acc == digits_val(sub));
            assert(acc < pow10((i - z) as nat));
        }
    }
    proof {
        assert(s@.subrange(z as int, len as int) =~= sig);
        assert(acc == digits_val(ds));
        if s@[0] == '-' {
            assert(int_of_text(s@) == Some(-1int * digits_val(ds)));
            assert(-1int * digits_val(ds) == -digits_val(ds));
            assert(int_of_text(s@) == Some(-(acc as int)));
        } else {
            assert(int_of_text(s@) == Some(1int * digits_val(ds)));
            assert(1int * digits_val(ds) == digits_val(ds));
            assert(int_of_text(s@) == Some(acc as int));
        }
    }
    if neg {
        if acc > 9223372036854775808u64 {
            return None;
        }
        if acc == 9223372036854775808u64 {
            return Some(i64::MIN);
        }
        Some(-(acc as i64))
    } else {
        if acc > 9223372036854775807u64 {
            return None;
        }
        Some(acc as i64)
    }
}

/// Parses `s` as an `i32`, accepting exactly the decimal integers that fit.
pub fn parse_i32(s: &str) -> (r: Option<i32>)
    ensures
        match r {
            Some(v) => i32_of_text(s@) == Some(v as int),
            None => i32_of_text(s@) is None,
        },
{
    match parse_i64(s) {
        Some(v) => {
            if v >= -2147483648i64 && v <= 2147483647i64 {
                Some(v as i32)
            } else {
                None
            }
        },
        None => None,
    }
}

/// Division truncated towards zero, for a positive divisor.
pub open spec fn div_trunc(a: int, b: int) -> int
    recommends
        b > 0,
{
    if a >= 0 {
        a / b
    } else {
        -((-a) / b)
    }
}

/// Truncated division of an `i64` by a positive divisor.
pub fn div_trunc_i64(a: i64, b: u64) -> (r: i64)
    requires
        0 < b,
        a > i64::MIN,
    ensures
        r as int == div_trunc(a as int, b as int),
{
    if a >= 0 {
        let q = (a as u64) / b;
        proof {
            vstd::arithmetic::div_mod::lemma_div_nonincreasing(a as int, b as int);
        }
        q as i64
    } else {
        let m = -a;
        let q = (m as u64) / b;
        proof {
            vstd::arithmetic::div_mod::lemma_div_nonincreasing(m as int, b as int);
        }
        -(q as i64)
    }
}

/// The decimal digits of a non-negative integer, no sign, no leading zeros
/// (a single zero for zero itself).
pub open spec fn dec_digits(n: int) -> Seq<char>
    decreases n,
{
    if n < 10 {
        seq![dec_digit_char(n)]
    } else {
        dec_digits(n / 10).push(dec_digit_char(n % 10))
    }
}

/// The character for one decimal digit.
pub open spec fn dec_digit_char(d: int) -> char {
    if d == 0 {
        '0'
    } else if d == 1 {
        '1'
    } else if d == 2 {
        '2'
    } else if d == 3 {
        '3'
    } else if d == 4 {
        '4'
    } else if d == 5 {
        '5'
    } else if d == 6 {
        '6'
    } else if d == 7 {
        '7'
    } else if d == 8 {
        '8'
    } else {
        '9'
    }
}

/// The decimal text of an integer, with a leading minus sign if negative.
pub open spec fn int_text(v: int) -> Seq<char> {
    if v < 0 {
        seq!['-'] + dec_digits(-v)
    } else {
        dec_digits(v)
    }
}

/// Appends the character of one digit.
fn push_digit(out: &mut String, d: u64)
    requires
        d < 10,
    ensures
        final(out)@ == old(out)@ + seq![dec_digit_char(d as int)],
{
    proof {
        reveal_strlit("0");
        reveal_strlit("1");
        reveal_strlit("2");
        reveal_strlit("3");
        reveal_strlit("4");
        reveal_strlit("5");
        reveal_strlit("6");
        reveal_strlit("7");
        reveal_strlit("8");
        reveal_strlit("9");
    }
    if d == 0 {
        out.append("0");
    } else if d == 1 {
        out.append("1");
    } else if d == 2 {
        out.append("2");
    } else if d == 3 {
        out.append("3");
    } else if d == 4 {
        out.append("4");
    } else if d == 5 {
        out.append("5");
    } else if d == 6 {
        out.append("6");
    } else if d == 7 {
        out.append("7");
    } else if d == 8 {
        out.append("8");
    } else {
        out.append("9");
    }
    proof {
        assert(final(out)@ =~= old(out)@ + seq![dec_digit_char(d as int)]);
    }
}

/// Appends the decimal digits of `n`.
fn push_dec(out: &mut String, n: u64)
    ensures
        final(out)@ == old(out)@ + dec_digits(n as int),
    decreases n,
{
    if n < 10 {
        push_digit(out, n);
    } else {
        push_dec(out, n / 10);
        push_digit(out, n % 10);
        proof {
            assert(final(out)@ =~= old(out)@ + dec_digits(n as int));
        }
    }
}

/// The decimal text of a `u64`.
pub fn u64_to_string(n: u64) -> (r: String)
    ensures
        r@ == dec_digits(n as int),
{
    let mut r = String::new();
    push_dec(&mut r, n);
    proof {
        assert(r@ =~= dec_digits(n as int));
    }
    r
}

/// The decimal text of an `i64`, minus sign included.
pub fn i64_to_string(v: i64) -> (r: String)
    requires
        v > i64::MIN,
    ensures
        r@ == int_text(v as int),
{
    if v < 0 {
        let mut r = String::from_str("-");
        proof {
            reveal_strlit("-");
        }
        push_dec(&mut r, (-v) as u64);
        proof {
            assert(r@ =~= int_text(v as int));
        }
        r
    } else {
        u64_to_string(v as u64)
    }
}

} // verus!
