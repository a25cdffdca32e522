//! Decimal rendering and parsing of integer record keys.
//!
//! A numeric key is printed in the usual decimal notation and recognised
//! again only in that canonical form: an optional leading minus sign, no
//! superfluous leading zeros, and a magnitude that fits the key's range.

use vstd::prelude::*;

verus! {

/// Whether `c` is one of the ten ASCII decimal digits.
pub open spec fn is_digit(c: char) -> bool {
    '0' <= c && c <= '9'
}

/// The numeric value of a decimal digit; zero on any other character.
pub open spec fn digit_val(c: char) -> nat {
    if is_digit(c) {
        (c as int - '0' as int) as nat
    } else {
        0
    }
}

/// The decimal digit with value `d` (expected below ten).
pub open spec fn digit_char(d: nat) -> char {
    if d == 0 {
        '0'
    } else if d == 1 {
        '1'
    } else if d == 2 {
        '2'
    } else if d == 3 {
        '3'
    } else if d == 4 {
        '4'
    } else if d == 5 {
        '5'
    } else if d == 6 {
        '6'
    } else if d == 7 {
        '7'
    } else if d == 8 {
        '8'
    } else {
        '9'
    }
}

/// The decimal rendering of a natural number, most significant digit first.
pub open spec fn digits_of(m: nat) -> Seq<char>
    decreases m,
{
    if m < 10 {
        seq![digit_char(m)]
    } else {
        digits_of(m / 10).push(digit_char(m % 10))
    }
}

/// The natural number denoted by a sequence of decimal digits.
pub open spec fn digits_val(s: Seq<char>) -> nat
    decreases s.len(),
{
    if s.len() == 0 {
        0
    } else {
        digits_val(s.drop_last()) * 10 + digit_val(s.last())
    }
}

/// Whether every character of `s` is a decimal digit.
pub open spec fn all_digits(s: Seq<char>) -> bool {
    forall|i: int| 0 <= i < s.len() ==> is_digit(#[trigger] s[i])
}

proof fn lemma_digits_of_props(m: nat)
    ensures
        digits_of(m).len() >= 1,
        all_digits(digits_of(m)),
        digits_val(digits_of(m)) == m,
        m == 0 ==> digits_of(m) =~= seq!['0'],
        m > 0 ==> digits_of(m)[0] != '0',
    decreases m,
{
    if m < 10 {
        assert(digits_of(m) =~= seq![digit_char(m)]);
        assert(digits_val(digits_of(m)) == digits_val(seq![digit_char(m)].drop_last()) * 10
            + digit_val(digit_char(m)));
        assert(seq![digit_char(m)].drop_last() =~= Seq::<char>::empty());
    } else {
        lemma_digits_of_props(m / 10);
        let pre = digits_of(m / 10);
        let s = pre.push(digit_char(m % 10));
        assert(s.drop_last() =~= pre);
        assert(s.last() == digit_char(m % 10));
        assert(digit_val(digit_char(m % 10)) == m % 10);
        assert(digits_val(s) == (m / 10) * 10 + m % 10);
        assert((m / 10) * 10 + m % 10 == m) by (nonlinear_arith);
        assert(s[0] == pre[0]);
        assert(m / 10 > 0);
    }
}

/// The decimal digit with value `d`, as a one-character string.
fn digit_str(d: u64) -> (s: &'static str)
    requires
        d < 10,
    ensures
        s@ =~= seq![digit_char(d as nat)],
{
    proof {
        reveal_strlit("0");
        reveal_strlit("1");
        reveal_strlit("2");
        reveal_strlit("3");
        reveal_strlit("4");
        reveal_strlit("5");
        reveal_strlit("6");
        reveal_strlit("7");
        reveal_strlit("8");
        reveal_strlit("9");
    }
    if d == 0 {
        "0"
    } else if d == 1 {
        "1"
    } else if d == 2 {
        "2"
    } else if d == 3 {
        "3"
    } else if d == 4 {
        "4"
    } else if d == 5 {
        "5"
    } else if d == 6 {
        "6"
    } else if d == 7 {
        "7"
    } else if d == 8 {
        "8"
    } else {
        "9"
    }
}

/// Renders `m` in decimal, most significant digit first.
pub fn u64_digits(m: u64) -> (s: String)
    ensures
        s@ =~= digits_of(m as nat),
    decreases m,
{
    if m < 10 {
        digit_str(m).to_owned()
    } else {
        let pre = u64_digits(m / 10);
        pre.concat(digit_str(m % 10))
    }
}

/// The decimal rendering of an integer: a minus sign for negative values,
/// then the magnitude's digits.
pub open spec fn int_seq(n: int) -> Seq<char> {
    if n < 0 {
        seq!['-'] + digits_of((-n) as nat)
    } else {
        digits_of(n as nat)
    }
}

/// Whether `s` is the canonical decimal rendering of some signed 64-bit
/// integer: an optional minus sign, at least one digit, no superfluous
/// leading zero, no negative zero, and a magnitude within the key range.
pub open spec fn is_numeric_key(s: Seq<char>) -> bool {
    if s.len() > 0 && s[0] == '-' {
        let d = s.skip(1);
        d.len() > 0 && all_digits(d) && d[0] != '0' && digits_val(d) <= 0x8000000000000000
    } else {
        s.len() > 0 && all_digits(s) && (s.len() == 1 || s[0] != '0') && digits_val(s)
            <= 0x7fffffffffffffff
    }
}

/// The integer denoted by a canonical decimal rendering.
pub open spec fn numeric_key_val(s: Seq<char>) -> int {
    if s.len() > 0 && s[0] == '-' {
        -(digits_val(s.skip(1)) as int)
    } else {
        digits_val(s) as int
    }
}

/// The canonical rendering of an in-range integer is recognised as a
/// numeric key, and denotes that same integer.
pub proof fn lemma_int_seq_numeric(n: int)
    requires
        i64::MIN <= n <= i64::MAX,
    ensures
        is_numeric_key(int_seq(n)),
        numeric_key_val(int_seq(n)) == n,
        int_seq(n).len() >= 1,
{
    if n < 0 {
        let mag = (-n) as nat;
        lemma_digits_of_props(mag);
        let s = seq!['-'] + digits_of(mag);
        assert(s[0] == '-');
        assert(s.skip(1) =~= digits_of(mag));
    } else {
        lemma_digits_of_props(n as nat);
        let s = digits_of(n as nat);
        assert(is_digit(s[0]));
        assert(s[0] != '-');
    }
}

/// The value denoted by a digit string bounds the value denoted by each of
/// its prefixes.
proof fn lemma_digits_val_prefix(s: Seq<char>, i: int)
    requires
        0 <= i <= s.len(),
    ensures
        digits_val(s.take(i)) <= digits_val(s),
    decreases s.len() - i,
{
    if i == s.len() {
        assert(s.take(i) =~= s);
    } else {
        assert(s.take(i + 1).drop_last() =~= s.take(i));
        assert(s.take(i + 1).last() == s[i]);
        assert(digits_val(s.take(i)) <= digits_val(s.take(i)) * 10 + digit_val(s[i]));
        lemma_digits_val_prefix(s, i + 1);
    }
}

/// Parses `s` as a numeric key.
///
/// Returns the denoted integer exactly when `s` is the canonical decimal
/// rendering of a signed 64-bit integer, and nothing otherwise.
pub fn parse_numeric(s: &str) -> (r: Option<i64>)
    ensures
        match r {
            Some(n) => is_numeric_key(s@) && numeric_key_val(s@) == n as int,
            None => !is_numeric_key(s@),
        },
{
    let len = s.unicode_len();
    if len == 0 {
        return None;
    }
    let neg = s.get_char(0) == '-';
    let start: usize = if neg {
        1
    } else {
        0
    };
    if len == start {
        return None;
    }
    let first = s.get_char(start);
    if first == '0' && (neg || len - start > 1) {
        return None;
    }
    let bound: u64 = if neg {
        9223372036854775808
    } else {
        9223372036854775807
    };
    let ghost dd: Seq<char> = s@.skip(start as int);
    proof {
        if !neg {
            assert(dd =~= s@);
        }
    }
    let mut acc: u64 = 0;
    let mut i: usize = start;
    while i < len
        invariant
            start <= i <= len,
            len == s@.len(),
            start == if neg {
                1int
            } else {
                0int
            },
            dd == s@.skip(start as int),
            !neg ==> dd == s@,
            neg <==> (s@.len() > 0 && s@[0] == '-'),
            bound == if neg {
                0x8000000000000000u64
            } else {
                0x7fffffffffffffffu64
            },
            acc <= bound,
            all_digits(dd.take(i - start)),
            acc as nat == digits_val(dd.take(i - start)),
        decreases len - i,
    {
        let c = s.get_char(i);
        let u = c as u32;
        if u < 48 || u > 57 {
            proof {
                assert(!is_digit(dd[i - start]));
            }
            return None;
        }
        let d = (u - 48) as u64;
        proof {
            assert(is_digit(s@[i as int]));
            assert(digit_val(s@[i as int]) == d as nat);
        }
        if acc > (bound - d) / 10 {
            proof {
                let k = i - start;
                assert(dd.take(k + 1).drop_last() =~= dd.take(k));
                assert(dd.take(k + 1).last() == dd[k]);
                assert(digits_val(dd.take(k + 1)) == acc as nat * 10 + d as nat);
                assert(acc as nat * 10 + d as nat > bound as nat) by (nonlinear_arith)
                    requires
                        acc > (bound - d) / 10,
                        d <= 9,
                        d <= bound,
                ;
                lemma_digits_val_prefix(dd, k + 1);
                assert(digits_val(dd) > bound as nat);
            }
            return None;
        }
        proof {
            let k = i - start;
            assert(dd.take(k + 1).drop_last() =~= dd.take(k));
            assert(dd.take(k + 1).last() == dd[k]);
            assert(acc as nat * 10 + d as nat <= bound as nat) by (nonlinear_arith)
                requires
                    acc <= (bound - d) / 10,
                    d <= bound,
            ;
        }
        acc = acc * 10 + d;
        i = i + 1;
    }
    proof {
        assert(dd.take(len - start) =~= dd);
    }
    let n: i64 = if neg {
        if acc == 9223372036854775808 {
            i64::MIN
        } else {
            -(acc as i64)
        }
    } else {
        acc as i64
    };
    Some(n)
}

/// Renders a signed 64-bit integer as a canonical decimal string.
pub fn i64_render(n: i64) -> (s: String)
    ensures
        s@ =~= int_seq(n as int),
{
    if n >= 0 {
        u64_digits(n as u64)
    } else {
        let mag: u64 = if n == i64::MIN {
            9223372036854775808
        } else {
            (-n) as u64
        };
        let ds = u64_digits(mag);
        proof {
            reveal_strlit("-");
        }
        let r = "-".to_owned().concat(ds.as_str());
        proof {
            assert(r@ =~= seq!['-'] + digits_of((-(n as int)) as nat));
        }
        r
    }
}

} // verus!
