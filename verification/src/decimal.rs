//! Whole numbers in decimal notation: how they are written and how they are
//! read, and that reading gives back what was written.

use vstd::prelude::*;

verus! {

/// Whether a character is a decimal digit.
pub open spec fn is_digit(c: char) -> bool {
    '0' <= c && c <= '9'
}

/// The number that a decimal digit stands for.
pub open spec fn digit_value(c: char) -> int {
    c as int - '0' as int
}

/// The decimal digit that stands for a number below ten.
pub open spec fn digit_char(d: int) -> char {
    if d == 0 {
        '0'
    } else if d == 1 {
        '1'
    } else if d == 2 {
        '2'
    } else if d == 3 {
        '3'
    } else if d == 4 {
        '4'
    } else if d == 5 {
        '5'
    } else if d == 6 {
        '6'
    } else if d == 7 {
        '7'
    } else if d == 8 {
        '8'
    } else {
        '9'
    }
}

/// Whether a text is made of decimal digits.
pub open spec fn all_digits(s: Seq<char>) -> bool {
    forall|i: int| 0 <= i < s.len() ==> is_digit(#[trigger] s[i])
}

/// The number that a run of decimal digits stands for.
pub open spec fn digits_value(s: Seq<char>) -> nat
    decreases s.len(),
{
    if s.len() == 0 {
        0
    } else {
        (digits_value(s.drop_last()) * 10 + digit_value(s.last())) as nat
    }
}

/// A natural number in decimal notation, without leading zeros.
pub open spec fn dec_nat(n: nat) -> Seq<char>
    decreases n,
{
    if n < 10 {
        seq![digit_char(n as int)]
    } else {
        dec_nat(n / 10).push(digit_char((n % 10) as int))
    }
}

/// A whole number in decimal notation, with a minus sign if it is negative.
pub open spec fn dec_int(n: int) -> Seq<char> {
    if n < 0 {
        seq!['-'] + dec_nat((-n) as nat)
    } else {
        dec_nat(n as nat)
    }
}

/// The number that a text denotes, if it denotes one between `lo` and `hi`:
/// an optional sign, `+` or `-`, and then one or more decimal digits.
pub open spec fn parse_int(s: Seq<char>, lo: int, hi: int) -> Option<int> {
    if s.len() == 0 {
        None
    } else {
        let body = if s[0] == '-' || s[0] == '+' {
            s.skip(1)
        } else {
            s
        };
        let v = if s[0] == '-' {
            -digits_value(body)
        } else {
            digits_value(body) as int
        };
        if body.len() > 0 && all_digits(body) && lo <= v <= hi {
            Some(v)
        } else {
            None
        }
    }
}

/// The decimal notation of a natural number is made of digits, and they stand
/// for that number.
pub proof fn lemma_dec_nat(n: nat)
    ensures
        dec_nat(n).len() > 0,
        all_digits(dec_nat(n)),
        digits_value(dec_nat(n)) == n,
    decreases n,
{
    if n < 10 {
        let s = dec_nat(n);
        assert(s.drop_last().len() == 0);
        assert(digits_value(s.drop_last()) == 0);
    } else {
        lemma_dec_nat(n / 10);
        let s = dec_nat(n);
        assert(s.drop_last() == dec_nat(n / 10));
        assert(s.last() == digit_char((n % 10) as int));
    }
}

/// Reading the decimal notation of a number gives that number.
pub proof fn lemma_parse_dec_int(n: int, lo: int, hi: int)
    requires
        lo <= n <= hi,
    ensures
        parse_int(dec_int(n), lo, hi) == Some(n),
{
    if n < 0 {
        lemma_dec_nat((-n) as nat);
        assert(dec_int(n).skip(1) == dec_nat((-n) as nat));
    } else {
        lemma_dec_nat(n as nat);
        assert(is_digit(dec_int(n)[0]));
    }
}

/// The characters of a number in decimal notation are digits, but for a minus sign
/// that may come first.
pub proof fn lemma_dec_int_chars(n: int)
    ensures
        dec_int(n).len() > 0,
        forall|i: int|
            0 <= i < dec_int(n).len() ==> is_digit(#[trigger] dec_int(n)[i]) || (i == 0
                && dec_int(n)[i] == '-'),
{
    if n < 0 {
        lemma_dec_nat((-n) as nat);
    } else {
        lemma_dec_nat(n as nat);
    }
}

fn digit(d: u64) -> (c: char)
    requires
        d < 10,
    ensures
        c == digit_char(d as int),
{
    if d == 0 {
        '0'
    } else if d == 1 {
        '1'
    } else if d == 2 {
        '2'
    } else if d == 3 {
        '3'
    } else if d == 4 {
        '4'
    } else if d == 5 {
        '5'
    } else if d == 6 {
        '6'
    } else if d == 7 {
        '7'
    } else if d == 8 {
        '8'
    } else {
        '9'
    }
}

/// Appends a natural number in decimal notation.
pub fn push_nat(out: &mut String, n: u64)
    ensures
        final(out)@ == old(out)@ + dec_nat(n as nat),
    decreases n,
{
    if n >= 10 {
        push_nat(out, n / 10);
    }
    out.push(digit(n % 10));
    proof {
        if n < 10 {
            assert(old(out)@.push(digit_char(n as int)) == old(out)@ + dec_nat(n as nat));
        } else {
            assert((old(out)@ + dec_nat((n / 10) as nat)).push(digit_char((n % 10) as int))
                == old(out)@ + dec_nat(n as nat));
        }
    }
}

/// Appends a whole number in decimal notation.
pub fn push_int(out: &mut String, n: i32)
    ensures
        final(out)@ == old(out)@ + dec_int(n as int),
{
    if n < 0 {
        out.push('-');
        let m: i64 = -(n as i64);
        push_nat(out, m as u64);
        assert(old(out)@.push('-') + dec_nat((-n) as nat) == old(out)@ + (seq!['-'] + dec_nat(
            (-n) as nat,
        )));
    } else {
        push_nat(out, n as u64);
    }
}

/// Reads a whole number between `lo` and `hi` in decimal notation.
pub fn read_int(v: &Vec<char>, lo: i64, hi: i64) -> (r: Option<i64>)
    ensures
        match parse_int(v@, lo as int, hi as int) {
            Some(x) => r == Some(x as i64),
            None => r is None,
        },
{
    if v.len() == 0 {
        return None;
    }
    let neg = v[0] == '-';
    let start: usize = if v[0] == '-' || v[0] == '+' {
        1
    } else {
        0
    };
    let ghost body = v@.skip(start as int);
    assert(v@.skip(0) == v@);
    if start == v.len() {
        return None;
    }
    // the digits read so far stand for `acc`, unless they stand for more
    // than any number that is asked for
    let mut acc: i128 = 0;
    let mut big = false;
    let mut i: usize = start;
    assert(body.take(0).len() == 0);
    while i < v.len()
        invariant
            start <= i <= v.len(),
            v.len() > 0,
            neg == (v@[0] == '-'),
            start == (if v@[0] == '-' || v@[0] == '+' {
                1usize
            } else {
                0usize
            }),
            body == v@.skip(start as int),
            all_digits(body.take(i - start)),
            !big ==> acc == digits_value(body.take(i - start)) && 0 <= acc
                <= 0x8000_0000_0000_0000,
            big ==> digits_value(body.take(i - start)) > 0x8000_0000_0000_0000,
        decreases v.len() - i,
    {
        let c = v[i];
        if !('0' <= c && c <= '9') {
            assert(!is_digit(body[i - start]));
            return None;
        }
        let d: i128 = (c as u32 - '0' as u32) as i128;
        proof {
            let t = body.take(i - start + 1);
            assert(t.drop_last() == body.take(i - start));
            assert(t.last() == c);
            assert(digits_value(t) == digits_value(body.take(i - start)) * 10 + d);
        }
        if !big {
            acc = acc * 10 + d;
            if acc > 0x8000_0000_0000_0000 {
                big = true;
            }
        }
        i += 1;
    }
    assert(body.take(body.len() as int) == body);
    if big {
        return None;
    }
    let val: i128 = if neg {
        -acc
    } else {
        acc
    };
    if lo as i128 <= val && val <= hi as i128 {
        Some(val as i64)
    } else {
        None
    }
}

} // verus!
