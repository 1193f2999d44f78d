//! Decimal integers in text: reading them as `str::parse` does, and writing
//! them.
use vstd::prelude::*;
use vstd::string::*;

verus! {

pub open spec fn is_digit(c: char) -> bool {
    '0' <= c <= '9'
}

pub open spec fn all_digits(s: Seq<char>) -> bool {
    forall|i: int| 0 <= i < s.len() ==> is_digit(#[trigger] s[i])
}

pub open spec fn digit_value(c: char) -> int {
    c as int - '0' as int
}

/// The value of a string of decimal digits.
pub open spec fn digits_value(s: Seq<char>) -> int
    decreases s.len(),
{
    if s.len() == 0 {
        0
    } else {
        digits_value(s.drop_last()) * 10 + digit_value(s.last())
    }
}

/// The integer that `s` writes: an optional sign (`-` only where `signed`)
/// and at least one digit.
pub open spec fn parsed_integer(s: Seq<char>, signed: bool) -> Option<int> {
    let negative = signed && s.len() > 0 && s[0] == '-';
    let d = if s.len() > 0 && (s[0] == '+' || negative) {
        s.skip(1)
    } else {
        s
    };
    if d.len() > 0 && all_digits(d) {
        Some(if negative { -digits_value(d) } else { digits_value(d) })
    } else {
        None
    }
}

/// What `str::parse::<u64>` gives for `s`.
pub open spec fn parsed_u64(s: Seq<char>) -> Option<u64> {
    match parsed_integer(s, false) {
        Some(v) => if v <= u64::MAX {
            Some(v as u64)
        } else {
            None
        },
        None => None,
    }
}

proof fn lemma_digits_value_nonneg(s: Seq<char>)
    requires
        all_digits(s),
    ensures
        digits_value(s) >= 0,
    decreases s.len(),
{
    if s.len() > 0 {
        lemma_digits_value_nonneg(s.drop_last());
    }
}

proof fn lemma_digits_value_grows(s: Seq<char>, k: int)
    requires
        all_digits(s),
        0 <= k <= s.len(),
    ensures
        digits_value(s.take(k)) <= digits_value(s),
    decreases s.len() - k,
{
    if k < s.len() {
        lemma_digits_value_grows(s, k + 1);
        assert(s.take(k + 1).drop_last() =~= s.take(k));
        lemma_digits_value_nonneg(s.take(k));
    } else {
        assert(s.take(k) =~= s);
    }
}

/// The magnitude of the digits `s[lo..hi]`, where all are digits and it is at
/// most `bound`; `None` otherwise.
fn digits_up_to(s: &Vec<char>, lo: usize, hi: usize, bound: u128) -> (r: Option<u128>)
    requires
        lo <= hi <= s@.len(),
    ensures
        r is Some <==> all_digits(s@.subrange(lo as int, hi as int)) && digits_value(
            s@.subrange(lo as int, hi as int),
        ) <= bound,
        r is Some ==> r->0 == digits_value(s@.subrange(lo as int, hi as int)),
{
    let ghost d = s@.subrange(lo as int, hi as int);
    let mut v: u128 = 0;
    let mut i: usize = lo;
    while i < hi
        invariant
            d == s@.subrange(lo as int, hi as int),
            lo <= i <= hi <= s@.len(),
            all_digits(d.take(i - lo)),
            v == digits_value(d.take(i - lo)),
            v <= bound,
        decreases hi - i,
    {
        let c = s[i];
        assert(d.take(i - lo + 1).drop_last() =~= d.take(i - lo));
        assert(d[i - lo] == c);
        if !('0' <= c && c <= '9') {
            assert(!all_digits(d)) by {
                assert(!is_digit(d[i - lo]));
            }
            return None;
        }
        let dv = (c as u32 - '0' as u32) as u128;
        if dv > bound || v > (bound - dv) / 10 {
            proof {
                assert(all_digits(d.take(i - lo + 1)));
                if dv <= bound {
                    assert(v * 10 + dv > bound) by (nonlinear_arith)
                        requires
                            v > (bound - dv) / 10,
                            dv <= bound,
                    ;
                }
                if all_digits(d) {
                    lemma_digits_value_grows(d, i - lo + 1);
                }
            }
            return None;
        }
        proof {
            assert(v * 10 + dv <= bound) by (nonlinear_arith)
                requires
                    v <= (bound - dv) / 10,
                    dv <= bound,
            ;
        }
        v = v * 10 + dv;
        i = i + 1;
    }
    assert(d.take(hi - lo) =~= d);
    Some(v)
}


/// The largest magnitude that [`parse_integer`] reports; every integer type
/// up to 64 bits lies within it.
pub const MAGNITUDE_LIMIT: u128 = 0x1_0000_0000_0000_0000;

/// `parsed_integer`, where its magnitude is at most [`MAGNITUDE_LIMIT`].
pub open spec fn bounded_integer(s: Seq<char>, signed: bool) -> Option<int> {
    match parsed_integer(s, signed) {
        Some(v) => if -(MAGNITUDE_LIMIT as int) <= v <= MAGNITUDE_LIMIT as int {
            Some(v)
        } else {
            None
        },
        None => None,
    }
}

/// Reads the integer written by `s[lo..hi]`: an optional sign (`-` only
/// where `signed`) and at least one digit.
pub fn parse_integer(s: &Vec<char>, lo: usize, hi: usize, signed: bool) -> (r: Option<i128>)
    requires
        lo <= hi <= s@.len(),
    ensures
        r is Some <==> bounded_integer(s@.subrange(lo as int, hi as int), signed) is Some,
        r is Some ==> r->0 == bounded_integer(s@.subrange(lo as int, hi as int), signed)->0,
{
    let ghost t = s@.subrange(lo as int, hi as int);
    if lo == hi {
        return None;
    }
    let first = s[lo];
    let negative = signed && first == '-';
    let start = if first == '+' || negative {
        lo + 1
    } else {
        lo
    };
    assert(t[0] == first);
    let ghost d = if t.len() > 0 && (t[0] == '+' || negative) {
        t.skip(1)
    } else {
        t
    };
    assert(d =~= s@.subrange(start as int, hi as int));
    if start == hi {
        return None;
    }
    match digits_up_to(s, start, hi, MAGNITUDE_LIMIT) {
        Some(m) => {
            if negative {
                Some(-(m as i128))
            } else {
                Some(m as i128)
            }
        },
        None => {
            proof {
                if all_digits(d) {
                    lemma_digits_value_nonneg(d);
                }
            }
            None
        },
    }
}

/// Reads `s[lo..hi]` as `str::parse::<u64>` does.
pub fn parse_u64(s: &Vec<char>, lo: usize, hi: usize) -> (r: Option<u64>)
    requires
        lo <= hi <= s@.len(),
    ensures
        r == parsed_u64(s@.subrange(lo as int, hi as int)),
{
    let ghost t = s@.subrange(lo as int, hi as int);
    proof {
        if t.len() > 0 {
            let d = if t[0] == '+' { t.skip(1) } else { t };
            if all_digits(d) {
                lemma_digits_value_nonneg(d);
            }
        }
    }
    match parse_integer(s, lo, hi, false) {
        Some(v) => {
            if v <= u64::MAX as i128 {
                Some(v as u64)
            } else {
                None
            }
        },
        None => None,
    }
}


/// The decimal digit for `d < 10`.
pub open spec fn digit_char(d: int) -> char {
    if d == 0 {
        '0'
    } else if d == 1 {
        '1'
    } else if d == 2 {
        '2'
    } else if d == 3 {
        '3'
    } else if d == 4 {
        '4'
    } else if d == 5 {
        '5'
    } else if d == 6 {
        '6'
    } else if d == 7 {
        '7'
    } else if d == 8 {
        '8'
    } else {
        '9'
    }
}

/// `n` in decimal, without leading zeros.
pub open spec fn decimal_text(n: nat) -> Seq<char>
    decreases n,
{
    if n < 10 {
        seq![digit_char(n as int)]
    } else {
        decimal_text((n / 10) as nat) + seq![digit_char((n % 10) as int)]
    }
}

fn digit_str(d: u64) -> (r: &'static str)
    requires
        d < 10,
    ensures
        r@ == seq![digit_char(d as int)],
{
    proof {
        reveal_strlit("0");
        reveal_strlit("1");
        reveal_strlit("2");
        reveal_strlit("3");
        reveal_strlit("4");
        reveal_strlit("5");
        reveal_strlit("6");
        reveal_strlit("7");
        reveal_strlit("8");
        reveal_strlit("9");
    }
    if d == 0 {
        "0"
    } else if d == 1 {
        "1"
    } else if d == 2 {
        "2"
    } else if d == 3 {
        "3"
    } else if d == 4 {
        "4"
    } else if d == 5 {
        "5"
    } else if d == 6 {
        "6"
    } else if d == 7 {
        "7"
    } else if d == 8 {
        "8"
    } else {
        "9"
    }
}

/// Appends `n` in decimal to `out`.
pub fn write_decimal(out: &mut String, n: u64)
    ensures
        final(out)@ == old(out)@ + decimal_text(n as nat),
    decreases n,
{
    if n >= 10 {
        write_decimal(out, n / 10);
    }
    out.append(digit_str(n % 10));
    proof {
        if n >= 10 {
            assert(old(out)@ + decimal_text((n / 10) as nat) + seq![digit_char((n % 10) as int)]
                =~= old(out)@ + decimal_text(n as nat));
        } else {
            assert(n % 10 == n);
        }
    }
}

} // verus!
