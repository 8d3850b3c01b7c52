use vstd::prelude::*;

verus! {

/// Fixed-point units per millimetre: lengths are held in nanometres.
pub const UNITS_PER_MM: i64 = 1_000_000;

/// Number of fraction digits that `UNITS_PER_MM` resolves.
pub const FRACTION_DIGITS: usize = 6;

/// Largest magnitude, in units, of a number or a coordinate (a thousand kilometres).
pub const LIMIT: i64 = 1_000_000_000_000_000;

/// Largest integer part, in millimetres, that a number within `LIMIT` can have.
pub const LIMIT_MM: u64 = 1_000_000_000;

/// Why a text is not a number that the library can hold.
#[derive(Clone, Copy, Debug, PartialEq, Eq, Structural)]
pub enum DecimalError {
    /// The text is no decimal number.
    Malformed,
    /// A decimal number whose magnitude exceeds `LIMIT`.
    TooLarge,
}

pub open spec fn within_limit(v: int) -> bool {
    -LIMIT <= v <= LIMIT
}

/// Whether `b` is an ASCII decimal digit.
pub open spec fn is_digit(b: u8) -> bool {
    48 <= b <= 57
}

pub open spec fn all_digits(s: Seq<u8>) -> bool {
    forall|i: int| 0 <= i < s.len() ==> is_digit(#[trigger] s[i])
}

/// The value of a string of decimal digits.
pub open spec fn digits_value(s: Seq<u8>) -> nat
    decreases s.len(),
{
    if s.len() == 0 {
        0
    } else {
        digits_value(s.drop_last()) * 10 + (s.last() - 48) as nat
    }
}

pub open spec fn pow10(n: nat) -> nat
    decreases n,
{
    if n == 0 {
        1
    } else {
        10 * pow10((n - 1) as nat)
    }
}

/// Units that the fraction digits `f` stand for: digits past the sixth are
/// below one unit and are dropped.
pub open spec fn fraction_units(f: Seq<u8>) -> nat {
    if f.len() >= FRACTION_DIGITS {
        digits_value(f.subrange(0, FRACTION_DIGITS as int))
    } else {
        digits_value(f) * pow10((FRACTION_DIGITS - f.len()) as nat)
    }
}

/// Number of leading digits of `u`.
pub open spec fn int_len(u: Seq<u8>) -> nat
    decreases u.len(),
{
    if u.len() > 0 && is_digit(u[0]) {
        1 + int_len(u.drop_first())
    } else {
        0
    }
}

pub open spec fn has_sign(t: Seq<u8>) -> bool {
    t.len() > 0 && (t[0] == 43u8 || t[0] == 45u8)
}

pub open spec fn is_negative(t: Seq<u8>) -> bool {
    t.len() > 0 && t[0] == 45u8
}

pub open spec fn magnitude_text(t: Seq<u8>) -> Seq<u8> {
    if has_sign(t) {
        t.drop_first()
    } else {
        t
    }
}

/// The value in units of a decimal number `[+|-] digits [. digits]` with at
/// least one digit; `None` for any other text.
pub open spec fn decimal_value(t: Seq<u8>) -> Option<int> {
    let u = magnitude_text(t);
    let k = int_len(u) as int;
    let ip = u.subrange(0, k);
    let rest = u.subrange(k, u.len() as int);
    let fp = if rest.len() > 0 {
        rest.drop_first()
    } else {
        rest
    };
    let mag = digits_value(ip) * (UNITS_PER_MM as nat) + fraction_units(fp);
    if (rest.len() == 0 || (rest[0] == 46u8 && all_digits(fp))) && ip.len() + fp.len() > 0 {
        Some(
            if is_negative(t) {
                -mag
            } else {
                mag as int
            },
        )
    } else {
        None
    }
}

proof fn lemma_int_len_bound(u: Seq<u8>)
    ensures
        int_len(u) <= u.len(),
        all_digits(u.subrange(0, int_len(u) as int)),
    decreases u.len(),
{
    if u.len() > 0 && is_digit(u[0]) {
        lemma_int_len_bound(u.drop_first());
        let k = int_len(u) as int;
        assert forall|j: int| 0 <= j < k implies is_digit(#[trigger] u.subrange(0, k)[j]) by {
            if j > 0 {
                assert(u.subrange(0, k)[j] == u.drop_first().subrange(0, k - 1)[j - 1]);
            }
        }
    }
}

proof fn lemma_pow10_small(c: nat)
    requires
        c <= FRACTION_DIGITS,
    ensures
        pow10(c) <= 1_000_000,
        c == FRACTION_DIGITS ==> pow10(c) == 1_000_000,
{
    reveal_with_fuel(pow10, 7);
}

fn is_digit_byte(b: u8) -> (r: bool)
    ensures
        r == is_digit(b),
{
    48 <= b && b <= 57
}

/// Scans the leading digits of `t[start..]`. The flag is set when their
/// value exceeds `LIMIT_MM`; the value is exact only when it is not.
fn scan_integer_part(t: &[u8], start: usize) -> (r: (usize, u64, bool))
    requires
        start <= t@.len(),
    ensures
        ({
            let u = t@.subrange(start as int, t@.len() as int);
            let k = int_len(u) as int;
            let (i, ip, big) = r;
            &&& i == start + k
            &&& big ==> digits_value(u.subrange(0, k)) > LIMIT_MM
            &&& !big ==> ip == digits_value(u.subrange(0, k)) && ip <= LIMIT_MM
        }),
{
    let n = t.len();
    let mut i: usize = start;
    let ghost u = t@.subrange(start as int, n as int);
    let mut ip: u64 = 0;
    let mut big = false;
    while i < n && is_digit_byte(t[i])
        invariant
            start <= i <= n,
            n == t@.len(),
            u == t@.subrange(start as int, n as int),
            int_len(u) == (i - start) + int_len(t@.subrange(i as int, n as int)),
            big ==> digits_value(t@.subrange(start as int, i as int)) > LIMIT_MM,
            !big ==> ip == digits_value(t@.subrange(start as int, i as int)) && ip <= LIMIT_MM,
        decreases n - i,
    {
        assert(t@.subrange(i as int, n as int).drop_first() =~= t@.subrange(i + 1, n as int));
        assert(t@.subrange(start as int, i + 1).drop_last() =~= t@.subrange(
            start as int,
            i as int,
        ));
        if !big {
            ip = ip * 10 + (t[i] - 48) as u64;
            if ip > LIMIT_MM {
                big = true;
            }
        }
        i = i + 1;
    }
    assert(int_len(t@.subrange(i as int, n as int)) == 0);
    assert(u.subrange(0, i - start) =~= t@.subrange(start as int, i as int));
    (i, ip, big)
}

/// Units that the digits `t[lo..]` stand for as a fraction; `None` unless all are digits.
fn scan_fraction(t: &[u8], lo: usize) -> (r: Option<u64>)
    requires
        lo <= t@.len(),
    ensures
        ({
            let f = t@.subrange(lo as int, t@.len() as int);
            match r {
                Some(v) => all_digits(f) && v == fraction_units(f) && v < 1_000_000,
                None => !all_digits(f),
            }
        }),
{
    let n = t.len();
    let ghost f = t@.subrange(lo as int, n as int);
    let mut frac: u64 = 0;
    let mut count: usize = 0;
    let mut j: usize = lo;
    assert(pow10(0) == 1);
    while j < n
        invariant
            lo <= j <= n,
            n == t@.len(),
            f == t@.subrange(lo as int, n as int),
            all_digits(t@.subrange(lo as int, j as int)),
            count == if j - lo < FRACTION_DIGITS {
                j - lo
            } else {
                FRACTION_DIGITS as int
            },
            frac == digits_value(t@.subrange(lo as int, lo + count)),
            frac < pow10(count as nat),
        decreases n - j,
    {
        if !is_digit_byte(t[j]) {
            assert(f[j - lo] == t@[j as int]);
            return None;
        }
        if count < FRACTION_DIGITS {
            assert(t@.subrange(lo as int, lo + count + 1).drop_last() =~= t@.subrange(
                lo as int,
                lo + count,
            ));
            assert(frac * 10 + (t@[j as int] - 48) < pow10((count + 1) as nat)) by (nonlinear_arith)
                requires
                    frac < pow10(count as nat),
                    pow10((count + 1) as nat) == 10 * pow10(count as nat),
                    t@[j as int] - 48 < 10,
            ;
            proof {
                lemma_pow10_small(count as nat);
            }
            frac = frac * 10 + (t[j] - 48) as u64;
            count = count + 1;
        }
        assert(t@.subrange(lo as int, j + 1).drop_last() =~= t@.subrange(lo as int, j as int));
        j = j + 1;
    }
    assert(t@.subrange(lo as int, j as int) =~= f);
    if n - lo < FRACTION_DIGITS {
        assert(f.subrange(0, count as int) =~= f);
        assert(t@.subrange(lo as int, lo + count) =~= f);
    } else {
        assert(f.subrange(0, FRACTION_DIGITS as int) =~= t@.subrange(lo as int, lo + count));
    }
    let ghost c0 = count;
    let mut units: u64 = frac;
    assert(frac * pow10(0) == frac);
    while count < FRACTION_DIGITS
        invariant
            c0 <= count <= FRACTION_DIGITS,
            units == frac * pow10((count - c0) as nat),
            units < pow10(count as nat),
        decreases FRACTION_DIGITS - count,
    {
        assert(pow10((count + 1 - c0) as nat) == 10 * pow10((count - c0) as nat));
        assert(units * 10 == frac * pow10((count + 1 - c0) as nat)) by (nonlinear_arith)
            requires
                units == frac * pow10((count - c0) as nat),
                pow10((count + 1 - c0) as nat) == 10 * pow10((count - c0) as nat),
        ;
        assert(pow10((count + 1) as nat) == 10 * pow10(count as nat));
        proof {
            lemma_pow10_small(count as nat);
        }
        units = units * 10;
        count = count + 1;
    }
    proof {
        lemma_pow10_small(count as nat);
    }
    Some(units)
}

/// Parses a decimal number into units.
pub fn parse_decimal(t: &[u8]) -> (r: Result<i64, DecimalError>)
    ensures
        match decimal_value(t@) {
            None => r == Err::<i64, DecimalError>(DecimalError::Malformed),
            Some(v) => if within_limit(v) {
                r == Ok::<i64, DecimalError>(v as i64)
            } else {
                r == Err::<i64, DecimalError>(DecimalError::TooLarge)
            },
        },
{
    let n = t.len();
    let negative = n > 0 && t[0] == 45u8;
    let start: usize = if n > 0 && (t[0] == 43u8 || t[0] == 45u8) {
        1
    } else {
        0
    };
    let ghost u = magnitude_text(t@);
    assert(u =~= t@.subrange(start as int, n as int));
    proof {
        lemma_int_len_bound(u);
    }
    let (i, ip, big) = scan_integer_part(t, start);
    let ghost k = (i - start) as int;
    assert(u.subrange(k, u.len() as int) =~= t@.subrange(i as int, n as int));
    let units: u64 = if i < n {
        if t[i] != 46u8 {
            return Err(DecimalError::Malformed);
        }
        assert(t@.subrange(i as int, n as int).drop_first() =~= t@.subrange(i + 1, n as int));
        match scan_fraction(t, i + 1) {
            Some(v) => v,
            None => {
                return Err(DecimalError::Malformed);
            },
        }
    } else {
        assert(t@.subrange(i as int, n as int) =~= Seq::<u8>::empty());
        proof {
            reveal_with_fuel(pow10, 7);
            assert(digits_value(Seq::<u8>::empty()) == 0);
            assert(0 * pow10(6) == 0) by (nonlinear_arith);
            assert(fraction_units(Seq::<u8>::empty()) == 0);
        }
        0
    };
    if i == start && n <= i + 1 {
        return Err(DecimalError::Malformed);
    }
    let ghost rest = u.subrange(k, u.len() as int);
    let ghost fp = if rest.len() > 0 {
        rest.drop_first()
    } else {
        rest
    };
    assert(units == fraction_units(fp));
    assert(rest.len() == 0 || (rest[0] == 46u8 && all_digits(fp)));
    assert(u.subrange(0, k).len() + fp.len() > 0);
    if big {
        proof {
            let full = u.subrange(0, int_len(u) as int);
            assert(digits_value(full) * (UNITS_PER_MM as nat) > LIMIT) by (nonlinear_arith)
                requires
                    digits_value(full) > LIMIT_MM,
            ;
        }
        return Err(DecimalError::TooLarge);
    }
    let mag: u64 = ip * 1_000_000 + units;
    assert(ip == digits_value(u.subrange(0, int_len(u) as int)));
    if mag > LIMIT as u64 {
        return Err(DecimalError::TooLarge);
    }
    if negative {
        Ok(-(mag as i64))
    } else {
        Ok(mag as i64)
    }
}

} // verus!
