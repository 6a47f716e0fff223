//! Counts given on the command line: an optional `-`, decimal digits and an
//! optional magnitude suffix, read into a native unsigned value and a sign flag.

use vstd::prelude::*;
use vstd::string::*;

verus! {

/// Why a count could not be read.
#[derive(Debug, Clone, Copy, PartialEq, Eq, Structural)]
pub enum NumError {
    /// The text is not an optional `-`, digits and an optional suffix.
    InvalidNumber,
    /// The value does not fit in a `usize`.
    NumericOverflow,
}

pub open spec fn is_digit(c: char) -> bool {
    '0' <= c && c <= '9'
}

pub open spec fn digit_value(c: char) -> nat {
    ((c as u32) - 48) as nat
}

/// The value of a run of decimal digits.
pub open spec fn digits_value(ds: Seq<char>) -> nat
    decreases ds.len(),
{
    if ds.len() == 0 {
        0
    } else {
        digits_value(ds.drop_last()) * 10 + digit_value(ds.last())
    }
}

/// `b` to the power `e`.
pub open spec fn power(b: nat, e: nat) -> nat
    decreases e,
{
    if e == 0 {
        1
    } else {
        b * power(b, (e - 1) as nat)
    }
}

/// The end of the run of digits that starts at `i`.
pub open spec fn digits_end(s: Seq<char>, i: int) -> int
    decreases s.len() - i,
{
    if i < 0 || i >= s.len() || !is_digit(s[i]) {
        i
    } else {
        digits_end(s, i + 1)
    }
}

/// The rank of a magnitude letter: 1 for k/K (kilo) up to 8 for y/Y (yotta), 0 for
/// any other character.
pub open spec fn rank_of(c: char) -> nat {
    if c == 'k' || c == 'K' {
        1
    } else if c == 'm' || c == 'M' {
        2
    } else if c == 'g' || c == 'G' {
        3
    } else if c == 't' || c == 'T' {
        4
    } else if c == 'p' || c == 'P' {
        5
    } else if c == 'e' || c == 'E' {
        6
    } else if c == 'z' || c == 'Z' {
        7
    } else if c == 'y' || c == 'Y' {
        8
    } else {
        0
    }
}

pub open spec fn is_upper(c: char) -> bool {
    'A' <= c && c <= 'Z'
}

/// The multiplier that a suffix selects, as a base and an exponent: none for
/// the empty suffix, 512 for `b`, 1000 to the rank for an upper-case letter or
/// a letter followed by `B`, 1024 to the rank for a lower-case letter alone.
pub open spec fn suffix_factor(sfx: Seq<char>) -> Option<(nat, nat)> {
    if sfx.len() == 0 {
        Some((1, 0))
    } else if sfx.len() == 1 {
        if sfx[0] == 'b' {
            Some((512, 1))
        } else if rank_of(sfx[0]) == 0 {
            None
        } else if is_upper(sfx[0]) {
            Some((1000, rank_of(sfx[0])))
        } else {
            Some((1024, rank_of(sfx[0])))
        }
    } else if sfx.len() == 2 && rank_of(sfx[0]) > 0 && sfx[1] == 'B' {
        Some((1000, rank_of(sfx[0])))
    } else {
        None
    }
}

/// The length of the sign: 1 where `s` starts with `-`.
pub open spec fn sign_len(s: Seq<char>) -> int {
    if s.len() > 0 && s[0] == '-' {
        1
    } else {
        0
    }
}

/// What a count reads as: its magnitude and whether it has no `-`.
pub open spec fn count_of(s: Seq<char>) -> Result<(usize, bool), NumError> {
    let b = sign_len(s);
    let e = digits_end(s, b);
    match suffix_factor(s.skip(e)) {
        None => Err(NumError::InvalidNumber),
        Some((base, exp)) => {
            if e == b {
                Err(NumError::InvalidNumber)
            } else if digits_value(s.subrange(b, e)) * power(base, exp) > usize::MAX {
                Err(NumError::NumericOverflow)
            } else {
                Ok(((digits_value(s.subrange(b, e)) * power(base, exp)) as usize, b == 0))
            }
        },
    }
}

/// The text with white space taken off both ends.
pub uninterp spec fn trimmed(s: Seq<char>) -> Seq<char>;

/// Relies on `str::trim`: leading and trailing white space removed, which
/// depends on the characters alone.
#[verifier::external_body]
fn trim_str(s: &str) -> (r: &str)
    ensures
        r@ == trimmed(s@),
{
    s.trim()
}

proof fn lemma_digits_end_bounds(s: Seq<char>, i: int)
    requires
        0 <= i <= s.len(),
    ensures
        i <= digits_end(s, i) <= s.len(),
    decreases s.len() - i,
{
    if i < s.len() && is_digit(s[i]) {
        lemma_digits_end_bounds(s, i + 1);
    }
}

proof fn lemma_power_positive(b: nat, e: nat)
    requires
        b >= 1,
    ensures
        power(b, e) >= 1,
    decreases e,
{
    if e > 0 {
        lemma_power_positive(b, (e - 1) as nat);
        assert(b * power(b, (e - 1) as nat) >= 1) by (nonlinear_arith)
            requires
                b >= 1,
                power(b, (e - 1) as nat) >= 1,
        ;
    }
}

proof fn lemma_power_grows(b: nat, j: nat, e: nat)
    requires
        b >= 1,
        j <= e,
    ensures
        power(b, j) <= power(b, e),
    decreases e - j,
{
    if j < e {
        lemma_power_grows(b, j, (e - 1) as nat);
        let p = power(b, (e - 1) as nat);
        assert(p <= b * p) by (nonlinear_arith)
            requires
                b >= 1,
        ;
    }
}

/// The rank of a magnitude letter.
fn rank(c: char) -> (r: usize)
    ensures
        r == rank_of(c),
{
    if c == 'k' || c == 'K' {
        1
    } else if c == 'm' || c == 'M' {
        2
    } else if c == 'g' || c == 'G' {
        3
    } else if c == 't' || c == 'T' {
        4
    } else if c == 'p' || c == 'P' {
        5
    } else if c == 'e' || c == 'E' {
        6
    } else if c == 'z' || c == 'Z' {
        7
    } else if c == 'y' || c == 'Y' {
        8
    } else {
        0
    }
}

/// Reads a count that has no surrounding white space.
pub fn parse_count(t: &str) -> (r: Result<(usize, bool), NumError>)
    ensures
        r == count_of(t@),
{
    let n = t.unicode_len();
    let mut i: usize = 0;
    if n > 0 && t.get_char(0) == '-' {
        i = 1;
    }
    let start = i;
    let ghost s = t@;
    proof {
        lemma_digits_end_bounds(s, start as int);
    }
    let mut value: usize = 0;
    let mut overflow = false;
    loop
        invariant
            n == s.len(),
            s == t@,
            start == sign_len(s),
            start <= i <= n,
            digits_end(s, start as int) == digits_end(s, i as int),
            overflow ==> digits_value(s.subrange(start as int, i as int)) > usize::MAX,
            !overflow ==> value == digits_value(s.subrange(start as int, i as int)),
        ensures
            start <= i <= n,
            i == digits_end(s, start as int),
            overflow ==> digits_value(s.subrange(start as int, i as int)) > usize::MAX,
            !overflow ==> value == digits_value(s.subrange(start as int, i as int)),
        decreases n - i,
    {
        if i >= n {
            break;
        }
        let c = t.get_char(i);
        if !('0' <= c && c <= '9') {
            break;
        }
        let d = (c as u32 - 48) as usize;
        let ghost before = s.subrange(start as int, i as int);
        assert(s.subrange(start as int, i + 1).drop_last() =~= before);
        if !overflow {
            match value.checked_mul(10) {
                Some(v10) => match v10.checked_add(d) {
                    Some(v) => {
                        value = v;
                    },
                    None => {
                        overflow = true;
                    },
                },
                None => {
                    overflow = true;
                },
            }
        }
        i = i + 1;
    }
    let e = i;
    assert(digits_end(s, start as int) == e as int);
    let ghost sfx = s.skip(e as int);
    let rest = n - e;
    let factor: Option<(usize, usize)> = if rest == 0 {
        Some((1, 0))
    } else {
        let c = t.get_char(e);
        let k = rank(c);
        if rest == 1 {
            if c == 'b' {
                Some((512, 1))
            } else if k == 0 {
                None
            } else if 'A' <= c && c <= 'Z' {
                Some((1000, k))
            } else {
                Some((1024, k))
            }
        } else if rest == 2 && k > 0 && t.get_char(e + 1) == 'B' {
            Some((1000, k))
        } else {
            None
        }
    };
    assert(factor matches Some((b, x)) ==> suffix_factor(sfx) == Some((b as nat, x as nat)));
    assert(factor is None ==> suffix_factor(sfx) is None);
    let (base, exp) = match factor {
        None => {
            return Err(NumError::InvalidNumber);
        },
        Some(f) => f,
    };
    if e == start {
        return Err(NumError::InvalidNumber);
    }
    let ghost dv = digits_value(s.subrange(start as int, e as int));
    proof {
        lemma_power_positive(base as nat, exp as nat);
    }
    if overflow {
        proof {
            let p = power(base as nat, exp as nat);
            assert(dv * p >= dv) by (nonlinear_arith)
                requires
                    p >= 1,
            ;
        }
        return Err(NumError::NumericOverflow);
    }
    let mut r: usize = value;
    let mut j: usize = 0;
    assert(power(base as nat, 0) == 1);
    assert(dv * power(base as nat, 0) == dv) by (nonlinear_arith)
        requires
            power(base as nat, 0) == 1,
    ;
    while j < exp
        invariant
            j <= exp,
            base >= 1,
            r == dv * power(base as nat, j as nat),
            s == t@,
            start == sign_len(s),
            start < e,
            e as int == digits_end(s, start as int),
            sfx == s.skip(e as int),
            dv == digits_value(s.subrange(start as int, e as int)),
            suffix_factor(sfx) == Some((base as nat, exp as nat)),
        decreases exp - j,
    {
        match r.checked_mul(base) {
            Some(x) => {
                proof {
                    let p = power(base as nat, j as nat);
                    assert(power(base as nat, (j + 1) as nat) == base * p);
                    assert(dv * (base * p) == (dv * p) * base) by (nonlinear_arith);
                }
                r = x;
                j = j + 1;
            },
            None => {
                proof {
                    let p = power(base as nat, j as nat);
                    let q = power(base as nat, exp as nat);
                    assert(power(base as nat, (j + 1) as nat) == base * p);
                    lemma_power_grows(base as nat, (j + 1) as nat, exp as nat);
                    assert(dv * q >= (dv * p) * base) by (nonlinear_arith)
                        requires
                            q >= base * p,
                    ;
                }
                return Err(NumError::NumericOverflow);
            },
        }
    }
    Ok((r, start == 0))
}

/// Reads a count, ignoring white space around it.
pub fn parse_num(s: &str) -> (r: Result<(usize, bool), NumError>)
    ensures
        r == count_of(trimmed(s@)),
{
    parse_count(trim_str(s))
}

} // verus!
