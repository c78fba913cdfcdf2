use vstd::prelude::*;
use vstd::string::*;

verus! {

/// Fixed-point numbers carry eight decimal places: the value 1 is `ONE`.
pub const ONE: i64 = 100_000_000;

/// Largest magnitude of a price fed to the indicators, so that the
/// difference of two prices fits in an `i64`.
pub const PRICE_LIMIT: i64 = 4_611_686_018_427_387_903;

/// Decimal places of a fixed-point number.
pub const DECIMALS: usize = 8;

pub open spec fn digit_char(d: int) -> char {
    if d == 0 {
        '0'
    } else if d == 1 {
        '1'
    } else if d == 2 {
        '2'
    } else if d == 3 {
        '3'
    } else if d == 4 {
        '4'
    } else if d == 5 {
        '5'
    } else if d == 6 {
        '6'
    } else if d == 7 {
        '7'
    } else if d == 8 {
        '8'
    } else {
        '9'
    }
}

/// Decimal digits of `n`, without leading zeros ("0" for zero).
pub open spec fn dec(n: nat) -> Seq<char>
    decreases n,
{
    if n < 10 {
        seq![digit_char(n as int)]
    } else {
        dec(n / 10).push(digit_char((n % 10) as int))
    }
}

/// The last `width` decimal digits of `n`, zero-padded.
pub open spec fn dec_width(n: nat, width: nat) -> Seq<char>
    decreases width,
{
    if width == 0 {
        Seq::empty()
    } else {
        dec_width(n / 10, (width - 1) as nat).push(digit_char((n % 10) as int))
    }
}

/// A non-negative fixed-point value with all eight decimals: "12.50000000".
pub open spec fn fixed_text(v: nat) -> Seq<char> {
    dec(v / (ONE as nat)) + seq!['.'] + dec_width(v % (ONE as nat), DECIMALS as nat)
}

fn digit_str(d: u64) -> (r: &'static str)
    requires
        d < 10,
    ensures
        r@ == seq![digit_char(d as int)],
{
    proof {
        reveal_strlit("0");
        reveal_strlit("1");
        reveal_strlit("2");
        reveal_strlit("3");
        reveal_strlit("4");
        reveal_strlit("5");
        reveal_strlit("6");
        reveal_strlit("7");
        reveal_strlit("8");
        reveal_strlit("9");
    }
    if d == 0 {
        "0"
    } else if d == 1 {
        "1"
    } else if d == 2 {
        "2"
    } else if d == 3 {
        "3"
    } else if d == 4 {
        "4"
    } else if d == 5 {
        "5"
    } else if d == 6 {
        "6"
    } else if d == 7 {
        "7"
    } else if d == 8 {
        "8"
    } else {
        "9"
    }
}

/// Appends the decimal digits of `n`.
pub fn push_dec(s: &mut String, n: u64)
    ensures
        final(s)@ == old(s)@ + dec(n as nat),
    decreases n,
{
    if n >= 10 {
        push_dec(s, n / 10);
    }
    s.append(digit_str(n % 10));
    proof {
        assert(final(s)@ =~= old(s)@ + dec(n as nat));
    }
}

/// Appends the last `width` decimal digits of `n`, zero-padded.
fn push_dec_width(s: &mut String, n: u64, width: usize)
    ensures
        final(s)@ == old(s)@ + dec_width(n as nat, width as nat),
    decreases width,
{
    if width == 0 {
        proof {
            assert(final(s)@ =~= old(s)@ + dec_width(n as nat, width as nat));
        }
        return;
    }
    push_dec_width(s, n / 10, width - 1);
    s.append(digit_str(n % 10));
    proof {
        assert(final(s)@ =~= old(s)@ + dec_width(n as nat, width as nat));
    }
}

/// Appends a non-negative fixed-point value with all eight decimals.
pub fn push_fixed(s: &mut String, v: i64)
    requires
        v >= 0,
    ensures
        final(s)@ == old(s)@ + fixed_text(v as nat),
{
    push_dec(s, (v / ONE) as u64);
    proof {
        reveal_strlit(".");
    }
    s.append(".");
    push_dec_width(s, (v % ONE) as u64, DECIMALS);
    proof {
        assert(final(s)@ =~= old(s)@ + fixed_text(v as nat));
    }
}

pub open spec fn is_digit(c: char) -> bool {
    '0' <= c <= '9'
}

pub open spec fn digit_val(c: char) -> int {
    c as int - '0' as int
}

pub open spec fn all_digits(s: Seq<char>) -> bool {
    forall|i: int| 0 <= i < s.len() ==> is_digit(#[trigger] s[i])
}

/// The number that a string of decimal digits spells.
pub open spec fn digits_value(s: Seq<char>) -> nat
    decreases s.len(),
{
    if s.len() == 0 {
        0
    } else {
        (digits_value(s.drop_last()) * 10 + digit_val(s.last())) as nat
    }
}

pub open spec fn pow10(k: nat) -> nat
    decreases k,
{
    if k == 0 {
        1
    } else {
        10 * pow10((k - 1) as nat)
    }
}

/// `d` is the position of the first '.' of `s`.
pub open spec fn first_dot_at(s: Seq<char>, d: int) -> bool {
    &&& 0 <= d < s.len()
    &&& s[d] == '.'
    &&& forall|j: int| 0 <= j < d ==> s[j] != '.'
}

/// The fixed-point value that `s` spells: digits, then optionally a '.' and
/// one to eight more digits. `None` for any other text.
pub open spec fn decimal_value(s: Seq<char>) -> Option<int> {
    if exists|d: int| first_dot_at(s, d) {
        let d = choose|d: int| first_dot_at(s, d);
        let ip = s.subrange(0, d);
        let fp = s.subrange(d + 1, s.len() as int);
        if ip.len() > 0 && all_digits(ip) && 0 < fp.len() <= DECIMALS && all_digits(fp) {
            Some(digits_value(ip) * ONE + digits_value(fp) * pow10((DECIMALS - fp.len()) as nat))
        } else {
            None
        }
    } else if s.len() > 0 && all_digits(s) {
        Some(digits_value(s) * ONE)
    } else {
        None
    }
}

/// Cap on the integer part while it is read; anything this large is out of
/// range anyway.
pub(crate) const INT_PART_CAP: u128 = 100_000_000_000_000_000_000;

pub open spec fn min_int(a: int, b: int) -> int {
    if a < b { a } else { b }
}

proof fn lemma_digits_step(s: Seq<char>, i: int)
    requires
        0 <= i < s.len(),
        is_digit(s[i]),
    ensures
        digits_value(s.subrange(0, i + 1)) == digits_value(s.subrange(0, i)) * 10 + digit_val(s[i]),
{
    assert(s.subrange(0, i + 1).drop_last() =~= s.subrange(0, i));
    assert(s.subrange(0, i + 1).last() == s[i]);
}

proof fn lemma_pow10_bound(k: nat)
    requires
        k <= 8,
    ensures
        1 <= pow10(k) <= 100_000_000,
{
    reveal_with_fuel(pow10, 9);
}

/// Value of the digits of `s` from `lo` to `hi`, read left to right, capped at
/// `INT_PART_CAP`; `None` if one of them is not a digit.
pub(crate) fn read_digits(s: &str, lo: usize, hi: usize) -> (r: Option<u128>)
    requires
        lo <= hi <= s@.len(),
    ensures
        r is None <==> !all_digits(s@.subrange(lo as int, hi as int)),
        r matches Some(v) ==> v == min_int(digits_value(s@.subrange(lo as int, hi as int)) as int, INT_PART_CAP as int),
{
    let ghost t = s@.subrange(lo as int, hi as int);
    let mut acc: u128 = 0;
    let mut i: usize = lo;
    while i < hi
        invariant
            lo <= i <= hi <= s@.len(),
            t == s@.subrange(lo as int, hi as int),
            all_digits(t.subrange(0, i - lo)),
            acc == min_int(digits_value(t.subrange(0, i - lo)) as int, INT_PART_CAP as int),
        decreases hi - i,
    {
        let c = s.get_char(i);
        if !('0' <= c && c <= '9') {
            assert(!is_digit(t[i - lo]));
            return None;
        }
        proof {
            lemma_digits_step(t, i - lo);
            assert(t.subrange(0, i - lo + 1) =~= t.subrange(0, i - lo).push(c));
        }
        let d = (c as u32 - '0' as u32) as u128;
        if acc >= INT_PART_CAP / 10 {
            acc = INT_PART_CAP;
        } else {
            acc = acc * 10 + d;
            if acc > INT_PART_CAP {
                acc = INT_PART_CAP;
            }
        }
        i = i + 1;
    }
    proof {
        assert(t.subrange(0, hi - lo) =~= t);
    }
    Some(acc)
}

/// Reads a non-negative decimal with at most eight decimals into fixed
/// point; `None` when the text is not such a number or it does not fit.
pub fn parse_fixed(s: &str) -> (r: Option<i64>)
    ensures
        r matches Some(v) ==> decimal_value(s@) == Some(v as int),
        r is None ==> decimal_value(s@) is None || decimal_value(s@).unwrap() > i64::MAX,
{
    let n = s.unicode_len();
    let mut d: usize = 0;
    while d < n && s.get_char(d) != '.'
        invariant
            n == s@.len(),
            d <= n,
            forall|j: int| 0 <= j < d ==> s@[j] != '.',
        decreases n - d,
    {
        d = d + 1;
    }
    let ghost sv = s@;
    if d == n {
        proof {
            assert(!exists|e: int| first_dot_at(sv, e));
            assert(sv.subrange(0, n as int) =~= sv);
        }
        if n == 0 {
            return None;
        }
        let ip = read_digits(s, 0, n);
        match ip {
            None => None,
            Some(v) => {
                if v > (i64::MAX as u128) / (ONE as u128) {
                    proof {
                        let m = i64::MAX as int;
                        let o = ONE as int;
                        assert(digits_value(sv) * o > m) by (nonlinear_arith)
                            requires digits_value(sv) >= v, v > m / o, o > 0;
                    }
                    None
                } else {
                    proof {
                        assert(v * (ONE as u128) <= i64::MAX) by (nonlinear_arith)
                            requires v <= (i64::MAX as u128) / (ONE as u128);
                    }
                    Some((v * (ONE as u128)) as i64)
                }
            },
        }
    } else {
        proof {
            assert(first_dot_at(sv, d as int));
            let e = choose|e: int| first_dot_at(sv, e);
            assert(e == d) by {
                if e < d {
                    assert(sv[e] != '.');
                } else if e > d {
                    assert(sv[d as int] != '.');
                }
            }
        }
        if d == 0 || n - d - 1 == 0 || n - d - 1 > DECIMALS {
            return None;
        }
        let ip = read_digits(s, 0, d);
        let fp = read_digits(s, d + 1, n);
        match (ip, fp) {
            (Some(iv), Some(fv)) => {
                let flen = n - d - 1;
                let mut scale: u128 = 1;
                let mut k: usize = flen;
                proof {
                    lemma_pow10_bound((DECIMALS - flen) as nat);
                }
                while k < DECIMALS
                    invariant
                        flen <= k <= DECIMALS,
                        scale * pow10((DECIMALS - k) as nat) == pow10((DECIMALS - flen) as nat),
                        scale <= pow10((DECIMALS - flen) as nat),
                        pow10((DECIMALS - flen) as nat) <= 100_000_000,
                    decreases DECIMALS - k,
                {
                    proof {
                        lemma_pow10_bound((DECIMALS - k - 1) as nat);
                        assert(pow10((DECIMALS - k) as nat) == 10 * pow10((DECIMALS - k - 1) as nat));
                        assert(scale * 10 * pow10((DECIMALS - k - 1) as nat) == pow10((DECIMALS - flen) as nat)) by (nonlinear_arith)
                            requires scale * pow10((DECIMALS - k) as nat) == pow10((DECIMALS - flen) as nat),
                                pow10((DECIMALS - k) as nat) == 10 * pow10((DECIMALS - k - 1) as nat);
                        assert(scale * 10 <= pow10((DECIMALS - flen) as nat)) by (nonlinear_arith)
                            requires scale * 10 * pow10((DECIMALS - k - 1) as nat) == pow10((DECIMALS - flen) as nat),
                                pow10((DECIMALS - k - 1) as nat) >= 1;
                        lemma_pow10_bound((DECIMALS - k - 1) as nat);
                    }
                    scale = scale * 10;
                    k = k + 1;
                }
                let ghost ipv = sv.subrange(0, d as int);
                let ghost fpv = sv.subrange(d + 1, n as int);
                proof {
                    lemma_digits_below_pow(fpv);
                    lemma_pow10_bound(fpv.len());
                    assert(k == DECIMALS);
                    assert(pow10(0) == 1);
                    assert(scale * pow10(0) == pow10((DECIMALS - flen) as nat));
                    assert(scale == pow10((DECIMALS - flen) as nat));
                }
                if iv > (i64::MAX as u128) / (ONE as u128) {
                    proof {
                        let m = i64::MAX as int;
                        let o = ONE as int;
                        assert(digits_value(ipv) * o > m) by (nonlinear_arith)
                            requires digits_value(ipv) >= iv, iv > m / o, o > 0;
                    }
                    return None;
                }
                proof {
                    assert(iv == digits_value(ipv));
                    assert(fv == digits_value(fpv));
                    assert(iv * (ONE as u128) <= i64::MAX) by (nonlinear_arith)
                        requires iv <= (i64::MAX as u128) / (ONE as u128);
                    assert(fv * scale <= 100_000_000 * 100_000_000) by (nonlinear_arith)
                        requires fv < 100_000_000, scale <= 100_000_000;
                }
                let total: u128 = iv * (ONE as u128) + fv * scale;
                if total > i64::MAX as u128 {
                    None
                } else {
                    Some(total as i64)
                }
            },
            _ => None,
        }
    }
}

proof fn lemma_digits_below_pow(s: Seq<char>)
    requires
        all_digits(s),
    ensures
        digits_value(s) < pow10(s.len()),
    decreases s.len(),
{
    if s.len() > 0 {
        assert(all_digits(s.drop_last())) by {
            assert forall|i: int| 0 <= i < s.drop_last().len() implies is_digit(#[trigger] s.drop_last()[i]) by {
                assert(s.drop_last()[i] == s[i]);
            }
        }
        lemma_digits_below_pow(s.drop_last());
        assert(is_digit(s[s.len() - 1]));
        assert(pow10(s.len()) == 10 * pow10((s.len() - 1) as nat));
    }
}

} // verus!
