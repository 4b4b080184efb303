use vstd::prelude::*;

use crate::algorithms::{
    abs_int, combine_spec, lemma_div_trunc_abs, lemma_mod_bound_nonneg, lemma_pow10_adds,
    lemma_pow10_increases, lemma_pow10_positive, mag_cap, pow10,
};
use crate::cheats::{try_pow10, Cheats};
use crate::decimal::{scale_fits, Decimal};
use crate::integer::{Primitive, ScaledInteger};

verus! {

/// Why a decimal string failed to parse.
#[derive(Debug, PartialEq, Eq)]
pub enum ParseDecimalError<I> {
    /// The input has no `.` separator.
    MissingDecimalPoint,
    /// The combined value does not fit the backing type; carries the
    /// integer and fractional parts as parsed.
    Overflow(I, I),
    /// A part of the input is empty, holds a non-digit, or exceeds the
    /// backing type on its own.
    ParseInt,
    /// The input has more fractional digits than the type keeps; carries
    /// how many it has.
    PrecisionLoss(usize),
}

/// The character for a single decimal digit.
pub open spec fn digit_char(d: int) -> char {
    ((48 + d) as u8) as char
}

/// Whether a character is a decimal digit.
pub open spec fn is_digit_char(c: char) -> bool {
    '0' <= c && c <= '9'
}

/// The numeric value of a digit character.
pub open spec fn char_val(c: char) -> int {
    c as int - 48
}

/// The decimal expansion of `n`, most significant digit first, with no
/// leading zeroes (a single zero for zero itself).
pub open spec fn dec_digits(n: nat) -> Seq<char>
    decreases n,
{
    if n < 10 {
        seq![digit_char(n as int)]
    } else {
        dec_digits(n / 10).push(digit_char((n % 10) as int))
    }
}

/// `k` zero characters.
pub open spec fn zero_chars(k: nat) -> Seq<char> {
    Seq::new(k, |i: int| '0')
}

/// Left-pads a digit string with zeroes to width `w`.
pub open spec fn pad_left(s: Seq<char>, w: nat) -> Seq<char> {
    if s.len() >= w {
        s
    } else {
        zero_chars((w - s.len()) as nat) + s
    }
}

/// The canonical text of the value `v` at `d` fractional digits: an
/// optional minus sign, the integer digits, one dot, and exactly `d`
/// fractional digits (one zero when `d` is zero).
pub open spec fn spec_display(v: int, d: nat) -> Seq<char> {
    let m = abs_int(v) as nat;
    let p = pow10(d) as nat;
    let sign: Seq<char> = if v < 0 {
        seq!['-']
    } else {
        Seq::<char>::empty()
    };
    sign + dec_digits(m / p) + seq!['.'] + pad_left(dec_digits(m % p), d)
}

/// Whether every character of `s` is a decimal digit.
pub open spec fn all_digits(s: Seq<char>) -> bool {
    forall|i: int| 0 <= i < s.len() ==> is_digit_char(#[trigger] s[i])
}

/// The numeric value of a digit string.
pub open spec fn digits_val(s: Seq<char>) -> int
    decreases s.len(),
{
    if s.len() == 0 {
        0
    } else {
        10 * digits_val(s.drop_last()) + char_val(s.last())
    }
}

/// The index of the first `.` in `s`, or minus one if there is none.
pub open spec fn first_dot(s: Seq<char>) -> int
    decreases s.len(),
{
    if s.len() == 0 {
        -1
    } else if s[0] == '.' {
        0
    } else {
        let r = first_dot(s.skip(1));
        if r == -1 {
            -1
        } else {
            r + 1
        }
    }
}

/// The outcome a decimal parse must have, stated over mathematical
/// values.
pub enum Parsed {
    /// The stored backing value of the parsed decimal.
    Value(int),
    /// No `.` separator.
    MissingDot,
    /// A part is empty, holds a non-digit, or exceeds the backing type.
    BadDigits,
    /// The combination does not fit; carries the integer part and the
    /// fractional part (scaled iff scaling had been reached).
    Overflow(int, int),
    /// Too many fractional digits; carries how many.
    Precision(nat),
}

/// What parsing the character sequence `s` at `d` fractional digits into
/// a backing type of range `min..=max` yields: strip one optional minus
/// sign, split at the first dot, read both digit strings, scale the
/// integer part, right-pad the fractional part to `d` digits, combine,
/// and negate in two's complement for a minus sign — or the first error
/// on that road.
pub open spec fn spec_parse(s: Seq<char>, d: nat, min: int, max: int) -> Parsed {
    let neg = s.len() > 0 && s[0] == '-';
    let body = if neg {
        s.skip(1)
    } else {
        s
    };
    let dot = first_dot(body);
    if dot == -1 {
        Parsed::MissingDot
    } else {
        let int_s = body.take(dot);
        let frac_s = body.skip(dot + 1);
        if int_s.len() == 0 || !all_digits(int_s) || digits_val(int_s) > max || frac_s.len() == 0
            || !all_digits(frac_s) || digits_val(frac_s) > max {
            Parsed::BadDigits
        } else {
            let ip = digits_val(int_s);
            let fp = digits_val(frac_s);
            if ip * pow10(d) > mag_cap(min, max) {
                Parsed::Overflow(ip, fp)
            } else if frac_s.len() > d {
                Parsed::Precision(frac_s.len())
            } else {
                let fs = fp * pow10((d - frac_s.len()) as nat);
                match combine_spec(ip * pow10(d) + fs, neg, min, max) {
                    Some(v) => Parsed::Value(v),
                    None => Parsed::Overflow(ip, fs),
                }
            }
        }
    }
}

/// Characterizes `first_dot`: minus one means no dot at all, and a
/// non-negative result is the position of the first dot.
pub proof fn lemma_first_dot_char(s: Seq<char>)
    ensures
        -1 <= first_dot(s) < s.len(),
        first_dot(s) == -1 ==> forall|i: int| 0 <= i < s.len() ==> #[trigger] s[i] != '.',
        first_dot(s) >= 0 ==> 0 <= first_dot(s) < s.len() && s[first_dot(s)] == '.' && forall|
            j: int,
        | 0 <= j < first_dot(s) ==> #[trigger] s[j] != '.',
    decreases s.len(),
{
    if s.len() > 0 && s[0] != '.' {
        let t = s.skip(1);
        lemma_first_dot_char(t);
        if first_dot(t) == -1 {
            assert(first_dot(s) == -1);
            assert forall|i: int| 0 <= i < s.len() implies #[trigger] s[i] != '.' by {
                if i >= 1 {
                    assert(s[i] == t[i - 1]);
                }
            }
        } else {
            assert(first_dot(s) == first_dot(t) + 1);
            assert(s[first_dot(s)] == t[first_dot(t)]);
            assert forall|j: int| 0 <= j < first_dot(s) implies #[trigger] s[j] != '.' by {
                if j >= 1 {
                    assert(s[j] == t[j - 1]);
                }
            }
        }
    }
}

/// If `k` is the position of a dot with no dot before it, then `k` is
/// the first dot.
pub proof fn lemma_first_dot_is(s: Seq<char>, k: int)
    requires
        0 <= k < s.len(),
        s[k] == '.',
        forall|j: int| 0 <= j < k ==> #[trigger] s[j] != '.',
    ensures
        first_dot(s) == k,
    decreases s.len(),
{
    if k > 0 {
        assert(forall|j: int| 0 <= j < k - 1 ==> s.skip(1)[j] == #[trigger] s[j + 1]);
        assert(s.skip(1)[k - 1] == s[k]);
        lemma_first_dot_is(s.skip(1), k - 1);
    }
}

/// A digit string's value is non-negative.
pub proof fn lemma_digits_val_nonneg(s: Seq<char>)
    requires
        all_digits(s),
    ensures
        digits_val(s) >= 0,
    decreases s.len(),
{
    if s.len() > 0 {
        assert(all_digits(s.drop_last())) by {
            assert(forall|i: int|
                0 <= i < s.len() - 1 ==> s.drop_last()[i] == #[trigger] s[i]);
        }
        lemma_digits_val_nonneg(s.drop_last());
    }
}

/// Extending a digit string to the right never shrinks its value.
pub proof fn lemma_digits_val_monotone(s: Seq<char>, k: int)
    requires
        all_digits(s),
        0 <= k <= s.len(),
    ensures
        digits_val(s.take(k)) <= digits_val(s),
    decreases s.len() - k,
{
    assert(all_digits(s.take(k))) by {
        assert(forall|i: int| 0 <= i < k ==> s.take(k)[i] == #[trigger] s[i]);
    }
    if k < s.len() {
        lemma_digits_val_monotone(s, k + 1);
        assert(s.take(k + 1).drop_last() =~= s.take(k));
        assert(digits_val(s.take(k + 1)) == 10 * digits_val(s.take(k)) + char_val(s[k]));
        lemma_digits_val_nonneg(s.take(k));
        assert(is_digit_char(s[k]));
    } else {
        assert(s.take(k) =~= s);
    }
}

/// A digit string's value stays below ten to the power of its length.
pub proof fn lemma_digits_val_bound(s: Seq<char>)
    requires
        all_digits(s),
    ensures
        digits_val(s) < pow10(s.len()),
    decreases s.len(),
{
    if s.len() > 0 {
        assert(all_digits(s.drop_last())) by {
            assert(forall|i: int|
                0 <= i < s.len() - 1 ==> s.drop_last()[i] == #[trigger] s[i]);
        }
        lemma_digits_val_bound(s.drop_last());
        assert(is_digit_char(s.last()));
        assert(pow10(s.len()) == 10 * pow10((s.len() - 1) as nat));
    } else {
        assert(pow10(0) == 1);
    }
}

/// Reads the digit string `s[from..to]` into a backing integer; nothing
/// is returned when the range is empty, holds a non-digit, or exceeds
/// the type.
fn parse_digits<I: Primitive>(s: &str, from: usize, to: usize) -> (r: Option<I>)
    requires
        from <= to <= s@.len(),
    ensures
        ({
            let sub = s@.subrange(from as int, to as int);
            match r {
                Some(v) => sub.len() > 0 && all_digits(sub) && v.as_int() == digits_val(sub)
                    && 0 <= v.as_int() <= I::spec_max(),
                None => sub.len() == 0 || !all_digits(sub) || digits_val(sub) > I::spec_max(),
            }
        }),
{
    let ghost sub = s@.subrange(from as int, to as int);
    if from == to {
        return None;
    }
    let ten: I = I::ten();
    let mut acc: I = I::zero();
    let mut i: usize = from;
    while i < to
        invariant
            from <= i <= to <= s@.len(),
            sub == s@.subrange(from as int, to as int),
            ten.as_int() == 10,
            all_digits(sub.take(i - from)),
            acc.as_int() == digits_val(sub.take(i - from)),
            0 <= acc.as_int(),
        decreases to - i,
    {
        let c = s.get_char(i);
        if !(c >= '0' && c <= '9') {
            proof {
                assert(sub[i - from] == c);
                assert(!all_digits(sub));
            }
            return None;
        }
        let d: u8 = (c as u8) - 48;
        proof {
            assert(sub.take(i + 1 - from).drop_last() =~= sub.take(i - from));
            assert(sub.take(i + 1 - from).last() == c);
            assert(all_digits(sub.take(i + 1 - from))) by {
                assert(forall|j: int|
                    0 <= j < i + 1 - from ==> sub.take(i + 1 - from)[j] == #[trigger] sub[j]);
                assert(forall|j: int|
                    0 <= j < i - from ==> sub.take(i - from)[j] == #[trigger] sub[j]);
                assert(sub[i - from] == c);
            }
            I::lemma_type_facts();
        }
        let step = match acc.checked_mul(ten) {
            Some(t) => t.checked_add(I::from_digit(d)),
            None => None,
        };
        match step {
            Some(next) => {
                acc = next;
            },
            None => {
                proof {
                    assert(digits_val(sub.take(i + 1 - from)) > I::spec_max());
                    if all_digits(sub) {
                        lemma_digits_val_monotone(sub, i + 1 - from);
                    }
                }
                return None;
            },
        }
        i = i + 1;
    }
    proof {
        assert(sub.take(to - from) =~= sub);
        acc.lemma_range();
    }
    Some(acc)
}

impl<I, const D: u8> Decimal<I, D> where I: ScaledInteger<D> {
    /// Parses the canonical decimal text `s` into a value, or reports
    /// the first reason it cannot be one.
    pub fn from_str(s: &str) -> (r: Result<Self, ParseDecimalError<I>>)
        requires
            scale_fits::<I>(D as nat),
        ensures
            ({
                let spec_r = spec_parse(s@, D as nat, I::spec_min(), I::spec_max());
                match r {
                    Ok(v) => spec_r == Parsed::Value(v.0.as_int()),
                    Err(ParseDecimalError::MissingDecimalPoint) => spec_r is MissingDot,
                    Err(ParseDecimalError::ParseInt) => spec_r is BadDigits,
                    Err(ParseDecimalError::PrecisionLoss(p)) => spec_r == Parsed::Precision(
                        p as nat,
                    ),
                    Err(ParseDecimalError::Overflow(ip, fp)) => spec_r == Parsed::Overflow(
                        ip.as_int(),
                        fp.as_int(),
                    ),
                }
            }),
    {
        let ghost neg_spec = s@.len() > 0 && s@[0] == '-';
        let ghost body: Seq<char> = if neg_spec {
            s@.skip(1)
        } else {
            s@
        };
        let n: usize = s.unicode_len();
        let neg: bool = n > 0 && s.get_char(0) == '-';
        let start: usize = if neg {
            1
        } else {
            0
        };
        proof {
            assert(forall|j: int| 0 <= j < body.len() ==> body[j] == #[trigger] s@[j + start]);
        }
        let mut i: usize = start;
        while i < n && s.get_char(i) != '.'
            invariant
                start <= i <= n,
                n == s@.len(),
                start == if neg_spec { 1int } else { 0int },
                forall|j: int| start <= j < i ==> #[trigger] s@[j] != '.',
            decreases n - i,
        {
            i = i + 1;
        }
        if i == n {
            proof {
                lemma_first_dot_char(body);
                if first_dot(body) >= 0 {
                    assert(s@[first_dot(body) + start] == '.');
                    assert(false);
                }
            }
            return Err(ParseDecimalError::MissingDecimalPoint);
        }
        let ghost dot: int = i - start;
        proof {
            lemma_first_dot_is(body, dot);
            assert(body.take(dot) =~= s@.subrange(start as int, i as int));
            assert(body.skip(dot + 1) =~= s@.subrange(i + 1, n as int));
        }
        let int_part: I = match parse_digits::<I>(s, start, i) {
            Some(v) => v,
            None => {
                return Err(ParseDecimalError::ParseInt);
            },
        };
        let frac_part: I = match parse_digits::<I>(s, i + 1, n) {
            Some(v) => v,
            None => {
                return Err(ParseDecimalError::ParseInt);
            },
        };
        proof {
            lemma_pow10_positive(D as nat);
        }
        let sf = I::scaling_factor();
        if I::mul_sf_overflows(int_part, sf) {
            return Err(ParseDecimalError::Overflow(int_part, frac_part));
        }
        let frac_len: usize = n - (i + 1);
        if frac_len > D as usize {
            return Err(ParseDecimalError::PrecisionLoss(frac_len));
        }
        let frac_scaled: I = if frac_len == D as usize {
            proof {
                assert(pow10(0) == 1);
                assert(frac_part.as_int() * pow10(0) == frac_part.as_int())
                    by (nonlinear_arith)
                    requires
                        pow10(0) == 1,
                ;
            }
            frac_part
        } else {
            let shortfall: u8 = D - (frac_len as u8);
            proof {
                lemma_pow10_increases(shortfall as nat, D as nat);
            }
            let mult = try_pow10::<I>(shortfall).unwrap();
            proof {
                lemma_digits_val_bound(body.skip(dot + 1));
                lemma_digits_val_nonneg(body.skip(dot + 1));
                lemma_pow10_adds(frac_len as nat, shortfall as nat);
                lemma_pow10_positive(shortfall as nat);
                vstd::arithmetic::mul::lemma_mul_inequality(
                    frac_part.as_int() + 1,
                    pow10(frac_len as nat),
                    pow10(shortfall as nat),
                );
                assert((frac_part.as_int() + 1) * pow10(shortfall as nat) == frac_part.as_int()
                    * pow10(shortfall as nat) + pow10(shortfall as nat)) by (nonlinear_arith);
                assert(frac_part.as_int() * pow10(shortfall as nat) >= 0) by (nonlinear_arith)
                    requires
                        frac_part.as_int() >= 0,
                        pow10(shortfall as nat) >= 1,
                ;
            }
            frac_part.checked_mul(mult).unwrap()
        };
        proof {
            I::lemma_type_facts();
            lemma_digits_val_nonneg(body.take(dot));
            lemma_digits_val_nonneg(body.skip(dot + 1));
            lemma_digits_val_bound(body.skip(dot + 1));
            if frac_len < D as usize {
                lemma_pow10_adds(frac_len as nat, (D - frac_len) as nat);
                vstd::arithmetic::mul::lemma_mul_strict_inequality(
                    digits_val(body.skip(dot + 1)),
                    pow10(frac_len as nat),
                    pow10((D - frac_len) as nat),
                );
            }
        }
        match I::combine_scaled(int_part, frac_scaled, sf, neg) {
            Some(v) => Ok(Decimal(v)),
            None => Err(ParseDecimalError::Overflow(int_part, frac_scaled)),
        }
    }
}

/// The decimal expansion has exactly as many characters as the value
/// has digits.
pub proof fn lemma_dec_digits_len(n: nat)
    ensures
        dec_digits(n).len() == crate::algorithms::digit_count(n),
    decreases n,
{
    if n >= 10 {
        lemma_dec_digits_len(n / 10);
    }
}

/// A single decimal digit as a one-character string.
fn digit_str(d: u8) -> (s: &'static str)
    requires
        d <= 9,
    ensures
        s@ =~= seq![digit_char(d as int)],
{
    proof {
        reveal_strlit("0");
        reveal_strlit("1");
        reveal_strlit("2");
        reveal_strlit("3");
        reveal_strlit("4");
        reveal_strlit("5");
        reveal_strlit("6");
        reveal_strlit("7");
        reveal_strlit("8");
        reveal_strlit("9");
    }
    match d {
        0 => "0",
        1 => "1",
        2 => "2",
        3 => "3",
        4 => "4",
        5 => "5",
        6 => "6",
        7 => "7",
        8 => "8",
        _ => "9",
    }
}

/// The decimal digits of the magnitude of `v`, most significant first,
/// taken digit by digit so that even the smallest signed value needs no
/// widening.
fn abs_digits_string<I: Primitive>(v: I) -> (out: String)
    ensures
        out@ == dec_digits(abs_int(v.as_int()) as nat),
    decreases abs_int(v.as_int()),
{
    let ghost m: int = abs_int(v.as_int());
    proof {
        v.lemma_range();
        I::lemma_type_facts();
        lemma_div_trunc_abs(v.as_int(), 10);
        crate::decimal::lemma_shrinking_quotient_fits::<I>(v.as_int(), 10);
        vstd::arithmetic::div_mod::lemma_fundamental_div_mod(m, 10);
        lemma_mod_bound_nonneg(m, 10);
        if m > 0 {
            vstd::arithmetic::div_mod::lemma_div_decreases(m, 10);
        }
    }
    let ten = I::ten();
    let q = v.checked_div(ten).unwrap();
    let rm = v.checked_rem(ten).unwrap();
    let d: u8 = rm.rem_digit();
    let ds = digit_str(d);
    if q.eq_val(I::zero()) {
        proof {
            assert(m == m % 10);
            assert(dec_digits(m as nat) =~= seq![digit_char(m)]);
        }
        String::from_str(ds)
    } else {
        proof {
            assert(m / 10 >= 1);
            assert(m >= 10) by {
                if m < 10 {
                    vstd::arithmetic::div_mod::lemma_basic_div(m, 10);
                }
            }
        }
        let mut s0 = abs_digits_string(q);
        s0.append(ds);
        proof {
            assert(s0@ =~= dec_digits((m / 10) as nat).push(digit_char(m % 10)));
            assert(dec_digits(m as nat) == dec_digits((m as nat) / 10).push(
                digit_char(((m as nat) % 10) as int),
            ));
        }
        s0
    }
}

impl<I, const D: u8> Decimal<I, D> where I: ScaledInteger<D> {
    /// The canonical decimal text of this value: an optional minus sign,
    /// the integer digits, one dot, and exactly `D` fractional digits.
    pub fn to_string(&self) -> (out: String)
        requires
            scale_fits::<I>(D as nat),
        ensures
            out@ == spec_display(self.0.as_int(), D as nat),
    {
        let ghost v: int = self.0.as_int();
        let ghost m: int = abs_int(v);
        let ghost p: int = pow10(D as nat);
        proof {
            lemma_pow10_positive(D as nat);
            self.0.lemma_range();
            I::lemma_type_facts();
            lemma_div_trunc_abs(v, p);
            crate::decimal::lemma_shrinking_quotient_fits::<I>(v, p);
        }
        let sf = I::scaling_factor();
        let q = self.0.checked_div(sf).unwrap();
        let rm = self.0.checked_rem(sf).unwrap();
        let mut out = String::new();
        if self.0.is_negative() {
            out.append("-");
        }
        proof {
            reveal_strlit("-");
            assert(out@ =~= (if v < 0 {
                seq!['-']
            } else {
                Seq::<char>::empty()
            }));
        }
        let qs = abs_digits_string(q);
        out.append(qs.as_str());
        out.append(".");
        proof {
            reveal_strlit(".");
        }
        let ghost prefix: Seq<char> = out@;
        let fs = abs_digits_string(rm);
        let flen = fs.unicode_len();
        proof {
            lemma_dec_digits_len(abs_int(rm.as_int()) as nat);
            if D >= 1 {
                crate::algorithms::lemma_digit_count_bound(
                    abs_int(rm.as_int()) as nat,
                    D as nat,
                );
            }
        }
        let mut k: usize = flen;
        while k < D as usize
            invariant
                flen <= k,
                flen < D as int ==> k <= D as int,
                flen >= D as int ==> k == flen,
                flen == fs@.len(),
                out@ == prefix + zero_chars((k - flen) as nat),
            decreases D as int - k,
        {
            out.append("0");
            k = k + 1;
            proof {
                reveal_strlit("0");
                assert(zero_chars((k - flen) as nat) =~= zero_chars((k - 1 - flen) as nat)
                    + seq!['0']);
            }
        }
        out.append(fs.as_str());
        proof {
            let sign: Seq<char> = if v < 0 {
                seq!['-']
            } else {
                Seq::<char>::empty()
            };
            assert(fs@ == dec_digits((m % p) as nat));
            assert(qs@ == dec_digits((m / p) as nat));
            assert(prefix =~= sign + dec_digits((m / p) as nat) + seq!['.']);
            if flen >= D as nat {
                assert(zero_chars(0) + fs@ =~= fs@);
                assert(pad_left(fs@, D as nat) == fs@);
                assert(out@ =~= prefix + fs@);
            } else {
                assert(k == D as nat);
                assert(pad_left(fs@, D as nat) == zero_chars((D - flen) as nat) + fs@);
            }
            assert(out@ =~= spec_display(v, D as nat));
        }
        out
    }
}


/// Every character of a decimal expansion is a digit, and there is at
/// least one.
pub proof fn lemma_dec_digits_all(n: nat)
    ensures
        dec_digits(n).len() >= 1,
        all_digits(dec_digits(n)),
    decreases n,
{
    if n < 10 {
        assert(is_digit_char(digit_char(n as int)));
    } else {
        lemma_dec_digits_all(n / 10);
        lemma_mod_bound_nonneg(n as int, 10);
        assert(is_digit_char(digit_char((n % 10) as int)));
        let t = dec_digits(n / 10);
        let c = digit_char((n % 10) as int);
        assert(forall|i: int| 0 <= i < t.len() ==> t.push(c)[i] == #[trigger] t[i]);
        assert(t.push(c)[t.len() as int] == c);
    }
}

/// Reading a decimal expansion back gives the value it expands.
pub proof fn lemma_dec_digits_val(n: nat)
    ensures
        digits_val(dec_digits(n)) == n,
    decreases n,
{
    if n < 10 {
        let s = dec_digits(n);
        assert(s.len() == 1);
        assert(s.last() == digit_char(n as int));
        assert(s.drop_last() =~= Seq::<char>::empty());
        assert(digits_val(Seq::<char>::empty()) == 0);
        assert(digits_val(s) == 10 * digits_val(s.drop_last()) + char_val(s.last()));
        assert(char_val(digit_char(n as int)) == n);
    } else {
        lemma_dec_digits_val(n / 10);
        lemma_mod_bound_nonneg(n as int, 10);
        let t = dec_digits(n / 10);
        let c = digit_char((n % 10) as int);
        assert(t.push(c).drop_last() =~= t);
        assert(t.push(c).last() == c);
        assert(char_val(c) == n % 10);
        vstd::arithmetic::div_mod::lemma_fundamental_div_mod(n as int, 10);
    }
}

/// A string of zero characters reads as the value zero.
pub proof fn lemma_zero_chars_val(t: Seq<char>)
    requires
        forall|i: int| 0 <= i < t.len() ==> #[trigger] t[i] == '0',
    ensures
        digits_val(t) == 0,
        all_digits(t),
    decreases t.len(),
{
    assert(is_digit_char('0'));
    if t.len() > 0 {
        assert(forall|i: int| 0 <= i < t.len() - 1 ==> t.drop_last()[i] == #[trigger] t[i]);
        lemma_zero_chars_val(t.drop_last());
        assert(char_val(t.last()) == 0);
    }
}

/// Zero characters in front of a digit string do not change its value.
pub proof fn lemma_leading_zeros_val(t: Seq<char>, s: Seq<char>)
    requires
        forall|i: int| 0 <= i < t.len() ==> #[trigger] t[i] == '0',
        all_digits(s),
    ensures
        digits_val(t + s) == digits_val(s),
        all_digits(t + s),
    decreases s.len(),
{
    if s.len() == 0 {
        assert(t + s =~= t);
        lemma_zero_chars_val(t);
    } else {
        assert(all_digits(s.drop_last())) by {
            assert(forall|i: int|
                0 <= i < s.len() - 1 ==> s.drop_last()[i] == #[trigger] s[i]);
        }
        lemma_leading_zeros_val(t, s.drop_last());
        assert((t + s).drop_last() =~= t + s.drop_last());
        assert((t + s).last() == s.last());
        assert(all_digits(t + s)) by {
            assert(forall|i: int|
                0 <= i < t.len() ==> (t + s)[i] == #[trigger] t[i]);
            assert(forall|i: int|
                t.len() <= i < t.len() + s.len() ==> (t + s)[i] == #[trigger] s[i - t.len()]);
        }
    }
}

/// Law: the codec round-trips. For every stored value `v` of a backing
/// type with range `min..=max`, and every digit count `d` of at least
/// one whose scaling factor fits the type, parsing the canonical text
/// of `v` yields exactly `v` back — the smallest and largest values
/// included.
pub proof fn lemma_display_parse_round_trip(v: int, d: nat, min: int, max: int)
    requires
        1 <= d,
        pow10(d) <= max,
        min <= v <= max,
        min == 0 || min == -max - 1,
    ensures
        spec_parse(spec_display(v, d), d, min, max) == Parsed::Value(v),
{
    let m = abs_int(v) as nat;
    let p = pow10(d) as nat;
    lemma_pow10_positive(d);
    lemma_pow10_increases(1, d);
    lemma_mod_bound_nonneg(m as int, p as int);
    vstd::arithmetic::div_mod::lemma_fundamental_div_mod(m as int, p as int);
    vstd::arithmetic::div_mod::lemma_div_pos_is_pos(m as int, p as int);
    let aa = dec_digits(m / p);
    let bb = dec_digits(m % p);
    let pb = pad_left(bb, d);
    lemma_dec_digits_all(m / p);
    lemma_dec_digits_all(m % p);
    lemma_dec_digits_val(m / p);
    lemma_dec_digits_val(m % p);
    lemma_dec_digits_len(m % p);
    crate::algorithms::lemma_digit_count_bound(m % p, d);
    assert(bb.len() <= d);
    let zc = zero_chars((d - bb.len()) as nat);
    assert(forall|i: int| 0 <= i < zc.len() ==> #[trigger] zc[i] == '0');
    lemma_leading_zeros_val(zc, bb);
    assert(pb =~= zc + bb);
    assert(pb.len() == d);
    assert(digits_val(pb) == m % p);
    assert(all_digits(pb));
    let sign: Seq<char> = if v < 0 {
        seq!['-']
    } else {
        Seq::<char>::empty()
    };
    let s = spec_display(v, d);
    assert(s == sign + aa + seq!['.'] + pb);
    // the first character tells the sign: a digit is never a minus sign
    let neg = s.len() > 0 && s[0] == '-';
    assert(s.len() > 0);
    if v < 0 {
        assert(s[0] == '-');
    } else {
        assert(s[0] == aa[0]);
        assert(is_digit_char(aa[0]));
        assert(s[0] != '-');
    }
    assert(neg == (v < 0));
    let body = if neg {
        s.skip(1)
    } else {
        s
    };
    assert(body =~= aa + seq!['.'] + pb);
    // the dot after the integer digits is the first dot
    let k = aa.len() as int;
    assert(body[k] == '.');
    assert(forall|j: int| 0 <= j < k ==> body[j] == #[trigger] aa[j]);
    assert(forall|j: int| 0 <= j < k ==> #[trigger] body[j] != '.') by {
        assert(forall|j: int| 0 <= j < k ==> is_digit_char(#[trigger] aa[j]));
    }
    lemma_first_dot_is(body, k);
    let int_s = body.take(k);
    let frac_s = body.skip(k + 1);
    assert(int_s =~= aa);
    assert(frac_s =~= pb);
    // both parts are in range for the backing type
    assert(digits_val(aa) == m / p);
    assert(m <= mag_cap(min, max));
    assert(mag_cap(min, max) <= max + 1);
    assert(m / p <= max) by {
        vstd::arithmetic::div_mod::lemma_div_is_ordered_by_denominator(m as int, 10, p as int);
        vstd::arithmetic::div_mod::lemma_div_is_ordered(m as int, max + 1, 10);
        assert((max + 1) / 10 <= max) by {
            vstd::arithmetic::div_mod::lemma_fundamental_div_mod(max + 1, 10);
            lemma_mod_bound_nonneg(max + 1, 10);
        }
    }
    assert(digits_val(pb) <= max);
    // the integer part scaled back cannot overflow the magnitude
    assert(m as int == p * ((m as int) / (p as int)) + (m as int) % (p as int)) by {
        vstd::arithmetic::div_mod::lemma_fundamental_div_mod(m as int, p as int);
    }
    assert(p * ((m as int) / (p as int)) == ((m as int) / (p as int)) * (p as int))
        by (nonlinear_arith);
    assert((m as int) % (p as int) >= 0) by {
        lemma_mod_bound_nonneg(m as int, p as int);
    }
    assert((m / p) * p <= m);
    assert(frac_s.len() == d);
    assert((d - frac_s.len()) as nat == 0);
    assert(pow10(0) == 1);
    assert(digits_val(pb) * 1 == digits_val(pb));
    assert((m / p) * p + m % p == m);
    // combining gives the original value back
    if v >= 0 {
        assert(combine_spec(m as int, false, min, max) == Some(v));
    } else {
        assert(min < 0);
        assert(-(m as int) == v);
        assert(combine_spec(m as int, true, min, max) == Some(v));
    }
}


impl core::str::FromStr for crate::aliases::Uint64_9 {
    type Err = ParseDecimalError<u64>;

    fn from_str(s: &str) -> Result<Self, Self::Err> {
        proof {
            crate::aliases::lemma_common_scales_fit();
        }
        Decimal::from_str(s)
    }
}

impl core::str::FromStr for crate::aliases::Int64_9 {
    type Err = ParseDecimalError<i64>;

    fn from_str(s: &str) -> Result<Self, Self::Err> {
        proof {
            crate::aliases::lemma_common_scales_fit();
        }
        Decimal::from_str(s)
    }
}

impl core::str::FromStr for crate::aliases::Uint128_18 {
    type Err = ParseDecimalError<u128>;

    fn from_str(s: &str) -> Result<Self, Self::Err> {
        proof {
            crate::aliases::lemma_common_scales_fit();
        }
        Decimal::from_str(s)
    }
}

impl core::str::FromStr for crate::aliases::Int128_18 {
    type Err = ParseDecimalError<i128>;

    fn from_str(s: &str) -> Result<Self, Self::Err> {
        proof {
            crate::aliases::lemma_common_scales_fit();
        }
        Decimal::from_str(s)
    }
}


} // verus!
