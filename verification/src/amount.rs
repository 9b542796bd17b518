//! Fixed-point monetary amounts with four fractional digits.
//!
//! An [`Amount`] stores a signed count of ten-thousandths of a whole unit, so
//! every value carries exactly four fractional digits. Addition, subtraction
//! and comparison are exact; parsing rescales its input to four fractional
//! digits (rounding half up) and rendering trims trailing fractional zeros.

use vstd::prelude::*;
use vstd::string::{StrSliceExecFns, StringExecFns};

verus! {

/// Raw units per whole unit: amounts carry four fractional digits.
pub const SCALE: i128 = 10000;

/// A fixed-point decimal amount, scaled by [`SCALE`].
#[derive(Clone, Copy, Debug, PartialEq, Eq, Structural)]
pub struct Amount {
    raw: i128,
}

impl View for Amount {
    type V = int;

    /// The mathematical value of the amount, in raw units (ten-thousandths).
    closed spec fn view(&self) -> int {
        self.raw as int
    }
}

impl Default for Amount {
    /// The zero amount.
    fn default() -> (r: Self)
        ensures
            r@ == 0,
    {
        Amount { raw: 0 }
    }
}

impl Amount {
    /// The zero amount.
    pub fn zero() -> (r: Amount)
        ensures
            r@ == 0,
    {
        Amount { raw: 0 }
    }

    /// An amount of `n` whole units.
    pub fn from_units(n: i32) -> (r: Amount)
        ensures
            r@ == n * SCALE,
    {
        Amount { raw: (n as i128) * SCALE }
    }

    /// An amount of `n` raw units (`n` ten-thousandths of a whole unit).
    pub fn from_raw_units(n: i128) -> (r: Amount)
        ensures
            r@ == n,
    {
        Amount { raw: n }
    }

    /// The exact sum of two amounts.
    pub fn add(self, other: Amount) -> (r: Amount)
        requires
            i128::MIN <= self@ + other@ <= i128::MAX,
        ensures
            r@ == self@ + other@,
    {
        Amount { raw: self.raw + other.raw }
    }

    /// The exact difference of two amounts.
    pub fn sub(self, other: Amount) -> (r: Amount)
        requires
            i128::MIN <= self@ - other@ <= i128::MAX,
        ensures
            r@ == self@ - other@,
    {
        Amount { raw: self.raw - other.raw }
    }

    /// Whether `self` is at least `other`.
    pub fn ge(&self, other: &Amount) -> (r: bool)
        ensures
            r == (self@ >= other@),
    {
        self.raw >= other.raw
    }

    /// The amount in raw units (ten-thousandths of a whole unit).
    pub fn raw_units(&self) -> (r: i128)
        ensures
            r == self@,
    {
        self.raw
    }

    /// Whether the amount is negative.
    pub fn is_negative(&self) -> (r: bool)
        ensures
            r == (self@ < 0),
    {
        self.raw < 0
    }
}

/// Every amount lies within the fixed-point range.
pub broadcast proof fn lemma_amount_in_range(a: Amount)
    ensures
        i128::MIN <= #[trigger] a@ <= i128::MAX,
{
}

/// Whether `c` is a decimal digit.
pub open spec fn is_digit(c: char) -> bool {
    48 <= c as u32 <= 57
}

/// The value of the decimal digit `c`.
pub open spec fn digit_val(c: char) -> int {
    c as u32 - 48
}

/// Whether every character of `s` is a decimal digit.
pub open spec fn all_digits(s: Seq<char>) -> bool {
    forall|i: int| 0 <= i < s.len() ==> is_digit(#[trigger] s[i])
}

/// The number denoted by a string of decimal digits, most significant first.
pub open spec fn digits_int(s: Seq<char>) -> int
    decreases s.len(),
{
    if s.len() == 0 {
        0
    } else {
        digits_int(s.drop_last()) * 10 + digit_val(s.last())
    }
}

/// The index of the first `'.'` in `s`, or `s.len()` if there is none.
pub open spec fn dot_pos(s: Seq<char>) -> int
    decreases s.len(),
{
    if s.len() == 0 {
        0
    } else if s[0] == '.' {
        0
    } else {
        1 + dot_pos(s.drop_first())
    }
}

/// Whether `s` is a decimal literal this library accepts: a non-empty string
/// of digits, optionally followed by a dot and at least one more digit.
pub open spec fn valid_decimal(s: Seq<char>) -> bool {
    let k = dot_pos(s);
    &&& k >= 1
    &&& all_digits(s.take(k))
    &&& (k < s.len() ==> k + 1 < s.len() && all_digits(s.skip(k + 1)))
}

/// The value of the fractional digit string `f`, scaled to four digits: its
/// first four digits as a count of ten-thousandths.
pub open spec fn frac_scaled(f: Seq<char>) -> int {
    if f.len() >= 4 {
        digits_int(f.take(4))
    } else if f.len() == 3 {
        digits_int(f) * 10
    } else if f.len() == 2 {
        digits_int(f) * 100
    } else if f.len() == 1 {
        digits_int(f) * 1000
    } else {
        0
    }
}

/// One when rescaling the fractional digit string `f` to four digits rounds
/// up (half up), zero otherwise.
pub open spec fn round_up(f: Seq<char>) -> int {
    if f.len() > 4 && digit_val(f[4]) >= 5 {
        1
    } else {
        0
    }
}

/// The number of raw units denoted by the decimal literal `s`, rescaled to
/// four fractional digits, rounding half up.
pub open spec fn decimal_value(s: Seq<char>) -> int {
    let k = dot_pos(s);
    let f = if k < s.len() {
        s.skip(k + 1)
    } else {
        Seq::<char>::empty()
    };
    digits_int(s.take(k)) * 10000 + frac_scaled(f) + round_up(f)
}

/// A digit string denotes a non-negative number.
proof fn lemma_digits_int_nonneg(s: Seq<char>)
    requires
        all_digits(s),
    ensures
        digits_int(s) >= 0,
    decreases s.len(),
{
    if s.len() > 0 {
        lemma_digits_int_nonneg(s.drop_last());
    }
}

/// A prefix of a digit string denotes at most the whole string's number.
proof fn lemma_digits_int_prefix(s: Seq<char>, i: int)
    requires
        all_digits(s),
        0 <= i <= s.len(),
    ensures
        digits_int(s.take(i)) <= digits_int(s),
    decreases s.len(),
{
    if i < s.len() {
        assert(all_digits(s.drop_last())) by {
            assert(forall|j: int|
                0 <= j < s.len() - 1 ==> s.drop_last()[j] == #[trigger] s[j]);
        }
        lemma_digits_int_prefix(s.drop_last(), i);
        assert(s.drop_last().take(i) =~= s.take(i));
        lemma_digits_int_nonneg(s.drop_last());
    } else {
        assert(s.take(i) =~= s);
    }
}

/// `dot_pos` is the unique index with no dot before it that is either a dot
/// or the end of the string.
proof fn lemma_dot_pos_unique(s: Seq<char>, k: int)
    requires
        0 <= k <= s.len(),
        k < s.len() ==> s[k] == '.',
        forall|j: int| 0 <= j < k ==> s[j] != '.',
    ensures
        dot_pos(s) == k,
    decreases s.len(),
{
    if s.len() == 0 {
    } else if s[0] == '.' {
        assert(k == 0);
    } else {
        assert(k >= 1);
        let t = s.drop_first();
        assert(forall|j: int| 0 <= j < k - 1 ==> t[j] == #[trigger] s[j + 1]);
        lemma_dot_pos_unique(t, k - 1);
    }
}

/// The character for the decimal digit `d`.
pub open spec fn digit_char(d: int) -> char {
    ((d + 48) as u8) as char
}

/// The decimal digit characters of the non-negative number `n`, most
/// significant first, with no leading zeros (a single zero for zero).
pub open spec fn dec_digits(n: int) -> Seq<char>
    decreases n,
    when n >= 0
{
    if n < 10 {
        seq![digit_char(n)]
    } else {
        dec_digits(n / 10).push(digit_char(n % 10))
    }
}

/// The fractional digit characters for `fp` raw units (`0 < fp <= 9999`):
/// four digits, trailing zeros trimmed.
pub open spec fn frac_digits(fp: int) -> Seq<char> {
    if fp % 10 != 0 {
        seq![
            digit_char(fp / 1000),
            digit_char((fp / 100) % 10),
            digit_char((fp / 10) % 10),
            digit_char(fp % 10),
        ]
    } else if fp % 100 != 0 {
        seq![digit_char(fp / 1000), digit_char((fp / 100) % 10), digit_char((fp / 10) % 10)]
    } else if fp % 1000 != 0 {
        seq![digit_char(fp / 1000), digit_char((fp / 100) % 10)]
    } else {
        seq![digit_char(fp / 1000)]
    }
}

/// The canonical rendering of `v >= 0` raw units: the integral part, then
/// the fractional digits only when they are not all zero, trailing zeros
/// trimmed.
pub open spec fn decimal_render_nonneg(v: int) -> Seq<char> {
    if v % 10000 == 0 {
        dec_digits(v / 10000)
    } else {
        dec_digits(v / 10000) + seq!['.'] + frac_digits(v % 10000)
    }
}

/// The canonical rendering of `v` raw units as a decimal string.
pub open spec fn decimal_render(v: int) -> Seq<char> {
    if v < 0 {
        seq!['-'] + decimal_render_nonneg(-v)
    } else {
        decimal_render_nonneg(v)
    }
}

/// The string for the single decimal digit `d`.
fn digit_str(d: u8) -> (r: &'static str)
    requires
        d < 10,
    ensures
        r@ == seq![digit_char(d as int)],
{
    proof {
        reveal_strlit("0");
        reveal_strlit("1");
        reveal_strlit("2");
        reveal_strlit("3");
        reveal_strlit("4");
        reveal_strlit("5");
        reveal_strlit("6");
        reveal_strlit("7");
        reveal_strlit("8");
        reveal_strlit("9");
    }
    let r: &'static str = match d {
        0 => "0",
        1 => "1",
        2 => "2",
        3 => "3",
        4 => "4",
        5 => "5",
        6 => "6",
        7 => "7",
        8 => "8",
        _ => "9",
    };
    proof {
        assert(r@ =~= seq![digit_char(d as int)]);
    }
    r
}

/// Append the decimal digits of `n` to `out`.
fn append_decimal_digits(out: &mut String, n: u128)
    ensures
        final(out)@ == old(out)@ + dec_digits(n as int),
{
    let ghost target = dec_digits(n as int);
    let mut tmp: Vec<u8> = Vec::new();
    let mut m: u128 = n;
    tmp.push((m % 10) as u8);
    m = m / 10;
    proof {
        assert(target =~= (if m > 0 {
            dec_digits(m as int)
        } else {
            Seq::<char>::empty()
        }) + Seq::new(tmp@.len() as nat, |i: int| digit_char(tmp@[tmp@.len() - 1 - i] as int)));
    }
    while m > 0
        invariant
            tmp@.len() >= 1,
            forall|i: int| 0 <= i < tmp@.len() ==> #[trigger] tmp@[i] < 10,
            target == dec_digits(n as int),
            target == (if m > 0 {
                dec_digits(m as int)
            } else {
                Seq::<char>::empty()
            }) + Seq::new(tmp@.len() as nat, |i: int| digit_char(tmp@[tmp@.len() - 1 - i] as int)),
        decreases m,
    {
        tmp.push((m % 10) as u8);
        m = m / 10;
        proof {
            assert(target =~= (if m > 0 {
                dec_digits(m as int)
            } else {
                Seq::<char>::empty()
            }) + Seq::new(tmp@.len() as nat, |i: int| digit_char(tmp@[tmp@.len() - 1 - i] as int)));
        }
    }
    proof {
        assert(target.len() == tmp@.len());
        assert(forall|i: int|
            0 <= i < tmp@.len() ==> target[i] == digit_char(
                (#[trigger] tmp@[tmp@.len() - 1 - i]) as int,
            ));
        assert(out@ =~= old(out)@ + target.take(0));
    }
    let mut idx: usize = tmp.len();
    while idx > 0
        invariant
            idx <= tmp@.len(),
            target.len() == tmp@.len(),
            forall|i: int| 0 <= i < tmp@.len() ==> #[trigger] tmp@[i] < 10,
            forall|i: int|
                0 <= i < tmp@.len() ==> target[i] == digit_char(
                    (#[trigger] tmp@[tmp@.len() - 1 - i]) as int,
                ),
            out@ == old(out)@ + target.take(tmp@.len() - idx),
        decreases idx,
    {
        let d = tmp[idx - 1];
        out.append(digit_str(d));
        proof {
            let i = tmp@.len() - idx as int;
            assert(target[i] == digit_char(tmp@[tmp@.len() - 1 - i] as int));
            assert(tmp@.len() - 1 - i == idx - 1);
            assert(out@ =~= old(out)@ + target.take(tmp@.len() - idx + 1));
        }
        idx -= 1;
    }
    proof {
        assert(target.take(tmp@.len() as int) =~= target);
    }
}

impl Amount {
    /// Render the amount as a minimal decimal string: four fractional digits
    /// with trailing zeros trimmed, and at least the integral part shown.
    pub fn to_decimal_string(&self) -> (r: String)
        requires
            i128::MIN < self@,
        ensures
            r@ == decimal_render(self@),
    {
        proof {
            reveal_strlit("-");
            reveal_strlit(".");
        }
        let neg = self.raw < 0;
        let mag: u128 = if self.raw < 0 {
            (-self.raw) as u128
        } else {
            self.raw as u128
        };
        let ip: u128 = mag / 10000;
        let fp: u128 = mag % 10000;
        let mut out = String::new();
        if neg {
            out.append("-");
        }
        append_decimal_digits(&mut out, ip);
        if fp > 0 {
            out.append(".");
            let d1: u8 = (fp / 1000) as u8;
            let d2: u8 = ((fp / 100) % 10) as u8;
            let d3: u8 = ((fp / 10) % 10) as u8;
            let d4: u8 = (fp % 10) as u8;
            out.append(digit_str(d1));
            if fp % 1000 != 0 {
                out.append(digit_str(d2));
            }
            if fp % 100 != 0 {
                out.append(digit_str(d3));
            }
            if fp % 10 != 0 {
                out.append(digit_str(d4));
            }
        }
        proof {
            assert(fp % 10 != 0 ==> fp % 100 != 0 && fp % 1000 != 0) by (nonlinear_arith);
            assert(fp % 100 != 0 ==> fp % 1000 != 0) by (nonlinear_arith);
            assert(out@ =~= decimal_render(self@));
        }
        out
    }

    /// Parse a decimal literal into an amount, rescaling to four fractional
    /// digits and rounding half up.
    ///
    /// Returns `None` exactly when the string is not a decimal literal the
    /// library accepts, or its value does not fit the fixed-point range.
    pub fn from_decimal_str(s: &str) -> (r: Option<Amount>)
        ensures
            match r {
                Some(a) => {
                    &&& valid_decimal(s@)
                    &&& decimal_value(s@) <= i128::MAX
                    &&& a@ == decimal_value(s@)
                    &&& a@ >= 0
                },
                None => !valid_decimal(s@) || decimal_value(s@) > i128::MAX,
            },
    {
        let n = s.unicode_len();

        // Find the first dot, if any.
        let mut k: usize = n;
        let mut i: usize = 0;
        while i < n
            invariant
                n == s@.len(),
                i <= n,
                k <= n,
                k < n ==> k < i && s@[k as int] == '.' && (forall|j: int|
                    0 <= j < k ==> s@[j] != '.'),
                k == n ==> forall|j: int| 0 <= j < i ==> s@[j] != '.',
            decreases n - i,
        {
            if k == n && s.get_char(i) == '.' {
                k = i;
            }
            i += 1;
        }
        proof {
            lemma_dot_pos_unique(s@, k as int);
        }

        if k == 0 {
            return None;
        }
        if k < n && k + 1 == n {
            return None;
        }

        // The integral part.
        let mut v: u128 = 0;
        let mut i: usize = 0;
        while i < k
            invariant
                n == s@.len(),
                dot_pos(s@) == k,
                0 < k <= n,
                i <= k,
                all_digits(s@.take(i as int)),
                v == digits_int(s@.take(i as int)),
                v <= i128::MAX,
            decreases k - i,
        {
            let c = s.get_char(i);
            let u = c as u32;
            if u < 48 || u > 57 {
                proof {
                    assert(s@.take(k as int)[i as int] == s@[i as int]);
                    assert(!valid_decimal(s@));
                }
                return None;
            }
            let d = (u - 48) as u128;
            if v > (i128::MAX as u128 - d) / 10 {
                proof {
                    assert(s@.take(i as int + 1).drop_last() =~= s@.take(i as int));
                    assert(s@.take(i as int + 1).last() == s@[i as int]);
                    assert(digits_int(s@.take(i as int + 1)) == v * 10 + d);
                    assert(v * 10 + d > i128::MAX);
                    if valid_decimal(s@) {
                        lemma_digits_int_prefix(s@.take(k as int), i as int + 1);
                        assert(s@.take(k as int).take(i as int + 1) =~= s@.take(i as int + 1));
                        let f = if k < n {
                            s@.skip(k as int + 1)
                        } else {
                            Seq::<char>::empty()
                        };
                        assert(frac_scaled(f) >= 0) by {
                            if f.len() >= 4 {
                                assert(all_digits(f.take(4))) by {
                                    assert(forall|j: int|
                                        0 <= j < 4 ==> f.take(4)[j] == #[trigger] f[j]);
                                }
                                lemma_digits_int_nonneg(f.take(4));
                            } else {
                                lemma_digits_int_nonneg(f);
                            }
                        }
                        assert(digits_int(s@.take(k as int)) * 10000 >= digits_int(
                            s@.take(k as int),
                        )) by (nonlinear_arith)
                            requires
                                digits_int(s@.take(k as int)) > i128::MAX,
                        ;
                        assert(decimal_value(s@) > i128::MAX);
                    }
                }
                return None;
            }
            proof {
                assert(v * 10 + d <= i128::MAX) by (nonlinear_arith)
                    requires
                        v <= (i128::MAX as u128 - d) / 10,
                        d < 10,
                        0 <= v,
                ;
                assert(s@.take(i as int + 1).drop_last() =~= s@.take(i as int));
                assert(s@.take(i as int + 1).last() == s@[i as int]);
            }
            v = v * 10 + d;
            i += 1;
        }

        // The fractional part: the first four digits, and whether the fifth
        // rounds up.
        let ghost frac: Seq<char> = if k < n {
            s@.skip(k as int + 1)
        } else {
            Seq::<char>::empty()
        };
        let mut f: u128 = 0;
        let mut round: u128 = 0;
        if k < n {
            let mut j: usize = k + 1;
            while j < n
                invariant
                    n == s@.len(),
                    dot_pos(s@) == k,
                    0 < k < n,
                    k + 1 < n,
                    k + 1 <= j <= n,
                    frac == s@.skip(k as int + 1),
                    frac.len() == n - (k + 1),
                    all_digits(frac.take(j - (k + 1) as int)),
                    f == (if j - ((k + 1) as int) >= 4 {
                        digits_int(frac.take(4))
                    } else {
                        digits_int(frac.take(j - (k + 1) as int))
                    }),
                    f <= (if j - ((k + 1) as int) >= 4 {
                        9999int
                    } else if j - ((k + 1) as int) == 3 {
                        999int
                    } else if j - ((k + 1) as int) == 2 {
                        99int
                    } else if j - ((k + 1) as int) == 1 {
                        9int
                    } else {
                        0int
                    }),
                    round == (if j - ((k + 1) as int) > 4 && digit_val(frac[4]) >= 5 {
                        1int
                    } else {
                        0int
                    }),
                decreases n - j,
            {
                let c = s.get_char(j);
                let u = c as u32;
                if u < 48 || u > 57 {
                    proof {
                        assert(frac[j - (k + 1) as int] == s@[j as int]);
                        assert(!valid_decimal(s@));
                    }
                    return None;
                }
                let d = (u - 48) as u128;
                let fl = j - (k + 1);
                proof {
                    assert(frac.take(fl as int + 1).drop_last() =~= frac.take(fl as int));
                    assert(frac.take(fl as int + 1).last() == frac[fl as int]);
                }
                if fl < 4 {
                    f = f * 10 + d;
                } else if fl == 4 {
                    if d >= 5 {
                        round = 1;
                    }
                }
                j += 1;
            }
        }

        // Assemble, rejecting values beyond the fixed-point range.
        let scaled: u128 = if k == n {
            0
        } else {
            let fl = n - (k + 1);
            if fl >= 4 {
                f
            } else if fl == 3 {
                f * 10
            } else if fl == 2 {
                f * 100
            } else {
                f * 1000
            }
        };
        proof {
            if k < n {
                assert(frac.take(frac.len() as int) =~= frac);
            }
            assert(scaled + round <= 10000);
            assert(scaled == frac_scaled(frac));
            assert(round == round_up(frac));
        }

        if v > i128::MAX as u128 / 10000 {
            proof {
                assert(v * 10000 > i128::MAX) by (nonlinear_arith)
                    requires
                        v > i128::MAX as u128 / 10000,
                ;
                lemma_digits_int_nonneg(s@.take(k as int));
                assert(decimal_value(s@) > i128::MAX);
            }
            return None;
        }
        proof {
            assert(v * 10000 <= i128::MAX) by (nonlinear_arith)
                requires
                    v <= i128::MAX as u128 / 10000,
                    0 <= v,
            ;
        }
        let total: u128 = v * 10000 + scaled + round;
        if total > i128::MAX as u128 {
            proof {
                assert(decimal_value(s@) > i128::MAX);
            }
            return None;
        }
        proof {
            assert(valid_decimal(s@));
            assert(decimal_value(s@) == total);
        }
        Some(Amount { raw: total as i128 })
    }
}

} // verus!
