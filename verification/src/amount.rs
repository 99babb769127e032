//! Exact fixed-point decimal amounts.
//!
//! Every balance and every transaction amount is a non-negative count of
//! `10^-12` currency units, held in a `u128`. Twelve fractional digits keep
//! every input the adapters are expected to hand over exact, and all ledger
//! arithmetic (add, subtract, compare, min) is exact integer arithmetic.
//! Display values are rounded to four fractional digits, half away from
//! zero, only when a snapshot is taken.

use vstd::prelude::*;

verus! {

/// Number of fractional digits an `Amount` stores exactly.
pub const AMOUNT_SCALE: u32 = 12;

/// Number of fractional digits kept when balances are reported.
pub const DISPLAY_DIGITS: u32 = 4;

/// Largest number of fractional digits accepted from a decoded input value.
pub const MAX_INPUT_SCALE: u32 = 28;

/// Largest unit count an `Amount` may carry: 10^38 units, far below
/// `u128::MAX`, so that rounding a maximal balance up cannot overflow.
pub const MAX_UNITS: u128 = 100000000000000000000000000000000000000;

/// 10^e as a mathematical natural number.
pub open spec fn pow10(e: nat) -> nat
    decreases e,
{
    if e == 0 {
        1
    } else {
        10 * pow10((e - 1) as nat)
    }
}

/// Quotient of `u` by `d`, rounded half away from zero (both non-negative).
pub open spec fn div_round_half_away(u: int, d: int) -> int {
    if 2 * (u % d) >= d {
        u / d + 1
    } else {
        u / d
    }
}

/// The unit count denoted by `mantissa * 10^-scale`: scaled up exactly when
/// `scale` is within the stored precision, otherwise rounded half away from
/// zero to the stored precision.
pub open spec fn scaled_units(mantissa: nat, scale: nat) -> int {
    if scale <= AMOUNT_SCALE {
        (mantissa * pow10((AMOUNT_SCALE - scale) as nat)) as int
    } else {
        div_round_half_away(mantissa as int, pow10((scale - AMOUNT_SCALE) as nat) as int)
    }
}

/// The unit count `u` rounded to `digits` fractional digits, half away from
/// zero; unit counts finer than `digits` digits are absorbed into the
/// nearest multiple of `10^(AMOUNT_SCALE - digits)`.
pub open spec fn round_units(u: int, digits: nat) -> int {
    if digits >= AMOUNT_SCALE {
        u
    } else {
        div_round_half_away(u, pow10((AMOUNT_SCALE - digits) as nat) as int) * pow10(
            (AMOUNT_SCALE - digits) as nat,
        )
    }
}

pub proof fn lemma_pow10_pos(e: nat)
    ensures
        pow10(e) >= 1,
    decreases e,
{
    if e > 0 {
        lemma_pow10_pos((e - 1) as nat);
    }
}

pub proof fn lemma_pow10_monotone(a: nat, b: nat)
    requires
        a <= b,
    ensures
        pow10(a) <= pow10(b),
    decreases b,
{
    if a < b {
        lemma_pow10_monotone(a, (b - 1) as nat);
        lemma_pow10_pos((b - 1) as nat);
    }
}

pub proof fn lemma_pow10_values()
    ensures
        pow10(8) == 100000000,
        pow10(12) == 1000000000000,
        pow10(16) == 10000000000000000,
        pow10(28) == 10000000000000000000000000000,
{
    reveal_with_fuel(pow10, 29);
}

/// 10^e as a machine integer.
pub(crate) fn pow10_u128(e: u32) -> (r: u128)
    requires
        e <= 28,
    ensures
        r == pow10(e as nat),
        r >= 1,
{
    let mut i: u32 = 0;
    let mut r: u128 = 1;
    while i < e
        invariant
            i <= e <= 28,
            r == pow10(i as nat),
        decreases e - i,
    {
        proof {
            lemma_pow10_monotone((i + 1) as nat, 28);
            lemma_pow10_values();
        }
        r = r * 10;
        i = i + 1;
    }
    proof {
        lemma_pow10_pos(e as nat);
    }
    r
}

/// An exact, non-negative fixed-point decimal amount: `units` counts of
/// `10^-12` currency units.
#[derive(Clone, Copy, Debug, PartialEq, Eq, Structural)]
pub struct Amount {
    pub units: u128,
}

impl View for Amount {
    type V = int;

    open spec fn view(&self) -> int {
        self.units as int
    }
}

impl Amount {
    pub fn zero() -> (r: Amount)
        ensures
            r@ == 0,
    {
        Amount { units: 0 }
    }

    /// Exact sum of two amounts.
    pub fn plus(self, other: Amount) -> (r: Amount)
        requires
            self@ + other@ <= u128::MAX,
        ensures
            r@ == self@ + other@,
    {
        Amount { units: self.units + other.units }
    }

    /// Exact difference of two amounts.
    pub fn minus(self, other: Amount) -> (r: Amount)
        requires
            other@ <= self@,
        ensures
            r@ == self@ - other@,
    {
        Amount { units: self.units - other.units }
    }

    /// The smaller of two amounts.
    pub fn min_with(self, other: Amount) -> (r: Amount)
        ensures
            r@ == vstd::math::min(self@, other@),
    {
        if self.units <= other.units {
            self
        } else {
            other
        }
    }

    pub fn ge(self, other: Amount) -> (r: bool)
        ensures
            r == (self@ >= other@),
    {
        self.units >= other.units
    }

    /// Builds the amount denoted by `mantissa * 10^-scale`, as decoded from
    /// an input record. Values finer than the stored precision are rounded
    /// half away from zero; `None` exactly when the scale exceeds
    /// `MAX_INPUT_SCALE` or the value exceeds `MAX_UNITS`.
    pub fn from_scaled(mantissa: u128, scale: u32) -> (r: Option<Amount>)
        ensures
            match r {
                Some(a) => scale <= MAX_INPUT_SCALE && a@ == scaled_units(
                    mantissa as nat,
                    scale as nat,
                ) && a@ <= MAX_UNITS,
                None => scale > MAX_INPUT_SCALE || scaled_units(mantissa as nat, scale as nat)
                    > MAX_UNITS,
            },
    {
        if scale > MAX_INPUT_SCALE {
            return None;
        }
        if scale <= AMOUNT_SCALE {
            let m = pow10_u128(AMOUNT_SCALE - scale);
            match mantissa.checked_mul(m) {
                Some(u) => {
                    if u <= MAX_UNITS {
                        Some(Amount { units: u })
                    } else {
                        None
                    }
                },
                None => None,
            }
        } else {
            let d = pow10_u128(scale - AMOUNT_SCALE);
            proof {
                lemma_pow10_monotone((scale - AMOUNT_SCALE) as nat, 16);
                lemma_pow10_values();
            }
            let q = mantissa / d;
            let rem = mantissa % d;
            let u: u128 = if 2 * rem >= d {
                proof {
                    lemma_pow10_pos((scale - AMOUNT_SCALE) as nat);
                    vstd::arithmetic::div_mod::lemma_fundamental_div_mod(
                        mantissa as int,
                        d as int,
                    );
                    assert(d >= 2);
                    assert(q < u128::MAX) by (nonlinear_arith)
                        requires
                            mantissa == d * q + rem,
                            d >= 2,
                            rem >= 0,
                            q >= 0,
                            mantissa <= u128::MAX,
                    {}
                }
                q + 1
            } else {
                q
            };
            if u <= MAX_UNITS {
                Some(Amount { units: u })
            } else {
                None
            }
        }
    }

    /// The amount as a rounded count of `10^-digits` units, half away from
    /// zero; with `digits == DISPLAY_DIGITS` this is the displayed value.
    pub fn units_at(&self, digits: u32) -> (r: u128)
        requires
            digits <= AMOUNT_SCALE,
        ensures
            r == div_round_half_away(self@, pow10((AMOUNT_SCALE - digits) as nat) as int),
    {
        let d = pow10_u128(AMOUNT_SCALE - digits);
        proof {
            lemma_pow10_monotone((AMOUNT_SCALE - digits) as nat, 12);
            lemma_pow10_values();
        }
        let q = self.units / d;
        let rem = self.units % d;
        if 2 * rem >= d {
            proof {
                vstd::arithmetic::div_mod::lemma_fundamental_div_mod(
                    self.units as int,
                    d as int,
                );
                assert(d >= 2);
                assert(q < u128::MAX) by (nonlinear_arith)
                    requires
                        self.units == d * q + rem,
                        d >= 2,
                        rem >= 0,
                        q >= 0,
                        self.units <= u128::MAX,
                {}
            }
            q + 1
        } else {
            q
        }
    }

    /// The amount rounded to `digits` fractional digits, half away from
    /// zero. Used to rescale balances for reporting.
    pub fn round_to(&self, digits: u32) -> (r: Amount)
        requires
            self@ <= MAX_UNITS,
        ensures
            r@ == round_units(self@, digits as nat),
    {
        if digits >= AMOUNT_SCALE {
            return *self;
        }
        let d = pow10_u128(AMOUNT_SCALE - digits);
        proof {
            lemma_pow10_monotone((AMOUNT_SCALE - digits) as nat, 12);
            lemma_pow10_values();
        }
        let q = self.units / d;
        let rem = self.units % d;
        let q2: u128 = if 2 * rem >= d {
            q + 1
        } else {
            q
        };
        proof {
            vstd::arithmetic::div_mod::lemma_fundamental_div_mod(self.units as int, d as int);
            vstd::arithmetic::div_mod::lemma_mod_bound(self.units as int, d as int);
            assert(q2 * d <= self.units + d) by (nonlinear_arith)
                requires
                    self.units == d * q + rem,
                    0 <= rem < d,
                    q >= 0,
                    q2 == q || q2 == q + 1,
                    (q2 == q + 1) ==> rem >= 1,
            {}
        }
        Amount { units: q2 * d }
    }
}

/// Rounding to the display precision and re-parsing the rounded value gives
/// back exactly the rounded amount; the rounded amount lies within half of
/// one display unit of the original; and rounding is idempotent.
pub proof fn lemma_display_round_trip(a: Amount)
    ensures
        scaled_units(
            div_round_half_away(
                a@,
                pow10((AMOUNT_SCALE - DISPLAY_DIGITS) as nat) as int,
            ) as nat,
            DISPLAY_DIGITS as nat,
        ) == round_units(a@, DISPLAY_DIGITS as nat),
        -(pow10((AMOUNT_SCALE - DISPLAY_DIGITS) as nat) as int) <= 2 * (round_units(
            a@,
            DISPLAY_DIGITS as nat,
        ) - a@) <= pow10((AMOUNT_SCALE - DISPLAY_DIGITS) as nat) as int,
        round_units(round_units(a@, DISPLAY_DIGITS as nat), DISPLAY_DIGITS as nat) == round_units(
            a@,
            DISPLAY_DIGITS as nat,
        ),
{
    lemma_round_units_close(a@, DISPLAY_DIGITS as nat);
    lemma_round_units_idempotent(a@, DISPLAY_DIGITS as nat);
}

/// The rounded unit count differs from the original by at most half of one
/// `10^-digits` unit.
pub proof fn lemma_round_units_close(u: int, digits: nat)
    requires
        0 <= u,
        digits <= AMOUNT_SCALE,
    ensures
        -(pow10((AMOUNT_SCALE - digits) as nat) as int) <= 2 * (round_units(u, digits) - u)
            <= pow10((AMOUNT_SCALE - digits) as nat) as int,
{
    let d = pow10((AMOUNT_SCALE - digits) as nat) as int;
    lemma_pow10_pos((AMOUNT_SCALE - digits) as nat);
    if digits < AMOUNT_SCALE {
        let q = u / d;
        let rem = u % d;
        vstd::arithmetic::div_mod::lemma_fundamental_div_mod(u, d);
        vstd::arithmetic::div_mod::lemma_mod_bound(u, d);
        if 2 * rem >= d {
            assert((q + 1) * d == q * d + d) by (nonlinear_arith);
        }
    }
}

/// Rounding an already-rounded unit count changes nothing.
pub proof fn lemma_round_units_idempotent(u: int, digits: nat)
    requires
        0 <= u,
        digits <= AMOUNT_SCALE,
    ensures
        round_units(round_units(u, digits), digits) == round_units(u, digits),
{
    let d = pow10((AMOUNT_SCALE - digits) as nat) as int;
    lemma_pow10_pos((AMOUNT_SCALE - digits) as nat);
    if digits < AMOUNT_SCALE {
        let q = div_round_half_away(u, d);
        vstd::arithmetic::div_mod::lemma_fundamental_div_mod(u, d);
        vstd::arithmetic::div_mod::lemma_mod_bound(u, d);
        assert(q >= 0);
        vstd::arithmetic::div_mod::lemma_mod_multiples_basic(q, d);
        vstd::arithmetic::div_mod::lemma_div_by_multiple(q, d);
    }
}

} // verus!
