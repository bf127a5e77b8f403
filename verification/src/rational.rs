//! Signed ratios of 64-bit numbers in lowest terms.

use crate::text::decimal;
use fraction::Fraction;
use vstd::prelude::*;

verus! {

/// Two ratios with positive denominators stand for the same number.
pub open spec fn same_ratio(n1: int, d1: int, n2: int, d2: int) -> bool {
    n1 * d2 == n2 * d1
}

/// No number above one divides both.
pub open spec fn coprime(a: nat, b: nat) -> bool {
    forall|k: nat| k > 1 ==> !(#[trigger] (a % k) == 0 && b % k == 0)
}

/// A ratio with its sign kept apart.
#[derive(Clone, Copy, Debug, PartialEq, Eq, Structural)]
pub struct Rational {
    pub negative: bool,
    pub numer: u64,
    pub denom: u64,
}

/// The text of a ratio: its sign, its numerator and, where the ratio is no
/// integer, its denominator behind a slash.
pub open spec fn ratio_text(negative: bool, numer: u64, denom: u64) -> Seq<char> {
    let sign = if negative {
        "-"@
    } else {
        ""@
    };
    let below = if numer == 0 || denom == 1 {
        ""@
    } else {
        "/"@ + decimal(denom as nat)
    };
    sign + decimal(numer as nat) + below
}

/// Brings a ratio to lowest terms.
///
/// The work is done by `fraction::Fraction::new`, read out with
/// `Fraction::numer` and `Fraction::denom`. This claims that the result is the
/// same number, that no number above one divides both of its parts and that
/// its denominator is positive.
#[verifier::external_body]
fn lowest_terms(numer: u64, denom: u64) -> (parts: (u64, u64))
    requires
        denom > 0,
    ensures
        parts.1 > 0,
        same_ratio(parts.0 as int, parts.1 as int, numer as int, denom as int),
        coprime(parts.0 as nat, parts.1 as nat),
{
    let ratio = Fraction::new(numer, denom);
    (*ratio.numer().unwrap(), *ratio.denom().unwrap())
}

/// Writes a ratio with a plus sign, which is not shown.
///
/// The work is done by the `Display` of `fraction::Fraction`, on
/// `Fraction::new_raw`. This claims that it writes the numerator in decimal
/// and, unless the numerator is zero or the denominator one, a slash and the
/// denominator in decimal.
#[verifier::external_body]
fn unsigned_ratio_text(numer: u64, denom: u64) -> (text: String)
    ensures
        text@ == ratio_text(false, numer, denom),
{
    Fraction::new_raw(numer, denom).to_string()
}

impl Rational {
    /// Whether the ratio is in lowest terms.
    pub open spec fn reduced(self) -> bool {
        self.denom > 0 && coprime(self.numer as nat, self.denom as nat)
    }

    /// The numerator with the sign.
    pub open spec fn signed_numer(self) -> int {
        if self.negative {
            -(self.numer as int)
        } else {
            self.numer as int
        }
    }

    /// A ratio in lowest terms.
    pub fn new(negative: bool, numer: u64, denom: u64) -> (ratio: Self)
        requires
            denom > 0,
        ensures
            ratio.reduced(),
            ratio.negative == negative,
            same_ratio(ratio.numer as int, ratio.denom as int, numer as int, denom as int),
    {
        let (n, d) = lowest_terms(numer, denom);
        Rational { negative, numer: n, denom: d }
    }

    /// Writes the ratio.
    pub fn to_text(&self) -> (text: String)
        ensures
            text@ == ratio_text(self.negative, self.numer, self.denom),
    {
        let magnitude = unsigned_ratio_text(self.numer, self.denom);
        if self.negative {
            let mut text = String::from_str("-");
            text.append(magnitude.as_str());
            proof {
                reveal_strlit("");
            }
            assert(text@ =~= ratio_text(true, self.numer, self.denom));
            text
        } else {
            magnitude
        }
    }
}

/// A ratio is written with its numerator first, behind a minus sign if it is
/// negative. Its denominator follows behind a slash unless the ratio is an
/// integer.
pub proof fn ratios_are_written_in_full(ratio: Rational)
    ensures
        ({
            let text = ratio_text(ratio.negative, ratio.numer, ratio.denom);
            let numer = decimal(ratio.numer as nat);
            let magnitude = if ratio.numer == 0 || ratio.denom == 1 {
                numer
            } else {
                numer + "/"@ + decimal(ratio.denom as nat)
            };
            text == if ratio.negative {
                "-"@ + magnitude
            } else {
                magnitude
            }
        }),
{
    let text = ratio_text(ratio.negative, ratio.numer, ratio.denom);
    let numer = decimal(ratio.numer as nat);
    let below = "/"@ + decimal(ratio.denom as nat);
    reveal_strlit("");
    if ratio.numer == 0 || ratio.denom == 1 {
        assert(text =~= if ratio.negative {
            "-"@ + numer
        } else {
            numer
        });
    } else {
        assert(numer + "/"@ + decimal(ratio.denom as nat) =~= numer + below);
        assert(text =~= if ratio.negative {
            "-"@ + (numer + "/"@ + decimal(ratio.denom as nat))
        } else {
            numer + "/"@ + decimal(ratio.denom as nat)
        });
    }
}

} // verus!
