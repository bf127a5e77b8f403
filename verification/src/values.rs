//! Bit vectors, the values that travel over ports.

use crate::rational::{Rational, same_ratio};
use vstd::arithmetic::power2::{lemma_pow2_pos, lemma_pow2_unfold, pow2};
use vstd::prelude::*;

verus! {

/// How a value is to be shown.
#[derive(Clone, Copy, Debug, PartialEq, Eq, Structural)]
pub enum PrintCode {
    /// As an unsigned integer.
    Unsigned,
    /// As a two's complement integer.
    Signed,
    /// As an unsigned fixed point number with this many fractional bits.
    UFixed(usize),
    /// As a two's complement fixed point number with this many fractional bits.
    SFixed(usize),
    /// Bit by bit.
    Binary,
}

/// A fixed-width bit vector, the least significant bit first.
#[derive(Debug)]
pub struct Value {
    bits: Vec<bool>,
}

impl View for Value {
    type V = Seq<bool>;

    closed spec fn view(&self) -> Seq<bool> {
        self.bits@
    }
}

/// One bit as a number.
pub open spec fn bit_weight(b: bool) -> nat {
    if b {
        1
    } else {
        0
    }
}

/// The number that the bits stand for, the first bit being the least
/// significant.
pub open spec fn unsigned(bits: Seq<bool>) -> nat
    decreases bits.len(),
{
    if bits.len() == 0 {
        0
    } else {
        bit_weight(bits[0]) + 2 * unsigned(bits.skip(1))
    }
}

/// The two's complement number that the bits stand for.
pub open spec fn signed(bits: Seq<bool>) -> int {
    if bits.len() > 0 && bits.last() {
        unsigned(bits) - pow2(bits.len())
    } else {
        unsigned(bits) as int
    }
}

/// Every bit turned over.
pub open spec fn inverted(bits: Seq<bool>) -> Seq<bool> {
    Seq::new(bits.len(), |i: int| !bits[i])
}

/// The bits as characters, the most significant one first.
pub open spec fn bits_text(bits: Seq<bool>) -> Seq<char> {
    Seq::new(
        bits.len(),
        |i: int|
            if bits[bits.len() - 1 - i] {
                '1'
            } else {
                '0'
            },
    )
}

/// Whether any bit is set.
pub open spec fn nonzero(bits: Seq<bool>) -> bool {
    exists|i: int| 0 <= i < bits.len() && bits[i]
}

/// Unsigned order. Values of different widths are not comparable.
pub open spec fn less(a: Seq<bool>, b: Seq<bool>) -> bool {
    a.len() == b.len() && unsigned(a) < unsigned(b)
}

proof fn unsigned_step(bits: Seq<bool>, i: int)
    requires
        0 <= i < bits.len(),
    ensures
        unsigned(bits.skip(i)) == bit_weight(bits[i]) + 2 * unsigned(bits.skip(i + 1)),
{
    assert(bits.skip(i).skip(1) =~= bits.skip(i + 1));
}

proof fn unsigned_tail_bound(bits: Seq<bool>, i: int)
    requires
        0 <= i <= bits.len(),
    ensures
        unsigned(bits.skip(i)) <= unsigned(bits),
    decreases i,
{
    if i == 0 {
        assert(bits.skip(0) =~= bits);
    } else {
        unsigned_step(bits, i - 1);
        unsigned_tail_bound(bits, i - 1);
    }
}

proof fn unsigned_inverted(bits: Seq<bool>)
    ensures
        unsigned(bits) + unsigned(inverted(bits)) == pow2(bits.len()) - 1,
    decreases bits.len(),
{
    if bits.len() == 0 {
        lemma_pow2_unfold_zero();
    } else {
        unsigned_inverted(bits.skip(1));
        assert(inverted(bits).skip(1) =~= inverted(bits.skip(1)));
        lemma_pow2_unfold(bits.len());
    }
}

proof fn lemma_pow2_unfold_zero()
    ensures
        pow2(0) == 1,
{
    vstd::arithmetic::power2::lemma2_to64();
}

proof fn order_from_tail(a: Seq<bool>, b: Seq<bool>, i: int)
    requires
        a.len() == b.len(),
        0 <= i <= a.len(),
        unsigned(a.skip(i)) < unsigned(b.skip(i)),
    ensures
        unsigned(a) < unsigned(b),
    decreases i,
{
    if i == 0 {
        assert(a.skip(0) =~= a);
        assert(b.skip(0) =~= b);
    } else {
        unsigned_step(a, i - 1);
        unsigned_step(b, i - 1);
        order_from_tail(a, b, i - 1);
    }
}

/// Distinct bit vectors of one width stand for distinct numbers.
pub proof fn unsigned_injective(a: Seq<bool>, b: Seq<bool>)
    requires
        a.len() == b.len(),
        unsigned(a) == unsigned(b),
    ensures
        a == b,
    decreases a.len(),
{
    if a.len() > 0 {
        assert(a[0] == b[0] && unsigned(a.skip(1)) == unsigned(b.skip(1)));
        unsigned_injective(a.skip(1), b.skip(1));
        assert forall|i: int| 0 <= i < a.len() implies a[i] == b[i] by {
            if i > 0 {
                assert(a[i] == a.skip(1)[i - 1]);
                assert(b[i] == b.skip(1)[i - 1]);
            }
        }
    }
    assert(a =~= b);
}

/// The last bit weighs as much as the number of bits before it says.
pub proof fn last_bit_weighs_most(bits: Seq<bool>, b: bool)
    ensures
        unsigned(Seq::empty()) == 0,
        unsigned(bits.push(b)) == unsigned(bits) + if b {
            pow2(bits.len())
        } else {
            0
        },
        unsigned(bits) < pow2(bits.len()),
    decreases bits.len(),
{
    lemma_pow2_unfold_zero();
    if bits.len() == 0 {
        assert(bits.push(b).skip(1) =~= Seq::empty());
        assert(unsigned(bits.push(b).skip(1)) == 0);
    } else {
        last_bit_weighs_most(bits.skip(1), b);
        assert(bits.push(b).skip(1) =~= bits.skip(1).push(b));
        lemma_pow2_unfold(bits.len());
    }
}

/// A value is high exactly when the number that it stands for is not zero.
pub proof fn high_means_not_zero(bits: Seq<bool>)
    ensures
        nonzero(bits) <==> unsigned(bits) > 0,
        nonzero(bits) <==> exists|i: int| 0 <= i < bits.len() && bits[i],
    decreases bits.len(),
{
    if bits.len() > 0 {
        let rest = bits.skip(1);
        high_means_not_zero(rest);
        if nonzero(rest) {
            let i = choose|i: int| 0 <= i < rest.len() && rest[i];
            assert(bits[i + 1]);
        }
        if nonzero(bits) && !bits[0] {
            let i = choose|i: int| 0 <= i < bits.len() && bits[i];
            assert(rest[i - 1]);
        }
    }
}

/// The two's complement number differs from the unsigned one by nothing or by
/// as much as the width allows for, and lies as far below zero as above.
pub proof fn signed_number_wraps(bits: Seq<bool>)
    ensures
        bits.len() == 0 ==> signed(bits) == 0,
        bits.len() > 0 ==> -(pow2((bits.len() - 1) as nat) as int) <= signed(bits) < pow2(
            (bits.len() - 1) as nat,
        ),
        signed(bits) == unsigned(bits) || signed(bits) == unsigned(bits) - pow2(bits.len()),
        bits.len() > 0 ==> (signed(bits) < 0 <==> bits[bits.len() - 1]),
{
    if bits.len() > 0 {
        let low = bits.drop_last();
        last_bit_weighs_most(low, bits.last());
        assert(bits =~= low.push(bits.last()));
        lemma_pow2_unfold(bits.len());
    }
}

/// The first bit in which two values differ, from the most significant one on,
/// decides which of them is below the other.
pub proof fn highest_difference_decides(a: Seq<bool>, b: Seq<bool>, k: int)
    requires
        a.len() == b.len(),
        0 <= k < a.len(),
        a[k] != b[k],
        forall|i: int| k < i < a.len() ==> a[i] == b[i],
    ensures
        less(a, b) <==> b[k],
        less(b, a) <==> a[k],
{
    assert(a.skip(k + 1) =~= b.skip(k + 1));
    unsigned_step(a, k);
    unsigned_step(b, k);
    if b[k] {
        order_from_tail(a, b, k);
    } else {
        order_from_tail(b, a, k);
    }
}

/// Of two values of one width, either they are the same or one is below the
/// other, and not both. Values of different widths are neither.
pub proof fn values_of_one_width_are_ordered(a: Seq<bool>, b: Seq<bool>)
    ensures
        a.len() == b.len() && a != b ==> less(a, b) || less(b, a),
        !(less(a, b) && less(b, a)),
        !less(a, a),
        a.len() != b.len() ==> !less(a, b),
{
    if a.len() == b.len() && unsigned(a) == unsigned(b) {
        unsigned_injective(a, b);
    }
}

/// The text of a value has one character for each bit, the last bit first: a
/// one for a bit that is set and a zero for one that is not.
pub proof fn text_shows_every_bit(bits: Seq<bool>, i: int)
    requires
        0 <= i < bits.len(),
    ensures
        bits_text(bits).len() == bits.len(),
        bits[i] ==> bits_text(bits)[bits.len() - 1 - i] == '1',
        !bits[i] ==> bits_text(bits)[bits.len() - 1 - i] == '0',
{
}

impl Clone for Value {
    fn clone(&self) -> (copy: Self)
        ensures
            copy@ == self@,
    {
        let mut bits: Vec<bool> = Vec::with_capacity(self.bits.len());
        for i in 0..self.bits.len()
            invariant
                bits@ == self.bits@.take(i as int),
        {
            bits.push(self.bits[i]);
        }
        assert(bits@ =~= self.bits@);
        Value { bits }
    }
}

impl Value {
    /// A value of the given bits, the least significant one first.
    pub fn from_bits(bits: Vec<bool>) -> (value: Self)
        ensures
            value@ == bits@,
    {
        Value { bits }
    }

    /// The one-bit value 1.
    pub fn bit_high() -> (value: Self)
        ensures
            value@ == seq![true],
    {
        let mut bits: Vec<bool> = Vec::new();
        bits.push(true);
        Value { bits }
    }

    /// The one-bit value 0.
    pub fn bit_low() -> (value: Self)
        ensures
            value@ == seq![false],
    {
        let mut bits: Vec<bool> = Vec::new();
        bits.push(false);
        Value { bits }
    }

    /// The value 0 of the given width.
    pub fn zeroes(width: usize) -> (value: Self)
        ensures
            value@ == Seq::new(width as nat, |i: int| false),
    {
        let mut bits: Vec<bool> = Vec::with_capacity(width);
        for i in 0..width
            invariant
                bits@ == Seq::new(i as nat, |j: int| false),
        {
            bits.push(false);
        }
        Value { bits }
    }

    /// The number of bits.
    pub fn width(&self) -> (width: usize)
        ensures
            width == self@.len(),
    {
        self.bits.len()
    }

    /// Whether two values have the same width and the same bits.
    pub fn same(&self, other: &Value) -> (equal: bool)
        ensures
            equal == (self@ == other@),
    {
        if self.bits.len() != other.bits.len() {
            return false;
        }
        for i in 0..self.bits.len()
            invariant
                self.bits@.len() == other.bits@.len(),
                forall|j: int| 0 <= j < i ==> self.bits@[j] == other.bits@[j],
        {
            if self.bits[i] != other.bits[i] {
                assert(self@[i as int] != other@[i as int]);
                return false;
            }
        }
        assert(self@ =~= other@);
        true
    }

    /// Whether this value is below another of the same width.
    pub fn is_less(&self, other: &Value) -> (below: bool)
        ensures
            below == less(self@, other@),
    {
        if self.bits.len() != other.bits.len() {
            return false;
        }
        let mut i: usize = self.bits.len();
        while i > 0
            invariant
                i <= self.bits@.len() == other.bits@.len(),
                self.bits@.skip(i as int) == other.bits@.skip(i as int),
            decreases i,
        {
            i = i - 1;
            proof {
                unsigned_step(self.bits@, i as int);
                unsigned_step(other.bits@, i as int);
            }
            if self.bits[i] != other.bits[i] {
                proof {
                    if other.bits@[i as int] {
                        order_from_tail(self.bits@, other.bits@, i as int);
                    } else {
                        order_from_tail(other.bits@, self.bits@, i as int);
                    }
                }
                return other.bits[i];
            }
            assert forall|j: int| i <= j < self.bits@.len() implies self.bits@[j]
                == other.bits@[j] by {
                if j > i {
                    assert(self.bits@[j] == self.bits@.skip(i + 1)[j - i - 1]);
                    assert(other.bits@[j] == other.bits@.skip(i + 1)[j - i - 1]);
                }
            }
            assert(self.bits@.skip(i as int) =~= other.bits@.skip(i as int));
        }
        assert(self.bits@.skip(0) =~= self.bits@);
        assert(other.bits@.skip(0) =~= other.bits@);
        false
    }

    /// Whether the value is high, that is, has a bit set.
    pub fn as_bool(&self) -> (high: bool)
        ensures
            high == nonzero(self@),
    {
        for i in 0..self.bits.len()
            invariant
                forall|j: int| 0 <= j < i ==> !self.bits@[j],
        {
            if self.bits[i] {
                assert(self@[i as int]);
                return true;
            }
        }
        false
    }

    /// The number that these bits stand for after each was compared with
    /// `flip`: the bits themselves for `false`, the inverted bits for `true`.
    fn accumulate(&self, flip: bool) -> (number: u64)
        requires
            unsigned(
                if flip {
                    inverted(self@)
                } else {
                    self@
                },
            ) <= u64::MAX,
        ensures
            number == unsigned(
                if flip {
                    inverted(self@)
                } else {
                    self@
                },
            ),
    {
        let ghost bits = if flip {
            inverted(self@)
        } else {
            self@
        };
        let mut number: u64 = 0;
        let mut i: usize = self.bits.len();
        while i > 0
            invariant
                i <= self.bits@.len(),
                bits.len() == self.bits@.len(),
                forall|j: int| 0 <= j < bits.len() ==> bits[j] == (self.bits@[j] != flip),
                number == unsigned(bits.skip(i as int)),
                unsigned(bits) <= u64::MAX,
            decreases i,
        {
            i = i - 1;
            proof {
                unsigned_step(bits, i as int);
                unsigned_tail_bound(bits, i as int);
            }
            let bit: u64 = if self.bits[i] != flip {
                1
            } else {
                0
            };
            number = number * 2 + bit;
        }
        assert(bits.skip(0) =~= bits);
        number
    }

    /// The unsigned number, which has to fit.
    pub fn as_u64(&self) -> (number: u64)
        requires
            unsigned(self@) <= u64::MAX,
        ensures
            number == unsigned(self@),
    {
        self.accumulate(false)
    }

    /// Whether the value is negative in two's complement.
    fn sign_bit(&self) -> (negative: bool)
        ensures
            negative == (signed(self@) < 0),
    {
        proof {
            unsigned_inverted(self@);
        }
        if self.bits.len() == 0 {
            false
        } else {
            self.bits[self.bits.len() - 1]
        }
    }

    /// The two's complement number, which has to fit.
    pub fn as_i64(&self) -> (number: i64)
        requires
            i64::MIN <= signed(self@) <= i64::MAX,
        ensures
            number == signed(self@),
    {
        proof {
            unsigned_inverted(self@);
        }
        if self.sign_bit() {
            let below: u64 = self.accumulate(true);
            -(below as i64) - 1
        } else {
            self.accumulate(false) as i64
        }
    }

    /// The number as an unsigned fixed point number with `fraction` fractional
    /// bits.
    pub fn as_ufp(&self, fraction: usize) -> (ratio: Rational)
        requires
            unsigned(self@) <= u64::MAX,
            fraction < 64,
        ensures
            ratio.reduced(),
            !ratio.negative,
            same_ratio(ratio.numer as int, ratio.denom as int, unsigned(self@) as int, pow2(fraction as nat) as int),
    {
        let denom = power_of_two(fraction);
        Rational::new(false, self.accumulate(false), denom)
    }

    /// The number as a two's complement fixed point number with `fraction`
    /// fractional bits.
    pub fn as_sfp(&self, fraction: usize) -> (ratio: Rational)
        requires
            -u64::MAX <= signed(self@) <= u64::MAX,
            fraction < 64,
        ensures
            ratio.reduced(),
            ratio.negative == (signed(self@) < 0),
            same_ratio(ratio.signed_numer(), ratio.denom as int, signed(self@), pow2(fraction as nat) as int),
    {
        let denom = power_of_two(fraction);
        proof {
            unsigned_inverted(self@);
        }
        if self.sign_bit() {
            let below: u64 = self.accumulate(true);
            let ratio = Rational::new(true, below + 1, denom);
            assert(same_ratio(
                -(ratio.numer as int),
                ratio.denom as int,
                -(below + 1),
                denom as int,
            )) by (nonlinear_arith)
                requires
                    same_ratio(ratio.numer as int, ratio.denom as int, below + 1, denom as int),
            ;
            ratio
        } else {
            Rational::new(false, self.accumulate(false), denom)
        }
    }

    /// Writes the bits, the most significant one first.
    pub fn to_text(&self) -> (text: String)
        ensures
            text@ == bits_text(self@),
    {
        proof {
            reveal_strlit("0");
            reveal_strlit("1");
        }
        let mut text = String::new();
        let mut i: usize = self.bits.len();
        while i > 0
            invariant
                i <= self.bits@.len(),
                text@ == bits_text(self@).take(self@.len() - i),
                "0"@ == seq!['0'],
                "1"@ == seq!['1'],
            decreases i,
        {
            i = i - 1;
            if self.bits[i] {
                text.append("1");
            } else {
                text.append("0");
            }
            assert(text@ =~= bits_text(self@).take(self@.len() - i));
        }
        assert(text@ =~= bits_text(self@));
        text
    }
}

/// Computes a power of two that fits in a word.
fn power_of_two(exponent: usize) -> (power: u64)
    requires
        exponent < 64,
    ensures
        power == pow2(exponent as nat),
        power > 0,
{
    proof {
        vstd::arithmetic::power2::lemma_pow2_strictly_increases(exponent as nat, 64);
        vstd::arithmetic::power2::lemma2_to64();
        lemma_pow2_pos(exponent as nat);
        vstd::bits::lemma_u64_shl_is_mul(1, exponent as u64);
    }
    1u64 << (exponent as u64)
}

} // verus!
