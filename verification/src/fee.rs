//! Pricing: the base fee of a transaction by its size, and the scaling that
//! a sender may apply to it.

use vstd::prelude::*;

verus! {

/// Fee charged for each started kilobyte of a transaction.
pub const FEE_PER_KB: u64 = 1000;

/// Bytes in the unit by which transactions are priced.
pub const BYTES_PER_KB: usize = 1024;

/// The base fee of a transaction of `tx_size` bytes: every started
/// kilobyte costs [`FEE_PER_KB`].
pub open spec fn tx_fee(tx_size: nat) -> nat {
    if tx_size % 1024 == 0 {
        (tx_size / 1024) * 1000
    } else {
        (tx_size / 1024 + 1) * 1000
    }
}

/// Computes the base fee of a transaction of `tx_size` bytes.
pub fn calculate_tx_fee(tx_size: usize) -> (fee: u64)
    ensures
        fee == tx_fee(tx_size as nat),
{
    let mut size_in_kb: u64 = tx_size as u64 / 1024;
    if tx_size % BYTES_PER_KB != 0 {
        size_in_kb += 1;
    }
    size_in_kb * FEE_PER_KB
}

/// The fee that results from scaling `base_fee` by the fraction
/// `numerator / denominator`: the exact product is truncated towards zero,
/// never rounded, and a result too large for 64 bits is held at the largest
/// 64-bit value.
pub open spec fn scaled_fee(base_fee: nat, numerator: nat, denominator: nat) -> nat {
    let exact = (base_fee * numerator) / denominator;
    if exact > u64::MAX {
        u64::MAX as nat
    } else {
        exact
    }
}

/// A non-negative factor by which a sender scales the base fee, held as a
/// fraction so that scaling is exact integer arithmetic.
#[derive(Clone, Copy, Debug)]
pub struct FeeMultiplier {
    numerator: u64,
    denominator: u64,
}

impl FeeMultiplier {
    #[verifier::type_invariant]
    spec fn positive_denominator(&self) -> bool {
        self.denominator > 0
    }

    /// The upper part of the fraction.
    pub closed spec fn numerator(&self) -> nat {
        self.numerator as nat
    }

    /// The lower part of the fraction.
    pub closed spec fn denominator(&self) -> nat {
        self.denominator as nat
    }

    /// The factor `numerator / denominator`; there is none with a zero
    /// denominator.
    pub fn new(numerator: u64, denominator: u64) -> (multiplier: Option<FeeMultiplier>)
        ensures
            multiplier is None <==> denominator == 0,
            multiplier matches Some(m) ==> m.numerator() == numerator && m.denominator()
                == denominator,
    {
        if denominator == 0 {
            None
        } else {
            Some(FeeMultiplier { numerator, denominator })
        }
    }

    /// The factor that leaves every fee as it is.
    pub fn one() -> (multiplier: FeeMultiplier)
        ensures
            multiplier.numerator() == 1,
            multiplier.denominator() == 1,
    {
        FeeMultiplier { numerator: 1, denominator: 1 }
    }

    /// Scales `base_fee` by this factor, truncating the result.
    pub fn apply(&self, base_fee: u64) -> (fee: u64)
        ensures
            self.denominator() > 0,
            fee == scaled_fee(base_fee as nat, self.numerator(), self.denominator()),
    {
        proof {
            use_type_invariant(self);
            assert(base_fee as u128 * self.numerator as u128 <= u128::MAX) by (nonlinear_arith)
                requires
                    base_fee <= u64::MAX,
                    self.numerator <= u64::MAX,
            ;
        }
        let product: u128 = base_fee as u128 * self.numerator as u128;
        let exact: u128 = product / self.denominator as u128;
        if exact > u64::MAX as u128 {
            u64::MAX
        } else {
            exact as u64
        }
    }
}

/// Scaling truncates: the scaled fee is the largest whole number that,
/// multiplied by the denominator, does not exceed the exact product
/// (unless it is held at the 64-bit limit).
pub proof fn lemma_scaled_fee_truncates(base_fee: nat, numerator: nat, denominator: nat)
    requires
        denominator > 0,
    ensures
        scaled_fee(base_fee, numerator, denominator) * denominator <= base_fee * numerator,
        scaled_fee(base_fee, numerator, denominator) < u64::MAX ==> base_fee * numerator < (
        scaled_fee(base_fee, numerator, denominator) + 1) * denominator,
{
    let product = base_fee * numerator;
    let exact = product / denominator;
    assert(exact * denominator <= product < (exact + 1) * denominator) by (nonlinear_arith)
        requires
            denominator > 0,
            exact == product / denominator,
            product >= 0,
    ;
    if exact > u64::MAX {
        assert(u64::MAX * denominator <= exact * denominator) by (nonlinear_arith)
            requires
                u64::MAX <= exact,
                denominator > 0,
        ;
    }
}

} // verus!
