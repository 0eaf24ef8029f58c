//! Decomposition of an RSA modulus into fixed-width limbs.
//!
//! The proof circuit takes the identity provider's modulus as 121-bit
//! limbs, least significant first, with no trailing zero limb.  The
//! decomposition here is verified: the limbs are exactly the base-2^121
//! digits of the modulus, so their weighted sum reconstructs it.

use vstd::prelude::*;

verus! {

use crate::codec::be_val;
use crate::codec::digits_val;
use crate::codec::le_val;
use crate::codec::lemma_be_val_of_reversed;
use crate::codec::lemma_digits_val_snoc;
use crate::codec::lemma_le_val_snoc;
use vstd::arithmetic::mul::lemma_mul_is_associative;
use vstd::arithmetic::mul::lemma_mul_is_distributive_add;
use vstd::arithmetic::mul::lemma_mul_is_distributive_add_other_way;
use vstd::arithmetic::power::lemma_pow_multiplies;
use vstd::arithmetic::power::pow;
use vstd::arithmetic::power2::lemma2_to64;
use vstd::arithmetic::power2::lemma2_to64_rest;
use vstd::arithmetic::power2::lemma_pow2;
use vstd::arithmetic::power2::lemma_pow2_adds;
use vstd::arithmetic::power2::lemma_pow2_pos;
use vstd::arithmetic::power2::lemma_pow2_strictly_increases;
use vstd::arithmetic::power2::pow2;

/// Width of one limb, in bits, as the circuit's input layout fixes it.
pub open spec fn limb_bits() -> nat {
    121
}

/// The limbs read as integers.
pub open spec fn limbs_ints(s: Seq<u128>) -> Seq<int> {
    s.map_values(|x: u128| x as int)
}

/// The integer the limb sequence denotes: Σ limb_j · 2^(121·j).
pub open spec fn limbs_val(s: Seq<u128>) -> int {
    digits_val(limbs_ints(s), pow2(limb_bits()) as int)
}

/// 2^k, computed; k stays below 128.
fn pow2_u128(k: usize) -> (r: u128)
    requires
        k <= 127,
    ensures
        r == pow2(k as nat),
{
    let mut r: u128 = 1;
    let mut j: usize = 0;
    proof {
        lemma2_to64();
    }
    while j < k
        invariant
            0 <= j <= k <= 127,
            r == pow2(j as nat),
        decreases k - j,
    {
        proof {
            lemma_pow2_strictly_increases(j as nat, 127);
            lemma_pow2_big();
            lemma_pow2_adds(j as nat, 1);
            lemma2_to64();
        }
        r = r * 2;
        j = j + 1;
    }
    r
}

/// The powers of two above the table in vstd that this module needs.
pub proof fn lemma_pow2_big()
    ensures
        pow2(113) == 0x20000000000000000000000000000,
        pow2(120) == 0x1000000000000000000000000000000,
        pow2(121) == 0x2000000000000000000000000000000,
        pow2(127) == 0x80000000000000000000000000000000,
        pow2(128) == 0x100000000000000000000000000000000,
{
    lemma2_to64();
    lemma2_to64_rest();
    lemma_pow2_adds(64, 49);
    lemma_pow2_adds(64, 56);
    lemma_pow2_adds(64, 57);
    lemma_pow2_adds(64, 63);
    lemma_pow2_adds(64, 64);
}

/// pow(256, i) is pow2(8·i).
pub proof fn lemma_pow256_is_pow2(i: nat)
    ensures
        pow(256, i) == pow2(8 * i),
{
    lemma_pow2(8 * i);
    lemma_pow2(8);
    lemma2_to64();
    lemma_pow_multiplies(2, 8, i);
}

/// pow(2^121, l) is pow2(121·l).
proof fn lemma_pow_limb_base(l: nat)
    ensures
        pow(pow2(limb_bits()) as int, l) == pow2(limb_bits() * l),
{
    lemma_pow2(limb_bits());
    lemma_pow2(limb_bits() * l);
    lemma_pow_multiplies(2, limb_bits(), l);
}

/// A digit string with a non-zero most significant digit has a positive
/// value.
proof fn lemma_digits_val_pos(s: Seq<int>, base: int)
    requires
        base >= 2,
        s.len() > 0,
        forall|i: int| 0 <= i < s.len() ==> 0 <= #[trigger] s[i],
        s.last() != 0,
    ensures
        digits_val(s, base) > 0,
    decreases s.len(),
{
    if s.len() == 1 {
        assert(digits_val(s, base) == s[0] + base * digits_val(s.skip(1), base));
        assert(s.skip(1) =~= Seq::<int>::empty());
    } else {
        let t = s.skip(1);
        assert(t.last() == s.last());
        assert(forall|i: int| 0 <= i < t.len() ==> 0 <= #[trigger] t[i]);
        lemma_digits_val_pos(t, base);
        assert(base * digits_val(t, base) >= base) by {
            vstd::arithmetic::mul::lemma_mul_inequality(1, digits_val(t, base), base);
        }
    }
}

/// Two digit strings in the same base, without trailing zeros, that denote
/// the same integer are the same string: the decomposition the chunker
/// returns is the only one its contract admits.
pub proof fn lemma_digits_unique(a: Seq<int>, b: Seq<int>, base: int)
    requires
        base >= 2,
        forall|i: int| 0 <= i < a.len() ==> 0 <= #[trigger] a[i] < base,
        forall|i: int| 0 <= i < b.len() ==> 0 <= #[trigger] b[i] < base,
        a.len() > 0 ==> a.last() != 0,
        b.len() > 0 ==> b.last() != 0,
        digits_val(a, base) == digits_val(b, base),
    ensures
        a == b,
    decreases a.len(),
{
    if a.len() == 0 && b.len() == 0 {
        assert(a =~= b);
    } else if a.len() == 0 {
        lemma_digits_val_pos(b, base);
        assert(false);
    } else if b.len() == 0 {
        lemma_digits_val_pos(a, base);
        assert(false);
    } else {
        let n = digits_val(a, base);
        lemma_digits_bounded_nonneg(a.skip(1), base);
        lemma_digits_bounded_nonneg(b.skip(1), base);
        assert(n == digits_val(a.skip(1), base) * base + a[0]) by {
            vstd::arithmetic::mul::lemma_mul_is_commutative(base, digits_val(a.skip(1), base));
        }
        assert(n == digits_val(b.skip(1), base) * base + b[0]) by {
            vstd::arithmetic::mul::lemma_mul_is_commutative(base, digits_val(b.skip(1), base));
        }
        vstd::arithmetic::div_mod::lemma_fundamental_div_mod_converse(
            n,
            base,
            digits_val(a.skip(1), base),
            a[0],
        );
        vstd::arithmetic::div_mod::lemma_fundamental_div_mod_converse(
            n,
            base,
            digits_val(b.skip(1), base),
            b[0],
        );
        assert(a[0] == b[0]);
        assert(digits_val(a.skip(1), base) == digits_val(b.skip(1), base));
        if a.len() == 1 && b.len() > 1 {
            assert(a.skip(1) =~= Seq::<int>::empty());
            assert(b.skip(1).last() == b.last());
            lemma_digits_val_pos(b.skip(1), base);
            assert(false);
        } else if b.len() == 1 && a.len() > 1 {
            assert(b.skip(1) =~= Seq::<int>::empty());
            assert(a.skip(1).last() == a.last());
            lemma_digits_val_pos(a.skip(1), base);
            assert(false);
        } else if a.len() == 1 && b.len() == 1 {
            assert(a =~= b);
        } else {
            assert(a.skip(1).last() == a.last());
            assert(b.skip(1).last() == b.last());
            lemma_digits_unique(a.skip(1), b.skip(1), base);
            assert(forall|i: int| 1 <= i < a.len() ==> #[trigger] a[i] == a.skip(1)[i - 1]);
            assert(forall|i: int| 1 <= i < b.len() ==> #[trigger] b[i] == b.skip(1)[i - 1]);
            assert(a =~= b);
        }
    }
}

/// A bounded digit string has a non-negative value.
proof fn lemma_digits_bounded_nonneg(s: Seq<int>, base: int)
    requires
        base >= 2,
        forall|i: int| 0 <= i < s.len() ==> 0 <= #[trigger] s[i] < base,
    ensures
        digits_val(s, base) >= 0,
    decreases s.len(),
{
    if s.len() > 0 {
        lemma_digits_bounded_nonneg(s.skip(1), base);
        assert(base * digits_val(s.skip(1), base) >= 0) by {
            vstd::arithmetic::mul::lemma_mul_nonnegative(base, digits_val(s.skip(1), base));
        }
    }
}

/// Split a big-endian byte string into 121-bit limbs, least significant
/// limb first, with no trailing zero limb: the base-2^121 digits of the
/// modulus.
pub fn chunk_modulus_bytes(n_bytes: &Vec<u8>) -> (r: Vec<u128>)
    ensures
        forall|i: int| 0 <= i < r@.len() ==> (#[trigger] r@[i]) < pow2(limb_bits()),
        limbs_val(r@) == be_val(n_bytes@),
        r@.len() > 0 ==> r@.last() != 0,
        be_val(n_bytes@) == 0 ==> r@.len() == 0,
{
    // Reverse into least-significant-byte-first order.
    let mut rev: Vec<u8> = Vec::new();
    let mut k: usize = n_bytes.len();
    while k > 0
        invariant
            0 <= k <= n_bytes@.len(),
            rev@.len() == n_bytes@.len() - k,
            forall|i: int| 0 <= i < rev@.len() ==> rev@[i] == n_bytes@[n_bytes@.len() - 1 - i],
        decreases k,
    {
        k = k - 1;
        rev.push(n_bytes[k]);
    }
    proof {
        lemma_be_val_of_reversed(n_bytes@, rev@);
    }
    // Consume bytes, least significant first, filling one limb at a time.
    let mut limbs: Vec<u128> = Vec::new();
    let mut acc: u128 = 0;
    let mut nbits: usize = 0;
    let mut i: usize = 0;
    proof {
        assert(rev@.take(0) =~= Seq::<u8>::empty());
        assert(limbs_ints(limbs@) =~= Seq::<int>::empty());
        lemma2_to64();
    }
    while i < rev.len()
        invariant
            0 <= i <= rev@.len(),
            0 <= nbits <= 120,
            acc < pow2(nbits as nat),
            8 * i == limb_bits() * limbs@.len() + nbits,
            limbs_val(limbs@) + acc * pow2(limb_bits() * limbs@.len()) == le_val(
                rev@.take(i as int),
            ),
            forall|j: int| 0 <= j < limbs@.len() ==> (#[trigger] limbs@[j]) < pow2(limb_bits()),
        decreases rev@.len() - i,
    {
        let b = rev[i];
        let ghost old_limbs = limbs@;
        let ghost old_acc = acc as int;
        let ghost old_nbits = nbits as nat;
        let ghost lcount = limbs@.len() as nat;
        proof {
            lemma_le_val_snoc(rev@.take(i as int), rev@[i as int]);
            assert(rev@.take(i + 1) =~= rev@.take(i as int).push(rev@[i as int]));
            lemma_pow256_is_pow2(i as nat);
        }
        if nbits < 113 {
            // The whole byte fits into the current limb.
            let p = pow2_u128(nbits);
            proof {
                lemma_pow2_strictly_increases(old_nbits, 113);
                lemma_pow2_big();
                assert(b * p <= 255 * pow2(113)) by {
                    vstd::arithmetic::mul::lemma_mul_inequality(
                        p as int,
                        pow2(113) as int,
                        b as int,
                    );
                    vstd::arithmetic::mul::lemma_mul_is_commutative(b as int, p as int);
                    vstd::arithmetic::mul::lemma_mul_inequality(b as int, 255, pow2(113) as int);
                    vstd::arithmetic::mul::lemma_mul_is_commutative(255, pow2(113) as int);
                }
            }
            acc = acc + (b as u128) * p;
            nbits = nbits + 8;
            proof {
                // The new accumulator stays below 2^nbits.
                lemma_pow2_adds(old_nbits, 8);
                assert(old_acc + b * pow2(old_nbits) < pow2(old_nbits + 8)) by {
                    assert(b as int <= 255);
                    assert(b * pow2(old_nbits) <= 255 * pow2(old_nbits)) by {
                        lemma_pow2_pos(old_nbits);
                        vstd::arithmetic::mul::lemma_mul_inequality(
                            b as int,
                            255,
                            pow2(old_nbits) as int,
                        );
                        vstd::arithmetic::mul::lemma_mul_is_commutative(b as int, pow2(
                            old_nbits,
                        ) as int);
                        vstd::arithmetic::mul::lemma_mul_is_commutative(255, pow2(
                            old_nbits,
                        ) as int);
                    }
                    assert(256 * pow2(old_nbits) == pow2(old_nbits + 8)) by {
                        lemma2_to64();
                    }
                }
                // The running sum absorbs the byte at its bit position.
                let pl = pow2(limb_bits() * lcount) as int;
                assert((old_acc + b * pow2(old_nbits)) * pl == old_acc * pl + (b * pow2(
                    old_nbits,
                )) * pl) by {
                    lemma_mul_is_distributive_add_other_way(
                        pl,
                        old_acc,
                        b * pow2(old_nbits) as int,
                    );
                }
                assert((b * pow2(old_nbits)) * pl == b * pow2(old_nbits + limb_bits() * lcount))
                    by {
                    lemma_pow2_adds(old_nbits, limb_bits() * lcount);
                    lemma_mul_is_associative(b as int, pow2(old_nbits) as int, pl);
                }
                assert(old_nbits + limb_bits() * lcount == 8 * i);
            }
        } else {
            // The byte straddles the limb boundary: close the limb with its
            // low bits, start the next with its high bits.
            let take_bits: usize = 121 - nbits;
            let ghost tb = take_bits as nat;
            let tp_small = pow2_u128(take_bits);
            proof {
                lemma_pow2_strictly_increases(tb, 9);
                lemma2_to64();
            }
            let tp = tp_small as u32;
            let low = (b as u32) % tp;
            let high = (b as u32) / tp;
            let p = pow2_u128(nbits);
            proof {
                lemma_pow2_big();
                lemma_pow2_adds(old_nbits, tb);
                assert(old_nbits + tb == limb_bits());
                assert(low < pow2(tb));
                assert(low * pow2(old_nbits) <= (pow2(tb) - 1) * pow2(old_nbits)) by {
                    lemma_pow2_pos(old_nbits);
                    vstd::arithmetic::mul::lemma_mul_inequality(
                        low as int,
                        pow2(tb) - 1,
                        pow2(old_nbits) as int,
                    );
                    vstd::arithmetic::mul::lemma_mul_is_commutative(low as int, pow2(
                        old_nbits,
                    ) as int);
                    vstd::arithmetic::mul::lemma_mul_is_commutative(pow2(tb) - 1, pow2(
                        old_nbits,
                    ) as int);
                }
                assert((pow2(tb) - 1) * pow2(old_nbits) == pow2(tb) * pow2(old_nbits) + (-1)
                    * pow2(old_nbits)) by {
                    lemma_mul_is_distributive_add_other_way(
                        pow2(old_nbits) as int,
                        pow2(tb) as int,
                        -1,
                    );
                }
                assert(pow2(tb) * pow2(old_nbits) == pow2(limb_bits())) by {
                    lemma_pow2_adds(tb, old_nbits);
                    assert(tb + old_nbits == limb_bits());
                }
                assert((pow2(tb) - 1) * pow2(old_nbits) == pow2(limb_bits()) - pow2(old_nbits));
                lemma_pow2_pos(old_nbits);
            }
            let limb = acc + (low as u128) * p;
            limbs.push(limb);
            acc = (high as u128);
            nbits = 8 - take_bits;
            i = i + 1;
            proof {
                let lv = limbs_ints(limbs@);
                let olv = limbs_ints(old_limbs);
                assert(lv =~= olv.push(limb as int));
                lemma_digits_val_snoc(olv, pow2(limb_bits()) as int, limb as int);
                lemma_pow_limb_base(lcount);
                // acc stays below 2^nbits.
                assert(high < pow2((8 - tb) as nat)) by {
                    assert(b as int == low + high * pow2(tb)) by {
                        vstd::arithmetic::div_mod::lemma_fundamental_div_mod(b as int, tp as int);
                        vstd::arithmetic::mul::lemma_mul_is_commutative(tp as int, high as int);
                    }
                    if high >= pow2((8 - tb) as nat) {
                        assert(high * pow2(tb) >= pow2((8 - tb) as nat) * pow2(tb)) by {
                            lemma_pow2_pos(tb);
                            vstd::arithmetic::mul::lemma_mul_inequality(
                                pow2((8 - tb) as nat) as int,
                                high as int,
                                pow2(tb) as int,
                            );
                            vstd::arithmetic::mul::lemma_mul_is_commutative(high as int, pow2(
                                tb,
                            ) as int);
                            vstd::arithmetic::mul::lemma_mul_is_commutative(
                                pow2((8 - tb) as nat) as int,
                                pow2(tb) as int,
                            );
                        }
                        lemma_pow2_adds((8 - tb) as nat, tb);
                        lemma2_to64();
                        assert(false);
                    }
                }
                // The running sum keeps its value across the limb close.
                let pl = pow2(limb_bits() * lcount) as int;
                let pl1 = pow2(limb_bits() * (lcount + 1)) as int;
                assert(b as int == low + high * pow2(tb)) by {
                    vstd::arithmetic::div_mod::lemma_fundamental_div_mod(b as int, tp as int);
                    vstd::arithmetic::mul::lemma_mul_is_commutative(tp as int, high as int);
                }
                // b * 2^(8i) splits into the low part, which lands inside the
                // closed limb, and the high part, which seeds the next one.
                assert((b as int) * pow2((8 * i - 8) as nat) == low * pow2((8 * i - 8) as nat) + (high * pow2(tb))
                    * pow2((8 * i - 8) as nat)) by {
                    lemma_mul_is_distributive_add_other_way(
                        pow2((8 * i - 8) as nat) as int,
                        low as int,
                        high as int * pow2(tb) as int,
                    );
                }
                assert(8 * i - 8 == old_nbits + limb_bits() * lcount);
                assert(low * pow2((8 * i - 8) as nat) == (low * pow2(old_nbits)) * pl) by {
                    lemma_pow2_adds(old_nbits, limb_bits() * lcount);
                    lemma_mul_is_associative(low as int, pow2(old_nbits) as int, pl);
                }
                assert((high * pow2(tb)) * pow2((8 * i - 8) as nat) == high * pl1) by {
                    lemma_pow2_adds(tb, (8 * i - 8) as nat);
                    lemma_mul_is_associative(high as int, pow2(tb) as int, pow2(
                        (8 * i - 8) as nat,
                    ) as int);
                    assert(tb + (8 * i - 8) == limb_bits() * (lcount + 1));
                }
                assert((limb as int) * pl == old_acc * pl + (low * pow2(old_nbits)) * pl) by {
                    lemma_mul_is_distributive_add_other_way(
                        pl,
                        old_acc,
                        low as int * pow2(old_nbits) as int,
                    );
                }
                assert(limb_bits() * (lcount + 1) == limb_bits() * lcount + limb_bits()) by {
                    lemma_mul_is_distributive_add(limb_bits() as int, lcount as int, 1);
                }
            }
            continue;
        }
        i = i + 1;
    }
    proof {
        assert(rev@.take(rev@.len() as int) =~= rev@);
    }
    // Close the final partial limb.
    if acc != 0 {
        proof {
            lemma_digits_val_snoc(limbs_ints(limbs@), pow2(limb_bits()) as int, acc as int);
            lemma_pow_limb_base(limbs@.len() as nat);
            lemma_pow2_strictly_increases(nbits as nat, limb_bits());
        }
        let ghost old_limbs = limbs@;
        limbs.push(acc);
        proof {
            assert(limbs_ints(limbs@) =~= limbs_ints(old_limbs).push(acc as int));
        }
    } else {
        proof {
            assert(acc as int * pow2(limb_bits() * limbs@.len()) == 0);
        }
    }
    // Drop trailing zero limbs so that the encoding is canonical.
    while limbs.len() > 0 && limbs[limbs.len() - 1] == 0
        invariant
            forall|j: int| 0 <= j < limbs@.len() ==> (#[trigger] limbs@[j]) < pow2(limb_bits()),
            limbs_val(limbs@) == be_val(n_bytes@),
        decreases limbs@.len(),
    {
        let ghost old_limbs = limbs@;
        limbs.pop();
        proof {
            assert(limbs@ =~= old_limbs.drop_last());
            let lv = limbs_ints(limbs@);
            assert(limbs_ints(old_limbs) =~= lv.push(0));
            lemma_digits_val_snoc(lv, pow2(limb_bits()) as int, 0);
            assert(digits_val(lv.push(0), pow2(limb_bits()) as int) == digits_val(lv, pow2(limb_bits()) as int) + 0 * pow(
                pow2(limb_bits()) as int,
                lv.len() as nat,
            ));
            assert(0 * pow(pow2(limb_bits()) as int, lv.len() as nat) == 0);
            assert(limbs_val(old_limbs) == digits_val(lv.push(0), pow2(limb_bits()) as int));
            assert(limbs_val(limbs@) == digits_val(lv, pow2(limb_bits()) as int));
        }
    }
    proof {
        if limbs@.len() > 0 && be_val(n_bytes@) == 0 {
            let lv = limbs_ints(limbs@);
            assert(lv.last() == limbs@.last() as int);
            lemma_digits_val_pos(lv, pow2(limb_bits()) as int);
            assert(false);
        }
    }
    limbs
}

} // verus!
