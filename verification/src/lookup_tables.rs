//! Curated lookup tables mapping common odds values across representations.
//! Decimal-keyed tables hold the decimal value scaled by `10^4` (every
//! curated key has at most four fractional digits), so that lookup is by
//! exact value equality. The tables are built on demand; they are read-only
//! mappings and every call returns the same contents.

use std::collections::HashMap;

use vstd::arithmetic::div_mod::{
    lemma_div_multiples_vanish, lemma_fundamental_div_mod_converse, lemma_mod_multiples_basic,
};
use vstd::arithmetic::mul::lemma_mul_is_commutative;
use vstd::prelude::*;

use crate::decimal::{iabs, lemma_pow10_28, lemma_pow10_adds, lemma_pow10_increases,
    lemma_pow10_pos, pow10, pow10_i128, Dec, MAX_MANTISSA, MAX_SCALE};

verus! {

broadcast use vstd::std_specs::hash::group_hash_axioms;

/// The table key a decimal value corresponds to: the value scaled by `10^4`,
/// when that is an integer in `i64` range.
pub open spec fn dec_key_of(v: Dec) -> Option<i64> {
    let k: int = v.s28() / pow10(24);
    if v.s28() % pow10(24) == 0 && i64::MIN <= k && k <= i64::MAX {
        Some(k as i64)
    } else {
        None
    }
}

/// Computes the table key of a decimal, if it has one.
pub fn dec_table_key(v: &Dec) -> (r: Option<i64>)
    requires
        v.wf(),
    ensures
        r == dec_key_of(*v),
{
    proof {
        lemma_pow10_28();
        lemma_pow10_pos((MAX_SCALE - v.s) as nat);
        lemma_pow10_pos(v.s as nat);
    }
    if v.s <= 4 {
        let f = pow10_i128(4 - v.s);
        proof {
            lemma_pow10_increases((4 - v.s) as nat, 4nat);
            reveal_with_fuel(pow10, 5);
            assert(iabs(v.m as int * f) <= MAX_MANTISSA * 10000) by (nonlinear_arith)
                requires
                    -MAX_MANTISSA <= v.m <= MAX_MANTISSA,
                    0 < f <= 10000,
            ;
        }
        let k128: i128 = v.m * f;
        proof {
            lemma_pow10_adds((4 - v.s) as nat, 24);
            assert((28 - v.s as int) as nat == (4 - v.s as int) as nat + 24nat);
            assert(v.s28() == (k128 as int) * pow10(24)) by (nonlinear_arith)
                requires
                    v.s28() == (v.m as int) * pow10((28 - v.s as int) as nat),
                    pow10((28 - v.s as int) as nat) == pow10((4 - v.s as int) as nat) * pow10(24),
                    k128 as int == (v.m as int) * pow10((4 - v.s as int) as nat),
            ;
            lemma_pow10_pos(24);
            lemma_mul_is_commutative(k128 as int, pow10(24));
            lemma_mod_multiples_basic(k128 as int, pow10(24));
            lemma_div_multiples_vanish(k128 as int, pow10(24));
            assert(v.s28() % pow10(24) == 0);
            assert(v.s28() / pow10(24) == k128 as int);
        }
        if i64::MIN as i128 <= k128 && k128 <= i64::MAX as i128 {
            proof {
                assert(dec_key_of(*v) == Some(k128 as i64));
            }
            Some(k128 as i64)
        } else {
            proof {
                assert(dec_key_of(*v) is None);
            }
            None
        }
    } else {
        let d = pow10_i128(v.s - 4);
        let neg = v.m < 0;
        let am: i128 = if neg { -v.m } else { v.m };
        let q = am / d;
        let r0 = am % d;
        proof {
            lemma_pow10_pos((v.s - 4) as nat);
            lemma_pow10_adds((v.s - 4) as nat, (28 - v.s as int) as nat);
            assert((v.s - 4) as nat + (28 - v.s as int) as nat == 24nat);
            lemma_pow10_pos(24);
        }
        let ghost e: int = pow10((28 - v.s as int) as nat);
        let ghost de: int = pow10(24);
        if r0 == 0 {
            let k128: i128 = if neg { -q } else { q };
            proof {
                assert(am == q * d + 0) by {
                    assert(am / d * d + am % d == am) by (nonlinear_arith)
                        requires d > 0, am >= 0;
                };
                assert(v.s28() == (k128 as int) * de) by (nonlinear_arith)
                    requires
                        v.s28() == (v.m as int) * e,
                        de == (d as int) * e,
                        (if neg { -(k128 as int) } else { k128 as int }) * (d as int)
                            == (if neg { -(v.m as int) } else { v.m as int }),
                        neg ==> v.m as int == -((-(k128 as int)) * d),
                        !neg ==> v.m as int == k128 as int * d,
                ;
                lemma_mul_is_commutative(k128 as int, de);
                lemma_mod_multiples_basic(k128 as int, de);
                lemma_div_multiples_vanish(k128 as int, de);
                assert(v.s28() % pow10(24) == 0);
                assert(v.s28() / pow10(24) == k128 as int);
            }
            if i64::MIN as i128 <= k128 && k128 <= i64::MAX as i128 {
                proof {
                    assert(dec_key_of(*v) == Some(k128 as i64));
                }
                Some(k128 as i64)
            } else {
                proof {
                    assert(dec_key_of(*v) is None);
                }
                None
            }
        } else {
            proof {
                assert(am == q * d + r0 && 0 < r0 < d) by (nonlinear_arith)
                    requires
                        d > 0,
                        am >= 0,
                        q == am / d,
                        r0 == am % d,
                        r0 != 0,
                ;
                lemma_pow10_pos((28 - v.s as int) as nat);
                assert(0 < r0 * e < (d as int) * e) by (nonlinear_arith)
                    requires 0 < r0 < d, e >= 1;
                if neg {
                    assert(v.s28() == (-(q as int) - 1) * de + (de - r0 * e)) by (nonlinear_arith)
                        requires
                            v.s28() == (v.m as int) * e,
                            v.m as int == -(q * d + r0),
                            de == (d as int) * e,
                    ;
                    lemma_fundamental_div_mod_converse(v.s28(), de, -(q as int) - 1, de - r0 * e);
                } else {
                    assert(v.s28() == (q as int) * de + r0 * e) by (nonlinear_arith)
                        requires
                            v.s28() == (v.m as int) * e,
                            v.m as int == q * d + r0,
                            de == (d as int) * e,
                    ;
                    lemma_fundamental_div_mod_converse(v.s28(), de, q as int, r0 * e);
                }
                assert(dec_key_of(*v) is None);
            }
            None
        }
    }
}



/// Contents of the basic decimal-to-fraction table.
pub open spec fn decimal_to_fraction_basic() -> Map<i64, (u32, u32)> {
    Map::empty()
        .insert(10100i64, (1u32, 100u32))
        .insert(12000i64, (1u32, 5u32))
        .insert(12200i64, (2u32, 9u32))
        .insert(12500i64, (1u32, 4u32))
        .insert(12900i64, (2u32, 7u32))
        .insert(13000i64, (3u32, 10u32))
        .insert(13300i64, (1u32, 3u32))
        .insert(13600i64, (4u32, 11u32))
        .insert(14000i64, (2u32, 5u32))
        .insert(14400i64, (4u32, 9u32))
        .insert(15000i64, (1u32, 2u32))
        .insert(15300i64, (8u32, 15u32))
        .insert(15700i64, (4u32, 7u32))
        .insert(16200i64, (8u32, 13u32))
        .insert(16700i64, (4u32, 6u32))
        .insert(17300i64, (8u32, 11u32))
        .insert(18000i64, (4u32, 5u32))
        .insert(18300i64, (5u32, 6u32))
        .insert(19100i64, (10u32, 11u32))
        .insert(20000i64, (1u32, 1u32))
        .insert(20500i64, (21u32, 20u32))
        .insert(21000i64, (11u32, 10u32))
        .insert(21500i64, (23u32, 20u32))
        .insert(22000i64, (6u32, 5u32))
        .insert(22500i64, (5u32, 4u32))
        .insert(23800i64, (11u32, 8u32))
        .insert(24000i64, (7u32, 5u32))
        .insert(25000i64, (6u32, 4u32))
        .insert(26000i64, (8u32, 5u32))
        .insert(26200i64, (13u32, 8u32))
        .insert(27500i64, (7u32, 4u32))
        .insert(28000i64, (9u32, 5u32))
        .insert(28800i64, (15u32, 8u32))
        .insert(30000i64, (2u32, 1u32))
        .insert(32000i64, (11u32, 5u32))
        .insert(32500i64, (9u32, 4u32))
        .insert(34000i64, (12u32, 5u32))
        .insert(35000i64, (5u32, 2u32))
        .insert(36000i64, (13u32, 5u32))
        .insert(37500i64, (11u32, 4u32))
        .insert(40000i64, (3u32, 1u32))
        .insert(42000i64, (16u32, 5u32))
        .insert(43300i64, (10u32, 3u32))
        .insert(45000i64, (7u32, 2u32))
        .insert(50000i64, (4u32, 1u32))
        .insert(55000i64, (9u32, 2u32))
        .insert(60000i64, (5u32, 1u32))
        .insert(65000i64, (11u32, 2u32))
        .insert(70000i64, (6u32, 1u32))
        .insert(75000i64, (13u32, 2u32))
        .insert(80000i64, (7u32, 1u32))
        .insert(85000i64, (15u32, 2u32))
        .insert(90000i64, (8u32, 1u32))
        .insert(100000i64, (9u32, 1u32))
        .insert(110000i64, (10u32, 1u32))
        .insert(120000i64, (11u32, 1u32))
        .insert(130000i64, (12u32, 1u32))
        .insert(140000i64, (13u32, 1u32))
        .insert(150000i64, (14u32, 1u32))
        .insert(160000i64, (15u32, 1u32))
        .insert(170000i64, (16u32, 1u32))
        .insert(190000i64, (18u32, 1u32))
        .insert(210000i64, (20u32, 1u32))
        .insert(260000i64, (25u32, 1u32))
        .insert(340000i64, (33u32, 1u32))
        .insert(510000i64, (50u32, 1u32))
        .insert(670000i64, (66u32, 1u32))
        .insert(1010000i64, (100u32, 1u32))
        .insert(10010000i64, (1000u32, 1u32))
}


/// First part of the extended decimal-to-fraction table.
pub open spec fn decimal_to_fraction_extended_a() -> Map<i64, (u32, u32)> {
    Map::empty()
        .insert(10010i64, (1u32, 1000u32))
        .insert(10013i64, (1u32, 750u32))
        .insert(10020i64, (1u32, 500u32))
        .insert(10025i64, (1u32, 400u32))
        .insert(10030i64, (1u32, 300u32))
        .insert(10040i64, (1u32, 250u32))
        .insert(10050i64, (1u32, 200u32))
        .insert(10070i64, (1u32, 150u32))
        .insert(10120i64, (1u32, 80u32))
        .insert(10150i64, (1u32, 66u32))
        .insert(10200i64, (1u32, 50u32))
        .insert(10250i64, (1u32, 40u32))
        .insert(10300i64, (1u32, 33u32))
        .insert(10400i64, (1u32, 25u32))
        .insert(10500i64, (1u32, 20u32))
        .insert(10550i64, (1u32, 18u32))
        .insert(10600i64, (1u32, 16u32))
        .insert(10700i64, (1u32, 14u32))
        .insert(10800i64, (1u32, 12u32))
        .insert(10900i64, (1u32, 11u32))
        .insert(11000i64, (1u32, 10u32))
        .insert(11100i64, (1u32, 9u32))
        .insert(11200i64, (1u32, 8u32))
        .insert(11300i64, (2u32, 15u32))
        .insert(11400i64, (1u32, 7u32))
        .insert(11500i64, (2u32, 13u32))
        .insert(11600i64, (1u32, 6u32))
        .insert(11800i64, (2u32, 11u32))
        .insert(11900i64, (19u32, 100u32))
        .insert(12100i64, (21u32, 100u32))
        .insert(12300i64, (23u32, 100u32))
        .insert(12400i64, (6u32, 25u32))
        .insert(12600i64, (13u32, 50u32))
        .insert(12700i64, (27u32, 100u32))
        .insert(13100i64, (31u32, 100u32))
        .insert(13200i64, (8u32, 25u32))
        .insert(13400i64, (17u32, 50u32))
        .insert(13500i64, (7u32, 20u32))
        .insert(13700i64, (37u32, 100u32))
        .insert(13800i64, (19u32, 50u32))
        .insert(13900i64, (39u32, 100u32))
        .insert(14100i64, (41u32, 100u32))
        .insert(14200i64, (21u32, 50u32))
        .insert(14300i64, (43u32, 100u32))
        .insert(14500i64, (9u32, 20u32))
        .insert(14600i64, (23u32, 50u32))
        .insert(14700i64, (40u32, 85u32))
        .insert(14800i64, (12u32, 25u32))
        .insert(14900i64, (49u32, 100u32))
        .insert(15100i64, (51u32, 100u32))
        .insert(15200i64, (13u32, 25u32))
        .insert(15400i64, (27u32, 50u32))
        .insert(15500i64, (11u32, 20u32))
        .insert(15600i64, (14u32, 25u32))
        .insert(15800i64, (29u32, 50u32))
        .insert(15900i64, (59u32, 100u32))
        .insert(16000i64, (3u32, 5u32))
        .insert(16100i64, (8u32, 13u32))
        .insert(16300i64, (63u32, 100u32))
        .insert(16400i64, (16u32, 25u32))
        .insert(16500i64, (13u32, 20u32))
        .insert(16600i64, (4u32, 6u32))
        .insert(16800i64, (34u32, 50u32))
        .insert(16900i64, (69u32, 100u32))
        .insert(17000i64, (7u32, 10u32))
        .insert(17100i64, (71u32, 100u32))
        .insert(17200i64, (8u32, 11u32))
        .insert(17400i64, (37u32, 50u32))
        .insert(17500i64, (3u32, 4u32))
        .insert(17600i64, (19u32, 25u32))
        .insert(17700i64, (77u32, 100u32))
        .insert(17800i64, (39u32, 50u32))
        .insert(17900i64, (79u32, 100u32))
        .insert(18100i64, (81u32, 100u32))
        .insert(18200i64, (41u32, 50u32))
        .insert(18400i64, (21u32, 25u32))
}

/// Second part of the extended decimal-to-fraction table.
pub open spec fn decimal_to_fraction_extended_b() -> Map<i64, (u32, u32)> {
    decimal_to_fraction_extended_a()
        .insert(18500i64, (17u32, 20u32))
        .insert(18600i64, (20u32, 23u32))
        .insert(18700i64, (87u32, 100u32))
        .insert(18800i64, (22u32, 25u32))
        .insert(18900i64, (89u32, 100u32))
        .insert(19000i64, (9u32, 10u32))
        .insert(19200i64, (23u32, 25u32))
        .insert(19300i64, (93u32, 100u32))
        .insert(19400i64, (47u32, 50u32))
        .insert(19500i64, (20u32, 21u32))
        .insert(19600i64, (24u32, 25u32))
        .insert(19700i64, (97u32, 100u32))
        .insert(19800i64, (49u32, 50u32))
        .insert(19900i64, (99u32, 100u32))
        .insert(20100i64, (101u32, 100u32))
        .insert(20200i64, (51u32, 50u32))
        .insert(20300i64, (103u32, 100u32))
        .insert(20400i64, (26u32, 25u32))
        .insert(20600i64, (53u32, 50u32))
        .insert(20700i64, (107u32, 100u32))
        .insert(20800i64, (27u32, 25u32))
        .insert(20900i64, (109u32, 100u32))
        .insert(21100i64, (111u32, 100u32))
        .insert(21200i64, (28u32, 25u32))
        .insert(21300i64, (113u32, 100u32))
        .insert(21400i64, (57u32, 50u32))
        .insert(21600i64, (29u32, 25u32))
        .insert(21700i64, (117u32, 100u32))
        .insert(21800i64, (59u32, 50u32))
        .insert(21900i64, (119u32, 100u32))
        .insert(22100i64, (121u32, 100u32))
        .insert(22200i64, (61u32, 50u32))
        .insert(22300i64, (123u32, 100u32))
        .insert(22400i64, (31u32, 25u32))
        .insert(22600i64, (63u32, 50u32))
        .insert(22700i64, (127u32, 100u32))
        .insert(22800i64, (32u32, 25u32))
        .insert(23000i64, (13u32, 10u32))
        .insert(23200i64, (33u32, 25u32))
        .insert(23400i64, (67u32, 50u32))
        .insert(23500i64, (27u32, 20u32))
        .insert(23600i64, (34u32, 25u32))
        .insert(23700i64, (11u32, 8u32))
        .insert(24200i64, (71u32, 50u32))
        .insert(24400i64, (36u32, 25u32))
        .insert(24500i64, (29u32, 20u32))
        .insert(24600i64, (73u32, 50u32))
        .insert(24800i64, (37u32, 25u32))
        .insert(25200i64, (38u32, 25u32))
        .insert(25400i64, (77u32, 50u32))
        .insert(25600i64, (39u32, 25u32))
        .insert(25800i64, (79u32, 50u32))
        .insert(26400i64, (41u32, 25u32))
        .insert(26600i64, (83u32, 50u32))
        .insert(26800i64, (42u32, 25u32))
        .insert(27000i64, (17u32, 10u32))
        .insert(27200i64, (43u32, 25u32))
        .insert(27400i64, (87u32, 50u32))
        .insert(27600i64, (44u32, 25u32))
        .insert(27800i64, (89u32, 50u32))
        .insert(28200i64, (91u32, 50u32))
        .insert(28400i64, (46u32, 25u32))
        .insert(28600i64, (93u32, 50u32))
        .insert(28700i64, (15u32, 8u32))
        .insert(29000i64, (19u32, 10u32))
        .insert(29200i64, (48u32, 25u32))
        .insert(29400i64, (97u32, 50u32))
        .insert(29600i64, (49u32, 25u32))
        .insert(29800i64, (99u32, 50u32))
        .insert(30500i64, (41u32, 20u32))
        .insert(31000i64, (21u32, 10u32))
        .insert(31250i64, (85u32, 40u32))
        .insert(31500i64, (43u32, 20u32))
        .insert(33000i64, (23u32, 10u32))
        .insert(33500i64, (47u32, 20u32))
        .insert(34500i64, (49u32, 20u32))
}

/// Contents of the extended decimal-to-fraction table.
pub open spec fn decimal_to_fraction_extended() -> Map<i64, (u32, u32)> {
    decimal_to_fraction_extended_b()
        .insert(35500i64, (51u32, 20u32))
        .insert(36500i64, (53u32, 20u32))
        .insert(37000i64, (27u32, 10u32))
        .insert(38000i64, (14u32, 5u32))
        .insert(38500i64, (57u32, 20u32))
        .insert(39500i64, (59u32, 20u32))
        .insert(40500i64, (61u32, 20u32))
        .insert(41000i64, (31u32, 10u32))
        .insert(41500i64, (63u32, 20u32))
        .insert(42500i64, (13u32, 4u32))
        .insert(43000i64, (33u32, 10u32))
        .insert(43500i64, (67u32, 20u32))
        .insert(44000i64, (17u32, 5u32))
        .insert(44500i64, (69u32, 20u32))
        .insert(45500i64, (71u32, 20u32))
        .insert(46000i64, (18u32, 5u32))
        .insert(46500i64, (73u32, 20u32))
        .insert(47000i64, (37u32, 10u32))
        .insert(47500i64, (15u32, 4u32))
        .insert(48000i64, (19u32, 5u32))
        .insert(48500i64, (77u32, 20u32))
        .insert(49000i64, (39u32, 10u32))
        .insert(49500i64, (79u32, 20u32))
        .insert(51000i64, (41u32, 10u32))
        .insert(52000i64, (21u32, 5u32))
        .insert(53000i64, (43u32, 10u32))
        .insert(54000i64, (22u32, 5u32))
        .insert(56000i64, (23u32, 5u32))
        .insert(57000i64, (47u32, 10u32))
        .insert(58000i64, (24u32, 5u32))
        .insert(59000i64, (49u32, 10u32))
        .insert(62000i64, (26u32, 5u32))
        .insert(64000i64, (27u32, 5u32))
        .insert(66000i64, (28u32, 5u32))
        .insert(68000i64, (29u32, 5u32))
        .insert(72000i64, (31u32, 5u32))
        .insert(74000i64, (32u32, 5u32))
        .insert(76000i64, (33u32, 5u32))
        .insert(78000i64, (34u32, 5u32))
        .insert(82000i64, (36u32, 5u32))
        .insert(84000i64, (37u32, 5u32))
        .insert(86000i64, (38u32, 5u32))
        .insert(88000i64, (39u32, 5u32))
        .insert(92000i64, (41u32, 5u32))
        .insert(94000i64, (42u32, 5u32))
        .insert(95000i64, (17u32, 2u32))
        .insert(96000i64, (43u32, 5u32))
        .insert(98000i64, (44u32, 5u32))
        .insert(230000i64, (22u32, 1u32))
        .insert(290000i64, (28u32, 1u32))
        .insert(310000i64, (30u32, 1u32))
        .insert(360000i64, (35u32, 1u32))
        .insert(410000i64, (40u32, 1u32))
        .insert(460000i64, (45u32, 1u32))
        .insert(560000i64, (55u32, 1u32))
        .insert(610000i64, (60u32, 1u32))
        .insert(710000i64, (70u32, 1u32))
        .insert(760000i64, (75u32, 1u32))
        .insert(810000i64, (80u32, 1u32))
        .insert(860000i64, (85u32, 1u32))
        .insert(910000i64, (90u32, 1u32))
        .insert(960000i64, (95u32, 1u32))
        .insert(1110000i64, (110u32, 1u32))
        .insert(1210000i64, (120u32, 1u32))
        .insert(1260000i64, (125u32, 1u32))
        .insert(1310000i64, (130u32, 1u32))
        .insert(1410000i64, (140u32, 1u32))
        .insert(1510000i64, (150u32, 1u32))
        .insert(1760000i64, (175u32, 1u32))
        .insert(2010000i64, (200u32, 1u32))
        .insert(2260000i64, (225u32, 1u32))
        .insert(2510000i64, (250u32, 1u32))
        .insert(2760000i64, (275u32, 1u32))
        .insert(3010000i64, (300u32, 1u32))
        .insert(4010000i64, (400u32, 1u32))
        .insert(5010000i64, (500u32, 1u32))
}


/// Contents of the basic american-to-fraction table.
pub open spec fn american_to_fraction_basic() -> Map<i32, (u32, u32)> {
    Map::empty()
        .insert(-10000i32, (1u32, 100u32))
        .insert(-500i32, (1u32, 5u32))
        .insert(-450i32, (2u32, 9u32))
        .insert(-400i32, (1u32, 4u32))
        .insert(-350i32, (2u32, 7u32))
        .insert(-333i32, (3u32, 10u32))
        .insert(-300i32, (1u32, 3u32))
        .insert(-275i32, (4u32, 11u32))
        .insert(-250i32, (2u32, 5u32))
        .insert(-225i32, (4u32, 9u32))
        .insert(-200i32, (1u32, 2u32))
        .insert(-188i32, (8u32, 15u32))
        .insert(-175i32, (4u32, 7u32))
        .insert(-163i32, (8u32, 13u32))
        .insert(-150i32, (4u32, 6u32))
        .insert(-138i32, (8u32, 11u32))
        .insert(-125i32, (4u32, 5u32))
        .insert(-120i32, (5u32, 6u32))
        .insert(-110i32, (10u32, 11u32))
        .insert(100i32, (1u32, 1u32))
        .insert(105i32, (21u32, 20u32))
        .insert(110i32, (11u32, 10u32))
        .insert(115i32, (23u32, 20u32))
        .insert(120i32, (6u32, 5u32))
        .insert(125i32, (5u32, 4u32))
        .insert(138i32, (11u32, 8u32))
        .insert(140i32, (7u32, 5u32))
        .insert(150i32, (6u32, 4u32))
        .insert(160i32, (8u32, 5u32))
        .insert(163i32, (13u32, 8u32))
        .insert(175i32, (7u32, 4u32))
        .insert(180i32, (9u32, 5u32))
        .insert(188i32, (15u32, 8u32))
        .insert(200i32, (2u32, 1u32))
        .insert(220i32, (11u32, 5u32))
        .insert(225i32, (9u32, 4u32))
        .insert(240i32, (12u32, 5u32))
        .insert(250i32, (5u32, 2u32))
        .insert(260i32, (13u32, 5u32))
        .insert(275i32, (11u32, 4u32))
        .insert(300i32, (3u32, 1u32))
        .insert(320i32, (16u32, 5u32))
        .insert(333i32, (10u32, 3u32))
        .insert(350i32, (7u32, 2u32))
        .insert(400i32, (4u32, 1u32))
        .insert(450i32, (9u32, 2u32))
        .insert(500i32, (5u32, 1u32))
        .insert(550i32, (11u32, 2u32))
        .insert(600i32, (6u32, 1u32))
        .insert(650i32, (13u32, 2u32))
        .insert(700i32, (7u32, 1u32))
        .insert(750i32, (15u32, 2u32))
        .insert(800i32, (8u32, 1u32))
        .insert(900i32, (9u32, 1u32))
        .insert(1000i32, (10u32, 1u32))
        .insert(1100i32, (11u32, 1u32))
        .insert(1200i32, (12u32, 1u32))
        .insert(1300i32, (13u32, 1u32))
        .insert(1400i32, (14u32, 1u32))
        .insert(1500i32, (15u32, 1u32))
        .insert(1600i32, (16u32, 1u32))
        .insert(1800i32, (18u32, 1u32))
        .insert(2000i32, (20u32, 1u32))
        .insert(2500i32, (25u32, 1u32))
        .insert(3300i32, (33u32, 1u32))
        .insert(5000i32, (50u32, 1u32))
        .insert(6600i32, (66u32, 1u32))
        .insert(10000i32, (100u32, 1u32))
        .insert(100000i32, (1000u32, 1u32))
}


/// Contents of the basic american-to-decimal table.
pub open spec fn american_to_decimal_basic() -> Map<i32, Dec> {
    Map::empty()
        .insert(-10000i32, Dec { m: 101, s: 2 })
        .insert(-500i32, Dec { m: 12, s: 1 })
        .insert(-450i32, Dec { m: 122, s: 2 })
        .insert(-400i32, Dec { m: 125, s: 2 })
        .insert(-350i32, Dec { m: 129, s: 2 })
        .insert(-333i32, Dec { m: 13, s: 1 })
        .insert(-300i32, Dec { m: 133, s: 2 })
        .insert(-275i32, Dec { m: 136, s: 2 })
        .insert(-250i32, Dec { m: 14, s: 1 })
        .insert(-225i32, Dec { m: 144, s: 2 })
        .insert(-200i32, Dec { m: 15, s: 1 })
        .insert(-188i32, Dec { m: 153, s: 2 })
        .insert(-175i32, Dec { m: 157, s: 2 })
        .insert(-163i32, Dec { m: 162, s: 2 })
        .insert(-150i32, Dec { m: 167, s: 2 })
        .insert(-138i32, Dec { m: 173, s: 2 })
        .insert(-125i32, Dec { m: 18, s: 1 })
        .insert(-120i32, Dec { m: 183, s: 2 })
        .insert(-110i32, Dec { m: 191, s: 2 })
        .insert(100i32, Dec { m: 2, s: 0 })
        .insert(105i32, Dec { m: 205, s: 2 })
        .insert(110i32, Dec { m: 21, s: 1 })
        .insert(115i32, Dec { m: 215, s: 2 })
        .insert(120i32, Dec { m: 22, s: 1 })
        .insert(125i32, Dec { m: 225, s: 2 })
        .insert(138i32, Dec { m: 238, s: 2 })
        .insert(140i32, Dec { m: 24, s: 1 })
        .insert(150i32, Dec { m: 25, s: 1 })
        .insert(160i32, Dec { m: 26, s: 1 })
        .insert(163i32, Dec { m: 262, s: 2 })
        .insert(175i32, Dec { m: 275, s: 2 })
        .insert(180i32, Dec { m: 28, s: 1 })
        .insert(188i32, Dec { m: 288, s: 2 })
        .insert(200i32, Dec { m: 3, s: 0 })
        .insert(220i32, Dec { m: 32, s: 1 })
        .insert(225i32, Dec { m: 325, s: 2 })
        .insert(240i32, Dec { m: 34, s: 1 })
        .insert(250i32, Dec { m: 35, s: 1 })
        .insert(260i32, Dec { m: 36, s: 1 })
        .insert(275i32, Dec { m: 375, s: 2 })
        .insert(300i32, Dec { m: 4, s: 0 })
        .insert(320i32, Dec { m: 42, s: 1 })
        .insert(333i32, Dec { m: 433, s: 2 })
        .insert(350i32, Dec { m: 45, s: 1 })
        .insert(400i32, Dec { m: 5, s: 0 })
        .insert(450i32, Dec { m: 55, s: 1 })
        .insert(500i32, Dec { m: 6, s: 0 })
        .insert(550i32, Dec { m: 65, s: 1 })
        .insert(600i32, Dec { m: 7, s: 0 })
        .insert(650i32, Dec { m: 75, s: 1 })
        .insert(700i32, Dec { m: 8, s: 0 })
        .insert(750i32, Dec { m: 85, s: 1 })
        .insert(800i32, Dec { m: 9, s: 0 })
        .insert(900i32, Dec { m: 10, s: 0 })
        .insert(1000i32, Dec { m: 11, s: 0 })
        .insert(1100i32, Dec { m: 12, s: 0 })
        .insert(1200i32, Dec { m: 13, s: 0 })
        .insert(1300i32, Dec { m: 14, s: 0 })
        .insert(1400i32, Dec { m: 15, s: 0 })
        .insert(1500i32, Dec { m: 16, s: 0 })
        .insert(1600i32, Dec { m: 17, s: 0 })
        .insert(1800i32, Dec { m: 19, s: 0 })
        .insert(2000i32, Dec { m: 21, s: 0 })
        .insert(2500i32, Dec { m: 26, s: 0 })
        .insert(3300i32, Dec { m: 34, s: 0 })
        .insert(5000i32, Dec { m: 51, s: 0 })
        .insert(6600i32, Dec { m: 67, s: 0 })
        .insert(10000i32, Dec { m: 101, s: 0 })
        .insert(100000i32, Dec { m: 1001, s: 0 })
}


/// Lookup table for conversion from decimal to fractional, keyed by the
/// decimal value scaled by `10^4`.
#[verifier::rlimit(30)]
pub fn get_decimal_to_fraction_map() -> (m: HashMap<i64, (u32, u32)>)
    ensures
        m@ == decimal_to_fraction_basic(),
{
    let mut m: HashMap<i64, (u32, u32)> = HashMap::new();
    m.insert(10100, (1, 100));
    m.insert(12000, (1, 5));
    m.insert(12200, (2, 9));
    m.insert(12500, (1, 4));
    m.insert(12900, (2, 7));
    m.insert(13000, (3, 10));
    m.insert(13300, (1, 3));
    m.insert(13600, (4, 11));
    m.insert(14000, (2, 5));
    m.insert(14400, (4, 9));
    m.insert(15000, (1, 2));
    m.insert(15300, (8, 15));
    m.insert(15700, (4, 7));
    m.insert(16200, (8, 13));
    m.insert(16700, (4, 6));
    m.insert(17300, (8, 11));
    m.insert(18000, (4, 5));
    m.insert(18300, (5, 6));
    m.insert(19100, (10, 11));
    m.insert(20000, (1, 1));
    m.insert(20500, (21, 20));
    m.insert(21000, (11, 10));
    m.insert(21500, (23, 20));
    m.insert(22000, (6, 5));
    m.insert(22500, (5, 4));
    m.insert(23800, (11, 8));
    m.insert(24000, (7, 5));
    m.insert(25000, (6, 4));
    m.insert(26000, (8, 5));
    m.insert(26200, (13, 8));
    m.insert(27500, (7, 4));
    m.insert(28000, (9, 5));
    m.insert(28800, (15, 8));
    m.insert(30000, (2, 1));
    m.insert(32000, (11, 5));
    m.insert(32500, (9, 4));
    m.insert(34000, (12, 5));
    m.insert(35000, (5, 2));
    m.insert(36000, (13, 5));
    m.insert(37500, (11, 4));
    m.insert(40000, (3, 1));
    m.insert(42000, (16, 5));
    m.insert(43300, (10, 3));
    m.insert(45000, (7, 2));
    m.insert(50000, (4, 1));
    m.insert(55000, (9, 2));
    m.insert(60000, (5, 1));
    m.insert(65000, (11, 2));
    m.insert(70000, (6, 1));
    m.insert(75000, (13, 2));
    m.insert(80000, (7, 1));
    m.insert(85000, (15, 2));
    m.insert(90000, (8, 1));
    m.insert(100000, (9, 1));
    m.insert(110000, (10, 1));
    m.insert(120000, (11, 1));
    m.insert(130000, (12, 1));
    m.insert(140000, (13, 1));
    m.insert(150000, (14, 1));
    m.insert(160000, (15, 1));
    m.insert(170000, (16, 1));
    m.insert(190000, (18, 1));
    m.insert(210000, (20, 1));
    m.insert(260000, (25, 1));
    m.insert(340000, (33, 1));
    m.insert(510000, (50, 1));
    m.insert(670000, (66, 1));
    m.insert(1010000, (100, 1));
    m.insert(10010000, (1000, 1));
    proof {
        assert(m@ =~= decimal_to_fraction_basic());
    }
    m
}


/// Extended lookup table for conversion from decimal to fractional, keyed by
/// the decimal value scaled by `10^4`.
#[verifier::rlimit(60)]
pub fn get_decimal_to_fraction_extended_map() -> (m: HashMap<i64, (u32, u32)>)
    ensures
        m@ == decimal_to_fraction_extended(),
{
    let mut m: HashMap<i64, (u32, u32)> = HashMap::new();
    m.insert(10010, (1, 1000));
    m.insert(10013, (1, 750));
    m.insert(10020, (1, 500));
    m.insert(10025, (1, 400));
    m.insert(10030, (1, 300));
    m.insert(10040, (1, 250));
    m.insert(10050, (1, 200));
    m.insert(10070, (1, 150));
    m.insert(10120, (1, 80));
    m.insert(10150, (1, 66));
    m.insert(10200, (1, 50));
    m.insert(10250, (1, 40));
    m.insert(10300, (1, 33));
    m.insert(10400, (1, 25));
    m.insert(10500, (1, 20));
    m.insert(10550, (1, 18));
    m.insert(10600, (1, 16));
    m.insert(10700, (1, 14));
    m.insert(10800, (1, 12));
    m.insert(10900, (1, 11));
    m.insert(11000, (1, 10));
    m.insert(11100, (1, 9));
    m.insert(11200, (1, 8));
    m.insert(11300, (2, 15));
    m.insert(11400, (1, 7));
    m.insert(11500, (2, 13));
    m.insert(11600, (1, 6));
    m.insert(11800, (2, 11));
    m.insert(11900, (19, 100));
    m.insert(12100, (21, 100));
    m.insert(12300, (23, 100));
    m.insert(12400, (6, 25));
    m.insert(12600, (13, 50));
    m.insert(12700, (27, 100));
    m.insert(13100, (31, 100));
    m.insert(13200, (8, 25));
    m.insert(13400, (17, 50));
    m.insert(13500, (7, 20));
    m.insert(13700, (37, 100));
    m.insert(13800, (19, 50));
    m.insert(13900, (39, 100));
    m.insert(14100, (41, 100));
    m.insert(14200, (21, 50));
    m.insert(14300, (43, 100));
    m.insert(14500, (9, 20));
    m.insert(14600, (23, 50));
    m.insert(14700, (40, 85));
    m.insert(14800, (12, 25));
    m.insert(14900, (49, 100));
    m.insert(15100, (51, 100));
    m.insert(15200, (13, 25));
    m.insert(15400, (27, 50));
    m.insert(15500, (11, 20));
    m.insert(15600, (14, 25));
    m.insert(15800, (29, 50));
    m.insert(15900, (59, 100));
    m.insert(16000, (3, 5));
    m.insert(16100, (8, 13));
    m.insert(16300, (63, 100));
    m.insert(16400, (16, 25));
    m.insert(16500, (13, 20));
    m.insert(16600, (4, 6));
    m.insert(16800, (34, 50));
    m.insert(16900, (69, 100));
    m.insert(17000, (7, 10));
    m.insert(17100, (71, 100));
    m.insert(17200, (8, 11));
    m.insert(17400, (37, 50));
    m.insert(17500, (3, 4));
    m.insert(17600, (19, 25));
    m.insert(17700, (77, 100));
    m.insert(17800, (39, 50));
    m.insert(17900, (79, 100));
    m.insert(18100, (81, 100));
    m.insert(18200, (41, 50));
    m.insert(18400, (21, 25));
    m.insert(18500, (17, 20));
    m.insert(18600, (20, 23));
    m.insert(18700, (87, 100));
    m.insert(18800, (22, 25));
    m.insert(18900, (89, 100));
    m.insert(19000, (9, 10));
    m.insert(19200, (23, 25));
    m.insert(19300, (93, 100));
    m.insert(19400, (47, 50));
    m.insert(19500, (20, 21));
    m.insert(19600, (24, 25));
    m.insert(19700, (97, 100));
    m.insert(19800, (49, 50));
    m.insert(19900, (99, 100));
    m.insert(20100, (101, 100));
    m.insert(20200, (51, 50));
    m.insert(20300, (103, 100));
    m.insert(20400, (26, 25));
    m.insert(20600, (53, 50));
    m.insert(20700, (107, 100));
    m.insert(20800, (27, 25));
    m.insert(20900, (109, 100));
    m.insert(21100, (111, 100));
    m.insert(21200, (28, 25));
    m.insert(21300, (113, 100));
    m.insert(21400, (57, 50));
    m.insert(21600, (29, 25));
    m.insert(21700, (117, 100));
    m.insert(21800, (59, 50));
    m.insert(21900, (119, 100));
    m.insert(22100, (121, 100));
    m.insert(22200, (61, 50));
    m.insert(22300, (123, 100));
    m.insert(22400, (31, 25));
    m.insert(22600, (63, 50));
    m.insert(22700, (127, 100));
    m.insert(22800, (32, 25));
    m.insert(23000, (13, 10));
    m.insert(23200, (33, 25));
    m.insert(23400, (67, 50));
    m.insert(23500, (27, 20));
    m.insert(23600, (34, 25));
    m.insert(23700, (11, 8));
    m.insert(24200, (71, 50));
    m.insert(24400, (36, 25));
    m.insert(24500, (29, 20));
    m.insert(24600, (73, 50));
    m.insert(24800, (37, 25));
    m.insert(25200, (38, 25));
    m.insert(25400, (77, 50));
    m.insert(25600, (39, 25));
    m.insert(25800, (79, 50));
    m.insert(26400, (41, 25));
    m.insert(26600, (83, 50));
    m.insert(26800, (42, 25));
    m.insert(27000, (17, 10));
    m.insert(27200, (43, 25));
    m.insert(27400, (87, 50));
    m.insert(27600, (44, 25));
    m.insert(27800, (89, 50));
    m.insert(28200, (91, 50));
    m.insert(28400, (46, 25));
    m.insert(28600, (93, 50));
    m.insert(28700, (15, 8));
    m.insert(29000, (19, 10));
    m.insert(29200, (48, 25));
    m.insert(29400, (97, 50));
    m.insert(29600, (49, 25));
    m.insert(29800, (99, 50));
    m.insert(30500, (41, 20));
    m.insert(31000, (21, 10));
    m.insert(31250, (85, 40));
    m.insert(31500, (43, 20));
    m.insert(33000, (23, 10));
    m.insert(33500, (47, 20));
    m.insert(34500, (49, 20));
    m.insert(35500, (51, 20));
    m.insert(36500, (53, 20));
    m.insert(37000, (27, 10));
    m.insert(38000, (14, 5));
    m.insert(38500, (57, 20));
    m.insert(39500, (59, 20));
    m.insert(40500, (61, 20));
    m.insert(41000, (31, 10));
    m.insert(41500, (63, 20));
    m.insert(42500, (13, 4));
    m.insert(43000, (33, 10));
    m.insert(43500, (67, 20));
    m.insert(44000, (17, 5));
    m.insert(44500, (69, 20));
    m.insert(45500, (71, 20));
    m.insert(46000, (18, 5));
    m.insert(46500, (73, 20));
    m.insert(47000, (37, 10));
    m.insert(47500, (15, 4));
    m.insert(48000, (19, 5));
    m.insert(48500, (77, 20));
    m.insert(49000, (39, 10));
    m.insert(49500, (79, 20));
    m.insert(51000, (41, 10));
    m.insert(52000, (21, 5));
    m.insert(53000, (43, 10));
    m.insert(54000, (22, 5));
    m.insert(56000, (23, 5));
    m.insert(57000, (47, 10));
    m.insert(58000, (24, 5));
    m.insert(59000, (49, 10));
    m.insert(62000, (26, 5));
    m.insert(64000, (27, 5));
    m.insert(66000, (28, 5));
    m.insert(68000, (29, 5));
    m.insert(72000, (31, 5));
    m.insert(74000, (32, 5));
    m.insert(76000, (33, 5));
    m.insert(78000, (34, 5));
    m.insert(82000, (36, 5));
    m.insert(84000, (37, 5));
    m.insert(86000, (38, 5));
    m.insert(88000, (39, 5));
    m.insert(92000, (41, 5));
    m.insert(94000, (42, 5));
    m.insert(95000, (17, 2));
    m.insert(96000, (43, 5));
    m.insert(98000, (44, 5));
    m.insert(230000, (22, 1));
    m.insert(290000, (28, 1));
    m.insert(310000, (30, 1));
    m.insert(360000, (35, 1));
    m.insert(410000, (40, 1));
    m.insert(460000, (45, 1));
    m.insert(560000, (55, 1));
    m.insert(610000, (60, 1));
    m.insert(710000, (70, 1));
    m.insert(760000, (75, 1));
    m.insert(810000, (80, 1));
    m.insert(860000, (85, 1));
    m.insert(910000, (90, 1));
    m.insert(960000, (95, 1));
    m.insert(1110000, (110, 1));
    m.insert(1210000, (120, 1));
    m.insert(1260000, (125, 1));
    m.insert(1310000, (130, 1));
    m.insert(1410000, (140, 1));
    m.insert(1510000, (150, 1));
    m.insert(1760000, (175, 1));
    m.insert(2010000, (200, 1));
    m.insert(2260000, (225, 1));
    m.insert(2510000, (250, 1));
    m.insert(2760000, (275, 1));
    m.insert(3010000, (300, 1));
    m.insert(4010000, (400, 1));
    m.insert(5010000, (500, 1));
    proof {
        assert(m@ =~= decimal_to_fraction_extended());
    }
    m
}


/// Lookup table for conversion from american to fractional.
#[verifier::rlimit(30)]
pub fn get_american_to_fraction_map() -> (m: HashMap<i32, (u32, u32)>)
    ensures
        m@ == american_to_fraction_basic(),
{
    let mut m: HashMap<i32, (u32, u32)> = HashMap::new();
    m.insert(-10000, (1, 100));
    m.insert(-500, (1, 5));
    m.insert(-450, (2, 9));
    m.insert(-400, (1, 4));
    m.insert(-350, (2, 7));
    m.insert(-333, (3, 10));
    m.insert(-300, (1, 3));
    m.insert(-275, (4, 11));
    m.insert(-250, (2, 5));
    m.insert(-225, (4, 9));
    m.insert(-200, (1, 2));
    m.insert(-188, (8, 15));
    m.insert(-175, (4, 7));
    m.insert(-163, (8, 13));
    m.insert(-150, (4, 6));
    m.insert(-138, (8, 11));
    m.insert(-125, (4, 5));
    m.insert(-120, (5, 6));
    m.insert(-110, (10, 11));
    m.insert(100, (1, 1));
    m.insert(105, (21, 20));
    m.insert(110, (11, 10));
    m.insert(115, (23, 20));
    m.insert(120, (6, 5));
    m.insert(125, (5, 4));
    m.insert(138, (11, 8));
    m.insert(140, (7, 5));
    m.insert(150, (6, 4));
    m.insert(160, (8, 5));
    m.insert(163, (13, 8));
    m.insert(175, (7, 4));
    m.insert(180, (9, 5));
    m.insert(188, (15, 8));
    m.insert(200, (2, 1));
    m.insert(220, (11, 5));
    m.insert(225, (9, 4));
    m.insert(240, (12, 5));
    m.insert(250, (5, 2));
    m.insert(260, (13, 5));
    m.insert(275, (11, 4));
    m.insert(300, (3, 1));
    m.insert(320, (16, 5));
    m.insert(333, (10, 3));
    m.insert(350, (7, 2));
    m.insert(400, (4, 1));
    m.insert(450, (9, 2));
    m.insert(500, (5, 1));
    m.insert(550, (11, 2));
    m.insert(600, (6, 1));
    m.insert(650, (13, 2));
    m.insert(700, (7, 1));
    m.insert(750, (15, 2));
    m.insert(800, (8, 1));
    m.insert(900, (9, 1));
    m.insert(1000, (10, 1));
    m.insert(1100, (11, 1));
    m.insert(1200, (12, 1));
    m.insert(1300, (13, 1));
    m.insert(1400, (14, 1));
    m.insert(1500, (15, 1));
    m.insert(1600, (16, 1));
    m.insert(1800, (18, 1));
    m.insert(2000, (20, 1));
    m.insert(2500, (25, 1));
    m.insert(3300, (33, 1));
    m.insert(5000, (50, 1));
    m.insert(6600, (66, 1));
    m.insert(10000, (100, 1));
    m.insert(100000, (1000, 1));
    proof {
        assert(m@ =~= american_to_fraction_basic());
    }
    m
}


/// Lookup table for conversion from american to decimal.
#[verifier::rlimit(30)]
pub fn get_american_to_decimal_map() -> (m: HashMap<i32, Dec>)
    ensures
        m@ == american_to_decimal_basic(),
{
    let mut m: HashMap<i32, Dec> = HashMap::new();
    m.insert(-10000, Dec { m: 101, s: 2 });
    m.insert(-500, Dec { m: 12, s: 1 });
    m.insert(-450, Dec { m: 122, s: 2 });
    m.insert(-400, Dec { m: 125, s: 2 });
    m.insert(-350, Dec { m: 129, s: 2 });
    m.insert(-333, Dec { m: 13, s: 1 });
    m.insert(-300, Dec { m: 133, s: 2 });
    m.insert(-275, Dec { m: 136, s: 2 });
    m.insert(-250, Dec { m: 14, s: 1 });
    m.insert(-225, Dec { m: 144, s: 2 });
    m.insert(-200, Dec { m: 15, s: 1 });
    m.insert(-188, Dec { m: 153, s: 2 });
    m.insert(-175, Dec { m: 157, s: 2 });
    m.insert(-163, Dec { m: 162, s: 2 });
    m.insert(-150, Dec { m: 167, s: 2 });
    m.insert(-138, Dec { m: 173, s: 2 });
    m.insert(-125, Dec { m: 18, s: 1 });
    m.insert(-120, Dec { m: 183, s: 2 });
    m.insert(-110, Dec { m: 191, s: 2 });
    m.insert(100, Dec { m: 2, s: 0 });
    m.insert(105, Dec { m: 205, s: 2 });
    m.insert(110, Dec { m: 21, s: 1 });
    m.insert(115, Dec { m: 215, s: 2 });
    m.insert(120, Dec { m: 22, s: 1 });
    m.insert(125, Dec { m: 225, s: 2 });
    m.insert(138, Dec { m: 238, s: 2 });
    m.insert(140, Dec { m: 24, s: 1 });
    m.insert(150, Dec { m: 25, s: 1 });
    m.insert(160, Dec { m: 26, s: 1 });
    m.insert(163, Dec { m: 262, s: 2 });
    m.insert(175, Dec { m: 275, s: 2 });
    m.insert(180, Dec { m: 28, s: 1 });
    m.insert(188, Dec { m: 288, s: 2 });
    m.insert(200, Dec { m: 3, s: 0 });
    m.insert(220, Dec { m: 32, s: 1 });
    m.insert(225, Dec { m: 325, s: 2 });
    m.insert(240, Dec { m: 34, s: 1 });
    m.insert(250, Dec { m: 35, s: 1 });
    m.insert(260, Dec { m: 36, s: 1 });
    m.insert(275, Dec { m: 375, s: 2 });
    m.insert(300, Dec { m: 4, s: 0 });
    m.insert(320, Dec { m: 42, s: 1 });
    m.insert(333, Dec { m: 433, s: 2 });
    m.insert(350, Dec { m: 45, s: 1 });
    m.insert(400, Dec { m: 5, s: 0 });
    m.insert(450, Dec { m: 55, s: 1 });
    m.insert(500, Dec { m: 6, s: 0 });
    m.insert(550, Dec { m: 65, s: 1 });
    m.insert(600, Dec { m: 7, s: 0 });
    m.insert(650, Dec { m: 75, s: 1 });
    m.insert(700, Dec { m: 8, s: 0 });
    m.insert(750, Dec { m: 85, s: 1 });
    m.insert(800, Dec { m: 9, s: 0 });
    m.insert(900, Dec { m: 10, s: 0 });
    m.insert(1000, Dec { m: 11, s: 0 });
    m.insert(1100, Dec { m: 12, s: 0 });
    m.insert(1200, Dec { m: 13, s: 0 });
    m.insert(1300, Dec { m: 14, s: 0 });
    m.insert(1400, Dec { m: 15, s: 0 });
    m.insert(1500, Dec { m: 16, s: 0 });
    m.insert(1600, Dec { m: 17, s: 0 });
    m.insert(1800, Dec { m: 19, s: 0 });
    m.insert(2000, Dec { m: 21, s: 0 });
    m.insert(2500, Dec { m: 26, s: 0 });
    m.insert(3300, Dec { m: 34, s: 0 });
    m.insert(5000, Dec { m: 51, s: 0 });
    m.insert(6600, Dec { m: 67, s: 0 });
    m.insert(10000, Dec { m: 101, s: 0 });
    m.insert(100000, Dec { m: 1001, s: 0 });
    proof {
        assert(m@ =~= american_to_decimal_basic());
    }
    m
}


/// Extended lookup table for conversion from american to fractional
/// (reserved; currently empty).
pub fn get_american_to_fraction_extended_map() -> (m: HashMap<i32, (u32, u32)>)
    ensures
        m@ == Map::<i32, (u32, u32)>::empty(),
{
    HashMap::new()
}

/// Extended lookup table for conversion from american to decimal
/// (reserved; currently empty).
pub fn get_american_to_decimal_extended_map() -> (m: HashMap<i32, Dec>)
    ensures
        m@ == Map::<i32, Dec>::empty(),
{
    HashMap::new()
}

/// Every key of the first part of the extended table is above `10^4`.
#[verifier::spinoff_prover]
#[verifier::rlimit(100)]
proof fn lemma_extended_a_keys_above_one(k: i64)
    ensures
        decimal_to_fraction_extended_a().contains_key(k) ==> k > 10000,
{
}

/// Every key of the second part of the extended table is above `10^4`.
#[verifier::spinoff_prover]
#[verifier::rlimit(100)]
proof fn lemma_extended_b_keys_above_one(k: i64)
    ensures
        decimal_to_fraction_extended_b().contains_key(k) ==> k > 10000,
{
    lemma_extended_a_keys_above_one(k);
}

/// Every key of the decimal-to-fraction tables denotes a value above one.
#[verifier::spinoff_prover]
#[verifier::rlimit(100)]
pub proof fn lemma_decimal_table_keys_above_one(k: i64)
    ensures
        decimal_to_fraction_basic().contains_key(k) ==> k > 10000,
        decimal_to_fraction_extended().contains_key(k) ==> k > 10000,
{
    lemma_extended_b_keys_above_one(k);
}

/// A well-formed decimal whose mantissa exceeds `10^scale` denotes a value
/// above one.
pub proof fn lemma_mantissa_above_pow_gt_one(d: Dec)
    requires
        d.wf(),
        d.m > pow10(d.s as nat),
    ensures
        d.s28() > pow10(28),
{
    lemma_pow10_adds(d.s as nat, (28 - d.s as int) as nat);
    lemma_pow10_pos((28 - d.s as int) as nat);
    assert(d.s28() > pow10(d.s as nat) * pow10((28 - d.s as int) as nat)) by (nonlinear_arith)
        requires
            d.m > pow10(d.s as nat),
            pow10((28 - d.s as int) as nat) >= 1,
            d.s28() == (d.m as int) * pow10((28 - d.s as int) as nat),
    ;
}

/// Every value of the american-to-decimal table is well formed and denotes a
/// decimal above one.
#[verifier::spinoff_prover]
#[verifier::rlimit(100)]
pub proof fn lemma_a2d_values(k: i32)
    ensures
        american_to_decimal_basic().contains_key(k) ==> american_to_decimal_basic()[k].wf(),
        american_to_decimal_basic().contains_key(k) ==> american_to_decimal_basic()[k].s28()
            > pow10(28),
{
    reveal_with_fuel(pow10, 4);
    if american_to_decimal_basic().contains_key(k) {
        let d = american_to_decimal_basic()[k];
        assert(d.m > pow10(d.s as nat));
        lemma_mantissa_above_pow_gt_one(d);
    }
}

} // verus!
