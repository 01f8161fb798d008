//! The parameters of E521: the prime `p = 2^521 - 1` of the field, the curve
//! constant `d = -376014`, the prime order `r` of the subgroup that the
//! generator spans, the number `n = 4 r` of points, and the generator.
use crate::big::{be_value, Big};
use vstd::prelude::*;

verus! {

/// The prime `2^521 - 1`.
pub open spec fn p521() -> nat {
    0x1ffffffffffffffffffffffffffffffffffffffffffffffffffffffffffffffffffffffffffffffffffffffffffffffffffffffffffffffffffffffffffffffffffnat
}

/// The curve constant `d = -376014`, as a residue modulo `p`.
pub open spec fn curve_d() -> nat {
    (p521() - 376014) as nat
}

/// The order of the generator:
/// `2^519 - 337554763258501705789107630418782636071904961214051226618635150085779108655765`.
pub open spec fn order_r() -> nat {
    0x7ffffffffffffffffffffffffffffffffffffffffffffffffffffffffffffffffd15b6c64746fc85f736b8af5e7ec53f04fbd8c4569a8f1f4540ea2435f5180d6bnat
}

/// The number of points of the curve, four times the order of the generator.
pub open spec fn point_count() -> nat {
    4 * order_r()
}

/// The x-coordinate of the generator.
pub open spec fn generator_x() -> nat {
    0x752cb45c48648b189df90cb2296b2878a3bfd9f42fc6c818ec8bf3c9c0c6203913f6ecc5ccc72434b1ae949d568fc99c6059d0fb13364838aa302a940a2f19ba6cnat
}

/// The y-coordinate of the generator.
pub open spec fn generator_y() -> nat {
    12
}

/// The number of a prefix that is one byte longer.
pub proof fn lemma_be_value_take_next(s: Seq<u8>, i: int)
    requires
        0 <= i < s.len(),
    ensures
        be_value(s.take(i + 1)) == 256 * be_value(s.take(i)) + s[i],
{
    assert(s.take(i + 1).drop_last() =~= s.take(i));
}

/// The number of a prefix that is six bytes longer.
pub proof fn lemma_be_value_take_six(s: Seq<u8>, i: int)
    requires
        0 <= i,
        i + 6 <= s.len(),
    ensures
        be_value(s.take(i + 6)) == 0x1000000000000 * be_value(s.take(i)) + 0x10000000000 * s[i]
            + 0x100000000 * s[i + 1] + 0x1000000 * s[i + 2] + 0x10000 * s[i + 3] + 0x100 * s[i
            + 4] + s[i + 5],
{
    lemma_be_value_take_next(s, i);
    lemma_be_value_take_next(s, i + 1);
    lemma_be_value_take_next(s, i + 2);
    lemma_be_value_take_next(s, i + 3);
    lemma_be_value_take_next(s, i + 4);
    lemma_be_value_take_next(s, i + 5);
}

/// The prime of the field.
pub fn field_prime() -> (v: Big)
    ensures
        v@ == p521(),
{
    let v = Big {
        bytes: [
            0x01, 0xff, 0xff, 0xff, 0xff, 0xff, 0xff, 0xff, 0xff, 0xff, 0xff,
            0xff, 0xff, 0xff, 0xff, 0xff, 0xff, 0xff, 0xff, 0xff, 0xff, 0xff,
            0xff, 0xff, 0xff, 0xff, 0xff, 0xff, 0xff, 0xff, 0xff, 0xff, 0xff,
            0xff, 0xff, 0xff, 0xff, 0xff, 0xff, 0xff, 0xff, 0xff, 0xff, 0xff,
            0xff, 0xff, 0xff, 0xff, 0xff, 0xff, 0xff, 0xff, 0xff, 0xff, 0xff,
            0xff, 0xff, 0xff, 0xff, 0xff, 0xff, 0xff, 0xff, 0xff, 0xff, 0xff,
        ],
    };
    proof {
        let s = v.bytes@;
        assert(s.take(0).len() == 0);
        lemma_be_value_take_six(s, 0);
        assert(be_value(s.take(6)) == 0x1ffffffffffnat);
        lemma_be_value_take_six(s, 6);
        assert(be_value(s.take(12)) == 0x1ffffffffffffffffffffffnat);
        lemma_be_value_take_six(s, 12);
        assert(be_value(s.take(18)) == 0x1ffffffffffffffffffffffffffffffffffnat);
        lemma_be_value_take_six(s, 18);
        assert(be_value(s.take(24)) == 0x1ffffffffffffffffffffffffffffffffffffffffffffffnat);
        lemma_be_value_take_six(s, 24);
        assert(be_value(s.take(30)) == 0x1ffffffffffffffffffffffffffffffffffffffffffffffffffffffffffnat);
        lemma_be_value_take_six(s, 30);
        assert(be_value(s.take(36)) == 0x1ffffffffffffffffffffffffffffffffffffffffffffffffffffffffffffffffffffffnat);
        lemma_be_value_take_six(s, 36);
        assert(be_value(s.take(42)) == 0x1ffffffffffffffffffffffffffffffffffffffffffffffffffffffffffffffffffffffffffffffffffnat);
        lemma_be_value_take_six(s, 42);
        assert(be_value(s.take(48)) == 0x1ffffffffffffffffffffffffffffffffffffffffffffffffffffffffffffffffffffffffffffffffffffffffffffffnat);
        lemma_be_value_take_six(s, 48);
        assert(be_value(s.take(54)) == 0x1ffffffffffffffffffffffffffffffffffffffffffffffffffffffffffffffffffffffffffffffffffffffffffffffffffffffffffnat);
        lemma_be_value_take_six(s, 54);
        assert(be_value(s.take(60)) == 0x1ffffffffffffffffffffffffffffffffffffffffffffffffffffffffffffffffffffffffffffffffffffffffffffffffffffffffffffffffffffffnat);
        lemma_be_value_take_six(s, 60);
        assert(be_value(s.take(66)) == 0x1ffffffffffffffffffffffffffffffffffffffffffffffffffffffffffffffffffffffffffffffffffffffffffffffffffffffffffffffffffffffffffffffffffnat);
        assert(s.take(66) =~= s);
    }
    v
}

/// The curve constant `d`.
pub fn curve_constant() -> (v: Big)
    ensures
        v@ == curve_d(),
{
    let v = Big {
        bytes: [
            0x01, 0xff, 0xff, 0xff, 0xff, 0xff, 0xff, 0xff, 0xff, 0xff, 0xff,
            0xff, 0xff, 0xff, 0xff, 0xff, 0xff, 0xff, 0xff, 0xff, 0xff, 0xff,
            0xff, 0xff, 0xff, 0xff, 0xff, 0xff, 0xff, 0xff, 0xff, 0xff, 0xff,
            0xff, 0xff, 0xff, 0xff, 0xff, 0xff, 0xff, 0xff, 0xff, 0xff, 0xff,
            0xff, 0xff, 0xff, 0xff, 0xff, 0xff, 0xff, 0xff, 0xff, 0xff, 0xff,
            0xff, 0xff, 0xff, 0xff, 0xff, 0xff, 0xff, 0xff, 0xfa, 0x43, 0x31,
        ],
    };
    proof {
        let s = v.bytes@;
        assert(s.take(0).len() == 0);
        lemma_be_value_take_six(s, 0);
        assert(be_value(s.take(6)) == 0x1ffffffffffnat);
        lemma_be_value_take_six(s, 6);
        assert(be_value(s.take(12)) == 0x1ffffffffffffffffffffffnat);
        lemma_be_value_take_six(s, 12);
        assert(be_value(s.take(18)) == 0x1ffffffffffffffffffffffffffffffffffnat);
        lemma_be_value_take_six(s, 18);
        assert(be_value(s.take(24)) == 0x1ffffffffffffffffffffffffffffffffffffffffffffffnat);
        lemma_be_value_take_six(s, 24);
        assert(be_value(s.take(30)) == 0x1ffffffffffffffffffffffffffffffffffffffffffffffffffffffffffnat);
        lemma_be_value_take_six(s, 30);
        assert(be_value(s.take(36)) == 0x1ffffffffffffffffffffffffffffffffffffffffffffffffffffffffffffffffffffffnat);
        lemma_be_value_take_six(s, 36);
        assert(be_value(s.take(42)) == 0x1ffffffffffffffffffffffffffffffffffffffffffffffffffffffffffffffffffffffffffffffffffnat);
        lemma_be_value_take_six(s, 42);
        assert(be_value(s.take(48)) == 0x1ffffffffffffffffffffffffffffffffffffffffffffffffffffffffffffffffffffffffffffffffffffffffffffffnat);
        lemma_be_value_take_six(s, 48);
        assert(be_value(s.take(54)) == 0x1ffffffffffffffffffffffffffffffffffffffffffffffffffffffffffffffffffffffffffffffffffffffffffffffffffffffffffnat);
        lemma_be_value_take_six(s, 54);
        assert(be_value(s.take(60)) == 0x1ffffffffffffffffffffffffffffffffffffffffffffffffffffffffffffffffffffffffffffffffffffffffffffffffffffffffffffffffffffffnat);
        lemma_be_value_take_six(s, 60);
        assert(be_value(s.take(66)) == 0x1fffffffffffffffffffffffffffffffffffffffffffffffffffffffffffffffffffffffffffffffffffffffffffffffffffffffffffffffffffffffffffffa4331nat);
        assert(s.take(66) =~= s);
    }
    v
}

/// The order of the generator.
pub fn subgroup_order() -> (v: Big)
    ensures
        v@ == order_r(),
{
    let v = Big {
        bytes: [
            0x00, 0x7f, 0xff, 0xff, 0xff, 0xff, 0xff, 0xff, 0xff, 0xff, 0xff,
            0xff, 0xff, 0xff, 0xff, 0xff, 0xff, 0xff, 0xff, 0xff, 0xff, 0xff,
            0xff, 0xff, 0xff, 0xff, 0xff, 0xff, 0xff, 0xff, 0xff, 0xff, 0xff,
            0xfd, 0x15, 0xb6, 0xc6, 0x47, 0x46, 0xfc, 0x85, 0xf7, 0x36, 0xb8,
            0xaf, 0x5e, 0x7e, 0xc5, 0x3f, 0x04, 0xfb, 0xd8, 0xc4, 0x56, 0x9a,
            0x8f, 0x1f, 0x45, 0x40, 0xea, 0x24, 0x35, 0xf5, 0x18, 0x0d, 0x6b,
        ],
    };
    proof {
        let s = v.bytes@;
        assert(s.take(0).len() == 0);
        lemma_be_value_take_six(s, 0);
        assert(be_value(s.take(6)) == 0x7fffffffffnat);
        lemma_be_value_take_six(s, 6);
        assert(be_value(s.take(12)) == 0x7fffffffffffffffffffffnat);
        lemma_be_value_take_six(s, 12);
        assert(be_value(s.take(18)) == 0x7fffffffffffffffffffffffffffffffffnat);
        lemma_be_value_take_six(s, 18);
        assert(be_value(s.take(24)) == 0x7fffffffffffffffffffffffffffffffffffffffffffffnat);
        lemma_be_value_take_six(s, 24);
        assert(be_value(s.take(30)) == 0x7fffffffffffffffffffffffffffffffffffffffffffffffffffffffffnat);
        lemma_be_value_take_six(s, 30);
        assert(be_value(s.take(36)) == 0x7ffffffffffffffffffffffffffffffffffffffffffffffffffffffffffffffffd15b6nat);
        lemma_be_value_take_six(s, 36);
        assert(be_value(s.take(42)) == 0x7ffffffffffffffffffffffffffffffffffffffffffffffffffffffffffffffffd15b6c64746fc85f7nat);
        lemma_be_value_take_six(s, 42);
        assert(be_value(s.take(48)) == 0x7ffffffffffffffffffffffffffffffffffffffffffffffffffffffffffffffffd15b6c64746fc85f736b8af5e7ec5nat);
        lemma_be_value_take_six(s, 48);
        assert(be_value(s.take(54)) == 0x7ffffffffffffffffffffffffffffffffffffffffffffffffffffffffffffffffd15b6c64746fc85f736b8af5e7ec53f04fbd8c456nat);
        lemma_be_value_take_six(s, 54);
        assert(be_value(s.take(60)) == 0x7ffffffffffffffffffffffffffffffffffffffffffffffffffffffffffffffffd15b6c64746fc85f736b8af5e7ec53f04fbd8c4569a8f1f4540eanat);
        lemma_be_value_take_six(s, 60);
        assert(be_value(s.take(66)) == 0x7ffffffffffffffffffffffffffffffffffffffffffffffffffffffffffffffffd15b6c64746fc85f736b8af5e7ec53f04fbd8c4569a8f1f4540ea2435f5180d6bnat);
        assert(s.take(66) =~= s);
    }
    v
}

/// The number of points of the curve.
pub fn number_of_points() -> (v: Big)
    ensures
        v@ == point_count(),
{
    let v = Big {
        bytes: [
            0x01, 0xff, 0xff, 0xff, 0xff, 0xff, 0xff, 0xff, 0xff, 0xff, 0xff,
            0xff, 0xff, 0xff, 0xff, 0xff, 0xff, 0xff, 0xff, 0xff, 0xff, 0xff,
            0xff, 0xff, 0xff, 0xff, 0xff, 0xff, 0xff, 0xff, 0xff, 0xff, 0xff,
            0xf4, 0x56, 0xdb, 0x19, 0x1d, 0x1b, 0xf2, 0x17, 0xdc, 0xda, 0xe2,
            0xbd, 0x79, 0xfb, 0x14, 0xfc, 0x13, 0xef, 0x63, 0x11, 0x5a, 0x6a,
            0x3c, 0x7d, 0x15, 0x03, 0xa8, 0x90, 0xd7, 0xd4, 0x60, 0x35, 0xac,
        ],
    };
    proof {
        let s = v.bytes@;
        assert(s.take(0).len() == 0);
        lemma_be_value_take_six(s, 0);
        assert(be_value(s.take(6)) == 0x1ffffffffffnat);
        lemma_be_value_take_six(s, 6);
        assert(be_value(s.take(12)) == 0x1ffffffffffffffffffffffnat);
        lemma_be_value_take_six(s, 12);
        assert(be_value(s.take(18)) == 0x1ffffffffffffffffffffffffffffffffffnat);
        lemma_be_value_take_six(s, 18);
        assert(be_value(s.take(24)) == 0x1ffffffffffffffffffffffffffffffffffffffffffffffnat);
        lemma_be_value_take_six(s, 24);
        assert(be_value(s.take(30)) == 0x1ffffffffffffffffffffffffffffffffffffffffffffffffffffffffffnat);
        lemma_be_value_take_six(s, 30);
        assert(be_value(s.take(36)) == 0x1fffffffffffffffffffffffffffffffffffffffffffffffffffffffffffffffff456dbnat);
        lemma_be_value_take_six(s, 36);
        assert(be_value(s.take(42)) == 0x1fffffffffffffffffffffffffffffffffffffffffffffffffffffffffffffffff456db191d1bf217dcnat);
        lemma_be_value_take_six(s, 42);
        assert(be_value(s.take(48)) == 0x1fffffffffffffffffffffffffffffffffffffffffffffffffffffffffffffffff456db191d1bf217dcdae2bd79fb14nat);
        lemma_be_value_take_six(s, 48);
        assert(be_value(s.take(54)) == 0x1fffffffffffffffffffffffffffffffffffffffffffffffffffffffffffffffff456db191d1bf217dcdae2bd79fb14fc13ef63115anat);
        lemma_be_value_take_six(s, 54);
        assert(be_value(s.take(60)) == 0x1fffffffffffffffffffffffffffffffffffffffffffffffffffffffffffffffff456db191d1bf217dcdae2bd79fb14fc13ef63115a6a3c7d1503a8nat);
        lemma_be_value_take_six(s, 60);
        assert(be_value(s.take(66)) == 0x1fffffffffffffffffffffffffffffffffffffffffffffffffffffffffffffffff456db191d1bf217dcdae2bd79fb14fc13ef63115a6a3c7d1503a890d7d46035acnat);
        assert(s.take(66) =~= s);
    }
    v
}

/// The x-coordinate of the generator.
pub fn generator_x_coordinate() -> (v: Big)
    ensures
        v@ == generator_x(),
{
    let v = Big {
        bytes: [
            0x00, 0x75, 0x2c, 0xb4, 0x5c, 0x48, 0x64, 0x8b, 0x18, 0x9d, 0xf9,
            0x0c, 0xb2, 0x29, 0x6b, 0x28, 0x78, 0xa3, 0xbf, 0xd9, 0xf4, 0x2f,
            0xc6, 0xc8, 0x18, 0xec, 0x8b, 0xf3, 0xc9, 0xc0, 0xc6, 0x20, 0x39,
            0x13, 0xf6, 0xec, 0xc5, 0xcc, 0xc7, 0x24, 0x34, 0xb1, 0xae, 0x94,
            0x9d, 0x56, 0x8f, 0xc9, 0x9c, 0x60, 0x59, 0xd0, 0xfb, 0x13, 0x36,
            0x48, 0x38, 0xaa, 0x30, 0x2a, 0x94, 0x0a, 0x2f, 0x19, 0xba, 0x6c,
        ],
    };
    proof {
        let s = v.bytes@;
        assert(s.take(0).len() == 0);
        lemma_be_value_take_six(s, 0);
        assert(be_value(s.take(6)) == 0x752cb45c48nat);
        lemma_be_value_take_six(s, 6);
        assert(be_value(s.take(12)) == 0x752cb45c48648b189df90cnat);
        lemma_be_value_take_six(s, 12);
        assert(be_value(s.take(18)) == 0x752cb45c48648b189df90cb2296b2878a3nat);
        lemma_be_value_take_six(s, 18);
        assert(be_value(s.take(24)) == 0x752cb45c48648b189df90cb2296b2878a3bfd9f42fc6c8nat);
        lemma_be_value_take_six(s, 24);
        assert(be_value(s.take(30)) == 0x752cb45c48648b189df90cb2296b2878a3bfd9f42fc6c818ec8bf3c9c0nat);
        lemma_be_value_take_six(s, 30);
        assert(be_value(s.take(36)) == 0x752cb45c48648b189df90cb2296b2878a3bfd9f42fc6c818ec8bf3c9c0c6203913f6ecnat);
        lemma_be_value_take_six(s, 36);
        assert(be_value(s.take(42)) == 0x752cb45c48648b189df90cb2296b2878a3bfd9f42fc6c818ec8bf3c9c0c6203913f6ecc5ccc72434b1nat);
        lemma_be_value_take_six(s, 42);
        assert(be_value(s.take(48)) == 0x752cb45c48648b189df90cb2296b2878a3bfd9f42fc6c818ec8bf3c9c0c6203913f6ecc5ccc72434b1ae949d568fc9nat);
        lemma_be_value_take_six(s, 48);
        assert(be_value(s.take(54)) == 0x752cb45c48648b189df90cb2296b2878a3bfd9f42fc6c818ec8bf3c9c0c6203913f6ecc5ccc72434b1ae949d568fc99c6059d0fb13nat);
        lemma_be_value_take_six(s, 54);
        assert(be_value(s.take(60)) == 0x752cb45c48648b189df90cb2296b2878a3bfd9f42fc6c818ec8bf3c9c0c6203913f6ecc5ccc72434b1ae949d568fc99c6059d0fb13364838aa302anat);
        lemma_be_value_take_six(s, 60);
        assert(be_value(s.take(66)) == 0x752cb45c48648b189df90cb2296b2878a3bfd9f42fc6c818ec8bf3c9c0c6203913f6ecc5ccc72434b1ae949d568fc99c6059d0fb13364838aa302a940a2f19ba6cnat);
        assert(s.take(66) =~= s);
    }
    v
}

/// The y-coordinate of the generator.
pub fn generator_y_coordinate() -> (v: Big)
    ensures
        v@ == generator_y(),
{
    Big::from_u64(12)
}

} // verus!
