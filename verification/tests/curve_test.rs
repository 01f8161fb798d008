use cryptotool::big::{Big, Order3};
use cryptotool::curve::e521::{
    get_e521_gen_point, get_e521_id_point, get_e521_point, satisfies_curve,
};
use cryptotool::curve::params::{
    curve_constant, field_prime, generator_x_coordinate, generator_y_coordinate,
    number_of_points, subgroup_order,
};
use cryptotool::modular::{
    add_mod_big, inv_mod_big, mul_mod_big, reduce_bytes, sub_mod_big,
};
use cryptotool::CryptoError;

fn unhex(s: &str) -> Vec<u8> {
    let digits: Vec<u8> = s.bytes().map(|c| (c as char).to_digit(16).unwrap() as u8).collect();
    digits.chunks(2).map(|p| p[0] * 16 + p[1]).collect()
}

fn big(s: &str) -> Big {
    Big::from_be_bytes(&unhex(s)).unwrap()
}

#[test]
fn big_from_bytes_and_back() {
    let b = Big::from_be_bytes(&[0, 0, 1, 2]).unwrap();
    let bytes = b.to_be_bytes();
    assert_eq!(bytes.len(), 66);
    assert_eq!(&bytes[64..], &[1, 2]);
    assert!(bytes[..64].iter().all(|x| *x == 0));
    assert!(b.equals(&Big::from_u64(0x0102)));
    assert!(Big::from_be_bytes(&[]).unwrap().is_zero());
    assert!(Big::from_be_bytes(&[0xff; 66]).is_some());
    assert!(Big::from_be_bytes(&[1; 67]).is_none());
    let mut padded = vec![0u8; 10];
    padded.extend_from_slice(&[0xff; 66]);
    assert!(Big::from_be_bytes(&padded).is_some());
    assert!(Big::from_u64(0xffff_ffff_ffff_ffff).equals(&big("ffffffffffffffff")));
    assert!(Big::zero().is_zero());
    assert!(!Big::from_u64(1).is_zero());
}

#[test]
fn big_order() {
    let a = Big::from_u64(5);
    let b = Big::from_u64(0x1_0000_0000);
    assert_eq!(a.order(&b), Order3::Less);
    assert_eq!(b.order(&a), Order3::Greater);
    assert_eq!(a.order(&Big::from_u64(5)), Order3::Same);
    assert!(a.less_than(&b));
    assert!(!b.less_than(&a));
    assert!(!a.less_than(&a));
    assert!(subgroup_order().less_than(&field_prime()));
}

#[test]
fn modular_arithmetic() {
    let m = Big::from_u64(97);
    let a = Big::from_u64(90);
    let b = Big::from_u64(15);
    assert!(add_mod_big(&a, &b, &m).equals(&Big::from_u64(8)));
    assert!(sub_mod_big(&b, &a, &m).equals(&Big::from_u64(22)));
    assert!(sub_mod_big(&a, &b, &m).equals(&Big::from_u64(75)));
    assert!(mul_mod_big(&a, &b, &m).equals(&Big::from_u64(89)));
    assert!(inv_mod_big(&b, &m).equals(&Big::from_u64(13)));
    assert!(reduce_bytes(&[1, 0], &m).equals(&Big::from_u64(62)));
    // no inverse: 6 modulo 9
    assert!(inv_mod_big(&Big::from_u64(6), &Big::from_u64(9)).is_zero());
    assert!(inv_mod_big(&Big::zero(), &m).is_zero());
    // large operands
    let p = field_prime();
    let p_minus_1 = sub_mod_big(&Big::zero(), &Big::from_u64(1), &p);
    assert!(mul_mod_big(&p_minus_1, &p_minus_1, &p).equals(&Big::from_u64(1)));
    assert!(add_mod_big(&p_minus_1, &Big::from_u64(2), &p).equals(&Big::from_u64(1)));
    let third = inv_mod_big(&Big::from_u64(3), &p);
    assert!(third.equals(&big(
        "015555555555555555555555555555555555555555555555555555555555555555555555555555555555555555555555555555555555555555555555555555555555"
    )));
    assert!(mul_mod_big(&third, &Big::from_u64(3), &p).equals(&Big::from_u64(1)));
}

#[test]
fn parameters_of_the_curve() {
    let p = field_prime();
    let bytes = p.to_be_bytes();
    assert_eq!(bytes[0], 1);
    assert!(bytes[1..].iter().all(|b| *b == 0xff));
    // d = -376014 mod p
    assert!(add_mod_big(&curve_constant(), &Big::from_u64(376014), &p).is_zero());
    // n = 4 r
    let r = subgroup_order();
    let two_r = add_mod_big(&r, &r, &p);
    assert!(add_mod_big(&two_r, &two_r, &p).equals(&reduce_bytes(&number_of_points().to_be_bytes(), &p)));
    assert!(generator_y_coordinate().equals(&Big::from_u64(12)));
    assert!(satisfies_curve(
        &generator_x_coordinate(),
        &generator_y_coordinate(),
        &p,
        &curve_constant()
    ));
}

#[test]
fn validated_construction() {
    let g = get_e521_gen_point();
    assert!(g.is_valid());
    let again = get_e521_point(g.x, g.y).unwrap();
    assert!(again.equals(&g));
    assert!(again.is_valid());
    match get_e521_point(g.x, Big::from_u64(13)) {
        Err(e) => assert_eq!(e, CryptoError::MalformedPoint),
        Ok(_) => panic!("accepted a pair that is not on the curve"),
    }
    // a coordinate that is not reduced is rejected
    let y_plus_p = Big::from_be_bytes(
        &unhex("02000000000000000000000000000000000000000000000000000000000000000000000000000000000000000000000000000000000000000000000000000000000b"),
    )
    .unwrap();
    assert!(matches!(
        get_e521_point(g.x, y_plus_p),
        Err(CryptoError::MalformedPoint)
    ));
    assert!(get_e521_point(Big::zero(), Big::from_u64(1)).is_ok());
    assert!(matches!(
        get_e521_point(Big::zero(), Big::zero()),
        Err(CryptoError::MalformedPoint)
    ));
    let mut broken = g;
    broken.d = Big::from_u64(5);
    assert!(!broken.is_valid());
}

#[test]
fn addition_and_doubling() {
    let g = get_e521_gen_point();
    let id = get_e521_id_point();
    assert!(id.x.is_zero());
    assert!(id.y.equals(&Big::from_u64(1)));
    assert!(g.add_point(&id).equals(&g));
    assert!(id.add_point(&g).equals(&g));
    let g2 = g.double_point();
    assert!(g2.x.equals(&big(
        "00aad5774c1dcd80a583e50e49e420aec630943d5c2ac379f344b66bc1f4414e4fa7cb18fc42e56c2cb342d155f292b1ae6d4a6626626c5d930774f780529ea638b7"
    )));
    assert!(g2.y.equals(&big(
        "01957145bc5e056ca8dcdbf809ec912feead5068dc0a2f973eaf54f3be602817c1c21aa9bfa59698d29babffa939c30c32956e0748b502d4934592909d89ef1a702b"
    )));
    assert!(g2.is_valid());
    assert!(g.add_point(&g).equals(&g2));
    let g3 = g2.add_point(&g);
    assert!(g3.equals(&g.add_point(&g2)));
    assert!(g3.is_valid());
}

#[test]
fn equality_is_taken_modulo_p() {
    let g = get_e521_gen_point();
    let mut shifted = g;
    // y + p: the same residue, written differently
    shifted.y = Big::from_be_bytes(
        &unhex("02000000000000000000000000000000000000000000000000000000000000000000000000000000000000000000000000000000000000000000000000000000000b"),
    )
    .unwrap();
    assert!(!shifted.y.equals(&g.y));
    assert!(shifted.equals(&g));
    assert!(g.equals(&shifted));
    assert!(!g.equals(&g.double_point()));
    assert!(!g.equals(&g.negate()));
}

#[test]
fn negation() {
    let g = get_e521_gen_point();
    let minus_g = g.negate();
    assert!(minus_g.is_valid());
    assert!(minus_g.y.equals(&g.y));
    assert!(add_mod_big(&minus_g.x, &g.x, &g.p).is_zero());
    assert!(g.add_point(&minus_g).equals(&get_e521_id_point()));
    assert!(minus_g.negate().equals(&g));
    assert!(get_e521_id_point().negate().equals(&get_e521_id_point()));
}

#[test]
fn scalar_multiplication() {
    let g = get_e521_gen_point();
    let id = get_e521_id_point();
    assert!(g.mul_scalar(&Big::zero()).equals(&id));
    assert!(g.mul_scalar(&Big::from_u64(1)).equals(&g));
    assert!(g.mul_scalar(&Big::from_u64(2)).equals(&g.double_point()));
    let g5 = g.mul_scalar(&Big::from_u64(5));
    assert!(g5.x.equals(&big(
        "00b08ed9525433dc254894162a2dcfef913621fd6496952a80a2c8486a7f8f169c239d7020df442e89a94cc5d992deaea9e1e9238fb15bbd3537b778f6c0063849fc"
    )));
    assert!(g5.y.equals(&big(
        "015e84c7d6e407de85c23faeb226de5c763f02403f05a8dbf5af797aaf65d3c2dd1e7c9700b35e7ef6acf746231661e50279cc019681279e69124c66f7a7709a3ad1"
    )));
    assert!(g5.is_valid());
    // 2 * (3 G) == 3 * (2 G)
    let a = g.mul_scalar(&Big::from_u64(3)).mul_scalar(&Big::from_u64(2));
    let b = g.mul_scalar(&Big::from_u64(2)).mul_scalar(&Big::from_u64(3));
    assert!(a.equals(&b));
}

#[test]
fn multiples_by_the_order() {
    let g = get_e521_gen_point();
    let id = get_e521_id_point();
    let r = subgroup_order();
    // r G is the neutral element: by the reduction of the scalar, and
    // because (r - 1) G + G is
    assert!(g.mul_scalar(&r).equals(&id));
    let r_minus_1 = big(
        "007ffffffffffffffffffffffffffffffffffffffffffffffffffffffffffffffffd15b6c64746fc85f736b8af5e7ec53f04fbd8c4569a8f1f4540ea2435f5180d6a",
    );
    let almost = g.mul_scalar(&r_minus_1);
    assert!(almost.equals(&g.negate()));
    assert!(almost.add_point(&g).equals(&id));
    // a scalar above r is reduced first: (r + 5) G == 5 G
    let r_plus_5 = add_mod_big(&r, &Big::from_u64(5), &field_prime());
    assert!(g.mul_scalar(&r_plus_5).equals(&g.mul_scalar(&Big::from_u64(5))));
}

#[test]
fn closure_on_sampled_points() {
    let g = get_e521_gen_point();
    let mut seed = 0x9e3779b97f4a7c15u64;
    for _ in 0..3 {
        let mut scalars = [0u64; 4];
        for s in scalars.iter_mut() {
            seed ^= seed << 13;
            seed ^= seed >> 7;
            seed ^= seed << 17;
            *s = seed;
        }
        let p = g.mul_scalar(&Big::from_u64(scalars[0]));
        let q = g.mul_scalar(&Big::from_u64(scalars[1]));
        let sum = p
            .mul_scalar(&Big::from_u64(scalars[2]))
            .add_point(&q.mul_scalar(&Big::from_u64(scalars[3])));
        assert!(sum.is_valid());
    }
}
