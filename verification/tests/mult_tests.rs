use tiny_qtt::mult::{Mult, Use};

#[test]
fn addition_table() {
    assert_eq!(Mult::Zero.add(Mult::Zero), Mult::Zero);
    assert_eq!(Mult::Zero.add(Mult::One), Mult::One);
    assert_eq!(Mult::One.add(Mult::Zero), Mult::One);
    assert_eq!(Mult::One.add(Mult::One), Mult::Many);
    assert_eq!(Mult::One.add(Mult::Many), Mult::Many);
    assert_eq!(Mult::Zero.add(Mult::Many), Mult::Many);
}

#[test]
fn multiplication_table() {
    assert_eq!(Mult::Zero.mul(Mult::Many), Mult::Zero);
    assert_eq!(Mult::Many.mul(Mult::Zero), Mult::Zero);
    assert_eq!(Mult::One.mul(Mult::Many), Mult::Many);
    assert_eq!(Mult::One.mul(Mult::One), Mult::One);
    assert_eq!(Mult::Many.mul(Mult::Many), Mult::Many);
}

#[test]
fn budgets_are_exact_except_many() {
    assert!(Mult::Zero.fits(Mult::Zero));
    assert!(!Mult::One.fits(Mult::Zero));
    assert!(Mult::One.fits(Mult::One));
    assert!(!Mult::Zero.fits(Mult::One));
    assert!(!Mult::Many.fits(Mult::One));
    assert!(Mult::Zero.fits(Mult::Many));
    assert!(Mult::Many.fits(Mult::Many));
}

#[test]
fn multiplicities_print_as_zero_one_w() {
    assert_eq!(Mult::Zero.to_text(), "0");
    assert_eq!(Mult::One.to_text(), "1");
    assert_eq!(Mult::Many.to_text(), "w");
}

#[test]
fn semiring_laws_on_all_values() {
    let all = [Mult::Zero, Mult::One, Mult::Many];
    for a in all {
        assert_eq!(a.add(Mult::Zero), a);
        assert_eq!(a.mul(Mult::One), a);
        assert_eq!(a.mul(Mult::Zero), Mult::Zero);
        for b in all {
            assert_eq!(a.add(b), b.add(a));
            assert_eq!(a.mul(b), b.mul(a));
            for c in all {
                assert_eq!(a.add(b).add(c), a.add(b.add(c)));
                assert_eq!(a.mul(b).mul(c), a.mul(b.mul(c)));
                assert_eq!(a.mul(b.add(c)), a.mul(b).add(a.mul(c)));
            }
        }
    }
}

#[test]
fn usage_vectors() {
    assert_eq!(Use::zeros(3).0, vec![Mult::Zero, Mult::Zero, Mult::Zero]);
    assert_eq!(Use::one(3, 1).0, vec![Mult::Zero, Mult::One, Mult::Zero]);
    let u = Use::one(3, 1).add(&Use::one(3, 1));
    assert_eq!(u.0, vec![Mult::Zero, Mult::Many, Mult::Zero]);
    let v = Use::one(3, 2).add(&Use::zeros(2));
    assert_eq!(v.0, vec![Mult::Zero, Mult::Zero]);
    assert_eq!(Use::one(2, 0).scale(Mult::Many).0, vec![Mult::Many, Mult::Zero]);
    assert_eq!(Use::one(2, 0).scale(Mult::Zero).0, vec![Mult::Zero, Mult::Zero]);
}

#[test]
fn popping_usage_vectors() {
    let (m, rest) = Use(vec![Mult::One, Mult::Many]).pop();
    assert_eq!(m, Mult::Many);
    assert_eq!(rest.0, vec![Mult::One]);
    let (m, rest) = Use(vec![]).pop();
    assert_eq!(m, Mult::Zero);
    assert!(rest.0.is_empty());
    let (fst, snd, rest) = Use(vec![Mult::Zero, Mult::One, Mult::Many]).pop2();
    assert_eq!(fst, Mult::One);
    assert_eq!(snd, Mult::Many);
    assert_eq!(rest.0, vec![Mult::Zero]);
}

#[test]
fn usage_vector_laws() {
    let a = Use(vec![Mult::Zero, Mult::One, Mult::Many]);
    let b = Use(vec![Mult::One, Mult::One, Mult::Zero]);
    assert_eq!(a.add(&b).0, b.add(&a).0);
    assert_eq!(a.add(&Use::zeros(3)).0, a.0);
    assert_eq!(a.scale(Mult::One).0, a.0);
    assert_eq!(a.scale(Mult::Zero).0, Use::zeros(3).0);
    for m in [Mult::Zero, Mult::One, Mult::Many] {
        assert_eq!(a.add(&b).scale(m).0, a.scale(m).add(&b.scale(m)).0);
        assert_eq!(Use::zeros(4).scale(m).0, Use::zeros(4).0);
    }
    let mut pushed = a.0.clone();
    pushed.push(Mult::Many);
    let (m, rest) = Use(pushed).pop();
    assert_eq!(m, Mult::Many);
    assert_eq!(rest.0, a.0);
}
