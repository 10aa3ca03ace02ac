use ledaw::rng::{Rng, GAMMA};

#[test]
fn splitmix_from_zero() {
    let mut r = Rng(0);
    assert_eq!(r.next(), 0xE220_A839_7B1D_CDAF);
    assert_eq!(r.0, GAMMA);
    assert_eq!(r.next(), 0x6E78_9E6A_A1B9_65F4);
}

#[test]
fn below_and_coin_stay_in_range() {
    let mut r = Rng(42);
    for n in 1..50u64 {
        assert!(r.below(n) < n);
    }
    let mut a = Rng(7);
    let mut b = Rng(7);
    let x = a.next();
    assert_eq!(b.coin(), x & 1 == 1);
    assert_eq!(a.0, b.0);
}
