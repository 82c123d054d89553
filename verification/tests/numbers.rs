use chain_fusion::natural::Natural;
use chain_fusion::text::U256Wrapper;
use chain_fusion::u256::U256;

#[test]
fn u256_equality_and_order_go_by_value() {
    let small = U256([u64::MAX, 0, 0, 0]);
    let big = U256([0, 1, 0, 0]);
    assert!(small.less_than(&big));
    assert!(!big.less_than(&small));
    assert!(!small.less_than(&small));
    assert!(small.equals(&U256::from_u64(u64::MAX)));
    assert!(!small.equals(&big));
    assert!(U256([5, 0, 0, 1]).less_than(&U256([4, 0, 0, 2])));
    assert!(U256([5, 0, 7, 1]).less_than(&U256([4, 0, 8, 1])));
    assert!(U256([5, 3, 7, 1]).less_than(&U256([6, 3, 7, 1])));
    assert!(U256::zero().equals(&U256::from_u64(0)));
}

#[test]
fn u256_fits_a_u64_only_without_high_limbs() {
    assert_eq!(U256::from_u64(1000).checked_as_u64(), Some(1000));
    assert_eq!(U256([u64::MAX, 0, 0, 0]).checked_as_u64(), Some(u64::MAX));
    assert_eq!(U256([0, 1, 0, 0]).checked_as_u64(), None);
    assert_eq!(U256([0, 0, 1, 0]).checked_as_u64(), None);
    assert_eq!(U256([3, 0, 0, 1]).checked_as_u64(), None);
}

#[test]
fn wrapper_writes_decimal_text() {
    assert_eq!(U256Wrapper::from(U256::zero()), U256Wrapper("0".to_string()));
    assert_eq!(U256Wrapper::from(U256::from_u64(7)), U256Wrapper("7".to_string()));
    assert_eq!(U256Wrapper::from(U256::from_u64(1050)), U256Wrapper("1050".to_string()));
    assert_eq!(
        U256Wrapper::from(U256([0, 1, 0, 0])),
        U256Wrapper("18446744073709551616".to_string())
    );
    assert_eq!(
        U256Wrapper::from(U256([u64::MAX, u64::MAX, u64::MAX, u64::MAX])),
        U256Wrapper(
            "115792089237316195423570985008687907853269984665640564039457584007913129639935"
                .to_string()
        )
    );
}

#[test]
fn wrapper_reads_decimal_text() {
    assert_eq!(U256Wrapper("0".to_string()).to_u256(), Some(U256::zero()));
    assert_eq!(U256Wrapper("".to_string()).to_u256(), Some(U256::zero()));
    assert_eq!(U256Wrapper("007".to_string()).to_u256(), Some(U256::from_u64(7)));
    assert_eq!(
        U256Wrapper("18446744073709551616".to_string()).to_u256(),
        Some(U256([0, 1, 0, 0]))
    );
    assert_eq!(
        U256Wrapper(
            "115792089237316195423570985008687907853269984665640564039457584007913129639935"
                .to_string()
        )
        .to_u256(),
        Some(U256([u64::MAX, u64::MAX, u64::MAX, u64::MAX]))
    );
}

#[test]
fn wrapper_rejects_what_is_no_256_bit_decimal() {
    assert_eq!(U256Wrapper("12a".to_string()).to_u256(), None);
    assert_eq!(U256Wrapper("0x10".to_string()).to_u256(), None);
    assert_eq!(U256Wrapper("-1".to_string()).to_u256(), None);
    assert_eq!(U256Wrapper(" 1".to_string()).to_u256(), None);
    assert_eq!(U256Wrapper("١٢".to_string()).to_u256(), None);
    assert_eq!(
        U256Wrapper(
            "115792089237316195423570985008687907853269984665640564039457584007913129639936"
                .to_string()
        )
        .to_u256(),
        None
    );
    assert_eq!(
        U256Wrapper(
            "1157920892373161954235709850086879078532699846656405640394575840079131296399350"
                .to_string()
        )
        .to_u256(),
        None
    );
}

#[test]
fn wrapper_round_trip_keeps_the_number() {
    let values = [
        U256::zero(),
        U256::from_u64(9),
        U256::from_u64(10),
        U256([1, 2, 3, 4]),
        U256([u64::MAX, 0, u64::MAX, 0]),
    ];
    for v in values {
        assert_eq!(U256Wrapper::from(v).to_u256(), Some(v));
    }
}

#[test]
fn natural_drops_high_zero_limbs() {
    let a = Natural::from_limbs(vec![5, 0, 0]);
    let b = Natural::from_u64(5);
    assert!(a.equals(&b));
    assert_eq!(a, b);
    assert_eq!(a.to_limbs(), vec![5]);
    assert_eq!(Natural::from_limbs(vec![0, 0]).to_limbs(), Vec::<u64>::new());
    assert_eq!(Natural::from_limbs(vec![0, 0]), Natural::zero());
    assert_eq!(Natural::from_u64(0).to_limbs(), Vec::<u64>::new());
    assert_eq!(Natural::from_limbs(vec![0, 3]).to_limbs(), vec![0, 3]);
}

#[test]
fn natural_equality_and_order_go_by_value() {
    let small = Natural::from_u64(u64::MAX);
    let big = Natural::from_limbs(vec![0, 1]);
    let bigger = Natural::from_limbs(vec![1, 1]);
    let huge = Natural::from_limbs(vec![0, 0, 0, 0, 1]);
    assert!(small.less_than(&big));
    assert!(big.less_than(&bigger));
    assert!(bigger.less_than(&huge));
    assert!(!huge.less_than(&small));
    assert!(!big.less_than(&big));
    assert!(!small.equals(&big));
    assert!(Natural::from_limbs(vec![9, 4]).less_than(&Natural::from_limbs(vec![2, 5])));
    assert!(!Natural::from_limbs(vec![2, 5]).less_than(&Natural::from_limbs(vec![9, 4])));
    assert!(Natural::zero().less_than(&Natural::from_u64(1)));
    assert!(huge.clone().equals(&huge));
}

#[test]
fn wrappers_are_ordered_by_their_numbers() {
    let w = |t: &str| U256Wrapper(t.to_string());
    assert_eq!(w("9").less_than(&w("10")), Some(true));
    assert_eq!(w("10").less_than(&w("9")), Some(false));
    assert_eq!(w("07").less_than(&w("7")), Some(false));
    assert_eq!(w("7").less_than(&w("07")), Some(false));
    assert_eq!(w("").less_than(&w("1")), Some(true));
    assert_eq!(
        w("18446744073709551615").less_than(&w("18446744073709551616")),
        Some(true)
    );
    assert_eq!(
        U256Wrapper::from(U256::from_u64(9)).less_than(&U256Wrapper::from(U256([0, 0, 0, 1]))),
        Some(true)
    );
    assert_eq!(w("x").less_than(&w("1")), None);
    assert_eq!(w("1").less_than(&w("1.5")), None);
    assert_eq!(
        w("1").less_than(&w(
            "115792089237316195423570985008687907853269984665640564039457584007913129639936"
        )),
        None
    );
}

#[test]
fn wrappers_are_the_same_number_by_value() {
    let w = |t: &str| U256Wrapper(t.to_string());
    assert_eq!(w("07").same_number(&w("7")), Some(true));
    assert_eq!(w("").same_number(&w("0")), Some(true));
    assert_eq!(w("10").same_number(&w("9")), Some(false));
    assert_eq!(w("0x7").same_number(&w("7")), None);
    assert_ne!(w("07"), w("7"));
    assert_eq!(U256Wrapper::from(U256::from_u64(7)), w("7"));
}
