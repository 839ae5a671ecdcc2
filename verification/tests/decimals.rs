use matching_engine::decimal::Decimal;

fn dec(v: i64) -> Decimal {
    Decimal::from_i64(v)
}

/// `digits / 10^scale`, for digits below 128.
fn small(digits: u8, scale: i64) -> Decimal {
    Decimal { digits: vec![digits], scale }
}

#[test]
fn from_i64_writes_the_digits() {
    let d = dec(-1125);
    assert_eq!(d.digits, vec![155, 251]);
    assert_eq!(d.scale, 0);
    assert_eq!(dec(1125).digits, vec![101, 4]);
    assert_eq!(dec(255).digits, vec![255, 0]);
    assert!(Decimal { digits: vec![255], scale: 0 }.equals(&dec(-1)));
    let z = dec(0);
    assert!(z.is_zero());
    assert!(z.equals(&Decimal::zero()));
    assert!(!dec(1).is_zero());
}

#[test]
fn equality_is_of_numbers_not_of_digits() {
    let one = dec(1);
    let one_point_zero = small(10, 1);
    let one_point_zero_zero = small(100, 2);
    assert!(one.equals(&one_point_zero));
    assert!(one_point_zero.equals(&one_point_zero_zero));
    assert!(!one.equals(&small(11, 1)));
    assert!(!one.less_than(&one_point_zero));
    assert!(one.at_most(&one_point_zero));
}

#[test]
fn order_is_total_and_exact() {
    assert!(dec(-1).less_than(&dec(1)));
    assert!(!dec(1).less_than(&dec(-1)));
    assert!(small(5, 1).less_than(&dec(1)));
    assert!(dec(1).less_than(&dec(10)));
    assert!(small(99, 2).less_than(&dec(1)));
    assert!(!dec(1).less_than(&small(99, 2)));
    assert!(dec(-1).is_negative());
    assert!(!dec(0).is_negative());
    assert!(dec(1).is_positive());
    assert!(!dec(0).is_positive());
    assert!(!dec(-1).is_positive());
}

#[test]
fn sum_difference_and_product_are_exact() {
    assert!(dec(2).plus(&dec(3)).equals(&dec(5)));
    assert!(dec(2).minus(&dec(3)).equals(&dec(-1)));
    assert!(dec(2).times(&dec(3)).equals(&dec(6)));
    // 0.1 + 0.2 == 0.3
    assert!(small(1, 1).plus(&small(2, 1)).equals(&small(3, 1)));
    // 1.25 * 0.4 == 0.5
    assert!(small(125, 2).times(&small(4, 1)).equals(&small(5, 1)));
    // 1 - 0.01 == 0.99
    assert!(dec(1).minus(&small(1, 2)).equals(&small(99, 2)));
    // a number of more than 128 bits
    let mut digits = vec![255u8; 20];
    digits.push(0);
    let big = Decimal { digits, scale: 3 };
    let sum = big.plus(&small(1, 3));
    let mut expected = vec![0u8; 20];
    expected.push(1);
    assert!(sum.equals(&Decimal { digits: expected, scale: 3 }));
    assert!(sum.minus(&big).equals(&small(1, 3)));
}

#[test]
fn scale_of_a_result_stays_within_that_of_the_operands() {
    let sum = small(1, 1).plus(&small(2, 3));
    assert!(sum.scale == 1 || sum.scale == 3);
    let difference = small(1, 1).minus(&small(2, 3));
    assert!(difference.scale == 1 || difference.scale == 3);
    let product = small(3, 1).times(&small(2, 3));
    assert!(0 <= product.scale && product.scale <= 4);
    assert!(product.equals(&small(6, 4)));
}

#[test]
fn min_takes_the_smaller() {
    assert!(dec(2).min(&dec(3)).equals(&dec(2)));
    assert!(dec(3).min(&dec(2)).equals(&dec(2)));
    let tie = small(10, 1).min(&dec(1));
    assert_eq!(tie.scale, 1);
}

#[test]
fn copy_keeps_digits_and_scale() {
    let d = Decimal { digits: vec![7, 129], scale: 4 };
    let c = d.copy();
    assert_eq!(c.digits, d.digits);
    assert_eq!(c.scale, d.scale);
    assert!(c.is_negative());
}

#[test]
fn unit_is_the_smallest_step_of_a_scale() {
    assert!(Decimal::unit(0).equals(&dec(1)));
    assert!(Decimal::unit(2).equals(&small(1, 2)));
    assert_eq!(Decimal::unit(2).scale, 2);
}

#[test]
fn floor_quotient_cuts_toward_zero_at_the_scale() {
    // 7 / 2 = 3.5
    assert!(dec(7).floor_quotient(&dec(2), 0).equals(&dec(3)));
    assert!(dec(7).floor_quotient(&dec(2), 1).equals(&small(35, 1)));
    assert!(dec(7).floor_quotient(&dec(2), 3).equals(&small(35, 1)));
    // 10 / 3 = 3.333...
    assert!(dec(10).floor_quotient(&dec(3), 0).equals(&dec(3)));
    assert!(dec(10).floor_quotient(&dec(3), 2).equals(&Decimal { digits: vec![77, 1], scale: 2 }));
    // 2 / 3 = 0.666..., never rounded up
    assert!(dec(2).floor_quotient(&dec(3), 1).equals(&small(6, 1)));
    assert!(dec(2).floor_quotient(&dec(3), 0).equals(&dec(0)));
    // 0 / 5 = 0
    assert!(dec(0).floor_quotient(&dec(5), 2).is_zero());
    // 25 / 10 at scale 0
    assert!(dec(25).floor_quotient(&dec(10), 0).equals(&dec(2)));
    // 0.9 / 0.3 = 3 exactly
    assert!(small(9, 1).floor_quotient(&small(3, 1), 2).equals(&dec(3)));
    assert_eq!(dec(7).floor_quotient(&dec(2), 3).scale, 3);
}

#[test]
fn floor_quotient_times_divisor_is_not_above_the_dividend() {
    for a in 0..40i64 {
        for b in 1..12i64 {
            for scale in 0..3i64 {
                let q = dec(a).floor_quotient(&dec(b), scale);
                assert!(q.times(&dec(b)).at_most(&dec(a)));
                assert!(dec(a).less_than(&q.plus(&Decimal::unit(scale)).times(&dec(b))));
            }
        }
    }
}

#[test]
fn scale_limits_are_told_apart() {
    assert!(small(1, 1_000_000).is_input());
    assert!(!small(1, 1_000_001).is_input());
    assert!(!small(1, -1).is_input());
    assert!(small(1, 3_000_000).is_within(3));
    assert!(!small(1, 3_000_001).is_within(3));
}
