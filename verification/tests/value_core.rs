use numera::value_core::{
    all_values, eight, five, four, nine, one, seven, six, three, two, zero,
    add, add_multi, compose, decompose, digit_at, digit_count, div, div_multi, mul, mul_multi, sub,
    sub_multi, verify_addition, verify_division, verify_multiplication, verify_subtraction, Value,
    ADDITION_TABLE, MULTIPLICATION_TABLE, SUBTRACTION_TABLE,
};


// ================================================================
// VALUE CONSTRUCTION & PROPERTIES
// ================================================================

#[test]
fn test_value_construction_valid() {
    for d in 0..=9u8 {
        let v = Value::new(d);
        assert!(v.is_some(), "Value::new({}) should succeed", d);
        assert_eq!(v.unwrap().digit(), d);
    }
}

#[test]
fn test_value_construction_invalid() {
    for d in 10..=255u8 {
        assert!(Value::new(d).is_none(), "Value::new({}) should fail", d);
    }
}

#[test]
fn test_value_must_valid() {
    for d in 0..=9u8 {
        assert_eq!(Value::must(d).digit(), d);
    }
}


#[test]
fn test_value_quantity() {
    for d in 0..=9u8 {
        assert_eq!(Value::must(d).quantity(), d as u64);
    }
}

#[test]
fn test_value_ordinal() {
    for d in 0..=9u8 {
        assert_eq!(Value::must(d).ordinal(), d);
    }
}

#[test]
fn test_value_even_odd() {
    let even = [0, 2, 4, 6, 8];
    let odd = [1, 3, 5, 7, 9];
    for &d in &even {
        assert!(Value::must(d).is_even(), "{} should be even", d);
        assert!(!Value::must(d).is_odd(), "{} should not be odd", d);
    }
    for &d in &odd {
        assert!(!Value::must(d).is_even(), "{} should not be even", d);
        assert!(Value::must(d).is_odd(), "{} should be odd", d);
    }
}

#[test]
fn test_value_prime() {
    let primes = [2, 3, 5, 7];
    let non_primes = [0, 1, 4, 6, 8, 9];
    for &d in &primes { assert!(Value::must(d).is_prime(), "{} should be prime", d); }
    for &d in &non_primes { assert!(!Value::must(d).is_prime(), "{} should not be prime", d); }
}

#[test]
fn test_value_zero_one() {
    assert!(Value::must(0).is_zero()); assert!(!Value::must(0).is_one());
    assert!(Value::must(1).is_one()); assert!(!Value::must(1).is_zero());
    for d in 2..=9u8 { assert!(!Value::must(d).is_zero()); assert!(!Value::must(d).is_one()); }
}

#[test]
fn test_complement_10() {
    let expected = [10, 9, 8, 7, 6, 5, 4, 3, 2, 1];
    for d in 0..=9u8 {
        assert_eq!(Value::must(d).complement_10(), expected[d as usize]);
    }
}

#[test]
fn test_complement_9() {
    for d in 0..=9u8 { assert_eq!(Value::must(d).complement_9(), 9 - d); }
}

#[test]
fn test_ordering() {
    for a in 0..=9u8 {
        for b in 0..=9u8 {
            let va = Value::must(a); let vb = Value::must(b);
            assert_eq!(va < vb, a < b);
            assert_eq!(va > vb, a > b);
            assert_eq!(va == vb, a == b);
        }
    }
}

#[test]
fn test_greater_lesser_values() {
    assert_eq!(Value::must(0).greater_values().len(), 9);
    assert_eq!(Value::must(0).lesser_values().len(), 0);
    assert_eq!(Value::must(5).greater_values().len(), 4);
    assert_eq!(Value::must(5).lesser_values().len(), 5);
    assert_eq!(Value::must(9).greater_values().len(), 0);
    assert_eq!(Value::must(9).lesser_values().len(), 9);
}

#[test]
fn test_factors() {
    assert_eq!(Value::must(0).factors(), vec![]);
    assert_eq!(Value::must(1).factors(), vec![1]);
    assert_eq!(Value::must(2).factors(), vec![1, 2]);
    assert_eq!(Value::must(3).factors(), vec![1, 3]);
    assert_eq!(Value::must(4).factors(), vec![1, 2, 4]);
    assert_eq!(Value::must(5).factors(), vec![1, 5]);
    assert_eq!(Value::must(6).factors(), vec![1, 2, 3, 6]);
    assert_eq!(Value::must(7).factors(), vec![1, 7]);
    assert_eq!(Value::must(8).factors(), vec![1, 2, 4, 8]);
    assert_eq!(Value::must(9).factors(), vec![1, 3, 9]);
}

#[test]
fn test_divides() {
    assert!(!Value::must(0).divides(&Value::must(5)));
    assert!(Value::must(1).divides(&Value::must(5)));
    assert!(Value::must(2).divides(&Value::must(4)));
    assert!(!Value::must(2).divides(&Value::must(3)));
    assert!(Value::must(3).divides(&Value::must(9)));
    assert!(Value::must(3).divides(&Value::must(6)));
}

// ================================================================
// EXHAUSTIVE ADDITION TABLE - All 100 facts
// ================================================================

#[test]
fn test_addition_table_exhaustive() {
    for a in 0..=9u8 {
        for b in 0..=9u8 {
            let expected = a + b;
            let retrieved = ADDITION_TABLE[a as usize][b as usize];
            assert_eq!(retrieved, expected, "ADD[{}][{}] = {} expected {}", a, b, retrieved, expected);
        }
    }
}

#[test]
fn test_add_function_exhaustive() {
    for a in 0..=9u8 {
        for b in 0..=9u8 {
            assert_eq!(add(Value::must(a), Value::must(b)), a + b, "add({}, {})", a, b);
        }
    }
}

#[test]
fn test_addition_commutativity() {
    for a in 0..=9u8 {
        for b in 0..=9u8 {
            assert_eq!(add(Value::must(a), Value::must(b)), add(Value::must(b), Value::must(a)));
        }
    }
}

#[test]
fn test_addition_identity() {
    for d in 0..=9u8 {
        assert_eq!(add(Value::must(d), Value::must(0)), d);
        assert_eq!(add(Value::must(0), Value::must(d)), d);
    }
}

// ================================================================
// EXHAUSTIVE SUBTRACTION TABLE - All 100 facts
// ================================================================

#[test]
fn test_subtraction_table_exhaustive() {
    for a in 0..=9u8 {
        for b in 0..=9u8 {
            let expected = a as i8 - b as i8;
            assert_eq!(SUBTRACTION_TABLE[a as usize][b as usize], expected, "SUB[{}][{}]", a, b);
        }
    }
}

#[test]
fn test_sub_function_exhaustive() {
    for a in 0..=9u8 {
        for b in 0..=9u8 {
            assert_eq!(sub(Value::must(a), Value::must(b)), a as i8 - b as i8, "sub({}, {})", a, b);
        }
    }
}

#[test]
fn test_subtraction_identity() {
    for d in 0..=9u8 { assert_eq!(sub(Value::must(d), Value::must(0)), d as i8); }
}

#[test]
fn test_subtraction_self() {
    for d in 0..=9u8 { assert_eq!(sub(Value::must(d), Value::must(d)), 0); }
}

// ================================================================
// EXHAUSTIVE MULTIPLICATION TABLE - All 100 facts
// ================================================================

#[test]
fn test_multiplication_table_exhaustive() {
    for a in 0..=9u8 {
        for b in 0..=9u8 {
            let expected = a * b;
            assert_eq!(MULTIPLICATION_TABLE[a as usize][b as usize], expected, "MUL[{}][{}]", a, b);
        }
    }
}

#[test]
fn test_mul_function_exhaustive() {
    for a in 0..=9u8 {
        for b in 0..=9u8 {
            assert_eq!(mul(Value::must(a), Value::must(b)), a * b, "mul({}, {})", a, b);
        }
    }
}

#[test]
fn test_multiplication_commutativity() {
    for a in 0..=9u8 {
        for b in 0..=9u8 {
            assert_eq!(mul(Value::must(a), Value::must(b)), mul(Value::must(b), Value::must(a)));
        }
    }
}

#[test]
fn test_multiplication_identity() {
    for d in 0..=9u8 {
        assert_eq!(mul(Value::must(d), Value::must(1)), d);
        assert_eq!(mul(Value::must(1), Value::must(d)), d);
    }
}

#[test]
fn test_multiplication_zero() {
    for d in 0..=9u8 {
        assert_eq!(mul(Value::must(d), Value::must(0)), 0);
        assert_eq!(mul(Value::must(0), Value::must(d)), 0);
    }
}

// ================================================================
// DIVISION FACTS
// ================================================================

#[test]
fn test_div_by_zero() {
    for d in 0..=9u8 { assert!(div(Value::must(d), Value::must(0)).is_none()); }
}

#[test]
fn test_div_exhaustive() {
    for a in 0..=9u8 {
        for b in 1..=9u8 {
            let (q, r) = div(Value::must(a), Value::must(b)).unwrap();
            assert_eq!(q, a / b, "{}/{} quotient", a, b);
            assert_eq!(r, a % b, "{}/{} remainder", a, b);
        }
    }
}

#[test]
fn test_div_identity() {
    for d in 1..=9u8 {
        let (q, r) = div(Value::must(d), Value::must(1)).unwrap();
        assert_eq!(q, d); assert_eq!(r, 0);
    }
}

#[test]
fn test_div_self() {
    for d in 1..=9u8 {
        let (q, r) = div(Value::must(d), Value::must(d)).unwrap();
        assert_eq!(q, 1); assert_eq!(r, 0);
    }
}

// ================================================================
// ADDITION-SUBTRACTION INVERSE
// ================================================================

#[test]
fn test_addition_subtraction_inverse() {
    for a in 0..=9u8 {
        for b in 0..=9u8 {
            let sum = add(Value::must(a), Value::must(b));
            if sum <= 9 {
                assert_eq!(sub(Value::must(sum), Value::must(a)), b as i8);
            }
        }
    }
}

// ================================================================
// PLACE VALUE
// ================================================================

#[test]
fn test_decompose_zero() {
    let c = decompose(0);
    assert_eq!(c.len(), 1);
    assert_eq!(c[0].value, Value::must(0));
    assert_eq!(c[0].place, 1);
}

#[test]
fn test_decompose_single_digits() {
    for d in 0..=9u64 {
        let c = decompose(d);
        assert_eq!(c.len(), 1);
        assert_eq!(c[0].value.digit(), d as u8);
    }
}

#[test]
fn test_decompose_347() {
    let c = decompose(347);
    assert_eq!(c.len(), 3);
    assert_eq!(c[0].value, Value::must(3)); assert_eq!(c[0].place, 100);
    assert_eq!(c[1].value, Value::must(4));  assert_eq!(c[1].place, 10);
    assert_eq!(c[2].value, Value::must(7)); assert_eq!(c[2].place, 1);
}

#[test]
fn test_decompose_with_zeros() {
    let c = decompose(1000);
    assert_eq!(c.len(), 4);
    assert_eq!(c[0].value, Value::must(1));  assert_eq!(c[0].place, 1000);
    assert_eq!(c[1].value, Value::must(0)); assert_eq!(c[2].value, Value::must(0)); assert_eq!(c[3].value, Value::must(0));
}

#[test]
fn test_compose_decompose_roundtrip() {
    let vals = [0, 1, 5, 9, 10, 42, 99, 100, 347, 999, 1000, 12345, 99999, 123456789, 999999999];
    for &n in &vals {
        assert_eq!(compose(&decompose(n)), n, "roundtrip failed for {}", n);
    }
}

#[test]
fn test_compose_decompose_exhaustive_0_to_999() {
    for n in 0..=999u64 {
        assert_eq!(compose(&decompose(n)), n, "roundtrip failed for {}", n);
    }
}

#[test]
fn test_digit_count() {
    assert_eq!(digit_count(0), 1);
    assert_eq!(digit_count(9), 1);
    assert_eq!(digit_count(10), 2);
    assert_eq!(digit_count(99), 2);
    assert_eq!(digit_count(100), 3);
    assert_eq!(digit_count(123456789), 9);
}

#[test]
fn test_digit_at() {
    assert_eq!(digit_at(347, 0), Value::must(7));
    assert_eq!(digit_at(347, 1), Value::must(4));
    assert_eq!(digit_at(347, 2), Value::must(3));
    assert_eq!(digit_at(347, 3), Value::must(0));
}

// ================================================================
// MULTI-DIGIT ADDITION
// ================================================================

#[test]
fn test_add_multi_simple() {
    assert_eq!(add_multi(2, 3).result, 5);
    assert_eq!(add_multi(0, 0).result, 0);
    assert_eq!(add_multi(0, 5).result, 5);
    assert_eq!(add_multi(5, 0).result, 5);
}

#[test]
fn test_add_multi_with_carry() {
    assert_eq!(add_multi(7, 8).result, 15);
    assert_eq!(add_multi(99, 1).result, 100);
    assert_eq!(add_multi(999, 1).result, 1000);
}

#[test]
fn test_add_multi_larger() {
    assert_eq!(add_multi(347, 286).result, 633);
    assert_eq!(add_multi(12345, 67890).result, 80235);
    assert_eq!(add_multi(999999, 1).result, 1000000);
}

#[test]
fn test_add_multi_commutative() {
    for &(a, b) in &[(347, 286), (12345, 67890), (1, 999999), (0, 0)] {
        assert_eq!(add_multi(a, b).result, add_multi(b, a).result);
    }
}

#[test]
fn test_add_multi_exhaustive_0_to_100() {
    for a in 0..=100u64 {
        for b in 0..=100u64 {
            assert_eq!(add_multi(a, b).result, a + b, "{} + {}", a, b);
        }
    }
}

// ================================================================
// MULTI-DIGIT SUBTRACTION
// ================================================================

#[test]
fn test_sub_multi_simple() {
    assert_eq!(sub_multi(5, 3).unwrap().result, 2);
    assert_eq!(sub_multi(0, 0).unwrap().result, 0);
    assert_eq!(sub_multi(9, 0).unwrap().result, 9);
}

#[test]
fn test_sub_multi_with_borrow() {
    assert_eq!(sub_multi(100, 1).unwrap().result, 99);
    assert_eq!(sub_multi(1000, 1).unwrap().result, 999);
    assert_eq!(sub_multi(633, 286).unwrap().result, 347);
}

#[test]
fn test_sub_multi_negative() {
    assert!(sub_multi(3, 5).is_none());
    assert!(sub_multi(0, 1).is_none());
    assert!(sub_multi(100, 200).is_none());
}

#[test]
fn test_sub_multi_exhaustive_0_to_100() {
    for a in 0..=100u64 {
        for b in 0..=a {
            assert_eq!(sub_multi(a, b).unwrap().result, a - b, "{} - {}", a, b);
        }
    }
}

// ================================================================
// MULTI-DIGIT MULTIPLICATION
// ================================================================

#[test]
fn test_mul_multi_simple() {
    assert_eq!(mul_multi(2, 3).result, 6);
    assert_eq!(mul_multi(0, 100).result, 0);
    assert_eq!(mul_multi(1, 12345).result, 12345);
}

#[test]
fn test_mul_multi_larger() {
    assert_eq!(mul_multi(12, 12).result, 144);
    assert_eq!(mul_multi(99, 99).result, 9801);
    assert_eq!(mul_multi(123, 456).result, 56088);
    assert_eq!(mul_multi(347, 286).result, 99242);
}

#[test]
fn test_mul_multi_commutative() {
    for &(a, b) in &[(12, 34), (99, 99), (123, 456), (1, 99999), (0, 12345)] {
        assert_eq!(mul_multi(a, b).result, mul_multi(b, a).result);
    }
}

#[test]
fn test_mul_multi_exhaustive_0_to_50() {
    for a in 0..=50u64 {
        for b in 0..=50u64 {
            assert_eq!(mul_multi(a, b).result, a * b, "{} * {}", a, b);
        }
    }
}

// ================================================================
// MULTI-DIGIT DIVISION
// ================================================================

#[test]
fn test_div_multi_simple() {
    let r = div_multi(6, 3).unwrap();
    assert_eq!(r.quotient, 2); assert_eq!(r.remainder, 0);
}

#[test]
fn test_div_multi_with_remainder() {
    let r = div_multi(7, 3).unwrap();
    assert_eq!(r.quotient, 2); assert_eq!(r.remainder, 1);
}

#[test]
fn test_div_multi_by_zero() { assert!(div_multi(5, 0).is_none()); }

#[test]
fn test_div_multi_larger() {
    let r = div_multi(99242, 347).unwrap();
    assert_eq!(r.quotient, 286); assert_eq!(r.remainder, 0);
}

#[test]
fn test_div_multi_exhaustive() {
    for a in 0..=200u64 {
        for b in 1..=50u64 {
            let r = div_multi(a, b).unwrap();
            assert_eq!(r.quotient, a / b, "{}/{} quotient", a, b);
            assert_eq!(r.remainder, a % b, "{}/{} remainder", a, b);
        }
    }
}

// ================================================================
// VERIFICATION PROTOCOL
// ================================================================

#[test]
fn test_verify_addition() {
    assert!(verify_addition(347, 286, 633));
    assert!(!verify_addition(347, 286, 634));
    assert!(verify_addition(0, 0, 0));
    assert!(verify_addition(999, 1, 1000));
}

#[test]
fn test_verify_subtraction() {
    assert!(verify_subtraction(633, 286, 347));
    assert!(!verify_subtraction(633, 286, 348));
    assert!(verify_subtraction(1000, 1, 999));
}

#[test]
fn test_verify_multiplication() {
    assert!(verify_multiplication(347, 286, 99242));
    assert!(!verify_multiplication(347, 286, 99243));
    assert!(verify_multiplication(0, 100, 0));
}

#[test]
fn test_verify_division() {
    assert!(verify_division(7, 3, 2, 1));
    assert!(verify_division(99242, 347, 286, 0));
    assert!(!verify_division(7, 3, 3, 0));
    assert!(!verify_division(5, 0, 0, 0));
}

#[test]
fn test_verify_addition_exhaustive_0_to_100() {
    for a in 0..=100u64 {
        for b in 0..=100u64 {
            assert!(verify_addition(a, b, a + b), "verify_add({}, {}, {})", a, b, a + b);
            if a + b > 0 {
                assert!(!verify_addition(a, b, a + b + 1));
            }
        }
    }
}

#[test]
fn test_verify_multiplication_exhaustive_0_to_30() {
    for a in 0..=30u64 {
        for b in 0..=30u64 {
            assert!(verify_multiplication(a, b, a * b), "verify_mul({}, {}, {})", a, b, a * b);
        }
    }
}

#[test]
fn test_verify_division_exhaustive() {
    for a in 0..=200u64 {
        for b in 1..=30u64 {
            assert!(verify_division(a, b, a / b, a % b), "verify_div({}, {})", a, b);
        }
    }
}

// ================================================================
// CROSS-OPERATION CONSISTENCY
// ================================================================

#[test]
fn test_addition_subtraction_roundtrip() {
    for a in 0..=100u64 {
        for b in 0..=100u64 {
            let sum = add_multi(a, b).result;
            assert_eq!(sub_multi(sum, b).unwrap().result, a, "({} + {}) - {} != {}", a, b, b, a);
        }
    }
}

#[test]
fn test_multiplication_division_roundtrip() {
    for a in 0..=50u64 {
        for b in 1..=50u64 {
            let product = mul_multi(a, b).result;
            let d = div_multi(product, b).unwrap();
            assert_eq!(d.quotient, a, "({} * {}) / {} != {}", a, b, b, a);
            assert_eq!(d.remainder, 0);
        }
    }
}

// ================================================================
// MATHEMATICAL PROPERTIES
// ================================================================

#[test]
fn test_distributive_property() {
    for a in 0..=20u64 {
        for b in 0..=20u64 {
            for c in 0..=20u64 {
                let left = mul_multi(a, add_multi(b, c).result).result;
                let right = add_multi(mul_multi(a, b).result, mul_multi(a, c).result).result;
                assert_eq!(left, right, "{}*({} + {}) != {}*{} + {}*{}", a, b, c, a, b, a, c);
            }
        }
    }
}

#[test]
fn test_addition_associativity() {
    for a in 0..=30u64 {
        for b in 0..=30u64 {
            for c in 0..=30u64 {
                let left = add_multi(add_multi(a, b).result, c).result;
                let right = add_multi(a, add_multi(b, c).result).result;
                assert_eq!(left, right, "({} + {}) + {} != {} + ({} + {})", a, b, c, a, b, c);
            }
        }
    }
}

#[test]
fn test_multiplication_associativity() {
    for a in 0..=15u64 {
        for b in 0..=15u64 {
            for c in 0..=15u64 {
                let left = mul_multi(mul_multi(a, b).result, c).result;
                let right = mul_multi(a, mul_multi(b, c).result).result;
                assert_eq!(left, right, "({} * {}) * {} != {} * ({} * {})", a, b, c, a, b, c);
            }
        }
    }
}

#[test]
fn test_decompose_largest_and_digit_beyond_length() {
    let parts = decompose(u64::MAX);
    assert_eq!(parts.len(), 20);
    assert_eq!(parts[0].place, 10_000_000_000_000_000_000);
    assert_eq!(parts[0].value.digit(), 1);
    assert_eq!(compose(&parts), u64::MAX);
    assert_eq!(digit_at(347, 3).digit(), 0);
    assert_eq!(digit_at(347, 2).digit(), 3);
    assert_eq!(digit_at(u64::MAX, 19).digit(), 1);
    assert_eq!(digit_at(u64::MAX, 40).digit(), 0);
}

#[test]
fn test_the_ten_values() {
    let all = all_values();
    assert_eq!(all.len(), 10);
    for (i, v) in all.iter().enumerate() {
        assert_eq!(v.digit() as usize, i);
    }
    let named = [zero(), one(), two(), three(), four(), five(), six(), seven(), eight(), nine()];
    assert_eq!(named.to_vec(), all);
}
