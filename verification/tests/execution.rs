use numera::execution::{
    add_fractions, add_integers, div_fractions, div_integers, factorial_integer, gcd, int_to_text, lcm,
    modulo_integers, mul_fractions, mul_integers, power_integers, sub_fractions, sub_integers, Exact, Step,
};

fn descriptions(steps: &[Step]) -> Vec<String> {
    steps.iter().map(|s| s.description.clone()).collect()
}

#[test]
fn test_kernel_add_nonnegative() {
    let mut steps = Vec::new();
    let mut rules = Vec::new();
    assert_eq!(add_integers(347, 286, &mut steps, &mut rules), 633);
    assert_eq!(rules, vec!["core.add"]);
    assert_eq!(descriptions(&steps), vec!["347 + 286 = 633 (Value Core)"]);
    assert_eq!(steps[0].result, "633");
    assert!(steps[0].verified);
}

#[test]
fn test_kernel_add_mixed_signs_goes_through_subtraction() {
    let mut steps = Vec::new();
    let mut rules = Vec::new();
    assert_eq!(add_integers(5, -8, &mut steps, &mut rules), -3);
    assert_eq!(rules, vec!["core.sub"]);
    assert_eq!(descriptions(&steps), vec!["5 - 8 = -3 (Value Core)", "5 + -8 = -3 (Value Core)"]);
}

#[test]
fn test_kernel_add_two_negatives() {
    let mut steps = Vec::new();
    let mut rules: Vec<String> = Vec::new();
    assert_eq!(add_integers(-2, -3, &mut steps, &mut rules), -5);
    assert!(rules.is_empty());
    assert_eq!(descriptions(&steps), vec!["-2 + -3 = -5 (Value Core)"]);
}

#[test]
fn test_kernel_sub_below_zero() {
    let mut steps = Vec::new();
    let mut rules = Vec::new();
    assert_eq!(sub_integers(3, 10, &mut steps, &mut rules), -7);
    assert_eq!(rules, vec!["core.sub"]);
    assert_eq!(steps[0].result, "-7");
}

#[test]
fn test_kernel_sub_negative_operand() {
    let mut steps = Vec::new();
    let mut rules = Vec::new();
    assert_eq!(sub_integers(-4, 6, &mut steps, &mut rules), -10);
    assert_eq!(rules, vec!["core.sub"]);
    assert_eq!(descriptions(&steps), vec!["-4 + -6 = -10 (Value Core)", "-4 - 6 = -10 (Value Core)"]);
}

#[test]
fn test_kernel_mul_signs() {
    let mut steps = Vec::new();
    let mut rules = Vec::new();
    assert_eq!(mul_integers(-12, 34, &mut steps, &mut rules), -408);
    assert_eq!(mul_integers(-12, -34, &mut steps, &mut rules), 408);
    assert_eq!(rules, vec!["core.mul", "core.mul"]);
    assert_eq!(descriptions(&steps)[0], "-12 × 34 = -408 (Value Core)");
}

#[test]
fn test_kernel_div_exact_and_fraction() {
    let mut steps = Vec::new();
    let mut rules = Vec::new();
    assert_eq!(div_integers(99242, 347, &mut steps, &mut rules), Exact::Integer(286));
    assert_eq!(div_integers(7, -2, &mut steps, &mut rules), Exact::Rational(-7, 2));
    assert_eq!(div_integers(6, 4, &mut steps, &mut rules), Exact::Rational(3, 2));
    assert_eq!(rules, vec!["core.div", "core.div", "core.div"]);
    assert_eq!(descriptions(&steps)[0], "99242 ÷ 347 = 286 (exact, Value Core)");
    assert_eq!(descriptions(&steps)[1], "7 ÷ -2 = -7/2 (Value Core)");
    assert_eq!(steps[2].result, "3/2");
}

#[test]
fn test_kernel_fractions() {
    let mut steps = Vec::new();
    let mut rules = Vec::new();
    assert_eq!(add_fractions(1, 2, 1, 3, &mut steps, &mut rules), Exact::Rational(5, 6));
    assert_eq!(add_fractions(1, 2, 1, 2, &mut steps, &mut rules), Exact::Integer(1));
    assert_eq!(sub_fractions(1, 2, 1, 3, &mut steps, &mut rules), Exact::Rational(1, 6));
    assert_eq!(mul_fractions(2, 3, 3, 4, &mut steps, &mut rules), Exact::Rational(1, 2));
    assert_eq!(descriptions(&steps)[0], "1/2 + 1/3 = 5/6");
    assert_eq!(descriptions(&steps)[3], "(2/3) × (3/4) = 1/2");
    assert_eq!(rules, vec!["fraction_add", "fraction_add", "fraction_sub", "fraction_add", "fraction_mul"]);
}

#[test]
fn test_kernel_fraction_sign_moves_to_numerator() {
    let mut steps = Vec::new();
    let mut rules = Vec::new();
    assert_eq!(add_fractions(1, -2, 0, 1, &mut steps, &mut rules), Exact::Rational(-1, 2));
}

#[test]
fn test_kernel_div_fractions() {
    let mut steps = Vec::new();
    let mut rules = Vec::new();
    assert_eq!(div_fractions(1, 2, 3, 4, &mut steps, &mut rules), Ok(Exact::Rational(2, 3)));
    assert_eq!(div_fractions(1, 2, 0, 5, &mut steps, &mut rules), Err("Division by zero fraction".to_string()));
    assert_eq!(rules, vec!["fraction_div", "fraction_mul", "fraction_div"]);
}

#[test]
fn test_kernel_gcd() {
    assert_eq!(gcd(48, 18), 6);
    assert_eq!(gcd(18, 48), 6);
    assert_eq!(gcd(0, 7), 7);
    assert_eq!(gcd(0, 0), 0);
    assert_eq!(gcd(17, 5), 1);
}

#[test]
fn test_int_to_text() {
    assert_eq!(int_to_text(0), "0");
    assert_eq!(int_to_text(-42), "-42");
    assert_eq!(int_to_text(i64::MAX), "9223372036854775807");
    assert_eq!(int_to_text(i64::MIN), "-9223372036854775808");
}

#[test]
fn test_step_to_text() {
    let s = Step {
        operation: "add".to_string(),
        description: "3 + 5 = 8 (Value Core)".to_string(),
        result: "8".to_string(),
        verified: true,
    };
    assert_eq!(s.to_text(), "[✓] add → 8 (3 + 5 = 8 (Value Core))");
    let u = Step { verified: false, ..s };
    assert_eq!(u.to_text(), "[?] add → 8 (3 + 5 = 8 (Value Core))");
}

#[test]
fn test_kernel_factorial_of_five() {
    let mut steps = Vec::new();
    let mut rules = Vec::new();
    assert_eq!(factorial_integer(5, &mut steps, &mut rules), 120);
    assert_eq!(rules, vec!["factorial", "core.mul", "core.mul", "core.mul", "core.mul"]);
    assert_eq!(
        descriptions(&steps),
        vec![
            "1 × 2 = 2 (Value Core)",
            "2 × 3 = 6 (Value Core)",
            "6 × 4 = 24 (Value Core)",
            "24 × 5 = 120 (Value Core)",
            "5! = 120",
        ]
    );
    assert_eq!(steps[4].operation, "factorial");
    assert_eq!(steps[4].result, "120");
}

#[test]
fn test_kernel_factorial_small_and_largest() {
    let mut steps = Vec::new();
    let mut rules = Vec::new();
    assert_eq!(factorial_integer(0, &mut steps, &mut rules), 1);
    assert_eq!(factorial_integer(1, &mut steps, &mut rules), 1);
    assert_eq!(descriptions(&steps), vec!["0! = 1", "1! = 1"]);
    assert_eq!(rules, vec!["factorial", "factorial"]);
    let mut steps = Vec::new();
    let mut rules = Vec::new();
    assert_eq!(factorial_integer(20, &mut steps, &mut rules), 2432902008176640000);
    assert_eq!(steps.len(), 20);
}

#[test]
fn test_kernel_lcm() {
    assert_eq!(lcm(4, 6), 12);
    assert_eq!(lcm(21, 6), 42);
    assert_eq!(lcm(7, 0), 0);
    assert_eq!(lcm(0, 0), 0);
    assert_eq!(lcm(1, 9), 9);
}

#[test]
fn test_kernel_power_positive_exponent() {
    let mut steps = Vec::new();
    let mut rules = Vec::new();
    assert_eq!(power_integers(2, 3, &mut steps, &mut rules), Exact::Integer(8));
    assert_eq!(rules, vec!["exponent_eval", "core.mul", "core.mul", "core.mul"]);
    assert_eq!(
        descriptions(&steps),
        vec![
            "1 × 2 = 2 (Value Core)",
            "2^3 step 1: intermediate = 2",
            "2 × 2 = 4 (Value Core)",
            "2^3 step 2: intermediate = 4",
            "4 × 2 = 8 (Value Core)",
            "2^3 step 3: intermediate = 8",
        ]
    );
    assert_eq!(steps[5].operation, "power_step");
    assert_eq!(steps[5].result, "8");
}

#[test]
fn test_kernel_power_zero_and_one() {
    let mut steps = Vec::new();
    let mut rules = Vec::new();
    assert_eq!(power_integers(7, 0, &mut steps, &mut rules), Exact::Integer(1));
    assert_eq!(power_integers(-4, 1, &mut steps, &mut rules), Exact::Integer(-4));
    assert_eq!(
        descriptions(&steps),
        vec!["7^0 = 1 (any non-zero number to the 0th power is 1)", "-4^1 = -4"]
    );
    assert_eq!(steps[0].operation, "power_zero");
    assert_eq!(steps[1].operation, "power_one");
    assert_eq!(rules, vec!["exponent_eval", "exponent_eval"]);
}

#[test]
fn test_kernel_power_negative_exponent() {
    let mut steps = Vec::new();
    let mut rules = Vec::new();
    assert_eq!(power_integers(-3, -2, &mut steps, &mut rules), Exact::Rational(1, 9));
    assert_eq!(rules, vec!["exponent_eval", "core.mul", "core.mul"]);
    assert_eq!(
        descriptions(&steps),
        vec!["1 × -3 = -3 (Value Core)", "-3 × -3 = 9 (Value Core)", "-3^-2 = 1/9"]
    );
    assert_eq!(steps[2].result, "1/9");
    assert_eq!(steps[2].operation, "power_negative");
}

#[test]
fn test_kernel_modulo() {
    let mut steps = Vec::new();
    let mut rules = Vec::new();
    assert_eq!(modulo_integers(17, 5, &mut steps, &mut rules), Ok(2));
    assert_eq!(modulo_integers(-17, 5, &mut steps, &mut rules), Ok(-2));
    assert_eq!(modulo_integers(17, -5, &mut steps, &mut rules), Ok(2));
    assert_eq!(descriptions(&steps), vec!["17 mod 5 = 2", "-17 mod 5 = -2", "17 mod -5 = 2"]);
    assert_eq!(rules, vec!["mod_arith", "mod_arith", "mod_arith"]);
    let mut steps = Vec::new();
    let mut rules: Vec<String> = Vec::new();
    assert_eq!(modulo_integers(4, 0, &mut steps, &mut rules), Err("Modulo by zero".to_string()));
    assert!(steps.is_empty() && rules.is_empty());
}
