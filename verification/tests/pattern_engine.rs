use numera::pattern_engine::{
    classify, parse, tokenize, AstNode, BinaryOperator, ComparisonOp, Numeral, ParseError, Token, UnaryOperator,
};
use numera::rule_library::{Domain, PatternType};


// ================================================================
// TOKENIZER TESTS
// ================================================================

#[test]
fn test_tokenize_number() {
    let tokens = tokenize("42").unwrap();
    assert_eq!(tokens[0], Token::Number(Numeral::from_literal("42").unwrap()));
}

#[test]
fn test_tokenize_decimal() {
    let tokens = tokenize("3.14").unwrap();
    assert_eq!(tokens[0], Token::Number(Numeral::from_literal("3.14").unwrap()));
}

#[test]
fn test_tokenize_variable() {
    let tokens = tokenize("x").unwrap();
    assert_eq!(tokens[0], Token::Variable("x".to_string()));
}

#[test]
fn test_tokenize_multichar_variable() {
    let tokens = tokenize("theta").unwrap();
    assert_eq!(tokens[0], Token::Variable("theta".to_string()));
}

#[test]
fn test_tokenize_function() {
    let tokens = tokenize("sin").unwrap();
    assert_eq!(tokens[0], Token::Function("sin".to_string()));
}

#[test]
fn test_tokenize_constant_pi() {
    let tokens = tokenize("pi").unwrap();
    assert_eq!(tokens[0], Token::Number(Numeral::pi()));
}

#[test]
fn test_tokenize_operators() {
    let tokens = tokenize("+ - * / ^ % !").unwrap();
    assert_eq!(tokens[0], Token::Plus);
    assert_eq!(tokens[1], Token::Minus);
    assert_eq!(tokens[2], Token::Star);
    assert_eq!(tokens[3], Token::Slash);
    assert_eq!(tokens[4], Token::Caret);
    assert_eq!(tokens[5], Token::Percent);
    assert_eq!(tokens[6], Token::Bang);
}

#[test]
fn test_tokenize_comparison() {
    let tokens = tokenize("< > <= >=").unwrap();
    assert_eq!(tokens[0], Token::LessThan);
    assert_eq!(tokens[1], Token::GreaterThan);
    assert_eq!(tokens[2], Token::LessEqual);
    assert_eq!(tokens[3], Token::GreaterEqual);
}

#[test]
fn test_tokenize_parens() {
    let tokens = tokenize("(x)").unwrap();
    assert_eq!(tokens[0], Token::LeftParen);
    assert_eq!(tokens[1], Token::Variable("x".to_string()));
    assert_eq!(tokens[2], Token::RightParen);
}

#[test]
fn test_tokenize_complex_expression() {
    let tokens = tokenize("2 * x + 3").unwrap();
    assert_eq!(tokens[0], Token::Number(Numeral::from_literal("2").unwrap()));
    assert_eq!(tokens[1], Token::Star);
    assert_eq!(tokens[2], Token::Variable("x".to_string()));
    assert_eq!(tokens[3], Token::Plus);
    assert_eq!(tokens[4], Token::Number(Numeral::from_literal("3").unwrap()));
}

#[test]
fn test_tokenize_equation() {
    let tokens = tokenize("2x + 3 = 7").unwrap();
    assert!(tokens.contains(&Token::Equals));
}

#[test]
fn test_tokenize_function_call() {
    let tokens = tokenize("sin(x)").unwrap();
    assert_eq!(tokens[0], Token::Function("sin".to_string()));
    assert_eq!(tokens[1], Token::LeftParen);
    assert_eq!(tokens[2], Token::Variable("x".to_string()));
    assert_eq!(tokens[3], Token::RightParen);
}

#[test]
fn test_tokenize_error_bad_char() {
    let result = tokenize("2 @ 3");
    assert!(result.is_err());
}

#[test]
fn test_tokenize_whitespace_handling() {
    let t1 = tokenize("2+3").unwrap();
    let t2 = tokenize("  2  +  3  ").unwrap();
    assert_eq!(t1.len(), t2.len());
}

#[test]
fn test_tokenize_all_known_functions() {
    let known_functions = [
        "sin", "cos", "tan", "asin", "acos", "atan", "sinh", "cosh", "tanh", "sqrt", "cbrt", "abs", "log", "ln",
        "exp", "floor", "ceil", "round", "gcd", "lcm", "det", "trace", "transpose", "mod",
    ];
    for &func in known_functions.iter() {
        let tokens = tokenize(func).unwrap();
        assert_eq!(tokens[0], Token::Function(func.to_string()),
            "Function {} not recognized", func);
    }
}

#[test]
fn test_tokenize_pipe() {
    let tokens = tokenize("|x|").unwrap();
    assert_eq!(tokens[0], Token::Pipe);
    assert_eq!(tokens[2], Token::Pipe);
}

// ================================================================
// PARSER TESTS — BASIC ARITHMETIC
// ================================================================

#[test]
fn test_parse_number() {
    let ast = parse("42").unwrap();
    assert_eq!(ast, AstNode::Number(Numeral::from_literal("42").unwrap()));
}

#[test]
fn test_parse_decimal() {
    let ast = parse("3.14").unwrap();
    assert_eq!(ast, AstNode::Number(Numeral::from_literal("3.14").unwrap()));
}

#[test]
fn test_parse_variable() {
    let ast = parse("x").unwrap();
    assert_eq!(ast, AstNode::Variable("x".to_string()));
}

#[test]
fn test_parse_addition() {
    let ast = parse("2 + 3").unwrap();
    assert_eq!(ast, AstNode::BinaryOp {
        op: BinaryOperator::Add,
        left: Box::new(AstNode::Number(Numeral::from_literal("2").unwrap())),
        right: Box::new(AstNode::Number(Numeral::from_literal("3").unwrap())),
    });
}

#[test]
fn test_parse_subtraction() {
    let ast = parse("5 - 3").unwrap();
    assert_eq!(ast, AstNode::BinaryOp {
        op: BinaryOperator::Subtract,
        left: Box::new(AstNode::Number(Numeral::from_literal("5").unwrap())),
        right: Box::new(AstNode::Number(Numeral::from_literal("3").unwrap())),
    });
}

#[test]
fn test_parse_multiplication() {
    let ast = parse("4 * 7").unwrap();
    assert_eq!(ast, AstNode::BinaryOp {
        op: BinaryOperator::Multiply,
        left: Box::new(AstNode::Number(Numeral::from_literal("4").unwrap())),
        right: Box::new(AstNode::Number(Numeral::from_literal("7").unwrap())),
    });
}

#[test]
fn test_parse_division() {
    let ast = parse("8 / 2").unwrap();
    assert_eq!(ast, AstNode::BinaryOp {
        op: BinaryOperator::Divide,
        left: Box::new(AstNode::Number(Numeral::from_literal("8").unwrap())),
        right: Box::new(AstNode::Number(Numeral::from_literal("2").unwrap())),
    });
}

#[test]
fn test_parse_exponentiation() {
    let ast = parse("2 ^ 3").unwrap();
    assert_eq!(ast, AstNode::BinaryOp {
        op: BinaryOperator::Power,
        left: Box::new(AstNode::Number(Numeral::from_literal("2").unwrap())),
        right: Box::new(AstNode::Number(Numeral::from_literal("3").unwrap())),
    });
}

// ================================================================
// PARSER TESTS — PRECEDENCE
// ================================================================

#[test]
fn test_precedence_mul_before_add() {
    // 2 + 3 * 4 should be 2 + (3*4), not (2+3)*4
    let ast = parse("2 + 3 * 4").unwrap();
    match ast {
        AstNode::BinaryOp { op: BinaryOperator::Add, left, right } => {
            assert_eq!(*left, AstNode::Number(Numeral::from_literal("2").unwrap()));
            assert!(matches!(*right, AstNode::BinaryOp { op: BinaryOperator::Multiply, .. }));
        }
        _ => panic!("Expected addition at top level"),
    }
}

#[test]
fn test_precedence_parens_override() {
    // (2 + 3) * 4 should group addition first
    let ast = parse("(2 + 3) * 4").unwrap();
    match ast {
        AstNode::BinaryOp { op: BinaryOperator::Multiply, left, right } => {
            assert!(matches!(*left, AstNode::BinaryOp { op: BinaryOperator::Add, .. }));
            assert_eq!(*right, AstNode::Number(Numeral::from_literal("4").unwrap()));
        }
        _ => panic!("Expected multiplication at top level"),
    }
}

#[test]
fn test_precedence_power_before_mul() {
    // 2 * 3 ^ 2 should be 2 * (3^2)
    let ast = parse("2 * 3 ^ 2").unwrap();
    match ast {
        AstNode::BinaryOp { op: BinaryOperator::Multiply, right, .. } => {
            assert!(matches!(*right, AstNode::BinaryOp { op: BinaryOperator::Power, .. }));
        }
        _ => panic!("Expected multiply at top level"),
    }
}

#[test]
fn test_left_associativity_add() {
    // 1 + 2 + 3 should be (1+2) + 3
    let ast = parse("1 + 2 + 3").unwrap();
    match ast {
        AstNode::BinaryOp { op: BinaryOperator::Add, left, right } => {
            assert!(matches!(*left, AstNode::BinaryOp { op: BinaryOperator::Add, .. }));
            assert_eq!(*right, AstNode::Number(Numeral::from_literal("3").unwrap()));
        }
        _ => panic!("Expected left-associative addition"),
    }
}

// ================================================================
// PARSER TESTS — UNARY OPERATIONS
// ================================================================

#[test]
fn test_parse_negation() {
    let ast = parse("-5").unwrap();
    assert_eq!(ast, AstNode::UnaryOp {
        op: UnaryOperator::Negate,
        operand: Box::new(AstNode::Number(Numeral::from_literal("5").unwrap())),
    });
}

#[test]
fn test_parse_absolute_value() {
    let ast = parse("|x|").unwrap();
    assert_eq!(ast, AstNode::UnaryOp {
        op: UnaryOperator::AbsoluteValue,
        operand: Box::new(AstNode::Variable("x".to_string())),
    });
}

#[test]
fn test_parse_factorial() {
    let ast = parse("5!").unwrap();
    assert_eq!(ast, AstNode::UnaryOp {
        op: UnaryOperator::Factorial,
        operand: Box::new(AstNode::Number(Numeral::from_literal("5").unwrap())),
    });
}

// ================================================================
// PARSER TESTS — FUNCTIONS
// ================================================================

#[test]
fn test_parse_function_single_arg() {
    let ast = parse("sin(x)").unwrap();
    assert_eq!(ast, AstNode::FunctionCall {
        name: "sin".to_string(),
        args: vec![AstNode::Variable("x".to_string())],
    });
}

#[test]
fn test_parse_function_multi_arg() {
    let ast = parse("gcd(12, 8)").unwrap();
    assert_eq!(ast, AstNode::FunctionCall {
        name: "gcd".to_string(),
        args: vec![AstNode::Number(Numeral::from_literal("12").unwrap()), AstNode::Number(Numeral::from_literal("8").unwrap())],
    });
}

#[test]
fn test_parse_nested_functions() {
    let ast = parse("sin(cos(x))").unwrap();
    match ast {
        AstNode::FunctionCall { name, args } => {
            assert_eq!(name, "sin");
            assert!(matches!(&args[0], AstNode::FunctionCall { name, .. } if name == "cos"));
        }
        _ => panic!("Expected nested function call"),
    }
}

#[test]
fn test_parse_sqrt() {
    let ast = parse("sqrt(9)").unwrap();
    assert_eq!(ast, AstNode::FunctionCall {
        name: "sqrt".to_string(),
        args: vec![AstNode::Number(Numeral::from_literal("9").unwrap())],
    });
}

#[test]
fn test_parse_log_two_args() {
    let ast = parse("log(2, 8)").unwrap();
    match ast {
        AstNode::FunctionCall { name, args } => {
            assert_eq!(name, "log");
            assert_eq!(args.len(), 2);
        }
        _ => panic!("Expected log function call"),
    }
}

// ================================================================
// PARSER TESTS — EQUATIONS & INEQUALITIES
// ================================================================

#[test]
fn test_parse_equation() {
    let ast = parse("2 * x + 3 = 7").unwrap();
    assert!(matches!(ast, AstNode::Equation { .. }));
}

#[test]
fn test_parse_inequality_less() {
    let ast = parse("x < 5").unwrap();
    assert!(matches!(ast, AstNode::Inequality { op: ComparisonOp::LessThan, .. }));
}

#[test]
fn test_parse_inequality_greater_equal() {
    let ast = parse("x >= 10").unwrap();
    assert!(matches!(ast, AstNode::Inequality { op: ComparisonOp::GreaterEqual, .. }));
}

// ================================================================
// PARSER TESTS — IMPLICIT MULTIPLICATION
// ================================================================

#[test]
fn test_parse_implicit_mul_number_var() {
    // 2x should be ImplicitMul(2, x)
    let ast = parse("2x").unwrap();
    assert!(matches!(ast, AstNode::ImplicitMul { .. }));
}

#[test]
fn test_parse_implicit_mul_in_expression() {
    // 2n + 2n
    let ast = parse("2n + 2n").unwrap();
    match ast {
        AstNode::BinaryOp { op: BinaryOperator::Add, left, right } => {
            assert!(matches!(*left, AstNode::ImplicitMul { .. }));
            assert!(matches!(*right, AstNode::ImplicitMul { .. }));
        }
        _ => panic!("Expected addition of implicit muls"),
    }
}

#[test]
fn test_parse_implicit_mul_with_paren() {
    // 3(x + 1) should be ImplicitMul(3, (x+1))
    let ast = parse("3(x + 1)").unwrap();
    assert!(matches!(ast, AstNode::ImplicitMul { .. }));
}

// ================================================================
// PARSER TESTS — COMPLEX EXPRESSIONS
// ================================================================

#[test]
fn test_parse_quadratic() {
    // x^2 + 5x + 6
    let ast = parse("x^2 + 5x + 6").unwrap();
    // Should parse without error; top-level is addition
    assert!(matches!(ast, AstNode::BinaryOp { op: BinaryOperator::Add, .. }));
}

#[test]
fn test_parse_nested_parens() {
    let ast = parse("((2 + 3) * (4 - 1))").unwrap();
    assert!(matches!(ast, AstNode::BinaryOp { op: BinaryOperator::Multiply, .. }));
}

#[test]
fn test_parse_multi_term_polynomial() {
    let ast = parse("3x^2 + 2x + 1").unwrap();
    assert!(!format!("{:?}", ast).is_empty()); // Parses without error
}

// ================================================================
// PARSER TESTS — ERROR HANDLING
// ================================================================

#[test]
fn test_parse_empty_string() {
    assert_eq!(parse(""), Err(ParseError::EmptyExpression));
}

#[test]
fn test_parse_whitespace_only() {
    assert_eq!(parse("   "), Err(ParseError::EmptyExpression));
}

#[test]
fn test_parse_mismatched_parens() {
    assert!(parse("(2 + 3").is_err());
}

#[test]
fn test_parse_invalid_char() {
    assert!(parse("2 @ 3").is_err());
}

// ================================================================
// CLASSIFIER TESTS
// ================================================================

#[test]
fn test_classify_single_digit_add() {
    let ast = parse("3 + 4").unwrap();
    let class = classify(&ast);
    assert_eq!(class.domain, Domain::CoreArithmetic);
    assert_eq!(class.pattern_type, PatternType::SingleDigitAddition);
    assert!(!class.has_variables);
    assert!(!class.is_equation);
}

#[test]
fn test_classify_single_digit_mul() {
    let ast = parse("6 * 7").unwrap();
    let class = classify(&ast);
    assert_eq!(class.domain, Domain::CoreArithmetic);
    assert_eq!(class.pattern_type, PatternType::SingleDigitMultiplication);
}

#[test]
fn test_classify_multi_digit_add() {
    let ast = parse("347 + 286").unwrap();
    let class = classify(&ast);
    assert_eq!(class.domain, Domain::ExtendedArithmetic);
    assert_eq!(class.pattern_type, PatternType::MultiDigitAddition);
}

#[test]
fn test_classify_multi_digit_mul() {
    let ast = parse("12 * 34").unwrap();
    let class = classify(&ast);
    assert_eq!(class.domain, Domain::ExtendedArithmetic);
    assert_eq!(class.pattern_type, PatternType::MultiDigitMultiplication);
}

#[test]
fn test_classify_exponent() {
    let ast = parse("2 ^ 10").unwrap();
    let class = classify(&ast);
    assert_eq!(class.domain, Domain::PreAlgebra);
    assert_eq!(class.pattern_type, PatternType::ExponentEvaluation);
}

#[test]
fn test_classify_fraction() {
    let ast = parse("3 / 4").unwrap();
    let class = classify(&ast);
    assert_eq!(class.domain, Domain::PreAlgebra);
}

#[test]
fn test_classify_sqrt() {
    let ast = parse("sqrt(16)").unwrap();
    let class = classify(&ast);
    assert_eq!(class.domain, Domain::PreAlgebra);
    assert_eq!(class.pattern_type, PatternType::SquareRoot);
}

#[test]
fn test_classify_gcd() {
    let ast = parse("gcd(12, 8)").unwrap();
    let class = classify(&ast);
    assert_eq!(class.domain, Domain::PreAlgebra);
    assert_eq!(class.pattern_type, PatternType::GCD);
}

#[test]
fn test_classify_like_terms() {
    let ast = parse("2n + 2n").unwrap();
    let class = classify(&ast);
    assert_eq!(class.domain, Domain::Algebra);
    assert_eq!(class.pattern_type, PatternType::LikeTermsCombination);
    assert!(class.has_variables);
    assert_eq!(class.variables, vec!["n"]);
}

#[test]
fn test_classify_linear_equation() {
    let ast = parse("2 * x + 3 = 7").unwrap();
    let class = classify(&ast);
    assert_eq!(class.domain, Domain::Algebra);
    assert_eq!(class.pattern_type, PatternType::LinearEquationSolve);
    assert!(class.is_equation);
    assert!(class.has_variables);
}

#[test]
fn test_classify_quadratic_equation() {
    let ast = parse("x^2 + 5 * x + 6 = 0").unwrap();
    let class = classify(&ast);
    assert_eq!(class.domain, Domain::Algebra);
    assert_eq!(class.pattern_type, PatternType::QuadraticEquationSolve);
    assert_eq!(class.max_variable_degree, 2);
}

#[test]
fn test_classify_inequality() {
    let ast = parse("2 * x + 1 < 7").unwrap();
    let class = classify(&ast);
    assert_eq!(class.domain, Domain::Algebra);
    assert_eq!(class.pattern_type, PatternType::LinearInequalitySolve);
    assert!(class.is_inequality);
}

#[test]
fn test_classify_sin() {
    let ast = parse("sin(x)").unwrap();
    let class = classify(&ast);
    assert_eq!(class.domain, Domain::Trigonometry);
    assert_eq!(class.pattern_type, PatternType::TrigEvaluation);
    assert_eq!(class.functions_used, vec!["sin"]);
}

#[test]
fn test_classify_log() {
    let ast = parse("log(2, 8)").unwrap();
    let class = classify(&ast);
    assert_eq!(class.domain, Domain::AdvancedAlgebra);
    assert_eq!(class.pattern_type, PatternType::Logarithm);
}

#[test]
fn test_classify_absolute_value() {
    let ast = parse("|x|").unwrap();
    let class = classify(&ast);
    assert_eq!(class.pattern_type, PatternType::AbsoluteValue);
}

#[test]
fn test_classify_has_correct_variables() {
    let ast = parse("x^2 + y + z").unwrap();
    let class = classify(&ast);
    assert_eq!(class.variables, vec!["x", "y", "z"]);
}

#[test]
fn test_classify_order_of_ops_secondary() {
    let ast = parse("2 + 3 * 4").unwrap();
    let class = classify(&ast);
    assert!(class.secondary_patterns.contains(&PatternType::OrderOfOperations));
}

#[test]
fn test_classify_commutative_secondary() {
    let ast = parse("3 + 5").unwrap();
    let class = classify(&ast);
    assert!(class.secondary_patterns.contains(&PatternType::CommutativeApplication));
}

// ================================================================
// AST DISPLAY TESTS
// ================================================================

#[test]
fn test_display_number() {
    let ast = AstNode::Number(Numeral::from_literal("42").unwrap());
    assert_eq!(ast.to_text(), "42");
}

#[test]
fn test_display_variable() {
    let ast = AstNode::Variable("x".to_string());
    assert_eq!(ast.to_text(), "x");
}

#[test]
fn test_display_binary_op() {
    let ast = parse("2 + 3").unwrap();
    assert_eq!(ast.to_text(), "(2 + 3)");
}

#[test]
fn test_display_equation() {
    let ast = parse("x = 5").unwrap();
    assert_eq!(ast.to_text(), "x = 5");
}

// ================================================================
// ROUNDTRIP TESTS — Parse then verify structure
// ================================================================

#[test]
fn test_roundtrip_simple_add() {
    let ast = parse("7 + 8").unwrap();
    let class = classify(&ast);
    assert_eq!(class.pattern_type, PatternType::SingleDigitAddition);
    assert!(!class.has_variables);
}

#[test]
fn test_roundtrip_algebraic() {
    let ast = parse("2n + 2n").unwrap();
    let class = classify(&ast);
    assert_eq!(class.pattern_type, PatternType::LikeTermsCombination);
    assert!(class.has_variables);
    assert_eq!(class.variables, vec!["n"]);
}

#[test]
fn test_roundtrip_trig() {
    let ast = parse("sin(pi / 2)").unwrap();
    let class = classify(&ast);
    assert_eq!(class.domain, Domain::Trigonometry);
    assert_eq!(class.functions_used, vec!["sin"]);
}

#[test]
fn test_roundtrip_347_plus_286() {
    let ast = parse("347 + 286").unwrap();
    let class = classify(&ast);
    assert_eq!(class.domain, Domain::ExtendedArithmetic);
    assert_eq!(class.pattern_type, PatternType::MultiDigitAddition);
}

#[test]
fn test_roundtrip_complex_expression() {
    // Should parse and classify without errors
    let expressions = [
        "2 + 3",
        "347 + 286",
        "2^10",
        "sqrt(16)",
        "sin(pi)",
        "2n + 2n",
        "x^2 + 5 * x + 6 = 0",
        "gcd(12, 8)",
        "log(2, 8)",
        "|x|",
        "3 * (x + 1)",
        "2 * x + 1 < 7",
        "5!",
        "-42",
    ];
    for expr in expressions {
        let ast = parse(expr);
        assert!(ast.is_ok(), "Failed to parse: {}", expr);
        let class = classify(&ast.unwrap());
        assert!(!format!("{:?}", class.pattern_type).is_empty(),
            "Failed to classify: {}", expr);
    }
}


// ================================================================
// NUMERALS, POSITIONS AND MESSAGES
// ================================================================

#[test]
fn test_numeral_normalizes_literals() {
    assert_eq!(Numeral::from_literal("007.50"), Numeral::from_literal("7.5"));
    assert_eq!(Numeral::from_literal("7.5").unwrap().to_text(), "7.5");
    assert_eq!(Numeral::from_literal(".5").unwrap().to_text(), "0.5");
    assert_eq!(Numeral::from_literal("5.").unwrap().to_text(), "5");
    assert_eq!(Numeral::from_literal("000").unwrap().to_text(), "0");
    assert!(Numeral::from_literal("1.2.3").is_none());
    assert!(Numeral::from_literal(".").is_none());
    assert!(Numeral::from_literal("1a").is_none());
    assert_eq!(Numeral::pi().to_text(), "3.141592653589793");
    assert_eq!(Numeral::e().to_text(), "2.718281828459045");
}

#[test]
fn test_numeral_digit_queries() {
    assert!(Numeral::from_literal("9").unwrap().is_single_digit());
    assert!(!Numeral::from_literal("10").unwrap().is_single_digit());
    assert!(!Numeral::from_literal("2.5").unwrap().is_single_digit());
    assert_eq!(Numeral::from_literal("2.7").unwrap().truncate_u32(), 2);
    assert_eq!(Numeral::from_literal("99999999999").unwrap().truncate_u32(), u32::MAX);
}

#[test]
fn test_tokenize_second_point_starts_new_number() {
    let tokens = tokenize("3.14.5").unwrap();
    assert_eq!(tokens[0], Token::Number(Numeral::from_literal("3.14").unwrap()));
    assert_eq!(tokens[1], Token::Number(Numeral::from_literal("0.5").unwrap()));
    assert_eq!(tokens[2], Token::Eof);
}

#[test]
fn test_tokenize_constants_and_case() {
    let tokens = tokenize("PI E Sin x").unwrap();
    assert_eq!(tokens[0], Token::Number(Numeral::pi()));
    assert_eq!(tokens[1], Token::Number(Numeral::e()));
    assert_eq!(tokens[2], Token::Function("sin".to_string()));
    assert_eq!(tokens[3], Token::Variable("x".to_string()));
}

#[test]
fn test_error_positions_and_messages() {
    assert_eq!(tokenize("2 @ 3"), Err(ParseError::UnexpectedCharacter('@', 2)));
    assert_eq!(parse("   @"), Err(ParseError::UnexpectedCharacter('@', 0)));
    assert_eq!(parse("(2 + 3"), Err(ParseError::UnexpectedToken("expected ), got EOF".to_string())));
    assert_eq!(parse("sin 2"), Err(ParseError::UnexpectedToken("expected (, got 2".to_string())));
    assert_eq!(parse("2 +"), Err(ParseError::UnexpectedEof));
    assert_eq!(parse(")"), Err(ParseError::UnexpectedToken(")".to_string())));
}

#[test]
fn test_display_forms() {
    assert_eq!(parse("-5").unwrap().to_text(), "(-5)");
    assert_eq!(parse("5!").unwrap().to_text(), "5!");
    assert_eq!(parse("|x|").unwrap().to_text(), "|x|");
    assert_eq!(parse("gcd(12, 8)").unwrap().to_text(), "gcd(12, 8)");
    assert_eq!(parse("x <= 5").unwrap().to_text(), "x <= 5");
    assert_eq!(parse("2x").unwrap().to_text(), "2x");
    assert_eq!(parse("15%").unwrap().to_text(), "(15 / 100)");
    assert_eq!(parse("2 ^ 3 ^ 2").unwrap().to_text(), "(2 ^ (3 ^ 2))");
}

#[test]
fn test_classify_degree_truncates() {
    let class = classify(&parse("x^2.7 = 1").unwrap());
    assert_eq!(class.max_variable_degree, 2);
    assert_eq!(class.pattern_type, PatternType::QuadraticEquationSolve);
}

#[test]
fn test_classify_fraction_patterns() {
    assert_eq!(classify(&parse("1/2 + 1/3").unwrap()).pattern_type, PatternType::FractionAddition);
    assert_eq!(classify(&parse("3 / 4").unwrap()).pattern_type, PatternType::FractionSimplification);
    assert_eq!(classify(&parse("1/2 * 3").unwrap()).pattern_type, PatternType::FractionMultiplication);
}

#[test]
fn test_classify_inverse_trig_and_secondaries() {
    let class = classify(&parse("asin(x)").unwrap());
    assert_eq!(class.pattern_type, PatternType::InverseTrig);
    let class = classify(&parse("2 * (x + 1)").unwrap());
    assert!(class.secondary_patterns.contains(&PatternType::DistributiveExpansion));
    assert_eq!(class.functions_used, Vec::<String>::new());
}

#[test]
fn test_classify_sorted_unique_names() {
    let class = classify(&parse("z + y + x + y").unwrap());
    assert_eq!(class.variables, vec!["x", "y", "z"]);
    let class = classify(&parse("sqrt(cos(x)) + abs(sqrt(2))").unwrap());
    assert_eq!(class.functions_used, vec!["abs", "cos", "sqrt"]);
}

#[test]
fn test_operator_and_error_text() {
    assert_eq!(BinaryOperator::Add.to_text(), "+");
    assert_eq!(BinaryOperator::Modulo.to_text(), "mod");
    assert_eq!(BinaryOperator::Power.to_text(), "^");
    assert_eq!(ParseError::UnexpectedCharacter('@', 12).to_text(), "Unexpected character '@' at position 12");
    assert_eq!(ParseError::InvalidNumber("1.2.3".to_string()).to_text(), "Invalid number: 1.2.3");
    assert_eq!(ParseError::UnexpectedEof.to_text(), "Unexpected end of input");
    assert_eq!(ParseError::EmptyExpression.to_text(), "Empty expression");
    assert_eq!(
        ParseError::InvalidFunctionArgs("sin".to_string()).to_text(),
        "Invalid function arguments: sin"
    );
    // `%` is a percent sign: it divides by 100.
    assert_eq!(parse("(2 + 3) %").unwrap().to_text(), "((2 + 3) / 100)");
    let modulo = AstNode::BinaryOp {
        op: BinaryOperator::Modulo,
        left: Box::new(AstNode::Number(Numeral::from_literal("7").unwrap())),
        right: Box::new(AstNode::Number(Numeral::from_literal("4").unwrap())),
    };
    assert_eq!(modulo.to_text(), "(7 mod 4)");
}
