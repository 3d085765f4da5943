use numera::pattern_engine::{classify, parse, AstNode, Numeral};
use numera::retrieval::{RetrievalEngine, RetrievalQuery, RuleChain};
use numera::rule_library::{Domain, PatternType};

fn engine() -> RetrievalEngine {
    RetrievalEngine::default_library()
}

// ================================================================
// BASIC RETRIEVAL: TIER 0
// ================================================================

#[test]
fn test_retrieve_single_digit_addition() {
    let eng = engine();
    let result = eng.retrieve_for_pattern(&PatternType::SingleDigitAddition);
    assert!(result.is_some(), "Should retrieve rule for single-digit addition");
    let r = result.unwrap();
    assert!(r.validated);
    assert_eq!(r.tier, 0);
    assert_eq!(r.domain, Domain::CoreArithmetic);
}

#[test]
fn test_retrieve_single_digit_subtraction() {
    let eng = engine();
    let result = eng.retrieve_for_pattern(&PatternType::SingleDigitSubtraction);
    assert!(result.is_some());
    assert!(result.unwrap().validated);
}

#[test]
fn test_retrieve_single_digit_multiplication() {
    let eng = engine();
    let result = eng.retrieve_for_pattern(&PatternType::SingleDigitMultiplication);
    assert!(result.is_some());
    assert!(result.unwrap().validated);
}

#[test]
fn test_retrieve_single_digit_division() {
    let eng = engine();
    let result = eng.retrieve_for_pattern(&PatternType::SingleDigitDivision);
    assert!(result.is_some());
    assert!(result.unwrap().validated);
}

#[test]
fn retrieval_test_tier0_no_prerequisites() {
    let eng = engine();
    let tier0_patterns = [
        PatternType::SingleDigitAddition,
        PatternType::SingleDigitSubtraction,
        PatternType::SingleDigitMultiplication,
        PatternType::SingleDigitDivision,
    ];
    for pat in tier0_patterns {
        let result = eng.retrieve_for_pattern(&pat).unwrap();
        assert_eq!(result.tier, 0);
    }
}

// ================================================================
// TIER 1: EXTENDED ARITHMETIC
// ================================================================

#[test]
fn test_retrieve_multi_digit_addition() {
    let eng = engine();
    let result = eng.retrieve_for_pattern(&PatternType::MultiDigitAddition);
    assert!(result.is_some());
    let r = result.unwrap();
    assert!(r.validated);
    assert_eq!(r.tier, 1);
}

#[test]
fn test_retrieve_multi_digit_multiplication() {
    let eng = engine();
    let result = eng.retrieve_for_pattern(&PatternType::MultiDigitMultiplication);
    assert!(result.is_some());
    assert!(result.unwrap().validated);
}

#[test]
fn test_tier1_has_prerequisites() {
    let eng = engine();
    let result = eng.retrieve_for_pattern(&PatternType::MultiDigitAddition).unwrap();
    // Chain should have more than just the primary rule
    assert!(result.total_rules() >= 1);
}

// ================================================================
// HIGHER TIER RETRIEVAL
// ================================================================

#[test]
fn test_retrieve_fraction_addition() {
    let eng = engine();
    let result = eng.retrieve_for_pattern(&PatternType::FractionAddition);
    assert!(result.is_some());
    let r = result.unwrap();
    assert!(r.validated);
    assert_eq!(r.tier, 3);
}

#[test]
fn test_retrieve_linear_equation() {
    let eng = engine();
    let result = eng.retrieve_for_pattern(&PatternType::LinearEquationSolve);
    assert!(result.is_some());
    assert!(result.unwrap().validated);
}

#[test]
fn test_retrieve_quadratic_formula() {
    let eng = engine();
    let result = eng.retrieve_for_pattern(&PatternType::QuadraticEquationSolve);
    assert!(result.is_some());
    assert!(result.unwrap().validated);
}

#[test]
fn test_retrieve_derivative_power_rule() {
    let eng = engine();
    let result = eng.retrieve_for_pattern(&PatternType::DerivativeBasic);
    assert!(result.is_some());
    let r = result.unwrap();
    assert!(r.validated);
    assert_eq!(r.tier, 7);
}

#[test]
fn test_retrieve_matrix_multiplication() {
    let eng = engine();
    let result = eng.retrieve_for_pattern(&PatternType::MatrixMultiplication);
    assert!(result.is_some());
    assert!(result.unwrap().validated);
}

#[test]
fn test_retrieve_vector_dot_product() {
    let eng = engine();
    let result = eng.retrieve_for_pattern(&PatternType::VectorDotProduct);
    assert!(result.is_some());
    assert!(result.unwrap().validated);
}

#[test]
fn test_retrieve_modular_arithmetic() {
    let eng = engine();
    let result = eng.retrieve_for_pattern(&PatternType::ModularArithmetic);
    assert!(result.is_some());
    assert!(result.unwrap().validated);
}

// ================================================================
// EXHAUSTIVE: ALL PATTERN TYPES RETRIEVABLE
// ================================================================

#[test]
fn test_all_pattern_types_retrievable() {
    let eng = engine();
    let all_patterns = [
        PatternType::SingleDigitAddition,
        PatternType::SingleDigitSubtraction,
        PatternType::SingleDigitMultiplication,
        PatternType::SingleDigitDivision,
        PatternType::MultiDigitAddition,
        PatternType::MultiDigitSubtraction,
        PatternType::MultiDigitMultiplication,
        PatternType::MultiDigitDivision,
        PatternType::OrderOfOperations,
        PatternType::PlaceValueDecomposition,
        PatternType::PlaceValueComposition,
        PatternType::CommutativeApplication,
        PatternType::AssociativeApplication,
        PatternType::DistributiveExpansion,
        PatternType::DistributiveFactoring,
        PatternType::IdentityApplication,
        PatternType::InverseApplication,
        PatternType::FractionAddition,
        PatternType::FractionSubtraction,
        PatternType::FractionMultiplication,
        PatternType::FractionDivision,
        PatternType::FractionSimplification,
        PatternType::DecimalConversion,
        PatternType::PercentageCalculation,
        PatternType::ExponentEvaluation,
        PatternType::ExponentRules,
        PatternType::SquareRoot,
        PatternType::NthRoot,
        PatternType::AbsoluteValue,
        PatternType::Ratio,
        PatternType::ScientificNotation,
        PatternType::GCD,
        PatternType::LCM,
        PatternType::VariableSubstitution,
        PatternType::LikeTermsCombination,
        PatternType::LinearEquationSolve,
        PatternType::QuadraticEquationSolve,
        PatternType::LinearInequalitySolve,
        PatternType::PolynomialAddition,
        PatternType::PolynomialMultiplication,
        PatternType::PolynomialDivision,
        PatternType::Factoring,
        PatternType::FunctionEvaluation,
        PatternType::FunctionComposition,
        PatternType::SlopeIntercept,
        PatternType::PointSlope,
        PatternType::SystemOfEquations,
        PatternType::MatrixAddition,
        PatternType::MatrixMultiplication,
        PatternType::MatrixDeterminant,
        PatternType::MatrixInverse,
        PatternType::MatrixTranspose,
        PatternType::ComplexAddition,
        PatternType::ComplexMultiplication,
        PatternType::ComplexConjugate,
        PatternType::ComplexModulus,
        PatternType::ArithmeticSequence,
        PatternType::GeometricSequence,
        PatternType::SeriesSum,
        PatternType::Logarithm,
        PatternType::LogarithmRules,
        PatternType::ExponentialEquation,
        PatternType::TrigEvaluation,
        PatternType::InverseTrig,
        PatternType::TrigIdentity,
        PatternType::PolarRectangularConversion,
        PatternType::LawOfSines,
        PatternType::LawOfCosines,
        PatternType::UnitCircleLookup,
        PatternType::LimitEvaluation,
        PatternType::DerivativeBasic,
        PatternType::DerivativeChainRule,
        PatternType::DerivativeProductRule,
        PatternType::DerivativeQuotientRule,
        PatternType::IntegralBasic,
        PatternType::IntegralBySubstitution,
        PatternType::DefiniteIntegral,
        PatternType::TaylorSeries,
        PatternType::DifferentialEquation,
        PatternType::VectorAddition,
        PatternType::VectorDotProduct,
        PatternType::VectorCrossProduct,
        PatternType::VectorNorm,
        PatternType::Eigenvalue,
        PatternType::MatrixDecomposition,
        PatternType::LinearTransformation,
        PatternType::GramSchmidt,
        PatternType::VectorProjection,
        PatternType::ModularArithmetic,
        PatternType::PrimeFactorization,
        PatternType::Permutation,
        PatternType::Combination,
        PatternType::ProbabilityBasic,
        PatternType::ProbabilityConditional,
        PatternType::BayesTheorem,
        PatternType::ExpectedValue,
        PatternType::StandardDeviation,
        PatternType::Variance,
        PatternType::Optimization,
    ];

    let mut failures = Vec::new();
    for pat in &all_patterns {
        if eng.retrieve_for_pattern(pat).is_none() {
            failures.push(format!("{:?}", pat));
        }
    }
    assert!(failures.is_empty(),
        "Failed to retrieve rules for {} patterns: {:?}", failures.len(), failures);
}

// ================================================================
// ALL CHAINS VALIDATED
// ================================================================

#[test]
fn test_all_retrieved_chains_validated() {
    let eng = engine();
    let sample = [
        PatternType::SingleDigitAddition,
        PatternType::MultiDigitMultiplication,
        PatternType::FractionAddition,
        PatternType::QuadraticEquationSolve,
        PatternType::DerivativeChainRule,
        PatternType::Eigenvalue,
        PatternType::BayesTheorem,
        PatternType::Optimization,
    ];
    for pat in sample {
        let result = eng.retrieve_for_pattern(&pat).unwrap();
        assert!(result.validated, "Chain for {:?} should be validated", pat);
    }
}

// ================================================================
// CHAIN ORDERING
// ================================================================

#[test]
fn test_no_duplicate_rules_in_chain() {
    let eng = engine();
    let result = eng.retrieve_for_pattern(&PatternType::QuadraticEquationSolve).unwrap();
    let ids = result.chain.rule_ids();
    let mut seen = Vec::new();
    for id in &ids {
        assert!(!seen.contains(id), "Duplicate rule {} in chain", id);
        seen.push(id.clone());
    }
}

#[test]
fn test_primary_rule_present_in_chain() {
    let eng = engine();
    let patterns = [
        PatternType::SingleDigitAddition,
        PatternType::MultiDigitAddition,
        PatternType::FractionAddition,
        PatternType::LinearEquationSolve,
        PatternType::DerivativeBasic,
    ];
    for pat in patterns {
        let result = eng.retrieve_for_pattern(&pat).unwrap();
        let ids = result.chain.rule_ids();
        assert!(ids.contains(&result.primary_rule_id),
            "Primary rule {} not found in chain for {:?}", result.primary_rule_id, pat);
    }
}

// ================================================================
// CHAIN DEPTH
// ================================================================

#[test]
fn test_tier0_chain_minimal() {
    let eng = engine();
    let result = eng.retrieve_for_pattern(&PatternType::SingleDigitAddition).unwrap();
    // Tier 0 chains should be very small
    assert!(result.total_rules() <= 2);
}

#[test]
fn test_higher_tiers_deeper_chains() {
    let eng = engine();
    let t0 = eng.retrieve_for_pattern(&PatternType::SingleDigitAddition).unwrap();
    let t7 = eng.retrieve_for_pattern(&PatternType::DerivativeChainRule).unwrap();
    assert!(t7.total_rules() >= t0.total_rules(),
        "Tier 7 chain should be at least as deep as tier 0");
}

// ================================================================
// DOMAIN CONSISTENCY
// ================================================================

#[test]
fn test_retrieved_domain_matches() {
    let eng = engine();
    let cases: Vec<(PatternType, Domain)> = vec![
        (PatternType::SingleDigitAddition, Domain::CoreArithmetic),
        (PatternType::MultiDigitAddition, Domain::ExtendedArithmetic),
        (PatternType::FractionAddition, Domain::PreAlgebra),
        (PatternType::LinearEquationSolve, Domain::Algebra),
        (PatternType::MatrixMultiplication, Domain::AdvancedAlgebra),
        (PatternType::TrigEvaluation, Domain::Trigonometry),
        (PatternType::DerivativeBasic, Domain::Calculus),
        (PatternType::VectorDotProduct, Domain::LinearAlgebra),
        (PatternType::ModularArithmetic, Domain::AbstractApplied),
    ];
    for (pattern, expected_domain) in cases {
        let result = eng.retrieve_for_pattern(&pattern).unwrap();
        assert_eq!(result.domain, expected_domain,
            "Pattern {:?} should be domain {:?}", pattern, expected_domain);
    }
}

// ================================================================
// TIER ANALYSIS
// ================================================================

#[test]
fn test_solvable_at_tier() {
    let eng = engine();
    assert!(eng.solvable_at_tier(&PatternType::SingleDigitAddition, 0));
    assert!(eng.solvable_at_tier(&PatternType::SingleDigitAddition, 9));
    assert!(eng.solvable_at_tier(&PatternType::MultiDigitAddition, 1));
}

#[test]
fn test_minimum_tier() {
    let eng = engine();
    assert_eq!(eng.minimum_tier(&PatternType::SingleDigitAddition), Some(0));
}

#[test]
fn test_minimum_tier_increases() {
    let eng = engine();
    let t0 = eng.minimum_tier(&PatternType::SingleDigitAddition).unwrap();
    let t3 = eng.minimum_tier(&PatternType::FractionAddition).unwrap();
    assert!(t3 >= t0);
}

// ================================================================
// DEPENDENCY GRAPH
// ================================================================

#[test]
fn test_dependency_graph_tier0_minimal() {
    let eng = engine();
    let rule = eng.find_best_rule(&PatternType::SingleDigitAddition).unwrap();
    let graph = eng.dependency_graph(&rule.id);
    // Tier 0 should have no or minimal dependencies
    assert!(graph.len() <= 1);
}

// ================================================================
// BATCH RETRIEVAL
// ================================================================

#[test]
fn test_batch_retrieval() {
    let eng = engine();
    let patterns = vec![
        PatternType::SingleDigitAddition,
        PatternType::MultiDigitMultiplication,
        PatternType::FractionAddition,
    ];
    let results = eng.retrieve_batch(&patterns);
    assert_eq!(results.len(), 3);
    assert!(results.iter().all(|r| r.is_some()));
}

#[test]
fn test_batch_with_custom_pattern() {
    let eng = engine();
    let patterns = vec![
        PatternType::SingleDigitAddition,
        PatternType::Custom("nonexistent".to_string()),
    ];
    let results = eng.retrieve_batch(&patterns);
    assert_eq!(results.len(), 2);
    assert!(results[0].is_some());
    assert!(results[1].is_none());
}

// ================================================================
// FULL PIPELINE: Parse → Classify → Retrieve
// ================================================================

#[test]
fn test_pipeline_simple_addition() {
    let eng = engine();
    let ast = parse("3 + 5").unwrap();
    let classification = classify(&ast);
    let result = eng.retrieve_from_classification(&classification, &ast);
    assert!(result.is_some());
    let r = result.unwrap();
    assert!(r.validated);
    assert_eq!(r.domain, Domain::CoreArithmetic);
}

#[test]
fn test_pipeline_multi_digit() {
    let eng = engine();
    let ast = parse("347 + 286").unwrap();
    let classification = classify(&ast);
    let result = eng.retrieve_from_classification(&classification, &ast);
    assert!(result.is_some());
    assert!(result.unwrap().validated);
}

#[test]
fn test_pipeline_multiplication() {
    let eng = engine();
    let ast = parse("12 * 34").unwrap();
    let classification = classify(&ast);
    let result = eng.retrieve_from_classification(&classification, &ast);
    assert!(result.is_some());
    assert!(result.unwrap().validated);
}

#[test]
fn test_pipeline_exponent() {
    let eng = engine();
    let ast = parse("2 ^ 8").unwrap();
    let classification = classify(&ast);
    let result = eng.retrieve_from_classification(&classification, &ast);
    assert!(result.is_some());
    assert!(result.unwrap().validated);
}

#[test]
fn test_pipeline_sqrt() {
    let eng = engine();
    let ast = parse("sqrt(16)").unwrap();
    let classification = classify(&ast);
    let result = eng.retrieve_from_classification(&classification, &ast);
    assert!(result.is_some());
    assert!(result.unwrap().validated);
}

#[test]
fn test_pipeline_equation() {
    let eng = engine();
    let ast = parse("2 * x + 3 = 7").unwrap();
    let classification = classify(&ast);
    let result = eng.retrieve_from_classification(&classification, &ast);
    assert!(result.is_some());
    assert!(result.unwrap().validated);
}

#[test]
fn test_pipeline_trig() {
    let eng = engine();
    let ast = parse("sin(x)").unwrap();
    let classification = classify(&ast);
    let result = eng.retrieve_from_classification(&classification, &ast);
    assert!(result.is_some());
    assert!(result.unwrap().validated);
}

#[test]
fn test_pipeline_log() {
    let eng = engine();
    let ast = parse("log(100)").unwrap();
    let classification = classify(&ast);
    let result = eng.retrieve_from_classification(&classification, &ast);
    assert!(result.is_some());
    assert!(result.unwrap().validated);
}

// ================================================================
// QUERY CONSTRUCTION
// ================================================================

#[test]
fn test_query_from_classification() {
    let ast = parse("3 + 5").unwrap();
    let classification = classify(&ast);
    let q = RetrievalQuery::from_classification(&classification, &ast);
    assert_eq!(q.primary_pattern, classification.pattern_type);
    assert_eq!(q.domain, classification.domain);
    assert!(q.resolve_prerequisites);
}

// ================================================================
// RESULT STRUCTURE
// ================================================================

#[test]
fn test_result_not_empty() {
    let eng = engine();
    let result = eng.retrieve_for_pattern(&PatternType::SingleDigitAddition).unwrap();
    assert!(!result.is_empty());
    assert!(result.total_rules() >= 1);
}

// ================================================================
// SECONDARY PATTERN INTEGRATION
// ================================================================

#[test]
fn test_secondary_patterns_in_chain() {
    let eng = engine();
    let rule = eng.find_best_rule(&PatternType::MultiDigitAddition).unwrap();
    let query = RetrievalQuery {
        primary_pattern: PatternType::MultiDigitAddition,
        secondary_patterns: vec![PatternType::CommutativeApplication],
        domain: rule.domain,
        ast: AstNode::Number(Numeral::zero()),
        resolve_prerequisites: true,
    };
    let result = eng.retrieve(&query).unwrap();
    let ids = result.chain.rule_ids();
    // Should contain the primary rule
    assert!(ids.contains(&result.primary_rule_id));
}

// ================================================================
// NO-PREREQUISITE MODE
// ================================================================

#[test]
fn test_no_prerequisite_resolution() {
    let eng = engine();
    let rule = eng.find_best_rule(&PatternType::MultiDigitAddition).unwrap();
    let mut query = RetrievalQuery::simple(PatternType::MultiDigitAddition, rule.domain);
    query.resolve_prerequisites = false;
    let result = eng.retrieve(&query).unwrap();
    assert!(result.prerequisite_ids.is_empty());
}

// ================================================================
// RULE CHAIN VALIDATION
// ================================================================

#[test]
fn test_empty_chain_validates() {
    let chain = RuleChain::new();
    assert!(chain.validate());
}

#[test]
fn test_chain_rule_ids() {
    let eng = engine();
    let result = eng.retrieve_for_pattern(&PatternType::SingleDigitAddition).unwrap();
    let ids = result.chain.rule_ids();
    assert!(!ids.is_empty());
}


// ================================================================
// FURTHER RETRIEVAL FACTS
// ================================================================

#[test]
fn test_chain_missing_prerequisite_fails_validation() {
    let eng = engine();
    let mut chain = RuleChain::new();
    chain.push(eng.library().get("ext.mul").unwrap().copy());
    assert!(!chain.validate());
    let mut ok = RuleChain::new();
    ok.push(eng.library().get("core.add").unwrap().copy());
    ok.push(eng.library().get("ext.add").unwrap().copy());
    assert!(ok.validate());
}

#[test]
fn test_dependency_graph_order() {
    let eng = engine();
    let graph = eng.dependency_graph("ext.add");
    assert_eq!(graph.last().map(|s| s.as_str()), Some("ext.add"));
    assert!(graph.contains(&"core.add".to_string()));
    assert!(eng.dependency_graph("no.such.rule").is_empty());
}

#[test]
fn test_minimum_tier_of_unknown_pattern() {
    let eng = engine();
    assert_eq!(eng.minimum_tier(&PatternType::Custom("nonexistent".to_string())), None);
    assert!(!eng.solvable_at_tier(&PatternType::Custom("nonexistent".to_string()), 9));
    assert!(!eng.solvable_at_tier(&PatternType::FractionAddition, 2));
}

#[test]
fn test_chain_core_prerequisites_need_not_appear() {
    let eng = engine();
    // ext.add depends only on core.add, which counts as always available.
    let mut chain = RuleChain::new();
    chain.push(eng.library().get("ext.add").unwrap().copy());
    assert!(chain.validate());
    // ext.sub depends on core.sub and core.add: still valid on its own.
    let mut chain2 = RuleChain::new();
    chain2.push(eng.library().get("ext.sub").unwrap().copy());
    assert!(chain2.validate());
}

#[test]
fn test_prerequisite_ids_exclude_primary() {
    let eng = engine();
    let result = eng.retrieve_for_pattern(&PatternType::MultiDigitAddition).unwrap();
    assert_eq!(result.primary_rule_id, "ext.add");
    assert_eq!(result.prerequisite_ids, vec!["core.add".to_string()]);
    assert_eq!(result.chain.rule_ids(), eng.dependency_graph("ext.add"));
}
