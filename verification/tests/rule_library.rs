use numera::rule_library::{Domain, Operation, PatternType, Property, Rule, RuleLibrary};


// ================================================================
// LIBRARY CONSTRUCTION TESTS
// ================================================================

#[test]
fn test_library_creates_successfully() {
    let lib = RuleLibrary::new();
    assert!(lib.count() > 0, "Library should contain rules");
}

#[test]
fn test_library_total_count() {
    let lib = RuleLibrary::new();
    // We expect rules across all 10 tiers
    let count = lib.count();
    assert!(count >= 90, "Expected at least 90 rules, got {}", count);
}

// ================================================================
// TIER 0: CORE ARITHMETIC
// ================================================================

#[test]
fn test_tier0_rules_exist() {
    let lib = RuleLibrary::new();
    assert!(lib.get("core.add").is_some());
    assert!(lib.get("core.sub").is_some());
    assert!(lib.get("core.mul").is_some());
    assert!(lib.get("core.div").is_some());
}

#[test]
fn test_tier0_count() {
    let lib = RuleLibrary::new();
    assert_eq!(lib.count_domain(Domain::CoreArithmetic), 4);
}

#[test]
fn rule_library_test_tier0_no_prerequisites() {
    let lib = RuleLibrary::new();
    for rule in lib.retrieve_by_tier(0) {
        assert!(rule.prerequisites.is_empty(),
            "Tier 0 rule '{}' should have no prerequisites", rule.id);
    }
}

#[test]
fn test_tier0_properties() {
    let lib = RuleLibrary::new();
    let add = lib.get("core.add").unwrap();
    assert!(add.properties.contains(&Property::Commutative));
    assert!(add.properties.contains(&Property::Associative));
    assert!(add.properties.contains(&Property::HasIdentity));

    let mul = lib.get("core.mul").unwrap();
    assert!(mul.properties.contains(&Property::Commutative));

    let sub = lib.get("core.sub").unwrap();
    assert!(!sub.properties.contains(&Property::Commutative), "Subtraction is NOT commutative");
}

#[test]
fn test_tier0_inverses() {
    let lib = RuleLibrary::new();
    assert_eq!(lib.get("core.add").unwrap().inverse.as_deref(), Some("core.sub"));
    assert_eq!(lib.get("core.sub").unwrap().inverse.as_deref(), Some("core.add"));
    assert_eq!(lib.get("core.mul").unwrap().inverse.as_deref(), Some("core.div"));
    assert_eq!(lib.get("core.div").unwrap().inverse.as_deref(), Some("core.mul"));
}

#[test]
fn test_tier0_pattern_retrieval() {
    let lib = RuleLibrary::new();
    let rules = lib.retrieve_by_pattern(&PatternType::SingleDigitAddition);
    assert_eq!(rules.len(), 1);
    assert_eq!(rules[0].id, "core.add");
}

// ================================================================
// TIER 1: EXTENDED ARITHMETIC
// ================================================================

#[test]
fn test_tier1_rules_exist() {
    let lib = RuleLibrary::new();
    assert!(lib.get("ext.add").is_some());
    assert!(lib.get("ext.sub").is_some());
    assert!(lib.get("ext.mul").is_some());
    assert!(lib.get("ext.div").is_some());
    assert!(lib.get("ext.decompose").is_some());
    assert!(lib.get("ext.compose").is_some());
    assert!(lib.get("ext.order_of_ops").is_some());
}

#[test]
fn test_tier1_count() {
    let lib = RuleLibrary::new();
    assert_eq!(lib.count_domain(Domain::ExtendedArithmetic), 7);
}

#[test]
fn test_tier1_prerequisites_reference_tier0() {
    let lib = RuleLibrary::new();
    let ext_add = lib.get("ext.add").unwrap();
    assert!(ext_add.prerequisites.contains(&"core.add".to_string()));

    let ext_mul = lib.get("ext.mul").unwrap();
    assert!(ext_mul.prerequisites.contains(&"core.mul".to_string()));
    assert!(ext_mul.prerequisites.contains(&"ext.add".to_string()));
}

// ================================================================
// TIER 2: PROPERTIES
// ================================================================

#[test]
fn test_tier2_rules_exist() {
    let lib = RuleLibrary::new();
    assert!(lib.get("prop.commutative").is_some());
    assert!(lib.get("prop.associative").is_some());
    assert!(lib.get("prop.distributive").is_some());
    assert!(lib.get("prop.factor").is_some());
    assert!(lib.get("prop.identity").is_some());
    assert!(lib.get("prop.inverse").is_some());
}

#[test]
fn test_tier2_count() {
    let lib = RuleLibrary::new();
    assert_eq!(lib.count_domain(Domain::Properties), 6);
}

#[test]
fn test_distributive_inverse() {
    let lib = RuleLibrary::new();
    assert_eq!(lib.get("prop.distributive").unwrap().inverse.as_deref(), Some("prop.factor"));
    assert_eq!(lib.get("prop.factor").unwrap().inverse.as_deref(), Some("prop.distributive"));
}

// ================================================================
// TIER 3: PRE-ALGEBRA
// ================================================================

#[test]
fn test_tier3_rules_exist() {
    let lib = RuleLibrary::new();
    let expected = vec![
        "pre.gcd", "pre.lcm", "pre.prime_factor", "pre.frac_simplify",
        "pre.frac_add", "pre.frac_sub", "pre.frac_mul", "pre.frac_div",
        "pre.decimal", "pre.percent", "pre.exponent", "pre.exponent_rules",
        "pre.sqrt", "pre.nth_root", "pre.abs", "pre.sci_notation",
        "pre.ratio", "pre.proportion",
    ];
    for id in expected {
        assert!(lib.get(id).is_some(), "Rule '{}' should exist", id);
    }
}

#[test]
fn test_tier3_count() {
    let lib = RuleLibrary::new();
    assert_eq!(lib.count_domain(Domain::PreAlgebra), 18);
}

#[test]
fn test_fraction_operations_have_prerequisites() {
    let lib = RuleLibrary::new();
    let frac_add = lib.get("pre.frac_add").unwrap();
    assert!(!frac_add.prerequisites.is_empty());
    assert!(frac_add.prerequisites.contains(&"pre.frac_simplify".to_string()));
}

// ================================================================
// TIER 4: ALGEBRA
// ================================================================

#[test]
fn test_tier4_rules_exist() {
    let lib = RuleLibrary::new();
    let expected = vec![
        "alg.substitute", "alg.like_terms", "alg.linear_solve",
        "alg.linear_inequality", "alg.quadratic_solve", "alg.poly_add",
        "alg.poly_mul", "alg.poly_div", "alg.factor", "alg.func_eval",
        "alg.func_compose", "alg.slope", "alg.domain_range",
    ];
    for id in expected {
        assert!(lib.get(id).is_some(), "Rule '{}' should exist", id);
    }
}

#[test]
fn test_tier4_count() {
    let lib = RuleLibrary::new();
    assert_eq!(lib.count_domain(Domain::Algebra), 13);
}

#[test]
fn test_like_terms_prerequisites() {
    let lib = RuleLibrary::new();
    let rule = lib.get("alg.like_terms").unwrap();
    assert!(rule.prerequisites.contains(&"ext.add".to_string()));
    assert!(rule.prerequisites.contains(&"prop.distributive".to_string()));
}

// ================================================================
// TIER 5: ADVANCED ALGEBRA
// ================================================================

#[test]
fn test_tier5_rules_exist() {
    let lib = RuleLibrary::new();
    let expected = vec![
        "adv.system_solve", "adv.mat_add", "adv.mat_mul", "adv.mat_det",
        "adv.mat_inv", "adv.complex_add", "adv.complex_mul", "adv.complex_conj",
        "adv.complex_mod", "adv.arith_seq", "adv.geom_seq", "adv.series",
        "adv.log", "adv.log_rules", "adv.exp_equation",
    ];
    for id in expected {
        assert!(lib.get(id).is_some(), "Rule '{}' should exist", id);
    }
}

#[test]
fn test_tier5_count() {
    let lib = RuleLibrary::new();
    assert_eq!(lib.count_domain(Domain::AdvancedAlgebra), 15);
}

#[test]
fn test_matrix_multiplication_not_commutative() {
    let lib = RuleLibrary::new();
    let mat_mul = lib.get("adv.mat_mul").unwrap();
    assert!(!mat_mul.properties.contains(&Property::Commutative),
        "Matrix multiplication is NOT commutative");
    assert!(mat_mul.properties.contains(&Property::Associative));
}

// ================================================================
// TIER 6: TRIGONOMETRY
// ================================================================

#[test]
fn test_tier6_rules_exist() {
    let lib = RuleLibrary::new();
    let expected = vec![
        "trig.eval", "trig.identity", "trig.inverse", "trig.unit_circle",
        "trig.law_sines", "trig.law_cosines", "trig.solve_eq", "trig.polar_rect",
    ];
    for id in expected {
        assert!(lib.get(id).is_some(), "Rule '{}' should exist", id);
    }
}

#[test]
fn test_tier6_count() {
    let lib = RuleLibrary::new();
    assert_eq!(lib.count_domain(Domain::Trigonometry), 8);
}

// ================================================================
// TIER 7: CALCULUS
// ================================================================

#[test]
fn test_tier7_rules_exist() {
    let lib = RuleLibrary::new();
    let expected = vec![
        "calc.limit", "calc.deriv_basic", "calc.deriv_chain", "calc.deriv_product",
        "calc.deriv_quotient", "calc.integral_basic", "calc.integral_usub",
        "calc.integral_parts", "calc.definite_integral", "calc.series_conv",
        "calc.taylor", "calc.diff_eq", "calc.partial_deriv", "calc.multi_integral",
    ];
    for id in expected {
        assert!(lib.get(id).is_some(), "Rule '{}' should exist", id);
    }
}

#[test]
fn test_tier7_count() {
    let lib = RuleLibrary::new();
    assert_eq!(lib.count_domain(Domain::Calculus), 14);
}

#[test]
fn test_derivative_integral_inverse() {
    let lib = RuleLibrary::new();
    assert_eq!(lib.get("calc.deriv_basic").unwrap().inverse.as_deref(), Some("calc.integral_basic"));
    assert_eq!(lib.get("calc.integral_basic").unwrap().inverse.as_deref(), Some("calc.deriv_basic"));
}

// ================================================================
// TIER 8: LINEAR ALGEBRA
// ================================================================

#[test]
fn test_tier8_rules_exist() {
    let lib = RuleLibrary::new();
    let expected = vec![
        "la.vec_add", "la.dot_product", "la.cross_product", "la.vec_norm",
        "la.transpose", "la.eigenvalue", "la.eigenvector", "la.linear_transform",
        "la.mat_decompose", "la.vec_project", "la.gram_schmidt", "la.rank_nullity",
    ];
    for id in expected {
        assert!(lib.get(id).is_some(), "Rule '{}' should exist", id);
    }
}

#[test]
fn test_tier8_count() {
    let lib = RuleLibrary::new();
    assert_eq!(lib.count_domain(Domain::LinearAlgebra), 12);
}

// ================================================================
// TIER 9: ABSTRACT/APPLIED
// ================================================================

#[test]
fn test_tier9_rules_exist() {
    let lib = RuleLibrary::new();
    let expected = vec![
        "abs.mod_arith", "abs.permutation", "abs.combination", "abs.prob_basic",
        "abs.prob_cond", "abs.bayes", "abs.expected_val", "abs.variance",
        "abs.std_dev", "abs.normal_dist", "abs.hyp_test", "abs.graph_adj",
        "abs.shortest_path", "abs.optimize",
    ];
    for id in expected {
        assert!(lib.get(id).is_some(), "Rule '{}' should exist", id);
    }
}

#[test]
fn test_tier9_count() {
    let lib = RuleLibrary::new();
    assert_eq!(lib.count_domain(Domain::AbstractApplied), 14);
}

// ================================================================
// PREREQUISITE CHAIN TESTS
// ================================================================

#[test]
fn test_all_prerequisites_exist() {
    let lib = RuleLibrary::new();
    for id in lib.all_ids() {
        let rule = lib.get(id).unwrap();
        for prereq in &rule.prerequisites {
            assert!(lib.get(prereq).is_some(),
                "Rule '{}' requires prerequisite '{}' which does not exist", id, prereq);
        }
    }
}

#[test]
fn test_all_inverses_exist() {
    let lib = RuleLibrary::new();
    for id in lib.all_ids() {
        let rule = lib.get(id).unwrap();
        if let Some(ref inv) = rule.inverse {
            assert!(lib.get(inv).is_some(),
                "Rule '{}' declares inverse '{}' which does not exist", id, inv);
        }
    }
}

#[test]
fn test_all_prerequisites_satisfied() {
    let lib = RuleLibrary::new();
    for id in lib.all_ids() {
        assert!(lib.prerequisites_satisfied(id),
            "Rule '{}' has unsatisfied prerequisites", id);
    }
}

#[test]
fn test_tier_ordering() {
    let lib = RuleLibrary::new();
    // Every rule's prerequisites should be from the same or lower tier
    for id in lib.all_ids() {
        let rule = lib.get(id).unwrap();
        let rule_tier = rule.tier();
        for prereq_id in &rule.prerequisites {
            if let Some(prereq) = lib.get(prereq_id) {
                assert!(prereq.tier() <= rule_tier,
                    "Rule '{}' (tier {}) depends on '{}' (tier {}). Prerequisites must be same or lower tier.",
                    id, rule_tier, prereq_id, prereq.tier());
            }
        }
    }
}

// ================================================================
// CHAIN RESOLUTION TESTS
// ================================================================

#[test]
fn test_chain_resolution_tier0() {
    let lib = RuleLibrary::new();
    let chain = lib.resolve_chain("core.add");
    assert_eq!(chain.len(), 1);
    assert_eq!(chain[0].id, "core.add");
}

#[test]
fn test_chain_resolution_tier1() {
    let lib = RuleLibrary::new();
    let chain = lib.resolve_chain("ext.add");
    // ext.add depends on core.add
    assert!(chain.len() >= 2);
    // Prerequisites come before the target rule
    let ids: Vec<&str> = chain.iter().map(|r| r.id.as_str()).collect();
    let core_pos = ids.iter().position(|&id| id == "core.add").unwrap();
    let ext_pos = ids.iter().position(|&id| id == "ext.add").unwrap();
    assert!(core_pos < ext_pos, "core.add must come before ext.add in chain");
}

#[test]
fn test_chain_resolution_deep() {
    let lib = RuleLibrary::new();
    // quadratic_solve has deep prerequisites
    let chain = lib.resolve_chain("alg.quadratic_solve");
    let ids: Vec<&str> = chain.iter().map(|r| r.id.as_str()).collect();
    // Must include Value Core operations at the foundation
    assert!(ids.contains(&"core.mul") || ids.contains(&"ext.mul"),
        "Quadratic solve chain must trace back to multiplication");
    // Target must be last
    assert_eq!(*ids.last().unwrap(), "alg.quadratic_solve");
}

#[test]
fn test_chain_no_duplicates() {
    let lib = RuleLibrary::new();
    // Even rules with shared prerequisites should not have duplicates
    let chain = lib.resolve_chain("alg.quadratic_solve");
    let ids: Vec<&str> = chain.iter().map(|r| r.id.as_str()).collect();
    let mut seen = std::collections::HashSet::new();
    for id in &ids {
        assert!(seen.insert(id), "Duplicate rule '{}' in chain", id);
    }
}

#[test]
fn test_chain_prerequisite_order() {
    let lib = RuleLibrary::new();
    // For any chain, every rule's prerequisites must appear before it
    let chain = lib.resolve_chain("abs.bayes");
    let ids: Vec<&str> = chain.iter().map(|r| r.id.as_str()).collect();
    for (i, rule) in chain.iter().enumerate() {
        for prereq in &rule.prerequisites {
            if let Some(prereq_pos) = ids.iter().position(|&id| id == prereq.as_str()) {
                assert!(prereq_pos < i,
                    "In chain for 'abs.bayes': prerequisite '{}' (pos {}) must come before '{}' (pos {})",
                    prereq, prereq_pos, rule.id, i);
            }
        }
    }
}

// ================================================================
// DOMAIN & PATTERN INDEX TESTS
// ================================================================

#[test]
fn test_all_domains_populated() {
    let lib = RuleLibrary::new();
    for domain in Domain::all() {
        let count = lib.count_domain(*domain);
        assert!(count > 0, "Domain {:?} has no rules", domain);
    }
}

#[test]
fn test_domain_retrieval() {
    let lib = RuleLibrary::new();
    let core_rules = lib.retrieve_by_domain(Domain::CoreArithmetic);
    assert_eq!(core_rules.len(), 4);
    for rule in core_rules {
        assert_eq!(rule.domain, Domain::CoreArithmetic);
    }
}

#[test]
fn test_tier_retrieval() {
    let lib = RuleLibrary::new();
    let tier0 = lib.retrieve_by_tier(0);
    assert_eq!(tier0.len(), 4);
    for rule in tier0 {
        assert_eq!(rule.tier(), 0);
    }
}

#[test]
fn test_pattern_retrieval_algebra() {
    let lib = RuleLibrary::new();
    let like_terms = lib.retrieve_by_pattern(&PatternType::LikeTermsCombination);
    assert_eq!(like_terms.len(), 1);
    assert_eq!(like_terms[0].id, "alg.like_terms");
}

#[test]
fn test_pattern_retrieval_empty() {
    let lib = RuleLibrary::new();
    let custom = lib.retrieve_by_pattern(&PatternType::Custom("nonexistent".into()));
    assert!(custom.is_empty());
}

// ================================================================
// RULE INTEGRITY TESTS
// ================================================================

#[test]
fn test_all_rules_have_names() {
    let lib = RuleLibrary::new();
    for id in lib.all_ids() {
        let rule = lib.get(id).unwrap();
        assert!(!rule.name.is_empty(), "Rule '{}' has empty name", id);
    }
}

#[test]
fn test_all_rules_have_descriptions() {
    let lib = RuleLibrary::new();
    for id in lib.all_ids() {
        let rule = lib.get(id).unwrap();
        assert!(!rule.description.is_empty(), "Rule '{}' has empty description", id);
    }
}

#[test]
fn test_all_rules_have_patterns() {
    let lib = RuleLibrary::new();
    for id in lib.all_ids() {
        let rule = lib.get(id).unwrap();
        assert!(!rule.patterns.is_empty(), "Rule '{}' has no patterns", id);
    }
}

#[test]
fn test_unique_ids() {
    let lib = RuleLibrary::new();
    let ids = lib.all_ids();
    let unique: std::collections::HashSet<&str> = ids.iter().cloned().collect();
    assert_eq!(ids.len(), unique.len(), "Duplicate rule IDs detected");
}

// ================================================================
// CROSS-TIER CONSISTENCY
// ================================================================

#[test]
fn test_domain_tier_alignment() {
    let lib = RuleLibrary::new();
    for id in lib.all_ids() {
        let rule = lib.get(id).unwrap();
        assert_eq!(rule.tier(), rule.domain.tier(),
            "Rule '{}' tier mismatch: domain {:?} is tier {} but rule reports tier {}",
            id, rule.domain, rule.domain.tier(), rule.tier());
    }
}

#[test]
fn test_total_rule_distribution() {
    let lib = RuleLibrary::new();
    let mut total = 0;
    for domain in Domain::all() {
        let count = lib.count_domain(*domain);
        total += count;
    }
    assert_eq!(total, lib.count(),
        "Sum of domain counts ({}) != total count ({})", total, lib.count());
}


// ================================================================
// REGISTRATION AND RESOLUTION LAWS ON CONCRETE VALUES
// ================================================================

#[test]
fn test_register_replaces_rule_with_same_id() {
    let mut lib = RuleLibrary::new();
    let mut changed = lib.get("core.add").unwrap().copy();
    changed.name = "Replaced Addition".to_string();
    let before = lib.count();
    lib.register(changed);
    assert_eq!(lib.get("core.add").unwrap().name, "Replaced Addition");
    assert_eq!(lib.get("core.sub").unwrap().name, "Single-Digit Subtraction");
    assert_eq!(lib.count(), before);
}

#[test]
fn test_resolve_chain_unknown_rule_is_empty() {
    let lib = RuleLibrary::new();
    assert!(lib.resolve_chain("no.such.rule").is_empty());
}

#[test]
fn test_resolve_chain_is_exactly_the_reachable_rules() {
    let lib = RuleLibrary::new();
    let chain = lib.resolve_chain("ext.mul");
    let ids: Vec<&str> = chain.iter().map(|r| r.id.as_str()).collect();
    // ext.mul needs core.mul and ext.add; ext.add needs core.add
    assert_eq!(*ids.last().unwrap(), "ext.mul");
    for id in ["core.mul", "ext.add", "core.add"] {
        assert!(ids.contains(&id), "chain should hold {}", id);
    }
    for rule in &chain {
        for p in &rule.prerequisites {
            assert!(ids.contains(&p.as_str()));
        }
    }
}

#[test]
fn test_prerequisites_met_slice() {
    let lib = RuleLibrary::new();
    let rule = lib.get("ext.mul").unwrap();
    assert!(rule.prerequisites_met(&["core.mul", "ext.add", "core.add"]));
    assert!(!rule.prerequisites_met(&["core.mul"]));
}

#[test]
fn test_default_library_is_builtin() {
    let lib = RuleLibrary::default();
    assert_eq!(lib.count(), RuleLibrary::new().count());
    assert!(lib.get("abs.optimize").is_some());
}

#[test]
fn test_pattern_retrieval_most_specific_first() {
    let mut lib = RuleLibrary::new();
    lib.register(Rule {
        id: "x.slope".to_string(),
        domain: Domain::Algebra,
        name: "n".to_string(),
        description: "d".to_string(),
        prerequisites: vec![],
        patterns: vec![PatternType::SlopeIntercept],
        properties: vec![],
        inverse: None,
        operation: Operation::SlopeCalc,
    });
    let ids: Vec<String> =
        lib.retrieve_by_pattern(&PatternType::SlopeIntercept).iter().map(|r| r.id.clone()).collect();
    assert_eq!(ids, vec!["x.slope".to_string(), "alg.slope".to_string()]);
}

#[test]
fn test_pattern_retrieval_ties_keep_registration_order() {
    let mut lib = RuleLibrary::new();
    for id in ["a.first", "a.second"] {
        lib.register(Rule {
            id: id.to_string(),
            domain: Domain::Algebra,
            name: "n".to_string(),
            description: "d".to_string(),
            prerequisites: vec!["core.add".to_string()],
            patterns: vec![PatternType::Custom("tie".to_string())],
            properties: vec![],
            inverse: None,
            operation: Operation::SlopeCalc,
        });
    }
    let ids: Vec<String> =
        lib.retrieve_by_pattern(&PatternType::Custom("tie".to_string())).iter().map(|r| r.id.clone()).collect();
    assert_eq!(ids, vec!["a.first".to_string(), "a.second".to_string()]);
}

#[test]
fn test_chain_depth_first_declared_order() {
    let lib = RuleLibrary::new();
    let ids: Vec<String> = lib.resolve_chain("ext.mul").iter().map(|r| r.id.clone()).collect();
    assert_eq!(ids, vec!["core.mul", "core.add", "ext.add", "ext.mul"]);
}
