use numera::execution::Step;
use numera::integration::{escape_json, library_stats, rule_info, version_info, TraceStep};
use numera::retrieval::RetrievalEngine;

#[test]
fn test_escape_json_special_characters() {
    assert_eq!(escape_json("a\"b\\c\nd\te\rf"), "a\\\"b\\\\c\\nd\\te\\rf");
    assert_eq!(escape_json("plain √2"), "plain √2");
    assert_eq!(escape_json(""), "");
}

#[test]
fn test_trace_step_json() {
    let step = Step {
        operation: "add".to_string(),
        description: "say \"hi\"".to_string(),
        result: "8".to_string(),
        verified: true,
    };
    let t = TraceStep::from_step(&step);
    assert_eq!(t.operation, "add");
    assert_eq!(
        t.to_json(),
        "{\"operation\": \"add\", \"description\": \"say \\\"hi\\\"\", \"result\": \"8\", \"verified\": true}"
    );
}

#[test]
fn test_rule_info_core_add() {
    let engine = RetrievalEngine::default_library();
    let info = rule_info(&engine, "core.add").unwrap();
    assert_eq!(info.id, "core.add");
    assert_eq!(info.name, "Single-Digit Addition");
    assert_eq!(info.domain, "CoreArithmetic");
    assert_eq!(info.tier, 0);
    assert!(info.prerequisites.is_empty());
    assert_eq!(info.inverse.as_deref(), Some("core.sub"));
    assert!(rule_info(&engine, "no.such.rule").is_none());
}

#[test]
fn test_rule_info_prerequisites() {
    let engine = RetrievalEngine::default_library();
    let info = rule_info(&engine, "ext.mul").unwrap();
    assert_eq!(info.domain, "ExtendedArithmetic");
    assert_eq!(info.tier, 1);
    assert!(info.prerequisites.contains(&"core.mul".to_string()));
}

#[test]
fn test_library_stats_builtin() {
    let engine = RetrievalEngine::default_library();
    let stats = library_stats(&engine);
    assert_eq!(stats.total_rules, 111);
    assert_eq!(stats.total_domains, 10);
    assert_eq!(stats.total_tiers, 10);
    assert_eq!(stats.rules_per_domain.len(), 10);
    assert_eq!(stats.rules_per_domain[0], ("CoreArithmetic".to_string(), 4));
    assert_eq!(stats.rules_per_domain[3], ("PreAlgebra".to_string(), 18));
    assert_eq!(stats.rules_per_domain[9], ("AbstractApplied".to_string(), 14));
    let sum: usize = stats.rules_per_domain.iter().map(|(_, c)| *c).sum();
    assert_eq!(sum, stats.total_rules);
}

#[test]
fn test_version_info_text() {
    assert_eq!(
        version_info(),
        "NUMERA v0.1.0 — M. L. McKnight — ML Innovations LLC — FREE — No license. No restrictions."
    );
}
