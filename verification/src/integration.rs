//! The outward face of the engine: trace records and their JSON text, rule
//! information and library statistics.
use vstd::prelude::*;
use crate::execution::{Step, StepView};
use crate::retrieval::RetrievalEngine;
use crate::rule_library::{
    domain_ids, held_rules, lookup, option_string_view, string_views, Domain, RuleLibrary, RuleView,
};
use crate::text::push_char;

verus! {

/// Version of the engine.
pub const VERSION: &'static str = "0.1.0";

/// Name of the engine.
pub const ENGINE_NAME: &'static str = "NUMERA";

/// Description of the engine.
pub const ENGINE_DESC: &'static str = "Numerical Understanding through Modular Engine for Retrieval and Application";

/// Author of the engine.
pub const AUTHOR: &'static str = "M. L. McKnight — ML Innovations LLC";

/// Terms of use.
pub const LICENSE: &'static str = "FREE — No license. No restrictions.";

// ============================================================================
// JSON TEXT
// ============================================================================

/// The JSON escape of one character: backslash, quote, newline, carriage
/// return and tab are written with a backslash; any other character stays.
pub open spec fn escape_char(c: char) -> Seq<char> {
    if c == '\\' {
        seq!['\\', '\\']
    } else if c == '"' {
        seq!['\\', '"']
    } else if c == '\n' {
        seq!['\\', 'n']
    } else if c == '\r' {
        seq!['\\', 'r']
    } else if c == '\t' {
        seq!['\\', 't']
    } else {
        seq![c]
    }
}

/// The JSON escape of a text, character by character.
pub open spec fn escape_text(s: Seq<char>) -> Seq<char>
    decreases s.len(),
{
    if s.len() == 0 {
        Seq::empty()
    } else {
        escape_text(s.drop_last()) + escape_char(s.last())
    }
}

fn push_text(t: &mut String, s: &str)
    ensures
        final(t)@ == old(t)@ + s@,
{
    t.append(s);
}

/// Escapes a text for a JSON string.
pub fn escape_json(s: &str) -> (r: String)
    ensures
        r@ == escape_text(s@),
{
    let n = s.unicode_len();
    let mut r = String::new();
    let mut i: usize = 0;
    while i < n
        invariant
            i <= n == s@.len(),
            r@ == escape_text(s@.take(i as int)),
        decreases n - i,
    {
        let c = s.get_char(i);
        if c == '\\' {
            push_char(&mut r, '\\');
            push_char(&mut r, '\\');
        } else if c == '"' {
            push_char(&mut r, '\\');
            push_char(&mut r, '"');
        } else if c == '\n' {
            push_char(&mut r, '\\');
            push_char(&mut r, 'n');
        } else if c == '\r' {
            push_char(&mut r, '\\');
            push_char(&mut r, 'r');
        } else if c == '\t' {
            push_char(&mut r, '\\');
            push_char(&mut r, 't');
        } else {
            push_char(&mut r, c);
        }
        proof {
            assert(s@.take(i + 1).drop_last() =~= s@.take(i as int));
            assert(s@.take(i + 1).last() == c);
        }
        i = i + 1;
        assert(r@ =~= escape_text(s@.take(i as int)));
    }
    assert(s@.take(i as int) =~= s@);
    r
}

// ============================================================================
// TRACE STEPS
// ============================================================================

/// One step of an evaluation trace, as a response reports it.
#[derive(Debug, Clone)]
pub struct TraceStep {
    pub operation: String,
    pub description: String,
    pub result: String,
    pub verified: bool,
}

/// The JSON object of a trace step.
pub open spec fn trace_json(s: StepView) -> Seq<char> {
    "{\"operation\": \""@ + escape_text(s.operation) + "\", \"description\": \""@ + escape_text(s.description)
        + "\", \"result\": \""@ + escape_text(s.result) + "\", \"verified\": "@ + (if s.verified {
        "true"@
    } else {
        "false"@
    }) + "}"@
}

impl TraceStep {
    /// The view of the step's fields.
    pub open spec fn view_fields(&self) -> StepView {
        StepView {
            operation: self.operation@,
            description: self.description@,
            result: self.result@,
            verified: self.verified,
        }
    }

    /// The trace record of an execution step.
    pub fn from_step(step: &Step) -> (t: TraceStep)
        ensures
            t.view_fields() == step@,
    {
        TraceStep {
            operation: step.operation.clone(),
            description: step.description.clone(),
            result: step.result.clone(),
            verified: step.verified,
        }
    }

    /// The step as a JSON object.
    pub fn to_json(&self) -> (j: String)
        ensures
            j@ == trace_json(self.view_fields()),
    {
        let mut j = String::new();
        push_text(&mut j, "{\"operation\": \"");
        let op = escape_json(self.operation.as_str());
        push_text(&mut j, op.as_str());
        push_text(&mut j, "\", \"description\": \"");
        let desc = escape_json(self.description.as_str());
        push_text(&mut j, desc.as_str());
        push_text(&mut j, "\", \"result\": \"");
        let res = escape_json(self.result.as_str());
        push_text(&mut j, res.as_str());
        push_text(&mut j, "\", \"verified\": ");
        if self.verified {
            push_text(&mut j, "true");
        } else {
            push_text(&mut j, "false");
        }
        push_text(&mut j, "}");
        assert(j@ =~= trace_json(self.view_fields()));
        j
    }
}

// ============================================================================
// INTROSPECTION
// ============================================================================

/// Information about a rule of the library.
#[derive(Debug, Clone)]
pub struct RuleInfo {
    pub id: String,
    pub name: String,
    pub description: String,
    pub domain: String,
    pub tier: u8,
    pub prerequisites: Vec<String>,
    pub inverse: Option<String>,
}

/// Statistics of a rule library.
#[derive(Debug, Clone)]
pub struct LibraryStats {
    pub total_rules: usize,
    pub rules_per_domain: Vec<(String, usize)>,
    pub total_domains: usize,
    pub total_tiers: usize,
}

/// `info` describes the rule `r`; its domain is the domain's identifier.
pub open spec fn describes(info: RuleInfo, r: RuleView) -> bool {
    &&& info.id@ == r.id
    &&& info.name@ == r.name
    &&& info.description@ == r.description
    &&& info.domain@ == r.domain.spec_code_name()
    &&& info.tier == r.tier()
    &&& string_views(info.prerequisites@) == r.prerequisites
    &&& option_string_view(info.inverse) == r.inverse
}

/// Information about the rule with the given id, if the library holds one.
pub fn rule_info(engine: &RetrievalEngine, rule_id: &str) -> (r: Option<RuleInfo>)
    ensures
        r is None <==> lookup(engine@, rule_id@) is None,
        r matches Some(info) ==> describes(info, lookup(engine@, rule_id@)->Some_0),
{
    match engine.library().get(rule_id) {
        None => None,
        Some(rule) => {
            let prerequisites = crate::rule_library::copy_strings(&rule.prerequisites);
            let inverse = match &rule.inverse {
                Some(s) => Some(s.clone()),
                None => None,
            };
            Some(
                RuleInfo {
                    id: rule.id.clone(),
                    name: rule.name.clone(),
                    description: rule.description.clone(),
                    domain: String::from_str(rule.domain.code_name()),
                    tier: rule.tier(),
                    prerequisites,
                    inverse,
                },
            )
        },
    }
}

/// The domain of a tier.
pub open spec fn tier_domain(i: int) -> Domain {
    if i == 0 {
        Domain::CoreArithmetic
    } else if i == 1 {
        Domain::ExtendedArithmetic
    } else if i == 2 {
        Domain::Properties
    } else if i == 3 {
        Domain::PreAlgebra
    } else if i == 4 {
        Domain::Algebra
    } else if i == 5 {
        Domain::AdvancedAlgebra
    } else if i == 6 {
        Domain::Trigonometry
    } else if i == 7 {
        Domain::Calculus
    } else if i == 8 {
        Domain::LinearAlgebra
    } else {
        Domain::AbstractApplied
    }
}

/// The statistics of the engine's library: the number of rules (each id
/// once), the rules registered in each domain in tier order with the
/// domain's identifier, ten domains and ten tiers.
pub fn library_stats(engine: &RetrievalEngine) -> (st: LibraryStats)
    ensures
        st.total_rules == held_rules(engine@).len(),
        st.rules_per_domain@.len() == 10,
        forall|i: int|
            0 <= i < 10 ==> (#[trigger] st.rules_per_domain@[i]).0@ == tier_domain(i).spec_code_name()
                && st.rules_per_domain@[i].1 == domain_ids(engine@, tier_domain(i), engine@.len() as int).len(),
        st.total_domains == 10,
        st.total_tiers == 10,
{
    let lib: &RuleLibrary = engine.library();
    let total = lib.count();
    let all = Domain::all();
    let mut per: Vec<(String, usize)> = Vec::new();
    let mut i: usize = 0;
    while i < all.len()
        invariant
            all@.len() == 10,
            forall|k: int| 0 <= k < 10 ==> (#[trigger] all@[k]).spec_tier() == k,
            lib@ == engine@,
            i <= 10,
            per@.len() == i,
            forall|k: int|
                0 <= k < i ==> (#[trigger] per@[k]).0@ == tier_domain(k).spec_code_name() && per@[k].1
                    == domain_ids(engine@, tier_domain(k), engine@.len() as int).len(),
        decreases 10 - i,
    {
        let d = all[i];
        proof {
            assert(d.spec_tier() == i);
            assert(d == tier_domain(i as int));
        }
        let count = lib.count_domain(d);
        per.push((String::from_str(d.code_name()), count));
        i = i + 1;
    }
    LibraryStats { total_rules: total, rules_per_domain: per, total_domains: all.len(), total_tiers: 10 }
}

/// The version line of the engine.
pub fn version_info() -> (t: String)
    ensures
        t@ == ENGINE_NAME@ + " v"@ + VERSION@ + " — "@ + AUTHOR@ + " — "@ + LICENSE@,
{
    let mut t = String::new();
    push_text(&mut t, ENGINE_NAME);
    push_text(&mut t, " v");
    push_text(&mut t, VERSION);
    push_text(&mut t, " — ");
    push_text(&mut t, AUTHOR);
    push_text(&mut t, " — ");
    push_text(&mut t, LICENSE);
    assert(t@ =~= ENGINE_NAME@ + " v"@ + VERSION@ + " — "@ + AUTHOR@ + " — "@ + LICENSE@);
    t
}

} // verus!
