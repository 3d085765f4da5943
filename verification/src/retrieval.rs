//! Rule retrieval: from a classified pattern to the ordered chain of rules,
//! prerequisites first, that solving it takes.
use vstd::prelude::*;
use crate::pattern_engine::{AstNode, PatternClassification};
use crate::rule_library::{
    acyclic, builtin_library, by_specificity, dfs_chain_ids, has_id, held_and_distinct, ids_of, lookup,
    pattern_ids, pattern_rules_of, prerequisite_closed, prerequisites_first, reaches, refers_to, rule_views,
    string_views, Domain, PatternType, Rule, RuleLibrary, RuleView,
};
use crate::text::{starts_with, str_eq};

verus! {

// ============================================================================
// RETRIEVAL QUERY
// ============================================================================

/// A retrieval request built from a classification.
pub struct RetrievalQuery {
    /// The pattern to retrieve rules for.
    pub primary_pattern: PatternType,
    /// Further patterns whose rules join the chain.
    pub secondary_patterns: Vec<PatternType>,
    /// The domain classification.
    pub domain: Domain,
    /// The expression being solved.
    pub ast: AstNode,
    /// Whether to include full prerequisite chains.
    pub resolve_prerequisites: bool,
}

/// Copies a vector of patterns.
fn copy_patterns(v: &Vec<PatternType>) -> (r: Vec<PatternType>)
    ensures
        r@ == v@,
{
    let mut r: Vec<PatternType> = Vec::new();
    let mut i: usize = 0;
    while i < v.len()
        invariant
            i <= v@.len(),
            r@ == v@.take(i as int),
        decreases v@.len() - i,
    {
        r.push(v[i].copy());
        i = i + 1;
        proof {
            assert(r@ =~= v@.take(i as int));
        }
    }
    proof {
        assert(v@.take(i as int) =~= v@);
    }
    r
}

impl RetrievalQuery {
    /// A query for a classification of the expression `ast`.
    pub fn from_classification(classification: &PatternClassification, ast: &AstNode) -> (q: Self)
        ensures
            q.primary_pattern == classification.pattern_type,
            q.secondary_patterns@ == classification.secondary_patterns@,
            q.domain == classification.domain,
            q.ast@ == ast@,
            q.resolve_prerequisites,
    {
        RetrievalQuery {
            primary_pattern: classification.pattern_type.copy(),
            secondary_patterns: copy_patterns(&classification.secondary_patterns),
            domain: classification.domain,
            ast: ast.copy(),
            resolve_prerequisites: true,
        }
    }

    /// A query for a single pattern, with no secondary patterns.
    pub fn simple(pattern: PatternType, domain: Domain) -> (q: Self)
        ensures
            q.primary_pattern == pattern,
            q.secondary_patterns@.len() == 0,
            q.domain == domain,
            q.ast@ == crate::pattern_engine::AstView::Number((Seq::<u8>::empty(), Seq::<u8>::empty())),
            q.resolve_prerequisites,
    {
        RetrievalQuery {
            primary_pattern: pattern,
            secondary_patterns: Vec::new(),
            domain,
            ast: AstNode::Number(crate::pattern_engine::Numeral::zero()),
            resolve_prerequisites: true,
        }
    }
}

// ============================================================================
// RULE CHAIN
// ============================================================================

/// The views of a sequence of rules.
pub open spec fn views_of(rs: Seq<Rule>) -> Seq<RuleView> {
    rs.map_values(|r: Rule| r@)
}

/// Whether an id names a core rule, which every chain may use implicitly.
pub open spec fn is_core_id(id: Seq<char>) -> bool {
    "core."@.len() <= id.len() && id.subrange(0, "core."@.len() as int) == "core."@
}

/// Every prerequisite of a rule in the chain is a core rule or an earlier rule.
pub open spec fn chain_valid(rs: Seq<RuleView>) -> bool {
    forall|k: int, q: int|
        0 <= k < rs.len() && 0 <= q < rs[k].prerequisites.len() ==> ids_of(rs.take(k)).contains(
            #[trigger] rs[k].prerequisites[q],
        ) || is_core_id(rs[k].prerequisites[q])
}

/// An ordered sequence of rules to apply to solve a pattern.
pub struct RuleChain {
    pub rules: Vec<Rule>,
}

impl View for RuleChain {
    type V = Seq<RuleView>;

    open spec fn view(&self) -> Seq<RuleView> {
        views_of(self.rules@)
    }
}

impl RuleChain {
    /// The empty chain.
    pub fn new() -> (c: Self)
        ensures
            c@ == Seq::<RuleView>::empty(),
    {
        let c = RuleChain { rules: Vec::new() };
        assert(c@ =~= Seq::<RuleView>::empty());
        c
    }

    /// Appends a rule.
    pub fn push(&mut self, rule: Rule)
        ensures
            final(self)@ == old(self)@.push(rule@),
    {
        self.rules.push(rule);
        assert(self@ =~= old(self)@.push(rule@));
    }

    /// Number of rules.
    pub fn len(&self) -> (n: usize)
        ensures
            n == self@.len(),
    {
        self.rules.len()
    }

    /// Whether the chain has no rule.
    pub fn is_empty(&self) -> (b: bool)
        ensures
            b == (self@.len() == 0),
    {
        self.rules.len() == 0
    }

    /// The ids of the rules, in order.
    pub fn rule_ids(&self) -> (ids: Vec<String>)
        ensures
            string_views(ids@) == ids_of(self@),
    {
        let mut ids: Vec<String> = Vec::new();
        let mut i: usize = 0;
        while i < self.rules.len()
            invariant
                i <= self.rules@.len(),
                ids@.len() == i,
                forall|k: int| 0 <= k < i ==> (#[trigger] ids@[k])@ == self@[k].id,
            decreases self.rules@.len() - i,
        {
            ids.push(self.rules[i].id.clone());
            i = i + 1;
        }
        proof {
            assert(string_views(ids@) =~= ids_of(self@));
        }
        ids
    }

    /// Whether every rule's prerequisites are met by an earlier rule of the
    /// chain or are core rules, which are always available.
    pub fn validate(&self) -> (b: bool)
        ensures
            b == chain_valid(self@),
    {
        let mut available: Vec<&str> = Vec::new();
        let mut k: usize = 0;
        while k < self.rules.len()
            invariant
                k <= self.rules@.len(),
                available@.len() == k,
                forall|j: int| 0 <= j < k ==> (#[trigger] available@[j])@ == self@[j].id,
                forall|j: int, q: int|
                    0 <= j < k && 0 <= q < self@[j].prerequisites.len() ==> ids_of(
                        self@.take(j),
                    ).contains(#[trigger] self@[j].prerequisites[q]) || is_core_id(
                        self@[j].prerequisites[q],
                    ),
            decreases self.rules@.len() - k,
        {
            let rule = &self.rules[k];
            assert(rule@ == self@[k as int]);
            let mut q: usize = 0;
            while q < rule.prerequisites.len()
                invariant
                    k < self.rules@.len(),
                    rule@ == self@[k as int],
                    q <= rule.prerequisites@.len(),
                    available@.len() == k,
                    forall|j: int| 0 <= j < k ==> (#[trigger] available@[j])@ == self@[j].id,
                    forall|p: int|
                        0 <= p < q ==> ids_of(self@.take(k as int)).contains(
                            #[trigger] self@[k as int].prerequisites[p],
                        ) || is_core_id(self@[k as int].prerequisites[p]),
                decreases rule.prerequisites@.len() - q,
            {
                let p = rule.prerequisites[q].as_str();
                assert(p@ == self@[k as int].prerequisites[q as int]);
                let mut found = false;
                let mut j: usize = 0;
                while j < available.len()
                    invariant
                        j <= available@.len(),
                        available@.len() == k,
                        k < self.rules@.len(),
                        forall|i: int| 0 <= i < k ==> (#[trigger] available@[i])@ == self@[i].id,
                        !found ==> forall|i: int| 0 <= i < j ==> (#[trigger] available@[i])@ != p@,
                        found ==> ids_of(self@.take(k as int)).contains(p@),
                    decreases available@.len() - j,
                {
                    if str_eq(available[j], p) {
                        found = true;
                        assert(ids_of(self@.take(k as int))[j as int] == p@);
                    }
                    j = j + 1;
                }
                if !found && !starts_with(p, "core.") {
                    proof {
                        assert(!ids_of(self@.take(k as int)).contains(p@)) by {
                            if ids_of(self@.take(k as int)).contains(p@) {
                                let i = choose|i: int|
                                    0 <= i < ids_of(self@.take(k as int)).len() && ids_of(
                                        self@.take(k as int),
                                    )[i] == p@;
                                assert(available@[i]@ == self@[i].id);
                            }
                        }
                        assert(!chain_valid(self@)) by {
                            assert(!(ids_of(self@.take(k as int)).contains(
                                self@[k as int].prerequisites[q as int],
                            ) || is_core_id(self@[k as int].prerequisites[q as int])));
                        }
                    }
                    return false;
                }
                q = q + 1;
            }
            available.push(rule.id.as_str());
            k = k + 1;
        }
        true
    }
}

impl Default for RuleChain {
    fn default() -> (c: Self)
        ensures
            c@ == Seq::<RuleView>::empty(),
    {
        RuleChain::new()
    }
}

// ============================================================================
// RETRIEVAL RESULT
// ============================================================================

/// The outcome of a retrieval.
pub struct RetrievalResult {
    /// The ordered rule chain.
    pub chain: RuleChain,
    /// The rule matched for the primary pattern.
    pub primary_rule_id: String,
    /// The ids of the primary rule's prerequisites, in dependency order (the
    /// resolved chain without the primary rule itself).
    pub prerequisite_ids: Vec<String>,
    /// Whether the chain passed validation.
    pub validated: bool,
    /// Domain of the primary rule.
    pub domain: Domain,
    /// Tier of the primary rule.
    pub tier: u8,
}

impl RetrievalResult {
    /// Number of rules in the chain.
    pub fn total_rules(&self) -> (n: usize)
        ensures
            n == self.chain@.len(),
    {
        self.chain.len()
    }

    /// Whether the chain has no rule.
    pub fn is_empty(&self) -> (b: bool)
        ensures
            b == (self.chain@.len() == 0),
    {
        self.chain.is_empty()
    }
}

// ============================================================================
// RULE SELECTION
// ============================================================================

/// `a` is strictly preferred to `b`: fewer patterns, then fewer prerequisites.
pub open spec fn more_specific(a: RuleView, b: RuleView) -> bool {
    a.patterns.len() < b.patterns.len() || (a.patterns.len() == b.patterns.len()
        && a.prerequisites.len() < b.prerequisites.len())
}

/// Index of the first most specific rule of a non-empty sequence.
pub open spec fn best_index(cs: Seq<RuleView>) -> int
    decreases cs.len(),
{
    if cs.len() <= 1 {
        0
    } else {
        let j = best_index(cs.drop_last());
        if more_specific(cs.last(), cs[j]) {
            cs.len() - 1
        } else {
            j
        }
    }
}

/// The rules indexed under a pattern, in indexing order.
pub open spec fn candidates(regs: Seq<RuleView>, p: PatternType) -> Seq<RuleView> {
    pattern_ids(regs, p, regs.len() as int).map_values(|id: Seq<char>| lookup(regs, id)->Some_0)
}

/// The rule chosen for a pattern: the first most specific candidate.
pub open spec fn best_rule(regs: Seq<RuleView>, p: PatternType) -> Option<RuleView> {
    let cs = candidates(regs, p);
    if cs.len() == 0 {
        None
    } else {
        Some(cs[best_index(cs)])
    }
}

/// No rule has fewer patterns than `b`, or as many patterns and fewer
/// prerequisites.
pub open spec fn none_more_specific(cs: Seq<RuleView>, b: RuleView) -> bool {
    forall|k: int|
        0 <= k < cs.len() ==> !((#[trigger] cs[k]).patterns.len() < b.patterns.len() || (cs[k].patterns.len()
            == b.patterns.len() && cs[k].prerequisites.len() < b.prerequisites.len()))
}

proof fn lemma_best_index_minimal(cs: Seq<RuleView>)
    requires
        cs.len() > 0,
    ensures
        0 <= best_index(cs) < cs.len(),
        none_more_specific(cs, cs[best_index(cs)]),
    decreases cs.len(),
{
    if cs.len() > 1 {
        let d = cs.drop_last();
        lemma_best_index_minimal(d);
        let j = best_index(d);
        assert(d[j] == cs[j]);
        assert forall|k: int| 0 <= k < cs.len() implies !((#[trigger] cs[k]).patterns.len()
            < cs[best_index(cs)].patterns.len() || (cs[k].patterns.len() == cs[best_index(cs)].patterns.len()
            && cs[k].prerequisites.len() < cs[best_index(cs)].prerequisites.len())) by {
            if k < d.len() {
                assert(d[k] == cs[k]);
            }
        }
    }
}

/// The rule chosen for a pattern is one of its candidates, and no candidate
/// is more specific: none has fewer patterns, or as many patterns and fewer
/// prerequisites.
pub proof fn law_best_rule_most_specific(regs: Seq<RuleView>, p: PatternType)
    ensures
        best_rule(regs, p) is Some <==> candidates(regs, p).len() > 0,
        best_rule(regs, p) matches Some(b) ==> candidates(regs, p).contains(b) && none_more_specific(
            candidates(regs, p),
            b,
        ),
{
    let cs = candidates(regs, p);
    if cs.len() > 0 {
        lemma_best_index_minimal(cs);
        assert(cs[best_index(cs)] == best_rule(regs, p)->Some_0);
    }
}

proof fn lemma_best_index_bounds(cs: Seq<RuleView>)
    requires
        cs.len() > 0,
    ensures
        0 <= best_index(cs) < cs.len(),
    decreases cs.len(),
{
    if cs.len() > 1 {
        lemma_best_index_bounds(cs.drop_last());
    }
}

/// The chosen rules of the patterns that have one, in order.
pub open spec fn chosen_rules(regs: Seq<RuleView>, pats: Seq<PatternType>) -> Seq<RuleView>
    decreases pats.len(),
{
    if pats.len() == 0 {
        Seq::empty()
    } else {
        let s = chosen_rules(regs, pats.drop_last());
        match best_rule(regs, pats.last()) {
            Some(r) => s.push(r),
            None => s,
        }
    }
}

/// `chain` extended by each rule of `rs` whose id it does not hold yet.
pub open spec fn add_unique(chain: Seq<RuleView>, rs: Seq<RuleView>) -> Seq<RuleView>
    decreases rs.len(),
{
    if rs.len() == 0 {
        chain
    } else {
        let c = add_unique(chain, rs.drop_last());
        if ids_of(c).contains(rs.last().id) {
            c
        } else {
            c.push(rs.last())
        }
    }
}

/// The rules the ids refer to.
pub open spec fn rules_of(regs: Seq<RuleView>, ids: Seq<Seq<char>>) -> Seq<RuleView> {
    ids.map_values(|id: Seq<char>| lookup(regs, id)->Some_0)
}

/// What the prerequisite resolution of `id` promises of the rules `p`.
pub open spec fn resolves(regs: Seq<RuleView>, id: Seq<char>, p: Seq<RuleView>) -> bool {
    &&& held_and_distinct(regs, p)
    &&& prerequisite_closed(regs, p)
    &&& acyclic(regs) ==> prerequisites_first(regs, p)
    &&& has_id(regs, id) ==> p.len() > 0 && p.last().id == id
    &&& !has_id(regs, id) ==> p.len() == 0
    &&& forall|x: Seq<char>|
        #![trigger ids_of(p).contains(x)]
        #![trigger reaches(regs, id, x)]
        ids_of(p).contains(x) <==> reaches(regs, id, x)
    &&& ids_of(p) == dfs_chain_ids(regs, id)
}

/// `res` is the retrieval, in the library `regs`, for a primary pattern,
/// secondary patterns and the choice to resolve prerequisites.
pub open spec fn retrieval_of(
    regs: Seq<RuleView>,
    primary: PatternType,
    secondaries: Seq<PatternType>,
    resolve: bool,
    res: RetrievalResult,
) -> bool {
    let best = best_rule(regs, primary)->Some_0;
    let resolved = resolved_chain(regs, best.id, resolve);
    &&& best_rule(regs, primary) is Some
    &&& res.primary_rule_id@ == best.id
    &&& res.domain == best.domain
    &&& res.tier == best.tier()
    &&& resolve ==> resolves(regs, best.id, resolved)
    &&& string_views(res.prerequisite_ids@) == (if resolve {
        dfs_chain_ids(regs, best.id).drop_last()
    } else {
        Seq::empty()
    })
    &&& res.chain@ == add_unique(Seq::empty(), resolved + seq![best] + chosen_rules(regs, secondaries))
    &&& res.validated == chain_valid(res.chain@)
}

/// The resolved prerequisite chain of `id`, ending with `id` itself, or
/// nothing when resolution is not asked for.
pub open spec fn resolved_chain(regs: Seq<RuleView>, id: Seq<char>, resolve: bool) -> Seq<RuleView> {
    if resolve {
        rules_of(regs, dfs_chain_ids(regs, id))
    } else {
        Seq::empty()
    }
}

/// Highest tier among the rules.
pub open spec fn max_tier(rs: Seq<RuleView>) -> nat
    decreases rs.len(),
{
    if rs.len() == 0 {
        0
    } else {
        let m = max_tier(rs.drop_last());
        if rs.last().tier() > m {
            rs.last().tier()
        } else {
            m
        }
    }
}

// ============================================================================
// RETRIEVAL ENGINE
// ============================================================================

/// Retrieval over a rule library: the same query always yields the same chain.
pub struct RetrievalEngine {
    library: RuleLibrary,
}

impl View for RetrievalEngine {
    type V = Seq<RuleView>;

    closed spec fn view(&self) -> Seq<RuleView> {
        self.library@
    }
}

impl RetrievalEngine {
    /// An engine over the given library.
    pub fn new(library: RuleLibrary) -> (e: Self)
        ensures
            e@ == library@,
    {
        RetrievalEngine { library }
    }

    /// An engine over the built-in library.
    pub fn default_library() -> (e: Self)
        ensures
            e@ == builtin_library(),
    {
        RetrievalEngine { library: RuleLibrary::new() }
    }

    /// The underlying library.
    pub fn library(&self) -> (l: &RuleLibrary)
        ensures
            l@ == self@,
    {
        &self.library
    }

    /// The rule chosen for a pattern: among the rules indexed under it, the
    /// first with the fewest patterns, then the fewest prerequisites.
    pub fn find_best_rule(&self, pattern: &PatternType) -> (r: Option<&Rule>)
        ensures
            r is None <==> best_rule(self@, *pattern) is None,
            r matches Some(x) ==> best_rule(self@, *pattern) == Some(x@),
            r matches Some(x) ==> candidates(self@, *pattern).contains(x@) && none_more_specific(
                candidates(self@, *pattern),
                x@,
            ),
    {
        proof {
            law_best_rule_most_specific(self@, *pattern);
        }
        let cands = self.library.indexed_by_pattern(pattern);
        let ghost ids = pattern_ids(self@, *pattern, self@.len() as int);
        let ghost cs = candidates(self@, *pattern);
        proof {
            assert(cs.len() == cands@.len());
            assert forall|k: int| 0 <= k < cs.len() implies #[trigger] cs[k] == cands@[k]@ by {
                assert(lookup(self@, ids[k]) == Some(cands@[k]@));
            }
        }
        if cands.len() == 0 {
            return None;
        }
        let mut best: usize = 0;
        let mut i: usize = 1;
        while i < cands.len()
            invariant
                1 <= i <= cands@.len(),
                cs.len() == cands@.len(),
                forall|k: int| 0 <= k < cs.len() ==> #[trigger] cs[k] == cands@[k]@,
                best < i,
                best == best_index(cs.take(i as int)),
            decreases cands@.len() - i,
        {
            proof {
                assert(cs.take(i + 1).drop_last() =~= cs.take(i as int));
                assert(cs.take(i + 1).last() == cs[i as int]);
                assert(cs.take(i + 1)[best as int] == cs[best as int]);
            }
            let c = cands[i];
            let b = cands[best];
            if c.patterns.len() < b.patterns.len() || (c.patterns.len() == b.patterns.len()
                && c.prerequisites.len() < b.prerequisites.len()) {
                best = i;
            }
            i = i + 1;
        }
        proof {
            assert(cs.take(i as int) =~= cs);
        }
        Some(cands[best])
    }
}

/// Whether the chain holds a rule with the id.
fn holds_id(chain: &RuleChain, id: &str) -> (b: bool)
    ensures
        b == ids_of(chain@).contains(id@),
{
    let mut i: usize = 0;
    while i < chain.rules.len()
        invariant
            i <= chain.rules@.len(),
            forall|k: int| 0 <= k < i ==> (#[trigger] chain@[k]).id != id@,
        decreases chain.rules@.len() - i,
    {
        assert(chain@[i as int] == chain.rules@[i as int]@);
        if str_eq(chain.rules[i].id.as_str(), id) {
            assert(ids_of(chain@)[i as int] == id@);
            return true;
        }
        i = i + 1;
    }
    proof {
        if ids_of(chain@).contains(id@) {
            let k = choose|k: int| 0 <= k < ids_of(chain@).len() && ids_of(chain@)[k] == id@;
            assert(chain@[k].id == id@);
        }
    }
    false
}

/// Adding one more rule to the list extends the chain by at most that rule.
proof fn lemma_add_unique_push(chain: Seq<RuleView>, rs: Seq<RuleView>, r: RuleView)
    ensures
        add_unique(chain, rs.push(r)) == (if ids_of(add_unique(chain, rs)).contains(r.id) {
            add_unique(chain, rs)
        } else {
            add_unique(chain, rs).push(r)
        }),
{
    assert(rs.push(r).drop_last() =~= rs);
}

impl RetrievalEngine {
    /// Retrieves the ordered rule chain for a query: the rule chosen for the
    /// primary pattern with its prerequisite chain (if asked for), then the
    /// rules chosen for the secondary patterns, each rule once; and whether
    /// the chain validates. `None` when no rule matches the primary pattern.
    pub fn retrieve(&self, query: &RetrievalQuery) -> (r: Option<RetrievalResult>)
        ensures
            r is None <==> best_rule(self@, query.primary_pattern) is None,
            r matches Some(res) ==> retrieval_of(
                self@,
                query.primary_pattern,
                query.secondary_patterns@,
                query.resolve_prerequisites,
                res,
            ),
    {
        let primary = match self.find_best_rule(&query.primary_pattern) {
            Some(p) => p,
            None => {
                return None;
            },
        };
        let ghost best = primary@;
        let primary_id = primary.id.clone();
        let domain = primary.domain;
        let tier = primary.tier();
        let prereqs: Vec<&Rule> = if query.resolve_prerequisites {
            self.library.resolve_chain(primary_id.as_str())
        } else {
            Vec::new()
        };
        let ghost pv = rule_views(prereqs@);
        proof {
            if !query.resolve_prerequisites {
                assert(pv =~= Seq::<RuleView>::empty());
            }
        }
        // the ids of the prerequisites: the resolved chain without the primary rule
        let n_pre: usize = if prereqs.len() > 0 {
            prereqs.len() - 1
        } else {
            0
        };
        let mut prerequisite_ids: Vec<String> = Vec::new();
        let mut i: usize = 0;
        while i < n_pre
            invariant
                n_pre <= prereqs@.len(),
                i <= n_pre,
                pv == rule_views(prereqs@),
                prerequisite_ids@.len() == i,
                forall|k: int| 0 <= k < i ==> (#[trigger] prerequisite_ids@[k])@ == pv[k].id,
            decreases n_pre - i,
        {
            prerequisite_ids.push(prereqs[i].id.clone());
            i = i + 1;
        }
        proof {
            lemma_best_rule_held(self@, query.primary_pattern);
            assert forall|k: int| 0 <= k < pv.len() implies lookup(self@, (#[trigger] pv[k]).id) == Some(pv[k]) by {
                if query.resolve_prerequisites {
                    assert(held_and_distinct(self@, pv));
                }
            }
            assert(rules_of(self@, ids_of(pv)) =~= pv);
            if query.resolve_prerequisites {
                assert(pv.len() > 0);
                assert(string_views(prerequisite_ids@) =~= ids_of(pv).drop_last());
            } else {
                assert(string_views(prerequisite_ids@) =~= Seq::<Seq<char>>::empty());
            }
            assert(pv == resolved_chain(self@, best.id, query.resolve_prerequisites));
        }
        let ghost all = pv + seq![best] + chosen_rules(self@, query.secondary_patterns@);
        // the prerequisites, each once
        let mut chain = RuleChain::new();
        let mut j: usize = 0;
        while j < prereqs.len()
            invariant
                j <= prereqs@.len(),
                pv == rule_views(prereqs@),
                all == pv + seq![best] + chosen_rules(self@, query.secondary_patterns@),
                chain@ == add_unique(Seq::empty(), all.take(j as int)),
            decreases prereqs@.len() - j,
        {
            let pr = prereqs[j];
            proof {
                assert(all.take(j + 1) =~= all.take(j as int).push(pv[j as int]));
                lemma_add_unique_push(Seq::empty(), all.take(j as int), pv[j as int]);
            }
            if !holds_id(&chain, pr.id.as_str()) {
                chain.push(pr.copy());
            }
            j = j + 1;
        }
        // then the primary rule
        proof {
            assert(all.take(pv.len() as int + 1) =~= all.take(pv.len() as int).push(best));
            lemma_add_unique_push(Seq::empty(), all.take(pv.len() as int), best);
        }
        if !holds_id(&chain, primary_id.as_str()) {
            chain.push(primary.copy());
        }
        // then the rules of the secondary patterns
        let ghost base = pv + seq![best];
        proof {
            assert(all.take(pv.len() as int + 1) =~= base + chosen_rules(self@, query.secondary_patterns@.take(0)));
        }
        let mut k: usize = 0;
        while k < query.secondary_patterns.len()
            invariant
                k <= query.secondary_patterns@.len(),
                base == pv + seq![best],
                chain@ == add_unique(
                    Seq::empty(),
                    base + chosen_rules(self@, query.secondary_patterns@.take(k as int)),
                ),
            decreases query.secondary_patterns@.len() - k,
        {
            let ghost sp = query.secondary_patterns@;
            proof {
                assert(sp.take(k + 1).drop_last() =~= sp.take(k as int));
                assert(sp.take(k + 1).last() == sp[k as int]);
            }
            match self.find_best_rule(&query.secondary_patterns[k]) {
                Some(sr) => {
                    proof {
                        let before = base + chosen_rules(self@, sp.take(k as int));
                        assert(base + chosen_rules(self@, sp.take(k + 1)) =~= before.push(sr@));
                        lemma_add_unique_push(Seq::empty(), before, sr@);
                    }
                    if !holds_id(&chain, sr.id.as_str()) {
                        chain.push(sr.copy());
                    }
                },
                None => {
                    proof {
                        assert(base + chosen_rules(self@, sp.take(k + 1)) =~= base + chosen_rules(self@, sp.take(k as int)));
                    }
                },
            }
            k = k + 1;
        }
        proof {
            assert(query.secondary_patterns@.take(k as int) =~= query.secondary_patterns@);
        }
        let validated = chain.validate();
        Some(
            RetrievalResult {
                chain,
                primary_rule_id: primary_id,
                prerequisite_ids,
                validated,
                domain,
                tier,
            },
        )
    }
}

/// What `retrieve_for_pattern` returns for a pattern.
pub open spec fn pattern_retrieval(regs: Seq<RuleView>, p: PatternType, r: Option<RetrievalResult>) -> bool {
    &&& r is None <==> best_rule(regs, p) is None
    &&& r matches Some(res) ==> retrieval_of(regs, p, Seq::empty(), true, res)
}

/// Every rule reached from `id` is of tier at most `max`.
pub open spec fn reach_within(regs: Seq<RuleView>, id: Seq<char>, max: nat) -> bool {
    forall|x: Seq<char>| #[trigger] reaches(regs, id, x) ==> lookup(regs, x)->Some_0.tier() <= max
}

/// The pattern has a chosen rule, and it and every rule it reaches are of tier
/// at most `max`.
pub open spec fn solvable_within(regs: Seq<RuleView>, p: PatternType, max: nat) -> bool {
    best_rule(regs, p) matches Some(best) && best.tier() <= max && reach_within(regs, best.id, max)
}

/// `t` is the highest tier among the rules reached from `id`.
pub open spec fn reach_max_tier(regs: Seq<RuleView>, id: Seq<char>, t: nat) -> bool {
    &&& reach_within(regs, id, t)
    &&& exists|x: Seq<char>| #[trigger] reaches(regs, id, x) && lookup(regs, x)->Some_0.tier() == t
}

/// A chosen rule is a rule the library holds for its id.
pub proof fn lemma_best_rule_held(regs: Seq<RuleView>, p: PatternType)
    requires
        best_rule(regs, p) is Some,
    ensures
        has_id(regs, best_rule(regs, p)->Some_0.id),
        lookup(regs, best_rule(regs, p)->Some_0.id) == best_rule(regs, p),
{
    let cs = candidates(regs, p);
    let ids = pattern_ids(regs, p, regs.len() as int);
    lemma_best_index_bounds(cs);
    let k = best_index(cs);
    crate::rule_library::lemma_pattern_ids_held(regs, p, regs.len() as int);
    crate::rule_library::lemma_latest_index_props(regs, ids[k]);
    assert(has_id(regs, ids[k]));
    assert(cs[k] == lookup(regs, ids[k])->Some_0);
}

/// Adding the rules of a sequence without repeated ids to nothing gives the sequence.
proof fn lemma_add_unique_distinct(rs: Seq<RuleView>)
    requires
        forall|a: int, b: int| 0 <= a < b < rs.len() ==> (#[trigger] rs[a]).id != (#[trigger] rs[b]).id,
    ensures
        add_unique(Seq::empty(), rs) == rs,
    decreases rs.len(),
{
    if rs.len() > 0 {
        let r0 = rs.drop_last();
        assert forall|a: int, b: int| 0 <= a < b < r0.len() implies (#[trigger] r0[a]).id != (#[trigger] r0[b]).id by {
            assert(r0[a] == rs[a] && r0[b] == rs[b]);
        }
        lemma_add_unique_distinct(r0);
        if ids_of(r0).contains(rs.last().id) {
            let j = choose|j: int| 0 <= j < ids_of(r0).len() && ids_of(r0)[j] == rs.last().id;
            assert(rs[j] == r0[j]);
        }
        assert(r0.push(rs.last()) =~= rs);
    }
}

/// For a retrieval of a single pattern the chain is the resolved prerequisite
/// chain of the chosen rule: exactly the rules reached from it.
pub proof fn lemma_pattern_chain(regs: Seq<RuleView>, p: PatternType, res: RetrievalResult)
    requires
        retrieval_of(regs, p, Seq::empty(), true, res),
    ensures
        res.chain@ == resolved_chain(regs, best_rule(regs, p)->Some_0.id, true),
        held_and_distinct(regs, res.chain@),
        forall|x: Seq<char>|
            #![trigger ids_of(res.chain@).contains(x)]
            #![trigger reaches(regs, best_rule(regs, p)->Some_0.id, x)]
            ids_of(res.chain@).contains(x) <==> reaches(regs, best_rule(regs, p)->Some_0.id, x),
{
    let best = best_rule(regs, p)->Some_0;
    let pre = resolved_chain(regs, best.id, true);
    lemma_best_rule_held(regs, p);
    assert(chosen_rules(regs, Seq::<PatternType>::empty()) =~= Seq::<RuleView>::empty());
    let all = pre + seq![best] + chosen_rules(regs, Seq::<PatternType>::empty());
    assert(all =~= pre.push(best));
    lemma_add_unique_distinct(pre);
    lemma_add_unique_push(Seq::empty(), pre, best);
    assert(pre.last().id == best.id);
    assert(ids_of(pre)[pre.len() - 1] == best.id);
}

impl RetrievalEngine {
    /// Retrieves the chain for a pattern on its own, with its prerequisites.
    pub fn retrieve_for_pattern(&self, pattern: &PatternType) -> (r: Option<RetrievalResult>)
        ensures
            pattern_retrieval(self@, *pattern, r),
    {
        let rule = match self.find_best_rule(pattern) {
            Some(x) => x,
            None => {
                return None;
            },
        };
        let domain = rule.domain;
        let query = RetrievalQuery::simple(pattern.copy(), domain);
        self.retrieve(&query)
    }

    /// Retrieves the chain for a classification of an expression.
    pub fn retrieve_from_classification(
        &self,
        classification: &PatternClassification,
        ast: &AstNode,
    ) -> (r: Option<RetrievalResult>)
        ensures
            r is None <==> best_rule(self@, classification.pattern_type) is None,
            r matches Some(res) ==> retrieval_of(
                self@,
                classification.pattern_type,
                classification.secondary_patterns@,
                true,
                res,
            ),
    {
        let query = RetrievalQuery::from_classification(classification, ast);
        self.retrieve(&query)
    }

    /// Retrieves the chains for several patterns, in order.
    pub fn retrieve_batch(&self, patterns: &[PatternType]) -> (r: Vec<Option<RetrievalResult>>)
        ensures
            r@.len() == patterns@.len(),
            forall|i: int| 0 <= i < patterns@.len() ==> pattern_retrieval(self@, patterns@[i], #[trigger] r@[i]),
    {
        let mut out: Vec<Option<RetrievalResult>> = Vec::new();
        let mut i: usize = 0;
        while i < patterns.len()
            invariant
                i <= patterns@.len(),
                out@.len() == i,
                forall|k: int| 0 <= k < i ==> pattern_retrieval(self@, patterns@[k], #[trigger] out@[k]),
            decreases patterns@.len() - i,
        {
            let one = self.retrieve_for_pattern(&patterns[i]);
            out.push(one);
            i = i + 1;
        }
        out
    }

    /// The ids of the resolved prerequisite chain of a rule.
    pub fn dependency_graph(&self, rule_id: &str) -> (ids: Vec<String>)
        ensures
            string_views(ids@) == dfs_chain_ids(self@, rule_id@),
            resolves(self@, rule_id@, rules_of(self@, string_views(ids@))),
    {
        let chain = self.library.resolve_chain(rule_id);
        let ghost pv = rule_views(chain@);
        let mut ids: Vec<String> = Vec::new();
        let mut i: usize = 0;
        while i < chain.len()
            invariant
                i <= chain@.len(),
                pv == rule_views(chain@),
                ids@.len() == i,
                forall|k: int| 0 <= k < i ==> (#[trigger] ids@[k])@ == pv[k].id,
            decreases chain@.len() - i,
        {
            ids.push(chain[i].id.clone());
            i = i + 1;
        }
        proof {
            assert(string_views(ids@) =~= ids_of(pv));
            assert forall|k: int| 0 <= k < pv.len() implies lookup(self@, (#[trigger] pv[k]).id) == Some(pv[k]) by {
                assert(held_and_distinct(self@, pv));
            }
            assert(rules_of(self@, string_views(ids@)) =~= pv);
        }
        ids
    }

    /// Whether the pattern has a chosen rule whose chain, the rule with every
    /// rule it reaches through prerequisites, stays within tier `max_tier`.
    #[verifier::loop_isolation(false)]
    pub fn solvable_at_tier(&self, pattern: &PatternType, max_tier: u8) -> (b: bool)
        ensures
            b == solvable_within(self@, *pattern, max_tier as nat),
    {
        match self.retrieve_for_pattern(pattern) {
            None => false,
            Some(result) => {
                let ghost best = best_rule(self@, *pattern)->Some_0;
                proof {
                    lemma_pattern_chain(self@, *pattern, result);
                }
                if result.tier > max_tier {
                    return false;
                }
                let mut i: usize = 0;
                while i < result.chain.rules.len()
                    invariant
                        i <= result.chain.rules@.len(),
                        forall|k: int| 0 <= k < i ==> (#[trigger] result.chain@[k]).tier() <= max_tier,
                    decreases result.chain.rules@.len() - i,
                {
                    assert(result.chain.rules@[i as int]@ == result.chain@[i as int]);
                    if result.chain.rules[i].tier() > max_tier {
                        proof {
                            let x = result.chain@[i as int].id;
                            assert(ids_of(result.chain@)[i as int] == x);
                            assert(reaches(self@, best.id, x));
                            assert(lookup(self@, x) == Some(result.chain@[i as int]));
                        }
                        return false;
                    }
                    i = i + 1;
                }
                proof {
                    assert forall|x: Seq<char>| #[trigger] reaches(self@, best.id, x) implies lookup(
                        self@,
                        x,
                    )->Some_0.tier() <= max_tier by {
                        assert(ids_of(result.chain@).contains(x));
                        let k = choose|k: int| 0 <= k < ids_of(result.chain@).len() && ids_of(result.chain@)[k] == x;
                        assert(lookup(self@, result.chain@[k].id) == Some(result.chain@[k]));
                    }
                }
                true
            },
        }
    }

    /// The highest tier among the rules of the pattern's chain: the chosen
    /// rule and every rule it reaches through prerequisites.
    #[verifier::loop_isolation(false)]
    pub fn minimum_tier(&self, pattern: &PatternType) -> (t: Option<u8>)
        ensures
            t is None <==> best_rule(self@, *pattern) is None,
            t matches Some(m) ==> reach_max_tier(self@, best_rule(self@, *pattern)->Some_0.id, m as nat),
    {
        match self.retrieve_for_pattern(pattern) {
            None => None,
            Some(result) => {
                let ghost best = best_rule(self@, *pattern)->Some_0;
                proof {
                    lemma_pattern_chain(self@, *pattern, result);
                    lemma_best_rule_held(self@, *pattern);
                    crate::rule_library::lemma_reaches_refl(self@, best.id);
                    assert(ids_of(result.chain@).contains(best.id));
                }
                let mut m: u8 = 0;
                let mut i: usize = 0;
                while i < result.chain.rules.len()
                    invariant
                        i <= result.chain.rules@.len(),
                        forall|k: int| 0 <= k < i ==> (#[trigger] result.chain@[k]).tier() <= m,
                        i > 0 ==> exists|k: int| 0 <= k < i && (#[trigger] result.chain@[k]).tier() == m,
                    decreases result.chain.rules@.len() - i,
                {
                    let ti = result.chain.rules[i].tier();
                    assert(result.chain.rules@[i as int]@ == result.chain@[i as int]);
                    if i == 0 || ti > m {
                        m = ti;
                    }
                    assert(result.chain@[i as int].tier() <= m);
                    proof {
                        if ti == m {
                            assert(result.chain@[i as int].tier() == m);
                        }
                    }
                    i = i + 1;
                }
                proof {
                    let c = result.chain@;
                    assert(c.len() > 0) by {
                        let k = choose|k: int| 0 <= k < ids_of(c).len() && ids_of(c)[k] == best.id;
                    }
                    let k = choose|k: int| 0 <= k < i && (#[trigger] c[k]).tier() == m;
                    assert(ids_of(c)[k] == c[k].id);
                    assert(reaches(self@, best.id, c[k].id));
                    assert(lookup(self@, c[k].id) == Some(c[k]));
                    assert forall|x: Seq<char>| #[trigger] reaches(self@, best.id, x) implies lookup(
                        self@,
                        x,
                    )->Some_0.tier() <= m by {
                        assert(ids_of(c).contains(x));
                        let j = choose|j: int| 0 <= j < ids_of(c).len() && ids_of(c)[j] == x;
                        assert(lookup(self@, c[j].id) == Some(c[j]));
                    }
                }
                Some(m)
            },
        }
    }
}

/// Every prerequisite named by a rule of the library is itself in the library.
pub open spec fn prerequisites_held(regs: Seq<RuleView>) -> bool {
    forall|i: int, q: int|
        0 <= i < regs.len() && 0 <= q < regs[i].prerequisites.len() ==> has_id(
            regs,
            #[trigger] regs[i].prerequisites[q],
        )
}

/// In a library without prerequisite cycles whose prerequisites are all
/// held, the chain retrieved for a single pattern always validates: every
/// rule comes after all of its prerequisites.
pub proof fn law_retrieved_chain_validates(regs: Seq<RuleView>, p: PatternType, res: RetrievalResult)
    requires
        acyclic(regs),
        prerequisites_held(regs),
        retrieval_of(regs, p, Seq::empty(), true, res),
    ensures
        res.validated,
{
    lemma_pattern_chain(regs, p, res);
    let c = res.chain@;
    let best = best_rule(regs, p)->Some_0;
    let pre = resolved_chain(regs, best.id, true);
    assert(resolves(regs, best.id, pre));
    assert(prerequisites_first(regs, c));
    assert forall|k: int, q: int|
        0 <= k < c.len() && 0 <= q < c[k].prerequisites.len() implies ids_of(c.take(k)).contains(
            #[trigger] c[k].prerequisites[q],
        ) || is_core_id(c[k].prerequisites[q]) by {
        // the rule is held: it is some registration, whose prerequisites are held
        assert(lookup(regs, c[k].id) == Some(c[k]));
        crate::rule_library::lemma_latest_index_props(regs, c[k].id);
        let i = crate::rule_library::latest_index(regs, c[k].id);
        assert(regs[i] == c[k]);
        assert(has_id(regs, regs[i].prerequisites[q]));
        let j = choose|j: int| 0 <= j < k && (#[trigger] c[j]).id == c[k].prerequisites[q];
        assert(ids_of(c.take(k))[j] == c[j].id);
    }
}

/// Two retrievals agree on every field: the same chain, primary rule,
/// prerequisites, validation, domain and tier.
pub open spec fn same_retrieval(a: RetrievalResult, b: RetrievalResult) -> bool {
    &&& a.chain@ == b.chain@
    &&& a.primary_rule_id@ == b.primary_rule_id@
    &&& string_views(a.prerequisite_ids@) == string_views(b.prerequisite_ids@)
    &&& a.validated == b.validated
    &&& a.domain == b.domain
    &&& a.tier == b.tier
}

/// Retrieval is deterministic: any two retrievals of a pattern from the same
/// library agree, so a batch gives for each pattern what a single retrieval gives.
pub proof fn law_pattern_retrieval_deterministic(
    regs: Seq<RuleView>,
    p: PatternType,
    a: Option<RetrievalResult>,
    b: Option<RetrievalResult>,
)
    requires
        pattern_retrieval(regs, p, a),
        pattern_retrieval(regs, p, b),
    ensures
        a is Some <==> b is Some,
        a is Some ==> same_retrieval(a->Some_0, b->Some_0),
{
}

/// The chain retrieved for a single pattern is the dependency graph of its
/// primary rule: the depth-first prerequisite chain, ending with the primary
/// rule; the prerequisite ids are that chain without its last element.
pub proof fn law_retrieved_chain_is_dependency_graph(regs: Seq<RuleView>, p: PatternType, res: RetrievalResult)
    requires
        retrieval_of(regs, p, Seq::empty(), true, res),
    ensures
        ids_of(res.chain@) == dfs_chain_ids(regs, res.primary_rule_id@),
        res.chain@.len() > 0,
        res.chain@.last().id == res.primary_rule_id@,
        string_views(res.prerequisite_ids@) == ids_of(res.chain@).drop_last(),
{
    lemma_pattern_chain(regs, p, res);
    lemma_best_rule_held(regs, p);
    let best = best_rule(regs, p)->Some_0;
    assert(resolves(regs, best.id, resolved_chain(regs, best.id, true)));
}

/// A pattern is solvable within a tier exactly when it is retrieved and every
/// rule of its chain is of at most that tier.
pub proof fn law_solvable_iff_chain_within(regs: Seq<RuleView>, p: PatternType, r: Option<RetrievalResult>, max: nat)
    requires
        pattern_retrieval(regs, p, r),
    ensures
        solvable_within(regs, p, max) <==> (r matches Some(res) && forall|k: int|
            0 <= k < res.chain@.len() ==> (#[trigger] res.chain@[k]).tier() <= max),
{
    if r is Some {
        let res = r->Some_0;
        let c = res.chain@;
        let best = best_rule(regs, p)->Some_0;
        lemma_pattern_chain(regs, p, res);
        lemma_best_rule_held(regs, p);
        if solvable_within(regs, p, max) {
            assert forall|k: int| 0 <= k < c.len() implies (#[trigger] c[k]).tier() <= max by {
                assert(ids_of(c)[k] == c[k].id);
                assert(ids_of(c).contains(c[k].id));
                assert(reaches(regs, best.id, c[k].id));
                assert(lookup(regs, c[k].id) == Some(c[k]));
            }
        }
        if forall|k: int| 0 <= k < c.len() ==> (#[trigger] c[k]).tier() <= max {
            crate::rule_library::lemma_reaches_refl(regs, best.id);
            assert forall|x: Seq<char>| #[trigger] reaches(regs, best.id, x) implies lookup(
                regs,
                x,
            )->Some_0.tier() <= max by {
                assert(ids_of(c).contains(x));
                let j = choose|j: int| 0 <= j < ids_of(c).len() && ids_of(c)[j] == x;
                assert(lookup(regs, c[j].id) == Some(c[j]));
            }
            assert(lookup(regs, best.id)->Some_0.tier() <= max);
        }
    }
}

/// The tier that `minimum_tier` gives is the least tier within which the
/// pattern is solvable.
pub proof fn law_minimum_tier_is_least(regs: Seq<RuleView>, p: PatternType, m: nat)
    requires
        best_rule(regs, p) is Some,
        reach_max_tier(regs, best_rule(regs, p)->Some_0.id, m),
    ensures
        forall|t: nat| #[trigger] solvable_within(regs, p, t) <==> m <= t,
{
    let best = best_rule(regs, p)->Some_0;
    lemma_best_rule_held(regs, p);
    crate::rule_library::lemma_reaches_refl(regs, best.id);
    assert(best.tier() <= m);
    let x = choose|x: Seq<char>| #[trigger] reaches(regs, best.id, x) && lookup(regs, x)->Some_0.tier() == m;
    assert forall|t: nat| #[trigger] solvable_within(regs, p, t) <==> m <= t by {
        if m <= t {
            assert forall|y: Seq<char>| #[trigger] reaches(regs, best.id, y) implies lookup(regs, y)->Some_0.tier()
                <= t by {
                assert(reach_within(regs, best.id, m));
            }
        }
        if solvable_within(regs, p, t) {
            assert(reaches(regs, best.id, x));
        }
    }
}

/// A pattern is retrieved exactly when the library has rules for it.
pub proof fn law_retrieved_iff_served(regs: Seq<RuleView>, p: PatternType, r: Option<RetrievalResult>)
    requires
        pattern_retrieval(regs, p, r),
    ensures
        r is Some <==> by_specificity(pattern_rules_of(regs, p)).len() > 0,
{
    crate::rule_library::lemma_by_specificity_sorted(pattern_rules_of(regs, p));
    assert(candidates(regs, p) == pattern_rules_of(regs, p));
}

} // verus!
