//! Facts about the built-in rule library, checked rule by rule: the ids are
//! distinct, every prerequisite names an earlier rule, so the prerequisite
//! relation has no cycle and every prerequisite is held.
use vstd::prelude::*;
use crate::pattern_engine::{pattern_of, AstView};
use crate::retrieval::{
    best_rule, law_retrieved_chain_is_dependency_graph, law_retrieved_chain_validates, lemma_best_rule_held,
    lemma_pattern_chain, max_tier, prerequisites_held, retrieval_of, RetrievalResult,
};
use crate::rule_library::{
    acyclic, builtin_library, is_prereq_path, reaches, builtin_tier0, builtin_tier1, builtin_tier2, builtin_tier3, builtin_tier4,
    builtin_tier5, builtin_tier6, builtin_tier7, builtin_tier8, builtin_tier9, has_id, latest_index, lookup,
    ranked_by, at_least_as_specific, by_specificity, count_matching, dfs_chain_ids, ids_of, insert_by_specificity,
    pattern_ids, pattern_rules_of, Domain, PatternType, RuleView,
};

verus! {

// ============================================================================
// ORDERED LIBRARIES
// ============================================================================

/// Some registration before `a` carries the id `p`.
pub open spec fn named_before(regs: Seq<RuleView>, a: int, p: Seq<char>) -> bool {
    exists|j: int| 0 <= j < a && (#[trigger] regs[j]).id == p
}

/// No two registrations carry the same id.
pub open spec fn distinct_ids(regs: Seq<RuleView>) -> bool {
    forall|a: int, b: int| 0 <= a < b < regs.len() ==> (#[trigger] regs[a]).id != (#[trigger] regs[b]).id
}

/// Every prerequisite of every registration names an earlier registration.
pub open spec fn prerequisites_earlier(regs: Seq<RuleView>) -> bool {
    forall|a: int, q: int|
        0 <= a < regs.len() && 0 <= q < regs[a].prerequisites.len() ==> #[trigger] named_before(
            regs,
            a,
            regs[a].prerequisites[q],
        )
}

/// Where an id was registered last, as a rank.
pub open spec fn registration_rank(regs: Seq<RuleView>, id: Seq<char>) -> nat {
    if latest_index(regs, id) >= 0 {
        latest_index(regs, id) as nat
    } else {
        0
    }
}

/// In a library with distinct ids whose prerequisites all name earlier
/// registrations, a held prerequisite of a held rule was registered before it.
proof fn lemma_prerequisite_rank(regs: Seq<RuleView>, id: Seq<char>, q: int)
    requires
        distinct_ids(regs),
        prerequisites_earlier(regs),
        lookup(regs, id) is Some,
        0 <= q < lookup(regs, id)->Some_0.prerequisites.len(),
    ensures
        has_id(regs, lookup(regs, id)->Some_0.prerequisites[q]),
        registration_rank(regs, lookup(regs, id)->Some_0.prerequisites[q]) < registration_rank(regs, id),
        latest_index(regs, lookup(regs, id)->Some_0.prerequisites[q]) >= 0,
{
    crate::rule_library::lemma_latest_index_props(regs, id);
    let l = latest_index(regs, id);
    let p = regs[l].prerequisites[q];
    assert(named_before(regs, l, p));
    let j = choose|j: int| 0 <= j < l && (#[trigger] regs[j]).id == p;
    crate::rule_library::lemma_latest_index_props(regs, p);
    let lp = latest_index(regs, p);
    if lp != j {
        assert(regs[lp].id == regs[j].id);
    }
}

/// In a library with distinct ids whose prerequisites all name earlier
/// registrations, the prerequisite relation has no cycle (each prerequisite
/// was registered before the rule that names it) and every prerequisite is held.
pub proof fn lemma_ordered_library(regs: Seq<RuleView>)
    requires
        distinct_ids(regs),
        prerequisites_earlier(regs),
    ensures
        acyclic(regs),
        prerequisites_held(regs),
{
    let rank = |id: Seq<char>| registration_rank(regs, id);
    assert forall|id: Seq<char>, q: int|
        #![trigger lookup(regs, id), rank(id), has_id(regs, lookup(regs, id)->Some_0.prerequisites[q])]
        lookup(regs, id) is Some && 0 <= q < lookup(regs, id)->Some_0.prerequisites.len() && has_id(
            regs,
            lookup(regs, id)->Some_0.prerequisites[q],
        ) implies rank(lookup(regs, id)->Some_0.prerequisites[q]) < rank(id) by {
        lemma_prerequisite_rank(regs, id, q);
    }
    assert(ranked_by(regs, rank));
    assert forall|i: int, q: int|
        0 <= i < regs.len() && 0 <= q < regs[i].prerequisites.len() implies has_id(
            regs,
            #[trigger] regs[i].prerequisites[q],
        ) by {
        assert(named_before(regs, i, regs[i].prerequisites[q]));
    }
}

/// Along a prerequisite path, each id was registered no later than the first.
proof fn lemma_path_rank(regs: Seq<RuleView>, path: Seq<Seq<char>>, k: int)
    requires
        distinct_ids(regs),
        prerequisites_earlier(regs),
        is_prereq_path(regs, path),
        0 <= k < path.len(),
    ensures
        registration_rank(regs, path[k]) <= registration_rank(regs, path[0]),
    decreases k,
{
    if k > 0 {
        lemma_path_rank(regs, path, k - 1);
        let id = path[k - 1];
        assert(has_id(regs, id));
        crate::rule_library::lemma_latest_index_props(regs, id);
        assert(lookup(regs, id) is Some);
        let ps = lookup(regs, id)->Some_0.prerequisites;
        assert(ps.contains(path[k]));
        let q = choose|q: int| 0 <= q < ps.len() && ps[q] == path[k];
        lemma_prerequisite_rank(regs, id, q);
    }
}

// ============================================================================
// THE BUILT-IN LIBRARY
// ============================================================================

/// A number that tells the built-in rule ids apart, made of the length and
/// the first, sixth, last and second-to-last characters.
pub open spec fn id_code(s: Seq<char>) -> int {
    (((s.len() as int * 128 + s[0] as int) * 128 + s[5] as int) * 128 + s[s.len() - 1] as int) * 128
        + s[s.len() - 2] as int
}

/// The tier of the built-in registration at `a`: the tiers are registered in
/// order, with 4, 7, 6, 18, 13, 15, 8, 14, 12 and 14 rules.
pub open spec fn slot_tier(a: int) -> nat {
    if a < 4 {
        0
    } else if a < 11 {
        1
    } else if a < 17 {
        2
    } else if a < 35 {
        3
    } else if a < 48 {
        4
    } else if a < 63 {
        5
    } else if a < 71 {
        6
    } else if a < 85 {
        7
    } else if a < 97 {
        8
    } else {
        9
    }
}

/// The domain that classification gives a pattern, for the patterns it names.
pub open spec fn classified_domain(p: PatternType) -> Option<Domain> {
    match p {
        PatternType::TrigEvaluation => Some(Domain::Trigonometry),
        PatternType::InverseTrig => Some(Domain::Trigonometry),
        PatternType::Logarithm => Some(Domain::AdvancedAlgebra),
        PatternType::SquareRoot => Some(Domain::PreAlgebra),
        PatternType::NthRoot => Some(Domain::PreAlgebra),
        PatternType::AbsoluteValue => Some(Domain::PreAlgebra),
        PatternType::GCD => Some(Domain::PreAlgebra),
        PatternType::LCM => Some(Domain::PreAlgebra),
        PatternType::ModularArithmetic => Some(Domain::AbstractApplied),
        PatternType::LinearInequalitySolve => Some(Domain::Algebra),
        PatternType::QuadraticEquationSolve => Some(Domain::Algebra),
        PatternType::LinearEquationSolve => Some(Domain::Algebra),
        PatternType::LikeTermsCombination => Some(Domain::Algebra),
        PatternType::PolynomialMultiplication => Some(Domain::Algebra),
        PatternType::ExponentEvaluation => Some(Domain::PreAlgebra),
        PatternType::VariableSubstitution => Some(Domain::Algebra),
        PatternType::FractionAddition => Some(Domain::PreAlgebra),
        PatternType::FractionSubtraction => Some(Domain::PreAlgebra),
        PatternType::FractionMultiplication => Some(Domain::PreAlgebra),
        PatternType::FractionDivision => Some(Domain::PreAlgebra),
        PatternType::FractionSimplification => Some(Domain::PreAlgebra),
        PatternType::SingleDigitAddition => Some(Domain::CoreArithmetic),
        PatternType::SingleDigitSubtraction => Some(Domain::CoreArithmetic),
        PatternType::SingleDigitMultiplication => Some(Domain::CoreArithmetic),
        PatternType::SingleDigitDivision => Some(Domain::CoreArithmetic),
        PatternType::Permutation => Some(Domain::AbstractApplied),
        PatternType::MultiDigitAddition => Some(Domain::ExtendedArithmetic),
        PatternType::MultiDigitSubtraction => Some(Domain::ExtendedArithmetic),
        PatternType::MultiDigitMultiplication => Some(Domain::ExtendedArithmetic),
        PatternType::MultiDigitDivision => Some(Domain::ExtendedArithmetic),
        _ => None,
    }
}

/// A pattern of the rule `r` that classification names has the rule's domain.
pub open spec fn homed(r: RuleView, p: PatternType) -> bool {
    classified_domain(p) is Some ==> classified_domain(p)->Some_0 == r.domain
}

/// Registration `a` is where the code of its id points, has the tier of its
/// slot, each pattern of it that classification names has its domain, and
/// each of its prerequisites names an earlier registration.
pub open spec fn checked_at(regs: Seq<RuleView>, a: int) -> bool {
    &&& builtin_slot(id_code(regs[a].id)) == a
    &&& regs[a].tier() == slot_tier(a)
    &&& forall|m: int| 0 <= m < regs[a].patterns.len() ==> #[trigger] homed(regs[a], regs[a].patterns[m])
    &&& forall|q: int|
        0 <= q < regs[a].prerequisites.len() ==> #[trigger] named_before(regs, a, regs[a].prerequisites[q])
}

/// The registration index of the built-in rule whose id has the code `c`, or -1.
pub open spec fn builtin_slot(c: int) -> int {
    if c == 2356703844 {
        0
    } else if c == 2356998517 {
        1
    } else if c == 2356901493 {
        2
    } else if c == 2356755305 {
        3
    } else if c == 2092511844 {
        4
    } else if c == 2092790133 {
        5
    } else if c == 2092791413 {
        6
    } else if c == 2092596073 {
        7
    } else if c == 3703141107 {
        8
    } else if c == 3166434035 {
        9
    } else if c == 4508662256 {
        10
    } else if c == 4531483382 {
        11
    } else if c == 4531450614 {
        12
    } else if c == 4799935222 {
        13
    } else if c == 3189356911 {
        14
    } else if c == 3726277876 {
        15
    } else if c == 3457839859 {
        16
    } else if c == 2115564131 {
        17
    } else if c == 2115565283 {
        18
    } else if c == 4531730799 {
        19
    } else if c == 4800167142 {
        20
    } else if c == 3457987172 {
        21
    } else if c == 3457986933 {
        22
    } else if c == 3457988213 {
        23
    } else if c == 3457989481 {
        24
    } else if c == 3189339745 {
        25
    } else if c == 3189340782 {
        26
    } else if c == 3458087534 {
        27
    } else if c == 5068700133 {
        28
    } else if c == 2384231026 {
        29
    } else if c == 3458021999 {
        30
    } else if c == 2115549666 {
        31
    } else if c == 4531484527 {
        32
    } else if c == 2652403689 {
        33
    } else if c == 3994859375 {
        34
    } else if c == 3963450100 {
        35
    } else if c == 3963255277 {
        36
    } else if c == 4500124406 {
        37
    } else if c == 5842304244 {
        38
    } else if c == 5305627382 {
        39
    } else if c == 3426480740 {
        40
    } else if c == 3426481781 {
        41
    } else if c == 3426483049 {
        42
    } else if c == 2889382255 {
        43
    } else if c == 3695015521 {
        44
    } else if c == 4500321011 {
        45
    } else if c == 2621125360 {
        46
    } else if c == 4500222695 {
        47
    } else if c == 4500386550 {
        48
    } else if c == 3157815908 {
        49
    } else if c == 3157816949 {
        50
    } else if c == 3157817957 {
        51
    } else if c == 3157818222 {
        52
    } else if c == 4231787108 {
        53
    } else if c == 4231788149 {
        54
    } else if c == 4500223342 {
        55
    } else if c == 4231787119 {
        56
    } else if c == 3694967013 {
        57
    } else if c == 3426318565 {
        58
    } else if c == 2889447909 {
        59
    } else if c == 2084303855 {
        60
    } else if c == 3694918117 {
        61
    } else if c == 4500371311 {
        62
    } else if c == 2660857441 {
        63
    } else if c == 3734666484 {
        64
    } else if c == 3466228467 {
        65
    } else if c == 4540166892 {
        66
    } else if c == 4003150309 {
        67
    } else if c == 4540021221 {
        68
    } else if c == 3734829285 {
        69
    } else if c == 4271651427 {
        70
    } else if c == 2893757033 {
        71
    } else if c == 4504236521 {
        72
    } else if c == 4504237929 {
        73
    } else if c == 5041109603 {
        74
    } else if c == 5309545070 {
        75
    } else if c == 5309624809 {
        76
    } else if c == 5041189237 {
        77
    } else if c == 5309626868 {
        78
    } else if c == 6114850401 {
        79
    } else if c == 4504484718 {
        80
    } else if c == 3162323311 {
        81
    } else if c == 3430496485 {
        82
    } else if c == 5041306473 {
        83
    } else if c == 5309691489 {
        84
    } else if c == 2912481892 {
        85
    } else if c == 3986504291 {
        86
    } else if c == 4523293283 {
        87
    } else if c == 3180918514 {
        88
    } else if c == 3449320179 {
        89
    } else if c == 3717853941 {
        90
    } else if c == 3986291055 {
        91
    } else if c == 5328582386 {
        92
    } else if c == 4523373299 {
        93
    } else if c == 3986225763 {
        94
    } else if c == 4254628452 {
        95
    } else if c == 4254842100 {
        96
    } else if c == 3694916724 {
        97
    } else if c == 4231624559 {
        98
    } else if c == 4231788399 {
        99
    } else if c == 3963400681 {
        100
    } else if c == 3694965358 {
        101
    } else if c == 2620946917 {
        102
    } else if c == 4500371041 {
        103
    } else if c == 3426251491 {
        104
    } else if c == 3158129509 {
        105
    } else if c == 4231789171 {
        106
    } else if c == 3426646643 {
        107
    } else if c == 3694966116 {
        108
    } else if c == 4768543860 {
        109
    } else if c == 3426497274 {
        110
    } else {
        -1
    }
}

/// The lengths of the tiers, and where each registration of the built-in library comes from.
proof fn lemma_builtin_tiers()
    ensures
        builtin_tier0().len() == 4,
        builtin_tier1().len() == 7,
        builtin_tier2().len() == 6,
        builtin_tier3().len() == 18,
        builtin_tier4().len() == 13,
        builtin_tier5().len() == 15,
        builtin_tier6().len() == 8,
        builtin_tier7().len() == 14,
        builtin_tier8().len() == 12,
        builtin_tier9().len() == 14,
        builtin_library().len() == 111,
        forall|a: int| 0 <= a < 4 ==> #[trigger] builtin_library()[a] == builtin_tier0()[a - 0],
        forall|a: int| 4 <= a < 11 ==> #[trigger] builtin_library()[a] == builtin_tier1()[a - 4],
        forall|a: int| 11 <= a < 17 ==> #[trigger] builtin_library()[a] == builtin_tier2()[a - 11],
        forall|a: int| 17 <= a < 35 ==> #[trigger] builtin_library()[a] == builtin_tier3()[a - 17],
        forall|a: int| 35 <= a < 48 ==> #[trigger] builtin_library()[a] == builtin_tier4()[a - 35],
        forall|a: int| 48 <= a < 63 ==> #[trigger] builtin_library()[a] == builtin_tier5()[a - 48],
        forall|a: int| 63 <= a < 71 ==> #[trigger] builtin_library()[a] == builtin_tier6()[a - 63],
        forall|a: int| 71 <= a < 85 ==> #[trigger] builtin_library()[a] == builtin_tier7()[a - 71],
        forall|a: int| 85 <= a < 97 ==> #[trigger] builtin_library()[a] == builtin_tier8()[a - 85],
        forall|a: int| 97 <= a < 111 ==> #[trigger] builtin_library()[a] == builtin_tier9()[a - 97],
{
}

/// The rules of tier 0 pass the per-rule checks.
proof fn lemma_tier0_checked()
    ensures
        forall|a: int| 0 <= a < 4 ==> #[trigger] checked_at(builtin_library(), a),
{
    let r = builtin_library();
    lemma_builtin_tiers();
    assert forall|a: int| 0 <= a < 4 implies #[trigger] checked_at(r, a) by {
        if a == 0 {
            reveal_strlit("core.add");
            assert(r[0] == builtin_tier0()[0]);
            assert forall|m: int| 0 <= m < r[0].patterns.len() implies #[trigger] homed(r[0], r[0].patterns[m]) by {
                if m == 0 {
                }
            }
        } else if a == 1 {
            reveal_strlit("core.sub");
            assert(r[1] == builtin_tier0()[1]);
            assert forall|m: int| 0 <= m < r[1].patterns.len() implies #[trigger] homed(r[1], r[1].patterns[m]) by {
                if m == 0 {
                }
            }
        } else if a == 2 {
            reveal_strlit("core.mul");
            assert(r[2] == builtin_tier0()[2]);
            assert forall|m: int| 0 <= m < r[2].patterns.len() implies #[trigger] homed(r[2], r[2].patterns[m]) by {
                if m == 0 {
                }
            }
        } else if a == 3 {
            reveal_strlit("core.div");
            assert(r[3] == builtin_tier0()[3]);
            assert forall|m: int| 0 <= m < r[3].patterns.len() implies #[trigger] homed(r[3], r[3].patterns[m]) by {
                if m == 0 {
                }
            }
        }
    }
}

/// The rules of tier 1 pass the per-rule checks.
proof fn lemma_tier1_checked()
    ensures
        forall|a: int| 4 <= a < 11 ==> #[trigger] checked_at(builtin_library(), a),
{
    let r = builtin_library();
    lemma_builtin_tiers();
    assert forall|a: int| 4 <= a < 11 implies #[trigger] checked_at(r, a) by {
        if a == 4 {
            reveal_strlit("ext.add");
            assert(r[4] == builtin_tier1()[0]);
            assert forall|m: int| 0 <= m < r[4].patterns.len() implies #[trigger] homed(r[4], r[4].patterns[m]) by {
                if m == 0 {
                }
            }
            assert forall|q: int| 0 <= q < r[4].prerequisites.len() implies #[trigger] named_before(
                r,
                4,
                r[4].prerequisites[q],
            ) by {
                if q == 0 {
                    assert(r[0] == builtin_tier0()[0]);
                    assert(r[0].id == r[4].prerequisites[0]);
                }
            }
        } else if a == 5 {
            reveal_strlit("ext.sub");
            assert(r[5] == builtin_tier1()[1]);
            assert forall|m: int| 0 <= m < r[5].patterns.len() implies #[trigger] homed(r[5], r[5].patterns[m]) by {
                if m == 0 {
                }
            }
            assert forall|q: int| 0 <= q < r[5].prerequisites.len() implies #[trigger] named_before(
                r,
                5,
                r[5].prerequisites[q],
            ) by {
                if q == 0 {
                    assert(r[1] == builtin_tier0()[1]);
                    assert(r[1].id == r[5].prerequisites[0]);
                } else if q == 1 {
                    assert(r[0] == builtin_tier0()[0]);
                    assert(r[0].id == r[5].prerequisites[1]);
                }
            }
        } else if a == 6 {
            reveal_strlit("ext.mul");
            assert(r[6] == builtin_tier1()[2]);
            assert forall|m: int| 0 <= m < r[6].patterns.len() implies #[trigger] homed(r[6], r[6].patterns[m]) by {
                if m == 0 {
                }
            }
            assert forall|q: int| 0 <= q < r[6].prerequisites.len() implies #[trigger] named_before(
                r,
                6,
                r[6].prerequisites[q],
            ) by {
                if q == 0 {
                    assert(r[2] == builtin_tier0()[2]);
                    assert(r[2].id == r[6].prerequisites[0]);
                } else if q == 1 {
                    assert(r[4] == builtin_tier1()[0]);
                    assert(r[4].id == r[6].prerequisites[1]);
                }
            }
        } else if a == 7 {
            reveal_strlit("ext.div");
            assert(r[7] == builtin_tier1()[3]);
            assert forall|m: int| 0 <= m < r[7].patterns.len() implies #[trigger] homed(r[7], r[7].patterns[m]) by {
                if m == 0 {
                }
            }
            assert forall|q: int| 0 <= q < r[7].prerequisites.len() implies #[trigger] named_before(
                r,
                7,
                r[7].prerequisites[q],
            ) by {
                if q == 0 {
                    assert(r[3] == builtin_tier0()[3]);
                    assert(r[3].id == r[7].prerequisites[0]);
                } else if q == 1 {
                    assert(r[6] == builtin_tier1()[2]);
                    assert(r[6].id == r[7].prerequisites[1]);
                } else if q == 2 {
                    assert(r[5] == builtin_tier1()[1]);
                    assert(r[5].id == r[7].prerequisites[2]);
                }
            }
        } else if a == 8 {
            reveal_strlit("ext.decompose");
            assert(r[8] == builtin_tier1()[4]);
            assert forall|m: int| 0 <= m < r[8].patterns.len() implies #[trigger] homed(r[8], r[8].patterns[m]) by {
                if m == 0 {
                }
            }
        } else if a == 9 {
            reveal_strlit("ext.compose");
            assert(r[9] == builtin_tier1()[5]);
            assert forall|m: int| 0 <= m < r[9].patterns.len() implies #[trigger] homed(r[9], r[9].patterns[m]) by {
                if m == 0 {
                }
            }
            assert forall|q: int| 0 <= q < r[9].prerequisites.len() implies #[trigger] named_before(
                r,
                9,
                r[9].prerequisites[q],
            ) by {
                if q == 0 {
                    assert(r[2] == builtin_tier0()[2]);
                    assert(r[2].id == r[9].prerequisites[0]);
                } else if q == 1 {
                    assert(r[0] == builtin_tier0()[0]);
                    assert(r[0].id == r[9].prerequisites[1]);
                }
            }
        } else if a == 10 {
            reveal_strlit("ext.order_of_ops");
            assert(r[10] == builtin_tier1()[6]);
            assert forall|m: int| 0 <= m < r[10].patterns.len() implies #[trigger] homed(r[10], r[10].patterns[m]) by {
                if m == 0 {
                }
            }
            assert forall|q: int| 0 <= q < r[10].prerequisites.len() implies #[trigger] named_before(
                r,
                10,
                r[10].prerequisites[q],
            ) by {
                if q == 0 {
                    assert(r[0] == builtin_tier0()[0]);
                    assert(r[0].id == r[10].prerequisites[0]);
                } else if q == 1 {
                    assert(r[1] == builtin_tier0()[1]);
                    assert(r[1].id == r[10].prerequisites[1]);
                } else if q == 2 {
                    assert(r[2] == builtin_tier0()[2]);
                    assert(r[2].id == r[10].prerequisites[2]);
                } else if q == 3 {
                    assert(r[3] == builtin_tier0()[3]);
                    assert(r[3].id == r[10].prerequisites[3]);
                }
            }
        }
    }
}

/// The rules of tier 2 pass the per-rule checks.
proof fn lemma_tier2_checked()
    ensures
        forall|a: int| 11 <= a < 17 ==> #[trigger] checked_at(builtin_library(), a),
{
    let r = builtin_library();
    lemma_builtin_tiers();
    assert forall|a: int| 11 <= a < 17 implies #[trigger] checked_at(r, a) by {
        if a == 11 {
            reveal_strlit("prop.commutative");
            assert(r[11] == builtin_tier2()[0]);
            assert forall|m: int| 0 <= m < r[11].patterns.len() implies #[trigger] homed(r[11], r[11].patterns[m]) by {
                if m == 0 {
                }
            }
            assert forall|q: int| 0 <= q < r[11].prerequisites.len() implies #[trigger] named_before(
                r,
                11,
                r[11].prerequisites[q],
            ) by {
                if q == 0 {
                    assert(r[0] == builtin_tier0()[0]);
                    assert(r[0].id == r[11].prerequisites[0]);
                } else if q == 1 {
                    assert(r[2] == builtin_tier0()[2]);
                    assert(r[2].id == r[11].prerequisites[1]);
                }
            }
        } else if a == 12 {
            reveal_strlit("prop.associative");
            assert(r[12] == builtin_tier2()[1]);
            assert forall|m: int| 0 <= m < r[12].patterns.len() implies #[trigger] homed(r[12], r[12].patterns[m]) by {
                if m == 0 {
                }
            }
            assert forall|q: int| 0 <= q < r[12].prerequisites.len() implies #[trigger] named_before(
                r,
                12,
                r[12].prerequisites[q],
            ) by {
                if q == 0 {
                    assert(r[0] == builtin_tier0()[0]);
                    assert(r[0].id == r[12].prerequisites[0]);
                } else if q == 1 {
                    assert(r[2] == builtin_tier0()[2]);
                    assert(r[2].id == r[12].prerequisites[1]);
                }
            }
        } else if a == 13 {
            reveal_strlit("prop.distributive");
            assert(r[13] == builtin_tier2()[2]);
            assert forall|m: int| 0 <= m < r[13].patterns.len() implies #[trigger] homed(r[13], r[13].patterns[m]) by {
                if m == 0 {
                }
            }
            assert forall|q: int| 0 <= q < r[13].prerequisites.len() implies #[trigger] named_before(
                r,
                13,
                r[13].prerequisites[q],
            ) by {
                if q == 0 {
                    assert(r[2] == builtin_tier0()[2]);
                    assert(r[2].id == r[13].prerequisites[0]);
                } else if q == 1 {
                    assert(r[0] == builtin_tier0()[0]);
                    assert(r[0].id == r[13].prerequisites[1]);
                }
            }
        } else if a == 14 {
            reveal_strlit("prop.factor");
            assert(r[14] == builtin_tier2()[3]);
            assert forall|m: int| 0 <= m < r[14].patterns.len() implies #[trigger] homed(r[14], r[14].patterns[m]) by {
                if m == 0 {
                }
            }
            assert forall|q: int| 0 <= q < r[14].prerequisites.len() implies #[trigger] named_before(
                r,
                14,
                r[14].prerequisites[q],
            ) by {
                if q == 0 {
                    assert(r[2] == builtin_tier0()[2]);
                    assert(r[2].id == r[14].prerequisites[0]);
                } else if q == 1 {
                    assert(r[0] == builtin_tier0()[0]);
                    assert(r[0].id == r[14].prerequisites[1]);
                } else if q == 2 {
                    assert(r[3] == builtin_tier0()[3]);
                    assert(r[3].id == r[14].prerequisites[2]);
                }
            }
        } else if a == 15 {
            reveal_strlit("prop.identity");
            assert(r[15] == builtin_tier2()[4]);
            assert forall|m: int| 0 <= m < r[15].patterns.len() implies #[trigger] homed(r[15], r[15].patterns[m]) by {
                if m == 0 {
                }
            }
            assert forall|q: int| 0 <= q < r[15].prerequisites.len() implies #[trigger] named_before(
                r,
                15,
                r[15].prerequisites[q],
            ) by {
                if q == 0 {
                    assert(r[0] == builtin_tier0()[0]);
                    assert(r[0].id == r[15].prerequisites[0]);
                } else if q == 1 {
                    assert(r[2] == builtin_tier0()[2]);
                    assert(r[2].id == r[15].prerequisites[1]);
                }
            }
        } else if a == 16 {
            reveal_strlit("prop.inverse");
            assert(r[16] == builtin_tier2()[5]);
            assert forall|m: int| 0 <= m < r[16].patterns.len() implies #[trigger] homed(r[16], r[16].patterns[m]) by {
                if m == 0 {
                }
            }
            assert forall|q: int| 0 <= q < r[16].prerequisites.len() implies #[trigger] named_before(
                r,
                16,
                r[16].prerequisites[q],
            ) by {
                if q == 0 {
                    assert(r[0] == builtin_tier0()[0]);
                    assert(r[0].id == r[16].prerequisites[0]);
                } else if q == 1 {
                    assert(r[2] == builtin_tier0()[2]);
                    assert(r[2].id == r[16].prerequisites[1]);
                } else if q == 2 {
                    assert(r[1] == builtin_tier0()[1]);
                    assert(r[1].id == r[16].prerequisites[2]);
                } else if q == 3 {
                    assert(r[3] == builtin_tier0()[3]);
                    assert(r[3].id == r[16].prerequisites[3]);
                }
            }
        }
    }
}

/// The rules of tier 3 pass the per-rule checks.
proof fn lemma_tier3_checked()
    ensures
        forall|a: int| 17 <= a < 35 ==> #[trigger] checked_at(builtin_library(), a),
{
    let r = builtin_library();
    lemma_builtin_tiers();
    assert forall|a: int| 17 <= a < 35 implies #[trigger] checked_at(r, a) by {
        if a == 17 {
            reveal_strlit("pre.gcd");
            assert(r[17] == builtin_tier3()[0]);
            assert forall|m: int| 0 <= m < r[17].patterns.len() implies #[trigger] homed(r[17], r[17].patterns[m]) by {
                if m == 0 {
                }
            }
            assert forall|q: int| 0 <= q < r[17].prerequisites.len() implies #[trigger] named_before(
                r,
                17,
                r[17].prerequisites[q],
            ) by {
                if q == 0 {
                    assert(r[7] == builtin_tier1()[3]);
                    assert(r[7].id == r[17].prerequisites[0]);
                }
            }
        } else if a == 18 {
            reveal_strlit("pre.lcm");
            assert(r[18] == builtin_tier3()[1]);
            assert forall|m: int| 0 <= m < r[18].patterns.len() implies #[trigger] homed(r[18], r[18].patterns[m]) by {
                if m == 0 {
                }
            }
            assert forall|q: int| 0 <= q < r[18].prerequisites.len() implies #[trigger] named_before(
                r,
                18,
                r[18].prerequisites[q],
            ) by {
                if q == 0 {
                    assert(r[17] == builtin_tier3()[0]);
                    assert(r[17].id == r[18].prerequisites[0]);
                } else if q == 1 {
                    assert(r[6] == builtin_tier1()[2]);
                    assert(r[6].id == r[18].prerequisites[1]);
                } else if q == 2 {
                    assert(r[7] == builtin_tier1()[3]);
                    assert(r[7].id == r[18].prerequisites[2]);
                }
            }
        } else if a == 19 {
            reveal_strlit("pre.prime_factor");
            assert(r[19] == builtin_tier3()[2]);
            assert forall|m: int| 0 <= m < r[19].patterns.len() implies #[trigger] homed(r[19], r[19].patterns[m]) by {
                if m == 0 {
                }
            }
            assert forall|q: int| 0 <= q < r[19].prerequisites.len() implies #[trigger] named_before(
                r,
                19,
                r[19].prerequisites[q],
            ) by {
                if q == 0 {
                    assert(r[7] == builtin_tier1()[3]);
                    assert(r[7].id == r[19].prerequisites[0]);
                }
            }
        } else if a == 20 {
            reveal_strlit("pre.frac_simplify");
            assert(r[20] == builtin_tier3()[3]);
            assert forall|m: int| 0 <= m < r[20].patterns.len() implies #[trigger] homed(r[20], r[20].patterns[m]) by {
                if m == 0 {
                }
            }
            assert forall|q: int| 0 <= q < r[20].prerequisites.len() implies #[trigger] named_before(
                r,
                20,
                r[20].prerequisites[q],
            ) by {
                if q == 0 {
                    assert(r[17] == builtin_tier3()[0]);
                    assert(r[17].id == r[20].prerequisites[0]);
                } else if q == 1 {
                    assert(r[7] == builtin_tier1()[3]);
                    assert(r[7].id == r[20].prerequisites[1]);
                }
            }
        } else if a == 21 {
            reveal_strlit("pre.frac_add");
            assert(r[21] == builtin_tier3()[4]);
            assert forall|m: int| 0 <= m < r[21].patterns.len() implies #[trigger] homed(r[21], r[21].patterns[m]) by {
                if m == 0 {
                }
            }
            assert forall|q: int| 0 <= q < r[21].prerequisites.len() implies #[trigger] named_before(
                r,
                21,
                r[21].prerequisites[q],
            ) by {
                if q == 0 {
                    assert(r[6] == builtin_tier1()[2]);
                    assert(r[6].id == r[21].prerequisites[0]);
                } else if q == 1 {
                    assert(r[4] == builtin_tier1()[0]);
                    assert(r[4].id == r[21].prerequisites[1]);
                } else if q == 2 {
                    assert(r[18] == builtin_tier3()[1]);
                    assert(r[18].id == r[21].prerequisites[2]);
                } else if q == 3 {
                    assert(r[20] == builtin_tier3()[3]);
                    assert(r[20].id == r[21].prerequisites[3]);
                }
            }
        } else if a == 22 {
            reveal_strlit("pre.frac_sub");
            assert(r[22] == builtin_tier3()[5]);
            assert forall|m: int| 0 <= m < r[22].patterns.len() implies #[trigger] homed(r[22], r[22].patterns[m]) by {
                if m == 0 {
                }
            }
            assert forall|q: int| 0 <= q < r[22].prerequisites.len() implies #[trigger] named_before(
                r,
                22,
                r[22].prerequisites[q],
            ) by {
                if q == 0 {
                    assert(r[6] == builtin_tier1()[2]);
                    assert(r[6].id == r[22].prerequisites[0]);
                } else if q == 1 {
                    assert(r[5] == builtin_tier1()[1]);
                    assert(r[5].id == r[22].prerequisites[1]);
                } else if q == 2 {
                    assert(r[18] == builtin_tier3()[1]);
                    assert(r[18].id == r[22].prerequisites[2]);
                } else if q == 3 {
                    assert(r[20] == builtin_tier3()[3]);
                    assert(r[20].id == r[22].prerequisites[3]);
                }
            }
        } else if a == 23 {
            reveal_strlit("pre.frac_mul");
            assert(r[23] == builtin_tier3()[6]);
            assert forall|m: int| 0 <= m < r[23].patterns.len() implies #[trigger] homed(r[23], r[23].patterns[m]) by {
                if m == 0 {
                }
            }
            assert forall|q: int| 0 <= q < r[23].prerequisites.len() implies #[trigger] named_before(
                r,
                23,
                r[23].prerequisites[q],
            ) by {
                if q == 0 {
                    assert(r[6] == builtin_tier1()[2]);
                    assert(r[6].id == r[23].prerequisites[0]);
                } else if q == 1 {
                    assert(r[20] == builtin_tier3()[3]);
                    assert(r[20].id == r[23].prerequisites[1]);
                }
            }
        } else if a == 24 {
            reveal_strlit("pre.frac_div");
            assert(r[24] == builtin_tier3()[7]);
            assert forall|m: int| 0 <= m < r[24].patterns.len() implies #[trigger] homed(r[24], r[24].patterns[m]) by {
                if m == 0 {
                }
            }
            assert forall|q: int| 0 <= q < r[24].prerequisites.len() implies #[trigger] named_before(
                r,
                24,
                r[24].prerequisites[q],
            ) by {
                if q == 0 {
                    assert(r[23] == builtin_tier3()[6]);
                    assert(r[23].id == r[24].prerequisites[0]);
                }
            }
        } else if a == 25 {
            reveal_strlit("pre.decimal");
            assert(r[25] == builtin_tier3()[8]);
            assert forall|m: int| 0 <= m < r[25].patterns.len() implies #[trigger] homed(r[25], r[25].patterns[m]) by {
                if m == 0 {
                }
            }
            assert forall|q: int| 0 <= q < r[25].prerequisites.len() implies #[trigger] named_before(
                r,
                25,
                r[25].prerequisites[q],
            ) by {
                if q == 0 {
                    assert(r[7] == builtin_tier1()[3]);
                    assert(r[7].id == r[25].prerequisites[0]);
                }
            }
        } else if a == 26 {
            reveal_strlit("pre.percent");
            assert(r[26] == builtin_tier3()[9]);
            assert forall|m: int| 0 <= m < r[26].patterns.len() implies #[trigger] homed(r[26], r[26].patterns[m]) by {
                if m == 0 {
                }
            }
            assert forall|q: int| 0 <= q < r[26].prerequisites.len() implies #[trigger] named_before(
                r,
                26,
                r[26].prerequisites[q],
            ) by {
                if q == 0 {
                    assert(r[25] == builtin_tier3()[8]);
                    assert(r[25].id == r[26].prerequisites[0]);
                } else if q == 1 {
                    assert(r[6] == builtin_tier1()[2]);
                    assert(r[6].id == r[26].prerequisites[1]);
                } else if q == 2 {
                    assert(r[7] == builtin_tier1()[3]);
                    assert(r[7].id == r[26].prerequisites[2]);
                }
            }
        } else if a == 27 {
            reveal_strlit("pre.exponent");
            assert(r[27] == builtin_tier3()[10]);
            assert forall|m: int| 0 <= m < r[27].patterns.len() implies #[trigger] homed(r[27], r[27].patterns[m]) by {
                if m == 0 {
                }
            }
            assert forall|q: int| 0 <= q < r[27].prerequisites.len() implies #[trigger] named_before(
                r,
                27,
                r[27].prerequisites[q],
            ) by {
                if q == 0 {
                    assert(r[6] == builtin_tier1()[2]);
                    assert(r[6].id == r[27].prerequisites[0]);
                }
            }
        } else if a == 28 {
            reveal_strlit("pre.exponent_rules");
            assert(r[28] == builtin_tier3()[11]);
            assert forall|m: int| 0 <= m < r[28].patterns.len() implies #[trigger] homed(r[28], r[28].patterns[m]) by {
                if m == 0 {
                }
            }
            assert forall|q: int| 0 <= q < r[28].prerequisites.len() implies #[trigger] named_before(
                r,
                28,
                r[28].prerequisites[q],
            ) by {
                if q == 0 {
                    assert(r[27] == builtin_tier3()[10]);
                    assert(r[27].id == r[28].prerequisites[0]);
                } else if q == 1 {
                    assert(r[4] == builtin_tier1()[0]);
                    assert(r[4].id == r[28].prerequisites[1]);
                } else if q == 2 {
                    assert(r[5] == builtin_tier1()[1]);
                    assert(r[5].id == r[28].prerequisites[2]);
                } else if q == 3 {
                    assert(r[6] == builtin_tier1()[2]);
                    assert(r[6].id == r[28].prerequisites[3]);
                }
            }
        } else if a == 29 {
            reveal_strlit("pre.sqrt");
            assert(r[29] == builtin_tier3()[12]);
            assert forall|m: int| 0 <= m < r[29].patterns.len() implies #[trigger] homed(r[29], r[29].patterns[m]) by {
                if m == 0 {
                }
            }
            assert forall|q: int| 0 <= q < r[29].prerequisites.len() implies #[trigger] named_before(
                r,
                29,
                r[29].prerequisites[q],
            ) by {
                if q == 0 {
                    assert(r[27] == builtin_tier3()[10]);
                    assert(r[27].id == r[29].prerequisites[0]);
                }
            }
        } else if a == 30 {
            reveal_strlit("pre.nth_root");
            assert(r[30] == builtin_tier3()[13]);
            assert forall|m: int| 0 <= m < r[30].patterns.len() implies #[trigger] homed(r[30], r[30].patterns[m]) by {
                if m == 0 {
                }
            }
            assert forall|q: int| 0 <= q < r[30].prerequisites.len() implies #[trigger] named_before(
                r,
                30,
                r[30].prerequisites[q],
            ) by {
                if q == 0 {
                    assert(r[27] == builtin_tier3()[10]);
                    assert(r[27].id == r[30].prerequisites[0]);
                }
            }
        } else if a == 31 {
            reveal_strlit("pre.abs");
            assert(r[31] == builtin_tier3()[14]);
            assert forall|m: int| 0 <= m < r[31].patterns.len() implies #[trigger] homed(r[31], r[31].patterns[m]) by {
                if m == 0 {
                }
            }
        } else if a == 32 {
            reveal_strlit("pre.sci_notation");
            assert(r[32] == builtin_tier3()[15]);
            assert forall|m: int| 0 <= m < r[32].patterns.len() implies #[trigger] homed(r[32], r[32].patterns[m]) by {
                if m == 0 {
                }
            }
            assert forall|q: int| 0 <= q < r[32].prerequisites.len() implies #[trigger] named_before(
                r,
                32,
                r[32].prerequisites[q],
            ) by {
                if q == 0 {
                    assert(r[27] == builtin_tier3()[10]);
                    assert(r[27].id == r[32].prerequisites[0]);
                } else if q == 1 {
                    assert(r[25] == builtin_tier3()[8]);
                    assert(r[25].id == r[32].prerequisites[1]);
                }
            }
        } else if a == 33 {
            reveal_strlit("pre.ratio");
            assert(r[33] == builtin_tier3()[16]);
            assert forall|m: int| 0 <= m < r[33].patterns.len() implies #[trigger] homed(r[33], r[33].patterns[m]) by {
                if m == 0 {
                }
            }
            assert forall|q: int| 0 <= q < r[33].prerequisites.len() implies #[trigger] named_before(
                r,
                33,
                r[33].prerequisites[q],
            ) by {
                if q == 0 {
                    assert(r[17] == builtin_tier3()[0]);
                    assert(r[17].id == r[33].prerequisites[0]);
                } else if q == 1 {
                    assert(r[7] == builtin_tier1()[3]);
                    assert(r[7].id == r[33].prerequisites[1]);
                }
            }
        } else if a == 34 {
            reveal_strlit("pre.proportion");
            assert(r[34] == builtin_tier3()[17]);
            assert forall|m: int| 0 <= m < r[34].patterns.len() implies #[trigger] homed(r[34], r[34].patterns[m]) by {
                if m == 0 {
                }
            }
            assert forall|q: int| 0 <= q < r[34].prerequisites.len() implies #[trigger] named_before(
                r,
                34,
                r[34].prerequisites[q],
            ) by {
                if q == 0 {
                    assert(r[6] == builtin_tier1()[2]);
                    assert(r[6].id == r[34].prerequisites[0]);
                } else if q == 1 {
                    assert(r[7] == builtin_tier1()[3]);
                    assert(r[7].id == r[34].prerequisites[1]);
                }
            }
        }
    }
}

/// The rules of tier 4 pass the per-rule checks.
proof fn lemma_tier4_checked()
    ensures
        forall|a: int| 35 <= a < 48 ==> #[trigger] checked_at(builtin_library(), a),
{
    let r = builtin_library();
    lemma_builtin_tiers();
    assert forall|a: int| 35 <= a < 48 implies #[trigger] checked_at(r, a) by {
        if a == 35 {
            reveal_strlit("alg.substitute");
            assert(r[35] == builtin_tier4()[0]);
            assert forall|m: int| 0 <= m < r[35].patterns.len() implies #[trigger] homed(r[35], r[35].patterns[m]) by {
                if m == 0 {
                }
            }
            assert forall|q: int| 0 <= q < r[35].prerequisites.len() implies #[trigger] named_before(
                r,
                35,
                r[35].prerequisites[q],
            ) by {
                if q == 0 {
                    assert(r[0] == builtin_tier0()[0]);
                    assert(r[0].id == r[35].prerequisites[0]);
                } else if q == 1 {
                    assert(r[2] == builtin_tier0()[2]);
                    assert(r[2].id == r[35].prerequisites[1]);
                }
            }
        } else if a == 36 {
            reveal_strlit("alg.like_terms");
            assert(r[36] == builtin_tier4()[1]);
            assert forall|m: int| 0 <= m < r[36].patterns.len() implies #[trigger] homed(r[36], r[36].patterns[m]) by {
                if m == 0 {
                }
            }
            assert forall|q: int| 0 <= q < r[36].prerequisites.len() implies #[trigger] named_before(
                r,
                36,
                r[36].prerequisites[q],
            ) by {
                if q == 0 {
                    assert(r[4] == builtin_tier1()[0]);
                    assert(r[4].id == r[36].prerequisites[0]);
                } else if q == 1 {
                    assert(r[13] == builtin_tier2()[2]);
                    assert(r[13].id == r[36].prerequisites[1]);
                }
            }
        } else if a == 37 {
            reveal_strlit("alg.linear_solve");
            assert(r[37] == builtin_tier4()[2]);
            assert forall|m: int| 0 <= m < r[37].patterns.len() implies #[trigger] homed(r[37], r[37].patterns[m]) by {
                if m == 0 {
                }
            }
            assert forall|q: int| 0 <= q < r[37].prerequisites.len() implies #[trigger] named_before(
                r,
                37,
                r[37].prerequisites[q],
            ) by {
                if q == 0 {
                    assert(r[5] == builtin_tier1()[1]);
                    assert(r[5].id == r[37].prerequisites[0]);
                } else if q == 1 {
                    assert(r[7] == builtin_tier1()[3]);
                    assert(r[7].id == r[37].prerequisites[1]);
                } else if q == 2 {
                    assert(r[36] == builtin_tier4()[1]);
                    assert(r[36].id == r[37].prerequisites[2]);
                }
            }
        } else if a == 38 {
            reveal_strlit("alg.linear_inequality");
            assert(r[38] == builtin_tier4()[3]);
            assert forall|m: int| 0 <= m < r[38].patterns.len() implies #[trigger] homed(r[38], r[38].patterns[m]) by {
                if m == 0 {
                }
            }
            assert forall|q: int| 0 <= q < r[38].prerequisites.len() implies #[trigger] named_before(
                r,
                38,
                r[38].prerequisites[q],
            ) by {
                if q == 0 {
                    assert(r[37] == builtin_tier4()[2]);
                    assert(r[37].id == r[38].prerequisites[0]);
                }
            }
        } else if a == 39 {
            reveal_strlit("alg.quadratic_solve");
            assert(r[39] == builtin_tier4()[4]);
            assert forall|m: int| 0 <= m < r[39].patterns.len() implies #[trigger] homed(r[39], r[39].patterns[m]) by {
                if m == 0 {
                }
            }
            assert forall|q: int| 0 <= q < r[39].prerequisites.len() implies #[trigger] named_before(
                r,
                39,
                r[39].prerequisites[q],
            ) by {
                if q == 0 {
                    assert(r[29] == builtin_tier3()[12]);
                    assert(r[29].id == r[39].prerequisites[0]);
                } else if q == 1 {
                    assert(r[6] == builtin_tier1()[2]);
                    assert(r[6].id == r[39].prerequisites[1]);
                } else if q == 2 {
                    assert(r[5] == builtin_tier1()[1]);
                    assert(r[5].id == r[39].prerequisites[2]);
                } else if q == 3 {
                    assert(r[7] == builtin_tier1()[3]);
                    assert(r[7].id == r[39].prerequisites[3]);
                }
            }
        } else if a == 40 {
            reveal_strlit("alg.poly_add");
            assert(r[40] == builtin_tier4()[5]);
            assert forall|m: int| 0 <= m < r[40].patterns.len() implies #[trigger] homed(r[40], r[40].patterns[m]) by {
                if m == 0 {
                }
            }
            assert forall|q: int| 0 <= q < r[40].prerequisites.len() implies #[trigger] named_before(
                r,
                40,
                r[40].prerequisites[q],
            ) by {
                if q == 0 {
                    assert(r[36] == builtin_tier4()[1]);
                    assert(r[36].id == r[40].prerequisites[0]);
                }
            }
        } else if a == 41 {
            reveal_strlit("alg.poly_mul");
            assert(r[41] == builtin_tier4()[6]);
            assert forall|m: int| 0 <= m < r[41].patterns.len() implies #[trigger] homed(r[41], r[41].patterns[m]) by {
                if m == 0 {
                }
            }
            assert forall|q: int| 0 <= q < r[41].prerequisites.len() implies #[trigger] named_before(
                r,
                41,
                r[41].prerequisites[q],
            ) by {
                if q == 0 {
                    assert(r[13] == builtin_tier2()[2]);
                    assert(r[13].id == r[41].prerequisites[0]);
                } else if q == 1 {
                    assert(r[36] == builtin_tier4()[1]);
                    assert(r[36].id == r[41].prerequisites[1]);
                } else if q == 2 {
                    assert(r[28] == builtin_tier3()[11]);
                    assert(r[28].id == r[41].prerequisites[2]);
                }
            }
        } else if a == 42 {
            reveal_strlit("alg.poly_div");
            assert(r[42] == builtin_tier4()[7]);
            assert forall|m: int| 0 <= m < r[42].patterns.len() implies #[trigger] homed(r[42], r[42].patterns[m]) by {
                if m == 0 {
                }
            }
            assert forall|q: int| 0 <= q < r[42].prerequisites.len() implies #[trigger] named_before(
                r,
                42,
                r[42].prerequisites[q],
            ) by {
                if q == 0 {
                    assert(r[7] == builtin_tier1()[3]);
                    assert(r[7].id == r[42].prerequisites[0]);
                } else if q == 1 {
                    assert(r[36] == builtin_tier4()[1]);
                    assert(r[36].id == r[42].prerequisites[1]);
                }
            }
        } else if a == 43 {
            reveal_strlit("alg.factor");
            assert(r[43] == builtin_tier4()[8]);
            assert forall|m: int| 0 <= m < r[43].patterns.len() implies #[trigger] homed(r[43], r[43].patterns[m]) by {
                if m == 0 {
                }
            }
            assert forall|q: int| 0 <= q < r[43].prerequisites.len() implies #[trigger] named_before(
                r,
                43,
                r[43].prerequisites[q],
            ) by {
                if q == 0 {
                    assert(r[14] == builtin_tier2()[3]);
                    assert(r[14].id == r[43].prerequisites[0]);
                } else if q == 1 {
                    assert(r[17] == builtin_tier3()[0]);
                    assert(r[17].id == r[43].prerequisites[1]);
                }
            }
        } else if a == 44 {
            reveal_strlit("alg.func_eval");
            assert(r[44] == builtin_tier4()[9]);
            assert forall|m: int| 0 <= m < r[44].patterns.len() implies #[trigger] homed(r[44], r[44].patterns[m]) by {
                if m == 0 {
                }
            }
            assert forall|q: int| 0 <= q < r[44].prerequisites.len() implies #[trigger] named_before(
                r,
                44,
                r[44].prerequisites[q],
            ) by {
                if q == 0 {
                    assert(r[35] == builtin_tier4()[0]);
                    assert(r[35].id == r[44].prerequisites[0]);
                }
            }
        } else if a == 45 {
            reveal_strlit("alg.func_compose");
            assert(r[45] == builtin_tier4()[10]);
            assert forall|m: int| 0 <= m < r[45].patterns.len() implies #[trigger] homed(r[45], r[45].patterns[m]) by {
                if m == 0 {
                }
            }
            assert forall|q: int| 0 <= q < r[45].prerequisites.len() implies #[trigger] named_before(
                r,
                45,
                r[45].prerequisites[q],
            ) by {
                if q == 0 {
                    assert(r[44] == builtin_tier4()[9]);
                    assert(r[44].id == r[45].prerequisites[0]);
                } else if q == 1 {
                    assert(r[35] == builtin_tier4()[0]);
                    assert(r[35].id == r[45].prerequisites[1]);
                }
            }
        } else if a == 46 {
            reveal_strlit("alg.slope");
            assert(r[46] == builtin_tier4()[11]);
            assert forall|m: int| 0 <= m < r[46].patterns.len() implies #[trigger] homed(r[46], r[46].patterns[m]) by {
                if m == 0 {
                } else if m == 1 {
                }
            }
            assert forall|q: int| 0 <= q < r[46].prerequisites.len() implies #[trigger] named_before(
                r,
                46,
                r[46].prerequisites[q],
            ) by {
                if q == 0 {
                    assert(r[5] == builtin_tier1()[1]);
                    assert(r[5].id == r[46].prerequisites[0]);
                } else if q == 1 {
                    assert(r[7] == builtin_tier1()[3]);
                    assert(r[7].id == r[46].prerequisites[1]);
                }
            }
        } else if a == 47 {
            reveal_strlit("alg.domain_range");
            assert(r[47] == builtin_tier4()[12]);
            assert forall|m: int| 0 <= m < r[47].patterns.len() implies #[trigger] homed(r[47], r[47].patterns[m]) by {
                if m == 0 {
                }
            }
            assert forall|q: int| 0 <= q < r[47].prerequisites.len() implies #[trigger] named_before(
                r,
                47,
                r[47].prerequisites[q],
            ) by {
                if q == 0 {
                    assert(r[44] == builtin_tier4()[9]);
                    assert(r[44].id == r[47].prerequisites[0]);
                }
            }
        }
    }
}

/// The rules of tier 5 pass the per-rule checks.
proof fn lemma_tier5_checked()
    ensures
        forall|a: int| 48 <= a < 63 ==> #[trigger] checked_at(builtin_library(), a),
{
    let r = builtin_library();
    lemma_builtin_tiers();
    assert forall|a: int| 48 <= a < 63 implies #[trigger] checked_at(r, a) by {
        if a == 48 {
            reveal_strlit("adv.system_solve");
            assert(r[48] == builtin_tier5()[0]);
            assert forall|m: int| 0 <= m < r[48].patterns.len() implies #[trigger] homed(r[48], r[48].patterns[m]) by {
                if m == 0 {
                }
            }
            assert forall|q: int| 0 <= q < r[48].prerequisites.len() implies #[trigger] named_before(
                r,
                48,
                r[48].prerequisites[q],
            ) by {
                if q == 0 {
                    assert(r[37] == builtin_tier4()[2]);
                    assert(r[37].id == r[48].prerequisites[0]);
                } else if q == 1 {
                    assert(r[6] == builtin_tier1()[2]);
                    assert(r[6].id == r[48].prerequisites[1]);
                } else if q == 2 {
                    assert(r[5] == builtin_tier1()[1]);
                    assert(r[5].id == r[48].prerequisites[2]);
                }
            }
        } else if a == 49 {
            reveal_strlit("adv.mat_add");
            assert(r[49] == builtin_tier5()[1]);
            assert forall|m: int| 0 <= m < r[49].patterns.len() implies #[trigger] homed(r[49], r[49].patterns[m]) by {
                if m == 0 {
                }
            }
            assert forall|q: int| 0 <= q < r[49].prerequisites.len() implies #[trigger] named_before(
                r,
                49,
                r[49].prerequisites[q],
            ) by {
                if q == 0 {
                    assert(r[4] == builtin_tier1()[0]);
                    assert(r[4].id == r[49].prerequisites[0]);
                }
            }
        } else if a == 50 {
            reveal_strlit("adv.mat_mul");
            assert(r[50] == builtin_tier5()[2]);
            assert forall|m: int| 0 <= m < r[50].patterns.len() implies #[trigger] homed(r[50], r[50].patterns[m]) by {
                if m == 0 {
                }
            }
            assert forall|q: int| 0 <= q < r[50].prerequisites.len() implies #[trigger] named_before(
                r,
                50,
                r[50].prerequisites[q],
            ) by {
                if q == 0 {
                    assert(r[6] == builtin_tier1()[2]);
                    assert(r[6].id == r[50].prerequisites[0]);
                } else if q == 1 {
                    assert(r[4] == builtin_tier1()[0]);
                    assert(r[4].id == r[50].prerequisites[1]);
                }
            }
        } else if a == 51 {
            reveal_strlit("adv.mat_det");
            assert(r[51] == builtin_tier5()[3]);
            assert forall|m: int| 0 <= m < r[51].patterns.len() implies #[trigger] homed(r[51], r[51].patterns[m]) by {
                if m == 0 {
                }
            }
            assert forall|q: int| 0 <= q < r[51].prerequisites.len() implies #[trigger] named_before(
                r,
                51,
                r[51].prerequisites[q],
            ) by {
                if q == 0 {
                    assert(r[6] == builtin_tier1()[2]);
                    assert(r[6].id == r[51].prerequisites[0]);
                } else if q == 1 {
                    assert(r[5] == builtin_tier1()[1]);
                    assert(r[5].id == r[51].prerequisites[1]);
                }
            }
        } else if a == 52 {
            reveal_strlit("adv.mat_inv");
            assert(r[52] == builtin_tier5()[4]);
            assert forall|m: int| 0 <= m < r[52].patterns.len() implies #[trigger] homed(r[52], r[52].patterns[m]) by {
                if m == 0 {
                }
            }
            assert forall|q: int| 0 <= q < r[52].prerequisites.len() implies #[trigger] named_before(
                r,
                52,
                r[52].prerequisites[q],
            ) by {
                if q == 0 {
                    assert(r[51] == builtin_tier5()[3]);
                    assert(r[51].id == r[52].prerequisites[0]);
                } else if q == 1 {
                    assert(r[50] == builtin_tier5()[2]);
                    assert(r[50].id == r[52].prerequisites[1]);
                }
            }
        } else if a == 53 {
            reveal_strlit("adv.complex_add");
            assert(r[53] == builtin_tier5()[5]);
            assert forall|m: int| 0 <= m < r[53].patterns.len() implies #[trigger] homed(r[53], r[53].patterns[m]) by {
                if m == 0 {
                }
            }
            assert forall|q: int| 0 <= q < r[53].prerequisites.len() implies #[trigger] named_before(
                r,
                53,
                r[53].prerequisites[q],
            ) by {
                if q == 0 {
                    assert(r[4] == builtin_tier1()[0]);
                    assert(r[4].id == r[53].prerequisites[0]);
                }
            }
        } else if a == 54 {
            reveal_strlit("adv.complex_mul");
            assert(r[54] == builtin_tier5()[6]);
            assert forall|m: int| 0 <= m < r[54].patterns.len() implies #[trigger] homed(r[54], r[54].patterns[m]) by {
                if m == 0 {
                }
            }
            assert forall|q: int| 0 <= q < r[54].prerequisites.len() implies #[trigger] named_before(
                r,
                54,
                r[54].prerequisites[q],
            ) by {
                if q == 0 {
                    assert(r[6] == builtin_tier1()[2]);
                    assert(r[6].id == r[54].prerequisites[0]);
                } else if q == 1 {
                    assert(r[5] == builtin_tier1()[1]);
                    assert(r[5].id == r[54].prerequisites[1]);
                } else if q == 2 {
                    assert(r[4] == builtin_tier1()[0]);
                    assert(r[4].id == r[54].prerequisites[2]);
                }
            }
        } else if a == 55 {
            reveal_strlit("adv.complex_conj");
            assert(r[55] == builtin_tier5()[7]);
            assert forall|m: int| 0 <= m < r[55].patterns.len() implies #[trigger] homed(r[55], r[55].patterns[m]) by {
                if m == 0 {
                }
            }
        } else if a == 56 {
            reveal_strlit("adv.complex_mod");
            assert(r[56] == builtin_tier5()[8]);
            assert forall|m: int| 0 <= m < r[56].patterns.len() implies #[trigger] homed(r[56], r[56].patterns[m]) by {
                if m == 0 {
                }
            }
            assert forall|q: int| 0 <= q < r[56].prerequisites.len() implies #[trigger] named_before(
                r,
                56,
                r[56].prerequisites[q],
            ) by {
                if q == 0 {
                    assert(r[29] == builtin_tier3()[12]);
                    assert(r[29].id == r[56].prerequisites[0]);
                } else if q == 1 {
                    assert(r[27] == builtin_tier3()[10]);
                    assert(r[27].id == r[56].prerequisites[1]);
                } else if q == 2 {
                    assert(r[4] == builtin_tier1()[0]);
                    assert(r[4].id == r[56].prerequisites[2]);
                }
            }
        } else if a == 57 {
            reveal_strlit("adv.arith_seq");
            assert(r[57] == builtin_tier5()[9]);
            assert forall|m: int| 0 <= m < r[57].patterns.len() implies #[trigger] homed(r[57], r[57].patterns[m]) by {
                if m == 0 {
                }
            }
            assert forall|q: int| 0 <= q < r[57].prerequisites.len() implies #[trigger] named_before(
                r,
                57,
                r[57].prerequisites[q],
            ) by {
                if q == 0 {
                    assert(r[4] == builtin_tier1()[0]);
                    assert(r[4].id == r[57].prerequisites[0]);
                } else if q == 1 {
                    assert(r[6] == builtin_tier1()[2]);
                    assert(r[6].id == r[57].prerequisites[1]);
                } else if q == 2 {
                    assert(r[7] == builtin_tier1()[3]);
                    assert(r[7].id == r[57].prerequisites[2]);
                }
            }
        } else if a == 58 {
            reveal_strlit("adv.geom_seq");
            assert(r[58] == builtin_tier5()[10]);
            assert forall|m: int| 0 <= m < r[58].patterns.len() implies #[trigger] homed(r[58], r[58].patterns[m]) by {
                if m == 0 {
                }
            }
            assert forall|q: int| 0 <= q < r[58].prerequisites.len() implies #[trigger] named_before(
                r,
                58,
                r[58].prerequisites[q],
            ) by {
                if q == 0 {
                    assert(r[6] == builtin_tier1()[2]);
                    assert(r[6].id == r[58].prerequisites[0]);
                } else if q == 1 {
                    assert(r[27] == builtin_tier3()[10]);
                    assert(r[27].id == r[58].prerequisites[1]);
                } else if q == 2 {
                    assert(r[7] == builtin_tier1()[3]);
                    assert(r[7].id == r[58].prerequisites[2]);
                }
            }
        } else if a == 59 {
            reveal_strlit("adv.series");
            assert(r[59] == builtin_tier5()[11]);
            assert forall|m: int| 0 <= m < r[59].patterns.len() implies #[trigger] homed(r[59], r[59].patterns[m]) by {
                if m == 0 {
                }
            }
            assert forall|q: int| 0 <= q < r[59].prerequisites.len() implies #[trigger] named_before(
                r,
                59,
                r[59].prerequisites[q],
            ) by {
                if q == 0 {
                    assert(r[57] == builtin_tier5()[9]);
                    assert(r[57].id == r[59].prerequisites[0]);
                } else if q == 1 {
                    assert(r[58] == builtin_tier5()[10]);
                    assert(r[58].id == r[59].prerequisites[1]);
                }
            }
        } else if a == 60 {
            reveal_strlit("adv.log");
            assert(r[60] == builtin_tier5()[12]);
            assert forall|m: int| 0 <= m < r[60].patterns.len() implies #[trigger] homed(r[60], r[60].patterns[m]) by {
                if m == 0 {
                }
            }
            assert forall|q: int| 0 <= q < r[60].prerequisites.len() implies #[trigger] named_before(
                r,
                60,
                r[60].prerequisites[q],
            ) by {
                if q == 0 {
                    assert(r[27] == builtin_tier3()[10]);
                    assert(r[27].id == r[60].prerequisites[0]);
                }
            }
        } else if a == 61 {
            reveal_strlit("adv.log_rules");
            assert(r[61] == builtin_tier5()[13]);
            assert forall|m: int| 0 <= m < r[61].patterns.len() implies #[trigger] homed(r[61], r[61].patterns[m]) by {
                if m == 0 {
                }
            }
            assert forall|q: int| 0 <= q < r[61].prerequisites.len() implies #[trigger] named_before(
                r,
                61,
                r[61].prerequisites[q],
            ) by {
                if q == 0 {
                    assert(r[60] == builtin_tier5()[12]);
                    assert(r[60].id == r[61].prerequisites[0]);
                } else if q == 1 {
                    assert(r[4] == builtin_tier1()[0]);
                    assert(r[4].id == r[61].prerequisites[1]);
                } else if q == 2 {
                    assert(r[5] == builtin_tier1()[1]);
                    assert(r[5].id == r[61].prerequisites[2]);
                } else if q == 3 {
                    assert(r[6] == builtin_tier1()[2]);
                    assert(r[6].id == r[61].prerequisites[3]);
                } else if q == 4 {
                    assert(r[7] == builtin_tier1()[3]);
                    assert(r[7].id == r[61].prerequisites[4]);
                }
            }
        } else if a == 62 {
            reveal_strlit("adv.exp_equation");
            assert(r[62] == builtin_tier5()[14]);
            assert forall|m: int| 0 <= m < r[62].patterns.len() implies #[trigger] homed(r[62], r[62].patterns[m]) by {
                if m == 0 {
                }
            }
            assert forall|q: int| 0 <= q < r[62].prerequisites.len() implies #[trigger] named_before(
                r,
                62,
                r[62].prerequisites[q],
            ) by {
                if q == 0 {
                    assert(r[60] == builtin_tier5()[12]);
                    assert(r[60].id == r[62].prerequisites[0]);
                } else if q == 1 {
                    assert(r[61] == builtin_tier5()[13]);
                    assert(r[61].id == r[62].prerequisites[1]);
                }
            }
        }
    }
}

/// The rules of tier 6 pass the per-rule checks.
proof fn lemma_tier6_checked()
    ensures
        forall|a: int| 63 <= a < 71 ==> #[trigger] checked_at(builtin_library(), a),
{
    let r = builtin_library();
    lemma_builtin_tiers();
    assert forall|a: int| 63 <= a < 71 implies #[trigger] checked_at(r, a) by {
        if a == 63 {
            reveal_strlit("trig.eval");
            assert(r[63] == builtin_tier6()[0]);
            assert forall|m: int| 0 <= m < r[63].patterns.len() implies #[trigger] homed(r[63], r[63].patterns[m]) by {
                if m == 0 {
                }
            }
            assert forall|q: int| 0 <= q < r[63].prerequisites.len() implies #[trigger] named_before(
                r,
                63,
                r[63].prerequisites[q],
            ) by {
                if q == 0 {
                    assert(r[7] == builtin_tier1()[3]);
                    assert(r[7].id == r[63].prerequisites[0]);
                } else if q == 1 {
                    assert(r[29] == builtin_tier3()[12]);
                    assert(r[29].id == r[63].prerequisites[1]);
                }
            }
        } else if a == 64 {
            reveal_strlit("trig.identity");
            assert(r[64] == builtin_tier6()[1]);
            assert forall|m: int| 0 <= m < r[64].patterns.len() implies #[trigger] homed(r[64], r[64].patterns[m]) by {
                if m == 0 {
                }
            }
            assert forall|q: int| 0 <= q < r[64].prerequisites.len() implies #[trigger] named_before(
                r,
                64,
                r[64].prerequisites[q],
            ) by {
                if q == 0 {
                    assert(r[63] == builtin_tier6()[0]);
                    assert(r[63].id == r[64].prerequisites[0]);
                } else if q == 1 {
                    assert(r[27] == builtin_tier3()[10]);
                    assert(r[27].id == r[64].prerequisites[1]);
                } else if q == 2 {
                    assert(r[4] == builtin_tier1()[0]);
                    assert(r[4].id == r[64].prerequisites[2]);
                }
            }
        } else if a == 65 {
            reveal_strlit("trig.inverse");
            assert(r[65] == builtin_tier6()[2]);
            assert forall|m: int| 0 <= m < r[65].patterns.len() implies #[trigger] homed(r[65], r[65].patterns[m]) by {
                if m == 0 {
                }
            }
            assert forall|q: int| 0 <= q < r[65].prerequisites.len() implies #[trigger] named_before(
                r,
                65,
                r[65].prerequisites[q],
            ) by {
                if q == 0 {
                    assert(r[63] == builtin_tier6()[0]);
                    assert(r[63].id == r[65].prerequisites[0]);
                }
            }
        } else if a == 66 {
            reveal_strlit("trig.unit_circle");
            assert(r[66] == builtin_tier6()[3]);
            assert forall|m: int| 0 <= m < r[66].patterns.len() implies #[trigger] homed(r[66], r[66].patterns[m]) by {
                if m == 0 {
                }
            }
            assert forall|q: int| 0 <= q < r[66].prerequisites.len() implies #[trigger] named_before(
                r,
                66,
                r[66].prerequisites[q],
            ) by {
                if q == 0 {
                    assert(r[29] == builtin_tier3()[12]);
                    assert(r[29].id == r[66].prerequisites[0]);
                } else if q == 1 {
                    assert(r[7] == builtin_tier1()[3]);
                    assert(r[7].id == r[66].prerequisites[1]);
                }
            }
        } else if a == 67 {
            reveal_strlit("trig.law_sines");
            assert(r[67] == builtin_tier6()[4]);
            assert forall|m: int| 0 <= m < r[67].patterns.len() implies #[trigger] homed(r[67], r[67].patterns[m]) by {
                if m == 0 {
                }
            }
            assert forall|q: int| 0 <= q < r[67].prerequisites.len() implies #[trigger] named_before(
                r,
                67,
                r[67].prerequisites[q],
            ) by {
                if q == 0 {
                    assert(r[63] == builtin_tier6()[0]);
                    assert(r[63].id == r[67].prerequisites[0]);
                } else if q == 1 {
                    assert(r[7] == builtin_tier1()[3]);
                    assert(r[7].id == r[67].prerequisites[1]);
                }
            }
        } else if a == 68 {
            reveal_strlit("trig.law_cosines");
            assert(r[68] == builtin_tier6()[5]);
            assert forall|m: int| 0 <= m < r[68].patterns.len() implies #[trigger] homed(r[68], r[68].patterns[m]) by {
                if m == 0 {
                }
            }
            assert forall|q: int| 0 <= q < r[68].prerequisites.len() implies #[trigger] named_before(
                r,
                68,
                r[68].prerequisites[q],
            ) by {
                if q == 0 {
                    assert(r[63] == builtin_tier6()[0]);
                    assert(r[63].id == r[68].prerequisites[0]);
                } else if q == 1 {
                    assert(r[27] == builtin_tier3()[10]);
                    assert(r[27].id == r[68].prerequisites[1]);
                } else if q == 2 {
                    assert(r[29] == builtin_tier3()[12]);
                    assert(r[29].id == r[68].prerequisites[2]);
                } else if q == 3 {
                    assert(r[6] == builtin_tier1()[2]);
                    assert(r[6].id == r[68].prerequisites[3]);
                } else if q == 4 {
                    assert(r[5] == builtin_tier1()[1]);
                    assert(r[5].id == r[68].prerequisites[4]);
                }
            }
        } else if a == 69 {
            reveal_strlit("trig.solve_eq");
            assert(r[69] == builtin_tier6()[6]);
            assert forall|m: int| 0 <= m < r[69].patterns.len() implies #[trigger] homed(r[69], r[69].patterns[m]) by {
                if m == 0 {
                }
            }
            assert forall|q: int| 0 <= q < r[69].prerequisites.len() implies #[trigger] named_before(
                r,
                69,
                r[69].prerequisites[q],
            ) by {
                if q == 0 {
                    assert(r[65] == builtin_tier6()[2]);
                    assert(r[65].id == r[69].prerequisites[0]);
                } else if q == 1 {
                    assert(r[64] == builtin_tier6()[1]);
                    assert(r[64].id == r[69].prerequisites[1]);
                }
            }
        } else if a == 70 {
            reveal_strlit("trig.polar_rect");
            assert(r[70] == builtin_tier6()[7]);
            assert forall|m: int| 0 <= m < r[70].patterns.len() implies #[trigger] homed(r[70], r[70].patterns[m]) by {
                if m == 0 {
                }
            }
            assert forall|q: int| 0 <= q < r[70].prerequisites.len() implies #[trigger] named_before(
                r,
                70,
                r[70].prerequisites[q],
            ) by {
                if q == 0 {
                    assert(r[63] == builtin_tier6()[0]);
                    assert(r[63].id == r[70].prerequisites[0]);
                } else if q == 1 {
                    assert(r[65] == builtin_tier6()[2]);
                    assert(r[65].id == r[70].prerequisites[1]);
                } else if q == 2 {
                    assert(r[29] == builtin_tier3()[12]);
                    assert(r[29].id == r[70].prerequisites[2]);
                } else if q == 3 {
                    assert(r[27] == builtin_tier3()[10]);
                    assert(r[27].id == r[70].prerequisites[3]);
                }
            }
        }
    }
}

/// The rules of tier 7 pass the per-rule checks.
proof fn lemma_tier7_checked()
    ensures
        forall|a: int| 71 <= a < 85 ==> #[trigger] checked_at(builtin_library(), a),
{
    let r = builtin_library();
    lemma_builtin_tiers();
    assert forall|a: int| 71 <= a < 85 implies #[trigger] checked_at(r, a) by {
        if a == 71 {
            reveal_strlit("calc.limit");
            assert(r[71] == builtin_tier7()[0]);
            assert forall|m: int| 0 <= m < r[71].patterns.len() implies #[trigger] homed(r[71], r[71].patterns[m]) by {
                if m == 0 {
                }
            }
            assert forall|q: int| 0 <= q < r[71].prerequisites.len() implies #[trigger] named_before(
                r,
                71,
                r[71].prerequisites[q],
            ) by {
                if q == 0 {
                    assert(r[35] == builtin_tier4()[0]);
                    assert(r[35].id == r[71].prerequisites[0]);
                } else if q == 1 {
                    assert(r[43] == builtin_tier4()[8]);
                    assert(r[43].id == r[71].prerequisites[1]);
                }
            }
        } else if a == 72 {
            reveal_strlit("calc.deriv_basic");
            assert(r[72] == builtin_tier7()[1]);
            assert forall|m: int| 0 <= m < r[72].patterns.len() implies #[trigger] homed(r[72], r[72].patterns[m]) by {
                if m == 0 {
                }
            }
            assert forall|q: int| 0 <= q < r[72].prerequisites.len() implies #[trigger] named_before(
                r,
                72,
                r[72].prerequisites[q],
            ) by {
                if q == 0 {
                    assert(r[28] == builtin_tier3()[11]);
                    assert(r[28].id == r[72].prerequisites[0]);
                } else if q == 1 {
                    assert(r[6] == builtin_tier1()[2]);
                    assert(r[6].id == r[72].prerequisites[1]);
                } else if q == 2 {
                    assert(r[5] == builtin_tier1()[1]);
                    assert(r[5].id == r[72].prerequisites[2]);
                }
            }
        } else if a == 73 {
            reveal_strlit("calc.deriv_chain");
            assert(r[73] == builtin_tier7()[2]);
            assert forall|m: int| 0 <= m < r[73].patterns.len() implies #[trigger] homed(r[73], r[73].patterns[m]) by {
                if m == 0 {
                }
            }
            assert forall|q: int| 0 <= q < r[73].prerequisites.len() implies #[trigger] named_before(
                r,
                73,
                r[73].prerequisites[q],
            ) by {
                if q == 0 {
                    assert(r[72] == builtin_tier7()[1]);
                    assert(r[72].id == r[73].prerequisites[0]);
                } else if q == 1 {
                    assert(r[45] == builtin_tier4()[10]);
                    assert(r[45].id == r[73].prerequisites[1]);
                }
            }
        } else if a == 74 {
            reveal_strlit("calc.deriv_product");
            assert(r[74] == builtin_tier7()[3]);
            assert forall|m: int| 0 <= m < r[74].patterns.len() implies #[trigger] homed(r[74], r[74].patterns[m]) by {
                if m == 0 {
                }
            }
            assert forall|q: int| 0 <= q < r[74].prerequisites.len() implies #[trigger] named_before(
                r,
                74,
                r[74].prerequisites[q],
            ) by {
                if q == 0 {
                    assert(r[72] == builtin_tier7()[1]);
                    assert(r[72].id == r[74].prerequisites[0]);
                } else if q == 1 {
                    assert(r[6] == builtin_tier1()[2]);
                    assert(r[6].id == r[74].prerequisites[1]);
                } else if q == 2 {
                    assert(r[4] == builtin_tier1()[0]);
                    assert(r[4].id == r[74].prerequisites[2]);
                }
            }
        } else if a == 75 {
            reveal_strlit("calc.deriv_quotient");
            assert(r[75] == builtin_tier7()[4]);
            assert forall|m: int| 0 <= m < r[75].patterns.len() implies #[trigger] homed(r[75], r[75].patterns[m]) by {
                if m == 0 {
                }
            }
            assert forall|q: int| 0 <= q < r[75].prerequisites.len() implies #[trigger] named_before(
                r,
                75,
                r[75].prerequisites[q],
            ) by {
                if q == 0 {
                    assert(r[72] == builtin_tier7()[1]);
                    assert(r[72].id == r[75].prerequisites[0]);
                } else if q == 1 {
                    assert(r[6] == builtin_tier1()[2]);
                    assert(r[6].id == r[75].prerequisites[1]);
                } else if q == 2 {
                    assert(r[5] == builtin_tier1()[1]);
                    assert(r[5].id == r[75].prerequisites[2]);
                } else if q == 3 {
                    assert(r[27] == builtin_tier3()[10]);
                    assert(r[27].id == r[75].prerequisites[3]);
                }
            }
        } else if a == 76 {
            reveal_strlit("calc.integral_basic");
            assert(r[76] == builtin_tier7()[5]);
            assert forall|m: int| 0 <= m < r[76].patterns.len() implies #[trigger] homed(r[76], r[76].patterns[m]) by {
                if m == 0 {
                }
            }
            assert forall|q: int| 0 <= q < r[76].prerequisites.len() implies #[trigger] named_before(
                r,
                76,
                r[76].prerequisites[q],
            ) by {
                if q == 0 {
                    assert(r[28] == builtin_tier3()[11]);
                    assert(r[28].id == r[76].prerequisites[0]);
                } else if q == 1 {
                    assert(r[7] == builtin_tier1()[3]);
                    assert(r[7].id == r[76].prerequisites[1]);
                } else if q == 2 {
                    assert(r[4] == builtin_tier1()[0]);
                    assert(r[4].id == r[76].prerequisites[2]);
                }
            }
        } else if a == 77 {
            reveal_strlit("calc.integral_usub");
            assert(r[77] == builtin_tier7()[6]);
            assert forall|m: int| 0 <= m < r[77].patterns.len() implies #[trigger] homed(r[77], r[77].patterns[m]) by {
                if m == 0 {
                }
            }
            assert forall|q: int| 0 <= q < r[77].prerequisites.len() implies #[trigger] named_before(
                r,
                77,
                r[77].prerequisites[q],
            ) by {
                if q == 0 {
                    assert(r[76] == builtin_tier7()[5]);
                    assert(r[76].id == r[77].prerequisites[0]);
                } else if q == 1 {
                    assert(r[73] == builtin_tier7()[2]);
                    assert(r[73].id == r[77].prerequisites[1]);
                }
            }
        } else if a == 78 {
            reveal_strlit("calc.integral_parts");
            assert(r[78] == builtin_tier7()[7]);
            assert forall|m: int| 0 <= m < r[78].patterns.len() implies #[trigger] homed(r[78], r[78].patterns[m]) by {
                if m == 0 {
                }
            }
            assert forall|q: int| 0 <= q < r[78].prerequisites.len() implies #[trigger] named_before(
                r,
                78,
                r[78].prerequisites[q],
            ) by {
                if q == 0 {
                    assert(r[76] == builtin_tier7()[5]);
                    assert(r[76].id == r[78].prerequisites[0]);
                } else if q == 1 {
                    assert(r[72] == builtin_tier7()[1]);
                    assert(r[72].id == r[78].prerequisites[1]);
                }
            }
        } else if a == 79 {
            reveal_strlit("calc.definite_integral");
            assert(r[79] == builtin_tier7()[8]);
            assert forall|m: int| 0 <= m < r[79].patterns.len() implies #[trigger] homed(r[79], r[79].patterns[m]) by {
                if m == 0 {
                }
            }
            assert forall|q: int| 0 <= q < r[79].prerequisites.len() implies #[trigger] named_before(
                r,
                79,
                r[79].prerequisites[q],
            ) by {
                if q == 0 {
                    assert(r[76] == builtin_tier7()[5]);
                    assert(r[76].id == r[79].prerequisites[0]);
                } else if q == 1 {
                    assert(r[35] == builtin_tier4()[0]);
                    assert(r[35].id == r[79].prerequisites[1]);
                } else if q == 2 {
                    assert(r[5] == builtin_tier1()[1]);
                    assert(r[5].id == r[79].prerequisites[2]);
                }
            }
        } else if a == 80 {
            reveal_strlit("calc.series_conv");
            assert(r[80] == builtin_tier7()[9]);
            assert forall|m: int| 0 <= m < r[80].patterns.len() implies #[trigger] homed(r[80], r[80].patterns[m]) by {
                if m == 0 {
                }
            }
            assert forall|q: int| 0 <= q < r[80].prerequisites.len() implies #[trigger] named_before(
                r,
                80,
                r[80].prerequisites[q],
            ) by {
                if q == 0 {
                    assert(r[71] == builtin_tier7()[0]);
                    assert(r[71].id == r[80].prerequisites[0]);
                } else if q == 1 {
                    assert(r[59] == builtin_tier5()[11]);
                    assert(r[59].id == r[80].prerequisites[1]);
                }
            }
        } else if a == 81 {
            reveal_strlit("calc.taylor");
            assert(r[81] == builtin_tier7()[10]);
            assert forall|m: int| 0 <= m < r[81].patterns.len() implies #[trigger] homed(r[81], r[81].patterns[m]) by {
                if m == 0 {
                }
            }
            assert forall|q: int| 0 <= q < r[81].prerequisites.len() implies #[trigger] named_before(
                r,
                81,
                r[81].prerequisites[q],
            ) by {
                if q == 0 {
                    assert(r[72] == builtin_tier7()[1]);
                    assert(r[72].id == r[81].prerequisites[0]);
                } else if q == 1 {
                    assert(r[59] == builtin_tier5()[11]);
                    assert(r[59].id == r[81].prerequisites[1]);
                } else if q == 2 {
                    assert(r[27] == builtin_tier3()[10]);
                    assert(r[27].id == r[81].prerequisites[2]);
                }
            }
        } else if a == 82 {
            reveal_strlit("calc.diff_eq");
            assert(r[82] == builtin_tier7()[11]);
            assert forall|m: int| 0 <= m < r[82].patterns.len() implies #[trigger] homed(r[82], r[82].patterns[m]) by {
                if m == 0 {
                }
            }
            assert forall|q: int| 0 <= q < r[82].prerequisites.len() implies #[trigger] named_before(
                r,
                82,
                r[82].prerequisites[q],
            ) by {
                if q == 0 {
                    assert(r[76] == builtin_tier7()[5]);
                    assert(r[76].id == r[82].prerequisites[0]);
                } else if q == 1 {
                    assert(r[72] == builtin_tier7()[1]);
                    assert(r[72].id == r[82].prerequisites[1]);
                } else if q == 2 {
                    assert(r[37] == builtin_tier4()[2]);
                    assert(r[37].id == r[82].prerequisites[2]);
                }
            }
        } else if a == 83 {
            reveal_strlit("calc.partial_deriv");
            assert(r[83] == builtin_tier7()[12]);
            assert forall|m: int| 0 <= m < r[83].patterns.len() implies #[trigger] homed(r[83], r[83].patterns[m]) by {
                if m == 0 {
                }
            }
            assert forall|q: int| 0 <= q < r[83].prerequisites.len() implies #[trigger] named_before(
                r,
                83,
                r[83].prerequisites[q],
            ) by {
                if q == 0 {
                    assert(r[72] == builtin_tier7()[1]);
                    assert(r[72].id == r[83].prerequisites[0]);
                }
            }
        } else if a == 84 {
            reveal_strlit("calc.multi_integral");
            assert(r[84] == builtin_tier7()[13]);
            assert forall|m: int| 0 <= m < r[84].patterns.len() implies #[trigger] homed(r[84], r[84].patterns[m]) by {
                if m == 0 {
                }
            }
            assert forall|q: int| 0 <= q < r[84].prerequisites.len() implies #[trigger] named_before(
                r,
                84,
                r[84].prerequisites[q],
            ) by {
                if q == 0 {
                    assert(r[79] == builtin_tier7()[8]);
                    assert(r[79].id == r[84].prerequisites[0]);
                }
            }
        }
    }
}

/// The rules of tier 8 pass the per-rule checks.
proof fn lemma_tier8_checked()
    ensures
        forall|a: int| 85 <= a < 97 ==> #[trigger] checked_at(builtin_library(), a),
{
    let r = builtin_library();
    lemma_builtin_tiers();
    assert forall|a: int| 85 <= a < 97 implies #[trigger] checked_at(r, a) by {
        if a == 85 {
            reveal_strlit("la.vec_add");
            assert(r[85] == builtin_tier8()[0]);
            assert forall|m: int| 0 <= m < r[85].patterns.len() implies #[trigger] homed(r[85], r[85].patterns[m]) by {
                if m == 0 {
                }
            }
            assert forall|q: int| 0 <= q < r[85].prerequisites.len() implies #[trigger] named_before(
                r,
                85,
                r[85].prerequisites[q],
            ) by {
                if q == 0 {
                    assert(r[4] == builtin_tier1()[0]);
                    assert(r[4].id == r[85].prerequisites[0]);
                }
            }
        } else if a == 86 {
            reveal_strlit("la.dot_product");
            assert(r[86] == builtin_tier8()[1]);
            assert forall|m: int| 0 <= m < r[86].patterns.len() implies #[trigger] homed(r[86], r[86].patterns[m]) by {
                if m == 0 {
                }
            }
            assert forall|q: int| 0 <= q < r[86].prerequisites.len() implies #[trigger] named_before(
                r,
                86,
                r[86].prerequisites[q],
            ) by {
                if q == 0 {
                    assert(r[6] == builtin_tier1()[2]);
                    assert(r[6].id == r[86].prerequisites[0]);
                } else if q == 1 {
                    assert(r[4] == builtin_tier1()[0]);
                    assert(r[4].id == r[86].prerequisites[1]);
                }
            }
        } else if a == 87 {
            reveal_strlit("la.cross_product");
            assert(r[87] == builtin_tier8()[2]);
            assert forall|m: int| 0 <= m < r[87].patterns.len() implies #[trigger] homed(r[87], r[87].patterns[m]) by {
                if m == 0 {
                }
            }
            assert forall|q: int| 0 <= q < r[87].prerequisites.len() implies #[trigger] named_before(
                r,
                87,
                r[87].prerequisites[q],
            ) by {
                if q == 0 {
                    assert(r[6] == builtin_tier1()[2]);
                    assert(r[6].id == r[87].prerequisites[0]);
                } else if q == 1 {
                    assert(r[5] == builtin_tier1()[1]);
                    assert(r[5].id == r[87].prerequisites[1]);
                }
            }
        } else if a == 88 {
            reveal_strlit("la.vec_norm");
            assert(r[88] == builtin_tier8()[3]);
            assert forall|m: int| 0 <= m < r[88].patterns.len() implies #[trigger] homed(r[88], r[88].patterns[m]) by {
                if m == 0 {
                }
            }
            assert forall|q: int| 0 <= q < r[88].prerequisites.len() implies #[trigger] named_before(
                r,
                88,
                r[88].prerequisites[q],
            ) by {
                if q == 0 {
                    assert(r[29] == builtin_tier3()[12]);
                    assert(r[29].id == r[88].prerequisites[0]);
                } else if q == 1 {
                    assert(r[27] == builtin_tier3()[10]);
                    assert(r[27].id == r[88].prerequisites[1]);
                } else if q == 2 {
                    assert(r[4] == builtin_tier1()[0]);
                    assert(r[4].id == r[88].prerequisites[2]);
                }
            }
        } else if a == 89 {
            reveal_strlit("la.transpose");
            assert(r[89] == builtin_tier8()[4]);
            assert forall|m: int| 0 <= m < r[89].patterns.len() implies #[trigger] homed(r[89], r[89].patterns[m]) by {
                if m == 0 {
                }
            }
        } else if a == 90 {
            reveal_strlit("la.eigenvalue");
            assert(r[90] == builtin_tier8()[5]);
            assert forall|m: int| 0 <= m < r[90].patterns.len() implies #[trigger] homed(r[90], r[90].patterns[m]) by {
                if m == 0 {
                }
            }
            assert forall|q: int| 0 <= q < r[90].prerequisites.len() implies #[trigger] named_before(
                r,
                90,
                r[90].prerequisites[q],
            ) by {
                if q == 0 {
                    assert(r[51] == builtin_tier5()[3]);
                    assert(r[51].id == r[90].prerequisites[0]);
                } else if q == 1 {
                    assert(r[39] == builtin_tier4()[4]);
                    assert(r[39].id == r[90].prerequisites[1]);
                }
            }
        } else if a == 91 {
            reveal_strlit("la.eigenvector");
            assert(r[91] == builtin_tier8()[6]);
            assert forall|m: int| 0 <= m < r[91].patterns.len() implies #[trigger] homed(r[91], r[91].patterns[m]) by {
                if m == 0 {
                }
            }
            assert forall|q: int| 0 <= q < r[91].prerequisites.len() implies #[trigger] named_before(
                r,
                91,
                r[91].prerequisites[q],
            ) by {
                if q == 0 {
                    assert(r[90] == builtin_tier8()[5]);
                    assert(r[90].id == r[91].prerequisites[0]);
                } else if q == 1 {
                    assert(r[48] == builtin_tier5()[0]);
                    assert(r[48].id == r[91].prerequisites[1]);
                }
            }
        } else if a == 92 {
            reveal_strlit("la.linear_transform");
            assert(r[92] == builtin_tier8()[7]);
            assert forall|m: int| 0 <= m < r[92].patterns.len() implies #[trigger] homed(r[92], r[92].patterns[m]) by {
                if m == 0 {
                }
            }
            assert forall|q: int| 0 <= q < r[92].prerequisites.len() implies #[trigger] named_before(
                r,
                92,
                r[92].prerequisites[q],
            ) by {
                if q == 0 {
                    assert(r[50] == builtin_tier5()[2]);
                    assert(r[50].id == r[92].prerequisites[0]);
                }
            }
        } else if a == 93 {
            reveal_strlit("la.mat_decompose");
            assert(r[93] == builtin_tier8()[8]);
            assert forall|m: int| 0 <= m < r[93].patterns.len() implies #[trigger] homed(r[93], r[93].patterns[m]) by {
                if m == 0 {
                }
            }
            assert forall|q: int| 0 <= q < r[93].prerequisites.len() implies #[trigger] named_before(
                r,
                93,
                r[93].prerequisites[q],
            ) by {
                if q == 0 {
                    assert(r[50] == builtin_tier5()[2]);
                    assert(r[50].id == r[93].prerequisites[0]);
                } else if q == 1 {
                    assert(r[51] == builtin_tier5()[3]);
                    assert(r[51].id == r[93].prerequisites[1]);
                } else if q == 2 {
                    assert(r[88] == builtin_tier8()[3]);
                    assert(r[88].id == r[93].prerequisites[2]);
                }
            }
        } else if a == 94 {
            reveal_strlit("la.vec_project");
            assert(r[94] == builtin_tier8()[9]);
            assert forall|m: int| 0 <= m < r[94].patterns.len() implies #[trigger] homed(r[94], r[94].patterns[m]) by {
                if m == 0 {
                }
            }
            assert forall|q: int| 0 <= q < r[94].prerequisites.len() implies #[trigger] named_before(
                r,
                94,
                r[94].prerequisites[q],
            ) by {
                if q == 0 {
                    assert(r[86] == builtin_tier8()[1]);
                    assert(r[86].id == r[94].prerequisites[0]);
                } else if q == 1 {
                    assert(r[7] == builtin_tier1()[3]);
                    assert(r[7].id == r[94].prerequisites[1]);
                } else if q == 2 {
                    assert(r[6] == builtin_tier1()[2]);
                    assert(r[6].id == r[94].prerequisites[2]);
                }
            }
        } else if a == 95 {
            reveal_strlit("la.gram_schmidt");
            assert(r[95] == builtin_tier8()[10]);
            assert forall|m: int| 0 <= m < r[95].patterns.len() implies #[trigger] homed(r[95], r[95].patterns[m]) by {
                if m == 0 {
                }
            }
            assert forall|q: int| 0 <= q < r[95].prerequisites.len() implies #[trigger] named_before(
                r,
                95,
                r[95].prerequisites[q],
            ) by {
                if q == 0 {
                    assert(r[94] == builtin_tier8()[9]);
                    assert(r[94].id == r[95].prerequisites[0]);
                } else if q == 1 {
                    assert(r[88] == builtin_tier8()[3]);
                    assert(r[88].id == r[95].prerequisites[1]);
                }
            }
        } else if a == 96 {
            reveal_strlit("la.rank_nullity");
            assert(r[96] == builtin_tier8()[11]);
            assert forall|m: int| 0 <= m < r[96].patterns.len() implies #[trigger] homed(r[96], r[96].patterns[m]) by {
                if m == 0 {
                }
            }
            assert forall|q: int| 0 <= q < r[96].prerequisites.len() implies #[trigger] named_before(
                r,
                96,
                r[96].prerequisites[q],
            ) by {
                if q == 0 {
                    assert(r[48] == builtin_tier5()[0]);
                    assert(r[48].id == r[96].prerequisites[0]);
                }
            }
        }
    }
}

/// The rules of tier 9 pass the per-rule checks.
proof fn lemma_tier9_checked()
    ensures
        forall|a: int| 97 <= a < 111 ==> #[trigger] checked_at(builtin_library(), a),
{
    let r = builtin_library();
    lemma_builtin_tiers();
    assert forall|a: int| 97 <= a < 111 implies #[trigger] checked_at(r, a) by {
        if a == 97 {
            reveal_strlit("abs.mod_arith");
            assert(r[97] == builtin_tier9()[0]);
            assert forall|m: int| 0 <= m < r[97].patterns.len() implies #[trigger] homed(r[97], r[97].patterns[m]) by {
                if m == 0 {
                }
            }
            assert forall|q: int| 0 <= q < r[97].prerequisites.len() implies #[trigger] named_before(
                r,
                97,
                r[97].prerequisites[q],
            ) by {
                if q == 0 {
                    assert(r[7] == builtin_tier1()[3]);
                    assert(r[7].id == r[97].prerequisites[0]);
                }
            }
        } else if a == 98 {
            reveal_strlit("abs.permutation");
            assert(r[98] == builtin_tier9()[1]);
            assert forall|m: int| 0 <= m < r[98].patterns.len() implies #[trigger] homed(r[98], r[98].patterns[m]) by {
                if m == 0 {
                }
            }
            assert forall|q: int| 0 <= q < r[98].prerequisites.len() implies #[trigger] named_before(
                r,
                98,
                r[98].prerequisites[q],
            ) by {
                if q == 0 {
                    assert(r[6] == builtin_tier1()[2]);
                    assert(r[6].id == r[98].prerequisites[0]);
                } else if q == 1 {
                    assert(r[7] == builtin_tier1()[3]);
                    assert(r[7].id == r[98].prerequisites[1]);
                }
            }
        } else if a == 99 {
            reveal_strlit("abs.combination");
            assert(r[99] == builtin_tier9()[2]);
            assert forall|m: int| 0 <= m < r[99].patterns.len() implies #[trigger] homed(r[99], r[99].patterns[m]) by {
                if m == 0 {
                }
            }
            assert forall|q: int| 0 <= q < r[99].prerequisites.len() implies #[trigger] named_before(
                r,
                99,
                r[99].prerequisites[q],
            ) by {
                if q == 0 {
                    assert(r[98] == builtin_tier9()[1]);
                    assert(r[98].id == r[99].prerequisites[0]);
                } else if q == 1 {
                    assert(r[7] == builtin_tier1()[3]);
                    assert(r[7].id == r[99].prerequisites[1]);
                }
            }
        } else if a == 100 {
            reveal_strlit("abs.prob_basic");
            assert(r[100] == builtin_tier9()[3]);
            assert forall|m: int| 0 <= m < r[100].patterns.len() implies #[trigger] homed(r[100], r[100].patterns[m]) by {
                if m == 0 {
                }
            }
            assert forall|q: int| 0 <= q < r[100].prerequisites.len() implies #[trigger] named_before(
                r,
                100,
                r[100].prerequisites[q],
            ) by {
                if q == 0 {
                    assert(r[7] == builtin_tier1()[3]);
                    assert(r[7].id == r[100].prerequisites[0]);
                } else if q == 1 {
                    assert(r[99] == builtin_tier9()[2]);
                    assert(r[99].id == r[100].prerequisites[1]);
                }
            }
        } else if a == 101 {
            reveal_strlit("abs.prob_cond");
            assert(r[101] == builtin_tier9()[4]);
            assert forall|m: int| 0 <= m < r[101].patterns.len() implies #[trigger] homed(r[101], r[101].patterns[m]) by {
                if m == 0 {
                }
            }
            assert forall|q: int| 0 <= q < r[101].prerequisites.len() implies #[trigger] named_before(
                r,
                101,
                r[101].prerequisites[q],
            ) by {
                if q == 0 {
                    assert(r[100] == builtin_tier9()[3]);
                    assert(r[100].id == r[101].prerequisites[0]);
                } else if q == 1 {
                    assert(r[7] == builtin_tier1()[3]);
                    assert(r[7].id == r[101].prerequisites[1]);
                }
            }
        } else if a == 102 {
            reveal_strlit("abs.bayes");
            assert(r[102] == builtin_tier9()[5]);
            assert forall|m: int| 0 <= m < r[102].patterns.len() implies #[trigger] homed(r[102], r[102].patterns[m]) by {
                if m == 0 {
                }
            }
            assert forall|q: int| 0 <= q < r[102].prerequisites.len() implies #[trigger] named_before(
                r,
                102,
                r[102].prerequisites[q],
            ) by {
                if q == 0 {
                    assert(r[101] == builtin_tier9()[4]);
                    assert(r[101].id == r[102].prerequisites[0]);
                } else if q == 1 {
                    assert(r[6] == builtin_tier1()[2]);
                    assert(r[6].id == r[102].prerequisites[1]);
                } else if q == 2 {
                    assert(r[7] == builtin_tier1()[3]);
                    assert(r[7].id == r[102].prerequisites[2]);
                }
            }
        } else if a == 103 {
            reveal_strlit("abs.expected_val");
            assert(r[103] == builtin_tier9()[6]);
            assert forall|m: int| 0 <= m < r[103].patterns.len() implies #[trigger] homed(r[103], r[103].patterns[m]) by {
                if m == 0 {
                }
            }
            assert forall|q: int| 0 <= q < r[103].prerequisites.len() implies #[trigger] named_before(
                r,
                103,
                r[103].prerequisites[q],
            ) by {
                if q == 0 {
                    assert(r[100] == builtin_tier9()[3]);
                    assert(r[100].id == r[103].prerequisites[0]);
                } else if q == 1 {
                    assert(r[6] == builtin_tier1()[2]);
                    assert(r[6].id == r[103].prerequisites[1]);
                } else if q == 2 {
                    assert(r[4] == builtin_tier1()[0]);
                    assert(r[4].id == r[103].prerequisites[2]);
                }
            }
        } else if a == 104 {
            reveal_strlit("abs.variance");
            assert(r[104] == builtin_tier9()[7]);
            assert forall|m: int| 0 <= m < r[104].patterns.len() implies #[trigger] homed(r[104], r[104].patterns[m]) by {
                if m == 0 {
                }
            }
            assert forall|q: int| 0 <= q < r[104].prerequisites.len() implies #[trigger] named_before(
                r,
                104,
                r[104].prerequisites[q],
            ) by {
                if q == 0 {
                    assert(r[103] == builtin_tier9()[6]);
                    assert(r[103].id == r[104].prerequisites[0]);
                } else if q == 1 {
                    assert(r[27] == builtin_tier3()[10]);
                    assert(r[27].id == r[104].prerequisites[1]);
                } else if q == 2 {
                    assert(r[5] == builtin_tier1()[1]);
                    assert(r[5].id == r[104].prerequisites[2]);
                }
            }
        } else if a == 105 {
            reveal_strlit("abs.std_dev");
            assert(r[105] == builtin_tier9()[8]);
            assert forall|m: int| 0 <= m < r[105].patterns.len() implies #[trigger] homed(r[105], r[105].patterns[m]) by {
                if m == 0 {
                }
            }
            assert forall|q: int| 0 <= q < r[105].prerequisites.len() implies #[trigger] named_before(
                r,
                105,
                r[105].prerequisites[q],
            ) by {
                if q == 0 {
                    assert(r[104] == builtin_tier9()[7]);
                    assert(r[104].id == r[105].prerequisites[0]);
                } else if q == 1 {
                    assert(r[29] == builtin_tier3()[12]);
                    assert(r[29].id == r[105].prerequisites[1]);
                }
            }
        } else if a == 106 {
            reveal_strlit("abs.normal_dist");
            assert(r[106] == builtin_tier9()[9]);
            assert forall|m: int| 0 <= m < r[106].patterns.len() implies #[trigger] homed(r[106], r[106].patterns[m]) by {
                if m == 0 {
                }
            }
            assert forall|q: int| 0 <= q < r[106].prerequisites.len() implies #[trigger] named_before(
                r,
                106,
                r[106].prerequisites[q],
            ) by {
                if q == 0 {
                    assert(r[105] == builtin_tier9()[8]);
                    assert(r[105].id == r[106].prerequisites[0]);
                } else if q == 1 {
                    assert(r[103] == builtin_tier9()[6]);
                    assert(r[103].id == r[106].prerequisites[1]);
                } else if q == 2 {
                    assert(r[7] == builtin_tier1()[3]);
                    assert(r[7].id == r[106].prerequisites[2]);
                }
            }
        } else if a == 107 {
            reveal_strlit("abs.hyp_test");
            assert(r[107] == builtin_tier9()[10]);
            assert forall|m: int| 0 <= m < r[107].patterns.len() implies #[trigger] homed(r[107], r[107].patterns[m]) by {
                if m == 0 {
                }
            }
            assert forall|q: int| 0 <= q < r[107].prerequisites.len() implies #[trigger] named_before(
                r,
                107,
                r[107].prerequisites[q],
            ) by {
                if q == 0 {
                    assert(r[106] == builtin_tier9()[9]);
                    assert(r[106].id == r[107].prerequisites[0]);
                } else if q == 1 {
                    assert(r[105] == builtin_tier9()[8]);
                    assert(r[105].id == r[107].prerequisites[1]);
                }
            }
        } else if a == 108 {
            reveal_strlit("abs.graph_adj");
            assert(r[108] == builtin_tier9()[11]);
            assert forall|m: int| 0 <= m < r[108].patterns.len() implies #[trigger] homed(r[108], r[108].patterns[m]) by {
                if m == 0 {
                }
            }
            assert forall|q: int| 0 <= q < r[108].prerequisites.len() implies #[trigger] named_before(
                r,
                108,
                r[108].prerequisites[q],
            ) by {
                if q == 0 {
                    assert(r[49] == builtin_tier5()[1]);
                    assert(r[49].id == r[108].prerequisites[0]);
                }
            }
        } else if a == 109 {
            reveal_strlit("abs.shortest_path");
            assert(r[109] == builtin_tier9()[12]);
            assert forall|m: int| 0 <= m < r[109].patterns.len() implies #[trigger] homed(r[109], r[109].patterns[m]) by {
                if m == 0 {
                }
            }
            assert forall|q: int| 0 <= q < r[109].prerequisites.len() implies #[trigger] named_before(
                r,
                109,
                r[109].prerequisites[q],
            ) by {
                if q == 0 {
                    assert(r[108] == builtin_tier9()[11]);
                    assert(r[108].id == r[109].prerequisites[0]);
                } else if q == 1 {
                    assert(r[4] == builtin_tier1()[0]);
                    assert(r[4].id == r[109].prerequisites[1]);
                }
            }
        } else if a == 110 {
            reveal_strlit("abs.optimize");
            assert(r[110] == builtin_tier9()[13]);
            assert forall|m: int| 0 <= m < r[110].patterns.len() implies #[trigger] homed(r[110], r[110].patterns[m]) by {
                if m == 0 {
                }
            }
            assert forall|q: int| 0 <= q < r[110].prerequisites.len() implies #[trigger] named_before(
                r,
                110,
                r[110].prerequisites[q],
            ) by {
                if q == 0 {
                    assert(r[72] == builtin_tier7()[1]);
                    assert(r[72].id == r[110].prerequisites[0]);
                } else if q == 1 {
                    assert(r[48] == builtin_tier5()[0]);
                    assert(r[48].id == r[110].prerequisites[1]);
                }
            }
        }
    }
}

/// Every registration of the built-in library is where the code of its id
/// points, and names only earlier registrations as prerequisites.
proof fn lemma_builtin_checked()
    ensures
        forall|a: int| 0 <= a < 111 ==> #[trigger] checked_at(builtin_library(), a),
{
    lemma_tier0_checked();
    lemma_tier1_checked();
    lemma_tier2_checked();
    lemma_tier3_checked();
    lemma_tier4_checked();
    lemma_tier5_checked();
    lemma_tier6_checked();
    lemma_tier7_checked();
    lemma_tier8_checked();
    lemma_tier9_checked();
}

/// The built-in rule ids are distinct, and every prerequisite of a built-in
/// rule names a rule registered before it.
pub proof fn lemma_builtin_ids_ordered()
    ensures
        builtin_library().len() == 111,
        distinct_ids(builtin_library()),
        prerequisites_earlier(builtin_library()),
{
    let r = builtin_library();
    lemma_builtin_tiers();
    lemma_builtin_checked();
    assert forall|a: int, b: int| 0 <= a < b < r.len() implies (#[trigger] r[a]).id != (#[trigger] r[b]).id by {
        assert(checked_at(r, a));
        assert(checked_at(r, b));
    }
    assert forall|a: int, q: int| 0 <= a < r.len() && 0 <= q < r[a].prerequisites.len() implies #[trigger] named_before(
        r,
        a,
        r[a].prerequisites[q],
    ) by {
        assert(checked_at(r, a));
    }
}

/// The built-in library is well formed: its prerequisite relation has no
/// cycle, and every prerequisite a built-in rule names is itself a built-in rule.
pub proof fn law_builtin_library_well_formed()
    ensures
        acyclic(builtin_library()),
        prerequisites_held(builtin_library()),
{
    lemma_builtin_ids_ordered();
    lemma_ordered_library(builtin_library());
}

/// A rule reached from a built-in rule through prerequisites is of at most
/// its tier.
proof fn lemma_builtin_reach_tier(id: Seq<char>, x: Seq<char>)
    requires
        reaches(builtin_library(), id, x),
    ensures
        lookup(builtin_library(), x)->Some_0.tier() <= lookup(builtin_library(), id)->Some_0.tier(),
{
    let r = builtin_library();
    lemma_builtin_ids_ordered();
    lemma_builtin_checked();
    let path = choose|path: Seq<Seq<char>>| is_prereq_path(r, path) && path[0] == id && path.last() == x;
    lemma_path_rank(r, path, path.len() - 1);
    assert(has_id(r, path[0]));
    assert(has_id(r, path[path.len() - 1]));
    crate::rule_library::lemma_latest_index_props(r, id);
    crate::rule_library::lemma_latest_index_props(r, x);
    let li = latest_index(r, id);
    let lx = latest_index(r, x);
    assert(checked_at(r, li));
    assert(checked_at(r, lx));
}

/// The highest tier of a sequence of rules that are all of at most the
/// tier of the last one is that tier.
proof fn lemma_max_tier_last(rs: Seq<RuleView>)
    requires
        rs.len() > 0,
        forall|k: int| 0 <= k < rs.len() ==> (#[trigger] rs[k]).tier() <= rs.last().tier(),
    ensures
        max_tier(rs) == rs.last().tier(),
{
    lemma_max_tier_at_most(rs.drop_last(), rs.last().tier());
}

proof fn lemma_max_tier_at_most(rs: Seq<RuleView>, t: nat)
    requires
        forall|k: int| 0 <= k < rs.len() ==> (#[trigger] rs[k]).tier() <= t,
    ensures
        max_tier(rs) <= t,
    decreases rs.len(),
{
    if rs.len() > 0 {
        let d = rs.drop_last();
        assert forall|k: int| 0 <= k < d.len() implies (#[trigger] d[k]).tier() <= t by {
            assert(d[k] == rs[k]);
        }
        lemma_max_tier_at_most(d, t);
        assert(rs[rs.len() - 1].tier() <= t);
    }
}

/// A chain retrieved from the built-in library for a single pattern validates,
/// is the dependency graph of the primary rule and ends with it, and its
/// highest tier is the primary rule's tier; the result's tier and domain are
/// the primary rule's.
pub proof fn law_builtin_retrieval(p: PatternType, res: RetrievalResult)
    requires
        retrieval_of(builtin_library(), p, Seq::empty(), true, res),
    ensures
        res.validated,
        res.chain@.len() > 0,
        res.chain@.last().id == res.primary_rule_id@,
        ids_of(res.chain@) == dfs_chain_ids(builtin_library(), res.primary_rule_id@),
        res.tier == res.chain@.last().tier(),
        res.domain == res.chain@.last().domain,
        res.tier == max_tier(res.chain@),
{
    let r = builtin_library();
    law_builtin_library_well_formed();
    law_retrieved_chain_validates(r, p, res);
    law_retrieved_chain_is_dependency_graph(r, p, res);
    lemma_pattern_chain(r, p, res);
    lemma_best_rule_held(r, p);
    let best = best_rule(r, p)->Some_0;
    let c = res.chain@;
    let last = c[c.len() - 1];
    assert(lookup(r, last.id) == Some(last));
    assert(last == best);
    assert forall|k: int| 0 <= k < c.len() implies (#[trigger] c[k]).tier() <= c.last().tier() by {
        assert(ids_of(c)[k] == c[k].id);
        assert(ids_of(c).contains(c[k].id));
        assert(reaches(r, best.id, c[k].id));
        lemma_builtin_reach_tier(best.id, c[k].id);
        assert(lookup(r, c[k].id) == Some(c[k]));
    }
    lemma_max_tier_last(c);
}

/// A pattern list matches `p` exactly when one of its patterns is `p`.
proof fn lemma_count_matching(pats: Seq<PatternType>, p: PatternType)
    ensures
        count_matching(pats, p) > 0 <==> exists|m: int| 0 <= m < pats.len() && (#[trigger] pats[m]).equiv(p),
    decreases pats.len(),
{
    if pats.len() > 0 {
        let d = pats.drop_last();
        lemma_count_matching(d, p);
        if exists|m: int| 0 <= m < d.len() && (#[trigger] d[m]).equiv(p) {
            let m = choose|m: int| 0 <= m < d.len() && (#[trigger] d[m]).equiv(p);
            assert(pats[m] == d[m]);
        }
        if exists|m: int| 0 <= m < pats.len() && (#[trigger] pats[m]).equiv(p) {
            let m = choose|m: int| 0 <= m < pats.len() && (#[trigger] pats[m]).equiv(p);
            if m < d.len() {
                assert(pats[m] == d[m]);
            }
        }
    }
}

/// The ids indexed under a pattern are those of registrations with the
/// pattern, and there is one for each such registration.
proof fn lemma_pattern_ids_from(regs: Seq<RuleView>, p: PatternType, n: int)
    requires
        0 <= n <= regs.len(),
    ensures
        forall|k: int|
            0 <= k < pattern_ids(regs, p, n).len() ==> exists|j: int|
                0 <= j < n && #[trigger] pattern_ids(regs, p, n)[k] == regs[j].id && count_matching(
                    regs[j].patterns,
                    p,
                ) > 0,
        (exists|j: int| 0 <= j < n && count_matching(#[trigger] regs[j].patterns, p) > 0) ==> pattern_ids(
            regs,
            p,
            n,
        ).len() > 0,
    decreases n,
{
    if n > 0 {
        lemma_pattern_ids_from(regs, p, n - 1);
        let prev = pattern_ids(regs, p, n - 1);
        let ids = pattern_ids(regs, p, n);
        assert forall|k: int| 0 <= k < ids.len() implies exists|j: int|
            0 <= j < n && #[trigger] ids[k] == regs[j].id && count_matching(regs[j].patterns, p) > 0 by {
            if k < prev.len() {
                assert(ids[k] == prev[k]);
                let j = choose|j: int|
                    0 <= j < n - 1 && #[trigger] prev[k] == regs[j].id && count_matching(regs[j].patterns, p) > 0;
            } else {
                assert(ids[k] == regs[n - 1].id);
            }
        }
        if exists|j: int| 0 <= j < n && count_matching(#[trigger] regs[j].patterns, p) > 0 {
            let j = choose|j: int| 0 <= j < n && count_matching(#[trigger] regs[j].patterns, p) > 0;
            if j == n - 1 {
                assert(ids.len() >= count_matching(regs[n - 1].patterns, p));
            }
        }
    }
}

/// Ordering by specificity keeps the rules it orders.
proof fn lemma_by_specificity_members(s: Seq<RuleView>)
    ensures
        by_specificity(s).len() == s.len(),
        forall|k: int| 0 <= k < by_specificity(s).len() ==> s.contains(#[trigger] by_specificity(s)[k]),
    decreases s.len(),
{
    if s.len() > 0 {
        let d = s.drop_last();
        lemma_by_specificity_members(d);
        lemma_insert_members(by_specificity(d), s.last());
        let t = by_specificity(s);
        assert forall|k: int| 0 <= k < t.len() implies s.contains(#[trigger] t[k]) by {
            if t[k] != s.last() {
                let b = by_specificity(d);
                assert(b.contains(t[k]));
                let i = choose|i: int| 0 <= i < b.len() && b[i] == t[k];
                assert(d.contains(b[i]));
                let j = choose|j: int| 0 <= j < d.len() && d[j] == b[i];
                assert(s[j] == d[j]);
            } else {
                assert(s[s.len() - 1] == s.last());
            }
        }
    }
}

proof fn lemma_insert_members(s: Seq<RuleView>, r: RuleView)
    ensures
        insert_by_specificity(s, r).len() == s.len() + 1,
        forall|k: int|
            0 <= k < insert_by_specificity(s, r).len() ==> #[trigger] insert_by_specificity(s, r)[k] == r
                || s.contains(insert_by_specificity(s, r)[k]),
    decreases s.len(),
{
    let t = insert_by_specificity(s, r);
    if s.len() == 0 {
    } else if at_least_as_specific(s.last(), r) {
        assert forall|k: int| 0 <= k < t.len() implies #[trigger] t[k] == r || s.contains(t[k]) by {
            if k < s.len() {
                assert(t[k] == s[k]);
            }
        }
    } else {
        let d = s.drop_last();
        lemma_insert_members(d, r);
        let u = insert_by_specificity(d, r);
        assert forall|k: int| 0 <= k < t.len() implies #[trigger] t[k] == r || s.contains(t[k]) by {
            if k < u.len() {
                assert(t[k] == u[k]);
                if u[k] != r {
                    let i = choose|i: int| 0 <= i < d.len() && d[i] == u[k];
                    assert(s[i] == d[i]);
                }
            } else {
                assert(t[k] == s[s.len() - 1]);
            }
        }
    }
}

/// Classification names patterns that classification gives a domain, with
/// that domain.
proof fn lemma_pattern_of_classified(a: AstView)
    ensures
        classified_domain(pattern_of(a).1) == Some(pattern_of(a).0),
{
}

/// A built-in registration whose first pattern is `p`, for the patterns classification names.
pub open spec fn served_by(p: PatternType) -> int {
    match p {
        PatternType::TrigEvaluation => 63,
        PatternType::InverseTrig => 65,
        PatternType::Logarithm => 60,
        PatternType::SquareRoot => 29,
        PatternType::NthRoot => 30,
        PatternType::AbsoluteValue => 31,
        PatternType::GCD => 17,
        PatternType::LCM => 18,
        PatternType::ModularArithmetic => 97,
        PatternType::LinearInequalitySolve => 38,
        PatternType::QuadraticEquationSolve => 39,
        PatternType::LinearEquationSolve => 37,
        PatternType::LikeTermsCombination => 36,
        PatternType::PolynomialMultiplication => 41,
        PatternType::ExponentEvaluation => 27,
        PatternType::VariableSubstitution => 35,
        PatternType::FractionAddition => 21,
        PatternType::FractionSubtraction => 22,
        PatternType::FractionMultiplication => 23,
        PatternType::FractionDivision => 24,
        PatternType::FractionSimplification => 20,
        PatternType::SingleDigitAddition => 0,
        PatternType::SingleDigitSubtraction => 1,
        PatternType::SingleDigitMultiplication => 2,
        PatternType::SingleDigitDivision => 3,
        PatternType::Permutation => 98,
        PatternType::MultiDigitAddition => 4,
        PatternType::MultiDigitSubtraction => 5,
        PatternType::MultiDigitMultiplication => 6,
        PatternType::MultiDigitDivision => 7,
        _ => 0,
    }
}

/// Some built-in rule has each pattern that classification names.
proof fn lemma_classified_pattern_served(p: PatternType)
    requires
        classified_domain(p) is Some,
    ensures
        exists|j: int| 0 <= j < 111 && count_matching(#[trigger] builtin_library()[j].patterns, p) > 0,
{
    let r = builtin_library();
    lemma_builtin_tiers();
    let j = served_by(p);
    assert(r[j].patterns[0] == p);
    lemma_count_matching(r[j].patterns, p);
}

/// Every pattern that classification names is served by the built-in
/// library, and every built-in rule for it, in either order, is of the
/// domain the classification gives.
pub proof fn law_classification_served(a: AstView)
    ensures
        pattern_rules_of(builtin_library(), pattern_of(a).1).len() > 0,
        forall|k: int|
            0 <= k < pattern_rules_of(builtin_library(), pattern_of(a).1).len() ==> (#[trigger] pattern_rules_of(
                builtin_library(),
                pattern_of(a).1,
            )[k]).domain == pattern_of(a).0,
        by_specificity(pattern_rules_of(builtin_library(), pattern_of(a).1)).len() > 0,
        forall|k: int|
            0 <= k < by_specificity(pattern_rules_of(builtin_library(), pattern_of(a).1)).len()
                ==> (#[trigger] by_specificity(pattern_rules_of(builtin_library(), pattern_of(a).1))[k]).domain
                == pattern_of(a).0,
{
    let r = builtin_library();
    let (d, p) = pattern_of(a);
    lemma_pattern_of_classified(a);
    lemma_builtin_ids_ordered();
    lemma_builtin_checked();
    lemma_classified_pattern_served(p);
    lemma_pattern_ids_from(r, p, 111);
    let ids = pattern_ids(r, p, 111);
    let cs = pattern_rules_of(r, p);
    assert forall|k: int| 0 <= k < cs.len() implies (#[trigger] cs[k]).domain == d by {
        let j = choose|j: int| 0 <= j < 111 && #[trigger] ids[k] == r[j].id && count_matching(r[j].patterns, p) > 0;
        assert forall|i: int| j < i < r.len() implies (#[trigger] r[i]).id != r[j].id by {}
        crate::rule_library::lemma_latest_index_props(r, r[j].id);
        let l = latest_index(r, r[j].id);
        if l != j {
            assert(r[l].id == r[j].id);
        }
        assert(cs[k] == r[j]);
        lemma_count_matching(r[j].patterns, p);
        let m = choose|m: int| 0 <= m < r[j].patterns.len() && (#[trigger] r[j].patterns[m]).equiv(p);
        assert(r[j].patterns[m] == p);
        assert(checked_at(r, j));
        assert(homed(r[j], r[j].patterns[m]));
    }
    lemma_by_specificity_members(cs);
    let b = by_specificity(cs);
    assert forall|k: int| 0 <= k < b.len() implies (#[trigger] b[k]).domain == d by {
        assert(cs.contains(b[k]));
        let i = choose|i: int| 0 <= i < cs.len() && cs[i] == b[k];
        assert(cs[i].domain == d);
    }
}

} // verus!
