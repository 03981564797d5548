//! The build-time context: the matching rules indexed by path, and the
//! configuration knobs the plan builders consult. Rule selection picks the
//! best-weighted rule entry for a document path; a rule found at an ancestor
//! path is handed back marked as cascaded.

use vstd::prelude::*;

verus! {

use crate::path::{DocPath, PathTokV};
use crate::rules::{MatchingRule, RuleList, RuleListV, RuleLogic};

/// Configuration consulted while building plans.
#[derive(Debug, PartialEq, Clone, Copy)]
pub struct MatchingConfiguration {
    /// Whether entries not named in the expectation are tolerated
    pub allow_unexpected_entries: bool,
}

impl Default for MatchingConfiguration {
    /// By default unexpected entries are not tolerated.
    fn default() -> (r: Self)
        ensures
            !r.allow_unexpected_entries,
    {
        MatchingConfiguration { allow_unexpected_entries: false }
    }
}

/// The rule set and configuration a plan is built against.
#[derive(Debug, PartialEq)]
pub struct PlanMatchingContext {
    /// Rule entries: a path and the rules that apply there
    pub matching_rules: Vec<(DocPath, RuleList)>,
    /// Configuration knobs
    pub config: MatchingConfiguration,
}

/// Specification-level context.
#[verifier::ext_equal]
pub struct ContextV {
    pub matching_rules: Seq<(Seq<PathTokV>, RuleListV)>,
    pub config: MatchingConfiguration,
}

impl View for PlanMatchingContext {
    type V = ContextV;

    open spec fn view(&self) -> ContextV {
        ContextV {
            matching_rules: self.matching_rules@.map(
                |i: int, e: (DocPath, RuleList)| (e.0@, e.1@),
            ),
            config: self.config,
        }
    }
}

impl Default for PlanMatchingContext {
    /// An empty context: no rules, default configuration.
    fn default() -> (r: Self)
        ensures
            r@.matching_rules.len() == 0,
            !r@.config.allow_unexpected_entries,
    {
        let r = PlanMatchingContext {
            matching_rules: Vec::new(),
            config: MatchingConfiguration { allow_unexpected_entries: false },
        };
        proof {
            assert(r@.matching_rules =~= Seq::<(Seq<PathTokV>, RuleListV)>::empty());
        }
        r
    }
}

impl Clone for PlanMatchingContext {
    fn clone(&self) -> (res: Self)
        ensures
            res@ == self@,
    {
        let mut matching_rules: Vec<(DocPath, RuleList)> = Vec::new();
        let mut i: usize = 0;
        while i < self.matching_rules.len()
            invariant
                i <= self.matching_rules.len(),
                matching_rules@.len() == i,
                forall|j: int|
                    0 <= j < i ==> matching_rules@[j].0@ == self.matching_rules@[j].0@
                        && matching_rules@[j].1@ == self.matching_rules@[j].1@,
            decreases self.matching_rules.len() - i,
        {
            let p = self.matching_rules[i].0.clone();
            let rl = self.matching_rules[i].1.clone();
            matching_rules.push((p, rl));
            i = i + 1;
        }
        let res = PlanMatchingContext { matching_rules, config: self.config };
        proof {
            assert(res@.matching_rules =~= self@.matching_rules);
        }
        res
    }
}

/// The weight of one rule token against one document token: 2 for an exact
/// step, 1 for a wildcard step, 0 for a mismatch.
pub open spec fn token_weight(rule_tok: PathTokV, doc_tok: PathTokV) -> int {
    match (rule_tok, doc_tok) {
        (PathTokV::Root, PathTokV::Root) => 2,
        (PathTokV::Field(a), PathTokV::Field(b)) => if a == b {
            2
        } else {
            0
        },
        (PathTokV::Index(a), PathTokV::Index(b)) => if a == b {
            2
        } else {
            0
        },
        (PathTokV::StarIndex, PathTokV::Index(_)) => 1,
        (PathTokV::StarIndex, PathTokV::StarIndex) => 2,
        (PathTokV::Star, _) => 1,
        _ => 0,
    }
}

/// Weights larger than this saturate; selection compares saturated weights.
pub const WEIGHT_CAP: u64 = 0x4000000000000000;

/// The weight of a rule path against the first `k` document tokens:
/// the product of the token weights, saturating at `WEIGHT_CAP`.
pub open spec fn weight_prefix(rule: Seq<PathTokV>, doc: Seq<PathTokV>, k: int) -> int
    decreases k,
{
    if k <= 0 {
        1
    } else if k > rule.len() || k > doc.len() {
        0
    } else {
        let p = weight_prefix(rule, doc, k - 1) * token_weight(rule[k - 1], doc[k - 1]);
        if p > WEIGHT_CAP {
            WEIGHT_CAP as int
        } else {
            p
        }
    }
}

/// The weight of a rule path against a document path: every rule token must
/// consume a document token.
pub open spec fn path_weight(rule: Seq<PathTokV>, doc: Seq<PathTokV>) -> int {
    if rule.len() > doc.len() {
        0
    } else {
        weight_prefix(rule, doc, rule.len() as int)
    }
}

/// Computes `path_weight` for two paths.
#[verifier::loop_isolation(false)]
pub fn calc_path_weight(rule: &DocPath, doc: &DocPath) -> (r: u64)
    ensures
        r as int == path_weight(rule@, doc@),
{
    let rule_toks = rule.tokens();
    let doc_toks = doc.tokens();
    if rule_toks.len() > doc_toks.len() {
        return 0;
    }
    let mut w: u64 = 1;
    let mut k: usize = 0;
    while k < rule_toks.len()
        invariant
            k <= rule_toks.len(),
            rule_toks@.map(|i: int, t: crate::path::PathToken| t@) == rule@,
            doc_toks@.map(|i: int, t: crate::path::PathToken| t@) == doc@,
            rule@.len() <= doc@.len(),
            w as int == weight_prefix(rule@, doc@, k as int),
            w <= WEIGHT_CAP,
        decreases rule_toks.len() - k,
    {
        let tw: u64 = match (&rule_toks[k], &doc_toks[k]) {
            (crate::path::PathToken::Root, crate::path::PathToken::Root) => 2,
            (crate::path::PathToken::Field(a), crate::path::PathToken::Field(b)) => {
                if crate::strutil::str_eq(a.as_str(), b.as_str()) {
                    2
                } else {
                    0
                }
            },
            (crate::path::PathToken::Index(a), crate::path::PathToken::Index(b)) => {
                if a == b {
                    2
                } else {
                    0
                }
            },
            (crate::path::PathToken::StarIndex, crate::path::PathToken::Index(_)) => 1,
            (crate::path::PathToken::StarIndex, crate::path::PathToken::StarIndex) => 2,
            (crate::path::PathToken::Star, _) => 1,
            _ => 0,
        };
        proof {
            assert(tw as int == token_weight(rule@[k as int], doc@[k as int]));
        }
        let mut next = w * tw;
        if next > WEIGHT_CAP {
            next = WEIGHT_CAP;
        }
        w = next;
        proof {
            assert(w as int == weight_prefix(rule@, doc@, k + 1));
        }
        k = k + 1;
    }
    w
}

/// The index of the best (highest positive weight, earliest) rule entry for
/// a document path, if any entry applies.
pub open spec fn best_entry(
    entries: Seq<(Seq<PathTokV>, RuleListV)>,
    doc: Seq<PathTokV>,
    k: int,
) -> Option<int>
    decreases k,
{
    if k <= 0 || k > entries.len() {
        None
    } else {
        let prev = best_entry(entries, doc, k - 1);
        let w = path_weight(entries[k - 1].0, doc);
        match prev {
            None => if w > 0 {
                Some(k - 1)
            } else {
                None
            },
            Some(b) => if w > path_weight(entries[b].0, doc) {
                Some(k - 1)
            } else {
                Some(b)
            },
        }
    }
}

impl PlanMatchingContext {
    /// Selects the rules that apply best at `path`, marked cascaded when
    /// they were found at a strictly shorter path.
    #[verifier::loop_isolation(false)]
    pub fn select_best_matcher(&self, path: &DocPath) -> (r: RuleList)
        ensures
            ({
                let best = best_entry(
                    self@.matching_rules,
                    path@,
                    self@.matching_rules.len() as int,
                );
                match best {
                    Some(b) => r@.rules == self@.matching_rules[b].1.rules && r@.rule_logic
                        == self@.matching_rules[b].1.rule_logic && r@.cascaded == (
                    self@.matching_rules[b].0.len() < path@.len()),
                    None => r@.rules.len() == 0,
                }
            }),
    {
        let mut best: Option<usize> = None;
        let mut best_w: u64 = 0;
        let mut i: usize = 0;
        while i < self.matching_rules.len()
            invariant
                i <= self.matching_rules.len(),
                match best {
                    Some(b) => b < i && best_entry(self@.matching_rules, path@, i as int)
                        == Some(b as int) && best_w as int == path_weight(
                        self@.matching_rules[b as int].0,
                        path@,
                    ) && best_w > 0,
                    None => best_entry(self@.matching_rules, path@, i as int) is None,
                },
            decreases self.matching_rules.len() - i,
        {
            let w = calc_path_weight(&self.matching_rules[i].0, path);
            proof {
                assert(self@.matching_rules[i as int].0 == self.matching_rules@[i as int].0@);
            }
            match best {
                None => {
                    if w > 0 {
                        best = Some(i);
                        best_w = w;
                    }
                },
                Some(_) => {
                    if w > best_w {
                        best = Some(i);
                        best_w = w;
                    }
                },
            }
            i = i + 1;
        }
        match best {
            Some(b) => {
                let entry_path = &self.matching_rules[b].0;
                let mut rl = self.matching_rules[b].1.clone();
                rl.cascaded = entry_path.len() < path.len();
                rl
            },
            None => RuleList::empty(),
        }
    }

    /// Whether any rule applies at `path`.
    pub fn matcher_is_defined(&self, path: &DocPath) -> (r: bool)
        ensures
            r == (best_entry(self@.matching_rules, path@, self@.matching_rules.len() as int)
                is Some),
    {
        let mut i: usize = 0;
        let mut found = false;
        #[verifier::loop_isolation(false)]
        while i < self.matching_rules.len()
            invariant
                i <= self.matching_rules.len(),
                found == (best_entry(self@.matching_rules, path@, i as int) is Some),
            decreases self.matching_rules.len() - i,
        {
            let w = calc_path_weight(&self.matching_rules[i].0, path);
            proof {
                assert(self@.matching_rules[i as int].0 == self.matching_rules@[i as int].0@);
            }
            if w > 0 {
                found = true;
            }
            i = i + 1;
        }
        found
    }

    /// Whether a type-family rule applies at `path`.
    pub fn type_matcher_defined(&self, path: &DocPath) -> (r: bool)
        ensures
            ({
                let best = best_entry(
                    self@.matching_rules,
                    path@,
                    self@.matching_rules.len() as int,
                );
                match best {
                    Some(b) => r == exists|j: int|
                        0 <= j < self@.matching_rules[b].1.rules.len()
                            && is_type_rule(#[trigger] self@.matching_rules[b].1.rules[j]),
                    None => !r,
                }
            }),
    {
        let rules = self.select_best_matcher(path);
        let mut i: usize = 0;
        let ghost best = best_entry(
            self@.matching_rules,
            path@,
            self@.matching_rules.len() as int,
        );
        #[verifier::loop_isolation(false)]
        while i < rules.rules.len()
            invariant
                i <= rules.rules.len(),
                forall|j: int| 0 <= j < i ==> !is_type_rule(#[trigger] rules@.rules[j]),
            decreases rules.rules.len() - i,
        {
            if rules.rules[i].is_type_matcher() {
                proof {
                    assert(is_type_rule(rules@.rules[i as int]));
                }
                return true;
            }
            i = i + 1;
        }
        false
    }
}

/// Whether a rule is of the type-matching family.
pub open spec fn is_type_rule(r: crate::rules::RuleV) -> bool {
    r is Type || r is MinType || r is MaxType || r is MinMaxType
}

} // verus!
