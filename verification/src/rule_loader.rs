//! Loading rules into an id-ordered table and resolving rule selectors against it.
use vstd::prelude::*;

use crate::cli::commands::rules::RuleSpecifierArgs;
use crate::seqs::{lemma_contains_concat, lemma_filter_keeps_order, lemma_filter_take_step};
use crate::text::{strings_view, 
    is_prefix, lemma_lex_lt_irreflexive, lemma_lex_lt_total, lemma_lex_lt_transitive, lex_lt,
    str_eq, str_lt, starts_with, append,
};

verus! {

/// A detection rule, as the loader keeps it.
#[derive(Debug)]
pub struct Rule {
    pub id: String,
    pub name: String,
    pub pattern: String,
}

impl Rule {
    /// Builds a rule from its id, its human-readable name and its pattern.
    pub fn new(id: String, name: String, pattern: String) -> (r: Rule)
        ensures
            r.id == id,
            r.name == name,
            r.pattern == pattern,
    {
        Rule { id, name, pattern }
    }

    /// The rule's id, such as `kingfisher.aws.1`.
    pub fn id(&self) -> (r: &str)
        ensures
            r@ == self.id@,
    {
        self.id.as_str()
    }

    /// The rule's human-readable name.
    pub fn name(&self) -> (r: &str)
        ensures
            r@ == self.name@,
    {
        self.name.as_str()
    }
}

/// Why loading or resolving rules failed.
#[derive(Debug)]
pub enum RuleLoaderError {
    BuiltinLoadError,
    AdditionalPathLoadError,
    UnknownRule(String),
}

impl RuleLoaderError {
    /// The error's message.
    pub fn message(&self) -> (m: String)
        ensures
            m@ == (match self {
                RuleLoaderError::BuiltinLoadError => "Failed to load builtin rules"@,
                RuleLoaderError::AdditionalPathLoadError => "Failed to load rules from additional paths"@,
                RuleLoaderError::UnknownRule(id) => "Unknown rule: `"@ + id@ + "`"@,
            }),
    {
        let mut m = String::new();
        match self {
            RuleLoaderError::BuiltinLoadError => append(&mut m, "Failed to load builtin rules"),
            RuleLoaderError::AdditionalPathLoadError => append(
                &mut m,
                "Failed to load rules from additional paths",
            ),
            RuleLoaderError::UnknownRule(id) => {
                append(&mut m, "Unknown rule: `");
                append(&mut m, id.as_str());
                append(&mut m, "`");
            },
        }
        m
    }
}

// ---------------------------------------------------------------------------
// The id-ordered rule table
// ---------------------------------------------------------------------------

/// Rule ids strictly increase along the table, so no id occurs twice.
pub open spec fn ids_sorted(rules: Seq<Rule>) -> bool {
    forall|i: int, j: int| 0 <= i < j < rules.len() ==> lex_lt(#[trigger] rules[i].id@, #[trigger] rules[j].id@)
}

/// The map from id to rule obtained by inserting the rules in order, a later rule
/// replacing an earlier one with the same id.
pub open spec fn rules_map(rules: Seq<Rule>) -> Map<Seq<char>, Rule>
    decreases rules.len(),
{
    if rules.len() == 0 {
        Map::empty()
    } else {
        rules_map(rules.drop_last()).insert(rules.last().id@, rules.last())
    }
}

/// In a sorted table, different positions hold different ids.
pub proof fn lemma_sorted_ids_distinct(rules: Seq<Rule>)
    requires
        ids_sorted(rules),
    ensures
        forall|i: int, j: int|
            0 <= i < rules.len() && 0 <= j < rules.len() && i != j ==> #[trigger] rules[i].id@ != #[trigger] rules[j].id@,
{
    assert forall|i: int, j: int|
        0 <= i < rules.len() && 0 <= j < rules.len() && i != j implies #[trigger] rules[i].id@ != #[trigger] rules[j].id@ by {
        lemma_lex_lt_irreflexive(rules[i].id@);
        if i < j {
            assert(lex_lt(rules[i].id@, rules[j].id@));
        } else {
            assert(lex_lt(rules[j].id@, rules[i].id@));
        }
    }
}

/// The map of a sorted table holds exactly its ids, each with the rule stored under it.
pub proof fn lemma_rules_map_of_sorted(rules: Seq<Rule>)
    requires
        ids_sorted(rules),
    ensures
        forall|k: Seq<char>| #[trigger] rules_map(rules).dom().contains(k) <==> exists|j: int| 0 <= j < rules.len() && rules[j].id@ == k,
        forall|j: int| 0 <= j < rules.len() ==> rules_map(rules)[#[trigger] rules[j].id@] == rules[j],
    decreases rules.len(),
{
    lemma_sorted_ids_distinct(rules);
    if rules.len() > 0 {
        let init = rules.drop_last();
        assert(ids_sorted(init)) by {
            assert forall|i: int, j: int| 0 <= i < j < init.len() implies lex_lt(#[trigger] init[i].id@, #[trigger] init[j].id@) by {
                assert(init[i] == rules[i]);
                assert(init[j] == rules[j]);
            }
        }
        lemma_rules_map_of_sorted(init);
        let last = rules.len() - 1;
        assert forall|k: Seq<char>| #[trigger] rules_map(rules).dom().contains(k) <==> exists|j: int| 0 <= j < rules.len() && rules[j].id@ == k by {
            if rules_map(rules).dom().contains(k) {
                if k == rules[last].id@ {
                } else {
                    assert(rules_map(init).dom().contains(k));
                    let j = choose|j: int| 0 <= j < init.len() && init[j].id@ == k;
                    assert(rules[j].id@ == k);
                }
            }
            if exists|j: int| 0 <= j < rules.len() && rules[j].id@ == k {
                let j = choose|j: int| 0 <= j < rules.len() && rules[j].id@ == k;
                if j < last {
                    assert(init[j].id@ == k);
                }
            }
        }
        assert forall|j: int| 0 <= j < rules.len() implies rules_map(rules)[#[trigger] rules[j].id@] == rules[j] by {
            if j < last {
                assert(init[j] == rules[j]);
                assert(rules_map(init)[init[j].id@] == init[j]);
                assert(rules[j].id@ != rules[last].id@);
                assert(rules_map(rules) == rules_map(init).insert(rules[last].id@, rules[last]));
            } else {
                assert(rules_map(rules) == rules_map(init).insert(rules[last].id@, rules[last]));
            }
        }
    }
}

/// Two sorted tables with the same map are the same table.
proof fn lemma_sorted_determined(a: Seq<Rule>, b: Seq<Rule>)
    requires
        ids_sorted(a),
        ids_sorted(b),
        rules_map(a) == rules_map(b),
    ensures
        a == b,
    decreases a.len(),
{
    lemma_rules_map_of_sorted(a);
    lemma_rules_map_of_sorted(b);
    // The ids of `a` and of `b` are the same set; the least of them is first in both.
    if a.len() == 0 {
        if b.len() > 0 {
            assert(rules_map(b).dom().contains(b[0].id@));
        }
    } else if b.len() == 0 {
        assert(rules_map(a).dom().contains(a[0].id@));
    } else {
        assert(rules_map(a).dom().contains(a[0].id@));
        let jb = choose|j: int| 0 <= j < b.len() && b[j].id@ == a[0].id@;
        assert(rules_map(b).dom().contains(b[0].id@));
        let ja = choose|j: int| 0 <= j < a.len() && a[j].id@ == b[0].id@;
        if jb != 0 {
            assert(lex_lt(b[0].id@, b[jb].id@));
            if ja != 0 {
                assert(lex_lt(a[0].id@, a[ja].id@));
                lemma_lex_lt_transitive(a[0].id@, a[ja].id@, a[0].id@);
                lemma_lex_lt_irreflexive(a[0].id@);
            } else {
                lemma_lex_lt_irreflexive(a[0].id@);
            }
        }
        assert(a[0] == b[0]) by {
            assert(rules_map(a)[a[0].id@] == a[0]);
            assert(rules_map(b)[b[0].id@] == b[0]);
        }
        let ta = a.drop_first();
        let tb = b.drop_first();
        assert(ids_sorted(ta)) by {
            assert forall|i: int, j: int| 0 <= i < j < ta.len() implies lex_lt(#[trigger] ta[i].id@, #[trigger] ta[j].id@) by {
                assert(ta[i] == a[i + 1]);
                assert(ta[j] == a[j + 1]);
            }
        }
        assert(ids_sorted(tb)) by {
            assert forall|i: int, j: int| 0 <= i < j < tb.len() implies lex_lt(#[trigger] tb[i].id@, #[trigger] tb[j].id@) by {
                assert(tb[i] == b[i + 1]);
                assert(tb[j] == b[j + 1]);
            }
        }
        lemma_rules_map_of_sorted(ta);
        lemma_rules_map_of_sorted(tb);
        lemma_sorted_ids_distinct(a);
        lemma_sorted_ids_distinct(b);
        assert(rules_map(ta) =~= rules_map(tb)) by {
            assert forall|k: Seq<char>| rules_map(ta).dom().contains(k) implies rules_map(tb).dom().contains(k)
                && rules_map(ta)[k] == rules_map(tb)[k] by {
                let j = choose|j: int| 0 <= j < ta.len() && ta[j].id@ == k;
                assert(a[j + 1].id@ == k);
                assert(rules_map(a).dom().contains(k));
                let jb2 = choose|i: int| 0 <= i < b.len() && b[i].id@ == k;
                assert(rules_map(b)[k] == b[jb2]);
                assert(rules_map(a)[k] == a[j + 1]);
                assert(jb2 != 0);
                assert(tb[jb2 - 1].id@ == k);
            }
            assert forall|k: Seq<char>| rules_map(tb).dom().contains(k) implies rules_map(ta).dom().contains(k) by {
                let j = choose|j: int| 0 <= j < tb.len() && tb[j].id@ == k;
                assert(b[j + 1].id@ == k);
                assert(rules_map(b).dom().contains(k));
                let ja2 = choose|i: int| 0 <= i < a.len() && a[i].id@ == k;
                assert(ja2 != 0);
                assert(ta[ja2 - 1].id@ == k);
            }
        }
        lemma_sorted_determined(ta, tb);
        assert(a == seq![a[0]] + ta);
        assert(b == seq![b[0]] + tb);
    }
}

/// Inserts `rule` into the sorted table, replacing the rule with the same id if there is one.
#[verifier::spinoff_prover]
#[verifier::rlimit(40)]
fn insert_rule(rules: &mut Vec<Rule>, rule: Rule)
    requires
        ids_sorted(old(rules)@),
    ensures
        ids_sorted(final(rules)@),
        rules_map(final(rules)@) == rules_map(old(rules)@).insert(rule.id@, rule),
{
    let ghost old_rules = rules@;
    let n = rules.len();
    let mut i: usize = 0;
    while i < n && str_lt(rules[i].id.as_str(), rule.id.as_str())
        invariant
            rules@ == old_rules,
            n == rules@.len(),
            0 <= i <= n,
            forall|k: int| 0 <= k < i ==> lex_lt(#[trigger] old_rules[k].id@, rule.id@),
        decreases n - i,
    {
        i = i + 1;
    }
    proof {
        lemma_sorted_ids_distinct(old_rules);
        lemma_rules_map_of_sorted(old_rules);
    }
    if i < n && str_eq(rules[i].id.as_str(), rule.id.as_str()) {
        let ghost r = rule;
        rules.set(i, rule);
        proof {
            let new_rules = rules@;
            assert(new_rules == old_rules.update(i as int, r));
            assert(ids_sorted(new_rules)) by {
                assert forall|a: int, b: int| 0 <= a < b < new_rules.len() implies lex_lt(#[trigger] new_rules[a].id@, #[trigger] new_rules[b].id@) by {
                    assert(new_rules[a].id@ == old_rules[a].id@);
                    assert(new_rules[b].id@ == old_rules[b].id@);
                    assert(lex_lt(old_rules[a].id@, old_rules[b].id@));
                }
            }
            lemma_rules_map_of_sorted(new_rules);
            lemma_sorted_ids_distinct(new_rules);
            assert(rules_map(new_rules) =~= rules_map(old_rules).insert(r.id@, r)) by {
                assert forall|k: Seq<char>| #[trigger] rules_map(new_rules).dom().contains(k) <==> rules_map(old_rules).insert(r.id@, r).dom().contains(k) by {
                    if rules_map(new_rules).dom().contains(k) {
                        let j = choose|j: int| 0 <= j < new_rules.len() && new_rules[j].id@ == k;
                        assert(old_rules[j].id@ == k);
                    }
                    if rules_map(old_rules).dom().contains(k) {
                        let j = choose|j: int| 0 <= j < old_rules.len() && old_rules[j].id@ == k;
                        assert(new_rules[j].id@ == k);
                    }
                    if k == r.id@ {
                        assert(new_rules[i as int].id@ == k);
                    }
                }
                assert forall|k: Seq<char>| #[trigger] rules_map(new_rules).dom().contains(k) implies rules_map(new_rules)[k] == rules_map(old_rules).insert(r.id@, r)[k] by {
                    let j = choose|j: int| 0 <= j < new_rules.len() && new_rules[j].id@ == k;
                    if j == i {
                    } else {
                        assert(new_rules[j] == old_rules[j]);
                        assert(old_rules[j].id@ != old_rules[i as int].id@);
                    }
                }
            }
        }
    } else {
        let ghost r = rule;
        rules.insert(i, rule);
        proof {
            let new_rules = rules@;
            assert(new_rules == old_rules.insert(i as int, r));
            if i < n {
                lemma_lex_lt_total(old_rules[i as int].id@, r.id@);
                assert(lex_lt(r.id@, old_rules[i as int].id@));
            }
            assert(ids_sorted(new_rules)) by {
                assert forall|a: int, b: int| 0 <= a < b < new_rules.len() implies lex_lt(#[trigger] new_rules[a].id@, #[trigger] new_rules[b].id@) by {
                    if b < i {
                        assert(new_rules[a] == old_rules[a]);
                        assert(new_rules[b] == old_rules[b]);
                    } else if b == i {
                        assert(new_rules[a] == old_rules[a]);
                    } else if a < i {
                        assert(new_rules[a] == old_rules[a]);
                        assert(new_rules[b] == old_rules[b - 1]);
                        assert(lex_lt(old_rules[a].id@, r.id@));
                        if b - 1 > i {
                            assert(lex_lt(old_rules[i as int].id@, old_rules[b - 1].id@));
                            lemma_lex_lt_transitive(r.id@, old_rules[i as int].id@, old_rules[b - 1].id@);
                        }
                        lemma_lex_lt_transitive(old_rules[a].id@, r.id@, old_rules[b - 1].id@);
                    } else if a == i {
                        assert(new_rules[b] == old_rules[b - 1]);
                        if b - 1 > i {
                            assert(lex_lt(old_rules[i as int].id@, old_rules[b - 1].id@));
                            lemma_lex_lt_transitive(r.id@, old_rules[i as int].id@, old_rules[b - 1].id@);
                        }
                    } else {
                        assert(new_rules[a] == old_rules[a - 1]);
                        assert(new_rules[b] == old_rules[b - 1]);
                    }
                }
            }
            lemma_rules_map_of_sorted(new_rules);
            // `r`'s id was not in the table before.
            assert forall|j: int| 0 <= j < old_rules.len() implies #[trigger] old_rules[j].id@ != r.id@ by {
                if j < i {
                    lemma_lex_lt_irreflexive(r.id@);
                } else if j == i {
                } else {
                    assert(lex_lt(old_rules[i as int].id@, old_rules[j].id@));
                    lemma_lex_lt_transitive(r.id@, old_rules[i as int].id@, old_rules[j].id@);
                    lemma_lex_lt_irreflexive(r.id@);
                }
            }
            assert(rules_map(new_rules) =~= rules_map(old_rules).insert(r.id@, r)) by {
                assert forall|k: Seq<char>| #[trigger] rules_map(new_rules).dom().contains(k) <==> rules_map(old_rules).insert(r.id@, r).dom().contains(k) by {
                    if rules_map(new_rules).dom().contains(k) {
                        let j = choose|j: int| 0 <= j < new_rules.len() && new_rules[j].id@ == k;
                        if j < i {
                            assert(old_rules[j].id@ == k);
                        } else if j > i {
                            assert(old_rules[j - 1].id@ == k);
                        }
                    }
                    if rules_map(old_rules).dom().contains(k) {
                        let j = choose|j: int| 0 <= j < old_rules.len() && old_rules[j].id@ == k;
                        if j < i {
                            assert(new_rules[j].id@ == k);
                        } else {
                            assert(new_rules[j + 1].id@ == k);
                        }
                    }
                    if k == r.id@ {
                        assert(new_rules[i as int].id@ == k);
                    }
                }
                assert forall|k: Seq<char>| #[trigger] rules_map(new_rules).dom().contains(k) implies rules_map(new_rules)[k] == rules_map(old_rules).insert(r.id@, r)[k] by {
                    let j = choose|j: int| 0 <= j < new_rules.len() && new_rules[j].id@ == k;
                    if j < i {
                        assert(new_rules[j] == old_rules[j]);
                    } else if j > i {
                        assert(new_rules[j] == old_rules[j - 1]);
                    }
                }
            }
        }
    }
}


// ---------------------------------------------------------------------------
// Selectors
// ---------------------------------------------------------------------------

/// A selector picks a rule when it is `all`, when it is the rule's id, or when it is a
/// dotted prefix of the id (`kingfisher.aws` picks `kingfisher.aws.1`, not `kingfisher.awsx.1`).
pub open spec fn selector_matches(selector: Seq<char>, rule_id: Seq<char>) -> bool {
    ||| selector == "all"@
    ||| rule_id == selector
    ||| (is_prefix(selector, rule_id) && rule_id.len() > selector.len() && rule_id[selector.len() as int] == '.')
}

/// What a selector picks: `all` picks every rule, an id picks its own rule, and a selector picks
/// every rule whose id continues it with a dot; it picks nothing else.
pub proof fn lemma_selector_meaning(selector: Seq<char>, id: Seq<char>)
    ensures
        selector_matches("all"@, id),
        selector_matches(id, id),
        forall|rest: Seq<char>| #[trigger] selector_matches(selector, selector + seq!['.'] + rest),
        selector_matches(selector, id) ==> selector == "all"@ || id == selector || (id.len() > selector.len() && id.take(
            selector.len() as int,
        ) == selector && id[selector.len() as int] == '.'),
{
    assert forall|rest: Seq<char>| #[trigger] selector_matches(selector, selector + seq!['.'] + rest) by {
        let id2 = selector + seq!['.'] + rest;
        assert(id2.take(selector.len() as int) =~= selector);
        assert(id2[selector.len() as int] == '.');
    }
}

/// Some rule of the table is picked by `selector`.
pub open spec fn any_match(rules: Seq<Rule>, selector: Seq<char>) -> bool {
    exists|k: int| 0 <= k < rules.len() && selector_matches(selector, #[trigger] rules[k].id@)
}

/// The rules, in table order, that `selector` picks and that are not already in `taken`.
pub open spec fn newly_selected(rules: Seq<Rule>, selector: Seq<char>, taken: Seq<Rule>) -> Seq<Rule> {
    rules.filter(|r: Rule| selector_matches(selector, r.id@) && !taken.contains(r))
}

/// Resolving `selectors` in order after the rules in `taken`: each selector adds the rules it
/// picks that are not there yet; the first selector that picks no rule at all is the error.
pub open spec fn resolve_from(rules: Seq<Rule>, selectors: Seq<Seq<char>>, taken: Seq<Rule>) -> Result<Seq<Rule>, Seq<char>>
    decreases selectors.len(),
{
    if selectors.len() == 0 {
        Ok(taken)
    } else if !any_match(rules, selectors[0]) {
        Err(selectors[0])
    } else {
        resolve_from(rules, selectors.drop_first(), taken + newly_selected(rules, selectors[0], taken))
    }
}

/// The rules that `selectors` pick, in order of the first selector that picks each and then in
/// table order, or the first selector that picks nothing.
pub open spec fn resolve_selectors(rules: Seq<Rule>, selectors: Seq<Seq<char>>) -> Result<Seq<Rule>, Seq<char>> {
    resolve_from(rules, selectors, Seq::empty())
}

/// The ids of a sequence of rules.
pub open spec fn ids_of(rules: Seq<Rule>) -> Seq<Seq<char>> {
    rules.map_values(|r: Rule| r.id@)
}

/// The rules of `rules` whose id is not among the ids of `removed`, in order.
pub open spec fn without_ids(rules: Seq<Rule>, removed: Seq<Rule>) -> Seq<Rule> {
    rules.filter(|r: Rule| !ids_of(removed).contains(r.id@))
}

/// The enabled rules: every rule when there are no enabled selectors, else what those selectors
/// resolve to; then, when there are excluded selectors, less the rules they resolve to.
pub open spec fn resolve_enabled(
    rules: Seq<Rule>,
    enabled: Option<Seq<Seq<char>>>,
    excluded: Seq<Seq<char>>,
) -> Result<Seq<Rule>, Seq<char>> {
    let base = match enabled {
        None => Ok(rules),
        Some(selectors) => resolve_selectors(rules, selectors),
    };
    match base {
        Err(e) => Err(e),
        Ok(chosen) => if excluded.len() == 0 {
            Ok(chosen)
        } else {
            match resolve_selectors(rules, excluded) {
                Err(e) => Err(e),
                Ok(removed) => Ok(without_ids(chosen, removed)),
            }
        },
    }
}

/// The rules behind a sequence of references.
pub open spec fn derefs(v: Seq<&Rule>) -> Seq<Rule> {
    v.map_values(|r: &Rule| *r)
}

/// An executable result agrees with a resolution: the same rules, or an unknown-rule error
/// naming the same selector.
pub open spec fn agrees(r: Result<Vec<&Rule>, RuleLoaderError>, s: Result<Seq<Rule>, Seq<char>>) -> bool {
    match (r, s) {
        (Ok(v), Ok(t)) => derefs(v@) == t,
        (Err(RuleLoaderError::UnknownRule(e)), Err(t)) => e@ == t,
        _ => false,
    }
}

proof fn lemma_derefs_push(v: Seq<&Rule>, x: &Rule)
    ensures
        derefs(v.push(x)) == derefs(v).push(*x),
{
    assert(derefs(v.push(x)) =~= derefs(v).push(*x));
}



/// The sorted table of `rules`, inserted in order.
fn build_table(rules: Vec<Rule>) -> (t: Vec<Rule>)
    ensures
        ids_sorted(t@),
        rules_map(t@) == rules_map(rules@),
{
    let ghost all = rules@;
    let mut rest = rules;
    let mut table: Vec<Rule> = Vec::new();
    let total = rest.len();
    let mut k: usize = 0;
    while rest.len() > 0
        invariant
            total == all.len(),
            0 <= k <= all.len(),
            rest@ == all.skip(k as int),
            ids_sorted(table@),
            rules_map(table@) == rules_map(all.take(k as int)),
        decreases rest@.len(),
    {
        let r = rest.remove(0);
        proof {
            assert(r == all[k as int]);
            assert(all.take(k + 1).drop_last() == all.take(k as int));
            assert(rest@ == all.skip(k + 1));
        }
        insert_rule(&mut table, r);
        k = k + 1;
    }
    assert(all.take(k as int) == all);
    table
}

// ---------------------------------------------------------------------------
// Loaded rules
// ---------------------------------------------------------------------------

/// The rule table after loading, with the selectors that enable and exclude rules.
pub struct LoadedRules {
    id_to_rule: Vec<Rule>,
    enabled_rule_ids: Option<Vec<String>>,
    excluded_rule_ids: Vec<String>,
}

impl LoadedRules {
    #[verifier::type_invariant]
    spec fn well_formed(self) -> bool {
        ids_sorted(self.id_to_rule@)
    }

    /// The table, ordered by id.
    pub closed spec fn rules(&self) -> Seq<Rule> {
        self.id_to_rule@
    }

    /// The enabled selectors; none means every rule is enabled.
    pub closed spec fn enabled(&self) -> Option<Seq<Seq<char>>> {
        match &self.enabled_rule_ids {
            Some(v) => Some(strings_view(v@)),
            None => None,
        }
    }

    /// The excluded selectors.
    pub closed spec fn excluded(&self) -> Seq<Seq<char>> {
        strings_view(self.excluded_rule_ids@)
    }

    /// Builds the table by inserting `rules` in order, a later rule replacing an earlier one
    /// with the same id, and keeps the enabled and excluded selectors.
    pub fn new(rules: Vec<Rule>, enabled_rule_ids: Option<Vec<String>>, excluded_rule_ids: Vec<String>) -> (r: LoadedRules)
        ensures
            ids_sorted(r.rules()),
            rules_map(r.rules()) == rules_map(rules@),
            r.enabled() == (match enabled_rule_ids {
                Some(v) => Some(strings_view(v@)),
                None => None,
            }),
            r.excluded() == strings_view(excluded_rule_ids@),
    {
        let table = build_table(rules);
        LoadedRules { id_to_rule: table, enabled_rule_ids, excluded_rule_ids }
    }
}


impl LoadedRules {
    /// Whether `selector` picks the rule with id `rule_id`.
    pub fn selector_matches_rule(selector: &str, rule_id: &str) -> (r: bool)
        ensures
            r == selector_matches(selector@, rule_id@),
    {
        if str_eq(selector, "all") || str_eq(rule_id, selector) {
            return true;
        }
        if !starts_with(rule_id, selector) {
            return false;
        }
        let id_chars = crate::text::chars_vec(rule_id);
        let sel_len = selector.unicode_len();
        sel_len < id_chars.len() && id_chars[sel_len] == '.'
    }

    /// How many rules the table holds.
    pub fn num_rules(&self) -> (n: usize)
        ensures
            n == self.rules().len(),
    {
        self.id_to_rule.len()
    }

    /// The rules, ordered by id.
    pub fn iter_rules(&self) -> (r: &[Rule])
        ensures
            r@ == self.rules(),
            ids_sorted(r@),
    {
        proof {
            use_type_invariant(self);
        }
        self.id_to_rule.as_slice()
    }

    /// The table from id to rule, ordered by id.
    pub fn id_to_rule(&self) -> (r: &Vec<Rule>)
        ensures
            r@ == self.rules(),
            ids_sorted(r@),
    {
        proof {
            use_type_invariant(self);
        }
        &self.id_to_rule
    }

    /// Resolves `selectors` against the table: each selector, in order, adds the rules it picks
    /// (in id order) that are not there yet; a selector that picks no rule is an unknown rule.
    fn resolve_rule_selectors<'a>(&'a self, selectors: &Vec<String>) -> (r: Result<Vec<&'a Rule>, RuleLoaderError>)
        ensures
            agrees(r, resolve_selectors(self.rules(), strings_view(selectors@))),
            (r is Ok) == all_selectors_known(self.rules(), strings_view(selectors@)),
            r matches Err(e) ==> (e matches RuleLoaderError::UnknownRule(sel) && exists|i: int|
                0 <= i < selectors@.len() && sel@ == strings_view(selectors@)[i] && !any_match(
                    self.rules(),
                    strings_view(selectors@)[i],
                )
                    && all_selectors_known(self.rules(), strings_view(selectors@).take(i))),
            r matches Ok(v) ==> {
                &&& no_duplicates(derefs(v@))
                &&& forall|x: Rule| #[trigger] derefs(v@).contains(x) <==> (self.rules().contains(x)
                    && some_selector_matches(strings_view(selectors@), x.id@))
                &&& in_resolution_order(strings_view(selectors@), derefs(v@))
            },
            selectors@.len() == 0 ==> (r matches Ok(v) && v@.len() == 0),
    {
        proof {
            use_type_invariant(self);
            lemma_sorted_ids_distinct(self.id_to_rule@);
            lemma_resolve_selectors(self.id_to_rule@, strings_view(selectors@));
            lemma_resolve_selectors_order(self.id_to_rule@, strings_view(selectors@));
        }
        let ghost rules = self.id_to_rule@;
        let ghost sels = strings_view(selectors@);
        let n = self.id_to_rule.len();
        let mut resolved: Vec<&'a Rule> = Vec::new();
        let mut seen: Vec<bool> = Vec::new();
        let mut k: usize = 0;
        while k < n
            invariant
                0 <= k <= n,
                seen@.len() == k,
                forall|j: int| 0 <= j < k ==> !seen@[j],
            decreases n - k,
        {
            seen.push(false);
            k = k + 1;
        }
        proof {
            assert(sels.skip(0) == sels);
            assert(derefs(resolved@) == Seq::<Rule>::empty());
        }
        let mut si: usize = 0;
        while si < selectors.len()
            invariant
                rules == self.id_to_rule@,
                n == rules.len(),
                ids_sorted(rules),
                forall|i: int, j: int| 0 <= i < rules.len() && 0 <= j < rules.len() && i != j ==> #[trigger] rules[i].id@ != #[trigger] rules[j].id@,
                sels == strings_view(selectors@),
                0 <= si <= selectors@.len(),
                resolve_selectors(rules, sels) == resolve_from(rules, sels.skip(si as int), derefs(resolved@)),
                seen@.len() == n,
                forall|j: int| 0 <= j < n ==> seen@[j] == derefs(resolved@).contains(#[trigger] rules[j]),
            decreases selectors@.len() - si,
        {
            let selector = selectors[si].as_str();
            let ghost before = derefs(resolved@);
            let ghost pick = |r: Rule| selector_matches(selector@, r.id@) && !before.contains(r);
            let mut matched_any = false;
            let mut k: usize = 0;
            while k < n
                invariant
                    rules == self.id_to_rule@,
                    n == rules.len(),
                    forall|i: int, j: int| 0 <= i < rules.len() && 0 <= j < rules.len() && i != j ==> #[trigger] rules[i].id@ != #[trigger] rules[j].id@,
                    0 <= k <= n,
                    pick == (|r: Rule| selector_matches(selector@, r.id@) && !before.contains(r)),
                    derefs(resolved@) == before + rules.take(k as int).filter(pick),
                    matched_any == exists|j: int| 0 <= j < k && selector_matches(selector@, #[trigger] rules[j].id@),
                    seen@.len() == n,
                    forall|j: int| 0 <= j < n ==> seen@[j] == derefs(resolved@).contains(#[trigger] rules[j]),
                decreases n - k,
            {
                let rule = &self.id_to_rule[k];
                proof {
                    lemma_filter_take_step(rules, pick, k as int);
                    // rules[k] is not among the rules picked so far from the first k.
                    assert(!rules.take(k as int).filter(pick).contains(rules[k as int])) by {
                        if rules.take(k as int).filter(pick).contains(rules[k as int]) {
                            let m = choose|m: int| 0 <= m < rules.take(k as int).filter(pick).len() && rules.take(k as int).filter(pick)[m] == rules[k as int];
                            rules.take(k as int).lemma_filter_contains_rev(pick, rules[k as int]);
                            let q = choose|q: int| 0 <= q < rules.take(k as int).len() && rules.take(k as int)[q] == rules[k as int];
                            assert(rules[q].id@ == rules[k as int].id@);
                        }
                    }
                    lemma_contains_concat(before, rules.take(k as int).filter(pick), rules[k as int]);
                    assert(seen@[k as int] == before.contains(rules[k as int]));
                }
                let hit = LoadedRules::selector_matches_rule(selector, rule.id.as_str());
                proof {
                    assert(*rule == rules[k as int]);
                    assert(hit == selector_matches(selector@, rules[k as int].id@));
                }
                if hit {
                    matched_any = true;
                    if !seen[k] {
                        seen.set(k, true);
                        let ghost prev = resolved@;
                        resolved.push(rule);
                        proof {
                            lemma_derefs_push(prev, rule);
                            assert(pick(rules[k as int]));
                            assert(derefs(resolved@) =~= before + rules.take(k + 1).filter(pick));
                            assert forall|j: int| 0 <= j < n implies seen@[j] == derefs(resolved@).contains(#[trigger] rules[j]) by {
                                if j != k {
                                    assert(rules[j] != rules[k as int]);
                                    if derefs(resolved@).contains(rules[j]) {
                                        let m = choose|m: int| 0 <= m < derefs(resolved@).len() && derefs(resolved@)[m] == rules[j];
                                        if m < derefs(prev).len() {
                                            assert(derefs(prev)[m] == rules[j]);
                                        }
                                    }
                                    if derefs(prev).contains(rules[j]) {
                                        let m = choose|m: int| 0 <= m < derefs(prev).len() && derefs(prev)[m] == rules[j];
                                        assert(derefs(resolved@)[m] == rules[j]);
                                    }
                                } else {
                                    assert(derefs(resolved@)[derefs(resolved@).len() - 1] == rules[j]);
                                }
                            }
                        }
                    } else {
                        proof {
                            // Already taken: it was in `before`, since it is not among the new ones.
                            assert(derefs(resolved@).contains(rules[k as int]));
                            let m = choose|m: int| 0 <= m < derefs(resolved@).len() && derefs(resolved@)[m] == rules[k as int];
                            if m >= before.len() {
                                assert(rules.take(k as int).filter(pick)[m - before.len()] == rules[k as int]);
                            } else {
                                assert(before[m] == rules[k as int]);
                            }
                            assert(!pick(rules[k as int]));
                        }
                    }
                } else {
                    assert(!pick(rules[k as int]));
                }
                k = k + 1;
            }
            proof {
                assert(rules.take(n as int) == rules);
                assert(sels[si as int] == selector@);
                assert(sels.skip(si as int)[0] == selector@);
                assert(sels.skip(si as int).drop_first() == sels.skip(si + 1));
            }
            if !matched_any {
                proof {
                    lemma_resolve_selectors(rules, sels);
                }
                return Err(RuleLoaderError::UnknownRule(selectors[si].clone()));
            }
            si = si + 1;
        }
        proof {
            assert(sels.skip(si as int).len() == 0);
        }
        Ok(resolved)
    }
}


/// Whether one of the rules has id `id`.
fn id_among(rules: &Vec<&Rule>, id: &str) -> (r: bool)
    ensures
        r == ids_of(derefs(rules@)).contains(id@),
{
    let ghost ids = ids_of(derefs(rules@));
    let mut i: usize = 0;
    while i < rules.len()
        invariant
            ids == ids_of(derefs(rules@)),
            ids.len() == rules@.len(),
            0 <= i <= rules@.len(),
            forall|j: int| 0 <= j < i ==> ids[j] != id@,
        decreases rules@.len() - i,
    {
        if str_eq(rules[i].id.as_str(), id) {
            assert(ids[i as int] == id@);
            return true;
        }
        i = i + 1;
    }
    false
}

impl LoadedRules {
    /// The enabled rules: every rule when no selectors enable rules, else the rules the enabled
    /// selectors resolve to; less, when there are excluded selectors, the rules they resolve
    /// to. A selector that picks no rule is an unknown-rule error.
    pub fn resolve_enabled_rules(&self) -> (r: Result<Vec<&Rule>, RuleLoaderError>)
        ensures
            agrees(r, resolve_enabled(self.rules(), self.enabled(), self.excluded())),
    {
        proof {
            use_type_invariant(self);
        }
        let ghost rules = self.id_to_rule@;
        let chosen: Vec<&Rule> = match &self.enabled_rule_ids {
            None => {
                let mut all: Vec<&Rule> = Vec::new();
                let mut k: usize = 0;
                while k < self.id_to_rule.len()
                    invariant
                        rules == self.id_to_rule@,
                        0 <= k <= rules.len(),
                        derefs(all@) == rules.take(k as int),
                    decreases rules.len() - k,
                {
                    let ghost prev = all@;
                    all.push(&self.id_to_rule[k]);
                    proof {
                        lemma_derefs_push(prev, &self.id_to_rule[k as int]);
                        assert(rules.take(k + 1) == rules.take(k as int).push(rules[k as int]));
                    }
                    k = k + 1;
                }
                assert(rules.take(rules.len() as int) == rules);
                all
            },
            Some(selectors) => match self.resolve_rule_selectors(selectors) {
                Ok(v) => v,
                Err(e) => {
                    return Err(e);
                },
            },
        };
        let ghost base = derefs(chosen@);
        if self.excluded_rule_ids.len() == 0 {
            return Ok(chosen);
        }
        let removed = match self.resolve_rule_selectors(&self.excluded_rule_ids) {
            Ok(v) => v,
            Err(e) => {
                return Err(e);
            },
        };
        let ghost gone = derefs(removed@);
        let ghost keep = |x: Rule| !ids_of(gone).contains(x.id@);
        let mut kept: Vec<&Rule> = Vec::new();
        let mut i: usize = 0;
        while i < chosen.len()
            invariant
                base == derefs(chosen@),
                gone == derefs(removed@),
                keep == (|x: Rule| !ids_of(gone).contains(x.id@)),
                0 <= i <= chosen@.len(),
                derefs(kept@) == base.take(i as int).filter(keep),
            decreases chosen@.len() - i,
        {
            let r = chosen[i];
            let among = id_among(&removed, r.id.as_str());
            proof {
                lemma_filter_take_step(base, keep, i as int);
                assert(*r == base[i as int]);
            }
            if !among {
                let ghost prev = kept@;
                kept.push(r);
                proof {
                    lemma_derefs_push(prev, r);
                }
            }
            i = i + 1;
        }
        assert(base.take(base.len() as int) == base);
        Ok(kept)
    }
}


// ---------------------------------------------------------------------------
// The loader
// ---------------------------------------------------------------------------

/// Which rules to load, and which of them to enable.
pub struct RuleLoader {
    load_builtins: bool,
    additional_load_paths: Vec<String>,
    enabled_rule_ids: Option<Vec<String>>,
    excluded_rule_ids: Vec<String>,
}

/// A copy of a list of strings.
fn clone_strings(v: &Vec<String>) -> (r: Vec<String>)
    ensures
        strings_view(r@) == strings_view(v@),
{
    let mut r: Vec<String> = Vec::new();
    let mut i: usize = 0;
    while i < v.len()
        invariant
            0 <= i <= v@.len(),
            strings_view(r@) == strings_view(v@.take(i as int)),
        decreases v@.len() - i,
    {
        let s = v[i].clone();
        let ghost prev = r@;
        r.push(s);
        proof {
            assert(v@.take(i + 1) == v@.take(i as int).push(v@[i as int]));
            assert(strings_view(r@) =~= strings_view(prev).push(v@[i as int]@));
            assert(strings_view(v@.take(i + 1)) =~= strings_view(v@.take(i as int)).push(v@[i as int]@));
        }
        i = i + 1;
    }
    assert(v@.take(v@.len() as int) == v@);
    r
}

/// Appends `extra` to `v`.
fn extend_strings(v: &mut Vec<String>, extra: Vec<String>)
    ensures
        strings_view(final(v)@) == strings_view(old(v)@) + strings_view(extra@),
{
    let ghost a = v@;
    let ghost b = extra@;
    let mut extra = extra;
    v.append(&mut extra);
    assert(strings_view(v@) =~= strings_view(a) + strings_view(b));
}

/// Whether one of the strings is `all`.
fn has_all(ids: &Vec<String>) -> (r: bool)
    ensures
        r == strings_view(ids@).contains("all"@),
{
    let ghost sv = strings_view(ids@);
    let mut i: usize = 0;
    while i < ids.len()
        invariant
            sv == strings_view(ids@),
            0 <= i <= ids@.len(),
            forall|j: int| 0 <= j < i ==> sv[j] != "all"@,
        decreases ids@.len() - i,
    {
        if str_eq(ids[i].as_str(), "all") {
            assert(sv[i as int] == "all"@);
            return true;
        }
        i = i + 1;
    }
    false
}

impl RuleLoader {
    /// Whether the built-in rules are loaded.
    pub closed spec fn builtins_requested(&self) -> bool {
        self.load_builtins
    }

    /// The additional files and directories to load rules from.
    pub closed spec fn paths(&self) -> Seq<Seq<char>> {
        strings_view(self.additional_load_paths@)
    }

    /// The enabled selectors; none means every rule is enabled.
    pub closed spec fn enabled(&self) -> Option<Seq<Seq<char>>> {
        match &self.enabled_rule_ids {
            Some(v) => Some(strings_view(v@)),
            None => None,
        }
    }

    /// The excluded selectors.
    pub closed spec fn excluded(&self) -> Seq<Seq<char>> {
        strings_view(self.excluded_rule_ids@)
    }

    /// A loader of the built-in rules only, with every rule enabled and none excluded.
    pub fn new() -> (r: RuleLoader)
        ensures
            r.builtins_requested(),
            r.paths() == Seq::<Seq<char>>::empty(),
            r.enabled() == None::<Seq<Seq<char>>>,
            r.excluded() == Seq::<Seq<char>>::empty(),
    {
        let r = RuleLoader {
            load_builtins: true,
            additional_load_paths: Vec::new(),
            enabled_rule_ids: None,
            excluded_rule_ids: Vec::new(),
        };
        assert(strings_view(r.additional_load_paths@) =~= Seq::<Seq<char>>::empty());
        assert(strings_view(r.excluded_rule_ids@) =~= Seq::<Seq<char>>::empty());
        r
    }

    /// Sets whether the built-in rules are loaded.
    pub fn load_builtins(self, load_builtins: bool) -> (r: RuleLoader)
        ensures
            r.builtins_requested() == load_builtins,
            r.paths() == self.paths(),
            r.enabled() == self.enabled(),
            r.excluded() == self.excluded(),
    {
        let mut s = self;
        s.load_builtins = load_builtins;
        s
    }

    /// Adds files and directories to load rules from.
    pub fn additional_rule_load_paths(self, paths: Vec<String>) -> (r: RuleLoader)
        ensures
            r.builtins_requested() == self.builtins_requested(),
            r.paths() == self.paths() + strings_view(paths@),
            r.enabled() == self.enabled(),
            r.excluded() == self.excluded(),
    {
        let mut s = self;
        extend_strings(&mut s.additional_load_paths, paths);
        s
    }

    /// Enables the rules that `ids` select; an `all` among them enables every rule.
    pub fn enable_rule_ids(self, ids: Vec<String>) -> (r: RuleLoader)
        ensures
            r.builtins_requested() == self.builtins_requested(),
            r.paths() == self.paths(),
            r.enabled() == (if strings_view(ids@).contains("all"@) {
                None
            } else {
                Some(strings_view(ids@))
            }),
            r.excluded() == self.excluded(),
    {
        let mut s = self;
        if has_all(&ids) {
            s.enabled_rule_ids = None;
        } else {
            s.enabled_rule_ids = Some(ids);
        }
        s
    }

    /// Adds selectors of rules to leave out.
    pub fn exclude_rule_ids(self, ids: Vec<String>) -> (r: RuleLoader)
        ensures
            r.builtins_requested() == self.builtins_requested(),
            r.paths() == self.paths(),
            r.enabled() == self.enabled(),
            r.excluded() == self.excluded() + strings_view(ids@),
    {
        let mut s = self;
        extend_strings(&mut s.excluded_rule_ids, ids);
        s
    }

    /// Whether the built-in rules are to be loaded.
    pub fn loads_builtins(&self) -> (r: bool)
        ensures
            r == self.builtins_requested(),
    {
        self.load_builtins
    }

    /// The additional files and directories to load rules from.
    pub fn additional_load_paths(&self) -> (r: &Vec<String>)
        ensures
            strings_view(r@) == self.paths(),
    {
        &self.additional_load_paths
    }

    /// Builds the rule table from the rules read from the sources: the built-in rules when they
    /// are requested, then the rules of the additional paths when there are any; a later rule
    /// replaces an earlier one with the same id. The selectors are kept.
    pub fn load(&self, builtin_rules: Vec<Rule>, custom_rules: Vec<Rule>) -> (r: LoadedRules)
        ensures
            ids_sorted(r.rules()),
            rules_map(r.rules()) == rules_map(
                (if self.builtins_requested() { builtin_rules@ } else { Seq::empty() }) + (if self.paths().len() > 0 {
                    custom_rules@
                } else {
                    Seq::empty()
                }),
            ),
            r.enabled() == self.enabled(),
            r.excluded() == self.excluded(),
    {
        let mut all: Vec<Rule> = Vec::new();
        let ghost first = if self.load_builtins { builtin_rules@ } else { Seq::<Rule>::empty() };
        let ghost second = if self.additional_load_paths.len() > 0 { custom_rules@ } else { Seq::<Rule>::empty() };
        if self.load_builtins {
            let mut b = builtin_rules;
            all.append(&mut b);
        }
        if self.additional_load_paths.len() > 0 {
            let mut c = custom_rules;
            all.append(&mut c);
        }
        assert(all@ =~= first + second);
        assert(strings_view(self.additional_load_paths@).len() == self.additional_load_paths@.len());
        let enabled = match &self.enabled_rule_ids {
            Some(v) => Some(clone_strings(v)),
            None => None,
        };
        let excluded = clone_strings(&self.excluded_rule_ids);
        LoadedRules::new(all, enabled, excluded)
    }

    /// Builds the rule table from what reading the rule sources gave: a failure to read the
    /// built-in rules when they are requested is `BuiltinLoadError`, else a failure to read the
    /// additional paths when there are any is `AdditionalPathLoadError`, each returned with its
    /// cause; otherwise the table is built as `load` builds it. Sources that are not asked for
    /// are not looked at.
    pub fn load_sources<E>(&self, builtin_rules: Result<Vec<Rule>, E>, custom_rules: Result<Vec<Rule>, E>) -> (r: Result<
        LoadedRules,
        (RuleLoaderError, E),
    >)
        ensures
            self.builtins_requested() && builtin_rules is Err ==> (r matches Err((e, cause)) && e is BuiltinLoadError
                && builtin_rules == Err::<Vec<Rule>, E>(cause)),
            !(self.builtins_requested() && builtin_rules is Err) && self.paths().len() > 0 && custom_rules is Err
                ==> (r matches Err((e, cause)) && e is AdditionalPathLoadError && custom_rules == Err::<Vec<Rule>, E>(cause)),
            !(self.builtins_requested() && builtin_rules is Err) && !(self.paths().len() > 0 && custom_rules is Err)
                ==> (r matches Ok(t) && {
                &&& ids_sorted(t.rules())
                &&& rules_map(t.rules()) == rules_map(
                    (if self.builtins_requested() { builtin_rules->Ok_0@ } else { Seq::empty() }) + (if self.paths().len()
                        > 0 {
                        custom_rules->Ok_0@
                    } else {
                        Seq::empty()
                    }),
                )
                &&& t.enabled() == self.enabled()
                &&& t.excluded() == self.excluded()
            }),
    {
        assert(strings_view(self.additional_load_paths@).len() == self.additional_load_paths@.len());
        let builtin = if self.load_builtins {
            match builtin_rules {
                Ok(v) => v,
                Err(cause) => return Err((RuleLoaderError::BuiltinLoadError, cause)),
            }
        } else {
            Vec::new()
        };
        let custom = if self.additional_load_paths.len() > 0 {
            match custom_rules {
                Ok(v) => v,
                Err(cause) => return Err((RuleLoaderError::AdditionalPathLoadError, cause)),
            }
        } else {
            Vec::new()
        };
        Ok(self.load(builtin, custom))
    }

    /// A loader configured from the command-line rule specifiers.
    pub fn from_rule_specifiers(specs: &RuleSpecifierArgs) -> (r: RuleLoader)
        ensures
            r.builtins_requested() == specs.load_builtins,
            r.paths() == strings_view(specs.rules_path@),
            r.enabled() == (if strings_view(specs.rule@).contains("all"@) {
                None
            } else {
                Some(strings_view(specs.rule@))
            }),
            r.excluded() == strings_view(specs.exclude_rule@),
    {
        let r = Self::new().load_builtins(specs.load_builtins).additional_rule_load_paths(
            clone_strings(&specs.rules_path),
        ).enable_rule_ids(clone_strings(&specs.rule)).exclude_rule_ids(
            clone_strings(&specs.exclude_rule),
        );
        assert(Seq::<Seq<char>>::empty() + strings_view(specs.rules_path@) == strings_view(specs.rules_path@));
        assert(Seq::<Seq<char>>::empty() + strings_view(specs.exclude_rule@) == strings_view(specs.exclude_rule@));
        r
    }
}

impl Default for RuleLoader {
    fn default() -> (r: RuleLoader)
        ensures
            r.builtins_requested(),
            r.paths() == Seq::<Seq<char>>::empty(),
            r.enabled() == None::<Seq<Seq<char>>>,
            r.excluded() == Seq::<Seq<char>>::empty(),
    {
        Self::new()
    }
}


// ---------------------------------------------------------------------------
// Laws of selector resolution
// ---------------------------------------------------------------------------

/// No rule occurs twice.
pub open spec fn no_duplicates(s: Seq<Rule>) -> bool {
    forall|i: int, j: int| 0 <= i < s.len() && 0 <= j < s.len() && i != j ==> #[trigger] s[i] != #[trigger] s[j]
}

/// Some selector of `selectors` picks the rule with id `id`.
pub open spec fn some_selector_matches(selectors: Seq<Seq<char>>, id: Seq<char>) -> bool {
    exists|i: int| 0 <= i < selectors.len() && selector_matches(#[trigger] selectors[i], id)
}

/// Every selector picks some rule of the table.
pub open spec fn all_selectors_known(rules: Seq<Rule>, selectors: Seq<Seq<char>>) -> bool {
    forall|i: int| 0 <= i < selectors.len() ==> any_match(rules, #[trigger] selectors[i])
}

proof fn lemma_filter_members(s: Seq<Rule>, p: spec_fn(Rule) -> bool)
    ensures
        forall|x: Rule| #[trigger] s.filter(p).contains(x) <==> (s.contains(x) && p(x)),
{
    broadcast use vstd::seq_lib::group_filter_ensures;
    assert forall|x: Rule| #[trigger] s.filter(p).contains(x) <==> (s.contains(x) && p(x)) by {
        if s.filter(p).contains(x) {
            s.lemma_filter_contains_rev(p, x);
            let i = choose|i: int| 0 <= i < s.filter(p).len() && s.filter(p)[i] == x;
            s.lemma_filter_pred(p, i);
        }
        if s.contains(x) && p(x) {
            let i = choose|i: int| 0 <= i < s.len() && s[i] == x;
            s.lemma_filter_contains(p, i);
        }
    }
}

proof fn lemma_filter_no_duplicates(s: Seq<Rule>, p: spec_fn(Rule) -> bool)
    requires
        no_duplicates(s),
    ensures
        no_duplicates(s.filter(p)),
    decreases s.len(),
{
    reveal_with_fuel(Seq::filter, 1);
    if s.len() > 0 {
        let init = s.drop_last();
        assert(no_duplicates(init)) by {
            assert forall|i: int, j: int| 0 <= i < init.len() && 0 <= j < init.len() && i != j implies #[trigger] init[i] != #[trigger] init[j] by {
                assert(init[i] == s[i] && init[j] == s[j]);
            }
        }
        lemma_filter_no_duplicates(init, p);
        if p(s.last()) {
            lemma_filter_members(init, p);
            assert(!init.contains(s.last())) by {
                if init.contains(s.last()) {
                    let i = choose|i: int| 0 <= i < init.len() && init[i] == s.last();
                    assert(s[i] == s[s.len() - 1]);
                }
            }
            let f = init.filter(p);
            let g = f.push(s.last());
            assert(no_duplicates(g)) by {
                assert forall|i: int, j: int| 0 <= i < g.len() && 0 <= j < g.len() && i != j implies #[trigger] g[i] != #[trigger] g[j] by {
                    if i < f.len() && j < f.len() {
                    } else if i < f.len() {
                        assert(f.contains(g[i]));
                    } else {
                        assert(f.contains(g[j]));
                    }
                }
            }
        }
    }
}

proof fn lemma_table_no_duplicates(rules: Seq<Rule>)
    requires
        ids_sorted(rules),
    ensures
        no_duplicates(rules),
{
    lemma_sorted_ids_distinct(rules);
    assert forall|i: int, j: int| 0 <= i < rules.len() && 0 <= j < rules.len() && i != j implies #[trigger] rules[i] != #[trigger] rules[j] by {
        assert(rules[i].id@ != rules[j].id@);
    }
}

proof fn lemma_resolve_from(rules: Seq<Rule>, selectors: Seq<Seq<char>>, taken: Seq<Rule>)
    requires
        no_duplicates(rules),
        no_duplicates(taken),
    ensures
        resolve_from(rules, selectors, taken) is Ok <==> all_selectors_known(rules, selectors),
        resolve_from(rules, selectors, taken) matches Err(e) ==> exists|i: int|
            0 <= i < selectors.len() && e == selectors[i] && !any_match(rules, selectors[i])
                && all_selectors_known(rules, selectors.take(i)),
        resolve_from(rules, selectors, taken) matches Ok(res) ==> {
            &&& no_duplicates(res)
            &&& forall|x: Rule| #[trigger] res.contains(x) <==> (taken.contains(x) || (rules.contains(x)
                && some_selector_matches(selectors, x.id@)))
        },
    decreases selectors.len(),
{
    if selectors.len() == 0 {
        assert(all_selectors_known(rules, selectors));
    } else if !any_match(rules, selectors[0]) {
        assert(!all_selectors_known(rules, selectors));
        assert(all_selectors_known(rules, selectors.take(0)));
    } else {
        let sel = selectors[0];
        let rest = selectors.drop_first();
        let pick = |r: Rule| selector_matches(sel, r.id@) && !taken.contains(r);
        let added = newly_selected(rules, sel, taken);
        assert(added == rules.filter(pick));
        lemma_filter_members(rules, pick);
        lemma_filter_no_duplicates(rules, pick);
        let next = taken + added;
        assert(no_duplicates(next)) by {
            assert forall|i: int, j: int| 0 <= i < next.len() && 0 <= j < next.len() && i != j implies #[trigger] next[i] != #[trigger] next[j] by {
                if i < taken.len() && j < taken.len() {
                } else if i >= taken.len() && j >= taken.len() {
                    assert(next[i] == added[i - taken.len()]);
                    assert(next[j] == added[j - taken.len()]);
                } else if i < taken.len() {
                    assert(added.contains(next[j]));
                    assert(taken.contains(next[i]));
                } else {
                    assert(added.contains(next[i]));
                    assert(taken.contains(next[j]));
                }
            }
        }
        lemma_resolve_from(rules, rest, next);
        lemma_contains_concat(taken, added, taken[0]);
        assert(all_selectors_known(rules, selectors) == all_selectors_known(rules, rest)) by {
            if all_selectors_known(rules, rest) {
                assert forall|i: int| 0 <= i < selectors.len() implies any_match(rules, #[trigger] selectors[i]) by {
                    if i > 0 {
                        assert(selectors[i] == rest[i - 1]);
                    }
                }
            }
            if all_selectors_known(rules, selectors) {
                assert forall|i: int| 0 <= i < rest.len() implies any_match(rules, #[trigger] rest[i]) by {
                    assert(rest[i] == selectors[i + 1]);
                }
            }
        }
        match resolve_from(rules, rest, next) {
            Err(e) => {
                let i = choose|i: int| 0 <= i < rest.len() && e == rest[i] && !any_match(rules, rest[i])
                    && all_selectors_known(rules, rest.take(i));
                assert(selectors[i + 1] == rest[i]);
                assert forall|j: int| 0 <= j < selectors.take(i + 1).len() implies any_match(rules, #[trigger] selectors.take(i + 1)[j]) by {
                    if j > 0 {
                        assert(selectors.take(i + 1)[j] == rest.take(i)[j - 1]);
                    }
                }
            },
            Ok(res) => {
                assert forall|x: Rule| #[trigger] res.contains(x) <==> (taken.contains(x) || (rules.contains(x)
                    && some_selector_matches(selectors, x.id@))) by {
                    lemma_contains_concat(taken, added, x);
                    if some_selector_matches(rest, x.id@) {
                        let i = choose|i: int| 0 <= i < rest.len() && selector_matches(#[trigger] rest[i], x.id@);
                        assert(selectors[i + 1] == rest[i]);
                    }
                    if some_selector_matches(selectors, x.id@) && !selector_matches(sel, x.id@) {
                        let i = choose|i: int| 0 <= i < selectors.len() && selector_matches(#[trigger] selectors[i], x.id@);
                        assert(rest[i - 1] == selectors[i]);
                    }
                    if selector_matches(sel, x.id@) {
                        assert(selectors[0] == sel);
                    }
                }
            },
        }
    }
}

/// The position of the first selector that picks the id; the number of selectors when none does.
pub open spec fn first_selector(selectors: Seq<Seq<char>>, id: Seq<char>) -> nat
    decreases selectors.len(),
{
    if selectors.len() == 0 {
        0
    } else if selector_matches(selectors[0], id) {
        0
    } else {
        1 + first_selector(selectors.drop_first(), id)
    }
}

/// Rule `a` comes before rule `b` in a resolution: an earlier selector picks it first, or the
/// same selector picks both first and `a`'s id is smaller.
pub open spec fn resolved_before(selectors: Seq<Seq<char>>, a: Rule, b: Rule) -> bool {
    ||| first_selector(selectors, a.id@) < first_selector(selectors, b.id@)
    ||| (first_selector(selectors, a.id@) == first_selector(selectors, b.id@) && lex_lt(a.id@, b.id@))
}

/// The rules are in resolution order.
pub open spec fn in_resolution_order(selectors: Seq<Seq<char>>, res: Seq<Rule>) -> bool {
    forall|i: int, j: int| 0 <= i < j < res.len() ==> resolved_before(selectors, #[trigger] res[i], #[trigger] res[j])
}

proof fn lemma_first_selector_split(pre: Seq<Seq<char>>, rest: Seq<Seq<char>>, id: Seq<char>)
    ensures
        some_selector_matches(pre, id) ==> first_selector(pre + rest, id) < pre.len(),
        !some_selector_matches(pre, id) ==> first_selector(pre + rest, id) == pre.len() + first_selector(rest, id),
    decreases pre.len(),
{
    if pre.len() > 0 {
        let all = pre + rest;
        assert(all[0] == pre[0]);
        assert(all.drop_first() == pre.drop_first() + rest);
        lemma_first_selector_split(pre.drop_first(), rest, id);
        if some_selector_matches(pre, id) && !selector_matches(pre[0], id) {
            let i = choose|i: int| 0 <= i < pre.len() && selector_matches(#[trigger] pre[i], id);
            assert(pre.drop_first()[i - 1] == pre[i]);
        }
        if some_selector_matches(pre.drop_first(), id) {
            let i = choose|i: int| 0 <= i < pre.drop_first().len() && selector_matches(#[trigger] pre.drop_first()[i], id);
            assert(pre[i + 1] == pre.drop_first()[i]);
        }
    } else {
        assert(pre + rest == rest);
    }
}

proof fn lemma_filter_sorted(s: Seq<Rule>, p: spec_fn(Rule) -> bool)
    requires
        ids_sorted(s),
    ensures
        ids_sorted(s.filter(p)),
    decreases s.len(),
{
    reveal_with_fuel(Seq::filter, 1);
    if s.len() > 0 {
        let init = s.drop_last();
        assert(ids_sorted(init)) by {
            assert forall|i: int, j: int| 0 <= i < j < init.len() implies lex_lt(#[trigger] init[i].id@, #[trigger] init[j].id@) by {
                assert(init[i] == s[i] && init[j] == s[j]);
            }
        }
        lemma_filter_sorted(init, p);
        if p(s.last()) {
            let f = init.filter(p);
            lemma_filter_members(init, p);
            assert forall|i: int, j: int| 0 <= i < j < f.push(s.last()).len() implies lex_lt(
                #[trigger] f.push(s.last())[i].id@,
                #[trigger] f.push(s.last())[j].id@,
            ) by {
                if j == f.len() {
                    assert(f.contains(f[i]));
                    let k = choose|k: int| 0 <= k < init.len() && init[k] == f[i];
                    assert(s[k] == f[i]);
                }
            }
        }
    }
}

proof fn lemma_resolve_from_order(rules: Seq<Rule>, pre: Seq<Seq<char>>, sels: Seq<Seq<char>>, taken: Seq<Rule>)
    requires
        ids_sorted(rules),
        forall|x: Rule| #[trigger] taken.contains(x) <==> (rules.contains(x) && some_selector_matches(pre, x.id@)),
        in_resolution_order(pre + sels, taken),
    ensures
        resolve_from(rules, sels, taken) matches Ok(res) ==> in_resolution_order(pre + sels, res),
    decreases sels.len(),
{
    let all = pre + sels;
    if sels.len() > 0 && any_match(rules, sels[0]) {
        let sel = sels[0];
        let pre2 = pre.push(sel);
        let rest = sels.drop_first();
        assert(pre2 + rest == all);
        let pick = |r: Rule| selector_matches(sel, r.id@) && !taken.contains(r);
        let added = newly_selected(rules, sel, taken);
        assert(added == rules.filter(pick));
        lemma_filter_members(rules, pick);
        lemma_filter_sorted(rules, pick);
        let next = taken + added;
        let k = pre.len() as int;
        assert(all[k] == sel);
        assert forall|x: Rule| #[trigger] next.contains(x) <==> (rules.contains(x) && some_selector_matches(pre2, x.id@)) by {
            lemma_contains_concat(taken, added, x);
            if some_selector_matches(pre2, x.id@) && !selector_matches(sel, x.id@) {
                let i = choose|i: int| 0 <= i < pre2.len() && selector_matches(#[trigger] pre2[i], x.id@);
                assert(pre[i] == pre2[i]);
            }
            if some_selector_matches(pre, x.id@) {
                let i = choose|i: int| 0 <= i < pre.len() && selector_matches(#[trigger] pre[i], x.id@);
                assert(pre2[i] == pre[i]);
            }
            if selector_matches(sel, x.id@) {
                assert(pre2[k] == sel);
            }
        }
        assert forall|i: int, j: int| 0 <= i < j < next.len() implies resolved_before(all, #[trigger] next[i], #[trigger] next[j]) by {
            let t = taken.len() as int;
            if j < t {
                assert(next[i] == taken[i] && next[j] == taken[j]);
            } else {
                let b = next[j];
                assert(b == added[j - t]);
                assert(added.contains(b));
                assert(!taken.contains(b) && selector_matches(sel, b.id@));
                lemma_first_selector_split(pre, sels, b.id@);
                assert(first_selector(sels, b.id@) == 0);
                if i < t {
                    let a = next[i];
                    assert(a == taken[i]);
                    assert(taken.contains(a));
                    lemma_first_selector_split(pre, sels, a.id@);
                } else {
                    let a = next[i];
                    assert(a == added[i - t]);
                    assert(added.contains(a));
                    lemma_first_selector_split(pre, sels, a.id@);
                    assert(lex_lt(added[i - t].id@, added[j - t].id@));
                }
            }
        }
        lemma_resolve_from_order(rules, pre2, rest, next);
    }
}

/// Resolved rules come in order of the first selector that picks each, and the rules that one
/// selector picks first come in id order; no selectors resolve to no rules.
pub proof fn lemma_resolve_selectors_order(rules: Seq<Rule>, selectors: Seq<Seq<char>>)
    requires
        ids_sorted(rules),
    ensures
        resolve_selectors(rules, selectors) matches Ok(res) ==> in_resolution_order(selectors, res),
        selectors.len() == 0 ==> resolve_selectors(rules, selectors) == Ok::<Seq<Rule>, Seq<char>>(Seq::empty()),
{
    let pre = Seq::<Seq<char>>::empty();
    assert(pre + selectors == selectors);
    lemma_resolve_from_order(rules, pre, selectors, Seq::empty());
}

/// Resolving selectors against a loaded table succeeds exactly when every selector picks some
/// rule; otherwise the error names the first selector that picks none. On success the result holds
/// each rule of the table that some selector picks, once, and no other rule.
pub proof fn lemma_resolve_selectors(rules: Seq<Rule>, selectors: Seq<Seq<char>>)
    requires
        ids_sorted(rules),
    ensures
        resolve_selectors(rules, selectors) is Ok <==> all_selectors_known(rules, selectors),
        resolve_selectors(rules, selectors) matches Err(e) ==> exists|i: int|
            0 <= i < selectors.len() && e == selectors[i] && !any_match(rules, selectors[i])
                && all_selectors_known(rules, selectors.take(i)),
        resolve_selectors(rules, selectors) matches Ok(res) ==> {
            &&& no_duplicates(res)
            &&& forall|x: Rule| #[trigger] res.contains(x) <==> (rules.contains(x) && some_selector_matches(selectors, x.id@))
        },
{
    lemma_table_no_duplicates(rules);
    lemma_resolve_from(rules, selectors, Seq::empty());
}

/// The enabled rules are resolved exactly when every enabled selector (if any were given)
/// and every excluded selector picks some rule. On success they are the rules of the table, once
/// each, that an enabled selector picks (any rule, when none were given) and that no excluded
/// selector picks; with neither enabled nor excluded selectors they are the whole table, in order.
/// Without enabled selectors they come in id order, and with them in resolution order.
pub proof fn lemma_resolve_enabled(rules: Seq<Rule>, enabled: Option<Seq<Seq<char>>>, excluded: Seq<Seq<char>>)
    requires
        ids_sorted(rules),
    ensures
        resolve_enabled(rules, enabled, excluded) is Ok <==> ((match enabled {
            Some(sels) => all_selectors_known(rules, sels),
            None => true,
        }) && all_selectors_known(rules, excluded)),
        resolve_enabled(rules, enabled, excluded) matches Ok(res) ==> {
            &&& no_duplicates(res)
            &&& forall|x: Rule| #[trigger] res.contains(x) <==> {
                &&& rules.contains(x)
                &&& (match enabled {
                    Some(sels) => some_selector_matches(sels, x.id@),
                    None => true,
                })
                &&& !some_selector_matches(excluded, x.id@)
            }
        },
        enabled is None && excluded.len() == 0 ==> resolve_enabled(rules, enabled, excluded) == Ok::<Seq<Rule>, Seq<char>>(rules),
        enabled is None ==> (resolve_enabled(rules, enabled, excluded) matches Ok(res) ==> ids_sorted(res)),
        enabled matches Some(sels) ==> (resolve_enabled(rules, enabled, excluded) matches Ok(res) ==> in_resolution_order(
            sels,
            res,
        )),
{
    lemma_table_no_duplicates(rules);
    if let Some(sels) = enabled {
        lemma_resolve_selectors_order(rules, sels);
    }
    let base = match enabled {
        None => Ok(rules),
        Some(selectors) => resolve_selectors(rules, selectors),
    };
    if let Ok(chosen) = base {
        if excluded.len() > 0 {
            if let Ok(removed) = resolve_selectors(rules, excluded) {
                let keep = |x: Rule| !ids_of(removed).contains(x.id@);
                assert(without_ids(chosen, removed) == chosen.filter(keep));
                match enabled {
                    None => lemma_filter_keeps_order(chosen, keep, |a: Rule, b: Rule| lex_lt(a.id@, b.id@)),
                    Some(sels) => lemma_filter_keeps_order(chosen, keep, |a: Rule, b: Rule| resolved_before(sels, a, b)),
                }
            }
        }
    }
    lemma_sorted_ids_distinct(rules);
    lemma_resolve_selectors(rules, excluded);
    if let Some(sels) = enabled {
        lemma_resolve_selectors(rules, sels);
    }
    if excluded.len() == 0 {
        assert(all_selectors_known(rules, excluded));
        assert forall|x: Rule| !some_selector_matches(excluded, x.id@) by {}
    }
    let base = match enabled {
        None => Ok(rules),
        Some(selectors) => resolve_selectors(rules, selectors),
    };
    if let Ok(chosen) = base {
        if excluded.len() > 0 {
            if let Ok(removed) = resolve_selectors(rules, excluded) {
                let keep = |x: Rule| !ids_of(removed).contains(x.id@);
                assert(without_ids(chosen, removed) == chosen.filter(keep));
                lemma_filter_members(chosen, keep);
                lemma_filter_no_duplicates(chosen, keep);
                let res = chosen.filter(keep);
                assert forall|x: Rule| #[trigger] res.contains(x) <==> {
                    &&& rules.contains(x)
                    &&& (match enabled {
                        Some(sels) => some_selector_matches(sels, x.id@),
                        None => true,
                    })
                    &&& !some_selector_matches(excluded, x.id@)
                } by {
                    // The id of `x` is among the removed rules' ids exactly when `x` was removed.
                    if chosen.contains(x) {
                        assert(rules.contains(x));
                        if ids_of(removed).contains(x.id@) {
                            let i = choose|i: int| 0 <= i < ids_of(removed).len() && ids_of(removed)[i] == x.id@;
                            assert(removed.contains(removed[i]));
                            let a = choose|a: int| 0 <= a < rules.len() && rules[a] == removed[i];
                            let b = choose|b: int| 0 <= b < rules.len() && rules[b] == x;
                            assert(rules[a].id@ == rules[b].id@);
                            assert(removed[i] == x);
                        }
                        if removed.contains(x) {
                            let i = choose|i: int| 0 <= i < removed.len() && removed[i] == x;
                            assert(ids_of(removed)[i] == x.id@);
                        }
                    }
                }
            }
        }
    }
}

} // verus!
