//! Alert sinks: what is posted to Slack, Microsoft Teams or a generic webhook when a scan ends.
//!
//! Delivery is best-effort and happens outside this library; here are the decisions: which
//! sinks fire, which findings each one reports, the summary numbers and the payload shapes.
use vstd::prelude::*;

use crate::cli::commands::scan::{confidence_rank, ConfidenceLevel};
use crate::json::{member, Json, JsonValue};
use crate::reporter::FindingReporterRecord;
use crate::seqs::{lemma_filter_len, lemma_filter_len_permutation, lemma_filter_take_step};
use crate::alerts::generic::generic_payload;
use crate::alerts::slack::slack_payload;
use crate::alerts::teams::teams_payload;
use crate::text::{lemma_lex_lt_irreflexive, lemma_lex_lt_total, lemma_lex_lt_transitive, lex_lt, str_eq, str_lt};

pub mod generic;
pub mod slack;
pub mod teams;
pub mod webhook;

pub use crate::alerts::webhook::redact_webhook;

verus! {

/// When a sink posts.
#[derive(Clone, Copy, Debug, PartialEq, Eq, Structural)]
pub enum AlertOn {
    /// Only when at least one finding is reported.
    Findings,
    /// Always, even on a clean run.
    Always,
}

impl Default for AlertOn {
    fn default() -> (r: AlertOn)
        ensures
            r == AlertOn::Findings,
    {
        AlertOn::Findings
    }
}

/// The payload shape a sink expects.
#[derive(Clone, Copy, Debug, PartialEq, Eq, Structural)]
pub enum AlertFormat {
    /// Slack incoming webhook (Block Kit).
    Slack,
    /// Microsoft Teams incoming webhook (MessageCard).
    Teams,
    /// Generic JSON envelope.
    Generic,
}

/// One configured webhook destination.
#[derive(Clone, Debug)]
pub struct AlertSink {
    pub url: String,
    pub format: AlertFormat,
    pub on: AlertOn,
    pub min_confidence: ConfidenceLevel,
    pub include_secret: bool,
}

/// The numbers every sink reports.
#[derive(Clone, Debug)]
pub struct AlertSummary {
    pub total: usize,
    pub active: usize,
    pub inactive: usize,
    pub unknown: usize,
    /// The most frequent rules and their finding counts, most frequent first.
    pub by_rule: Vec<(String, usize)>,
    pub kingfisher_version: String,
    pub target: Option<String>,
}

/// How many rules the summary lists at most.
pub const TOP_RULES: usize = 5;

/// The validation status of a finding.
pub open spec fn status_of(f: FindingReporterRecord) -> Seq<char> {
    f.finding.validation.status@
}

/// The findings whose secret was validated as live.
pub open spec fn count_active(fs: Seq<FindingReporterRecord>) -> nat {
    fs.filter(|f: FindingReporterRecord| status_of(f) == "Active Credential"@).len()
}

/// The findings whose secret was validated as revoked.
pub open spec fn count_inactive(fs: Seq<FindingReporterRecord>) -> nat {
    fs.filter(|f: FindingReporterRecord| status_of(f) == "Inactive Credential"@).len()
}

/// The findings whose secret is neither known live nor known revoked.
pub open spec fn count_unknown(fs: Seq<FindingReporterRecord>) -> nat {
    fs.filter(|f: FindingReporterRecord| status_of(f) != "Active Credential"@ && status_of(f) != "Inactive Credential"@).len()
}

/// The findings of the rule with id `id`.
pub open spec fn rule_count(fs: Seq<FindingReporterRecord>, id: Seq<char>) -> nat {
    fs.filter(|f: FindingReporterRecord| f.rule.id@ == id).len()
}

/// Some finding comes from the rule with id `id`.
pub open spec fn has_rule(fs: Seq<FindingReporterRecord>, id: Seq<char>) -> bool {
    exists|i: int| 0 <= i < fs.len() && #[trigger] fs[i].rule.id@ == id
}

/// Entry `a` is listed before entry `b`: more findings first, then by rule id.
pub open spec fn ranks_before(a: (Seq<char>, nat), b: (Seq<char>, nat)) -> bool {
    a.1 > b.1 || (a.1 == b.1 && lex_lt(a.0, b.0))
}

/// `top` lists each rule with its finding count, most findings first and ties by id; it holds
/// the first `TOP_RULES` rules of that order, or every rule when there are fewer.
pub open spec fn is_top_rules(fs: Seq<FindingReporterRecord>, top: Seq<(Seq<char>, nat)>) -> bool {
    &&& top.len() <= TOP_RULES
    &&& forall|i: int| 0 <= i < top.len() ==> has_rule(fs, #[trigger] top[i].0) && top[i].1 == rule_count(fs, top[i].0)
    &&& forall|i: int, j: int| 0 <= i < j < top.len() ==> ranks_before(#[trigger] top[i], #[trigger] top[j])
    &&& forall|id: Seq<char>| #[trigger] has_rule(fs, id) && !(exists|i: int| 0 <= i < top.len() && top[i].0 == id) ==> {
        &&& top.len() == TOP_RULES
        &&& ranks_before(top[top.len() - 1], (id, rule_count(fs, id)))
    }
}

/// Every finding is counted exactly once: as validated live, as validated revoked, or as
/// neither.
pub proof fn lemma_status_counts_partition(fs: Seq<FindingReporterRecord>)
    ensures
        count_active(fs) + count_inactive(fs) + count_unknown(fs) == fs.len(),
    decreases fs.len(),
{
    reveal_with_fuel(Seq::filter, 1);
    reveal_strlit("Active Credential");
    reveal_strlit("Inactive Credential");
    assert("Active Credential"@.len() != "Inactive Credential"@.len());
    if fs.len() > 0 {
        lemma_status_counts_partition(fs.drop_last());
    }
}

/// Each finding counts once toward its status: a finding validated `Active Credential` adds one
/// to the active count, `Inactive Credential` to the inactive count, and any other status to the
/// unknown count; it also adds one to its rule's count. No findings count nothing.
pub proof fn lemma_counts_step(fs: Seq<FindingReporterRecord>, f: FindingReporterRecord, id: Seq<char>)
    ensures
        count_active(Seq::empty()) == 0 && count_inactive(Seq::empty()) == 0 && count_unknown(Seq::empty()) == 0,
        rule_count(Seq::empty(), id) == 0,
        count_active(fs.push(f)) == count_active(fs) + if f.finding.validation.status@ == "Active Credential"@ { 1int } else { 0 },
        count_inactive(fs.push(f)) == count_inactive(fs) + if f.finding.validation.status@ == "Inactive Credential"@ {
            1int
        } else {
            0
        },
        count_unknown(fs.push(f)) == count_unknown(fs) + if f.finding.validation.status@ != "Active Credential"@
            && f.finding.validation.status@ != "Inactive Credential"@ {
            1int
        } else {
            0
        },
        rule_count(fs.push(f), id) == rule_count(fs, id) + if f.rule.id@ == id { 1int } else { 0 },
{
    reveal_with_fuel(Seq::filter, 1);
    assert(fs.push(f).drop_last() == fs);
}

/// A tally list as rule ids and counts.
pub open spec fn tally_view(v: Seq<(String, usize)>) -> Seq<(Seq<char>, nat)> {
    v.map_values(|t: (String, usize)| (t.0@, t.1 as nat))
}

proof fn lemma_ranks_before_transitive(a: (Seq<char>, nat), b: (Seq<char>, nat), c: (Seq<char>, nat))
    ensures
        ranks_before(a, b) && ranks_before(b, c) ==> ranks_before(a, c),
{
    lemma_lex_lt_transitive(a.0, b.0, c.0);
}

proof fn lemma_ranks_before_total(a: (Seq<char>, nat), b: (Seq<char>, nat))
    ensures
        a.0 != b.0 ==> ranks_before(a, b) || ranks_before(b, a),
{
    lemma_lex_lt_total(a.0, b.0);
}

proof fn lemma_ranks_before_irreflexive(a: (Seq<char>, nat))
    ensures
        !ranks_before(a, a),
{
    lemma_lex_lt_irreflexive(a.0);
}

/// When two top-rules lists agree before `k`, entry `t1[k]` does not rank before `t2[k]`.
proof fn lemma_top_rules_no_earlier(
    fs: Seq<FindingReporterRecord>,
    t1: Seq<(Seq<char>, nat)>,
    t2: Seq<(Seq<char>, nat)>,
    k: int,
)
    requires
        is_top_rules(fs, t1),
        is_top_rules(fs, t2),
        0 <= k < t1.len(),
        k < t2.len(),
        forall|m: int| 0 <= m < k ==> t1[m] == t2[m],
    ensures
        !ranks_before(t1[k], t2[k]),
{
    if ranks_before(t1[k], t2[k]) {
        let a = t1[k];
        let b = t2[k];
        assert(has_rule(fs, a.0) && a.1 == rule_count(fs, a.0));
        lemma_ranks_before_irreflexive(a);
        if exists|j: int| 0 <= j < t2.len() && t2[j].0 == a.0 {
            let j = choose|j: int| 0 <= j < t2.len() && t2[j].0 == a.0;
            assert(has_rule(fs, t2[j].0) && t2[j].1 == rule_count(fs, t2[j].0));
            assert(t2[j] == a);
            if j < k {
                assert(t1[j] == a);
                assert(ranks_before(t1[j], t1[k]));
            } else if j > k {
                assert(ranks_before(t2[k], t2[j]));
                lemma_ranks_before_transitive(a, b, a);
            }
        } else {
            let last = t2.len() - 1;
            assert(has_rule(fs, a.0));
            assert(ranks_before(t2[last], (a.0, rule_count(fs, a.0))));
            if last > k {
                assert(ranks_before(t2[k], t2[last]));
                lemma_ranks_before_transitive(b, t2[last], a);
            }
            lemma_ranks_before_transitive(a, b, a);
        }
    }
}

proof fn lemma_top_rules_agree_upto(fs: Seq<FindingReporterRecord>, t1: Seq<(Seq<char>, nat)>, t2: Seq<(Seq<char>, nat)>, i: int)
    requires
        is_top_rules(fs, t1),
        is_top_rules(fs, t2),
        0 <= i <= t1.len(),
        i <= t2.len(),
    ensures
        forall|m: int| 0 <= m < i ==> t1[m] == t2[m],
    decreases i,
{
    if i > 0 {
        let k = i - 1;
        lemma_top_rules_agree_upto(fs, t1, t2, k);
        let a = t1[k];
        let b = t2[k];
        if a != b {
            assert(has_rule(fs, a.0) && a.1 == rule_count(fs, a.0));
            assert(has_rule(fs, b.0) && b.1 == rule_count(fs, b.0));
            assert(a.0 != b.0);
            lemma_ranks_before_total(a, b);
            if ranks_before(a, b) {
                lemma_top_rules_no_earlier(fs, t1, t2, k);
            } else {
                lemma_top_rules_no_earlier(fs, t2, t1, k);
            }
        }
    }
}

/// A top-rules list that starts another is as long as it.
proof fn lemma_top_rules_not_shorter(fs: Seq<FindingReporterRecord>, t1: Seq<(Seq<char>, nat)>, t2: Seq<(Seq<char>, nat)>)
    requires
        is_top_rules(fs, t1),
        is_top_rules(fs, t2),
        t2.len() <= t1.len(),
        forall|m: int| 0 <= m < t2.len() ==> t1[m] == t2[m],
    ensures
        t2.len() == t1.len(),
{
    if t2.len() < t1.len() {
        let n = t2.len() as int;
        let a = t1[n];
        assert(has_rule(fs, a.0) && a.1 == rule_count(fs, a.0));
        if exists|j: int| 0 <= j < t2.len() && t2[j].0 == a.0 {
            let j = choose|j: int| 0 <= j < t2.len() && t2[j].0 == a.0;
            assert(has_rule(fs, t2[j].0) && t2[j].1 == rule_count(fs, t2[j].0));
            assert(t1[j] == a);
            assert(ranks_before(t1[j], t1[n]));
            lemma_ranks_before_irreflexive(a);
        } else {
            assert(has_rule(fs, a.0));
            assert(t2.len() == TOP_RULES);
        }
    }
}

/// The top-rules list of a set of findings is unique: the summary's `by_rule` is determined by
/// the findings.
pub proof fn lemma_top_rules_unique(fs: Seq<FindingReporterRecord>, t1: Seq<(Seq<char>, nat)>, t2: Seq<(Seq<char>, nat)>)
    requires
        is_top_rules(fs, t1),
        is_top_rules(fs, t2),
    ensures
        t1 == t2,
{
    if t1.len() <= t2.len() {
        lemma_top_rules_agree_upto(fs, t1, t2, t1.len() as int);
        if t1.len() < t2.len() {
            lemma_top_rules_not_shorter(fs, t2, t1);
        }
    } else {
        lemma_top_rules_agree_upto(fs, t1, t2, t2.len() as int);
        lemma_top_rules_not_shorter(fs, t1, t2);
    }
    assert(t1 =~= t2);
}

/// A rule that produced a finding is counted at least once.
proof fn lemma_has_rule_counted(fs: Seq<FindingReporterRecord>, id: Seq<char>)
    requires
        has_rule(fs, id),
    ensures
        rule_count(fs, id) > 0,
    decreases fs.len(),
{
    reveal_with_fuel(Seq::filter, 1);
    let init = fs.drop_last();
    if fs.last().rule.id@ != id {
        let k = choose|k: int| 0 <= k < fs.len() && #[trigger] fs[k].rule.id@ == id;
        assert(init[k] == fs[k]);
        lemma_has_rule_counted(init, id);
    }
}

/// The top rules: at most 5, each with at least one finding, most findings first and ties in id
/// order; the list is full unless it names every rule that has findings, and a rule left out has
/// no more findings than the last one listed.
pub proof fn lemma_top_rules_counts(fs: Seq<FindingReporterRecord>, top: Seq<(Seq<char>, nat)>)
    requires
        is_top_rules(fs, top),
    ensures
        forall|i: int| 0 <= i < top.len() ==> #[trigger] top[i].1 > 0,
        top.len() <= 5,
        top.len() == 5 || (forall|id: Seq<char>| #[trigger] has_rule(fs, id) ==> exists|i: int|
            0 <= i < top.len() && top[i].0 == id),
        forall|i: int, j: int| 0 <= i < j < top.len() ==> #[trigger] top[i].1 >= #[trigger] top[j].1 && (top[i].1 == top[j].1
            ==> lex_lt(top[i].0, top[j].0)),
        forall|id: Seq<char>| #[trigger] has_rule(fs, id) && !(exists|i: int| 0 <= i < top.len() && top[i].0 == id)
            ==> top.len() == 5 && rule_count(fs, id) <= top[4].1,
{
    assert forall|i: int| 0 <= i < top.len() implies #[trigger] top[i].1 > 0 by {
        assert(has_rule(fs, top[i].0));
        lemma_has_rule_counted(fs, top[i].0);
    }
}

/// The summary does not depend on the order of the findings: two lists with the same findings,
/// counted with multiplicity, have the same total and status counts, and the same top rules.
pub proof fn lemma_summary_ignores_order(fs1: Seq<FindingReporterRecord>, fs2: Seq<FindingReporterRecord>)
    requires
        fs1.to_multiset() == fs2.to_multiset(),
    ensures
        fs1.len() == fs2.len(),
        count_active(fs1) == count_active(fs2),
        count_inactive(fs1) == count_inactive(fs2),
        count_unknown(fs1) == count_unknown(fs2),
        forall|t1: Seq<(Seq<char>, nat)>, t2: Seq<(Seq<char>, nat)>|
            is_top_rules(fs1, t1) && is_top_rules(fs2, t2) ==> t1 == t2,
{
    broadcast use vstd::seq_lib::group_to_multiset_ensures;

    assert(fs1.len() == fs1.to_multiset().len());
    assert(fs2.len() == fs2.to_multiset().len());
    lemma_filter_len_permutation(fs1, fs2, |f: FindingReporterRecord| status_of(f) == "Active Credential"@);
    lemma_filter_len_permutation(fs1, fs2, |f: FindingReporterRecord| status_of(f) == "Inactive Credential"@);
    lemma_filter_len_permutation(
        fs1,
        fs2,
        |f: FindingReporterRecord| status_of(f) != "Active Credential"@ && status_of(f) != "Inactive Credential"@,
    );
    assert forall|id: Seq<char>| rule_count(fs1, id) == rule_count(fs2, id) by {
        lemma_filter_len_permutation(fs1, fs2, |f: FindingReporterRecord| f.rule.id@ == id);
    }
    assert forall|id: Seq<char>| #[trigger] has_rule(fs1, id) == has_rule(fs2, id) by {
        if has_rule(fs1, id) {
            let i = choose|i: int| 0 <= i < fs1.len() && #[trigger] fs1[i].rule.id@ == id;
            assert(fs1.contains(fs1[i]));
            assert(fs1.to_multiset().count(fs1[i]) > 0);
            assert(fs2.contains(fs1[i]));
            let j = choose|j: int| 0 <= j < fs2.len() && fs2[j] == fs1[i];
            assert(fs2[j].rule.id@ == id);
        }
        if has_rule(fs2, id) {
            let i = choose|i: int| 0 <= i < fs2.len() && #[trigger] fs2[i].rule.id@ == id;
            assert(fs2.contains(fs2[i]));
            assert(fs2.to_multiset().count(fs2[i]) > 0);
            assert(fs1.contains(fs2[i]));
            let j = choose|j: int| 0 <= j < fs1.len() && fs1[j] == fs2[i];
            assert(fs1[j].rule.id@ == id);
        }
    }
    assert forall|t1: Seq<(Seq<char>, nat)>, t2: Seq<(Seq<char>, nat)>|
        is_top_rules(fs1, t1) && is_top_rules(fs2, t2) implies t1 == t2 by {
        assert(is_top_rules(fs1, t2));
        lemma_top_rules_unique(fs1, t1, t2);
    }
}

/// Whether entry `a` is listed before entry `b`.
fn ranks_before_exec(a: &(String, usize), b: &(String, usize)) -> (r: bool)
    ensures
        r == ranks_before((a.0@, a.1 as nat), (b.0@, b.1 as nat)),
{
    a.1 > b.1 || (a.1 == b.1 && str_lt(a.0.as_str(), b.0.as_str()))
}

/// The tallies of the rule ids of `fs`: one entry per id, in order of first occurrence.
fn tally_rules(fs: &[FindingReporterRecord]) -> (t: Vec<(String, usize)>)
    ensures
        forall|a: int, b: int| 0 <= a < b < t@.len() ==> #[trigger] tally_view(t@)[a].0 != #[trigger] tally_view(t@)[b].0,
        forall|a: int| 0 <= a < t@.len() ==> #[trigger] tally_view(t@)[a].1 == rule_count(fs@, tally_view(t@)[a].0)
            && has_rule(fs@, tally_view(t@)[a].0),
        forall|id: Seq<char>| #[trigger] has_rule(fs@, id) ==> exists|a: int| 0 <= a < t@.len() && tally_view(t@)[a].0 == id,
{
    let mut t: Vec<(String, usize)> = Vec::new();
    let mut i: usize = 0;
    while i < fs.len()
        invariant
            0 <= i <= fs@.len(),
            forall|a: int, b: int| 0 <= a < b < t@.len() ==> #[trigger] tally_view(t@)[a].0 != #[trigger] tally_view(t@)[b].0,
            forall|a: int| 0 <= a < t@.len() ==> #[trigger] tally_view(t@)[a].1 == rule_count(fs@.take(i as int), tally_view(t@)[a].0)
                && has_rule(fs@.take(i as int), tally_view(t@)[a].0),
            forall|id: Seq<char>| #[trigger] has_rule(fs@.take(i as int), id) ==> exists|a: int| 0 <= a < t@.len() && tally_view(t@)[a].0 == id,
        decreases fs@.len() - i,
    {
        let id = fs[i].rule.id.as_str();
        let ghost pre = fs@.take(i as int);
        let ghost post = fs@.take(i + 1);
        let ghost old_t = tally_view(t@);
        proof {
            assert(post == pre.push(fs@[i as int]));
            assert forall|x: Seq<char>| rule_count(post, x) == rule_count(pre, x) + (if x == id@ { 1int } else { 0int }) by {
                lemma_filter_take_step(fs@, |f: FindingReporterRecord| f.rule.id@ == x, i as int);
            }
            assert forall|x: Seq<char>| #[trigger] has_rule(post, x) == (has_rule(pre, x) || x == id@) by {
                if has_rule(post, x) {
                    let k = choose|k: int| 0 <= k < post.len() && #[trigger] post[k].rule.id@ == x;
                    if k < pre.len() {
                        assert(pre[k] == post[k]);
                    }
                }
                if has_rule(pre, x) {
                    let k = choose|k: int| 0 <= k < pre.len() && #[trigger] pre[k].rule.id@ == x;
                    assert(post[k] == pre[k]);
                }
                if x == id@ {
                    assert(post[i as int].rule.id@ == x);
                }
            }
            assert forall|x: Seq<char>| rule_count(pre, x) <= i by {
                lemma_filter_len(pre, |f: FindingReporterRecord| f.rule.id@ == x);
            }
        }
        let mut j: usize = 0;
        let mut found = false;
        while j < t.len() && !found
            invariant
                0 <= j <= t@.len(),
                old_t == tally_view(t@),
                found ==> j < t@.len() && old_t[j as int].0 == id@,
                forall|a: int| 0 <= a < j ==> #[trigger] old_t[a].0 != id@,
            decreases t@.len() - j, if found { 0int } else { 1int },
        {
            if str_eq(t[j].0.as_str(), id) {
                found = true;
            } else {
                j = j + 1;
            }
        }
        if found {
            let name = t[j].0.clone();
            let count = t[j].1;
            proof {
                assert(old_t[j as int].0 == id@);
                assert(old_t[j as int] == (t@[j as int].0@, t@[j as int].1 as nat));
                assert(old_t[j as int].1 == rule_count(pre, old_t[j as int].0));
                assert(count == rule_count(pre, id@));
            }
            t.set(j, (name, count + 1));
            proof {
                assert forall|a: int| 0 <= a < t@.len() implies #[trigger] tally_view(t@)[a] == if a == j {
                    (id@, (count + 1) as nat)
                } else {
                    old_t[a]
                } by {}
                assert forall|x: Seq<char>| #[trigger] has_rule(post, x) implies exists|a: int| 0 <= a < t@.len() && tally_view(t@)[a].0 == x by {
                    if x == id@ {
                        assert(tally_view(t@)[j as int].0 == x);
                    } else {
                        assert(has_rule(pre, x));
                        let a = choose|a: int| 0 <= a < old_t.len() && old_t[a].0 == x;
                        assert(tally_view(t@)[a].0 == x);
                    }
                }
            }
        } else {
            let name = fs[i].rule.id.clone();
            t.push((name, 1));
            proof {
                assert forall|a: int| 0 <= a < old_t.len() implies #[trigger] tally_view(t@)[a] == old_t[a] by {}
                assert(tally_view(t@)[old_t.len() as int] == (id@, 1nat));
                assert forall|x: Seq<char>| #[trigger] has_rule(post, x) implies exists|a: int| 0 <= a < t@.len() && tally_view(t@)[a].0 == x by {
                    if x == id@ {
                        assert(tally_view(t@)[old_t.len() as int].0 == x);
                    } else {
                        assert(has_rule(pre, x));
                        let a = choose|a: int| 0 <= a < old_t.len() && old_t[a].0 == x;
                        assert(tally_view(t@)[a].0 == x);
                    }
                }
                assert(rule_count(pre, id@) == 0) by {
                    if rule_count(pre, id@) > 0 {
                        let p = |f: FindingReporterRecord| f.rule.id@ == id@;
                        let g = pre.filter(p);
                        pre.lemma_filter_pred(p, 0);
                        pre.lemma_filter_contains_rev(p, g[0]);
                        let k = choose|k: int| 0 <= k < pre.len() && pre[k] == g[0];
                        assert(pre[k].rule.id@ == id@);
                        assert(has_rule(pre, id@));
                    }
                }
            }
        }
        i = i + 1;
    }
    proof {
        assert(fs@.take(fs@.len() as int) == fs@);
    }
    t
}

/// Inserts `x` into `sorted`, keeping it ordered by `ranks_before`.
fn insert_ranked(sorted: &mut Vec<(String, usize)>, x: (String, usize))
    requires
        forall|i: int, j: int| 0 <= i < j < old(sorted)@.len() ==> ranks_before(#[trigger] tally_view(old(sorted)@)[i], #[trigger] tally_view(old(sorted)@)[j]),
        forall|i: int| 0 <= i < old(sorted)@.len() ==> #[trigger] tally_view(old(sorted)@)[i].0 != x.0@,
    ensures
        forall|i: int, j: int| 0 <= i < j < final(sorted)@.len() ==> ranks_before(#[trigger] tally_view(final(sorted)@)[i], #[trigger] tally_view(final(sorted)@)[j]),
        final(sorted)@.len() == old(sorted)@.len() + 1,
        exists|p: int| 0 <= p <= old(sorted)@.len() && tally_view(final(sorted)@) == tally_view(old(sorted)@).insert(p, (x.0@, x.1 as nat)),
{
    let ghost old_v = tally_view(sorted@);
    let ghost xv = (x.0@, x.1 as nat);
    let n = sorted.len();
    let mut p: usize = 0;
    while p < n && ranks_before_exec(&sorted[p], &x)
        invariant
            old_v == tally_view(sorted@),
            xv == (x.0@, x.1 as nat),
            n == sorted@.len(),
            0 <= p <= n,
            forall|k: int| 0 <= k < p ==> ranks_before(#[trigger] old_v[k], xv),
        decreases n - p,
    {
        assert(old_v[p as int] == (sorted@[p as int].0@, sorted@[p as int].1 as nat));
        p = p + 1;
    }
    proof {
        if p < n {
            assert(old_v[p as int] == (sorted@[p as int].0@, sorted@[p as int].1 as nat));
        }
    }
    sorted.insert(p, x);
    proof {
        let new_v = tally_view(sorted@);
        assert(new_v =~= old_v.insert(p as int, xv));
        if p < n {
            lemma_ranks_before_total(old_v[p as int], xv);
            assert(ranks_before(xv, old_v[p as int]));
        }
        assert forall|i: int, j: int| 0 <= i < j < new_v.len() implies ranks_before(#[trigger] new_v[i], #[trigger] new_v[j]) by {
            if j < p {
                assert(new_v[i] == old_v[i] && new_v[j] == old_v[j]);
            } else if j == p {
                assert(new_v[i] == old_v[i]);
            } else if i < p {
                assert(new_v[i] == old_v[i] && new_v[j] == old_v[j - 1]);
                if j - 1 > p {
                    lemma_ranks_before_transitive(xv, old_v[p as int], old_v[j - 1]);
                }
                lemma_ranks_before_transitive(old_v[i], xv, old_v[j - 1]);
            } else if i == p {
                assert(new_v[j] == old_v[j - 1]);
                if j - 1 > p {
                    lemma_ranks_before_transitive(xv, old_v[p as int], old_v[j - 1]);
                }
            } else {
                assert(new_v[i] == old_v[i - 1] && new_v[j] == old_v[j - 1]);
            }
        }
    }
}

/// The tallies ordered by `ranks_before`.
fn rank_tallies(t: Vec<(String, usize)>) -> (s: Vec<(String, usize)>)
    requires
        forall|a: int, b: int| 0 <= a < b < t@.len() ==> #[trigger] tally_view(t@)[a].0 != #[trigger] tally_view(t@)[b].0,
    ensures
        s@.len() == t@.len(),
        forall|i: int, j: int| 0 <= i < j < s@.len() ==> ranks_before(#[trigger] tally_view(s@)[i], #[trigger] tally_view(s@)[j]),
        forall|e: (Seq<char>, nat)| #[trigger] tally_view(s@).contains(e) <==> tally_view(t@).contains(e),
{
    let ghost all = tally_view(t@);
    let mut rest = t;
    let mut s: Vec<(String, usize)> = Vec::new();
    let total = rest.len();
    let mut k: usize = 0;
    while rest.len() > 0
        invariant
            all.len() == total,
            forall|a: int, b: int| 0 <= a < b < all.len() ==> #[trigger] all[a].0 != #[trigger] all[b].0,
            0 <= k <= total,
            tally_view(rest@) == all.skip(k as int),
            s@.len() == k,
            forall|i: int, j: int| 0 <= i < j < s@.len() ==> ranks_before(#[trigger] tally_view(s@)[i], #[trigger] tally_view(s@)[j]),
            forall|e: (Seq<char>, nat)| #[trigger] tally_view(s@).contains(e) <==> all.take(k as int).contains(e),
        decreases rest@.len(),
    {
        let ghost rest_before = rest@;
        let x = rest.remove(0);
        let ghost xv = (x.0@, x.1 as nat);
        let ghost old_s = tally_view(s@);
        proof {
            assert(tally_view(rest_before).len() == rest_before.len());
            assert(tally_view(rest_before)[0] == xv);
            assert(all.skip(k as int)[0] == all[k as int]);
            assert(all[k as int] == xv);
            assert(rest@ == rest_before.remove(0));
            assert forall|m: int| 0 <= m < tally_view(rest@).len() implies #[trigger] tally_view(rest@)[m] == all.skip(k + 1)[m] by {
                assert(rest@[m] == rest_before[m + 1]);
                assert(tally_view(rest_before)[m + 1] == all.skip(k as int)[m + 1]);
            }
            assert(tally_view(rest@) =~= all.skip(k + 1));
            assert forall|i: int| 0 <= i < s@.len() implies #[trigger] tally_view(s@)[i].0 != x.0@ by {
                let at0 = all.take(k as int);
                assert(tally_view(s@).contains(tally_view(s@)[i]));
                assert(at0.contains(tally_view(s@)[i]));
                let a = choose|a: int| 0 <= a < at0.len() && at0[a] == tally_view(s@)[i];
                assert(all[a] == tally_view(s@)[i]);
                assert(all[a].0 != all[k as int].0);
            }
        }
        insert_ranked(&mut s, x);
        proof {
            let p = choose|p: int| 0 <= p <= old_s.len() && tally_view(s@) == old_s.insert(p, xv);
            assert(all.take(k + 1) == all.take(k as int).push(xv));
            assert forall|e: (Seq<char>, nat)| #[trigger] tally_view(s@).contains(e) <==> all.take(k + 1).contains(e) by {
                let nv = tally_view(s@);
                if nv.contains(e) {
                    let a = choose|a: int| 0 <= a < nv.len() && nv[a] == e;
                    if a < p {
                        assert(old_s[a] == e);
                        assert(old_s.contains(e));
                        let at0 = all.take(k as int);
                        let b = choose|b: int| 0 <= b < at0.len() && at0[b] == e;
                        assert(all.take(k + 1)[b] == e);
                    } else if a == p {
                        assert(all.take(k + 1)[k as int] == e);
                    } else {
                        assert(old_s[a - 1] == e);
                        assert(old_s.contains(e));
                        let at0 = all.take(k as int);
                        let b = choose|b: int| 0 <= b < at0.len() && at0[b] == e;
                        assert(all.take(k + 1)[b] == e);
                    }
                }
                let at1 = all.take(k + 1);
                if at1.contains(e) {
                    let b = choose|b: int| 0 <= b < at1.len() && at1[b] == e;
                    if b < k {
                        assert(all.take(k as int)[b] == e);
                        assert(old_s.contains(e));
                        let a = choose|a: int| 0 <= a < old_s.len() && old_s[a] == e;
                        if a < p {
                            assert(nv[a] == e);
                        } else {
                            assert(nv[a + 1] == e);
                        }
                    } else {
                        assert(nv[p] == e);
                    }
                }
            }
        }
        k = k + 1;
    }
    proof {
        assert(all.take(total as int) == all);
    }
    s
}

impl AlertSummary {
    /// The summary of `findings`: how many there are, how many were validated live, revoked or
    /// neither, and the `TOP_RULES` rules with the most findings (ties by rule id).
    pub fn from_findings(findings: &[FindingReporterRecord], target: Option<String>, kingfisher_version: String) -> (s: AlertSummary)
        ensures
            s.total == findings@.len(),
            s.active + s.inactive + s.unknown == s.total,
            s.active == count_active(findings@),
            s.inactive == count_inactive(findings@),
            s.unknown == count_unknown(findings@),
            is_top_rules(findings@, tally_view(s.by_rule@)),
            forall|i: int| 0 <= i < s.by_rule@.len() ==> #[trigger] s.by_rule@[i].1 > 0,
            s.kingfisher_version == kingfisher_version,
            s.target == target,
    {
        let ghost fs = findings@;
        let ghost pa = |f: FindingReporterRecord| status_of(f) == "Active Credential"@;
        let ghost pi = |f: FindingReporterRecord| status_of(f) == "Inactive Credential"@;
        let ghost pu = |f: FindingReporterRecord| status_of(f) != "Active Credential"@ && status_of(f) != "Inactive Credential"@;
        proof {
            reveal_strlit("Active Credential");
            reveal_strlit("Inactive Credential");
        }
        let mut active: usize = 0;
        let mut inactive: usize = 0;
        let mut unknown: usize = 0;
        let mut i: usize = 0;
        while i < findings.len()
            invariant
                fs == findings@,
                0 <= i <= fs.len(),
                pa == (|f: FindingReporterRecord| status_of(f) == "Active Credential"@),
                pi == (|f: FindingReporterRecord| status_of(f) == "Inactive Credential"@),
                pu == (|f: FindingReporterRecord| status_of(f) != "Active Credential"@ && status_of(f) != "Inactive Credential"@),
                active == fs.take(i as int).filter(pa).len(),
                inactive == fs.take(i as int).filter(pi).len(),
                unknown == fs.take(i as int).filter(pu).len(),
            decreases fs.len() - i,
        {
            proof {
                reveal_strlit("Active Credential");
                reveal_strlit("Inactive Credential");
                assert("Active Credential"@.len() != "Inactive Credential"@.len());
                lemma_filter_take_step(fs, pa, i as int);
                lemma_filter_take_step(fs, pi, i as int);
                lemma_filter_take_step(fs, pu, i as int);
                lemma_filter_len(fs.take(i as int), pa);
                lemma_filter_len(fs.take(i as int), pi);
                lemma_filter_len(fs.take(i as int), pu);
            }
            let status = findings[i].finding.validation.status.as_str();
            if str_eq(status, "Active Credential") {
                active = active + 1;
            } else if str_eq(status, "Inactive Credential") {
                inactive = inactive + 1;
            } else {
                unknown = unknown + 1;
            }
            i = i + 1;
        }
        proof {
            assert(fs.take(fs.len() as int) == fs);
            lemma_status_counts_partition(fs);
        }
        let tallies = tally_rules(findings);
        let ghost tv = tally_view(tallies@);
        let mut ranked = rank_tallies(tallies);
        let ghost rv = tally_view(ranked@);
        let ghost n = rv.len();
        ranked.truncate(TOP_RULES);
        proof {
            let top = tally_view(ranked@);
            let m = if n <= TOP_RULES { n } else { TOP_RULES as nat };
            assert(top =~= rv.take(m as int));
            assert forall|a: int| 0 <= a < top.len() implies has_rule(fs, #[trigger] top[a].0) && top[a].1 == rule_count(fs, top[a].0) by {
                assert(rv.contains(top[a]));
                assert(tv.contains(top[a]));
                let b = choose|b: int| 0 <= b < tv.len() && tv[b] == top[a];
                assert(tv[b].1 == rule_count(fs, tv[b].0));
            }
            assert forall|id: Seq<char>| #[trigger] has_rule(fs, id) && !(exists|a: int| 0 <= a < top.len() && top[a].0 == id) implies {
                &&& top.len() == TOP_RULES
                &&& ranks_before(top[top.len() - 1], (id, rule_count(fs, id)))
            } by {
                let b = choose|b: int| 0 <= b < tv.len() && tv[b].0 == id;
                assert(tv.contains(tv[b]));
                assert(rv.contains(tv[b]));
                let c = choose|c: int| 0 <= c < rv.len() && rv[c] == tv[b];
                if c < m {
                    assert(top[c].0 == id);
                }
                assert(c >= m);
                assert(m == TOP_RULES);
                assert(ranks_before(rv[m - 1], rv[c]));
            }
            lemma_top_rules_counts(fs, top);
            assert forall|i: int| 0 <= i < ranked@.len() implies #[trigger] ranked@[i].1 > 0 by {
                assert(top[i].1 > 0);
            }
        }
        AlertSummary {
            total: findings.len(),
            active,
            inactive,
            unknown,
            by_rule: ranked,
            kingfisher_version,
            target,
        }
    }
}

/// Whether a finding of the given confidence passes a sink's threshold; a confidence other
/// than `Low`, `Medium` or `High` counts as `Medium`.
pub fn matches_min_confidence(finding_confidence: &str, threshold: ConfidenceLevel) -> (r: bool)
    ensures
        r == (confidence_rank(confidence_of(finding_confidence@)) >= confidence_rank(threshold)),
{
    proof {
        reveal_strlit("Low");
        reveal_strlit("Medium");
        reveal_strlit("High");
        assert("Low"@.len() == 3 && "Medium"@.len() == 6 && "High"@.len() == 4);
    }
    let level = if str_eq(finding_confidence, "Low") {
        ConfidenceLevel::Low
    } else if str_eq(finding_confidence, "Medium") {
        ConfidenceLevel::Medium
    } else if str_eq(finding_confidence, "High") {
        ConfidenceLevel::High
    } else {
        ConfidenceLevel::Medium
    };
    level.at_least(&threshold)
}

/// The confidence level a finding's confidence text stands for.
pub open spec fn confidence_of(text: Seq<char>) -> ConfidenceLevel {
    if text == "Low"@ {
        ConfidenceLevel::Low
    } else if text == "High"@ {
        ConfidenceLevel::High
    } else {
        ConfidenceLevel::Medium
    }
}

/// The records behind a list of references to them.
pub open spec fn records_of(fs: Seq<&FindingReporterRecord>) -> Seq<FindingReporterRecord> {
    fs.map_values(|r: &FindingReporterRecord| *r)
}

/// A finding passes a sink's confidence threshold.
pub open spec fn passes_threshold(f: FindingReporterRecord, threshold: ConfidenceLevel) -> bool {
    confidence_rank(confidence_of(f.finding.confidence@)) >= confidence_rank(threshold)
}

/// The findings a sink with the given threshold reports, in their order.
pub open spec fn selected(fs: Seq<FindingReporterRecord>, threshold: ConfidenceLevel) -> Seq<FindingReporterRecord> {
    fs.filter(|f: FindingReporterRecord| passes_threshold(f, threshold))
}

/// A sink that posts only on findings stays silent after a scan that found nothing.
pub open spec fn sink_skips(on: AlertOn, total: nat) -> bool {
    on == AlertOn::Findings && total == 0
}

/// The payload of the given format for a summary and the findings a sink reports.
pub open spec fn payload_json(format: AlertFormat, s: AlertSummary, fs: Seq<&FindingReporterRecord>, include_secret: bool) -> Json {
    match format {
        AlertFormat::Slack => slack_payload(s, fs, include_secret),
        AlertFormat::Teams => teams_payload(s, fs, include_secret),
        AlertFormat::Generic => generic_payload(s, fs, include_secret),
    }
}

/// The findings whose confidence reaches `threshold`, in their order.
pub fn select_findings<'a>(findings: &'a [FindingReporterRecord], threshold: ConfidenceLevel) -> (v: Vec<&'a FindingReporterRecord>)
    ensures
        records_of(v@) == selected(findings@, threshold),
{
    let ghost pred = |f: FindingReporterRecord| passes_threshold(f, threshold);
    let mut v: Vec<&'a FindingReporterRecord> = Vec::new();
    let mut i: usize = 0;
    while i < findings.len()
        invariant
            pred == (|f: FindingReporterRecord| passes_threshold(f, threshold)),
            0 <= i <= findings@.len(),
            records_of(v@) == findings@.take(i as int).filter(pred),
        decreases findings@.len() - i,
    {
        proof {
            lemma_filter_take_step(findings@, pred, i as int);
        }
        let ghost before = v@;
        if matches_min_confidence(findings[i].finding.confidence.as_str(), threshold) {
            v.push(&findings[i]);
            assert(records_of(v@) =~= records_of(before).push(findings@[i as int]));
        }
        i = i + 1;
    }
    assert(findings@.take(findings@.len() as int) == findings@);
    v
}

/// The payload of the given format.
pub fn build_payload_for(format: AlertFormat, summary: &AlertSummary, findings: &[&FindingReporterRecord], include_secret: bool) -> (p: JsonValue)
    ensures
        p.json() == payload_json(format, *summary, findings@, include_secret),
{
    match format {
        AlertFormat::Slack => slack::build_payload(summary, findings, include_secret),
        AlertFormat::Teams => teams::build_payload(summary, findings, include_secret),
        AlertFormat::Generic => generic::build_payload(summary, findings, include_secret),
    }
}

/// What a sink posts after a scan: nothing when it posts only on findings and there are none,
/// else the payload of its format for the summary and the findings that reach its threshold.
pub fn sink_payload(sink: &AlertSink, summary: &AlertSummary, findings: &[FindingReporterRecord]) -> (p: Option<JsonValue>)
    ensures
        (p is None) == sink_skips(sink.on, summary.total as nat),
        p matches Some(j) ==> forall|sel: Seq<&FindingReporterRecord>| #[trigger] records_of(sel) == selected(findings@, sink.min_confidence)
            ==> j.json() == payload_json(sink.format, *summary, sel, sink.include_secret),
{
    if sink.on == AlertOn::Findings && summary.total == 0 {
        return None;
    }
    let chosen = select_findings(findings, sink.min_confidence);
    let p = build_payload_for(sink.format, summary, chosen.as_slice(), sink.include_secret);
    proof {
        assert forall|sel: Seq<&FindingReporterRecord>| #[trigger] records_of(sel) == selected(findings@, sink.min_confidence)
            implies sel == chosen@ by {
            lemma_records_of_injective(sel, chosen@);
        }
    }
    Some(p)
}

proof fn lemma_records_of_injective(a: Seq<&FindingReporterRecord>, b: Seq<&FindingReporterRecord>)
    requires
        records_of(a) == records_of(b),
    ensures
        a == b,
{
    assert(a.len() == records_of(b).len());
    assert forall|i: int| 0 <= i < a.len() implies a[i] == b[i] by {
        assert(records_of(a)[i] == *a[i]);
        assert(records_of(b)[i] == *b[i]);
    }
    assert(a =~= b);
}

/// A sink reports exactly the findings that reach its confidence threshold: each reported
/// finding is one of the scan's findings and reaches the threshold, and each finding that
/// reaches it is reported.
pub proof fn lemma_selected_findings(fs: Seq<FindingReporterRecord>, threshold: ConfidenceLevel)
    ensures
        forall|i: int| 0 <= i < selected(fs, threshold).len() ==> fs.contains(#[trigger] selected(fs, threshold)[i])
            && passes_threshold(selected(fs, threshold)[i], threshold),
        forall|i: int| 0 <= i < fs.len() && passes_threshold(fs[i], threshold) ==> selected(fs, threshold).contains(#[trigger] fs[i]),
{
    let pred = |f: FindingReporterRecord| passes_threshold(f, threshold);
    let sel = selected(fs, threshold);
    assert(sel == fs.filter(pred));
    assert forall|i: int| 0 <= i < sel.len() implies fs.contains(#[trigger] sel[i]) && passes_threshold(sel[i], threshold) by {
        assert(sel.contains(sel[i]));
        fs.lemma_filter_contains_rev(pred, sel[i]);
        fs.lemma_filter_pred(pred, i);
    }
    assert forall|i: int| 0 <= i < fs.len() && passes_threshold(fs[i], threshold) implies sel.contains(#[trigger] fs[i]) by {
        fs.lemma_filter_contains(pred, i);
    }
}

/// A sink set to post always yields a payload whatever the scan found; a sink yields none only
/// when it posts on findings and the scan found nothing, and then it yields none.
pub proof fn lemma_which_sinks_post(on: AlertOn, total: nat)
    ensures
        on == AlertOn::Always ==> !sink_skips(on, total),
        sink_skips(on, total) ==> on == AlertOn::Findings && total == 0,
        on == AlertOn::Findings && total == 0 ==> sink_skips(on, total),
{
}

/// Which findings pass which threshold: a `High` finding passes every threshold, a `Low` one only
/// the `Low` threshold, and a `Medium` one, or one of any other confidence text, every threshold
/// but `High`.
pub proof fn lemma_confidence_thresholds(f: FindingReporterRecord, threshold: ConfidenceLevel)
    ensures
        f.finding.confidence@ == "High"@ ==> passes_threshold(f, threshold),
        f.finding.confidence@ == "Low"@ ==> (passes_threshold(f, threshold) <==> threshold == ConfidenceLevel::Low),
        f.finding.confidence@ != "Low"@ && f.finding.confidence@ != "High"@ ==> (passes_threshold(f, threshold) <==> threshold
            != ConfidenceLevel::High),
{
    reveal_strlit("Low");
    reveal_strlit("High");
    assert("Low"@.len() != "High"@.len());
}

/// Each format's payload is its own kind: a Slack message carries blocks, a Teams payload is a
/// MessageCard, and the generic envelope carries schema version `1`.
pub proof fn lemma_payload_kinds(format: AlertFormat, s: AlertSummary, fs: Seq<&FindingReporterRecord>, include_secret: bool)
    ensures
        payload_json(format, s, fs, include_secret) matches Json::Obj(fields) && match format {
            AlertFormat::Slack => member(fields, "blocks"@) matches Some(Json::Arr(_)),
            AlertFormat::Teams => member(fields, "@type"@) == Some(Json::Str("MessageCard"@)),
            AlertFormat::Generic => member(fields, "schema_version"@) == Some(Json::Str("1"@)),
        },
{
    match format {
        AlertFormat::Slack => {
            crate::alerts::slack::lemma_slack_header(s, fs, include_secret);
        },
        AlertFormat::Teams => {
            let fields = match teams_payload(s, fs, include_secret) {
                Json::Obj(f) => f,
                _ => Seq::empty(),
            };
            assert(fields[0].0 == "@type"@);
            crate::json::lemma_member_at(fields, 0);
        },
        AlertFormat::Generic => {
            crate::alerts::generic::lemma_generic_reports_summary(s, fs, include_secret);
        },
    }
}

} // verus!
