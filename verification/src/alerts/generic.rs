//! Generic JSON webhook payload: a stable, versioned envelope around the summary and the
//! finding records, for any endpoint that accepts a JSON POST.
use vstd::prelude::*;

use crate::alerts::{tally_view, AlertSummary};
use crate::json::{jsons, lemma_member_at, member, object2, object5, object6, Json, JsonValue};
use crate::reporter::{record_json, FindingReporterRecord};

verus! {

/// How many finding records the envelope carries at most.
pub const PER_FINDING_LIMIT: usize = 200;

/// A rule and its count in the envelope.
pub open spec fn rule_entry(e: (Seq<char>, nat)) -> Json {
    Json::Obj(seq![("rule_id"@, Json::Str(e.0)), ("count"@, Json::Number(e.1))])
}

/// The rules and counts of the summary in the envelope.
pub open spec fn rule_entries(tv: Seq<(Seq<char>, nat)>) -> Seq<Json> {
    tv.map_values(|e: (Seq<char>, nat)| rule_entry(e))
}

/// The JSON records of the first `take` findings.
pub open spec fn records(fs: Seq<&FindingReporterRecord>, take: nat, redact: bool) -> Seq<Json> {
    Seq::new(take, |i: int| record_json(*fs[i], redact))
}

/// The scan target, or `null`.
pub open spec fn target_json(t: Option<String>) -> Json {
    match t {
        Some(t) => Json::Str(t@),
        None => Json::Null,
    }
}

/// How many records the envelope carries.
pub open spec fn records_taken(n: nat) -> nat {
    if n <= PER_FINDING_LIMIT {
        n
    } else {
        PER_FINDING_LIMIT as nat
    }
}

/// The envelope: schema and tool versions, the summary, the first records and how many were
/// left out. Snippets are redacted unless secrets are included.
pub open spec fn generic_payload(s: AlertSummary, fs: Seq<&FindingReporterRecord>, include_secret: bool) -> Json {
    let take = records_taken(fs.len());
    Json::Obj(
        seq![
            ("schema_version"@, Json::Str("1"@)),
            ("kingfisher_version"@, Json::Str(s.kingfisher_version@)),
            ("summary"@, Json::Obj(
                seq![
                    ("total"@, Json::Number(s.total as nat)),
                    ("active"@, Json::Number(s.active as nat)),
                    ("inactive"@, Json::Number(s.inactive as nat)),
                    ("unknown"@, Json::Number(s.unknown as nat)),
                    ("by_rule"@, Json::Arr(rule_entries(tally_view(s.by_rule@)))),
                    ("target"@, target_json(s.target)),
                ],
            )),
            ("findings"@, Json::Arr(records(fs, take, !include_secret))),
            ("findings_omitted"@, Json::Number((fs.len() - take) as nat)),
        ],
    )
}

/// The generic JSON envelope for a scan summary and the findings it reports: up to
/// `PER_FINDING_LIMIT` records, snippets redacted unless `include_secret`.
pub fn build_payload(summary: &AlertSummary, findings: &[&FindingReporterRecord], include_secret: bool) -> (p: JsonValue)
    ensures
        p.json() == generic_payload(*summary, findings@, include_secret),
{
    let take = if findings.len() <= PER_FINDING_LIMIT { findings.len() } else { PER_FINDING_LIMIT };
    let mut recs: Vec<JsonValue> = Vec::new();
    let mut i: usize = 0;
    while i < take
        invariant
            take == records_taken(findings@.len()),
            take <= findings@.len(),
            0 <= i <= take,
            jsons(recs@) == records(findings@, i as nat, !include_secret),
        decreases take - i,
    {
        let ghost before = jsons(recs@);
        let r = findings[i].to_json(!include_secret);
        let ghost rj = r.json();
        recs.push(r);
        proof {
            assert(jsons(recs@) =~= before.push(rj));
            assert(jsons(recs@) =~= records(findings@, (i + 1) as nat, !include_secret));
        }
        i = i + 1;
    }
    let ghost tv = tally_view(summary.by_rule@);
    let mut rules: Vec<JsonValue> = Vec::new();
    let mut j: usize = 0;
    while j < summary.by_rule.len()
        invariant
            tv == tally_view(summary.by_rule@),
            0 <= j <= summary.by_rule@.len(),
            jsons(rules@) == rule_entries(tv.take(j as int)),
        decreases summary.by_rule@.len() - j,
    {
        let ghost before = jsons(rules@);
        let e = object2(
            "rule_id",
            JsonValue::from_string(summary.by_rule[j].0.clone()),
            "count",
            JsonValue::from_u64(summary.by_rule[j].1 as u64),
        );
        let ghost ej = e.json();
        rules.push(e);
        proof {
            assert(tv[j as int] == (summary.by_rule@[j as int].0@, summary.by_rule@[j as int].1 as nat));
            assert(ej == rule_entry(tv[j as int]));
            assert(tv.take(j + 1) == tv.take(j as int).push(tv[j as int]));
            assert(rule_entries(tv.take(j + 1)) =~= rule_entries(tv.take(j as int)).push(rule_entry(tv[j as int])));
            assert(jsons(rules@) =~= before.push(ej));
        }
        j = j + 1;
    }
    proof {
        assert(tv.take(tv.len() as int) == tv);
    }
    let target = match &summary.target {
        Some(t) => JsonValue::from_string(t.clone()),
        None => JsonValue::Null,
    };
    let by_rule = JsonValue::array(rules);
    let total = JsonValue::from_u64(summary.total as u64);
    let active = JsonValue::from_u64(summary.active as u64);
    let inactive = JsonValue::from_u64(summary.inactive as u64);
    let unknown = JsonValue::from_u64(summary.unknown as u64);
    let summary_json = object6("total", total, "active", active, "inactive", inactive, "unknown", unknown, "by_rule", by_rule, "target", target);
    proof {
        assert(jsons(recs@) == records(findings@, records_taken(findings@.len()), !include_secret));
    }
    object5(
        "schema_version",
        JsonValue::from_str("1"),
        "kingfisher_version",
        JsonValue::from_string(summary.kingfisher_version.clone()),
        "summary",
        summary_json,
        "findings",
        JsonValue::array(recs),
        "findings_omitted",
        JsonValue::from_u64((findings.len() - take) as u64),
    )
}

/// The generic envelope accounts for every finding: its `findings` member holds the records of
/// the first findings in order, at most 200 of them, and its `findings_omitted`
/// member counts the others.
pub proof fn lemma_generic_accounts_for_findings(s: AlertSummary, fs: Seq<&FindingReporterRecord>, include_secret: bool)
    ensures
        generic_payload(s, fs, include_secret) matches Json::Obj(fields) && {
            &&& member(fields, "findings"@) matches Some(Json::Arr(rs))
            &&& member(fields, "findings_omitted"@) matches Some(Json::Number(omitted))
            &&& rs.len() == if fs.len() <= 200 { fs.len() } else { 200 }
            &&& rs.len() + omitted == fs.len()
            &&& forall|i: int| 0 <= i < rs.len() ==> rs[i] == record_json(*fs[i], !include_secret)
        },
{
    reveal_strlit("schema_version");
    reveal_strlit("kingfisher_version");
    reveal_strlit("summary");
    reveal_strlit("findings");
    reveal_strlit("findings_omitted");
    let fields = match generic_payload(s, fs, include_secret) {
        Json::Obj(f) => f,
        _ => Seq::empty(),
    };
    reveal_with_fuel(member, 6);
    assert("schema_version"@.len() != "findings"@.len());
    assert("kingfisher_version"@.len() != "findings"@.len());
    assert("summary"@.len() != "findings"@.len());
    assert("schema_version"@.len() != "findings_omitted"@.len());
    assert("kingfisher_version"@.len() != "findings_omitted"@.len());
    assert("summary"@.len() != "findings_omitted"@.len());
    assert("findings"@.len() != "findings_omitted"@.len());
    assert(fields.drop_first().drop_first().drop_first()[0].0 == "findings"@);
    assert(fields.drop_first().drop_first().drop_first().drop_first()[0].0 == "findings_omitted"@);
}

/// The envelope reports the summary as it is: schema version `1`, the tool's version, and under
/// `summary` the total, active, inactive and unknown counts, each rule with its count, and the
/// target (`null` without one).
pub proof fn lemma_generic_reports_summary(s: AlertSummary, fs: Seq<&FindingReporterRecord>, include_secret: bool)
    ensures
        generic_payload(s, fs, include_secret) matches Json::Obj(fields) && {
            &&& member(fields, "schema_version"@) == Some(Json::Str("1"@))
            &&& member(fields, "kingfisher_version"@) == Some(Json::Str(s.kingfisher_version@))
            &&& member(fields, "summary"@) matches Some(Json::Obj(sum))
            &&& member(sum, "total"@) == Some(Json::Number(s.total as nat))
            &&& member(sum, "active"@) == Some(Json::Number(s.active as nat))
            &&& member(sum, "inactive"@) == Some(Json::Number(s.inactive as nat))
            &&& member(sum, "unknown"@) == Some(Json::Number(s.unknown as nat))
            &&& member(sum, "target"@) == Some(
                match s.target {
                    Some(t) => Json::Str(t@),
                    None => Json::Null,
                },
            )
            &&& member(sum, "by_rule"@) matches Some(Json::Arr(rules))
            &&& rules.len() == s.by_rule@.len()
            &&& forall|i: int| 0 <= i < rules.len() ==> (#[trigger] rules[i] matches Json::Obj(entry) && member(entry, "rule_id"@)
                == Some(Json::Str(s.by_rule@[i].0@)) && member(entry, "count"@) == Some(Json::Number(s.by_rule@[i].1 as nat)))
        },
{
    reveal_strlit("schema_version");
    reveal_strlit("kingfisher_version");
    reveal_strlit("summary");
    reveal_strlit("total");
    reveal_strlit("active");
    reveal_strlit("inactive");
    reveal_strlit("unknown");
    reveal_strlit("by_rule");
    reveal_strlit("target");
    reveal_strlit("rule_id");
    reveal_strlit("count");
    let fields = match generic_payload(s, fs, include_secret) {
        Json::Obj(f) => f,
        _ => Seq::empty(),
    };
    assert(fields[0].0 == "schema_version"@ && fields[1].0 == "kingfisher_version"@ && fields[2].0 == "summary"@);
    assert("schema_version"@.len() == 14 && "kingfisher_version"@.len() == 18 && "summary"@.len() == 7);
    lemma_member_at(fields, 0);
    lemma_member_at(fields, 1);
    lemma_member_at(fields, 2);
    let sum = match fields[2].1 {
        Json::Obj(f) => f,
        _ => Seq::empty(),
    };
    assert(sum[0].0 == "total"@ && sum[1].0 == "active"@ && sum[2].0 == "inactive"@ && sum[3].0 == "unknown"@);
    assert(sum[4].0 == "by_rule"@ && sum[5].0 == "target"@);
    assert(sum[0].0.len() == 5 && sum[1].0.len() == 6 && sum[2].0.len() == 8 && sum[3].0.len() == 7);
    assert(sum[4].0.len() == 7 && sum[5].0.len() == 6);
    assert(sum[4].0[0] != sum[3].0[0]);
    assert(sum[5].0[0] != sum[1].0[0]);
    lemma_member_at(sum, 0);
    lemma_member_at(sum, 1);
    lemma_member_at(sum, 2);
    lemma_member_at(sum, 3);
    lemma_member_at(sum, 4);
    lemma_member_at(sum, 5);
    let rules = rule_entries(tally_view(s.by_rule@));
    assert forall|i: int| 0 <= i < rules.len() implies (#[trigger] rules[i] matches Json::Obj(entry) && member(entry, "rule_id"@)
        == Some(Json::Str(s.by_rule@[i].0@)) && member(entry, "count"@) == Some(Json::Number(s.by_rule@[i].1 as nat))) by {
        let entry = seq![("rule_id"@, Json::Str(s.by_rule@[i].0@)), ("count"@, Json::Number(s.by_rule@[i].1 as nat))];
        assert(rules[i] == Json::Obj(entry));
        assert(entry[0].0 == "rule_id"@ && entry[1].0 == "count"@);
        assert(entry[0].0.len() != entry[1].0.len());
        lemma_member_at(entry, 0);
        lemma_member_at(entry, 1);
    }
}

} // verus!
