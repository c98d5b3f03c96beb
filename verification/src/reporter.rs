//! The finding records that the alert sinks report.
use vstd::prelude::*;

verus! {

/// The rule that produced a finding.
#[derive(Clone, Debug)]
pub struct RuleRef {
    /// The rule's human-readable name.
    pub name: String,
    /// The rule's id, such as `kingfisher.aws.1`.
    pub id: String,
}

/// The outcome of validating a finding's secret.
#[derive(Clone, Debug)]
pub struct Validation {
    /// The validation status, such as `Active Credential`.
    pub status: String,
}

/// Where a secret was found and what it looks like.
#[derive(Clone, Debug)]
pub struct Finding {
    /// The matched secret.
    pub snippet: String,
    /// The file it was found in.
    pub path: String,
    /// The line it was found on.
    pub line: u64,
    /// The match confidence: `Low`, `Medium` or `High`.
    pub confidence: String,
    pub validation: Validation,
}

/// One reported finding.
#[derive(Clone, Debug)]
pub struct FindingReporterRecord {
    pub rule: RuleRef,
    pub finding: Finding,
}

} // verus!

verus! {

use crate::json::{lemma_member_at, member, object1, object2, object5, Json, JsonValue};

/// The JSON form of a finding record; the snippet is replaced by a placeholder when `redact`.
pub open spec fn record_json(f: FindingReporterRecord, redact: bool) -> Json {
    Json::Obj(
        seq![
            ("rule"@, Json::Obj(seq![("name"@, Json::Str(f.rule.name@)), ("id"@, Json::Str(f.rule.id@))])),
            ("finding"@, Json::Obj(
                seq![
                    ("snippet"@, Json::Str(if redact { "<redacted>"@ } else { f.finding.snippet@ })),
                    ("path"@, Json::Str(f.finding.path@)),
                    ("line"@, Json::Number(f.finding.line as nat)),
                    ("confidence"@, Json::Str(f.finding.confidence@)),
                    ("validation"@, Json::Obj(seq![("status"@, Json::Str(f.finding.validation.status@))])),
                ],
            )),
        ],
    )
}

impl FindingReporterRecord {
    /// The record as JSON, with the snippet replaced by `<redacted>` when `redact`.
    pub fn to_json(&self, redact: bool) -> (j: JsonValue)
        ensures
            j.json() == record_json(*self, redact),
    {
        let snippet = if redact {
            JsonValue::from_str("<redacted>")
        } else {
            JsonValue::from_string(self.finding.snippet.clone())
        };
        object2(
            "rule",
            object2("name", JsonValue::from_string(self.rule.name.clone()), "id", JsonValue::from_string(self.rule.id.clone())),
            "finding",
            object5(
                "snippet",
                snippet,
                "path",
                JsonValue::from_string(self.finding.path.clone()),
                "line",
                JsonValue::from_u64(self.finding.line),
                "confidence",
                JsonValue::from_string(self.finding.confidence.clone()),
                "validation",
                object1("status", JsonValue::from_string(self.finding.validation.status.clone())),
            ),
        )
    }
}

/// A finding's record names its rule (name and id) and says where the secret was found (path and
/// line), with what confidence and validation status; it shows the snippet only when not
/// redacted, and `<redacted>` in its place otherwise.
pub proof fn lemma_record_json(f: FindingReporterRecord, redact: bool)
    ensures
        record_json(f, redact) matches Json::Obj(fields) && {
            &&& member(fields, "rule"@) matches Some(Json::Obj(rule))
            &&& member(rule, "name"@) == Some(Json::Str(f.rule.name@))
            &&& member(rule, "id"@) == Some(Json::Str(f.rule.id@))
            &&& member(fields, "finding"@) matches Some(Json::Obj(found))
            &&& member(found, "snippet"@) == Some(Json::Str(if redact { "<redacted>"@ } else { f.finding.snippet@ }))
            &&& member(found, "path"@) == Some(Json::Str(f.finding.path@))
            &&& member(found, "line"@) == Some(Json::Number(f.finding.line as nat))
            &&& member(found, "confidence"@) == Some(Json::Str(f.finding.confidence@))
            &&& member(found, "validation"@) matches Some(Json::Obj(v))
            &&& member(v, "status"@) == Some(Json::Str(f.finding.validation.status@))
        },
{
    reveal_strlit("rule");
    reveal_strlit("finding");
    reveal_strlit("name");
    reveal_strlit("id");
    reveal_strlit("snippet");
    reveal_strlit("path");
    reveal_strlit("line");
    reveal_strlit("confidence");
    reveal_strlit("validation");
    reveal_strlit("status");
    let fields = match record_json(f, redact) {
        Json::Obj(x) => x,
        _ => Seq::empty(),
    };
    assert(fields[0].0 == "rule"@ && fields[1].0 == "finding"@ && fields[0].0.len() != fields[1].0.len());
    lemma_member_at(fields, 0);
    lemma_member_at(fields, 1);
    let rule = seq![("name"@, Json::Str(f.rule.name@)), ("id"@, Json::Str(f.rule.id@))];
    assert(rule[0].0 == "name"@ && rule[1].0 == "id"@ && rule[0].0.len() != rule[1].0.len());
    lemma_member_at(rule, 0);
    lemma_member_at(rule, 1);
    let found = match fields[1].1 {
        Json::Obj(x) => x,
        _ => Seq::empty(),
    };
    assert(found[0].0 == "snippet"@ && found[1].0 == "path"@ && found[2].0 == "line"@);
    assert(found[3].0 == "confidence"@ && found[4].0 == "validation"@);
    assert(found[0].0.len() == 7 && found[1].0.len() == 4 && found[2].0.len() == 4);
    assert(found[3].0.len() == 10 && found[4].0.len() == 10);
    assert(found[2].0[0] != found[1].0[0]);
    assert(found[4].0[0] != found[3].0[0]);
    lemma_member_at(found, 0);
    lemma_member_at(found, 1);
    lemma_member_at(found, 2);
    lemma_member_at(found, 3);
    lemma_member_at(found, 4);
    let v = seq![("status"@, Json::Str(f.finding.validation.status@))];
    lemma_member_at(v, 0);
}

} // verus!
