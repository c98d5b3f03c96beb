//! Microsoft Teams incoming-webhook payload (legacy MessageCard schema, accepted by both the
//! classic connectors and the newer workflow webhooks).
use vstd::prelude::*;

use crate::alerts::slack::{truncate, truncated};
use crate::alerts::{tally_view, AlertSummary};
use crate::json::{jsons, lemma_member_at, member, object2, object4, object6, Json, JsonValue};
use crate::reporter::FindingReporterRecord;
use crate::text::{append, decimal, decimal_string, join, join_strings, lemma_join_push, strings_view};

verus! {

/// How many findings the Teams card details at most.
pub const PER_FINDING_LIMIT: usize = 10;

/// The plural ending for a count.
pub open spec fn plural_of(n: nat) -> Seq<char> {
    if n == 1 {
        ""@
    } else {
        "s"@
    }
}

/// The card's title.
pub open spec fn card_title(s: AlertSummary) -> Seq<char> {
    if s.total == 0 {
        "Kingfisher: scan complete — no findings"@
    } else {
        "Kingfisher: "@ + decimal(s.total as nat) + " finding"@ + plural_of(s.total as nat)
    }
}

/// The card's colour: red when a live secret was found, amber for other findings, green when clean.
pub open spec fn theme_color(s: AlertSummary) -> Seq<char> {
    if s.active > 0 {
        "C0392B"@
    } else if s.total > 0 {
        "F39C12"@
    } else {
        "27AE60"@
    }
}

/// A name-value fact.
pub open spec fn fact(name: Seq<char>, value: Seq<char>) -> Json {
    Json::Obj(seq![("name"@, Json::Str(name)), ("value"@, Json::Str(value))])
}

/// The facts: the validation counts, the target, and each top rule with its count.
pub open spec fn card_facts(s: AlertSummary) -> Seq<Json> {
    seq![
        fact("Active"@, decimal(s.active as nat)),
        fact("Inactive"@, decimal(s.inactive as nat)),
        fact("Unknown"@, decimal(s.unknown as nat)),
    ] + (match s.target {
        Some(t) => seq![fact("Target"@, t@)],
        None => Seq::empty(),
    }) + tally_view(s.by_rule@).map_values(|e: (Seq<char>, nat)| fact(e.0, decimal(e.1)))
}

/// The snippet shown for a finding: its first 32 characters, or a placeholder when secrets are
/// not included.
pub open spec fn shown_snippet(f: FindingReporterRecord, include_secret: bool) -> Seq<char> {
    if include_secret {
        truncated(f.finding.snippet@, 32)
    } else {
        "<redacted>"@
    }
}

/// The markdown line that details one finding.
pub open spec fn card_line(f: FindingReporterRecord, include_secret: bool) -> Seq<char> {
    "- **"@ + f.rule.id@ + "** at `"@ + f.finding.path@ + ":"@ + decimal(f.finding.line as nat) + "` — `"@
        + shown_snippet(f, include_secret) + "` (validation: "@ + f.finding.validation.status@ + ")\n"@
}

/// The finding details: a line for each of the first findings up to the limit, then how many
/// were left out.
pub open spec fn card_details(fs: Seq<&FindingReporterRecord>, include_secret: bool) -> Seq<char> {
    let take = if fs.len() <= PER_FINDING_LIMIT { fs.len() } else { PER_FINDING_LIMIT as nat };
    join(
        Seq::new(take, |i: int| card_line(*fs[i], include_secret)) + (if fs.len() > take {
            seq!["_…"@ + decimal((fs.len() - take) as nat) + " more findings omitted_\n"@]
        } else {
            Seq::empty()
        }),
        ""@,
    )
}

/// The card's sections: the summary with its facts, then the findings when there are any.
pub open spec fn card_sections(s: AlertSummary, fs: Seq<&FindingReporterRecord>, include_secret: bool) -> Seq<Json> {
    seq![
        Json::Obj(
            seq![
                ("activityTitle"@, Json::Str(card_title(s))),
                ("activitySubtitle"@, Json::Str("kingfisher v"@ + s.kingfisher_version@)),
                ("facts"@, Json::Arr(card_facts(s))),
                ("markdown"@, Json::Bool(true)),
            ],
        ),
    ] + (if fs.len() > 0 {
        seq![Json::Obj(seq![("title"@, Json::Str("Findings"@)), ("text"@, Json::Str(card_details(fs, include_secret)))])]
    } else {
        Seq::empty()
    })
}

/// The MessageCard.
pub open spec fn teams_payload(s: AlertSummary, fs: Seq<&FindingReporterRecord>, include_secret: bool) -> Json {
    Json::Obj(
        seq![
            ("@type"@, Json::Str("MessageCard"@)),
            ("@context"@, Json::Str("https://schema.org/extensions"@)),
            ("summary"@, Json::Str(card_title(s))),
            ("themeColor"@, Json::Str(theme_color(s))),
            ("title"@, Json::Str(card_title(s))),
            ("sections"@, Json::Arr(card_sections(s, fs, include_secret))),
        ],
    )
}

/// The plural ending for a count.
pub fn plural(n: usize) -> (r: &'static str)
    ensures
        r@ == plural_of(n as nat),
{
    if n == 1 {
        ""
    } else {
        "s"
    }
}

/// A name-value fact.
fn fact_json(name: String, value: String) -> (j: JsonValue)
    ensures
        j.json() == fact(name@, value@),
{
    object2("name", JsonValue::from_string(name), "value", JsonValue::from_string(value))
}

/// The card's title.
fn title_of(summary: &AlertSummary) -> (t: String)
    ensures
        t@ == card_title(*summary),
{
    if summary.total == 0 {
        return String::from_str("Kingfisher: scan complete — no findings");
    }
    let mut t = String::from_str("Kingfisher: ");
    append(&mut t, decimal_string(summary.total as u64).as_str());
    append(&mut t, " finding");
    append(&mut t, plural(summary.total));
    t
}

/// The markdown line that details one finding.
fn detail_line(f: &FindingReporterRecord, include_secret: bool) -> (l: String)
    ensures
        l@ == card_line(*f, include_secret),
{
    let mut l = String::from_str("- **");
    append(&mut l, f.rule.id.as_str());
    append(&mut l, "** at `");
    append(&mut l, f.finding.path.as_str());
    append(&mut l, ":");
    append(&mut l, decimal_string(f.finding.line).as_str());
    append(&mut l, "` — `");
    let snippet = if include_secret {
        truncate(f.finding.snippet.as_str(), 32)
    } else {
        String::from_str("<redacted>")
    };
    append(&mut l, snippet.as_str());
    append(&mut l, "` (validation: ");
    append(&mut l, f.finding.validation.status.as_str());
    append(&mut l, ")\n");
    l
}

/// The Teams MessageCard for a scan summary and the findings it reports: a title, a colour by
/// severity, the counts and top rules as facts, and up to `PER_FINDING_LIMIT` finding details.
pub fn build_payload(summary: &AlertSummary, findings: &[&FindingReporterRecord], include_secret: bool) -> (p: JsonValue)
    ensures
        p.json() == teams_payload(*summary, findings@, include_secret),
{
    let title = title_of(summary);
    let theme = if summary.active > 0 {
        "C0392B"
    } else if summary.total > 0 {
        "F39C12"
    } else {
        "27AE60"
    };
    let mut facts: Vec<JsonValue> = Vec::new();
    facts.push(fact_json(String::from_str("Active"), decimal_string(summary.active as u64)));
    facts.push(fact_json(String::from_str("Inactive"), decimal_string(summary.inactive as u64)));
    facts.push(fact_json(String::from_str("Unknown"), decimal_string(summary.unknown as u64)));
    let ghost f1 = jsons(facts@);
    assert(f1 =~= seq![
        fact("Active"@, decimal(summary.active as nat)),
        fact("Inactive"@, decimal(summary.inactive as nat)),
        fact("Unknown"@, decimal(summary.unknown as nat)),
    ]);
    match &summary.target {
        Some(t) => {
            facts.push(fact_json(String::from_str("Target"), t.clone()));
            assert(jsons(facts@) =~= f1.push(fact("Target"@, t@)));
        },
        None => {},
    }
    let ghost f2 = jsons(facts@);
    assert(f2 =~= f1 + (match summary.target {
        Some(t) => seq![fact("Target"@, t@)],
        None => Seq::empty(),
    }));
    let ghost tv = tally_view(summary.by_rule@);
    let mut i: usize = 0;
    while i < summary.by_rule.len()
        invariant
            tv == tally_view(summary.by_rule@),
            0 <= i <= summary.by_rule@.len(),
            jsons(facts@) == f2 + tv.take(i as int).map_values(|e: (Seq<char>, nat)| fact(e.0, decimal(e.1))),
        decreases summary.by_rule@.len() - i,
    {
        let ghost before = jsons(facts@);
        facts.push(fact_json(summary.by_rule[i].0.clone(), decimal_string(summary.by_rule[i].1 as u64)));
        proof {
            assert(tv[i as int] == (summary.by_rule@[i as int].0@, summary.by_rule@[i as int].1 as nat));
            assert(tv.take(i + 1) == tv.take(i as int).push(tv[i as int]));
            assert(tv.take(i + 1).map_values(|e: (Seq<char>, nat)| fact(e.0, decimal(e.1))) =~= tv.take(i as int).map_values(
                |e: (Seq<char>, nat)| fact(e.0, decimal(e.1)),
            ).push(fact(tv[i as int].0, decimal(tv[i as int].1))));
            assert(jsons(facts@) =~= before.push(fact(tv[i as int].0, decimal(tv[i as int].1))));
        }
        i = i + 1;
    }
    proof {
        assert(tv.take(tv.len() as int) == tv);
        assert(jsons(facts@) =~= card_facts(*summary));
    }
    let mut subtitle = String::from_str("kingfisher v");
    append(&mut subtitle, summary.kingfisher_version.as_str());
    let facts = JsonValue::array(facts);
    let mut sections: Vec<JsonValue> = Vec::new();
    sections.push(object4(
        "activityTitle",
        JsonValue::from_string(title.clone()),
        "activitySubtitle",
        JsonValue::from_string(subtitle),
        "facts",
        facts,
        "markdown",
        JsonValue::Bool(true),
    ));
    let ghost s1 = jsons(sections@);
    if findings.len() > 0 {
        let take = if findings.len() <= PER_FINDING_LIMIT { findings.len() } else { PER_FINDING_LIMIT };
        let mut lines: Vec<String> = Vec::new();
        let mut k: usize = 0;
        while k < take
            invariant
                take <= findings@.len(),
                0 <= k <= take,
                strings_view(lines@) == Seq::new(k as nat, |m: int| card_line(*findings@[m], include_secret)),
            decreases take - k,
        {
            let ghost before = lines@;
            let line = detail_line(findings[k], include_secret);
            lines.push(line);
            proof {
                assert(strings_view(before).len() == before.len());
                assert(lines@ == before.push(line));
                assert forall|m: int| 0 <= m < k + 1 implies #[trigger] strings_view(lines@)[m] == card_line(*findings@[m], include_secret) by {
                    if m < k {
                        assert(lines@[m] == before[m]);
                        assert(strings_view(before)[m] == card_line(*findings@[m], include_secret));
                    }
                }
                assert(strings_view(lines@) =~= Seq::new((k + 1) as nat, |m: int| card_line(*findings@[m], include_secret)));
            }
            k = k + 1;
        }
        if findings.len() > take {
            let mut more = String::from_str("_…");
            append(&mut more, decimal_string((findings.len() - take) as u64).as_str());
            append(&mut more, " more findings omitted_\n");
            let ghost before = lines@;
            lines.push(more);
            proof {
                assert(strings_view(lines@) =~= strings_view(before).push(lines@[before.len() as int]@));
            }
        }
        proof {
            assert(strings_view(lines@) =~= Seq::new(take as nat, |i: int| card_line(*findings@[i], include_secret)) + (if findings@.len() > take {
                seq!["_…"@ + decimal((findings@.len() - take) as nat) + " more findings omitted_\n"@]
            } else {
                Seq::<Seq<char>>::empty()
            }));
        }
        let details = join_strings(&lines, "");
        proof {
            assert(details@ == card_details(findings@, include_secret));
        }
        let ghost before = jsons(sections@);
        sections.push(object2("title", JsonValue::from_str("Findings"), "text", JsonValue::from_string(details)));
        assert(jsons(sections@) =~= before.push(Json::Obj(seq![("title"@, Json::Str("Findings"@)), ("text"@, Json::Str(card_details(findings@, include_secret)))])));
    }
    proof {
        assert(jsons(sections@) =~= card_sections(*summary, findings@, include_secret));
    }
    object6(
        "@type",
        JsonValue::from_str("MessageCard"),
        "@context",
        JsonValue::from_str("https://schema.org/extensions"),
        "summary",
        JsonValue::from_string(title.clone()),
        "themeColor",
        JsonValue::from_str(theme),
        "title",
        JsonValue::from_string(title),
        "sections",
        JsonValue::array(sections),
    )
}

/// The Teams details account for every finding: a line for each of the first findings, at most
/// 10 of them and in order, then, when findings remain, a line naming how many
/// remain, so that the lines detailed and the number named add up to the findings reported.
pub proof fn lemma_teams_details_account(fs: Seq<&FindingReporterRecord>, include_secret: bool)
    ensures
        ({
            let k: nat = if fs.len() <= 10 { fs.len() } else { 10 };
            card_details(fs, include_secret) == join(Seq::new(k, |i: int| card_line(*fs[i], include_secret)), ""@) + (if k
                < fs.len() {
                "_…"@ + decimal((fs.len() - k) as nat) + " more findings omitted_\n"@
            } else {
                Seq::empty()
            })
        }),
{
    reveal_strlit("");
    let k = if fs.len() <= PER_FINDING_LIMIT { fs.len() } else { PER_FINDING_LIMIT as nat };
    let lines = Seq::new(k, |i: int| card_line(*fs[i], include_secret));
    if k < fs.len() {
        let more = "_…"@ + decimal((fs.len() - k) as nat) + " more findings omitted_\n"@;
        assert(lines + seq![more] == lines.push(more));
        lemma_join_push(lines, ""@, more);
        assert(join(lines, ""@) + ""@ == join(lines, ""@));
    } else {
        assert(lines + Seq::<Seq<char>>::empty() == lines);
    }
}

/// The Teams card's title names the findings reported, and its colour is red when a live secret
/// was found, amber for other findings and green for a clean scan.
pub proof fn lemma_teams_title_and_colour(s: AlertSummary, fs: Seq<&FindingReporterRecord>, include_secret: bool)
    ensures
        teams_payload(s, fs, include_secret) matches Json::Obj(fields) && {
            &&& member(fields, "title"@) == Some(Json::Str(
                if s.total == 0 {
                    "Kingfisher: scan complete — no findings"@
                } else {
                    "Kingfisher: "@ + decimal(s.total as nat) + (if s.total == 1 { " finding"@ } else { " findings"@ })
                },
            ))
            &&& member(fields, "themeColor"@) == Some(Json::Str(
                if s.active > 0 {
                    "C0392B"@
                } else if s.total > 0 {
                    "F39C12"@
                } else {
                    "27AE60"@
                },
            ))
        },
{
    reveal_strlit("@type");
    reveal_strlit("@context");
    reveal_strlit("summary");
    reveal_strlit("themeColor");
    reveal_strlit("title");
    reveal_strlit(" finding");
    reveal_strlit(" findings");
    reveal_strlit("s");
    reveal_strlit("");
    let fields = match teams_payload(s, fs, include_secret) {
        Json::Obj(f) => f,
        _ => Seq::empty(),
    };
    assert(fields[0].0 == "@type"@ && fields[1].0 == "@context"@ && fields[2].0 == "summary"@);
    assert(fields[3].0 == "themeColor"@ && fields[4].0 == "title"@);
    assert(fields[0].0[0] != fields[4].0[0]);
    assert(fields[1].0.len() == 8 && fields[2].0.len() == 7 && fields[3].0.len() == 10 && fields[4].0.len() == 5);
    lemma_member_at(fields, 3);
    lemma_member_at(fields, 4);
    assert(" finding"@ + "s"@ =~= " findings"@);
    assert(" finding"@ + ""@ =~= " finding"@);
    if s.total != 0 {
        let d = decimal(s.total as nat);
        assert("Kingfisher: "@ + d + " finding"@ + plural_of(s.total as nat) =~= "Kingfisher: "@ + d + (" finding"@
            + plural_of(s.total as nat)));
    }
}

/// A secret is shown cut to its first 32 characters, with an ellipsis when it was cut, and only
/// when secrets are included; otherwise `<redacted>` stands in its place.
pub proof fn lemma_teams_snippet(f: FindingReporterRecord, include_secret: bool)
    ensures
        shown_snippet(f, include_secret) == if !include_secret {
            "<redacted>"@
        } else if f.finding.snippet@.len() <= 32 {
            f.finding.snippet@
        } else {
            f.finding.snippet@.take(32) + "…"@
        },
{
}

/// The card's facts: the active, inactive and unknown counts in that order, then the target when
/// there is one, then each top rule named by its id with its count.
pub proof fn lemma_teams_facts(s: AlertSummary)
    ensures
        ({
            let facts = card_facts(s);
            let t: int = if s.target is Some { 1 } else { 0 };
            let named = |j: int, name: Seq<char>, value: Seq<char>|
                facts[j] matches Json::Obj(f) && member(f, "name"@) == Some(Json::Str(name)) && member(f, "value"@) == Some(
                    Json::Str(value),
                );
            &&& facts.len() == 3 + t + s.by_rule@.len()
            &&& named(0, "Active"@, decimal(s.active as nat))
            &&& named(1, "Inactive"@, decimal(s.inactive as nat))
            &&& named(2, "Unknown"@, decimal(s.unknown as nat))
            &&& (s.target matches Some(target) ==> named(3, "Target"@, target@))
            &&& forall|i: int| 0 <= i < s.by_rule@.len() ==> #[trigger] named(
                3 + t + i,
                s.by_rule@[i].0@,
                decimal(s.by_rule@[i].1 as nat),
            )
        }),
{
    reveal_strlit("name");
    reveal_strlit("value");
    assert forall|name: Seq<char>, value: Seq<char>| #[trigger] fact(name, value) matches Json::Obj(f) && member(f, "name"@)
        == Some(Json::Str(name)) && member(f, "value"@) == Some(Json::Str(value)) by {
        let f = seq![("name"@, Json::Str(name)), ("value"@, Json::Str(value))];
        assert(f[0].0 == "name"@ && f[1].0 == "value"@ && f[0].0.len() != f[1].0.len());
        lemma_member_at(f, 0);
        lemma_member_at(f, 1);
    }
    let facts = card_facts(s);
    let t: int = if s.target is Some { 1 } else { 0 };
    assert forall|i: int| 0 <= i < s.by_rule@.len() implies facts[3 + t + i] == fact(
        s.by_rule@[i].0@,
        decimal(s.by_rule@[i].1 as nat),
    ) by {
        assert(tally_view(s.by_rule@)[i] == (s.by_rule@[i].0@, s.by_rule@[i].1 as nat));
    }
}

/// How one finding is detailed on the card: its rule id in bold, its location and line, its shown
/// snippet and its validation status, on a line of its own.
pub proof fn lemma_teams_card_line(f: FindingReporterRecord, include_secret: bool)
    ensures
        card_line(f, include_secret) == "- **"@ + f.rule.id@ + "** at `"@ + f.finding.path@ + ":"@ + decimal(
            f.finding.line as nat,
        ) + "` — `"@ + shown_snippet(f, include_secret) + "` (validation: "@ + f.finding.validation.status@ + ")\n"@,
{
}

/// The card's sections: a summary section titled as the card, with the tool's version and the
/// facts, and, when findings are reported, a section titled `Findings` with their details.
pub proof fn lemma_teams_sections(s: AlertSummary, fs: Seq<&FindingReporterRecord>, include_secret: bool)
    ensures
        ({
            let secs = card_sections(s, fs, include_secret);
            &&& secs.len() == if fs.len() > 0 { 2int } else { 1int }
            &&& secs[0] == Json::Obj(
                seq![
                    ("activityTitle"@, Json::Str(card_title(s))),
                    ("activitySubtitle"@, Json::Str("kingfisher v"@ + s.kingfisher_version@)),
                    ("facts"@, Json::Arr(card_facts(s))),
                    ("markdown"@, Json::Bool(true)),
                ],
            )
            &&& fs.len() > 0 ==> secs[1] == Json::Obj(
                seq![("title"@, Json::Str("Findings"@)), ("text"@, Json::Str(card_details(fs, include_secret)))],
            )
        }),
{
}

} // verus!
