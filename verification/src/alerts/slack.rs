//! Slack incoming-webhook payload (Block Kit).
use vstd::prelude::*;

use crate::alerts::{tally_view, AlertSummary};
use crate::json::{jsons, lemma_member_at, member, object1, object2, Json, JsonValue};
use crate::reporter::FindingReporterRecord;
use crate::text::{append, push_char, chars_vec, decimal, decimal_string, join, join_strings, prefix_string, strings_view};

verus! {

/// How many findings the Slack message details at most.
pub const PER_FINDING_LIMIT: usize = 10;

/// How a character is written in Slack mrkdwn: `&`, `<` and `>` as entities.
pub open spec fn escape_char(c: char) -> Seq<char> {
    if c == '&' {
        "&amp;"@
    } else if c == '<' {
        "&lt;"@
    } else if c == '>' {
        "&gt;"@
    } else {
        seq![c]
    }
}

/// A text escaped for Slack mrkdwn, character by character.
pub open spec fn escaped(s: Seq<char>) -> Seq<char>
    decreases s.len(),
{
    if s.len() == 0 {
        Seq::empty()
    } else {
        escaped(s.drop_last()) + escape_char(s.last())
    }
}

/// The first `n` characters of `s` followed by an ellipsis, or `s` itself when it is not longer.
pub open spec fn truncated(s: Seq<char>, n: nat) -> Seq<char> {
    if s.len() <= n {
        s
    } else {
        s.take(n as int) + "…"@
    }
}

/// The headline of the summary.
pub open spec fn header_text(s: AlertSummary) -> Seq<char> {
    if s.total == 0 {
        "Kingfisher: scan complete — no findings"@
    } else {
        "Kingfisher: "@ + decimal(s.total as nat) + " finding"@ + (if s.total == 1 { ""@ } else { "s"@ })
            + " ("@ + decimal(s.active as nat) + " active, "@ + decimal(s.inactive as nat) + " inactive, "@
            + decimal(s.unknown as nat) + " unknown)"@
    }
}

/// A section block with mrkdwn text.
pub open spec fn section(text: Seq<char>) -> Json {
    Json::Obj(seq![("type"@, Json::Str("section"@)), ("text"@, Json::Obj(seq![("type"@, Json::Str("mrkdwn"@)), ("text"@, Json::Str(text))]))])
}

/// The line that lists one rule and its count.
pub open spec fn rule_line(e: (Seq<char>, nat)) -> Seq<char> {
    "• `"@ + escaped(e.0) + "` — "@ + decimal(e.1)
}

/// The snippet shown for a finding: its first 32 characters, or a placeholder when secrets are
/// not included.
pub open spec fn shown_snippet(f: FindingReporterRecord, include_secret: bool) -> Seq<char> {
    if include_secret {
        truncated(f.finding.snippet@, 32)
    } else {
        "<redacted>"@
    }
}

/// The line that details one finding.
pub open spec fn finding_line(f: FindingReporterRecord, include_secret: bool) -> Seq<char> {
    "• `"@ + escaped(f.rule.id@) + "` at `"@ + escaped(f.finding.path@) + ":"@ + decimal(f.finding.line as nat)
        + "` — "@ + shown_snippet(f, include_secret) + " (validation: "@ + escaped(f.finding.validation.status@) + ")"@
}

/// The detail lines: the first findings up to the limit, then how many were left out.
pub open spec fn detail_lines(fs: Seq<&FindingReporterRecord>, include_secret: bool) -> Seq<Seq<char>> {
    let take = if fs.len() <= PER_FINDING_LIMIT { fs.len() } else { PER_FINDING_LIMIT as nat };
    Seq::new(take, |i: int| finding_line(*fs[i], include_secret)) + (if fs.len() > take {
        seq!["_…"@ + decimal((fs.len() - take) as nat) + " more findings omitted_"@]
    } else {
        Seq::empty()
    })
}

/// The blocks of the message: header, target, top rules, findings, version.
pub open spec fn slack_blocks(s: AlertSummary, fs: Seq<&FindingReporterRecord>, include_secret: bool) -> Seq<Json> {
    seq![Json::Obj(seq![("type"@, Json::Str("header"@)), ("text"@, Json::Obj(seq![("type"@, Json::Str("plain_text"@)), ("text"@, Json::Str(header_text(s)))]))])]
    + (match s.target {
        Some(t) => seq![section("*Target:* `"@ + escaped(t@) + "`"@)],
        None => Seq::empty(),
    })
    + (if s.by_rule@.len() > 0 {
        seq![section("*Top rules*\n"@ + join(tally_view(s.by_rule@).map_values(|e: (Seq<char>, nat)| rule_line(e)), "\n"@))]
    } else {
        Seq::empty()
    })
    + (if fs.len() > 0 {
        seq![section(join(detail_lines(fs, include_secret), "\n"@))]
    } else {
        Seq::empty()
    })
    + seq![Json::Obj(seq![("type"@, Json::Str("context"@)), ("elements"@, Json::Arr(seq![Json::Obj(seq![("type"@, Json::Str("mrkdwn"@)), ("text"@, Json::Str("kingfisher v"@ + s.kingfisher_version@))])]))])]
}

/// The Slack message: the headline as fallback text, and the blocks.
pub open spec fn slack_payload(s: AlertSummary, fs: Seq<&FindingReporterRecord>, include_secret: bool) -> Json {
    Json::Obj(seq![("text"@, Json::Str(header_text(s))), ("blocks"@, Json::Arr(slack_blocks(s, fs, include_secret)))])
}

/// The first `n` characters of `s` followed by an ellipsis, or `s` when it is not longer.
pub fn truncate(s: &str, n: usize) -> (r: String)
    ensures
        r@ == truncated(s@, n as nat),
{
    let v = chars_vec(s);
    if v.len() <= n {
        return String::from_str(s);
    }
    let mut r = prefix_string(&v, n);
    append(&mut r, "…");
    r
}

/// Escapes `&`, `<` and `>` for Slack mrkdwn.
pub fn escape_mrkdwn(s: &str) -> (r: String)
    ensures
        r@ == escaped(s@),
{
    let v = chars_vec(s);
    let mut r = String::new();
    let mut i: usize = 0;
    while i < v.len()
        invariant
            v@ == s@,
            0 <= i <= v@.len(),
            r@ == escaped(v@.take(i as int)),
        decreases v@.len() - i,
    {
        let c = v[i];
        if c == '&' {
            append(&mut r, "&amp;");
        } else if c == '<' {
            append(&mut r, "&lt;");
        } else if c == '>' {
            append(&mut r, "&gt;");
        } else {
            push_char(&mut r, c);
        }
        proof {
            assert(v@.take(i + 1).drop_last() == v@.take(i as int));
            assert(v@.take(i + 1).last() == c);
        }
        i = i + 1;
    }
    assert(v@.take(v@.len() as int) == v@);
    r
}

/// A section block with mrkdwn text.
fn section_block(text: String) -> (j: JsonValue)
    ensures
        j.json() == section(text@),
{
    object2("type", JsonValue::from_str("section"), "text", object2("type", JsonValue::from_str("mrkdwn"), "text", JsonValue::from_string(text)))
}

/// The headline of the summary.
fn header(summary: &AlertSummary) -> (h: String)
    ensures
        h@ == header_text(*summary),
{
    if summary.total == 0 {
        return String::from_str("Kingfisher: scan complete — no findings");
    }
    let mut h = String::from_str("Kingfisher: ");
    append(&mut h, decimal_string(summary.total as u64).as_str());
    append(&mut h, " finding");
    if summary.total != 1 {
        append(&mut h, "s");
    } else {
        append(&mut h, "");
    }
    append(&mut h, " (");
    append(&mut h, decimal_string(summary.active as u64).as_str());
    append(&mut h, " active, ");
    append(&mut h, decimal_string(summary.inactive as u64).as_str());
    append(&mut h, " inactive, ");
    append(&mut h, decimal_string(summary.unknown as u64).as_str());
    append(&mut h, " unknown)");
    h
}

/// The line that details one finding.
fn detail_line(f: &FindingReporterRecord, include_secret: bool) -> (l: String)
    ensures
        l@ == finding_line(*f, include_secret),
{
    let mut l = String::from_str("• `");
    append(&mut l, escape_mrkdwn(f.rule.id.as_str()).as_str());
    append(&mut l, "` at `");
    append(&mut l, escape_mrkdwn(f.finding.path.as_str()).as_str());
    append(&mut l, ":");
    append(&mut l, decimal_string(f.finding.line).as_str());
    append(&mut l, "` — ");
    let snippet = if include_secret {
        truncate(f.finding.snippet.as_str(), 32)
    } else {
        String::from_str("<redacted>")
    };
    append(&mut l, snippet.as_str());
    append(&mut l, " (validation: ");
    append(&mut l, escape_mrkdwn(f.finding.validation.status.as_str()).as_str());
    append(&mut l, ")");
    l
}

/// The Slack Block Kit message for a scan summary and the findings it reports: a header, the
/// target, the top rules, up to `PER_FINDING_LIMIT` finding details and the version.
pub fn build_payload(summary: &AlertSummary, findings: &[&FindingReporterRecord], include_secret: bool) -> (p: JsonValue)
    ensures
        p.json() == slack_payload(*summary, findings@, include_secret),
{
    let headline = header(summary);
    let mut blocks: Vec<JsonValue> = Vec::new();
    blocks.push(object2("type", JsonValue::from_str("header"), "text", object2("type", JsonValue::from_str("plain_text"), "text", JsonValue::from_string(headline.clone()))));
    let ghost b1 = jsons(blocks@);
    assert(b1 =~= seq![Json::Obj(seq![("type"@, Json::Str("header"@)), ("text"@, Json::Obj(seq![("type"@, Json::Str("plain_text"@)), ("text"@, Json::Str(header_text(*summary)))]))])]);
    match &summary.target {
        Some(target) => {
            let mut text = String::from_str("*Target:* `");
            append(&mut text, escape_mrkdwn(target.as_str()).as_str());
            append(&mut text, "`");
            blocks.push(section_block(text));
            assert(jsons(blocks@) =~= b1.push(section("*Target:* `"@ + escaped(target@) + "`"@)));
        },
        None => {},
    }
    let ghost b2 = jsons(blocks@);
    assert(b2 =~= b1 + (match summary.target {
        Some(t) => seq![section("*Target:* `"@ + escaped(t@) + "`"@)],
        None => Seq::empty(),
    }));
    if summary.by_rule.len() > 0 {
        let mut lines: Vec<String> = Vec::new();
        let mut i: usize = 0;
        while i < summary.by_rule.len()
            invariant
                0 <= i <= summary.by_rule@.len(),
                strings_view(lines@) == tally_view(summary.by_rule@).take(i as int).map_values(|e: (Seq<char>, nat)| rule_line(e)),
            decreases summary.by_rule@.len() - i,
        {
            let mut line = String::from_str("• `");
            append(&mut line, escape_mrkdwn(summary.by_rule[i].0.as_str()).as_str());
            append(&mut line, "` — ");
            append(&mut line, decimal_string(summary.by_rule[i].1 as u64).as_str());
            let ghost before = lines@;
            lines.push(line);
            proof {
                let tv = tally_view(summary.by_rule@);
                assert(tv[i as int] == (summary.by_rule@[i as int].0@, summary.by_rule@[i as int].1 as nat));
                assert(tv.take(i + 1) == tv.take(i as int).push(tv[i as int]));
                assert(strings_view(lines@) =~= strings_view(before).push(lines@[i as int]@));
                assert(tv.take(i + 1).map_values(|e: (Seq<char>, nat)| rule_line(e)) =~= tv.take(i as int).map_values(|e: (Seq<char>, nat)| rule_line(e)).push(rule_line(tv[i as int])));
            }
            i = i + 1;
        }
        proof {
            assert(tally_view(summary.by_rule@).take(summary.by_rule@.len() as int) == tally_view(summary.by_rule@));
        }
        let mut text = String::from_str("*Top rules*\n");
        append(&mut text, join_strings(&lines, "\n").as_str());
        let ghost before = jsons(blocks@);
        blocks.push(section_block(text));
        assert(jsons(blocks@) =~= before.push(section("*Top rules*\n"@ + join(tally_view(summary.by_rule@).map_values(|e: (Seq<char>, nat)| rule_line(e)), "\n"@))));
    }
    let ghost b3 = jsons(blocks@);
    assert(b3 =~= b2 + (if summary.by_rule@.len() > 0 {
        seq![section("*Top rules*\n"@ + join(tally_view(summary.by_rule@).map_values(|e: (Seq<char>, nat)| rule_line(e)), "\n"@))]
    } else {
        Seq::empty()
    }));
    if findings.len() > 0 {
        let take = if findings.len() <= PER_FINDING_LIMIT { findings.len() } else { PER_FINDING_LIMIT };
        let mut lines: Vec<String> = Vec::new();
        let mut i: usize = 0;
        while i < take
            invariant
                take <= findings@.len(),
                0 <= i <= take,
                strings_view(lines@) == Seq::new(i as nat, |k: int| finding_line(*findings@[k], include_secret)),
            decreases take - i,
        {
            let ghost before = lines@;
            let line = detail_line(findings[i], include_secret);
            lines.push(line);
            proof {
                assert(strings_view(before).len() == before.len());
                assert(before.len() == i);
                assert(lines@ == before.push(line));
                assert forall|k: int| 0 <= k < i + 1 implies #[trigger] strings_view(lines@)[k] == finding_line(*findings@[k], include_secret) by {
                    if k < i {
                        assert(lines@[k] == before[k]);
                        assert(strings_view(before)[k] == finding_line(*findings@[k], include_secret));
                    }
                }
                assert(strings_view(lines@) =~= Seq::new((i + 1) as nat, |k: int| finding_line(*findings@[k], include_secret)));
            }
            i = i + 1;
        }
        if findings.len() > take {
            let mut more = String::from_str("_…");
            append(&mut more, decimal_string((findings.len() - take) as u64).as_str());
            append(&mut more, " more findings omitted_");
            let ghost before = lines@;
            lines.push(more);
            proof {
                assert(strings_view(lines@) =~= strings_view(before).push(lines@[before.len() as int]@));
            }
        }
        proof {
            assert(strings_view(lines@) =~= detail_lines(findings@, include_secret));
        }
        let ghost before = jsons(blocks@);
        blocks.push(section_block(join_strings(&lines, "\n")));
        assert(jsons(blocks@) =~= before.push(section(join(detail_lines(findings@, include_secret), "\n"@))));
    }
    let ghost b4 = jsons(blocks@);
    assert(b4 =~= b3 + (if findings@.len() > 0 {
        seq![section(join(detail_lines(findings@, include_secret), "\n"@))]
    } else {
        Seq::empty()
    }));
    let mut version = String::from_str("kingfisher v");
    append(&mut version, summary.kingfisher_version.as_str());
    let mut elements: Vec<JsonValue> = Vec::new();
    let ghost vs = version@;
    let item = object2("type", JsonValue::from_str("mrkdwn"), "text", JsonValue::from_string(version));
    let ghost ij = item.json();
    elements.push(item);
    assert(jsons(elements@) =~= seq![ij]);
    let elements = JsonValue::array(elements);
    let ghost ej = elements.json();
    blocks.push(object2("type", JsonValue::from_str("context"), "elements", elements));
    proof {
        assert(ej == Json::Arr(seq![Json::Obj(seq![("type"@, Json::Str("mrkdwn"@)), ("text"@, Json::Str("kingfisher v"@ + summary.kingfisher_version@))])]));
        assert(jsons(blocks@) =~= b4.push(Json::Obj(seq![("type"@, Json::Str("context"@)), ("elements"@, ej)])));
        assert(jsons(blocks@) =~= slack_blocks(*summary, findings@, include_secret));
    }
    object2("text", JsonValue::from_string(headline), "blocks", JsonValue::array(blocks))
}

/// The Slack message's fallback text and its header block both report the findings: none, or the
/// total followed by the active, inactive and unknown counts.
pub proof fn lemma_slack_header(s: AlertSummary, fs: Seq<&FindingReporterRecord>, include_secret: bool)
    ensures
        ({
            let h = if s.total == 0 {
                "Kingfisher: scan complete — no findings"@
            } else {
                "Kingfisher: "@ + decimal(s.total as nat) + (if s.total == 1 { " finding"@ } else { " findings"@ }) + " ("@
                    + decimal(s.active as nat) + " active, "@ + decimal(s.inactive as nat) + " inactive, "@ + decimal(
                    s.unknown as nat,
                ) + " unknown)"@
            };
            slack_payload(s, fs, include_secret) matches Json::Obj(fields) && {
                &&& member(fields, "text"@) == Some(Json::Str(h))
                &&& member(fields, "blocks"@) matches Some(Json::Arr(blocks))
                &&& blocks.len() > 0
                &&& blocks[0] matches Json::Obj(head)
                &&& member(head, "text"@) matches Some(Json::Obj(inner))
                &&& member(inner, "text"@) == Some(Json::Str(h))
            }
        }),
{
    reveal_strlit("text");
    reveal_strlit("blocks");
    reveal_strlit("type");
    reveal_strlit(" finding");
    reveal_strlit(" findings");
    reveal_strlit("s");
    reveal_strlit("");
    let fields = match slack_payload(s, fs, include_secret) {
        Json::Obj(f) => f,
        _ => Seq::empty(),
    };
    assert(fields[0].0 == "text"@ && fields[1].0 == "blocks"@);
    assert(fields[0].0.len() != fields[1].0.len());
    lemma_member_at(fields, 0);
    lemma_member_at(fields, 1);
    let blocks = slack_blocks(s, fs, include_secret);
    let head = seq![("type"@, Json::Str("header"@)), ("text"@, Json::Obj(seq![("type"@, Json::Str("plain_text"@)), ("text"@, Json::Str(header_text(s)))]))];
    assert(blocks[0] == Json::Obj(head));
    assert(head[0].0 == "type"@ && head[1].0 == "text"@ && head[0].0[0] != head[1].0[1]);
    assert(head[0].0 != head[1].0) by {
        assert(head[0].0[1] != head[1].0[1]);
    }
    lemma_member_at(head, 1);
    let inner = seq![("type"@, Json::Str("plain_text"@)), ("text"@, Json::Str(header_text(s)))];
    assert(inner[0].0 != inner[1].0) by {
        assert(inner[0].0[1] != inner[1].0[1]);
    }
    lemma_member_at(inner, 1);
    if s.total != 0 {
        let pl: Seq<char> = if s.total == 1 { ""@ } else { "s"@ };
        assert(" finding"@ + pl =~= (if s.total == 1 { " finding"@ } else { " findings"@ }));
        let d = decimal(s.total as nat);
        let tail = " ("@ + decimal(s.active as nat) + " active, "@ + decimal(s.inactive as nat) + " inactive, "@ + decimal(
            s.unknown as nat,
        ) + " unknown)"@;
        assert(header_text(s) =~= "Kingfisher: "@ + d + (" finding"@ + pl) + tail);
    }
    let h = if s.total == 0 {
        "Kingfisher: scan complete — no findings"@
    } else {
        "Kingfisher: "@ + decimal(s.total as nat) + (if s.total == 1 { " finding"@ } else { " findings"@ }) + " ("@
            + decimal(s.active as nat) + " active, "@ + decimal(s.inactive as nat) + " inactive, "@ + decimal(
            s.unknown as nat,
        ) + " unknown)"@
    };
    assert(header_text(s) == h);
    assert(member(fields, "text"@) == Some(Json::Str(h)));
    assert(member(fields, "blocks"@) == Some(Json::Arr(blocks)));
    assert(member(head, "text"@) == Some(Json::Obj(inner)));
    assert(member(inner, "text"@) == Some(Json::Str(h)));
}

/// The Slack details account for every finding: a line for each of the first findings, at most
/// 10 of them and in order, then, when findings remain, a line naming how many
/// remain.
pub proof fn lemma_slack_details_account(fs: Seq<&FindingReporterRecord>, include_secret: bool)
    ensures
        ({
            let k: nat = if fs.len() <= 10 { fs.len() } else { 10 };
            let d = detail_lines(fs, include_secret);
            &&& d.len() == if k < fs.len() { k + 1 } else { k }
            &&& forall|i: int| 0 <= i < k ==> #[trigger] d[i] == finding_line(*fs[i], include_secret)
            &&& k < fs.len() ==> d[k as int] == "_…"@ + decimal((fs.len() - k) as nat) + " more findings omitted_"@
        }),
{
}

/// A secret is shown cut to its first 32 characters, with an ellipsis when it was cut, and only
/// when secrets are included; otherwise `<redacted>` stands in its place.
pub proof fn lemma_slack_snippet(f: FindingReporterRecord, include_secret: bool)
    ensures
        shown_snippet(f, include_secret) == if !include_secret {
            "<redacted>"@
        } else if f.finding.snippet@.len() <= 32 {
            f.finding.snippet@
        } else {
            f.finding.snippet@.take(32) + "…"@
        },
{
}

/// Escaping for mrkdwn writes `&`, `<` and `>` as `&amp;`, `&lt;` and `&gt;` and keeps every other
/// character: an escaped text holds no `<` or `>`, a text without the three is unchanged, and
/// escaping a concatenation escapes each part.
pub proof fn lemma_escaped(s: Seq<char>, t: Seq<char>)
    ensures
        escaped(seq!['&']) == "&amp;"@,
        escaped(seq!['<']) == "&lt;"@,
        escaped(seq!['>']) == "&gt;"@,
        forall|i: int| 0 <= i < escaped(s).len() ==> #[trigger] escaped(s)[i] != '<' && escaped(s)[i] != '>',
        (forall|i: int| 0 <= i < s.len() ==> #[trigger] s[i] != '&' && s[i] != '<' && s[i] != '>') ==> escaped(s) == s,
        escaped(s + t) == escaped(s) + escaped(t),
    decreases s.len() + t.len(),
{
    reveal_strlit("&amp;");
    reveal_strlit("&lt;");
    reveal_strlit("&gt;");
    assert(seq!['&'].drop_last() =~= Seq::<char>::empty());
    assert(seq!['<'].drop_last() =~= Seq::<char>::empty());
    assert(seq!['>'].drop_last() =~= Seq::<char>::empty());
    assert(Seq::<char>::empty() + "&amp;"@ =~= "&amp;"@);
    assert(Seq::<char>::empty() + "&lt;"@ =~= "&lt;"@);
    assert(Seq::<char>::empty() + "&gt;"@ =~= "&gt;"@);
    if s.len() > 0 {
        lemma_escaped(s.drop_last(), Seq::empty());
        let e = escaped(s.drop_last());
        let c = escape_char(s.last());
        assert forall|i: int| 0 <= i < escaped(s).len() implies #[trigger] escaped(s)[i] != '<' && escaped(s)[i] != '>' by {
            if i >= e.len() {
                assert(escaped(s)[i] == c[i - e.len()]);
            } else {
                assert(escaped(s)[i] == e[i]);
            }
        }
        if forall|i: int| 0 <= i < s.len() ==> #[trigger] s[i] != '&' && s[i] != '<' && s[i] != '>' {
            assert forall|i: int| 0 <= i < s.drop_last().len() implies #[trigger] s.drop_last()[i] != '&' && s.drop_last()[i]
                != '<' && s.drop_last()[i] != '>' by {
                assert(s.drop_last()[i] == s[i]);
            }
            assert(s.last() == s[s.len() - 1]);
            assert(s == s.drop_last().push(s.last()));
            assert(escaped(s) =~= s);
        }
    }
    if t.len() > 0 {
        lemma_escaped(s, t.drop_last());
        assert((s + t).drop_last() =~= s + t.drop_last());
        assert((s + t).last() == t.last());
        assert(escaped(s + t) =~= escaped(s) + escaped(t));
    } else {
        assert(s + t =~= s);
        assert(escaped(t) =~= Seq::<char>::empty());
        assert(escaped(s) + escaped(t) =~= escaped(s));
    }
}

/// The Slack message's blocks: the header; a section naming the target when there is one; a
/// section listing the top rules when there are any; a section detailing the findings when there
/// are any; and last a context line with the tool's version.
pub proof fn lemma_slack_blocks_layout(s: AlertSummary, fs: Seq<&FindingReporterRecord>, include_secret: bool)
    ensures
        ({
            let blocks = slack_blocks(s, fs, include_secret);
            let t: int = if s.target is Some { 1 } else { 0 };
            let r: int = if s.by_rule@.len() > 0 { 1 } else { 0 };
            let d: int = if fs.len() > 0 { 1 } else { 0 };
            &&& blocks.len() == 2 + t + r + d
            &&& (s.target matches Some(target) ==> blocks[1] == section("*Target:* `"@ + escaped(target@) + "`"@))
            &&& (s.by_rule@.len() > 0 ==> blocks[1 + t] == section(
                "*Top rules*\n"@ + join(
                    Seq::new(s.by_rule@.len(), |i: int| "• `"@ + escaped(s.by_rule@[i].0@) + "` — "@ + decimal(s.by_rule@[i].1 as nat)),
                    "\n"@,
                ),
            ))
            &&& (fs.len() > 0 ==> blocks[1 + t + r] == section(join(detail_lines(fs, include_secret), "\n"@)))
            &&& blocks[1 + t + r + d] == Json::Obj(
                seq![("type"@, Json::Str("context"@)), ("elements"@, Json::Arr(seq![Json::Obj(seq![("type"@, Json::Str("mrkdwn"@)), ("text"@, Json::Str("kingfisher v"@ + s.kingfisher_version@))])]))],
            )
        }),
{
    let tv = tally_view(s.by_rule@);
    assert(tv.map_values(|e: (Seq<char>, nat)| rule_line(e)) =~= Seq::new(
        s.by_rule@.len(),
        |i: int| "• `"@ + escaped(s.by_rule@[i].0@) + "` — "@ + decimal(s.by_rule@[i].1 as nat),
    ));
}

/// How one finding is detailed: its rule id and location escaped, its line, its shown snippet and
/// its validation status escaped.
pub proof fn lemma_slack_finding_line(f: FindingReporterRecord, include_secret: bool)
    ensures
        finding_line(f, include_secret) == "• `"@ + escaped(f.rule.id@) + "` at `"@ + escaped(f.finding.path@) + ":"@
            + decimal(f.finding.line as nat) + "` — "@ + shown_snippet(f, include_secret) + " (validation: "@ + escaped(
            f.finding.validation.status@,
        ) + ")"@,
{
}

} // verus!
