use kingfisher::alerts::webhook::{redact_parts, UrlParts};
use kingfisher::alerts::{
    generic, matches_min_confidence, redact_webhook, select_findings, sink_payload, slack, teams, AlertFormat, AlertOn,
    AlertSink, AlertSummary,
};
use kingfisher::cli::commands::scan::ConfidenceLevel;
use kingfisher::json::JsonValue;
use kingfisher::reporter::{Finding, FindingReporterRecord, RuleRef, Validation};

fn empty_summary() -> AlertSummary {
    AlertSummary {
        total: 0,
        active: 0,
        inactive: 0,
        unknown: 0,
        by_rule: vec![],
        kingfisher_version: "test".to_string(),
        target: None,
    }
}

fn summary(total: usize, active: usize) -> AlertSummary {
    AlertSummary {
        total,
        active,
        inactive: 0,
        unknown: 0,
        by_rule: vec![],
        kingfisher_version: "test".to_string(),
        target: None,
    }
}

fn record(rule_id: &str, status: &str, confidence: &str, snippet: &str) -> FindingReporterRecord {
    FindingReporterRecord {
        rule: RuleRef { name: format!("Rule {rule_id}"), id: rule_id.to_string() },
        finding: Finding {
            snippet: snippet.to_string(),
            path: "src/main.rs".to_string(),
            line: 7,
            confidence: confidence.to_string(),
            validation: Validation { status: status.to_string() },
        },
    }
}

fn member<'a>(v: &'a JsonValue, key: &str) -> &'a JsonValue {
    v.get(key).unwrap()
}

fn text<'a>(v: &'a JsonValue, key: &str) -> &'a str {
    member(v, key).as_str().unwrap()
}

#[test]
fn schema_version_present() {
    let p = generic::build_payload(&empty_summary(), &[], false);
    assert_eq!(text(&p, "schema_version"), "1");
}

#[test]
fn empty_findings_array() {
    let p = generic::build_payload(&empty_summary(), &[], false);
    assert_eq!(member(&p, "findings").as_array().unwrap().len(), 0);
    assert_eq!(member(&p, "findings_omitted").as_u64(), Some(0));
}

#[test]
fn generic_envelope_caps_records_and_counts_the_rest() {
    let recs: Vec<FindingReporterRecord> = (0..205).map(|i| record(&format!("r.{i}"), "Unknown", "High", "s3cr3t")).collect();
    let refs: Vec<&FindingReporterRecord> = recs.iter().collect();
    let p = generic::build_payload(&empty_summary(), &refs, false);
    let found = member(&p, "findings").as_array().unwrap();
    assert_eq!(found.len(), 200);
    assert_eq!(member(&p, "findings_omitted").as_u64(), Some(5));
    let first = member(&found[0], "finding");
    assert_eq!(text(first, "snippet"), "<redacted>");
    assert_eq!(text(member(&found[0], "rule"), "id"), "r.0");

    let shown = generic::build_payload(&empty_summary(), &refs[..1], true);
    let found = member(&shown, "findings").as_array().unwrap();
    assert_eq!(text(member(&found[0], "finding"), "snippet"), "s3cr3t");
}

#[test]
fn generic_summary_lists_counts_rules_and_target() {
    let mut s = summary(3, 1);
    s.inactive = 1;
    s.unknown = 1;
    s.by_rule = vec![("kingfisher.aws.1".to_string(), 2)];
    s.target = Some("./repo".to_string());
    s.kingfisher_version = "1.99.0".to_string();
    let p = generic::build_payload(&s, &[], false);
    assert_eq!(text(&p, "kingfisher_version"), "1.99.0");
    let sum = member(&p, "summary");
    assert_eq!(member(sum, "total").as_u64(), Some(3));
    assert_eq!(member(sum, "active").as_u64(), Some(1));
    assert_eq!(text(sum, "target"), "./repo");
    let rules = member(sum, "by_rule").as_array().unwrap();
    assert_eq!(text(&rules[0], "rule_id"), "kingfisher.aws.1");
    assert_eq!(member(&rules[0], "count").as_u64(), Some(2));
    let clean = generic::build_payload(&empty_summary(), &[], false);
    assert!(matches!(member(member(&clean, "summary"), "target"), JsonValue::Null));
}

#[test]
fn redact_webhook_keeps_host() {
    let r = redact_webhook("https://hooks.slack.com/services/T0/B0/XXX");
    assert_eq!(r, "https://hooks.slack.com/<redacted>");
}

#[test]
fn redact_webhook_unparseable() {
    let r = redact_webhook("not a url");
    assert_eq!(r, "<unparseable webhook url>");
}

#[test]
fn redact_webhook_keeps_an_explicit_port_and_drops_query_and_credentials() {
    assert_eq!(redact_webhook("http://user:pw@siem.example.com:8443/ingest?token=abc"), "http://siem.example.com:8443/<redacted>");
    assert_eq!(redact_webhook("https://siem.example.com:443/ingest"), "https://siem.example.com/<redacted>");
}

#[test]
fn redacted_form_of_parsed_parts() {
    let parts = UrlParts { scheme: "https".to_string(), host: Some("h.example".to_string()), port: Some(9) };
    assert_eq!(redact_parts(Some(&parts)), "https://h.example:9/<redacted>");
    let no_host = UrlParts { scheme: "mailto".to_string(), host: None, port: None };
    assert_eq!(redact_parts(Some(&no_host)), "mailto:///<redacted>");
    assert_eq!(redact_parts(None), "<unparseable webhook url>");
}

#[test]
fn infer_format_slack() {
    assert_eq!(AlertFormat::infer_from_url("https://hooks.slack.com/services/T0/B0/XXX"), AlertFormat::Slack);
}

#[test]
fn infer_format_teams() {
    assert_eq!(
        AlertFormat::infer_from_url("https://outlook.office.com/webhook/abc/IncomingWebhook/def"),
        AlertFormat::Teams
    );
}

#[test]
fn infer_format_generic_fallback() {
    assert_eq!(AlertFormat::infer_from_url("https://example.com/webhook"), AlertFormat::Generic);
}

#[test]
fn infer_format_matches_the_domain_and_its_subdomains_only() {
    assert_eq!(AlertFormat::infer_from_url("foo://HOOKS.SLACK.COM/x"), AlertFormat::Slack);
    assert_eq!(AlertFormat::infer_from_url("https://x.webhook.office.net/y"), AlertFormat::Generic);
    assert_eq!(AlertFormat::infer_from_url("https://hooks.slack.com.evil.example/x"), AlertFormat::Generic);
    assert_eq!(AlertFormat::infer_from_url("https://notslack.com/x"), AlertFormat::Generic);
    assert_eq!(AlertFormat::infer_from_url("https://slack.com/x"), AlertFormat::Slack);
    assert_eq!(AlertFormat::infer_from_url("https://office.com.evil.example/x"), AlertFormat::Generic);
    assert_eq!(AlertFormat::infer_from_url("hooks.slack.com/services"), AlertFormat::Generic);
    assert_eq!(AlertFormat::for_host(Some("hooks.slack.com")), AlertFormat::Slack);
    assert_eq!(AlertFormat::for_host(Some("outlook.office.com")), AlertFormat::Teams);
    assert_eq!(AlertFormat::for_host(None), AlertFormat::Generic);
}

#[test]
fn empty_payload_has_no_finding_block() {
    let p = slack::build_payload(&empty_summary(), &[], false);
    let blocks = member(&p, "blocks").as_array().unwrap();
    let header = text(member(&blocks[0], "text"), "text");
    assert!(header.contains("no findings"));
}

#[test]
fn header_pluralization() {
    let summary = AlertSummary {
        total: 1,
        active: 1,
        inactive: 0,
        unknown: 0,
        by_rule: vec![("kingfisher.aws.1".into(), 1)],
        kingfisher_version: "test".to_string(),
        target: None,
    };
    let p = slack::build_payload(&summary, &[], false);
    let blocks = member(&p, "blocks").as_array().unwrap();
    let header = text(member(&blocks[0], "text"), "text");
    assert!(header.contains("1 finding"));
    assert!(!header.contains("findings"), "should be singular");
}

#[test]
fn slack_details_escape_and_cap_findings() {
    let recs: Vec<FindingReporterRecord> =
        (0..12).map(|i| record(&format!("r<{i}>"), "Active Credential", "High", "abcdefghijklmnopqrstuvwxyz0123456789")).collect();
    let refs: Vec<&FindingReporterRecord> = recs.iter().collect();
    let mut s = summary(12, 12);
    s.target = Some("a&b".to_string());
    let p = slack::build_payload(&s, &refs, true);
    assert_eq!(text(&p, "text"), "Kingfisher: 12 findings (12 active, 0 inactive, 0 unknown)");
    let blocks = member(&p, "blocks").as_array().unwrap();
    assert_eq!(blocks.len(), 4);
    assert_eq!(text(member(&blocks[1], "text"), "text"), "*Target:* `a&amp;b`");
    let details = text(member(&blocks[2], "text"), "text");
    let lines: Vec<&str> = details.split('\n').collect();
    assert_eq!(lines.len(), 11);
    assert_eq!(
        lines[0],
        "• `r&lt;0&gt;` at `src/main.rs:7` — abcdefghijklmnopqrstuvwxyz012345… (validation: Active Credential)"
    );
    assert_eq!(lines[10], "_…2 more findings omitted_");
    let context = member(&blocks[3], "elements").as_array().unwrap();
    assert_eq!(text(&context[0], "text"), "kingfisher vtest");
}

#[test]
fn slack_helpers_truncate_and_escape() {
    assert_eq!(slack::truncate("abcdef", 3), "abc…");
    assert_eq!(slack::truncate("abc", 3), "abc");
    assert_eq!(slack::escape_mrkdwn("<a & b>"), "&lt;a &amp; b&gt;");
}

#[test]
fn theme_color_red_when_active() {
    let p = teams::build_payload(&summary(3, 1), &[], false);
    assert_eq!(text(&p, "themeColor"), "C0392B");
}

#[test]
fn theme_color_green_when_empty() {
    let p = teams::build_payload(&summary(0, 0), &[], false);
    assert_eq!(text(&p, "themeColor"), "27AE60");
}

#[test]
fn theme_color_amber_when_findings_no_active() {
    let p = teams::build_payload(&summary(2, 0), &[], false);
    assert_eq!(text(&p, "themeColor"), "F39C12");
}

#[test]
fn teams_card_lists_facts_and_redacted_details() {
    let recs = vec![record("kingfisher.aws.1", "Inactive Credential", "High", "AKIA0000")];
    let refs: Vec<&FindingReporterRecord> = recs.iter().collect();
    let mut s = summary(1, 0);
    s.inactive = 1;
    s.by_rule = vec![("kingfisher.aws.1".to_string(), 1)];
    let p = teams::build_payload(&s, &refs, false);
    assert_eq!(text(&p, "title"), "Kingfisher: 1 finding");
    let sections = member(&p, "sections").as_array().unwrap();
    let facts = member(&sections[0], "facts").as_array().unwrap();
    assert_eq!(facts.len(), 4);
    assert_eq!(text(&facts[1], "value"), "1");
    assert_eq!(text(&facts[3], "name"), "kingfisher.aws.1");
    assert_eq!(
        text(&sections[1], "text"),
        "- **kingfisher.aws.1** at `src/main.rs:7` — `<redacted>` (validation: Inactive Credential)\n"
    );
    assert_eq!(teams::plural(1), "");
    assert_eq!(teams::plural(2), "s");
}

#[test]
fn summary_counts_statuses_and_ranks_rules() {
    let recs = vec![
        record("b", "Active Credential", "High", "x"),
        record("a", "Inactive Credential", "High", "x"),
        record("c", "Not Attempted", "High", "x"),
        record("b", "Active Credential", "High", "x"),
        record("a", "Unknown", "High", "x"),
        record("d", "Unknown", "High", "x"),
    ];
    let s = AlertSummary::from_findings(&recs, Some("./repo".to_string()), "1.2.3".to_string());
    assert_eq!((s.total, s.active, s.inactive, s.unknown), (6, 2, 1, 3));
    assert_eq!(s.active + s.inactive + s.unknown, s.total);
    let ranked: Vec<(&str, usize)> = s.by_rule.iter().map(|(r, c)| (r.as_str(), *c)).collect();
    assert_eq!(ranked, vec![("a", 2), ("b", 2), ("c", 1), ("d", 1)]);
    assert_eq!(s.target.as_deref(), Some("./repo"));
    assert_eq!(s.kingfisher_version, "1.2.3");
}

#[test]
fn summary_keeps_the_top_five_rules() {
    let ids = ["r1", "r2", "r3", "r4", "r5", "r6", "r6", "r2"];
    let recs: Vec<FindingReporterRecord> = ids.iter().map(|id| record(id, "Unknown", "High", "x")).collect();
    let s = AlertSummary::from_findings(&recs, None, "v".to_string());
    let ranked: Vec<(&str, usize)> = s.by_rule.iter().map(|(r, c)| (r.as_str(), *c)).collect();
    assert_eq!(ranked, vec![("r2", 2), ("r6", 2), ("r1", 1), ("r3", 1), ("r4", 1)]);
}

#[test]
fn confidence_threshold_treats_unknown_text_as_medium() {
    assert!(matches_min_confidence("High", ConfidenceLevel::Medium));
    assert!(matches_min_confidence("Medium", ConfidenceLevel::Medium));
    assert!(!matches_min_confidence("Low", ConfidenceLevel::Medium));
    assert!(matches_min_confidence("weird", ConfidenceLevel::Medium));
    assert!(!matches_min_confidence("weird", ConfidenceLevel::High));
    assert!(matches_min_confidence("Low", ConfidenceLevel::Low));
}

#[test]
fn sinks_report_findings_at_or_above_their_threshold() {
    let recs = vec![
        record("a", "Unknown", "Low", "x"),
        record("b", "Unknown", "High", "x"),
        record("c", "Unknown", "Medium", "x"),
    ];
    let chosen: Vec<&str> = select_findings(&recs, ConfidenceLevel::Medium).iter().map(|r| r.rule.id.as_str()).collect();
    assert_eq!(chosen, vec!["b", "c"]);
}

#[test]
fn sinks_on_findings_stay_silent_after_a_clean_scan() {
    let sink = |on: AlertOn, format: AlertFormat| AlertSink {
        url: "https://example.com/hook".to_string(),
        format,
        on,
        min_confidence: ConfidenceLevel::High,
        include_secret: false,
    };
    assert_eq!(AlertOn::default(), AlertOn::Findings);
    assert!(sink_payload(&sink(AlertOn::Findings, AlertFormat::Generic), &empty_summary(), &[]).is_none());
    assert!(sink_payload(&sink(AlertOn::Always, AlertFormat::Generic), &empty_summary(), &[]).is_some());

    let recs = vec![record("a", "Unknown", "Low", "x"), record("b", "Unknown", "High", "x")];
    let s = AlertSummary::from_findings(&recs, None, "v".to_string());
    let p = sink_payload(&sink(AlertOn::Findings, AlertFormat::Generic), &s, &recs).unwrap();
    let found = member(&p, "findings").as_array().unwrap();
    assert_eq!(found.len(), 1);
    assert_eq!(text(member(&found[0], "rule"), "id"), "b");
    let t = sink_payload(&sink(AlertOn::Findings, AlertFormat::Teams), &s, &recs).unwrap();
    assert_eq!(text(&t, "@type"), "MessageCard");
    let k = sink_payload(&sink(AlertOn::Findings, AlertFormat::Slack), &s, &recs).unwrap();
    assert!(member(&k, "blocks").as_array().is_some());
}

#[test]
fn the_summary_does_not_depend_on_the_order_of_findings() {
    let mut recs = vec![
        record("b", "Active Credential", "High", "x"),
        record("a", "Inactive Credential", "High", "x"),
        record("c", "Unknown", "High", "x"),
        record("b", "Unknown", "High", "x"),
        record("a", "Unknown", "High", "x"),
    ];
    let first = AlertSummary::from_findings(&recs, None, "v".to_string());
    recs.reverse();
    let second = AlertSummary::from_findings(&recs, None, "v".to_string());
    assert_eq!(
        (first.total, first.active, first.inactive, first.unknown, first.by_rule),
        (second.total, second.active, second.inactive, second.unknown, second.by_rule)
    );
}
