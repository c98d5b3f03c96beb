# kingfisher (verified core)

The logic of Kingfisher's rule loading, alerting and Slack scanning, written in Verus with its
behaviour stated in `requires`/`ensures` contracts and proved.

## Layout

- `src/rule_loader.rs` — the id-ordered rule table (later rules replace earlier ones with the
  same id), rule selectors (`all`, an exact id, or a dotted id prefix) and the resolution of
  enabled and excluded selectors, with its laws.
- `src/alerts/` — the summary of a scan's findings (status counts, top rules), which findings a
  sink reports, the Slack, Teams and generic payloads, format inference from a webhook host and
  the redacted form of webhook URLs.
- `src/slack.rs` — the Slack search paging and per-file download state machines, API error messages, file-name
  sanitisation and the naming and size limits of downloads.
- `src/json.rs`, `src/reporter.rs`, `src/cli/` — the JSON document model, finding records and
  command arguments the above work on.
- `src/text.rs`, `src/seqs.rs` — string and sequence helpers with their specifications.
- `app/` — ordinary Rust around the library: clap and serde forms of its types, HTTP requests to
  webhooks and to the Slack API, and file I/O.
- `tests/` — tests run against the compiled library.

The only trusted code is a handful of wrappers around `url::Url::parse`, `Url::join`,
`str::to_lowercase` and `String::push`; each states in its doc comment what its contract assumes.
