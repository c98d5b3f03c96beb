//! Webhook URLs: which payload format a host expects, and the redacted form under which a URL
//! may be logged (the path and query of a webhook URL carry its secret token).
use vstd::prelude::*;

use crate::alerts::AlertFormat;
use crate::text::{append, decimal, decimal_string, ends_with, is_suffix, opt_chars, str_eq};

verus! {

#[verifier::external_type_specification]
#[verifier::external_body]
pub struct ExUrlParseError(url::ParseError);

/// The parts of a parsed URL that alerts read: its scheme, its host as text, and its port when
/// the URL names one other than the scheme's default.
pub struct UrlParts {
    pub scheme: String,
    pub host: Option<String>,
    pub port: Option<u16>,
}

impl UrlParts {
    /// The parts as plain values.
    pub open spec fn parts(&self) -> (Seq<char>, Option<Seq<char>>, Option<u16>) {
        (self.scheme@, opt_chars(self.host), self.port)
    }
}

/// What `url::Url::parse` makes of a text, read back through `Url::scheme`, `Url::host_str` and
/// `Url::port`; `None` when it refuses the text.
pub uninterp spec fn url_parse(input: Seq<char>) -> Option<(Seq<char>, Option<Seq<char>>, Option<u16>)>;

/// What `str::to_lowercase` makes of a text.
pub uninterp spec fn lowercase(text: Seq<char>) -> Seq<char>;

/// Parses a URL with `url::Url::parse` and reads its scheme (`Url::scheme`), its host text
/// (`Url::host_str`) and its non-default port (`Url::port`). The contract claims only that the
/// outcome is a function of the input text, named `url_parse`: which texts the WHATWG parser
/// accepts and how it normalises them is left unsaid.
#[verifier::external_body]
fn parse_url(input: &str) -> (r: Result<UrlParts, url::ParseError>)
    ensures
        (r is Ok) == (url_parse(input@) is Some),
        r matches Ok(p) ==> url_parse(input@) == Some(p.parts()),
{
    let u = url::Url::parse(input)?;
    Ok(UrlParts { scheme: u.scheme().to_string(), host: u.host_str().map(String::from), port: u.port() })
}

/// Lower-cases a text with `str::to_lowercase`. The contract names the result `lowercase` and
/// leaves the Unicode case mapping unsaid.
#[verifier::external_body]
fn to_lowercase(text: &str) -> (r: String)
    ensures
        r@ == lowercase(text@),
{
    text.to_lowercase()
}

/// The host is `domain` itself or a subdomain of it (it ends with `.` and `domain`).
pub open spec fn in_domain(host: Seq<char>, domain: Seq<char>) -> bool {
    host == domain || is_suffix(seq!['.'] + domain, host)
}

/// The format a webhook host calls for: Slack for `slack.com` and its subdomains, Teams for
/// `office.com` and its subdomains, the generic envelope for any other host and when there is
/// no host.
pub open spec fn host_format(host: Option<Seq<char>>) -> AlertFormat {
    match host {
        Some(h) => if in_domain(h, "slack.com"@) {
            AlertFormat::Slack
        } else if in_domain(h, "office.com"@) {
            AlertFormat::Teams
        } else {
            AlertFormat::Generic
        },
        None => AlertFormat::Generic,
    }
}

/// The lower-cased host of a URL text, when it parses and has a host.
pub open spec fn url_host(input: Seq<char>) -> Option<Seq<char>> {
    match url_parse(input) {
        Some((_, Some(h), _)) => Some(lowercase(h)),
        _ => None,
    }
}

impl AlertFormat {
    /// The format for a webhook whose host, already lower-cased, is `host`.
    pub fn for_host(host: Option<&str>) -> (f: AlertFormat)
        ensures
            f == host_format(match host { Some(h) => Some(h@), None => None }),
    {
        proof {
            reveal_strlit("slack.com");
            reveal_strlit(".slack.com");
            reveal_strlit("office.com");
            reveal_strlit(".office.com");
            assert(".slack.com"@ == seq!['.'] + "slack.com"@);
            assert(".office.com"@ == seq!['.'] + "office.com"@);
        }
        match host {
            Some(h) => if str_eq(h, "slack.com") || ends_with(h, ".slack.com") {
                AlertFormat::Slack
            } else if str_eq(h, "office.com") || ends_with(h, ".office.com") {
                AlertFormat::Teams
            } else {
                AlertFormat::Generic
            },
            None => AlertFormat::Generic,
        }
    }

    /// The format to use for a webhook URL when none was configured, guessed from its host.
    pub fn infer_from_url(url: &str) -> (f: AlertFormat)
        ensures
            f == host_format(url_host(url@)),
    {
        match parse_url(url) {
            Ok(parts) => match &parts.host {
                Some(h) => {
                    let lower = to_lowercase(h.as_str());
                    AlertFormat::for_host(Some(lower.as_str()))
                },
                None => AlertFormat::for_host(None),
            },
            Err(_) => AlertFormat::for_host(None),
        }
    }
}

/// `:` and the port, when there is one.
pub open spec fn port_suffix(port: Option<u16>) -> Seq<char> {
    match port {
        Some(p) => ":"@ + decimal(p as nat),
        None => Seq::empty(),
    }
}

/// A URL with its path and query replaced: `scheme://host[:port]/<redacted>`, or a fixed text when
/// the URL does not parse.
pub open spec fn redacted(parts: Option<(Seq<char>, Option<Seq<char>>, Option<u16>)>) -> Seq<char> {
    match parts {
        Some((scheme, host, port)) => scheme + "://"@ + (match host {
            Some(h) => h,
            None => Seq::empty(),
        }) + port_suffix(port) + "/<redacted>"@,
        None => "<unparseable webhook url>"@,
    }
}

/// The redacted form of a parsed URL, or of one that did not parse.
pub fn redact_parts(parts: Option<&UrlParts>) -> (r: String)
    ensures
        r@ == redacted(match parts { Some(p) => Some(p.parts()), None => None }),
{
    match parts {
        Some(p) => {
            let mut r = p.scheme.clone();
            append(&mut r, "://");
            match &p.host {
                Some(h) => append(&mut r, h.as_str()),
                None => {},
            }
            match p.port {
                Some(n) => {
                    append(&mut r, ":");
                    let digits = decimal_string(n as u64);
                    append(&mut r, digits.as_str());
                },
                None => {},
            }
            append(&mut r, "/<redacted>");
            r
        },
        None => "<unparseable webhook url>".to_string(),
    }
}

/// A webhook URL with its path and query, where the secret token lives, replaced, so that it may
/// be logged: `https://hooks.slack.com/services/...` becomes `https://hooks.slack.com/<redacted>`.
pub fn redact_webhook(url: &str) -> (r: String)
    ensures
        r@ == redacted(url_parse(url@)),
{
    match parse_url(url) {
        Ok(parts) => redact_parts(Some(&parts)),
        Err(_) => redact_parts(None),
    }
}

/// Which hosts call for which format: `slack.com` and every host under it are Slack hosts,
/// `office.com` and every host under it are Teams hosts, and no other host is either; without a
/// host the format is generic.
pub proof fn lemma_host_format_domains()
    ensures
        host_format(Some("slack.com"@)) == AlertFormat::Slack,
        forall|t: Seq<char>| #[trigger] host_format(Some(t + ".slack.com"@)) == AlertFormat::Slack,
        host_format(Some("office.com"@)) == AlertFormat::Teams,
        forall|t: Seq<char>| #[trigger] host_format(Some(t + ".office.com"@)) == AlertFormat::Teams,
        forall|h: Seq<char>| #[trigger] host_format(Some(h)) == AlertFormat::Slack ==> h == "slack.com"@ || (h.len() >= 10
            && h.skip(h.len() - 10) == ".slack.com"@),
        forall|h: Seq<char>| #[trigger] host_format(Some(h)) == AlertFormat::Teams ==> h == "office.com"@ || (h.len() >= 11
            && h.skip(h.len() - 11) == ".office.com"@),
        host_format(None) == AlertFormat::Generic,
{
    reveal_strlit("slack.com");
    reveal_strlit(".slack.com");
    reveal_strlit("office.com");
    reveal_strlit(".office.com");
    assert(".slack.com"@ =~= seq!['.'] + "slack.com"@);
    assert(".office.com"@ =~= seq!['.'] + "office.com"@);
    assert(!is_suffix(".slack.com"@, "office.com"@)) by {
        assert("office.com"@.skip(0)[0] != ".slack.com"@[0]);
    }
    assert forall|t: Seq<char>| #[trigger] host_format(Some(t + ".slack.com"@)) == AlertFormat::Slack by {
        let h = t + ".slack.com"@;
        assert(h.skip(h.len() - 10) =~= ".slack.com"@);
    }
    assert forall|t: Seq<char>| #[trigger] host_format(Some(t + ".office.com"@)) == AlertFormat::Teams by {
        let h = t + ".office.com"@;
        assert(h.skip(h.len() - 11) =~= ".office.com"@);
        assert(h != "slack.com"@) by {
            assert(h.len() != "slack.com"@.len());
        }
        assert(!is_suffix(".slack.com"@, h)) by {
            assert(h.skip(h.len() - 10)[0] == 'o');
            assert(".slack.com"@[0] == '.');
        }
    }
}

/// A webhook URL is logged as its scheme, `://`, its host, `:` and its port when it names one, and
/// `/<redacted>` in place of its path and query; a URL that does not parse is logged as
/// `<unparseable webhook url>`.
pub proof fn lemma_redacted_form(scheme: Seq<char>, host: Option<Seq<char>>, port: Option<u16>)
    ensures
        redacted(None) == "<unparseable webhook url>"@,
        redacted(Some((scheme, host, port))) == scheme + "://"@ + (match host {
            Some(h) => h,
            None => Seq::empty(),
        }) + (match port {
            Some(p) => seq![':'] + decimal(p as nat),
            None => Seq::empty(),
        }) + "/<redacted>"@,
{
    reveal_strlit(":");
    assert(":"@ =~= seq![':']);
}

} // verus!
