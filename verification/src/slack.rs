//! Slack as a scan source: paging through `search.messages` and `search.files`, the errors the
//! Slack API reports, and how downloaded messages and files are named and size-limited.
//!
//! The requests themselves are made by the caller; this module decides what to fetch next and
//! what to keep.
use vstd::prelude::*;

use crate::text::{
    all_white_space, append, chars_between, chars_vec, is_control, is_control_char, opt_chars, push_char,
    str_eq, trims_to_empty,
};

verus! {

/// A Slack channel, as search results name it.
#[derive(Debug)]
pub struct SlackChannel {
    pub id: String,
    pub name: Option<String>,
}

/// A message found by `search.messages`.
#[derive(Debug)]
pub struct SlackMessage {
    pub permalink: String,
    pub text: Option<String>,
    pub ts: String,
    pub channel: SlackChannel,
}

/// A file found by `search.files`.
#[derive(Debug)]
pub struct SlackFile {
    pub id: String,
    pub name: Option<String>,
    pub title: Option<String>,
    pub permalink: Option<String>,
    pub url_private: Option<String>,
    pub url_private_download: Option<String>,
}

/// Where a page of search results stands among all pages.
#[derive(Debug)]
pub struct SlackPagination {
    pub page: Option<u32>,
    pub page_count: Option<u32>,
}

/// One page of search matches.
pub struct SlackResults<T> {
    pub matches: Vec<T>,
    pub pagination: Option<SlackPagination>,
}

/// The body of a search response: whether Slack accepted the request, its error code if not,
/// and the page of matches.
pub struct SlackSearchResponse<T> {
    pub ok: bool,
    pub error: Option<String>,
    pub results: Option<SlackResults<T>>,
}

/// The page after `current` when the pagination says there is one: the page the response
/// reports (or `current` when it reports none) plus one, saturating, as long as it does not pass
/// the page count. No page count means no next page.
pub open spec fn next_page(pagination: Option<SlackPagination>, current: u32) -> Option<u32> {
    match pagination {
        Some(p) => match p.page_count {
            Some(count) => {
                let from = match p.page {
                    Some(n) => n,
                    None => current,
                };
                let next: u32 = if from == u32::MAX { u32::MAX } else { (from + 1) as u32 };
                if next <= count { Some(next) } else { None }
            },
            None => None,
        },
        None => None,
    }
}

/// A next page is always one the pagination counts: there is a page count, and the next page
/// does not pass it.
pub proof fn lemma_next_page_within_count(pagination: Option<SlackPagination>, current: u32)
    ensures
        next_page(pagination, current) matches Some(n) ==> (pagination matches Some(p) && (p.page_count matches Some(
            count,
        ) && 1 <= n <= count)),
{
}

/// The page to request after `current_page`, if any.
pub fn next_slack_page(pagination: Option<&SlackPagination>, current_page: u32) -> (r: Option<u32>)
    ensures
        r == next_page(match pagination { Some(p) => Some(*p), None => None }, current_page),
{
    let pagination = match pagination {
        Some(p) => p,
        None => return None,
    };
    let page_count = match pagination.page_count {
        Some(c) => c,
        None => return None,
    };
    let from = match pagination.page {
        Some(n) => n,
        None => current_page,
    };
    let next_page = from.saturating_add(1);
    if next_page <= page_count { Some(next_page) } else { None }
}

/// A permalink worth reporting: present and not blank.
pub open spec fn shown_permalink(permalink: Option<Seq<char>>) -> Option<Seq<char>> {
    match permalink {
        Some(p) => if all_white_space(p) { None } else { Some(p) },
        None => None,
    }
}

/// The file's permalink, unless it is missing or blank.
pub fn slack_file_permalink(file: &SlackFile) -> (r: Option<String>)
    ensures
        opt_chars(r) == shown_permalink(opt_chars(file.permalink)),
{
    match &file.permalink {
        Some(p) => if trims_to_empty(p.as_str()) { None } else { Some(p.clone()) },
        None => None,
    }
}

/// The message for an error code of the Slack API (`unknown` when Slack gave none), with a hint
/// for the two codes that mean the token lacks a permission.
pub open spec fn api_error_message(error: Option<Seq<char>>) -> Seq<char> {
    let code = match error {
        Some(e) => e,
        None => "unknown"@,
    };
    if code == "not_allowed_token_type"@ {
        "Slack API error: not_allowed_token_type - use a user token with the `search:read` scope"@
    } else if code == "missing_scope"@ {
        "Slack API error: missing_scope - Slack search requires `search:read` and file downloads require `files:read`"@
    } else {
        "Slack API error: "@ + code
    }
}

/// The error message for a request the Slack API refused.
pub fn slack_api_error(error: Option<String>) -> (m: String)
    ensures
        m@ == api_error_message(opt_chars(error)),
{
    let code = match error {
        Some(e) => e,
        None => "unknown".to_string(),
    };
    if str_eq(code.as_str(), "not_allowed_token_type") {
        "Slack API error: not_allowed_token_type - use a user token with the `search:read` scope".to_string()
    } else if str_eq(code.as_str(), "missing_scope") {
        "Slack API error: missing_scope - Slack search requires `search:read` and file downloads require `files:read`".to_string()
    } else {
        let mut m = "Slack API error: ".to_string();
        append(&mut m, code.as_str());
        m
    }
}

/// Characters that cannot stand in a file name on some platform.
pub open spec fn is_reserved(c: char) -> bool {
    c == '<' || c == '>' || c == ':' || c == '"' || c == '/' || c == '\\' || c == '|' || c == '?' || c == '*'
}

/// A character as it may stand in a file name: reserved and control characters become `_`.
pub open spec fn file_char(c: char) -> char {
    if is_reserved(c) || is_control_char(c) { '_' } else { c }
}

/// Characters trimmed from both ends of a file name component.
pub open spec fn is_edge(c: char) -> bool {
    c == ' ' || c == '.'
}

/// `s` without its leading spaces and dots.
pub open spec fn trim_front(s: Seq<char>) -> Seq<char>
    decreases s.len(),
{
    if s.len() > 0 && is_edge(s[0]) {
        trim_front(s.drop_first())
    } else {
        s
    }
}

/// `s` without its trailing spaces and dots.
pub open spec fn trim_back(s: Seq<char>) -> Seq<char>
    decreases s.len(),
{
    if s.len() > 0 && is_edge(s.last()) {
        trim_back(s.drop_last())
    } else {
        s
    }
}

/// A text made safe as one component of a file name: no reserved or control characters, no
/// leading or trailing spaces and dots (so no `..`), and `file` when nothing is left.
pub open spec fn sanitized(value: Seq<char>) -> Seq<char> {
    let t = trim_back(trim_front(value.map_values(|c: char| file_char(c))));
    if t.len() == 0 { "file"@ } else { t }
}

/// `trim_front(s)` is what follows the first `k` characters of `s`, all spaces and dots, and it
/// does not start with a space or a dot.
proof fn lemma_trim_front(s: Seq<char>) -> (k: int)
    ensures
        0 <= k <= s.len(),
        trim_front(s) == s.subrange(k, s.len() as int),
        trim_front(s).len() > 0 ==> !is_edge(trim_front(s)[0]),
    decreases s.len(),
{
    if s.len() > 0 && is_edge(s[0]) {
        let j = lemma_trim_front(s.drop_first());
        assert(s.drop_first().subrange(j, s.drop_first().len() as int) == s.subrange(j + 1, s.len() as int));
        j + 1
    } else {
        assert(s.subrange(0, s.len() as int) == s);
        0
    }
}

/// `trim_back(s)` is the first `k` characters of `s`, and it does not end with a space or a dot.
proof fn lemma_trim_back(s: Seq<char>) -> (k: int)
    ensures
        0 <= k <= s.len(),
        trim_back(s) == s.subrange(0, k),
        k > 0 ==> !is_edge(s[k - 1]),
    decreases s.len(),
{
    if s.len() > 0 && is_edge(s.last()) {
        let j = lemma_trim_back(s.drop_last());
        assert(s.drop_last().subrange(0, j) == s.subrange(0, j));
        j
    } else {
        assert(s.subrange(0, s.len() as int) == s);
        s.len() as int
    }
}

/// A sanitised file name component is safe to join to a directory: it is not empty, it holds no
/// reserved or control character (so no path separator), and it neither starts nor ends with a
/// space or a dot (so it is never `.` or `..`).
pub proof fn lemma_sanitized_is_safe(value: Seq<char>)
    ensures
        sanitized(value).len() > 0,
        forall|i: int| 0 <= i < sanitized(value).len() ==> !is_reserved(#[trigger] sanitized(value)[i])
            && !is_control_char(sanitized(value)[i]),
        !is_edge(sanitized(value)[0]),
        !is_edge(sanitized(value).last()),
{
    reveal_strlit("file");
    let m = value.map_values(|c: char| file_char(c));
    let k1 = lemma_trim_front(m);
    let t1 = trim_front(m);
    let k2 = lemma_trim_back(t1);
    let t = trim_back(t1);
    if t.len() > 0 {
        assert(sanitized(value) == t);
        assert forall|i: int| 0 <= i < t.len() implies !is_reserved(#[trigger] t[i]) && !is_control_char(t[i]) by {
            assert(t[i] == t1[i]);
            assert(t1[i] == m[k1 + i]);
            assert(m[k1 + i] == file_char(value[k1 + i]));
        }
        assert(t[0] == t1[0]);
        assert(t.last() == t1[k2 - 1]);
    } else {
        assert(sanitized(value) == "file"@);
    }
}

/// Sanitising replaces each of `< > : " / \\ | ? *` and each control character by `_` and keeps
/// every other character; a component that neither starts nor ends with a space or a dot loses
/// no character to trimming.
pub proof fn lemma_sanitized_replaces(value: Seq<char>)
    requires
        value.len() > 0,
        value[0] != ' ' && value[0] != '.',
        value.last() != ' ' && value.last() != '.',
    ensures
        sanitized(value).len() == value.len(),
        forall|i: int| 0 <= i < value.len() ==> #[trigger] sanitized(value)[i] == if value[i] == '<' || value[i] == '>'
            || value[i] == ':' || value[i] == '"' || value[i] == '/' || value[i] == '\\' || value[i] == '|' || value[i]
            == '?' || value[i] == '*' || is_control_char(value[i]) {
            '_'
        } else {
            value[i]
        },
{
    let m = value.map_values(|c: char| file_char(c));
    assert(trim_front(m) == m);
    assert(m.last() == file_char(value.last()));
    assert(trim_back(m) == m);
}

/// Sanitising is idempotent: a sanitised component is left as it is.
pub proof fn lemma_sanitized_idempotent(value: Seq<char>)
    ensures
        sanitized(sanitized(value)) == sanitized(value),
{
    let t = sanitized(value);
    lemma_sanitized_is_safe(value);
    let m = t.map_values(|c: char| file_char(c));
    assert(m =~= t) by {
        assert forall|i: int| 0 <= i < t.len() implies m[i] == t[i] by {
            assert(!is_reserved(t[i]) && !is_control_char(t[i]));
        }
    }
    assert(trim_front(m) == m);
    assert(trim_back(m) == m);
}

/// Whether `c` is one of the reserved characters.
fn reserved(c: char) -> (r: bool)
    ensures
        r == is_reserved(c),
{
    c == '<' || c == '>' || c == ':' || c == '"' || c == '/' || c == '\\' || c == '|' || c == '?' || c == '*'
}

proof fn lemma_trim_front_step(s: Seq<char>, lo: int)
    requires
        0 <= lo < s.len(),
        is_edge(s[lo]),
    ensures
        trim_front(s.subrange(lo, s.len() as int)) == trim_front(s.subrange(lo + 1, s.len() as int)),
{
    assert(s.subrange(lo, s.len() as int).drop_first() == s.subrange(lo + 1, s.len() as int));
}

proof fn lemma_trim_back_step(s: Seq<char>, hi: int)
    requires
        0 < hi <= s.len(),
        is_edge(s[hi - 1]),
    ensures
        trim_back(s.subrange(0, hi)) == trim_back(s.subrange(0, hi - 1)),
{
    assert(s.subrange(0, hi).drop_last() == s.subrange(0, hi - 1));
}

/// `value` made safe as one component of a file name.
pub fn sanitize_filename_component(value: &str) -> (r: String)
    ensures
        r@ == sanitized(value@),
{
    let v = chars_vec(value);
    let ghost mapped = value@.map_values(|c: char| file_char(c));
    let mut m: Vec<char> = Vec::new();
    let mut i: usize = 0;
    while i < v.len()
        invariant
            v@ == value@,
            mapped == value@.map_values(|c: char| file_char(c)),
            0 <= i <= v@.len(),
            m@ == mapped.take(i as int),
        decreases v@.len() - i,
    {
        let c = v[i];
        let d = if reserved(c) || is_control(c) { '_' } else { c };
        m.push(d);
        assert(m@ =~= mapped.take(i + 1));
        i = i + 1;
    }
    assert(m@ =~= mapped);
    let n = m.len();
    let mut lo: usize = 0;
    while lo < n && (m[lo] == ' ' || m[lo] == '.')
        invariant
            m@ == mapped,
            n == m@.len(),
            0 <= lo <= n,
            trim_front(mapped) == trim_front(mapped.subrange(lo as int, n as int)),
        decreases n - lo,
    {
        proof {
            lemma_trim_front_step(mapped, lo as int);
        }
        lo = lo + 1;
    }
    let ghost rest = mapped.subrange(lo as int, n as int);
    assert(trim_front(mapped) == rest);
    let mut hi: usize = n;
    assert(rest.subrange(0, hi - lo) == rest);
    while hi > lo && (m[hi - 1] == ' ' || m[hi - 1] == '.')
        invariant
            m@ == mapped,
            n == m@.len(),
            0 <= lo <= hi <= n,
            rest == mapped.subrange(lo as int, n as int),
            trim_back(rest) == trim_back(rest.subrange(0, hi - lo)),
        decreases hi - lo,
    {
        proof {
            lemma_trim_back_step(rest, (hi - lo) as int);
            assert(rest[hi - lo - 1] == mapped[hi - 1]);
        }
        hi = hi - 1;
    }
    assert(rest.subrange(0, hi - lo) == mapped.subrange(lo as int, hi as int));
    assert(trim_back(rest) == rest.subrange(0, hi - lo));
    if lo == hi {
        "file".to_string()
    } else {
        chars_between(&m, lo, hi)
    }
}

/// The file a downloaded message is written to: channel id, `_`, the timestamp with its dots
/// made underscores, and `.json`.
pub open spec fn message_file_name(channel_id: Seq<char>, ts: Seq<char>) -> Seq<char> {
    channel_id + "_"@ + ts.map_values(|c: char| if c == '.' { '_' } else { c }) + ".json"@
}

/// The name of the file a downloaded message is written to.
pub fn message_filename(msg: &SlackMessage) -> (r: String)
    ensures
        r@ == message_file_name(msg.channel.id@, msg.ts@),
{
    let ts = chars_vec(msg.ts.as_str());
    let ghost mapped = msg.ts@.map_values(|c: char| if c == '.' { '_' } else { c });
    let mut r = msg.channel.id.clone();
    append(&mut r, "_");
    let ghost start = r@;
    let mut i: usize = 0;
    while i < ts.len()
        invariant
            ts@ == msg.ts@,
            mapped == msg.ts@.map_values(|c: char| if c == '.' { '_' } else { c }),
            0 <= i <= ts@.len(),
            r@ == start + mapped.take(i as int),
        decreases ts@.len() - i,
    {
        let c = ts[i];
        push_char(&mut r, if c == '.' { '_' } else { c });
        assert(mapped.take(i + 1) == mapped.take(i as int).push(mapped[i as int]));
        i = i + 1;
    }
    assert(mapped.take(mapped.len() as int) == mapped);
    append(&mut r, ".json");
    r
}

/// The URL a file is downloaded from: its private download URL, else its private URL.
pub open spec fn download_source(file: SlackFile) -> Option<Seq<char>> {
    match opt_chars(file.url_private_download) {
        Some(u) => Some(u),
        None => opt_chars(file.url_private),
    }
}

/// The URL a file is downloaded from, if it has one.
pub fn download_url(file: &SlackFile) -> (r: Option<String>)
    ensures
        opt_chars(r) == download_source(*file),
{
    match &file.url_private_download {
        Some(u) => Some(u.clone()),
        None => match &file.url_private {
            Some(u) => Some(u.clone()),
            None => None,
        },
    }
}

/// The name a downloaded file is stored under: its id and its name (else its title, else
/// `file`), each sanitised, joined by `_`.
pub open spec fn download_file_name(file: SlackFile) -> Seq<char> {
    let given = match opt_chars(file.name) {
        Some(n) => n,
        None => match opt_chars(file.title) {
            Some(t) => t,
            None => "file"@,
        },
    };
    sanitized(file.id@) + "_"@ + sanitized(given)
}

/// The name a downloaded file is stored under.
pub fn download_filename(file: &SlackFile) -> (r: String)
    ensures
        r@ == download_file_name(*file),
{
    let mut r = sanitize_filename_component(file.id.as_str());
    append(&mut r, "_");
    let given = match &file.name {
        Some(n) => sanitize_filename_component(n.as_str()),
        None => match &file.title {
            Some(t) => sanitize_filename_component(t.as_str()),
            None => sanitize_filename_component("file"),
        },
    };
    append(&mut r, given.as_str());
    r
}

/// A declared download size is over the size limit.
pub open spec fn declared_over(max_file_size: Option<u64>, content_length: Option<u64>) -> bool {
    max_file_size matches Some(limit) && content_length matches Some(len) && len > limit
}

/// Whether a download whose declared size is `content_length` is over the size limit.
pub fn declared_size_exceeds(max_file_size: Option<u64>, content_length: Option<u64>) -> (r: bool)
    ensures
        r == declared_over(max_file_size, content_length),
{
    match (max_file_size, content_length) {
        (Some(limit), Some(len)) => len > limit,
        _ => false,
    }
}

/// The size downloaded so far once a chunk of `chunk_len` bytes is kept (saturating), or `None`
/// when keeping it would pass the size limit and the download is abandoned.
pub open spec fn kept_after_chunk(downloaded: u64, chunk_len: u64, max_file_size: Option<u64>) -> Option<u64> {
    let next: u64 = if downloaded + chunk_len > u64::MAX { u64::MAX } else { (downloaded + chunk_len) as u64 };
    if max_file_size matches Some(limit) && next > limit { None } else { Some(next) }
}

/// The size downloaded so far once a chunk is kept, or `None` when the download is abandoned.
pub fn accept_chunk(downloaded: u64, chunk_len: u64, max_file_size: Option<u64>) -> (r: Option<u64>)
    ensures
        r == kept_after_chunk(downloaded, chunk_len, max_file_size),
        r matches Some(n) ==> (max_file_size matches Some(limit) ==> n <= limit),
{
    let next_size = downloaded.saturating_add(chunk_len);
    match max_file_size {
        Some(limit) => if next_size > limit { None } else { Some(next_size) },
        None => Some(next_size),
    }
}

/// What a search does next.
pub enum SearchAction {
    /// Request this page of results.
    Fetch(u32),
    /// Stop: the matches kept so far are the result.
    Done,
    /// Stop with this error message.
    Fail(String),
}

/// How a search starts: nothing to fetch when no result is wanted, else the first page.
pub fn first_search_action(max_results: usize) -> (a: SearchAction)
    ensures
        a == if max_results == 0 { SearchAction::Done } else { SearchAction::Fetch(1) },
{
    if max_results == 0 { SearchAction::Done } else { SearchAction::Fetch(1) }
}

/// How many of `found` new matches are kept beside `have` already kept, when at most `max` are
/// wanted.
pub open spec fn kept_count(have: nat, found: nat, max: nat) -> nat {
    if have + found <= max { found } else { (max - have) as nat }
}

/// The next step of a search once page `page` has come back: fail on an API error, stop when
/// the response holds no matches, else keep the matches in order up to `max_results` in all,
/// and fetch the next page while fewer are kept and the pagination names one.
pub fn after_search_page<T>(collected: &mut Vec<T>, max_results: usize, page: u32, response: SlackSearchResponse<T>) -> (a: SearchAction)
    requires
        old(collected)@.len() < max_results,
    ensures
        !response.ok ==> final(collected)@ == old(collected)@ && (a matches SearchAction::Fail(m) && m@
            == api_error_message(opt_chars(response.error))),
        response.ok && response.results is None ==> final(collected)@ == old(collected)@ && a == SearchAction::Done,
        response.ok ==> (response.results matches Some(res) ==> {
            &&& final(collected)@ == old(collected)@ + res.matches@.take(
                kept_count(old(collected)@.len(), res.matches@.len(), max_results as nat) as int,
            )
            &&& a == if final(collected)@.len() >= max_results {
                SearchAction::Done
            } else {
                match next_page(res.pagination, page) {
                    Some(n) => SearchAction::Fetch(n),
                    None => SearchAction::Done,
                }
            }
        }),
        final(collected)@.len() <= max_results,
{
    if !response.ok {
        return SearchAction::Fail(slack_api_error(response.error));
    }
    let results = match response.results {
        Some(r) => r,
        None => return SearchAction::Done,
    };
    let mut matches = results.matches;
    let room = max_results - collected.len();
    if matches.len() > room {
        matches.truncate(room);
    }
    assert(matches@ == results.matches@.take(kept_count(collected@.len(), results.matches@.len(), max_results as nat) as int));
    collected.append(&mut matches);
    if collected.len() >= max_results {
        return SearchAction::Done;
    }
    match next_slack_page(results.pagination.as_ref(), page) {
        Some(n) => SearchAction::Fetch(n),
        None => SearchAction::Done,
    }
}

/// Where the download of one found file stands.
#[derive(Clone, Copy, Debug, PartialEq, Eq, Structural)]
pub enum DownloadState {
    /// Not taken up yet.
    Idle,
    /// Requested; the response has not come.
    Requested,
    /// The body is being written; this many bytes are kept so far.
    Streaming(u64),
    /// Finished with: kept or skipped.
    Done,
}

/// What happened in the download of a file.
#[derive(Clone, Copy, Debug, PartialEq, Eq, Structural)]
pub enum DownloadEvent {
    /// The file is taken up.
    Begin,
    /// The response came, declaring this body size, or none.
    Response(Option<u64>),
    /// A chunk of the body of this many bytes arrived.
    Chunk(u64),
    /// The body ended.
    BodyEnd,
}

/// What to do next in the download of a file.
#[derive(Debug)]
pub enum DownloadAction {
    /// Skip the file: it has no download URL.
    SkipNoUrl,
    /// Request the file from this URL.
    Fetch(String),
    /// Skip the file: its declared size is over the limit.
    SkipTooLarge { size: u64, limit: u64 },
    /// Create the output file of this name and stream the body into it.
    Create(String),
    /// Write the chunk that arrived.
    Write,
    /// Remove the partly written file and skip it: the body passed the limit.
    Discard { limit: u64 },
    /// Flush the output file; report it with this permalink, when there is one.
    Finish(Option<String>),
}

/// The events a download state can take.
pub open spec fn download_expects(state: DownloadState, event: DownloadEvent) -> bool {
    match (state, event) {
        (DownloadState::Idle, DownloadEvent::Begin) => true,
        (DownloadState::Requested, DownloadEvent::Response(_)) => true,
        (DownloadState::Streaming(_), DownloadEvent::Chunk(_)) => true,
        (DownloadState::Streaming(_), DownloadEvent::BodyEnd) => true,
        _ => false,
    }
}

/// The state a download moves to: a file without a URL, one whose declared size is over the
/// limit, one whose body passes the limit, and one whose body ended are done with; a requested
/// file whose size is within the limit starts streaming; a chunk within the limit adds to the
/// bytes kept.
pub open spec fn next_download_state(
    file: SlackFile,
    max_file_size: Option<u64>,
    state: DownloadState,
    event: DownloadEvent,
) -> DownloadState {
    match (state, event) {
        (DownloadState::Idle, DownloadEvent::Begin) => if download_source(file) is Some {
            DownloadState::Requested
        } else {
            DownloadState::Done
        },
        (DownloadState::Requested, DownloadEvent::Response(len)) => if declared_over(max_file_size, len) {
            DownloadState::Done
        } else {
            DownloadState::Streaming(0)
        },
        (DownloadState::Streaming(kept), DownloadEvent::Chunk(len)) => match kept_after_chunk(kept, len, max_file_size) {
            Some(n) => DownloadState::Streaming(n),
            None => DownloadState::Done,
        },
        _ => DownloadState::Done,
    }
}

impl DownloadState {
    /// Whether this state can take `event`.
    pub fn expects(&self, event: &DownloadEvent) -> (r: bool)
        ensures
            r == download_expects(*self, *event),
    {
        match (self, event) {
            (DownloadState::Idle, DownloadEvent::Begin) => true,
            (DownloadState::Requested, DownloadEvent::Response(_)) => true,
            (DownloadState::Streaming(_), DownloadEvent::Chunk(_)) => true,
            (DownloadState::Streaming(_), DownloadEvent::BodyEnd) => true,
            _ => false,
        }
    }
}

/// One step of downloading a found file of at most `max_file_size` bytes: the next state and
/// what to do. Taking up a file requests its download URL, or skips it when it has none; a
/// response whose declared size is over the limit is skipped, else the file is created under
/// its sanitised name; each chunk is written while the bytes kept stay within the limit, and the
/// partial file is discarded as soon as they would not; when the body ends the file is kept and
/// reported with its permalink, when it has a non-blank one.
pub fn download_step(file: &SlackFile, max_file_size: Option<u64>, state: DownloadState, event: DownloadEvent) -> (r: (
    DownloadState,
    DownloadAction,
))
    requires
        download_expects(state, event),
    ensures
        r.0 == next_download_state(*file, max_file_size, state, event),
        state == DownloadState::Idle ==> match download_source(*file) {
            Some(u) => r.1 matches DownloadAction::Fetch(s) && s@ == u,
            None => r.1 is SkipNoUrl,
        },
        event matches DownloadEvent::Response(len) ==> if declared_over(max_file_size, len) {
            r.1 matches DownloadAction::SkipTooLarge { size, limit } && Some(size) == len && Some(limit) == max_file_size
        } else {
            r.1 matches DownloadAction::Create(name) && name@ == download_file_name(*file)
        },
        event matches DownloadEvent::Chunk(_) ==> if r.0 == DownloadState::Done {
            r.1 matches DownloadAction::Discard { limit } && Some(limit) == max_file_size
        } else {
            r.1 is Write
        },
        event == DownloadEvent::BodyEnd ==> (r.1 matches DownloadAction::Finish(p) && opt_chars(p) == shown_permalink(
            opt_chars(file.permalink),
        )),
{
    match (state, event) {
        (DownloadState::Idle, DownloadEvent::Begin) => match download_url(file) {
            Some(u) => (DownloadState::Requested, DownloadAction::Fetch(u)),
            None => (DownloadState::Done, DownloadAction::SkipNoUrl),
        },
        (DownloadState::Requested, DownloadEvent::Response(len)) => if declared_size_exceeds(max_file_size, len) {
            let size = match len {
                Some(n) => n,
                None => 0,
            };
            let limit = match max_file_size {
                Some(l) => l,
                None => 0,
            };
            (DownloadState::Done, DownloadAction::SkipTooLarge { size, limit })
        } else {
            (DownloadState::Streaming(0), DownloadAction::Create(download_filename(file)))
        },
        (DownloadState::Streaming(kept), DownloadEvent::Chunk(len)) => match accept_chunk(kept, len, max_file_size) {
            Some(n) => (DownloadState::Streaming(n), DownloadAction::Write),
            None => {
                let limit = match max_file_size {
                    Some(l) => l,
                    None => 0,
                };
                (DownloadState::Done, DownloadAction::Discard { limit })
            },
        },
        _ => (DownloadState::Done, DownloadAction::Finish(slack_file_permalink(file))),
    }
}

/// The bytes a download keeps never pass the size limit.
pub open spec fn within_limit(state: DownloadState, max_file_size: Option<u64>) -> bool {
    state matches DownloadState::Streaming(kept) ==> (max_file_size matches Some(limit) ==> kept <= limit)
}

/// A download never keeps more bytes than the size limit: every step from a state within the
/// limit leads to a state within it (and a download starts within it).
pub proof fn lemma_download_within_limit(
    file: SlackFile,
    max_file_size: Option<u64>,
    state: DownloadState,
    event: DownloadEvent,
)
    requires
        within_limit(state, max_file_size),
    ensures
        within_limit(DownloadState::Idle, max_file_size),
        within_limit(next_download_state(file, max_file_size, state, event), max_file_size),
{
}

/// What `url::Url::join` makes of `input` against the URL that `url::Url::parse` reads from
/// `base`, as its serialisation (`Url::as_str`); `None` when either refuses its text.
pub uninterp spec fn url_join(base: Seq<char>, input: Seq<char>) -> Option<Seq<char>>;

/// Reads `base` with `url::Url::parse`, resolves `input` against it with `Url::join`, and gives
/// the result's serialisation (`Url::as_str`). The contract names the outcome `url_join` and
/// claims only that it is a function of the two texts; how URLs resolve is left unsaid.
#[verifier::external_body]
fn join_url(base: &str, input: &str) -> (r: Result<String, url::ParseError>)
    ensures
        (r is Ok) == (url_join(base@, input@) is Some),
        r matches Ok(u) ==> url_join(base@, input@) == Some(u@),
{
    let joined = url::Url::parse(base)?.join(input)?;
    Ok(joined.as_str().to_string())
}

/// The two Slack searches.
#[derive(Clone, Copy, Debug, PartialEq, Eq, Structural)]
pub enum SlackSearchKind {
    Messages,
    Files,
}

/// The API method of a search.
pub open spec fn search_method(kind: SlackSearchKind) -> Seq<char> {
    match kind {
        SlackSearchKind::Messages => "search.messages"@,
        SlackSearchKind::Files => "search.files"@,
    }
}

impl SlackSearchKind {
    /// The API method of this search.
    pub fn method(&self) -> (m: &'static str)
        ensures
            m@ == search_method(*self),
    {
        match self {
            SlackSearchKind::Messages => "search.messages",
            SlackSearchKind::Files => "search.files",
        }
    }
}

/// The URL a search is requested from: its API method resolved against the API base URL.
pub fn search_url(api_url: &str, kind: SlackSearchKind) -> (r: Result<String, url::ParseError>)
    ensures
        (r is Ok) == (url_join(api_url@, search_method(kind)) is Some),
        r matches Ok(u) ==> url_join(api_url@, search_method(kind)) == Some(u@),
{
    join_url(api_url, kind.method())
}

/// How pages advance: from the page the response reports (else the current one) to the next, as
/// long as that is within the page count; at or past the last page, or without a page count,
/// there is no next page.
pub proof fn lemma_next_page_steps(page: Option<u32>, page_count: Option<u32>, current: u32)
    ensures
        ({
            let from: u32 = match page {
                Some(n) => n,
                None => current,
            };
            let p = Some(SlackPagination { page, page_count });
            &&& (page_count matches Some(count) && from < count) ==> next_page(p, current) == Some((from + 1) as u32)
            &&& (page_count matches Some(count) && count <= from && from < u32::MAX) ==> next_page(p, current) is None
            &&& page_count is None ==> next_page(p, current) is None
            &&& next_page(None, current) is None
        }),
{
}

/// The messages for errors the Slack API reports: the two permission errors carry a hint, any
/// other code is reported as it is, and a missing code as `unknown`.
pub proof fn lemma_api_error_messages(code: Seq<char>)
    ensures
        api_error_message(None) == "Slack API error: unknown"@,
        code != "not_allowed_token_type"@ && code != "missing_scope"@ ==> api_error_message(Some(code)) == "Slack API error: "@
            + code,
        api_error_message(Some("not_allowed_token_type"@))
            == "Slack API error: not_allowed_token_type - use a user token with the `search:read` scope"@,
        api_error_message(Some("missing_scope"@))
            == "Slack API error: missing_scope - Slack search requires `search:read` and file downloads require `files:read`"@,
{
    reveal_strlit("unknown");
    reveal_strlit("not_allowed_token_type");
    reveal_strlit("missing_scope");
    reveal_strlit("Slack API error: unknown");
    reveal_strlit("Slack API error: ");
    assert("unknown"@.len() == 7 && "not_allowed_token_type"@.len() == 22 && "missing_scope"@.len() == 13);
    assert("Slack API error: "@ + "unknown"@ =~= "Slack API error: unknown"@);
}

/// A search keeps the matches it gets until it has as many as wanted: the matches kept then
/// number the smaller of what was kept before plus what was found, and the number wanted.
pub proof fn lemma_kept_count(have: nat, found: nat, max: nat)
    requires
        have < max,
    ensures
        have + kept_count(have, found, max) == if have + found <= max { have + found } else { max },
        kept_count(have, found, max) <= found,
{
}

/// The decisions of a download: a file with a download URL (its private download URL, else its
/// private URL) is requested, one without is skipped; a declared size over the limit is skipped
/// and any other response streams from zero; a chunk that keeps the total within the limit is
/// kept, one that passes it ends the download; the end of the body ends it. The file is stored
/// under its sanitised id and its sanitised name, else title, else `file`.
pub proof fn lemma_download_decisions(file: SlackFile, max_file_size: Option<u64>, kept: u64, len: u64, declared: Option<u64>)
    ensures
        download_source(file) == match file.url_private_download {
            Some(u) => Some(u@),
            None => match file.url_private {
                Some(u) => Some(u@),
                None => None,
            },
        },
        next_download_state(file, max_file_size, DownloadState::Idle, DownloadEvent::Begin) == if download_source(file) is Some {
            DownloadState::Requested
        } else {
            DownloadState::Done
        },
        next_download_state(file, max_file_size, DownloadState::Requested, DownloadEvent::Response(declared)) == if (
        max_file_size matches Some(limit) && declared matches Some(size) && size > limit) {
            DownloadState::Done
        } else {
            DownloadState::Streaming(0)
        },
        (kept + len <= u64::MAX && (max_file_size matches Some(limit) ==> kept + len <= limit)) ==> next_download_state(
            file,
            max_file_size,
            DownloadState::Streaming(kept),
            DownloadEvent::Chunk(len),
        ) == DownloadState::Streaming((kept + len) as u64),
        (kept + len <= u64::MAX && (max_file_size matches Some(limit) && kept + len > limit)) ==> next_download_state(
            file,
            max_file_size,
            DownloadState::Streaming(kept),
            DownloadEvent::Chunk(len),
        ) == DownloadState::Done,
        next_download_state(file, max_file_size, DownloadState::Streaming(kept), DownloadEvent::BodyEnd) == DownloadState::Done,
        download_file_name(file) == sanitized(file.id@) + "_"@ + sanitized(
            match file.name {
                Some(n) => n@,
                None => match file.title {
                    Some(t) => t@,
                    None => "file"@,
                },
            },
        ),
{
}

/// A downloaded message is stored as `<channel id>_<timestamp>.json`, the timestamp with each dot
/// made an underscore and every other character kept.
pub proof fn lemma_message_file_name(channel_id: Seq<char>, ts: Seq<char>)
    ensures
        ({
            let n = message_file_name(channel_id, ts);
            let t = n.subrange(channel_id.len() + 1int, channel_id.len() + 1int + ts.len());
            &&& n.take(channel_id.len() as int) == channel_id
            &&& n[channel_id.len() as int] == '_'
            &&& t.len() == ts.len()
            &&& forall|i: int| 0 <= i < ts.len() ==> #[trigger] t[i] == if ts[i] == '.' { '_' } else { ts[i] }
            &&& n.skip(channel_id.len() + 1int + ts.len()) == ".json"@
        }),
{
    let n = message_file_name(channel_id, ts);
    let m = ts.map_values(|c: char| if c == '.' { '_' } else { c });
    assert(n == channel_id + "_"@ + m + ".json"@);
    reveal_strlit("_");
    assert(n.take(channel_id.len() as int) =~= channel_id);
    assert(n.subrange(channel_id.len() + 1int, channel_id.len() + 1int + ts.len()) =~= m);
    assert(n.skip(channel_id.len() + 1int + ts.len()) =~= ".json"@);
}

} // verus!
