use kingfisher::slack::{
    download_step, search_url, DownloadAction, DownloadEvent, DownloadState, SlackSearchKind,
    accept_chunk, after_search_page, declared_size_exceeds, download_filename, download_url, first_search_action,
    message_filename, next_slack_page, sanitize_filename_component, slack_api_error, slack_file_permalink, SearchAction,
    SlackChannel, SlackFile, SlackMessage, SlackPagination, SlackResults, SlackSearchResponse,
};

fn file(id: &str) -> SlackFile {
    SlackFile {
        id: id.to_string(),
        name: None,
        title: None,
        permalink: None,
        url_private: None,
        url_private_download: None,
    }
}

#[test]
fn sanitize_filename_component_prevents_path_traversal() {
    assert_eq!(sanitize_filename_component("../../secrets.txt"), "_.._secrets.txt");
    assert_eq!(sanitize_filename_component(".."), "file");
    assert_eq!(sanitize_filename_component("a:b\\c"), "a_b_c");
}

#[test]
fn sanitize_replaces_reserved_and_control_characters_and_trims_edges() {
    assert_eq!(sanitize_filename_component("<a>|b?*\"c"), "_a__b___c");
    assert_eq!(sanitize_filename_component("x\ty\u{7f}z"), "x_y_z");
    assert_eq!(sanitize_filename_component(" . name.txt . "), "name.txt");
    assert_eq!(sanitize_filename_component(""), "file");
    assert_eq!(sanitize_filename_component(". . ."), "file");
    assert_eq!(sanitize_filename_component("ünïcødé"), "ünïcødé");
}

#[test]
fn next_slack_page_requires_pagination_metadata() {
    assert_eq!(next_slack_page(None, 1), None);
    assert_eq!(next_slack_page(Some(&SlackPagination { page: Some(1), page_count: None }), 1), None);
}

#[test]
fn next_slack_page_advances_until_last_page() {
    assert_eq!(next_slack_page(Some(&SlackPagination { page: Some(1), page_count: Some(3) }), 1), Some(2));
    assert_eq!(next_slack_page(Some(&SlackPagination { page: None, page_count: Some(3) }), 2), Some(3));
    assert_eq!(next_slack_page(Some(&SlackPagination { page: Some(3), page_count: Some(3) }), 3), None);
}

#[test]
fn next_slack_page_saturates_at_the_largest_page_number() {
    let p = SlackPagination { page: Some(u32::MAX), page_count: Some(u32::MAX) };
    assert_eq!(next_slack_page(Some(&p), 1), Some(u32::MAX));
}

#[test]
fn slack_file_permalink_ignores_missing_or_blank_links() {
    let mut file = SlackFile {
        id: "F123".to_string(),
        name: Some("credentials.txt".to_string()),
        title: None,
        permalink: None,
        url_private: None,
        url_private_download: None,
    };
    assert_eq!(slack_file_permalink(&file), None);

    file.permalink = Some("   ".to_string());
    assert_eq!(slack_file_permalink(&file), None);

    file.permalink = Some("https://example.slack.com/files/U123/F123/credentials.txt".into());
    assert_eq!(
        slack_file_permalink(&file).as_deref(),
        Some("https://example.slack.com/files/U123/F123/credentials.txt")
    );
}

#[test]
fn api_errors_explain_missing_permissions() {
    assert_eq!(
        slack_api_error(Some("not_allowed_token_type".to_string())),
        "Slack API error: not_allowed_token_type - use a user token with the `search:read` scope"
    );
    assert_eq!(
        slack_api_error(Some("missing_scope".to_string())),
        "Slack API error: missing_scope - Slack search requires `search:read` and file downloads require `files:read`"
    );
    assert_eq!(slack_api_error(Some("ratelimited".to_string())), "Slack API error: ratelimited");
    assert_eq!(slack_api_error(None), "Slack API error: unknown");
}

#[test]
fn message_files_are_named_by_channel_and_timestamp() {
    let msg = SlackMessage {
        permalink: "https://example.slack.com/archives/C1/p1".to_string(),
        text: Some("hello".to_string()),
        ts: "1700000000.123456".to_string(),
        channel: SlackChannel { id: "C42".to_string(), name: None },
    };
    assert_eq!(message_filename(&msg), "C42_1700000000_123456.json");
}

#[test]
fn downloads_prefer_the_download_url() {
    let mut f = file("F1");
    assert_eq!(download_url(&f), None);
    f.url_private = Some("https://files/private".to_string());
    assert_eq!(download_url(&f).as_deref(), Some("https://files/private"));
    f.url_private_download = Some("https://files/download".to_string());
    assert_eq!(download_url(&f).as_deref(), Some("https://files/download"));
}

#[test]
fn downloaded_files_are_named_by_id_and_sanitised_name() {
    let mut f = file("F1");
    assert_eq!(download_filename(&f), "F1_file");
    f.title = Some("My Title".to_string());
    assert_eq!(download_filename(&f), "F1_My Title");
    f.name = Some("../etc/passwd".to_string());
    assert_eq!(download_filename(&f), "F1__etc_passwd");
    f.id = "..".to_string();
    assert_eq!(download_filename(&f), "file__etc_passwd");
}

#[test]
fn declared_sizes_over_the_limit_are_skipped() {
    assert!(declared_size_exceeds(Some(8), Some(31)));
    assert!(!declared_size_exceeds(Some(8), Some(8)));
    assert!(!declared_size_exceeds(Some(8), None));
    assert!(!declared_size_exceeds(None, Some(31)));
}

#[test]
fn streamed_chunks_stop_at_the_limit() {
    assert_eq!(accept_chunk(0, 5, Some(8)), Some(5));
    assert_eq!(accept_chunk(5, 5, Some(8)), None);
    assert_eq!(accept_chunk(5, 3, Some(8)), Some(8));
    assert_eq!(accept_chunk(u64::MAX - 1, 5, None), Some(u64::MAX));
}

#[test]
fn a_search_for_nothing_fetches_nothing() {
    assert!(matches!(first_search_action(0), SearchAction::Done));
    assert!(matches!(first_search_action(3), SearchAction::Fetch(1)));
}

fn page(matches: Vec<u32>, page: Option<u32>, page_count: Option<u32>) -> SlackSearchResponse<u32> {
    SlackSearchResponse {
        ok: true,
        error: None,
        results: Some(SlackResults { matches, pagination: Some(SlackPagination { page, page_count }) }),
    }
}

#[test]
fn a_search_pages_until_the_last_page() {
    let mut got: Vec<u32> = Vec::new();
    let a = after_search_page(&mut got, 10, 1, page(vec![1, 2], Some(1), Some(2)));
    assert!(matches!(a, SearchAction::Fetch(2)));
    let a = after_search_page(&mut got, 10, 2, page(vec![3], Some(2), Some(2)));
    assert!(matches!(a, SearchAction::Done));
    assert_eq!(got, vec![1, 2, 3]);
}

#[test]
fn a_search_stops_at_the_wanted_number_of_results() {
    let mut got: Vec<u32> = vec![7];
    let a = after_search_page(&mut got, 3, 1, page(vec![1, 2, 3, 4], Some(1), Some(5)));
    assert!(matches!(a, SearchAction::Done));
    assert_eq!(got, vec![7, 1, 2]);
}

#[test]
fn a_search_stops_without_results_or_on_an_api_error() {
    let mut got: Vec<u32> = Vec::new();
    let empty = SlackSearchResponse::<u32> { ok: true, error: None, results: None };
    assert!(matches!(after_search_page(&mut got, 3, 1, empty), SearchAction::Done));
    let refused = SlackSearchResponse::<u32> { ok: false, error: Some("missing_scope".to_string()), results: None };
    match after_search_page(&mut got, 3, 1, refused) {
        SearchAction::Fail(m) => assert!(m.starts_with("Slack API error: missing_scope")),
        _ => panic!("expected a failure"),
    }
    assert!(got.is_empty());
}

#[test]
fn sanitising_twice_changes_nothing() {
    for value in ["../../secrets.txt", "..", " .a:b\\c. ", "x\ty", "", "report.final.pdf"] {
        let once = sanitize_filename_component(value);
        assert_eq!(sanitize_filename_component(&once), once);
        assert!(!once.is_empty() && !once.starts_with('.') && !once.ends_with('.'));
        assert!(!once.contains('/') && !once.contains('\\'));
    }
}

#[test]
fn search_urls_resolve_the_method_against_the_api_base() {
    assert_eq!(search_url("https://slack.com/api/", SlackSearchKind::Messages).unwrap(), "https://slack.com/api/search.messages");
    assert_eq!(search_url("http://127.0.0.1:8080/", SlackSearchKind::Files).unwrap(), "http://127.0.0.1:8080/search.files");
    assert!(search_url("not a url", SlackSearchKind::Files).is_err());
}

#[test]
fn a_download_without_a_url_is_skipped() {
    let (state, action) = download_step(&file("F1"), Some(8), DownloadState::Idle, DownloadEvent::Begin);
    assert_eq!(state, DownloadState::Done);
    assert!(matches!(action, DownloadAction::SkipNoUrl));
}

#[test]
fn a_download_over_the_declared_limit_is_skipped() {
    let mut f = file("F123");
    f.url_private_download = Some("https://files/F123".to_string());
    let (state, action) = download_step(&f, Some(8), DownloadState::Idle, DownloadEvent::Begin);
    assert_eq!(state, DownloadState::Requested);
    assert!(matches!(action, DownloadAction::Fetch(ref u) if u == "https://files/F123"));
    let (state, action) = download_step(&f, Some(8), state, DownloadEvent::Response(Some(31)));
    assert_eq!(state, DownloadState::Done);
    assert!(matches!(action, DownloadAction::SkipTooLarge { size: 31, limit: 8 }));
}

#[test]
fn a_streamed_download_passing_the_limit_is_discarded() {
    let mut f = file("F456");
    f.name = Some("streamed.txt".to_string());
    f.url_private = Some("https://files/F456".to_string());
    let (state, _) = download_step(&f, Some(8), DownloadState::Idle, DownloadEvent::Begin);
    let (state, action) = download_step(&f, Some(8), state, DownloadEvent::Response(None));
    assert_eq!(state, DownloadState::Streaming(0));
    assert!(matches!(action, DownloadAction::Create(ref n) if n == "F456_streamed.txt"));
    let (state, action) = download_step(&f, Some(8), state, DownloadEvent::Chunk(5));
    assert_eq!(state, DownloadState::Streaming(5));
    assert!(matches!(action, DownloadAction::Write));
    let (state, action) = download_step(&f, Some(8), state, DownloadEvent::Chunk(5));
    assert_eq!(state, DownloadState::Done);
    assert!(matches!(action, DownloadAction::Discard { limit: 8 }));
    assert!(!state.expects(&DownloadEvent::BodyEnd));
}

#[test]
fn a_finished_download_is_reported_with_its_permalink() {
    let mut f = file("F789");
    f.url_private = Some("https://files/F789".to_string());
    f.permalink = Some("https://example.slack.com/files/F789".to_string());
    let (state, _) = download_step(&f, None, DownloadState::Idle, DownloadEvent::Begin);
    let (state, _) = download_step(&f, None, state, DownloadEvent::Response(Some(1 << 40)));
    let (state, action) = download_step(&f, None, state, DownloadEvent::Chunk(3));
    assert!(matches!(action, DownloadAction::Write));
    assert!(state.expects(&DownloadEvent::BodyEnd));
    let (state, action) = download_step(&f, None, state, DownloadEvent::BodyEnd);
    assert_eq!(state, DownloadState::Done);
    assert!(matches!(action, DownloadAction::Finish(Some(ref p)) if p == "https://example.slack.com/files/F789"));
    f.permalink = Some("  ".to_string());
    let (_, action) = download_step(&f, None, DownloadState::Streaming(3), DownloadEvent::BodyEnd);
    assert!(matches!(action, DownloadAction::Finish(None)));
}
