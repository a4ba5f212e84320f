use sampo_core::enrichment::{
    build_acknowledgment_suffix, build_commit_prefix, detect_github_repo_slug,
    detect_github_repo_slug_with_config, enrich_message, format_enriched_message,
    parse_commit_info, parse_github_url, CommitInfo, GitHubUserInfo,
};

#[test]
fn parse_github_url_https() {
    assert_eq!(
        parse_github_url("https://github.com/owner/repo.git"),
        Some("owner/repo".to_string())
    );
    assert_eq!(
        parse_github_url("https://github.com/owner/repo"),
        Some("owner/repo".to_string())
    );
}

#[test]
fn parse_github_url_ssh() {
    assert_eq!(
        parse_github_url("git@github.com:owner/repo.git"),
        Some("owner/repo".to_string())
    );
}

#[test]
fn parse_github_url_invalid() {
    assert_eq!(parse_github_url("https://gitlab.com/owner/repo.git"), None);
    assert_eq!(parse_github_url("not-a-url"), None);
}

#[test]
fn build_commit_prefix_with_repo() {
    let commit = Some(CommitInfo {
        sha: "abcd1234".to_string(),
        short_sha: "abcd".to_string(),
        author_name: "Author".to_string(),
    });

    let prefix = build_commit_prefix(&commit, Some("owner/repo"));
    assert_eq!(
        prefix,
        "[abcd](https://github.com/owner/repo/commit/abcd1234) "
    );
}

#[test]
fn build_commit_prefix_without_repo() {
    let commit = Some(CommitInfo {
        sha: "abcd1234".to_string(),
        short_sha: "abcd".to_string(),
        author_name: "Author".to_string(),
    });

    let prefix = build_commit_prefix(&commit, None);
    assert_eq!(prefix, "abcd ");
}

#[test]
fn format_enriched_message_complete() {
    let message =
        format_enriched_message("feat: add new feature", "[abcd](link) ", " — Thanks @user!");
    assert_eq!(
        message,
        "[abcd](link) feat: add new feature — Thanks @user!"
    );
}

#[test]
fn detect_slug_prefers_configuration_and_trims_remote_output() {
    assert_eq!(
        detect_github_repo_slug_with_config(Some("me/mine"), Some("git@github.com:o/r.git")),
        Some("me/mine".to_string())
    );
    assert_eq!(
        detect_github_repo_slug(Some("  https://github.com/o/r.git\n")),
        Some("o/r".to_string())
    );
    assert_eq!(detect_github_repo_slug(None), None);
    assert_eq!(parse_github_url("https://github.com/single"), None);
}

#[test]
fn commit_info_needs_exactly_three_fields() {
    let info = parse_commit_info("abcd1234\u{1f}abcd\u{1f}Test User\n").unwrap();
    assert_eq!(info.sha, "abcd1234");
    assert_eq!(info.short_sha, "abcd");
    assert_eq!(info.author_name, "Test User");
    assert!(parse_commit_info("abcd\u{1f}Test").is_none());
}

#[test]
fn acknowledgments_thank_github_users_or_authors() {
    let commit = Some(CommitInfo {
        sha: "abcd1234".to_string(),
        short_sha: "abcd".to_string(),
        author_name: "Test User".to_string(),
    });
    assert_eq!(build_acknowledgment_suffix(&commit, &None), " — Thanks Test User!");
    let first = Some(GitHubUserInfo { login: "octo".to_string(), is_first_contribution: true });
    assert_eq!(
        build_acknowledgment_suffix(&commit, &first),
        " — Thanks @octo for your first contribution 🎉!"
    );
    assert_eq!(build_acknowledgment_suffix(&None, &first), "");
    assert_eq!(
        enrich_message("fix: bug", &commit, Some("o/r"), &None, false, false),
        "fix: bug"
    );
    assert_eq!(
        enrich_message("fix: bug", &commit, None, &None, true, true),
        "abcd fix: bug — Thanks Test User!"
    );
}
