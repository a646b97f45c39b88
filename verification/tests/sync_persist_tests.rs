use rssss::command::{Auto, PathPlan};
use rssss::document::DEFAULT_CONFIG_FILE;
use rssss::opml_client::RssClient;
use rssss::persist::{FileModel, IoError};
use rssss::sync::{SyncError, SyncRepo, TransportOutcome};

#[test]
fn bootstrap_creates_then_is_a_no_op() {
    let mut file = FileModel::missing();
    assert_eq!(file.load(), Err(IoError::NotFound));
    file.ensure_default(DEFAULT_CONFIG_FILE);
    assert_eq!(file.load().unwrap(), DEFAULT_CONFIG_FILE);
    // The second run must leave the content exactly as it was.
    file.ensure_default("something else entirely");
    assert_eq!(file.load().unwrap(), DEFAULT_CONFIG_FILE);
}

#[test]
fn save_replaces_the_content() {
    let mut file = FileModel::missing();
    file.save("first");
    assert_eq!(file.load().unwrap(), "first");
    file.save("second");
    assert_eq!(file.load().unwrap(), "second");
}

#[test]
fn ensure_initialized_is_idempotent() {
    let mut repo = SyncRepo::untracked();
    assert!(!repo.initialized);
    repo.ensure_initialized();
    assert!(repo.initialized);
    assert_eq!(repo.branch, "main");
    repo.ensure_initialized();
    assert!(repo.initialized);
    assert_eq!(repo.branch, "main");
    assert_eq!(repo.history.len(), 0);
}

#[test]
fn commit_requires_initialization() {
    let mut repo = SyncRepo::untracked();
    assert_eq!(
        repo.commit("content", None, "someone", "default.xml"),
        Err(SyncError::NotInitialized)
    );
}

#[test]
fn commit_twice_without_change_is_refused() {
    let mut repo = SyncRepo::untracked();
    repo.ensure_initialized();
    let id = repo.commit("content v1", None, "someone", "default.xml").unwrap();
    assert_eq!(id, 0);
    // No intervening change: the second commit must not produce an empty
    // checkpoint.
    assert_eq!(
        repo.commit("content v1", None, "someone", "default.xml"),
        Err(SyncError::NothingToCommit)
    );
    assert_eq!(repo.history.len(), 1);
    let id2 = repo.commit("content v2", None, "someone", "default.xml").unwrap();
    assert_eq!(id2, 1);
    assert_eq!(repo.history.len(), 2);
}

#[test]
fn commit_messages_default_to_update_filename() {
    let mut repo = SyncRepo::untracked();
    repo.ensure_initialized();
    repo.commit("a", None, "someone", "default.xml").unwrap();
    repo.commit("b", Some("custom words".to_string()), "someone", "default.xml")
        .unwrap();
    assert_eq!(repo.history[0].message, "Update default.xml");
    assert_eq!(repo.history[0].author, "someone");
    assert_eq!(repo.history[1].message, "custom words");
}

#[test]
fn push_records_the_remote_and_reports_failures() {
    let mut repo = SyncRepo::untracked();
    repo.ensure_initialized();
    repo.commit("a", None, "someone", "default.xml").unwrap();
    let auth = repo.push(
        "rssss",
        "https://github.com/DaviRain-Su/rssss.git",
        TransportOutcome::AuthFailure,
    );
    assert_eq!(auth, Err(SyncError::AuthFailed));
    assert_eq!(
        repo.remote,
        Some((
            "rssss".to_string(),
            "https://github.com/DaviRain-Su/rssss.git".to_string()
        ))
    );
    assert_eq!(repo.pushed, 0);
    let rejected = repo.push(
        "rssss",
        "https://github.com/DaviRain-Su/rssss.git",
        TransportOutcome::RemoteRejected,
    );
    assert_eq!(rejected, Err(SyncError::Rejected));
    assert_eq!(repo.pushed, 0);
    let delivered = repo.push(
        "rssss",
        "https://github.com/DaviRain-Su/rssss.git",
        TransportOutcome::Delivered,
    );
    assert_eq!(delivered, Ok(()));
    assert_eq!(repo.pushed, 1);
}

#[test]
fn push_requires_initialization() {
    let mut repo = SyncRepo::untracked();
    assert_eq!(
        repo.push("rssss", "https://example.com/r.git", TransportOutcome::Delivered),
        Err(SyncError::NotInitialized)
    );
}

#[test]
fn auto_plan_decides_the_bootstrap_path() {
    let explicit = Auto { config_path: Some("/tmp/feeds.xml".to_string()) };
    assert_eq!(explicit.plan(true), PathPlan::UseExplicit);
    assert_eq!(explicit.plan(false), PathPlan::UseExplicit);
    let default = Auto { config_path: None };
    assert_eq!(default.plan(true), PathPlan::UseExisting);
    assert_eq!(default.plan(false), PathPlan::CreateDefault);
}

#[test]
fn rss_client_wraps_the_repository_operations() {
    let mut client = RssClient::new(DEFAULT_CONFIG_FILE);
    client
        .add_subscription("Example Blog", "https://example.com", "https://example.com/feed")
        .unwrap();
    assert_eq!(client.document.entries.len(), 2);
    assert_eq!(
        client.document.entries[1].site_url.as_deref(),
        Some("https://example.com")
    );
    client.remove_subscription_by_xml_url("http://feeds.feedburner.com/24ways");
    assert_eq!(client.document.entries.len(), 1);
    assert_eq!(client.document.entries[0].title, "Example Blog");
    let text = client.document.serialize();
    let reparsed = RssClient::new(&text);
    assert_eq!(reparsed.document, client.document);
}
