use rssss::document::{Document, EntryKind, RepoError, default_document};

fn two_entry_doc() -> Document {
    let mut doc = default_document();
    doc.add("Example Blog", "https://example.com/feed", Some("https://example.com"))
        .unwrap();
    doc
}

#[test]
fn default_document_fields() {
    let doc = default_document();
    assert_eq!(doc.version, "2.0");
    assert_eq!(doc.title, "Your Subscription List");
    assert_eq!(doc.entries.len(), 1);
    assert_eq!(doc.entries[0].title, "24 ways");
    assert_eq!(doc.entries[0].feed_url, "http://feeds.feedburner.com/24ways");
    assert_eq!(doc.entries[0].site_url.as_deref(), Some("http://24ways.org/"));
    assert_eq!(doc.entries[0].kind, EntryKind::Rss);
}

#[test]
fn add_appends_in_order() {
    let doc = two_entry_doc();
    assert_eq!(doc.entries.len(), 2);
    assert_eq!(doc.entries[0].title, "24 ways");
    assert_eq!(doc.entries[1].title, "Example Blog");
    assert_eq!(doc.entries[1].feed_url, "https://example.com/feed");
    assert_eq!(doc.entries[1].site_url.as_deref(), Some("https://example.com"));
    assert_eq!(doc.entries[1].kind, EntryKind::Rss);
}

#[test]
fn add_duplicate_feed_is_idempotent() {
    let mut doc = default_document();
    doc.add("T", "http://x/feed", None).unwrap();
    let before = doc.clone();
    // A second add of the same feed address succeeds and changes nothing,
    // whatever title it comes with.
    doc.add("Another Title", "http://x/feed", Some("http://x")).unwrap();
    assert_eq!(doc, before);
    let matching = doc
        .entries
        .iter()
        .filter(|e| e.feed_url == "http://x/feed")
        .count();
    assert_eq!(matching, 1);
}

#[test]
fn add_rejects_empty_fields() {
    let mut doc = default_document();
    let before = doc.clone();
    assert_eq!(doc.add("", "http://x/feed", None), Err(RepoError::InvalidInput));
    assert_eq!(doc.add("Title", "", None), Err(RepoError::InvalidInput));
    assert_eq!(doc, before);
}

#[test]
fn remove_missing_returns_zero_and_changes_nothing() {
    let mut doc = two_entry_doc();
    let before = doc.clone();
    let removed = doc.remove("http://missing/feed").unwrap();
    assert_eq!(removed, 0);
    assert_eq!(doc, before);
}

#[test]
fn remove_present_counts_and_keeps_order() {
    let mut doc = two_entry_doc();
    let removed = doc.remove("http://feeds.feedburner.com/24ways").unwrap();
    assert_eq!(removed, 1);
    assert_eq!(doc.entries.len(), 1);
    assert_eq!(doc.entries[0].title, "Example Blog");
}

#[test]
fn remove_by_title_is_the_legacy_alias() {
    let mut doc = two_entry_doc();
    let removed = doc.remove_by_title("Example Blog").unwrap();
    assert_eq!(removed, 1);
    assert_eq!(doc.entries.len(), 1);
    assert_eq!(doc.entries[0].title, "24 ways");
    assert_eq!(doc.remove_by_title("Example Blog").unwrap(), 0);
}

#[test]
fn find_looks_up_by_feed_url() {
    let doc = two_entry_doc();
    let found = doc.find("https://example.com/feed").unwrap();
    assert_eq!(found.title, "Example Blog");
    assert!(doc.find("https://example.com").is_none());
    assert!(doc.find("").is_none());
}

#[test]
fn validate_accepts_the_seed_and_rejects_duplicates() {
    let doc = default_document();
    assert!(doc.validate());
    let mut dup = default_document();
    let copy = dup.entries[0].clone();
    dup.entries.push(copy);
    assert!(!dup.validate());
    let mut bad_version = default_document();
    bad_version.version = "3.0".to_string();
    assert!(!bad_version.validate());
}
