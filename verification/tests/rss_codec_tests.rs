use rssss::client::RssSourceClient;
use rssss::document::{Document, ParseError, default_document};

const CHANNEL_SEED: &str = "<rss version=\"2.0\">\n<channel>\n<title>Your Subscription List</title>\n<item>\n<title>24 ways</title>\n<link>http://feeds.feedburner.com/24ways</link>\n<description>http://24ways.org/</description>\n</item>\n</channel>\n</rss>\n";

#[test]
fn serialize_rss_default_document_exactly() {
    let doc = default_document();
    assert_eq!(doc.serialize_rss(), CHANNEL_SEED);
}

#[test]
fn rss_round_trip_after_mutations() {
    let mut doc = default_document();
    doc.add("Example Blog", "https://example.com/feed", Some("https://example.com"))
        .unwrap();
    doc.add("No Description", "https://nodesc.example/feed", None).unwrap();
    let text = doc.serialize_rss();
    let back = Document::parse_rss(&text).unwrap();
    assert_eq!(back, doc);
}

#[test]
fn parse_rss_rejects_bad_input() {
    assert_eq!(Document::parse_rss(""), Err(ParseError::Malformed));
    assert_eq!(Document::parse_rss("plain words"), Err(ParseError::Malformed));
    let wrong_version = "<rss version=\"0.3\">\n<channel>\n<title>T</title>\n</channel>\n</rss>\n";
    assert_eq!(Document::parse_rss(wrong_version), Err(ParseError::UnsupportedVersion));
    let unclosed_item = "<rss version=\"2.0\">\n<channel>\n<title>T</title>\n<item>\n<title>A</title>\n<link>http://a/</link>\n</channel>\n</rss>\n";
    assert_eq!(Document::parse_rss(unclosed_item), Err(ParseError::Malformed));
}

#[test]
fn parse_rss_skips_unusable_items() {
    let text = "<rss version=\"2.0\">\n<channel>\n<title>T</title>\n<item>\n<title>empty link</title>\n<link></link>\n</item>\n<item>\n<title>good</title>\n<link>http://b/feed</link>\n</item>\n<item>\n<title>repeat</title>\n<link>http://b/feed</link>\n</item>\n</channel>\n</rss>\n";
    let doc = Document::parse_rss(text).unwrap();
    assert_eq!(doc.entries.len(), 1);
    assert_eq!(doc.entries[0].title, "good");
    assert!(doc.validate());
}

#[test]
fn rss_source_client_mutates_and_validates() {
    let mut client = RssSourceClient::try_from(CHANNEL_SEED).unwrap();
    assert!(client.validate());
    client
        .add_item("Example Blog", "https://example.com/feed", "an example feed")
        .unwrap();
    assert_eq!(client.channel.entries.len(), 2);
    // The legacy removal is keyed by the title.
    client.remove_item("24 ways");
    assert_eq!(client.channel.entries.len(), 1);
    assert_eq!(client.channel.entries[0].title, "Example Blog");
    let text = client.to_text();
    let back = RssSourceClient::try_from(&text).unwrap();
    assert_eq!(back.channel, client.channel);
}

#[test]
fn channel_output_is_valid_for_the_rss_crate() {
    let mut doc = default_document();
    doc.add("Example Blog", "https://example.com/feed", Some("https://example.com"))
        .unwrap();
    let text = doc.serialize_rss();
    let outside = rss::Channel::read_from(text.as_bytes()).unwrap();
    assert_eq!(outside.title(), "Your Subscription List");
    assert_eq!(outside.items().len(), 2);
    assert_eq!(outside.items()[0].title(), Some("24 ways"));
    assert_eq!(outside.items()[0].link(), Some("http://feeds.feedburner.com/24ways"));
    assert_eq!(outside.items()[1].link(), Some("https://example.com/feed"));
}
