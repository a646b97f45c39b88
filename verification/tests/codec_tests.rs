use rssss::document::{DEFAULT_CONFIG_FILE, Document, ParseError, default_document};

const CANONICAL_SEED: &str = "<opml version=\"2.0\">\n<head>\n<title>Your Subscription List</title>\n</head>\n<body>\n<outline text=\"24 ways\" htmlUrl=\"http://24ways.org/\" type=\"rss\" xmlUrl=\"http://feeds.feedburner.com/24ways\"/>\n</body>\n</opml>\n";

#[test]
fn serialize_default_document_exactly() {
    let doc = default_document();
    assert_eq!(doc.serialize(), CANONICAL_SEED);
}

#[test]
fn parse_the_seed_text() {
    let doc = Document::parse(DEFAULT_CONFIG_FILE).unwrap();
    assert_eq!(doc, default_document());
}

#[test]
fn round_trip_after_mutations() {
    let mut doc = default_document();
    doc.add("Example Blog", "https://example.com/feed", Some("https://example.com"))
        .unwrap();
    doc.add("No Site", "https://nosite.example/feed", None).unwrap();
    doc.remove("http://feeds.feedburner.com/24ways").unwrap();
    let text = doc.serialize();
    let back = Document::parse(&text).unwrap();
    assert_eq!(back, doc);
}

#[test]
fn end_to_end_scenario() {
    // Start from the seed with its one entry, add a second one, and check
    // the serialized document holds exactly the two in that order.
    let mut doc = Document::parse(DEFAULT_CONFIG_FILE).unwrap();
    doc.add("Example Blog", "https://example.com/feed", Some("https://example.com"))
        .unwrap();
    let text = doc.serialize();
    let two = Document::parse(&text).unwrap();
    assert_eq!(two.entries.len(), 2);
    assert_eq!(two.entries[0].title, "24 ways");
    assert_eq!(two.entries[1].title, "Example Blog");
    // Removing the seed feed leaves exactly the added entry.
    let removed = doc.remove("http://feeds.feedburner.com/24ways").unwrap();
    assert_eq!(removed, 1);
    assert_eq!(doc.entries.len(), 1);
    assert_eq!(doc.entries[0].title, "Example Blog");
}

#[test]
fn parse_rejects_unsupported_version() {
    let text = "<opml version=\"3.0\">\n<head>\n<title>T</title>\n</head>\n<body>\n</body>\n</opml>\n";
    assert_eq!(Document::parse(text), Err(ParseError::UnsupportedVersion));
}

#[test]
fn parse_rejects_malformed_markup() {
    assert_eq!(Document::parse(""), Err(ParseError::Malformed));
    assert_eq!(Document::parse("not markup at all"), Err(ParseError::Malformed));
    let no_version = "<opml>\n<head>\n<title>T</title>\n</head>\n<body>\n</body>\n</opml>\n";
    assert_eq!(Document::parse(no_version), Err(ParseError::Malformed));
    let no_title = "<opml version=\"2.0\">\n<head>\n</head>\n<body>\n</body>\n</opml>\n";
    assert_eq!(Document::parse(no_title), Err(ParseError::Malformed));
    let bad_body_line = "<opml version=\"2.0\">\n<head>\n<title>T</title>\n</head>\n<body>\n<outline text=\"broken\n</body>\n</opml>\n";
    assert_eq!(Document::parse(bad_body_line), Err(ParseError::Malformed));
}

#[test]
fn parse_skips_entries_without_feed_address() {
    let text = "<opml version=\"2.0\">\n<head>\n<title>T</title>\n</head>\n<body>\n<outline text=\"no feed\" htmlUrl=\"http://a/\"/>\n<outline text=\"empty feed\" xmlUrl=\"\"/>\n<outline text=\"good\" xmlUrl=\"http://b/feed\"/>\n</body>\n</opml>\n";
    let doc = Document::parse(text).unwrap();
    assert_eq!(doc.entries.len(), 1);
    assert_eq!(doc.entries[0].title, "good");
}

#[test]
fn parse_skips_repeated_feed_address() {
    let text = "<opml version=\"2.0\">\n<head>\n<title>T</title>\n</head>\n<body>\n<outline text=\"first\" xmlUrl=\"http://b/feed\"/>\n<outline text=\"second\" xmlUrl=\"http://b/feed\"/>\n</body>\n</opml>\n";
    let doc = Document::parse(text).unwrap();
    assert_eq!(doc.entries.len(), 1);
    assert_eq!(doc.entries[0].title, "first");
    assert!(doc.validate());
}

#[test]
fn parse_tolerates_padding_blank_lines_and_attribute_order() {
    let text = "\r\n  <opml version=\"1.0\">  \n\n\t<head>\n   <title>Padded</title>\n</head>\n<body>\n  <outline xmlUrl=\"http://b/feed\" type=\"atom\" text=\"swapped\" extra=\"ignored\"/>  \n</body>\n</opml>\n\n";
    let doc = Document::parse(text).unwrap();
    assert_eq!(doc.version, "1.0");
    assert_eq!(doc.title, "Padded");
    assert_eq!(doc.entries.len(), 1);
    assert_eq!(doc.entries[0].title, "swapped");
    assert_eq!(doc.entries[0].kind, rssss::document::EntryKind::Atom);
    assert_eq!(doc.entries[0].site_url, None);
}

#[test]
fn serialized_output_is_valid_for_the_opml_crate() {
    let mut doc = default_document();
    doc.add("Example Blog", "https://example.com/feed", Some("https://example.com"))
        .unwrap();
    let text = doc.serialize();
    let outside = opml::OPML::from_str(&text).unwrap();
    assert_eq!(outside.version, "2.0");
    assert_eq!(outside.head.unwrap().title.as_deref(), Some("Your Subscription List"));
    assert_eq!(outside.body.outlines.len(), 2);
    assert_eq!(outside.body.outlines[0].text, "24 ways");
    assert_eq!(
        outside.body.outlines[0].xml_url.as_deref(),
        Some("http://feeds.feedburner.com/24ways")
    );
    assert_eq!(
        outside.body.outlines[1].xml_url.as_deref(),
        Some("https://example.com/feed")
    );
}

#[test]
fn parse_agrees_with_the_opml_crate_on_the_seed() {
    let ours = Document::parse(DEFAULT_CONFIG_FILE).unwrap();
    let outside = opml::OPML::from_str(DEFAULT_CONFIG_FILE).unwrap();
    assert_eq!(outside.body.outlines.len(), ours.entries.len());
    assert_eq!(
        outside.body.outlines[0].xml_url.as_deref(),
        Some(ours.entries[0].feed_url.as_str())
    );
}
