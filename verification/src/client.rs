use vstd::prelude::*;

use crate::document::{
    add_spec, remove_by_title_spec, DocView, Document, ParseError, RepoError,
};
use crate::rss::{parse_rss_spec, rss_doc_text};

verus! {

/// The channel-flavored client: the same subscription document, read and
/// written in the RSS-channel form, with the legacy title-keyed removal.
pub struct RssSourceClient {
    pub channel: Document,
}

impl RssSourceClient {
    /// Build a client from a channel text.
    pub fn try_from(contents: &str) -> (r: Result<RssSourceClient, ParseError>)
        ensures
            match r {
                Ok(c) => parse_rss_spec(contents@) == Ok::<DocView, ParseError>(c.channel@)
                    && c.channel@.wf(),
                Err(e) => parse_rss_spec(contents@) == Err::<DocView, ParseError>(e),
            },
    {
        match Document::parse_rss(contents) {
            Ok(d) => Ok(RssSourceClient { channel: d }),
            Err(e) => Err(e),
        }
    }

    /// Whether the held document is well-formed.
    pub fn validate(&self) -> (r: bool)
        ensures
            r == self.channel@.wf(),
    {
        self.channel.validate()
    }

    /// Add one item: the display title, the feed address, and the
    /// description text, kept in the entry's optional site field.
    pub fn add_item(&mut self, title: &str, link: &str, description: &str) -> (r: Result<
        (),
        RepoError,
    >)
        ensures
            final(self).channel@ == add_spec(
                old(self).channel@,
                title@,
                link@,
                Some(description@),
            ).0,
            r == add_spec(old(self).channel@, title@, link@, Some(description@)).1,
            old(self).channel@.wf() ==> final(self).channel@.wf(),
    {
        self.channel.add(title, link, Some(description))
    }

    /// Remove every item whose display title equals `title`; the legacy
    /// alias keyed by the title instead of the feed address.
    pub fn remove_item(&mut self, title: &str)
        ensures
            final(self).channel@ == remove_by_title_spec(old(self).channel@, title@).0,
            old(self).channel@.wf() ==> final(self).channel@.wf(),
    {
        let _ = self.channel.remove_by_title(title);
    }

    /// The canonical channel text of the held document; what the original
    /// write-out produced before handing it to the file.
    pub fn to_text(&self) -> (r: String)
        ensures
            r@ == rss_doc_text(self.channel@),
    {
        self.channel.serialize_rss()
    }
}

} // verus!
