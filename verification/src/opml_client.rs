use vstd::prelude::*;

use crate::document::{
    add_spec, remove_spec, DocView, Document, ParseError, RepoError,
};
use crate::opml::parse_spec;

verus! {

/// The feed-list client: a parsed subscription document together with the
/// repository operations on it. Reading and writing the file around it is
/// the caller's business.
pub struct RssClient {
    pub document: Document,
}

impl RssClient {
    /// Build a client from a document text. The text must parse; the
    /// construction does not survive a malformed document.
    pub fn new(opml_str: &str) -> (r: RssClient)
        requires
            parse_spec(opml_str@) matches Ok(_),
        ensures
            parse_spec(opml_str@) == Ok::<DocView, ParseError>(r.document@),
            r.document@.wf(),
    {
        match Document::parse(opml_str) {
            Ok(d) => RssClient { document: d },
            Err(_) => vstd::pervasive::unreached(),
        }
    }

    /// Add one subscription: the display text, the homepage address, and
    /// the feed address that identifies it.
    pub fn add_subscription(&mut self, text: &str, html_url: &str, xml_url: &str) -> (r: Result<
        (),
        RepoError,
    >)
        ensures
            final(self).document@ == add_spec(
                old(self).document@,
                text@,
                xml_url@,
                Some(html_url@),
            ).0,
            r == add_spec(old(self).document@, text@, xml_url@, Some(html_url@)).1,
            old(self).document@.wf() ==> final(self).document@.wf(),
    {
        self.document.add(text, xml_url, Some(html_url))
    }

    /// Remove every subscription carrying the feed address `xml_url`.
    pub fn remove_subscription_by_xml_url(&mut self, xml_url: &str)
        ensures
            final(self).document@ == remove_spec(old(self).document@, xml_url@).0,
            old(self).document@.wf() ==> final(self).document@.wf(),
    {
        let _ = self.document.remove(xml_url);
    }
}

} // verus!
