use vstd::prelude::*;

use crate::text::str_eq;

verus! {

/// The kind of feed behind a subscription entry.
#[derive(Clone, Copy, Debug, PartialEq, Eq, Structural)]
pub enum EntryKind {
    Rss,
    Atom,
}

/// Why a document could not be parsed.
#[derive(Clone, Copy, Debug, PartialEq, Eq, Structural)]
pub enum ParseError {
    /// The text is not well-formed subscription-list markup.
    Malformed,
    /// The opening tag carries a version this model does not understand.
    UnsupportedVersion,
}

/// Why a mutation of the document was refused.
#[derive(Clone, Copy, Debug, PartialEq, Eq, Structural)]
pub enum RepoError {
    /// A required field of the new entry was empty.
    InvalidInput,
}

/// One feed subscription: a display name, the feed address that identifies
/// it, an optional homepage, and the feed kind.
#[derive(Clone, Debug, PartialEq, Eq)]
pub struct Entry {
    pub title: String,
    pub feed_url: String,
    pub site_url: Option<String>,
    pub kind: EntryKind,
}

/// Mathematical model of an `Entry`.
pub ghost struct EntryView {
    pub title: Seq<char>,
    pub feed_url: Seq<char>,
    pub site_url: Option<Seq<char>>,
    pub kind: EntryKind,
}

impl View for Entry {
    type V = EntryView;

    open spec fn view(&self) -> EntryView {
        EntryView {
            title: self.title@,
            feed_url: self.feed_url@,
            site_url: match self.site_url {
                Some(s) => Some(s@),
                None => None,
            },
            kind: self.kind,
        }
    }
}

/// The ordered subscription list together with its document metadata.
#[derive(Clone, Debug, PartialEq, Eq)]
pub struct Document {
    pub version: String,
    pub title: String,
    pub entries: Vec<Entry>,
}

/// Mathematical model of a `Document`.
pub ghost struct DocView {
    pub version: Seq<char>,
    pub title: Seq<char>,
    pub entries: Seq<EntryView>,
}

impl View for Document {
    type V = DocView;

    open spec fn view(&self) -> DocView {
        DocView {
            version: self.version@,
            title: self.title@,
            entries: self.entries@.map_values(|e: Entry| e@),
        }
    }
}

/// The document versions this model accepts.
pub open spec fn supported_version(v: Seq<char>) -> bool {
    v == "1.0"@ || v == "1.1"@ || v == "2.0"@
}

/// Whether some entry of `es` carries the feed address `key`.
pub open spec fn has_feed(es: Seq<EntryView>, key: Seq<char>) -> bool {
    exists|i: int| 0 <= i < es.len() && es[i].feed_url == key
}

impl DocView {
    /// Well-formedness: a supported version, every entry keyed by a
    /// non-empty feed address, and no two entries sharing one.
    pub open spec fn wf(self) -> bool {
        &&& supported_version(self.version)
        &&& forall|i: int| 0 <= i < self.entries.len() ==> self.entries[i].feed_url.len() > 0
        &&& forall|i: int, j: int|
            0 <= i < j < self.entries.len() ==> self.entries[i].feed_url
                != self.entries[j].feed_url
    }
}

/// What `Document::add` does to the model: refuse empty required fields,
/// leave the document alone when the feed address is already present, and
/// otherwise append the new entry at the end.
pub open spec fn add_spec(
    d: DocView,
    title: Seq<char>,
    feed_url: Seq<char>,
    site_url: Option<Seq<char>>,
) -> (DocView, Result<(), RepoError>) {
    if title.len() == 0 || feed_url.len() == 0 {
        (d, Err(RepoError::InvalidInput))
    } else if has_feed(d.entries, feed_url) {
        (d, Ok(()))
    } else {
        (
            DocView {
                entries: d.entries.push(
                    EntryView { title, feed_url, site_url, kind: EntryKind::Rss },
                ),
                ..d
            },
            Ok(()),
        )
    }
}

/// The predicate deciding which entries a removal keeps: those whose title
/// (legacy mode) or feed address differs from `key`.
pub open spec fn keep_pred(by_title: bool, key: Seq<char>) -> spec_fn(EntryView) -> bool {
    if by_title {
        |e: EntryView| e.title != key
    } else {
        |e: EntryView| e.feed_url != key
    }
}

/// What `Document::remove` does to the model: drop every entry whose feed
/// address equals `key` and report how many were dropped.
pub open spec fn remove_spec(d: DocView, key: Seq<char>) -> (DocView, int) {
    let kept = d.entries.filter(keep_pred(false, key));
    (DocView { entries: kept, ..d }, d.entries.len() - kept.len())
}

/// What `Document::remove_by_title` does to the model; the legacy alias
/// keyed by the display name instead of the feed address.
pub open spec fn remove_by_title_spec(d: DocView, key: Seq<char>) -> (DocView, int) {
    let kept = d.entries.filter(keep_pred(true, key));
    (DocView { entries: kept, ..d }, d.entries.len() - kept.len())
}

impl Document {
    /// Append a subscription. Empty required fields are refused; an entry
    /// whose feed address is already present leaves the document unchanged
    /// and still counts as success, so that adding is idempotent.
    pub fn add(&mut self, title: &str, feed_url: &str, site_url: Option<&str>) -> (r: Result<
        (),
        RepoError,
    >)
        ensures
            final(self)@ == add_spec(old(self)@, title@, feed_url@, view_opt(site_url)).0,
            r == add_spec(old(self)@, title@, feed_url@, view_opt(site_url)).1,
            old(self)@.wf() ==> final(self)@.wf(),
    {
        if title.unicode_len() == 0 || feed_url.unicode_len() == 0 {
            return Err(RepoError::InvalidInput);
        }
        let mut i: usize = 0;
        while i < self.entries.len()
            invariant
                i <= self.entries.len(),
                title@.len() > 0,
                feed_url@.len() > 0,
                self == old(self),
                forall|j: int| 0 <= j < i ==> self@.entries[j].feed_url != feed_url@,
            decreases self.entries.len() - i,
        {
            if str_eq(self.entries[i].feed_url.as_str(), feed_url) {
                proof {
                    assert(self@.entries[i as int] == self.entries@[i as int]@);
                    assert(self@.entries[i as int].feed_url == feed_url@);
                    assert(has_feed(self@.entries, feed_url@));
                }
                return Ok(());
            }
            i += 1;
        }
        assert(!has_feed(self@.entries, feed_url@));
        let entry = Entry {
            title: title.to_owned(),
            feed_url: feed_url.to_owned(),
            site_url: match site_url {
                Some(s) => Some(s.to_owned()),
                None => None,
            },
            kind: EntryKind::Rss,
        };
        self.entries.push(entry);
        proof {
            assert(self@.entries =~= add_spec(
                old(self)@,
                title@,
                feed_url@,
                view_opt(site_url),
            ).0.entries);
            if old(self)@.wf() {
                assert(final(self)@.wf());
            }
        }
        Ok(())
    }

    /// Remove every entry whose feed address equals `key`; the count of
    /// removed entries is reported, `Ok(0)` when none matched.
    pub fn remove(&mut self, key: &str) -> (r: Result<usize, RepoError>)
        ensures
            final(self)@ == remove_spec(old(self)@, key@).0,
            r == Ok::<usize, RepoError>(remove_spec(old(self)@, key@).1 as usize),
            old(self)@.wf() ==> final(self)@.wf(),
    {
        let n = remove_where(&mut self.entries, key, false);
        proof {
            let kept = old(self)@.entries.filter(keep_pred(false, key@));
            assert(final(self)@ == remove_spec(old(self)@, key@).0);
            if old(self)@.wf() {
                assert(kept == old(self)@.entries.filter(keep_pred(false, key@)));
                lemma_filter_wf(old(self)@, kept);
            }
        }
        Ok(n)
    }

    /// Legacy alias: remove every entry whose display name equals `key`.
    pub fn remove_by_title(&mut self, key: &str) -> (r: Result<usize, RepoError>)
        ensures
            final(self)@ == remove_by_title_spec(old(self)@, key@).0,
            r == Ok::<usize, RepoError>(remove_by_title_spec(old(self)@, key@).1 as usize),
            old(self)@.wf() ==> final(self)@.wf(),
    {
        let n = remove_where(&mut self.entries, key, true);
        proof {
            let kept = old(self)@.entries.filter(keep_pred(true, key@));
            assert(final(self)@ == remove_by_title_spec(old(self)@, key@).0);
            if old(self)@.wf() {
                assert(kept == old(self)@.entries.filter(keep_pred(true, key@)));
                lemma_filter_wf(old(self)@, kept);
            }
        }
        Ok(n)
    }

    /// Exact-match lookup by feed address.
    pub fn find(&self, key: &str) -> (r: Option<&Entry>)
        ensures
            match r {
                Some(e) => self@.entries.contains(e@) && e@.feed_url == key@,
                None => !has_feed(self@.entries, key@),
            },
    {
        let mut i: usize = 0;
        while i < self.entries.len()
            invariant
                i <= self.entries.len(),
                forall|j: int| 0 <= j < i ==> self@.entries[j].feed_url != key@,
            decreases self.entries.len() - i,
        {
            if str_eq(self.entries[i].feed_url.as_str(), key) {
                proof {
                    assert(self@.entries.contains(self@.entries[i as int]));
                }
                return Some(&self.entries[i]);
            }
            i += 1;
        }
        None
    }
}

/// The view of an optional string slice.
pub open spec fn view_opt(s: Option<&str>) -> Option<Seq<char>> {
    match s {
        Some(s) => Some(s@),
        None => None,
    }
}

/// Drop the entries matching `key`, by title when `by_title` is set and by
/// feed address otherwise, keeping the order of the rest.
fn remove_where(entries: &mut Vec<Entry>, key: &str, by_title: bool) -> (n: usize)
    ensures
        final(entries)@.map_values(|e: Entry| e@) == old(entries)@.map_values(
            |e: Entry| e@,
        ).filter(keep_pred(by_title, key@)),
        n == old(entries)@.len() - final(entries)@.len(),
{
    let ghost pred = keep_pred(by_title, key@);
    let ghost all = entries@.map_values(|e: Entry| e@);
    let mut kept: Vec<Entry> = Vec::new();
    let mut i: usize = 0;
    assert(all.subrange(0, 0).filter(pred) =~= Seq::<EntryView>::empty());
    while i < entries.len()
        invariant
            i <= entries.len(),
            pred == keep_pred(by_title, key@),
            all == entries@.map_values(|e: Entry| e@),
            kept@.map_values(|e: Entry| e@) == all.subrange(0, i as int).filter(pred),
            kept@.len() <= i,
        decreases entries.len() - i,
    {
        let keep = if by_title {
            !str_eq(entries[i].title.as_str(), key)
        } else {
            !str_eq(entries[i].feed_url.as_str(), key)
        };
        proof {
            let sub = all.subrange(0, i as int);
            let sub1 = all.subrange(0, i + 1 as int);
            assert(sub1.drop_last() =~= sub);
            assert(sub1.last() == all[i as int]);
            reveal_with_fuel(Seq::<EntryView>::filter, 2);
            assert(sub1.filter(pred) == if pred(all[i as int]) {
                sub.filter(pred).push(all[i as int])
            } else {
                sub.filter(pred)
            });
            assert(entries@[i as int]@ == all[i as int]);
            if by_title {
                assert(pred =~= (|e: EntryView| e.title != key@));
                assert(pred(all[i as int]) == (all[i as int].title != key@));
            } else {
                assert(pred =~= (|e: EntryView| e.feed_url != key@));
                assert(pred(all[i as int]) == (all[i as int].feed_url != key@));
            }
            assert(keep == pred(all[i as int]));
        }
        if keep {
            let e = &entries[i];
            let copy = Entry {
                title: e.title.clone(),
                feed_url: e.feed_url.clone(),
                site_url: match &e.site_url {
                    Some(s) => Some(s.clone()),
                    None => None,
                },
                kind: e.kind,
            };
            assert(copy@ == all[i as int]);
            kept.push(copy);
            proof {
                assert(entries@[i as int]@ == all[i as int]);
                assert(kept@.map_values(|e: Entry| e@) =~= all.subrange(0, i + 1 as int).filter(
                    pred,
                ));
            }
        } else {
            assert(kept@.map_values(|e: Entry| e@) =~= all.subrange(0, i + 1 as int).filter(pred));
        }
        i += 1;
    }
    assert(all.subrange(0, all.len() as int) =~= all);
    let n = entries.len() - kept.len();
    *entries = kept;
    n
}

/// A filtered entry list keeps well-formedness: every kept entry occurs in
/// the original, and the filter keeps at most one entry per feed address
/// because the original had at most one.
proof fn lemma_filter_wf(d: DocView, kept: Seq<EntryView>)
    requires
        d.wf(),
        exists|p: spec_fn(EntryView) -> bool| kept == #[trigger] d.entries.filter(p),
    ensures
        (DocView { entries: kept, ..d }).wf(),
{
    let p = choose|p: spec_fn(EntryView) -> bool| kept == #[trigger] d.entries.filter(p);
    lemma_filter_structure(d.entries, p);
    assert forall|k: int| 0 <= k < kept.len() implies kept[k].feed_url.len() > 0 by {
        assert(d.entries.contains(kept[k]));
        let i = choose|i: int| 0 <= i < d.entries.len() && d.entries[i] == kept[k];
    }
    assert forall|k: int, l: int| 0 <= k < l < kept.len() implies kept[k].feed_url
        != kept[l].feed_url by {
        let (i, j) = choose|i: int, j: int|
            0 <= i < j < d.entries.len() && d.entries[i] == kept[k] && d.entries[j] == kept[l];
    }
}

/// The positions of a filtered sequence map monotonically into the source:
/// every pair of kept entries comes from a distinct pair of source entries
/// in the same order.
proof fn lemma_filter_structure(es: Seq<EntryView>, p: spec_fn(EntryView) -> bool)
    ensures
        forall|k: int| 0 <= k < es.filter(p).len() ==> es.contains(#[trigger] es.filter(p)[k]),
        forall|k: int, l: int|
            0 <= k < l < es.filter(p).len() ==> exists|i: int, j: int|
                0 <= i < j < es.len() && es[i] == #[trigger] es.filter(p)[k] && es[j]
                    == #[trigger] es.filter(p)[l],
    decreases es.len(),
{
    reveal_with_fuel(Seq::<EntryView>::filter, 2);
    if es.len() > 0 {
        let head = es.drop_last();
        lemma_filter_structure(head, p);
        assert forall|k: int| 0 <= k < es.filter(p).len() implies es.contains(
            #[trigger] es.filter(p)[k],
        ) by {
            if k < head.filter(p).len() {
                assert(head.contains(head.filter(p)[k]));
                let i = choose|i: int| 0 <= i < head.len() && head[i] == head.filter(p)[k];
                assert(es[i] == es.filter(p)[k]);
            } else {
                assert(es[es.len() - 1] == es.filter(p)[k]);
            }
        }
        assert forall|k: int, l: int| 0 <= k < l < es.filter(p).len() implies exists|i: int, j: int|
            0 <= i < j < es.len() && es[i] == #[trigger] es.filter(p)[k] && es[j]
                == #[trigger] es.filter(p)[l] by {
            if l < head.filter(p).len() {
                let (i, j) = choose|i: int, j: int|
                    0 <= i < j < head.len() && head[i] == #[trigger] head.filter(p)[k] && head[j]
                        == #[trigger] head.filter(p)[l];
                assert(es[i] == es.filter(p)[k] && es[j] == es.filter(p)[l]);
            } else {
                assert(es.filter(p)[l] == es[es.len() - 1]);
                if k < head.filter(p).len() {
                    assert(head.contains(head.filter(p)[k]));
                    let i = choose|i: int| 0 <= i < head.len() && head[i] == head.filter(p)[k];
                    assert(0 <= i < es.len() - 1 && es[i] == es.filter(p)[k] && es[es.len() - 1]
                        == es.filter(p)[l]);
                }
            }
        }
    }
}

/// The built-in seed text for a fresh installation: one example entry.
pub const DEFAULT_CONFIG_FILE: &'static str = "
<opml version=\"2.0\">
    <head>
        <title>Your Subscription List</title>
    </head>
    <body>
        <outline text=\"24 ways\" htmlUrl=\"http://24ways.org/\" type=\"rss\" xmlUrl=\"http://feeds.feedburner.com/24ways\"/>
    </body>
</opml>
";

/// The model of the built-in seed document.
pub open spec fn default_doc() -> DocView {
    DocView {
        version: "2.0"@,
        title: "Your Subscription List"@,
        entries: seq![
            EntryView {
                title: "24 ways"@,
                feed_url: "http://feeds.feedburner.com/24ways"@,
                site_url: Some("http://24ways.org/"@),
                kind: EntryKind::Rss,
            },
        ],
    }
}

/// The built-in seed document, used to bootstrap a new installation.
pub fn default_document() -> (d: Document)
    ensures
        d@ == default_doc(),
        d@.wf(),
{
    let mut entries: Vec<Entry> = Vec::new();
    entries.push(
        Entry {
            title: String::from_str("24 ways"),
            feed_url: String::from_str("http://feeds.feedburner.com/24ways"),
            site_url: Some(String::from_str("http://24ways.org/")),
            kind: EntryKind::Rss,
        },
    );
    let d = Document {
        version: String::from_str("2.0"),
        title: String::from_str("Your Subscription List"),
        entries,
    };
    proof {
        assert(d@.entries =~= default_doc().entries);
        reveal_strlit("http://feeds.feedburner.com/24ways");
        assert(d@.wf());
    }
    d
}

/// The predicate picking the entries that carry the feed address `key`.
pub open spec fn feed_eq(key: Seq<char>) -> spec_fn(EntryView) -> bool {
    |e: EntryView| e.feed_url == key
}

/// How many entries of `es` carry the feed address `key`.
pub open spec fn count_feed(es: Seq<EntryView>, key: Seq<char>) -> int {
    es.filter(feed_eq(key)).len() as int
}

/// On a list without duplicate feed addresses, a feed address occurs once
/// when some entry carries it, and otherwise not at all.
proof fn lemma_count_feed(es: Seq<EntryView>, key: Seq<char>)
    requires
        forall|i: int, j: int| 0 <= i < j < es.len() ==> es[i].feed_url != es[j].feed_url,
    ensures
        count_feed(es, key) == if has_feed(es, key) {
            1int
        } else {
            0int
        },
    decreases es.len(),
{
    reveal_with_fuel(Seq::<EntryView>::filter, 2);
    let p = feed_eq(key);
    assert(p =~= (|e: EntryView| e.feed_url == key));
    if es.len() == 0 {
        if has_feed(es, key) {
            let i = choose|i: int| 0 <= i < es.len() && es[i].feed_url == key;
        }
    } else {
        let head = es.drop_last();
        let last = es.last();
        lemma_count_feed(head, key);
        assert(es.filter(p) == if p(last) {
            head.filter(p).push(last)
        } else {
            head.filter(p)
        });
        if last.feed_url == key {
            assert(!has_feed(head, key)) by {
                if has_feed(head, key) {
                    let i = choose|i: int| 0 <= i < head.len() && head[i].feed_url == key;
                    assert(es[i].feed_url == es[es.len() - 1].feed_url);
                }
            }
            assert(es[es.len() - 1].feed_url == key);
            assert(has_feed(es, key));
        } else {
            assert(has_feed(es, key) == has_feed(head, key)) by {
                if has_feed(es, key) {
                    let i = choose|i: int| 0 <= i < es.len() && es[i].feed_url == key;
                    assert(head[i] == es[i]);
                }
                if has_feed(head, key) {
                    let i = choose|i: int| 0 <= i < head.len() && head[i].feed_url == key;
                    assert(es[i].feed_url == key);
                }
            }
        }
    }
}

/// Adding is idempotent: after one add of a feed address to a well-formed
/// document, exactly one entry carries it, and adding it again, under any
/// title or site address, succeeds and changes nothing.
pub proof fn lemma_add_idempotent(
    d: DocView,
    title: Seq<char>,
    feed_url: Seq<char>,
    site_url: Option<Seq<char>>,
    title2: Seq<char>,
    site_url2: Option<Seq<char>>,
)
    requires
        d.wf(),
        title.len() > 0,
        title2.len() > 0,
        feed_url.len() > 0,
    ensures
        count_feed(add_spec(d, title, feed_url, site_url).0.entries, feed_url) == 1,
        add_spec(add_spec(d, title, feed_url, site_url).0, title2, feed_url, site_url2)
            == (add_spec(d, title, feed_url, site_url).0, Ok::<(), RepoError>(())),
{
    let d1 = add_spec(d, title, feed_url, site_url).0;
    lemma_add_preserves_uniqueness(d, title, feed_url, site_url);
    if has_feed(d.entries, feed_url) {
        assert(d1 == d);
    } else {
        assert(d1.entries[d1.entries.len() - 1].feed_url == feed_url);
        assert(has_feed(d1.entries, feed_url));
    }
    assert(has_feed(d1.entries, feed_url));
    lemma_count_feed(d1.entries, feed_url);
}

/// Uniqueness: adding to a well-formed document never yields two entries
/// sharing a feed address, so it holds after any sequence of adds.
pub proof fn lemma_add_preserves_uniqueness(
    d: DocView,
    title: Seq<char>,
    feed_url: Seq<char>,
    site_url: Option<Seq<char>>,
)
    requires
        d.wf(),
    ensures
        add_spec(d, title, feed_url, site_url).0.wf(),
{
    let d1 = add_spec(d, title, feed_url, site_url).0;
    if title.len() == 0 || feed_url.len() == 0 {
    } else if has_feed(d.entries, feed_url) {
    } else {
        assert forall|i: int, j: int| 0 <= i < j < d1.entries.len() implies d1.entries[i].feed_url
            != d1.entries[j].feed_url by {
            if j == d1.entries.len() - 1 {
                assert(d1.entries[i] == d.entries[i]);
                if d.entries[i].feed_url == feed_url {
                    assert(has_feed(d.entries, feed_url));
                }
            }
        }
    }
}

/// Removing an absent feed address reports zero removals and leaves the
/// document unchanged.
pub proof fn lemma_remove_absent(d: DocView, key: Seq<char>)
    requires
        !has_feed(d.entries, key),
    ensures
        remove_spec(d, key) == (d, 0int),
{
    lemma_filter_keeps_all(d.entries, key);
    assert(remove_spec(d, key).0 == d);
}

/// A removal filter that matches nothing keeps every entry.
proof fn lemma_filter_keeps_all(es: Seq<EntryView>, key: Seq<char>)
    requires
        !has_feed(es, key),
    ensures
        es.filter(keep_pred(false, key)) == es,
    decreases es.len(),
{
    reveal_with_fuel(Seq::<EntryView>::filter, 2);
    let p = keep_pred(false, key);
    assert(p =~= (|e: EntryView| e.feed_url != key));
    if es.len() == 0 {
        assert(es.filter(p) =~= es);
    } else {
        let head = es.drop_last();
        assert(!has_feed(head, key)) by {
            if has_feed(head, key) {
                let i = choose|i: int| 0 <= i < head.len() && head[i].feed_url == key;
                assert(es[i].feed_url == key);
            }
        }
        lemma_filter_keeps_all(head, key);
        assert(es[es.len() - 1].feed_url != key) by {
            if es.last().feed_url == key {
                assert(has_feed(es, key));
            }
        }
        assert(p(es.last()));
        assert(es.filter(p) =~= es);
    }
}

impl Document {
    /// Whether the document is well-formed: a supported version and
    /// pairwise-distinct, non-empty feed addresses.
    pub fn validate(&self) -> (r: bool)
        ensures
            r == self@.wf(),
    {
        let sv = str_eq(self.version.as_str(), "1.0") || str_eq(self.version.as_str(), "1.1")
            || str_eq(self.version.as_str(), "2.0");
        if !sv {
            return false;
        }
        let n = self.entries.len();
        let mut i: usize = 0;
        while i < n
            invariant
                i <= n,
                n == self.entries.len(),
                supported_version(self@.version),
                forall|a: int| 0 <= a < i ==> self@.entries[a].feed_url.len() > 0,
                forall|a: int, b: int|
                    0 <= a < b < self.entries.len() && a < i ==> self@.entries[a].feed_url
                        != self@.entries[b].feed_url,
            decreases n - i,
        {
            if self.entries[i].feed_url.as_str().unicode_len() == 0 {
                return false;
            }
            let mut j: usize = i + 1;
            while j < n
                invariant
                    i < j <= n,
                    n == self.entries.len(),
                    forall|b: int| i < b < j ==> self@.entries[i as int].feed_url
                        != self@.entries[b].feed_url,
                decreases n - j,
            {
                if str_eq(self.entries[i].feed_url.as_str(), self.entries[j].feed_url.as_str()) {
                    proof {
                        assert(self@.entries[i as int].feed_url == self@.entries[j as int].feed_url);
                    }
                    return false;
                }
                j += 1;
            }
            i += 1;
        }
        true
    }
}

} // verus!
