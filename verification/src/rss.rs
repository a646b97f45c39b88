use vstd::prelude::*;

use crate::document::{
    supported_version, DocView, Document, Entry, EntryKind, EntryView, ParseError,
};
use crate::text::{
    clean_lines, clean_lines_exec, contains_str, find_char, find_from, lemma_find_from,
    split_lines, split_lines_exec, str_eq, views_of,
};
use crate::opml::{join_nl, title_line};

verus! {

// ---------------------------------------------------------------------------
// Canonical serialized form: the RSS-channel flavor of the same document
// ---------------------------------------------------------------------------
/// The serialized opening element, carrying the document version.
pub open spec fn rss_open_line(v: Seq<char>) -> Seq<char> {
    "<rss version=\""@ + v + "\">"@
}

/// The serialized feed-address element of one item.
pub open spec fn link_line(l: Seq<char>) -> Seq<char> {
    "<link>"@ + l + "</link>"@
}

/// The serialized homepage element of one item.
pub open spec fn desc_line(d: Seq<char>) -> Seq<char> {
    "<description>"@ + d + "</description>"@
}

/// The serialized lines of one item.
pub open spec fn item_lines(e: EntryView) -> Seq<Seq<char>> {
    seq!["<item>"@, title_line(e.title), link_line(e.feed_url)] + (match e.site_url {
        Some(h) => seq![desc_line(h)],
        None => Seq::empty(),
    }) + seq!["</item>"@]
}

/// The serialized lines of the items from index `k` on.
pub open spec fn items_lines(es: Seq<EntryView>, k: int) -> Seq<Seq<char>>
    decreases es.len() - k,
{
    if k < 0 || k >= es.len() {
        Seq::empty()
    } else {
        item_lines(es[k]) + items_lines(es, k + 1)
    }
}

/// The serialized document, line by line.
pub open spec fn rss_doc_lines(d: DocView) -> Seq<Seq<char>> {
    seq![rss_open_line(d.version), "<channel>"@, title_line(d.title)] + items_lines(d.entries, 0)
        + seq!["</channel>"@, "</rss>"@]
}

/// The canonical channel text of a document.
pub open spec fn rss_doc_text(d: DocView) -> Seq<char> {
    join_nl(rss_doc_lines(d), 0)
}

// ---------------------------------------------------------------------------
// The channel grammar, as spec-level parsing functions
// ---------------------------------------------------------------------------
/// The version carried by an opening element, if the line is one.
pub open spec fn parse_rss_open(l: Seq<char>) -> Option<Seq<char>> {
    if l.len() >= 16 && l.subrange(0, 14) == "<rss version=\""@ && l[l.len() - 1] == '>'
        && l[l.len() - 2] == '"' && find_from(l, 14, '"') == l.len() - 2 {
        Some(l.subrange(14, l.len() - 2))
    } else {
        None
    }
}

/// The address carried by a link element, if the line is one.
pub open spec fn parse_link(l: Seq<char>) -> Option<Seq<char>> {
    if l.len() >= 13 && l.subrange(0, 6) == "<link>"@ && l.subrange(l.len() - 7, l.len() as int)
        == "</link>"@ {
        Some(l.subrange(6, l.len() - 7))
    } else {
        None
    }
}

/// The text carried by a description element, if the line is one.
pub open spec fn parse_desc(l: Seq<char>) -> Option<Seq<char>> {
    if l.len() >= 27 && l.subrange(0, 13) == "<description>"@ && l.subrange(
        l.len() - 14,
        l.len() as int,
    ) == "</description>"@ {
        Some(l.subrange(13, l.len() - 14))
    } else {
        None
    }
}

/// The text carried by a title element, if the line is one; the channel
/// flavor shares the element with the other codec.
pub open spec fn parse_item_title(l: Seq<char>) -> Option<Seq<char>> {
    crate::opml::parse_title(l)
}

/// The entries denoted by the item lines `ls[i..end]`: each item is an
/// `<item>` element holding a title, a link and an optional description,
/// one per line. An item whose link is empty, or already taken, is
/// skipped; anything else out of shape fails the parse.
pub open spec fn parse_items(
    ls: Seq<Seq<char>>,
    i: int,
    end: int,
    taken: Seq<Seq<char>>,
) -> Option<Seq<EntryView>>
    decreases end - i,
{
    if i >= end {
        Some(Seq::empty())
    } else if !(0 <= i && end <= ls.len()) {
        None
    } else if ls[i] != "<item>"@ || i + 4 > end {
        None
    } else {
        match parse_item_title(ls[i + 1]) {
            None => None,
            Some(t) => match parse_link(ls[i + 2]) {
                None => None,
                Some(l) => {
                    let site = parse_desc(ls[i + 3]);
                    let step: int = match site {
                        Some(_) => 5,
                        None => 4,
                    };
                    if i + step > end || ls[i + step - 1] != "</item>"@ {
                        None
                    } else {
                        let e = EntryView {
                            title: t,
                            feed_url: l,
                            site_url: site,
                            kind: EntryKind::Rss,
                        };
                        if l.len() == 0 || taken.contains(l) {
                            parse_items(ls, i + step, end, taken)
                        } else {
                            match parse_items(ls, i + step, end, taken.push(l)) {
                                None => None,
                                Some(r) => Some(seq![e] + r),
                            }
                        }
                    }
                },
            },
        }
    }
}

/// The document denoted by the cleaned, non-blank channel lines.
pub open spec fn parse_rss_clean_lines(ls: Seq<Seq<char>>) -> Result<DocView, ParseError> {
    let n = ls.len() as int;
    if n < 5 {
        Err(ParseError::Malformed)
    } else {
        match parse_rss_open(ls[0]) {
            None => Err(ParseError::Malformed),
            Some(v) => if !supported_version(v) {
                Err(ParseError::UnsupportedVersion)
            } else if ls[1] != "<channel>"@ {
                Err(ParseError::Malformed)
            } else {
                match parse_item_title(ls[2]) {
                    None => Err(ParseError::Malformed),
                    Some(t) => if ls[n - 2] != "</channel>"@ || ls[n - 1] != "</rss>"@ {
                        Err(ParseError::Malformed)
                    } else {
                        match parse_items(ls, 3, n - 2, Seq::empty()) {
                            None => Err(ParseError::Malformed),
                            Some(es) => Ok(DocView { version: v, title: t, entries: es }),
                        }
                    },
                }
            },
        }
    }
}

/// The document denoted by a channel text.
pub open spec fn parse_rss_spec(s: Seq<char>) -> Result<DocView, ParseError> {
    parse_rss_clean_lines(clean_lines(split_lines(s, 0), 0))
}

// ---------------------------------------------------------------------------
// Executable serializer
// ---------------------------------------------------------------------------
/// Append a tagged single-line element.
fn push_tagged(out: &mut Vec<String>, open: &str, text: &str, close: &str)
    ensures
        views_of(final(out)@) == views_of(old(out)@).push(open@ + text@ + close@),
{
    let mut l = open.to_owned();
    l.append(text);
    l.append(close);
    out.push(l);
    proof {
        assert(views_of(final(out)@) =~= views_of(old(out)@).push(open@ + text@ + close@));
    }
}

/// Append one plain line.
fn push_plain(out: &mut Vec<String>, line: &str)
    ensures
        views_of(final(out)@) == views_of(old(out)@).push(line@),
{
    out.push(line.to_owned());
    proof {
        assert(views_of(final(out)@) =~= views_of(old(out)@).push(line@));
    }
}

/// Join lines with a newline after each.
fn join_lines(lines: &Vec<String>) -> (r: String)
    ensures
        r@ == join_nl(views_of(lines@), 0),
{
    let ghost ls = views_of(lines@);
    let mut out = String::new();
    let mut k: usize = 0;
    assert(out@ + join_nl(ls, 0) =~= join_nl(ls, 0));
    while k < lines.len()
        invariant
            k <= lines.len(),
            ls == views_of(lines@),
            out@ + join_nl(ls, k as int) == join_nl(ls, 0),
        decreases lines.len() - k,
    {
        out.append(lines[k].as_str());
        out.append("\n");
        proof {
            reveal_strlit("\n");
            assert("\n"@ =~= seq!['\n']);
            assert(ls[k as int] == lines@[k as int]@);
            assert(out@ + join_nl(ls, k + 1 as int) =~= join_nl(ls, 0));
        }
        k += 1;
    }
    proof {
        assert(join_nl(ls, lines@.len() as int) == Seq::<char>::empty());
        assert(out@ =~= join_nl(ls, 0));
    }
    out
}

impl Document {
    /// The canonical channel text of this document: the alternative
    /// serialization of the same subscription list. Deterministic, one
    /// line per element, items in their stored order. The feed kind is
    /// not carried by this form.
    pub fn serialize_rss(&self) -> (r: String)
        ensures
            r@ == rss_doc_text(self@),
    {
        let ghost all = rss_doc_lines(self@);
        let mut lines: Vec<String> = Vec::new();
        {
            let mut l = String::from_str("<rss version=\"");
            l.append(self.version.as_str());
            l.append("\">");
            proof {
                assert(l@ =~= rss_open_line(self@.version));
            }
            lines.push(l);
        }
        push_plain(&mut lines, "<channel>");
        push_tagged(&mut lines, "<title>", self.title.as_str(), "</title>");
        proof {
            assert(views_of(lines@) =~= seq![
                rss_open_line(self@.version),
                "<channel>"@,
                title_line(self@.title),
            ]);
        }
        let ghost head3 = views_of(lines@);
        let mut k: usize = 0;
        while k < self.entries.len()
            invariant
                k <= self.entries.len(),
                head3 == seq![
                    rss_open_line(self@.version),
                    "<channel>"@,
                    title_line(self@.title),
                ],
                views_of(lines@) + items_lines(self@.entries, k as int) == head3 + items_lines(
                    self@.entries,
                    0,
                ),
            decreases self.entries.len() - k,
        {
            let e = &self.entries[k];
            push_plain(&mut lines, "<item>");
            push_tagged(&mut lines, "<title>", e.title.as_str(), "</title>");
            push_tagged(&mut lines, "<link>", e.feed_url.as_str(), "</link>");
            match &e.site_url {
                Some(h) => push_tagged(&mut lines, "<description>", h.as_str(), "</description>"),
                None => (),
            }
            push_plain(&mut lines, "</item>");
            proof {
                assert(self@.entries[k as int] == self.entries@[k as int]@);
                assert(views_of(lines@) + items_lines(self@.entries, k + 1 as int) =~= head3
                    + items_lines(self@.entries, 0));
            }
            k += 1;
        }
        push_plain(&mut lines, "</channel>");
        push_plain(&mut lines, "</rss>");
        proof {
            assert(items_lines(self@.entries, self@.entries.len() as int)
                == Seq::<Seq<char>>::empty());
            assert(views_of(lines@) =~= rss_doc_lines(self@));
        }
        join_lines(&lines)
    }
}

// ---------------------------------------------------------------------------
// Executable parser
// ---------------------------------------------------------------------------
/// Exec counterpart of `parse_rss_open`.
fn parse_rss_open_exec(l: &str) -> (r: Option<String>)
    ensures
        match r {
            Some(v) => parse_rss_open(l@) == Some(v@),
            None => parse_rss_open(l@) == None::<Seq<char>>,
        },
{
    let n = l.unicode_len();
    if n < 16 {
        return None;
    }
    if !str_eq(l.substring_char(0, 14), "<rss version=\"") {
        return None;
    }
    if l.get_char(n - 1) != '>' || l.get_char(n - 2) != '"' {
        return None;
    }
    proof {
        lemma_find_from(l@, 14, '"');
    }
    let q = find_char(l, 14, '"');
    if q != n - 2 {
        return None;
    }
    Some(l.substring_char(14, n - 2).to_owned())
}

/// Exec counterpart of a tagged single-line element: the text between a
/// fixed opening and closing tag.
fn parse_tagged_exec(l: &str, open: &str, close: &str) -> (r: Option<String>)
    ensures
        match r {
            Some(t) => l@.len() >= open@.len() + close@.len() && l@.subrange(
                0,
                open@.len() as int,
            ) == open@ && l@.subrange(l@.len() - close@.len(), l@.len() as int) == close@ && t@
                == l@.subrange(open@.len() as int, l@.len() - close@.len()),
            None => !(l@.len() >= open@.len() + close@.len() && l@.subrange(0, open@.len() as int)
                == open@ && l@.subrange(l@.len() - close@.len(), l@.len() as int) == close@),
        },
{
    let n = l.unicode_len();
    let a = open.unicode_len();
    let b = close.unicode_len();
    if n < a || n - a < b {
        return None;
    }
    if !str_eq(l.substring_char(0, a), open) {
        return None;
    }
    if !str_eq(l.substring_char(n - b, n), close) {
        return None;
    }
    Some(l.substring_char(a, n - b).to_owned())
}

/// Exec counterpart of `parse_items`.
#[verifier::rlimit(30)]
fn parse_items_exec(lines: &Vec<String>, i: usize, end: usize, taken: Vec<String>) -> (r: Option<
    Vec<Entry>,
>)
    requires
        i <= end <= lines@.len(),
    ensures
        match r {
            Some(v) => parse_items(views_of(lines@), i as int, end as int, views_of(taken@))
                == Some(v@.map_values(|e: Entry| e@)),
            None => parse_items(views_of(lines@), i as int, end as int, views_of(taken@))
                == None::<Seq<EntryView>>,
        },
    decreases end - i,
{
    if i >= end {
        let v: Vec<Entry> = Vec::new();
        assert(v@.map_values(|e: Entry| e@) =~= Seq::<EntryView>::empty());
        return Some(v);
    }
    if !str_eq(lines[i].as_str(), "<item>") || end - i < 4 {
        return None;
    }
    let title = match parse_tagged_exec(lines[i + 1].as_str(), "<title>", "</title>") {
        None => {
            proof {
                reveal_strlit("<title>");
                reveal_strlit("</title>");
            }
            return None;
        },
        Some(t) => t,
    };
    proof {
        reveal_strlit("<title>");
        reveal_strlit("</title>");
        assert(parse_item_title(views_of(lines@)[i as int + 1]) == Some(title@));
    }
    let link = match parse_tagged_exec(lines[i + 2].as_str(), "<link>", "</link>") {
        None => {
            proof {
                reveal_strlit("<link>");
                reveal_strlit("</link>");
            }
            return None;
        },
        Some(l) => l,
    };
    proof {
        reveal_strlit("<link>");
        reveal_strlit("</link>");
        assert(parse_link(views_of(lines@)[i as int + 2]) == Some(link@));
    }
    let site = parse_tagged_exec(lines[i + 3].as_str(), "<description>", "</description>");
    proof {
        reveal_strlit("<description>");
        reveal_strlit("</description>");
        match site {
            Some(ref d) => {
                assert(parse_desc(views_of(lines@)[i as int + 3]) == Some(d@));
            },
            None => {
                assert(parse_desc(views_of(lines@)[i as int + 3]) == None::<Seq<char>>);
            },
        }
    }
    let step: usize = match &site {
        Some(_) => 5,
        None => 4,
    };
    if end - i < step || !str_eq(lines[i + step - 1].as_str(), "</item>") {
        return None;
    }
    let entry = Entry { title, feed_url: link, site_url: site, kind: EntryKind::Rss };
    if entry.feed_url.as_str().unicode_len() == 0 || contains_str(
        &taken,
        entry.feed_url.as_str(),
    ) {
        return parse_items_exec(lines, i + step, end, taken);
    }
    let ghost tv = views_of(taken@);
    let mut taken2 = taken;
    taken2.push(entry.feed_url.clone());
    proof {
        assert(views_of(taken2@) =~= tv.push(entry@.feed_url));
    }
    match parse_items_exec(lines, i + step, end, taken2) {
        None => None,
        Some(mut rest) => {
            rest.insert(0, entry);
            proof {
                assert(rest@.map_values(|e: Entry| e@) =~= seq![entry@] + rest@.map_values(
                    |e: Entry| e@,
                ).drop_first());
            }
            Some(rest)
        },
    }
}

impl Document {
    /// Read a document from a channel text: an opening element with a
    /// supported version, a channel with a title, and items each holding
    /// a title, a link and an optional description. An item whose link is
    /// empty or repeated is skipped.
    pub fn parse_rss(text: &str) -> (r: Result<Document, ParseError>)
        ensures
            match r {
                Ok(d) => parse_rss_spec(text@) == Ok::<DocView, ParseError>(d@) && d@.wf(),
                Err(e) => parse_rss_spec(text@) == Err::<DocView, ParseError>(e),
            },
    {
        let raw = split_lines_exec(text, 0);
        let lines = clean_lines_exec(&raw, 0);
        let n = lines.len();
        if n < 5 {
            return Err(ParseError::Malformed);
        }
        let version = match parse_rss_open_exec(lines[0].as_str()) {
            None => {
                return Err(ParseError::Malformed);
            },
            Some(v) => v,
        };
        if !(str_eq(version.as_str(), "1.0") || str_eq(version.as_str(), "1.1") || str_eq(
            version.as_str(),
            "2.0",
        )) {
            return Err(ParseError::UnsupportedVersion);
        }
        if !str_eq(lines[1].as_str(), "<channel>") {
            return Err(ParseError::Malformed);
        }
        let title = match parse_tagged_exec(lines[2].as_str(), "<title>", "</title>") {
            None => {
                proof {
                    reveal_strlit("<title>");
                    reveal_strlit("</title>");
                }
                return Err(ParseError::Malformed);
            },
            Some(t) => t,
        };
        proof {
            reveal_strlit("<title>");
            reveal_strlit("</title>");
            assert(parse_item_title(views_of(lines@)[2]) == Some(title@));
        }
        if !str_eq(lines[n - 2].as_str(), "</channel>") || !str_eq(lines[n - 1].as_str(), "</rss>")
        {
            return Err(ParseError::Malformed);
        }
        proof {
            assert(views_of(Seq::<String>::empty()) =~= Seq::<Seq<char>>::empty());
        }
        let entries = match parse_items_exec(&lines, 3, n - 2, Vec::new()) {
            None => {
                return Err(ParseError::Malformed);
            },
            Some(es) => es,
        };
        let doc = Document { version, title, entries };
        proof {
            assert(parse_rss_spec(text@) == Ok::<DocView, ParseError>(doc@));
            lemma_parse_items_wf(views_of(lines@), 3, n - 2 as int, Seq::empty(), doc@.entries);
        }
        Ok(doc)
    }
}

/// Every entry list the item parser accepts is well-formed as a list:
/// each feed address is non-empty and none occurs twice nor among `taken`.
proof fn lemma_parse_items_wf(
    ls: Seq<Seq<char>>,
    i: int,
    end: int,
    taken: Seq<Seq<char>>,
    es: Seq<EntryView>,
)
    requires
        parse_items(ls, i, end, taken) == Some(es),
    ensures
        forall|k: int| 0 <= k < es.len() ==> #[trigger] es[k].feed_url.len() > 0,
        forall|k: int, l: int| 0 <= k < l < es.len() ==> es[k].feed_url != es[l].feed_url,
        forall|k: int| 0 <= k < es.len() ==> !taken.contains(#[trigger] es[k].feed_url),
    decreases end - i,
{
    if i >= end || !(0 <= i && end <= ls.len()) || ls[i] != "<item>"@ || i + 4 > end {
    } else {
        match parse_item_title(ls[i + 1]) {
            None => {},
            Some(t) => match parse_link(ls[i + 2]) {
                None => {},
                Some(l) => {
                    let site = parse_desc(ls[i + 3]);
                    let step: int = match site {
                        Some(_) => 5,
                        None => 4,
                    };
                    if i + step > end || ls[i + step - 1] != "</item>"@ {
                    } else if l.len() == 0 || taken.contains(l) {
                        lemma_parse_items_wf(ls, i + step, end, taken, es);
                    } else {
                        let e = EntryView {
                            title: t,
                            feed_url: l,
                            site_url: site,
                            kind: EntryKind::Rss,
                        };
                        let rest = parse_items(ls, i + step, end, taken.push(l)).unwrap();
                        lemma_parse_items_wf(ls, i + step, end, taken.push(l), rest);
                        assert(es == seq![e] + rest);
                        assert forall|k: int| 0 <= k < es.len() implies !taken.contains(
                            #[trigger] es[k].feed_url,
                        ) by {
                            if k > 0 {
                                assert(es[k] == rest[k - 1]);
                                assert(!taken.push(l).contains(rest[k - 1].feed_url));
                                if taken.contains(es[k].feed_url) {
                                    let j = choose|j: int|
                                        0 <= j < taken.len() && taken[j] == es[k].feed_url;
                                    assert(taken.push(l)[j] == es[k].feed_url);
                                }
                            }
                        }
                        assert forall|k: int, m: int| 0 <= k < m < es.len() implies es[k].feed_url
                            != es[m].feed_url by {
                            if k == 0 {
                                assert(es[m] == rest[m - 1]);
                                assert(!taken.push(l).contains(rest[m - 1].feed_url));
                                assert(taken.push(l)[taken.len() as int] == l);
                                if es[0].feed_url == es[m].feed_url {
                                    assert(taken.push(l).contains(rest[m - 1].feed_url));
                                }
                            } else {
                                assert(es[k] == rest[k - 1] && es[m] == rest[m - 1]);
                            }
                        }
                    }
                },
            },
        }
    }
}

} // verus!
