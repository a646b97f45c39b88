use vstd::prelude::*;

use crate::document::{
    supported_version, Document, DocView, Entry, EntryKind, EntryView, ParseError,
};
use crate::text::{
    clean_lines, clean_lines_exec, contains_str, find_char, find_from, lemma_find_from,
    split_lines, split_lines_exec, str_eq, views_of,
};

verus! {

// ---------------------------------------------------------------------------
// Canonical serialized form
// ---------------------------------------------------------------------------
/// One serialized attribute: a blank, the name, `="`, the value, `"`.
pub open spec fn attr_text(name: Seq<char>, value: Seq<char>) -> Seq<char> {
    seq![' '] + name + seq!['=', '"'] + value + seq!['"']
}

/// The serialized form of an entry kind.
pub open spec fn kind_text(k: EntryKind) -> Seq<char> {
    if k == EntryKind::Atom {
        "atom"@
    } else {
        "rss"@
    }
}

/// The serialized outline element of one entry.
pub open spec fn outline_line(e: EntryView) -> Seq<char> {
    "<outline"@ + attr_text("text"@, e.title) + (match e.site_url {
        Some(h) => attr_text("htmlUrl"@, h),
        None => Seq::empty(),
    }) + attr_text("type"@, kind_text(e.kind)) + attr_text("xmlUrl"@, e.feed_url) + "/>"@
}

/// The serialized opening element, carrying the document version.
pub open spec fn opml_open_line(v: Seq<char>) -> Seq<char> {
    "<opml version=\""@ + v + "\">"@
}

/// The serialized title element.
pub open spec fn title_line(t: Seq<char>) -> Seq<char> {
    "<title>"@ + t + "</title>"@
}

/// The serialized document, line by line.
pub open spec fn doc_lines(d: DocView) -> Seq<Seq<char>> {
    seq![opml_open_line(d.version), "<head>"@, title_line(d.title), "</head>"@, "<body>"@]
        + d.entries.map_values(|e: EntryView| outline_line(e)) + seq!["</body>"@, "</opml>"@]
}

/// The lines from index `i` on, joined with a newline after each.
pub open spec fn join_nl(ls: Seq<Seq<char>>, i: int) -> Seq<char>
    decreases ls.len() - i,
{
    if i < 0 || i >= ls.len() {
        Seq::empty()
    } else {
        ls[i] + seq!['\n'] + join_nl(ls, i + 1)
    }
}

/// The canonical text of a document: its lines, each ended by a newline.
pub open spec fn doc_text(d: DocView) -> Seq<char> {
    join_nl(doc_lines(d), 0)
}

// ---------------------------------------------------------------------------
// The grammar, as spec-level parsing functions
// ---------------------------------------------------------------------------
/// The version carried by an opening element, if the line is one.
pub open spec fn parse_opml_open(l: Seq<char>) -> Option<Seq<char>> {
    if l.len() >= 17 && l.subrange(0, 15) == "<opml version=\""@ && l[l.len() - 1] == '>'
        && l[l.len() - 2] == '"' && find_from(l, 15, '"') == l.len() - 2 {
        Some(l.subrange(15, l.len() - 2))
    } else {
        None
    }
}

/// The text carried by a title element, if the line is one.
pub open spec fn parse_title(l: Seq<char>) -> Option<Seq<char>> {
    if l.len() >= 15 && l.subrange(0, 7) == "<title>"@ && l.subrange(l.len() - 8, l.len() as int)
        == "</title>"@ {
        Some(l.subrange(7, l.len() - 8))
    } else {
        None
    }
}

/// The attribute list of `s` between `i` and `end`: blanks, then a name up
/// to `=`, then a value between double quotes, repeated.
pub open spec fn parse_attrs(s: Seq<char>, i: int, end: int) -> Option<
    Seq<(Seq<char>, Seq<char>)>,
>
    decreases end - i,
        when i >= end || (0 <= i && end <= s.len())
        via parse_attrs_dec
{
    if i >= end {
        Some(Seq::empty())
    } else if s[i] == ' ' {
        parse_attrs(s, i + 1, end)
    } else {
        let e = find_from(s, i, '=');
        if e >= end || find_from(s, i, ' ') < e || find_from(s, i, '"') < e {
            None
        } else if e + 1 >= end || s[e + 1] != '"' {
            None
        } else {
            let q = find_from(s, e + 2, '"');
            if q >= end {
                None
            } else {
                match parse_attrs(s, q + 1, end) {
                    None => None,
                    Some(r) => Some(seq![(s.subrange(i, e), s.subrange(e + 2, q))] + r),
                }
            }
        }
    }
}

#[via_fn]
proof fn parse_attrs_dec(s: Seq<char>, i: int, end: int) {
    if i < end && 0 <= i && end <= s.len() && s[i] != ' ' {
        lemma_find_from(s, i, '=');
        let e = find_from(s, i, '=');
        if e < end && !(find_from(s, i, ' ') < e) && !(find_from(s, i, '"') < e) && e + 1 < end
            && s[e + 1] == '"' {
            lemma_find_from(s, e + 2, '"');
        }
    }
}

/// The attribute list of an outline element, if the line is one.
pub open spec fn parse_outline(l: Seq<char>) -> Option<Seq<(Seq<char>, Seq<char>)>> {
    if l.len() >= 10 && l.subrange(0, 8) == "<outline"@ && l.subrange(l.len() - 2, l.len() as int)
        == "/>"@ {
        parse_attrs(l, 8, l.len() - 2)
    } else {
        None
    }
}

/// The value of the first attribute named `name`, from index `i` on.
pub open spec fn attr_of(attrs: Seq<(Seq<char>, Seq<char>)>, i: int, name: Seq<char>) -> Option<
    Seq<char>,
>
    decreases attrs.len() - i,
{
    if i < 0 || i >= attrs.len() {
        None
    } else if attrs[i].0 == name {
        Some(attrs[i].1)
    } else {
        attr_of(attrs, i + 1, name)
    }
}

/// The entry an attribute list denotes: the feed address is required and
/// must be non-empty, the rest take their defaults when absent.
pub open spec fn entry_of_attrs(attrs: Seq<(Seq<char>, Seq<char>)>) -> Option<EntryView> {
    match attr_of(attrs, 0, "xmlUrl"@) {
        None => None,
        Some(x) => if x.len() == 0 {
            None
        } else {
            Some(
                EntryView {
                    title: match attr_of(attrs, 0, "text"@) {
                        Some(t) => t,
                        None => Seq::empty(),
                    },
                    feed_url: x,
                    site_url: attr_of(attrs, 0, "htmlUrl"@),
                    kind: match attr_of(attrs, 0, "type"@) {
                        Some(k) => if k == "atom"@ {
                            EntryKind::Atom
                        } else {
                            EntryKind::Rss
                        },
                        None => EntryKind::Rss,
                    },
                },
            )
        },
    }
}

/// The entries denoted by the outline lines `ls[i..end]`. A line that is no
/// outline element fails the parse; an outline without a usable feed
/// address, or with one already taken, is skipped.
pub open spec fn parse_outlines(
    ls: Seq<Seq<char>>,
    i: int,
    end: int,
    taken: Seq<Seq<char>>,
) -> Option<Seq<EntryView>>
    decreases end - i,
{
    if i >= end {
        Some(Seq::empty())
    } else if !(0 <= i && end <= ls.len()) {
        None
    } else {
        match parse_outline(ls[i]) {
            None => None,
            Some(attrs) => match entry_of_attrs(attrs) {
                None => parse_outlines(ls, i + 1, end, taken),
                Some(e) => if taken.contains(e.feed_url) {
                    parse_outlines(ls, i + 1, end, taken)
                } else {
                    match parse_outlines(ls, i + 1, end, taken.push(e.feed_url)) {
                        None => None,
                        Some(r) => Some(seq![e] + r),
                    }
                },
            },
        }
    }
}

/// The document denoted by the cleaned, non-blank lines `ls`.
pub open spec fn parse_clean_lines(ls: Seq<Seq<char>>) -> Result<DocView, ParseError> {
    let n = ls.len() as int;
    if n < 7 {
        Err(ParseError::Malformed)
    } else {
        match parse_opml_open(ls[0]) {
            None => Err(ParseError::Malformed),
            Some(v) => if !supported_version(v) {
                Err(ParseError::UnsupportedVersion)
            } else if ls[1] != "<head>"@ {
                Err(ParseError::Malformed)
            } else {
                match parse_title(ls[2]) {
                    None => Err(ParseError::Malformed),
                    Some(t) => if ls[3] != "</head>"@ || ls[4] != "<body>"@ || ls[n - 2]
                        != "</body>"@ || ls[n - 1] != "</opml>"@ {
                        Err(ParseError::Malformed)
                    } else {
                        match parse_outlines(ls, 5, n - 2, Seq::empty()) {
                            None => Err(ParseError::Malformed),
                            Some(es) => Ok(DocView { version: v, title: t, entries: es }),
                        }
                    },
                }
            },
        }
    }
}

/// The document denoted by a text: split into lines, trim them, drop the
/// blank ones, and read the grammar.
pub open spec fn parse_spec(s: Seq<char>) -> Result<DocView, ParseError> {
    parse_clean_lines(clean_lines(split_lines(s, 0), 0))
}

// ---------------------------------------------------------------------------
// Executable serializer
// ---------------------------------------------------------------------------
/// Append one line and a newline.
fn push_line(out: &mut String, line: &str)
    ensures
        final(out)@ == old(out)@ + line@ + seq!['\n'],
{
    out.append(line);
    out.append("\n");
    proof {
        reveal_strlit("\n");
        assert("\n"@ =~= seq!['\n']);
        assert(final(out)@ =~= old(out)@ + line@ + seq!['\n']);
    }
}

/// Append one serialized attribute.
fn push_attr(out: &mut String, name: &str, value: &str)
    ensures
        final(out)@ == old(out)@ + attr_text(name@, value@),
{
    out.append(" ");
    out.append(name);
    out.append("=\"");
    out.append(value);
    out.append("\"");
    proof {
        reveal_strlit(" ");
        reveal_strlit("=\"");
        reveal_strlit("\"");
        assert(" "@ =~= seq![' ']);
        assert("=\""@ =~= seq!['=', '"']);
        assert("\""@ =~= seq!['"']);
        assert(final(out)@ =~= old(out)@ + attr_text(name@, value@));
    }
}

/// The serialized outline element of one entry.
fn outline_line_string(e: &Entry) -> (r: String)
    ensures
        r@ == outline_line(e@),
{
    let mut out = String::from_str("<outline");
    push_attr(&mut out, "text", e.title.as_str());
    match &e.site_url {
        Some(h) => push_attr(&mut out, "htmlUrl", h.as_str()),
        None => (),
    }
    match e.kind {
        EntryKind::Atom => push_attr(&mut out, "type", "atom"),
        EntryKind::Rss => push_attr(&mut out, "type", "rss"),
    }
    push_attr(&mut out, "xmlUrl", e.feed_url.as_str());
    out.append("/>");
    proof {
        assert(out@ =~= outline_line(e@));
    }
    out
}

impl Document {
    /// The canonical text of this document. Serialization is deterministic:
    /// one line per element, entries in their stored order.
    pub fn serialize(&self) -> (r: String)
        ensures
            r@ == doc_text(self@),
    {
        let ghost lines = doc_lines(self@);
        let mut out = String::new();
        let l0 = {
            let mut l = String::from_str("<opml version=\"");
            l.append(self.version.as_str());
            l.append("\">");
            proof {
                assert(l@ =~= opml_open_line(self@.version));
            }
            l
        };
        push_line(&mut out, l0.as_str());
        push_line(&mut out, "<head>");
        let l2 = {
            let mut l = String::from_str("<title>");
            l.append(self.title.as_str());
            l.append("</title>");
            proof {
                assert(l@ =~= title_line(self@.title));
            }
            l
        };
        push_line(&mut out, l2.as_str());
        push_line(&mut out, "</head>");
        push_line(&mut out, "<body>");
        proof {
            reveal_with_fuel(join_nl, 6);
            assert(lines[0] == opml_open_line(self@.version));
            assert(lines[1] == "<head>"@);
            assert(lines[2] == title_line(self@.title));
            assert(lines[3] == "</head>"@);
            assert(lines[4] == "<body>"@);
            assert(out@ + join_nl(lines, 5) =~= join_nl(lines, 0));
        }
        let mut k: usize = 0;
        while k < self.entries.len()
            invariant
                k <= self.entries.len(),
                lines == doc_lines(self@),
                out@ + join_nl(lines, 5 + k as int) == join_nl(lines, 0),
            decreases self.entries.len() - k,
        {
            let le = outline_line_string(&self.entries[k]);
            push_line(&mut out, le.as_str());
            proof {
                reveal_with_fuel(join_nl, 2);
                assert(lines[5 + k as int] == outline_line(self@.entries[k as int]));
                assert(out@ + join_nl(lines, 5 + (k + 1) as int) =~= join_nl(lines, 0));
            }
            k += 1;
        }
        push_line(&mut out, "</body>");
        push_line(&mut out, "</opml>");
        proof {
            reveal_with_fuel(join_nl, 4);
            let n = self@.entries.len() as int;
            assert(lines.len() == n + 7);
            assert(lines[5 + n] == "</body>"@);
            assert(lines[6 + n] == "</opml>"@);
            assert(join_nl(lines, 7 + n) == Seq::<char>::empty());
            assert(out@ =~= join_nl(lines, 0));
        }
        out
    }
}

// ---------------------------------------------------------------------------
// Executable parser
// ---------------------------------------------------------------------------
/// The views of a sequence of attribute pairs.
pub open spec fn pair_views(v: Seq<(String, String)>) -> Seq<(Seq<char>, Seq<char>)> {
    v.map_values(|p: (String, String)| (p.0@, p.1@))
}

/// Exec counterpart of `parse_opml_open`.
fn parse_opml_open_exec(l: &str) -> (r: Option<String>)
    ensures
        match r {
            Some(v) => parse_opml_open(l@) == Some(v@),
            None => parse_opml_open(l@) == None::<Seq<char>>,
        },
{
    let n = l.unicode_len();
    if n < 17 {
        return None;
    }
    if !str_eq(l.substring_char(0, 15), "<opml version=\"") {
        return None;
    }
    if l.get_char(n - 1) != '>' || l.get_char(n - 2) != '"' {
        return None;
    }
    proof {
        lemma_find_from(l@, 15, '"');
    }
    let q = find_char(l, 15, '"');
    if q != n - 2 {
        return None;
    }
    Some(l.substring_char(15, n - 2).to_owned())
}

/// Exec counterpart of `parse_title`.
fn parse_title_exec(l: &str) -> (r: Option<String>)
    ensures
        match r {
            Some(t) => parse_title(l@) == Some(t@),
            None => parse_title(l@) == None::<Seq<char>>,
        },
{
    let n = l.unicode_len();
    if n < 15 {
        return None;
    }
    if !str_eq(l.substring_char(0, 7), "<title>") {
        return None;
    }
    if !str_eq(l.substring_char(n - 8, n), "</title>") {
        return None;
    }
    Some(l.substring_char(7, n - 8).to_owned())
}

/// Exec counterpart of `parse_attrs`.
fn parse_attrs_exec(s: &str, i: usize, end: usize) -> (r: Option<Vec<(String, String)>>)
    requires
        end <= s@.len(),
    ensures
        match r {
            Some(v) => parse_attrs(s@, i as int, end as int) == Some(pair_views(v@)),
            None => parse_attrs(s@, i as int, end as int) == None::<Seq<(Seq<char>, Seq<char>)>>,
        },
    decreases end - i,
{
    if i >= end {
        let v: Vec<(String, String)> = Vec::new();
        assert(pair_views(v@) =~= Seq::<(Seq<char>, Seq<char>)>::empty());
        return Some(v);
    }
    if s.get_char(i) == ' ' {
        return parse_attrs_exec(s, i + 1, end);
    }
    proof {
        lemma_find_from(s@, i as int, '=');
        lemma_find_from(s@, i as int, ' ');
        lemma_find_from(s@, i as int, '"');
    }
    let e = find_char(s, i, '=');
    if e >= end || find_char(s, i, ' ') < e || find_char(s, i, '"') < e {
        return None;
    }
    if e + 1 >= end || s.get_char(e + 1) != '"' {
        return None;
    }
    proof {
        lemma_find_from(s@, e + 2 as int, '"');
    }
    let q = find_char(s, e + 2, '"');
    if q >= end {
        return None;
    }
    match parse_attrs_exec(s, q + 1, end) {
        None => None,
        Some(mut rest) => {
            let name = s.substring_char(i, e).to_owned();
            let value = s.substring_char(e + 2, q).to_owned();
            rest.insert(0, (name, value));
            proof {
                assert(pair_views(rest@) =~= seq![
                    (s@.subrange(i as int, e as int), s@.subrange(e + 2 as int, q as int)),
                ] + parse_attrs(s@, q + 1 as int, end as int).unwrap());
            }
            Some(rest)
        },
    }
}

/// Exec counterpart of `parse_outline`.
fn parse_outline_exec(l: &str) -> (r: Option<Vec<(String, String)>>)
    ensures
        match r {
            Some(v) => parse_outline(l@) == Some(pair_views(v@)),
            None => parse_outline(l@) == None::<Seq<(Seq<char>, Seq<char>)>>,
        },
{
    let n = l.unicode_len();
    if n < 10 {
        return None;
    }
    if !str_eq(l.substring_char(0, 8), "<outline") {
        return None;
    }
    if !str_eq(l.substring_char(n - 2, n), "/>") {
        return None;
    }
    parse_attrs_exec(l, 8, n - 2)
}

/// Exec counterpart of `attr_of`.
fn attr_get(attrs: &Vec<(String, String)>, i: usize, name: &str) -> (r: Option<String>)
    requires
        i <= attrs@.len(),
    ensures
        match r {
            Some(v) => attr_of(pair_views(attrs@), i as int, name@) == Some(v@),
            None => attr_of(pair_views(attrs@), i as int, name@) == None::<Seq<char>>,
        },
    decreases attrs@.len() - i,
{
    if i >= attrs.len() {
        None
    } else if str_eq(attrs[i].0.as_str(), name) {
        Some(attrs[i].1.clone())
    } else {
        attr_get(attrs, i + 1, name)
    }
}

/// Exec counterpart of `entry_of_attrs`.
fn entry_of_attrs_exec(attrs: &Vec<(String, String)>) -> (r: Option<Entry>)
    ensures
        match r {
            Some(e) => entry_of_attrs(pair_views(attrs@)) == Some(e@),
            None => entry_of_attrs(pair_views(attrs@)) == None::<EntryView>,
        },
{
    let x = match attr_get(attrs, 0, "xmlUrl") {
        None => {
            return None;
        },
        Some(x) => x,
    };
    if x.as_str().unicode_len() == 0 {
        return None;
    }
    let title = match attr_get(attrs, 0, "text") {
        Some(t) => t,
        None => String::new(),
    };
    let site_url = attr_get(attrs, 0, "htmlUrl");
    let kind = match attr_get(attrs, 0, "type") {
        Some(k) => if str_eq(k.as_str(), "atom") {
            EntryKind::Atom
        } else {
            EntryKind::Rss
        },
        None => EntryKind::Rss,
    };
    Some(Entry { title, feed_url: x, site_url, kind })
}

/// Exec counterpart of `parse_outlines`.
fn parse_outlines_exec(lines: &Vec<String>, i: usize, end: usize, taken: Vec<String>) -> (r:
    Option<Vec<Entry>>)
    requires
        i <= end <= lines@.len(),
    ensures
        match r {
            Some(v) => parse_outlines(views_of(lines@), i as int, end as int, views_of(taken@))
                == Some(v@.map_values(|e: Entry| e@)),
            None => parse_outlines(views_of(lines@), i as int, end as int, views_of(taken@))
                == None::<Seq<EntryView>>,
        },
    decreases end - i,
{
    if i >= end {
        let v: Vec<Entry> = Vec::new();
        assert(v@.map_values(|e: Entry| e@) =~= Seq::<EntryView>::empty());
        return Some(v);
    }
    let attrs = match parse_outline_exec(lines[i].as_str()) {
        None => {
            return None;
        },
        Some(a) => a,
    };
    let entry = match entry_of_attrs_exec(&attrs) {
        None => {
            return parse_outlines_exec(lines, i + 1, end, taken);
        },
        Some(e) => e,
    };
    if contains_str(&taken, entry.feed_url.as_str()) {
        parse_outlines_exec(lines, i + 1, end, taken)
    } else {
        let ghost tv = views_of(taken@);
        let mut taken2 = taken;
        taken2.push(entry.feed_url.clone());
        proof {
            assert(views_of(taken2@) =~= tv.push(entry@.feed_url));
        }
        match parse_outlines_exec(lines, i + 1, end, taken2) {
            None => None,
            Some(mut rest) => {
                rest.insert(0, entry);
                proof {
                    assert(rest@.map_values(|e: Entry| e@) =~= seq![entry@] + rest@.map_values(
                        |e: Entry| e@,
                    ).drop_first());
                }
                Some(rest)
            },
        }
    }
}

impl Document {
    /// Read a document from text. The text must hold, after blank lines are
    /// dropped and padding is trimmed, an opening element with a supported
    /// version, a head with a title, and a body of outline elements; an
    /// outline without a usable feed address, or repeating one, is skipped.
    pub fn parse(text: &str) -> (r: Result<Document, ParseError>)
        ensures
            match r {
                Ok(d) => parse_spec(text@) == Ok::<DocView, ParseError>(d@) && d@.wf(),
                Err(e) => parse_spec(text@) == Err::<DocView, ParseError>(e),
            },
    {
        let raw = split_lines_exec(text, 0);
        let lines = clean_lines_exec(&raw, 0);
        let n = lines.len();
        if n < 7 {
            return Err(ParseError::Malformed);
        }
        let version = match parse_opml_open_exec(lines[0].as_str()) {
            None => {
                return Err(ParseError::Malformed);
            },
            Some(v) => v,
        };
        if !(str_eq(version.as_str(), "1.0") || str_eq(version.as_str(), "1.1") || str_eq(
            version.as_str(),
            "2.0",
        )) {
            return Err(ParseError::UnsupportedVersion);
        }
        if !str_eq(lines[1].as_str(), "<head>") {
            return Err(ParseError::Malformed);
        }
        let title = match parse_title_exec(lines[2].as_str()) {
            None => {
                return Err(ParseError::Malformed);
            },
            Some(t) => t,
        };
        if !str_eq(lines[3].as_str(), "</head>") || !str_eq(lines[4].as_str(), "<body>") || !str_eq(
            lines[n - 2].as_str(),
            "</body>",
        ) || !str_eq(lines[n - 1].as_str(), "</opml>") {
            return Err(ParseError::Malformed);
        }
        proof {
            assert(views_of(Seq::<String>::empty()) =~= Seq::<Seq<char>>::empty());
        }
        let entries = match parse_outlines_exec(&lines, 5, n - 2, Vec::new()) {
            None => {
                return Err(ParseError::Malformed);
            },
            Some(es) => es,
        };
        let doc = Document { version, title, entries };
        proof {
            assert(views_of(Seq::<String>::empty()) =~= Seq::<Seq<char>>::empty());
            assert(parse_spec(text@) == Ok::<DocView, ParseError>(doc@));
            lemma_parse_outlines_wf(
                views_of(lines@),
                5,
                n - 2 as int,
                Seq::empty(),
                doc@.entries,
            );
        }
        Ok(doc)
    }
}

/// Every entry list the outline parser accepts is well-formed as a list:
/// each feed address is non-empty and none occurs twice nor among `taken`.
proof fn lemma_parse_outlines_wf(
    ls: Seq<Seq<char>>,
    i: int,
    end: int,
    taken: Seq<Seq<char>>,
    es: Seq<EntryView>,
)
    requires
        parse_outlines(ls, i, end, taken) == Some(es),
    ensures
        forall|k: int| 0 <= k < es.len() ==> #[trigger] es[k].feed_url.len() > 0,
        forall|k: int, l: int| 0 <= k < l < es.len() ==> es[k].feed_url != es[l].feed_url,
        forall|k: int| 0 <= k < es.len() ==> !taken.contains(#[trigger] es[k].feed_url),
    decreases end - i,
{
    if i >= end {
    } else if !(0 <= i && end <= ls.len()) {
    } else {
        match parse_outline(ls[i]) {
            None => {},
            Some(attrs) => match entry_of_attrs(attrs) {
                None => {
                    lemma_parse_outlines_wf(ls, i + 1, end, taken, es);
                },
                Some(e) => {
                    if taken.contains(e.feed_url) {
                        lemma_parse_outlines_wf(ls, i + 1, end, taken, es);
                    } else {
                        let rest = parse_outlines(ls, i + 1, end, taken.push(e.feed_url)).unwrap();
                        lemma_parse_outlines_wf(ls, i + 1, end, taken.push(e.feed_url), rest);
                        assert(es == seq![e] + rest);
                        assert forall|k: int| 0 <= k < es.len() implies !taken.contains(
                            #[trigger] es[k].feed_url,
                        ) by {
                            if k > 0 {
                                assert(es[k] == rest[k - 1]);
                                assert(!taken.push(e.feed_url).contains(rest[k - 1].feed_url));
                                if taken.contains(es[k].feed_url) {
                                    let j = choose|j: int|
                                        0 <= j < taken.len() && taken[j] == es[k].feed_url;
                                    assert(taken.push(e.feed_url)[j] == es[k].feed_url);
                                }
                            } else {
                                if taken.contains(es[0].feed_url) {
                                    assert(false);
                                }
                            }
                        }
                        assert forall|k: int, l: int| 0 <= k < l < es.len() implies es[k].feed_url
                            != es[l].feed_url by {
                            if k == 0 {
                                assert(es[l] == rest[l - 1]);
                                assert(!taken.push(e.feed_url).contains(rest[l - 1].feed_url));
                                assert(taken.push(e.feed_url)[taken.len() as int] == e.feed_url);
                                if es[0].feed_url == es[l].feed_url {
                                    assert(taken.push(e.feed_url).contains(rest[l - 1].feed_url));
                                }
                            } else {
                                assert(es[k] == rest[k - 1] && es[l] == rest[l - 1]);
                            }
                        }
                    }
                },
            },
        }
    }
}

} // verus!
