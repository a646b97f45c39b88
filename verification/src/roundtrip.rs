use vstd::prelude::*;

use crate::document::{supported_version, DocView, EntryKind, EntryView, ParseError};
use crate::opml::{
    attr_of, attr_text, doc_lines, doc_text, entry_of_attrs, join_nl, kind_text, opml_open_line,
    outline_line, parse_attrs, parse_clean_lines, parse_opml_open, parse_outline, parse_outlines,
    parse_spec, parse_title, title_line,
};
use crate::rss::{
    desc_line, item_lines, items_lines, link_line, parse_desc, parse_items, parse_link,
    parse_rss_clean_lines, parse_rss_open, parse_rss_spec, rss_doc_lines, rss_doc_text,
    rss_open_line,
};
use crate::text::{
    clean_lines, find_from, is_ws, lemma_find_from, lemma_find_from_is, lemma_trim_stable,
    split_lines, trim,
};

verus! {

// ---------------------------------------------------------------------------
// Which documents serialize to a text that reads back verbatim
// ---------------------------------------------------------------------------
/// No newline: the text stays on one serialized line.
pub open spec fn no_newline(s: Seq<char>) -> bool {
    forall|j: int| 0 <= j < s.len() ==> s[j] != '\n'
}

/// Fit for an attribute value: no newline to break the line, no double
/// quote to end the value early.
pub open spec fn attr_clean(s: Seq<char>) -> bool {
    forall|j: int| 0 <= j < s.len() ==> s[j] != '\n' && s[j] != '"'
}

/// An entry whose serialized attributes read back verbatim.
pub open spec fn entry_clean(e: EntryView) -> bool {
    attr_clean(e.title) && attr_clean(e.feed_url) && match e.site_url {
        Some(h) => attr_clean(h),
        None => true,
    }
}

/// A document whose canonical text parses back to the very same document.
pub open spec fn doc_clean(d: DocView) -> bool {
    no_newline(d.title) && forall|i: int| 0 <= i < d.entries.len() ==> entry_clean(#[trigger] d.entries[i])
}

// ---------------------------------------------------------------------------
// The characters of the markup literals
// ---------------------------------------------------------------------------
proof fn lemma_literals()
    ensures
        "<opml version=\""@ =~= seq![
            '<', 'o', 'p', 'm', 'l', ' ', 'v', 'e', 'r', 's', 'i', 'o', 'n', '=', '"',
        ],
        "\">"@ =~= seq!['"', '>'],
        "<head>"@ =~= seq!['<', 'h', 'e', 'a', 'd', '>'],
        "</head>"@ =~= seq!['<', '/', 'h', 'e', 'a', 'd', '>'],
        "<body>"@ =~= seq!['<', 'b', 'o', 'd', 'y', '>'],
        "</body>"@ =~= seq!['<', '/', 'b', 'o', 'd', 'y', '>'],
        "</opml>"@ =~= seq!['<', '/', 'o', 'p', 'm', 'l', '>'],
        "<title>"@ =~= seq!['<', 't', 'i', 't', 'l', 'e', '>'],
        "</title>"@ =~= seq!['<', '/', 't', 'i', 't', 'l', 'e', '>'],
        "<outline"@ =~= seq!['<', 'o', 'u', 't', 'l', 'i', 'n', 'e'],
        "/>"@ =~= seq!['/', '>'],
        "text"@ =~= seq!['t', 'e', 'x', 't'],
        "htmlUrl"@ =~= seq!['h', 't', 'm', 'l', 'U', 'r', 'l'],
        "type"@ =~= seq!['t', 'y', 'p', 'e'],
        "xmlUrl"@ =~= seq!['x', 'm', 'l', 'U', 'r', 'l'],
        "rss"@ =~= seq!['r', 's', 's'],
        "atom"@ =~= seq!['a', 't', 'o', 'm'],
        "1.0"@ =~= seq!['1', '.', '0'],
        "1.1"@ =~= seq!['1', '.', '1'],
        "2.0"@ =~= seq!['2', '.', '0'],
{
    reveal_strlit("<opml version=\"");
    reveal_strlit("\">");
    reveal_strlit("<head>");
    reveal_strlit("</head>");
    reveal_strlit("<body>");
    reveal_strlit("</body>");
    reveal_strlit("</opml>");
    reveal_strlit("<title>");
    reveal_strlit("</title>");
    reveal_strlit("<outline");
    reveal_strlit("/>");
    reveal_strlit("text");
    reveal_strlit("htmlUrl");
    reveal_strlit("type");
    reveal_strlit("xmlUrl");
    reveal_strlit("rss");
    reveal_strlit("atom");
    reveal_strlit("1.0");
    reveal_strlit("1.1");
    reveal_strlit("2.0");
}

/// A supported version string holds neither quote nor newline.
proof fn lemma_version_clean(v: Seq<char>)
    requires
        supported_version(v),
    ensures
        attr_clean(v),
{
    lemma_literals();
}

// ---------------------------------------------------------------------------
// Reading single canonical lines back
// ---------------------------------------------------------------------------
proof fn lemma_opml_open_rt(v: Seq<char>)
    requires
        attr_clean(v),
    ensures
        parse_opml_open(opml_open_line(v)) == Some(v),
{
    lemma_literals();
    let l = opml_open_line(v);
    let n = l.len() as int;
    assert(n == 17 + v.len());
    assert(l.subrange(0, 15) =~= "<opml version=\""@);
    assert(l[n - 1] == '>');
    assert(l[n - 2] == '"');
    assert forall|j: int| 15 <= j < n - 2 implies l[j] != '"' by {
        assert(l[j] == v[j - 15]);
    }
    lemma_find_from_is(l, 15, n - 2, '"');
    assert(l.subrange(15, n - 2) =~= v);
}

proof fn lemma_title_rt(t: Seq<char>)
    ensures
        parse_title(title_line(t)) == Some(t),
{
    lemma_literals();
    let l = title_line(t);
    let n = l.len() as int;
    assert(n == 15 + t.len());
    assert(l.subrange(0, 7) =~= "<title>"@);
    assert(l.subrange(n - 8, n) =~= "</title>"@);
    assert(l.subrange(7, n - 8) =~= t);
}

// ---------------------------------------------------------------------------
// Reading attribute lists back
// ---------------------------------------------------------------------------
/// A usable attribute name: non-empty, and free of the characters that end
/// a name or a value.
pub open spec fn name_ok(nm: Seq<char>) -> bool {
    nm.len() > 0 && forall|j: int|
        0 <= j < nm.len() ==> nm[j] != '=' && nm[j] != ' ' && nm[j] != '"'
}

/// One serialized attribute standing at `i` is read back as its pair, in
/// front of whatever the rest of the list is read as.
proof fn lemma_attr_step(
    s: Seq<char>,
    i: int,
    end: int,
    name: Seq<char>,
    value: Seq<char>,
    rest: Seq<(Seq<char>, Seq<char>)>,
)
    requires
        0 <= i,
        end <= s.len(),
        i + attr_text(name, value).len() <= end,
        s.subrange(i, i + attr_text(name, value).len() as int) == attr_text(name, value),
        name_ok(name),
        forall|j: int| 0 <= j < value.len() ==> value[j] != '"',
        parse_attrs(s, i + attr_text(name, value).len(), end) == Some(rest),
    ensures
        parse_attrs(s, i, end) == Some(seq![(name, value)] + rest),
{
    let a = attr_text(name, value);
    let m = a.len() as int;
    let sub = s.subrange(i, i + m);
    let nl = name.len() as int;
    let vl = value.len() as int;
    assert(m == 4 + nl + vl);
    assert(s[i] == ' ') by {
        assert(sub[0] == s[i + 0]);
        assert(a[0] == ' ');
    }
    assert forall|j: int| 0 <= j < nl implies s[i + 1 + j] == name[j] by {
        assert(sub[1 + j] == s[i + (1 + j)]);
        assert(a[1 + j] == name[j]);
    }
    assert(s[i + 1 + nl] == '=') by {
        assert(sub[1 + nl] == s[i + (1 + nl)]);
        assert(a[1 + nl] == '=');
    }
    assert(s[i + 2 + nl] == '"') by {
        assert(sub[2 + nl] == s[i + (2 + nl)]);
        assert(a[2 + nl] == '"');
    }
    assert forall|j: int| 0 <= j < vl implies s[i + 3 + nl + j] == value[j] by {
        assert(sub[3 + nl + j] == s[i + (3 + nl + j)]);
        assert(a[3 + nl + j] == value[j]);
    }
    assert(s[i + 3 + nl + vl] == '"') by {
        assert(sub[3 + nl + vl] == s[i + (3 + nl + vl)]);
        assert(a[3 + nl + vl] == '"');
    }
    let e = i + 1 + nl;
    assert forall|j: int| i + 1 <= j < e implies s[j] != '=' by {
        assert(s[i + 1 + (j - i - 1)] == name[j - i - 1]);
    }
    lemma_find_from_is(s, i + 1, e, '=');
    lemma_find_from(s, i + 1, ' ');
    let fsp = find_from(s, i + 1, ' ');
    if fsp < e {
        assert(s[fsp] == ' ');
        assert(s[fsp] == name[fsp - i - 1]);
        assert(false);
    }
    lemma_find_from(s, i + 1, '"');
    let fq = find_from(s, i + 1, '"');
    if fq < e {
        assert(s[fq] == '"');
        assert(s[fq] == name[fq - i - 1]);
        assert(false);
    }
    let q = e + 2 + vl;
    assert forall|j: int| e + 2 <= j < q implies s[j] != '"' by {
        assert(s[j] == value[j - (e + 2)]);
    }
    lemma_find_from_is(s, e + 2, q, '"');
    assert(q + 1 == i + m);
    assert(s.subrange(i + 1, e) =~= name);
    assert(s.subrange(e + 2, q) =~= value);
    reveal_with_fuel(parse_attrs, 3);
    assert(parse_attrs(s, i, end) == parse_attrs(s, i + 1, end));
    assert(parse_attrs(s, i + 1, end) == Some(
        seq![(s.subrange(i + 1, e), s.subrange(e + 2, q))] + rest,
    ));
    assert(seq![(s.subrange(i + 1, e), s.subrange(e + 2, q))] + rest =~= seq![(name, value)]
        + rest);
}

/// The attribute pairs of one serialized entry, in their canonical order.
pub open spec fn entry_attrs(e: EntryView) -> Seq<(Seq<char>, Seq<char>)> {
    seq![("text"@, e.title)] + (match e.site_url {
        Some(h) => seq![("htmlUrl"@, h)],
        None => Seq::empty(),
    }) + seq![("type"@, kind_text(e.kind)), ("xmlUrl"@, e.feed_url)]
}

/// A canonical outline line is read back as the entry's attribute pairs.
proof fn lemma_outline_rt(e: EntryView)
    requires
        entry_clean(e),
    ensures
        parse_outline(outline_line(e)) == Some(entry_attrs(e)),
{
    lemma_literals();
    let l = outline_line(e);
    let a1 = attr_text("text"@, e.title);
    let a2 = match e.site_url {
        Some(h) => attr_text("htmlUrl"@, h),
        None => Seq::<char>::empty(),
    };
    let a3 = attr_text("type"@, kind_text(e.kind));
    let a4 = attr_text("xmlUrl"@, e.feed_url);
    let n = l.len() as int;
    let p1: int = 8;
    let p2 = p1 + a1.len() as int;
    let p3 = p2 + a2.len() as int;
    let p4 = p3 + a3.len() as int;
    let end = p4 + a4.len() as int;
    assert(n == end + 2);
    assert(l.subrange(0, 8) =~= "<outline"@);
    assert(l.subrange(n - 2, n) =~= "/>"@);
    assert(parse_attrs(l, end, end) == Some(Seq::<(Seq<char>, Seq<char>)>::empty()));
    assert(name_ok("text"@));
    assert(name_ok("htmlUrl"@));
    assert(name_ok("type"@));
    assert(name_ok("xmlUrl"@));
    assert(forall|j: int| 0 <= j < kind_text(e.kind).len() ==> kind_text(e.kind)[j] != '"');
    let t4 = seq![("xmlUrl"@, e.feed_url)];
    assert(l.subrange(p4, p4 + a4.len() as int) =~= a4);
    lemma_attr_step(l, p4, end, "xmlUrl"@, e.feed_url, Seq::empty());
    assert(seq![("xmlUrl"@, e.feed_url)] + Seq::empty() =~= t4);
    let t3 = seq![("type"@, kind_text(e.kind))] + t4;
    assert(l.subrange(p3, p3 + a3.len() as int) =~= a3);
    lemma_attr_step(l, p3, end, "type"@, kind_text(e.kind), t4);
    let t2 = match e.site_url {
        Some(h) => seq![("htmlUrl"@, h)] + t3,
        None => t3,
    };
    match e.site_url {
        Some(h) => {
            assert(l.subrange(p2, p2 + a2.len() as int) =~= a2);
            lemma_attr_step(l, p2, end, "htmlUrl"@, h, t3);
        },
        None => {
            assert(p2 == p3);
        },
    }
    assert(parse_attrs(l, p2, end) == Some(t2));
    assert(l.subrange(p1, p1 + a1.len() as int) =~= a1);
    lemma_attr_step(l, p1, end, "text"@, e.title, t2);
    assert(parse_attrs(l, 8, n - 2) == Some(seq![("text"@, e.title)] + t2));
    assert(seq![("text"@, e.title)] + t2 =~= entry_attrs(e));
}

/// The attribute pairs of one entry denote that entry again.
proof fn lemma_entry_attrs_rt(e: EntryView)
    requires
        e.feed_url.len() > 0,
    ensures
        entry_of_attrs(entry_attrs(e)) == Some(e),
{
    lemma_literals();
    let attrs = entry_attrs(e);
    reveal_with_fuel(attr_of, 6);
    assert("text"@ != "xmlUrl"@);
    assert("text"@ != "htmlUrl"@);
    assert("text"@ != "type"@) by {
        if "text"@ == "type"@ {
            assert("text"@[1] == "type"@[1]);
        }
    }
    assert("htmlUrl"@ != "xmlUrl"@);
    assert("htmlUrl"@ != "type"@);
    assert("type"@ != "xmlUrl"@);
    match e.site_url {
        Some(h) => {
            assert(attrs.len() == 4);
            assert(attrs[0] == ("text"@, e.title));
            assert(attrs[1] == ("htmlUrl"@, h));
            assert(attrs[2] == ("type"@, kind_text(e.kind)));
            assert(attrs[3] == ("xmlUrl"@, e.feed_url));
            assert(attr_of(attrs, 0, "xmlUrl"@) == Some(e.feed_url));
            assert(attr_of(attrs, 0, "text"@) == Some(e.title));
            assert(attr_of(attrs, 0, "htmlUrl"@) == Some(h));
            assert(attr_of(attrs, 0, "type"@) == Some(kind_text(e.kind)));
        },
        None => {
            assert(attrs.len() == 3);
            assert(attrs[0] == ("text"@, e.title));
            assert(attrs[1] == ("type"@, kind_text(e.kind)));
            assert(attrs[2] == ("xmlUrl"@, e.feed_url));
            assert(attr_of(attrs, 0, "xmlUrl"@) == Some(e.feed_url));
            assert(attr_of(attrs, 0, "text"@) == Some(e.title));
            assert(attr_of(attrs, 0, "htmlUrl"@) == None::<Seq<char>>);
            assert(attr_of(attrs, 0, "type"@) == Some(kind_text(e.kind)));
        },
    }
    match e.kind {
        EntryKind::Atom => {
            assert(kind_text(e.kind) == "atom"@);
        },
        EntryKind::Rss => {
            assert(kind_text(e.kind) == "rss"@);
            assert("rss"@ != "atom"@);
        },
    }
    assert(entry_of_attrs(attrs) == Some(e));
}

// ---------------------------------------------------------------------------
// Reading the outline region back
// ---------------------------------------------------------------------------
/// A run of canonical outline lines is read back as exactly its entries,
/// provided their feed addresses are distinct and none is taken yet.
proof fn lemma_outlines_rt(
    ls: Seq<Seq<char>>,
    i: int,
    end: int,
    es: Seq<EntryView>,
    taken: Seq<Seq<char>>,
)
    requires
        0 <= i,
        i + es.len() == end,
        end <= ls.len(),
        forall|j: int| 0 <= j < es.len() ==> ls[i + j] == outline_line(#[trigger] es[j]),
        forall|j: int|
            0 <= j < es.len() ==> entry_clean(#[trigger] es[j]) && es[j].feed_url.len() > 0,
        forall|j: int, l: int| 0 <= j < l < es.len() ==> es[j].feed_url != es[l].feed_url,
        forall|j: int| 0 <= j < es.len() ==> !taken.contains(#[trigger] es[j].feed_url),
    ensures
        parse_outlines(ls, i, end, taken) == Some(es),
    decreases es.len(),
{
    if es.len() == 0 {
        assert(parse_outlines(ls, i, end, taken) == Some(Seq::<EntryView>::empty()));
        assert(es =~= Seq::<EntryView>::empty());
    } else {
        let e0 = es[0];
        assert(ls[i + 0] == outline_line(e0));
        lemma_outline_rt(e0);
        lemma_entry_attrs_rt(e0);
        let tk2 = taken.push(e0.feed_url);
        let tail = es.skip(1);
        assert forall|j: int| 0 <= j < tail.len() implies ls[i + 1 + j] == outline_line(
            #[trigger] tail[j],
        ) by {
            assert(tail[j] == es[j + 1]);
            assert(ls[i + (j + 1)] == outline_line(es[j + 1]));
        }
        assert forall|j: int| 0 <= j < tail.len() implies entry_clean(#[trigger] tail[j])
            && tail[j].feed_url.len() > 0 by {
            assert(tail[j] == es[j + 1]);
        }
        assert forall|j: int, l: int| 0 <= j < l < tail.len() implies tail[j].feed_url
            != tail[l].feed_url by {
            assert(tail[j] == es[j + 1] && tail[l] == es[l + 1]);
        }
        assert forall|j: int| 0 <= j < tail.len() implies !tk2.contains(
            #[trigger] tail[j].feed_url,
        ) by {
            assert(tail[j] == es[j + 1]);
            if tk2.contains(es[j + 1].feed_url) {
                let k = choose|k: int|
                    0 <= k < tk2.len() && tk2[k] == es[j + 1].feed_url;
                if k < taken.len() {
                    assert(taken[k] == es[j + 1].feed_url);
                    assert(taken.contains(es[j + 1].feed_url));
                } else {
                    assert(tk2[k] == e0.feed_url);
                    assert(es[0].feed_url == es[j + 1].feed_url);
                }
            }
        }
        lemma_outlines_rt(ls, i + 1, end, tail, tk2);
        assert(!taken.contains(e0.feed_url));
        assert(parse_outlines(ls, i, end, taken) == Some(seq![e0] + tail));
        assert(seq![e0] + tail =~= es);
    }
}

// ---------------------------------------------------------------------------
// Splitting the joined lines back apart
// ---------------------------------------------------------------------------
/// Joining from `i` on is joining the suffix from its start.
proof fn lemma_join_shift(ls: Seq<Seq<char>>, i: int)
    requires
        0 <= i <= ls.len(),
    ensures
        join_nl(ls, i) == join_nl(ls.skip(i), 0),
    decreases ls.len() - i,
{
    if i >= ls.len() {
        assert(ls.skip(i) =~= Seq::<Seq<char>>::empty());
    } else {
        lemma_join_shift(ls, i + 1);
        lemma_join_shift(ls.skip(i), 1);
        assert(ls.skip(i).skip(1) =~= ls.skip(i + 1));
        assert(ls.skip(i)[0] == ls[i]);
    }
}

/// Finding in a concatenation, at or beyond the first part, is finding in
/// the second part.
proof fn lemma_find_concat(a: Seq<char>, b: Seq<char>, i: int, c: char)
    requires
        a.len() <= i <= a.len() + b.len(),
    ensures
        find_from(a + b, i, c) == a.len() + find_from(b, i - a.len(), c),
    decreases a.len() + b.len() - i,
{
    let s = a + b;
    if i >= s.len() {
    } else if s[i] == c {
        assert(b[i - a.len()] == c);
    } else {
        assert(b[i - a.len()] != c);
        lemma_find_concat(a, b, i + 1, c);
    }
}

/// Splitting a concatenation, at or beyond the first part, is splitting
/// the second part.
proof fn lemma_split_concat(a: Seq<char>, b: Seq<char>, i: int)
    requires
        a.len() <= i <= a.len() + b.len(),
    ensures
        split_lines(a + b, i) == split_lines(b, i - a.len()),
    decreases a.len() + b.len() - i,
{
    let s = a + b;
    lemma_find_concat(a, b, i, '\n');
    lemma_find_from(s, i, '\n');
    lemma_find_from(b, i - a.len(), '\n');
    let e = find_from(s, i, '\n');
    let e2 = find_from(b, i - a.len(), '\n');
    if e >= s.len() {
        assert(s.subrange(i, s.len() as int) =~= b.subrange(i - a.len(), b.len() as int));
        assert(split_lines(s, i) =~= split_lines(b, i - a.len()));
    } else {
        lemma_split_concat(a, b, e + 1);
        assert(s.subrange(i, e) =~= b.subrange(i - a.len(), e2));
        assert(split_lines(s, i) =~= split_lines(b, i - a.len()));
    }
}

/// Splitting the joined lines gives the lines back, plus one final empty
/// line after the last newline.
proof fn lemma_split_join(ls: Seq<Seq<char>>)
    requires
        forall|j: int| 0 <= j < ls.len() ==> no_newline(#[trigger] ls[j]),
    ensures
        split_lines(join_nl(ls, 0), 0) == ls.push(Seq::empty()),
    decreases ls.len(),
{
    let t = join_nl(ls, 0);
    if ls.len() == 0 {
        assert(t =~= Seq::<char>::empty());
        assert(t.subrange(0, 0) =~= Seq::<char>::empty());
        assert(split_lines(t, 0) =~= ls.push(Seq::empty()));
    } else {
        let l0 = ls[0];
        let n0 = l0.len() as int;
        let rest = join_nl(ls, 1);
        lemma_join_shift(ls, 1);
        let tail = ls.skip(1);
        assert forall|j: int| 0 <= j < tail.len() implies no_newline(#[trigger] tail[j]) by {
            assert(tail[j] == ls[j + 1]);
        }
        lemma_split_join(tail);
        assert(t == l0 + seq!['\n'] + rest);
        assert(t =~= (l0 + seq!['\n']) + rest);
        assert forall|j: int| 0 <= j < n0 implies t[j] != '\n' by {
            assert(t[j] == l0[j]);
        }
        assert(t[n0] == '\n');
        lemma_find_from_is(t, 0, n0, '\n');
        assert(t.subrange(0, n0) =~= l0);
        lemma_split_concat(l0 + seq!['\n'], rest, n0 + 1);
        assert(split_lines(t, n0 + 1) == split_lines(rest, 0));
        assert(rest == join_nl(tail, 0));
        assert(split_lines(t, 0) == seq![l0] + split_lines(t, n0 + 1));
        assert(seq![l0] + tail.push(Seq::<char>::empty()) =~= ls.push(Seq::empty()));
    }
}

// ---------------------------------------------------------------------------
// Cleaning canonical lines changes nothing
// ---------------------------------------------------------------------------
/// On lines that are non-blank and unpadded, except for one final blank
/// line, cleaning only drops that blank line.
proof fn lemma_clean_of_canon(ls: Seq<Seq<char>>, i: int)
    requires
        0 <= i <= ls.len() - 1,
        forall|j: int|
            i <= j < ls.len() - 1 ==> #[trigger] ls[j].len() > 0 && !is_ws(ls[j][0]) && !is_ws(
                ls[j][ls[j].len() - 1],
            ),
        ls.len() > 0,
        ls[ls.len() - 1].len() == 0,
    ensures
        clean_lines(ls, i) == ls.subrange(i, ls.len() - 1),
    decreases ls.len() - i,
{
    if i == ls.len() - 1 {
        reveal_with_fuel(clean_lines, 3);
        assert(trim(ls[i]).len() == 0);
        assert(clean_lines(ls, i) =~= ls.subrange(i, ls.len() - 1));
    } else {
        lemma_trim_stable(ls[i]);
        lemma_clean_of_canon(ls, i + 1);
        assert(clean_lines(ls, i) =~= ls.subrange(i, ls.len() - 1));
    }
}

// ---------------------------------------------------------------------------
// The canonical lines are single, non-blank, unpadded lines
// ---------------------------------------------------------------------------
/// Concatenation keeps freedom from newlines.
proof fn lemma_no_nl_concat(x: Seq<char>, y: Seq<char>)
    requires
        no_newline(x),
        no_newline(y),
    ensures
        no_newline(x + y),
{
    assert forall|k: int| 0 <= k < (x + y).len() implies (x + y)[k] != '\n' by {
        if k < x.len() {
            assert((x + y)[k] == x[k]);
        } else {
            assert((x + y)[k] == y[k - x.len()]);
        }
    }
}

/// A serialized attribute of newline-free parts is newline-free.
proof fn lemma_attr_text_no_nl(name: Seq<char>, value: Seq<char>)
    requires
        no_newline(name),
        no_newline(value),
    ensures
        no_newline(attr_text(name, value)),
{
    lemma_no_nl_concat(seq![' '], name);
    lemma_no_nl_concat(seq![' '] + name, seq!['=', '"']);
    lemma_no_nl_concat(seq![' '] + name + seq!['=', '"'], value);
    lemma_no_nl_concat(seq![' '] + name + seq!['=', '"'] + value, seq!['"']);
}

/// Every line of a clean, well-formed document is non-blank, starts and
/// ends with a tag bracket, and holds no newline.
proof fn lemma_doc_lines_shape(d: DocView)
    requires
        supported_version(d.version),
        doc_clean(d),
    ensures
        forall|j: int|
            0 <= j < doc_lines(d).len() ==> #[trigger] doc_lines(d)[j].len() > 0 && !is_ws(
                doc_lines(d)[j][0],
            ) && !is_ws(doc_lines(d)[j][doc_lines(d)[j].len() - 1]) && no_newline(doc_lines(d)[j]),
{
    lemma_literals();
    lemma_version_clean(d.version);
    let ls = doc_lines(d);
    let es = d.entries;
    let n = ls.len() as int;
    assert(n == 7 + es.len());
    assert forall|j: int| 0 <= j < n implies #[trigger] ls[j].len() > 0 && !is_ws(ls[j][0])
        && !is_ws(ls[j][ls[j].len() - 1]) && no_newline(ls[j]) by {
        if j == 0 {
            assert(ls[j] == opml_open_line(d.version));
            lemma_no_nl_concat("<opml version=\""@, d.version);
            lemma_no_nl_concat("<opml version=\""@ + d.version, "\">"@);
            assert(ls[j][0] == '<');
            assert(ls[j][ls[j].len() - 1] == '>');
        } else if j == 1 {
            assert(ls[j] == "<head>"@);
        } else if j == 2 {
            assert(ls[j] == title_line(d.title));
            lemma_no_nl_concat("<title>"@, d.title);
            lemma_no_nl_concat("<title>"@ + d.title, "</title>"@);
            assert(ls[j][0] == '<');
            assert(ls[j][ls[j].len() - 1] == '>');
        } else if j == 3 {
            assert(ls[j] == "</head>"@);
        } else if j == 4 {
            assert(ls[j] == "<body>"@);
        } else if j < 5 + es.len() {
            let e = es[j - 5];
            assert(entry_clean(e));
            assert(ls[j] == outline_line(e));
            let a1 = attr_text("text"@, e.title);
            let a2 = match e.site_url {
                Some(h) => attr_text("htmlUrl"@, h),
                None => Seq::<char>::empty(),
            };
            let a3 = attr_text("type"@, kind_text(e.kind));
            let a4 = attr_text("xmlUrl"@, e.feed_url);
            lemma_attr_text_no_nl("text"@, e.title);
            match e.site_url {
                Some(h) => {
                    lemma_attr_text_no_nl("htmlUrl"@, h);
                },
                None => {},
            }
            lemma_attr_text_no_nl("type"@, kind_text(e.kind));
            lemma_attr_text_no_nl("xmlUrl"@, e.feed_url);
            lemma_no_nl_concat("<outline"@, a1);
            lemma_no_nl_concat("<outline"@ + a1, a2);
            lemma_no_nl_concat("<outline"@ + a1 + a2, a3);
            lemma_no_nl_concat("<outline"@ + a1 + a2 + a3, a4);
            lemma_no_nl_concat("<outline"@ + a1 + a2 + a3 + a4, "/>"@);
            assert(ls[j][0] == '<');
            assert(ls[j][ls[j].len() - 1] == '>');
        } else if j == n - 2 {
            assert(ls[j] == "</body>"@);
        } else {
            assert(ls[j] == "</opml>"@);
        }
    }
}

// ---------------------------------------------------------------------------
// The round-trip law
// ---------------------------------------------------------------------------
/// Round trip: the canonical text of a well-formed, clean document parses
/// back to the very same document - entries, order and metadata. Clean
/// means no double quote or newline in attribute values and no newline in
/// the list title; on other documents the serialized attributes could not
/// carry the values verbatim.
pub proof fn lemma_parse_serialize_round_trip(d: DocView)
    requires
        d.wf(),
        doc_clean(d),
    ensures
        parse_spec(doc_text(d)) == Ok::<DocView, ParseError>(d),
{
    let lines = doc_lines(d);
    let n = lines.len() as int;
    let es = d.entries;
    assert(n == 7 + es.len());
    lemma_doc_lines_shape(d);
    lemma_split_join(lines);
    let sp = lines.push(Seq::<char>::empty());
    assert(sp[sp.len() - 1].len() == 0);
    assert forall|j: int| 0 <= j < sp.len() - 1 implies #[trigger] sp[j].len() > 0 && !is_ws(
        sp[j][0],
    ) && !is_ws(sp[j][sp[j].len() - 1]) by {
        assert(sp[j] == lines[j]);
    }
    lemma_clean_of_canon(sp, 0);
    assert(sp.subrange(0, sp.len() - 1) =~= lines);
    assert(clean_lines(split_lines(doc_text(d), 0), 0) == lines);
    lemma_version_clean(d.version);
    lemma_opml_open_rt(d.version);
    lemma_title_rt(d.title);
    assert(lines[0] == opml_open_line(d.version));
    assert(lines[1] == "<head>"@);
    assert(lines[2] == title_line(d.title));
    assert(lines[3] == "</head>"@);
    assert(lines[4] == "<body>"@);
    assert(lines[n - 2] == "</body>"@);
    assert(lines[n - 1] == "</opml>"@);
    assert(lines[1] != "<head>"@ == false);
    assert forall|j: int| 0 <= j < es.len() implies lines[5 + j] == outline_line(
        #[trigger] es[j],
    ) by {
        assert(lines[5 + j] == es.map_values(|e: EntryView| outline_line(e))[j]);
    }
    assert forall|j: int| 0 <= j < es.len() implies !Seq::<Seq<char>>::empty().contains(
        #[trigger] es[j].feed_url,
    ) by {
        assert(Seq::<Seq<char>>::empty().len() == 0);
    }
    lemma_outlines_rt(lines, 5, n - 2, es, Seq::empty());
    assert(parse_clean_lines(lines) == Ok::<DocView, ParseError>(
        DocView { version: d.version, title: d.title, entries: es },
    ));
    assert(DocView { version: d.version, title: d.title, entries: es } == d);
}

// ---------------------------------------------------------------------------
// The round trip of the channel flavor
// ---------------------------------------------------------------------------
/// A document whose canonical channel text parses back verbatim: no
/// newline in any carried text, and every entry of the feed kind, since
/// the channel form does not carry a kind.
pub open spec fn rss_clean(d: DocView) -> bool {
    no_newline(d.title) && forall|i: int|
        0 <= i < d.entries.len() ==> no_newline(#[trigger] d.entries[i].title) && no_newline(
            d.entries[i].feed_url,
        ) && (match d.entries[i].site_url {
            Some(h) => no_newline(h),
            None => true,
        }) && d.entries[i].kind == EntryKind::Rss
}

proof fn lemma_rss_literals()
    ensures
        "<rss version=\""@ =~= seq![
            '<', 'r', 's', 's', ' ', 'v', 'e', 'r', 's', 'i', 'o', 'n', '=', '"',
        ],
        "<channel>"@ =~= seq!['<', 'c', 'h', 'a', 'n', 'n', 'e', 'l', '>'],
        "</channel>"@ =~= seq!['<', '/', 'c', 'h', 'a', 'n', 'n', 'e', 'l', '>'],
        "</rss>"@ =~= seq!['<', '/', 'r', 's', 's', '>'],
        "<item>"@ =~= seq!['<', 'i', 't', 'e', 'm', '>'],
        "</item>"@ =~= seq!['<', '/', 'i', 't', 'e', 'm', '>'],
        "<link>"@ =~= seq!['<', 'l', 'i', 'n', 'k', '>'],
        "</link>"@ =~= seq!['<', '/', 'l', 'i', 'n', 'k', '>'],
        "<description>"@ =~= seq![
            '<', 'd', 'e', 's', 'c', 'r', 'i', 'p', 't', 'i', 'o', 'n', '>',
        ],
        "</description>"@ =~= seq![
            '<', '/', 'd', 'e', 's', 'c', 'r', 'i', 'p', 't', 'i', 'o', 'n', '>',
        ],
{
    reveal_strlit("<rss version=\"");
    reveal_strlit("<channel>");
    reveal_strlit("</channel>");
    reveal_strlit("</rss>");
    reveal_strlit("<item>");
    reveal_strlit("</item>");
    reveal_strlit("<link>");
    reveal_strlit("</link>");
    reveal_strlit("<description>");
    reveal_strlit("</description>");
}

proof fn lemma_rss_open_rt(v: Seq<char>)
    requires
        attr_clean(v),
    ensures
        parse_rss_open(rss_open_line(v)) == Some(v),
{
    lemma_rss_literals();
    lemma_literals();
    let l = rss_open_line(v);
    let n = l.len() as int;
    assert(n == 16 + v.len());
    assert(l.subrange(0, 14) =~= "<rss version=\""@);
    assert(l[n - 1] == '>');
    assert(l[n - 2] == '"');
    assert forall|j: int| 14 <= j < n - 2 implies l[j] != '"' by {
        assert(l[j] == v[j - 14]);
    }
    lemma_find_from_is(l, 14, n - 2, '"');
    assert(l.subrange(14, n - 2) =~= v);
}

proof fn lemma_link_rt(x: Seq<char>)
    ensures
        parse_link(link_line(x)) == Some(x),
{
    lemma_rss_literals();
    let l = link_line(x);
    let n = l.len() as int;
    assert(n == 13 + x.len());
    assert(l.subrange(0, 6) =~= "<link>"@);
    assert(l.subrange(n - 7, n) =~= "</link>"@);
    assert(l.subrange(6, n - 7) =~= x);
}

proof fn lemma_desc_rt(x: Seq<char>)
    ensures
        parse_desc(desc_line(x)) == Some(x),
{
    lemma_rss_literals();
    let l = desc_line(x);
    let n = l.len() as int;
    assert(n == 27 + x.len());
    assert(l.subrange(0, 13) =~= "<description>"@);
    assert(l.subrange(n - 14, n) =~= "</description>"@);
    assert(l.subrange(13, n - 14) =~= x);
}

/// One line is fit to survive the line pipeline: non-blank, unpadded,
/// and without a newline.
spec fn line_shape(l: Seq<char>) -> bool {
    l.len() > 0 && !is_ws(l[0]) && !is_ws(l[l.len() - 1]) && no_newline(l)
}

/// A tagged single-line element of a newline-free text keeps the shape.
proof fn lemma_tagged_shape(open: Seq<char>, text: Seq<char>, close: Seq<char>)
    requires
        open.len() > 0,
        close.len() > 0,
        open[0] == '<',
        close[close.len() - 1] == '>',
        no_newline(open),
        no_newline(text),
        no_newline(close),
    ensures
        line_shape(open + text + close),
{
    let l = open + text + close;
    lemma_no_nl_concat(open, text);
    lemma_no_nl_concat(open + text, close);
    assert(l[0] == '<');
    assert(l[l.len() - 1] == close[close.len() - 1]);
}

/// Every line of one serialized item keeps the shape.
proof fn lemma_item_lines_shape(e: EntryView)
    requires
        no_newline(e.title),
        no_newline(e.feed_url),
        match e.site_url {
            Some(h) => no_newline(h),
            None => true,
        },
    ensures
        forall|j: int|
            0 <= j < item_lines(e).len() ==> line_shape(#[trigger] item_lines(e)[j]),
{
    lemma_rss_literals();
    lemma_literals();
    lemma_tagged_shape("<title>"@, e.title, "</title>"@);
    lemma_tagged_shape("<link>"@, e.feed_url, "</link>"@);
    match e.site_url {
        Some(h) => {
            lemma_tagged_shape("<description>"@, h, "</description>"@);
        },
        None => {},
    }
    assert forall|j: int| 0 <= j < item_lines(e).len() implies line_shape(
        #[trigger] item_lines(e)[j],
    ) by {
        let ls = item_lines(e);
        if j == 0 {
            assert(ls[j] == "<item>"@);
        } else if j == 1 {
            assert(ls[j] == title_line(e.title));
        } else if j == 2 {
            assert(ls[j] == link_line(e.feed_url));
        } else if j == ls.len() - 1 {
            assert(ls[j] == "</item>"@);
        } else {
            assert(ls[j] == desc_line(e.site_url.unwrap()));
        }
    }
}

/// Every line of the serialized item region keeps the shape.
proof fn lemma_items_lines_shape(es: Seq<EntryView>, k: int)
    requires
        0 <= k <= es.len(),
        forall|i: int|
            0 <= i < es.len() ==> no_newline(#[trigger] es[i].title) && no_newline(
                es[i].feed_url,
            ) && (match es[i].site_url {
                Some(h) => no_newline(h),
                None => true,
            }),
    ensures
        forall|j: int|
            0 <= j < items_lines(es, k).len() ==> line_shape(#[trigger] items_lines(es, k)[j]),
    decreases es.len() - k,
{
    if k < es.len() {
        lemma_item_lines_shape(es[k]);
        lemma_items_lines_shape(es, k + 1);
        assert forall|j: int| 0 <= j < items_lines(es, k).len() implies line_shape(
            #[trigger] items_lines(es, k)[j],
        ) by {
            let head = item_lines(es[k]);
            if j < head.len() {
                assert(items_lines(es, k)[j] == head[j]);
            } else {
                assert(items_lines(es, k)[j] == items_lines(es, k + 1)[j - head.len()]);
            }
        }
    }
}

/// Shifting the item region start is taking the suffix of the entries.
proof fn lemma_items_shift(es: Seq<EntryView>, k: int)
    requires
        0 <= k <= es.len(),
    ensures
        items_lines(es, k) == items_lines(es.skip(k), 0),
    decreases es.len() - k,
{
    if k >= es.len() {
        assert(es.skip(k) =~= Seq::<EntryView>::empty());
    } else {
        lemma_items_shift(es, k + 1);
        lemma_items_shift(es.skip(k), 1);
        assert(es.skip(k).skip(1) =~= es.skip(k + 1));
        assert(es.skip(k)[0] == es[k]);
    }
}

/// A run of canonical item lines is read back as exactly its entries.
proof fn lemma_items_rt(
    ls: Seq<Seq<char>>,
    i: int,
    end: int,
    es: Seq<EntryView>,
    taken: Seq<Seq<char>>,
)
    requires
        0 <= i,
        i + items_lines(es, 0).len() == end,
        end <= ls.len(),
        forall|j: int|
            0 <= j < items_lines(es, 0).len() ==> ls[i + j] == #[trigger] items_lines(es, 0)[j],
        forall|j: int|
            0 <= j < es.len() ==> no_newline(#[trigger] es[j].title) && no_newline(
                es[j].feed_url,
            ) && (match es[j].site_url {
                Some(h) => no_newline(h),
                None => true,
            }) && es[j].kind == EntryKind::Rss && es[j].feed_url.len() > 0,
        forall|j: int, l: int| 0 <= j < l < es.len() ==> es[j].feed_url != es[l].feed_url,
        forall|j: int| 0 <= j < es.len() ==> !taken.contains(#[trigger] es[j].feed_url),
    ensures
        parse_items(ls, i, end, taken) == Some(es),
    decreases es.len(),
{
    lemma_rss_literals();
    lemma_literals();
    if es.len() == 0 {
        assert(es =~= Seq::<EntryView>::empty());
    } else {
        let e0 = es[0];
        let head = item_lines(e0);
        let m0 = head.len() as int;
        let flat = items_lines(es, 0);
        assert(flat == head + items_lines(es, 1));
        lemma_items_shift(es, 1);
        let tail = es.skip(1);
        assert(flat.len() == m0 + items_lines(tail, 0).len());
        assert forall|j: int| 0 <= j < m0 implies ls[i + j] == head[j] by {
            assert(flat[j] == head[j]);
            assert(ls[i + j] == flat[j]);
        }
        assert(head[0] == "<item>"@);
        assert(ls[i + 0] == head[0]);
        assert(head[1] == title_line(e0.title));
        assert(ls[i + 1] == head[1]);
        assert(head[2] == link_line(e0.feed_url));
        assert(ls[i + 2] == head[2]);
        lemma_title_rt(e0.title);
        lemma_link_rt(e0.feed_url);
        match e0.site_url {
            Some(h) => {
                assert(m0 == 5);
                assert(head[3] == desc_line(h));
                assert(ls[i + 3] == head[3]);
                assert(head[4] == "</item>"@);
                assert(ls[i + 4] == head[4]);
                lemma_desc_rt(h);
            },
            None => {
                assert(m0 == 4);
                assert(head[3] == "</item>"@);
                assert(ls[i + 3] == head[3]);
                assert(parse_desc(ls[i + 3]) == None::<Seq<char>>);
            },
        }
        let tk2 = taken.push(e0.feed_url);
        assert forall|j: int| 0 <= j < items_lines(tail, 0).len() implies ls[i + m0 + j]
            == #[trigger] items_lines(tail, 0)[j] by {
            assert(flat[m0 + j] == items_lines(tail, 0)[j]);
            assert(ls[i + (m0 + j)] == flat[m0 + j]);
        }
        assert forall|j: int| 0 <= j < tail.len() implies !tk2.contains(
            #[trigger] tail[j].feed_url,
        ) by {
            assert(tail[j] == es[j + 1]);
            if tk2.contains(es[j + 1].feed_url) {
                let k = choose|k: int| 0 <= k < tk2.len() && tk2[k] == es[j + 1].feed_url;
                if k < taken.len() {
                    assert(taken[k] == es[j + 1].feed_url);
                    assert(taken.contains(es[j + 1].feed_url));
                } else {
                    assert(tk2[k] == e0.feed_url);
                    assert(es[0].feed_url == es[j + 1].feed_url);
                }
            }
        }
        assert forall|j: int| 0 <= j < tail.len() implies no_newline(#[trigger] tail[j].title)
            && no_newline(tail[j].feed_url) && (match tail[j].site_url {
            Some(h) => no_newline(h),
            None => true,
        }) && tail[j].kind == EntryKind::Rss && tail[j].feed_url.len() > 0 by {
            assert(tail[j] == es[j + 1]);
            assert(no_newline(es[j + 1].title));
        }
        assert forall|j: int, l: int| 0 <= j < l < tail.len() implies tail[j].feed_url
            != tail[l].feed_url by {
            assert(tail[j] == es[j + 1] && tail[l] == es[l + 1]);
        }
        lemma_items_rt(ls, i + m0, end, tail, tk2);
        assert(!taken.contains(e0.feed_url));
        assert(parse_items(ls, i, end, taken) == Some(seq![e0] + tail));
        assert(seq![e0] + tail =~= es);
    }
}

/// Round trip of the channel flavor: the canonical channel text of a
/// well-formed, clean document parses back to the very same document.
pub proof fn lemma_rss_round_trip(d: DocView)
    requires
        d.wf(),
        rss_clean(d),
    ensures
        parse_rss_spec(rss_doc_text(d)) == Ok::<DocView, ParseError>(d),
{
    lemma_rss_literals();
    lemma_literals();
    let lines = rss_doc_lines(d);
    let es = d.entries;
    let flat = items_lines(es, 0);
    let n = lines.len() as int;
    assert(n == 5 + flat.len());
    lemma_version_clean(d.version);
    lemma_items_lines_shape(es, 0);
    lemma_tagged_shape("<title>"@, d.title, "</title>"@);
    assert forall|j: int| 0 <= j < n implies line_shape(#[trigger] lines[j]) by {
        if j == 0 {
            assert(lines[j] == rss_open_line(d.version));
            lemma_no_nl_concat("<rss version=\""@, d.version);
            lemma_no_nl_concat("<rss version=\""@ + d.version, "\">"@);
            assert(lines[j][0] == '<');
            assert(lines[j][lines[j].len() - 1] == '>');
        } else if j == 1 {
            assert(lines[j] == "<channel>"@);
        } else if j == 2 {
            assert(lines[j] == title_line(d.title));
        } else if j < 3 + flat.len() {
            assert(lines[j] == flat[j - 3]);
        } else if j == n - 2 {
            assert(lines[j] == "</channel>"@);
        } else {
            assert(lines[j] == "</rss>"@);
        }
    }
    lemma_split_join(lines);
    let sp = lines.push(Seq::<char>::empty());
    assert(sp[sp.len() - 1].len() == 0);
    assert forall|j: int| 0 <= j < sp.len() - 1 implies #[trigger] sp[j].len() > 0 && !is_ws(
        sp[j][0],
    ) && !is_ws(sp[j][sp[j].len() - 1]) by {
        assert(sp[j] == lines[j]);
    }
    lemma_clean_of_canon(sp, 0);
    assert(sp.subrange(0, sp.len() - 1) =~= lines);
    assert(clean_lines(split_lines(rss_doc_text(d), 0), 0) == lines);
    lemma_rss_open_rt(d.version);
    lemma_title_rt(d.title);
    assert(lines[0] == rss_open_line(d.version));
    assert(lines[1] == "<channel>"@);
    assert(lines[2] == title_line(d.title));
    assert(lines[n - 2] == "</channel>"@);
    assert(lines[n - 1] == "</rss>"@);
    assert forall|j: int| 0 <= j < flat.len() implies lines[3 + j] == #[trigger] flat[j] by {
    }
    assert forall|j: int| 0 <= j < es.len() implies !Seq::<Seq<char>>::empty().contains(
        #[trigger] es[j].feed_url,
    ) by {
        assert(Seq::<Seq<char>>::empty().len() == 0);
    }
    assert forall|j: int| 0 <= j < es.len() implies no_newline(#[trigger] es[j].title)
        && no_newline(es[j].feed_url) && (match es[j].site_url {
        Some(h) => no_newline(h),
        None => true,
    }) && es[j].kind == EntryKind::Rss && es[j].feed_url.len() > 0 by {
        assert(no_newline(d.entries[j].title));
        assert(d.entries[j].feed_url.len() > 0);
    }
    lemma_items_rt(lines, 3, n - 2, es, Seq::empty());
    assert(parse_rss_clean_lines(lines) == Ok::<DocView, ParseError>(
        DocView { version: d.version, title: d.title, entries: es },
    ));
    assert(DocView { version: d.version, title: d.title, entries: es } == d);
}

} // verus!
