use vstd::prelude::*;

verus! {

/// Whitespace that may pad a line of the document: blanks, tabs and
/// carriage returns (so that files with CRLF endings parse).
pub open spec fn is_ws(c: char) -> bool {
    c == ' ' || c == '\t' || c == '\r'
}

/// First index at or after `i` where `c` occurs in `s`, or `s.len()` if none.
pub open spec fn find_from(s: Seq<char>, i: int, c: char) -> int
    decreases s.len() - i,
{
    if i < 0 || i >= s.len() {
        s.len() as int
    } else if s[i] == c {
        i
    } else {
        find_from(s, i + 1, c)
    }
}

/// `find_from` returns the least index in `[i, s.len())` holding `c`,
/// or `s.len()` when there is none.
pub proof fn lemma_find_from(s: Seq<char>, i: int, c: char)
    requires
        0 <= i <= s.len(),
    ensures
        i <= find_from(s, i, c) <= s.len(),
        find_from(s, i, c) < s.len() ==> s[find_from(s, i, c)] == c,
        forall|j: int| i <= j < find_from(s, i, c) ==> s[j] != c,
    decreases s.len() - i,
{
    if i < s.len() && s[i] != c {
        lemma_find_from(s, i + 1, c);
    }
}

/// If `k` is the least index at or after `i` holding `c`, `find_from` returns `k`.
pub proof fn lemma_find_from_is(s: Seq<char>, i: int, k: int, c: char)
    requires
        0 <= i <= k < s.len(),
        s[k] == c,
        forall|j: int| i <= j < k ==> s[j] != c,
    ensures
        find_from(s, i, c) == k,
    decreases k - i,
{
    if i < k {
        lemma_find_from_is(s, i + 1, k, c);
    }
}

/// Exec counterpart of `find_from`.
pub fn find_char(s: &str, i: usize, c: char) -> (r: usize)
    requires
        i <= s@.len(),
    ensures
        r as int == find_from(s@, i as int, c),
        r <= s@.len(),
    decreases s@.len() - i,
{
    proof {
        lemma_find_from(s@, i as int, c);
    }
    let n = s.unicode_len();
    if i >= n {
        n
    } else if s.get_char(i) == c {
        i
    } else {
        find_char(s, i + 1, c)
    }
}

/// Whether two string slices hold the same characters.
pub fn str_eq(a: &str, b: &str) -> (r: bool)
    ensures
        r == (a@ == b@),
{
    let ao = a.to_owned();
    let bo = b.to_owned();
    ao == bo
}

/// Index of the first non-whitespace character at or after `i`, or `s.len()`.
pub open spec fn first_non_ws(s: Seq<char>, i: int) -> int
    decreases s.len() - i,
{
    if i < 0 || i >= s.len() {
        s.len() as int
    } else if is_ws(s[i]) {
        first_non_ws(s, i + 1)
    } else {
        i
    }
}

pub proof fn lemma_first_non_ws(s: Seq<char>, i: int)
    requires
        0 <= i <= s.len(),
    ensures
        i <= first_non_ws(s, i) <= s.len(),
        first_non_ws(s, i) < s.len() ==> !is_ws(s[first_non_ws(s, i)]),
        forall|j: int| i <= j < first_non_ws(s, i) ==> is_ws(s[j]),
    decreases s.len() - i,
{
    if i < s.len() && is_ws(s[i]) {
        lemma_first_non_ws(s, i + 1);
    }
}

/// One past the last non-whitespace character strictly before `i`, or `0`.
pub open spec fn last_non_ws(s: Seq<char>, i: int) -> int
    decreases i,
{
    if i <= 0 || i > s.len() {
        0
    } else if is_ws(s[i - 1]) {
        last_non_ws(s, i - 1)
    } else {
        i
    }
}

/// The line with leading and trailing whitespace removed.
pub open spec fn trim(s: Seq<char>) -> Seq<char> {
    let a = first_non_ws(s, 0);
    if a == s.len() {
        Seq::empty()
    } else {
        s.subrange(a, last_non_ws(s, s.len() as int))
    }
}

/// A line that neither starts nor ends with whitespace trims to itself.
pub proof fn lemma_trim_stable(s: Seq<char>)
    requires
        s.len() > 0,
        !is_ws(s[0]),
        !is_ws(s[s.len() - 1]),
    ensures
        trim(s) == s,
{
    assert(first_non_ws(s, 0) == 0);
    assert(last_non_ws(s, s.len() as int) == s.len());
    assert(trim(s) =~= s);
}

/// Exec counterpart of `trim`.
pub fn trim_line(s: &str) -> (r: String)
    ensures
        r@ == trim(s@),
{
    let n = s.unicode_len();
    let mut a: usize = 0;
    while a < n && (s.get_char(a) == ' ' || s.get_char(a) == '\t' || s.get_char(a) == '\r')
        invariant
            a <= n,
            n == s@.len(),
            first_non_ws(s@, a as int) == first_non_ws(s@, 0),
            forall|j: int| 0 <= j < a ==> is_ws(s@[j]),
        decreases n - a,
    {
        a += 1;
    }
    assert(first_non_ws(s@, 0) == a as int);
    if a == n {
        assert(trim(s@) =~= Seq::<char>::empty());
        String::new()
    } else {
        let mut b: usize = n;
        while b > a && (s.get_char(b - 1) == ' ' || s.get_char(b - 1) == '\t' || s.get_char(b - 1)
            == '\r')
            invariant
                a <= b <= n,
                n == s@.len(),
                last_non_ws(s@, b as int) == last_non_ws(s@, n as int),
                forall|j: int| b <= j < n ==> is_ws(s@[j]),
            decreases b,
        {
            b -= 1;
        }
        proof {
            lemma_first_non_ws(s@, 0);
            if b == a {
                assert(is_ws(s@[a as int]));
                assert(false);
            }
            assert(last_non_ws(s@, b as int) == b as int);
        }
        let piece = s.substring_char(a, b);
        piece.to_owned()
    }
}

/// The views of a sequence of strings.
pub open spec fn views_of(v: Seq<String>) -> Seq<Seq<char>> {
    v.map_values(|x: String| x@)
}

/// The lines of `s` from index `i` on, split at newline characters.
pub open spec fn split_lines(s: Seq<char>, i: int) -> Seq<Seq<char>>
    decreases s.len() - i,
        when 0 <= i <= s.len()
        via split_lines_dec
{
    let e = find_from(s, i, '\n');
    if e >= s.len() {
        seq![s.subrange(i, s.len() as int)]
    } else {
        seq![s.subrange(i, e)] + split_lines(s, e + 1)
    }
}

#[via_fn]
proof fn split_lines_dec(s: Seq<char>, i: int) {
    lemma_find_from(s, i, '\n');
}

/// Exec counterpart of `split_lines`.
pub fn split_lines_exec(s: &str, i: usize) -> (r: Vec<String>)
    requires
        i <= s@.len(),
    ensures
        views_of(r@) == split_lines(s@, i as int),
    decreases s@.len() - i,
{
    proof {
        lemma_find_from(s@, i as int, '\n');
    }
    let n = s.unicode_len();
    let e = find_char(s, i, '\n');
    if e >= n {
        let piece = s.substring_char(i, n).to_owned();
        let mut v: Vec<String> = Vec::new();
        v.push(piece);
        assert(views_of(v@) =~= split_lines(s@, i as int));
        v
    } else {
        let piece = s.substring_char(i, e).to_owned();
        let mut rest = split_lines_exec(s, e + 1);
        rest.insert(0, piece);
        assert(views_of(rest@) =~= split_lines(s@, i as int));
        rest
    }
}

/// The lines of `ls` from index `i` on, each trimmed, with blank lines dropped.
pub open spec fn clean_lines(ls: Seq<Seq<char>>, i: int) -> Seq<Seq<char>>
    decreases ls.len() - i,
{
    if i < 0 || i >= ls.len() {
        Seq::empty()
    } else {
        let t = trim(ls[i]);
        if t.len() == 0 {
            clean_lines(ls, i + 1)
        } else {
            seq![t] + clean_lines(ls, i + 1)
        }
    }
}

/// Exec counterpart of `clean_lines`.
pub fn clean_lines_exec(ls: &Vec<String>, i: usize) -> (r: Vec<String>)
    requires
        i <= ls@.len(),
    ensures
        views_of(r@) == clean_lines(views_of(ls@), i as int),
    decreases ls@.len() - i,
{
    if i >= ls.len() {
        let v: Vec<String> = Vec::new();
        assert(views_of(v@) =~= clean_lines(views_of(ls@), i as int));
        v
    } else {
        let t = trim_line(ls[i].as_str());
        if t.unicode_len() == 0 {
            let r = clean_lines_exec(ls, i + 1);
            assert(trim(views_of(ls@)[i as int]).len() == 0);
            r
        } else {
            let mut rest = clean_lines_exec(ls, i + 1);
            rest.insert(0, t);
            assert(views_of(rest@) =~= clean_lines(views_of(ls@), i as int));
            rest
        }
    }
}

/// Whether some string of `v` holds the characters of `s`.
pub fn contains_str(v: &Vec<String>, s: &str) -> (r: bool)
    ensures
        r == views_of(v@).contains(s@),
{
    let mut i: usize = 0;
    while i < v.len()
        invariant
            i <= v@.len(),
            forall|j: int| 0 <= j < i ==> views_of(v@)[j] != s@,
        decreases v@.len() - i,
    {
        if str_eq(v[i].as_str(), s) {
            proof {
                assert(views_of(v@)[i as int] == s@);
            }
            return true;
        }
        i += 1;
    }
    proof {
        if views_of(v@).contains(s@) {
            let j = choose|j: int| 0 <= j < views_of(v@).len() && views_of(v@)[j] == s@;
        }
    }
    false
}

} // verus!
