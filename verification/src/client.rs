//! Where the session cookies come from, and how a cookie string becomes cookie lines.

use vstd::prelude::*;
use crate::text::{
    is_ws, lemma_split_concat, lemma_trim_unchanged, has_prefix, push_chars, split, split_chars, starts_with, sub_chars, to_chars, trim, trim_chars,
    find_first, views,
};

verus! {

/// Whether `s` starts with `http://` or `https://`.
pub open spec fn is_http_url(s: Seq<char>) -> bool {
    has_prefix(s, "http://"@) || has_prefix(s, "https://"@)
}

/// Whether `s` starts with `http://` or `https://`.
pub fn looks_like_url(s: &str) -> (r: bool)
    ensures
        r == is_http_url(s@),
{
    let cs = to_chars(s);
    starts_with(&cs, &to_chars("http://")) || starts_with(&cs, &to_chars("https://"))
}

/// Where to load the cookies from.
#[derive(Debug, Clone, PartialEq, Eq)]
pub enum CookieSource {
    /// Fetch the cookie string from this address.
    Url(String),
    /// Use this cookie string as it is.
    Inline(String),
    /// Read the cookie string from this file. A missing file is an error only when the file
    /// was named explicitly; otherwise it only warrants a warning.
    File { path: String, explicit: bool },
}

/// The file read when no cookie source is given.
pub open spec fn default_cookie_file() -> Seq<char> {
    "cookies.txt"@
}

/// The source of the cookies: a cookie argument wins over a cookie file; either is fetched
/// when it is an `http(s)://` address; without a cookie argument, the named file or else
/// `cookies.txt` is read.
pub fn cookie_source(cookie_input: Option<&str>, cookie_file: Option<&str>) -> (r: CookieSource)
    ensures
        match cookie_input {
            Some(c) => if is_http_url(c@) {
                r matches CookieSource::Url(u) && u@ == c@
            } else {
                r matches CookieSource::Inline(t) && t@ == c@
            },
            None => {
                let f = match cookie_file {
                    Some(f) => f@,
                    None => default_cookie_file(),
                };
                if is_http_url(f) {
                    r matches CookieSource::Url(u) && u@ == f
                } else {
                    r matches CookieSource::File { path, explicit } && path@ == f && explicit
                        == cookie_file is Some
                }
            },
        },
{
    match cookie_input {
        Some(c) => {
            if looks_like_url(c) {
                CookieSource::Url(c.to_owned())
            } else {
                CookieSource::Inline(c.to_owned())
            }
        },
        None => {
            let f: &str = match cookie_file {
                Some(f) => f,
                None => "cookies.txt",
            };
            if looks_like_url(f) {
                CookieSource::Url(f.to_owned())
            } else {
                CookieSource::File { path: f.to_owned(), explicit: cookie_file.is_some() }
            }
        },
    }
}

/// The attributes given to every cookie: the site's domain and the root path.
pub open spec fn cookie_attributes() -> Seq<char> {
    "; Domain=kukufm.com; Path=/"@
}

/// The cookie line for one `;`-separated piece of a cookie string: none for a blank piece, a
/// comment (`#...`) or a piece without `=`; otherwise `name=value` (each trimmed, split at the
/// first `=`) followed by the cookie attributes.
pub open spec fn cookie_line(piece: Seq<char>) -> Option<Seq<char>> {
    let t = trim(piece);
    if t.len() == 0 || t[0] == '#' {
        None
    } else {
        match t.index_of_first('=') {
            Some(e) => Some(trim(t.take(e)) + seq!['='] + trim(t.skip(e + 1)) + cookie_attributes()),
            None => None,
        }
    }
}

/// The cookie lines of a cookie string such as `a=1; b=2`, in order.
pub open spec fn cookie_lines(raw: Seq<char>) -> Seq<Seq<char>> {
    split(raw, ';').filter_map(|p: Seq<char>| cookie_line(p))
}

/// The views of a vector of strings.
pub open spec fn string_views(v: Seq<String>) -> Seq<Seq<char>> {
    v.map_values(|s: String| s@)
}

/// The cookie line for one piece of a cookie string, if it holds a cookie.
fn line_of_piece(piece: &[char]) -> (r: Option<String>)
    ensures
        match r {
            Some(l) => cookie_line(piece@) == Some(l@),
            None => cookie_line(piece@) is None,
        },
{
    let t = trim_chars(piece);
    if t.len() == 0 || t[0] == '#' {
        return None;
    }
    match find_first(&t, '=') {
        None => None,
        Some(e) => {
            let name = trim_chars(&sub_chars(&t, 0, e));
            let value = trim_chars(&sub_chars(&t, e + 1, t.len()));
            let mut line = String::new();
            push_chars(&mut line, &name);
            push_chars(&mut line, &['=']);
            push_chars(&mut line, &value);
            line.append("; Domain=kukufm.com; Path=/");
            assert(t@.take(e as int) == t@.subrange(0, e as int));
            assert(t@.skip(e + 1) == t@.subrange(e + 1, t@.len() as int));
            Some(line)
        },
    }
}

/// The cookie lines of a cookie string, ready for a cookie jar; their number is the number of
/// cookies loaded.
pub fn parse_cookie_lines(raw: &str) -> (r: Vec<String>)
    ensures
        string_views(r@) == cookie_lines(raw@),
{
    let pieces = split_chars(&to_chars(raw), ';');
    let ghost ps = views(pieces@);
    let mut lines: Vec<String> = Vec::new();
    let mut i: usize = 0;
    assert(ps.take(0) =~= Seq::<Seq<char>>::empty());
    assert(string_views(lines@) =~= ps.take(0).filter_map(|p: Seq<char>| cookie_line(p)));
    while i < pieces.len()
        invariant
            ps == views(pieces@),
            i <= pieces@.len(),
            string_views(lines@) == ps.take(i as int).filter_map(|p: Seq<char>| cookie_line(p)),
        decreases pieces@.len() - i,
    {
        let ghost before = lines@;
        assert(ps.take(i + 1).drop_last() == ps.take(i as int));
        assert(ps.take(i + 1).last() == pieces@[i as int]@);
        match line_of_piece(&pieces[i]) {
            Some(l) => {
                lines.push(l);
                assert(string_views(lines@) =~= string_views(before) + seq![l@]);
                assert(ps.take(i + 1).filter_map(|p: Seq<char>| cookie_line(p)) == ps.take(i as int).filter_map(|p: Seq<char>| cookie_line(p)) + seq![l@]);
            },
            None => {
                assert(ps.take(i + 1).filter_map(|p: Seq<char>| cookie_line(p)) == ps.take(i as int).filter_map(|p: Seq<char>| cookie_line(p)));
            },
        }
        i += 1;
    }
    assert(ps.take(pieces@.len() as int) == ps);
    lines
}


/// A cookie keeps its name and value exactly as written: for a name `n` without `=` that is not
/// a comment and a value `v`, neither with white space at its ends, the piece `n=v` becomes the
/// line `n=v; Domain=kukufm.com; Path=/`.
pub proof fn lemma_cookie_line_keeps_name_and_value(n: Seq<char>, v: Seq<char>)
    requires
        n.len() > 0,
        !n.contains('='),
        n[0] != '#',
        !is_ws(n[0]),
        !is_ws(n.last()),
        v.len() > 0 ==> !is_ws(v[0]) && !is_ws(v.last()),
    ensures
        cookie_line(n + seq!['='] + v) == Some(n + seq!['='] + v + "; Domain=kukufm.com; Path=/"@),
{
    let piece = n + seq!['='] + v;
    assert(piece[0] == n[0]);
    assert(piece.last() == if v.len() > 0 { v.last() } else { '=' });
    lemma_trim_unchanged(piece);
    lemma_trim_unchanged(n);
    lemma_trim_unchanged(v);
    let e = n.len() as int;
    assert(piece[e] == '=');
    piece.index_of_first_ensures('=');
    let i = piece.index_of_first('=').unwrap();
    if i < e {
        assert(piece[i] == n[i]);
        assert(n.contains('='));
    }
    if i > e {
        assert(0 <= e < i < piece.len());
    }
    assert(piece.take(e) =~= n);
    assert(piece.skip(e + 1) =~= v);
}

/// The cookies of two strings joined by `;` are the cookies of the first followed by those of
/// the second.
pub proof fn lemma_cookie_lines_concat(a: Seq<char>, b: Seq<char>)
    ensures
        cookie_lines(a + seq![';'] + b) == cookie_lines(a) + cookie_lines(b),
{
    lemma_split_concat(a, b, ';');
    lemma_filter_map_concat(split(a, ';'), split(b, ';'));
}

/// Keeping the cookie lines of two lists of pieces one after the other keeps those of each.
proof fn lemma_filter_map_concat(x: Seq<Seq<char>>, y: Seq<Seq<char>>)
    ensures
        (x + y).filter_map(|p: Seq<char>| cookie_line(p)) == x.filter_map(|p: Seq<char>| cookie_line(p))
            + y.filter_map(|p: Seq<char>| cookie_line(p)),
    decreases y.len(),
{
    if y.len() == 0 {
        assert(x + y =~= x);
        assert(x.filter_map(|p: Seq<char>| cookie_line(p)) + y.filter_map(|p: Seq<char>| cookie_line(p))
            =~= x.filter_map(|p: Seq<char>| cookie_line(p)));
    } else {
        lemma_filter_map_concat(x, y.drop_last());
        assert((x + y).drop_last() =~= x + y.drop_last());
        assert((x + y).last() == y.last());
        let fx = x.filter_map(|p: Seq<char>| cookie_line(p));
        let fy = y.drop_last().filter_map(|p: Seq<char>| cookie_line(p));
        match cookie_line(y.last()) {
            Some(l) => {
                assert(fx + fy + seq![l] =~= fx + (fy + seq![l]));
            },
            None => {},
        }
    }
}

} // verus!
