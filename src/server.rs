//! What the server answers: the route a request takes, the listing of the
//! data root, and the body and status sent back for a document.
use vstd::prelude::*;
use crate::source::ConversionError;
use crate::text::{chars_of, push_range, push_str, string_from_chars};

verus! {

/// Where a request goes.
#[derive(Debug)]
pub enum Route {
    /// The listing of the data root.
    Listing,
    /// The document with this key.
    Document(String),
}

/// The key of a request path: the path without its leading `/`.
pub open spec fn route_key(url: Seq<char>) -> Seq<char> {
    if url.len() > 0 && url[0] == '/' {
        url.subrange(1, url.len() as int)
    } else {
        url
    }
}

/// The route of the request path `url`: the listing for an empty key, the
/// document of that key otherwise. The method plays no part.
pub fn route(url: &str) -> (r: Route)
    ensures
        match r {
            Route::Listing => route_key(url@).len() == 0,
            Route::Document(k) => k@ == route_key(url@) && k@.len() > 0,
        },
{
    let v = chars_of(url);
    let start: usize = if v.len() > 0 && v[0] == '/' {
        1
    } else {
        0
    };
    if start == v.len() {
        Route::Listing
    } else {
        let mut k: Vec<char> = Vec::new();
        push_range(&mut k, &v, start, v.len());
        assert(v@.subrange(0, v@.len() as int) =~= v@);
        Route::Document(string_from_chars(&k))
    }
}

/// The path of the source of the document `key` under `data_root`.
pub open spec fn document_path_of(data_root: Seq<char>, key: Seq<char>) -> Seq<char> {
    data_root + seq!['/'] + key + ".md"@
}

/// The path of the source of the document `key` under `data_root`.
pub fn document_path(data_root: &str, key: &str) -> (r: String)
    ensures
        r@ == document_path_of(data_root@, key@),
{
    let mut out = chars_of(data_root);
    out.push('/');
    push_str(&mut out, key);
    push_str(&mut out, ".md");
    string_from_chars(&out)
}

/// The index of the last `.` in `n[0..=hi]`, or -1.
pub open spec fn last_dot(n: Seq<char>, hi: int) -> int
    decreases hi + 1,
{
    if hi < 0 {
        -1
    } else if n[hi] == '.' {
        hi
    } else {
        last_dot(n, hi - 1)
    }
}

/// The name `n` without its extension: what follows its last `.` goes,
/// with the dot, where at least one character follows that dot.
pub open spec fn stem(n: Seq<char>) -> Seq<char> {
    let i = last_dot(n, n.len() - 1);
    if i >= 0 && i + 1 < n.len() {
        n.subrange(0, i)
    } else {
        n
    }
}

/// The name without its extension.
pub fn strip_extension(name: &str) -> (r: String)
    ensures
        r@ == stem(name@),
{
    let v = chars_of(name);
    let mut j: usize = v.len();
    while j > 0 && v[j - 1] != '.'
        invariant
            j <= v@.len(),
            last_dot(v@, v@.len() - 1) == last_dot(v@, j - 1),
        decreases j,
    {
        j -= 1;
    }
    assert(last_dot(v@, v@.len() - 1) == j - 1);
    let mut out: Vec<char> = Vec::new();
    if j > 0 && j < v.len() {
        push_range(&mut out, &v, 0, j - 1);
    } else {
        push_range(&mut out, &v, 0, v.len());
        assert(v@.subrange(0, v@.len() as int) =~= v@);
    }
    string_from_chars(&out)
}

/// The link to the document named `name` in the listing.
pub open spec fn link_of(name: Seq<char>) -> Seq<char> {
    "<a href=\""@ + stem(name) + "\">"@ + stem(name) + "</a><br />"@
}

/// The listing of the entries `names`, in the order given.
pub open spec fn listing_of(names: Seq<Seq<char>>) -> Seq<char>
    decreases names.len(),
{
    if names.len() == 0 {
        Seq::<char>::empty()
    } else {
        listing_of(names.drop_last()) + link_of(names.last())
    }
}

pub open spec fn string_views(names: Seq<String>) -> Seq<Seq<char>> {
    names.map_values(|s: String| s@)
}

/// The listing of the entries `names`: a fragment of HTML with one link to
/// each, named after the entry without its extension.
pub fn listing(names: &Vec<String>) -> (r: String)
    ensures
        r@ == listing_of(string_views(names@)),
{
    let mut out: Vec<char> = Vec::new();
    let n = names.len();
    let mut i: usize = 0;
    while i < n
        invariant
            n == names@.len(),
            i <= n,
            out@ == listing_of(string_views(names@).subrange(0, i as int)),
        decreases n - i,
    {
        let s = strip_extension(names[i].as_str());
        let ghost before = out@;
        push_str(&mut out, "<a href=\"");
        push_str(&mut out, s.as_str());
        push_str(&mut out, "\">");
        push_str(&mut out, s.as_str());
        push_str(&mut out, "</a><br />");
        let ghost next = string_views(names@).subrange(0, i + 1);
        assert(next.drop_last() =~= string_views(names@).subrange(0, i as int));
        assert(next.last() == names@[i as int]@);
        assert(out@ =~= before + link_of(next.last()));
        i += 1;
    }
    assert(string_views(names@).subrange(0, n as int) =~= string_views(names@));
    string_from_chars(&out)
}

/// The body sent when a document cannot be converted.
pub open spec fn fallback_body() -> Seq<char> {
    "404"@
}

/// The status and body sent for the outcome of a conversion: the document
/// with status 200, or the fallback body with status 404.
pub fn document_response(result: Result<String, ConversionError>) -> (r: (u16, String))
    ensures
        match result {
            Ok(d) => r.0 == 200 && r.1@ == d@,
            Err(_) => r.0 == 404 && r.1@ == fallback_body(),
        },
{
    match result {
        Ok(d) => (200, d),
        Err(_) => {
            let body = chars_of("404");
            (404, string_from_chars(&body))
        },
    }
}

} // verus!
