//! The content-type table of the static-asset handler, keyed by the text
//! after the last dot of the requested path.

use vstd::prelude::*;

use crate::text::str_eq;

verus! {

/// The text after the last `.` of the path; the whole path when it has no
/// dot, and empty when it ends in a dot.
pub open spec fn ext_of(p: Seq<char>) -> Seq<char>
    decreases p.len(),
{
    if p.len() == 0 {
        Seq::empty()
    } else if p.last() == '.' {
        Seq::empty()
    } else {
        ext_of(p.drop_last()).push(p.last())
    }
}

proof fn lemma_ext_of_skip(p: Seq<char>, d: int)
    requires
        0 <= d <= p.len(),
        forall|j: int| d <= j < p.len() ==> p[j] != '.',
        d == 0 || p[d - 1] == '.',
    ensures
        ext_of(p) == p.skip(d),
    decreases p.len(),
{
    if d == p.len() {
        assert(p.skip(d) =~= Seq::<char>::empty());
    } else {
        assert(p.last() != '.');
        let q = p.drop_last();
        assert(forall|j: int| d <= j < q.len() ==> q[j] == p[j]);
        if d > 0 {
            assert(q[d - 1] == p[d - 1]);
        }
        lemma_ext_of_skip(q, d);
        assert(q.skip(d).push(p.last()) =~= p.skip(d));
    }
}

/// The content type served for a given extension.
pub open spec fn content_type_of(ext: Seq<char>) -> Seq<char> {
    if ext == "css"@ {
        "text/css"@
    } else if ext == "js"@ {
        "application/javascript"@
    } else if ext == "png"@ {
        "image/png"@
    } else if ext == "jpg"@ || ext == "jpeg"@ {
        "image/jpeg"@
    } else if ext == "svg"@ {
        "image/svg+xml"@
    } else if ext == "woff"@ {
        "font/woff"@
    } else if ext == "woff2"@ {
        "font/woff2"@
    } else if ext == "ttf"@ {
        "font/ttf"@
    } else if ext == "pdf"@ {
        "application/pdf"@
    } else {
        "text/plain"@
    }
}

/// The content type to serve for a static-asset path, decided by the text
/// after its last dot.
pub fn content_type_for(path: &str) -> (ct: &'static str)
    ensures
        ct@ == content_type_of(ext_of(path@)),
{
    let n: usize = path.unicode_len();
    let mut d: usize = n;
    loop
        invariant_except_break
            0 <= d <= n,
            n == path@.len(),
            forall|j: int| d <= j < n ==> path@[j] != '.',
        ensures
            0 <= d <= n,
            n == path@.len(),
            forall|j: int| d <= j < n ==> path@[j] != '.',
            d == 0 || path@[d - 1] == '.',
        decreases d,
    {
        if d == 0 {
            break ;
        }
        if path.get_char(d - 1) == '.' {
            break ;
        }
        d = d - 1;
    }
    let ext = path.substring_char(d, n);
    proof {
        lemma_ext_of_skip(path@, d as int);
        assert(path@.skip(d as int) =~= path@.subrange(d as int, n as int));
    }
    if str_eq(ext, "css") {
        "text/css"
    } else if str_eq(ext, "js") {
        "application/javascript"
    } else if str_eq(ext, "png") {
        "image/png"
    } else if str_eq(ext, "jpg") || str_eq(ext, "jpeg") {
        "image/jpeg"
    } else if str_eq(ext, "svg") {
        "image/svg+xml"
    } else if str_eq(ext, "woff") {
        "font/woff"
    } else if str_eq(ext, "woff2") {
        "font/woff2"
    } else if str_eq(ext, "ttf") {
        "font/ttf"
    } else if str_eq(ext, "pdf") {
        "application/pdf"
    } else {
        "text/plain"
    }
}

} // verus!
