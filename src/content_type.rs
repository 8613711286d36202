use vstd::prelude::*;
use crate::text::{chars_of, tail_is};

verus! {

/// The position of the last `.` in `s`, or `None` where `s` holds no `.`.
pub open spec fn last_dot(s: Seq<char>) -> Option<int>
    decreases s.len(),
{
    if s.len() == 0 {
        None
    } else if s.last() == '.' {
        Some(s.len() - 1)
    } else {
        last_dot(s.drop_last())
    }
}

/// The extension of a path: the text after its last `.`, if it has one.
pub open spec fn extension_of(path: Seq<char>) -> Option<Seq<char>> {
    match last_dot(path) {
        Some(d) => Some(path.subrange(d + 1, path.len() as int)),
        None => None,
    }
}

/// The content type used where no extension is known.
pub open spec fn default_content_type() -> Seq<char> {
    "application/octet-stream"@
}

/// The content type of a known extension (compared case-sensitively), or the default.
pub open spec fn content_type_of_extension(e: Seq<char>) -> Seq<char> {
    if e == "html"@ {
        "text/html"@
    } else if e == "css"@ {
        "text/css"@
    } else if e == "xml"@ {
        "text/xml"@
    } else if e == "txt"@ {
        "text/plain"@
    } else if e == "csv"@ {
        "text/csv"@
    } else if e == "js"@ {
        "application/javascript"@
    } else if e == "json"@ {
        "application/json"@
    } else if e == "pdf"@ {
        "application/pdf"@
    } else if e == "zip"@ {
        "application/zip"@
    } else if e == "gif"@ {
        "image/gif"@
    } else if e == "jpeg"@ || e == "jpg"@ {
        "image/jpeg"@
    } else if e == "png"@ {
        "image/png"@
    } else if e == "ico"@ {
        "image/vnd.microsoft.icon"@
    } else {
        default_content_type()
    }
}

/// The content type that a path's extension gives it.
pub open spec fn content_type_of(path: Seq<char>) -> Seq<char> {
    match extension_of(path) {
        Some(e) => content_type_of_extension(e),
        None => default_content_type(),
    }
}

/// Finds the position of the last `.` in `cs`.
fn find_last_dot(cs: &Vec<char>) -> (r: Option<usize>)
    ensures
        match r {
            Some(d) => d < cs@.len() && last_dot(cs@) == Some(d as int),
            None => last_dot(cs@) is None,
        },
{
    let mut i: usize = cs.len();
    assert(cs@.subrange(0, i as int) =~= cs@);
    while i > 0
        invariant
            i <= cs@.len(),
            last_dot(cs@) == last_dot(cs@.subrange(0, i as int)),
        decreases i,
    {
        assert(cs@.subrange(0, i as int).drop_last() =~= cs@.subrange(0, i - 1));
        if cs[i - 1] == '.' {
            return Some(i - 1);
        }
        i = i - 1;
    }
    None
}

/// Maps a path's extension to its HTTP content type; `application/octet-stream`
/// where the extension is missing or unknown.
pub fn path_to_content_type(path: &str) -> (r: &'static str)
    ensures
        r@ == content_type_of(path@),
{
    let cs = chars_of(path);
    let d = match find_last_dot(&cs) {
        Some(d) => d,
        None => {
            return "application/octet-stream";
        },
    };
    let n = cs.len();
    assert(d < n);
    let e = d + 1;
    if tail_is(&cs, e, "html") {
        "text/html"
    } else if tail_is(&cs, e, "css") {
        "text/css"
    } else if tail_is(&cs, e, "xml") {
        "text/xml"
    } else if tail_is(&cs, e, "txt") {
        "text/plain"
    } else if tail_is(&cs, e, "csv") {
        "text/csv"
    } else if tail_is(&cs, e, "js") {
        "application/javascript"
    } else if tail_is(&cs, e, "json") {
        "application/json"
    } else if tail_is(&cs, e, "pdf") {
        "application/pdf"
    } else if tail_is(&cs, e, "zip") {
        "application/zip"
    } else if tail_is(&cs, e, "gif") {
        "image/gif"
    } else if tail_is(&cs, e, "jpeg") || tail_is(&cs, e, "jpg") {
        "image/jpeg"
    } else if tail_is(&cs, e, "png") {
        "image/png"
    } else if tail_is(&cs, e, "ico") {
        "image/vnd.microsoft.icon"
    } else {
        "application/octet-stream"
    }
}

} // verus!
