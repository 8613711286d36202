use vstd::prelude::*;
use crate::table::AssetTable;

verus! {

/// What to answer to a request.
pub enum Resolution {
    /// Send these bytes with this content type.
    Serve { content_type: String, data: Vec<u8> },
    /// Send the client on to `location`.
    Redirect { location: String },
    /// Nothing is there; `message` says what was asked for.
    NotFound { message: String },
}

/// The message of a request for `path` that finds nothing.
pub open spec fn not_found_message(path: Seq<char>) -> Seq<char> {
    "Couldn't find '"@ + path + "'"@
}

/// `path` with a `/` at the end.
pub open spec fn with_trailing_slash(path: Seq<char>) -> Seq<char> {
    path.push('/')
}

/// Decides the answer to a request for `path`: the asset stored under it; else a
/// redirect to `path/` where something is stored there; else not found.
pub fn resolve(table: &AssetTable, path: &str) -> (r: Resolution)
    ensures
        match r {
            Resolution::Serve { content_type, data } => table@.contains_key(path@)
                && table@[path@] == (content_type@, data@),
            Resolution::Redirect { location } => !table@.contains_key(path@)
                && table@.contains_key(with_trailing_slash(path@)) && location@
                == with_trailing_slash(path@),
            Resolution::NotFound { message } => !table@.contains_key(path@) && !table@.contains_key(
                with_trailing_slash(path@),
            ) && message@ == not_found_message(path@),
        },
{
    let key = String::from_str(path);
    match table.get(&key) {
        Some(found) => {
            let copy = found.duplicate();
            return Resolution::Serve { content_type: copy.content_type, data: copy.data };
        },
        None => {},
    }
    let slashed = key.concat("/");
    proof {
        assert("/"@ =~= seq!['/']) by {
            reveal_strlit("/");
        }
        assert(slashed@ =~= with_trailing_slash(path@));
    }
    if table.contains_key(&slashed) {
        return Resolution::Redirect { location: slashed };
    }
    let mut message = String::from_str("Couldn't find '");
    message.append(path);
    message.append("'");
    Resolution::NotFound { message }
}

} // verus!
