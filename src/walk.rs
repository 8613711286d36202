use vstd::prelude::*;

verus! {

/// What a directory entry is, read without following symbolic links.
pub enum EntryKind {
    /// A regular file.
    File,
    /// A directory.
    Directory,
    /// A symbolic link, or anything else that is neither.
    Other,
}

/// What the walk does with a directory entry.
pub enum WalkStep {
    /// Load the entry as a file.
    Collect,
    /// List the entry's own contents.
    Descend,
    /// Leave the entry out.
    Skip,
}

/// Regular files are loaded and directories walked into; links are never followed.
pub fn walk_step(kind: &EntryKind) -> (r: WalkStep)
    ensures
        (r is Collect) <==> (*kind is File),
        (r is Descend) <==> (*kind is Directory),
        (r is Skip) <==> (*kind is Other),
{
    match kind {
        EntryKind::File => WalkStep::Collect,
        EntryKind::Directory => WalkStep::Descend,
        EntryKind::Other => WalkStep::Skip,
    }
}

/// Adds what a subdirectory's listing found; a listing that failed adds nothing.
pub fn merge_listing(found: &mut Vec<String>, listing: Option<Vec<String>>)
    ensures
        final(found)@ == match listing {
            Some(v) => old(found)@ + v@,
            None => old(found)@,
        },
{
    match listing {
        Some(mut v) => found.append(&mut v),
        None => {},
    }
}

} // verus!
