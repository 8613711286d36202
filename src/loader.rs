use vstd::prelude::*;
use crate::content_type::{content_type_of, path_to_content_type};
use crate::paths::{index_alias, index_dir_of, key_of, normalize_key};
use crate::table::{AssetTable, FileData};

verus! {

/// `m` after the file with key `key` and asset `asset` is stored: under its key,
/// and under its directory too where the key ends in `index.html`.
pub open spec fn with_file(
    m: Map<Seq<char>, (Seq<char>, Seq<u8>)>,
    key: Seq<char>,
    asset: (Seq<char>, Seq<u8>),
) -> Map<Seq<char>, (Seq<char>, Seq<u8>)> {
    match index_alias(key) {
        Some(d) => m.insert(key, asset).insert(d, asset),
        None => m.insert(key, asset),
    }
}

/// The asset of a file at `path` with contents `data`, loaded from `dir`.
pub open spec fn asset_of(dir: Seq<char>, path: Seq<char>, data: Seq<u8>) -> (Seq<char>, Seq<u8>) {
    (content_type_of(key_of(dir, path)), data)
}

/// The table that loading `files` (path and contents, in the order read) from `dir` gives.
pub open spec fn loaded_table(dir: Seq<char>, files: Seq<(Seq<char>, Seq<u8>)>) -> Map<
    Seq<char>,
    (Seq<char>, Seq<u8>),
>
    decreases files.len(),
{
    if files.len() == 0 {
        Map::empty()
    } else {
        let f = files.last();
        with_file(loaded_table(dir, files.drop_last()), key_of(dir, f.0), asset_of(dir, f.0, f.1))
    }
}

/// The paths and contents of a list of read files.
pub open spec fn files_view(files: Seq<(String, Vec<u8>)>) -> Seq<(Seq<char>, Seq<u8>)> {
    files.map_values(|f: (String, Vec<u8>)| (f.0@, f.1@))
}

/// Adds the file at `path`, read from under `dir`, with contents `data`.
pub fn add_file(table: &mut AssetTable, dir: &str, path: &str, data: Vec<u8>)
    ensures
        final(table)@ == with_file(old(table)@, key_of(dir@, path@), asset_of(dir@, path@, data@)),
{
    let key = normalize_key(dir, path);
    let content_type = path_to_content_type(key.as_str());
    let ct = String::from_str(content_type);
    let asset = FileData { content_type: ct, data };
    let alias = index_dir_of(key.as_str());
    match alias {
        Some(d) => {
            let copy = asset.duplicate();
            table.insert(key, asset);
            table.insert(d, copy);
        },
        None => {
            table.insert(key, asset);
        },
    }
}

/// Builds the table of `files` (path and contents, in the order read) found under `dir`.
/// Each file is stored under its key; a later file under the same key replaces an earlier one.
pub fn build_table(dir: &str, files: Vec<(String, Vec<u8>)>) -> (t: AssetTable)
    ensures
        t@ == loaded_table(dir@, files_view(files@)),
{
    let mut table = AssetTable::new();
    let ghost all = files@;
    let total = files.len();
    let mut rest = files;
    let mut files: Vec<(String, Vec<u8>)> = Vec::new();
    while rest.len() > 0
        invariant
            rest@.len() + files@.len() == all.len(),
            forall|j: int| 0 <= j < rest@.len() ==> #[trigger] rest@[j] == all[j],
            forall|j: int| 0 <= j < files@.len() ==> #[trigger] files@[j] == all[all.len() - 1 - j],
        decreases rest@.len(),
    {
        let f = rest.pop().unwrap();
        files.push(f);
    }
    let mut n: usize = 0;
    while files.len() > 0
        invariant
            n <= all.len(),
            files@.len() == all.len() - n,
            all.len() == total,
            forall|j: int| 0 <= j < files@.len() ==> #[trigger] files@[j] == all[all.len() - 1 - j],
            table@ == loaded_table(dir@, files_view(all.subrange(0, n as int))),
        decreases files@.len(),
    {
        let f = files.pop().unwrap();
        proof {
            assert(f == all[n as int]);
            assert(files_view(all.subrange(0, n + 1)).drop_last() =~= files_view(all.subrange(0, n as int)));
            assert(files_view(all.subrange(0, n + 1)).last() == (f.0@, f.1@));
        }
        add_file(&mut table, dir, f.0.as_str(), f.1);
        n = n + 1;
    }
    assert(all.subrange(0, n as int) =~= all);
    table
}

} // verus!
