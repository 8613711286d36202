use vstd::prelude::*;
use crate::loader::{asset_of, loaded_table, with_file};
use crate::paths::{forward_slashes, first_occurrence_from, index_alias, key_of, with_leading_slash};
use crate::text::occurs_at;

verus! {

/// True when loading `f` writes under `k`: its own key, or its directory key.
pub open spec fn writes_key(dir: Seq<char>, f: (Seq<char>, Seq<u8>), k: Seq<char>) -> bool {
    key_of(dir, f.0) == k || index_alias(key_of(dir, f.0)) == Some(k)
}

proof fn lemma_with_file_keeps(
    m: Map<Seq<char>, (Seq<char>, Seq<u8>)>,
    key: Seq<char>,
    asset: (Seq<char>, Seq<u8>),
    k: Seq<char>,
)
    requires
        key != k,
        index_alias(key) != Some(k),
    ensures
        with_file(m, key, asset).contains_key(k) == m.contains_key(k),
        with_file(m, key, asset)[k] == m[k],
{
}

/// A file under `dir` at `dir` followed by `rel` gets the key `rel`, with
/// backslashes turned into `/` and a leading `/` made sure of.
pub proof fn lemma_key_is_relative_path(dir: Seq<char>, rel: Seq<char>)
    ensures
        key_of(dir, dir + rel) == with_leading_slash(forward_slashes(rel)),
        key_of(dir, dir + rel).len() > 0,
        key_of(dir, dir + rel)[0] == '/',
{
    let s = dir + rel;
    assert(s.subrange(0, dir.len() as int) =~= dir);
    assert(occurs_at(s, dir, 0));
    assert(first_occurrence_from(s, dir, 0) == Some(0int));
    assert(s.subrange(0, 0) + s.subrange(dir.len() as int, s.len() as int) =~= rel);
}

/// Every key of a loaded table is non-empty and starts with `/`.
pub proof fn lemma_keys_start_with_slash(dir: Seq<char>, files: Seq<(Seq<char>, Seq<u8>)>)
    ensures
        forall|k: Seq<char>| #[trigger]
            loaded_table(dir, files).contains_key(k) ==> k.len() > 0 && k[0] == '/',
    decreases files.len(),
{
    if files.len() > 0 {
        lemma_keys_start_with_slash(dir, files.drop_last());
        let key = key_of(dir, files.last().0);
        assert(key.len() > 0 && key[0] == '/');
        let prev = loaded_table(dir, files.drop_last());
        assert(loaded_table(dir, files) == with_file(prev, key, asset_of(dir, files.last().0, files.last().1)));
        match index_alias(key) {
            Some(d) => {
                let n = "index.html"@.len();
                assert(key.subrange(key.len() - n, key.len() as int) == "index.html"@);
                assert(d.len() > 0) by {
                    if d.len() == 0 {
                        assert(key[0] == key.subrange(key.len() - n, key.len() as int)[0]);
                        reveal_strlit("index.html");
                    }
                }
                assert(d[0] == key[0]);
            },
            None => {},
        }
        assert forall|k: Seq<char>| #[trigger] loaded_table(dir, files).contains_key(k) implies k.len()
            > 0 && k[0] == '/' by {
            if prev.contains_key(k) {
            }
        }
    }
}

/// Every file loaded has its key in the table.
pub proof fn lemma_every_file_has_its_key(dir: Seq<char>, files: Seq<(Seq<char>, Seq<u8>)>, i: int)
    requires
        0 <= i < files.len(),
    ensures
        loaded_table(dir, files).contains_key(key_of(dir, files[i].0)),
    decreases files.len(),
{
    if i < files.len() - 1 {
        lemma_every_file_has_its_key(dir, files.drop_last(), i);
        assert(files.drop_last()[i] == files[i]);
    }
}

/// A file found at `dir` followed by `rel` is in the table under `rel`, with
/// backslashes turned into `/` and a leading `/` made sure of.
pub proof fn lemma_loaded_key_is_relative_path(
    dir: Seq<char>,
    files: Seq<(Seq<char>, Seq<u8>)>,
    i: int,
    rel: Seq<char>,
)
    requires
        0 <= i < files.len(),
        files[i].0 == dir + rel,
    ensures
        loaded_table(dir, files).contains_key(with_leading_slash(forward_slashes(rel))),
{
    lemma_key_is_relative_path(dir, rel);
    lemma_every_file_has_its_key(dir, files, i);
}

/// A key holds the asset of the last file loaded that writes under it: what is
/// looked up there is that file's content type and its bytes, unchanged.
pub proof fn lemma_last_write_wins(
    dir: Seq<char>,
    files: Seq<(Seq<char>, Seq<u8>)>,
    i: int,
    k: Seq<char>,
)
    requires
        0 <= i < files.len(),
        writes_key(dir, files[i], k),
        forall|j: int| i < j < files.len() ==> !writes_key(dir, #[trigger] files[j], k),
    ensures
        loaded_table(dir, files).contains_key(k),
        loaded_table(dir, files)[k] == asset_of(dir, files[i].0, files[i].1),
    decreases files.len(),
{
    let last = files.last();
    if i < files.len() - 1 {
        let p = files.drop_last();
        assert forall|j: int| i < j < p.len() implies !writes_key(dir, #[trigger] p[j], k) by {
            assert(p[j] == files[j]);
        }
        assert(p[i] == files[i]);
        lemma_last_write_wins(dir, p, i, k);
        assert(!writes_key(dir, files[files.len() - 1], k));
        lemma_with_file_keeps(
            loaded_table(dir, p),
            key_of(dir, last.0),
            asset_of(dir, last.0, last.1),
            k,
        );
    }
}

/// A file whose key ends in `index.html` is stored under that key and under its
/// directory key alike, with the same content type and bytes, unless a later
/// file writes under one of the two.
pub proof fn lemma_index_alias_matches(
    dir: Seq<char>,
    files: Seq<(Seq<char>, Seq<u8>)>,
    i: int,
    d: Seq<char>,
)
    requires
        0 <= i < files.len(),
        index_alias(key_of(dir, files[i].0)) == Some(d),
        forall|j: int|
            i < j < files.len() ==> !writes_key(dir, #[trigger] files[j], d) && !writes_key(
                dir,
                files[j],
                key_of(dir, files[i].0),
            ),
    ensures
        loaded_table(dir, files).contains_key(key_of(dir, files[i].0)),
        loaded_table(dir, files).contains_key(d),
        loaded_table(dir, files)[d] == loaded_table(dir, files)[key_of(dir, files[i].0)],
        loaded_table(dir, files)[d] == asset_of(dir, files[i].0, files[i].1),
{
    lemma_last_write_wins(dir, files, i, key_of(dir, files[i].0));
    lemma_last_write_wins(dir, files, i, d);
}

/// No two files of the list write under a common key.
pub open spec fn no_collisions(dir: Seq<char>, files: Seq<(Seq<char>, Seq<u8>)>) -> bool {
    forall|i: int, j: int, k: Seq<char>|
        0 <= i < j < files.len() && #[trigger] writes_key(dir, files[i], k) ==> !#[trigger] writes_key(
            dir,
            files[j],
            k,
        )
}

proof fn lemma_keys_are_written(dir: Seq<char>, files: Seq<(Seq<char>, Seq<u8>)>, k: Seq<char>)
    requires
        loaded_table(dir, files).contains_key(k),
    ensures
        exists|i: int| 0 <= i < files.len() && #[trigger] writes_key(dir, files[i], k),
    decreases files.len(),
{
    let last = files.last();
    let p = files.drop_last();
    if writes_key(dir, files[files.len() - 1], k) {
    } else {
        lemma_with_file_keeps(loaded_table(dir, p), key_of(dir, last.0), asset_of(dir, last.0, last.1), k);
        lemma_keys_are_written(dir, p, k);
        let i = choose|i: int| 0 <= i < p.len() && #[trigger] writes_key(dir, p[i], k);
        assert(files[i] == p[i]);
    }
}

/// Loading the same files from the same directory twice gives equal tables; where
/// no two files write under a common key, this holds whatever order the files
/// were listed in.
pub proof fn lemma_load_is_repeatable(
    dir: Seq<char>,
    files1: Seq<(Seq<char>, Seq<u8>)>,
    files2: Seq<(Seq<char>, Seq<u8>)>,
)
    requires
        files1 == files2 || (no_collisions(dir, files1) && no_collisions(dir, files2) && forall|
            f: (Seq<char>, Seq<u8>),
        | files1.contains(f) <==> files2.contains(f)),
    ensures
        loaded_table(dir, files1) == loaded_table(dir, files2),
{
    if files1 != files2 {
        let t1 = loaded_table(dir, files1);
        let t2 = loaded_table(dir, files2);
        assert forall|k: Seq<char>| #[trigger] t1.dom().contains(k) implies t2.dom().contains(k) && t2[k] == t1[k] by {
            lemma_keys_are_written(dir, files1, k);
            let i = choose|i: int| 0 <= i < files1.len() && #[trigger] writes_key(dir, files1[i], k);
            lemma_last_write_wins(dir, files1, i, k);
            assert(files1.contains(files1[i]));
            let j = choose|j: int| 0 <= j < files2.len() && files2[j] == files1[i];
            assert(writes_key(dir, files2[j], k));
            lemma_last_write_wins(dir, files2, j, k);
        }
        assert forall|k: Seq<char>| #[trigger] t2.dom().contains(k) implies t1.dom().contains(k) by {
            lemma_keys_are_written(dir, files2, k);
            let j = choose|j: int| 0 <= j < files2.len() && #[trigger] writes_key(dir, files2[j], k);
            assert(files2.contains(files2[j]));
            let i = choose|i: int| 0 <= i < files1.len() && files1[i] == files2[j];
            assert(writes_key(dir, files1[i], k));
            lemma_last_write_wins(dir, files1, i, k);
        }
        assert(t1.dom() =~= t2.dom());
        assert(t1 =~= t2);
    }
}

} // verus!
