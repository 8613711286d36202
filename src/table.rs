use vstd::prelude::*;

verus! {

/// A file's data together with its HTTP content type.
pub struct FileData {
    pub content_type: String,
    pub data: Vec<u8>,
}

impl View for FileData {
    type V = (Seq<char>, Seq<u8>);

    open spec fn view(&self) -> (Seq<char>, Seq<u8>) {
        (self.content_type@, self.data@)
    }
}

impl FileData {
    /// A separate copy of the same content type and bytes.
    pub fn duplicate(&self) -> (r: FileData)
        ensures
            r@ == self@,
    {
        let data = self.data.clone();
        assert(data@ =~= self.data@);
        FileData { content_type: self.content_type.clone(), data }
    }
}

/// What the table holds under each key, for a list of entries written in order.
pub open spec fn map_of(s: Seq<(String, FileData)>) -> Map<Seq<char>, (Seq<char>, Seq<u8>)>
    decreases s.len(),
{
    if s.len() == 0 {
        Map::empty()
    } else {
        map_of(s.drop_last()).insert(s.last().0@, s.last().1@)
    }
}

/// No two entries share a key.
pub open spec fn keys_unique(s: Seq<(String, FileData)>) -> bool {
    forall|i: int, j: int| 0 <= i < j < s.len() ==> s[i].0@ != s[j].0@
}

proof fn lemma_map_of(s: Seq<(String, FileData)>)
    requires
        keys_unique(s),
    ensures
        map_of(s).dom().finite(),
        map_of(s).dom().len() == s.len(),
        forall|k: Seq<char>| #[trigger]
            map_of(s).contains_key(k) <==> exists|i: int| 0 <= i < s.len() && s[i].0@ == k,
        forall|i: int| 0 <= i < s.len() ==> #[trigger] map_of(s)[s[i].0@] == s[i].1@,
    decreases s.len(),
{
    if s.len() > 0 {
        let p = s.drop_last();
        assert(keys_unique(p));
        lemma_map_of(p);
        assert(!map_of(p).contains_key(s.last().0@)) by {
            if map_of(p).contains_key(s.last().0@) {
                let i = choose|i: int| 0 <= i < p.len() && p[i].0@ == s.last().0@;
                assert(s[i].0@ == s[s.len() - 1].0@);
            }
        }
        assert forall|k: Seq<char>| #[trigger]
            map_of(s).contains_key(k) <==> exists|i: int| 0 <= i < s.len() && s[i].0@ == k by {
            if map_of(s).contains_key(k) && k != s.last().0@ {
                let i = choose|i: int| 0 <= i < p.len() && p[i].0@ == k;
                assert(s[i].0@ == k);
            }
            if exists|i: int| 0 <= i < s.len() && s[i].0@ == k {
                let i = choose|i: int| 0 <= i < s.len() && s[i].0@ == k;
                if i < s.len() - 1 {
                    assert(p[i].0@ == k);
                }
            }
        }
        assert forall|i: int| 0 <= i < s.len() implies #[trigger] map_of(s)[s[i].0@] == s[i].1@ by {
            if i < s.len() - 1 {
                assert(p[i] == s[i]);
                assert(map_of(p)[p[i].0@] == p[i].1@);
            }
        }
    }
}

/// The table of assets, keyed by URL path.
pub struct AssetTable {
    entries: Vec<(String, FileData)>,
}

impl View for AssetTable {
    type V = Map<Seq<char>, (Seq<char>, Seq<u8>)>;

    closed spec fn view(&self) -> Map<Seq<char>, (Seq<char>, Seq<u8>)> {
        map_of(self.entries@)
    }
}

impl AssetTable {
    /// The entries have unique keys.
    #[verifier::type_invariant]
    spec fn entries_unique(&self) -> bool {
        keys_unique(self.entries@)
    }

    /// An empty table.
    pub fn new() -> (t: AssetTable)
        ensures
            t@ == Map::<Seq<char>, (Seq<char>, Seq<u8>)>::empty(),
    {
        AssetTable { entries: Vec::new() }
    }

    /// The position of the entry under `key`.
    fn position(&self, key: &String) -> (r: Option<usize>)
        ensures
            match r {
                Some(i) => i < self.entries@.len() && self.entries@[i as int].0@ == key@,
                None => forall|i: int|
                    0 <= i < self.entries@.len() ==> self.entries@[i].0@ != key@,
            },
    {
        let mut i: usize = 0;
        while i < self.entries.len()
            invariant
                i <= self.entries@.len(),
                forall|j: int| 0 <= j < i ==> self.entries@[j].0@ != key@,
            decreases self.entries@.len() - i,
        {
            if self.entries[i].0 == *key {
                return Some(i);
            }
            i = i + 1;
        }
        None
    }

    /// Stores `value` under `key`; an earlier value under the same key is replaced.
    pub fn insert(&mut self, key: String, value: FileData)
        ensures
            final(self)@ == old(self)@.insert(key@, value@),
    {
        proof {
            use_type_invariant(&*self);
            lemma_map_of(self.entries@);
        }
        let found = self.position(&key);
        let mut taken = AssetTable::new();
        core::mem::swap(self, &mut taken);
        let AssetTable { mut entries } = taken;
        match found {
            Some(i) => {
                let ghost before = entries@;
                entries.set(i, (key, value));
                proof {
                    let after = entries@;
                    assert(keys_unique(after));
                    lemma_map_of(after);
                    assert(map_of(after) =~= map_of(before).insert(key@, value@)) by {
                        assert forall|k: Seq<char>| #[trigger]
                            map_of(after).contains_key(k) implies map_of(before).insert(
                            key@,
                            value@,
                        ).contains_key(k) by {
                            let j = choose|j: int| 0 <= j < after.len() && after[j].0@ == k;
                            if j != i {
                                assert(before[j].0@ == k);
                            }
                        }
                        assert forall|k: Seq<char>| #[trigger]
                            map_of(before).insert(key@, value@).contains_key(k) implies map_of(
                            after,
                        ).contains_key(k) && map_of(after)[k] == map_of(before).insert(
                            key@,
                            value@,
                        )[k] by {
                            if k == key@ {
                                assert(after[i as int].0@ == k);
                            } else {
                                let j = choose|j: int| 0 <= j < before.len() && before[j].0@ == k;
                                assert(after[j] == before[j]);
                            }
                        }
                    }
                }
            },
            None => {
                entries.push((key, value));
                proof {
                    let after = entries@;
                    assert(after.drop_last() =~= old(self).entries@);
                }
            },
        }
        *self = AssetTable { entries };
    }

    /// The data stored under `key`, if any.
    pub fn get(&self, key: &String) -> (r: Option<&FileData>)
        ensures
            match r {
                Some(v) => self@.contains_key(key@) && self@[key@] == v@,
                None => !self@.contains_key(key@),
            },
    {
        proof {
            use_type_invariant(&*self);
            lemma_map_of(self.entries@);
        }
        match self.position(key) {
            Some(i) => Some(&self.entries[i].1),
            None => None,
        }
    }

    /// Whether anything is stored under `key`.
    pub fn contains_key(&self, key: &String) -> (r: bool)
        ensures
            r == self@.contains_key(key@),
    {
        proof {
            use_type_invariant(&*self);
            lemma_map_of(self.entries@);
        }
        self.position(key).is_some()
    }

    /// The number of keys in the table.
    pub fn len(&self) -> (r: usize)
        ensures
            r == self@.len(),
    {
        proof {
            use_type_invariant(&*self);
            lemma_map_of(self.entries@);
        }
        self.entries.len()
    }

    /// The keys of the table, each once.
    pub fn keys(&self) -> (r: Vec<String>)
        ensures
            r@.len() == self@.len(),
            forall|k: Seq<char>| self@.contains_key(k) <==> exists|i: int| 0 <= i < r@.len() && #[trigger] r@[i]@ == k,
    {
        proof {
            use_type_invariant(&*self);
            lemma_map_of(self.entries@);
        }
        let mut out: Vec<String> = Vec::new();
        let mut i: usize = 0;
        while i < self.entries.len()
            invariant
                i <= self.entries@.len(),
                out@.len() == i,
                forall|j: int| 0 <= j < i ==> #[trigger] out@[j]@ == self.entries@[j].0@,
            decreases self.entries@.len() - i,
        {
            out.push(self.entries[i].0.clone());
            i = i + 1;
        }
        proof {
            assert forall|k: Seq<char>| self@.contains_key(k) implies exists|i: int|
                0 <= i < out@.len() && #[trigger] out@[i]@ == k by {
                let j = choose|j: int| 0 <= j < self.entries@.len() && self.entries@[j].0@ == k;
                assert(out@[j]@ == k);
            }
            assert forall|k: Seq<char>| (exists|i: int| 0 <= i < out@.len() && #[trigger] out@[i]@ == k) implies self@.contains_key(k) by {
                let j = choose|j: int| 0 <= j < out@.len() && out@[j]@ == k;
                assert(self.entries@[j].0@ == k);
            }
        }
        out
    }
}

} // verus!
