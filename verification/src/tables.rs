//! Small association tables with mathematical `Map` views: one keyed by
//! strings (directory entries, upload directories), one keyed by chunk
//! indices. Both keep at most one entry per key.
use vstd::prelude::*;

verus! {

/// No two entries share a key.
pub open spec fn str_unique<V: View>(items: Seq<(String, V)>) -> bool {
    forall|i: int, j: int| 0 <= i < j < items.len() ==> items[i].0@ != items[j].0@
}

/// The map a string-keyed entry list denotes; a later entry would win, though
/// well-formed tables never hold two entries for one key.
pub open spec fn str_map<V: View>(items: Seq<(String, V)>) -> Map<Seq<char>, V::V>
    decreases items.len(),
{
    if items.len() == 0 {
        Map::empty()
    } else {
        str_map(items.drop_last()).insert(items.last().0@, items.last().1@)
    }
}

proof fn lemma_str_unique_drop_last<V: View>(items: Seq<(String, V)>)
    requires
        str_unique(items),
        items.len() > 0,
    ensures
        str_unique(items.drop_last()),
{
    assert forall|i: int, j: int|
        0 <= i < j < items.drop_last().len() implies items.drop_last()[i].0@
        != items.drop_last()[j].0@ by {
        assert(items.drop_last()[i] == items[i]);
        assert(items.drop_last()[j] == items[j]);
    }
}

/// Every entry of a well-formed list is found in the denoted map.
proof fn lemma_str_map_index<V: View>(items: Seq<(String, V)>, j: int)
    requires
        str_unique(items),
        0 <= j < items.len(),
    ensures
        str_map(items).contains_key(items[j].0@),
        str_map(items)[items[j].0@] == items[j].1@,
    decreases items.len(),
{
    if j < items.len() - 1 {
        lemma_str_unique_drop_last(items);
        lemma_str_map_index(items.drop_last(), j);
        assert(items.drop_last()[j] == items[j]);
        assert(items[j].0@ != items.last().0@);
    }
}

/// Every key of the denoted map comes from some entry.
proof fn lemma_str_map_dom<V: View>(items: Seq<(String, V)>, k: Seq<char>)
    requires
        str_map(items).contains_key(k),
    ensures
        exists|j: int| 0 <= j < items.len() && items[j].0@ == k,
    decreases items.len(),
{
    if items.len() > 0 {
        if items.last().0@ == k {
            assert(items[items.len() - 1].0@ == k);
        } else {
            lemma_str_map_dom(items.drop_last(), k);
            let j = choose|j: int| 0 <= j < items.drop_last().len() && items.drop_last()[j].0@ == k;
            assert(items.drop_last()[j] == items[j]);
        }
    }
}

/// Removing an entry removes exactly its key from the denoted map.
proof fn lemma_str_map_remove<V: View>(items: Seq<(String, V)>, j: int)
    requires
        str_unique(items),
        0 <= j < items.len(),
    ensures
        str_unique(items.remove(j)),
        str_map(items.remove(j)) == str_map(items).remove(items[j].0@),
    decreases items.len(),
{
    let k = items[j].0@;
    assert forall|a: int, b: int|
        0 <= a < b < items.remove(j).len() implies items.remove(j)[a].0@
        != items.remove(j)[b].0@ by {
        if a < j {
            assert(items.remove(j)[a] == items[a]);
        } else {
            assert(items.remove(j)[a] == items[a + 1]);
        }
        if b < j {
            assert(items.remove(j)[b] == items[b]);
        } else {
            assert(items.remove(j)[b] == items[b + 1]);
        }
    }
    if j == items.len() - 1 {
        assert(items.remove(j) =~= items.drop_last());
        if str_map(items.drop_last()).contains_key(k) {
            lemma_str_map_dom(items.drop_last(), k);
            let j2 = choose|j2: int|
                0 <= j2 < items.drop_last().len() && items.drop_last()[j2].0@ == k;
            assert(items.drop_last()[j2] == items[j2]);
            assert(false);
        }
        assert(str_map(items.remove(j)) =~= str_map(items).remove(k));
    } else {
        lemma_str_unique_drop_last(items);
        assert(items.drop_last()[j] == items[j]);
        lemma_str_map_remove(items.drop_last(), j);
        assert(items.remove(j).drop_last() =~= items.drop_last().remove(j));
        assert(items.remove(j).last() == items.last());
        assert(items.last().0@ != k);
        assert(str_map(items.remove(j)) =~= str_map(items).remove(k));
    }
}

/// A string-keyed table, at most one entry per key, seen as a map from the
/// key's characters to the value's model.
pub struct StrTable<V: View> {
    items: Vec<(String, V)>,
}

impl<V: View> View for StrTable<V> {
    type V = Map<Seq<char>, V::V>;

    closed spec fn view(&self) -> Map<Seq<char>, V::V> {
        str_map(self.items@)
    }
}

impl<V: View> StrTable<V> {
    #[verifier::type_invariant]
    spec fn wf(self) -> bool {
        str_unique(self.items@)
    }

    /// The empty table.
    pub fn new() -> (t: Self)
        ensures
            t@ == Map::<Seq<char>, V::V>::empty(),
    {
        StrTable { items: Vec::new() }
    }

    fn index_of(&self, key: &String) -> (r: Option<usize>)
        ensures
            match r {
                Some(j) => j < self.items@.len() && self.items@[j as int].0@ == key@,
                None => forall|l: int| 0 <= l < self.items@.len() ==> self.items@[l].0@ != key@,
            },
    {
        let n = self.items.len();
        let mut j: usize = 0;
        while j < n
            invariant
                j <= n,
                n == self.items@.len(),
                forall|l: int| 0 <= l < j ==> self.items@[l].0@ != key@,
            decreases n - j,
        {
            if self.items[j].0 == *key {
                return Some(j);
            }
            j = j + 1;
        }
        None
    }

    /// Looks a key up.
    pub fn get(&self, key: &String) -> (r: Option<&V>)
        ensures
            match r {
                Some(v) => self@.contains_key(key@) && v@ == self@[key@],
                None => !self@.contains_key(key@),
            },
    {
        proof {
            use_type_invariant(&*self);
        }
        match self.index_of(key) {
            Some(j) => {
                proof {
                    lemma_str_map_index(self.items@, j as int);
                }
                Some(&self.items[j].1)
            },
            None => {
                proof {
                    if self@.contains_key(key@) {
                        lemma_str_map_dom(self.items@, key@);
                    }
                }
                None
            },
        }
    }

    /// Binds the key to the value, replacing any previous binding.
    pub fn insert(&mut self, key: String, value: V)
        ensures
            final(self)@ == old(self)@.insert(key@, value@),
    {
        proof {
            use_type_invariant(&*self);
        }
        let idx = self.index_of(&key);
        let mut items: Vec<(String, V)> = Vec::new();
        core::mem::swap(&mut items, &mut self.items);
        let ghost orig = items@;
        match idx {
            Some(j) => {
                proof {
                    lemma_str_map_remove(orig, j as int);
                }
                items.remove(j);
                proof {
                    assert forall|l: int| 0 <= l < items@.len() implies items@[l].0@ != key@ by {
                        if l < j {
                            assert(items@[l] == orig[l]);
                        } else {
                            assert(items@[l] == orig[l + 1]);
                        }
                    }
                }
            },
            None => {},
        }
        let ghost pruned = items@;
        items.push((key, value));
        proof {
            assert(items@.drop_last() =~= pruned);
            assert(items@.last() == (key, value));
            assert forall|a: int, b: int|
                0 <= a < b < items@.len() implies items@[a].0@ != items@[b].0@ by {
                if b < items@.len() - 1 {
                    assert(items@[a] == pruned[a]);
                    assert(items@[b] == pruned[b]);
                } else {
                    assert(items@[b].0@ == key@);
                    assert(items@[a] == pruned[a]);
                }
            }
            assert(str_map(items@) =~= str_map(orig).insert(key@, value@));
        }
        self.items = items;
    }

    /// Removes a key's binding and hands the bound value back, if any.
    pub fn take(&mut self, key: &String) -> (r: Option<V>)
        ensures
            final(self)@ == old(self)@.remove(key@),
            match r {
                Some(v) => old(self)@.contains_key(key@) && v@ == old(self)@[key@],
                None => !old(self)@.contains_key(key@),
            },
    {
        proof {
            use_type_invariant(&*self);
        }
        match self.index_of(key) {
            Some(j) => {
                let mut items: Vec<(String, V)> = Vec::new();
                core::mem::swap(&mut items, &mut self.items);
                proof {
                    lemma_str_map_index(items@, j as int);
                    lemma_str_map_remove(items@, j as int);
                }
                let pair = items.remove(j);
                self.items = items;
                Some(pair.1)
            },
            None => {
                proof {
                    if self@.contains_key(key@) {
                        lemma_str_map_dom(self.items@, key@);
                    }
                    assert(old(self)@.remove(key@) =~= old(self)@);
                }
                None
            },
        }
    }
}

/// No two entries share a chunk index.
pub open spec fn idx_unique(items: Seq<(usize, Vec<u8>)>) -> bool {
    forall|i: int, j: int| 0 <= i < j < items.len() ==> items[i].0 != items[j].0
}

/// The map an index-keyed entry list denotes.
pub open spec fn idx_map(items: Seq<(usize, Vec<u8>)>) -> Map<int, Seq<u8>>
    decreases items.len(),
{
    if items.len() == 0 {
        Map::empty()
    } else {
        idx_map(items.drop_last()).insert(items.last().0 as int, items.last().1@)
    }
}

proof fn lemma_idx_unique_drop_last(items: Seq<(usize, Vec<u8>)>)
    requires
        idx_unique(items),
        items.len() > 0,
    ensures
        idx_unique(items.drop_last()),
{
    assert forall|i: int, j: int|
        0 <= i < j < items.drop_last().len() implies items.drop_last()[i].0
        != items.drop_last()[j].0 by {
        assert(items.drop_last()[i] == items[i]);
        assert(items.drop_last()[j] == items[j]);
    }
}

/// Every entry of a well-formed list is found in the denoted map.
proof fn lemma_idx_map_index(items: Seq<(usize, Vec<u8>)>, j: int)
    requires
        idx_unique(items),
        0 <= j < items.len(),
    ensures
        idx_map(items).contains_key(items[j].0 as int),
        idx_map(items)[items[j].0 as int] == items[j].1@,
    decreases items.len(),
{
    if j < items.len() - 1 {
        lemma_idx_unique_drop_last(items);
        lemma_idx_map_index(items.drop_last(), j);
        assert(items.drop_last()[j] == items[j]);
        assert(items[j].0 != items.last().0);
    }
}

/// Every key of the denoted map comes from some entry.
proof fn lemma_idx_map_dom(items: Seq<(usize, Vec<u8>)>, k: int)
    requires
        idx_map(items).contains_key(k),
    ensures
        exists|j: int| 0 <= j < items.len() && items[j].0 as int == k,
    decreases items.len(),
{
    if items.len() > 0 {
        if items.last().0 as int == k {
            assert(items[items.len() - 1].0 as int == k);
        } else {
            lemma_idx_map_dom(items.drop_last(), k);
            let j = choose|j: int|
                0 <= j < items.drop_last().len() && items.drop_last()[j].0 as int == k;
            assert(items.drop_last()[j] == items[j]);
        }
    }
}

/// Removing an entry removes exactly its key from the denoted map.
proof fn lemma_idx_map_remove(items: Seq<(usize, Vec<u8>)>, j: int)
    requires
        idx_unique(items),
        0 <= j < items.len(),
    ensures
        idx_unique(items.remove(j)),
        idx_map(items.remove(j)) == idx_map(items).remove(items[j].0 as int),
    decreases items.len(),
{
    let k = items[j].0 as int;
    assert forall|a: int, b: int|
        0 <= a < b < items.remove(j).len() implies items.remove(j)[a].0
        != items.remove(j)[b].0 by {
        if a < j {
            assert(items.remove(j)[a] == items[a]);
        } else {
            assert(items.remove(j)[a] == items[a + 1]);
        }
        if b < j {
            assert(items.remove(j)[b] == items[b]);
        } else {
            assert(items.remove(j)[b] == items[b + 1]);
        }
    }
    if j == items.len() - 1 {
        assert(items.remove(j) =~= items.drop_last());
        if idx_map(items.drop_last()).contains_key(k) {
            lemma_idx_map_dom(items.drop_last(), k);
            let j2 = choose|j2: int|
                0 <= j2 < items.drop_last().len() && items.drop_last()[j2].0 as int == k;
            assert(items.drop_last()[j2] == items[j2]);
            assert(false);
        }
        assert(idx_map(items.remove(j)) =~= idx_map(items).remove(k));
    } else {
        lemma_idx_unique_drop_last(items);
        assert(items.drop_last()[j] == items[j]);
        lemma_idx_map_remove(items.drop_last(), j);
        assert(items.remove(j).drop_last() =~= items.drop_last().remove(j));
        assert(items.remove(j).last() == items.last());
        assert(items.last().0 as int != k);
        assert(idx_map(items.remove(j)) =~= idx_map(items).remove(k));
    }
}

/// Chunk storage for one upload: the bytes received for each chunk index, at
/// most one record per index, seen as a map from index to bytes.
pub struct ChunkTable {
    items: Vec<(usize, Vec<u8>)>,
}

impl View for ChunkTable {
    type V = Map<int, Seq<u8>>;

    closed spec fn view(&self) -> Map<int, Seq<u8>> {
        idx_map(self.items@)
    }
}

impl ChunkTable {
    #[verifier::type_invariant]
    spec fn wf(self) -> bool {
        idx_unique(self.items@)
    }

    /// The empty table.
    pub fn new() -> (t: Self)
        ensures
            t@ == Map::<int, Seq<u8>>::empty(),
    {
        ChunkTable { items: Vec::new() }
    }

    fn index_of(&self, key: usize) -> (r: Option<usize>)
        ensures
            match r {
                Some(j) => j < self.items@.len() && self.items@[j as int].0 == key,
                None => forall|l: int| 0 <= l < self.items@.len() ==> self.items@[l].0 != key,
            },
    {
        let n = self.items.len();
        let mut j: usize = 0;
        while j < n
            invariant
                j <= n,
                n == self.items@.len(),
                forall|l: int| 0 <= l < j ==> self.items@[l].0 != key,
            decreases n - j,
        {
            if self.items[j].0 == key {
                return Some(j);
            }
            j = j + 1;
        }
        None
    }

    /// Whether bytes were received for this index.
    pub fn contains(&self, key: usize) -> (r: bool)
        ensures
            r == self@.contains_key(key as int),
    {
        proof {
            use_type_invariant(&*self);
        }
        match self.index_of(key) {
            Some(j) => {
                proof {
                    lemma_idx_map_index(self.items@, j as int);
                }
                true
            },
            None => {
                proof {
                    if self@.contains_key(key as int) {
                        lemma_idx_map_dom(self.items@, key as int);
                    }
                }
                false
            },
        }
    }

    /// The bytes received for this index, if any.
    pub fn get(&self, key: usize) -> (r: Option<&Vec<u8>>)
        ensures
            match r {
                Some(b) => self@.contains_key(key as int) && b@ == self@[key as int],
                None => !self@.contains_key(key as int),
            },
    {
        proof {
            use_type_invariant(&*self);
        }
        match self.index_of(key) {
            Some(j) => {
                proof {
                    lemma_idx_map_index(self.items@, j as int);
                }
                Some(&self.items[j].1)
            },
            None => {
                proof {
                    if self@.contains_key(key as int) {
                        lemma_idx_map_dom(self.items@, key as int);
                    }
                }
                None
            },
        }
    }

    /// Records bytes for an index, fully replacing any prior record.
    pub fn insert(&mut self, key: usize, value: Vec<u8>)
        ensures
            final(self)@ == old(self)@.insert(key as int, value@),
    {
        proof {
            use_type_invariant(&*self);
        }
        let idx = self.index_of(key);
        let mut items: Vec<(usize, Vec<u8>)> = Vec::new();
        core::mem::swap(&mut items, &mut self.items);
        let ghost orig = items@;
        match idx {
            Some(j) => {
                proof {
                    lemma_idx_map_remove(orig, j as int);
                }
                items.remove(j);
                proof {
                    assert forall|l: int| 0 <= l < items@.len() implies items@[l].0 != key by {
                        if l < j {
                            assert(items@[l] == orig[l]);
                        } else {
                            assert(items@[l] == orig[l + 1]);
                        }
                    }
                }
            },
            None => {},
        }
        let ghost pruned = items@;
        items.push((key, value));
        proof {
            assert(items@.drop_last() =~= pruned);
            assert(items@.last() == (key, value));
            assert forall|a: int, b: int|
                0 <= a < b < items@.len() implies items@[a].0 != items@[b].0 by {
                if b < items@.len() - 1 {
                    assert(items@[a] == pruned[a]);
                    assert(items@[b] == pruned[b]);
                } else {
                    assert(items@[b].0 == key);
                    assert(items@[a] == pruned[a]);
                }
            }
            assert(idx_map(items@) =~= idx_map(orig).insert(key as int, value@));
        }
        self.items = items;
    }

    /// Drops the record for an index, if any.
    pub fn remove(&mut self, key: usize)
        ensures
            final(self)@ == old(self)@.remove(key as int),
    {
        proof {
            use_type_invariant(&*self);
        }
        match self.index_of(key) {
            Some(j) => {
                let mut items: Vec<(usize, Vec<u8>)> = Vec::new();
                core::mem::swap(&mut items, &mut self.items);
                proof {
                    lemma_idx_map_remove(items@, j as int);
                }
                items.remove(j);
                self.items = items;
            },
            None => {
                proof {
                    if self@.contains_key(key as int) {
                        lemma_idx_map_dom(self.items@, key as int);
                    }
                    assert(old(self)@.remove(key as int) =~= old(self)@);
                }
            },
        }
    }
}

} // verus!
