//! The set of unspent outputs: a map from outpoint key to entry that can also
//! be walked in full.
use vstd::hash_map::StringHashMap;
use vstd::prelude::*;

verus! {

/// What is known of a live output: where it was created, what it holds and
/// who may spend it.
pub struct UtxoEntry {
    pub height: usize,
    pub value: u64,
    pub address: String,
}

/// The mathematical value of an entry.
pub struct EntryView {
    pub height: usize,
    pub value: u64,
    pub address: Seq<char>,
}

impl View for UtxoEntry {
    type V = EntryView;

    open spec fn view(&self) -> EntryView {
        EntryView { height: self.height, value: self.value, address: self.address@ }
    }
}

/// One live output under its key.
pub struct Utxo {
    pub key: String,
    pub entry: UtxoEntry,
}

/// Live outputs by key. The items are kept densely in a vector so that the
/// whole set can be walked; the index maps each key to its item's position.
pub struct UtxoSet {
    items: Vec<Utxo>,
    index: StringHashMap<usize>,
}

impl View for UtxoSet {
    type V = Map<Seq<char>, EntryView>;

    closed spec fn view(&self) -> Map<Seq<char>, EntryView> {
        self.index@.map_values(|p: usize| self.items@[p as int].entry@)
    }
}

impl UtxoSet {
    /// Positions and keys agree both ways.
    pub closed spec fn wf(&self) -> bool {
        &&& forall|k: Seq<char>|
            #[trigger] self.index@.contains_key(k) ==> {
                &&& self.index@[k] < self.items@.len()
                &&& self.items@[self.index@[k] as int].key@ == k
            }
        &&& forall|i: int|
            0 <= i < self.items@.len() ==> {
                &&& self.index@.contains_key(#[trigger] self.items@[i].key@)
                &&& self.index@[self.items@[i].key@] == i
            }
    }

    /// The items in the order in which they are walked.
    pub closed spec fn items_spec(&self) -> Seq<Utxo> {
        self.items@
    }

    /// Every item is a live key with its entry, and every live key has an item.
    pub proof fn lemma_items(&self)
        requires
            self.wf(),
        ensures
            forall|i: int|
                0 <= i < self.items_spec().len() ==> {
                    &&& self@.contains_key(#[trigger] self.items_spec()[i].key@)
                    &&& self@[self.items_spec()[i].key@] == self.items_spec()[i].entry@
                },
            forall|i: int, j: int|
                0 <= i < j < self.items_spec().len() ==> #[trigger] self.items_spec()[i].key@
                    != #[trigger] self.items_spec()[j].key@,
            forall|k: Seq<char>|
                #[trigger] self@.contains_key(k) ==> exists|i: int|
                    0 <= i < self.items_spec().len() && #[trigger] self.items_spec()[i].key@ == k,
    {
        assert forall|k: Seq<char>| #[trigger] self@.contains_key(k) implies exists|i: int|
            0 <= i < self.items_spec().len() && #[trigger] self.items_spec()[i].key@ == k by {
            let i = self.index@[k] as int;
            assert(self.items_spec()[i].key@ == k);
        }
    }

    /// The items, each a live key with its entry.
    pub fn items(&self) -> (r: &Vec<Utxo>)
        ensures
            r@ == self.items_spec(),
    {
        &self.items
    }

    /// An empty set with room for `capacity` entries.
    pub fn with_capacity(capacity: usize) -> (s: UtxoSet)
        ensures
            s.wf(),
            s@ == Map::<Seq<char>, EntryView>::empty(),
    {
        let s = UtxoSet { items: Vec::with_capacity(capacity), index: StringHashMap::with_capacity(capacity) };
        assert(s@ =~= Map::<Seq<char>, EntryView>::empty());
        s
    }

    /// The number of live entries.
    pub fn len(&self) -> (n: usize)
        ensures
            n == self@.len(),
    {
        assert(self@.dom() =~= self.index@.dom());
        self.index.len()
    }

    /// Whether `key` is live.
    pub fn contains(&self, key: &str) -> (r: bool)
        ensures
            r == self@.contains_key(key@),
    {
        self.index.contains_key(key)
    }

    /// The entry under `key`, if it is live.
    pub fn get(&self, key: &str) -> (r: Option<&UtxoEntry>)
        requires
            self.wf(),
        ensures
            match r {
                Some(e) => self@.contains_key(key@) && self@[key@] == e@,
                None => !self@.contains_key(key@),
            },
    {
        match self.index.get(key) {
            Some(p) => Some(&self.items[*p].entry),
            None => None,
        }
    }

    /// Adds `entry` under a key that is not live yet.
    pub fn insert_new(&mut self, key: String, entry: UtxoEntry)
        requires
            old(self).wf(),
            !old(self)@.contains_key(key@),
        ensures
            final(self).wf(),
            final(self)@ == old(self)@.insert(key@, entry@),
    {
        let ghost k = key@;
        let ghost e = entry@;
        let pos = self.items.len();
        let copy = key.clone();
        self.items.push(Utxo { key: copy, entry });
        self.index.insert(key, pos);
        assert forall|i: int| 0 <= i < self.items@.len() implies {
            &&& self.index@.contains_key(#[trigger] self.items@[i].key@)
            &&& self.index@[self.items@[i].key@] == i
        } by {
            if i < pos {
                assert(old(self).items@[i] == self.items@[i]);
            }
        }
        assert(self@ =~= old(self)@.insert(k, e));
    }

    /// Takes `key` out of the set if it is live; says whether it was.
    pub fn remove(&mut self, key: &str) -> (was_live: bool)
        requires
            old(self).wf(),
        ensures
            final(self).wf(),
            final(self)@ == old(self)@.remove(key@),
            was_live == old(self)@.contains_key(key@),
    {
        let pos = match self.index.get(key) {
            Some(p) => *p,
            None => {
                assert(self@ =~= old(self)@.remove(key@));
                return false;
            },
        };
        let ghost old_items = self.items@;
        let ghost old_index = self.index@;
        let last = self.items.len() - 1;
        let _gone = self.items.swap_remove(pos);
        self.index.remove(key);
        if pos < last {
            let moved = self.items[pos].key.clone();
            assert(moved@ == old_items[last as int].key@);
            self.index.insert(moved, pos);
        }
        assert forall|k: Seq<char>| #[trigger] self.index@.contains_key(k) implies {
            &&& self.index@[k] < self.items@.len()
            &&& self.items@[self.index@[k] as int].key@ == k
        } by {
            if k != old_items[last as int].key@ {
                assert(old_index.contains_key(k));
                let j = old_index[k];
                assert(old_items[j as int].key@ == k);
                assert(j != last);
            }
        }
        assert forall|i: int| 0 <= i < self.items@.len() implies {
            &&& self.index@.contains_key(#[trigger] self.items@[i].key@)
            &&& self.index@[self.items@[i].key@] == i
        } by {
            if i != pos {
                assert(self.items@[i] == old_items[i]);
                assert(old_index[old_items[i].key@] == i);
            }
        }
        assert(self@ =~= old(self)@.remove(key@));
        true
    }
}

} // verus!
