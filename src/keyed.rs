//! Address-keyed collections: entries that carry their own address, kept
//! with unique keys and viewed as a map.
use vstd::prelude::*;
use crate::primitives::H160;

verus! {

/// An item that knows the address it is stored under.
pub trait H160Map {
    spec fn key_spec(&self) -> H160;

    fn key(&self) -> (r: H160)
        ensures
            r == self.key_spec(),
    ;
}

/// The map that a list of entries builds when each is stored under its key
/// in turn: on a repeated key the later entry wins.
pub open spec fn seq_to_map<T: H160Map>(s: Seq<T>) -> Map<H160, T>
    decreases s.len(),
{
    if s.len() == 0 {
        Map::empty()
    } else {
        seq_to_map(s.drop_last()).insert(s.last().key_spec(), s.last())
    }
}

/// No two entries share a key.
pub open spec fn keys_unique<T: H160Map>(s: Seq<T>) -> bool {
    forall|i: int, j: int|
        0 <= i < s.len() && 0 <= j < s.len() && i != j ==> #[trigger] s[i].key_spec()
            != #[trigger] s[j].key_spec()
}

pub proof fn lemma_seq_to_map_contains<T: H160Map>(s: Seq<T>, k: H160)
    ensures
        seq_to_map(s).contains_key(k) <==> exists|i: int| 0 <= i < s.len() && #[trigger] s[i].key_spec() == k,
    decreases s.len(),
{
    if s.len() > 0 {
        lemma_seq_to_map_contains(s.drop_last(), k);
        if exists|i: int| 0 <= i < s.len() && #[trigger] s[i].key_spec() == k {
            let i = choose|i: int| 0 <= i < s.len() && #[trigger] s[i].key_spec() == k;
            if i < s.len() - 1 {
                assert(s.drop_last()[i].key_spec() == k);
            }
        }
        if exists|i: int| 0 <= i < s.len() - 1 && #[trigger] s.drop_last()[i].key_spec() == k {
            let i = choose|i: int| 0 <= i < s.len() - 1 && #[trigger] s.drop_last()[i].key_spec() == k;
            assert(s[i].key_spec() == k);
        }
    }
}

pub proof fn lemma_seq_to_map_index<T: H160Map>(s: Seq<T>, i: int)
    requires
        keys_unique(s),
        0 <= i < s.len(),
    ensures
        seq_to_map(s).contains_key(s[i].key_spec()),
        seq_to_map(s)[s[i].key_spec()] == s[i],
    decreases s.len(),
{
    if i < s.len() - 1 {
        let t = s.drop_last();
        assert(keys_unique(t)) by {
            assert forall|a: int, b: int|
                0 <= a < t.len() && 0 <= b < t.len() && a != b implies #[trigger] t[a].key_spec()
                != #[trigger] t[b].key_spec() by {
                assert(s[a].key_spec() != s[b].key_spec());
            }
        }
        assert(t[i] == s[i]);
        lemma_seq_to_map_index(t, i);
        assert(s[i].key_spec() != s[s.len() - 1].key_spec());
    }
}

proof fn lemma_keys_unique_drop_last<T: H160Map>(s: Seq<T>)
    requires
        keys_unique(s),
        s.len() > 0,
    ensures
        keys_unique(s.drop_last()),
        forall|i: int| 0 <= i < s.len() - 1 ==> #[trigger] s.drop_last()[i].key_spec() != s.last().key_spec(),
{
    let t = s.drop_last();
    assert forall|a: int, b: int|
        0 <= a < t.len() && 0 <= b < t.len() && a != b implies #[trigger] t[a].key_spec()
        != #[trigger] t[b].key_spec() by {
        assert(s[a].key_spec() != s[b].key_spec());
    }
    assert forall|i: int| 0 <= i < s.len() - 1 implies #[trigger] t[i].key_spec() != s.last().key_spec() by {
        assert(s[i].key_spec() != s[s.len() - 1].key_spec());
    }
}

pub proof fn lemma_seq_to_map_update<T: H160Map>(s: Seq<T>, i: int, x: T)
    requires
        keys_unique(s),
        0 <= i < s.len(),
        x.key_spec() == s[i].key_spec(),
    ensures
        seq_to_map(s.update(i, x)) == seq_to_map(s).insert(x.key_spec(), x),
        keys_unique(s.update(i, x)),
    decreases s.len(),
{
    let u = s.update(i, x);
    assert forall|a: int, b: int|
        0 <= a < u.len() && 0 <= b < u.len() && a != b implies #[trigger] u[a].key_spec()
        != #[trigger] u[b].key_spec() by {
        assert(s[a].key_spec() != s[b].key_spec());
    }
    lemma_keys_unique_drop_last(s);
    if i == s.len() - 1 {
        assert(u.drop_last() =~= s.drop_last());
        assert(seq_to_map(u) =~= seq_to_map(s).insert(x.key_spec(), x));
    } else {
        assert(u.drop_last() =~= s.drop_last().update(i, x));
        lemma_seq_to_map_update(s.drop_last(), i, x);
        assert(s.drop_last()[i].key_spec() != s.last().key_spec());
        assert(seq_to_map(u) =~= seq_to_map(s).insert(x.key_spec(), x));
    }
}

pub proof fn lemma_seq_to_map_remove<T: H160Map>(s: Seq<T>, i: int)
    requires
        keys_unique(s),
        0 <= i < s.len(),
    ensures
        seq_to_map(s.remove(i)) == seq_to_map(s).remove(s[i].key_spec()),
        keys_unique(s.remove(i)),
    decreases s.len(),
{
    let u = s.remove(i);
    assert forall|a: int, b: int|
        0 <= a < u.len() && 0 <= b < u.len() && a != b implies #[trigger] u[a].key_spec()
        != #[trigger] u[b].key_spec() by {
        let a2 = if a < i { a } else { a + 1 };
        let b2 = if b < i { b } else { b + 1 };
        assert(u[a] == s[a2]);
        assert(u[b] == s[b2]);
        assert(s[a2].key_spec() != s[b2].key_spec());
    }
    lemma_keys_unique_drop_last(s);
    let k = s[i].key_spec();
    if i == s.len() - 1 {
        assert(u =~= s.drop_last());
        assert(!seq_to_map(s.drop_last()).contains_key(k)) by {
            lemma_seq_to_map_contains(s.drop_last(), k);
        }
        assert(seq_to_map(u) =~= seq_to_map(s).remove(k));
    } else {
        assert(u.drop_last() =~= s.drop_last().remove(i));
        assert(u.last() == s.last());
        lemma_seq_to_map_remove(s.drop_last(), i);
        assert(s.drop_last()[i].key_spec() != s.last().key_spec());
        assert(seq_to_map(u) =~= seq_to_map(s).remove(k));
    }
}

/// Entries stored under their addresses, at most one per address.
pub struct AddressMap<T> {
    pub entries: Vec<T>,
}

impl<T: H160Map> AddressMap<T> {
    pub open spec fn wf(&self) -> bool {
        keys_unique(self.entries@)
    }

    pub open spec fn view(&self) -> Map<H160, T> {
        seq_to_map(self.entries@)
    }

    pub fn new() -> (r: AddressMap<T>)
        ensures
            r.wf(),
            r.view() == Map::<H160, T>::empty(),
            r.entries@.len() == 0,
    {
        AddressMap { entries: Vec::new() }
    }

    /// Where the entry for `key` stands, if there is one.
    pub fn index_of(&self, key: H160) -> (r: Option<usize>)
        ensures
            match r {
                Some(i) => i < self.entries@.len() && self.entries@[i as int].key_spec() == key,
                None => forall|i: int| 0 <= i < self.entries@.len() ==> #[trigger] self.entries@[i].key_spec() != key,
            },
            r is None <==> !self.view().contains_key(key),
    {
        let mut i: usize = 0;
        while i < self.entries.len()
            invariant
                i <= self.entries@.len(),
                forall|j: int| 0 <= j < i ==> #[trigger] self.entries@[j].key_spec() != key,
            decreases self.entries@.len() - i,
        {
            if self.entries[i].key() == key {
                proof {
                    lemma_seq_to_map_contains(self.entries@, key);
                }
                return Some(i);
            }
            i = i + 1;
        }
        proof {
            lemma_seq_to_map_contains(self.entries@, key);
        }
        None
    }

    pub fn contains_key(&self, key: H160) -> (r: bool)
        ensures
            r == self.view().contains_key(key),
    {
        self.index_of(key).is_some()
    }

    pub fn get(&self, key: H160) -> (r: Option<&T>)
        requires
            self.wf(),
        ensures
            match r {
                Some(v) => self.view().contains_key(key) && *v == self.view()[key],
                None => !self.view().contains_key(key),
            },
    {
        match self.index_of(key) {
            Some(i) => {
                proof {
                    lemma_seq_to_map_index(self.entries@, i as int);
                }
                Some(&self.entries[i])
            },
            None => None,
        }
    }

    /// Stores `item` under its key, replacing an entry already there.
    pub fn insert(&mut self, item: T)
        requires
            old(self).wf(),
        ensures
            final(self).wf(),
            final(self).view() == old(self).view().insert(item.key_spec(), item),
    {
        let key = item.key();
        match self.index_of(key) {
            Some(i) => {
                proof {
                    lemma_seq_to_map_update(self.entries@, i as int, item);
                }
                self.entries.set(i, item);
            },
            None => {
                let ghost before = self.entries@;
                self.entries.push(item);
                proof {
                    assert(self.entries@.drop_last() =~= before);
                    assert forall|a: int, b: int|
                        0 <= a < self.entries@.len() && 0 <= b < self.entries@.len() && a != b implies #[trigger] self.entries@[a].key_spec()
                        != #[trigger] self.entries@[b].key_spec() by {
                        if a < before.len() && b < before.len() {
                            assert(before[a].key_spec() != before[b].key_spec());
                        } else if a < before.len() {
                            assert(before[a].key_spec() != key);
                        } else if b < before.len() {
                            assert(before[b].key_spec() != key);
                        }
                    }
                }
            },
        }
    }

    /// Drops the entry for `key`, if any.
    pub fn remove(&mut self, key: H160)
        requires
            old(self).wf(),
        ensures
            final(self).wf(),
            final(self).view() == old(self).view().remove(key),
    {
        match self.index_of(key) {
            Some(i) => {
                proof {
                    lemma_seq_to_map_remove(self.entries@, i as int);
                }
                self.entries.remove(i);
            },
            None => {
                proof {
                    assert(self.view() =~= self.view().remove(key));
                }
            },
        }
    }

    /// Whether no two entries share a key.
    pub fn is_well_formed(&self) -> (r: bool)
        ensures
            r == self.wf(),
    {
        let n = self.entries.len();
        let mut i: usize = 0;
        while i < n
            invariant
                n == self.entries@.len(),
                i <= n,
                forall|a: int, b: int| 0 <= a < i && 0 <= b < n && a != b ==> #[trigger] self.entries@[a].key_spec() != #[trigger] self.entries@[b].key_spec(),
            decreases n - i,
        {
            let ki = self.entries[i].key();
            let mut j: usize = 0;
            while j < n
                invariant
                    n == self.entries@.len(),
                    i < n,
                    j <= n,
                    ki == self.entries@[i as int].key_spec(),
                    forall|b: int| 0 <= b < j && b != i ==> self.entries@[i as int].key_spec() != #[trigger] self.entries@[b].key_spec(),
                decreases n - j,
            {
                if j != i && self.entries[j].key() == ki {
                    return false;
                }
                j = j + 1;
            }
            i = i + 1;
        }
        true
    }

    pub fn len(&self) -> (r: usize)
        ensures
            r == self.entries@.len(),
    {
        self.entries.len()
    }
}

/// Whether `list` holds `address`.
pub fn contains_address(list: &Vec<H160>, address: H160) -> (r: bool)
    ensures
        r == list@.contains(address),
{
    let mut i: usize = 0;
    while i < list.len()
        invariant
            i <= list@.len(),
            forall|j: int| 0 <= j < i ==> list@[j] != address,
        decreases list@.len() - i,
    {
        if list[i] == address {
            return true;
        }
        i = i + 1;
    }
    false
}

} // verus!
