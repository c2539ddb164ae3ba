//! A storage map: values found again by a key, each key at most once.
use vstd::prelude::*;

verus! {

/// Keys whose equality can be decided at run time.
pub trait KeyEq: Sized {
    /// Whether the two keys are equal.
    fn key_eq(&self, other: &Self) -> (b: bool)
        ensures
            b == (*self == *other),
    ;
}

impl KeyEq for (u16, u64) {
    fn key_eq(&self, other: &Self) -> (b: bool) {
        self.0 == other.0 && self.1 == other.1
    }
}

impl KeyEq for ((u16, u64), u64) {
    fn key_eq(&self, other: &Self) -> (b: bool) {
        self.0.0 == other.0.0 && self.0.1 == other.0.1 && self.1 == other.1
    }
}

/// A map from keys to values, kept as its entries, each key once.
pub struct Store<K, V> {
    entries: Vec<(K, V)>,
}

/// Whether no key occurs twice in `s`.
pub open spec fn keys_unique<K, V>(s: Seq<(K, V)>) -> bool {
    forall|i: int, j: int| 0 <= i < s.len() && 0 <= j < s.len() && i != j ==> s[i].0 != s[j].0
}

/// Whether `k` is the key of an entry of `s`.
pub open spec fn has_key<K, V>(s: Seq<(K, V)>, k: K) -> bool {
    exists|i: int| 0 <= i < s.len() && #[trigger] s[i].0 == k
}

/// The map that the entries `s` stand for.
pub open spec fn entries_map<K, V>(s: Seq<(K, V)>) -> Map<K, V> {
    Map::new(
        |k: K| has_key(s, k),
        |k: K| s[choose|i: int| 0 <= i < s.len() && #[trigger] s[i].0 == k].1,
    )
}

/// In entries with unique keys, the entry at `i` gives the map's value at its key.
pub proof fn lemma_entry_in_map<K, V>(s: Seq<(K, V)>, i: int)
    requires
        keys_unique(s),
        0 <= i < s.len(),
    ensures
        entries_map(s).dom().contains(s[i].0),
        entries_map(s)[s[i].0] == s[i].1,
{
    let k = s[i].0;
    assert(has_key(s, k));
    let j = choose|j: int| 0 <= j < s.len() && #[trigger] s[j].0 == k;
    assert(j == i);
}

impl<K, V> Store<K, V> {
    #[verifier::type_invariant]
    spec fn inv(self) -> bool {
        keys_unique(self.entries@)
    }

    /// The entries, in the order in which their keys were first inserted.
    pub closed spec fn entries_seq(self) -> Seq<(K, V)> {
        self.entries@
    }

    /// An empty store.
    pub fn new() -> (r: Self)
        ensures
            r@ == Map::<K, V>::empty(),
    {
        let r = Store { entries: Vec::new() };
        assert(r@ =~= Map::<K, V>::empty());
        r
    }

    /// The entries, in the order in which their keys were first inserted.
    pub fn entries(&self) -> (r: &Vec<(K, V)>)
        ensures
            r@ == self.entries_seq(),
            keys_unique(r@),
            self@ == entries_map(r@),
    {
        proof {
            use_type_invariant(self);
        }
        &self.entries
    }
}

impl<K, V> View for Store<K, V> {
    type V = Map<K, V>;

    closed spec fn view(&self) -> Map<K, V> {
        entries_map(self.entries@)
    }
}

impl<K: KeyEq, V: Copy> Store<K, V> {
    /// The position of the entry with key `k` in `entries`, if there is one.
    fn position_in(entries: &Vec<(K, V)>, k: &K) -> (r: Option<usize>)
        ensures
            match r {
                Some(i) => i < entries@.len() && entries@[i as int].0 == *k,
                None => !has_key(entries@, *k),
            },
    {
        let mut i: usize = 0;
        while i < entries.len()
            invariant
                i <= entries@.len(),
                forall|j: int| 0 <= j < i ==> entries@[j].0 != *k,
            decreases entries@.len() - i,
        {
            if entries[i].0.key_eq(k) {
                return Some(i);
            }
            i = i + 1;
        }
        None
    }

    /// The value stored under `k`, if any.
    pub fn get(&self, k: &K) -> (r: Option<V>)
        ensures
            r == (if self@.dom().contains(*k) {
                Some(self@[*k])
            } else {
                None
            }),
    {
        proof {
            use_type_invariant(self);
        }
        match Self::position_in(&self.entries, k) {
            Some(i) => {
                proof {
                    lemma_entry_in_map(self.entries@, i as int);
                }
                Some(self.entries[i].1)
            },
            None => None,
        }
    }

    /// Whether a value is stored under `k`.
    pub fn contains_key(&self, k: &K) -> (r: bool)
        ensures
            r == self@.dom().contains(*k),
    {
        match Self::position_in(&self.entries, k) {
            Some(i) => {
                proof {
                    use_type_invariant(self);
                    lemma_entry_in_map(self.entries@, i as int);
                }
                true
            },
            None => false,
        }
    }

    /// Stores `v` under `k`, in place of what was stored there.
    pub fn insert(&mut self, k: K, v: V)
        ensures
            final(self)@ == old(self)@.insert(k, v),
    {
        proof {
            use_type_invariant(&*self);
        }
        let ghost old_entries = self.entries@;
        let mut entries: Vec<(K, V)> = Vec::new();
        std::mem::swap(&mut entries, &mut self.entries);
        match Self::position_in(&entries, &k) {
            Some(i) => {
                entries.set(i, (k, v));
                proof {
                    lemma_set_entry(old_entries, i as int, k, v);
                }
            },
            None => {
                entries.push((k, v));
                proof {
                    lemma_push_entry(old_entries, k, v);
                }
            },
        }
        self.entries = entries;
    }
}

/// Replacing the value of the entry at `i`, whose key is `k`, stores `v` under `k`.
proof fn lemma_set_entry<K, V>(old_entries: Seq<(K, V)>, i: int, k: K, v: V)
    requires
        keys_unique(old_entries),
        0 <= i < old_entries.len(),
        old_entries[i].0 == k,
    ensures
        keys_unique(old_entries.update(i, (k, v))),
        entries_map(old_entries.update(i, (k, v))) == entries_map(old_entries).insert(k, v),
{
    let s = old_entries.update(i, (k, v));
    let m1 = entries_map(s);
    let m2 = entries_map(old_entries).insert(k, v);
    assert forall|kk: K| m1.dom().contains(kk) <==> m2.dom().contains(kk) by {
        if has_key(old_entries, kk) {
            let j = choose|j: int| 0 <= j < old_entries.len() && #[trigger] old_entries[j].0 == kk;
            assert(s[j].0 == kk);
        }
        if has_key(s, kk) {
            let j = choose|j: int| 0 <= j < s.len() && #[trigger] s[j].0 == kk;
            assert(old_entries[j].0 == kk);
        }
        if kk == k {
            assert(s[i].0 == kk);
        }
    }
    assert(m1.dom() =~= m2.dom());
    assert forall|kk: K| m1.dom().contains(kk) implies m1[kk] == m2[kk] by {
        let j = choose|j: int| 0 <= j < s.len() && #[trigger] s[j].0 == kk;
        lemma_entry_in_map(s, j);
        if kk != k {
            lemma_entry_in_map(old_entries, j);
        }
    }
    assert(m1 =~= m2);
}

/// Appending an entry with a new key `k` stores `v` under `k`.
proof fn lemma_push_entry<K, V>(old_entries: Seq<(K, V)>, k: K, v: V)
    requires
        keys_unique(old_entries),
        !has_key(old_entries, k),
    ensures
        keys_unique(old_entries.push((k, v))),
        entries_map(old_entries.push((k, v))) == entries_map(old_entries).insert(k, v),
{
    let s = old_entries.push((k, v));
    let n = old_entries.len() as int;
    let m1 = entries_map(s);
    let m2 = entries_map(old_entries).insert(k, v);
    assert forall|a: int, b: int| 0 <= a < s.len() && 0 <= b < s.len() && a != b implies s[a].0 != s[b].0 by {
        if a == n {
            assert(old_entries[b].0 == s[b].0);
        } else if b == n {
            assert(old_entries[a].0 == s[a].0);
        }
    }
    assert forall|kk: K| m1.dom().contains(kk) <==> m2.dom().contains(kk) by {
        if has_key(old_entries, kk) {
            let j = choose|j: int| 0 <= j < old_entries.len() && #[trigger] old_entries[j].0 == kk;
            assert(s[j].0 == kk);
        }
        if has_key(s, kk) && kk != k {
            let j = choose|j: int| 0 <= j < s.len() && #[trigger] s[j].0 == kk;
            assert(old_entries[j].0 == kk);
        }
        if kk == k {
            assert(s[n].0 == kk);
        }
    }
    assert(m1.dom() =~= m2.dom());
    assert forall|kk: K| m1.dom().contains(kk) implies m1[kk] == m2[kk] by {
        let j = choose|j: int| 0 <= j < s.len() && #[trigger] s[j].0 == kk;
        lemma_entry_in_map(s, j);
        if j < n {
            assert(old_entries[j].0 == kk);
            lemma_entry_in_map(old_entries, j);
        }
    }
    assert(m1 =~= m2);
}

} // verus!
