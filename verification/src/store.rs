//! One namespace of the storage layer.
//!
//! A `KvStore` maps byte keys to byte values inside a single isolated
//! namespace; the ledger holds one store per namespace (balances, allowances,
//! viewing keys), so distinct namespaces cannot collide by construction.
//!
//! Its abstract view is the map the entries denote, and `total()` is the sum
//! of all well-formed stored amounts in the namespace — the quantity the
//! supply invariant of the ledger is stated over.

use vstd::prelude::*;
use crate::encode::stored_amount;

verus! {

/// Byte keys to byte values, one entry per key.
#[derive(Debug)]
pub struct KvStore {
    entries: Vec<(Vec<u8>, Vec<u8>)>,
}

/// The mapping a sequence of entries denotes; a later entry overrides an
/// earlier one with the same key.
pub open spec fn map_of(s: Seq<(Vec<u8>, Vec<u8>)>) -> Map<Seq<u8>, Seq<u8>>
    decreases s.len(),
{
    if s.len() == 0 {
        Map::empty()
    } else {
        map_of(s.drop_last()).insert(s.last().0@, s.last().1@)
    }
}

/// The sum of the amounts the stored values denote.
pub open spec fn total_of(s: Seq<(Vec<u8>, Vec<u8>)>) -> int
    decreases s.len(),
{
    if s.len() == 0 {
        0
    } else {
        total_of(s.drop_last()) + stored_amount(s.last().1@)
    }
}

spec fn keys_unique(s: Seq<(Vec<u8>, Vec<u8>)>) -> bool {
    forall|i: int, j: int| 0 <= i < j < s.len() ==> (#[trigger] s[i]).0@ != (#[trigger] s[j]).0@
}

proof fn lemma_map_of_absent(s: Seq<(Vec<u8>, Vec<u8>)>, k: Seq<u8>)
    requires
        forall|i: int| 0 <= i < s.len() ==> (#[trigger] s[i]).0@ != k,
    ensures
        !map_of(s).contains_key(k),
    decreases s.len(),
{
    if s.len() > 0 {
        assert forall|i: int| 0 <= i < s.drop_last().len() implies (#[trigger] s.drop_last()[i]).0@
            != k by {
            assert(s.drop_last()[i] == s[i]);
        }
        lemma_map_of_absent(s.drop_last(), k);
    }
}

proof fn lemma_map_of_found(s: Seq<(Vec<u8>, Vec<u8>)>, i: int)
    requires
        keys_unique(s),
        0 <= i < s.len(),
    ensures
        map_of(s).contains_key(s[i].0@),
        map_of(s)[s[i].0@] == s[i].1@,
    decreases s.len(),
{
    if i < s.len() - 1 {
        assert(keys_unique(s.drop_last())) by {
            assert forall|a: int, b: int|
                0 <= a < b < s.drop_last().len() implies (#[trigger] s.drop_last()[a]).0@ != (
            #[trigger] s.drop_last()[b]).0@ by {
                assert(s.drop_last()[a] == s[a] && s.drop_last()[b] == s[b]);
            }
        }
        lemma_map_of_found(s.drop_last(), i);
        assert(s.drop_last()[i] == s[i]);
        assert(s[i].0@ != s.last().0@);
    }
}

proof fn lemma_total_nonneg(s: Seq<(Vec<u8>, Vec<u8>)>)
    ensures
        total_of(s) >= 0,
    decreases s.len(),
{
    if s.len() > 0 {
        lemma_total_nonneg(s.drop_last());
    }
}

proof fn lemma_contribution_le_total(s: Seq<(Vec<u8>, Vec<u8>)>, k: Seq<u8>)
    requires
        map_of(s).contains_key(k),
    ensures
        stored_amount(map_of(s)[k]) <= total_of(s),
    decreases s.len(),
{
    if s.len() > 0 {
        if s.last().0@ == k {
            lemma_total_nonneg(s.drop_last());
        } else {
            lemma_contribution_le_total(s.drop_last(), k);
        }
    }
}

proof fn lemma_map_of_update(s: Seq<(Vec<u8>, Vec<u8>)>, i: int, e: (Vec<u8>, Vec<u8>))
    requires
        keys_unique(s),
        0 <= i < s.len(),
        e.0@ == s[i].0@,
    ensures
        map_of(s.update(i, e)) == map_of(s).insert(e.0@, e.1@),
        keys_unique(s.update(i, e)),
        total_of(s.update(i, e)) == total_of(s) - stored_amount(s[i].1@) + stored_amount(e.1@),
    decreases s.len(),
{
    let s2 = s.update(i, e);
    assert(keys_unique(s2)) by {
        assert forall|a: int, b: int| 0 <= a < b < s2.len() implies (#[trigger] s2[a]).0@ != (
        #[trigger] s2[b]).0@ by {
            assert(s[a].0@ != s[b].0@);
        }
    }
    if i == s.len() - 1 {
        assert(s2.drop_last() =~= s.drop_last());
        assert(map_of(s2) == map_of(s.drop_last()).insert(e.0@, e.1@));
        assert(map_of(s).insert(e.0@, e.1@) =~= map_of(s.drop_last()).insert(e.0@, e.1@));
    } else {
        assert(keys_unique(s.drop_last())) by {
            assert forall|a: int, b: int|
                0 <= a < b < s.drop_last().len() implies (#[trigger] s.drop_last()[a]).0@ != (
            #[trigger] s.drop_last()[b]).0@ by {
                assert(s.drop_last()[a] == s[a] && s.drop_last()[b] == s[b]);
            }
        }
        assert(s2.drop_last() =~= s.drop_last().update(i, e));
        assert(s.drop_last()[i] == s[i]);
        lemma_map_of_update(s.drop_last(), i, e);
        assert(s2.last() == s.last());
        // the updated key differs from the last key, so the two inserts commute
        assert(s[i].0@ != s.last().0@);
        assert(map_of(s2) == map_of(s.drop_last()).insert(e.0@, e.1@).insert(
            s.last().0@,
            s.last().1@,
        ));
        assert(map_of(s.drop_last()).insert(e.0@, e.1@).insert(s.last().0@, s.last().1@) =~= map_of(
            s.drop_last(),
        ).insert(s.last().0@, s.last().1@).insert(e.0@, e.1@));
    }
}

proof fn lemma_map_of_push(s: Seq<(Vec<u8>, Vec<u8>)>, e: (Vec<u8>, Vec<u8>))
    ensures
        map_of(s.push(e)) == map_of(s).insert(e.0@, e.1@),
        total_of(s.push(e)) == total_of(s) + stored_amount(e.1@),
{
    assert(s.push(e).drop_last() =~= s);
    assert(s.push(e).last() == e);
}

/// Byte-for-byte equality of two byte strings.
pub fn bytes_eq(a: &[u8], b: &[u8]) -> (r: bool)
    ensures
        r <==> a@ == b@,
{
    if a.len() != b.len() {
        return false;
    }
    let n = a.len();
    let mut i: usize = 0;
    while i < n
        invariant
            n == a@.len() == b@.len(),
            i <= n,
            forall|j: int| 0 <= j < i ==> a@[j] == b@[j],
        decreases n - i,
    {
        if a[i] != b[i] {
            return false;
        }
        i += 1;
    }
    proof {
        assert(a@ =~= b@);
    }
    true
}

impl View for KvStore {
    type V = Map<Seq<u8>, Seq<u8>>;

    closed spec fn view(&self) -> Map<Seq<u8>, Seq<u8>> {
        map_of(self.entries@)
    }
}

impl KvStore {
    /// Internal well-formedness: at most one entry per key.
    pub closed spec fn inv(self) -> bool {
        keys_unique(self.entries@)
    }

    /// The sum of all well-formed stored amounts in this namespace.
    pub closed spec fn total(self) -> int {
        total_of(self.entries@)
    }

    /// An empty namespace.
    pub fn new() -> (r: KvStore)
        ensures
            r.inv(),
            r@ == Map::<Seq<u8>, Seq<u8>>::empty(),
            r.total() == 0,
    {
        KvStore { entries: Vec::new() }
    }

    fn find(&self, key: &[u8]) -> (r: Option<usize>)
        ensures
            match r {
                Some(i) => i < self.entries@.len() && self.entries@[i as int].0@ == key@,
                None => forall|j: int|
                    0 <= j < self.entries@.len() ==> (#[trigger] self.entries@[j]).0@ != key@,
            },
    {
        let n = self.entries.len();
        let mut i: usize = 0;
        while i < n
            invariant
                n == self.entries@.len(),
                i <= n,
                forall|j: int| 0 <= j < i ==> (#[trigger] self.entries@[j]).0@ != key@,
            decreases n - i,
        {
            if bytes_eq(self.entries[i].0.as_slice(), key) {
                return Some(i);
            }
            i += 1;
        }
        None
    }

    /// Looks a key up in the namespace.
    pub fn get(&self, key: &[u8]) -> (r: Option<&Vec<u8>>)
        requires
            self.inv(),
        ensures
            match r {
                Some(v) => self@.contains_key(key@) && v@ == self@[key@],
                None => !self@.contains_key(key@),
            },
    {
        match self.find(key) {
            Some(i) => {
                proof {
                    lemma_map_of_found(self.entries@, i as int);
                }
                Some(&self.entries[i].1)
            },
            None => {
                proof {
                    lemma_map_of_absent(self.entries@, key@);
                }
                None
            },
        }
    }

    /// Writes a value under a key, replacing any previous value.
    pub fn set(&mut self, key: &[u8], value: Vec<u8>)
        requires
            old(self).inv(),
        ensures
            final(self).inv(),
            final(self)@ == old(self)@.insert(key@, value@),
            final(self).total() == old(self).total() + stored_amount(value@) - (
            if old(self)@.contains_key(key@) {
                stored_amount(old(self)@[key@])
            } else {
                0
            }),
    {
        let ghost s0 = self.entries@;
        match self.find(key) {
            Some(i) => {
                proof {
                    lemma_map_of_found(s0, i as int);
                    lemma_map_of_update(s0, i as int, (s0[i as int].0, value));
                }
                self.entries[i].1 = value;
            },
            None => {
                let owned = vstd::slice::slice_to_vec(key);
                let ghost e = (owned, value);
                proof {
                    lemma_map_of_absent(s0, key@);
                    lemma_map_of_push(s0, e);
                    assert(keys_unique(s0.push(e))) by {
                        assert forall|a: int, b: int|
                            0 <= a < b < s0.push(e).len() implies (#[trigger] s0.push(e)[a]).0@
                            != (#[trigger] s0.push(e)[b]).0@ by {
                            if b < s0.len() {
                                assert(s0.push(e)[a] == s0[a] && s0.push(e)[b] == s0[b]);
                            } else {
                                assert(s0.push(e)[a] == s0[a] && s0.push(e)[b] == e);
                            }
                        }
                    }
                }
                self.entries.push((owned, value));
            },
        }
    }

    /// No single stored amount exceeds the namespace total.
    pub proof fn lemma_value_le_total(self, k: Seq<u8>)
        requires
            self@.contains_key(k),
        ensures
            stored_amount(self@[k]) <= self.total(),
    {
        lemma_contribution_le_total(self.entries@, k);
    }

    /// The namespace total is a sum of non-negative contributions.
    pub proof fn lemma_total_nonneg(self)
        ensures
            self.total() >= 0,
    {
        lemma_total_nonneg(self.entries@);
    }
}

/// Reads a stored amount: zero when the key is absent, the decoded value when
/// it has the fixed width, and corrupt storage otherwise.
pub fn read_u128(store: &KvStore, key: &[u8]) -> (r: Result<u128, crate::error::Error>)
    requires
        store.inv(),
    ensures
        !store@.contains_key(key@) ==> r == Ok::<u128, crate::error::Error>(0u128),
        store@.contains_key(key@) && store@[key@].len() == 16 ==> r == Ok::<
            u128,
            crate::error::Error,
        >(crate::encode::be_value_of(store@[key@])),
        store@.contains_key(key@) && store@[key@].len() != 16 ==> r == Err::<
            u128,
            crate::error::Error,
        >(crate::error::Error::CorruptStorage),
{
    match store.get(key) {
        Some(v) => crate::encode::bytes_to_u128(v.as_slice()),
        None => Ok(0),
    }
}

} // verus!
