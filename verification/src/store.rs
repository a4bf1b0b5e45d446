//! The expiring key-value store: a mapping from string keys to entries of
//! `(value, optional absolute expiry in milliseconds since the Unix epoch)`,
//! modelled as a `Map` from character sequences to entry models. An entry is
//! always written whole — value and expiry together. Callers that share one
//! store across connections serialize access around it; each operation here
//! is then atomic with respect to the others.

use vstd::prelude::*;

verus! {

/// One keyed entry as stored: `(key, (value, expires_at))`.
pub type StoreRow = (String, (String, Option<u128>));

/// The model of the store.
pub type StoreModel = Map<Seq<char>, (Seq<char>, Option<u128>)>;

/// The mapping a row sequence denotes: later rows shadow earlier ones.
pub open spec fn map_of(s: Seq<StoreRow>) -> StoreModel
    decreases s.len(),
{
    if s.len() == 0 {
        Map::empty()
    } else {
        map_of(s.drop_last()).insert(s.last().0@, (s.last().1.0@, s.last().1.1))
    }
}

/// The key-value store.
pub struct Store {
    entries: Vec<StoreRow>,
}

impl View for Store {
    type V = StoreModel;

    closed spec fn view(&self) -> StoreModel {
        map_of(self.entries@)
    }
}

impl Store {
    /// An empty store.
    pub fn new() -> (r: Store)
        ensures
            r@ == StoreModel::empty(),
    {
        Store { entries: Vec::new() }
    }

    /// The entry under `key`, if any: a copy of the stored value and its
    /// optional expiry timestamp.
    pub fn lookup(&self, key: &String) -> (r: Option<(String, Option<u128>)>)
        ensures
            match r {
                Some(e) => self@.contains_key(key@) && self@[key@] == (e.0@, e.1),
                None => !self@.contains_key(key@),
            },
    {
        proof {
            assert(self.entries@.take(self.entries@.len() as int) =~= self.entries@);
        }
        let mut j: usize = self.entries.len();
        while j > 0
            invariant
                0 <= j <= self.entries@.len(),
                map_of(self.entries@).contains_key(key@) == map_of(
                    self.entries@.take(j as int),
                ).contains_key(key@),
                map_of(self.entries@.take(j as int)).contains_key(key@) ==> map_of(
                    self.entries@,
                )[key@] == map_of(self.entries@.take(j as int))[key@],
            decreases j,
        {
            let jp = j - 1;
            proof {
                assert(self.entries@.take(j as int).drop_last() =~= self.entries@.take(jp as int));
                assert(self.entries@.take(j as int).last() == self.entries@[jp as int]);
            }
            let row = &self.entries[jp];
            if row.0 == *key {
                return Some((row.1.0.clone(), row.1.1));
            }
            j = jp;
        }
        None
    }

    /// Removes every row keyed by `key`; the model loses that key.
    pub fn remove_key(&mut self, key: &String)
        ensures
            final(self)@ == old(self)@.remove(key@),
    {
        let ghost orig = self.entries@;
        let n = self.entries.len();
        let mut out: Vec<StoreRow> = Vec::new();
        let mut idx: usize = 0;
        proof {
            assert(map_of(out@) =~= map_of(orig.take(0)).remove(key@));
        }
        while idx < n
            invariant
                0 <= idx <= n,
                n == self.entries@.len(),
                self.entries@ == orig,
                map_of(out@) == map_of(orig.take(idx as int)).remove(key@),
            decreases n - idx,
        {
            proof {
                assert(orig.take(idx as int + 1).drop_last() =~= orig.take(idx as int));
                assert(orig.take(idx as int + 1).last() == orig[idx as int]);
            }
            let row = &self.entries[idx];
            if row.0 == *key {
                proof {
                    assert(map_of(orig.take(idx as int + 1)).remove(key@) =~= map_of(
                        orig.take(idx as int),
                    ).remove(key@));
                }
            } else {
                let ghost prev_out = out@;
                let copied = (row.0.clone(), (row.1.0.clone(), row.1.1));
                out.push(copied);
                proof {
                    assert(out@.drop_last() =~= prev_out);
                    assert(map_of(out@) =~= map_of(prev_out).insert(row.0@, (row.1.0@, row.1.1)));
                    assert(map_of(prev_out).insert(row.0@, (row.1.0@, row.1.1)) =~= map_of(
                        orig.take(idx as int + 1),
                    ).remove(key@));
                }
            }
            idx += 1;
        }
        proof {
            assert(orig.take(n as int) =~= orig);
        }
        self.entries = out;
    }

    /// Writes `key` to hold `(value, expires_at)`, replacing any earlier
    /// entry whole.
    pub fn set(&mut self, key: String, value: String, expires_at: Option<u128>)
        ensures
            final(self)@ == old(self)@.insert(key@, (value@, expires_at)),
    {
        let ghost gkey = key@;
        let ghost gval = value@;
        self.remove_key(&key);
        let ghost removed_rows = self.entries@;
        self.entries.push((key, (value, expires_at)));
        proof {
            assert(self.entries@.drop_last() =~= removed_rows);
            assert(map_of(self.entries@) =~= map_of(removed_rows).insert(
                gkey,
                (gval, expires_at),
            ));
            assert(map_of(removed_rows).insert(gkey, (gval, expires_at)) =~= old(self)@.insert(
                gkey,
                (gval, expires_at),
            ));
        }
    }
}

} // verus!
