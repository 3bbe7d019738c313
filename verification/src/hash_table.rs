//! The hash table of one directory scan: image path to 64-bit hash.
//!
//! A scan hashes every file of a directory independently; a file whose bytes
//! do not decode contributes a failure instead of a hash. The aggregation
//! here filters the per-file outcomes to the successes, so that one bad file
//! never aborts the scan, and keeps the first hash of each path.

use vstd::prelude::*;

verus! {

/// Model of a table: the key of each entry as a character sequence, with
/// its hash, in insertion order.
pub open spec fn entries_model(entries: Seq<(String, u64)>) -> Seq<(Seq<char>, u64)> {
    entries.map_values(|e: (String, u64)| (e.0@, e.1))
}

/// Whether some entry of a table model carries the key `key`.
pub open spec fn model_contains_key(model: Seq<(Seq<char>, u64)>, key: Seq<char>) -> bool {
    exists|i: int| 0 <= i < model.len() && model[i].0 == key
}

/// Whether the keys of a table model are pairwise distinct.
pub open spec fn model_keys_distinct(model: Seq<(Seq<char>, u64)>) -> bool {
    forall|i: int, j: int| 0 <= i < j < model.len() ==> model[i].0 != model[j].0
}

/// The table that a sequence of per-file outcomes builds: outcomes without a
/// hash are dropped, and of several outcomes with the same path the first
/// one wins.
pub open spec fn build_table(outcomes: Seq<(Seq<char>, Option<u64>)>) -> Seq<(Seq<char>, u64)>
    decreases outcomes.len(),
{
    if outcomes.len() == 0 {
        Seq::empty()
    } else {
        let prev = build_table(outcomes.drop_last());
        let last = outcomes.last();
        match last.1 {
            Some(h) => if model_contains_key(prev, last.0) {
                prev
            } else {
                prev.push((last.0, h))
            },
            None => prev,
        }
    }
}

/// Model of a sequence of per-file outcomes.
pub open spec fn outcomes_model(outcomes: Seq<(String, Option<u64>)>) -> Seq<
    (Seq<char>, Option<u64>),
> {
    outcomes.map_values(|o: (String, Option<u64>)| (o.0@, o.1))
}

proof fn lemma_build_table_keys_distinct(outcomes: Seq<(Seq<char>, Option<u64>)>)
    ensures
        model_keys_distinct(build_table(outcomes)),
    decreases outcomes.len(),
{
    if outcomes.len() > 0 {
        lemma_build_table_keys_distinct(outcomes.drop_last());
        let prev = build_table(outcomes.drop_last());
        let t = build_table(outcomes);
        let last = outcomes.last();
        if last.1 is Some && !model_contains_key(prev, last.0) {
            assert forall|i: int, j: int| 0 <= i < j < t.len() implies t[i].0 != t[j].0 by {
                if j == t.len() - 1 {
                    assert(!(exists|k: int| 0 <= k < prev.len() && prev[k].0 == last.0));
                    assert(t[i].0 == prev[i].0);
                }
            }
        }
    }
}

proof fn lemma_build_table_key_source(outcomes: Seq<(Seq<char>, Option<u64>)>, key: Seq<char>)
    requires
        model_contains_key(build_table(outcomes), key),
    ensures
        exists|i: int| 0 <= i < outcomes.len() && (#[trigger] outcomes[i]).0 == key,
    decreases outcomes.len(),
{
    let t = build_table(outcomes);
    let wit = choose|w: int| 0 <= w < t.len() && t[w].0 == key;
    let prev = build_table(outcomes.drop_last());
    let last = outcomes.last();
    if last.1 is Some && !model_contains_key(prev, last.0) {
        if wit == t.len() - 1 {
            assert(outcomes[outcomes.len() - 1].0 == key);
        } else {
            assert(prev[wit].0 == key);
            lemma_build_table_key_source(outcomes.drop_last(), key);
            let i = choose|i: int|
                0 <= i < outcomes.drop_last().len() && outcomes.drop_last()[i].0 == key;
            assert(outcomes[i].0 == key);
        }
    } else {
        assert(prev[wit].0 == key);
        lemma_build_table_key_source(outcomes.drop_last(), key);
        let i = choose|i: int|
            0 <= i < outcomes.drop_last().len() && outcomes.drop_last()[i].0 == key;
        assert(outcomes[i].0 == key);
    }
}

/// Fault isolation of the scan, counted: when the scanned paths are
/// pairwise distinct, the table holds exactly one entry per outcome that
/// produced a hash; every outcome that failed to decode is dropped and
/// drops nothing else with it.
pub proof fn lemma_build_table_counts_successes(outcomes: Seq<(Seq<char>, Option<u64>)>)
    requires
        forall|i: int, j: int|
            0 <= i < j < outcomes.len() ==> (#[trigger] outcomes[i]).0 != (
            #[trigger] outcomes[j]).0,
    ensures
        build_table(outcomes).len() == outcomes.filter(
            |o: (Seq<char>, Option<u64>)| o.1 is Some,
        ).len(),
    decreases outcomes.len(),
{
    reveal(Seq::filter);
    let pred = |o: (Seq<char>, Option<u64>)| o.1 is Some;
    if outcomes.len() == 0 {
        assert(outcomes.filter(pred).len() == 0);
    } else {
        let s0 = outcomes.drop_last();
        let last = outcomes.last();
        lemma_build_table_counts_successes(s0);
        let prev = build_table(s0);
        if last.1 is Some {
            if model_contains_key(prev, last.0) {
                lemma_build_table_key_source(s0, last.0);
                let i = choose|i: int| 0 <= i < s0.len() && s0[i].0 == last.0;
                assert(outcomes[i].0 == outcomes[outcomes.len() - 1].0);
                assert(false);
            }
            assert(build_table(outcomes).len() == prev.len() + 1);
        }
    }
}

/// Mapping from image path to 64-bit hash, built once per scan of one
/// directory with one algorithm. Keys are distinct; an entry's position only
/// records insertion order and carries no meaning.
pub struct HashTable {
    entries: Vec<(String, u64)>,
}

impl View for HashTable {
    type V = Seq<(Seq<char>, u64)>;

    closed spec fn view(&self) -> Seq<(Seq<char>, u64)> {
        entries_model(self.entries@)
    }
}

impl HashTable {
    /// Every table a scan builds has pairwise distinct keys.
    pub open spec fn wf(self) -> bool {
        model_keys_distinct(self@)
    }

    /// Number of images of the table.
    pub fn len(&self) -> (n: usize)
        ensures
            n == self@.len(),
    {
        self.entries.len()
    }

    /// Path of the entry at position `i` of insertion order.
    pub fn key_at(&self, i: usize) -> (key: &String)
        requires
            i < self@.len(),
        ensures
            key@ == self@[i as int].0,
    {
        &self.entries[i].0
    }

    /// Hash of the entry at position `i` of insertion order.
    pub fn hash_at(&self, i: usize) -> (hash: u64)
        requires
            i < self@.len(),
        ensures
            hash == self@[i as int].1,
    {
        self.entries[i].1
    }

    /// Whether some entry carries the path `key`.
    pub fn contains_key(&self, key: &String) -> (found: bool)
        ensures
            found == model_contains_key(self@, key@),
    {
        let n = self.entries.len();
        for i in 0..n
            invariant
                n == self@.len(),
                forall|k: int| 0 <= k < i ==> self@[k].0 != key@,
        {
            if self.entries[i].0 == *key {
                proof {
                    let k = i as int;
                    assert(self@[k] == (self.entries@[k].0@, self.entries@[k].1));
                    assert(0 <= k < self@.len() && self@[k].0 == key@);
                }
                return true;
            }
        }
        false
    }
}

/// Failure of a whole scan: the directory itself could not be listed. This
/// is fatal to the requested scan, and distinct from a directory that held
/// no decodable image, which yields an ordinary empty table.
#[derive(Debug, Clone, Copy, PartialEq, Eq, Structural)]
pub enum DirectoryReadError {
    Unlistable,
}

/// Turn the result of listing one directory into the scan's outcome: a
/// listing that could not be made at all is the scan's own failure, while a
/// listing of per-file outcomes is aggregated into the hash table, bad
/// files dropped.
pub fn collect_scan(listing: Option<&Vec<(String, Option<u64>)>>) -> (result: Result<
    HashTable,
    DirectoryReadError,
>)
    ensures
        match result {
            Ok(table) => listing is Some && table@ == build_table(
                outcomes_model(listing->0@),
            ) && table.wf(),
            Err(e) => listing is None && e == DirectoryReadError::Unlistable,
        },
{
    match listing {
        Some(outcomes) => Ok(calculate_hashes(outcomes)),
        None => Err(DirectoryReadError::Unlistable),
    }
}

/// Collect the per-file outcomes of one directory scan into the hash table:
/// keep every path that produced a hash, drop every path that failed to
/// decode, and of several outcomes with the same path keep the first. The
/// scan itself never fails on a bad file.
pub fn calculate_hashes(outcomes: &Vec<(String, Option<u64>)>) -> (table: HashTable)
    ensures
        table@ == build_table(outcomes_model(outcomes@)),
        table.wf(),
{
    let mut table = HashTable { entries: Vec::new() };
    let n = outcomes.len();
    assert(outcomes_model(outcomes@).take(0) =~= Seq::empty());
    for i in 0..n
        invariant
            n == outcomes@.len(),
            table@ == build_table(outcomes_model(outcomes@).take(i as int)),
    {
        let o = &outcomes[i];
        proof {
            let m = outcomes_model(outcomes@);
            assert(m.take(i + 1).drop_last() =~= m.take(i as int));
            assert(m.take(i + 1).last() == m[i as int]);
        }
        match o.1 {
            Some(h) => {
                if !table.contains_key(&o.0) {
                    table.entries.push((o.0.clone(), h));
                    proof {
                        let m = outcomes_model(outcomes@);
                        assert(table@ =~= build_table(m.take(i as int)).push((m[i as int].0, h)));
                    }
                }
            },
            None => {},
        }
    }
    proof {
        assert(outcomes_model(outcomes@).take(n as int) =~= outcomes_model(outcomes@));
        lemma_build_table_keys_distinct(outcomes_model(outcomes@));
    }
    table
}

} // verus!
