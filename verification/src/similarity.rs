//! All-pairs similarity ranking over a hash table.
//!
//! For every image of the table, the distance to every image of the table
//! (itself included) is computed, and the resulting row is sorted ascending
//! by distance. Ties are broken deterministically by the position the images
//! hold in the source table.

use vstd::prelude::*;
use vstd::relations::sorted_by;
use vstd::relations::total_ordering;
use vstd::seq_lib::lemma_sorted_unique;
use vstd::seq_lib::group_to_multiset_ensures;
use vstd::seq_lib::to_multiset_insert;
use crate::hamming::hamming_distance;
use crate::hash_table::HashTable;

verus! {

/// Ranking order of one row: by distance first, ties by the position the
/// image holds in the source table.
pub open spec fn rank_le(a: (u32, usize), b: (u32, usize)) -> bool {
    a.0 < b.0 || (a.0 == b.0 && a.1 <= b.1)
}

/// The ranking order as a function value, for the sequence library.
pub open spec fn rank_le_fn() -> spec_fn((u32, usize), (u32, usize)) -> bool {
    |a: (u32, usize), b: (u32, usize)| rank_le(a, b)
}

proof fn lemma_rank_le_total()
    ensures
        total_ordering(rank_le_fn()),
{
    let leq = rank_le_fn();
    assert forall|a: (u32, usize), b: (u32, usize)| #[trigger] leq(a, b) || #[trigger] leq(b, a) by {
        assert(leq(a, b) == rank_le(a, b));
        assert(leq(b, a) == rank_le(b, a));
    }
    assert forall|a: (u32, usize), b: (u32, usize)|
        #[trigger] leq(a, b) && #[trigger] leq(b, a) implies a == b by {
        assert(rank_le(a, b) && rank_le(b, a));
    }
    assert forall|a: (u32, usize), b: (u32, usize), c: (u32, usize)|
        #[trigger] leq(a, b) && #[trigger] leq(b, c) implies leq(a, c) by {
        assert(rank_le(a, b) && rank_le(b, c));
        assert(rank_le(a, c));
    }
}

/// The distances of the source at position `i` against every entry of the
/// table, paired with the position of the compared entry, in table order.
pub open spec fn rank_pairs(model: Seq<(Seq<char>, u64)>, i: int) -> Seq<(u32, usize)> {
    Seq::new(
        model.len(),
        |j: int| (hamming_distance(model[i].1, model[j].1) as u32, j as usize),
    )
}

/// Sort distance-position pairs ascending by the ranking order.
fn sort_pairs(pairs: Vec<(u32, usize)>) -> (sorted: Vec<(u32, usize)>)
    ensures
        sorted@ == pairs@.sort_by(rank_le_fn()),
        sorted@.len() == pairs@.len(),
        sorted@.to_multiset() == pairs@.to_multiset(),
        sorted_by(sorted@, rank_le_fn()),
{
    broadcast use group_to_multiset_ensures;

    let n = pairs.len();
    let mut sorted: Vec<(u32, usize)> = Vec::new();
    assert(pairs@.take(0) =~= Seq::empty());
    for i in 0..n
        invariant
            n == pairs@.len(),
            sorted@.len() == i,
            sorted@.to_multiset() == pairs@.take(i as int).to_multiset(),
            sorted_by(sorted@, rank_le_fn()),
    {
        let p = pairs[i];
        let mut pos: usize = 0;
        while pos < sorted.len() && (sorted[pos].0 < p.0 || (sorted[pos].0 == p.0 && sorted[pos].1
            <= p.1))
            invariant
                pos <= sorted@.len(),
                forall|k: int| 0 <= k < pos ==> rank_le(#[trigger] sorted@[k], p),
            decreases sorted@.len() - pos,
        {
            pos = pos + 1;
        }
        let ghost old_sorted = sorted@;
        sorted.insert(pos, p);
        proof {
            to_multiset_insert(old_sorted, pos as int, p);
            assert(pairs@.take(i + 1).drop_last() =~= pairs@.take(i as int));
            assert(pairs@.take(i + 1) =~= pairs@.take(i as int).push(p));
            vstd::seq_lib::to_multiset_build(pairs@.take(i as int), p);
            assert(pairs@.take(i as int).push(p).to_multiset() =~= pairs@.take(
                i as int,
            ).to_multiset().insert(p));
            let leq = rank_le_fn();
            assert forall|a: int, b: int| 0 <= a < b < sorted@.len() implies #[trigger] leq(
                sorted@[a],
                sorted@[b],
            ) by {
                if b == pos {
                    assert(sorted@[a] == old_sorted[a] && rank_le(old_sorted[a], p));
                } else if a == pos {
                    assert(sorted@[b] == old_sorted[b - 1]);
                    assert(pos < old_sorted.len());
                    assert(!rank_le(old_sorted[pos as int], p));
                    assert(rank_le(p, old_sorted[pos as int]));
                    if b - 1 > pos {
                        assert(leq(old_sorted[pos as int], old_sorted[b - 1]));
                    }
                } else if a < pos && b > pos {
                    assert(sorted@[a] == old_sorted[a] && sorted@[b] == old_sorted[b - 1]);
                    assert(leq(old_sorted[a], old_sorted[b - 1]));
                } else if a > pos {
                    assert(sorted@[a] == old_sorted[a - 1] && sorted@[b] == old_sorted[b - 1]);
                    assert(leq(old_sorted[a - 1], old_sorted[b - 1]));
                } else {
                    assert(sorted@[a] == old_sorted[a] && sorted@[b] == old_sorted[b]);
                    assert(leq(old_sorted[a], old_sorted[b]));
                }
            }
        }
    }
    proof {
        assert(pairs@.take(n as int) =~= pairs@);
        lemma_rank_le_total();
        pairs@.lemma_sort_by_ensures(rank_le_fn());
        lemma_sorted_unique(sorted@, pairs@.sort_by(rank_le_fn()), rank_le_fn());
    }
    sorted
}

/// Model of one row: the key of each ranked entry as a character sequence,
/// with its distance to the row's source image.
pub open spec fn row_entries_model(entries: Seq<(String, u32)>) -> Seq<(Seq<char>, u32)> {
    entries.map_values(|e: (String, u32)| (e.0@, e.1))
}

/// The ranked row of the source at position `i`: every entry of the table,
/// sorted ascending by distance to the source, ties in table order.
pub open spec fn row_model(model: Seq<(Seq<char>, u64)>, i: int) -> Seq<(Seq<char>, u32)> {
    rank_pairs(model, i).sort_by(rank_le_fn()).map_values(
        |p: (u32, usize)| (model[p.1 as int].0, p.0),
    )
}

/// The similarity table of a hash table: one ranked row per entry, or no
/// rows at all when the table holds fewer than two images, the expected
/// outcome when there is nothing to compare.
pub open spec fn table_model(model: Seq<(Seq<char>, u64)>) -> Seq<
    (Seq<char>, Seq<(Seq<char>, u32)>),
> {
    if model.len() < 2 {
        Seq::empty()
    } else {
        Seq::new(model.len(), |i: int| (model[i].0, row_model(model, i)))
    }
}

/// Mapping from image path to its ranked row. Built once per analysis from
/// a finished hash table; empty when that table held fewer than two images.
pub struct SimilarityTable {
    rows: Vec<(String, Vec<(String, u32)>)>,
}

impl View for SimilarityTable {
    type V = Seq<(Seq<char>, Seq<(Seq<char>, u32)>)>;

    closed spec fn view(&self) -> Seq<(Seq<char>, Seq<(Seq<char>, u32)>)> {
        self.rows@.map_values(
            |r: (String, Vec<(String, u32)>)| (r.0@, row_entries_model(r.1@)),
        )
    }
}

impl SimilarityTable {
    /// Number of rows.
    pub fn len(&self) -> (n: usize)
        ensures
            n == self@.len(),
    {
        self.rows.len()
    }

    /// Path of the row at position `i`.
    pub fn key_at(&self, i: usize) -> (key: &String)
        requires
            i < self@.len(),
        ensures
            key@ == self@[i as int].0,
    {
        &self.rows[i].0
    }

    /// Ranked entries of the row at position `i`.
    pub fn row_at(&self, i: usize) -> (row: &Vec<(String, u32)>)
        requires
            i < self@.len(),
        ensures
            row_entries_model(row@) == self@[i as int].1,
    {
        &self.rows[i].1
    }

    /// The row of the first entry whose path is `key`, if any entry has it.
    pub fn get(&self, key: &String) -> (result: Option<&Vec<(String, u32)>>)
        ensures
            match result {
                Some(row) => exists|i: int|
                    0 <= i < self@.len() && self@[i].0 == key@ && row_entries_model(row@)
                        == self@[i].1,
                None => forall|i: int| 0 <= i < self@.len() ==> self@[i].0 != key@,
            },
    {
        let n = self.rows.len();
        for i in 0..n
            invariant
                n == self@.len(),
                forall|k: int| 0 <= k < i ==> self@[k].0 != key@,
        {
            if self.rows[i].0 == *key {
                proof {
                    let k = i as int;
                    assert(self@[k] == (self.rows@[k].0@, row_entries_model(self.rows@[k].1@)));
                    assert(0 <= k < self@.len() && self@[k].0 == key@);
                }
                return Some(&self.rows[i].1);
            }
        }
        None
    }
}

/// Compute the all-pairs similarity table of `hashes`: for every image, the
/// distance to every image of the table (itself included), each row sorted
/// ascending by distance with ties in table order. A table with fewer than
/// two images yields the empty similarity table.
pub fn calculate_similarity(hashes: &HashTable) -> (result: SimilarityTable)
    ensures
        result@ == table_model(hashes@),
{
    broadcast use group_to_multiset_ensures;

    let n = hashes.len();
    let mut rows: Vec<(String, Vec<(String, u32)>)> = Vec::new();
    if n < 2 {
        let result = SimilarityTable { rows };
        proof {
            assert(result@ =~= table_model(hashes@));
        }
        return result;
    }
    for i in 0..n
        invariant
            n == hashes@.len(),
            n >= 2,
            rows@.len() == i,
            forall|k: int|
                0 <= k < i ==> (#[trigger] rows@[k]).0@ == hashes@[k].0 && row_entries_model(
                    rows@[k].1@,
                ) == row_model(hashes@, k),
    {
        let source_hash = hashes.hash_at(i);
        let mut pairs: Vec<(u32, usize)> = Vec::new();
        for j in 0..n
            invariant
                n == hashes@.len(),
                i < n,
                source_hash == hashes@[i as int].1,
                pairs@.len() == j,
                forall|k: int|
                    0 <= k < j ==> #[trigger] pairs@[k] == (
                        hamming_distance(hashes@[i as int].1, hashes@[k].1) as u32,
                        k as usize,
                    ),
        {
            let other_hash = hashes.hash_at(j);
            let d = crate::hamming::distance(source_hash, other_hash);
            pairs.push((d, j));
            proof {
                assert(hamming_distance(hashes@[i as int].1, hashes@[j as int].1) == d);
            }
        }
        proof {
            assert(pairs@ =~= rank_pairs(hashes@, i as int));
        }
        let sorted = sort_pairs(pairs);
        proof {
            assert forall|k: int| 0 <= k < sorted@.len() implies (#[trigger] sorted@[k]).1
                < n by {
                assert(sorted@.contains(sorted@[k]));
                vstd::seq_lib::to_multiset_contains(sorted@, sorted@[k]);
                vstd::seq_lib::to_multiset_contains(rank_pairs(hashes@, i as int), sorted@[k]);
                assert(sorted@.to_multiset().count(sorted@[k]) > 0);
                assert(rank_pairs(hashes@, i as int).contains(sorted@[k]));
                let j = choose|j: int|
                    0 <= j < rank_pairs(hashes@, i as int).len() && rank_pairs(hashes@, i as int)[j]
                        == sorted@[k];
                assert(sorted@[k].1 == j as usize);
            }
        }
        let mut row: Vec<(String, u32)> = Vec::new();
        let row_len = sorted.len();
        for k in 0..row_len
            invariant
                n == hashes@.len(),
                row_len == sorted@.len(),
                forall|m: int| 0 <= m < sorted@.len() ==> (#[trigger] sorted@[m]).1 < n,
                row@.len() == k,
                forall|m: int|
                    0 <= m < k ==> (#[trigger] row@[m]).0@ == hashes@[sorted@[m].1 as int].0
                        && row@[m].1 == sorted@[m].0,
        {
            let p = sorted[k];
            row.push((hashes.key_at(p.1).clone(), p.0));
        }
        proof {
            assert(row_entries_model(row@) =~= row_model(hashes@, i as int));
        }
        rows.push((hashes.key_at(i).clone(), row));
    }
    let result = SimilarityTable { rows };
    proof {
        assert(result@ =~= table_model(hashes@));
    }
    result
}

/// Failure of a row lookup: the asked-for path is not a key of the table.
#[derive(Debug, Clone, Copy, PartialEq, Eq, Structural)]
pub enum LookupError {
    PathNotFound,
}

/// Holder of one analysis: the similarity table of one directory scan, with
/// lookup of single rows.
pub struct SimilarityAnalyzer {
    pub similarity_map: SimilarityTable,
}

impl SimilarityAnalyzer {
    /// Run the analysis over a finished hash table.
    pub fn new(hashes: &HashTable) -> (analyzer: SimilarityAnalyzer)
        ensures
            analyzer.similarity_map@ == table_model(hashes@),
    {
        SimilarityAnalyzer { similarity_map: calculate_similarity(hashes) }
    }

    /// The ranked row of one image. Fails explicitly when the path is not a
    /// key of the table.
    pub fn get_one_file_similarity(&self, file_path: &String) -> (result: Result<
        &Vec<(String, u32)>,
        LookupError,
    >)
        ensures
            match result {
                Ok(row) => exists|i: int|
                    0 <= i < self.similarity_map@.len() && self.similarity_map@[i].0 == file_path@
                        && row_entries_model(row@) == self.similarity_map@[i].1,
                Err(e) => e == LookupError::PathNotFound && forall|i: int|
                    0 <= i < self.similarity_map@.len() ==> self.similarity_map@[i].0
                        != file_path@,
            },
    {
        match self.similarity_map.get(file_path) {
            Some(row) => Ok(row),
            None => Err(LookupError::PathNotFound),
        }
    }
}

/// The shape of every similarity table built from at least two hashes: one
/// row per entry of the hash table, under the same key and in the same
/// order; every row ranks all entries; every row contains the source image
/// itself at distance zero; every row is sorted ascending by distance; and
/// no distance exceeds 64.
pub proof fn lemma_similarity_table_shape(model: Seq<(Seq<char>, u64)>, i: int)
    requires
        model.len() >= 2,
        model.len() <= usize::MAX,
        0 <= i < model.len(),
    ensures
        table_model(model).len() == model.len(),
        table_model(model)[i].0 == model[i].0,
        table_model(model)[i].1.len() == model.len(),
        exists|k: int|
            0 <= k < table_model(model)[i].1.len() && table_model(model)[i].1[k] == (
                model[i].0,
                0u32,
            ),
        forall|a: int, b: int|
            0 <= a < b < table_model(model)[i].1.len() ==> (#[trigger] table_model(model)[i].1[a]).1
                <= (#[trigger] table_model(model)[i].1[b]).1,
        forall|k: int|
            0 <= k < table_model(model)[i].1.len() ==> (#[trigger] table_model(model)[i].1[k]).1
                <= 64,
{
    let leq = rank_le_fn();
    let pairs = rank_pairs(model, i);
    let sorted = pairs.sort_by(leq);
    let row = row_model(model, i);
    lemma_rank_le_total();
    pairs.lemma_sort_by_ensures(leq);
    vstd::seq_lib::to_multiset_len(pairs);
    vstd::seq_lib::to_multiset_len(sorted);
    assert(sorted.len() == pairs.len());
    assert(row.len() == model.len());
    assert(table_model(model)[i].1 == row);

    // The self-entry: the source image is ranked against itself at distance
    // zero.
    crate::hamming::lemma_hamming_distance_laws(model[i].1, model[i].1);
    assert(pairs[i] == (0u32, i as usize));
    assert(pairs.contains(pairs[i]));
    vstd::seq_lib::to_multiset_contains(pairs, pairs[i]);
    vstd::seq_lib::to_multiset_contains(sorted, pairs[i]);
    assert(sorted.contains(pairs[i]));
    let k = choose|k: int| 0 <= k < sorted.len() && sorted[k] == pairs[i];
    assert(row[k] == (model[i].0, 0u32));

    // Rows are sorted ascending by distance.
    assert forall|a: int, b: int| 0 <= a < b < row.len() implies (#[trigger] row[a]).1 <= (
    #[trigger] row[b]).1 by {
        assert(leq(sorted[a], sorted[b]));
        assert(rank_le(sorted[a], sorted[b]));
    }

    // No two 64-bit hashes differ in more than 64 bits.
    assert forall|k: int| 0 <= k < row.len() implies (#[trigger] row[k]).1 <= 64 by {
        assert(sorted.contains(sorted[k]));
        vstd::seq_lib::to_multiset_contains(sorted, sorted[k]);
        vstd::seq_lib::to_multiset_contains(pairs, sorted[k]);
        assert(pairs.contains(sorted[k]));
        let j = choose|j: int| 0 <= j < pairs.len() && pairs[j] == sorted[k];
        crate::hamming::lemma_hamming_distance_laws(model[i].1, model[j].1);
        assert(row[k].1 == sorted[k].0);
    }
}

} // verus!
