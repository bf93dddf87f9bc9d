//! Grouping positions by hash in a concurrent map.
//!
//! The map keeps, for each hash, the positions that have it. Walking the
//! map visits each hash once, in an order that the map's hasher decides;
//! nothing here depends on that order.

use dashmap::DashMap;
use vstd::prelude::*;

verus! {

/// A concurrent hash map.
#[verifier::external_type_specification]
#[verifier::external_body]
#[verifier::reject_recursive_types(K)]
#[verifier::reject_recursive_types(V)]
#[verifier::reject_recursive_types(S)]
pub struct ExDashMap<K, V, S>(DashMap<K, V, S>);

/// What a map from hashes to positions holds.
pub uninterp spec fn positions_by_hash(m: DashMap<u64, Vec<usize>>) -> Map<u64, Seq<usize>>;

/// Creates an empty map.
///
/// Calls `dashmap::DashMap::new`; the contract claims that the new map
/// holds nothing.
#[verifier::external_body]
fn positions_new() -> (r: DashMap<u64, Vec<usize>>)
    ensures
        positions_by_hash(r) =~= Map::empty(),
{
    DashMap::new()
}

/// Appends a position to the list of a hash, starting the list if the hash
/// has none.
///
/// Calls `dashmap::DashMap::entry` and `Entry::or_insert_with` (with an
/// empty list), then pushes onto the list; the contract claims that the
/// hash's list gains the position at its end and no other list changes.
#[verifier::external_body]
fn positions_push(m: &mut DashMap<u64, Vec<usize>>, hash: u64, position: usize)
    ensures
        positions_by_hash(*final(m)) == positions_by_hash(*old(m)).insert(
            hash,
            if positions_by_hash(*old(m)).contains_key(hash) {
                positions_by_hash(*old(m))[hash].push(position)
            } else {
                seq![position]
            },
        ),
{
    m.entry(hash).or_insert_with(Vec::new).push(position);
}

/// The hashes of the map with their lists, each hash once.
///
/// Calls `IntoIterator::into_iter` on the map and collects what it yields;
/// the contract claims that every hash of the map comes out exactly once,
/// with its list, and nothing else. In what order they come is not stated:
/// it follows the map's hasher, which each process seeds.
#[verifier::external_body]
fn positions_entries(m: DashMap<u64, Vec<usize>>) -> (r: Vec<(u64, Vec<usize>)>)
    ensures
        forall|i: int, j: int| 0 <= i < j < r@.len() ==> r@[i].0 != r@[j].0,
        forall|i: int|
            0 <= i < r@.len() ==> positions_by_hash(m).contains_key(#[trigger] r@[i].0)
                && r@[i].1@ == positions_by_hash(m)[r@[i].0],
        forall|h: u64|
            #[trigger] positions_by_hash(m).contains_key(h) ==> exists|i: int|
                0 <= i < r@.len() && r@[i].0 == h,
{
    m.into_iter().collect()
}

/// The positions, in increasing order, whose hash is `h`.
pub open spec fn positions_of(hashes: Seq<u64>, h: u64) -> Seq<usize>
    decreases hashes.len(),
{
    if hashes.len() == 0 {
        Seq::<usize>::empty()
    } else {
        let p = positions_of(hashes.drop_last(), h);
        if hashes.last() == h {
            p.push((hashes.len() - 1) as usize)
        } else {
            p
        }
    }
}

/// The hashes of a grouping, in the order the grouping lists them.
pub open spec fn group_keys(groups: Seq<(u64, Seq<usize>)>) -> Seq<u64> {
    Seq::new(groups.len(), |t: int| groups[t].0)
}

/// `keys` lists every hash of `hashes` exactly once, in some order.
pub open spec fn lists_hashes(hashes: Seq<u64>, keys: Seq<u64>) -> bool {
    &&& keys.no_duplicates()
    &&& forall|h: u64| keys.contains(h) <==> hashes.contains(h)
}

/// The groups list every hash once, each with all of its positions in
/// increasing order.
pub open spec fn grouped_by_hash(hashes: Seq<u64>, groups: Seq<(u64, Seq<usize>)>) -> bool {
    &&& lists_hashes(hashes, group_keys(groups))
    &&& forall|t: int| 0 <= t < groups.len() ==> (#[trigger] groups[t]).1 == positions_of(hashes, groups[t].0)
}

/// A hash that does not occur has no positions.
proof fn lemma_positions_absent(hashes: Seq<u64>, h: u64)
    requires
        !hashes.contains(h),
    ensures
        positions_of(hashes, h).len() == 0,
    decreases hashes.len(),
{
    if hashes.len() > 0 {
        assert(!hashes.drop_last().contains(h)) by {
            if hashes.drop_last().contains(h) {
                let k = choose|k: int| 0 <= k < hashes.drop_last().len() && hashes.drop_last()[k] == h;
                assert(hashes[k] == h);
            }
        }
        lemma_positions_absent(hashes.drop_last(), h);
        assert(hashes[hashes.len() - 1] != h);
    }
}

/// Groups the positions `0..hashes.len()` by their hash.
pub fn group_positions(hashes: &Vec<u64>) -> (r: Vec<(u64, Vec<usize>)>)
    ensures
        grouped_by_hash(hashes@, Seq::new(r@.len(), |t: int| (r@[t].0, r@[t].1@))),
{
    let mut map = positions_new();
    let mut i: usize = 0;
    while i < hashes.len()
        invariant
            i <= hashes@.len(),
            forall|h: u64|
                #[trigger] positions_by_hash(map).contains_key(h) <==> hashes@.take(i as int).contains(h),
            forall|h: u64|
                #[trigger] positions_by_hash(map).contains_key(h) ==> positions_by_hash(map)[h]
                    == positions_of(hashes@.take(i as int), h),
        decreases hashes@.len() - i,
    {
        let ghost before = hashes@.take(i as int);
        let ghost after = hashes@.take(i as int + 1);
        let h = hashes[i];
        proof {
            assert(after.drop_last() =~= before);
            assert(after.last() == h);
            if !before.contains(h) {
                lemma_positions_absent(before, h);
                assert(positions_of(before, h) =~= Seq::<usize>::empty());
            }
        }
        positions_push(&mut map, h, i);
        proof {
            assert forall|g: u64| #[trigger] positions_by_hash(map).contains_key(g) <==> after.contains(g) by {
                if after.contains(g) && g != h {
                    let k = choose|k: int| 0 <= k < after.len() && after[k] == g;
                    assert(before[k] == g);
                }
                if before.contains(g) {
                    let k = choose|k: int| 0 <= k < before.len() && before[k] == g;
                    assert(after[k] == g);
                }
                assert(after[i as int] == h);
            }
            assert forall|g: u64| #[trigger] positions_by_hash(map).contains_key(g) implies positions_by_hash(map)[g]
                == positions_of(after, g) by {
                if g == h {
                    if before.contains(h) {
                        assert(positions_of(after, h) == positions_of(before, h).push(i));
                    } else {
                        assert(positions_of(after, h) =~= seq![i]);
                    }
                }
            }
        }
        i = i + 1;
    }
    let ghost m = positions_by_hash(map);
    proof {
        assert(hashes@.take(i as int) =~= hashes@);
    }
    let r = positions_entries(map);
    proof {
        let groups = Seq::new(r@.len(), |t: int| (r@[t].0, r@[t].1@));
        let keys = group_keys(groups);
        assert forall|a: int, b: int| 0 <= a < keys.len() && 0 <= b < keys.len() && a != b implies keys[a]
            != keys[b] by {
            if a < b {
                assert(r@[a].0 != r@[b].0);
            } else {
                assert(r@[b].0 != r@[a].0);
            }
        }
        assert forall|h: u64| keys.contains(h) <==> hashes@.contains(h) by {
            if keys.contains(h) {
                let t = choose|t: int| 0 <= t < keys.len() && keys[t] == h;
                assert(m.contains_key(r@[t].0));
            }
            if hashes@.contains(h) {
                assert(m.contains_key(h));
                let t = choose|t: int| 0 <= t < r@.len() && r@[t].0 == h;
                assert(keys[t] == h);
            }
        }
        assert forall|t: int| 0 <= t < groups.len() implies (#[trigger] groups[t]).1 == positions_of(
            hashes@,
            groups[t].0,
        ) by {
            assert(m.contains_key(r@[t].0));
        }
    }
    r
}

} // verus!
