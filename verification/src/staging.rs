//! Staged changes to the registry.
//!
//! An operation that moves value through several pools works on a log of
//! the entries that it would write, so that a refusal half-way leaves the
//! registry untouched. The log is written into the registry only once
//! every step has gone through.
use crate::address::{by_address, lemma_by_address_insert, ResourceAddress};
use crate::asset::AssetEntry;
use crate::model::Registry;
use std::collections::HashMap;
use vstd::prelude::*;

verus! {

/// A staged write: the entry that an asset is to have.
pub type Staged = (ResourceAddress, AssetEntry);

/// The registry `base` with the writes of `log` applied in order.
pub open spec fn overlay(base: Registry, log: Seq<Staged>) -> Registry
    decreases log.len(),
{
    if log.len() == 0 {
        base
    } else {
        overlay(base, log.drop_last()).insert(log.last().0, log.last().1)
    }
}

/// The entry that the last write of `log` for `asset` gives it.
pub open spec fn latest(log: Seq<Staged>, asset: ResourceAddress) -> Option<AssetEntry>
    decreases log.len(),
{
    if log.len() == 0 {
        None
    } else if log.last().0 == asset {
        Some(log.last().1)
    } else {
        latest(log.drop_last(), asset)
    }
}

/// An asset's entry under a log is what the log last wrote for it, and what
/// the registry holds where the log wrote nothing.
pub proof fn lemma_overlay_get(base: Registry, log: Seq<Staged>, asset: ResourceAddress)
    ensures
        overlay(base, log).get(asset) == match latest(log, asset) {
            Some(entry) => Some(entry),
            None => base.get(asset),
        },
    decreases log.len(),
{
    if log.len() > 0 {
        lemma_overlay_get(base, log.drop_last(), asset);
    }
}

/// The entry of `asset` in `assets` under the writes of `log`.
pub fn staged_entry(assets: &HashMap<u128, AssetEntry>, log: &Vec<Staged>, asset: ResourceAddress) -> (r:
    Option<AssetEntry>)
    ensures
        r == overlay(by_address(assets@), log@).get(asset),
{
    broadcast use vstd::std_specs::hash::group_hash_axioms;

    proof {
        lemma_overlay_get(by_address(assets@), log@, asset);
    }
    let mut i: usize = log.len();
    assert(log@.take(i as int) == log@);
    while i > 0
        invariant
            i <= log.len(),
            latest(log@, asset) == latest(log@.take(i as int), asset),
        decreases i,
    {
        i -= 1;
        assert(log@.take(i + 1).drop_last() == log@.take(i as int));
        assert(log@.take(i + 1).last() == log@[i as int]);
        if log[i].0 == asset {
            proof {
                lemma_overlay_get(by_address(assets@), log@, asset);
            }
            return Some(log[i].1);
        }
    }
    let key = asset.key();
    match assets.get(&key) {
        Some(entry) => Some(*entry),
        None => None,
    }
}

/// Writes the log into the registry.
pub fn commit(assets: &mut HashMap<u128, AssetEntry>, log: &Vec<Staged>)
    ensures
        by_address(final(assets)@) == overlay(by_address(old(assets)@), log@),
{
    broadcast use vstd::std_specs::hash::group_hash_axioms;

    let mut i: usize = 0;
    while i < log.len()
        invariant
            i <= log.len(),
            by_address(assets@) == overlay(by_address(old(assets)@), log@.take(i as int)),
        decreases log.len() - i,
    {
        proof {
            assert(log@.take(i + 1).drop_last() == log@.take(i as int));
            assert(log@.take(i + 1).last() == log@[i as int]);
            lemma_by_address_insert(assets@, log@[i as int].0, log@[i as int].1);
        }
        assets.insert(log[i].0.key(), log[i].1);
        i += 1;
    }
    assert(log@.take(i as int) == log@);
}

} // verus!
