//! The probes' kernel maps as bounded collections, and the counter arithmetic of the probes.

use std::collections::HashMap;
use vstd::prelude::*;

verus! {

broadcast use vstd::std_specs::hash::group_hash_axioms;

/// `m` with `k` set to `v`, unless `k` is new and `m` already holds `cap` keys.
pub open spec fn bounded_insert<K, V>(m: Map<K, V>, cap: nat, k: K, v: V) -> Map<K, V> {
    if m.contains_key(k) || m.len() < cap { m.insert(k, v) } else { m }
}

/// Whether [`bounded_insert`] stores the value.
pub open spec fn bounded_insert_ok<K, V>(m: Map<K, V>, cap: nat, k: K) -> bool {
    m.contains_key(k) || m.len() < cap
}

/// Inserts into a map the kernel created with room for `cap` keys.
pub fn map_insert_bounded<V>(m: &mut HashMap<u32, V>, cap: usize, k: u32, v: V) -> (ok: bool)
    ensures
        final(m)@ == bounded_insert(old(m)@, cap as nat, k, v),
        ok == bounded_insert_ok(old(m)@, cap as nat, k),
{
    if m.contains_key(&k) || m.len() < cap {
        m.insert(k, v);
        true
    } else {
        false
    }
}

/// Inserts into a map keyed by wide integers that the kernel created with room for `cap` keys.
pub fn map_insert_bounded_wide<V>(m: &mut HashMap<u128, V>, cap: usize, k: u128, v: V) -> (ok: bool)
    ensures
        final(m)@ == bounded_insert(old(m)@, cap as nat, k, v),
        ok == bounded_insert_ok(old(m)@, cap as nat, k),
{
    if m.contains_key(&k) || m.len() < cap {
        m.insert(k, v);
        true
    } else {
        false
    }
}

/// Inserts into a map keyed by socket that the kernel created with room for `cap` keys.
pub fn map_insert_bounded_u64<V>(m: &mut HashMap<u64, V>, cap: usize, k: u64, v: V) -> (ok: bool)
    ensures
        final(m)@ == bounded_insert(old(m)@, cap as nat, k, v),
        ok == bounded_insert_ok(old(m)@, cap as nat, k),
{
    if m.contains_key(&k) || m.len() < cap {
        m.insert(k, v);
        true
    } else {
        false
    }
}

/// `a + b` modulo 2^64, as the probes add to their counters.
pub open spec fn wrapping_add(a: u64, b: u64) -> u64 {
    ((a as int + b as int) % 0x1_0000_0000_0000_0000) as u64
}

pub fn add_wrapping(a: u64, b: u64) -> (r: u64)
    ensures
        r == wrapping_add(a, b),
{
    a.wrapping_add(b)
}

pub open spec fn saturating_sub(a: u64, b: u64) -> u64 {
    if a >= b { (a - b) as u64 } else { 0 }
}

/// `m` with `k` set to `v` in a map the kernel evicts from (an LRU map with
/// room for `cap` keys): where `k` is new and the map is full, the kernel may
/// first evict another key, `victim`; otherwise nothing else changes.
pub open spec fn lru_insert<V>(m: Map<u64, V>, cap: nat, k: u64, v: V, victim: u64) -> Map<u64, V> {
    if !m.contains_key(k) && m.len() >= cap && m.contains_key(victim) && victim != k {
        m.remove(victim).insert(k, v)
    } else {
        m.insert(k, v)
    }
}

/// Inserts into an LRU map with room for `cap` keys: where `k` is new and the
/// map is full, some other key is evicted first; the key evicted is returned.
pub fn lru_insert_u64<V>(m: &mut HashMap<u64, V>, cap: usize, k: u64, v: V) -> (victim: Ghost<u64>)
    ensures
        final(m)@ == lru_insert(old(m)@, cap as nat, k, v, victim@),
{
    if m.contains_key(&k) || m.len() < cap {
        m.insert(k, v);
        return Ghost(k);
    }
    let mut victim: u64 = k;
    let mut found = false;
    for key in it: m.keys()
        invariant
            !m@.contains_key(k),
            it.index() > 0 ==> found,
            found ==> m@.contains_key(victim) && victim != k,
            it.seq().unref().to_set() == m@.dom(),
    {
        proof {
            let i = it.index();
            assert(it.seq().unref()[i] == *key);
            assert(it.seq().unref().to_set().contains(*key));
        }
        if !found {
            victim = *key;
            found = true;
        }
    }
    if found {
        m.remove(&victim);
    }
    m.insert(k, v);
    Ghost(victim)
}

/// An insert into an LRU map stores the value under its key and keeps every
/// other entry, except that a full map may lose one other key; where the key
/// was present or the map had room, nothing else changes.
pub proof fn lemma_lru_insert<V>(m: Map<u64, V>, cap: nat, k: u64, v: V, victim: u64)
    ensures
        ({
            let r = lru_insert(m, cap, k, v, victim);
            &&& r.contains_key(k) && r[k] == v
            &&& forall|x: u64| x != k && #[trigger] r.contains_key(x) ==> m.contains_key(x) && r[x] == m[x]
            &&& forall|x: u64| x != k && x != victim && #[trigger] m.contains_key(x) ==> r.contains_key(x)
            &&& (m.contains_key(k) || m.len() < cap) ==> r == m.insert(k, v)
        }),
{
}

} // verus!
