//! Mapa žák (id) ➡ třída: vložení a dotazy.

use std::collections::BTreeMap;
use vstd::prelude::*;

verus! {

/// Zapíše třídu žáka.
pub fn vloz_zaka(m: &mut BTreeMap<u32, String>, id: u32, trida: String)
    ensures
        final(m)@ == old(m)@.insert(id, trida),
{
    broadcast use vstd::laws_cmp::group_laws_cmp;

    m.insert(id, trida);
}

/// Je žák v mapě?
pub fn ma_zaka(m: &BTreeMap<u32, String>, id: u32) -> (r: bool)
    ensures
        r == m@.contains_key(id),
{
    broadcast use vstd::laws_cmp::group_laws_cmp;

    m.contains_key(&id)
}

/// Třída žáka, je-li v mapě.
pub fn trida_zaka(m: &BTreeMap<u32, String>, id: u32) -> (r: Option<&String>)
    ensures
        match r {
            Some(t) => m@.contains_key(id) && m@[id] == *t,
            None => !m@.contains_key(id),
        },
{
    broadcast use vstd::laws_cmp::group_laws_cmp;

    m.get(&id)
}

} // verus!

verus! {

/// Id a třídy všech žáků mapy (v pořadí průchodu mapou, tj. vzestupně podle id).
pub fn polozky(m: &BTreeMap<u32, String>) -> (r: Vec<(u32, String)>)
    ensures
        forall|k: int| 0 <= k < r@.len() ==> m@.contains_key((#[trigger] r@[k]).0) && m@[r@[k].0] == r@[k].1,
        forall|z: u32| #[trigger] m@.contains_key(z) ==> exists|k: int| 0 <= k < r@.len() && r@[k].0 == z,
{
    broadcast use vstd::laws_cmp::group_laws_cmp;

    let mut r: Vec<(u32, String)> = Vec::new();
    for x in it: m.iter()
        invariant
            r@.len() == it.index(),
            forall|k: int| 0 <= k < r@.len() ==> r@[k].0 == *it.seq()[k].0 && r@[k].1 == *it.seq()[k].1,
    {
        let (z, t) = x;
        r.push((*z, t.clone()));
    }
    proof {
        assert forall|k: int| 0 <= k < r@.len() implies m@.contains_key((#[trigger] r@[k]).0) && m@[r@[k].0] == r@[k].1 by {}
    }
    r
}

} // verus!

verus! {

/// Je index v množině?
pub fn ma_index(m: &std::collections::BTreeSet<usize>, i: usize) -> (r: bool)
    ensures
        r == m@.contains(i),
{
    broadcast use vstd::laws_cmp::group_laws_cmp;

    m.contains(&i)
}


/// Přidá index do množiny.
pub fn vloz_index(m: &mut std::collections::BTreeSet<usize>, i: usize)
    ensures
        final(m)@ == old(m)@.insert(i),
{
    broadcast use vstd::laws_cmp::group_laws_cmp;

    m.insert(i);
}

} // verus!
