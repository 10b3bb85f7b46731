//! Vyhledání zadané změny žáka v mapě podle id.

use crate::data::Student;
use crate::rok::{vychozi_zmena_spec, Zmena};
use std::collections::BTreeMap;
use vstd::prelude::*;

verus! {

/// Změna zadaná pro žáka s daným id, je-li v mapě.
pub fn zadana_zmena(zmeny: &BTreeMap<u32, Zmena>, id: u32) -> (r: Option<Zmena>)
    ensures
        match r {
            Some(z) => zmeny@.contains_key(id) && zmeny@[id] == z,
            None => !zmeny@.contains_key(id),
        },
{
    broadcast use vstd::laws_cmp::group_laws_cmp;

    match zmeny.get(&id) {
        Some(z) => Some(*z),
        None => None,
    }
}

/// Zapíše změnu žáka.
fn vloz_zmenu(m: &mut BTreeMap<u32, Zmena>, id: u32, z: Zmena)
    ensures
        final(m)@ == old(m)@.insert(id, z),
{
    broadcast use vstd::laws_cmp::group_laws_cmp;

    m.insert(id, z);
}

/// Výchozí změny žáků pro přechod na nový rok: id ➡ změna podle stavu žáka (při
/// opakovaném id platí poslední žák).
pub open spec fn vychozi_zmeny(st: Seq<Student>) -> Map<u32, Zmena>
    decreases st.len(),
{
    if st.len() == 0 {
        Map::empty()
    } else {
        vychozi_zmeny(st.drop_last()).insert(st.last().id, vychozi_zmena_spec(st.last()))
    }
}

/// Výchozí změny všech žáků roku.
pub fn zmeny_pruvodce(st: &Vec<Student>) -> (r: BTreeMap<u32, Zmena>)
    ensures
        r@ == vychozi_zmeny(st@),
{
    let mut r: BTreeMap<u32, Zmena> = BTreeMap::new();
    let mut k: usize = 0;
    while k < st.len()
        invariant
            k <= st@.len(),
            r@ == vychozi_zmeny(st@.take(k as int)),
        decreases st@.len() - k,
    {
        proof {
            assert(st@.take(k + 1).drop_last() =~= st@.take(k as int));
        }
        vloz_zmenu(&mut r, st[k].id, crate::rok::vychozi_zmena(&st[k]));
        k = k + 1;
    }
    proof {
        assert(st@.take(st@.len() as int) =~= st@);
    }
    r
}

} // verus!
