//! Ruční úpravy hotového rozvrhu: přesun celé jednotky na jiný začátek, krok zpět,
//! připnutí a odepnutí hodin.

use crate::data::{Skola, N_SLOTU, SLOTU};
use crate::mapa::Mapa;
use crate::solver::Vysledek;
use vstd::prelude::*;

verus! {

/// Umístění a místnosti rozvrhu uložené před ruční úpravou.
#[derive(Clone, Debug)]
pub struct Zaznam {
    pub slot: Vec<Option<u8>>,
    pub mistnost: Vec<Option<String>>,
}

/// Záznam jako hodnota.
pub struct ZaznamV {
    pub slot: Seq<Option<u8>>,
    pub mistnost: Seq<Option<String>>,
}

impl View for Zaznam {
    type V = ZaznamV;

    open spec fn view(&self) -> ZaznamV {
        ZaznamV { slot: self.slot@, mistnost: self.mistnost@ }
    }
}

/// Historie úprav jako posloupnost hodnot.
pub open spec fn historie_v(h: Seq<Zaznam>) -> Seq<ZaznamV> {
    h.map_values(|z: Zaznam| z@)
}

/// Umístění, místnosti a historie úprav.
pub struct EditaceV {
    pub slot: Seq<Option<u8>>,
    pub mistnost: Seq<Option<String>>,
    pub historie: Seq<ZaznamV>,
}

/// Stav úprav daného výsledku s danou historií.
pub open spec fn editace(v: Vysledek, h: Seq<Zaznam>) -> EditaceV {
    EditaceV { slot: v.slot@, mistnost: v.mistnost@, historie: historie_v(h) }
}

/// Historie po ruční úpravě: na vrchol přibude stav před úpravou.
pub open spec fn historie_po_uprave(e: EditaceV) -> Seq<ZaznamV> {
    e.historie.push(ZaznamV { slot: e.slot, mistnost: e.mistnost })
}

/// Krok zpět: obnoví vrchol historie a odebere ho; s prázdnou historií nic nemění.
pub open spec fn po_zpet(e: EditaceV) -> EditaceV {
    if e.historie.len() == 0 {
        e
    } else {
        EditaceV {
            slot: e.historie.last().slot,
            mistnost: e.historie.last().mistnost,
            historie: e.historie.drop_last(),
        }
    }
}

/// Začátky ve záznamu padnou do týdne pro lekce výsledku.
pub open spec fn sloty_v_tydnu(v: Vysledek, slot: Seq<Option<u8>>) -> bool {
    &&& slot.len() == v.lekce@.len()
    &&& forall|i: int|
        0 <= i < v.lekce@.len() ==> match #[trigger] slot[i] {
            Some(s) => s < N_SLOTU && s + v.lekce@[i].len <= N_SLOTU,
            None => true,
        }
}

/// Každý záznam historie se hodí k lekcím výsledku.
pub open spec fn historie_platna(v: Vysledek, h: Seq<Zaznam>) -> bool {
    forall|k: int|
        0 <= k < h.len() ==> sloty_v_tydnu(v, (#[trigger] h[k]).slot@) && h[k].mistnost@.len() == v.lekce@.len()
}

/// Začátky po přesunu jednotky `j` na `start`: všechny její lekce začínají v `start`,
/// ostatní zůstanou.
pub open spec fn presunute(v: Vysledek, j: usize, start: u8) -> Seq<Option<u8>> {
    Seq::new(v.slot@.len(), |k: int| if v.lekce@[k].jednotka == j { Some(start) } else { v.slot@[k] })
}

/// Přesunutá jednotka se celá vejde do týdne.
pub open spec fn presun_v_tydnu(v: Vysledek, j: usize, start: u8) -> bool {
    &&& start < N_SLOTU
    &&& forall|k: int| 0 <= k < v.lekce@.len() && (#[trigger] v.lekce@[k]).jednotka == j ==> start + v.lekce@[k].len <= N_SLOTU
}

/// Klíč `k` patří některé lekci jednotky `j`.
pub open spec fn klic_jednotky(v: Vysledek, j: usize, k: Seq<char>) -> bool {
    exists|c: int| 0 <= c < v.lekce@.len() && (#[trigger] v.lekce@[c]).jednotka == j && v.lekce@[c].klic@ == k
}

/// Kopie místností.
fn kopie_mistnosti(m: &Vec<Option<String>>) -> (r: Vec<Option<String>>)
    ensures
        r@ == m@,
{
    let mut r: Vec<Option<String>> = Vec::new();
    let mut i: usize = 0;
    while i < m.len()
        invariant
            i <= m@.len(),
            r@ == m@.take(i as int),
        decreases m@.len() - i,
    {
        let x: Option<String> = match &m[i] {
            Some(s) => Some(s.clone()),
            None => None,
        };
        r.push(x);
        i = i + 1;
        proof {
            assert(r@ =~= m@.take(i as int));
        }
    }
    proof {
        assert(m@.take(m@.len() as int) =~= m@);
    }
    r
}

/// Kopie začátků.
fn kopie_slotu(s: &Vec<Option<u8>>) -> (r: Vec<Option<u8>>)
    ensures
        r@ == s@,
{
    let mut r: Vec<Option<u8>> = Vec::new();
    let mut i: usize = 0;
    while i < s.len()
        invariant
            i <= s@.len(),
            r@ == s@.take(i as int),
        decreases s@.len() - i,
    {
        r.push(s[i]);
        i = i + 1;
        proof {
            assert(r@ =~= s@.take(i as int));
        }
    }
    proof {
        assert(s@.take(s@.len() as int) =~= s@);
    }
    r
}

/// Lze vybranou lekci přesunout na začátek `start`: vejde se do dne a není už tam.
pub fn lze_presunout(v: &Vysledek, sel: usize, start: u8) -> (r: bool)
    requires
        sel < v.lekce@.len(),
        v.slot@.len() == v.lekce@.len(),
    ensures
        r == ((start as int) % (SLOTU as int) + v.lekce@[sel as int].len <= SLOTU && v.slot@[sel as int] != Some(start)),
{
    let k = (start as usize) % SLOTU;
    k + (v.lekce[sel].len as usize) <= SLOTU && v.slot[sel] != Some(start)
}

/// Rozvrh po kontrole: v seznamu problémových lekcí je každá neumístěná lekce, každá
/// umístěná lekce bez místnosti nebo v nepovolené místnosti, obě lekce každé kolize, každá
/// lekce v době volna učitele a každá lekce žáka ve dni (u týdenních limitů v týdnu), kdy žák porušuje pravidlo 7 h,
/// denní maximum hodin nebo limity P1.
pub open spec fn problemy_oznacene(skola: Skola, v: Vysledek) -> bool {
    &&& crate::validation::rostouci_idx(v.problemove_lekce@)
    &&& forall|i: int| 0 <= i < v.lekce@.len() && v.slot@[i].is_none() ==> v.problemove_lekce@.contains(i as usize)
    &&& forall|a: int, b: int|
        0 <= a < b < v.lekce@.len() && crate::validation::kolizni(v, a, b) ==> v.problemove_lekce@.contains(a as usize)
            && v.problemove_lekce@.contains(b as usize)
    &&& forall|i: int|
        0 <= i < v.lekce@.len() && v.slot@[i].is_some() && v.mistnost@[i].is_none() ==> v.problemove_lekce@.contains(
            i as usize,
        )
    &&& forall|i: int|
        0 <= i < v.lekce@.len() && crate::validation::volno_ucitele(&skola, v, i) ==> v.problemove_lekce@.contains(i as usize)
    &&& forall|i: int|
        0 <= i < v.lekce@.len() && crate::validation::nevhodna_mistnost(skola, v, i) ==> v.problemove_lekce@.contains(i as usize)
    &&& forall|z: u32, w: int, d: int, i: int|
        #![trigger crate::validation::porusuje_den(skola, v, z, w, d), crate::validation::lekce_zaka_dne(v, i, z, d)]
        v.zaci_tridy@.contains_key(z) && 0 <= w < 2 && 0 <= d < crate::data::DNY && crate::validation::porusuje_den(skola, v, z, w, d)
            && 0 <= i < v.lekce@.len() && crate::validation::lekce_zaka_dne(v, i, z, d) ==> v.problemove_lekce@.contains(i as usize)
    &&& forall|z: u32, w: int, i: int|
        #![trigger crate::validation::porusuje_tyden(skola, v, z, w), crate::validation::lekce_zaka_dne(v, i, z, crate::data::DNY as int)]
        v.zaci_tridy@.contains_key(z) && 0 <= w < 2 && crate::validation::porusuje_tyden(skola, v, z, w) && 0 <= i < v.lekce@.len()
            && crate::validation::lekce_zaka_dne(v, i, z, crate::data::DNY as int) ==> v.problemove_lekce@.contains(i as usize)
}

/// Označení problémů závisí jen na lekcích, začátcích, místnostech, žácích a limitech.
pub(crate) proof fn lemma_oznaceni_trva(skola: Skola, a: Vysledek, b: Vysledek)
    requires
        a.lekce@ == b.lekce@,
        a.slot@ == b.slot@,
        a.mistnost@ == b.mistnost@,
        a.zaci_tridy@ == b.zaci_tridy@,
        a.limity == b.limity,
        crate::validation::rostouci_idx(b.problemove_lekce@),
        forall|i: int| 0 <= i < a.lekce@.len() && a.slot@[i].is_none() ==> b.problemove_lekce@.contains(i as usize),
        forall|x: int, y: int|
            0 <= x < y < a.lekce@.len() && crate::validation::kolizni(a, x, y) ==> b.problemove_lekce@.contains(x as usize)
                && b.problemove_lekce@.contains(y as usize),
        forall|i: int|
            0 <= i < a.lekce@.len() && a.slot@[i].is_some() && a.mistnost@[i].is_none() ==> b.problemove_lekce@.contains(
                i as usize,
            ),
        forall|i: int| 0 <= i < a.lekce@.len() && crate::validation::volno_ucitele(&skola, a, i) ==> b.problemove_lekce@.contains(i as usize),
        forall|i: int| 0 <= i < a.lekce@.len() && crate::validation::nevhodna_mistnost(skola, a, i) ==> b.problemove_lekce@.contains(i as usize),
        forall|z: u32, w: int, d: int, i: int|
            #![trigger crate::validation::porusuje_den(skola, a, z, w, d), crate::validation::lekce_zaka_dne(a, i, z, d)]
            a.zaci_tridy@.contains_key(z) && 0 <= w < 2 && 0 <= d < crate::data::DNY && crate::validation::porusuje_den(skola, a, z, w, d)
                && 0 <= i < a.lekce@.len() && crate::validation::lekce_zaka_dne(a, i, z, d) ==> b.problemove_lekce@.contains(i as usize),
        forall|z: u32, w: int, i: int|
            #![trigger crate::validation::porusuje_tyden(skola, a, z, w), crate::validation::lekce_zaka_dne(a, i, z, crate::data::DNY as int)]
            a.zaci_tridy@.contains_key(z) && 0 <= w < 2 && crate::validation::porusuje_tyden(skola, a, z, w) && 0 <= i < a.lekce@.len()
                && crate::validation::lekce_zaka_dne(a, i, z, crate::data::DNY as int) ==> b.problemove_lekce@.contains(i as usize),
    ensures
        problemy_oznacene(skola, b),
{
    assert forall|x: int, y: int|
        0 <= x < y < b.lekce@.len() && crate::validation::kolizni(b, x, y) implies b.problemove_lekce@.contains(x as usize)
            && b.problemove_lekce@.contains(y as usize) by {
        assert(crate::validation::kolizni(a, x, y));
    }
    assert forall|i: int| 0 <= i < b.lekce@.len() && crate::validation::volno_ucitele(&skola, b, i) implies b.problemove_lekce@.contains(i as usize) by {
        assert(crate::validation::volno_ucitele(&skola, a, i));
    }
    assert forall|i: int| 0 <= i < b.lekce@.len() && crate::validation::nevhodna_mistnost(skola, b, i) implies b.problemove_lekce@.contains(i as usize) by {
        assert(crate::validation::nevhodna_mistnost(skola, a, i));
    }
    assert forall|z: u32, w: int, t: int| #[trigger] crate::validation::ma_hodinu(a, z, w, t) == crate::validation::ma_hodinu(b, z, w, t) by {
        if crate::validation::ma_hodinu(a, z, w, t) {
            let i = choose|i: int| 0 <= i < a.lekce@.len() && #[trigger] crate::validation::zamestna(a, i, z, w, t);
            assert(crate::validation::zamestna(b, i, z, w, t));
        }
        if crate::validation::ma_hodinu(b, z, w, t) {
            let i = choose|i: int| 0 <= i < b.lekce@.len() && #[trigger] crate::validation::zamestna(b, i, z, w, t);
            assert(crate::validation::zamestna(a, i, z, w, t));
        }
    }
    assert forall|z: u32, w: int, d: int| #[trigger] crate::validation::den_zaka_v(a, z, w, d) == crate::validation::den_zaka_v(b, z, w, d) by {
        assert(crate::validation::den_zaka_v(a, z, w, d) =~= crate::validation::den_zaka_v(b, z, w, d));
    }
    assert forall|z: u32, w: int, dni: int| #[trigger] crate::validation::ranych_v_tydnu(a, z, w, dni) == crate::validation::ranych_v_tydnu(b, z, w, dni) by {
        lemma_ranych_stejne(a, b, z, w, dni);
    }
    assert forall|z: u32, w: int, dni: int, od: int| #[trigger] crate::validation::odpolednich_v_tydnu(a, z, w, dni, od) == crate::validation::odpolednich_v_tydnu(b, z, w, dni, od) by {
        lemma_odpolednich_stejne(a, b, z, w, dni, od);
    }
    assert forall|z: u32, w: int, d: int, i: int|
        #![trigger crate::validation::porusuje_den(skola, b, z, w, d), crate::validation::lekce_zaka_dne(b, i, z, d)]
        b.zaci_tridy@.contains_key(z) && 0 <= w < 2 && 0 <= d < crate::data::DNY && crate::validation::porusuje_den(skola, b, z, w, d)
            && 0 <= i < b.lekce@.len() && crate::validation::lekce_zaka_dne(b, i, z, d) implies b.problemove_lekce@.contains(i as usize) by {
        assert(crate::validation::porusuje_den(skola, a, z, w, d));
        assert(crate::validation::lekce_zaka_dne(a, i, z, d));
    }
    assert forall|z: u32, w: int, i: int|
        #![trigger crate::validation::porusuje_tyden(skola, b, z, w), crate::validation::lekce_zaka_dne(b, i, z, crate::data::DNY as int)]
        b.zaci_tridy@.contains_key(z) && 0 <= w < 2 && crate::validation::porusuje_tyden(skola, b, z, w) && 0 <= i < b.lekce@.len()
            && crate::validation::lekce_zaka_dne(b, i, z, crate::data::DNY as int) implies b.problemove_lekce@.contains(i as usize) by {
        assert(crate::validation::porusuje_tyden(skola, a, z, w));
        assert(crate::validation::lekce_zaka_dne(a, i, z, crate::data::DNY as int));
    }
}

proof fn lemma_ranych_stejne(a: Vysledek, b: Vysledek, z: u32, w: int, dni: int)
    requires
        forall|z2: u32, w2: int, d: int| #[trigger] crate::validation::den_zaka_v(a, z2, w2, d) == crate::validation::den_zaka_v(b, z2, w2, d),
    ensures
        crate::validation::ranych_v_tydnu(a, z, w, dni) == crate::validation::ranych_v_tydnu(b, z, w, dni),
    decreases dni,
{
    if dni > 0 {
        lemma_ranych_stejne(a, b, z, w, dni - 1);
        assert(crate::validation::den_zaka_v(a, z, w, dni - 1) == crate::validation::den_zaka_v(b, z, w, dni - 1));
    }
}

proof fn lemma_odpolednich_stejne(a: Vysledek, b: Vysledek, z: u32, w: int, dni: int, od: int)
    requires
        forall|z2: u32, w2: int, d: int| #[trigger] crate::validation::den_zaka_v(a, z2, w2, d) == crate::validation::den_zaka_v(b, z2, w2, d),
    ensures
        crate::validation::odpolednich_v_tydnu(a, z, w, dni, od) == crate::validation::odpolednich_v_tydnu(b, z, w, dni, od),
    decreases dni,
{
    if dni > 0 {
        lemma_odpolednich_stejne(a, b, z, w, dni - 1, od);
        assert(crate::validation::den_zaka_v(a, z, w, dni - 1) == crate::validation::den_zaka_v(b, z, w, dni - 1));
    }
}

/// Přesune celou jednotku lekce `i` na začátek `start`: stav před úpravou uloží do historie,
/// místnosti přiřadí znovu jen přesunutým lekcím, rozvrh zkontroluje a připnuté lekce
/// jednotky připne na nové místo.
pub fn presun_jednotky(
    skola: &Skola,
    v: &mut Vysledek,
    piny: &mut Mapa<u8>,
    historie: &mut Vec<Zaznam>,
    i: usize,
    start: u8,
)
    requires
        i < old(v).lekce@.len(),
        crate::validation::rozvrh_ve_tydnu(*old(v)),
        presun_v_tydnu(*old(v), old(v).lekce@[i as int].jednotka, start),
        old(v).limity.dobre(),
        crate::data::tridy_platne(skola.tridy@),
        old(piny).dobre(),
    ensures
        final(v).lekce@ == old(v).lekce@,
        final(v).slot@ == presunute(*old(v), old(v).lekce@[i as int].jednotka, start),
        final(v).mistnost@.len() == old(v).mistnost@.len(),
        forall|k: int|
            0 <= k < old(v).lekce@.len() && old(v).lekce@[k].jednotka != old(v).lekce@[i as int].jednotka
                && (#[trigger] old(v).mistnost@[k]).is_some() ==> final(v).mistnost@[k] == old(v).mistnost@[k],
        final(v).limity == old(v).limity,
        crate::validation::rozvrh_ve_tydnu(*final(v)),
        problemy_oznacene(*skola, *final(v)),
        historie_v(final(historie)@) == historie_po_uprave(editace(*old(v), old(historie)@)),
        historie_platna(*old(v), old(historie)@) ==> historie_platna(*final(v), final(historie)@),
        final(piny).dobre(),
        forall|k: Seq<char>| #[trigger] final(piny).ma(k) == old(piny).ma(k),
        forall|k: Seq<char>|
            #[trigger] old(piny).ma(k) ==> final(piny).hodnota(k) == if klic_jednotky(
                *old(v),
                old(v).lekce@[i as int].jednotka,
                k,
            ) {
                start
            } else {
                old(piny).hodnota(k)
            },
{
    let ghost v0 = *v;
    let ghost h0 = historie@;
    let j = v.lekce[i].jednotka;
    let n = v.lekce.len();
    historie.push(Zaznam { slot: kopie_slotu(&v.slot), mistnost: kopie_mistnosti(&v.mistnost) });
    proof {
        assert(historie_v(historie@) =~= historie_po_uprave(editace(v0, h0)));
    }
    let clenove = v.clenove_jednotky(j);
    let mut mnozina: std::collections::BTreeSet<usize> = std::collections::BTreeSet::new();
    let mut c: usize = 0;
    while c < clenove.len()
        invariant
            c <= clenove@.len(),
            n == v0.lekce@.len(),
            v.lekce@ == v0.lekce@,
            v.mistnost@ == v0.mistnost@,
            v.limity == v0.limity,
            v.slot@.len() == v0.slot@.len(),
            crate::validation::rozvrh_ve_tydnu(v0),
            presun_v_tydnu(v0, j, start),
            j == v0.lekce@[i as int].jednotka,
            forall|k: int| 0 <= k < clenove@.len() ==> (#[trigger] clenove@[k]) < v0.lekce@.len() && v0.lekce@[clenove@[k] as int].jednotka == j,
            forall|x: int| 0 <= x < v0.lekce@.len() && (#[trigger] v0.lekce@[x]).jednotka == j ==> clenove@.contains(x as usize),
            forall|x: usize| #[trigger] mnozina@.contains(x) ==> x < v0.lekce@.len() && v0.lekce@[x as int].jednotka == j,
            forall|x: int|
                0 <= x < v0.lekce@.len() ==> #[trigger] v.slot@[x] == if clenove@.take(c as int).contains(x as usize) {
                    Some(start)
                } else {
                    v0.slot@[x]
                },
        decreases clenove@.len() - c,
    {
        let x = clenove[c];
        let ghost s0 = v.slot@;
        v.slot.set(x, Some(start));
        crate::podle_id::vloz_index(&mut mnozina, x);
        proof {
            assert forall|y: int| 0 <= y < v0.lekce@.len() implies #[trigger] v.slot@[y] == if clenove@.take(c + 1).contains(y as usize) {
                Some(start)
            } else {
                v0.slot@[y]
            } by {
                assert(clenove@.take(c + 1) =~= clenove@.take(c as int).push(x));
                if y == x as int {
                    assert(clenove@.take(c + 1)[c as int] == x);
                } else {
                    assert(clenove@.take(c + 1)[c as int] == x);
                    assert(clenove@.take(c + 1).contains(y as usize) == clenove@.take(c as int).contains(y as usize)) by {
                        if clenove@.take(c + 1).contains(y as usize) {
                            let q = choose|q: int| 0 <= q < clenove@.take(c + 1).len() && #[trigger] clenove@.take(c + 1)[q] == y as usize;
                            assert(q < c);
                            assert(clenove@.take(c as int)[q] == y as usize);
                        }
                    }
                }
            }
        }
        c = c + 1;
    }
    proof {
        assert(clenove@.take(clenove@.len() as int) =~= clenove@);
        assert forall|y: int| 0 <= y < v0.lekce@.len() implies #[trigger] v.slot@[y] == presunute(v0, j, start)[y] by {
            if v0.lekce@[y].jednotka == j {
                assert(clenove@.contains(y as usize));
            } else if clenove@.contains(y as usize) {
                let q = choose|q: int| 0 <= q < clenove@.len() && #[trigger] clenove@[q] == y as usize;
                assert(v0.lekce@[clenove@[q] as int].jednotka == j);
            }
        }
        assert(v.slot@ =~= presunute(v0, j, start));
        assert(crate::validation::rozvrh_ve_tydnu(*v)) by {
            assert forall|y: int| 0 <= y < v.lekce@.len() implies match #[trigger] v.slot@[y] {
                Some(s) => s < N_SLOTU && s + v.lekce@[y].len <= N_SLOTU,
                None => true,
            } by {
                assert(v.slot@[y] == presunute(v0, j, start)[y]);
            }
        }
    }
    crate::solver::prirad_mistnosti(skola, v, Some(&mnozina));
    let ghost v1 = *v;
    crate::solver::zkontroluj_a_zapis(skola, v);
    proof {
        lemma_oznaceni_trva(*skola, v1, *v);
    }
    let mut c: usize = 0;
    while c < clenove.len()
        invariant
            c <= clenove@.len(),
            n == v0.lekce@.len(),
            piny.dobre(),
            forall|k: int| 0 <= k < clenove@.len() ==> (#[trigger] clenove@[k]) < v0.lekce@.len() && v0.lekce@[clenove@[k] as int].jednotka == j,
            forall|x: int| 0 <= x < v0.lekce@.len() && (#[trigger] v0.lekce@[x]).jednotka == j ==> clenove@.contains(x as usize),
            v.lekce@ == v0.lekce@,
            forall|k: Seq<char>| #[trigger] piny.ma(k) == old(piny).ma(k),
            forall|k: Seq<char>|
                #[trigger] old(piny).ma(k) ==> piny.hodnota(k) == if exists|q: int|
                    0 <= q < c && v0.lekce@[(#[trigger] clenove@[q]) as int].klic@ == k {
                    start
                } else {
                    old(piny).hodnota(k)
                },
        decreases clenove@.len() - c,
    {
        let x = clenove[c];
        let ghost p0 = *piny;
        if piny.contains_key(v.lekce[x].klic.as_str()) {
            piny.insert(v.lekce[x].klic.clone(), start);
        }
        proof {
            assert forall|k: Seq<char>| #[trigger] old(piny).ma(k) implies piny.hodnota(k) == if exists|q: int|
                0 <= q < c + 1 && v0.lekce@[(#[trigger] clenove@[q]) as int].klic@ == k {
                start
            } else {
                old(piny).hodnota(k)
            } by {
                if k == v0.lekce@[x as int].klic@ {
                    assert(v0.lekce@[(clenove@[c as int]) as int].klic@ == k);
                } else {
                    if exists|q: int| 0 <= q < c + 1 && v0.lekce@[(#[trigger] clenove@[q]) as int].klic@ == k {
                        let q = choose|q: int| 0 <= q < c + 1 && v0.lekce@[(#[trigger] clenove@[q]) as int].klic@ == k;
                        assert(q < c);
                    }
                }
            }
        }
        c = c + 1;
    }
    proof {
        assert forall|k: Seq<char>| #[trigger] old(piny).ma(k) implies piny.hodnota(k) == if klic_jednotky(v0, j, k) {
            start
        } else {
            old(piny).hodnota(k)
        } by {
            if klic_jednotky(v0, j, k) {
                let y = choose|y: int| 0 <= y < v0.lekce@.len() && (#[trigger] v0.lekce@[y]).jednotka == j && v0.lekce@[y].klic@ == k;
                assert(clenove@.contains(y as usize));
                let q = choose|q: int| 0 <= q < clenove@.len() && #[trigger] clenove@[q] == y as usize;
                assert(clenove@[q] as int == y);
                assert(v0.lekce@[(clenove@[q]) as int].klic@ == k);
            } else {
                if exists|q: int| 0 <= q < clenove@.len() && v0.lekce@[(#[trigger] clenove@[q]) as int].klic@ == k {
                    let q = choose|q: int| 0 <= q < clenove@.len() && v0.lekce@[(#[trigger] clenove@[q]) as int].klic@ == k;
                    assert(v0.lekce@[clenove@[q] as int].jednotka == j);
                }
            }
        }
    }
}

/// Krok zpět: vrátí umístění a místnosti z vrcholu historie a rozvrh znovu zkontroluje.
/// S prázdnou historií nic nedělá a vrátí `false`.
pub fn zpet(skola: &Skola, v: &mut Vysledek, historie: &mut Vec<Zaznam>) -> (r: bool)
    requires
        crate::validation::rozvrh_ve_tydnu(*old(v)),
        historie_platna(*old(v), old(historie)@),
        old(v).limity.dobre(),
        crate::data::tridy_platne(skola.tridy@),
    ensures
        r == (old(historie)@.len() > 0),
        editace(*final(v), final(historie)@) == po_zpet(editace(*old(v), old(historie)@)),
        final(v).lekce@ == old(v).lekce@,
        final(v).limity == old(v).limity,
        crate::validation::rozvrh_ve_tydnu(*final(v)),
        historie_platna(*final(v), final(historie)@),
        r ==> problemy_oznacene(*skola, *final(v)),
        !r ==> *final(v) == *old(v),
{
    let ghost v0 = *v;
    let ghost h0 = historie@;
    match historie.pop() {
        Some(z) => {
            proof {
                assert(h0.last() == z);
                assert(historie@ =~= h0.drop_last());
                assert(historie_v(historie@) =~= historie_v(h0).drop_last());
            }
            v.slot = z.slot;
            v.mistnost = z.mistnost;
            let ghost v1 = *v;
            crate::solver::zkontroluj_a_zapis(skola, v);
            proof {
                lemma_oznaceni_trva(*skola, v1, *v);
            }
            true
        },
        None => false,
    }
}

/// Krok zpět po ruční úpravě vrátí umístění, místnosti i historii do stavu před úpravou,
/// ať úprava nastavila začátky a místnosti jakkoli.
pub proof fn lemma_zpet_vraci_upravu(e: EditaceV, slot: Seq<Option<u8>>, mistnost: Seq<Option<String>>)
    ensures
        po_zpet(EditaceV { slot, mistnost, historie: historie_po_uprave(e) }) == e,
{
    assert(historie_po_uprave(e).drop_last() =~= e.historie);
}

/// Některá lekce jednotky `j` je připnutá.
pub open spec fn jednotka_pripnuta(v: Vysledek, piny: Mapa<u8>, j: usize) -> bool {
    exists|c: int| 0 <= c < v.lekce@.len() && (#[trigger] v.lekce@[c]).jednotka == j && piny.ma(v.lekce@[c].klic@)
}

/// Připne lekci `i` na její současný začátek; neumístěnou lekci nepřipne a vrátí `false`.
pub fn pripni(v: &Vysledek, piny: &mut Mapa<u8>, i: usize) -> (r: bool)
    requires
        i < v.lekce@.len(),
        v.slot@.len() == v.lekce@.len(),
        old(piny).dobre(),
    ensures
        final(piny).dobre(),
        r == v.slot@[i as int].is_some(),
        match v.slot@[i as int] {
            Some(s) => final(piny).mapa() == old(piny).mapa().insert(v.lekce@[i as int].klic@, s),
            None => *final(piny) == *old(piny),
        },
        r ==> jednotka_pripnuta(*v, *final(piny), v.lekce@[i as int].jednotka),
{
    match v.slot[i] {
        Some(s) => {
            piny.insert(v.lekce[i].klic.clone(), s);
            proof {
                assert(v.lekce@[i as int].jednotka == v.lekce@[i as int].jednotka && piny.ma(v.lekce@[i as int].klic@));
            }
            true
        },
        None => false,
    }
}

/// Odepne všechny lekce jednotky lekce `i`; ostatní piny zůstanou.
pub fn odepni(v: &Vysledek, piny: &mut Mapa<u8>, i: usize)
    requires
        i < v.lekce@.len(),
        old(piny).dobre(),
    ensures
        final(piny).dobre(),
        forall|k: Seq<char>|
            #[trigger] final(piny).ma(k) == (old(piny).ma(k) && !klic_jednotky(*v, v.lekce@[i as int].jednotka, k)),
        forall|k: Seq<char>| #[trigger] final(piny).ma(k) ==> final(piny).hodnota(k) == old(piny).hodnota(k),
        !jednotka_pripnuta(*v, *final(piny), v.lekce@[i as int].jednotka),
{
    let j = v.lekce[i].jednotka;
    let n = v.lekce.len();
    let clenove = v.clenove_jednotky(j);
    let mut c: usize = 0;
    while c < clenove.len()
        invariant
            c <= clenove@.len(),
            n == v.lekce@.len(),
            j == v.lekce@[i as int].jednotka,
            piny.dobre(),
            forall|k: int| 0 <= k < clenove@.len() ==> (#[trigger] clenove@[k]) < v.lekce@.len() && v.lekce@[clenove@[k] as int].jednotka == j,
            forall|x: int| 0 <= x < v.lekce@.len() && (#[trigger] v.lekce@[x]).jednotka == j ==> clenove@.contains(x as usize),
            forall|k: Seq<char>|
                #[trigger] piny.ma(k) == (old(piny).ma(k) && !exists|q: int|
                    0 <= q < c && v.lekce@[(#[trigger] clenove@[q]) as int].klic@ == k),
            forall|k: Seq<char>| #[trigger] piny.ma(k) ==> piny.hodnota(k) == old(piny).hodnota(k),
        decreases clenove@.len() - c,
    {
        let x = clenove[c];
        piny.remove(v.lekce[x].klic.as_str());
        proof {
            assert forall|k: Seq<char>|
                #[trigger] piny.ma(k) == (old(piny).ma(k) && !exists|q: int|
                    0 <= q < c + 1 && v.lekce@[(#[trigger] clenove@[q]) as int].klic@ == k) by {
                if k == v.lekce@[x as int].klic@ {
                    assert(v.lekce@[(clenove@[c as int]) as int].klic@ == k);
                } else {
                    if exists|q: int| 0 <= q < c + 1 && v.lekce@[(#[trigger] clenove@[q]) as int].klic@ == k {
                        let q = choose|q: int| 0 <= q < c + 1 && v.lekce@[(#[trigger] clenove@[q]) as int].klic@ == k;
                        assert(q < c);
                    }
                }
            }
        }
        c = c + 1;
    }
    proof {
        assert forall|k: Seq<char>|
            #[trigger] piny.ma(k) == (old(piny).ma(k) && !klic_jednotky(*v, j, k)) by {
            if klic_jednotky(*v, j, k) {
                let y = choose|y: int| 0 <= y < v.lekce@.len() && (#[trigger] v.lekce@[y]).jednotka == j && v.lekce@[y].klic@ == k;
                assert(clenove@.contains(y as usize));
                let q = choose|q: int| 0 <= q < clenove@.len() && #[trigger] clenove@[q] == y as usize;
                assert(clenove@[q] as int == y);
                assert(v.lekce@[(clenove@[q]) as int].klic@ == k);
            } else {
                if exists|q: int| 0 <= q < clenove@.len() && v.lekce@[(#[trigger] clenove@[q]) as int].klic@ == k {
                    let q = choose|q: int| 0 <= q < clenove@.len() && v.lekce@[(#[trigger] clenove@[q]) as int].klic@ == k;
                    assert(v.lekce@[clenove@[q] as int].jednotka == j);
                }
            }
        }
        if jednotka_pripnuta(*v, *piny, j) {
            let y = choose|y: int| 0 <= y < v.lekce@.len() && (#[trigger] v.lekce@[y]).jednotka == j && piny.ma(v.lekce@[y].klic@);
            assert(klic_jednotky(*v, j, v.lekce@[y].klic@));
        }
    }
}

/// Jednotky, které mají některou lekci připnutou.
pub fn pinovane_jednotky(v: &Vysledek, piny: &Mapa<u8>) -> (r: std::collections::BTreeSet<usize>)
    requires
        piny.dobre(),
    ensures
        forall|j: usize| #[trigger] r@.contains(j) == jednotka_pripnuta(*v, *piny, j),
{
    let mut r: std::collections::BTreeSet<usize> = std::collections::BTreeSet::new();
    let mut c: usize = 0;
    while c < v.lekce.len()
        invariant
            c <= v.lekce@.len(),
            piny.dobre(),
            forall|j: usize|
                #[trigger] r@.contains(j) == exists|x: int|
                    0 <= x < c && (#[trigger] v.lekce@[x]).jednotka == j && piny.ma(v.lekce@[x].klic@),
        decreases v.lekce@.len() - c,
    {
        if piny.contains_key(v.lekce[c].klic.as_str()) {
            crate::podle_id::vloz_index(&mut r, v.lekce[c].jednotka);
        }
        proof {
            assert forall|j: usize|
                #[trigger] r@.contains(j) == exists|x: int|
                    0 <= x < c + 1 && (#[trigger] v.lekce@[x]).jednotka == j && piny.ma(v.lekce@[x].klic@) by {
                if exists|x: int| 0 <= x < c + 1 && (#[trigger] v.lekce@[x]).jednotka == j && piny.ma(v.lekce@[x].klic@) {
                    let x = choose|x: int| 0 <= x < c + 1 && (#[trigger] v.lekce@[x]).jednotka == j && piny.ma(v.lekce@[x].klic@);
                    if x < c {
                    }
                }
            }
        }
        c = c + 1;
    }
    r
}

/// Počet hodin týdne `0..t`, ve kterých má pohled nějakou lekci.
pub open spec fn obsazenych_do(v: Vysledek, p: crate::export::Pohled, t: int) -> nat
    decreases t,
{
    if t <= 0 {
        0
    } else {
        obsazenych_do(v, p, t - 1) + if crate::export::bunka(v, p, (t - 1) / (SLOTU as int), (t - 1) % (SLOTU as int)).len()
            > 0 {
            1nat
        } else {
            0nat
        }
    }
}

/// Kolik hodin týdně má pohled obsazených.
pub fn obsazenych_hodin(v: &Vysledek, pohled: &crate::export::Pohled) -> (r: usize)
    requires
        crate::export::vysledek_uplny(*v),
    ensures
        r == obsazenych_do(*v, *pohled, N_SLOTU as int),
{
    let mut r: usize = 0;
    let mut t: usize = 0;
    while t < N_SLOTU
        invariant
            t <= N_SLOTU,
            crate::export::vysledek_uplny(*v),
            r == obsazenych_do(*v, *pohled, t as int),
            r <= t,
        decreases N_SLOTU - t,
    {
        let b = crate::export::lekce_v_bunce(v, pohled, t / SLOTU, t % SLOTU);
        if b.len() > 0 {
            r = r + 1;
        }
        t = t + 1;
    }
    r
}

} // verus!
