//! Řešič rozvrhu: lekce ➡ jednotky (lekce, které se hýbou společně) ➡ model
//! (profily žáků, konflikty, povolené sloty) ➡ hladový start ➡ simulované žíhání
//! ➡ slepování bloků a dočištění ➡ místnosti ➡ validace.

use crate::data::{
    index_mistnosti, index_predmetu, index_tridy, index_ucitele, Omezeni, Pohlavi, Skola, SkolniRok,
    SkupinaAj, Struktura, Student, DNY, MAX_DEN_TRIDA, N_SLOTU, SLOTU,
};
use crate::mapa::Mapa;
use crate::text::{cislo, pripoj, rovno};
use std::collections::BTreeMap;
pub use crate::uvazky::zateze;
use vstd::prelude::*;

verus! {

/// Neumístěná jednotka.
pub const NENI: u8 = 255;

#[derive(Clone, Copy, Debug, PartialEq, Eq, Structural, Default)]
pub enum Tyden {
    #[default]
    Oba,
    L,
    S,
}

/// Lekce dvou týdnů se překrývají (lichý × sudý ne).
pub open spec fn prekryv_spec(a: Tyden, b: Tyden) -> bool {
    a == Tyden::Oba || b == Tyden::Oba || a == b
}

impl Tyden {
    pub fn prekryv(self, o: Tyden) -> (r: bool)
        ensures
            r == prekryv_spec(self, o),
    {
        self == Tyden::Oba || o == Tyden::Oba || self == o
    }

    pub fn prefix(self) -> (r: &'static str)
        ensures
            self == Tyden::Oba ==> r@ == ""@,
            self == Tyden::L ==> r@ == "L·"@,
            self == Tyden::S ==> r@ == "S·"@,
    {
        match self {
            Tyden::Oba => "",
            Tyden::L => "L·",
            Tyden::S => "S·",
        }
    }

    /// Indexy týdnů (0 = lichý, 1 = sudý), ve kterých lekce probíhá.
    pub fn tydny(self) -> (r: &'static [usize])
        ensures
            self == Tyden::Oba ==> r@ == seq![0usize, 1usize],
            self == Tyden::L ==> r@ == seq![0usize],
            self == Tyden::S ==> r@ == seq![1usize],
    {
        match self {
            Tyden::Oba => {
                let r: &'static [usize] = &[0, 1];
                proof {
                    assert(r@ =~= seq![0usize, 1usize]);
                }
                r
            },
            Tyden::L => {
                let r: &'static [usize] = &[0];
                proof {
                    assert(r@ =~= seq![0usize]);
                }
                r
            },
            Tyden::S => {
                let r: &'static [usize] = &[1];
                proof {
                    assert(r@ =~= seq![1usize]);
                }
                r
            },
        }
    }

    /// Bitová maska týdnů (1 lichý, 2 sudý).
    pub fn maska(self) -> (r: u8)
        ensures
            self == Tyden::Oba ==> r == 3,
            self == Tyden::L ==> r == 1,
            self == Tyden::S ==> r == 2,
    {
        match self {
            Tyden::Oba => 3,
            Tyden::L => 1,
            Tyden::S => 2,
        }
    }
}

#[derive(Clone, Debug)]
pub struct LekceInfo {
    pub predmet: String,
    pub ucitel: String,
    pub tridy: Vec<String>,
    pub skupina: String,
    pub zaci: Vec<u32>,
    pub len: u8,
    /// Odborné místnosti v pořadí preference.
    pub kandidati: Vec<String>,
    pub kmenova_ok: bool,
    /// Stabilní ID lekce – pro piny (přežije přegenerování).
    pub klic: String,
    /// Klíč předmětu+skupiny (bez pořadí) – pro „max 2 h/den“ a slepování.
    pub klic_predmetu: String,
    /// Partner v L/S páru.
    pub par: Option<usize>,
    pub tyden: Tyden,
    /// Preferovat dopoledne (semináře).
    pub dopoledne: bool,
    pub jednotka: usize,
    pub menu: Option<String>,
}

#[derive(Clone, Debug)]
pub struct Vysledek {
    pub rok: String,
    pub lekce: Vec<LekceInfo>,
    /// Začátek lekce: den*12+slot.
    pub slot: Vec<Option<u8>>,
    pub mistnost: Vec<Option<String>>,
    pub varovani: Vec<String>,
    pub problemy: Vec<String>,
    pub problemove_lekce: Vec<usize>,
    /// Skóre: počet tvrdých porušení.
    pub skore_tvrde: i64,
    /// Skóre: vážené měkké penalizace.
    pub skore_mekke: i64,
    pub iteraci: u64,
    /// Doba řešení v milisekundách.
    pub cas_ms: u64,
    /// Efektivní limity P1 po auto-uvolnění.
    pub limity: Mapa<Omezeni>,
    /// žák ➡ třída (vzestupně podle id žáka)
    pub zaci_tridy: BTreeMap<u32, String>,
    pub virtualni_zaci: Vec<u32>,
}

/// Rozpis hodin na délky lekcí: dvouhodinovky, zbytek po jedné hodině.
pub open spec fn rozpis_spec(hodin: u8, dvoj: bool) -> Seq<u8> {
    let dvojic: int = if dvoj { (hodin / 2) as int } else { 0 };
    Seq::new(dvojic as nat, |i: int| 2u8) + Seq::new((hodin - 2 * dvojic) as nat, |i: int| 1u8)
}

/// Součet délek.
pub open spec fn soucet_delek(s: Seq<u8>) -> int
    decreases s.len(),
{
    if s.len() == 0 {
        0
    } else {
        soucet_delek(s.drop_last()) + s.last()
    }
}

/// Rozpis hodin na délky lekcí: 3 h ve dvojhodinách = [2, 1].
pub fn rozpis(hodin: u8, dvoj: bool) -> (r: Vec<u8>)
    ensures
        r@ == rozpis_spec(hodin, dvoj),
        soucet_delek(r@) == hodin,
        forall|i: int| 0 <= i < r@.len() ==> 1 <= #[trigger] r@[i] <= 2,
{
    let dvojic: u8 = if dvoj { hodin / 2 } else { 0 };
    let mut v: Vec<u8> = Vec::new();
    let mut i: u8 = 0;
    while i < dvojic
        invariant
            i <= dvojic,
            dvojic <= hodin / 2,
            v@ == Seq::new(i as nat, |k: int| 2u8),
            soucet_delek(v@) == 2 * i,
        decreases dvojic - i,
    {
        let ghost v0 = v@;
        v.push(2);
        proof {
            assert(v@ =~= Seq::new((i + 1) as nat, |k: int| 2u8));
            assert(v@.drop_last() =~= v0);
        }
        i = i + 1;
    }
    let zbytek: u8 = hodin - 2 * dvojic;
    let mut j: u8 = 0;
    while j < zbytek
        invariant
            j <= zbytek,
            zbytek == hodin - 2 * dvojic,
            dvojic <= hodin / 2,
            v@ == Seq::new(dvojic as nat, |k: int| 2u8) + Seq::new(j as nat, |k: int| 1u8),
            soucet_delek(v@) == 2 * dvojic + j,
        decreases zbytek - j,
    {
        let ghost v0 = v@;
        v.push(1);
        proof {
            assert(v@ =~= Seq::new(dvojic as nat, |k: int| 2u8) + Seq::new((j + 1) as nat, |k: int| 1u8));
            assert(v@.drop_last() =~= v0);
        }
        j = j + 1;
    }
    v
}

} // verus!

verus! {

pub struct Vstup {
    pub lekce: Vec<LekceInfo>,
    pub jednotky: Vec<Vec<usize>>,
    pub varovani: Vec<String>,
    pub virtualni: Vec<u32>,
    pub zaci_tridy: BTreeMap<u32, String>,
}

/// Žák při stavbě lekcí.
struct Zk {
    id: u32,
    aj: SkupinaAj,
    poh: Pohlavi,
}

/// Nová lekce (před doplněním místností).
struct Nova {
    predmet: String,
    ucitel: String,
    tridy: Vec<String>,
    skupina: String,
    zaci: Vec<u32>,
    len: u8,
    klic: String,
    klic_predmetu: String,
    tyden: Tyden,
    dopoledne: bool,
    menu: Option<String>,
}

/// Lekce je řádně utvořená: má žáky, délku 1–2 a žáci jsou známí.
pub open spec fn lekce_platna(l: LekceInfo, zaci_tridy: Map<u32, String>) -> bool {
    &&& l.zaci@.len() > 0
    &&& 1 <= l.len <= 2
    &&& forall|k: int| 0 <= k < l.zaci@.len() ==> zaci_tridy.contains_key(#[trigger] l.zaci@[k])
}

/// Lekce `i` je bez páru, nebo je s partnerem spárovaná navzájem, je s ním v téže jednotce
/// a leží v opačném týdnu.
pub open spec fn par_ok(lekce: Seq<LekceInfo>, i: int) -> bool {
    match lekce[i].par {
        Some(p) => p < lekce.len() && p != i && lekce[p as int].par == Some(i as usize) && lekce[p as int].jednotka
            == lekce[i].jednotka && ((lekce[i].tyden
            == Tyden::L && lekce[p as int].tyden == Tyden::S) || (lekce[i].tyden == Tyden::S && lekce[p as int].tyden
            == Tyden::L)),
        None => true,
    }
}

/// Páry L/S jsou souměrné a leží v opačných týdnech.
pub open spec fn pary_platne(lekce: Seq<LekceInfo>) -> bool {
    forall|i: int| 0 <= i < lekce.len() ==> #[trigger] par_ok(lekce, i)
}

/// Jednotky rozdělují lekce: každá je neprázdná, každá lekce leží právě v jednotce,
/// kterou má zapsanou, a indexy v jednotce rostou.
pub open spec fn jednotky_platne(lekce: Seq<LekceInfo>, jednotky: Seq<Vec<usize>>) -> bool {
    &&& forall|i: int| 0 <= i < lekce.len() ==> (#[trigger] lekce[i]).jednotka < jednotky.len()
    &&& forall|i: int| 0 <= i < lekce.len() ==> jednotky[lekce[i].jednotka as int]@.contains(i as usize)
    &&& forall|u: int| 0 <= u < jednotky.len() ==> (#[trigger] jednotky[u])@.len() > 0
    &&& forall|u: int, k: int|
        0 <= u < jednotky.len() && 0 <= k < jednotky[u]@.len() ==> (#[trigger] jednotky[u]@[k]) < lekce.len()
            && lekce[jednotky[u]@[k] as int].jednotka == u
    &&& forall|u: int, k: int, l: int|
        0 <= u < jednotky.len() && 0 <= k < l < jednotky[u]@.len() ==> #[trigger] jednotky[u]@[k] < #[trigger] jednotky[u]@[l]
}

/// Odborné místnosti předmětu, které škola má (v pořadí předmětu).
pub open spec fn odborne_predmetu(skola: Skola, predmet: Seq<char>) -> Seq<Seq<char>> {
    let pi = index_predmetu(skola.predmety@, predmet);
    if pi >= 0 {
        crate::data::retezce(skola.predmety@[pi].specialni_mistnosti@).filter(|x: Seq<char>| index_mistnosti(skola.mistnosti@, x) >= 0)
    } else {
        Seq::empty()
    }
}

/// Místnost `p`.
pub open spec fn rovna_mistnosti(p: Seq<char>) -> spec_fn(Seq<char>) -> bool {
    |x: Seq<char>| x == p
}

/// Kandidátní místnosti lekce: odborné místnosti předmětu, které škola má; je-li mezi nimi
/// preferovaná místnost učitele, její první výskyt jde na začátek.
pub open spec fn kandidati_spec(skola: Skola, predmet: Seq<char>, ucitel: Seq<char>) -> Seq<Seq<char>> {
    let e = odborne_predmetu(skola, predmet);
    let ui = index_ucitele(skola.ucitele@, ucitel);
    if ui >= 0 && skola.ucitele@[ui].preferovana_mistnost is Some {
        let pref = skola.ucitele@[ui].preferovana_mistnost.unwrap()@;
        let pos = crate::hledani::prvni(e, rovna_mistnosti(pref));
        if pos >= 0 {
            e.remove(pos).insert(0, e[pos])
        } else {
            e
        }
    } else {
        e
    }
}

/// Odborné místnosti lekce (existující, preferovaná místnost učitele napřed) a zda smí do
/// kmenové učebny (neznámý předmět smí).
fn kandidati_lekce(skola: &Skola, predmet: &str, ucitel: &str) -> (r: (Vec<String>, bool))
    ensures
        forall|k: int| 0 <= k < r.0@.len() ==> index_mistnosti(skola.mistnosti@, (#[trigger] r.0@[k])@) >= 0,
        crate::data::retezce(r.0@) == kandidati_spec(*skola, predmet@, ucitel@),
        r.1 == (index_predmetu(skola.predmety@, predmet@) < 0 || skola.predmety@[index_predmetu(skola.predmety@, predmet@)].kmenova_ok),
{
    let (spec_m, kmenova_ok) = match skola.predmet(predmet) {
        Some(p) => (crate::data::kopie_retezcu(&p.specialni_mistnosti), p.kmenova_ok),
        None => (Vec::new(), true),
    };
    let ghost pm = |x: Seq<char>| index_mistnosti(skola.mistnosti@, x) >= 0;
    proof {
        assert(crate::data::retezce(spec_m@).filter(pm) == odborne_predmetu(*skola, predmet@)) by {
            if index_predmetu(skola.predmety@, predmet@) < 0 {
                assert(crate::data::retezce(spec_m@) =~= Seq::<Seq<char>>::empty());
                assert(crate::data::retezce(spec_m@).filter(pm) =~= Seq::<Seq<char>>::empty());
            }
        }
    }
    let mut kandidati: Vec<String> = Vec::new();
    let mut i: usize = 0;
    while i < spec_m.len()
        invariant
            i <= spec_m@.len(),
            pm == (|x: Seq<char>| index_mistnosti(skola.mistnosti@, x) >= 0),
            forall|k: int| 0 <= k < kandidati@.len() ==> index_mistnosti(skola.mistnosti@, (#[trigger] kandidati@[k])@) >= 0,
            crate::data::retezce(kandidati@) == crate::data::retezce(spec_m@).take(i as int).filter(pm),
        decreases spec_m@.len() - i,
    {
        let ghost c = crate::data::retezce(spec_m@);
        proof {
            assert(c.take(i + 1) =~= c.take(i as int).push(c[i as int]));
            c.take(i as int).lemma_filter_push(c[i as int], pm);
        }
        if skola.mistnost(spec_m[i].as_str()).is_some() {
            let ghost k0 = kandidati@;
            kandidati.push(spec_m[i].clone());
            proof {
                assert(crate::data::retezce(kandidati@) =~= crate::data::retezce(k0).push(c[i as int]));
            }
        }
        i = i + 1;
    }
    proof {
        assert(crate::data::retezce(spec_m@).take(spec_m@.len() as int) =~= crate::data::retezce(spec_m@));
    }
    let ghost e = crate::data::retezce(kandidati@);
    proof {
        assert(e == odborne_predmetu(*skola, predmet@));
    }
    match skola.ucitel(ucitel) {
        Some(u) => match &u.preferovana_mistnost {
            Some(pref) => {
                let ghost pp = rovna_mistnosti(pref@);
                let mut pos: usize = 0;
                let mut nalezeno = false;
                while pos < kandidati.len() && !nalezeno
                    invariant
                        pos <= kandidati@.len(),
                        nalezeno ==> pos < kandidati@.len() && e[pos as int] == pref@,
                        e == crate::data::retezce(kandidati@),
                        pp == rovna_mistnosti(pref@),
                        forall|j: int| 0 <= j < pos ==> !pp(#[trigger] e[j]),
                    decreases kandidati@.len() - pos + (if nalezeno { 0int } else { 1int }),
                {
                    if rovno(kandidati[pos].as_str(), pref.as_str()) {
                        nalezeno = true;
                    } else {
                        pos = pos + 1;
                    }
                }
                if nalezeno {
                    proof {
                        crate::hledani::lemma_prvni_je(e, pp, pos as int);
                    }
                    let m = kandidati.remove(pos);
                    let ghost k0 = kandidati@;
                    kandidati.insert(0, m);
                    proof {
                        assert forall|k: int| 0 <= k < kandidati@.len() implies index_mistnosti(
                            skola.mistnosti@,
                            (#[trigger] kandidati@[k])@,
                        ) >= 0 by {
                            if k > 0 {
                                assert(kandidati@[k] == k0[k - 1]);
                            }
                        }
                        assert(crate::data::retezce(kandidati@) =~= e.remove(pos as int).insert(0, e[pos as int]));

                    }
                } else {
                    proof {
                        crate::hledani::lemma_prvni_zadny(e, pp);
                    }
                }
            },
            None => {},
        },
        None => {},
    }
    (kandidati, kmenova_ok)
}

/// Přidá lekci (nemá-li žáky, nepřidá nic).
fn pridej_lekci(skola: &Skola, lekce: &mut Vec<LekceInfo>, n: Nova, jednotka: usize) -> (r: Option<usize>)
    requires
        1 <= n.len <= 2,
    ensures
        match r {
            Some(i) => i == old(lekce)@.len() && final(lekce)@.len() == i + 1 && final(lekce)@.take(i as int)
                == old(lekce)@ && final(lekce)@[i as int].zaci@ == n.zaci@ && final(lekce)@[i as int].par.is_none()
                && final(lekce)@[i as int].len == n.len && final(lekce)@[i as int].tyden == n.tyden && n.zaci@.len()
                > 0 && final(lekce)@[i as int].tridy@ == n.tridy@ && final(lekce)@[i as int].jednotka == jednotka
                && final(lekce)@[i as int].predmet == n.predmet && final(lekce)@[i as int].ucitel == n.ucitel
                && final(lekce)@[i as int].skupina == n.skupina && final(lekce)@[i as int].klic == n.klic
                && final(lekce)@[i as int].klic_predmetu == n.klic_predmetu && final(lekce)@[i as int].dopoledne
                == n.dopoledne && final(lekce)@[i as int].menu == n.menu,
            None => final(lekce)@ == old(lekce)@ && n.zaci@.len() == 0,
        },
{
    if n.zaci.len() == 0 {
        return None;
    }
    let (kandidati, kmenova_ok) = kandidati_lekce(skola, n.predmet.as_str(), n.ucitel.as_str());
    let ghost l0 = lekce@;
    lekce.push(LekceInfo {
        predmet: n.predmet,
        ucitel: n.ucitel,
        tridy: n.tridy,
        skupina: n.skupina,
        zaci: n.zaci,
        len: n.len,
        kandidati,
        kmenova_ok,
        klic: n.klic,
        klic_predmetu: n.klic_predmetu,
        par: None,
        tyden: n.tyden,
        dopoledne: n.dopoledne,
        jednotka,
        menu: n.menu,
    });
    proof {
        assert(lekce@.take(l0.len() as int) =~= l0);
    }
    Some(lekce.len() - 1)
}

/// Seskupí lekce do jednotek podle předběžného čísla jednotky (menšího než `m`):
/// prázdná čísla vypadnou, jednotky jdou vzestupně podle čísla, lekce v nich vzestupně,
/// a čísla se přepíší na pořadí jednotky.
#[verifier::spinoff_prover]
fn seskup(lekce: &mut Vec<LekceInfo>, m: usize) -> (j: Vec<Vec<usize>>)
    requires
        forall|i: int| 0 <= i < old(lekce)@.len() ==> (#[trigger] old(lekce)@[i]).jednotka < m,
    ensures
        final(lekce)@.len() == old(lekce)@.len(),
        forall|i: int|
            0 <= i < old(lekce)@.len() ==> (#[trigger] final(lekce)@[i]) == (LekceInfo {
                jednotka: final(lekce)@[i].jednotka,
                ..old(lekce)@[i]
            }),
        forall|a: int, b: int|
            0 <= a < old(lekce)@.len() && 0 <= b < old(lekce)@.len() ==> (old(lekce)@[a].jednotka
                <= old(lekce)@[b].jednotka <==> (#[trigger] final(lekce)@[a]).jednotka
                <= (#[trigger] final(lekce)@[b]).jednotka),
        jednotky_platne(final(lekce)@, j@),
{
    let n = lekce.len();
    let ghost l0 = lekce@;
    let mut raw: Vec<usize> = Vec::new();
    let mut i: usize = 0;
    while i < n
        invariant
            i <= n,
            n == lekce@.len(),
            lekce@ == l0,
            raw@.len() == i,
            forall|k: int| 0 <= k < i ==> #[trigger] raw@[k] == l0[k].jednotka,
        decreases n - i,
    {
        raw.push(lekce[i].jednotka);
        i = i + 1;
    }
    let mut j: Vec<Vec<usize>> = Vec::new();
    let mut u: usize = 0;
    while u < m
        invariant
            u <= m,
            n == lekce@.len(),
            n == l0.len(),
            raw@.len() == n,
            forall|k: int| 0 <= k < n ==> #[trigger] raw@[k] == l0[k].jednotka,
            forall|k: int| 0 <= k < n ==> (#[trigger] l0[k]).jednotka < m,
            forall|k: int| 0 <= k < n ==> (#[trigger] lekce@[k]) == (LekceInfo { jednotka: lekce@[k].jednotka, ..l0[k] }),
            forall|k: int| 0 <= k < n && raw@[k] < u ==> (#[trigger] lekce@[k]).jednotka < j@.len()
                && j@[lekce@[k].jednotka as int]@.contains(k as usize),
            forall|a: int, b: int| 0 <= a < n && 0 <= b < n && raw@[a] < u && raw@[b] < u ==> (raw@[a] <= raw@[b]
                <==> (#[trigger] lekce@[a]).jednotka <= (#[trigger] lekce@[b]).jednotka),
            forall|w: int| 0 <= w < j@.len() ==> (#[trigger] j@[w])@.len() > 0,
            forall|w: int, x: int|
                0 <= w < j@.len() && 0 <= x < j@[w]@.len() ==> (#[trigger] j@[w]@[x]) < n
                    && raw@[j@[w]@[x] as int] < u && lekce@[j@[w]@[x] as int].jednotka == w,
            forall|w: int, a: int, b: int|
                0 <= w < j@.len() && 0 <= a < b < j@[w]@.len() ==> #[trigger] j@[w]@[a] < #[trigger] j@[w]@[b],
        decreases m - u,
    {
        let r = j.len();
        let mut clenove: Vec<usize> = Vec::new();
        let mut k: usize = 0;
        while k < n
            invariant
                k <= n,
                u < m,
                r == j@.len(),
                n == lekce@.len(),
                n == l0.len(),
                raw@.len() == n,
                forall|x: int| 0 <= x < n ==> #[trigger] raw@[x] == l0[x].jednotka,
                forall|x: int| 0 <= x < n ==> (#[trigger] lekce@[x]) == (LekceInfo { jednotka: lekce@[x].jednotka, ..l0[x] }),
                forall|a: int| 0 <= a < clenove@.len() ==> (#[trigger] clenove@[a]) < k && raw@[clenove@[a] as int] == u,
                forall|a: int| 0 <= a < k && raw@[a] == u ==> #[trigger] lekce@[a].jednotka == r && clenove@.contains(a as usize),
                forall|a: int, b: int| 0 <= a < b < clenove@.len() ==> #[trigger] clenove@[a] < #[trigger] clenove@[b],
                forall|x: int| 0 <= x < n && raw@[x] < u ==> (#[trigger] lekce@[x]).jednotka < j@.len()
                    && j@[lekce@[x].jednotka as int]@.contains(x as usize),
                forall|a: int, b: int| 0 <= a < n && 0 <= b < n && raw@[a] < u && raw@[b] < u ==> (raw@[a] <= raw@[b]
                    <==> (#[trigger] lekce@[a]).jednotka <= (#[trigger] lekce@[b]).jednotka),
                forall|w: int, x: int|
                    0 <= w < j@.len() && 0 <= x < j@[w]@.len() ==> (#[trigger] j@[w]@[x]) < n
                        && raw@[j@[w]@[x] as int] < u && lekce@[j@[w]@[x] as int].jednotka == w,
            decreases n - k,
        {
            let ghost kk = k;
            if raw[k] == u {
                let ghost c0 = clenove@;
                lekce[k].jednotka = r;
                clenove.push(k);
                proof {
                    assert forall|a: int| 0 <= a < k + 1 && raw@[a] == u implies #[trigger] lekce@[a].jednotka == r
                        && clenove@.contains(a as usize) by {
                        crate::hledani::lemma_contains_push(c0, k, a as usize);
                    }
                }
            } else {
                proof {
                    assert forall|a: int| 0 <= a < k + 1 && raw@[a] == u implies #[trigger] lekce@[a].jednotka == r
                        && clenove@.contains(a as usize) by {
                        assert(a != kk);
                    }
                }
            }
            k = k + 1;
        }
        if clenove.len() > 0 {
            let ghost j0 = j@;
            j.push(clenove);
            proof {
                assert forall|x: int| 0 <= x < n && raw@[x] < u + 1 implies (#[trigger] lekce@[x]).jednotka < j@.len()
                    && j@[lekce@[x].jednotka as int]@.contains(x as usize) by {
                    if raw@[x] < u {
                        assert(j@[lekce@[x].jednotka as int] == j0[lekce@[x].jednotka as int]);
                    }
                }
            }
        } else {
            proof {
                assert forall|x: int| 0 <= x < n implies raw@[x] != u by {
                    if raw@[x] == u {
                        assert(lekce@[x].jednotka == r);
                        assert(clenove@.contains(x as usize));
                        assert(false);
                    }
                }
            }
        }
        u = u + 1;
    }
    j
}

/// Člen třídy při stavbě lekcí: id, skupina AJ a pohlaví.
pub type Clen = (u32, SkupinaAj, Pohlavi);

/// Žák v rozvrhu, jehož třída je (první) třídou školy s indexem `t`.
pub open spec fn zak_tridy(skola: Skola, t: int) -> spec_fn(Student) -> bool {
    |s: Student| s.spec_v_rozvrhu() && index_tridy(skola.tridy@, s.trida@) == t
}

/// Skuteční členové třídy `t` v pořadí žáků roku.
pub open spec fn skutecni_clenove(skola: Skola, st: Seq<Student>, t: int) -> Seq<Clen> {
    st.filter(zak_tridy(skola, t)).map_values(|s: Student| (s.id, s.skupina_aj, s.pohlavi))
}

/// Třída `t` je vstupní.
pub open spec fn vstupni_t(skola: Skola, t: int) -> bool {
    skola.tridy@.filter(|x: crate::data::Trida| crate::data::je_vstupni(skola.tridy@, x)).map_values(
        |x: crate::data::Trida| x.id@,
    ).contains(skola.tridy@[t].id@)
}

/// Třída `t` dostane zástupné žáky: nemá skutečné žáky a je vstupní.
pub open spec fn se_zastupci(skola: Skola, st: Seq<Student>, t: int) -> bool {
    skutecni_clenove(skola, st, t).len() == 0 && vstupni_t(skola, t)
}

/// Počet tříd před třídou `t`, které dostaly zástupné žáky.
pub open spec fn tridy_se_zastupci(skola: Skola, st: Seq<Student>, t: int) -> nat
    decreases t,
{
    if t <= 0 {
        0
    } else {
        tridy_se_zastupci(skola, st, t - 1) + if se_zastupci(skola, st, t - 1) {
            1nat
        } else {
            0nat
        }
    }
}

/// Členové třídy `t` pro stavbu lekcí: skuteční žáci v rozvrhu; prázdná vstupní třída čtyři
/// zástupné (AJa dívka, AJa chlapec, AJb dívka, AJb chlapec) s id sestupně od
/// `u32::MAX - 4 × počet dřívějších tříd se zástupci`.
pub open spec fn clenove_tridy(skola: Skola, st: Seq<Student>, t: int) -> Seq<Clen> {
    if se_zastupci(skola, st, t) {
        let b = u32::MAX - 4 * tridy_se_zastupci(skola, st, t);
        seq![
            (b as u32, SkupinaAj::A, Pohlavi::D),
            ((b - 1) as u32, SkupinaAj::A, Pohlavi::CH),
            ((b - 2) as u32, SkupinaAj::B, Pohlavi::D),
            ((b - 3) as u32, SkupinaAj::B, Pohlavi::CH),
        ]
    } else {
        skutecni_clenove(skola, st, t)
    }
}

/// Id členů třídy, kteří splňují podmínku, v jejich pořadí.
pub open spec fn ids_clenu(c: Seq<Clen>, p: spec_fn(Clen) -> bool) -> Seq<u32> {
    c.filter(p).map_values(|x: Clen| x.0)
}

/// Každý člen.
pub open spec fn kazdy() -> spec_fn(Clen) -> bool {
    |x: Clen| true
}

/// Člen skupiny AJ `g`.
pub open spec fn ve_skupine_aj(g: SkupinaAj) -> spec_fn(Clen) -> bool {
    |x: Clen| x.1 == g
}

/// Člen pohlaví `g`.
pub open spec fn pohlavi_clena(g: Pohlavi) -> spec_fn(Clen) -> bool {
    |x: Clen| x.2 == g
}

/// Část řádku plánu: předmět, učitel, skupina, týden a žáci.
pub type CastPlanu = (Seq<char>, Seq<char>, Seq<char>, Tyden, Seq<u32>);

/// Části, na které řádek plánu `ph` dělí třídu s členy `c`: celou třídou; skupiny AJa a AJb;
/// dívky a chlapci; lichý a sudý týden celou třídou; nebo lichý a sudý týden každé skupiny AJ.
pub open spec fn casti_radku(ph: crate::data::PlanovaHodina, c: Seq<Clen>) -> Seq<CastPlanu> {
    let vsichni = ids_clenu(c, kazdy());
    let aja = ids_clenu(c, ve_skupine_aj(SkupinaAj::A));
    let ajb = ids_clenu(c, ve_skupine_aj(SkupinaAj::B));
    match ph.struktura {
        Struktura::CelouTridou(u) => seq![(ph.predmet@, u@, ""@, Tyden::Oba, vsichni)],
        Struktura::Rozdeleno { a, b } => seq![
            (ph.predmet@, a@, "AJa"@, Tyden::Oba, aja),
            (ph.predmet@, b@, "AJb"@, Tyden::Oba, ajb),
        ],
        Struktura::Pohlavi { div, chl } => seq![
            (ph.predmet@, div@, "D"@, Tyden::Oba, ids_clenu(c, pohlavi_clena(Pohlavi::D))),
            (ph.predmet@, chl@, "CH"@, Tyden::Oba, ids_clenu(c, pohlavi_clena(Pohlavi::CH))),
        ],
        Struktura::Stridave { l, s } => seq![
            (l.predmet@, l.ucitel@, ""@, Tyden::L, vsichni),
            (s.predmet@, s.ucitel@, ""@, Tyden::S, vsichni),
        ],
        Struktura::StridaveSkupiny { a, b } => seq![
            (a[0].predmet@, a[0].ucitel@, "AJa"@, Tyden::L, aja),
            (a[1].predmet@, a[1].ucitel@, "AJa"@, Tyden::S, aja),
            (b[0].predmet@, b[0].ucitel@, "AJb"@, Tyden::L, ajb),
            (b[1].predmet@, b[1].ucitel@, "AJb"@, Tyden::S, ajb),
        ],
    }
}

/// Lekce má předmět, učitele, skupinu, týden a žáky části `k`.
pub open spec fn lekce_casti(k: CastPlanu, lek: LekceInfo) -> bool {
    lek.predmet@ == k.0 && lek.ucitel@ == k.1 && lek.skupina@ == k.2 && lek.tyden == k.3 && lek.zaci@ == k.4
}

/// Lekce je lekcí některé části řádku plánu `ph` pro třídu s členy `c`.
pub open spec fn cast_planu(ph: crate::data::PlanovaHodina, c: Seq<Clen>, lek: LekceInfo) -> bool {
    exists|j: int| 0 <= j < casti_radku(ph, c).len() && lekce_casti(#[trigger] casti_radku(ph, c)[j], lek)
}

/// Lekce je `x`-tou lekcí (délka `x`-tá z rozpisu hodin) `j`-té části řádku plánu `ph` pro
/// třídu s členy `c`: jen pro třídu řádku, mimo menu, ne dopolední, s klíčem ze základu řádku,
/// klíče skupiny části a pořadového čísla `o0 + x` (`o0` je počet dřívějších lekcí se stejným
/// základem).
pub open spec fn lekce_casti_x(ph: crate::data::PlanovaHodina, c: Seq<Clen>, j: int, x: int, o0: int, lek: LekceInfo) -> bool {
    &&& lek.klic@ == klic_planu(zaklad_klice(ph), klic_skupiny(ph.struktura, j), (o0 + x) as nat)
    &&& 0 <= j < casti_radku(ph, c).len()
    &&& 0 <= x < rozpis_spec(ph.hodin, ph.dvoj).len()
    &&& crate::data::retezce(lek.tridy@) == seq![ph.trida@]
    &&& lek.len == rozpis_spec(ph.hodin, ph.dvoj)[x]
    &&& lek.menu.is_none()
    &&& !lek.dopoledne
    &&& lekce_casti(casti_radku(ph, c)[j], lek)
}

/// Mezi lekcemi od indexu `od` je `x`-tá lekce `j`-té části řádku plánu.
pub open spec fn ma_lekci_casti(ph: crate::data::PlanovaHodina, c: Seq<Clen>, j: int, x: int, o0: int, lekce: Seq<LekceInfo>, od: int) -> bool {
    exists|i: int| od <= i < lekce.len() && lekce_casti_x(ph, c, j, x, o0, #[trigger] lekce[i])
}

/// Řádek plánu dostane lekce: jeho třída je ve škole a nevynechává se.
pub open spec fn radek_v_rozvrhu(skola: Skola, st: Seq<Student>, ph: crate::data::PlanovaHodina) -> bool {
    index_tridy(skola.tridy@, ph.trida@) >= 0 && !vynechana(skola, st, ph.trida@)
}

/// Členové třídy řádku plánu.
pub open spec fn clenove_radku(skola: Skola, st: Seq<Student>, ph: crate::data::PlanovaHodina) -> Seq<Clen> {
    clenove_tridy(skola, st, index_tridy(skola.tridy@, ph.trida@))
}

/// Lekce vznikla z řádku plánu: jeho třída je ve škole, klíč lekce je `P|třída|předmět|`,
/// klíč skupiny, `|` a pořadové číslo, klíč předmětu `P|třída|předmět|skupina`, lekce je jen
/// pro tu třídu, má délku z rozpisu hodin řádku, nepatří k menu, není dopolední a je jednou
/// z částí řádku s členy třídy.
pub open spec fn lekce_radku(skola: Skola, st: Seq<Student>, ph: crate::data::PlanovaHodina, lek: LekceInfo) -> bool {
    let t = index_tridy(skola.tridy@, ph.trida@);
    &&& t >= 0
    &&& exists|sk: Seq<char>, o: nat| #[trigger] klic_planu(zaklad_klice(ph), sk, o) == lek.klic@
    &&& lek.klic_predmetu@ == klic_predmetu_planu(zaklad_klice(ph), lek.skupina@)
    &&& crate::data::retezce(lek.tridy@) == seq![ph.trida@]
    &&& rozpis_spec(ph.hodin, ph.dvoj).contains(lek.len)
    &&& lek.menu.is_none()
    &&& !lek.dopoledne
    &&& cast_planu(ph, clenove_tridy(skola, st, t), lek)
}

/// Žák `s` je v rozvrhu ve třídě `tr` a má pohlaví `g`.
pub open spec fn zak_pohlavi(s: Student, tr: Seq<char>, g: Pohlavi) -> bool {
    s.status != crate::data::StavStudenta::Odesel && s.trida@ == tr && s.pohlavi == g
}

/// Id skutečných členů třídy s pohlavím `g` (výběr ze seznamu členů).
proof fn lemma_clenove_pohlavi(skola: Skola, st: Seq<Student>, ph: crate::data::PlanovaHodina, g: Pohlavi, z: u32)
    requires
        index_tridy(skola.tridy@, ph.trida@) >= 0,
    ensures
        ids_clenu(skutecni_clenove(skola, st, index_tridy(skola.tridy@, ph.trida@)), pohlavi_clena(g)).contains(z) <==> exists|k: int|
            0 <= k < st.len() && st[k].id == z && #[trigger] zak_pohlavi(st[k], ph.trida@, g),
{
    let t = index_tridy(skola.tridy@, ph.trida@);
    let zt = zak_tridy(skola, t);
    let fs = st.filter(zt);
    let c = skutecni_clenove(skola, st, t);
    let pd = pohlavi_clena(g);
    let cf = c.filter(pd);
    let ids = cf.map_values(|x: Clen| x.0);
    crate::hledani::lemma_prvni(skola.tridy@, |x: crate::data::Trida| x.id@ == ph.trida@);
    if ids.contains(z) {
        let m2 = choose|m2: int| 0 <= m2 < ids.len() && ids[m2] == z;
        assert(cf.contains(cf[m2]));
        c.lemma_filter_contains_rev(pd, cf[m2]);
        let m = choose|m: int| 0 <= m < c.len() && c[m] == cf[m2];
        assert(c[m] == (fs[m].id, fs[m].skupina_aj, fs[m].pohlavi));
        assert(fs.contains(fs[m]));
        st.lemma_filter_contains_rev(zt, fs[m]);
        let k = choose|k: int| 0 <= k < st.len() && st[k] == fs[m];
        crate::hledani::lemma_prvni(skola.tridy@, |x: crate::data::Trida| x.id@ == st[k].trida@);
        assert(zak_pohlavi(st[k], ph.trida@, g));
    }
    if exists|k: int| 0 <= k < st.len() && st[k].id == z && #[trigger] zak_pohlavi(st[k], ph.trida@, g) {
        let k = choose|k: int| 0 <= k < st.len() && st[k].id == z && #[trigger] zak_pohlavi(st[k], ph.trida@, g);
        assert(index_tridy(skola.tridy@, st[k].trida@) == t);
        assert(zt(st[k]));
        st.lemma_filter_contains(zt, k);
        let m = choose|m: int| 0 <= m < fs.len() && fs[m] == st[k];
        assert(c[m] == (st[k].id, st[k].skupina_aj, st[k].pohlavi));
        assert(pd(c[m]));
        c.lemma_filter_contains(pd, m);
        let m2 = choose|m2: int| 0 <= m2 < cf.len() && cf[m2] == c[m];
        assert(ids[m2] == z);
    }
}

/// Zákon stavby lekcí: lekce řádku plánu děleného podle pohlaví je buď skupina „D“ s učitelem
/// dívek a žáky přesně žákyněmi třídy řádku v rozvrhu, nebo skupina „CH“ s učitelem chlapců
/// a žáky přesně chlapci té třídy (pro třídu, která má v rozvrhu skutečné žáky).
pub proof fn zakon_deleni_podle_pohlavi(skola: Skola, st: Seq<Student>, r: int, lek: LekceInfo, div: String, chl: String)
    requires
        0 <= r < skola.plan@.len(),
        skola.plan@[r].struktura == (Struktura::Pohlavi { div, chl }),
        lekce_radku(skola, st, skola.plan@[r], lek),
        exists|k: int| 0 <= k < st.len() && st[k].status != crate::data::StavStudenta::Odesel && st[k].trida@ == skola.plan@[r].trida@,
    ensures
        lek.skupina@ == "D"@ || lek.skupina@ == "CH"@,
        lek.skupina@ == "D"@ ==> lek.ucitel@ == div@ && forall|z: u32|
            lek.zaci@.contains(z) <==> exists|k: int| 0 <= k < st.len() && st[k].id == z && #[trigger] zak_pohlavi(st[k], skola.plan@[r].trida@, Pohlavi::D),
        lek.skupina@ == "CH"@ ==> lek.ucitel@ == chl@ && forall|z: u32|
            lek.zaci@.contains(z) <==> exists|k: int| 0 <= k < st.len() && st[k].id == z && #[trigger] zak_pohlavi(st[k], skola.plan@[r].trida@, Pohlavi::CH),
{
    let ph = skola.plan@[r];
    let t = index_tridy(skola.tridy@, ph.trida@);
    crate::hledani::lemma_prvni(skola.tridy@, |x: crate::data::Trida| x.id@ == ph.trida@);
    let k0 = choose|k: int| 0 <= k < st.len() && st[k].status != crate::data::StavStudenta::Odesel && st[k].trida@ == ph.trida@;
    assert(zak_tridy(skola, t)(st[k0]));
    st.lemma_filter_contains(zak_tridy(skola, t), k0);
    assert(skutecni_clenove(skola, st, t).len() > 0);
    let c = clenove_tridy(skola, st, t);
    assert(c == skutecni_clenove(skola, st, t));
    let j = choose|j: int| 0 <= j < casti_radku(ph, c).len() && lekce_casti(#[trigger] casti_radku(ph, c)[j], lek);
    reveal_strlit("D");
    reveal_strlit("CH");
    assert("D"@ != "CH"@);
    let g = if j == 0 { Pohlavi::D } else { Pohlavi::CH };
    assert forall|z: u32|
        lek.zaci@.contains(z) <==> exists|k: int| 0 <= k < st.len() && st[k].id == z && #[trigger] zak_pohlavi(st[k], ph.trida@, g) by {
        lemma_clenove_pohlavi(skola, st, ph, g, z);
    }
}

/// Třída `t` se z rozvrhu vynechává: nemá žáky v rozvrhu a není vstupní.
pub open spec fn vynechana_t(skola: Skola, st: Seq<Student>, t: int) -> bool {
    skutecni_clenove(skola, st, t).len() == 0 && !vstupni_t(skola, t)
}

/// Id `id` patří třídě školy, která se z rozvrhu vynechává.
pub open spec fn vynechana(skola: Skola, st: Seq<Student>, id: Seq<char>) -> bool {
    exists|t: int| 0 <= t < skola.tridy@.len() && skola.tridy@[t].id@ == id && #[trigger] vynechana_t(skola, st, t)
}

/// Id `x` má některá z prvních `t` tříd, která se vynechává.
spec fn id_vynechane_do(skola: Skola, st: Seq<Student>, x: Seq<char>, t: int) -> bool {
    exists|a: int| 0 <= a < t && skola.tridy@[a].id@ == x && #[trigger] vynechana_t(skola, st, a)
}

/// Seznam id vynechaných tříd mezi prvními `t` třídami.
spec fn vynechane_do(skola: Skola, st: Seq<Student>, v: Seq<String>, t: int) -> bool {
    &&& forall|k: int| 0 <= k < v.len() ==> id_vynechane_do(skola, st, (#[trigger] v[k])@, t)
    &&& forall|a: int| 0 <= a < t && #[trigger] vynechana_t(skola, st, a) ==> crate::data::retezce(v).contains(skola.tridy@[a].id@)
}

proof fn lemma_vynechane_krok(skola: Skola, st: Seq<Student>, v0: Seq<String>, v1: Seq<String>, t: int)
    requires
        0 <= t < skola.tridy@.len(),
        vynechane_do(skola, st, v0, t),
        vynechana_t(skola, st, t) ==> v1.len() == v0.len() + 1 && v1 == v0.push(v1.last()) && v1.last()@ == skola.tridy@[t].id@,
        !vynechana_t(skola, st, t) ==> v1 == v0,
    ensures
        vynechane_do(skola, st, v1, t + 1),
{
    assert forall|k: int| 0 <= k < v1.len() implies id_vynechane_do(skola, st, (#[trigger] v1[k])@, t + 1) by {
        if k < v0.len() {
            assert(v1[k] == v0[k]);
            assert(id_vynechane_do(skola, st, v0[k]@, t));
        } else {
            assert(skola.tridy@[t].id@ == v1[k]@);
        }
    }
    assert forall|a: int| 0 <= a < t + 1 && #[trigger] vynechana_t(skola, st, a) implies crate::data::retezce(v1).contains(skola.tridy@[a].id@) by {
        if a < t {
            assert(crate::data::retezce(v0).contains(skola.tridy@[a].id@));
            let k = choose|k: int| 0 <= k < crate::data::retezce(v0).len() && crate::data::retezce(v0)[k] == skola.tridy@[a].id@;
            assert(v1[k] == v0[k]);
            assert(crate::data::retezce(v1)[k] == skola.tridy@[a].id@);
        } else {
            assert(crate::data::retezce(v1)[v0.len() as int] == skola.tridy@[a].id@);
        }
    }
}

/// Žák při stavbě lekcí jako člen třídy.
spec fn clen_zk(z: Zk) -> Clen {
    (z.id, z.aj, z.poh)
}

proof fn lemma_tridy_se_zastupci(skola: Skola, st: Seq<Student>, t: int)
    requires
        t >= 0,
    ensures
        tridy_se_zastupci(skola, st, t) <= t,
    decreases t,
{
    if t > 0 {
        lemma_tridy_se_zastupci(skola, st, t - 1);
    }
}

/// Zástupný žák prázdné vstupní třídy.
fn pridej_zastupce(
    v: &mut Vec<Zk>,
    id: u32,
    aj: SkupinaAj,
    poh: Pohlavi,
    trida: &String,
    zaci_tridy: &mut BTreeMap<u32, String>,
    virtualni: &mut Vec<u32>,
)
    ensures
        final(v)@ == old(v)@.push(Zk { id, aj, poh }),
        final(virtualni)@ == old(virtualni)@.push(id),
        final(zaci_tridy)@ == old(zaci_tridy)@.insert(id, *trida),
{
    v.push(Zk { id, aj, poh });
    crate::podle_id::vloz_zaka(zaci_tridy, id, trida.clone());
    virtualni.push(id);
}

/// Varování o třídě bez žáků, která se z rozvrhu vynechává.
pub open spec fn text_prazdne_tridy(t: crate::data::Trida) -> Seq<char> {
    "Třída "@ + t.nazev@ + " nemá žádné žáky – vynechána z rozvrhu (dobíhající třída?)."@
}

/// `b` začíná posloupností `a` (dřívější texty zůstaly na svých místech).
pub open spec fn zacina_na(a: Seq<String>, b: Seq<String>) -> bool {
    b.len() >= a.len() && forall|j: int| 0 <= j < a.len() ==> #[trigger] b[j] == a[j]
}

/// Mezi prvními `n` žáky je žák v rozvrhu se známou třídou a s id `z`.
pub open spec fn zak_v_rozvrhu(skola: Skola, st: Seq<Student>, n: int, z: u32) -> bool {
    exists|k: int|
        0 <= k < n && (#[trigger] st[k]).id == z && st[k].spec_v_rozvrhu() && index_tridy(skola.tridy@, st[k].trida@) >= 0
}

/// Žáci v rozvrhu rozdělení podle tříd školy (v pořadí `skola.tridy`); prázdné vstupní
/// třídy dostanou čtyři zástupné žáky, ostatní prázdné třídy se vynechají (jejich id
/// jsou ve druhé složce výsledku).
fn zaci_podle_trid(
    skola: &Skola,
    rok: &SkolniRok,
    varovani: &mut Vec<String>,
    zaci_tridy: &mut BTreeMap<u32, String>,
    virtualni: &mut Vec<u32>,
) -> (r: (Vec<Vec<Zk>>, Vec<String>))
    requires
        skola.tridy@.len() < 0x1000_0000,
        old(virtualni)@.len() == 0,
    ensures
        r.0@.len() == skola.tridy@.len(),
        forall|t: int, k: int|
            0 <= t < r.0@.len() && 0 <= k < r.0@[t]@.len() ==> final(zaci_tridy)@.contains_key(
                (#[trigger] r.0@[t]@[k]).id,
            ),
        forall|k: int| 0 <= k < final(virtualni)@.len() ==> final(zaci_tridy)@.contains_key(#[trigger] final(virtualni)@[k]),
        forall|z: u32| old(zaci_tridy)@.contains_key(z) ==> #[trigger] final(zaci_tridy)@.contains_key(z),
        forall|k: int|
            0 <= k < rok.studenti@.len() && (#[trigger] rok.studenti@[k]).spec_v_rozvrhu() && index_tridy(
                skola.tridy@,
                rok.studenti@[k].trida@,
            ) >= 0 ==> final(zaci_tridy)@.contains_key(rok.studenti@[k].id),
        forall|t: int| 0 <= t < r.0@.len() ==> (#[trigger] r.0@[t])@.map_values(|z: Zk| clen_zk(z)) == clenove_tridy(*skola, rok.studenti@, t),
        forall|id: Seq<char>| #[trigger] crate::data::retezce(r.1@).contains(id) <==> vynechana(*skola, rok.studenti@, id),
        forall|z: u32|
            #[trigger] final(zaci_tridy)@.contains_key(z) <==> old(zaci_tridy)@.contains_key(z) || zak_v_rozvrhu(
                *skola,
                rok.studenti@,
                rok.studenti@.len() as int,
                z,
            ) || final(virtualni)@.contains(z),
        final(virtualni)@.len() == 4 * tridy_se_zastupci(*skola, rok.studenti@, skola.tridy@.len() as int),
        forall|t: int|
            0 <= t < skola.tridy@.len() && vynechana_t(*skola, rok.studenti@, t) ==> crate::validation::hlasi(
                final(varovani)@,
                text_prazdne_tridy(#[trigger] skola.tridy@[t]),
            ),
{
    let n_t = skola.tridy.len();
    let ghost zt0 = zaci_tridy@;
    let ghost vi0 = virtualni@;
    let mut tr_zaka: Vec<Option<usize>> = Vec::new();
    let mut i: usize = 0;
    while i < rok.studenti.len()
        invariant
            i <= rok.studenti@.len(),
            n_t == skola.tridy@.len(),
            tr_zaka@.len() == i,
            virtualni@ == vi0,
            forall|z: u32| zt0.contains_key(z) ==> #[trigger] zaci_tridy@.contains_key(z),
            forall|k: int| 0 <= k < i ==> match #[trigger] tr_zaka@[k] {
                Some(t) => t < n_t && zaci_tridy@.contains_key(rok.studenti@[k].id),
                None => true,
            },
            forall|k: int|
                0 <= k < i && rok.studenti@[k].spec_v_rozvrhu() && index_tridy(skola.tridy@, rok.studenti@[k].trida@)
                    >= 0 ==> (#[trigger] tr_zaka@[k]).is_some(),
            forall|k: int| 0 <= k < i ==> match #[trigger] tr_zaka@[k] {
                Some(t) => zak_tridy(*skola, t as int)(rok.studenti@[k]),
                None => !rok.studenti@[k].spec_v_rozvrhu() || index_tridy(skola.tridy@, rok.studenti@[k].trida@) < 0,
            },
            forall|z: u32| #[trigger] zaci_tridy@.contains_key(z) <==> zt0.contains_key(z) || zak_v_rozvrhu(*skola, rok.studenti@, i as int, z),
        decreases rok.studenti@.len() - i,
    {
        let s = &rok.studenti[i];
        if !s.v_rozvrhu() {
            tr_zaka.push(None);
        } else {
            match skola.pozice_tridy(s.trida.as_str()) {
                None => {
                    varovani.push(crate::text::spoj(&["Žák ", s.jmeno.as_str(), " má neznámou třídu „", s.trida.as_str(), "“ – vynechán."]));
                    tr_zaka.push(None);
                },
                Some(t) => {
                    tr_zaka.push(Some(t));
                    crate::podle_id::vloz_zaka(zaci_tridy, s.id, s.trida.clone());
                },
            }
        }
        proof {
            assert forall|z: u32| #[trigger] zaci_tridy@.contains_key(z) <==> zt0.contains_key(z) || zak_v_rozvrhu(*skola, rok.studenti@, i + 1, z) by {
                if zak_v_rozvrhu(*skola, rok.studenti@, i + 1, z) && !zak_v_rozvrhu(*skola, rok.studenti@, i as int, z) {
                    let k = choose|k: int|
                        0 <= k < i + 1 && (#[trigger] rok.studenti@[k]).id == z && rok.studenti@[k].spec_v_rozvrhu() && index_tridy(skola.tridy@, rok.studenti@[k].trida@) >= 0;
                    assert(k == i);
                    assert(tr_zaka@[k].is_some());
                }
                if zak_v_rozvrhu(*skola, rok.studenti@, i as int, z) {
                    let k = choose|k: int|
                        0 <= k < i && (#[trigger] rok.studenti@[k]).id == z && rok.studenti@[k].spec_v_rozvrhu() && index_tridy(skola.tridy@, rok.studenti@[k].trida@) >= 0;
                    assert(zak_v_rozvrhu(*skola, rok.studenti@, i + 1, z));
                }
                if tr_zaka@[i as int].is_some() {
                    assert(rok.studenti@[i as int].id == s.id);
                }
            }
        }
        i = i + 1;
    }
    let vstupni = skola.vstupni_tridy();
    let mut vynechane: Vec<String> = Vec::new();
    let mut podle: Vec<Vec<Zk>> = Vec::new();
    let mut vid: u32 = u32::MAX;
    let mut t: usize = 0;
    while t < n_t
        invariant
            t <= n_t,
            n_t == skola.tridy@.len(),
            n_t < 0x1000_0000,
            tr_zaka@.len() == rok.studenti@.len(),
            podle@.len() == t,
            vid >= u32::MAX - 4 * t,
            forall|z: u32| zt0.contains_key(z) ==> #[trigger] zaci_tridy@.contains_key(z),
            forall|k: int| 0 <= k < rok.studenti@.len() ==> match #[trigger] tr_zaka@[k] {
                Some(x) => x < n_t && zaci_tridy@.contains_key(rok.studenti@[k].id),
                None => true,
            },
            forall|k: int|
                0 <= k < rok.studenti@.len() && rok.studenti@[k].spec_v_rozvrhu() && index_tridy(skola.tridy@, rok.studenti@[k].trida@)
                    >= 0 ==> (#[trigger] tr_zaka@[k]).is_some(),
            forall|a: int, k: int|
                0 <= a < podle@.len() && 0 <= k < podle@[a]@.len() ==> zaci_tridy@.contains_key((#[trigger] podle@[a]@[k]).id),
            forall|k: int| 0 <= k < virtualni@.len() ==> zaci_tridy@.contains_key(#[trigger] virtualni@[k]),
            forall|k: int| 0 <= k < rok.studenti@.len() ==> match #[trigger] tr_zaka@[k] {
                Some(x) => zak_tridy(*skola, x as int)(rok.studenti@[k]),
                None => !rok.studenti@[k].spec_v_rozvrhu() || index_tridy(skola.tridy@, rok.studenti@[k].trida@) < 0,
            },
            vstupni@.map_values(|s: String| s@) == skola.tridy@.filter(|x: crate::data::Trida| crate::data::je_vstupni(skola.tridy@, x)).map_values(
                |x: crate::data::Trida| x.id@,
            ),
            vid == u32::MAX - 4 * tridy_se_zastupci(*skola, rok.studenti@, t as int),
            forall|a: int| 0 <= a < t ==> (#[trigger] podle@[a])@.map_values(|z: Zk| clen_zk(z)) == clenove_tridy(*skola, rok.studenti@, a),
            vynechane_do(*skola, rok.studenti@, vynechane@, t as int),
            forall|z: u32|
                #[trigger] zaci_tridy@.contains_key(z) <==> zt0.contains_key(z) || zak_v_rozvrhu(*skola, rok.studenti@, rok.studenti@.len() as int, z)
                    || virtualni@.contains(z),
            virtualni@.len() == 4 * tridy_se_zastupci(*skola, rok.studenti@, t as int),
            forall|a: int|
                0 <= a < t && vynechana_t(*skola, rok.studenti@, a) ==> crate::validation::hlasi(varovani@, text_prazdne_tridy(#[trigger] skola.tridy@[a])),
        decreases n_t - t,
    {
        let tr = &skola.tridy[t];
        let mut v: Vec<Zk> = Vec::new();
        let mut k: usize = 0;
        while k < tr_zaka.len()
            invariant
                k <= tr_zaka@.len(),
                tr_zaka@.len() == rok.studenti@.len(),
                forall|x: int| 0 <= x < rok.studenti@.len() ==> match #[trigger] tr_zaka@[x] {
                    Some(y) => y < n_t && zaci_tridy@.contains_key(rok.studenti@[x].id),
                    None => true,
                },
                forall|a: int| 0 <= a < v@.len() ==> zaci_tridy@.contains_key((#[trigger] v@[a]).id),
                forall|x: int| 0 <= x < rok.studenti@.len() ==> match #[trigger] tr_zaka@[x] {
                    Some(y) => zak_tridy(*skola, y as int)(rok.studenti@[x]),
                    None => !rok.studenti@[x].spec_v_rozvrhu() || index_tridy(skola.tridy@, rok.studenti@[x].trida@) < 0,
                },
                t < n_t,
                v@.map_values(|z: Zk| clen_zk(z)) == rok.studenti@.take(k as int).filter(zak_tridy(*skola, t as int)).map_values(
                    |s: Student| (s.id, s.skupina_aj, s.pohlavi),
                ),
            decreases tr_zaka@.len() - k,
        {
            let ghost st = rok.studenti@;
            let ghost pt = zak_tridy(*skola, t as int);
            let ghost v0 = v@;
            proof {
                assert(st.take(k + 1) =~= st.take(k as int).push(st[k as int]));
                st.take(k as int).lemma_filter_push(st[k as int], pt);
            }
            match tr_zaka[k] {
                Some(x) => {
                    if x == t {
                        let s = &rok.studenti[k];
                        v.push(Zk { id: s.id, aj: s.skupina_aj, poh: s.pohlavi });
                        proof {
                            assert(v@.map_values(|z: Zk| clen_zk(z)) =~= v0.map_values(|z: Zk| clen_zk(z)).push(clen_zk(v@.last())));
                        }
                    } else {
                        proof {
                            assert(!pt(st[k as int]));
                        }
                    }
                },
                None => {
                    proof {
                        assert(!pt(st[k as int]));
                    }
                },
            }
            k = k + 1;
        }
        proof {
            assert(rok.studenti@.take(rok.studenti@.len() as int) =~= rok.studenti@);
            assert(v@.map_values(|z: Zk| clen_zk(z)) == skutecni_clenove(*skola, rok.studenti@, t as int));
            assert(crate::data::retezce(vstupni@) =~= vstupni@.map_values(|s: String| s@));
            assert(*tr == skola.tridy@[t as int]);
        }
        let ghost vs = v@;
        let ghost vy0 = vynechane@;
        if v.len() == 0 {
            if !crate::rok::obsahuje(&vstupni, tr.id.as_str()) {
                let casti = ["Třída ", tr.nazev.as_str(), " nemá žádné žáky – vynechána z rozvrhu (dobíhající třída?)."];
                let text = crate::text::spoj(&casti);
                proof {
                    let c = casti@.map_values(|x: &str| x@);
                    assert(c =~= seq!["Třída "@, tr.nazev@, " nemá žádné žáky – vynechána z rozvrhu (dobíhající třída?)."@]);
                    reveal_with_fuel(crate::text::spojeni, 4);
                    assert(text@ =~= text_prazdne_tridy(skola.tridy@[t as int]));
                }
                let ghost w0 = varovani@;
                varovani.push(text);
                proof {
                    assert forall|a: int|
                        0 <= a < t + 1 && vynechana_t(*skola, rok.studenti@, a) implies crate::validation::hlasi(varovani@, text_prazdne_tridy(#[trigger] skola.tridy@[a])) by {
                        if a < t {
                            crate::validation::lemma_hlasi_push(w0, varovani@.last(), text_prazdne_tridy(skola.tridy@[a]));
                            assert(varovani@ == w0.push(varovani@.last()));
                        } else {
                            assert(varovani@[w0.len() as int]@ == text_prazdne_tridy(skola.tridy@[a]));
                        }
                    }
                }
                vynechane.push(tr.id.clone());
            } else {
                let ghost w0 = varovani@;
                varovani.push(crate::text::spoj(&["Vstupní třída ", tr.nazev.as_str(), " zatím nemá žáky – pro plánování použiti 4 zástupní žáci."]));
                proof {
                    assert forall|a: int|
                        0 <= a < t && vynechana_t(*skola, rok.studenti@, a) implies crate::validation::hlasi(varovani@, text_prazdne_tridy(#[trigger] skola.tridy@[a])) by {
                        crate::validation::lemma_hlasi_push(w0, varovani@.last(), text_prazdne_tridy(skola.tridy@[a]));
                        assert(varovani@ == w0.push(varovani@.last()));
                    }
                }
                let ghost zb = zaci_tridy@;
                let ghost vb = virtualni@;
                pridej_zastupce(&mut v, vid, SkupinaAj::A, Pohlavi::D, &tr.id, zaci_tridy, virtualni);
                pridej_zastupce(&mut v, vid - 1, SkupinaAj::A, Pohlavi::CH, &tr.id, zaci_tridy, virtualni);
                pridej_zastupce(&mut v, vid - 2, SkupinaAj::B, Pohlavi::D, &tr.id, zaci_tridy, virtualni);
                pridej_zastupce(&mut v, vid - 3, SkupinaAj::B, Pohlavi::CH, &tr.id, zaci_tridy, virtualni);
                proof {
                    assert(virtualni@ == vb.push(vid).push((vid - 1) as u32).push((vid - 2) as u32).push((vid - 3) as u32));
                    assert forall|z: u32|
                        #[trigger] zaci_tridy@.contains_key(z) <==> zt0.contains_key(z) || zak_v_rozvrhu(*skola, rok.studenti@, rok.studenti@.len() as int, z)
                            || virtualni@.contains(z) by {
                        if vb.contains(z) {
                            let k = choose|k: int| 0 <= k < vb.len() && vb[k] == z;
                            assert(virtualni@[k] == z);
                        }
                        if virtualni@.contains(z) {
                            let k = choose|k: int| 0 <= k < virtualni@.len() && virtualni@[k] == z;
                            if k < vb.len() {
                                assert(vb[k] == z);
                            }
                        }
                        if z == vid {
                            assert(virtualni@[vb.len() as int] == z);
                        }
                        if z == vid - 1 {
                            assert(virtualni@[vb.len() as int + 1] == z);
                        }
                        if z == vid - 2 {
                            assert(virtualni@[vb.len() as int + 2] == z);
                        }
                        if z == vid - 3 {
                            assert(virtualni@[vb.len() as int + 3] == z);
                        }
                    }
                }
                vid = vid - 4;
                proof {
                    assert forall|z: u32| zb.contains_key(z) implies #[trigger] zaci_tridy@.contains_key(z) by {}
                    assert(se_zastupci(*skola, rok.studenti@, t as int));
                    assert(v@.map_values(|z: Zk| clen_zk(z)) =~= clenove_tridy(*skola, rok.studenti@, t as int));
                }
            }
        }
        proof {
            if vs.len() > 0 || !vstupni_t(*skola, t as int) {
                assert(!se_zastupci(*skola, rok.studenti@, t as int));
            }
            assert(v@.map_values(|z: Zk| clen_zk(z)) == clenove_tridy(*skola, rok.studenti@, t as int));
            assert(tridy_se_zastupci(*skola, rok.studenti@, t + 1) == tridy_se_zastupci(*skola, rok.studenti@, t as int) + if se_zastupci(*skola, rok.studenti@, t as int) {
                1nat
            } else {
                0nat
            });
        }
        proof {
            if vynechana_t(*skola, rok.studenti@, t as int) {
                assert(vynechane@ == vy0.push(vynechane@.last()));
            } else {
                assert(vynechane@ == vy0);
            }
            lemma_vynechane_krok(*skola, rok.studenti@, vy0, vynechane@, t as int);
        }
        let ghost p0 = podle@;
        podle.push(v);
        proof {
            assert forall|a: int, k: int|
                0 <= a < podle@.len() && 0 <= k < podle@[a]@.len() implies zaci_tridy@.contains_key((#[trigger] podle@[a]@[k]).id) by {
                if a < t {
                    assert(podle@[a] == p0[a]);
                }
            }
            assert forall|a: int| 0 <= a < t + 1 implies (#[trigger] podle@[a])@.map_values(|z: Zk| clen_zk(z)) == clenove_tridy(*skola, rok.studenti@, a) by {
                if a < t {
                    assert(podle@[a] == p0[a]);
                }
            }
            if vynechana_t(*skola, rok.studenti@, t as int) {
                assert(vynechane@ == vy0.push(vynechane@.last()));
            }
        }
        t = t + 1;
    }
    proof {
        assert forall|k: int|
            0 <= k < rok.studenti@.len() && (#[trigger] rok.studenti@[k]).spec_v_rozvrhu() && index_tridy(
                skola.tridy@,
                rok.studenti@[k].trida@,
            ) >= 0 implies zaci_tridy@.contains_key(rok.studenti@[k].id) by {
            assert(tr_zaka@[k].is_some());
        }
        assert forall|id: Seq<char>| #[trigger] crate::data::retezce(vynechane@).contains(id) <==> vynechana(*skola, rok.studenti@, id) by {
            assert(vynechane_do(*skola, rok.studenti@, vynechane@, n_t as int));
            if crate::data::retezce(vynechane@).contains(id) {
                let k = choose|k: int| 0 <= k < crate::data::retezce(vynechane@).len() && crate::data::retezce(vynechane@)[k] == id;
                assert(vynechane@[k]@ == id);
                assert(id_vynechane_do(*skola, rok.studenti@, vynechane@[k]@, n_t as int));
            }
            if vynechana(*skola, rok.studenti@, id) {
                let a = choose|a: int| 0 <= a < skola.tridy@.len() && skola.tridy@[a].id@ == id && #[trigger] vynechana_t(*skola, rok.studenti@, a);
                assert(crate::data::retezce(vynechane@).contains(skola.tridy@[a].id@));
            }
        }
    }
    (podle, vynechane)
}

/// Rozpracované lekce: každá je platná a má předběžné číslo jednotky menší než `pocet`;
/// páry L/S jsou v pořádku.
pub open spec fn rozpracovane(lekce: Seq<LekceInfo>, zt: Map<u32, String>, pocet: int) -> bool {
    &&& forall|i: int| 0 <= i < lekce.len() ==> lekce_platna(#[trigger] lekce[i], zt) && lekce[i].jednotka < pocet
    &&& pary_platne(lekce)
}

/// Přidání lekce bez páru zachová rozpracovanost.
proof fn lemma_pridana(a: Seq<LekceInfo>, b: Seq<LekceInfo>, zt: Map<u32, String>, pocet: int)
    requires
        rozpracovane(a, zt, pocet),
        b.len() == a.len() + 1,
        b.take(a.len() as int) == a,
        lekce_platna(b.last(), zt),
        b.last().jednotka < pocet,
        b.last().par.is_none(),
    ensures
        rozpracovane(b, zt, pocet),
{
    assert forall|i: int| 0 <= i < a.len() implies #[trigger] b[i] == a[i] by {
        assert(b.take(a.len() as int)[i] == b[i]);
    }
    assert forall|i: int| 0 <= i < b.len() implies #[trigger] par_ok(b, i) by {
        if i < a.len() {
            assert(par_ok(a, i));
        }
    }
}

/// Spárování dvou nových lekcí (lichý a sudý týden) zachová rozpracovanost.
proof fn lemma_sparovane(a: Seq<LekceInfo>, b: Seq<LekceInfo>, zt: Map<u32, String>, pocet: int, x: usize, y: usize)
    requires
        rozpracovane(a, zt, pocet),
        x < a.len(),
        y < a.len(),
        x != y,
        a[x as int].par.is_none(),
        a[y as int].par.is_none(),
        a[x as int].tyden == Tyden::L,
        a[y as int].tyden == Tyden::S,
        a[x as int].jednotka == a[y as int].jednotka,
        b == a.update(x as int, LekceInfo { par: Some(y), ..a[x as int] }).update(y as int, LekceInfo { par: Some(x), ..a[y as int] }),
    ensures
        rozpracovane(b, zt, pocet),
{
    assert(b[x as int].par == Some(y) && b[y as int].par == Some(x));
    assert(b[x as int].tyden == Tyden::L && b[y as int].tyden == Tyden::S);
    assert forall|i: int| 0 <= i < b.len() implies #[trigger] par_ok(b, i) by {
        if i == x {
        } else if i == y {
        } else {
            assert(b[i] == a[i]);
            assert(par_ok(a, i));
            match a[i].par {
                Some(p) => {
                    assert(a[p as int].par == Some(i as usize));
                    assert(p != x && p != y);
                },
                None => {},
            }
        }
    }
    assert forall|i: int| 0 <= i < b.len() implies lekce_platna(#[trigger] b[i], zt) && b[i].jednotka < pocet by {
        assert(lekce_platna(a[i], zt));
        assert(b[i].zaci == a[i].zaci && b[i].len == a[i].len && b[i].jednotka == a[i].jednotka);
    }
}

/// Výběr žáků skupiny.
#[derive(Clone, Copy)]
enum Vyber {
    Vsichni,
    Aj(SkupinaAj),
    Poh(Pohlavi),
}

/// Podmínka výběru na členech třídy.
spec fn podminka_vyberu(v: Vyber) -> spec_fn(Clen) -> bool {
    match v {
        Vyber::Vsichni => kazdy(),
        Vyber::Aj(g) => ve_skupine_aj(g),
        Vyber::Poh(g) => pohlavi_clena(g),
    }
}

spec fn vybran(z: Zk, v: Vyber) -> bool {
    match v {
        Vyber::Vsichni => true,
        Vyber::Aj(g) => z.aj == g,
        Vyber::Poh(g) => z.poh == g,
    }
}

/// Id vybraných žáků v pořadí.
fn vyber_zaky(zaci: &Vec<Zk>, v: Vyber, Ghost(zt): Ghost<Map<u32, String>>) -> (r: Vec<u32>)
    requires
        forall|k: int| 0 <= k < zaci@.len() ==> zt.contains_key((#[trigger] zaci@[k]).id),
    ensures
        r@ == zaci@.filter(|z: Zk| vybran(z, v)).map_values(|z: Zk| z.id),
        r@ == ids_clenu(zaci@.map_values(|z: Zk| clen_zk(z)), podminka_vyberu(v)),
        forall|k: int| 0 <= k < r@.len() ==> zt.contains_key(#[trigger] r@[k]),
{
    let ghost p = |z: Zk| vybran(z, v);
    let ghost pc = podminka_vyberu(v);
    let mut r: Vec<u32> = Vec::new();
    let mut i: usize = 0;
    while i < zaci.len()
        invariant
            i <= zaci@.len(),
            p == (|z: Zk| vybran(z, v)),
            forall|k: int| 0 <= k < zaci@.len() ==> zt.contains_key((#[trigger] zaci@[k]).id),
            r@ == zaci@.take(i as int).filter(p).map_values(|z: Zk| z.id),
            pc == podminka_vyberu(v),
            r@ == ids_clenu(zaci@.take(i as int).map_values(|z: Zk| clen_zk(z)), pc),
            forall|k: int| 0 <= k < r@.len() ==> zt.contains_key(#[trigger] r@[k]),
        decreases zaci@.len() - i,
    {
        let z = &zaci[i];
        let bere = match v {
            Vyber::Vsichni => true,
            Vyber::Aj(g) => z.aj == g,
            Vyber::Poh(g) => z.poh == g,
        };
        let ghost r0 = r@;
        let ghost cz = zaci@.take(i as int).map_values(|z: Zk| clen_zk(z));
        proof {
            assert(zaci@.take(i + 1) =~= zaci@.take(i as int).push(*z));
            zaci@.take(i as int).lemma_filter_push(*z, p);
            assert(zaci@.take(i + 1).map_values(|z: Zk| clen_zk(z)) =~= cz.push(clen_zk(*z)));
            cz.lemma_filter_push(clen_zk(*z), pc);
            assert(pc(clen_zk(*z)) == bere);
        }
        if bere {
            r.push(z.id);
            proof {
                assert(zaci@.take(i as int).filter(p).push(*z).map_values(|z: Zk| z.id) =~= r0.push(z.id));
                assert(cz.filter(pc).push(clen_zk(*z)).map_values(|x: Clen| x.0) =~= r0.push(z.id));
            }
        }
        i = i + 1;
    }
    proof {
        assert(zaci@.take(zaci@.len() as int) =~= zaci@);
    }
    r
}

/// Nová lekce z učebního plánu.
fn nova_planu(
    predmet: &str,
    ucitel: &str,
    tridy: &Vec<String>,
    skupina: &str,
    klic_sk: &str,
    zaci: Vec<u32>,
    tyden: Tyden,
    len: u8,
    zakl: &str,
    o: usize,
) -> (n: Nova)
    ensures
        n.zaci@ == zaci@,
        n.len == len,
        n.tyden == tyden,
        n.tridy@ == tridy@,
        n.predmet@ == predmet@,
        n.ucitel@ == ucitel@,
        n.skupina@ == skupina@,
        !n.dopoledne,
        n.menu.is_none(),
        n.klic@ == klic_planu(zakl@, klic_sk@, o as nat),
        n.klic_predmetu@ == klic_predmetu_planu(zakl@, skupina@),
{
    let poradi = cislo(o as u64);
    let casti_k = ["P|", zakl, "|", klic_sk, "|", poradi.as_str()];
    let klic = crate::text::spoj(&casti_k);
    let casti_p = ["P|", zakl, "|", skupina];
    let klic_predmetu = crate::text::spoj(&casti_p);
    proof {
        assert(casti_k@.map_values(|x: &str| x@) =~= seq!["P|"@, zakl@, "|"@, klic_sk@, "|"@, poradi@]);
        assert(casti_p@.map_values(|x: &str| x@) =~= seq!["P|"@, zakl@, "|"@, skupina@]);
        reveal_with_fuel(crate::text::spojeni, 7);
        assert(klic@ =~= klic_planu(zakl@, klic_sk@, o as nat));
        assert(klic_predmetu@ =~= klic_predmetu_planu(zakl@, skupina@));
    }
    Nova {
        predmet: predmet.to_owned(),
        ucitel: ucitel.to_owned(),
        tridy: crate::data::kopie_retezcu(tridy),
        skupina: skupina.to_owned(),
        zaci,
        len,
        klic,
        klic_predmetu,
        tyden,
        dopoledne: false,
        menu: None,
    }
}

/// Klíč skupiny `j`-té části řádku plánu se strukturou `s` (část klíče lekce).
pub open spec fn klic_skupiny(s: Struktura, j: int) -> Seq<char> {
    match s {
        Struktura::CelouTridou(_) => ""@,
        Struktura::Rozdeleno { .. } => if j == 0 {
            "AJa"@
        } else {
            "AJb"@
        },
        Struktura::Pohlavi { .. } => if j == 0 {
            "D"@
        } else {
            "CH"@
        },
        Struktura::Stridave { .. } => if j == 0 {
            "L"@
        } else {
            "S"@
        },
        Struktura::StridaveSkupiny { .. } => seq!["AJa-L"@, "AJa-S"@, "AJb-L"@, "AJb-S"@][j],
    }
}

/// Hodnota počítadla pod klíčem `z` (0, když klíč chybí).
pub open spec fn pocitadlo(m: Mapa<usize>, z: Seq<char>) -> int {
    if m.ma(z) {
        m.hodnota(z) as int
    } else {
        0
    }
}

/// Počet lekcí (položek rozpisu hodin) řádků plánu před řádkem `r`, které jdou do rozvrhu
/// a mají základ klíče `z`: pořadové číslo první lekce dalšího řádku s tím základem.
pub open spec fn drive_radku(skola: Skola, st: Seq<Student>, r: int, z: Seq<char>) -> int
    decreases r,
{
    if r <= 0 {
        0
    } else {
        drive_radku(skola, st, r - 1, z) + if radek_v_rozvrhu(skola, st, skola.plan@[r - 1]) && zaklad_klice(skola.plan@[r - 1]) == z {
            rozpis_spec(skola.plan@[r - 1].hodin, skola.plan@[r - 1].dvoj).len() as int
        } else {
            0
        }
    }
}

/// Základ klíče řádku plánu: třída a předmět.
pub open spec fn zaklad_klice(ph: crate::data::PlanovaHodina) -> Seq<char> {
    ph.trida@ + "|"@ + ph.predmet@
}

/// Klíč lekce z plánu: základ, klíč skupiny a pořadové číslo lekce se stejným základem.
pub open spec fn klic_planu(zakl: Seq<char>, sk: Seq<char>, o: nat) -> Seq<char> {
    "P|"@ + zakl + "|"@ + sk + "|"@ + crate::text::desitkove(o)
}

/// Klíč předmětu lekce z plánu: základ a skupina.
pub open spec fn klic_predmetu_planu(zakl: Seq<char>, skupina: Seq<char>) -> Seq<char> {
    "P|"@ + zakl + "|"@ + skupina
}

/// Lekce z řádku plánu `ph` pro třídu s členy `c`.
spec fn z_radku(ph: crate::data::PlanovaHodina, c: Seq<Clen>, l: LekceInfo) -> bool {
    &&& exists|sk: Seq<char>, o: nat| #[trigger] klic_planu(zaklad_klice(ph), sk, o) == l.klic@
    &&& l.klic_predmetu@ == klic_predmetu_planu(zaklad_klice(ph), l.skupina@)
    &&& crate::data::retezce(l.tridy@) == seq![ph.trida@]
    &&& rozpis_spec(ph.hodin, ph.dvoj).contains(l.len)
    &&& l.menu.is_none()
    &&& !l.dopoledne
    &&& cast_planu(ph, c, l)
}

/// Připojené lekce s obsahem jedné ze dvou nových lekcí z řádku plánu rozšíří lekce
/// z řádku.
proof fn lemma_pridane_z_radku(
    l_in: Seq<LekceInfo>,
    lp: Seq<LekceInfo>,
    ln: Seq<LekceInfo>,
    ph: crate::data::PlanovaHodina,
    c: Seq<Clen>,
    n1: Nova,
    n2: Nova,
)
    requires
        lp.len() >= l_in.len(),
        lp.take(l_in.len() as int) == l_in,
        forall|i: int| l_in.len() <= i < lp.len() ==> z_radku(ph, c, #[trigger] lp[i]),
        ln.len() >= lp.len(),
        ln.take(lp.len() as int) == lp,
        forall|i: int| lp.len() <= i < ln.len() ==> obsah_nove(#[trigger] ln[i], n1) || obsah_nove(ln[i], n2),
        forall|l: LekceInfo| obsah_nove(l, n1) ==> z_radku(ph, c, l),
        forall|l: LekceInfo| obsah_nove(l, n2) ==> z_radku(ph, c, l),
    ensures
        ln.take(l_in.len() as int) == l_in,
        forall|i: int| l_in.len() <= i < ln.len() ==> z_radku(ph, c, #[trigger] ln[i]),
{
    assert(ln.take(l_in.len() as int) =~= l_in) by {
        assert forall|x: int| 0 <= x < l_in.len() implies ln.take(l_in.len() as int)[x] == l_in[x] by {
            assert(ln.take(lp.len() as int)[x] == lp[x]);
            assert(lp.take(l_in.len() as int)[x] == l_in[x]);
        }
    }
    assert forall|i: int| l_in.len() <= i < ln.len() implies z_radku(ph, c, #[trigger] ln[i]) by {
        if i < lp.len() {
            assert(ln.take(lp.len() as int)[i] == lp[i]);
        } else {
            assert(obsah_nove(ln[i], n1) || obsah_nove(ln[i], n2));
        }
    }
}

/// Úplné páry zůstanou úplné po připojení lekcí s úplnými páry.
proof fn lemma_pary_trvaji(od: int, a: Seq<LekceInfo>, b: Seq<LekceInfo>)
    requires
        0 <= od <= a.len() <= b.len(),
        b.take(a.len() as int) == a,
        pary_uplne(a, od),
        pary_uplne(b, a.len() as int),
    ensures
        pary_uplne(b, od),
{
    assert forall|i: int| od <= i < b.len() && (#[trigger] b[i]).tyden != Tyden::Oba implies b[i].par.is_some() by {
        if i < a.len() {
            assert(b.take(a.len() as int)[i] == b[i]);
        }
    }
}

/// Prodloužení zachová předponu.
proof fn lemma_predpona<A>(a: Seq<A>, b: Seq<A>, c: Seq<A>)
    requires
        b.len() >= a.len(),
        b.take(a.len() as int) == a,
        c.len() >= b.len(),
        c.take(b.len() as int) == b,
    ensures
        c.take(a.len() as int) == a,
{
    assert(c.take(a.len() as int) =~= a) by {
        assert forall|x: int| 0 <= x < a.len() implies c.take(a.len() as int)[x] == a[x] by {
            assert(c.take(b.len() as int)[x] == b[x]);
            assert(b.take(a.len() as int)[x] == a[x]);
        }
    }
}

/// Lekce částí řádku plánu zůstanou v prodloužených lekcích.
proof fn lemma_casti_trvaji(ph: crate::data::PlanovaHodina, c: Seq<Clen>, a: Seq<LekceInfo>, b: Seq<LekceInfo>, od: int)
    requires
        0 <= od,
        b.len() >= a.len(),
        b.take(a.len() as int) == a,
    ensures
        forall|j: int, x: int, o0: int| #[trigger] ma_lekci_casti(ph, c, j, x, o0, a, od) ==> ma_lekci_casti(ph, c, j, x, o0, b, od),
{
    assert forall|j: int, x: int, o0: int| #[trigger] ma_lekci_casti(ph, c, j, x, o0, a, od) implies ma_lekci_casti(ph, c, j, x, o0, b, od) by {
        let i = choose|i: int| od <= i < a.len() && lekce_casti_x(ph, c, j, x, o0, #[trigger] a[i]);
        assert(b.take(a.len() as int)[i] == b[i]);
    }
}

/// Lekce od indexu `od`, které jsou jen v lichém nebo jen v sudém týdnu, mají partnera.
pub open spec fn pary_uplne(lekce: Seq<LekceInfo>, od: int) -> bool {
    forall|i: int| od <= i < lekce.len() && (#[trigger] lekce[i]).tyden != Tyden::Oba ==> lekce[i].par.is_some()
}

/// Lekce jedné položky učebního plánu (pro každou délku z rozpisu) s předběžnými jednotkami.
#[verifier::spinoff_prover]
#[verifier::rlimit(30)]
fn lekce_planu(
    skola: &Skola,
    ph: &crate::data::PlanovaHodina,
    zaci: &Vec<Zk>,
    lekce: &mut Vec<LekceInfo>,
    pocet: &mut usize,
    poradi: &mut Mapa<usize>,
    it: &mut usize,
    Ghost(zt): Ghost<Map<u32, String>>,
    Ghost(c): Ghost<Seq<Clen>>,
)
    requires
        rozpracovane(old(lekce)@, zt, *old(pocet) as int),
        *old(pocet) <= old(lekce)@.len(),
        forall|k: int| 0 <= k < zaci@.len() ==> zt.contains_key((#[trigger] zaci@[k]).id),
        old(poradi).dobre(),
        forall|x: Seq<char>| old(poradi).ma(x) ==> old(poradi).hodnota(x) <= *old(it),
        *old(it) + 255 <= usize::MAX,
        zaci@.map_values(|z: Zk| clen_zk(z)) == c,
    ensures
        rozpracovane(final(lekce)@, zt, *final(pocet) as int),
        *final(pocet) <= final(lekce)@.len(),
        final(poradi).dobre(),
        forall|x: Seq<char>| final(poradi).ma(x) ==> final(poradi).hodnota(x) <= *final(it),
        *final(it) <= *old(it) + ph.hodin,
        final(lekce)@.len() >= old(lekce)@.len(),
        final(lekce)@.take(old(lekce)@.len() as int) == old(lekce)@,
        forall|i: int| old(lekce)@.len() <= i < final(lekce)@.len() ==> z_radku(*ph, c, #[trigger] final(lekce)@[i]),
        forall|j: int, x: int|
            0 <= j < casti_radku(*ph, c).len() && 0 <= x < rozpis_spec(ph.hodin, ph.dvoj).len() && casti_radku(*ph, c)[j].4.len() > 0
                ==> #[trigger] ma_lekci_casti(*ph, c, j, x, pocitadlo(*old(poradi), zaklad_klice(*ph)), final(lekce)@, old(lekce)@.len() as int),
        pocitadlo(*final(poradi), zaklad_klice(*ph)) == pocitadlo(*old(poradi), zaklad_klice(*ph)) + rozpis_spec(ph.hodin, ph.dvoj).len(),
        forall|z: Seq<char>| z != zaklad_klice(*ph) ==> pocitadlo(*final(poradi), z) == pocitadlo(*old(poradi), z),
        pary_uplne(final(lekce)@, old(lekce)@.len() as int),
{
    let vsichni = vyber_zaky(zaci, Vyber::Vsichni, Ghost(zt));
    let tridy: Vec<String> = vec![ph.trida.clone()];
    proof {
        assert(crate::data::retezce(tridy@) =~= seq![ph.trida@]);
    }
    let casti_z = [ph.trida.as_str(), "|", ph.predmet.as_str()];
    let zakl = crate::text::spoj(&casti_z);
    proof {
        assert(casti_z@.map_values(|x: &str| x@) =~= seq![ph.trida@, "|"@, ph.predmet@]);
        reveal_with_fuel(crate::text::spojeni, 4);
        assert(zakl@ =~= zaklad_klice(*ph));
    }
    let delky = rozpis(ph.hodin, ph.dvoj);
    let ghost it0 = *it;
    let ghost ob = pocitadlo(*poradi, zakl@);
    let ghost l_in = lekce@;
    let mut q: usize = 0;
    while q < delky.len()
        invariant
            q <= delky@.len(),
            delky@ == rozpis_spec(ph.hodin, ph.dvoj),
            zakl@ == zaklad_klice(*ph),
            ob == pocitadlo(*old(poradi), zakl@),
            pocitadlo(*poradi, zakl@) == ob + q,
            forall|z: Seq<char>| z != zakl@ ==> pocitadlo(*poradi, z) == pocitadlo(*old(poradi), z),
            forall|k: int| 0 <= k < delky@.len() ==> 1 <= #[trigger] delky@[k] <= 2,
            delky@.len() <= ph.hodin,
            *it == it0 + q,
            it0 + 255 <= usize::MAX,
            rozpracovane(lekce@, zt, *pocet as int),
            *pocet <= lekce@.len(),
            forall|k: int| 0 <= k < zaci@.len() ==> zt.contains_key((#[trigger] zaci@[k]).id),
            forall|k: int| 0 <= k < vsichni@.len() ==> zt.contains_key(#[trigger] vsichni@[k]),
            poradi.dobre(),
            forall|x: Seq<char>| poradi.ma(x) ==> poradi.hodnota(x) <= *it,
            zaci@.map_values(|z: Zk| clen_zk(z)) == c,
            crate::data::retezce(tridy@) == seq![ph.trida@],
            l_in == old(lekce)@,
            lekce@.len() >= l_in.len(),
            lekce@.take(l_in.len() as int) == l_in,
            forall|i: int| l_in.len() <= i < lekce@.len() ==> z_radku(*ph, c, #[trigger] lekce@[i]),
            forall|j: int, x: int|
                0 <= j < casti_radku(*ph, c).len() && 0 <= x < q && casti_radku(*ph, c)[j].4.len() > 0
                    ==> #[trigger] ma_lekci_casti(*ph, c, j, x, ob, lekce@, l_in.len() as int),
            pary_uplne(lekce@, l_in.len() as int),
        decreases delky@.len() - q,
    {
        let len = delky[q];
        proof {
            assert(rozpis_spec(ph.hodin, ph.dvoj)[q as int] == len);
        }
        let o: usize = match poradi.get(zakl.as_str()) {
            Some(x) => *x,
            None => 0,
        };
        let ghost it1 = *it;
        *it = *it + 1;
        let ghost por0 = *poradi;
        poradi.insert(zakl.clone(), o + 1);
        proof {
            assert(o == ob + q);
            assert forall|z: Seq<char>| z != zakl@ implies pocitadlo(*poradi, z) == pocitadlo(*old(poradi), z) by {
                assert(pocitadlo(*poradi, z) == pocitadlo(por0, z));
            }
            assert forall|x: Seq<char>| poradi.ma(x) implies poradi.hodnota(x) <= *it by {
                if x != zakl@ {
                    assert(old(poradi).ma(x) || true);
                }
            }
        }
        let ghost lp = lekce@;
        match &ph.struktura {
            Struktura::CelouTridou(u) => {
                let n = nova_planu(ph.predmet.as_str(), u.as_str(), &tridy, "", "", vyber_zaky(zaci, Vyber::Vsichni, Ghost(zt)), Tyden::Oba, len, zakl.as_str(), o);
                let ghost gn = n;
                proof {
                    assert forall|l: LekceInfo| obsah_nove(l, gn) implies z_radku(*ph, c, l) by {
                        assert(lekce_casti(casti_radku(*ph, c)[0], l));
                    }
                }
                self::jednotka_jedne(skola, lekce, pocet, n, Ghost(zt));
                proof {
                    lemma_pridane_z_radku(l_in, lp, lekce@, *ph, c, gn, gn);
                    assert forall|j: int| 0 <= j < casti_radku(*ph, c).len() && casti_radku(*ph, c)[j].4.len() > 0 implies #[trigger] ma_lekci_casti(*ph, c, j, q as int, ob, lekce@, lp.len() as int) by {
                        assert(lekce_casti_x(*ph, c, 0, q as int, ob, lekce@[lp.len() as int]));
                    }
                }
            },
            Struktura::Rozdeleno { a, b } => {
                let na = nova_planu(ph.predmet.as_str(), a.as_str(), &tridy, "AJa", "AJa", vyber_zaky(zaci, Vyber::Aj(SkupinaAj::A), Ghost(zt)), Tyden::Oba, len, zakl.as_str(), o);
                let ghost gna = na;
                proof {
                    assert forall|l: LekceInfo| obsah_nove(l, gna) implies z_radku(*ph, c, l) by {}
                }
                self::jednotka_jedne(skola, lekce, pocet, na, Ghost(zt));
                proof {
                    lemma_pridane_z_radku(l_in, lp, lekce@, *ph, c, gna, gna);
                    if gna.zaci@.len() > 0 {
                        assert(lekce_casti_x(*ph, c, 0, q as int, ob, lekce@[lp.len() as int]));
                        assert(ma_lekci_casti(*ph, c, 0, q as int, ob, lekce@, lp.len() as int));
                    }
                }
                let ghost lp2 = lekce@;
                let nb = nova_planu(ph.predmet.as_str(), b.as_str(), &tridy, "AJb", "AJb", vyber_zaky(zaci, Vyber::Aj(SkupinaAj::B), Ghost(zt)), Tyden::Oba, len, zakl.as_str(), o);
                let ghost gnb = nb;
                proof {
                    assert forall|l: LekceInfo| obsah_nove(l, gnb) implies z_radku(*ph, c, l) by {}
                }
                self::jednotka_jedne(skola, lekce, pocet, nb, Ghost(zt));
                proof {
                    lemma_pridane_z_radku(l_in, lp2, lekce@, *ph, c, gnb, gnb);
                    lemma_predpona(lp, lp2, lekce@);
                    lemma_pary_trvaji(lp.len() as int, lp2, lekce@);
                    lemma_casti_trvaji(*ph, c, lp2, lekce@, lp.len() as int);
                    assert forall|j: int| 0 <= j < casti_radku(*ph, c).len() && casti_radku(*ph, c)[j].4.len() > 0 implies #[trigger] ma_lekci_casti(*ph, c, j, q as int, ob, lekce@, lp.len() as int) by {
                        if j == 0 {
                            assert(ma_lekci_casti(*ph, c, 0, q as int, ob, lp2, lp.len() as int));
                        } else {
                            assert(lekce_casti_x(*ph, c, 1, q as int, ob, lekce@[lp2.len() as int]));
                        }
                    }
                }
            },
            Struktura::Pohlavi { div, chl } => {
                let nd = nova_planu(ph.predmet.as_str(), div.as_str(), &tridy, "D", "D", vyber_zaky(zaci, Vyber::Poh(Pohlavi::D), Ghost(zt)), Tyden::Oba, len, zakl.as_str(), o);
                let nc = nova_planu(ph.predmet.as_str(), chl.as_str(), &tridy, "CH", "CH", vyber_zaky(zaci, Vyber::Poh(Pohlavi::CH), Ghost(zt)), Tyden::Oba, len, zakl.as_str(), o);
                let ghost gnd = nd;
                let ghost gnc = nc;
                proof {
                    assert forall|l: LekceInfo| obsah_nove(l, gnd) implies z_radku(*ph, c, l) by {
                        assert(lekce_casti(casti_radku(*ph, c)[0], l));
                    }
                    assert forall|l: LekceInfo| obsah_nove(l, gnc) implies z_radku(*ph, c, l) by {}
                }
                self::jednotka_dvou(skola, lekce, pocet, nd, nc, false, Ghost(zt));
                proof {
                    lemma_pridane_z_radku(l_in, lp, lekce@, *ph, c, gnd, gnc);
                    assert forall|j: int| 0 <= j < casti_radku(*ph, c).len() && casti_radku(*ph, c)[j].4.len() > 0 implies #[trigger] ma_lekci_casti(*ph, c, j, q as int, ob, lekce@, lp.len() as int) by {
                        if j == 0 {
                            let i = choose|i: int| lp.len() <= i < lekce@.len() && obsah_nove(#[trigger] lekce@[i], gnd);
                            assert(lekce_casti_x(*ph, c, 0, q as int, ob, lekce@[i]));
                        } else {
                            let i = choose|i: int| lp.len() <= i < lekce@.len() && obsah_nove(#[trigger] lekce@[i], gnc);
                            assert(lekce_casti_x(*ph, c, 1, q as int, ob, lekce@[i]));
                        }
                    }
                }
            },
            Struktura::Stridave { l, s } => {
                let nl = nova_planu(l.predmet.as_str(), l.ucitel.as_str(), &tridy, "", "L", vyber_zaky(zaci, Vyber::Vsichni, Ghost(zt)), Tyden::L, len, zakl.as_str(), o);
                let ns = nova_planu(s.predmet.as_str(), s.ucitel.as_str(), &tridy, "", "S", vyber_zaky(zaci, Vyber::Vsichni, Ghost(zt)), Tyden::S, len, zakl.as_str(), o);
                let ghost gnl = nl;
                let ghost gns = ns;
                proof {
                    assert forall|x: LekceInfo| obsah_nove(x, gnl) implies z_radku(*ph, c, x) by {}
                    assert forall|x: LekceInfo| obsah_nove(x, gns) implies z_radku(*ph, c, x) by {}
                }
                self::jednotka_dvou(skola, lekce, pocet, nl, ns, true, Ghost(zt));
                proof {
                    lemma_pridane_z_radku(l_in, lp, lekce@, *ph, c, gnl, gns);
                    assert forall|j: int| 0 <= j < casti_radku(*ph, c).len() && casti_radku(*ph, c)[j].4.len() > 0 implies #[trigger] ma_lekci_casti(*ph, c, j, q as int, ob, lekce@, lp.len() as int) by {
                        if j == 0 {
                            let i = choose|i: int| lp.len() <= i < lekce@.len() && obsah_nove(#[trigger] lekce@[i], gnl);
                            assert(lekce_casti_x(*ph, c, 0, q as int, ob, lekce@[i]));
                        } else {
                            let i = choose|i: int| lp.len() <= i < lekce@.len() && obsah_nove(#[trigger] lekce@[i], gns);
                            assert(lekce_casti_x(*ph, c, 1, q as int, ob, lekce@[i]));
                        }
                    }
                }
            },
            Struktura::StridaveSkupiny { a, b } => {
                let al = nova_planu(a[0].predmet.as_str(), a[0].ucitel.as_str(), &tridy, "AJa", "AJa-L", vyber_zaky(zaci, Vyber::Aj(SkupinaAj::A), Ghost(zt)), Tyden::L, len, zakl.as_str(), o);
                let as_ = nova_planu(a[1].predmet.as_str(), a[1].ucitel.as_str(), &tridy, "AJa", "AJa-S", vyber_zaky(zaci, Vyber::Aj(SkupinaAj::A), Ghost(zt)), Tyden::S, len, zakl.as_str(), o);
                let ghost gal = al;
                let ghost gas = as_;
                proof {
                    assert forall|x: LekceInfo| obsah_nove(x, gal) implies z_radku(*ph, c, x) by {}
                    assert forall|x: LekceInfo| obsah_nove(x, gas) implies z_radku(*ph, c, x) by {}
                }
                self::jednotka_dvou(skola, lekce, pocet, al, as_, true, Ghost(zt));
                proof {
                    lemma_pridane_z_radku(l_in, lp, lekce@, *ph, c, gal, gas);
                    if gal.zaci@.len() > 0 {
                        let i = choose|i: int| lp.len() <= i < lekce@.len() && obsah_nove(#[trigger] lekce@[i], gal);
                        assert(lekce_casti_x(*ph, c, 0, q as int, ob, lekce@[i]));
                        assert(ma_lekci_casti(*ph, c, 0, q as int, ob, lekce@, lp.len() as int));
                    }
                    if gas.zaci@.len() > 0 {
                        let i = choose|i: int| lp.len() <= i < lekce@.len() && obsah_nove(#[trigger] lekce@[i], gas);
                        assert(lekce_casti_x(*ph, c, 1, q as int, ob, lekce@[i]));
                        assert(ma_lekci_casti(*ph, c, 1, q as int, ob, lekce@, lp.len() as int));
                    }
                }
                let ghost lp2 = lekce@;
                let bl = nova_planu(b[0].predmet.as_str(), b[0].ucitel.as_str(), &tridy, "AJb", "AJb-L", vyber_zaky(zaci, Vyber::Aj(SkupinaAj::B), Ghost(zt)), Tyden::L, len, zakl.as_str(), o);
                let bs = nova_planu(b[1].predmet.as_str(), b[1].ucitel.as_str(), &tridy, "AJb", "AJb-S", vyber_zaky(zaci, Vyber::Aj(SkupinaAj::B), Ghost(zt)), Tyden::S, len, zakl.as_str(), o);
                let ghost gbl = bl;
                let ghost gbs = bs;
                proof {
                    assert forall|x: LekceInfo| obsah_nove(x, gbl) implies z_radku(*ph, c, x) by {}
                    assert forall|x: LekceInfo| obsah_nove(x, gbs) implies z_radku(*ph, c, x) by {}
                }
                self::jednotka_dvou(skola, lekce, pocet, bl, bs, true, Ghost(zt));
                proof {
                    lemma_pridane_z_radku(l_in, lp2, lekce@, *ph, c, gbl, gbs);
                    lemma_predpona(lp, lp2, lekce@);
                    lemma_pary_trvaji(lp.len() as int, lp2, lekce@);
                    lemma_casti_trvaji(*ph, c, lp2, lekce@, lp.len() as int);
                    assert forall|j: int| 0 <= j < casti_radku(*ph, c).len() && casti_radku(*ph, c)[j].4.len() > 0 implies #[trigger] ma_lekci_casti(*ph, c, j, q as int, ob, lekce@, lp.len() as int) by {
                        if j == 0 {
                            assert(ma_lekci_casti(*ph, c, 0, q as int, ob, lp2, lp.len() as int));
                        } else if j == 1 {
                            assert(ma_lekci_casti(*ph, c, 1, q as int, ob, lp2, lp.len() as int));
                        } else if j == 2 {
                            let i = choose|i: int| lp2.len() <= i < lekce@.len() && obsah_nove(#[trigger] lekce@[i], gbl);
                            assert(lekce_casti_x(*ph, c, 2, q as int, ob, lekce@[i]));
                        } else {
                            let i = choose|i: int| lp2.len() <= i < lekce@.len() && obsah_nove(#[trigger] lekce@[i], gbs);
                            assert(lekce_casti_x(*ph, c, 3, q as int, ob, lekce@[i]));
                        }
                    }
                }
            },
        }
        proof {
            lemma_pary_trvaji(l_in.len() as int, lp, lekce@);
            lemma_casti_trvaji(*ph, c, lp, lekce@, l_in.len() as int);
            assert forall|j: int, x: int|
                0 <= j < casti_radku(*ph, c).len() && 0 <= x < q + 1 && casti_radku(*ph, c)[j].4.len() > 0 implies #[trigger] ma_lekci_casti(
                *ph,
                c,
                j,
                x,
                ob,
                lekce@,
                l_in.len() as int,
            ) by {
                if x < q {
                    assert(ma_lekci_casti(*ph, c, j, x, ob, lp, l_in.len() as int));
                } else {
                    assert(ma_lekci_casti(*ph, c, j, x, ob, lekce@, lp.len() as int));
                    let i = choose|i: int| lp.len() <= i < lekce@.len() && lekce_casti_x(*ph, c, j, x, ob, #[trigger] lekce@[i]);
                    assert(lekce_casti_x(*ph, c, j, x, ob, lekce@[i]));
                }
            }
        }
        q = q + 1;
    }
}

/// Lekce má obsah nové lekce `n`.
spec fn obsah_nove(l: LekceInfo, n: Nova) -> bool {
    &&& l.klic == n.klic && l.klic_predmetu == n.klic_predmetu
    &&& l.predmet == n.predmet && l.ucitel == n.ucitel && l.skupina == n.skupina
    &&& l.tridy@ == n.tridy@ && l.zaci@ == n.zaci@ && l.len == n.len && l.tyden == n.tyden
    &&& l.dopoledne == n.dopoledne && l.menu == n.menu
}

/// Jednotka z jedné lekce (bez žáků se nevytvoří).
fn jednotka_jedne(skola: &Skola, lekce: &mut Vec<LekceInfo>, pocet: &mut usize, n: Nova, Ghost(zt): Ghost<Map<u32, String>>)
    requires
        rozpracovane(old(lekce)@, zt, *old(pocet) as int),
        *old(pocet) <= old(lekce)@.len(),
        1 <= n.len <= 2,
        forall|k: int| 0 <= k < n.zaci@.len() ==> zt.contains_key(#[trigger] n.zaci@[k]),
        n.tyden == Tyden::Oba,
    ensures
        pary_uplne(final(lekce)@, old(lekce)@.len() as int),
        rozpracovane(final(lekce)@, zt, *final(pocet) as int),
        *final(pocet) <= final(lekce)@.len(),
        final(lekce)@.len() >= old(lekce)@.len(),
        final(lekce)@.take(old(lekce)@.len() as int) == old(lekce)@,
        forall|i: int| old(lekce)@.len() <= i < final(lekce)@.len() ==> obsah_nove(#[trigger] final(lekce)@[i], n),
        n.zaci@.len() > 0 ==> final(lekce)@.len() > old(lekce)@.len() && obsah_nove(final(lekce)@[old(lekce)@.len() as int], n),
{
    let ghost l0 = lekce@;
    match pridej_lekci(skola, lekce, n, *pocet) {
        Some(_) => {
            proof {
                lemma_pridana(l0, lekce@, zt, *pocet + 1);
            }
            let n = lekce.len();
            *pocet = *pocet + 1;
        },
        None => {},
    }
}

/// Jednotka ze dvou lekcí (dívky/chlapci nebo lichý/sudý pár); chybí-li jedné lekci
/// žáci, jednotka má jen tu druhou.
#[verifier::spinoff_prover]
#[verifier::rlimit(30)]
fn jednotka_dvou(
    skola: &Skola,
    lekce: &mut Vec<LekceInfo>,
    pocet: &mut usize,
    n1: Nova,
    n2: Nova,
    par: bool,
    Ghost(zt): Ghost<Map<u32, String>>,
)
    requires
        rozpracovane(old(lekce)@, zt, *old(pocet) as int),
        *old(pocet) <= old(lekce)@.len(),
        1 <= n1.len <= 2,
        1 <= n2.len <= 2,
        forall|k: int| 0 <= k < n1.zaci@.len() ==> zt.contains_key(#[trigger] n1.zaci@[k]),
        forall|k: int| 0 <= k < n2.zaci@.len() ==> zt.contains_key(#[trigger] n2.zaci@[k]),
        par ==> n1.tyden == Tyden::L && n2.tyden == Tyden::S,
        par ==> n1.zaci@ == n2.zaci@,
        !par ==> n1.tyden == Tyden::Oba && n2.tyden == Tyden::Oba,
    ensures
        pary_uplne(final(lekce)@, old(lekce)@.len() as int),
        rozpracovane(final(lekce)@, zt, *final(pocet) as int),
        *final(pocet) <= final(lekce)@.len(),
        final(lekce)@.len() >= old(lekce)@.len(),
        final(lekce)@.take(old(lekce)@.len() as int) == old(lekce)@,
        forall|i: int|
            old(lekce)@.len() <= i < final(lekce)@.len() ==> obsah_nove(#[trigger] final(lekce)@[i], n1) || obsah_nove(
                final(lekce)@[i],
                n2,
            ),
        n1.zaci@.len() > 0 ==> exists|i: int| old(lekce)@.len() <= i < final(lekce)@.len() && obsah_nove(#[trigger] final(lekce)@[i], n1),
        n2.zaci@.len() > 0 ==> exists|i: int| old(lekce)@.len() <= i < final(lekce)@.len() && obsah_nove(#[trigger] final(lekce)@[i], n2),
{
    let ghost l0 = lekce@;
    let j = *pocet;
    let a = pridej_lekci(skola, lekce, n1, j);
    proof {
        if a.is_some() {
            lemma_pridana(l0, lekce@, zt, j + 1);
        } else {
            assert forall|i: int| 0 <= i < lekce@.len() implies lekce_platna(#[trigger] lekce@[i], zt) && lekce@[i].jednotka < j + 1 by {
                assert(lekce_platna(l0[i], zt));
            }
        }
    }
    let ghost l1 = lekce@;
    let b = pridej_lekci(skola, lekce, n2, j);
    proof {
        if b.is_some() {
            lemma_pridana(l1, lekce@, zt, j + 1);
        }
    }
    let ghost l2 = lekce@;
    proof {
        assert(l2.take(l0.len() as int) =~= l0) by {
            assert forall|x: int| 0 <= x < l0.len() implies l2.take(l0.len() as int)[x] == l0[x] by {
                assert(l2.take(l1.len() as int)[x] == l1[x]);
                assert(l1.take(l0.len() as int)[x] == l0[x]);
            }
        }
        assert forall|x: int| l0.len() <= x < l2.len() implies obsah_nove(#[trigger] l2[x], n1) || obsah_nove(l2[x], n2) by {
            if x < l1.len() {
                assert(l2.take(l1.len() as int)[x] == l1[x]);
            }
        }
    }
    match (a, b) {
        (Some(x), Some(y)) => {
            if par {
                proof {
                    assert(l2[x as int] == l1[x as int]) by {
                        assert(lekce@.take(l1.len() as int)[x as int] == lekce@[x as int]);
                    }
                }
                lekce[x].par = Some(y);
                lekce[y].par = Some(x);
                proof {
                    lemma_sparovane(l2, lekce@, zt, j + 1, x, y);
                    assert(lekce@.take(l0.len() as int) =~= l0) by {
                        assert forall|q: int| 0 <= q < l0.len() implies lekce@.take(l0.len() as int)[q] == l0[q] by {
                            assert(l2.take(l0.len() as int)[q] == l0[q]);
                        }
                    }
                    assert forall|q: int| l0.len() <= q < lekce@.len() implies obsah_nove(#[trigger] lekce@[q], n1) || obsah_nove(lekce@[q], n2) by {
                        assert(obsah_nove(l2[q], n1) || obsah_nove(l2[q], n2));
                    }
                }
            }
        },
        _ => {},
    }
    proof {
        if n1.zaci@.len() > 0 {
            let x = a.unwrap() as int;
            assert(lekce@.len() == l2.len());
            assert(obsah_nove(l1[x], n1));
            assert(l2.take(l1.len() as int)[x] == l2[x]);
            assert(obsah_nove(lekce@[x], n1));
        }
        if n2.zaci@.len() > 0 {
            let y = b.unwrap() as int;
            assert(obsah_nove(lekce@[y], n2));
        }
    }
    if a.is_some() || b.is_some() {
        let n = lekce.len();
        *pocet = j + 1;
    } else {
        proof {
            assert(lekce@ == l0);
        }
    }
}

/// Počet voleb žáka, které menu nabízí.
fn pocet_platnych_voleb(v: &Vec<String>, m: &crate::data::Menu) -> (r: usize)
    ensures
        r == v@.filter(|x: String| crate::rok::ids_voleb(m@).contains(x@)).len(),
{
    let ghost p = |x: String| crate::rok::ids_voleb(m@).contains(x@);
    let mut r: usize = 0;
    let mut i: usize = 0;
    while i < v.len()
        invariant
            i <= v@.len(),
            p == (|x: String| crate::rok::ids_voleb(m@).contains(x@)),
            r == v@.take(i as int).filter(p).len(),
            r <= i,
        decreases v@.len() - i,
    {
        proof {
            assert(v@.take(i + 1) =~= v@.take(i as int).push(v@[i as int]));
            v@.take(i as int).lemma_filter_push(v@[i as int], p);
        }
        if crate::rok::je_volba(m, v[i].as_str()) {
            r = r + 1;
        }
        i = i + 1;
    }
    proof {
        assert(v@.take(v@.len() as int) =~= v@);
    }
    r
}

/// Žák patří do menu: je v rozvrhu, chodí do třídy menu a je mezi žáky rozvrhu.
pub open spec fn clen_menu_rozvrhu(m: crate::data::Menu, zt: Map<u32, String>) -> spec_fn(Student) -> bool {
    |s: Student| s.spec_v_rozvrhu() && crate::data::retezce(m.tridy@).contains(s.trida@) && zt.contains_key(s.id)
}

/// Žák menu, který si zvolil volbu `vid`.
pub open spec fn zak_volby(m: crate::data::Menu, zt: Map<u32, String>, vid: Seq<char>) -> spec_fn(Student) -> bool {
    |s: Student| clen_menu_rozvrhu(m, zt)(s) && crate::rok::volby_v_menu(s, m.id@).contains(vid)
}

/// Id žáků volby `vid` menu v pořadí žáků roku.
pub open spec fn zaci_volby(st: Seq<Student>, m: crate::data::Menu, zt: Map<u32, String>, vid: Seq<char>) -> Seq<u32> {
    st.filter(zak_volby(m, zt, vid)).map_values(|s: Student| s.id)
}

/// Klíč `x`-té lekce volby `vid` menu `mid`: „M|mid|vid|x“.
pub open spec fn klic_volby(mid: Seq<char>, vid: Seq<char>, x: int) -> Seq<char> {
    "M|"@ + mid + "|"@ + vid + "|"@ + crate::text::desitkove(x as nat)
}

/// Lekce je `x`-tou lekcí `k`-té volby menu: má předmět, učitele a skupinu volby, žáky
/// přesně ty, kdo si volbu zvolili, `x`-tou délku z rozpisu hodin menu, klíč „M|menu|volba|x“,
/// oba týdny, dopoledne právě u seminářů ve dvouhodinách a menu.
pub open spec fn lekce_volby_kx(st: Seq<Student>, zt: Map<u32, String>, m: crate::data::Menu, k: int, x: int, l: LekceInfo) -> bool {
    let d = rozpis_spec(m.hodin_tydne, m.dvojhodina);
    &&& 0 <= k < m.volby@.len()
    &&& 0 <= x < d.len()
    &&& l.predmet@ == m.volby@[k].predmet@
    &&& l.ucitel@ == m.volby@[k].ucitel@
    &&& l.skupina@ == m.volby@[k].id@
    &&& l.zaci@ == zaci_volby(st, m, zt, m.volby@[k].id@)
    &&& l.len == d[x]
    &&& l.klic@ == klic_volby(m.id@, m.volby@[k].id@, x)
    &&& l.tyden == Tyden::Oba
    &&& l.dopoledne == (m.pocet_voleb > 1 && m.dvojhodina)
    &&& l.menu.is_some() && l.menu.unwrap()@ == m.id@
    &&& l.par.is_none()
}

/// Mezi lekcemi od indexu `od` je `x`-tá lekce `k`-té volby menu.
pub open spec fn ma_lekci_volby(st: Seq<Student>, zt: Map<u32, String>, m: crate::data::Menu, k: int, x: int, lekce: Seq<LekceInfo>, od: int) -> bool {
    exists|i: int| od <= i < lekce.len() && lekce_volby_kx(st, zt, m, k, x, #[trigger] lekce[i])
}

/// Lekce je `x`-tou lekcí některé volby menu.
pub open spec fn volba_x(st: Seq<Student>, zt: Map<u32, String>, m: crate::data::Menu, x: int, l: LekceInfo) -> bool {
    exists|k: int| #[trigger] lekce_volby_kx(st, zt, m, k, x, l)
}

/// Mezi lekcemi od indexu `od` je `x`-tá lekce `k`-té volby menu v jednotce `j`.
pub open spec fn ma_lekci_volby_v(st: Seq<Student>, zt: Map<u32, String>, m: crate::data::Menu, k: int, x: int, lekce: Seq<LekceInfo>, od: int, j: int) -> bool {
    exists|i: int| od <= i < lekce.len() && lekce_volby_kx(st, zt, m, k, x, #[trigger] lekce[i]) && lekce[i].jednotka == j
}

/// Lekce vznikla z některé volby menu (viz `lekce_volby_kx`).
pub open spec fn lekce_volby(st: Seq<Student>, zt: Map<u32, String>, m: crate::data::Menu, l: LekceInfo) -> bool {
    exists|k: int, x: int| #[trigger] lekce_volby_kx(st, zt, m, k, x, l)
}

/// Lekce jednoho menu voleb: pro každou volbu se žáky série lekcí podle rozpisu.
/// Při výběru jedné volby jdou i-té lekce všech voleb do společné jednotky, jinak má
/// každá lekce jednotku svou.
fn lekce_menu(
    skola: &Skola,
    rok: &SkolniRok,
    m: &crate::data::Menu,
    zaci_tridy: &BTreeMap<u32, String>,
    lekce: &mut Vec<LekceInfo>,
    pocet: &mut usize,
    varovani: &mut Vec<String>,
)
    requires
        rozpracovane(old(lekce)@, zaci_tridy@, *old(pocet) as int),
        *old(pocet) <= old(lekce)@.len(),
        crate::rok::volby_platne(rok.studenti@),
    ensures
        rozpracovane(final(lekce)@, zaci_tridy@, *final(pocet) as int),
        *final(pocet) <= final(lekce)@.len(),
        final(lekce)@.len() >= old(lekce)@.len(),
        final(lekce)@.take(old(lekce)@.len() as int) == old(lekce)@,
        forall|i: int|
            old(lekce)@.len() <= i < final(lekce)@.len() ==> lekce_volby(rok.studenti@, zaci_tridy@, *m, #[trigger] final(lekce)@[i]),
        forall|k: int, x: int|
            0 <= k < m.volby@.len() && 0 <= x < rozpis_spec(m.hodin_tydne, m.dvojhodina).len() && zaci_volby(
                rok.studenti@,
                *m,
                zaci_tridy@,
                m.volby@[k].id@,
            ).len() > 0 ==> #[trigger] ma_lekci_volby(rok.studenti@, zaci_tridy@, *m, k, x, final(lekce)@, old(lekce)@.len() as int),
        m.pocet_voleb == 1 ==> forall|k: int, x: int|
            0 <= k < m.volby@.len() && 0 <= x < rozpis_spec(m.hodin_tydne, m.dvojhodina).len() && zaci_volby(
                rok.studenti@,
                *m,
                zaci_tridy@,
                m.volby@[k].id@,
            ).len() > 0 ==> #[trigger] ma_lekci_volby_v(rok.studenti@, zaci_tridy@, *m, k, x, final(lekce)@, old(lekce)@.len() as int, *old(pocet) + x),
        m.pocet_voleb == 1 ==> forall|y: int|
            old(lekce)@.len() <= y < final(lekce)@.len() ==> volba_x(rok.studenti@, zaci_tridy@, *m, (#[trigger] final(lekce)@[y]).jednotka - *old(pocet), final(lekce)@[y]),
        m.pocet_voleb != 1 ==> forall|y1: int, y2: int|
            old(lekce)@.len() <= y1 < final(lekce)@.len() && old(lekce)@.len() <= y2 < final(lekce)@.len() && y1 != y2
                ==> (#[trigger] final(lekce)@[y1]).jednotka != (#[trigger] final(lekce)@[y2]).jednotka,
        forall|y: int| old(lekce)@.len() <= y < final(lekce)@.len() ==> *old(pocet) <= (#[trigger] final(lekce)@[y]).jednotka,
        *old(pocet) <= *final(pocet),
        zacina_na(old(varovani)@, final(varovani)@),
{
    let ghost zt = zaci_tridy@;
    let ghost st = rok.studenti@;
    let ghost pc = clen_menu_rozvrhu(*m, zt);
    let mut clen: Vec<bool> = Vec::new();
    let mut i: usize = 0;
    while i < rok.studenti.len()
        invariant
            i <= rok.studenti@.len(),
            zt == zaci_tridy@,
            st == rok.studenti@,
            pc == clen_menu_rozvrhu(*m, zt),
            clen@.len() == i,
            forall|k: int| 0 <= k < i ==> #[trigger] clen@[k] == pc(st[k]),
        decreases rok.studenti@.len() - i,
    {
        let s = &rok.studenti[i];
        let c = s.v_rozvrhu() && crate::rok::obsahuje(&m.tridy, s.trida.as_str()) && crate::podle_id::ma_zaka(zaci_tridy, s.id);
        clen.push(c);
        i = i + 1;
    }
    let mut nekompletni: u64 = 0;
    let mut k: usize = 0;
    while k < rok.studenti.len()
        invariant
            k <= rok.studenti@.len(),
            nekompletni <= k,
            clen@.len() == rok.studenti@.len(),
            crate::rok::volby_platne(rok.studenti@),
        decreases rok.studenti@.len() - k,
    {
        if clen[k] {
            let s = &rok.studenti[k];
            proof {
                assert(s.volby.dobre());
            }
            let n = match s.volby.get(m.id.as_str()) {
                Some(v) => pocet_platnych_voleb(v, m),
                None => 0,
            };
            if n < m.pocet_voleb as usize {
                nekompletni = nekompletni + 1;
            }
        }
        k = k + 1;
    }
    if nekompletni > 0 {
        let c = cislo(nekompletni);
        varovani.push(crate::text::spoj(&[m.nazev.as_str(), ": ", c.as_str(), " žáků nemá kompletní volby."]));
    }
    let delky = rozpis(m.hodin_tydne, m.dvojhodina);
    let jedna = m.pocet_voleb == 1;
    let dopoledne = m.pocet_voleb > 1 && m.dvojhodina;
    let base = *pocet;
    let ghost l0 = lekce@;
    let mut nejaka = false;
    let mut q: usize = 0;
    while q < m.volby.len()
        invariant
            q <= m.volby@.len(),
            delky@ == rozpis_spec(m.hodin_tydne, m.dvojhodina),
            forall|x: int| 0 <= x < delky@.len() ==> 1 <= #[trigger] delky@[x] <= 2,
            delky@.len() <= m.hodin_tydne,
            jedna == (m.pocet_voleb == 1),
            dopoledne == (m.pocet_voleb > 1 && m.dvojhodina),
            zt == zaci_tridy@,
            st == rok.studenti@,
            pc == clen_menu_rozvrhu(*m, zt),
            clen@.len() == st.len(),
            forall|x: int| 0 <= x < st.len() ==> #[trigger] clen@[x] == pc(st[x]),
            base <= l0.len(),
            l0 == old(lekce)@,
            rozpracovane(l0, zt, base as int),
            crate::rok::volby_platne(rok.studenti@),
            jedna ==> *pocet == base,
            jedna && nejaka ==> rozpracovane(lekce@, zt, base + delky@.len()) && base + delky@.len() <= lekce@.len(),
            jedna && !nejaka ==> lekce@ == l0,
            !jedna ==> rozpracovane(lekce@, zt, *pocet as int) && *pocet <= lekce@.len(),
            lekce@.len() >= l0.len(),
            lekce@.take(l0.len() as int) == l0,
            forall|x: int| l0.len() <= x < lekce@.len() ==> lekce_volby(st, zt, *m, #[trigger] lekce@[x]),
            forall|k: int, x: int|
                0 <= k < q && 0 <= x < delky@.len() && zaci_volby(st, *m, zt, m.volby@[k].id@).len() > 0 ==> #[trigger] ma_lekci_volby(st, zt, *m, k, x, lekce@, l0.len() as int),
            base == *old(pocet),
            jedna ==> forall|y: int|
                l0.len() <= y < lekce@.len() ==> volba_x(st, zt, *m, (#[trigger] lekce@[y]).jednotka - base, lekce@[y]),
            jedna ==> forall|k: int, x: int|
                0 <= k < q && 0 <= x < delky@.len() && zaci_volby(st, *m, zt, m.volby@[k].id@).len() > 0 ==> #[trigger] ma_lekci_volby_v(st, zt, *m, k, x, lekce@, l0.len() as int, base + x),
            !jedna ==> forall|y1: int, y2: int|
                l0.len() <= y1 < lekce@.len() && l0.len() <= y2 < lekce@.len() && y1 != y2 ==> (#[trigger] lekce@[y1]).jednotka != (#[trigger] lekce@[y2]).jednotka,
            forall|y: int| l0.len() <= y < lekce@.len() ==> base <= (#[trigger] lekce@[y]).jednotka,
            base <= *pocet,
            zacina_na(old(varovani)@, varovani@),
        decreases m.volby@.len() - q,
    {
        let v = &m.volby[q];
        let ghost pv = zak_volby(*m, zt, v.id@);
        let mut zaci: Vec<u32> = Vec::new();
        let mut a: usize = 0;
        while a < rok.studenti.len()
            invariant
                a <= rok.studenti@.len(),
                st == rok.studenti@,
                q < m.volby@.len(),
                *v == m.volby@[q as int],
                crate::rok::volby_platne(rok.studenti@),
                pc == clen_menu_rozvrhu(*m, zt),
                pv == zak_volby(*m, zt, v.id@),
                clen@.len() == st.len(),
                forall|x: int| 0 <= x < st.len() ==> #[trigger] clen@[x] == pc(st[x]),
                zaci@ == st.take(a as int).filter(pv).map_values(|s: Student| s.id),
                forall|x: int| 0 <= x < zaci@.len() ==> zt.contains_key(#[trigger] zaci@[x]),
            decreases rok.studenti@.len() - a,
        {
            let s = &rok.studenti[a];
            let ghost z0 = zaci@;
            proof {
                assert(st.take(a + 1) =~= st.take(a as int).push(*s));
                st.take(a as int).lemma_filter_push(*s, pv);
                assert(s.volby.dobre());
            }
            if clen[a] {
                match s.volby.get(m.id.as_str()) {
                    Some(x) => {
                        if crate::rok::obsahuje(x, v.id.as_str()) {
                            zaci.push(s.id);
                            proof {
                                assert(zaci@ =~= st.take(a + 1).filter(pv).map_values(|s: Student| s.id));
                            }
                        } else {
                            proof {
                                assert(!pv(*s));
                            }
                        }
                    },
                    None => {
                        proof {
                            assert(!pv(*s));
                        }
                    },
                }
            } else {
                proof {
                    assert(!pv(*s));
                }
            }
            a = a + 1;
        }
        proof {
            assert(st.take(st.len() as int) =~= st);
        }
        if zaci.len() == 0 {
            varovani.push(crate::text::spoj(&[m.nazev.as_str(), ": volba ", v.nazev.as_str(), " nemá žádné žáky – nevytvořena."]));
            proof {
                assert forall|k: int, x: int|
                    0 <= k < q + 1 && 0 <= x < delky@.len() && zaci_volby(st, *m, zt, m.volby@[k].id@).len() > 0 implies (jedna ==> #[trigger] ma_lekci_volby_v(st, zt, *m, k, x, lekce@, l0.len() as int, base + x)) by {
                    if k == q {
                        assert(zaci_volby(st, *m, zt, m.volby@[k].id@) == zaci@);
                    }
                }
                assert forall|k: int, x: int|
                    0 <= k < q + 1 && 0 <= x < delky@.len() && zaci_volby(st, *m, zt, m.volby@[k].id@).len() > 0 implies #[trigger] ma_lekci_volby(st, zt, *m, k, x, lekce@, l0.len() as int) by {
                    if k == q {
                        assert(zaci_volby(st, *m, zt, m.volby@[k].id@) == zaci@);
                    }
                }
            }
        } else {
            match v.kapacita {
                Some(kap) => {
                    if zaci.len() as u64 > kap as u64 {
                        let c = cislo(zaci.len() as u64);
                        let ck = cislo(kap as u64);
                        varovani.push(crate::text::spoj(&[m.nazev.as_str(), ": volba ", v.nazev.as_str(), " má ", c.as_str(), " žáků > kapacita ", ck.as_str(), " (✂ rozdělit)."]));
                    }
                },
                None => {},
            }
            let mut tm: Mapa<bool> = Mapa::new();
            let mut z: usize = 0;
            while z < zaci.len()
                invariant
                    z <= zaci@.len(),
                    tm.dobre(),
                decreases zaci@.len() - z,
            {
                match crate::podle_id::trida_zaka(zaci_tridy, zaci[z]) {
                    Some(t) => {
                        tm.insert(t.clone(), true);
                    },
                    None => {},
                }
                z = z + 1;
            }
            let mut tridy: Vec<String> = Vec::new();
            let mut w: usize = 0;
            while w < tm.polozky.len()
                invariant
                    w <= tm.polozky@.len(),
                decreases tm.polozky@.len() - w,
            {
                tridy.push(tm.polozky[w].0.clone());
                w = w + 1;
            }
            let ghost lz = lekce@;
            let ghost pz = *pocet;
            let mut i: usize = 0;
            while i < delky.len()
                invariant
                    i <= delky@.len(),
                    delky@ == rozpis_spec(m.hodin_tydne, m.dvojhodina),
                    forall|x: int| 0 <= x < delky@.len() ==> 1 <= #[trigger] delky@[x] <= 2,
                    jedna == (m.pocet_voleb == 1),
                    dopoledne == (m.pocet_voleb > 1 && m.dvojhodina),
                    q < m.volby@.len(),
                    *v == m.volby@[q as int],
                    zaci@.len() > 0,
                    zaci@ == zaci_volby(st, *m, zt, v.id@),
                    forall|x: int| 0 <= x < zaci@.len() ==> zt.contains_key(#[trigger] zaci@[x]),
                    lekce@.len() == lz.len() + i,
                    base <= l0.len(),
                    rozpracovane(l0, zt, base as int),
                    jedna ==> *pocet == base,
                    jedna && nejaka ==> rozpracovane(lz, zt, base + delky@.len()) && base + delky@.len() <= lz.len(),
                    jedna && !nejaka ==> lz == l0,
                    jedna ==> rozpracovane(lekce@, zt, base + delky@.len()),
                    !jedna ==> rozpracovane(lekce@, zt, *pocet as int) && *pocet <= lekce@.len(),
                    lz.len() >= l0.len(),
                    lz.take(l0.len() as int) == l0,
                    lekce@.take(lz.len() as int) == lz,
                    forall|x: int| l0.len() <= x < lekce@.len() ==> lekce_volby(st, zt, *m, #[trigger] lekce@[x]),
                    forall|k: int, x: int|
                        0 <= k < q && 0 <= x < delky@.len() && zaci_volby(st, *m, zt, m.volby@[k].id@).len() > 0 ==> #[trigger] ma_lekci_volby(st, zt, *m, k, x, lz, l0.len() as int),
                    forall|x: int| 0 <= x < i ==> #[trigger] ma_lekci_volby(st, zt, *m, q as int, x, lekce@, lz.len() as int),
                    base == *old(pocet),
                    jedna ==> forall|y: int|
                        l0.len() <= y < lekce@.len() ==> volba_x(st, zt, *m, (#[trigger] lekce@[y]).jednotka - base, lekce@[y]),
                    jedna ==> forall|k: int, x: int|
                        0 <= k < q && 0 <= x < delky@.len() && zaci_volby(st, *m, zt, m.volby@[k].id@).len() > 0 ==> #[trigger] ma_lekci_volby_v(st, zt, *m, k, x, lz, l0.len() as int, base + x),
                    jedna ==> forall|x: int| 0 <= x < i ==> #[trigger] ma_lekci_volby_v(st, zt, *m, q as int, x, lekce@, lz.len() as int, base + x),
                    !jedna ==> forall|y1: int, y2: int|
                        l0.len() <= y1 < lekce@.len() && l0.len() <= y2 < lekce@.len() && y1 != y2 ==> (#[trigger] lekce@[y1]).jednotka != (#[trigger] lekce@[y2]).jednotka,
                    forall|y: int| l0.len() <= y < lekce@.len() ==> base <= (#[trigger] lekce@[y]).jednotka,
                    base <= *pocet,
                decreases delky@.len() - i,
            {
                let ci = cislo(i as u64);
                let casti = ["M|", m.id.as_str(), "|", v.id.as_str(), "|", ci.as_str()];
                let klic = crate::text::spoj(&casti);
                proof {
                    let c = casti@.map_values(|x: &str| x@);
                    assert(c =~= seq!["M|"@, m.id@, "|"@, v.id@, "|"@, ci@]);
                    reveal_with_fuel(crate::text::spojeni, 7);
                    assert(klic@ =~= klic_volby(m.id@, v.id@, i as int));
                }
                let n = Nova {
                    predmet: v.predmet.clone(),
                    ucitel: v.ucitel.clone(),
                    tridy: crate::data::kopie_retezcu(&tridy),
                    skupina: v.id.clone(),
                    zaci: zaci.clone(),
                    len: delky[i],
                    klic,
                    klic_predmetu: crate::text::spoj(&["M|", m.id.as_str(), "|", v.id.as_str()]),
                    tyden: Tyden::Oba,
                    dopoledne,
                    menu: Some(m.id.clone()),
                };
                let delka = lekce.len();
                let j: usize = if jedna {
                    proof {
                        if !nejaka {
                            assert(base + i <= lekce@.len());
                        }
                    }
                    base + i
                } else {
                    *pocet
                };
                let ghost lp = lekce@;
                proof {
                    if jedna {
                        assert forall|x: int| 0 <= x < lp.len() implies lekce_platna(#[trigger] lp[x], zt) && lp[x].jednotka < base + delky@.len() by {
                            if !nejaka && i == 0 {
                                assert(lekce_platna(l0[x], zt));
                            }
                        }
                    } else {
                        assert forall|x: int| 0 <= x < lp.len() implies lekce_platna(#[trigger] lp[x], zt) && lp[x].jednotka < j + 1 by {
                            assert(lekce_platna(lp[x], zt));
                        }
                    }
                }
                let r = pridej_lekci(skola, lekce, n, j);
                proof {
                    if jedna {
                        lemma_pridana(lp, lekce@, zt, base + delky@.len());
                    } else {
                        lemma_pridana(lp, lekce@, zt, j + 1);
                    }
                    let nl = lekce@[lp.len() as int];
                    assert(rozpis_spec(m.hodin_tydne, m.dvojhodina)[i as int] == nl.len);
                    assert(lekce_volby_kx(st, zt, *m, q as int, i as int, nl)) by {
                        assert(m.volby@[q as int].predmet@ == nl.predmet@);
                    }
                    assert(lekce_volby(st, zt, *m, nl));
                    assert forall|y: int| l0.len() <= y < lekce@.len() implies base <= (#[trigger] lekce@[y]).jednotka by {
                        if y < lp.len() {
                            assert(lekce@.take(lp.len() as int)[y] == lekce@[y]);
                        }
                    }
                    if jedna {
                        assert(nl.jednotka - base == i);
                        assert forall|y: int| l0.len() <= y < lekce@.len() implies volba_x(st, zt, *m, (#[trigger] lekce@[y]).jednotka - base, lekce@[y]) by {
                            if y < lp.len() {
                                assert(lekce@.take(lp.len() as int)[y] == lekce@[y]);
                                assert(volba_x(st, zt, *m, lp[y].jednotka - base, lp[y]));
                            } else {
                                assert(lekce_volby_kx(st, zt, *m, q as int, lekce@[y].jednotka - base, lekce@[y]));
                            }
                        }
                        assert forall|x: int| 0 <= x < i + 1 implies #[trigger] ma_lekci_volby_v(st, zt, *m, q as int, x, lekce@, lz.len() as int, base + x) by {
                            if x < i {
                                assert(ma_lekci_volby_v(st, zt, *m, q as int, x, lp, lz.len() as int, base + x));
                                let y = choose|y: int| lz.len() <= y < lp.len() && lekce_volby_kx(st, zt, *m, q as int, x, #[trigger] lp[y]) && lp[y].jednotka == base + x;
                                assert(lekce@.take(lp.len() as int)[y] == lekce@[y]);
                            } else {
                                assert(lekce_volby_kx(st, zt, *m, q as int, x, lekce@[lp.len() as int]));
                            }
                        }
                    } else {
                        assert forall|y1: int, y2: int|
                            l0.len() <= y1 < lekce@.len() && l0.len() <= y2 < lekce@.len() && y1 != y2 implies (#[trigger] lekce@[y1]).jednotka != (#[trigger] lekce@[y2]).jednotka by {
                            if y1 < lp.len() {
                                assert(lekce@.take(lp.len() as int)[y1] == lekce@[y1]);
                                assert(lp[y1].jednotka < j);
                            }
                            if y2 < lp.len() {
                                assert(lekce@.take(lp.len() as int)[y2] == lekce@[y2]);
                                assert(lp[y2].jednotka < j);
                            }
                        }
                    }
                    assert forall|x: int| l0.len() <= x < lekce@.len() implies lekce_volby(st, zt, *m, #[trigger] lekce@[x]) by {
                        if x < lp.len() {
                            assert(lekce@.take(lp.len() as int)[x] == lekce@[x]);
                        }
                    }
                    assert forall|x: int| 0 <= x < i + 1 implies #[trigger] ma_lekci_volby(st, zt, *m, q as int, x, lekce@, lz.len() as int) by {
                        if x < i {
                            assert(ma_lekci_volby(st, zt, *m, q as int, x, lp, lz.len() as int));
                            let y = choose|y: int| lz.len() <= y < lp.len() && lekce_volby_kx(st, zt, *m, q as int, x, #[trigger] lp[y]);
                            assert(lekce@.take(lp.len() as int)[y] == lekce@[y]);
                            assert(lekce_volby_kx(st, zt, *m, q as int, x, lekce@[y]));
                        } else {
                            assert(lekce_volby_kx(st, zt, *m, q as int, x, lekce@[lp.len() as int]));
                        }
                    }
                    assert(lekce@.take(lz.len() as int) =~= lz) by {
                        assert(lekce@.take(lp.len() as int) == lp);
                        assert forall|x: int| 0 <= x < lz.len() implies lekce@.take(lz.len() as int)[x] == lz[x] by {
                            assert(lekce@.take(lp.len() as int)[x] == lp[x]);
                            assert(lp.take(lz.len() as int)[x] == lz[x]);
                        }
                    }
                }
                if !jedna {
                    let _delka_po = lekce.len();
                    *pocet = *pocet + 1;
                }
                i = i + 1;
            }
            proof {
                if jedna && !nejaka {
                    assert(lz == l0);
                }
                if jedna {
                    assert forall|k: int, x: int|
                        0 <= k < q + 1 && 0 <= x < delky@.len() && zaci_volby(st, *m, zt, m.volby@[k].id@).len() > 0 implies #[trigger] ma_lekci_volby_v(st, zt, *m, k, x, lekce@, l0.len() as int, base + x) by {
                        if k < q {
                            assert(ma_lekci_volby_v(st, zt, *m, k, x, lz, l0.len() as int, base + x));
                            let y = choose|y: int| l0.len() <= y < lz.len() && lekce_volby_kx(st, zt, *m, k, x, #[trigger] lz[y]) && lz[y].jednotka == base + x;
                            assert(lekce@.take(lz.len() as int)[y] == lekce@[y]);
                        } else {
                            assert(ma_lekci_volby_v(st, zt, *m, q as int, x, lekce@, lz.len() as int, base + x));
                            let y = choose|y: int| lz.len() <= y < lekce@.len() && lekce_volby_kx(st, zt, *m, q as int, x, #[trigger] lekce@[y]) && lekce@[y].jednotka == base + x;
                        }
                    }
                }
                assert forall|k: int, x: int|
                    0 <= k < q + 1 && 0 <= x < delky@.len() && zaci_volby(st, *m, zt, m.volby@[k].id@).len() > 0 implies #[trigger] ma_lekci_volby(st, zt, *m, k, x, lekce@, l0.len() as int) by {
                    if k < q {
                        assert(ma_lekci_volby(st, zt, *m, k, x, lz, l0.len() as int));
                        let y = choose|y: int| l0.len() <= y < lz.len() && lekce_volby_kx(st, zt, *m, k, x, #[trigger] lz[y]);
                        assert(lekce@.take(lz.len() as int)[y] == lekce@[y]);
                        assert(lekce_volby_kx(st, zt, *m, k, x, lekce@[y]));
                    } else {
                        assert(ma_lekci_volby(st, zt, *m, q as int, x, lekce@, lz.len() as int));
                        let y = choose|y: int| lz.len() <= y < lekce@.len() && lekce_volby_kx(st, zt, *m, q as int, x, #[trigger] lekce@[y]);
                    }
                }
                assert(lekce@.take(l0.len() as int) =~= l0) by {
                    assert forall|x: int| 0 <= x < l0.len() implies lekce@.take(l0.len() as int)[x] == l0[x] by {
                        assert(lekce@.take(lz.len() as int)[x] == lz[x]);
                        assert(lz.take(l0.len() as int)[x] == l0[x]);
                    }
                }
            }
            nejaka = true;
        }
        q = q + 1;
    }
    if jedna && nejaka {
        let _delka = lekce.len();
        *pocet = base + delky.len();
    }
}

/// Vstup řešiče je platný: lekce jsou platné, páry L/S souměrné, jednotky rozdělují
/// lekce a zástupní žáci mají třídu.
pub open spec fn vstup_platny(v: Vstup) -> bool {
    &&& forall|i: int| 0 <= i < v.lekce@.len() ==> lekce_platna(#[trigger] v.lekce@[i], v.zaci_tridy@)
    &&& pary_platne(v.lekce@)
    &&& jednotky_platne(v.lekce@, v.jednotky@)
    &&& forall|k: int| 0 <= k < v.virtualni@.len() ==> v.zaci_tridy@.contains_key(#[trigger] v.virtualni@[k])
}

/// Lekce vznikla z některého z prvních `p` řádků učebního plánu.
pub open spec fn z_planu_do(skola: Skola, st: Seq<Student>, p: int, l: LekceInfo) -> bool {
    exists|r: int| 0 <= r < p && lekce_radku(skola, st, #[trigger] skola.plan@[r], l)
}

/// Lekce vznikla z volby některého z prvních `q` menu.
pub open spec fn z_menu_do(st: Seq<Student>, zt: Map<u32, String>, menu: Seq<crate::data::Menu>, q: int, l: LekceInfo) -> bool {
    exists|w: int| 0 <= w < q && lekce_volby(st, zt, #[trigger] menu[w], l)
}

/// Původ lekce z volby nezávisí na čísle jednotky.
proof fn lemma_lekce_volby_jednotka(st: Seq<Student>, zt: Map<u32, String>, m: crate::data::Menu, a: LekceInfo, b: LekceInfo)
    requires
        lekce_volby(st, zt, m, a),
        b == (LekceInfo { jednotka: b.jednotka, ..a }),
    ensures
        lekce_volby(st, zt, m, b),
{
    let (k, x) = choose|k: int, x: int| #[trigger] lekce_volby_kx(st, zt, m, k, x, a);
    assert(lekce_volby_kx(st, zt, m, k, x, b));
}

/// Menu mají navzájem různá id.
pub open spec fn menu_ruzna(menu: Seq<crate::data::Menu>) -> bool {
    forall|a: int, b: int| 0 <= a < b < menu.len() ==> (#[trigger] menu[a]).id@ != (#[trigger] menu[b]).id@
}

/// Jednotka `j` drží `x`-té lekce voleb menu: od každé volby se žáky jednu a nic jiného.
pub open spec fn skupina_volby(st: Seq<Student>, zt: Map<u32, String>, m: crate::data::Menu, x: int, lekce: Seq<LekceInfo>, j: int) -> bool {
    &&& forall|k: int|
        0 <= k < m.volby@.len() && zaci_volby(st, m, zt, m.volby@[k].id@).len() > 0 ==> #[trigger] ma_lekci_volby_v(st, zt, m, k, x, lekce, 0, j)
    &&& forall|i: int| 0 <= i < lekce.len() && (#[trigger] lekce[i]).jednotka == j ==> volba_x(st, zt, m, x, lekce[i])
}

/// `x`-té lekce voleb menu mají společnou jednotku (menší než `pod`).
pub open spec fn ma_skupinu(st: Seq<Student>, zt: Map<u32, String>, m: crate::data::Menu, x: int, lekce: Seq<LekceInfo>, pod: int) -> bool {
    exists|j: int| j < pod && #[trigger] skupina_volby(st, zt, m, x, lekce, j)
}

/// Lekce `i` je ve své jednotce sama.
pub open spec fn sama_v_jednotce(lekce: Seq<LekceInfo>, i: int) -> bool {
    forall|y: int| 0 <= y < lekce.len() && y != i ==> (#[trigger] lekce[y]).jednotka != lekce[i].jednotka
}

/// Volby prvních `q` menu v jednotkách: vybírá-li se jedna volba, sdílí `x`-té lekce všech
/// voleb jednu jednotku, v níž nic jiného není; vybírá-li se jich víc (a menu mají různá id),
/// je každá lekce menu v jednotce sama.
pub open spec fn volby_v_jednotkach(st: Seq<Student>, zt: Map<u32, String>, menu: Seq<crate::data::Menu>, lekce: Seq<LekceInfo>, q: int, pod: int) -> bool {
    &&& forall|w: int, x: int|
        0 <= w < q && menu[w].pocet_voleb == 1 && 0 <= x < rozpis_spec(menu[w].hodin_tydne, menu[w].dvojhodina).len()
            ==> #[trigger] ma_skupinu(st, zt, menu[w], x, lekce, pod)
    &&& menu_ruzna(menu) ==> forall|w: int, i: int|
        0 <= w < q && menu[w].pocet_voleb != 1 && 0 <= i < lekce.len() && #[trigger] lekce_volby(st, zt, menu[w], lekce[i]) ==> sama_v_jednotce(lekce, i)
}

/// Lekce z volby menu nese id toho menu.
proof fn lemma_volba_menu(st: Seq<Student>, zt: Map<u32, String>, m: crate::data::Menu, l: LekceInfo)
    requires
        lekce_volby(st, zt, m, l),
    ensures
        l.menu.is_some() && l.menu.unwrap()@ == m.id@,
{
    let (k, x) = choose|k: int, x: int| #[trigger] lekce_volby_kx(st, zt, m, k, x, l);
}

/// Lekce postavené z plánu a voleb školního roku: platné, páry L/S úplné, každý zařazený
/// žák známé třídy má třídu, každá lekce pochází z řádku plánu nebo z volby a každá část
/// řádku plánu (s klíčem `P|třída|předmět|skupina|pořadí`, pořadí běží přes řádky se stejnou
/// třídou a předmětem) i každá volba se žáky má své lekce.
pub open spec fn postaveno(skola: Skola, rok: SkolniRok, v: Vstup) -> bool {
    &&& vstup_platny(v)
    &&& pary_uplne(v.lekce@, 0)
    &&& forall|k: int|
        0 <= k < rok.studenti@.len() && (#[trigger] rok.studenti@[k]).spec_v_rozvrhu() && index_tridy(
            skola.tridy@,
            rok.studenti@[k].trida@,
        ) >= 0 ==> v.zaci_tridy@.contains_key(rok.studenti@[k].id)
    &&& forall|i: int|
        0 <= i < v.lekce@.len() && (#[trigger] v.lekce@[i]).menu.is_none() ==> z_planu_do(skola, rok.studenti@, skola.plan@.len() as int, v.lekce@[i])
    &&& forall|i: int|
        0 <= i < v.lekce@.len() && (#[trigger] v.lekce@[i]).menu.is_some() ==> z_menu_do(rok.studenti@, v.zaci_tridy@, rok.menu@, rok.menu@.len() as int, v.lekce@[i])
    &&& forall|w: int, k: int, x: int|
        0 <= w < rok.menu@.len() && 0 <= k < rok.menu@[w].volby@.len() && 0 <= x < rozpis_spec(rok.menu@[w].hodin_tydne, rok.menu@[w].dvojhodina).len()
            && zaci_volby(rok.studenti@, rok.menu@[w], v.zaci_tridy@, rok.menu@[w].volby@[k].id@).len() > 0
            ==> #[trigger] ma_lekci_volby(rok.studenti@, v.zaci_tridy@, rok.menu@[w], k, x, v.lekce@, 0)
    &&& forall|r: int, j: int, x: int|
        0 <= r < skola.plan@.len() && radek_v_rozvrhu(skola, rok.studenti@, skola.plan@[r])
            && 0 <= j < casti_radku(skola.plan@[r], clenove_radku(skola, rok.studenti@, skola.plan@[r])).len()
            && 0 <= x < rozpis_spec(skola.plan@[r].hodin, skola.plan@[r].dvoj).len()
            && casti_radku(skola.plan@[r], clenove_radku(skola, rok.studenti@, skola.plan@[r]))[j].4.len() > 0
            ==> #[trigger] ma_lekci_casti(skola.plan@[r], clenove_radku(skola, rok.studenti@, skola.plan@[r]), j, x, drive_radku(skola, rok.studenti@, r, zaklad_klice(skola.plan@[r])), v.lekce@, 0)
    &&& volby_v_jednotkach(rok.studenti@, v.zaci_tridy@, rok.menu@, v.lekce@, rok.menu@.len() as int, usize::MAX as int + 1)
    &&& forall|z: u32|
        #[trigger] v.zaci_tridy@.contains_key(z) <==> zak_v_rozvrhu(skola, rok.studenti@, rok.studenti@.len() as int, z) || v.virtualni@.contains(z)
    &&& v.virtualni@.len() == 4 * tridy_se_zastupci(skola, rok.studenti@, skola.tridy@.len() as int)
    &&& forall|t: int|
        0 <= t < skola.tridy@.len() && vynechana_t(skola, rok.studenti@, t) ==> crate::validation::hlasi(
            v.varovani@,
            text_prazdne_tridy(#[trigger] skola.tridy@[t]),
        )
}

/// Přidáním lekcí menu `q` (jednotky od `pp` výš, všechny pod `pn`) se zachová a rozšíří
/// seskupení voleb.
proof fn lemma_volby_po_menu(
    skola: Skola,
    st: Seq<Student>,
    zt: Map<u32, String>,
    menu: Seq<crate::data::Menu>,
    q: int,
    lp: Seq<LekceInfo>,
    l: Seq<LekceInfo>,
    pp: int,
    pn: int,
)
    requires
        0 <= q < menu.len(),
        volby_v_jednotkach(st, zt, menu, lp, q, pp),
        rozpracovane(lp, zt, pp),
        rozpracovane(l, zt, pn),
        0 <= pp <= pn,
        l.len() >= lp.len(),
        l.take(lp.len() as int) == lp,
        forall|i: int| 0 <= i < lp.len() ==> z_planu_do(skola, st, skola.plan@.len() as int, #[trigger] lp[i]) || z_menu_do(st, zt, menu, q, lp[i]),
        forall|i: int| lp.len() <= i < l.len() ==> lekce_volby(st, zt, menu[q], #[trigger] l[i]),
        menu[q].pocet_voleb == 1 ==> forall|k: int, x: int|
            0 <= k < menu[q].volby@.len() && 0 <= x < rozpis_spec(menu[q].hodin_tydne, menu[q].dvojhodina).len() && zaci_volby(
                st,
                menu[q],
                zt,
                menu[q].volby@[k].id@,
            ).len() > 0 ==> #[trigger] ma_lekci_volby_v(st, zt, menu[q], k, x, l, lp.len() as int, pp + x),
        menu[q].pocet_voleb == 1 ==> forall|y: int|
            lp.len() <= y < l.len() ==> volba_x(st, zt, menu[q], (#[trigger] l[y]).jednotka - pp, l[y]),
        menu[q].pocet_voleb != 1 ==> forall|y1: int, y2: int|
            lp.len() <= y1 < l.len() && lp.len() <= y2 < l.len() && y1 != y2 ==> (#[trigger] l[y1]).jednotka != (#[trigger] l[y2]).jednotka,
        forall|y: int| lp.len() <= y < l.len() ==> pp <= (#[trigger] l[y]).jednotka,
    ensures
        volby_v_jednotkach(st, zt, menu, l, q + 1, pn),
{
    assert forall|i: int| 0 <= i < lp.len() implies #[trigger] l[i] == lp[i] by {
        assert(l.take(lp.len() as int)[i] == lp[i]);
    }
    assert forall|w: int, x: int|
        0 <= w < q + 1 && menu[w].pocet_voleb == 1 && 0 <= x < rozpis_spec(menu[w].hodin_tydne, menu[w].dvojhodina).len()
            implies #[trigger] ma_skupinu(st, zt, menu[w], x, l, pn) by {
        if w < q {
            assert(ma_skupinu(st, zt, menu[w], x, lp, pp));
            let j = choose|j: int| j < pp && #[trigger] skupina_volby(st, zt, menu[w], x, lp, j);
            assert forall|k: int|
                0 <= k < menu[w].volby@.len() && zaci_volby(st, menu[w], zt, menu[w].volby@[k].id@).len() > 0 implies #[trigger] ma_lekci_volby_v(st, zt, menu[w], k, x, l, 0, j) by {
                assert(ma_lekci_volby_v(st, zt, menu[w], k, x, lp, 0, j));
                let y = choose|y: int| 0 <= y < lp.len() && lekce_volby_kx(st, zt, menu[w], k, x, #[trigger] lp[y]) && lp[y].jednotka == j;
                assert(l[y] == lp[y]);
            }
            assert forall|i: int| 0 <= i < l.len() && (#[trigger] l[i]).jednotka == j implies volba_x(st, zt, menu[w], x, l[i]) by {
                if i < lp.len() {
                    assert(l[i] == lp[i]);
                } else {
                    assert(pp <= l[i].jednotka);
                }
            }
            assert(skupina_volby(st, zt, menu[w], x, l, j));
            assert(ma_skupinu(st, zt, menu[w], x, l, pn));
        } else {
            if exists|k: int| 0 <= k < menu[q].volby@.len() && zaci_volby(st, menu[q], zt, #[trigger] menu[q].volby@[k].id@).len() > 0 {
                let k0 = choose|k: int| 0 <= k < menu[q].volby@.len() && zaci_volby(st, menu[q], zt, #[trigger] menu[q].volby@[k].id@).len() > 0;
                assert(ma_lekci_volby_v(st, zt, menu[q], k0, x, l, lp.len() as int, pp + x));
                let y0 = choose|y: int| lp.len() <= y < l.len() && lekce_volby_kx(st, zt, menu[q], k0, x, #[trigger] l[y]) && l[y].jednotka == pp + x;
                assert(lekce_platna(l[y0], zt) && l[y0].jednotka < pn);
                let j = pp + x;
                assert forall|k: int|
                    0 <= k < menu[q].volby@.len() && zaci_volby(st, menu[q], zt, menu[q].volby@[k].id@).len() > 0 implies #[trigger] ma_lekci_volby_v(st, zt, menu[q], k, x, l, 0, j) by {
                    assert(ma_lekci_volby_v(st, zt, menu[q], k, x, l, lp.len() as int, pp + x));
                    let y = choose|y: int| lp.len() <= y < l.len() && lekce_volby_kx(st, zt, menu[q], k, x, #[trigger] l[y]) && l[y].jednotka == pp + x;
                }
                assert forall|i: int| 0 <= i < l.len() && (#[trigger] l[i]).jednotka == j implies volba_x(st, zt, menu[q], x, l[i]) by {
                    if i < lp.len() {
                        assert(l[i] == lp[i]);
                        assert(lekce_platna(lp[i], zt) && lp[i].jednotka < pp);
                    } else {
                        assert(volba_x(st, zt, menu[q], l[i].jednotka - pp, l[i]));
                    }
                }
                assert(skupina_volby(st, zt, menu[q], x, l, j));
                assert(ma_skupinu(st, zt, menu[q], x, l, pn));
            } else {
                let j = -1int;
                assert forall|i: int| 0 <= i < l.len() && (#[trigger] l[i]).jednotka == j implies volba_x(st, zt, menu[q], x, l[i]) by {}
                assert(skupina_volby(st, zt, menu[q], x, l, j));
                assert(ma_skupinu(st, zt, menu[q], x, l, pn));
            }
        }
    }
    if menu_ruzna(menu) {
        assert forall|w: int, i: int|
            0 <= w < q + 1 && menu[w].pocet_voleb != 1 && 0 <= i < l.len() && #[trigger] lekce_volby(st, zt, menu[w], l[i]) implies sama_v_jednotce(l, i) by {
            lemma_volba_menu(st, zt, menu[w], l[i]);
            if i < lp.len() {
                assert(l[i] == lp[i]);
                if w < q {
                    assert(sama_v_jednotce(lp, i));
                    assert(lekce_platna(lp[i], zt) && lp[i].jednotka < pp);
                    assert forall|y: int| 0 <= y < l.len() && y != i implies (#[trigger] l[y]).jednotka != l[i].jednotka by {
                        if y < lp.len() {
                            assert(l[y] == lp[y]);
                        } else {
                            assert(pp <= l[y].jednotka);
                        }
                    }
                } else {
                    if z_planu_do(skola, st, skola.plan@.len() as int, lp[i]) {
                        let r = choose|r: int| 0 <= r < skola.plan@.len() && lekce_radku(skola, st, #[trigger] skola.plan@[r], lp[i]);
                    } else {
                        let w2 = choose|w2: int| 0 <= w2 < q && lekce_volby(st, zt, #[trigger] menu[w2], lp[i]);
                        lemma_volba_menu(st, zt, menu[w2], lp[i]);
                        assert(menu[w2].id@ != menu[q].id@);
                    }
                }
            } else {
                lemma_volba_menu(st, zt, menu[q], l[i]);
                if w < q {
                    assert(menu[w].id@ != menu[q].id@);
                } else {
                    assert forall|y: int| 0 <= y < l.len() && y != i implies (#[trigger] l[y]).jednotka != l[i].jednotka by {
                        if y < lp.len() {
                            assert(l[y] == lp[y]);
                            assert(lekce_platna(lp[y], zt) && lp[y].jednotka < pp);
                        }
                    }
                }
            }
        }
    }
}

/// Lekce `x`-té lekce volby zůstane i s jiným číslem jednotky.
proof fn lemma_kx_jednotka(st: Seq<Student>, zt: Map<u32, String>, m: crate::data::Menu, k: int, x: int, a: LekceInfo, b: LekceInfo)
    requires
        lekce_volby_kx(st, zt, m, k, x, a),
        b == (LekceInfo { jednotka: b.jednotka, ..a }),
    ensures
        lekce_volby_kx(st, zt, m, k, x, b),
{
}

/// Přečíslování jednotek, které zachová jejich pořadí, zachová i seskupení voleb.
proof fn lemma_volby_seskup(st: Seq<Student>, zt: Map<u32, String>, menu: Seq<crate::data::Menu>, l0: Seq<LekceInfo>, l1: Seq<LekceInfo>, pod: int)
    requires
        volby_v_jednotkach(st, zt, menu, l0, menu.len() as int, pod),
        l1.len() == l0.len(),
        forall|i: int| 0 <= i < l0.len() ==> (#[trigger] l1[i]) == (LekceInfo { jednotka: l1[i].jednotka, ..l0[i] }),
        forall|a: int, b: int|
            0 <= a < l0.len() && 0 <= b < l0.len() ==> (l0[a].jednotka <= l0[b].jednotka <==> (#[trigger] l1[a]).jednotka
                <= (#[trigger] l1[b]).jednotka),
    ensures
        volby_v_jednotkach(st, zt, menu, l1, menu.len() as int, usize::MAX as int + 1),
{
    assert forall|a: int, b: int| 0 <= a < l0.len() && 0 <= b < l0.len() implies (l0[a].jednotka == l0[b].jednotka <==> (#[trigger] l1[a]).jednotka
        == (#[trigger] l1[b]).jednotka) by {
        assert(l0[a].jednotka <= l0[b].jednotka <==> l1[a].jednotka <= l1[b].jednotka);
        assert(l0[b].jednotka <= l0[a].jednotka <==> l1[b].jednotka <= l1[a].jednotka);
    }
    assert forall|i: int| 0 <= i < l0.len() implies #[trigger] l0[i] == (LekceInfo { jednotka: l0[i].jednotka, ..l1[i] }) by {
        assert(l1[i] == (LekceInfo { jednotka: l1[i].jednotka, ..l0[i] }));
    }
    assert forall|w: int, x: int|
        0 <= w < menu.len() && menu[w].pocet_voleb == 1 && 0 <= x < rozpis_spec(menu[w].hodin_tydne, menu[w].dvojhodina).len()
            implies #[trigger] ma_skupinu(st, zt, menu[w], x, l1, usize::MAX as int + 1) by {
        assert(ma_skupinu(st, zt, menu[w], x, l0, pod));
        let j = choose|j: int| j < pod && #[trigger] skupina_volby(st, zt, menu[w], x, l0, j);
        if exists|i: int| 0 <= i < l0.len() && (#[trigger] l0[i]).jednotka == j {
            let i0 = choose|i: int| 0 <= i < l0.len() && (#[trigger] l0[i]).jednotka == j;
            let j1 = l1[i0].jednotka as int;
            assert forall|k: int|
                0 <= k < menu[w].volby@.len() && zaci_volby(st, menu[w], zt, menu[w].volby@[k].id@).len() > 0 implies #[trigger] ma_lekci_volby_v(st, zt, menu[w], k, x, l1, 0, j1) by {
                assert(ma_lekci_volby_v(st, zt, menu[w], k, x, l0, 0, j));
                let y = choose|y: int| 0 <= y < l0.len() && lekce_volby_kx(st, zt, menu[w], k, x, #[trigger] l0[y]) && l0[y].jednotka == j;
                lemma_kx_jednotka(st, zt, menu[w], k, x, l0[y], l1[y]);
                assert(l1[y].jednotka == l1[i0].jednotka);
            }
            assert forall|i: int| 0 <= i < l1.len() && (#[trigger] l1[i]).jednotka == j1 implies volba_x(st, zt, menu[w], x, l1[i]) by {
                assert(l0[i].jednotka == l0[i0].jednotka);
                assert(volba_x(st, zt, menu[w], x, l0[i]));
                let k = choose|k: int| #[trigger] lekce_volby_kx(st, zt, menu[w], k, x, l0[i]);
                lemma_kx_jednotka(st, zt, menu[w], k, x, l0[i], l1[i]);
            }
            assert(skupina_volby(st, zt, menu[w], x, l1, j1));
        } else {
            let j1 = -1int;
            assert forall|k: int|
                0 <= k < menu[w].volby@.len() && zaci_volby(st, menu[w], zt, menu[w].volby@[k].id@).len() > 0 implies #[trigger] ma_lekci_volby_v(st, zt, menu[w], k, x, l1, 0, j1) by {
                assert(ma_lekci_volby_v(st, zt, menu[w], k, x, l0, 0, j));
                let y = choose|y: int| 0 <= y < l0.len() && lekce_volby_kx(st, zt, menu[w], k, x, #[trigger] l0[y]) && l0[y].jednotka == j;
            }
            assert(skupina_volby(st, zt, menu[w], x, l1, j1));
        }
    }
    if menu_ruzna(menu) {
        assert forall|w: int, i: int|
            0 <= w < menu.len() && menu[w].pocet_voleb != 1 && 0 <= i < l1.len() && #[trigger] lekce_volby(st, zt, menu[w], l1[i]) implies sama_v_jednotce(l1, i) by {
            lemma_lekce_volby_jednotka(st, zt, menu[w], l1[i], l0[i]);
            assert(sama_v_jednotce(l0, i));
            assert forall|y: int| 0 <= y < l1.len() && y != i implies (#[trigger] l1[y]).jednotka != l1[i].jednotka by {
                assert(l0[y].jednotka != l0[i].jednotka);
            }
        }
    }
}

/// Sestaví lekce (z učebního plánu a z menu voleb) a jednotky (lekce, které se hýbou společně).
pub fn postav_lekce(skola: &Skola, rok: &SkolniRok) -> (v: Vstup)
    requires
        skola.tridy@.len() < 0x1000_0000,
        skola.plan@.len() * 255 <= usize::MAX,
        crate::rok::volby_platne(rok.studenti@),
    ensures
        postaveno(*skola, *rok, v),
{
    let mut varovani: Vec<String> = Vec::new();
    let mut zaci_tridy: BTreeMap<u32, String> = BTreeMap::new();
    let mut virtualni: Vec<u32> = Vec::new();
    let (podle, vynechane) = zaci_podle_trid(skola, rok, &mut varovani, &mut zaci_tridy, &mut virtualni);
    let ghost zt = zaci_tridy@;
    let ghost vw = varovani@;
    let mut lekce: Vec<LekceInfo> = Vec::new();
    let mut pocet: usize = 0;
    let mut poradi: Mapa<usize> = Mapa::new();
    let mut it: usize = 0;
    let mut p: usize = 0;
    while p < skola.plan.len()
        invariant
            zacina_na(vw, varovani@),
            p <= skola.plan@.len(),
            skola.plan@.len() * 255 <= usize::MAX,
            zt == zaci_tridy@,
            podle@.len() == skola.tridy@.len(),
            forall|t: int, k: int|
                0 <= t < podle@.len() && 0 <= k < podle@[t]@.len() ==> zt.contains_key((#[trigger] podle@[t]@[k]).id),
            rozpracovane(lekce@, zt, pocet as int),
            pocet <= lekce@.len(),
            poradi.dobre(),
            forall|x: Seq<char>| poradi.ma(x) ==> poradi.hodnota(x) <= it,
            forall|z: Seq<char>| #[trigger] pocitadlo(poradi, z) == drive_radku(*skola, rok.studenti@, p as int, z),
            it <= 255 * p,
            forall|t: int| 0 <= t < podle@.len() ==> (#[trigger] podle@[t])@.map_values(|z: Zk| clen_zk(z)) == clenove_tridy(*skola, rok.studenti@, t),
            forall|i: int| 0 <= i < lekce@.len() ==> z_planu_do(*skola, rok.studenti@, p as int, #[trigger] lekce@[i]),
            pary_uplne(lekce@, 0),
            forall|id: Seq<char>| #[trigger] crate::data::retezce(vynechane@).contains(id) <==> vynechana(*skola, rok.studenti@, id),
            forall|r: int, j: int, x: int|
        0 <= r < p && radek_v_rozvrhu(*skola, rok.studenti@, skola.plan@[r])
            && 0 <= j < casti_radku(skola.plan@[r], clenove_radku(*skola, rok.studenti@, skola.plan@[r])).len()
            && 0 <= x < rozpis_spec(skola.plan@[r].hodin, skola.plan@[r].dvoj).len()
            && casti_radku(skola.plan@[r], clenove_radku(*skola, rok.studenti@, skola.plan@[r]))[j].4.len() > 0
            ==> #[trigger] ma_lekci_casti(skola.plan@[r], clenove_radku(*skola, rok.studenti@, skola.plan@[r]), j, x, drive_radku(*skola, rok.studenti@, r, zaklad_klice(skola.plan@[r])), lekce@, 0),
        decreases skola.plan@.len() - p,
    {
        let ph = &skola.plan[p];
        let ghost lp0 = lekce@;
        let ghost por_p = poradi;
        let ghost mut volano = false;
        if !crate::rok::obsahuje(&vynechane, ph.trida.as_str()) {
            match skola.pozice_tridy(ph.trida.as_str()) {
                None => {
                    varovani.push(crate::text::spoj(&["Plán: neznámá třída „", ph.trida.as_str(), "“ (", ph.predmet.as_str(), ")."]));
                },
                Some(t) => {
                    let ghost lp = lekce@;
                    proof {
                        volano = true;
                        assert(radek_v_rozvrhu(*skola, rok.studenti@, *ph));
                    }
                    lekce_planu(skola, ph, &podle[t], &mut lekce, &mut pocet, &mut poradi, &mut it, Ghost(zt), Ghost(clenove_tridy(*skola, rok.studenti@, t as int)));
                    proof {
                        lemma_pary_trvaji(0, lp, lekce@);
                        assert forall|i: int| 0 <= i < lekce@.len() implies z_planu_do(*skola, rok.studenti@, p + 1, #[trigger] lekce@[i]) by {
                            if i < lp.len() {
                                assert(lekce@.take(lp.len() as int)[i] == lekce@[i]);
                                assert(z_planu_do(*skola, rok.studenti@, p as int, lp[i]));
                                let r = choose|r: int| 0 <= r < p && lekce_radku(*skola, rok.studenti@, #[trigger] skola.plan@[r], lp[i]);
                                assert(lekce_radku(*skola, rok.studenti@, skola.plan@[r], lekce@[i]));
                            } else {
                                assert(z_radku(*ph, clenove_tridy(*skola, rok.studenti@, t as int), lekce@[i]));
                                assert(lekce_radku(*skola, rok.studenti@, skola.plan@[p as int], lekce@[i]));
                            }
                        }
                        assert forall|j: int, x: int|
                            0 <= j < casti_radku(*ph, clenove_radku(*skola, rok.studenti@, *ph)).len() && 0 <= x < rozpis_spec(ph.hodin, ph.dvoj).len()
                                && casti_radku(*ph, clenove_radku(*skola, rok.studenti@, *ph))[j].4.len() > 0
                                implies #[trigger] ma_lekci_casti(*ph, clenove_radku(*skola, rok.studenti@, *ph), j, x, drive_radku(*skola, rok.studenti@, p as int, zaklad_klice(*ph)), lekce@, 0) by {
                            assert(ma_lekci_casti(*ph, clenove_tridy(*skola, rok.studenti@, t as int), j, x, drive_radku(*skola, rok.studenti@, p as int, zaklad_klice(*ph)), lekce@, lp.len() as int));
                            let i = choose|i: int| lp.len() <= i < lekce@.len() && lekce_casti_x(*ph, clenove_tridy(*skola, rok.studenti@, t as int), j, x, drive_radku(*skola, rok.studenti@, p as int, zaklad_klice(*ph)), #[trigger] lekce@[i]);
                            assert(lekce_casti_x(*ph, clenove_radku(*skola, rok.studenti@, *ph), j, x, drive_radku(*skola, rok.studenti@, p as int, zaklad_klice(*ph)), lekce@[i]));
                        }
                    }
                },
            }
        }
        proof {
            assert(volano == radek_v_rozvrhu(*skola, rok.studenti@, skola.plan@[p as int]));
            assert forall|z: Seq<char>| #[trigger] pocitadlo(poradi, z) == drive_radku(*skola, rok.studenti@, p + 1, z) by {
                assert(pocitadlo(por_p, z) == drive_radku(*skola, rok.studenti@, p as int, z));
                if !volano {
                    assert(poradi == por_p);
                }
            }
            assert(lekce@.take(lp0.len() as int) == lp0) by {
                if lekce@.len() == lp0.len() {
                    assert(lekce@.take(lp0.len() as int) =~= lekce@);
                }
            }
            assert forall|r: int, j: int, x: int|
                0 <= r < p + 1 && radek_v_rozvrhu(*skola, rok.studenti@, skola.plan@[r])
                    && 0 <= j < casti_radku(skola.plan@[r], clenove_radku(*skola, rok.studenti@, skola.plan@[r])).len()
                    && 0 <= x < rozpis_spec(skola.plan@[r].hodin, skola.plan@[r].dvoj).len()
                    && casti_radku(skola.plan@[r], clenove_radku(*skola, rok.studenti@, skola.plan@[r]))[j].4.len() > 0
                    implies #[trigger] ma_lekci_casti(skola.plan@[r], clenove_radku(*skola, rok.studenti@, skola.plan@[r]), j, x, drive_radku(*skola, rok.studenti@, r, zaklad_klice(skola.plan@[r])), lekce@, 0) by {
                if r < p {
                    lemma_casti_trvaji(skola.plan@[r], clenove_radku(*skola, rok.studenti@, skola.plan@[r]), lp0, lekce@, 0);
                    assert(ma_lekci_casti(skola.plan@[r], clenove_radku(*skola, rok.studenti@, skola.plan@[r]), j, x, drive_radku(*skola, rok.studenti@, r, zaklad_klice(skola.plan@[r])), lp0, 0));
                } else {
                    assert(!crate::data::retezce(vynechane@).contains(ph.trida@));
                }
            }
            assert forall|i: int| 0 <= i < lekce@.len() implies z_planu_do(*skola, rok.studenti@, p + 1, #[trigger] lekce@[i]) by {
                if !z_planu_do(*skola, rok.studenti@, p as int, lekce@[i]) {
                }
                let r = choose|r: int| 0 <= r < p && lekce_radku(*skola, rok.studenti@, #[trigger] skola.plan@[r], lekce@[i]);
                if !(0 <= r < p && lekce_radku(*skola, rok.studenti@, skola.plan@[r], lekce@[i])) {
                    assert(z_planu_do(*skola, rok.studenti@, p + 1, lekce@[i]));
                }
            }
        }
        p = p + 1;
    }
    proof {
        assert forall|i: int| 0 <= i < lekce@.len() implies z_planu_do(*skola, rok.studenti@, skola.plan@.len() as int, #[trigger] lekce@[i])
            || z_menu_do(rok.studenti@, zt, rok.menu@, 0, lekce@[i]) by {
            assert(z_planu_do(*skola, rok.studenti@, p as int, lekce@[i]));
        }
    }
    let mut q: usize = 0;
    while q < rok.menu.len()
        invariant
            zacina_na(vw, varovani@),
            q <= rok.menu@.len(),
            zt == zaci_tridy@,
            rozpracovane(lekce@, zt, pocet as int),
            pocet <= lekce@.len(),
            crate::rok::volby_platne(rok.studenti@),
            forall|i: int| 0 <= i < lekce@.len() ==> z_planu_do(*skola, rok.studenti@, skola.plan@.len() as int, #[trigger] lekce@[i])
                || z_menu_do(rok.studenti@, zt, rok.menu@, q as int, lekce@[i]),
            forall|w: int, k: int, x: int|
                0 <= w < q && 0 <= k < rok.menu@[w].volby@.len() && 0 <= x < rozpis_spec(rok.menu@[w].hodin_tydne, rok.menu@[w].dvojhodina).len()
                    && zaci_volby(rok.studenti@, rok.menu@[w], zt, rok.menu@[w].volby@[k].id@).len() > 0
                    ==> #[trigger] ma_lekci_volby(rok.studenti@, zt, rok.menu@[w], k, x, lekce@, 0),
            pary_uplne(lekce@, 0),
            forall|r: int, j: int, x: int|
                0 <= r < skola.plan@.len() && radek_v_rozvrhu(*skola, rok.studenti@, skola.plan@[r])
                    && 0 <= j < casti_radku(skola.plan@[r], clenove_radku(*skola, rok.studenti@, skola.plan@[r])).len()
                    && 0 <= x < rozpis_spec(skola.plan@[r].hodin, skola.plan@[r].dvoj).len()
                    && casti_radku(skola.plan@[r], clenove_radku(*skola, rok.studenti@, skola.plan@[r]))[j].4.len() > 0
                    ==> #[trigger] ma_lekci_casti(skola.plan@[r], clenove_radku(*skola, rok.studenti@, skola.plan@[r]), j, x, drive_radku(*skola, rok.studenti@, r, zaklad_klice(skola.plan@[r])), lekce@, 0),
            volby_v_jednotkach(rok.studenti@, zt, rok.menu@, lekce@, q as int, pocet as int),
        decreases rok.menu@.len() - q,
    {
        let ghost lp = lekce@;
        let ghost pp = pocet;
        let ghost wq = varovani@;
        lekce_menu(skola, rok, &rok.menu[q], &zaci_tridy, &mut lekce, &mut pocet, &mut varovani);
        proof {
            assert forall|j: int| 0 <= j < vw.len() implies #[trigger] varovani@[j] == vw[j] by {
                assert(wq[j] == vw[j]);
            }
            lemma_volby_po_menu(*skola, rok.studenti@, zt, rok.menu@, q as int, lp, lekce@, pp as int, pocet as int);
            assert forall|i: int| lp.len() <= i < lekce@.len() && (#[trigger] lekce@[i]).tyden != Tyden::Oba implies lekce@[i].par.is_some() by {
                assert(lekce_volby(rok.studenti@, zt, rok.menu@[q as int], lekce@[i]));
                let (k, x) = choose|k: int, x: int| #[trigger] lekce_volby_kx(rok.studenti@, zt, rok.menu@[q as int], k, x, lekce@[i]);
            }
            lemma_pary_trvaji(0, lp, lekce@);
            assert forall|i: int| 0 <= i < lekce@.len() implies z_planu_do(*skola, rok.studenti@, skola.plan@.len() as int, #[trigger] lekce@[i])
                || z_menu_do(rok.studenti@, zt, rok.menu@, q + 1, lekce@[i]) by {
                if i < lp.len() {
                    assert(lekce@.take(lp.len() as int)[i] == lekce@[i]);
                    assert(z_planu_do(*skola, rok.studenti@, skola.plan@.len() as int, lp[i]) || z_menu_do(rok.studenti@, zt, rok.menu@, q as int, lp[i]));
                    if z_menu_do(rok.studenti@, zt, rok.menu@, q as int, lp[i]) {
                        let w = choose|w: int| 0 <= w < q && lekce_volby(rok.studenti@, zt, #[trigger] rok.menu@[w], lp[i]);
                        assert(lekce_volby(rok.studenti@, zt, rok.menu@[w], lekce@[i]));
                    }
                } else {
                    assert(lekce_volby(rok.studenti@, zt, rok.menu@[q as int], lekce@[i]));
                }
            }
            assert forall|r: int, j: int, x: int|
                0 <= r < skola.plan@.len() && radek_v_rozvrhu(*skola, rok.studenti@, skola.plan@[r])
                    && 0 <= j < casti_radku(skola.plan@[r], clenove_radku(*skola, rok.studenti@, skola.plan@[r])).len()
                    && 0 <= x < rozpis_spec(skola.plan@[r].hodin, skola.plan@[r].dvoj).len()
                    && casti_radku(skola.plan@[r], clenove_radku(*skola, rok.studenti@, skola.plan@[r]))[j].4.len() > 0
                    implies #[trigger] ma_lekci_casti(skola.plan@[r], clenove_radku(*skola, rok.studenti@, skola.plan@[r]), j, x, drive_radku(*skola, rok.studenti@, r, zaklad_klice(skola.plan@[r])), lekce@, 0) by {
                lemma_casti_trvaji(skola.plan@[r], clenove_radku(*skola, rok.studenti@, skola.plan@[r]), lp, lekce@, 0);
                assert(ma_lekci_casti(skola.plan@[r], clenove_radku(*skola, rok.studenti@, skola.plan@[r]), j, x, drive_radku(*skola, rok.studenti@, r, zaklad_klice(skola.plan@[r])), lp, 0));
            }
            assert forall|w: int, k: int, x: int|
                0 <= w < q + 1 && 0 <= k < rok.menu@[w].volby@.len() && 0 <= x < rozpis_spec(rok.menu@[w].hodin_tydne, rok.menu@[w].dvojhodina).len()
                    && zaci_volby(rok.studenti@, rok.menu@[w], zt, rok.menu@[w].volby@[k].id@).len() > 0
                    implies #[trigger] ma_lekci_volby(rok.studenti@, zt, rok.menu@[w], k, x, lekce@, 0) by {
                if w < q {
                    assert(ma_lekci_volby(rok.studenti@, zt, rok.menu@[w], k, x, lp, 0));
                    let y = choose|y: int| 0 <= y < lp.len() && lekce_volby_kx(rok.studenti@, zt, rok.menu@[w], k, x, #[trigger] lp[y]);
                    assert(lekce@.take(lp.len() as int)[y] == lekce@[y]);
                    assert(lekce_volby_kx(rok.studenti@, zt, rok.menu@[w], k, x, lekce@[y]));
                } else {
                    assert(ma_lekci_volby(rok.studenti@, zt, rok.menu@[w], k, x, lekce@, lp.len() as int));
                    let y = choose|y: int| lp.len() <= y < lekce@.len() && lekce_volby_kx(rok.studenti@, zt, rok.menu@[w], k, x, #[trigger] lekce@[y]);
                }
            }
        }
        q = q + 1;
    }
    let ghost l0 = lekce@;
    let jednotky = seskup(&mut lekce, pocet);
    proof {
        lemma_volby_seskup(rok.studenti@, zt, rok.menu@, l0, lekce@, pocet as int);
        assert forall|i: int| 0 <= i < lekce@.len() && (#[trigger] lekce@[i]).tyden != Tyden::Oba implies lekce@[i].par.is_some() by {
            assert(l0[i].tyden != Tyden::Oba ==> l0[i].par.is_some());
        }
        assert forall|i: int| 0 <= i < lekce@.len() implies lekce_platna(#[trigger] lekce@[i], zt) by {
            assert(lekce_platna(l0[i], zt));
            assert(lekce@[i].zaci == l0[i].zaci);
        }
        assert forall|i: int| 0 <= i < lekce@.len() implies #[trigger] par_ok(lekce@, i) by {
            assert(par_ok(l0, i));
            match l0[i].par {
                Some(x) => {
                    assert(lekce@[x as int].par == l0[x as int].par);
                    assert(l0[x as int].jednotka <= l0[i].jednotka && l0[i].jednotka <= l0[x as int].jednotka);
                    assert(lekce@[x as int].jednotka <= lekce@[i].jednotka);
                    assert(lekce@[i].jednotka <= lekce@[x as int].jednotka);
                },
                None => {},
            }
        }
    }
    proof {
        assert forall|i: int| 0 <= i < lekce@.len() implies ((#[trigger] lekce@[i]).menu.is_none() ==> z_planu_do(*skola, rok.studenti@, skola.plan@.len() as int, lekce@[i]))
            && (lekce@[i].menu.is_some() ==> z_menu_do(rok.studenti@, zt, rok.menu@, rok.menu@.len() as int, lekce@[i])) by {
            assert(z_planu_do(*skola, rok.studenti@, skola.plan@.len() as int, l0[i]) || z_menu_do(rok.studenti@, zt, rok.menu@, rok.menu@.len() as int, l0[i]));
            if z_planu_do(*skola, rok.studenti@, skola.plan@.len() as int, l0[i]) {
                let r = choose|r: int| 0 <= r < skola.plan@.len() && lekce_radku(*skola, rok.studenti@, #[trigger] skola.plan@[r], l0[i]);
                assert(lekce_radku(*skola, rok.studenti@, skola.plan@[r], lekce@[i]));
            } else {
                let w = choose|w: int| 0 <= w < rok.menu@.len() && lekce_volby(rok.studenti@, zt, #[trigger] rok.menu@[w], l0[i]);
                lemma_lekce_volby_jednotka(rok.studenti@, zt, rok.menu@[w], l0[i], lekce@[i]);
            }
        }
        assert forall|w: int, k: int, x: int|
            0 <= w < rok.menu@.len() && 0 <= k < rok.menu@[w].volby@.len() && 0 <= x < rozpis_spec(rok.menu@[w].hodin_tydne, rok.menu@[w].dvojhodina).len()
                && zaci_volby(rok.studenti@, rok.menu@[w], zt, rok.menu@[w].volby@[k].id@).len() > 0
                implies #[trigger] ma_lekci_volby(rok.studenti@, zt, rok.menu@[w], k, x, lekce@, 0) by {
            assert(ma_lekci_volby(rok.studenti@, zt, rok.menu@[w], k, x, l0, 0));
            let y = choose|y: int| 0 <= y < l0.len() && lekce_volby_kx(rok.studenti@, zt, rok.menu@[w], k, x, #[trigger] l0[y]);
            assert(lekce_volby_kx(rok.studenti@, zt, rok.menu@[w], k, x, lekce@[y]));
        }
        assert forall|r: int, j: int, x: int|
            0 <= r < skola.plan@.len() && radek_v_rozvrhu(*skola, rok.studenti@, skola.plan@[r])
                && 0 <= j < casti_radku(skola.plan@[r], clenove_radku(*skola, rok.studenti@, skola.plan@[r])).len()
                && 0 <= x < rozpis_spec(skola.plan@[r].hodin, skola.plan@[r].dvoj).len()
                && casti_radku(skola.plan@[r], clenove_radku(*skola, rok.studenti@, skola.plan@[r]))[j].4.len() > 0
                implies #[trigger] ma_lekci_casti(skola.plan@[r], clenove_radku(*skola, rok.studenti@, skola.plan@[r]), j, x, drive_radku(*skola, rok.studenti@, r, zaklad_klice(skola.plan@[r])), lekce@, 0) by {
            let c = clenove_radku(*skola, rok.studenti@, skola.plan@[r]);
            assert(ma_lekci_casti(skola.plan@[r], c, j, x, drive_radku(*skola, rok.studenti@, r, zaklad_klice(skola.plan@[r])), l0, 0));
            let y = choose|y: int| 0 <= y < l0.len() && lekce_casti_x(skola.plan@[r], c, j, x, drive_radku(*skola, rok.studenti@, r, zaklad_klice(skola.plan@[r])), #[trigger] l0[y]);
            assert(lekce_casti_x(skola.plan@[r], c, j, x, drive_radku(*skola, rok.studenti@, r, zaklad_klice(skola.plan@[r])), lekce@[y]));
        }
    }
    proof {
        assert forall|t: int|
            0 <= t < skola.tridy@.len() && vynechana_t(*skola, rok.studenti@, t) implies crate::validation::hlasi(
                varovani@,
                text_prazdne_tridy(#[trigger] skola.tridy@[t]),
            ) by {
            assert(crate::validation::hlasi(vw, text_prazdne_tridy(skola.tridy@[t])));
            let j = choose|j: int| 0 <= j < vw.len() && (#[trigger] vw[j])@ == text_prazdne_tridy(skola.tridy@[t]);
            assert(varovani@[j] == vw[j]);
        }
    }
    Vstup { lekce, jednotky, varovani, virtualni, zaci_tridy }
}

/// Menší ze dvou čísel.
pub open spec fn mensi(a: int, b: int) -> int {
    if a <= b {
        a
    } else {
        b
    }
}

/// Kolik hodin týdně třída s limitem P1 pojme (nejvýš `DNY * MAX_DEN_TRIDA`).
pub open spec fn kapacita_spec(lim: Omezeni, za_den: bool, odpo_od: int) -> int {
    let stred = if odpo_od >= 1 { odpo_od - 1 } else { 0 };
    let odpo_max = SLOTU - odpo_od;
    let cap = if za_den {
        let e = match lim.rane {
            Some(x) => mensi(x as int, 1),
            None => 1,
        };
        let a = match lim.odpoledni {
            Some(x) => mensi(x as int, odpo_max),
            None => odpo_max,
        };
        DNY * (stred + e + a)
    } else {
        let e = match lim.rane {
            Some(x) => mensi(x as int, DNY as int),
            None => DNY as int,
        };
        let a = match lim.odpoledni {
            Some(x) => mensi(x as int, DNY * odpo_max),
            None => DNY * odpo_max,
        };
        DNY * stred + e + a
    };
    mensi(cap, (DNY * MAX_DEN_TRIDA) as int)
}

/// Kapacita týdne třídy s daným limitem P1.
pub fn kapacita_tydne(lim: Omezeni, za_den: bool, odpo_od: usize) -> (r: usize)
    requires
        odpo_od <= SLOTU,
    ensures
        r == kapacita_spec(lim, za_den, odpo_od as int),
{
    let stred: usize = if odpo_od >= 1 { odpo_od - 1 } else { 0 };
    let odpo_max: usize = SLOTU - odpo_od;
    let cap: usize = if za_den {
        let e: usize = match lim.rane {
            Some(x) => if (x as usize) < 1 { x as usize } else { 1 },
            None => 1,
        };
        let a: usize = match lim.odpoledni {
            Some(x) => if (x as usize) < odpo_max { x as usize } else { odpo_max },
            None => odpo_max,
        };
        DNY * (stred + e + a)
    } else {
        let e: usize = match lim.rane {
            Some(x) => if (x as usize) < DNY { x as usize } else { DNY },
            None => DNY,
        };
        let a: usize = match lim.odpoledni {
            Some(x) => if (x as usize) < DNY * odpo_max { x as usize } else { DNY * odpo_max },
            None => DNY * odpo_max,
        };
        DNY * stred + e + a
    };
    if cap < DNY * MAX_DEN_TRIDA {
        cap
    } else {
        DNY * MAX_DEN_TRIDA
    }
}

/// Povolenost hodiny `k` dne pro třídu s limitem P1.
pub open spec fn maska_spec(lim: Omezeni, odpo_od: int, k: int) -> bool {
    match lim.odpoledni {
        Some(a) if k >= odpo_od => k < odpo_od + a,
        _ => !(k == 0 && lim.rane == Some(0u8)),
    }
}

/// Povolené hodiny dne pro třídu s daným limitem (`SLOTU` položek).
pub fn maska_tridy(lim: Omezeni, odpo_od: usize) -> (m: Vec<bool>)
    ensures
        m@.len() == SLOTU,
        forall|k: int| 0 <= k < SLOTU ==> #[trigger] m@[k] == maska_spec(lim, odpo_od as int, k),
{
    let mut m: Vec<bool> = Vec::new();
    let mut k: usize = 0;
    while k < SLOTU
        invariant
            k <= SLOTU,
            m@.len() == k,
            forall|x: int| 0 <= x < k ==> #[trigger] m@[x] == maska_spec(lim, odpo_od as int, x),
        decreases SLOTU - k,
    {
        let b = match lim.odpoledni {
            Some(a) => if k >= odpo_od {
                k < odpo_od + a as usize
            } else {
                !(k == 0 && lim.rane == Some(0u8))
            },
            None => !(k == 0 && lim.rane == Some(0u8)),
        };
        m.push(b);
        k = k + 1;
    }
    m
}

/// Předpona týdne lekce.
pub open spec fn prefix_spec(t: Tyden) -> Seq<char> {
    match t {
        Tyden::Oba => ""@,
        Tyden::L => "L·"@,
        Tyden::S => "S·"@,
    }
}

/// Popis lekce: „L·MAT AJa (prima+sekunda, NOV)“.
pub open spec fn popis_spec(l: LekceInfo) -> Seq<char> {
    let sk = if l.skupina@.len() == 0 { Seq::<char>::empty() } else { " "@ + l.skupina@ };
    prefix_spec(l.tyden) + l.predmet@ + sk + " ("@ + crate::text::spojeni_odd(
        l.tridy@.map_values(|x: String| x@),
        "+"@,
    ) + ", "@ + l.ucitel@ + ")"@
}

pub fn popis_lekce(l: &LekceInfo) -> (r: String)
    ensures
        r@ == popis_spec(*l),
{
    let tr = crate::text::spoj_oddelene(&l.tridy, "+");
    let sk = if l.skupina.as_str().is_empty() {
        String::new()
    } else {
        crate::text::spoj(&[" ", l.skupina.as_str()])
    };
    let pf = l.tyden.prefix();
    let casti = [pf, l.predmet.as_str(), sk.as_str(), " (", tr.as_str(), ", ", l.ucitel.as_str(), ")"];
    let r = crate::text::spoj(&casti);
    proof {
        assert(pf@ == prefix_spec(l.tyden));
        let c = casti@.map_values(|x: &str| x@);
        assert(c =~= seq![pf@, l.predmet@, sk@, " ("@, tr@, ", "@, l.ucitel@, ")"@]);
        reveal_with_fuel(crate::text::spojeni, 9);
        assert(crate::text::spojeni(c) =~= pf@ + l.predmet@ + sk@ + " ("@ + tr@ + ", "@ + l.ucitel@ + ")"@);
    }
    r
}

/// Průběh řešení (pro zobrazení uživateli).
#[derive(Clone, Debug, Default)]
pub struct Prubeh {
    pub faze: String,
    pub iterace: u64,
    pub tvrde: i64,
    pub mekke: i64,
    /// Doba řešení v milisekundách.
    pub cas_ms: u64,
}

/// Přidá řetězec, není-li už v seznamu.
fn pridej_jednou(out: &mut Vec<String>, x: &String)
    ensures
        crate::data::retezce(old(out)@).contains(x@) ==> final(out)@ == old(out)@,
        !crate::data::retezce(old(out)@).contains(x@) ==> final(out)@ == old(out)@.push(*x),
{
    if !crate::rok::obsahuje(out, x.as_str()) {
        out.push(x.clone());
    }
}

/// Každý prvek posloupnosti je jinde než ostatní.
pub open spec fn bez_opakovani(v: Seq<Seq<char>>) -> bool {
    forall|a: int, b: int| 0 <= a < b < v.len() ==> v[a] != v[b]
}

/// Přidání bez opakování zachová bez opakování a obsah rozšíří o prvek.
proof fn lemma_pridej_jednou(a: Seq<String>, b: Seq<String>, x: String)
    requires
        bez_opakovani(crate::data::retezce(a)),
        crate::data::retezce(a).contains(x@) ==> b == a,
        !crate::data::retezce(a).contains(x@) ==> b == a.push(x),
    ensures
        bez_opakovani(crate::data::retezce(b)),
        crate::data::retezce(b).contains(x@),
        forall|y: Seq<char>| #[trigger] crate::data::retezce(b).contains(y) <==> (crate::data::retezce(a).contains(y) || y == x@),
{
    let ra = crate::data::retezce(a);
    let rb = crate::data::retezce(b);
    if !ra.contains(x@) {
        assert(rb =~= ra.push(x@));
        assert(rb[ra.len() as int] == x@);
        assert forall|y: Seq<char>| #[trigger] rb.contains(y) <==> (ra.contains(y) || y == x@) by {
            if rb.contains(y) {
                let k = choose|k: int| 0 <= k < rb.len() && rb[k] == y;
                if k < ra.len() {
                    assert(ra[k] == y);
                }
            }
            if ra.contains(y) {
                let k = choose|k: int| 0 <= k < ra.len() && ra[k] == y;
                assert(rb[k] == y);
            }
        }
    }
}

/// Prvky v pořadí prvního výskytu, bez opakování.
pub open spec fn jednou(s: Seq<Seq<char>>) -> Seq<Seq<char>>
    decreases s.len(),
{
    if s.len() == 0 {
        Seq::empty()
    } else {
        let r = jednou(s.drop_last());
        if r.contains(s.last()) {
            r
        } else {
            r.push(s.last())
        }
    }
}

/// Místnost `id` existuje a je kmenová.
pub open spec fn kmenova_mistnost(skola: Skola, id: Seq<char>) -> bool {
    let m = index_mistnosti(skola.mistnosti@, id);
    m >= 0 && skola.mistnosti@[m].kmenova
}

/// Preferovaná místnost učitele lekce, je-li mezi odbornými, nebo smí-li lekce do kmenové
/// a místnost kmenová je.
pub open spec fn pref_lekce(skola: Skola, l: LekceInfo) -> Seq<Seq<char>> {
    let u = crate::data::index_ucitele(skola.ucitele@, l.ucitel@);
    if u >= 0 {
        match skola.ucitele@[u].preferovana_mistnost {
            Some(p) => if crate::data::retezce(l.kandidati@).contains(p@) || (l.kmenova_ok && kmenova_mistnost(skola, p@)) {
                seq![p@]
            } else {
                Seq::empty()
            },
            None => Seq::empty(),
        }
    } else {
        Seq::empty()
    }
}

/// Kmenové učebny známých tříd ze seznamu, v jeho pořadí.
pub open spec fn kmenove_trid(skola: Skola, tridy: Seq<Seq<char>>) -> Seq<Seq<char>>
    decreases tridy.len(),
{
    if tridy.len() == 0 {
        Seq::empty()
    } else {
        let r = kmenove_trid(skola, tridy.drop_last());
        let t = index_tridy(skola.tridy@, tridy.last());
        if t >= 0 {
            r.push(skola.tridy@[t].kmenova@)
        } else {
            r
        }
    }
}

/// Kmenové učebny školy v pořadí číselníku.
pub open spec fn kmenove_skoly(m: Seq<crate::data::Mistnost>) -> Seq<Seq<char>>
    decreases m.len(),
{
    if m.len() == 0 {
        Seq::empty()
    } else if m.last().kmenova {
        kmenove_skoly(m.drop_last()).push(m.last().id@)
    } else {
        kmenove_skoly(m.drop_last())
    }
}

/// Místnosti lekce v pořadí preference (i s opakováním): preferovaná učitelem, odborné,
/// a smí-li lekce do kmenové (nebo nemá odborné), kmenové jejích tříd a pak ostatní kmenové.
pub open spec fn poradi_mistnosti(skola: Skola, l: LekceInfo) -> Seq<Seq<char>> {
    pref_lekce(skola, l) + crate::data::retezce(l.kandidati@) + if l.kmenova_ok || l.kandidati@.len() == 0 {
        kmenove_trid(skola, crate::data::retezce(l.tridy@)) + kmenove_skoly(skola.mistnosti@)
    } else {
        Seq::empty()
    }
}

/// Přidání prvku k pořadí prvního výskytu.
proof fn lemma_jednou_push(s: Seq<Seq<char>>, x: Seq<char>)
    ensures
        jednou(s.push(x)) == if jednou(s).contains(x) {
            jednou(s)
        } else {
            jednou(s).push(x)
        },
{
    assert(s.push(x).drop_last() =~= s);
}

/// Povolené místnosti lekce v pořadí preference:
/// preferovaná učitelem ➡ odborné ➡ kmenová třídy ➡ ostatní kmenové (přeliv).
#[verifier::spinoff_prover]
#[verifier::rlimit(40)]
pub fn povolene_mistnosti(skola: &Skola, l: &LekceInfo) -> (out: Vec<String>)
    ensures
        crate::data::retezce(out@) == jednou(poradi_mistnosti(*skola, *l)),
        bez_opakovani(crate::data::retezce(out@)),
        forall|k: int| 0 <= k < l.kandidati@.len() ==> crate::data::retezce(out@).contains(#[trigger] l.kandidati@[k]@),
        l.kmenova_ok || l.kandidati@.len() == 0 ==> forall|k: int|
            0 <= k < skola.mistnosti@.len() && (#[trigger] skola.mistnosti@[k]).kmenova ==> crate::data::retezce(out@).contains(
                skola.mistnosti@[k].id@,
            ),
        !(l.kmenova_ok || l.kandidati@.len() == 0) ==> forall|y: Seq<char>|
            #[trigger] crate::data::retezce(out@).contains(y) ==> crate::data::retezce(l.kandidati@).contains(y),
{
    let ghost tr = crate::data::retezce(l.tridy@);
    let mut out: Vec<String> = Vec::new();
    let mut kmenove_tr: Vec<String> = Vec::new();
    let mut t: usize = 0;
    while t < l.tridy.len()
        invariant
            t <= l.tridy@.len(),
            tr == crate::data::retezce(l.tridy@),
            crate::data::retezce(kmenove_tr@) == kmenove_trid(*skola, tr.take(t as int)),
        decreases l.tridy@.len() - t,
    {
        proof {
            assert(tr.take(t + 1).drop_last() =~= tr.take(t as int));
            assert(tr.take(t + 1).last() == l.tridy@[t as int]@);
        }
        match skola.trida(l.tridy[t].as_str()) {
            Some(x) => {
                let ghost k0 = kmenove_tr@;
                kmenove_tr.push(x.kmenova.clone());
                proof {
                    assert(crate::data::retezce(kmenove_tr@) =~= crate::data::retezce(k0).push(x.kmenova@));
                }
            },
            None => {},
        }
        t = t + 1;
    }
    proof {
        assert(tr.take(tr.len() as int) =~= tr);
    }
    let prelit = l.kmenova_ok || l.kandidati.len() == 0;
    let ghost pref = pref_lekce(*skola, *l);
    match skola.ucitel(l.ucitel.as_str()) {
        Some(u) => match &u.preferovana_mistnost {
            Some(pref_m) => {
                let je_kmenova = match skola.mistnost(pref_m.as_str()) {
                    Some(m) => m.kmenova,
                    None => false,
                };
                if crate::rok::obsahuje(&l.kandidati, pref_m.as_str()) || (l.kmenova_ok && je_kmenova) {
                    let ghost o0 = out@;
                    pridej_jednou(&mut out, pref_m);
                    proof {
                        lemma_pridej_jednou(o0, out@, *pref_m);
                        assert(pref == seq![pref_m@]);
                        lemma_jednou_push(Seq::empty(), pref_m@);
                        assert(Seq::<Seq<char>>::empty().push(pref_m@) =~= pref);
                        assert(crate::data::retezce(out@) =~= seq![pref_m@]);
                    }
                } else {
                    proof {
                        assert(pref =~= Seq::<Seq<char>>::empty());
                    }
                }
            },
            None => {
                proof {
                    assert(pref =~= Seq::<Seq<char>>::empty());
                }
            },
        },
        None => {
            proof {
                assert(pref =~= Seq::<Seq<char>>::empty());
            }
        },
    }
    proof {
        assert(crate::data::retezce(out@) =~= jednou(pref)) by {
            if pref.len() == 0 {
                assert(out@.len() == 0);
            }
        }
        if !prelit {
            assert forall|y: Seq<char>| #[trigger] crate::data::retezce(out@).contains(y) implies crate::data::retezce(l.kandidati@).contains(y) by {
                if crate::data::retezce(out@).contains(y) {
                    let k = choose|k: int| 0 <= k < crate::data::retezce(out@).len() && crate::data::retezce(out@)[k] == y;
                    assert(out@.len() == 1);
                }
            }
        }
    }
    let ghost kand = crate::data::retezce(l.kandidati@);
    let mut k: usize = 0;
    while k < l.kandidati.len()
        invariant
            k <= l.kandidati@.len(),
            kand == crate::data::retezce(l.kandidati@),
            prelit == (l.kmenova_ok || l.kandidati@.len() == 0),
            bez_opakovani(crate::data::retezce(out@)),
            crate::data::retezce(out@) == jednou(pref + kand.take(k as int)),
            forall|x: int| 0 <= x < k ==> crate::data::retezce(out@).contains(#[trigger] l.kandidati@[x]@),
            !prelit ==> forall|y: Seq<char>|
                #[trigger] crate::data::retezce(out@).contains(y) ==> crate::data::retezce(l.kandidati@).contains(y),
        decreases l.kandidati@.len() - k,
    {
        let ghost o0 = out@;
        pridej_jednou(&mut out, &l.kandidati[k]);
        proof {
            lemma_pridej_jednou(o0, out@, l.kandidati@[k as int]);
            assert(crate::data::retezce(l.kandidati@)[k as int] == l.kandidati@[k as int]@);
            assert(pref + kand.take(k + 1) =~= (pref + kand.take(k as int)).push(kand[k as int]));
            lemma_jednou_push(pref + kand.take(k as int), kand[k as int]);
            if crate::data::retezce(o0).contains(kand[k as int]) {
                assert(out@ == o0);
            } else {
                assert(crate::data::retezce(out@) =~= crate::data::retezce(o0).push(kand[k as int]));
            }
            assert forall|x: int| 0 <= x < k + 1 implies crate::data::retezce(out@).contains(#[trigger] l.kandidati@[x]@) by {
                if x < k {
                    assert(crate::data::retezce(o0).contains(l.kandidati@[x]@));
                }
            }
        }
        k = k + 1;
    }
    proof {
        assert(kand.take(kand.len() as int) =~= kand);
    }
    if prelit {
        let ghost km = crate::data::retezce(kmenove_tr@);
        let mut k: usize = 0;
        while k < kmenove_tr.len()
            invariant
                k <= kmenove_tr@.len(),
                km == crate::data::retezce(kmenove_tr@),
                bez_opakovani(crate::data::retezce(out@)),
                crate::data::retezce(out@) == jednou(pref + kand + km.take(k as int)),
                forall|x: int| 0 <= x < l.kandidati@.len() ==> crate::data::retezce(out@).contains(#[trigger] l.kandidati@[x]@),
            decreases kmenove_tr@.len() - k,
        {
            let ghost o0 = out@;
            pridej_jednou(&mut out, &kmenove_tr[k]);
            proof {
                lemma_pridej_jednou(o0, out@, kmenove_tr@[k as int]);
                assert(km[k as int] == kmenove_tr@[k as int]@);
                assert(pref + kand + km.take(k + 1) =~= (pref + kand + km.take(k as int)).push(km[k as int]));
                lemma_jednou_push(pref + kand + km.take(k as int), km[k as int]);
                if crate::data::retezce(o0).contains(km[k as int]) {
                    assert(out@ == o0);
                } else {
                    assert(crate::data::retezce(out@) =~= crate::data::retezce(o0).push(km[k as int]));
                }
                assert forall|x: int| 0 <= x < l.kandidati@.len() implies crate::data::retezce(out@).contains(#[trigger] l.kandidati@[x]@) by {
                    assert(crate::data::retezce(o0).contains(l.kandidati@[x]@));
                }
            }
            k = k + 1;
        }
        proof {
            assert(km.take(km.len() as int) =~= km);
        }
        let ghost ks = kmenove_skoly(skola.mistnosti@);
        let mut k: usize = 0;
        while k < skola.mistnosti.len()
            invariant
                k <= skola.mistnosti@.len(),
                bez_opakovani(crate::data::retezce(out@)),
                crate::data::retezce(out@) == jednou(pref + kand + km + kmenove_skoly(skola.mistnosti@.take(k as int))),
                forall|x: int| 0 <= x < l.kandidati@.len() ==> crate::data::retezce(out@).contains(#[trigger] l.kandidati@[x]@),
                forall|x: int|
                    0 <= x < k && (#[trigger] skola.mistnosti@[x]).kmenova ==> crate::data::retezce(out@).contains(
                        skola.mistnosti@[x].id@,
                    ),
            decreases skola.mistnosti@.len() - k,
        {
            proof {
                assert(skola.mistnosti@.take(k + 1).drop_last() =~= skola.mistnosti@.take(k as int));
                assert(skola.mistnosti@.take(k + 1).last() == skola.mistnosti@[k as int]);
            }
            if skola.mistnosti[k].kmenova {
                let ghost o0 = out@;
                pridej_jednou(&mut out, &skola.mistnosti[k].id);
                proof {
                    let x = skola.mistnosti@[k as int].id@;
                    lemma_pridej_jednou(o0, out@, skola.mistnosti@[k as int].id);
                    let pre = pref + kand + km + kmenove_skoly(skola.mistnosti@.take(k as int));
                    assert(pref + kand + km + kmenove_skoly(skola.mistnosti@.take(k + 1)) =~= pre.push(x));
                    lemma_jednou_push(pre, x);
                    if crate::data::retezce(o0).contains(x) {
                        assert(out@ == o0);
                    } else {
                        assert(crate::data::retezce(out@) =~= crate::data::retezce(o0).push(x));
                    }
                    assert forall|y: int| 0 <= y < l.kandidati@.len() implies crate::data::retezce(out@).contains(#[trigger] l.kandidati@[y]@) by {
                        assert(crate::data::retezce(o0).contains(l.kandidati@[y]@));
                    }
                    assert forall|y: int|
                        0 <= y < k + 1 && (#[trigger] skola.mistnosti@[y]).kmenova implies crate::data::retezce(out@).contains(
                            skola.mistnosti@[y].id@,
                        ) by {
                        if y < k {
                            assert(crate::data::retezce(o0).contains(skola.mistnosti@[y].id@));
                        }
                    }
                }
            }
            k = k + 1;
        }
        proof {
            assert(skola.mistnosti@.take(skola.mistnosti@.len() as int) =~= skola.mistnosti@);
            assert(poradi_mistnosti(*skola, *l) =~= pref + kand + (km + ks));
            assert(pref + kand + km + ks =~= pref + kand + (km + ks));
        }
    } else {
        proof {
            assert(poradi_mistnosti(*skola, *l) =~= pref + kand);
            assert(pref + kand =~= pref + kand + Seq::<Seq<char>>::empty());
        }
    }
    out
}

/// Počet skutečných (ne zástupných) žáků lekce `i`.
pub open spec fn realni_zaci(v: Vysledek, i: int) -> nat {
    v.lekce@[i].zaci@.filter(|z: u32| !v.virtualni_zaci@.contains(z)).len()
}

impl Vysledek {
    /// Lekce jednotky `j` vzestupně.
    pub fn clenove_jednotky(&self, j: usize) -> (r: Vec<usize>)
        ensures
            forall|k: int| 0 <= k < r@.len() ==> (#[trigger] r@[k]) < self.lekce@.len() && self.lekce@[r@[k] as int].jednotka == j,
            forall|i: int| 0 <= i < self.lekce@.len() && (#[trigger] self.lekce@[i]).jednotka == j ==> r@.contains(i as usize),
            forall|a: int, b: int| 0 <= a < b < r@.len() ==> #[trigger] r@[a] < #[trigger] r@[b],
    {
        let mut r: Vec<usize> = Vec::new();
        let mut i: usize = 0;
        while i < self.lekce.len()
            invariant
                i <= self.lekce@.len(),
                forall|k: int| 0 <= k < r@.len() ==> (#[trigger] r@[k]) < i && self.lekce@[r@[k] as int].jednotka == j,
                forall|x: int| 0 <= x < i && (#[trigger] self.lekce@[x]).jednotka == j ==> r@.contains(x as usize),
                forall|a: int, b: int| 0 <= a < b < r@.len() ==> #[trigger] r@[a] < #[trigger] r@[b],
            decreases self.lekce@.len() - i,
        {
            if self.lekce[i].jednotka == j {
                let ghost r0 = r@;
                r.push(i);
                proof {
                    assert forall|x: int| 0 <= x < i + 1 && (#[trigger] self.lekce@[x]).jednotka == j implies r@.contains(x as usize) by {
                        if x < i {
                            crate::hledani::lemma_contains_push(r0, i, x as usize);
                        } else {
                            assert(r@[r0.len() as int] == i);
                        }
                    }
                }
            }
            i = i + 1;
        }
        r
    }

    /// Počet skutečných (ne zástupných) žáků lekce `i`.
    pub fn pocet_realnych_zaku(&self, i: usize) -> (r: usize)
        requires
            i < self.lekce@.len(),
        ensures
            r == realni_zaci(*self, i as int),
    {
        let zaci = &self.lekce[i].zaci;
        let ghost p = |z: u32| !self.virtualni_zaci@.contains(z);
        let mut r: usize = 0;
        let mut k: usize = 0;
        while k < zaci.len()
            invariant
                k <= zaci@.len(),
                p == (|z: u32| !self.virtualni_zaci@.contains(z)),
                r == zaci@.take(k as int).filter(p).len(),
                r <= k,
            decreases zaci@.len() - k,
        {
            proof {
                assert(zaci@.take(k + 1) =~= zaci@.take(k as int).push(zaci@[k as int]));
                zaci@.take(k as int).lemma_filter_push(zaci@[k as int], p);
            }
            if !crate::model::obsahuje_u32(&self.virtualni_zaci, zaci[k]) {
                r = r + 1;
            }
            k = k + 1;
        }
        proof {
            assert(zaci@.take(zaci@.len() as int) =~= zaci@);
        }
        r
    }
}

/// Obsazení místností: pro místnost položky `w*N_SLOTU + t` s indexem lekce
/// (`usize::MAX` = volno).
pub open spec fn obsazeni_dobre(obs: Mapa<Vec<usize>>) -> bool {
    &&& obs.dobre()
    &&& forall|x: Seq<char>| obs.ma(x) ==> obs.hodnota(x)@.len() == 2 * N_SLOTU
}

/// Indexy týdnů lekce (0 = lichý, 1 = sudý).
pub open spec fn tydny_spec(t: Tyden) -> Seq<usize> {
    match t {
        Tyden::Oba => seq![0usize, 1usize],
        Tyden::L => seq![0usize],
        Tyden::S => seq![1usize],
    }
}

/// Hodiny `w*N_SLOTU + s + x` (x < `len`) pro prvních `q` týdnů z `tydny`.
pub open spec fn sloty_spec(tydny: Seq<usize>, s: int, len: int, q: int) -> Seq<usize>
    decreases q,
{
    if q <= 0 {
        Seq::empty()
    } else {
        sloty_spec(tydny, s, len, q - 1) + Seq::new(len as nat, |x: int| (tydny[q - 1] * N_SLOTU + s + x) as usize)
    }
}

/// Hodiny lekce po týdnech (`w*N_SLOTU + t`).
fn sloty_lekce(v: &Vysledek, i: usize) -> (r: Vec<usize>)
    requires
        crate::validation::rozvrh_ve_tydnu(*v),
        i < v.lekce@.len(),
    ensures
        forall|k: int| 0 <= k < r@.len() ==> (#[trigger] r@[k]) < 2 * N_SLOTU,
        r@ == match v.slot@[i as int] {
            Some(s) => sloty_spec(tydny_spec(v.lekce@[i as int].tyden), s as int, v.lekce@[i as int].len as int, tydny_spec(v.lekce@[i as int].tyden).len() as int),
            None => Seq::empty(),
        },
{
    let mut r: Vec<usize> = Vec::new();
    match v.slot[i] {
        Some(s) => {
            let l = &v.lekce[i];
            let tydny = l.tyden.tydny();
            proof {
                assert(tydny@ == tydny_spec(l.tyden));
            }
            let mut q: usize = 0;
            while q < tydny.len()
                invariant
                    q <= tydny@.len(),
                    forall|x: int| 0 <= x < tydny@.len() ==> #[trigger] tydny@[x] < 2,
                    s + l.len <= N_SLOTU,
                    forall|k: int| 0 <= k < r@.len() ==> (#[trigger] r@[k]) < 2 * N_SLOTU,
                    r@ == sloty_spec(tydny@, s as int, l.len as int, q as int),
                decreases tydny@.len() - q,
            {
                let w = tydny[q];
                let ghost r0 = r@;
                let mut t = s as usize;
                while t < s as usize + l.len as usize
                    invariant
                        s <= t <= s + l.len,
                        s + l.len <= N_SLOTU,
                        w < 2,
                        forall|k: int| 0 <= k < r@.len() ==> (#[trigger] r@[k]) < 2 * N_SLOTU,
                        r@ == r0 + Seq::new((t - s) as nat, |x: int| (w * N_SLOTU + s + x) as usize),
                    decreases s + l.len - t,
                {
                    r.push(w * N_SLOTU + t);
                    proof {
                        assert(r@ =~= r0 + Seq::new((t + 1 - s) as nat, |x: int| (w * N_SLOTU + s + x) as usize));
                    }
                    t = t + 1;
                }
                proof {
                    assert(r@ =~= sloty_spec(tydny@, s as int, l.len as int, q + 1));
                }
                q = q + 1;
            }
        },
        None => {},
    }
    r
}

/// Místnost `r` je ve všech hodinách `sl` volná (místnost bez záznamu je volná).
pub open spec fn volna_spec(obs: Mapa<Vec<usize>>, r: Seq<char>, sl: Seq<usize>) -> bool {
    obs.ma(r) ==> forall|k: int| 0 <= k < sl.len() ==> obs.hodnota(r)@[#[trigger] sl[k] as int] == usize::MAX
}

/// Je místnost ve všech hodinách volná?
fn volna(obs: &Mapa<Vec<usize>>, r: &str, sl: &Vec<usize>) -> (b: bool)
    requires
        obsazeni_dobre(*obs),
        forall|k: int| 0 <= k < sl@.len() ==> (#[trigger] sl@[k]) < 2 * N_SLOTU,
    ensures
        b == volna_spec(*obs, r@, sl@),
{
    match obs.get(r) {
        Some(o) => {
            let mut k: usize = 0;
            while k < sl.len()
                invariant
                    k <= sl@.len(),
                    o@.len() == 2 * N_SLOTU,
                    forall|x: int| 0 <= x < sl@.len() ==> (#[trigger] sl@[x]) < 2 * N_SLOTU,
                    obs.ma(r@) && *o == obs.hodnota(r@),
                    forall|x: int| 0 <= x < k ==> o@[#[trigger] sl@[x] as int] == usize::MAX,
                decreases sl@.len() - k,
            {
                if o[sl[k]] != usize::MAX {
                    return false;
                }
                k = k + 1;
            }
            true
        },
        None => true,
    }
}

/// `o1` vznikne z `o0` zápisem hodnoty `i` do hodin `sl` místnosti `r` (místnost bez záznamu
/// začne celá volná); ostatní místnosti zůstanou.
pub open spec fn zapsano(o0: Mapa<Vec<usize>>, o1: Mapa<Vec<usize>>, r: Seq<char>, sl: Seq<usize>, i: usize) -> bool {
    &&& o1.ma(r)
    &&& forall|t: int|
        0 <= t < 2 * N_SLOTU ==> (#[trigger] o1.hodnota(r)@[t]) == if sl.contains(t as usize) {
            i
        } else if o0.ma(r) {
            o0.hodnota(r)@[t]
        } else {
            usize::MAX
        }
    &&& forall|x: Seq<char>| x != r ==> (o1.ma(x) == o0.ma(x))
    &&& forall|x: Seq<char>| x != r && o0.ma(x) ==> o1.hodnota(x) == o0.hodnota(x)
}

/// Každá lekce označená v `maska`, která v obsazení drží místnost, má hodinu.
spec fn drzi_jen_umistene(obs: Mapa<Vec<usize>>, maska: Seq<bool>, slot: Seq<Option<u8>>) -> bool {
    forall|r: Seq<char>, t: int|
        obs.ma(r) && 0 <= t < 2 * N_SLOTU && (#[trigger] obs.hodnota(r)@[t]) < maska.len() && maska[obs.hodnota(r)@[t] as int]
            ==> slot[obs.hodnota(r)@[t] as int].is_some()
}

proof fn lemma_drzi_jen_umistene(o0: Mapa<Vec<usize>>, o1: Mapa<Vec<usize>>, r: Seq<char>, sl: Seq<usize>, i: usize, maska: Seq<bool>, slot: Seq<Option<u8>>)
    requires
        drzi_jen_umistene(o0, maska, slot),
        zapsano(o0, o1, r, sl, i),
        i < maska.len() && maska[i as int] ==> slot[i as int].is_some(),
        maska.len() <= usize::MAX,
    ensures
        drzi_jen_umistene(o1, maska, slot),
{
    assert forall|rr: Seq<char>, t: int|
        o1.ma(rr) && 0 <= t < 2 * N_SLOTU && (#[trigger] o1.hodnota(rr)@[t]) < maska.len() && maska[o1.hodnota(rr)@[t] as int]
        implies slot[o1.hodnota(rr)@[t] as int].is_some() by {
        if rr != r {
            assert(o0.ma(rr));
            assert(o0.hodnota(rr)@[t] == o1.hodnota(rr)@[t]);
        } else if !sl.contains(t as usize) && o0.ma(rr) {
            assert(o0.hodnota(rr)@[t] == o1.hodnota(rr)@[t]);
        }
    }
}

/// Zapíše do místnosti v daných hodinách lekci (nebo volno: `usize::MAX`).
fn zapis_mistnost(obs: &mut Mapa<Vec<usize>>, r: &String, sl: &Vec<usize>, i: usize)
    requires
        obsazeni_dobre(*old(obs)),
        forall|k: int| 0 <= k < sl@.len() ==> (#[trigger] sl@[k]) < 2 * N_SLOTU,
    ensures
        obsazeni_dobre(*final(obs)),
        zapsano(*old(obs), *final(obs), r@, sl@, i),
{
    let mut o: Vec<usize> = match obs.get(r.as_str()) {
        Some(x) => x.clone(),
        None => {
            let mut x: Vec<usize> = Vec::new();
            let mut k: usize = 0;
            while k < 2 * N_SLOTU
                invariant
                    k <= 2 * N_SLOTU,
                    x@.len() == k,
                    forall|t: int| 0 <= t < k ==> x@[t] == usize::MAX,
                decreases 2 * N_SLOTU - k,
            {
                x.push(usize::MAX);
                k = k + 1;
            }
            x
        },
    };
    proof {
        assert(o@.len() == 2 * N_SLOTU);
    }
    let ghost o0 = o@;
    proof {
        assert forall|t: int| 0 <= t < 2 * N_SLOTU implies o0[t] == if old(obs).ma(r@) { old(obs).hodnota(r@)@[t] } else { usize::MAX } by {}
    }
    let mut k: usize = 0;
    while k < sl.len()
        invariant
            k <= sl@.len(),
            o@.len() == 2 * N_SLOTU,
            o0.len() == 2 * N_SLOTU,
            forall|x: int| 0 <= x < sl@.len() ==> (#[trigger] sl@[x]) < 2 * N_SLOTU,
            forall|t: int| 0 <= t < 2 * N_SLOTU ==> (#[trigger] o@[t]) == if sl@.take(k as int).contains(t as usize) { i } else { o0[t] },
        decreases sl@.len() - k,
    {
        let ghost o1 = o@;
        o.set(sl[k], i);
        proof {
            assert forall|t: int| 0 <= t < 2 * N_SLOTU implies (#[trigger] o@[t]) == if sl@.take(k + 1).contains(t as usize) { i } else { o0[t] } by {
                assert(sl@.take(k + 1) =~= sl@.take(k as int).push(sl@[k as int]));
                if t == sl@[k as int] as int {
                    assert(sl@.take(k + 1)[k as int] == t as usize);
                } else {
                    assert(o@[t] == o1[t]);
                    if sl@.take(k + 1).contains(t as usize) {
                        let j = choose|j: int| 0 <= j < k + 1 && #[trigger] sl@.take(k + 1)[j] == t as usize;
                        assert(sl@.take(k as int)[j] == t as usize);
                    }
                    if sl@.take(k as int).contains(t as usize) {
                        let j = choose|j: int| 0 <= j < k && #[trigger] sl@.take(k as int)[j] == t as usize;
                        assert(sl@.take(k + 1)[j] == t as usize);
                    }
                }
            }
        }
        k = k + 1;
    }
    proof {
        assert(sl@.take(sl@.len() as int) =~= sl@);
    }
    obs.insert(r.clone(), o);
}

/// Kapacita místnosti `r` (neznámá místnost 0).
pub open spec fn kapacita_mistnosti(skola: Skola, r: Seq<char>) -> int {
    let i = index_mistnosti(skola.mistnosti@, r);
    if i >= 0 {
        skola.mistnosti@[i].kapacita as int
    } else {
        0
    }
}

/// Kapacita místnosti (neznámá místnost 0).
fn kapacita(skola: &Skola, r: &str) -> (k: u64)
    ensures
        k == kapacita_mistnosti(*skola, r@),
{
    match skola.mistnost(r) {
        Some(m) => m.kapacita as u64,
        None => 0,
    }
}

/// Místnost `r` je jiná než `krome`, ve všech hodinách `sl` volná a je-li `kap`, pojme
/// `velikost` žáků.
pub open spec fn vhodna_mistnost(skola: Skola, obs: Mapa<Vec<usize>>, r: Seq<char>, sl: Seq<usize>, kap: bool, velikost: u64, krome: Option<&String>) -> bool {
    &&& match krome {
        Some(x) => r != x@,
        None => true,
    }
    &&& volna_spec(obs, r, sl)
    &&& (!kap || kapacita_mistnosti(skola, r) >= velikost)
}

/// Index první místnosti seznamu, která je ve všech hodinách volná (a je-li `kap`, pojme
/// `velikost` žáků), kromě místnosti `krome`.
fn prvni_volna(
    skola: &Skola,
    obs: &Mapa<Vec<usize>>,
    pov: &Vec<String>,
    sl: &Vec<usize>,
    kap: bool,
    velikost: u64,
    krome: Option<&String>,
) -> (r: Option<usize>)
    requires
        obsazeni_dobre(*obs),
        forall|k: int| 0 <= k < sl@.len() ==> (#[trigger] sl@[k]) < 2 * N_SLOTU,
    ensures
        match r {
            Some(k) => k < pov@.len() && vhodna_mistnost(*skola, *obs, pov@[k as int]@, sl@, kap, velikost, krome) && forall|j: int|
                0 <= j < k ==> !vhodna_mistnost(*skola, *obs, (#[trigger] pov@[j])@, sl@, kap, velikost, krome),
            None => forall|j: int| 0 <= j < pov@.len() ==> !vhodna_mistnost(*skola, *obs, (#[trigger] pov@[j])@, sl@, kap, velikost, krome),
        },
{
    let mut k: usize = 0;
    while k < pov.len()
        invariant
            k <= pov@.len(),
            obsazeni_dobre(*obs),
            forall|x: int| 0 <= x < sl@.len() ==> (#[trigger] sl@[x]) < 2 * N_SLOTU,
            forall|j: int| 0 <= j < k ==> !vhodna_mistnost(*skola, *obs, (#[trigger] pov@[j])@, sl@, kap, velikost, krome),
        decreases pov@.len() - k,
    {
        let jina = match krome {
            Some(x) => !rovno(pov[k].as_str(), x.as_str()),
            None => true,
        };
        if jina && volna(obs, pov[k].as_str(), sl) && (!kap || kapacita(skola, pov[k].as_str()) >= velikost) {
            return Some(k);
        }
        k = k + 1;
    }
    None
}

/// Lekce `j` drží místnost `r` v některé z prvních `n` hodin `sl`.
pub open spec fn drzi(obs: Mapa<Vec<usize>>, r: Seq<char>, sl: Seq<usize>, n: int, j: usize) -> bool {
    &&& j != usize::MAX
    &&& obs.ma(r)
    &&& exists|k: int| 0 <= k < n && obs.hodnota(r)@[#[trigger] sl[k] as int] == j
}

/// Lekce, které v místnosti drží dané hodiny (bez opakování).
fn drzitele(obs: &Mapa<Vec<usize>>, r: &str, sl: &Vec<usize>) -> (d: Vec<usize>)
    requires
        obsazeni_dobre(*obs),
        forall|k: int| 0 <= k < sl@.len() ==> (#[trigger] sl@[k]) < 2 * N_SLOTU,
    ensures
        d@.no_duplicates(),
        forall|j: usize| d@.contains(j) <==> drzi(*obs, r@, sl@, sl@.len() as int, j),
{
    let mut d: Vec<usize> = Vec::new();
    match obs.get(r) {
        Some(o) => {
            let mut k: usize = 0;
            while k < sl.len()
                invariant
                    k <= sl@.len(),
                    o@.len() == 2 * N_SLOTU,
                    forall|x: int| 0 <= x < sl@.len() ==> (#[trigger] sl@[x]) < 2 * N_SLOTU,
                    obs.ma(r@) && *o == obs.hodnota(r@),
                    d@.no_duplicates(),
                    forall|j: usize| d@.contains(j) <==> drzi(*obs, r@, sl@, k as int, j),
                decreases sl@.len() - k,
            {
                let j = o[sl[k]];
                let ghost dk = d@;
                if j != usize::MAX {
                    let mut je = false;
                    let mut q: usize = 0;
                    while q < d.len()
                        invariant
                            q <= d@.len(),
                            je == d@.take(q as int).contains(j),
                        decreases d@.len() - q,
                    {
                        proof {
                            assert(d@.take(q + 1) =~= d@.take(q as int).push(d@[q as int]));
                            crate::hledani::lemma_contains_push(d@.take(q as int), d@[q as int], j);
                        }
                        if d[q] == j {
                            je = true;
                        }
                        q = q + 1;
                    }
                    proof {
                        assert(d@.take(d@.len() as int) =~= d@);
                    }
                    if !je {
                        let ghost d0 = d@;
                        d.push(j);
                        proof {
                            assert forall|a: int, b: int| 0 <= a < b < d@.len() implies d@[a] != d@[b] by {
                                if b == d0.len() {
                                    assert(!d0.contains(j));
                                    assert(d0[a] == d@[a]);
                                }
                            }
                        }
                    }
                }
                proof {
                    assert forall|x: usize| d@.contains(x) <==> drzi(*obs, r@, sl@, k + 1, x) by {
                        crate::hledani::lemma_contains_push(dk, j, x);
                        assert(d@.contains(x) <==> (dk.contains(x) || (x == j && j != usize::MAX)));
                        if drzi(*obs, r@, sl@, k + 1, x) && !drzi(*obs, r@, sl@, k as int, x) {
                            let q = choose|q: int| 0 <= q < k + 1 && obs.hodnota(r@)@[#[trigger] sl@[q] as int] == x;
                            assert(q == k);
                        }
                        if drzi(*obs, r@, sl@, k as int, x) {
                            let q = choose|q: int| 0 <= q < k && obs.hodnota(r@)@[#[trigger] sl@[q] as int] == x;
                            assert(drzi(*obs, r@, sl@, k + 1, x));
                        }
                        if x == j && j != usize::MAX {
                            assert(obs.hodnota(r@)@[sl@[k as int] as int] == x);
                        }
                    }
                }
                k = k + 1;
            }
        },
        None => {},
    }
    d
}

/// Hodiny týdne (`w*N_SLOTU + t`), které lekce `i` výsledku zabírá.
pub open spec fn sloty_v(v: Vysledek, i: int) -> Seq<usize> {
    match v.slot@[i] {
        Some(s) => sloty_spec(tydny_spec(v.lekce@[i].tyden), s as int, v.lekce@[i].len as int, tydny_spec(v.lekce@[i].tyden).len() as int),
        None => Seq::empty(),
    }
}

/// Lekce `x` nesdílí žádnou hodinu týdne s jinou lekcí výsledku.
pub open spec fn samostatna(v: Vysledek, x: int) -> bool {
    forall|y: int, t: usize| 0 <= y < v.lekce@.len() && y != x && #[trigger] sloty_v(v, y).contains(t) ==> !sloty_v(v, x).contains(t)
}

/// Umístěná lekce, která s žádnou jinou nesdílí hodinu a má aspoň jednu povolenou místnost.
pub open spec fn dostane_mistnost(skola: Skola, v: Vysledek, x: int) -> bool {
    &&& v.slot@[x].is_some()
    &&& samostatna(v, x)
    &&& jednou(poradi_mistnosti(skola, v.lekce@[x])).len() > 0
}

/// Každý záznam obsazení patří lekci, která tu hodinu zabírá; samostatná lekce se záznamem
/// má místnost.
spec fn zaznamy_platne(obs: Mapa<Vec<usize>>, v: Vysledek, mistnost: Seq<Option<String>>) -> bool {
    forall|r: Seq<char>, t: int|
        obs.ma(r) && 0 <= t < 2 * N_SLOTU && #[trigger] obs.hodnota(r)@[t] != usize::MAX ==> obs.hodnota(r)@[t] < v.lekce@.len()
            && sloty_v(v, obs.hodnota(r)@[t] as int).contains(t as usize) && (samostatna(v, obs.hodnota(r)@[t] as int)
            ==> mistnost[obs.hodnota(r)@[t] as int].is_some())
}

proof fn lemma_zaznamy_zapis(o0: Mapa<Vec<usize>>, o1: Mapa<Vec<usize>>, r: Seq<char>, sl: Seq<usize>, i: usize, v: Vysledek, mistnost: Seq<Option<String>>)
    requires
        zaznamy_platne(o0, v, mistnost),
        zapsano(o0, o1, r, sl, i),
        i != usize::MAX ==> i < v.lekce@.len() && sl == sloty_v(v, i as int) && (samostatna(v, i as int) ==> mistnost[i as int].is_some()),
    ensures
        zaznamy_platne(o1, v, mistnost),
{
    assert forall|rr: Seq<char>, t: int|
        o1.ma(rr) && 0 <= t < 2 * N_SLOTU && #[trigger] o1.hodnota(rr)@[t] != usize::MAX implies o1.hodnota(rr)@[t] < v.lekce@.len()
            && sloty_v(v, o1.hodnota(rr)@[t] as int).contains(t as usize) && (samostatna(v, o1.hodnota(rr)@[t] as int)
            ==> mistnost[o1.hodnota(rr)@[t] as int].is_some()) by {
        if rr != r {
            assert(o0.ma(rr));
            assert(o0.hodnota(rr)@[t] == o1.hodnota(rr)@[t]);
        } else if !sl.contains(t as usize) && o0.ma(rr) {
            assert(o0.hodnota(rr)@[t] == o1.hodnota(rr)@[t]);
        }
    }
}

proof fn lemma_zaznamy_mistnost(obs: Mapa<Vec<usize>>, v: Vysledek, m0: Seq<Option<String>>, m1: Seq<Option<String>>)
    requires
        zaznamy_platne(obs, v, m0),
        forall|x: int| 0 <= x < v.lekce@.len() && (#[trigger] m0[x]).is_some() ==> m1[x].is_some(),
    ensures
        zaznamy_platne(obs, v, m1),
{
    assert forall|rr: Seq<char>, t: int|
        obs.ma(rr) && 0 <= t < 2 * N_SLOTU && #[trigger] obs.hodnota(rr)@[t] != usize::MAX implies obs.hodnota(rr)@[t] < v.lekce@.len()
            && sloty_v(v, obs.hodnota(rr)@[t] as int).contains(t as usize) && (samostatna(v, obs.hodnota(rr)@[t] as int)
            ==> m1[obs.hodnota(rr)@[t] as int].is_some()) by {
        assert(m0[obs.hodnota(rr)@[t] as int].is_some() ==> m1[obs.hodnota(rr)@[t] as int].is_some());
    }
}

proof fn lemma_dostane_stejne(skola: Skola, a: Vysledek, b: Vysledek)
    requires
        a.slot@ == b.slot@,
        a.lekce@ == b.lekce@,
    ensures
        forall|x: int|
            #![trigger dostane_mistnost(skola, a, x)]
            #![trigger dostane_mistnost(skola, b, x)]
            0 <= x < a.lekce@.len() ==> dostane_mistnost(skola, a, x) == dostane_mistnost(skola, b, x),
{
    assert forall|y: int| 0 <= y < a.lekce@.len() implies #[trigger] sloty_v(a, y) == sloty_v(b, y) by {}
    assert forall|x: int| 0 <= x < a.lekce@.len() implies #[trigger] dostane_mistnost(skola, a, x) == dostane_mistnost(skola, b, x) by {
        assert(sloty_v(a, x) == sloty_v(b, x));
        if samostatna(a, x) {
            assert forall|y: int, t: usize| 0 <= y < b.lekce@.len() && y != x && #[trigger] sloty_v(b, y).contains(t) implies !sloty_v(b, x).contains(t) by {
                assert(sloty_v(a, y) == sloty_v(b, y));
                assert(sloty_v(a, y).contains(t));
            }
        }
        if samostatna(b, x) {
            assert forall|y: int, t: usize| 0 <= y < a.lekce@.len() && y != x && #[trigger] sloty_v(a, y).contains(t) implies !sloty_v(a, x).contains(t) by {
                assert(sloty_v(a, y) == sloty_v(b, y));
                assert(sloty_v(b, y).contains(t));
            }
        }
    }
}

/// Hodiny `sloty_spec` leží v rozsahu obou týdnů.
proof fn lemma_sloty_spec_meze(tydny: Seq<usize>, s: int, len: int, q: int)
    requires
        forall|x: int| 0 <= x < tydny.len() ==> #[trigger] tydny[x] < 2,
        0 <= s,
        0 <= len,
        s + len <= N_SLOTU,
        q <= tydny.len(),
    ensures
        forall|k: int| 0 <= k < sloty_spec(tydny, s, len, q).len() ==> (#[trigger] sloty_spec(tydny, s, len, q)[k]) < 2 * N_SLOTU,
    decreases q,
{
    if q > 0 {
        lemma_sloty_spec_meze(tydny, s, len, q - 1);
        let a = sloty_spec(tydny, s, len, q - 1);
        let b = Seq::new(len as nat, |x: int| (tydny[q - 1] * N_SLOTU + s + x) as usize);
        assert forall|k: int| 0 <= k < (a + b).len() implies #[trigger] (a + b)[k] < 2 * N_SLOTU by {
            if k >= a.len() {
                assert(tydny[q - 1] < 2);
                assert(b[k - a.len()] == (tydny[q - 1] * N_SLOTU + s + (k - a.len())) as usize);
            }
        }
    }
}

/// Hodiny lekce v rozvrhu leží v rozsahu obou týdnů.
proof fn lemma_sloty_v_meze(v: Vysledek, x: int)
    requires
        crate::validation::rozvrh_ve_tydnu(v),
        0 <= x < v.lekce@.len(),
    ensures
        forall|k: int| 0 <= k < sloty_v(v, x).len() ==> (#[trigger] sloty_v(v, x)[k]) < 2 * N_SLOTU,
{
    match v.slot@[x] {
        Some(s) => {
            let t = tydny_spec(v.lekce@[x].tyden);
            assert(forall|y: int| 0 <= y < t.len() ==> #[trigger] t[y] < 2);
            lemma_sloty_spec_meze(t, s as int, v.lekce@[x].len as int, t.len() as int);
        },
        None => {},
    }
}

/// Každý záznam obsazení místnosti `r` patří lekci, která místnost `r` má.
spec fn zaznamy_vlastni(obs: Mapa<Vec<usize>>, mistnost: Seq<Option<String>>) -> bool {
    forall|r: Seq<char>, t: int|
        obs.ma(r) && 0 <= t < 2 * N_SLOTU && #[trigger] obs.hodnota(r)@[t] != usize::MAX ==> obs.hodnota(r)@[t] < mistnost.len()
            && mistnost[obs.hodnota(r)@[t] as int] is Some && mistnost[obs.hodnota(r)@[t] as int].unwrap()@ == r
}

/// Každá hodina prvních `n` lekcí s místností je v obsazení té místnosti zapsaná.
spec fn pokryto(obs: Mapa<Vec<usize>>, v: Vysledek, mistnost: Seq<Option<String>>, n: int) -> bool {
    forall|x: int, t: usize|
        0 <= x < n && x < mistnost.len() && mistnost[x] is Some && #[trigger] sloty_v(v, x).contains(t) ==> obs.ma(
            mistnost[x].unwrap()@,
        ) && obs.hodnota(mistnost[x].unwrap()@)@[t as int] != usize::MAX
}

/// Lekce `a` s místností nesdílí žádnou hodinu týdne s jinou lekcí v téže místnosti.
pub open spec fn bez_stretu_mistnosti(v: Vysledek, mistnost: Seq<Option<String>>, a: int) -> bool {
    forall|b: int, t: usize|
        0 <= b < mistnost.len() && b != a && mistnost[a] is Some && mistnost[b] is Some && mistnost[b].unwrap()@
            == mistnost[a].unwrap()@ && #[trigger] sloty_v(v, a).contains(t) ==> !#[trigger] sloty_v(v, b).contains(t)
}

/// Uvolnění hodin lekce `j` v její místnosti `r` a její přesun do místnosti `rx`, volné ve
/// všech jejích hodinách, zachová záznamy, pokrytí i to, že přidělované lekce nemají střet.
proof fn lemma_presun_drzitele(
    o0: Mapa<Vec<usize>>,
    o1: Mapa<Vec<usize>>,
    o2: Mapa<Vec<usize>>,
    v: Vysledek,
    m0: Seq<Option<String>>,
    m1: Seq<Option<String>>,
    maska: Seq<bool>,
    r: Seq<char>,
    rx: Seq<char>,
    j: int,
)
    requires
        0 <= j < m0.len(),
        maska.len() == m0.len(),
        maska[j],
        m0[j] is Some && m0[j].unwrap()@ == r,
        m1.len() == m0.len(),
        m1[j] is Some && m1[j].unwrap()@ == rx,
        forall|x: int| 0 <= x < m0.len() && x != j ==> #[trigger] m1[x] == m0[x],
        rx != r,
        zaznamy_vlastni(o0, m0),
        zaznamy_platne(o0, v, m0),
        pokryto(o0, v, m0, m0.len() as int),
        forall|a: int| 0 <= a < m0.len() && maska[a] ==> #[trigger] bez_stretu_mistnosti(v, m0, a),
        zapsano(o0, o1, r, sloty_v(v, j), usize::MAX),
        volna_spec(o1, rx, sloty_v(v, j)),
        zapsano(o1, o2, rx, sloty_v(v, j), j as usize),
        j < usize::MAX,
        crate::validation::rozvrh_ve_tydnu(v),
        m0.len() == v.lekce@.len(),
    ensures
        zaznamy_vlastni(o2, m1),
        pokryto(o2, v, m1, m1.len() as int),
        forall|a: int| 0 <= a < m1.len() && maska[a] ==> #[trigger] bez_stretu_mistnosti(v, m1, a),
{
    let slj = sloty_v(v, j);
    lemma_sloty_v_meze(v, j);
    assert forall|rr: Seq<char>, t: int|
        o2.ma(rr) && 0 <= t < 2 * N_SLOTU && #[trigger] o2.hodnota(rr)@[t] != usize::MAX implies o2.hodnota(rr)@[t] < m1.len()
            && m1[o2.hodnota(rr)@[t] as int] is Some && m1[o2.hodnota(rr)@[t] as int].unwrap()@ == rr by {
        if rr == rx {
            if !slj.contains(t as usize) {
                assert(o0.ma(rx));
                let y = o0.hodnota(rx)@[t];
                assert(o2.hodnota(rx)@[t] == y);
                assert(m0[y as int] is Some);
            }
        } else if rr == r {
            assert(o2.hodnota(r) == o1.hodnota(r));
            if !slj.contains(t as usize) {
                assert(o0.ma(r));
                let y = o0.hodnota(r)@[t];
                assert(m0[y as int] is Some);
                if y == j {
                    assert(sloty_v(v, y as int).contains(t as usize));
                }
            }
        } else {
            assert(o0.ma(rr));
            assert(o2.hodnota(rr) == o0.hodnota(rr));
            let y = o0.hodnota(rr)@[t];
            assert(m0[y as int] is Some);
        }
    }
    assert forall|x: int, t: usize|
        0 <= x < m1.len() && x < m1.len() && m1[x] is Some && #[trigger] sloty_v(v, x).contains(t) implies o2.ma(m1[x].unwrap()@)
            && o2.hodnota(m1[x].unwrap()@)@[t as int] != usize::MAX by {
        lemma_sloty_v_meze(v, x);
        let k = choose|k: int| 0 <= k < sloty_v(v, x).len() && sloty_v(v, x)[k] == t;
        assert(sloty_v(v, x)[k] < 2 * N_SLOTU);
        if x != j {
            let q = m0[x].unwrap()@;
            assert(o0.ma(q) && o0.hodnota(q)@[t as int] != usize::MAX);
            if q == r && slj.contains(t) {
                assert(bez_stretu_mistnosti(v, m0, j));
            }
        }
    }
    assert forall|a: int| 0 <= a < m1.len() && maska[a] implies #[trigger] bez_stretu_mistnosti(v, m1, a) by {
        assert forall|b: int, t: usize|
            0 <= b < m1.len() && b != a && m1[a] is Some && m1[b] is Some && m1[b].unwrap()@ == m1[a].unwrap()@ && #[trigger] sloty_v(
                v,
                a,
            ).contains(t) implies !#[trigger] sloty_v(v, b).contains(t) by {
            if sloty_v(v, b).contains(t) {
                if a == j {
                    assert(m0[b] is Some);
                    assert(o0.ma(rx) && o0.hodnota(rx)@[t as int] != usize::MAX);
                    let k = choose|k: int| 0 <= k < slj.len() && slj[k] == t;
                    assert(o1.hodnota(rx)@[slj[k] as int] == usize::MAX);
                } else if b == j {
                    assert(m0[a] is Some);
                    assert(o0.ma(rx) && o0.hodnota(rx)@[t as int] != usize::MAX);
                    let k = choose|k: int| 0 <= k < slj.len() && slj[k] == t;
                    assert(o1.hodnota(rx)@[slj[k] as int] == usize::MAX);
                } else {
                    assert(bez_stretu_mistnosti(v, m0, a));
                }
            }
        }
    }
}

/// Uvolnění hodin lekce `j` v její místnosti a jejich opětovné zapsání vrátí záznamy
/// i pokrytí do platného stavu.
proof fn lemma_vraceni_drzitele(
    o0: Mapa<Vec<usize>>,
    o1: Mapa<Vec<usize>>,
    o2: Mapa<Vec<usize>>,
    v: Vysledek,
    m0: Seq<Option<String>>,
    r: Seq<char>,
    j: int,
)
    requires
        0 <= j < m0.len(),
        m0[j] is Some && m0[j].unwrap()@ == r,
        zaznamy_vlastni(o0, m0),
        pokryto(o0, v, m0, m0.len() as int),
        zapsano(o0, o1, r, sloty_v(v, j), usize::MAX),
        zapsano(o1, o2, r, sloty_v(v, j), j as usize),
        j < usize::MAX,
        crate::validation::rozvrh_ve_tydnu(v),
        m0.len() == v.lekce@.len(),
    ensures
        zaznamy_vlastni(o2, m0),
        pokryto(o2, v, m0, m0.len() as int),
{
    let slj = sloty_v(v, j);
    assert forall|rr: Seq<char>, t: int|
        o2.ma(rr) && 0 <= t < 2 * N_SLOTU && #[trigger] o2.hodnota(rr)@[t] != usize::MAX implies o2.hodnota(rr)@[t] < m0.len()
            && m0[o2.hodnota(rr)@[t] as int] is Some && m0[o2.hodnota(rr)@[t] as int].unwrap()@ == rr by {
        if rr != r {
            assert(o0.ma(rr));
            assert(o2.hodnota(rr) == o0.hodnota(rr));
        } else if !slj.contains(t as usize) {
            assert(o0.ma(r));
        }
    }
    assert forall|x: int, t: usize|
        0 <= x < m0.len() && x < m0.len() && m0[x] is Some && #[trigger] sloty_v(v, x).contains(t) implies o2.ma(m0[x].unwrap()@)
            && o2.hodnota(m0[x].unwrap()@)@[t as int] != usize::MAX by {
        lemma_sloty_v_meze(v, x);
        let k = choose|k: int| 0 <= k < sloty_v(v, x).len() && sloty_v(v, x)[k] == t;
        assert(sloty_v(v, x)[k] < 2 * N_SLOTU);
        let q = m0[x].unwrap()@;
        assert(o0.ma(q) && o0.hodnota(q)@[t as int] != usize::MAX);
    }
}

/// Zápis hodin lekce `i`, která místnost `r` už má, zachová záznamy a rozšíří pokrytí o `i`.
proof fn lemma_zapis_vlastni(o0: Mapa<Vec<usize>>, o1: Mapa<Vec<usize>>, v: Vysledek, m: Seq<Option<String>>, r: Seq<char>, i: int)
    requires
        0 <= i < m.len(),
        m[i] is Some && m[i].unwrap()@ == r,
        zaznamy_vlastni(o0, m),
        pokryto(o0, v, m, i),
        zapsano(o0, o1, r, sloty_v(v, i), i as usize),
        i < usize::MAX,
        crate::validation::rozvrh_ve_tydnu(v),
        m.len() == v.lekce@.len(),
    ensures
        zaznamy_vlastni(o1, m),
        pokryto(o1, v, m, i + 1),
{
    let sl = sloty_v(v, i);
    assert forall|rr: Seq<char>, t: int|
        o1.ma(rr) && 0 <= t < 2 * N_SLOTU && #[trigger] o1.hodnota(rr)@[t] != usize::MAX implies o1.hodnota(rr)@[t] < m.len()
            && m[o1.hodnota(rr)@[t] as int] is Some && m[o1.hodnota(rr)@[t] as int].unwrap()@ == rr by {
        if rr != r {
            assert(o0.ma(rr));
            assert(o1.hodnota(rr) == o0.hodnota(rr));
        } else if !sl.contains(t as usize) {
            assert(o0.ma(r));
        }
    }
    assert forall|x: int, t: usize|
        0 <= x < i + 1 && x < m.len() && m[x] is Some && #[trigger] sloty_v(v, x).contains(t) implies o1.ma(m[x].unwrap()@)
            && o1.hodnota(m[x].unwrap()@)@[t as int] != usize::MAX by {
        lemma_sloty_v_meze(v, x);
        let k = choose|k: int| 0 <= k < sloty_v(v, x).len() && sloty_v(v, x)[k] == t;
        assert(sloty_v(v, x)[k] < 2 * N_SLOTU);
        if x < i {
            let q = m[x].unwrap()@;
            assert(o0.ma(q) && o0.hodnota(q)@[t as int] != usize::MAX);
        }
    }
}

/// Přidělení volné místnosti `r` lekci `i` bez místnosti zachová záznamy, pokrytí i to,
/// že přidělované lekce nemají střet.
proof fn lemma_prideleni(
    o0: Mapa<Vec<usize>>,
    o1: Mapa<Vec<usize>>,
    v: Vysledek,
    m0: Seq<Option<String>>,
    m1: Seq<Option<String>>,
    maska: Seq<bool>,
    r: Seq<char>,
    i: int,
)
    requires
        0 <= i < m0.len(),
        maska.len() == m0.len(),
        m0[i] is None,
        m1.len() == m0.len(),
        m1[i] is Some && m1[i].unwrap()@ == r,
        forall|x: int| 0 <= x < m0.len() && x != i ==> #[trigger] m1[x] == m0[x],
        zaznamy_vlastni(o0, m0),
        pokryto(o0, v, m0, m0.len() as int),
        forall|a: int| 0 <= a < m0.len() && maska[a] ==> #[trigger] bez_stretu_mistnosti(v, m0, a),
        volna_spec(o0, r, sloty_v(v, i)),
        zapsano(o0, o1, r, sloty_v(v, i), i as usize),
        i < usize::MAX,
        crate::validation::rozvrh_ve_tydnu(v),
        m0.len() == v.lekce@.len(),
    ensures
        zaznamy_vlastni(o1, m1),
        pokryto(o1, v, m1, m1.len() as int),
        forall|a: int| 0 <= a < m1.len() && maska[a] ==> #[trigger] bez_stretu_mistnosti(v, m1, a),
{
    let sl = sloty_v(v, i);
    assert forall|rr: Seq<char>, t: int|
        o1.ma(rr) && 0 <= t < 2 * N_SLOTU && #[trigger] o1.hodnota(rr)@[t] != usize::MAX implies o1.hodnota(rr)@[t] < m1.len()
            && m1[o1.hodnota(rr)@[t] as int] is Some && m1[o1.hodnota(rr)@[t] as int].unwrap()@ == rr by {
        if rr != r {
            assert(o0.ma(rr));
            assert(o1.hodnota(rr) == o0.hodnota(rr));
            let y = o0.hodnota(rr)@[t];
            assert(m0[y as int] is Some);
        } else if !sl.contains(t as usize) {
            assert(o0.ma(r));
            let y = o0.hodnota(r)@[t];
            assert(m0[y as int] is Some);
        }
    }
    assert forall|x: int, t: usize|
        0 <= x < m1.len() && x < m1.len() && m1[x] is Some && #[trigger] sloty_v(v, x).contains(t) implies o1.ma(m1[x].unwrap()@)
            && o1.hodnota(m1[x].unwrap()@)@[t as int] != usize::MAX by {
        let k = choose|k: int| 0 <= k < sloty_v(v, x).len() && sloty_v(v, x)[k] == t;
        if x != i {
            assert(m0[x] is Some);
            assert(o0.ma(m0[x].unwrap()@) && o0.hodnota(m0[x].unwrap()@)@[t as int] != usize::MAX);
        }
        assert(sloty_v(v, x)[k] < 2 * N_SLOTU) by {
            lemma_sloty_v_meze(v, x);
        }
    }
    assert forall|a: int| 0 <= a < m1.len() && maska[a] implies #[trigger] bez_stretu_mistnosti(v, m1, a) by {
        assert forall|b: int, t: usize|
            0 <= b < m1.len() && b != a && m1[a] is Some && m1[b] is Some && m1[b].unwrap()@ == m1[a].unwrap()@ && #[trigger] sloty_v(
                v,
                a,
            ).contains(t) implies !#[trigger] sloty_v(v, b).contains(t) by {
            if sloty_v(v, b).contains(t) {
                if a == i {
                    assert(m0[b] is Some);
                    assert(o0.ma(r) && o0.hodnota(r)@[t as int] != usize::MAX);
                    let k = choose|k: int| 0 <= k < sl.len() && sl[k] == t;
                    assert(o0.hodnota(r)@[sl[k] as int] == usize::MAX);
                } else if b == i {
                    assert(m0[a] is Some);
                    assert(o0.ma(r) && o0.hodnota(r)@[t as int] != usize::MAX);
                    let k = choose|k: int| 0 <= k < sl.len() && sl[k] == t;
                    assert(o0.hodnota(r)@[sl[k] as int] == usize::MAX);
                } else {
                    assert(bez_stretu_mistnosti(v, m0, a));
                }
            }
        }
    }
}

/// Místnost `r` nemá (podle místností `mistnost`) žádná lekce.
#[verifier::opaque]
pub open spec fn nepouzita(mistnost: Seq<Option<String>>, r: Seq<char>) -> bool {
    forall|x: int| 0 <= x < mistnost.len() && (#[trigger] mistnost[x]) is Some ==> mistnost[x].unwrap()@ != r
}

/// Místnost `r` je ve všech hodinách lekce `i` volná: žádná jiná lekce s místností `r` v ní
/// v těch hodinách není.
#[verifier::opaque]
pub open spec fn volna_pro(v: Vysledek, mistnost: Seq<Option<String>>, r: Seq<char>, i: int) -> bool {
    forall|x: int, t: usize|
        0 <= x < mistnost.len() && x != i && mistnost[x] is Some && mistnost[x].unwrap()@ == r && #[trigger] sloty_v(v, x).contains(t)
            ==> !sloty_v(v, i).contains(t)
}

/// Místnost lekce `i` je dobře zvolená: je-li mezi jejími povolenými místnostmi některá, která
/// je v jejích hodinách volná a pojme všechny její skutečné žáky, pak i místnost lekce pojme
/// všechny její skutečné žáky a v pořadí povolených místností není za ní.
#[verifier::opaque]
pub open spec fn dobra_volba(skola: Skola, v: Vysledek, mistnost: Seq<Option<String>>, i: int) -> bool {
    let pov = jednou(poradi_mistnosti(skola, v.lekce@[i]));
    mistnost[i] is Some ==> forall|a: int|
        0 <= a < pov.len() && kapacita_mistnosti(skola, #[trigger] pov[a]) >= realni_zaci(v, i) && volna_pro(v, mistnost, pov[a], i)
            ==> kapacita_mistnosti(skola, mistnost[i].unwrap()@) >= realni_zaci(v, i) && exists|b: int|
            0 <= b <= a && pov[b] == mistnost[i].unwrap()@
}

/// Přidělením místnosti jiné lekci (dosud bez místnosti) zůstane volba lekce `i` dobrá.
proof fn lemma_dobra_trva(skola: Skola, v: Vysledek, m0: Seq<Option<String>>, m1: Seq<Option<String>>, i: int, y: int)
    requires
        m0.len() == m1.len(),
        0 <= y < m0.len(),
        0 <= i < m0.len(),
        y != i,
        m0[y] is None,
        forall|x: int| 0 <= x < m0.len() && x != y ==> m1[x] == m0[x],
        dobra_volba(skola, v, m0, i),
    ensures
        dobra_volba(skola, v, m1, i),
{
    reveal(dobra_volba);
    reveal(volna_pro);
    let pov = jednou(poradi_mistnosti(skola, v.lekce@[i]));
    assert forall|r: Seq<char>| volna_pro(v, m1, r, i) implies volna_pro(v, m0, r, i) by {
        assert forall|x: int, t: usize|
            0 <= x < m0.len() && x != i && m0[x] is Some && m0[x].unwrap()@ == r && #[trigger] sloty_v(v, x).contains(t)
                implies !sloty_v(v, i).contains(t) by {
            assert(x != y);
            assert(m1[x] == m0[x]);
        }
    }
    assert(m1[i] == m0[i]);
}

/// Místnost přidělená lekci `i` první volnou místností pro všechny žáky (nebo, když taková
/// není, první volnou) je dobře zvolená.
proof fn lemma_volba_primo(
    skola: Skola,
    v0: Vysledek,
    ob0: Mapa<Vec<usize>>,
    mq: Seq<Option<String>>,
    m1: Seq<Option<String>>,
    i: int,
    sl: Seq<usize>,
    pov: Seq<String>,
    v1: Option<usize>,
    k: int,
    velikost: u64,
)
    requires
        obsazeni_dobre(ob0),
        zaznamy_vlastni(ob0, mq),
        zaznamy_platne(ob0, v0, mq),
        0 <= i < mq.len(),
        mq.len() == m1.len(),
        mq[i] is None,
        forall|x: int| 0 <= x < mq.len() && x != i ==> m1[x] == mq[x],
        0 <= k < pov.len(),
        m1[i] is Some && m1[i].unwrap()@ == pov[k]@,
        sl == sloty_v(v0, i),
        forall|x: int| 0 <= x < sl.len() ==> (#[trigger] sl[x]) < 2 * N_SLOTU,
        crate::data::retezce(pov) == jednou(poradi_mistnosti(skola, v0.lekce@[i])),
        velikost == realni_zaci(v0, i),
        match v1 {
            Some(k1) => k1 == k && forall|j: int| 0 <= j < k1 ==> !vhodna_mistnost(skola, ob0, (#[trigger] pov[j])@, sl, true, velikost, None),
            None => forall|j: int| 0 <= j < pov.len() ==> !vhodna_mistnost(skola, ob0, (#[trigger] pov[j])@, sl, true, velikost, None),
        },
        v1 is Some ==> vhodna_mistnost(skola, ob0, pov[k]@, sl, true, velikost, None),
    ensures
        dobra_volba(skola, v0, m1, i),
{
    reveal(dobra_volba);
    reveal(volna_pro);
    let pl = jednou(poradi_mistnosti(skola, v0.lekce@[i]));
    assert forall|aa: int|
        0 <= aa < pl.len() && kapacita_mistnosti(skola, #[trigger] pl[aa]) >= realni_zaci(v0, i) && volna_pro(v0, m1, pl[aa], i)
            implies kapacita_mistnosti(skola, m1[i].unwrap()@) >= realni_zaci(v0, i) && exists|bb: int|
            0 <= bb <= aa && pl[bb] == m1[i].unwrap()@ by {
        assert(pl[aa] == pov[aa]@);
        assert(volna_spec(ob0, pov[aa]@, sl)) by {
            if ob0.ma(pov[aa]@) {
                assert forall|kk: int| 0 <= kk < sl.len() implies ob0.hodnota(pov[aa]@)@[#[trigger] sl[kk] as int] == usize::MAX by {
                    let y = ob0.hodnota(pov[aa]@)@[sl[kk] as int];
                    if y != usize::MAX {
                        assert(mq[y as int] is Some && mq[y as int].unwrap()@ == pov[aa]@);
                        assert(sloty_v(v0, y as int).contains(sl[kk]));
                        assert(y != i);
                        assert(m1[y as int] == mq[y as int]);
                        assert(sloty_v(v0, i).contains(sl[kk]));
                    }
                }
            }
        }
        assert(vhodna_mistnost(skola, ob0, pov[aa]@, sl, true, velikost, None));
        match v1 {
            Some(k1) => {
                assert(k1 <= aa);
                assert(pl[k1 as int] == pov[k1 as int]@);
            },
            None => {},
        }
    }
}

/// Lekce, jejíž místnost je v obsazení zapsaná, tu místnost nemá jen tehdy, když ji nemá nikdo:
/// místnost obsazená v některé hodině lekce je použitá.
proof fn lemma_obsazena_pouzita(obs: Mapa<Vec<usize>>, mistnost: Seq<Option<String>>, r: Seq<char>, sl: Seq<usize>)
    requires
        obsazeni_dobre(obs),
        zaznamy_vlastni(obs, mistnost),
        forall|k: int| 0 <= k < sl.len() ==> (#[trigger] sl[k]) < 2 * N_SLOTU,
        !volna_spec(obs, r, sl),
    ensures
        !nepouzita(mistnost, r),
{
    reveal(nepouzita);
    let k = choose|k: int| 0 <= k < sl.len() && obs.hodnota(r)@[#[trigger] sl[k] as int] != usize::MAX;
    let y = obs.hodnota(r)@[sl[k] as int];
    assert(mistnost[y as int] is Some && mistnost[y as int].unwrap()@ == r);
}


/// Greedy přiřazení místností s opravou konfliktů (jednoúrovňová výměna).
/// `jen` = přiřadit jen tyto lekce (ostatní ponechat) – po ručním přesunu.
/// Lekce, které místnost dostávají znovu, ji nikdy nesdílejí s jinou lekcí v téže hodině
/// téhož týdne.
#[verifier::rlimit(80)]
#[verifier::spinoff_prover]
pub fn prirad_mistnosti(skola: &Skola, v: &mut Vysledek, jen: Option<&std::collections::BTreeSet<usize>>)
    requires
        crate::validation::rozvrh_ve_tydnu(*old(v)),
    ensures
        final(v).rok == old(v).rok,
        final(v).lekce@ == old(v).lekce@,
        final(v).slot@ == old(v).slot@,
        final(v).mistnost@.len() == old(v).mistnost@.len(),
        final(v).limity == old(v).limity,
        final(v).virtualni_zaci@ == old(v).virtualni_zaci@,
        final(v).zaci_tridy@ == old(v).zaci_tridy@,
        final(v).problemove_lekce@ == old(v).problemove_lekce@,
        final(v).varovani@ == old(v).varovani@,
        final(v).problemy@ == old(v).problemy@,
        final(v).skore_tvrde == old(v).skore_tvrde,
        final(v).skore_mekke == old(v).skore_mekke,
        final(v).iteraci == old(v).iteraci,
        final(v).cas_ms == old(v).cas_ms,
        match jen {
            Some(j) => forall|i: int|
                0 <= i < old(v).lekce@.len() && !j@.contains(i as usize) && (#[trigger] old(v).mistnost@[i]).is_some()
                    ==> final(v).mistnost@[i] == old(v).mistnost@[i],
            None => true,
        },
        forall|i: int|
            0 <= i < old(v).lekce@.len() ==> #[trigger] final(v).mistnost@[i] == old(v).mistnost@[i] || match final(v).mistnost@[i] {
                Some(r) => jednou(poradi_mistnosti(*skola, old(v).lekce@[i])).contains(r@),
                None => true,
            },
        forall|i: int|
            0 <= i < old(v).lekce@.len() && (old(v).mistnost@[i].is_none() || match jen {
                Some(j) => j@.contains(i as usize),
                None => true,
            }) ==> match #[trigger] final(v).mistnost@[i] {
                Some(r) => jednou(poradi_mistnosti(*skola, old(v).lekce@[i])).contains(r@),
                None => true,
            },
        forall|i: int|
            0 <= i < old(v).lekce@.len() && old(v).slot@[i].is_none() && (old(v).mistnost@[i].is_none() || match jen {
                Some(j) => j@.contains(i as usize),
                None => true,
            }) ==> (#[trigger] final(v).mistnost@[i]).is_none(),
        forall|x: int| 0 <= x < old(v).lekce@.len() && #[trigger] dostane_mistnost(*skola, *old(v), x) ==> final(v).mistnost@[x].is_some(),
        forall|a: int|
            0 <= a < old(v).lekce@.len() && (old(v).mistnost@[a].is_none() || match jen {
                Some(j) => j@.contains(a as usize),
                None => true,
            }) ==> #[trigger] bez_stretu_mistnosti(*old(v), final(v).mistnost@, a),
        (forall|i: int|
            0 <= i < old(v).lekce@.len() && old(v).slot@[i].is_some() && (old(v).mistnost@[i].is_none() || match jen {
                Some(j) => j@.contains(i as usize),
                None => true,
            }) ==> exists|r: Seq<char>| jednou(poradi_mistnosti(*skola, old(v).lekce@[i])).contains(r) && nepouzita(final(v).mistnost@, r))
            ==> forall|i: int|
            0 <= i < old(v).lekce@.len() && (old(v).mistnost@[i].is_none() || match jen {
                Some(j) => j@.contains(i as usize),
                None => true,
            }) ==> #[trigger] dobra_volba(*skola, *old(v), final(v).mistnost@, i),
{
    let n = v.lekce.len();
    let ghost v0 = *v;
    let mut obs: Mapa<Vec<usize>> = Mapa::new();
    let mut maska: Vec<bool> = Vec::new();
    let mut poradi: Vec<usize> = Vec::new();
    let mut i: usize = 0;
    while i < n
        invariant
            i <= n,
            n == v.lekce@.len(),
            v.lekce@ == v0.lekce@,
            v.rok == v0.rok,
            v.slot@ == v0.slot@,
            v.mistnost@.len() == n,
            v.limity == v0.limity,
            v.virtualni_zaci@ == v0.virtualni_zaci@,
            v.varovani@ == v0.varovani@,
            v.problemy@ == v0.problemy@,
            v.skore_tvrde == v0.skore_tvrde,
            v.skore_mekke == v0.skore_mekke,
            v.iteraci == v0.iteraci,
            v.cas_ms == v0.cas_ms,
            v.zaci_tridy@ == v0.zaci_tridy@,
            v.problemove_lekce@ == v0.problemove_lekce@,
            crate::validation::rozvrh_ve_tydnu(*v),
            obsazeni_dobre(obs),
            maska@.len() == i,
            forall|k: int| 0 <= k < poradi@.len() ==> (#[trigger] poradi@[k]) < i && maska@[poradi@[k] as int],
            forall|x: int| 0 <= x < n && !(x < i && maska@[x]) ==> #[trigger] v.mistnost@[x] == v0.mistnost@[x],
            forall|x: int| 0 <= x < i && maska@[x] ==> (#[trigger] v.mistnost@[x]).is_none(),
            match jen {
                Some(j) => forall|x: int| 0 <= x < i && v0.mistnost@[x].is_some() && !j@.contains(x as usize) ==> !(#[trigger] maska@[x]),
                None => true,
            },
            forall|x: int| 0 <= x < i && (v0.mistnost@[x].is_none() || match jen {
                Some(j) => j@.contains(x as usize),
                None => true,
            }) ==> #[trigger] maska@[x],
            drzi_jen_umistene(obs, maska@, v.slot@),
            forall|r: Seq<char>, t: int| obs.ma(r) && 0 <= t < 2 * N_SLOTU ==> (#[trigger] obs.hodnota(r)@[t]) < i || obs.hodnota(r)@[t] == usize::MAX,
            zaznamy_platne(obs, v0, v.mistnost@),
            forall|x: int| 0 <= x < i && #[trigger] maska@[x] ==> poradi@.contains(x as usize),
            poradi@.no_duplicates(),
            zaznamy_vlastni(obs, v.mistnost@),
            pokryto(obs, v0, v.mistnost@, i as int),
            crate::validation::rozvrh_ve_tydnu(v0),
        decreases n - i,
    {
        let znovu = match jen {
            Some(j) => crate::podle_id::ma_index(j, i),
            None => true,
        } || v.mistnost[i].is_none();
        let ghost p0 = poradi@;
        let ghost m0 = maska@;
        if znovu {
            let ghost mi0 = v.mistnost@;
            v.mistnost.set(i, None);
            poradi.push(i);
            proof {
                assert forall|rr: Seq<char>, t: int|
                    obs.ma(rr) && 0 <= t < 2 * N_SLOTU && #[trigger] obs.hodnota(rr)@[t] != usize::MAX implies obs.hodnota(rr)@[t] < v0.lekce@.len()
                        && sloty_v(v0, obs.hodnota(rr)@[t] as int).contains(t as usize) && (samostatna(v0, obs.hodnota(rr)@[t] as int)
                        ==> v.mistnost@[obs.hodnota(rr)@[t] as int].is_some()) by {
                    assert(obs.hodnota(rr)@[t] < i);
                    assert(v.mistnost@[obs.hodnota(rr)@[t] as int] == mi0[obs.hodnota(rr)@[t] as int]);
                }
                assert(poradi@[p0.len() as int] == i);
                assert forall|k1: int, k2: int| 0 <= k1 < k2 < poradi@.len() implies poradi@[k1] != poradi@[k2] by {
                    if k2 == p0.len() {
                        assert(poradi@[k1] == p0[k1]);
                    } else {
                        assert(poradi@[k1] == p0[k1] && poradi@[k2] == p0[k2]);
                    }
                }
                assert forall|rr: Seq<char>, t: int|
                    obs.ma(rr) && 0 <= t < 2 * N_SLOTU && #[trigger] obs.hodnota(rr)@[t] != usize::MAX implies obs.hodnota(rr)@[t] < v.mistnost@.len()
                        && v.mistnost@[obs.hodnota(rr)@[t] as int] is Some && v.mistnost@[obs.hodnota(rr)@[t] as int].unwrap()@ == rr by {
                    assert(obs.hodnota(rr)@[t] < i);
                    assert(v.mistnost@[obs.hodnota(rr)@[t] as int] == mi0[obs.hodnota(rr)@[t] as int]);
                }
                assert forall|x: int, t: usize|
                    0 <= x < i + 1 && x < v.mistnost@.len() && v.mistnost@[x] is Some && #[trigger] sloty_v(v0, x).contains(t) implies obs.ma(
                        v.mistnost@[x].unwrap()@,
                    ) && obs.hodnota(v.mistnost@[x].unwrap()@)@[t as int] != usize::MAX by {
                    assert(v.mistnost@[x] == mi0[x]);
                }
                assert forall|x: int| 0 <= x < i && #[trigger] maska@[x] implies poradi@.contains(x as usize) by {
                    let k = choose|k: int| 0 <= k < p0.len() && p0[k] == x as usize;
                    assert(poradi@[k] == x as usize);
                }
            }
        } else {
            match &v.mistnost[i] {
                Some(r) => {
                    let r = r.clone();
                    let sl = sloty_lekce(v, i);
                    let ghost ob0 = obs;
                    zapis_mistnost(&mut obs, &r, &sl, i);
                    proof {
                        assert(sl@ == sloty_v(v0, i as int));
                        lemma_zapis_vlastni(ob0, obs, v0, v.mistnost@, r@, i as int);
                        lemma_zaznamy_zapis(ob0, obs, r@, sl@, i, v0, v.mistnost@);
                        assert forall|rr: Seq<char>, t: int| obs.ma(rr) && 0 <= t < 2 * N_SLOTU implies (#[trigger] obs.hodnota(rr)@[t]) < i + 1 || obs.hodnota(rr)@[t] == usize::MAX by {
                            if rr != r@ {
                                assert(ob0.ma(rr));
                            }
                        }
                        lemma_drzi_jen_umistene(ob0, obs, r@, sl@, i, maska@, v.slot@);
                    }
                },
                None => {},
            }
        }
        maska.push(znovu);
        proof {
            assert forall|x: int| 0 <= x < i + 1 && #[trigger] maska@[x] implies poradi@.contains(x as usize) by {
                if x < i {
                    assert(m0[x]);
                }
            }
            assert forall|k: int| 0 <= k < poradi@.len() implies (#[trigger] poradi@[k]) < i + 1 && maska@[poradi@[k] as int] by {
                if k < p0.len() {
                    assert(poradi@[k] == p0[k]);
                    assert(maska@[p0[k] as int] == m0[p0[k] as int]);
                }
            }
        }
        i = i + 1;
    }
    let mut povolene: Vec<Vec<String>> = Vec::new();
    let mut i: usize = 0;
    while i < n
        invariant
            i <= n,
            n == v.lekce@.len(),
            povolene@.len() == i,
            forall|x: int| 0 <= x < i ==> crate::data::retezce((#[trigger] povolene@[x])@) == jednou(poradi_mistnosti(*skola, v.lekce@[x])),
            forall|x: int| 0 <= x < n && (v0.mistnost@[x].is_none() || match jen {
                Some(j) => j@.contains(x as usize),
                None => true,
            }) ==> #[trigger] maska@[x],
            forall|x: int| 0 <= x < n && maska@[x] && v.slot@[x].is_none() ==> (#[trigger] v.mistnost@[x]).is_none(),
            drzi_jen_umistene(obs, maska@, v.slot@),
            maska@.len() == n,
            zaznamy_platne(obs, v0, v.mistnost@),
            forall|x: int| 0 <= x < n && #[trigger] maska@[x] ==> poradi@.contains(x as usize),
        decreases n - i,
    {
        povolene.push(povolene_mistnosti(skola, &v.lekce[i]));
        i = i + 1;
    }
    let ghost pl = poradi@.len();
    let mut a: usize = 1;
    while a < poradi.len()
        invariant
            1 <= a,
            poradi@.len() == pl,
            n == v.lekce@.len(),
            povolene@.len() == n,
            maska@.len() == n,
            forall|k: int| 0 <= k < poradi@.len() ==> (#[trigger] poradi@[k]) < n && maska@[poradi@[k] as int],
            forall|x: int| 0 <= x < n && (v0.mistnost@[x].is_none() || match jen {
                Some(j) => j@.contains(x as usize),
                None => true,
            }) ==> #[trigger] maska@[x],
            forall|x: int| 0 <= x < n && maska@[x] && v.slot@[x].is_none() ==> (#[trigger] v.mistnost@[x]).is_none(),
            drzi_jen_umistene(obs, maska@, v.slot@),
            zaznamy_platne(obs, v0, v.mistnost@),
            forall|x: int| 0 <= x < n && #[trigger] maska@[x] ==> poradi@.contains(x as usize),
            poradi@.no_duplicates(),
        decreases poradi@.len() - a,
    {
        let ghost pp = poradi@;
        let x = poradi[a];
        let x0 = v.lekce[x].kmenova_ok;
        let x1 = povolene[x].len();
        let x2 = !v.lekce[x].skupina.as_str().is_empty();
        let x3 = v.lekce[x].zaci.len();
        let mut b = a;
        while b > 0
            invariant
                0 <= b <= a,
                a < poradi@.len(),
                poradi@.len() == pl,
                x < n,
                maska@[x as int],
                n == v.lekce@.len(),
                povolene@.len() == n,
                maska@.len() == n,
                forall|k: int| 0 <= k < poradi@.len() ==> (#[trigger] poradi@[k]) < n && maska@[poradi@[k] as int],
                pp.len() == pl,
                x == pp[a as int],
                forall|k: int| 0 <= k <= b ==> #[trigger] poradi@[k] == pp[k],
                forall|k: int| b < k <= a ==> #[trigger] poradi@[k] == pp[k - 1],
                forall|k: int| a < k < pl ==> #[trigger] poradi@[k] == pp[k],
            decreases b,
        {
            let y = poradi[b - 1];
            let y0 = v.lekce[y].kmenova_ok;
            let y1 = povolene[y].len();
            let y2 = !v.lekce[y].skupina.as_str().is_empty();
            let y3 = v.lekce[y].zaci.len();
            let pred = (!x0 && y0) || (x0 == y0 && (x1 < y1 || (x1 == y1 && ((!x2 && y2) || (x2 == y2 && x3 > y3)))));
            if !pred {
                break;
            }
            poradi.set(b, y);
            b = b - 1;
        }
        poradi.set(b, x);
        proof {
            assert forall|k1: int, k2: int| 0 <= k1 < k2 < poradi@.len() implies poradi@[k1] != poradi@[k2] by {
                let f1 = if k1 < b { k1 } else if k1 == b { a as int } else if k1 <= a { k1 - 1 } else { k1 };
                let f2 = if k2 < b { k2 } else if k2 == b { a as int } else if k2 <= a { k2 - 1 } else { k2 };
                assert(poradi@[k1] == pp[f1]);
                assert(poradi@[k2] == pp[f2]);
                assert(f1 != f2);
            }
            assert forall|z: int| 0 <= z < n && #[trigger] maska@[z] implies poradi@.contains(z as usize) by {
                assert(pp.contains(z as usize));
                let k = choose|k: int| 0 <= k < pp.len() && pp[k] == z as usize;
                if k < b {
                    assert(poradi@[k] == z as usize);
                } else if k < a {
                    assert(poradi@[k + 1] == z as usize);
                } else if k == a {
                    assert(poradi@[b as int] == z as usize);
                } else {
                    assert(poradi@[k] == z as usize);
                }
            }
        }
        a = a + 1;
    }
    let ghost mut vymena = false;
    let ghost mut kv: int = 0;
    let mut q: usize = 0;
    while q < poradi.len()
        invariant
            q <= poradi@.len(),
            forall|x: int| 0 <= x < n && #[trigger] maska@[x] ==> (v0.mistnost@[x].is_none() || match jen {
                Some(j) => j@.contains(x as usize),
                None => true,
            }),
            vymena ==> 0 <= kv < n && maska@[kv] && v0.slot@[kv].is_some() && forall|a: int|
                0 <= a < jednou(poradi_mistnosti(*skola, v0.lekce@[kv])).len() ==> !nepouzita(
                    v.mistnost@,
                    #[trigger] jednou(poradi_mistnosti(*skola, v0.lekce@[kv]))[a],
                ),
            !vymena ==> forall|kk: int| 0 <= kk < q ==> #[trigger] dobra_volba(*skola, v0, v.mistnost@, poradi@[kk] as int),
            n == v.lekce@.len(),
            v.lekce@ == v0.lekce@,
            v.rok == v0.rok,
            v.slot@ == v0.slot@,
            v.mistnost@.len() == n,
            v.limity == v0.limity,
            v.virtualni_zaci@ == v0.virtualni_zaci@,
            v.varovani@ == v0.varovani@,
            v.problemy@ == v0.problemy@,
            v.skore_tvrde == v0.skore_tvrde,
            v.skore_mekke == v0.skore_mekke,
            v.iteraci == v0.iteraci,
            v.cas_ms == v0.cas_ms,
            v.zaci_tridy@ == v0.zaci_tridy@,
            v.problemove_lekce@ == v0.problemove_lekce@,
            crate::validation::rozvrh_ve_tydnu(*v),
            obsazeni_dobre(obs),
            povolene@.len() == n,
            maska@.len() == n,
            forall|k: int| 0 <= k < poradi@.len() ==> (#[trigger] poradi@[k]) < n && maska@[poradi@[k] as int],
            forall|x: int| 0 <= x < n && !maska@[x] ==> #[trigger] v.mistnost@[x] == v0.mistnost@[x],
            forall|x: int| 0 <= x < n ==> crate::data::retezce((#[trigger] povolene@[x])@) == jednou(poradi_mistnosti(*skola, v.lekce@[x])),
            forall|x: int| 0 <= x < n && maska@[x] ==> match #[trigger] v.mistnost@[x] {
                Some(r) => jednou(poradi_mistnosti(*skola, v.lekce@[x])).contains(r@),
                None => true,
            },
            forall|x: int| 0 <= x < n && (v0.mistnost@[x].is_none() || match jen {
                Some(j) => j@.contains(x as usize),
                None => true,
            }) ==> #[trigger] maska@[x],
            forall|x: int| 0 <= x < n && maska@[x] && v.slot@[x].is_none() ==> (#[trigger] v.mistnost@[x]).is_none(),
            drzi_jen_umistene(obs, maska@, v.slot@),
            zaznamy_platne(obs, v0, v.mistnost@),
            forall|x: int| 0 <= x < n && #[trigger] maska@[x] ==> poradi@.contains(x as usize),
            forall|k: int| 0 <= k < q && dostane_mistnost(*skola, v0, #[trigger] poradi@[k] as int) ==> v.mistnost@[poradi@[k] as int].is_some(),
            poradi@.no_duplicates(),
            crate::validation::rozvrh_ve_tydnu(v0),
            forall|k: int| q <= k < poradi@.len() ==> v.mistnost@[(#[trigger] poradi@[k]) as int] is None,
            zaznamy_vlastni(obs, v.mistnost@),
            pokryto(obs, v0, v.mistnost@, n as int),
            forall|x: int| 0 <= x < n && maska@[x] ==> #[trigger] bez_stretu_mistnosti(v0, v.mistnost@, x),
        decreases poradi@.len() - q,
    {
        let i = poradi[q];
        let ghost mq = v.mistnost@;
        if v.slot[i].is_some() {
            let sl = sloty_lekce(v, i);
            let velikost = v.pocet_realnych_zaku(i) as u64;
            let pov = &povolene[i];
            let v1 = prvni_volna(skola, &obs, pov, &sl, true, velikost, None);
            let vyber = match v1 {
                Some(k) => Some(k),
                None => prvni_volna(skola, &obs, pov, &sl, false, 0, None),
            };
            proof {
                assert(sl@ == sloty_v(v0, i as int));
                if dostane_mistnost(*skola, v0, i as int) && v.mistnost@[i as int].is_none() {
                    assert(crate::data::retezce(pov@).len() == pov@.len());
                    assert(pov@.len() > 0);
                    assert forall|rr: Seq<char>| obs.ma(rr) implies forall|k: int| 0 <= k < sl@.len() ==> obs.hodnota(rr)@[#[trigger] sl@[k] as int] == usize::MAX by {
                        assert forall|k: int| 0 <= k < sl@.len() implies obs.hodnota(rr)@[#[trigger] sl@[k] as int] == usize::MAX by {
                            let t = sl@[k] as int;
                            let y = obs.hodnota(rr)@[t];
                            if y != usize::MAX {
                                assert(sloty_v(v0, y as int).contains(t as usize));
                                assert(sloty_v(v0, i as int).contains(t as usize));
                                if y != i {
                                    assert(!sloty_v(v0, i as int).contains(t as usize));
                                }
                            }
                        }
                    }
                    assert(vhodna_mistnost(*skola, obs, pov@[0]@, sl@, false, 0, None));
                    assert(vyber.is_some());
                }
            }
            match vyber {
                Some(k) => {
                    let r = pov[k].clone();
                    proof {
                        assert(crate::data::retezce(povolene@[i as int]@)[k as int] == r@);
                    }
                    let ghost ob0 = obs;
                    let ghost m0 = v.mistnost@;
                    let ghost rv = r@;
                    zapis_mistnost(&mut obs, &r, &sl, i);
                    proof {
                        lemma_drzi_jen_umistene(ob0, obs, r@, sl@, i, maska@, v.slot@);
                    }
                    v.mistnost.set(i, Some(r));
                    proof {
                        assert(m0[i as int] is None);
                        lemma_prideleni(ob0, obs, v0, m0, v.mistnost@, maska@, rv, i as int);
                        assert forall|kk: int| q + 1 <= kk < poradi@.len() implies v.mistnost@[(#[trigger] poradi@[kk]) as int] is None by {
                            assert(poradi@[kk] != poradi@[q as int]);
                        }
                        lemma_zaznamy_mistnost(ob0, v0, m0, v.mistnost@);
                        lemma_zaznamy_zapis(ob0, obs, r@, sl@, i, v0, v.mistnost@);
                        assert(m0 == mq);
                        reveal(nepouzita);
                        reveal(volna_pro);
                        reveal(dobra_volba);
                        assert forall|rho: Seq<char>| !nepouzita(mq, rho) implies !nepouzita(v.mistnost@, rho) by {
                            let x = choose|x: int| 0 <= x < mq.len() && (#[trigger] mq[x]) is Some && mq[x].unwrap()@ == rho;
                            assert(v.mistnost@[x] == mq[x]);
                        }
                        if vymena {
                            assert forall|a: int|
                                0 <= a < jednou(poradi_mistnosti(*skola, v0.lekce@[kv])).len() implies !nepouzita(
                                    v.mistnost@,
                                    #[trigger] jednou(poradi_mistnosti(*skola, v0.lekce@[kv]))[a],
                                ) by {
                                assert(!nepouzita(mq, jednou(poradi_mistnosti(*skola, v0.lekce@[kv]))[a]));
                            }
                        } else {
                            lemma_volba_primo(*skola, v0, ob0, mq, v.mistnost@, i as int, sl@, pov@, v1, k as int, velikost);
                            assert(dobra_volba(*skola, v0, v.mistnost@, i as int));
                            assert forall|kk: int| 0 <= kk < q + 1 implies #[trigger] dobra_volba(*skola, v0, v.mistnost@, poradi@[kk] as int) by {
                                if kk < q {
                                    assert(poradi@[kk] != i);
                                    lemma_dobra_trva(*skola, v0, mq, v.mistnost@, poradi@[kk] as int, i as int);
                                }
                            }
                        }
                    }
                },
                None => {
                    proof {
                        let pl = jednou(poradi_mistnosti(*skola, v0.lekce@[i as int]));
                        assert(pl == crate::data::retezce(pov@));
                        assert(v.mistnost@ == mq);
                        assert forall|a: int| 0 <= a < pl.len() implies !nepouzita(mq, #[trigger] pl[a]) by {
                            assert(pl[a] == pov@[a]@);
                            assert(!vhodna_mistnost(*skola, obs, pov@[a]@, sl@, false, 0, None));
                            lemma_obsazena_pouzita(obs, v.mistnost@, pov@[a]@, sl@);
                        }
                        vymena = true;
                        kv = i as int;
                    }
                    let mut k: usize = 0;
                    while k < pov.len()
                        invariant_except_break
                            v.mistnost@[i as int] is None,
                        invariant
                            forall|rho: Seq<char>| !nepouzita(mq, rho) ==> !nepouzita(v.mistnost@, rho),
                            k <= pov@.len(),
                            i < n,
                            maska@[i as int],
                            n == v.lekce@.len(),
                            v.lekce@ == v0.lekce@,
                            v.rok == v0.rok,
                            v.slot@ == v0.slot@,
                            v.mistnost@.len() == n,
                            v.limity == v0.limity,
                            v.virtualni_zaci@ == v0.virtualni_zaci@,
                            v.varovani@ == v0.varovani@,
                            v.problemy@ == v0.problemy@,
                            v.skore_tvrde == v0.skore_tvrde,
                            v.skore_mekke == v0.skore_mekke,
                            v.iteraci == v0.iteraci,
                            v.cas_ms == v0.cas_ms,
                            v.zaci_tridy@ == v0.zaci_tridy@,
                            v.problemove_lekce@ == v0.problemove_lekce@,
                            crate::validation::rozvrh_ve_tydnu(*v),
                            obsazeni_dobre(obs),
                            maska@.len() == n,
                            forall|x: int| 0 <= x < sl@.len() ==> (#[trigger] sl@[x]) < 2 * N_SLOTU,
                            forall|x: int| 0 <= x < n && !maska@[x] ==> #[trigger] v.mistnost@[x] == v0.mistnost@[x],
                            *pov == povolene@[i as int],
                            povolene@.len() == n,
                            forall|x: int| 0 <= x < n ==> crate::data::retezce((#[trigger] povolene@[x])@) == jednou(poradi_mistnosti(*skola, v.lekce@[x])),
                            forall|x: int| 0 <= x < n && maska@[x] ==> match #[trigger] v.mistnost@[x] {
                                Some(r) => jednou(poradi_mistnosti(*skola, v.lekce@[x])).contains(r@),
                                None => true,
                            },
                            forall|x: int| 0 <= x < n && maska@[x] && v.slot@[x].is_none() ==> (#[trigger] v.mistnost@[x]).is_none(),
                            drzi_jen_umistene(obs, maska@, v.slot@),
                            v.slot@[i as int].is_some(),
                            zaznamy_platne(obs, v0, v.mistnost@),
                            sl@ == sloty_v(v0, i as int),
                            forall|x: int| 0 <= x < n && (#[trigger] mq[x]).is_some() ==> v.mistnost@[x].is_some(),
                            mq.len() == n,
                            q < poradi@.len(),
                            i == poradi@[q as int],
                            poradi@.no_duplicates(),
                            crate::validation::rozvrh_ve_tydnu(v0),
                            forall|kk: int| q < kk < poradi@.len() ==> v.mistnost@[(#[trigger] poradi@[kk]) as int] is None,
                            forall|kk: int| 0 <= kk < poradi@.len() ==> (#[trigger] poradi@[kk]) < n,
                            zaznamy_vlastni(obs, v.mistnost@),
                            pokryto(obs, v0, v.mistnost@, n as int),
                            forall|x: int| 0 <= x < n && maska@[x] ==> #[trigger] bez_stretu_mistnosti(v0, v.mistnost@, x),
                        decreases pov@.len() - k,
                    {
                        let r = &pov[k];
                        let d = drzitele(&obs, r.as_str(), &sl);
                        if d.len() == 1 && d[0] < n && maska[d[0]] {
                            let j = d[0];
                            proof {
                                assert(d@.contains(j));
                                let kk = choose|kk: int| 0 <= kk < sl@.len() && obs.hodnota(r@)@[#[trigger] sl@[kk] as int] == j;
                                assert(v.mistnost@[j as int] is Some && v.mistnost@[j as int].unwrap()@ == r@);
                                assert(v.slot@[j as int].is_some());
                                assert(obs.hodnota(r@)@[sl@[kk] as int] != usize::MAX);
                                assert(samostatna(v0, j as int) ==> v.mistnost@[j as int].is_some());
                            }
                            let ghost mj = v.mistnost@;
                            let slj = sloty_lekce(v, j);
                            let ghost ob0 = obs;
                            zapis_mistnost(&mut obs, r, &slj, usize::MAX);
                            proof {
                                lemma_drzi_jen_umistene(ob0, obs, r@, slj@, usize::MAX, maska@, v.slot@);
                                lemma_zaznamy_zapis(ob0, obs, r@, slj@, usize::MAX, v0, v.mistnost@);
                                assert(slj@ == sloty_v(v0, j as int));
                            }
                            if volna(&obs, r.as_str(), &sl) {
                                let pj = povolene_mistnosti(skola, &v.lekce[j]);
                                match prvni_volna(skola, &obs, &pj, &slj, false, 0, Some(r)) {
                                    Some(x) => {
                                        let rx = pj[x].clone();
                                        proof {
                                            assert(crate::data::retezce(pj@)[x as int] == rx@);
                                            assert(crate::data::retezce(pov@)[k as int] == r@);
                                        }
                                        let ghost ob1 = obs;
                                        let ghost rxv = rx@;
                                        zapis_mistnost(&mut obs, &rx, &slj, j);
                                        proof {
                                            lemma_drzi_jen_umistene(ob1, obs, rx@, slj@, j, maska@, v.slot@);
                                        }
                                        v.mistnost.set(j, Some(rx));
                                        proof {
                                            lemma_zaznamy_mistnost(ob1, v0, mj, v.mistnost@);
                                            lemma_zaznamy_zapis(ob1, obs, rxv, slj@, j, v0, v.mistnost@);
                                            lemma_presun_drzitele(ob0, ob1, obs, v0, mj, v.mistnost@, maska@, r@, rxv, j as int);
                                        }
                                        let ghost mj2 = v.mistnost@;
                                        let ghost ob2 = obs;
                                        zapis_mistnost(&mut obs, r, &sl, i);
                                        proof {
                                            lemma_drzi_jen_umistene(ob2, obs, r@, sl@, i, maska@, v.slot@);
                                        }
                                        v.mistnost.set(i, Some(r.clone()));
                                        proof {
                                            lemma_zaznamy_mistnost(ob2, v0, mj2, v.mistnost@);
                                            lemma_zaznamy_zapis(ob2, obs, r@, sl@, i, v0, v.mistnost@);
                                            assert(mj2[i as int] is None);
                                            assert(volna_spec(ob2, r@, sl@));
                                            lemma_prideleni(ob2, obs, v0, mj2, v.mistnost@, maska@, r@, i as int);
                                            assert forall|kk: int| q + 1 <= kk < poradi@.len() implies v.mistnost@[(#[trigger] poradi@[kk]) as int] is None by {
                                                assert(poradi@[kk] != poradi@[q as int]);
                                                assert(mj[poradi@[kk] as int] is None);
                                                assert(mj[j as int] is Some);
                                                assert(poradi@[kk] != j);
                                                assert(mj2[poradi@[kk] as int] == mj[poradi@[kk] as int]);
                                                assert(v.mistnost@[poradi@[kk] as int] == mj2[poradi@[kk] as int]);
                                            }
                                            assert forall|rho: Seq<char>| !nepouzita(mq, rho) implies !nepouzita(v.mistnost@, rho) by {
                                                reveal(nepouzita);
                                                assert(!nepouzita(mj, rho));
                                                let x = choose|x: int| 0 <= x < mj.len() && (#[trigger] mj[x]) is Some && mj[x].unwrap()@ == rho;
                                                if x == j {
                                                    assert(v.mistnost@[i as int] is Some && v.mistnost@[i as int].unwrap()@ == rho);
                                                } else {
                                                    assert(x != i);
                                                    assert(v.mistnost@[x] == mj[x]);
                                                }
                                            }
                                        }
                                        break;
                                    },
                                    None => {},
                                }
                            }
                            let ghost ob3 = obs;
                            zapis_mistnost(&mut obs, r, &slj, j);
                            proof {
                                lemma_drzi_jen_umistene(ob3, obs, r@, slj@, j, maska@, v.slot@);
                                lemma_zaznamy_zapis(ob3, obs, r@, slj@, j, v0, v.mistnost@);
                                lemma_vraceni_drzitele(ob0, ob3, obs, v0, v.mistnost@, r@, j as int);
                            }
                        }
                        k = k + 1;
                    }
                    proof {
                        let pl = jednou(poradi_mistnosti(*skola, v0.lekce@[i as int]));
                        assert forall|a: int| 0 <= a < pl.len() implies !nepouzita(v.mistnost@, #[trigger] pl[a]) by {
                            assert(!nepouzita(mq, pl[a]));
                        }
                    }
                },
            }
        }
        proof {
            assert forall|k: int| 0 <= k < q + 1 && dostane_mistnost(*skola, v0, #[trigger] poradi@[k] as int) implies v.mistnost@[poradi@[k] as int].is_some() by {
                assert(mq[poradi@[k] as int].is_some() ==> v.mistnost@[poradi@[k] as int].is_some());
            }
            if v.mistnost@ == mq {
                if !vymena {
                    assert forall|kk: int| 0 <= kk < q + 1 implies #[trigger] dobra_volba(*skola, v0, v.mistnost@, poradi@[kk] as int) by {
                        if kk == q {
                            reveal(dobra_volba);
                            assert(mq[i as int] is None);
                        }
                    }
                }
            }
        }
        q = q + 1;
    }
    proof {
        assert forall|x: int|
            0 <= x < v0.lekce@.len() implies #[trigger] v.mistnost@[x] == v0.mistnost@[x] || match v.mistnost@[x] {
                Some(r) => jednou(poradi_mistnosti(*skola, v0.lekce@[x])).contains(r@),
                None => true,
            } by {
            if maska@[x] {
            }
        }
        assert forall|x: int|
            0 <= x < v0.lekce@.len() && (v0.mistnost@[x].is_none() || match jen {
                Some(j) => j@.contains(x as usize),
                None => true,
            }) implies match #[trigger] v.mistnost@[x] {
                Some(r) => jednou(poradi_mistnosti(*skola, v0.lekce@[x])).contains(r@),
                None => true,
            } by {
            assert(maska@[x]);
        }
        assert forall|a: int|
            0 <= a < v0.lekce@.len() && (v0.mistnost@[a].is_none() || match jen {
                Some(j) => j@.contains(a as usize),
                None => true,
            }) implies #[trigger] bez_stretu_mistnosti(v0, v.mistnost@, a) by {
            assert(maska@[a]);
        }
        if (forall|i: int|
            0 <= i < v0.lekce@.len() && v0.slot@[i].is_some() && (v0.mistnost@[i].is_none() || match jen {
                Some(j) => j@.contains(i as usize),
                None => true,
            }) ==> exists|r: Seq<char>| jednou(poradi_mistnosti(*skola, v0.lekce@[i])).contains(r) && nepouzita(v.mistnost@, r)) {
            if vymena {
                reveal(nepouzita);
                let r = choose|r: Seq<char>| jednou(poradi_mistnosti(*skola, v0.lekce@[kv])).contains(r) && nepouzita(v.mistnost@, r);
                let a = choose|a: int| 0 <= a < jednou(poradi_mistnosti(*skola, v0.lekce@[kv])).len() && jednou(poradi_mistnosti(*skola, v0.lekce@[kv]))[a] == r;
                assert(!nepouzita(v.mistnost@, jednou(poradi_mistnosti(*skola, v0.lekce@[kv]))[a]));
            }
            assert forall|x: int|
                0 <= x < v0.lekce@.len() && (v0.mistnost@[x].is_none() || match jen {
                    Some(j) => j@.contains(x as usize),
                    None => true,
                }) implies #[trigger] dobra_volba(*skola, v0, v.mistnost@, x) by {
                assert(maska@[x]);
                let k = choose|k: int| 0 <= k < poradi@.len() && poradi@[k] == x as usize;
                assert(dobra_volba(*skola, v0, v.mistnost@, poradi@[k] as int));
            }
        }
        assert forall|x: int| 0 <= x < v0.lekce@.len() && #[trigger] dostane_mistnost(*skola, v0, x) implies v.mistnost@[x].is_some() by {
            if maska@[x] {
                let k = choose|k: int| 0 <= k < poradi@.len() && poradi@[k] == x as usize;
                assert(dostane_mistnost(*skola, v0, poradi@[k] as int));
            }
        }
    }
}

/// Spustí plnou validaci a zapíše problémy do výsledku (po generování i po ručních
/// úpravách); starší varování o kapacitě a místnostech nahradí novými.
/// Text začíná předponou `p`.
pub open spec fn ma_predponu(t: Seq<char>, p: Seq<char>) -> bool {
    p.len() <= t.len() && t.take(p.len() as int) == p
}

/// Limit každé třídy (poslední se svým id) je limit pro některou potřebu hodin, a když ta
/// potřeba překročila kapacitu a auto-uvolnění je zapnuté, mezi varováními je zpráva
/// o uvolnění s touž potřebou.
pub open spec fn uvolneni_hlaseno(skola: Skola, lim: Mapa<crate::data::Omezeni>, w: Seq<String>) -> bool {
    let za_den = skola.nastaveni.limity_za_den;
    let odpo = crate::model::odpoledne_od_spec(skola.nastaveni.odpoledne_od);
    forall|t: int|
        #![trigger skola.tridy@[t]]
        0 <= t < skola.tridy@.len() && crate::model::posledni_s_id(skola.tridy@, t, skola.tridy@.len() as int) ==> exists|pot: int|
            lim.hodnota(skola.tridy@[t].id@) == #[trigger] crate::model::limit_tridy(skola.tridy@[t], pot, za_den, odpo, skola.nastaveni.auto_uvolneni)
                && (skola.nastaveni.auto_uvolneni && pot > kapacita_spec(skola.tridy@[t].spec_omezeni(), za_den, odpo)
                ==> crate::validation::hlasi(w, crate::model::text_uvolneni(skola.tridy@[t], pot, za_den, odpo)))
}

/// Varování o uvolnění limitu nezačíná jako varování o místnostech.
proof fn lemma_uvolneni_neni_o_mistnosti(tr: crate::data::Trida, pot: int, za_den: bool, odpo: int)
    ensures
        !ma_predponu(crate::model::text_uvolneni(tr, pot, za_den, odpo), "Kapacita:"@),
        !ma_predponu(crate::model::text_uvolneni(tr, pot, za_den, odpo), "Místnost:"@),
{
    reveal_strlit("AUTO-UVOLNĚNO ");
    reveal_strlit("Kapacita:");
    reveal_strlit("Místnost:");
    let t = crate::model::text_uvolneni(tr, pot, za_den, odpo);
    assert(t[0] == 'A');
    if ma_predponu(t, "Kapacita:"@) {
        assert(t.take(9)[0] == 'A');
    }
    if ma_predponu(t, "Místnost:"@) {
        assert(t.take(9)[0] == 'A');
    }
}

/// Hlášení uvolnění zůstane, když se zachovají všechna varování, která nejsou o místnostech.
proof fn lemma_uvolneni_trva(skola: Skola, lim: Mapa<crate::data::Omezeni>, w1: Seq<String>, w2: Seq<String>)
    requires
        uvolneni_hlaseno(skola, lim, w1),
        forall|t: Seq<char>|
            crate::validation::hlasi(w1, t) && !ma_predponu(t, "Kapacita:"@) && !ma_predponu(t, "Místnost:"@)
                ==> #[trigger] crate::validation::hlasi(w2, t),
    ensures
        uvolneni_hlaseno(skola, lim, w2),
{
    let za_den = skola.nastaveni.limity_za_den;
    let odpo = crate::model::odpoledne_od_spec(skola.nastaveni.odpoledne_od);
    assert forall|t: int|
        #![trigger skola.tridy@[t]]
        0 <= t < skola.tridy@.len() && crate::model::posledni_s_id(skola.tridy@, t, skola.tridy@.len() as int) implies exists|pot: int|
            lim.hodnota(skola.tridy@[t].id@) == #[trigger] crate::model::limit_tridy(skola.tridy@[t], pot, za_den, odpo, skola.nastaveni.auto_uvolneni)
                && (skola.nastaveni.auto_uvolneni && pot > kapacita_spec(skola.tridy@[t].spec_omezeni(), za_den, odpo)
                ==> crate::validation::hlasi(w2, crate::model::text_uvolneni(skola.tridy@[t], pot, za_den, odpo))) by {
        let pot = choose|pot: int|
            lim.hodnota(skola.tridy@[t].id@) == #[trigger] crate::model::limit_tridy(skola.tridy@[t], pot, za_den, odpo, skola.nastaveni.auto_uvolneni)
                && (skola.nastaveni.auto_uvolneni && pot > kapacita_spec(skola.tridy@[t].spec_omezeni(), za_den, odpo)
                ==> crate::validation::hlasi(w1, crate::model::text_uvolneni(skola.tridy@[t], pot, za_den, odpo)));
        lemma_uvolneni_neni_o_mistnosti(skola.tridy@[t], pot, za_den, odpo);
        assert(lim.hodnota(skola.tridy@[t].id@) == crate::model::limit_tridy(skola.tridy@[t], pot, za_den, odpo, skola.nastaveni.auto_uvolneni));
    }
}

/// Varování o vynechané třídě nezačíná jako varování o místnostech.
proof fn lemma_prazdna_neni_o_mistnosti(tr: crate::data::Trida)
    ensures
        !ma_predponu(text_prazdne_tridy(tr), "Kapacita:"@),
        !ma_predponu(text_prazdne_tridy(tr), "Místnost:"@),
{
    reveal_strlit("Třída ");
    reveal_strlit("Kapacita:");
    reveal_strlit("Místnost:");
    let t = text_prazdne_tridy(tr);
    assert(t[0] == 'T');
    if ma_predponu(t, "Kapacita:"@) {
        assert(t.take(9)[0] == 'T');
    }
    if ma_predponu(t, "Místnost:"@) {
        assert(t.take(9)[0] == 'T');
    }
}

/// Varování o pinu bez lekce nezačíná jako varování o místnostech.
proof fn lemma_pin_neni_o_mistnosti(x: Seq<char>)
    ensures
        !ma_predponu(crate::model::text_pinu_bez_lekce(x), "Kapacita:"@),
        !ma_predponu(crate::model::text_pinu_bez_lekce(x), "Místnost:"@),
{
    reveal_strlit("Pin ");
    reveal_strlit("Kapacita:");
    reveal_strlit("Místnost:");
    let t = crate::model::text_pinu_bez_lekce(x);
    assert(t[0] == 'P');
    if ma_predponu(t, "Kapacita:"@) {
        assert(t.take(9)[0] == 'P');
    }
    if ma_predponu(t, "Místnost:"@) {
        assert(t.take(9)[0] == 'P');
    }
}

pub fn zkontroluj_a_zapis(skola: &Skola, v: &mut Vysledek)
    requires
        crate::validation::rozvrh_ve_tydnu(*old(v)),
        old(v).limity.dobre(),
        crate::data::tridy_platne(skola.tridy@),
    ensures
        crate::validation::vse_opravnene(*skola, *old(v), final(v).problemy@),
        crate::validation::hlaseni_uplna(*skola, *old(v), final(v).problemy@),
        forall|z: u32, w: int, d: int, druh: Seq<char>|
            #![trigger crate::validation::druh_v_tydnu(*skola, *old(v), z, w, d, druh)]
            old(v).zaci_tridy@.contains_key(z) && 0 <= w < 2 && crate::validation::druh_v_tydnu(*skola, *old(v), z, w, d, druh)
                ==> crate::validation::nahlaseno_poruseni(*skola, *old(v), final(v).problemy@, old(v).zaci_tridy@[z]@, druh, d),
        forall|t: Seq<char>|
            crate::validation::hlasi(old(v).varovani@, t) && !ma_predponu(t, "Kapacita:"@) && !ma_predponu(t, "Místnost:"@)
                ==> #[trigger] crate::validation::hlasi(final(v).varovani@, t),
        final(v).rok == old(v).rok,
        final(v).lekce@ == old(v).lekce@,
        final(v).slot@ == old(v).slot@,
        final(v).mistnost@ == old(v).mistnost@,
        final(v).limity == old(v).limity,
        crate::validation::rostouci_idx(final(v).problemove_lekce@),
        forall|i: int| 0 <= i < old(v).lekce@.len() && old(v).slot@[i].is_none() ==> final(v).problemove_lekce@.contains(i as usize),
        forall|a: int, b: int|
            0 <= a < b < old(v).lekce@.len() && crate::validation::kolizni(*old(v), a, b) ==> final(v).problemove_lekce@.contains(a as usize)
                && final(v).problemove_lekce@.contains(b as usize),
        forall|i: int|
            0 <= i < old(v).lekce@.len() && old(v).slot@[i].is_some() && old(v).mistnost@[i].is_none() ==> final(v).problemove_lekce@.contains(
                i as usize,
            ),
        final(v).zaci_tridy@ == old(v).zaci_tridy@,
        final(v).virtualni_zaci@ == old(v).virtualni_zaci@,
        forall|i: int| 0 <= i < old(v).lekce@.len() && crate::validation::volno_ucitele(skola, *old(v), i) ==> final(v).problemove_lekce@.contains(i as usize),
        forall|i: int| 0 <= i < old(v).lekce@.len() && crate::validation::nevhodna_mistnost(*skola, *old(v), i) ==> final(v).problemove_lekce@.contains(i as usize),
        forall|z: u32, w: int, d: int, i: int|
            #![trigger crate::validation::porusuje_den(*skola, *old(v), z, w, d), crate::validation::lekce_zaka_dne(*old(v), i, z, d)]
            old(v).zaci_tridy@.contains_key(z) && 0 <= w < 2 && 0 <= d < crate::data::DNY && crate::validation::porusuje_den(*skola, *old(v), z, w, d) && 0 <= i
                < old(v).lekce@.len() && crate::validation::lekce_zaka_dne(*old(v), i, z, d) ==> final(v).problemove_lekce@.contains(i as usize),
        forall|z: u32, w: int, i: int|
            #![trigger crate::validation::porusuje_tyden(*skola, *old(v), z, w), crate::validation::lekce_zaka_dne(*old(v), i, z, crate::data::DNY as int)]
            old(v).zaci_tridy@.contains_key(z) && 0 <= w < 2 && crate::validation::porusuje_tyden(*skola, *old(v), z, w) && 0 <= i < old(v).lekce@.len()
                && crate::validation::lekce_zaka_dne(*old(v), i, z, crate::data::DNY as int) ==> final(v).problemove_lekce@.contains(i as usize),
        forall|i: int|
            0 <= i < old(v).lekce@.len() && old(v).slot@[i].is_none() ==> crate::validation::hlasi(
                final(v).problemy@,
                crate::validation::text_neumistene(#[trigger] old(v).lekce@[i]),
            ),
        forall|a: int, b: int|
            0 <= a < b < old(v).lekce@.len() && crate::validation::prekryti(*old(v), a, b) && old(v).lekce@[a].ucitel@
                == old(v).lekce@[b].ucitel@ ==> #[trigger] crate::validation::hlasi(
                final(v).problemy@,
                crate::validation::text_kolize_ucitele(*old(v), a, b, crate::validation::zacatek_prekryti(*old(v), a, b)),
            ),
{
    let k = crate::validation::zkontroluj(skola, v);
    v.problemy = k.problemy;
    v.problemove_lekce = k.problemove_lekce;
    let mut zbyla: Vec<String> = Vec::new();
    let mut i: usize = 0;
    while i < v.varovani.len()
        invariant
            i <= v.varovani@.len(),
            v.varovani@ == old(v).varovani@,
            forall|x: int|
                0 <= x < i && !ma_predponu((#[trigger] v.varovani@[x])@, "Kapacita:"@) && !ma_predponu(v.varovani@[x]@, "Místnost:"@)
                    ==> crate::validation::hlasi(zbyla@, v.varovani@[x]@),
        decreases v.varovani@.len() - i,
    {
        let x = &v.varovani[i];
        if !crate::text::zacina(x.as_str(), "Kapacita:") && !crate::text::zacina(x.as_str(), "Místnost:") {
            let ghost z0 = zbyla@;
            zbyla.push(x.clone());
            proof {
                assert forall|y: int|
                    0 <= y < i + 1 && !ma_predponu((#[trigger] v.varovani@[y])@, "Kapacita:"@) && !ma_predponu(v.varovani@[y]@, "Místnost:"@)
                        implies crate::validation::hlasi(zbyla@, v.varovani@[y]@) by {
                    if y < i {
                        crate::validation::lemma_hlasi_push(z0, zbyla@.last(), v.varovani@[y]@);
                        assert(zbyla@ == z0.push(zbyla@.last()));
                    } else {
                        assert(zbyla@[z0.len() as int]@ == v.varovani@[y]@);
                    }
                }
            }
        }
        i = i + 1;
    }
    let mut i: usize = 0;
    while i < k.varovani.len()
        invariant
            i <= k.varovani@.len(),
            v.varovani@ == old(v).varovani@,
            forall|x: int|
                0 <= x < v.varovani@.len() && !ma_predponu((#[trigger] v.varovani@[x])@, "Kapacita:"@) && !ma_predponu(v.varovani@[x]@, "Místnost:"@)
                    ==> crate::validation::hlasi(zbyla@, v.varovani@[x]@),
        decreases k.varovani@.len() - i,
    {
        let ghost z0 = zbyla@;
        zbyla.push(k.varovani[i].clone());
        proof {
            assert(zbyla@ == z0.push(zbyla@.last()));
            assert forall|y: int|
                0 <= y < v.varovani@.len() && !ma_predponu((#[trigger] v.varovani@[y])@, "Kapacita:"@) && !ma_predponu(v.varovani@[y]@, "Místnost:"@)
                    implies crate::validation::hlasi(zbyla@, v.varovani@[y]@) by {
                crate::validation::lemma_hlasi_push(z0, zbyla@.last(), v.varovani@[y]@);
            }
        }
        i = i + 1;
    }
    proof {
        assert forall|t: Seq<char>|
            crate::validation::hlasi(old(v).varovani@, t) && !ma_predponu(t, "Kapacita:"@) && !ma_predponu(t, "Místnost:"@)
                implies #[trigger] crate::validation::hlasi(zbyla@, t) by {
            let j = choose|j: int| 0 <= j < old(v).varovani@.len() && (#[trigger] old(v).varovani@[j])@ == t;
            assert(v.varovani@[j]@ == t);
        }
    }
    v.varovani = zbyla;
}

/// Lekce `i` je připnutá na začátek `p`, který se vejde do dne i pro dvouhodinovku,
/// a žádná jiná lekce její jednotky není připnutá jinam.
pub open spec fn pin_lekce(lekce: Seq<LekceInfo>, piny: Mapa<u8>, i: int, p: int) -> bool {
    &&& piny.ma(lekce[i].klic@)
    &&& piny.hodnota(lekce[i].klic@) == p
    &&& 0 <= p < N_SLOTU
    &&& p % (SLOTU as int) + 2 <= SLOTU
    &&& forall|k: int|
        0 <= k < lekce.len() && (#[trigger] lekce[k]).jednotka == lekce[i].jednotka && piny.ma(lekce[k].klic@)
            ==> piny.hodnota(lekce[k].klic@) == p
}

/// Pin jednotky je pin lekce, když ostatní lekce jednotky nejsou připnuté jinam.
proof fn lemma_pin_jednotky_je(cl: Seq<usize>, lekce: Seq<LekceInfo>, piny: Mapa<u8>, len: int, i: usize, p: int)
    requires
        cl.contains(i),
        piny.ma(lekce[i as int].klic@),
        piny.hodnota(lekce[i as int].klic@) == p,
        crate::model::vejde(p, len),
        forall|k: int| 0 <= k < cl.len() && piny.ma(lekce[#[trigger] cl[k] as int].klic@) ==> piny.hodnota(lekce[cl[k] as int].klic@) == p,
    ensures
        crate::model::pin_jednotky(cl, lekce, piny, len) == Some(p),
    decreases cl.len(),
{
    let posl = cl.last();
    let k = lekce[posl as int].klic@;
    if piny.ma(k) && crate::model::vejde(piny.hodnota(k) as int, len) {
        assert(cl[cl.len() - 1] == posl);
    } else {
        assert(posl != i);
        let w = choose|w: int| 0 <= w < cl.len() && cl[w] == i;
        assert(cl.drop_last()[w] == i);
        assert forall|x: int| 0 <= x < cl.drop_last().len() && piny.ma(lekce[#[trigger] cl.drop_last()[x] as int].klic@) implies piny.hodnota(
            lekce[cl.drop_last()[x] as int].klic@,
        ) == p by {
            assert(cl.drop_last()[x] == cl[x]);
        }
        lemma_pin_jednotky_je(cl.drop_last(), lekce, piny, len, i, p);
    }
}

/// Hlavní vstup řešiče: lekce a jednotky, model, hladový start, simulované žíhání,
/// slepování bloků, místnosti a validace.
pub fn generuj(
    skola: &Skola,
    rok: &SkolniRok,
    piny: &Mapa<u8>,
    stop: &std::sync::atomic::AtomicBool,
    prubeh: Option<&std::sync::Mutex<Prubeh>>,
) -> (v: Vysledek)
    requires
        crate::data::tridy_platne(skola.tridy@),
        skola.tridy@.len() < 0x1000_0000,
        skola.plan@.len() * 255 <= usize::MAX,
        crate::rok::volby_platne(rok.studenti@),
        piny.dobre(),
    ensures
        v.rok@ == rok.label@,
        exists|vs: Vstup|
            #[trigger] postaveno(*skola, *rok, vs) && v.lekce@ == vs.lekce@ && v.zaci_tridy@ == vs.zaci_tridy@
                && v.virtualni_zaci@ == vs.virtualni@ && forall|t: Seq<char>|
                crate::validation::hlasi(vs.varovani@, t) && !ma_predponu(t, "Kapacita:"@) && !ma_predponu(t, "Místnost:"@)
                    ==> #[trigger] crate::validation::hlasi(v.varovani@, t),
        forall|t: int|
            0 <= t < skola.tridy@.len() && vynechana_t(*skola, rok.studenti@, t) ==> crate::validation::hlasi(
                v.varovani@,
                text_prazdne_tridy(#[trigger] skola.tridy@[t]),
            ),
        v.slot@.len() == v.lekce@.len(),
        v.mistnost@.len() == v.lekce@.len(),
        crate::validation::rozvrh_ve_tydnu(v),
        v.limity.dobre(),
        pary_platne(v.lekce@),
        v.lekce@.len() <= u32::MAX ==> forall|i: int| 0 <= i < v.lekce@.len() ==> (#[trigger] v.slot@[i]).is_some(),
        forall|i: int, k: int|
            0 <= i < v.lekce@.len() && 0 <= k < v.lekce@.len() && (#[trigger] v.lekce@[i]).jednotka == (#[trigger] v.lekce@[k]).jednotka
                ==> v.slot@[i] == v.slot@[k],
        forall|i: int|
            0 <= i < v.lekce@.len() ==> match (#[trigger] v.lekce@[i]).par {
                Some(p) => p < v.lekce@.len() && v.slot@[i] == v.slot@[p as int],
                None => true,
            },
        v.lekce@.len() <= u32::MAX ==> forall|i: int, p: int|
            0 <= i < v.lekce@.len() && #[trigger] pin_lekce(v.lekce@, *piny, i, p) ==> v.slot@[i] == Some(p as u8),
        forall|a: int, b: int|
            0 <= a < b < v.lekce@.len() && crate::validation::kolizni(v, a, b) ==> v.problemove_lekce@.contains(a as usize)
                && v.problemove_lekce@.contains(b as usize),
        crate::editace::problemy_oznacene(*skola, v),
        forall|i: int|
            0 <= i < v.lekce@.len() ==> match #[trigger] v.mistnost@[i] {
                Some(r) => jednou(poradi_mistnosti(*skola, v.lekce@[i])).contains(r@),
                None => true,
            },
        forall|x: int| 0 <= x < v.lekce@.len() && #[trigger] dostane_mistnost(*skola, v, x) ==> v.mistnost@[x].is_some(),
        v.lekce@.len() <= u32::MAX ==> forall|x: Seq<char>|
            piny.ma(x) && !crate::model::ma_lekci_s_klicem(v.lekce@, x) ==> crate::validation::hlasi(
                v.varovani@,
                #[trigger] crate::model::text_pinu_bez_lekce(x),
            ),
        forall|a: int| 0 <= a < v.lekce@.len() ==> #[trigger] bez_stretu_mistnosti(v, v.mistnost@, a),
        crate::validation::vse_opravnene(*skola, v, v.problemy@),
        crate::validation::hlaseni_uplna(*skola, v, v.problemy@),
        v.lekce@.len() <= u32::MAX ==> uvolneni_hlaseno(*skola, v.limity, v.varovani@),
{
    let t0 = crate::hodiny::ted();
    let vstup = postav_lekce(skola, rok);
    let ghost vs = vstup;
    let mut varovani = crate::data::kopie_retezcu(&vstup.varovani);
    let ghost w0 = varovani@;
    let n = vstup.lekce.len();
    let mut slot: Vec<Option<u8>> = Vec::new();
    let mut limity: Mapa<Omezeni> = Mapa::new();
    let mut iteraci: u64 = 0;
    let mut hard: i64 = 0;
    let mut soft: i64 = 0;
    if n <= u32::MAX as usize {
        proof {
            lemma_jednotek_nejvys_lekci(vstup.lekce@, vstup.jednotky@);
        }
        let model = crate::model::Model::postav(skola, &vstup, piny, &mut varovani);
        proof {
            let za_den = skola.nastaveni.limity_za_den;
            let odpo = crate::model::odpoledne_od_spec(skola.nastaveni.odpoledne_od);
            assert forall|t: int|
                #![trigger skola.tridy@[t]]
                0 <= t < skola.tridy@.len() && crate::model::posledni_s_id(skola.tridy@, t, skola.tridy@.len() as int) implies exists|pot: int|
                    model.limity.hodnota(skola.tridy@[t].id@) == #[trigger] crate::model::limit_tridy(skola.tridy@[t], pot, za_den, odpo, skola.nastaveni.auto_uvolneni)
                        && (skola.nastaveni.auto_uvolneni && pot > kapacita_spec(skola.tridy@[t].spec_omezeni(), za_den, odpo)
                        ==> crate::validation::hlasi(varovani@, crate::model::text_uvolneni(skola.tridy@[t], pot, za_den, odpo))) by {
                let pot = crate::model::potreba_tridy(model.prof_units@, model.prof_trida@, model.ulen@, skola.tridy@[t].id@, model.prof_units@.len() as int);
                assert(model.limity.hodnota(skola.tridy@[t].id@) == crate::model::limit_tridy(skola.tridy@[t], pot, za_den, odpo, skola.nastaveni.auto_uvolneni));
                if skola.nastaveni.auto_uvolneni && pot > kapacita_spec(skola.tridy@[t].spec_omezeni(), za_den, odpo) {
                    assert(crate::model::uvolnuje_se(*skola, model.prof_units@, model.prof_trida@, model.ulen@, model.za_den, model.odpo_od as int, t));
                }
            }
            assert(uvolneni_hlaseno(*skola, model.limity, varovani@));
        }
        let mut st = crate::stav::Stav::new(&model);
        let mut rng = crate::nahoda::rng_ze_semene(skola.nastaveni.seed);
        crate::faze::hlas(prubeh, "greedy start", 0, &st, &t0);
        crate::faze::greedy(&mut st, &model, &mut rng);
        crate::faze::hlas(prubeh, "žíhání", 0, &st, &t0);
        let limit_s: u64 = if skola.nastaveni.casovy_limit_s < 1 { 1 } else { skola.nastaveni.casovy_limit_s as u64 };
        let (_, it, _) = crate::faze::zihani(&mut st, &model, &mut rng, limit_s * 1000, stop, prubeh, &t0);
        iteraci = it;
        crate::faze::hlas(prubeh, "slepování bloků", iteraci, &st, &t0);
        crate::faze::slep_bloky(&mut st, &model);
        crate::faze::hlas(prubeh, "místnosti", iteraci, &st, &t0);
        let mut i: usize = 0;
        while i < n
            invariant
                i <= n,
                n == vstup.lekce@.len(),
                jednotky_platne(vstup.lekce@, vstup.jednotky@),
                model.n_u == vstup.jednotky@.len(),
                st.dobry(&model),
                crate::faze::vse_umisteno(&st),
                slot@.len() == i,
                forall|x: int| 0 <= x < i ==> #[trigger] slot@[x] == Some(st.start@[vstup.lekce@[x].jednotka as int]),
            decreases n - i,
        {
            let s = st.start[vstup.lekce[i].jednotka];
            slot.push(Some(s));
            i = i + 1;
        }
        hard = st.hard;
        soft = st.soft;
        proof {
            assert forall|x: int| 0 <= x < n implies match #[trigger] slot@[x] {
                Some(s) => s < N_SLOTU && s + vstup.lekce@[x].len <= N_SLOTU,
                None => true,
            } by {
                let u = vstup.lekce@[x].jednotka as int;
                let s = st.start@[u];
                assert(s < N_SLOTU && model.allowed@[u]@[s as int]);
                assert((s as int) % (SLOTU as int) + model.ulen@[u] <= SLOTU);
                assert(vstup.jednotky@[u]@.contains(x as usize));
                let k = choose|k: int| 0 <= k < vstup.jednotky@[u]@.len() && vstup.jednotky@[u]@[k] == x as usize;
                assert(vstup.lekce@[vstup.jednotky@[u]@[k] as int].len <= model.ulen@[u]);
                assert(s + vstup.lekce@[x].len <= N_SLOTU);
            }
            assert forall|x: int, p: int| 0 <= x < n && #[trigger] pin_lekce(vstup.lekce@, *piny, x, p) implies slot@[x] == Some(p as u8) by {
                let u = vstup.lekce@[x].jednotka as int;
                let cl = vstup.jednotky@[u]@;
                assert(cl.contains(x as usize));
                assert forall|k: int| 0 <= k < cl.len() && piny.ma(vstup.lekce@[#[trigger] cl[k] as int].klic@) implies piny.hodnota(
                    vstup.lekce@[cl[k] as int].klic@,
                ) == p by {
                    assert(vstup.lekce@[cl[k] as int].jednotka == u);
                }
                lemma_pin_jednotky_je(cl, vstup.lekce@, *piny, model.ulen@[u] as int, x as usize, p);
                assert(crate::model::maska_s_pinem(model.allowed@[u]@, Some(p), model.ulen@[u] as int));
                assert(model.allowed@[u]@[st.start@[u] as int]);
            }
        }
        limity = model.limity;
        proof {
            assert(forall|x: Seq<char>|
                piny.ma(x) && !crate::model::ma_lekci_s_klicem(vs.lekce@, x) ==> crate::validation::hlasi(
                    varovani@,
                    #[trigger] crate::model::text_pinu_bez_lekce(x),
                ));
        }
    } else {
        let mut i: usize = 0;
        while i < n
            invariant
                i <= n,
                slot@.len() == i,
                forall|x: int| 0 <= x < i ==> (#[trigger] slot@[x]).is_none(),
            decreases n - i,
        {
            slot.push(None);
            i = i + 1;
        }
    }
    proof {
        assert forall|x: int|
            0 <= x < n implies match (#[trigger] vstup.lekce@[x]).par {
                Some(p) => p < n && slot@[x] == slot@[p as int],
                None => true,
            } by {
            assert(par_ok(vstup.lekce@, x));
        }
    }
    let mut mistnost: Vec<Option<String>> = Vec::new();
    let mut i: usize = 0;
    while i < n
        invariant
            i <= n,
            mistnost@.len() == i,
            forall|x: int| 0 <= x < i ==> (#[trigger] mistnost@[x]).is_none(),
        decreases n - i,
    {
        mistnost.push(None);
        i = i + 1;
    }
    let mut v = Vysledek {
        rok: rok.label.clone(),
        lekce: vstup.lekce,
        slot,
        mistnost,
        varovani,
        problemy: Vec::new(),
        problemove_lekce: Vec::new(),
        skore_tvrde: hard,
        skore_mekke: soft,
        iteraci,
        cas_ms: 0,
        limity,
        zaci_tridy: vstup.zaci_tridy,
        virtualni_zaci: vstup.virtualni,
    };
    proof {
        assert(n <= u32::MAX ==> forall|x: Seq<char>|
            piny.ma(x) && !crate::model::ma_lekci_s_klicem(v.lekce@, x) ==> crate::validation::hlasi(
                v.varovani@,
                #[trigger] crate::model::text_pinu_bez_lekce(x),
            ));
    }
    let ghost v00 = v;
    prirad_mistnosti(skola, &mut v, None);
    proof {
        assert forall|i: int|
            0 <= i < v.lekce@.len() implies match #[trigger] v.mistnost@[i] {
                Some(r) => jednou(poradi_mistnosti(*skola, v.lekce@[i])).contains(r@),
                None => true,
            } by {
            assert(v00.mistnost@[i].is_none());
        }
    }
    let ghost v1 = v;
    proof {
        assert(zacina_na(w0, v1.varovani@));
        assert(n <= u32::MAX ==> uvolneni_hlaseno(*skola, v1.limity, v1.varovani@));
        lemma_dostane_stejne(*skola, v00, v1);
        assert(forall|x: int| 0 <= x < v1.lekce@.len() && #[trigger] dostane_mistnost(*skola, v1, x) ==> v1.mistnost@[x].is_some());
    }
    zkontroluj_a_zapis(skola, &mut v);
    proof {
        assert forall|x: Seq<char>|
            n <= u32::MAX && piny.ma(x) && !crate::model::ma_lekci_s_klicem(v.lekce@, x) implies crate::validation::hlasi(
                v.varovani@,
                #[trigger] crate::model::text_pinu_bez_lekce(x),
            ) by {
            lemma_pin_neni_o_mistnosti(x);
            assert(crate::validation::hlasi(v1.varovani@, crate::model::text_pinu_bez_lekce(x)));
        }
        lemma_kolizni_stejne(v1, v);
        assert(crate::validation::rozvrh_ve_tydnu(v));
        crate::editace::lemma_oznaceni_trva(*skola, v1, v);
    }
    let ghost v2 = v;
    v.cas_ms = crate::hodiny::ms_od(&t0);
    proof {
        lemma_kolizni_stejne(v1, v);
        crate::editace::lemma_oznaceni_trva(*skola, v2, v);
    }
    match prubeh {
        Some(p) => {
            crate::hodiny::zapis_prubeh(p, "hotovo", v.iteraci, v.skore_tvrde, v.skore_mekke, v.cas_ms);
        },
        None => {},
    }
    proof {
        assert(postaveno(*skola, *rok, vs) && v.lekce@ == vs.lekce@);
        lemma_dostane_stejne(*skola, v1, v);
        assert(v.mistnost@ == v1.mistnost@);
        assert forall|j: int| 0 <= j < v.problemy@.len() implies crate::validation::opravneny(*skola, v, (#[trigger] v.problemy@[j])@) by {
            crate::validation::lemma_opravneny_stejne(*skola, v1, v, v.problemy@[j]@);
        }
        crate::validation::lemma_uplna_stejne(*skola, v1, v, v.problemy@);
        if n <= u32::MAX {
            lemma_uvolneni_trva(*skola, v.limity, v1.varovani@, v.varovani@);
        }
        assert forall|t: Seq<char>|
            crate::validation::hlasi(vs.varovani@, t) && !ma_predponu(t, "Kapacita:"@) && !ma_predponu(t, "Místnost:"@)
                implies #[trigger] crate::validation::hlasi(v.varovani@, t) by {
            let j = choose|j: int| 0 <= j < w0.len() && (#[trigger] w0[j])@ == t;
            assert(v1.varovani@[j] == w0[j]);
            assert(crate::validation::hlasi(v1.varovani@, t));
        }
        assert forall|t: int|
            0 <= t < skola.tridy@.len() && vynechana_t(*skola, rok.studenti@, t) implies crate::validation::hlasi(
                v.varovani@,
                text_prazdne_tridy(#[trigger] skola.tridy@[t]),
            ) by {
            lemma_prazdna_neni_o_mistnosti(skola.tridy@[t]);
            assert(crate::validation::hlasi(vs.varovani@, text_prazdne_tridy(skola.tridy@[t])));
        }
        assert forall|a: int| 0 <= a < v.lekce@.len() implies #[trigger] bez_stretu_mistnosti(v, v.mistnost@, a) by {
            assert(bez_stretu_mistnosti(v00, v1.mistnost@, a));
            assert forall|b: int, t: usize|
                0 <= b < v.mistnost@.len() && b != a && v.mistnost@[a] is Some && v.mistnost@[b] is Some && v.mistnost@[b].unwrap()@
                    == v.mistnost@[a].unwrap()@ && #[trigger] sloty_v(v, a).contains(t) implies !#[trigger] sloty_v(v, b).contains(t) by {
                assert(sloty_v(v, a) == sloty_v(v00, a));
                assert(sloty_v(v, b) == sloty_v(v00, b));
            }
        }
    }
    v
}

/// Jednotek je nejvýš tolik, kolik lekcí (každá má jinou první lekci).
proof fn lemma_jednotek_nejvys_lekci(lekce: Seq<LekceInfo>, jednotky: Seq<Vec<usize>>)
    requires
        jednotky_platne(lekce, jednotky),
    ensures
        jednotky.len() <= lekce.len(),
{
    let f = |u: int| jednotky[u]@[0] as int;
    let a = Set::new(|u: int| 0 <= u < jednotky.len());
    let b = Set::new(|i: int| 0 <= i < lekce.len());
    vstd::set_lib::lemma_int_range(0, jednotky.len() as int);
    vstd::set_lib::lemma_int_range(0, lekce.len() as int);
    assert(a =~= vstd::set_lib::set_int_range(0, jednotky.len() as int));
    assert(b =~= vstd::set_lib::set_int_range(0, lekce.len() as int));
    assert forall|x: int, y: int| a.contains(x) && a.contains(y) && #[trigger] f(x) == #[trigger] f(y) implies x == y by {
        assert(jednotky[x]@.len() > 0 && jednotky[y]@.len() > 0);
        assert(lekce[jednotky[x]@[0] as int].jednotka == x);
        assert(lekce[jednotky[y]@[0] as int].jednotka == y);
    }
    vstd::set_lib::lemma_map_size(a, a.map(f), f);
    assert(a.map(f).subset_of(b)) by {
        assert forall|i: int| #[trigger] a.map(f).contains(i) implies b.contains(i) by {
            let u = choose|u: int| a.contains(u) && f(u) == i;
            assert(jednotky[u]@.len() > 0);
        }
    }
    vstd::set_lib::lemma_len_subset(a.map(f), b);
}

/// Kolize závisí jen na lekcích, začátcích a místnostech.
proof fn lemma_kolizni_stejne(v1: Vysledek, v2: Vysledek)
    requires
        v1.lekce@ == v2.lekce@,
        v1.slot@ == v2.slot@,
        v1.mistnost@ == v2.mistnost@,
    ensures
        forall|a: int, b: int| crate::validation::kolizni(v1, a, b) == crate::validation::kolizni(v2, a, b),
{
}

} // verus!
