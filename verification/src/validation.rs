//! Plná validace rozvrhu – nezávislá na řešiči, počítá se přesně pro každého žáka
//! a každý týden (lichý/sudý). Volá se po generování i po každé ruční úpravě.

use crate::data::{cas_zacatku, nazev_dne, Skola, DNY, MAX_DEN_TRIDA, MAX_RUN, MAX_STEJNY_PREDMET_DEN, N_SLOTU, SLOTU};
use crate::model::obsahuje_u32;
use crate::solver::{popis_lekce, povolene_mistnosti, prekryv_spec, Tyden, Vysledek};
use crate::text::{cislo, rovno, spoj};
use vstd::prelude::*;

verus! {

/// Statistika třídy.
#[derive(Clone, Debug, Default)]
pub struct StatTridy {
    pub trida: String,
    pub zaku: usize,
    pub hodin_min: usize,
    pub hodin_max: usize,
    pub rane_dny: usize,
    pub odpoledni: usize,
    pub nejdelsi_blok: usize,
    /// Průměrný počet oken žáka za týden v setinách.
    pub okna_prumer_setiny: usize,
}

/// Výsledek validace.
#[derive(Clone, Debug, Default)]
pub struct Kontrola {
    /// Tvrdé problémy (kolize, 7 h, limity, maxima…).
    pub problemy: Vec<String>,
    /// Měkká upozornění (kapacity místností).
    pub varovani: Vec<String>,
    /// Problémové lekce vzestupně.
    pub problemove_lekce: Vec<usize>,
    pub statistiky: Vec<StatTridy>,
}

/// Ostře rostoucí posloupnost indexů.
pub open spec fn rostouci_idx(v: Seq<usize>) -> bool {
    forall|i: int, j: int| 0 <= i < j < v.len() ==> #[trigger] v[i] < #[trigger] v[j]
}

/// Označí lekci jako problémovou (seznam zůstane vzestupný a bez opakování).
fn oznac(v: &mut Vec<usize>, x: usize)
    requires
        rostouci_idx(old(v)@),
    ensures
        rostouci_idx(final(v)@),
        final(v)@.contains(x),
        forall|y: usize| #[trigger] final(v)@.contains(y) <==> (old(v)@.contains(y) || y == x),
{
    let mut i: usize = 0;
    while i < v.len() && v[i] < x
        invariant
            i <= v@.len(),
            rostouci_idx(v@),
            v@ == old(v)@,
            forall|k: int| 0 <= k < i ==> #[trigger] v@[k] < x,
        decreases v@.len() - i,
    {
        i = i + 1;
    }
    if i < v.len() && v[i] == x {
        proof {
            assert(v@[i as int] == x);
        }
        return;
    }
    let ghost v0 = v@;
    v.insert(i, x);
    proof {
        assert(v@ =~= v0.take(i as int).push(x) + v0.skip(i as int));
        assert(v@[i as int] == x);
        assert forall|a: int, b: int| 0 <= a < b < v@.len() implies #[trigger] v@[a] < #[trigger] v@[b] by {
            if b < i {
                assert(v@[a] == v0[a] && v@[b] == v0[b]);
            } else if b == i {
                assert(v@[a] == v0[a]);
            } else if a < i {
                assert(v@[a] == v0[a] && v@[b] == v0[b - 1]);
            } else if a == i {
                assert(v@[b] == v0[b - 1]);
                if i < v0.len() {
                    assert(v0[i as int] >= x);
                    assert(v0[i as int] != x);
                    if b - 1 > i {
                        assert(v0[i as int] < v0[b - 1]);
                    }
                }
            } else {
                assert(v@[a] == v0[a - 1] && v@[b] == v0[b - 1]);
            }
        }
        assert forall|y: usize| #[trigger] v@.contains(y) <==> (v0.contains(y) || y == x) by {
            if v@.contains(y) {
                let k = choose|k: int| 0 <= k < v@.len() && v@[k] == y;
                if k < i {
                    assert(v0[k] == y);
                } else if k > i {
                    assert(v0[k - 1] == y);
                }
            }
            if v0.contains(y) {
                let k = choose|k: int| 0 <= k < v0.len() && v0[k] == y;
                if k < i {
                    assert(v@[k] == y);
                } else {
                    assert(v@[k + 1] == y);
                }
            }
        }
    }
}

/// „Po 3. hod (10:00)“: den, pořadí hodiny dne a její začátek.
pub open spec fn kdy_spec(t: int) -> Seq<char> {
    let k = t % SLOTU as int;
    crate::data::nazev_dne_spec(t / SLOTU as int) + " "@ + crate::text::desitkove(k as nat) + ". hod ("@ + crate::data::cas_zacatku_spec(k) + ")"@
}

/// „Po 3. hod (10:00)“.
fn kdy(t: usize) -> (r: String)
    requires
        t < N_SLOTU,
    ensures
        r@ == kdy_spec(t as int),
{
    let d = t / SLOTU;
    let k = t % SLOTU;
    let c = cislo(k as u64);
    let a = [nazev_dne(d), " ", c.as_str(), ". hod (", cas_zacatku(k), ")"];
    let r = spoj(&a);
    proof {
        let q = a@.map_values(|x: &str| x@);
        reveal_with_fuel(crate::text::spojeni, 7);
        assert(q =~= seq![a@[0]@, a@[1]@, a@[2]@, a@[3]@, a@[4]@, a@[5]@]);
        assert(r@ =~= kdy_spec(t as int));
    }
    r
}

/// Název týdne.
fn tyden_nazev(w: usize) -> (r: &'static str)
    ensures
        w == 0 ==> r@ == "L"@,
        w != 0 ==> r@ == "S"@,
{
    if w == 0 {
        "L"
    } else {
        "S"
    }
}

/// Lekce `a` a `b` jsou umístěné a překrývají se v některém týdnu i hodině.
pub open spec fn prekryti(v: Vysledek, a: int, b: int) -> bool {
    match (v.slot@[a], v.slot@[b]) {
        (Some(sa), Some(sb)) => prekryv_spec(v.lekce@[a].tyden, v.lekce@[b].tyden) && (if sa < sb {
            sb as int
        } else {
            sa as int
        }) < (if sa + v.lekce@[a].len < sb + v.lekce@[b].len {
            sa + v.lekce@[a].len
        } else {
            sb + v.lekce@[b].len
        }),
        _ => false,
    }
}

/// Lekce sdílejí žáka.
pub open spec fn spolecny_zak(v: Vysledek, a: int, b: int) -> bool {
    exists|z: u32| v.lekce@[a].zaci@.contains(z) && v.lekce@[b].zaci@.contains(z)
}

/// Lekce mají stejnou místnost.
pub open spec fn stejna_mistnost(v: Vysledek, a: int, b: int) -> bool {
    match (v.mistnost@[a], v.mistnost@[b]) {
        (Some(ra), Some(rb)) => ra@ == rb@,
        _ => false,
    }
}

/// Kolize: dvě lekce se ve stejné hodině téhož týdne potkají u učitele, v místnosti nebo
/// u žáka.
pub open spec fn kolizni(v: Vysledek, a: int, b: int) -> bool {
    prekryti(v, a, b) && (v.lekce@[a].ucitel@ == v.lekce@[b].ucitel@ || stejna_mistnost(v, a, b) || spolecny_zak(v, a, b))
}

/// Kolize nezávisí na pořadí lekcí: učitelská, místnostní i žákovská kolize `a` s `b` je
/// totéž co kolize `b` s `a`, se stejným začátkem překryvu. Spolu s hlášením a označením
/// kolizí dvojic `a < b` tak validace najde kolizi v libovolném pořadí.
pub proof fn zakon_kolize_symetricka(v: Vysledek, a: int, b: int)
    ensures
        prekryti(v, a, b) == prekryti(v, b, a),
        zacatek_prekryti(v, a, b) == zacatek_prekryti(v, b, a),
        stejna_mistnost(v, a, b) == stejna_mistnost(v, b, a),
        spolecny_zak(v, a, b) == spolecny_zak(v, b, a),
        kolizni(v, a, b) == kolizni(v, b, a),
{
    if spolecny_zak(v, a, b) {
        let z = choose|z: u32| v.lekce@[a].zaci@.contains(z) && v.lekce@[b].zaci@.contains(z);
        assert(v.lekce@[b].zaci@.contains(z) && v.lekce@[a].zaci@.contains(z));
    }
    if spolecny_zak(v, b, a) {
        let z = choose|z: u32| v.lekce@[b].zaci@.contains(z) && v.lekce@[a].zaci@.contains(z);
        assert(v.lekce@[a].zaci@.contains(z) && v.lekce@[b].zaci@.contains(z));
    }
}

/// Rozvrh má rozměry podle lekcí a každá umístěná lekce leží ve svém dni.
pub open spec fn rozvrh_ve_tydnu(v: Vysledek) -> bool {
    &&& v.slot@.len() == v.lekce@.len()
    &&& v.mistnost@.len() == v.lekce@.len()
    &&& forall|i: int| 0 <= i < v.lekce@.len() ==> match #[trigger] v.slot@[i] {
        Some(s) => s < N_SLOTU && s + v.lekce@[i].len <= N_SLOTU,
        None => true,
    }
}

/// Počet položek `a`, které jsou i v `b`.
#[verifier::opaque]
pub open spec fn spolecnych_spec(a: Seq<u32>, b: Seq<u32>) -> nat
    decreases a.len(),
{
    if a.len() == 0 {
        0
    } else {
        spolecnych_spec(a.drop_last(), b) + if b.contains(a.last()) {
            1nat
        } else {
            0nat
        }
    }
}

/// Počet společných žáků dvou lekcí (kladný právě když nějaký je).
fn spolecnych(a: &Vec<u32>, b: &Vec<u32>) -> (r: usize)
    ensures
        r > 0 <==> exists|z: u32| a@.contains(z) && b@.contains(z),
        r <= a@.len(),
        r == spolecnych_spec(a@, b@),
{
    let mut r: usize = 0;
    let mut k: usize = 0;
    proof {
        reveal(spolecnych_spec);
    }
    while k < a.len()
        invariant
            k <= a@.len(),
            r <= k,
            r > 0 <==> exists|x: int| 0 <= x < k && b@.contains(#[trigger] a@[x]),
            r == spolecnych_spec(a@.take(k as int), b@),
        decreases a@.len() - k,
    {
        proof {
            assert(a@.take(k + 1).drop_last() =~= a@.take(k as int));
            reveal(spolecnych_spec);
        }
        if obsahuje_u32(b, a[k]) {
            r = r + 1;
        }
        k = k + 1;
    }
    proof {
        assert(a@.take(a@.len() as int) =~= a@);
        if r > 0 {
            let x = choose|x: int| 0 <= x < a@.len() && b@.contains(#[trigger] a@[x]);
            assert(a@.contains(a@[x]));
        }
        if exists|z: u32| a@.contains(z) && b@.contains(z) {
            let z = choose|z: u32| a@.contains(z) && b@.contains(z);
            let x = choose|x: int| 0 <= x < a@.len() && a@[x] == z;
            assert(b@.contains(a@[x]));
        }
    }
    r
}

/// Kolize (učitelé, místnosti, žáci): každá kolizní dvojice se nahlásí jednou v hodině,
/// kde se lekce potkají poprvé, a obě lekce se označí.
/// Začátek překryvu dvou umístěných lekcí (pozdější z jejich začátků).
pub open spec fn zacatek_prekryti(v: Vysledek, a: int, b: int) -> int {
    match (v.slot@[a], v.slot@[b]) {
        (Some(sa), Some(sb)) => if sa < sb {
            sb as int
        } else {
            sa as int
        },
        _ => 0,
    }
}

/// Text problému kolize učitele lekcí `a` a `b` od hodiny `t`.
pub open spec fn text_kolize_ucitele(v: Vysledek, a: int, b: int, t: int) -> Seq<char> {
    "Kolize učitele "@ + v.lekce@[a].ucitel@ + ": "@ + crate::solver::popis_spec(v.lekce@[a]) + " × "@ + crate::solver::popis_spec(
        v.lekce@[b],
    ) + " – "@ + kdy_spec(t)
}

/// Text nahlášený mezi problémy tam zůstane i po přidání dalšího.
pub broadcast proof fn lemma_hlasi_push(p: Seq<String>, x: String, t: Seq<char>)
    requires
        hlasi(p, t),
    ensures
        #[trigger] hlasi(p.push(x), t),
{
    let j = choose|j: int| 0 <= j < p.len() && (#[trigger] p[j])@ == t;
    assert(p.push(x)[j] == p[j]);
}

fn kolize(v: &Vysledek, problemy: &mut Vec<String>, oznacene: &mut Vec<usize>, Ghost(skola): Ghost<Skola>)
    requires
        rozvrh_ve_tydnu(*v),
        rostouci_idx(old(oznacene)@),
        vse_opravnene(skola, *v, old(problemy)@),
    ensures
        vse_opravnene(skola, *v, final(problemy)@),
        rostouci_idx(final(oznacene)@),
        forall|y: usize| #[trigger] old(oznacene)@.contains(y) ==> final(oznacene)@.contains(y),
        forall|a: int, b: int|
            0 <= a < b < v.lekce@.len() && kolizni(*v, a, b) ==> final(oznacene)@.contains(a as usize)
                && final(oznacene)@.contains(b as usize),
        final(problemy)@.len() >= old(problemy)@.len(),
        forall|j: int| 0 <= j < old(problemy)@.len() ==> #[trigger] final(problemy)@[j] == old(problemy)@[j],
        forall|a: int, b: int|
            0 <= a < b < v.lekce@.len() && prekryti(*v, a, b) && v.lekce@[a].ucitel@ == v.lekce@[b].ucitel@ ==> #[trigger] hlasi(
                final(problemy)@,
                text_kolize_ucitele(*v, a, b, zacatek_prekryti(*v, a, b)),
            ),
        forall|a: int, b: int|
            0 <= a < b < v.lekce@.len() && prekryti(*v, a, b) && stejna_mistnost(*v, a, b) ==> #[trigger] hlasi(
                final(problemy)@,
                text_kolize_mistnosti(*v, a, b, zacatek_prekryti(*v, a, b)),
            ),
        forall|a: int, b: int|
            0 <= a < b < v.lekce@.len() && prekryti(*v, a, b) && spolecny_zak(*v, a, b) ==> #[trigger] hlasi(
                final(problemy)@,
                text_kolize_zaku(*v, a, b, zacatek_prekryti(*v, a, b), spolecnych_spec(v.lekce@[a].zaci@, v.lekce@[b].zaci@)),
            ),
{
    broadcast use {vstd::seq_lib::group_seq_properties, lemma_hlasi_push};

    let n = v.lekce.len();
    let mut ucitele: Vec<(usize, usize, usize)> = Vec::new();
    let mut mistnosti: Vec<(usize, usize, usize)> = Vec::new();
    let mut zaci: Vec<(usize, usize, usize, usize)> = Vec::new();
    let ghost o0 = oznacene@;
    let mut a: usize = 0;
    while a < n
        invariant
        problemy@.len() >= old(problemy)@.len(),
        forall|j: int| 0 <= j < old(problemy)@.len() ==> #[trigger] problemy@[j] == old(problemy)@[j],
        vse_opravnene(skola, *v, problemy@),
            a <= n,
            n == v.lekce@.len(),
            rozvrh_ve_tydnu(*v),
            rostouci_idx(oznacene@),
            forall|y: usize| #[trigger] o0.contains(y) ==> oznacene@.contains(y),
            forall|x: int, y: int|
                0 <= x < a && x < y < n && kolizni(*v, x, y) ==> oznacene@.contains(x as usize) && oznacene@.contains(y as usize),
            forall|k: int| 0 <= k < ucitele@.len() ==> (#[trigger] ucitele@[k]).0 < N_SLOTU && ucitele@[k].1 < n && ucitele@[k].2 < n,
            forall|k: int| 0 <= k < ucitele@.len() ==> (#[trigger] ucitele@[k]).0 == zacatek_prekryti(*v, ucitele@[k].1 as int, ucitele@[k].2 as int),
            forall|k: int| 0 <= k < ucitele@.len() ==> (#[trigger] ucitele@[k]).1 < ucitele@[k].2 && prekryti(*v, ucitele@[k].1 as int, ucitele@[k].2 as int) && v.lekce@[ucitele@[k].1 as int].ucitel@ == v.lekce@[ucitele@[k].2 as int].ucitel@,
            forall|x: int, y: int|
                0 <= x < a && x < y < n && prekryti(*v, x, y) && v.lekce@[x].ucitel@ == v.lekce@[y].ucitel@ ==> ucitele@.contains(
                    (#[trigger] zacatek_prekryti(*v, x, y) as usize, x as usize, y as usize),
                ),
            forall|x: int, y: int|
                0 <= x < a && x < y < n && prekryti(*v, x, y) && stejna_mistnost(*v, x, y) ==> mistnosti@.contains(
                    (#[trigger] zacatek_prekryti(*v, x, y) as usize, x as usize, y as usize),
                ),
            forall|x: int, y: int|
                0 <= x < a && x < y < n && prekryti(*v, x, y) && spolecny_zak(*v, x, y) ==> zaci@.contains(
                    (#[trigger] zacatek_prekryti(*v, x, y) as usize, x as usize, y as usize, spolecnych_spec(v.lekce@[x].zaci@, v.lekce@[y].zaci@) as usize),
                ),
            forall|k: int| 0 <= k < mistnosti@.len() ==> (#[trigger] mistnosti@[k]).0 < N_SLOTU && mistnosti@[k].1 < n && mistnosti@[k].2 < n,
            forall|k: int| 0 <= k < mistnosti@.len() ==> (#[trigger] mistnosti@[k]).0 == zacatek_prekryti(*v, mistnosti@[k].1 as int, mistnosti@[k].2 as int) && mistnosti@[k].1 < mistnosti@[k].2 && prekryti(*v, mistnosti@[k].1 as int, mistnosti@[k].2 as int) && stejna_mistnost(*v, mistnosti@[k].1 as int, mistnosti@[k].2 as int),
            forall|k: int| 0 <= k < zaci@.len() ==> (#[trigger] zaci@[k]).0 < N_SLOTU && zaci@[k].1 < n && zaci@[k].2 < n,
            forall|k: int| 0 <= k < zaci@.len() ==> (#[trigger] zaci@[k]).0 == zacatek_prekryti(*v, zaci@[k].1 as int, zaci@[k].2 as int) && zaci@[k].1 < zaci@[k].2 && prekryti(*v, zaci@[k].1 as int, zaci@[k].2 as int) && spolecny_zak(*v, zaci@[k].1 as int, zaci@[k].2 as int) && zaci@[k].3 > 0 && zaci@[k].3 == spolecnych_spec(v.lekce@[zaci@[k].1 as int].zaci@, v.lekce@[zaci@[k].2 as int].zaci@),
        decreases n - a,
    {
        match v.slot[a] {
            Some(sa) => {
                let la = &v.lekce[a];
                let mut b: usize = a + 1;
                while b < n
                    invariant
                    problemy@.len() >= old(problemy)@.len(),
                    forall|j: int| 0 <= j < old(problemy)@.len() ==> #[trigger] problemy@[j] == old(problemy)@[j],
                    vse_opravnene(skola, *v, problemy@),
                        a < b <= n,
                        n == v.lekce@.len(),
                        rozvrh_ve_tydnu(*v),
                        v.slot@[a as int] == Some(sa),
                        *la == v.lekce@[a as int],
                        rostouci_idx(oznacene@),
                        forall|y: usize| #[trigger] o0.contains(y) ==> oznacene@.contains(y),
                        forall|x: int, y: int|
                            0 <= x < a && x < y < n && kolizni(*v, x, y) ==> oznacene@.contains(x as usize)
                                && oznacene@.contains(y as usize),
                        forall|y: int| a < y < b && kolizni(*v, a as int, y) ==> oznacene@.contains(a as usize) && oznacene@.contains(y as usize),
                        forall|k: int| 0 <= k < ucitele@.len() ==> (#[trigger] ucitele@[k]).0 < N_SLOTU && ucitele@[k].1 < n && ucitele@[k].2 < n,
                        forall|k: int| 0 <= k < ucitele@.len() ==> (#[trigger] ucitele@[k]).0 == zacatek_prekryti(*v, ucitele@[k].1 as int, ucitele@[k].2 as int),
                        forall|k: int| 0 <= k < ucitele@.len() ==> (#[trigger] ucitele@[k]).1 < ucitele@[k].2 && prekryti(*v, ucitele@[k].1 as int, ucitele@[k].2 as int) && v.lekce@[ucitele@[k].1 as int].ucitel@ == v.lekce@[ucitele@[k].2 as int].ucitel@,
                        forall|x: int, y: int|
                            0 <= x < a && x < y < n && prekryti(*v, x, y) && v.lekce@[x].ucitel@ == v.lekce@[y].ucitel@ ==> ucitele@.contains(
                                (#[trigger] zacatek_prekryti(*v, x, y) as usize, x as usize, y as usize),
                            ),
                        forall|y: int|
                            a < y < b && prekryti(*v, a as int, y) && v.lekce@[a as int].ucitel@ == v.lekce@[y].ucitel@ ==> ucitele@.contains(
                                (#[trigger] zacatek_prekryti(*v, a as int, y) as usize, a as usize, y as usize),
                            ),
                        forall|x: int, y: int|
                            0 <= x < a && x < y < n && prekryti(*v, x, y) && stejna_mistnost(*v, x, y) ==> mistnosti@.contains(
                                (#[trigger] zacatek_prekryti(*v, x, y) as usize, x as usize, y as usize),
                            ),
                        forall|y: int|
                            a < y < b && prekryti(*v, a as int, y) && stejna_mistnost(*v, a as int, y) ==> mistnosti@.contains(
                                (#[trigger] zacatek_prekryti(*v, a as int, y) as usize, a as usize, y as usize),
                            ),
                        forall|x: int, y: int|
                            0 <= x < a && x < y < n && prekryti(*v, x, y) && spolecny_zak(*v, x, y) ==> zaci@.contains(
                                (#[trigger] zacatek_prekryti(*v, x, y) as usize, x as usize, y as usize, spolecnych_spec(v.lekce@[x].zaci@, v.lekce@[y].zaci@) as usize),
                            ),
                        forall|y: int|
                            a < y < b && prekryti(*v, a as int, y) && spolecny_zak(*v, a as int, y) ==> zaci@.contains(
                                (#[trigger] zacatek_prekryti(*v, a as int, y) as usize, a as usize, y as usize, spolecnych_spec(v.lekce@[a as int].zaci@, v.lekce@[y].zaci@) as usize),
                            ),
                        forall|k: int| 0 <= k < mistnosti@.len() ==> (#[trigger] mistnosti@[k]).0 < N_SLOTU && mistnosti@[k].1 < n && mistnosti@[k].2 < n,
                        forall|k: int| 0 <= k < mistnosti@.len() ==> (#[trigger] mistnosti@[k]).0 == zacatek_prekryti(*v, mistnosti@[k].1 as int, mistnosti@[k].2 as int) && mistnosti@[k].1 < mistnosti@[k].2 && prekryti(*v, mistnosti@[k].1 as int, mistnosti@[k].2 as int) && stejna_mistnost(*v, mistnosti@[k].1 as int, mistnosti@[k].2 as int),
                        forall|k: int| 0 <= k < zaci@.len() ==> (#[trigger] zaci@[k]).0 < N_SLOTU && zaci@[k].1 < n && zaci@[k].2 < n,
                        forall|k: int| 0 <= k < zaci@.len() ==> (#[trigger] zaci@[k]).0 == zacatek_prekryti(*v, zaci@[k].1 as int, zaci@[k].2 as int) && zaci@[k].1 < zaci@[k].2 && prekryti(*v, zaci@[k].1 as int, zaci@[k].2 as int) && spolecny_zak(*v, zaci@[k].1 as int, zaci@[k].2 as int) && zaci@[k].3 > 0 && zaci@[k].3 == spolecnych_spec(v.lekce@[zaci@[k].1 as int].zaci@, v.lekce@[zaci@[k].2 as int].zaci@),
                    decreases n - b,
                {
                    match v.slot[b] {
                        Some(sb) => {
                            let lb = &v.lekce[b];
                            let ea = sa as usize + la.len as usize;
                            let eb = sb as usize + lb.len as usize;
                            let t0: usize = if sa < sb { sb as usize } else { sa as usize };
                            let konec: usize = if ea < eb { ea } else { eb };
                            if la.tyden.prekryv(lb.tyden) && t0 < konec {
                                let stejny_ucitel = rovno(la.ucitel.as_str(), lb.ucitel.as_str());
                                let stejna_m = match (&v.mistnost[a], &v.mistnost[b]) {
                                    (Some(ra), Some(rb)) => rovno(ra.as_str(), rb.as_str()),
                                    _ => false,
                                };
                                let spol = spolecnych(&la.zaci, &lb.zaci);
                                let ghost uc0 = ucitele@;
                                if stejny_ucitel {
                                    ucitele.push((t0, a, b));
                                    proof {
                                        assert forall|e: (usize, usize, usize)| uc0.contains(e) implies #[trigger] ucitele@.contains(e) by {
                                            let k = choose|k: int| 0 <= k < uc0.len() && uc0[k] == e;
                                            assert(ucitele@[k] == uc0[k]);
                                        }
                                        assert(ucitele@[uc0.len() as int] == (t0, a, b));
                                    }
                                }
                                let ghost mi0 = mistnosti@;
                                if stejna_m {
                                    mistnosti.push((t0, a, b));
                                    proof {
                                        assert forall|e: (usize, usize, usize)| mi0.contains(e) implies #[trigger] mistnosti@.contains(e) by {
                                            let k = choose|k: int| 0 <= k < mi0.len() && mi0[k] == e;
                                            assert(mistnosti@[k] == mi0[k]);
                                        }
                                        assert(mistnosti@[mi0.len() as int] == (t0, a, b));
                                    }
                                }
                                let ghost za0 = zaci@;
                                if spol > 0 {
                                    zaci.push((t0, a, b, spol));
                                    proof {
                                        assert forall|e: (usize, usize, usize, usize)| za0.contains(e) implies #[trigger] zaci@.contains(e) by {
                                            let k = choose|k: int| 0 <= k < za0.len() && za0[k] == e;
                                            assert(zaci@[k] == za0[k]);
                                        }
                                        assert(zaci@[za0.len() as int] == (t0, a, b, spol));
                                    }
                                }
                                if stejny_ucitel || stejna_m || spol > 0 {
                                    let ghost m0 = oznacene@;
                                    oznac(oznacene, a);
                                    let ghost m1 = oznacene@;
                                    oznac(oznacene, b);
                                    proof {
                                        assert forall|y: usize| #[trigger] m0.contains(y) implies oznacene@.contains(y) by {
                                            assert(m1.contains(y));
                                        }
                                        assert(m1.contains(a));
                                        assert(oznacene@.contains(a));
                                    }
                                }
                            }
                        },
                        None => {},
                    }
                    b = b + 1;
                }
            },
            None => {},
        }
        a = a + 1;
    }
    let mut t: usize = 0;
    while t < N_SLOTU
        invariant
        problemy@.len() >= old(problemy)@.len(),
        forall|j: int| 0 <= j < old(problemy)@.len() ==> #[trigger] problemy@[j] == old(problemy)@[j],
        vse_opravnene(skola, *v, problemy@),
            n == v.lekce@.len(),
            forall|k: int| 0 <= k < ucitele@.len() ==> (#[trigger] ucitele@[k]).0 < N_SLOTU && ucitele@[k].1 < n && ucitele@[k].2 < n,
            t <= N_SLOTU,
            forall|k: int| 0 <= k < ucitele@.len() ==> (#[trigger] ucitele@[k]).0 == zacatek_prekryti(*v, ucitele@[k].1 as int, ucitele@[k].2 as int),
            forall|k: int| 0 <= k < ucitele@.len() ==> (#[trigger] ucitele@[k]).1 < ucitele@[k].2 && prekryti(*v, ucitele@[k].1 as int, ucitele@[k].2 as int) && v.lekce@[ucitele@[k].1 as int].ucitel@ == v.lekce@[ucitele@[k].2 as int].ucitel@,
            forall|k: int|
                0 <= k < ucitele@.len() && (#[trigger] ucitele@[k]).0 < t ==> hlasi(
                    problemy@,
                    text_kolize_ucitele(*v, ucitele@[k].1 as int, ucitele@[k].2 as int, ucitele@[k].0 as int),
                ),
        decreases N_SLOTU - t,
    {
        let mut k: usize = 0;
        while k < ucitele.len()
            invariant
            problemy@.len() >= old(problemy)@.len(),
            forall|j: int| 0 <= j < old(problemy)@.len() ==> #[trigger] problemy@[j] == old(problemy)@[j],
            vse_opravnene(skola, *v, problemy@),
                n == v.lekce@.len(),
                forall|x: int| 0 <= x < ucitele@.len() ==> (#[trigger] ucitele@[x]).0 < N_SLOTU && ucitele@[x].1 < n && ucitele@[x].2 < n,
                t < N_SLOTU,
                k <= ucitele@.len(),
                forall|k: int| 0 <= k < ucitele@.len() ==> (#[trigger] ucitele@[k]).0 == zacatek_prekryti(*v, ucitele@[k].1 as int, ucitele@[k].2 as int),
                forall|k: int| 0 <= k < ucitele@.len() ==> (#[trigger] ucitele@[k]).1 < ucitele@[k].2 && prekryti(*v, ucitele@[k].1 as int, ucitele@[k].2 as int) && v.lekce@[ucitele@[k].1 as int].ucitel@ == v.lekce@[ucitele@[k].2 as int].ucitel@,
                forall|k: int|
                    0 <= k < ucitele@.len() && (#[trigger] ucitele@[k]).0 < t ==> hlasi(
                        problemy@,
                        text_kolize_ucitele(*v, ucitele@[k].1 as int, ucitele@[k].2 as int, ucitele@[k].0 as int),
                    ),
                forall|x: int|
                    0 <= x < k && (#[trigger] ucitele@[x]).0 == t ==> hlasi(
                        problemy@,
                        text_kolize_ucitele(*v, ucitele@[x].1 as int, ucitele@[x].2 as int, ucitele@[x].0 as int),
                    ),
            decreases ucitele@.len() - k,
        {
            let (tt, a, b) = ucitele[k];
            if tt == t {
                let pa = popis_lekce(&v.lekce[a]);
                let pb = popis_lekce(&v.lekce[b]);
                let kd = kdy(t);
                let casti = ["Kolize učitele ", v.lekce[a].ucitel.as_str(), ": ", pa.as_str(), " × ", pb.as_str(), " – ", kd.as_str()];
                let text = spoj(&casti);
                proof {
                    let c = casti@.map_values(|x: &str| x@);
                    assert(c =~= seq!["Kolize učitele "@, v.lekce@[a as int].ucitel@, ": "@, pa@, " × "@, pb@, " – "@, kd@]);
                    reveal_with_fuel(crate::text::spojeni, 9);
                    assert(text@ =~= text_kolize_ucitele(*v, a as int, b as int, t as int));
                    assert(prekryti(*v, a as int, b as int));
                    assert(opravneny(skola, *v, text@));
                }
                let ghost pp0 = problemy@;
                problemy.push(text);
                proof {
                    assert(problemy@ == pp0.push(problemy@.last()));
                    lemma_opravnene_push(skola, *v, pp0, problemy@.last());
                    assert(problemy@[pp0.len() as int]@ == text_kolize_ucitele(*v, a as int, b as int, tt as int));
                    assert forall|tt: Seq<char>| hlasi(pp0, tt) implies #[trigger] hlasi(problemy@, tt) by {
                        lemma_hlasi_push(pp0, problemy@.last(), tt);
                        assert(problemy@ == pp0.push(problemy@.last()));
                    }
                }
            }
            k = k + 1;
        }
        t = t + 1;
    }
    let mut t: usize = 0;
    while t < N_SLOTU
        invariant
        forall|k: int|
            0 <= k < ucitele@.len() ==> hlasi(
                problemy@,
                text_kolize_ucitele(*v, (#[trigger] ucitele@[k]).1 as int, ucitele@[k].2 as int, ucitele@[k].0 as int),
            ),
        problemy@.len() >= old(problemy)@.len(),
        forall|j: int| 0 <= j < old(problemy)@.len() ==> #[trigger] problemy@[j] == old(problemy)@[j],
        vse_opravnene(skola, *v, problemy@),
            n == v.lekce@.len(),
            rozvrh_ve_tydnu(*v),
            forall|k: int| 0 <= k < mistnosti@.len() ==> (#[trigger] mistnosti@[k]).0 < N_SLOTU && mistnosti@[k].1 < n && mistnosti@[k].2 < n,
            forall|k: int| 0 <= k < mistnosti@.len() ==> (#[trigger] mistnosti@[k]).0 == zacatek_prekryti(*v, mistnosti@[k].1 as int, mistnosti@[k].2 as int) && mistnosti@[k].1 < mistnosti@[k].2 && prekryti(*v, mistnosti@[k].1 as int, mistnosti@[k].2 as int) && stejna_mistnost(*v, mistnosti@[k].1 as int, mistnosti@[k].2 as int),
            t <= N_SLOTU,
            forall|k: int|
                0 <= k < mistnosti@.len() && (#[trigger] mistnosti@[k]).0 < t ==> hlasi(
                    problemy@,
                    text_kolize_mistnosti(*v, mistnosti@[k].1 as int, mistnosti@[k].2 as int, mistnosti@[k].0 as int),
                ),
        decreases N_SLOTU - t,
    {
        let mut k: usize = 0;
        while k < mistnosti.len()
            invariant
            forall|k: int|
                0 <= k < ucitele@.len() ==> hlasi(
                    problemy@,
                    text_kolize_ucitele(*v, (#[trigger] ucitele@[k]).1 as int, ucitele@[k].2 as int, ucitele@[k].0 as int),
                ),
            problemy@.len() >= old(problemy)@.len(),
            forall|j: int| 0 <= j < old(problemy)@.len() ==> #[trigger] problemy@[j] == old(problemy)@[j],
            vse_opravnene(skola, *v, problemy@),
                n == v.lekce@.len(),
                rozvrh_ve_tydnu(*v),
                forall|x: int| 0 <= x < mistnosti@.len() ==> (#[trigger] mistnosti@[x]).0 < N_SLOTU && mistnosti@[x].1 < n && mistnosti@[x].2 < n,
                forall|x: int| 0 <= x < mistnosti@.len() ==> (#[trigger] mistnosti@[x]).0 == zacatek_prekryti(*v, mistnosti@[x].1 as int, mistnosti@[x].2 as int) && mistnosti@[x].1 < mistnosti@[x].2 && prekryti(*v, mistnosti@[x].1 as int, mistnosti@[x].2 as int) && stejna_mistnost(*v, mistnosti@[x].1 as int, mistnosti@[x].2 as int),
                t < N_SLOTU,
                k <= mistnosti@.len(),
                forall|k: int|
                    0 <= k < mistnosti@.len() && (#[trigger] mistnosti@[k]).0 < t ==> hlasi(
                        problemy@,
                        text_kolize_mistnosti(*v, mistnosti@[k].1 as int, mistnosti@[k].2 as int, mistnosti@[k].0 as int),
                    ),
                forall|x: int|
                    0 <= x < k && (#[trigger] mistnosti@[x]).0 == t ==> hlasi(
                        problemy@,
                        text_kolize_mistnosti(*v, mistnosti@[x].1 as int, mistnosti@[x].2 as int, mistnosti@[x].0 as int),
                    ),
            decreases mistnosti@.len() - k,
        {
            let (tt, a, b) = mistnosti[k];
            if tt == t {
                let pa = popis_lekce(&v.lekce[a]);
                let pb = popis_lekce(&v.lekce[b]);
                let kd = kdy(t);
                let r = match &v.mistnost[a] {
                    Some(r) => r.clone(),
                    None => String::new(),
                };
                let casti = ["Kolize místnosti ", r.as_str(), ": ", pa.as_str(), " × ", pb.as_str(), " – ", kd.as_str()];
                let text = spoj(&casti);
                proof {
                    let c = casti@.map_values(|x: &str| x@);
                    assert(c =~= seq!["Kolize místnosti "@, r@, ": "@, pa@, " × "@, pb@, " – "@, kd@]);
                    reveal_with_fuel(crate::text::spojeni, 9);
                    assert(text@ =~= text_kolize_mistnosti(*v, a as int, b as int, t as int));
                    assert(prekryti(*v, a as int, b as int));
                    assert(opravneny(skola, *v, text@));
                }
                let ghost pp0 = problemy@;
                problemy.push(text);
                proof {
                    assert(problemy@ == pp0.push(problemy@.last()));
                    lemma_opravnene_push(skola, *v, pp0, problemy@.last());
                    assert(problemy@[pp0.len() as int]@ == text_kolize_mistnosti(*v, a as int, b as int, tt as int));
                    assert forall|tt: Seq<char>| hlasi(pp0, tt) implies #[trigger] hlasi(problemy@, tt) by {
                        lemma_hlasi_push(pp0, problemy@.last(), tt);
                        assert(problemy@ == pp0.push(problemy@.last()));
                    }
                }
            }
            k = k + 1;
        }
        t = t + 1;
    }
    let mut k: usize = 0;
    while k < zaci.len()
        invariant
        forall|k: int|
            0 <= k < ucitele@.len() ==> hlasi(
                problemy@,
                text_kolize_ucitele(*v, (#[trigger] ucitele@[k]).1 as int, ucitele@[k].2 as int, ucitele@[k].0 as int),
            ),
        problemy@.len() >= old(problemy)@.len(),
        forall|j: int| 0 <= j < old(problemy)@.len() ==> #[trigger] problemy@[j] == old(problemy)@[j],
        vse_opravnene(skola, *v, problemy@),
            n == v.lekce@.len(),
            forall|x: int| 0 <= x < zaci@.len() ==> (#[trigger] zaci@[x]).0 < N_SLOTU && zaci@[x].1 < n && zaci@[x].2 < n,
            forall|x: int| 0 <= x < zaci@.len() ==> (#[trigger] zaci@[x]).0 == zacatek_prekryti(*v, zaci@[x].1 as int, zaci@[x].2 as int) && zaci@[x].1 < zaci@[x].2 && prekryti(*v, zaci@[x].1 as int, zaci@[x].2 as int) && spolecny_zak(*v, zaci@[x].1 as int, zaci@[x].2 as int) && zaci@[x].3 > 0 && zaci@[x].3 == spolecnych_spec(v.lekce@[zaci@[x].1 as int].zaci@, v.lekce@[zaci@[x].2 as int].zaci@),
        forall|k: int| 0 <= k < mistnosti@.len() ==> hlasi(
            problemy@,
            text_kolize_mistnosti(*v, (#[trigger] mistnosti@[k]).1 as int, mistnosti@[k].2 as int, mistnosti@[k].0 as int),
        ),
            k <= zaci@.len(),
            forall|x: int|
                0 <= x < k ==> hlasi(
                    problemy@,
                    text_kolize_zaku(*v, (#[trigger] zaci@[x]).1 as int, zaci@[x].2 as int, zaci@[x].0 as int, zaci@[x].3 as nat),
                ),
        decreases zaci@.len() - k,
    {
        let (t, a, b, pocet) = zaci[k];
        let pa = popis_lekce(&v.lekce[a]);
        let pb = popis_lekce(&v.lekce[b]);
        let kd = kdy(t);
        let c = cislo(pocet as u64);
        let casti = ["Kolize žáků: ", pa.as_str(), " × ", pb.as_str(), " – ", kd.as_str(), " (", c.as_str(), " žáků)"];
        let text = spoj(&casti);
        proof {
            let cc = casti@.map_values(|x: &str| x@);
            assert(cc =~= seq!["Kolize žáků: "@, pa@, " × "@, pb@, " – "@, kd@, " ("@, c@, " žáků)"@]);
            reveal_with_fuel(crate::text::spojeni, 10);
            assert(text@ =~= text_kolize_zaku(*v, a as int, b as int, t as int, pocet as nat));
            assert(prekryti(*v, a as int, b as int));
            assert(opravneny(skola, *v, text@));
        }
        let ghost pp0 = problemy@;
        problemy.push(text);
        proof {
            assert(problemy@ == pp0.push(problemy@.last()));
            lemma_opravnene_push(skola, *v, pp0, problemy@.last());
            assert(problemy@[pp0.len() as int]@ == text_kolize_zaku(*v, a as int, b as int, t as int, pocet as nat));
            assert forall|tt: Seq<char>| hlasi(pp0, tt) implies #[trigger] hlasi(problemy@, tt) by {
                lemma_hlasi_push(pp0, problemy@.last(), tt);
                assert(problemy@ == pp0.push(problemy@.last()));
            }
        }
        k = k + 1;
    }
    proof {
        assert forall|a: int, b: int|
            0 <= a < b < v.lekce@.len() && prekryti(*v, a, b) && v.lekce@[a].ucitel@ == v.lekce@[b].ucitel@ implies #[trigger] hlasi(
                problemy@,
                text_kolize_ucitele(*v, a, b, zacatek_prekryti(*v, a, b)),
            ) by {
            let e = (zacatek_prekryti(*v, a, b) as usize, a as usize, b as usize);
            assert(ucitele@.contains(e));
            let k = choose|k: int| 0 <= k < ucitele@.len() && ucitele@[k] == e;
            assert(hlasi(problemy@, text_kolize_ucitele(*v, ucitele@[k].1 as int, ucitele@[k].2 as int, ucitele@[k].0 as int)));
        }
        assert forall|a: int, b: int|
            0 <= a < b < v.lekce@.len() && prekryti(*v, a, b) && stejna_mistnost(*v, a, b) implies #[trigger] hlasi(
                problemy@,
                text_kolize_mistnosti(*v, a, b, zacatek_prekryti(*v, a, b)),
            ) by {
            let e = (zacatek_prekryti(*v, a, b) as usize, a as usize, b as usize);
            assert(mistnosti@.contains(e));
            let k = choose|k: int| 0 <= k < mistnosti@.len() && mistnosti@[k] == e;
            assert(hlasi(problemy@, text_kolize_mistnosti(*v, mistnosti@[k].1 as int, mistnosti@[k].2 as int, mistnosti@[k].0 as int)));
        }
        assert forall|a: int, b: int|
            0 <= a < b < v.lekce@.len() && prekryti(*v, a, b) && spolecny_zak(*v, a, b) implies #[trigger] hlasi(
                problemy@,
                text_kolize_zaku(*v, a, b, zacatek_prekryti(*v, a, b), spolecnych_spec(v.lekce@[a].zaci@, v.lekce@[b].zaci@)),
            ) by {
            let e = (zacatek_prekryti(*v, a, b) as usize, a as usize, b as usize, spolecnych_spec(v.lekce@[a].zaci@, v.lekce@[b].zaci@) as usize);
            assert(zaci@.contains(e));
            let k = choose|k: int| 0 <= k < zaci@.len() && zaci@[k] == e;
            assert(hlasi(problemy@, text_kolize_zaku(*v, zaci@[k].1 as int, zaci@[k].2 as int, zaci@[k].0 as int, zaci@[k].3 as nat)));
        }
    }
}

/// Lekce týdne `t` probíhá v týdnu `w` (0 lichý, 1 sudý).
pub open spec fn v_tydnu_w(t: Tyden, w: int) -> bool {
    t == Tyden::Oba || (t == Tyden::L && w == 0) || (t == Tyden::S && w == 1)
}

/// Umístěná lekce `i` zaměstná žáka `z` v hodině `t` týdne `w`.
pub open spec fn zamestna(v: Vysledek, i: int, z: u32, w: int, t: int) -> bool {
    match v.slot@[i] {
        Some(s) => v.lekce@[i].zaci@.contains(z) && v_tydnu_w(v.lekce@[i].tyden, w) && s <= t < s + v.lekce@[i].len,
        None => false,
    }
}

/// Týden položky `x` obsazenosti dvou týdnů.
pub open spec fn tyden_x(x: int) -> int {
    x / (N_SLOTU as int)
}

/// Hodina týdne položky `x` obsazenosti dvou týdnů.
pub open spec fn hodina_x(x: int) -> int {
    x % (N_SLOTU as int)
}

/// Žák `z` má v hodině `t` týdne `w` nějakou lekci.
pub open spec fn ma_hodinu(v: Vysledek, z: u32, w: int, t: int) -> bool {
    exists|i: int| 0 <= i < v.lekce@.len() && #[trigger] zamestna(v, i, z, w, t)
}

/// Obsazenost žáka po týdnech: položka `w*N_SLOTU + t`.
fn obsazenost_zaka(v: &Vysledek, z: u32) -> (occ: Vec<bool>)
    requires
        rozvrh_ve_tydnu(*v),
    ensures
        occ@.len() == 2 * N_SLOTU,
        forall|x: int| 0 <= x < 2 * N_SLOTU ==> #[trigger] occ@[x] == ma_hodinu(*v, z, tyden_x(x), hodina_x(x)),
{
    let mut occ: Vec<bool> = Vec::new();
    let mut k: usize = 0;
    while k < 2 * N_SLOTU
        invariant
            k <= 2 * N_SLOTU,
            occ@.len() == k,
            forall|x: int| 0 <= x < k ==> !occ@[x],
        decreases 2 * N_SLOTU - k,
    {
        occ.push(false);
        k = k + 1;
    }
    let mut i: usize = 0;
    while i < v.lekce.len()
        invariant
            i <= v.lekce@.len(),
            rozvrh_ve_tydnu(*v),
            occ@.len() == 2 * N_SLOTU,
            forall|x: int|
                0 <= x < 2 * N_SLOTU ==> #[trigger] occ@[x] == exists|j: int|
                    0 <= j < i && #[trigger] zamestna(*v, j, z, tyden_x(x), hodina_x(x)),
        decreases v.lekce@.len() - i,
    {
        let l = &v.lekce[i];
        let ghost o0 = occ@;
        match v.slot[i] {
            Some(s) => {
                if obsahuje_u32(&l.zaci, z) {
                    let tydny = l.tyden.tydny();
                    let mut q: usize = 0;
                    while q < tydny.len()
                        invariant
                            q <= tydny@.len(),
                            l.tyden == Tyden::Oba ==> tydny@ == seq![0usize, 1usize],
                            l.tyden == Tyden::L ==> tydny@ == seq![0usize],
                            l.tyden == Tyden::S ==> tydny@ == seq![1usize],
                            s + l.len <= N_SLOTU,
                            occ@.len() == 2 * N_SLOTU,
                            forall|x: int|
                                0 <= x < 2 * N_SLOTU ==> #[trigger] occ@[x] == (o0[x] || (exists|y: int|
                                    0 <= y < q && tydny@[y] == tyden_x(x)) && s <= hodina_x(x) && hodina_x(x)
                                    < s + l.len),
                        decreases tydny@.len() - q,
                    {
                        let w = tydny[q];
                        let ghost o1 = occ@;
                        let mut t = s as usize;
                        while t < s as usize + l.len as usize
                            invariant
                                s <= t <= s + l.len,
                                s + l.len <= N_SLOTU,
                                w < 2,
                                occ@.len() == 2 * N_SLOTU,
                                forall|x: int|
                                    0 <= x < 2 * N_SLOTU ==> #[trigger] occ@[x] == (o1[x] || (tyden_x(x) == w && s <= x
                                        % N_SLOTU as int && hodina_x(x) < t)),
                            decreases s + l.len - t,
                        {
                            occ.set(w * N_SLOTU + t, true);
                            t = t + 1;
                        }
                        proof {
                            assert forall|x: int| 0 <= x < 2 * N_SLOTU implies #[trigger] occ@[x] == (o0[x] || (exists|y: int|
                                0 <= y < q + 1 && tydny@[y] == tyden_x(x)) && s <= hodina_x(x) && hodina_x(x)
                                < s + l.len) by {
                                let w2 = tyden_x(x);
                                if w2 == w as int && s <= hodina_x(x) && hodina_x(x) < s + l.len {
                                    assert(tydny@[q as int] == w2);
                                } else if (exists|y: int| 0 <= y < q + 1 && tydny@[y] == w2) && s <= hodina_x(x) && hodina_x(x)
                                    < s + l.len {
                                    let y = choose|y: int| 0 <= y < q + 1 && tydny@[y] == w2;
                                    assert(y < q);
                                }
                            }
                        }
                        q = q + 1;
                    }
                    proof {
                        assert forall|x: int| 0 <= x < 2 * N_SLOTU implies #[trigger] occ@[x] == exists|j: int|
                            0 <= j < i + 1 && #[trigger] zamestna(*v, j, z, tyden_x(x), hodina_x(x)) by {
                            let w = tyden_x(x);
                            let t = hodina_x(x);
                            let vt = (exists|y: int| 0 <= y < tydny@.len() && tydny@[y] == w);
                            assert(vt == v_tydnu_w(l.tyden, w)) by {
                                if l.tyden == Tyden::Oba {
                                    if w == 0 {
                                        assert(tydny@[0] == 0);
                                    } else {
                                        assert(tydny@[1] == 1);
                                    }
                                } else if l.tyden == Tyden::L {
                                    if w == 0 {
                                        assert(tydny@[0] == 0);
                                    }
                                } else {
                                    if w == 1 {
                                        assert(tydny@[0] == 1);
                                    }
                                }
                            }
                            if zamestna(*v, i as int, z, w, t) {
                            } else if exists|j: int| 0 <= j < i + 1 && #[trigger] zamestna(*v, j, z, w, t) {
                                let j = choose|j: int| 0 <= j < i + 1 && #[trigger] zamestna(*v, j, z, w, t);
                                assert(j < i);
                            }
                        }
                    }
                } else {
                    proof {
                        assert forall|x: int| 0 <= x < 2 * N_SLOTU implies #[trigger] occ@[x] == exists|j: int|
                            0 <= j < i + 1 && #[trigger] zamestna(*v, j, z, tyden_x(x), hodina_x(x)) by {
                            let w = tyden_x(x);
                            let t = hodina_x(x);
                            if exists|j: int| 0 <= j < i + 1 && #[trigger] zamestna(*v, j, z, w, t) {
                                let j = choose|j: int| 0 <= j < i + 1 && #[trigger] zamestna(*v, j, z, w, t);
                                assert(j < i);
                            }
                        }
                    }
                }
            },
            None => {
                proof {
                    assert forall|x: int| 0 <= x < 2 * N_SLOTU implies #[trigger] occ@[x] == exists|j: int|
                        0 <= j < i + 1 && #[trigger] zamestna(*v, j, z, tyden_x(x), hodina_x(x)) by {
                        let w = tyden_x(x);
                        let t = hodina_x(x);
                        if exists|j: int| 0 <= j < i + 1 && #[trigger] zamestna(*v, j, z, w, t) {
                            let j = choose|j: int| 0 <= j < i + 1 && #[trigger] zamestna(*v, j, z, w, t);
                            assert(j < i);
                        }
                    }
                }
            },
        }
        i = i + 1;
    }
    proof {
        assert forall|x: int| 0 <= x < 2 * N_SLOTU implies #[trigger] occ@[x] == ma_hodinu(*v, z, tyden_x(x), hodina_x(x)) by {
            let w = tyden_x(x);
            let t = hodina_x(x);
            if ma_hodinu(*v, z, w, t) {
                let j = choose|j: int| 0 <= j < v.lekce@.len() && #[trigger] zamestna(*v, j, z, w, t);
            }
        }
    }
    occ
}

/// Hodiny dne `d` v týdnu `w` (`oba`: v některém z obou týdnů) podle obsazenosti dvou týdnů.
pub open spec fn den_seq(occ: Seq<bool>, w: int, d: int, oba: bool) -> Seq<bool> {
    Seq::new(
        SLOTU as nat,
        |k: int|
            if oba {
                occ[d * SLOTU + k] || occ[N_SLOTU + d * SLOTU + k]
            } else {
                occ[w * N_SLOTU + d * SLOTU + k]
            },
    )
}

/// Počet obsazených hodin mezi prvními `k`.
pub open spec fn obsazenych(s: Seq<bool>, k: int) -> nat
    decreases k,
{
    if k <= 0 {
        0
    } else {
        obsazenych(s, k - 1) + if s[k - 1] {
            1nat
        } else {
            0nat
        }
    }
}

/// Počet obsazených hodin od hodiny `od` mezi prvními `k`.
pub open spec fn obsazenych_od(s: Seq<bool>, k: int, od: int) -> nat
    decreases k,
{
    if k <= 0 {
        0
    } else {
        obsazenych_od(s, k - 1, od) + if s[k - 1] && k - 1 >= od {
            1nat
        } else {
            0nat
        }
    }
}

/// Délka souvislého bloku obsazených hodin končícího hodinou `k - 1`.
pub open spec fn blok_do(s: Seq<bool>, k: int) -> nat
    decreases k,
{
    if k <= 0 {
        0
    } else if s[k - 1] {
        blok_do(s, k - 1) + 1
    } else {
        0
    }
}

/// Nejdelší souvislý blok mezi prvními `k` hodinami.
pub open spec fn nejdelsi_blok(s: Seq<bool>, k: int) -> nat
    decreases k,
{
    if k <= 0 {
        0
    } else if blok_do(s, k) > nejdelsi_blok(s, k - 1) {
        blok_do(s, k)
    } else {
        nejdelsi_blok(s, k - 1)
    }
}

/// Den žáka v týdnu `w`: počet hodin, nejdelší blok, raná hodina, odpolední hodiny a okna.
fn den_zaka(occ: &Vec<bool>, w: usize, d: usize, odpo_od: usize, oba: bool) -> (r: (usize, usize, usize, usize, usize))
    requires
        occ@.len() == 2 * N_SLOTU,
        w < 2,
        d < DNY,
    ensures
        r.0 <= SLOTU && r.1 <= SLOTU && r.2 <= 1 && r.3 <= SLOTU && r.4 <= SLOTU,
        r.0 == obsazenych(den_seq(occ@, w as int, d as int, oba), SLOTU as int),
        r.1 == nejdelsi_blok(den_seq(occ@, w as int, d as int, oba), SLOTU as int),
        r.2 == if den_seq(occ@, w as int, d as int, oba)[0] {
            1int
        } else {
            0int
        },
        r.3 == obsazenych_od(den_seq(occ@, w as int, d as int, oba), SLOTU as int, odpo_od as int),
{
    let ghost den = den_seq(occ@, w as int, d as int, oba);
    let mut pocet: usize = 0;
    let mut run: usize = 0;
    let mut nejdelsi: usize = 0;
    let mut odpo: usize = 0;
    let mut prvni: usize = SLOTU;
    let mut posledni: usize = 0;
    let mut k: usize = 0;
    while k < SLOTU
        invariant
            k <= SLOTU,
            w < 2,
            d < DNY,
            occ@.len() == 2 * N_SLOTU,
            den == den_seq(occ@, w as int, d as int, oba),
            pocet <= k,
            run <= k,
            nejdelsi <= k,
            odpo <= k,
            pocet > 0 ==> prvni <= posledni && posledni < k && pocet <= posledni - prvni + 1,
            pocet == obsazenych(den, k as int),
            run == blok_do(den, k as int),
            nejdelsi == nejdelsi_blok(den, k as int),
            odpo == obsazenych_od(den, k as int, odpo_od as int),
        decreases SLOTU - k,
    {
        let x = if oba {
            occ[d * SLOTU + k] || occ[N_SLOTU + d * SLOTU + k]
        } else {
            occ[w * N_SLOTU + d * SLOTU + k]
        };
        proof {
            assert(x == den[k as int]);
        }
        if x {
            if pocet == 0 {
                prvni = k;
            }
            pocet = pocet + 1;
            posledni = k;
            run = run + 1;
            if run > nejdelsi {
                nejdelsi = run;
            }
            if k >= odpo_od {
                odpo = odpo + 1;
            }
        } else {
            run = 0;
        }
        k = k + 1;
    }
    let rane: usize = if (if oba { occ[d * SLOTU] || occ[N_SLOTU + d * SLOTU] } else { occ[w * N_SLOTU + d * SLOTU] }) {
        1
    } else {
        0
    };
    proof {
        assert(den[0] == (if oba { occ@[d * SLOTU + 0] || occ@[N_SLOTU + d * SLOTU + 0] } else { occ@[w * N_SLOTU + d * SLOTU + 0] }));
    }
    let okna: usize = if pocet == 0 { 0 } else { posledni - prvni + 1 - pocet };
    (pocet, nejdelsi, rane, odpo, okna)
}

/// Název týdne (L = lichý, S = sudý).
pub open spec fn tyden_spec(w: int) -> Seq<char> {
    if w == 0 {
        "L"@
    } else {
        "S"@
    }
}

/// Druh porušení `druh` nastal u žáka `z` v týdnu `w` ve dni `d` (`d` = 99: za celý týden),
/// s čísly v textu podle skutečného rozvrhu.
pub open spec fn druh_v_tydnu(skola: Skola, v: Vysledek, z: u32, w: int, d: int, druh: Seq<char>) -> bool {
    let lim = limity_tridy(skola, v, v.zaci_tridy@[z]@);
    if 0 <= d < DNY {
        let den = den_zaka_v(v, z, w, d);
        let nb = nejdelsi_blok(den, SLOTU as int);
        let p = obsazenych(den, SLOTU as int);
        let o = obsazenych_od(den, SLOTU as int, odpoledne_od(skola));
        ||| nb > MAX_RUN && druh == "pravidlo 7 h ("@ + crate::text::desitkove(nb) + " h v kuse, "@ + tyden_spec(w) + ")"@
        ||| p > MAX_DEN_TRIDA && druh == "více než 8 h za den ("@ + crate::text::desitkove(p) + " h, "@ + tyden_spec(w) + ")"@
        ||| skola.nastaveni.limity_za_den && prekrocen(lim.rane, rana(den)) && druh == "limit raných hodin"@
        ||| skola.nastaveni.limity_za_den && prekrocen(lim.odpoledni, o as int) && druh == "limit odpoledních hodin ("@
            + crate::text::desitkove(o) + " > "@ + crate::text::desitkove(lim.odpoledni.unwrap() as nat) + ")"@
    } else {
        &&& d == 99
        &&& !skola.nastaveni.limity_za_den
        &&& {
            ||| prekrocen(lim.rane, ranych_v_tydnu(v, z, w, DNY as int)) && druh == "týdenní limit raných ("@ + tyden_spec(w) + ")"@
            ||| prekrocen(lim.odpoledni, odpolednich_v_tydnu(v, z, w, DNY as int, odpoledne_od(skola))) && druh
                == "týdenní limit odpoledních ("@ + tyden_spec(w) + ")"@
        }
    }
}

/// Druh porušení `druh` nastal u žáka `z` ve dni `d` v některém týdnu.
pub open spec fn druh_oduvodnen(skola: Skola, v: Vysledek, z: u32, d: int, druh: Seq<char>) -> bool {
    exists|w: int| 0 <= w < 2 && #[trigger] druh_v_tydnu(skola, v, z, w, d, druh)
}

/// Každý záznam porušení (třída, druh, den, žáci) má žáky a u každého z nich, žáka té třídy,
/// porušení skutečně nastalo.
pub open spec fn poruseni_oduvodnena(skola: Skola, v: Vysledek, p: Seq<(String, String, usize, Vec<u32>)>) -> bool {
    &&& forall|k: int| 0 <= k < p.len() ==> (#[trigger] p[k]).3@.len() > 0
    &&& forall|k: int, x: int|
        0 <= k < p.len() && 0 <= x < p[k].3@.len() ==> v.zaci_tridy@.contains_key(#[trigger] p[k].3@[x])
            && v.zaci_tridy@[p[k].3@[x]]@ == p[k].0@ && druh_oduvodnen(skola, v, p[k].3@[x], p[k].2 as int, p[k].1@)
}

/// Záznamy porušení obsahují žáka `z` ve dni `d` (`DNY` a víc = celý týden).
pub open spec fn zaznamenan(p: Seq<(String, String, usize, Vec<u32>)>, z: u32, d: int) -> bool {
    exists|k: int| 0 <= k < p.len() && (#[trigger] p[k]).2 == d && p[k].3@.contains(z)
}

/// Mezi záznamy porušení je záznam třídy `tr`, druhu `druh` a dne `d` se žákem `z`.
pub open spec fn zapsan(p: Seq<(String, String, usize, Vec<u32>)>, tr: Seq<char>, druh: Seq<char>, d: int, z: u32) -> bool {
    exists|k: int| 0 <= k < p.len() && (#[trigger] p[k]).0@ == tr && p[k].1@ == druh && p[k].2 == d && p[k].3@.contains(z)
}

/// Záznamy porušení mají navzájem různé klíče (třída, druh, den) a žáky bez opakování.
pub open spec fn poruseni_jedinecna(p: Seq<(String, String, usize, Vec<u32>)>) -> bool {
    &&& forall|k1: int, k2: int|
        0 <= k1 < p.len() && 0 <= k2 < p.len() && (#[trigger] p[k1]).0@ == (#[trigger] p[k2]).0@ && p[k1].1@ == p[k2].1@
            && p[k1].2 == p[k2].2 ==> k1 == k2
    &&& forall|k: int| 0 <= k < p.len() ==> (#[trigger] p[k]).3@.no_duplicates()
}

/// Zapíše porušení (třída, druh, den) žáka.
fn zapis_poruseni(
    poruseni: &mut Vec<(String, String, usize, Vec<u32>)>,
    tr: &String,
    druh: String,
    d: usize,
    z: u32,
    Ghost(skola): Ghost<Skola>,
    Ghost(v): Ghost<Vysledek>,
)
    requires
        poruseni_oduvodnena(skola, v, old(poruseni)@),
        poruseni_jedinecna(old(poruseni)@),
        v.zaci_tridy@.contains_key(z),
        v.zaci_tridy@[z]@ == tr@,
        druh_oduvodnen(skola, v, z, d as int, druh@),
    ensures
        poruseni_oduvodnena(skola, v, final(poruseni)@),
        poruseni_jedinecna(final(poruseni)@),
        zapsan(final(poruseni)@, tr@, druh@, d as int, z),
        forall|tr2: Seq<char>, druh2: Seq<char>, d2: int, z2: u32|
            #[trigger] zapsan(old(poruseni)@, tr2, druh2, d2, z2) ==> zapsan(final(poruseni)@, tr2, druh2, d2, z2),
        forall|k: int| 0 <= k < old(poruseni)@.len() ==> (#[trigger] old(poruseni)@[k]).2 == final(poruseni)@[k].2,
        forall|k: int| old(poruseni)@.len() <= k < final(poruseni)@.len() ==> (#[trigger] final(poruseni)@[k]).2 == d,
        final(poruseni)@.len() >= old(poruseni)@.len(),
        zaznamenan(final(poruseni)@, z, d as int),
        forall|z2: u32, d2: int| zaznamenan(old(poruseni)@, z2, d2) ==> zaznamenan(final(poruseni)@, z2, d2),
{
    let mut k: usize = 0;
    while k < poruseni.len()
        invariant
            k <= poruseni@.len(),
            poruseni@ == old(poruseni)@,
            poruseni_oduvodnena(skola, v, poruseni@),
            v.zaci_tridy@.contains_key(z),
            v.zaci_tridy@[z]@ == tr@,
            druh_oduvodnen(skola, v, z, d as int, druh@),
            poruseni_jedinecna(poruseni@),
            forall|j: int| 0 <= j < k ==> !((#[trigger] poruseni@[j]).2 == d && poruseni@[j].0@ == tr@ && poruseni@[j].1@ == druh@),
        decreases poruseni@.len() - k,
    {
        if poruseni[k].2 == d && rovno(poruseni[k].0.as_str(), tr.as_str()) && rovno(poruseni[k].1.as_str(), druh.as_str()) {
            proof {
                if poruseni@[k as int].3@.contains(z) {
                    assert(zapsan(poruseni@, tr@, druh@, d as int, z));
                }
            }
            if !obsahuje_u32(&poruseni[k].3, z) {
                let ghost p0 = poruseni@;
                poruseni[k].3.push(z);
                proof {
                    assert forall|x: int| 0 <= x < p0.len() implies (#[trigger] poruseni@[x]).0@ == p0[x].0@ && poruseni@[x].1@ == p0[x].1@
                        && poruseni@[x].2 == p0[x].2 && (x != k ==> poruseni@[x] == p0[x]) by {}
                    assert(poruseni@[k as int].3@ == p0[k as int].3@.push(z));
                    assert forall|k2: int| 0 <= k2 < poruseni@.len() implies (#[trigger] poruseni@[k2]).3@.no_duplicates() by {
                        if k2 == k {
                            assert(p0[k2].3@.no_duplicates());
                            assert(!p0[k2].3@.contains(z));
                        } else {
                            assert(poruseni@[k2] == p0[k2]);
                        }
                    }
                    assert(poruseni_jedinecna(poruseni@));
                    assert forall|x: int| 0 <= x < p0.len() implies (#[trigger] p0[x]).2 == poruseni@[x].2 by {
                        if x != k {
                            assert(poruseni@[x] == p0[x]);
                        }
                    }
                    assert(poruseni@[k as int].3@.contains(z)) by {
                        assert(poruseni@[k as int].3@[p0[k as int].3@.len() as int] == z);
                    }
                    assert forall|z2: u32, d2: int| zaznamenan(p0, z2, d2) implies zaznamenan(poruseni@, z2, d2) by {
                        let x = choose|x: int| 0 <= x < p0.len() && (#[trigger] p0[x]).2 == d2 && p0[x].3@.contains(z2);
                        if x != k {
                            assert(poruseni@[x] == p0[x]);
                        } else {
                            let y = choose|y: int| 0 <= y < p0[x].3@.len() && p0[x].3@[y] == z2;
                            assert(poruseni@[x].3@[y] == z2);
                        }
                    }
                    assert forall|k2: int| 0 <= k2 < poruseni@.len() implies (#[trigger] poruseni@[k2]).3@.len() > 0 by {
                        if k2 != k {
                            assert(poruseni@[k2] == p0[k2]);
                        }
                    }
                    assert(zapsan(poruseni@, tr@, druh@, d as int, z));
                    assert forall|tr2: Seq<char>, druh2: Seq<char>, d2: int, z2: u32|
                        #[trigger] zapsan(p0, tr2, druh2, d2, z2) implies zapsan(poruseni@, tr2, druh2, d2, z2) by {
                        let x = choose|x: int|
                            0 <= x < p0.len() && (#[trigger] p0[x]).0@ == tr2 && p0[x].1@ == druh2 && p0[x].2 == d2 && p0[x].3@.contains(z2);
                        if x != k {
                            assert(poruseni@[x] == p0[x]);
                        } else {
                            let y = choose|y: int| 0 <= y < p0[x].3@.len() && p0[x].3@[y] == z2;
                            assert(poruseni@[x].3@[y] == z2);
                        }
                    }
                    assert forall|k2: int, x: int|
                        0 <= k2 < poruseni@.len() && 0 <= x < poruseni@[k2].3@.len() implies v.zaci_tridy@.contains_key(
                            #[trigger] poruseni@[k2].3@[x],
                        ) && v.zaci_tridy@[poruseni@[k2].3@[x]]@ == poruseni@[k2].0@ && druh_oduvodnen(
                            skola,
                            v,
                            poruseni@[k2].3@[x],
                            poruseni@[k2].2 as int,
                            poruseni@[k2].1@,
                        ) by {
                        if k2 != k {
                            assert(poruseni@[k2] == p0[k2]);
                            assert(poruseni@[k2].3@[x] == p0[k2].3@[x]);
                        } else if x < p0[k2].3@.len() {
                            assert(poruseni@[k2].3@[x] == p0[k2].3@[x]);
                        } else {
                            assert(poruseni@[k2].3@[x] == z);
                        }
                    }
                }
            }
            return;
        }
        k = k + 1;
    }
    let mut zs: Vec<u32> = Vec::new();
    zs.push(z);
    let ghost p0 = poruseni@;
    poruseni.push((tr.clone(), druh, d, zs));
    proof {
        assert forall|k2: int| 0 <= k2 < poruseni@.len() implies (#[trigger] poruseni@[k2]).3@.no_duplicates() by {
            if k2 < p0.len() {
                assert(poruseni@[k2] == p0[k2]);
            } else {
                assert(poruseni@[k2].3@.len() == 1);
            }
        }
        assert forall|k1: int, k2: int|
            0 <= k1 < poruseni@.len() && 0 <= k2 < poruseni@.len() && (#[trigger] poruseni@[k1]).0@ == (#[trigger] poruseni@[k2]).0@
                && poruseni@[k1].1@ == poruseni@[k2].1@ && poruseni@[k1].2 == poruseni@[k2].2 implies k1 == k2 by {
            if k1 < p0.len() {
                assert(poruseni@[k1] == p0[k1]);
            }
            if k2 < p0.len() {
                assert(poruseni@[k2] == p0[k2]);
            }
        }
        assert(poruseni@[p0.len() as int].3@[0] == z);
        assert forall|z2: u32, d2: int| zaznamenan(p0, z2, d2) implies zaznamenan(poruseni@, z2, d2) by {
            let x = choose|x: int| 0 <= x < p0.len() && (#[trigger] p0[x]).2 == d2 && p0[x].3@.contains(z2);
            assert(poruseni@[x] == p0[x]);
        }
        assert forall|k2: int| 0 <= k2 < poruseni@.len() implies (#[trigger] poruseni@[k2]).3@.len() > 0 by {
            if k2 < p0.len() {
                assert(poruseni@[k2] == p0[k2]);
            }
        }
        assert(poruseni@[p0.len() as int].3@.contains(z));
        assert(zapsan(poruseni@, tr@, druh@, d as int, z));
        assert forall|tr2: Seq<char>, druh2: Seq<char>, d2: int, z2: u32|
            #[trigger] zapsan(p0, tr2, druh2, d2, z2) implies zapsan(poruseni@, tr2, druh2, d2, z2) by {
            let x = choose|x: int|
                0 <= x < p0.len() && (#[trigger] p0[x]).0@ == tr2 && p0[x].1@ == druh2 && p0[x].2 == d2 && p0[x].3@.contains(z2);
            assert(poruseni@[x] == p0[x]);
        }
        assert forall|k2: int, x: int|
            0 <= k2 < poruseni@.len() && 0 <= x < poruseni@[k2].3@.len() implies v.zaci_tridy@.contains_key(
                #[trigger] poruseni@[k2].3@[x],
            ) && v.zaci_tridy@[poruseni@[k2].3@[x]]@ == poruseni@[k2].0@ && druh_oduvodnen(
                skola,
                v,
                poruseni@[k2].3@[x],
                poruseni@[k2].2 as int,
                poruseni@[k2].1@,
            ) by {
            if k2 < p0.len() {
                assert(poruseni@[k2] == p0[k2]);
                assert(poruseni@[k2].3@[x] == p0[k2].3@[x]);
            } else {
                assert(poruseni@[k2].3@[x] == z);
            }
        }
    }
}

/// Hodiny dne `d` týdne `w`, ve kterých má žák `z` lekci.
pub open spec fn den_zaka_v(v: Vysledek, z: u32, w: int, d: int) -> Seq<bool> {
    Seq::new(SLOTU as nat, |k: int| ma_hodinu(v, z, w, d * SLOTU + k))
}

/// První odpolední hodina podle nastavení, omezená na 1 až `SLOTU`.
pub open spec fn odpoledne_od(skola: Skola) -> int {
    if skola.nastaveni.odpoledne_od < 1 {
        1
    } else if skola.nastaveni.odpoledne_od > SLOTU {
        SLOTU as int
    } else {
        skola.nastaveni.odpoledne_od as int
    }
}

/// Limity P1 třídy žáka: efektivní limity rozvrhu, jinak limity třídy, u neznámé třídy žádné.
pub open spec fn limity_tridy(skola: Skola, v: Vysledek, tr: Seq<char>) -> crate::data::Omezeni {
    if v.limity.ma(tr) {
        v.limity.hodnota(tr)
    } else if crate::data::index_tridy(skola.tridy@, tr) >= 0 {
        skola.tridy@[crate::data::index_tridy(skola.tridy@, tr)].spec_omezeni()
    } else {
        crate::data::Omezeni { rane: None, odpoledni: None }
    }
}

/// Limit je překročen.
pub open spec fn prekrocen(limit: Option<u8>, x: int) -> bool {
    match limit {
        Some(l) => x > l,
        None => false,
    }
}

/// Raná hodina dne (0 nebo 1).
pub open spec fn rana(den: Seq<bool>) -> int {
    if den[0] {
        1
    } else {
        0
    }
}

/// Žák `z` porušuje ve dni `d` týdne `w` tvrdé pravidlo: víc než `MAX_RUN` hodin v kuse, víc
/// než `MAX_DEN_TRIDA` hodin za den, nebo (limity za den) limit raných či odpoledních hodin.
pub open spec fn porusuje_den(skola: Skola, v: Vysledek, z: u32, w: int, d: int) -> bool {
    let den = den_zaka_v(v, z, w, d);
    let lim = limity_tridy(skola, v, v.zaci_tridy@[z]@);
    ||| nejdelsi_blok(den, SLOTU as int) > MAX_RUN
    ||| obsazenych(den, SLOTU as int) > MAX_DEN_TRIDA
    ||| skola.nastaveni.limity_za_den && (prekrocen(lim.rane, rana(den)) || prekrocen(
        lim.odpoledni,
        obsazenych_od(den, SLOTU as int, odpoledne_od(skola)) as int,
    ))
}

/// Raných hodin žáka v prvních `dni` dnech týdne `w`.
pub open spec fn ranych_v_tydnu(v: Vysledek, z: u32, w: int, dni: int) -> int
    decreases dni,
{
    if dni <= 0 {
        0
    } else {
        ranych_v_tydnu(v, z, w, dni - 1) + rana(den_zaka_v(v, z, w, dni - 1))
    }
}

/// Odpoledních hodin žáka v prvních `dni` dnech týdne `w`.
pub open spec fn odpolednich_v_tydnu(v: Vysledek, z: u32, w: int, dni: int, od: int) -> int
    decreases dni,
{
    if dni <= 0 {
        0
    } else {
        odpolednich_v_tydnu(v, z, w, dni - 1, od) + obsazenych_od(den_zaka_v(v, z, w, dni - 1), SLOTU as int, od)
    }
}

/// Žák `z` překračuje (při limitech za týden) týdenní limit raných či odpoledních hodin v týdnu `w`.
pub open spec fn porusuje_tyden(skola: Skola, v: Vysledek, z: u32, w: int) -> bool {
    let lim = limity_tridy(skola, v, v.zaci_tridy@[z]@);
    &&& !skola.nastaveni.limity_za_den
    &&& (prekrocen(lim.rane, ranych_v_tydnu(v, z, w, DNY as int)) || prekrocen(
        lim.odpoledni,
        odpolednich_v_tydnu(v, z, w, DNY as int, odpoledne_od(skola)),
    ))
}

/// Den podle obsazenosti žáka je jeho den v rozvrhu.
proof fn lemma_den_zaka(occ: Seq<bool>, v: Vysledek, z: u32, w: int, d: int)
    requires
        occ.len() == 2 * N_SLOTU,
        forall|x: int| 0 <= x < 2 * N_SLOTU ==> #[trigger] occ[x] == ma_hodinu(v, z, tyden_x(x), hodina_x(x)),
        0 <= w < 2,
        0 <= d < DNY,
    ensures
        den_seq(occ, w, d, false) == den_zaka_v(v, z, w, d),
{
    assert forall|k: int| 0 <= k < SLOTU implies #[trigger] den_seq(occ, w, d, false)[k] == den_zaka_v(v, z, w, d)[k] by {
        let x = w * N_SLOTU + d * SLOTU + k;
        assert(tyden_x(x) == w && hodina_x(x) == d * SLOTU + k) by (nonlinear_arith)
            requires
                x == w * 60 + d * 12 + k,
                0 <= w < 2,
                0 <= d < 5,
                0 <= k < 12,
                tyden_x(x) == x / 60,
                hodina_x(x) == x % 60,
        ;
        assert(occ[x] == ma_hodinu(v, z, tyden_x(x), hodina_x(x)));
    }
    assert(den_seq(occ, w, d, false) =~= den_zaka_v(v, z, w, d));
}

/// Umístěná lekce `i` žáka `z` začíná ve dni `d` (pro `d` od `DNY` výš: kterýkoli den).
pub open spec fn lekce_zaka_dne(v: Vysledek, i: int, z: u32, d: int) -> bool {
    match v.slot@[i] {
        Some(s) => v.lekce@[i].zaci@.contains(z) && (d >= DNY || (s as int) / (SLOTU as int) == d),
        None => false,
    }
}

/// Všechny lekce žáků zaznamenaných porušení v jejich dnech jsou označené.
pub open spec fn oznaceni_zaku(v: Vysledek, p: Seq<(String, String, usize, Vec<u32>)>, o: Seq<usize>) -> bool {
    forall|q: int, x: int, i: int|
        0 <= q < p.len() && 0 <= x < p[q].3@.len() && 0 <= i < v.lekce@.len() && #[trigger] lekce_zaka_dne(
            v,
            i,
            p[q].3@[x],
            p[q].2 as int,
        ) ==> o.contains(i as usize)
}

/// Nejdelší blok žáka v prvních `k` dnech obou týdnů (lichý Po–Pá, pak sudý Po–Pá).
pub open spec fn blok_zaka(v: Vysledek, z: u32, k: int) -> nat
    decreases k,
{
    if k <= 0 {
        0
    } else {
        let b = nejdelsi_blok(den_zaka_v(v, z, (k - 1) / (DNY as int), (k - 1) % (DNY as int)), SLOTU as int);
        let p = blok_zaka(v, z, k - 1);
        if b > p {
            b
        } else {
            p
        }
    }
}

/// Skupiny statistik žáků po třídách: neprázdné, s různými názvy tříd; každá statistika patří
/// žákovi té třídy a nese jeho nejdelší blok.
pub open spec fn skupiny_statistik(v: Vysledek, g: Seq<(String, Vec<(usize, usize, usize, usize, usize)>)>) -> bool {
    &&& forall|a: int| 0 <= a < g.len() ==> (#[trigger] g[a]).1@.len() > 0
    &&& forall|a: int, b: int| 0 <= a < b < g.len() ==> (#[trigger] g[a]).0@ != (#[trigger] g[b]).0@
    &&& forall|a: int, j: int| 0 <= a < g.len() && 0 <= j < g[a].1@.len() ==> stat_patri(v, g[a].0@, #[trigger] g[a].1@[j])
}

/// Statistika patří některému žákovi třídy `tr` a nese jeho nejdelší blok a počet ranních dnů.
pub open spec fn stat_patri(v: Vysledek, tr: Seq<char>, st: (usize, usize, usize, usize, usize)) -> bool {
    exists|z: u32|
        v.zaci_tridy@.contains_key(z) && v.zaci_tridy@[z]@ == tr && st.3 == #[trigger] blok_zaka(v, z, 2 * DNY) && st.1
            == ranych_dnu_zaka(v, z, DNY as int)
}

/// Počet dnů (z prvních `dni`), kdy má žák aspoň v jednom týdnu první hodinu.
pub open spec fn ranych_dnu_zaka(v: Vysledek, z: u32, dni: int) -> int
    decreases dni,
{
    if dni <= 0 {
        0
    } else {
        ranych_dnu_zaka(v, z, dni - 1) + if ma_hodinu(v, z, 0, (dni - 1) * SLOTU) || ma_hodinu(v, z, 1, (dni - 1) * SLOTU) {
            1int
        } else {
            0int
        }
    }
}

/// Statistika žáka `z` je ve skupině jeho třídy.
pub open spec fn ma_statistiku(v: Vysledek, g: Seq<(String, Vec<(usize, usize, usize, usize, usize)>)>, z: u32) -> bool {
    exists|a: int, j: int|
        0 <= a < g.len() && 0 <= j < g[a].1@.len() && g[a].0@ == v.zaci_tridy@[z]@ && (#[trigger] g[a].1@[j]).3 == blok_zaka(
            v,
            z,
            2 * DNY,
        ) && g[a].1@[j].1 == ranych_dnu_zaka(v, z, DNY as int)
}

/// Statistika žáka: hodin, ranních dnů, odpoledních hodin, nejdelší blok, okna.
type StatZaka = (usize, usize, usize, usize, usize);

/// Kontrola žáků po týdnech: pravidlo 7 h, nejvýš `MAX_DEN_TRIDA` h za den a limity P1
/// (za den nebo za týden); vrací porušení (třída, druh, den – `DNY` a víc = týden, žáci)
/// a statistiky žáků podle tříd.
#[verifier::rlimit(40)]
fn kontrola_zaku(skola: &Skola, v: &Vysledek) -> (r: (Vec<(String, String, usize, Vec<u32>)>, Vec<(String, Vec<StatZaka>)>, Vec<(u32, String)>))
    requires
        rozvrh_ve_tydnu(*v),
        v.limity.dobre(),
        crate::data::tridy_platne(skola.tridy@),
    ensures
        poruseni_oduvodnena(*skola, *v, r.0@),
        poruseni_jedinecna(r.0@),
        forall|z: u32, w: int, d: int, druh: Seq<char>|
            #![trigger druh_v_tydnu(*skola, *v, z, w, d, druh)]
            v.zaci_tridy@.contains_key(z) && 0 <= w < 2 && druh_v_tydnu(*skola, *v, z, w, d, druh) ==> zapsan(r.0@, v.zaci_tridy@[z]@, druh, d, z),
        skupiny_statistik(*v, r.1@),
        forall|z: u32| #[trigger] v.zaci_tridy@.contains_key(z) ==> ma_statistiku(*v, r.1@, z),
        forall|z: u32, w: int, d: int|
            #![trigger porusuje_den(*skola, *v, z, w, d)]
            v.zaci_tridy@.contains_key(z) && 0 <= w < 2 && 0 <= d < DNY && porusuje_den(*skola, *v, z, w, d) ==> zaznamenan(r.0@, z, d),
        forall|z: u32, w: int|
            #![trigger porusuje_tyden(*skola, *v, z, w)]
            v.zaci_tridy@.contains_key(z) && 0 <= w < 2 && porusuje_tyden(*skola, *v, z, w) ==> zaznamenan(r.0@, z, 99),
{
    let odpo_od: usize = if (skola.nastaveni.odpoledne_od as usize) < 1 {
        1
    } else if (skola.nastaveni.odpoledne_od as usize) > SLOTU {
        SLOTU
    } else {
        skola.nastaveni.odpoledne_od as usize
    };
    let za_den = skola.nastaveni.limity_za_den;
    let zaci = crate::podle_id::polozky(&v.zaci_tridy);
    let mut poruseni: Vec<(String, String, usize, Vec<u32>)> = Vec::new();
    let mut stat_zaka: Vec<(String, Vec<StatZaka>)> = Vec::new();
    let mut q: usize = 0;
    while q < zaci.len()
        invariant
            q <= zaci@.len(),
            rozvrh_ve_tydnu(*v),
            v.limity.dobre(),
            crate::data::tridy_platne(skola.tridy@),
            odpo_od == odpoledne_od(*skola),
            za_den == skola.nastaveni.limity_za_den,
            forall|k: int| 0 <= k < zaci@.len() ==> v.zaci_tridy@.contains_key((#[trigger] zaci@[k]).0) && v.zaci_tridy@[zaci@[k].0] == zaci@[k].1,
            forall|z: u32| #[trigger] v.zaci_tridy@.contains_key(z) ==> exists|k: int| 0 <= k < zaci@.len() && zaci@[k].0 == z,
            forall|k: int, w: int, d: int|
                #![trigger porusuje_den(*skola, *v, zaci@[k].0, w, d)]
                0 <= k < q && 0 <= w < 2 && 0 <= d < DNY && porusuje_den(*skola, *v, zaci@[k].0, w, d) ==> zaznamenan(poruseni@, zaci@[k].0, d),
            forall|k: int, w: int|
                #![trigger porusuje_tyden(*skola, *v, zaci@[k].0, w)]
                0 <= k < q && 0 <= w < 2 && porusuje_tyden(*skola, *v, zaci@[k].0, w) ==> zaznamenan(poruseni@, zaci@[k].0, 99),
            poruseni_oduvodnena(*skola, *v, poruseni@),
            poruseni_jedinecna(poruseni@),
            skupiny_statistik(*v, stat_zaka@),
            forall|k: int| 0 <= k < q ==> ma_statistiku(*v, stat_zaka@, (#[trigger] zaci@[k]).0),
            forall|k: int, w: int, d: int, druh: Seq<char>|
                #![trigger druh_v_tydnu(*skola, *v, zaci@[k].0, w, d, druh)]
                0 <= k < q && 0 <= w < 2 && druh_v_tydnu(*skola, *v, zaci@[k].0, w, d, druh) ==> zapsan(poruseni@, zaci@[k].1@, druh, d, zaci@[k].0),
        decreases zaci@.len() - q,
    {
        let z = zaci[q].0;
        let tr = &zaci[q].1;
        let lim: crate::data::Omezeni = match v.limity.get(tr.as_str()) {
            Some(l) => *l,
            None => match skola.pozice_tridy(tr.as_str()) {
                Some(i) => {
                    proof {
                        assert(skola.tridy@[i as int].platna());
                    }
                    skola.tridy[i].omezeni()
                },
                None => crate::data::Omezeni { rane: None, odpoledni: None },
            },
        };
        proof {
            assert(v.zaci_tridy@[z] == *tr);
            assert(lim == limity_tridy(*skola, *v, v.zaci_tridy@[z]@));
        }
        let occ = obsazenost_zaka(v, z);
        let mut max_blok: usize = 0;
        let mut w: usize = 0;
        while w < 2
            invariant
                w <= 2,
                q < zaci@.len(),
                z == zaci@[q as int].0,
                lim == limity_tridy(*skola, *v, v.zaci_tridy@[z]@),
                odpo_od == odpoledne_od(*skola),
                za_den == skola.nastaveni.limity_za_den,
                occ@.len() == 2 * N_SLOTU,
                poruseni_oduvodnena(*skola, *v, poruseni@),
                poruseni_jedinecna(poruseni@),
                v.zaci_tridy@.contains_key(z),
                v.zaci_tridy@[z]@ == tr@,
                forall|x: int| 0 <= x < 2 * N_SLOTU ==> #[trigger] occ@[x] == ma_hodinu(*v, z, tyden_x(x), hodina_x(x)),
                max_blok <= SLOTU,
                max_blok == blok_zaka(*v, z, w * DNY),
                forall|k: int, w2: int, d: int|
                    #![trigger porusuje_den(*skola, *v, zaci@[k].0, w2, d)]
                    0 <= k < q && 0 <= w2 < 2 && 0 <= d < DNY && porusuje_den(*skola, *v, zaci@[k].0, w2, d) ==> zaznamenan(poruseni@, zaci@[k].0, d),
                forall|k: int, w2: int|
                    #![trigger porusuje_tyden(*skola, *v, zaci@[k].0, w2)]
                    0 <= k < q && 0 <= w2 < 2 && porusuje_tyden(*skola, *v, zaci@[k].0, w2) ==> zaznamenan(poruseni@, zaci@[k].0, 99),
                forall|w2: int, d: int|
                    #![trigger porusuje_den(*skola, *v, z, w2, d)]
                    0 <= w2 < w && 0 <= d < DNY && porusuje_den(*skola, *v, z, w2, d) ==> zaznamenan(poruseni@, z, d),
                forall|w2: int|
                    #![trigger porusuje_tyden(*skola, *v, z, w2)]
                    0 <= w2 < w && porusuje_tyden(*skola, *v, z, w2) ==> zaznamenan(poruseni@, z, 99),
                forall|k: int, w2: int, d: int, druh: Seq<char>|
                    #![trigger druh_v_tydnu(*skola, *v, zaci@[k].0, w2, d, druh)]
                    0 <= k < q && 0 <= w2 < 2 && druh_v_tydnu(*skola, *v, zaci@[k].0, w2, d, druh) ==> zapsan(poruseni@, zaci@[k].1@, druh, d, zaci@[k].0),
                forall|w2: int, d: int, druh: Seq<char>|
                    #![trigger druh_v_tydnu(*skola, *v, z, w2, d, druh)]
                    0 <= w2 < w && druh_v_tydnu(*skola, *v, z, w2, d, druh) ==> zapsan(poruseni@, tr@, druh, d, z),
            decreases 2 - w,
        {
            let mut rane_t: usize = 0;
            let mut odpo_t: usize = 0;
            let mut d: usize = 0;
            while d < DNY
                invariant
                    d <= DNY,
                    w < 2,
                    q < zaci@.len(),
                    z == zaci@[q as int].0,
                    lim == limity_tridy(*skola, *v, v.zaci_tridy@[z]@),
                    odpo_od == odpoledne_od(*skola),
                    za_den == skola.nastaveni.limity_za_den,
                    occ@.len() == 2 * N_SLOTU,
                    poruseni_oduvodnena(*skola, *v, poruseni@),
                    poruseni_jedinecna(poruseni@),
                    v.zaci_tridy@.contains_key(z),
                    v.zaci_tridy@[z]@ == tr@,
                    forall|x: int| 0 <= x < 2 * N_SLOTU ==> #[trigger] occ@[x] == ma_hodinu(*v, z, tyden_x(x), hodina_x(x)),
                    max_blok <= SLOTU,
                    max_blok == blok_zaka(*v, z, w * DNY + d),
                    rane_t <= d,
                    odpo_t <= SLOTU * d,
                    rane_t == ranych_v_tydnu(*v, z, w as int, d as int),
                    odpo_t == odpolednich_v_tydnu(*v, z, w as int, d as int, odpo_od as int),
                    forall|k: int, w2: int, d2: int|
                        #![trigger porusuje_den(*skola, *v, zaci@[k].0, w2, d2)]
                        0 <= k < q && 0 <= w2 < 2 && 0 <= d2 < DNY && porusuje_den(*skola, *v, zaci@[k].0, w2, d2) ==> zaznamenan(poruseni@, zaci@[k].0, d2),
                    forall|k: int, w2: int|
                        #![trigger porusuje_tyden(*skola, *v, zaci@[k].0, w2)]
                        0 <= k < q && 0 <= w2 < 2 && porusuje_tyden(*skola, *v, zaci@[k].0, w2) ==> zaznamenan(poruseni@, zaci@[k].0, 99),
                    forall|w2: int, d2: int|
                        #![trigger porusuje_den(*skola, *v, z, w2, d2)]
                        0 <= w2 < w && 0 <= d2 < DNY && porusuje_den(*skola, *v, z, w2, d2) ==> zaznamenan(poruseni@, z, d2),
                    forall|w2: int|
                        #![trigger porusuje_tyden(*skola, *v, z, w2)]
                        0 <= w2 < w && porusuje_tyden(*skola, *v, z, w2) ==> zaznamenan(poruseni@, z, 99),
                    forall|d2: int|
                        #![trigger porusuje_den(*skola, *v, z, w as int, d2)]
                        0 <= d2 < d && porusuje_den(*skola, *v, z, w as int, d2) ==> zaznamenan(poruseni@, z, d2),
                    forall|k: int, w2: int, d: int, druh: Seq<char>|
                        #![trigger druh_v_tydnu(*skola, *v, zaci@[k].0, w2, d, druh)]
                        0 <= k < q && 0 <= w2 < 2 && druh_v_tydnu(*skola, *v, zaci@[k].0, w2, d, druh) ==> zapsan(poruseni@, zaci@[k].1@, druh, d, zaci@[k].0),
                    forall|w2: int, d: int, druh: Seq<char>|
                        #![trigger druh_v_tydnu(*skola, *v, z, w2, d, druh)]
                        0 <= w2 < w && druh_v_tydnu(*skola, *v, z, w2, d, druh) ==> zapsan(poruseni@, tr@, druh, d, z),
                    forall|d2: int, druh: Seq<char>|
                        #![trigger druh_v_tydnu(*skola, *v, z, w as int, d2, druh)]
                        0 <= d2 < d && druh_v_tydnu(*skola, *v, z, w as int, d2, druh) ==> zapsan(poruseni@, tr@, druh, d2, z),
                decreases DNY - d,
            {
                let (pocet, nejdelsi, rane, odpo, _) = den_zaka(&occ, w, d, odpo_od, false);
                proof {
                    lemma_den_zaka(occ@, *v, z, w as int, d as int);
                }
                let ghost p0 = poruseni@;
                let ghost den = den_zaka_v(*v, z, w as int, d as int);
                proof {
                    let kk = w * DNY + d + 1;
                    assert((kk - 1) / (DNY as int) == w && (kk - 1) % (DNY as int) == d) by (nonlinear_arith)
                        requires
                            kk == w * 5 + d + 1,
                            0 <= w < 2,
                            0 <= d < 5,
                    ;
                    assert(nejdelsi == nejdelsi_blok(den_zaka_v(*v, z, w as int, d as int), SLOTU as int));
                }
                if nejdelsi > max_blok {
                    max_blok = nejdelsi;
                }
                rane_t = rane_t + rane;
                odpo_t = odpo_t + odpo;
                if nejdelsi > MAX_RUN {
                    let c = cislo(nejdelsi as u64);
                    let casti = ["pravidlo 7 h (", c.as_str(), " h v kuse, ", tyden_nazev(w), ")"];
                    let t = spoj(&casti);
                    proof {
                        reveal_with_fuel(crate::text::spojeni, 6);
                        assert(casti@.map_values(|x: &str| x@) =~= seq![casti@[0]@, casti@[1]@, casti@[2]@, casti@[3]@, casti@[4]@]);
                        assert(casti@[3]@ == tyden_spec(w as int));
                        assert(druh_v_tydnu(*skola, *v, z, w as int, d as int, t@));
                        assert(t@ =~= "pravidlo 7 h ("@ + crate::text::desitkove(nejdelsi as nat) + " h v kuse, "@ + tyden_spec(w as int) + ")"@);
                    }
                    zapis_poruseni(&mut poruseni, tr, t, d, z, Ghost(*skola), Ghost(*v));
                }
                proof {
                    if nejdelsi > MAX_RUN {
                        assert(zapsan(poruseni@, tr@, "pravidlo 7 h ("@ + crate::text::desitkove(nejdelsi as nat) + " h v kuse, "@ + tyden_spec(w as int) + ")"@, d as int, z));
                    }
                }
                if pocet > MAX_DEN_TRIDA {
                    let c = cislo(pocet as u64);
                    let casti = ["více než 8 h za den (", c.as_str(), " h, ", tyden_nazev(w), ")"];
                    let t = spoj(&casti);
                    proof {
                        reveal_with_fuel(crate::text::spojeni, 6);
                        assert(casti@.map_values(|x: &str| x@) =~= seq![casti@[0]@, casti@[1]@, casti@[2]@, casti@[3]@, casti@[4]@]);
                        assert(casti@[3]@ == tyden_spec(w as int));
                        assert(druh_v_tydnu(*skola, *v, z, w as int, d as int, t@));
                        assert(t@ =~= "více než 8 h za den ("@ + crate::text::desitkove(pocet as nat) + " h, "@ + tyden_spec(w as int) + ")"@);
                    }
                    zapis_poruseni(&mut poruseni, tr, t, d, z, Ghost(*skola), Ghost(*v));
                }
                proof {
                    if pocet > MAX_DEN_TRIDA {
                        assert(zapsan(poruseni@, tr@, "více než 8 h za den ("@ + crate::text::desitkove(pocet as nat) + " h, "@ + tyden_spec(w as int) + ")"@, d as int, z));
                    }
                }
                if za_den {
                    match lim.rane {
                        Some(l) => {
                            if rane > l as usize {
                                let casti = ["limit raných hodin"];
                                let t = spoj(&casti);
                                proof {
                                    reveal_with_fuel(crate::text::spojeni, 2);
                                    assert(casti@.map_values(|x: &str| x@) =~= seq![casti@[0]@]);
                                    assert(druh_v_tydnu(*skola, *v, z, w as int, d as int, t@));
                                    assert(t@ =~= "limit raných hodin"@);
                                }
                                zapis_poruseni(&mut poruseni, tr, t, d, z, Ghost(*skola), Ghost(*v));
                            }
                        },
                        None => {},
                    }
                    proof {
                        if prekrocen(lim.rane, rane as int) {
                            assert(zapsan(poruseni@, tr@, "limit raných hodin"@, d as int, z));
                        }
                    }
                    match lim.odpoledni {
                        Some(l) => {
                            if odpo > l as usize {
                                let c = cislo(odpo as u64);
                                let cl = cislo(l as u64);
                                let casti = ["limit odpoledních hodin (", c.as_str(), " > ", cl.as_str(), ")"];
                                let t = spoj(&casti);
                                proof {
                                    reveal_with_fuel(crate::text::spojeni, 6);
                                    assert(casti@.map_values(|x: &str| x@) =~= seq![casti@[0]@, casti@[1]@, casti@[2]@, casti@[3]@, casti@[4]@]);
                                    assert(druh_v_tydnu(*skola, *v, z, w as int, d as int, t@));
                                    assert(t@ =~= "limit odpoledních hodin ("@ + crate::text::desitkove(odpo as nat) + " > "@ + crate::text::desitkove(l as nat) + ")"@);
                                }
                                zapis_poruseni(&mut poruseni, tr, t, d, z, Ghost(*skola), Ghost(*v));
                            }
                        },
                        None => {},
                    }
                    proof {
                        if prekrocen(lim.odpoledni, odpo as int) {
                            assert(zapsan(poruseni@, tr@, "limit odpoledních hodin ("@ + crate::text::desitkove(odpo as nat) + " > "@ + crate::text::desitkove(lim.odpoledni.unwrap() as nat) + ")"@, d as int, z));
                        }
                    }
                }
                proof {
                    if porusuje_den(*skola, *v, z, w as int, d as int) {
                        assert(zaznamenan(poruseni@, z, d as int));
                    }
                    assert forall|druh: Seq<char>| #[trigger] druh_v_tydnu(*skola, *v, z, w as int, d as int, druh) implies zapsan(
                        poruseni@,
                        tr@,
                        druh,
                        d as int,
                        z,
                    ) by {}
                }
                d = d + 1;
            }
            if !za_den {
                match lim.rane {
                    Some(l) => {
                        if rane_t > l as usize {
                            let casti = ["týdenní limit raných (", tyden_nazev(w), ")"];
                            let t = spoj(&casti);
                            proof {
                                reveal_with_fuel(crate::text::spojeni, 4);
                                assert(casti@.map_values(|x: &str| x@) =~= seq![casti@[0]@, casti@[1]@, casti@[2]@]);
                                assert(casti@[1]@ == tyden_spec(w as int));
                                assert(druh_v_tydnu(*skola, *v, z, w as int, 99, t@));
                                assert(t@ =~= "týdenní limit raných ("@ + tyden_spec(w as int) + ")"@);
                            }
                            zapis_poruseni(&mut poruseni, tr, t, 99, z, Ghost(*skola), Ghost(*v));
                        }
                    },
                    None => {},
                }
                proof {
                    if prekrocen(lim.rane, rane_t as int) {
                        assert(zapsan(poruseni@, tr@, "týdenní limit raných ("@ + tyden_spec(w as int) + ")"@, 99, z));
                    }
                }
                match lim.odpoledni {
                    Some(l) => {
                        if odpo_t > l as usize {
                            let casti = ["týdenní limit odpoledních (", tyden_nazev(w), ")"];
                            let t = spoj(&casti);
                            proof {
                                reveal_with_fuel(crate::text::spojeni, 4);
                                assert(casti@.map_values(|x: &str| x@) =~= seq![casti@[0]@, casti@[1]@, casti@[2]@]);
                                assert(casti@[1]@ == tyden_spec(w as int));
                                assert(druh_v_tydnu(*skola, *v, z, w as int, 99, t@));
                                assert(t@ =~= "týdenní limit odpoledních ("@ + tyden_spec(w as int) + ")"@);
                            }
                            zapis_poruseni(&mut poruseni, tr, t, 99, z, Ghost(*skola), Ghost(*v));
                        }
                    },
                    None => {},
                }
                proof {
                    if prekrocen(lim.odpoledni, odpo_t as int) {
                        assert(zapsan(poruseni@, tr@, "týdenní limit odpoledních ("@ + tyden_spec(w as int) + ")"@, 99, z));
                    }
                }
            }
            proof {
                assert forall|w2: int, d: int, druh: Seq<char>|
                    #![trigger druh_v_tydnu(*skola, *v, z, w2, d, druh)]
                    0 <= w2 < w + 1 && druh_v_tydnu(*skola, *v, z, w2, d, druh) implies zapsan(poruseni@, tr@, druh, d, z) by {
                    if w2 == w && !(0 <= d < DNY) {
                        assert(d == 99);
                    }
                }
            }
            w = w + 1;
        }
        let mut hodin: usize = 0;
        let mut rane_dny: usize = 0;
        let mut odpo: usize = 0;
        let mut okna: usize = 0;
        let mut d: usize = 0;
        while d < DNY
            invariant
                d <= DNY,
                occ@.len() == 2 * N_SLOTU,
                forall|x: int| 0 <= x < 2 * N_SLOTU ==> #[trigger] occ@[x] == ma_hodinu(*v, z, tyden_x(x), hodina_x(x)),
                rane_dny == ranych_dnu_zaka(*v, z, d as int),
                hodin <= SLOTU * d,
                rane_dny <= d,
                odpo <= SLOTU * d,
                okna <= SLOTU * d,
            decreases DNY - d,
        {
            let (c, _, r, o, ok) = den_zaka(&occ, 0, d, odpo_od, true);
            proof {
                let x0 = d * SLOTU;
                let x1 = N_SLOTU + d * SLOTU;
                assert(tyden_x(x0 as int) == 0 && hodina_x(x0 as int) == d * SLOTU && tyden_x(x1 as int) == 1 && hodina_x(x1 as int) == d
                    * SLOTU) by (nonlinear_arith)
                    requires
                        x0 == d * 12,
                        x1 == 60 + d * 12,
                        0 <= d < 5,
                        tyden_x(x0 as int) == x0 / 60,
                        hodina_x(x0 as int) == x0 % 60,
                        tyden_x(x1 as int) == x1 / 60,
                        hodina_x(x1 as int) == x1 % 60,
                ;
                assert(occ@[x0 as int] == ma_hodinu(*v, z, 0, d * SLOTU));
                assert(occ@[x1 as int] == ma_hodinu(*v, z, 1, d * SLOTU));
                assert(den_seq(occ@, 0, d as int, true)[0] == (occ@[x0 as int] || occ@[x1 as int]));
            }
            hodin = hodin + c;
            rane_dny = rane_dny + r;
            odpo = odpo + o;
            okna = okna + ok;
            d = d + 1;
        }
        let stat: StatZaka = (hodin, rane_dny, odpo, max_blok, okna);
        proof {
            assert(max_blok == blok_zaka(*v, z, 2 * DNY));
            assert(rane_dny == ranych_dnu_zaka(*v, z, DNY as int));
        }
        let mut k: usize = 0;
        let mut nalezeno = false;
        while k < stat_zaka.len() && !nalezeno
            invariant
                k <= stat_zaka@.len(),
                nalezeno ==> k < stat_zaka@.len() && stat_zaka@[k as int].0@ == tr@,
                forall|x: int| 0 <= x < k ==> (#[trigger] stat_zaka@[x]).0@ != tr@,
            decreases stat_zaka@.len() - k + (if nalezeno { 0int } else { 1int }),
        {
            if rovno(stat_zaka[k].0.as_str(), tr.as_str()) {
                nalezeno = true;
            } else {
                k = k + 1;
            }
        }
        let ghost g0 = stat_zaka@;
        if nalezeno {
            stat_zaka[k].1.push(stat);
            proof {
                assert forall|a2: int| 0 <= a2 < stat_zaka@.len() && a2 != k implies #[trigger] stat_zaka@[a2] == g0[a2] by {}
                assert(stat_zaka@[k as int].0 == g0[k as int].0);
                assert(stat_zaka@[k as int].1@ == g0[k as int].1@.push(stat));
            }
        } else {
            let mut s: Vec<StatZaka> = Vec::new();
            s.push(stat);
            stat_zaka.push((tr.clone(), s));
            proof {
                assert(stat_zaka@ == g0.push(stat_zaka@.last()));
                assert(stat_zaka@.last().1@ == seq![stat]);
            }
        }
        proof {
            assert(v.zaci_tridy@[z] == *tr);
            assert forall|a2: int| 0 <= a2 < stat_zaka@.len() implies (#[trigger] stat_zaka@[a2]).1@.len() > 0 by {
                if a2 < g0.len() && !(nalezeno && a2 == k) {
                    assert(stat_zaka@[a2] == g0[a2]);
                }
            }
            assert forall|a2: int, b2: int| 0 <= a2 < b2 < stat_zaka@.len() implies (#[trigger] stat_zaka@[a2]).0@ != (
            #[trigger] stat_zaka@[b2]).0@ by {
                if b2 < g0.len() {
                    assert(stat_zaka@[a2].0 == g0[a2].0);
                    assert(stat_zaka@[b2].0 == g0[b2].0);
                } else {
                    assert(stat_zaka@[a2].0 == g0[a2].0);
                }
            }
            assert forall|a2: int, j: int|
                0 <= a2 < stat_zaka@.len() && 0 <= j < stat_zaka@[a2].1@.len() implies stat_patri(
                    *v,
                    stat_zaka@[a2].0@,
                    #[trigger] stat_zaka@[a2].1@[j],
                ) by {
                if a2 < g0.len() && j < g0[a2].1@.len() {
                    assert(stat_zaka@[a2].0 == g0[a2].0);
                    assert(stat_zaka@[a2].1@[j] == g0[a2].1@[j]);
                    assert(stat_patri(*v, g0[a2].0@, g0[a2].1@[j]));
                } else {
                    assert(stat_zaka@[a2].1@[j] == stat);
                    assert(v.zaci_tridy@.contains_key(z));
                    assert(stat.3 == blok_zaka(*v, z, 2 * DNY));
                    assert(stat.1 == ranych_dnu_zaka(*v, z, DNY as int));
                }
            }
            assert forall|k2: int| 0 <= k2 < q + 1 implies ma_statistiku(*v, stat_zaka@, (#[trigger] zaci@[k2]).0) by {
                if k2 < q {
                    let z2 = zaci@[k2].0;
                    let (a2, j) = choose|a2: int, j: int|
                        0 <= a2 < g0.len() && 0 <= j < g0[a2].1@.len() && g0[a2].0@ == v.zaci_tridy@[z2]@ && (#[trigger] g0[a2].1@[j]).3
                            == blok_zaka(*v, z2, 2 * DNY) && g0[a2].1@[j].1 == ranych_dnu_zaka(*v, z2, DNY as int);
                    assert(stat_zaka@[a2].0 == g0[a2].0);
                    assert(stat_zaka@[a2].1@[j] == g0[a2].1@[j]);
                } else {
                    if nalezeno {
                        assert(stat_zaka@[k as int].1@[g0[k as int].1@.len() as int] == stat);
                    } else {
                        assert(stat_zaka@[g0.len() as int].1@[0] == stat);
                    }
                }
            }
            assert(skupiny_statistik(*v, stat_zaka@));
        }
        proof {
            assert forall|k: int, w2: int, d2: int|
                #![trigger porusuje_den(*skola, *v, zaci@[k].0, w2, d2)]
                0 <= k < q + 1 && 0 <= w2 < 2 && 0 <= d2 < DNY && porusuje_den(*skola, *v, zaci@[k].0, w2, d2) implies zaznamenan(poruseni@, zaci@[k].0, d2) by {
                if k == q {
                    assert(porusuje_den(*skola, *v, z, w2, d2));
                }
            }
            assert forall|k: int, w2: int|
                #![trigger porusuje_tyden(*skola, *v, zaci@[k].0, w2)]
                0 <= k < q + 1 && 0 <= w2 < 2 && porusuje_tyden(*skola, *v, zaci@[k].0, w2) implies zaznamenan(poruseni@, zaci@[k].0, 99) by {
                if k == q {
                    assert(porusuje_tyden(*skola, *v, z, w2));
                }
            }
            assert forall|k: int, w2: int, d: int, druh: Seq<char>|
                #![trigger druh_v_tydnu(*skola, *v, zaci@[k].0, w2, d, druh)]
                0 <= k < q + 1 && 0 <= w2 < 2 && druh_v_tydnu(*skola, *v, zaci@[k].0, w2, d, druh) implies zapsan(
                    poruseni@,
                    zaci@[k].1@,
                    druh,
                    d,
                    zaci@[k].0,
                ) by {
                if k == q {
                    assert(druh_v_tydnu(*skola, *v, z, w2, d, druh));
                }
            }
        }
        q = q + 1;
    }
    proof {
        assert forall|z: u32, w: int, d: int|
            #![trigger porusuje_den(*skola, *v, z, w, d)]
            v.zaci_tridy@.contains_key(z) && 0 <= w < 2 && 0 <= d < DNY && porusuje_den(*skola, *v, z, w, d) implies zaznamenan(poruseni@, z, d) by {
            let k = choose|k: int| 0 <= k < zaci@.len() && zaci@[k].0 == z;
            assert(porusuje_den(*skola, *v, zaci@[k].0, w, d));
        }
        assert forall|z: u32, w: int|
            #![trigger porusuje_tyden(*skola, *v, z, w)]
            v.zaci_tridy@.contains_key(z) && 0 <= w < 2 && porusuje_tyden(*skola, *v, z, w) implies zaznamenan(poruseni@, z, 99) by {
            let k = choose|k: int| 0 <= k < zaci@.len() && zaci@[k].0 == z;
            assert(porusuje_tyden(*skola, *v, zaci@[k].0, w));
        }
    }
    proof {
        assert forall|z: u32| #[trigger] v.zaci_tridy@.contains_key(z) implies ma_statistiku(*v, stat_zaka@, z) by {
            let k = choose|k: int| 0 <= k < zaci@.len() && zaci@[k].0 == z;
            assert(ma_statistiku(*v, stat_zaka@, zaci@[k].0));
        }
        assert forall|z: u32, w: int, d: int, druh: Seq<char>|
            #![trigger druh_v_tydnu(*skola, *v, z, w, d, druh)]
            v.zaci_tridy@.contains_key(z) && 0 <= w < 2 && druh_v_tydnu(*skola, *v, z, w, d, druh) implies zapsan(
                poruseni@,
                v.zaci_tridy@[z]@,
                druh,
                d,
                z,
            ) by {
            let k = choose|k: int| 0 <= k < zaci@.len() && zaci@[k].0 == z;
            assert(druh_v_tydnu(*skola, *v, zaci@[k].0, w, d, druh));
        }
    }
    (poruseni, stat_zaka, zaci)
}

/// Klíč lekce: učitel, nebo klíč předmětu.
pub open spec fn klic_lekce(l: crate::solver::LekceInfo, podle_ucitele: bool) -> Seq<char> {
    if podle_ucitele {
        l.ucitel@
    } else {
        l.klic_predmetu@
    }
}

/// Některá z prvních `n` lekcí s klíčem `k` je umístěná.
pub open spec fn ma_klic(v: Vysledek, podle_ucitele: bool, k: Seq<char>, n: int) -> bool {
    exists|x: int| 0 <= x < n && v.slot@[x].is_some() && #[trigger] klic_lekce(v.lekce@[x], podle_ucitele) == k
}

/// Některá z prvních `n` lekcí s klíčem `k` je umístěná a probíhá v hodině `t`.
pub open spec fn klic_v_hodine(v: Vysledek, podle_ucitele: bool, k: Seq<char>, n: int, t: int) -> bool {
    exists|x: int|
        0 <= x < n && #[trigger] klic_lekce(v.lekce@[x], podle_ucitele) == k && match v.slot@[x] {
            Some(s) => s <= t < s + v.lekce@[x].len,
            None => false,
        }
}

/// Hodina s klíčem po přidání lekce `i`: dřívější lekce, nebo lekce `i` s klíčem v hodině.
proof fn lemma_klic_v_hodine_krok(v: Vysledek, podle_ucitele: bool, k: Seq<char>, i: int, t: int)
    requires
        0 <= i,
    ensures
        klic_v_hodine(v, podle_ucitele, k, i + 1, t) == (klic_v_hodine(v, podle_ucitele, k, i, t) || (klic_lekce(v.lekce@[i], podle_ucitele) == k
            && match v.slot@[i] {
            Some(s) => s <= t < s + v.lekce@[i].len,
            None => false,
        })),
{
    if klic_v_hodine(v, podle_ucitele, k, i + 1, t) && !klic_v_hodine(v, podle_ucitele, k, i, t) {
        let x = choose|x: int|
            0 <= x < i + 1 && #[trigger] klic_lekce(v.lekce@[x], podle_ucitele) == k && match v.slot@[x] {
                Some(s) => s <= t < s + v.lekce@[x].len,
                None => false,
            };
        assert(x == i);
    }
    if klic_v_hodine(v, podle_ucitele, k, i, t) {
        let x = choose|x: int|
            0 <= x < i && #[trigger] klic_lekce(v.lekce@[x], podle_ucitele) == k && match v.slot@[x] {
                Some(s) => s <= t < s + v.lekce@[x].len,
                None => false,
            };
        assert(klic_v_hodine(v, podle_ucitele, k, i + 1, t));
    }
    if klic_lekce(v.lekce@[i], podle_ucitele) == k && match v.slot@[i] {
        Some(s) => s <= t < s + v.lekce@[i].len,
        None => false,
    } {
        assert(klic_v_hodine(v, podle_ucitele, k, i + 1, t));
    }
}

/// Obsazenost podle klíče (učitel nebo předmět): pro každý klíč hodiny týdne, kdy má
/// některou umístěnou lekci.
fn obsazenost_podle(v: &Vysledek, podle_ucitele: bool) -> (m: crate::mapa::Mapa<Vec<bool>>)
    requires
        rozvrh_ve_tydnu(*v),
    ensures
        m.dobre(),
        forall|k: int| 0 <= k < m.polozky@.len() ==> (#[trigger] m.polozky@[k]).1@.len() == N_SLOTU,
        forall|k: Seq<char>| m.ma(k) <==> ma_klic(*v, podle_ucitele, k, v.lekce@.len() as int),
        forall|k: Seq<char>, t: int| m.ma(k) && 0 <= t < N_SLOTU ==> (#[trigger] m.hodnota(k)@[t]) == klic_v_hodine(*v, podle_ucitele, k, v.lekce@.len() as int, t),
{
    let mut m: crate::mapa::Mapa<Vec<bool>> = crate::mapa::Mapa::new();
    let mut i: usize = 0;
    while i < v.lekce.len()
        invariant
            i <= v.lekce@.len(),
            rozvrh_ve_tydnu(*v),
            m.dobre(),
            forall|x: Seq<char>| m.ma(x) ==> m.hodnota(x)@.len() == N_SLOTU,
            forall|k: Seq<char>| m.ma(k) <==> ma_klic(*v, podle_ucitele, k, i as int),
            forall|k: Seq<char>, t: int| m.ma(k) && 0 <= t < N_SLOTU ==> (#[trigger] m.hodnota(k)@[t]) == klic_v_hodine(*v, podle_ucitele, k, i as int, t),
        decreases v.lekce@.len() - i,
    {
        let l = &v.lekce[i];
        let ghost m0 = m;
        match v.slot[i] {
            Some(s) => {
                let klic = if podle_ucitele { &l.ucitel } else { &l.klic_predmetu };
                let mut o: Vec<bool> = match m.get(klic.as_str()) {
                    Some(x) => x.clone(),
                    None => {
                        let mut x: Vec<bool> = Vec::new();
                        let mut k: usize = 0;
                        while k < N_SLOTU
                            invariant
                                k <= N_SLOTU,
                                x@.len() == k,
                                forall|q: int| 0 <= q < k ==> !x@[q],
                            decreases N_SLOTU - k,
                        {
                            x.push(false);
                            k = k + 1;
                        }
                        x
                    },
                };
                proof {
                    assert(o@.len() == N_SLOTU);
                    assert(klic@ == klic_lekce(v.lekce@[i as int], podle_ucitele));
                }
                let ghost o0 = o@;
                let ghost kl = klic@;
                proof {
                    assert forall|q: int| 0 <= q < N_SLOTU implies o0[q] == (m0.ma(kl) && klic_v_hodine(*v, podle_ucitele, kl, i as int, q)) by {
                        if !m0.ma(kl) {
                            if klic_v_hodine(*v, podle_ucitele, kl, i as int, q) {
                                let x = choose|x: int|
                                    0 <= x < i && #[trigger] klic_lekce(v.lekce@[x], podle_ucitele) == kl && match v.slot@[x] {
                                        Some(s) => s <= q < s + v.lekce@[x].len,
                                        None => false,
                                    };
                                assert(ma_klic(*v, podle_ucitele, kl, i as int));
                            }
                        }
                    }
                }
                let mut t = s as usize;
                while t < s as usize + l.len as usize
                    invariant
                        s <= t <= s + l.len,
                        s + l.len <= N_SLOTU,
                        o@.len() == N_SLOTU,
                        o0.len() == N_SLOTU,
                        forall|q: int| 0 <= q < N_SLOTU ==> #[trigger] o@[q] == (o0[q] || (s <= q < t)),
                    decreases s + l.len - t,
                {
                    o.set(t, true);
                    t = t + 1;
                }
                m.insert(klic.clone(), o);
                proof {
                    assert forall|k: Seq<char>| m.ma(k) <==> ma_klic(*v, podle_ucitele, k, i + 1) by {
                        if ma_klic(*v, podle_ucitele, k, i + 1) && k != kl {
                            let x = choose|x: int| 0 <= x < i + 1 && v.slot@[x].is_some() && #[trigger] klic_lekce(v.lekce@[x], podle_ucitele) == k;
                            assert(ma_klic(*v, podle_ucitele, k, i as int));
                        }
                        if k == kl {
                            assert(ma_klic(*v, podle_ucitele, k, i + 1)) by {
                                assert(klic_lekce(v.lekce@[i as int], podle_ucitele) == k);
                            }
                        }
                        if k != kl && ma_klic(*v, podle_ucitele, k, i as int) {
                            let x = choose|x: int| 0 <= x < i && v.slot@[x].is_some() && #[trigger] klic_lekce(v.lekce@[x], podle_ucitele) == k;
                            assert(ma_klic(*v, podle_ucitele, k, i + 1));
                        }
                    }
                    assert forall|k: Seq<char>, q: int| m.ma(k) && 0 <= q < N_SLOTU implies (#[trigger] m.hodnota(k)@[q]) == klic_v_hodine(*v, podle_ucitele, k, i + 1, q) by {
                        lemma_klic_v_hodine_krok(*v, podle_ucitele, k, i as int, q);
                        if k != kl {
                            assert(m0.ma(k));
                        }
                    }
                }
            },
            None => {
                proof {
                    assert forall|k: Seq<char>| m.ma(k) <==> ma_klic(*v, podle_ucitele, k, i + 1) by {
                        if ma_klic(*v, podle_ucitele, k, i + 1) {
                            let x = choose|x: int| 0 <= x < i + 1 && v.slot@[x].is_some() && #[trigger] klic_lekce(v.lekce@[x], podle_ucitele) == k;
                            assert(ma_klic(*v, podle_ucitele, k, i as int));
                        }
                        if ma_klic(*v, podle_ucitele, k, i as int) {
                            let x = choose|x: int| 0 <= x < i && v.slot@[x].is_some() && #[trigger] klic_lekce(v.lekce@[x], podle_ucitele) == k;
                            assert(ma_klic(*v, podle_ucitele, k, i + 1));
                        }
                    }
                    assert forall|k: Seq<char>, q: int| m.ma(k) && 0 <= q < N_SLOTU implies (#[trigger] m.hodnota(k)@[q]) == klic_v_hodine(*v, podle_ucitele, k, i + 1, q) by {
                        lemma_klic_v_hodine_krok(*v, podle_ucitele, k, i as int, q);
                    }
                }
            },
        }
        i = i + 1;
    }
    proof {
        assert forall|k: int| 0 <= k < m.polozky@.len() implies (#[trigger] m.polozky@[k]).1@.len() == N_SLOTU by {
            let x = m.polozky@[k].0@;
            assert(m.ma(x));
            m.lemma_jednoznacne(k, x);
        }
    }
    m
}

/// Počet obsazených hodin dne.
fn pocet_dne(o: &Vec<bool>, d: usize) -> (r: usize)
    requires
        o@.len() == N_SLOTU,
        d < DNY,
    ensures
        r <= SLOTU,
        r == obsazenych(Seq::new(SLOTU as nat, |k: int| o@[d * SLOTU + k]), SLOTU as int),
{
    let ghost sd = Seq::new(SLOTU as nat, |k: int| o@[d * SLOTU + k]);
    let mut r: usize = 0;
    let mut k: usize = 0;
    while k < SLOTU
        invariant
            k <= SLOTU,
            r <= k,
            o@.len() == N_SLOTU,
            d < DNY,
            sd == Seq::new(SLOTU as nat, |k: int| o@[d * SLOTU + k]),
            r == obsazenych(sd, k as int),
        decreases SLOTU - k,
    {
        if o[d * SLOTU + k] {
            r = r + 1;
        }
        k = k + 1;
    }
    r
}

/// Učitel lekce má volno v některé její hodině.
pub open spec fn volno_ucitele(skola: &Skola, v: Vysledek, i: int) -> bool {
    let u = crate::data::index_ucitele(skola.ucitele@, v.lekce@[i].ucitel@);
    match v.slot@[i] {
        Some(s) => u >= 0 && exists|t: int| s <= t < s + v.lekce@[i].len && #[trigger] skola.ucitele@[u].volno@.contains(t as u8),
        None => false,
    }
}

/// Umístěná lekce `i` má místnost, která pro ni není povolená.
pub open spec fn nevhodna_mistnost(skola: Skola, v: Vysledek, i: int) -> bool {
    v.slot@[i].is_some() && match v.mistnost@[i] {
        Some(r) => !crate::solver::jednou(crate::solver::poradi_mistnosti(skola, v.lekce@[i])).contains(r@),
        None => false,
    }
}

/// Mezi problémy je text `t`.
pub open spec fn hlasi(problemy: Seq<String>, t: Seq<char>) -> bool {
    exists|j: int| 0 <= j < problemy.len() && (#[trigger] problemy[j])@ == t
}

/// Text problému neumístěné lekce.
pub open spec fn text_neumistene(l: crate::solver::LekceInfo) -> Seq<char> {
    "Neumístěná lekce: "@ + crate::solver::popis_spec(l)
}

/// Text problému kolize místnosti lekcí `a` a `b` od hodiny `t`.
pub open spec fn text_kolize_mistnosti(v: Vysledek, a: int, b: int, t: int) -> Seq<char> {
    "Kolize místnosti "@ + v.mistnost@[a].unwrap()@ + ": "@ + crate::solver::popis_spec(v.lekce@[a]) + " × "@
        + crate::solver::popis_spec(v.lekce@[b]) + " – "@ + kdy_spec(t)
}

/// Text problému kolize žáků lekcí `a` a `b` od hodiny `t` (`c` společných žáků).
pub open spec fn text_kolize_zaku(v: Vysledek, a: int, b: int, t: int, c: nat) -> Seq<char> {
    "Kolize žáků: "@ + crate::solver::popis_spec(v.lekce@[a]) + " × "@ + crate::solver::popis_spec(v.lekce@[b]) + " – "@
        + kdy_spec(t) + " ("@ + crate::text::desitkove(c) + " žáků)"@
}

/// Den v textu porušení: zkratka dne, jinak celý týden.
pub open spec fn den_text(d: int) -> Seq<char> {
    if 0 <= d < DNY {
        crate::data::nazev_dne_spec(d)
    } else {
        "týden"@
    }
}

/// Kdo porušení má: třída zastoupená jen zástupními žáky, jinak počet žáků.
pub open spec fn kdo_text(virt: bool, c: nat) -> Seq<char> {
    if virt {
        "třída (zástupní žáci)"@
    } else {
        crate::text::desitkove(c) + " žáků"@
    }
}

/// Text problému porušení pravidla žáků: název třídy, druh, den a kdo.
pub open spec fn text_poruseni(skola: Skola, tr: Seq<char>, druh: Seq<char>, d: int, kdo: Seq<char>) -> Seq<char> {
    crate::export::nazev_tridy_spec(skola, tr) + ": "@ + druh + " – "@ + den_text(d) + ", "@ + kdo
}

/// Text problému lekce ve volnu učitele v hodině `t`.
pub open spec fn text_volna(v: Vysledek, i: int, t: int) -> Seq<char> {
    "Učitel "@ + v.lekce@[i].ucitel@ + " má volno: "@ + crate::solver::popis_spec(v.lekce@[i]) + " – "@ + kdy_spec(t)
}

/// Text problému překročeného denního maxima učitele `u`.
pub open spec fn text_max_ucitele(u: Seq<char>, c: nat, d: int, m: nat) -> Seq<char> {
    "Učitel "@ + u + " má "@ + crate::text::desitkove(c) + " h v "@ + crate::data::nazev_dne_spec(d) + " (max "@
        + crate::text::desitkove(m) + ")."@
}

/// Text problému víc než dvou hodin stejného předmětu za den.
pub open spec fn text_predmetu(l: crate::solver::LekceInfo, d: int, c: nat) -> Seq<char> {
    "Více než 2 h stejného předmětu za den: "@ + crate::solver::popis_spec(l) + " – "@ + crate::data::nazev_dne_spec(d) + " ("@
        + crate::text::desitkove(c) + " h)."@
}

/// Text problému umístěné lekce bez místnosti.
pub open spec fn text_bez_mistnosti(l: crate::solver::LekceInfo, t: int) -> Seq<char> {
    "Bez vhodné místnosti: "@ + crate::solver::popis_spec(l) + " – "@ + kdy_spec(t)
}

/// Text problému nevhodné místnosti `r`.
pub open spec fn text_nevhodne(r: Seq<char>, l: crate::solver::LekceInfo) -> Seq<char> {
    "Nevhodná místnost "@ + r + " pro "@ + crate::solver::popis_spec(l)
}

/// Umístěná lekce `i` probíhá v hodině `t`, kterou má její učitel volnou.
pub open spec fn ve_volnu(skola: Skola, v: Vysledek, i: int, t: int) -> bool {
    match v.slot@[i] {
        Some(s) => s <= t < s + v.lekce@[i].len && crate::data::index_ucitele(skola.ucitele@, v.lekce@[i].ucitel@) >= 0
            && skola.ucitele@[crate::data::index_ucitele(skola.ucitele@, v.lekce@[i].ucitel@)].volno@.contains(t as u8),
        None => false,
    }
}

/// Počet hodin dne `d`, ve kterých probíhá některá umístěná lekce s klíčem `k` (učitel,
/// nebo klíč předmětu).
pub open spec fn hodin_dne(v: Vysledek, podle_ucitele: bool, k: Seq<char>, d: int) -> nat {
    obsazenych(
        Seq::new(SLOTU as nat, |j: int| klic_v_hodine(v, podle_ucitele, k, v.lekce@.len() as int, d * SLOTU + j)),
        SLOTU as int,
    )
}

/// Denní maximum hodin učitele `u`: jeho vlastní, neznámý učitel 8.
pub open spec fn max_ucitele(skola: Skola, u: Seq<char>) -> nat {
    let x = crate::data::index_ucitele(skola.ucitele@, u);
    if x >= 0 {
        skola.ucitele@[x].max_den as nat
    } else {
        8
    }
}

/// Klíč `key` je mezi prvními `k` položkami obsazenosti.
pub open spec fn hotovy_klic(p: Seq<(String, Vec<bool>)>, k: int, key: Seq<char>) -> bool {
    exists|kk: int| 0 <= kk < k && (#[trigger] p[kk]).0@ == key
}

/// Lekce `i` je první lekcí se svým klíčem předmětu.
pub open spec fn prvni_predmetu(v: Vysledek, i: int) -> bool {
    forall|j: int| 0 <= j < i ==> (#[trigger] v.lekce@[j]).klic_predmetu@ != v.lekce@[i].klic_predmetu@
}

/// Každá chyba rozvrhu je mezi problémy `p` nahlášená svým textem: neumístěná lekce, kolize
/// učitele, místnosti i žáků, porušení pravidla u žáka, lekce ve volnu učitele, denní hodiny
/// učitele nad jeho maximum (se skutečným počtem), víc než dvě hodiny předmětu za den (u první
/// lekce předmětu, se skutečným počtem), lekce bez místnosti i v nevhodné místnosti.
pub open spec fn hlaseni_uplna(skola: Skola, v: Vysledek, p: Seq<String>) -> bool {
    let n = v.lekce@.len();
    &&& forall|i: int| 0 <= i < n && v.slot@[i].is_none() ==> hlasi(p, text_neumistene(#[trigger] v.lekce@[i]))
    &&& forall|a: int, b: int|
        0 <= a < b < n && prekryti(v, a, b) && v.lekce@[a].ucitel@ == v.lekce@[b].ucitel@ ==> #[trigger] hlasi(
            p,
            text_kolize_ucitele(v, a, b, zacatek_prekryti(v, a, b)),
        )
    &&& forall|a: int, b: int|
        0 <= a < b < n && prekryti(v, a, b) && stejna_mistnost(v, a, b) ==> #[trigger] hlasi(
            p,
            text_kolize_mistnosti(v, a, b, zacatek_prekryti(v, a, b)),
        )
    &&& forall|a: int, b: int|
        0 <= a < b < n && prekryti(v, a, b) && spolecny_zak(v, a, b) ==> #[trigger] hlasi(
            p,
            text_kolize_zaku(v, a, b, zacatek_prekryti(v, a, b), spolecnych_spec(v.lekce@[a].zaci@, v.lekce@[b].zaci@)),
        )
    &&& forall|z: u32, w: int, d: int, druh: Seq<char>|
        #![trigger druh_v_tydnu(skola, v, z, w, d, druh)]
        v.zaci_tridy@.contains_key(z) && 0 <= w < 2 && druh_v_tydnu(skola, v, z, w, d, druh) ==> nahlaseno_poruseni(
            skola,
            v,
            p,
            v.zaci_tridy@[z]@,
            druh,
            d,
        )
    &&& forall|i: int, t: int| 0 <= i < n && #[trigger] ve_volnu(skola, v, i, t) ==> hlasi(p, text_volna(v, i, t))
    &&& forall|i: int, d: int|
        0 <= i < n && 0 <= d < DNY && #[trigger] hodin_dne(v, true, v.lekce@[i].ucitel@, d) > max_ucitele(skola, v.lekce@[i].ucitel@)
            ==> hlasi(
            p,
            text_max_ucitele(v.lekce@[i].ucitel@, hodin_dne(v, true, v.lekce@[i].ucitel@, d), d, max_ucitele(skola, v.lekce@[i].ucitel@)),
        )
    &&& forall|i: int, d: int|
        0 <= i < n && 0 <= d < DNY && prvni_predmetu(v, i) && #[trigger] hodin_dne(v, false, v.lekce@[i].klic_predmetu@, d)
            > MAX_STEJNY_PREDMET_DEN ==> hlasi(p, text_predmetu(v.lekce@[i], d, hodin_dne(v, false, v.lekce@[i].klic_predmetu@, d)))
    &&& forall|i: int|
        0 <= i < n && v.slot@[i].is_some() && v.mistnost@[i].is_none() ==> hlasi(
            p,
            #[trigger] text_bez_mistnosti(v.lekce@[i], v.slot@[i].unwrap() as int),
        )
    &&& forall|i: int|
        0 <= i < n && #[trigger] nevhodna_mistnost(skola, v, i) ==> hlasi(p, text_nevhodne(v.mistnost@[i].unwrap()@, v.lekce@[i]))
}

/// Text problému odpovídá skutečné chybě rozvrhu: neumístěné lekci, kolizi (učitele, místnosti,
/// žáků) dvou lekcí, které se opravdu překrývají, porušení pravidla u žáka té třídy, volnu
/// učitele v hodině lekce, denním hodinám učitele nad jeho maximum (s oběma počty), víc než
/// dvěma hodinám předmětu za den (u první lekce předmětu, se skutečným počtem hodin), lekci bez
/// místnosti nebo v nevhodné místnosti.
pub open spec fn opravneny(skola: Skola, v: Vysledek, p: Seq<char>) -> bool {
    let n = v.lekce@.len();
    ||| exists|i: int| 0 <= i < n && v.slot@[i].is_none() && p == #[trigger] text_neumistene(v.lekce@[i])
    ||| exists|a: int, b: int|
        0 <= a < b < n && #[trigger] prekryti(v, a, b) && {
            ||| v.lekce@[a].ucitel@ == v.lekce@[b].ucitel@ && p == text_kolize_ucitele(v, a, b, zacatek_prekryti(v, a, b))
            ||| stejna_mistnost(v, a, b) && p == text_kolize_mistnosti(v, a, b, zacatek_prekryti(v, a, b))
            ||| spolecny_zak(v, a, b) && p == text_kolize_zaku(
                v,
                a,
                b,
                zacatek_prekryti(v, a, b),
                spolecnych_spec(v.lekce@[a].zaci@, v.lekce@[b].zaci@),
            )
        }
    ||| exists|z: u32, d: int, druh: Seq<char>, virt: bool, c: nat|
        v.zaci_tridy@.contains_key(z) && c > 0 && druh_oduvodnen(skola, v, z, d, druh) && p == #[trigger] text_poruseni(
            skola,
            v.zaci_tridy@[z]@,
            druh,
            d,
            kdo_text(virt, c),
        )
    ||| exists|i: int, t: int| 0 <= i < n && #[trigger] text_volna(v, i, t) == p && ve_volnu(skola, v, i, t)
    ||| exists|i: int, d: int|
        0 <= i < n && 0 <= d < DNY && hodin_dne(v, true, v.lekce@[i].ucitel@, d) > max_ucitele(skola, v.lekce@[i].ucitel@) && p
            == #[trigger] text_max_ucitele(
            v.lekce@[i].ucitel@,
            hodin_dne(v, true, v.lekce@[i].ucitel@, d),
            d,
            max_ucitele(skola, v.lekce@[i].ucitel@),
        )
    ||| exists|i: int, d: int|
        0 <= i < n && 0 <= d < DNY && prvni_predmetu(v, i) && hodin_dne(v, false, v.lekce@[i].klic_predmetu@, d)
            > MAX_STEJNY_PREDMET_DEN && p == #[trigger] text_predmetu(v.lekce@[i], d, hodin_dne(v, false, v.lekce@[i].klic_predmetu@, d))
    ||| exists|i: int|
        0 <= i < n && v.slot@[i].is_some() && v.mistnost@[i].is_none() && p == #[trigger] text_bez_mistnosti(
            v.lekce@[i],
            v.slot@[i].unwrap() as int,
        )
    ||| exists|i: int|
        0 <= i < n && nevhodna_mistnost(skola, v, i) && p == #[trigger] text_nevhodne(v.mistnost@[i].unwrap()@, v.lekce@[i])
}

/// `u` je učitel některé lekce.
pub open spec fn ucitel_lekce(v: Vysledek, u: Seq<char>) -> bool {
    exists|x: int| 0 <= x < v.lekce@.len() && v.lekce@[x].ucitel@ == u
}

/// Žáci třídy `tr`, u kterých nastalo porušení druhu `druh` dne `d`.
pub open spec fn porusitele(skola: Skola, v: Vysledek, tr: Seq<char>, druh: Seq<char>, d: int) -> Set<u32> {
    Set::new(|z: u32| v.zaci_tridy@.contains_key(z) && v.zaci_tridy@[z]@ == tr && druh_oduvodnen(skola, v, z, d, druh))
}

/// Mezi problémy je text porušení třídy `tr`, druhu `druh` a dne `d` s počtem dotčených žáků,
/// nebo se zněním pro zástupní žáky, když jsou zástupní všichni dotčení.
pub open spec fn nahlaseno_poruseni(skola: Skola, v: Vysledek, p: Seq<String>, tr: Seq<char>, druh: Seq<char>, d: int) -> bool {
    let st = porusitele(skola, v, tr, druh, d);
    hlasi(
        p,
        text_poruseni(skola, tr, druh, d, kdo_text(forall|z: u32| #[trigger] st.contains(z) ==> v.virtualni_zaci@.contains(z), st.len())),
    )
}

/// Nahlášený text zůstane nahlášený i v seznamu, který ten původní prodlužuje.
proof fn lemma_hlasi_prefix(p: Seq<String>, q: Seq<String>, t: Seq<char>)
    requires
        q.len() >= p.len(),
        forall|j: int| 0 <= j < p.len() ==> #[trigger] q[j] == p[j],
        hlasi(p, t),
    ensures
        hlasi(q, t),
{
    let j = choose|j: int| 0 <= j < p.len() && (#[trigger] p[j])@ == t;
    assert(q[j] == p[j]);
}

/// Počty hodin dne závisí jen na lekcích a jejich začátcích.
pub proof fn lemma_hodin_dne_stejne(a: Vysledek, b: Vysledek)
    requires
        a.lekce@ == b.lekce@,
        a.slot@ == b.slot@,
    ensures
        forall|pu: bool, k: Seq<char>, d: int| #[trigger] hodin_dne(a, pu, k, d) == hodin_dne(b, pu, k, d),
{
    assert forall|pu: bool, k: Seq<char>, d: int| #[trigger] hodin_dne(a, pu, k, d) == hodin_dne(b, pu, k, d) by {
        let n = a.lekce@.len() as int;
        assert forall|t: int| klic_v_hodine(a, pu, k, n, t) == klic_v_hodine(b, pu, k, n, t) by {
            if klic_v_hodine(a, pu, k, n, t) {
                let x = choose|x: int|
                    0 <= x < n && #[trigger] klic_lekce(a.lekce@[x], pu) == k && match a.slot@[x] {
                        Some(s) => s <= t < s + a.lekce@[x].len,
                        None => false,
                    };
                assert(klic_lekce(b.lekce@[x], pu) == k);
            }
            if klic_v_hodine(b, pu, k, n, t) {
                let x = choose|x: int|
                    0 <= x < n && #[trigger] klic_lekce(b.lekce@[x], pu) == k && match b.slot@[x] {
                        Some(s) => s <= t < s + b.lekce@[x].len,
                        None => false,
                    };
                assert(klic_lekce(a.lekce@[x], pu) == k);
            }
        }
        assert(Seq::new(SLOTU as nat, |j: int| klic_v_hodine(a, pu, k, n, d * SLOTU + j)) =~= Seq::new(
            SLOTU as nat,
            |j: int| klic_v_hodine(b, pu, k, b.lekce@.len() as int, d * SLOTU + j),
        ));
    }
}

/// Počet obsazených hodin je kladný, jen když je některá hodina obsazená.
proof fn lemma_obsazenych_kladne(s: Seq<bool>, k: int)
    requires
        obsazenych(s, k) > 0,
    ensures
        exists|j: int| 0 <= j < k && #[trigger] s[j],
    decreases k,
{
    if k > 0 && !s[k - 1] {
        lemma_obsazenych_kladne(s, k - 1);
        let j = choose|j: int| 0 <= j < k - 1 && #[trigger] s[j];
        assert(s[j]);
    }
}

/// Kladný počet hodin dne s klíčem znamená umístěnou lekci s tím klíčem.
proof fn lemma_hodin_dne_ma_klic(v: Vysledek, pu: bool, k: Seq<char>, d: int)
    requires
        hodin_dne(v, pu, k, d) > 0,
    ensures
        ma_klic(v, pu, k, v.lekce@.len() as int),
{
    let n = v.lekce@.len() as int;
    let sq = Seq::new(SLOTU as nat, |j: int| klic_v_hodine(v, pu, k, n, d * SLOTU + j));
    lemma_obsazenych_kladne(sq, SLOTU as int);
    let j = choose|j: int| 0 <= j < SLOTU && #[trigger] sq[j];
    assert(klic_v_hodine(v, pu, k, n, d * SLOTU + j));
    let x = choose|x: int|
        0 <= x < n && #[trigger] klic_lekce(v.lekce@[x], pu) == k && match v.slot@[x] {
            Some(s) => s <= d * SLOTU + j < s + v.lekce@[x].len,
            None => false,
        };
    assert(v.slot@[x].is_some());
}

/// Položka dobře utvořené mapy je hodnotou svého klíče.
proof fn lemma_hodnota_polozky<V>(m: crate::mapa::Mapa<V>, kk: int)
    requires
        m.dobre(),
        0 <= kk < m.polozky@.len(),
    ensures
        m.ma(m.polozky@[kk].0@),
        m.hodnota(m.polozky@[kk].0@) == m.polozky@[kk].1,
{
    let k = m.polozky@[kk].0@;
    assert(m.polozky@[kk].0@ == k);
    let i = m.index_klice(k);
    assert(m.klice()[i] == m.polozky@[i].0@);
    assert(m.klice()[kk] == m.polozky@[kk].0@);
    crate::mapa::lemma_lex_ireflexivni(k);
    if i < kk {
        assert(crate::text::lex_mensi(m.klice()[i], m.klice()[kk]));
    } else if kk < i {
        assert(crate::text::lex_mensi(m.klice()[kk], m.klice()[i]));
    }
}

/// Úplnost hlášení závisí jen na lekcích, rozvrhu, místnostech, třídách žáků a limitech.
pub proof fn lemma_uplna_stejne(skola: Skola, a: Vysledek, b: Vysledek, p: Seq<String>)
    requires
        a.lekce@ == b.lekce@,
        a.slot@ == b.slot@,
        a.mistnost@ == b.mistnost@,
        a.zaci_tridy@ == b.zaci_tridy@,
        a.limity == b.limity,
        a.virtualni_zaci@ == b.virtualni_zaci@,
        hlaseni_uplna(skola, a, p),
    ensures
        hlaseni_uplna(skola, b, p),
{
    assert forall|i: int, j: int| prekryti(a, i, j) == prekryti(b, i, j) && zacatek_prekryti(a, i, j) == zacatek_prekryti(b, i, j)
        && stejna_mistnost(a, i, j) == stejna_mistnost(b, i, j) && spolecny_zak(a, i, j) == spolecny_zak(b, i, j) by {}
    assert forall|i: int, j: int, t: int| text_kolize_ucitele(a, i, j, t) == text_kolize_ucitele(b, i, j, t)
        && text_kolize_mistnosti(a, i, j, t) == text_kolize_mistnosti(b, i, j, t) && text_volna(a, i, t) == text_volna(b, i, t) by {}
    assert forall|i: int, j: int, t: int, c: nat| text_kolize_zaku(a, i, j, t, c) == text_kolize_zaku(b, i, j, t, c) by {}
    lemma_hodin_dne_stejne(a, b);
    assert forall|z: u32, w: int, t: int| ma_hodinu(a, z, w, t) == ma_hodinu(b, z, w, t) by {
        if ma_hodinu(a, z, w, t) {
            let i = choose|i: int| 0 <= i < a.lekce@.len() && #[trigger] zamestna(a, i, z, w, t);
            assert(zamestna(b, i, z, w, t));
        }
        if ma_hodinu(b, z, w, t) {
            let i = choose|i: int| 0 <= i < b.lekce@.len() && #[trigger] zamestna(b, i, z, w, t);
            assert(zamestna(a, i, z, w, t));
        }
    }
    assert forall|z: u32, w: int, d: int| den_zaka_v(a, z, w, d) == den_zaka_v(b, z, w, d) by {
        assert(den_zaka_v(a, z, w, d) =~= den_zaka_v(b, z, w, d));
    }
    assert forall|z: u32, w: int, d: int, druh: Seq<char>| druh_v_tydnu(skola, a, z, w, d, druh) == druh_v_tydnu(skola, b, z, w, d, druh) by {
        assert forall|dd: int| ranych_v_tydnu(a, z, w, dd) == ranych_v_tydnu(b, z, w, dd) by {
            lemma_ranych_stejne(a, b, z, w, dd);
        }
        assert forall|dd: int, od: int| odpolednich_v_tydnu(a, z, w, dd, od) == odpolednich_v_tydnu(b, z, w, dd, od) by {
            lemma_odpolednich_stejne(a, b, z, w, dd, od);
        }
    }
    assert forall|z: u32, d: int, druh: Seq<char>| druh_oduvodnen(skola, a, z, d, druh) == druh_oduvodnen(skola, b, z, d, druh) by {
        if druh_oduvodnen(skola, a, z, d, druh) {
            let w = choose|w: int| 0 <= w < 2 && #[trigger] druh_v_tydnu(skola, a, z, w, d, druh);
            assert(druh_v_tydnu(skola, b, z, w, d, druh));
        }
        if druh_oduvodnen(skola, b, z, d, druh) {
            let w = choose|w: int| 0 <= w < 2 && #[trigger] druh_v_tydnu(skola, b, z, w, d, druh);
            assert(druh_v_tydnu(skola, a, z, w, d, druh));
        }
    }
    assert forall|i: int| nevhodna_mistnost(skola, a, i) == nevhodna_mistnost(skola, b, i) by {}
    assert forall|i: int, t: int| ve_volnu(skola, a, i, t) == ve_volnu(skola, b, i, t) by {}
    assert forall|i: int| prvni_predmetu(a, i) == prvni_predmetu(b, i) by {}
    let n = a.lekce@.len();
    assert forall|i: int| 0 <= i < n && b.slot@[i].is_none() implies hlasi(p, text_neumistene(#[trigger] b.lekce@[i])) by {
        assert(a.lekce@[i] == b.lekce@[i]);
    }
    assert forall|x: int, y: int|
        0 <= x < y < n && prekryti(b, x, y) && b.lekce@[x].ucitel@ == b.lekce@[y].ucitel@ implies #[trigger] hlasi(
            p,
            text_kolize_ucitele(b, x, y, zacatek_prekryti(b, x, y)),
        ) by {
        assert(prekryti(a, x, y) && a.lekce@[x].ucitel@ == a.lekce@[y].ucitel@);
        assert(text_kolize_ucitele(a, x, y, zacatek_prekryti(a, x, y)) == text_kolize_ucitele(b, x, y, zacatek_prekryti(b, x, y)));
    }
    assert forall|x: int, y: int|
        0 <= x < y < n && prekryti(b, x, y) && stejna_mistnost(b, x, y) implies #[trigger] hlasi(
            p,
            text_kolize_mistnosti(b, x, y, zacatek_prekryti(b, x, y)),
        ) by {
        assert(prekryti(a, x, y) && stejna_mistnost(a, x, y));
        assert(text_kolize_mistnosti(a, x, y, zacatek_prekryti(a, x, y)) == text_kolize_mistnosti(b, x, y, zacatek_prekryti(b, x, y)));
    }
    assert forall|x: int, y: int|
        0 <= x < y < n && prekryti(b, x, y) && spolecny_zak(b, x, y) implies #[trigger] hlasi(
            p,
            text_kolize_zaku(b, x, y, zacatek_prekryti(b, x, y), spolecnych_spec(b.lekce@[x].zaci@, b.lekce@[y].zaci@)),
        ) by {
        assert(prekryti(a, x, y) && spolecny_zak(a, x, y));
        assert(text_kolize_zaku(a, x, y, zacatek_prekryti(a, x, y), spolecnych_spec(a.lekce@[x].zaci@, a.lekce@[y].zaci@))
            == text_kolize_zaku(b, x, y, zacatek_prekryti(b, x, y), spolecnych_spec(b.lekce@[x].zaci@, b.lekce@[y].zaci@)));
    }
    assert forall|z: u32, w: int, d: int, druh: Seq<char>|
        #![trigger druh_v_tydnu(skola, b, z, w, d, druh)]
        b.zaci_tridy@.contains_key(z) && 0 <= w < 2 && druh_v_tydnu(skola, b, z, w, d, druh) implies nahlaseno_poruseni(
            skola,
            b,
            p,
            b.zaci_tridy@[z]@,
            druh,
            d,
        ) by {
        assert(druh_v_tydnu(skola, a, z, w, d, druh));
        assert(porusitele(skola, a, b.zaci_tridy@[z]@, druh, d) =~= porusitele(skola, b, b.zaci_tridy@[z]@, druh, d));
    }
    assert forall|i: int, t: int| 0 <= i < n && #[trigger] ve_volnu(skola, b, i, t) implies hlasi(p, text_volna(b, i, t)) by {
        assert(ve_volnu(skola, a, i, t));
        assert(text_volna(a, i, t) == text_volna(b, i, t));
    }
    assert forall|i: int, d: int|
        0 <= i < n && 0 <= d < DNY && #[trigger] hodin_dne(b, true, b.lekce@[i].ucitel@, d) > max_ucitele(skola, b.lekce@[i].ucitel@)
            implies hlasi(
            p,
            text_max_ucitele(b.lekce@[i].ucitel@, hodin_dne(b, true, b.lekce@[i].ucitel@, d), d, max_ucitele(skola, b.lekce@[i].ucitel@)),
        ) by {
        assert(hodin_dne(a, true, a.lekce@[i].ucitel@, d) == hodin_dne(b, true, b.lekce@[i].ucitel@, d));
    }
    assert forall|i: int, d: int|
        0 <= i < n && 0 <= d < DNY && prvni_predmetu(b, i) && #[trigger] hodin_dne(b, false, b.lekce@[i].klic_predmetu@, d)
            > MAX_STEJNY_PREDMET_DEN implies hlasi(p, text_predmetu(b.lekce@[i], d, hodin_dne(b, false, b.lekce@[i].klic_predmetu@, d))) by {
        assert(prvni_predmetu(a, i));
        assert(hodin_dne(a, false, a.lekce@[i].klic_predmetu@, d) == hodin_dne(b, false, b.lekce@[i].klic_predmetu@, d));
    }
    assert forall|i: int|
        0 <= i < n && b.slot@[i].is_some() && b.mistnost@[i].is_none() implies hlasi(
            p,
            #[trigger] text_bez_mistnosti(b.lekce@[i], b.slot@[i].unwrap() as int),
        ) by {
        assert(a.lekce@[i] == b.lekce@[i]);
    }
    assert forall|i: int| 0 <= i < n && #[trigger] nevhodna_mistnost(skola, b, i) implies hlasi(p, text_nevhodne(b.mistnost@[i].unwrap()@, b.lekce@[i])) by {
        assert(nevhodna_mistnost(skola, a, i));
        assert(a.lekce@[i] == b.lekce@[i]);
    }
}

/// Oprávněnost textu závisí jen na lekcích, rozvrhu, místnostech, třídách žáků a limitech.
pub proof fn lemma_opravneny_stejne(skola: Skola, a: Vysledek, b: Vysledek, p: Seq<char>)
    requires
        a.lekce@ == b.lekce@,
        a.slot@ == b.slot@,
        a.mistnost@ == b.mistnost@,
        a.zaci_tridy@ == b.zaci_tridy@,
        a.limity == b.limity,
        opravneny(skola, a, p),
    ensures
        opravneny(skola, b, p),
{
    assert forall|i: int, j: int| prekryti(a, i, j) == prekryti(b, i, j) && zacatek_prekryti(a, i, j) == zacatek_prekryti(b, i, j)
        && stejna_mistnost(a, i, j) == stejna_mistnost(b, i, j) && spolecny_zak(a, i, j) == spolecny_zak(b, i, j) by {}
    assert forall|i: int, j: int, t: int| text_kolize_ucitele(a, i, j, t) == text_kolize_ucitele(b, i, j, t)
        && text_kolize_mistnosti(a, i, j, t) == text_kolize_mistnosti(b, i, j, t) && text_volna(a, i, t) == text_volna(b, i, t) by {}
    assert forall|i: int, j: int, t: int, c: nat| text_kolize_zaku(a, i, j, t, c) == text_kolize_zaku(b, i, j, t, c) by {}
    lemma_hodin_dne_stejne(a, b);
    assert forall|z: u32, w: int, t: int| ma_hodinu(a, z, w, t) == ma_hodinu(b, z, w, t) by {
        if ma_hodinu(a, z, w, t) {
            let i = choose|i: int| 0 <= i < a.lekce@.len() && #[trigger] zamestna(a, i, z, w, t);
            assert(zamestna(b, i, z, w, t));
        }
        if ma_hodinu(b, z, w, t) {
            let i = choose|i: int| 0 <= i < b.lekce@.len() && #[trigger] zamestna(b, i, z, w, t);
            assert(zamestna(a, i, z, w, t));
        }
    }
    assert forall|z: u32, w: int, d: int| den_zaka_v(a, z, w, d) == den_zaka_v(b, z, w, d) by {
        assert(den_zaka_v(a, z, w, d) =~= den_zaka_v(b, z, w, d));
    }
    assert forall|z: u32, w: int, d: int, druh: Seq<char>| druh_v_tydnu(skola, a, z, w, d, druh) == druh_v_tydnu(skola, b, z, w, d, druh) by {
        assert forall|dd: int| ranych_v_tydnu(a, z, w, dd) == ranych_v_tydnu(b, z, w, dd) by {
            lemma_ranych_stejne(a, b, z, w, dd);
        }
        assert forall|dd: int, od: int| odpolednich_v_tydnu(a, z, w, dd, od) == odpolednich_v_tydnu(b, z, w, dd, od) by {
            lemma_odpolednich_stejne(a, b, z, w, dd, od);
        }
    }
    assert forall|z: u32, d: int, druh: Seq<char>| druh_oduvodnen(skola, a, z, d, druh) == druh_oduvodnen(skola, b, z, d, druh) by {
        if druh_oduvodnen(skola, a, z, d, druh) {
            let w = choose|w: int| 0 <= w < 2 && #[trigger] druh_v_tydnu(skola, a, z, w, d, druh);
            assert(druh_v_tydnu(skola, b, z, w, d, druh));
        }
        if druh_oduvodnen(skola, b, z, d, druh) {
            let w = choose|w: int| 0 <= w < 2 && #[trigger] druh_v_tydnu(skola, b, z, w, d, druh);
            assert(druh_v_tydnu(skola, a, z, w, d, druh));
        }
    }
    assert forall|i: int| nevhodna_mistnost(skola, a, i) == nevhodna_mistnost(skola, b, i) by {}
    let n = a.lekce@.len();
    if exists|i: int| 0 <= i < n && a.slot@[i].is_none() && p == #[trigger] text_neumistene(a.lekce@[i]) {
        let i = choose|i: int| 0 <= i < n && a.slot@[i].is_none() && p == #[trigger] text_neumistene(a.lekce@[i]);
        assert(p == text_neumistene(b.lekce@[i]));
    } else if exists|i: int, j: int|
        0 <= i < j < n && #[trigger] prekryti(a, i, j) && {
            ||| a.lekce@[i].ucitel@ == a.lekce@[j].ucitel@ && p == text_kolize_ucitele(a, i, j, zacatek_prekryti(a, i, j))
            ||| stejna_mistnost(a, i, j) && p == text_kolize_mistnosti(a, i, j, zacatek_prekryti(a, i, j))
            ||| spolecny_zak(a, i, j) && p == text_kolize_zaku(
                a,
                i,
                j,
                zacatek_prekryti(a, i, j),
                spolecnych_spec(a.lekce@[i].zaci@, a.lekce@[j].zaci@),
            )
        } {
        let (i, j) = choose|i: int, j: int|
            0 <= i < j < n && #[trigger] prekryti(a, i, j) && {
                ||| a.lekce@[i].ucitel@ == a.lekce@[j].ucitel@ && p == text_kolize_ucitele(a, i, j, zacatek_prekryti(a, i, j))
                ||| stejna_mistnost(a, i, j) && p == text_kolize_mistnosti(a, i, j, zacatek_prekryti(a, i, j))
                ||| spolecny_zak(a, i, j) && p == text_kolize_zaku(
                    a,
                    i,
                    j,
                    zacatek_prekryti(a, i, j),
                    spolecnych_spec(a.lekce@[i].zaci@, a.lekce@[j].zaci@),
                )
            };
        assert(prekryti(b, i, j));
    } else if exists|z: u32, d: int, druh: Seq<char>, virt: bool, c: nat|
        a.zaci_tridy@.contains_key(z) && c > 0 && druh_oduvodnen(skola, a, z, d, druh) && p == #[trigger] text_poruseni(
            skola,
            a.zaci_tridy@[z]@,
            druh,
            d,
            kdo_text(virt, c),
        ) {
        let (z, d, druh, virt, c) = choose|z: u32, d: int, druh: Seq<char>, virt: bool, c: nat|
            a.zaci_tridy@.contains_key(z) && c > 0 && druh_oduvodnen(skola, a, z, d, druh) && p == #[trigger] text_poruseni(
                skola,
                a.zaci_tridy@[z]@,
                druh,
                d,
                kdo_text(virt, c),
            );
        assert(druh_oduvodnen(skola, b, z, d, druh));
        assert(p == text_poruseni(skola, b.zaci_tridy@[z]@, druh, d, kdo_text(virt, c)));
    } else if exists|i: int, t: int|
        0 <= i < n && #[trigger] text_volna(a, i, t) == p && match a.slot@[i] {
            Some(s) => s <= t < s + a.lekce@[i].len && crate::data::index_ucitele(skola.ucitele@, a.lekce@[i].ucitel@) >= 0
                && skola.ucitele@[crate::data::index_ucitele(skola.ucitele@, a.lekce@[i].ucitel@)].volno@.contains(t as u8),
            None => false,
        } {
        let (i, t) = choose|i: int, t: int|
            0 <= i < n && #[trigger] text_volna(a, i, t) == p && match a.slot@[i] {
                Some(s) => s <= t < s + a.lekce@[i].len && crate::data::index_ucitele(skola.ucitele@, a.lekce@[i].ucitel@) >= 0
                    && skola.ucitele@[crate::data::index_ucitele(skola.ucitele@, a.lekce@[i].ucitel@)].volno@.contains(t as u8),
                None => false,
            };
        assert(text_volna(b, i, t) == p);
    } else if exists|i: int, c: nat, d: int, m: nat|
        0 <= i < n && 0 <= d < DNY && c > m && p == #[trigger] text_max_ucitele(a.lekce@[i].ucitel@, c, d, m) {
        let (i, c, d, m) = choose|i: int, c: nat, d: int, m: nat|
            0 <= i < n && 0 <= d < DNY && c > m && p == #[trigger] text_max_ucitele(a.lekce@[i].ucitel@, c, d, m);
        assert(p == text_max_ucitele(b.lekce@[i].ucitel@, c, d, m));
    } else if exists|i: int, d: int, c: nat|
        0 <= i < n && 0 <= d < DNY && c > MAX_STEJNY_PREDMET_DEN && p == #[trigger] text_predmetu(a.lekce@[i], d, c) {
        let (i, d, c) = choose|i: int, d: int, c: nat|
            0 <= i < n && 0 <= d < DNY && c > MAX_STEJNY_PREDMET_DEN && p == #[trigger] text_predmetu(a.lekce@[i], d, c);
        assert(p == text_predmetu(b.lekce@[i], d, c));
    } else if exists|i: int|
        0 <= i < n && a.slot@[i].is_some() && a.mistnost@[i].is_none() && p == #[trigger] text_bez_mistnosti(
            a.lekce@[i],
            a.slot@[i].unwrap() as int,
        ) {
        let i = choose|i: int|
            0 <= i < n && a.slot@[i].is_some() && a.mistnost@[i].is_none() && p == #[trigger] text_bez_mistnosti(
                a.lekce@[i],
                a.slot@[i].unwrap() as int,
            );
        assert(p == text_bez_mistnosti(b.lekce@[i], b.slot@[i].unwrap() as int));
    } else {
        let i = choose|i: int|
            0 <= i < n && nevhodna_mistnost(skola, a, i) && p == #[trigger] text_nevhodne(a.mistnost@[i].unwrap()@, a.lekce@[i]);
        assert(nevhodna_mistnost(skola, b, i));
        assert(p == text_nevhodne(b.mistnost@[i].unwrap()@, b.lekce@[i]));
    }
}

proof fn lemma_ranych_stejne(a: Vysledek, b: Vysledek, z: u32, w: int, dd: int)
    requires
        forall|z: u32, w: int, d: int| den_zaka_v(a, z, w, d) == den_zaka_v(b, z, w, d),
    ensures
        ranych_v_tydnu(a, z, w, dd) == ranych_v_tydnu(b, z, w, dd),
    decreases dd,
{
    if dd > 0 {
        lemma_ranych_stejne(a, b, z, w, dd - 1);
        assert(den_zaka_v(a, z, w, dd - 1) == den_zaka_v(b, z, w, dd - 1));
    }
}

proof fn lemma_odpolednich_stejne(a: Vysledek, b: Vysledek, z: u32, w: int, dd: int, od: int)
    requires
        forall|z: u32, w: int, d: int| den_zaka_v(a, z, w, d) == den_zaka_v(b, z, w, d),
    ensures
        odpolednich_v_tydnu(a, z, w, dd, od) == odpolednich_v_tydnu(b, z, w, dd, od),
    decreases dd,
{
    if dd > 0 {
        lemma_odpolednich_stejne(a, b, z, w, dd - 1, od);
        assert(den_zaka_v(a, z, w, dd - 1) == den_zaka_v(b, z, w, dd - 1));
    }
}

/// Nejdelší blok ve statistice třídy je největší nejdelší blok jejích žáků a některý žák ho má.
pub open spec fn blok_tridy(v: Vysledek, st: StatTridy) -> bool {
    &&& forall|z: u32|
        v.zaci_tridy@.contains_key(z) && v.zaci_tridy@[z]@ == st.trida@ ==> #[trigger] blok_zaka(v, z, 2 * DNY) <= st.nejdelsi_blok
    &&& exists|z: u32|
        v.zaci_tridy@.contains_key(z) && v.zaci_tridy@[z]@ == st.trida@ && st.nejdelsi_blok == #[trigger] blok_zaka(v, z, 2 * DNY)
}

/// Ranních dnů ve statistice třídy je nejvíc ze všech jejích žáků a některý žák jich tolik má.
pub open spec fn rane_tridy(v: Vysledek, st: StatTridy) -> bool {
    &&& forall|z: u32|
        v.zaci_tridy@.contains_key(z) && v.zaci_tridy@[z]@ == st.trida@ ==> #[trigger] ranych_dnu_zaka(v, z, DNY as int) <= st.rane_dny
    &&& exists|z: u32|
        v.zaci_tridy@.contains_key(z) && v.zaci_tridy@[z]@ == st.trida@ && st.rane_dny == #[trigger] ranych_dnu_zaka(v, z, DNY as int)
}

/// Statistika třídy sestavená z její skupiny statistik žáků (maxima přes skupinu) nese
/// správný nejdelší blok i počet ranních dnů.
proof fn lemma_statistika_tridy(v: Vysledek, g: Seq<(String, Vec<(usize, usize, usize, usize, usize)>)>, k: int, e: StatTridy)
    requires
        skupiny_statistik(v, g),
        forall|z: u32| #[trigger] v.zaci_tridy@.contains_key(z) ==> ma_statistiku(v, g, z),
        0 <= k < g.len(),
        g[k].0@ == e.trida@,
        forall|j: int| 0 <= j < g[k].1@.len() ==> (#[trigger] g[k].1@[j]).3 <= e.nejdelsi_blok,
        exists|j: int| 0 <= j < g[k].1@.len() && (#[trigger] g[k].1@[j]).3 == e.nejdelsi_blok,
        forall|j: int| 0 <= j < g[k].1@.len() ==> (#[trigger] g[k].1@[j]).1 <= e.rane_dny,
        exists|j: int| 0 <= j < g[k].1@.len() && (#[trigger] g[k].1@[j]).1 == e.rane_dny,
    ensures
        blok_tridy(v, e),
        rane_tridy(v, e),
{
    let j0 = choose|j: int| 0 <= j < g[k].1@.len() && (#[trigger] g[k].1@[j]).3 == e.nejdelsi_blok;
    assert(stat_patri(v, g[k].0@, g[k].1@[j0]));
    let j1 = choose|j: int| 0 <= j < g[k].1@.len() && (#[trigger] g[k].1@[j]).1 == e.rane_dny;
    assert(stat_patri(v, g[k].0@, g[k].1@[j1]));
    assert forall|z: u32| v.zaci_tridy@.contains_key(z) && v.zaci_tridy@[z]@ == e.trida@ implies #[trigger] blok_zaka(v, z, 2 * DNY)
        <= e.nejdelsi_blok && ranych_dnu_zaka(v, z, DNY as int) <= e.rane_dny by {
        assert(ma_statistiku(v, g, z));
        let (a2, j) = choose|a2: int, j: int|
            0 <= a2 < g.len() && 0 <= j < g[a2].1@.len() && g[a2].0@ == v.zaci_tridy@[z]@ && (#[trigger] g[a2].1@[j]).3 == blok_zaka(
                v,
                z,
                2 * DNY,
            ) && g[a2].1@[j].1 == ranych_dnu_zaka(v, z, DNY as int);
        if a2 != k {
            if a2 < k {
                assert(g[a2].0@ != g[k].0@);
            } else {
                assert(g[k].0@ != g[a2].0@);
            }
        }
    }
}

/// Mezi statistikami je statistika třídy `id`.
pub open spec fn ma_statistiku_tridy(s: Seq<StatTridy>, id: Seq<char>) -> bool {
    exists|e: int| 0 <= e < s.len() && (#[trigger] s[e]).trida@ == id
}

/// Všechny texty mezi problémy jsou oprávněné.
pub open spec fn vse_opravnene(skola: Skola, v: Vysledek, p: Seq<String>) -> bool {
    forall|j: int| 0 <= j < p.len() ==> opravneny(skola, v, (#[trigger] p[j])@)
}

/// Přidání oprávněného textu zachová oprávněnost všech.
proof fn lemma_opravnene_push(skola: Skola, v: Vysledek, p: Seq<String>, x: String)
    requires
        vse_opravnene(skola, v, p),
        opravneny(skola, v, x@),
    ensures
        vse_opravnene(skola, v, p.push(x)),
{
    assert forall|j: int| 0 <= j < p.push(x).len() implies opravneny(skola, v, (#[trigger] p.push(x)[j])@) by {
        if j < p.len() {
            assert(p.push(x)[j] == p[j]);
        }
    }
}

/// Text varování o lekci `l` v místnosti `r` s `zaku` žáky nad kapacitu `kap`.
pub open spec fn text_kapacity(l: crate::solver::LekceInfo, r: Seq<char>, zaku: nat, kap: nat) -> Seq<char> {
    "Kapacita: "@ + crate::solver::popis_spec(l) + " ("@ + crate::text::desitkove(zaku) + " žáků) v "@ + r + " (kapacita "@
        + crate::text::desitkove(kap) + ")."@
}

/// Umístěná lekce `i` má místnost, do které se její skuteční žáci nevejdou.
pub open spec fn preplnena(skola: Skola, v: Vysledek, i: int) -> bool {
    &&& v.slot@[i].is_some()
    &&& v.mistnost@[i] is Some
    &&& crate::solver::realni_zaci(v, i) > crate::solver::kapacita_mistnosti(skola, v.mistnost@[i].unwrap()@)
}

/// Varování o kapacitě lekce `i` v její místnosti.
pub open spec fn varovani_kapacity(skola: Skola, v: Vysledek, i: int) -> Seq<char> {
    text_kapacity(
        v.lekce@[i],
        v.mistnost@[i].unwrap()@,
        crate::solver::realni_zaci(v, i),
        crate::solver::kapacita_mistnosti(skola, v.mistnost@[i].unwrap()@) as nat,
    )
}

/// Každé varování je varování o kapacitě některé přeplněné lekce.
pub open spec fn varovani_oduvodnena(skola: Skola, v: Vysledek, w: Seq<String>) -> bool {
    forall|j: int|
        0 <= j < w.len() ==> exists|x: int|
            0 <= x < v.lekce@.len() && preplnena(skola, v, x) && (#[trigger] w[j])@ == varovani_kapacity(skola, v, x)
}

/// Plná validace rozvrhu: neumístěné lekce, kolize učitelů, místností a žáků, pravidlo
/// 7 h, nejvýš 8 h denně a limity P1 každého žáka, volno a denní maximum učitelů, nejvýš
/// dvě hodiny stejného předmětu denně a místnosti (chybějící, nevhodné, kapacita);
/// nakonec statistiky tříd. Každý nahlášený problém odpovídá skutečné chybě rozvrhu a každá
/// chyba rozvrhu je nahlášená (včetně skutečných počtů v textu).
#[verifier::rlimit(40)]
pub fn zkontroluj(skola: &Skola, v: &Vysledek) -> (k: Kontrola)
    requires
        rozvrh_ve_tydnu(*v),
        v.limity.dobre(),
        crate::data::tridy_platne(skola.tridy@),
    ensures
        vse_opravnene(*skola, *v, k.problemy@),
        hlaseni_uplna(*skola, *v, k.problemy@),
        forall|i: int| 0 <= i < v.lekce@.len() && #[trigger] preplnena(*skola, *v, i) ==> hlasi(k.varovani@, varovani_kapacity(*skola, *v, i)),
        varovani_oduvodnena(*skola, *v, k.varovani@),
        forall|e: int| 0 <= e < k.statistiky@.len() ==> blok_tridy(*v, #[trigger] k.statistiky@[e]),
        forall|e: int| 0 <= e < k.statistiky@.len() ==> rane_tridy(*v, #[trigger] k.statistiky@[e]),
        forall|t: int, z: u32|
            #![trigger skola.tridy@[t], v.zaci_tridy@[z]]
            0 <= t < skola.tridy@.len() && v.zaci_tridy@.contains_key(z) && v.zaci_tridy@[z]@ == skola.tridy@[t].id@
                ==> ma_statistiku_tridy(k.statistiky@, skola.tridy@[t].id@),
        forall|z: u32, w: int, d: int, druh: Seq<char>|
            #![trigger druh_v_tydnu(*skola, *v, z, w, d, druh)]
            v.zaci_tridy@.contains_key(z) && 0 <= w < 2 && druh_v_tydnu(*skola, *v, z, w, d, druh) ==> nahlaseno_poruseni(
                *skola,
                *v,
                k.problemy@,
                v.zaci_tridy@[z]@,
                druh,
                d,
            ),
        rostouci_idx(k.problemove_lekce@),
        forall|i: int| 0 <= i < v.lekce@.len() && v.slot@[i].is_none() ==> k.problemove_lekce@.contains(i as usize),
        forall|i: int| 0 <= i < v.lekce@.len() && v.slot@[i].is_none() ==> hlasi(k.problemy@, text_neumistene(#[trigger] v.lekce@[i])),
        forall|a: int, b: int|
            0 <= a < b < v.lekce@.len() && prekryti(*v, a, b) && v.lekce@[a].ucitel@ == v.lekce@[b].ucitel@ ==> #[trigger] hlasi(
                k.problemy@,
                text_kolize_ucitele(*v, a, b, zacatek_prekryti(*v, a, b)),
            ),
        forall|a: int, b: int|
            0 <= a < b < v.lekce@.len() && kolizni(*v, a, b) ==> k.problemove_lekce@.contains(a as usize)
                && k.problemove_lekce@.contains(b as usize),
        forall|i: int|
            0 <= i < v.lekce@.len() && v.slot@[i].is_some() && v.mistnost@[i].is_none() ==> k.problemove_lekce@.contains(
                i as usize,
            ),
        forall|i: int| 0 <= i < v.lekce@.len() && volno_ucitele(skola, *v, i) ==> k.problemove_lekce@.contains(i as usize),
        forall|i: int| 0 <= i < v.lekce@.len() && nevhodna_mistnost(*skola, *v, i) ==> k.problemove_lekce@.contains(i as usize),
        forall|z: u32, w: int, d: int, i: int|
            #![trigger porusuje_den(*skola, *v, z, w, d), lekce_zaka_dne(*v, i, z, d)]
            v.zaci_tridy@.contains_key(z) && 0 <= w < 2 && 0 <= d < DNY && porusuje_den(*skola, *v, z, w, d) && 0 <= i
                < v.lekce@.len() && lekce_zaka_dne(*v, i, z, d) ==> k.problemove_lekce@.contains(i as usize),
        forall|z: u32, w: int, i: int|
            #![trigger porusuje_tyden(*skola, *v, z, w), lekce_zaka_dne(*v, i, z, DNY as int)]
            v.zaci_tridy@.contains_key(z) && 0 <= w < 2 && porusuje_tyden(*skola, *v, z, w) && 0 <= i < v.lekce@.len()
                && lekce_zaka_dne(*v, i, z, DNY as int) ==> k.problemove_lekce@.contains(i as usize),
{
    let n = v.lekce.len();
    let mut problemy: Vec<String> = Vec::new();
    let mut varovani: Vec<String> = Vec::new();
    let mut oznacene: Vec<usize> = Vec::new();
    // 1. neumístěné lekce
    let mut i: usize = 0;
    while i < n
        invariant
            i <= n,
            n == v.lekce@.len(),
            rozvrh_ve_tydnu(*v),
            rostouci_idx(oznacene@),
            forall|x: int| 0 <= x < i && v.slot@[x].is_none() ==> oznacene@.contains(x as usize),
            forall|x: int| 0 <= x < i && v.slot@[x].is_none() ==> hlasi(problemy@, text_neumistene(#[trigger] v.lekce@[x])),
            vse_opravnene(*skola, *v, problemy@),
        decreases n - i,
    {
        if v.slot[i].is_none() {
            let p = popis_lekce(&v.lekce[i]);
            let ghost p0 = problemy@;
            let casti = ["Neumístěná lekce: ", p.as_str()];
            let t = spoj(&casti);
            proof {
                let c = casti@.map_values(|x: &str| x@);
                assert(c =~= seq!["Neumístěná lekce: "@, p@]);
                reveal_with_fuel(crate::text::spojeni, 3);
                assert(t@ =~= text_neumistene(v.lekce@[i as int]));
                assert(opravneny(*skola, *v, t@));
            }
            problemy.push(t);
            proof {
                assert(problemy@ == p0.push(problemy@.last()));
                lemma_opravnene_push(*skola, *v, p0, problemy@.last());
                assert forall|x: int| 0 <= x < i + 1 && v.slot@[x].is_none() implies hlasi(problemy@, text_neumistene(#[trigger] v.lekce@[x])) by {
                    if x < i {
                        let j = choose|j: int| 0 <= j < p0.len() && (#[trigger] p0[j])@ == text_neumistene(v.lekce@[x]);
                        assert(problemy@[j] == p0[j]);
                    } else {
                        assert(problemy@[p0.len() as int]@ == text_neumistene(v.lekce@[x]));
                    }
                }
            }
            oznac(&mut oznacene, i);
        }
        i = i + 1;
    }
    let ghost p1 = problemy@;
    // 2. kolize
    kolize(v, &mut problemy, &mut oznacene, Ghost(*skola));
    let ghost p2 = problemy@;
    // 3. žáci
    let (poruseni, stat_zaka, zaci) = kontrola_zaku(skola, v);
    let mut q: usize = 0;
    while q < poruseni.len()
        invariant
        problemy@.len() >= p2.len(),
        forall|j: int| 0 <= j < p2.len() ==> #[trigger] problemy@[j] == p2[j],
        vse_opravnene(*skola, *v, problemy@),
            q <= poruseni@.len(),
            n == v.lekce@.len(),
            rozvrh_ve_tydnu(*v),
            rostouci_idx(oznacene@),
            forall|i: int| 0 <= i < v.lekce@.len() && v.slot@[i].is_none() ==> oznacene@.contains(i as usize),
            forall|a: int, b: int|
                0 <= a < b < v.lekce@.len() && kolizni(*v, a, b) ==> oznacene@.contains(a as usize) && oznacene@.contains(b as usize),
            oznaceni_zaku(*v, poruseni@.take(q as int), oznacene@),
            poruseni_oduvodnena(*skola, *v, poruseni@),
            poruseni_jedinecna(poruseni@),
            forall|z: u32, w: int, d: int, druh: Seq<char>|
                #![trigger druh_v_tydnu(*skola, *v, z, w, d, druh)]
                v.zaci_tridy@.contains_key(z) && 0 <= w < 2 && druh_v_tydnu(*skola, *v, z, w, d, druh) ==> zapsan(
                    poruseni@,
                    v.zaci_tridy@[z]@,
                    druh,
                    d,
                    z,
                ),
            forall|q2: int|
                0 <= q2 < q ==> nahlaseno_poruseni(
                    *skola,
                    *v,
                    problemy@,
                    (#[trigger] poruseni@[q2]).0@,
                    poruseni@[q2].1@,
                    poruseni@[q2].2 as int,
                ),
        decreases poruseni@.len() - q,
    {
        let (tr, druh, d, zs) = (&poruseni[q].0, &poruseni[q].1, poruseni[q].2, &poruseni[q].3);
        let den: &str = if d < DNY { nazev_dne(d) } else { "týden" };
        let mut virt = true;
        let mut x: usize = 0;
        while x < zs.len()
            invariant
            problemy@.len() >= p2.len(),
            forall|j: int| 0 <= j < p2.len() ==> #[trigger] problemy@[j] == p2[j],
            vse_opravnene(*skola, *v, problemy@),
                x <= zs@.len(),
                q < poruseni@.len(),
                *tr == poruseni@[q as int].0,
                *druh == poruseni@[q as int].1,
                d == poruseni@[q as int].2,
                *zs == poruseni@[q as int].3,
                poruseni_oduvodnena(*skola, *v, poruseni@),
                virt == forall|y: int| 0 <= y < x ==> v.virtualni_zaci@.contains(#[trigger] zs@[y]),
            decreases zs@.len() - x,
        {
            if !obsahuje_u32(&v.virtualni_zaci, zs[x]) {
                virt = false;
            }
            x = x + 1;
        }
        let ghost st = porusitele(*skola, *v, tr@, druh@, d as int);
        let ghost vsichni = forall|z: u32| #[trigger] st.contains(z) ==> v.virtualni_zaci@.contains(z);
        proof {
            assert forall|z: u32| zs@.to_set().contains(z) <==> st.contains(z) by {
                if zs@.contains(z) {
                    let y = choose|y: int| 0 <= y < zs@.len() && zs@[y] == z;
                    assert(poruseni@[q as int].3@[y] == z);
                }
                if st.contains(z) {
                    let w = choose|w: int| 0 <= w < 2 && #[trigger] druh_v_tydnu(*skola, *v, z, w, d as int, druh@);
                    assert(zapsan(poruseni@, v.zaci_tridy@[z]@, druh@, d as int, z));
                    let k2 = choose|k2: int|
                        0 <= k2 < poruseni@.len() && (#[trigger] poruseni@[k2]).0@ == tr@ && poruseni@[k2].1@ == druh@
                            && poruseni@[k2].2 == d && poruseni@[k2].3@.contains(z);
                    assert(k2 == q);
                }
            }
            assert(zs@.to_set() =~= st);
            assert(poruseni@[q as int].3@.no_duplicates());
            zs@.unique_seq_to_set();
            if virt {
                assert forall|z: u32| #[trigger] st.contains(z) implies v.virtualni_zaci@.contains(z) by {
                    assert(zs@.to_set().contains(z));
                    let y = choose|y: int| 0 <= y < zs@.len() && zs@[y] == z;
                }
            } else {
                let y = choose|y: int| 0 <= y < zs@.len() && !v.virtualni_zaci@.contains(#[trigger] zs@[y]);
                assert(zs@.to_set().contains(zs@[y]));
                assert(st.contains(zs@[y]));
            }
            assert(virt == vsichni);
            assert(zs@.len() == st.len());
        }
        let kdo = if virt {
            let casti = ["třída (zástupní žáci)"];
            let t = spoj(&casti);
            proof {
                reveal_with_fuel(crate::text::spojeni, 2);
                assert(casti@.map_values(|x: &str| x@) =~= seq![casti@[0]@]);
            }
            t
        } else {
            let c = cislo(zs.len() as u64);
            let casti = [c.as_str(), " žáků"];
            let t = spoj(&casti);
            proof {
                reveal_with_fuel(crate::text::spojeni, 3);
                assert(casti@.map_values(|x: &str| x@) =~= seq![casti@[0]@, casti@[1]@]);
            }
            t
        };
        let nazev = skola.nazev_tridy(tr.as_str());
        let casti = [nazev.as_str(), ": ", druh.as_str(), " – ", den, ", ", kdo.as_str()];
        let text = spoj(&casti);
        proof {
            let cc = casti@.map_values(|x: &str| x@);
            assert(cc =~= seq![nazev@, ": "@, druh@, " – "@, den@, ", "@, kdo@]);
            reveal_with_fuel(crate::text::spojeni, 8);
            let z = zs@[0];
            assert(poruseni@[q as int].3@[0] == z);
            assert(v.zaci_tridy@[z]@ == tr@);
            crate::hledani::lemma_prvni(skola.tridy@, |t: crate::data::Trida| t.id@ == tr@);
            assert(nazev@ == crate::export::nazev_tridy_spec(*skola, tr@));
            assert(den@ == den_text(d as int));
            assert(kdo@ == kdo_text(virt, zs@.len()));
            assert(text@ =~= text_poruseni(*skola, v.zaci_tridy@[z]@, druh@, d as int, kdo_text(virt, zs@.len())));
            assert(opravneny(*skola, *v, text@));
        }
        let ghost pp0 = problemy@;
        problemy.push(text);
        proof {
            assert(problemy@ == pp0.push(problemy@.last()));
            lemma_opravnene_push(*skola, *v, pp0, problemy@.last());
            assert(hlasi(problemy@, text_poruseni(*skola, tr@, druh@, d as int, kdo_text(virt, zs@.len()))));
            assert(nahlaseno_poruseni(*skola, *v, problemy@, tr@, druh@, d as int));
            assert forall|q2: int|
                0 <= q2 < q + 1 implies nahlaseno_poruseni(
                    *skola,
                    *v,
                    problemy@,
                    (#[trigger] poruseni@[q2]).0@,
                    poruseni@[q2].1@,
                    poruseni@[q2].2 as int,
                ) by {
                if q2 < q {
                    let st2 = porusitele(*skola, *v, poruseni@[q2].0@, poruseni@[q2].1@, poruseni@[q2].2 as int);
                    lemma_hlasi_push(
                        pp0,
                        problemy@.last(),
                        text_poruseni(
                            *skola,
                            poruseni@[q2].0@,
                            poruseni@[q2].1@,
                            poruseni@[q2].2 as int,
                            kdo_text(forall|z: u32| #[trigger] st2.contains(z) ==> v.virtualni_zaci@.contains(z), st2.len()),
                        ),
                    );
                } else {
                    assert(poruseni@[q2] == poruseni@[q as int]);
                }
            }
        }
        let mut x: usize = 0;
        while x < zs.len()
            invariant
            problemy@.len() >= p2.len(),
            forall|j: int| 0 <= j < p2.len() ==> #[trigger] problemy@[j] == p2[j],
            vse_opravnene(*skola, *v, problemy@),
                x <= zs@.len(),
                q < poruseni@.len(),
                *zs == poruseni@[q as int].3,
                d == poruseni@[q as int].2,
                oznaceni_zaku(*v, poruseni@.take(q as int), oznacene@),
                forall|x2: int, i2: int|
                    0 <= x2 < x && 0 <= i2 < v.lekce@.len() && #[trigger] lekce_zaka_dne(*v, i2, zs@[x2], d as int)
                        ==> oznacene@.contains(i2 as usize),
                n == v.lekce@.len(),
                rozvrh_ve_tydnu(*v),
                rostouci_idx(oznacene@),
                forall|i: int| 0 <= i < v.lekce@.len() && v.slot@[i].is_none() ==> oznacene@.contains(i as usize),
                forall|a: int, b: int|
                    0 <= a < b < v.lekce@.len() && kolizni(*v, a, b) ==> oznacene@.contains(a as usize) && oznacene@.contains(b as usize),
            decreases zs@.len() - x,
        {
            let mut i: usize = 0;
            while i < n
                invariant
                problemy@.len() >= p2.len(),
                forall|j: int| 0 <= j < p2.len() ==> #[trigger] problemy@[j] == p2[j],
                vse_opravnene(*skola, *v, problemy@),
                    i <= n,
                    x < zs@.len(),
                    q < poruseni@.len(),
                    *zs == poruseni@[q as int].3,
                    d == poruseni@[q as int].2,
                    oznaceni_zaku(*v, poruseni@.take(q as int), oznacene@),
                    forall|x2: int, i2: int|
                        0 <= x2 < x && 0 <= i2 < v.lekce@.len() && #[trigger] lekce_zaka_dne(*v, i2, zs@[x2], d as int)
                            ==> oznacene@.contains(i2 as usize),
                    forall|i2: int|
                        0 <= i2 < i && #[trigger] lekce_zaka_dne(*v, i2, zs@[x as int], d as int) ==> oznacene@.contains(i2 as usize),
                    n == v.lekce@.len(),
                    rozvrh_ve_tydnu(*v),
                    rostouci_idx(oznacene@),
                    forall|i: int| 0 <= i < v.lekce@.len() && v.slot@[i].is_none() ==> oznacene@.contains(i as usize),
                    forall|a: int, b: int|
                        0 <= a < b < v.lekce@.len() && kolizni(*v, a, b) ==> oznacene@.contains(a as usize) && oznacene@.contains(b as usize),
                decreases n - i,
            {
                match v.slot[i] {
                    Some(s) => {
                        if (d >= DNY || s as usize / SLOTU == d) && obsahuje_u32(&v.lekce[i].zaci, zs[x]) {
                            let ghost o0 = oznacene@;
                            oznac(&mut oznacene, i);
                            proof {
                                assert forall|y: usize| #[trigger] o0.contains(y) implies oznacene@.contains(y) by {}
                            }
                        }
                    },
                    None => {},
                }
                i = i + 1;
            }
            x = x + 1;
        }
        proof {
            let pq = poruseni@.take(q + 1);
            assert forall|q2: int, x2: int, i2: int|
                0 <= q2 < pq.len() && 0 <= x2 < pq[q2].3@.len() && 0 <= i2 < v.lekce@.len() && #[trigger] lekce_zaka_dne(
                    *v,
                    i2,
                    pq[q2].3@[x2],
                    pq[q2].2 as int,
                ) implies oznacene@.contains(i2 as usize) by {
                if q2 < q {
                    assert(pq[q2] == poruseni@.take(q as int)[q2]);
                } else {
                    assert(pq[q2] == poruseni@[q as int]);
                }
            }
        }
        q = q + 1;
    }
    proof {
        assert(poruseni@.take(poruseni@.len() as int) =~= poruseni@);
    }
    let ghost p3 = problemy@;
    // 4. učitelé: volno a maximum hodin za den
    let mut i: usize = 0;
    while i < n
        invariant
        problemy@.len() >= p2.len(),
        forall|j: int| 0 <= j < p2.len() ==> #[trigger] problemy@[j] == p2[j],
        problemy@.len() >= p3.len(),
        forall|j: int| 0 <= j < p3.len() ==> #[trigger] problemy@[j] == p3[j],
        vse_opravnene(*skola, *v, problemy@),
            i <= n,
            n == v.lekce@.len(),
            rozvrh_ve_tydnu(*v),
            rostouci_idx(oznacene@),
            forall|i: int| 0 <= i < v.lekce@.len() && v.slot@[i].is_none() ==> oznacene@.contains(i as usize),
            forall|a: int, b: int|
                0 <= a < b < v.lekce@.len() && kolizni(*v, a, b) ==> oznacene@.contains(a as usize) && oznacene@.contains(b as usize),
            oznaceni_zaku(*v, poruseni@, oznacene@),
            forall|x: int| 0 <= x < i && volno_ucitele(skola, *v, x) ==> oznacene@.contains(x as usize),
            forall|x: int, tt: int| 0 <= x < i && #[trigger] ve_volnu(*skola, *v, x, tt) ==> hlasi(problemy@, text_volna(*v, x, tt)),
        decreases n - i,
    {
        let l = &v.lekce[i];
        match v.slot[i] {
            Some(s) => {
                match skola.ucitel(l.ucitel.as_str()) {
                    Some(u) => {
                        let mut t = s as usize;
                        let mut oznaceno = false;
                        while t < s as usize + l.len as usize
                            invariant
                            problemy@.len() >= p2.len(),
                            forall|j: int| 0 <= j < p2.len() ==> #[trigger] problemy@[j] == p2[j],
                            problemy@.len() >= p3.len(),
                            forall|j: int| 0 <= j < p3.len() ==> #[trigger] problemy@[j] == p3[j],
                            vse_opravnene(*skola, *v, problemy@),
                                s <= t <= s + l.len,
                                s + l.len <= N_SLOTU,
                                n == v.lekce@.len(),
                                i < n,
                                v.slot@[i as int] == Some(s),
                                *l == v.lekce@[i as int],
                                *u == skola.ucitele@[crate::data::index_ucitele(skola.ucitele@, l.ucitel@)],
                                crate::data::index_ucitele(skola.ucitele@, l.ucitel@) >= 0,
                                rozvrh_ve_tydnu(*v),
                                rostouci_idx(oznacene@),
                                forall|i: int| 0 <= i < v.lekce@.len() && v.slot@[i].is_none() ==> oznacene@.contains(i as usize),
                                forall|a: int, b: int|
                                    0 <= a < b < v.lekce@.len() && kolizni(*v, a, b) ==> oznacene@.contains(a as usize) && oznacene@.contains(b as usize),
                                oznaceni_zaku(*v, poruseni@, oznacene@),
                                forall|x: int| 0 <= x < i && volno_ucitele(skola, *v, x) ==> oznacene@.contains(x as usize),
                                oznaceno ==> oznacene@.contains(i),
                                !oznaceno ==> forall|x: int| s <= x < t ==> !(#[trigger] u.volno@.contains(x as u8)),
                                forall|x: int, tt: int| 0 <= x < i && #[trigger] ve_volnu(*skola, *v, x, tt) ==> hlasi(problemy@, text_volna(*v, x, tt)),
                                forall|tt: int| s <= tt < t && #[trigger] ve_volnu(*skola, *v, i as int, tt) ==> hlasi(problemy@, text_volna(*v, i as int, tt)),
                            decreases s + l.len - t,
                        {
                            if crate::stav::obsahuje_u8(&u.volno, t as u8) {
                                let p = popis_lekce(l);
                                let kd = kdy(t);
                                let casti = ["Učitel ", l.ucitel.as_str(), " má volno: ", p.as_str(), " – ", kd.as_str()];
                                let text = spoj(&casti);
                                proof {
                                    let cc = casti@.map_values(|x: &str| x@);
                                    assert(cc =~= seq!["Učitel "@, l.ucitel@, " má volno: "@, p@, " – "@, kd@]);
                                    reveal_with_fuel(crate::text::spojeni, 7);
                                    assert(text@ =~= text_volna(*v, i as int, t as int));
                                    assert(opravneny(*skola, *v, text@));
                                }
                                let ghost pp0 = problemy@;
                                problemy.push(text);
                                proof {
                                    assert(problemy@ == pp0.push(problemy@.last()));
                                    lemma_opravnene_push(*skola, *v, pp0, problemy@.last());
                                    assert(problemy@[pp0.len() as int]@ == text_volna(*v, i as int, t as int));
                                    assert forall|tt: Seq<char>| hlasi(pp0, tt) implies #[trigger] hlasi(problemy@, tt) by {
                                        lemma_hlasi_push(pp0, problemy@.last(), tt);
                                    }
                                }
                                let ghost o0 = oznacene@;
                                oznac(&mut oznacene, i);
                                proof {
                                    assert forall|y: usize| #[trigger] o0.contains(y) implies oznacene@.contains(y) by {}
                                }
                                oznaceno = true;
                            }
                            t = t + 1;
                        }
                    },
                    None => {},
                }
            },
            None => {},
        }
        i = i + 1;
    }
    let ghost p4 = problemy@;
    let uc_occ = obsazenost_podle(v, true);
    proof {
        assert forall|kk: int| 0 <= kk < uc_occ.polozky@.len() implies ucitel_lekce(*v, (#[trigger] uc_occ.polozky@[kk]).0@) by {
            assert(uc_occ.ma(uc_occ.polozky@[kk].0@));
            assert(ma_klic(*v, true, uc_occ.polozky@[kk].0@, n as int));
            let x = choose|x: int| 0 <= x < n && v.slot@[x].is_some() && #[trigger] klic_lekce(v.lekce@[x], true) == uc_occ.polozky@[kk].0@;
            assert(v.lekce@[x].ucitel@ == uc_occ.polozky@[kk].0@);
        }
    }
    let mut k: usize = 0;
    while k < uc_occ.polozky.len()
        invariant
        problemy@.len() >= p2.len(),
        forall|j: int| 0 <= j < p2.len() ==> #[trigger] problemy@[j] == p2[j],
        problemy@.len() >= p3.len(),
        forall|j: int| 0 <= j < p3.len() ==> #[trigger] problemy@[j] == p3[j],
        problemy@.len() >= p4.len(),
        forall|j: int| 0 <= j < p4.len() ==> #[trigger] problemy@[j] == p4[j],
        vse_opravnene(*skola, *v, problemy@),
            k <= uc_occ.polozky@.len(),
            forall|x: int| 0 <= x < uc_occ.polozky@.len() ==> (#[trigger] uc_occ.polozky@[x]).1@.len() == N_SLOTU,
            forall|kk: int| 0 <= kk < uc_occ.polozky@.len() ==> ucitel_lekce(*v, (#[trigger] uc_occ.polozky@[kk]).0@),
            uc_occ.dobre(),
            forall|x: Seq<char>| uc_occ.ma(x) <==> ma_klic(*v, true, x, n as int),
            forall|x: Seq<char>, t: int| uc_occ.ma(x) && 0 <= t < N_SLOTU ==> (#[trigger] uc_occ.hodnota(x)@[t]) == klic_v_hodine(*v, true, x, n as int, t),
            forall|x: int, dd: int|
                0 <= x < n && 0 <= dd < DNY && hotovy_klic(uc_occ.polozky@, k as int, v.lekce@[x].ucitel@) && #[trigger] hodin_dne(*v, true, v.lekce@[x].ucitel@, dd) > max_ucitele(*skola, v.lekce@[x].ucitel@) ==> hlasi(
                    problemy@,
                    text_max_ucitele(v.lekce@[x].ucitel@, hodin_dne(*v, true, v.lekce@[x].ucitel@, dd), dd, max_ucitele(*skola, v.lekce@[x].ucitel@)),
                ),
            n == v.lekce@.len(),
            rozvrh_ve_tydnu(*v),
            rostouci_idx(oznacene@),
            forall|i: int| 0 <= i < v.lekce@.len() && v.slot@[i].is_none() ==> oznacene@.contains(i as usize),
            forall|a: int, b: int|
                0 <= a < b < v.lekce@.len() && kolizni(*v, a, b) ==> oznacene@.contains(a as usize) && oznacene@.contains(b as usize),
            oznaceni_zaku(*v, poruseni@, oznacene@),
            forall|x: int| 0 <= x < n && volno_ucitele(skola, *v, x) ==> oznacene@.contains(x as usize),
        decreases uc_occ.polozky@.len() - k,
    {
        let u = &uc_occ.polozky[k].0;
        let o = &uc_occ.polozky[k].1;
        let max: usize = match skola.ucitel(u.as_str()) {
            Some(x) => x.max_den as usize,
            None => 8,
        };
        proof {
            assert(ucitel_lekce(*v, uc_occ.polozky@[k as int].0@));
            lemma_hodnota_polozky(uc_occ, k as int);
            assert(max == max_ucitele(*skola, u@));
        }
        let mut d: usize = 0;
        while d < DNY
            invariant
                ucitel_lekce(*v, u@),
                k < uc_occ.polozky@.len(),
                *u == uc_occ.polozky@[k as int].0,
                forall|t: int| 0 <= t < N_SLOTU ==> #[trigger] o@[t] == klic_v_hodine(*v, true, u@, n as int, t),
                max == max_ucitele(*skola, u@),
                forall|x: int, dd: int|
                0 <= x < n && 0 <= dd < DNY && hotovy_klic(uc_occ.polozky@, k as int, v.lekce@[x].ucitel@) && #[trigger] hodin_dne(*v, true, v.lekce@[x].ucitel@, dd) > max_ucitele(*skola, v.lekce@[x].ucitel@) ==> hlasi(
                    problemy@,
                    text_max_ucitele(v.lekce@[x].ucitel@, hodin_dne(*v, true, v.lekce@[x].ucitel@, dd), dd, max_ucitele(*skola, v.lekce@[x].ucitel@)),
                ),
                forall|x: int, dd: int|
                0 <= x < n && 0 <= dd < d && v.lekce@[x].ucitel@ == u@ && #[trigger] hodin_dne(*v, true, v.lekce@[x].ucitel@, dd) > max_ucitele(*skola, v.lekce@[x].ucitel@) ==> hlasi(
                    problemy@,
                    text_max_ucitele(v.lekce@[x].ucitel@, hodin_dne(*v, true, v.lekce@[x].ucitel@, dd), dd, max_ucitele(*skola, v.lekce@[x].ucitel@)),
                ),
            problemy@.len() >= p2.len(),
            forall|j: int| 0 <= j < p2.len() ==> #[trigger] problemy@[j] == p2[j],
            problemy@.len() >= p3.len(),
            forall|j: int| 0 <= j < p3.len() ==> #[trigger] problemy@[j] == p3[j],
            problemy@.len() >= p4.len(),
            forall|j: int| 0 <= j < p4.len() ==> #[trigger] problemy@[j] == p4[j],
            vse_opravnene(*skola, *v, problemy@),
                d <= DNY,
                o@.len() == N_SLOTU,
                n == v.lekce@.len(),
                rozvrh_ve_tydnu(*v),
                rostouci_idx(oznacene@),
                forall|i: int| 0 <= i < v.lekce@.len() && v.slot@[i].is_none() ==> oznacene@.contains(i as usize),
                forall|a: int, b: int|
                    0 <= a < b < v.lekce@.len() && kolizni(*v, a, b) ==> oznacene@.contains(a as usize) && oznacene@.contains(b as usize),
                oznaceni_zaku(*v, poruseni@, oznacene@),
                forall|x: int| 0 <= x < n && volno_ucitele(skola, *v, x) ==> oznacene@.contains(x as usize),
            decreases DNY - d,
        {
            let c = pocet_dne(o, d);
            proof {
                assert(Seq::new(SLOTU as nat, |j: int| o@[d * SLOTU + j]) =~= Seq::new(
                    SLOTU as nat,
                    |j: int| klic_v_hodine(*v, true, u@, n as int, d * SLOTU + j),
                ));
                assert(c == hodin_dne(*v, true, u@, d as int));
            }
            if c > max {
                let cc = cislo(c as u64);
                let cm = cislo(max as u64);
                let casti = ["Učitel ", u.as_str(), " má ", cc.as_str(), " h v ", nazev_dne(d), " (max ", cm.as_str(), ")."];
                let text = spoj(&casti);
                proof {
                    let c9 = casti@.map_values(|x: &str| x@);
                    assert(c9 =~= seq!["Učitel "@, u@, " má "@, cc@, " h v "@, crate::data::nazev_dne_spec(d as int), " (max "@, cm@, ")."@]);
                    reveal_with_fuel(crate::text::spojeni, 10);
                    assert(text@ =~= text_max_ucitele(u@, c as nat, d as int, max as nat));
                    let x = choose|x: int| 0 <= x < v.lekce@.len() && v.lekce@[x].ucitel@ == u@;
                    assert(text@ == text_max_ucitele(
                        v.lekce@[x].ucitel@,
                        hodin_dne(*v, true, v.lekce@[x].ucitel@, d as int),
                        d as int,
                        max_ucitele(*skola, v.lekce@[x].ucitel@),
                    ));
                    assert(opravneny(*skola, *v, text@));
                }
                let ghost pp0 = problemy@;
                problemy.push(text);
                proof {
                    assert(problemy@ == pp0.push(problemy@.last()));
                    lemma_opravnene_push(*skola, *v, pp0, problemy@.last());
                    assert(problemy@[pp0.len() as int]@ == text_max_ucitele(u@, c as nat, d as int, max as nat));
                    assert forall|tt: Seq<char>| hlasi(pp0, tt) implies #[trigger] hlasi(problemy@, tt) by {
                        lemma_hlasi_push(pp0, problemy@.last(), tt);
                    }
                }
                let mut i: usize = 0;
                while i < n
                    invariant
                    problemy@.len() >= p2.len(),
                    forall|j: int| 0 <= j < p2.len() ==> #[trigger] problemy@[j] == p2[j],
                    problemy@.len() >= p3.len(),
                    forall|j: int| 0 <= j < p3.len() ==> #[trigger] problemy@[j] == p3[j],
                    problemy@.len() >= p4.len(),
                    forall|j: int| 0 <= j < p4.len() ==> #[trigger] problemy@[j] == p4[j],
                    vse_opravnene(*skola, *v, problemy@),
                        i <= n,
                        n == v.lekce@.len(),
                        rozvrh_ve_tydnu(*v),
                        rostouci_idx(oznacene@),
                        forall|i: int| 0 <= i < v.lekce@.len() && v.slot@[i].is_none() ==> oznacene@.contains(i as usize),
                        forall|a: int, b: int|
                            0 <= a < b < v.lekce@.len() && kolizni(*v, a, b) ==> oznacene@.contains(a as usize) && oznacene@.contains(b as usize),
                        oznaceni_zaku(*v, poruseni@, oznacene@),
                        forall|x: int| 0 <= x < n && volno_ucitele(skola, *v, x) ==> oznacene@.contains(x as usize),
                    decreases n - i,
                {
                    match v.slot[i] {
                        Some(s) => {
                            if s as usize / SLOTU == d && rovno(v.lekce[i].ucitel.as_str(), u.as_str()) {
                                let ghost o0 = oznacene@;
                                oznac(&mut oznacene, i);
                                proof {
                                    assert forall|y: usize| #[trigger] o0.contains(y) implies oznacene@.contains(y) by {}
                                }
                            }
                        },
                        None => {},
                    }
                    i = i + 1;
                }
            }
            d = d + 1;
        }
        proof {
            assert forall|x: int, dd: int|
                0 <= x < n && 0 <= dd < DNY && hotovy_klic(uc_occ.polozky@, k + 1, v.lekce@[x].ucitel@) && #[trigger] hodin_dne(
                    *v,
                    true,
                    v.lekce@[x].ucitel@,
                    dd,
                ) > max_ucitele(*skola, v.lekce@[x].ucitel@) implies hlasi(
                problemy@,
                text_max_ucitele(v.lekce@[x].ucitel@, hodin_dne(*v, true, v.lekce@[x].ucitel@, dd), dd, max_ucitele(*skola, v.lekce@[x].ucitel@)),
            ) by {
                if !hotovy_klic(uc_occ.polozky@, k as int, v.lekce@[x].ucitel@) {
                    let kk = choose|kk: int| 0 <= kk < k + 1 && (#[trigger] uc_occ.polozky@[kk]).0@ == v.lekce@[x].ucitel@;
                    assert(kk == k);
                }
            }
        }
        k = k + 1;
    }
    let ghost p5 = problemy@;
    proof {
        assert forall|x: int, dd: int|
            0 <= x < n && 0 <= dd < DNY && #[trigger] hodin_dne(*v, true, v.lekce@[x].ucitel@, dd) > max_ucitele(*skola, v.lekce@[x].ucitel@) implies hlasi(
            p5,
            text_max_ucitele(v.lekce@[x].ucitel@, hodin_dne(*v, true, v.lekce@[x].ucitel@, dd), dd, max_ucitele(*skola, v.lekce@[x].ucitel@)),
        ) by {
            lemma_hodin_dne_ma_klic(*v, true, v.lekce@[x].ucitel@, dd);
            assert(uc_occ.ma(v.lekce@[x].ucitel@));
            let kk = choose|kk: int| 0 <= kk < uc_occ.polozky@.len() && #[trigger] uc_occ.polozky@[kk].0@ == v.lekce@[x].ucitel@;
            assert(hotovy_klic(uc_occ.polozky@, uc_occ.polozky@.len() as int, v.lekce@[x].ucitel@));
        }
    }
    // 5. nejvýš dvě hodiny stejného předmětu a skupiny za den
    let kl = obsazenost_podle(v, false);
    let mut k: usize = 0;
    while k < kl.polozky.len()
        invariant
        problemy@.len() >= p2.len(),
        forall|j: int| 0 <= j < p2.len() ==> #[trigger] problemy@[j] == p2[j],
        problemy@.len() >= p3.len(),
        forall|j: int| 0 <= j < p3.len() ==> #[trigger] problemy@[j] == p3[j],
        problemy@.len() >= p4.len(),
        forall|j: int| 0 <= j < p4.len() ==> #[trigger] problemy@[j] == p4[j],
        problemy@.len() >= p5.len(),
        forall|j: int| 0 <= j < p5.len() ==> #[trigger] problemy@[j] == p5[j],
        vse_opravnene(*skola, *v, problemy@),
            k <= kl.polozky@.len(),
            forall|x: int| 0 <= x < kl.polozky@.len() ==> (#[trigger] kl.polozky@[x]).1@.len() == N_SLOTU,
            kl.dobre(),
            forall|x: Seq<char>| kl.ma(x) <==> ma_klic(*v, false, x, n as int),
            forall|x: Seq<char>, t: int| kl.ma(x) && 0 <= t < N_SLOTU ==> (#[trigger] kl.hodnota(x)@[t]) == klic_v_hodine(*v, false, x, n as int, t),
            forall|x: int, dd: int|
                0 <= x < n && 0 <= dd < DNY && prvni_predmetu(*v, x) && hotovy_klic(kl.polozky@, k as int, v.lekce@[x].klic_predmetu@) && #[trigger] hodin_dne(*v, false, v.lekce@[x].klic_predmetu@, dd) > MAX_STEJNY_PREDMET_DEN ==> hlasi(
                    problemy@,
                    text_predmetu(v.lekce@[x], dd, hodin_dne(*v, false, v.lekce@[x].klic_predmetu@, dd)),
                ),
            n == v.lekce@.len(),
            rozvrh_ve_tydnu(*v),
            rostouci_idx(oznacene@),
            forall|i: int| 0 <= i < v.lekce@.len() && v.slot@[i].is_none() ==> oznacene@.contains(i as usize),
            forall|a: int, b: int|
                0 <= a < b < v.lekce@.len() && kolizni(*v, a, b) ==> oznacene@.contains(a as usize) && oznacene@.contains(b as usize),
            oznaceni_zaku(*v, poruseni@, oznacene@),
            forall|x: int| 0 <= x < n && volno_ucitele(skola, *v, x) ==> oznacene@.contains(x as usize),
        decreases kl.polozky@.len() - k,
    {
        let klic = &kl.polozky[k].0;
        let o = &kl.polozky[k].1;
        proof {
            lemma_hodnota_polozky(kl, k as int);
        }
        let mut d: usize = 0;
        while d < DNY
            invariant
                k < kl.polozky@.len(),
                *klic == kl.polozky@[k as int].0,
                kl.ma(klic@),
                forall|x: Seq<char>| kl.ma(x) <==> ma_klic(*v, false, x, n as int),
                forall|t: int| 0 <= t < N_SLOTU ==> #[trigger] o@[t] == klic_v_hodine(*v, false, klic@, n as int, t),
                forall|x: int, dd: int|
                0 <= x < n && 0 <= dd < DNY && prvni_predmetu(*v, x) && hotovy_klic(kl.polozky@, k as int, v.lekce@[x].klic_predmetu@) && #[trigger] hodin_dne(*v, false, v.lekce@[x].klic_predmetu@, dd) > MAX_STEJNY_PREDMET_DEN ==> hlasi(
                    problemy@,
                    text_predmetu(v.lekce@[x], dd, hodin_dne(*v, false, v.lekce@[x].klic_predmetu@, dd)),
                ),
                forall|x: int, dd: int|
                0 <= x < n && 0 <= dd < d && prvni_predmetu(*v, x) && v.lekce@[x].klic_predmetu@ == klic@ && #[trigger] hodin_dne(*v, false, v.lekce@[x].klic_predmetu@, dd) > MAX_STEJNY_PREDMET_DEN ==> hlasi(
                    problemy@,
                    text_predmetu(v.lekce@[x], dd, hodin_dne(*v, false, v.lekce@[x].klic_predmetu@, dd)),
                ),
            problemy@.len() >= p2.len(),
            forall|j: int| 0 <= j < p2.len() ==> #[trigger] problemy@[j] == p2[j],
            problemy@.len() >= p3.len(),
            forall|j: int| 0 <= j < p3.len() ==> #[trigger] problemy@[j] == p3[j],
            problemy@.len() >= p4.len(),
            forall|j: int| 0 <= j < p4.len() ==> #[trigger] problemy@[j] == p4[j],
            problemy@.len() >= p5.len(),
            forall|j: int| 0 <= j < p5.len() ==> #[trigger] problemy@[j] == p5[j],
            vse_opravnene(*skola, *v, problemy@),
                d <= DNY,
                o@.len() == N_SLOTU,
                n == v.lekce@.len(),
                rozvrh_ve_tydnu(*v),
                rostouci_idx(oznacene@),
                forall|i: int| 0 <= i < v.lekce@.len() && v.slot@[i].is_none() ==> oznacene@.contains(i as usize),
                forall|a: int, b: int|
                    0 <= a < b < v.lekce@.len() && kolizni(*v, a, b) ==> oznacene@.contains(a as usize) && oznacene@.contains(b as usize),
                oznaceni_zaku(*v, poruseni@, oznacene@),
                forall|x: int| 0 <= x < n && volno_ucitele(skola, *v, x) ==> oznacene@.contains(x as usize),
            decreases DNY - d,
        {
            let c = pocet_dne(o, d);
            proof {
                assert(Seq::new(SLOTU as nat, |j: int| o@[d * SLOTU + j]) =~= Seq::new(
                    SLOTU as nat,
                    |j: int| klic_v_hodine(*v, false, klic@, n as int, d * SLOTU + j),
                ));
                assert(c == hodin_dne(*v, false, klic@, d as int));
            }
            if c > MAX_STEJNY_PREDMET_DEN {
                let mut ukazka: usize = n;
                let mut i: usize = 0;
                while i < n && ukazka == n
                    invariant
                    problemy@.len() >= p2.len(),
                    forall|j: int| 0 <= j < p2.len() ==> #[trigger] problemy@[j] == p2[j],
                    problemy@.len() >= p3.len(),
                    forall|j: int| 0 <= j < p3.len() ==> #[trigger] problemy@[j] == p3[j],
                    problemy@.len() >= p4.len(),
                    forall|j: int| 0 <= j < p4.len() ==> #[trigger] problemy@[j] == p4[j],
                    problemy@.len() >= p5.len(),
                    forall|j: int| 0 <= j < p5.len() ==> #[trigger] problemy@[j] == p5[j],
                    vse_opravnene(*skola, *v, problemy@),
                        i <= n,
                        n == v.lekce@.len(),
                        ukazka == n || ukazka < n,
                        ukazka == n ==> forall|j: int| 0 <= j < i ==> (#[trigger] v.lekce@[j]).klic_predmetu@ != klic@,
                        ukazka < n ==> ukazka < i && v.lekce@[ukazka as int].klic_predmetu@ == klic@ && forall|j: int|
                            0 <= j < ukazka ==> (#[trigger] v.lekce@[j]).klic_predmetu@ != klic@,
                    decreases n - i,
                {
                    if rovno(v.lekce[i].klic_predmetu.as_str(), klic.as_str()) {
                        ukazka = i;
                    }
                    i = i + 1;
                }
                proof {
                    if ukazka == n {
                        lemma_hodin_dne_ma_klic(*v, false, klic@, d as int);
                        let x = choose|x: int| 0 <= x < n && v.slot@[x].is_some() && #[trigger] klic_lekce(v.lekce@[x], false) == klic@;
                        assert(v.lekce@[x].klic_predmetu@ == klic@);
                    }
                    assert forall|x: int| 0 <= x < n && prvni_predmetu(*v, x) && v.lekce@[x].klic_predmetu@ == klic@ implies x == ukazka by {
                        if x < ukazka {
                            assert(v.lekce@[x].klic_predmetu@ != klic@);
                        }
                        if x > ukazka {
                            assert(v.lekce@[ukazka as int].klic_predmetu@ != v.lekce@[x].klic_predmetu@);
                        }
                    }
                    assert(prvni_predmetu(*v, ukazka as int));
                }
                if ukazka < n {
                    let p = popis_lekce(&v.lekce[ukazka]);
                    let cc = cislo(c as u64);
                    let casti = ["Více než 2 h stejného předmětu za den: ", p.as_str(), " – ", nazev_dne(d), " (", cc.as_str(), " h)."];
                    let text = spoj(&casti);
                    proof {
                        let c7 = casti@.map_values(|x: &str| x@);
                        assert(c7 =~= seq!["Více než 2 h stejného předmětu za den: "@, p@, " – "@, crate::data::nazev_dne_spec(d as int), " ("@, cc@, " h)."@]);
                        reveal_with_fuel(crate::text::spojeni, 8);
                        assert(text@ =~= text_predmetu(v.lekce@[ukazka as int], d as int, c as nat));
                        assert(text@ == text_predmetu(
                            v.lekce@[ukazka as int],
                            d as int,
                            hodin_dne(*v, false, v.lekce@[ukazka as int].klic_predmetu@, d as int),
                        ));
                        assert(opravneny(*skola, *v, text@));
                    }
                    let ghost pp0 = problemy@;
                    problemy.push(text);
                    proof {
                        assert(problemy@ == pp0.push(problemy@.last()));
                        lemma_opravnene_push(*skola, *v, pp0, problemy@.last());
                        assert(problemy@[pp0.len() as int]@ == text_predmetu(v.lekce@[ukazka as int], d as int, c as nat));
                        assert forall|tt: Seq<char>| hlasi(pp0, tt) implies #[trigger] hlasi(problemy@, tt) by {
                            lemma_hlasi_push(pp0, problemy@.last(), tt);
                        }
                    }
                }
                let mut i: usize = 0;
                while i < n
                    invariant
                    problemy@.len() >= p2.len(),
                    forall|j: int| 0 <= j < p2.len() ==> #[trigger] problemy@[j] == p2[j],
                    problemy@.len() >= p3.len(),
                    forall|j: int| 0 <= j < p3.len() ==> #[trigger] problemy@[j] == p3[j],
                    problemy@.len() >= p4.len(),
                    forall|j: int| 0 <= j < p4.len() ==> #[trigger] problemy@[j] == p4[j],
                    problemy@.len() >= p5.len(),
                    forall|j: int| 0 <= j < p5.len() ==> #[trigger] problemy@[j] == p5[j],
                    vse_opravnene(*skola, *v, problemy@),
                        i <= n,
                        n == v.lekce@.len(),
                        rozvrh_ve_tydnu(*v),
                        rostouci_idx(oznacene@),
                        forall|i: int| 0 <= i < v.lekce@.len() && v.slot@[i].is_none() ==> oznacene@.contains(i as usize),
                        forall|a: int, b: int|
                            0 <= a < b < v.lekce@.len() && kolizni(*v, a, b) ==> oznacene@.contains(a as usize) && oznacene@.contains(b as usize),
                        oznaceni_zaku(*v, poruseni@, oznacene@),
                        forall|x: int| 0 <= x < n && volno_ucitele(skola, *v, x) ==> oznacene@.contains(x as usize),
                    decreases n - i,
                {
                    match v.slot[i] {
                        Some(s) => {
                            if s as usize / SLOTU == d && rovno(v.lekce[i].klic_predmetu.as_str(), klic.as_str()) {
                                let ghost o0 = oznacene@;
                                oznac(&mut oznacene, i);
                                proof {
                                    assert forall|y: usize| #[trigger] o0.contains(y) implies oznacene@.contains(y) by {}
                                }
                            }
                        },
                        None => {},
                    }
                    i = i + 1;
                }
            }
            d = d + 1;
        }
        proof {
            assert forall|x: int, dd: int|
                0 <= x < n && 0 <= dd < DNY && prvni_predmetu(*v, x) && hotovy_klic(kl.polozky@, k + 1, v.lekce@[x].klic_predmetu@)
                    && #[trigger] hodin_dne(*v, false, v.lekce@[x].klic_predmetu@, dd) > MAX_STEJNY_PREDMET_DEN implies hlasi(
                problemy@,
                text_predmetu(v.lekce@[x], dd, hodin_dne(*v, false, v.lekce@[x].klic_predmetu@, dd)),
            ) by {
                if !hotovy_klic(kl.polozky@, k as int, v.lekce@[x].klic_predmetu@) {
                    let kk = choose|kk: int| 0 <= kk < k + 1 && (#[trigger] kl.polozky@[kk]).0@ == v.lekce@[x].klic_predmetu@;
                    assert(kk == k);
                }
            }
        }
        k = k + 1;
    }
    let ghost p6 = problemy@;
    proof {
        assert forall|x: int, dd: int|
            0 <= x < n && 0 <= dd < DNY && prvni_predmetu(*v, x) && #[trigger] hodin_dne(*v, false, v.lekce@[x].klic_predmetu@, dd)
                > MAX_STEJNY_PREDMET_DEN implies hlasi(
            p6,
            text_predmetu(v.lekce@[x], dd, hodin_dne(*v, false, v.lekce@[x].klic_predmetu@, dd)),
        ) by {
            lemma_hodin_dne_ma_klic(*v, false, v.lekce@[x].klic_predmetu@, dd);
            assert(kl.ma(v.lekce@[x].klic_predmetu@));
            let kk = choose|kk: int| 0 <= kk < kl.polozky@.len() && #[trigger] kl.polozky@[kk].0@ == v.lekce@[x].klic_predmetu@;
            assert(hotovy_klic(kl.polozky@, kl.polozky@.len() as int, v.lekce@[x].klic_predmetu@));
        }
    }
    // 6. místnosti
    let mut i: usize = 0;
    while i < n
        invariant
        problemy@.len() >= p2.len(),
        forall|j: int| 0 <= j < p2.len() ==> #[trigger] problemy@[j] == p2[j],
        problemy@.len() >= p3.len(),
        forall|j: int| 0 <= j < p3.len() ==> #[trigger] problemy@[j] == p3[j],
        problemy@.len() >= p4.len(),
        forall|j: int| 0 <= j < p4.len() ==> #[trigger] problemy@[j] == p4[j],
        problemy@.len() >= p6.len(),
        forall|j: int| 0 <= j < p6.len() ==> #[trigger] problemy@[j] == p6[j],
        problemy@.len() >= p5.len(),
        forall|j: int| 0 <= j < p5.len() ==> #[trigger] problemy@[j] == p5[j],
        vse_opravnene(*skola, *v, problemy@),
            i <= n,
            n == v.lekce@.len(),
            rozvrh_ve_tydnu(*v),
            rostouci_idx(oznacene@),
            forall|i: int| 0 <= i < v.lekce@.len() && v.slot@[i].is_none() ==> oznacene@.contains(i as usize),
            forall|a: int, b: int|
                0 <= a < b < v.lekce@.len() && kolizni(*v, a, b) ==> oznacene@.contains(a as usize) && oznacene@.contains(b as usize),
            oznaceni_zaku(*v, poruseni@, oznacene@),
            forall|x: int| 0 <= x < n && volno_ucitele(skola, *v, x) ==> oznacene@.contains(x as usize),
            forall|x: int| 0 <= x < i && v.slot@[x].is_some() && v.mistnost@[x].is_none() ==> oznacene@.contains(x as usize),
            forall|x: int| 0 <= x < i && nevhodna_mistnost(*skola, *v, x) ==> oznacene@.contains(x as usize),
            forall|x: int| 0 <= x < i && #[trigger] preplnena(*skola, *v, x) ==> hlasi(varovani@, varovani_kapacity(*skola, *v, x)),
            varovani_oduvodnena(*skola, *v, varovani@),
            forall|x: int|
                0 <= x < i && v.slot@[x].is_some() && v.mistnost@[x].is_none() ==> hlasi(
                    problemy@,
                    #[trigger] text_bez_mistnosti(v.lekce@[x], v.slot@[x].unwrap() as int),
                ),
            forall|x: int|
                0 <= x < i && #[trigger] nevhodna_mistnost(*skola, *v, x) ==> hlasi(
                    problemy@,
                    text_nevhodne(v.mistnost@[x].unwrap()@, v.lekce@[x]),
                ),
        decreases n - i,
    {
        let l = &v.lekce[i];
        match v.slot[i] {
            Some(s) => {
                match &v.mistnost[i] {
                    None => {
                        let p = popis_lekce(l);
                        let kd = kdy(s as usize);
                        let casti = ["Bez vhodné místnosti: ", p.as_str(), " – ", kd.as_str()];
                        let text = spoj(&casti);
                        proof {
                            let c4 = casti@.map_values(|x: &str| x@);
                            assert(c4 =~= seq!["Bez vhodné místnosti: "@, p@, " – "@, kd@]);
                            reveal_with_fuel(crate::text::spojeni, 5);
                            assert(text@ =~= text_bez_mistnosti(v.lekce@[i as int], s as int));
                            assert(opravneny(*skola, *v, text@));
                        }
                        let ghost pp0 = problemy@;
                        problemy.push(text);
                        proof {
                            assert(problemy@ == pp0.push(problemy@.last()));
                            lemma_opravnene_push(*skola, *v, pp0, problemy@.last());
                            assert(problemy@[pp0.len() as int]@ == text_bez_mistnosti(v.lekce@[i as int], s as int));
                            assert forall|tt: Seq<char>| hlasi(pp0, tt) implies #[trigger] hlasi(problemy@, tt) by {
                                lemma_hlasi_push(pp0, problemy@.last(), tt);
                            }
                        }
                        let ghost o0 = oznacene@;
                        oznac(&mut oznacene, i);
                        proof {
                            assert forall|y: usize| #[trigger] o0.contains(y) implies oznacene@.contains(y) by {}
                        }
                    },
                    Some(r) => {
                        let pov = povolene_mistnosti(skola, l);
                        if !crate::rok::obsahuje(&pov, r.as_str()) {
                            let p = popis_lekce(l);
                            let casti = ["Nevhodná místnost ", r.as_str(), " pro ", p.as_str()];
                            let text = spoj(&casti);
                            proof {
                                let c4 = casti@.map_values(|x: &str| x@);
                                assert(c4 =~= seq!["Nevhodná místnost "@, r@, " pro "@, p@]);
                                reveal_with_fuel(crate::text::spojeni, 5);
                                assert(text@ =~= text_nevhodne(v.mistnost@[i as int].unwrap()@, v.lekce@[i as int]));
                                assert(nevhodna_mistnost(*skola, *v, i as int));
                                assert(opravneny(*skola, *v, text@));
                            }
                            let ghost pp0 = problemy@;
                            problemy.push(text);
                            proof {
                                assert(problemy@ == pp0.push(problemy@.last()));
                                lemma_opravnene_push(*skola, *v, pp0, problemy@.last());
                                assert(problemy@[pp0.len() as int]@ == text_nevhodne(v.mistnost@[i as int].unwrap()@, v.lekce@[i as int]));
                                assert forall|tt: Seq<char>| hlasi(pp0, tt) implies #[trigger] hlasi(problemy@, tt) by {
                                    lemma_hlasi_push(pp0, problemy@.last(), tt);
                                }
                            }
                            let ghost o0 = oznacene@;
                            oznac(&mut oznacene, i);
                            proof {
                                assert forall|y: usize| #[trigger] o0.contains(y) implies oznacene@.contains(y) by {}
                            }
                        }
                        let kap: usize = match skola.mistnost(r.as_str()) {
                            Some(m) => m.kapacita as usize,
                            None => 0,
                        };
                        let zaku = v.pocet_realnych_zaku(i);
                        proof {
                            assert(kap == crate::solver::kapacita_mistnosti(*skola, r@));
                        }
                        let ghost w0 = varovani@;
                        if zaku > kap {
                            let p = popis_lekce(l);
                            let cz = cislo(zaku as u64);
                            let ck = cislo(kap as u64);
                            let casti = ["Kapacita: ", p.as_str(), " (", cz.as_str(), " žáků) v ", r.as_str(), " (kapacita ", ck.as_str(), ")."];
                            let text = spoj(&casti);
                            proof {
                                let c9 = casti@.map_values(|x: &str| x@);
                                assert(c9 =~= seq!["Kapacita: "@, p@, " ("@, cz@, " žáků) v "@, r@, " (kapacita "@, ck@, ")."@]);
                                reveal_with_fuel(crate::text::spojeni, 10);
                                assert(text@ =~= varovani_kapacity(*skola, *v, i as int));
                                assert(preplnena(*skola, *v, i as int));
                            }
                            varovani.push(text);
                            proof {
                                assert(varovani@ == w0.push(varovani@.last()));
                                assert(varovani@[w0.len() as int]@ == varovani_kapacity(*skola, *v, i as int));
                                assert forall|tt: Seq<char>| hlasi(w0, tt) implies #[trigger] hlasi(varovani@, tt) by {
                                    lemma_hlasi_push(w0, varovani@.last(), tt);
                                }
                                assert forall|j: int| 0 <= j < varovani@.len() implies exists|x: int|
                                    0 <= x < v.lekce@.len() && preplnena(*skola, *v, x) && (#[trigger] varovani@[j])@ == varovani_kapacity(*skola, *v, x) by {
                                    if j < w0.len() {
                                        assert(varovani@[j] == w0[j]);
                                    }
                                }
                            }
                        }
                    },
                }
            },
            None => {},
        }
        i = i + 1;
    }
    let ghost p7 = problemy@;
    // 7. statistiky tříd
    let mut statistiky: Vec<StatTridy> = Vec::new();
    let mut t: usize = 0;
    while t < skola.tridy.len()
        invariant
        problemy@.len() >= p2.len(),
        forall|j: int| 0 <= j < p2.len() ==> #[trigger] problemy@[j] == p2[j],
        problemy@.len() >= p3.len(),
        forall|j: int| 0 <= j < p3.len() ==> #[trigger] problemy@[j] == p3[j],
        problemy@.len() >= p4.len(),
        forall|j: int| 0 <= j < p4.len() ==> #[trigger] problemy@[j] == p4[j],
        problemy@.len() >= p6.len(),
        forall|j: int| 0 <= j < p6.len() ==> #[trigger] problemy@[j] == p6[j],
        problemy@.len() >= p5.len(),
        forall|j: int| 0 <= j < p5.len() ==> #[trigger] problemy@[j] == p5[j],
        vse_opravnene(*skola, *v, problemy@),
            t <= skola.tridy@.len(),
            skupiny_statistik(*v, stat_zaka@),
            forall|z: u32| #[trigger] v.zaci_tridy@.contains_key(z) ==> ma_statistiku(*v, stat_zaka@, z),
            forall|e: int| 0 <= e < statistiky@.len() ==> blok_tridy(*v, #[trigger] statistiky@[e]),
            forall|e: int| 0 <= e < statistiky@.len() ==> rane_tridy(*v, #[trigger] statistiky@[e]),
            forall|t2: int, z: u32|
                #![trigger skola.tridy@[t2], v.zaci_tridy@[z]]
                0 <= t2 < t && v.zaci_tridy@.contains_key(z) && v.zaci_tridy@[z]@ == skola.tridy@[t2].id@
                    ==> ma_statistiku_tridy(statistiky@, skola.tridy@[t2].id@),
        decreases skola.tridy@.len() - t,
    {
        let id = &skola.tridy[t].id;
        let ghost mut hotovo = false;
        let mut k: usize = 0;
        while k < stat_zaka.len()
            invariant
            problemy@.len() >= p2.len(),
            forall|j: int| 0 <= j < p2.len() ==> #[trigger] problemy@[j] == p2[j],
            problemy@.len() >= p3.len(),
            forall|j: int| 0 <= j < p3.len() ==> #[trigger] problemy@[j] == p3[j],
            problemy@.len() >= p4.len(),
            forall|j: int| 0 <= j < p4.len() ==> #[trigger] problemy@[j] == p4[j],
            problemy@.len() >= p6.len(),
            forall|j: int| 0 <= j < p6.len() ==> #[trigger] problemy@[j] == p6[j],
            problemy@.len() >= p5.len(),
            forall|j: int| 0 <= j < p5.len() ==> #[trigger] problemy@[j] == p5[j],
            vse_opravnene(*skola, *v, problemy@),
                k <= stat_zaka@.len(),
                t < skola.tridy@.len(),
                *id == skola.tridy@[t as int].id,
                skupiny_statistik(*v, stat_zaka@),
                forall|z: u32| #[trigger] v.zaci_tridy@.contains_key(z) ==> ma_statistiku(*v, stat_zaka@, z),
                forall|e: int| 0 <= e < statistiky@.len() ==> blok_tridy(*v, #[trigger] statistiky@[e]),
                forall|e: int| 0 <= e < statistiky@.len() ==> rane_tridy(*v, #[trigger] statistiky@[e]),
                forall|t2: int, z: u32|
                    #![trigger skola.tridy@[t2], v.zaci_tridy@[z]]
                    0 <= t2 < t && v.zaci_tridy@.contains_key(z) && v.zaci_tridy@[z]@ == skola.tridy@[t2].id@
                        ==> ma_statistiku_tridy(statistiky@, skola.tridy@[t2].id@),
                hotovo ==> ma_statistiku_tridy(statistiky@, id@),
                !hotovo ==> forall|x: int| 0 <= x < k ==> (#[trigger] stat_zaka@[x]).0@ != id@,
            ensures
                !hotovo ==> forall|x: int| 0 <= x < stat_zaka@.len() ==> (#[trigger] stat_zaka@[x]).0@ != id@,
            decreases stat_zaka@.len() - k,
        {
            if rovno(stat_zaka[k].0.as_str(), id.as_str()) {
                let st = &stat_zaka[k].1;
                let mut virt: usize = 0;
                let mut q: usize = 0;
                while q < zaci.len()
                    invariant
                    problemy@.len() >= p2.len(),
                    forall|j: int| 0 <= j < p2.len() ==> #[trigger] problemy@[j] == p2[j],
                    problemy@.len() >= p3.len(),
                    forall|j: int| 0 <= j < p3.len() ==> #[trigger] problemy@[j] == p3[j],
                    problemy@.len() >= p4.len(),
                    forall|j: int| 0 <= j < p4.len() ==> #[trigger] problemy@[j] == p4[j],
                    problemy@.len() >= p6.len(),
                    forall|j: int| 0 <= j < p6.len() ==> #[trigger] problemy@[j] == p6[j],
                    problemy@.len() >= p5.len(),
                    forall|j: int| 0 <= j < p5.len() ==> #[trigger] problemy@[j] == p5[j],
                    vse_opravnene(*skola, *v, problemy@),
                        q <= zaci@.len(),
                        virt <= q,
                    decreases zaci@.len() - q,
                {
                    if rovno(zaci[q].1.as_str(), id.as_str()) && obsahuje_u32(&v.virtualni_zaci, zaci[q].0) {
                        virt = virt + 1;
                    }
                    q = q + 1;
                }
                let mut hodin_min: usize = if st.len() > 0 { usize::MAX } else { 0 };
                let mut hodin_max: usize = 0;
                let mut rane_dny: usize = 0;
                let mut odpoledni: usize = 0;
                let mut nejdelsi_blok: usize = 0;
                let ghost gk = stat_zaka@[k as int];
                let mut okna: u128 = 0;
                let mut q: usize = 0;
                while q < st.len()
                    invariant
                        *st == stat_zaka@[k as int].1,
                        forall|j: int| 0 <= j < q ==> (#[trigger] st@[j]).3 <= nejdelsi_blok,
                        q == 0 ==> nejdelsi_blok == 0,
                        q > 0 ==> exists|j: int| 0 <= j < q && (#[trigger] st@[j]).3 == nejdelsi_blok,
                        forall|j: int| 0 <= j < q ==> (#[trigger] st@[j]).1 <= rane_dny,
                        q == 0 ==> rane_dny == 0,
                        q > 0 ==> exists|j: int| 0 <= j < q && (#[trigger] st@[j]).1 == rane_dny,
                    problemy@.len() >= p2.len(),
                    forall|j: int| 0 <= j < p2.len() ==> #[trigger] problemy@[j] == p2[j],
                    problemy@.len() >= p3.len(),
                    forall|j: int| 0 <= j < p3.len() ==> #[trigger] problemy@[j] == p3[j],
                    problemy@.len() >= p4.len(),
                    forall|j: int| 0 <= j < p4.len() ==> #[trigger] problemy@[j] == p4[j],
                    problemy@.len() >= p6.len(),
                    forall|j: int| 0 <= j < p6.len() ==> #[trigger] problemy@[j] == p6[j],
                    problemy@.len() >= p5.len(),
                    forall|j: int| 0 <= j < p5.len() ==> #[trigger] problemy@[j] == p5[j],
                    vse_opravnene(*skola, *v, problemy@),
                        q <= st@.len(),
                    decreases st@.len() - q,
                {
                    let x = st[q];
                    if x.0 < hodin_min {
                        hodin_min = x.0;
                    }
                    if x.0 > hodin_max {
                        hodin_max = x.0;
                    }
                    if x.1 > rane_dny {
                        rane_dny = x.1;
                    }
                    if x.2 > odpoledni {
                        odpoledni = x.2;
                    }
                    if x.3 > nejdelsi_blok {
                        nejdelsi_blok = x.3;
                    }
                    okna = okna.saturating_add(x.4 as u128);
                    q = q + 1;
                }
                let pocet: u128 = if st.len() > 0 { st.len() as u128 } else { 1 };
                let setiny: u128 = if okna > u128::MAX / 100 { u128::MAX } else { okna * 100 };
                let prumer: u128 = setiny / pocet;
                let zaku = if st.len() > virt { st.len() - virt } else { 0 };
                let ghost s0 = statistiky@;
                statistiky.push(StatTridy {
                    trida: id.clone(),
                    zaku,
                    hodin_min,
                    hodin_max,
                    rane_dny,
                    odpoledni,
                    nejdelsi_blok,
                    okna_prumer_setiny: if prumer > usize::MAX as u128 { usize::MAX } else { prumer as usize },
                });
                proof {
                    let e = statistiky@.last();
                    assert(e.trida@ == id@);
                    assert(stat_zaka@[k as int].0@ == id@);
                    assert(st@.len() > 0);
                    lemma_statistika_tridy(*v, stat_zaka@, k as int, e);
                    assert forall|x: int| 0 <= x < statistiky@.len() implies blok_tridy(*v, #[trigger] statistiky@[x]) && rane_tridy(
                        *v,
                        statistiky@[x],
                    ) by {
                        if x < s0.len() {
                            assert(statistiky@[x] == s0[x]);
                        }
                    }
                    assert(statistiky@[s0.len() as int].trida@ == id@);
                    assert(ma_statistiku_tridy(statistiky@, id@));
                    assert forall|t2: int, z: u32|
                        #![trigger skola.tridy@[t2], v.zaci_tridy@[z]]
                        0 <= t2 < t && v.zaci_tridy@.contains_key(z) && v.zaci_tridy@[z]@ == skola.tridy@[t2].id@
                            implies ma_statistiku_tridy(statistiky@, skola.tridy@[t2].id@) by {
                        let ee = choose|ee: int| 0 <= ee < s0.len() && (#[trigger] s0[ee]).trida@ == skola.tridy@[t2].id@;
                        assert(statistiky@[ee] == s0[ee]);
                    }
                    hotovo = true;
                }
                break;
            }
            k = k + 1;
        }
        proof {
            assert forall|t2: int, z: u32|
                #![trigger skola.tridy@[t2], v.zaci_tridy@[z]]
                0 <= t2 < t + 1 && v.zaci_tridy@.contains_key(z) && v.zaci_tridy@[z]@ == skola.tridy@[t2].id@
                    implies ma_statistiku_tridy(statistiky@, skola.tridy@[t2].id@) by {
                if t2 == t && !hotovo {
                    assert(ma_statistiku(*v, stat_zaka@, z));
                    let (a2, j) = choose|a2: int, j: int|
                        0 <= a2 < stat_zaka@.len() && 0 <= j < stat_zaka@[a2].1@.len() && stat_zaka@[a2].0@ == v.zaci_tridy@[z]@
                            && (#[trigger] stat_zaka@[a2].1@[j]).3 == blok_zaka(*v, z, 2 * DNY);
                    assert(stat_zaka@[a2].0@ != id@);
                }
            }
        }
        t = t + 1;
    }
    proof {
        assert forall|z: u32, w: int, d: int, i: int|
            #![trigger porusuje_den(*skola, *v, z, w, d), lekce_zaka_dne(*v, i, z, d)]
            v.zaci_tridy@.contains_key(z) && 0 <= w < 2 && 0 <= d < DNY && porusuje_den(*skola, *v, z, w, d) && 0 <= i
                < v.lekce@.len() && lekce_zaka_dne(*v, i, z, d) implies oznacene@.contains(i as usize) by {
            assert(zaznamenan(poruseni@, z, d));
            let q = choose|q: int| 0 <= q < poruseni@.len() && (#[trigger] poruseni@[q]).2 == d && poruseni@[q].3@.contains(z);
            let x = choose|x: int| 0 <= x < poruseni@[q].3@.len() && poruseni@[q].3@[x] == z;
            assert(lekce_zaka_dne(*v, i, poruseni@[q].3@[x], poruseni@[q].2 as int));
        }
        assert forall|z: u32, w: int, i: int|
            #![trigger porusuje_tyden(*skola, *v, z, w), lekce_zaka_dne(*v, i, z, DNY as int)]
            v.zaci_tridy@.contains_key(z) && 0 <= w < 2 && porusuje_tyden(*skola, *v, z, w) && 0 <= i < v.lekce@.len()
                && lekce_zaka_dne(*v, i, z, DNY as int) implies oznacene@.contains(i as usize) by {
            assert(zaznamenan(poruseni@, z, 99));
            let q = choose|q: int| 0 <= q < poruseni@.len() && (#[trigger] poruseni@[q]).2 == 99 && poruseni@[q].3@.contains(z);
            let x = choose|x: int| 0 <= x < poruseni@[q].3@.len() && poruseni@[q].3@[x] == z;
            assert(lekce_zaka_dne(*v, i, poruseni@[q].3@[x], poruseni@[q].2 as int));
        }
    }
    proof {
        assert forall|i: int| 0 <= i < v.lekce@.len() && v.slot@[i].is_none() implies hlasi(problemy@, text_neumistene(#[trigger] v.lekce@[i])) by {
            let j = choose|j: int| 0 <= j < p1.len() && (#[trigger] p1[j])@ == text_neumistene(v.lekce@[i]);
            assert(p2[j] == p1[j]);
            assert(problemy@[j] == p2[j]);
        }
        assert forall|a: int, b: int|
            0 <= a < b < v.lekce@.len() && prekryti(*v, a, b) && v.lekce@[a].ucitel@ == v.lekce@[b].ucitel@ implies #[trigger] hlasi(
                problemy@,
                text_kolize_ucitele(*v, a, b, zacatek_prekryti(*v, a, b)),
            ) by {
            let t = text_kolize_ucitele(*v, a, b, zacatek_prekryti(*v, a, b));
            assert(hlasi(p2, t));
            let j = choose|j: int| 0 <= j < p2.len() && (#[trigger] p2[j])@ == t;
            assert(problemy@[j] == p2[j]);
        }
    }
    proof {
        assert forall|z: u32, w: int, d: int, druh: Seq<char>|
            #![trigger druh_v_tydnu(*skola, *v, z, w, d, druh)]
            v.zaci_tridy@.contains_key(z) && 0 <= w < 2 && druh_v_tydnu(*skola, *v, z, w, d, druh) implies nahlaseno_poruseni(
                *skola,
                *v,
                problemy@,
                v.zaci_tridy@[z]@,
                druh,
                d,
            ) by {
            assert(zapsan(poruseni@, v.zaci_tridy@[z]@, druh, d, z));
            let q2 = choose|q2: int|
                0 <= q2 < poruseni@.len() && (#[trigger] poruseni@[q2]).0@ == v.zaci_tridy@[z]@ && poruseni@[q2].1@ == druh
                    && poruseni@[q2].2 == d && poruseni@[q2].3@.contains(z);
            assert(nahlaseno_poruseni(*skola, *v, p3, poruseni@[q2].0@, poruseni@[q2].1@, poruseni@[q2].2 as int));
            let st2 = porusitele(*skola, *v, v.zaci_tridy@[z]@, druh, d);
            lemma_hlasi_prefix(
                p3,
                problemy@,
                text_poruseni(
                    *skola,
                    v.zaci_tridy@[z]@,
                    druh,
                    d,
                    kdo_text(forall|z2: u32| #[trigger] st2.contains(z2) ==> v.virtualni_zaci@.contains(z2), st2.len()),
                ),
            );
        }
    }
    proof {
        assert forall|i: int, t: int| 0 <= i < n && #[trigger] ve_volnu(*skola, *v, i, t) implies hlasi(problemy@, text_volna(*v, i, t)) by {
            lemma_hlasi_prefix(p4, problemy@, text_volna(*v, i, t));
        }
        assert forall|a: int, b: int|
            0 <= a < b < n && prekryti(*v, a, b) && stejna_mistnost(*v, a, b) implies #[trigger] hlasi(
                problemy@,
                text_kolize_mistnosti(*v, a, b, zacatek_prekryti(*v, a, b)),
            ) by {
            lemma_hlasi_prefix(p2, problemy@, text_kolize_mistnosti(*v, a, b, zacatek_prekryti(*v, a, b)));
        }
        assert forall|a: int, b: int|
            0 <= a < b < n && prekryti(*v, a, b) && spolecny_zak(*v, a, b) implies #[trigger] hlasi(
                problemy@,
                text_kolize_zaku(*v, a, b, zacatek_prekryti(*v, a, b), spolecnych_spec(v.lekce@[a].zaci@, v.lekce@[b].zaci@)),
            ) by {
            lemma_hlasi_prefix(
                p2,
                problemy@,
                text_kolize_zaku(*v, a, b, zacatek_prekryti(*v, a, b), spolecnych_spec(v.lekce@[a].zaci@, v.lekce@[b].zaci@)),
            );
        }
        assert(p7 == problemy@);
        assert forall|x: int, dd: int|
            0 <= x < n && 0 <= dd < DNY && #[trigger] hodin_dne(*v, true, v.lekce@[x].ucitel@, dd) > max_ucitele(*skola, v.lekce@[x].ucitel@) implies hlasi(
            problemy@,
            text_max_ucitele(v.lekce@[x].ucitel@, hodin_dne(*v, true, v.lekce@[x].ucitel@, dd), dd, max_ucitele(*skola, v.lekce@[x].ucitel@)),
        ) by {
            lemma_hlasi_prefix(
                p5,
                problemy@,
                text_max_ucitele(v.lekce@[x].ucitel@, hodin_dne(*v, true, v.lekce@[x].ucitel@, dd), dd, max_ucitele(*skola, v.lekce@[x].ucitel@)),
            );
        }
        assert forall|x: int, dd: int|
            0 <= x < n && 0 <= dd < DNY && prvni_predmetu(*v, x) && #[trigger] hodin_dne(*v, false, v.lekce@[x].klic_predmetu@, dd)
                > MAX_STEJNY_PREDMET_DEN implies hlasi(
            problemy@,
            text_predmetu(v.lekce@[x], dd, hodin_dne(*v, false, v.lekce@[x].klic_predmetu@, dd)),
        ) by {
            lemma_hlasi_prefix(p6, problemy@, text_predmetu(v.lekce@[x], dd, hodin_dne(*v, false, v.lekce@[x].klic_predmetu@, dd)));
        }
    }
    Kontrola { problemy, varovani, problemove_lekce: oznacene, statistiky }
}

} // verus!
