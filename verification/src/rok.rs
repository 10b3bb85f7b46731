//! Operace se školním rokem: rozdělení AJa/AJb 15:15, odhad pohlaví ze jména a načtení
//! seznamu jmen, přechod do nového roku (postup / propadnutí / odchod / maturita),
//! import voleb a katalogů z minulého roku, doplnění chybějících voleb a rozdělení
//! přeplněné skupiny.

use crate::data::{Pohlavi, SkupinaAj, StavStudenta, Student};
use crate::mapa::Mapa;
use crate::text::{
    konci, konci_na, lex_mensi, mala_pismena, na_mala, na_velka, orez, orez_znaky, pohled_vv, posledni,
    posledni_vyskyt, radky, radky_znaky, retezec, rovno, slova, slova_znaky, usek, velka_pismena, znaky,
};
pub use crate::doplneni::doplnit_volby;
pub use crate::skupiny::rozdel_skupinu;
pub use crate::vychozi::zastupni_zaci;
use vstd::prelude::*;

verus! {

/// Co se se žákem stane na konci roku.
#[derive(Clone, Copy, Debug, PartialEq, Eq, Structural)]
pub enum Zmena {
    Postupuje,
    Propada,
    Odchazi,
}

impl Zmena {
    pub fn nazev(self) -> (r: &'static str)
        ensures
            self == Zmena::Postupuje ==> r@ == "postupuje"@,
            self == Zmena::Propada ==> r@ == "propadá"@,
            self == Zmena::Odchazi ==> r@ == "odchází"@,
    {
        match self {
            Zmena::Postupuje => "postupuje",
            Zmena::Propada => "propadá",
            Zmena::Odchazi => "odchází",
        }
    }
}

#[derive(Clone, Debug, PartialEq)]
pub struct NovyZak {
    pub jmeno: String,
    pub pohlavi: Pohlavi,
    pub skupina: SkupinaAj,
}

/// Ženská koncovka příjmení.
pub open spec fn zenska_koncovka(w: Seq<char>) -> bool {
    konci_na(w, "ová"@) || konci_na(w, "ská"@) || konci_na(w, "cká"@)
}

/// Mužská křestní jména končící na -a.
pub open spec fn muzske_na_a(w: Seq<char>) -> bool {
    w == "jirka"@ || w == "honza"@ || w == "míša"@ || w == "saša"@ || w == "nikola"@ || w == "luka"@
        || w == "ilja"@ || w == "kuba"@
}

/// Slova jména převedená na malá písmena.
pub open spec fn mala_slova(jmeno: Seq<char>) -> Seq<Seq<char>> {
    slova(jmeno).map_values(|w: Seq<char>| mala_pismena(w))
}

/// Odhad pohlaví z českého jména: příjmení na -ová/-ská/-cká ➡ dívka; poslední z aspoň
/// dvou slov na -á ➡ dívka; jinak křestní jméno na -a (kromě mužských) nebo -ie ➡ dívka.
pub open spec fn odhad_spec(jmeno: Seq<char>) -> Pohlavi {
    odhad_z_malych(mala_slova(jmeno))
}

/// Odhad pohlaví ze slov jména už převedených na malá písmena.
pub open spec fn odhad_z_malych(sl: Seq<Seq<char>>) -> Pohlavi {
    if exists|i: int| 0 <= i < sl.len() && zenska_koncovka(#[trigger] sl[i]) {
        Pohlavi::D
    } else if sl.len() >= 2 && konci_na(sl.last(), "á"@) {
        Pohlavi::D
    } else {
        let k = if sl.len() > 0 { sl[0] } else { Seq::<char>::empty() };
        if (konci_na(k, "a"@) && !muzske_na_a(k)) || konci_na(k, "ie"@) {
            Pohlavi::D
        } else {
            Pohlavi::CH
        }
    }
}

fn je_muzske_na_a(w: &Vec<char>) -> (r: bool)
    ensures
        r == muzske_na_a(w@),
{
    let s = retezec(w);
    let t = s.as_str();
    rovno(t, "jirka") || rovno(t, "honza") || rovno(t, "míša") || rovno(t, "saša") || rovno(t, "nikola")
        || rovno(t, "luka") || rovno(t, "ilja") || rovno(t, "kuba")
}

/// Odhad pohlaví z českého jména.
pub fn odhad_pohlavi(jmeno: &str) -> (r: Pohlavi)
    ensures
        r == odhad_spec(jmeno@),
{
    let zn = znaky(jmeno);
    let sl = slova_znaky(&zn);
    let mut mala: Vec<Vec<char>> = Vec::new();
    let mut i: usize = 0;
    while i < sl.len()
        invariant
            i <= sl@.len(),
            pohled_vv(sl@) == slova(jmeno@),
            zn@ == jmeno@,
            mala@.len() == i,
            forall|j: int| 0 <= j < i ==> (#[trigger] mala@[j])@ == mala_pismena(sl@[j]@),
        decreases sl@.len() - i,
    {
        let s = retezec(&sl[i]);
        let m = na_mala(s.as_str());
        mala.push(znaky(m.as_str()));
        i = i + 1;
    }
    proof {
        assert(pohled_vv(mala@) =~= mala_slova(jmeno@));
    }
    odhad_z_mala_slov(&mala)
}

/// Odhad pohlaví ze slov jména, už převedených na malá písmena: příjmení na -ová/-ská/-cká
/// ➡ dívka; poslední z aspoň dvou slov na -á ➡ dívka; jinak křestní jméno na -a (kromě
/// mužských) nebo -ie ➡ dívka, ostatní chlapec.
pub fn odhad_z_mala_slov(mala: &Vec<Vec<char>>) -> (r: Pohlavi)
    ensures
        r == odhad_z_malych(pohled_vv(mala@)),
{
    let ghost ms = pohled_vv(mala@);
    let mut j: usize = 0;
    while j < mala.len()
        invariant
            j <= mala@.len(),
            pohled_vv(mala@) == ms,
            forall|k: int| 0 <= k < j ==> !zenska_koncovka(#[trigger] ms[k]),
        decreases mala@.len() - j,
    {
        if konci(&mala[j], "ová") || konci(&mala[j], "ská") || konci(&mala[j], "cká") {
            proof {
                assert(mala@[j as int]@ == ms[j as int]);
                assert(zenska_koncovka(ms[j as int]));
            }
            return Pohlavi::D;
        }
        proof {
            assert(mala@[j as int]@ == ms[j as int]);
        }
        j = j + 1;
    }
    let n = mala.len();
    if n >= 2 && konci(&mala[n - 1], "á") {
        proof {
            assert(mala@[n - 1]@ == ms.last());
        }
        return Pohlavi::D;
    }
    let prazdne: Vec<char> = Vec::new();
    let k: &Vec<char> = if n > 0 { &mala[0] } else { &prazdne };
    proof {
        if n > 0 {
            assert(mala@[0]@ == ms[0]);
        } else {
            assert(prazdne@ =~= Seq::<char>::empty());
        }
        if n >= 2 {
            assert(mala@[n - 1]@ == ms.last());
        }
    }
    if (konci(k, "a") && !je_muzske_na_a(k)) || konci(k, "ie") {
        Pohlavi::D
    } else {
        Pohlavi::CH
    }
}

/// Pohlaví podle značky za středníkem (už ořezané a velkými písmeny).
pub open spec fn znacka_pohlavi(p: Seq<char>) -> Option<Pohlavi> {
    if p == "D"@ || p == "Ž"@ || p == "F"@ {
        Some(Pohlavi::D)
    } else if p == "CH"@ || p == "C"@ || p == "M"@ || p == "H"@ {
        Some(Pohlavi::CH)
    } else {
        None
    }
}

/// Jeden (ořezaný, neprázdný) řádek seznamu ➡ jméno a pohlaví.
pub open spec fn radek_jmena(l: Seq<char>) -> (Seq<char>, Pohlavi) {
    let k = posledni_vyskyt(l, ';');
    if k >= 0 {
        let j = orez(l.take(k));
        match znacka_pohlavi(velka_pismena(orez(l.skip(k + 1)))) {
            Some(p) => (j, p),
            None => (j, odhad_spec(j)),
        }
    } else {
        (l, odhad_spec(l))
    }
}

/// Neprázdné ořezané řádky textu.
pub open spec fn neprazdne_radky(text: Seq<char>) -> Seq<Seq<char>> {
    radky(text).map_values(|l: Seq<char>| orez(l)).filter(|l: Seq<char>| l.len() > 0)
}

/// Seznam jmen: jeden žák na řádek, volitelně s pohlavím za středníkem.
pub open spec fn parsuj_spec(text: Seq<char>) -> Seq<(Seq<char>, Pohlavi)> {
    neprazdne_radky(text).map_values(|l: Seq<char>| radek_jmena(l))
}

/// Pohlaví podle značky za středníkem, už ořezané a převedené na velká písmena
/// (D, Ž, F ➡ dívka; CH, C, M, H ➡ chlapec; jiná ➡ žádné).
pub fn znacka_z_velkych(t: &str) -> (r: Option<Pohlavi>)
    ensures
        r == znacka_pohlavi(t@),
{
    if rovno(t, "D") || rovno(t, "Ž") || rovno(t, "F") {
        Some(Pohlavi::D)
    } else if rovno(t, "CH") || rovno(t, "C") || rovno(t, "M") || rovno(t, "H") {
        Some(Pohlavi::CH)
    } else {
        None
    }
}

fn parsuj_radek(l: &Vec<char>) -> (r: (String, Pohlavi))
    ensures
        (r.0@, r.1) == radek_jmena(l@),
{
    proof {
        crate::text::lemma_posledni_vyskyt(l@, ';');
    }
    match posledni(l, ';') {
        Some(k) => {
            assert(k < l.len());
            let jz = usek(l, 0, k);
            let jo = orez_znaky(&jz);
            let pz = usek(l, k + 1, l.len());
            let po = orez_znaky(&pz);
            let ps = retezec(&po);
            let pv = na_velka(ps.as_str());
            let jmeno = retezec(&jo);
            proof {
                assert(jz@ =~= l@.take(k as int));
                assert(pz@ =~= l@.skip(k + 1));
            }
            let poh = match znacka_z_velkych(pv.as_str()) {
                Some(p) => p,
                None => odhad_pohlavi(jmeno.as_str()),
            };
            (jmeno, poh)
        },
        None => {
            let jmeno = retezec(l);
            let poh = odhad_pohlavi(jmeno.as_str());
            (jmeno, poh)
        },
    }
}

/// Jeden žák na řádek. Volitelně s pohlavím za středníkem: „Jana Nováková; D“.
pub fn parsuj_jmena(text: &str) -> (r: Vec<(String, Pohlavi)>)
    ensures
        r@.map_values(|x: (String, Pohlavi)| (x.0@, x.1)) == parsuj_spec(text@),
{
    let zn = znaky(text);
    let rd = radky_znaky(&zn);
    let ghost oz = radky(text@).map_values(|l: Seq<char>| orez(l));
    let ghost nep = |l: Seq<char>| l.len() > 0;
    let mut r: Vec<(String, Pohlavi)> = Vec::new();
    let mut i: usize = 0;
    while i < rd.len()
        invariant
            i <= rd@.len(),
            pohled_vv(rd@) == radky(text@),
            oz == radky(text@).map_values(|l: Seq<char>| orez(l)),
            nep == (|l: Seq<char>| l.len() > 0),
            r@.map_values(|x: (String, Pohlavi)| (x.0@, x.1)) == oz.take(i as int).filter(nep).map_values(
                |l: Seq<char>| radek_jmena(l),
            ),
        decreases rd@.len() - i,
    {
        let o = orez_znaky(&rd[i]);
        proof {
            assert(rd@[i as int]@ == radky(text@)[i as int]);
            assert(oz[i as int] == o@);
            assert(oz.take(i + 1) =~= oz.take(i as int).push(o@));
            oz.take(i as int).lemma_filter_push(o@, nep);
        }
        let ghost r0 = r@;
        if o.len() > 0 {
            let x = parsuj_radek(&o);
            r.push(x);
            proof {
                assert(r@.map_values(|x: (String, Pohlavi)| (x.0@, x.1)) =~= r0.map_values(
                    |x: (String, Pohlavi)| (x.0@, x.1),
                ).push(radek_jmena(o@)));
                assert(oz.take(i as int).filter(nep).push(o@).map_values(|l: Seq<char>| radek_jmena(l))
                    =~= oz.take(i as int).filter(nep).map_values(|l: Seq<char>| radek_jmena(l)).push(
                    radek_jmena(o@),
                ));
            }
        }
        i = i + 1;
    }
    proof {
        assert(oz.take(rd@.len() as int) =~= oz);
    }
    r
}

} // verus!

verus! {

pub open spec fn poh_cislo(p: Pohlavi) -> int {
    match p {
        Pohlavi::D => 0,
        Pohlavi::CH => 1,
    }
}

/// Pořadí žáků pro rozdělení: nejdřív dívky, pak chlapci; uvnitř podle jména;
/// shodné jméno i pohlaví podle pořadí na vstupu (stabilní řazení).
pub open spec fn pred_1515(z: Seq<(String, Pohlavi)>, a: int, b: int) -> bool {
    let ka = poh_cislo(z[a].1);
    let kb = poh_cislo(z[b].1);
    ka < kb || (ka == kb && (lex_mensi(z[a].0@, z[b].0@) || (z[a].0@ == z[b].0@ && a < b)))
}

/// Index `i` se v posloupnosti vyskytuje.
pub open spec fn ma_index(perm: Seq<usize>, i: int) -> bool {
    exists|k: int| 0 <= k < perm.len() && #[trigger] perm[k] == i
}

/// `perm` je seřazené pořadí všech indexů žáků.
pub open spec fn je_poradi_1515(z: Seq<(String, Pohlavi)>, perm: Seq<usize>) -> bool {
    &&& perm.len() == z.len()
    &&& forall|k: int| 0 <= k < perm.len() ==> (#[trigger] perm[k]) < z.len()
    &&& forall|i: int| 0 <= i < z.len() ==> #[trigger] ma_index(perm, i)
    &&& forall|k: int, l: int| 0 <= k < l < perm.len() ==> pred_1515(z, #[trigger] perm[k] as int, #[trigger] perm[l] as int)
}

/// Skupina podle pořadí: sudé pozice AJa, liché AJb.
pub open spec fn skupina_na_pozici(k: int) -> SkupinaAj {
    if k % 2 == 0 {
        SkupinaAj::A
    } else {
        SkupinaAj::B
    }
}

proof fn lemma_pred_1515(z: Seq<(String, Pohlavi)>, a: int, b: int, c: int)
    ensures
        a != b ==> (pred_1515(z, a, b) || pred_1515(z, b, a)),
        !pred_1515(z, a, a),
        !(pred_1515(z, a, b) && pred_1515(z, b, a)),
        pred_1515(z, a, b) && pred_1515(z, b, c) ==> pred_1515(z, a, c),
{
    crate::mapa::lemma_lex_uplny(z[a].0@, z[b].0@);
    crate::mapa::lemma_lex_ireflexivni(z[a].0@);
    crate::mapa::lemma_lex_asymetricky(z[a].0@, z[b].0@);
    if pred_1515(z, a, b) && pred_1515(z, b, c) {
        if lex_mensi(z[a].0@, z[b].0@) && lex_mensi(z[b].0@, z[c].0@) {
            crate::mapa::lemma_lex_tranzitivni(z[a].0@, z[b].0@, z[c].0@);
        }
    }
}

fn pred_exec(z: &[(String, Pohlavi)], a: usize, b: usize) -> (r: bool)
    requires
        a < z@.len(),
        b < z@.len(),
    ensures
        r == pred_1515(z@, a as int, b as int),
{
    let ka: u8 = match z[a].1 {
        Pohlavi::D => 0,
        Pohlavi::CH => 1,
    };
    let kb: u8 = match z[b].1 {
        Pohlavi::D => 0,
        Pohlavi::CH => 1,
    };
    if ka != kb {
        return ka < kb;
    }
    let c = crate::text::porovnej(z[a].0.as_str(), z[b].0.as_str());
    c == -1 || (c == 0 && a < b)
}

/// Seřazené pořadí žáků (řazení vkládáním; stabilní).
pub fn poradi_1515(zaci: &[(String, Pohlavi)]) -> (perm: Vec<usize>)
    ensures
        je_poradi_1515(zaci@, perm@),
{
    let n = zaci.len();
    let mut perm: Vec<usize> = Vec::new();
    let mut i: usize = 0;
    while i < n
        invariant
            i <= n,
            n == zaci@.len(),
            perm@.len() == i,
            forall|k: int| 0 <= k < perm@.len() ==> (#[trigger] perm@[k]) < i,
            forall|j: int| 0 <= j < i ==> #[trigger] ma_index(perm@, j),
            forall|k: int, l: int|
                0 <= k < l < perm@.len() ==> pred_1515(zaci@, #[trigger] perm@[k] as int, #[trigger] perm@[l] as int),
        decreases n - i,
    {
        let mut p: usize = 0;
        let mut hotovo = false;
        while p < perm.len() && !hotovo
            invariant
                p <= perm@.len(),
                i < n,
                n == zaci@.len(),
                forall|k: int| 0 <= k < perm@.len() ==> (#[trigger] perm@[k]) < i,
                forall|k: int| 0 <= k < p ==> pred_1515(zaci@, #[trigger] perm@[k] as int, i as int),
                hotovo ==> p < perm@.len() && pred_1515(zaci@, i as int, perm@[p as int] as int),
            decreases perm@.len() - p + (if hotovo { 0int } else { 1int }),
        {
            if pred_exec(zaci, perm[p], i) {
                p = p + 1;
            } else {
                proof {
                    lemma_pred_1515(zaci@, perm@[p as int] as int, i as int, 0);
                }
                hotovo = true;
            }
        }
        let ghost stare = perm@;
        perm.insert(p, i);
        proof {
            let nove = perm@;
            assert forall|k: int| 0 <= k < nove.len() implies #[trigger] nove[k] == (if k < p {
                stare[k]
            } else if k == p {
                i
            } else {
                stare[k - 1]
            }) by {}
            assert forall|k: int, l: int| 0 <= k < l < nove.len() implies pred_1515(
                zaci@,
                #[trigger] nove[k] as int,
                #[trigger] nove[l] as int,
            ) by {
                if l < p {
                    assert(nove[k] == stare[k] && nove[l] == stare[l]);
                } else if l == p {
                    assert(nove[k] == stare[k]);
                } else if k > p {
                    assert(nove[k] == stare[k - 1] && nove[l] == stare[l - 1]);
                } else if k == p {
                    if hotovo {
                        if l - 1 > p {
                            assert(pred_1515(zaci@, stare[p as int] as int, stare[l - 1] as int));
                            lemma_pred_1515(zaci@, i as int, stare[p as int] as int, stare[l - 1] as int);
                        }
                    }
                } else {
                    assert(nove[k] == stare[k] && nove[l] == stare[l - 1]);
                    if hotovo {
                        if l - 1 > p {
                            assert(pred_1515(zaci@, stare[p as int] as int, stare[l - 1] as int));
                            lemma_pred_1515(zaci@, i as int, stare[p as int] as int, stare[l - 1] as int);
                        }
                    }
                    assert(pred_1515(zaci@, stare[k] as int, i as int));
                    lemma_pred_1515(zaci@, stare[k] as int, i as int, stare[l - 1] as int);
                }
            }
            assert forall|j: int| 0 <= j < i + 1 implies #[trigger] ma_index(nove, j) by {
                if j == i {
                    assert(nove[p as int] == j);
                } else {
                    assert(ma_index(stare, j));
                    let k = choose|k: int| 0 <= k < stare.len() && #[trigger] stare[k] == j;
                    if k < p {
                        assert(nove[k] == j);
                    } else {
                        assert(nove[k + 1] == j);
                    }
                }
            }
        }
        i = i + 1;
    }
    perm
}

/// Rozdělení na AJa/AJb 15:15 s vyrovnaným poměrem pohlaví: žáci se seřadí (dívky,
/// chlapci; podle jména) a střídavě dostávají AJa, AJb. Vrací skupinu pro každý vstup.
pub fn rozdel_1515(zaci: &[(String, Pohlavi)]) -> (r: Vec<SkupinaAj>)
    ensures
        r@.len() == zaci@.len(),
        exists|perm: Seq<usize>|
            je_poradi_1515(zaci@, perm) && forall|k: int|
                0 <= k < perm.len() ==> r@[#[trigger] perm[k] as int] == skupina_na_pozici(k),
{
    let perm = poradi_1515(zaci);
    let mut r: Vec<SkupinaAj> = Vec::new();
    let mut i: usize = 0;
    while i < zaci.len()
        invariant
            i <= zaci@.len(),
            r@.len() == i,
        decreases zaci@.len() - i,
    {
        r.push(SkupinaAj::A);
        i = i + 1;
    }
    let mut k: usize = 0;
    while k < perm.len()
        invariant
            k <= perm@.len(),
            r@.len() == zaci@.len(),
            je_poradi_1515(zaci@, perm@),
            forall|j: int| 0 <= j < k ==> r@[#[trigger] perm@[j] as int] == skupina_na_pozici(j),
        decreases perm@.len() - k,
    {
        let g = if k % 2 == 0 { SkupinaAj::A } else { SkupinaAj::B };
        proof {
            assert forall|j: int, l: int| 0 <= j < l < perm@.len() implies perm@[j] != perm@[l] by {
                assert(pred_1515(zaci@, perm@[j] as int, perm@[l] as int));
                lemma_pred_1515(zaci@, perm@[j] as int, perm@[l] as int, 0);
            }
        }
        r.set(perm[k], g);
        k = k + 1;
    }
    r
}

} // verus!

verus! {

/// Indexy aktivních žáků dané třídy (v pořadí seznamu).
pub open spec fn zaci_tridy(st: Seq<Student>, trida: Seq<char>) -> Seq<int> {
    Seq::new(st.len(), |i: int| i).filter(|i: int| st[i].trida@ == trida && st[i].spec_v_rozvrhu())
}

/// Jména a pohlaví vybraných žáků.
pub open spec fn vstup_rozdeleni(st: Seq<Student>, idx: Seq<int>) -> Seq<(String, Pohlavi)> {
    idx.map_values(|i: int| (st[i].jmeno, st[i].pohlavi))
}

/// Žák se liší nejvýše skupinou AJ.
pub open spec fn jen_skupina(a: Student, b: Student) -> bool {
    a@ == crate::data::StudentV { skupina_aj: a.skupina_aj, ..b@ }
}

/// Rozdělí existující (aktivní) žáky třídy na AJa/AJb 15:15; ostatní žáci se nemění.
pub fn rozdel_tridu(rok: &mut crate::data::SkolniRok, trida: &str)
    ensures
        final(rok).studenti@.len() == old(rok).studenti@.len(),
        final(rok).menu@ == old(rok).menu@,
        final(rok).label@ == old(rok).label@,
        final(rok).dalsi_id == old(rok).dalsi_id,
        forall|i: int|
            0 <= i < old(rok).studenti@.len() ==> jen_skupina(
                #[trigger] final(rok).studenti@[i],
                old(rok).studenti@[i],
            ),
        forall|i: int|
            0 <= i < old(rok).studenti@.len() && !zaci_tridy(old(rok).studenti@, trida@).contains(i)
                ==> #[trigger] final(rok).studenti@[i].skupina_aj == old(rok).studenti@[i].skupina_aj,
        ({
            let idx = zaci_tridy(old(rok).studenti@, trida@);
            exists|perm: Seq<usize>|
                je_poradi_1515(vstup_rozdeleni(old(rok).studenti@, idx), perm) && forall|k: int|
                    0 <= k < perm.len() ==> final(rok).studenti@[idx[#[trigger] perm[k] as int]].skupina_aj
                        == skupina_na_pozici(k)
        }),
{
    let ghost st = rok.studenti@;
    let ghost p = |i: int| st[i].trida@ == trida@ && st[i].spec_v_rozvrhu();
    let ghost vsechny = Seq::new(st.len(), |i: int| i);
    let mut idx: Vec<usize> = Vec::new();
    let mut vstup: Vec<(String, Pohlavi)> = Vec::new();
    let mut i: usize = 0;
    while i < rok.studenti.len()
        invariant
            i <= st.len(),
            rok.studenti@ == st,
            p == (|i: int| st[i].trida@ == trida@ && st[i].spec_v_rozvrhu()),
            vsechny == Seq::new(st.len(), |i: int| i),
            idx@.map_values(|x: usize| x as int) == vsechny.take(i as int).filter(p),
            vstup@ == vstup_rozdeleni(st, idx@.map_values(|x: usize| x as int)),
            forall|k: int| 0 <= k < idx@.len() ==> (#[trigger] idx@[k]) < i,
            forall|a: int, b: int| 0 <= a < b < idx@.len() ==> idx@[a] < idx@[b],
        decreases st.len() - i,
    {
        let s = &rok.studenti[i];
        let ghost idx0 = idx@;
        let ghost vs0 = vstup@;
        proof {
            assert(vsechny.take(i + 1) =~= vsechny.take(i as int).push(i as int));
            vsechny.take(i as int).lemma_filter_push(i as int, p);
        }
        if rovno(s.trida.as_str(), trida) && s.v_rozvrhu() {
            idx.push(i);
            vstup.push((s.jmeno.clone(), s.pohlavi));
            proof {
                assert(idx@ =~= idx0.push(i));
                assert(idx@.map_values(|x: usize| x as int) =~= idx0.map_values(|x: usize| x as int).push(i as int));
                assert(vstup@ =~= vstup_rozdeleni(st, idx@.map_values(|x: usize| x as int)));
            }
        }
        i = i + 1;
    }
    proof {
        assert(vsechny.take(st.len() as int) =~= vsechny);
    }
    let ghost idx_s = idx@.map_values(|x: usize| x as int);
    let skup = rozdel_1515(vstup.as_slice());
    let mut k: usize = 0;
    while k < idx.len()
        invariant
            k <= idx@.len(),
            skup@.len() == idx@.len(),
            idx_s == idx@.map_values(|x: usize| x as int),
            idx_s == zaci_tridy(st, trida@),
            forall|j: int| 0 <= j < idx@.len() ==> (#[trigger] idx@[j]) < st.len(),
            rok.studenti@.len() == st.len(),
            rok.menu@ == old(rok).menu@,
            rok.label@ == old(rok).label@,
            rok.dalsi_id == old(rok).dalsi_id,
            st == old(rok).studenti@,
            forall|j: int| 0 <= j < st.len() ==> jen_skupina(#[trigger] rok.studenti@[j], st[j]),
            forall|j: int|
                0 <= j < st.len() && !idx_s.subrange(0, k as int).contains(j)
                    ==> #[trigger] rok.studenti@[j].skupina_aj == st[j].skupina_aj,
            forall|j: int| 0 <= j < k ==> rok.studenti@[idx@[j] as int].skupina_aj == #[trigger] skup@[j],
            forall|a: int, b: int| 0 <= a < b < idx@.len() ==> idx@[a] < idx@[b],
        decreases idx@.len() - k,
    {
        let j = idx[k];
        proof {
            assert(idx_s.subrange(0, k + 1)[k as int] == idx_s[k as int]);
            assert forall|x: int| idx_s.subrange(0, k as int).contains(x) implies idx_s.subrange(
                0,
                k + 1,
            ).contains(x) by {
                let w = choose|w: int| 0 <= w < k && idx_s.subrange(0, k as int)[w] == x;
                assert(idx_s.subrange(0, k + 1)[w] == x);
            }
        }
        rok.studenti[j].skupina_aj = skup[k];
        proof {
            assert forall|a: int| 0 <= a < k implies idx@[a] != j by {}
        }
        k = k + 1;
    }
    proof {
        assert(idx_s.subrange(0, idx@.len() as int) =~= idx_s);
    }
}

} // verus!

verus! {

/// Načte jména a rozdělí je 15:15.
pub fn novi_zaci_z_textu(text: &str) -> (r: Vec<NovyZak>)
    ensures
        r@.len() == parsuj_spec(text@).len(),
        forall|k: int|
            0 <= k < r@.len() ==> ((#[trigger] r@[k]).jmeno@, r@[k].pohlavi) == parsuj_spec(text@)[k],
        exists|z: Seq<(String, Pohlavi)>, perm: Seq<usize>|
            z.map_values(|x: (String, Pohlavi)| (x.0@, x.1)) == parsuj_spec(text@) && je_poradi_1515(z, perm)
                && forall|k: int| 0 <= k < perm.len() ==> r@[#[trigger] perm[k] as int].skupina == skupina_na_pozici(k),
{
    let jmena = parsuj_jmena(text);
    let skup = rozdel_1515(jmena.as_slice());
    let mut r: Vec<NovyZak> = Vec::new();
    let mut i: usize = 0;
    while i < jmena.len()
        invariant
            i <= jmena@.len(),
            skup@.len() == jmena@.len(),
            r@.len() == i,
            forall|k: int| 0 <= k < i ==> (#[trigger] r@[k]).jmeno@ == jmena@[k].0@ && r@[k].pohlavi == jmena@[k].1
                && r@[k].skupina == skup@[k],
        decreases jmena@.len() - i,
    {
        r.push(NovyZak { jmeno: jmena[i].0.clone(), pohlavi: jmena[i].1, skupina: skup[i] });
        i = i + 1;
    }
    proof {
        assert forall|k: int| 0 <= k < r@.len() implies ((#[trigger] r@[k]).jmeno@, r@[k].pohlavi) == parsuj_spec(text@)[k] by {
            assert(jmena@.map_values(|x: (String, Pohlavi)| (x.0@, x.1))[k] == (jmena@[k].0@, jmena@[k].1));
        }
    }
    r
}

/// Cílová třída žáka v novém roce (None = odchází / maturita).
pub open spec fn cil_spec(tridy: Seq<crate::data::Trida>, s: Student, z: Zmena) -> Option<Seq<char>> {
    match z {
        Zmena::Odchazi => None,
        Zmena::Propada => Some(s.trida@),
        Zmena::Postupuje => {
            let i = crate::data::index_tridy(tridy, s.trida@);
            if i >= 0 {
                match tridy[i].naslednik {
                    Some(n) => Some(n@),
                    None => None,
                }
            } else {
                None
            }
        },
    }
}

/// Kam žák přejde v novém roce (None = odchází / maturita).
pub fn cilova_trida(skola: &crate::data::Skola, s: &Student, zmena: Zmena) -> (r: Option<String>)
    ensures
        match r {
            Some(x) => cil_spec(skola.tridy@, *s, zmena) == Some(x@),
            None => cil_spec(skola.tridy@, *s, zmena) == None::<Seq<char>>,
        },
{
    match zmena {
        Zmena::Odchazi => None,
        Zmena::Propada => Some(s.trida.clone()),
        Zmena::Postupuje => match skola.trida(s.trida.as_str()) {
            Some(t) => match &t.naslednik {
                Some(n) => Some(n.clone()),
                None => None,
            },
            None => None,
        },
    }
}

/// Výchozí změna podle stavu žáka.
pub open spec fn vychozi_zmena_spec(s: Student) -> Zmena {
    match s.status {
        StavStudenta::Aktivni => Zmena::Postupuje,
        StavStudenta::Propada => Zmena::Propada,
        StavStudenta::Odesel => Zmena::Odchazi,
    }
}

pub fn vychozi_zmena(s: &Student) -> (r: Zmena)
    ensures
        r == vychozi_zmena_spec(*s),
        s.status == StavStudenta::Aktivni ==> r == Zmena::Postupuje,
        s.status == StavStudenta::Propada ==> r == Zmena::Propada,
        s.status == StavStudenta::Odesel ==> r == Zmena::Odchazi,
{
    match s.status {
        StavStudenta::Aktivni => Zmena::Postupuje,
        StavStudenta::Propada => Zmena::Propada,
        StavStudenta::Odesel => Zmena::Odchazi,
    }
}

/// Index prvního menu s daným id (-1 = není).
pub open spec fn index_menu(m: Seq<crate::data::Menu>, id: Seq<char>) -> int {
    crate::hledani::prvni(m, |x: crate::data::Menu| x.id@ == id)
}

pub fn najdi_menu(m: &Vec<crate::data::Menu>, id: &str) -> (r: Option<usize>)
    ensures
        match r {
            Some(i) => i as int == index_menu(m@, id@) && i < m@.len(),
            None => index_menu(m@, id@) == -1,
        },
{
    let ghost p = |x: crate::data::Menu| x.id@ == id@;
    let mut i: usize = 0;
    while i < m.len()
        invariant
            i <= m@.len(),
            p == (|x: crate::data::Menu| x.id@ == id@),
            forall|j: int| 0 <= j < i ==> !p(#[trigger] m@[j]),
        decreases m@.len() - i,
    {
        if rovno(m[i].id.as_str(), id) {
            proof {
                crate::hledani::lemma_prvni_je(m@, p, i as int);
            }
            return Some(i);
        }
        i = i + 1;
    }
    proof {
        crate::hledani::lemma_prvni_zadny(m@, p);
    }
    None
}

/// Zkopíruje katalog voleb (menu) z minulého roku. Vrací false, pokud tam menu nebylo.
pub fn import_katalogu(rok: &mut crate::data::SkolniRok, stary: &crate::data::SkolniRok, menu_id: &str) -> (r: bool)
    ensures
        r == (index_menu(stary.menu@, menu_id@) >= 0),
        final(rok).studenti@ == old(rok).studenti@,
        final(rok).label@ == old(rok).label@,
        final(rok).dalsi_id == old(rok).dalsi_id,
        !r ==> crate::data::menu_v(final(rok).menu@) == crate::data::menu_v(old(rok).menu@),
        r && index_menu(old(rok).menu@, menu_id@) >= 0 ==> crate::data::menu_v(final(rok).menu@)
            == crate::data::menu_v(old(rok).menu@).update(
            index_menu(old(rok).menu@, menu_id@),
            stary.menu@[index_menu(stary.menu@, menu_id@)]@,
        ),
        r && index_menu(old(rok).menu@, menu_id@) == -1 ==> crate::data::menu_v(final(rok).menu@)
            == crate::data::menu_v(old(rok).menu@).push(stary.menu@[index_menu(stary.menu@, menu_id@)]@),
{
    let si = match najdi_menu(&stary.menu, menu_id) {
        Some(i) => i,
        None => {
            return false;
        },
    };
    let m = stary.menu[si].kopie();
    let ghost pred = rok.menu@;
    match najdi_menu(&rok.menu, menu_id) {
        Some(ri) => {
            rok.menu.set(ri, m);
            proof {
                assert(crate::data::menu_v(rok.menu@) =~= crate::data::menu_v(pred).update(ri as int, m@));
            }
        },
        None => {
            rok.menu.push(m);
            proof {
                assert(crate::data::menu_v(rok.menu@) =~= crate::data::menu_v(pred).push(m@));
            }
        },
    }
    true
}

} // verus!

verus! {

/// Mapy voleb všech žáků jsou dobře utvořené.
pub open spec fn volby_platne(st: Seq<Student>) -> bool {
    forall|i: int| 0 <= i < st.len() ==> (#[trigger] st[i]).volby.dobre()
}

/// Počet výskytů prvku v posloupnosti.
pub open spec fn pocet_v(v: Seq<Seq<char>>, k: Seq<char>) -> nat
    decreases v.len(),
{
    if v.len() == 0 {
        0
    } else {
        pocet_v(v.drop_last(), k) + (if v.last() == k { 1nat } else { 0nat })
    }
}

/// Žák je zapsán v menu: je v rozvrhu a jeho třída patří k menu.
pub open spec fn zapsan(s: Student, m: crate::data::Menu) -> bool {
    s.spec_v_rozvrhu() && crate::data::retezce(m.tridy@).contains(s.trida@)
}

/// Volby žáka v menu (prázdné, nemá-li záznam).
pub open spec fn volby_v_menu(s: Student, mid: Seq<char>) -> Seq<Seq<char>> {
    if s.volby.ma(mid) {
        crate::data::retezce(s.volby.hodnota(mid)@)
    } else {
        Seq::empty()
    }
}

/// Kolikrát je volba `k` zapsána u žáků menu.
pub open spec fn obsazeno(st: Seq<Student>, m: crate::data::Menu, k: Seq<char>) -> nat
    decreases st.len(),
{
    if st.len() == 0 {
        0
    } else {
        obsazeno(st.drop_last(), m, k) + (if zapsan(st.last(), m) {
            pocet_v(volby_v_menu(st.last(), m.id@), k)
        } else {
            0nat
        })
    }
}

/// Celkový počet zapsaných voleb žáků (mez pro počítadla).
pub open spec fn celkem_voleb(st: Seq<Student>, mid: Seq<char>) -> nat
    decreases st.len(),
{
    if st.len() == 0 {
        0
    } else {
        celkem_voleb(st.drop_last(), mid) + volby_v_menu(st.last(), mid).len()
    }
}

/// Celkový počet zapsaných voleb menu `mid`; `None`, když se nevejde do `usize`.
pub(crate) fn celkem_voleb_zaku(st: &Vec<Student>, mid: &str) -> (r: Option<usize>)
    requires
        volby_platne(st@),
    ensures
        match r {
            Some(c) => c == celkem_voleb(st@, mid@),
            None => celkem_voleb(st@, mid@) > usize::MAX,
        },
{
    let mut c: usize = 0;
    let mut i: usize = 0;
    while i < st.len()
        invariant
            i <= st@.len(),
            volby_platne(st@),
            c == celkem_voleb(st@.take(i as int), mid@),
        decreases st@.len() - i,
    {
        proof {
            assert(st@.take(i + 1).drop_last() =~= st@.take(i as int));
            assert(st@.take(i + 1).last() == st@[i as int]);
            assert(st@[i as int].volby.dobre());
        }
        let k: usize = match st[i].volby.get(mid) {
            Some(v) => v.len(),
            None => 0,
        };
        proof {
            assert(k == volby_v_menu(st@[i as int], mid@).len());
        }
        match c.checked_add(k) {
            Some(c2) => {
                c = c2;
            },
            None => {
                proof {
                    lemma_celkem_prefix(st@, mid@, i + 1);
                }
                return None;
            },
        }
        i = i + 1;
    }
    proof {
        assert(st@.take(st@.len() as int) =~= st@);
    }
    Some(c)
}

pub proof fn lemma_pocet_v_mez(v: Seq<Seq<char>>, k: Seq<char>)
    ensures
        pocet_v(v, k) <= v.len(),
    decreases v.len(),
{
    if v.len() > 0 {
        lemma_pocet_v_mez(v.drop_last(), k);
    }
}

pub proof fn lemma_obsazeno_mez(st: Seq<Student>, m: crate::data::Menu, k: Seq<char>)
    ensures
        obsazeno(st, m, k) <= celkem_voleb(st, m.id@),
    decreases st.len(),
{
    if st.len() > 0 {
        lemma_obsazeno_mez(st.drop_last(), m, k);
        lemma_pocet_v_mez(volby_v_menu(st.last(), m.id@), k);
    }
}

/// Obsahuje vektor řetězců daný řetězec?
pub fn obsahuje(v: &Vec<String>, x: &str) -> (r: bool)
    ensures
        r == crate::data::retezce(v@).contains(x@),
{
    let mut i: usize = 0;
    while i < v.len()
        invariant
            i <= v@.len(),
            forall|j: int| 0 <= j < i ==> v@[j]@ != x@,
        decreases v@.len() - i,
    {
        if rovno(v[i].as_str(), x) {
            proof {
                assert(crate::data::retezce(v@)[i as int] == x@);
            }
            return true;
        }
        i = i + 1;
    }
    proof {
        if crate::data::retezce(v@).contains(x@) {
            let j = choose|j: int| 0 <= j < v@.len() && crate::data::retezce(v@)[j] == x@;
            assert(v@[j]@ == x@);
        }
    }
    false
}

/// Počet žáků v jednotlivých volbách menu.
pub fn obsazenost(rok: &crate::data::SkolniRok, menu: &crate::data::Menu) -> (m: Mapa<usize>)
    requires
        volby_platne(rok.studenti@),
        celkem_voleb(rok.studenti@, menu.id@) < usize::MAX,
    ensures
        m.dobre(),
        forall|k: Seq<char>|
            #![trigger m.ma(k)]
            m.ma(k) <==> exists|j: int| 0 <= j < menu.volby@.len() && (#[trigger] menu.volby@[j]).id@ == k,
        forall|k: Seq<char>| m.ma(k) ==> m.hodnota(k) == obsazeno(rok.studenti@, *menu, k),
{
    let mut m: Mapa<usize> = Mapa::new();
    let mut j: usize = 0;
    while j < menu.volby.len()
        invariant
            j <= menu.volby@.len(),
            m.dobre(),
            forall|k: Seq<char>|
                #![trigger m.ma(k)]
                m.ma(k) <==> exists|i: int| 0 <= i < j && (#[trigger] menu.volby@[i]).id@ == k,
            forall|k: Seq<char>| m.ma(k) ==> m.hodnota(k) == 0,
        decreases menu.volby@.len() - j,
    {
        m.insert(menu.volby[j].id.clone(), 0);
        proof {
            assert forall|k: Seq<char>|
                (exists|i: int| 0 <= i < j + 1 && (#[trigger] menu.volby@[i]).id@ == k) implies m.ma(k) by {
                let i = choose|i: int| 0 <= i < j + 1 && (#[trigger] menu.volby@[i]).id@ == k;
                if i < j {
                    assert(exists|i2: int| 0 <= i2 < j && (#[trigger] menu.volby@[i2]).id@ == k);
                }
            }
        }
        j = j + 1;
    }
    let ghost st = rok.studenti@;
    let mut i: usize = 0;
    while i < rok.studenti.len()
        invariant
            i <= st.len(),
            st == rok.studenti@,
            volby_platne(st),
            celkem_voleb(st, menu.id@) < usize::MAX,
            m.dobre(),
            forall|k: Seq<char>|
                #![trigger m.ma(k)]
                m.ma(k) <==> exists|i: int| 0 <= i < menu.volby@.len() && (#[trigger] menu.volby@[i]).id@ == k,
            forall|k: Seq<char>| m.ma(k) ==> m.hodnota(k) == obsazeno(st.take(i as int), *menu, k),
        decreases st.len() - i,
    {
        let s = &rok.studenti[i];
        proof {
            assert(st.take(i + 1).drop_last() =~= st.take(i as int));
            assert(st.take(i + 1).last() == *s);
            assert(s.volby.dobre());
        }
        if s.v_rozvrhu() && obsahuje(&menu.tridy, s.trida.as_str()) {
            match s.volby.get(menu.id.as_str()) {
                Some(vs) => {
                    let ghost vsv = crate::data::retezce(vs@);
                    let ghost m_pred = m;
                    let mut q: usize = 0;
                    while q < vs.len()
                        invariant
                            q <= vs@.len(),
                            vsv == crate::data::retezce(vs@),
                            vsv == volby_v_menu(*s, menu.id@),
                            st == rok.studenti@,
                            i < st.len(),
                            *s == st[i as int],
                            zapsan(*s, *menu),
                            celkem_voleb(st, menu.id@) < usize::MAX,
                            m.dobre(),
                            forall|k: Seq<char>|
                                #![trigger m.ma(k)]
                                m.ma(k) <==> m_pred.ma(k),
                            forall|k: Seq<char>|
                                m.ma(k) ==> m.hodnota(k) == m_pred.hodnota(k) + pocet_v(vsv.take(q as int), k),
                            forall|k: Seq<char>|
                                m_pred.ma(k) ==> m_pred.hodnota(k) == obsazeno(st.take(i as int), *menu, k),
                        decreases vs@.len() - q,
                    {
                        let ghost m_q = m;
                        proof {
                            assert(vsv.take(q + 1).drop_last() =~= vsv.take(q as int));
                        }
                        match m.get(vs[q].as_str()) {
                            Some(c) => {
                                let c: usize = *c;
                                proof {
                                    let k = vs@[q as int]@;
                                    lemma_obsazeno_mez(st.take(i + 1), *menu, k);
                                    lemma_celkem_prefix(st, menu.id@, i + 1);
                                    lemma_pocet_v_prefix(vsv, k, q + 1);
                                    assert(st.take(i + 1).drop_last() =~= st.take(i as int));
                                    assert(st.take(i + 1).last() == *s);
                                    assert(obsazeno(st.take(i + 1), *menu, k) == obsazeno(st.take(i as int), *menu, k) + pocet_v(vsv, k));
                                }
                                m.insert(vs[q].clone(), c + 1);
                            },
                            None => {},
                        }
                        q = q + 1;
                    }
                    proof {
                        assert(vsv.take(vs@.len() as int) =~= vsv);
                    }
                },
                None => {
                    proof {
                        assert(volby_v_menu(*s, menu.id@) =~= Seq::<Seq<char>>::empty());
                    }
                },
            }
        }
        i = i + 1;
    }
    proof {
        assert(st.take(st.len() as int) =~= st);
    }
    m
}

proof fn lemma_celkem_prefix(st: Seq<Student>, mid: Seq<char>, n: int)
    requires
        0 <= n <= st.len(),
    ensures
        celkem_voleb(st.take(n), mid) <= celkem_voleb(st, mid),
    decreases st.len() - n,
{
    if n < st.len() {
        assert(st.take(n + 1).drop_last() =~= st.take(n));
        lemma_celkem_prefix(st, mid, n + 1);
    } else {
        assert(st.take(n) =~= st);
    }
}

proof fn lemma_pocet_v_prefix(v: Seq<Seq<char>>, k: Seq<char>, n: int)
    requires
        0 <= n <= v.len(),
    ensures
        pocet_v(v.take(n), k) <= pocet_v(v, k),
    decreases v.len() - n,
{
    if n < v.len() {
        assert(v.take(n + 1).drop_last() =~= v.take(n));
        lemma_pocet_v_prefix(v, k, n + 1);
    } else {
        assert(v.take(n) =~= v);
    }
}

} // verus!

verus! {

/// Volby žáka jako mapa menu ➡ seznam voleb.
pub open spec fn volby_map(m: Mapa<Vec<String>>) -> Map<Seq<char>, Seq<Seq<char>>> {
    m.mapa().map_values(|v: Vec<String>| crate::data::retezce(v@))
}

/// Spojení posloupností.
pub open spec fn spoj(s: Seq<Seq<Seq<char>>>) -> Seq<Seq<char>>
    decreases s.len(),
{
    if s.len() == 0 {
        Seq::empty()
    } else {
        spoj(s.drop_last()) + s.last()
    }
}

/// Všechny volby žáka z minulého roku v pořadí klíčů menu.
pub open spec fn kandidati(minuly: Student) -> Seq<Seq<char>> {
    spoj(crate::data::volby_zaka(minuly.volby).map_values(|p: (Seq<char>, Seq<Seq<char>>)| p.1))
}

/// Id voleb menu.
pub open spec fn ids_voleb(m: crate::data::MenuV) -> Seq<Seq<char>> {
    m.volby.map_values(|v: crate::data::VolbaV| v.id)
}

/// Doplnění voleb z kandidátů: bere se kandidát, který je v menu a žák ho ještě nemá,
/// dokud žák nemá `pocet_voleb` voleb.
pub open spec fn dopln(akt: Seq<Seq<char>>, kand: Seq<Seq<char>>, m: crate::data::MenuV) -> Seq<Seq<char>>
    decreases kand.len(),
{
    if kand.len() == 0 {
        akt
    } else {
        let pred = dopln(akt, kand.drop_last(), m);
        let v = kand.last();
        if pred.len() < m.pocet_voleb && ids_voleb(m).contains(v) && !pred.contains(v) {
            pred.push(v)
        } else {
            pred
        }
    }
}

/// Jeden krok importu: menu `m` (záznam menu vznikne i prázdný).
pub open spec fn krok_menu(
    vol: Map<Seq<char>, Seq<Seq<char>>>,
    minuly: Student,
    m: crate::data::MenuV,
) -> Map<Seq<char>, Seq<Seq<char>>> {
    let akt = if vol.contains_key(m.id) { vol[m.id] } else { Seq::empty() };
    if m.pocet_voleb != 1 && !minuly.volby.ma(m.id) {
        vol.insert(m.id, akt)
    } else {
        vol.insert(m.id, dopln(akt, kandidati(minuly), m))
    }
}

/// Menu se pro žáka zpracuje: jeho třída k menu patří a menu vyhovuje omezení.
pub open spec fn menu_plati(m: crate::data::MenuV, trida: Seq<char>, jen: Option<Seq<char>>) -> bool {
    m.tridy.contains(trida) && match jen {
        Some(j) => j == m.id,
        None => true,
    }
}

/// Import přes všechna menu v pořadí.
pub open spec fn import_menu(
    vol: Map<Seq<char>, Seq<Seq<char>>>,
    minuly: Student,
    menu: Seq<crate::data::MenuV>,
    trida: Seq<char>,
    jen: Option<Seq<char>>,
) -> Map<Seq<char>, Seq<Seq<char>>>
    decreases menu.len(),
{
    if menu.len() == 0 {
        vol
    } else {
        let v2 = import_menu(vol, minuly, menu.drop_last(), trida, jen);
        if menu_plati(menu.last(), trida, jen) {
            krok_menu(v2, minuly, menu.last())
        } else {
            v2
        }
    }
}

/// Mapa bez prázdných seznamů.
pub open spec fn bez_prazdnych(vol: Map<Seq<char>, Seq<Seq<char>>>) -> Map<Seq<char>, Seq<Seq<char>>> {
    Map::new(|k: Seq<char>| vol.contains_key(k) && vol[k].len() > 0, |k: Seq<char>| vol[k])
}

/// Součet velikostí všech seznamů přes menu, jak přibývají při importu.
pub open spec fn pridano_menu(
    vol: Map<Seq<char>, Seq<Seq<char>>>,
    minuly: Student,
    menu: Seq<crate::data::MenuV>,
    trida: Seq<char>,
    jen: Option<Seq<char>>,
) -> int
    decreases menu.len(),
{
    if menu.len() == 0 {
        0
    } else {
        let v2 = import_menu(vol, minuly, menu.drop_last(), trida, jen);
        let pred = pridano_menu(vol, minuly, menu.drop_last(), trida, jen);
        if menu_plati(menu.last(), trida, jen) {
            let m = menu.last();
            let akt = if v2.contains_key(m.id) { v2[m.id] } else { Seq::empty() };
            pred + (krok_menu(v2, minuly, m)[m.id].len() - akt.len())
        } else {
            pred
        }
    }
}

/// Volby žáka (id, třída, dosavadní volby) po importu z minulého roku.
pub open spec fn volby_po_importu_v(
    vol: Map<Seq<char>, Seq<Seq<char>>>,
    id: u32,
    trida: Seq<char>,
    stary: Seq<Student>,
    menu: Seq<crate::data::MenuV>,
    jen: Option<Seq<char>>,
) -> Map<Seq<char>, Seq<Seq<char>>> {
    let i = crate::data::index_studenta(stary, id);
    if i >= 0 {
        bez_prazdnych(import_menu(vol, stary[i], menu, trida, jen))
    } else {
        vol
    }
}

/// Volby žáka po importu z minulého roku.
pub open spec fn volby_po_importu(s: Student, stary: Seq<Student>, menu: Seq<crate::data::MenuV>, jen: Option<Seq<char>>) -> Map<Seq<char>, Seq<Seq<char>>> {
    volby_po_importu_v(volby_map(s.volby), s.id, s.trida@, stary, menu, jen)
}

/// Počet voleb doplněných žákovi.
pub open spec fn doplneno_zakovi(s: Student, stary: Seq<Student>, menu: Seq<crate::data::MenuV>, jen: Option<Seq<char>>) -> int {
    let i = crate::data::index_studenta(stary, s.id);
    if i >= 0 {
        pridano_menu(volby_map(s.volby), stary[i], menu, s.trida@, jen)
    } else {
        0
    }
}

/// Počet doplněných voleb přes žáky.
pub open spec fn doplneno(st: Seq<Student>, stary: Seq<Student>, menu: Seq<crate::data::MenuV>, jen: Option<Seq<char>>) -> int
    decreases st.len(),
{
    if st.len() == 0 {
        0
    } else {
        doplneno(st.drop_last(), stary, menu, jen) + doplneno_zakovi(st.last(), stary, menu, jen)
    }
}

} // verus!

verus! {

/// Všechny volby žáka (minulého roku) v pořadí klíčů menu.
fn kandidati_exec(minuly: &Student) -> (r: Vec<String>)
    ensures
        crate::data::retezce(r@) == kandidati(*minuly),
{
    let ghost pol = crate::data::volby_zaka(minuly.volby).map_values(|p: (Seq<char>, Seq<Seq<char>>)| p.1);
    let mut r: Vec<String> = Vec::new();
    let mut i: usize = 0;
    while i < minuly.volby.polozky.len()
        invariant
            i <= minuly.volby.polozky@.len(),
            pol == crate::data::volby_zaka(minuly.volby).map_values(|p: (Seq<char>, Seq<Seq<char>>)| p.1),
            crate::data::retezce(r@) == spoj(pol.take(i as int)),
        decreases minuly.volby.polozky@.len() - i,
    {
        let v = &minuly.volby.polozky[i].1;
        let ghost r0 = r@;
        let mut j: usize = 0;
        while j < v.len()
            invariant
                j <= v@.len(),
                crate::data::retezce(r@) == crate::data::retezce(r0) + crate::data::retezce(v@).take(j as int),
            decreases v@.len() - j,
        {
            let ghost r1 = r@;
            r.push(v[j].clone());
            proof {
                assert(crate::data::retezce(r@) =~= crate::data::retezce(r1).push(v@[j as int]@));
                assert(crate::data::retezce(v@).take(j + 1) =~= crate::data::retezce(v@).take(j as int).push(v@[j as int]@));
            }
            j = j + 1;
        }
        proof {
            assert(crate::data::retezce(v@).take(v@.len() as int) =~= crate::data::retezce(v@));
            assert(pol.take(i + 1).drop_last() =~= pol.take(i as int));
            assert(pol[i as int] == crate::data::retezce(v@));
        }
        i = i + 1;
    }
    proof {
        assert(pol.take(pol.len() as int) =~= pol);
    }
    r
}

/// Doplnění voleb z kandidátů (viz `dopln`).
/// Je řetězec id některé volby menu?
pub fn je_volba(m: &crate::data::Menu, x: &str) -> (r: bool)
    ensures
        r == ids_voleb(m@).contains(x@),
{
    let mut v_menu = false;
    let mut q: usize = 0;
    while q < m.volby.len()
        invariant
            q <= m.volby@.len(),
            v_menu == ids_voleb(m@).take(q as int).contains(x@),
        decreases m.volby@.len() - q,
    {
        proof {
            assert(ids_voleb(m@).take(q + 1) =~= ids_voleb(m@).take(q as int).push(m.volby@[q as int].id@));
        }
        let shoda = rovno(m.volby[q].id.as_str(), x);
        proof {
            let t = ids_voleb(m@).take(q as int);
            let y = m.volby@[q as int].id@;
            assert(t.push(y).contains(x@) <==> (t.contains(x@) || y == x@)) by {
                if t.push(y).contains(x@) {
                    let w = choose|w: int| 0 <= w < t.push(y).len() && t.push(y)[w] == x@;
                    if w < t.len() {
                        assert(t[w] == x@);
                    }
                }
                if t.contains(x@) {
                    let w = choose|w: int| 0 <= w < t.len() && t[w] == x@;
                    assert(t.push(y)[w] == x@);
                }
                if y == x@ {
                    assert(t.push(y)[t.len() as int] == x@);
                }
            }
        }
        if shoda {
            v_menu = true;
        }
        q = q + 1;
    }
    proof {
        assert(ids_voleb(m@).take(m.volby@.len() as int) =~= ids_voleb(m@));
    }
    v_menu
}

fn dopln_exec(akt: &mut Vec<String>, kand: &Vec<String>, m: &crate::data::Menu)
    ensures
        crate::data::retezce(final(akt)@) == dopln(crate::data::retezce(old(akt)@), crate::data::retezce(kand@), m@),
{
    let ghost a0 = crate::data::retezce(akt@);
    let ghost kv = crate::data::retezce(kand@);
    let mut i: usize = 0;
    while i < kand.len()
        invariant
            i <= kand@.len(),
            kv == crate::data::retezce(kand@),
            crate::data::retezce(akt@) == dopln(a0, kv.take(i as int), m@),
        decreases kand@.len() - i,
    {
        proof {
            assert(kv.take(i + 1).drop_last() =~= kv.take(i as int));
            assert(kv.take(i + 1).last() == kand@[i as int]@);
        }
        if akt.len() < m.pocet_voleb as usize {
            let v_menu = je_volba(m, kand[i].as_str());
            if v_menu && !obsahuje(akt, kand[i].as_str()) {
                let ghost a1 = akt@;
                akt.push(kand[i].clone());
                proof {
                    assert(crate::data::retezce(akt@) =~= crate::data::retezce(a1).push(kand@[i as int]@));
                }
            }
        }
        i = i + 1;
    }
    proof {
        assert(kv.take(kand@.len() as int) =~= kv);
    }
}

/// Odstraní záznamy s prázdným seznamem voleb.
pub(crate) fn odstran_prazdne(m: &mut Mapa<Vec<String>>)
    requires
        old(m).dobre(),
    ensures
        final(m).dobre(),
        volby_map(*final(m)) == bez_prazdnych(volby_map(*old(m))),
{
    let ghost orig = *m;
    let mut prazdne: Vec<String> = Vec::new();
    let mut i: usize = 0;
    while i < m.polozky.len()
        invariant
            i <= m.polozky@.len(),
            *m == orig,
            orig.dobre(),
            forall|x: Seq<char>|
                crate::data::retezce(prazdne@).contains(x) <==> exists|b: int|
                    0 <= b < i && (#[trigger] orig.polozky@[b]).0@ == x && orig.polozky@[b].1@.len() == 0,
        decreases m.polozky@.len() - i,
    {
        if m.polozky[i].1.len() == 0 {
            let ghost p0 = prazdne@;
            prazdne.push(m.polozky[i].0.clone());
            proof {
                assert(crate::data::retezce(prazdne@) =~= crate::data::retezce(p0).push(orig.polozky@[i as int].0@));
                assert forall|x: Seq<char>|
                    crate::data::retezce(prazdne@).contains(x) <==> exists|b: int|
                        0 <= b < i + 1 && (#[trigger] orig.polozky@[b]).0@ == x && orig.polozky@[b].1@.len() == 0 by {
                    let t = crate::data::retezce(p0);
                    let y = orig.polozky@[i as int].0@;
                    if t.push(y).contains(x) {
                        let w = choose|w: int| 0 <= w < t.push(y).len() && t.push(y)[w] == x;
                        if w < t.len() {
                            assert(t[w] == x);
                        }
                    }
                    if t.contains(x) {
                        let w = choose|w: int| 0 <= w < t.len() && t[w] == x;
                        assert(t.push(y)[w] == x);
                    }
                    if x == y {
                        assert(t.push(y)[t.len() as int] == x);
                    }
                }
            }
        }
        i = i + 1;
    }
    proof {
        assert forall|x: Seq<char>| crate::data::retezce(prazdne@).contains(x) <==> (orig.ma(x) && orig.hodnota(x)@.len() == 0) by {
            if crate::data::retezce(prazdne@).contains(x) {
                let b = choose|b: int| 0 <= b < orig.polozky@.len() && (#[trigger] orig.polozky@[b]).0@ == x && orig.polozky@[b].1@.len() == 0;
                orig.lemma_jednoznacne(b, x);
            }
            if orig.ma(x) && orig.hodnota(x)@.len() == 0 {
                let b = choose|b: int| 0 <= b < orig.polozky@.len() && #[trigger] orig.polozky@[b].0@ == x;
                orig.lemma_jednoznacne(b, x);
            }
        }
    }
    let mut j: usize = 0;
    while j < prazdne.len()
        invariant
            j <= prazdne@.len(),
            m.dobre(),
            orig.dobre(),
            forall|x: Seq<char>| crate::data::retezce(prazdne@).contains(x) <==> (orig.ma(x) && orig.hodnota(x)@.len() == 0),
            forall|x: Seq<char>| m.ma(x) <==> (orig.ma(x) && !crate::data::retezce(prazdne@).take(j as int).contains(x)),
            forall|x: Seq<char>| m.ma(x) ==> m.hodnota(x) == orig.hodnota(x),
        decreases prazdne@.len() - j,
    {
        let ghost m0 = *m;
        assert(forall|x: Seq<char>| #[trigger] m0.ma(x) <==> (orig.ma(x) && !crate::data::retezce(prazdne@).take(j as int).contains(x)));
        assert(forall|x: Seq<char>| m0.ma(x) ==> #[trigger] m0.hodnota(x) == orig.hodnota(x));
        m.remove(prazdne[j].as_str());
        proof {
            let t = crate::data::retezce(prazdne@);
            assert(t[j as int] == prazdne@[j as int]@);
            assert(t.take(j + 1) =~= t.take(j as int).push(prazdne@[j as int]@));
            assert forall|x: Seq<char>| m.ma(x) <==> (orig.ma(x) && !t.take(j + 1).contains(x)) by {
                let y = prazdne@[j as int]@;
                let u = t.take(j as int);
                crate::hledani::lemma_contains_push(u, y, x);
                if x != y {
                    assert(m.ma(x) == m0.ma(x));
                    assert(m0.ma(x) <==> (orig.ma(x) && !u.contains(x)));
                }
            }
        }
        j = j + 1;
    }
    proof {
        let t = crate::data::retezce(prazdne@);
        assert(t.take(prazdne@.len() as int) =~= t);
        assert(volby_map(*m) =~= bez_prazdnych(volby_map(orig)));
    }
}

fn kopie_retezcu_vec(v: &Vec<String>) -> (r: Vec<String>)
    ensures
        r@ == v@,
{
    crate::data::kopie_retezcu(v)
}

} // verus!

verus! {

proof fn lemma_dopln_delka(akt: Seq<Seq<char>>, kand: Seq<Seq<char>>, m: crate::data::MenuV)
    ensures
        akt.len() <= dopln(akt, kand, m).len(),
        dopln(akt, kand, m).len() <= akt.len() + 255,
        dopln(akt, kand, m).len() > akt.len() ==> dopln(akt, kand, m).len() <= m.pocet_voleb,
    decreases kand.len(),
{
    if kand.len() > 0 {
        lemma_dopln_delka(akt, kand.drop_last(), m);
    }
}

/// Import voleb jednoho žáka z jeho loňského záznamu.
fn import_zaka(s: &mut Student, minuly: &Student, menu: &Vec<crate::data::Menu>, jen: Option<&str>) -> (r: usize)
    requires
        old(s).volby.dobre(),
        minuly.volby.dobre(),
        menu@.len() * 255 < usize::MAX,
    ensures
        final(s).volby.dobre(),
        volby_map(final(s).volby) == bez_prazdnych(import_menu(volby_map(old(s).volby), *minuly, crate::data::menu_v(menu@), old(s).trida@, match jen { Some(j) => Some(j@), None => None })),
        r == pridano_menu(volby_map(old(s).volby), *minuly, crate::data::menu_v(menu@), old(s).trida@, match jen { Some(j) => Some(j@), None => None }),
        r <= menu@.len() * 255,
        final(s).id == old(s).id,
        final(s).jmeno@ == old(s).jmeno@,
        final(s).trida@ == old(s).trida@,
        final(s).skupina_aj == old(s).skupina_aj,
        final(s).pohlavi == old(s).pohlavi,
        final(s).status == old(s).status,
{
    let ghost jv: Option<Seq<char>> = match jen { Some(j) => Some(j@), None => None };
    let ghost mv = crate::data::menu_v(menu@);
    let ghost vol0 = volby_map(s.volby);
    let kand = kandidati_exec(minuly);
    let mut pocet: usize = 0;
    let mut mi: usize = 0;
    while mi < menu.len()
        invariant
            mi <= menu@.len(),
            mv == crate::data::menu_v(menu@),
            menu@.len() * 255 < usize::MAX,
            s.volby.dobre(),
            minuly.volby.dobre(),
            crate::data::retezce(kand@) == kandidati(*minuly),
            volby_map(s.volby) == import_menu(vol0, *minuly, mv.take(mi as int), old(s).trida@, jv),
            pocet == pridano_menu(vol0, *minuly, mv.take(mi as int), old(s).trida@, jv),
            pocet <= mi * 255,
            s.id == old(s).id,
            s.jmeno@ == old(s).jmeno@,
            s.trida@ == old(s).trida@,
            s.skupina_aj == old(s).skupina_aj,
            s.pohlavi == old(s).pohlavi,
            s.status == old(s).status,
            jv == (match jen { Some(j) => Some(j@), None => None::<Seq<char>> }),
        decreases menu@.len() - mi,
    {
        let m = &menu[mi];
        proof {
            assert(mv.take(mi + 1).drop_last() =~= mv.take(mi as int));
            assert(mv.take(mi + 1).last() == m@);
            assert(mv[mi as int] == m@);
        }
        let v_tride = obsahuje(&m.tridy, s.trida.as_str());
        let plati = v_tride && match jen {
            Some(j) => rovno(j, m.id.as_str()),
            None => true,
        };
        if plati {
            let mut akt: Vec<String> = match s.volby.get(m.id.as_str()) {
                Some(v) => crate::data::kopie_retezcu(v),
                None => Vec::new(),
            };
            let ghost akt0 = crate::data::retezce(akt@);
            proof {
                let v2 = volby_map(s.volby);
                if v2.contains_key(m@.id) {
                    assert(akt0 == v2[m@.id]);
                } else {
                    assert(akt0 =~= Seq::<Seq<char>>::empty());
                }
            }
            let pred = akt.len();
            if !(m.pocet_voleb != 1 && !minuly.volby.contains_key(m.id.as_str())) {
                dopln_exec(&mut akt, &kand, m);
                proof {
                    lemma_dopln_delka(akt0, kandidati(*minuly), m@);
                }
                pocet = pocet + (akt.len() - pred);
            }
            let ghost v2 = volby_map(s.volby);
            s.volby.insert(m.id.clone(), akt);
            proof {
                assert(volby_map(s.volby) =~= krok_menu(v2, *minuly, m@));
            }
        }
        mi = mi + 1;
    }
    proof {
        assert(mv.take(menu@.len() as int) =~= mv);
    }
    odstran_prazdne(&mut s.volby);
    pocet
}

/// Přenese volby z minulého roku: pro každé menu, do kterého žák patří, převezme volby,
/// jejichž id existuje v novém menu a žák je měl vloni v libovolném menu (semináře
/// s více volbami jen tehdy, když žák vloni v tomtéž menu volil).
/// `jen_menu` = omezit na jedno menu. Vrací počet doplněných voleb.
pub fn import_voleb(rok: &mut crate::data::SkolniRok, stary: &crate::data::SkolniRok, jen_menu: Option<&str>) -> (r: usize)
    requires
        volby_platne(old(rok).studenti@),
        volby_platne(stary.studenti@),
        old(rok).menu@.len() * 255 * old(rok).studenti@.len() < usize::MAX,
        old(rok).menu@.len() * 255 < usize::MAX,
    ensures
        volby_platne(final(rok).studenti@),
        final(rok).studenti@.len() == old(rok).studenti@.len(),
        crate::data::menu_v(final(rok).menu@) == crate::data::menu_v(old(rok).menu@),
        final(rok).label@ == old(rok).label@,
        final(rok).dalsi_id == old(rok).dalsi_id,
        forall|i: int| 0 <= i < old(rok).studenti@.len() ==> {
            let s0 = #[trigger] old(rok).studenti@[i];
            let s1 = final(rok).studenti@[i];
            &&& s1.id == s0.id && s1.jmeno@ == s0.jmeno@ && s1.trida@ == s0.trida@
            &&& s1.skupina_aj == s0.skupina_aj && s1.pohlavi == s0.pohlavi && s1.status == s0.status
            &&& volby_map(s1.volby) == volby_po_importu(
                s0,
                stary.studenti@,
                crate::data::menu_v(old(rok).menu@),
                match jen_menu { Some(j) => Some(j@), None => None },
            )
        },
        r == doplneno(old(rok).studenti@, stary.studenti@, crate::data::menu_v(old(rok).menu@), match jen_menu { Some(j) => Some(j@), None => None }),
{
    let ghost jv: Option<Seq<char>> = match jen_menu { Some(j) => Some(j@), None => None };
    let ghost st0 = rok.studenti@;
    let menu = crate::data::kopie_menu(&rok.menu);
    proof {
        assert(crate::data::menu_v(menu@).len() == menu@.len());
        assert(crate::data::menu_v(old(rok).menu@).len() == old(rok).menu@.len());
    }
    let ghost nm: int = old(rok).menu@.len() as int * 255;
    let ghost ns: int = st0.len() as int;
    let mut pocet: usize = 0;
    let mut i: usize = 0;
    while i < rok.studenti.len()
        invariant
            nm == old(rok).menu@.len() * 255,
            ns == st0.len(),
            nm * ns < usize::MAX,
            i <= rok.studenti@.len(),
            rok.studenti@.len() == st0.len(),
            st0 == old(rok).studenti@,
            crate::data::menu_v(menu@) == crate::data::menu_v(old(rok).menu@),
            crate::data::menu_v(rok.menu@) == crate::data::menu_v(old(rok).menu@),
            menu@.len() == old(rok).menu@.len(),
            rok.label@ == old(rok).label@,
            rok.dalsi_id == old(rok).dalsi_id,
            old(rok).menu@.len() * 255 * old(rok).studenti@.len() < usize::MAX,
            old(rok).menu@.len() * 255 < usize::MAX,
            volby_platne(rok.studenti@),
            volby_platne(stary.studenti@),
            jv == (match jen_menu { Some(j) => Some(j@), None => None::<Seq<char>> }),
            forall|k: int| i <= k < st0.len() ==> #[trigger] rok.studenti@[k] == st0[k],
            forall|k: int| 0 <= k < i ==> {
                let s0 = #[trigger] st0[k];
                let s1 = rok.studenti@[k];
                &&& s1.id == s0.id && s1.jmeno@ == s0.jmeno@ && s1.trida@ == s0.trida@
                &&& s1.skupina_aj == s0.skupina_aj && s1.pohlavi == s0.pohlavi && s1.status == s0.status
                &&& volby_map(s1.volby) == volby_po_importu(s0, stary.studenti@, crate::data::menu_v(old(rok).menu@), jv)
            },
            pocet == doplneno(st0.take(i as int), stary.studenti@, crate::data::menu_v(old(rok).menu@), jv),
            pocet <= i * nm,
        decreases st0.len() - i,
    {
        let id = rok.studenti[i].id;
        proof {
            assert(st0.take(i + 1).drop_last() =~= st0.take(i as int));
            assert(st0.take(i + 1).last() == st0[i as int]);
            assert(rok.studenti@[i as int].volby.dobre());
        }
        match stary.student(id) {
            Some(minuly) => {
                proof {
                    crate::hledani::lemma_prvni(stary.studenti@, |x: Student| x.id == id);
                    let si = crate::data::index_studenta(stary.studenti@, id);
                    assert(stary.studenti@[si].volby.dobre());
                }
                let n = import_zaka(&mut rok.studenti[i], minuly, &menu, jen_menu);
                proof {
                    assert(n <= nm);
                    let ii = i as int;
                    assert((ii + 1) * nm == ii * nm + nm) by (nonlinear_arith);
                    assert((ii + 1) * nm <= ns * nm) by (nonlinear_arith)
                        requires ii + 1 <= ns, nm >= 0;
                    assert(ns * nm == nm * ns) by (nonlinear_arith);
                }
                pocet = pocet + n;
            },
            None => {
                proof {
                    let ii = i as int;
                    assert((ii + 1) * nm == ii * nm + nm) by (nonlinear_arith);
                }
            },
        }
        i = i + 1;
    }
    proof {
        assert(st0.take(st0.len() as int) =~= st0);
    }
    pocet
}

} // verus!

verus! {

/// Žák nového roku před importem voleb.
pub struct ZakPrechodu {
    pub id: u32,
    pub jmeno: Seq<char>,
    pub trida: Seq<char>,
    pub skupina_aj: SkupinaAj,
    pub pohlavi: Pohlavi,
}

/// Změna žáka: zadaná, jinak výchozí podle stavu.
pub open spec fn zmena_zaka(zmeny: Map<u32, Zmena>, s: Student) -> Zmena {
    if zmeny.contains_key(s.id) {
        zmeny[s.id]
    } else {
        vychozi_zmena_spec(s)
    }
}

/// Převedení loňských žáků: odešlí a odcházející vypadnou, ostatní jdou do cílové třídy.
pub open spec fn prevedeni(tridy: Seq<crate::data::Trida>, st: Seq<Student>, zmeny: Map<u32, Zmena>) -> Seq<ZakPrechodu>
    decreases st.len(),
{
    if st.len() == 0 {
        Seq::empty()
    } else {
        let pred = prevedeni(tridy, st.drop_last(), zmeny);
        let s = st.last();
        if s.status == StavStudenta::Odesel {
            pred
        } else {
            match cil_spec(tridy, s, zmena_zaka(zmeny, s)) {
                Some(c) => pred.push(
                    ZakPrechodu { id: s.id, jmeno: s.jmeno@, trida: c, skupina_aj: s.skupina_aj, pohlavi: s.pohlavi },
                ),
                None => pred,
            }
        }
    }
}

/// Počet nových žáků.
pub open spec fn pocet_novych(novi: Seq<(String, Vec<NovyZak>)>) -> nat
    decreases novi.len(),
{
    if novi.len() == 0 {
        0
    } else {
        pocet_novych(novi.drop_last()) + novi.last().1@.len()
    }
}

/// Noví žáci jedné třídy s id od `id0`.
pub open spec fn novacci_tridy(trida: Seq<char>, zaci: Seq<NovyZak>, id0: int) -> Seq<ZakPrechodu> {
    Seq::new(
        zaci.len(),
        |k: int|
            ZakPrechodu {
                id: (id0 + k) as u32,
                jmeno: zaci[k].jmeno@,
                trida,
                skupina_aj: zaci[k].skupina,
                pohlavi: zaci[k].pohlavi,
            },
    )
}

/// Noví žáci všech tříd (v pořadí tříd), id přidělena postupně od `id0`.
pub open spec fn novacci(novi: Seq<(String, Vec<NovyZak>)>, id0: int) -> Seq<ZakPrechodu>
    decreases novi.len(),
{
    if novi.len() == 0 {
        Seq::empty()
    } else {
        let pred = novacci(novi.drop_last(), id0);
        pred + novacci_tridy(novi.last().0@, novi.last().1@, id0 + pocet_novych(novi.drop_last()))
    }
}

/// Žáci nového roku (před importem voleb).
pub open spec fn zaci_noveho_roku(
    skola: crate::data::Skola,
    stary: crate::data::SkolniRok,
    zmeny: Map<u32, Zmena>,
    novi: Mapa<Vec<NovyZak>>,
) -> Seq<ZakPrechodu> {
    prevedeni(skola.tridy@, stary.studenti@, zmeny) + novacci(novi.polozky@, stary.dalsi_id as int)
}

/// Propadající žák bez zadané změny je mezi převedenými žáky se svým id ve své dosavadní třídě.
proof fn lemma_propadajici_v_prevedeni(tridy: Seq<crate::data::Trida>, st: Seq<Student>, zmeny: Map<u32, Zmena>, k: int)
    requires
        0 <= k < st.len(),
        st[k].status == StavStudenta::Propada,
        !zmeny.contains_key(st[k].id),
    ensures
        exists|x: int|
            0 <= x < prevedeni(tridy, st, zmeny).len() && (#[trigger] prevedeni(tridy, st, zmeny)[x]).id == st[k].id
                && prevedeni(tridy, st, zmeny)[x].trida == st[k].trida@,
    decreases st.len(),
{
    let pred = prevedeni(tridy, st.drop_last(), zmeny);
    if k == st.len() - 1 {
        assert(st.last() == st[k]);
        assert(zmena_zaka(zmeny, st[k]) == Zmena::Propada);
        assert(prevedeni(tridy, st, zmeny)[pred.len() as int].id == st[k].id);
    } else {
        assert(st.drop_last()[k] == st[k]);
        lemma_propadajici_v_prevedeni(tridy, st.drop_last(), zmeny, k);
        let x = choose|x: int|
            0 <= x < pred.len() && (#[trigger] pred[x]).id == st[k].id && pred[x].trida == st[k].trida@;
        assert(prevedeni(tridy, st, zmeny)[x] == pred[x]);
    }
}

/// Zákon nového roku: žák, který propadá a nemá zadanou změnu, zůstává v novém roce
/// (se svým id) ve své dosavadní třídě. Platí pro každý výsledek `novy_rok`.
pub proof fn zakon_propadajici_zustava(
    skola: crate::data::Skola,
    stary: crate::data::SkolniRok,
    zmeny: Map<u32, Zmena>,
    novi: Mapa<Vec<NovyZak>>,
    rok: crate::data::SkolniRok,
    k: int,
)
    requires
        rok.studenti@.len() == zaci_noveho_roku(skola, stary, zmeny, novi).len(),
        forall|i: int|
            0 <= i < rok.studenti@.len() ==> (#[trigger] rok.studenti@[i]).id == zaci_noveho_roku(skola, stary, zmeny, novi)[i].id
                && rok.studenti@[i].trida@ == zaci_noveho_roku(skola, stary, zmeny, novi)[i].trida,
        0 <= k < stary.studenti@.len(),
        stary.studenti@[k].status == StavStudenta::Propada,
        !zmeny.contains_key(stary.studenti@[k].id),
    ensures
        exists|i: int|
            0 <= i < rok.studenti@.len() && (#[trigger] rok.studenti@[i]).id == stary.studenti@[k].id
                && rok.studenti@[i].trida@ == stary.studenti@[k].trida@,
{
    let pre = prevedeni(skola.tridy@, stary.studenti@, zmeny);
    lemma_propadajici_v_prevedeni(skola.tridy@, stary.studenti@, zmeny, k);
    let x = choose|x: int| 0 <= x < pre.len() && (#[trigger] pre[x]).id == stary.studenti@[k].id && pre[x].trida == stary.studenti@[k].trida@;
    let z = zaci_noveho_roku(skola, stary, zmeny, novi);
    assert(z[x] == pre[x]);
    assert(rok.studenti@[x].id == z[x].id);
}

proof fn lemma_prevedeni_delka(tridy: Seq<crate::data::Trida>, st: Seq<Student>, zmeny: Map<u32, Zmena>)
    ensures
        prevedeni(tridy, st, zmeny).len() <= st.len(),
    decreases st.len(),
{
    if st.len() > 0 {
        lemma_prevedeni_delka(tridy, st.drop_last(), zmeny);
    }
}

proof fn lemma_novacci_delka(novi: Seq<(String, Vec<NovyZak>)>, id0: int)
    ensures
        novacci(novi, id0).len() == pocet_novych(novi),
    decreases novi.len(),
{
    if novi.len() > 0 {
        lemma_novacci_delka(novi.drop_last(), id0);
    }
}

/// Vytvoří nový školní rok: převede žáky (postup / propadnutí / odchod / maturita),
/// přidá nové žáky, zkopíruje katalogy voleb a přenese pokračující volby.
pub fn novy_rok(
    skola: &crate::data::Skola,
    stary: &crate::data::SkolniRok,
    zmeny: &std::collections::BTreeMap<u32, Zmena>,
    novi: &Mapa<Vec<NovyZak>>,
    label: &str,
) -> (rok: crate::data::SkolniRok)
    requires
        volby_platne(stary.studenti@),
        stary.dalsi_id + pocet_novych(novi.polozky@) <= u32::MAX,
        stary.menu@.len() * 255 * (stary.studenti@.len() + pocet_novych(novi.polozky@)) < usize::MAX,
        stary.menu@.len() * 255 < usize::MAX,
    ensures
        rok.label@ == label@,
        crate::data::menu_v(rok.menu@) == crate::data::menu_v(stary.menu@),
        rok.dalsi_id == stary.dalsi_id + pocet_novych(novi.polozky@),
        volby_platne(rok.studenti@),
        rok.studenti@.len() == zaci_noveho_roku(*skola, *stary, zmeny@, *novi).len(),
        forall|i: int| 0 <= i < rok.studenti@.len() ==> {
            let z = #[trigger] zaci_noveho_roku(*skola, *stary, zmeny@, *novi)[i];
            let s = rok.studenti@[i];
            &&& s.id == z.id && s.jmeno@ == z.jmeno && s.trida@ == z.trida
            &&& s.skupina_aj == z.skupina_aj && s.pohlavi == z.pohlavi && s.status == StavStudenta::Aktivni
            &&& volby_map(s.volby) == volby_po_importu_v(
                Map::empty(),
                z.id,
                z.trida,
                stary.studenti@,
                crate::data::menu_v(stary.menu@),
                None,
            )
        },
{
    let ghost pre = zaci_noveho_roku(*skola, *stary, zmeny@, *novi);
    let mut rok = crate::data::SkolniRok {
        label: label.to_owned(),
        studenti: Vec::new(),
        menu: crate::data::kopie_menu(&stary.menu),
        dalsi_id: stary.dalsi_id,
    };
    let mut i: usize = 0;
    while i < stary.studenti.len()
        invariant
            i <= stary.studenti@.len(),
            rok.label@ == label@,
            crate::data::menu_v(rok.menu@) == crate::data::menu_v(stary.menu@),
            rok.dalsi_id == stary.dalsi_id,
            rok.studenti@.len() == prevedeni(skola.tridy@, stary.studenti@.take(i as int), zmeny@).len(),
            forall|k: int| 0 <= k < rok.studenti@.len() ==> {
                let z = #[trigger] prevedeni(skola.tridy@, stary.studenti@.take(i as int), zmeny@)[k];
                let s = rok.studenti@[k];
                &&& s.id == z.id && s.jmeno@ == z.jmeno && s.trida@ == z.trida
                &&& s.skupina_aj == z.skupina_aj && s.pohlavi == z.pohlavi && s.status == StavStudenta::Aktivni
                &&& s.volby.dobre() && s.volby.mapa() == Map::<Seq<char>, Vec<String>>::empty()
            },
        decreases stary.studenti@.len() - i,
    {
        let s = &stary.studenti[i];
        proof {
            assert(stary.studenti@.take(i + 1).drop_last() =~= stary.studenti@.take(i as int));
            assert(stary.studenti@.take(i + 1).last() == *s);
        }
        let zmena = match crate::zmeny::zadana_zmena(zmeny, s.id) {
            Some(z) => z,
            None => vychozi_zmena(s),
        };
        if s.status != StavStudenta::Odesel {
            match cilova_trida(skola, s, zmena) {
                Some(cil) => {
                    let n = Student {
                        id: s.id,
                        jmeno: s.jmeno.clone(),
                        trida: cil,
                        skupina_aj: s.skupina_aj,
                        pohlavi: s.pohlavi,
                        volby: Mapa::new(),
                        status: StavStudenta::Aktivni,
                    };
                    rok.studenti.push(n);
                },
                None => {},
            }
        }
        i = i + 1;
    }
    proof {
        assert(stary.studenti@.take(stary.studenti@.len() as int) =~= stary.studenti@);
        lemma_prevedeni_delka(skola.tridy@, stary.studenti@, zmeny@);
    }
    let ghost n_prev = rok.studenti@.len();
    let mut t: usize = 0;
    while t < novi.polozky.len()
        invariant
            t <= novi.polozky@.len(),
            rok.label@ == label@,
            crate::data::menu_v(rok.menu@) == crate::data::menu_v(stary.menu@),
            rok.dalsi_id == stary.dalsi_id + pocet_novych(novi.polozky@.take(t as int)),
            stary.dalsi_id + pocet_novych(novi.polozky@) <= u32::MAX,
            n_prev == prevedeni(skola.tridy@, stary.studenti@, zmeny@).len(),
            rok.studenti@.len() == n_prev + novacci(novi.polozky@.take(t as int), stary.dalsi_id as int).len(),
            forall|k: int| 0 <= k < rok.studenti@.len() ==> {
                let z = #[trigger] (prevedeni(skola.tridy@, stary.studenti@, zmeny@) + novacci(
                    novi.polozky@.take(t as int),
                    stary.dalsi_id as int,
                ))[k];
                let s = rok.studenti@[k];
                &&& s.id == z.id && s.jmeno@ == z.jmeno && s.trida@ == z.trida
                &&& s.skupina_aj == z.skupina_aj && s.pohlavi == z.pohlavi && s.status == StavStudenta::Aktivni
                &&& s.volby.dobre() && s.volby.mapa() == Map::<Seq<char>, Vec<String>>::empty()
            },
        decreases novi.polozky@.len() - t,
    {
        let trida = &novi.polozky[t].0;
        let zaci = &novi.polozky[t].1;
        let ghost np = novi.polozky@;
        proof {
            assert(np.take(t + 1).drop_last() =~= np.take(t as int));
            assert(np.take(t + 1).last() == np[t as int]);
            lemma_pocet_novych_prefix(np, t as int + 1);
            lemma_novacci_delka(np.take(t as int), stary.dalsi_id as int);
        }
        let ghost base = rok.studenti@.len();
        let mut z: usize = 0;
        while z < zaci.len()
            invariant
                z <= zaci@.len(),
                t < np.len(),
                np == novi.polozky@,
                *zaci == np[t as int].1,
                *trida == np[t as int].0,
                rok.label@ == label@,
                crate::data::menu_v(rok.menu@) == crate::data::menu_v(stary.menu@),
                rok.dalsi_id == stary.dalsi_id + pocet_novych(np.take(t as int)) + z,
                stary.dalsi_id + pocet_novych(np.take(t as int + 1)) <= u32::MAX,
                pocet_novych(np.take(t as int + 1)) == pocet_novych(np.take(t as int)) + zaci@.len(),
                base == n_prev + novacci(np.take(t as int), stary.dalsi_id as int).len(),
                rok.studenti@.len() == base + z,
                forall|k: int| 0 <= k < base ==> {
                    let zz = #[trigger] (prevedeni(skola.tridy@, stary.studenti@, zmeny@) + novacci(
                        np.take(t as int),
                        stary.dalsi_id as int,
                    ))[k];
                    let s = rok.studenti@[k];
                    &&& s.id == zz.id && s.jmeno@ == zz.jmeno && s.trida@ == zz.trida
                    &&& s.skupina_aj == zz.skupina_aj && s.pohlavi == zz.pohlavi && s.status == StavStudenta::Aktivni
                    &&& s.volby.dobre() && s.volby.mapa() == Map::<Seq<char>, Vec<String>>::empty()
                },
                forall|k: int| 0 <= k < z ==> {
                    let zz = #[trigger] novacci_tridy(trida@, zaci@, stary.dalsi_id + pocet_novych(np.take(t as int)))[k];
                    let s = rok.studenti@[base + k];
                    &&& s.id == zz.id && s.jmeno@ == zz.jmeno && s.trida@ == zz.trida
                    &&& s.skupina_aj == zz.skupina_aj && s.pohlavi == zz.pohlavi && s.status == StavStudenta::Aktivni
                    &&& s.volby.dobre() && s.volby.mapa() == Map::<Seq<char>, Vec<String>>::empty()
                },
            decreases zaci@.len() - z,
        {
            let id = rok.nove_id();
            let nz = &zaci[z];
            rok.studenti.push(Student {
                id,
                jmeno: nz.jmeno.clone(),
                trida: trida.clone(),
                skupina_aj: nz.skupina,
                pohlavi: nz.pohlavi,
                volby: Mapa::new(),
                status: StavStudenta::Aktivni,
            });
            z = z + 1;
        }
        proof {
            let a = prevedeni(skola.tridy@, stary.studenti@, zmeny@);
            let b0 = novacci(np.take(t as int), stary.dalsi_id as int);
            let c = novacci_tridy(trida@, zaci@, stary.dalsi_id + pocet_novych(np.take(t as int)));
            assert(novacci(np.take(t + 1), stary.dalsi_id as int) =~= b0 + c);
            assert(a + (b0 + c) =~= (a + b0) + c);
            assert forall|k: int| 0 <= k < rok.studenti@.len() implies {
                let zz = #[trigger] (a + novacci(np.take(t + 1), stary.dalsi_id as int))[k];
                let s = rok.studenti@[k];
                &&& s.id == zz.id && s.jmeno@ == zz.jmeno && s.trida@ == zz.trida
                &&& s.skupina_aj == zz.skupina_aj && s.pohlavi == zz.pohlavi && s.status == StavStudenta::Aktivni
                &&& s.volby.dobre() && s.volby.mapa() == Map::<Seq<char>, Vec<String>>::empty()
            } by {
                if k < base {
                    assert((a + b0)[k] == (a + b0 + c)[k]);
                } else {
                    assert((a + b0 + c)[k] == c[k - base]);
                }
            }
        }
        t = t + 1;
    }
    proof {
        assert(novi.polozky@.take(novi.polozky@.len() as int) =~= novi.polozky@);
        lemma_novacci_delka(novi.polozky@, stary.dalsi_id as int);
        assert(rok.studenti@.len() <= stary.studenti@.len() + pocet_novych(novi.polozky@));
        assert(rok.menu@.len() == stary.menu@.len()) by {
            assert(crate::data::menu_v(rok.menu@).len() == rok.menu@.len());
            assert(crate::data::menu_v(stary.menu@).len() == stary.menu@.len());
        }
        assert(rok.menu@.len() * 255 * rok.studenti@.len() <= stary.menu@.len() * 255 * (stary.studenti@.len() + pocet_novych(novi.polozky@))) by (nonlinear_arith)
            requires rok.menu@.len() == stary.menu@.len(), rok.studenti@.len() <= stary.studenti@.len() + pocet_novych(novi.polozky@);
        let ghost celek = prevedeni(skola.tridy@, stary.studenti@, zmeny@) + novacci(novi.polozky@.take(t as int), stary.dalsi_id as int);
        assert forall|i: int| 0 <= i < rok.studenti@.len() implies (#[trigger] rok.studenti@[i]).volby.dobre()
            && volby_map(rok.studenti@[i].volby) == Map::<Seq<char>, Seq<Seq<char>>>::empty() by {
            let zz = celek[i];
            assert(rok.studenti@[i].volby.mapa() == Map::<Seq<char>, Vec<String>>::empty());
            assert(volby_map(rok.studenti@[i].volby) =~= Map::<Seq<char>, Seq<Seq<char>>>::empty());
        }
        assert(volby_platne(rok.studenti@));
        assert(celek =~= pre);
    }
    let ghost pred_import = rok.studenti@;
    import_voleb(&mut rok, stary, None);
    proof {
        assert forall|i: int| 0 <= i < rok.studenti@.len() implies {
            let z = #[trigger] pre[i];
            let s = rok.studenti@[i];
            &&& s.id == z.id && s.jmeno@ == z.jmeno && s.trida@ == z.trida
            &&& s.skupina_aj == z.skupina_aj && s.pohlavi == z.pohlavi && s.status == StavStudenta::Aktivni
            &&& volby_map(s.volby) == volby_po_importu_v(Map::empty(), z.id, z.trida, stary.studenti@, crate::data::menu_v(stary.menu@), None)
        } by {
            assert(volby_map(pred_import[i].volby) == Map::<Seq<char>, Seq<Seq<char>>>::empty());
        }
    }
    rok
}

proof fn lemma_pocet_novych_prefix(np: Seq<(String, Vec<NovyZak>)>, t: int)
    requires
        0 <= t <= np.len(),
    ensures
        pocet_novych(np.take(t)) <= pocet_novych(np),
    decreases np.len() - t,
{
    if t < np.len() {
        assert(np.take(t + 1).drop_last() =~= np.take(t));
        lemma_pocet_novych_prefix(np, t + 1);
    } else {
        assert(np.take(t) =~= np);
    }
}

} // verus!
