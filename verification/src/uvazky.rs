//! Úvazky učitelů spočítané z lekcí (v půlhodinách týdně: lekce lichého nebo sudého
//! týdne se počítá polovinou), seřazené od největšího.

use crate::data::{Skola, SkolniRok, Ucitel};
use crate::mapa::{lemma_lex_asymetricky, lemma_lex_uplny, Mapa};
use crate::solver::{postav_lekce, LekceInfo, Tyden};
use crate::text::{lex_mensi, porovnej};
use vstd::prelude::*;

verus! {

/// Půlhodiny lekce týdně: celotýdenní dvojnásobek délky, lichý/sudý týden délka.
pub open spec fn pulhodiny(l: LekceInfo) -> int {
    if l.tyden == Tyden::Oba {
        2 * l.len
    } else {
        l.len as int
    }
}

/// Součet půlhodin lekcí učitele `id` mezi prvními `n` lekcemi.
pub open spec fn zatez_ucitele(lekce: Seq<LekceInfo>, id: Seq<char>, n: int) -> int
    decreases n,
{
    if n <= 0 {
        0
    } else {
        zatez_ucitele(lekce, id, n - 1) + (if lekce[n - 1].ucitel@ == id {
            pulhodiny(lekce[n - 1])
        } else {
            0
        })
    }
}

/// Číslo omezené shora rozsahem `u64`.
pub open spec fn nejvys_u64(x: int) -> int {
    if x > u64::MAX {
        u64::MAX as int
    } else {
        x
    }
}

/// Pořadí úvazků: větší dřív, při shodě abecedně podle zkratky.
pub open spec fn pred_z(a: (String, u64), b: (String, u64)) -> bool {
    a.1 > b.1 || (a.1 == b.1 && lex_mensi(a.0@, b.0@))
}

/// Zkratky v posloupnosti jsou navzájem různé.
pub open spec fn klice_ruzne(s: Seq<(String, u64)>) -> bool {
    forall|p: int, q: int| 0 <= p < q < s.len() ==> (#[trigger] s[p]).0@ != (#[trigger] s[q]).0@
}

/// Posloupnost obsahuje dvojici (zkratka, úvazek).
pub open spec fn ma_par(s: Seq<(String, u64)>, x: Seq<char>, h: u64) -> bool {
    exists|p: int| 0 <= p < s.len() && (#[trigger] s[p]).0@ == x && s[p].1 == h
}

proof fn lemma_pred_z_tranzitivni(a: (String, u64), b: (String, u64), c: (String, u64))
    requires
        pred_z(a, b),
        pred_z(b, c),
    ensures
        pred_z(a, c),
{
    if a.1 == b.1 && b.1 == c.1 {
        crate::mapa::lemma_lex_tranzitivni(a.0@, b.0@, c.0@);
    }
}

/// Je `a` v pořadí úvazků před `b`?
fn pred_z_exec(a: &(String, u64), b: &(String, u64)) -> (r: bool)
    ensures
        r == pred_z(*a, *b),
{
    a.1 > b.1 || (a.1 == b.1 && porovnej(a.0.as_str(), b.0.as_str()) < 0)
}

/// Seřadí úvazky (větší dřív, při shodě podle zkratky).
fn serad_zateze(v: Vec<(String, u64)>) -> (r: Vec<(String, u64)>)
    requires
        klice_ruzne(v@),
    ensures
        r@.len() == v@.len(),
        klice_ruzne(r@),
        forall|x: Seq<char>, h: u64| ma_par(r@, x, h) <==> ma_par(v@, x, h),
        forall|p: int, q: int| 0 <= p < q < r@.len() ==> pred_z(#[trigger] r@[p], #[trigger] r@[q]),
{
    let ghost v0 = v@;
    let mut zbyva = v;
    let mut r: Vec<(String, u64)> = Vec::new();
    while zbyva.len() > 0
        invariant
            r@.len() + zbyva@.len() == v0.len(),
            klice_ruzne(r@),
            klice_ruzne(zbyva@),
            forall|p: int, j: int| 0 <= p < r@.len() && 0 <= j < zbyva@.len() ==> (#[trigger] r@[p]).0@ != (#[trigger] zbyva@[j]).0@,
            forall|x: Seq<char>, h: u64| (ma_par(r@, x, h) || ma_par(zbyva@, x, h)) <==> ma_par(v0, x, h),
            forall|p: int, q: int| 0 <= p < q < r@.len() ==> pred_z(#[trigger] r@[p], #[trigger] r@[q]),
            forall|p: int, j: int| 0 <= p < r@.len() && 0 <= j < zbyva@.len() ==> pred_z(#[trigger] r@[p], #[trigger] zbyva@[j]),
        decreases zbyva@.len(),
    {
        let mut nej: usize = 0;
        let mut i: usize = 1;
        proof {
            crate::mapa::lemma_lex_ireflexivni(zbyva@[0].0@);
        }
        while i < zbyva.len()
            invariant
                1 <= i <= zbyva@.len(),
                nej < zbyva@.len(),
                forall|j: int| 0 <= j < i ==> !pred_z(#[trigger] zbyva@[j], zbyva@[nej as int]),
            decreases zbyva@.len() - i,
        {
            if pred_z_exec(&zbyva[i], &zbyva[nej]) {
                proof {
                    assert forall|j: int| 0 <= j < i + 1 implies !pred_z(#[trigger] zbyva@[j], zbyva@[i as int]) by {
                        if j == i {
                            crate::mapa::lemma_lex_ireflexivni(zbyva@[i as int].0@);
                        } else if pred_z(zbyva@[j], zbyva@[i as int]) {
                            lemma_pred_z_tranzitivni(zbyva@[j], zbyva@[i as int], zbyva@[nej as int]);
                        }
                    }
                }
                nej = i;
            }
            i = i + 1;
        }
        let ghost z0 = zbyva@;
        let ghost r0 = r@;
        proof {
            assert forall|j: int| 0 <= j < z0.len() && j != nej implies pred_z(z0[nej as int], #[trigger] z0[j]) by {
                lemma_lex_uplny(z0[nej as int].0@, z0[j].0@);
                if j < nej {
                    assert(z0[j].0@ != z0[nej as int].0@);
                } else {
                    assert(z0[nej as int].0@ != z0[j].0@);
                }
            }
        }
        let m = zbyva.remove(nej);
        r.push(m);
        proof {
            assert(r@ == r0.push(m));
            assert(m == z0[nej as int]);
            assert forall|j: int| 0 <= j < zbyva@.len() implies #[trigger] zbyva@[j] == (if j < nej {
                z0[j]
            } else {
                z0[j + 1]
            }) by {}
            assert forall|p: int, q: int| 0 <= p < q < zbyva@.len() implies (#[trigger] zbyva@[p]).0@ != (
            #[trigger] zbyva@[q]).0@ by {
                let pp = if p < nej { p } else { p + 1 };
                let qq = if q < nej { q } else { q + 1 };
                assert(z0[pp].0@ != z0[qq].0@);
            }
            assert forall|p: int, q: int| 0 <= p < q < r@.len() implies (#[trigger] r@[p]).0@ != (#[trigger] r@[q]).0@ by {
                if q < r0.len() {
                    assert(r0[p].0@ != r0[q].0@);
                } else {
                    assert(r0[p].0@ != z0[nej as int].0@);
                }
            }
            assert forall|p: int, j: int| 0 <= p < r@.len() && 0 <= j < zbyva@.len() implies (#[trigger] r@[p]).0@ != (
            #[trigger] zbyva@[j]).0@ by {
                let jj = if j < nej { j } else { j + 1 };
                if p < r0.len() {
                    assert(r0[p].0@ != z0[jj].0@);
                } else {
                    if jj < nej {
                        assert(z0[jj].0@ != z0[nej as int].0@);
                    } else {
                        assert(z0[nej as int].0@ != z0[jj].0@);
                    }
                }
            }
            assert forall|p: int, q: int| 0 <= p < q < r@.len() implies pred_z(#[trigger] r@[p], #[trigger] r@[q]) by {
                if q < r0.len() {
                    assert(pred_z(r0[p], r0[q]));
                } else {
                    assert(pred_z(r0[p], z0[nej as int]));
                }
            }
            assert forall|p: int, j: int| 0 <= p < r@.len() && 0 <= j < zbyva@.len() implies pred_z(
                #[trigger] r@[p],
                #[trigger] zbyva@[j],
            ) by {
                let jj = if j < nej { j } else { j + 1 };
                if p < r0.len() {
                    assert(pred_z(r0[p], z0[jj]));
                } else {
                    assert(pred_z(z0[nej as int], z0[jj]));
                }
            }
            assert forall|x: Seq<char>, h: u64| (ma_par(r@, x, h) || ma_par(zbyva@, x, h)) <==> ma_par(v0, x, h) by {
                if ma_par(r@, x, h) {
                    let p = choose|p: int| 0 <= p < r@.len() && (#[trigger] r@[p]).0@ == x && r@[p].1 == h;
                    if p < r0.len() {
                        assert(ma_par(r0, x, h));
                    } else {
                        assert(ma_par(z0, x, h));
                    }
                }
                if ma_par(zbyva@, x, h) {
                    let j = choose|j: int| 0 <= j < zbyva@.len() && (#[trigger] zbyva@[j]).0@ == x && zbyva@[j].1 == h;
                    let jj = if j < nej { j } else { j + 1 };
                    assert(z0[jj].0@ == x && z0[jj].1 == h);
                    assert(ma_par(z0, x, h));
                }
                if ma_par(v0, x, h) {
                    if ma_par(r0, x, h) {
                        let p = choose|p: int| 0 <= p < r0.len() && (#[trigger] r0[p]).0@ == x && r0[p].1 == h;
                        assert(r@[p] == r0[p]);
                    } else {
                        assert(ma_par(z0, x, h));
                        let j = choose|j: int| 0 <= j < z0.len() && (#[trigger] z0[j]).0@ == x && z0[j].1 == h;
                        if j == nej {
                            assert(r@[r0.len() as int] == z0[j]);
                        } else if j < nej {
                            assert(zbyva@[j] == z0[j]);
                        } else {
                            assert(zbyva@[j - 1] == z0[j]);
                        }
                    }
                }
            }
        }
    }
    proof {
        assert forall|x: Seq<char>, h: u64| ma_par(r@, x, h) <==> ma_par(v0, x, h) by {
            if ma_par(zbyva@, x, h) {
                let j = choose|j: int| 0 <= j < zbyva@.len() && (#[trigger] zbyva@[j]).0@ == x && zbyva@[j].1 == h;
            }
        }
    }
    r
}

/// Posloupnost úvazků obsahuje zkratku.
pub open spec fn ma_klic(r: Seq<(String, u64)>, x: Seq<char>) -> bool {
    exists|p: int| 0 <= p < r.len() && (#[trigger] r[p]).0@ == x
}

/// Učitel je ve sboru.
pub open spec fn ve_sboru(u: Seq<Ucitel>, x: Seq<char>) -> bool {
    exists|j: int| 0 <= j < u.len() && (#[trigger] u[j]).id@ == x
}

/// Učitel učí některou z lekcí.
pub open spec fn uci_lekci(l: Seq<LekceInfo>, x: Seq<char>) -> bool {
    exists|j: int| 0 <= j < l.len() && (#[trigger] l[j]).ucitel@ == x
}

/// `r` jsou úvazky učitelů sboru a lekcí: každý právě jednou, s půlhodinami týdně
/// (omezenými rozsahem `u64`), seřazené od největšího, při shodě podle zkratky.
pub open spec fn uvazky_z(ucitele: Seq<Ucitel>, lekce: Seq<LekceInfo>, r: Seq<(String, u64)>) -> bool {
    &&& klice_ruzne(r)
    &&& forall|x: Seq<char>|
        #![trigger ma_klic(r, x)]
        #![trigger ve_sboru(ucitele, x)]
        #![trigger uci_lekci(lekce, x)]
        ma_klic(r, x) <==> (ve_sboru(ucitele, x) || uci_lekci(lekce, x))
    &&& forall|p: int| 0 <= p < r.len() ==> (#[trigger] r[p]).1 == nejvys_u64(zatez_ucitele(lekce, r[p].0@, lekce.len() as int))
    &&& forall|p: int, q: int| 0 <= p < q < r.len() ==> pred_z(#[trigger] r[p], #[trigger] r[q])
}

proof fn lemma_zatez_mimo(lekce: Seq<LekceInfo>, x: Seq<char>, n: int)
    requires
        0 <= n <= lekce.len(),
        forall|j: int| 0 <= j < n ==> (#[trigger] lekce[j]).ucitel@ != x,
    ensures
        zatez_ucitele(lekce, x, n) == 0,
    decreases n,
{
    if n > 0 {
        lemma_zatez_mimo(lekce, x, n - 1);
    }
}

/// Úvazky učitelů z lekcí (viz `uvazky_z`).
pub fn zateze_z_lekci(ucitele: &Vec<Ucitel>, lekce: &Vec<LekceInfo>) -> (r: Vec<(String, u64)>)
    ensures
        uvazky_z(ucitele@, lekce@, r@),
{
    let mut z: Mapa<u64> = Mapa::new();
    let mut i: usize = 0;
    while i < ucitele.len()
        invariant
            i <= ucitele@.len(),
            z.dobre(),
            forall|x: Seq<char>| z.ma(x) <==> exists|j: int| 0 <= j < i && (#[trigger] ucitele@[j]).id@ == x,
            forall|x: Seq<char>| z.ma(x) ==> z.hodnota(x) == 0,
        decreases ucitele@.len() - i,
    {
        z.insert(ucitele[i].id.clone(), 0);
        proof {
            assert forall|x: Seq<char>| z.ma(x) <==> exists|j: int| 0 <= j < i + 1 && (#[trigger] ucitele@[j]).id@ == x by {
                if x != ucitele@[i as int].id@ && z.ma(x) {
                    let j = choose|j: int| 0 <= j < i && (#[trigger] ucitele@[j]).id@ == x;
                }
            }
        }
        i = i + 1;
    }
    let mut i: usize = 0;
    while i < lekce.len()
        invariant
            i <= lekce@.len(),
            z.dobre(),
            forall|x: Seq<char>|
                z.ma(x) <==> ((exists|j: int| 0 <= j < ucitele@.len() && (#[trigger] ucitele@[j]).id@ == x) || (exists|j: int|
                    0 <= j < i && (#[trigger] lekce@[j]).ucitel@ == x)),
            forall|x: Seq<char>| z.ma(x) ==> z.hodnota(x) == nejvys_u64(zatez_ucitele(lekce@, x, i as int)),
        decreases lekce@.len() - i,
    {
        let l = &lekce[i];
        let h: u64 = match l.tyden {
            Tyden::Oba => 2 * (l.len as u64),
            _ => l.len as u64,
        };
        let c: u64 = match z.get(l.ucitel.as_str()) {
            Some(c) => *c,
            None => 0,
        };
        proof {
            if !z.ma(l.ucitel@) {
                assert forall|j: int| 0 <= j < i implies (#[trigger] lekce@[j]).ucitel@ != l.ucitel@ by {}
                lemma_zatez_mimo(lekce@, l.ucitel@, i as int);
            }
        }
        let ghost z0 = z;
        z.insert(l.ucitel.clone(), c.saturating_add(h));
        proof {
            assert forall|x: Seq<char>|
                z.ma(x) <==> ((exists|j: int| 0 <= j < ucitele@.len() && (#[trigger] ucitele@[j]).id@ == x) || (exists|j: int|
                    0 <= j < i + 1 && (#[trigger] lekce@[j]).ucitel@ == x)) by {
                if x != l.ucitel@ && z.ma(x) && !(exists|j: int| 0 <= j < ucitele@.len() && (#[trigger] ucitele@[j]).id@ == x) {
                    assert(z0.ma(x));
                    let j = choose|j: int| 0 <= j < i && (#[trigger] lekce@[j]).ucitel@ == x;
                }
                if exists|j: int| 0 <= j < i + 1 && (#[trigger] lekce@[j]).ucitel@ == x {
                    let j = choose|j: int| 0 <= j < i + 1 && (#[trigger] lekce@[j]).ucitel@ == x;
                    if j < i {
                        assert(z0.ma(x));
                    }
                }
            }
            assert forall|x: Seq<char>| z.ma(x) implies z.hodnota(x) == nejvys_u64(zatez_ucitele(lekce@, x, i + 1)) by {
                if x != l.ucitel@ {
                    assert(z0.ma(x));
                }
            }
        }
        i = i + 1;
    }
    let mut v: Vec<(String, u64)> = Vec::new();
    let mut k: usize = 0;
    while k < z.polozky.len()
        invariant
            k <= z.polozky@.len(),
            v@.len() == k,
            forall|q: int| 0 <= q < k ==> (#[trigger] v@[q]).0@ == z.polozky@[q].0@ && v@[q].1 == z.polozky@[q].1,
        decreases z.polozky@.len() - k,
    {
        v.push((z.polozky[k].0.clone(), z.polozky[k].1));
        k = k + 1;
    }
    proof {
        assert forall|p: int, q: int| 0 <= p < q < v@.len() implies (#[trigger] v@[p]).0@ != (#[trigger] v@[q]).0@ by {
            assert(crate::mapa::serazene(z.klice()));
            assert(lex_mensi(z.klice()[p], z.klice()[q]));
            crate::mapa::lemma_lex_ireflexivni(z.klice()[p]);
        }
    }
    let r = serad_zateze(v);
    proof {
        assert forall|x: Seq<char>| ma_klic(r@, x) <==> z.ma(x) by {
            if exists|p: int| 0 <= p < r@.len() && (#[trigger] r@[p]).0@ == x {
                let p = choose|p: int| 0 <= p < r@.len() && (#[trigger] r@[p]).0@ == x;
                assert(ma_par(r@, x, r@[p].1));
                assert(ma_par(v@, x, r@[p].1));
                let q = choose|q: int| 0 <= q < v@.len() && (#[trigger] v@[q]).0@ == x && v@[q].1 == r@[p].1;
                assert(z.polozky@[q].0@ == x);
            }
            if z.ma(x) {
                let q = choose|q: int| 0 <= q < z.polozky@.len() && #[trigger] z.polozky@[q].0@ == x;
                assert(v@[q].0@ == x);
                assert(ma_par(v@, x, v@[q].1));
                assert(ma_par(r@, x, v@[q].1));
            }
        }
        assert forall|p: int| 0 <= p < r@.len() implies (#[trigger] r@[p]).1 == nejvys_u64(
            zatez_ucitele(lekce@, r@[p].0@, lekce@.len() as int),
        ) by {
            let x = r@[p].0@;
            assert(ma_par(r@, x, r@[p].1));
            assert(ma_par(v@, x, r@[p].1));
            let q = choose|q: int| 0 <= q < v@.len() && (#[trigger] v@[q]).0@ == x && v@[q].1 == r@[p].1;
            z.lemma_jednoznacne(q, x);
        }
        assert forall|x: Seq<char>| ma_klic(r@, x) <==> (ve_sboru(ucitele@, x) || uci_lekci(lekce@, x)) by {
            assert(ma_klic(r@, x) <==> z.ma(x));
        }
    }
    r
}

/// Úvazky učitelů (půlhodiny týdně; hodina lichého nebo sudého týdne se počítá
/// polovinou) spočítané z lekcí plánu a voleb, bez generování rozvrhu.
pub fn zateze(skola: &Skola, rok: &SkolniRok) -> (r: Vec<(String, u64)>)
    requires
        skola.tridy@.len() < 0x1000_0000,
        skola.plan@.len() * 255 <= usize::MAX,
        crate::rok::volby_platne(rok.studenti@),
    ensures
        exists|v: crate::solver::Vstup| crate::solver::postaveno(*skola, *rok, v) && #[trigger] uvazky_z(skola.ucitele@, v.lekce@, r@),
{
    let vstup = postav_lekce(skola, rok);
    let r = zateze_z_lekci(&skola.ucitele, &vstup.lekce);
    proof {
        assert(crate::solver::postaveno(*skola, *rok, vstup) && uvazky_z(skola.ucitele@, vstup.lekce@, r@));
    }
    r
}

} // verus!
